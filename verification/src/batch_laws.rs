//! What holds of merging many groups at once: which tasks are passed over, and what leaves the index.
use crate::batch;
use crate::files::FileState;
use crate::merge_laws;
use crate::merging;
use crate::merging::StepOutcome;
use crate::models::{BatchMergeTask, VideoRecord};
use crate::rows;
use vstd::prelude::*;

verus! {

/// A task waits for its group to be looked at again exactly where one of its videos is in an earlier
/// task of the same run.
pub proof fn law_videos_are_merged_once(task: BatchMergeTask, claimed: Seq<i64>)
    ensures
        batch::task_is_late(task, claimed) <==> claimed.contains(task.keeper_id)
            || claimed.contains(task.naming_source_id) || exists|k: int|
            0 <= k < task.extra_video_ids@.len() && claimed.contains(
                #[trigger] task.extra_video_ids@[k],
            ),
{
    if batch::task_is_late(task, claimed) {
        let k = choose|k: int|
            0 <= k < claimed.len() && batch::task_names(task, #[trigger] claimed[k]);
        assert(claimed.contains(claimed[k]));
        if task.extra_video_ids@.contains(claimed[k]) {
            let e = choose|e: int|
                0 <= e < task.extra_video_ids@.len() && task.extra_video_ids@[e] == claimed[k];
            assert(claimed.contains(task.extra_video_ids@[e]));
        }
    }
    if claimed.contains(task.keeper_id) {
        let k = choose|k: int| 0 <= k < claimed.len() && claimed[k] == task.keeper_id;
        assert(batch::task_names(task, claimed[k]));
    }
    if claimed.contains(task.naming_source_id) {
        let k = choose|k: int| 0 <= k < claimed.len() && claimed[k] == task.naming_source_id;
        assert(batch::task_names(task, claimed[k]));
    }
    if exists|k: int|
        0 <= k < task.extra_video_ids@.len() && claimed.contains(
            #[trigger] task.extra_video_ids@[k],
        ) {
        let e = choose|e: int|
            0 <= e < task.extra_video_ids@.len() && claimed.contains(
                #[trigger] task.extra_video_ids@[e],
            );
        let id = task.extra_video_ids@[e];
        let k = choose|k: int| 0 <= k < claimed.len() && claimed[k] == id;
        assert(task.extra_video_ids@.contains(id));
        assert(batch::task_names(task, claimed[k]));
    }
}

/// The videos that a task removes are those that it lists and the index knows, but for the kept one
/// and the one that gives the place, each once.
pub proof fn law_tasks_remove_known_others(videos: Seq<VideoRecord>, task: BatchMergeTask, x: i64)
    ensures
        batch::batch_extra_ids(videos, task).contains(x) <==> {
            &&& task.extra_video_ids@.contains(x)
            &&& x != task.keeper_id
            &&& x != task.naming_source_id
            &&& exists|k: int| 0 <= k < videos.len() && (#[trigger] videos[k]).id == Some(x)
        },
        batch::batch_extra_ids(videos, task).no_duplicates(),
{
    let property = batch::is_known_extra(videos, task.keeper_id, task.naming_source_id);
    let kept = rows::having(task.extra_video_ids@, property);
    rows::lemma_having(task.extra_video_ids@, property);
    rows::lemma_firsts(kept);
    merge_laws::law_ids_are_found(videos, x);
    if kept.contains(x) {
        let at = choose|at: int| 0 <= at < kept.len() && kept[at] == x;
        assert(property(kept[at]));
    }
    if exists|k: int| 0 <= k < videos.len() && (#[trigger] videos[k]).id == Some(x) {
        let k = choose|k: int| 0 <= k < videos.len() && (#[trigger] videos[k]).id == Some(x);
        assert(merging::place(videos, x) is Some);
    }
}

/// A task is only worked on where none of its videos is taken, the videos that it keeps and takes
/// place and name from are known, and there is something to remove, to move or to rename.
pub proof fn law_tasks_that_are_worked_on(
    videos: Seq<VideoRecord>,
    claimed: Seq<i64>,
    task_index: usize,
    task: BatchMergeTask,
)
    ensures
        batch::task_trouble(videos, claimed, task_index, task) is None ==> {
            &&& !claimed.contains(task.keeper_id)
            &&& !claimed.contains(task.naming_source_id)
            &&& forall|k: int|
                0 <= k < task.extra_video_ids@.len() ==> !claimed.contains(
                    #[trigger] task.extra_video_ids@[k],
                )
            &&& merging::place(videos, task.keeper_id) is Some
            &&& merging::place(videos, task.naming_source_id) is Some
            &&& task.filename_source_id matches Some(id) ==> merging::place(videos, id) is Some
            &&& task.keeper_id != task.naming_source_id || task.filename_source_id is Some
                || batch::batch_extra_ids(videos, task).len() > 0
        },
        merging::place(videos, task.keeper_id) is Some && merging::place(
            videos,
            task.naming_source_id,
        ) is Some && task.filename_source_id is None && claimed.len() == 0 && (task.keeper_id
            != task.naming_source_id || batch::batch_extra_ids(videos, task).len() > 0)
            ==> batch::task_trouble(videos, claimed, task_index, task) is None,
{
    law_videos_are_merged_once(task, claimed);
}

/// A task is carried out only where the files that it moves are there.
pub proof fn law_merged_files_are_there(
    videos: Seq<VideoRecord>,
    task_index: usize,
    draft: merging::DraftData,
    keeper_state: FileState,
    source_state: FileState,
    target_state: FileState,
)
    ensures
        batch::preflight(videos, task_index, draft, keeper_state, source_state, target_state) == Ok::<
            Option<Seq<char>>,
            Seq<char>,
        >(None) && draft.keeper != draft.source ==> keeper_state is Present && source_state
            is Present,
        batch::preflight(videos, task_index, draft, keeper_state, source_state, target_state) == Ok::<
            Option<Seq<char>>,
            Seq<char>,
        >(None) && !crate::paths::same_place(
            draft.host,
            draft.final_path,
            videos[draft.keeper].path@,
        ) ==> keeper_state is Present,
        draft.keeper != draft.source && keeper_state is Missing ==> batch::preflight(
            videos,
            task_index,
            draft,
            keeper_state,
            source_state,
            target_state,
        ) matches Ok(Some(_)),
        draft.keeper != draft.source && keeper_state is Present && source_state is Missing
            ==> batch::preflight(
            videos,
            task_index,
            draft,
            keeper_state,
            source_state,
            target_state,
        ) matches Ok(Some(_)),
        keeper_state is Present && source_state is Present && target_state is Missing
            ==> batch::preflight(
            videos,
            task_index,
            draft,
            keeper_state,
            source_state,
            target_state,
        ) == Ok::<Option<Seq<char>>, Seq<char>>(None),
{
}

/// A failed or refused step ends its group, but for one that only puts an extra away: its failure is
/// reported, and the rest goes on.
pub proof fn law_failed_steps_end_their_group(step: merging::StepData, outcome: StepOutcome)
    ensures
        outcome is Done || outcome is Missing ==> batch::group_failure(step, outcome) is None,
        outcome is Refused ==> batch::group_failure(step, outcome) is Some,
        outcome is Failed ==> (batch::group_failure(step, outcome) is None <==> step.role
            is ExtraAway),
{
}

/// Whether an extra is gone after its step.
pub open spec fn is_gone(step: merging::StepData, outcome: StepOutcome) -> bool {
    outcome is Done || (outcome is Missing && step.action is Delete)
}

/// A removed extra leaves the index; one whose step failed stays in it and is counted.
pub proof fn law_failed_extras_stay_in_the_index(
    videos: Seq<VideoRecord>,
    taken: Seq<int>,
    steps: Seq<merging::StepData>,
    outcomes: Seq<StepOutcome>,
    from: int,
    n: int,
    id: i64,
)
    requires
        0 <= n <= taken.len(),
        0 <= from,
        from + n <= steps.len(),
        steps.len() == outcomes.len(),
        forall|k: int|
            0 <= k < n ==> 0 <= #[trigger] taken[k] < videos.len() && videos[taken[k]].id is Some,
    ensures
        batch::extra_report(videos, taken, steps, outcomes, from, n).removed.contains(id)
            <==> exists|k: int|
            0 <= k < n && videos[#[trigger] taken[k]].id == Some(id) && is_gone(
                steps[from + k],
                outcomes[from + k],
            ),
        batch::extra_report(videos, taken, steps, outcomes, from, n).failures <= n,
        batch::extra_report(videos, taken, steps, outcomes, from, n).failures == 0 ==> forall|
            k: int,
        |
            0 <= k < n ==> !(outcomes[from + k] is Failed && 0 <= #[trigger] taken[k]),
        batch::extra_report(videos, taken, steps, outcomes, from, n).failures >= 0,
    decreases n,
{
    if n > 0 {
        law_failed_extras_stay_in_the_index(videos, taken, steps, outcomes, from, n - 1, id);
        let rest = batch::extra_report(videos, taken, steps, outcomes, from, n - 1).removed;
        let all = batch::extra_report(videos, taken, steps, outcomes, from, n).removed;
        let own = videos[taken[n - 1]].id->0;
        let gone = is_gone(steps[from + n - 1], outcomes[from + n - 1]);
        if rest.contains(id) {
            let at = choose|at: int| 0 <= at < rest.len() && rest[at] == id;
            assert(all[at] == id);
        }
        if gone && own == id {
            assert(all[rest.len() as int] == id);
        }
        if all.contains(id) && !rest.contains(id) {
            let at = choose|at: int| 0 <= at < all.len() && all[at] == id;
            if at < rest.len() {
                assert(rest[at] == id);
            }
            assert(gone && own == id);
            assert(videos[taken[n - 1]].id == Some(id));
        }
        if exists|k: int|
            0 <= k < n && videos[#[trigger] taken[k]].id == Some(id) && is_gone(
                steps[from + k],
                outcomes[from + k],
            ) {
            let k = choose|k: int|
                0 <= k < n && videos[#[trigger] taken[k]].id == Some(id) && is_gone(
                    steps[from + k],
                    outcomes[from + k],
                );
            if k < n - 1 {
                assert(rest.contains(id));
            }
        }
    }
}

/// With a merged group the video whose place was taken leaves the index, and so do the extras that
/// were gone before and those that were removed; no other video does.
pub proof fn law_merged_groups_leave_the_index(
    videos: Seq<VideoRecord>,
    draft: merging::DraftData,
    missing: Seq<int>,
    extras: batch::ExtraReport,
    id: i64,
)
    ensures
        batch::group_removed(videos, draft, missing, extras).contains(id) <==> {
            ||| draft.keeper != draft.source && videos[draft.source].id->0 == id
            ||| extras.removed.contains(id)
            ||| exists|k: int|
                0 <= k < missing.len() && videos[#[trigger] missing[k]].id == Some(id)
        },
{
    lemma_ids_at(videos, missing, missing.len() as int, id);
    let first = merging::ids_at(videos, missing, missing.len() as int);
    let second = if draft.keeper != draft.source {
        seq![videos[draft.source].id->0]
    } else {
        Seq::empty()
    };
    let all = batch::group_removed(videos, draft, missing, extras);
    assert(all =~= first + second + extras.removed);
    if first.contains(id) {
        let at = choose|at: int| 0 <= at < first.len() && first[at] == id;
        assert(all[at] == id);
    }
    if draft.keeper != draft.source && videos[draft.source].id->0 == id {
        assert(all[first.len() as int] == id);
    }
    if extras.removed.contains(id) {
        let at = choose|at: int| 0 <= at < extras.removed.len() && extras.removed[at] == id;
        assert(all[first.len() + second.len() + at] == id);
    }
    if all.contains(id) {
        let at = choose|at: int| 0 <= at < all.len() && all[at] == id;
        if at < first.len() {
            assert(first[at] == id);
        } else if at < first.len() + second.len() {
            assert(second[at - first.len()] == id);
        } else {
            assert(extras.removed[at - first.len() - second.len()] == id);
        }
    }
}

proof fn lemma_ids_at(videos: Seq<VideoRecord>, list: Seq<int>, n: int, id: i64)
    requires
        0 <= n <= list.len(),
    ensures
        merging::ids_at(videos, list, n).contains(id) <==> exists|k: int|
            0 <= k < n && videos[#[trigger] list[k]].id == Some(id),
    decreases n,
{
    if n > 0 {
        lemma_ids_at(videos, list, n - 1, id);
        let rest = merging::ids_at(videos, list, n - 1);
        let all = merging::ids_at(videos, list, n);
        if rest.contains(id) {
            let at = choose|at: int| 0 <= at < rest.len() && rest[at] == id;
            assert(all[at] == id);
        }
        if videos[list[n - 1]].id == Some(id) {
            assert(all[rest.len() as int] == id);
        }
        if all.contains(id) && !rest.contains(id) {
            let at = choose|at: int| 0 <= at < all.len() && all[at] == id;
            if at < rest.len() {
                assert(rest[at] == id);
            }
            assert(videos[list[n - 1]].id == Some(id));
        }
    }
}

/// Counters stop at the largest number instead of starting over.
pub proof fn law_counters_do_not_start_over(a: usize, b: int)
    requires
        b >= 0,
    ensures
        batch::capped(a, b) >= a,
        batch::capped(a, b) <= usize::MAX,
        a + b <= usize::MAX ==> batch::capped(a, b) - a == b,
{
}

} // verus!
