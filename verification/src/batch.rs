//! Merging many groups of copies in one go.
use crate::files;
use crate::files::{
    ensure_merge_destination_available, existing_file_status, FileParts, FileState,
};
use crate::index::DeletedVideoRows;
use crate::merging;
use crate::merging::{
    draft_merge, find_conflict, find_place, find_videos, merge_mode, show_id, MergeDraft,
    MergeStep, StepOutcome, StepRole,
};
use crate::models;
use crate::models::{BatchMergeTask, VideoRecord};
use crate::paths;
use crate::paths::{Root, RootData};
use crate::rows;
use crate::rows::has_id;
use crate::text;
use crate::text::{
    add_line, cat, cat3, cat4, cat5, cat6, decimal_text, signed_decimal_text,
};
use vstd::prelude::*;
use vstd::string::*;

verus! {

/// A group that can be merged, with the number of its task.
#[derive(Debug, Clone)]
pub struct BatchPlan {
    pub task_index: usize,
    pub draft: MergeDraft,
}

/// The planning of a batch: the videos that tasks have claimed, the groups that can be merged,
/// and the tasks that were passed over.
#[derive(Debug, Clone)]
pub struct BatchPlanner {
    pub claimed: Vec<i64>,
    pub plans: Vec<BatchPlan>,
    pub messages: Vec<String>,
    pub skipped: usize,
}

/// Whether a task is about a video.
pub open spec fn task_names(task: BatchMergeTask, id: i64) -> bool {
    id == task.keeper_id || id == task.naming_source_id || task.extra_video_ids@.contains(id)
}

/// Whether a task is about a video that was claimed.
pub open spec fn task_is_late(task: BatchMergeTask, claimed: Seq<i64>) -> bool {
    exists|k: int| 0 <= k < claimed.len() && task_names(task, #[trigger] claimed[k])
}

/// Whether a merge is about the video with an id.
pub open spec fn draft_names(videos: Seq<VideoRecord>, draft: MergeDraft, id: i64) -> bool {
    ||| videos[draft.keeper as int].id == Some(id)
    ||| videos[draft.source as int].id == Some(id)
    ||| exists|k: int|
        0 <= k < draft.extras@.len() && videos[(#[trigger] draft.extras@[k]) as int].id == Some(id)
}

impl BatchPlanner {
    /// Every plan is about claimed videos only, and no two plans are about one video.
    pub open spec fn wf(&self, videos: Seq<VideoRecord>) -> bool {
        &&& forall|p: int|
            0 <= p < self.plans@.len() ==> (#[trigger] self.plans@[p]).draft.fits(videos.len())
        &&& forall|p: int, id: i64|
            0 <= p < self.plans@.len() && #[trigger] draft_names(videos, self.plans@[p].draft, id)
                ==> self.claimed@.contains(id)
        &&& forall|p: int, q: int, id: i64|
            0 <= p < q < self.plans@.len() && #[trigger] draft_names(
                videos,
                self.plans@[p].draft,
                id,
            ) ==> !#[trigger] draft_names(videos, self.plans@[q].draft, id)
    }

    /// Whether the videos of a merge are claimed, and no plan is about one of them.
    pub open spec fn admits(&self, videos: Seq<VideoRecord>, draft: MergeDraft) -> bool {
        &&& draft.fits(videos.len())
        &&& forall|id: i64| #[trigger]
            draft_names(videos, draft, id) ==> self.claimed@.contains(id)
        &&& forall|p: int, id: i64|
            0 <= p < self.plans@.len() && #[trigger] draft_names(videos, self.plans@[p].draft, id)
                ==> !#[trigger] draft_names(videos, draft, id)
    }
}

/// Starts a batch; fails where there are no tasks, or merging is refused.
pub fn execute_batch_merge_selection(
    tasks: &Vec<BatchMergeTask>,
    disposal: &str,
    confirmation: &str,
    allow_direct_delete: bool,
) -> (r: Result<(bool, BatchPlanner), String>)
    ensures
        ({
            let mode = merging::merge_mode_of(disposal@, confirmation@, allow_direct_delete);
            if tasks@.len() == 0 {
                r is Err && r->Err_0@ == "batch merge task list is empty"@
            } else {
                match mode {
                    Err(message) => r is Err && r->Err_0@ == message,
                    Ok(backup) => {
                        &&& r is Ok && r->Ok_0.0 == backup
                        &&& r->Ok_0.1.claimed@.len() == 0
                        &&& r->Ok_0.1.plans@.len() == 0
                        &&& r->Ok_0.1.messages@.len() == 0
                        &&& r->Ok_0.1.skipped == 0
                    },
                }
            }
        }),
{
    if tasks.len() == 0 {
        return Err("batch merge task list is empty".to_owned());
    }
    match merge_mode(disposal, confirmation, allow_direct_delete) {
        Err(message) => Err(message),
        Ok(backup) => Ok(
            (
                backup,
                BatchPlanner {
                    claimed: Vec::new(),
                    plans: Vec::new(),
                    messages: Vec::new(),
                    skipped: 0,
                },
            ),
        ),
    }
}

/// Whether an id is neither of two and is in the index.
pub open spec fn is_known_extra(videos: Seq<VideoRecord>, keeper: i64, source: i64) -> spec_fn(
    i64,
) -> bool {
    |id: i64| id != keeper && id != source && merging::place(videos, id) is Some
}

/// The ids of the videos that a task puts away: those of the index, each once.
pub open spec fn batch_extra_ids(videos: Seq<VideoRecord>, task: BatchMergeTask) -> Seq<i64> {
    rows::firsts(
        rows::having(
            task.extra_video_ids@,
            is_known_extra(videos, task.keeper_id, task.naming_source_id),
        ),
    )
}

/// The ids of the videos that a task puts away.
fn list_batch_extra_ids(videos: &Vec<VideoRecord>, task: &BatchMergeTask) -> (r: Vec<i64>)
    ensures
        r@ == batch_extra_ids(videos@, *task),
        forall|k: int| 0 <= k < r@.len() ==> merging::place(videos@, #[trigger] r@[k]) is Some,
        forall|k: int| 0 <= k < r@.len() ==> task.extra_video_ids@.contains(#[trigger] r@[k]),
{
    let ids = &task.extra_video_ids;
    let keeper: i64 = task.keeper_id;
    let source: i64 = task.naming_source_id;
    let ghost known = is_known_extra(videos@, keeper, source);
    let mut out: Vec<i64> = Vec::new();
    let mut i: usize = 0;
    assert(ids@.take(0) =~= Seq::empty());
    while i < ids.len()
        invariant
            i <= ids@.len(),
            known == is_known_extra(videos@, keeper, source),
            out@ == rows::firsts(rows::having(ids@.take(i as int), known)),
        decreases ids@.len() - i,
    {
        let id: i64 = ids[i];
        let ghost before = rows::having(ids@.take(i as int), known);
        assert(ids@.take(i + 1).drop_last() =~= ids@.take(i as int));
        if id != keeper && id != source {
            if let Some(_at) = find_place(videos, id) {
                assert(before.push(id).drop_last() =~= before);
                if !has_id(&out, id) {
                    out.push(id);
                }
            }
        }
        i += 1;
    }
    assert(ids@.take(i as int) =~= ids@);
    proof {
        let kept = rows::having(ids@, known);
        rows::lemma_firsts(kept);
        rows::lemma_having(ids@, known);
        assert forall|k: int| 0 <= k < out@.len() implies merging::place(
            videos@,
            #[trigger] out@[k],
        ) is Some && ids@.contains(out@[k]) by {
            assert(out@.contains(out@[k]));
            assert(kept.contains(out@[k]));
            let j = choose|j: int| 0 <= j < kept.len() && kept[j] == out@[k];
            assert(known(kept[j]));
        }
    }
    out
}

/// The start of the message that a task is passed over.
pub open spec fn skipping(task_index: usize) -> Seq<char> {
    "skipped task "@ + text::decimal((task_index + 1) as nat)
}

/// Why a task is passed over before files are looked at.
pub open spec fn task_trouble(
    videos: Seq<VideoRecord>,
    claimed: Seq<i64>,
    task_index: usize,
    task: BatchMergeTask,
) -> Option<Seq<char>> {
    let start = skipping(task_index);
    if task_is_late(task, claimed) {
        Some(
            start
                + " because one of its videos was already claimed by an earlier batch task"@,
        )
    } else if merging::place(videos, task.keeper_id) is None {
        Some(
            start + " because keeper id "@ + text::signed_decimal(task.keeper_id as int)
                + " no longer exists"@,
        )
    } else if merging::place(videos, task.naming_source_id) is None {
        Some(
            start + " because naming source id "@ + text::signed_decimal(
                task.naming_source_id as int,
            ) + " no longer exists"@,
        )
    } else if task.filename_source_id is Some && merging::place(videos, task.filename_source_id->0)
        is None {
        Some(
            start + " because filename source id "@ + text::signed_decimal(
                task.filename_source_id->0 as int,
            ) + " no longer exists"@,
        )
    } else if merging::keeps_place_and_name(
        task.keeper_id,
        task.naming_source_id,
        task.filename_source_id,
    ) && batch_extra_ids(videos, task).len() == 0 {
        Some(start + " because it has no removable extra videos"@)
    } else {
        None
    }
}

fn skip_text(task_index: usize, rest: &str) -> (r: String)
    requires
        task_index < usize::MAX,
    ensures
        r@ == skipping(task_index) + rest@,
{
    cat3("skipped task ", decimal_text((task_index + 1) as u64).as_str(), rest)
}

fn skip_id_text(task_index: usize, what: &str, id: i64) -> (r: String)
    requires
        task_index < usize::MAX,
    ensures
        r@ == skipping(task_index) + what@ + text::signed_decimal(id as int)
            + " no longer exists"@,
{
    cat5(
        "skipped task ",
        decimal_text((task_index + 1) as u64).as_str(),
        what,
        signed_decimal_text(id).as_str(),
        " no longer exists",
    )
}

fn is_late(task: &BatchMergeTask, claimed: &Vec<i64>) -> (r: bool)
    ensures
        r == task_is_late(*task, claimed@),
{
    let mut i: usize = 0;
    while i < claimed.len()
        invariant
            i <= claimed@.len(),
            forall|k: int| 0 <= k < i ==> !task_names(*task, #[trigger] claimed@[k]),
        decreases claimed@.len() - i,
    {
        let id: i64 = claimed[i];
        if id == task.keeper_id || id == task.naming_source_id || has_id(
            &task.extra_video_ids,
            id,
        ) {
            assert(task_names(*task, claimed@[i as int]));
            return true;
        }
        i += 1;
    }
    false
}

fn why_skipped(
    videos: &Vec<VideoRecord>,
    claimed: &Vec<i64>,
    task_index: usize,
    task: &BatchMergeTask,
) -> (r: Option<String>)
    requires
        task_index < usize::MAX,
    ensures
        models::opt_text(r) == task_trouble(videos@, claimed@, task_index, *task),
{
    if is_late(task, claimed) {
        return Some(
            skip_text(
                task_index,
                " because one of its videos was already claimed by an earlier batch task",
            ),
        );
    }
    if find_place(videos, task.keeper_id).is_none() {
        return Some(skip_id_text(task_index, " because keeper id ", task.keeper_id));
    }
    if find_place(videos, task.naming_source_id).is_none() {
        return Some(
            skip_id_text(task_index, " because naming source id ", task.naming_source_id),
        );
    }
    let mut own_name = true;
    if let Some(id) = task.filename_source_id {
        if find_place(videos, id).is_none() {
            return Some(skip_id_text(task_index, " because filename source id ", id));
        }
        own_name = id == task.keeper_id;
    }
    if task.keeper_id == task.naming_source_id && own_name && list_batch_extra_ids(
        videos,
        task,
    ).len() == 0 {
        return Some(skip_text(task_index, " because it has no removable extra videos"));
    }
    None
}

proof fn lemma_known_places(videos: Seq<VideoRecord>, ids: Seq<i64>, n: int)
    requires
        0 <= n <= ids.len(),
        forall|k: int| 0 <= k < ids.len() ==> merging::place(videos, #[trigger] ids[k]) is Some,
    ensures
        merging::all_places(videos, ids, n) is Ok,
        merging::all_places(videos, ids, n)->Ok_0.len() == n,
        forall|k: int|
            0 <= k < n ==> Some(#[trigger] merging::all_places(videos, ids, n)->Ok_0[k])
                == merging::place(videos, ids[k]),
    decreases n,
{
    if n > 0 {
        lemma_known_places(videos, ids, n - 1);
        assert(merging::place(videos, ids[n - 1]) is Some);
    }
}

/// Whether `after` is `before` with one task passed over.
pub open spec fn passed_over(before: BatchPlanner, after: BatchPlanner, message: Seq<char>) -> bool {
    &&& after.plans@ == before.plans@
    &&& models::texts(after.messages@) == models::texts(before.messages@).push(message)
    &&& after.skipped == (if before.skipped < usize::MAX {
        before.skipped + 1
    } else {
        before.skipped as int
    })
}

/// Whether `after` has claimed the videos of a task beside those that were claimed.
pub open spec fn claims_too(before: Seq<i64>, after: Seq<i64>, task: BatchMergeTask) -> bool {
    forall|id: i64| #[trigger]
        after.contains(id) <==> before.contains(id) || task_names(task, id)
}

/// The draft of a task, or why the whole batch fails.
pub open spec fn task_draft(
    videos: Seq<VideoRecord>,
    parts: Seq<FileParts>,
    task: BatchMergeTask,
    restricted: bool,
    root: RootData,
) -> Result<merging::DraftData, Seq<char>> {
    let ids = batch_extra_ids(videos, task);
    merging::drafted(
        videos,
        parts,
        merging::place(videos, task.keeper_id)->0,
        merging::place(videos, task.naming_source_id)->0,
        match task.filename_source_id {
            Some(id) => merging::place(videos, id),
            None => None,
        },
        Seq::new(ids.len(), |k: int| merging::place(videos, ids[k])->0),
        restricted,
        root,
    )
}

impl BatchPlanner {
    fn pass_over(&mut self, message: String)
        ensures
            passed_over(*old(self), *final(self), message@),
            final(self).claimed@ == old(self).claimed@,
    {
        if self.skipped < usize::MAX {
            self.skipped = self.skipped + 1;
        }
        add_line(&mut self.messages, message);
    }

    fn claim(&mut self, task: &BatchMergeTask)
        ensures
            claims_too(old(self).claimed@, final(self).claimed@, *task),
            final(self).plans@ == old(self).plans@,
            final(self).messages@ == old(self).messages@,
            final(self).skipped == old(self).skipped,
    {
        let ghost before = self.claimed@;
        self.claimed.push(task.keeper_id);
        self.claimed.push(task.naming_source_id);
        let ghost start = self.claimed@;
        let mut i: usize = 0;
        assert(task.extra_video_ids@.take(0) =~= Seq::empty());
        assert(start + task.extra_video_ids@.take(0) =~= start);
        while i < task.extra_video_ids.len()
            invariant
                i <= task.extra_video_ids@.len(),
                self.claimed@ == start + task.extra_video_ids@.take(i as int),
                self.plans@ == old(self).plans@,
                self.messages@ == old(self).messages@,
                self.skipped == old(self).skipped,
            decreases task.extra_video_ids@.len() - i,
        {
            let id: i64 = task.extra_video_ids[i];
            self.claimed.push(id);
            assert(start + task.extra_video_ids@.take(i + 1) =~= (start
                + task.extra_video_ids@.take(i as int)).push(id));
            i += 1;
        }
        let ghost all = self.claimed@;
        assert(task.extra_video_ids@.take(i as int) =~= task.extra_video_ids@);
        assert forall|id: i64| #[trigger] all.contains(id) <==> before.contains(id) || task_names(
            *task,
            id,
        ) by {
            let n = before.len() as int;
            assert(all[n] == task.keeper_id);
            assert(all[n + 1] == task.naming_source_id);
            if all.contains(id) {
                let k = choose|k: int| 0 <= k < all.len() && all[k] == id;
                if k < n {
                    assert(before[k] == id);
                } else if k >= n + 2 {
                    assert(task.extra_video_ids@[k - n - 2] == id);
                }
            }
            if before.contains(id) {
                let k = choose|k: int| 0 <= k < before.len() && before[k] == id;
                assert(all[k] == id);
            }
            if task.extra_video_ids@.contains(id) {
                let k = choose|k: int|
                    0 <= k < task.extra_video_ids@.len() && task.extra_video_ids@[k] == id;
                assert(all[n + 2 + k] == id);
            }
        }
    }

    /// Looks at a task: it is passed over, or its videos are claimed and the merge is drafted. A
    /// task that has to do with a claimed video is passed over without claiming more. Fails, and
    /// with it the batch, where a path may not be worked on or no path can be made.
    #[verifier::rlimit(40)]
    pub fn draft_task(
        &mut self,
        videos: &Vec<VideoRecord>,
        parts: &Vec<FileParts>,
        task_index: usize,
        task: &BatchMergeTask,
        restricted: bool,
        root: &Root,
    ) -> (r: Result<Option<MergeDraft>, String>)
        requires
            old(self).wf(videos@),
            parts@.len() == videos@.len(),
            task_index < usize::MAX,
        ensures
            final(self).wf(videos@),
            ({
                let trouble = task_trouble(videos@, old(self).claimed@, task_index, *task);
                let draft = task_draft(videos@, parts@, *task, restricted, root@);
                &&& if task_is_late(*task, old(self).claimed@) {
                    final(self).claimed@ == old(self).claimed@
                } else {
                    claims_too(old(self).claimed@, final(self).claimed@, *task)
                }
                &&& match trouble {
                    Some(message) => r == Ok::<Option<MergeDraft>, String>(None) && passed_over(
                        *old(self),
                        *final(self),
                        message,
                    ),
                    None => {
                        &&& final(self).plans@ == old(self).plans@
                        &&& final(self).messages@ == old(self).messages@
                        &&& final(self).skipped == old(self).skipped
                        &&& match draft {
                            Err(message) => r is Err && r->Err_0@ == message,
                            Ok(data) => r matches Ok(Some(found)) && found@ == data && final(self).admits(videos@, found),
                        }
                    },
                }
            }),
    {
        let ghost before = *self;
        let late = is_late(task, &self.claimed);
        let why = why_skipped(videos, &self.claimed, task_index, task);
        if !late {
            self.claim(task);
        }
        if let Some(message) = why {
            self.pass_over(message);
            return Ok(None);
        }
        let ids = list_batch_extra_ids(videos, task);
        proof {
            lemma_known_places(videos@, ids@, ids@.len() as int);
        }
        let extras = match find_videos(videos, &ids) {
            Ok(list) => list,
            Err(message) => {
                return Err(message);
            },
        };
        let keeper = find_place(videos, task.keeper_id);
        let source = find_place(videos, task.naming_source_id);
        let named_by: Option<usize> = match task.filename_source_id {
            Some(id) => find_place(videos, id),
            None => None,
        };
        match (keeper, source) {
            (Some(k), Some(s)) => {
                assert(merging::positions(extras@) =~= Seq::new(
                    ids@.len(),
                    |n: int| merging::place(videos@, ids@[n])->0,
                ));
                let ghost extras_seq = extras@;
                match draft_merge(videos, parts, k, s, named_by, extras, restricted, root) {
                    Err(message) => Err(message),
                    Ok(draft) => {
                        proof {
                            assert forall|id: i64| #[trigger]
                                draft_names(videos@, draft, id) implies task_names(*task, id) by {
                                if exists|n: int|
                                    0 <= n < draft.extras@.len() && videos@[(
                                    #[trigger] draft.extras@[n]) as int].id == Some(id) {
                                    let n = choose|n: int|
                                        0 <= n < draft.extras@.len() && videos@[(
                                        #[trigger] draft.extras@[n]) as int].id == Some(id);
                                    assert(merging::positions(extras_seq)[n] == extras_seq[n]);
                                    merging::lemma_place(videos@, ids@[n], 0);
                                    assert(ids@[n] == id);
                                    assert(task.extra_video_ids@.contains(ids@[n]));
                                }
                            }
                            assert forall|p: int, id: i64|
                                0 <= p < self.plans@.len() && #[trigger] draft_names(
                                    videos@,
                                    self.plans@[p].draft,
                                    id,
                                ) implies !#[trigger] draft_names(videos@, draft, id) by {
                                assert(before.claimed@.contains(id));
                                let n = choose|n: int|
                                    0 <= n < before.claimed@.len() && before.claimed@[n] == id;
                                assert(!task_names(*task, before.claimed@[n]));
                            }
                        }
                        Ok(Some(draft))
                    },
                }
            },
            _ => Ok(None),
        }
    }
}

/// The paths of all files of a merge.
pub open spec fn merged_paths(videos: Seq<VideoRecord>, draft: merging::DraftData) -> Seq<
    Seq<char>,
> {
    seq![videos[draft.keeper].path@, videos[draft.source].path@] + Seq::new(
        draft.extras.len(),
        |k: int| videos[draft.extras[k]].path@,
    )
}

/// The paths of all files of a merge.
pub fn list_merged_paths(videos: &Vec<VideoRecord>, draft: &MergeDraft) -> (r: Vec<String>)
    requires
        draft.fits(videos@.len()),
    ensures
        models::texts(r@) == merged_paths(videos@, draft@),
{
    let ghost all = merged_paths(videos@, draft@);
    let mut out: Vec<String> = Vec::new();
    assert(models::texts(out@) =~= Seq::empty());
    add_line(&mut out, videos[draft.keeper].path.clone());
    add_line(&mut out, videos[draft.source].path.clone());
    let mut i: usize = 0;
    assert(models::texts(out@) =~= all.take(2));
    while i < draft.extras.len()
        invariant
            i <= draft.extras@.len(),
            draft.fits(videos@.len()),
            all == merged_paths(videos@, draft@),
            models::texts(out@) == all.take(2 + i),
        decreases draft.extras@.len() - i,
    {
        add_line(&mut out, videos[draft.extras[i]].path.clone());
        assert(draft@.extras[i as int] == draft.extras@[i as int]);
        assert(all.take(2 + i + 1) =~= all.take(2 + i).push(all[2 + i]));
        i += 1;
    }
    assert(all.take(2 + i) =~= all);
    out
}

/// Why a task is passed over once files were looked at: the path that the kept video gets belongs
/// to another video whose file is there.
pub open spec fn owned_message(task_index: usize, video: VideoRecord) -> Seq<char> {
    skipping(task_index) + " because target path is owned by unrelated video id "@
        + merging::shown_id(video.id) + ": "@ + video.path@
}

impl BatchPlanner {
    /// Plans a drafted task, now that it is known what stands at the path that the kept video
    /// gets, and at the path of the video in the way, if any. Fails, and with it the batch, where
    /// the path is taken by something else or that cannot be told.
    pub fn settle_task(
        &mut self,
        videos: &Vec<VideoRecord>,
        task_index: usize,
        draft: MergeDraft,
        target_state: &FileState,
        conflict_state: &FileState,
    ) -> (r: Result<(), String>)
        requires
            old(self).wf(videos@),
            old(self).admits(videos@, draft),
            task_index < usize::MAX,
        ensures
            final(self).wf(videos@),
            final(self).claimed@ == old(self).claimed@,
            ({
                let blocked = files::merge_destination_trouble(
                    draft.final_path@,
                    merged_paths(videos@, draft@),
                    *target_state,
                );
                let at = merging::first_in_the_way(
                    videos@,
                    videos@[draft.keeper as int].id,
                    draft.final_path@,
                    merging::ids_gone(videos@, draft@),
                    0,
                );
                let there = files::status(videos@[at].path@, *conflict_state);
                if blocked is Some {
                    r is Err && r->Err_0@ == blocked->0 && *final(self) == *old(self)
                } else if at < videos@.len() && there is Err {
                    r is Err && r->Err_0@ == there->Err_0 && *final(self) == *old(self)
                } else if at < videos@.len() && there->Ok_0 {
                    r is Ok && passed_over(
                        *old(self),
                        *final(self),
                        owned_message(task_index, videos@[at]),
                    )
                } else {
                    &&& r is Ok
                    &&& final(self).plans@ == old(self).plans@.push(
                        (BatchPlan { task_index, draft }),
                    )
                    &&& final(self).messages@ == old(self).messages@
                    &&& final(self).skipped == old(self).skipped
                }
            }),
    {
        let allowed = list_merged_paths(videos, &draft);
        match ensure_merge_destination_available(
            draft.final_path.as_str(),
            &allowed,
            target_state,
        ) {
            Ok(_) => {},
            Err(message) => {
                return Err(message);
            },
        }
        if let Some(at) = find_conflict(videos, &draft) {
            match existing_file_status(videos[at].path.as_str(), conflict_state) {
                Err(message) => {
                    return Err(message);
                },
                Ok(there) => {
                    if there {
                        let mut line = skip_text(
                            task_index,
                            " because target path is owned by unrelated video id ",
                        );
                        line.append(show_id(videos[at].id).as_str());
                        line.append(": ");
                        line.append(videos[at].path.as_str());
                        self.pass_over(line);
                        return Ok(());
                    }
                },
            }
        }
        let ghost before = *self;
        self.plans.push(BatchPlan { task_index, draft });
        proof {
            assert forall|p: int, id: i64|
                0 <= p < self.plans@.len() && #[trigger] draft_names(
                    videos@,
                    self.plans@[p].draft,
                    id,
                ) implies self.claimed@.contains(id) by {
                if p < before.plans@.len() {
                    assert(self.plans@[p] == before.plans@[p]);
                }
            }
            assert forall|p: int, q: int, id: i64|
                0 <= p < q < self.plans@.len() && #[trigger] draft_names(
                    videos@,
                    self.plans@[p].draft,
                    id,
                ) implies !#[trigger] draft_names(videos@, self.plans@[q].draft, id) by {
                assert(self.plans@[p] == before.plans@[p]);
                if q < before.plans@.len() {
                    assert(self.plans@[q] == before.plans@[q]);
                }
            }
            assert forall|p: int| 0 <= p < self.plans@.len() implies (
            #[trigger] self.plans@[p]).draft.fits(videos@.len()) by {
                if p < before.plans@.len() {
                    assert(self.plans@[p] == before.plans@[p]);
                }
            }
        }
        Ok(())
    }
}

/// No video is merged by two groups of a batch: what one group puts away, moves or keeps, no
/// other group touches.
pub proof fn law_groups_of_a_batch_are_disjoint(
    planner: BatchPlanner,
    videos: Seq<VideoRecord>,
    p: int,
    q: int,
    id: i64,
)
    requires
        planner.wf(videos),
        0 <= p < planner.plans@.len(),
        0 <= q < planner.plans@.len(),
        p != q,
    ensures
        !(draft_names(videos, planner.plans@[p].draft, id) && draft_names(
            videos,
            planner.plans@[q].draft,
            id,
        )),
{
}

/// Why a planned group is passed over just before its files are touched, or why the batch fails.
pub open spec fn preflight(
    videos: Seq<VideoRecord>,
    task_index: usize,
    draft: merging::DraftData,
    keeper_state: FileState,
    source_state: FileState,
    target_state: FileState,
) -> Result<Option<Seq<char>>, Seq<char>> {
    let kept = videos[draft.keeper].path@;
    let source = videos[draft.source].path@;
    let keeper = files::status(kept, keeper_state);
    let place = files::status(source, source_state);
    let target = files::merge_destination_trouble(
        draft.final_path,
        merged_paths(videos, draft),
        target_state,
    );
    if merging::keeper_moves(videos, draft) && keeper is Err {
        Err(keeper->Err_0)
    } else if merging::keeper_moves(videos, draft) && !keeper->Ok_0 {
        Ok(Some(skipping(task_index) + " because keeper file is missing: "@ + kept))
    } else if draft.keeper != draft.source && place is Err {
        Err(place->Err_0)
    } else if draft.keeper != draft.source && !place->Ok_0 {
        Ok(Some(skipping(task_index) + " because naming source file is missing: "@ + source))
    } else if target is Some {
        Err(target->0)
    } else {
        Ok(None)
    }
}

/// What a result says, as text.
pub open spec fn said_option(r: Result<Option<String>, String>) -> Result<
    Option<Seq<char>>,
    Seq<char>,
> {
    match r {
        Ok(value) => Ok(models::opt_text(value)),
        Err(message) => Err(message@),
    }
}

/// Why a planned group is passed over just before its files are touched; fails where the batch
/// fails.
pub fn check_plan(
    videos: &Vec<VideoRecord>,
    task_index: usize,
    draft: &MergeDraft,
    keeper_state: &FileState,
    source_state: &FileState,
    target_state: &FileState,
) -> (r: Result<Option<String>, String>)
    requires
        draft.fits(videos@.len()),
        task_index < usize::MAX,
    ensures
        said_option(r) == preflight(
            videos@,
            task_index,
            draft@,
            *keeper_state,
            *source_state,
            *target_state,
        ),
{
    let kept = videos[draft.keeper].path.as_str();
    let source = videos[draft.source].path.as_str();
    let takes = draft.keeper != draft.source;
    if merging::moves_keeper(videos, draft) {
        match existing_file_status(kept, keeper_state) {
            Err(message) => {
                return Err(message);
            },
            Ok(there) => {
                if !there {
                    let mut line = skip_text(task_index, " because keeper file is missing: ");
                    line.append(kept);
                    return Ok(Some(line));
                }
            },
        }
    }
    if takes {
        match existing_file_status(source, source_state) {
            Err(message) => {
                return Err(message);
            },
            Ok(there) => {
                if !there {
                    let mut line = skip_text(
                        task_index,
                        " because naming source file is missing: ",
                    );
                    line.append(source);
                    return Ok(Some(line));
                }
            },
        }
    }
    let allowed = list_merged_paths(videos, draft);
    match ensure_merge_destination_available(draft.final_path.as_str(), &allowed, target_state) {
        Ok(_) => Ok(None),
        Err(message) => Err(message),
    }
}

/// Why a group of a batch stops at a step: everything but the failure of an extra stops it.
pub open spec fn group_failure(step: merging::StepData, outcome: StepOutcome) -> Option<Seq<char>> {
    match outcome {
        StepOutcome::Done => None,
        StepOutcome::Missing => None,
        StepOutcome::Refused(message) => Some(message@),
        StepOutcome::Failed(error) => match step.role {
            StepRole::ExtraAway => None,
            StepRole::KeeperIn => Some(
                "failed to move keeper into target path; rollback attempted when possible: "@
                    + error@,
            ),
            _ => Some(merging::selection_failure(step, error@)),
        },
    }
}

/// Why a group of a batch stops at a step.
pub fn group_failure_text(step: &MergeStep, outcome: &StepOutcome) -> (r: Option<String>)
    ensures
        models::opt_text(r) == group_failure(
            merging::StepData { role: step.role, action: step.action@ },
            *outcome,
        ),
{
    match outcome {
        StepOutcome::Done => None,
        StepOutcome::Missing => None,
        StepOutcome::Refused(message) => Some(message.clone()),
        StepOutcome::Failed(error) => match step.role {
            StepRole::ExtraAway => None,
            StepRole::KeeperIn => Some(
                cat(
                    "failed to move keeper into target path; rollback attempted when possible: ",
                    error.as_str(),
                ),
            ),
            _ => Some(merging::selection_failure_text(step, error.as_str())),
        },
    }
}

/// What the steps on the extras of a group came to.
pub struct ExtraReport {
    pub removed: Seq<i64>,
    pub messages: Seq<Seq<char>>,
    pub failures: int,
}

/// What the steps on the first `n` extras of a group came to. `from` is the position of the first
/// such step. With backups a file that is gone is passed over; where files are deleted its video
/// leaves the index.
pub open spec fn extra_report(
    videos: Seq<VideoRecord>,
    taken: Seq<int>,
    steps: Seq<merging::StepData>,
    outcomes: Seq<StepOutcome>,
    from: int,
    n: int,
) -> ExtraReport
    decreases n,
{
    if n <= 0 {
        ExtraReport { removed: Seq::empty(), messages: Seq::empty(), failures: 0 }
    } else {
        let rest = extra_report(videos, taken, steps, outcomes, from, n - 1);
        let video = videos[taken[n - 1]];
        let step = steps[from + n - 1];
        match (outcomes[from + n - 1], step.action) {
            (StepOutcome::Done, _) => ExtraReport {
                removed: rest.removed.push(video.id->0),
                messages: rest.messages.push(merging::extra_message(step, true)),
                failures: rest.failures,
            },
            (StepOutcome::Missing, merging::ActionData::Delete { path }) => ExtraReport {
                removed: rest.removed.push(video.id->0),
                messages: rest.messages.push(
                    "extra file is missing; index will be removed "@ + path,
                ),
                failures: rest.failures,
            },
            (StepOutcome::Failed(error), merging::ActionData::Move { from: here, to }) =>
            ExtraReport {
                removed: rest.removed,
                messages: rest.messages.push(
                    "failed to move "@ + here + " to backup "@ + to + ": "@ + error@,
                ),
                failures: rest.failures + 1,
            },
            (StepOutcome::Failed(error), merging::ActionData::Delete { path }) => ExtraReport {
                removed: rest.removed,
                messages: rest.messages.push("failed to delete "@ + path + ": "@ + error@),
                failures: rest.failures + 1,
            },
            _ => rest,
        }
    }
}

/// What a group of a batch came to.
#[derive(Debug, Clone)]
pub struct GroupReport {
    pub removed_ids: Vec<i64>,
    pub messages: Vec<String>,
    pub failures: usize,
    /// Whether the kept video got another path.
    pub migrated: bool,
}

/// The ids that leave the index through a group: those of the files that were missing from the
/// start, the path source, and the extras that were put away.
pub open spec fn group_removed(
    videos: Seq<VideoRecord>,
    draft: merging::DraftData,
    missing: Seq<int>,
    extras: ExtraReport,
) -> Seq<i64> {
    merging::ids_at(videos, missing, missing.len() as int) + (if draft.keeper != draft.source {
        seq![videos[draft.source].id->0]
    } else {
        Seq::empty()
    }) + extras.removed
}

/// The messages of a group.
pub open spec fn group_messages(
    videos: Seq<VideoRecord>,
    draft: merging::DraftData,
    missing: Seq<int>,
    extras: ExtraReport,
) -> Seq<Seq<char>> {
    merging::missing_messages(videos, missing, missing.len() as int) + (if draft.keeper
        != draft.source {
        seq!["moved keeper "@ + videos[draft.keeper].path@ + " into "@ + videos[draft.source].path@]
    } else {
        Seq::empty()
    }) + extras.messages + (if merging::is_renamed(videos, draft) {
        seq!["renamed kept video into "@ + draft.final_path]
    } else {
        Seq::empty()
    }) + seq![
        "kept video id "@ + text::signed_decimal(videos[draft.keeper].id->0 as int) + " at "@
            + draft.final_path,
    ]
}

fn known_id(video: &VideoRecord) -> (r: i64)
    requires
        video.id is Some,
    ensures
        r == video.id->0,
{
    match video.id {
        Some(id) => id,
        None => 0,
    }
}

fn report_extras(
    videos: &Vec<VideoRecord>,
    taken: &Vec<usize>,
    steps: &Vec<MergeStep>,
    outcomes: &Vec<StepOutcome>,
    from: usize,
) -> (r: GroupReport)
    requires
        forall|k: int|
            0 <= k < taken@.len() ==> (#[trigger] taken@[k]) < videos@.len()
                && videos@[taken@[k] as int].id is Some,
        from + taken@.len() <= steps@.len(),
        outcomes@.len() == steps@.len(),
    ensures
        ({
            let report = extra_report(
                videos@,
                merging::positions(taken@),
                merging::steps_data(steps@),
                outcomes@,
                from as int,
                taken@.len() as int,
            );
            &&& r.removed_ids@ == report.removed
            &&& models::texts(r.messages@) == report.messages
            &&& r.failures == report.failures
        }),
{
    let ghost list = merging::positions(taken@);
    let ghost all = merging::steps_data(steps@);
    let mut removed_ids: Vec<i64> = Vec::new();
    let mut messages: Vec<String> = Vec::new();
    let mut failures: usize = 0;
    let mut i: usize = 0;
    let total: usize = steps.len();
    assert(models::texts(messages@) =~= Seq::empty());
    while i < taken.len()
        invariant
            i <= taken@.len(),
            total == steps@.len(),
            from + taken@.len() <= total,
            outcomes@.len() == steps@.len(),
            list == merging::positions(taken@),
            all == merging::steps_data(steps@),
            failures <= i,
            forall|k: int|
                0 <= k < taken@.len() ==> (#[trigger] taken@[k]) < videos@.len()
                    && videos@[taken@[k] as int].id is Some,
            removed_ids@ == extra_report(
                videos@,
                list,
                all,
                outcomes@,
                from as int,
                i as int,
            ).removed,
            models::texts(messages@) == extra_report(
                videos@,
                list,
                all,
                outcomes@,
                from as int,
                i as int,
            ).messages,
            failures == extra_report(
                videos@,
                list,
                all,
                outcomes@,
                from as int,
                i as int,
            ).failures,
        decreases taken@.len() - i,
    {
        let step = &steps[from + i];
        let id: i64 = known_id(&videos[taken[i]]);
        assert(list[i as int] == taken@[i as int]);
        assert(all[from + i] == (merging::StepData { role: step.role, action: step.action@ }));
        match (&outcomes[from + i], &step.action) {
            (StepOutcome::Done, merging::FileAction::Move { from: here, to }) => {
                removed_ids.push(id);
                add_line(
                    &mut messages,
                    cat4("moved ", here.as_str(), " to backup ", to.as_str()),
                );
            },
            (StepOutcome::Done, merging::FileAction::Delete { path }) => {
                removed_ids.push(id);
                add_line(&mut messages, cat("deleted ", path.as_str()));
            },
            (StepOutcome::Missing, merging::FileAction::Delete { path }) => {
                removed_ids.push(id);
                add_line(
                    &mut messages,
                    cat("extra file is missing; index will be removed ", path.as_str()),
                );
            },
            (StepOutcome::Failed(error), merging::FileAction::Move { from: here, to }) => {
                failures += 1;
                add_line(
                    &mut messages,
                    cat6(
                        "failed to move ",
                        here.as_str(),
                        " to backup ",
                        to.as_str(),
                        ": ",
                        error.as_str(),
                    ),
                );
            },
            (StepOutcome::Failed(error), merging::FileAction::Delete { path }) => {
                failures += 1;
                add_line(
                    &mut messages,
                    cat4("failed to delete ", path.as_str(), ": ", error.as_str()),
                );
            },
            _ => {},
        }
        i += 1;
    }
    GroupReport { removed_ids, messages, failures, migrated: false }
}

/// What a group of a batch came to, once no step stopped it. `taken` are the extras that were to
/// be put away, `missing` those whose files were missing from the start.
pub fn conclude_group(
    videos: &Vec<VideoRecord>,
    draft: &MergeDraft,
    taken: &Vec<usize>,
    missing: &Vec<usize>,
    steps: &Vec<MergeStep>,
    outcomes: &Vec<StepOutcome>,
) -> (r: GroupReport)
    requires
        draft.fits(videos@.len()),
        videos@[draft.keeper as int].id is Some,
        videos@[draft.source as int].id is Some,
        forall|k: int|
            0 <= k < taken@.len() ==> (#[trigger] taken@[k]) < videos@.len()
                && videos@[taken@[k] as int].id is Some,
        forall|k: int| 0 <= k < missing@.len() ==> (#[trigger] missing@[k]) < videos@.len(),
        steps@.len() >= taken@.len() + (if draft.keeper != draft.source {
            2int
        } else {
            0
        }),
        outcomes@.len() == steps@.len(),
    ensures
        ({
            let report = extra_report(
                videos@,
                merging::positions(taken@),
                merging::steps_data(steps@),
                outcomes@,
                if draft.keeper != draft.source {
                    2
                } else {
                    0
                },
                taken@.len() as int,
            );
            let lost = merging::positions(missing@);
            &&& r.removed_ids@ == group_removed(videos@, draft@, lost, report)
            &&& models::texts(r.messages@) == group_messages(videos@, draft@, lost, report)
            &&& r.failures == report.failures
            &&& r.migrated == merging::keeper_moves(videos@, draft@)
        }),
{
    let takes = draft.keeper != draft.source;
    let from: usize = if takes {
        2
    } else {
        0
    };
    let mut report = report_extras(videos, taken, steps, outcomes, from);
    let ghost extras = extra_report(
        videos@,
        merging::positions(taken@),
        merging::steps_data(steps@),
        outcomes@,
        from as int,
        taken@.len() as int,
    );
    let ghost lost = merging::positions(missing@);
    let mut removed_ids = merging::list_ids(videos, missing);
    let mut messages: Vec<String> = Vec::new();
    let mut i: usize = 0;
    assert(models::texts(messages@) =~= Seq::empty());
    while i < missing.len()
        invariant
            i <= missing@.len(),
            lost == merging::positions(missing@),
            forall|k: int| 0 <= k < missing@.len() ==> (#[trigger] missing@[k]) < videos@.len(),
            models::texts(messages@) == merging::missing_messages(videos@, lost, i as int),
        decreases missing@.len() - i,
    {
        assert(lost[i as int] == missing@[i as int]);
        add_line(
            &mut messages,
            cat(
                "extra file is missing; index will be removed ",
                videos[missing[i]].path.as_str(),
            ),
        );
        i += 1;
    }
    let kept = videos[draft.keeper].path.as_str();
    let source = videos[draft.source].path.as_str();
    if takes {
        removed_ids.push(known_id(&videos[draft.source]));
        add_line(&mut messages, cat4("moved keeper ", kept, " into ", source));
    }
    removed_ids.append(&mut report.removed_ids);
    assert(removed_ids@ =~= group_removed(videos@, draft@, lost, extras));
    let ghost first = models::texts(messages@);
    let ghost first_strings = messages@;
    let ghost own_strings = report.messages@;
    messages.append(&mut report.messages);
    assert(models::texts(messages@) =~= first + models::texts(own_strings));
    let here: String = if takes {
        videos[draft.source].path.clone()
    } else {
        videos[draft.keeper].path.clone()
    };
    if !paths::same_path(draft.host, draft.final_path.as_str(), here.as_str()) {
        add_line(&mut messages, cat("renamed kept video into ", draft.final_path.as_str()));
    }
    add_line(
        &mut messages,
        cat4(
            "kept video id ",
            signed_decimal_text(known_id(&videos[draft.keeper])).as_str(),
            " at ",
            draft.final_path.as_str(),
        ),
    );
    assert(models::texts(messages@) =~= group_messages(videos@, draft@, lost, extras));
    let migrated = merging::moves_keeper(videos, draft);
    GroupReport { removed_ids, messages, failures: report.failures, migrated }
}

/// What a batch came to so far.
#[derive(Debug, Clone)]
pub struct BatchTotals {
    pub removed_ids: Vec<i64>,
    /// The kept videos that got another path, with that path.
    pub migrations: Vec<(i64, String)>,
    pub messages: Vec<String>,
    pub completed: usize,
    pub skipped: usize,
    pub failed: usize,
}

/// The sum of two numbers, or the largest number.
pub open spec fn capped(a: usize, b: int) -> int {
    if a + b > usize::MAX {
        usize::MAX as int
    } else {
        a + b
    }
}

/// The moves that a batch asks of the index.
pub open spec fn migrations_data(list: Seq<(i64, String)>) -> Seq<(i64, Seq<char>)> {
    list.map_values(|m: (i64, String)| (m.0, m.1@))
}

impl BatchTotals {
    /// Counts a group whose steps all ran, though some extras may have failed.
    pub fn add_group(
        &mut self,
        task_index: usize,
        keeper_id: i64,
        final_path: &str,
        report: GroupReport,
    )
        requires
            task_index < usize::MAX,
        ensures
            final(self).removed_ids@ == old(self).removed_ids@ + report.removed_ids@,
            migrations_data(final(self).migrations@) == (if report.migrated {
                migrations_data(old(self).migrations@).push((keeper_id, final_path@))
            } else {
                migrations_data(old(self).migrations@)
            }),
            final(self).skipped == old(self).skipped,
            ({
                let told = models::texts(old(self).messages@) + models::texts(report.messages@);
                if report.failures == 0 {
                    &&& final(self).completed == capped(old(self).completed, 1)
                    &&& final(self).failed == old(self).failed
                    &&& models::texts(final(self).messages@) == told
                } else {
                    &&& final(self).completed == old(self).completed
                    &&& final(self).failed == capped(old(self).failed, report.failures as int)
                    &&& models::texts(final(self).messages@) == told.push(
                        "task "@ + text::decimal((task_index + 1) as nat) + " completed with "@
                            + text::decimal(report.failures as nat)
                            + " file-operation failure(s); completed moves were still indexed"@,
                    )
                }
            }),
    {
        let mut report = report;
        let ghost ids = report.removed_ids@;
        let ghost lines = report.messages@;
        let ghost before = self.messages@;
        let ghost moved = self.migrations@;
        self.removed_ids.append(&mut report.removed_ids);
        self.messages.append(&mut report.messages);
        assert(models::texts(self.messages@) =~= models::texts(before) + models::texts(lines));
        if report.migrated {
            let path = final_path.to_owned();
            self.migrations.push((keeper_id, path));
            assert(migrations_data(self.migrations@) =~= migrations_data(moved).push(
                (keeper_id, final_path@),
            ));
        }
        if report.failures == 0 {
            self.completed = self.completed.saturating_add(1);
        } else {
            self.failed = self.failed.saturating_add(report.failures);
            add_line(
                &mut self.messages,
                cat5(
                    "task ",
                    decimal_text((task_index + 1) as u64).as_str(),
                    " completed with ",
                    decimal_text(report.failures as u64).as_str(),
                    " file-operation failure(s); completed moves were still indexed",
                ),
            );
        }
    }

    /// Counts a group that a step stopped: nothing of it enters the index.
    pub fn add_failure(&mut self, task_index: usize, error: &str)
        requires
            task_index < usize::MAX,
        ensures
            final(self).removed_ids@ == old(self).removed_ids@,
            final(self).migrations@ == old(self).migrations@,
            final(self).completed == old(self).completed,
            final(self).skipped == old(self).skipped,
            final(self).failed == capped(old(self).failed, 1),
            models::texts(final(self).messages@) == models::texts(old(self).messages@).push(
                "failed task "@ + text::decimal((task_index + 1) as nat) + ": "@ + error@,
            ),
    {
        self.failed = self.failed.saturating_add(1);
        add_line(
            &mut self.messages,
            cat4("failed task ", decimal_text((task_index + 1) as u64).as_str(), ": ", error),
        );
    }

    /// Counts a group that was passed over.
    pub fn add_skipped(&mut self, message: String)
        ensures
            final(self).removed_ids@ == old(self).removed_ids@,
            final(self).migrations@ == old(self).migrations@,
            final(self).completed == old(self).completed,
            final(self).failed == old(self).failed,
            final(self).skipped == capped(old(self).skipped, 1),
            models::texts(final(self).messages@) == models::texts(old(self).messages@).push(
                message@,
            ),
    {
        self.skipped = self.skipped.saturating_add(1);
        add_line(&mut self.messages, message);
    }

    /// The last message of a batch, which tells what changed in the index.
    pub fn index_message(&self, deleted: DeletedVideoRows) -> (r: String)
        ensures
            r@ == "batch index update: migrated "@ + text::decimal(self.migrations@.len())
                + " kept ids, removed "@ + text::decimal(deleted.videos as nat)
                + " video ids, deleted "@ + text::decimal(deleted.pair_scores as nat)
                + " pair-score rows and "@ + text::decimal(deleted.frame_embeddings as nat)
                + " embeddings"@,
    {
        let mut line = cat5(
            "batch index update: migrated ",
            decimal_text(self.migrations.len() as u64).as_str(),
            " kept ids, removed ",
            decimal_text(deleted.videos as u64).as_str(),
            " video ids, deleted ",
        );
        line.append(decimal_text(deleted.pair_scores as u64).as_str());
        line.append(" pair-score rows and ");
        line.append(decimal_text(deleted.frame_embeddings as u64).as_str());
        line.append(" embeddings");
        line
    }

    /// The line of the history that sums up a batch.
    pub fn summary(&self, backup_mode: bool) -> (r: String)
        ensures
            r@ == (if backup_mode {
                "批量合并并备份：完成 "@
            } else {
                "批量合并并删除：完成 "@
            }) + text::decimal(self.completed as nat) + "，跳过 "@ + text::decimal(
                self.skipped as nat,
            ) + "，失败 "@ + text::decimal(self.failed as nat),
    {
        let start = if backup_mode {
            "批量合并并备份：完成 "
        } else {
            "批量合并并删除：完成 "
        };
        cat6(
            start,
            decimal_text(self.completed as u64).as_str(),
            "，跳过 ",
            decimal_text(self.skipped as u64).as_str(),
            "，失败 ",
            decimal_text(self.failed as u64).as_str(),
        )
    }

    /// The status of a batch.
    pub fn status(&self) -> (r: String)
        ensures
            r@ == (if self.failed == 0 {
                "completed"@
            } else {
                "completed-with-failures"@
            }),
    {
        if self.failed == 0 {
            "completed".to_owned()
        } else {
            "completed-with-failures".to_owned()
        }
    }
}

} // verus!
