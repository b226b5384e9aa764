//! What holds of merges: where the kept video goes, what goes away, and what is recorded.
use crate::files;
use crate::files::{FileParts, FileState};
use crate::merging;
use crate::merging::{Disk, DraftData, MergeRequest, MoveData};
use crate::models::VideoRecord;
use crate::paths;
use crate::paths::{Host, RootData};
use crate::rows;
use crate::text;
use vstd::prelude::*;

verus! {

/// Whether a text is the name of a file: not empty, without separators, and without a drive.
pub open spec fn is_file_name(host: Host, name: Seq<char>) -> bool {
    &&& name.len() > 0
    &&& forall|i: int| 0 <= i < name.len() ==> !paths::separates(host, #[trigger] name[i])
    &&& host == Host::Windows ==> !name.contains(':')
}

/// A file name under a folder is the folder, a separator where it does not end with one, and the
/// name.
pub proof fn law_names_are_joined_to_folders(host: Host, folder: Seq<char>, name: Seq<char>)
    requires
        is_file_name(host, name),
        folder.len() > 2,
    ensures
        host == Host::Windows && folder.last() != '\\' && folder.last() != '/' ==> paths::joined(
            host,
            folder,
            name,
        ) == folder + seq!['\\'] + name,
        host == Host::Windows && (folder.last() == '\\' || folder.last() == '/') ==> paths::joined(
            host,
            folder,
            name,
        ) == folder + name,
        host == Host::Other && folder.last() != '/' ==> paths::joined(host, folder, name) == folder
            + seq!['/'] + name,
        host == Host::Other && folder.last() == '/' ==> paths::joined(host, folder, name) == folder
            + name,
{
    assert(!paths::separates(host, name[0]));
    if host == Host::Windows && name.len() > 1 && name[1] == ':' {
        assert(name.contains(':'));
    }
    assert(paths::prefix_len(host, name) == 0);
    assert(folder.push('\\') + name =~= folder + seq!['\\'] + name);
    assert(folder.push('/') + name =~= folder + seq!['/'] + name);
}

/// Files with different names get different paths in one folder.
pub proof fn law_different_names_give_different_paths(
    host: Host,
    folder: Seq<char>,
    one: Seq<char>,
    other: Seq<char>,
)
    requires
        is_file_name(host, one),
        is_file_name(host, other),
        folder.len() > 2,
        one != other,
    ensures
        paths::joined(host, folder, one) != paths::joined(host, folder, other),
{
    law_names_are_joined_to_folders(host, folder, one);
    law_names_are_joined_to_folders(host, folder, other);
    let a = paths::joined(host, folder, one);
    let b = paths::joined(host, folder, other);
    if a == b {
        assert(one =~= a.skip(a.len() - one.len()));
        assert(other =~= b.skip(b.len() - other.len()));
    }
}

/// Where a file name source is given, the kept video gets a path with the name of that file in the
/// folder of the path source; without one it gets the path of the path source.
pub proof fn law_kept_video_takes_the_chosen_name(
    host: Host,
    videos: Seq<VideoRecord>,
    parts: Seq<FileParts>,
    source: int,
    named_by: int,
    folder: String,
    name: String,
)
    requires
        0 <= source < videos.len() == parts.len(),
        0 <= named_by < videos.len(),
        parts[source].parent == Some(folder),
        parts[named_by].file_name == Some(name),
        folder@.len() > 2,
        is_file_name(host, name@),
    ensures
        merging::merge_target(host, videos, parts, source, Some(named_by)) matches Ok(path) && {
            &&& folder@.is_prefix_of(path)
            &&& path.skip(path.len() - name@.len()) == name@
            &&& path.len() <= folder@.len() + 1 + name@.len()
            &&& path.len() > folder@.len() + name@.len() ==> paths::separates(
                host,
                path[folder@.len() as int],
            )
        },
        merging::merge_target(host, videos, parts, source, None) == Ok::<Seq<char>, Seq<char>>(
            videos[source].path@,
        ),
{
    law_names_are_joined_to_folders(host, folder@, name@);
    let path = paths::joined(host, folder@, name@);
    assert(path.skip(path.len() - name@.len()) =~= name@);
    assert(folder@ =~= path.subrange(0, folder@.len() as int));
}

/// Two file name sources with different names give different paths.
pub proof fn law_file_name_sources_are_told_apart(
    host: Host,
    videos: Seq<VideoRecord>,
    parts: Seq<FileParts>,
    source: int,
    one: int,
    other: int,
)
    requires
        0 <= source < videos.len() == parts.len(),
        0 <= one < videos.len(),
        0 <= other < videos.len(),
        parts[source].parent is Some,
        parts[source].parent->0@.len() > 2,
        parts[one].file_name is Some,
        parts[other].file_name is Some,
        is_file_name(host, parts[one].file_name->0@),
        is_file_name(host, parts[other].file_name->0@),
        parts[one].file_name->0@ != parts[other].file_name->0@,
    ensures
        merging::merge_target(host, videos, parts, source, Some(one)) != merging::merge_target(
            host,
            videos,
            parts,
            source,
            Some(other),
        ),
{
    law_different_names_give_different_paths(
        host,
        parts[source].parent->0@,
        parts[one].file_name->0@,
        parts[other].file_name->0@,
    );
}

proof fn lemma_place_from(videos: Seq<VideoRecord>, id: i64, i: int)
    requires
        0 <= i <= videos.len(),
    ensures
        match merging::place_from(videos, id, i) {
            Some(p) => {
                &&& i <= p < videos.len()
                &&& videos[p].id == Some(id)
                &&& forall|k: int| i <= k < p ==> (#[trigger] videos[k]).id != Some(id)
            },
            None => forall|k: int| i <= k < videos.len() ==> (#[trigger] videos[k]).id != Some(id),
        },
    decreases videos.len() - i,
{
    if i < videos.len() && videos[i].id != Some(id) {
        lemma_place_from(videos, id, i + 1);
    }
}

/// An id stands for the first video that has it, and for none only where no video has it.
pub proof fn law_ids_are_found(videos: Seq<VideoRecord>, id: i64)
    ensures
        match merging::place(videos, id) {
            Some(p) => 0 <= p < videos.len() && videos[p].id == Some(id),
            None => forall|k: int| 0 <= k < videos.len() ==> (#[trigger] videos[k]).id != Some(id),
        },
{
    lemma_place_from(videos, id, 0);
}

proof fn lemma_having(items: Seq<i64>, property: spec_fn(i64) -> bool, x: i64)
    ensures
        rows::having(items, property).contains(x) <==> items.contains(x) && property(x),
    decreases items.len(),
{
    if items.len() > 0 {
        let rest = items.drop_last();
        lemma_having(rest, property, x);
        let kept = rows::having(rest, property);
        let all = rows::having(items, property);
        assert(items[items.len() - 1] == items.last());
        if items.contains(x) {
            let at = choose|at: int| 0 <= at < items.len() && items[at] == x;
            if at < rest.len() {
                assert(rest[at] == x);
            }
        }
        if rest.contains(x) {
            let at = choose|at: int| 0 <= at < rest.len() && rest[at] == x;
            assert(items[at] == x);
        }
        if kept.contains(x) {
            let at = choose|at: int| 0 <= at < kept.len() && kept[at] == x;
            assert(all[at] == x);
        }
        if all.contains(x) {
            let at = choose|at: int| 0 <= at < all.len() && all[at] == x;
            if at < kept.len() {
                assert(kept[at] == x);
            }
        }
        if items.last() == x && property(x) {
            assert(all[kept.len() as int] == x);
        }
    }
}

proof fn lemma_firsts(list: Seq<i64>, x: i64)
    ensures
        rows::firsts(list).contains(x) <==> list.contains(x),
        rows::firsts(list).no_duplicates(),
    decreases list.len(),
{
    if list.len() > 0 {
        let rest = list.drop_last();
        lemma_firsts(rest, x);
        lemma_firsts(rest, list.last());
        let kept = rows::firsts(rest);
        let all = rows::firsts(list);
        assert(list[list.len() - 1] == list.last());
        if list.contains(x) {
            let at = choose|at: int| 0 <= at < list.len() && list[at] == x;
            if at < rest.len() {
                assert(rest[at] == x);
            }
        }
        if rest.contains(x) {
            let at = choose|at: int| 0 <= at < rest.len() && rest[at] == x;
            assert(list[at] == x);
        }
        if kept.contains(x) {
            let at = choose|at: int| 0 <= at < kept.len() && kept[at] == x;
            assert(all[at] == x);
        }
        if all.contains(x) {
            let at = choose|at: int| 0 <= at < all.len() && all[at] == x;
            if at < kept.len() {
                assert(kept[at] == x);
            }
        }
        if list.last() == x && !kept.contains(x) {
            assert(all[kept.len() as int] == x);
        }
    }
}

/// The videos that go with a merge are those that were asked for, each once, but neither the kept
/// video nor the path source.
pub proof fn law_extras_are_the_others(ids: Seq<i64>, keeper: i64, source: i64, x: i64)
    ensures
        merging::extra_ids(ids, keeper, source).contains(x) <==> ids.contains(x) && x != keeper && x
            != source,
        merging::extra_ids(ids, keeper, source).no_duplicates(),
{
    lemma_having(ids, merging::is_neither(keeper, source), x);
    lemma_firsts(rows::having(ids, merging::is_neither(keeper, source)), x);
}

proof fn lemma_all_places(videos: Seq<VideoRecord>, ids: Seq<i64>, n: int)
    requires
        0 <= n <= ids.len(),
    ensures
        merging::all_places(videos, ids, n) matches Ok(list) ==> {
            &&& list.len() == n
            &&& forall|k: int|
                #![trigger list[k]]
                0 <= k < n ==> 0 <= list[k] < videos.len() && videos[list[k]].id == Some(ids[k])
        },
        merging::all_places(videos, ids, n) matches Err(id) ==> ids.contains(id)
            && merging::place(videos, id) is None,
    decreases n,
{
    if n > 0 {
        lemma_all_places(videos, ids, n - 1);
        law_ids_are_found(videos, ids[n - 1]);
        assert(ids.contains(ids[n - 1]));
    }
}

/// A merge that is accepted keeps the video that is asked for, puts it in the place of the path source
/// that is asked for, and takes away the others that are asked for, each once.
pub proof fn law_accepted_merges_do_what_is_asked(
    videos: Seq<VideoRecord>,
    parts: Seq<FileParts>,
    request: MergeRequest,
    mode: Result<bool, Seq<char>>,
    restricted: bool,
    root: RootData,
    x: i64,
)
    requires
        merging::merge_asked(videos, parts, request, mode, restricted, root) is Ok,
    ensures
        ({
            let (backup, draft) = merging::merge_asked(
                videos,
                parts,
                request,
                mode,
                restricted,
                root,
            )->Ok_0;
            &&& mode == Ok::<bool, Seq<char>>(backup)
            &&& 0 <= draft.keeper < videos.len() && videos[draft.keeper].id == Some(
                request.high_quality_id,
            )
            &&& 0 <= draft.source < videos.len() && videos[draft.source].id == Some(
                request.naming_source_id,
            )
            &&& request.filename_source_id is None ==> draft.final_path
                == videos[draft.source].path@
            &&& request.filename_source_id matches Some(id) ==> exists|n: int|
                0 <= n < videos.len() && (#[trigger] videos[n]).id == Some(id)
                    && merging::merge_target(root.host, videos, parts, draft.source, Some(n))
                    == Ok::<Seq<char>, Seq<char>>(draft.final_path)
            &&& forall|k: int|
                #![trigger draft.extras[k]]
                0 <= k < draft.extras.len() ==> 0 <= draft.extras[k] < videos.len()
                    && videos[draft.extras[k]].id is Some && request.extra_video_ids@.contains(
                    videos[draft.extras[k]].id->0,
                ) && videos[draft.extras[k]].id != Some(request.high_quality_id)
                    && videos[draft.extras[k]].id != Some(request.naming_source_id)
            &&& request.extra_video_ids@.contains(x) && x != request.high_quality_id && x
                != request.naming_source_id ==> exists|k: int|
                0 <= k < draft.extras.len() && videos[#[trigger] draft.extras[k]].id == Some(x)
        }),
{
    let high = request.high_quality_id;
    let naming = request.naming_source_id;
    let ids = merging::extra_ids(request.extra_video_ids@, high, naming);
    law_ids_are_found(videos, high);
    law_ids_are_found(videos, naming);
    lemma_all_places(videos, ids, ids.len() as int);
    let (backup, draft) = merging::merge_asked(
        videos,
        parts,
        request,
        mode,
        restricted,
        root,
    )->Ok_0;
    if let Some(id) = request.filename_source_id {
        law_ids_are_found(videos, id);
        let n = merging::place(videos, id)->0;
        assert(videos[n].id == Some(id));
    }
    assert forall|k: int|
        #![trigger draft.extras[k]]
        0 <= k < draft.extras.len() implies 0 <= draft.extras[k] < videos.len()
        && videos[draft.extras[k]].id is Some && request.extra_video_ids@.contains(
        videos[draft.extras[k]].id->0,
    ) && videos[draft.extras[k]].id != Some(high) && videos[draft.extras[k]].id != Some(
        naming,
    ) by {
        assert(ids.contains(ids[k]));
        law_extras_are_the_others(request.extra_video_ids@, high, naming, ids[k]);
    }
    law_extras_are_the_others(request.extra_video_ids@, high, naming, x);
    if ids.contains(x) {
        let k = choose|k: int| 0 <= k < ids.len() && ids[k] == x;
        assert(videos[draft.extras[k]].id == Some(x));
    }
}

/// A merge is refused where it would leave the kept video as it is, or where one of its videos is not
/// in the index.
pub proof fn law_merges_of_unknown_videos_are_refused(
    videos: Seq<VideoRecord>,
    parts: Seq<FileParts>,
    request: MergeRequest,
    mode: Result<bool, Seq<char>>,
    restricted: bool,
    root: RootData,
    x: i64,
)
    requires
        forall|k: int| 0 <= k < videos.len() ==> (#[trigger] videos[k]).id != Some(x),
        x == request.high_quality_id || x == request.naming_source_id || request.filename_source_id
            == Some(x) || request.extra_video_ids@.contains(x),
    ensures
        merging::merge_asked(videos, parts, request, mode, restricted, root) is Err,
{
    if merging::merge_asked(videos, parts, request, mode, restricted, root) is Ok {
        law_accepted_merges_do_what_is_asked(videos, parts, request, mode, restricted, root, x);
    }
}

/// Backups keep what is merged away, and deleting needs both leave and its own confirmation; nothing
/// else is done.
pub proof fn law_modes_of_merges(
    disposal: Seq<char>,
    confirmation: Seq<char>,
    allow_direct_delete: bool,
)
    ensures
        merging::merge_mode_of(disposal, confirmation, allow_direct_delete) == Ok::<
            bool,
            Seq<char>,
        >(true) <==> disposal == "backup"@ && confirmation == "MERGE_BACKUP"@,
        merging::merge_mode_of(disposal, confirmation, allow_direct_delete) == Ok::<
            bool,
            Seq<char>,
        >(false) <==> disposal == "delete"@ && confirmation == "MERGE_DELETE"@
            && allow_direct_delete,
{
    reveal_strlit("backup");
    reveal_strlit("delete");
    assert("backup"@[0] != "delete"@[0]);
}

/// What is recorded of a merge with backups is true in the end: each file that was put away stands
/// where the record says, with what stood where it came from; and so does the kept one.
pub proof fn law_recorded_moves_are_true(
    disk: Disk,
    videos: Seq<VideoRecord>,
    draft: DraftData,
    taken: Seq<int>,
    source_backup: Seq<char>,
    backups: Seq<Seq<char>>,
    k: int,
)
    requires
        merging::is_safe_merge(disk, videos, draft, taken, source_backup, backups),
        merging::is_renamed(videos, draft) || draft.final_path == merging::keeper_path(
            videos,
            draft,
        ),
        0 <= k < merging::recorded(
            videos,
            draft,
            taken,
            Some(source_backup),
            backups,
            true,
        ).len(),
    ensures
        ({
            let own = merging::recorded(
                videos,
                draft,
                taken,
                Some(source_backup),
                backups,
                true,
            )[k];
            let steps = merging::merge_steps_of(videos, draft, taken, Some(source_backup), Some(backups));
            let end = merging::after_steps(disk, steps, steps.len() as int);
            &&& own.from == videos[own.place].path@
            &&& end.dom().contains(own.to)
            &&& end[own.to] == disk[own.from]
        }),
{
    merging::law_merge_with_backups_keeps_all(disk, videos, draft, taken, source_backup, backups);
}

/// Every file of a merge is recorded: the path source where another video takes its place, the kept
/// video, and every extra that is put away.
pub proof fn law_every_moved_file_is_recorded(
    videos: Seq<VideoRecord>,
    draft: DraftData,
    taken: Seq<int>,
    source_backup: Seq<char>,
    backups: Seq<Seq<char>>,
    k: int,
)
    requires
        backups.len() == taken.len(),
        0 <= k < taken.len(),
    ensures
        ({
            let all = merging::recorded(videos, draft, taken, Some(source_backup), backups, true);
            &&& draft.keeper != draft.source ==> all.contains(
                (MoveData {
                    place: draft.source,
                    from: videos[draft.source].path@,
                    to: source_backup,
                }),
            )
            &&& all.contains(
                (MoveData {
                    place: draft.keeper,
                    from: videos[draft.keeper].path@,
                    to: draft.final_path,
                }),
            )
            &&& all.contains(
                (MoveData { place: taken[k], from: videos[taken[k]].path@, to: backups[k] }),
            )
        }),
{
    let all = merging::recorded(videos, draft, taken, Some(source_backup), backups, true);
    let first: int = if draft.keeper != draft.source {
        1
    } else {
        0
    };
    assert(all[0] == all[0]);
    assert(all[first].place == draft.keeper);
    assert(all[first + 1 + k].place == taken[k]);
}

/// Without backups a merge deletes the path source, where another video takes its place, and every
/// extra; the kept video ends up at the path that it was to get, and no other file is touched.
pub proof fn law_merge_without_backups_deletes_the_others(
    disk: Disk,
    videos: Seq<VideoRecord>,
    draft: DraftData,
    taken: Seq<int>,
    other: Seq<char>,
)
    requires
        disk.dom().contains(videos[draft.keeper].path@),
        draft.keeper != draft.source ==> videos[draft.keeper].path@ != videos[draft.source].path@,
        forall|k: int|
            #![trigger taken[k]]
            0 <= k < taken.len() ==> videos[taken[k]].path@ != videos[draft.keeper].path@
                && videos[taken[k]].path@ != videos[draft.source].path@ && videos[taken[k]].path@
                != draft.final_path,
        disk.dom().contains(other),
        other != videos[draft.keeper].path@,
        other != videos[draft.source].path@,
        other != draft.final_path,
        forall|k: int| 0 <= k < taken.len() ==> videos[#[trigger] taken[k]].path@ != other,
    ensures
        ({
            let steps = merging::merge_steps_of(videos, draft, taken, None, None);
            let end = merging::after_steps(disk, steps, steps.len() as int);
            &&& end.dom().contains(merging::kept_at(videos, draft))
            &&& end[merging::kept_at(videos, draft)] == disk[videos[draft.keeper].path@]
            &&& forall|k: int|
                0 <= k < taken.len() ==> !end.dom().contains(videos[#[trigger] taken[k]].path@)
            &&& end.dom().contains(other) && end[other] == disk[other]
        }),
{
    let steps = merging::merge_steps_of(videos, draft, taken, None, None);
    let moved: int = if draft.keeper != draft.source {
        2
    } else {
        0
    };
    lemma_after_deleting(disk, videos, draft, taken, other, taken.len() as int);
    let now = merging::after_steps(disk, steps, moved + taken.len());
    let here = merging::keeper_path(videos, draft);
    if merging::is_renamed(videos, draft) {
        assert(steps.len() == moved + taken.len() + 1);
        assert(steps[moved + taken.len() as int].action == merging::ActionData::Move {
            from: here,
            to: draft.final_path,
        });
    } else {
        assert(steps.len() == moved + taken.len());
    }
}

proof fn lemma_after_deleting(
    disk: Disk,
    videos: Seq<VideoRecord>,
    draft: DraftData,
    taken: Seq<int>,
    other: Seq<char>,
    n: int,
)
    requires
        0 <= n <= taken.len(),
        disk.dom().contains(videos[draft.keeper].path@),
        draft.keeper != draft.source ==> videos[draft.keeper].path@ != videos[draft.source].path@,
        forall|k: int|
            #![trigger taken[k]]
            0 <= k < taken.len() ==> videos[taken[k]].path@ != videos[draft.keeper].path@
                && videos[taken[k]].path@ != videos[draft.source].path@ && videos[taken[k]].path@
                != draft.final_path,
        disk.dom().contains(other),
        other != videos[draft.keeper].path@,
        other != videos[draft.source].path@,
        other != draft.final_path,
        forall|k: int| 0 <= k < taken.len() ==> videos[#[trigger] taken[k]].path@ != other,
    ensures
        ({
            let steps = merging::merge_steps_of(videos, draft, taken, None, None);
            let moved: int = if draft.keeper != draft.source {
                2
            } else {
                0
            };
            let now = merging::after_steps(disk, steps, moved + n);
            let here = merging::keeper_path(videos, draft);
            &&& now.dom().contains(here) && now[here] == disk[videos[draft.keeper].path@]
            &&& now.dom().contains(other) && now[other] == disk[other]
            &&& forall|k: int|
                0 <= k < n ==> !now.dom().contains(videos[#[trigger] taken[k]].path@)
        }),
    decreases n,
{
    let steps = merging::merge_steps_of(videos, draft, taken, None, None);
    let moved: int = if draft.keeper != draft.source {
        2
    } else {
        0
    };
    let kept = videos[draft.keeper].path@;
    let source = videos[draft.source].path@;
    if n == 0 {
        if draft.keeper != draft.source {
            assert(steps[0].action == merging::ActionData::Delete { path: source });
            assert(steps[1].action == merging::ActionData::Move { from: kept, to: source });
            reveal_with_fuel(merging::after_steps, 3);
        }
    } else {
        lemma_after_deleting(disk, videos, draft, taken, other, n - 1);
        let gone = videos[taken[n - 1]].path@;
        assert(steps[moved + n - 1].action == merging::ActionData::Delete { path: gone });
        let before = merging::after_steps(disk, steps, moved + n - 1);
        let now = merging::after_steps(disk, steps, moved + n);
        assert(now == before.remove(gone));
    }
}

proof fn lemma_ids_at(videos: Seq<VideoRecord>, list: Seq<int>, n: int, x: i64)
    requires
        0 <= n <= list.len(),
    ensures
        merging::ids_at(videos, list, n).contains(x) <==> exists|k: int|
            0 <= k < n && videos[#[trigger] list[k]].id == Some(x),
    decreases n,
{
    if n > 0 {
        lemma_ids_at(videos, list, n - 1, x);
        let rest = merging::ids_at(videos, list, n - 1);
        let all = merging::ids_at(videos, list, n);
        if rest.contains(x) {
            let at = choose|at: int| 0 <= at < rest.len() && rest[at] == x;
            assert(all[at] == x);
        }
        if videos[list[n - 1]].id == Some(x) {
            assert(all[rest.len() as int] == x);
        }
        if all.contains(x) && !rest.contains(x) {
            let at = choose|at: int| 0 <= at < all.len() && all[at] == x;
            if at < rest.len() {
                assert(rest[at] == x);
            }
        }
    }
}

/// After a merge the index loses the videos that were merged away, also those whose files were gone
/// already, and no other.
pub proof fn law_merged_videos_leave_the_index(
    videos: Seq<VideoRecord>,
    draft: DraftData,
    present: Seq<int>,
    missing: Seq<int>,
    x: i64,
)
    ensures
        merging::selection_gone(videos, draft, present, missing).contains(x) <==> {
            ||| draft.keeper != draft.source && videos[draft.source].id == Some(x)
            ||| exists|k: int| 0 <= k < present.len() && videos[#[trigger] present[k]].id == Some(x)
            ||| exists|k: int| 0 <= k < missing.len() && videos[#[trigger] missing[k]].id == Some(x)
        },
{
    lemma_ids_at(videos, present, present.len() as int, x);
    lemma_ids_at(videos, missing, missing.len() as int, x);
    let first = if draft.keeper != draft.source && videos[draft.source].id is Some {
        seq![videos[draft.source].id->0]
    } else {
        Seq::empty()
    };
    let second = merging::ids_at(videos, present, present.len() as int);
    let third = merging::ids_at(videos, missing, missing.len() as int);
    let all = merging::selection_gone(videos, draft, present, missing);
    assert(all == first + second + third);
    if first.len() > 0 {
        assert(all[0] == first[0]);
    }
    if second.contains(x) {
        let at = choose|at: int| 0 <= at < second.len() && second[at] == x;
        assert(all[first.len() + at] == x);
    }
    if third.contains(x) {
        let at = choose|at: int| 0 <= at < third.len() && third[at] == x;
        assert(all[first.len() + second.len() + at] == x);
    }
    if all.contains(x) {
        let at = choose|at: int| 0 <= at < all.len() && all[at] == x;
        if at < first.len() {
        } else if at < first.len() + second.len() {
            assert(second[at - first.len()] == x);
        } else {
            assert(third[at - first.len() - second.len()] == x);
        }
    }
}

/// A file stands in the way of the kept video exactly where its path is that of the video's target,
/// but for slashes and the case of Latin letters, and it does not take part in the merge.
pub proof fn law_conflicts_are_found(videos: Seq<VideoRecord>, draft: DraftData, i: int)
    requires
        0 <= draft.keeper < videos.len(),
        0 <= i < videos.len(),
        videos[i].id is Some,
        videos[i].id != videos[draft.keeper].id,
        files::path_key(videos[i].path@) == files::path_key(draft.final_path),
        draft.keeper != draft.source ==> videos[draft.source].id != videos[i].id,
        forall|k: int|
            0 <= k < draft.extras.len() ==> videos[#[trigger] draft.extras[k]].id != videos[i].id,
    ensures
        merging::first_in_the_way(
            videos,
            videos[draft.keeper].id,
            draft.final_path,
            merging::ids_gone(videos, draft),
            0,
        ) <= i,
{
    let gone = merging::ids_gone(videos, draft);
    let id = videos[i].id->0;
    lemma_ids_at(videos, draft.extras, draft.extras.len() as int, id);
    assert(!gone.contains(id)) by {
        if gone.contains(id) {
            let first = merging::ids_at(videos, draft.extras, draft.extras.len() as int);
            let at = choose|at: int| 0 <= at < gone.len() && gone[at] == id;
            if at < first.len() {
                assert(first[at] == id);
            }
        }
    }
    lemma_first_in_the_way(videos, videos[draft.keeper].id, draft.final_path, gone, 0, i);
}

proof fn lemma_first_in_the_way(
    videos: Seq<VideoRecord>,
    keeper_id: Option<i64>,
    target: Seq<char>,
    gone: Seq<i64>,
    from: int,
    i: int,
)
    requires
        0 <= from <= i < videos.len(),
        merging::in_the_way(videos[i], keeper_id, target, gone),
    ensures
        merging::first_in_the_way(videos, keeper_id, target, gone, from) <= i,
    decreases i - from,
{
    if !merging::in_the_way(videos[from], keeper_id, target, gone) {
        lemma_first_in_the_way(videos, keeper_id, target, gone, from + 1, i);
    }
}

/// Nothing is written over: a path where something stands, or that cannot be looked at, is refused
/// as a destination, unless it is that of a file of the merge itself.
pub proof fn law_nothing_is_written_over(path: Seq<char>, merged: Seq<Seq<char>>, state: FileState)
    ensures
        files::destination_trouble(path, state) is None <==> state is Missing,
        files::merge_destination_trouble(path, merged, state) is None <==> state is Missing
            || exists|k: int|
            0 <= k < merged.len() && files::path_key(#[trigger] merged[k]) == files::path_key(path),
        files::presence_trouble(path, path, state) is None <==> state is Present,
{
}

/// A backup keeps the name of the file; where that is taken, a number is put before its extension.
pub proof fn law_backups_keep_the_extension(parts: FileParts, attempt: int)
    requires
        attempt >= 0,
        parts.file_name is Some,
        parts.stem is Some && parts.stem->0@.len() > 0,
        parts.extension is Some && parts.extension->0@.len() > 0,
    ensures
        attempt == 0 ==> files::backup_name(parts, attempt) == parts.file_name->0@,
        attempt > 0 ==> parts.stem->0@.is_prefix_of(files::backup_name(parts, attempt)),
        attempt > 0 ==> text::has_suffix(
            files::backup_name(parts, attempt),
            seq!['.'] + parts.extension->0@,
        ),
{
    if attempt > 0 {
        reveal_strlit(" (");
        reveal_strlit(").");
        let name = files::backup_name(parts, attempt);
        let stem = parts.stem->0@;
        let tail = seq!['.'] + parts.extension->0@;
        assert(stem =~= name.subrange(0, stem.len() as int));
        assert(name.skip(name.len() - tail.len()) =~= tail);
    }
}

/// A merge of known videos that is confirmed is accepted, where every folder may be used and the name
/// and its folder can be told.
pub proof fn law_known_merges_are_accepted(
    videos: Seq<VideoRecord>,
    parts: Seq<FileParts>,
    request: MergeRequest,
    backup: bool,
    root: RootData,
    n: int,
)
    requires
        parts.len() == videos.len(),
        request.high_quality_id != request.naming_source_id || (request.filename_source_id
            matches Some(id) && id != request.high_quality_id),
        merging::place(videos, request.high_quality_id) is Some,
        merging::place(videos, request.naming_source_id) is Some,
        request.filename_source_id matches Some(id) ==> merging::place(videos, id) == Some(n)
            && parts[n].file_name is Some && parts[merging::place(
            videos,
            request.naming_source_id,
        )->0].parent is Some,
        forall|k: int|
            0 <= k < request.extra_video_ids@.len() ==> merging::place(
                videos,
                #[trigger] request.extra_video_ids@[k],
            ) is Some,
    ensures
        merging::merge_asked(
            videos,
            parts,
            request,
            Ok::<bool, Seq<char>>(backup),
            false,
            root,
        ) matches Ok((mode, draft)) && mode == backup && merging::place(
            videos,
            request.high_quality_id,
        ) == Some(draft.keeper) && merging::place(videos, request.naming_source_id) == Some(
            draft.source,
        ),
{
    let extras = merging::extra_ids(
        request.extra_video_ids@,
        request.high_quality_id,
        request.naming_source_id,
    );
    lemma_all_places(videos, extras, extras.len() as int);
    if let Err(id) = merging::all_places(videos, extras, extras.len() as int) {
        law_extras_are_the_others(
            request.extra_video_ids@,
            request.high_quality_id,
            request.naming_source_id,
            id,
        );
        let k = choose|k: int|
            0 <= k < request.extra_video_ids@.len() && request.extra_video_ids@[k] == id;
        assert(merging::place(videos, request.extra_video_ids@[k]) is Some);
    }
}

/// Where the file name cannot be told from the path, the name that the index knows is taken, without
/// white space around it.
pub proof fn law_known_names_stand_in(
    host: Host,
    videos: Seq<VideoRecord>,
    parts: Seq<FileParts>,
    source: int,
    n: int,
)
    requires
        parts[source].parent is Some,
        parts[n].file_name is None,
    ensures
        text::trimmed(videos[n].file_name@).len() > 0 ==> merging::merge_target(
            host,
            videos,
            parts,
            source,
            Some(n),
        ) == Ok::<Seq<char>, Seq<char>>(
            paths::joined(host, parts[source].parent->0@, text::trimmed(videos[n].file_name@)),
        ),
        text::trimmed(videos[n].file_name@).len() == 0 ==> merging::merge_target(
            host,
            videos,
            parts,
            source,
            Some(n),
        ) is Err,
{
}

/// Another video at the path of the kept one is in the way, unless it goes away itself; the kept video
/// is never in its own way.
pub proof fn law_other_videos_are_in_the_way(
    video: VideoRecord,
    keeper_id: Option<i64>,
    target: Seq<char>,
    gone: Seq<i64>,
)
    ensures
        video.id == keeper_id ==> !merging::in_the_way(video, keeper_id, target, gone),
        video.id is Some && gone.contains(video.id->0) ==> !merging::in_the_way(
            video,
            keeper_id,
            target,
            gone,
        ),
        video.id != keeper_id && video.path@ == target && gone.len() == 0 ==> merging::in_the_way(
            video,
            keeper_id,
            target,
            gone,
        ),
        merging::in_the_way(video, keeper_id, target, gone) ==> files::path_key(video.path@)
            == files::path_key(target),
{
}

} // verus!
