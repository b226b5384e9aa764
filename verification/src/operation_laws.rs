//! What holds of operations on files: what may be done, what is logged, and what can be undone.
use crate::files;
use crate::files::FileState;
use crate::history;
use crate::history::Logged;
use crate::merging;
use crate::merging::{Disk, FileMoveRecord};
use crate::models;
use crate::models::VideoRecord;
use crate::operations;
use crate::operations::{FileActionKind, HistoryData, LogEntry, SpaceTaken};
use crate::paths::RootData;
use crate::settings;
use crate::text;
use vstd::prelude::*;

verus! {

/// Selected files are moved to the backups or deleted only where that is asked for and confirmed, and
/// deleted only where the settings allow it.
pub proof fn law_files_are_deleted_only_with_leave(
    count: int,
    action: Seq<char>,
    confirmation: Seq<char>,
    allow_direct_delete: bool,
)
    ensures
        operations::file_action(count, action, confirmation, allow_direct_delete) == Ok::<
            FileActionKind,
            Seq<char>,
        >(FileActionKind::Delete) <==> count != 0 && action == "delete"@ && confirmation
            == "DELETE"@ && allow_direct_delete,
        operations::file_action(count, action, confirmation, allow_direct_delete) == Ok::<
            FileActionKind,
            Seq<char>,
        >(FileActionKind::Backup) <==> count != 0 && action == "backup"@ && confirmation
            == "MOVE"@,
{
    reveal_strlit("backup");
    reveal_strlit("delete");
    assert("backup"@[0] != "delete"@[0]);
}

/// A selected id stands for a video that has it and whose path may be worked on.
pub proof fn law_selected_videos_may_be_worked_on(
    videos: Seq<VideoRecord>,
    id: i64,
    restricted: bool,
    root: RootData,
)
    ensures
        match operations::selected(videos, id, restricted, root) {
            Ok(p) => {
                &&& 0 <= p < videos.len()
                &&& videos[p].id == Some(id)
                &&& settings::path_allowed(videos[p].path@, restricted, root)
            },
            Err(_) => {
                ||| forall|k: int| 0 <= k < videos.len() ==> (#[trigger] videos[k]).id != Some(id)
                ||| exists|k: int|
                    0 <= k < videos.len() && (#[trigger] videos[k]).id == Some(id)
                        && !settings::path_allowed(videos[k].path@, restricted, root)
            },
        },
{
    crate::merge_laws::law_ids_are_found(videos, id);
}

/// A replacement takes two different videos of the index, both of which may be worked on.
pub proof fn law_replacements_take_two_videos(
    videos: Seq<VideoRecord>,
    high: i64,
    naming: i64,
    restricted: bool,
    root: RootData,
    pair: (int, int),
)
    requires
        operations::replacement_pair(videos, high, naming, restricted, root) == Ok::<
            (int, int),
            Seq<char>,
        >(pair),
    ensures
        high != naming,
        0 <= pair.0 < videos.len(),
        0 <= pair.1 < videos.len(),
        videos[pair.0].id == Some(high),
        videos[pair.1].id == Some(naming),
        settings::path_allowed(videos[pair.0].path@, restricted, root),
        settings::path_allowed(videos[pair.1].path@, restricted, root),
{
    crate::merge_laws::law_ids_are_found(videos, high);
    crate::merge_laws::law_ids_are_found(videos, naming);
}

/// A video is opened exactly where its path may be worked on, its file is there, and the index has
/// it under that path.
pub proof fn law_only_indexed_files_are_opened(
    videos: Seq<VideoRecord>,
    path: Seq<char>,
    restricted: bool,
    root: RootData,
    state: FileState,
)
    ensures
        operations::opening_trouble(videos, path, restricted, root, state) is None <==> {
            &&& settings::path_allowed(path, restricted, root)
            &&& state is Present
            &&& exists|i: int|
                0 <= i < videos.len() && text::ascii_lowered((#[trigger] videos[i]).path@)
                    == text::ascii_lowered(path)
        },
{
    if operations::opening_trouble(videos, path, restricted, root, state) is None {
        let i = choose|i: int|
            0 <= i < videos.len() && crate::database::same_folded(
                (#[trigger] videos[i]).path@,
                path,
            );
        assert(text::ascii_lowered(videos[i].path@) == text::ascii_lowered(path));
    }
    if exists|i: int|
        0 <= i < videos.len() && text::ascii_lowered((#[trigger] videos[i]).path@)
            == text::ascii_lowered(path) {
        let i = choose|i: int|
            0 <= i < videos.len() && text::ascii_lowered((#[trigger] videos[i]).path@)
                == text::ascii_lowered(path);
        assert(crate::database::same_folded(videos[i].path@, path));
    }
}

proof fn lemma_entry_of(log: Seq<LogEntry>, id: Seq<char>, i: int)
    requires
        0 <= i <= log.len(),
    ensures
        i <= operations::entry_of(log, id, i) <= log.len(),
        operations::entry_of(log, id, i) < log.len() ==> models::opt_text(
            log[operations::entry_of(log, id, i)].operation_id,
        ) == Some(id),
        forall|k: int|
            i <= k < operations::entry_of(log, id, i) ==> models::opt_text(
                (#[trigger] log[k]).operation_id,
            ) != Some(id),
    decreases log.len() - i,
{
    if i < log.len() && models::opt_text(log[i].operation_id) != Some(id) {
        lemma_entry_of(log, id, i + 1);
    }
}

/// An operation is rolled back at most once, and only where it is in the log, can be undone and has
/// recorded moves.
pub proof fn law_operations_are_rolled_back_once(log: Seq<LogEntry>, id: Seq<char>)
    ensures
        operations::rollback_target(log, id) matches Ok(at) ==> {
            &&& 0 <= at < log.len()
            &&& models::opt_text(log[at].operation_id) == Some(id)
            &&& log[at].reversible
            &&& log[at].moves_unreadable || (log[at].moves is Some && log[at].moves->0 > 0)
            &&& forall|k: int|
                0 <= k < log.len() ==> models::opt_text((#[trigger] log[k]).rollback_of) != Some(id)
        },
        (exists|k: int|
            0 <= k < log.len() && models::opt_text((#[trigger] log[k]).rollback_of) == Some(id))
            ==> operations::rollback_target(log, id) is Err,
{
    lemma_entry_of(log, id, 0);
}

/// The first operation with an id is rolled back where it can be undone, has recorded moves, and was
/// not rolled back before.
pub proof fn law_undoable_operations_can_be_rolled_back(log: Seq<LogEntry>, id: Seq<char>, at: int)
    requires
        0 <= at < log.len(),
        models::opt_text(log[at].operation_id) == Some(id),
        forall|k: int|
            0 <= k < at ==> models::opt_text((#[trigger] log[k]).operation_id) != Some(id),
        log[at].reversible,
        log[at].moves is Some && log[at].moves->0 > 0,
        forall|k: int|
            0 <= k < log.len() ==> models::opt_text((#[trigger] log[k]).rollback_of) != Some(id),
    ensures
        operations::rollback_target(log, id) == Ok::<int, Seq<char>>(at),
{
    lemma_entry_of(log, id, 0);
    assert(models::opt_text(log[at].operation_id) == Some(id));
}

/// A rollback is refused unless every file that was moved stands where it was moved to, and nothing
/// stands where it came from.
pub proof fn law_rollbacks_write_over_nothing(
    records: Seq<FileMoveRecord>,
    from_states: Seq<FileState>,
    to_states: Seq<FileState>,
    restricted: bool,
    root: RootData,
    n: int,
)
    requires
        0 <= n <= records.len(),
    ensures
        operations::rollback_trouble(records, from_states, to_states, restricted, root, n) is None
            <==> forall|k: int|
            #![trigger records[k]]
            0 <= k < n ==> settings::path_allowed(records[k].from@, restricted, root) && (
            to_states[k] is Present || to_states[k] is Other) && !(from_states[k] is Present
                || from_states[k] is Other),
    decreases n,
{
    if n > 0 {
        law_rollbacks_write_over_nothing(
            records,
            from_states,
            to_states,
            restricted,
            root,
            n - 1,
        );
        let last = records[n - 1];
    }
}

/// A rollback puts every file back: each stands where it came from, with what stood where it was moved
/// to, and no longer there.
pub proof fn law_rollbacks_put_files_back(disk: Disk, records: Seq<FileMoveRecord>, from: int, k: int)
    requires
        operations::can_undo(disk, records),
        0 <= from <= k < records.len(),
    ensures
        ({
            let end = operations::undone(disk, records, from);
            &&& end.dom().contains(records[k].from@)
            &&& end[records[k].from@] == disk[records[k].to@]
            &&& !end.dom().contains(records[k].to@)
        }),
    decreases records.len() - from,
{
    lemma_undone(disk, records, from);
}

proof fn lemma_undone(disk: Disk, records: Seq<FileMoveRecord>, from: int)
    requires
        operations::can_undo(disk, records),
        0 <= from <= records.len(),
    ensures
        forall|k: int|
            #![trigger records[k]]
            from <= k < records.len() ==> {
                let end = operations::undone(disk, records, from);
                &&& end.dom().contains(records[k].from@)
                &&& end[records[k].from@] == disk[records[k].to@]
                &&& !end.dom().contains(records[k].to@)
            },
        forall|k: int|
            #![trigger records[k]]
            0 <= k < from ==> {
                let end = operations::undone(disk, records, from);
                &&& end.dom().contains(records[k].to@)
                &&& end[records[k].to@] == disk[records[k].to@]
                &&& !end.dom().contains(records[k].from@)
            },
    decreases records.len() - from,
{
    if from < records.len() {
        lemma_undone(disk, records, from + 1);
        let before = operations::undone(disk, records, from + 1);
        let end = operations::undone(disk, records, from);
        let own = records[from];
        assert(end == before.remove(own.to@).insert(own.from@, before[own.to@]));
        assert(disk.dom().contains(own.to@) && !disk.dom().contains(own.from@));
        assert forall|k: int|
            #![trigger records[k]]
            0 <= k < records.len() && k != from implies records[k].to@ != own.to@
            && records[k].from@ != own.from@ && records[k].to@ != own.from@ && records[k].from@
            != own.to@ by {
            if k < from {
                assert(records[k].to@ != records[from].to@);
            } else {
                assert(records[from].to@ != records[k].to@);
            }
        }
    }
}

/// A merge or a move to the backups is logged so that it can be undone, a deletion is not; and only a
/// rollback says what it rolled back.
pub proof fn law_only_moves_can_be_undone(
    entry: LogEntry,
    what: Logged,
    messages: Seq<Seq<char>>,
    moves: usize,
    stamp: i64,
    now: i64,
)
    requires
        history::is_entry_of(entry, what, messages, moves, stamp, now),
    ensures
        what is Deletion || what is Stale || what is Rollback ==> !entry.reversible
            && entry.moves is None,
        what is Backup || what is Replacement ==> entry.reversible && entry.moves == Some(moves),
        what matches Logged::Merge { backup } ==> entry.reversible == backup && entry.moves
            == Some(moves),
        what matches Logged::Batch { backup, .. } ==> entry.reversible == backup && entry.moves
            == Some(moves),
        entry.rollback_of is Some <==> what is Rollback,
        what matches Logged::Rollback { of } ==> entry.rollback_of->0@ == of@,
        entry.created_at_unix_ms == now,
        models::texts(entry.messages@) == messages,
{
}

/// The history lists every logged operation but rollbacks, each with its own time and messages, and
/// tells which ones were rolled back.
pub proof fn law_history_lists_operations(log: Seq<LogEntry>, n: int, item: HistoryData)
    requires
        0 <= n <= log.len(),
    ensures
        operations::history(log, n).contains(item) <==> exists|k: int|
            0 <= k < n && operations::listed_entry(log, #[trigger] log[k]) == Some(item),
    decreases n,
{
    if n > 0 {
        law_history_lists_operations(log, n - 1, item);
        let rest = operations::history(log, n - 1);
        let all = operations::history(log, n);
        if let Some(own) = operations::listed_entry(log, log[n - 1]) {
            let at = operations::newer_count(rest, own.created_at_unix_ms);
            lemma_newer_count(rest, own.created_at_unix_ms);
            assert(all == rest.insert(at, own));
            assert(all[at] == own);
            if rest.contains(item) {
                let k = choose|k: int| 0 <= k < rest.len() && rest[k] == item;
                if k < at {
                    assert(all[k] == item);
                } else {
                    assert(all[k + 1] == item);
                }
            }
            if all.contains(item) {
                let k = choose|k: int| 0 <= k < all.len() && all[k] == item;
                if k < at {
                    assert(rest[k] == item);
                } else if k > at {
                    assert(rest[k - 1] == item);
                }
            }
        }
    }
}

proof fn lemma_newer_count(list: Seq<HistoryData>, time: i64)
    ensures
        0 <= operations::newer_count(list, time) <= list.len(),
    decreases list.len(),
{
    if list.len() > 0 {
        lemma_newer_count(list.drop_last(), time);
    }
}

/// An entry of the history tells of its operation: its id, time and messages; it can be undone only
/// where it was logged so, has moves, and was not rolled back.
pub proof fn law_history_tells_of_its_operation(log: Seq<LogEntry>, entry: LogEntry)
    ensures
        operations::listed_entry(log, entry) is Some <==> entry.operation_id is Some
            && !entry.is_rollback,
        operations::listed_entry(log, entry) matches Some(item) ==> {
            &&& item.operation_id == entry.operation_id->0@
            &&& item.created_at_unix_ms == entry.created_at_unix_ms
            &&& item.messages == models::texts(entry.messages@)
            &&& item.rolled_back <==> exists|k: int|
                0 <= k < log.len() && models::opt_text((#[trigger] log[k]).rollback_of) == Some(
                    entry.operation_id->0@,
                )
            &&& item.reversible <==> entry.reversible && entry.moves is Some && entry.moves->0 > 0
                && !item.rolled_back
            &&& entry.action is Some ==> item.action == entry.action->0@
            &&& entry.summary is Some ==> item.summary == entry.summary->0@
        },
{
}

/// The space that is taken is the sum of its parts.
pub proof fn law_space_is_summed(taken: Seq<SpaceTaken>, n: int)
    requires
        0 <= n <= taken.len(),
        taken.take(n).fold_left(0, |sum: int, part: SpaceTaken| sum + part.bytes) <= u64::MAX,
    ensures
        operations::total_bytes(taken, n) == taken.take(n).fold_left(
            0,
            |sum: int, part: SpaceTaken| sum + part.bytes,
        ),
    decreases n,
{
    let add = |sum: int, part: SpaceTaken| sum + part.bytes;
    reveal_with_fuel(Seq::fold_left, 2);
    if n > 0 {
        assert(taken.take(n).drop_last() =~= taken.take(n - 1));
        assert(taken.take(n).last() == taken[n - 1]);
        assert(taken.take(n).fold_left(0, add) == taken.take(n - 1).fold_left(0, add) + taken[n
            - 1].bytes);
        law_space_is_summed(taken, n - 1);
    }
}

/// Folders that are picked are the lines of what was said, without white space around them and
/// without empty ones.
pub proof fn law_picked_folders_are_lines(lines: Seq<Seq<char>>, n: int, folder: Seq<char>)
    requires
        0 <= n <= lines.len(),
    ensures
        operations::picked(lines, n).contains(folder) <==> folder.len() > 0 && exists|k: int|
            0 <= k < n && text::trimmed(#[trigger] lines[k]) == folder,
    decreases n,
{
    if n > 0 {
        law_picked_folders_are_lines(lines, n - 1, folder);
        let rest = operations::picked(lines, n - 1);
        let all = operations::picked(lines, n);
        if rest.contains(folder) {
            let at = choose|at: int| 0 <= at < rest.len() && rest[at] == folder;
            assert(all[at] == folder);
        }
        if text::trimmed(lines[n - 1]) == folder && folder.len() > 0 {
            assert(all[rest.len() as int] == folder);
        }
        if all.contains(folder) && !rest.contains(folder) {
            let at = choose|at: int| 0 <= at < all.len() && all[at] == folder;
            if at < rest.len() {
                assert(rest[at] == folder);
            }
            assert(text::trimmed(lines[n - 1]) == folder);
        }
    }
}

/// A file is told apart from what is not there, from what is no file, and from what cannot be read.
pub proof fn law_files_are_told_apart(path: Seq<char>, state: FileState)
    ensures
        files::status(path, state) == Ok::<bool, Seq<char>>(true) <==> state is Present,
        files::status(path, state) == Ok::<bool, Seq<char>>(false) <==> state is Missing,
        files::status(path, state) is Err <==> state is Other || state is Unreadable,
{
}

/// The extras of a merge are sorted into those that are there and those that are missing; no extra is
/// in both.
pub proof fn law_extras_are_sorted_by_what_is_there(
    extras: Seq<int>,
    states: Seq<FileState>,
    there: bool,
    n: int,
    p: int,
)
    requires
        0 <= n <= extras.len(),
        states.len() == extras.len(),
    ensures
        merging::sorted_out(extras, states, there, n).contains(p) <==> exists|k: int|
            0 <= k < n && #[trigger] extras[k] == p && (if there {
                states[k] is Present
            } else {
                states[k] is Missing
            }),
    decreases n,
{
    if n > 0 {
        law_extras_are_sorted_by_what_is_there(extras, states, there, n - 1, p);
        let rest = merging::sorted_out(extras, states, there, n - 1);
        let all = merging::sorted_out(extras, states, there, n);
        if rest.contains(p) {
            let at = choose|at: int| 0 <= at < rest.len() && rest[at] == p;
            assert(all[at] == p);
        }
        if extras[n - 1] == p && (if there {
            states[n - 1] is Present
        } else {
            states[n - 1] is Missing
        }) {
            assert(all[rest.len() as int] == p);
        }
        if all.contains(p) && !rest.contains(p) {
            let at = choose|at: int| 0 <= at < all.len() && all[at] == p;
            if at < rest.len() {
                assert(rest[at] == p);
            }
            assert(extras[n - 1] == p);
        }
    }
}

} // verus!
