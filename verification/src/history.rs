//! What operations leave in their log: the entries that the history lists and that rollbacks start
//! from.
use crate::models;
use crate::models::copy_texts;
use crate::operations;
use crate::operations::LogEntry;
use crate::text;
use crate::text::{cat, cat3, decimal_text, signed_decimal_text};
use vstd::prelude::*;
use vstd::string::*;

verus! {

/// An operation that is written to the log.
#[derive(Debug, Clone)]
pub enum Logged {
    /// A better copy took the name and place of another, at a path.
    Replacement { target_path: String },
    /// A selection was merged; what was merged away went to backups, or was deleted.
    Merge { backup: bool },
    /// A batch of groups was merged, and is summed up.
    Batch { backup: bool, summary: String },
    /// Selected files went to backups.
    Backup,
    /// Selected files were deleted.
    Deletion,
    /// Nothing was done for a task, since its files were gone.
    Stale { task: String },
    /// An operation was undone.
    Rollback { of: String },
}

/// How the names of such operations start.
pub open spec fn name_start(what: Logged) -> Seq<char> {
    match what {
        Logged::Replacement { .. } => "replace"@,
        Logged::Merge { .. } => "merge-selection"@,
        Logged::Batch { .. } => "batch-merge-selection"@,
        Logged::Backup => "backup"@,
        Logged::Deletion => "delete"@,
        Logged::Stale { .. } => "skip-stale"@,
        Logged::Rollback { .. } => "rollback"@,
    }
}

/// The name of an operation, by the time at which it was done.
pub open spec fn operation_name(what: Logged, stamp: i64) -> Seq<char> {
    name_start(what) + "-operation-"@ + text::signed_decimal(stamp as int)
}

/// What such an operation is called.
pub open spec fn action_text(what: Logged) -> Seq<char> {
    match what {
        Logged::Replacement { .. } => "replace"@,
        Logged::Merge { backup } => if backup {
            "merge-backup"@
        } else {
            "merge-delete"@
        },
        Logged::Batch { backup, .. } => if backup {
            "batch-merge-backup"@
        } else {
            "batch-merge-delete"@
        },
        Logged::Backup => "backup"@,
        Logged::Deletion => "delete"@,
        Logged::Stale { .. } => "skip-stale"@,
        Logged::Rollback { .. } => "rollback"@,
    }
}

/// How an operation with a number of messages is summed up.
pub open spec fn summary_text(what: Logged, count: nat) -> Seq<char> {
    match what {
        Logged::Replacement { target_path } => "替换路径 "@ + target_path@,
        Logged::Merge { backup } => (if backup {
            "并入并备份 "@
        } else {
            "并入并删除 "@
        }) + text::decimal(count) + " 个文件"@,
        Logged::Batch { summary, .. } => summary@,
        Logged::Backup => "移入备份 "@ + text::decimal(count) + " 个文件"@,
        Logged::Deletion => "直接删除 "@ + text::decimal(count) + " 个文件"@,
        Logged::Stale { task } => "跳过失效任务 "@ + task@,
        Logged::Rollback { of } => "回滚 "@ + of@,
    }
}

/// Whether the moves of such an operation are recorded.
pub open spec fn records_moves(what: Logged) -> bool {
    what is Replacement || what is Merge || what is Batch || what is Backup
}

/// Whether such an operation can be undone: nothing was deleted.
pub open spec fn is_undoable(what: Logged) -> bool {
    match what {
        Logged::Replacement { .. } => true,
        Logged::Merge { backup } => backup,
        Logged::Batch { backup, .. } => backup,
        Logged::Backup => true,
        _ => false,
    }
}

/// Whether an entry is the one that an operation leaves: with its messages, the number of its
/// moves, the time in its name and the time at which it is written.
pub open spec fn is_entry_of(
    entry: LogEntry,
    what: Logged,
    messages: Seq<Seq<char>>,
    moves: usize,
    stamp: i64,
    now: i64,
) -> bool {
    &&& models::opt_text(entry.operation_id) == Some(operation_name(what, stamp))
    &&& entry.is_rollback == (what is Rollback)
    &&& models::opt_text(entry.rollback_of) == (match what {
        Logged::Rollback { of } => Some(of@),
        _ => None,
    })
    &&& models::opt_text(entry.action) == Some(action_text(what))
    &&& !entry.has_plan
    &&& models::texts(entry.messages@) == messages
    &&& entry.moves == (if records_moves(what) {
        Some(moves)
    } else {
        None
    })
    &&& !entry.moves_unreadable
    &&& entry.reversible == is_undoable(what)
    &&& models::opt_text(entry.summary) == Some(summary_text(what, messages.len()))
    &&& entry.created_at_unix_ms == now
}

fn start_of(what: &Logged) -> (r: String)
    ensures
        r@ == name_start(*what),
{
    match what {
        Logged::Replacement { .. } => "replace".to_owned(),
        Logged::Merge { .. } => "merge-selection".to_owned(),
        Logged::Batch { .. } => "batch-merge-selection".to_owned(),
        Logged::Backup => "backup".to_owned(),
        Logged::Deletion => "delete".to_owned(),
        Logged::Stale { .. } => "skip-stale".to_owned(),
        Logged::Rollback { .. } => "rollback".to_owned(),
    }
}

fn action_of(what: &Logged) -> (r: String)
    ensures
        r@ == action_text(*what),
{
    match what {
        Logged::Replacement { .. } => "replace".to_owned(),
        Logged::Merge { backup } => if *backup {
            "merge-backup".to_owned()
        } else {
            "merge-delete".to_owned()
        },
        Logged::Batch { backup, .. } => if *backup {
            "batch-merge-backup".to_owned()
        } else {
            "batch-merge-delete".to_owned()
        },
        Logged::Backup => "backup".to_owned(),
        Logged::Deletion => "delete".to_owned(),
        Logged::Stale { .. } => "skip-stale".to_owned(),
        Logged::Rollback { .. } => "rollback".to_owned(),
    }
}

fn summary_of(what: &Logged, count: usize) -> (r: String)
    ensures
        r@ == summary_text(*what, count as nat),
{
    let number = decimal_text(count as u64);
    match what {
        Logged::Replacement { target_path } => cat("替换路径 ", target_path.as_str()),
        Logged::Merge { backup } => if *backup {
            cat3("并入并备份 ", number.as_str(), " 个文件")
        } else {
            cat3("并入并删除 ", number.as_str(), " 个文件")
        },
        Logged::Batch { summary, .. } => summary.clone(),
        Logged::Backup => cat3("移入备份 ", number.as_str(), " 个文件"),
        Logged::Deletion => cat3("直接删除 ", number.as_str(), " 个文件"),
        Logged::Stale { task } => cat("跳过失效任务 ", task.as_str()),
        Logged::Rollback { of } => cat("回滚 ", of.as_str()),
    }
}

fn undoable(what: &Logged) -> (r: bool)
    ensures
        r == is_undoable(*what),
{
    match what {
        Logged::Replacement { .. } => true,
        Logged::Merge { backup } => *backup,
        Logged::Batch { backup, .. } => *backup,
        Logged::Backup => true,
        _ => false,
    }
}

/// The entry that an operation leaves in the log. `stamp` is the time that its name holds, `now`
/// the time at which the entry is written.
pub fn log_entry(what: &Logged, messages: &Vec<String>, moves: usize, stamp: i64, now: i64) -> (r:
    LogEntry)
    ensures
        is_entry_of(r, *what, models::texts(messages@), moves, stamp, now),
{
    let start = start_of(what);
    let time = signed_decimal_text(stamp);
    let summary = summary_of(what, messages.len());
    let (rollback_of, is_rollback) = match what {
        Logged::Rollback { of } => (Some(of.clone()), true),
        _ => (None, false),
    };
    let recorded = match what {
        Logged::Replacement { .. } => Some(moves),
        Logged::Merge { .. } => Some(moves),
        Logged::Batch { .. } => Some(moves),
        Logged::Backup => Some(moves),
        _ => None,
    };
    assert(models::texts(messages@).len() == messages@.len());
    LogEntry {
        operation_id: Some(cat3(start.as_str(), "-operation-", time.as_str())),
        is_rollback,
        rollback_of,
        action: Some(action_of(what)),
        has_plan: false,
        messages: copy_texts(messages),
        moves: recorded,
        moves_unreadable: false,
        reversible: undoable(what),
        summary: Some(summary),
        created_at_unix_ms: now,
    }
}

/// The entry of an operation is listed in the history as it was written, and as reversible exactly
/// where it can be undone, moved something and was not undone.
pub proof fn law_logged_operation_is_listed(
    log: Seq<LogEntry>,
    entry: LogEntry,
    what: Logged,
    messages: Seq<Seq<char>>,
    moves: usize,
    stamp: i64,
    now: i64,
)
    requires
        is_entry_of(entry, what, messages, moves, stamp, now),
        !(what is Rollback),
    ensures
        operations::listed_entry(log, entry) matches Some(item) && item.operation_id
            == operation_name(what, stamp) && item.action == action_text(what) && item.summary
            == summary_text(what, messages.len()) && item.messages == messages
            && item.created_at_unix_ms == now && item.reversible == (is_undoable(what) && moves > 0
            && !operations::is_rolled_back(log, operation_name(what, stamp))),
{
}

proof fn lemma_entry_at_the_end(log: Seq<LogEntry>, entry: LogEntry, id: Seq<char>, i: int)
    requires
        0 <= i <= log.len(),
        models::opt_text(entry.operation_id) == Some(id),
        forall|k: int|
            0 <= k < log.len() ==> models::opt_text((#[trigger] log[k]).operation_id) != Some(id),
    ensures
        operations::entry_of(log.push(entry), id, i) == log.len(),
    decreases log.len() - i,
{
    if i < log.len() {
        assert(log.push(entry)[i] == log[i]);
        lemma_entry_at_the_end(log, entry, id, i + 1);
    }
}

/// An operation that moved files and deleted none can be rolled back once it is in the log, under
/// a name that no earlier one has and no rollback speaks of.
pub proof fn law_logged_moves_can_be_rolled_back(
    log: Seq<LogEntry>,
    entry: LogEntry,
    what: Logged,
    messages: Seq<Seq<char>>,
    moves: usize,
    stamp: i64,
    now: i64,
)
    requires
        is_entry_of(entry, what, messages, moves, stamp, now),
        is_undoable(what),
        moves > 0,
        forall|k: int|
            0 <= k < log.len() ==> models::opt_text((#[trigger] log[k]).operation_id) != Some(
                operation_name(what, stamp),
            ),
        !operations::is_rolled_back(log, operation_name(what, stamp)),
    ensures
        operations::rollback_target(log.push(entry), operation_name(what, stamp)) == Ok::<
            int,
            Seq<char>,
        >(log.len() as int),
{
    let id = operation_name(what, stamp);
    let after = log.push(entry);
    lemma_entry_at_the_end(log, entry, id, 0);
    if operations::is_rolled_back(after, id) {
        let k = choose|k: int|
            0 <= k < after.len() && models::opt_text((#[trigger] after[k]).rollback_of) == Some(id);
        if k < log.len() {
            assert(models::opt_text(log[k].rollback_of) == Some(id));
        }
    }
}

/// Once its rollback is in the log an operation cannot be rolled back again, and is listed as
/// rolled back.
pub proof fn law_logged_rollback_ends_it(
    log: Seq<LogEntry>,
    entry: LogEntry,
    of: String,
    messages: Seq<Seq<char>>,
    moves: usize,
    stamp: i64,
    now: i64,
)
    requires
        is_entry_of(entry, Logged::Rollback { of }, messages, moves, stamp, now),
    ensures
        operations::rollback_target(log.push(entry), of@) == Err::<int, Seq<char>>(
            "operation has already been rolled back"@,
        ),
        operations::listed_entry(log.push(entry), entry) is None,
        forall|own: LogEntry|
            models::opt_text(own.operation_id) == Some(of@) && !own.is_rollback
                ==> ((#[trigger] operations::listed_entry(log.push(entry), own)) matches Some(item)
                && item.rolled_back && !item.reversible),
{
    let after = log.push(entry);
    assert(models::opt_text(after[log.len() as int].rollback_of) == Some(of@));
}

} // verus!
