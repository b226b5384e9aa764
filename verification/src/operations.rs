//! Operations on the files of videos, their history, and the space that the program takes.
use crate::database;
use crate::files;
use crate::files::{ensure_existing_file, FileState};
use crate::index;
use crate::index::{DeletedVideoRows, VideoIndex};
use crate::merging;
use crate::merging::{find_video, FileMoveRecord};
use crate::models;
use crate::models::{
    copy_texts, CompletedAiFrameCacheCleanupSummary, OperationHistoryEntry, ReplacementPlan,
    StaleVideoPruneSummary, StorageCleanupSummary, StorageUsageItem, StorageUsageSummary,
    VacuumSummary, VideoRecord,
};
use crate::paths;
use crate::paths::{data_dir, data_path, join, Root, RootData, ALLOWED_SOURCE};
use crate::rows;
use crate::rows::keep_marked;
use crate::scans;
use crate::settings;
use crate::text;
use crate::text::{
    add_line, cat, cat3, cat4, cat6, chars_of, decimal_text, eq_ignore_ascii_case, same_text,
    signed_decimal_text, split, trim,
};
use crate::upkeep;
use vstd::prelude::*;
use vstd::string::*;

verus! {

/// The file that holds the history of operations.
pub open spec fn log_file(root: RootData) -> Seq<char> {
    paths::joined(root.host, paths::in_data(root, "operations"@), "operation-log.jsonl"@)
}

/// The file that holds the history of operations.
pub fn operation_log_path(root: &Root) -> (r: String)
    ensures
        r@ == log_file(root@),
{
    let dir = data_path(root, "operations");
    join(root.host, dir.as_str(), "operation-log.jsonl")
}

/// Which videos a replacement is about, or why it is refused.
pub open spec fn replacement_pair(
    videos: Seq<VideoRecord>,
    high: i64,
    naming: i64,
    restricted: bool,
    root: RootData,
) -> Result<(int, int), Seq<char>> {
    let h = merging::place(videos, high);
    let n = merging::place(videos, naming);
    if high == naming {
        Err("high quality file and naming source must be different"@)
    } else if h is None {
        Err(merging::unknown_message(high))
    } else if n is None {
        Err(merging::unknown_message(naming))
    } else if !settings::path_allowed(videos[h->0].path@, restricted, root)
        || !settings::path_allowed(videos[n->0].path@, restricted, root) {
        Err("replacement plan contains a path outside "@ + ALLOWED_SOURCE@)
    } else {
        Ok((h->0, n->0))
    }
}

/// Which videos a replacement is about; fails where it is refused.
pub fn check_replacement(
    videos: &Vec<VideoRecord>,
    high_quality_id: i64,
    naming_source_id: i64,
    restricted: bool,
    root: &Root,
) -> (r: Result<(usize, usize), String>)
    ensures
        match r {
            Ok(pair) => replacement_pair(
                videos@,
                high_quality_id,
                naming_source_id,
                restricted,
                root@,
            ) == Ok::<(int, int), Seq<char>>((pair.0 as int, pair.1 as int)) && pair.0
                < videos@.len() && pair.1 < videos@.len(),
            Err(message) => replacement_pair(
                videos@,
                high_quality_id,
                naming_source_id,
                restricted,
                root@,
            ) == Err::<(int, int), Seq<char>>(message@),
        },
{
    if high_quality_id == naming_source_id {
        return Err("high quality file and naming source must be different".to_owned());
    }
    let h = match find_video(videos, high_quality_id) {
        Ok(p) => p,
        Err(message) => {
            return Err(message);
        },
    };
    let n = match find_video(videos, naming_source_id) {
        Ok(p) => p,
        Err(message) => {
            return Err(message);
        },
    };
    if restricted && (!paths::is_allowed_scan_path(videos[h].path.as_str(), root)
        || !paths::is_allowed_scan_path(videos[n].path.as_str(), root)) {
        return Err(cat("replacement plan contains a path outside ", ALLOWED_SOURCE));
    }
    Ok((h, n))
}

/// What a replacement plan says beside its name and file.
pub open spec fn is_replacement_plan(
    plan: ReplacementPlan,
    high: i64,
    naming: i64,
    high_path: Seq<char>,
    target_path: Seq<char>,
    backup_path: Seq<char>,
) -> bool {
    &&& plan.high_quality_id == high
    &&& plan.naming_source_id == naming
    &&& plan.high_quality_path@ == high_path
    &&& plan.target_path@ == target_path
    &&& plan.backup_path@ == backup_path
    &&& models::texts(plan.steps@) == seq![
        "移动命名来源到备份文件夹: "@ + backup_path,
        "移动高清文件到原位置并继承文件名: "@ + target_path,
        "重新扫描来源目录并刷新索引数据库"@,
    ]
    &&& models::texts(plan.warnings@) == seq![
        "备份文件会移动到 Settings 指定的备份文件夹，不在原位置追加后缀"@,
        "跨目录移动依赖 NAS/SMB 对 rename 的支持，失败时不应继续删除任何文件"@,
        "执行前应确认目标文件未被播放器、同步软件或其他进程占用"@,
    ]
}

/// The plan by which a better copy takes the name and place of another, which goes to a backup;
/// fails where the replacement is refused.
pub fn create_replacement_plan(
    videos: &Vec<VideoRecord>,
    high_quality_id: i64,
    naming_source_id: i64,
    restricted: bool,
    root: &Root,
    backup_path: &str,
    timestamp: i64,
) -> (r: Result<ReplacementPlan, String>)
    ensures
        match replacement_pair(videos@, high_quality_id, naming_source_id, restricted, root@) {
            Err(message) => r is Err && r->Err_0@ == message,
            Ok(pair) => r matches Ok(plan) && is_replacement_plan(
                plan,
                high_quality_id,
                naming_source_id,
                videos@[pair.0].path@,
                videos@[pair.1].path@,
                backup_path@,
            ) && plan.plan_id@ == "replace-plan-"@ + text::signed_decimal(timestamp as int)
                && plan.plan_file@ == paths::joined(
                root@.host,
                paths::in_data(root@, "operations"@),
                plan.plan_id@ + ".json"@,
            ),
        },
{
    let pair = match check_replacement(
        videos,
        high_quality_id,
        naming_source_id,
        restricted,
        root,
    ) {
        Ok(pair) => pair,
        Err(message) => {
            return Err(message);
        },
    };
    let high_path = videos[pair.0].path.clone();
    let target_path = videos[pair.1].path.clone();
    let plan_id = cat("replace-plan-", signed_decimal_text(timestamp).as_str());
    let dir = data_path(root, "operations");
    let plan_file = join(root.host, dir.as_str(), cat(plan_id.as_str(), ".json").as_str());
    let mut steps: Vec<String> = Vec::new();
    let mut warnings: Vec<String> = Vec::new();
    assert(models::texts(steps@) =~= Seq::empty());
    assert(models::texts(warnings@) =~= Seq::empty());
    add_line(&mut steps, cat("移动命名来源到备份文件夹: ", backup_path));
    add_line(&mut steps, cat("移动高清文件到原位置并继承文件名: ", target_path.as_str()));
    add_line(&mut steps, "重新扫描来源目录并刷新索引数据库".to_owned());
    add_line(
        &mut warnings,
        "备份文件会移动到 Settings 指定的备份文件夹，不在原位置追加后缀".to_owned(),
    );
    add_line(
        &mut warnings,
        "跨目录移动依赖 NAS/SMB 对 rename 的支持，失败时不应继续删除任何文件".to_owned(),
    );
    add_line(
        &mut warnings,
        "执行前应确认目标文件未被播放器、同步软件或其他进程占用".to_owned(),
    );
    let plan = ReplacementPlan {
        plan_id,
        high_quality_id,
        naming_source_id,
        high_quality_path: high_path,
        target_path,
        backup_path: backup_path.to_owned(),
        plan_file,
        steps,
        warnings,
    };
    assert(models::texts(plan.steps@) =~= seq![
        "移动命名来源到备份文件夹: "@ + backup_path@,
        "移动高清文件到原位置并继承文件名: "@ + plan.target_path@,
        "重新扫描来源目录并刷新索引数据库"@,
    ]);
    assert(models::texts(plan.warnings@) =~= seq![
        "备份文件会移动到 Settings 指定的备份文件夹，不在原位置追加后缀"@,
        "跨目录移动依赖 NAS/SMB 对 rename 的支持，失败时不应继续删除任何文件"@,
        "执行前应确认目标文件未被播放器、同步软件或其他进程占用"@,
    ]);
    Ok(plan)
}

/// The moves of a replacement, in order, with what is told once they were made.
#[derive(Debug, Clone)]
pub struct ReplacementRun {
    /// Where the named copy goes from, and where to.
    pub away_from: String,
    pub away_to: String,
    /// Where the better copy goes from, and where to.
    pub into_from: String,
    pub into_to: String,
    pub messages: Vec<String>,
}

/// The moves of a replacement; fails where it was not confirmed.
pub fn execute_replacement(plan: &ReplacementPlan, confirmation: &str) -> (r: Result<
    ReplacementRun,
    String,
>)
    ensures
        if confirmation@ != "REPLACE"@ {
            r is Err && r->Err_0@ == "confirmation must be REPLACE"@
        } else {
            r matches Ok(run) && run.away_from@ == plan.target_path@ && run.away_to@
                == plan.backup_path@ && run.into_from@ == plan.high_quality_path@ && run.into_to@
                == plan.target_path@ && models::texts(run.messages@) == seq![
                "backup created at "@ + plan.backup_path@,
                "replacement moved into "@ + plan.target_path@,
                "index migrated: kept video id "@ + text::signed_decimal(
                    plan.high_quality_id as int,
                ) + " at "@ + plan.target_path@ + " and removed video id "@ + text::signed_decimal(
                    plan.naming_source_id as int,
                ),
            ]
        },
{
    if !same_text(confirmation, "REPLACE") {
        return Err("confirmation must be REPLACE".to_owned());
    }
    let mut messages: Vec<String> = Vec::new();
    assert(models::texts(messages@) =~= Seq::empty());
    add_line(&mut messages, cat("backup created at ", plan.backup_path.as_str()));
    add_line(&mut messages, cat("replacement moved into ", plan.target_path.as_str()));
    add_line(
        &mut messages,
        cat6(
            "index migrated: kept video id ",
            signed_decimal_text(plan.high_quality_id).as_str(),
            " at ",
            plan.target_path.as_str(),
            " and removed video id ",
            signed_decimal_text(plan.naming_source_id).as_str(),
        ),
    );
    assert(models::texts(messages@) =~= seq![
        "backup created at "@ + plan.backup_path@,
        "replacement moved into "@ + plan.target_path@,
        "index migrated: kept video id "@ + text::signed_decimal(plan.high_quality_id as int)
            + " at "@ + plan.target_path@ + " and removed video id "@ + text::signed_decimal(
            plan.naming_source_id as int,
        ),
    ]);
    Ok(
        ReplacementRun {
            away_from: plan.target_path.clone(),
            away_to: plan.backup_path.clone(),
            into_from: plan.high_quality_path.clone(),
            into_to: plan.target_path.clone(),
            messages,
        },
    )
}

/// Whether some video has a path, up to the case of ASCII letters.
pub open spec fn is_indexed(videos: Seq<VideoRecord>, path: Seq<char>) -> bool {
    exists|i: int|
        0 <= i < videos.len() && database::same_folded((#[trigger] videos[i]).path@, path)
}

/// Why a video cannot be opened.
pub open spec fn opening_trouble(
    videos: Seq<VideoRecord>,
    path: Seq<char>,
    restricted: bool,
    root: RootData,
    state: FileState,
) -> Option<Seq<char>> {
    if !settings::path_allowed(path, restricted, root) {
        Some(settings::outside_message())
    } else if files::presence_trouble(path, "video file"@, state) is Some {
        files::presence_trouble(path, "video file"@, state)
    } else if !is_indexed(videos, path) {
        Some("video is not in the local index"@)
    } else {
        None
    }
}

/// Fails where a video cannot be opened: its path may not be worked on, its file is not there, or
/// it is not in the index.
pub fn open_video(
    videos: &Vec<VideoRecord>,
    path: &str,
    restricted: bool,
    root: &Root,
    state: &FileState,
) -> (r: Result<(), String>)
    ensures
        files::trouble(r) == opening_trouble(videos@, path@, restricted, root@, *state),
{
    settings::validate_operable_path(path, restricted, root)?;
    ensure_existing_file(path, "video file", state)?;
    let mut i: usize = 0;
    while i < videos.len()
        invariant
            i <= videos@.len(),
            settings::path_allowed(path@, restricted, root@),
            files::presence_trouble(path@, "video file"@, *state) is None,
            forall|k: int|
                0 <= k < i ==> !database::same_folded((#[trigger] videos@[k]).path@, path@),
        decreases videos@.len() - i,
    {
        if eq_ignore_ascii_case(videos[i].path.as_str(), path) {
            return Ok(());
        }
        i += 1;
    }
    Err("video is not in the local index".to_owned())
}

/// Whether a video was scanned well and its file is gone.
pub open spec fn is_gone(video: VideoRecord, state: FileState) -> bool {
    video.scan_status@ == "ok"@ && state is Missing
}

/// Whether a video was scanned well and its file is gone.
fn file_is_gone(video: &VideoRecord, state: &FileState) -> (r: bool)
    ensures
        r == is_gone(*video, *state),
{
    let missing = match state {
        FileState::Missing => true,
        _ => false,
    };
    same_text(video.scan_status.as_str(), "ok") && missing
}

/// The videos of a list, among the first `n`, whose files are not gone.
pub open spec fn still_there(videos: Seq<VideoRecord>, states: Seq<FileState>, n: int) -> Seq<
    VideoRecord,
>
    decreases n,
{
    if n <= 0 {
        Seq::empty()
    } else {
        let rest = still_there(videos, states, n - 1);
        if is_gone(videos[n - 1], states[n - 1]) {
            rest
        } else {
            rest.push(videos[n - 1])
        }
    }
}

/// The ids of the videos of a list, among the first `n`, whose files are gone.
pub open spec fn gone_ids(videos: Seq<VideoRecord>, states: Seq<FileState>, n: int) -> Seq<i64>
    decreases n,
{
    if n <= 0 {
        Seq::empty()
    } else {
        let rest = gone_ids(videos, states, n - 1);
        if is_gone(videos[n - 1], states[n - 1]) && videos[n - 1].id is Some {
            rest.push(videos[n - 1].id->0)
        } else {
            rest
        }
    }
}

proof fn lemma_marked_still_there(
    videos: Seq<VideoRecord>,
    states: Seq<FileState>,
    marks: Seq<bool>,
    n: int,
)
    requires
        0 <= n <= videos.len(),
        marks.len() >= n,
        forall|k: int| 0 <= k < n ==> #[trigger] marks[k] == !is_gone(videos[k], states[k]),
    ensures
        rows::marked(videos.take(n), marks) == still_there(videos, states, n),
    decreases n,
{
    if n > 0 {
        lemma_marked_still_there(videos, states, marks, n - 1);
        assert(videos.take(n).drop_last() =~= videos.take(n - 1));
        assert(marks[n - 1] == !is_gone(videos[n - 1], states[n - 1]));
    } else {
        assert(videos.take(0) =~= Seq::empty());
    }
}

/// Whether a video of the index is one whose file is gone, among those that were to be checked.
pub open spec fn is_to_prune(
    index: VideoIndex,
    states: Seq<FileState>,
    session_ids: Option<Seq<i64>>,
    id: i64,
) -> bool {
    exists|i: int|
        0 <= i < index.videos@.len() && (#[trigger] index.videos@[i]).id == Some(id) && is_gone(
            index.videos@[i],
            states[i],
        ) && (session_ids matches Some(ids) ==> scans::seen_by(index, ids, id))
}

/// The views of an optional list.
pub open spec fn opt_ids(list: Option<Vec<i64>>) -> Option<Seq<i64>> {
    match list {
        Some(v) => Some(v@),
        None => None,
    }
}

/// The sum of two numbers, or the largest number.
fn sum(a: usize, b: usize) -> (r: usize)
    ensures
        r == index::capped_sum(a, b),
{
    a.saturating_add(b)
}

impl VideoIndex {
    /// Removes from the index the videos of a list that were scanned well and whose files are
    /// gone, and gives back the others.
    pub fn prune_missing_videos(&mut self, videos: Vec<VideoRecord>, states: &Vec<FileState>) -> (r:
        Vec<VideoRecord>)
        requires
            old(self).wf(),
            states@.len() == videos@.len(),
        ensures
            final(self).wf(),
            r@ == still_there(videos@, states@, videos@.len() as int),
            index::videos_dropped(
                *old(self),
                *final(self),
                gone_ids(videos@, states@, videos@.len() as int),
            ),
    {
        let ghost all = videos@;
        let mut marks: Vec<bool> = Vec::new();
        let mut missing: Vec<i64> = Vec::new();
        let mut i: usize = 0;
        while i < videos.len()
            invariant
                i <= videos@.len(),
                states@.len() == videos@.len(),
                marks@.len() == i,
                forall|k: int|
                    0 <= k < i ==> #[trigger] marks@[k] == !is_gone(videos@[k], states@[k]),
                missing@ == gone_ids(videos@, states@, i as int),
            decreases videos@.len() - i,
        {
            let gone = file_is_gone(&videos[i], &states[i]);
            if gone {
                if let Some(id) = videos[i].id {
                    missing.push(id);
                }
            }
            marks.push(!gone);
            i += 1;
        }
        proof {
            lemma_marked_still_there(all, states@, marks@, all.len() as int);
            assert(all.take(all.len() as int) =~= all);
        }
        let _dropped = self.delete_videos_by_ids(&missing);
        keep_marked(videos, &marks)
    }

    /// Removes from the index the videos that were scanned well and whose files are gone, and
    /// then the videos that no scan has seen. `states` tells of every video of the index what
    /// stands at its path; with scans given, only what they saw is checked.
    pub fn prune_stale_videos(
        &mut self,
        session_ids: &Option<Vec<i64>>,
        states: &Vec<FileState>,
    ) -> (r: StaleVideoPruneSummary)
        requires
            old(self).wf(),
            states@.len() == old(self).videos@.len(),
        ensures
            final(self).wf(),
            exists|checked: Seq<usize>,
                gone: Seq<i64>,
                mid: VideoIndex,
                missing: DeletedVideoRows,
                orphan: DeletedVideoRows,
            |
                #![trigger scans::lists_in_order(old(self).videos@, checked),
                    index::videos_dropped(*old(self), mid, gone),
                    index::rows_lost(*old(self), mid, missing),
                    index::rows_lost(mid, *final(self), orphan)]
                {
                    &&& scans::lists_in_order(old(self).videos@, checked)
                    &&& forall|i: int|
                        0 <= i < old(self).videos@.len() ==> (#[trigger] checked.contains(
                            i as usize,
                        ) <==> (session_ids matches Some(ids) ==> scans::seen_by(
                            *old(self),
                            ids@,
                            old(self).videos@[i].id->0,
                        )))
                    &&& r.checked_videos == checked.len()
                    &&& forall|id: i64| #[trigger]
                        gone.contains(id) <==> is_to_prune(
                            *old(self),
                            states@,
                            opt_ids(*session_ids),
                            id,
                        )
                    &&& index::videos_dropped(*old(self), mid, gone)
                    &&& index::rows_lost(*old(self), mid, missing)
                    &&& index::videos_dropped(
                        mid,
                        *final(self),
                        upkeep::orphans(mid.videos@, mid.links@, mid.videos@.len() as int),
                    )
                    &&& index::rows_lost(mid, *final(self), orphan)
                    &&& r.removed_missing_videos == missing.videos
                    &&& r.removed_orphan_videos == orphan.videos
                    &&& r.deleted_pair_scores == index::capped_sum(
                        missing.pair_scores,
                        orphan.pair_scores,
                    )
                    &&& r.deleted_match_edges == index::capped_sum(
                        missing.match_edges,
                        orphan.match_edges,
                    )
                    &&& r.deleted_frame_embeddings == index::capped_sum(
                        missing.frame_embeddings,
                        orphan.frame_embeddings,
                    )
                },
    {
        let ghost start = *self;
        let ghost wanted = opt_ids(*session_ids);
        let total: usize = self.videos.len();
        let listed = match session_ids {
            Some(ids) => self.list_videos_for_sessions(ids),
            None => self.list_videos(),
        };
        let mut gone: Vec<i64> = Vec::new();
        let mut i: usize = 0;
        while i < listed.len()
            invariant
                i <= listed@.len(),
                start == *old(self),
                *self == start,
                start.wf(),
                states@.len() == start.videos@.len(),
                forall|k: int| 0 <= k < listed@.len() ==> (#[trigger] listed@[k]) < start.videos@.len(),
                forall|id: i64| #[trigger]
                    gone@.contains(id) <==> exists|k: int|
                        0 <= k < i && start.videos@[(#[trigger] listed@[k]) as int].id == Some(id)
                            && is_gone(start.videos@[listed@[k] as int], states@[listed@[k] as int]),
            decreases listed@.len() - i,
        {
            let p: usize = listed[i];
            let ghost before = gone@;
            if file_is_gone(&self.videos[p], &states[p]) {
                if let Some(id) = self.videos[p].id {
                    gone.push(id);
                    assert(gone@[before.len() as int] == id);
                }
            }
            proof {
                assert forall|id: i64| #[trigger] gone@.contains(id) <==> exists|k: int|
                    0 <= k < i + 1 && start.videos@[(#[trigger] listed@[k]) as int].id == Some(id)
                        && is_gone(
                        start.videos@[listed@[k] as int],
                        states@[listed@[k] as int],
                    ) by {
                    if gone@.contains(id) {
                        let j = choose|j: int| 0 <= j < gone@.len() && gone@[j] == id;
                        if j < before.len() {
                            assert(before[j] == id);
                            assert(before.contains(id));
                        } else {
                            assert(start.videos@[listed@[i as int] as int].id == Some(id));
                        }
                    }
                    if exists|k: int|
                        0 <= k < i + 1 && start.videos@[(#[trigger] listed@[k]) as int].id == Some(
                            id,
                        ) && is_gone(
                            start.videos@[listed@[k] as int],
                            states@[listed@[k] as int],
                        ) {
                        let k = choose|k: int|
                            0 <= k < i + 1 && start.videos@[(#[trigger] listed@[k]) as int].id
                                == Some(id) && is_gone(
                                start.videos@[listed@[k] as int],
                                states@[listed@[k] as int],
                            );
                        if k < i {
                            assert(before.contains(id));
                            let j = choose|j: int| 0 <= j < before.len() && before[j] == id;
                            assert(gone@[j] == id);
                        }
                    }
                }
            }
            i += 1;
        }
        proof {
            assert forall|id: i64| #[trigger] gone@.contains(id) <==> is_to_prune(
                start,
                states@,
                wanted,
                id,
            ) by {
                if gone@.contains(id) {
                    let k = choose|k: int|
                        0 <= k < listed@.len() && start.videos@[(#[trigger] listed@[k]) as int].id
                            == Some(id) && is_gone(
                            start.videos@[listed@[k] as int],
                            states@[listed@[k] as int],
                        );
                    let v = listed@[k] as int;
                    assert(start.videos@[v].id == Some(id));
                    assert(listed@.contains(v as usize));
                }
                if is_to_prune(start, states@, wanted, id) {
                    let v = choose|v: int|
                        0 <= v < start.videos@.len() && (#[trigger] start.videos@[v]).id == Some(id)
                            && is_gone(start.videos@[v], states@[v]) && (wanted matches Some(ids)
                            ==> scans::seen_by(start, ids, id));
                    assert(v < total <= usize::MAX);
                    assert(listed@.contains(v as usize));
                    let k = choose|k: int| 0 <= k < listed@.len() && listed@[k] == v as usize;
                    assert(start.videos@[listed@[k] as int].id == Some(id));
                }
            }
        }
        let missing = self.delete_videos_by_ids(&gone);
        let ghost mid = *self;
        let orphan = self.delete_orphan_videos();
        assert(index::videos_dropped(start, mid, gone@));
        assert(scans::lists_in_order(start.videos@, listed@));
        assert(index::rows_lost(start, mid, missing));
        assert(index::rows_lost(mid, *self, orphan));
        StaleVideoPruneSummary {
            checked_videos: listed.len(),
            removed_missing_videos: missing.videos,
            removed_orphan_videos: orphan.videos,
            deleted_pair_scores: sum(missing.pair_scores, orphan.pair_scores),
            deleted_match_edges: sum(missing.match_edges, orphan.match_edges),
            deleted_frame_embeddings: sum(missing.frame_embeddings, orphan.frame_embeddings),
        }
    }
}

/// What is done with selected files.
#[derive(Debug, Clone, Copy, PartialEq, Eq, Structural)]
pub enum FileActionKind {
    /// They are moved to the backup folder.
    Backup,
    /// They are deleted.
    Delete,
}

/// What is done with selected files, or why nothing is done.
pub open spec fn file_action(
    count: int,
    action: Seq<char>,
    confirmation: Seq<char>,
    allow_direct_delete: bool,
) -> Result<FileActionKind, Seq<char>> {
    if count == 0 {
        Err("no videos selected"@)
    } else if action == "backup"@ {
        if confirmation != "MOVE"@ {
            Err("confirmation must be MOVE"@)
        } else {
            Ok(FileActionKind::Backup)
        }
    } else if action == "delete"@ {
        if !allow_direct_delete {
            Err("direct delete is disabled in Settings"@)
        } else if confirmation != "DELETE"@ {
            Err("confirmation must be DELETE"@)
        } else {
            Ok(FileActionKind::Delete)
        }
    } else {
        Err("unsupported file action: "@ + action)
    }
}

/// An operation on selected files: what is done, and what is told at the end beside the files.
#[derive(Debug, Clone)]
pub struct FileActionRun {
    pub kind: FileActionKind,
    pub closing: Option<String>,
}

/// Starts an operation on selected files; fails where it is refused.
pub fn execute_file_action(
    video_ids: &Vec<i64>,
    action: &str,
    confirmation: &str,
    allow_direct_delete: bool,
) -> (r: Result<FileActionRun, String>)
    ensures
        match file_action(video_ids@.len() as int, action@, confirmation@, allow_direct_delete) {
            Ok(kind) => r matches Ok(run) && run.kind == kind && run.closing is None,
            Err(message) => r is Err && r->Err_0@ == message,
        },
{
    execute_file_action_with_options(video_ids, action, confirmation, allow_direct_delete, false)
}

/// Starts an operation on selected files; fails where it is refused. With the update of the list
/// put off, a message says so.
pub fn execute_file_action_with_options(
    video_ids: &Vec<i64>,
    action: &str,
    confirmation: &str,
    allow_direct_delete: bool,
    defer_index_update: bool,
) -> (r: Result<FileActionRun, String>)
    ensures
        match file_action(video_ids@.len() as int, action@, confirmation@, allow_direct_delete) {
            Ok(kind) => r matches Ok(run) && run.kind == kind && models::opt_text(run.closing) == (
            if defer_index_update {
                Some("index updated; current similarity list will update after manual refresh"@)
            } else {
                None
            }),
            Err(message) => r is Err && r->Err_0@ == message,
        },
{
    proof {
        reveal_strlit("backup");
        reveal_strlit("delete");
        assert("backup"@[0] != "delete"@[0]);
    }
    if video_ids.len() == 0 {
        return Err("no videos selected".to_owned());
    }
    let kind = if same_text(action, "backup") {
        if !same_text(confirmation, "MOVE") {
            return Err("confirmation must be MOVE".to_owned());
        }
        FileActionKind::Backup
    } else if same_text(action, "delete") {
        if !allow_direct_delete {
            return Err("direct delete is disabled in Settings".to_owned());
        }
        if !same_text(confirmation, "DELETE") {
            return Err("confirmation must be DELETE".to_owned());
        }
        FileActionKind::Delete
    } else {
        return Err(cat("unsupported file action: ", action));
    };
    let closing = if defer_index_update {
        Some(
            "index updated; current similarity list will update after manual refresh".to_owned(),
        )
    } else {
        None
    };
    Ok(FileActionRun { kind, closing })
}

/// The position of a selected video, or why the operation fails: it is not in the index, or may not
/// be worked on.
pub open spec fn selected(
    videos: Seq<VideoRecord>,
    id: i64,
    restricted: bool,
    root: RootData,
) -> Result<int, Seq<char>> {
    match merging::place(videos, id) {
        None => Err(merging::unknown_message(id)),
        Some(p) => if !settings::path_allowed(videos[p].path@, restricted, root) {
            Err(settings::outside_message())
        } else {
            Ok(p)
        },
    }
}

/// The position of a selected video; fails where it is not in the index or may not be worked on.
pub fn select_video(videos: &Vec<VideoRecord>, id: i64, restricted: bool, root: &Root) -> (r: Result<
    usize,
    String,
>)
    ensures
        match r {
            Ok(at) => selected(videos@, id, restricted, root@) == Ok::<int, Seq<char>>(at as int)
                && at < videos@.len(),
            Err(message) => selected(videos@, id, restricted, root@) == Err::<int, Seq<char>>(
                message@,
            ),
        },
{
    let p = match find_video(videos, id) {
        Ok(p) => p,
        Err(message) => {
            return Err(message);
        },
    };
    match settings::validate_operable_path(videos[p].path.as_str(), restricted, root) {
        Ok(_) => Ok(p),
        Err(message) => Err(message),
    }
}

/// What is told of a selected video.
pub open spec fn selected_message(path: Seq<char>, there: bool, backup: Option<Seq<char>>) -> Seq<
    char,
> {
    if !there {
        "removed stale missing index "@ + path
    } else {
        match backup {
            Some(to) => "moved "@ + path + " to "@ + to,
            None => "deleted "@ + path,
        }
    }
}

/// What is told of a selected video: that its file was missing, moved to a backup, or deleted.
pub fn selected_text(path: &str, there: bool, backup: &Option<String>) -> (r: String)
    ensures
        r@ == selected_message(path@, there, models::opt_text(*backup)),
{
    if !there {
        return cat("removed stale missing index ", path);
    }
    match backup {
        Some(to) => cat4("moved ", path, " to ", to.as_str()),
        None => cat("deleted ", path),
    }
}

/// A selected file that goes to a backup.
#[derive(Debug, Clone)]
pub struct BackupMove {
    pub id: i64,
    pub place: usize,
    pub to: String,
}

/// The moving of selected files to backups: what is told of it, the videos that leave the index,
/// and the files that go.
#[derive(Debug, Clone)]
pub struct BackupRun {
    pub messages: Vec<String>,
    pub gone: Vec<i64>,
    pub going: Vec<BackupMove>,
}

impl BackupRun {
    /// A run at its start.
    pub fn new() -> (r: BackupRun)
        ensures
            r.messages@.len() == 0,
            r.gone@.len() == 0,
            r.going@.len() == 0,
    {
        BackupRun { messages: Vec::new(), gone: Vec::new(), going: Vec::new() }
    }

    /// Takes in the selected video at a position: its file goes to a backup; where none is given
    /// the file is missing, and the video leaves the index at once.
    pub fn take(&mut self, videos: &Vec<VideoRecord>, id: i64, place: usize, backup: Option<String>)
        requires
            place < videos@.len(),
        ensures
            match backup {
                Some(to) => {
                    &&& final(self).messages@ == old(self).messages@
                    &&& final(self).gone@ == old(self).gone@
                    &&& final(self).going@ == old(self).going@.push(BackupMove { id, place, to })
                },
                None => {
                    &&& models::texts(final(self).messages@) == models::texts(
                        old(self).messages@,
                    ).push(selected_message(videos@[place as int].path@, false, None))
                    &&& final(self).gone@ == old(self).gone@.push(id)
                    &&& final(self).going@ == old(self).going@
                },
            },
    {
        match backup {
            Some(to) => self.going.push(BackupMove { id, place, to }),
            None => {
                let line = selected_text(videos[place].path.as_str(), false, &None);
                add_line(&mut self.messages, line);
                self.gone.push(id);
            },
        }
    }

    /// Where the files go to.
    pub fn destinations(&self) -> (r: Vec<String>)
        ensures
            models::texts(r@) == self.going@.map_values(|going: BackupMove| going.to@),
    {
        let mut out: Vec<String> = Vec::new();
        let ghost all = self.going@.map_values(|going: BackupMove| going.to@);
        let mut i: usize = 0;
        assert(models::texts(out@) =~= all.take(0));
        while i < self.going.len()
            invariant
                i <= self.going@.len(),
                all == self.going@.map_values(|going: BackupMove| going.to@),
                models::texts(out@) == all.take(i as int),
            decreases self.going@.len() - i,
        {
            let ghost before = out@;
            out.push(self.going[i].to.clone());
            assert(models::texts(out@) =~= models::texts(before).push(all[i as int]));
            assert(all.take(i + 1) =~= all.take(i as int).push(all[i as int]));
            i += 1;
        }
        assert(all.take(i as int) =~= all);
        out
    }

    /// Notes that the file at position `k` of those that go was moved; its video leaves the index.
    pub fn moved(&mut self, videos: &Vec<VideoRecord>, k: usize)
        requires
            k < old(self).going@.len(),
            old(self).going@[k as int].place < videos@.len(),
        ensures
            final(self).going@ == old(self).going@,
            final(self).gone@ == old(self).gone@.push(old(self).going@[k as int].id),
            models::texts(final(self).messages@) == models::texts(old(self).messages@).push(
                selected_message(
                    videos@[old(self).going@[k as int].place as int].path@,
                    true,
                    Some(old(self).going@[k as int].to@),
                ),
            ),
    {
        let to = Some(self.going[k].to.clone());
        let place: usize = self.going[k].place;
        let id: i64 = self.going[k].id;
        let line = selected_text(videos[place].path.as_str(), true, &to);
        add_line(&mut self.messages, line);
        self.gone.push(id);
    }
}

/// The folders of a list that a dialog gave: its lines without white space, blank ones left out.
pub open spec fn picked(lines: Seq<Seq<char>>, n: int) -> Seq<Seq<char>>
    decreases n,
{
    if n <= 0 {
        Seq::empty()
    } else {
        let rest = picked(lines, n - 1);
        if text::trimmed(lines[n - 1]).len() > 0 {
            rest.push(text::trimmed(lines[n - 1]))
        } else {
            rest
        }
    }
}

/// The folders that a dialog gave.
pub open spec fn folders_of(output: Seq<char>) -> Seq<Seq<char>> {
    let lines = text::pieces(output, '\n');
    picked(lines, lines.len() as int)
}

/// The folders that a dialog gave.
pub fn pick_folders(output: &str) -> (r: Vec<String>)
    ensures
        models::texts(r@) == folders_of(output@),
{
    let lines = split(output, '\n');
    let ghost all = models::texts(lines@);
    let mut out: Vec<String> = Vec::new();
    let mut i: usize = 0;
    assert(models::texts(out@) =~= Seq::empty());
    while i < lines.len()
        invariant
            i <= lines@.len(),
            all == models::texts(lines@),
            models::texts(out@) == picked(all, i as int),
        decreases lines@.len() - i,
    {
        let line = trim(lines[i].as_str());
        assert(all[i as int] == lines@[i as int]@);
        if chars_of(line.as_str()).len() > 0 {
            add_line(&mut out, line);
        }
        i += 1;
    }
    out
}

/// The first folder that a dialog gave.
pub fn pick_folder(output: &str) -> (r: Option<String>)
    ensures
        models::opt_text(r) == (if folders_of(output@).len() > 0 {
            Some(folders_of(output@)[0])
        } else {
            None
        }),
{
    let folders = pick_folders(output);
    assert(models::texts(folders@).len() == folders@.len());
    if folders.len() > 0 {
        assert(models::texts(folders@)[0] == folders@[0]@);
        Some(folders[0].clone())
    } else {
        None
    }
}

/// One entry of the log of operations, as far as it could be read.
#[derive(Debug, Clone)]
pub struct LogEntry {
    pub operation_id: Option<String>,
    /// Whether the entry is about a rollback, and of which operation.
    pub is_rollback: bool,
    pub rollback_of: Option<String>,
    pub action: Option<String>,
    pub has_plan: bool,
    pub messages: Vec<String>,
    /// The number of moves, where a list of them is recorded.
    pub moves: Option<usize>,
    /// Whether something else than a list is recorded as the moves.
    pub moves_unreadable: bool,
    pub reversible: bool,
    pub summary: Option<String>,
    pub created_at_unix_ms: i64,
}

/// Whether an operation was rolled back.
pub open spec fn is_rolled_back(log: Seq<LogEntry>, id: Seq<char>) -> bool {
    exists|k: int|
        0 <= k < log.len() && models::opt_text((#[trigger] log[k]).rollback_of) == Some(id)
}

/// Whether an operation was rolled back.
fn was_rolled_back(log: &Vec<LogEntry>, id: &str) -> (r: bool)
    ensures
        r == is_rolled_back(log@, id@),
{
    let mut i: usize = 0;
    while i < log.len()
        invariant
            i <= log@.len(),
            forall|k: int|
                0 <= k < i ==> models::opt_text((#[trigger] log@[k]).rollback_of) != Some(id@),
        decreases log@.len() - i,
    {
        if let Some(of) = &log[i].rollback_of {
            if same_text(of.as_str(), id) {
                assert(models::opt_text(log@[i as int].rollback_of) == Some(id@));
                return true;
            }
        }
        i += 1;
    }
    false
}

/// The summary of an operation that recorded none.
pub open spec fn summarized(action: Seq<char>, count: nat) -> Seq<char> {
    if action == "backup"@ {
        "移入备份 "@ + text::decimal(count) + " 个文件"@
    } else if action == "delete"@ {
        "直接删除 "@ + text::decimal(count) + " 个文件"@
    } else if action == "merge-backup"@ {
        "并入并备份 "@ + text::decimal(count) + " 个步骤"@
    } else if action == "merge-delete"@ {
        "并入并删除 "@ + text::decimal(count) + " 个步骤"@
    } else if action == "replace"@ {
        "替换路径"@
    } else {
        "操作 "@ + text::decimal(count) + " 个步骤"@
    }
}

/// The summary of an operation that recorded none.
pub fn summarize_history_entry(action: &str, message_count: usize) -> (r: String)
    ensures
        r@ == summarized(action@, message_count as nat),
{
    let count = decimal_text(message_count as u64);
    if same_text(action, "backup") {
        cat3("移入备份 ", count.as_str(), " 个文件")
    } else if same_text(action, "delete") {
        cat3("直接删除 ", count.as_str(), " 个文件")
    } else if same_text(action, "merge-backup") {
        cat3("并入并备份 ", count.as_str(), " 个步骤")
    } else if same_text(action, "merge-delete") {
        cat3("并入并删除 ", count.as_str(), " 个步骤")
    } else if same_text(action, "replace") {
        "替换路径".to_owned()
    } else {
        cat3("操作 ", count.as_str(), " 个步骤")
    }
}

/// What an entry of the history says.
#[verifier::ext_equal]
pub struct HistoryData {
    pub operation_id: Seq<char>,
    pub action: Seq<char>,
    pub summary: Seq<char>,
    pub created_at_unix_ms: i64,
    pub reversible: bool,
    pub rolled_back: bool,
    pub messages: Seq<Seq<char>>,
}

impl View for OperationHistoryEntry {
    type V = HistoryData;

    open spec fn view(&self) -> HistoryData {
        HistoryData {
            operation_id: self.operation_id@,
            action: self.action@,
            summary: self.summary@,
            created_at_unix_ms: self.created_at_unix_ms,
            reversible: self.reversible,
            rolled_back: self.rolled_back,
            messages: models::texts(self.messages@),
        }
    }
}

/// What an entry of the log did.
pub open spec fn action_of(entry: LogEntry) -> Seq<char> {
    match entry.action {
        Some(action) => action@,
        None => if entry.has_plan {
            "replace"@
        } else {
            "operation"@
        },
    }
}

/// How an entry of the log is listed; rollbacks and entries without a name are not.
pub open spec fn listed_entry(log: Seq<LogEntry>, entry: LogEntry) -> Option<HistoryData> {
    match entry.operation_id {
        Some(id) => if entry.is_rollback {
            None
        } else {
            Some(
                HistoryData {
                    operation_id: id@,
                    action: action_of(entry),
                    summary: match entry.summary {
                        Some(summary) => summary@,
                        None => summarized(action_of(entry), entry.messages@.len()),
                    },
                    created_at_unix_ms: entry.created_at_unix_ms,
                    reversible: entry.reversible && (entry.moves matches Some(n) && n > 0)
                        && !is_rolled_back(log, id@),
                    rolled_back: is_rolled_back(log, id@),
                    messages: models::texts(entry.messages@),
                },
            )
        },
        None => None,
    }
}

/// The number of entries, from the front, that are as new as a time.
pub open spec fn newer_count(list: Seq<HistoryData>, time: i64) -> int
    decreases list.len(),
{
    if list.len() > 0 && list.last().created_at_unix_ms < time {
        newer_count(list.drop_last(), time)
    } else {
        list.len() as int
    }
}

/// The entries of the log, among the first `n`, the newest first; of the same time, in the order
/// of the log.
pub open spec fn history(log: Seq<LogEntry>, n: int) -> Seq<HistoryData>
    decreases n,
{
    if n <= 0 {
        Seq::empty()
    } else {
        let rest = history(log, n - 1);
        match listed_entry(log, log[n - 1]) {
            None => rest,
            Some(item) => rest.insert(newer_count(rest, item.created_at_unix_ms), item),
        }
    }
}

/// What the entries of a history say.
pub open spec fn history_data(list: Seq<OperationHistoryEntry>) -> Seq<HistoryData> {
    list.map_values(|e: OperationHistoryEntry| e@)
}

fn list_entry(log: &Vec<LogEntry>, entry: &LogEntry) -> (r: Option<OperationHistoryEntry>)
    ensures
        (match r {
            Some(item) => Some(item@),
            None => None,
        }) == listed_entry(log@, *entry),
{
    match &entry.operation_id {
        None => None,
        Some(id) => {
            if entry.is_rollback {
                return None;
            }
            let action = match &entry.action {
                Some(action) => action.clone(),
                None => if entry.has_plan {
                    "replace".to_owned()
                } else {
                    "operation".to_owned()
                },
            };
            let summary = match &entry.summary {
                Some(summary) => summary.clone(),
                None => summarize_history_entry(action.as_str(), entry.messages.len()),
            };
            let rolled_back = was_rolled_back(log, id.as_str());
            let has_moves = match entry.moves {
                Some(n) => n > 0,
                None => false,
            };
            Some(
                OperationHistoryEntry {
                    operation_id: id.clone(),
                    action,
                    summary,
                    created_at_unix_ms: entry.created_at_unix_ms,
                    reversible: entry.reversible && has_moves && !rolled_back,
                    rolled_back,
                    messages: copy_texts(&entry.messages),
                },
            )
        },
    }
}

/// The operations of the log, the newest first.
pub fn list_operation_history(log: &Vec<LogEntry>) -> (r: Vec<OperationHistoryEntry>)
    ensures
        history_data(r@) == history(log@, log@.len() as int),
{
    let mut out: Vec<OperationHistoryEntry> = Vec::new();
    let mut i: usize = 0;
    assert(history_data(out@) =~= Seq::empty());
    while i < log.len()
        invariant
            i <= log@.len(),
            history_data(out@) == history(log@, i as int),
        decreases log@.len() - i,
    {
        if let Some(item) = list_entry(log, &log[i]) {
            let ghost before = out@;
            let ghost data = history_data(out@);
            let time: i64 = item.created_at_unix_ms;
            let mut j: usize = out.len();
            assert(data.take(j as int) =~= data);
            while j > 0 && out[j - 1].created_at_unix_ms < time
                invariant
                    j <= out@.len(),
                    data == history_data(out@),
                    newer_count(data.take(j as int), time) == newer_count(data, time),
                decreases j,
            {
                assert(data.take(j as int).drop_last() =~= data.take(j - 1));
                assert(data.take(j as int).last() == out@[j - 1]@);
                j -= 1;
            }
            proof {
                let head = data.take(j as int);
                if j > 0 {
                    assert(head.last() == out@[j - 1]@);
                }
                assert(newer_count(head, time) == j);
            }
            let ghost shown = item@;
            out.insert(j, item);
            assert(history_data(out@) =~= data.insert(j as int, shown));
        }
        i += 1;
    }
    out
}

proof fn lemma_newer_count(list: Seq<HistoryData>, time: i64)
    ensures
        0 <= newer_count(list, time) <= list.len(),
        forall|k: int|
            newer_count(list, time) <= k < list.len() ==> (#[trigger] list[k]).created_at_unix_ms
                < time,
        newer_count(list, time) > 0 ==> list[newer_count(list, time) - 1].created_at_unix_ms
            >= time,
    decreases list.len(),
{
    if list.len() > 0 && list.last().created_at_unix_ms < time {
        let start = list.drop_last();
        lemma_newer_count(start, time);
        assert forall|k: int| newer_count(list, time) <= k < list.len() implies (
        #[trigger] list[k]).created_at_unix_ms < time by {
            if k < start.len() {
                assert(start[k] == list[k]);
            }
        }
    }
}

/// The history lists newer operations before older ones.
pub proof fn law_history_is_newest_first(log: Seq<LogEntry>, n: int)
    requires
        0 <= n <= log.len(),
    ensures
        forall|i: int, j: int|
            #![trigger history(log, n)[i], history(log, n)[j]]
            0 <= i < j < history(log, n).len() ==> history(log, n)[i].created_at_unix_ms
                >= history(log, n)[j].created_at_unix_ms,
    decreases n,
{
    if n > 0 {
        law_history_is_newest_first(log, n - 1);
        let rest = history(log, n - 1);
        if let Some(item) = listed_entry(log, log[n - 1]) {
            let at = newer_count(rest, item.created_at_unix_ms);
            lemma_newer_count(rest, item.created_at_unix_ms);
            let all = rest.insert(at, item);
            assert forall|i: int, j: int|
                #![trigger all[i], all[j]]
                0 <= i < j < all.len() implies all[i].created_at_unix_ms
                >= all[j].created_at_unix_ms by {
                if j == at {
                    assert(all[i] == rest[i]);
                    assert(rest[i].created_at_unix_ms >= rest[at - 1].created_at_unix_ms);
                } else if i == at {
                    assert(all[j] == rest[j - 1]);
                }
            }
        }
    }
}

/// An operation that was rolled back cannot be rolled back again.
pub proof fn law_rolled_back_is_not_reversible(log: Seq<LogEntry>, entry: LogEntry)
    requires
        listed_entry(log, entry) is Some,
        listed_entry(log, entry)->0.rolled_back,
    ensures
        !listed_entry(log, entry)->0.reversible,
{
}

/// The first entry, from `i` on, of an operation, or the number of entries.
pub open spec fn entry_of(log: Seq<LogEntry>, id: Seq<char>, i: int) -> int
    decreases log.len() - i,
{
    if i >= log.len() {
        log.len() as int
    } else if models::opt_text(log[i].operation_id) == Some(id) {
        i
    } else {
        entry_of(log, id, i + 1)
    }
}

/// The entry whose moves are undone, if they can be read, or why an operation cannot be rolled
/// back.
pub open spec fn rollback_target(log: Seq<LogEntry>, id: Seq<char>) -> Result<int, Seq<char>> {
    let at = entry_of(log, id, 0);
    if is_rolled_back(log, id) {
        Err("operation has already been rolled back"@)
    } else if at >= log.len() {
        Err("operation was not found: "@ + id)
    } else if !log[at].reversible {
        Err("operation is not reversible"@)
    } else if !(log[at].moves matches Some(n) && n > 0) && !log[at].moves_unreadable {
        Err("operation does not include rollback records"@)
    } else {
        Ok(at)
    }
}

/// The position of the entry whose moves are undone, if they can be read; fails where an operation
/// cannot be rolled back.
pub fn rollback_operation(log: &Vec<LogEntry>, operation_id: &str) -> (r: Result<usize, String>)
    ensures
        match r {
            Ok(at) => rollback_target(log@, operation_id@) == Ok::<int, Seq<char>>(at as int) && at
                < log@.len(),
            Err(message) => rollback_target(log@, operation_id@) == Err::<int, Seq<char>>(
                message@,
            ),
        },
{
    if was_rolled_back(log, operation_id) {
        return Err("operation has already been rolled back".to_owned());
    }
    let mut i: usize = 0;
    while i < log.len()
        invariant
            i <= log@.len(),
            !is_rolled_back(log@, operation_id@),
            entry_of(log@, operation_id@, 0) == entry_of(log@, operation_id@, i as int),
        decreases log@.len() - i,
    {
        if let Some(id) = &log[i].operation_id {
            if same_text(id.as_str(), operation_id) {
                if !log[i].reversible {
                    return Err("operation is not reversible".to_owned());
                }
                let has_moves = match log[i].moves {
                    Some(n) => n > 0,
                    None => false,
                };
                if !has_moves && !log[i].moves_unreadable {
                    return Err("operation does not include rollback records".to_owned());
                }
                return Ok(i);
            }
        }
        i += 1;
    }
    Err(cat("operation was not found: ", operation_id))
}

/// Whether something stands at a path, as far as that can be told.
pub open spec fn stands(state: FileState) -> bool {
    state is Present || state is Other
}

fn something_stands(state: &FileState) -> (r: bool)
    ensures
        r == stands(*state),
{
    match state {
        FileState::Present => true,
        FileState::Other => true,
        _ => false,
    }
}

/// Why a recorded move cannot be undone: its path may not be worked on, the file is not where it
/// was moved to, or something stands where it came from.
pub open spec fn undo_trouble(
    from: Seq<char>,
    to: Seq<char>,
    from_state: FileState,
    to_state: FileState,
    restricted: bool,
    root: RootData,
) -> Option<Seq<char>> {
    if !settings::path_allowed(from, restricted, root) {
        Some(settings::outside_message())
    } else if !stands(to_state) {
        Some("rollback source file does not exist: "@ + to)
    } else if stands(from_state) {
        Some("rollback destination already exists: "@ + from)
    } else {
        None
    }
}

/// Why recorded moves cannot be undone: that of the last of the first `n` that cannot.
pub open spec fn rollback_trouble(
    records: Seq<FileMoveRecord>,
    from_states: Seq<FileState>,
    to_states: Seq<FileState>,
    restricted: bool,
    root: RootData,
    n: int,
) -> Option<Seq<char>>
    decreases n,
{
    if n <= 0 {
        None
    } else {
        let last = undo_trouble(
            records[n - 1].from@,
            records[n - 1].to@,
            from_states[n - 1],
            to_states[n - 1],
            restricted,
            root,
        );
        if last is Some {
            last
        } else {
            rollback_trouble(records, from_states, to_states, restricted, root, n - 1)
        }
    }
}

/// Fails where recorded moves cannot be undone, before any is.
pub fn check_rollback(
    records: &Vec<FileMoveRecord>,
    from_states: &Vec<FileState>,
    to_states: &Vec<FileState>,
    restricted: bool,
    root: &Root,
) -> (r: Result<(), String>)
    requires
        from_states@.len() == records@.len(),
        to_states@.len() == records@.len(),
    ensures
        files::trouble(r) == rollback_trouble(
            records@,
            from_states@,
            to_states@,
            restricted,
            root@,
            records@.len() as int,
        ),
{
    let mut n: usize = records.len();
    while n > 0
        invariant
            n <= records@.len(),
            from_states@.len() == records@.len(),
            to_states@.len() == records@.len(),
            rollback_trouble(
                records@,
                from_states@,
                to_states@,
                restricted,
                root@,
                records@.len() as int,
            ) == rollback_trouble(
                records@,
                from_states@,
                to_states@,
                restricted,
                root@,
                n as int,
            ),
        decreases n,
    {
        let record = &records[n - 1];
        match settings::validate_operable_path(record.from.as_str(), restricted, root) {
            Ok(_) => {},
            Err(message) => {
                return Err(message);
            },
        }
        if !something_stands(&to_states[n - 1]) {
            return Err(cat("rollback source file does not exist: ", record.to.as_str()));
        }
        if something_stands(&from_states[n - 1]) {
            return Err(cat("rollback destination already exists: ", record.from.as_str()));
        }
        n -= 1;
    }
    Ok(())
}

/// The message that a move was undone.
pub fn restored_text(record: &FileMoveRecord) -> (r: String)
    ensures
        r@ == "restored "@ + record.to@ + " to "@ + record.from@,
{
    cat4("restored ", record.to.as_str(), " to ", record.from.as_str())
}

/// The file system after moves, the last of the first `n` first, were undone.
pub open spec fn undone(disk: merging::Disk, records: Seq<FileMoveRecord>, from: int) -> merging::Disk
    decreases records.len() - from,
{
    if from >= records.len() {
        disk
    } else {
        merging::stepped(
            undone(disk, records, from + 1),
            merging::ActionData::Move { from: records[from].to@, to: records[from].from@ },
        )
    }
}

/// Whether recorded moves can be undone on a file system: each file is where it was moved to,
/// nothing stands where it came from, and no path occurs twice.
pub open spec fn can_undo(disk: merging::Disk, records: Seq<FileMoveRecord>) -> bool {
    &&& forall|k: int|
        #![trigger records[k]]
        0 <= k < records.len() ==> disk.dom().contains(records[k].to@) && !disk.dom().contains(
            records[k].from@,
        )
    &&& forall|i: int, j: int|
        #![trigger records[i], records[j]]
        0 <= i < j < records.len() ==> records[i].to@ != records[j].to@ && records[i].from@
            != records[j].from@
}

proof fn lemma_undone(disk: merging::Disk, records: Seq<FileMoveRecord>, from: int)
    requires
        can_undo(disk, records),
        0 <= from <= records.len(),
    ensures
        forall|k: int|
            #![trigger records[k]]
            from <= k < records.len() ==> undone(disk, records, from).dom().contains(
                records[k].from@,
            ) && undone(disk, records, from)[records[k].from@] == disk[records[k].to@] && !undone(
                disk,
                records,
                from,
            ).dom().contains(records[k].to@),
        forall|k: int|
            #![trigger records[k]]
            0 <= k < from ==> undone(disk, records, from).dom().contains(records[k].to@) && undone(
                disk,
                records,
                from,
            )[records[k].to@] == disk[records[k].to@] && !undone(disk, records, from).dom().contains(
                records[k].from@,
            ),
        forall|path: Seq<char>|
            #![trigger undone(disk, records, from).dom().contains(path)]
            (forall|k: int|
                0 <= k < records.len() ==> (#[trigger] records[k]).from@ != path && records[k].to@
                    != path) ==> undone(disk, records, from).dom().contains(path)
                == disk.dom().contains(path) && undone(disk, records, from)[path] == disk[path],
    decreases records.len() - from,
{
    if from < records.len() {
        lemma_undone(disk, records, from + 1);
        let before = undone(disk, records, from + 1);
        let now = undone(disk, records, from);
        let here = records[from];
        assert(now == before.remove(here.to@).insert(here.from@, before[here.to@]));
        assert forall|k: int|
            #![trigger records[k]]
            from <= k < records.len() implies now.dom().contains(records[k].from@)
            && now[records[k].from@] == disk[records[k].to@] && !now.dom().contains(
            records[k].to@,
        ) by {
            if k > from {
                assert(records[from].to@ != records[k].to@);
                assert(records[from].from@ != records[k].from@);
                assert(records[k].from@ != here.to@);
                assert(records[k].to@ != here.from@);
            }
        }
        assert forall|k: int|
            #![trigger records[k]]
            0 <= k < from implies now.dom().contains(records[k].to@) && now[records[k].to@]
            == disk[records[k].to@] && !now.dom().contains(records[k].from@) by {
            assert(records[k].to@ != records[from].to@);
            assert(records[k].from@ != records[from].from@);
            assert(records[k].to@ != here.from@);
            assert(records[k].from@ != here.to@);
        }
        assert forall|path: Seq<char>|
            #![trigger now.dom().contains(path)]
            (forall|k: int|
                0 <= k < records.len() ==> (#[trigger] records[k]).from@ != path && records[k].to@
                    != path) implies now.dom().contains(path) == disk.dom().contains(path)
            && now[path] == disk[path] by {
            assert(records[from].from@ != path);
            assert(before.dom().contains(path) == disk.dom().contains(path));
        }
    }
}

/// A rollback brings every file back to where it came from, and leaves all others alone.
pub proof fn law_rollback_restores(disk: merging::Disk, records: Seq<FileMoveRecord>)
    requires
        can_undo(disk, records),
    ensures
        forall|k: int|
            #![trigger records[k]]
            0 <= k < records.len() ==> undone(disk, records, 0).dom().contains(records[k].from@)
                && undone(disk, records, 0)[records[k].from@] == disk[records[k].to@] && !undone(
                disk,
                records,
                0,
            ).dom().contains(records[k].to@),
        forall|path: Seq<char>|
            #![trigger undone(disk, records, 0).dom().contains(path)]
            (forall|k: int|
                0 <= k < records.len() ==> (#[trigger] records[k]).from@ != path && records[k].to@
                    != path) ==> undone(disk, records, 0).dom().contains(path)
                == disk.dom().contains(path) && undone(disk, records, 0)[path] == disk[path],
{
    lemma_undone(disk, records, 0);
}

/// Whether `after` is `before` with a video linked to those of the first `n` scans that exist.
pub open spec fn linked_again(
    before: VideoIndex,
    after: VideoIndex,
    session_ids: Seq<i64>,
    id: i64,
    n: int,
) -> bool {
    &&& after.videos@ == before.videos@
    &&& after.next_video_id == before.next_video_id
    &&& index::same_sessions(before, after)
    &&& index::same_models(before, after)
    &&& index::same_ai_rows(before, after)
    &&& forall|l: index::SessionLink| #[trigger]
        after.links@.contains(l) <==> before.links@.contains(l) || (l.video_id == id && (exists|
            k: int,
        |
            0 <= k < n && #[trigger] session_ids[k] == l.session_id) && index::has_session_id(
            before.sessions@,
            l.session_id,
        ))
}

/// Whether `after` is `before` with the videos of the first `n` records put back.
pub open spec fn put_back(
    before: VideoIndex,
    after: VideoIndex,
    records: Seq<FileMoveRecord>,
    n: int,
) -> bool
    decreases n,
{
    if n <= 0 {
        after == before
    } else {
        exists|mid: VideoIndex, put: VideoIndex, id: i64|
            #![trigger database::upserted(mid, put, records[n - 1].video@, id)]
            put_back(before, mid, records, n - 1) && database::upserted(
                mid,
                put,
                records[n - 1].video@,
                id,
            ) && linked_again(
                put,
                after,
                records[n - 1].session_ids@,
                id,
                records[n - 1].session_ids@.len() as int,
            )
    }
}

impl VideoIndex {
    fn link_again(&mut self, session_ids: &Vec<i64>, id: i64)
        requires
            old(self).wf(),
            index::has_video_id(old(self).videos@, id),
        ensures
            final(self).wf(),
            linked_again(
                *old(self),
                *final(self),
                session_ids@,
                id,
                session_ids@.len() as int,
            ),
    {
        let ghost start = *self;
        let mut k: usize = 0;
        while k < session_ids.len()
            invariant
                k <= session_ids@.len(),
                self.wf(),
                index::has_video_id(start.videos@, id),
                linked_again(start, *self, session_ids@, id, k as int),
            decreases session_ids@.len() - k,
        {
            let session: i64 = session_ids[k];
            let ghost mid = *self;
            if self.session_exists(session) {
                let _linked = self.link_video_to_scan_session(session, id);
            }
            proof {
                let new = index::SessionLink { session_id: session, video_id: id };
                assert forall|l: index::SessionLink| #[trigger]
                    self.links@.contains(l) <==> start.links@.contains(l) || (l.video_id == id && (
                    exists|j: int| 0 <= j < k + 1 && #[trigger] session_ids@[j] == l.session_id)
                        && index::has_session_id(start.sessions@, l.session_id)) by {
                    if self.links@.contains(l) {
                        let n = choose|n: int| 0 <= n < self.links@.len() && self.links@[n] == l;
                        if n < mid.links@.len() {
                            assert(mid.links@[n] == l);
                            assert(mid.links@.contains(l));
                        } else {
                            assert(l == new);
                            assert(session_ids@[k as int] == l.session_id);
                        }
                    }
                    if mid.links@.contains(l) {
                        let n = choose|n: int| 0 <= n < mid.links@.len() && mid.links@[n] == l;
                        assert(self.links@[n] == l);
                    }
                    if l == new && index::has_session_id(start.sessions@, session) {
                        if !mid.links@.contains(new) {
                            assert(self.links@[mid.links@.len() as int] == new);
                        }
                    }
                    if l.video_id == id && (exists|j: int|
                        0 <= j < k + 1 && #[trigger] session_ids@[j] == l.session_id) {
                        let j = choose|j: int|
                            0 <= j < k + 1 && #[trigger] session_ids@[j] == l.session_id;
                        if j == k {
                            assert(l == new);
                        } else {
                            assert(0 <= j < k);
                        }
                    }
                }
            }
            k += 1;
        }
    }

    /// Puts the videos of recorded moves back into the index, as they were recorded, with the
    /// scans that saw them as far as these exist.
    pub fn restore_records(&mut self, records: &Vec<FileMoveRecord>)
        requires
            old(self).wf(),
            old(self).next_video_id + records@.len() <= i64::MAX,
        ensures
            final(self).wf(),
            put_back(*old(self), *final(self), records@, records@.len() as int),
    {
        let ghost start = *self;
        let mut i: usize = 0;
        while i < records.len()
            invariant
                i <= records@.len(),
                self.wf(),
                start == *old(self),
                start.next_video_id + records@.len() <= i64::MAX,
                self.next_video_id <= start.next_video_id + i,
                put_back(start, *self, records@, i as int),
            decreases records@.len() - i,
        {
            let ghost mid = *self;
            let id: i64 = self.upsert_video(&records[i].video);
            let ghost put = *self;
            self.link_again(&records[i].session_ids, id);
            assert(put_back(start, mid, records@, i as int) && database::upserted(
                mid,
                put,
                records@[i as int].video@,
                id,
            ));
            i += 1;
        }
    }
}

/// What stands in the data directory: the name and the path of each part.
pub open spec fn storage_parts(root: RootData) -> Seq<(Seq<char>, Seq<char>)> {
    seq![
        ("aiFrameCache"@, paths::in_data(root, "ai-frame-cache"@)),
        ("thumbnails"@, paths::in_data(root, "thumbnails"@)),
        ("backups"@, paths::in_data(root, "backups"@)),
        ("operations"@, paths::in_data(root, "operations"@)),
        ("reports"@, paths::in_data(root, "reports"@)),
        ("tools"@, paths::in_data(root, "tools"@)),
        ("database"@, paths::in_data(root, "index.sqlite"@)),
        ("databaseWal"@, paths::in_data(root, "index.sqlite-wal"@)),
        ("databaseShm"@, paths::in_data(root, "index.sqlite-shm"@)),
    ]
}

/// Pairs of texts.
pub open spec fn pairs(list: Seq<(String, String)>) -> Seq<(Seq<char>, Seq<char>)> {
    list.map_values(|p: (String, String)| (p.0@, p.1@))
}

/// What stands in the data directory: the name and the path of each part.
pub fn list_storage_parts(root: &Root) -> (r: Vec<(String, String)>)
    ensures
        pairs(r@) == storage_parts(root@),
{
    let mut out: Vec<(String, String)> = Vec::new();
    out.push(("aiFrameCache".to_owned(), data_path(root, "ai-frame-cache")));
    out.push(("thumbnails".to_owned(), data_path(root, "thumbnails")));
    out.push(("backups".to_owned(), data_path(root, "backups")));
    out.push(("operations".to_owned(), data_path(root, "operations")));
    out.push(("reports".to_owned(), data_path(root, "reports")));
    out.push(("tools".to_owned(), data_path(root, "tools")));
    out.push(("database".to_owned(), data_path(root, "index.sqlite")));
    out.push(("databaseWal".to_owned(), data_path(root, "index.sqlite-wal")));
    out.push(("databaseShm".to_owned(), data_path(root, "index.sqlite-shm")));
    assert(pairs(out@) =~= storage_parts(root@));
    out
}

/// The space that a part takes: bytes and files.
#[derive(Debug, Clone, Copy, PartialEq, Eq, Structural)]
pub struct SpaceTaken {
    pub bytes: u64,
    pub files: usize,
}

/// The bytes of the first `n` parts together, or the largest number.
pub open spec fn total_bytes(taken: Seq<SpaceTaken>, n: int) -> int
    decreases n,
{
    if n <= 0 {
        0
    } else {
        let sum = total_bytes(taken, n - 1) + taken[n - 1].bytes;
        if sum > u64::MAX {
            u64::MAX as int
        } else {
            sum
        }
    }
}

impl VideoIndex {
    /// The space that the data directory takes, part by part, and the number of rows of each
    /// table. `taken` tells the space of each part, in their order.
    pub fn storage_usage(&self, root: &Root, taken: &Vec<SpaceTaken>) -> (r: StorageUsageSummary)
        requires
            taken@.len() == storage_parts(root@).len(),
        ensures
            r.data_dir@ == paths::data_folder(root@),
            r.total_bytes == total_bytes(taken@, taken@.len() as int),
            r.items@.len() == taken@.len(),
            forall|k: int|
                #![trigger r.items@[k]]
                0 <= k < r.items@.len() ==> r.items@[k].key@ == storage_parts(root@)[k].0
                    && r.items@[k].path@ == storage_parts(root@)[k].1 && r.items@[k].bytes
                    == taken@[k].bytes && r.items@[k].file_count == taken@[k].files,
            r.database_stats.videos == self.videos@.len(),
            r.database_stats.scan_sessions == self.sessions@.len(),
            r.database_stats.frame_embeddings == self.frame_embeddings@.len(),
            r.database_stats.ai_pair_scores == self.pair_scores@.len(),
            r.database_stats.ai_match_edges == self.match_edges@.len(),
            r.database_stats.embedding_models == self.models@.len(),
    {
        let parts = list_storage_parts(root);
        assert(pairs(parts@).len() == parts@.len());
        let mut items: Vec<StorageUsageItem> = Vec::new();
        let mut total: u64 = 0;
        let mut i: usize = 0;
        while i < parts.len()
            invariant
                i <= parts@.len(),
                pairs(parts@) == storage_parts(root@),
                taken@.len() == parts@.len(),
                items@.len() == i,
                total == total_bytes(taken@, i as int),
                forall|k: int|
                    #![trigger items@[k]]
                    0 <= k < i ==> items@[k].key@ == storage_parts(root@)[k].0 && items@[k].path@
                        == storage_parts(root@)[k].1 && items@[k].bytes == taken@[k].bytes
                        && items@[k].file_count == taken@[k].files,
            decreases parts@.len() - i,
        {
            assert(pairs(parts@)[i as int] == (parts@[i as int].0@, parts@[i as int].1@));
            items.push(
                StorageUsageItem {
                    key: parts[i].0.clone(),
                    path: parts[i].1.clone(),
                    bytes: taken[i].bytes,
                    file_count: taken[i].files,
                },
            );
            total = total.saturating_add(taken[i].bytes);
            i += 1;
        }
        StorageUsageSummary {
            data_dir: data_dir(root),
            total_bytes: total,
            items,
            database_stats: self.storage_database_stats(),
        }
    }

    /// Removes the videos that no scan has seen, and the findings that refer to nothing or were
    /// made under other options. `frames` and `thumbnails` tell what was removed of the caches.
    pub fn cleanup_storage(
        &mut self,
        active_cache_key: &str,
        frames: SpaceTaken,
        thumbnails: SpaceTaken,
    ) -> (r: StorageCleanupSummary)
        requires
            old(self).wf(),
        ensures
            r.deleted_ai_frame_cache_files == frames.files,
            r.deleted_ai_frame_cache_bytes == frames.bytes,
            r.deleted_thumbnail_files == thumbnails.files,
            r.deleted_thumbnail_bytes == thumbnails.bytes,
            exists|mid: VideoIndex, orphan: DeletedVideoRows, stale: DeletedVideoRows|
                #![trigger index::rows_lost(*old(self), mid, orphan),
                    index::rows_lost(mid, *final(self), stale)]
                {
                    &&& index::videos_dropped(
                        *old(self),
                        mid,
                        upkeep::orphans(
                            old(self).videos@,
                            old(self).links@,
                            old(self).videos@.len() as int,
                        ),
                    )
                    &&& index::rows_lost(*old(self), mid, orphan)
                    &&& upkeep::stale_dropped(mid, *final(self), Some(active_cache_key@))
                    &&& index::rows_lost(mid, *final(self), stale)
                    &&& r.removed_orphan_videos == orphan.videos
                    &&& r.deleted_pair_scores == index::capped_sum(
                        orphan.pair_scores,
                        stale.pair_scores,
                    )
                    &&& r.deleted_match_edges == index::capped_sum(
                        orphan.match_edges,
                        stale.match_edges,
                    )
                    &&& r.deleted_frame_embeddings == index::capped_sum(
                        orphan.frame_embeddings,
                        stale.frame_embeddings,
                    )
                },
    {
        let ghost start = *self;
        let orphan = self.delete_orphan_videos();
        let ghost mid = *self;
        let key = Some(active_cache_key.to_owned());
        let stale = self.cleanup_stale_ai_rows_with_active_cache(&key);
        assert(index::rows_lost(start, mid, orphan));
        assert(index::rows_lost(mid, *self, stale));
        StorageCleanupSummary {
            deleted_ai_frame_cache_files: frames.files,
            deleted_ai_frame_cache_bytes: frames.bytes,
            deleted_thumbnail_files: thumbnails.files,
            deleted_thumbnail_bytes: thumbnails.bytes,
            removed_orphan_videos: orphan.videos,
            deleted_pair_scores: sum(orphan.pair_scores, stale.pair_scores),
            deleted_match_edges: sum(orphan.match_edges, stale.match_edges),
            deleted_frame_embeddings: sum(orphan.frame_embeddings, stale.frame_embeddings),
        }
    }

    /// The positions of the videos whose frames are all embedded by the newest model that is
    /// kept at a path: their cached frames are no longer needed. `expected` tells of every video
    /// how many frames it should have. Without such a model there are none.
    pub fn completed_videos(&self, model_path: &str, expected: &Vec<usize>) -> (r: Vec<usize>)
        requires
            expected@.len() == self.videos@.len(),
        ensures
            exists|model: Option<Seq<char>>| #[trigger]
                is_newest_model(*self, model_path@, model) && r@ == completed(
                    *self,
                    model,
                    expected@,
                    self.videos@.len() as int,
                ),
    {
        match self.latest_embedding_model_id_for_path(model_path) {
            None => {
                proof {
                    lemma_nothing_completed(*self, expected@, self.videos@.len() as int);
                    assert(is_newest_model(*self, model_path@, None));
                }
                Vec::new()
            },
            Some(model) => {
                let mut out: Vec<usize> = Vec::new();
                let mut i: usize = 0;
                while i < self.videos.len()
                    invariant
                        i <= self.videos@.len(),
                        expected@.len() == self.videos@.len(),
                        out@ == completed(*self, Some(model@), expected@, i as int),
                    decreases self.videos@.len() - i,
                {
                    if same_text(self.videos[i].scan_status.as_str(), "ok") {
                        if let Some(id) = self.videos[i].id {
                            if self.count_frame_embeddings(id, model.as_str()) >= expected[i] {
                                out.push(i);
                            }
                        }
                    }
                    i += 1;
                }
                assert(is_newest_model(*self, model_path@, Some(model@)));
                out
            },
        }
    }
}

/// Whether a model is the newest one that is kept at a path, or there is none.
pub open spec fn is_newest_model(
    index: VideoIndex,
    path: Seq<char>,
    model: Option<Seq<char>>,
) -> bool {
    match model {
        Some(id) => exists|i: int| #[trigger]
            upkeep::is_latest(index.models@, path, i) && index.models@[i].model_id@ == id,
        None => forall|k: int|
            0 <= k < index.models@.len() ==> (#[trigger] index.models@[k]).model_path@ != path,
    }
}

/// The positions of the first `n` videos that were scanned well and have at least as many
/// embeddings under a model as expected.
pub open spec fn completed(
    index: VideoIndex,
    model: Option<Seq<char>>,
    expected: Seq<usize>,
    n: int,
) -> Seq<usize>
    decreases n,
{
    if n <= 0 {
        Seq::empty()
    } else {
        let rest = completed(index, model, expected, n - 1);
        let video = index.videos@[n - 1];
        if model is Some && video.scan_status@ == "ok"@ && video.id is Some
            && crate::findings::frame_count(
            index.frame_embeddings@,
            video.id->0,
            model->0,
            index.frame_embeddings@.len() as int,
        ) >= expected[n - 1] {
            rest.push((n - 1) as usize)
        } else {
            rest
        }
    }
}

proof fn lemma_nothing_completed(index: VideoIndex, expected: Seq<usize>, n: int)
    ensures
        completed(index, None, expected, n) == Seq::<usize>::empty(),
    decreases n,
{
    if n > 0 {
        lemma_nothing_completed(index, expected, n - 1);
    }
}

/// The files of the first `n` removals together, or the largest number.
pub open spec fn total_files(taken: Seq<SpaceTaken>, n: int) -> int
    decreases n,
{
    if n <= 0 {
        0
    } else {
        let sum = total_files(taken, n - 1) + taken[n - 1].files;
        if sum > usize::MAX {
            usize::MAX as int
        } else {
            sum
        }
    }
}

/// Sums up a removal of cached frames: `removed` tells what was removed of each video whose frames
/// are all embedded.
pub fn cleanup_completed_ai_frame_cache(checked_videos: usize, removed: &Vec<SpaceTaken>) -> (r:
    CompletedAiFrameCacheCleanupSummary)
    ensures
        r.checked_videos == checked_videos,
        r.eligible_videos == removed@.len(),
        r.deleted_files == total_files(removed@, removed@.len() as int),
        r.deleted_bytes == total_bytes(removed@, removed@.len() as int),
{
    let mut files: usize = 0;
    let mut bytes: u64 = 0;
    let mut i: usize = 0;
    while i < removed.len()
        invariant
            i <= removed@.len(),
            files == total_files(removed@, i as int),
            bytes == total_bytes(removed@, i as int),
        decreases removed@.len() - i,
    {
        files = files.saturating_add(removed[i].files);
        bytes = bytes.saturating_add(removed[i].bytes);
        i += 1;
    }
    CompletedAiFrameCacheCleanupSummary {
        checked_videos,
        eligible_videos: removed.len(),
        deleted_files: files,
        deleted_bytes: bytes,
    }
}

/// What compacting the database gained.
pub fn vacuum_database(before_bytes: u64, after_bytes: u64) -> (r: VacuumSummary)
    ensures
        r.before_bytes == before_bytes,
        r.after_bytes == after_bytes,
        r.reclaimed_bytes == (if after_bytes <= before_bytes {
            before_bytes - after_bytes
        } else {
            0
        }),
{
    VacuumSummary {
        before_bytes,
        after_bytes,
        reclaimed_bytes: if after_bytes <= before_bytes {
            before_bytes - after_bytes
        } else {
            0
        },
    }
}

} // verus!
