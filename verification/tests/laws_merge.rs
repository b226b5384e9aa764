use duplicate_video_search::batch::{
    check_plan, conclude_group, execute_batch_merge_selection, group_failure_text, BatchTotals,
};
use duplicate_video_search::double::Double;
use duplicate_video_search::files::{
    ensure_destination_available, ensure_existing_file, ensure_merge_destination_available,
    ensure_unique_destinations, existing_file_status, next_backup_candidate, path_is_among,
    path_key_for_path, settle_backup_candidate, BackupChoice, FileParts, FileState,
};
use duplicate_video_search::history::{log_entry, Logged};
use duplicate_video_search::index::{DeletedVideoRows, VideoIndex};
use duplicate_video_search::log_lines::{
    entry_lines, entry_of_fields, read_operation_log, written_fields, LineField, LineFields,
};
use duplicate_video_search::merging::{
    check_conflict, check_merge_request, check_step, conclude_merge, execute_merge_selection,
    find_conflict, find_video, list_extra_ids, merge_mode, merge_steps, moves_keeper,
    probe_of_step, recorded_group_moves, recorded_moves, show_id, survey_merge, undo_after,
    FileAction, FileMoveRecord, MergeDraft, MergeRequest, MergeStep, MergeSurvey, StepOutcome,
    StepRole,
};
use duplicate_video_search::models::{
    BatchMergeTask, MatchGroup, MatchItem, ReplacementPlan, VideoRecord,
};
use duplicate_video_search::naming::{
    confidence_range, file_name_chinese_prefix_rank, list_groups, merge_disposal,
    naming_folder_priority, naming_source_for_group, path_inside_dir, plan_all_groups,
    plan_group_task, rename_suffix_base, score_readable_file_name, split_file_name,
    task_confirmation, task_request, task_title, videos_share_scan_source, MergeAllRun, MergeTask,
    TaskRequest,
};
use duplicate_video_search::operations::{
    check_replacement, check_rollback, create_replacement_plan, execute_file_action,
    execute_file_action_with_options, execute_replacement, list_operation_history, open_video,
    operation_log_path, pick_folder, pick_folders, restored_text, rollback_operation,
    select_video, selected_text, BackupRun, FileActionKind, LogEntry,
};
use duplicate_video_search::paths::{Host, Root};

fn work() -> Root {
    Root { path: r"D:\Work".to_string(), host: Host::Windows }
}

fn double(value: f64) -> Double {
    Double::of(value.to_bits())
}

fn video(id: i64, path: &str, size_bytes: u64) -> VideoRecord {
    VideoRecord {
        id: Some(id),
        path: path.to_string(),
        file_name: path.rsplit('\\').next().unwrap_or(path).to_string(),
        parent_path: path.rsplit_once('\\').map(|(parent, _)| parent).unwrap_or("").to_string(),
        size_bytes,
        modified_unix_ms: 1,
        extension: "mp4".to_string(),
        container_format: None,
        duration_seconds: Some(double(10.0)),
        width: None,
        height: None,
        bitrate: None,
        codec: None,
        frame_rate: None,
        audio_codec: None,
        partial_hash: None,
        sample_hashes: vec![],
        preview_images: vec![],
        scan_status: "ok".to_string(),
        error: None,
        quality_score: double(id as f64),
        scanned_at_unix_ms: 1,
    }
}

fn parts(path: &str) -> FileParts {
    let name = path.rsplit('\\').next().unwrap_or(path);
    FileParts {
        parent: path.rsplit_once('\\').map(|(parent, _)| parent.to_string()),
        file_name: Some(name.to_string()),
        stem: Some(name.rsplit_once('.').map(|(stem, _)| stem).unwrap_or(name).to_string()),
        extension: name.rsplit_once('.').map(|(_, extension)| extension.to_string()),
    }
}

fn three() -> (Vec<VideoRecord>, Vec<FileParts>) {
    let videos = vec![
        video(1, r"C:\v\keep.mp4", 30),
        video(2, r"C:\v\source.mp4", 20),
        video(3, r"C:\v\extra.mp4", 10),
    ];
    let parts = videos.iter().map(|video| parts(&video.path)).collect();
    (videos, parts)
}

fn request() -> MergeRequest {
    MergeRequest {
        high_quality_id: 1,
        naming_source_id: 2,
        extra_video_ids: vec![3, 1, 3],
        filename_source_id: None,
    }
}

fn draft_of(videos: &Vec<VideoRecord>, parts: &Vec<FileParts>) -> MergeDraft {
    execute_merge_selection(
        videos,
        parts,
        &request(),
        "backup",
        "MERGE_BACKUP",
        false,
        false,
        &work(),
    )
    .unwrap()
    .1
}

fn perform(disk: &mut Vec<(String, String)>, action: &FileAction) {
    match action {
        FileAction::Move { from, to } => {
            assert!(disk.iter().all(|file| file.0 != *to));
            let file = disk.iter_mut().find(|file| file.0 == *from).unwrap();
            file.0 = to.clone();
        }
        FileAction::Delete { path } => disk.retain(|file| file.0 != *path),
    }
}

fn disk_of(videos: &Vec<VideoRecord>) -> Vec<(String, String)> {
    videos.iter().map(|video| (video.path.clone(), video.path.clone())).collect()
}

fn holds(disk: &Vec<(String, String)>, path: &str, what: &str) -> bool {
    disk.iter().any(|file| file.0 == path && file.1 == what)
}

#[test]
fn deleting_needs_leave() {
    assert_eq!(merge_mode("backup", "MERGE_BACKUP", false), Ok(true));
    assert_eq!(merge_mode("delete", "MERGE_DELETE", true), Ok(false));
    assert!(merge_mode("delete", "MERGE_DELETE", false).is_err());
    assert!(merge_mode("delete", "MERGE_BACKUP", true).is_err());
    assert!(merge_mode("backup", "", true).is_err());
    assert!(merge_mode("shred", "MERGE_DELETE", true).is_err());
}

#[test]
fn merge_with_backups_keeps_all() {
    let (videos, parts) = three();
    let draft = draft_of(&videos, &parts);
    assert_eq!((draft.keeper, draft.source, draft.extras.clone()), (0, 1, vec![2]));
    assert_eq!(draft.final_path, r"C:\v\source.mp4");
    let away = Some(r"B:\source.mp4".to_string());
    let backups = Some(vec![r"B:\extra.mp4".to_string()]);
    let steps = merge_steps(&videos, &draft, &vec![2], &away, &backups);
    assert!(steps.iter().all(|step| matches!(step.action, FileAction::Move { .. })));
    let recorded = recorded_moves(&videos, &draft, &vec![2], &away, backups.as_ref().unwrap());
    let recorded = recorded
        .iter()
        .map(|own| (own.place, own.from.as_str(), own.to.as_str()))
        .collect::<Vec<_>>();
    assert_eq!(
        recorded,
        vec![
            (1, r"C:\v\source.mp4", r"B:\source.mp4"),
            (0, r"C:\v\keep.mp4", r"C:\v\source.mp4"),
            (2, r"C:\v\extra.mp4", r"B:\extra.mp4"),
        ]
    );
    assert!(probe_of_step(&steps[0]).is_none());
    let probed = probe_of_step(&steps[2]).unwrap();
    assert_eq!(probed, r"C:\v\extra.mp4");
    assert!(check_step(&steps[2], &probed, &FileState::Present).is_none());
    let missing = check_step(&steps[2], &probed, &FileState::Missing);
    assert!(matches!(missing, Some(StepOutcome::Missing)));
    let refused = check_step(&steps[2], &probed, &FileState::Other);
    assert!(matches!(refused, Some(StepOutcome::Refused(_))));
    let mut disk = disk_of(&videos);
    for step in &steps {
        perform(&mut disk, &step.action);
    }
    assert_eq!(disk.len(), 3);
    assert!(holds(&disk, r"C:\v\source.mp4", r"C:\v\keep.mp4"));
    assert!(holds(&disk, r"B:\source.mp4", r"C:\v\source.mp4"));
    assert!(holds(&disk, r"B:\extra.mp4", r"C:\v\extra.mp4"));
    let done = vec![true; steps.len()];
    let end = conclude_merge(&videos, &draft, &vec![2], &vec![], &away, &steps, &done);
    assert_eq!(end.removed_ids, vec![2, 3]);
    assert!(!end.messages.is_empty());
}

#[test]
fn slashes_move_no_file() {
    let (mut videos, _) = three();
    videos[0].path = "C:/v/keep.mp4".to_string();
    let draft = |final_path: &str, host: Host| MergeDraft {
        host,
        keeper: 0,
        source: 0,
        extras: vec![2],
        final_path: final_path.to_string(),
    };
    let backups = vec![r"B:\extra.mp4".to_string()];
    let stays = draft(r"C:\v\keep.mp4", Host::Windows);
    assert!(!moves_keeper(&videos, &stays));
    let steps = merge_steps(&videos, &stays, &vec![2], &None, &Some(backups.clone()));
    assert!(steps.iter().all(|step| step.role != StepRole::KeeperIn));
    assert_eq!(recorded_group_moves(&videos, &stays, &vec![2], &None, &backups).len(), 1);
    let recorded = recorded_moves(&videos, &stays, &vec![2], &None, &backups);
    assert_eq!(recorded.len(), 2);
    assert_eq!((recorded[0].place, recorded[0].from.as_str()), (0, "C:/v/keep.mp4"));
    assert_eq!(recorded[0].to, r"C:\v\keep.mp4");
    let renamed = draft(r"C:\v\kept.mp4", Host::Windows);
    assert!(moves_keeper(&videos, &renamed));
    assert_eq!(recorded_group_moves(&videos, &renamed, &vec![2], &None, &backups).len(), 2);
    assert!(moves_keeper(&videos, &draft(r"C:\v\keep.mp4", Host::Other)));
}

#[test]
fn merge_without_backups_deletes() {
    let (videos, parts) = three();
    let draft = draft_of(&videos, &parts);
    let steps = merge_steps(&videos, &draft, &vec![2], &None, &None);
    let mut disk = disk_of(&videos);
    for step in &steps {
        perform(&mut disk, &step.action);
    }
    assert_eq!(disk.len(), 1);
    assert!(holds(&disk, r"C:\v\source.mp4", r"C:\v\keep.mp4"));
}

#[test]
fn undoing_restores() {
    let (videos, parts) = three();
    let draft = draft_of(&videos, &parts);
    let away = Some(r"B:\source.mp4".to_string());
    let steps = merge_steps(&videos, &draft, &vec![], &away, &Some(vec![]));
    assert_eq!(steps[0].role, StepRole::SourceAway);
    assert_eq!(steps[1].role, StepRole::KeeperIn);
    let mut disk = disk_of(&videos);
    perform(&mut disk, &steps[0].action);
    let undo = undo_after(&steps[1], &steps[0]).unwrap();
    perform(&mut disk, &undo);
    assert_eq!(disk, disk_of(&videos));
    assert!(undo_after(&steps[0], &steps[0]).is_none());
}

#[test]
fn merges_are_refused() {
    let (videos, parts) = three();
    let ask = |request: &MergeRequest, restricted: bool| {
        execute_merge_selection(
            &videos,
            &parts,
            request,
            "backup",
            "MERGE_BACKUP",
            false,
            restricted,
            &work(),
        )
    };
    let mut unknown = request();
    unknown.high_quality_id = 9;
    assert!(ask(&unknown, false).is_err());
    assert!(ask(&request(), true).is_err());
    let mut nothing = request();
    nothing.naming_source_id = 1;
    nothing.extra_video_ids = vec![];
    assert!(ask(&nothing, false).is_err());
    assert!(check_merge_request(&nothing).is_err());
    assert!(check_merge_request(&request()).is_ok());
    assert_eq!(find_video(&videos, 3), Ok(2));
    assert!(find_video(&videos, 9).unwrap_err().contains('9'));
    assert_eq!(list_extra_ids(&vec![3, 1, 3, 4, 2], 1, 2), vec![3, 4]);
    assert_ne!(show_id(Some(4)), show_id(None));
}

#[test]
fn merges_look_at_files_first() {
    let (videos, parts) = three();
    let draft = draft_of(&videos, &parts);
    let there = FileState::Present;
    let lost = FileState::Missing;
    let ready = survey_merge(&videos, &draft, &there, &there, &vec![lost.clone()]).unwrap();
    assert!(matches!(ready, MergeSurvey::Ready(present, missing)
        if present.is_empty() && missing == vec![2]));
    let stale = survey_merge(&videos, &draft, &lost, &there, &vec![there.clone()]).unwrap();
    assert!(matches!(stale, MergeSurvey::Stale(messages) if messages.len() == 1));
    let unclear = FileState::Unreadable("denied".to_string());
    assert!(survey_merge(&videos, &draft, &unclear, &there, &vec![there.clone()]).is_err());
    assert_eq!(find_conflict(&videos, &draft), None);
    let mut more = videos.clone();
    more.push(video(4, r"C:\v\SOURCE.mp4", 1));
    let conflict = find_conflict(&more, &draft);
    assert_eq!(conflict, Some(3));
    assert!(check_conflict(&more[3], &there).is_err());
    assert!(check_conflict(&more[3], &lost).is_ok());
}

#[test]
fn files_are_looked_at() {
    let unclear = FileState::Unreadable("denied".to_string());
    assert_eq!(existing_file_status("p", &FileState::Present), Ok(true));
    assert_eq!(existing_file_status("p", &FileState::Missing), Ok(false));
    assert!(existing_file_status("p", &unclear).is_err());
    assert!(ensure_existing_file("p", "video", &FileState::Missing).is_err());
    assert!(ensure_existing_file("p", "video", &FileState::Present).is_ok());
    assert!(ensure_destination_available("p", &FileState::Missing).is_ok());
    assert!(ensure_destination_available("p", &FileState::Other).is_err());
    let own = vec![r"C:\V\A.mp4".to_string()];
    assert!(path_is_among("c:/v/a.mp4", &own));
    assert_eq!(path_key_for_path("c:/v/a.mp4"), path_key_for_path(r"C:\V\A.mp4"));
    assert!(ensure_merge_destination_available("c:/v/a.mp4", &own, &FileState::Present).is_ok());
    assert!(ensure_merge_destination_available("c:/v/b.mp4", &own, &FileState::Present).is_err());
}

#[test]
fn promised_backups_are_unique() {
    let mut reserved = vec![];
    let source = parts(r"C:\v\a.mp4");
    let first = next_backup_candidate(Host::Windows, "B:", r"C:\v\a.mp4", &source, 0, &reserved).unwrap();
    let taken = settle_backup_candidate(&first, &FileState::Missing, &mut reserved);
    assert_eq!(taken, Ok(BackupChoice::Take));
    let second = next_backup_candidate(Host::Windows, "B:", r"C:\w\A.mp4", &parts(r"C:\w\A.mp4"), 0, &reserved);
    let second = second.unwrap();
    assert_ne!(first.path.to_lowercase(), second.path.to_lowercase());
    let busy = settle_backup_candidate(&second, &FileState::Present, &mut reserved);
    assert_eq!(busy, Ok(BackupChoice::TryNext));
    assert_eq!(reserved.len(), 1);
    let unclear = FileState::Unreadable("denied".to_string());
    assert!(settle_backup_candidate(&second, &unclear, &mut reserved).is_err());
    assert!(ensure_unique_destinations(&vec![first.path.clone(), second.path]).is_ok());
    assert!(ensure_unique_destinations(&vec!["a".to_string(), "A".to_string()]).is_err());
    let nameless = FileParts { parent: None, file_name: None, stem: None, extension: None };
    assert!(next_backup_candidate(Host::Windows, "B:", "..", &nameless, 0, &reserved).is_err());
    assert!(next_backup_candidate(Host::Windows, "B:", "a", &source, 10_000, &reserved).is_err());
}

fn task(keeper_id: i64, naming_source_id: i64, extra_video_ids: Vec<i64>) -> BatchMergeTask {
    BatchMergeTask { keeper_id, naming_source_id, filename_source_id: None, extra_video_ids }
}

#[test]
fn groups_of_a_batch_are_disjoint() {
    let (mut videos, mut files) = three();
    videos.push(video(4, r"C:\v\more.mp4", 5));
    files.push(parts(r"C:\v\more.mp4"));
    let tasks = vec![task(1, 2, vec![3]), task(4, 2, vec![]), task(4, 4, vec![])];
    let (backup, mut planner) =
        execute_batch_merge_selection(&tasks, "backup", "MERGE_BACKUP", false).unwrap();
    assert!(backup);
    let draft = planner.draft_task(&videos, &files, 0, &tasks[0], false, &work());
    let draft = draft.unwrap().unwrap();
    let taken = FileState::Present;
    planner.settle_task(&videos, 0, draft, &taken, &FileState::Missing).unwrap();
    let late = planner.draft_task(&videos, &files, 1, &tasks[1], false, &work());
    assert!(matches!(late, Ok(None)));
    let idle = planner.draft_task(&videos, &files, 2, &tasks[2], false, &work());
    assert!(matches!(idle, Ok(None)));
    assert_eq!((planner.plans.len(), planner.skipped, planner.messages.len()), (1, 2, 2));
    let plan = &planner.plans[0];
    let present = FileState::Present;
    let fine = check_plan(&videos, 0, &plan.draft, &present, &present, &present);
    assert_eq!(fine, Ok(None));
    let gone = check_plan(&videos, 0, &plan.draft, &FileState::Missing, &present, &present);
    assert!(matches!(gone, Ok(Some(_))));
    assert!(execute_batch_merge_selection(&vec![], "backup", "MERGE_BACKUP", false).is_err());
    assert!(execute_batch_merge_selection(&tasks, "backup", "no", false).is_err());
}

#[test]
fn batches_are_summed_up() {
    let (videos, parts) = three();
    let draft = draft_of(&videos, &parts);
    let away = Some(r"B:\source.mp4".to_string());
    let backups = Some(vec![r"B:\extra.mp4".to_string()]);
    let steps = merge_steps(&videos, &draft, &vec![2], &away, &backups);
    let mut outcomes = vec![StepOutcome::Done; steps.len()];
    let fine = conclude_group(&videos, &draft, &vec![2], &vec![], &steps, &outcomes);
    assert_eq!((fine.removed_ids.clone(), fine.failures, fine.migrated), (vec![2, 3], 0, true));
    outcomes[2] = StepOutcome::Failed("busy".to_string());
    let partly = conclude_group(&videos, &draft, &vec![2], &vec![], &steps, &outcomes);
    assert_eq!(partly.failures, 1);
    assert!(group_failure_text(&steps[2], &outcomes[2]).is_none());
    assert!(group_failure_text(&steps[1], &StepOutcome::Failed("x".to_string())).is_some());
    let mut totals = BatchTotals {
        removed_ids: vec![],
        migrations: vec![],
        messages: vec![],
        completed: 0,
        skipped: 0,
        failed: 0,
    };
    totals.add_group(0, 1, &draft.final_path, fine);
    totals.add_failure(1, "broken");
    totals.add_skipped("late".to_string());
    assert_eq!((totals.completed, totals.failed, totals.skipped), (1, 1, 1));
    assert_eq!(totals.migrations, vec![(1, r"C:\v\source.mp4".to_string())]);
    assert_eq!(totals.status(), "completed-with-failures");
    assert_eq!(totals.summary(true), "批量合并并备份：完成 1，跳过 1，失败 1");
    let rows = DeletedVideoRows { videos: 2, ..DeletedVideoRows::default() };
    assert!(totals.index_message(rows).contains("removed 2 video ids"));
}

#[test]
fn selected_files_are_handled() {
    let (videos, _) = three();
    let ids = vec![3];
    let run = execute_file_action(&ids, "backup", "MOVE", false).unwrap();
    assert_eq!(run.kind, FileActionKind::Backup);
    assert!(run.closing.is_none());
    assert!(execute_file_action(&vec![], "backup", "MOVE", false).is_err());
    assert!(execute_file_action(&ids, "backup", "DELETE", false).is_err());
    assert!(execute_file_action(&ids, "delete", "DELETE", false).is_err());
    assert!(execute_file_action(&ids, "delete", "MOVE", true).is_err());
    assert!(execute_file_action(&ids, "burn", "MOVE", true).is_err());
    let later = execute_file_action_with_options(&ids, "delete", "DELETE", true, true).unwrap();
    assert!(later.closing.is_some());
    assert_eq!(select_video(&videos, 3, false, &work()), Ok(2));
    assert!(select_video(&videos, 9, false, &work()).is_err());
    assert!(select_video(&videos, 3, true, &work()).is_err());
    let mut backups = BackupRun::new();
    backups.take(&videos, 3, 2, None);
    backups.take(&videos, 1, 0, Some(r"B:\keep.mp4".to_string()));
    assert_eq!(backups.gone, vec![3]);
    assert_eq!(backups.destinations(), vec![r"B:\keep.mp4".to_string()]);
    backups.moved(&videos, 0);
    assert_eq!(backups.gone, vec![3, 1]);
    assert_eq!(
        backups.messages,
        vec![
            r"removed stale missing index C:\v\extra.mp4".to_string(),
            r"moved C:\v\keep.mp4 to B:\keep.mp4".to_string(),
        ]
    );
    let moved = selected_text("a", true, &Some("b".to_string()));
    assert_ne!(moved, selected_text("a", true, &None));
    let opened = open_video(&videos, r"C:\v\keep.mp4", false, &work(), &FileState::Present);
    assert!(opened.is_ok());
    assert!(open_video(&videos, r"C:\v\no.mp4", false, &work(), &FileState::Present).is_err());
    assert_eq!(pick_folders("a\r\n\n b \n"), vec!["a", "b"]);
    assert_eq!(pick_folder(""), None);
}

#[test]
fn replacements_are_planned() {
    let (videos, _) = three();
    assert_eq!(check_replacement(&videos, 1, 2, false, &work()), Ok((0, 1)));
    assert!(check_replacement(&videos, 1, 1, false, &work()).is_err());
    assert!(check_replacement(&videos, 1, 9, false, &work()).is_err());
    let plan: ReplacementPlan =
        create_replacement_plan(&videos, 1, 2, false, &work(), r"B:\source.mp4", 77).unwrap();
    assert_eq!(plan.plan_id, "replace-plan-77");
    let run = execute_replacement(&plan, "REPLACE").unwrap();
    assert_eq!((run.away_from.as_str(), run.away_to.as_str()), (r"C:\v\source.mp4", r"B:\source.mp4"));
    assert_eq!((run.into_from.as_str(), run.into_to.as_str()), (r"C:\v\keep.mp4", r"C:\v\source.mp4"));
    assert_eq!(run.messages.len(), 3);
    assert!(execute_replacement(&plan, "replace").is_err());
    assert!(operation_log_path(&work()).starts_with(r"D:\Work\data"));
}

fn entry(id: &str, created_at_unix_ms: i64, rolls_back: Option<&str>) -> LogEntry {
    LogEntry {
        operation_id: Some(id.to_string()),
        is_rollback: rolls_back.is_some(),
        rollback_of: rolls_back.map(str::to_string),
        action: Some("backup".to_string()),
        has_plan: false,
        messages: vec!["done".to_string()],
        moves: Some(1),
        moves_unreadable: false,
        reversible: true,
        summary: None,
        created_at_unix_ms,
    }
}

#[test]
fn rolled_back_is_not_reversible() {
    let log = vec![entry("one", 1, None), entry("two", 2, None), entry("three", 3, Some("one"))];
    let history = list_operation_history(&log);
    let times = history.iter().map(|line| line.created_at_unix_ms).collect::<Vec<_>>();
    assert!(times.windows(2).all(|pair| pair[0] >= pair[1]));
    let one = history.iter().find(|line| line.operation_id == "one").unwrap();
    assert!(one.rolled_back && !one.reversible);
    assert!(rollback_operation(&log, "one").is_err());
    assert_eq!(rollback_operation(&log, "two"), Ok(1));
    assert!(rollback_operation(&log, "none").is_err());
}

#[test]
fn logged_operations_are_listed() {
    let text = |value: &str| value.to_string();
    let cases = [
        (
            Logged::Replacement { target_path: text(r"C:\v\a.mp4") },
            ("replace-operation-7", "replace", r"替换路径 C:\v\a.mp4", true),
        ),
        (
            Logged::Merge { backup: true },
            ("merge-selection-operation-7", "merge-backup", "并入并备份 2 个文件", true),
        ),
        (
            Logged::Merge { backup: false },
            ("merge-selection-operation-7", "merge-delete", "并入并删除 2 个文件", false),
        ),
        (
            Logged::Batch { backup: true, summary: text("s") },
            ("batch-merge-selection-operation-7", "batch-merge-backup", "s", true),
        ),
        (
            Logged::Batch { backup: false, summary: text("s") },
            ("batch-merge-selection-operation-7", "batch-merge-delete", "s", false),
        ),
        (Logged::Backup, ("backup-operation-7", "backup", "移入备份 2 个文件", true)),
        (Logged::Deletion, ("delete-operation-7", "delete", "直接删除 2 个文件", false)),
        (
            Logged::Stale { task: text("merge") },
            ("skip-stale-operation-7", "skip-stale", "跳过失效任务 merge", false),
        ),
    ];
    for (what, (id, action, summary, reversible)) in cases {
        let messages = vec![text("one"), text("two")];
        let log = vec![log_entry(&what, &messages, 1, 7, 8)];
        let listed = list_operation_history(&log);
        assert_eq!(listed.len(), 1);
        assert_eq!(listed[0].operation_id, id);
        assert_eq!(listed[0].action, action);
        assert_eq!(listed[0].summary, summary);
        assert_eq!(listed[0].messages, messages);
        assert_eq!(listed[0].created_at_unix_ms, 8);
        assert_eq!(listed[0].reversible, reversible);
        assert_eq!(rollback_operation(&log, id).is_ok(), reversible);
        let unmoved = vec![log_entry(&what, &messages, 0, 7, 8)];
        assert!(rollback_operation(&unmoved, id).is_err());
    }
}

#[test]
fn logged_rollback_ends_an_operation() {
    let mut log = vec![log_entry(&Logged::Backup, &vec!["done".to_string()], 3, 7, 8)];
    assert_eq!(rollback_operation(&log, "backup-operation-7"), Ok(0));
    let what = Logged::Rollback { of: "backup-operation-7".to_string() };
    let rollback = log_entry(&what, &Vec::new(), 0, -9, 10);
    assert_eq!(rollback.operation_id.as_deref(), Some("rollback-operation--9"));
    assert_eq!(rollback.summary.as_deref(), Some("回滚 backup-operation-7"));
    log.push(rollback);
    let listed = list_operation_history(&log);
    assert_eq!(listed.len(), 1);
    assert!(listed[0].rolled_back && !listed[0].reversible);
    assert_eq!(
        rollback_operation(&log, "backup-operation-7"),
        Err("operation has already been rolled back".to_string())
    );
}

#[test]
fn log_lines_are_read() {
    let lines = [
        r#"{"operationId":"one","action":"backup","messages":["a",7,"b"],"moves":[{}],
            "reversible":true,"createdAtUnixMs":5}"#,
        "   ",
        "no json",
        r#"{"operationId":"two","rollbackOf":9,"planId":null,"moves":"x","reversible":"yes",
            "createdAtUnixMs":1.5,"messages":"m","summary":"s"}"#,
        "7",
    ];
    let lines = lines.iter().map(|line| line.to_string()).collect::<Vec<_>>();
    assert_eq!(entry_lines(&lines), vec![0, 3, 4]);
    let log = read_operation_log(&lines);
    assert_eq!(log.len(), 3);
    assert_eq!(log[0].operation_id.as_deref(), Some("one"));
    assert_eq!(log[0].action.as_deref(), Some("backup"));
    assert_eq!(log[0].messages, vec!["a".to_string(), "b".to_string()]);
    assert_eq!((log[0].moves, log[0].moves_unreadable), (Some(1), false));
    assert!(log[0].reversible && !log[0].is_rollback && !log[0].has_plan);
    assert_eq!(log[0].created_at_unix_ms, 5);
    assert!(log[1].is_rollback && log[1].rollback_of.is_none() && log[1].has_plan);
    assert_eq!((log[1].moves, log[1].moves_unreadable), (None, true));
    assert!(!log[1].reversible && log[1].messages.is_empty());
    assert_eq!(log[1].created_at_unix_ms, 0);
    assert_eq!(log[1].summary.as_deref(), Some("s"));
    assert!(log[2].operation_id.is_none() && !log[2].is_rollback);
    let history = list_operation_history(&log);
    assert_eq!(history.len(), 1);
    assert_eq!(rollback_operation(&log, "one"), Ok(0));
}

#[test]
fn entries_are_made_of_fields() {
    let fields = LineFields {
        operation_id: Some(LineField::Text("one".to_string())),
        rollback_of: Some(LineField::Null),
        action: Some(LineField::Flag(true)),
        plan_id: None,
        messages: Some(LineField::List(vec![Some("a".to_string()), None])),
        moves: Some(LineField::Object),
        reversible: Some(LineField::Flag(true)),
        summary: None,
        created_at_unix_ms: Some(LineField::Number(Some(-3))),
    };
    let entry = entry_of_fields(fields);
    assert_eq!(entry.operation_id.as_deref(), Some("one"));
    assert!(entry.is_rollback && entry.rollback_of.is_none() && entry.action.is_none());
    assert_eq!(entry.messages, vec!["a".to_string()]);
    assert!(entry.moves.is_none() && entry.moves_unreadable && entry.reversible);
    assert_eq!(entry.created_at_unix_ms, -3);
}

#[test]
fn written_entry_is_read_back() {
    let what = Logged::Merge { backup: true };
    let entry = log_entry(&what, &vec!["a \"b\"".to_string()], 2, 7, 8);
    let mut line = serde_json::Map::new();
    for (key, field) in written_fields(&entry) {
        let value = match field {
            LineField::Flag(flag) => serde_json::Value::from(flag),
            LineField::Number(number) => serde_json::Value::from(number),
            LineField::Text(text) => serde_json::Value::from(text),
            LineField::List(items) => serde_json::Value::from(items),
            _ => serde_json::Value::Null,
        };
        line.insert(key, value);
    }
    let line = serde_json::to_string(&line).unwrap();
    let read = read_operation_log(&vec![line]);
    assert_eq!(format!("{:?}", read[0]), format!("{entry:?}"));
}

#[test]
fn rollback_restores() {
    let mut index = VideoIndex::new();
    let session = index.create_or_reset_scan_session(r"C:\v", 1);
    let mut row = video(1, r"C:\v\a.mp4", 9);
    row.id = None;
    let id = index.upsert_video(&row);
    index.link_video_to_scan_session(session, id).unwrap();
    let known = index.videos[0].clone();
    let record: FileMoveRecord =
        index.build_move_record(&known, r"C:\v\a.mp4", r"B:\a.mp4").unwrap();
    assert_eq!(record.session_ids, vec![session]);
    index.remove_video(id);
    let records = vec![record];
    let free = vec![FileState::Missing];
    let there = vec![FileState::Present];
    assert!(check_rollback(&records, &free, &there, false, &work()).is_ok());
    assert!(check_rollback(&records, &there, &there, false, &work()).is_err());
    assert!(check_rollback(&records, &free, &free, false, &work()).is_err());
    let mut disk = vec![(records[0].to.clone(), "a".to_string())];
    let back = FileAction::Move { from: records[0].to.clone(), to: records[0].from.clone() };
    perform(&mut disk, &back);
    assert!(holds(&disk, r"C:\v\a.mp4", "a"));
    index.restore_records(&records);
    assert_eq!(index.videos[0].path, r"C:\v\a.mp4");
    assert!(index.is_linked(index.videos[0].id.unwrap()));
    assert!(restored_text(&records[0]).contains(r"C:\v\a.mp4"));
    assert!(index.build_move_record(&row, "a", "b").is_err());
}

fn item(id: i64, path: &str) -> MatchItem {
    MatchItem {
        video: video(id, path, 1),
        role: String::new(),
        quality_rank: id as usize,
        match_ranges: vec![],
        match_detail: None,
    }
}

fn group(title: &str, confidence: f64, items: Vec<MatchItem>) -> MatchGroup {
    MatchGroup {
        id: "group-001".to_string(),
        title: title.to_string(),
        kind: "k".to_string(),
        confidence: double(confidence),
        recommended_video_id: items.first().and_then(|item| item.video.id),
        reclaimable_bytes: 1,
        item_count: items.len(),
        evidence: vec![],
        report: String::new(),
        items,
    }
}

#[test]
fn one_video_gives_the_name() {
    let items = vec![item(1, r"C:\v\x.mp4"), item(2, r"C:\v\x.mp4")];
    let pair = group("t", 1.0, items);
    assert_eq!(naming_source_for_group(&pair, &vec![], &vec![]), Some(1));
    assert_eq!(naming_source_for_group(&group("t", 1.0, vec![]), &vec![], &vec![]), None);
}

#[test]
fn shared_source_is_symmetric() {
    let a = video(1, r"C:\v\a\x.mp4", 1);
    let b = video(2, r"C:\v\b\y.mp4", 1);
    let sources = vec![r"c:\V\".to_string()];
    assert!(videos_share_scan_source(&a, &b, &sources));
    assert!(videos_share_scan_source(&b, &a, &sources));
    assert!(!videos_share_scan_source(&a, &b, &vec![]));
    assert!(path_inside_dir(r"C:\v\a", "c:/v"));
    assert!(!path_inside_dir(r"C:\vv\a", "c:/v"));
    assert!(!path_inside_dir(r"C:\v", " "));
}

#[test]
fn file_names_are_ranked() {
    assert_eq!(split_file_name("a.b.mp4"), ("a.b".to_string(), "mp4".to_string()));
    assert_eq!(split_file_name("a"), ("a".to_string(), String::new()));
    assert_eq!(rename_suffix_base("Clip (2).mp4"), Some("clip".to_string()));
    assert_eq!(rename_suffix_base("Clip (0).mp4"), None);
    assert_eq!(rename_suffix_base("(2).mp4"), None);
    assert_eq!(file_name_chinese_prefix_rank("91【示例】x.mp4"), 0);
    assert_eq!(file_name_chinese_prefix_rank("91 旅行.mp4"), 1);
    assert_eq!(file_name_chinese_prefix_rank("旅行.mp4"), 2);
    assert_eq!(score_readable_file_name("旅行.mp4"), 62);
    assert_eq!(score_readable_file_name("12345678.mp4"), -44);
    let dirs = vec![r"D:\x".to_string(), r"C:\v".to_string()];
    assert_eq!(naming_folder_priority(&video(1, r"C:\v\a.mp4", 1), &dirs), 1);
    assert_eq!(naming_folder_priority(&video(1, r"E:\a.mp4", 1), &dirs), usize::MAX);
}

#[test]
fn groups_are_merged_one_after_the_other() {
    let first = group("first", 0.9, vec![item(1, r"C:\v\a (1).mp4"), item(2, r"C:\v\a.mp4")]);
    let second = group("second", 0.8, vec![item(2, r"C:\v\a.mp4"), item(3, r"C:\v\b.mp4")]);
    let single = group("single", 0.7, vec![item(4, r"C:\v\c.mp4")]);
    let groups = vec![first.clone(), second, single.clone()];
    let plan = plan_all_groups(&groups, &vec![], &vec![]);
    assert_eq!((plan.groups.clone(), plan.skipped), (vec![0], 1));
    assert_eq!(task_title(&plan.tasks[0]), "first");
    assert!(plan_group_task(&single, &vec![], &vec![]).is_none());
    let merge = plan_group_task(&first, &vec![], &vec![]).unwrap();
    assert!(matches!(&merge, MergeTask::Merge { keeper_id: 1, source_id: 2, .. }));
    assert!(matches!(task_request(&merge, &vec![1, 2]), TaskRequest::Merge { .. }));
    assert!(matches!(task_request(&merge, &vec![1]), TaskRequest::Skip));
    let files = MergeTask::File { title: "t".to_string(), ids: vec![5, 6] };
    assert!(matches!(task_request(&files, &vec![6]), TaskRequest::File { ids } if ids == vec![6]));
    assert_eq!(merge_disposal("delete"), "delete");
    assert_eq!(merge_disposal("anything"), "backup");
    assert_eq!(task_confirmation("backup", true), "MERGE_BACKUP");
    assert_eq!(task_confirmation("delete", false), "DELETE");
    let mut run = MergeAllRun { completed: 0, skipped: plan.skipped, failed: 0, failures: vec![] };
    run.note("first", &Some(Ok("completed".to_string())));
    run.note("first", &Some(Ok("skipped-stale".to_string())));
    assert_eq!(run.status(), "completed");
    run.note("first", &Some(Err("bad".to_string())));
    run.note("first", &None);
    assert_eq!((run.completed, run.skipped, run.failed), (1, 3, 1));
    assert_eq!(run.failures, vec!["first: bad"]);
    assert_eq!(run.status(), "completed-with-failures");
}

#[test]
fn groups_are_listed_within_a_range() {
    assert_eq!(confidence_range(double(0.9), double(0.2)), (double(0.2), double(0.9)));
    assert_eq!(confidence_range(double(-1.0), double(9.0)), (double(0.0), double(1.0)));
    let groups = vec![group("low", 0.5, vec![]), group("high", 0.9, vec![]), group("top", 1.0, vec![])];
    let listed = list_groups(groups, double(0.95));
    let titles = listed.iter().map(|group| group.title.as_str()).collect::<Vec<_>>();
    assert_eq!(titles, vec!["high", "low"]);
}

#[test]
fn steps_say_why_they_stop() {
    let step = MergeStep {
        role: StepRole::KeeperIn,
        action: FileAction::Move { from: "a".to_string(), to: "b".to_string() },
    };
    let text = duplicate_video_search::merging::selection_failure_text(&step, "denied");
    assert!(text.contains("denied"));
}
