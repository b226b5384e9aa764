use duplicate_video_search::ai_index::{AiWorkerOutcome, IndexVideoOutcome, PreparedModel};
use duplicate_video_search::database::{
    path_segments, same_storage_root, should_clear_ai, source_root, storage_root_key, FilePlace,
    RowProbe, SourceRoot,
};
use duplicate_video_search::double::Double;
use duplicate_video_search::files::FileState;
use duplicate_video_search::findings::sorted_unique;
use duplicate_video_search::index::{DeletedVideoRows, MatchEdge, VideoIndex};
use duplicate_video_search::media::{
    failed_record, lightweight_video_record, place_of, scanned_record, MediaInfo, ScannedFile,
};
use duplicate_video_search::models::{
    AiPairScoreRecord, FrameEmbeddingRecord, ScanSummary, VideoRecord,
};
use duplicate_video_search::operations::{
    cleanup_completed_ai_frame_cache, list_storage_parts, vacuum_database, SpaceTaken,
};
use duplicate_video_search::paths::{Host, Root};
use duplicate_video_search::rows::{first_occurrences, has_id, keep_marked};
use duplicate_video_search::scanning::scan_sources_with_progress;
use duplicate_video_search::settings::default_settings;
use duplicate_video_search::upkeep::sql_placeholders;

fn work() -> Root {
    Root { path: r"D:\Work".to_string(), host: Host::Windows }
}

fn double(value: f64) -> Double {
    Double::of(value.to_bits())
}

fn file(path: &str, size_bytes: u64) -> ScannedFile {
    let name = path.rsplit('\\').next().unwrap_or(path);
    ScannedFile {
        host: Host::Windows,
        path: path.to_string(),
        parts: duplicate_video_search::files::FileParts {
            parent: path.rsplit_once('\\').map(|(parent, _)| parent.to_string()),
            file_name: Some(name.to_string()),
            stem: Some(name.rsplit_once('.').map(|(stem, _)| stem).unwrap_or(name).to_string()),
            extension: name.rsplit_once('.').map(|(_, extension)| extension.to_string()),
        },
        is_file: true,
        size_bytes,
        modified_unix_ms: 1_000,
    }
}

fn full_info() -> MediaInfo {
    MediaInfo {
        container_format: Some("mp4".to_string()),
        duration_seconds: Some(double(10.0)),
        width: Some(1920),
        height: Some(1080),
        bitrate: Some(1_000_000),
        codec: Some("h264".to_string()),
        frame_rate: Some(double(30.0)),
        audio_codec: Some("aac".to_string()),
    }
}

fn scanned(path: &str, hash: &str) -> VideoRecord {
    scanned_record(
        &file(path, 1024),
        full_info(),
        Some(hash.to_string()),
        vec![],
        vec![],
        double(1.0),
        5,
    )
}

fn place(path: &str) -> FilePlace {
    place_of(&scanned(path, ""))
}

fn gone(index: &VideoIndex) -> Vec<RowProbe> {
    index.videos.iter().map(|_| RowProbe { path_exists: false, duration_close: true }).collect()
}

fn embedding(video_id: i64, frame_index: usize) -> FrameEmbeddingRecord {
    FrameEmbeddingRecord {
        video_id,
        model_id: "model".to_string(),
        frame_index,
        timestamp_seconds: double(frame_index as f64),
        embedding: vec![1],
        norm: double(1.0),
    }
}

fn score(a: i64, b: i64, key: &str, created_unix_ms: i64) -> AiPairScoreRecord {
    AiPairScoreRecord {
        video_a_id: a,
        video_b_id: b,
        model_id: "model".to_string(),
        cache_key: key.to_string(),
        confidence: double(0.9),
        matched: 8,
        compared: 8,
        average_similarity: double(0.9),
        coverage: double(1.0),
        created_unix_ms,
    }
}

fn with_model() -> VideoIndex {
    let mut index = VideoIndex::new();
    index.upsert_embedding_model("model", "test", 1, "runtime", "model.onnx", "hash", 1);
    index
}

#[test]
fn rows_are_written_and_read_back() {
    let mut index = VideoIndex::new();
    let video = scanned(r"C:\v\a.mp4", "h");
    let id = index.upsert_video(&video);
    assert_eq!(id, 1);
    let at = index.find_video_by_path(r"C:\v\a.mp4").unwrap();
    let mut expected = video.clone();
    expected.id = Some(id);
    assert_eq!(format!("{:?}", index.videos[at]), format!("{expected:?}"));
    assert_eq!(index.upsert_video(&video), id);
    assert_eq!(index.position_of(id), Some(at));
    assert_eq!(index.position_of(99), None);
    assert!(!index.is_linked(id));
}

#[test]
fn changed_files_lose_their_findings() {
    let known = scanned(r"C:\v\a.mp4", "one");
    let mut changed = scanned(r"C:\v\a.mp4", "two");
    assert!(!should_clear_ai(&known, &known));
    assert!(should_clear_ai(&known, &changed));
    let mut index = with_model();
    let id = index.upsert_video(&known);
    index.replace_frame_embeddings(id, "model", &vec![embedding(id, 0)]).unwrap();
    changed.size_bytes = 4096;
    assert_eq!(index.upsert_video(&changed), id);
    assert_eq!(index.count_frame_embeddings(id, "model"), 0);
}

#[test]
fn recognized_video_keeps_its_rows() {
    let mut index = with_model();
    let id = index.upsert_video(&scanned(r"C:\v\old.mp4", "same"));
    index.replace_frame_embeddings(id, "model", &vec![embedding(id, 0)]).unwrap();
    let moved = scanned(r"C:\v\new.mp4", "same");
    let probes = gone(&index);
    let found = index.find_missing_video_by_content_identity(&moved, &probes);
    assert_eq!(found, Some(0));
    let got = index.migrate_video_by_content_identity(&moved, &place(&moved.path), &probes, 9);
    assert_eq!(got, Ok(Some(id)));
    assert_eq!(index.count_frame_embeddings(id, "model"), 1);
    assert_eq!(index.videos[0].path, r"C:\v\new.mp4");
    assert_eq!(index.find_missing_video_by_content_identity(&scanned("x", "other"), &probes), None);
}

#[test]
fn removal_spares_what_other_scans_saw() {
    let mut index = with_model();
    let one = index.create_or_reset_scan_session(r"C:\a", 1);
    let two = index.create_or_reset_scan_session(r"C:\b", 2);
    let mine = index.upsert_video(&scanned(r"C:\a\a.mp4", "a"));
    let both = index.upsert_video(&scanned(r"C:\a\b.mp4", "b"));
    index.link_video_to_scan_session(one, mine).unwrap();
    index.link_video_to_scan_session(one, both).unwrap();
    index.link_video_to_scan_session(two, both).unwrap();
    assert!(index.link_video_to_scan_session(99, both).is_err());
    assert_eq!(index.session_ids_for_video(both).len(), 2);
    assert!(index.session_exists(two) && !index.session_exists(99));
    assert_eq!(index.list_videos_for_sessions(&vec![two]).len(), 1);
    let (summary, steps) = index.delete_scan_sessions_with_progress(&vec![one, 99]);
    assert_eq!(summary.deleted_sessions, 1);
    assert_eq!(summary.affected_videos, 2);
    assert_eq!(summary.deleted_videos, 1);
    assert!(!steps.is_empty());
    assert_eq!(index.videos.len(), 1);
    assert_eq!(index.videos[0].id, Some(both));
    let none = index.delete_scan_sessions(&vec![]);
    assert_eq!(none.requested_sessions, 0);
}

#[test]
fn scans_of_one_source_go_together() {
    let mut index = VideoIndex::new();
    let first = index.create_or_reset_scan_session(r"C:\a", 1);
    index.complete_scan_session(first, 5, 3, 2, 1);
    assert_eq!(index.sessions[0].completed_unix_ms, Some(5));
    let again = index.create_or_reset_scan_session(r"C:\a", 7);
    assert_eq!(index.sessions.iter().filter(|session| session.source == r"C:\a").count(), 1);
    assert_eq!(index.expand_session_ids_by_source(&vec![again]), vec![again]);
}

#[test]
fn only_seen_videos_are_left() {
    let mut index = with_model();
    let session = index.create_or_reset_scan_session(r"C:\a", 1);
    let seen = index.upsert_video(&scanned(r"C:\a\a.mp4", "a"));
    let unseen = index.upsert_video(&scanned(r"C:\a\b.mp4", "b"));
    index.link_video_to_scan_session(session, seen).unwrap();
    index.replace_frame_embeddings(unseen, "model", &vec![embedding(unseen, 0)]).unwrap();
    let lost = index.delete_orphan_videos();
    assert_eq!((lost.videos, lost.frame_embeddings), (1, 1));
    assert_eq!(index.videos.len(), 1);
    index.remove_video(seen);
    assert!(index.videos.is_empty() && index.links.is_empty());
}

#[test]
fn cleanup_leaves_live_rows() {
    let mut index = with_model();
    let a = index.upsert_video(&scanned(r"C:\a\a.mp4", "a"));
    let b = index.upsert_video(&scanned(r"C:\a\b.mp4", "b"));
    index.upsert_ai_pair_scores(vec![score(a, b, "now", 1), score(a, b, "old", 1)]).unwrap();
    let nothing = index.cleanup_stale_ai_rows();
    assert_eq!(nothing, DeletedVideoRows::default());
    index.match_edges.push(MatchEdge {
        video_a_id: a,
        video_b_id: 77,
        model_id: "model".to_string(),
        confidence: double(0.5),
        matched_frame_count: 1,
        alignment_score: double(0.5),
        clip_score: double(0.5),
        verdict: String::new(),
        evidence_json: "[]".to_string(),
        created_unix_ms: 1,
    });
    let stale = index.cleanup_stale_ai_rows_with_active_cache(&Some("now".to_string()));
    assert_eq!((stale.match_edges, stale.pair_scores), (1, 1));
    assert_eq!(index.pair_scores[0].cache_key, "now");
    let stats = index.storage_database_stats();
    assert_eq!((stats.videos, stats.ai_pair_scores, stats.embedding_models), (2, 1, 1));
    index.clear_all_indexes();
    assert_eq!(index.storage_database_stats().videos, 0);
    assert_eq!(index.upsert_video(&scanned(r"C:\a\c.mp4", "c")), b + 1);
}

#[test]
fn findings_need_their_videos() {
    let mut index = with_model();
    let id = index.upsert_video(&scanned(r"C:\a\a.mp4", "a"));
    assert!(index.replace_frame_embeddings(99, "model", &vec![embedding(99, 0)]).is_err());
    let twice = vec![embedding(id, 0), embedding(id, 0)];
    assert!(index.replace_frame_embeddings(id, "model", &twice).is_err());
    assert!(index.upsert_ai_pair_scores(vec![score(id, 99, "k", 1)]).is_err());
    assert_eq!(index.copy_frame_embeddings_from_video(id, id, "model").unwrap(), 0);
    index.replace_frame_embeddings(id, "model", &vec![embedding(id, 1), embedding(id, 0)]).unwrap();
    let listed = index.list_frame_embeddings("model", &vec![id]);
    let frames = listed.iter().map(|at| index.frame_embeddings[*at].frame_index);
    assert_eq!(frames.collect::<Vec<_>>(), vec![0, 1]);
    assert_eq!(index.frame_embedding_counts_by_video("model"), vec![(id, 2)]);
    let newest = index.latest_embedding_model_id_for_path("model.onnx");
    assert_eq!(newest, Some("model".to_string()));
    assert_eq!(index.latest_embedding_model_id_for_path("none"), None);
    assert_eq!(sorted_unique(&vec![3, 1, 3]), vec![1, 3]);
}

#[test]
fn newest_scores_come_first() {
    let mut index = with_model();
    let a = index.upsert_video(&scanned(r"C:\a\a.mp4", "a"));
    let b = index.upsert_video(&scanned(r"C:\a\b.mp4", "b"));
    let scores = vec![score(a, b, "x", 1), score(a, b, "y", 5), score(a, b, "z", 3)];
    index.upsert_ai_pair_scores(scores).unwrap();
    let listed = index.list_pair_scores_for_debug("model", &Some("z".to_string()), b, a);
    let times = listed.iter().map(|entry| entry.created_unix_ms).collect::<Vec<_>>();
    assert_eq!(times, vec![5, 3, 1]);
    assert!(listed[1].is_current_cache_key && !listed[0].is_current_cache_key);
}

#[test]
fn workers_results_are_recorded() {
    let mut index = VideoIndex::new();
    let id = index.upsert_video(&scanned(r"C:\a\a.mp4", "a"));
    let prepared = PreparedModel {
        model_id: "model".to_string(),
        model_hash: "hash".to_string(),
        model_path: "model.onnx".to_string(),
    };
    let list = vec![embedding(id, 0)];
    let done = index.persist_ai_worker_result(
        &prepared,
        id,
        "a.mp4",
        AiWorkerOutcome::Embedded(list),
        9,
    );
    assert!(matches!(done, Ok(IndexVideoOutcome::Processed)));
    assert_eq!(index.count_frame_embeddings(id, "model"), 1);
    assert_eq!(index.models.len(), 1);
    assert_eq!(index.models[0].created_unix_ms, 9);
    let again = AiWorkerOutcome::Embedded(vec![embedding(id, 0)]);
    index.persist_ai_worker_result(&prepared, id, "a.mp4", again, 20).unwrap();
    assert_eq!(index.models[0].created_unix_ms, 9);
    let empty = AiWorkerOutcome::Embedded(vec![]);
    let few = index.persist_ai_worker_result(&prepared, id, "a.mp4", empty, 9);
    assert!(matches!(few, Ok(IndexVideoOutcome::InsufficientFrames(_))));
    let failure = AiWorkerOutcome::Failed("no".to_string());
    let failed = index.persist_ai_worker_result(&prepared, id, "a.mp4", failure, 9);
    assert!(matches!(failed, Ok(IndexVideoOutcome::Failed(_))));
}

#[test]
fn every_file_of_a_scan_is_counted() {
    let mut index = VideoIndex::new();
    let settings = default_settings(&work());
    let source = r"D:\Work\samples";
    let mut run = index.scan_source(source, true, &settings, &work(), 1).unwrap();
    run.start_files(3);
    let seen = lightweight_video_record(&file(r"D:\Work\samples\a.mp4", 9), 2).unwrap();
    let probes = gone(&index);
    let id = index.settle_listed(&mut run, &seen, &None, &probes, 2);
    let probes = gone(&index);
    let pending = index.settle_scanned(&mut run, r"D:\Work\samples\b.mp4", false, &None, &probes, 3);
    assert_eq!(pending, None);
    let read = scanned(r"D:\Work\samples\b.mp4", "b");
    let probes = gone(&index);
    let other = index.settle_result(&mut run, &read, &probes, 4).unwrap();
    let failed = failed_record(&file(r"D:\Work\samples\c.mp4", 9), "bad".to_string(), 5);
    index.settle_failed(&mut run, &failed, false);
    assert_eq!((run.waiting, run.pending), (0, 0));
    assert_eq!(run.scanned + run.failed, run.total_files);
    assert_eq!((run.scanned, run.failed), (2, 1));
    let end = index.finish_scan(&run, false, 6);
    assert_eq!(end.phase, "completed");
    assert_eq!(index.videos.len(), 3);
    assert_ne!(id, other);
    let summary = run.summary(&work(), 12);
    assert_eq!((summary.total_files, summary.scanned, summary.failed), (3, 2, 1));
}

#[test]
fn unchanged_files_stay() {
    let mut index = VideoIndex::new();
    let settings = default_settings(&work());
    let source = r"D:\Work\samples";
    let path = r"D:\Work\samples\a.mp4";
    let id = index.upsert_video(&scanned(path, "a"));
    let known = format!("{:?}", index.videos);
    let (mut run, told) =
        index.scan_source_with_progress(source, true, &settings, &work(), 7).unwrap();
    assert_eq!(told.phase, "counting");
    run.start_files(1);
    let probes = gone(&index);
    assert_eq!(index.settle_scanned(&mut run, path, true, &None, &probes, 8), Some(id));
    assert_eq!(format!("{:?}", index.videos), known);
    let end = index.finish_scan(&run, true, 9);
    assert_eq!(end.phase, "cancelled");
}

#[test]
fn sources_are_refused() {
    let mut index = VideoIndex::new();
    let mut settings = default_settings(&work());
    settings.restrict_scan_to_test_path = true;
    assert!(index.scan_source(r"C:\x", true, &settings, &work(), 1).is_err());
    assert!(index.scan_source(r"D:\Work\samples", false, &settings, &work(), 1).is_err());
    assert!(index.sessions.is_empty());
    let bad: Result<ScanSummary, String> = Err("bad".to_string());
    assert_eq!(scan_sources_with_progress(vec![bad]).unwrap_err(), "bad");
    assert!(scan_sources_with_progress(vec![]).unwrap().is_empty());
    let mut folder = file(r"C:\x\a.mp4", 1);
    folder.is_file = false;
    assert!(lightweight_video_record(&folder, 1).is_err());
}

#[test]
fn missing_files_are_pruned() {
    let mut index = VideoIndex::new();
    let session = index.create_or_reset_scan_session(r"C:\a", 1);
    let there = index.upsert_video(&scanned(r"C:\a\a.mp4", "a"));
    let lost = index.upsert_video(&scanned(r"C:\a\b.mp4", "b"));
    index.link_video_to_scan_session(session, there).unwrap();
    index.link_video_to_scan_session(session, lost).unwrap();
    let states = vec![FileState::Present, FileState::Missing];
    let mut copy = index.clone();
    let listed = index.videos.clone();
    let left = index.prune_missing_videos(listed, &states);
    assert_eq!(left.len(), 1);
    assert_eq!(index.videos.len(), 1);
    let summary = copy.prune_stale_videos(&None, &states);
    assert_eq!((summary.checked_videos, summary.removed_missing_videos), (2, 1));
    assert_eq!(copy.videos[0].id, Some(there));
}

#[test]
fn space_is_summed_up() {
    let mut index = with_model();
    let parts = list_storage_parts(&work());
    let taken = parts.iter().map(|_| SpaceTaken { bytes: 2, files: 1 }).collect::<Vec<_>>();
    let usage = index.storage_usage(&work(), &taken);
    assert_eq!(usage.items.len(), parts.len());
    assert_eq!(usage.total_bytes, 2 * parts.len() as u64);
    let none = SpaceTaken { bytes: 0, files: 0 };
    let summary = index.cleanup_storage("now", SpaceTaken { bytes: 5, files: 2 }, none);
    assert_eq!((summary.deleted_ai_frame_cache_files, summary.deleted_ai_frame_cache_bytes), (2, 5));
    assert!(index.completed_videos("model.onnx", &vec![]).is_empty());
    let removed = vec![SpaceTaken { bytes: 3, files: 2 }, SpaceTaken { bytes: 4, files: 2 }];
    let cleaned = cleanup_completed_ai_frame_cache(9, &removed);
    assert_eq!((cleaned.eligible_videos, cleaned.deleted_files, cleaned.deleted_bytes), (2, 4, 7));
    assert_eq!(vacuum_database(10, 4).reclaimed_bytes, 6);
    assert_eq!(vacuum_database(4, 10).reclaimed_bytes, 0);
}

#[test]
fn storage_roots_are_told_apart() {
    assert_eq!(path_segments(r"\\NAS\Share\a"), vec!["NAS", "Share", "a"]);
    assert!(same_storage_root(r"\\NAS\Share\a", "//nas/share/b"));
    assert!(!same_storage_root(r"C:\a", r"D:\a"));
    assert!(storage_root_key("relative").is_none());
    assert!(matches!(source_root(r"C:\Videos"), SourceRoot::At(_)));
    assert!(matches!(source_root("relative"), SourceRoot::Parent));
}

#[test]
fn rows_are_kept_by_marks() {
    assert_eq!(keep_marked(vec![1, 2, 3], &vec![true, false, true]), vec![1, 3]);
    assert_eq!(first_occurrences(&vec![2, 1, 2]), vec![2, 1]);
    assert!(has_id(&vec![4, 5], 5) && !has_id(&vec![], 5));
    assert_eq!(sql_placeholders(3), "?,?,?");
}
