use duplicate_video_search::database::{FilePlace, RowProbe};
use duplicate_video_search::double::Double;
use duplicate_video_search::index::VideoIndex;
use duplicate_video_search::models::{AiPairScoreRecord, FrameEmbeddingRecord, VideoRecord};
use duplicate_video_search::scans::SourceProbe;
use duplicate_video_search::upkeep::TimingProbe;

fn double(value: f64) -> Double {
    Double::of(value.to_bits())
}

fn value(number: Double) -> f64 {
    f64::from_bits(number.bits)
}

fn test_video(path: &str) -> VideoRecord {
    VideoRecord {
        id: None,
        path: path.to_string(),
        file_name: path.rsplit('\\').next().unwrap_or(path).to_string(),
        parent_path: r"C:\Videos".to_string(),
        size_bytes: 1024,
        modified_unix_ms: 1,
        extension: "mp4".to_string(),
        container_format: Some("mp4".to_string()),
        duration_seconds: Some(double(10.0)),
        width: Some(1920),
        height: Some(1080),
        bitrate: Some(1_000_000),
        codec: Some("h264".to_string()),
        frame_rate: Some(double(30.0)),
        audio_codec: Some("aac".to_string()),
        partial_hash: None,
        sample_hashes: Vec::new(),
        preview_images: Vec::new(),
        scan_status: "ok".to_string(),
        error: None,
        quality_score: double(1.0),
        scanned_at_unix_ms: 1,
    }
}

fn pair_score(a: i64, b: i64, cache_key: &str) -> AiPairScoreRecord {
    let (video_a_id, video_b_id) = if a < b { (a, b) } else { (b, a) };
    AiPairScoreRecord {
        video_a_id,
        video_b_id,
        model_id: "model".to_string(),
        cache_key: cache_key.to_string(),
        confidence: double(0.9),
        matched: 8,
        compared: 16,
        average_similarity: double(0.9),
        coverage: double(0.5),
        created_unix_ms: 1,
    }
}

fn embedding(video_id: i64, frame_index: usize, seconds: f64, values: [f32; 4]) -> FrameEmbeddingRecord {
    FrameEmbeddingRecord {
        video_id,
        model_id: "model".to_string(),
        frame_index,
        timestamp_seconds: double(seconds),
        embedding: values.iter().map(|value| value.to_bits()).collect(),
        norm: double(1.0),
    }
}

fn place(path: &str) -> FilePlace {
    FilePlace {
        path: path.to_string(),
        file_name: path.rsplit('\\').next().unwrap_or(path).to_string(),
        parent_path: path.rsplit_once('\\').map(|(parent, _)| parent).unwrap_or("").to_string(),
    }
}

fn is_close(left: Option<Double>, right: Option<Double>) -> bool {
    match (left, right) {
        (Some(left), Some(right)) => (value(left) - value(right)).abs() <= 1.0,
        _ => false,
    }
}

fn probes(index: &VideoIndex, video: &VideoRecord) -> Vec<RowProbe> {
    index
        .videos
        .iter()
        .map(|row| RowProbe {
            path_exists: false,
            duration_close: is_close(row.duration_seconds, video.duration_seconds),
        })
        .collect()
}

fn add_model(index: &mut VideoIndex) {
    index.upsert_embedding_model("model", "test", 4, "runtime", "model.onnx", "hash", 1);
}

fn is_at(index: &VideoIndex, path: &str) -> Option<i64> {
    index.find_video_by_path(path).and_then(|place| index.videos[place].id)
}

#[test]
fn refresh_index_sources_removes_deleted_local_source() {
    let mut index = VideoIndex::new();
    let session_id = index.create_or_reset_scan_session("/tmp/dvs-refresh-source-test/source", 1);
    index.complete_scan_session(session_id, 1, 0, 0, 0);

    let listed = index.list_scan_sessions();
    assert_eq!(listed.len(), 1);
    let gone = SourceProbe { exists: false, root_available: true };
    let summary = index.refresh_index_sources(&listed, &vec![gone]);
    assert_eq!(summary.removed_missing_sources, 1);
    assert_eq!(summary.skipped_unavailable_roots, 0);
    assert!(index.list_scan_sessions().is_empty());
}

#[test]
fn unreachable_and_present_sources_stay() {
    let mut index = VideoIndex::new();
    index.create_or_reset_scan_session(r"\\NAS\Share\a", 1);
    index.create_or_reset_scan_session(r"C:\Videos", 2);
    let listed = index.list_scan_sessions();
    assert_eq!(listed, vec![1, 0]);
    let probes = vec![
        SourceProbe { exists: true, root_available: true },
        SourceProbe { exists: false, root_available: false },
    ];
    let summary = index.refresh_index_sources(&listed, &probes);
    assert_eq!(summary.removed_missing_sources, 0);
    assert_eq!(summary.skipped_unavailable_roots, 1);
    assert_eq!(index.sessions.len(), 2);
}

#[test]
fn pair_score_cache_query_uses_participant_ids_and_prunes_stale_keys() {
    let mut index = VideoIndex::new();
    add_model(&mut index);
    let ids = (0..5)
        .map(|number| index.upsert_video(&test_video(&format!(r"C:\Videos\video-{number}.mp4"))))
        .collect::<Vec<_>>();

    index
        .upsert_ai_pair_scores(vec![
            pair_score(ids[0], ids[1], "active"),
            pair_score(ids[0], ids[2], "active"),
            pair_score(ids[1], ids[3], "active"),
            pair_score(ids[2], ids[3], "active"),
            pair_score(ids[0], ids[1], "old"),
        ])
        .unwrap();

    let participant_ids = vec![ids[0], ids[1], ids[3]];
    let (scores, chunks) = index.list_ai_pair_scores_chunked("model", "active", &participant_ids, 1);
    let pairs = scores
        .iter()
        .map(|place| &index.pair_scores[*place])
        .map(|score| (score.video_a_id, score.video_b_id))
        .collect::<Vec<_>>();

    assert!(pairs.contains(&(ids[0], ids[1])));
    assert!(pairs.contains(&(ids[1], ids[3])));
    assert!(!pairs.contains(&(ids[0], ids[2])));
    assert!(!pairs.contains(&(ids[2], ids[3])));
    assert!(chunks.len() >= 2);

    let deleted = index.prune_ai_pair_score_cache_keys("model", "active");
    assert_eq!(deleted, 1);
    let old_count = index
        .pair_scores
        .iter()
        .filter(|score| score.model_id == "model" && score.cache_key == "old")
        .count();
    assert_eq!(old_count, 0);
}

#[test]
fn move_video_path_preserves_ai_rows() {
    let mut index = VideoIndex::new();
    add_model(&mut index);
    let keep_id = index.upsert_video(&test_video(r"C:\Videos\keep.mp4"));
    let other_id = index.upsert_video(&test_video(r"C:\Videos\other.mp4"));
    index
        .replace_frame_embeddings(
            keep_id,
            "model",
            &vec![embedding(keep_id, 0, 1.0, [1.0, 0.0, 0.0, 0.0])],
        )
        .unwrap();
    index.upsert_ai_pair_scores(vec![pair_score(keep_id, other_id, "active")]).unwrap();

    index.move_video_path(keep_id, &place(r"C:\Videos\renamed.mp4"), 7).unwrap();

    let moved = index.videos.iter().find(|video| video.id == Some(keep_id)).unwrap();
    assert_eq!(moved.path, r"C:\Videos\renamed.mp4");
    assert_eq!(index.count_frame_embeddings(keep_id, "model"), 1);
    assert_eq!(
        index.pair_scores.len(),
        1,
        "path migration must not drop pair-score rows for the kept id"
    );
}

#[test]
fn move_video_path_removes_orphan_target_owner() {
    let mut index = VideoIndex::new();
    add_model(&mut index);
    let keep_id = index.upsert_video(&test_video(r"C:\Videos\keep.mp4"));
    let orphan_id = index.upsert_video(&test_video(r"C:\Videos\target.mp4"));
    index
        .replace_frame_embeddings(
            keep_id,
            "model",
            &vec![embedding(keep_id, 0, 1.0, [1.0, 0.0, 0.0, 0.0])],
        )
        .unwrap();
    index
        .replace_frame_embeddings(
            orphan_id,
            "model",
            &vec![embedding(orphan_id, 0, 1.0, [0.0, 1.0, 0.0, 0.0])],
        )
        .unwrap();
    index.upsert_ai_pair_scores(vec![pair_score(keep_id, orphan_id, "active")]).unwrap();

    index.move_video_path(keep_id, &place(r"C:\Videos\target.mp4"), 7).unwrap();

    assert_eq!(index.videos.len(), 1);
    assert_eq!(is_at(&index, r"C:\Videos\target.mp4"), Some(keep_id));
    assert_eq!(index.count_frame_embeddings(keep_id, "model"), 1);
    assert_eq!(index.count_frame_embeddings(orphan_id, "model"), 0);
    assert_eq!(index.pair_scores.len(), 0);
}

#[test]
fn move_video_path_rejects_linked_target_owner() {
    let mut index = VideoIndex::new();
    let session_id = index.create_or_reset_scan_session(r"C:\Videos", 2);
    let keep_id = index.upsert_video(&test_video(r"C:\Videos\keep.mp4"));
    let target_id = index.upsert_video(&test_video(r"C:\Videos\target.mp4"));
    index.link_video_to_scan_session(session_id, target_id).unwrap();

    let error = index
        .move_video_path(keep_id, &place(r"C:\Videos\target.mp4"), 7)
        .expect_err("linked target owner must not be auto-deleted");

    assert!(error.contains("path is already owned by video id"));
    assert!(index.find_video_by_path(r"C:\Videos\keep.mp4").is_some());
    assert!(index.find_video_by_path(r"C:\Videos\target.mp4").is_some());
}

#[test]
fn batch_delete_and_move_preserves_kept_ai_rows() {
    let mut index = VideoIndex::new();
    add_model(&mut index);
    let keep_id = index.upsert_video(&test_video(r"C:\Videos\keep.mp4"));
    let source_id = index.upsert_video(&test_video(r"C:\Videos\source.mp4"));
    let extra_id = index.upsert_video(&test_video(r"C:\Videos\extra.mp4"));
    index
        .replace_frame_embeddings(
            keep_id,
            "model",
            &vec![embedding(keep_id, 0, 1.0, [1.0, 0.0, 0.0, 0.0])],
        )
        .unwrap();
    index
        .replace_frame_embeddings(
            extra_id,
            "model",
            &vec![embedding(extra_id, 0, 1.0, [0.0, 1.0, 0.0, 0.0])],
        )
        .unwrap();
    index.upsert_ai_pair_scores(vec![pair_score(keep_id, source_id, "active")]).unwrap();
    index.upsert_ai_pair_scores(vec![pair_score(keep_id, extra_id, "active")]).unwrap();

    let summary = index
        .delete_videos_and_move_paths(
            &vec![source_id, extra_id],
            &vec![(keep_id, place(r"C:\Videos\source.mp4"))],
            7,
        )
        .unwrap();

    assert_eq!(summary.videos, 2);
    assert_eq!(summary.frame_embeddings, 1);
    assert_eq!(index.count_frame_embeddings(keep_id, "model"), 1);
    let moved = index.videos.iter().find(|video| video.id == Some(keep_id)).unwrap();
    assert_eq!(moved.path, r"C:\Videos\source.mp4");
    assert_eq!(index.pair_scores.len(), 0);
}

#[test]
fn batch_delete_and_move_counts_orphan_target_owner() {
    let mut index = VideoIndex::new();
    let keep_id = index.upsert_video(&test_video(r"C:\Videos\keep.mp4"));
    let orphan_id = index.upsert_video(&test_video(r"C:\Videos\target.mp4"));

    let summary = index
        .delete_videos_and_move_paths(
            &vec![],
            &vec![(keep_id, place(r"C:\Videos\target.mp4"))],
            7,
        )
        .unwrap();

    assert_eq!(summary.videos, 1);
    assert_eq!(index.videos.len(), 1);
    assert_eq!(is_at(&index, r"C:\Videos\target.mp4"), Some(keep_id));
    assert!(index.videos.iter().all(|video| video.id != Some(orphan_id)));
}

#[test]
fn batch_moves_are_refused_as_a_whole() {
    let mut index = VideoIndex::new();
    let a = index.upsert_video(&test_video(r"C:\Videos\a.mp4"));
    let b = index.upsert_video(&test_video(r"C:\Videos\b.mp4"));
    let twice = vec![(a, place(r"C:\Videos\c.mp4")), (b, place(r"C:\Videos\c.mp4"))];
    assert!(index.delete_videos_and_move_paths(&vec![], &twice, 7).is_err());
    let removed = vec![(a, place(r"C:\Videos\c.mp4"))];
    assert!(index.delete_videos_and_move_paths(&vec![a], &removed, 7).is_err());
    let unknown = vec![(99, place(r"C:\Videos\c.mp4"))];
    assert!(index.delete_videos_and_move_paths(&vec![b], &unknown, 7).is_err());
    let session = index.create_or_reset_scan_session(r"C:\Videos", 2);
    index.link_video_to_scan_session(session, b).unwrap();
    let owned = vec![(a, place(r"C:\Videos\b.mp4"))];
    assert!(index.delete_videos_and_move_paths(&vec![], &owned, 7).is_err());
    assert_eq!(is_at(&index, r"C:\Videos\a.mp4"), Some(a));
    assert_eq!(is_at(&index, r"C:\Videos\b.mp4"), Some(b));
}

#[test]
fn external_move_reuses_missing_video_identity() {
    let mut index = VideoIndex::new();
    add_model(&mut index);
    let mut old = test_video(r"C:\Videos\old-name.mp4");
    old.partial_hash = Some("same-content".to_string());
    old.modified_unix_ms = 10;
    let old_id = index.upsert_video(&old);
    index
        .replace_frame_embeddings(
            old_id,
            "model",
            &vec![embedding(old_id, 0, 1.0, [1.0, 0.0, 0.0, 0.0])],
        )
        .unwrap();

    let mut moved = test_video(r"C:\Videos\new-name.mp4");
    moved.partial_hash = Some("same-content".to_string());
    moved.modified_unix_ms = 99;
    let rows = probes(&index, &moved);
    let moved_id = index
        .upsert_video_preserving_content_identity(&moved, &place(&moved.path), &rows, 7)
        .unwrap();

    assert_eq!(moved_id, old_id);
    assert_eq!(index.videos.len(), 1);
    assert_eq!(index.count_frame_embeddings(old_id, "model"), 1);
    let position = index.find_video_by_path(r"C:\Videos\new-name.mp4").unwrap();
    assert_eq!(index.videos[position].id, Some(old_id));
    assert_eq!(index.videos[position].modified_unix_ms, 99);
}

#[test]
fn external_move_replaces_lightweight_placeholder() {
    let mut index = VideoIndex::new();
    let session_id = index.create_or_reset_scan_session(r"C:\Videos", 1);

    let mut old = test_video(r"C:\Videos\old-name.mp4");
    old.partial_hash = Some("same-content".to_string());
    let old_id = index.upsert_video(&old);

    let mut placeholder = test_video(r"C:\Videos\new-name.mp4");
    placeholder.partial_hash = None;
    placeholder.duration_seconds = None;
    placeholder.sample_hashes.clear();
    placeholder.preview_images.clear();
    let placeholder_id = index.upsert_video(&placeholder);
    index.link_video_to_scan_session(session_id, placeholder_id).unwrap();

    let mut full = test_video(r"C:\Videos\new-name.mp4");
    full.partial_hash = Some("same-content".to_string());
    let rows = probes(&index, &full);
    let reused_id = index
        .upsert_video_preserving_content_identity(&full, &place(&full.path), &rows, 7)
        .unwrap();

    assert_eq!(reused_id, old_id);
    assert_eq!(index.videos.len(), 1);
    assert!(index.find_video_by_path(r"C:\Videos\new-name.mp4").is_some());
    let linked = index
        .links
        .iter()
        .filter(|link| link.session_id == session_id && link.video_id == old_id)
        .count();
    assert_eq!(linked, 1);
}

#[test]
fn content_identity_migration_skips_occupied_target_path() {
    let mut index = VideoIndex::new();
    let mut old = test_video(r"C:\Videos\old-name.mp4");
    old.partial_hash = Some("same-content".to_string());
    let old_id = index.upsert_video(&old);

    let mut occupied = test_video(r"C:\Videos\new-name.mp4");
    occupied.partial_hash = Some("same-content".to_string());
    let occupied_id = index.upsert_video(&occupied);

    let mut candidate = test_video(r"C:\Videos\new-name.mp4");
    candidate.partial_hash = Some("same-content".to_string());
    let rows = probes(&index, &candidate);
    let migrated = index
        .migrate_video_by_content_identity(&candidate, &place(&candidate.path), &rows, 7)
        .unwrap();

    assert_eq!(migrated, None);
    assert_eq!(index.videos.len(), 2);
    assert_eq!(is_at(&index, r"C:\Videos\old-name.mp4"), Some(old_id));
    assert_eq!(is_at(&index, r"C:\Videos\new-name.mp4"), Some(occupied_id));
}

#[test]
fn can_copy_embeddings_from_matching_video_identity() {
    let mut index = VideoIndex::new();
    add_model(&mut index);
    let mut source = test_video(r"C:\Videos\source.mp4");
    source.partial_hash = Some("same-content".to_string());
    let source_id = index.upsert_video(&source);
    let mut target = test_video(r"C:\Videos\target.mp4");
    target.partial_hash = Some("same-content".to_string());
    target.modified_unix_ms = 99;
    let target_id = index.upsert_video(&target);
    target.id = Some(target_id);

    index
        .replace_frame_embeddings(
            source_id,
            "model",
            &vec![
                embedding(source_id, 0, 1.0, [1.0, 0.0, 0.0, 0.0]),
                embedding(source_id, 1, 2.0, [0.0, 1.0, 0.0, 0.0]),
            ],
        )
        .unwrap();

    let rows = index
        .videos
        .iter()
        .map(|row| TimingProbe {
            duration_close: is_close(row.duration_seconds, target.duration_seconds),
            rate_close: is_close(row.frame_rate, target.frame_rate),
        })
        .collect();
    let source_match = index.find_embedding_source_by_video_identity(&rows, &target, "model", 2);
    assert_eq!(source_match, Some(source_id));

    let copied = index.copy_frame_embeddings_from_video(source_id, target_id, "model").unwrap();
    assert_eq!(copied, 2);
    assert_eq!(index.count_frame_embeddings(target_id, "model"), 2);
}

#[test]
fn delete_scan_session_bulk_removes_only_orphan_ai_rows() {
    let mut index = VideoIndex::new();
    add_model(&mut index);
    let source_a = r"C:\Videos\A";
    let source_b = r"C:\Videos\B";
    let session_a = index.create_or_reset_scan_session(source_a, 1);
    let session_b = index.create_or_reset_scan_session(source_b, 1);
    let only_a = index.upsert_video(&test_video(r"C:\Videos\A\only-a.mp4"));
    let shared = index.upsert_video(&test_video(r"C:\Videos\shared.mp4"));
    let only_b = index.upsert_video(&test_video(r"C:\Videos\B\only-b.mp4"));
    index.link_video_to_scan_session(session_a, only_a).unwrap();
    index.link_video_to_scan_session(session_a, shared).unwrap();
    index.link_video_to_scan_session(session_b, shared).unwrap();
    index.link_video_to_scan_session(session_b, only_b).unwrap();

    index
        .replace_frame_embeddings(
            only_a,
            "model",
            &vec![embedding(only_a, 0, 0.0, [1.0, 0.0, 0.0, 0.0])],
        )
        .unwrap();
    index
        .replace_frame_embeddings(
            shared,
            "model",
            &vec![embedding(shared, 0, 0.0, [0.0, 1.0, 0.0, 0.0])],
        )
        .unwrap();
    index
        .upsert_ai_pair_scores(vec![
            pair_score(only_a, shared, "active"),
            pair_score(only_a, only_b, "active"),
            pair_score(shared, only_b, "active"),
        ])
        .unwrap();

    index.delete_scan_session(session_a).unwrap();

    assert_eq!(index.sessions.len(), 1);
    assert_eq!(index.videos.len(), 2);
    assert_eq!(index.frame_embeddings.len(), 1);
    assert!(index.videos.iter().any(|video| video.id == Some(shared)));
    assert!(index.videos.iter().any(|video| video.id == Some(only_b)));
    assert!(!index.videos.iter().any(|video| video.id == Some(only_a)));

    let (remaining, _) =
        index.list_ai_pair_scores_chunked("model", "active", &vec![shared, only_b], 10);
    assert_eq!(remaining.len(), 1);
    let score = &index.pair_scores[remaining[0]];
    assert_eq!((score.video_a_id, score.video_b_id), edge_key_for_test(shared, only_b));
}

fn edge_key_for_test(left: i64, right: i64) -> (i64, i64) {
    if left < right {
        (left, right)
    } else {
        (right, left)
    }
}
