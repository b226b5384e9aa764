use duplicate_video_search::ai_groups::{connected_ai_groups, AiEdge};
use duplicate_video_search::ai_index::frame_similarity_threshold;
use duplicate_video_search::ai_matching::keep_good_edges;
use duplicate_video_search::ai_report::{build_ai_group, expansion_threshold, GroupFigures};
use duplicate_video_search::alignment::{alignment_ranges, may_match, Alignment, TieBreaks};
use duplicate_video_search::double::Double;
use duplicate_video_search::index::VideoIndex;
use duplicate_video_search::local_preprocess::expected_ai_frame_count;
use duplicate_video_search::media::video_has_full_scan;
use duplicate_video_search::models::{AppSettings, FrameEmbeddingRecord, MatchGroup, VideoRecord};
use duplicate_video_search::nas_preprocess::map_smb_path_to_remote;
use duplicate_video_search::stretches::{score_pair, PairFigures};
use duplicate_video_search::upkeep::TimingProbe;

fn double(value: f64) -> Double {
    Double::of(value.to_bits())
}

fn value(number: Double) -> f64 {
    f64::from_bits(number.bits)
}

fn test_settings() -> AppSettings {
    AppSettings {
        ui_language: "zh".to_string(),
        backup_dir: String::new(),
        naming_source_dirs: Vec::new(),
        keeper_size_priority_duration_seconds: double(300.0),
        scan_worker_count: 1,
        sample_hash_count: 3,
        temporal_hash_threshold: 8,
        min_temporal_match_points: 3,
        allowed_unmatched_sample_frames: 14,
        allow_direct_delete: false,
        restrict_scan_to_test_path: true,
        compare_within_same_folder: false,
        ai_vision_enabled: true,
        ai_model_path: String::new(),
        ai_device: "auto".to_string(),
        ai_frame_count: 8,
        ai_batch_size: 32,
        ai_similarity_threshold: double(0.86),
        ai_min_matched_frames: 8,
        ai_clip_matching_enabled: true,
        ai_index_after_scan: false,
        ai_extract_worker_count: 4,
        ai_gpu_worker_count: 4,
        ai_match_worker_count: 8,
        ai_frame_cache_enabled: true,
        delete_ai_frame_cache_after_index: false,
        ram_disk_enabled: true,
        ram_disk_size_mb: 16 * 1024,
        ram_disk_setup_completed: false,
        local_preprocess_enabled: true,
        local_preprocess_video_workers: 1,
        local_preprocess_overlap_start_percent: 95,
        local_preprocess_process_workers: 2,
        local_preprocess_frame_workers: 16,
        local_preprocess_temp_dir: String::new(),
        local_preprocess_secondary_temp_dir: String::new(),
        local_preprocess_secondary_threshold_mb: 16 * 1024,
        nas_ssh_preprocess_enabled: false,
        nas_ssh_host: String::new(),
        nas_ssh_user: String::new(),
        nas_ssh_password: String::new(),
        nas_ssh_host_key: String::new(),
        nas_ssh_port: 22,
        nas_remote_root: String::new(),
        nas_smb_root: String::new(),
        nas_ssh_ffmpeg_workers: 1,
    }
}

fn full_video(path: &str, preview_path: &str) -> VideoRecord {
    VideoRecord {
        id: None,
        path: path.to_string(),
        file_name: path.rsplit('\\').next().unwrap_or(path).to_string(),
        parent_path: r"\\EXAMPLE-NAS\Test".to_string(),
        size_bytes: 1024,
        modified_unix_ms: 1,
        extension: "mp4".to_string(),
        container_format: Some("mov,mp4".to_string()),
        duration_seconds: Some(double(60.0)),
        width: Some(1920),
        height: Some(1080),
        bitrate: Some(1_000_000),
        codec: Some("h264".to_string()),
        frame_rate: Some(double(30.0)),
        audio_codec: Some("aac".to_string()),
        partial_hash: Some("partial-hash".to_string()),
        sample_hashes: vec!["a".to_string(), "b".to_string(), "c".to_string()],
        preview_images: vec![preview_path.to_string()],
        scan_status: "ok".to_string(),
        error: None,
        quality_score: double(1.0),
        scanned_at_unix_ms: 1,
    }
}

fn lightweight_video(path: &str) -> VideoRecord {
    VideoRecord {
        id: None,
        path: path.to_string(),
        file_name: path.rsplit('\\').next().unwrap_or(path).to_string(),
        parent_path: r"\\EXAMPLE-NAS\Test".to_string(),
        size_bytes: 1024,
        modified_unix_ms: 1,
        extension: "mp4".to_string(),
        container_format: None,
        duration_seconds: None,
        width: None,
        height: None,
        bitrate: None,
        codec: None,
        frame_rate: None,
        audio_codec: None,
        partial_hash: None,
        sample_hashes: Vec::new(),
        preview_images: Vec::new(),
        scan_status: "ok".to_string(),
        error: None,
        quality_score: double(0.0),
        scanned_at_unix_ms: 1,
    }
}

fn open_test_index() -> VideoIndex {
    let mut index = VideoIndex::new();
    index.upsert_embedding_model("model", "test", 1, "test-runtime", "model.onnx", "hash", 1);
    index
}

fn insert_embeddings(index: &mut VideoIndex, video_id: i64, count: usize) {
    let embeddings = (0..count)
        .map(|frame_index| FrameEmbeddingRecord {
            video_id,
            model_id: "model".to_string(),
            frame_index,
            timestamp_seconds: double(frame_index as f64),
            embedding: vec![1.0f32.to_bits()],
            norm: double(1.0),
        })
        .collect::<Vec<_>>();
    index.replace_frame_embeddings(video_id, "model", &embeddings).unwrap();
}

fn cosine(left: &FrameEmbeddingRecord, right: &FrameEmbeddingRecord) -> f64 {
    left.embedding
        .iter()
        .zip(&right.embedding)
        .map(|(a, b)| f32::from_bits(*a) as f64 * f32::from_bits(*b) as f64)
        .sum()
}

struct Sums {
    counts: Vec<Vec<usize>>,
    sums: Vec<Vec<f64>>,
}

fn is_better(count: usize, sum: f64, best_count: usize, best_sum: f64) -> bool {
    count > best_count || (count == best_count && sum > best_sum + f64::EPSILON)
}

fn align(
    short: &[FrameEmbeddingRecord],
    long: &[FrameEmbeddingRecord],
    threshold: f64,
    clip_matching: bool,
) -> (Vec<(usize, usize)>, f64) {
    let similar = |row: usize, column: usize| cosine(&short[row], &long[column]);
    let hits = (0..short.len())
        .map(|row| {
            (0..long.len())
                .map(|column| {
                    may_match(clip_matching, row, column) && similar(row, column) >= threshold
                })
                .collect::<Vec<_>>()
        })
        .collect::<Vec<_>>();
    let mut alignment = Alignment::new(hits.clone(), long.len());
    let mut table = Sums {
        counts: vec![vec![0; long.len() + 1]; short.len() + 1],
        sums: vec![vec![0.0; long.len() + 1]; short.len() + 1],
    };
    for row in 1..=short.len() {
        for column in 1..=long.len() {
            let at = |r: usize, c: usize| (table.counts[r][c], table.sums[r][c]);
            let up = at(row - 1, column);
            let left = at(row, column - 1);
            let corner = at(row - 1, column - 1);
            let own = (corner.0 + 1, corner.1 + similar(row - 1, column - 1));
            let ties = TieBreaks {
                left_over_up: left.1 > up.1 + f64::EPSILON,
                match_over_up: own.1 > up.1 + f64::EPSILON,
                match_over_left: own.1 > left.1 + f64::EPSILON,
            };
            alignment.add_cell(ties);
            let mut best = up;
            if is_better(left.0, left.1, best.0, best.1) {
                best = left;
            }
            if hits[row - 1][column - 1] && is_better(own.0, own.1, best.0, best.1) {
                best = own;
            }
            table.counts[row][column] = best.0;
            table.sums[row][column] = best.1;
        }
    }
    let points = alignment.points();
    assert_eq!(points.len(), table.counts[short.len()][long.len()]);
    (points, table.sums[short.len()][long.len()])
}

fn confidence(figures: (usize, f64, f64), threshold: f64, min_frames: usize) -> f64 {
    let (matched, average, coverage) = figures;
    if matched >= min_frames {
        let margin = ((average - threshold) / (1.0 - threshold).max(0.001)).clamp(0.0, 1.0);
        let strength = (matched as f64 / (min_frames as f64 * 2.0)).clamp(0.0, 1.0);
        (average + 0.08 * margin * strength + 0.02 * coverage.min(1.0)).clamp(0.0, 1.0)
    } else {
        (average * coverage * 0.65).clamp(0.0, 1.0)
    }
}

fn frames_of(index: &VideoIndex, id: i64) -> Vec<FrameEmbeddingRecord> {
    index
        .list_frames_of(id, "model")
        .into_iter()
        .map(|place| index.frame_embeddings[place].clone())
        .collect()
}

fn compare(index: &VideoIndex, settings: &AppSettings, left: i64, right: i64) -> AiEdge {
    let video = |id: i64| index.videos.iter().find(|video| video.id == Some(id)).unwrap();
    let (short, long) = (video(left), video(right));
    let (a, b) = (frames_of(index, left), frames_of(index, right));
    let threshold = value(frame_similarity_threshold(settings));
    let (points, sum) = align(&a, &b, threshold, settings.ai_clip_matching_enabled);
    let average = if points.is_empty() { 0.0 } else { sum / points.len() as f64 };
    let coverage = points.len() as f64 / a.len().min(b.len()).max(1) as f64;
    let sure = confidence((points.len(), average, coverage), threshold, 8);
    let figures = PairFigures {
        confidence: double(sure),
        matched: points.len(),
        average_similarity: double(average),
        coverage: double(coverage),
    };
    score_pair(short, long, a.len(), b.len(), figures, None, None)
}

fn match_groups(
    index: &mut VideoIndex,
    videos: &Vec<VideoRecord>,
    settings: &AppSettings,
    min_confidence: f64,
) -> Vec<MatchGroup> {
    let start = index
        .build_ai_match_groups_with_progress(
            videos,
            settings,
            true,
            &settings.ai_model_path,
            &None,
            "0.8600",
            double(min_confidence),
        )
        .unwrap();
    let computed = start
        .missing
        .iter()
        .map(|(left, right)| compare(index, settings, *left, *right))
        .collect::<Vec<_>>();
    index.store_pair_scores(&start, &computed, 5).unwrap();
    let mut edges = start.edges.clone();
    edges.extend(keep_good_edges(computed, start.min_confidence));
    let average = |links: &Vec<usize>| {
        let total = links.iter().map(|link| value(edges[*link].confidence)).sum::<f64>();
        double(total / links.len().max(1) as f64)
    };
    let ids = videos.iter().filter_map(|video| video.id).collect::<Vec<_>>();
    let drafts =
        connected_ai_groups(&ids, &edges, expansion_threshold(start.min_confidence), &average);
    index.prune_ai_pair_score_cache_keys(&start.model_id, &start.cache_key);
    drafts
        .iter()
        .filter_map(|draft| {
            let figures = GroupFigures {
                confidence: average(&draft.links),
                similarity_percent: 100,
                lowest_percent: 100,
                coverage_percent: 100,
            };
            let close = vec![vec![true; draft.ids.len()]; draft.ids.len()];
            build_ai_group(videos, &edges, draft, figures, &close)
        })
        .collect()
}

#[test]
fn folder_scope_filters_new_and_cached_ai_pairs() {
    let mut index = open_test_index();
    let mut settings = test_settings();
    settings.ai_model_path = r"C:\models\model.onnx".to_string();
    settings.ai_device = "cpu".into();
    index.upsert_embedding_model(
        "model",
        "test",
        1,
        "test-runtime",
        &settings.ai_model_path,
        "hash",
        1,
    );
    let mut videos = Vec::new();
    for path in [r"C:\Videos\a.mp4", r"C:\Videos\b.mp4", r"C:\Videos\Child\c.mp4"] {
        let mut video = full_video(path, "unused.jpg");
        let id = index.upsert_video(&video);
        video.id = Some(id);
        insert_embeddings(&mut index, id, 8);
        videos.push(video);
    }
    settings.compare_within_same_folder = true;
    let restricted = match_groups(&mut index, &videos, &settings, 0.5);
    assert_eq!(restricted.len(), 1);
    assert_eq!(restricted[0].item_count, 2);
    assert_eq!(index.pair_scores.len(), 1);
    settings.compare_within_same_folder = false;
    let global = match_groups(&mut index, &videos, &settings, 0.5);
    assert_eq!(global[0].item_count, 3);
    assert_eq!(index.pair_scores.len(), 3);
    settings.compare_within_same_folder = true;
    let cached = match_groups(&mut index, &videos, &settings, 0.5);
    assert_eq!(cached.len(), 1);
    assert_eq!(cached[0].item_count, 2);
    assert_eq!(index.pair_scores.len(), 3);
}

fn test_embedding(frame_index: usize, values: &[f32]) -> FrameEmbeddingRecord {
    FrameEmbeddingRecord {
        video_id: 1,
        model_id: "model".to_string(),
        frame_index,
        timestamp_seconds: double(frame_index as f64),
        embedding: values.iter().map(|value| value.to_bits()).collect(),
        norm: double(1.0),
    }
}

#[test]
fn monotonic_match_summary_uses_precomputed_similarity_matrix() {
    let short = vec![
        test_embedding(0, &[1.0, 0.0, 0.0]),
        test_embedding(1, &[0.0, 1.0, 0.0]),
        test_embedding(2, &[0.0, 0.0, 1.0]),
    ];
    let long = vec![
        test_embedding(0, &[1.0, 0.0, 0.0]),
        test_embedding(1, &[0.0, 1.0, 0.0]),
        test_embedding(2, &[0.0, 0.0, 1.0]),
    ];
    let (points, sum) = align(&short, &long, 0.99, true);

    assert_eq!(points.len(), 3);
    assert!((sum / points.len() as f64 - 1.0).abs() < 0.0001);
    let (short_range, long_range) = alignment_ranges(&points).unwrap();
    assert_eq!(Some(short_range), Some((0, 2)));
    assert_eq!(Some(long_range), Some((0, 2)));
}

fn timing(index: &VideoIndex) -> Vec<TimingProbe> {
    index.videos.iter().map(|_| TimingProbe { duration_close: false, rate_close: false }).collect()
}

#[test]
fn reuses_existing_ai_index_for_full_scan_video() {
    let settings = test_settings();
    let mut index = open_test_index();
    let mut video = full_video(r"\\EXAMPLE-NAS\Test\full.mp4", r"C:\Temp\preview.jpg");
    let video_id = index.upsert_video(&video);
    video.id = Some(video_id);
    insert_embeddings(&mut index, video_id, 8);

    let full_scan = video_has_full_scan(&video, &settings, &vec![true]);
    let expected = expected_ai_frame_count(&video, settings.ai_frame_count);
    let probes = timing(&index);
    assert!(index
        .try_reuse_existing_ai_index(&video, full_scan, expected, &probes, "model", false)
        .unwrap());
}

#[test]
fn does_not_reuse_existing_ai_index_for_lightweight_video() {
    let settings = test_settings();
    let mut index = open_test_index();
    let mut video = lightweight_video(r"\\EXAMPLE-NAS\Test\lightweight.mp4");
    let video_id = index.upsert_video(&video);
    video.id = Some(video_id);
    insert_embeddings(&mut index, video_id, 8);

    let full_scan = video_has_full_scan(&video, &settings, &vec![]);
    let expected = expected_ai_frame_count(&video, settings.ai_frame_count);
    let probes = timing(&index);
    assert!(!index
        .try_reuse_existing_ai_index(&video, full_scan, expected, &probes, "model", false)
        .unwrap());
}

fn nas_settings() -> AppSettings {
    let mut settings = test_settings();
    settings.sample_hash_count = 11;
    settings.ai_frame_count = 128;
    settings.local_preprocess_enabled = false;
    settings.nas_ssh_preprocess_enabled = true;
    settings.nas_ssh_host = "nas".to_string();
    settings.nas_ssh_user = "user".to_string();
    settings.nas_remote_root = "/mnt/pool/Test".to_string();
    settings.nas_smb_root = r"\\EXAMPLE-NAS\Test".to_string();
    settings
}

#[test]
fn maps_smb_path_to_remote_root() {
    let settings = nas_settings();
    assert_eq!(
        map_smb_path_to_remote(r"\\EXAMPLE-NAS\Test\Example\a.mp4", &settings).unwrap(),
        "/mnt/pool/Test/Example/a.mp4"
    );
}

#[test]
fn rejects_paths_outside_smb_root() {
    let settings = nas_settings();
    assert!(map_smb_path_to_remote(r"\\EXAMPLE-NAS\Other\a.mp4", &settings).is_err());
}
