use duplicate_video_search::ai_groups::{
    connected_ai_groups, edge_from_pair_score, edge_key, match_refresh_progress_with_phase_speed,
    pair_count, pair_count_for_left_count, pair_score_from_edge, AiEdge, AiEdgeMatchRange,
};
use duplicate_video_search::ai_index::{
    ai_match_cache_key, ai_model_status, ai_worker_count, build_ai_index_with_progress,
    check_direct_frames, common_embedding_dimension, frame_cache_to_delete, frame_source,
    indexable_videos, output_layout, pair_chunks, prepare_model, remaining_videos,
    resolve_model_path, worker_outcome, AiWorkerOutcome, FrameSource, IndexVideoOutcome,
    OutputLayout, Preparation,
};
use duplicate_video_search::ai_report::{
    classify_relation, format_seconds_compact, is_keeper_below, tell_relation, Relation,
};
use duplicate_video_search::cancel::{bail_if_requested, is_requested, request, reset, CancelFlag};
use duplicate_video_search::double::Double;
use duplicate_video_search::groups::{compare_quality, QualityFacts};
use duplicate_video_search::local_preprocess::{
    check_copied_size, copy_overlap_reached, current_roots_label, expected_ai_frame_count,
    falls_back, first_disk, has_write_room, is_run_staging_dir, minimum_usable_frame_count,
    options_from_settings, preprocess_ai_frame_cache, preprocess_ai_frame_cache_with_ready,
    push_recent_error, same_staging_base, stage_file_name, threshold_bytes,
    validate_source_metadata, CapacityChoice, CopyPacer, DiskCapacity, DiskCapacityGate,
    PipelineEvent, SourceFacts, StagingDisk,
};
use duplicate_video_search::matching::{compare_pair, DurationRelation, MatchOptions, PairFinding};
use duplicate_video_search::media::{
    check_import, command_first_line, command_input_path, current_indexed_video,
    display_path_text, expected_sample_hash_count, filesystem_input_path, frame_of_output,
    is_usable_pack, is_video_path, is_wanted_entry, minimum_usable_ai_frame_count, needs_copy,
    parse_probe_output, parse_u64, prune_stale_ai_frame_cache, prune_unreferenced_thumbnails,
    read_ai_frame_pack, resolve_tool, sample_count, tool_candidates, tool_status,
    write_ai_frame_cache, FoundTool, ProbeFormat, ProbeOutput, ProbeStream, ToolChoice,
    AI_FRAME_BYTES,
};
use duplicate_video_search::models::{
    AppSettings, FrameEmbeddingRecord, MatchDetail, MatchGroup, MatchItem, MatchRange, VideoRecord,
};
use duplicate_video_search::nas_preprocess::{
    check_manifest_version, check_remote_video, judge_remote, map_smb_path_to_remote,
    order_remote_frames, plink_args, plink_target, program_failure_text, ssh_args, ssh_target,
    NasRun, RemoteChoice, RemoteOutcome,
};
use duplicate_video_search::nas_script::remote_script;
use duplicate_video_search::paths::{Host, Root};
use duplicate_video_search::ram_disk::{
    cache_path, choose_drive_letter, clamp_size, command_arguments, configure_elevated,
    drive_candidates, encode_utf16le_with_bom, handle_elevated_arguments, parse_drive_letter,
    release_managed_drive, status_for_cache, task_description, xml_escape, DiskProbe,
    ElevatedCommand, ReleaseNext, ReleaseRun, SetupStep, TaskRamDisk, Waiting, REMOVAL_CHECKS,
    TASK_CHECKS,
};
use duplicate_video_search::reports::{
    ai_group_report, build_report, finding_evidence, FindingTexts, VideoTexts,
};
use duplicate_video_search::settings::default_settings;
use duplicate_video_search::stretches::{
    ai_group_detail_pair_count, apply_pair_display_detail, list_details, list_ranges,
    merge_match_range, merged_match_ranges, order_ranges, score_pair, PairDisplayDetail,
    PairFigures,
};

fn work() -> Root {
    Root { path: r"D:\Work".to_string(), host: Host::Windows }
}

fn double(value: f64) -> Double {
    Double::of(value.to_bits())
}

fn value(number: Double) -> f64 {
    f64::from_bits(number.bits)
}

fn settings() -> AppSettings {
    default_settings(&work())
}

fn video(id: i64, path: &str) -> VideoRecord {
    VideoRecord {
        id: Some(id),
        path: path.to_string(),
        file_name: path.rsplit('\\').next().unwrap_or(path).to_string(),
        parent_path: r"C:\v".to_string(),
        size_bytes: 100,
        modified_unix_ms: 50_000,
        extension: "mp4".to_string(),
        container_format: None,
        duration_seconds: Some(double(10.0)),
        width: Some(1920),
        height: Some(1080),
        bitrate: Some(4_000_000),
        codec: Some("h264".to_string()),
        frame_rate: Some(double(30.0)),
        audio_codec: None,
        partial_hash: Some("same".to_string()),
        sample_hashes: vec![],
        preview_images: vec![],
        scan_status: "ok".to_string(),
        error: None,
        quality_score: double(1.0),
        scanned_at_unix_ms: 1,
    }
}

fn edge(a: i64, b: i64, confidence: f64) -> AiEdge {
    AiEdge {
        a,
        b,
        confidence: double(confidence),
        matched: 8,
        compared: 9,
        average_similarity: double(0.9),
        coverage: double(0.8),
        match_ranges: vec![],
    }
}

#[test]
fn work_can_be_cancelled() {
    let mut flag = CancelFlag { requested: false };
    assert!(bail_if_requested(&flag).is_ok());
    request(&mut flag);
    assert!(is_requested(&flag));
    assert_eq!(bail_if_requested(&flag), Err("operation cancelled".to_string()));
    reset(&mut flag);
    assert!(!is_requested(&flag));
}

#[test]
fn normal_options_stay() {
    let mut options = MatchOptions::default();
    assert_eq!(options.normalized(), options);
    options.temporal_hash_threshold = 999;
    options.min_confidence = double(7.0);
    options.keeper_size_priority_duration_seconds = double(f64::NAN);
    let normal = options.normalized();
    assert_eq!(normal.normalized(), normal);
    assert_ne!(normal, options);
}

#[test]
fn same_content_is_an_exact_copy() {
    let relation = DurationRelation { delta: Some(double(0.0)), ratio: Some(double(1.0)) };
    let (a, b) = (video(1, "a"), video(2, "b"));
    let found = compare_pair(&a, &b, relation, MatchOptions::default());
    assert_eq!(found, Some(PairFinding::Exact));
    let mut failed = video(2, "b");
    failed.scan_status = "failed".to_string();
    assert_eq!(compare_pair(&a, &failed, relation, MatchOptions::default()), None);
    let mut other = video(2, "b");
    other.partial_hash = None;
    assert_eq!(compare_pair(&a, &other, relation, MatchOptions::default()), None);
}

#[test]
fn ranking_is_one_way_and_decides() {
    let videos = vec![video(1, "a"), video(2, "b")];
    for close in [true, false] {
        let facts = QualityFacts {
            duration_bucket: vec![1, 1],
            frame_rate_bucket: vec![300, 300],
            durations_within: vec![vec![close; 2]; 2],
        };
        let one = compare_quality(&videos, &facts, 0, 1);
        let other = compare_quality(&videos, &facts, 1, 0);
        assert!(one != other);
        let kept = is_keeper_below(&videos[0], &videos[1], close);
        assert!(!(kept && is_keeper_below(&videos[1], &videos[0], close)));
    }
}

#[test]
fn stored_comparison_is_read_back() {
    let own = edge(1, 2, 0.75);
    let read = edge_from_pair_score(&pair_score_from_edge(&own, "model", "key", 9));
    assert_eq!(format!("{own:?}"), format!("{read:?}"));
    assert_eq!(edge_key(5, 2), (2, 5));
}

#[test]
fn all_first_items_give_all_pairs() {
    assert_eq!(pair_count(5), 10);
    assert_eq!(pair_count_for_left_count(5, 5), 10);
    assert_eq!(pair_count_for_left_count(5, 1), 4);
    assert_eq!(pair_count(0), 0);
    let told = match_refresh_progress_with_phase_speed(
        "scoring-pairs",
        3,
        10,
        12,
        1,
        2,
        0,
        double(1.0),
        9,
        4,
        double(2.0),
    );
    assert_eq!((told.processed_pairs, told.phase_processed), (10, 4));
}

#[test]
fn groups_are_fully_linked() {
    let edges = vec![edge(1, 2, 0.9), edge(2, 3, 0.85), edge(4, 5, 0.8)];
    let average = |links: &Vec<usize>| {
        double(links.iter().map(|link| value(edges[*link].confidence)).sum::<f64>())
    };
    let groups = connected_ai_groups(&vec![1, 2, 3, 4, 5], &edges, double(0.68), &average);
    let ids = groups.iter().map(|group| group.ids.clone()).collect::<Vec<_>>();
    assert_eq!(ids, vec![vec![1, 2], vec![4, 5]]);
}

#[test]
fn surest_video_joins_next() {
    let edges = vec![
        edge(1, 2, 0.9),
        edge(1, 3, 0.8),
        edge(2, 3, 0.8),
        edge(1, 4, 0.7),
        edge(2, 4, 0.7),
    ];
    let average = |links: &Vec<usize>| {
        let total = links.iter().map(|link| value(edges[*link].confidence)).sum::<f64>();
        double(total / links.len().max(1) as f64)
    };
    for ids in [vec![1, 2, 3, 4], vec![4, 3, 2, 1]] {
        let groups = connected_ai_groups(&ids, &edges, double(0.68), &average);
        assert_eq!(groups[0].ids, vec![1, 2, 3]);
    }
}

#[test]
fn chunks_cover_all_pairs() {
    for pairs in [1, 3, 17, 1_000] {
        let (workers, share) = pair_chunks(8, pairs);
        assert!(workers * share >= pairs);
        assert!(workers >= 1 && workers <= 8);
    }
    assert_eq!(pair_chunks(8, 17), (8, 3));
}

#[test]
fn vectors_lie_within_the_output() {
    let spans = output_layout(&vec![2, 4], 8, 2);
    assert!(matches!(spans, OutputLayout::Spans { stride: 4, length: 4 }));
    let means = output_layout(&vec![2, 3, 2, 2], 24, 2);
    assert!(matches!(means, OutputLayout::Means { channels: 3, spatial: 4 }));
}

#[test]
fn models_are_made_ready() {
    let bytes = Some(b"abc".to_vec());
    let model = prepare_model("m.onnx", &bytes).unwrap();
    assert!(model.model_hash.starts_with("ba7816bf8f01cfea"));
    assert!(prepare_model("m.onnx", &None).is_err());
    let mut own = settings();
    own.ai_vision_enabled = true;
    own.ai_model_path = "m.onnx".to_string();
    assert!(ai_model_status(&own, "m.onnx", &bytes).ready);
    assert!(!ai_model_status(&own, "m.onnx", &None).ready);
    own.ai_model_path = " ".to_string();
    assert_eq!(ai_model_status(&own, "", &bytes).message, "AI model path is empty");
    own.ai_vision_enabled = false;
    assert_eq!(ai_model_status(&own, "", &bytes).message, "AI vision matching is disabled");
    assert_eq!(resolve_model_path(r" C:\m.onnx ", true, &work()), r"C:\m.onnx");
    assert_eq!(resolve_model_path("m.onnx", false, &work()), r"D:\Work\m.onnx");
    let key = ai_match_cache_key(&own, "0.8600");
    assert!(key.starts_with("ai-match-v4|frames="));
    assert!(key.contains("|frame_threshold=0.8600|"));
}

#[test]
fn indexing_is_planned_and_counted() {
    let mut own = settings();
    own.ai_vision_enabled = false;
    let mut videos = vec![video(1, "a"), video(2, "b"), video(3, "c")];
    videos[1].scan_status = "failed".to_string();
    assert!(build_ai_index_with_progress(&own, &videos, false).is_err());
    own.ai_vision_enabled = true;
    own.ai_frame_cache_enabled = true;
    own.local_preprocess_enabled = false;
    let (mut run, places, preparation) = build_ai_index_with_progress(&own, &videos, true).unwrap();
    assert_eq!(places, vec![0, 2]);
    assert_eq!(preparation, Preparation::Nas);
    assert_eq!(indexable_videos(&videos), vec![0, 2]);
    assert_eq!(remaining_videos(&videos, vec![1]), vec![1, 2]);
    assert_eq!(run.loading().phase, "loading-model");
    run.reused_at_start("a".to_string());
    run.count_outcome(IndexVideoOutcome::Processed);
    run.count_outcome(IndexVideoOutcome::Failed("bad".to_string()));
    run.count_outcome(IndexVideoOutcome::InsufficientFrames("few".to_string()));
    run.count_outcome(IndexVideoOutcome::Skipped);
    run.note_errors(vec!["more".to_string()]);
    let model = prepare_model("m.onnx", &Some(vec![])).unwrap();
    let summary = run.summary(model, 5);
    assert_eq!((summary.processed, summary.skipped), (1, 2));
    assert_eq!((summary.insufficient_frames, summary.failed), (1, 1));
    assert_eq!(summary.recent_errors, vec!["bad", "more"]);
    assert_eq!(frame_source(&own), FrameSource::FilledCache);
    assert!(check_direct_frames(&own).is_ok());
    own.local_preprocess_enabled = true;
    assert_eq!(frame_source(&own), FrameSource::Cache);
    assert!(check_direct_frames(&own).is_err());
    own.ai_frame_cache_enabled = false;
    assert_eq!(frame_source(&own), FrameSource::Video);
    own.ai_device = "cpu".to_string();
    own.ai_extract_worker_count = 99;
    assert_eq!(ai_worker_count(&own, 3), 3);
    own.delete_ai_frame_cache_after_index = false;
    assert_eq!(frame_cache_to_delete(&videos[0], &own), None);
    let failed = worker_outcome("a", Ok(vec![]));
    assert!(matches!(failed, AiWorkerOutcome::Failed(text) if text.starts_with("a: ")));
}

#[test]
fn embeddings_of_one_length_are_compared() {
    let frame = |length: usize| FrameEmbeddingRecord {
        video_id: 1,
        model_id: "m".to_string(),
        frame_index: 0,
        timestamp_seconds: double(0.0),
        embedding: vec![0; length],
        norm: double(1.0),
    };
    assert_eq!(common_embedding_dimension(&vec![frame(3)], &vec![frame(3), frame(3)]), Some(3));
    assert_eq!(common_embedding_dimension(&vec![frame(3)], &vec![frame(2)]), None);
    assert_eq!(common_embedding_dimension(&vec![frame(0)], &vec![frame(0)]), None);
}

#[test]
fn copies_stay_within_the_limit() {
    let mut pacer = CopyPacer::new(2);
    let mut running = vec![];
    for round in 0..20 {
        if let Some(copy) = pacer.acquire() {
            running.push(copy);
        }
        assert!(pacer.active + pacer.available_starts <= 2);
        if round % 2 == 0 {
            if let Some(copy) = running.first().copied() {
                pacer.release_next_if_ready(copy);
            }
        } else if !running.is_empty() {
            pacer.finish_copy(running.remove(0));
        }
        assert!(pacer.active + pacer.available_starts <= 2);
    }
}

#[test]
fn enough_is_three_quarters() {
    for expected in 1..200 {
        let least = minimum_usable_frame_count(expected);
        assert_eq!(least, (expected * 3).div_ceil(4).max(1));
        assert_eq!(minimum_usable_ai_frame_count(expected), least);
        assert!(4 * least >= 3 * expected && least <= expected);
    }
}

#[test]
fn every_video_of_a_run_is_counted() {
    let mut own = settings();
    own.ai_vision_enabled = true;
    own.ai_frame_cache_enabled = true;
    let videos = vec![video(1, "a"), video(2, "b"), video(3, "c"), video(4, "d"), video(5, "e")];
    let cached = vec![true, false, false, false, false];
    let options = options_from_settings(&own);
    let plan = preprocess_ai_frame_cache_with_ready(&videos, &cached, &own, &options).unwrap();
    assert_eq!((plan.ready, plan.jobs), (vec![0], vec![1, 2, 3, 4]));
    let mut run = plan.run;
    for _ in 0..4 {
        run.note(&PipelineEvent::CopyStarted, "x");
    }
    run.note(&PipelineEvent::CopyStaged, "b");
    run.note(&PipelineEvent::Imported, "b");
    run.note(&PipelineEvent::CopySkipped, "c");
    run.note(&PipelineEvent::CopyStaged, "d");
    run.note(&PipelineEvent::TooFewFrames, "d");
    run.note(&PipelineEvent::CopyFailed("disk".to_string()), "e");
    assert!(run.is_complete() && run.copies_are_done());
    let summary = run.summary("roots".to_string());
    let counted =
        summary.imported + summary.skipped + summary.insufficient_frames + summary.failed;
    assert_eq!(counted, summary.total_videos);
    assert_eq!((summary.imported, summary.skipped), (1, 2));
    assert_eq!(summary.recent_errors.len(), 1);
    let alone = preprocess_ai_frame_cache(&videos, &cached, &own, &options).unwrap();
    assert!(alone.ready.is_empty());
    own.ai_vision_enabled = false;
    assert!(preprocess_ai_frame_cache(&videos, &cached, &own, &options).is_none());
}

#[test]
fn disks_are_shared_out() {
    let disk = |free_bytes: u64, total: u64| {
        Some(DiskCapacity { free_bytes, total_bytes: Some(total) })
    };
    let mut gate = DiskCapacityGate { reserved_bytes: 0 };
    assert_eq!(gate.acquire(10, disk(50, 100)), CapacityChoice::Take);
    assert_eq!(gate.reserved_bytes, 10);
    assert_eq!(gate.acquire(60, disk(50, 100)), CapacityChoice::Wait);
    assert_eq!(gate.acquire(200, disk(50, 100)), CapacityChoice::TooSmall);
    assert_eq!(gate.acquire(200, None), CapacityChoice::Take);
    gate.release(210);
    assert_eq!(gate.reserved_bytes, 0);
    assert_eq!(DiskCapacityGate::can_fit_single_request(200, disk(50, 100)), Some(false));
    assert!(has_write_room(50, disk(50, 100)) && !has_write_room(51, disk(50, 100)));
    assert_eq!(first_disk(10, true, 10), StagingDisk::Secondary);
    assert_eq!(first_disk(10, false, 10), StagingDisk::Primary);
    assert!(falls_back(true, Some(false)) && !falls_back(true, None));
    assert_eq!(threshold_bytes(2), 2_097_152);
    assert!(copy_overlap_reached(95, 100, 95) && !copy_overlap_reached(94, 100, 95));
    assert!(same_staging_base(r"C:\Temp\", "c:/temp"));
    assert_eq!(current_roots_label("a", &Some("b".to_string())), "a; b");
}

#[test]
fn sources_of_copies_are_checked() {
    let own = video(7, r"C:\v\a.mp4");
    let facts = SourceFacts { is_file: true, size_bytes: 100, modified_unix_ms: 50_000 };
    assert_eq!(validate_source_metadata(&own, "p", facts), Ok(50_000));
    let folder = SourceFacts { is_file: false, ..facts };
    assert!(validate_source_metadata(&own, "p", folder).is_err());
    let longer = SourceFacts { size_bytes: 101, ..facts };
    assert!(validate_source_metadata(&own, "p", longer).is_err());
    assert!(check_copied_size(100, 100).is_ok() && check_copied_size(99, 100).is_err());
    assert!(stage_file_name(&own).contains('7'));
    assert!(!is_run_staging_dir("other"));
    let mut errors = vec![];
    for number in 0..10 {
        push_recent_error(&mut errors, number.to_string());
    }
    assert_eq!(errors.len(), 8);
    assert_eq!((errors[0].as_str(), errors[7].as_str()), ("2", "9"));
    assert_eq!(expected_ai_frame_count(&own, 128), 128);
    let mut short = own.clone();
    short.duration_seconds = Some(double(6.0));
    assert_eq!(expected_ai_frame_count(&short, 128), 1);
}

#[test]
fn shares_are_shown_as_they_were() {
    let host = Host::Windows;
    let path = r"\\NAS\Share\a.mp4";
    assert_eq!(command_input_path(host, path, true), r"\\?\UNC\NAS\Share\a.mp4");
    assert_eq!(display_path_text(host, &command_input_path(host, path, true)), path);
    assert_eq!(filesystem_input_path(host, path, true, false, true), path);
    assert_eq!(filesystem_input_path(host, path, true, true, true), command_input_path(host, path, true));
    let other = r"\\?\UNC\NAS\Share\a.mp4";
    assert_eq!(display_path_text(Host::Other, other), other);
    assert_eq!(command_input_path(Host::Other, "/v/a.mp4", true), "/v/a.mp4");
    assert_eq!(filesystem_input_path(Host::Other, "/v/a.mp4", true, true, true), "/v/a.mp4");
}

#[test]
fn frames_are_read_back() {
    let frames = vec![vec![7u8; AI_FRAME_BYTES], vec![9u8; AI_FRAME_BYTES]];
    let positions = vec![double(0.5), double(1.5)];
    let files = write_ai_frame_cache("a.mp4", 2, "k.rgb", positions.clone(), frames.clone());
    let files = files.unwrap().unwrap();
    assert_eq!(files.bytes.len(), 2 * AI_FRAME_BYTES);
    let pack = read_ai_frame_pack(files.manifest.clone(), &files.bytes).unwrap();
    assert_eq!(pack.frames, frames);
    assert_eq!(pack.positions, positions);
    assert!(is_usable_pack(&pack, 2) && !is_usable_pack(&pack, 8));
    assert!(read_ai_frame_pack(files.manifest.clone(), &vec![0; 5]).is_none());
    let mut newer = files.manifest;
    newer.version += 1;
    assert!(read_ai_frame_pack(newer, &files.bytes).is_none());
    let short = vec![vec![1u8; 3]];
    assert!(write_ai_frame_cache("a", 1, "k", vec![double(0.0)], short.clone()).is_err());
    assert!(write_ai_frame_cache("a", 1, "k", vec![], vec![]).unwrap().is_none());
    assert!(check_import(1, &short, 1).is_err());
    assert_eq!(check_import(0, &vec![], 1), Ok(false));
    assert!(frame_of_output(&vec![0; 9]).is_err());
    assert_eq!(frame_of_output(&vec![1; AI_FRAME_BYTES + 3]).unwrap().len(), AI_FRAME_BYTES);
}

#[test]
fn tools_tell_of_files() {
    let stream = |kind: &str, codec: &str| ProbeStream {
        codec_type: Some(kind.to_string()),
        codec_name: Some(codec.to_string()),
        width: Some(640),
        height: Some(480),
        frame_rate: Some(double(25.0)),
        bit_rate: Some("12".to_string()),
        duration: Some(double(3.0)),
    };
    let output = ProbeOutput {
        streams: vec![stream("audio", "aac"), stream("video", "h264")],
        format: Some(ProbeFormat {
            format_name: Some("mp4".to_string()),
            duration: Some(double(4.0)),
            bit_rate: Some("99".to_string()),
        }),
    };
    let info = parse_probe_output(&output);
    assert_eq!(info.codec.as_deref(), Some("h264"));
    assert_eq!(info.audio_codec.as_deref(), Some("aac"));
    assert_eq!(info.bitrate, Some(12));
    assert_eq!(info.duration_seconds, Some(double(4.0)));
    assert_eq!(parse_u64(&Some("x".to_string())), None);
    assert_eq!(parse_u64(&Some("18446744073709551616".to_string())), None);
    assert_eq!(command_first_line("a b\nc"), Some("a b".to_string()));
    assert_eq!(tool_candidates(" a \r\nb"), vec!["a", "b"]);
    let found = FoundTool { path: "f".to_string(), version_output: Some("v1\nv2".to_string()) };
    let status = tool_status(&work(), &Some(found), &None);
    assert_eq!(status.ffmpeg_version, Some("v1".to_string()));
    assert_eq!(status.ffprobe_path, None);
    assert_eq!(resolve_tool(false, false, true), ToolChoice::Found);
    assert_eq!(resolve_tool(true, true, true), ToolChoice::Named);
    assert!(needs_copy("a", "b", false) && !needs_copy("A/x", r"a\X", false));
}

#[test]
fn files_of_a_source_are_chosen() {
    let mp4 = Some("MP4".to_string());
    assert!(is_video_path(&mp4));
    assert!(!is_video_path(&Some("txt".to_string())) && !is_video_path(&None));
    let excluded = vec![r"C:\bin".to_string()];
    assert!(is_wanted_entry(Host::Windows, r"C:\v\a.mp4", &mp4, false, true, &excluded));
    assert!(!is_wanted_entry(Host::Windows, r"C:\bin\a.mp4", &mp4, false, true, &excluded));
    assert!(is_wanted_entry(Host::Windows, r"C:\v", &None, true, false, &excluded));
    assert_eq!(expected_sample_hash_count(Some(double(100.0)), 99), 20);
    assert_eq!(sample_count(None, 9), 1);
    assert_eq!(sample_count(Some(double(60.0)), 9), 9);
    let mut own = settings();
    own.ai_frame_cache_enabled = false;
    own.sample_hash_count = 1;
    let mut known = video(1, "a");
    known.sample_hashes = vec!["h".to_string(); 20];
    known.preview_images = vec!["p".to_string()];
    let found = vec![true];
    assert!(current_indexed_video(&known, 100, 50_000, &own, &found, true));
    assert!(!current_indexed_video(&known, 101, 50_000, &own, &found, true));
    let videos = vec![known];
    let texts = vec!["10.000".to_string()];
    let stems = vec![Some("none".to_string())];
    assert_eq!(prune_stale_ai_frame_cache(&videos, &texts, 128, &stems), vec![0]);
    let pictures = vec!["p".to_string(), "q".to_string()];
    assert_eq!(prune_unreferenced_thumbnails(Host::Windows, &videos, &pictures), vec![1]);
}

#[test]
fn files_keep_apart_on_the_server() {
    let mut own = settings();
    own.nas_remote_root = "/mnt/pool".to_string();
    own.nas_smb_root = r"\\NAS\Share".to_string();
    let there = |path: &str| map_smb_path_to_remote(path, &own);
    assert_eq!(there(r"\\NAS\Share\a.mp4").unwrap(), "/mnt/pool/a.mp4");
    assert_eq!(there(r"\\NAS\Share\").unwrap(), "/mnt/pool");
    assert_ne!(there(r"\\NAS\Share\a.mp4"), there(r"\\NAS\Share\b.mp4"));
    assert_eq!(there(r"\\NAS\Share\a\b.mp4"), there("//NAS/Share/a/b.mp4"));
    assert!(there(r"\\NAS\Share2\a.mp4").is_err());
    assert!(check_manifest_version(1).is_ok() && check_manifest_version(2).is_err());
    let videos = vec![video(1, "a"), video(2, "b")];
    assert_eq!(judge_remote("ok", 2, &videos), RemoteChoice::Import(1));
    assert_eq!(judge_remote("ok", 3, &videos), RemoteChoice::Unknown);
    assert_eq!(judge_remote("failed", 2, &videos), RemoteChoice::Refused);
    assert!(check_remote_video(Some(5), 5, false, "1.000", "1.000").is_ok());
    assert!(check_remote_video(Some(6), 5, false, "1.000", "1.000").is_err());
    assert!(check_remote_video(Some(5), 5, true, "9.000", "1.000").is_err());
    assert_eq!(order_remote_frames(&vec![3, 1, 2, 1]), vec![1, 3, 2, 0]);
}

#[test]
fn the_server_is_reached() {
    let mut own = settings();
    own.nas_ssh_user = " me ".to_string();
    own.nas_ssh_host = "nas".to_string();
    assert_eq!(ssh_target(&own), "me@nas");
    assert_eq!(plink_target(&own).unwrap(), "me@nas");
    assert!(ssh_args(&own, "me@nas").contains(&"me@nas".to_string()));
    assert!(plink_args(&own, "me@nas", true).contains(&"-batch".to_string()));
    own.nas_ssh_user = String::new();
    assert_eq!(ssh_target(&own), "nas");
    assert!(plink_target(&own).is_err());
    own.nas_ssh_user = "me".to_string();
    own.nas_ssh_host = String::new();
    assert!(plink_target(&own).is_err());
    assert_eq!(program_failure_text("tar", "a\nb"), "tar failed: a | b");
    let script = remote_script("{\"videos\":[]}");
    assert!(script.starts_with("set -euo pipefail"));
    assert!(script.contains("\n{\"videos\":[]}\nDVS_JSON\n"));
    let plan = duplicate_video_search::nas_preprocess::NasPlan {
        frame_count: 8,
        workers: 1,
        skipped: 2,
        requests: vec![],
    };
    let mut run = NasRun::start(&plan);
    run.note("a", &RemoteOutcome::Imported);
    run.note("b", &RemoteOutcome::Refused(Some("no".to_string())));
    run.note("c", &RemoteOutcome::Incomplete);
    let summary = run.summary(None);
    assert_eq!((summary.imported, summary.failed, summary.skipped), (1, 2, 2));
    assert_eq!(summary.recent_errors.len(), 2);
}

fn probe() -> DiskProbe {
    DiskProbe {
        supported: true,
        driver_installed: true,
        mounted: false,
        cache_is_dir: false,
        root_exists: false,
        marker_exists: false,
        capacity_mb: None,
    }
}

#[test]
fn cache_folder_names_its_drive() {
    for letter in ['R', 'Z'] {
        assert_eq!(parse_drive_letter(&cache_path(Host::Windows, letter)), Some(letter));
    }
    assert_eq!(clamp_size(1), 512);
    assert_eq!(clamp_size(usize::MAX), 1_048_576);
    let letters = drive_candidates(r"S:\TEMP");
    assert_eq!(letters[0], 'S');
    let free = vec![probe(); letters.len()];
    assert_eq!(choose_drive_letter(&letters, &free, 1024), Ok('S'));
    let taken = vec![DiskProbe { root_exists: true, ..probe() }; letters.len()];
    assert!(choose_drive_letter(&letters, &taken, 1024).is_err());
}

#[test]
fn foreign_drives_are_left_alone() {
    let foreign = DiskProbe { root_exists: true, ..probe() };
    assert!(configure_elevated(1024, 'S', foreign).is_err());
    assert_eq!(configure_elevated(1024, 'S', probe()), Ok(SetupStep::Create));
    let own = DiskProbe {
        mounted: true,
        root_exists: true,
        marker_exists: true,
        cache_is_dir: true,
        capacity_mb: Some(2048),
        ..probe()
    };
    assert_eq!(configure_elevated(1024, 'S', own), Ok(SetupStep::Replace));
    assert_eq!(release_managed_drive('S', own), Ok(true));
    let unmarked = DiskProbe { marker_exists: false, ..own };
    assert!(release_managed_drive('S', unmarked).is_err());
    let state = status_for_cache(r"S:\TEMP", 2048, true, own);
    assert!(state.mounted);
    assert_eq!(state.drive_letter, Some("S".to_string()));
}

#[test]
fn disks_of_tasks_are_released_once() {
    let mut disk = TaskRamDisk { active: true, released: false };
    assert!(disk.release());
    assert!(!disk.release());
    assert!(TaskRamDisk::activate(&None).is_ok());
    let mut run = ReleaseRun::start('S');
    for _ in 0..7 {
        assert_eq!(run.note(None, false, false), ReleaseNext::Again);
    }
    assert_eq!(run.note(Some("busy".to_string()), false, false), ReleaseNext::GiveUp);
    assert_eq!(run.failure(), "busy");
    let command = ElevatedCommand::Configure { size_mb: 1024, drive_letter: 'S', register: true };
    let words = command_arguments(command);
    assert_eq!(words, "--configure-ram-disk 1024 S");
    let args = words.split(' ').map(str::to_string).collect();
    assert_eq!(handle_elevated_arguments(&args), Some(command));
    assert_eq!(handle_elevated_arguments(&vec![]), None);
    assert_eq!(xml_escape("<a&\"b\">"), "&lt;a&amp;&quot;b&quot;&gt;");
    assert_eq!(encode_utf16le_with_bom("a𝄞"), vec![255, 254, 97, 0, 0x34, 0xd8, 0x1e, 0xdd]);
    assert!(task_description("p&q.exe", "x").contains("p&amp;q.exe"));
}

fn range(start: f64, end: f64) -> MatchRange {
    MatchRange {
        start_seconds: double(start * 10.0),
        end_seconds: double(end * 10.0),
        start_fraction: double(start),
        end_fraction: double(end),
        matched_frames: 2,
        average_similarity: double(0.9),
    }
}

#[test]
fn merged_stretch_holds_both() {
    let mut both = range(0.2, 0.4);
    merge_match_range(&mut both, range(0.3, 0.7), double(0.8));
    assert_eq!((value(both.start_fraction), value(both.end_fraction)), (0.2, 0.7));
    assert_eq!((value(both.start_seconds), value(both.end_seconds)), (2.0, 7.0));
    assert_eq!((both.matched_frames, value(both.average_similarity)), (4, 0.8));
    let mut own = edge(1, 2, 0.9);
    own.match_ranges = vec![
        AiEdgeMatchRange { video_id: 1, range: range(0.5, 0.6) },
        AiEdgeMatchRange { video_id: 2, range: range(0.0, 0.1) },
        AiEdgeMatchRange { video_id: 1, range: range(0.1, 0.2) },
        AiEdgeMatchRange { video_id: 1, range: range(0.9, 0.9) },
    ];
    let listed = list_ranges(&vec![own], &vec![0], 1);
    assert_eq!(listed.len(), 2);
    assert_eq!(order_ranges(&listed), vec![1, 0]);
    let mut merged = vec![];
    merged_match_ranges(&mut merged, range(0.1, 0.2), true, double(0.9));
    merged_match_ranges(&mut merged, range(0.2, 0.3), true, double(0.9));
    merged_match_ranges(&mut merged, range(0.5, 0.6), false, double(0.9));
    assert_eq!(merged.len(), 2);
    assert_eq!(value(merged[0].end_fraction), 0.3);
}

fn detail(confidence: f64) -> MatchDetail {
    MatchDetail {
        peer_video_id: Some(1),
        peer_file_name: "p".to_string(),
        points: vec![],
        start_seconds: double(0.0),
        end_seconds: double(1.0),
        hit_count: 1,
        displayed_hit_count: 0,
        average_similarity: double(0.9),
        confidence: double(confidence),
        short_coverage: double(0.9),
        long_compactness: double(0.9),
        long_span_seconds: double(1.0),
        long_span_fraction: double(0.1),
        relation_type: "t".to_string(),
        relation_label: "l".to_string(),
        relation_explanation: "e".to_string(),
    }
}

fn group(ids: &[i64]) -> MatchGroup {
    let items = ids
        .iter()
        .map(|id| MatchItem {
            video: video(*id, &format!("v{id}")),
            role: "推荐保留".to_string(),
            quality_rank: 1,
            match_ranges: vec![],
            match_detail: None,
        })
        .collect::<Vec<_>>();
    MatchGroup {
        id: "group-001".to_string(),
        title: "t".to_string(),
        kind: "AI视觉匹配".to_string(),
        confidence: double(0.9),
        recommended_video_id: ids.first().copied(),
        reclaimable_bytes: 100,
        item_count: items.len(),
        evidence: vec!["有序相似帧 3 个".to_string()],
        report: String::new(),
        items,
    }
}

#[test]
fn surer_details_are_shown() {
    let mut own = group(&[1, 2, 3]);
    let shown = |confidence: f64| PairDisplayDetail {
        left_video_id: 1,
        right_video_id: 2,
        left_detail: detail(confidence),
        right_detail: detail(confidence),
    };
    apply_pair_display_detail(&mut own.items, &shown(0.5));
    apply_pair_display_detail(&mut own.items, &shown(0.8));
    apply_pair_display_detail(&mut own.items, &shown(0.6));
    let seen = |at: usize| own.items[at].match_detail.as_ref().map(|d| value(d.confidence));
    assert_eq!((seen(0), seen(1), seen(2)), (Some(0.8), Some(0.8), None));
    let edges = vec![edge(1, 2, 0.7), edge(2, 3, 0.95), edge(1, 3, 0.8), edge(8, 9, 1.0)];
    assert_eq!(list_details(&edges, &own), vec![2, 0, 1]);
    assert_eq!(ai_group_detail_pair_count(&vec![own, group(&[4])], &edges), 3);
}

#[test]
fn relations_are_told() {
    let relation = classify_relation(double(0.9), double(0.6), double(1.0), double(0.5));
    assert_eq!(relation, Relation::CompleteContainment);
    let partial = classify_relation(double(0.6), double(0.5), double(1.9), double(0.5));
    assert_eq!(partial, Relation::PartialContainment);
    let compact = classify_relation(double(0.1), double(0.6), double(9.0), double(0.2));
    assert_eq!(compact, Relation::CompactEdit);
    let none = classify_relation(double(0.1), double(0.1), double(9.0), double(0.2));
    assert_eq!(none, Relation::NotContained);
    let told = tell_relation(relation, "0:10", "1:00:05");
    assert_eq!(told.0, "complete_containment");
    assert!(told.2.ends_with("0:10-1:00:05"));
    assert_eq!(format_seconds_compact(3_605), "1:00:05");
    assert_eq!(format_seconds_compact(65), "1:05");
    let figures = PairFigures {
        confidence: double(0.9),
        matched: 3,
        average_similarity: double(0.9),
        coverage: double(1.0),
    };
    let (short, long) = (video(9, "s"), video(4, "l"));
    let own = score_pair(&short, &long, 0, 8, figures, Some(range(0.1, 0.2)), None);
    assert_eq!((own.a, own.b, own.compared, own.match_ranges[0].video_id), (4, 9, 1, 9));
}

#[test]
fn reports_are_written() {
    let own = group(&[1]);
    let shown = vec![VideoTexts {
        length: "10.0s".to_string(),
        size: "100 B".to_string(),
        bit_rate: "4.0 Mbps".to_string(),
    }];
    let report = ai_group_report(&own, "90", "100 B", &shown);
    let lines = report.split('\n').collect::<Vec<_>>();
    assert_eq!(
        lines,
        vec![
            "Duplicate Video Search AI-only 报告",
            "组别: group-001",
            "类型: AI视觉匹配",
            "置信度: 90%",
            "估算可释放: 100 B",
            "",
            "文件:",
            "- 推荐保留: v1",
            "  规格: 1920x1080, \"h264\", 10.0s, 100 B, 4.0 Mbps",
            "",
            "证据:",
            "- 有序相似帧 3 个",
        ]
    );
    let mut plain = own.clone();
    plain.items[0].video.codec = None;
    assert!(build_report(&plain, "90", "100 B", &shown).contains(", \"-\", "));
    let texts = FindingTexts {
        average_distance: "1.5".to_string(),
        length_percent: "99".to_string(),
        title_percent: "40".to_string(),
    };
    let clip = PairFinding::Clip { close_points: 6, total_distance: 9, same_length: false };
    assert_eq!(
        finding_evidence(&clip, 99, &texts),
        vec!["有序相似帧 6 个", "允许未匹配帧 20 个", "时长比例 99%"]
    );
    let same = PairFinding::Transcode { total_distance: 3, compared: 2 };
    assert_eq!(
        finding_evidence(&same, 0, &texts),
        vec!["抽样帧平均汉明距离 1.5", "时长重合比例 99%"]
    );
}

#[test]
fn waits_come_to_an_end() {
    let mut wait = Waiting::start(TASK_CHECKS);
    let looks = (0..TASK_CHECKS).take_while(|_| wait.goes_on(false)).count();
    assert_eq!((looks, wait.checks), (29, 30));
    let mut done = Waiting::start(REMOVAL_CHECKS);
    assert!(done.goes_on(false));
    assert!(!done.goes_on(true));
}
