use duplicate_video_search::digest::ai_frame_cache_key;
use duplicate_video_search::double::Double;
use duplicate_video_search::hashes::dhash_9x8_gray;
use duplicate_video_search::media::{
    ai_frame_cache_paths, delete_ai_frame_cache_for_video, display_path_text,
    is_inside_any_excluded_dir, same_file_observation, FileCleanupStats,
};
use duplicate_video_search::models::VideoRecord;
use duplicate_video_search::paths::{Host, Root};

fn double(value: f64) -> Double {
    Double::of(value.to_bits())
}

#[test]
fn dhash_generates_stable_hex() {
    let bytes = vec![0u8; 72];
    assert_eq!(dhash_9x8_gray(&bytes).unwrap(), "0000000000000000");
}

#[test]
fn detects_paths_inside_excluded_backup_dir() {
    let excluded = vec![r"\\EXAMPLE-NAS\Test\recycle".to_string()];
    assert!(is_inside_any_excluded_dir(Host::Windows, r"\\EXAMPLE-NAS\Test\recycle\old.mp4", &excluded));
    assert!(!is_inside_any_excluded_dir(Host::Windows, r"\\EXAMPLE-NAS\Test\recordings\old.mp4", &excluded));
}

#[test]
fn deletes_exact_ai_frame_cache_files_for_video() {
    let unique = "test-1700000000000".to_string();
    let video = VideoRecord {
        id: Some(1),
        path: format!(r"\\EXAMPLE-NAS\Test\{unique}.mp4"),
        file_name: format!("{unique}.mp4"),
        parent_path: r"\\EXAMPLE-NAS\Test".to_string(),
        size_bytes: 1234,
        modified_unix_ms: 5678,
        extension: "mp4".to_string(),
        container_format: Some("mov,mp4".to_string()),
        duration_seconds: Some(double(60.0)),
        width: Some(1920),
        height: Some(1080),
        bitrate: Some(1_000_000),
        codec: Some("h264".to_string()),
        frame_rate: Some(double(30.0)),
        audio_codec: Some("aac".to_string()),
        partial_hash: Some(unique.clone()),
        sample_hashes: Vec::new(),
        preview_images: Vec::new(),
        scan_status: "ok".to_string(),
        error: None,
        quality_score: double(0.0),
        scanned_at_unix_ms: 0,
    };
    let key = ai_frame_cache_key(
        &video.path,
        &video.partial_hash,
        video.size_bytes,
        video.modified_unix_ms,
        "60.000",
        128,
    );
    let root = Root { path: "D:\\work".to_string(), host: Host::Windows };
    let (manifest_path, data_path) = ai_frame_cache_paths(&root, &key);
    let mut files = vec![
        (manifest_path.clone(), b"{}".to_vec()),
        (data_path.clone(), b"rgb-bytes".to_vec()),
        ("D:\\work\\data\\ai-frame-cache\\other.json".to_string(), b"kept".to_vec()),
    ];

    let doomed = delete_ai_frame_cache_for_video(&root, &video, "60.000", 128);
    let mut stats = FileCleanupStats::default();
    for path in [&doomed.0, &doomed.1] {
        let bytes = files.iter().find(|file| file.0 == *path).map(|file| file.1.len());
        files.retain(|file| file.0 != *path);
        stats.count(bytes.is_some(), bytes.unwrap_or(0) as u64);
    }
    assert_eq!(stats.files, 2);
    assert_eq!(stats.bytes, 11);
    assert!(files.iter().all(|file| file.0 != manifest_path));
    assert!(files.iter().all(|file| file.0 != data_path));
    assert_eq!(files.len(), 1);
}

#[test]
fn same_file_observation_ignores_missing_full_scan_assets() {
    let mut existing = VideoRecord {
        id: Some(1),
        path: r"\\EXAMPLE-NAS\Test\video.mp4".to_string(),
        file_name: "video.mp4".to_string(),
        parent_path: r"\\EXAMPLE-NAS\Test".to_string(),
        size_bytes: 1234,
        modified_unix_ms: 5678,
        extension: "mp4".to_string(),
        container_format: Some("mov,mp4".to_string()),
        duration_seconds: Some(double(60.0)),
        width: Some(1920),
        height: Some(1080),
        bitrate: Some(1_000_000),
        codec: Some("h264".to_string()),
        frame_rate: Some(double(30.0)),
        audio_codec: Some("aac".to_string()),
        partial_hash: Some("hash".to_string()),
        sample_hashes: vec!["a".to_string()],
        preview_images: vec![r"D:\old-data\missing-preview.jpg".to_string()],
        scan_status: "ok".to_string(),
        error: None,
        quality_score: double(1.0),
        scanned_at_unix_ms: 0,
    };
    let mut observed = existing.clone();
    observed.id = None;
    observed.container_format = None;
    observed.duration_seconds = None;
    observed.width = None;
    observed.height = None;
    observed.bitrate = None;
    observed.codec = None;
    observed.frame_rate = None;
    observed.audio_codec = None;
    observed.partial_hash = None;
    observed.sample_hashes.clear();
    observed.preview_images.clear();

    assert!(same_file_observation(&existing, &observed));

    existing.modified_unix_ms += 3_000;
    assert!(!same_file_observation(&existing, &observed));
}

#[test]
fn display_path_text_strips_extended_unc_prefix() {
    assert_eq!(
        display_path_text(Host::Windows, r"\\?\UNC\EXAMPLE-NAS\Videos\folder\video.mp4"),
        r"\\EXAMPLE-NAS\Videos\folder\video.mp4"
    );
}
