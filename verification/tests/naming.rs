use duplicate_video_search::double::Double;
use duplicate_video_search::models::{MatchGroup, MatchItem, VideoRecord};
use duplicate_video_search::naming::naming_source_for_group;

fn double(value: f64) -> Double {
    Double::of(value.to_bits())
}

fn test_video(id: i64, path: &str) -> VideoRecord {
    let file_name = path.rsplit('\\').next().unwrap_or(path).to_string();
    let parent_path = path
        .rsplit_once('\\')
        .map(|(parent, _)| parent.to_string())
        .unwrap_or_default();
    let extension = file_name
        .rsplit_once('.')
        .map(|(_, extension)| extension.to_string())
        .unwrap_or_default();
    VideoRecord {
        id: Some(id),
        path: path.to_string(),
        file_name,
        parent_path,
        size_bytes: 1024,
        modified_unix_ms: 1,
        extension,
        container_format: Some("mp4".to_string()),
        duration_seconds: Some(double(10.0)),
        width: Some(1920),
        height: Some(1080),
        bitrate: Some(1_000_000),
        codec: Some("h264".to_string()),
        frame_rate: Some(double(30.0)),
        audio_codec: Some("aac".to_string()),
        partial_hash: None,
        sample_hashes: Vec::new(),
        preview_images: Vec::new(),
        scan_status: "ok".to_string(),
        error: None,
        quality_score: double(1.0),
        scanned_at_unix_ms: 1,
    }
}

fn test_item(id: i64, path: &str, quality_rank: usize) -> MatchItem {
    MatchItem {
        video: test_video(id, path),
        role: String::new(),
        quality_rank,
        match_ranges: Vec::new(),
        match_detail: None,
    }
}

fn test_group(items: Vec<MatchItem>) -> MatchGroup {
    MatchGroup {
        id: "group-test".to_string(),
        title: "test".to_string(),
        kind: "test".to_string(),
        confidence: double(1.0),
        recommended_video_id: None,
        reclaimable_bytes: 0,
        item_count: items.len(),
        evidence: Vec::new(),
        report: String::new(),
        items,
    }
}

#[test]
fn naming_source_prefers_unsuffixed_duplicate_suffix_original() {
    let group = test_group(vec![
        test_item(1, r"C:\Videos\Movie (1).mp4", 1),
        test_item(2, r"C:\Videos\Movie.mp4", 2),
        test_item(3, r"C:\Videos\Readable Long Title.mp4", 3),
    ]);

    let source = naming_source_for_group(&group, &vec![], &vec![]).unwrap();

    assert_eq!(group.items[source].video.id, Some(2));
}

#[test]
fn naming_source_prefers_unsuffixed_full_width_duplicate_suffix_original() {
    let group = test_group(vec![
        test_item(1, r"C:\Videos\Clip（1）.mp4", 1),
        test_item(2, r"C:\Videos\Clip.mp4", 2),
    ]);

    let source = naming_source_for_group(&group, &vec![], &vec![]).unwrap();

    assert_eq!(group.items[source].video.id, Some(2));
}

#[test]
fn naming_source_prefers_unsuffixed_duplicate_under_same_scan_source() {
    let group = test_group(vec![
        test_item(1, r"C:\Videos\A\Clip (1).mp4", 1),
        test_item(2, r"C:\Videos\B\Clip.mp4", 2),
        test_item(3, r"C:\Other\Clip.mp4", 3),
    ]);
    let scan_sources = vec![r"C:\Videos".to_string()];

    let source = naming_source_for_group(&group, &vec![], &scan_sources).unwrap();

    assert_eq!(group.items[source].video.id, Some(2));
}

#[test]
fn naming_source_prefers_numeric_bracket_chinese_before_suffix_rule() {
    let group = test_group(vec![
        test_item(1, r"C:\Videos\channel@example (10).mp4", 1),
        test_item(2, r"C:\Videos\channel@example.mp4", 2),
        test_item(3, r"C:\Videos\91【示例】旅行的回忆.mp4", 3),
    ]);

    let source = naming_source_for_group(&group, &vec![], &vec![]).unwrap();

    assert_eq!(group.items[source].video.id, Some(3));
}

#[test]
fn naming_source_prefers_numeric_chinese_before_suffix_rule_without_bracket_match() {
    let group = test_group(vec![
        test_item(1, r"C:\Videos\channel@example (10).mp4", 1),
        test_item(2, r"C:\Videos\channel@example.mp4", 2),
        test_item(3, r"C:\Videos\91旅行的回忆.mp4", 3),
    ]);

    let source = naming_source_for_group(&group, &vec![], &vec![]).unwrap();

    assert_eq!(group.items[source].video.id, Some(3));
}

#[test]
fn naming_source_suffix_rule_precedes_configured_source_dirs() {
    let group = test_group(vec![
        test_item(1, r"C:\Videos\Preferred\Clip (1).mp4", 1),
        test_item(2, r"C:\Videos\Other\Clip.mp4", 2),
    ]);
    let naming_dirs = vec![r"C:\Videos\Preferred".to_string()];
    let scan_sources = vec![r"C:\Videos".to_string()];

    let source = naming_source_for_group(&group, &naming_dirs, &scan_sources).unwrap();

    assert_eq!(group.items[source].video.id, Some(2));
}
