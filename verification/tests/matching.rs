use duplicate_video_search::double::Double;
use duplicate_video_search::groups::QualityFacts;
use duplicate_video_search::matching::{DurationRelation, MatchOptions, PairFinding};
use duplicate_video_search::models::{MatchGroup, VideoRecord};
use duplicate_video_search::pairing::{
    build_match_groups, build_match_groups_with_min_confidence, build_match_groups_with_options,
    pair_findings, PairScore,
};
use duplicate_video_search::paths::same_parent_folder;
use duplicate_video_search::reports::FindingTexts;

fn double(value: f64) -> Double {
    Double::of(value.to_bits())
}

fn value(number: Double) -> f64 {
    f64::from_bits(number.bits)
}

fn video(id: i64, hashes: Vec<&str>, duration: f64, width: u32, size: u64) -> VideoRecord {
    VideoRecord {
        id: Some(id),
        path: format!("\\\\EXAMPLE-NAS\\Test\\video-{id}.mp4"),
        file_name: format!("video-{id}.mp4"),
        parent_path: "\\\\EXAMPLE-NAS\\Test".to_string(),
        size_bytes: size,
        modified_unix_ms: 0,
        extension: "mp4".to_string(),
        container_format: Some("mp4".to_string()),
        duration_seconds: Some(double(duration)),
        width: Some(width),
        height: Some(1080),
        bitrate: Some(8_000_000),
        codec: Some("h264".to_string()),
        frame_rate: Some(double(30.0)),
        audio_codec: Some("aac".to_string()),
        partial_hash: None,
        sample_hashes: hashes.into_iter().map(str::to_string).collect(),
        preview_images: Vec::new(),
        scan_status: "ok".to_string(),
        error: None,
        quality_score: double(width as f64 * 1000.0 + duration),
        scanned_at_unix_ms: 0,
    }
}

fn video_with_bitrate(
    id: i64,
    hashes: Vec<&str>,
    duration: f64,
    width: u32,
    size: u64,
    bitrate: u64,
) -> VideoRecord {
    let mut record = video(id, hashes, duration, width, size);
    record.bitrate = Some(bitrate);
    record.quality_score = double(0.0);
    record
}

fn relation(left: &VideoRecord, right: &VideoRecord) -> DurationRelation {
    let (Some(a), Some(b)) = (left.duration_seconds, right.duration_seconds) else {
        return DurationRelation { delta: None, ratio: None };
    };
    let (a, b) = (value(a), value(b));
    let longer = a.max(b);
    let ratio = if longer <= 0.0 { None } else { Some(double(a.min(b) / longer)) };
    DurationRelation { delta: Some(double((a - b).abs())), ratio }
}

fn average(total: u32, count: usize) -> f64 {
    if count == 0 {
        64.0
    } else {
        total as f64 / count as f64
    }
}

fn score(finding: &PairFinding, ratio: f64) -> (f64, f64, f64) {
    match finding {
        PairFinding::Exact => (1.0, 0.0, 0.0),
        PairFinding::Transcode { total_distance, compared } => {
            let average = average(*total_distance, *compared);
            ((0.98 - average / 90.0 - (1.0 - ratio) / 2.0).clamp(0.72, 0.98), average, 0.0)
        }
        PairFinding::OffsetSamples { close_points, total_distance, compared } => {
            let average = average(*total_distance, *compared);
            let confidence = 0.58 + *close_points as f64 * 0.05 - average / 120.0;
            (confidence.clamp(0.50, 0.72), average, 0.0)
        }
        PairFinding::Clip { close_points, total_distance, same_length } => {
            let average = average(*total_distance, *close_points);
            let (base, top) = if *same_length { (0.58, 0.86) } else { (0.62, 0.84) };
            let confidence = base + *close_points as f64 * 0.045 - average / 120.0;
            (confidence.clamp(0.50, top), average, 0.0)
        }
        PairFinding::TitledClip { close_points, total_distance, overlap, by_frames } => {
            let average = average(*total_distance, *close_points);
            let titles = overlap.shared as f64 / overlap.smaller as f64;
            let points = *close_points as f64;
            let confidence = if *by_frames {
                (0.48 + points * 0.035 + titles * 0.24 - average / 160.0).clamp(0.50, 0.68)
            } else {
                (0.46 + titles * 0.20 + points * 0.03 - average / 180.0).clamp(0.50, 0.60)
            };
            (confidence, average, titles)
        }
    }
}

fn pair_score(left: &VideoRecord, right: &VideoRecord, finding: PairFinding) -> PairScore {
    let ratio = relation(left, right).ratio.map(value).unwrap_or(1.0);
    let (confidence, average, titles) = score(&finding, ratio);
    let texts = FindingTexts {
        average_distance: format!("{average:.1}"),
        length_percent: format!("{:.0}", ratio * 100.0),
        title_percent: format!("{:.0}", titles * 100.0),
    };
    PairScore { confidence: double(confidence), texts }
}

fn facts_of(videos: &Vec<VideoRecord>, seconds: f64) -> QualityFacts {
    let length = |video: &VideoRecord| {
        video.duration_seconds.map(value).filter(|value| value.is_finite() && *value > 0.0)
    };
    let rate = |video: &VideoRecord| {
        video.frame_rate.map(value).filter(|value| value.is_finite() && *value > 0.0)
    };
    let bucket = |value: Option<f64>| value.map(|value| (value / 10.0).round() as i64).unwrap_or(0);
    let steps = |value: Option<f64>| value.map(|value| (value * 10.0).round() as i64).unwrap_or(0);
    let close = |a: &VideoRecord, b: &VideoRecord| match (length(a), length(b)) {
        (Some(a), Some(b)) => seconds > 0.0 && (a - b).abs() <= seconds,
        _ => false,
    };
    QualityFacts {
        duration_bucket: videos.iter().map(|video| bucket(length(video))).collect(),
        frame_rate_bucket: videos.iter().map(|video| steps(rate(video))).collect(),
        durations_within: videos
            .iter()
            .map(|a| videos.iter().map(|b| close(a, b)).collect())
            .collect(),
    }
}

fn groups_with(videos: &Vec<VideoRecord>, options: MatchOptions) -> Vec<MatchGroup> {
    let related = |a: usize, b: usize| relation(&videos[a], &videos[b]);
    let scored = |a: usize, b: usize, found| pair_score(&videos[a], &videos[b], found);
    let normal = options.normalized();
    let facts = facts_of(videos, value(normal.keeper_size_priority_duration_seconds));
    build_match_groups_with_options(videos, &related, &scored, options, &facts)
}

fn groups_from(videos: &Vec<VideoRecord>, min_confidence: f64) -> Vec<MatchGroup> {
    let related = |a: usize, b: usize| relation(&videos[a], &videos[b]);
    let scored = |a: usize, b: usize, found| pair_score(&videos[a], &videos[b], found);
    let facts = facts_of(videos, 300.0);
    let least = double(min_confidence);
    build_match_groups_with_min_confidence(videos, &related, &scored, least, &facts)
}

fn groups_of(videos: &Vec<VideoRecord>) -> Vec<MatchGroup> {
    let related = |a: usize, b: usize| relation(&videos[a], &videos[b]);
    let scored = |a: usize, b: usize, found| pair_score(&videos[a], &videos[b], found);
    build_match_groups(videos, &related, &scored, &facts_of(videos, 300.0))
}

#[test]
fn only_scanned_videos_are_grouped() {
    let mut videos = (1..=3)
        .map(|id| {
            let mut item = video(id, vec![], 100.0, 1920, 1000);
            item.partial_hash = Some("identical".into());
            item
        })
        .collect::<Vec<_>>();
    videos[1].scan_status = "failed".into();
    let related = |a: usize, b: usize| relation(&videos[a], &videos[b]);
    let found = pair_findings(&videos, &related, MatchOptions::default());
    assert_eq!(found, vec![(0, 2, PairFinding::Exact)]);
    let groups = groups_of(&videos);
    assert_eq!(groups.len(), 1);
    assert_eq!(groups[0].item_count, 2);
    assert!(groups[0].items.iter().all(|item| item.video.scan_status == "ok"));
    assert_eq!(value(groups[0].confidence), 1.0);
}

#[test]
fn raising_the_threshold_drops_whole_groups() {
    let mut videos = (1..=6)
        .map(|id| video(id, vec![], 100.0, 1920, 1000 + id as u64))
        .collect::<Vec<_>>();
    for (place, hash) in [(0, "one"), (1, "one"), (2, "two"), (3, "two")] {
        videos[place].partial_hash = Some(hash.into());
        videos[place].size_bytes = 1000;
    }
    let samples = ["0123456789abcdef", "fedcba9876543210", "02468ace13579bdf", "13579bdf02468ace"];
    videos[4].sample_hashes = samples.iter().map(|hash| hash.to_string()).collect();
    videos[5].sample_hashes = videos[4].sample_hashes.clone();
    let more = groups_from(&videos, 0.5);
    let fewer = groups_from(&videos, 0.99);
    assert_eq!(more.len(), 3);
    assert_eq!(fewer.len(), 2);
    let kept = more.iter().filter(|group| value(group.confidence) >= 0.99).collect::<Vec<_>>();
    for (left, right) in kept.iter().zip(&fewer) {
        assert_eq!(left.id, right.id);
        assert_eq!(left.confidence, right.confidence);
        assert_eq!(left.recommended_video_id, right.recommended_video_id);
        assert_eq!(left.reclaimable_bytes, right.reclaimable_bytes);
        let ids = |group: &MatchGroup| {
            group.items.iter().map(|item| item.video.id).collect::<Vec<_>>()
        };
        assert_eq!(ids(left), ids(right));
    }
}

#[test]
fn same_folder_filter_excludes_cross_folder_and_nested_duplicates() {
    let mut videos = (1..=4).map(|id| {
        let mut item = video(id, vec![], 100.0, 1920, 1000);
        item.partial_hash = Some("identical".into());
        item
    }).collect::<Vec<_>>();
    videos[0].path = r"C:\Videos\a.mp4".into();
    videos[1].path = "c:/videos/b.mp4".into();
    videos[2].path = r"C:\Videos\Child\c.mp4".into();
    videos[3].path = r"D:\Videos\d.mp4".into();
    assert_eq!(groups_of(&videos)[0].item_count, 4);
    let groups = groups_with(&videos, MatchOptions {
        compare_within_same_folder: true,
        ..MatchOptions::default()
    });
    assert_eq!(groups.len(), 1);
    assert_eq!(groups[0].item_count, 2);
    assert!(groups[0].items.iter().all(|item| item.video.id.unwrap() <= 2));
    assert!(same_parent_folder(r"\\NAS\Share\a.mp4", "//nas/share/b.mp4"));
    assert!(!same_parent_folder(r"\\NAS\Share\a.mp4", r"\\NAS\Share2\b.mp4"));
}

#[test]
fn groups_similar_transcodes() {
    let videos = vec![
        video(
            1,
            vec!["b50807e078ba934f", "59e0eb0094527faf"],
            100.0,
            3840,
            1000,
        ),
        video(
            2,
            vec!["b50807e078ba934e", "59e0eb0094527fae"],
            99.0,
            1920,
            900,
        ),
    ];
    let groups = groups_of(&videos);
    assert_eq!(groups.len(), 1);
    assert_eq!(groups[0].recommended_video_id, Some(1));
}

#[test]
fn ignores_unrelated_hashes() {
    let videos = vec![
        video(
            1,
            vec!["b50807e078ba934f", "a8d19a3165630e9e"],
            100.0,
            1920,
            1000,
        ),
        video(
            2,
            vec!["2e979c77e32508d8", "d16863881cdaf727"],
            100.0,
            1920,
            900,
        ),
    ];
    assert!(groups_of(&videos).is_empty());
}

#[test]
fn recommends_higher_bitrate_when_duration_and_resolution_are_equivalent() {
    let videos = vec![
        video_with_bitrate(
            1,
            vec!["b50807e078ba934f", "59e0eb0094527faf"],
            100.0,
            1920,
            400,
            4_000_000,
        ),
        video_with_bitrate(
            2,
            vec!["b50807e078ba934e", "59e0eb0094527fae"],
            100.4,
            1920,
            600,
            8_000_000,
        ),
    ];
    let groups = groups_of(&videos);
    assert_eq!(groups.len(), 1);
    assert_eq!(groups[0].recommended_video_id, Some(2));
}

#[test]
fn recommends_larger_file_when_duration_is_close() {
    let videos = vec![
        video_with_bitrate(
            1,
            vec!["b50807e078ba934f", "59e0eb0094527faf"],
            5_000.0,
            3840,
            400,
            10_000_000,
        ),
        video_with_bitrate(
            2,
            vec!["b50807e078ba934e", "59e0eb0094527fae"],
            5_260.0,
            1920,
            900,
            4_000_000,
        ),
    ];
    let groups = groups_of(&videos);
    assert_eq!(groups.len(), 1);
    assert_eq!(groups[0].recommended_video_id, Some(2));
}

#[test]
fn confidence_threshold_splits_weak_bridge_pairs() {
    let videos = vec![
        video(
            1,
            vec!["b50807e078ba934f", "59e0eb0094527faf"],
            100.0,
            1920,
            1000,
        ),
        video(
            2,
            vec!["b50807e078ba934e", "59e0eb0094527fae"],
            100.0,
            1920,
            900,
        ),
        video(
            3,
            vec!["b50807e078ba934f", "2e979c77e32508d8", "d16863881cdaf727"],
            90.0,
            1920,
            800,
        ),
    ];
    let groups = groups_from(&videos, 0.90);
    assert_eq!(groups.len(), 1);
    assert_eq!(groups[0].item_count, 2);
}

#[test]
fn detects_offset_same_duration_samples_at_low_threshold() {
    let videos = vec![
        video(
            1,
            vec![
                "73d49d546e8af1a6",
                "55cfa06812feb547",
                "75df28e101692280",
                "7ec5f63fbcdc1369",
                "cefda23f45b15983",
            ],
            1837.16,
            1920,
            1_453_384_252,
        ),
        video(
            2,
            vec![
                "33f499146e9ae113",
                "3daac9403ae6ad4f",
                "c15bb27b05616a90",
                "7ec5f63fbcdc1369",
                "ceffa23f75b07987",
            ],
            1830.2,
            1920,
            802_675_344,
        ),
    ];

    let groups = groups_from(&videos, 0.50);
    assert_eq!(groups.len(), 1);
    assert!(value(groups[0].confidence) >= 0.50);
}

#[test]
fn detects_title_supported_partial_clip_at_low_threshold() {
    let mut organized = video(
        1,
        vec![
            "2db6cb02780cd321",
            "e9721fd62cc88371",
            "5ec5a8fb51b0cbf9",
            "7e4f772c2eca8191",
            "37a4c500719a7cd9",
        ],
        2082.986009,
        1920,
        325_496_004,
    );
    organized.file_name = "42【示例】旅行记录，山间步道，湖边日落，城市夜景，海边散步，森林露营.mp4".to_string();
    let mut incoming = video(
        2,
        vec![
            "fd274b82b81c57e5",
            "6cb3df94ba7e75d7",
            "7e47630e2eca8193",
            "3f80c504711a74dd",
            "a73c5198e2064dbf",
        ],
        2709.64,
        1920,
        621_869_135,
    );
    incoming.file_name = "A001 示例：山间步道+湖边日落+城市夜景+海边散步+森林露营.mp4".to_string();

    let groups = groups_from(&vec![organized, incoming], 0.50);
    assert_eq!(groups.len(), 1);
    assert!(value(groups[0].confidence) >= 0.50);
}

#[test]
fn allowed_unmatched_frames_controls_temporal_clip_matching() {
    let left_hashes = vec![
        "b50807e078ba934f",
        "59e0eb0094527faf",
        "2e979c77e32508d8",
        "d16863881cdaf727",
        "a8227ca4a95c24c7",
        "b46bca47c66ee15f",
        "068e924c07f04aa7",
        "bd176dd5bc693d3e",
        "b71569dfb4ad8050",
        "0cf1be88cb3e0ae9",
        "f296625495db5c26",
        "3eb426feb7427e9d",
        "6dc2eb263cabf350",
        "adf242cf79d969d7",
        "8354fd78f151d660",
        "967d08beb15eda2c",
        "80247980ca43ddfa",
        "b61f098bc3321836",
        "fd572d157ca95d9e",
        "46cef22c27d04aa7",
    ];
    let right_hashes = vec![
        "b50807e078ba934f",
        "59e0eb0094527faf",
        "2e979c77e32508d8",
        "d16863881cdaf727",
        "a8227ca4a95c24c7",
        "b46bca47c66ee15f",
        "57dd835b56a3db38",
        "38b22cf4b94c7497",
        "8f7afd79d77ff04f",
        "47f6d7da1fbf388e",
        "c0b5fa550df89105",
        "673d8195120bf701",
        "2c91a195f0328741",
        "b5089b66b47ef701",
        "199143ac18c81bc7",
        "5df2e194f15169d7",
        "a61f14ff6bf89105",
        "2e971455c1e92abe",
        "ac919146b7ac7e73",
        "6b0ffbcd958ed4bf",
    ];
    let videos = vec![
        video(1, left_hashes.clone(), 100.0, 1920, 1_000),
        video(2, right_hashes.clone(), 50.0, 1920, 900),
    ];

    let relaxed = groups_with(
        &videos,
        MatchOptions {
            min_confidence: double(0.50),
            temporal_hash_threshold: 8,
            min_temporal_match_points: 3,
            allowed_unmatched_sample_frames: 14,
            keeper_size_priority_duration_seconds: double(300.0),
            compare_within_same_folder: false,
        },
    );
    assert_eq!(relaxed.len(), 1);

    let strict = groups_with(
        &videos,
        MatchOptions {
            min_confidence: double(0.50),
            temporal_hash_threshold: 8,
            min_temporal_match_points: 3,
            allowed_unmatched_sample_frames: 13,
            keeper_size_priority_duration_seconds: double(300.0),
            compare_within_same_folder: false,
        },
    );
    assert!(strict.is_empty());
}

#[test]
fn does_not_promote_low_information_style_matches_to_high_confidence() {
    let mut first = video(
        1,
        vec![
            "a13ad5006a024bbf",
            "975c39f0d22e758f",
            "970c61a8c2367d97",
            "65bc5184b2416b9f",
            "648d7180a6416b99",
            "42c9a46f10e0bf59",
            "66bd5988a6c36892",
            "64bc5da0d363e89e",
            "66bdd96473c3e81e",
            "43d09d542eef2416",
            "970c61e8d22e2597",
        ],
        1690.0,
        1280,
        1_514_829_974,
    );
    first.file_name = "series-3.mp4".to_string();
    let mut second = video(
        2,
        vec![
            "970c71a0c2267d87",
            "970c21e0da2e658f",
            "971469a8da366d8f",
            "971439a0da367d8f",
            "971479a0da367dc7",
            "970c71b8d23665d7",
            "970c69a0da3e7d8f",
            "970c61a0da3e7587",
            "970c69a0da367587",
            "970c69a0d23e7d8f",
            "970479a0da3e7d8f",
        ],
        1975.8,
        1920,
        1_269_859_894,
    );
    second.file_name = "series-6.mp4".to_string();

    let groups = groups_from(&vec![first, second], 0.89);
    assert!(groups.is_empty());
}
