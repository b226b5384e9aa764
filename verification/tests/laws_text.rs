use duplicate_video_search::alignment::{
    alignment_ranges, may_match, shown_points, Alignment, CellChoice, TieBreaks,
};
use duplicate_video_search::digest::{
    add_number, add_text, ai_frame_cache_key, clamp_frame_count, decode_f32_blob, decode_list,
    encode_f32_blob, encode_list, fingerprint_of, head_of, or_empty, partial_file_hash,
    partial_hash_positions, preview_stem, recoded_list, FilePiece,
};
use duplicate_video_search::double::Double;
use duplicate_video_search::hashes::{
    count_ones, dhash_9x8_gray, hamming, hamming_hex, informative_hash_points,
    is_informative_hash, parse_hex,
};
use duplicate_video_search::models::AppSettings;
use duplicate_video_search::paths::{
    data_dir, data_folders, database_path, is_allowed_scan_path, join, same_parent_folder,
    same_path, workspace_root, Ancestor, Host, ProgramFolder, Root,
};
use duplicate_video_search::settings::{
    default_settings, get_app_settings, is_path_allowed_by_settings, normalize_ai_device,
    normalize_keeper_duration_seconds, normalize_path_list, normalize_ui_language,
    save_app_settings, settings_path, validate_operable_path,
};
use duplicate_video_search::temporal::{
    aligned_close_points, aligned_hash_distance, better_match_score, required_temporal_points,
    temporal_hash_match, MatchScore,
};
use duplicate_video_search::text::{
    ascii_lowercase, decimal_text, eq_ignore_ascii_case, join_lines, less_text, lines,
    rsplit_once, signed_decimal_text, split, strip_prefix, trim,
};
use duplicate_video_search::titles::{
    file_stem, is_weak_title_bigram, title_bigrams, title_overlap, title_score,
};
use duplicate_video_search::union_find::UnionFind;

fn work() -> Root {
    Root { path: r"D:\Work".to_string(), host: Host::Windows }
}

fn double(value: f64) -> Double {
    Double::of(value.to_bits())
}

fn value(number: Double) -> f64 {
    f64::from_bits(number.bits)
}

fn owned(list: &[&str]) -> Vec<String> {
    list.iter().map(|item| item.to_string()).collect()
}

#[test]
fn numbers_compare_as_they_should() {
    for (a, b) in [(1.0, 2.0), (-3.5, -2.0), (-1.0, 0.0), (0.0, f64::INFINITY), (0.25, 0.5)] {
        assert!(double(a).less(double(b)));
        assert!(!double(b).less(double(a)));
        assert!(double(a).at_most(double(b)));
        assert_eq!(value(double(a).max(double(b))), b);
        assert_eq!(value(double(a).min(double(b))), a);
        assert!(double(a).total_order() < double(b).total_order());
    }
    assert!(double(-0.0).at_most(double(0.0)) && double(0.0).at_most(double(-0.0)));
    assert!(double(-0.0).total_order() < double(0.0).total_order());
    let nan = double(f64::NAN);
    assert!(nan.is_nan() && !nan.is_finite() && !nan.is_positive());
    assert!(!nan.less(double(1.0)) && !double(1.0).at_most(nan));
    assert_eq!(value(nan.max(double(1.0))), 1.0);
    assert_eq!(value(double(1.0).min(nan)), 1.0);
    assert!(!double(f64::INFINITY).is_finite());
    assert!(double(0.5).is_positive() && !double(0.0).is_positive());
}

#[test]
fn clamped_numbers_lie_in_range() {
    for number in [-5.0, 0.0, 0.3, 1.0, 7.5, f64::INFINITY, f64::NEG_INFINITY] {
        let clamped = double(number).clamp(double(0.0), double(1.0));
        assert_eq!(value(clamped), number.clamp(0.0, 1.0));
        assert!(double(0.0).at_most(clamped) && clamped.at_most(double(1.0)));
    }
}

#[test]
fn hexadecimal_numbers_are_read() {
    assert_eq!(parse_hex("ff"), Some(255));
    assert_eq!(parse_hex("+0A"), Some(10));
    assert_eq!(parse_hex("ffffffffffffffff"), Some(u64::MAX));
    assert_eq!(parse_hex("10000000000000000"), None);
    assert_eq!(parse_hex(""), None);
    assert_eq!(parse_hex("xyz"), None);
}

#[test]
fn distance_is_symmetric_and_separates() {
    assert_eq!(count_ones(0), 0);
    assert_eq!(count_ones(u64::MAX), 64);
    assert_eq!(hamming(0b1011, 0b0010), 2);
    assert_eq!(hamming(0b0010, 0b1011), 2);
    assert_eq!(hamming(77, 77), 0);
    assert_eq!(hamming_hex("0f", "00"), Some(4));
    assert_eq!(hamming_hex("0f", "nothing"), None);
}

#[test]
fn difference_hash_is_a_hash() {
    let mut bytes = vec![0u8; 72];
    for row in 0..8 {
        for column in 0..9 {
            bytes[row * 9 + column] = (200 - column * 20) as u8;
        }
    }
    let hash = dhash_9x8_gray(&bytes).unwrap();
    assert_eq!(hash, "ffffffffffffffff");
    assert_eq!(parse_hex(&hash), Some(u64::MAX));
    assert_eq!(dhash_9x8_gray(&vec![0u8; 71]), None);
}

#[test]
fn informative_hashes_are_told_from_plain_ones() {
    assert!(is_informative_hash("b50807e078ba934f"));
    assert!(!is_informative_hash("0000000000000000"));
    assert!(!is_informative_hash("ffffffffffffffff"));
    assert!(!is_informative_hash("0f0f0f0f0f0f0f0f"));
    assert!(!is_informative_hash("b50807e078ba934"));
    let points = informative_hash_points(&owned(&["0000000000000000", "b50807e078ba934f"]));
    assert_eq!(points, vec![0xb50807e078ba934f]);
}

#[test]
fn best_match_in_order_is_found() {
    let left = owned(&["b50807e078ba934f", "59e0eb0094527faf", "2e979c77e32508d8"]);
    let right = owned(&["59e0eb0094527fae", "0000000000000000", "2e979c77e32508d8"]);
    let found = temporal_hash_match(&left, &right, 8);
    assert_eq!(found.ordered_points, 2);
    assert_eq!(found.total_distance, 1);
    assert_eq!(found.informative_left, 3);
    assert_eq!(found.informative_right, 2);
    let crossed = temporal_hash_match(&left, &owned(&["2e979c77e32508d8", "59e0eb0094527faf"]), 8);
    assert_eq!(crossed.ordered_points, 1);
    let none = temporal_hash_match(&left, &vec![], 8);
    assert_eq!((none.ordered_points, none.informative_right), (0, 0));
    let any = temporal_hash_match(&left, &right, u32::MAX);
    assert_eq!(any.ordered_points, 2);
    assert_eq!(any.total_distance, 1);
    let more = MatchScore { count: 2, total_distance: 9 };
    let nearer = MatchScore { count: 2, total_distance: 3 };
    assert_eq!(better_match_score(more, nearer), nearer);
    assert_eq!(better_match_score(more, MatchScore { count: 1, total_distance: 0 }), more);
}

#[test]
fn hashes_in_step_are_compared() {
    let left = owned(&["b50807e078ba934f", "59e0eb0094527faf", "0000000000000000"]);
    let right = owned(&["b50807e078ba934e", "2e979c77e32508d8", "0000000000000000"]);
    let far = hamming(0x59e0eb0094527faf, 0x2e979c77e32508d8);
    assert_eq!(aligned_hash_distance(&left, &right), Some((1 + far, 2)));
    assert_eq!(aligned_hash_distance(&left, &vec![]), None);
    assert_eq!(aligned_close_points(&left, &right, 8), 1);
    assert_eq!(aligned_close_points(&left, &right, far), 2);
}

#[test]
fn allowance_relaxes_the_requirement() {
    assert_eq!(required_temporal_points(20, 3, 14), 6);
    assert_eq!(required_temporal_points(20, 3, 13), 7);
    assert_eq!(required_temporal_points(20, 3, 99), 3);
    assert_eq!(required_temporal_points(0, 0, 5), 1);
    assert_eq!(required_temporal_points(0, 50, 5), 10);
    for allowed in 0..20 {
        assert!(
            required_temporal_points(20, 3, allowed + 1) <= required_temporal_points(20, 3, allowed)
        );
    }
}

fn aligned(hits: Vec<Vec<bool>>, ties: TieBreaks) -> Alignment {
    let columns = hits[0].len();
    let cells = hits.len() * columns;
    let mut alignment = Alignment::new(hits, columns);
    for _ in 0..cells {
        alignment.add_cell(ties);
    }
    alignment
}

#[test]
fn longest_row_of_matches_is_traced() {
    let ties = TieBreaks { left_over_up: false, match_over_up: false, match_over_left: false };
    let straight = aligned(vec![vec![true, false], vec![false, true]], ties);
    assert_eq!(straight.points(), vec![(0, 0), (1, 1)]);
    let crossed = aligned(vec![vec![false, true], vec![true, false]], ties);
    assert_eq!(crossed.points().len(), 1);
    let nothing = aligned(vec![vec![false, false]], ties);
    assert!(nothing.points().is_empty());
    assert_eq!(alignment_ranges(&nothing.points()), None);
    assert_eq!(alignment_ranges(&straight.points()), Some(((0, 1), (0, 1))));
    let mut one = Alignment::new(vec![vec![true]], 1);
    assert_eq!(one.add_cell(ties), CellChoice::Match);
}

#[test]
fn frames_match_near_the_diagonal_or_anywhere() {
    assert!(may_match(true, 0, 90));
    assert!(may_match(false, 4, 6));
    assert!(!may_match(false, 4, 7));
    assert!(!may_match(false, 9, 6));
}

#[test]
fn shown_points_are_spread_evenly() {
    assert_eq!(shown_points(3), vec![0, 1, 2]);
    let many = shown_points(127);
    assert_eq!(many.len(), 64);
    assert_eq!((many[0], many[1], many[63]), (0, 2, 126));
}

#[test]
fn bigrams_are_neighbours() {
    let pairs = title_bigrams("山间 a 步道山间");
    assert!(pairs.contains(&('山', '间')));
    assert!(pairs.contains(&('间', '步')));
    assert!(pairs.contains(&('道', '山')));
    assert_eq!(pairs.len(), 4);
    assert!(is_weak_title_bigram(('视', '频')));
    assert!(title_bigrams("视频").is_empty());
    let overlap = title_overlap("山间步道.mp4", "步道日落.mp4");
    assert_eq!((overlap.shared, overlap.smaller), (1, 3));
    assert!(overlap.reaches_percent(33));
    assert!(!overlap.reaches_percent(34));
}

#[test]
fn titles_are_scored() {
    assert_eq!(file_stem(" 42.clip .mp4"), "42.clip");
    assert_eq!(title_score("42旅行记录"), 155);
    assert_eq!(title_score("abc"), 30);
    assert_eq!(title_score("1234"), 25);
    assert_eq!(title_score(""), 0);
}

#[test]
fn fingerprints_are_those_of_the_bytes() {
    assert_eq!(
        fingerprint_of(&b"abc".to_vec()),
        "ba7816bf8f01cfea414140de5dae2223b00361a396177a9cb410ff61f20015ad"
    );
    assert_eq!(head_of("abcdef", 3), "abc");
    let mut bytes = Vec::new();
    add_text(&mut bytes, "é");
    add_number(&mut bytes, 258);
    assert_eq!(bytes, vec![0xc3, 0xa9, 2, 1, 0, 0, 0, 0, 0, 0]);
    let piece = FilePiece { position: 258, bytes: b"xy".to_vec() };
    let mut told = vec![2, 1, 0, 0, 0, 0, 0, 0];
    told.extend(b"xy");
    assert_eq!(partial_file_hash(&vec![piece]), fingerprint_of(&told));
}

#[test]
fn places_of_a_file_are_read_once() {
    assert_eq!(partial_hash_positions(0), vec![0]);
    let large = partial_hash_positions(100 * 1024 * 1024);
    assert_eq!(large.len(), 3);
    assert_eq!(large[0], 0);
    assert!(large[0] < large[1] && large[1] < large[2]);
}

#[test]
fn clamped_frame_counts_share_a_cache() {
    let key = |count: usize| ai_frame_cache_key("a.mp4", &None, 7, 9, "1.000", count);
    assert_eq!(clamp_frame_count(1), 8);
    assert_eq!(clamp_frame_count(9_000), 512);
    assert_eq!(key(1), key(8));
    assert_ne!(key(8), key(9));
    assert_eq!(key(8).len(), 32);
    let known = Some("0123456789abcdef0123".to_string());
    assert_ne!(key(8), ai_frame_cache_key("a.mp4", &known, 7, 9, "1.000", 8));
    assert_eq!(preview_stem("a.mp4", &known), "0123456789abcdef");
    assert_eq!(preview_stem("abc", &None), "ba7816bf8f01cfea");
}

#[test]
fn embeddings_are_read_back() {
    let values = vec![1.5f32.to_bits(), (-2.0f32).to_bits(), 0];
    let blob = encode_f32_blob(&values);
    assert_eq!(blob.len(), 12);
    assert_eq!(&blob[..4], &1.5f32.to_le_bytes());
    assert_eq!(decode_f32_blob(&blob), values);
    assert_eq!(decode_f32_blob(&blob[..7].to_vec()), values[..1].to_vec());
}

#[test]
fn lists_are_read_back() {
    let list = owned(&["a\"b", "旅行", ""]);
    assert_eq!(encode_list(&list), "[\"a\\\"b\",\"旅行\",\"\"]");
    assert_eq!(decode_list(&encode_list(&list)), list);
    assert_eq!(recoded_list(&list), list);
    assert!(decode_list("{not a list").is_empty());
    assert!(or_empty(None).is_empty());
}

#[test]
fn sharing_a_folder_is_an_equivalence() {
    let a = r"C:\Videos\a.mp4";
    let b = "c:/videos/B.mp4";
    let c = r"C:\VIDEOS\c.mp4";
    assert!(same_parent_folder(a, b) && same_parent_folder(b, a));
    assert!(same_parent_folder(b, c) && same_parent_folder(a, c));
    assert!(!same_parent_folder("a.mp4", "b.mp4"));
    assert!(!same_parent_folder("a.mp4", "a.mp4"));
    assert!(!same_parent_folder("ÄÖ.mp4", r"C:\Videos\a.mp4"));
    assert!(same_parent_folder(r"C:\ÄÖ\a.mp4", r"C:\äö\b.mp4"));
}

#[test]
fn samples_may_always_be_scanned() {
    let root = &work();
    assert!(is_allowed_scan_path(r"D:\Work\samples", root));
    assert!(is_allowed_scan_path("d:/work/SAMPLES/x.mp4", root));
    assert!(is_allowed_scan_path(r"\\example-nas\test\x.mp4", root));
    assert!(!is_allowed_scan_path(r"\\EXAMPLE-NAS\Testing", root));
    assert!(!is_allowed_scan_path(r"D:\Work\samples2", root));
}

#[test]
fn paths_of_the_workspace() {
    assert_eq!(join(Host::Windows, r"D:\Work", "data"), r"D:\Work\data");
    assert_eq!(join(Host::Windows, r"D:\", "data"), r"D:\data");
    assert_eq!(data_dir(&work()), r"D:\Work\data");
    assert_eq!(database_path(&work()), r"D:\Work\data\index.sqlite");
    assert_eq!(data_folders(&work()).len(), 8);
    let windows = Host::Windows;
    assert_eq!(join(windows, r"D:\Work", r"E:\m.onnx"), r"E:\m.onnx");
    assert_eq!(join(windows, r"D:\Work", "E:m.onnx"), "E:m.onnx");
    assert_eq!(join(windows, r"D:\Work", r"\\nas\s\m.onnx"), r"\\nas\s\m.onnx");
    assert_eq!(join(windows, r"D:\Work", r"\m.onnx"), r"D:\m.onnx");
    assert_eq!(join(windows, r"\\nas\share\Work", "/m.onnx"), r"\\nas\share/m.onnx");
    assert_eq!(join(windows, "D:", "data"), "D:data");
    assert_eq!(join(Host::Other, "/opt", "/m.onnx"), "/m.onnx");
    let opt = Root { path: "/opt/dvs".to_string(), host: Host::Other };
    assert_eq!(join(Host::Other, "/opt/dvs", "data"), "/opt/dvs/data");
    assert_eq!(join(Host::Other, "/opt/", "data"), "/opt/data");
    assert_eq!(join(Host::Other, "a\\", "b"), "a\\/b");
    assert_eq!(database_path(&opt), "/opt/dvs/data/index.sqlite");
    assert_eq!(settings_path(&opt), "/opt/dvs/data/settings.json");
    let ancestor = |path: &str, is_project: bool| Ancestor { path: path.to_string(), is_project };
    let program = |ancestors: Vec<Ancestor>| {
        Some(ProgramFolder { path: r"D:\p\quick-release".to_string(), ancestors })
    };
    assert_eq!(workspace_root(Some("H".to_string()), program(vec![]), "F".to_string()), "H");
    let inside = vec![ancestor(r"D:\p\quick-release", false), ancestor(r"D:\p", true)];
    assert_eq!(workspace_root(None, program(inside), "F".to_string()), r"D:\p");
    let outside = vec![ancestor(r"D:\p\quick-release", false), ancestor(r"D:\p", false)];
    assert_eq!(workspace_root(None, program(outside), "F".to_string()), r"D:\p\quick-release");
    assert_eq!(workspace_root(None, None, "F".to_string()), "F");
}

fn wild_settings() -> AppSettings {
    let mut settings = default_settings(&work());
    settings.ui_language = "EN".to_string();
    settings.ai_device = "whatever".to_string();
    settings.scan_worker_count = 900;
    settings.sample_hash_count = 0;
    settings.temporal_hash_threshold = 900;
    settings.ai_similarity_threshold = double(5.0);
    settings.keeper_size_priority_duration_seconds = double(f64::NAN);
    settings.naming_source_dirs = owned(&[" C:\\A ", "c:/a", "", "D:\\B"]);
    settings.ai_frame_count = 1;
    settings
}

#[test]
fn saving_twice_changes_nothing() {
    let once = save_app_settings(&wild_settings(), &work());
    let twice = save_app_settings(&once, &work());
    assert_eq!(format!("{once:?}"), format!("{twice:?}"));
    assert_eq!(once.naming_source_dirs, owned(&["C:\\A", "D:\\B"]));
    assert_eq!(once.ai_device, "auto");
}

#[test]
fn saved_settings_are_read_back() {
    let saved = save_app_settings(&wild_settings(), &work());
    let read = get_app_settings(Some(saved.clone()), &work());
    assert_eq!(format!("{saved:?}"), format!("{read:?}"));
    let first = get_app_settings(None, &work());
    assert_eq!(format!("{first:?}"), format!("{:?}", default_settings(&work())));
    assert_eq!(settings_path(&work()), r"D:\Work\data\settings.json");
}

#[test]
fn settings_are_put_in_order() {
    assert_eq!(normalize_ui_language("en"), "en");
    assert_eq!(normalize_ui_language("fr"), "zh");
    assert_eq!(normalize_ai_device("gpu"), "gpu");
    assert_eq!(value(normalize_keeper_duration_seconds(double(-1.0))), 0.0);
    assert_eq!(value(normalize_keeper_duration_seconds(double(99_999.0))), 86_400.0);
    assert_eq!(value(normalize_keeper_duration_seconds(double(f64::NAN))), 300.0);
    assert_eq!(normalize_path_list(&owned(&["a/", "A\\", " b"])), owned(&["a/", "b"]));
    let mut settings = default_settings(&work());
    settings.restrict_scan_to_test_path = true;
    assert!(!is_path_allowed_by_settings(r"C:\x.mp4", &settings, &work()));
    assert!(validate_operable_path(r"C:\x.mp4", true, &work()).is_err());
    assert!(validate_operable_path(r"C:\x.mp4", false, &work()).is_ok());
}

#[test]
fn texts_are_cut_and_compared() {
    assert_eq!(trim(" \u{3000}a b\n"), "a b");
    assert_eq!(split("a,,b", ','), owned(&["a", "", "b"]));
    assert_eq!(lines("a\r\nb\n\nc"), owned(&["a", "b", "", "c"]));
    assert_eq!(join_lines(&owned(&["a", "b", "c"]), " | ", 2), "a | b");
    assert_eq!(rsplit_once("a.b.c", '.'), Some(("a.b".to_string(), "c".to_string())));
    assert_eq!(rsplit_once("abc", '.'), None);
    assert_eq!(strip_prefix("prefix-x", "prefix-"), Some("x".to_string()));
    assert_eq!(strip_prefix("x", "prefix-"), None);
    assert_eq!(ascii_lowercase("AbÄ"), "abÄ");
    assert!(eq_ignore_ascii_case("MP4", "mp4"));
    assert!(less_text("B.mp4", "a.mp4") && less_text("a", "ab") && !less_text("b", "ab"));
    assert_eq!(decimal_text(1_234), "1234");
    assert_eq!(signed_decimal_text(i64::MIN), "-9223372036854775808");
    assert_eq!(signed_decimal_text(0), "0");
}

#[test]
fn joined_positions_share_a_root() {
    let mut sets = UnionFind::new(5);
    sets.union(0, 1);
    sets.union(3, 4);
    sets.union(1, 4);
    let root = sets.find(0);
    assert_eq!([sets.find(1), sets.find(3), sets.find(4)], [root; 3]);
    assert_ne!(sets.find(2), root);
}

#[test]
fn slashes_make_no_difference_on_windows() {
    assert!(same_path(Host::Windows, "C:/v/a.mp4", r"C:\v\a.mp4"));
    assert!(same_path(Host::Windows, r"C:\v\\a.mp4", r"C:\v\a.mp4"));
    assert!(same_path(Host::Windows, r"C:\v\.\a.mp4", r"C:\v\a.mp4"));
    assert!(same_path(Host::Windows, r"c:\v\a.mp4", r"C:\v\a.mp4"));
    assert!(!same_path(Host::Windows, "C:a.mp4", r"C:\a.mp4"));
    assert!(!same_path(Host::Windows, r"\\?\C:\v/a.mp4", r"\\?\C:\v\a.mp4"));
    assert!(same_path(Host::Windows, r"\\?\c:\v\a.mp4", r"\\?\C:\v\a.mp4"));
    assert!(!same_path(Host::Other, "c:/v", "C:/v"));
    assert!(!same_path(Host::Windows, r"C:\v\A.mp4", r"C:\v\a.mp4"));
    assert!(!same_path(Host::Windows, r"C:\v\b.mp4", r"C:\v\a.mp4"));
    assert!(!same_path(Host::Other, "/v/a.mp4", r"\v\a.mp4"));
    assert!(same_path(Host::Other, "/v//a.mp4", "/v/a.mp4"));
    assert!(!same_path(Host::Other, "v/a.mp4", "/v/a.mp4"));
}
