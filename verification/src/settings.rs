//! The settings of the program: their defaults, and the values that they may have.
use crate::double::Double;
use crate::matching;
use crate::matching::{DEFAULT_PRIORITY, MAX_PRIORITY, ZERO};
use crate::models;
use crate::models::AppSettings;
use crate::paths;
use crate::paths::{data_path, Root, RootData, ALLOWED_SOURCE};
use crate::text;
use crate::text::{add_line, ascii_lowercase, chars_of, has_line, same_text, trim};
use vstd::prelude::*;
use vstd::string::*;

verus! {

/// The similarity, 0.86, from which frames match by default.
pub const DEFAULT_SIMILARITY: u64 = 0x3FEB_851E_B851_EB85;

/// The highest similarity, 0.99, that can be asked for.
pub const MAX_SIMILARITY: u64 = 0x3FEFAE147AE147AE;

/// What settings say.
#[verifier::ext_equal]
pub struct SettingsData {
    pub ui_language: Seq<char>,
    pub backup_dir: Seq<char>,
    pub naming_source_dirs: Seq<Seq<char>>,
    pub keeper_size_priority_duration_seconds: Double,
    pub scan_worker_count: usize,
    pub sample_hash_count: usize,
    pub temporal_hash_threshold: u32,
    pub min_temporal_match_points: usize,
    pub allowed_unmatched_sample_frames: usize,
    pub allow_direct_delete: bool,
    pub restrict_scan_to_test_path: bool,
    pub compare_within_same_folder: bool,
    pub ai_vision_enabled: bool,
    pub ai_model_path: Seq<char>,
    pub ai_device: Seq<char>,
    pub ai_frame_count: usize,
    pub ai_batch_size: usize,
    pub ai_similarity_threshold: Double,
    pub ai_min_matched_frames: usize,
    pub ai_clip_matching_enabled: bool,
    pub ai_index_after_scan: bool,
    pub ai_extract_worker_count: usize,
    pub ai_gpu_worker_count: usize,
    pub ai_match_worker_count: usize,
    pub ai_frame_cache_enabled: bool,
    pub delete_ai_frame_cache_after_index: bool,
    pub ram_disk_enabled: bool,
    pub ram_disk_size_mb: usize,
    pub ram_disk_setup_completed: bool,
    pub local_preprocess_enabled: bool,
    pub local_preprocess_video_workers: usize,
    pub local_preprocess_overlap_start_percent: usize,
    pub local_preprocess_process_workers: usize,
    pub local_preprocess_frame_workers: usize,
    pub local_preprocess_temp_dir: Seq<char>,
    pub local_preprocess_secondary_temp_dir: Seq<char>,
    pub local_preprocess_secondary_threshold_mb: usize,
    pub nas_ssh_preprocess_enabled: bool,
    pub nas_ssh_host: Seq<char>,
    pub nas_ssh_user: Seq<char>,
    pub nas_ssh_password: Seq<char>,
    pub nas_ssh_host_key: Seq<char>,
    pub nas_ssh_port: u16,
    pub nas_remote_root: Seq<char>,
    pub nas_smb_root: Seq<char>,
    pub nas_ssh_ffmpeg_workers: usize,
}

impl View for AppSettings {
    type V = SettingsData;

    open spec fn view(&self) -> SettingsData {
        SettingsData {
            ui_language: self.ui_language@,
            backup_dir: self.backup_dir@,
            naming_source_dirs: models::texts(self.naming_source_dirs@),
            keeper_size_priority_duration_seconds: self.keeper_size_priority_duration_seconds,
            scan_worker_count: self.scan_worker_count,
            sample_hash_count: self.sample_hash_count,
            temporal_hash_threshold: self.temporal_hash_threshold,
            min_temporal_match_points: self.min_temporal_match_points,
            allowed_unmatched_sample_frames: self.allowed_unmatched_sample_frames,
            allow_direct_delete: self.allow_direct_delete,
            restrict_scan_to_test_path: self.restrict_scan_to_test_path,
            compare_within_same_folder: self.compare_within_same_folder,
            ai_vision_enabled: self.ai_vision_enabled,
            ai_model_path: self.ai_model_path@,
            ai_device: self.ai_device@,
            ai_frame_count: self.ai_frame_count,
            ai_batch_size: self.ai_batch_size,
            ai_similarity_threshold: self.ai_similarity_threshold,
            ai_min_matched_frames: self.ai_min_matched_frames,
            ai_clip_matching_enabled: self.ai_clip_matching_enabled,
            ai_index_after_scan: self.ai_index_after_scan,
            ai_extract_worker_count: self.ai_extract_worker_count,
            ai_gpu_worker_count: self.ai_gpu_worker_count,
            ai_match_worker_count: self.ai_match_worker_count,
            ai_frame_cache_enabled: self.ai_frame_cache_enabled,
            delete_ai_frame_cache_after_index: self.delete_ai_frame_cache_after_index,
            ram_disk_enabled: self.ram_disk_enabled,
            ram_disk_size_mb: self.ram_disk_size_mb,
            ram_disk_setup_completed: self.ram_disk_setup_completed,
            local_preprocess_enabled: self.local_preprocess_enabled,
            local_preprocess_video_workers: self.local_preprocess_video_workers,
            local_preprocess_overlap_start_percent: self.local_preprocess_overlap_start_percent,
            local_preprocess_process_workers: self.local_preprocess_process_workers,
            local_preprocess_frame_workers: self.local_preprocess_frame_workers,
            local_preprocess_temp_dir: self.local_preprocess_temp_dir@,
            local_preprocess_secondary_temp_dir: self.local_preprocess_secondary_temp_dir@,
            local_preprocess_secondary_threshold_mb: self.local_preprocess_secondary_threshold_mb,
            nas_ssh_preprocess_enabled: self.nas_ssh_preprocess_enabled,
            nas_ssh_host: self.nas_ssh_host@,
            nas_ssh_user: self.nas_ssh_user@,
            nas_ssh_password: self.nas_ssh_password@,
            nas_ssh_host_key: self.nas_ssh_host_key@,
            nas_ssh_port: self.nas_ssh_port,
            nas_remote_root: self.nas_remote_root@,
            nas_smb_root: self.nas_smb_root@,
            nas_ssh_ffmpeg_workers: self.nas_ssh_ffmpeg_workers,
        }
    }
}

/// The settings before any were saved.
pub open spec fn default_data(root: RootData) -> SettingsData {
        SettingsData {
            ui_language: "zh"@,
            backup_dir: paths::in_data(root, "backups"@),
            naming_source_dirs: Seq::empty(),
            keeper_size_priority_duration_seconds: Double { bits: DEFAULT_PRIORITY },
            scan_worker_count: 1,
            sample_hash_count: 11,
            temporal_hash_threshold: 8,
            min_temporal_match_points: 3,
            allowed_unmatched_sample_frames: 14,
            allow_direct_delete: false,
            restrict_scan_to_test_path: true,
            compare_within_same_folder: false,
            ai_vision_enabled: true,
            ai_model_path: r"models\dinov2-small-dynamic\model.onnx"@,
            ai_device: "auto"@,
            ai_frame_count: 128,
            ai_batch_size: 32,
            ai_similarity_threshold: Double { bits: DEFAULT_SIMILARITY },
            ai_min_matched_frames: 8,
            ai_clip_matching_enabled: true,
            ai_index_after_scan: true,
            ai_extract_worker_count: 4,
            ai_gpu_worker_count: 4,
            ai_match_worker_count: 8,
            ai_frame_cache_enabled: true,
            delete_ai_frame_cache_after_index: false,
            ram_disk_enabled: true,
            ram_disk_size_mb: 16_384,
            ram_disk_setup_completed: false,
            local_preprocess_enabled: true,
            local_preprocess_video_workers: 1,
            local_preprocess_overlap_start_percent: 95,
            local_preprocess_process_workers: 2,
            local_preprocess_frame_workers: 16,
            local_preprocess_temp_dir: r"Z:\TEMP"@,
            local_preprocess_secondary_temp_dir: r"D:\TEMP"@,
            local_preprocess_secondary_threshold_mb: 16_384,
            nas_ssh_preprocess_enabled: false,
            nas_ssh_host: Seq::empty(),
            nas_ssh_user: Seq::empty(),
            nas_ssh_password: Seq::empty(),
            nas_ssh_host_key: Seq::empty(),
            nas_ssh_port: 22,
            nas_remote_root: Seq::empty(),
            nas_smb_root: ALLOWED_SOURCE@,
            nas_ssh_ffmpeg_workers: 1,
        }
}

/// The settings before any were saved.
pub fn default_settings(root: &Root) -> (r: AppSettings)
    ensures
        r@ == default_data(root@),
{
    let r = AppSettings {
            ui_language: "zh".to_owned(),
            backup_dir: data_path(root, "backups"),
            naming_source_dirs: Vec::new(),
            keeper_size_priority_duration_seconds: Double { bits: DEFAULT_PRIORITY },
            scan_worker_count: 1,
            sample_hash_count: 11,
            temporal_hash_threshold: 8,
            min_temporal_match_points: 3,
            allowed_unmatched_sample_frames: 14,
            allow_direct_delete: false,
            restrict_scan_to_test_path: true,
            compare_within_same_folder: false,
            ai_vision_enabled: true,
            ai_model_path: r"models\dinov2-small-dynamic\model.onnx".to_owned(),
            ai_device: "auto".to_owned(),
            ai_frame_count: 128,
            ai_batch_size: 32,
            ai_similarity_threshold: Double { bits: DEFAULT_SIMILARITY },
            ai_min_matched_frames: 8,
            ai_clip_matching_enabled: true,
            ai_index_after_scan: true,
            ai_extract_worker_count: 4,
            ai_gpu_worker_count: 4,
            ai_match_worker_count: 8,
            ai_frame_cache_enabled: true,
            delete_ai_frame_cache_after_index: false,
            ram_disk_enabled: true,
            ram_disk_size_mb: 16_384,
            ram_disk_setup_completed: false,
            local_preprocess_enabled: true,
            local_preprocess_video_workers: 1,
            local_preprocess_overlap_start_percent: 95,
            local_preprocess_process_workers: 2,
            local_preprocess_frame_workers: 16,
            local_preprocess_temp_dir: r"Z:\TEMP".to_owned(),
            local_preprocess_secondary_temp_dir: r"D:\TEMP".to_owned(),
            local_preprocess_secondary_threshold_mb: 16_384,
            nas_ssh_preprocess_enabled: false,
            nas_ssh_host: String::new(),
            nas_ssh_user: String::new(),
            nas_ssh_password: String::new(),
            nas_ssh_host_key: String::new(),
            nas_ssh_port: 22,
            nas_remote_root: String::new(),
            nas_smb_root: ALLOWED_SOURCE.to_owned(),
            nas_ssh_ffmpeg_workers: 1,
        };
    assert(models::texts(r.naming_source_dirs@) =~= Seq::empty());
    assert(r@ =~= default_data(root@));
    r
}

/// A number moved into a range.
fn clamp(value: usize, low: usize, high: usize) -> (r: usize)
    requires
        low <= high,
    ensures
        r == matching::within(value as int, low as int, high as int),
{
    if value < low {
        low
    } else if value > high {
        high
    } else {
        value
    }
}

/// A number moved into a range.
fn clamp_small(value: u32, low: u32, high: u32) -> (r: u32)
    requires
        low <= high,
    ensures
        r == matching::within(value as int, low as int, high as int),
{
    if value < low {
        low
    } else if value > high {
        high
    } else {
        value
    }
}

/// The language of the user interface that a text names.
pub open spec fn language(value: Seq<char>) -> Seq<char> {
    let name = text::ascii_lowered(text::trimmed(value));
    if name == "en"@ || name == "english"@ {
        "en"@
    } else {
        "zh"@
    }
}

/// The language of the user interface that a text names.
pub fn normalize_ui_language(value: &str) -> (r: String)
    ensures
        r@ == language(value@),
{
    let name = ascii_lowercase(trim(value).as_str());
    if same_text(name.as_str(), "en") || same_text(name.as_str(), "english") {
        "en".to_owned()
    } else {
        "zh".to_owned()
    }
}

/// The device for the embedding model that a text names.
pub open spec fn device(value: Seq<char>) -> Seq<char> {
    let name = text::ascii_lowered(text::trimmed(value));
    if name == "gpu"@ {
        "gpu"@
    } else if name == "cpu"@ {
        "cpu"@
    } else {
        "auto"@
    }
}

/// The device for the embedding model that a text names.
pub fn normalize_ai_device(value: &str) -> (r: String)
    ensures
        r@ == device(value@),
{
    let name = ascii_lowercase(trim(value).as_str());
    if same_text(name.as_str(), "gpu") {
        "gpu".to_owned()
    } else if same_text(name.as_str(), "cpu") {
        "cpu".to_owned()
    } else {
        "auto".to_owned()
    }
}

/// The length up to which a larger file is kept, between nothing and a day.
pub open spec fn priority(value: Double) -> Double {
    if value.finite() {
        value.clamped(Double { bits: ZERO }, Double { bits: MAX_PRIORITY })
    } else {
        Double { bits: DEFAULT_PRIORITY }
    }
}

/// The length up to which a larger file is kept, between nothing and a day.
pub fn normalize_keeper_duration_seconds(value: Double) -> (r: Double)
    ensures
        r == priority(value),
{
    if value.is_finite() {
        value.clamp(Double { bits: ZERO }, Double { bits: MAX_PRIORITY })
    } else {
        Double { bits: DEFAULT_PRIORITY }
    }
}

/// A text without white space at its ends, or another where it is blank.
pub open spec fn or_default(value: Seq<char>, other: Seq<char>) -> Seq<char> {
    if text::trimmed(value).len() == 0 {
        other
    } else {
        text::trimmed(value)
    }
}

/// A text without white space at its ends, or another where it is blank.
fn trimmed_or(value: &str, other: String) -> (r: String)
    ensures
        r@ == or_default(value@, other@),
{
    let own = trim(value);
    if chars_of(own.as_str()).len() == 0 {
        other
    } else {
        own
    }
}

/// The form by which folders of a list are told apart.
pub open spec fn folder_key(path: Seq<char>) -> Seq<char> {
    text::lowercase(text::without_trailing(text::replaced(path, '/', '\\'), '\\'))
}

/// Whether a folder of a list is another one by case, slashes and white space only.
pub open spec fn lists_folder(list: Seq<Seq<char>>, path: Seq<char>) -> bool {
    exists|k: int| 0 <= k < list.len() && folder_key(#[trigger] list[k]) == folder_key(path)
}

/// The folders of a list, without white space at their ends, each where it occurs first.
pub open spec fn distinct_folders(list: Seq<Seq<char>>) -> Seq<Seq<char>>
    decreases list.len(),
{
    if list.len() == 0 {
        Seq::empty()
    } else {
        let rest = distinct_folders(list.drop_last());
        let path = text::trimmed(list.last());
        if path.len() == 0 || lists_folder(rest, path) {
            rest
        } else {
            rest.push(path)
        }
    }
}

/// The form by which folders of a list are told apart.
fn folder_key_of(path: &str) -> (r: String)
    ensures
        r@ == folder_key(path@),
{
    let slashes = text::replace_char(path, '/', '\\');
    text::trim_end_char(slashes.as_str(), '\\').to_lowercase()
}

/// The folders of a list, without white space at their ends, each where it occurs first.
pub fn normalize_path_list(list: &Vec<String>) -> (r: Vec<String>)
    ensures
        models::texts(r@) == distinct_folders(models::texts(list@)),
{
    let ghost all = models::texts(list@);
    let mut out: Vec<String> = Vec::new();
    let mut seen: Vec<String> = Vec::new();
    let mut i: usize = 0;
    assert(models::texts(out@) =~= Seq::empty());
    assert(all.take(0) =~= Seq::empty());
    while i < list.len()
        invariant
            i <= list@.len(),
            all == models::texts(list@),
            models::texts(out@) == distinct_folders(all.take(i as int)),
            seen@.len() == out@.len(),
            forall|k: int|
                0 <= k < out@.len() ==> (#[trigger] seen@[k])@ == folder_key(out@[k]@),
        decreases list@.len() - i,
    {
        let path = trim(list[i].as_str());
        let ghost rest = models::texts(out@);
        assert(all.take(i + 1).drop_last() =~= all.take(i as int));
        assert(all.take(i + 1).last() == list@[i as int]@);
        let key = folder_key_of(path.as_str());
        let known = has_line(&seen, key.as_str());
        proof {
            let keys = models::texts(seen@);
            if keys.contains(key@) {
                let k = choose|k: int| 0 <= k < keys.len() && keys[k] == key@;
                assert(seen@[k]@ == key@);
                assert(folder_key(rest[k]) == key@);
            }
            if lists_folder(rest, path@) {
                let k = choose|k: int|
                    0 <= k < rest.len() && folder_key(#[trigger] rest[k]) == folder_key(path@);
                assert(seen@[k]@ == key@);
                assert(keys[k] == key@);
            }
        }
        if chars_of(path.as_str()).len() > 0 && !known {
            add_line(&mut out, path);
            seen.push(key);
        }
        i += 1;
    }
    assert(all.take(i as int) =~= all);
    out
}

/// The settings that hold once settings were read: those that must not vary are fixed, and
/// numbers of workers and sizes are moved into their ranges.
pub open spec fn loaded_data(d: SettingsData, root: RootData) -> SettingsData {
        SettingsData {
            ui_language: language(d.ui_language),
            backup_dir: d.backup_dir,
            naming_source_dirs: d.naming_source_dirs,
            keeper_size_priority_duration_seconds: priority(d.keeper_size_priority_duration_seconds),
            scan_worker_count: d.scan_worker_count,
            sample_hash_count: d.sample_hash_count,
            temporal_hash_threshold: d.temporal_hash_threshold,
            min_temporal_match_points: d.min_temporal_match_points,
            allowed_unmatched_sample_frames: d.allowed_unmatched_sample_frames,
            allow_direct_delete: d.allow_direct_delete,
            restrict_scan_to_test_path: d.restrict_scan_to_test_path,
            compare_within_same_folder: d.compare_within_same_folder,
            ai_vision_enabled: d.ai_vision_enabled,
            ai_model_path: d.ai_model_path,
            ai_device: d.ai_device,
            ai_frame_count: d.ai_frame_count,
            ai_batch_size: d.ai_batch_size,
            ai_similarity_threshold: d.ai_similarity_threshold,
            ai_min_matched_frames: d.ai_min_matched_frames,
            ai_clip_matching_enabled: d.ai_clip_matching_enabled,
            ai_index_after_scan: d.ai_index_after_scan,
            ai_extract_worker_count: d.ai_extract_worker_count,
            ai_gpu_worker_count: matching::within(d.ai_gpu_worker_count as int, 1, 64) as usize,
            ai_match_worker_count: matching::within(d.ai_match_worker_count as int, 1, 128) as usize,
            ai_frame_cache_enabled: true,
            delete_ai_frame_cache_after_index: d.delete_ai_frame_cache_after_index,
            ram_disk_enabled: d.ram_disk_enabled,
            ram_disk_size_mb: matching::within(d.ram_disk_size_mb as int, 512, 1048576) as usize,
            ram_disk_setup_completed: d.ram_disk_setup_completed,
            local_preprocess_enabled: true,
            local_preprocess_video_workers: matching::within(d.local_preprocess_video_workers as int, 1, 8) as usize,
            local_preprocess_overlap_start_percent: matching::within(d.local_preprocess_overlap_start_percent as int, 50, 99) as usize,
            local_preprocess_process_workers: matching::within(d.local_preprocess_process_workers as int, 1, 4) as usize,
            local_preprocess_frame_workers: d.local_preprocess_frame_workers,
            local_preprocess_temp_dir: or_default(d.local_preprocess_temp_dir, default_data(root).local_preprocess_temp_dir),
            local_preprocess_secondary_temp_dir: or_default(d.local_preprocess_secondary_temp_dir, default_data(root).local_preprocess_secondary_temp_dir),
            local_preprocess_secondary_threshold_mb: matching::within(d.local_preprocess_secondary_threshold_mb as int, 512, 1048576) as usize,
            nas_ssh_preprocess_enabled: false,
            nas_ssh_host: d.nas_ssh_host,
            nas_ssh_user: d.nas_ssh_user,
            nas_ssh_password: d.nas_ssh_password,
            nas_ssh_host_key: d.nas_ssh_host_key,
            nas_ssh_port: d.nas_ssh_port,
            nas_remote_root: d.nas_remote_root,
            nas_smb_root: d.nas_smb_root,
            nas_ssh_ffmpeg_workers: d.nas_ssh_ffmpeg_workers,
        }
}

/// The settings that hold: those that were stored, put in order, or the defaults.
pub fn get_app_settings(stored: Option<AppSettings>, root: &Root) -> (r: AppSettings)
    ensures
        r@ == (match stored {
            Some(settings) => loaded_data(settings@, root@),
            None => default_data(root@),
        }),
{
    let defaults = default_settings(root);
    match stored {
        None => defaults,
        Some(settings) => {
            let r = AppSettings {
            ui_language: normalize_ui_language(settings.ui_language.as_str()),
            backup_dir: settings.backup_dir,
            naming_source_dirs: settings.naming_source_dirs,
            keeper_size_priority_duration_seconds: normalize_keeper_duration_seconds(settings.keeper_size_priority_duration_seconds),
            scan_worker_count: settings.scan_worker_count,
            sample_hash_count: settings.sample_hash_count,
            temporal_hash_threshold: settings.temporal_hash_threshold,
            min_temporal_match_points: settings.min_temporal_match_points,
            allowed_unmatched_sample_frames: settings.allowed_unmatched_sample_frames,
            allow_direct_delete: settings.allow_direct_delete,
            restrict_scan_to_test_path: settings.restrict_scan_to_test_path,
            compare_within_same_folder: settings.compare_within_same_folder,
            ai_vision_enabled: settings.ai_vision_enabled,
            ai_model_path: settings.ai_model_path,
            ai_device: settings.ai_device,
            ai_frame_count: settings.ai_frame_count,
            ai_batch_size: settings.ai_batch_size,
            ai_similarity_threshold: settings.ai_similarity_threshold,
            ai_min_matched_frames: settings.ai_min_matched_frames,
            ai_clip_matching_enabled: settings.ai_clip_matching_enabled,
            ai_index_after_scan: settings.ai_index_after_scan,
            ai_extract_worker_count: settings.ai_extract_worker_count,
            ai_gpu_worker_count: clamp(settings.ai_gpu_worker_count, 1, 64),
            ai_match_worker_count: clamp(settings.ai_match_worker_count, 1, 128),
            ai_frame_cache_enabled: true,
            delete_ai_frame_cache_after_index: settings.delete_ai_frame_cache_after_index,
            ram_disk_enabled: settings.ram_disk_enabled,
            ram_disk_size_mb: clamp(settings.ram_disk_size_mb, 512, 1048576),
            ram_disk_setup_completed: settings.ram_disk_setup_completed,
            local_preprocess_enabled: true,
            local_preprocess_video_workers: clamp(settings.local_preprocess_video_workers, 1, 8),
            local_preprocess_overlap_start_percent: clamp(settings.local_preprocess_overlap_start_percent, 50, 99),
            local_preprocess_process_workers: clamp(settings.local_preprocess_process_workers, 1, 4),
            local_preprocess_frame_workers: settings.local_preprocess_frame_workers,
            local_preprocess_temp_dir: trimmed_or(settings.local_preprocess_temp_dir.as_str(), defaults.local_preprocess_temp_dir),
            local_preprocess_secondary_temp_dir: trimmed_or(settings.local_preprocess_secondary_temp_dir.as_str(), defaults.local_preprocess_secondary_temp_dir),
            local_preprocess_secondary_threshold_mb: clamp(settings.local_preprocess_secondary_threshold_mb, 512, 1048576),
            nas_ssh_preprocess_enabled: false,
            nas_ssh_host: settings.nas_ssh_host,
            nas_ssh_user: settings.nas_ssh_user,
            nas_ssh_password: settings.nas_ssh_password,
            nas_ssh_host_key: settings.nas_ssh_host_key,
            nas_ssh_port: settings.nas_ssh_port,
            nas_remote_root: settings.nas_remote_root,
            nas_smb_root: settings.nas_smb_root,
            nas_ssh_ffmpeg_workers: settings.nas_ssh_ffmpeg_workers,
        };
            assert(r@ =~= loaded_data(settings@, root@));
            r
        },
    }
}

/// The settings that are stored where some are saved: each value is moved into its range, blank
/// texts give way to the defaults, and the storage server is off.
pub open spec fn saved_data(d: SettingsData, root: RootData) -> SettingsData {
        SettingsData {
            ui_language: language(d.ui_language),
            backup_dir: or_default(d.backup_dir, default_data(root).backup_dir),
            naming_source_dirs: distinct_folders(d.naming_source_dirs),
            keeper_size_priority_duration_seconds: priority(d.keeper_size_priority_duration_seconds),
            scan_worker_count: matching::within(d.scan_worker_count as int, 1, 4) as usize,
            sample_hash_count: matching::within(d.sample_hash_count as int, 3, 20) as usize,
            temporal_hash_threshold: matching::within(d.temporal_hash_threshold as int, 6, 24) as u32,
            min_temporal_match_points: matching::within(d.min_temporal_match_points as int, 1, 10) as usize,
            allowed_unmatched_sample_frames: matching::within(d.allowed_unmatched_sample_frames as int, 0, 20) as usize,
            allow_direct_delete: d.allow_direct_delete,
            restrict_scan_to_test_path: d.restrict_scan_to_test_path,
            compare_within_same_folder: d.compare_within_same_folder,
            ai_vision_enabled: d.ai_vision_enabled,
            ai_model_path: or_default(d.ai_model_path, default_data(root).ai_model_path),
            ai_device: device(d.ai_device),
            ai_frame_count: matching::within(d.ai_frame_count as int, 8, 512) as usize,
            ai_batch_size: matching::within(d.ai_batch_size as int, 1, 64) as usize,
            ai_similarity_threshold: d.ai_similarity_threshold.clamped(Double { bits: ZERO }, Double { bits: MAX_SIMILARITY }),
            ai_min_matched_frames: matching::within(d.ai_min_matched_frames as int, 1, 128) as usize,
            ai_clip_matching_enabled: d.ai_clip_matching_enabled,
            ai_index_after_scan: d.ai_index_after_scan,
            ai_extract_worker_count: matching::within(d.ai_extract_worker_count as int, 1, 8) as usize,
            ai_gpu_worker_count: matching::within(d.ai_gpu_worker_count as int, 1, 64) as usize,
            ai_match_worker_count: matching::within(d.ai_match_worker_count as int, 1, 128) as usize,
            ai_frame_cache_enabled: true,
            delete_ai_frame_cache_after_index: d.delete_ai_frame_cache_after_index,
            ram_disk_enabled: d.ram_disk_enabled,
            ram_disk_size_mb: matching::within(d.ram_disk_size_mb as int, 512, 1048576) as usize,
            ram_disk_setup_completed: d.ram_disk_setup_completed,
            local_preprocess_enabled: true,
            local_preprocess_video_workers: matching::within(d.local_preprocess_video_workers as int, 1, 8) as usize,
            local_preprocess_overlap_start_percent: matching::within(d.local_preprocess_overlap_start_percent as int, 50, 99) as usize,
            local_preprocess_process_workers: matching::within(d.local_preprocess_process_workers as int, 1, 4) as usize,
            local_preprocess_frame_workers: matching::within(d.local_preprocess_frame_workers as int, 1, 64) as usize,
            local_preprocess_temp_dir: or_default(d.local_preprocess_temp_dir, default_data(root).local_preprocess_temp_dir),
            local_preprocess_secondary_temp_dir: or_default(d.local_preprocess_secondary_temp_dir, default_data(root).local_preprocess_secondary_temp_dir),
            local_preprocess_secondary_threshold_mb: matching::within(d.local_preprocess_secondary_threshold_mb as int, 512, 1048576) as usize,
            nas_ssh_preprocess_enabled: default_data(root).nas_ssh_preprocess_enabled,
            nas_ssh_host: default_data(root).nas_ssh_host,
            nas_ssh_user: default_data(root).nas_ssh_user,
            nas_ssh_password: default_data(root).nas_ssh_password,
            nas_ssh_host_key: default_data(root).nas_ssh_host_key,
            nas_ssh_port: default_data(root).nas_ssh_port,
            nas_remote_root: default_data(root).nas_remote_root,
            nas_smb_root: default_data(root).nas_smb_root,
            nas_ssh_ffmpeg_workers: default_data(root).nas_ssh_ffmpeg_workers,
        }
}

/// The settings that are stored where some are saved.
pub fn save_app_settings(settings: &AppSettings, root: &Root) -> (r: AppSettings)
    ensures
        r@ == saved_data(settings@, root@),
{
    let defaults = default_settings(root);
    let r = AppSettings {
            ui_language: normalize_ui_language(settings.ui_language.as_str()),
            backup_dir: trimmed_or(settings.backup_dir.as_str(), defaults.backup_dir),
            naming_source_dirs: normalize_path_list(&settings.naming_source_dirs),
            keeper_size_priority_duration_seconds: normalize_keeper_duration_seconds(settings.keeper_size_priority_duration_seconds),
            scan_worker_count: clamp(settings.scan_worker_count, 1, 4),
            sample_hash_count: clamp(settings.sample_hash_count, 3, 20),
            temporal_hash_threshold: clamp_small(settings.temporal_hash_threshold, 6, 24),
            min_temporal_match_points: clamp(settings.min_temporal_match_points, 1, 10),
            allowed_unmatched_sample_frames: clamp(settings.allowed_unmatched_sample_frames, 0, 20),
            allow_direct_delete: settings.allow_direct_delete,
            restrict_scan_to_test_path: settings.restrict_scan_to_test_path,
            compare_within_same_folder: settings.compare_within_same_folder,
            ai_vision_enabled: settings.ai_vision_enabled,
            ai_model_path: trimmed_or(settings.ai_model_path.as_str(), defaults.ai_model_path),
            ai_device: normalize_ai_device(settings.ai_device.as_str()),
            ai_frame_count: clamp(settings.ai_frame_count, 8, 512),
            ai_batch_size: clamp(settings.ai_batch_size, 1, 64),
            ai_similarity_threshold: settings.ai_similarity_threshold.clamp(Double { bits: ZERO }, Double { bits: MAX_SIMILARITY }),
            ai_min_matched_frames: clamp(settings.ai_min_matched_frames, 1, 128),
            ai_clip_matching_enabled: settings.ai_clip_matching_enabled,
            ai_index_after_scan: settings.ai_index_after_scan,
            ai_extract_worker_count: clamp(settings.ai_extract_worker_count, 1, 8),
            ai_gpu_worker_count: clamp(settings.ai_gpu_worker_count, 1, 64),
            ai_match_worker_count: clamp(settings.ai_match_worker_count, 1, 128),
            ai_frame_cache_enabled: true,
            delete_ai_frame_cache_after_index: settings.delete_ai_frame_cache_after_index,
            ram_disk_enabled: settings.ram_disk_enabled,
            ram_disk_size_mb: clamp(settings.ram_disk_size_mb, 512, 1048576),
            ram_disk_setup_completed: settings.ram_disk_setup_completed,
            local_preprocess_enabled: true,
            local_preprocess_video_workers: clamp(settings.local_preprocess_video_workers, 1, 8),
            local_preprocess_overlap_start_percent: clamp(settings.local_preprocess_overlap_start_percent, 50, 99),
            local_preprocess_process_workers: clamp(settings.local_preprocess_process_workers, 1, 4),
            local_preprocess_frame_workers: clamp(settings.local_preprocess_frame_workers, 1, 64),
            local_preprocess_temp_dir: trimmed_or(settings.local_preprocess_temp_dir.as_str(), defaults.local_preprocess_temp_dir),
            local_preprocess_secondary_temp_dir: trimmed_or(settings.local_preprocess_secondary_temp_dir.as_str(), defaults.local_preprocess_secondary_temp_dir),
            local_preprocess_secondary_threshold_mb: clamp(settings.local_preprocess_secondary_threshold_mb, 512, 1048576),
            nas_ssh_preprocess_enabled: defaults.nas_ssh_preprocess_enabled,
            nas_ssh_host: defaults.nas_ssh_host,
            nas_ssh_user: defaults.nas_ssh_user,
            nas_ssh_password: defaults.nas_ssh_password,
            nas_ssh_host_key: defaults.nas_ssh_host_key,
            nas_ssh_port: defaults.nas_ssh_port,
            nas_remote_root: defaults.nas_remote_root,
            nas_smb_root: defaults.nas_smb_root,
            nas_ssh_ffmpeg_workers: defaults.nas_ssh_ffmpeg_workers,
        };
    assert(r@ =~= saved_data(settings@, root@));
    r
}

proof fn lemma_trimmed_end_ends(s: Seq<char>)
    ensures
        text::trimmed_end(s).len() <= s.len(),
        text::trimmed_end(s).len() > 0 ==> !text::is_white_space(text::trimmed_end(s).last())
            && text::trimmed_end(s)[0] == s[0],
    decreases s.len(),
{
    if s.len() > 0 && text::is_white_space(s.last()) {
        lemma_trimmed_end_ends(s.drop_last());
    }
}

proof fn lemma_trimmed_start_starts(s: Seq<char>)
    ensures
        text::trimmed_start(s).len() > 0 ==> !text::is_white_space(text::trimmed_start(s)[0]),
    decreases s.len(),
{
    if s.len() > 0 && text::is_white_space(s[0]) {
        lemma_trimmed_start_starts(s.drop_first());
    }
}

proof fn lemma_trimmed_twice(s: Seq<char>)
    ensures
        text::trimmed(text::trimmed(s)) == text::trimmed(s),
{
    lemma_trimmed_start_starts(s);
    lemma_trimmed_end_ends(text::trimmed_start(s));
}

proof fn lemma_or_default_twice(value: Seq<char>, other: Seq<char>)
    requires
        text::trimmed(other) == other || text::trimmed(value).len() > 0,
    ensures
        or_default(or_default(value, other), other) == or_default(value, other),
{
    lemma_trimmed_twice(value);
}

proof fn lemma_language_twice(value: Seq<char>)
    ensures
        language(language(value)) == language(value),
{
    reveal_strlit("en");
    reveal_strlit("english");
    reveal_strlit("zh");
    let zh = "zh"@;
    let en = "en"@;
    assert(text::trimmed_start(zh) =~= zh);
    assert(text::trimmed_end(zh) =~= zh);
    assert(text::ascii_lowered(zh) =~= zh);
    assert(text::trimmed_start(en) =~= en);
    assert(text::trimmed_end(en) =~= en);
    assert(text::ascii_lowered(en) =~= en);
    assert(zh[0] != en[0]);
    assert(zh.len() != "english"@.len());
}

proof fn lemma_device_twice(value: Seq<char>)
    ensures
        device(device(value)) == device(value),
{
    reveal_strlit("gpu");
    reveal_strlit("cpu");
    reveal_strlit("auto");
    let gpu = "gpu"@;
    let cpu = "cpu"@;
    let auto_name = "auto"@;
    assert(text::trimmed_start(gpu) =~= gpu);
    assert(text::trimmed_end(gpu) =~= gpu);
    assert(text::ascii_lowered(gpu) =~= gpu);
    assert(text::trimmed_start(cpu) =~= cpu);
    assert(text::trimmed_end(cpu) =~= cpu);
    assert(text::ascii_lowered(cpu) =~= cpu);
    assert(text::trimmed_start(auto_name) =~= auto_name);
    assert(text::trimmed_end(auto_name) =~= auto_name);
    assert(text::ascii_lowered(auto_name) =~= auto_name);
    assert(cpu[0] != gpu[0]);
    assert(auto_name.len() != gpu.len());
}

proof fn lemma_folders_in_order(list: Seq<Seq<char>>)
    ensures
        distinct_folders(list).len() <= list.len(),
        forall|k: int|
            0 <= k < distinct_folders(list).len() ==> (#[trigger] distinct_folders(list)[k]).len()
                > 0 && text::trimmed(distinct_folders(list)[k]) == distinct_folders(list)[k],
        forall|i: int, j: int|
            #![trigger distinct_folders(list)[i], distinct_folders(list)[j]]
            0 <= i < j < distinct_folders(list).len() ==> folder_key(distinct_folders(list)[i])
                != folder_key(distinct_folders(list)[j]),
    decreases list.len(),
{
    if list.len() > 0 {
        lemma_folders_in_order(list.drop_last());
        lemma_trimmed_twice(list.last());
        let rest = distinct_folders(list.drop_last());
        let path = text::trimmed(list.last());
        if path.len() > 0 && !lists_folder(rest, path) {
            assert forall|i: int, j: int|
                #![trigger distinct_folders(list)[i], distinct_folders(list)[j]]
                0 <= i < j < distinct_folders(list).len() implies folder_key(
                distinct_folders(list)[i],
            ) != folder_key(distinct_folders(list)[j]) by {
                if j == rest.len() {
                    assert(folder_key(rest[i]) != folder_key(path));
                }
            }
        }
    }
}

proof fn lemma_ordered_folders_stay(list: Seq<Seq<char>>)
    requires
        forall|k: int|
            0 <= k < list.len() ==> (#[trigger] list[k]).len() > 0 && text::trimmed(list[k])
                == list[k],
        forall|i: int, j: int|
            #![trigger list[i], list[j]]
            0 <= i < j < list.len() ==> folder_key(list[i]) != folder_key(list[j]),
    ensures
        distinct_folders(list) == list,
    decreases list.len(),
{
    if list.len() > 0 {
        let start = list.drop_last();
        assert forall|k: int| 0 <= k < start.len() implies (#[trigger] start[k]).len() > 0
            && text::trimmed(start[k]) == start[k] by {
            assert(start[k] == list[k]);
        }
        assert forall|i: int, j: int|
            #![trigger start[i], start[j]]
            0 <= i < j < start.len() implies folder_key(start[i]) != folder_key(start[j]) by {
            assert(folder_key(list[i]) != folder_key(list[j]));
        }
        lemma_ordered_folders_stay(start);
        let last = list[list.len() - 1];
        assert(!lists_folder(start, last)) by {
            if lists_folder(start, last) {
                let k = choose|k: int|
                    0 <= k < start.len() && folder_key(#[trigger] start[k]) == folder_key(last);
                assert(start[k] == list[k]);
                assert(folder_key(list[k]) != folder_key(list[list.len() - 1]));
            }
        }
        assert(start.push(last) =~= list);
    } else {
        assert(distinct_folders(list) =~= list);
    }
}

/// Whether the backup folder that is saved has no white space at its ends: one is named, or the
/// default one has none.
pub open spec fn backup_is_plain(d: SettingsData, root: RootData) -> bool {
    text::trimmed(d.backup_dir).len() > 0 || text::trimmed(default_data(root).backup_dir)
        == default_data(root).backup_dir
}

proof fn lemma_saved_texts_stay(d: SettingsData, root: RootData)
    requires
        backup_is_plain(d, root),
    ensures
        ({
            let s = saved_data(d, root);
            let def = default_data(root);
            &&& or_default(s.backup_dir, def.backup_dir) == s.backup_dir
            &&& or_default(s.ai_model_path, def.ai_model_path) == s.ai_model_path
            &&& or_default(s.local_preprocess_temp_dir, def.local_preprocess_temp_dir)
                == s.local_preprocess_temp_dir
            &&& or_default(
                s.local_preprocess_secondary_temp_dir,
                def.local_preprocess_secondary_temp_dir,
            ) == s.local_preprocess_secondary_temp_dir
            &&& language(s.ui_language) == s.ui_language
            &&& device(s.ai_device) == s.ai_device
            &&& distinct_folders(s.naming_source_dirs) == s.naming_source_dirs
        }),
{
    let def = default_data(root);
    lemma_language_twice(d.ui_language);
    lemma_device_twice(d.ai_device);
    lemma_folders_in_order(d.naming_source_dirs);
    lemma_ordered_folders_stay(distinct_folders(d.naming_source_dirs));
    reveal_strlit(r"models\dinov2-small-dynamic\model.onnx");
    reveal_strlit(r"Z:\TEMP");
    reveal_strlit(r"D:\TEMP");
    assert(text::trimmed_start(def.ai_model_path) =~= def.ai_model_path);
    assert(text::trimmed_end(def.ai_model_path) =~= def.ai_model_path);
    let first = def.local_preprocess_temp_dir;
    assert(text::trimmed_start(first) =~= first);
    assert(text::trimmed_end(first) =~= first);
    let second = def.local_preprocess_secondary_temp_dir;
    assert(text::trimmed_start(second) =~= second);
    assert(text::trimmed_end(second) =~= second);
    lemma_or_default_twice(d.backup_dir, def.backup_dir);
    lemma_or_default_twice(d.ai_model_path, def.ai_model_path);
    lemma_or_default_twice(d.local_preprocess_temp_dir, first);
    lemma_or_default_twice(d.local_preprocess_secondary_temp_dir, second);
}

/// Saving settings that were saved changes nothing.
pub proof fn law_saving_twice_changes_nothing(d: SettingsData, root: RootData)
    requires
        backup_is_plain(d, root),
    ensures
        saved_data(saved_data(d, root), root) == saved_data(d, root),
{
    lemma_saved_texts_stay(d, root);
    assert(saved_data(saved_data(d, root), root) =~= saved_data(d, root));
}

/// Settings that were saved are read back as they were saved.
pub proof fn law_saved_settings_are_read_back(d: SettingsData, root: RootData)
    requires
        backup_is_plain(d, root),
    ensures
        loaded_data(saved_data(d, root), root) == saved_data(d, root),
{
    lemma_saved_texts_stay(d, root);
    assert(loaded_data(saved_data(d, root), root) =~= saved_data(d, root));
}

/// The file that holds the settings.
pub fn settings_path(root: &Root) -> (r: String)
    ensures
        r@ == paths::in_data(root@, "settings.json"@),
{
    data_path(root, "settings.json")
}

/// Whether the settings let files at a path be worked on.
pub open spec fn path_allowed(path: Seq<char>, restricted: bool, root: RootData) -> bool {
    !restricted || paths::scan_allowed(path, root)
}

/// Whether the settings let files at a path be worked on.
pub fn is_path_allowed_by_settings(path: &str, settings: &AppSettings, root: &Root) -> (r: bool)
    ensures
        r == path_allowed(path@, settings.restrict_scan_to_test_path, root@),
{
    !settings.restrict_scan_to_test_path || paths::is_allowed_scan_path(path, root)
}

/// The message that a path may not be worked on.
pub open spec fn outside_message() -> Seq<char> {
    "video path is outside "@ + ALLOWED_SOURCE@
}

/// Fails where the settings do not let files at a path be worked on.
pub fn validate_operable_path(path: &str, restricted: bool, root: &Root) -> (r: Result<(), String>)
    ensures
        r is Ok == path_allowed(path@, restricted, root@),
        r matches Err(message) ==> message@ == outside_message(),
{
    if restricted && !paths::is_allowed_scan_path(path, root) {
        Err(text::cat("video path is outside ", ALLOWED_SOURCE))
    } else {
        Ok(())
    }
}

} // verus!
