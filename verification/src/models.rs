//! The values that the parts of the program hand to each other.
use crate::double::Double;
use vstd::prelude::*;

verus! {

/// Where the program keeps its data and which media tools it found.
#[derive(Debug, Clone)]
pub struct ToolStatus {
    pub workspace_root: String,
    pub data_dir: String,
    pub database_path: String,
    pub allowed_source: String,
    pub ffmpeg_path: Option<String>,
    pub ffprobe_path: Option<String>,
    pub ffmpeg_version: Option<String>,
    pub ffprobe_version: Option<String>,
}

/// The outcome of one scan of a source.
#[derive(Debug, Clone)]
pub struct ScanSummary {
    pub session_id: Option<i64>,
    pub source: String,
    pub database_path: String,
    pub total_files: usize,
    pub scanned: usize,
    pub failed: usize,
    pub elapsed_ms: u128,
}

/// One recorded scan of a source.
#[derive(Debug, Clone)]
pub struct ScanSession {
    pub id: i64,
    pub source: String,
    pub started_unix_ms: i64,
    pub completed_unix_ms: Option<i64>,
    pub total_files: usize,
    pub scanned: usize,
    pub failed: usize,
}

/// How far a running scan is.
#[derive(Debug, Clone)]
pub struct ScanProgress {
    pub source: String,
    pub phase: String,
    pub total_files: usize,
    pub scanned: usize,
    pub failed: usize,
    pub current_path: Option<String>,
}

/// What a check of the recorded sources removed and left.
#[derive(Debug, Clone)]
pub struct IndexRefreshSummary {
    pub removed_missing_sources: usize,
    pub skipped_unavailable_roots: usize,
}

/// What the removal of scan sessions took out of the index.
#[derive(Debug, Clone)]
pub struct DeleteIndexSummary {
    pub requested_sessions: usize,
    pub deleted_sessions: usize,
    pub affected_videos: usize,
    pub deleted_videos: usize,
    pub deleted_pair_scores: usize,
    pub deleted_match_edges: usize,
    pub deleted_frame_embeddings: usize,
}

/// What the removal of stale videos took out of the index.
#[derive(Debug, Clone)]
pub struct StaleVideoPruneSummary {
    pub checked_videos: usize,
    pub removed_missing_videos: usize,
    pub removed_orphan_videos: usize,
    pub deleted_pair_scores: usize,
    pub deleted_match_edges: usize,
    pub deleted_frame_embeddings: usize,
}

/// The space that one part of the data directory takes.
#[derive(Debug, Clone)]
pub struct StorageUsageItem {
    pub key: String,
    pub path: String,
    pub bytes: u64,
    pub file_count: usize,
}

/// The number of rows of each table of the index.
#[derive(Debug, Clone)]
pub struct StorageDatabaseStats {
    pub videos: usize,
    pub scan_sessions: usize,
    pub frame_embeddings: usize,
    pub ai_pair_scores: usize,
    pub ai_match_edges: usize,
    pub embedding_models: usize,
}

/// The space that the data directory takes.
#[derive(Debug, Clone)]
pub struct StorageUsageSummary {
    pub data_dir: String,
    pub total_bytes: u64,
    pub items: Vec<StorageUsageItem>,
    pub database_stats: StorageDatabaseStats,
}

/// What a cleanup of the data directory removed.
#[derive(Debug, Clone)]
pub struct StorageCleanupSummary {
    pub deleted_ai_frame_cache_files: usize,
    pub deleted_ai_frame_cache_bytes: u64,
    pub deleted_thumbnail_files: usize,
    pub deleted_thumbnail_bytes: u64,
    pub removed_orphan_videos: usize,
    pub deleted_pair_scores: usize,
    pub deleted_match_edges: usize,
    pub deleted_frame_embeddings: usize,
}

/// What a cleanup of the frames of indexed videos removed.
#[derive(Debug, Clone)]
pub struct CompletedAiFrameCacheCleanupSummary {
    pub checked_videos: usize,
    pub eligible_videos: usize,
    pub deleted_files: usize,
    pub deleted_bytes: u64,
}

/// The size of the database before and after it was compacted.
#[derive(Debug, Clone)]
pub struct VacuumSummary {
    pub before_bytes: u64,
    pub after_bytes: u64,
    pub reclaimed_bytes: u64,
}

/// How far the removal of scan sessions is.
#[derive(Debug, Clone)]
pub struct DeleteIndexProgress {
    pub phase: String,
    pub phase_processed: usize,
    pub phase_total: usize,
    pub requested_sessions: usize,
    pub deleted_sessions: usize,
    pub affected_videos: usize,
    pub deleted_videos: usize,
}

/// How far the indexing of frames is.
#[derive(Debug, Clone)]
pub struct AiIndexProgress {
    pub phase: String,
    pub total_videos: usize,
    pub processed: usize,
    pub skipped: usize,
    pub insufficient_frames: usize,
    pub failed: usize,
    pub started: usize,
    pub prepared: usize,
    pub current_path: Option<String>,
}

/// The state of the memory disk that holds the staging cache.
#[derive(Debug, Clone)]
pub struct RamDiskStatus {
    pub supported: bool,
    pub driver_installed: bool,
    pub mounted: bool,
    pub ready: bool,
    pub setup_completed: bool,
    pub configured_size_mb: usize,
    pub actual_capacity_mb: Option<u64>,
    pub drive_letter: Option<String>,
    pub cache_path: String,
    pub message: String,
}

/// How far the comparison of videos is.
#[derive(Debug, Clone)]
pub struct MatchRefreshProgress {
    pub phase: String,
    pub total_videos: usize,
    pub total_pairs: usize,
    pub processed_pairs: usize,
    pub cached_pairs: usize,
    pub computed_pairs: usize,
    pub groups: usize,
    pub pairs_per_second: Double,
    pub phase_processed: usize,
    pub phase_total: usize,
    pub phase_pairs_per_second: Double,
}

/// The outcome of the indexing of frames.
#[derive(Debug, Clone)]
pub struct AiIndexSummary {
    pub model_id: String,
    pub model_path: String,
    pub total_videos: usize,
    pub processed: usize,
    pub skipped: usize,
    pub insufficient_frames: usize,
    pub failed: usize,
    pub elapsed_ms: u128,
    pub recent_errors: Vec<String>,
}

/// The outcome of frame extraction on the storage server.
#[derive(Debug, Clone)]
pub struct NasPreprocessSummary {
    pub total_videos: usize,
    pub imported: usize,
    pub skipped: usize,
    pub failed: usize,
    pub bundle_dir: Option<String>,
    pub recent_errors: Vec<String>,
}

/// The outcome of frame extraction from staged copies.
#[derive(Debug, Clone)]
pub struct LocalPreprocessSummary {
    pub total_videos: usize,
    pub imported: usize,
    pub skipped: usize,
    pub insufficient_frames: usize,
    pub failed: usize,
    pub staging_dir: Option<String>,
    pub recent_errors: Vec<String>,
}

/// Whether the embedding model can be used.
#[derive(Debug, Clone)]
pub struct AiModelStatus {
    pub enabled: bool,
    pub ready: bool,
    pub model_id: Option<String>,
    pub model_path: String,
    pub device: String,
    pub message: String,
}

/// One video of the index.
#[derive(Debug, Clone)]
pub struct VideoRecord {
    pub id: Option<i64>,
    pub path: String,
    pub file_name: String,
    pub parent_path: String,
    pub size_bytes: u64,
    pub modified_unix_ms: i64,
    pub extension: String,
    pub container_format: Option<String>,
    pub duration_seconds: Option<Double>,
    pub width: Option<u32>,
    pub height: Option<u32>,
    pub bitrate: Option<u64>,
    pub codec: Option<String>,
    pub frame_rate: Option<Double>,
    pub audio_codec: Option<String>,
    pub partial_hash: Option<String>,
    pub sample_hashes: Vec<String>,
    pub preview_images: Vec<String>,
    pub scan_status: String,
    pub error: Option<String>,
    pub quality_score: Double,
    pub scanned_at_unix_ms: i64,
}

/// The embedding of one frame; each coordinate is the bit pattern of a single-precision number.
#[derive(Debug, Clone)]
pub struct FrameEmbeddingRecord {
    pub video_id: i64,
    pub model_id: String,
    pub frame_index: usize,
    pub timestamp_seconds: Double,
    pub embedding: Vec<u32>,
    pub norm: Double,
}

/// The cached comparison of two videos under one model and one set of options.
#[derive(Debug, Clone)]
pub struct AiPairScoreRecord {
    pub video_a_id: i64,
    pub video_b_id: i64,
    pub model_id: String,
    pub cache_key: String,
    pub confidence: Double,
    pub matched: usize,
    pub compared: usize,
    pub average_similarity: Double,
    pub coverage: Double,
    pub created_unix_ms: i64,
}

/// A stretch of a video that another one repeats.
#[derive(Debug, Clone)]
pub struct MatchRange {
    pub start_seconds: Double,
    pub end_seconds: Double,
    pub start_fraction: Double,
    pub end_fraction: Double,
    pub matched_frames: usize,
    pub average_similarity: Double,
}

/// One matching frame of a video.
#[derive(Debug, Clone)]
pub struct MatchHitPoint {
    pub seconds: Double,
    pub fraction: Double,
    pub similarity: Double,
}

/// How a video relates to the other one of its group that it matches best.
#[derive(Debug, Clone)]
pub struct MatchDetail {
    pub peer_video_id: Option<i64>,
    pub peer_file_name: String,
    pub points: Vec<MatchHitPoint>,
    pub start_seconds: Double,
    pub end_seconds: Double,
    pub hit_count: usize,
    pub displayed_hit_count: usize,
    pub average_similarity: Double,
    pub confidence: Double,
    pub short_coverage: Double,
    pub long_compactness: Double,
    pub long_span_seconds: Double,
    pub long_span_fraction: Double,
    pub relation_type: String,
    pub relation_label: String,
    pub relation_explanation: String,
}

/// One video of a match group.
#[derive(Debug, Clone)]
pub struct MatchItem {
    pub video: VideoRecord,
    pub role: String,
    pub quality_rank: usize,
    pub match_ranges: Vec<MatchRange>,
    pub match_detail: Option<MatchDetail>,
}

/// Videos that repeat one another.
#[derive(Debug, Clone)]
pub struct MatchGroup {
    pub id: String,
    pub title: String,
    pub kind: String,
    pub confidence: Double,
    pub recommended_video_id: Option<i64>,
    pub reclaimable_bytes: u64,
    pub item_count: usize,
    pub evidence: Vec<String>,
    pub report: String,
    pub items: Vec<MatchItem>,
}

/// How a better copy takes the name and place of another one.
#[derive(Debug, Clone)]
pub struct ReplacementPlan {
    pub plan_id: String,
    pub high_quality_id: i64,
    pub naming_source_id: i64,
    pub high_quality_path: String,
    pub target_path: String,
    pub backup_path: String,
    pub plan_file: String,
    pub steps: Vec<String>,
    pub warnings: Vec<String>,
}

/// The outcome of an operation on files.
#[derive(Debug, Clone)]
pub struct OperationResult {
    pub operation_id: String,
    pub status: String,
    pub log_file: String,
    pub messages: Vec<String>,
}

/// One group of a batch merge: the copy to keep, the copy that gives place and name, and the rest.
#[derive(Debug, Clone)]
pub struct BatchMergeTask {
    pub keeper_id: i64,
    pub naming_source_id: i64,
    pub filename_source_id: Option<i64>,
    pub extra_video_ids: Vec<i64>,
}

/// One operation of the log, as it is listed.
#[derive(Debug, Clone)]
pub struct OperationHistoryEntry {
    pub operation_id: String,
    pub action: String,
    pub summary: String,
    pub created_at_unix_ms: i64,
    pub reversible: bool,
    pub rolled_back: bool,
    pub messages: Vec<String>,
}

/// The settings of the program.
#[derive(Debug, Clone)]
pub struct AppSettings {
    pub ui_language: String,
    pub backup_dir: String,
    pub naming_source_dirs: Vec<String>,
    pub keeper_size_priority_duration_seconds: Double,
    pub scan_worker_count: usize,
    pub sample_hash_count: usize,
    pub temporal_hash_threshold: u32,
    pub min_temporal_match_points: usize,
    pub allowed_unmatched_sample_frames: usize,
    pub allow_direct_delete: bool,
    pub restrict_scan_to_test_path: bool,
    pub compare_within_same_folder: bool,
    pub ai_vision_enabled: bool,
    pub ai_model_path: String,
    pub ai_device: String,
    pub ai_frame_count: usize,
    pub ai_batch_size: usize,
    pub ai_similarity_threshold: Double,
    pub ai_min_matched_frames: usize,
    pub ai_clip_matching_enabled: bool,
    pub ai_index_after_scan: bool,
    pub ai_extract_worker_count: usize,
    pub ai_gpu_worker_count: usize,
    pub ai_match_worker_count: usize,
    pub ai_frame_cache_enabled: bool,
    pub delete_ai_frame_cache_after_index: bool,
    pub ram_disk_enabled: bool,
    pub ram_disk_size_mb: usize,
    pub ram_disk_setup_completed: bool,
    pub local_preprocess_enabled: bool,
    pub local_preprocess_video_workers: usize,
    pub local_preprocess_overlap_start_percent: usize,
    pub local_preprocess_process_workers: usize,
    pub local_preprocess_frame_workers: usize,
    pub local_preprocess_temp_dir: String,
    pub local_preprocess_secondary_temp_dir: String,
    pub local_preprocess_secondary_threshold_mb: usize,
    pub nas_ssh_preprocess_enabled: bool,
    pub nas_ssh_host: String,
    pub nas_ssh_user: String,
    pub nas_ssh_password: String,
    pub nas_ssh_host_key: String,
    pub nas_ssh_port: u16,
    pub nas_remote_root: String,
    pub nas_smb_root: String,
    pub nas_ssh_ffmpeg_workers: usize,
}

/// The text of each string of a list.
pub open spec fn texts(list: Seq<String>) -> Seq<Seq<char>> {
    list.map_values(|s: String| s@)
}

/// The text of an optional string.
pub open spec fn opt_text(value: Option<String>) -> Option<Seq<char>> {
    match value {
        Some(s) => Some(s@),
        None => None,
    }
}

/// Copies an optional string.
pub fn copy_opt_text(value: &Option<String>) -> (r: Option<String>)
    ensures
        opt_text(r) == opt_text(*value),
{
    match value {
        Some(s) => Some(s.clone()),
        None => None,
    }
}

/// Copies a list of strings.
pub fn copy_texts(list: &Vec<String>) -> (r: Vec<String>)
    ensures
        texts(r@) == texts(list@),
{
    let mut out: Vec<String> = Vec::new();
    let mut i: usize = 0;
    while i < list.len()
        invariant
            i <= list@.len(),
            texts(out@) == texts(list@.take(i as int)),
        decreases list@.len() - i,
    {
        let ghost before = out@;
        out.push(list[i].clone());
        assert(list@.take(i + 1) =~= list@.take(i as int).push(list@[i as int]));
        assert(texts(out@) =~= texts(before).push(list@[i as int]@));
        assert(texts(list@.take(i + 1)) =~= texts(list@.take(i as int)).push(list@[i as int]@));
        i += 1;
    }
    assert(list@.take(i as int) =~= list@);
    out
}

/// What a video record says.
#[verifier::ext_equal]
pub struct VideoData {
    pub id: Option<i64>,
    pub path: Seq<char>,
    pub file_name: Seq<char>,
    pub parent_path: Seq<char>,
    pub size_bytes: u64,
    pub modified_unix_ms: i64,
    pub extension: Seq<char>,
    pub container_format: Option<Seq<char>>,
    pub duration_seconds: Option<Double>,
    pub width: Option<u32>,
    pub height: Option<u32>,
    pub bitrate: Option<u64>,
    pub codec: Option<Seq<char>>,
    pub frame_rate: Option<Double>,
    pub audio_codec: Option<Seq<char>>,
    pub partial_hash: Option<Seq<char>>,
    pub sample_hashes: Seq<Seq<char>>,
    pub preview_images: Seq<Seq<char>>,
    pub scan_status: Seq<char>,
    pub error: Option<Seq<char>>,
    pub quality_score: Double,
    pub scanned_at_unix_ms: i64,
}

impl View for VideoRecord {
    type V = VideoData;

    open spec fn view(&self) -> VideoData {
        VideoData {
            id: self.id,
            path: self.path@,
            file_name: self.file_name@,
            parent_path: self.parent_path@,
            size_bytes: self.size_bytes,
            modified_unix_ms: self.modified_unix_ms,
            extension: self.extension@,
            container_format: opt_text(self.container_format),
            duration_seconds: self.duration_seconds,
            width: self.width,
            height: self.height,
            bitrate: self.bitrate,
            codec: opt_text(self.codec),
            frame_rate: self.frame_rate,
            audio_codec: opt_text(self.audio_codec),
            partial_hash: opt_text(self.partial_hash),
            sample_hashes: texts(self.sample_hashes@),
            preview_images: texts(self.preview_images@),
            scan_status: self.scan_status@,
            error: opt_text(self.error),
            quality_score: self.quality_score,
            scanned_at_unix_ms: self.scanned_at_unix_ms,
        }
    }
}

impl VideoRecord {
    /// A record that says the same.
    pub fn copy(&self) -> (r: VideoRecord)
        ensures
            r@ == self@,
    {
        VideoRecord {
            id: self.id,
            path: self.path.clone(),
            file_name: self.file_name.clone(),
            parent_path: self.parent_path.clone(),
            size_bytes: self.size_bytes,
            modified_unix_ms: self.modified_unix_ms,
            extension: self.extension.clone(),
            container_format: copy_opt_text(&self.container_format),
            duration_seconds: self.duration_seconds,
            width: self.width,
            height: self.height,
            bitrate: self.bitrate,
            codec: copy_opt_text(&self.codec),
            frame_rate: self.frame_rate,
            audio_codec: copy_opt_text(&self.audio_codec),
            partial_hash: copy_opt_text(&self.partial_hash),
            sample_hashes: copy_texts(&self.sample_hashes),
            preview_images: copy_texts(&self.preview_images),
            scan_status: self.scan_status.clone(),
            error: copy_opt_text(&self.error),
            quality_score: self.quality_score,
            scanned_at_unix_ms: self.scanned_at_unix_ms,
        }
    }
}

/// The default scan worker count.
pub fn default_scan_worker_count() -> (r: usize)
    ensures
        r == 1,
{
    1
}

/// The default keeper size priority duration seconds, 300.0.
pub fn default_keeper_size_priority_duration_seconds() -> (r: Double)
    ensures
        r.bits == 0x4072C00000000000,
{
    Double { bits: 0x4072C00000000000 }
}

/// The default ui language.
pub fn default_ui_language() -> (r: String)
    ensures
        r@ == "zh"@,
{
    "zh".to_owned()
}

/// The default sample hash count.
pub fn default_sample_hash_count() -> (r: usize)
    ensures
        r == 11,
{
    11
}

/// The default temporal hash threshold.
pub fn default_temporal_hash_threshold() -> (r: u32)
    ensures
        r == 8,
{
    8
}

/// The default min temporal match points.
pub fn default_min_temporal_match_points() -> (r: usize)
    ensures
        r == 3,
{
    3
}

/// The default allowed unmatched sample frames.
pub fn default_allowed_unmatched_sample_frames() -> (r: usize)
    ensures
        r == 14,
{
    14
}

/// The default restrict scan to test path.
pub fn default_restrict_scan_to_test_path() -> (r: bool)
    ensures
        r == true,
{
    true
}

/// The default ai device.
pub fn default_ai_device() -> (r: String)
    ensures
        r@ == "auto"@,
{
    "auto".to_owned()
}

/// The default ai frame count.
pub fn default_ai_frame_count() -> (r: usize)
    ensures
        r == 128,
{
    128
}

/// The default ai batch size.
pub fn default_ai_batch_size() -> (r: usize)
    ensures
        r == 32,
{
    32
}

/// The default ai similarity threshold, 0.86.
pub fn default_ai_similarity_threshold() -> (r: Double)
    ensures
        r.bits == 0x3FEB851EB851EB85,
{
    Double { bits: 0x3FEB851EB851EB85 }
}

/// The default ai min matched frames.
pub fn default_ai_min_matched_frames() -> (r: usize)
    ensures
        r == 8,
{
    8
}

/// The default ai clip matching enabled.
pub fn default_ai_clip_matching_enabled() -> (r: bool)
    ensures
        r == true,
{
    true
}

/// The default ai extract worker count.
pub fn default_ai_extract_worker_count() -> (r: usize)
    ensures
        r == 4,
{
    4
}

/// The default ai gpu worker count.
pub fn default_ai_gpu_worker_count() -> (r: usize)
    ensures
        r == 4,
{
    4
}

/// The default ai match worker count.
pub fn default_ai_match_worker_count() -> (r: usize)
    ensures
        r == 8,
{
    8
}

/// The default ai frame cache enabled.
pub fn default_ai_frame_cache_enabled() -> (r: bool)
    ensures
        r == true,
{
    true
}

/// The default ram disk enabled.
pub fn default_ram_disk_enabled() -> (r: bool)
    ensures
        r == true,
{
    true
}

/// The default ram disk size mb.
pub fn default_ram_disk_size_mb() -> (r: usize)
    ensures
        r == 16384,
{
    16384
}

/// The default local preprocess video workers.
pub fn default_local_preprocess_video_workers() -> (r: usize)
    ensures
        r == 1,
{
    1
}

/// The default local preprocess overlap start percent.
pub fn default_local_preprocess_overlap_start_percent() -> (r: usize)
    ensures
        r == 95,
{
    95
}

/// The default local preprocess process workers.
pub fn default_local_preprocess_process_workers() -> (r: usize)
    ensures
        r == 2,
{
    2
}

/// The default local preprocess frame workers.
pub fn default_local_preprocess_frame_workers() -> (r: usize)
    ensures
        r == 16,
{
    16
}

/// The default local preprocess secondary temp dir.
pub fn default_local_preprocess_secondary_temp_dir() -> (r: String)
    ensures
        r@ == r"D:\TEMP"@,
{
    r"D:\TEMP".to_owned()
}

/// The default local preprocess secondary threshold mb.
pub fn default_local_preprocess_secondary_threshold_mb() -> (r: usize)
    ensures
        r == 16384,
{
    16384
}

/// The default nas ssh port.
pub fn default_nas_ssh_port() -> (r: u16)
    ensures
        r == 22,
{
    22
}

/// The default nas smb root.
pub fn default_nas_smb_root() -> (r: String)
    ensures
        r@ == r"\\EXAMPLE-NAS\Test"@,
{
    r"\\EXAMPLE-NAS\Test".to_owned()
}

/// The default nas ssh ffmpeg workers.
pub fn default_nas_ssh_ffmpeg_workers() -> (r: usize)
    ensures
        r == 1,
{
    1
}

} // verus!
