//! Which videos repeat one another, judged by their files, lengths, samples and titles.
use crate::double::Double;
use crate::models;
use crate::models::{VideoData, VideoRecord};
use crate::temporal;
use crate::text;
use crate::titles;
use vstd::prelude::*;
use vstd::string::*;

verus! {

/// The lengths of two videos compared: how far they differ, and the shorter one as a part of the
/// longer one. Each is missing where a length is.
#[derive(Debug, Clone, Copy, PartialEq, Eq, Structural)]
pub struct DurationRelation {
    pub delta: Option<Double>,
    pub ratio: Option<Double>,
}

/// How videos are compared.
#[derive(Debug, Clone, Copy, PartialEq, Eq, Structural)]
pub struct MatchOptions {
    pub compare_within_same_folder: bool,
    pub min_confidence: Double,
    pub temporal_hash_threshold: u32,
    pub min_temporal_match_points: usize,
    pub allowed_unmatched_sample_frames: usize,
    pub keeper_size_priority_duration_seconds: Double,
}

/// 0
pub const ZERO: u64 = 0;

/// 1
pub const ONE: u64 = 0x3FF0_0000_0000_0000;

/// 0.25
pub const QUARTER: u64 = 0x3FD0_0000_0000_0000;

/// 0.5
pub const HALF: u64 = 0x3FE0_0000_0000_0000;

/// 0.6
pub const RATIO_TITLED: u64 = 0x3FE3_3333_3333_3333;

/// 0.9
pub const DEFAULT_CONFIDENCE: u64 = 0x3FEC_CCCC_CCCC_CCCD;

/// 0.94
pub const RATIO_SAME: u64 = 0x3FEE_147A_E147_AE14;

/// 0.985
pub const RATIO_EQUAL: u64 = 0x3FEF_851E_B851_EB85;

/// 300 seconds
pub const DEFAULT_PRIORITY: u64 = 0x4072_C000_0000_0000;

/// 86400 seconds
pub const MAX_PRIORITY: u64 = 0x40F5_1800_0000_0000;

/// A number moved into a range.
pub open spec fn within(value: int, low: int, high: int) -> int {
    if value < low {
        low
    } else if value > high {
        high
    } else {
        value
    }
}

impl MatchOptions {
    /// The options with each value moved into its range.
    pub open spec fn spec_normalized(self) -> MatchOptions {
        MatchOptions {
            compare_within_same_folder: self.compare_within_same_folder,
            min_confidence: self.min_confidence.clamped(Double::of(ZERO), Double::of(ONE)),
            temporal_hash_threshold: within(self.temporal_hash_threshold as int, 6, 24) as u32,
            min_temporal_match_points: within(
                self.min_temporal_match_points as int,
                1,
                10,
            ) as usize,
            allowed_unmatched_sample_frames: within(
                self.allowed_unmatched_sample_frames as int,
                0,
                20,
            ) as usize,
            keeper_size_priority_duration_seconds: if self.keeper_size_priority_duration_seconds.finite() {
                self.keeper_size_priority_duration_seconds.clamped(Double::of(ZERO), Double::of(MAX_PRIORITY))
            } else {
                Double::of(DEFAULT_PRIORITY)
            },
        }
    }

    /// Moves each value into its range.
    pub fn normalized(self) -> (r: MatchOptions)
        ensures
            r == self.spec_normalized(),
    {
        MatchOptions {
            compare_within_same_folder: self.compare_within_same_folder,
            min_confidence: self.min_confidence.clamp(Double::of(ZERO), Double::of(ONE)),
            temporal_hash_threshold: if self.temporal_hash_threshold < 6 {
                6
            } else if self.temporal_hash_threshold > 24 {
                24
            } else {
                self.temporal_hash_threshold
            },
            min_temporal_match_points: if self.min_temporal_match_points < 1 {
                1
            } else if self.min_temporal_match_points > 10 {
                10
            } else {
                self.min_temporal_match_points
            },
            allowed_unmatched_sample_frames: if self.allowed_unmatched_sample_frames > 20 {
                20
            } else {
                self.allowed_unmatched_sample_frames
            },
            keeper_size_priority_duration_seconds: if self.keeper_size_priority_duration_seconds.is_finite() {
                self.keeper_size_priority_duration_seconds.clamp(Double::of(ZERO), Double::of(MAX_PRIORITY))
            } else {
                Double::of(DEFAULT_PRIORITY)
            },
        }
    }

    /// The options that the program starts with.
    pub open spec fn spec_default() -> MatchOptions {
        MatchOptions {
            compare_within_same_folder: false,
            min_confidence: Double::of(DEFAULT_CONFIDENCE),
            temporal_hash_threshold: 8,
            min_temporal_match_points: 3,
            allowed_unmatched_sample_frames: 14,
            keeper_size_priority_duration_seconds: Double::of(DEFAULT_PRIORITY),
        }
    }
}

impl Default for MatchOptions {
    fn default() -> (r: MatchOptions)
        ensures
            r == MatchOptions::spec_default(),
    {
        MatchOptions {
            compare_within_same_folder: false,
            min_confidence: Double::of(DEFAULT_CONFIDENCE),
            temporal_hash_threshold: 8,
            min_temporal_match_points: 3,
            allowed_unmatched_sample_frames: 14,
            keeper_size_priority_duration_seconds: Double::of(DEFAULT_PRIORITY),
        }
    }
}

/// Normal options stay as they are when they are normalized again.
pub proof fn law_normalizing_twice_changes_nothing(options: MatchOptions)
    ensures
        options.spec_normalized().spec_normalized() == options.spec_normalized(),
{
}

/// The default options are normal.
pub proof fn law_default_options_are_normal()
    ensures
        MatchOptions::spec_default().spec_normalized() == MatchOptions::spec_default(),
{
}

/// In what way two videos match.
#[derive(Debug, Clone, Copy, PartialEq, Eq, Structural)]
pub enum MatchKind {
    Exact,
    Transcode,
    OffsetSamples,
    Clip,
    TitledClip,
}

/// What the comparison of two videos found, with the numbers that its confidence follows from.
#[derive(Debug, Clone, Copy, PartialEq, Eq, Structural)]
pub enum PairFinding {
    /// The same file content.
    Exact,
    /// The same pictures in step.
    Transcode { total_distance: u32, compared: usize },
    /// Some of the same pictures in step, at almost the same length.
    OffsetSamples { close_points: usize, total_distance: u32, compared: usize },
    /// The same pictures in order.
    Clip { close_points: usize, total_distance: u32, same_length: bool },
    /// Some of the same pictures in order, and a similar title.
    TitledClip {
        close_points: usize,
        total_distance: u32,
        overlap: titles::TitleOverlap,
        by_frames: bool,
    },
}

impl PairFinding {
    /// The kind of match.
    pub open spec fn spec_kind(self) -> MatchKind {
        match self {
            PairFinding::Exact => MatchKind::Exact,
            PairFinding::Transcode { .. } => MatchKind::Transcode,
            PairFinding::OffsetSamples { .. } => MatchKind::OffsetSamples,
            PairFinding::Clip { .. } => MatchKind::Clip,
            PairFinding::TitledClip { .. } => MatchKind::TitledClip,
        }
    }

    /// The kind of match.
    pub fn kind(&self) -> (r: MatchKind)
        ensures
            r == self.spec_kind(),
    {
        match self {
            PairFinding::Exact => MatchKind::Exact,
            PairFinding::Transcode { .. } => MatchKind::Transcode,
            PairFinding::OffsetSamples { .. } => MatchKind::OffsetSamples,
            PairFinding::Clip { .. } => MatchKind::Clip,
            PairFinding::TitledClip { .. } => MatchKind::TitledClip,
        }
    }
}

/// The name under which a kind of match is shown.
pub open spec fn kind_name(kind: MatchKind) -> Seq<char> {
    match kind {
        MatchKind::Exact => "完全重复"@,
        MatchKind::Transcode => "疑似同源转码"@,
        MatchKind::OffsetSamples => "疑似同源/错位抽样"@,
        MatchKind::Clip => "疑似片段/剪辑"@,
        MatchKind::TitledClip => "疑似片段/标题强相关"@,
    }
}

/// The name under which a kind of match is shown.
pub fn kind_text(kind: MatchKind) -> (r: String)
    ensures
        r@ == kind_name(kind),
{
    match kind {
        MatchKind::Exact => "完全重复".to_owned(),
        MatchKind::Transcode => "疑似同源转码".to_owned(),
        MatchKind::OffsetSamples => "疑似同源/错位抽样".to_owned(),
        MatchKind::Clip => "疑似片段/剪辑".to_owned(),
        MatchKind::TitledClip => "疑似片段/标题强相关".to_owned(),
    }
}

/// The number of sample hashes of both videos allows their distances to be summed.
pub open spec fn samples_fit(a: VideoData, b: VideoData) -> bool {
    a.sample_hashes.len() <= temporal::MAX_SAMPLES && b.sample_hashes.len()
        <= temporal::MAX_SAMPLES
}

/// Whether two videos hold the same file content.
pub open spec fn same_content(a: VideoData, b: VideoData, relation: DurationRelation) -> bool {
    &&& a.partial_hash is Some
    &&& a.partial_hash == b.partial_hash
    &&& a.size_bytes == b.size_bytes
    &&& relation.delta matches Some(delta) ==> delta.lt(Double::of(QUARTER))
}

/// The match in order of the samples of two videos.
pub open spec fn ordered(a: VideoData, b: VideoData, options: MatchOptions) -> temporal::Tally {
    temporal::temporal_match(
        a.sample_hashes,
        b.sample_hashes,
        within(options.temporal_hash_threshold as int, 6, 24) as u32,
    )
}

/// The number of informative samples of the video that has fewer.
pub open spec fn informative_min(a: VideoData, b: VideoData) -> int {
    let l = crate::hashes::informative_values(a.sample_hashes).len();
    let r = crate::hashes::informative_values(b.sample_hashes).len();
    if l <= r {
        l as int
    } else {
        r as int
    }
}

/// Whether the average of a total over a count is at most `limit`.
pub open spec fn averages_at_most(total: int, count: int, limit: int) -> bool {
    total <= limit * count
}

/// What the comparison of two videos finds.
pub open spec fn finding(
    a: VideoData,
    b: VideoData,
    relation: DurationRelation,
    options: MatchOptions,
) -> Option<PairFinding> {
    let threshold = within(options.temporal_hash_threshold as int, 6, 24) as u32;
    let common = temporal::common_len(a.sample_hashes, b.sample_hashes);
    let compared = temporal::compared_count(a.sample_hashes, b.sample_hashes, common);
    let total = temporal::compared_total(a.sample_hashes, b.sample_hashes, common);
    let close = temporal::close_count(a.sample_hashes, b.sample_hashes, threshold, common);
    let score = ordered(a, b, options);
    let overlap = titles::overlap(a.file_name, b.file_name);
    let required = temporal::required_points(
        informative_min(a, b),
        options.min_temporal_match_points as int,
        options.allowed_unmatched_sample_frames as int,
    );
    let ratio_or_none = match relation.ratio {
        Some(r) => r,
        None => Double::of(ZERO),
    };
    let ratio = match relation.ratio {
        Some(r) => r,
        None => Double::of(ONE),
    };
    let titled = |by_frames: bool|
        Some(
            PairFinding::TitledClip {
                close_points: score.count as usize,
                total_distance: score.total as u32,
                overlap: titles::TitleOverlap {
                    shared: overlap.0 as usize,
                    smaller: overlap.1 as usize,
                },
                by_frames,
            },
        );
    if a.scan_status != "ok"@ || b.scan_status != "ok"@ {
        None
    } else if same_content(a, b, relation) {
        Some(PairFinding::Exact)
    } else if compared >= 2 && averages_at_most(total as int, compared as int, 10) && Double::of(RATIO_SAME).le(
        ratio_or_none,
    ) {
        Some(PairFinding::Transcode { total_distance: total as u32, compared: compared as usize })
    } else if compared >= 4 && close >= 2 && averages_at_most(total as int, compared as int, 14)
        && Double::of(RATIO_EQUAL).le(ratio_or_none) {
        Some(
            PairFinding::OffsetSamples {
                close_points: close as usize,
                total_distance: total as u32,
                compared: compared as usize,
            },
        )
    } else if score.count >= required && (ratio.lt(Double::of(RATIO_SAME)) || (informative_min(a, b) > 0 && 100
        * score.count >= 35 * informative_min(a, b))) {
        Some(
            PairFinding::Clip {
                close_points: score.count as usize,
                total_distance: score.total as u32,
                same_length: Double::of(RATIO_SAME).le(ratio),
            },
        )
    } else if score.count >= 2 && titles::reaches(overlap.0 as int, overlap.1 as int, 22)
        && Double::of(RATIO_TITLED).le(ratio) {
        titled(true)
    } else if score.count >= 1 && titles::reaches(overlap.0 as int, overlap.1 as int, 65)
        && Double::of(RATIO_TITLED).le(ratio) {
        titled(false)
    } else {
        None
    }
}

/// Whether two optional texts are both there and equal.
fn same_present(left: &Option<String>, right: &Option<String>) -> (r: bool)
    ensures
        r == (models::opt_text(*left) is Some && models::opt_text(*left) == models::opt_text(
            *right,
        )),
{
    match (left, right) {
        (Some(l), Some(r)) => same_text_of(l, r),
        _ => false,
    }
}

fn same_text_of(left: &String, right: &String) -> (r: bool)
    ensures
        r == (left@ == right@),
{
    text::same_text(left.as_str(), right.as_str())
}

/// Compares two videos.
pub fn compare_pair(
    a: &VideoRecord,
    b: &VideoRecord,
    relation: DurationRelation,
    options: MatchOptions,
) -> (r: Option<PairFinding>)
    requires
        samples_fit(a@, b@),
    ensures
        r == finding(a@, b@, relation, options),
{
    if !text::same_text(a.scan_status.as_str(), "ok") || !text::same_text(
        b.scan_status.as_str(),
        "ok",
    ) {
        return None;
    }
    let delta_small = match relation.delta {
        Some(delta) => delta.less(Double::of(QUARTER)),
        None => true,
    };
    if same_present(&a.partial_hash, &b.partial_hash) && a.size_bytes == b.size_bytes
        && delta_small {
        return Some(PairFinding::Exact);
    }
    let threshold: u32 = if options.temporal_hash_threshold < 6 {
        6
    } else if options.temporal_hash_threshold > 24 {
        24
    } else {
        options.temporal_hash_threshold
    };
    let aligned = temporal::aligned_hash_distance(&a.sample_hashes, &b.sample_hashes);
    let score = temporal::temporal_hash_match(&a.sample_hashes, &b.sample_hashes, threshold);
    let fewest: usize = if score.informative_left <= score.informative_right {
        score.informative_left
    } else {
        score.informative_right
    };
    let close: usize = temporal::aligned_close_points(
        &a.sample_hashes,
        &b.sample_hashes,
        threshold,
    );
    let overlap = titles::title_overlap(a.file_name.as_str(), b.file_name.as_str());
    let required: usize = temporal::required_temporal_points(
        fewest,
        options.min_temporal_match_points,
        options.allowed_unmatched_sample_frames,
    );
    if let Some((total, compared)) = aligned {
        let ratio = match relation.ratio {
            Some(r) => r,
            None => Double::of(ZERO),
        };
        if compared >= 2 && (total as u64) <= 10 * (compared as u64) && Double::of(RATIO_SAME).at_most(ratio) {
            return Some(PairFinding::Transcode { total_distance: total, compared });
        }
        if compared >= 4 && close >= 2 && (total as u64) <= 14 * (compared as u64)
            && Double::of(RATIO_EQUAL).at_most(ratio) {
            return Some(
                PairFinding::OffsetSamples { close_points: close, total_distance: total, compared },
            );
        }
    }
    let ratio = match relation.ratio {
        Some(r) => r,
        None => Double::of(ONE),
    };
    let points: usize = score.ordered_points;
    let covered = fewest > 0 && 100 * (points as u128) >= 35 * (fewest as u128);
    if points >= required && (ratio.less(Double::of(RATIO_SAME)) || covered) {
        return Some(
            PairFinding::Clip {
                close_points: points,
                total_distance: score.total_distance,
                same_length: Double::of(RATIO_SAME).at_most(ratio),
            },
        );
    }
    if points >= 2 && overlap.reaches_percent(22) && Double::of(RATIO_TITLED).at_most(ratio) {
        return Some(
            PairFinding::TitledClip {
                close_points: points,
                total_distance: score.total_distance,
                overlap,
                by_frames: true,
            },
        );
    }
    if points >= 1 && overlap.reaches_percent(65) && Double::of(RATIO_TITLED).at_most(ratio) {
        return Some(
            PairFinding::TitledClip {
                close_points: points,
                total_distance: score.total_distance,
                overlap,
                by_frames: false,
            },
        );
    }
    None
}

/// Files with the same content hash, size and length are exact copies, whatever the options.
pub proof fn law_same_content_is_an_exact_copy(
    a: VideoData,
    b: VideoData,
    relation: DurationRelation,
    options: MatchOptions,
)
    requires
        a.scan_status == "ok"@,
        b.scan_status == "ok"@,
        same_content(a, b, relation),
    ensures
        finding(a, b, relation, options) == Some(PairFinding::Exact),
{
}

/// A video whose scan failed matches nothing.
pub proof fn law_failed_scans_match_nothing(
    a: VideoData,
    b: VideoData,
    relation: DurationRelation,
    options: MatchOptions,
)
    requires
        a.scan_status != "ok"@ || b.scan_status != "ok"@,
    ensures
        finding(a, b, relation, options) is None,
{
}

} // verus!
