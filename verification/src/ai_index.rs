//! Building the index of frames: the model, the embeddings that can be reused, and how far the
//! work is.
use crate::digest;
use crate::digest::{clamp_frame_count, fingerprint_of, head_of};
use crate::double::Double;
use crate::findings;
use crate::index;
use crate::index::VideoIndex;
use crate::local_preprocess;
use crate::local_preprocess::{push_recent_error, LocalPreprocessProgress};
use crate::matching;
use crate::models;
use crate::models::{
    AiIndexProgress, AiIndexSummary, AiModelStatus, AppSettings, FrameEmbeddingRecord,
    LocalPreprocessSummary, VideoRecord,
};
use crate::paths;
use crate::paths::{Root, RootData};
use crate::rows;
use crate::rows::has_id;
use crate::scans;
use crate::text;
use crate::text::{cat, cat3, cat6, decimal_text, is_blank, same_text, trim};
use crate::upkeep;
use crate::upkeep::TimingProbe;
use vstd::prelude::*;
use vstd::string::*;

verus! {

/// The path of the model: as it is configured where it is absolute, else under the root.
pub open spec fn model_location(path: Seq<char>, is_absolute: bool, root: RootData) -> Seq<char> {
    let own = text::trimmed(path);
    if own.len() == 0 {
        Seq::empty()
    } else if is_absolute {
        own
    } else {
        paths::joined(root.host, root.path, own)
    }
}

/// The path of the model. `is_absolute` tells of the configured path, without white space at its
/// ends.
pub fn resolve_model_path(path: &str, is_absolute: bool, root: &Root) -> (r: String)
    ensures
        r@ == model_location(path@, is_absolute, root@),
{
    let own = trim(path);
    if text::chars_of(own.as_str()).len() == 0 {
        String::new()
    } else if is_absolute {
        own
    } else {
        paths::join(root.host, root.path.as_str(), own.as_str())
    }
}

/// A model that is ready for use.
#[derive(Debug, Clone)]
pub struct PreparedModel {
    pub model_id: String,
    pub model_hash: String,
    pub model_path: String,
}

/// The id of a model by the contents of its file.
pub open spec fn model_name(contents: Seq<u8>) -> Seq<char> {
    "onnx-"@ + digest::head(digest::fingerprint(contents), 16)
}

/// Makes a model ready. `contents` is what its file holds, where there is one.
pub fn prepare_model(model_path: &str, contents: &Option<Vec<u8>>) -> (r: Result<
    PreparedModel,
    String,
>)
    ensures
        match (*contents, r) {
            (Some(bytes), Ok(model)) => {
                &&& model.model_id@ == model_name(bytes@)
                &&& model.model_hash@ == digest::fingerprint(bytes@)
                &&& model.model_path@ == model_path@
            },
            (None, Err(message)) => message@ == "AI model file was not found: "@ + model_path@,
            _ => false,
        },
{
    match contents {
        None => Err(cat("AI model file was not found: ", model_path)),
        Some(bytes) => {
            let hash = fingerprint_of(bytes);
            let name = cat("onnx-", head_of(hash.as_str(), 16).as_str());
            Ok(
                PreparedModel {
                    model_id: name,
                    model_hash: hash,
                    model_path: model_path.to_owned(),
                },
            )
        },
    }
}

/// Whether the model can be used. `model_path` is where it is kept, and `contents` what its file
/// holds, where there is one.
pub fn ai_model_status(settings: &AppSettings, model_path: &str, contents: &Option<Vec<u8>>) -> (r:
    AiModelStatus)
    ensures
        r.enabled == settings.ai_vision_enabled,
        r.device@ == settings.ai_device@,
        r.ready == (settings.ai_vision_enabled && text::trimmed(settings.ai_model_path@).len() > 0
            && contents is Some),
        models::opt_text(r.model_id) == (if r.ready {
            Some(model_name(contents->0@))
        } else {
            None
        }),
        r.model_path@ == (if !settings.ai_vision_enabled {
            settings.ai_model_path@
        } else if text::trimmed(settings.ai_model_path@).len() == 0 {
            Seq::empty()
        } else {
            model_path@
        }),
        r.message@ == (if !settings.ai_vision_enabled {
            "AI vision matching is disabled"@
        } else if text::trimmed(settings.ai_model_path@).len() == 0 {
            "AI model path is empty"@
        } else if contents is None {
            "AI model file was not found"@
        } else {
            "AI model file is available"@
        }),
{
    if !settings.ai_vision_enabled {
        return AiModelStatus {
            enabled: false,
            ready: false,
            model_id: None,
            model_path: settings.ai_model_path.clone(),
            device: settings.ai_device.clone(),
            message: "AI vision matching is disabled".to_owned(),
        };
    }
    if is_blank(settings.ai_model_path.as_str()) {
        return AiModelStatus {
            enabled: true,
            ready: false,
            model_id: None,
            model_path: String::new(),
            device: settings.ai_device.clone(),
            message: "AI model path is empty".to_owned(),
        };
    }
    match prepare_model(model_path, contents) {
        Err(_) => AiModelStatus {
            enabled: true,
            ready: false,
            model_id: None,
            model_path: model_path.to_owned(),
            device: settings.ai_device.clone(),
            message: "AI model file was not found".to_owned(),
        },
        Ok(model) => AiModelStatus {
            enabled: true,
            ready: true,
            model_id: Some(model.model_id),
            model_path: model.model_path,
            device: settings.ai_device.clone(),
            message: "AI model file is available".to_owned(),
        },
    }
}

/// The least frame similarity, and the largest, that can be asked for: zero and 0.99.
pub const LEAST_THRESHOLD: u64 = 0x0000_0000_0000_0000;

pub const LARGEST_THRESHOLD: u64 = 0x3fef_ae14_7ae1_47ae;

/// The least similarity of frames that count as the same.
pub fn frame_similarity_threshold(settings: &AppSettings) -> (r: Double)
    ensures
        r == settings.ai_similarity_threshold.clamped(
            (Double { bits: LEAST_THRESHOLD }),
            (Double { bits: LARGEST_THRESHOLD }),
        ),
        Double::of(0).le(settings.ai_similarity_threshold) && settings.ai_similarity_threshold.le(
            Double::of(0x3FEF_AE14_7AE1_47AE),
        ) ==> r == settings.ai_similarity_threshold,
        !settings.ai_similarity_threshold.nan() ==> Double::of(0).le(r) && r.le(
            Double::of(0x3FEF_AE14_7AE1_47AE),
        ),
{
    settings.ai_similarity_threshold.clamp(
        Double { bits: LEAST_THRESHOLD },
        Double { bits: LARGEST_THRESHOLD },
    )
}

/// A truth value as text.
pub open spec fn truth(value: bool) -> Seq<char> {
    if value {
        "true"@
    } else {
        "false"@
    }
}

/// What scores of pairs rest on, as text: scores with another key are not used.
pub open spec fn cache_key_text(settings: AppSettings, threshold_text: Seq<char>) -> Seq<char> {
    "ai-match-v4|frames="@ + text::decimal(
        digest::kept_frame_count(settings.ai_frame_count as int) as nat,
    ) + "|frame_threshold="@ + threshold_text + "|min_frames="@ + text::decimal(
        matching::within(settings.ai_min_matched_frames as int, 1, 128) as nat,
    ) + "|clip="@ + truth(settings.ai_clip_matching_enabled)
}

/// What scores of pairs rest on, as text. `threshold_text` is the least similarity of frames with
/// four digits behind the point.
pub fn ai_match_cache_key(settings: &AppSettings, threshold_text: &str) -> (r: String)
    ensures
        r@ == cache_key_text(*settings, threshold_text@),
{
    let frames: usize = clamp_frame_count(settings.ai_frame_count);
    let least: usize = if settings.ai_min_matched_frames < 1 {
        1
    } else if settings.ai_min_matched_frames > 128 {
        128
    } else {
        settings.ai_min_matched_frames
    };
    let mut key = cat6(
        "ai-match-v4|frames=",
        decimal_text(frames as u64).as_str(),
        "|frame_threshold=",
        threshold_text,
        "|min_frames=",
        decimal_text(least as u64).as_str(),
    );
    key.append("|clip=");
    if settings.ai_clip_matching_enabled {
        key.append("true");
    } else {
        key.append("false");
    }
    key
}

/// The number of workers that embed frames.
pub fn ai_worker_count(settings: &AppSettings, total_videos: usize) -> (r: usize)
    ensures
        r == (if settings.ai_device@ == "cpu"@ {
            local_preprocess::workers(settings.ai_extract_worker_count, 4, total_videos as int)
        } else {
            local_preprocess::workers(settings.ai_gpu_worker_count, 64, total_videos as int)
        }),
        r >= 1,
{
    if same_text(settings.ai_device.as_str(), "cpu") {
        local_preprocess::worker_count(settings.ai_extract_worker_count, 4, total_videos)
    } else {
        local_preprocess::worker_count(settings.ai_gpu_worker_count, 64, total_videos)
    }
}

/// A whole number divided by another, rounded up.
pub open spec fn divided_up(n: int, by: int) -> int {
    (n + by - 1) / by
}

/// The number of workers that score pairs, and the number of pairs that each gets at most.
pub fn pair_chunks(match_workers: usize, pairs: usize) -> (r: (usize, usize))
    requires
        pairs > 0,
    ensures
        r.0 == local_preprocess::workers(match_workers, 128, pairs as int),
        r.1 == divided_up(pairs as int, r.0 as int),
        r.1 >= 1,
{
    let workers: usize = local_preprocess::worker_count(match_workers, 128, pairs);
    let whole: usize = pairs / workers;
    let rest: usize = pairs % workers;
    let ghost n = pairs as int;
    let ghost w = workers as int;
    assert(n == w * whole + rest) by (nonlinear_arith)
        requires
            w > 0,
            n == pairs,
            w == workers,
            whole == n / w,
            rest == n % w,
    ;
    assert(whole >= 1) by (nonlinear_arith)
        requires
            n == w * whole + rest,
            0 <= rest < w,
            w <= n,
            w > 0,
    ;
    if rest == 0 {
        assert(divided_up(n, w) == whole) by (nonlinear_arith)
            requires
                n == w * whole,
                w > 0,
                divided_up(n, w) == (n + w - 1) / w,
        ;
        (workers, whole)
    } else {
        assert(divided_up(n, w) == whole + 1) by (nonlinear_arith)
            requires
                n == w * whole + rest,
                0 < rest < w,
                divided_up(n, w) == (n + w - 1) / w,
        ;
        assert(whole < n) by (nonlinear_arith)
            requires
                n == w * whole + rest,
                0 < rest < w,
                whole >= 1,
        ;
        (workers, whole + 1)
    }
}

/// The workers take all pairs: their shares together are at least as many as there are pairs.
pub proof fn law_chunks_cover_all_pairs(match_workers: usize, pairs: int)
    requires
        pairs > 0,
    ensures
        ({
            let w = local_preprocess::workers(match_workers, 128, pairs);
            1 <= w <= pairs && w * divided_up(pairs, w) >= pairs
        }),
{
    let w = local_preprocess::workers(match_workers, 128, pairs);
    assert(w * divided_up(pairs, w) >= pairs) by (nonlinear_arith)
        requires
            w >= 1,
            divided_up(pairs, w) == (pairs + w - 1) / w,
    ;
}

/// The dimension that all embeddings have, where it is one and the same and not zero.
pub open spec fn same_dimension(
    short: Seq<FrameEmbeddingRecord>,
    long: Seq<FrameEmbeddingRecord>,
    dimension: nat,
) -> bool {
    &&& dimension > 0
    &&& short.len() + long.len() > 0
    &&& forall|k: int|
        0 <= k < short.len() ==> (#[trigger] short[k]).embedding@.len() == dimension
    &&& forall|k: int| 0 <= k < long.len() ==> (#[trigger] long[k]).embedding@.len() == dimension
}

fn have_dimension(list: &Vec<FrameEmbeddingRecord>, dimension: usize) -> (r: bool)
    ensures
        r == forall|k: int|
            0 <= k < list@.len() ==> (#[trigger] list@[k]).embedding@.len() == dimension,
{
    let mut i: usize = 0;
    while i < list.len()
        invariant
            i <= list@.len(),
            forall|k: int| 0 <= k < i ==> (#[trigger] list@[k]).embedding@.len() == dimension,
        decreases list@.len() - i,
    {
        if list[i].embedding.len() != dimension {
            assert(list@[i as int].embedding@.len() != dimension);
            return false;
        }
        i += 1;
    }
    true
}

/// The dimension that all embeddings of two videos have, where it is one and the same and not
/// zero.
pub fn common_embedding_dimension(
    short: &Vec<FrameEmbeddingRecord>,
    long: &Vec<FrameEmbeddingRecord>,
) -> (r: Option<usize>)
    ensures
        match r {
            Some(dimension) => same_dimension(short@, long@, dimension as nat),
            None => forall|d: nat| !#[trigger] same_dimension(short@, long@, d),
        },
{
    let dimension: usize = if short.len() > 0 {
        short[0].embedding.len()
    } else if long.len() > 0 {
        long[0].embedding.len()
    } else {
        return None;
    };
    proof {
        assert forall|d: nat| #[trigger] same_dimension(short@, long@, d) implies d == dimension by {
            if short@.len() > 0 {
                assert(short@[0].embedding@.len() == d);
            } else {
                assert(long@[0].embedding@.len() == d);
            }
        }
    }
    if dimension == 0 {
        return None;
    }
    if have_dimension(short, dimension) && have_dimension(long, dimension) {
        Some(dimension)
    } else {
        None
    }
}

/// How the output of a model is cut into one vector for each frame.
#[derive(Debug, Clone)]
pub enum OutputLayout {
    /// All of it is one vector.
    Whole,
    /// The vector of a frame starts at `frame * stride` and has a length.
    Spans { stride: usize, length: usize },
    /// The vector of a frame holds for each channel the mean of `spatial` values; those of a
    /// frame start at `frame * channels * spatial`.
    Means { channels: usize, spatial: usize },
}

/// How the output of a model is cut, by its dimensions.
pub open spec fn layout(dims: Seq<usize>, total: int, batch: int) -> OutputLayout {
    if dims.len() == 0 || dims[0] != batch {
        OutputLayout::Whole
    } else if dims.len() == 2 {
        OutputLayout::Spans { stride: dims[1], length: dims[1] }
    } else if dims.len() == 3 && dims[1] > 0 {
        OutputLayout::Spans { stride: (dims[1] * dims[2]) as usize, length: dims[2] }
    } else if dims.len() == 4 && dims[2] > 0 && dims[3] > 0 {
        OutputLayout::Means { channels: dims[1], spatial: (dims[2] * dims[3]) as usize }
    } else {
        let each = total / (if batch > 1 {
            batch
        } else {
            1
        });
        OutputLayout::Spans { stride: each as usize, length: each as usize }
    }
}

/// Whether the sizes that the dimensions of an output give fit the machine.
pub open spec fn sizes_fit(dims: Seq<usize>) -> bool {
    &&& dims.len() == 3 ==> dims[1] * dims[2] <= usize::MAX
    &&& dims.len() == 4 ==> dims[2] * dims[3] <= usize::MAX
}

/// How the output of a model is cut into one vector for each frame. `total` is the number of
/// values, `batch` that of frames.
pub fn output_layout(dims: &Vec<usize>, total: usize, batch: usize) -> (r: OutputLayout)
    requires
        sizes_fit(dims@),
    ensures
        r == layout(dims@, total as int, batch as int),
{
    let rank: usize = dims.len();
    if rank == 0 || dims[0] != batch {
        OutputLayout::Whole
    } else if rank == 2 {
        OutputLayout::Spans { stride: dims[1], length: dims[1] }
    } else if rank == 3 && dims[1] > 0 {
        OutputLayout::Spans { stride: dims[1] * dims[2], length: dims[2] }
    } else if rank == 4 && dims[2] > 0 && dims[3] > 0 {
        OutputLayout::Means { channels: dims[1], spatial: dims[2] * dims[3] }
    } else {
        let each: usize = total / (if batch > 1 {
            batch
        } else {
            1
        });
        OutputLayout::Spans { stride: each, length: each }
    }
}

/// The number of values that an output of these dimensions holds.
pub open spec fn volume(dims: Seq<usize>) -> int
    decreases dims.len(),
{
    if dims.len() == 0 {
        1
    } else {
        volume(dims.drop_last()) * dims.last()
    }
}

/// The vector of each frame lies within the output, and what is used of one frame is not used of
/// another.
pub proof fn law_vectors_lie_within_the_output(dims: Seq<usize>, total: int, batch: int, frame: int)
    requires
        total == volume(dims),
        total <= usize::MAX,
        sizes_fit(dims),
        0 <= frame < batch,
    ensures
        match layout(dims, total, batch) {
            OutputLayout::Whole => true,
            OutputLayout::Spans { stride, length } => {
                0 <= frame * stride && frame * stride + length <= total && length <= stride
            },
            OutputLayout::Means { channels, spatial } => {
                0 <= frame * (channels * spatial) && frame * (channels * spatial) + channels
                    * spatial <= total
            },
        },
{
    if dims.len() == 0 || dims[0] != batch {
    } else if dims.len() == 2 {
        reveal_with_fuel(volume, 4);
        assert(volume(dims) == dims[0] * dims[1]);
        let d = dims[1] as int;
        assert(0 <= frame * d && frame * d + d <= batch * d) by (nonlinear_arith)
            requires
                0 <= frame < batch,
                d >= 0,
        ;
    } else if dims.len() == 3 && dims[1] > 0 {
        reveal_with_fuel(volume, 4);
        let t = dims[1] as int;
        let d = dims[2] as int;
        assert(volume(dims) == dims[0] * dims[1] * dims[2]);
        let s = t * d;
        assert(batch * t * d == batch * s && d <= s && 0 <= s) by (nonlinear_arith)
            requires
                s == t * d,
                t >= 1,
                d >= 0,
        ;
        assert(0 <= frame * s && frame * s + s <= batch * s) by (nonlinear_arith)
            requires
                0 <= frame < batch,
                s >= 0,
        ;
    } else if dims.len() == 4 && dims[2] > 0 && dims[3] > 0 {
        reveal_with_fuel(volume, 5);
        let c = dims[1] as int;
        let h = dims[2] as int;
        let w = dims[3] as int;
        assert(volume(dims) == dims[0] * dims[1] * dims[2] * dims[3]);
        let s = c * (h * w);
        assert(batch * c * h * w == batch * s && 0 <= s) by (nonlinear_arith)
            requires
                s == c * (h * w),
                c >= 0,
                h >= 0,
                w >= 0,
        ;
        assert(0 <= frame * s && frame * s + s <= batch * s) by (nonlinear_arith)
            requires
                0 <= frame < batch,
                s >= 0,
        ;
    } else {
        let by = if batch > 1 {
            batch
        } else {
            1
        };
        lemma_volume_positive(dims);
        let each = total / by;
        assert(0 <= each <= total && batch * each <= total) by (nonlinear_arith)
            requires
                batch == by,
                by >= 1,
                each == total / by,
                total >= 0,
        ;
        assert(0 <= frame * each && frame * each + each <= batch * each) by (nonlinear_arith)
            requires
                0 <= frame < batch,
                each >= 0,
        ;
    }
}

proof fn lemma_volume_positive(dims: Seq<usize>)
    ensures
        volume(dims) >= 0,
    decreases dims.len(),
{
    if dims.len() > 0 {
        lemma_volume_positive(dims.drop_last());
        let v = volume(dims.drop_last());
        let d = dims.last() as int;
        assert(v * d >= 0) by (nonlinear_arith)
            requires
                v >= 0,
                d >= 0,
        ;
    }
}

/// Where the frames of a video are taken from.
#[derive(Debug, Clone, Copy, PartialEq, Eq, Structural)]
pub enum FrameSource {
    /// From the cache, as it is.
    Cache,
    /// From the cache, which is filled first.
    FilledCache,
    /// From the video.
    Video,
}

/// Where the frames of a video are taken from first.
pub fn frame_source(settings: &AppSettings) -> (r: FrameSource)
    ensures
        r == (if !settings.ai_frame_cache_enabled {
            FrameSource::Video
        } else if settings.local_preprocess_enabled {
            FrameSource::Cache
        } else {
            FrameSource::FilledCache
        }),
{
    if !settings.ai_frame_cache_enabled {
        FrameSource::Video
    } else if settings.local_preprocess_enabled {
        FrameSource::Cache
    } else {
        FrameSource::FilledCache
    }
}

/// Whether frames that the cache does not hold are taken from the video; not where they are taken
/// from local copies.
pub fn check_direct_frames(settings: &AppSettings) -> (r: Result<(), String>)
    ensures
        r is Err == settings.local_preprocess_enabled,
        r matches Err(message) ==> message@
            == "local staged frame cache is unavailable; direct SMB frame extraction is disabled"@,
{
    if settings.local_preprocess_enabled {
        Err(
            "local staged frame cache is unavailable; direct SMB frame extraction is disabled".to_owned(),
        )
    } else {
        Ok(())
    }
}

/// The number of frames of a video whose cache goes once it is indexed, where it goes.
pub fn frame_cache_to_delete(video: &VideoRecord, settings: &AppSettings) -> (r: Option<usize>)
    ensures
        match r {
            Some(n) => settings.delete_ai_frame_cache_after_index && n
                == local_preprocess::frames_expected(
                video.duration_seconds,
                settings.ai_frame_count as int,
            ),
            None => !settings.delete_ai_frame_cache_after_index,
        },
{
    if settings.delete_ai_frame_cache_after_index {
        Some(local_preprocess::expected_ai_frame_count(video, settings.ai_frame_count))
    } else {
        None
    }
}

/// The positions of the first `n` videos that can be indexed.
pub open spec fn indexable(videos: Seq<VideoRecord>, n: int) -> Seq<usize>
    decreases n,
{
    if n <= 0 {
        Seq::empty()
    } else if local_preprocess::can_take_frames(videos[n - 1]) {
        indexable(videos, n - 1).push((n - 1) as usize)
    } else {
        indexable(videos, n - 1)
    }
}

/// The positions of the videos that can be indexed: their scan went well.
pub fn indexable_videos(videos: &Vec<VideoRecord>) -> (r: Vec<usize>)
    ensures
        r@ == indexable(videos@, videos@.len() as int),
{
    let mut out: Vec<usize> = Vec::new();
    let mut i: usize = 0;
    while i < videos.len()
        invariant
            i <= videos@.len(),
            out@ == indexable(videos@, i as int),
        decreases videos@.len() - i,
    {
        if same_text(videos[i].scan_status.as_str(), "ok") && videos[i].id.is_some() {
            out.push(i);
        }
        i += 1;
    }
    out
}

/// The ids of the videos that are done, after the first `n` videos were looked at.
pub open spec fn done_after(videos: Seq<VideoRecord>, done: Seq<i64>, n: int) -> Seq<i64>
    decreases n,
{
    if n <= 0 {
        done
    } else {
        let before = done_after(videos, done, n - 1);
        match videos[n - 1].id {
            Some(id) => if before.contains(id) {
                before
            } else {
                before.push(id)
            },
            None => before,
        }
    }
}

/// The positions of those of the first `n` videos that are left to be indexed, each id once.
pub open spec fn left_to_index(videos: Seq<VideoRecord>, done: Seq<i64>, n: int) -> Seq<usize>
    decreases n,
{
    if n <= 0 {
        Seq::empty()
    } else {
        let rest = left_to_index(videos, done, n - 1);
        match videos[n - 1].id {
            Some(id) => if done_after(videos, done, n - 1).contains(id) {
                rest
            } else {
                rest.push((n - 1) as usize)
            },
            None => rest,
        }
    }
}

/// The positions of the videos that are left to be indexed. `done` holds the ids of those that
/// are done.
pub fn remaining_videos(videos: &Vec<VideoRecord>, done: Vec<i64>) -> (r: Vec<usize>)
    ensures
        r@ == left_to_index(videos@, done@, videos@.len() as int),
{
    let ghost first = done@;
    let mut done = done;
    let mut out: Vec<usize> = Vec::new();
    let mut i: usize = 0;
    while i < videos.len()
        invariant
            i <= videos@.len(),
            done@ == done_after(videos@, first, i as int),
            out@ == left_to_index(videos@, first, i as int),
        decreases videos@.len() - i,
    {
        match videos[i].id {
            Some(id) => {
                if !has_id(&done, id) {
                    out.push(i);
                    done.push(id);
                }
            },
            None => {},
        }
        i += 1;
    }
    out
}

/// Whether a video can stand for another one, and none that can was scanned later.
pub open spec fn is_newest_source(
    index: VideoIndex,
    probes: Seq<TimingProbe>,
    video: VideoRecord,
    model: Seq<char>,
    expected: usize,
    i: int,
) -> bool {
    &&& 0 <= i < index.videos@.len()
    &&& upkeep::is_source(index, probes, video@, model, expected, i)
    &&& forall|k: int|
        0 <= k < index.videos@.len() && k != i && #[trigger] upkeep::is_source(
            index,
            probes,
            video@,
            model,
            expected,
            k,
        ) ==> upkeep::is_newer(index.videos@[i], index.videos@[k])
}

/// Whether some video can stand for another one.
pub open spec fn has_source(
    index: VideoIndex,
    probes: Seq<TimingProbe>,
    video: VideoRecord,
    model: Seq<char>,
    expected: usize,
) -> bool {
    upkeep::is_described(video@) && exists|k: int|
        0 <= k < index.videos@.len() && #[trigger] upkeep::is_source(
            index,
            probes,
            video@,
            model,
            expected,
            k,
        )
}

/// Whether a video got the embeddings of another, and lost what rested on its own.
pub open spec fn frames_taken_over(
    before: VideoIndex,
    after: VideoIndex,
    source_id: i64,
    target_id: i64,
    model: Seq<char>,
) -> bool {
    &&& after.pair_scores@ == rows::having(
        before.pair_scores@,
        findings::other_scores(target_id, model),
    )
    &&& after.match_edges@ == rows::having(
        before.match_edges@,
        findings::other_edges(target_id, model),
    )
    &&& findings::frames_put(
        before.frame_embeddings@,
        after.frame_embeddings@,
        rows::having(before.frame_embeddings@, findings::own_frames(source_id, model)),
        target_id,
        model,
    )
}

/// The number of embeddings of a video under a model.
pub open spec fn embedded(index: VideoIndex, video_id: i64, model: Seq<char>) -> nat {
    findings::frame_count(
        index.frame_embeddings@,
        video_id,
        model,
        index.frame_embeddings@.len() as int,
    )
}

proof fn lemma_count_is_length(frames: Seq<FrameEmbeddingRecord>, id: i64, model: Seq<char>, n: int)
    requires
        0 <= n <= frames.len(),
    ensures
        findings::frame_count(frames, id, model, n) == rows::having(
            frames.take(n),
            findings::own_frames(id, model),
        ).len(),
    decreases n,
{
    if n > 0 {
        lemma_count_is_length(frames, id, model, n - 1);
        assert(frames.take(n).drop_last() =~= frames.take(n - 1));
        assert(frames.take(n).last() == frames[n - 1]);
    } else {
        assert(frames.take(0) =~= Seq::empty());
    }
}

proof fn lemma_count_from(
    frames: Seq<FrameEmbeddingRecord>,
    id: i64,
    model: Seq<char>,
    from: int,
    n: int,
)
    requires
        0 <= from <= n <= frames.len(),
        forall|k: int| from <= k < n ==> findings::is_frame_of(#[trigger] frames[k], id, model),
    ensures
        findings::frame_count(frames, id, model, n) >= n - from,
    decreases n - from,
{
    if n > from {
        lemma_count_from(frames, id, model, from, n - 1);
        assert(findings::is_frame_of(frames[n - 1], id, model));
    }
}

/// A video whose embeddings were exchanged for those of a list has at least as many.
proof fn lemma_frames_put_count(
    before: Seq<FrameEmbeddingRecord>,
    after: Seq<FrameEmbeddingRecord>,
    list: Seq<FrameEmbeddingRecord>,
    id: i64,
    model: Seq<char>,
)
    requires
        findings::frames_put(before, after, list, id, model),
    ensures
        findings::frame_count(after, id, model, after.len() as int) >= list.len(),
{
    let kept = rows::having(before, findings::other_frames(id, model)).len() as int;
    assert forall|k: int| kept <= k < after.len() implies findings::is_frame_of(
        #[trigger] after[k],
        id,
        model,
    ) by {
        assert(findings::same_frame(after[kept + (k - kept)], list[k - kept], id, model));
    }
    lemma_count_from(after, id, model, kept, after.len() as int);
}

/// How a worker fared with a video.
#[derive(Debug, Clone)]
pub enum AiWorkerOutcome {
    Embedded(Vec<FrameEmbeddingRecord>),
    Failed(String),
}

/// How the indexing of a video fared.
#[derive(Debug, Clone)]
pub enum IndexVideoOutcome {
    Processed,
    Skipped,
    InsufficientFrames(String),
    Failed(String),
}

/// How a worker fared, from what it got of a video: no frames at all are a failure.
pub fn worker_outcome(path: &str, got: Result<Vec<FrameEmbeddingRecord>, String>) -> (r:
    AiWorkerOutcome)
    ensures
        match got {
            Ok(list) => if list@.len() == 0 {
                r matches AiWorkerOutcome::Failed(message) && message@ == path@
                    + ": no AI frames were extracted"@
            } else {
                r == AiWorkerOutcome::Embedded(list)
            },
            Err(error) => r matches AiWorkerOutcome::Failed(message) && message@ == path@ + ": "@
                + error@,
        },
{
    match got {
        Ok(list) => if list.len() == 0 {
            AiWorkerOutcome::Failed(cat(path, ": no AI frames were extracted"))
        } else {
            AiWorkerOutcome::Embedded(list)
        },
        Err(error) => AiWorkerOutcome::Failed(cat3(path, ": ", error.as_str())),
    }
}

/// How a worker fared that could not load the model.
pub fn unloaded_outcome(error: &str) -> (r: AiWorkerOutcome)
    ensures
        r matches AiWorkerOutcome::Failed(message) && message@ == "load ONNX model failed: "@
            + error@,
{
    AiWorkerOutcome::Failed(cat("load ONNX model failed: ", error))
}

impl VideoIndex {
    /// Whether a video needs no work: its embeddings are there, or those of another video with
    /// the same content are, and are taken over. `full_scan` tells whether the video was scanned
    /// in full, `probes` of each recorded video how its timing compares. Fails, and changes
    /// nothing, where the video is not in the index.
    pub fn try_reuse_existing_ai_index(
        &mut self,
        video: &VideoRecord,
        full_scan: bool,
        expected: usize,
        probes: &Vec<TimingProbe>,
        model_id: &str,
        force_rebuild: bool,
    ) -> (r: Result<bool, String>)
        requires
            old(self).wf(),
            probes@.len() == old(self).videos@.len(),
        ensures
            final(self).wf(),
            scans::same_videos(*old(self), *final(self)),
            index::same_sessions(*old(self), *final(self)),
            index::same_models(*old(self), *final(self)),
            final(self).links@ == old(self).links@,
            if force_rebuild || video.id is None || !full_scan {
                r == Ok::<bool, String>(false) && *final(self) == *old(self)
            } else if embedded(*old(self), video.id->0, model_id@) >= expected {
                r == Ok::<bool, String>(true) && *final(self) == *old(self)
            } else if !has_source(*old(self), probes@, *video, model_id@, expected) {
                r == Ok::<bool, String>(false) && *final(self) == *old(self)
            } else if !index::has_video_id(old(self).videos@, video.id->0) {
                &&& r matches Err(message) && message@ == "FOREIGN KEY constraint failed"@
                &&& *final(self) == *old(self)
            } else {
                &&& r == Ok::<bool, String>(true)
                &&& exists|i: int| #[trigger]
                    is_newest_source(*old(self), probes@, *video, model_id@, expected, i)
                        && frames_taken_over(
                        *old(self),
                        *final(self),
                        old(self).videos@[i].id->0,
                        video.id->0,
                        model_id@,
                    )
            },
            r == Ok::<bool, String>(true) ==> video.id is Some && embedded(
                *final(self),
                video.id->0,
                model_id@,
            ) >= expected,
    {
        if force_rebuild || !full_scan {
            return Ok(false);
        }
        let video_id: i64 = match video.id {
            Some(id) => id,
            None => {
                return Ok(false);
            },
        };
        if self.count_frame_embeddings(video_id, model_id) >= expected {
            return Ok(true);
        }
        let ghost before = *self;
        let source_id: i64 = match self.find_embedding_source_by_video_identity(
            probes,
            video,
            model_id,
            expected,
        ) {
            Some(id) => id,
            None => {
                return Ok(false);
            },
        };
        let ghost i = choose|i: int|
            #![trigger before.videos@[i]]
            0 <= i < before.videos@.len() && before.videos@[i].id == Some(source_id)
                && upkeep::is_source(before, probes@, video@, model_id@, expected, i) && (forall|k:
                int|
                0 <= k < before.videos@.len() && k != i && #[trigger] upkeep::is_source(
                    before,
                    probes@,
                    video@,
                    model_id@,
                    expected,
                    k,
                ) ==> upkeep::is_newer(before.videos@[i], before.videos@[k]));
        let ghost source = rows::having(
            before.frame_embeddings@,
            findings::own_frames(source_id, model_id@),
        );
        proof {
            assert(is_newest_source(before, probes@, *video, model_id@, expected, i));
            let n = before.frame_embeddings@.len() as int;
            lemma_count_is_length(before.frame_embeddings@, source_id, model_id@, n);
            assert(before.frame_embeddings@.take(n) =~= before.frame_embeddings@);
            assert(source.len() == embedded(before, source_id, model_id@));
            assert(source_id != video_id);
        }
        let copied: usize = match self.copy_frame_embeddings_from_video(
            source_id,
            video_id,
            model_id,
        ) {
            Ok(count) => count,
            Err(message) => {
                return Err(message);
            },
        };
        proof {
            lemma_frames_put_count(
                before.frame_embeddings@,
                self.frame_embeddings@,
                source,
                video_id,
                model_id@,
            );
            assert(frames_taken_over(before, *self, source_id, video_id, model_id@));
        }
        Ok(copied >= expected)
    }

    /// Records what a worker got of a video: the model and the embeddings, where there are some.
    /// Fails where the video is not in the index or a frame comes twice.
    pub fn persist_ai_worker_result(
        &mut self,
        prepared: &PreparedModel,
        video_id: i64,
        path: &str,
        outcome: AiWorkerOutcome,
        now_ms: i64,
    ) -> (r: Result<IndexVideoOutcome, String>)
        requires
            old(self).wf(),
        ensures
            final(self).wf(),
            scans::same_videos(*old(self), *final(self)),
            index::same_sessions(*old(self), *final(self)),
            final(self).links@ == old(self).links@,
            final(self).match_edges@ == old(self).match_edges@,
            match outcome {
                AiWorkerOutcome::Failed(message) => {
                    r == Ok::<IndexVideoOutcome, String>(IndexVideoOutcome::Failed(message))
                        && *final(self) == *old(self)
                },
                AiWorkerOutcome::Embedded(list) => if list@.len() == 0 {
                    &&& r matches Ok(IndexVideoOutcome::InsufficientFrames(message)) && message@
                        == path@ + ": no AI frames were extracted"@
                    &&& *final(self) == *old(self)
                } else {
                    &&& findings::model_recorded(
                        old(self).models@,
                        final(self).models@,
                        prepared.model_id@,
                        "local-onnx-vision"@,
                        list@[0].embedding@.len() as usize,
                        "onnxruntime"@,
                        prepared.model_path@,
                        prepared.model_hash@,
                        now_ms,
                    )
                    &&& r is Ok == (findings::frames_distinct(list@) && index::has_video_id(
                        old(self).videos@,
                        video_id,
                    ))
                    &&& r is Ok ==> {
                        &&& r == Ok::<IndexVideoOutcome, String>(IndexVideoOutcome::Processed)
                        &&& findings::frames_put(
                            old(self).frame_embeddings@,
                            final(self).frame_embeddings@,
                            list@,
                            video_id,
                            prepared.model_id@,
                        )
                        &&& final(self).pair_scores@ == rows::having(
                            old(self).pair_scores@,
                            findings::other_scores(video_id, prepared.model_id@),
                        )
                        &&& embedded(*final(self), video_id, prepared.model_id@) >= list@.len()
                    }
                    &&& r is Err ==> final(self).frame_embeddings@ == old(self).frame_embeddings@
                        && final(self).pair_scores@ == old(self).pair_scores@
                    &&& r matches Err(message) ==> message@ == (if index::has_video_id(
                        old(self).videos@,
                        video_id,
                    ) {
                        "UNIQUE constraint failed: frame_embeddings.video_id, frame_embeddings.model_id, frame_embeddings.frame_index"@
                    } else {
                        "FOREIGN KEY constraint failed"@
                    })
                },
            },
    {
        match outcome {
            AiWorkerOutcome::Failed(message) => Ok(IndexVideoOutcome::Failed(message)),
            AiWorkerOutcome::Embedded(list) => {
                if list.len() == 0 {
                    return Ok(
                        IndexVideoOutcome::InsufficientFrames(
                            cat(path, ": no AI frames were extracted"),
                        ),
                    );
                }
                let dimension: usize = list[0].embedding.len();
                let ghost before = *self;
                self.upsert_embedding_model(
                    prepared.model_id.as_str(),
                    "local-onnx-vision",
                    dimension,
                    "onnxruntime",
                    prepared.model_path.as_str(),
                    prepared.model_hash.as_str(),
                    now_ms,
                );
                match self.replace_frame_embeddings(video_id, prepared.model_id.as_str(), &list) {
                    Ok(_) => {
                        proof {
                            lemma_frames_put_count(
                                before.frame_embeddings@,
                                self.frame_embeddings@,
                                list@,
                                video_id,
                                prepared.model_id@,
                            );
                        }
                        Ok(IndexVideoOutcome::Processed)
                    },
                    Err(message) => Err(message),
                }
            },
        }
    }
}

/// How the indexing of a video fared whose embeddings are not there: from what was got of it.
pub fn fresh_outcome(path: &str, got: Result<Vec<FrameEmbeddingRecord>, String>) -> (r:
    AiWorkerOutcome)
    ensures
        match got {
            Ok(list) => r == AiWorkerOutcome::Embedded(list),
            Err(error) => r matches AiWorkerOutcome::Failed(message) && message@ == path@ + ": "@
                + error@,
        },
{
    match got {
        Ok(list) => AiWorkerOutcome::Embedded(list),
        Err(error) => AiWorkerOutcome::Failed(cat3(path, ": ", error.as_str())),
    }
}

/// A number, or the largest one of the machine.
pub open spec fn capped(n: int) -> int {
    if n > usize::MAX {
        usize::MAX as int
    } else {
        n
    }
}

/// The larger of two numbers.
pub open spec fn larger(a: int, b: int) -> int {
    if a >= b {
        a
    } else {
        b
    }
}

/// The smaller of two numbers.
pub open spec fn smaller(a: int, b: int) -> int {
    if a <= b {
        a
    } else {
        b
    }
}

fn larger_of(a: usize, b: usize) -> (r: usize)
    ensures
        r == larger(a as int, b as int),
{
    if a >= b {
        a
    } else {
        b
    }
}

fn smaller_of(a: usize, b: usize) -> (r: usize)
    ensures
        r == smaller(a as int, b as int),
{
    if a <= b {
        a
    } else {
        b
    }
}

/// The recent errors after some more.
pub open spec fn errors_after(errors: Seq<Seq<char>>, more: Seq<Seq<char>>, n: int) -> Seq<
    Seq<char>,
>
    decreases n,
{
    if n <= 0 {
        errors
    } else {
        local_preprocess::last_eight(errors_after(errors, more, n - 1).push(more[n - 1]))
    }
}

/// Where frames are prepared before they are embedded.
#[derive(Debug, Clone, Copy, PartialEq, Eq, Structural)]
pub enum Preparation {
    /// From local copies.
    Local,
    /// On the storage server.
    Nas,
    /// Not beforehand.
    Direct,
}

/// A run that indexes videos: how far it is.
#[derive(Debug, Clone)]
pub struct AiIndexRun {
    pub total_videos: usize,
    pub processed: usize,
    pub skipped: usize,
    pub insufficient_frames: usize,
    pub failed: usize,
    pub started: usize,
    pub prepared: usize,
    pub base_skipped: usize,
    pub base_failed: usize,
    pub base_insufficient: usize,
    pub recent_errors: Vec<String>,
}

/// Starts the indexing of videos. Gives the positions of those that can be indexed, and where
/// their frames are prepared. `nas` tells whether they can be on the storage server. Fails where
/// the comparison by frames is switched off.
pub fn build_ai_index_with_progress(
    settings: &AppSettings,
    videos: &Vec<VideoRecord>,
    nas: bool,
) -> (r: Result<(AiIndexRun, Vec<usize>, Preparation), String>)
    ensures
        r is Err == !settings.ai_vision_enabled,
        r matches Err(message) ==> message@ == "AI vision matching is disabled in Settings"@,
        r matches Ok(start) ==> {
            let (run, positions, preparation) = start;
            &&& positions@ == indexable(videos@, videos@.len() as int)
            &&& run.wf()
            &&& run.total_videos == positions@.len()
            &&& run.processed == 0 && run.skipped == 0 && run.insufficient_frames == 0
            &&& run.failed == 0 && run.started == 0 && run.prepared == 0
            &&& run.recent_errors@.len() == 0
            &&& preparation == (if settings.ai_frame_cache_enabled
                && settings.local_preprocess_enabled {
                Preparation::Local
            } else if settings.ai_frame_cache_enabled && nas {
                Preparation::Nas
            } else {
                Preparation::Direct
            })
        },
{
    if !settings.ai_vision_enabled {
        return Err("AI vision matching is disabled in Settings".to_owned());
    }
    let positions = indexable_videos(videos);
    let run = AiIndexRun {
        total_videos: positions.len(),
        processed: 0,
        skipped: 0,
        insufficient_frames: 0,
        failed: 0,
        started: 0,
        prepared: 0,
        base_skipped: 0,
        base_failed: 0,
        base_insufficient: 0,
        recent_errors: Vec::new(),
    };
    let preparation = if settings.ai_frame_cache_enabled && local_preprocess::enabled(settings) {
        Preparation::Local
    } else if settings.ai_frame_cache_enabled && nas {
        Preparation::Nas
    } else {
        Preparation::Direct
    };
    Ok((run, positions, preparation))
}

impl AiIndexRun {
    /// No more videos are started or prepared than there are.
    pub open spec fn wf(&self) -> bool {
        &&& self.started <= self.total_videos
        &&& self.prepared <= self.total_videos
        &&& self.recent_errors@.len() <= 8
    }

    /// The number of videos that are done, one way or another.
    pub open spec fn done(&self) -> int {
        capped(self.processed + self.skipped + self.insufficient_frames + self.failed)
    }

    /// Whether only the numbers of videos that are started and prepared differ.
    pub open spec fn same_counts(&self, other: AiIndexRun) -> bool {
        &&& self.total_videos == other.total_videos
        &&& self.processed == other.processed
        &&& self.skipped == other.skipped
        &&& self.insufficient_frames == other.insufficient_frames
        &&& self.failed == other.failed
        &&& self.same_base(other)
    }

    /// Whether two runs started the preparation of frames alike, with the same errors.
    pub open spec fn same_base(&self, other: AiIndexRun) -> bool {
        &&& self.total_videos == other.total_videos
        &&& self.base_skipped == other.base_skipped
        &&& self.base_failed == other.base_failed
        &&& self.base_insufficient == other.base_insufficient
        &&& self.recent_errors == other.recent_errors
    }

    /// Whether a message tells the numbers of a run.
    pub open spec fn tells(
        &self,
        r: AiIndexProgress,
        phase: Seq<char>,
        started: int,
        prepared: int,
        path: Option<String>,
    ) -> bool {
        &&& r.phase@ == phase
        &&& r.total_videos == self.total_videos
        &&& r.processed == self.processed
        &&& r.skipped == self.skipped
        &&& r.insufficient_frames == self.insufficient_frames
        &&& r.failed == self.failed
        &&& r.started == started
        &&& r.prepared == prepared
        &&& r.current_path == path
    }

    fn tell(&self, phase: &str, started: usize, prepared: usize, path: Option<String>) -> (r:
        AiIndexProgress)
        ensures
            self.tells(r, phase@, started as int, prepared as int, path),
    {
        AiIndexProgress {
            phase: phase.to_owned(),
            total_videos: self.total_videos,
            processed: self.processed,
            skipped: self.skipped,
            insufficient_frames: self.insufficient_frames,
            failed: self.failed,
            started,
            prepared,
            current_path: path,
        }
    }

    fn count_done(&self) -> (r: usize)
        ensures
            r == self.done(),
    {
        self.processed.saturating_add(self.skipped).saturating_add(
            self.insufficient_frames,
        ).saturating_add(self.failed)
    }

    /// Tells that the model is loaded.
    pub fn loading(&self) -> (r: AiIndexProgress)
        ensures
            self.tells(r, "loading-model"@, 0, 0, None),
    {
        self.tell("loading-model", 0, 0, None)
    }

    /// Takes note that a video needs no work, before frames are prepared.
    pub fn reused_at_start(&mut self, path: String) -> (r: AiIndexProgress)
        requires
            old(self).wf(),
            old(self).skipped < usize::MAX,
        ensures
            final(self).wf(),
            final(self).same_counts(
                (AiIndexRun { skipped: (old(self).skipped + 1) as usize, ..*old(self) }),
            ),
            final(self).started == old(self).started,
            final(self).prepared == old(self).prepared,
            final(self).tells(
                r,
                "checking-existing-index"@,
                final(self).done(),
                final(self).done(),
                Some(path),
            ),
    {
        self.skipped = self.skipped + 1;
        let done: usize = self.count_done();
        self.tell("checking-existing-index", done, done, Some(path))
    }

    /// Takes note that frames are prepared from now on.
    pub fn start_staging(&mut self)
        requires
            old(self).wf(),
            old(self).done() <= old(self).total_videos,
        ensures
            final(self).wf(),
            final(self).total_videos == old(self).total_videos,
            final(self).processed == old(self).processed,
            final(self).skipped == old(self).skipped,
            final(self).insufficient_frames == old(self).insufficient_frames,
            final(self).failed == old(self).failed,
            final(self).recent_errors == old(self).recent_errors,
            final(self).base_skipped == old(self).skipped,
            final(self).base_failed == old(self).failed,
            final(self).base_insufficient == old(self).insufficient_frames,
            final(self).started == old(self).done(),
            final(self).prepared == old(self).done(),
    {
        let done: usize = self.count_done();
        self.base_skipped = self.skipped;
        self.base_failed = self.failed;
        self.base_insufficient = self.insufficient_frames;
        self.started = done;
        self.prepared = done;
    }

    /// Takes note of how far the preparation of frames is. Numbers only grow.
    pub fn staging_progress(&mut self, progress: &LocalPreprocessProgress) -> (r: AiIndexProgress)
        requires
            old(self).wf(),
        ensures
            final(self).wf(),
            final(self).same_base(*old(self)),
            final(self).processed == old(self).processed,
            final(self).skipped == old(self).skipped,
            final(self).failed == larger(
                old(self).failed as int,
                capped(old(self).base_failed + progress.failed),
            ),
            final(self).insufficient_frames == larger(
                old(self).insufficient_frames as int,
                capped(old(self).base_insufficient + progress.insufficient_frames),
            ),
            final(self).started == smaller(
                larger(
                    larger(
                        old(self).started as int,
                        capped(old(self).base_skipped + progress.started),
                    ),
                    final(self).done(),
                ),
                old(self).total_videos as int,
            ),
            final(self).prepared == smaller(
                larger(
                    larger(
                        old(self).prepared as int,
                        capped(
                            old(self).base_skipped + progress.imported + progress.skipped
                                + progress.insufficient_frames + progress.failed,
                        ),
                    ),
                    final(self).done(),
                ),
                old(self).total_videos as int,
            ),
            old(self).started <= final(self).started,
            old(self).prepared <= final(self).prepared,
            r.phase@ == "local-preprocess"@,
            r.total_videos == final(self).total_videos,
            r.processed == final(self).processed,
            r.skipped == final(self).skipped,
            r.insufficient_frames == final(self).insufficient_frames,
            r.failed == final(self).failed,
            r.started == final(self).started,
            r.prepared == final(self).prepared,
            models::opt_text(r.current_path) == models::opt_text(progress.current_path),
    {
        self.failed = larger_of(self.failed, self.base_failed.saturating_add(progress.failed));
        self.insufficient_frames = larger_of(
            self.insufficient_frames,
            self.base_insufficient.saturating_add(progress.insufficient_frames),
        );
        let done: usize = self.count_done();
        let begun: usize = larger_of(
            larger_of(self.started, self.base_skipped.saturating_add(progress.started)),
            done,
        );
        let ready: usize = larger_of(
            larger_of(
                self.prepared,
                self.base_skipped.saturating_add(progress.imported).saturating_add(
                    progress.skipped,
                ).saturating_add(progress.insufficient_frames).saturating_add(progress.failed),
            ),
            done,
        );
        self.started = smaller_of(begun, self.total_videos);
        self.prepared = smaller_of(ready, self.total_videos);
        self.tell(
            "local-preprocess",
            self.started,
            self.prepared,
            models::copy_opt_text(&progress.current_path),
        )
    }

    /// Takes note that the frames of one more video are there.
    pub fn frames_ready(&mut self)
        requires
            old(self).wf(),
        ensures
            final(self).wf(),
            final(self).same_counts(*old(self)),
            final(self).prepared == smaller(old(self).prepared + 1, old(self).total_videos as int),
            final(self).started == larger(old(self).started as int, final(self).prepared as int),
    {
        self.prepared = smaller_of(self.prepared.saturating_add(1), self.total_videos);
        self.started = larger_of(self.started, self.prepared);
    }

    /// Takes note that a video whose frames are there needs no work.
    pub fn reused_when_ready(&mut self, path: String) -> (r: AiIndexProgress)
        requires
            old(self).wf(),
        ensures
            final(self).wf(),
            final(self).same_counts(
                (AiIndexRun { skipped: capped(old(self).skipped + 1) as usize, ..*old(self) }),
            ),
            final(self).started == old(self).started,
            final(self).prepared == old(self).prepared,
            final(self).tells(
                r,
                "indexing"@,
                final(self).started as int,
                final(self).prepared as int,
                Some(path),
            ),
    {
        self.skipped = self.skipped.saturating_add(1);
        self.tell("indexing", self.started, self.prepared, Some(path))
    }

    /// Tells that a video waits for a worker.
    pub fn queued(&self, workers: usize, path: String) -> (r: AiIndexProgress)
        ensures
            self.tells(
                r,
                "queued-ai x"@ + text::decimal(workers as nat),
                self.started as int,
                self.prepared as int,
                Some(path),
            ),
    {
        let phase = cat("queued-ai x", decimal_text(workers as u64).as_str());
        self.tell(phase.as_str(), self.started, self.prepared, Some(path))
    }

    /// Takes note of errors.
    pub fn note_errors(&mut self, errors: Vec<String>)
        requires
            old(self).wf(),
        ensures
            final(self).wf(),
            final(self).same_counts(
                (AiIndexRun { recent_errors: final(self).recent_errors, ..*old(self) }),
            ),
            final(self).started == old(self).started,
            final(self).prepared == old(self).prepared,
            models::texts(final(self).recent_errors@) == errors_after(
                models::texts(old(self).recent_errors@),
                models::texts(errors@),
                errors@.len() as int,
            ),
    {
        let ghost first = *self;
        let mut i: usize = 0;
        while i < errors.len()
            invariant
                i <= errors@.len(),
                self.wf(),
                self.same_counts((AiIndexRun { recent_errors: self.recent_errors, ..first })),
                self.started == first.started,
                self.prepared == first.prepared,
                models::texts(self.recent_errors@) == errors_after(
                    models::texts(first.recent_errors@),
                    models::texts(errors@),
                    i as int,
                ),
            decreases errors@.len() - i,
        {
            let message = errors[i].clone();
            assert(models::texts(errors@)[i as int] == message@);
            push_recent_error(&mut self.recent_errors, message);
            i += 1;
        }
    }

    /// Takes note that the preparation of frames is over.
    pub fn staging_done(&mut self, summary: LocalPreprocessSummary)
        requires
            old(self).wf(),
        ensures
            final(self).wf(),
            final(self).total_videos == old(self).total_videos,
            final(self).processed == old(self).processed,
            final(self).skipped == old(self).skipped,
            final(self).started == old(self).started,
            final(self).prepared == old(self).prepared,
            final(self).failed == larger(
                old(self).failed as int,
                capped(old(self).base_failed + summary.failed),
            ),
            final(self).insufficient_frames == larger(
                old(self).insufficient_frames as int,
                capped(old(self).base_insufficient + summary.insufficient_frames),
            ),
            models::texts(final(self).recent_errors@) == errors_after(
                models::texts(old(self).recent_errors@),
                models::texts(summary.recent_errors@),
                summary.recent_errors@.len() as int,
            ),
    {
        self.note_errors(summary.recent_errors);
        self.failed = larger_of(self.failed, self.base_failed.saturating_add(summary.failed));
        self.insufficient_frames = larger_of(
            self.insufficient_frames,
            self.base_insufficient.saturating_add(summary.insufficient_frames),
        );
    }

    /// Counts how the indexing of a video fared.
    pub fn count_outcome(&mut self, outcome: IndexVideoOutcome)
        requires
            old(self).wf(),
            old(self).processed < usize::MAX,
            old(self).skipped < usize::MAX,
            old(self).insufficient_frames < usize::MAX,
            old(self).failed < usize::MAX,
        ensures
            final(self).wf(),
            final(self).total_videos == old(self).total_videos,
            final(self).started == old(self).started,
            final(self).prepared == old(self).prepared,
            final(self).processed == old(self).processed + local_preprocess::one_if(
                outcome is Processed,
            ),
            final(self).skipped == old(self).skipped + local_preprocess::one_if(
                outcome is Skipped,
            ),
            final(self).insufficient_frames == old(self).insufficient_frames
                + local_preprocess::one_if(outcome is InsufficientFrames),
            final(self).failed == old(self).failed + local_preprocess::one_if(outcome is Failed),
            models::texts(final(self).recent_errors@) == (match outcome {
                IndexVideoOutcome::Failed(message) => local_preprocess::last_eight(
                    models::texts(old(self).recent_errors@).push(message@),
                ),
                _ => models::texts(old(self).recent_errors@),
            }),
    {
        match outcome {
            IndexVideoOutcome::Processed => {
                self.processed = self.processed + 1;
            },
            IndexVideoOutcome::Skipped => {
                self.skipped = self.skipped + 1;
            },
            IndexVideoOutcome::InsufficientFrames(_) => {
                self.insufficient_frames = self.insufficient_frames + 1;
            },
            IndexVideoOutcome::Failed(message) => {
                self.failed = self.failed + 1;
                push_recent_error(&mut self.recent_errors, message);
            },
        }
    }

    /// Tells how far the workers are.
    pub fn worker_progress(&self, workers: usize) -> (r: AiIndexProgress)
        ensures
            self.tells(
                r,
                "indexing x"@ + text::decimal(workers as nat),
                self.started as int,
                self.prepared as int,
                None,
            ),
    {
        let phase = cat("indexing x", decimal_text(workers as u64).as_str());
        self.tell(phase.as_str(), self.started, self.prepared, None)
    }

    /// Tells how far the preparation on the storage server is.
    pub fn nas_progress(
        &self,
        total_videos: usize,
        imported: usize,
        skipped: usize,
        failed: usize,
        path: Option<String>,
    ) -> (r: AiIndexProgress)
        ensures
            r.phase@ == "nas-preprocess"@,
            r.total_videos == total_videos,
            r.processed == self.processed,
            r.skipped == self.skipped,
            r.insufficient_frames == 0,
            r.failed == failed,
            r.started == smaller(capped(imported + skipped + failed), total_videos as int),
            r.prepared == r.started,
            r.current_path == path,
    {
        let done: usize = smaller_of(
            imported.saturating_add(skipped).saturating_add(failed),
            total_videos,
        );
        AiIndexProgress {
            phase: "nas-preprocess".to_owned(),
            total_videos,
            processed: self.processed,
            skipped: self.skipped,
            insufficient_frames: 0,
            failed,
            started: done,
            prepared: done,
            current_path: path,
        }
    }

    /// Tells that the videos that are left are indexed one by one, or that one is done.
    pub fn indexing(&self, path: Option<String>) -> (r: AiIndexProgress)
        ensures
            self.tells(r, "indexing"@, self.done(), self.done(), path),
    {
        let done: usize = self.count_done();
        self.tell("indexing", done, done, path)
    }

    /// Tells that the next video is indexed.
    pub fn before_video(&self, path: String) -> (r: AiIndexProgress)
        ensures
            self.tells(
                r,
                "indexing"@,
                smaller(capped(self.done() + 1), self.total_videos as int),
                self.done(),
                Some(path),
            ),
    {
        let done: usize = self.count_done();
        self.tell(
            "indexing",
            smaller_of(done.saturating_add(1), self.total_videos),
            done,
            Some(path),
        )
    }

    /// Tells that all is done.
    pub fn completed(&self) -> (r: AiIndexProgress)
        ensures
            self.tells(
                r,
                "completed"@,
                self.total_videos as int,
                self.total_videos as int,
                None,
            ),
    {
        self.tell("completed", self.total_videos, self.total_videos, None)
    }

    /// What a run came to.
    pub fn summary(self, prepared: PreparedModel, elapsed_ms: u128) -> (r: AiIndexSummary)
        ensures
            r.model_id == prepared.model_id,
            r.model_path == prepared.model_path,
            r.total_videos == self.total_videos,
            r.processed == self.processed,
            r.skipped == self.skipped,
            r.insufficient_frames == self.insufficient_frames,
            r.failed == self.failed,
            r.elapsed_ms == elapsed_ms,
            r.recent_errors == self.recent_errors,
    {
        AiIndexSummary {
            model_id: prepared.model_id,
            model_path: prepared.model_path,
            total_videos: self.total_videos,
            processed: self.processed,
            skipped: self.skipped,
            insufficient_frames: self.insufficient_frames,
            failed: self.failed,
            elapsed_ms,
            recent_errors: self.recent_errors,
        }
    }
}

/// The message that the preparation from local copies failed.
pub fn local_failure_text(error: &str) -> (r: String)
    ensures
        r@ == "Local staged preprocess failed: "@ + error@,
{
    cat("Local staged preprocess failed: ", error)
}

/// The message that the preparation on the storage server failed.
pub fn nas_failure_text(error: &str) -> (r: String)
    ensures
        r@ == "NAS SSH preprocess failed, falling back to SMB frames: "@ + error@,
{
    cat("NAS SSH preprocess failed, falling back to SMB frames: ", error)
}

} // verus!
