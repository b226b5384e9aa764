//! Why two videos are, or are not, held to be the same.
use crate::ai_groups;
use crate::ai_groups::{edge_key, AiEdge};
use crate::ai_index::ai_match_cache_key;
use crate::ai_index;
use crate::double::Double;
use crate::findings;
use crate::index::VideoIndex;
use crate::matching;
use crate::models;
use crate::models::{AiPairScoreRecord, AppSettings, FrameEmbeddingRecord, VideoRecord};
use crate::scans;
use crate::text;
use crate::text::{add_line, cat5, decimal_text, ends_with, same_text};
use crate::upkeep;
use vstd::prelude::*;
use vstd::string::*;

verus! {

/// What is known of a pair of videos.
#[derive(Debug, Clone)]
pub struct AiPairDebugReport {
    pub left: AiPairDebugVideo,
    pub right: AiPairDebugVideo,
    pub settings: AiPairDebugSettings,
    pub model_id: Option<String>,
    pub current_cache_key: Option<String>,
    pub current_cached_score: Option<AiPairDebugCachedScore>,
    pub cached_scores: Vec<AiPairDebugCachedScore>,
    pub embedding_summary: Option<AiPairDebugEmbeddingSummary>,
    pub threshold_scores: Vec<AiPairDebugThresholdScore>,
    pub diagnosis: Vec<String>,
}

/// What is known of one video of a pair.
#[derive(Debug, Clone)]
pub struct AiPairDebugVideo {
    pub requested_path: String,
    pub found: bool,
    pub id: Option<i64>,
    pub indexed_path: Option<String>,
    pub file_name: Option<String>,
    pub duration_seconds: Option<Double>,
    pub size_bytes: Option<u64>,
    pub scan_status: Option<String>,
    pub embedding_count: usize,
}

/// The settings that a comparison rests on.
#[derive(Debug, Clone)]
pub struct AiPairDebugSettings {
    pub ai_vision_enabled: bool,
    pub ai_similarity_threshold: Double,
    pub ai_min_matched_frames: usize,
    pub ai_frame_count: usize,
    pub ai_clip_matching_enabled: bool,
    pub ai_match_worker_count: usize,
}

/// A recorded score of a pair.
#[derive(Debug, Clone)]
pub struct AiPairDebugCachedScore {
    pub cache_key: String,
    pub confidence: Double,
    pub matched: usize,
    pub compared: usize,
    pub average_similarity: Double,
    pub coverage: Double,
    pub created_unix_ms: i64,
    pub is_current_cache_key: bool,
}

/// How similar the frames of a pair are.
#[derive(Debug, Clone, Copy)]
pub struct AiPairDebugEmbeddingSummary {
    pub max_frame_similarity: Double,
    pub average_best_short_frame_similarity: Double,
    pub p50_best_short_frame_similarity: Double,
    pub p75_best_short_frame_similarity: Double,
    pub p90_best_short_frame_similarity: Double,
    pub p95_best_short_frame_similarity: Double,
}

/// The score of a pair under some least similarity of frames.
#[derive(Debug, Clone, Copy)]
pub struct AiPairDebugThresholdScore {
    pub frame_similarity_threshold: Double,
    pub confidence: Double,
    pub matched: usize,
    pub compared: usize,
    pub average_similarity: Double,
    pub coverage: Double,
    pub passes_min_matched_frames: bool,
}

/// The form by which paths are looked up: one kind of slash, no white space or quotes at the ends,
/// lowercase.
pub open spec fn lookup_form(path: Seq<char>) -> Seq<char> {
    text::lowercase(
        text::without_trailing(
            text::without_leading(text::trimmed(text::replaced(path, '/', '\\')), '"'),
            '"',
        ),
    )
}

/// The form by which paths are looked up.
pub fn normalize_debug_path(path: &str) -> (r: String)
    ensures
        r@ == lookup_form(path@),
{
    let own = text::trim(text::replace_char(path, '/', '\\').as_str());
    let inner = text::trim_start_char(own.as_str(), '"');
    text::trim_end_char(inner.as_str(), '"').to_lowercase()
}

/// How well a video answers to a path: by the whole path, by its end, or by its file name.
#[derive(Debug, Clone, Copy, PartialEq, Eq, Structural)]
pub enum Lookup {
    Whole,
    End,
    Name,
}

/// Whether a video answers to a path in some way. `name` is the last part of the path.
pub open spec fn answers(video: VideoRecord, path: Seq<char>, name: Seq<char>, how: Lookup) -> bool {
    match how {
        Lookup::Whole => lookup_form(video.path@) == lookup_form(path),
        Lookup::End => text::has_suffix(lookup_form(video.path@), lookup_form(path)),
        Lookup::Name => text::lowercase(video.file_name@) == text::lowercase(name),
    }
}

fn does_answer(video: &VideoRecord, path: &str, name: &str, how: Lookup) -> (r: bool)
    ensures
        r == answers(*video, path@, name@, how),
{
    match how {
        Lookup::Whole => {
            same_text(
                normalize_debug_path(video.path.as_str()).as_str(),
                normalize_debug_path(path).as_str(),
            )
        },
        Lookup::End => {
            ends_with(
                normalize_debug_path(video.path.as_str()).as_str(),
                normalize_debug_path(path).as_str(),
            )
        },
        Lookup::Name => {
            same_text(
                video.file_name.as_str().to_lowercase().as_str(),
                name.to_lowercase().as_str(),
            )
        },
    }
}

/// The first listed video that answers to a path in some way.
pub open spec fn first_answer(
    videos: Seq<VideoRecord>,
    order: Seq<usize>,
    path: Seq<char>,
    name: Seq<char>,
    how: Lookup,
) -> Option<usize>
    decreases order.len(),
{
    if order.len() == 0 {
        None
    } else if answers(videos[order[0] as int], path, name, how) {
        Some(order[0])
    } else {
        first_answer(videos, order.drop_first(), path, name, how)
    }
}

fn find_answer(
    videos: &Vec<VideoRecord>,
    order: &Vec<usize>,
    path: &str,
    name: &str,
    how: Lookup,
) -> (r: Option<usize>)
    requires
        forall|k: int| 0 <= k < order@.len() ==> (#[trigger] order@[k]) < videos@.len(),
    ensures
        r == first_answer(videos@, order@, path@, name@, how),
        r matches Some(i) ==> i < videos@.len(),
{
    let mut i: usize = 0;
    assert(order@.skip(0) =~= order@);
    while i < order.len()
        invariant
            i <= order@.len(),
            forall|k: int| 0 <= k < order@.len() ==> (#[trigger] order@[k]) < videos@.len(),
            first_answer(videos@, order@, path@, name@, how) == first_answer(
                videos@,
                order@.skip(i as int),
                path@,
                name@,
                how,
            ),
        decreases order@.len() - i,
    {
        assert(order@.skip(i as int).drop_first() =~= order@.skip(i + 1));
        assert(order@.skip(i as int)[0] == order@[i as int]);
        if does_answer(&videos[order[i]], path, name, how) {
            return Some(order[i]);
        }
        i += 1;
    }
    None
}

/// The video that a path stands for: one that answers by the whole path, else by its end, else by
/// its file name.
pub open spec fn stands_for(
    videos: Seq<VideoRecord>,
    order: Seq<usize>,
    path: Seq<char>,
    name: Seq<char>,
) -> Option<usize> {
    match first_answer(videos, order, path, name, Lookup::Whole) {
        Some(i) => Some(i),
        None => match first_answer(videos, order, path, name, Lookup::End) {
            Some(i) => Some(i),
            None => first_answer(videos, order, path, name, Lookup::Name),
        },
    }
}

/// The video that a path stands for, among those that `order` lists. `name` is the last part of
/// the path, or the path where it has none.
pub fn find_debug_video(
    videos: &Vec<VideoRecord>,
    order: &Vec<usize>,
    path: &str,
    name: &str,
) -> (r: Option<usize>)
    requires
        forall|k: int| 0 <= k < order@.len() ==> (#[trigger] order@[k]) < videos@.len(),
    ensures
        r == stands_for(videos@, order@, path@, name@),
        r matches Some(i) ==> i < videos@.len(),
{
    match find_answer(videos, order, path, name, Lookup::Whole) {
        Some(i) => Some(i),
        None => match find_answer(videos, order, path, name, Lookup::End) {
            Some(i) => Some(i),
            None => find_answer(videos, order, path, name, Lookup::Name),
        },
    }
}

/// Whether what is known of a video is told.
pub open spec fn shows(
    shown: AiPairDebugVideo,
    path: Seq<char>,
    video: Option<VideoRecord>,
    embedding_count: int,
) -> bool {
    &&& shown.requested_path@ == path
    &&& shown.found == video is Some
    &&& shown.embedding_count == embedding_count
    &&& match video {
        Some(v) => {
            &&& shown.id == v.id
            &&& models::opt_text(shown.indexed_path) == Some(v.path@)
            &&& models::opt_text(shown.file_name) == Some(v.file_name@)
            &&& shown.duration_seconds == v.duration_seconds
            &&& shown.size_bytes == Some(v.size_bytes)
            &&& models::opt_text(shown.scan_status) == Some(v.scan_status@)
        },
        None => {
            &&& shown.id is None
            &&& shown.indexed_path is None
            &&& shown.file_name is None
            &&& shown.duration_seconds is None
            &&& shown.size_bytes is None
            &&& shown.scan_status is None
        },
    }
}

/// The video at a position.
pub open spec fn video_at(videos: Seq<VideoRecord>, place: Option<usize>) -> Option<VideoRecord> {
    match place {
        Some(i) => Some(videos[i as int]),
        None => None,
    }
}

/// What is known of a video.
pub fn debug_video(
    path: &str,
    videos: &Vec<VideoRecord>,
    place: Option<usize>,
    embedding_count: usize,
) -> (r: AiPairDebugVideo)
    requires
        place matches Some(i) ==> i < videos@.len(),
    ensures
        shows(r, path@, video_at(videos@, place), embedding_count as int),
{
    match place {
        Some(i) => AiPairDebugVideo {
            requested_path: path.to_owned(),
            found: true,
            id: videos[i].id,
            indexed_path: Some(videos[i].path.clone()),
            file_name: Some(videos[i].file_name.clone()),
            duration_seconds: videos[i].duration_seconds,
            size_bytes: Some(videos[i].size_bytes),
            scan_status: Some(videos[i].scan_status.clone()),
            embedding_count,
        },
        None => AiPairDebugVideo {
            requested_path: path.to_owned(),
            found: false,
            id: None,
            indexed_path: None,
            file_name: None,
            duration_seconds: None,
            size_bytes: None,
            scan_status: None,
            embedding_count,
        },
    }
}

/// Whether a score is of a pair under a model.
pub open spec fn is_of_pair(score: AiPairScoreRecord, pair: (i64, i64), model: Seq<char>) -> bool {
    score.video_a_id == pair.0 && score.video_b_id == pair.1 && score.model_id@ == model
}

/// The position at which a score comes in among others, the newest first.
pub open spec fn newer_before(table: Seq<AiPairScoreRecord>, list: Seq<usize>, i: usize) -> int
    decreases list.len(),
{
    if list.len() == 0 {
        0
    } else if table[list.last() as int].created_unix_ms >= table[i as int].created_unix_ms {
        list.len() as int
    } else {
        newer_before(table, list.drop_last(), i)
    }
}

/// The positions of the scores of a pair under a model among the first `n`, the newest first.
pub open spec fn scores_of_pair(
    table: Seq<AiPairScoreRecord>,
    pair: (i64, i64),
    model: Seq<char>,
    n: int,
) -> Seq<usize>
    decreases n,
{
    if n <= 0 {
        Seq::empty()
    } else {
        let rest = scores_of_pair(table, pair, model, n - 1);
        if is_of_pair(table[n - 1], pair, model) {
            rest.insert(newer_before(table, rest, (n - 1) as usize), (n - 1) as usize)
        } else {
            rest
        }
    }
}

proof fn lemma_newer_before(table: Seq<AiPairScoreRecord>, list: Seq<usize>, i: usize)
    ensures
        0 <= newer_before(table, list, i) <= list.len(),
    decreases list.len(),
{
    if list.len() > 0 {
        lemma_newer_before(table, list.drop_last(), i);
    }
}

/// Whether a recorded score is told; `current` is the key of the scores that are in use.
pub open spec fn score_shown(
    shown: AiPairDebugCachedScore,
    score: AiPairScoreRecord,
    current: Option<Seq<char>>,
) -> bool {
    &&& shown.cache_key@ == score.cache_key@
    &&& shown.confidence == score.confidence
    &&& shown.matched == score.matched
    &&& shown.compared == score.compared
    &&& shown.average_similarity == score.average_similarity
    &&& shown.coverage == score.coverage
    &&& shown.created_unix_ms == score.created_unix_ms
    &&& shown.is_current_cache_key == (current == Some(score.cache_key@))
}

/// Whether the newest scores of a pair are told, twenty at most.
pub open spec fn newest_shown(
    shown: Seq<AiPairDebugCachedScore>,
    table: Seq<AiPairScoreRecord>,
    pair: (i64, i64),
    model: Seq<char>,
    current: Option<Seq<char>>,
) -> bool {
    let all = scores_of_pair(table, pair, model, table.len() as int);
    &&& shown.len() == (if all.len() > 20 {
        20
    } else {
        all.len() as int
    })
    &&& forall|k: int|
        #![trigger shown[k]]
        0 <= k < shown.len() ==> score_shown(shown[k], table[all[k] as int], current)
}

/// The scores of a pair are listed from the newest to the oldest.
pub proof fn law_newest_scores_come_first(
    table: Seq<AiPairScoreRecord>,
    pair: (i64, i64),
    model: Seq<char>,
    n: int,
    j: int,
    k: int,
)
    requires
        0 <= n <= table.len(),
        table.len() <= usize::MAX,
        0 <= j <= k < scores_of_pair(table, pair, model, n).len(),
    ensures
        ({
            let list = scores_of_pair(table, pair, model, n);
            &&& list[j] < n && is_of_pair(table[list[j] as int], pair, model)
            &&& table[list[j] as int].created_unix_ms >= table[list[k] as int].created_unix_ms
        }),
    decreases n,
{
    if n > 0 {
        let rest = scores_of_pair(table, pair, model, n - 1);
        let i = (n - 1) as usize;
        if is_of_pair(table[n - 1], pair, model) {
            lemma_newer_before(table, rest, i);
            let at = newer_before(table, rest, i);
            assert forall|a: int, b: int|
                #![trigger rest[a], rest[b]]
                0 <= a <= b < rest.len() implies rest[a] < n - 1 && is_of_pair(
                table[rest[a] as int],
                pair,
                model,
            ) && table[rest[a] as int].created_unix_ms >= table[rest[b] as int].created_unix_ms by {
                law_newest_scores_come_first(table, pair, model, n - 1, a, b);
            }
            lemma_newer_around(table, rest, i);
            let list = rest.insert(at, i);
            assert(scores_of_pair(table, pair, model, n) == list);
            if j < at {
                assert(list[j] == rest[j]);
                if k < at {
                    assert(list[k] == rest[k]);
                } else if k == at {
                    assert(rest[at - 1] == rest[at - 1]);
                    assert(rest[j] == rest[j]);
                } else {
                    assert(list[k] == rest[k - 1]);
                }
            } else if j == at {
                if k > at {
                    assert(list[k] == rest[k - 1]);
                }
            } else {
                assert(list[j] == rest[j - 1]);
                assert(list[k] == rest[k - 1]);
            }
        } else {
            law_newest_scores_come_first(table, pair, model, n - 1, j, k);
        }
    }
}

/// What stands before the place of a score is no older, what stands behind it is older.
proof fn lemma_newer_around(table: Seq<AiPairScoreRecord>, list: Seq<usize>, i: usize)
    requires
        forall|a: int, b: int|
            #![trigger list[a], list[b]]
            0 <= a <= b < list.len() ==> table[list[a] as int].created_unix_ms
                >= table[list[b] as int].created_unix_ms,
    ensures
        ({
            let at = newer_before(table, list, i);
            &&& forall|k: int|
                0 <= k < at ==> table[(#[trigger] list[k]) as int].created_unix_ms
                    >= table[i as int].created_unix_ms
            &&& forall|k: int|
                at <= k < list.len() ==> table[(#[trigger] list[k]) as int].created_unix_ms
                    < table[i as int].created_unix_ms
        }),
    decreases list.len(),
{
    if list.len() > 0 {
        let last = list.len() - 1;
        if table[list[last] as int].created_unix_ms >= table[i as int].created_unix_ms {
            assert forall|k: int| 0 <= k < list.len() implies table[(
            #[trigger] list[k]) as int].created_unix_ms >= table[i as int].created_unix_ms by {
                assert(table[list[k] as int].created_unix_ms
                    >= table[list[last] as int].created_unix_ms);
            }
        } else {
            let rest = list.drop_last();
            assert forall|a: int, b: int|
                #![trigger rest[a], rest[b]]
                0 <= a <= b < rest.len() implies table[rest[a] as int].created_unix_ms
                >= table[rest[b] as int].created_unix_ms by {
                assert(rest[a] == list[a] && rest[b] == list[b]);
            }
            lemma_newer_around(table, rest, i);
            lemma_newer_before(table, rest, i);
            let at = newer_before(table, rest, i);
            assert forall|k: int| 0 <= k < at implies table[(
            #[trigger] list[k]) as int].created_unix_ms >= table[i as int].created_unix_ms by {
                assert(rest[k] == list[k]);
            }
            assert forall|k: int| at <= k < list.len() implies table[(
            #[trigger] list[k]) as int].created_unix_ms < table[i as int].created_unix_ms by {
                if k < last {
                    assert(rest[k] == list[k]);
                }
            }
        }
    }
}

/// The positions of the embeddings of a video under a model among the first `n`, by frame.
pub open spec fn frames_of(
    table: Seq<FrameEmbeddingRecord>,
    video_id: i64,
    model: Seq<char>,
    n: int,
) -> Seq<usize>
    decreases n,
{
    if n <= 0 {
        Seq::empty()
    } else {
        let rest = frames_of(table, video_id, model, n - 1);
        if findings::is_frame_of(table[n - 1], video_id, model) {
            rest.insert(frames_before(table, rest, (n - 1) as usize), (n - 1) as usize)
        } else {
            rest
        }
    }
}

/// The position at which an embedding comes in among others, by frame.
pub open spec fn frames_before(table: Seq<FrameEmbeddingRecord>, list: Seq<usize>, i: usize) -> int
    decreases list.len(),
{
    if list.len() == 0 {
        0
    } else if table[list.last() as int].frame_index <= table[i as int].frame_index {
        list.len() as int
    } else {
        frames_before(table, list.drop_last(), i)
    }
}

/// The messages on what is missing for a comparison to start.
pub open spec fn missing_parts(enabled: bool, left: bool, right: bool, model: bool) -> Seq<
    Seq<char>,
> {
    let first = if enabled {
        Seq::empty()
    } else {
        seq!["AI vision matching is disabled in settings."@]
    };
    let second = if left {
        first
    } else {
        first.push("Left video was not found in the normal index."@)
    };
    let third = if right {
        second
    } else {
        second.push("Right video was not found in the normal index."@)
    };
    if model {
        third
    } else {
        third.push("No embedding model record matches the configured model path."@)
    }
}

/// The messages on videos without embeddings.
pub open spec fn missing_frames(left: int, right: int) -> Seq<Seq<char>> {
    let first = if left > 0 {
        Seq::empty()
    } else {
        seq!["Left video has no AI frame embeddings for the current model."@]
    };
    if right > 0 {
        first
    } else {
        first.push("Right video has no AI frame embeddings for the current model."@)
    }
}

/// What the comparison of the frames of a pair needs: the positions of the videos and of their
/// embeddings.
#[derive(Debug, Clone)]
pub struct DebugPair {
    pub left: usize,
    pub right: usize,
    pub left_frames: Vec<usize>,
    pub right_frames: Vec<usize>,
}

/// The embeddings of a video that may be missing.
pub open spec fn frames_of_found(
    index: VideoIndex,
    place: Option<usize>,
    model: Seq<char>,
) -> Seq<usize> {
    match video_at(index.videos@, place) {
        Some(video) => frames_of(
            index.frame_embeddings@,
            video.id->0,
            model,
            index.frame_embeddings@.len() as int,
        ),
        None => Seq::empty(),
    }
}

/// The embeddings of the right video of a pair: none where it is the left one.
pub open spec fn right_frames_of(
    index: VideoIndex,
    left: Option<usize>,
    right: Option<usize>,
    model: Seq<char>,
) -> Seq<usize> {
    if left is Some && left == right {
        Seq::empty()
    } else {
        frames_of_found(index, right, model)
    }
}

/// The first score that is in use.
pub open spec fn current_score(list: Seq<AiPairDebugCachedScore>) -> Option<AiPairDebugCachedScore>
    decreases list.len(),
{
    if list.len() == 0 {
        None
    } else if list[0].is_current_cache_key {
        Some(list[0])
    } else {
        current_score(list.drop_first())
    }
}

/// Whether two recorded scores tell the same.
pub open spec fn same_score(a: AiPairDebugCachedScore, b: AiPairDebugCachedScore) -> bool {
    &&& a.cache_key@ == b.cache_key@
    &&& a.confidence == b.confidence
    &&& a.matched == b.matched
    &&& a.compared == b.compared
    &&& a.average_similarity == b.average_similarity
    &&& a.coverage == b.coverage
    &&& a.created_unix_ms == b.created_unix_ms
    &&& a.is_current_cache_key == b.is_current_cache_key
}

fn find_current(list: &Vec<AiPairDebugCachedScore>) -> (r: Option<AiPairDebugCachedScore>)
    ensures
        r is Some == current_score(list@) is Some,
        r matches Some(score) ==> same_score(score, current_score(list@)->0),
{
    let mut i: usize = 0;
    assert(list@.skip(0) =~= list@);
    while i < list.len()
        invariant
            i <= list@.len(),
            current_score(list@) == current_score(list@.skip(i as int)),
        decreases list@.len() - i,
    {
        assert(list@.skip(i as int).drop_first() =~= list@.skip(i + 1));
        assert(list@.skip(i as int)[0] == list@[i as int]);
        if list[i].is_current_cache_key {
            return Some(
                AiPairDebugCachedScore {
                    cache_key: list[i].cache_key.clone(),
                    confidence: list[i].confidence,
                    matched: list[i].matched,
                    compared: list[i].compared,
                    average_similarity: list[i].average_similarity,
                    coverage: list[i].coverage,
                    created_unix_ms: list[i].created_unix_ms,
                    is_current_cache_key: true,
                },
            );
        }
        i += 1;
    }
    None
}

/// The settings that a comparison rests on.
pub open spec fn settings_shown(shown: AiPairDebugSettings, settings: AppSettings) -> bool {
    &&& shown.ai_vision_enabled == settings.ai_vision_enabled
    &&& shown.ai_similarity_threshold == settings.ai_similarity_threshold
    &&& shown.ai_min_matched_frames == settings.ai_min_matched_frames
    &&& shown.ai_frame_count == settings.ai_frame_count
    &&& shown.ai_clip_matching_enabled == settings.ai_clip_matching_enabled
    &&& shown.ai_match_worker_count == settings.ai_match_worker_count
}

impl VideoIndex {
    /// The newest scores of a pair under a model, twenty at most.
    pub fn list_pair_scores_for_debug(
        &self,
        model_id: &str,
        current_cache_key: &Option<String>,
        left_id: i64,
        right_id: i64,
    ) -> (r: Vec<AiPairDebugCachedScore>)
        ensures
            newest_shown(
                r@,
                self.pair_scores@,
                ai_groups::pair_key(left_id, right_id),
                model_id@,
                models::opt_text(*current_cache_key),
            ),
    {
        let pair = edge_key(left_id, right_id);
        let ghost table = self.pair_scores@;
        let total: usize = self.pair_scores.len();
        let mut all: Vec<usize> = Vec::new();
        let mut i: usize = 0;
        while i < total
            invariant
                total == self.pair_scores@.len(),
                i <= total,
                table == self.pair_scores@,
                all@ == scores_of_pair(table, pair, model_id@, i as int),
                forall|k: int| 0 <= k < all@.len() ==> (#[trigger] all@[k]) < i,
            decreases total - i,
        {
            let score = &self.pair_scores[i];
            if score.video_a_id == pair.0 && score.video_b_id == pair.1 && same_text(
                score.model_id.as_str(),
                model_id,
            ) {
                let mut at: usize = all.len();
                assert(all@.take(at as int) =~= all@);
                while at > 0 && self.pair_scores[all[at - 1]].created_unix_ms
                    < self.pair_scores[i].created_unix_ms
                    invariant
                        at <= all@.len(),
                        i < self.pair_scores@.len(),
                        table == self.pair_scores@,
                        forall|k: int| 0 <= k < all@.len() ==> (#[trigger] all@[k]) < i,
                        newer_before(table, all@, i) == newer_before(
                            table,
                            all@.take(at as int),
                            i,
                        ),
                    decreases at,
                {
                    assert(all@.take(at as int).drop_last() =~= all@.take(at - 1));
                    assert(all@.take(at as int).last() == all@[at - 1]);
                    at -= 1;
                }
                proof {
                    assert(all@.take(at as int).len() == at);
                    if at > 0 {
                        assert(all@.take(at as int).last() == all@[at - 1]);
                    }
                }
                let ghost before = all@;
                all.insert(at, i);
                assert forall|k: int| 0 <= k < all@.len() implies (#[trigger] all@[k]) < i + 1 by {
                    if k < at {
                        assert(all@[k] == before[k]);
                    } else if k > at {
                        assert(all@[k] == before[k - 1]);
                    }
                }
            }
            i += 1;
        }
        let mut out: Vec<AiPairDebugCachedScore> = Vec::new();
        let mut n: usize = 0;
        while n < all.len() && n < 20
            invariant
                n <= all@.len(),
                n <= 20,
                out@.len() == n,
                table == self.pair_scores@,
                forall|k: int| 0 <= k < all@.len() ==> (#[trigger] all@[k]) < table.len(),
                forall|k: int|
                    #![trigger out@[k]]
                    0 <= k < n ==> score_shown(
                        out@[k],
                        table[all@[k] as int],
                        models::opt_text(*current_cache_key),
                    ),
            decreases all@.len() - n,
        {
            let score = &self.pair_scores[all[n]];
            let is_current = match current_cache_key {
                Some(key) => same_text(key.as_str(), score.cache_key.as_str()),
                None => false,
            };
            out.push(
                AiPairDebugCachedScore {
                    cache_key: score.cache_key.clone(),
                    confidence: score.confidence,
                    matched: score.matched,
                    compared: score.compared,
                    average_similarity: score.average_similarity,
                    coverage: score.coverage,
                    created_unix_ms: score.created_unix_ms,
                    is_current_cache_key: is_current,
                },
            );
            n += 1;
        }
        out
    }

    /// The positions of the embeddings of a video under a model, by frame.
    pub fn list_frames_of(&self, video_id: i64, model_id: &str) -> (r: Vec<usize>)
        ensures
            r@ == frames_of(
                self.frame_embeddings@,
                video_id,
                model_id@,
                self.frame_embeddings@.len() as int,
            ),
            forall|k: int| 0 <= k < r@.len() ==> (#[trigger] r@[k]) < self.frame_embeddings@.len(),
    {
        let ghost table = self.frame_embeddings@;
        let total: usize = self.frame_embeddings.len();
        let mut all: Vec<usize> = Vec::new();
        let mut i: usize = 0;
        while i < total
            invariant
                total == self.frame_embeddings@.len(),
                i <= total,
                table == self.frame_embeddings@,
                all@ == frames_of(table, video_id, model_id@, i as int),
                forall|k: int| 0 <= k < all@.len() ==> (#[trigger] all@[k]) < i,
            decreases total - i,
        {
            let frame = &self.frame_embeddings[i];
            if frame.video_id == video_id && same_text(frame.model_id.as_str(), model_id) {
                let mut at: usize = all.len();
                assert(all@.take(at as int) =~= all@);
                while at > 0 && self.frame_embeddings[all[at - 1]].frame_index
                    > self.frame_embeddings[i].frame_index
                    invariant
                        at <= all@.len(),
                        i < self.frame_embeddings@.len(),
                        table == self.frame_embeddings@,
                        forall|k: int| 0 <= k < all@.len() ==> (#[trigger] all@[k]) < i,
                        frames_before(table, all@, i) == frames_before(
                            table,
                            all@.take(at as int),
                            i,
                        ),
                    decreases at,
                {
                    assert(all@.take(at as int).drop_last() =~= all@.take(at - 1));
                    assert(all@.take(at as int).last() == all@[at - 1]);
                    at -= 1;
                }
                proof {
                    assert(all@.take(at as int).len() == at);
                    if at > 0 {
                        assert(all@.take(at as int).last() == all@[at - 1]);
                    }
                }
                let ghost before = all@;
                all.insert(at, i);
                assert forall|k: int| 0 <= k < all@.len() implies (#[trigger] all@[k]) < i + 1 by {
                    if k < at {
                        assert(all@[k] == before[k]);
                    } else if k > at {
                        assert(all@[k] == before[k - 1]);
                    }
                }
            }
            i += 1;
        }
        all
    }

    /// What is known of a pair of videos before their frames are compared, and what that needs,
    /// where both videos are found with embeddings. The names are the last parts of the paths;
    /// `model_path` is where the model is kept, and `threshold_text` the least similarity of
    /// frames with four digits behind the point.
    pub fn debug_ai_pair(
        &self,
        left_path: &str,
        left_name: &str,
        right_path: &str,
        right_name: &str,
        settings: &AppSettings,
        model_path: &str,
        threshold_text: &str,
    ) -> (r: (AiPairDebugReport, Option<DebugPair>))
        requires
            self.wf(),
        ensures
            exists|order: Seq<usize>|
                #![trigger scans::lists_in_order(self.videos@, order)]
                scans::lists_in_order(self.videos@, order) && (forall|i: int|
                    0 <= i < self.videos@.len() ==> #[trigger] order.contains(i as usize))
                    && is_debug_start(
                    *self,
                    order,
                    left_path@,
                    left_name@,
                    right_path@,
                    right_name@,
                    *settings,
                    model_path@,
                    threshold_text@,
                    r.0,
                    r.1,
                ),
    {
        let order = self.list_videos();
        let left = find_debug_video(&self.videos, &order, left_path, left_name);
        let right = find_debug_video(&self.videos, &order, right_path, right_name);
        let model_id = self.latest_embedding_model_id_for_path(model_path);
        let current_cache_key = match &model_id {
            Some(_) => Some(ai_match_cache_key(settings, threshold_text)),
            None => None,
        };
        let mut diagnosis: Vec<String> = Vec::new();
        if !settings.ai_vision_enabled {
            add_line(&mut diagnosis, "AI vision matching is disabled in settings.".to_owned());
        }
        if left.is_none() {
            add_line(&mut diagnosis, "Left video was not found in the normal index.".to_owned());
        }
        if right.is_none() {
            add_line(&mut diagnosis, "Right video was not found in the normal index.".to_owned());
        }
        if model_id.is_none() {
            add_line(
                &mut diagnosis,
                "No embedding model record matches the configured model path.".to_owned(),
            );
        }
        assert(models::texts(diagnosis@) =~= missing_parts(
            settings.ai_vision_enabled,
            left is Some,
            right is Some,
            model_id is Some,
        ));
        let shown_settings = AiPairDebugSettings {
            ai_vision_enabled: settings.ai_vision_enabled,
            ai_similarity_threshold: settings.ai_similarity_threshold,
            ai_min_matched_frames: settings.ai_min_matched_frames,
            ai_frame_count: settings.ai_frame_count,
            ai_clip_matching_enabled: settings.ai_clip_matching_enabled,
            ai_match_worker_count: settings.ai_match_worker_count,
        };
        let mut left_frames: Vec<usize> = Vec::new();
        let mut right_frames: Vec<usize> = Vec::new();
        let mut cached_scores: Vec<AiPairDebugCachedScore> = Vec::new();
        let mut current: Option<AiPairDebugCachedScore> = None;
        let mut pair: Option<(usize, usize)> = None;
        match &model_id {
            Some(model) => {
                match left {
                    Some(l) => {
                        assert(self.videos@[l as int].id is Some);
                        match self.videos[l].id {
                            Some(id) => {
                                left_frames = self.list_frames_of(id, model.as_str());
                            },
                            None => {},
                        }
                    },
                    None => {},
                }
                match right {
                    Some(g) => {
                        assert(self.videos@[g as int].id is Some);
                        let same = match left {
                            Some(l) => l == g,
                            None => false,
                        };
                        match self.videos[g].id {
                            Some(id) => {
                                if !same {
                                    right_frames = self.list_frames_of(id, model.as_str());
                                }
                            },
                            None => {},
                        }
                    },
                    None => {},
                }
                match (left, right) {
                    (Some(l), Some(g)) => {
                        match (self.videos[l].id, self.videos[g].id) {
                            (Some(left_id), Some(right_id)) => {
                                cached_scores = self.list_pair_scores_for_debug(
                                    model.as_str(),
                                    &current_cache_key,
                                    left_id,
                                    right_id,
                                );
                                current = find_current(&cached_scores);
                            },
                            _ => {},
                        }
                        let ghost said = models::texts(diagnosis@);
                        if left_frames.len() == 0 {
                            add_line(
                                &mut diagnosis,
                                "Left video has no AI frame embeddings for the current model.".to_owned(),
                            );
                        }
                        if right_frames.len() == 0 {
                            add_line(
                                &mut diagnosis,
                                "Right video has no AI frame embeddings for the current model.".to_owned(),
                            );
                        }
                        assert(models::texts(diagnosis@) =~= said + missing_frames(
                            left_frames@.len() as int,
                            right_frames@.len() as int,
                        ));
                        if left_frames.len() > 0 && right_frames.len() > 0 {
                            pair = Some((l, g));
                        }
                    },
                    _ => {},
                }
            },
            None => {},
        }
        let report = AiPairDebugReport {
            left: debug_video(left_path, &self.videos, left, left_frames.len()),
            right: debug_video(right_path, &self.videos, right, right_frames.len()),
            settings: shown_settings,
            model_id,
            current_cache_key,
            current_cached_score: current,
            cached_scores,
            embedding_summary: None,
            threshold_scores: Vec::new(),
            diagnosis,
        };
        let needed = match pair {
            Some((l, g)) => Some(DebugPair { left: l, right: g, left_frames, right_frames }),
            None => None,
        };
        assert(is_debug_start(
            *self,
            order@,
            left_path@,
            left_name@,
            right_path@,
            right_name@,
            *settings,
            model_path@,
            threshold_text@,
            report,
            needed,
        ));
        (report, needed)
    }
}

/// Whether a report tells all that is known of a pair before its frames are compared.
pub open spec fn is_debug_start(
    index: VideoIndex,
    order: Seq<usize>,
    left_path: Seq<char>,
    left_name: Seq<char>,
    right_path: Seq<char>,
    right_name: Seq<char>,
    settings: AppSettings,
    model_path: Seq<char>,
    threshold_text: Seq<char>,
    report: AiPairDebugReport,
    pair: Option<DebugPair>,
) -> bool {
    let left = stands_for(index.videos@, order, left_path, left_name);
    let right = stands_for(index.videos@, order, right_path, right_name);
    let known = report.model_id is Some;
    let model = report.model_id->0@;
    let key = if known {
        Some(ai_index::cache_key_text(settings, threshold_text))
    } else {
        None
    };
    let left_frames = if known {
        frames_of_found(index, left, model)
    } else {
        Seq::empty()
    };
    let right_frames = if known {
        right_frames_of(index, left, right, model)
    } else {
        Seq::empty()
    };
    let both = known && left is Some && right is Some;
    let first = missing_parts(settings.ai_vision_enabled, left is Some, right is Some, known);
    &&& match report.model_id {
        Some(id) => exists|i: int|
            #[trigger] upkeep::is_latest(index.models@, model_path, i)
                && index.models@[i].model_id@ == id@,
        None => forall|k: int|
            #![trigger index.models@[k]]
            0 <= k < index.models@.len() ==> index.models@[k].model_path@ != model_path,
    }
    &&& settings_shown(report.settings, settings)
    &&& models::opt_text(report.current_cache_key) == key
    &&& shows(report.left, left_path, video_at(index.videos@, left), left_frames.len() as int)
    &&& shows(report.right, right_path, video_at(index.videos@, right), right_frames.len() as int)
    &&& report.embedding_summary is None
    &&& report.threshold_scores@.len() == 0
    &&& both ==> newest_shown(
        report.cached_scores@,
        index.pair_scores@,
        ai_groups::pair_key(
            index.videos@[left->0 as int].id->0,
            index.videos@[right->0 as int].id->0,
        ),
        model,
        key,
    )
    &&& !both ==> report.cached_scores@.len() == 0
    &&& report.current_cached_score is Some == current_score(report.cached_scores@) is Some
    &&& report.current_cached_score matches Some(score) ==> same_score(
        score,
        current_score(report.cached_scores@)->0,
    )
    &&& models::texts(report.diagnosis@) == (if both {
        first + missing_frames(left_frames.len() as int, right_frames.len() as int)
    } else {
        first
    })
    &&& pair is Some == (both && left_frames.len() > 0 && right_frames.len() > 0)
    &&& pair matches Some(p) ==> {
        &&& Some(p.left) == left
        &&& Some(p.right) == right
        &&& p.left_frames@ == left_frames
        &&& p.right_frames@ == right_frames
    }
}

/// Whether the left one of two videos is taken as the shorter one.
pub fn is_left_shorter(left: &VideoRecord, right: &VideoRecord) -> (r: bool)
    ensures
        r == length_or_zero(left.duration_seconds).le(length_or_zero(right.duration_seconds)),
{
    let l = match left.duration_seconds {
        Some(seconds) => seconds,
        None => Double { bits: 0 },
    };
    let g = match right.duration_seconds {
        Some(seconds) => seconds,
        None => Double { bits: 0 },
    };
    l.at_most(g)
}

/// A length, or zero where it is not known.
pub open spec fn length_or_zero(length: Option<Double>) -> Double {
    match length {
        Some(seconds) => seconds,
        None => (Double { bits: 0 }),
    }
}

/// The least number of frames that have to match.
pub open spec fn least_frames(settings: AppSettings) -> int {
    matching::within(settings.ai_min_matched_frames as int, 1, 128)
}

fn least_frame_count(settings: &AppSettings) -> (r: usize)
    ensures
        r == least_frames(*settings),
{
    if settings.ai_min_matched_frames < 1 {
        1
    } else if settings.ai_min_matched_frames > 128 {
        128
    } else {
        settings.ai_min_matched_frames
    }
}

/// The score of a pair under some least similarity of frames.
pub fn threshold_score(settings: &AppSettings, threshold: Double, edge: &AiEdge) -> (r:
    AiPairDebugThresholdScore)
    ensures
        r.frame_similarity_threshold == threshold,
        r.confidence == edge.confidence,
        r.matched == edge.matched,
        r.compared == edge.compared,
        r.average_similarity == edge.average_similarity,
        r.coverage == edge.coverage,
        r.passes_min_matched_frames == (edge.matched >= least_frames(*settings)),
{
    AiPairDebugThresholdScore {
        frame_similarity_threshold: threshold,
        confidence: edge.confidence,
        matched: edge.matched,
        compared: edge.compared,
        average_similarity: edge.average_similarity,
        coverage: edge.coverage,
        passes_min_matched_frames: edge.matched >= least_frame_count(settings),
    }
}

/// The messages on how the frames of a pair compare.
pub open spec fn frame_messages(
    below: bool,
    best_text: Seq<char>,
    threshold_text: Seq<char>,
    scores: Seq<AiPairDebugThresholdScore>,
    settings: AppSettings,
    is_cached: bool,
) -> Seq<Seq<char>> {
    let first = if below {
        seq![
            "The best individual frame cosine ("@ + best_text
                + ") is below the current frame-level threshold ("@ + threshold_text
                + "). Lowering the result filter cannot fix that."@,
        ]
    } else {
        Seq::empty()
    };
    let second = if scores.len() > 0 && scores[0].matched < least_frames(settings) {
        first.push(
            "At the current frame-level threshold, only "@ + text::decimal(
                scores[0].matched as nat,
            ) + " frames match; the configured minimum is "@ + text::decimal(
                least_frames(settings) as nat,
            ) + "."@,
        )
    } else {
        first
    };
    let third = if is_cached {
        second
    } else {
        second.push(
            "No pair-score row exists for the current cache key yet; a manual refresh still needs to compute or write it."@,
        )
    };
    third.push(
        "The result-page minimum similarity filter only filters final group confidence; it does not lower the AI frame-level matching threshold used to create pair scores."@,
    )
}

/// Adds to a report how the frames of a pair compare. The texts are the best similarity and the
/// least one, with four digits behind the point; `scores` are by the least similarity, the
/// largest first.
pub fn conclude_debug(
    report: &mut AiPairDebugReport,
    settings: &AppSettings,
    summary: AiPairDebugEmbeddingSummary,
    threshold: Double,
    best_text: &str,
    threshold_text: &str,
    scores: Vec<AiPairDebugThresholdScore>,
)
    ensures
        final(report).left == old(report).left,
        final(report).right == old(report).right,
        final(report).settings == old(report).settings,
        final(report).model_id == old(report).model_id,
        final(report).current_cache_key == old(report).current_cache_key,
        final(report).current_cached_score == old(report).current_cached_score,
        final(report).cached_scores == old(report).cached_scores,
        final(report).embedding_summary == Some(summary),
        final(report).threshold_scores == scores,
        models::texts(final(report).diagnosis@) == models::texts(old(report).diagnosis@)
            + frame_messages(
            summary.max_frame_similarity.lt(threshold),
            best_text@,
            threshold_text@,
            scores@,
            *settings,
            old(report).current_cached_score is Some,
        ),
{
    let ghost said = models::texts(report.diagnosis@);
    if summary.max_frame_similarity.less(threshold) {
        add_line(
            &mut report.diagnosis,
            cat5(
                "The best individual frame cosine (",
                best_text,
                ") is below the current frame-level threshold (",
                threshold_text,
                "). Lowering the result filter cannot fix that.",
            ),
        );
    }
    let least: usize = least_frame_count(settings);
    if scores.len() > 0 && scores[0].matched < least {
        add_line(
            &mut report.diagnosis,
            cat5(
                "At the current frame-level threshold, only ",
                decimal_text(scores[0].matched as u64).as_str(),
                " frames match; the configured minimum is ",
                decimal_text(least as u64).as_str(),
                ".",
            ),
        );
    }
    if report.current_cached_score.is_none() {
        add_line(
            &mut report.diagnosis,
            "No pair-score row exists for the current cache key yet; a manual refresh still needs to compute or write it.".to_owned(),
        );
    }
    add_line(
        &mut report.diagnosis,
        "The result-page minimum similarity filter only filters final group confidence; it does not lower the AI frame-level matching threshold used to create pair scores.".to_owned(),
    );
    assert(models::texts(report.diagnosis@) =~= said + frame_messages(
        summary.max_frame_similarity.lt(threshold),
        best_text@,
        threshold_text@,
        scores@,
        *settings,
        old(report).current_cached_score is Some,
    ));
    report.embedding_summary = Some(summary);
    report.threshold_scores = scores;
}

} // verus!
