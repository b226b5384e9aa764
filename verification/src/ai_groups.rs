//! Groups of videos that look alike: pairs that were compared, and the groups in which every two
//! videos look alike.
use crate::double::Double;
use crate::findings;
use crate::findings::sorted_unique;
use crate::index::VideoIndex;
use crate::merging;
use crate::merging::find_place;
use crate::models::{AiPairScoreRecord, MatchRange, MatchRefreshProgress, VideoRecord};
use crate::paths;
use crate::rows;
use crate::rows::has_id;
use vstd::prelude::*;
use vstd::string::*;

verus! {

/// A stretch of one video of a compared pair.
#[derive(Debug, Clone)]
pub struct AiEdgeMatchRange {
    pub video_id: i64,
    pub range: MatchRange,
}

/// The comparison of two videos.
#[derive(Debug, Clone)]
pub struct AiEdge {
    pub a: i64,
    pub b: i64,
    pub confidence: Double,
    pub matched: usize,
    pub compared: usize,
    pub average_similarity: Double,
    pub coverage: Double,
    pub match_ranges: Vec<AiEdgeMatchRange>,
}

/// Two ids, the smaller first.
pub open spec fn pair_key(left: i64, right: i64) -> (i64, i64) {
    if left <= right {
        (left, right)
    } else {
        (right, left)
    }
}

/// Two ids, the smaller first.
pub fn edge_key(left: i64, right: i64) -> (r: (i64, i64))
    ensures
        r == pair_key(left, right),
{
    if left <= right {
        (left, right)
    } else {
        (right, left)
    }
}

/// The comparison that a stored score tells.
pub fn edge_from_pair_score(record: &AiPairScoreRecord) -> (r: AiEdge)
    ensures
        r.a == record.video_a_id,
        r.b == record.video_b_id,
        r.confidence == record.confidence,
        r.matched == record.matched,
        r.compared == record.compared,
        r.average_similarity == record.average_similarity,
        r.coverage == record.coverage,
        r.match_ranges@.len() == 0,
{
    AiEdge {
        a: record.video_a_id,
        b: record.video_b_id,
        confidence: record.confidence,
        matched: record.matched,
        compared: record.compared,
        average_similarity: record.average_similarity,
        coverage: record.coverage,
        match_ranges: Vec::new(),
    }
}

/// Whether a stored score tells a comparison.
pub open spec fn tells(
    record: AiPairScoreRecord,
    edge: AiEdge,
    model: Seq<char>,
    cache_key: Seq<char>,
    created: i64,
) -> bool {
    &&& (record.video_a_id, record.video_b_id) == pair_key(edge.a, edge.b)
    &&& record.model_id@ == model
    &&& record.cache_key@ == cache_key
    &&& record.confidence == edge.confidence
    &&& record.matched == edge.matched
    &&& record.compared == edge.compared
    &&& record.average_similarity == edge.average_similarity
    &&& record.coverage == edge.coverage
    &&& record.created_unix_ms == created
}

/// The score that is stored of a comparison.
pub fn pair_score_from_edge(
    edge: &AiEdge,
    model_id: &str,
    cache_key: &str,
    created_unix_ms: i64,
) -> (r: AiPairScoreRecord)
    ensures
        tells(r, *edge, model_id@, cache_key@, created_unix_ms),
{
    let key = edge_key(edge.a, edge.b);
    AiPairScoreRecord {
        video_a_id: key.0,
        video_b_id: key.1,
        model_id: model_id.to_owned(),
        cache_key: cache_key.to_owned(),
        confidence: edge.confidence,
        matched: edge.matched,
        compared: edge.compared,
        average_similarity: edge.average_similarity,
        coverage: edge.coverage,
        created_unix_ms,
    }
}

/// A comparison that was stored is read back as it was, but for the stretches.
pub proof fn law_stored_comparison_is_read_back(
    record: AiPairScoreRecord,
    edge: AiEdge,
    back: AiEdge,
    model: Seq<char>,
    cache_key: Seq<char>,
    created: i64,
)
    requires
        tells(record, edge, model, cache_key, created),
        tells(record, back, model, cache_key, created),
    ensures
        pair_key(back.a, back.b) == pair_key(edge.a, edge.b),
        back.confidence == edge.confidence,
        back.matched == edge.matched,
        back.compared == edge.compared,
        back.average_similarity == edge.average_similarity,
        back.coverage == edge.coverage,
{
}

/// A number, or the largest one.
pub open spec fn at_most_max(n: int) -> int {
    if n > usize::MAX {
        usize::MAX as int
    } else {
        n
    }
}

/// The product of two numbers, or the largest number.
fn capped_product(a: usize, b: usize) -> (r: usize)
    ensures
        r == at_most_max(a * b),
{
    match a.checked_mul(b) {
        Some(product) => product,
        None => usize::MAX,
    }
}

/// The number of pairs of some items, as far as it can be told.
pub fn pair_count(items: usize) -> (r: usize)
    ensures
        r == at_most_max(
            items * (if items > 0 {
                items - 1
            } else {
                0
            }),
        ) / 2,
{
    let less: usize = if items > 0 {
        items - 1
    } else {
        0
    };
    capped_product(items, less) / 2
}

/// The number of pairs whose first item is one of the first `left`, as far as it can be told.
pub open spec fn pairs_from(total: int, left: int) -> int {
    let all = at_most_max(left * total);
    let done = at_most_max(left * at_most_max(left + 1)) / 2;
    if all > done {
        all - done
    } else {
        0
    }
}

/// The number of pairs whose first item is one of the first few, as far as it can be told.
pub fn pair_count_for_left_count(total: usize, left_count: usize) -> (r: usize)
    ensures
        r == pairs_from(
            total as int,
            if left_count <= total {
                left_count as int
            } else {
                total as int
            },
        ),
{
    let left: usize = if left_count <= total {
        left_count
    } else {
        total
    };
    let all: usize = capped_product(left, total);
    let done: usize = capped_product(left, left.saturating_add(1)) / 2;
    if all > done {
        all - done
    } else {
        0
    }
}

/// Once all items were taken as the first of a pair, all pairs are counted.
pub proof fn law_all_first_items_give_all_pairs(total: int)
    requires
        0 <= total,
        total * (total + 1) <= usize::MAX,
    ensures
        pairs_from(total, total) == total * (total - 1) / 2,
{
    assert(total * (total + 1) == total * total + total) by (nonlinear_arith);
    assert(total * (total - 1) == total * total - total) by (nonlinear_arith);
    assert(total * total >= 0) by (nonlinear_arith);
    assert(total <= total * (total + 1)) by (nonlinear_arith)
        requires
            0 <= total,
    ;
    let half = total / 2;
    if total % 2 == 0 {
        assert(total * (total + 1) == 2 * (half * (total + 1))) by (nonlinear_arith)
            requires
                total == 2 * half,
        ;
        assert(total * (total - 1) == 2 * (half * (total - 1))) by (nonlinear_arith)
            requires
                total == 2 * half,
        ;
    } else {
        assert(total * (total + 1) == 2 * (total * (half + 1))) by (nonlinear_arith)
            requires
                total == 2 * half + 1,
        ;
        assert(total * (total - 1) == 2 * (total * half)) by (nonlinear_arith)
            requires
                total == 2 * half + 1,
        ;
    }
}

/// How far the comparison of videos is.
pub fn match_refresh_progress_with_phase_speed(
    phase: &str,
    total_videos: usize,
    total_pairs: usize,
    processed_pairs: usize,
    cached_pairs: usize,
    computed_pairs: usize,
    groups: usize,
    pairs_per_second: Double,
    phase_processed: usize,
    phase_total: usize,
    phase_pairs_per_second: Double,
) -> (r: MatchRefreshProgress)
    ensures
        r.phase@ == phase@,
        r.total_videos == total_videos,
        r.total_pairs == total_pairs,
        r.processed_pairs == (if processed_pairs <= total_pairs {
            processed_pairs
        } else {
            total_pairs
        }),
        r.cached_pairs == cached_pairs,
        r.computed_pairs == computed_pairs,
        r.groups == groups,
        r.pairs_per_second == pairs_per_second,
        r.phase_processed == (if phase_processed <= phase_total {
            phase_processed
        } else {
            phase_total
        }),
        r.phase_total == phase_total,
        r.phase_pairs_per_second == phase_pairs_per_second,
{
    MatchRefreshProgress {
        phase: phase.to_owned(),
        total_videos,
        total_pairs,
        processed_pairs: if processed_pairs <= total_pairs {
            processed_pairs
        } else {
            total_pairs
        },
        cached_pairs,
        computed_pairs,
        groups,
        pairs_per_second,
        phase_processed: if phase_processed <= phase_total {
            phase_processed
        } else {
            phase_total
        },
        phase_total,
        phase_pairs_per_second,
    }
}

/// Whether two videos may be compared: any two, or only two that lie in one folder.
pub open spec fn may_compare(
    videos: Seq<VideoRecord>,
    within_folder: bool,
    left: i64,
    right: i64,
) -> bool {
    !within_folder || (match (merging::place(videos, left), merging::place(videos, right)) {
        (Some(l), Some(r)) => paths::shares_parent(videos[l].path@, videos[r].path@),
        _ => false,
    })
}

/// Whether two videos may be compared.
pub fn is_pair_allowed(
    videos: &Vec<VideoRecord>,
    within_folder: bool,
    left: i64,
    right: i64,
) -> (r: bool)
    ensures
        r == may_compare(videos@, within_folder, left, right),
{
    if !within_folder {
        return true;
    }
    match (find_place(videos, left), find_place(videos, right)) {
        (Some(l), Some(r)) => paths::same_parent_folder(
            videos[l].path.as_str(),
            videos[r].path.as_str(),
        ),
        _ => false,
    }
}

/// Whether two videos may be compared does not depend on their order.
pub proof fn lemma_may_compare_symmetric(
    videos: Seq<VideoRecord>,
    within_folder: bool,
    left: i64,
    right: i64,
)
    ensures
        may_compare(videos, within_folder, left, right) == may_compare(
            videos,
            within_folder,
            right,
            left,
        ),
{
}

/// Whether a pair of ids is to be compared: both are in the list, in its order, the two may be
/// compared, and the pair is none of those given.
pub open spec fn is_open_pair(
    videos: Seq<VideoRecord>,
    within_folder: bool,
    ids: Seq<i64>,
    known: Seq<(i64, i64)>,
    pair: (i64, i64),
) -> bool {
    &&& exists|i: int, j: int|
        #![trigger ids[i], ids[j]]
        0 <= i < j < ids.len() && pair == (ids[i], ids[j])
    &&& may_compare(videos, within_folder, pair.0, pair.1)
    &&& !known.contains(pair_key(pair.0, pair.1))
}

/// Whether one pair comes before another.
pub open spec fn pair_less(a: (i64, i64), b: (i64, i64)) -> bool {
    a.0 < b.0 || (a.0 == b.0 && a.1 < b.1)
}

/// Whether a pair is in a list.
fn has_pair(list: &Vec<(i64, i64)>, pair: (i64, i64)) -> (r: bool)
    ensures
        r == list@.contains(pair),
{
    let mut i: usize = 0;
    while i < list.len()
        invariant
            i <= list@.len(),
            forall|k: int| 0 <= k < i ==> #[trigger] list@[k] != pair,
        decreases list@.len() - i,
    {
        if list[i].0 == pair.0 && list[i].1 == pair.1 {
            assert(list@[i as int] == pair);
            return true;
        }
        i += 1;
    }
    false
}

/// The pairs that are to be compared, in order. `ids` are in ascending order; `known` are the
/// pairs whose comparison is stored.
pub fn missing_pairs(
    videos: &Vec<VideoRecord>,
    within_folder: bool,
    ids: &Vec<i64>,
    known: &Vec<(i64, i64)>,
) -> (r: Vec<(i64, i64)>)
    requires
        forall|i: int, j: int|
            #![trigger ids@[i], ids@[j]]
            0 <= i < j < ids@.len() ==> ids@[i] < ids@[j],
    ensures
        forall|pair: (i64, i64)| #[trigger]
            r@.contains(pair) <==> is_open_pair(videos@, within_folder, ids@, known@, pair),
        forall|a: int, b: int|
            #![trigger r@[a], r@[b]]
            0 <= a < b < r@.len() ==> pair_less(r@[a], r@[b]),
{
    let mut out: Vec<(i64, i64)> = Vec::new();
    let mut i: usize = 0;
    while i < ids.len()
        invariant
            i <= ids@.len(),
            forall|x: int, y: int|
                #![trigger ids@[x], ids@[y]]
                0 <= x < y < ids@.len() ==> ids@[x] < ids@[y],
            forall|k: int|
                0 <= k < out@.len() ==> is_open_pair(
                    videos@,
                    within_folder,
                    ids@,
                    known@,
                    #[trigger] out@[k],
                ),
            forall|k: int| 0 <= k < out@.len() && i < ids@.len() ==> (#[trigger] out@[k]).0 < ids@[i as int],
            forall|x: int, y: int|
                #![trigger ids@[x], ids@[y]]
                0 <= x < i && x < y < ids@.len() && is_open_pair(
                    videos@,
                    within_folder,
                    ids@,
                    known@,
                    (ids@[x], ids@[y]),
                ) ==> out@.contains((ids@[x], ids@[y])),
            forall|a: int, b: int|
                #![trigger out@[a], out@[b]]
                0 <= a < b < out@.len() ==> pair_less(out@[a], out@[b]),
        decreases ids@.len() - i,
    {
        let left: i64 = ids[i];
        let mut j: usize = i + 1;
        while j < ids.len()
            invariant
                i < j <= ids@.len(),
                left == ids@[i as int],
                forall|x: int, y: int|
                    #![trigger ids@[x], ids@[y]]
                    0 <= x < y < ids@.len() ==> ids@[x] < ids@[y],
                forall|k: int|
                    0 <= k < out@.len() ==> is_open_pair(
                        videos@,
                        within_folder,
                        ids@,
                        known@,
                        #[trigger] out@[k],
                    ),
                forall|k: int|
                    0 <= k < out@.len() ==> (#[trigger] out@[k]).0 < left || (out@[k].0 == left && (j
                        < ids@.len() ==> out@[k].1 < ids@[j as int])),
                forall|x: int, y: int|
                    #![trigger ids@[x], ids@[y]]
                    0 <= x < i && x < y < ids@.len() && is_open_pair(
                        videos@,
                        within_folder,
                        ids@,
                        known@,
                        (ids@[x], ids@[y]),
                    ) ==> out@.contains((ids@[x], ids@[y])),
                forall|y: int|
                    i < y < j && is_open_pair(
                        videos@,
                        within_folder,
                        ids@,
                        known@,
                        (left, #[trigger] ids@[y]),
                    ) ==> out@.contains((left, ids@[y])),
                forall|a: int, b: int|
                    #![trigger out@[a], out@[b]]
                    0 <= a < b < out@.len() ==> pair_less(out@[a], out@[b]),
            decreases ids@.len() - j,
        {
            let right: i64 = ids[j];
            let key = edge_key(left, right);
            let ghost before = out@;
            if is_pair_allowed(videos, within_folder, left, right) && !has_pair(known, key) {
                assert(ids@[i as int] == left && ids@[j as int] == right);
                out.push((left, right));
                proof {
                    assert(out@[before.len() as int] == (left, right));
                    assert forall|p: (i64, i64)| before.contains(p) implies #[trigger] out@.contains(
                        p,
                    ) by {
                        let k = choose|k: int| 0 <= k < before.len() && before[k] == p;
                        assert(out@[k] == p);
                    }
                    assert forall|a: int, b: int|
                        #![trigger out@[a], out@[b]]
                        0 <= a < b < out@.len() implies pair_less(out@[a], out@[b]) by {
                        if b == before.len() {
                            assert(out@[a] == before[a]);
                        }
                    }
                }
            }
            j += 1;
        }
        assert forall|k: int| 0 <= k < out@.len() && i + 1 < ids@.len() implies (
        #[trigger] out@[k]).0 < ids@[i + 1] by {
            assert(ids@[i as int] < ids@[i + 1]);
        }
        i += 1;
    }
    proof {
        assert forall|pair: (i64, i64)| #[trigger] out@.contains(pair) <==> is_open_pair(
            videos@,
            within_folder,
            ids@,
            known@,
            pair,
        ) by {
            if out@.contains(pair) {
                let k = choose|k: int| 0 <= k < out@.len() && out@[k] == pair;
                assert(is_open_pair(videos@, within_folder, ids@, known@, out@[k]));
            }
            if is_open_pair(videos@, within_folder, ids@, known@, pair) {
                let (x, y) = choose|x: int, y: int|
                    #![trigger ids@[x], ids@[y]]
                    0 <= x < y < ids@.len() && pair == (ids@[x], ids@[y]);
                assert(out@.contains((ids@[x], ids@[y])));
            }
        }
    }
    out
}

/// Whether a number is that of the pairs of a list that may be compared; without a limit to
/// folders it is counted as far as the machine can.
pub open spec fn counts_pairs(
    videos: Seq<VideoRecord>,
    within_folder: bool,
    ids: Seq<i64>,
    total: int,
) -> bool {
    if within_folder {
        exists|pairs: Seq<(i64, i64)>|
            #![trigger pairs.len()]
            total == pairs.len() && pairs.no_duplicates() && (forall|pair: (i64, i64)| #[trigger]
                pairs.contains(pair) <==> is_open_pair(videos, true, ids, Seq::empty(), pair))
    } else {
        total == at_most_max(
            ids.len() * (if ids.len() > 0 {
                ids.len() - 1
            } else {
                0
            }),
        ) / 2
    }
}

/// The number of pairs of a list that may be compared.
pub fn total_pairs(videos: &Vec<VideoRecord>, within_folder: bool, ids: &Vec<i64>) -> (r: usize)
    requires
        forall|i: int, j: int|
            #![trigger ids@[i], ids@[j]]
            0 <= i < j < ids@.len() ==> ids@[i] < ids@[j],
    ensures
        counts_pairs(videos@, within_folder, ids@, r as int),
{
    if within_folder {
        let none: Vec<(i64, i64)> = Vec::new();
        let pairs = missing_pairs(videos, true, ids, &none);
        assert(none@ =~= Seq::empty());
        assert(pairs@.no_duplicates()) by {
            assert forall|i: int, j: int| 0 <= i < pairs@.len() && 0 <= j < pairs@.len() && i
                != j implies pairs@[i] != pairs@[j] by {
                if i < j {
                    assert(pair_less(pairs@[i], pairs@[j]));
                } else {
                    assert(pair_less(pairs@[j], pairs@[i]));
                }
            }
        }
        assert(pairs@.len() == pairs.len());
        pairs.len()
    } else {
        pair_count(ids.len())
    }
}

/// What the stored scores give to a comparison: the pairs that need not be compared again, and
/// the comparisons that are good enough.
#[derive(Debug, Clone)]
pub struct CachedPairs {
    pub known: Vec<(i64, i64)>,
    pub edges: Vec<AiEdge>,
}

/// The stored scores, among the first `n` of those listed, of pairs that may be compared.
pub open spec fn usable_scores(
    videos: Seq<VideoRecord>,
    within_folder: bool,
    scores: Seq<AiPairScoreRecord>,
    listed: Seq<usize>,
    n: int,
) -> Seq<AiPairScoreRecord>
    decreases n,
{
    if n <= 0 {
        Seq::empty()
    } else {
        let rest = usable_scores(videos, within_folder, scores, listed, n - 1);
        let score = scores[listed[n - 1] as int];
        if may_compare(videos, within_folder, score.video_a_id, score.video_b_id) {
            rest.push(score)
        } else {
            rest
        }
    }
}

/// The pairs of some scores.
pub open spec fn known_pairs(scores: Seq<AiPairScoreRecord>) -> Seq<(i64, i64)> {
    Seq::new(scores.len(), |k: int| pair_key(scores[k].video_a_id, scores[k].video_b_id))
}

/// Whether a comparison is good enough.
pub open spec fn good_enough(min_confidence: Double) -> spec_fn(AiPairScoreRecord) -> bool {
    |s: AiPairScoreRecord| min_confidence.le(s.confidence)
}

/// Whether edges are those of scores, in order.
pub open spec fn edges_of(edges: Seq<AiEdge>, scores: Seq<AiPairScoreRecord>) -> bool {
    &&& edges.len() == scores.len()
    &&& forall|k: int|
        #![trigger edges[k]]
        0 <= k < edges.len() ==> edges[k].a == scores[k].video_a_id && edges[k].b
            == scores[k].video_b_id && edges[k].confidence == scores[k].confidence
            && edges[k].matched == scores[k].matched && edges[k].compared == scores[k].compared
            && edges[k].average_similarity == scores[k].average_similarity && edges[k].coverage
            == scores[k].coverage
}

impl VideoIndex {
    /// What the stored scores at some positions give to a comparison. Scores of pairs that may not
    /// be compared now are left alone.
    pub fn cached_pairs(
        &self,
        videos: &Vec<VideoRecord>,
        within_folder: bool,
        listed: &Vec<usize>,
        min_confidence: Double,
    ) -> (r: CachedPairs)
        requires
            forall|k: int|
                0 <= k < listed@.len() ==> (#[trigger] listed@[k]) < self.pair_scores@.len(),
        ensures
            ({
                let usable = usable_scores(
                    videos@,
                    within_folder,
                    self.pair_scores@,
                    listed@,
                    listed@.len() as int,
                );
                &&& r.known@ == known_pairs(usable)
                &&& edges_of(r.edges@, rows::having(usable, good_enough(min_confidence)))
            }),
    {
        let mut known: Vec<(i64, i64)> = Vec::new();
        let mut edges: Vec<AiEdge> = Vec::new();
        let ghost good = good_enough(min_confidence);
        let mut i: usize = 0;
        assert(known@ =~= known_pairs(Seq::empty()));
        while i < listed.len()
            invariant
                i <= listed@.len(),
                forall|k: int|
                    0 <= k < listed@.len() ==> (#[trigger] listed@[k]) < self.pair_scores@.len(),
                good == good_enough(min_confidence),
                known@ == known_pairs(
                    usable_scores(
                        videos@,
                        within_folder,
                        self.pair_scores@,
                        listed@,
                        i as int,
                    ),
                ),
                edges_of(
                    edges@,
                    rows::having(
                        usable_scores(
                            videos@,
                            within_folder,
                            self.pair_scores@,
                            listed@,
                            i as int,
                        ),
                        good,
                    ),
                ),
            decreases listed@.len() - i,
        {
            let score = &self.pair_scores[listed[i]];
            let ghost before = usable_scores(
                videos@,
                within_folder,
                self.pair_scores@,
                listed@,
                i as int,
            );
            if is_pair_allowed(videos, within_folder, score.video_a_id, score.video_b_id) {
                known.push(edge_key(score.video_a_id, score.video_b_id));
                assert(known@ =~= known_pairs(before.push(*score)));
                assert(before.push(*score).drop_last() =~= before);
                if min_confidence.at_most(score.confidence) {
                    edges.push(edge_from_pair_score(score));
                }
            }
            i += 1;
        }
        CachedPairs { known, edges }
    }
}

/// Whether one comparison is taken before another when groups are made: it is surer, or as sure
/// with more matching frames, or with fewer frames to compare.
pub open spec fn edge_first(x: AiEdge, y: AiEdge) -> bool {
    x.confidence.total_rank() > y.confidence.total_rank() || (x.confidence.total_rank()
        == y.confidence.total_rank() && (x.matched > y.matched || (x.matched == y.matched
        && x.compared < y.compared)))
}

/// Whether one comparison is taken before another when groups are made.
fn takes_first(x: &AiEdge, y: &AiEdge) -> (r: bool)
    ensures
        r == edge_first(*x, *y),
{
    let a: i64 = x.confidence.total_order();
    let b: i64 = y.confidence.total_order();
    a > b || (a == b && (x.matched > y.matched || (x.matched == y.matched && x.compared
        < y.compared)))
}

/// Whether positions list all comparisons in the order in which they are taken; those that are
/// alike keep their order.
pub open spec fn is_order(edges: Seq<AiEdge>, order: Seq<usize>) -> bool {
    &&& order.len() == edges.len()
    &&& forall|k: int| 0 <= k < order.len() ==> (#[trigger] order[k]) < edges.len()
    &&& forall|i: int| 0 <= i < edges.len() ==> #[trigger] order.contains(i as usize)
    &&& forall|a: int, b: int|
        #![trigger order[a], order[b]]
        0 <= a < b < order.len() ==> edge_first(edges[order[a] as int], edges[order[b] as int])
            || (!edge_first(edges[order[b] as int], edges[order[a] as int]) && order[a] < order[b])
}

/// The positions of all comparisons in the order in which they are taken.
pub fn order_edges(edges: &Vec<AiEdge>) -> (r: Vec<usize>)
    ensures
        is_order(edges@, r@),
{
    let total: usize = edges.len();
    let mut out: Vec<usize> = Vec::new();
    let mut i: usize = 0;
    while i < edges.len()
        invariant
            total == edges@.len(),
            i <= edges@.len(),
            out@.len() == i,
            forall|k: int| 0 <= k < out@.len() ==> (#[trigger] out@[k]) < i,
            forall|x: int| 0 <= x < i ==> #[trigger] out@.contains(x as usize),
            forall|a: int, b: int|
                #![trigger out@[a], out@[b]]
                0 <= a < b < out@.len() ==> edge_first(
                    edges@[out@[a] as int],
                    edges@[out@[b] as int],
                ) || (!edge_first(edges@[out@[b] as int], edges@[out@[a] as int]) && out@[a]
                    < out@[b]),
        decreases edges@.len() - i,
    {
        let ghost before = out@;
        let mut j: usize = out.len();
        while j > 0 && takes_first(&edges[i], &edges[out[j - 1]])
            invariant
                j <= out@.len(),
                i < edges@.len(),
                out@ == before,
                forall|k: int| 0 <= k < out@.len() ==> (#[trigger] out@[k]) < i,
                forall|k: int|
                    j <= k < out@.len() ==> edge_first(
                        edges@[i as int],
                        edges@[(#[trigger] out@[k]) as int],
                    ),
            decreases j,
        {
            j -= 1;
        }
        out.insert(j, i);
        proof {
            assert forall|k: int| 0 <= k < out@.len() implies #[trigger] out@[k] == (if k < j {
                before[k]
            } else if k == j {
                i
            } else {
                before[k - 1]
            }) by {}
            assert forall|x: int| 0 <= x < i + 1 implies #[trigger] out@.contains(x as usize) by {
                if x == i {
                    assert(out@[j as int] == i);
                } else {
                    assert(before.contains(x as usize));
                    let k = choose|k: int| 0 <= k < before.len() && before[k] == x as usize;
                    if k < j {
                        assert(out@[k] == x as usize);
                    } else {
                        assert(out@[k + 1] == x as usize);
                    }
                }
            }
            assert forall|a: int, b: int|
                #![trigger out@[a], out@[b]]
                0 <= a < b < out@.len() implies edge_first(
                edges@[out@[a] as int],
                edges@[out@[b] as int],
            ) || (!edge_first(edges@[out@[b] as int], edges@[out@[a] as int]) && out@[a]
                < out@[b]) by {
                if b == j {
                    assert(out@[a] == before[a]);
                    assert(j > 0);
                    assert(!edge_first(edges@[i as int], edges@[before[j - 1] as int]));
                    if a < j - 1 {
                        assert(edge_first(
                            edges@[before[a] as int],
                            edges@[before[j - 1] as int],
                        ) || !edge_first(
                            edges@[before[j - 1] as int],
                            edges@[before[a] as int],
                        ));
                    }
                } else if a == j {
                    assert(out@[b] == before[b - 1]);
                } else {
                    let x = if a < j {
                        a
                    } else {
                        a - 1
                    };
                    let y = if b < j {
                        b
                    } else {
                        b - 1
                    };
                    assert(out@[a] == before[x] && out@[b] == before[y]);
                }
            }
        }
        i += 1;
    }
    out
}

/// Whether a comparison is of two videos.
pub open spec fn links(edge: AiEdge, x: i64, y: i64) -> bool {
    pair_key(edge.a, edge.b) == pair_key(x, y)
}

/// Whether some comparison is of two videos.
pub open spec fn is_linked(edges: Seq<AiEdge>, x: i64, y: i64) -> bool {
    exists|e: int| 0 <= e < edges.len() && links(#[trigger] edges[e], x, y)
}

/// The position of the comparison of two videos: of several, the one that is taken last, among
/// the first `n` of an order.
pub open spec fn link_of(edges: Seq<AiEdge>, order: Seq<usize>, x: i64, y: i64, n: int) -> Option<
    usize,
>
    decreases n,
{
    if n <= 0 {
        None
    } else if links(edges[order[n - 1] as int], x, y) {
        Some(order[n - 1])
    } else {
        link_of(edges, order, x, y, n - 1)
    }
}

proof fn lemma_link_of(edges: Seq<AiEdge>, order: Seq<usize>, x: i64, y: i64, n: int)
    requires
        is_order(edges, order),
        0 <= n <= order.len(),
    ensures
        match link_of(edges, order, x, y, n) {
            Some(e) => e < edges.len() && links(edges[e as int], x, y),
            None => forall|k: int| 0 <= k < n ==> !links(edges[(#[trigger] order[k]) as int], x, y),
        },
        link_of(edges, order, x, y, n) == link_of(edges, order, y, x, n),
    decreases n,
{
    if n > 0 {
        lemma_link_of(edges, order, x, y, n - 1);
    }
}

fn find_link(edges: &Vec<AiEdge>, order: &Vec<usize>, x: i64, y: i64) -> (r: Option<usize>)
    requires
        is_order(edges@, order@),
    ensures
        r == link_of(edges@, order@, x, y, order@.len() as int),
        r matches Some(e) ==> e < edges@.len() && links(edges@[e as int], x, y),
        r is Some == is_linked(edges@, x, y),
{
    let key = edge_key(x, y);
    let mut n: usize = order.len();
    proof {
        lemma_link_of(edges@, order@, x, y, order@.len() as int);
    }
    while n > 0
        invariant
            is_order(edges@, order@),
            key == pair_key(x, y),
            n <= order@.len(),
            link_of(edges@, order@, x, y, order@.len() as int) == link_of(
                edges@,
                order@,
                x,
                y,
                n as int,
            ),
            forall|k: int|
                n <= k < order@.len() ==> !links(edges@[(#[trigger] order@[k]) as int], x, y),
        decreases n,
    {
        let e: usize = order[n - 1];
        let own = edge_key(edges[e].a, edges[e].b);
        if own.0 == key.0 && own.1 == key.1 {
            assert(links(edges@[e as int], x, y));
            return Some(e);
        }
        n -= 1;
    }
    proof {
        if is_linked(edges@, x, y) {
            let e = choose|e: int| 0 <= e < edges@.len() && links(#[trigger] edges@[e], x, y);
            assert(edges@.len() <= usize::MAX) by {
                assert(order@.len() == order.len());
            }
            assert(order@.contains(e as usize));
            let k = choose|k: int| 0 <= k < order@.len() && order@[k] == e as usize;
            assert(!links(edges@[order@[k] as int], x, y));
        }
    }
    None
}

/// Whether the comparison of two videos, if there is one, is sure enough.
pub open spec fn strongly_linked(
    edges: Seq<AiEdge>,
    order: Seq<usize>,
    x: i64,
    y: i64,
    threshold: Double,
) -> bool {
    match link_of(edges, order, x, y, order.len() as int) {
        Some(e) => !edges[e as int].confidence.lt(threshold),
        None => false,
    }
}

/// Whether a video can join a group: it is in none yet, and is strongly linked to every member.
pub open spec fn can_join(
    edges: Seq<AiEdge>,
    order: Seq<usize>,
    members: Seq<i64>,
    taken: Seq<i64>,
    threshold: Double,
    id: i64,
) -> bool {
    &&& !taken.contains(id)
    &&& !members.contains(id)
    &&& forall|k: int|
        0 <= k < members.len() ==> strongly_linked(
            edges,
            order,
            id,
            #[trigger] members[k],
            threshold,
        )
}

/// The positions of the comparisons of a video with each member of a group, or nothing where it
/// cannot join.
fn joining_links(
    edges: &Vec<AiEdge>,
    order: &Vec<usize>,
    members: &Vec<i64>,
    taken: &Vec<i64>,
    threshold: Double,
    id: i64,
) -> (r: Option<Vec<usize>>)
    requires
        is_order(edges@, order@),
    ensures
        r is Some == can_join(edges@, order@, members@, taken@, threshold, id),
        r matches Some(list) ==> list@.len() == members@.len() && (forall|k: int|
            0 <= k < list@.len() ==> Some(#[trigger] list@[k]) == link_of(
                edges@,
                order@,
                id,
                members@[k],
                order@.len() as int,
            ) && list@[k] < edges@.len()),
{
    if has_id(taken, id) || has_id(members, id) {
        return None;
    }
    let mut out: Vec<usize> = Vec::new();
    let mut i: usize = 0;
    while i < members.len()
        invariant
            i <= members@.len(),
            is_order(edges@, order@),
            !taken@.contains(id),
            !members@.contains(id),
            out@.len() == i,
            forall|k: int|
                0 <= k < i ==> strongly_linked(
                    edges@,
                    order@,
                    id,
                    #[trigger] members@[k],
                    threshold,
                ),
            forall|k: int|
                0 <= k < i ==> Some(#[trigger] out@[k]) == link_of(
                    edges@,
                    order@,
                    id,
                    members@[k],
                    order@.len() as int,
                ) && out@[k] < edges@.len(),
        decreases members@.len() - i,
    {
        match find_link(edges, order, id, members[i]) {
            None => {
                assert(!strongly_linked(edges@, order@, id, members@[i as int], threshold));
                return None;
            },
            Some(e) => {
                if edges[e].confidence.less(threshold) {
                    assert(!strongly_linked(edges@, order@, id, members@[i as int], threshold));
                    return None;
                }
                out.push(e);
            },
        }
        i += 1;
    }
    Some(out)
}

/// Whether an average may be that of the comparisons of a video with each member of a group.
pub open spec fn is_average<F: Fn(&Vec<usize>) -> Double>(
    average: F,
    edges: Seq<AiEdge>,
    order: Seq<usize>,
    members: Seq<i64>,
    id: i64,
    score: Double,
) -> bool {
    exists|list: Vec<usize>|
        #![trigger call_ensures(average, (&list,), score)]
        call_ensures(average, (&list,), score) && list@.len() == members.len() && (forall|k: int|
            0 <= k < list@.len() ==> Some(#[trigger] list@[k]) == link_of(
                edges,
                order,
                id,
                members[k],
                order.len() as int,
            ))
}

/// Whether a video may join a group next: it can join, and its average is not less than that of
/// another video that can.
pub open spec fn is_best_candidate<F: Fn(&Vec<usize>) -> Double>(
    average: F,
    edges: Seq<AiEdge>,
    order: Seq<usize>,
    video_ids: Seq<i64>,
    members: Seq<i64>,
    taken: Seq<i64>,
    threshold: Double,
    id: i64,
) -> bool {
    &&& video_ids.contains(id)
    &&& can_join(edges, order, members, taken, threshold, id)
    &&& exists|score: Double| #[trigger]
        is_average(average, edges, order, members, id, score) && (forall|k: int|
            #![trigger video_ids[k]]
            0 <= k < video_ids.len() && can_join(
                edges,
                order,
                members,
                taken,
                threshold,
                video_ids[k],
            ) ==> exists|other: Double| #[trigger]
                is_average(average, edges, order, members, video_ids[k], other) && !score.lt(other))
}

/// The video that joins a group next: of those that can, one whose average is not less than that of
/// another. `average` gives the average confidence of the comparisons at some positions.
pub fn best_complete_link_candidate<F: Fn(&Vec<usize>) -> Double>(
    video_ids: &Vec<i64>,
    edges: &Vec<AiEdge>,
    order: &Vec<usize>,
    members: &Vec<i64>,
    taken: &Vec<i64>,
    threshold: Double,
    average: &F,
) -> (r: Option<i64>)
    requires
        is_order(edges@, order@),
        forall|list: Vec<usize>| call_requires(*average, (&list,)),
    ensures
        match r {
            Some(id) => is_best_candidate(
                *average,
                edges@,
                order@,
                video_ids@,
                members@,
                taken@,
                threshold,
                id,
            ),
            None => forall|k: int|
                0 <= k < video_ids@.len() ==> !can_join(
                    edges@,
                    order@,
                    members@,
                    taken@,
                    threshold,
                    #[trigger] video_ids@[k],
                ),
        },
{
    let mut best: Option<(i64, Double)> = None;
    let mut i: usize = 0;
    while i < video_ids.len()
        invariant
            i <= video_ids@.len(),
            is_order(edges@, order@),
            forall|list: Vec<usize>| call_requires(*average, (&list,)),
            match best {
                Some(found) => video_ids@.contains(found.0) && can_join(
                    edges@,
                    order@,
                    members@,
                    taken@,
                    threshold,
                    found.0,
                ) && is_average(*average, edges@, order@, members@, found.0, found.1) && (forall|
                    k: int,
                |
                    #![trigger video_ids@[k]]
                    0 <= k < i && can_join(
                        edges@,
                        order@,
                        members@,
                        taken@,
                        threshold,
                        video_ids@[k],
                    ) ==> exists|other: Double|
                        #![trigger is_average(
                            *average,
                            edges@,
                            order@,
                            members@,
                            video_ids@[k],
                            other,
                        )]
                        is_average(
                            *average,
                            edges@,
                            order@,
                            members@,
                            video_ids@[k],
                            other,
                        ) && !found.1.lt(other)),
                None => forall|k: int|
                    0 <= k < i ==> !can_join(
                        edges@,
                        order@,
                        members@,
                        taken@,
                        threshold,
                        #[trigger] video_ids@[k],
                    ),
            },
        decreases video_ids@.len() - i,
    {
        let id: i64 = video_ids[i];
        assert(video_ids@[i as int] == id);
        if let Some(list) = joining_links(edges, order, members, taken, threshold, id) {
            let score = average(&list);
            assert(is_average(*average, edges@, order@, members@, id, score));
            match best {
                None => {
                    best = Some((id, score));
                },
                Some(found) => {
                    if found.1.less(score) {
                        best = Some((id, score));
                    }
                },
            }
        }
        i += 1;
    }
    match best {
        Some(found) => Some(found.0),
        None => None,
    }
}

/// A group: the ids of its videos in ascending order, and the positions of the comparisons of each
/// two of them.
#[derive(Debug, Clone)]
pub struct AiGroupDraft {
    pub ids: Vec<i64>,
    pub links: Vec<usize>,
}

/// The positions of the comparisons of the item at `i` with those from `j` on.
pub open spec fn links_from(
    edges: Seq<AiEdge>,
    order: Seq<usize>,
    ids: Seq<i64>,
    i: int,
    j: int,
) -> Seq<usize>
    decreases ids.len() - j,
{
    if j >= ids.len() {
        Seq::empty()
    } else {
        let rest = links_from(edges, order, ids, i, j + 1);
        match link_of(edges, order, ids[i], ids[j], order.len() as int) {
            Some(e) => seq![e] + rest,
            None => rest,
        }
    }
}

/// The positions of the comparisons of each two of some videos, from the item at `i` on.
pub open spec fn inner_links(edges: Seq<AiEdge>, order: Seq<usize>, ids: Seq<i64>, i: int) -> Seq<
    usize,
>
    decreases ids.len() - i,
{
    if i >= ids.len() {
        Seq::empty()
    } else {
        links_from(edges, order, ids, i, i + 1) + inner_links(edges, order, ids, i + 1)
    }
}

/// The positions of the comparisons of each two of some videos.
fn group_edges(edges: &Vec<AiEdge>, order: &Vec<usize>, ids: &Vec<i64>) -> (r: Vec<usize>)
    requires
        is_order(edges@, order@),
    ensures
        r@ == inner_links(edges@, order@, ids@, 0),
        forall|k: int| 0 <= k < r@.len() ==> (#[trigger] r@[k]) < edges@.len(),
{
    let mut out: Vec<usize> = Vec::new();
    let ghost whole = inner_links(edges@, order@, ids@, 0);
    let mut i: usize = 0;
    assert(out@ + whole =~= whole);
    while i < ids.len()
        invariant
            i <= ids@.len(),
            is_order(edges@, order@),
            out@ + inner_links(edges@, order@, ids@, i as int) == whole,
            forall|k: int| 0 <= k < out@.len() ==> (#[trigger] out@[k]) < edges@.len(),
        decreases ids@.len() - i,
    {
        let ghost next = inner_links(edges@, order@, ids@, i + 1);
        let mut j: usize = i + 1;
        assert(out@ + (links_from(edges@, order@, ids@, i as int, j as int) + next) == whole);
        while j < ids.len()
            invariant
                i < ids@.len(),
                i < j <= ids@.len(),
                is_order(edges@, order@),
                out@ + (links_from(edges@, order@, ids@, i as int, j as int) + next) == whole,
                forall|k: int| 0 <= k < out@.len() ==> (#[trigger] out@[k]) < edges@.len(),
            decreases ids@.len() - j,
        {
            let ghost before = out@;
            let ghost rest = links_from(edges@, order@, ids@, i as int, j + 1);
            if let Some(e) = find_link(edges, order, ids[i], ids[j]) {
                out.push(e);
                assert(out@ + (rest + next) =~= before + ((seq![e] + rest) + next));
            }
            j += 1;
        }
        assert(links_from(edges@, order@, ids@, i as int, j as int) + next =~= next);
        i += 1;
    }
    assert(inner_links(edges@, order@, ids@, i as int) =~= Seq::empty());
    assert(out@ =~= whole);
    out
}

/// Whether every two of some videos were compared.
pub open spec fn all_linked(edges: Seq<AiEdge>, ids: Seq<i64>) -> bool {
    forall|i: int, j: int|
        #![trigger ids[i], ids[j]]
        0 <= i < ids.len() && 0 <= j < ids.len() && ids[i] != ids[j] ==> is_linked(
            edges,
            ids[i],
            ids[j],
        )
}

/// Whether a group is one of those that comparisons give: its ids are in ascending order, every
/// two videos were compared, and its links are those comparisons.
pub open spec fn is_group(edges: Seq<AiEdge>, order: Seq<usize>, draft: AiGroupDraft) -> bool {
    &&& draft.ids@.len() >= 2
    &&& forall|i: int, j: int|
        #![trigger draft.ids@[i], draft.ids@[j]]
        0 <= i < j < draft.ids@.len() ==> draft.ids@[i] < draft.ids@[j]
    &&& all_linked(edges, draft.ids@)
    &&& draft.links@ == inner_links(edges, order, draft.ids@, 0)
}

/// Whether no video is in two of some groups.
pub open spec fn are_disjoint(groups: Seq<AiGroupDraft>) -> bool {
    forall|p: int, q: int, id: i64|
        #![trigger groups[p].ids@.contains(id), groups[q].ids@.contains(id)]
        0 <= p < q < groups.len() && groups[p].ids@.contains(id) ==> !groups[q].ids@.contains(id)
}

/// Whether a video is in one of some groups.
pub open spec fn is_grouped(groups: Seq<AiGroupDraft>, id: i64) -> bool {
    exists|p: int| 0 <= p < groups.len() && (#[trigger] groups[p]).ids@.contains(id)
}

/// Whether groups are those that comparisons give: in each group every two videos were compared,
/// and no video is in two groups.
pub open spec fn groups_ok(edges: Seq<AiEdge>, order: Seq<usize>, groups: Seq<AiGroupDraft>) -> bool {
    &&& forall|p: int| 0 <= p < groups.len() ==> is_group(edges, order, #[trigger] groups[p])
    &&& are_disjoint(groups)
}

/// The videos that are in some groups, group by group.
pub open spec fn grouped_ids(groups: Seq<AiGroupDraft>) -> Seq<i64>
    decreases groups.len(),
{
    if groups.len() == 0 {
        Seq::empty()
    } else {
        grouped_ids(groups.drop_last()) + groups.last().ids@
    }
}

/// Whether a group grew from a first comparison in the order `grown`: each further video was the
/// best one to join those before it.
pub open spec fn is_growth<F: Fn(&Vec<usize>) -> Double>(
    average: F,
    edges: Seq<AiEdge>,
    order: Seq<usize>,
    video_ids: Seq<i64>,
    taken: Seq<i64>,
    threshold: Double,
    seed: AiEdge,
    grown: Seq<i64>,
) -> bool {
    &&& grown.len() >= 2
    &&& grown[0] == seed.a
    &&& grown[1] == seed.b
    &&& forall|k: int|
        2 <= k < grown.len() ==> is_best_candidate(
            average,
            edges,
            order,
            video_ids,
            grown.take(k),
            taken,
            threshold,
            #[trigger] grown[k],
        )
}

/// Whether a group was made in its turn: it starts with the first comparison, at `n` of the order,
/// of two videos that were in no group before; each further video was the best one to join; every
/// other two of its videos are strongly linked; and no further video could join.
pub open spec fn is_formed<F: Fn(&Vec<usize>) -> Double>(
    average: F,
    edges: Seq<AiEdge>,
    order: Seq<usize>,
    video_ids: Seq<i64>,
    threshold: Double,
    groups: Seq<AiGroupDraft>,
    p: int,
    n: int,
) -> bool {
    let before = groups.take(p);
    let ids = groups[p].ids@;
    let seed = edges[order[n] as int];
    &&& 0 <= n < order.len()
    &&& ids.contains(seed.a) && ids.contains(seed.b)
    &&& !is_grouped(before, seed.a) && !is_grouped(before, seed.b)
    &&& exists|grown: Seq<i64>| #[trigger]
        is_growth(
            average,
            edges,
            order,
            video_ids,
            grouped_ids(before),
            threshold,
            seed,
            grown,
        ) && findings::sorts(grown, ids)
    &&& forall|k: int|
        0 <= k < n ==> is_settled(before, edges[(#[trigger] order[k]) as int])
    &&& forall|i: int, j: int|
        #![trigger ids[i], ids[j]]
        0 <= i < j < ids.len() ==> links(seed, ids[i], ids[j]) || strongly_linked(
            edges,
            order,
            ids[i],
            ids[j],
            threshold,
        )
    &&& forall|k: int|
        0 <= k < video_ids.len() ==> !joins_group(
            edges,
            order,
            ids,
            before,
            threshold,
            #[trigger] video_ids[k],
        )
}

/// Whether a group was made in its turn.
pub open spec fn has_turn<F: Fn(&Vec<usize>) -> Double>(
    average: F,
    edges: Seq<AiEdge>,
    order: Seq<usize>,
    video_ids: Seq<i64>,
    threshold: Double,
    groups: Seq<AiGroupDraft>,
    p: int,
) -> bool {
    exists|n: int| #[trigger] is_formed(average, edges, order, video_ids, threshold, groups, p, n)
}

/// Whether every group was made in its turn.
pub open spec fn all_formed<F: Fn(&Vec<usize>) -> Double>(
    average: F,
    edges: Seq<AiEdge>,
    order: Seq<usize>,
    video_ids: Seq<i64>,
    threshold: Double,
    groups: Seq<AiGroupDraft>,
) -> bool {
    forall|p: int|
        0 <= p < groups.len() ==> #[trigger] has_turn(
            average,
            edges,
            order,
            video_ids,
            threshold,
            groups,
            p,
        )
}

/// Whether a comparison is of one video, or of a video that is in a group.
pub open spec fn is_settled(groups: Seq<AiGroupDraft>, edge: AiEdge) -> bool {
    edge.a == edge.b || is_grouped(groups, edge.a) || is_grouped(groups, edge.b)
}

/// Whether a video that is in no group is strongly linked to all members of one.
pub open spec fn joins_group(
    edges: Seq<AiEdge>,
    order: Seq<usize>,
    ids: Seq<i64>,
    before: Seq<AiGroupDraft>,
    threshold: Double,
    id: i64,
) -> bool {
    &&& !is_grouped(before, id)
    &&& !ids.contains(id)
    &&& forall|k: int|
        0 <= k < ids.len() ==> strongly_linked(edges, order, id, #[trigger] ids[k], threshold)
}

/// In a group every two videos were compared with each other: chains of weak likeness do not
/// join what was not itself found alike.
pub proof fn law_groups_are_fully_linked(
    edges: Seq<AiEdge>,
    order: Seq<usize>,
    groups: Seq<AiGroupDraft>,
    p: int,
    x: i64,
    y: i64,
)
    requires
        groups_ok(edges, order, groups),
        0 <= p < groups.len(),
        groups[p].ids@.contains(x),
        groups[p].ids@.contains(y),
        x != y,
    ensures
        is_linked(edges, x, y),
{
    let ids = groups[p].ids@;
    assert(is_group(edges, order, groups[p]));
    let i = choose|i: int| 0 <= i < ids.len() && ids[i] == x;
    let j = choose|j: int| 0 <= j < ids.len() && ids[j] == y;
    assert(is_linked(edges, ids[i], ids[j]));
}

proof fn lemma_linked_symmetric(edges: Seq<AiEdge>, x: i64, y: i64)
    ensures
        is_linked(edges, x, y) == is_linked(edges, y, x),
{
    if is_linked(edges, x, y) {
        let e = choose|e: int| 0 <= e < edges.len() && links(#[trigger] edges[e], x, y);
        assert(links(edges[e], y, x));
    }
    if is_linked(edges, y, x) {
        let e = choose|e: int| 0 <= e < edges.len() && links(#[trigger] edges[e], y, x);
        assert(links(edges[e], x, y));
    }
}

/// The videos that a group grows to from a first comparison.
fn grow_group<F: Fn(&Vec<usize>) -> Double>(
    video_ids: &Vec<i64>,
    edges: &Vec<AiEdge>,
    order: &Vec<usize>,
    seed: usize,
    taken: &Vec<i64>,
    threshold: Double,
    average: &F,
) -> (r: Vec<i64>)
    requires
        is_order(edges@, order@),
        seed < edges@.len(),
        !taken@.contains(edges@[seed as int].a),
        !taken@.contains(edges@[seed as int].b),
        forall|list: Vec<usize>| call_requires(*average, (&list,)),
    ensures
        all_linked(edges@, r@),
        is_growth(
            *average,
            edges@,
            order@,
            video_ids@,
            taken@,
            threshold,
            edges@[seed as int],
            r@,
        ),
        forall|k: int| 0 <= k < r@.len() ==> !taken@.contains(#[trigger] r@[k]),
        forall|k: int|
            2 <= k < r@.len() ==> video_ids@.contains(#[trigger] r@[k]) && (forall|j: int|
                0 <= j < k ==> strongly_linked(
                    edges@,
                    order@,
                    r@[k],
                    #[trigger] r@[j],
                    threshold,
                )),
        forall|k: int|
            0 <= k < video_ids@.len() ==> !can_join(
                edges@,
                order@,
                r@,
                taken@,
                threshold,
                #[trigger] video_ids@[k],
            ),
{
    let mut ids: Vec<i64> = Vec::new();
    ids.push(edges[seed].a);
    ids.push(edges[seed].b);
    let ghost mut open: Set<i64> = video_ids@.to_set();
    proof {
        vstd::seq_lib::seq_to_set_is_finite(video_ids@);
        let a = edges@[seed as int].a;
        let b = edges@[seed as int].b;
        assert(links(edges@[seed as int], a, b));
        lemma_linked_symmetric(edges@, a, b);
        assert(ids@[0] == a && ids@[1] == b);
    }
    let mut more = true;
    while more
        invariant
            is_order(edges@, order@),
            seed < edges@.len(),
            forall|list: Vec<usize>| call_requires(*average, (&list,)),
            all_linked(edges@, ids@),
            is_growth(
                *average,
                edges@,
                order@,
                video_ids@,
                taken@,
                threshold,
                edges@[seed as int],
                ids@,
            ),
            forall|k: int| 0 <= k < ids@.len() ==> !taken@.contains(#[trigger] ids@[k]),
            forall|k: int|
                2 <= k < ids@.len() ==> video_ids@.contains(#[trigger] ids@[k]) && (forall|j: int|
                    0 <= j < k ==> strongly_linked(
                        edges@,
                        order@,
                        ids@[k],
                        #[trigger] ids@[j],
                        threshold,
                    )),
            open.finite(),
            forall|id: i64|
                video_ids@.contains(id) && !ids@.contains(id) ==> #[trigger] open.contains(id),
            !more ==> (forall|k: int|
                0 <= k < video_ids@.len() ==> !can_join(
                    edges@,
                    order@,
                    ids@,
                    taken@,
                    threshold,
                    #[trigger] video_ids@[k],
                )),
        decreases open.len(), (if more { 1int } else { 0 }),
    {
        let ghost before = ids@;
        match best_complete_link_candidate(
            video_ids,
            edges,
            order,
            &ids,
            taken,
            threshold,
            average,
        ) {
            None => {
                more = false;
            },
            Some(id) => {
                ids.push(id);
                proof {
                    assert forall|k: int| 2 <= k < ids@.len() implies is_best_candidate(
                        *average,
                        edges@,
                        order@,
                        video_ids@,
                        ids@.take(k),
                        taken@,
                        threshold,
                        #[trigger] ids@[k],
                    ) by {
                        assert(ids@.take(k) =~= before.take(k));
                        if k < before.len() {
                            assert(ids@[k] == before[k]);
                        } else {
                            assert(before.take(k) =~= before);
                        }
                    }
                    assert forall|i: int, j: int|
                        #![trigger ids@[i], ids@[j]]
                        0 <= i < ids@.len() && 0 <= j < ids@.len() && ids@[i]
                            != ids@[j] implies is_linked(edges@, ids@[i], ids@[j]) by {
                        if i < before.len() && j < before.len() {
                            assert(before[i] == ids@[i] && before[j] == ids@[j]);
                        } else if i < before.len() {
                            assert(strongly_linked(edges@, order@, id, before[i], threshold));
                            lemma_link_of(edges@, order@, id, before[i], order@.len() as int);
                            assert(is_linked(edges@, id, before[i]));
                            lemma_linked_symmetric(edges@, id, before[i]);
                        } else {
                            assert(strongly_linked(edges@, order@, id, before[j], threshold));
                            lemma_link_of(edges@, order@, id, before[j], order@.len() as int);
                            assert(is_linked(edges@, id, before[j]));
                        }
                    }
                    assert forall|k: int| 2 <= k < ids@.len() implies video_ids@.contains(
                        #[trigger] ids@[k],
                    ) && (forall|j: int|
                        0 <= j < k ==> strongly_linked(
                            edges@,
                            order@,
                            ids@[k],
                            #[trigger] ids@[j],
                            threshold,
                        )) by {
                        if k < before.len() {
                            assert(ids@[k] == before[k]);
                            assert forall|j: int| 0 <= j < k implies strongly_linked(
                                edges@,
                                order@,
                                ids@[k],
                                #[trigger] ids@[j],
                                threshold,
                            ) by {
                                assert(ids@[j] == before[j]);
                            }
                        } else {
                            assert forall|j: int| 0 <= j < k implies strongly_linked(
                                edges@,
                                order@,
                                ids@[k],
                                #[trigger] ids@[j],
                                threshold,
                            ) by {
                                assert(ids@[j] == before[j]);
                            }
                        }
                    }
                    assert forall|x: i64|
                        video_ids@.contains(x) && !ids@.contains(x) implies #[trigger] open.remove(
                        id,
                    ).contains(x) by {
                        assert(ids@[before.len() as int] == id);
                        if before.contains(x) {
                            let k = choose|k: int| 0 <= k < before.len() && before[k] == x;
                            assert(ids@[k] == x);
                        }
                    }
                    assert(open.contains(id));
                    open = open.remove(id);
                }
            },
        }
    }
    ids
}

proof fn lemma_formed<F: Fn(&Vec<usize>) -> Double>(
    average: F,
    edges: Seq<AiEdge>,
    order: Seq<usize>,
    video_ids: Seq<i64>,
    threshold: Double,
    groups: Seq<AiGroupDraft>,
    before: Seq<AiGroupDraft>,
    taken: Seq<i64>,
    grown: Seq<i64>,
    n: int,
)
    requires
        is_order(edges, order),
        0 <= n < order.len(),
        groups.len() == before.len() + 1,
        groups.take(before.len() as int) == before,
        forall|id: i64| #[trigger] taken.contains(id) <==> is_grouped(before, id),
        taken == grouped_ids(before),
        findings::sorts(grown, groups.last().ids@),
        is_growth(
            average,
            edges,
            order,
            video_ids,
            taken,
            threshold,
            edges[order[n] as int],
            grown,
        ),
        !taken.contains(grown[0]),
        !taken.contains(grown[1]),
        forall|k: int| 0 <= k < n ==> is_settled(before, edges[(#[trigger] order[k]) as int]),
        forall|k: int|
            2 <= k < grown.len() ==> (forall|j: int|
                0 <= j < k ==> strongly_linked(
                    edges,
                    order,
                    #[trigger] grown[k],
                    #[trigger] grown[j],
                    threshold,
                )),
        forall|k: int|
            0 <= k < video_ids.len() ==> !can_join(
                edges,
                order,
                grown,
                taken,
                threshold,
                #[trigger] video_ids[k],
            ),
    ensures
        is_formed(average, edges, order, video_ids, threshold, groups, before.len() as int, n),
{
    let ids = groups.last().ids@;
    let seed = edges[order[n] as int];
    assert(groups[before.len() as int] == groups.last());
    assert(grown.contains(grown[0]) && grown.contains(grown[1]));
    assert forall|i: int, j: int|
        #![trigger ids[i], ids[j]]
        0 <= i < j < ids.len() implies links(seed, ids[i], ids[j]) || strongly_linked(
        edges,
        order,
        ids[i],
        ids[j],
        threshold,
    ) by {
        assert(ids.contains(ids[i]) && ids.contains(ids[j]));
        assert(grown.contains(ids[i]) && grown.contains(ids[j]));
        let a = choose|a: int| 0 <= a < grown.len() && grown[a] == ids[i];
        let b = choose|b: int| 0 <= b < grown.len() && grown[b] == ids[j];
        assert(a != b);
        lemma_link_of(edges, order, grown[a], grown[b], order.len() as int);
        if a >= 2 && a > b {
            assert(strongly_linked(edges, order, grown[a], grown[b], threshold));
        } else if b >= 2 {
            assert(strongly_linked(edges, order, grown[b], grown[a], threshold));
        }
    }
    assert forall|k: int| 0 <= k < video_ids.len() implies !joins_group(
        edges,
        order,
        ids,
        before,
        threshold,
        #[trigger] video_ids[k],
    ) by {
        let id = video_ids[k];
        if joins_group(edges, order, ids, before, threshold, id) {
            assert(!taken.contains(id));
            assert(!grown.contains(id));
            assert forall|m: int| 0 <= m < grown.len() implies strongly_linked(
                edges,
                order,
                id,
                #[trigger] grown[m],
                threshold,
            ) by {
                assert(grown.contains(grown[m]));
                assert(ids.contains(grown[m]));
                let x = choose|x: int| 0 <= x < ids.len() && ids[x] == grown[m];
                assert(strongly_linked(edges, order, id, ids[x], threshold));
            }
            assert(can_join(edges, order, grown, taken, threshold, id));
        }
    }
}

/// The groups that comparisons give, the surest first. A group starts with a comparison of two
/// videos that are in no group, and takes in videos that are strongly linked to all its members,
/// until there is none. `average` gives the average confidence of the comparisons at some
/// positions.
#[verifier::rlimit(60)]
pub fn connected_ai_groups<F: Fn(&Vec<usize>) -> Double>(
    video_ids: &Vec<i64>,
    edges: &Vec<AiEdge>,
    expansion_threshold: Double,
    average: &F,
) -> (r: Vec<AiGroupDraft>)
    requires
        forall|list: Vec<usize>| call_requires(*average, (&list,)),
    ensures
        exists|order: Seq<usize>| #[trigger]
            is_order(edges@, order) && groups_ok(edges@, order, r@) && all_formed(
                *average,
                edges@,
                order,
                video_ids@,
                expansion_threshold,
                r@,
            ),
        forall|e: int|
            0 <= e < edges@.len() && (#[trigger] edges@[e]).a != edges@[e].b ==> is_grouped(
                r@,
                edges@[e].a,
            ) || is_grouped(r@, edges@[e].b),
{
    let order = order_edges(edges);
    let mut taken: Vec<i64> = Vec::new();
    let mut groups: Vec<AiGroupDraft> = Vec::new();
    let mut n: usize = 0;
    while n < order.len()
        invariant
            n <= order@.len(),
            is_order(edges@, order@),
            forall|list: Vec<usize>| call_requires(*average, (&list,)),
            groups_ok(edges@, order@, groups@),
            all_formed(*average, edges@, order@, video_ids@, expansion_threshold, groups@),
            taken@ == grouped_ids(groups@),
            forall|id: i64| #[trigger] taken@.contains(id) <==> is_grouped(groups@, id),
            forall|k: int|
                0 <= k < n ==> is_settled(groups@, edges@[(#[trigger] order@[k]) as int]),
        decreases order@.len() - n,
    {
        let seed: usize = order[n];
        let ghost groups_before = groups@;
        if has_id(&taken, edges[seed].a) || has_id(&taken, edges[seed].b) {
            n += 1;
            continue;
        }
        let grown = grow_group(
            video_ids,
            edges,
            &order,
            seed,
            &taken,
            expansion_threshold,
            average,
        );
        let ids = sorted_unique(&grown);
        if ids.len() < 2 {
            proof {
                let a = edges@[seed as int].a;
                let b = edges@[seed as int].b;
                assert(grown@.contains(grown@[0]) && grown@.contains(grown@[1]));
                assert(ids@.contains(a) && ids@.contains(b));
                let x = choose|x: int| 0 <= x < ids@.len() && ids@[x] == a;
                let y = choose|y: int| 0 <= y < ids@.len() && ids@[y] == b;
                assert(x == y);
            }
            n += 1;
            continue;
        }
        let found = group_edges(edges, &order, &ids);
        let ghost taken_before = taken@;
        let mut i: usize = 0;
        assert(taken@ =~= taken_before + ids@.take(0));
        while i < ids.len()
            invariant
                i <= ids@.len(),
                taken@ == taken_before + ids@.take(i as int),
                forall|id: i64| #[trigger]
                    taken@.contains(id) <==> taken_before.contains(id) || ids@.take(
                        i as int,
                    ).contains(id),
            decreases ids@.len() - i,
        {
            let ghost before = taken@;
            let id: i64 = ids[i];
            taken.push(id);
            proof {
                assert(ids@.take(i + 1) =~= ids@.take(i as int).push(id));
                assert(taken@ =~= taken_before + ids@.take(i + 1));
                assert forall|x: i64| #[trigger] taken@.contains(x) <==> taken_before.contains(x)
                    || ids@.take(i + 1).contains(x) by {
                    if taken@.contains(x) {
                        let k = choose|k: int| 0 <= k < taken@.len() && taken@[k] == x;
                        if k < before.len() {
                            assert(before[k] == x);
                            assert(before.contains(x));
                            if ids@.take(i as int).contains(x) {
                                let m = choose|m: int| 0 <= m < i && ids@.take(i as int)[m] == x;
                                assert(ids@.take(i + 1)[m] == x);
                            }
                        } else {
                            assert(ids@.take(i + 1)[i as int] == x);
                        }
                    }
                    if taken_before.contains(x) || ids@.take(i as int).contains(x) {
                        assert(before.contains(x));
                        let k = choose|k: int| 0 <= k < before.len() && before[k] == x;
                        assert(taken@[k] == x);
                    }
                    if ids@.take(i + 1).contains(x) {
                        let next = ids@.take(i + 1);
                        let m = choose|m: int| 0 <= m < next.len() && next[m] == x;
                        if m == i {
                            assert(taken@[before.len() as int] == x);
                        } else {
                            assert(ids@.take(i as int)[m] == x);
                            assert(ids@.take(i as int).contains(x));
                        }
                    }
                }
            }
            i += 1;
        }
        assert(ids@.take(i as int) =~= ids@);
        let ghost fresh = ids@;
        groups.push(AiGroupDraft { ids, links: found });
        proof {
            let last = groups@[groups_before.len() as int];
            assert(all_linked(edges@, fresh)) by {
                assert forall|x: int, y: int|
                    #![trigger fresh[x], fresh[y]]
                    0 <= x < fresh.len() && 0 <= y < fresh.len() && fresh[x]
                        != fresh[y] implies is_linked(edges@, fresh[x], fresh[y]) by {
                    assert(fresh.contains(fresh[x]) && fresh.contains(fresh[y]));
                    assert(grown@.contains(fresh[x]) && grown@.contains(fresh[y]));
                    let a = choose|a: int| 0 <= a < grown@.len() && grown@[a] == fresh[x];
                    let b = choose|b: int| 0 <= b < grown@.len() && grown@[b] == fresh[y];
                    assert(is_linked(edges@, grown@[a], grown@[b]));
                }
            }
            assert(is_group(edges@, order@, last));
            assert forall|p: int| 0 <= p < groups@.len() implies is_group(
                edges@,
                order@,
                #[trigger] groups@[p],
            ) by {
                if p < groups_before.len() {
                    assert(groups@[p] == groups_before[p]);
                }
            }
            assert forall|p: int, q: int, id: i64|
                #![trigger groups@[p].ids@.contains(id), groups@[q].ids@.contains(id)]
                0 <= p < q < groups@.len() && groups@[p].ids@.contains(
                    id,
                ) implies !groups@[q].ids@.contains(id) by {
                assert(groups@[p] == groups_before[p]);
                if q < groups_before.len() {
                    assert(groups@[q] == groups_before[q]);
                } else {
                    assert(is_grouped(groups_before, id));
                    assert(taken_before.contains(id));
                    if fresh.contains(id) {
                        assert(grown@.contains(id));
                        let k = choose|k: int| 0 <= k < grown@.len() && grown@[k] == id;
                        assert(!taken_before.contains(grown@[k]));
                    }
                }
            }
            assert forall|id: i64| #[trigger] taken@.contains(id) <==> is_grouped(groups@, id) by {
                if taken@.contains(id) {
                    if taken_before.contains(id) {
                        let p = choose|p: int|
                            0 <= p < groups_before.len() && (
                            #[trigger] groups_before[p]).ids@.contains(id);
                        assert(groups@[p] == groups_before[p]);
                    } else {
                        assert(last.ids@.contains(id));
                    }
                }
                if is_grouped(groups@, id) {
                    let p = choose|p: int|
                        0 <= p < groups@.len() && (#[trigger] groups@[p]).ids@.contains(id);
                    if p < groups_before.len() {
                        assert(groups_before[p].ids@.contains(id));
                        assert(is_grouped(groups_before, id));
                    }
                }
            }
            assert forall|k: int| 0 <= k < n + 1 implies is_settled(
                groups@,
                edges@[(#[trigger] order@[k]) as int],
            ) by {
                if k < n {
                    let a = edges@[order@[k] as int].a;
                    let b = edges@[order@[k] as int].b;
                    assert(is_settled(groups_before, edges@[order@[k] as int]));
                    assert(a == b || taken_before.contains(a) || taken_before.contains(b));
                    assert(a == b || taken@.contains(a) || taken@.contains(b));
                } else {
                    assert(grown@.contains(grown@[0]));
                    assert(fresh.contains(edges@[seed as int].a));
                    assert(taken@.contains(edges@[seed as int].a));
                }
            }
            let at = groups_before.len() as int;
            assert(groups@.take(at) =~= groups_before);
            assert(groups@.drop_last() =~= groups_before);
            lemma_formed(
                *average,
                edges@,
                order@,
                video_ids@,
                expansion_threshold,
                groups@,
                groups_before,
                taken_before,
                grown@,
                n as int,
            );
            assert forall|p: int| 0 <= p < groups@.len() implies #[trigger] has_turn(
                *average,
                edges@,
                order@,
                video_ids@,
                expansion_threshold,
                groups@,
                p,
            ) by {
                if p < at {
                    assert(groups@[p] == groups_before[p]);
                    assert(has_turn(
                        *average,
                        edges@,
                        order@,
                        video_ids@,
                        expansion_threshold,
                        groups_before,
                        p,
                    ));
                    let m = choose|m: int| #[trigger]
                        is_formed(
                            *average,
                            edges@,
                            order@,
                            video_ids@,
                            expansion_threshold,
                            groups_before,
                            p,
                            m,
                        );
                    assert(groups@.take(p) =~= groups_before.take(p));
                    assert(is_formed(
                        *average,
                        edges@,
                        order@,
                        video_ids@,
                        expansion_threshold,
                        groups@,
                        p,
                        m,
                    ));
                }
            }
        }
        n += 1;
    }
    proof {
        assert(is_order(edges@, order@));
        assert forall|e: int|
            0 <= e < edges@.len() && (#[trigger] edges@[e]).a != edges@[e].b implies is_grouped(
            groups@,
            edges@[e].a,
        ) || is_grouped(groups@, edges@[e].b) by {
            assert(order@.len() == order.len());
            assert(order@.contains(e as usize));
            let k = choose|k: int| 0 <= k < order@.len() && order@[k] == e as usize;
            assert(edges@[order@[k] as int] == edges@[e]);
            assert(is_settled(groups@, edges@[order@[k] as int]));
        }
    }
    groups
}

} // verus!
