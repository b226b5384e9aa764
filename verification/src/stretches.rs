//! The stretches in which two videos match, and what is shown of them.
use crate::ai_groups;
use crate::ai_groups::{edge_key, AiEdge, AiEdgeMatchRange};
use crate::ai_report;
use crate::ai_report::{detail_edges_for_group, set_better_match_detail};
use crate::double::Double;
use crate::models::{MatchDetail, MatchGroup, MatchHitPoint, MatchItem, MatchRange, VideoRecord};
use vstd::prelude::*;
use vstd::string::*;

verus! {

/// 0
pub const NONE_OF_IT: u64 = 0x0000_0000_0000_0000;

/// 1
pub const ALL_OF_IT: u64 = 0x3FF0_0000_0000_0000;

/// A copy of a stretch.
pub fn copy_range(range: &MatchRange) -> (r: MatchRange)
    ensures
        r == *range,
{
    MatchRange {
        start_seconds: range.start_seconds,
        end_seconds: range.end_seconds,
        start_fraction: range.start_fraction,
        end_fraction: range.end_fraction,
        matched_frames: range.matched_frames,
        average_similarity: range.average_similarity,
    }
}

/// Whether a stretch covers a part of a video.
pub open spec fn covers(range: MatchRange) -> bool {
    range.start_fraction.finite() && range.end_fraction.finite() && range.start_fraction.lt(
        range.end_fraction,
    )
}

/// Whether a stretch covers a part of a video.
pub fn is_covering(range: &MatchRange) -> (r: bool)
    ensures
        r == covers(*range),
{
    range.start_fraction.is_finite() && range.end_fraction.is_finite() && range.start_fraction.less(
        range.end_fraction,
    )
}

/// The stretches of a video among the first `n` of a comparison that cover a part of it.
pub open spec fn own_ranges(list: Seq<AiEdgeMatchRange>, video_id: i64, n: int) -> Seq<MatchRange>
    decreases n,
{
    if n <= 0 {
        Seq::empty()
    } else {
        let rest = own_ranges(list, video_id, n - 1);
        if list[n - 1].video_id == video_id && covers(list[n - 1].range) {
            rest.push(list[n - 1].range)
        } else {
            rest
        }
    }
}

/// The stretches of a video in the first `n` of the given comparisons.
pub open spec fn all_ranges(edges: Seq<AiEdge>, links: Seq<usize>, video_id: i64, n: int) -> Seq<
    MatchRange,
>
    decreases n,
{
    if n <= 0 {
        Seq::empty()
    } else {
        let list = edges[links[n - 1] as int].match_ranges@;
        all_ranges(edges, links, video_id, n - 1) + own_ranges(list, video_id, list.len() as int)
    }
}

/// The stretches of a video in the given comparisons.
pub fn list_ranges(edges: &Vec<AiEdge>, links: &Vec<usize>, video_id: i64) -> (r: Vec<MatchRange>)
    requires
        forall|k: int| 0 <= k < links@.len() ==> (#[trigger] links@[k]) < edges@.len(),
    ensures
        r@ == all_ranges(edges@, links@, video_id, links@.len() as int),
{
    let mut out: Vec<MatchRange> = Vec::new();
    let mut i: usize = 0;
    while i < links.len()
        invariant
            i <= links@.len(),
            forall|k: int| 0 <= k < links@.len() ==> (#[trigger] links@[k]) < edges@.len(),
            out@ == all_ranges(edges@, links@, video_id, i as int),
        decreases links@.len() - i,
    {
        let ghost start = out@;
        let list = &edges[links[i]].match_ranges;
        let mut j: usize = 0;
        assert(start + own_ranges(list@, video_id, 0) =~= start);
        while j < list.len()
            invariant
                j <= list@.len(),
                out@ == start + own_ranges(list@, video_id, j as int),
            decreases list@.len() - j,
        {
            let ghost before = own_ranges(list@, video_id, j as int);
            if list[j].video_id == video_id && is_covering(&list[j].range) {
                out.push(copy_range(&list[j].range));
                assert(out@ =~= start + before.push(list@[j as int].range));
            }
            j += 1;
        }
        i += 1;
    }
    out
}

/// Whether one stretch comes before another: it starts earlier, or at once and ends earlier.
pub open spec fn range_first(x: MatchRange, y: MatchRange) -> bool {
    x.start_fraction.total_rank() < y.start_fraction.total_rank() || (
    x.start_fraction.total_rank() == y.start_fraction.total_rank() && x.end_fraction.total_rank()
        < y.end_fraction.total_rank())
}

fn is_range_first(x: &MatchRange, y: &MatchRange) -> (r: bool)
    ensures
        r == range_first(*x, *y),
{
    let a: i64 = x.start_fraction.total_order();
    let b: i64 = y.start_fraction.total_order();
    a < b || (a == b && x.end_fraction.total_order() < y.end_fraction.total_order())
}

/// Whether positions list all stretches in order; those that are alike keep their order.
pub open spec fn is_range_order(ranges: Seq<MatchRange>, order: Seq<usize>) -> bool {
    &&& order.len() == ranges.len()
    &&& forall|k: int| 0 <= k < order.len() ==> (#[trigger] order[k]) < ranges.len()
    &&& forall|i: int| 0 <= i < ranges.len() ==> #[trigger] order.contains(i as usize)
    &&& forall|a: int, b: int|
        #![trigger order[a], order[b]]
        0 <= a < b < order.len() ==> range_first(
            ranges[order[a] as int],
            ranges[order[b] as int],
        ) || (!range_first(ranges[order[b] as int], ranges[order[a] as int]) && order[a]
            < order[b])
}

/// The positions of all stretches in order.
pub fn order_ranges(ranges: &Vec<MatchRange>) -> (r: Vec<usize>)
    ensures
        is_range_order(ranges@, r@),
{
    let total: usize = ranges.len();
    let mut out: Vec<usize> = Vec::new();
    let mut i: usize = 0;
    while i < ranges.len()
        invariant
            total == ranges@.len(),
            i <= ranges@.len(),
            out@.len() == i,
            forall|k: int| 0 <= k < out@.len() ==> (#[trigger] out@[k]) < i,
            forall|x: int| 0 <= x < i ==> #[trigger] out@.contains(x as usize),
            forall|a: int, b: int|
                #![trigger out@[a], out@[b]]
                0 <= a < b < out@.len() ==> range_first(
                    ranges@[out@[a] as int],
                    ranges@[out@[b] as int],
                ) || (!range_first(ranges@[out@[b] as int], ranges@[out@[a] as int]) && out@[a]
                    < out@[b]),
        decreases ranges@.len() - i,
    {
        let ghost before = out@;
        let mut j: usize = out.len();
        while j > 0 && is_range_first(&ranges[i], &ranges[out[j - 1]])
            invariant
                j <= out@.len(),
                i < ranges@.len(),
                out@ == before,
                forall|k: int| 0 <= k < out@.len() ==> (#[trigger] out@[k]) < i,
                forall|k: int|
                    j <= k < out@.len() ==> range_first(
                        ranges@[i as int],
                        ranges@[(#[trigger] out@[k]) as int],
                    ),
            decreases j,
        {
            j -= 1;
        }
        out.insert(j, i);
        proof {
            assert forall|k: int| 0 <= k < out@.len() implies #[trigger] out@[k] == (if k < j {
                before[k]
            } else if k == j {
                i
            } else {
                before[k - 1]
            }) by {}
            assert forall|x: int| 0 <= x < i + 1 implies #[trigger] out@.contains(x as usize) by {
                if x == i {
                    assert(out@[j as int] == i);
                } else {
                    assert(before.contains(x as usize));
                    let k = choose|k: int| 0 <= k < before.len() && before[k] == x as usize;
                    if k < j {
                        assert(out@[k] == x as usize);
                    } else {
                        assert(out@[k + 1] == x as usize);
                    }
                }
            }
            assert forall|a: int, b: int|
                #![trigger out@[a], out@[b]]
                0 <= a < b < out@.len() implies range_first(
                ranges@[out@[a] as int],
                ranges@[out@[b] as int],
            ) || (!range_first(ranges@[out@[b] as int], ranges@[out@[a] as int]) && out@[a]
                < out@[b]) by {
                if b == j {
                    assert(out@[a] == before[a]);
                    assert(!range_first(ranges@[i as int], ranges@[before[j - 1] as int]));
                    if a < j - 1 {
                        assert(range_first(
                            ranges@[before[a] as int],
                            ranges@[before[j - 1] as int],
                        ) || !range_first(
                            ranges@[before[j - 1] as int],
                            ranges@[before[a] as int],
                        ));
                    }
                } else if a == j {
                    assert(out@[b] == before[b - 1]);
                } else {
                    let x = if a < j {
                        a
                    } else {
                        a - 1
                    };
                    let y = if b < j {
                        b
                    } else {
                        b - 1
                    };
                    assert(out@[a] == before[x] && out@[b] == before[y]);
                }
            }
        }
        i += 1;
    }
    out
}

/// Two stretches as one. `average` is their average similarity by frames.
pub open spec fn merged_range(target: MatchRange, next: MatchRange, average: Double) -> MatchRange {
    let none = Double { bits: NONE_OF_IT };
    let all = Double { bits: ALL_OF_IT };
    MatchRange {
        start_seconds: target.start_seconds.min_of(next.start_seconds),
        end_seconds: target.end_seconds.max_of(next.end_seconds),
        start_fraction: target.start_fraction.min_of(next.start_fraction).clamped(none, all),
        end_fraction: target.end_fraction.max_of(next.end_fraction).clamped(none, all),
        matched_frames: if target.matched_frames + next.matched_frames > usize::MAX {
            usize::MAX
        } else {
            (target.matched_frames + next.matched_frames) as usize
        },
        average_similarity: average,
    }
}

/// Adds a stretch to another.
pub fn merge_match_range(target: &mut MatchRange, next: MatchRange, average: Double)
    ensures
        *final(target) == merged_range(*old(target), next, average),
{
    let none = Double { bits: NONE_OF_IT };
    let all = Double { bits: ALL_OF_IT };
    target.average_similarity = average;
    target.matched_frames = target.matched_frames.saturating_add(next.matched_frames);
    target.start_seconds = target.start_seconds.min(next.start_seconds);
    target.end_seconds = target.end_seconds.max(next.end_seconds);
    target.start_fraction = target.start_fraction.min(next.start_fraction).clamp(none, all);
    target.end_fraction = target.end_fraction.max(next.end_fraction).clamp(none, all);
}

/// Stretches in order with one more, which joins the last where it is near it.
pub open spec fn with_range(
    merged: Seq<MatchRange>,
    range: MatchRange,
    near: bool,
    average: Double,
) -> Seq<MatchRange> {
    if merged.len() > 0 && near {
        merged.update(merged.len() - 1, merged_range(merged.last(), range, average))
    } else {
        merged.push(range)
    }
}

/// Adds the next stretch to those that are there. `near` tells whether it starts close to the end
/// of the last one or before it; `average` is the average similarity of both.
pub fn merged_match_ranges(
    merged: &mut Vec<MatchRange>,
    range: MatchRange,
    near: bool,
    average: Double,
)
    ensures
        final(merged)@ == with_range(old(merged)@, range, near, average),
{
    let n: usize = merged.len();
    if n > 0 && near {
        let mut last = copy_range(&merged[n - 1]);
        merge_match_range(&mut last, range, average);
        merged.set(n - 1, last);
    } else {
        merged.push(range);
    }
}

/// Two stretches that lie in a video are one that lies in it and holds both.
pub proof fn law_merged_stretch_holds_both(target: MatchRange, next: MatchRange, average: Double)
    requires
        covers(target),
        covers(next),
        (Double { bits: NONE_OF_IT }).le(target.start_fraction),
        (Double { bits: NONE_OF_IT }).le(next.start_fraction),
        target.end_fraction.le(Double { bits: ALL_OF_IT }),
        next.end_fraction.le(Double { bits: ALL_OF_IT }),
    ensures
        covers(merged_range(target, next, average)),
        merged_range(target, next, average).start_fraction.le(target.start_fraction),
        merged_range(target, next, average).start_fraction.le(next.start_fraction),
        target.end_fraction.le(merged_range(target, next, average).end_fraction),
        next.end_fraction.le(merged_range(target, next, average).end_fraction),
        (Double { bits: NONE_OF_IT }).le(merged_range(target, next, average).start_fraction),
        merged_range(target, next, average).end_fraction.le(Double { bits: ALL_OF_IT }),
{
}

/// The stretches of a comparison: that of the shorter video, then that of the longer one.
pub open spec fn both_ranges(
    short_id: i64,
    short_range: Option<MatchRange>,
    long_id: i64,
    long_range: Option<MatchRange>,
) -> Seq<AiEdgeMatchRange> {
    let short = match short_range {
        Some(range) => seq![AiEdgeMatchRange { video_id: short_id, range }],
        None => Seq::empty(),
    };
    match long_range {
        Some(range) => short.push(AiEdgeMatchRange { video_id: long_id, range }),
        None => short,
    }
}

/// The number of frames that could match: those of the video that has fewer, but at least one.
pub open spec fn comparable(short_frames: int, long_frames: int) -> int {
    if short_frames < 1 || long_frames < 1 {
        1
    } else if short_frames <= long_frames {
        short_frames
    } else {
        long_frames
    }
}

/// The number of frames that could match.
pub fn comparable_frames(short_frames: usize, long_frames: usize) -> (r: usize)
    ensures
        r == comparable(short_frames as int, long_frames as int),
{
    if short_frames < 1 || long_frames < 1 {
        1
    } else if short_frames <= long_frames {
        short_frames
    } else {
        long_frames
    }
}

/// The number of a video, 0 where it has none.
pub open spec fn id_or_zero(video: VideoRecord) -> i64 {
    match video.id {
        Some(id) => id,
        None => 0,
    }
}

fn number_of(video: &VideoRecord) -> (r: i64)
    ensures
        r == id_or_zero(*video),
{
    match video.id {
        Some(id) => id,
        None => 0,
    }
}

/// The figures of a comparison.
#[derive(Debug, Clone, Copy, PartialEq, Eq, Structural)]
pub struct PairFigures {
    pub confidence: Double,
    pub matched: usize,
    pub average_similarity: Double,
    pub coverage: Double,
}

/// The comparison of two videos with its figures.
pub fn score_pair(
    short: &VideoRecord,
    long: &VideoRecord,
    short_frames: usize,
    long_frames: usize,
    figures: PairFigures,
    short_range: Option<MatchRange>,
    long_range: Option<MatchRange>,
) -> (r: AiEdge)
    ensures
        (r.a, r.b) == ai_groups::pair_key(id_or_zero(*short), id_or_zero(*long)),
        r.confidence == figures.confidence,
        r.matched == figures.matched,
        r.compared == comparable(short_frames as int, long_frames as int),
        r.average_similarity == figures.average_similarity,
        r.coverage == figures.coverage,
        r.match_ranges@ == both_ranges(
            id_or_zero(*short),
            short_range,
            id_or_zero(*long),
            long_range,
        ),
{
    let key = edge_key(number_of(short), number_of(long));
    let mut match_ranges: Vec<AiEdgeMatchRange> = Vec::new();
    if let Some(range) = short_range {
        match_ranges.push(AiEdgeMatchRange { video_id: number_of(short), range });
    }
    if let Some(range) = long_range {
        match_ranges.push(AiEdgeMatchRange { video_id: number_of(long), range });
    }
    assert(match_ranges@ =~= both_ranges(
        id_or_zero(*short),
        short_range,
        id_or_zero(*long),
        long_range,
    ));
    AiEdge {
        a: key.0,
        b: key.1,
        confidence: figures.confidence,
        matched: figures.matched,
        compared: comparable_frames(short_frames, long_frames),
        average_similarity: figures.average_similarity,
        coverage: figures.coverage,
        match_ranges,
    }
}

/// How densely two videos match.
#[derive(Debug, Clone, Copy, PartialEq, Eq, Structural)]
pub struct RelationFigures {
    pub short_coverage: Double,
    pub long_compactness: Double,
    pub long_span_seconds: Double,
    pub long_span_fraction: Double,
}

/// How two videos relate, as it is shown: a name, a label and an explanation.
#[derive(Debug, Clone)]
pub struct RelationTexts {
    pub relation_type: String,
    pub relation_label: String,
    pub relation_explanation: String,
}

/// What is shown of a comparison with one of its videos.
pub fn build_match_detail_for_video(
    peer: &VideoRecord,
    range: &MatchRange,
    points: Vec<MatchHitPoint>,
    figures: PairFigures,
    relation: RelationFigures,
    told: &RelationTexts,
) -> (r: MatchDetail)
    ensures
        r.peer_video_id == peer.id,
        r.peer_file_name@ == peer.file_name@,
        r.points@ == points@,
        r.start_seconds == range.start_seconds,
        r.end_seconds == range.end_seconds,
        r.hit_count == figures.matched,
        r.displayed_hit_count == points@.len(),
        r.average_similarity == figures.average_similarity,
        r.confidence == figures.confidence,
        r.short_coverage == relation.short_coverage,
        r.long_compactness == relation.long_compactness,
        r.long_span_seconds == relation.long_span_seconds,
        r.long_span_fraction == relation.long_span_fraction,
        r.relation_type@ == told.relation_type@,
        r.relation_label@ == told.relation_label@,
        r.relation_explanation@ == told.relation_explanation@,
{
    let displayed_hit_count: usize = points.len();
    MatchDetail {
        peer_video_id: peer.id,
        peer_file_name: peer.file_name.clone(),
        points,
        start_seconds: range.start_seconds,
        end_seconds: range.end_seconds,
        hit_count: figures.matched,
        displayed_hit_count,
        average_similarity: figures.average_similarity,
        confidence: figures.confidence,
        short_coverage: relation.short_coverage,
        long_compactness: relation.long_compactness,
        long_span_seconds: relation.long_span_seconds,
        long_span_fraction: relation.long_span_fraction,
        relation_type: told.relation_type.clone(),
        relation_label: told.relation_label.clone(),
        relation_explanation: told.relation_explanation.clone(),
    }
}

/// Whether two details show the same.
pub open spec fn same_detail(a: MatchDetail, b: MatchDetail) -> bool {
    &&& a.peer_video_id == b.peer_video_id
    &&& a.peer_file_name@ == b.peer_file_name@
    &&& a.points@ == b.points@
    &&& a.start_seconds == b.start_seconds
    &&& a.end_seconds == b.end_seconds
    &&& a.hit_count == b.hit_count
    &&& a.displayed_hit_count == b.displayed_hit_count
    &&& a.average_similarity == b.average_similarity
    &&& a.confidence == b.confidence
    &&& a.short_coverage == b.short_coverage
    &&& a.long_compactness == b.long_compactness
    &&& a.long_span_seconds == b.long_span_seconds
    &&& a.long_span_fraction == b.long_span_fraction
    &&& a.relation_type@ == b.relation_type@
    &&& a.relation_label@ == b.relation_label@
    &&& a.relation_explanation@ == b.relation_explanation@
}

fn copy_detail(detail: &MatchDetail) -> (r: MatchDetail)
    ensures
        same_detail(r, *detail),
{
    let mut points: Vec<MatchHitPoint> = Vec::new();
    let mut i: usize = 0;
    while i < detail.points.len()
        invariant
            i <= detail.points@.len(),
            points@ == detail.points@.take(i as int),
        decreases detail.points@.len() - i,
    {
        let point = &detail.points[i];
        points.push(
            MatchHitPoint {
                seconds: point.seconds,
                fraction: point.fraction,
                similarity: point.similarity,
            },
        );
        assert(points@ =~= detail.points@.take(i + 1));
        i += 1;
    }
    assert(points@ =~= detail.points@);
    MatchDetail {
        peer_video_id: detail.peer_video_id,
        peer_file_name: detail.peer_file_name.clone(),
        points,
        start_seconds: detail.start_seconds,
        end_seconds: detail.end_seconds,
        hit_count: detail.hit_count,
        displayed_hit_count: detail.displayed_hit_count,
        average_similarity: detail.average_similarity,
        confidence: detail.confidence,
        short_coverage: detail.short_coverage,
        long_compactness: detail.long_compactness,
        long_span_seconds: detail.long_span_seconds,
        long_span_fraction: detail.long_span_fraction,
        relation_type: detail.relation_type.clone(),
        relation_label: detail.relation_label.clone(),
        relation_explanation: detail.relation_explanation.clone(),
    }
}

/// What is shown of the comparison of two videos with each of them.
#[derive(Debug, Clone)]
pub struct PairDisplayDetail {
    pub left_video_id: i64,
    pub right_video_id: i64,
    pub left_detail: MatchDetail,
    pub right_detail: MatchDetail,
}

/// The detail of a pair that is meant for a video.
pub open spec fn detail_for(detail: PairDisplayDetail, id: Option<i64>) -> Option<MatchDetail> {
    if id == Some(detail.left_video_id) {
        Some(detail.left_detail)
    } else if id == Some(detail.right_video_id) {
        Some(detail.right_detail)
    } else {
        None
    }
}

/// Whether an item shows what it showed, or a detail that is meant for it where that is surer.
pub open spec fn item_shows(before: MatchItem, after: MatchItem, detail: PairDisplayDetail) -> bool {
    &&& after.video == before.video
    &&& after.role == before.role
    &&& after.quality_rank == before.quality_rank
    &&& after.match_ranges == before.match_ranges
    &&& match detail_for(detail, before.video.id) {
        Some(own) => match before.match_detail {
            Some(current) => if current.confidence.lt(own.confidence) {
                after.match_detail matches Some(d) && same_detail(d, own)
            } else {
                after.match_detail == before.match_detail
            },
            None => after.match_detail matches Some(d) && same_detail(d, own),
        },
        None => after.match_detail == before.match_detail,
    }
}

fn show_detail(item: &mut MatchItem, detail: &PairDisplayDetail)
    ensures
        item_shows(*old(item), *final(item), *detail),
{
    if let Some(id) = item.video.id {
        if id == detail.left_video_id {
            set_better_match_detail(item, copy_detail(&detail.left_detail));
        } else if id == detail.right_video_id {
            set_better_match_detail(item, copy_detail(&detail.right_detail));
        }
    }
}

/// Shows the detail of a pair with the videos of a group.
pub fn apply_pair_display_detail(items: &mut Vec<MatchItem>, detail: &PairDisplayDetail)
    ensures
        final(items)@.len() == old(items)@.len(),
        forall|k: int|
            #![trigger final(items)@[k]]
            0 <= k < final(items)@.len() ==> item_shows(
                old(items)@[k],
                final(items)@[k],
                *detail,
            ),
{
    let ghost all = items@;
    let mut i: usize = 0;
    while i < items.len()
        invariant
            i <= items@.len(),
            items@.len() == all.len(),
            forall|k: int|
                #![trigger items@[k]]
                0 <= k < i ==> item_shows(all[k], items@[k], *detail),
            forall|k: int| #![trigger items@[k]] i <= k < items@.len() ==> items@[k] == all[k],
        decreases items@.len() - i,
    {
        show_detail(&mut items[i], detail);
        i += 1;
    }
}

/// The numbers of the videos of a group, of the first `n`.
pub open spec fn item_ids(items: Seq<MatchItem>, n: int) -> Seq<i64>
    decreases n,
{
    if n <= 0 {
        Seq::empty()
    } else {
        match items[n - 1].video.id {
            Some(id) => item_ids(items, n - 1).push(id),
            None => item_ids(items, n - 1),
        }
    }
}

/// The video that leads a group: the one that is kept, else the first.
pub open spec fn leader(group: MatchGroup) -> Option<i64> {
    match group.recommended_video_id {
        Some(id) => Some(id),
        None => if group.items@.len() > 0 {
            group.items@[0].video.id
        } else {
            None
        },
    }
}

/// The comparisons of a group that are shown in detail.
pub open spec fn details_of_group(edges: Seq<AiEdge>, group: MatchGroup) -> Seq<usize> {
    let ids = item_ids(group.items@, group.items@.len() as int);
    ai_report::details_of(edges, ids, leader(group))
}

/// The positions of the comparisons of a group that are shown in detail.
pub fn list_details(edges: &Vec<AiEdge>, group: &MatchGroup) -> (r: Vec<usize>)
    ensures
        r@ == details_of_group(edges@, *group),
        r@.len() <= ai_report::MAX_DETAIL_PAIRS,
        forall|k: int| 0 <= k < r@.len() ==> (#[trigger] r@[k]) < edges@.len(),
{
    let mut ids: Vec<i64> = Vec::new();
    let mut i: usize = 0;
    while i < group.items.len()
        invariant
            i <= group.items@.len(),
            ids@ == item_ids(group.items@, i as int),
        decreases group.items@.len() - i,
    {
        if let Some(id) = group.items[i].video.id {
            ids.push(id);
        }
        i += 1;
    }
    let keeper = match group.recommended_video_id {
        Some(id) => Some(id),
        None => if group.items.len() > 0 {
            group.items[0].video.id
        } else {
            None
        },
    };
    detail_edges_for_group(edges, &ids, keeper)
}

/// The number of comparisons that are shown in detail for the first `n` groups.
pub open spec fn detail_total(edges: Seq<AiEdge>, groups: Seq<MatchGroup>, n: int) -> int
    decreases n,
{
    if n <= 0 {
        0
    } else {
        detail_total(edges, groups, n - 1) + details_of_group(edges, groups[n - 1]).len()
    }
}

/// The number of comparisons that are shown in detail.
pub fn ai_group_detail_pair_count(groups: &Vec<MatchGroup>, edges: &Vec<AiEdge>) -> (r: usize)
    requires
        groups@.len() * ai_report::MAX_DETAIL_PAIRS <= usize::MAX,
    ensures
        r == detail_total(edges@, groups@, groups@.len() as int),
{
    let mut total: usize = 0;
    let mut i: usize = 0;
    while i < groups.len()
        invariant
            i <= groups@.len(),
            groups@.len() * ai_report::MAX_DETAIL_PAIRS <= usize::MAX,
            total == detail_total(edges@, groups@, i as int),
            total <= i * ai_report::MAX_DETAIL_PAIRS,
        decreases groups@.len() - i,
    {
        let list = list_details(edges, &groups[i]);
        total += list.len();
        i += 1;
    }
    total
}

} // verus!
