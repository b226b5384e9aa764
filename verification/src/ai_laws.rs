//! What holds of the comparison of videos by their frames, and of the groups that come of it.
use crate::ai_groups;
use crate::ai_groups::{AiEdge, AiEdgeMatchRange, AiGroupDraft};
use crate::ai_index;
use crate::ai_matching;
use crate::ai_matching::AiMatchStart;
use crate::ai_report;
use crate::alignment;
use crate::double::Double;
use crate::index::VideoIndex;
use crate::merging;
use crate::models::{AiPairScoreRecord, AppSettings, MatchGroup, MatchRange, VideoRecord};
use crate::paths;
use crate::rows;
use crate::stretches;
use crate::text;
use vstd::prelude::*;

verus! {

/// Two videos are one pair, whichever comes first; its smaller id is told first.
pub proof fn law_pairs_have_no_direction(x: i64, y: i64)
    ensures
        ai_groups::pair_key(x, y) == ai_groups::pair_key(y, x),
        ai_groups::pair_key(x, y).0 <= ai_groups::pair_key(x, y).1,
        ai_groups::pair_key(x, y) == (x, y) || ai_groups::pair_key(x, y) == (y, x),
{
}

/// The first `left` of `total` videos make as many pairs with the videos after them as there are.
pub proof fn law_pairs_are_counted(total: int, left: int)
    requires
        0 <= left <= total,
        total * total <= usize::MAX,
        total < usize::MAX,
    ensures
        2 * ai_groups::pairs_from(total, left) == left * (2 * total - left - 1),
{
    assert(left * total <= total * total) by (nonlinear_arith)
        requires
            0 <= left <= total,
    ;
    assert(left * (left + 1) <= 2 * (total * total)) by (nonlinear_arith)
        requires
            0 <= left <= total,
    ;
    assert(left * (left + 1) == left * left + left) by (nonlinear_arith);
    assert(left * (2 * total - left - 1) == 2 * (left * total) - left * left - left)
        by (nonlinear_arith);
    assert(left * left <= left * total) by (nonlinear_arith)
        requires
            0 <= left <= total,
    ;
    lemma_even(left);
    if left == total {
        assert(left * left == left * total);
    } else {
        assert(left * left + left <= left * total) by (nonlinear_arith)
            requires
                0 <= left < total,
        ;
    }
    assert(left * left + left <= total * total + total);
    if left * left + left > usize::MAX {
        assert(left == total) by {
            if left < total {
                assert(left * left + left <= total * total) by (nonlinear_arith)
                    requires
                        0 <= left < total,
                ;
            }
        }
    }
    if left == total {
        if total <= 1 {
            assert(total * total == total) by (nonlinear_arith)
                requires
                    0 <= total <= 1,
            ;
        } else {
            lemma_square_room(total);
        }
    }
}

proof fn lemma_even(n: int)
    ensures
        (n * n + n) % 2 == 0,
{
    let q = n / 2;
    if n % 2 == 0 {
        assert(n * n + n == 2 * (q * (n + 1))) by (nonlinear_arith)
            requires
                n == 2 * q,
        ;
    } else {
        assert(n * n + n == 2 * (n * (q + 1))) by (nonlinear_arith)
            requires
                n == 2 * q + 1,
        ;
    }
}

proof fn lemma_square_room(total: int)
    requires
        2 <= total,
        total * total <= usize::MAX,
    ensures
        total * total + total <= usize::MAX,
{
    if usize::BITS == 64 {
        assert(total <= 0xffff_ffff) by (nonlinear_arith)
            requires
                total * total <= 0xffff_ffff_ffff_ffff,
                2 <= total,
        ;
        assert(total * total + total <= 0xffff_ffff * 0xffff_ffff + 0xffff_ffff)
            by (nonlinear_arith)
            requires
                2 <= total <= 0xffff_ffff,
        ;
    } else {
        assert(total <= 0xffff) by (nonlinear_arith)
            requires
                total * total <= 0xffff_ffff,
                2 <= total,
        ;
        assert(total * total + total <= 0xffff * 0xffff + 0xffff) by (nonlinear_arith)
            requires
                2 <= total <= 0xffff,
        ;
    }
}

/// Any two videos may be compared, unless only those of one folder are to be; then both must lie in
/// one.
pub proof fn law_folders_bound_comparisons(
    videos: Seq<VideoRecord>,
    left: i64,
    right: i64,
)
    ensures
        ai_groups::may_compare(videos, false, left, right),
        ai_groups::may_compare(videos, true, left, right) ==> exists|l: int, r: int|
            #![trigger videos[l], videos[r]]
            0 <= l < videos.len() && 0 <= r < videos.len() && videos[l].id == Some(left)
                && videos[r].id == Some(right) && paths::shares_parent(
                videos[l].path@,
                videos[r].path@,
            ),
{
    crate::merge_laws::law_ids_are_found(videos, left);
    crate::merge_laws::law_ids_are_found(videos, right);
    if ai_groups::may_compare(videos, true, left, right) {
        let l = merging::place(videos, left)->0;
        let r = merging::place(videos, right)->0;
        assert(videos[l].id == Some(left) && videos[r].id == Some(right));
    }
}

/// Every two videos that have frames and may be compared are compared: their score is known, or it is
/// missing and computed; none is both.
pub proof fn law_every_pair_is_compared(
    index: VideoIndex,
    videos: Seq<VideoRecord>,
    settings: AppSettings,
    threshold_text: Seq<char>,
    min_confidence: Double,
    start: AiMatchStart,
    x: i64,
    y: i64,
)
    requires
        ai_matching::starts_from(
            index,
            videos,
            settings,
            threshold_text,
            min_confidence,
            start,
        ),
        x < y,
        ai_matching::is_listed(videos, x),
        ai_matching::is_listed(videos, y),
        ai_matching::has_frames(index.frame_embeddings@, start.model_id@, x),
        ai_matching::has_frames(index.frame_embeddings@, start.model_id@, y),
        ai_groups::may_compare(videos, settings.compare_within_same_folder, x, y),
    ensures
        start.known@.contains((x, y)) != start.missing@.contains((x, y)),
{
    let ids = start.ids@;
    assert(ids.contains(x) && ids.contains(y));
    let i = choose|i: int| 0 <= i < ids.len() && ids[i] == x;
    let j = choose|j: int| 0 <= j < ids.len() && ids[j] == y;
    if j < i {
        assert(ids[j] < ids[i]);
    }
    assert(i < j);
    assert((x, y) == (ids[i], ids[j]));
}

/// No pair is compared that may not be, and no video without frames is.
pub proof fn law_only_allowed_pairs_are_compared(
    index: VideoIndex,
    videos: Seq<VideoRecord>,
    settings: AppSettings,
    threshold_text: Seq<char>,
    min_confidence: Double,
    start: AiMatchStart,
    pair: (i64, i64),
)
    requires
        ai_matching::starts_from(
            index,
            videos,
            settings,
            threshold_text,
            min_confidence,
            start,
        ),
        start.missing@.contains(pair),
    ensures
        pair.0 < pair.1,
        ai_groups::may_compare(videos, settings.compare_within_same_folder, pair.0, pair.1),
        ai_matching::is_listed(videos, pair.0),
        ai_matching::is_listed(videos, pair.1),
        ai_matching::has_frames(index.frame_embeddings@, start.model_id@, pair.0),
        ai_matching::has_frames(index.frame_embeddings@, start.model_id@, pair.1),
        !start.known@.contains(pair),
{
    let ids = start.ids@;
    assert(ai_groups::is_open_pair(
        videos,
        settings.compare_within_same_folder,
        ids,
        start.known@,
        pair,
    ));
    let (i, j) = choose|i: int, j: int|
        #![trigger ids[i], ids[j]]
        0 <= i < j < ids.len() && pair == (ids[i], ids[j]);
    assert(ids.contains(ids[i]) && ids.contains(ids[j]));
}

proof fn lemma_usable(
    videos: Seq<VideoRecord>,
    within_folder: bool,
    scores: Seq<AiPairScoreRecord>,
    listed: Seq<usize>,
    n: int,
    k: int,
)
    requires
        0 <= n <= listed.len(),
        0 <= k < ai_groups::usable_scores(videos, within_folder, scores, listed, n).len(),
    ensures
        ({
            let own = ai_groups::usable_scores(videos, within_folder, scores, listed, n)[k];
            &&& exists|i: int| 0 <= i < n && scores[#[trigger] listed[i] as int] == own
            &&& ai_groups::may_compare(videos, within_folder, own.video_a_id, own.video_b_id)
        }),
    decreases n,
{
    let rest = ai_groups::usable_scores(videos, within_folder, scores, listed, n - 1);
    let all = ai_groups::usable_scores(videos, within_folder, scores, listed, n);
    if k < rest.len() {
        lemma_usable(videos, within_folder, scores, listed, n - 1, k);
        assert(all[k] == rest[k]);
        let i = choose|i: int| 0 <= i < n - 1 && scores[#[trigger] listed[i] as int] == rest[k];
        assert(scores[listed[i] as int] == all[k]);
    } else {
        assert(scores[listed[n - 1] as int] == all[k]);
    }
}

/// What a comparison starts with is stored in the index for the same model and options, and is at
/// least as sure as is asked for.
pub proof fn law_known_matches_are_stored_and_sure(
    index: VideoIndex,
    videos: Seq<VideoRecord>,
    settings: AppSettings,
    threshold_text: Seq<char>,
    min_confidence: Double,
    start: AiMatchStart,
    e: int,
) -> (at: int)
    requires
        ai_matching::starts_from(
            index,
            videos,
            settings,
            threshold_text,
            min_confidence,
            start,
        ),
        0 <= e < start.edges@.len(),
    ensures
        0 <= at < index.pair_scores@.len(),
        index.pair_scores@[at].video_a_id == start.edges@[e].a,
        index.pair_scores@[at].video_b_id == start.edges@[e].b,
        index.pair_scores@[at].confidence == start.edges@[e].confidence,
        index.pair_scores@[at].model_id@ == start.model_id@,
        index.pair_scores@[at].cache_key@ == ai_index::cache_key_text(settings, threshold_text),
        start.min_confidence.le(start.edges@[e].confidence),
        start.min_confidence == min_confidence.clamped(
            Double::of(0),
            Double::of(0x3FF0_0000_0000_0000),
        ),
        ai_groups::may_compare(
            videos,
            settings.compare_within_same_folder,
            start.edges@[e].a,
            start.edges@[e].b,
        ),
{
    let within = settings.compare_within_same_folder;
    let scores = index.pair_scores@;
    let listed = choose|listed: Seq<usize>| #[trigger]
        ai_matching::lists_stored(index, start.model_id@, start.cache_key@, start.ids@, listed)
            && ai_matching::tells_reading(index, start.ids@, listed, start.steps@) && {
            let usable = ai_groups::usable_scores(
                videos,
                within,
                scores,
                listed,
                listed.len() as int,
            );
            &&& start.known@ == ai_groups::known_pairs(usable)
            &&& ai_groups::edges_of(
                start.edges@,
                rows::having(usable, ai_groups::good_enough(start.min_confidence)),
            )
        };
    let usable = ai_groups::usable_scores(videos, within, scores, listed, listed.len() as int);
    let good = ai_groups::good_enough(start.min_confidence);
    let kept = rows::having(usable, good);
    rows::lemma_having(usable, good);
    assert(good(kept[e]) && usable.contains(kept[e]));
    let k = choose|k: int| 0 <= k < usable.len() && usable[k] == kept[e];
    lemma_usable(videos, within, scores, listed, listed.len() as int, k);
    let i = choose|i: int|
        0 <= i < listed.len() && scores[#[trigger] listed[i] as int] == usable[k];
    assert(start.edges@[e].a == kept[e].video_a_id);
    listed[i] as int
}

proof fn lemma_link_of(edges: Seq<AiEdge>, order: Seq<usize>, x: i64, y: i64, n: int)
    requires
        0 <= n <= order.len(),
        forall|k: int| 0 <= k < order.len() ==> (#[trigger] order[k]) < edges.len(),
    ensures
        match ai_groups::link_of(edges, order, x, y, n) {
            Some(e) => e < edges.len() && ((edges[e as int].a == x && edges[e as int].b == y) || (
            edges[e as int].a == y && edges[e as int].b == x)),
            None => forall|k: int|
                0 <= k < n ==> !ai_groups::links(edges[(#[trigger] order[k]) as int], x, y),
        },
    decreases n,
{
    if n > 0 && !ai_groups::links(edges[order[n - 1] as int], x, y) {
        lemma_link_of(edges, order, x, y, n - 1);
    } else if n > 0 {
        let own = edges[order[n - 1] as int];
        law_pairs_have_no_direction(own.a, own.b);
        law_pairs_have_no_direction(x, y);
    }
}

/// Videos are strongly linked only by a comparison of the two that is at least as sure as the
/// threshold.
pub proof fn law_strong_links_are_sure(
    edges: Seq<AiEdge>,
    order: Seq<usize>,
    x: i64,
    y: i64,
    threshold: Double,
) -> (e: int)
    requires
        ai_groups::is_order(edges, order),
        ai_groups::strongly_linked(edges, order, x, y, threshold),
    ensures
        0 <= e < edges.len(),
        (edges[e].a == x && edges[e].b == y) || (edges[e].a == y && edges[e].b == x),
        !edges[e].confidence.lt(threshold),
{
    lemma_link_of(edges, order, x, y, order.len() as int);
    ai_groups::link_of(edges, order, x, y, order.len() as int)->0 as int
}

/// The surest comparisons form their groups first.
pub proof fn law_surest_comparisons_come_first(edges: Seq<AiEdge>, order: Seq<usize>, a: int, b: int)
    requires
        ai_groups::is_order(edges, order),
        0 <= a < b < order.len(),
    ensures
        !edges[order[a] as int].confidence.lt(edges[order[b] as int].confidence),
        edges[order[a] as int].confidence == edges[order[b] as int].confidence
            ==> edges[order[a] as int].matched >= edges[order[b] as int].matched,
{
}

/// Every two videos of a group are linked: by the comparison that the group began with, or by one that
/// is as sure as the threshold.
pub proof fn law_members_are_surely_linked<F: Fn(&Vec<usize>) -> Double>(
    average: F,
    edges: Seq<AiEdge>,
    order: Seq<usize>,
    video_ids: Seq<i64>,
    threshold: Double,
    groups: Seq<AiGroupDraft>,
    p: int,
    i: int,
    j: int,
) -> (e: int)
    requires
        ai_groups::is_order(edges, order),
        ai_groups::all_formed(average, edges, order, video_ids, threshold, groups),
        0 <= p < groups.len(),
        0 <= i < j < groups[p].ids@.len(),
    ensures
        0 <= e < edges.len(),
        (edges[e].a == groups[p].ids@[i] && edges[e].b == groups[p].ids@[j]) || (edges[e].a
            == groups[p].ids@[j] && edges[e].b == groups[p].ids@[i]),
        !edges[e].confidence.lt(threshold) || exists|n: int|
            0 <= n < order.len() && e == #[trigger] order[n] && forall|k: int|
                0 <= k < n ==> ai_groups::is_settled(
                    groups.take(p),
                    edges[(#[trigger] order[k]) as int],
                ),
{
    assert(ai_groups::has_turn(average, edges, order, video_ids, threshold, groups, p));
    let n = choose|n: int| #[trigger]
        ai_groups::is_formed(average, edges, order, video_ids, threshold, groups, p, n);
    let ids = groups[p].ids@;
    let seed = edges[order[n] as int];
    let x = ids[i];
    let y = ids[j];
    if ai_groups::links(seed, x, y) {
        law_pairs_have_no_direction(seed.a, seed.b);
        law_pairs_have_no_direction(x, y);
        let e = order[n] as int;
        assert(e == order[n]);
        e
    } else {
        assert(ai_groups::strongly_linked(edges, order, ids[i], ids[j], threshold));
        law_strong_links_are_sure(edges, order, x, y, threshold)
    }
}

/// Of two videos whose lengths differ little the smaller file is rather dropped; of others the one of
/// lower quality is.
pub proof fn law_larger_or_better_videos_are_kept(a: VideoRecord, b: VideoRecord)
    ensures
        a.size_bytes < b.size_bytes ==> ai_report::keeper_below(a, b, true)
            && !ai_report::keeper_below(b, a, true),
        a.quality_score.lt(b.quality_score) ==> ai_report::keeper_below(a, b, false)
            && !ai_report::keeper_below(b, a, false),
        a.size_bytes == b.size_bytes ==> (ai_report::keeper_below(a, b, true) <==> text::text_less(
            b.path@,
            a.path@,
        )),
        a.quality_score == b.quality_score ==> (ai_report::keeper_below(a, b, false)
            <==> text::text_less(b.path@, a.path@)),
{
}

/// The first video of a group is recommended; of a group of two it is the larger file where their
/// lengths differ little, else the better one, and the other one takes the space that can be won
/// back.
pub proof fn law_best_of_two_is_recommended(
    group: MatchGroup,
    videos: Seq<VideoRecord>,
    edges: Seq<AiEdge>,
    draft: AiGroupDraft,
    members: Seq<usize>,
    close: Seq<Vec<bool>>,
    ranked: Seq<usize>,
    figures: ai_report::GroupFigures,
    worse: int,
    better: int,
)
    requires
        ai_report::shows_group(group, videos, edges, draft, members, ranked, figures),
        ai_report::is_keeper_ranking(videos, members, close, ranked),
        ai_report::is_table(close, 2),
        members.len() == 2,
        0 <= worse < 2,
        better == 1 - worse,
        if close[worse]@[better] {
            videos[members[worse] as int].size_bytes < videos[members[better] as int].size_bytes
        } else {
            videos[members[worse] as int].quality_score.lt(
                videos[members[better] as int].quality_score,
            )
        },
    ensures
        group.recommended_video_id == videos[members[better] as int].id,
        group.reclaimable_bytes == videos[members[worse] as int].size_bytes,
{
    let one = videos[members[worse] as int];
    let other = videos[members[better] as int];
    law_larger_or_better_videos_are_kept(one, other);
    assert(close[worse]@[better] == close[better]@[worse]);
    let k: int = 1;
    let last = ranked[k];
    assert(!ai_report::keeper_below(
        videos[members[ranked[k - 1] as int] as int],
        videos[members[ranked[k] as int] as int],
        close[ranked[k - 1] as int]@[ranked[k] as int],
    ));
    assert(ranked[0] != ranked[1]);
    assert(ranked[0] == better && ranked[1] == worse);
    reveal_with_fuel(ai_report::size_below, 3);
}

/// Groups of similar videos are listed by their confidence, the surest first, then by the space that
/// they win back.
pub proof fn law_surest_groups_come_first(groups: Seq<MatchGroup>, n: int)
    requires
        0 <= n <= groups.len(),
    ensures
        ({
            let sorted = ai_report::groups_sorted(groups, n);
            &&& sorted.len() == n
            &&& sorted.to_multiset() == groups.take(n).to_multiset()
            &&& forall|i: int, j: int|
                #![trigger sorted[i], sorted[j]]
                0 <= i < j < n ==> !sorted[i].confidence.lt(sorted[j].confidence) && (
                sorted[i].confidence == sorted[j].confidence ==> sorted[i].reclaimable_bytes
                    >= sorted[j].reclaimable_bytes)
        }),
    decreases n,
{
    lemma_groups_sorted(groups, n);
}

proof fn lemma_listed_before(list: Seq<MatchGroup>, group: MatchGroup)
    ensures
        ({
            let at = ai_report::listed_before(list, group);
            &&& 0 <= at <= list.len()
            &&& forall|k: int| at <= k < list.len() ==> ai_report::group_first(group, #[trigger] list[k])
            &&& at > 0 ==> !ai_report::group_first(group, list[at - 1])
        }),
    decreases list.len(),
{
    if list.len() > 0 && ai_report::group_first(group, list.last()) {
        lemma_listed_before(list.drop_last(), group);
        let at = ai_report::listed_before(list, group);
        assert forall|k: int| at <= k < list.len() implies ai_report::group_first(
            group,
            #[trigger] list[k],
        ) by {
            if k < list.len() - 1 {
                assert(list.drop_last()[k] == list[k]);
            }
        }
    }
}

proof fn lemma_groups_sorted(groups: Seq<MatchGroup>, n: int)
    requires
        0 <= n <= groups.len(),
    ensures
        ({
            let sorted = ai_report::groups_sorted(groups, n);
            &&& sorted.len() == n
            &&& sorted.to_multiset() == groups.take(n).to_multiset()
            &&& forall|i: int, j: int|
                #![trigger sorted[i], sorted[j]]
                0 <= i < j < n ==> !ai_report::group_first(sorted[j], sorted[i])
        }),
    decreases n,
{
    broadcast use vstd::seq_lib::group_to_multiset_ensures;
    if n > 0 {
        lemma_groups_sorted(groups, n - 1);
        let rest = ai_report::groups_sorted(groups, n - 1);
        let own = groups[n - 1];
        let at = ai_report::listed_before(rest, own);
        lemma_listed_before(rest, own);
        let sorted = ai_report::groups_sorted(groups, n);
        assert(sorted == rest.insert(at, own));
        assert(groups.take(n) =~= groups.take(n - 1).push(own));
        assert(rest.insert(at, own).to_multiset() =~= rest.to_multiset().insert(own)) by {
            vstd::seq_lib::to_multiset_insert(rest, at, own);
        }
        assert forall|i: int, j: int|
            #![trigger sorted[i], sorted[j]]
            0 <= i < j < n implies !ai_report::group_first(sorted[j], sorted[i]) by {
            let a = if i < at {
                i
            } else {
                i - 1
            };
            let b = if j < at {
                j
            } else {
                j - 1
            };
            if i != at && j != at {
                assert(sorted[i] == rest[a] && sorted[j] == rest[b]);
            } else if i == at {
                assert(sorted[j] == rest[b]);
                assert(ai_report::group_first(own, rest[b]));
            } else {
                assert(sorted[i] == rest[a]);
                if a < at - 1 {
                    assert(!ai_report::group_first(rest[at - 1], rest[a]));
                }
            }
        }
    } else {
        assert(groups.take(0) =~= Seq::empty());
    }
}

/// How one video lies in another is told by how much of the shorter one is matched and how compactly
/// that lies in the longer one.
pub proof fn law_relations_follow_coverage(
    coverage: Double,
    compactness: Double,
    ratio: Double,
    span: Double,
)
    ensures
        ({
            let told = ai_report::relation_of(coverage, compactness, ratio, span);
            &&& told is CompleteContainment <==> Double::of(0x3FEA_3D70_A3D7_0A3D).le(coverage)
                && Double::of(0x3FE1_9999_9999_999A).le(compactness) && Double::of(
                0x3FE3_3333_3333_3333,
            ).le(ratio) && ratio.le(Double::of(0x3FF8_CCCC_CCCC_CCCD))
            &&& told is PartialContainment ==> Double::of(0x3FE1_9999_9999_999A).le(coverage)
                && Double::of(0x3FDC_CCCC_CCCC_CCCD).le(compactness) && ratio.le(
                Double::of(0x4000_0000_0000_0000),
            )
            &&& told is CompactEdit ==> Double::of(0x3FE1_9999_9999_999A).le(compactness)
                && span.le(Double::of(0x3FD0_0000_0000_0000))
            &&& Double::of(0x3FE1_9999_9999_999A).le(coverage) && Double::of(
                0x3FDC_CCCC_CCCC_CCCD,
            ).le(compactness) && ratio.le(Double::of(0x4000_0000_0000_0000)) ==> told
                is CompleteContainment || told is PartialContainment
            &&& Double::of(0x3FE1_9999_9999_999A).le(compactness) && span.le(
                Double::of(0x3FD0_0000_0000_0000),
            ) ==> !(told is NotContained)
        }),
{
}

/// Where only frames in step may match, they stand at most two places apart.
pub proof fn law_frames_in_step_are_near(row: int, column: int)
    ensures
        alignment::near(true, row, column),
        alignment::near(false, row, column) <==> -2 <= row - column <= 2,
{
}

/// The longest row of matches that runs forward is there.
pub proof fn law_longest_is_reached(grid: Seq<Seq<bool>>, r: int, c: int) -> (points: Seq<(int, int)>)
    requires
        r >= 0,
        c >= 0,
    ensures
        points.len() == alignment::longest(grid, r, c),
        forall|k: int|
            #![trigger points[k]]
            0 <= k < points.len() ==> 0 <= points[k].0 < r && 0 <= points[k].1 < c
                && grid[points[k].0][points[k].1],
        forall|i: int, j: int|
            #![trigger points[i], points[j]]
            0 <= i < j < points.len() ==> points[i].0 < points[j].0 && points[i].1 < points[j].1,
    decreases r + c,
{
    if r <= 0 || c <= 0 {
        Seq::empty()
    } else {
        let up = alignment::longest(grid, r - 1, c);
        let left = alignment::longest(grid, r, c - 1);
        let both = alignment::longest(grid, r - 1, c - 1) + 1;
        let best = if left > up {
            left
        } else {
            up
        };
        if grid[r - 1][c - 1] && both > best {
            let rest = law_longest_is_reached(grid, r - 1, c - 1);
            rest.push((r - 1, c - 1))
        } else if left > up {
            law_longest_is_reached(grid, r, c - 1)
        } else {
            law_longest_is_reached(grid, r - 1, c)
        }
    }
}

proof fn lemma_decimal_digits(n: nat)
    ensures
        text::decimal(n).len() > 0,
        n >= 10 ==> text::decimal(n).len() > 1,
    decreases n,
{
    if n >= 10 {
        lemma_decimal_digits(n / 10);
    }
}

/// Different numbers are written differently.
pub proof fn law_numbers_are_written_apart(m: nat, n: nat)
    requires
        text::decimal(m) == text::decimal(n),
    ensures
        m == n,
    decreases m,
{
    lemma_decimal_digits(m);
    lemma_decimal_digits(n);
    let a = text::decimal(m);
    let b = text::decimal(n);
    let x = (('0' as u32) + m % 10) as char;
    let y = (('0' as u32) + n % 10) as char;
    assert(a.last() == x) by {
        if m < 10 {
            assert(m % 10 == m);
        }
    }
    assert(b.last() == y) by {
        if n < 10 {
            assert(n % 10 == n);
        }
    }
    assert(x as int == 48 + m % 10);
    assert(y as int == 48 + n % 10);
    assert(m % 10 == n % 10);
    if m >= 10 {
        assert(n >= 10) by {
            if n < 10 {
                assert(b.len() == 1);
            }
        }
        assert(a.drop_last() =~= text::decimal(m / 10));
        assert(b.drop_last() =~= text::decimal(n / 10));
        law_numbers_are_written_apart(m / 10, n / 10);
    } else {
        assert(n < 10) by {
            if n >= 10 {
                assert(a.len() == 1);
            }
        }
    }
}

/// Scores that were computed with other numbers of frames, or with or without the matching of parts,
/// are kept apart.
pub proof fn law_options_keep_scores_apart(
    one: AppSettings,
    other: AppSettings,
    threshold_text: Seq<char>,
)
    requires
        ai_index::cache_key_text(one, threshold_text) == ai_index::cache_key_text(
            other,
            threshold_text,
        ),
    ensures
        8 <= one.ai_frame_count <= 512 && 8 <= other.ai_frame_count <= 512
            && one.ai_min_matched_frames == other.ai_min_matched_frames
            && one.ai_clip_matching_enabled == other.ai_clip_matching_enabled
            ==> one.ai_frame_count == other.ai_frame_count,
        1 <= one.ai_min_matched_frames <= 128 && 1 <= other.ai_min_matched_frames <= 128
            && one.ai_frame_count == other.ai_frame_count && one.ai_clip_matching_enabled
            == other.ai_clip_matching_enabled ==> one.ai_min_matched_frames
            == other.ai_min_matched_frames,
        one.ai_frame_count == other.ai_frame_count && one.ai_min_matched_frames
            == other.ai_min_matched_frames ==> one.ai_clip_matching_enabled
            == other.ai_clip_matching_enabled,
{
    let a = ai_index::cache_key_text(one, threshold_text);
    let b = ai_index::cache_key_text(other, threshold_text);
    let head = "ai-match-v4|frames="@;
    let frames = "|frame_threshold="@ + threshold_text + "|min_frames="@;
    let clip = "|clip="@;
    let f1 = text::decimal(crate::digest::kept_frame_count(one.ai_frame_count as int) as nat);
    let f2 = text::decimal(crate::digest::kept_frame_count(other.ai_frame_count as int) as nat);
    let m1 = text::decimal(
        crate::matching::within(one.ai_min_matched_frames as int, 1, 128) as nat,
    );
    let m2 = text::decimal(
        crate::matching::within(other.ai_min_matched_frames as int, 1, 128) as nat,
    );
    let t1 = ai_index::truth(one.ai_clip_matching_enabled);
    let t2 = ai_index::truth(other.ai_clip_matching_enabled);
    assert(a =~= head + f1 + (frames + m1 + clip + t1));
    assert(b =~= head + f2 + (frames + m2 + clip + t2));
    if m1 == m2 && t1 == t2 {
        lemma_middles(head, f1, f2, frames + m1 + clip + t1);
        if 8 <= one.ai_frame_count <= 512 && 8 <= other.ai_frame_count <= 512 {
            law_numbers_are_written_apart(
                one.ai_frame_count as nat,
                other.ai_frame_count as nat,
            );
        }
    }
    if f1 == f2 && t1 == t2 {
        assert(a =~= (head + f1 + frames) + m1 + (clip + t1));
        assert(b =~= (head + f1 + frames) + m2 + (clip + t1));
        lemma_middles(head + f1 + frames, m1, m2, clip + t1);
        if 1 <= one.ai_min_matched_frames <= 128 && 1 <= other.ai_min_matched_frames <= 128 {
            law_numbers_are_written_apart(
                one.ai_min_matched_frames as nat,
                other.ai_min_matched_frames as nat,
            );
        }
    }
    if f1 == f2 && m1 == m2 {
        reveal_strlit("true");
        reveal_strlit("false");
        assert(a.len() - t1.len() == b.len() - t2.len());
        assert(t1.len() == t2.len());
    }
}

proof fn lemma_middles(head: Seq<char>, one: Seq<char>, other: Seq<char>, tail: Seq<char>)
    requires
        head + one + tail == head + other + tail,
    ensures
        one == other,
{
    let a = head + one + tail;
    let b = head + other + tail;
    assert(a.len() == b.len());
    assert(one =~= a.subrange(head.len() as int, (head.len() + one.len()) as int));
    assert(other =~= b.subrange(head.len() as int, (head.len() + other.len()) as int));
}

/// The stretches that are shown of a video are its own, and run forward.
pub proof fn law_shown_stretches_are_own(
    list: Seq<AiEdgeMatchRange>,
    video_id: i64,
    n: int,
    range: MatchRange,
)
    requires
        0 <= n <= list.len(),
    ensures
        stretches::own_ranges(list, video_id, n).contains(range) <==> exists|k: int|
            0 <= k < n && (#[trigger] list[k]).video_id == video_id && list[k].range == range
                && range.start_fraction.finite() && range.end_fraction.finite()
                && range.start_fraction.lt(range.end_fraction),
    decreases n,
{
    if n > 0 {
        law_shown_stretches_are_own(list, video_id, n - 1, range);
        let rest = stretches::own_ranges(list, video_id, n - 1);
        let all = stretches::own_ranges(list, video_id, n);
        if rest.contains(range) {
            let at = choose|at: int| 0 <= at < rest.len() && rest[at] == range;
            assert(all[at] == range);
        }
        if list[n - 1].video_id == video_id && list[n - 1].range == range && stretches::covers(
            range,
        ) {
            assert(all[rest.len() as int] == range);
        }
        if all.contains(range) && !rest.contains(range) {
            let at = choose|at: int| 0 <= at < all.len() && all[at] == range;
            if at < rest.len() {
                assert(rest[at] == range);
            }
            assert(list[n - 1].video_id == video_id);
        }
    }
}

proof fn lemma_done_after(videos: Seq<VideoRecord>, done: Seq<i64>, n: int, id: i64)
    requires
        0 <= n <= videos.len(),
    ensures
        ai_index::done_after(videos, done, n).contains(id) <==> done.contains(id) || exists|k: int|
            0 <= k < n && (#[trigger] videos[k]).id == Some(id),
    decreases n,
{
    if n > 0 {
        lemma_done_after(videos, done, n - 1, id);
        let rest = ai_index::done_after(videos, done, n - 1);
        let all = ai_index::done_after(videos, done, n);
        if rest.contains(id) {
            let at = choose|at: int| 0 <= at < rest.len() && rest[at] == id;
            assert(all[at] == id);
        }
        if videos[n - 1].id == Some(id) && !rest.contains(id) {
            assert(all[rest.len() as int] == id);
        }
        if all.contains(id) && !rest.contains(id) {
            let at = choose|at: int| 0 <= at < all.len() && all[at] == id;
            if at < rest.len() {
                assert(rest[at] == id);
            }
            assert(videos[n - 1].id == Some(id));
        }
    }
}

/// The videos that are left for the model are those that are not done, each once.
pub proof fn law_each_video_is_left_once(
    videos: Seq<VideoRecord>,
    done: Seq<i64>,
    n: int,
    i: int,
)
    requires
        0 <= n <= videos.len() <= usize::MAX,
        0 <= i < n,
    ensures
        ai_index::left_to_index(videos, done, n).contains(i as usize) <==> videos[i].id is Some
            && !done.contains(videos[i].id->0) && forall|k: int|
            0 <= k < i ==> (#[trigger] videos[k]).id != videos[i].id,
    decreases n,
{
    let rest = ai_index::left_to_index(videos, done, n - 1);
    let all = ai_index::left_to_index(videos, done, n);
    lemma_left_places(videos, done, n - 1);
    if i < n - 1 {
        law_each_video_is_left_once(videos, done, n - 1, i);
        if rest.contains(i as usize) {
            let at = choose|at: int| 0 <= at < rest.len() && rest[at] == i as usize;
            assert(all[at] == i as usize);
        }
        if all.contains(i as usize) {
            let at = choose|at: int| 0 <= at < all.len() && all[at] == i as usize;
            if at < rest.len() {
                assert(rest[at] == i as usize);
            }
        }
    } else {
        if let Some(id) = videos[i].id {
            lemma_done_after(videos, done, n - 1, id);
            if !ai_index::done_after(videos, done, n - 1).contains(id) {
                assert(all[rest.len() as int] == i as usize);
            }
        }
        if all.contains(i as usize) {
            let at = choose|at: int| 0 <= at < all.len() && all[at] == i as usize;
            if at < rest.len() {
                assert(rest[at] < n - 1);
            }
        }
    }
}

proof fn lemma_left_places(videos: Seq<VideoRecord>, done: Seq<i64>, n: int)
    requires
        0 <= n <= videos.len() <= usize::MAX,
    ensures
        forall|k: int|
            0 <= k < ai_index::left_to_index(videos, done, n).len()
                ==> (#[trigger] ai_index::left_to_index(videos, done, n)[k]) < n,
    decreases n,
{
    if n > 0 {
        lemma_left_places(videos, done, n - 1);
        let rest = ai_index::left_to_index(videos, done, n - 1);
        let all = ai_index::left_to_index(videos, done, n);
        assert forall|k: int| 0 <= k < all.len() implies (#[trigger] all[k]) < n by {
            if k < rest.len() {
                assert(all[k] == rest[k]);
            }
        }
    }
}

/// A model path is kept where it is absolute, and lies under the root where it is not; an empty one
/// stays empty.
pub proof fn law_model_paths_are_found(
    path: Seq<char>,
    is_absolute: bool,
    root: paths::RootData,
)
    ensures
        text::trimmed(path).len() == 0 ==> ai_index::model_location(path, is_absolute, root).len()
            == 0,
        text::trimmed(path).len() > 0 && is_absolute ==> ai_index::model_location(
            path,
            is_absolute,
            root,
        ) == text::trimmed(path),
        text::trimmed(path).len() > 0 && !is_absolute && root.path.len() > 2
            && crate::merge_laws::is_file_name(root.host, text::trimmed(path))
            ==> root.path.is_prefix_of(ai_index::model_location(path, is_absolute, root))
            && text::has_suffix(
            ai_index::model_location(path, is_absolute, root),
            text::trimmed(path),
        ),
{
    let own = text::trimmed(path);
    if own.len() > 0 && !is_absolute && root.path.len() > 2 && crate::merge_laws::is_file_name(
        root.host,
        own,
    ) {
        crate::merge_laws::law_names_are_joined_to_folders(root.host, root.path, own);
        let at = ai_index::model_location(path, is_absolute, root);
        assert(root.path =~= at.subrange(0, root.path.len() as int));
        assert(at.skip(at.len() - own.len()) =~= own);
    }
}

} // verus!
