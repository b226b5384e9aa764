//! What a higher confidence asked for does to the groups of videos.
use crate::double::Double;
use crate::groups;
use crate::groups::{PairMatch, Pool, QualityFacts};
use crate::matching;
use crate::matching::{DurationRelation, MatchKind, MatchOptions, PairFinding};
use crate::models;
use crate::models::{MatchGroup, VideoRecord};
use crate::pairing;
use crate::pairing::PairScore;
use crate::reports;
use vstd::prelude::*;

verus! {

/// The options with another confidence asked for.
pub open spec fn asking(options: MatchOptions, min_confidence: Double) -> MatchOptions {
    MatchOptions { min_confidence, ..options }
}

/// Whether two groups are shown alike.
pub open spec fn same_group(a: MatchGroup, b: MatchGroup) -> bool {
    &&& a.id@ == b.id@
    &&& a.title@ == b.title@
    &&& a.kind@ == b.kind@
    &&& a.confidence == b.confidence
    &&& a.recommended_video_id == b.recommended_video_id
    &&& a.reclaimable_bytes == b.reclaimable_bytes
    &&& a.item_count == b.item_count
    &&& models::texts(a.evidence@) == models::texts(b.evidence@)
    &&& a.items@.len() == b.items@.len()
    &&& forall|i: int|
        #![trigger a.items@[i]]
        0 <= i < a.items@.len() ==> {
            &&& a.items@[i].video@ == b.items@[i].video@
            &&& a.items@[i].role@ == b.items@[i].role@
            &&& a.items@[i].quality_rank == b.items@[i].quality_rank
        }
}

/// Whether two matches say the same.
spec fn same_pair(a: PairMatch, b: PairMatch) -> bool {
    &&& a.left == b.left
    &&& a.right == b.right
    &&& a.kind == b.kind
    &&& a.confidence == b.confidence
    &&& models::texts(a.evidence@) == models::texts(b.evidence@)
}

/// Whether two pools differ in the confidence asked for alone, the second one asking for more, and
/// every match is sure enough to hold a group together.
spec fn are_steps(low: Pool, high: Pool) -> bool {
    &&& high.videos == low.videos
    &&& high.facts == low.facts
    &&& high.pairs.len() == low.pairs.len()
    &&& forall|k: int|
        0 <= k < low.pairs.len() ==> same_pair(#[trigger] low.pairs[k], high.pairs[k])
    &&& high.options == asking(low.options, high.options.min_confidence)
    &&& low.pairs.len() <= usize::MAX
    &&& Double::of(matching::ZERO).le(low.options.min_confidence)
    &&& low.options.min_confidence.le(high.options.min_confidence)
    &&& forall|k: int|
        0 <= k < low.pairs.len() ==> Double::of(matching::HALF).le(
            (#[trigger] low.pairs[k]).confidence,
        )
}

proof fn lemma_same_kept(low: Pool, high: Pool, n: int)
    requires
        are_steps(low, high),
        n <= low.pairs.len(),
    ensures
        groups::kept_positions(low.videos, low.options, low.pairs, n) == groups::kept_positions(
            high.videos,
            high.options,
            high.pairs,
            n,
        ),
    decreases n,
{
    if n > 0 {
        lemma_same_kept(low, high, n - 1);
        assert(Double::of(matching::HALF).le(low.pairs[n - 1].confidence));
        assert(same_pair(low.pairs[n - 1], high.pairs[n - 1]));
    }
}

/// Whether two such pools keep the same matches, which make the same links.
spec fn keep_same(low: Pool, high: Pool) -> bool {
    &&& low.kept() == high.kept()
    &&& low.links() == high.links()
    &&& forall|k: int|
        0 <= k < low.kept().len() ==> same_pair(#[trigger] low.kept_pair(k), high.kept_pair(k))
}

proof fn lemma_keep_same(low: Pool, high: Pool)
    requires
        are_steps(low, high),
    ensures
        keep_same(low, high),
{
    lemma_same_kept(low, high, low.pairs.len() as int);
    assert forall|k: int| 0 <= k < low.kept().len() implies same_pair(
        #[trigger] low.kept_pair(k),
        high.kept_pair(k),
    ) && low.links()[k] == high.links()[k] by {
        groups::lemma_kept(low, low.pairs.len() as int, k);
        assert(same_pair(low.pairs[low.kept()[k] as int], high.pairs[low.kept()[k] as int]));
    }
    assert forall|k: int| 0 <= k < low.links().len() implies low.links()[k] == high.links()[k] by {
        assert(same_pair(low.kept_pair(k), high.kept_pair(k)));
    }
    assert(low.links() =~= high.links());
}

proof fn lemma_same_evidence(low: Pool, high: Pool, root: int, n: int)
    requires
        are_steps(low, high),
        keep_same(low, high),
        n <= low.kept().len(),
    ensures
        low.evidence(root, n) == high.evidence(root, n),
    decreases n,
{
    if n > 0 {
        lemma_same_evidence(low, high, root, n - 1);
        assert(low.in_group(root, n - 1) == high.in_group(root, n - 1));
        assert(same_pair(low.kept_pair(n - 1), high.kept_pair(n - 1)));
    }
}

/// Whether one of the first `n` kept matches of a group is shown.
spec fn shows_some(pool: Pool, root: int, n: int) -> bool {
    exists|k: int| 0 <= k < n && #[trigger] pool.shown(root, k)
}

proof fn lemma_tops(low: Pool, high: Pool, root: int, n: int)
    requires
        are_steps(low, high),
        keep_same(low, high),
        0 <= n <= low.kept().len(),
    ensures
        !low.top(root, n).nan(),
        shows_some(high, root, n) ==> high.top(root, n) == low.top(root, n)
            && high.options.min_confidence.le(low.top(root, n)),
        !shows_some(high, root, n) ==> high.top(root, n) == Double::of(matching::ZERO) && (low.top(
            root,
            n,
        ) == Double::of(matching::ZERO) || low.top(root, n).lt(high.options.min_confidence)),
    decreases n,
{
    if n > 0 {
        lemma_tops(low, high, root, n - 1);
        groups::lemma_kept(low, low.pairs.len() as int, n - 1);
        let c = low.kept_pair(n - 1).confidence;
        assert(Double::of(matching::HALF).le(c));
        assert(low.in_group(root, n - 1) == high.in_group(root, n - 1));
        assert(same_pair(low.kept_pair(n - 1), high.kept_pair(n - 1)));
        if high.shown(root, n - 1) {
            assert(low.shown(root, n - 1));
            assert(shows_some(high, root, n));
        } else {
            assert(shows_some(high, root, n) == shows_some(high, root, n - 1)) by {
                if shows_some(high, root, n) {
                    let k = choose|k: int| 0 <= k < n && #[trigger] high.shown(root, k);
                    assert(k < n - 1);
                }
                if shows_some(high, root, n - 1) {
                    let k = choose|k: int| 0 <= k < n - 1 && #[trigger] high.shown(root, k);
                    assert(high.shown(root, k));
                }
            }
        }
    }
}

proof fn lemma_visible(low: Pool, high: Pool, root: int)
    requires
        are_steps(low, high),
        keep_same(low, high),
    ensures
        high.visible(root) <==> low.visible(root) && high.options.min_confidence.le(
            low.top(root, low.kept().len() as int),
        ),
        high.visible(root) ==> high.top(root, low.kept().len() as int) == low.top(
            root,
            low.kept().len() as int,
        ),
{
    let n = low.kept().len() as int;
    lemma_tops(low, high, root, n);
    assert(high.visible(root) == shows_some(high, root, n));
    if high.visible(root) {
        let k = choose|k: int| 0 <= k < n && #[trigger] high.shown(root, k);
        assert(low.in_group(root, k) == high.in_group(root, k));
        assert(same_pair(low.kept_pair(k), high.kept_pair(k)));
        assert(low.shown(root, k));
    }
    if low.visible(root) && high.options.min_confidence.le(low.top(root, n)) {
        let k = choose|k: int| 0 <= k < n && #[trigger] low.shown(root, k);
        if !shows_some(high, root, n) {
            groups::lemma_kept(low, low.pairs.len() as int, k);
            assert(Double::of(matching::HALF).le(low.kept_pair(k).confidence));
            assert(low.in_group(root, k) == high.in_group(root, k));
            assert(same_pair(low.kept_pair(k), high.kept_pair(k)));
            assert(high.shown(root, k));
        }
    }
}

proof fn lemma_same_kind(low: Pool, high: Pool, root: int, kind: MatchKind)
    requires
        are_steps(low, high),
        keep_same(low, high),
    ensures
        low.has_kind(root, kind) == high.has_kind(root, kind),
{
    if low.has_kind(root, kind) {
        let k = choose|k: int|
            0 <= k < low.kept().len() && #[trigger] low.in_group(root, k) && low.kept_pair(k).kind
                == kind;
        assert(high.in_group(root, k));
        assert(same_pair(low.kept_pair(k), high.kept_pair(k)));
    }
    if high.has_kind(root, kind) {
        let k = choose|k: int|
            0 <= k < high.kept().len() && #[trigger] high.in_group(root, k) && high.kept_pair(
                k,
            ).kind == kind;
        assert(low.in_group(root, k));
        assert(same_pair(low.kept_pair(k), high.kept_pair(k)));
    }
}

proof fn lemma_shown_alike(
    low: Pool,
    high: Pool,
    root: int,
    number: nat,
    a: MatchGroup,
    ranked_a: Seq<usize>,
    b: MatchGroup,
    ranked_b: Seq<usize>,
)
    requires
        are_steps(low, high),
        keep_same(low, high),
        high.visible(root),
        groups::describes(low, root, number, ranked_a, a),
        groups::describes(high, root, number, ranked_b, b),
    ensures
        same_group(a, b),
{
    lemma_visible(low, high, root);
    lemma_same_evidence(low, high, root, low.kept().len() as int);
    lemma_same_kind(low, high, root, MatchKind::Clip);
    lemma_same_kind(low, high, root, MatchKind::Transcode);
    assert(low.members(root) == high.members(root));
    assert(ranked_a == ranked_b);
    assert forall|i: int| #![trigger a.items@[i]] 0 <= i < a.items@.len() implies {
        &&& a.items@[i].video@ == b.items@[i].video@
        &&& a.items@[i].role@ == b.items@[i].role@
        &&& a.items@[i].quality_rank == b.items@[i].quality_rank
    } by {
        assert(b.items@[i].quality_rank == i + 1);
    }
}

/// Whether the groups at some places of a list are those of another one, in order.
pub open spec fn picks(more: Seq<MatchGroup>, places: Seq<int>, fewer: Seq<MatchGroup>) -> bool {
    &&& places.len() == fewer.len()
    &&& forall|k: int|
        0 <= k < fewer.len() ==> 0 <= #[trigger] places[k] < more.len() && same_group(
            more[places[k]],
            fewer[k],
        )
    &&& forall|j: int, k: int|
        #![trigger places[j], places[k]]
        0 <= j < k < places.len() ==> places[j] < places[k]
}

proof fn lemma_steps_drop_groups(
    a: Pool,
    b: Pool,
    more: Seq<MatchGroup>,
    fewer: Seq<MatchGroup>,
) -> (places: Seq<int>)
    requires
        are_steps(a, b),
        groups::lists(a, more),
        groups::lists(b, fewer),
    ensures
        picks(more, places, fewer),
        forall|j: int|
            0 <= j < more.len() ==> (b.options.min_confidence.le((#[trigger] more[j]).confidence)
                <==> places.contains(j)),
{
    let high = b.options.min_confidence;
    lemma_keep_same(a, b);
    let roots = a.roots();
    assert(b.roots() == roots);
    let (order_a, ranks_a) = choose|order: Seq<int>, ranks: Seq<Seq<usize>>| #[trigger]
        groups::is_listing(a, order, ranks, more);
    let (order_b, ranks_b) = choose|order: Seq<int>, ranks: Seq<Seq<usize>>| #[trigger]
        groups::is_listing(b, order, ranks, fewer);
    let places = Seq::new(
        fewer.len(),
        |k: int| choose|j: int| 0 <= j < more.len() && order_a[j] == order_b[k],
    );
    assert forall|k: int| 0 <= k < fewer.len() implies 0 <= #[trigger] places[k] < more.len()
        && order_a[places[k]] == order_b[k] && same_group(more[places[k]], fewer[k]) by {
        let i = order_b[k];
        assert(order_b.contains(i));
        assert(0 <= i < roots.len());
        assert(b.visible(roots[i]));
        lemma_visible(a, b, roots[i]);
        assert(order_a.contains(i));
        let j = choose|j: int| 0 <= j < order_a.len() && order_a[j] == i;
        assert(0 <= j < more.len() && order_a[j] == order_b[k]);
        let p = places[k];
        assert(groups::describes_at(a, roots, order_a, ranks_a, more, p));
        assert(groups::describes_at(b, roots, order_b, ranks_b, fewer, k));
        lemma_shown_alike(
            a,
            b,
            roots[i],
            (i + 1) as nat,
            more[p],
            ranks_a[p],
            fewer[k],
            ranks_b[k],
        );
    }
    assert forall|j: int, k: int|
        #![trigger places[j], places[k]]
        0 <= j < k < places.len() implies places[j] < places[k] by {
        let p = places[j];
        let q = places[k];
        assert(groups::listed_before(fewer[j], order_b[j], fewer[k], order_b[k]));
        assert(same_group(more[p], fewer[j]) && same_group(more[q], fewer[k]));
        if p == q {
            assert(order_b[j] != order_b[k]);
        } else if q < p {
            assert(groups::listed_before(more[q], order_a[q], more[p], order_a[p]));
        }
    }
    assert forall|j: int| 0 <= j < more.len() implies (high.le((#[trigger] more[j]).confidence)
        <==> places.contains(j)) by {
        let i = order_a[j];
        assert(order_a.contains(i));
        assert(0 <= i < roots.len());
        assert(groups::describes_at(a, roots, order_a, ranks_a, more, j));
        lemma_visible(a, b, roots[i]);
        assert(a.visible(roots[i]));
        if high.le(more[j].confidence) {
            assert(b.visible(roots[i]));
            assert(order_b.contains(i));
            let k = choose|k: int| 0 <= k < order_b.len() && order_b[k] == i;
            assert(order_a[places[k]] == order_b[k]);
            assert(places[k] == j);
            assert(places.contains(j));
        }
        if places.contains(j) {
            let k = choose|k: int| 0 <= k < places.len() && places[k] == j;
            assert(order_a[places[k]] == order_b[k]);
            assert(order_b.contains(order_b[k]));
            assert(b.visible(roots[i]));
        }
    }
    places
}

/// Asking for more confidence only drops whole groups: what is left are the groups that are as sure
/// as asked for, each with its videos, its recommended one and its confidence, in their order.
/// Every match is as sure as it takes to hold a group together at all.
pub proof fn law_raising_the_threshold_drops_whole_groups(
    videos: Seq<VideoRecord>,
    pairs: Seq<PairMatch>,
    options: MatchOptions,
    facts: QualityFacts,
    low: Double,
    high: Double,
    more: Seq<MatchGroup>,
    fewer: Seq<MatchGroup>,
) -> (places: Seq<int>)
    requires
        Double::of(matching::ZERO).le(low),
        low.le(high),
        high.le(Double::of(matching::ONE)),
        pairs.len() <= usize::MAX,
        forall|k: int|
            0 <= k < pairs.len() ==> Double::of(matching::HALF).le(
                (#[trigger] pairs[k]).confidence,
            ),
        groups::lists(groups::pool_of(videos, pairs, asking(options, low), facts), more),
        groups::lists(groups::pool_of(videos, pairs, asking(options, high), facts), fewer),
    ensures
        picks(more, places, fewer),
        forall|j: int|
            0 <= j < more.len() ==> (high.le((#[trigger] more[j]).confidence)
                <==> places.contains(j)),
{
    let a = groups::pool_of(videos, pairs, asking(options, low), facts);
    let b = groups::pool_of(videos, pairs, asking(options, high), facts);
    assert(a.options.min_confidence == low);
    assert(b.options.min_confidence == high);
    assert(are_steps(a, b));
    lemma_steps_drop_groups(a, b, more, fewer)
}

/// Whether the relation of the lengths of two videos is always told alike.
pub open spec fn relates_alike<F: Fn(usize, usize) -> DurationRelation>(relation: F) -> bool {
    forall|l: usize, r: usize, a: DurationRelation, b: DurationRelation|
        #![trigger call_ensures(relation, (l, r), a), call_ensures(relation, (l, r), b)]
        call_ensures(relation, (l, r), a) && call_ensures(relation, (l, r), b) ==> a == b
}

/// Whether two scores say the same.
pub open spec fn same_score(a: PairScore, b: PairScore) -> bool {
    &&& a.confidence == b.confidence
    &&& a.texts.average_distance@ == b.texts.average_distance@
    &&& a.texts.length_percent@ == b.texts.length_percent@
    &&& a.texts.title_percent@ == b.texts.title_percent@
}

/// Whether a finding is always scored alike, and as sure as it takes to hold a group together.
pub open spec fn scores_alike<G: Fn(usize, usize, PairFinding) -> PairScore>(score: G) -> bool {
    &&& forall|found: (usize, usize, PairFinding), a: PairScore, b: PairScore|
        #![trigger call_ensures(score, found, a), call_ensures(score, found, b)]
        call_ensures(score, found, a) && call_ensures(score, found, b) ==> same_score(a, b)
    &&& forall|found: (usize, usize, PairFinding), own: PairScore| #[trigger]
        call_ensures(score, found, own) ==> Double::of(matching::HALF).le(own.confidence)
}

/// A pair that one comparison of all videos found is found by another one too, with the same
/// finding.
proof fn lemma_found_too<F: Fn(usize, usize) -> DurationRelation>(
    relation: F,
    videos: Seq<VideoRecord>,
    one: MatchOptions,
    other: MatchOptions,
    found: Seq<(usize, usize, PairFinding)>,
    again: Seq<(usize, usize, PairFinding)>,
    k: int,
) -> (m: int)
    requires
        relates_alike(relation),
        one == asking(other, one.min_confidence),
        pairing::are_findings(relation, videos, one, found, videos.len() as int, 0),
        pairing::are_findings(relation, videos, other, again, videos.len() as int, 0),
        0 <= k < found.len(),
    ensures
        0 <= m < again.len(),
        again[m] == found[k],
{
    let (l, r, finding) = found[k];
    assert(found[k].0 < found[k].1 < videos.len());
    assert(groups::pair_allowed(
        videos,
        one.compare_within_same_folder,
        l as int,
        r as int,
    ));
    assert(pairing::gives(relation, videos, one, l, r, Some(finding)));
    let a = choose|a: DurationRelation| #[trigger]
        call_ensures(relation, (l, r), a) && Some(finding) == matching::finding(
            videos[l as int]@,
            videos[r as int]@,
            a,
            one,
        );
    assert(matching::finding(videos[l as int]@, videos[r as int]@, a, one) == matching::finding(
        videos[l as int]@,
        videos[r as int]@,
        a,
        other,
    ));
    assert(groups::pair_allowed(
        videos,
        other.compare_within_same_folder,
        l as int,
        r as int,
    ));
    if !pairing::is_found(again, l as int, r as int) {
        assert(pairing::gives(relation, videos, other, l, r, None));
        let b = choose|b: DurationRelation| #[trigger]
            call_ensures(relation, (l, r), b) && None::<PairFinding> == matching::finding(
                videos[l as int]@,
                videos[r as int]@,
                b,
                other,
            );
        assert(a == b);
    }
    let m = choose|m: int|
        0 <= m < again.len() && (#[trigger] again[m]).0 == l && again[m].1 == r;
    assert(pairing::gives(relation, videos, other, l, r, Some(again[m].2)));
    let b = choose|b: DurationRelation| #[trigger]
        call_ensures(relation, (l, r), b) && Some(again[m].2) == matching::finding(
            videos[l as int]@,
            videos[r as int]@,
            b,
            other,
        );
    assert(a == b);
    m
}

/// Two comparisons of all videos find the same, up to the finding at `n`.
proof fn lemma_same_findings<F: Fn(usize, usize) -> DurationRelation>(
    relation: F,
    videos: Seq<VideoRecord>,
    one: MatchOptions,
    other: MatchOptions,
    found: Seq<(usize, usize, PairFinding)>,
    again: Seq<(usize, usize, PairFinding)>,
    n: int,
)
    requires
        relates_alike(relation),
        one == asking(other, one.min_confidence),
        other == asking(one, other.min_confidence),
        pairing::are_findings(relation, videos, one, found, videos.len() as int, 0),
        pairing::are_findings(relation, videos, other, again, videos.len() as int, 0),
        0 <= n <= found.len(),
    ensures
        n <= again.len(),
        forall|k: int| 0 <= k < n ==> found[k] == again[k],
    decreases n,
{
    if n > 0 {
        let k = n - 1;
        lemma_same_findings(relation, videos, one, other, found, again, k);
        let m = lemma_found_too(relation, videos, one, other, found, again, k);
        if m < k {
            assert(found[m] == again[m]);
            assert(pairing::comes_before(
                found[m].0 as int,
                found[m].1 as int,
                found[k].0 as int,
                found[k].1 as int,
            ));
        }
        assert(m >= k);
        if m > k {
            let p = lemma_found_too(relation, videos, other, one, again, found, k);
            assert(pairing::comes_before(
                again[k].0 as int,
                again[k].1 as int,
                again[m].0 as int,
                again[m].1 as int,
            ));
            if p < k {
                assert(found[p] == again[p]);
                assert(pairing::comes_before(
                    again[p].0 as int,
                    again[p].1 as int,
                    again[k].0 as int,
                    again[k].1 as int,
                ));
            } else if p > k {
                assert(pairing::comes_before(
                    found[k].0 as int,
                    found[k].1 as int,
                    found[p].0 as int,
                    found[p].1 as int,
                ));
            }
        }
    }
}

/// Asking for more confidence only drops whole groups of the videos: of two results for the same
/// videos, the one that asks for more holds the groups of the other one that are as sure as asked
/// for, each with its videos, its recommended one and its confidence, in their order. The lengths
/// of videos are related alike for both results, and findings are scored alike.
pub proof fn law_asking_for_more_drops_whole_groups<
    F: Fn(usize, usize) -> DurationRelation,
    G: Fn(usize, usize, PairFinding) -> PairScore,
>(
    relation: F,
    score: G,
    videos: Seq<VideoRecord>,
    options: MatchOptions,
    facts: QualityFacts,
    low: Double,
    high: Double,
    more: Seq<MatchGroup>,
    fewer: Seq<MatchGroup>,
) -> (places: Seq<int>)
    requires
        Double::of(matching::ZERO).le(low),
        low.le(high),
        high.le(Double::of(matching::ONE)),
        relates_alike(relation),
        scores_alike(score),
        pairing::are_groups(relation, score, videos, asking(options, low), facts, more),
        pairing::are_groups(relation, score, videos, asking(options, high), facts, fewer),
    ensures
        picks(more, places, fewer),
        forall|j: int|
            0 <= j < more.len() ==> (high.le((#[trigger] more[j]).confidence)
                <==> places.contains(j)),
{
    let one = asking(options, low).spec_normalized();
    let other = asking(options, high).spec_normalized();
    assert(one == asking(other, low) && other == asking(one, high));
    let (found, pairs) = choose|
        found: Seq<(usize, usize, PairFinding)>,
        pairs: Seq<PairMatch>,
    |
        #![trigger pairing::are_scored(score, one, found, pairs)]
        pairing::are_findings(relation, videos, one, found, videos.len() as int, 0)
            && pairing::are_scored(score, one, found, pairs) && pairs.len() <= usize::MAX
            && groups::lists(groups::pool_of(videos, pairs, asking(options, low), facts), more);
    let (again, scored) = choose|
        again: Seq<(usize, usize, PairFinding)>,
        scored: Seq<PairMatch>,
    |
        #![trigger pairing::are_scored(score, other, again, scored)]
        pairing::are_findings(relation, videos, other, again, videos.len() as int, 0)
            && pairing::are_scored(score, other, again, scored) && scored.len() <= usize::MAX
            && groups::lists(groups::pool_of(videos, scored, asking(options, high), facts), fewer);
    lemma_same_findings(relation, videos, one, other, found, again, found.len() as int);
    lemma_same_findings(relation, videos, other, one, again, found, again.len() as int);
    let a = groups::pool_of(videos, pairs, asking(options, low), facts);
    let b = groups::pool_of(videos, scored, asking(options, high), facts);
    assert forall|k: int| 0 <= k < pairs.len() implies same_pair(
        #[trigger] pairs[k],
        scored[k],
    ) && Double::of(matching::HALF).le(pairs[k].confidence) by {
        assert(found[k] == again[k]);
        assert(pairing::is_scored(score, one, found[k], pairs[k]));
        assert(pairing::is_scored(score, other, again[k], scored[k]));
        let x = choose|x: PairScore| #[trigger]
            call_ensures(score, found[k], x) && pairs[k].confidence == x.confidence
                && models::texts(pairs[k].evidence@) == reports::evidence_of(
                found[k].2,
                one.allowed_unmatched_sample_frames as int,
                x.texts,
            );
        let y = choose|y: PairScore| #[trigger]
            call_ensures(score, again[k], y) && scored[k].confidence == y.confidence
                && models::texts(scored[k].evidence@) == reports::evidence_of(
                again[k].2,
                other.allowed_unmatched_sample_frames as int,
                y.texts,
            );
        assert(same_score(x, y));
    }
    assert(are_steps(a, b));
    lemma_steps_drop_groups(a, b, more, fewer)
}

/// The same of the groups that are built with the default options but for the confidence asked for.
pub proof fn law_higher_min_confidence_drops_whole_groups<
    F: Fn(usize, usize) -> DurationRelation,
    G: Fn(usize, usize, PairFinding) -> PairScore,
>(
    relation: F,
    score: G,
    videos: Seq<VideoRecord>,
    facts: QualityFacts,
    low: Double,
    high: Double,
    more: Seq<MatchGroup>,
    fewer: Seq<MatchGroup>,
) -> (places: Seq<int>)
    requires
        Double::of(matching::ZERO).le(low),
        low.le(high),
        high.le(Double::of(matching::ONE)),
        relates_alike(relation),
        scores_alike(score),
        pairing::are_groups(
            relation,
            score,
            videos,
            pairing::default_with_confidence(low),
            facts,
            more,
        ),
        pairing::are_groups(
            relation,
            score,
            videos,
            pairing::default_with_confidence(high),
            facts,
            fewer,
        ),
    ensures
        picks(more, places, fewer),
        forall|j: int|
            0 <= j < more.len() ==> (high.le((#[trigger] more[j]).confidence)
                <==> places.contains(j)),
{
    let options = MatchOptions::spec_default();
    assert(pairing::default_with_confidence(low) == asking(options, low));
    assert(pairing::default_with_confidence(high) == asking(options, high));
    law_asking_for_more_drops_whole_groups(
        relation,
        score,
        videos,
        options,
        facts,
        low,
        high,
        more,
        fewer,
    )
}

} // verus!
