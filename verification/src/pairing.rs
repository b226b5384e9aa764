//! The comparison of every two videos, and what it means for the groups that are made of it.
use crate::double::Double;
use crate::groups;
use crate::groups::{cut_into_groups, is_pair_allowed, PairMatch, Pool, QualityFacts};
use crate::matching;
use crate::matching::{compare_pair, DurationRelation, MatchOptions, PairFinding};
use crate::models;
use crate::models::{MatchGroup, VideoRecord};
use crate::reports;
use crate::reports::{finding_evidence, FindingTexts};
use crate::temporal;
use vstd::prelude::*;
use vstd::string::*;

verus! {

/// Whether the comparison of two videos gives a finding, or none. `relation` tells how their
/// lengths relate.
pub open spec fn gives<F: Fn(usize, usize) -> DurationRelation>(
    relation: F,
    videos: Seq<VideoRecord>,
    options: MatchOptions,
    left: usize,
    right: usize,
    found: Option<PairFinding>,
) -> bool {
    exists|own: DurationRelation| #[trigger]
        call_ensures(relation, (left, right), own) && found == matching::finding(
            videos[left as int]@,
            videos[right as int]@,
            own,
            options,
        )
}

/// Whether one pair of positions comes before another.
pub open spec fn comes_before(left: int, right: int, other_left: int, other_right: int) -> bool {
    left < other_left || left == other_left && right < other_right
}

/// Whether a pair of positions is among some findings.
pub open spec fn is_found(found: Seq<(usize, usize, PairFinding)>, left: int, right: int) -> bool {
    exists|k: int|
        0 <= k < found.len() && (#[trigger] found[k]).0 == left && found[k].1 == right
}

/// Whether some findings are those of all pairs of videos that come before a pair: of each two
/// videos that may be matched at all, what their comparison finds, in order.
pub open spec fn are_findings<F: Fn(usize, usize) -> DurationRelation>(
    relation: F,
    videos: Seq<VideoRecord>,
    options: MatchOptions,
    found: Seq<(usize, usize, PairFinding)>,
    left: int,
    right: int,
) -> bool {
    &&& forall|k: int|
        #![trigger found[k]]
        0 <= k < found.len() ==> {
            &&& found[k].0 < found[k].1 < videos.len()
            &&& comes_before(found[k].0 as int, found[k].1 as int, left, right)
            &&& groups::pair_allowed(
                videos,
                options.compare_within_same_folder,
                found[k].0 as int,
                found[k].1 as int,
            )
            &&& gives(relation, videos, options, found[k].0, found[k].1, Some(found[k].2))
        }
    &&& forall|j: int, k: int|
        #![trigger found[j], found[k]]
        0 <= j < k < found.len() ==> comes_before(
            found[j].0 as int,
            found[j].1 as int,
            found[k].0 as int,
            found[k].1 as int,
        )
    &&& forall|l: usize, r: usize|
        #![trigger groups::pair_allowed(videos, options.compare_within_same_folder, l as int, r as int)]
        l < r < videos.len() && comes_before(l as int, r as int, left, right)
            && groups::pair_allowed(
            videos,
            options.compare_within_same_folder,
            l as int,
            r as int,
        ) ==> is_found(found, l as int, r as int) || gives(relation, videos, options, l, r, None)
}

/// What the comparisons of all videos find: of each two videos that may be matched at all, in
/// order. `relation` tells how the lengths of two videos relate.
pub fn pair_findings<F: Fn(usize, usize) -> DurationRelation>(
    videos: &Vec<VideoRecord>,
    relation: &F,
    options: MatchOptions,
) -> (r: Vec<(usize, usize, PairFinding)>)
    requires
        forall|k: int|
            0 <= k < videos@.len() ==> (#[trigger] videos@[k])@.sample_hashes.len()
                <= temporal::MAX_SAMPLES,
        forall|l: usize, r: usize|
            l < r < videos@.len() ==> #[trigger] call_requires(*relation, (l, r)),
    ensures
        are_findings(
            *relation,
            videos@,
            options.spec_normalized(),
            r@,
            videos@.len() as int,
            0,
        ),
{
    let options = options.normalized();
    let mut out: Vec<(usize, usize, PairFinding)> = Vec::new();
    let mut left: usize = 0;
    while left < videos.len()
        invariant
            left <= videos@.len(),
            forall|k: int|
                0 <= k < videos@.len() ==> (#[trigger] videos@[k])@.sample_hashes.len()
                    <= temporal::MAX_SAMPLES,
            forall|l: usize, r: usize|
                l < r < videos@.len() ==> #[trigger] call_requires(*relation, (l, r)),
            are_findings(*relation, videos@, options, out@, left as int, 0),
        decreases videos@.len() - left,
    {
        let mut right: usize = left + 1;
        assert(are_findings(*relation, videos@, options, out@, left as int, right as int));
        while right < videos.len()
            invariant
                left < right <= videos@.len(),
                forall|k: int|
                    0 <= k < videos@.len() ==> (#[trigger] videos@[k])@.sample_hashes.len()
                        <= temporal::MAX_SAMPLES,
                forall|l: usize, r: usize|
                    l < r < videos@.len() ==> #[trigger] call_requires(*relation, (l, r)),
                are_findings(*relation, videos@, options, out@, left as int, right as int),
            decreases videos@.len() - right,
        {
            let ghost before = out@;
            if is_pair_allowed(videos, options.compare_within_same_folder, left, right) {
                let own = relation(left, right);
                assert(videos@[left as int]@.sample_hashes.len() <= temporal::MAX_SAMPLES);
                assert(videos@[right as int]@.sample_hashes.len() <= temporal::MAX_SAMPLES);
                match compare_pair(&videos[left], &videos[right], own, options) {
                    Some(finding) => {
                        assert(gives(
                            *relation,
                            videos@,
                            options,
                            left,
                            right,
                            Some(finding),
                        ));
                        out.push((left, right, finding));
                        assert(out@.drop_last() =~= before);
                    },
                    None => {
                        assert(gives(*relation, videos@, options, left, right, None));
                    },
                }
            }
            proof {
                lemma_next_pair(
                    *relation,
                    videos@,
                    options,
                    before,
                    out@,
                    left as int,
                    right as int,
                );
            }
            right += 1;
        }
        left += 1;
    }
    out
}

proof fn lemma_next_pair<F: Fn(usize, usize) -> DurationRelation>(
    relation: F,
    videos: Seq<VideoRecord>,
    options: MatchOptions,
    before: Seq<(usize, usize, PairFinding)>,
    after: Seq<(usize, usize, PairFinding)>,
    left: int,
    right: int,
)
    requires
        0 <= left < right < videos.len() <= usize::MAX,
        are_findings(relation, videos, options, before, left, right),
        ({
            let allowed = groups::pair_allowed(
                videos,
                options.compare_within_same_folder,
                left,
                right,
            );
            if after.len() == before.len() {
                after == before && (allowed ==> gives(
                    relation,
                    videos,
                    options,
                    left as usize,
                    right as usize,
                    None,
                ))
            } else {
                &&& after.len() == before.len() + 1
                &&& after.drop_last() == before
                &&& allowed
                &&& after.last().0 == left && after.last().1 == right
                &&& gives(
                    relation,
                    videos,
                    options,
                    left as usize,
                    right as usize,
                    Some(after.last().2),
                )
            }
        }),
    ensures
        are_findings(relation, videos, options, after, left, right + 1),
{
    assert forall|k: int| 0 <= k < before.len() implies #[trigger] before[k] == after[k] by {
        assert(after.len() > before.len() ==> after.drop_last()[k] == after[k]);
    }
    assert forall|k: int| #![trigger after[k]] 0 <= k < after.len() implies {
        &&& after[k].0 < after[k].1 < videos.len()
        &&& comes_before(after[k].0 as int, after[k].1 as int, left, right + 1)
        &&& groups::pair_allowed(
            videos,
            options.compare_within_same_folder,
            after[k].0 as int,
            after[k].1 as int,
        )
        &&& gives(relation, videos, options, after[k].0, after[k].1, Some(after[k].2))
    } by {
        if k < before.len() {
            assert(before[k] == after[k]);
        }
    }
    assert forall|j: int, k: int|
        #![trigger after[j], after[k]]
        0 <= j < k < after.len() implies comes_before(
        after[j].0 as int,
        after[j].1 as int,
        after[k].0 as int,
        after[k].1 as int,
    ) by {
        assert(before[j] == after[j]);
        if k < before.len() {
            assert(before[k] == after[k]);
        }
    }
    assert forall|l: usize, r: usize|
        #![trigger groups::pair_allowed(videos, options.compare_within_same_folder, l as int, r as int)]
        l < r < videos.len() && comes_before(l as int, r as int, left, right + 1)
            && groups::pair_allowed(
            videos,
            options.compare_within_same_folder,
            l as int,
            r as int,
        ) implies is_found(after, l as int, r as int) || gives(
        relation,
        videos,
        options,
        l,
        r,
        None,
    ) by {
        if comes_before(l as int, r as int, left, right) {
            if is_found(before, l as int, r as int) {
                let k = choose|k: int|
                    0 <= k < before.len() && (#[trigger] before[k]).0 == l && before[k].1 == r;
                assert(before[k] == after[k]);
            }
        } else if after.len() > before.len() {
            assert(after[before.len() as int].0 == l && after[before.len() as int].1 == r);
        }
    }
}

/// Whether scored matches are of pairs that the comparisons of videos found.
pub open spec fn are_of_findings(
    pairs: Seq<PairMatch>,
    found: Seq<(usize, usize, PairFinding)>,
) -> bool {
    forall|k: int|
        0 <= k < pairs.len() ==> is_found(
            found,
            (#[trigger] pairs[k]).left as int,
            pairs[k].right as int,
        )
}

proof fn lemma_linked_are_scanned<F: Fn(usize, usize) -> DurationRelation>(
    relation: F,
    pool: Pool,
    found: Seq<(usize, usize, PairFinding)>,
    a: int,
    b: int,
)
    requires
        pool.wf(),
        are_findings(
            relation,
            pool.videos,
            pool.options,
            found,
            pool.videos.len() as int,
            0,
        ),
        are_of_findings(pool.pairs, found),
        pool.links().contains((a, b)),
    ensures
        pool.videos[a]@.scan_status == "ok"@,
        pool.videos[b]@.scan_status == "ok"@,
{
    let links = pool.links();
    let k = choose|k: int| 0 <= k < links.len() && links[k] == (a, b);
    groups::lemma_kept(pool, pool.pairs.len() as int, k);
    let pair = pool.pairs[pool.kept()[k] as int];
    assert(pair.left == a && pair.right == b);
    let m = choose|m: int|
        0 <= m < found.len() && (#[trigger] found[m]).0 == pair.left && found[m].1 == pair.right;
    assert(gives(relation, pool.videos, pool.options, found[m].0, found[m].1, Some(found[m].2)));
}

/// How sure a match is, and its numbers as they are shown.
#[derive(Debug, Clone)]
pub struct PairScore {
    pub confidence: Double,
    pub texts: FindingTexts,
}

/// Whether a match is a finding with a score that `score` gives for it.
pub open spec fn is_scored<G: Fn(usize, usize, PairFinding) -> PairScore>(
    score: G,
    options: MatchOptions,
    found: (usize, usize, PairFinding),
    pair: PairMatch,
) -> bool {
    &&& pair.left == found.0
    &&& pair.right == found.1
    &&& pair.kind == found.2.spec_kind()
    &&& exists|own: PairScore| #[trigger]
        call_ensures(score, found, own) && pair.confidence == own.confidence && models::texts(
            pair.evidence@,
        ) == reports::evidence_of(
            found.2,
            options.allowed_unmatched_sample_frames as int,
            own.texts,
        )
}

/// Whether matches are the findings with their scores, in order.
pub open spec fn are_scored<G: Fn(usize, usize, PairFinding) -> PairScore>(
    score: G,
    options: MatchOptions,
    found: Seq<(usize, usize, PairFinding)>,
    pairs: Seq<PairMatch>,
) -> bool {
    &&& pairs.len() == found.len()
    &&& forall|k: int|
        0 <= k < found.len() ==> is_scored(score, options, found[k], #[trigger] pairs[k])
}

/// The findings with their scores.
fn score_findings<G: Fn(usize, usize, PairFinding) -> PairScore>(
    found: &Vec<(usize, usize, PairFinding)>,
    score: &G,
    options: MatchOptions,
) -> (r: Vec<PairMatch>)
    requires
        forall|k: int| 0 <= k < found@.len() ==> call_requires(*score, #[trigger] found@[k]),
    ensures
        are_scored(*score, options, found@, r@),
{
    let mut out: Vec<PairMatch> = Vec::new();
    let mut i: usize = 0;
    while i < found.len()
        invariant
            i <= found@.len(),
            forall|k: int| 0 <= k < found@.len() ==> call_requires(*score, #[trigger] found@[k]),
            out@.len() == i,
            forall|k: int|
                0 <= k < i ==> is_scored(*score, options, found@[k], #[trigger] out@[k]),
        decreases found@.len() - i,
    {
        let (left, right, finding) = found[i];
        assert(found@[i as int] == (left, right, finding));
        let own = score(left, right, finding);
        let pair = PairMatch {
            left,
            right,
            kind: finding.kind(),
            confidence: own.confidence,
            evidence: finding_evidence(
                &finding,
                options.allowed_unmatched_sample_frames,
                &own.texts,
            ),
        };
        assert(is_scored(*score, options, found@[i as int], pair));
        out.push(pair);
        i += 1;
    }
    out
}

/// Whether groups are those of the videos: what the comparisons found, scored and cut into groups.
pub open spec fn are_groups<
    F: Fn(usize, usize) -> DurationRelation,
    G: Fn(usize, usize, PairFinding) -> PairScore,
>(
    relation: F,
    score: G,
    videos: Seq<VideoRecord>,
    options: MatchOptions,
    facts: QualityFacts,
    groups: Seq<MatchGroup>,
) -> bool {
    exists|found: Seq<(usize, usize, PairFinding)>, pairs: Seq<PairMatch>|
        #![trigger are_scored(score, options.spec_normalized(), found, pairs)]
        are_findings(
            relation,
            videos,
            options.spec_normalized(),
            found,
            videos.len() as int,
            0,
        ) && are_scored(score, options.spec_normalized(), found, pairs) && pairs.len() <= usize::MAX
            && groups::lists(
            groups::pool_of(videos, pairs, options, facts),
            groups,
        )
}

/// Whether groups hold only videos whose scan went well.
pub open spec fn all_scanned(groups: Seq<MatchGroup>) -> bool {
    forall|g: int, i: int|
        #![trigger groups[g].items@[i]]
        0 <= g < groups.len() && 0 <= i < groups[g].items@.len()
            ==> groups[g].items@[i].video@.scan_status == "ok"@
}

/// Whether the comparisons of some videos can be made: the lengths of each two can be related, each
/// finding can be scored, there are facts on each video, and numbers stay in their range.
pub open spec fn can_be_grouped<
    F: Fn(usize, usize) -> DurationRelation,
    G: Fn(usize, usize, PairFinding) -> PairScore,
>(relation: F, score: G, videos: Seq<VideoRecord>, facts: QualityFacts) -> bool {
    &&& forall|k: int|
        0 <= k < videos.len() ==> (#[trigger] videos[k])@.sample_hashes.len()
            <= temporal::MAX_SAMPLES
    &&& forall|l: usize, r: usize|
        l < r < videos.len() ==> #[trigger] call_requires(relation, (l, r))
    &&& forall|found: (usize, usize, PairFinding)|
        found.0 < found.1 < videos.len() ==> #[trigger] call_requires(score, found)
    &&& facts.wf(videos.len() as int)
    &&& groups::total_size(videos, videos.len() as int) <= u64::MAX
}

/// Whether no score is above one.
pub open spec fn no_score_above_one<G: Fn(usize, usize, PairFinding) -> PairScore>(score: G) -> bool {
    forall|found: (usize, usize, PairFinding), own: PairScore| #[trigger]
        call_ensures(score, found, own) ==> own.confidence.le(Double::of(matching::ONE))
}

/// Whether each group is as sure as asked for, and none is surer than one.
pub open spec fn are_sure(groups: Seq<MatchGroup>, options: MatchOptions) -> bool {
    forall|g: int|
        0 <= g < groups.len() ==> options.spec_normalized().min_confidence.le(
            (#[trigger] groups[g]).confidence,
        ) && groups[g].confidence.le(Double::of(matching::ONE))
}

/// The groups of videos: every two videos are compared, the findings are scored, and those that
/// hold together join their videos; a group is shown where one of its matches is as sure as asked
/// for. `relation` tells how the lengths of two videos relate, `score` how sure a finding is. The
/// report of a group is left empty.
pub fn build_match_groups_with_options<
    F: Fn(usize, usize) -> DurationRelation,
    G: Fn(usize, usize, PairFinding) -> PairScore,
>(
    videos: &Vec<VideoRecord>,
    relation: &F,
    score: &G,
    options: MatchOptions,
    facts: &QualityFacts,
) -> (r: Vec<MatchGroup>)
    requires
        can_be_grouped(*relation, *score, videos@, *facts),
    ensures
        are_groups(*relation, *score, videos@, options, *facts, r@),
        all_scanned(r@),
        no_score_above_one(*score) ==> are_sure(r@, options),
{
    let found = pair_findings(videos, relation, options);
    assert forall|k: int| 0 <= k < found@.len() implies call_requires(
        *score,
        #[trigger] found@[k],
    ) by {
        assert(found@[k].0 < found@[k].1 < videos@.len());
    }
    let pairs = score_findings(&found, score, options.normalized());
    let ghost pool = groups::pool_of(videos@, pairs@, options, *facts);
    assert(videos.len() <= usize::MAX && pairs.len() <= usize::MAX);
    assert forall|k: int|
        #![trigger pool.pairs[k]]
        0 <= k < pool.pairs.len() implies pool.pairs[k].left < pool.pairs[k].right
        < pool.videos.len() by {
        assert(is_scored(*score, options.spec_normalized(), found@[k], pairs@[k]));
        assert(found@[k].0 < found@[k].1 < videos@.len());
    }
    let r = cut_into_groups(videos, &pairs, options, facts);
    proof {
        assert(are_of_findings(pairs@, found@)) by {
            assert forall|k: int| 0 <= k < pairs@.len() implies is_found(
                found@,
                (#[trigger] pairs@[k]).left as int,
                pairs@[k].right as int,
            ) by {
                assert(is_scored(*score, options.spec_normalized(), found@[k], pairs@[k]));
                assert(found@[k].0 == pairs@[k].left);
            }
        }
        assert forall|g: int, i: int|
            #![trigger r@[g].items@[i]]
            0 <= g < r@.len() && 0 <= i < r@[g].items@.len() implies r@[g].items@[i].video@.scan_status
            == "ok"@ by {
            law_groups_hold_scanned_videos(
                *relation,
                videos@,
                pairs@,
                options,
                *facts,
                found@,
                r@,
                g,
                i,
            );
        }
        if no_score_above_one(*score) {
            assert forall|k: int| 0 <= k < pairs@.len() implies (
            #[trigger] pairs@[k]).confidence.le(Double::of(matching::ONE)) by {
                assert(is_scored(*score, options.spec_normalized(), found@[k], pairs@[k]));
            }
            assert forall|g: int| 0 <= g < r@.len() implies options.spec_normalized().min_confidence.le(
                (#[trigger] r@[g]).confidence,
            ) && r@[g].confidence.le(Double::of(matching::ONE)) by {
                law_group_confidence_lies_in_range(videos@, pairs@, options, *facts, r@, g);
            }
        }
    }
    r
}

/// The default options but for the confidence asked for.
pub open spec fn default_with_confidence(min_confidence: Double) -> MatchOptions {
    MatchOptions {
        compare_within_same_folder: false,
        min_confidence,
        temporal_hash_threshold: 8,
        min_temporal_match_points: 3,
        allowed_unmatched_sample_frames: 14,
        keeper_size_priority_duration_seconds: Double::of(matching::DEFAULT_PRIORITY),
    }
}

/// The groups of videos with the default options but for the confidence asked for.
pub fn build_match_groups_with_min_confidence<
    F: Fn(usize, usize) -> DurationRelation,
    G: Fn(usize, usize, PairFinding) -> PairScore,
>(
    videos: &Vec<VideoRecord>,
    relation: &F,
    score: &G,
    min_confidence: Double,
    facts: &QualityFacts,
) -> (r: Vec<MatchGroup>)
    requires
        can_be_grouped(*relation, *score, videos@, *facts),
    ensures
        are_groups(
            *relation,
            *score,
            videos@,
            default_with_confidence(min_confidence),
            *facts,
            r@,
        ),
        all_scanned(r@),
        no_score_above_one(*score) ==> are_sure(r@, default_with_confidence(min_confidence)),
{
    let mut options = MatchOptions::default();
    options.min_confidence = min_confidence;
    build_match_groups_with_options(videos, relation, score, options, facts)
}

/// The groups of videos with the default options.
pub fn build_match_groups<
    F: Fn(usize, usize) -> DurationRelation,
    G: Fn(usize, usize, PairFinding) -> PairScore,
>(videos: &Vec<VideoRecord>, relation: &F, score: &G, facts: &QualityFacts) -> (r: Vec<MatchGroup>)
    requires
        can_be_grouped(*relation, *score, videos@, *facts),
    ensures
        are_groups(*relation, *score, videos@, MatchOptions::spec_default(), *facts, r@),
        all_scanned(r@),
        no_score_above_one(*score) ==> are_sure(r@, MatchOptions::spec_default()),
{
    build_match_groups_with_options(videos, relation, score, MatchOptions::default(), facts)
}

/// A group that is made of what the comparisons of videos found holds only videos whose scan went
/// well.
pub proof fn law_groups_hold_scanned_videos<F: Fn(usize, usize) -> DurationRelation>(
    relation: F,
    videos: Seq<VideoRecord>,
    pairs: Seq<PairMatch>,
    options: MatchOptions,
    facts: QualityFacts,
    found: Seq<(usize, usize, PairFinding)>,
    groups: Seq<MatchGroup>,
    g: int,
    i: int,
)
    requires
        groups::pool_of(videos, pairs, options, facts).wf(),
        are_findings(
            relation,
            videos,
            options.spec_normalized(),
            found,
            videos.len() as int,
            0,
        ),
        are_of_findings(pairs, found),
        groups::lists(groups::pool_of(videos, pairs, options, facts), groups),
        0 <= g < groups.len(),
        0 <= i < groups[g].items@.len(),
    ensures
        groups[g].items@[i].video@.scan_status == "ok"@,
{
    let pool = groups::pool_of(videos, pairs, options, facts);
    let links = pool.links();
    let (order, ranks) = choose|order: Seq<int>, ranks: Seq<Seq<usize>>| #[trigger]
        groups::is_listing(pool, order, ranks, groups);
    let roots = pool.roots();
    assert(groups::describes_at(pool, roots, order, ranks, groups, g));
    let root = roots[order[g]];
    let ranked = ranks[g];
    let members = pool.members(root);
    let v = ranked[i] as int;
    assert(groups[g].items@[i].video@ == videos[v]@);
    assert(ranked.to_set().contains(ranked[i]));
    assert(members.to_set().contains(ranked[i]));
    let at = choose|at: int| 0 <= at < members.len() && members[at] == ranked[i];
    groups::lemma_members(links, root, videos.len() as int);
    assert(groups::component(links, v) == root);
    let n = lemma_reached(links, links.len() as int, order[g]);
    let start = links[n].0;
    assert(links.contains(links[n]));
    if start == v {
        lemma_linked_are_scanned(relation, pool, found, links[n].0, links[n].1);
    } else {
        let way = groups::law_component_is_linked(links, v, start);
        assert(way.len() > 1);
        let first: int = 0;
        assert(groups::linked(links, way[first], way[first + 1]));
        if links.contains((way[0], way[1])) {
            lemma_linked_are_scanned(relation, pool, found, way[0], way[1]);
        } else {
            lemma_linked_are_scanned(relation, pool, found, way[1], way[0]);
        }
    }
}

/// A component that was reached is that of the first end of some link.
proof fn lemma_reached(links: Seq<(int, int)>, n: int, j: int) -> (k: int)
    requires
        0 <= n <= links.len(),
        0 <= j < groups::reached(links, n).len(),
    ensures
        0 <= k < n,
        groups::component(links, links[k].0) == groups::reached(links, n)[j],
    decreases n,
{
    let rest = groups::reached(links, n - 1);
    if j < rest.len() {
        lemma_reached(links, n - 1, j)
    } else {
        n - 1
    }
}

proof fn lemma_top_bounds(pool: Pool, root: int, n: int, high: Double)
    requires
        0 <= n <= pool.kept().len(),
        pool.pairs.len() <= usize::MAX,
        Double::of(matching::ZERO).le(high),
        forall|k: int|
            0 <= k < pool.pairs.len() ==> (#[trigger] pool.pairs[k]).confidence.le(high),
    ensures
        pool.top(root, n).le(high),
        forall|k: int|
            0 <= k < n && #[trigger] pool.shown(root, k) ==> pool.kept_pair(k).confidence.le(
                pool.top(root, n),
            ),
    decreases n,
{
    if n > 0 {
        lemma_top_bounds(pool, root, n - 1, high);
        groups::lemma_kept(pool, pool.pairs.len() as int, n - 1);
    }
}

/// Where no match is surer than one, the confidence of a group lies between that asked for and one.
pub proof fn law_group_confidence_lies_in_range(
    videos: Seq<VideoRecord>,
    pairs: Seq<PairMatch>,
    options: MatchOptions,
    facts: QualityFacts,
    groups: Seq<MatchGroup>,
    g: int,
)
    requires
        groups::pool_of(videos, pairs, options, facts).wf(),
        forall|k: int|
            0 <= k < pairs.len() ==> (#[trigger] pairs[k]).confidence.le(Double::of(matching::ONE)),
        groups::lists(groups::pool_of(videos, pairs, options, facts), groups),
        0 <= g < groups.len(),
    ensures
        options.spec_normalized().min_confidence.le(groups[g].confidence),
        groups[g].confidence.le(Double::of(matching::ONE)),
{
    let pool = groups::pool_of(videos, pairs, options, facts);
    let (order, ranks) = choose|order: Seq<int>, ranks: Seq<Seq<usize>>| #[trigger]
        groups::is_listing(pool, order, ranks, groups);
    assert(groups::describes_at(pool, pool.roots(), order, ranks, groups, g));
    let root = pool.roots()[order[g]];
    lemma_top_bounds(pool, root, pool.kept().len() as int, Double::of(matching::ONE));
    assert(order.contains(order[g]));
    assert(pool.visible(root));
    let k = choose|k: int| 0 <= k < pool.kept().len() && #[trigger] pool.shown(root, k);
    assert(pool.kept_pair(k).confidence.le(pool.top(root, pool.kept().len() as int)));
}

} // verus!
