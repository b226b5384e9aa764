//! Comparing the sample hashes of two videos, in order and in step.
use crate::hashes;
use crate::hashes::{hamming, hamming_hex, informative_hash_points, is_informative_hash};
use crate::models;
use vstd::prelude::*;

verus! {

/// The largest number of sample hashes whose distances can be summed in 32 bits.
pub const MAX_SAMPLES: usize = 67_108_863;

/// The number of matched points and the sum of their distances.
#[derive(Debug, Clone, Copy, PartialEq, Eq, Structural)]
pub struct MatchScore {
    pub count: usize,
    pub total_distance: u32,
}

/// A score as two numbers.
#[verifier::ext_equal]
pub struct Tally {
    pub count: nat,
    pub total: nat,
}

impl View for MatchScore {
    type V = Tally;

    open spec fn view(&self) -> Tally {
        Tally { count: self.count as nat, total: self.total_distance as nat }
    }
}

/// Whether a score has more points than another one, or as many at no larger distance.
pub open spec fn at_least(left: Tally, right: Tally) -> bool {
    left.count > right.count || (left.count == right.count && left.total <= right.total)
}

/// The score with more points; among equal counts, the one at the smaller distance.
pub open spec fn better(left: Tally, right: Tally) -> Tally {
    if at_least(left, right) {
        left
    } else {
        right
    }
}

/// The score with more points; among equal counts, the one at the smaller distance.
pub fn better_match_score(left: MatchScore, right: MatchScore) -> (r: MatchScore)
    ensures
        r@ == better(left@, right@),
        r == left || r == right,
{
    if left.count > right.count || (left.count == right.count && left.total_distance
        <= right.total_distance) {
        left
    } else {
        right
    }
}

/// The best score of a matching that keeps the order of both rows of hashes, where two hashes
/// match if they differ in at most `threshold` bits.
pub open spec fn best(left: Seq<u64>, right: Seq<u64>, threshold: nat) -> Tally
    decreases left.len() + right.len(),
{
    if left.len() == 0 || right.len() == 0 {
        Tally { count: 0, total: 0 }
    } else {
        let skipped = better(
            best(left.drop_last(), right, threshold),
            best(left, right.drop_last(), threshold),
        );
        let d = hashes::distance(left.last(), right.last());
        if d <= threshold {
            let rest = best(left.drop_last(), right.drop_last(), threshold);
            better(skipped, Tally { count: rest.count + 1, total: rest.total + d })
        } else {
            skipped
        }
    }
}

/// A matching: pairs of positions, growing on both sides, whose hashes are close.
pub open spec fn is_matching(
    left: Seq<u64>,
    right: Seq<u64>,
    threshold: nat,
    pairs: Seq<(int, int)>,
) -> bool {
    &&& forall|k: int|
        #![trigger pairs[k]]
        0 <= k < pairs.len() ==> {
            &&& 0 <= pairs[k].0 < left.len()
            &&& 0 <= pairs[k].1 < right.len()
            &&& hashes::distance(left[pairs[k].0], right[pairs[k].1]) <= threshold
        }
    &&& forall|j: int, k: int|
        #![trigger pairs[j], pairs[k]]
        0 <= j < k < pairs.len() ==> pairs[j].0 < pairs[k].0 && pairs[j].1 < pairs[k].1
}

/// The number of pairs of a matching and the sum of their distances.
pub open spec fn tally(left: Seq<u64>, right: Seq<u64>, pairs: Seq<(int, int)>) -> Tally
    decreases pairs.len(),
{
    if pairs.len() == 0 {
        Tally { count: 0, total: 0 }
    } else {
        let rest = tally(left, right, pairs.drop_last());
        Tally {
            count: rest.count + 1,
            total: rest.total + hashes::distance(left[pairs.last().0], right[pairs.last().1]),
        }
    }
}

proof fn lemma_tally_prefix(left: Seq<u64>, right: Seq<u64>, l: int, r: int, pairs: Seq<(int, int)>)
    requires
        0 <= l <= left.len(),
        0 <= r <= right.len(),
        forall|k: int|
            #![trigger pairs[k]]
            0 <= k < pairs.len() ==> 0 <= pairs[k].0 < l && 0 <= pairs[k].1 < r,
    ensures
        tally(left.take(l), right.take(r), pairs) == tally(left, right, pairs),
    decreases pairs.len(),
{
    if pairs.len() > 0 {
        assert forall|k: int| 0 <= k < pairs.len() - 1 implies 0 <= (
        #[trigger] pairs.drop_last()[k]).0 < l && 0 <= pairs.drop_last()[k].1 < r by {
            assert(pairs.drop_last()[k] == pairs[k]);
        }
        lemma_tally_prefix(left, right, l, r, pairs.drop_last());
        assert(pairs[pairs.len() - 1] == pairs.last());
    }
}

proof fn lemma_no_points_no_distance(left: Seq<u64>, right: Seq<u64>, threshold: nat)
    ensures
        best(left, right, threshold).count == 0 ==> best(left, right, threshold).total == 0,
    decreases left.len() + right.len(),
{
    if left.len() > 0 && right.len() > 0 {
        lemma_no_points_no_distance(left.drop_last(), right, threshold);
        lemma_no_points_no_distance(left, right.drop_last(), threshold);
    }
}

/// No matching that keeps the order scores above the best score.
pub proof fn law_best_is_an_upper_bound(
    left: Seq<u64>,
    right: Seq<u64>,
    threshold: nat,
    pairs: Seq<(int, int)>,
)
    requires
        is_matching(left, right, threshold, pairs),
    ensures
        at_least(best(left, right, threshold), tally(left, right, pairs)),
    decreases left.len() + right.len(),
{
    if pairs.len() == 0 {
        lemma_no_points_no_distance(left, right, threshold);
    } else {
        let last = pairs[pairs.len() - 1];
        assert(0 <= last.0 < left.len() && 0 <= last.1 < right.len());
        let dl = left.drop_last();
        let dr = right.drop_last();
        assert(dl =~= left.take(left.len() - 1));
        assert(dr =~= right.take(right.len() - 1));
        if last.0 < left.len() - 1 {
            assert forall|k: int| 0 <= k < pairs.len() implies 0 <= (#[trigger] pairs[k]).0
                < left.len() - 1 && dl[pairs[k].0] == left[pairs[k].0] by {
                if k < pairs.len() - 1 {
                    assert(pairs[k].0 < pairs[pairs.len() - 1].0);
                }
            }
            assert(is_matching(dl, right, threshold, pairs));
            law_best_is_an_upper_bound(dl, right, threshold, pairs);
            lemma_tally_prefix(left, right, left.len() - 1, right.len() as int, pairs);
            assert(right.take(right.len() as int) =~= right);
        } else if last.1 < right.len() - 1 {
            assert forall|k: int| 0 <= k < pairs.len() implies 0 <= (#[trigger] pairs[k]).1
                < right.len() - 1 && dr[pairs[k].1] == right[pairs[k].1] by {
                if k < pairs.len() - 1 {
                    assert(pairs[k].1 < pairs[pairs.len() - 1].1);
                }
            }
            assert(is_matching(left, dr, threshold, pairs));
            law_best_is_an_upper_bound(left, dr, threshold, pairs);
            lemma_tally_prefix(left, right, left.len() as int, right.len() - 1, pairs);
            assert(left.take(left.len() as int) =~= left);
        } else {
            let rest = pairs.drop_last();
            assert forall|k: int| 0 <= k < rest.len() implies 0 <= (#[trigger] rest[k]).0
                < left.len() - 1 && 0 <= rest[k].1 < right.len() - 1 && dl[rest[k].0]
                == left[rest[k].0] && dr[rest[k].1] == right[rest[k].1] && hashes::distance(
                left[rest[k].0],
                right[rest[k].1],
            ) <= threshold by {
                assert(rest[k] == pairs[k]);
                assert(pairs[k].0 < pairs[pairs.len() - 1].0 && pairs[k].1 < pairs[pairs.len()
                    - 1].1);
            }
            assert forall|j: int, k: int|
                #![trigger rest[j], rest[k]]
                0 <= j < k < rest.len() implies rest[j].0 < rest[k].0 && rest[j].1 < rest[k].1 by {
                assert(rest[j] == pairs[j] && rest[k] == pairs[k]);
            }
            assert(is_matching(dl, dr, threshold, rest));
            law_best_is_an_upper_bound(dl, dr, threshold, rest);
            lemma_tally_prefix(left, right, left.len() - 1, right.len() - 1, rest);
        }
    }
}

/// Some matching that keeps the order reaches the best score.
pub proof fn law_best_is_reached(left: Seq<u64>, right: Seq<u64>, threshold: nat) -> (pairs: Seq<
    (int, int),
>)
    ensures
        is_matching(left, right, threshold, pairs),
        tally(left, right, pairs) == best(left, right, threshold),
    decreases left.len() + right.len(),
{
    if left.len() == 0 || right.len() == 0 {
        Seq::empty()
    } else {
        let dl = left.drop_last();
        let dr = right.drop_last();
        assert(dl =~= left.take(left.len() - 1));
        assert(dr =~= right.take(right.len() - 1));
        let whole = best(left, right, threshold);
        let d = hashes::distance(left.last(), right.last());
        let rest_score = best(dl, dr, threshold);
        if whole == best(dl, right, threshold) {
            let pairs = law_best_is_reached(dl, right, threshold);
            assert forall|k: int| 0 <= k < pairs.len() implies 0 <= (#[trigger] pairs[k]).0
                < left.len() - 1 && 0 <= pairs[k].1 < right.len() && hashes::distance(
                left[pairs[k].0],
                right[pairs[k].1],
            ) <= threshold by {
                assert(dl[pairs[k].0] == left[pairs[k].0]);
            }
            lemma_tally_prefix(left, right, left.len() - 1, right.len() as int, pairs);
            assert(right.take(right.len() as int) =~= right);
            pairs
        } else if whole == best(left, dr, threshold) {
            let pairs = law_best_is_reached(left, dr, threshold);
            assert forall|k: int| 0 <= k < pairs.len() implies 0 <= (#[trigger] pairs[k]).1
                < right.len() - 1 && 0 <= pairs[k].0 < left.len() && hashes::distance(
                left[pairs[k].0],
                right[pairs[k].1],
            ) <= threshold by {
                assert(dr[pairs[k].1] == right[pairs[k].1]);
            }
            lemma_tally_prefix(left, right, left.len() as int, right.len() - 1, pairs);
            assert(left.take(left.len() as int) =~= left);
            pairs
        } else {
            let rest = law_best_is_reached(dl, dr, threshold);
            let last = (left.len() - 1, right.len() - 1);
            let pairs = rest.push(last);
            assert forall|k: int| 0 <= k < rest.len() implies 0 <= (#[trigger] rest[k]).0
                < left.len() - 1 && 0 <= rest[k].1 < right.len() - 1 && hashes::distance(
                left[rest[k].0],
                right[rest[k].1],
            ) <= threshold by {
                assert(dl[rest[k].0] == left[rest[k].0]);
                assert(dr[rest[k].1] == right[rest[k].1]);
            }
            assert forall|k: int| 0 <= k < pairs.len() implies 0 <= (#[trigger] pairs[k]).0
                < left.len() && 0 <= pairs[k].1 < right.len() && hashes::distance(
                left[pairs[k].0],
                right[pairs[k].1],
            ) <= threshold by {
                if k < rest.len() {
                    assert(pairs[k] == rest[k]);
                }
            }
            assert forall|j: int, k: int|
                #![trigger pairs[j], pairs[k]]
                0 <= j < k < pairs.len() implies pairs[j].0 < pairs[k].0 && pairs[j].1
                < pairs[k].1 by {
                assert(pairs[j] == rest[j]);
                if k < rest.len() {
                    assert(pairs[k] == rest[k]);
                }
            }
            lemma_tally_prefix(left, right, left.len() - 1, right.len() - 1, rest);
            assert(pairs.drop_last() =~= rest);
            pairs
        }
    }
}

/// A score has no more points than either row, and at most 64 per point.
proof fn lemma_best_bounds(left: Seq<u64>, right: Seq<u64>, threshold: nat)
    ensures
        best(left, right, threshold).count <= left.len(),
        best(left, right, threshold).count <= right.len(),
        best(left, right, threshold).total <= 64 * best(left, right, threshold).count,
    decreases left.len() + right.len(),
{
    if left.len() > 0 && right.len() > 0 {
        lemma_best_bounds(left.drop_last(), right, threshold);
        lemma_best_bounds(left, right.drop_last(), threshold);
        lemma_best_bounds(left.drop_last(), right.drop_last(), threshold);
        hashes::lemma_distance_bound(left.last(), right.last());
    }
}

/// How two rows of sample hashes match in order.
#[derive(Debug, Clone, Copy, PartialEq, Eq, Structural)]
pub struct TemporalMatch {
    pub ordered_points: usize,
    pub total_distance: u32,
    pub informative_left: usize,
    pub informative_right: usize,
}

/// The match in order of two rows of written hashes.
pub open spec fn temporal_match(
    left: Seq<Seq<char>>,
    right: Seq<Seq<char>>,
    threshold: u32,
) -> Tally {
    best(hashes::informative_values(left), hashes::informative_values(right), threshold as nat)
}

/// The best match in order of the informative hashes of two videos.
pub fn temporal_hash_match(left: &Vec<String>, right: &Vec<String>, threshold: u32) -> (r:
    TemporalMatch)
    requires
        left@.len() <= MAX_SAMPLES,
        right@.len() <= MAX_SAMPLES,
    ensures
        r.informative_left == hashes::informative_values(models::texts(left@)).len(),
        r.informative_right == hashes::informative_values(models::texts(right@)).len(),
        r.ordered_points == temporal_match(models::texts(left@), models::texts(right@), threshold).count,
        r.total_distance == temporal_match(models::texts(left@), models::texts(right@), threshold).total,
        r.ordered_points <= r.informative_left,
        r.ordered_points <= r.informative_right,
{
    let l = informative_hash_points(left);
    let r = informative_hash_points(right);
    let ghost t = threshold as nat;
    let zero = MatchScore { count: 0, total_distance: 0 };
    let columns: usize = r.len();
    let mut row: Vec<MatchScore> = Vec::new();
    let mut j: usize = 0;
    while j <= columns
        invariant
            j <= columns + 1,
            columns == r@.len(),
            columns <= MAX_SAMPLES,
            row@.len() == j,
            forall|k: int| 0 <= k < j ==> (#[trigger] row@[k])@ == best(l@.take(0), r@.take(k), t),
            zero@ == (Tally { count: 0, total: 0 }),
        decreases columns + 1 - j,
    {
        row.push(zero);
        j += 1;
    }
    let mut i: usize = 0;
    while i < l.len()
        invariant
            i <= l@.len() <= MAX_SAMPLES,
            columns == r@.len(),
            columns <= MAX_SAMPLES,
            row@.len() == columns + 1,
            t == threshold,
            zero@ == (Tally { count: 0, total: 0 }),
            forall|k: int|
                0 <= k <= columns ==> (#[trigger] row@[k])@ == best(
                    l@.take(i as int),
                    r@.take(k),
                    t,
                ),
        decreases l@.len() - i,
    {
        let mut next: Vec<MatchScore> = Vec::new();
        next.push(zero);
        let mut c: usize = 0;
        while c < columns
            invariant
                i < l@.len() <= MAX_SAMPLES,
                c <= columns,
                columns == r@.len(),
                columns <= MAX_SAMPLES,
                row@.len() == columns + 1,
                next@.len() == c + 1,
                t == threshold,
                forall|k: int|
                    0 <= k <= columns ==> (#[trigger] row@[k])@ == best(
                        l@.take(i as int),
                        r@.take(k),
                        t,
                    ),
                forall|k: int|
                    0 <= k <= c ==> (#[trigger] next@[k])@ == best(l@.take(i + 1), r@.take(k), t),
            decreases columns - c,
        {
            let ghost lt = l@.take(i + 1);
            let ghost rt = r@.take(c + 1);
            assert(lt.drop_last() =~= l@.take(i as int));
            assert(rt.drop_last() =~= r@.take(c as int));
            assert(lt.last() == l@[i as int] && rt.last() == r@[c as int]);
            let mut found = better_match_score(row[c + 1], next[c]);
            let d: u32 = hamming(l[i], r[c]);
            if d <= threshold {
                let before = row[c];
                proof {
                    lemma_best_bounds(l@.take(i as int), r@.take(c as int), t);
                }
                found = better_match_score(
                    found,
                    MatchScore {
                        count: before.count + 1,
                        total_distance: before.total_distance + d,
                    },
                );
            }
            next.push(found);
            c += 1;
        }
        row = next;
        i += 1;
    }
    let score = row[columns];
    assert(l@.take(l@.len() as int) =~= l@);
    assert(r@.take(r@.len() as int) =~= r@);
    proof {
        lemma_best_bounds(l@, r@, t);
    }
    TemporalMatch {
        ordered_points: score.count,
        total_distance: score.total_distance,
        informative_left: l.len(),
        informative_right: r.len(),
    }
}

/// Whether the hashes at position `i` of two rows can be compared.
pub open spec fn comparable_at(left: Seq<Seq<char>>, right: Seq<Seq<char>>, i: int) -> bool {
    hashes::informative(left[i]) && hashes::informative(right[i])
}

/// The number of positions below `n` at which both hashes are informative.
pub open spec fn compared_count(left: Seq<Seq<char>>, right: Seq<Seq<char>>, n: int) -> nat
    decreases n,
{
    if n <= 0 {
        0
    } else {
        compared_count(left, right, n - 1) + (if comparable_at(left, right, n - 1) {
            1nat
        } else {
            0
        })
    }
}

/// The sum of the distances at the positions below `n` at which both hashes are informative.
pub open spec fn compared_total(left: Seq<Seq<char>>, right: Seq<Seq<char>>, n: int) -> nat
    decreases n,
{
    if n <= 0 {
        0
    } else {
        compared_total(left, right, n - 1) + (if comparable_at(left, right, n - 1) {
            hashes::hex_distance(left[n - 1], right[n - 1])->0
        } else {
            0
        })
    }
}

/// The number of positions below `n` at which both hashes are informative and close.
pub open spec fn close_count(
    left: Seq<Seq<char>>,
    right: Seq<Seq<char>>,
    threshold: u32,
    n: int,
) -> nat
    decreases n,
{
    if n <= 0 {
        0
    } else {
        close_count(left, right, threshold, n - 1) + (if comparable_at(left, right, n - 1)
            && hashes::hex_distance(left[n - 1], right[n - 1])->0 <= threshold {
            1nat
        } else {
            0
        })
    }
}

/// The length of the shorter one of two rows.
pub open spec fn common_len(left: Seq<Seq<char>>, right: Seq<Seq<char>>) -> int {
    if left.len() <= right.len() {
        left.len() as int
    } else {
        right.len() as int
    }
}

/// The sum of the distances of two rows in step, and how many positions were compared; none
/// where no position could be.
pub fn aligned_hash_distance(left: &Vec<String>, right: &Vec<String>) -> (r: Option<(u32, usize)>)
    requires
        left@.len() <= MAX_SAMPLES,
        right@.len() <= MAX_SAMPLES,
    ensures
        r is Some == (compared_count(
            models::texts(left@),
            models::texts(right@),
            common_len(models::texts(left@), models::texts(right@)),
        ) > 0),
        r matches Some(found) ==> {
            &&& found.0 == compared_total(
                models::texts(left@),
                models::texts(right@),
                common_len(models::texts(left@), models::texts(right@)),
            )
            &&& found.1 == compared_count(
                models::texts(left@),
                models::texts(right@),
                common_len(models::texts(left@), models::texts(right@)),
            )
            &&& found.1 <= MAX_SAMPLES
        },
{
    let ghost l = models::texts(left@);
    let ghost r = models::texts(right@);
    let count: usize = if left.len() <= right.len() {
        left.len()
    } else {
        right.len()
    };
    let mut total: u32 = 0;
    let mut compared: usize = 0;
    let mut i: usize = 0;
    while i < count
        invariant
            i <= count <= MAX_SAMPLES,
            count <= left@.len(),
            count <= right@.len(),
            l == models::texts(left@),
            r == models::texts(right@),
            compared == compared_count(l, r, i as int),
            total == compared_total(l, r, i as int),
            compared <= i,
            total <= 64 * compared,
        decreases count - i,
    {
        let a = left[i].as_str();
        let b = right[i].as_str();
        assert(a@ == l[i as int] && b@ == r[i as int]);
        if is_informative_hash(a) && is_informative_hash(b) {
            if let Some(d) = hamming_hex(a, b) {
                total += d;
                compared += 1;
            }
        }
        i += 1;
    }
    if compared == 0 {
        None
    } else {
        Some((total, compared))
    }
}

/// The number of positions in step whose hashes are informative and close.
pub fn aligned_close_points(left: &Vec<String>, right: &Vec<String>, threshold: u32) -> (r: usize)
    ensures
        r == close_count(
            models::texts(left@),
            models::texts(right@),
            threshold,
            common_len(models::texts(left@), models::texts(right@)),
        ),
{
    let ghost l = models::texts(left@);
    let ghost r = models::texts(right@);
    let count: usize = if left.len() <= right.len() {
        left.len()
    } else {
        right.len()
    };
    let mut close: usize = 0;
    let mut i: usize = 0;
    while i < count
        invariant
            i <= count,
            count <= left@.len(),
            count <= right@.len(),
            l == models::texts(left@),
            r == models::texts(right@),
            close == close_count(l, r, threshold, i as int),
            close <= i,
        decreases count - i,
    {
        let a = left[i].as_str();
        let b = right[i].as_str();
        assert(a@ == l[i as int] && b@ == r[i as int]);
        if is_informative_hash(a) && is_informative_hash(b) {
            if let Some(d) = hamming_hex(a, b) {
                if d <= threshold {
                    close += 1;
                }
            }
        }
        i += 1;
    }
    close
}

/// How many points in order a clip has to share.
pub open spec fn required_points(
    informative_min: int,
    min_temporal_match_points: int,
    allowed_unmatched_sample_frames: int,
) -> int {
    let floor = if min_temporal_match_points < 1 {
        1
    } else if min_temporal_match_points > 10 {
        10
    } else {
        min_temporal_match_points
    };
    let allowed = if allowed_unmatched_sample_frames > 20 {
        20
    } else {
        allowed_unmatched_sample_frames
    };
    if informative_min - allowed > floor {
        informative_min - allowed
    } else {
        floor
    }
}

/// How many points in order a clip has to share.
pub fn required_temporal_points(
    informative_min: usize,
    min_temporal_match_points: usize,
    allowed_unmatched_sample_frames: usize,
) -> (r: usize)
    ensures
        r == required_points(
            informative_min as int,
            min_temporal_match_points as int,
            allowed_unmatched_sample_frames as int,
        ),
{
    let floor: usize = if min_temporal_match_points < 1 {
        1
    } else if min_temporal_match_points > 10 {
        10
    } else {
        min_temporal_match_points
    };
    if informative_min == 0 {
        return floor;
    }
    let allowed: usize = if allowed_unmatched_sample_frames > 20 {
        20
    } else {
        allowed_unmatched_sample_frames
    };
    let rest: usize = informative_min.saturating_sub(allowed);
    if rest > floor {
        rest
    } else {
        floor
    }
}

/// Allowing more unmatched frames never asks for more points.
pub proof fn law_allowance_relaxes_the_requirement(informative_min: int, floor: int, less: int, more: int)
    requires
        0 <= less <= more,
    ensures
        required_points(informative_min, floor, more) <= required_points(
            informative_min,
            floor,
            less,
        ),
        1 <= required_points(informative_min, floor, more),
{
}

} // verus!
