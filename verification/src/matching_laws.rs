//! What holds of the comparison of two videos: what each finding rests on, and what is found.
use crate::double::Double;
use crate::hashes;
use crate::matching;
use crate::matching::{DurationRelation, MatchOptions, PairFinding};
use crate::models::VideoData;
use crate::settings_laws;
use crate::temporal;
use crate::titles;
use vstd::prelude::*;

verus! {

/// The largest distance at which two frames are taken for one: as it is asked for, but from 6 to 24
/// bits.
pub open spec fn close_bits(options: MatchOptions) -> nat {
    if options.temporal_hash_threshold < 6 {
        6
    } else if options.temporal_hash_threshold > 24 {
        24
    } else {
        options.temporal_hash_threshold as nat
    }
}

/// No informative frame of one video is close to one of the other.
pub open spec fn no_frame_in_common(a: VideoData, b: VideoData, bits: nat) -> bool {
    forall|i: int, j: int|
        #![trigger a.sample_hashes[i], b.sample_hashes[j]]
        0 <= i < a.sample_hashes.len() && 0 <= j < b.sample_hashes.len() && hashes::informative(
            a.sample_hashes[i],
        ) && hashes::informative(b.sample_hashes[j]) ==> hashes::hex_distance(
            a.sample_hashes[i],
            b.sample_hashes[j],
        )->0 > bits
}

/// The positions below `n` at which both rows hold an informative hash.
pub open spec fn both_informative(left: Seq<Seq<char>>, right: Seq<Seq<char>>, n: int) -> Set<int> {
    Set::new(
        |i: int|
            0 <= i < n && i < left.len() && i < right.len() && hashes::informative(left[i])
                && hashes::informative(right[i]),
    )
}

/// The frames that are compared in step are those that are informative in both videos.
pub proof fn law_informative_frames_are_compared(left: Seq<Seq<char>>, right: Seq<Seq<char>>, n: int)
    requires
        0 <= n <= left.len(),
        n <= right.len(),
    ensures
        both_informative(left, right, n).finite(),
        temporal::compared_count(left, right, n) == both_informative(left, right, n).len(),
    decreases n,
{
    if n == 0 {
        assert(both_informative(left, right, 0) =~= Set::<int>::empty());
    } else {
        law_informative_frames_are_compared(left, right, n - 1);
        let before = both_informative(left, right, n - 1);
        let after = both_informative(left, right, n);
        if hashes::informative(left[n - 1]) && hashes::informative(right[n - 1]) {
            assert(after =~= before.insert(n - 1));
        } else {
            assert(after =~= before);
        }
    }
}

/// Where every two frames that are compared in step differ in `low` to `high` bits, so do they on
/// average.
pub proof fn law_average_lies_between_the_distances(
    left: Seq<Seq<char>>,
    right: Seq<Seq<char>>,
    n: int,
    low: nat,
    high: nat,
)
    requires
        0 <= n <= left.len(),
        n <= right.len(),
        forall|i: int|
            #![trigger left[i]]
            0 <= i < n && hashes::informative(left[i]) && hashes::informative(right[i]) ==> low
                <= hashes::hex_distance(left[i], right[i])->0 <= high,
    ensures
        low * temporal::compared_count(left, right, n) <= temporal::compared_total(left, right, n)
            <= high * temporal::compared_count(left, right, n),
    decreases n,
{
    if n > 0 {
        law_average_lies_between_the_distances(left, right, n - 1, low, high);
        let count = temporal::compared_count(left, right, n - 1);
        if hashes::informative(left[n - 1]) && hashes::informative(right[n - 1]) {
            assert(low * (count + 1) == low * count + low) by (nonlinear_arith);
            assert(high * (count + 1) == high * count + high) by (nonlinear_arith);
        }
    } else {
        assert(low * 0 == 0 && high * 0 == 0) by (nonlinear_arith);
    }
}

/// The positions below `n` at which both rows hold an informative hash, and the two are close.
pub open spec fn close_in_step(
    left: Seq<Seq<char>>,
    right: Seq<Seq<char>>,
    bits: u32,
    n: int,
) -> Set<int> {
    Set::new(
        |i: int|
            both_informative(left, right, n).contains(i) && hashes::hex_distance(
                left[i],
                right[i],
            )->0 <= bits,
    )
}

/// The close points in step are the frames, informative in both videos, that differ in at most as
/// many bits as are allowed.
pub proof fn law_close_frames_are_counted(
    left: Seq<Seq<char>>,
    right: Seq<Seq<char>>,
    bits: u32,
    n: int,
)
    requires
        0 <= n <= left.len(),
        n <= right.len(),
    ensures
        close_in_step(left, right, bits, n).finite(),
        temporal::close_count(left, right, bits, n) == close_in_step(left, right, bits, n).len(),
    decreases n,
{
    if n == 0 {
        assert(close_in_step(left, right, bits, 0) =~= Set::<int>::empty());
    } else {
        law_close_frames_are_counted(left, right, bits, n - 1);
        let before = close_in_step(left, right, bits, n - 1);
        let after = close_in_step(left, right, bits, n);
        if hashes::informative(left[n - 1]) && hashes::informative(right[n - 1])
            && hashes::hex_distance(left[n - 1], right[n - 1])->0 <= bits {
            assert(after =~= before.insert(n - 1));
        } else {
            assert(after =~= before);
        }
    }
}

/// The informative frames of a video, by their values, are those of its list, each in its place.
proof fn lemma_values_are_informative(list: Seq<Seq<char>>, k: int) -> (at: int)
    requires
        0 <= k < hashes::informative_values(list).len(),
    ensures
        0 <= at < list.len(),
        hashes::informative(list[at]),
        hashes::hex_value(list[at]) == Some(hashes::informative_values(list)[k]),
    decreases list.len(),
{
    let rest = list.drop_last();
    if k < hashes::informative_values(rest).len() {
        let at = lemma_values_are_informative(rest, k);
        assert(rest[at] == list[at]);
        at
    } else {
        list.len() - 1
    }
}

/// Where no two frames are close, no point matches in order.
pub proof fn law_nothing_close_nothing_matched(left: Seq<u64>, right: Seq<u64>, bits: nat)
    requires
        forall|i: int, j: int|
            #![trigger left[i], right[j]]
            0 <= i < left.len() && 0 <= j < right.len() ==> hashes::distance(left[i], right[j])
                > bits,
    ensures
        temporal::best(left, right, bits).count == 0,
{
    let pairs = temporal::law_best_is_reached(left, right, bits);
    lemma_tally_counts(left, right, pairs);
    if pairs.len() > 0 {
        let first = pairs[0];
        assert(hashes::distance(left[first.0], right[first.1]) <= bits);
    }
}

proof fn lemma_tally_counts(left: Seq<u64>, right: Seq<u64>, pairs: Seq<(int, int)>)
    ensures
        temporal::tally(left, right, pairs).count == pairs.len(),
    decreases pairs.len(),
{
    if pairs.len() > 0 {
        lemma_tally_counts(left, right, pairs.drop_last());
    }
}

/// Points that match in order are close: as many pairs as are counted stand in the same order in
/// both rows, and each differs in at most as many bits as are allowed.
pub proof fn law_matched_points_are_close(left: Seq<u64>, right: Seq<u64>, bits: nat) -> (pairs: Seq<
    (int, int),
>)
    ensures
        pairs.len() == temporal::best(left, right, bits).count,
        forall|k: int|
            #![trigger pairs[k]]
            0 <= k < pairs.len() ==> 0 <= pairs[k].0 < left.len() && 0 <= pairs[k].1 < right.len()
                && hashes::distance(left[pairs[k].0], right[pairs[k].1]) <= bits,
        forall|j: int, k: int|
            #![trigger pairs[j], pairs[k]]
            0 <= j < k < pairs.len() ==> pairs[j].0 < pairs[k].0 && pairs[j].1 < pairs[k].1,
{
    let pairs = temporal::law_best_is_reached(left, right, bits);
    lemma_tally_counts(left, right, pairs);
    pairs
}

/// Any row of pairs that stand in the same order in both rows and are close counts at most as many
/// points as are matched.
pub proof fn law_as_many_points_as_can_be_are_matched(
    left: Seq<u64>,
    right: Seq<u64>,
    bits: nat,
    pairs: Seq<(int, int)>,
)
    requires
        forall|k: int|
            #![trigger pairs[k]]
            0 <= k < pairs.len() ==> 0 <= pairs[k].0 < left.len() && 0 <= pairs[k].1 < right.len()
                && hashes::distance(left[pairs[k].0], right[pairs[k].1]) <= bits,
        forall|j: int, k: int|
            #![trigger pairs[j], pairs[k]]
            0 <= j < k < pairs.len() ==> pairs[j].0 < pairs[k].0 && pairs[j].1 < pairs[k].1,
    ensures
        pairs.len() <= temporal::best(left, right, bits).count,
{
    assert(temporal::is_matching(left, right, bits, pairs));
    temporal::law_best_is_an_upper_bound(left, right, bits, pairs);
    lemma_tally_counts(left, right, pairs);
}

proof fn lemma_nothing_in_order(a: VideoData, b: VideoData, options: MatchOptions)
    requires
        no_frame_in_common(a, b, close_bits(options)),
    ensures
        crate::matching::ordered(a, b, options).count == 0,
{
    let left = hashes::informative_values(a.sample_hashes);
    let right = hashes::informative_values(b.sample_hashes);
    assert forall|i: int, j: int|
        #![trigger left[i], right[j]]
        0 <= i < left.len() && 0 <= j < right.len() implies hashes::distance(left[i], right[j])
        > close_bits(options) by {
        let p = lemma_values_are_informative(a.sample_hashes, i);
        let q = lemma_values_are_informative(b.sample_hashes, j);
        assert(hashes::hex_distance(a.sample_hashes[p], b.sample_hashes[q]) == Some(
            hashes::distance(left[i], right[j]),
        ));
    }
    law_nothing_close_nothing_matched(left, right, close_bits(options));
}

/// The number of frames, informative in both videos, at the same place.
pub open spec fn frames_in_step(a: VideoData, b: VideoData) -> nat {
    temporal::compared_count(
        a.sample_hashes,
        b.sample_hashes,
        if a.sample_hashes.len() <= b.sample_hashes.len() {
            a.sample_hashes.len() as int
        } else {
            b.sample_hashes.len() as int
        },
    )
}

/// The number of bits in which these frames differ, all together.
pub open spec fn bits_in_step(a: VideoData, b: VideoData) -> nat {
    temporal::compared_total(
        a.sample_hashes,
        b.sample_hashes,
        if a.sample_hashes.len() <= b.sample_hashes.len() {
            a.sample_hashes.len() as int
        } else {
            b.sample_hashes.len() as int
        },
    )
}

/// Videos without the same content, whose frames differ in step by more than 14 bits on average and
/// have none in common in any order, do not repeat one another.
pub proof fn law_unrelated_videos_match_nothing(
    a: VideoData,
    b: VideoData,
    relation: DurationRelation,
    options: MatchOptions,
)
    requires
        a.partial_hash is None || b.partial_hash is None || a.partial_hash != b.partial_hash
            || a.size_bytes != b.size_bytes,
        frames_in_step(a, b) > 0 ==> bits_in_step(a, b) > 14 * frames_in_step(a, b),
        no_frame_in_common(a, b, close_bits(options)),
    ensures
        matching::finding(a, b, relation, options) is None,
{
    lemma_nothing_in_order(a, b, options);
}

/// Files whose content hash and size are the same are exact copies, unless their lengths differ by
/// a quarter of a second or more; no others are.
pub proof fn law_copies_share_content_size_and_length(
    a: VideoData,
    b: VideoData,
    relation: DurationRelation,
    options: MatchOptions,
)
    ensures
        matching::finding(a, b, relation, options) == Some(PairFinding::Exact) <==> {
            &&& a.scan_status == "ok"@ && b.scan_status == "ok"@
            &&& a.partial_hash is Some && b.partial_hash is Some
            &&& a.partial_hash->0 == b.partial_hash->0
            &&& a.size_bytes == b.size_bytes
            &&& relation.delta is None || relation.delta->0.lt(
                Double::of(0x3FD0_0000_0000_0000),
            )
        },
{
}

/// What is called a transcode differs in step by at most ten bits on average over two or more
/// frames, and is as long as the other video to 0.94.
pub proof fn law_transcodes_look_alike_in_step(
    a: VideoData,
    b: VideoData,
    relation: DurationRelation,
    options: MatchOptions,
    total_distance: u32,
    compared: usize,
)
    requires
        a.sample_hashes.len() <= 67_108_863,
        b.sample_hashes.len() <= 67_108_863,
        matching::finding(a, b, relation, options) == Some((PairFinding::Transcode { total_distance, compared })),
    ensures
        compared >= 2,
        compared == frames_in_step(a, b),
        total_distance == bits_in_step(a, b),
        total_distance <= 10 * compared,
        relation.ratio matches Some(ratio) && Double::of(0x3FEE_147A_E147_AE14).le(ratio),
{
    lemma_sums_fit(a, b);
}

/// What is called the same source with shifted samples differs in step by at most fourteen bits on
/// average over four or more frames, two of which are close, and is as long as the other video to
/// 0.985.
pub proof fn law_shifted_samples_look_alike_in_step(
    a: VideoData,
    b: VideoData,
    relation: DurationRelation,
    options: MatchOptions,
    close_points: usize,
    total_distance: u32,
    compared: usize,
)
    requires
        a.sample_hashes.len() <= 67_108_863,
        b.sample_hashes.len() <= 67_108_863,
        matching::finding(a, b, relation, options) == Some((PairFinding::OffsetSamples { close_points, total_distance, compared })),
    ensures
        compared >= 4,
        close_points >= 2,
        close_points == close_in_step(
            a.sample_hashes,
            b.sample_hashes,
            close_bits(options) as u32,
            a.sample_hashes.len() as int,
        ).len(),
        compared == frames_in_step(a, b),
        total_distance == bits_in_step(a, b),
        total_distance <= 14 * compared,
        relation.ratio matches Some(ratio) && Double::of(0x3FEF_851E_B851_EB85).le(ratio),
{
    lemma_sums_fit(a, b);
    let n = temporal::common_len(a.sample_hashes, b.sample_hashes);
    let bits = close_bits(options) as u32;
    lemma_close_points_are_bounded(a.sample_hashes, b.sample_hashes, bits, n);
    law_close_frames_are_counted(a.sample_hashes, b.sample_hashes, bits, n);
    assert(close_in_step(
        a.sample_hashes,
        b.sample_hashes,
        bits,
        a.sample_hashes.len() as int,
    ) =~= close_in_step(a.sample_hashes, b.sample_hashes, bits, n));
}

proof fn lemma_close_points_are_bounded(
    left: Seq<Seq<char>>,
    right: Seq<Seq<char>>,
    bits: u32,
    n: int,
)
    requires
        0 <= n,
    ensures
        temporal::close_count(left, right, bits, n) <= n,
    decreases n,
{
    if n > 0 {
        lemma_close_points_are_bounded(left, right, bits, n - 1);
    }
}

proof fn lemma_sums_fit(a: VideoData, b: VideoData)
    requires
        a.sample_hashes.len() <= 67_108_863,
        b.sample_hashes.len() <= 67_108_863,
    ensures
        frames_in_step(a, b) <= 67_108_863,
        bits_in_step(a, b) <= u32::MAX,
{
    let n = temporal::common_len(a.sample_hashes, b.sample_hashes);
    lemma_sums_are_bounded(a.sample_hashes, b.sample_hashes, n);
}

proof fn lemma_sums_are_bounded(left: Seq<Seq<char>>, right: Seq<Seq<char>>, n: int)
    requires
        0 <= n,
    ensures
        temporal::compared_count(left, right, n) <= n,
        temporal::compared_total(left, right, n) <= 64 * n,
    decreases n,
{
    if n > 0 {
        lemma_sums_are_bounded(left, right, n - 1);
        if let (Some(l), Some(r)) = (
            hashes::hex_value(left[n - 1]),
            hashes::hex_value(right[n - 1]),
        ) {
            hashes::lemma_distance_bound(l, r);
        }
    }
}

/// What is called a part of another video shares frames with it in order: at least as many as are
/// asked for, at least all informative ones of the video that has fewer but those that may miss,
/// and, of videos of one length, 35 of 100.
pub proof fn law_clips_share_frames_in_order(
    a: VideoData,
    b: VideoData,
    relation: DurationRelation,
    options: MatchOptions,
    close_points: usize,
    total_distance: u32,
    same_length: bool,
) -> (pairs: Seq<(int, int)>)
    requires
        a.sample_hashes.len() <= 67_108_863,
        b.sample_hashes.len() <= 67_108_863,
        matching::finding(a, b, relation, options) == Some((PairFinding::Clip { close_points, total_distance, same_length })),
    ensures
        pairs.len() == close_points,
        forall|k: int|
            #![trigger pairs[k]]
            0 <= k < pairs.len() ==> {
                &&& 0 <= pairs[k].0 < hashes::informative_values(a.sample_hashes).len()
                &&& 0 <= pairs[k].1 < hashes::informative_values(b.sample_hashes).len()
                &&& hashes::distance(
                    hashes::informative_values(a.sample_hashes)[pairs[k].0],
                    hashes::informative_values(b.sample_hashes)[pairs[k].1],
                ) <= close_bits(options)
            },
        forall|j: int, k: int|
            #![trigger pairs[j], pairs[k]]
            0 <= j < k < pairs.len() ==> pairs[j].0 < pairs[k].0 && pairs[j].1 < pairs[k].1,
        close_points >= 1,
        close_points >= options.min_temporal_match_points || close_points >= 10,
        ({
            let l = hashes::informative_values(a.sample_hashes).len();
            let r = hashes::informative_values(b.sample_hashes).len();
            &&& close_points + options.allowed_unmatched_sample_frames >= l || close_points
                + options.allowed_unmatched_sample_frames >= r
            &&& close_points + 20 >= l || close_points + 20 >= r
            &&& same_length ==> 100 * close_points >= 35 * l || 100 * close_points >= 35 * r
        }),
        same_length <==> (relation.ratio matches Some(ratio) ==> Double::of(0x3FEE_147A_E147_AE14).le(ratio)),
{
    let left = hashes::informative_values(a.sample_hashes);
    let right = hashes::informative_values(b.sample_hashes);
    lemma_fewer_values(a.sample_hashes);
    lemma_fewer_values(b.sample_hashes);
    let pairs = law_matched_points_are_close(left, right, close_bits(options));
    lemma_matching_is_short(left, right, pairs);
    pairs
}

proof fn lemma_fewer_values(list: Seq<Seq<char>>)
    ensures
        hashes::informative_values(list).len() <= list.len(),
    decreases list.len(),
{
    if list.len() > 0 {
        lemma_fewer_values(list.drop_last());
    }
}

proof fn lemma_matching_is_short(left: Seq<u64>, right: Seq<u64>, pairs: Seq<(int, int)>)
    requires
        forall|k: int|
            #![trigger pairs[k]]
            0 <= k < pairs.len() ==> 0 <= pairs[k].0 < left.len(),
        forall|j: int, k: int|
            #![trigger pairs[j], pairs[k]]
            0 <= j < k < pairs.len() ==> pairs[j].0 < pairs[k].0,
    ensures
        pairs.len() <= left.len(),
    decreases pairs.len(),
{
    if pairs.len() > 0 {
        let rest = pairs.drop_last();
        let last = pairs[pairs.len() - 1];
        let shorter = left.take(last.0);
        assert forall|k: int| 0 <= k < rest.len() implies 0 <= (#[trigger] rest[k]).0
            < shorter.len() by {
            assert(rest[k] == pairs[k]);
        }
        assert forall|j: int, k: int|
            #![trigger rest[j], rest[k]]
            0 <= j < k < rest.len() implies rest[j].0 < rest[k].0 by {
            assert(rest[j] == pairs[j] && rest[k] == pairs[k]);
        }
        lemma_matching_is_short(shorter, right, rest);
    }
}

/// What is called a part with a similar title shares a frame in order and a part of its title: two
/// frames and 22 of 100 pairs of characters, or one frame and 65 of 100; and it is not much shorter.
pub proof fn law_titled_clips_share_frames_and_titles(
    a: VideoData,
    b: VideoData,
    relation: DurationRelation,
    options: MatchOptions,
    close_points: usize,
    total_distance: u32,
    overlap: titles::TitleOverlap,
    by_frames: bool,
)
    requires
        a.sample_hashes.len() <= 67_108_863,
        b.sample_hashes.len() <= 67_108_863,
        matching::finding(a, b, relation, options) == Some((PairFinding::TitledClip { close_points, total_distance, overlap, by_frames })),
    ensures
        !no_frame_in_common(a, b, close_bits(options)),
        by_frames ==> close_points >= 2,
        close_points >= 1,
        ({
            let l = titles::bigrams(titles::stem(a.file_name));
            let r = titles::bigrams(titles::stem(b.file_name));
            let shared = l.intersect(r).len();
            &&& l.len() > 0 && r.len() > 0
            &&& 100 * shared >= 22 * l.len() || 100 * shared >= 22 * r.len()
            &&& !by_frames ==> 100 * shared >= 65 * l.len() || 100 * shared >= 65 * r.len()
        }),
        relation.ratio matches Some(ratio) ==> Double::of(0x3FE3_3333_3333_3333).le(ratio),
{
    if no_frame_in_common(a, b, close_bits(options)) {
        lemma_nothing_in_order(a, b, options);
    }
    let left = hashes::informative_values(a.sample_hashes);
    let right = hashes::informative_values(b.sample_hashes);
    lemma_fewer_values(a.sample_hashes);
    let pairs = law_matched_points_are_close(left, right, close_bits(options));
    lemma_matching_is_short(left, right, pairs);
}

/// Videos of one length that look alike in step are found, whatever the options.
pub proof fn law_videos_alike_in_step_are_found(
    a: VideoData,
    b: VideoData,
    relation: DurationRelation,
    options: MatchOptions,
)
    requires
        a.scan_status == "ok"@,
        b.scan_status == "ok"@,
        frames_in_step(a, b) >= 2,
        bits_in_step(a, b) <= 10 * frames_in_step(a, b),
        relation.ratio matches Some(ratio) && Double::of(0x3FEE_147A_E147_AE14).le(ratio),
    ensures
        matching::finding(a, b, relation, options) matches Some(found) && (found is Exact || found
            is Transcode),
{
}

/// A part of another video is found where enough of its informative frames stand in order in the
/// other one.
pub proof fn law_parts_are_found(
    a: VideoData,
    b: VideoData,
    relation: DurationRelation,
    options: MatchOptions,
    pairs: Seq<(int, int)>,
)
    requires
        a.scan_status == "ok"@,
        b.scan_status == "ok"@,
        forall|k: int|
            #![trigger pairs[k]]
            0 <= k < pairs.len() ==> {
                &&& 0 <= pairs[k].0 < hashes::informative_values(a.sample_hashes).len()
                &&& 0 <= pairs[k].1 < hashes::informative_values(b.sample_hashes).len()
                &&& hashes::distance(
                    hashes::informative_values(a.sample_hashes)[pairs[k].0],
                    hashes::informative_values(b.sample_hashes)[pairs[k].1],
                ) <= close_bits(options)
            },
        forall|j: int, k: int|
            #![trigger pairs[j], pairs[k]]
            0 <= j < k < pairs.len() ==> pairs[j].0 < pairs[k].0 && pairs[j].1 < pairs[k].1,
        pairs.len() >= 1,
        pairs.len() >= options.min_temporal_match_points || pairs.len() >= 10,
        ({
            let l = hashes::informative_values(a.sample_hashes).len();
            let r = hashes::informative_values(b.sample_hashes).len();
            let missing = if options.allowed_unmatched_sample_frames > 20 {
                20int
            } else {
                options.allowed_unmatched_sample_frames as int
            };
            &&& pairs.len() + missing >= l || pairs.len() + missing >= r
            &&& {
                ||| relation.ratio matches Some(ratio) && ratio.lt(
                    Double::of(0x3FEE_147A_E147_AE14),
                )
                ||| 100 * pairs.len() >= 35 * l
                ||| 100 * pairs.len() >= 35 * r
            }
        }),
    ensures
        matching::finding(a, b, relation, options) is Some,
{
    let left = hashes::informative_values(a.sample_hashes);
    let right = hashes::informative_values(b.sample_hashes);
    law_as_many_points_as_can_be_are_matched(left, right, close_bits(options), pairs);
    assert(left.len() > pairs[0].0 && right.len() > pairs[0].1);
}

/// The same row of frames matches throughout, with no bit of difference.
pub proof fn law_a_row_matches_itself(row: Seq<u64>, bits: nat)
    ensures
        temporal::best(row, row, bits).count == row.len(),
        temporal::best(row, row, bits).total == 0,
{
    let pairs = Seq::new(row.len(), |k: int| (k, k));
    assert forall|k: int| 0 <= k < pairs.len() implies hashes::distance(
        row[(#[trigger] pairs[k]).0],
        row[pairs[k].1],
    ) == 0 by {
        hashes::law_distance_is_symmetric_and_separates(row[k], row[k]);
    }
    assert(temporal::is_matching(row, row, bits, pairs));
    temporal::law_best_is_an_upper_bound(row, row, bits, pairs);
    lemma_tally_counts(row, row, pairs);
    lemma_own_tally(row, pairs);
    let own = law_matched_points_are_close(row, row, bits);
    lemma_matching_is_short(row, row, own);
}

proof fn lemma_own_tally(row: Seq<u64>, pairs: Seq<(int, int)>)
    requires
        forall|k: int|
            #![trigger pairs[k]]
            0 <= k < pairs.len() ==> hashes::distance(row[pairs[k].0], row[pairs[k].1]) == 0,
    ensures
        temporal::tally(row, row, pairs).total == 0,
    decreases pairs.len(),
{
    if pairs.len() > 0 {
        let rest = pairs.drop_last();
        assert forall|k: int| 0 <= k < rest.len() implies hashes::distance(
            row[(#[trigger] rest[k]).0],
            row[rest[k].1],
        ) == 0 by {
            assert(rest[k] == pairs[k]);
        }
        lemma_own_tally(row, rest);
        assert(pairs[pairs.len() - 1] == pairs.last());
    }
}

/// Options are moved into their ranges, and only as far as is needed.
pub proof fn law_options_are_moved_into_their_ranges(options: MatchOptions)
    ensures
        ({
            let r = options.spec_normalized();
            &&& r.compare_within_same_folder == options.compare_within_same_folder
            &&& settings_laws::is_moved_into(
                options.temporal_hash_threshold as int,
                r.temporal_hash_threshold as int,
                6,
                24,
            )
            &&& settings_laws::is_moved_into(
                options.min_temporal_match_points as int,
                r.min_temporal_match_points as int,
                1,
                10,
            )
            &&& settings_laws::is_moved_into(
                options.allowed_unmatched_sample_frames as int,
                r.allowed_unmatched_sample_frames as int,
                0,
                20,
            )
            &&& Double::of(0).le(options.min_confidence) && options.min_confidence.le(
                Double::of(0x3FF0_0000_0000_0000),
            ) ==> r.min_confidence == options.min_confidence
            &&& !options.min_confidence.nan() ==> Double::of(0).le(r.min_confidence)
                && r.min_confidence.le(Double::of(0x3FF0_0000_0000_0000))
            &&& Double::of(0).le(r.keeper_size_priority_duration_seconds)
            &&& r.keeper_size_priority_duration_seconds.le(Double::of(0x40F5_1800_0000_0000))
            &&& Double::of(0).le(options.keeper_size_priority_duration_seconds)
                && options.keeper_size_priority_duration_seconds.le(
                Double::of(0x40F5_1800_0000_0000),
            ) ==> r.keeper_size_priority_duration_seconds
                == options.keeper_size_priority_duration_seconds
            &&& !options.keeper_size_priority_duration_seconds.finite()
                ==> r.keeper_size_priority_duration_seconds == Double::of(0x4072_C000_0000_0000)
        }),
{
}

/// A pair that is found with the options of a fresh start takes three or more points, of which at most
/// fourteen may be missing, with at most eight differing bits each, and shows from 0.9 on.
pub proof fn law_first_options_are_careful(found: int)
    ensures
        ({
            let first = MatchOptions::spec_default();
            &&& !first.compare_within_same_folder
            &&& Double::of(0x3FEC_CCCC_CCCC_CCCD).le(first.min_confidence)
            &&& first.min_confidence.le(Double::of(0x3FEC_CCCC_CCCC_CCCD))
            &&& first.temporal_hash_threshold == 8
            &&& found >= 17 ==> temporal::required_points(
                found,
                first.min_temporal_match_points as int,
                first.allowed_unmatched_sample_frames as int,
            ) == found - 14
            &&& found < 17 ==> temporal::required_points(
                found,
                first.min_temporal_match_points as int,
                first.allowed_unmatched_sample_frames as int,
            ) == 3
        }),
{
}

/// Videos of similar length with a frame in common are found where their titles share most, whatever
/// else the options ask for.
pub proof fn law_titled_parts_are_found(
    a: VideoData,
    b: VideoData,
    relation: DurationRelation,
    options: MatchOptions,
    i: int,
    j: int,
)
    requires
        a.scan_status == "ok"@,
        b.scan_status == "ok"@,
        0 <= i < hashes::informative_values(a.sample_hashes).len(),
        0 <= j < hashes::informative_values(b.sample_hashes).len(),
        hashes::distance(
            hashes::informative_values(a.sample_hashes)[i],
            hashes::informative_values(b.sample_hashes)[j],
        ) <= close_bits(options),
        relation.ratio matches Some(ratio) ==> Double::of(0x3FE3_3333_3333_3333).le(ratio),
        ({
            let l = titles::bigrams(titles::stem(a.file_name));
            let r = titles::bigrams(titles::stem(b.file_name));
            let shared = l.intersect(r).len();
            &&& l.len() > 0 && r.len() > 0
            &&& 100 * shared >= 65 * l.len() || 100 * shared >= 65 * r.len()
        }),
    ensures
        matching::finding(a, b, relation, options) is Some,
{
    let left = hashes::informative_values(a.sample_hashes);
    let right = hashes::informative_values(b.sample_hashes);
    let pairs = seq![(i, j)];
    law_as_many_points_as_can_be_are_matched(left, right, close_bits(options), pairs);
}

/// Asking for a confidence alone leaves everything else as at first.
pub proof fn law_confidence_alone_changes_nothing_else(min_confidence: Double)
    ensures
        crate::pairing::default_with_confidence(min_confidence) == crate::thresholds::asking(
            MatchOptions::spec_default(),
            min_confidence,
        ),
{
}

} // verus!
