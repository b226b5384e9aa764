//! What holds of the ranking of videos and of the groups that they are put into.
use crate::double::Double;
use crate::groups;
use crate::groups::{Pool, QualityFacts};
use crate::matching::MatchKind;
use crate::models::{MatchGroup, VideoRecord};
use crate::paths;
use crate::text;
use crate::titles;
use vstd::prelude::*;

verus! {

/// The pixels of a picture of a video, none where its width or height is not known.
pub open spec fn picture(video: VideoRecord) -> int {
    match (video.width, video.height) {
        (Some(width), Some(height)) => width * height,
        _ => 0,
    }
}

/// The bits per second of a video, none where they are not known.
pub open spec fn bits_per_second(video: VideoRecord) -> int {
    match video.bitrate {
        Some(bits) => bits as int,
        None => 0,
    }
}

/// Of two videos whose lengths are apart, the shorter one ranks below the longer one, whatever else
/// is known of them.
pub proof fn law_longer_videos_rank_above(
    videos: Seq<VideoRecord>,
    facts: QualityFacts,
    i: int,
    j: int,
)
    requires
        facts.wf(videos.len() as int),
        0 <= i < videos.len(),
        0 <= j < videos.len(),
        !facts.durations_within@[i]@[j],
        facts.duration_bucket@[i] < facts.duration_bucket@[j],
    ensures
        groups::ranks_below(videos, facts, i, j),
        !groups::ranks_below(videos, facts, j, i),
{
    let left = groups::rank_key(videos, facts, i, j);
    let right = groups::rank_key(videos, facts, j, i);
    assert(left[0] == facts.duration_bucket@[i] && right[0] == facts.duration_bucket@[j]);
    groups::law_ranking_is_one_way(videos, facts, i, j);
}

/// Of two videos whose lengths are close, the smaller file ranks below the larger one, whatever else
/// is known of them.
pub proof fn law_larger_files_rank_above(
    videos: Seq<VideoRecord>,
    facts: QualityFacts,
    i: int,
    j: int,
)
    requires
        facts.wf(videos.len() as int),
        0 <= i < videos.len(),
        0 <= j < videos.len(),
        facts.durations_within@[i]@[j],
        videos[i].size_bytes < videos[j].size_bytes,
    ensures
        groups::ranks_below(videos, facts, i, j),
        !groups::ranks_below(videos, facts, j, i),
{
    let left = groups::rank_key(videos, facts, i, j);
    let right = groups::rank_key(videos, facts, j, i);
    assert(left[0] == videos[i].size_bytes && right[0] == videos[j].size_bytes);
    groups::law_ranking_is_one_way(videos, facts, i, j);
}

/// Whether two videos are of one length, or, where their lengths are close, of one size.
pub open spec fn first_measure_is_even(
    videos: Seq<VideoRecord>,
    facts: QualityFacts,
    i: int,
    j: int,
) -> bool {
    if facts.durations_within@[i]@[j] {
        videos[i].size_bytes == videos[j].size_bytes
    } else {
        facts.duration_bucket@[i] == facts.duration_bucket@[j]
    }
}

/// Among videos that are even by length or size, smaller pictures rank below larger ones.
pub proof fn law_larger_pictures_rank_above(
    videos: Seq<VideoRecord>,
    facts: QualityFacts,
    i: int,
    j: int,
)
    requires
        facts.wf(videos.len() as int),
        0 <= i < videos.len(),
        0 <= j < videos.len(),
        first_measure_is_even(videos, facts, i, j),
        picture(videos[i]) < picture(videos[j]),
    ensures
        groups::ranks_below(videos, facts, i, j),
        !groups::ranks_below(videos, facts, j, i),
{
    reveal_with_fuel(groups::key_less, 3);
    lemma_no_side_no_picture(videos[i]);
    lemma_no_side_no_picture(videos[j]);
    let left = groups::rank_key(videos, facts, i, j);
    let right = groups::rank_key(videos, facts, j, i);
    assert(left[1] == picture(videos[i]) && right[1] == picture(videos[j]));
    groups::law_ranking_is_one_way(videos, facts, i, j);
}

proof fn lemma_no_side_no_picture(video: VideoRecord)
    ensures
        groups::pixels(video@) == picture(video),
{
    let w = match video.width {
        Some(w) => w as int,
        None => 0,
    };
    let h = match video.height {
        Some(h) => h as int,
        None => 0,
    };
    assert(w == 0 || h == 0 ==> w * h == 0) by (nonlinear_arith);
}

/// Among videos that are even by length or size and by their pictures, a lower bit rate ranks below
/// a higher one, counted in steps of 100000.
pub proof fn law_higher_bit_rates_rank_above(
    videos: Seq<VideoRecord>,
    facts: QualityFacts,
    i: int,
    j: int,
)
    requires
        facts.wf(videos.len() as int),
        0 <= i < videos.len(),
        0 <= j < videos.len(),
        first_measure_is_even(videos, facts, i, j),
        picture(videos[i]) == picture(videos[j]),
        bits_per_second(videos[i]) / 100_000 < bits_per_second(videos[j]) / 100_000,
    ensures
        groups::ranks_below(videos, facts, i, j),
        !groups::ranks_below(videos, facts, j, i),
{
    reveal_with_fuel(groups::key_less, 4);
    lemma_no_side_no_picture(videos[i]);
    lemma_no_side_no_picture(videos[j]);
    let left = groups::rank_key(videos, facts, i, j);
    let right = groups::rank_key(videos, facts, j, i);
    assert(left[2] != right[2]);
    groups::law_ranking_is_one_way(videos, facts, i, j);
}

/// Among videos that are even in all that, a smaller file ranks below a larger one, counted in
/// mebibytes, and then a lower frame rate below a higher one.
pub proof fn law_size_and_frame_rate_come_last(
    videos: Seq<VideoRecord>,
    facts: QualityFacts,
    i: int,
    j: int,
)
    requires
        facts.wf(videos.len() as int),
        0 <= i < videos.len(),
        0 <= j < videos.len(),
        first_measure_is_even(videos, facts, i, j),
        picture(videos[i]) == picture(videos[j]),
        bits_per_second(videos[i]) / 100_000 == bits_per_second(videos[j]) / 100_000,
        videos[i].size_bytes as int / 1_048_576 < videos[j].size_bytes as int / 1_048_576 || (
        videos[i].size_bytes as int / 1_048_576 == videos[j].size_bytes as int / 1_048_576
            && facts.frame_rate_bucket@[i] < facts.frame_rate_bucket@[j]),
    ensures
        groups::ranks_below(videos, facts, i, j),
        !groups::ranks_below(videos, facts, j, i),
{
    reveal_with_fuel(groups::key_less, 6);
    lemma_no_side_no_picture(videos[i]);
    lemma_no_side_no_picture(videos[j]);
    let left = groups::rank_key(videos, facts, i, j);
    let right = groups::rank_key(videos, facts, j, i);
    if facts.durations_within@[i]@[j] {
        assert(left[3] != right[3]);
    } else if videos[i].size_bytes as int / 1_048_576 < videos[j].size_bytes as int / 1_048_576 {
        assert(left[3] != right[3]);
    } else {
        assert(left[4] != right[4]);
    }
    groups::law_ranking_is_one_way(videos, facts, i, j);
}

/// Texts with the same start are ordered by the first character in which they differ; a text comes
/// before every longer one that starts with it.
pub proof fn law_first_difference_orders_texts(start: Seq<char>, s: Seq<char>, t: Seq<char>)
    requires
        t.len() > 0,
        s.len() == 0 || s[0] < t[0],
    ensures
        text::text_less(start + s, start + t),
    decreases start.len(),
{
    if start.len() == 0 {
        assert(start + s =~= s && start + t =~= t);
    } else {
        law_first_difference_orders_texts(start.drop_first(), s, t);
        assert((start + s).drop_first() =~= start.drop_first() + s);
        assert((start + t).drop_first() =~= start.drop_first() + t);
    }
}

/// Among videos that are even in all measures, the one whose path comes first ranks above.
pub proof fn law_equal_videos_rank_by_path(
    videos: Seq<VideoRecord>,
    facts: QualityFacts,
    i: int,
    j: int,
)
    requires
        facts.wf(videos.len() as int),
        0 <= i < videos.len(),
        0 <= j < videos.len(),
        first_measure_is_even(videos, facts, i, j),
        picture(videos[i]) == picture(videos[j]),
        bits_per_second(videos[i]) / 100_000 == bits_per_second(videos[j]) / 100_000,
        videos[i].size_bytes as int / 1_048_576 == videos[j].size_bytes as int / 1_048_576,
        facts.frame_rate_bucket@[i] == facts.frame_rate_bucket@[j],
    ensures
        groups::ranks_below(videos, facts, i, j) == text::text_less(videos[j].path@, videos[i].path@),
{
    lemma_no_side_no_picture(videos[i]);
    lemma_no_side_no_picture(videos[j]);
    assert(groups::rank_key(videos, facts, i, j) =~= groups::rank_key(videos, facts, j, i));
}

/// The positions of the videos of a group, in the order of its items.
pub open spec fn are_places_of(pool: Pool, group: MatchGroup, places: Seq<usize>) -> bool {
    &&& places.len() == group.items@.len()
    &&& places.no_duplicates()
    &&& forall|k: int|
        #![trigger places[k]]
        0 <= k < places.len() ==> places[k] < pool.videos.len() && group.items@[k].video@
            == pool.videos[places[k] as int]@
}

/// The positions of the videos of a listed group.
proof fn lemma_places(pool: Pool, groups: Seq<MatchGroup>, g: int) -> (found: (int, Seq<usize>, nat))
    requires
        pool.wf(),
        groups::lists(pool, groups),
        0 <= g < groups.len(),
    ensures
        are_places_of(pool, groups[g], found.1),
        groups::describes(pool, found.0, found.2, found.1, groups[g]),
        pool.roots().contains(found.0),
        pool.visible(found.0),
        forall|v: int|
            0 <= v < pool.videos.len() ==> (found.1.contains(v as usize) <==> #[trigger] groups::component(
                pool.links(),
                v,
            ) == found.0),
{
    let (order, ranks) = choose|order: Seq<int>, ranks: Seq<Seq<usize>>| #[trigger]
        groups::is_listing(pool, order, ranks, groups);
    assert(groups::describes_at(pool, pool.roots(), order, ranks, groups, g));
    let root = pool.roots()[order[g]];
    let ranked = ranks[g];
    let members = pool.members(root);
    groups::lemma_members(pool.links(), root, pool.videos.len() as int);
    assert(order.contains(order[g]));
    assert forall|k: int| 0 <= k < ranked.len() implies (#[trigger] ranked[k])
        < pool.videos.len() by {
        assert(ranked.to_set().contains(ranked[k]));
        assert(members.to_set().contains(ranked[k]));
    }
    assert forall|v: int| 0 <= v < pool.videos.len() implies (ranked.contains(v as usize)
        <==> #[trigger] groups::component(pool.links(), v) == root) by {
        if ranked.contains(v as usize) {
            assert(ranked.to_set().contains(v as usize));
            assert(members.to_set().contains(v as usize));
        }
        if groups::component(pool.links(), v) == root {
            assert(members.to_set().contains(v as usize));
            assert(ranked.to_set().contains(v as usize));
        }
    }
    (root, ranked, (order[g] + 1) as nat)
}

/// The first video of a group is recommended, the space that the others take can be won back, and no
/// video stands right before one that ranks above it.
pub proof fn law_best_video_is_recommended(pool: Pool, groups: Seq<MatchGroup>, g: int) -> (places: Seq<
    usize,
>)
    requires
        pool.wf(),
        groups::lists(pool, groups),
        0 <= g < groups.len(),
    ensures
        are_places_of(pool, groups[g], places),
        places.len() > 0,
        groups[g].item_count == places.len(),
        groups[g].recommended_video_id == pool.videos[places[0] as int].id,
        groups[g].reclaimable_bytes + pool.videos[places[0] as int].size_bytes == places.fold_left(
            0,
            |sum: int, p: usize| sum + pool.videos[p as int].size_bytes,
        ),
        forall|k: int|
            #![trigger places[k]]
            0 <= k < places.len() ==> groups[g].items@[k].quality_rank == k + 1,
        forall|k: int|
            #![trigger places[k]]
            0 <= k < places.len() - 1 ==> !groups::ranks_below(
                pool.videos,
                pool.facts,
                places[k] as int,
                places[k + 1] as int,
            ),
{
    let (root, places, number) = lemma_places(pool, groups, g);
    lemma_size_is_sum(pool.videos, places);
    lemma_size_splits(pool.videos, places);
    places
}

proof fn lemma_size_is_sum(videos: Seq<VideoRecord>, places: Seq<usize>)
    ensures
        groups::size_of(videos, places) == places.fold_left(
            0,
            |sum: int, p: usize| sum + videos[p as int].size_bytes,
        ),
    decreases places.len(),
{
    reveal_with_fuel(Seq::fold_left, 2);
    if places.len() > 0 {
        lemma_size_is_sum(videos, places.drop_last());
    }
}

proof fn lemma_size_splits(videos: Seq<VideoRecord>, places: Seq<usize>)
    requires
        places.len() > 0,
    ensures
        groups::size_of(videos, places) == videos[places[0] as int].size_bytes + groups::size_of(
            videos,
            places.skip(1),
        ),
    decreases places.len(),
{
    if places.len() == 1 {
        assert(places.skip(1) =~= Seq::empty());
        assert(places.drop_last() =~= Seq::empty());
        reveal_with_fuel(groups::size_of, 2);
    } else {
        lemma_size_splits(videos, places.drop_last());
        assert(places.skip(1).drop_last() =~= places.drop_last().skip(1));
        assert(places.skip(1).last() == places.last());
    }
}

/// Of a group of two videos whose lengths are apart, the longer one is recommended.
pub proof fn law_longer_video_of_two_is_recommended(
    pool: Pool,
    groups: Seq<MatchGroup>,
    g: int,
    short: usize,
    long: usize,
)
    requires
        pool.wf(),
        groups::lists(pool, groups),
        0 <= g < groups.len(),
        are_places_of(pool, groups[g], seq![short, long]) || are_places_of(
            pool,
            groups[g],
            seq![long, short],
        ),
        forall|a: int, b: int|
            #![trigger pool.videos[a], pool.videos[b]]
            0 <= a < b < pool.videos.len() ==> pool.videos[a]@ != pool.videos[b]@,
        !pool.facts.durations_within@[short as int]@[long as int],
        pool.facts.duration_bucket@[short as int] < pool.facts.duration_bucket@[long as int],
    ensures
        groups[g].recommended_video_id == pool.videos[long as int].id,
        groups[g].reclaimable_bytes == pool.videos[short as int].size_bytes,
{
    let places = law_best_video_is_recommended(pool, groups, g);
    let known = if are_places_of(pool, groups[g], seq![short, long]) {
        seq![short, long]
    } else {
        seq![long, short]
    };
    assert(are_places_of(pool, groups[g], known));
    assert(known.contains(known[0]) && known.contains(known[1]));
    assert(places[0] == known[0]) by {
        assert(pool.videos[places[0] as int]@ == pool.videos[known[0] as int]@);
        if places[0] < known[0] {
            assert(pool.videos[places[0] as int]@ != pool.videos[known[0] as int]@);
        } else if known[0] < places[0] {
            assert(pool.videos[known[0] as int]@ != pool.videos[places[0] as int]@);
        }
    }
    assert(places[1] == known[1]) by {
        assert(pool.videos[places[1] as int]@ == pool.videos[known[1] as int]@);
        if places[1] < known[1] {
            assert(pool.videos[places[1] as int]@ != pool.videos[known[1] as int]@);
        } else if known[1] < places[1] {
            assert(pool.videos[known[1] as int]@ != pool.videos[places[1] as int]@);
        }
    }
    law_longer_videos_rank_above(pool.videos, pool.facts, short as int, long as int);
    let first: int = 0;
    assert(!groups::ranks_below(
        pool.videos,
        pool.facts,
        places[first] as int,
        places[first + 1] as int,
    ));
    reveal_with_fuel(Seq::fold_left, 3);
    assert(places =~= seq![places[0], places[1]]);
    assert(places.drop_last() =~= seq![places[0]]);
    assert(seq![places[0]].drop_last() =~= Seq::empty());
}

/// The position at which a match is kept.
proof fn lemma_is_kept(pool: Pool, n: int, m: int) -> (k: int)
    requires
        0 <= m < n <= pool.pairs.len() <= usize::MAX,
        groups::holds_together(pool.videos, pool.options, pool.pairs[m]),
    ensures
        0 <= k < groups::kept_positions(pool.videos, pool.options, pool.pairs, n).len(),
        groups::kept_positions(pool.videos, pool.options, pool.pairs, n)[k] == m,
    decreases n,
{
    let rest = groups::kept_positions(pool.videos, pool.options, pool.pairs, n - 1);
    if m == n - 1 {
        rest.len() as int
    } else {
        let k = lemma_is_kept(pool, n - 1, m);
        assert(groups::kept_positions(pool.videos, pool.options, pool.pairs, n)[k] == rest[k]);
        k
    }
}

proof fn lemma_link_is_reached(links: Seq<(int, int)>, n: int, k: int)
    requires
        0 <= k < n <= links.len(),
    ensures
        groups::reached(links, n).contains(groups::component(links, links[k].0)),
    decreases n,
{
    let rest = groups::reached(links, n - 1);
    let root = groups::component(links, links[k].0);
    let all = groups::reached(links, n);
    if k < n - 1 {
        lemma_link_is_reached(links, n - 1, k);
        let at = choose|at: int| 0 <= at < rest.len() && rest[at] == root;
        assert(all[at] == root);
    } else if !rest.contains(root) {
        assert(all[rest.len() as int] == root);
    }
}

/// Whether two videos may be compared: any two, or, where that is asked for, two of one folder.
pub open spec fn may_be_compared(pool: Pool, left: int, right: int) -> bool {
    pool.options.compare_within_same_folder ==> paths::shares_parent(
        pool.videos[left].path@,
        pool.videos[right].path@,
    )
}

/// Two videos that match as surely as is asked for are in one group that is shown.
pub proof fn law_sure_matches_are_grouped(pool: Pool, groups: Seq<MatchGroup>, m: int) -> (found: (
    int,
    Seq<usize>,
))
    requires
        pool.wf(),
        groups::lists(pool, groups),
        0 <= m < pool.pairs.len(),
        may_be_compared(pool, pool.pairs[m].left as int, pool.pairs[m].right as int),
        pool.options.min_confidence.le(pool.pairs[m].confidence),
    ensures
        0 <= found.0 < groups.len(),
        are_places_of(pool, groups[found.0], found.1),
        found.1.contains(pool.pairs[m].left),
        found.1.contains(pool.pairs[m].right),
{
    let n = pool.pairs.len() as int;
    let k = lemma_is_kept(pool, n, m);
    let links = pool.links();
    assert(links[k] == (pool.pairs[m].left as int, pool.pairs[m].right as int));
    lemma_link_is_reached(links, links.len() as int, k);
    let root = groups::component(links, links[k].0);
    let at = choose|at: int| 0 <= at < pool.roots().len() && pool.roots()[at] == root;
    assert(pool.shown(root, k));
    assert(pool.visible(root));
    let (order, ranks) = choose|order: Seq<int>, ranks: Seq<Seq<usize>>| #[trigger]
        groups::is_listing(pool, order, ranks, groups);
    assert(order.contains(at));
    let g = choose|g: int| 0 <= g < order.len() && order[g] == at;
    assert(groups::describes_at(pool, pool.roots(), order, ranks, groups, g));
    let ranked = ranks[g];
    let members = pool.members(root);
    groups::lemma_members(links, root, pool.videos.len() as int);
    let way = seq![links[k].0, links[k].1];
    assert(links.contains(links[k]));
    assert forall|i: int| 0 <= i < way.len() - 1 implies groups::linked(
        links,
        #[trigger] way[i],
        way[i + 1],
    ) by {
        assert(i == 0);
        assert((way[0], way[1]) == links[k]);
    }
    groups::law_linked_positions_share_a_component(links, way);
    let left = pool.pairs[m].left;
    let right = pool.pairs[m].right;
    assert(groups::component(links, left as int) == root);
    assert(groups::component(links, right as int) == root);
    assert(members.to_set().contains(left) && members.to_set().contains(right));
    assert(ranked.to_set().contains(left) && ranked.to_set().contains(right));
    assert forall|i: int| 0 <= i < ranked.len() implies (#[trigger] ranked[i])
        < pool.videos.len() by {
        assert(ranked.to_set().contains(ranked[i]));
        assert(members.to_set().contains(ranked[i]));
    }
    (g, ranked)
}

/// Whether two videos match, in either order, at least as surely as 0.5 or as is asked for, whichever
/// is less, and may be compared.
pub open spec fn hold_together(pool: Pool, a: int, b: int) -> bool {
    exists|m: int|
        0 <= m < pool.pairs.len() && {
            let pair = #[trigger] pool.pairs[m];
            &&& (pair.left == a && pair.right == b) || (pair.left == b && pair.right == a)
            &&& may_be_compared(pool, pair.left as int, pair.right as int)
            &&& pool.options.min_confidence.le(pair.confidence) || Double::of(
                0x3FE0_0000_0000_0000,
            ).le(pair.confidence)
        }
}

/// Any two videos of a group are joined by matches that hold together.
pub proof fn law_grouped_videos_are_joined_by_matches(
    pool: Pool,
    groups: Seq<MatchGroup>,
    g: int,
    i: int,
    j: int,
) -> (found: (Seq<usize>, Seq<int>))
    requires
        pool.wf(),
        groups::lists(pool, groups),
        0 <= g < groups.len(),
        0 <= i < groups[g].items@.len(),
        0 <= j < groups[g].items@.len(),
    ensures
        are_places_of(pool, groups[g], found.0),
        found.1.len() > 0,
        found.1[0] == found.0[i],
        found.1.last() == found.0[j],
        forall|k: int|
            #![trigger found.1[k]]
            0 <= k < found.1.len() - 1 ==> hold_together(pool, found.1[k], found.1[k + 1]),
{
    let (root, places, number) = lemma_places(pool, groups, g);
    let links = pool.links();
    assert(places.contains(places[i]) && places.contains(places[j]));
    assert(groups::component(links, places[i] as int) == root);
    assert(groups::component(links, places[j] as int) == root);
    let way = groups::law_component_is_linked(links, places[i] as int, places[j] as int);
    assert forall|k: int| 0 <= k < way.len() - 1 implies hold_together(
        pool,
        #[trigger] way[k],
        way[k + 1],
    ) by {
        assert(groups::linked(links, way[k], way[k + 1]));
        let a = way[k];
        let b = way[k + 1];
        let at = if links.contains((a, b)) {
            choose|at: int| 0 <= at < links.len() && links[at] == (a, b)
        } else {
            choose|at: int| 0 <= at < links.len() && links[at] == (b, a)
        };
        groups::lemma_kept(pool, pool.pairs.len() as int, at);
        let m = pool.kept()[at] as int;
        let pair = pool.pairs[m];
    }
    (places, way)
}

/// No video is in two groups.
pub proof fn law_groups_share_no_video(
    pool: Pool,
    groups: Seq<MatchGroup>,
    g: int,
    h: int,
) -> (found: (Seq<usize>, Seq<usize>))
    requires
        pool.wf(),
        groups::lists(pool, groups),
        0 <= g < h < groups.len(),
    ensures
        are_places_of(pool, groups[g], found.0),
        are_places_of(pool, groups[h], found.1),
        forall|p: usize| !(#[trigger] found.0.contains(p) && found.1.contains(p)),
{
    let (order, ranks) = choose|order: Seq<int>, ranks: Seq<Seq<usize>>| #[trigger]
        groups::is_listing(pool, order, ranks, groups);
    lemma_roots_differ(pool.links(), pool.links().len() as int);
    let roots = pool.roots();
    assert(groups::describes_at(pool, roots, order, ranks, groups, g));
    assert(groups::describes_at(pool, roots, order, ranks, groups, h));
    assert(order[g] != order[h]);
    let one = roots[order[g]];
    let other = roots[order[h]];
    groups::lemma_members(pool.links(), one, pool.videos.len() as int);
    groups::lemma_members(pool.links(), other, pool.videos.len() as int);
    assert forall|k: int| 0 <= k < ranks[g].len() implies (#[trigger] ranks[g][k])
        < pool.videos.len() by {
        assert(ranks[g].to_set().contains(ranks[g][k]));
        assert(pool.members(one).to_set().contains(ranks[g][k]));
    }
    assert forall|k: int| 0 <= k < ranks[h].len() implies (#[trigger] ranks[h][k])
        < pool.videos.len() by {
        assert(ranks[h].to_set().contains(ranks[h][k]));
        assert(pool.members(other).to_set().contains(ranks[h][k]));
    }
    assert forall|p: usize| !(#[trigger] ranks[g].contains(p) && ranks[h].contains(p)) by {
        if ranks[g].contains(p) && ranks[h].contains(p) {
            assert(ranks[g].to_set().contains(p) && ranks[h].to_set().contains(p));
            assert(pool.members(one).to_set().contains(p));
            assert(pool.members(other).to_set().contains(p));
        }
    }
    (ranks[g], ranks[h])
}

proof fn lemma_roots_differ(links: Seq<(int, int)>, n: int)
    ensures
        groups::reached(links, n).no_duplicates(),
    decreases n,
{
    if n > 0 {
        lemma_roots_differ(links, n - 1);
    }
}

/// Groups are listed by the space that they can win back, the most first; among those that win the
/// same, the surer one comes first.
pub proof fn law_most_space_comes_first(pool: Pool, groups: Seq<MatchGroup>, g: int, h: int)
    requires
        groups::lists(pool, groups),
        0 <= g < h < groups.len(),
    ensures
        groups[g].reclaimable_bytes >= groups[h].reclaimable_bytes,
        groups[g].reclaimable_bytes == groups[h].reclaimable_bytes ==> !groups[g].confidence.lt(
            groups[h].confidence,
        ),
{
    let (order, ranks) = choose|order: Seq<int>, ranks: Seq<Seq<usize>>| #[trigger]
        groups::is_listing(pool, order, ranks, groups);
    assert(groups::listed_before(groups[g], order[g], groups[h], order[h]));
}

/// The confidence of a group is that of one of the matches between its videos, one that is as sure as
/// is asked for, and no sure match between them is surer.
pub proof fn law_group_is_as_sure_as_its_surest_match(
    pool: Pool,
    groups: Seq<MatchGroup>,
    g: int,
) -> (found: (int, Seq<usize>))
    requires
        pool.wf(),
        groups::lists(pool, groups),
        0 <= g < groups.len(),
        Double::of(0).le(pool.options.min_confidence),
    ensures
        0 <= found.0 < pool.pairs.len(),
        groups[g].confidence == pool.pairs[found.0].confidence || groups[g].confidence
            == Double::of(0),
        pool.options.min_confidence.le(pool.pairs[found.0].confidence),
        pool.options.min_confidence.le(groups[g].confidence),
        are_places_of(pool, groups[g], found.1),
        found.1.contains(pool.pairs[found.0].left),
        forall|m: int|
            #![trigger pool.pairs[m]]
            0 <= m < pool.pairs.len() && found.1.contains(pool.pairs[m].left) && may_be_compared(
                pool,
                pool.pairs[m].left as int,
                pool.pairs[m].right as int,
            ) && pool.options.min_confidence.le(pool.pairs[m].confidence)
                ==> pool.pairs[m].confidence.le(groups[g].confidence),
{
    let (root, places, number) = lemma_places(pool, groups, g);
    let n = pool.kept().len() as int;
    let k = lemma_top_is_reached(pool, root, n);
    groups::lemma_kept(pool, pool.pairs.len() as int, k);
    let links = pool.links();
    let m = pool.kept()[k] as int;
    assert(links[k] == (pool.pairs[m].left as int, pool.pairs[m].right as int));
    assert(groups::component(links, pool.pairs[m].left as int) == root);
    assert forall|m: int|
        #![trigger pool.pairs[m]]
        0 <= m < pool.pairs.len() && places.contains(pool.pairs[m].left) && may_be_compared(
            pool,
            pool.pairs[m].left as int,
            pool.pairs[m].right as int,
        ) && pool.options.min_confidence.le(
            pool.pairs[m].confidence,
        ) implies pool.pairs[m].confidence.le(groups[g].confidence) by {
        let at = lemma_is_kept(pool, pool.pairs.len() as int, m);
        assert(links[at] == (pool.pairs[m].left as int, pool.pairs[m].right as int));
        assert(groups::component(links, pool.pairs[m].left as int) == root);
        assert(pool.shown(root, at));
    }
    (m, places)
}

proof fn lemma_top_is_reached(pool: Pool, root: int, n: int) -> (k: int)
    requires
        pool.pairs.len() <= usize::MAX,
        0 <= n <= pool.kept().len(),
        Double::of(0).le(pool.options.min_confidence),
        exists|k: int| 0 <= k < n && #[trigger] pool.shown(root, k),
    ensures
        0 <= k < n,
        pool.shown(root, k),
        pool.top(root, n) == pool.kept_pair(k).confidence || pool.top(root, n) == Double::of(0),
        pool.kept_pair(k).confidence.le(pool.top(root, n)),
        forall|i: int|
            0 <= i < n && #[trigger] pool.shown(root, i) ==> pool.kept_pair(i).confidence.le(
                pool.top(root, n),
            ),
    decreases n,
{
    let some = choose|k: int| 0 <= k < n && #[trigger] pool.shown(root, k);
    if exists|k: int| 0 <= k < n - 1 && #[trigger] pool.shown(root, k) {
        let k = lemma_top_is_reached(pool, root, n - 1);
        if pool.shown(root, n - 1) && pool.top(root, n - 1).lt(pool.kept_pair(n - 1).confidence) {
            n - 1
        } else {
            k
        }
    } else {
        assert(some == n - 1);
        lemma_nothing_shown(pool, root, n - 1);
        n - 1
    }
}

proof fn lemma_nothing_shown(pool: Pool, root: int, n: int)
    requires
        forall|k: int| 0 <= k < n ==> !#[trigger] pool.shown(root, k),
    ensures
        pool.top(root, n) == Double::of(0),
    decreases n,
{
    if n > 0 {
        lemma_nothing_shown(pool, root, n - 1);
    }
}

/// A group with a match of parts counts as one of parts; else one with a re-encoded copy as such; else
/// its videos are copies.
pub proof fn law_loosest_match_names_the_group(pool: Pool, root: int, k: int)
    requires
        0 <= k < pool.kept().len(),
        pool.in_group(root, k),
    ensures
        pool.kept_pair(k).kind is Clip ==> pool.kind(root) is Clip,
        pool.kept_pair(k).kind is Transcode ==> pool.kind(root) is Clip || pool.kind(root)
            is Transcode,
        pool.kind(root) is Transcode ==> exists|j: int|
            0 <= j < pool.kept().len() && #[trigger] pool.in_group(root, j) && pool.kept_pair(
                j,
            ).kind is Transcode,
        pool.kind(root) is Clip ==> exists|j: int|
            0 <= j < pool.kept().len() && #[trigger] pool.in_group(root, j) && pool.kept_pair(
                j,
            ).kind is Clip,
{
}

/// A group is named for the video with the most readable title; of equals, for the one that ranks
/// lowest.
pub proof fn law_most_readable_title_names_the_group(
    videos: Seq<VideoRecord>,
    ranked: Seq<usize>,
    n: int,
    k: int,
)
    requires
        0 <= k < n <= ranked.len(),
    ensures
        ({
            let at = groups::title_position(videos, ranked, n);
            let points = |i: int|
                titles::readability(titles::stem(videos[ranked[i] as int].file_name@));
            &&& 0 <= at < n
            &&& points(k) <= points(at)
            &&& k > at ==> points(k) < points(at)
        }),
    decreases n,
{
    if n > 1 {
        if k < n - 1 {
            law_most_readable_title_names_the_group(videos, ranked, n - 1, k);
        } else {
            law_most_readable_title_names_the_group(videos, ranked, n - 1, 0);
        }
    }
}

/// A title with Chinese characters is more readable than one without.
pub proof fn law_titles_with_chinese_are_more_readable(
    chinese: Seq<char>,
    other: Seq<char>,
    i: int,
)
    requires
        0 <= i < chinese.len(),
        '\u{4e00}' <= chinese[i] <= '\u{9fff}',
        forall|k: int|
            0 <= k < other.len() ==> !('\u{4e00}' <= #[trigger] other[k] <= '\u{9fff}'),
    ensures
        titles::readability(chinese) > titles::readability(other),
{
    assert(titles::is_cjk(chinese[i]));
    assert(!titles::is_digit(chinese[i]));
    assert forall|k: int| 0 <= k < other.len() implies !titles::is_cjk(#[trigger] other[k]) by {}
}

/// A title of digits alone is less readable than one of the same length with a digit and something
/// else; a length from 4 to 90 helps.
pub proof fn law_titles_of_digits_are_less_readable(
    digits: Seq<char>,
    mixed: Seq<char>,
    i: int,
    j: int,
)
    requires
        digits.len() == mixed.len(),
        forall|k: int| 0 <= k < digits.len() ==> '0' <= #[trigger] digits[k] <= '9',
        0 <= i < mixed.len(),
        '0' <= mixed[i] <= '9',
        0 <= j < mixed.len(),
        !('0' <= mixed[j] <= '9'),
    ensures
        titles::readability(digits) < titles::readability(mixed),
        digits.len() > 0 && 4 <= mixed.len() <= 90 ==> titles::readability(mixed) >= 55,
        mixed.len() < 4 || mixed.len() > 90 ==> titles::readability(digits) <= 15,
{
    assert(titles::is_digit(mixed[i]));
    assert(!titles::is_digit(mixed[j]));
    assert forall|k: int| 0 <= k < digits.len() implies titles::is_digit(#[trigger] digits[k])
        && !titles::is_cjk(digits[k]) by {}
}

/// Of the evidence of a group at most five pieces are told, none twice, and only pieces that its
/// matches have.
pub proof fn law_evidence_is_told_once(have: Seq<Seq<char>>, items: Seq<Seq<char>>, n: int)
    requires
        have.len() <= 5,
        have.no_duplicates(),
        0 <= n <= items.len(),
    ensures
        have.len() <= groups::gathered(have, items, n).len() <= 5,
        groups::gathered(have, items, n).no_duplicates(),
        groups::gathered(have, items, n).take(have.len() as int) == have,
        forall|k: int|
            0 <= k < groups::gathered(have, items, n).len() ==> have.contains(
                #[trigger] groups::gathered(have, items, n)[k],
            ) || items.contains(groups::gathered(have, items, n)[k]),
        groups::gathered(have, items, n).len() < 5 ==> forall|k: int|
            0 <= k < n ==> groups::gathered(have, items, n).contains(#[trigger] items[k]),
    decreases n,
{
    if n <= 0 {
        assert(have.take(have.len() as int) =~= have);
        assert forall|k: int| 0 <= k < have.len() implies have.contains(#[trigger] have[k]) by {}
    } else {
        law_evidence_is_told_once(have, items, n - 1);
        let rest = groups::gathered(have, items, n - 1);
        let all = groups::gathered(have, items, n);
        let own = items[n - 1];
        if rest.len() < 5 && !rest.contains(own) {
            assert(all =~= rest.push(own));
            assert(all.take(have.len() as int) =~= rest.take(have.len() as int));
            assert forall|k: int| 0 <= k < all.len() implies have.contains(#[trigger] all[k])
                || items.contains(all[k]) by {
                if k < rest.len() {
                    assert(all[k] == rest[k]);
                } else {
                    assert(items.contains(items[n - 1]));
                }
            }
            assert forall|k: int| 0 <= k < n implies all.contains(#[trigger] items[k]) by {
                if k < n - 1 {
                    assert(rest.contains(items[k]));
                    let at = choose|at: int| 0 <= at < rest.len() && rest[at] == items[k];
                    assert(all[at] == items[k]);
                } else {
                    assert(all[rest.len() as int] == own);
                }
            }
        }
    }
}

/// Only the first video of a group is recommended.
pub proof fn law_only_the_first_is_recommended(rank: int, kind: MatchKind)
    ensures
        groups::role_name(0, kind) == "推荐保留"@,
        rank > 0 ==> groups::role_name(rank, kind) != groups::role_name(0, kind),
        rank > 0 && kind is Clip ==> groups::role_name(rank, kind) == "疑似片段"@,
{
    reveal_strlit("推荐保留");
    reveal_strlit("疑似片段");
    reveal_strlit("可替换命名来源");
    assert("推荐保留"@[0] != "疑似片段"@[0]);
    assert("推荐保留"@[0] != "可替换命名来源"@[0]);
}

/// The number of a group is written with at least three digits, and can be read back.
pub proof fn law_group_numbers_have_three_digits(n: nat)
    requires
        n <= u64::MAX,
    ensures
        groups::three_digits(n).len() >= 3,
        crate::media::number_of(groups::three_digits(n)) == Some(n as int),
{
    crate::media_laws::law_written_numbers_are_read_back(n);
    let s = text::decimal(n);
    let digits = crate::media::digits_of(s);
    assert('0' <= digits[0] <= '9');
    if s[0] == '+' {
        assert(text::decimal(n).len() > 0);
        lemma_decimal_starts_with_a_digit(n);
    }
    assert(digits == s);
    if s.len() < 3 {
        lemma_zero_in_front(s);
        if s.len() == 1 {
            lemma_zero_in_front(seq!['0'] + s);
            assert(seq!['0', '0'] + s =~= seq!['0'] + (seq!['0'] + s));
        }
    }
}

proof fn lemma_decimal_starts_with_a_digit(n: nat)
    ensures
        text::decimal(n).len() > 0,
        '0' <= text::decimal(n)[0] <= '9',
    decreases n,
{
    if n >= 10 {
        lemma_decimal_starts_with_a_digit(n / 10);
        assert(text::decimal(n)[0] == text::decimal(n / 10)[0]);
    }
}

proof fn lemma_zero_in_front(s: Seq<char>)
    requires
        s.len() > 0,
        crate::local_preprocess::all_digits(s),
    ensures
        crate::local_preprocess::all_digits(seq!['0'] + s),
        crate::media::digits_value(seq!['0'] + s) == crate::media::digits_value(s),
    decreases s.len(),
{
    let whole = seq!['0'] + s;
    assert forall|k: int| 0 <= k < whole.len() implies '0' <= #[trigger] whole[k] <= '9' by {
        if k > 0 {
            assert(whole[k] == s[k - 1]);
        }
    }
    assert(whole.drop_last() =~= seq!['0'] + s.drop_last());
    assert(whole.last() == s.last());
    if s.len() > 1 {
        let head = s.drop_last();
        assert forall|k: int| 0 <= k < head.len() implies '0' <= #[trigger] head[k] <= '9' by {
            assert(head[k] == s[k]);
        }
        lemma_zero_in_front(head);
    } else {
        assert(s.drop_last() =~= Seq::empty());
        assert(whole.drop_last() =~= seq!['0']);
        assert(seq!['0'].drop_last() =~= Seq::<char>::empty());
        reveal_with_fuel(crate::media::digits_value, 3);
    }
}

} // verus!
