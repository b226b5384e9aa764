//! Grouping matched videos and ranking the videos of a group.
use crate::double::Double;
use crate::matching;
use crate::matching::{kind_text, MatchKind, MatchOptions};
use crate::models;
use crate::models::{MatchGroup, MatchItem, VideoRecord};
use crate::paths;
use crate::text;
use crate::text::{decimal_text, less_text, same_text};
use crate::titles;
use crate::union_find::UnionFind;
use vstd::prelude::*;
use vstd::string::*;

verus! {

/// A scored match of the videos at two positions.
#[derive(Debug, Clone)]
pub struct PairMatch {
    pub left: usize,
    pub right: usize,
    pub kind: MatchKind,
    pub confidence: Double,
    pub evidence: Vec<String>,
}

/// What the lengths and rates of videos say for ranking them: the buckets of each video, and
/// whether the lengths of two videos are so close that the file size decides.
#[derive(Debug, Clone)]
pub struct QualityFacts {
    pub duration_bucket: Vec<i64>,
    pub frame_rate_bucket: Vec<i64>,
    pub durations_within: Vec<Vec<bool>>,
}

impl QualityFacts {
    /// There are facts on each of `n` videos, and closeness does not depend on the order.
    pub open spec fn wf(&self, n: int) -> bool {
        &&& self.duration_bucket@.len() == n
        &&& self.frame_rate_bucket@.len() == n
        &&& self.durations_within@.len() == n
        &&& forall|i: int|
            0 <= i < n ==> (#[trigger] self.durations_within@[i])@.len() == n
        &&& forall|i: int, j: int|
            #![trigger self.durations_within@[i]@[j]]
            0 <= i < n && 0 <= j < n ==> self.durations_within@[i]@[j]
                == self.durations_within@[j]@[i]
    }
}

/// The pixels of a picture of a video.
pub open spec fn pixels(video: models::VideoData) -> int {
    (match video.width {
        Some(w) => w as int,
        None => 0,
    }) * (match video.height {
        Some(h) => h as int,
        None => 0,
    })
}

/// The pixels of a picture of a video.
pub fn pixel_count(video: &VideoRecord) -> (r: u64)
    ensures
        r == pixels(video@),
{
    let w: u64 = match video.width {
        Some(w) => w as u64,
        None => 0,
    };
    let h: u64 = match video.height {
        Some(h) => h as u64,
        None => 0,
    };
    assert(w * h <= 0xffff_ffff * 0xffff_ffff) by (nonlinear_arith)
        requires
            w <= 0xffff_ffff,
            h <= 0xffff_ffff,
    ;
    w * h
}

/// The bit rate in steps of a tenth of a megabit.
pub open spec fn bitrate_step(bitrate: Option<u64>) -> int {
    match bitrate {
        Some(b) => b as int / 100_000,
        None => 0,
    }
}

/// The bit rate in steps of a tenth of a megabit.
pub fn bitrate_bucket(bitrate: Option<u64>) -> (r: u64)
    ensures
        r == bitrate_step(bitrate),
{
    match bitrate {
        Some(b) => b / 100_000,
        None => 0,
    }
}

/// The size in whole mebibytes.
pub fn size_bucket(size_bytes: u64) -> (r: u64)
    ensures
        r == size_bytes as int / 1_048_576,
{
    size_bytes / 1_048_576
}

/// The measures by which a video is ranked, the most important first, where its length is close
/// to that of the other video.
pub open spec fn close_key(video: models::VideoData, frame_rate: i64) -> Seq<int> {
    seq![
        video.size_bytes as int,
        pixels(video),
        bitrate_step(video.bitrate),
        frame_rate as int,
    ]
}

/// The measures by which a video is ranked, the most important first, in general.
pub open spec fn general_key(video: models::VideoData, duration: i64, frame_rate: i64) -> Seq<int> {
    seq![
        duration as int,
        pixels(video),
        bitrate_step(video.bitrate),
        video.size_bytes as int / 1_048_576,
        frame_rate as int,
    ]
}

/// Whether the first difference of two rows of measures is in favour of the second row.
pub open spec fn key_less(left: Seq<int>, right: Seq<int>) -> bool
    decreases left.len(),
{
    if left.len() == 0 || right.len() == 0 {
        false
    } else if left[0] != right[0] {
        left[0] < right[0]
    } else {
        key_less(left.drop_first(), right.drop_first())
    }
}

/// The measures by which video `i` is ranked against video `j`.
pub open spec fn rank_key(videos: Seq<VideoRecord>, facts: QualityFacts, i: int, j: int) -> Seq<
    int,
> {
    if facts.durations_within@[i]@[j] {
        close_key(videos[i]@, facts.frame_rate_bucket@[i])
    } else {
        general_key(videos[i]@, facts.duration_bucket@[i], facts.frame_rate_bucket@[i])
    }
}

/// Whether video `i` ranks below video `j`: its measures are lower, or, where they are the same,
/// its path stands after the other path.
pub open spec fn ranks_below(
    videos: Seq<VideoRecord>,
    facts: QualityFacts,
    i: int,
    j: int,
) -> bool {
    let left = rank_key(videos, facts, i, j);
    let right = rank_key(videos, facts, j, i);
    if left != right {
        key_less(left, right)
    } else {
        text::text_less(videos[j].path@, videos[i].path@)
    }
}

proof fn lemma_key_less_one_way(s: Seq<int>, t: Seq<int>)
    requires
        key_less(s, t),
    ensures
        !key_less(t, s),
    decreases s.len(),
{
    if s[0] == t[0] {
        lemma_key_less_one_way(s.drop_first(), t.drop_first());
    }
}

/// Of two videos at most one ranks below the other.
pub proof fn law_ranking_is_one_way(videos: Seq<VideoRecord>, facts: QualityFacts, i: int, j: int)
    requires
        facts.wf(videos.len() as int),
        0 <= i < videos.len(),
        0 <= j < videos.len(),
        ranks_below(videos, facts, i, j),
    ensures
        !ranks_below(videos, facts, j, i),
{
    let left = rank_key(videos, facts, i, j);
    let right = rank_key(videos, facts, j, i);
    if left != right {
        lemma_key_less_one_way(left, right);
    } else {
        text::lemma_text_less_one_way(videos[j].path@, videos[i].path@);
    }
}

proof fn lemma_key_less_total(s: Seq<int>, t: Seq<int>)
    requires
        s.len() == t.len(),
        s != t,
    ensures
        key_less(s, t) || key_less(t, s),
    decreases s.len(),
{
    if s.len() == 0 {
        assert(s =~= t);
    } else if s[0] == t[0] {
        if s.drop_first() == t.drop_first() {
            assert(s =~= seq![s[0]] + s.drop_first());
            assert(t =~= seq![t[0]] + t.drop_first());
        }
        lemma_key_less_total(s.drop_first(), t.drop_first());
    }
}

/// Of two videos with different paths one ranks below the other.
pub proof fn law_ranking_decides(videos: Seq<VideoRecord>, facts: QualityFacts, i: int, j: int)
    requires
        facts.wf(videos.len() as int),
        0 <= i < videos.len(),
        0 <= j < videos.len(),
        videos[i].path@ != videos[j].path@,
    ensures
        ranks_below(videos, facts, i, j) || ranks_below(videos, facts, j, i),
{
    let left = rank_key(videos, facts, i, j);
    let right = rank_key(videos, facts, j, i);
    if left != right {
        lemma_key_less_total(left, right);
    } else {
        text::lemma_text_less_total(videos[i].path@, videos[j].path@);
    }
}

/// Whether the video at `i` ranks below the one at `j`.
pub fn compare_quality(videos: &Vec<VideoRecord>, facts: &QualityFacts, i: usize, j: usize) -> (r:
    bool)
    requires
        facts.wf(videos@.len() as int),
        i < videos@.len(),
        j < videos@.len(),
    ensures
        r == ranks_below(videos@, *facts, i as int, j as int),
{
    let a = &videos[i];
    let b = &videos[j];
    let close = facts.durations_within[i][j];
    let pa: u64 = pixel_count(a);
    let pb: u64 = pixel_count(b);
    let ra: u64 = bitrate_bucket(a.bitrate);
    let rb: u64 = bitrate_bucket(b.bitrate);
    let fa: i64 = facts.frame_rate_bucket[i];
    let fb: i64 = facts.frame_rate_bucket[j];
    let ghost left = rank_key(videos@, *facts, i as int, j as int);
    let ghost right = rank_key(videos@, *facts, j as int, i as int);
    assert(facts.durations_within@[i as int]@[j as int]
        == facts.durations_within@[j as int]@[i as int]);
    proof {
        reveal_with_fuel(key_less, 6);
    }
    if close {
        if a.size_bytes != b.size_bytes {
            assert(left[0] != right[0]);
            return a.size_bytes < b.size_bytes;
        }
        if pa != pb {
            assert(left[1] != right[1]);
            return pa < pb;
        }
        if ra != rb {
            assert(left[2] != right[2]);
            return ra < rb;
        }
        if fa != fb {
            assert(left[3] != right[3]);
            return fa < fb;
        }
        assert(left =~= right);
    } else {
        let da: i64 = facts.duration_bucket[i];
        let db: i64 = facts.duration_bucket[j];
        let sa: u64 = size_bucket(a.size_bytes);
        let sb: u64 = size_bucket(b.size_bytes);
        if da != db {
            assert(left[0] != right[0]);
            return da < db;
        }
        if pa != pb {
            assert(left[1] != right[1]);
            return pa < pb;
        }
        if ra != rb {
            assert(left[2] != right[2]);
            return ra < rb;
        }
        if sa != sb {
            assert(left[3] != right[3]);
            return sa < sb;
        }
        if fa != fb {
            assert(left[4] != right[4]);
            return fa < fb;
        }
        assert(left =~= right);
    }
    less_text(b.path.as_str(), a.path.as_str())
}

/// A ranking of the positions in `members`: each once, and none that ranks below the next one.
pub open spec fn is_ranking(
    videos: Seq<VideoRecord>,
    facts: QualityFacts,
    members: Seq<usize>,
    ranked: Seq<usize>,
) -> bool {
    &&& ranked.no_duplicates()
    &&& ranked.to_set() == members.to_set()
    &&& ranked.len() == members.len()
    &&& forall|k: int|
        #![trigger ranked[k]]
        0 <= k < ranked.len() - 1 ==> !ranks_below(
            videos,
            facts,
            ranked[k] as int,
            ranked[k + 1] as int,
        )
}

/// The place of a position among the first `n` of a ranking: after the last one that does not rank
/// below it.
pub open spec fn place_among(
    videos: Seq<VideoRecord>,
    facts: QualityFacts,
    ranked: Seq<usize>,
    m: usize,
    n: int,
) -> int
    decreases n,
{
    if n > 0 && ranks_below(videos, facts, ranked[n - 1] as int, m as int) {
        place_among(videos, facts, ranked, m, n - 1)
    } else {
        n
    }
}

/// The ranking of the positions in `members`, each put in its place in turn. Which of three videos
/// comes first may depend on the turn: of two lengths that are close the file sizes decide, and
/// closeness does not carry over.
pub open spec fn ranking_of(
    videos: Seq<VideoRecord>,
    facts: QualityFacts,
    members: Seq<usize>,
) -> Seq<usize>
    decreases members.len(),
{
    if members.len() == 0 {
        Seq::empty()
    } else {
        let rest = ranking_of(videos, facts, members.drop_last());
        let m = members.last();
        rest.insert(place_among(videos, facts, rest, m, rest.len() as int), m)
    }
}

/// Inserting the next position after those that it does not rank above keeps a ranking.
proof fn lemma_ranking_insert(
    videos: Seq<VideoRecord>,
    facts: QualityFacts,
    members: Seq<usize>,
    i: int,
    ranked: Seq<usize>,
    p: int,
)
    requires
        members.no_duplicates(),
        0 <= i < members.len(),
        is_ranking(videos, facts, members.take(i), ranked),
        0 <= p <= ranked.len(),
        p > 0 ==> !ranks_below(videos, facts, ranked[p - 1] as int, members[i] as int),
        p < ranked.len() ==> !ranks_below(videos, facts, members[i] as int, ranked[p] as int),
    ensures
        is_ranking(videos, facts, members.take(i + 1), ranked.insert(p, members[i])),
{
    let m = members[i];
    let after = ranked.insert(p, m);
    assert(members.take(i + 1) =~= members.take(i).push(m));
    crate::hashes::lemma_to_set_push(members.take(i), m);
    assert(!members.take(i).contains(m)) by {
        if members.take(i).contains(m) {
            let k = choose|k: int| 0 <= k < i && members.take(i)[k] == m;
            assert(members[k] == members[i]);
        }
    }
    assert(!ranked.to_set().contains(m));
    assert(!ranked.contains(m));
    lemma_insert_to_set(ranked, p, m);
    assert forall|k: int| 0 <= k < after.len() - 1 implies !ranks_below(
        videos,
        facts,
        (#[trigger] after[k]) as int,
        after[k + 1] as int,
    ) by {
        if k + 1 < p {
            assert(after[k] == ranked[k] && after[k + 1] == ranked[k + 1]);
        } else if k + 1 == p {
            assert(after[k] == ranked[k]);
        } else if k == p {
            assert(after[k + 1] == ranked[k]);
        } else {
            assert(after[k] == ranked[k - 1] && after[k + 1] == ranked[k]);
        }
    }
}

/// The place of a position in a ranking: after those that do not rank below it.
fn ranked_place(
    videos: &Vec<VideoRecord>,
    facts: &QualityFacts,
    ranked: &Vec<usize>,
    m: usize,
) -> (p: usize)
    requires
        facts.wf(videos@.len() as int),
        m < videos@.len(),
        forall|k: int| 0 <= k < ranked@.len() ==> (#[trigger] ranked@[k]) < videos@.len(),
    ensures
        p <= ranked@.len(),
        p == place_among(videos@, *facts, ranked@, m, ranked@.len() as int),
        p > 0 ==> !ranks_below(videos@, *facts, ranked@[p - 1] as int, m as int),
        p < ranked@.len() ==> ranks_below(videos@, *facts, ranked@[p as int] as int, m as int),
{
    let mut p: usize = ranked.len();
    while p > 0 && compare_quality(videos, facts, ranked[p - 1], m)
        invariant
            facts.wf(videos@.len() as int),
            p <= ranked@.len(),
            m < videos@.len(),
            place_among(videos@, *facts, ranked@, m, ranked@.len() as int) == place_among(
                videos@,
                *facts,
                ranked@,
                m,
                p as int,
            ),
            forall|k: int| 0 <= k < ranked@.len() ==> (#[trigger] ranked@[k]) < videos@.len(),
            p < ranked@.len() ==> ranks_below(videos@, *facts, ranked@[p as int] as int, m as int),
        decreases p,
    {
        p -= 1;
    }
    p
}

/// Ranks the positions in `members`, the best video first.
#[verifier::spinoff_prover]
pub fn rank_members(videos: &Vec<VideoRecord>, facts: &QualityFacts, members: &Vec<usize>) -> (r:
    Vec<usize>)
    requires
        facts.wf(videos@.len() as int),
        members@.no_duplicates(),
        forall|k: int| 0 <= k < members@.len() ==> (#[trigger] members@[k]) < videos@.len(),
    ensures
        r@ == ranking_of(videos@, *facts, members@),
        is_ranking(videos@, *facts, members@, r@),
{
    let mut out: Vec<usize> = Vec::new();
    let mut i: usize = 0;
    assert(out@.to_set() =~= members@.take(0).to_set());
    while i < members.len()
        invariant
            facts.wf(videos@.len() as int),
            members@.no_duplicates(),
            forall|k: int| 0 <= k < members@.len() ==> (#[trigger] members@[k]) < videos@.len(),
            i <= members@.len(),
            out@ == ranking_of(videos@, *facts, members@.take(i as int)),
            is_ranking(videos@, *facts, members@.take(i as int), out@),
            forall|k: int| 0 <= k < out@.len() ==> (#[trigger] out@[k]) < videos@.len(),
        decreases members@.len() - i,
    {
        let m: usize = members[i];
        let ghost before = out@;
        let p: usize = ranked_place(videos, facts, &out, m);
        proof {
            if p < before.len() {
                law_ranking_is_one_way(videos@, *facts, before[p as int] as int, m as int);
            }
            lemma_ranking_insert(videos@, *facts, members@, i as int, before, p as int);
        }
        out.insert(p, m);
        assert(members@.take(i + 1).drop_last() =~= members@.take(i as int));
        assert forall|k: int| 0 <= k < out@.len() implies (#[trigger] out@[k]) < videos@.len() by {
            if k < p {
                assert(out@[k] == before[k]);
            } else if k > p {
                assert(out@[k] == before[k - 1]);
            }
        }
        i += 1;
    }
    assert(members@.take(i as int) =~= members@);
    out
}

/// Inserting an item that is not there adds it to the set of items, without repetition.
proof fn lemma_insert_to_set(s: Seq<usize>, p: int, item: usize)
    requires
        0 <= p <= s.len(),
        s.no_duplicates(),
        !s.contains(item),
    ensures
        s.insert(p, item).to_set() =~= s.to_set().insert(item),
        s.insert(p, item).no_duplicates(),
{
    let after = s.insert(p, item);
    assert forall|x: usize| after.to_set().contains(x) <==> s.to_set().insert(item).contains(x) by {
        if after.contains(x) {
            let k = choose|k: int| 0 <= k < after.len() && after[k] == x;
            if k < p {
                assert(s[k] == x);
            } else if k > p {
                assert(s[k - 1] == x);
            }
        }
        if s.contains(x) {
            let k = choose|k: int| 0 <= k < s.len() && s[k] == x;
            if k < p {
                assert(after[k] == x);
            } else {
                assert(after[k + 1] == x);
            }
        }
        assert(after[p] == item);
    }
    assert forall|a: int, b: int| 0 <= a < b < after.len() implies after[a] != after[b] by {
        let x = if a < p {
            a
        } else {
            a - 1
        };
        let y = if b < p {
            b
        } else {
            b - 1
        };
        if a != p && b != p {
            assert(after[a] == s[x] && after[b] == s[y]);
        } else if a == p {
            assert(after[b] == s[y]);
            assert(s.contains(s[y]));
        } else {
            assert(after[a] == s[x]);
            assert(s.contains(s[x]));
        }
    }
}

/// The component of position `v` after the given links: all positions start alone, and each link
/// gives the component of its second end the name of that of its first end.
pub open spec fn component(links: Seq<(int, int)>, v: int) -> int
    decreases links.len(),
{
    if links.len() == 0 {
        v
    } else {
        let rest = links.drop_last();
        let last = links.last();
        if component(rest, v) == component(rest, last.1) {
            component(rest, last.0)
        } else {
            component(rest, v)
        }
    }
}

/// Whether one step along a link leads from `a` to `b`.
pub open spec fn linked(links: Seq<(int, int)>, a: int, b: int) -> bool {
    links.contains((a, b)) || links.contains((b, a))
}

/// Whether a row of positions is a way along links.
pub open spec fn is_way(links: Seq<(int, int)>, way: Seq<int>) -> bool {
    &&& way.len() > 0
    &&& forall|k: int|
        #![trigger way[k]]
        0 <= k < way.len() - 1 ==> linked(links, way[k], way[k + 1])
}

proof fn lemma_link_joins(links: Seq<(int, int)>, k: int)
    requires
        0 <= k < links.len(),
    ensures
        component(links, links[k].0) == component(links, links[k].1),
    decreases links.len(),
{
    if k < links.len() - 1 {
        lemma_link_joins(links.drop_last(), k);
        assert(links.drop_last()[k] == links[k]);
    }
}

/// Positions along one way of links are in one component.
pub proof fn law_linked_positions_share_a_component(links: Seq<(int, int)>, way: Seq<int>)
    requires
        is_way(links, way),
    ensures
        component(links, way[0]) == component(links, way.last()),
    decreases way.len(),
{
    if way.len() > 1 {
        let rest = way.drop_last();
        assert forall|k: int| 0 <= k < rest.len() - 1 implies linked(
            links,
            #[trigger] rest[k],
            rest[k + 1],
        ) by {
            assert(rest[k] == way[k] && rest[k + 1] == way[k + 1]);
        }
        law_linked_positions_share_a_component(links, rest);
        let a = way[way.len() - 2];
        let b = way[way.len() - 1];
        assert(linked(links, way[way.len() - 2], way[way.len() - 2 + 1]));
        if links.contains((a, b)) {
            let k = choose|k: int| 0 <= k < links.len() && links[k] == (a, b);
            lemma_link_joins(links, k);
        } else {
            let k = choose|k: int| 0 <= k < links.len() && links[k] == (b, a);
            lemma_link_joins(links, k);
        }
        assert(rest.last() == a);
    }
}

proof fn lemma_way_grows(rest: Seq<(int, int)>, links: Seq<(int, int)>, way: Seq<int>)
    requires
        rest == links.drop_last(),
        links.len() > 0,
        is_way(rest, way),
    ensures
        is_way(links, way),
{
    assert forall|k: int| 0 <= k < way.len() - 1 implies linked(
        links,
        #[trigger] way[k],
        way[k + 1],
    ) by {
        assert(linked(rest, way[k], way[k + 1]));
        let a = way[k];
        let b = way[k + 1];
        if rest.contains((a, b)) {
            let j = choose|j: int| 0 <= j < rest.len() && rest[j] == (a, b);
            assert(links[j] == (a, b));
        } else {
            let j = choose|j: int| 0 <= j < rest.len() && rest[j] == (b, a);
            assert(links[j] == (b, a));
        }
    }
}

proof fn lemma_ways_join(links: Seq<(int, int)>, first: Seq<int>, second: Seq<int>)
    requires
        is_way(links, first),
        is_way(links, second),
        linked(links, first.last(), second[0]),
    ensures
        is_way(links, first + second),
        (first + second)[0] == first[0],
        (first + second).last() == second.last(),
{
    let way = first + second;
    assert forall|k: int| 0 <= k < way.len() - 1 implies linked(
        links,
        #[trigger] way[k],
        way[k + 1],
    ) by {
        if k < first.len() - 1 {
            assert(way[k] == first[k] && way[k + 1] == first[k + 1]);
        } else if k == first.len() - 1 {
            assert(way[k] == first.last() && way[k + 1] == second[0]);
        } else {
            let j = k - first.len();
            assert(way[k] == second[j] && way[k + 1] == second[j + 1]);
        }
    }
}

/// Positions in one component are joined by a way of links.
pub proof fn law_component_is_linked(links: Seq<(int, int)>, a: int, b: int) -> (way: Seq<int>)
    requires
        component(links, a) == component(links, b),
    ensures
        is_way(links, way),
        way[0] == a,
        way.last() == b,
    decreases links.len(),
{
    if links.len() == 0 {
        seq![a]
    } else {
        let rest = links.drop_last();
        let last = links.last();
        assert(links[links.len() - 1] == last);
        if component(rest, a) == component(rest, b) {
            let way = law_component_is_linked(rest, a, b);
            lemma_way_grows(rest, links, way);
            way
        } else if component(rest, a) == component(rest, last.1) {
            let first = law_component_is_linked(rest, a, last.1);
            let second = law_component_is_linked(rest, last.0, b);
            lemma_way_grows(rest, links, first);
            lemma_way_grows(rest, links, second);
            lemma_ways_join(links, first, second);
            first + second
        } else {
            let first = law_component_is_linked(rest, a, last.0);
            let second = law_component_is_linked(rest, last.1, b);
            lemma_way_grows(rest, links, first);
            lemma_way_grows(rest, links, second);
            lemma_ways_join(links, first, second);
            first + second
        }
    }
}

/// Whether two videos may be matched at all.
pub open spec fn pair_allowed(
    videos: Seq<VideoRecord>,
    same_folder_only: bool,
    left: int,
    right: int,
) -> bool {
    !same_folder_only || paths::shares_parent(videos[left].path@, videos[right].path@)
}

/// Whether two videos may be matched at all: those of different folders only where that is
/// wanted.
pub fn is_pair_allowed(
    videos: &Vec<VideoRecord>,
    same_folder_only: bool,
    left: usize,
    right: usize,
) -> (r: bool)
    requires
        left < videos@.len(),
        right < videos@.len(),
    ensures
        r == pair_allowed(videos@, same_folder_only, left as int, right as int),
{
    !same_folder_only || paths::same_parent_folder(
        videos[left].path.as_str(),
        videos[right].path.as_str(),
    )
}

/// Whether a match is sure enough to hold a group together.
pub open spec fn holds_together(
    videos: Seq<VideoRecord>,
    options: MatchOptions,
    pair: PairMatch,
) -> bool {
    pair_allowed(videos, options.compare_within_same_folder, pair.left as int, pair.right as int)
        && options.min_confidence.min_of(Double::of(matching::HALF)).le(pair.confidence)
}

/// The positions, among the first `n` matches, of those that hold groups together.
pub open spec fn kept_positions(
    videos: Seq<VideoRecord>,
    options: MatchOptions,
    pairs: Seq<PairMatch>,
    n: int,
) -> Seq<usize>
    decreases n,
{
    if n <= 0 {
        Seq::empty()
    } else {
        let rest = kept_positions(videos, options, pairs, n - 1);
        if holds_together(videos, options, pairs[n - 1]) {
            rest.push((n - 1) as usize)
        } else {
            rest
        }
    }
}

/// The links that the kept matches make.
pub open spec fn links_of(pairs: Seq<PairMatch>, kept: Seq<usize>) -> Seq<(int, int)> {
    kept.map_values(|k: usize| (pairs[k as int].left as int, pairs[k as int].right as int))
}

/// The names of the linked components, in the order in which the first `n` links reach them.
pub open spec fn reached(links: Seq<(int, int)>, n: int) -> Seq<int>
    decreases n,
{
    if n <= 0 {
        Seq::empty()
    } else {
        let rest = reached(links, n - 1);
        let root = component(links, links[n - 1].0);
        if rest.contains(root) {
            rest
        } else {
            rest.push(root)
        }
    }
}

/// The positions below `n` of one component, in order.
pub open spec fn members_of(links: Seq<(int, int)>, root: int, n: int) -> Seq<usize>
    decreases n,
{
    if n <= 0 {
        Seq::empty()
    } else {
        let rest = members_of(links, root, n - 1);
        if component(links, n - 1) == root {
            rest.push((n - 1) as usize)
        } else {
            rest
        }
    }
}

/// The positions of a component are listed each once.
pub proof fn lemma_members(links: Seq<(int, int)>, root: int, n: int)
    requires
        0 <= n <= usize::MAX,
    ensures
        members_of(links, root, n).no_duplicates(),
        forall|k: int|
            0 <= k < members_of(links, root, n).len() ==> (#[trigger] members_of(
                links,
                root,
                n,
            )[k]) < n && component(links, members_of(links, root, n)[k] as int) == root,
        forall|v: int|
            0 <= v < n && #[trigger] component(links, v) == root ==> members_of(
                links,
                root,
                n,
            ).contains(v as usize),
    decreases n,
{
    if n > 0 {
        lemma_members(links, root, n - 1);
        let rest = members_of(links, root, n - 1);
        let all = members_of(links, root, n);
        assert forall|v: int|
            0 <= v < n && #[trigger] component(links, v) == root implies all.contains(
            v as usize,
        ) by {
            if v < n - 1 {
                let k = choose|k: int| 0 <= k < rest.len() && rest[k] == v as usize;
                assert(all[k] == v as usize);
            } else {
                assert(all[rest.len() as int] == v as usize);
            }
        }
    }
}

/// A pool of matched videos to be cut into groups.
pub struct Pool {
    pub videos: Seq<VideoRecord>,
    pub facts: QualityFacts,
    pub options: MatchOptions,
    pub pairs: Seq<PairMatch>,
}

impl Pool {
    /// The kept matches.
    pub open spec fn kept(self) -> Seq<usize> {
        kept_positions(self.videos, self.options, self.pairs, self.pairs.len() as int)
    }

    /// The links that the kept matches make.
    pub open spec fn links(self) -> Seq<(int, int)> {
        links_of(self.pairs, self.kept())
    }

    /// The names of the groups, in the order in which the matches reach them.
    pub open spec fn roots(self) -> Seq<int> {
        reached(self.links(), self.links().len() as int)
    }

    /// Whether kept match `k` belongs to a group.
    pub open spec fn in_group(self, root: int, k: int) -> bool {
        component(self.links(), self.links()[k].0) == root
    }

    /// The kept match `k`.
    pub open spec fn kept_pair(self, k: int) -> PairMatch {
        self.pairs[self.kept()[k] as int]
    }

    /// Whether kept match `k` belongs to a group and is as sure as asked for.
    pub open spec fn shown(self, root: int, k: int) -> bool {
        self.in_group(root, k) && self.options.min_confidence.le(self.kept_pair(k).confidence)
    }

    /// Whether a group has a match that is as sure as asked for.
    pub open spec fn visible(self, root: int) -> bool {
        exists|k: int| 0 <= k < self.kept().len() && #[trigger] self.shown(root, k)
    }

    /// The highest confidence among the shown matches of a group, of the first `n` kept ones.
    pub open spec fn top(self, root: int, n: int) -> Double
        decreases n,
    {
        if n <= 0 {
            Double::of(matching::ZERO)
        } else if self.shown(root, n - 1) {
            self.top(root, n - 1).max_of(self.kept_pair(n - 1).confidence)
        } else {
            self.top(root, n - 1)
        }
    }

    /// Whether a group has a match of a kind.
    pub open spec fn has_kind(self, root: int, kind: MatchKind) -> bool {
        exists|k: int|
            0 <= k < self.kept().len() && #[trigger] self.in_group(root, k) && self.kept_pair(
                k,
            ).kind == kind
    }

    /// The kind under which a group is shown.
    pub open spec fn kind(self, root: int) -> MatchKind {
        if self.has_kind(root, MatchKind::Clip) {
            MatchKind::Clip
        } else if self.has_kind(root, MatchKind::Transcode) {
            MatchKind::Transcode
        } else {
            MatchKind::Exact
        }
    }

    /// The evidence of a group, from the first `n` kept matches.
    pub open spec fn evidence(self, root: int, n: int) -> Seq<Seq<char>>
        decreases n,
    {
        if n <= 0 {
            Seq::empty()
        } else if self.in_group(root, n - 1) {
            let items = models::texts(self.kept_pair(n - 1).evidence@);
            gathered(self.evidence(root, n - 1), items, items.len() as int)
        } else {
            self.evidence(root, n - 1)
        }
    }

    /// The videos of a group.
    pub open spec fn members(self, root: int) -> Seq<usize> {
        members_of(self.links(), root, self.videos.len() as int)
    }

    /// Matches are between two different videos of the pool.
    pub open spec fn wf(self) -> bool {
        &&& self.videos.len() <= usize::MAX
        &&& self.pairs.len() <= usize::MAX
        &&& self.facts.wf(self.videos.len() as int)
        &&& forall|k: int|
            #![trigger self.pairs[k]]
            0 <= k < self.pairs.len() ==> self.pairs[k].left < self.pairs[k].right
                < self.videos.len()
        &&& total_size(self.videos, self.videos.len() as int) <= u64::MAX
    }
}

/// At most five different items: `have`, then the first `n` of `items` that are new.
pub open spec fn gathered(have: Seq<Seq<char>>, items: Seq<Seq<char>>, n: int) -> Seq<Seq<char>>
    decreases n,
{
    if n <= 0 {
        have
    } else {
        let rest = gathered(have, items, n - 1);
        if rest.len() >= 5 || rest.contains(items[n - 1]) {
            rest
        } else {
            rest.push(items[n - 1])
        }
    }
}

/// The size of the first `n` videos together.
pub open spec fn total_size(videos: Seq<VideoRecord>, n: int) -> int
    decreases n,
{
    if n <= 0 {
        0
    } else {
        total_size(videos, n - 1) + videos[n - 1].size_bytes
    }
}

/// The size of the videos at some positions together.
pub open spec fn size_of(videos: Seq<VideoRecord>, positions: Seq<usize>) -> int
    decreases positions.len(),
{
    if positions.len() == 0 {
        0
    } else {
        size_of(videos, positions.drop_last()) + videos[positions.last() as int].size_bytes
    }
}

proof fn lemma_size_remove(videos: Seq<VideoRecord>, positions: Seq<usize>, i: int)
    requires
        0 <= i < positions.len(),
    ensures
        size_of(videos, positions) == size_of(videos, positions.remove(i))
            + videos[positions[i] as int].size_bytes,
    decreases positions.len(),
{
    if i == positions.len() - 1 {
        assert(positions.remove(i) =~= positions.drop_last());
    } else {
        lemma_size_remove(videos, positions.drop_last(), i);
        assert(positions.remove(i).drop_last() =~= positions.drop_last().remove(i));
        assert(positions.remove(i).last() == positions.last());
    }
}

/// Different videos are together no larger than all videos.
pub proof fn lemma_size_bound(videos: Seq<VideoRecord>, positions: Seq<usize>, n: int)
    requires
        0 <= n <= videos.len(),
        positions.no_duplicates(),
        forall|k: int| 0 <= k < positions.len() ==> (#[trigger] positions[k]) < n,
    ensures
        0 <= size_of(videos, positions) <= total_size(videos, n),
    decreases n,
{
    if n == 0 {
        if positions.len() > 0 {
            assert(positions[0] < 0);
        }
    } else if exists|i: int| 0 <= i < positions.len() && positions[i] == n - 1 {
        let i = choose|i: int| 0 <= i < positions.len() && positions[i] == n - 1;
        let rest = positions.remove(i);
        assert forall|k: int| 0 <= k < rest.len() implies (#[trigger] rest[k]) < n - 1 by {
            if k < i {
                assert(rest[k] == positions[k]);
            } else {
                assert(rest[k] == positions[k + 1]);
            }
        }
        assert forall|a: int, b: int| 0 <= a < b < rest.len() implies rest[a] != rest[b] by {
            let x = if a < i {
                a
            } else {
                a + 1
            };
            let y = if b < i {
                b
            } else {
                b + 1
            };
            assert(rest[a] == positions[x] && rest[b] == positions[y]);
        }
        lemma_size_bound(videos, rest, n - 1);
        lemma_size_remove(videos, positions, i);
    } else {
        lemma_size_bound(videos, positions, n - 1);
    }
}

/// The position, among the first `n` ranked ones, of the video whose title reads best; of equal
/// ones the last.
pub open spec fn title_position(videos: Seq<VideoRecord>, ranked: Seq<usize>, n: int) -> int
    decreases n,
{
    if n <= 1 {
        0
    } else {
        let rest = title_position(videos, ranked, n - 1);
        if titles::readability(titles::stem(videos[ranked[n - 1] as int].file_name@))
            >= titles::readability(titles::stem(videos[ranked[rest] as int].file_name@)) {
            n - 1
        } else {
            rest
        }
    }
}

/// A number with at least three digits.
pub open spec fn three_digits(n: nat) -> Seq<char> {
    let digits = text::decimal(n);
    if digits.len() >= 3 {
        digits
    } else if digits.len() == 2 {
        seq!['0'] + digits
    } else {
        seq!['0', '0'] + digits
    }
}

/// The part that a video plays in a group.
pub open spec fn role_name(rank: int, kind: MatchKind) -> Seq<char> {
    if rank == 0 {
        "推荐保留"@
    } else if kind == MatchKind::Clip {
        "疑似片段"@
    } else {
        "可替换命名来源"@
    }
}

/// Whether `group` is what the pool shows of the group with the given name and number, its videos
/// ranked as given.
pub open spec fn describes(
    pool: Pool,
    root: int,
    number: nat,
    ranked: Seq<usize>,
    group: MatchGroup,
) -> bool {
    let n = pool.kept().len() as int;
    &&& ranked == ranking_of(pool.videos, pool.facts, pool.members(root))
    &&& is_ranking(pool.videos, pool.facts, pool.members(root), ranked)
    &&& ranked.len() > 0
    &&& group.id@ == "group-"@ + three_digits(number)
    &&& group.title@ == titles::stem(
        pool.videos[ranked[title_position(
            pool.videos,
            ranked,
            ranked.len() as int,
        )] as int].file_name@,
    )
    &&& group.kind@ == matching::kind_name(pool.kind(root))
    &&& group.confidence == pool.top(root, n)
    &&& group.recommended_video_id == pool.videos[ranked[0] as int].id
    &&& group.reclaimable_bytes == size_of(pool.videos, ranked.skip(1))
    &&& group.item_count == ranked.len()
    &&& models::texts(group.evidence@) == pool.evidence(root, n)
    &&& group.report@.len() == 0
    &&& group.items@.len() == ranked.len()
    &&& forall|i: int|
        #![trigger group.items@[i]]
        0 <= i < ranked.len() ==> {
            &&& group.items@[i].video@ == pool.videos[ranked[i] as int]@
            &&& group.items@[i].role@ == role_name(i, pool.kind(root))
            &&& group.items@[i].quality_rank == i + 1
            &&& group.items@[i].match_ranges@.len() == 0
            &&& group.items@[i].match_detail is None
        }
}

/// The positions of the matches that hold groups together.
fn kept_pairs(videos: &Vec<VideoRecord>, options: MatchOptions, pairs: &Vec<PairMatch>) -> (r: Vec<
    usize,
>)
    requires
        forall|k: int|
            #![trigger pairs@[k]]
            0 <= k < pairs@.len() ==> pairs@[k].left < pairs@[k].right < videos@.len(),
    ensures
        r@ == kept_positions(videos@, options, pairs@, pairs@.len() as int),
        forall|k: int| 0 <= k < r@.len() ==> (#[trigger] r@[k]) < pairs@.len(),
{
    let limit = options.min_confidence.min(Double::of(matching::HALF));
    let mut out: Vec<usize> = Vec::new();
    let mut i: usize = 0;
    while i < pairs.len()
        invariant
            i <= pairs@.len(),
            limit == options.min_confidence.min_of(Double::of(matching::HALF)),
            forall|k: int|
                #![trigger pairs@[k]]
                0 <= k < pairs@.len() ==> pairs@[k].left < pairs@[k].right < videos@.len(),
            out@ == kept_positions(videos@, options, pairs@, i as int),
            forall|k: int| 0 <= k < out@.len() ==> (#[trigger] out@[k]) < i,
        decreases pairs@.len() - i,
    {
        let left: usize = pairs[i].left;
        let right: usize = pairs[i].right;
        assert(pairs@[i as int].left < pairs@[i as int].right < videos@.len());
        if is_pair_allowed(videos, options.compare_within_same_folder, left, right)
            && limit.at_most(pairs[i].confidence) {
            out.push(i);
        }
        i += 1;
    }
    out
}

/// The component of each of `n` positions.
fn components(n: usize, pairs: &Vec<PairMatch>, kept: &Vec<usize>) -> (r: Vec<usize>)
    requires
        forall|k: int|
            #![trigger pairs@[k]]
            0 <= k < pairs@.len() ==> pairs@[k].left < pairs@[k].right < n,
        forall|k: int| 0 <= k < kept@.len() ==> (#[trigger] kept@[k]) < pairs@.len(),
    ensures
        r@.len() == n,
        forall|v: int| 0 <= v < n ==> #[trigger] r@[v] == component(links_of(pairs@, kept@), v),
        forall|v: int| 0 <= v < n ==> (#[trigger] r@[v]) < n,
{
    let ghost links = links_of(pairs@, kept@);
    let mut sets = UnionFind::new(n);
    let mut i: usize = 0;
    while i < kept.len()
        invariant
            i <= kept@.len(),
            links == links_of(pairs@, kept@),
            forall|k: int|
                #![trigger pairs@[k]]
                0 <= k < pairs@.len() ==> pairs@[k].left < pairs@[k].right < n,
            forall|k: int| 0 <= k < kept@.len() ==> (#[trigger] kept@[k]) < pairs@.len(),
            sets.wf(),
            sets.size() == n,
            forall|v: int|
                0 <= v < n ==> #[trigger] sets.root(v) == component(links.take(i as int), v),
        decreases kept@.len() - i,
    {
        let k: usize = kept[i];
        assert(pairs@[k as int].left < pairs@[k as int].right < n);
        assert(links.take(i + 1).drop_last() =~= links.take(i as int));
        assert(links.take(i + 1).last() == links[i as int]);
        let left: usize = pairs[k].left;
        let right: usize = pairs[k].right;
        let ghost before = sets;
        sets.union(left, right);
        proof {
            assert forall|v: int| 0 <= v < n implies #[trigger] sets.root(v) == component(
                links.take(i + 1),
                v,
            ) by {
                assert(before.root(v) == component(links.take(i as int), v));
                assert(before.root(left as int) == component(links.take(i as int), left as int));
                assert(before.root(right as int) == component(links.take(i as int), right as int));
            }
        }
        i += 1;
    }
    assert(links.take(kept@.len() as int) =~= links);
    let mut out: Vec<usize> = Vec::new();
    let mut v: usize = 0;
    while v < n
        invariant
            v <= n,
            sets.wf(),
            sets.size() == n,
            out@.len() == v,
            forall|x: int| 0 <= x < n ==> #[trigger] sets.root(x) == component(links, x),
            forall|x: int| 0 <= x < v ==> #[trigger] out@[x] == component(links, x),
            forall|x: int| 0 <= x < v ==> (#[trigger] out@[x]) < n,
        decreases n - v,
    {
        let ghost before = sets;
        let root: usize = sets.find(v);
        proof {
            before.lemma_root(v as int);
            assert forall|x: int| 0 <= x < n implies #[trigger] sets.root(x) == component(
                links,
                x,
            ) by {
                assert(before.root(x) == component(links, x));
            }
        }
        out.push(root);
        v += 1;
    }
    out
}

/// Writes a number with at least three digits.
fn three_digit_text(n: u64) -> (r: String)
    ensures
        r@ == three_digits(n as nat),
{
    let digits = decimal_text(n);
    let count: usize = text::chars_of(digits.as_str()).len();
    proof {
        lemma_decimal_not_empty(n as nat);
    }
    let mut out = String::new();
    if count < 3 {
        out.push('0');
    }
    if count < 2 {
        out.push('0');
    }
    let r = out.concat(digits.as_str());
    assert(r@ =~= three_digits(n as nat));
    r
}

proof fn lemma_decimal_not_empty(n: nat)
    ensures
        text::decimal(n).len() > 0,
    decreases n,
{
    if n >= 10 {
        lemma_decimal_not_empty(n / 10);
    }
}

/// The title of a group: of the titles of its videos the one that reads best.
fn group_title(videos: &Vec<VideoRecord>, ranked: &Vec<usize>) -> (r: String)
    requires
        ranked@.len() > 0,
        forall|k: int| 0 <= k < ranked@.len() ==> (#[trigger] ranked@[k]) < videos@.len(),
    ensures
        r@ == titles::stem(
            videos@[ranked@[title_position(
                videos@,
                ranked@,
                ranked@.len() as int,
            )] as int].file_name@,
        ),
{
    let first: usize = ranked[0];
    let mut best: String = titles::file_stem(videos[first].file_name.as_str());
    let mut best_score: i32 = titles::title_score(best.as_str());
    let ghost mut at: int = 0;
    let mut i: usize = 1;
    while i < ranked.len()
        invariant
            1 <= i <= ranked@.len(),
            forall|k: int| 0 <= k < ranked@.len() ==> (#[trigger] ranked@[k]) < videos@.len(),
            at == title_position(videos@, ranked@, i as int),
            0 <= at < i,
            best@ == titles::stem(videos@[ranked@[at] as int].file_name@),
            best_score == titles::readability(best@),
        decreases ranked@.len() - i,
    {
        let k: usize = ranked[i];
        let stem = titles::file_stem(videos[k].file_name.as_str());
        let score: i32 = titles::title_score(stem.as_str());
        if score >= best_score {
            best = stem;
            best_score = score;
            proof {
                at = i as int;
            }
        }
        i += 1;
    }
    best
}

/// Whether a text is in a list.
fn has_item(list: &Vec<String>, item: &String) -> (r: bool)
    ensures
        r == models::texts(list@).contains(item@),
{
    let mut i: usize = 0;
    while i < list.len()
        invariant
            i <= list@.len(),
            forall|k: int| 0 <= k < i ==> models::texts(list@)[k] != item@,
        decreases list@.len() - i,
    {
        if same_text(list[i].as_str(), item.as_str()) {
            assert(models::texts(list@)[i as int] == item@);
            return true;
        }
        i += 1;
    }
    false
}

/// Adds new items to a list of at most five.
fn gather(have: Vec<String>, items: &Vec<String>) -> (r: Vec<String>)
    ensures
        models::texts(r@) == gathered(
            models::texts(have@),
            models::texts(items@),
            items@.len() as int,
        ),
{
    let mut out = have;
    let ghost start = models::texts(have@);
    let ghost all = models::texts(items@);
    let mut i: usize = 0;
    while i < items.len()
        invariant
            i <= items@.len(),
            all == models::texts(items@),
            models::texts(out@) == gathered(start, all, i as int),
        decreases items@.len() - i,
    {
        if out.len() < 5 && !has_item(&out, &items[i]) {
            let ghost before = out@;
            out.push(items[i].clone());
            assert(models::texts(out@) =~= models::texts(before).push(items@[i as int]@));
        }
        i += 1;
    }
    out
}

/// The part that a video plays in a group.
fn role_text(rank: usize, kind: MatchKind) -> (r: String)
    ensures
        r@ == role_name(rank as int, kind),
{
    if rank == 0 {
        "推荐保留".to_owned()
    } else if kind == MatchKind::Clip {
        "疑似片段".to_owned()
    } else {
        "可替换命名来源".to_owned()
    }
}

/// The items of a group in the order of their rank.
fn group_items(videos: &Vec<VideoRecord>, ranked: &Vec<usize>, kind: MatchKind) -> (r: Vec<
    MatchItem,
>)
    requires
        forall|k: int| 0 <= k < ranked@.len() ==> (#[trigger] ranked@[k]) < videos@.len(),
    ensures
        r@.len() == ranked@.len(),
        forall|i: int|
            #![trigger r@[i]]
            0 <= i < ranked@.len() ==> {
                &&& r@[i].video@ == videos@[ranked@[i] as int]@
                &&& r@[i].role@ == role_name(i, kind)
                &&& r@[i].quality_rank == i + 1
                &&& r@[i].match_ranges@.len() == 0
                &&& r@[i].match_detail is None
            },
{
    let mut items: Vec<MatchItem> = Vec::new();
    let mut i: usize = 0;
    while i < ranked.len()
        invariant
            i <= ranked@.len(),
            forall|k: int| 0 <= k < ranked@.len() ==> (#[trigger] ranked@[k]) < videos@.len(),
            items@.len() == i,
            forall|j: int|
                #![trigger items@[j]]
                0 <= j < i ==> {
                    &&& items@[j].video@ == videos@[ranked@[j] as int]@
                    &&& items@[j].role@ == role_name(j, kind)
                    &&& items@[j].quality_rank == j + 1
                    &&& items@[j].match_ranges@.len() == 0
                    &&& items@[j].match_detail is None
                },
        decreases ranked@.len() - i,
    {
        let k: usize = ranked[i];
        items.push(
            MatchItem {
                video: videos[k].copy(),
                role: role_text(i, kind),
                quality_rank: i + 1,
                match_ranges: Vec::new(),
                match_detail: None,
            },
        );
        i += 1;
    }
    items
}

/// The size of the videos at all positions but the first.
fn size_after_first(videos: &Vec<VideoRecord>, ranked: &Vec<usize>) -> (r: u64)
    requires
        ranked@.len() > 0,
        ranked@.no_duplicates(),
        forall|k: int| 0 <= k < ranked@.len() ==> (#[trigger] ranked@[k]) < videos@.len(),
        total_size(videos@, videos@.len() as int) <= u64::MAX,
    ensures
        r == size_of(videos@, ranked@.skip(1)),
{
    let mut sum: u64 = 0;
    let mut i: usize = 1;
    assert(ranked@.subrange(1, 1) =~= Seq::empty());
    while i < ranked.len()
        invariant
            1 <= i <= ranked@.len(),
            ranked@.no_duplicates(),
            forall|k: int| 0 <= k < ranked@.len() ==> (#[trigger] ranked@[k]) < videos@.len(),
            total_size(videos@, videos@.len() as int) <= u64::MAX,
            sum == size_of(videos@, ranked@.subrange(1, i as int)),
        decreases ranked@.len() - i,
    {
        let k: usize = ranked[i];
        proof {
            let part = ranked@.subrange(1, i + 1);
            assert forall|a: int, b: int| 0 <= a < b < part.len() implies part[a] != part[b] by {
                assert(part[a] == ranked@[a + 1] && part[b] == ranked@[b + 1]);
            }
            assert forall|j: int| 0 <= j < part.len() implies (#[trigger] part[j])
                < videos@.len() by {
                assert(part[j] == ranked@[j + 1]);
            }
            lemma_size_bound(videos@, part, videos@.len() as int);
            assert(part.drop_last() =~= ranked@.subrange(1, i as int));
        }
        sum += videos[k].size_bytes;
        i += 1;
    }
    assert(ranked@.subrange(1, ranked@.len() as int) =~= ranked@.skip(1));
    sum
}

/// What a pool shows of one group; nothing where no match is as sure as asked for.
fn build_group(
    videos: &Vec<VideoRecord>,
    facts: &QualityFacts,
    options: MatchOptions,
    pairs: &Vec<PairMatch>,
    kept: &Vec<usize>,
    component_of: &Vec<usize>,
    root: usize,
    number: usize,
) -> (r: (Option<MatchGroup>, Ghost<Seq<usize>>))
    requires
        (Pool { videos: videos@, facts: *facts, options, pairs: pairs@ }).wf(),
        kept@ == (Pool { videos: videos@, facts: *facts, options, pairs: pairs@ }).kept(),
        forall|k: int| 0 <= k < kept@.len() ==> (#[trigger] kept@[k]) < pairs@.len(),
        component_of@.len() == videos@.len(),
        forall|v: int|
            0 <= v < videos@.len() ==> #[trigger] component_of@[v] == component(
                links_of(pairs@, kept@),
                v,
            ),
        root < videos@.len(),
        component(links_of(pairs@, kept@), root as int) == root,
    ensures
        ({
            let pool = Pool { videos: videos@, facts: *facts, options, pairs: pairs@ };
            &&& r.0 is Some == pool.visible(root as int)
            &&& r.0 matches Some(group) ==> describes(
                pool,
                root as int,
                number as nat,
                r.1@,
                group,
            )
        }),
{
    let ghost pool = Pool { videos: videos@, facts: *facts, options, pairs: pairs@ };
    let ghost links = links_of(pairs@, kept@);
    let mut visible = false;
    let mut top = Double::of(matching::ZERO);
    let mut has_clip = false;
    let mut has_transcode = false;
    let mut evidence: Vec<String> = Vec::new();
    assert(models::texts(evidence@) =~= Seq::<Seq<char>>::empty());
    let mut i: usize = 0;
    while i < kept.len()
        invariant
            i <= kept@.len(),
            pool == (Pool { videos: videos@, facts: *facts, options, pairs: pairs@ }),
            pool.wf(),
            links == links_of(pairs@, kept@),
            kept@ == pool.kept(),
            links == pool.links(),
            forall|k: int| 0 <= k < kept@.len() ==> (#[trigger] kept@[k]) < pairs@.len(),
            component_of@.len() == videos@.len(),
            forall|v: int|
                0 <= v < videos@.len() ==> #[trigger] component_of@[v] == component(links, v),
            visible == exists|k: int| 0 <= k < i && #[trigger] pool.shown(root as int, k),
            top == pool.top(root as int, i as int),
            has_clip == exists|k: int|
                0 <= k < i && #[trigger] pool.in_group(root as int, k) && pool.kept_pair(k).kind
                    == MatchKind::Clip,
            has_transcode == exists|k: int|
                0 <= k < i && #[trigger] pool.in_group(root as int, k) && pool.kept_pair(k).kind
                    == MatchKind::Transcode,
            models::texts(evidence@) == pool.evidence(root as int, i as int),
        decreases kept@.len() - i,
    {
        let k: usize = kept[i];
        assert(pool.pairs[k as int].left < pool.pairs[k as int].right < pool.videos.len());
        let left: usize = pairs[k].left;
        assert(links[i as int].0 == left);
        assert(component_of@[left as int] == component(links, left as int));
        assert(pool.kept_pair(i as int) == pairs@[k as int]);
        if component_of[left] == root {
            assert(pool.in_group(root as int, i as int));
            let pair = &pairs[k];
            if options.min_confidence.at_most(pair.confidence) {
                assert(pool.shown(root as int, i as int));
                visible = true;
                top = top.max(pair.confidence);
            }
            if pair.kind == MatchKind::Clip {
                has_clip = true;
            }
            if pair.kind == MatchKind::Transcode {
                has_transcode = true;
            }
            evidence = gather(evidence, &pair.evidence);
        } else {
            assert(!pool.in_group(root as int, i as int));
        }
        i += 1;
    }
    if !visible {
        return (None, Ghost(Seq::empty()));
    }
    let kind = if has_clip {
        MatchKind::Clip
    } else if has_transcode {
        MatchKind::Transcode
    } else {
        MatchKind::Exact
    };
    assert(kind == pool.kind(root as int));
    let mut members: Vec<usize> = Vec::new();
    let mut v: usize = 0;
    while v < videos.len()
        invariant
            v <= videos@.len(),
            component_of@.len() == videos@.len(),
            forall|x: int|
                0 <= x < videos@.len() ==> #[trigger] component_of@[x] == component(links, x),
            members@ == members_of(links, root as int, v as int),
        decreases videos@.len() - v,
    {
        assert(component_of@[v as int] == component(links, v as int));
        if component_of[v] == root {
            members.push(v);
        }
        v += 1;
    }
    let count: usize = videos.len();
    proof {
        lemma_members(links, root as int, count as int);
        assert(members@.contains(root));
    }
    let ranked = rank_members(videos, facts, &members);
    proof {
        assert forall|k: int| 0 <= k < ranked@.len() implies (#[trigger] ranked@[k])
            < videos@.len() by {
            assert(ranked@.to_set().contains(ranked@[k]));
            assert(members@.contains(ranked@[k]));
        }
    }
    let items = group_items(videos, &ranked, kind);
    let title = group_title(videos, &ranked);
    let first: usize = ranked[0];
    let reclaimable: u64 = size_after_first(videos, &ranked);
    let group = MatchGroup {
        id: "group-".to_owned().concat(three_digit_text(number as u64).as_str()),
        title,
        kind: kind_text(kind),
        confidence: top,
        recommended_video_id: videos[first].id,
        reclaimable_bytes: reclaimable,
        item_count: ranked.len(),
        evidence,
        report: String::new(),
        items,
    };
    (Some(group), Ghost(ranked@))
}

/// Whether one group is listed before another one: it frees more space, or as much with more
/// confidence, or it was reached first.
pub open spec fn listed_before(a: MatchGroup, i: int, b: MatchGroup, j: int) -> bool {
    ||| a.reclaimable_bytes > b.reclaimable_bytes
    ||| a.reclaimable_bytes == b.reclaimable_bytes && a.confidence.rank() > b.confidence.rank()
    ||| a.reclaimable_bytes == b.reclaimable_bytes && a.confidence.rank() == b.confidence.rank()
        && i < j
}

/// Whether the group at place `k` of a list is the one that `order` names.
pub open spec fn describes_at(
    pool: Pool,
    roots: Seq<int>,
    order: Seq<int>,
    ranks: Seq<Seq<usize>>,
    groups: Seq<MatchGroup>,
    k: int,
) -> bool {
    describes(pool, roots[order[k]], (order[k] + 1) as nat, ranks[k], groups[k])
}

/// Whether `groups` lists each visible group of a pool once, in order; `order` says which group
/// stands where, `ranks` how its videos are ranked.
pub open spec fn is_listing(
    pool: Pool,
    order: Seq<int>,
    ranks: Seq<Seq<usize>>,
    groups: Seq<MatchGroup>,
) -> bool {
    &&& order.len() == groups.len()
    &&& ranks.len() == groups.len()
    &&& order.no_duplicates()
    &&& forall|i: int|
        0 <= i < pool.roots().len() ==> (#[trigger] order.contains(i) <==> pool.visible(
            pool.roots()[i],
        ))
    &&& forall|k: int| 0 <= k < order.len() ==> 0 <= #[trigger] order[k] < pool.roots().len()
    &&& forall|k: int|
        0 <= k < groups.len() ==> #[trigger] describes_at(
            pool,
            pool.roots(),
            order,
            ranks,
            groups,
            k,
        )
    &&& forall|j: int, k: int|
        #![trigger groups[j], groups[k]]
        0 <= j < k < groups.len() ==> listed_before(groups[j], order[j], groups[k], order[k])
}

/// Whether `groups` lists each visible group of a pool once, in order.
pub open spec fn lists(pool: Pool, groups: Seq<MatchGroup>) -> bool {
    exists|order: Seq<int>, ranks: Seq<Seq<usize>>| #[trigger]
        is_listing(pool, order, ranks, groups)
}

/// The pool that scored matches make under some options.
pub open spec fn pool_of(
    videos: Seq<VideoRecord>,
    pairs: Seq<PairMatch>,
    options: MatchOptions,
    facts: QualityFacts,
) -> Pool {
    Pool { videos, facts, options: options.spec_normalized(), pairs }
}

/// The place of a group in a listed row: after all that are listed before it.
fn place_of(groups: &Vec<MatchGroup>, group: &MatchGroup) -> (r: usize)
    ensures
        r <= groups@.len(),
        r > 0 ==> !(groups@[r - 1].reclaimable_bytes < group.reclaimable_bytes || (groups@[r
            - 1].reclaimable_bytes == group.reclaimable_bytes && groups@[r - 1].confidence.rank()
            < group.confidence.rank())),
        forall|k: int|
            r <= k < groups@.len() ==> ((#[trigger] groups@[k]).reclaimable_bytes
                < group.reclaimable_bytes || (groups@[k].reclaimable_bytes
                == group.reclaimable_bytes && groups@[k].confidence.rank()
                < group.confidence.rank())),
{
    let rank: i64 = group.confidence.order();
    let mut p: usize = groups.len();
    while p > 0 && (groups[p - 1].reclaimable_bytes < group.reclaimable_bytes || (groups[p
        - 1].reclaimable_bytes == group.reclaimable_bytes && groups[p - 1].confidence.order()
        < rank))
        invariant
            p <= groups@.len(),
            rank == group.confidence.rank(),
            forall|k: int|
                p <= k < groups@.len() ==> ((#[trigger] groups@[k]).reclaimable_bytes
                    < group.reclaimable_bytes || (groups@[k].reclaimable_bytes
                    == group.reclaimable_bytes && groups@[k].confidence.rank()
                    < group.confidence.rank())),
        decreases p,
    {
        p -= 1;
    }
    p
}

/// Cuts scored matches into groups. Matches that hold together join their videos; a group is
/// shown where one of its matches is as sure as asked for. The report of a group is left empty.
pub fn cut_into_groups(
    videos: &Vec<VideoRecord>,
    pairs: &Vec<PairMatch>,
    options: MatchOptions,
    facts: &QualityFacts,
) -> (r: Vec<MatchGroup>)
    requires
        pool_of(videos@, pairs@, options, *facts).wf(),
    ensures
        lists(pool_of(videos@, pairs@, options, *facts), r@),
{
    let options = options.normalized();
    let ghost pool = Pool { videos: videos@, facts: *facts, options, pairs: pairs@ };
    let count: usize = videos.len();
    assert forall|k: int| 0 <= k < pairs@.len() implies (#[trigger] pairs@[k]).left
        < pairs@[k].right < videos@.len() by {
        assert(pool.pairs[k].left < pool.pairs[k].right);
    }
    let kept = kept_pairs(videos, options, pairs);
    let component_of = components(count, pairs, &kept);
    let ghost links = pool.links();
    let mut seen: Vec<usize> = Vec::new();
    let mut groups: Vec<MatchGroup> = Vec::new();
    let ghost mut order: Seq<int> = Seq::empty();
    let ghost mut ranks: Seq<Seq<usize>> = Seq::empty();
    let mut i: usize = 0;
    while i < kept.len()
        invariant
            i <= kept@.len(),
            count == videos@.len(),
            pool == (Pool { videos: videos@, facts: *facts, options, pairs: pairs@ }),
            pool.wf(),
            kept@ == pool.kept(),
            links == pool.links(),
            links == links_of(pairs@, kept@),
            forall|k: int| 0 <= k < kept@.len() ==> (#[trigger] kept@[k]) < pairs@.len(),
            component_of@.len() == videos@.len(),
            forall|v: int|
                0 <= v < videos@.len() ==> #[trigger] component_of@[v] == component(links, v),
            forall|v: int| 0 <= v < videos@.len() ==> (#[trigger] component_of@[v]) < count,
            seen@.map_values(|x: usize| x as int) == reached(links, i as int),
            seen@.len() <= i,
            order.len() == groups@.len(),
            ranks.len() == groups@.len(),
            order.no_duplicates(),
            forall|j: int|
                0 <= j < seen@.len() ==> (#[trigger] order.contains(j) <==> pool.visible(
                    reached(links, i as int)[j],
                )),
            forall|k: int| 0 <= k < order.len() ==> 0 <= #[trigger] order[k] < seen@.len(),
            forall|k: int|
                0 <= k < groups@.len() ==> #[trigger] describes_at(
                    pool,
                    reached(links, i as int),
                    order,
                    ranks,
                    groups@,
                    k,
                ),
            forall|j: int, k: int|
                #![trigger groups@[j], groups@[k]]
                0 <= j < k < groups@.len() ==> listed_before(
                    groups@[j],
                    order[j],
                    groups@[k],
                    order[k],
                ),
        decreases kept@.len() - i,
    {
        let p: usize = kept[i];
        assert(pool.pairs[p as int].left < pool.pairs[p as int].right < pool.videos.len());
        let left: usize = pairs[p].left;
        assert(links[i as int].0 == left);
        assert(component_of@[left as int] == component(links, left as int));
        let root: usize = component_of[left];
        let known = has_position(&seen, root);
        let ghost before_seen = seen@;
        let ghost before_roots = reached(links, i as int);
        if known {
            assert(before_roots.contains(root as int)) by {
                let k = choose|k: int| 0 <= k < before_seen.len() && before_seen[k] == root;
                assert(before_roots[k] == root as int);
            }
            assert(reached(links, i + 1) == before_roots);
        } else {
            assert(!before_roots.contains(root as int)) by {
                if before_roots.contains(root as int) {
                    let k = choose|k: int| 0 <= k < before_roots.len() && before_roots[k]
                        == root as int;
                    assert(before_seen.map_values(|x: usize| x as int)[k] == root as int);
                    assert(before_seen[k] == root);
                }
            }
            assert(reached(links, i + 1) == before_roots.push(root as int));
            proof {
                lemma_component_is_fixed(links, left as int);
            }
            let (built, ranked) = build_group(
                videos,
                facts,
                options,
                pairs,
                &kept,
                &component_of,
                root,
                seen.len() + 1,
            );
            let ghost at = before_seen.len() as int;
            seen.push(root);
            assert(seen@.map_values(|x: usize| x as int) =~= reached(links, i + 1));
            let ghost old_order = order;
            let ghost old_groups = groups@;
            let ghost old_ranks = ranks;
            assert(!old_order.contains(at)) by {
                if old_order.contains(at) {
                    let k = choose|k: int| 0 <= k < old_order.len() && old_order[k] == at;
                    assert(0 <= old_order[k] < before_seen.len());
                }
            }
            if let Some(group) = built {
                let place: usize = place_of(&groups, &group);
                groups.insert(place, group);
                proof {
                    order = old_order.insert(place as int, at);
                    ranks = old_ranks.insert(place as int, ranked@);
                    lemma_listing_insert(
                        old_order,
                        old_groups,
                        place as int,
                        at,
                        group,
                        before_seen.len() as int,
                    );
                    assert forall|k: int| 0 <= k < order.len() implies 0 <= #[trigger] order[k]
                        < seen@.len() by {
                        if k < place {
                            assert(order[k] == old_order[k]);
                        } else if k > place {
                            assert(order[k] == old_order[k - 1]);
                        }
                    }
                    assert forall|k: int| 0 <= k < groups@.len() implies #[trigger] describes_at(
                        pool,
                        reached(links, i + 1),
                        order,
                        ranks,
                        groups@,
                        k,
                    ) by {
                        if k < place {
                            assert(describes_at(
                                pool,
                                before_roots,
                                old_order,
                                old_ranks,
                                old_groups,
                                k,
                            ));
                            assert(0 <= old_order[k] < before_seen.len());
                            assert(groups@[k] == old_groups[k] && order[k] == old_order[k]
                                && ranks[k] == old_ranks[k]);
                        } else if k > place {
                            assert(describes_at(
                                pool,
                                before_roots,
                                old_order,
                                old_ranks,
                                old_groups,
                                k - 1,
                            ));
                            assert(0 <= old_order[k - 1] < before_seen.len());
                            assert(groups@[k] == old_groups[k - 1] && order[k] == old_order[k - 1]
                                && ranks[k] == old_ranks[k - 1]);
                        }
                    }
                }
            }
            proof {
                assert forall|j: int| 0 <= j < seen@.len() implies (#[trigger] order.contains(j)
                    <==> pool.visible(reached(links, i + 1)[j])) by {
                    if built is Some {
                        lemma_insert_contains(old_order, order, at, j);
                    }
                    if j < before_seen.len() {
                        assert(old_order.contains(j) <==> pool.visible(before_roots[j]));
                    }
                }
                if built is None {
                    assert forall|k: int| 0 <= k < groups@.len() implies #[trigger] describes_at(
                        pool,
                        reached(links, i + 1),
                        order,
                        ranks,
                        groups@,
                        k,
                    ) by {
                        assert(describes_at(
                            pool,
                            before_roots,
                            old_order,
                            old_ranks,
                            old_groups,
                            k,
                        ));
                        assert(0 <= old_order[k] < before_seen.len());
                    }
                }
            }
        }
        i += 1;
    }
    assert(reached(links, i as int) == pool.roots());
    assert(seen@.len() == pool.roots().len()) by {
        assert(seen@.map_values(|x: usize| x as int).len() == seen@.len());
    }
    assert(is_listing(pool, order, ranks, groups@));
    groups
}

/// Whether a position is in a list.
fn has_position(list: &Vec<usize>, position: usize) -> (r: bool)
    ensures
        r == list@.contains(position),
{
    let mut i: usize = 0;
    while i < list.len()
        invariant
            i <= list@.len(),
            forall|k: int| 0 <= k < i ==> list@[k] != position,
        decreases list@.len() - i,
    {
        if list[i] == position {
            assert(list@[i as int] == position);
            return true;
        }
        i += 1;
    }
    false
}

/// The name of a component is one of its positions.
proof fn lemma_component_is_fixed(links: Seq<(int, int)>, v: int)
    ensures
        component(links, component(links, v)) == component(links, v),
    decreases links.len(),
{
    if links.len() > 0 {
        let rest = links.drop_last();
        lemma_component_is_fixed(rest, v);
        lemma_component_is_fixed(rest, links.last().0);
    }
}

proof fn lemma_insert_contains(before: Seq<int>, after: Seq<int>, item: int, x: int)
    requires
        exists|p: int| 0 <= p <= before.len() && after == #[trigger] before.insert(p, item),
    ensures
        after.contains(x) <==> (before.contains(x) || x == item),
{
    let p = choose|p: int| 0 <= p <= before.len() && after == #[trigger] before.insert(p, item);
    if after.contains(x) {
        let k = choose|k: int| 0 <= k < after.len() && after[k] == x;
        if k < p {
            assert(before[k] == x);
        } else if k > p {
            assert(before[k - 1] == x);
        }
    }
    if before.contains(x) {
        let k = choose|k: int| 0 <= k < before.len() && before[k] == x;
        if k < p {
            assert(after[k] == x);
        } else {
            assert(after[k + 1] == x);
        }
    }
    assert(after[p] == item);
}

proof fn lemma_listing_insert(
    order: Seq<int>,
    groups: Seq<MatchGroup>,
    place: int,
    at: int,
    group: MatchGroup,
    bound: int,
)
    requires
        order.len() == groups.len(),
        order.no_duplicates(),
        !order.contains(at),
        at == bound,
        forall|k: int| 0 <= k < order.len() ==> 0 <= #[trigger] order[k] < bound,
        0 <= place <= groups.len(),
        place > 0 ==> !(groups[place - 1].reclaimable_bytes < group.reclaimable_bytes || (
        groups[place - 1].reclaimable_bytes == group.reclaimable_bytes && groups[place
            - 1].confidence.rank() < group.confidence.rank())),
        forall|k: int|
            place <= k < groups.len() ==> ((#[trigger] groups[k]).reclaimable_bytes
                < group.reclaimable_bytes || (groups[k].reclaimable_bytes
                == group.reclaimable_bytes && groups[k].confidence.rank()
                < group.confidence.rank())),
        forall|j: int, k: int|
            #![trigger groups[j], groups[k]]
            0 <= j < k < groups.len() ==> listed_before(groups[j], order[j], groups[k], order[k]),
    ensures
        order.insert(place, at).no_duplicates(),
        forall|j: int, k: int|
            #![trigger groups.insert(place, group)[j], groups.insert(place, group)[k]]
            0 <= j < k <= groups.len() ==> listed_before(
                groups.insert(place, group)[j],
                order.insert(place, at)[j],
                groups.insert(place, group)[k],
                order.insert(place, at)[k],
            ),
{
    let after = groups.insert(place, group);
    let places = order.insert(place, at);
    assert forall|j: int, k: int|
        #![trigger after[j], after[k]]
        0 <= j < k <= groups.len() implies listed_before(
        after[j],
        places[j],
        after[k],
        places[k],
    ) by {
        let x = if j < place {
            j
        } else {
            j - 1
        };
        let y = if k < place {
            k
        } else {
            k - 1
        };
        if j != place && k != place {
            assert(after[j] == groups[x] && after[k] == groups[y]);
            assert(places[j] == order[x] && places[k] == order[y]);
        } else if k == place {
            assert(after[j] == groups[j] && places[j] == order[j]);
            if j < place - 1 {
                let a = groups[j];
                let b = groups[place - 1];
                assert(listed_before(a, order[j], b, order[place - 1]));
            }
        } else {
            assert(after[k] == groups[y] && places[k] == order[y]);
        }
    }
    assert forall|a: int, b: int| 0 <= a < b < places.len() implies places[a] != places[b] by {
        let x = if a < place {
            a
        } else {
            a - 1
        };
        let y = if b < place {
            b
        } else {
            b - 1
        };
        if a != place && b != place {
            assert(places[a] == order[x] && places[b] == order[y]);
        } else if a == place {
            assert(places[b] == order[y]);
            assert(order.contains(order[y]));
        } else {
            assert(places[a] == order[x]);
            assert(order.contains(order[x]));
        }
    }
}

/// Where only files of one folder are compared, the videos of a group lie in one folder.
pub proof fn law_same_folder_groups_lie_in_one_folder(pool: Pool, a: int, b: int)
    requires
        pool.wf(),
        pool.options.compare_within_same_folder,
        a != b,
        component(pool.links(), a) == component(pool.links(), b),
    ensures
        paths::shares_parent(pool.videos[a].path@, pool.videos[b].path@),
{
    let way = law_component_is_linked(pool.links(), a, b);
    lemma_way_in_one_folder(pool, way);
}

/// A kept match is one of the matches, and holds a group together.
pub proof fn lemma_kept(pool: Pool, n: int, k: int)
    requires
        0 <= n <= pool.pairs.len() <= usize::MAX,
        0 <= k < kept_positions(pool.videos, pool.options, pool.pairs, n).len(),
    ensures
        kept_positions(pool.videos, pool.options, pool.pairs, n)[k] < n,
        holds_together(
            pool.videos,
            pool.options,
            pool.pairs[kept_positions(pool.videos, pool.options, pool.pairs, n)[k] as int],
        ),
    decreases n,
{
    let rest = kept_positions(pool.videos, pool.options, pool.pairs, n - 1);
    if k < rest.len() {
        lemma_kept(pool, n - 1, k);
        assert(kept_positions(pool.videos, pool.options, pool.pairs, n)[k] == rest[k]);
    }
}

proof fn lemma_way_in_one_folder(pool: Pool, way: Seq<int>)
    requires
        pool.wf(),
        pool.options.compare_within_same_folder,
        is_way(pool.links(), way),
    ensures
        way.len() > 1 ==> paths::shares_parent(
            pool.videos[way[0]].path@,
            pool.videos[way.last()].path@,
        ),
    decreases way.len(),
{
    if way.len() > 1 {
        let links = pool.links();
        let rest = way.drop_last();
        assert forall|k: int| 0 <= k < rest.len() - 1 implies linked(
            links,
            #[trigger] rest[k],
            rest[k + 1],
        ) by {
            assert(rest[k] == way[k] && rest[k + 1] == way[k + 1]);
        }
        lemma_way_in_one_folder(pool, rest);
        let a = way[way.len() - 2];
        let b = way[way.len() - 1];
        assert(linked(links, way[way.len() - 2], way[way.len() - 2 + 1]));
        let k = if links.contains((a, b)) {
            choose|k: int| 0 <= k < links.len() && links[k] == (a, b)
        } else {
            choose|k: int| 0 <= k < links.len() && links[k] == (b, a)
        };
        lemma_kept(pool, pool.pairs.len() as int, k);
    }
}

} // verus!
