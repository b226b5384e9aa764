//! How groups of videos that look alike are shown.
use crate::ai_groups;
use crate::ai_groups::{edge_key, AiEdge, AiGroupDraft};
use crate::double::Double;
use crate::groups;
use crate::merging;
use crate::merging::find_place;
use crate::models;
use crate::models::{MatchDetail, MatchGroup, MatchItem, VideoRecord};
use crate::text;
use crate::text::{add_line, cat, cat3, cat5, decimal_text, less_text, signed_decimal_text};
use vstd::prelude::*;
use vstd::string::*;

verus! {

/// The confidence, 0.68, below which no video joins a group.
pub const MIN_EXPANSION: u64 = 0x3FE5_C28F_5C28_F5C3;

/// The confidence from which a video may join a group.
pub fn expansion_threshold(threshold: Double) -> (r: Double)
    ensures
        r == threshold.max_of(Double { bits: MIN_EXPANSION }),
        Double::of(0x3FE5_C28F_5C28_F5C3).le(r),
        threshold.le(r) || threshold.nan(),
{
    threshold.max(Double { bits: MIN_EXPANSION })
}

/// Whether one video of a group is rather dropped than another. `close` tells that their lengths
/// differ little; then the larger file is kept, else the one of better quality; of equals, the one
/// whose path comes first.
pub open spec fn keeper_below(a: VideoRecord, b: VideoRecord, close: bool) -> bool {
    if close {
        a.size_bytes < b.size_bytes || (a.size_bytes == b.size_bytes && text::text_less(
            b.path@,
            a.path@,
        ))
    } else {
        a.quality_score.total_rank() < b.quality_score.total_rank() || (
        a.quality_score.total_rank() == b.quality_score.total_rank() && text::text_less(
            b.path@,
            a.path@,
        ))
    }
}

/// Whether one video of a group is rather dropped than another.
pub fn is_keeper_below(a: &VideoRecord, b: &VideoRecord, close: bool) -> (r: bool)
    ensures
        r == keeper_below(*a, *b, close),
{
    if close {
        a.size_bytes < b.size_bytes || (a.size_bytes == b.size_bytes && less_text(
            b.path.as_str(),
            a.path.as_str(),
        ))
    } else {
        let x: i64 = a.quality_score.total_order();
        let y: i64 = b.quality_score.total_order();
        x < y || (x == y && less_text(b.path.as_str(), a.path.as_str()))
    }
}

/// Of two videos at most one is rather dropped.
pub proof fn law_keeping_is_one_way(a: VideoRecord, b: VideoRecord, close: bool)
    requires
        keeper_below(a, b, close),
    ensures
        !keeper_below(b, a, close),
{
    if text::text_less(b.path@, a.path@) {
        text::lemma_text_less_one_way(b.path@, a.path@);
    }
}

/// Which videos of a group have lengths that differ little, by their positions in it.
pub open spec fn is_table(close: Seq<Vec<bool>>, n: int) -> bool {
    &&& close.len() == n
    &&& forall|i: int| 0 <= i < n ==> (#[trigger] close[i])@.len() == n
    &&& forall|i: int, j: int|
        #![trigger close[i]@[j]]
        0 <= i < n && 0 <= j < n ==> close[i]@[j] == close[j]@[i]
}

/// Whether members of a group are ranked: each once, and none rather dropped than the next.
pub open spec fn is_keeper_ranking(
    videos: Seq<VideoRecord>,
    members: Seq<usize>,
    close: Seq<Vec<bool>>,
    ranked: Seq<usize>,
) -> bool {
    &&& ranked.len() == members.len()
    &&& ranked.no_duplicates()
    &&& forall|k: int| 0 <= k < ranked.len() ==> (#[trigger] ranked[k]) < members.len()
    &&& forall|m: int| 0 <= m < members.len() ==> #[trigger] ranked.contains(m as usize)
    &&& forall|k: int|
        0 < k < ranked.len() ==> !keeper_below(
            videos[members[ranked[k - 1] as int] as int],
            videos[members[(#[trigger] ranked[k]) as int] as int],
            close[ranked[k - 1] as int]@[ranked[k] as int],
        )
}

/// Ranks the members of a group, the one to keep first.
pub fn rank_keepers(
    videos: &Vec<VideoRecord>,
    members: &Vec<usize>,
    close: &Vec<Vec<bool>>,
) -> (r: Vec<usize>)
    requires
        forall|k: int| 0 <= k < members@.len() ==> (#[trigger] members@[k]) < videos@.len(),
        is_table(close@, members@.len() as int),
    ensures
        is_keeper_ranking(videos@, members@, close@, r@),
{
    let mut out: Vec<usize> = Vec::new();
    let total: usize = members.len();
    let mut i: usize = 0;
    while i < members.len()
        invariant
            i <= members@.len(),
            total == members@.len(),
            forall|k: int| 0 <= k < members@.len() ==> (#[trigger] members@[k]) < videos@.len(),
            is_table(close@, members@.len() as int),
            out@.len() == i,
            out@.no_duplicates(),
            forall|k: int| 0 <= k < out@.len() ==> (#[trigger] out@[k]) < i,
            forall|m: int| 0 <= m < i ==> #[trigger] out@.contains(m as usize),
            forall|k: int|
                0 < k < out@.len() ==> !keeper_below(
                    videos@[members@[out@[k - 1] as int] as int],
                    videos@[members@[(#[trigger] out@[k]) as int] as int],
                    close@[out@[k - 1] as int]@[out@[k] as int],
                ),
        decreases members@.len() - i,
    {
        let ghost before = out@;
        let mut j: usize = out.len();
        while j > 0 && is_keeper_below(
            &videos[members[out[j - 1]]],
            &videos[members[i]],
            close[out[j - 1]][i],
        )
            invariant
                j <= out@.len(),
                i < members@.len(),
                out@ == before,
                forall|k: int|
                    0 <= k < members@.len() ==> (#[trigger] members@[k]) < videos@.len(),
                is_table(close@, members@.len() as int),
                forall|k: int| 0 <= k < out@.len() ==> (#[trigger] out@[k]) < i,
                j < out@.len() ==> keeper_below(
                    videos@[members@[out@[j as int] as int] as int],
                    videos@[members@[i as int] as int],
                    close@[out@[j as int] as int]@[i as int],
                ),
            decreases j,
        {
            j -= 1;
        }
        out.insert(j, i);
        proof {
            assert forall|k: int| 0 <= k < out@.len() implies #[trigger] out@[k] == (if k < j {
                before[k]
            } else if k == j {
                i
            } else {
                before[k - 1]
            }) by {}
            assert forall|a: int, b: int| 0 <= a < b < out@.len() implies out@[a] != out@[b] by {
                let x = if a < j {
                    a
                } else {
                    a - 1
                };
                let y = if b < j {
                    b
                } else {
                    b - 1
                };
                if a != j && b != j {
                    assert(before[x] != before[y]);
                }
            }
            assert forall|m: int| 0 <= m < i + 1 implies #[trigger] out@.contains(m as usize) by {
                if m == i {
                    assert(out@[j as int] == i);
                } else {
                    assert(before.contains(m as usize));
                    let k = choose|k: int| 0 <= k < before.len() && before[k] == m as usize;
                    if k < j {
                        assert(out@[k] == m as usize);
                    } else {
                        assert(out@[k + 1] == m as usize);
                    }
                }
            }
            assert forall|k: int| 0 < k < out@.len() implies !keeper_below(
                videos@[members@[out@[k - 1] as int] as int],
                videos@[members@[(#[trigger] out@[k]) as int] as int],
                close@[out@[k - 1] as int]@[out@[k] as int],
            ) by {
                if k == j {
                    assert(out@[k - 1] == before[k - 1]);
                } else if k == j + 1 {
                    assert(out@[k] == before[j as int]);
                    law_keeping_is_one_way(
                        videos@[members@[before[j as int] as int] as int],
                        videos@[members@[i as int] as int],
                        close@[before[j as int] as int]@[i as int],
                    );
                    assert(close@[i as int]@[before[j as int] as int]
                        == close@[before[j as int] as int]@[i as int]);
                } else if k < j {
                    assert(out@[k - 1] == before[k - 1] && out@[k] == before[k]);
                } else {
                    assert(out@[k - 1] == before[k - 2] && out@[k] == before[k - 1]);
                }
            }
        }
        i += 1;
    }
    out
}

/// What was worked out of the comparisons of a group: their average confidence, and averages and
/// the least confidence in percent.
#[derive(Debug, Clone, Copy, PartialEq, Eq, Structural)]
pub struct GroupFigures {
    pub confidence: Double,
    pub similarity_percent: u32,
    pub lowest_percent: u32,
    pub coverage_percent: u32,
}

/// The most matching frames of the comparisons at the first `n` positions.
pub open spec fn most_matched(edges: Seq<AiEdge>, links: Seq<usize>, n: int) -> int
    decreases n,
{
    if n <= 0 {
        0
    } else {
        let rest = most_matched(edges, links, n - 1);
        let own = edges[links[n - 1] as int].matched as int;
        if own > rest {
            own
        } else {
            rest
        }
    }
}

/// The most compared frames of the comparisons at the first `n` positions.
pub open spec fn most_compared(edges: Seq<AiEdge>, links: Seq<usize>, n: int) -> int
    decreases n,
{
    if n <= 0 {
        0
    } else {
        let rest = most_compared(edges, links, n - 1);
        let own = edges[links[n - 1] as int].compared as int;
        if own > rest {
            own
        } else {
            rest
        }
    }
}

/// The evidence of a group.
pub open spec fn group_evidence(figures: GroupFigures, matched: int, compared: int) -> Seq<
    Seq<char>,
> {
    seq![
        "AI帧平均相似度 "@ + text::decimal(figures.similarity_percent as nat) + "%"@,
        "组内最低相似度 "@ + text::decimal(figures.lowest_percent as nat) + "%"@,
        "有序相似帧最多 "@ + text::decimal(matched as nat) + "/"@ + text::decimal(compared as nat)
            + " 个"@,
        "平均片段覆盖率 "@ + text::decimal(figures.coverage_percent as nat) + "%"@,
        "帧级阈值与列表过滤阈值分离，避免低阈值弱相似误配"@,
        "完整连接分组，避免弱相似链式串联"@,
    ]
}

/// The positions of the videos with the first `n` ids, as far as they are known.
pub open spec fn known_places(videos: Seq<VideoRecord>, ids: Seq<i64>, n: int) -> Seq<usize>
    decreases n,
{
    if n <= 0 {
        Seq::empty()
    } else {
        let rest = known_places(videos, ids, n - 1);
        match merging::place(videos, ids[n - 1]) {
            Some(p) => rest.push(p as usize),
            None => rest,
        }
    }
}

/// The positions of the videos of a group, as far as they are known.
pub fn group_members(videos: &Vec<VideoRecord>, ids: &Vec<i64>) -> (r: Vec<usize>)
    ensures
        r@ == known_places(videos@, ids@, ids@.len() as int),
        forall|k: int| 0 <= k < r@.len() ==> (#[trigger] r@[k]) < videos@.len(),
{
    let mut out: Vec<usize> = Vec::new();
    let mut i: usize = 0;
    while i < ids.len()
        invariant
            i <= ids@.len(),
            out@ == known_places(videos@, ids@, i as int),
            forall|k: int| 0 <= k < out@.len() ==> (#[trigger] out@[k]) < videos@.len(),
        decreases ids@.len() - i,
    {
        if let Some(p) = find_place(videos, ids[i]) {
            out.push(p);
        }
        i += 1;
    }
    out
}

/// The size of the ranked videos from the second to the `n`-th.
pub open spec fn size_below(
    videos: Seq<VideoRecord>,
    members: Seq<usize>,
    ranked: Seq<usize>,
    n: int,
) -> int
    decreases n,
{
    if n <= 1 {
        0
    } else {
        size_below(videos, members, ranked, n - 1) + videos[members[ranked[n - 1] as int] as int].size_bytes
    }
}

/// Whether a group is shown as it should be. The report and the stretches are added later.
pub open spec fn shows_group(
    group: MatchGroup,
    videos: Seq<VideoRecord>,
    edges: Seq<AiEdge>,
    draft: AiGroupDraft,
    members: Seq<usize>,
    ranked: Seq<usize>,
    figures: GroupFigures,
) -> bool {
    let links = draft.links@;
    let best = videos[members[ranked[0] as int] as int];
    &&& group.id@ == "group-"@ + text::signed_decimal(900_000 + draft.ids@[0])
    &&& group.title@ == best.file_name@
    &&& group.kind@ == "AI视觉匹配"@
    &&& group.confidence == figures.confidence
    &&& group.recommended_video_id == best.id
    &&& group.reclaimable_bytes == size_below(videos, members, ranked, ranked.len() as int)
    &&& group.item_count == members.len()
    &&& models::texts(group.evidence@) == group_evidence(
        figures,
        most_matched(edges, links, links.len() as int),
        most_compared(edges, links, links.len() as int),
    )
    &&& group.report@.len() == 0
    &&& group.items@.len() == members.len()
    &&& forall|k: int|
        #![trigger group.items@[k]]
        0 <= k < group.items@.len() ==> group.items@[k].video@ == videos[members[ranked[k] as int] as int]@
            && group.items@[k].quality_rank == k + 1 && group.items@[k].role@ == (if k == 0 {
            "推荐保留"@
        } else {
            "AI视觉相似"@
        }) && group.items@[k].match_ranges@.len() == 0 && group.items@[k].match_detail is None
}

fn write_evidence(figures: GroupFigures, matched: usize, compared: usize) -> (r: Vec<String>)
    ensures
        models::texts(r@) == group_evidence(figures, matched as int, compared as int),
{
    let mut out: Vec<String> = Vec::new();
    assert(models::texts(out@) =~= Seq::empty());
    add_line(
        &mut out,
        cat3(
            "AI帧平均相似度 ",
            decimal_text(figures.similarity_percent as u64).as_str(),
            "%",
        ),
    );
    add_line(
        &mut out,
        cat3("组内最低相似度 ", decimal_text(figures.lowest_percent as u64).as_str(), "%"),
    );
    add_line(
        &mut out,
        cat5(
            "有序相似帧最多 ",
            decimal_text(matched as u64).as_str(),
            "/",
            decimal_text(compared as u64).as_str(),
            " 个",
        ),
    );
    add_line(
        &mut out,
        cat3(
            "平均片段覆盖率 ",
            decimal_text(figures.coverage_percent as u64).as_str(),
            "%",
        ),
    );
    add_line(&mut out, "帧级阈值与列表过滤阈值分离，避免低阈值弱相似误配".to_owned());
    add_line(&mut out, "完整连接分组，避免弱相似链式串联".to_owned());
    assert(models::texts(out@) =~= group_evidence(figures, matched as int, compared as int));
    out
}

/// A group as it is shown, or nothing where fewer than two of its videos are known. `close` tells
/// of its known videos which have lengths that differ little.
pub fn build_ai_group(
    videos: &Vec<VideoRecord>,
    edges: &Vec<AiEdge>,
    draft: &AiGroupDraft,
    figures: GroupFigures,
    close: &Vec<Vec<bool>>,
) -> (r: Option<MatchGroup>)
    requires
        draft.ids@.len() > 0,
        draft.ids@[0] <= i64::MAX - 900_000,
        forall|k: int| 0 <= k < draft.links@.len() ==> (#[trigger] draft.links@[k]) < edges@.len(),
        forall|i: int, j: int|
            #![trigger draft.ids@[i], draft.ids@[j]]
            0 <= i < j < draft.ids@.len() ==> draft.ids@[i] < draft.ids@[j],
        is_table(
            close@,
            known_places(videos@, draft.ids@, draft.ids@.len() as int).len() as int,
        ),
        groups::total_size(videos@, videos@.len() as int) <= u64::MAX,
    ensures
        ({
            let members = known_places(videos@, draft.ids@, draft.ids@.len() as int);
            match r {
                None => members.len() < 2,
                Some(group) => members.len() >= 2 && exists|ranked: Seq<usize>| #[trigger]
                    is_keeper_ranking(videos@, members, close@, ranked) && shows_group(
                        group,
                        videos@,
                        edges@,
                        *draft,
                        members,
                        ranked,
                        figures,
                    ),
            }
        }),
{
    let members = group_members(videos, &draft.ids);
    if members.len() < 2 {
        return None;
    }
    let ranked = rank_keepers(videos, &members, close);
    let total: usize = videos.len();
    proof {
        assert(total == videos@.len());
        lemma_places_differ(videos@, draft.ids@, draft.ids@.len() as int);
        lemma_size_below_fits(videos@, members@, ranked@);
    }
    let mut items: Vec<MatchItem> = Vec::new();
    let mut bytes: u64 = 0;
    let mut i: usize = 0;
    while i < ranked.len()
        invariant
            i <= ranked@.len(),
            is_keeper_ranking(videos@, members@, close@, ranked@),
            forall|k: int| 0 <= k < members@.len() ==> (#[trigger] members@[k]) < videos@.len(),
            size_below(videos@, members@, ranked@, ranked@.len() as int) <= u64::MAX,
            bytes == size_below(videos@, members@, ranked@, i as int),
            items@.len() == i,
            forall|k: int|
                #![trigger items@[k]]
                0 <= k < i ==> items@[k].video@ == videos@[members@[ranked@[k] as int] as int]@
                    && items@[k].quality_rank == k + 1 && items@[k].role@ == (if k == 0 {
                    "推荐保留"@
                } else {
                    "AI视觉相似"@
                }) && items@[k].match_ranges@.len() == 0 && items@[k].match_detail is None,
        decreases ranked@.len() - i,
    {
        let video = &videos[members[ranked[i]]];
        proof {
            lemma_size_grows(videos@, members@, ranked@, i + 1, ranked@.len() as int);
        }
        if i > 0 {
            bytes = bytes + video.size_bytes;
        }
        let role = if i == 0 {
            "推荐保留".to_owned()
        } else {
            "AI视觉相似".to_owned()
        };
        items.push(
            MatchItem {
                video: video.copy(),
                role,
                quality_rank: i + 1,
                match_ranges: Vec::new(),
                match_detail: None,
            },
        );
        i += 1;
    }
    let mut matched: usize = 0;
    let mut compared: usize = 0;
    let mut j: usize = 0;
    while j < draft.links.len()
        invariant
            j <= draft.links@.len(),
            forall|k: int|
                0 <= k < draft.links@.len() ==> (#[trigger] draft.links@[k]) < edges@.len(),
            matched == most_matched(edges@, draft.links@, j as int),
            compared == most_compared(edges@, draft.links@, j as int),
        decreases draft.links@.len() - j,
    {
        let edge = &edges[draft.links[j]];
        if edge.matched > matched {
            matched = edge.matched;
        }
        if edge.compared > compared {
            compared = edge.compared;
        }
        j += 1;
    }
    let best = &videos[members[ranked[0]]];
    let id = cat("group-", signed_decimal_text(900_000 + draft.ids[0]).as_str());
    let report: String = String::new();
    assert(report@ =~= Seq::<char>::empty());
    let group = MatchGroup {
        id,
        title: best.file_name.clone(),
        kind: "AI视觉匹配".to_owned(),
        confidence: figures.confidence,
        recommended_video_id: best.id,
        reclaimable_bytes: bytes,
        item_count: items.len(),
        evidence: write_evidence(figures, matched, compared),
        report,
        items,
    };
    assert(shows_group(group, videos@, edges@, *draft, members@, ranked@, figures));
    Some(group)
}

proof fn lemma_size_grows(
    videos: Seq<VideoRecord>,
    members: Seq<usize>,
    ranked: Seq<usize>,
    n: int,
    m: int,
)
    requires
        0 <= n <= m,
    ensures
        size_below(videos, members, ranked, n) <= size_below(videos, members, ranked, m),
    decreases m - n,
{
    if n < m {
        lemma_size_grows(videos, members, ranked, n, m - 1);
    }
}

proof fn lemma_places_differ(videos: Seq<VideoRecord>, ids: Seq<i64>, n: int)
    requires
        0 <= n <= ids.len(),
        videos.len() <= usize::MAX,
        forall|i: int, j: int|
            #![trigger ids[i], ids[j]]
            0 <= i < j < ids.len() ==> ids[i] < ids[j],
    ensures
        known_places(videos, ids, n).no_duplicates(),
        forall|k: int|
            0 <= k < known_places(videos, ids, n).len() ==> (#[trigger] known_places(
                videos,
                ids,
                n,
            )[k]) < videos.len() && videos[known_places(videos, ids, n)[k] as int].id is Some
                && exists|j: int|
                #![trigger ids[j]]
                0 <= j < n && videos[known_places(videos, ids, n)[k] as int].id == Some(ids[j]),
    decreases n,
{
    if n > 0 {
        lemma_places_differ(videos, ids, n - 1);
        let rest = known_places(videos, ids, n - 1);
        let all = known_places(videos, ids, n);
        if let Some(p) = merging::place(videos, ids[n - 1]) {
            merging::lemma_place(videos, ids[n - 1], 0);
            assert(all == rest.push(p as usize));
            assert forall|a: int, b: int| 0 <= a < b < all.len() implies all[a] != all[b] by {
                if b == rest.len() {
                    assert(all[a] == rest[a]);
                    let j = choose|j: int|
                        #![trigger ids[j]]
                        0 <= j < n - 1 && videos[rest[a] as int].id == Some(ids[j]);
                    assert(ids[j] < ids[n - 1]);
                } else {
                    assert(all[a] == rest[a] && all[b] == rest[b]);
                }
            }
            assert forall|k: int| 0 <= k < all.len() implies (#[trigger] all[k]) < videos.len()
                && videos[all[k] as int].id is Some && exists|j: int|
                #![trigger ids[j]]
                0 <= j < n && videos[all[k] as int].id == Some(ids[j]) by {
                if k < rest.len() {
                    assert(all[k] == rest[k]);
                    let j = choose|j: int|
                        #![trigger ids[j]]
                        0 <= j < n - 1 && videos[rest[k] as int].id == Some(ids[j]);
                    assert(0 <= j < n);
                } else {
                    assert(videos[all[k] as int].id == Some(ids[n - 1]));
                }
            }
        }
    }
}

/// The positions of the ranked videos from the second to the `n`-th.
spec fn places_below(members: Seq<usize>, ranked: Seq<usize>, n: int) -> Seq<usize> {
    Seq::new((n - 1) as nat, |k: int| members[ranked[k + 1] as int])
}

proof fn lemma_size_below_is(
    videos: Seq<VideoRecord>,
    members: Seq<usize>,
    ranked: Seq<usize>,
    n: int,
)
    requires
        1 <= n,
    ensures
        size_below(videos, members, ranked, n) == groups::size_of(
            videos,
            places_below(members, ranked, n),
        ),
    decreases n,
{
    if n > 1 {
        lemma_size_below_is(videos, members, ranked, n - 1);
        let all = places_below(members, ranked, n);
        assert(all.drop_last() =~= places_below(members, ranked, n - 1));
        assert(all.last() == members[ranked[n - 1] as int]);
    }
}

proof fn lemma_size_below_fits(videos: Seq<VideoRecord>, members: Seq<usize>, ranked: Seq<usize>)
    requires
        ranked.len() == members.len(),
        ranked.len() >= 1,
        ranked.no_duplicates(),
        members.no_duplicates(),
        forall|k: int| 0 <= k < ranked.len() ==> (#[trigger] ranked[k]) < members.len(),
        forall|k: int| 0 <= k < members.len() ==> (#[trigger] members[k]) < videos.len(),
    ensures
        size_below(videos, members, ranked, ranked.len() as int) <= groups::total_size(
            videos,
            videos.len() as int,
        ),
{
    let n = ranked.len() as int;
    let all = places_below(members, ranked, n);
    lemma_size_below_is(videos, members, ranked, n);
    assert forall|a: int, b: int| 0 <= a < b < all.len() implies all[a] != all[b] by {
        assert(ranked[a + 1] != ranked[b + 1]);
        assert(members[ranked[a + 1] as int] != members[ranked[b + 1] as int]);
    }
    assert forall|k: int| 0 <= k < all.len() implies (#[trigger] all[k]) < videos.len() by {
        assert(members[ranked[k + 1] as int] < videos.len());
    }
    groups::lemma_size_bound(videos, all, videos.len() as int);
}

/// Whether one group is listed before another: it is surer, or as sure and gives back more space.
pub open spec fn group_first(a: MatchGroup, b: MatchGroup) -> bool {
    a.confidence.total_rank() > b.confidence.total_rank() || (a.confidence.total_rank()
        == b.confidence.total_rank() && a.reclaimable_bytes > b.reclaimable_bytes)
}

/// The number of groups, from the front, before which another is not listed.
pub open spec fn listed_before(list: Seq<MatchGroup>, group: MatchGroup) -> int
    decreases list.len(),
{
    if list.len() > 0 && group_first(group, list.last()) {
        listed_before(list.drop_last(), group)
    } else {
        list.len() as int
    }
}

/// The first `n` groups in the order in which they are listed; those that are alike keep their
/// order.
pub open spec fn groups_sorted(groups: Seq<MatchGroup>, n: int) -> Seq<MatchGroup>
    decreases n,
{
    if n <= 0 {
        Seq::empty()
    } else {
        let rest = groups_sorted(groups, n - 1);
        rest.insert(listed_before(rest, groups[n - 1]), groups[n - 1])
    }
}

/// The groups in the order in which they are listed.
pub fn sort_ai_groups(groups: Vec<MatchGroup>) -> (r: Vec<MatchGroup>)
    ensures
        r@ == groups_sorted(groups@, groups@.len() as int),
{
    let ghost all = groups@;
    let mut rest = groups;
    let mut back: Vec<MatchGroup> = Vec::new();
    let total: usize = rest.len();
    while rest.len() > 0
        invariant
            rest@.len() <= total,
            total == all.len(),
            back@.len() == total - rest@.len(),
            rest@ == all.take(rest@.len() as int),
            forall|k: int| 0 <= k < back@.len() ==> #[trigger] back@[k] == all[total - 1 - k],
        decreases rest@.len(),
    {
        if let Some(group) = rest.pop() {
            back.push(group);
        }
    }
    let mut out: Vec<MatchGroup> = Vec::new();
    while back.len() > 0
        invariant
            back@.len() + out@.len() == total,
            total == all.len(),
            forall|k: int| 0 <= k < back@.len() ==> #[trigger] back@[k] == all[total - 1 - k],
            out@ == groups_sorted(all, total - back@.len()),
        decreases back@.len(),
    {
        let ghost n = total - back@.len();
        let ghost before = out@;
        if let Some(group) = back.pop() {
            assert(group == all[n]);
            let mut j: usize = out.len();
            assert(before.take(j as int) =~= before);
            while j > 0 && comes_first(&group, &out[j - 1])
                invariant
                    j <= out@.len(),
                    out@ == before,
                    listed_before(before.take(j as int), group) == listed_before(before, group),
                decreases j,
            {
                assert(before.take(j as int).drop_last() =~= before.take(j - 1));
                assert(before.take(j as int).last() == out@[j - 1]);
                j -= 1;
            }
            proof {
                if j > 0 {
                    assert(before.take(j as int).last() == out@[j - 1]);
                }
                assert(listed_before(before, group) == j);
            }
            out.insert(j, group);
        }
    }
    out
}

fn comes_first(a: &MatchGroup, b: &MatchGroup) -> (r: bool)
    ensures
        r == group_first(*a, *b),
{
    let x: i64 = a.confidence.total_order();
    let y: i64 = b.confidence.total_order();
    x > y || (x == y && a.reclaimable_bytes > b.reclaimable_bytes)
}

/// The most pairs of a group whose likeness is shown in detail.
pub const MAX_DETAIL_PAIRS: usize = 3;

/// The position of the last comparison of two videos, among the first `n`.
pub open spec fn last_link(edges: Seq<AiEdge>, x: i64, y: i64, n: int) -> Option<usize>
    decreases n,
{
    if n <= 0 {
        None
    } else if ai_groups::links(edges[n - 1], x, y) {
        Some((n - 1) as usize)
    } else {
        last_link(edges, x, y, n - 1)
    }
}

fn find_last_link(edges: &Vec<AiEdge>, x: i64, y: i64) -> (r: Option<usize>)
    ensures
        r == last_link(edges@, x, y, edges@.len() as int),
        r matches Some(e) ==> e < edges@.len(),
{
    let key = edge_key(x, y);
    let mut n: usize = edges.len();
    while n > 0
        invariant
            n <= edges@.len(),
            key == ai_groups::pair_key(x, y),
            last_link(edges@, x, y, edges@.len() as int) == last_link(edges@, x, y, n as int),
        decreases n,
    {
        let own = edge_key(edges[n - 1].a, edges[n - 1].b);
        if own.0 == key.0 && own.1 == key.1 {
            return Some(n - 1);
        }
        n -= 1;
    }
    None
}

/// The comparisons of one video with the first `n` others.
pub open spec fn links_with(edges: Seq<AiEdge>, id: i64, ids: Seq<i64>, n: int) -> Seq<usize>
    decreases n,
{
    if n <= 0 {
        Seq::empty()
    } else {
        let rest = links_with(edges, id, ids, n - 1);
        if ids[n - 1] == id {
            rest
        } else {
            match last_link(edges, id, ids[n - 1], edges.len() as int) {
                Some(e) => rest.push(e),
                None => rest,
            }
        }
    }
}

/// The comparisons of the first `n` items with those after them.
pub open spec fn links_between(edges: Seq<AiEdge>, ids: Seq<i64>, n: int) -> Seq<usize>
    decreases n,
{
    if n <= 0 {
        Seq::empty()
    } else {
        links_between(edges, ids, n - 1) + links_after(edges, ids, n - 1, ids.len() as int)
    }
}

/// The comparisons of the item at `i` with those after it up to `m`.
pub open spec fn links_after(edges: Seq<AiEdge>, ids: Seq<i64>, i: int, m: int) -> Seq<usize>
    decreases m - i,
{
    if m <= i + 1 {
        Seq::empty()
    } else {
        let rest = links_after(edges, ids, i, m - 1);
        match last_link(edges, ids[i], ids[m - 1], edges.len() as int) {
            Some(e) => rest.push(e),
            None => rest,
        }
    }
}

/// Whether one comparison is shown in detail before another: it is surer, or as sure with more
/// matching frames.
pub open spec fn detail_first(x: AiEdge, y: AiEdge) -> bool {
    x.confidence.total_rank() > y.confidence.total_rank() || (x.confidence.total_rank()
        == y.confidence.total_rank() && x.matched > y.matched)
}

/// The number of comparisons, from the front, before which another is not shown.
pub open spec fn shown_before(edges: Seq<AiEdge>, list: Seq<usize>, e: usize) -> int
    decreases list.len(),
{
    if list.len() > 0 && detail_first(edges[e as int], edges[list.last() as int]) {
        shown_before(edges, list.drop_last(), e)
    } else {
        list.len() as int
    }
}

/// The first `n` comparisons of a list in the order in which they are shown.
pub open spec fn details_sorted(edges: Seq<AiEdge>, list: Seq<usize>, n: int) -> Seq<usize>
    decreases n,
{
    if n <= 0 {
        Seq::empty()
    } else {
        let rest = details_sorted(edges, list, n - 1);
        rest.insert(shown_before(edges, rest, list[n - 1]), list[n - 1])
    }
}

/// Whether a comparison is of the same pair as one of a list.
pub open spec fn pair_listed(edges: Seq<AiEdge>, list: Seq<usize>, e: usize) -> bool {
    exists|k: int|
        0 <= k < list.len() && ai_groups::pair_key(
            edges[(#[trigger] list[k]) as int].a,
            edges[list[k] as int].b,
        ) == ai_groups::pair_key(edges[e as int].a, edges[e as int].b)
}

/// The first comparisons of a list, one of each pair, as many as are shown.
pub open spec fn picked_details(edges: Seq<AiEdge>, list: Seq<usize>, n: int) -> Seq<usize>
    decreases n,
{
    if n <= 0 {
        Seq::empty()
    } else {
        let rest = picked_details(edges, list, n - 1);
        if rest.len() >= MAX_DETAIL_PAIRS || pair_listed(edges, rest, list[n - 1]) {
            rest
        } else {
            rest.push(list[n - 1])
        }
    }
}

/// The comparisons of a group that are shown in detail: first those of the video to keep with the
/// others, then those of any two, each kind with the surest first.
pub open spec fn details_of(edges: Seq<AiEdge>, ids: Seq<i64>, keeper: Option<i64>) -> Seq<usize> {
    if ids.len() < 2 {
        Seq::empty()
    } else {
        let own = match keeper {
            Some(id) => links_with(edges, id, ids, ids.len() as int),
            None => Seq::empty(),
        };
        let all = links_between(edges, ids, ids.len() as int);
        let list = details_sorted(edges, own, own.len() as int) + details_sorted(
            edges,
            all,
            all.len() as int,
        );
        picked_details(edges, list, list.len() as int)
    }
}

fn sort_details(edges: &Vec<AiEdge>, list: &Vec<usize>) -> (r: Vec<usize>)
    requires
        forall|k: int| 0 <= k < list@.len() ==> (#[trigger] list@[k]) < edges@.len(),
    ensures
        r@ == details_sorted(edges@, list@, list@.len() as int),
        forall|k: int| 0 <= k < r@.len() ==> (#[trigger] r@[k]) < edges@.len(),
{
    let mut out: Vec<usize> = Vec::new();
    let mut i: usize = 0;
    while i < list.len()
        invariant
            i <= list@.len(),
            forall|k: int| 0 <= k < list@.len() ==> (#[trigger] list@[k]) < edges@.len(),
            out@ == details_sorted(edges@, list@, i as int),
            forall|k: int| 0 <= k < out@.len() ==> (#[trigger] out@[k]) < edges@.len(),
        decreases list@.len() - i,
    {
        let e: usize = list[i];
        let ghost before = out@;
        let mut j: usize = out.len();
        assert(before.take(j as int) =~= before);
        while j > 0 && is_detail_first(&edges[e], &edges[out[j - 1]])
            invariant
                j <= out@.len(),
                e < edges@.len(),
                out@ == before,
                forall|k: int| 0 <= k < out@.len() ==> (#[trigger] out@[k]) < edges@.len(),
                shown_before(edges@, before.take(j as int), e) == shown_before(edges@, before, e),
            decreases j,
        {
            assert(before.take(j as int).drop_last() =~= before.take(j - 1));
            assert(before.take(j as int).last() == out@[j - 1]);
            j -= 1;
        }
        proof {
            if j > 0 {
                assert(before.take(j as int).last() == out@[j - 1]);
            }
            assert(shown_before(edges@, before, e) == j);
        }
        out.insert(j, e);
        assert forall|k: int| 0 <= k < out@.len() implies (#[trigger] out@[k]) < edges@.len() by {
            if k < j {
                assert(out@[k] == before[k]);
            } else if k > j {
                assert(out@[k] == before[k - 1]);
            }
        }
        i += 1;
    }
    out
}

fn is_detail_first(x: &AiEdge, y: &AiEdge) -> (r: bool)
    ensures
        r == detail_first(*x, *y),
{
    let a: i64 = x.confidence.total_order();
    let b: i64 = y.confidence.total_order();
    a > b || (a == b && x.matched > y.matched)
}

fn list_links_with(edges: &Vec<AiEdge>, id: i64, ids: &Vec<i64>) -> (r: Vec<usize>)
    ensures
        r@ == links_with(edges@, id, ids@, ids@.len() as int),
        forall|k: int| 0 <= k < r@.len() ==> (#[trigger] r@[k]) < edges@.len(),
{
    let mut own: Vec<usize> = Vec::new();
    let mut i: usize = 0;
    while i < ids.len()
        invariant
            i <= ids@.len(),
            own@ == links_with(edges@, id, ids@, i as int),
            forall|k: int| 0 <= k < own@.len() ==> (#[trigger] own@[k]) < edges@.len(),
        decreases ids@.len() - i,
    {
        if ids[i] != id {
            if let Some(e) = find_last_link(edges, id, ids[i]) {
                own.push(e);
            }
        }
        i += 1;
    }
    own
}

/// The positions of the comparisons of a group that are shown in detail. `ids` are those of its
/// videos as they are ranked, `keeper` the one that leads the group.
pub fn detail_edges_for_group(edges: &Vec<AiEdge>, ids: &Vec<i64>, keeper: Option<i64>) -> (r: Vec<
    usize,
>)
    ensures
        r@ == details_of(edges@, ids@, keeper),
        r@.len() <= MAX_DETAIL_PAIRS,
        forall|k: int| 0 <= k < r@.len() ==> (#[trigger] r@[k]) < edges@.len(),
{
    if ids.len() < 2 {
        return Vec::new();
    }
    let own = match keeper {
        Some(id) => list_links_with(edges, id, ids),
        None => Vec::new(),
    };
    let mut all: Vec<usize> = Vec::new();
    let mut n: usize = 0;
    while n < ids.len()
        invariant
            n <= ids@.len(),
            all@ == links_between(edges@, ids@, n as int),
            forall|k: int| 0 <= k < all@.len() ==> (#[trigger] all@[k]) < edges@.len(),
        decreases ids@.len() - n,
    {
        let ghost start = all@;
        let mut m: usize = n + 1;
        assert(start + links_after(edges@, ids@, n as int, m as int) =~= start);
        while m < ids.len()
            invariant
                n < m <= ids@.len(),
                n < ids@.len(),
                all@ == start + links_after(edges@, ids@, n as int, m as int),
                forall|k: int| 0 <= k < all@.len() ==> (#[trigger] all@[k]) < edges@.len(),
            decreases ids@.len() - m,
        {
            let ghost before = all@;
            if let Some(e) = find_last_link(edges, ids[n], ids[m]) {
                all.push(e);
                assert(all@ =~= start + links_after(edges@, ids@, n as int, m + 1));
            }
            m += 1;
        }
        n += 1;
    }
    let mut list = sort_details(edges, &own);
    let mut more = sort_details(edges, &all);
    let ghost first = list@;
    let ghost second = more@;
    list.append(&mut more);
    assert forall|k: int| 0 <= k < list@.len() implies (#[trigger] list@[k]) < edges@.len() by {
        if k < first.len() {
            assert(list@[k] == first[k]);
        } else {
            assert(list@[k] == second[k - first.len()]);
        }
    }
    let mut out: Vec<usize> = Vec::new();
    let mut k: usize = 0;
    while k < list.len()
        invariant
            k <= list@.len(),
            forall|x: int| 0 <= x < list@.len() ==> (#[trigger] list@[x]) < edges@.len(),
            out@ == picked_details(edges@, list@, k as int),
            out@.len() <= MAX_DETAIL_PAIRS,
            forall|x: int| 0 <= x < out@.len() ==> (#[trigger] out@[x]) < edges@.len(),
        decreases list@.len() - k,
    {
        let e: usize = list[k];
        if out.len() < MAX_DETAIL_PAIRS && !is_pair_listed(edges, &out, e) {
            out.push(e);
        }
        k += 1;
    }
    out
}

fn is_pair_listed(edges: &Vec<AiEdge>, list: &Vec<usize>, e: usize) -> (r: bool)
    requires
        e < edges@.len(),
        forall|k: int| 0 <= k < list@.len() ==> (#[trigger] list@[k]) < edges@.len(),
    ensures
        r == pair_listed(edges@, list@, e),
{
    let key = edge_key(edges[e].a, edges[e].b);
    let mut i: usize = 0;
    while i < list.len()
        invariant
            i <= list@.len(),
            e < edges@.len(),
            key == ai_groups::pair_key(edges@[e as int].a, edges@[e as int].b),
            forall|k: int| 0 <= k < list@.len() ==> (#[trigger] list@[k]) < edges@.len(),
            forall|k: int|
                0 <= k < i ==> ai_groups::pair_key(
                    edges@[(#[trigger] list@[k]) as int].a,
                    edges@[list@[k] as int].b,
                ) != key,
        decreases list@.len() - i,
    {
        let own = edge_key(edges[list[i]].a, edges[list[i]].b);
        if own.0 == key.0 && own.1 == key.1 {
            assert(ai_groups::pair_key(
                edges@[list@[i as int] as int].a,
                edges@[list@[i as int] as int].b,
            ) == key);
            return true;
        }
        i += 1;
    }
    false
}

/// Shows a detail with a video of a group where none is shown, or one that is less sure.
pub fn set_better_match_detail(item: &mut MatchItem, detail: MatchDetail)
    ensures
        final(item).video == old(item).video,
        final(item).role == old(item).role,
        final(item).quality_rank == old(item).quality_rank,
        final(item).match_ranges == old(item).match_ranges,
        final(item).match_detail == (match old(item).match_detail {
            Some(current) => if current.confidence.lt(detail.confidence) {
                Some(detail)
            } else {
                Some(current)
            },
            None => Some(detail),
        }),
{
    let better = match &item.match_detail {
        Some(current) => current.confidence.less(detail.confidence),
        None => true,
    };
    if better {
        item.match_detail = Some(detail);
    }
}

/// 0.82.
pub const COVERS_MOST: u64 = 0x3FEA_3D70_A3D7_0A3D;

/// 0.55.
pub const COVERS_HALF: u64 = 0x3FE1_9999_9999_999A;

/// 0.6.
pub const SPAN_LOW: u64 = 0x3FE3_3333_3333_3333;

/// 1.55.
pub const SPAN_HIGH: u64 = 0x3FF8_CCCC_CCCC_CCCD;

/// 0.45.
pub const COMPACT_ENOUGH: u64 = 0x3FDC_CCCC_CCCC_CCCD;

/// 2.
pub const SPAN_TWICE: u64 = 0x4000_0000_0000_0000;

/// 0.25.
pub const SPAN_QUARTER: u64 = 0x3FD0_0000_0000_0000;

/// How a short video relates to a long one.
#[derive(Debug, Clone, Copy, PartialEq, Eq, Structural)]
pub enum Relation {
    CompleteContainment,
    PartialContainment,
    CompactEdit,
    NotContained,
}

/// How a short video relates to a long one, by how much of it matches, how dense the matches are
/// in the long one, how long that stretch is against the matching one of the short video, and what
/// part of the long video it is.
pub open spec fn relation_of(
    short_coverage: Double,
    long_compactness: Double,
    span_ratio: Double,
    long_span_fraction: Double,
) -> Relation {
    let at_least = |x: Double, bits: u64| (Double { bits }).le(x);
    if at_least(short_coverage, COVERS_MOST) && at_least(long_compactness, COVERS_HALF)
        && at_least(span_ratio, SPAN_LOW) && span_ratio.le(Double { bits: SPAN_HIGH }) {
        Relation::CompleteContainment
    } else if at_least(short_coverage, COVERS_HALF) && at_least(long_compactness, COMPACT_ENOUGH)
        && span_ratio.le(Double { bits: SPAN_TWICE }) {
        Relation::PartialContainment
    } else if at_least(long_compactness, COVERS_HALF) && long_span_fraction.le(
        Double { bits: SPAN_QUARTER },
    ) {
        Relation::CompactEdit
    } else {
        Relation::NotContained
    }
}

/// How a short video relates to a long one.
pub fn classify_relation(
    short_coverage: Double,
    long_compactness: Double,
    span_ratio: Double,
    long_span_fraction: Double,
) -> (r: Relation)
    ensures
        r == relation_of(short_coverage, long_compactness, span_ratio, long_span_fraction),
{
    let half = Double { bits: COVERS_HALF };
    if (Double { bits: COVERS_MOST }).at_most(short_coverage) && half.at_most(long_compactness) && (
    Double { bits: SPAN_LOW }).at_most(span_ratio) && span_ratio.at_most(
        Double { bits: SPAN_HIGH },
    ) {
        Relation::CompleteContainment
    } else if half.at_most(short_coverage) && (Double { bits: COMPACT_ENOUGH }).at_most(
        long_compactness,
    ) && span_ratio.at_most(Double { bits: SPAN_TWICE }) {
        Relation::PartialContainment
    } else if half.at_most(long_compactness) && long_span_fraction.at_most(
        Double { bits: SPAN_QUARTER },
    ) {
        Relation::CompactEdit
    } else {
        Relation::NotContained
    }
}

/// How a relation is named and told: its name, its label, and its explanation. `from` and `to` tell
/// where in the long video the short one was found.
pub open spec fn relation_told(relation: Relation, from: Seq<char>, to: Seq<char>) -> (
    Seq<char>,
    Seq<char>,
    Seq<char>,
) {
    match relation {
        Relation::CompleteContainment => (
            "complete_containment"@,
            "完整包含"@,
            "完整包含：短片大部分内容集中映射到长片 "@ + from + "-"@ + to,
        ),
        Relation::PartialContainment => (
            "partial_containment"@,
            "不完整包含"@,
            "不完整包含：短片部分内容能映射到长片，但覆盖不足"@,
        ),
        Relation::CompactEdit => (
            "compact_edit"@,
            "紧凑剪辑"@,
            "紧凑剪辑：相似帧集中在长片单一片段"@,
        ),
        Relation::NotContained => (
            "not_contained"@,
            "互不包含"@,
            "互不包含：命中点分散，更像同场景相似，不像完整/短版关系"@,
        ),
    }
}

/// How a relation is named and told.
pub fn tell_relation(relation: Relation, from: &str, to: &str) -> (r: (String, String, String))
    ensures
        (r.0@, r.1@, r.2@) == relation_told(relation, from@, to@),
{
    match relation {
        Relation::CompleteContainment => (
            "complete_containment".to_owned(),
            "完整包含".to_owned(),
            text::cat4("完整包含：短片大部分内容集中映射到长片 ", from, "-", to),
        ),
        Relation::PartialContainment => (
            "partial_containment".to_owned(),
            "不完整包含".to_owned(),
            "不完整包含：短片部分内容能映射到长片，但覆盖不足".to_owned(),
        ),
        Relation::CompactEdit => (
            "compact_edit".to_owned(),
            "紧凑剪辑".to_owned(),
            "紧凑剪辑：相似帧集中在长片单一片段".to_owned(),
        ),
        Relation::NotContained => (
            "not_contained".to_owned(),
            "互不包含".to_owned(),
            "互不包含：命中点分散，更像同场景相似，不像完整/短版关系".to_owned(),
        ),
    }
}

/// A number below a hundred with two digits.
pub open spec fn two_digits(n: int) -> Seq<char> {
    if n < 10 {
        "0"@ + text::decimal(n as nat)
    } else {
        text::decimal(n as nat)
    }
}

fn write_two_digits(n: u64) -> (r: String)
    ensures
        r@ == two_digits(n as int),
{
    if n < 10 {
        cat("0", decimal_text(n).as_str())
    } else {
        decimal_text(n)
    }
}

/// A time in whole seconds, with hours where there are some.
pub open spec fn clock(total: int) -> Seq<char> {
    let hours = total / 3600;
    let minutes = (total % 3600) / 60;
    let seconds = total % 60;
    if hours > 0 {
        text::decimal(hours as nat) + ":"@ + two_digits(minutes) + ":"@ + two_digits(seconds)
    } else {
        text::decimal(minutes as nat) + ":"@ + two_digits(seconds)
    }
}

/// A time in whole seconds, with hours where there are some.
pub fn format_seconds_compact(total: u64) -> (r: String)
    ensures
        r@ == clock(total as int),
{
    let hours: u64 = total / 3600;
    let minutes: u64 = (total % 3600) / 60;
    let seconds: u64 = total % 60;
    if hours > 0 {
        cat5(
            decimal_text(hours).as_str(),
            ":",
            write_two_digits(minutes).as_str(),
            ":",
            write_two_digits(seconds).as_str(),
        )
    } else {
        cat3(decimal_text(minutes).as_str(), ":", write_two_digits(seconds).as_str())
    }
}

} // verus!
