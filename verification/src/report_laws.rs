//! What holds of what is shown: reports of groups, pairs in detail, and the log.
use crate::ai_debug;
use crate::ai_debug::AiPairDebugCachedScore;
use crate::ai_groups;
use crate::ai_groups::AiEdge;
use crate::ai_report;
use crate::double::Double;
use crate::findings;
use crate::log_lines;
use crate::models;
use crate::models::{
    AiPairScoreRecord, AppSettings, FrameEmbeddingRecord, MatchGroup, MatchItem, MatchRange,
    VideoRecord,
};
use crate::reports;
use crate::reports::VideoTexts;
use crate::stretches;
use crate::text;
use vstd::prelude::*;

verus! {

proof fn lemma_item_lines(
    items: Seq<MatchItem>,
    shown: Seq<VideoTexts>,
    unknown: Seq<char>,
    n: int,
    i: int,
)
    requires
        0 <= i < n <= items.len(),
        shown.len() == items.len(),
    ensures
        reports::item_lines(items, shown, unknown, n).len() == 2 * n,
        reports::item_lines(items, shown, unknown, n)[2 * i] == "- "@ + items[i].role@ + ": "@
            + items[i].video.path@,
    decreases n,
{
    if n == 1 {
        assert(reports::item_lines(items, shown, unknown, 0).len() == 0);
    } else if i < n - 1 {
        lemma_item_lines(items, shown, unknown, n - 1, i);
    } else {
        lemma_item_lines(items, shown, unknown, n - 1, 0);
    }
}

proof fn lemma_entries(list: Seq<Seq<char>>, n: int)
    requires
        0 <= n <= list.len(),
    ensures
        reports::entries(list, n).len() == n,
        forall|k: int| 0 <= k < n ==> #[trigger] reports::entries(list, n)[k] == "- "@ + list[k],
    decreases n,
{
    if n > 0 {
        lemma_entries(list, n - 1);
    }
}

/// A report tells of its group, how sure it is and what could be freed, and lists every file with its
/// part in the group and every piece of evidence.
pub proof fn law_reports_list_files_and_evidence(
    title: Seq<char>,
    group: MatchGroup,
    confidence_percent: Seq<char>,
    reclaimable: Seq<char>,
    shown: Seq<VideoTexts>,
    unknown: Seq<char>,
    i: int,
    e: int,
)
    requires
        0 <= i < group.items@.len(),
        shown.len() == group.items@.len(),
        0 <= e < group.evidence@.len(),
    ensures
        ({
            let lines = reports::report_lines(
                title,
                group,
                confidence_percent,
                reclaimable,
                shown,
                unknown,
            );
            &&& lines[0] == title
            &&& lines[1] == "组别: "@ + group.id@
            &&& lines[2] == "类型: "@ + group.kind@
            &&& lines[3] == "置信度: "@ + confidence_percent + "%"@
            &&& lines[4] == "估算可释放: "@ + reclaimable
            &&& lines[7 + 2 * i] == "- "@ + group.items@[i].role@ + ": "@
                + group.items@[i].video.path@
            &&& lines[9 + 2 * group.items@.len() + e] == "- "@ + group.evidence@[e]@
            &&& lines.len() == 9 + 2 * group.items@.len() + group.evidence@.len()
        }),
{
    let items = group.items@;
    lemma_item_lines(items, shown, unknown, items.len() as int, i);
    let evidence = models::texts(group.evidence@);
    lemma_entries(evidence, evidence.len() as int);
    assert(evidence[e] == group.evidence@[e]@);
}

/// What is shown of a pair as best is a real maximum: no link has more matching frames.
pub proof fn law_most_matching_frames_are_told(edges: Seq<AiEdge>, links: Seq<usize>, n: int)
    requires
        0 <= n <= links.len(),
    ensures
        forall|k: int|
            0 <= k < n ==> edges[(#[trigger] links[k]) as int].matched <= ai_report::most_matched(
                edges,
                links,
                n,
            ) && edges[links[k] as int].compared <= ai_report::most_compared(edges, links, n),
        ai_report::most_matched(edges, links, n) > 0 ==> exists|k: int|
            0 <= k < n && edges[(#[trigger] links[k]) as int].matched == ai_report::most_matched(
                edges,
                links,
                n,
            ),
        n == 0 ==> ai_report::most_matched(edges, links, n) == 0,
    decreases n,
{
    if n > 0 {
        law_most_matching_frames_are_told(edges, links, n - 1);
        let own = edges[links[n - 1] as int].matched;
        assert(edges[links[n - 1] as int].matched == own);
        let rest = ai_report::most_matched(edges, links, n - 1);
        if own <= rest && rest > 0 {
            let k = choose|k: int|
                0 <= k < n - 1 && edges[(#[trigger] links[k]) as int].matched == rest;
            assert(edges[links[k] as int].matched == ai_report::most_matched(edges, links, n));
        }
    }
}

/// Of a group everything but the recommended video could be freed: its size and what could be freed
/// are the sizes of all.
pub proof fn law_recommended_video_is_not_freed(
    videos: Seq<VideoRecord>,
    members: Seq<usize>,
    ranked: Seq<usize>,
    n: int,
)
    requires
        1 <= n <= ranked.len(),
    ensures
        videos[members[ranked[0] as int] as int].size_bytes + ai_report::size_below(
            videos,
            members,
            ranked,
            n,
        ) == Seq::new(
            n as nat,
            |k: int| videos[members[ranked[k] as int] as int].size_bytes as int,
        ).fold_left(0int, |sum: int, size: int| sum + size),
    decreases n,
{
    let size = |k: int| videos[members[ranked[k] as int] as int].size_bytes as int;
    let all = Seq::new(n as nat, size);
    let head = Seq::new((n - 1) as nat, size);
    assert(all.drop_last() =~= head);
    assert(all.last() == size(n - 1));
    let adding = |sum: int, size: int| sum + size;
    assert(all.fold_left(0int, adding) == adding(head.fold_left(0int, adding), all.last()));
    if n > 1 {
        law_recommended_video_is_not_freed(videos, members, ranked, n - 1);
    } else {
        assert(head.fold_left(0int, adding) == 0);
    }
}

/// Of a group at most three pairs are shown in detail, each once, and the first of the list is.
pub proof fn law_three_pairs_are_shown_in_detail(edges: Seq<AiEdge>, list: Seq<usize>, n: int)
    requires
        0 <= n <= list.len(),
    ensures
        ai_report::picked_details(edges, list, n).len() <= 3,
        ai_report::picked_details(edges, list, n).len() <= n,
        n > 0 ==> ai_report::picked_details(edges, list, n).len() > 0
            && ai_report::picked_details(edges, list, n)[0] == list[0],
        forall|j: int, k: int|
            0 <= j < k < ai_report::picked_details(edges, list, n).len()
                ==> ai_groups::pair_key(
                edges[#[trigger] ai_report::picked_details(edges, list, n)[j] as int].a,
                edges[ai_report::picked_details(edges, list, n)[j] as int].b,
            ) != ai_groups::pair_key(
                edges[#[trigger] ai_report::picked_details(edges, list, n)[k] as int].a,
                edges[ai_report::picked_details(edges, list, n)[k] as int].b,
            ),
        ai_report::picked_details(edges, list, n).len() < 3 ==> forall|k: int|
            0 <= k < n ==> ai_report::pair_listed(
                edges,
                ai_report::picked_details(edges, list, n),
                #[trigger] list[k],
            ),
    decreases n,
{
    if n > 0 {
        law_three_pairs_are_shown_in_detail(edges, list, n - 1);
        let rest = ai_report::picked_details(edges, list, n - 1);
        let all = ai_report::picked_details(edges, list, n);
        let e = list[n - 1];
        if rest.len() < 3 && !ai_report::pair_listed(edges, rest, e) {
            assert(all =~= rest.push(e));
            assert forall|j: int, k: int| 0 <= j < k < all.len() implies ai_groups::pair_key(
                edges[#[trigger] all[j] as int].a,
                edges[all[j] as int].b,
            ) != ai_groups::pair_key(
                edges[#[trigger] all[k] as int].a,
                edges[all[k] as int].b,
            ) by {
                assert(all[j] == rest[j]);
                if k < rest.len() {
                    assert(all[k] == rest[k]);
                }
            }
            assert forall|k: int| 0 <= k < n implies ai_report::pair_listed(
                edges,
                all,
                #[trigger] list[k],
            ) by {
                if k < n - 1 {
                    assert(ai_report::pair_listed(edges, rest, list[k]));
                    let at = choose|at: int|
                        0 <= at < rest.len() && ai_groups::pair_key(
                            edges[(#[trigger] rest[at]) as int].a,
                            edges[rest[at] as int].b,
                        ) == ai_groups::pair_key(
                            edges[list[k] as int].a,
                            edges[list[k] as int].b,
                        );
                    assert(all[at] == rest[at]);
                } else {
                    assert(all[rest.len() as int] == e);
                }
            }
        }
    }
}

proof fn lemma_last_link(edges: Seq<AiEdge>, x: i64, y: i64, n: int)
    requires
        0 <= n <= edges.len() <= usize::MAX,
    ensures
        ai_report::last_link(edges, x, y, n) matches Some(e) ==> e < n && ai_groups::links(
            edges[e as int],
            x,
            y,
        ),
        ai_report::last_link(edges, x, y, n) is None ==> forall|k: int|
            0 <= k < n ==> !ai_groups::links(#[trigger] edges[k], x, y),
    decreases n,
{
    if n > 0 {
        lemma_last_link(edges, x, y, n - 1);
    }
}

/// The links of a video that are shown join it to the other videos of its group.
pub proof fn law_shown_links_join_the_video(
    edges: Seq<AiEdge>,
    id: i64,
    ids: Seq<i64>,
    n: int,
    e: usize,
)
    requires
        0 <= n <= ids.len(),
        edges.len() <= usize::MAX,
        ai_report::links_with(edges, id, ids, n).contains(e),
    ensures
        exists|k: int|
            0 <= k < n && #[trigger] ids[k] != id && e < edges.len() && ai_groups::links(
                edges[e as int],
                id,
                ids[k],
            ),
    decreases n,
{
    if n > 0 {
        let rest = ai_report::links_with(edges, id, ids, n - 1);
        let all = ai_report::links_with(edges, id, ids, n);
        lemma_last_link(edges, id, ids[n - 1], edges.len() as int);
        if rest.contains(e) {
            law_shown_links_join_the_video(edges, id, ids, n - 1, e);
        } else {
            let at = choose|at: int| 0 <= at < all.len() && all[at] == e;
            if at < rest.len() {
                assert(rest[at] == e);
            }
            assert(ids[n - 1] != id);
        }
    } else {
        assert(ai_report::links_with(edges, id, ids, n).len() == 0);
    }
}

/// Times are told in minutes and seconds, with hours only from one hour on: the seconds are always
/// two digits.
pub proof fn law_times_are_told_in_minutes_and_seconds(minutes: int, seconds: int)
    requires
        0 <= minutes < 60,
        0 <= seconds < 60,
    ensures
        ai_report::clock(60 * minutes + seconds) == text::decimal(minutes as nat) + ":"@
            + ai_report::two_digits(seconds),
        ai_report::two_digits(seconds).len() == 2,
        ai_report::clock(3600 + 60 * minutes + seconds) == "1"@ + ":"@ + ai_report::two_digits(
            minutes,
        ) + ":"@ + ai_report::two_digits(seconds),
{
    reveal_strlit("0");
    reveal_strlit("1");
    assert(text::decimal(1) =~= "1"@) by {
        assert(text::decimal(1)[0] == '1');
    }
    if seconds >= 10 {
        assert(text::decimal((seconds / 10) as nat).len() == 1);
        assert(text::decimal(seconds as nat).len() == 2);
    } else {
        assert(text::decimal(seconds as nat).len() == 1);
    }
    let total = 60 * minutes + seconds;
    assert(total / 3600 == 0);
    assert((total % 3600) / 60 == minutes);
    assert(total % 60 == seconds);
    let later = 3600 + total;
    assert(later / 3600 == 1);
    assert((later % 3600) / 60 == minutes);
    assert(later % 60 == seconds);
}

/// Stretches that are joined reach from the earlier start to the later end, and their frames are
/// counted together.
pub proof fn law_joined_stretches_cover_both(target: MatchRange, next: MatchRange, average: Double)
    ensures
        ({
            let r = stretches::merged_range(target, next, average);
            &&& !target.start_seconds.nan() && !next.start_seconds.nan()
                ==> r.start_seconds.le(target.start_seconds) && r.start_seconds.le(
                next.start_seconds,
            )
            &&& !target.end_seconds.nan() && !next.end_seconds.nan()
                ==> target.end_seconds.le(r.end_seconds) && next.end_seconds.le(r.end_seconds)
            &&& target.matched_frames + next.matched_frames <= usize::MAX ==> r.matched_frames
                == target.matched_frames + next.matched_frames
            &&& r.average_similarity == average
        }),
{
}

/// A path stands for the video with that very path before one whose path only ends in it, and for
/// that before one that only has the name.
pub proof fn law_whole_paths_are_found_first(
    videos: Seq<VideoRecord>,
    order: Seq<usize>,
    path: Seq<char>,
    name: Seq<char>,
    k: int,
)
    requires
        0 <= k < order.len(),
        forall|j: int| 0 <= j < order.len() ==> (#[trigger] order[j]) < videos.len(),
        ai_debug::lookup_form(videos[order[k] as int].path@) == ai_debug::lookup_form(path),
    ensures
        ai_debug::stands_for(videos, order, path, name) matches Some(i) && i < videos.len()
            && ai_debug::lookup_form(videos[i as int].path@) == ai_debug::lookup_form(path),
{
    lemma_first_answer(videos, order, path, name, ai_debug::Lookup::Whole);
    assert(ai_debug::answers(videos[order[k] as int], path, name, ai_debug::Lookup::Whole));
}

proof fn lemma_first_answer(
    videos: Seq<VideoRecord>,
    order: Seq<usize>,
    path: Seq<char>,
    name: Seq<char>,
    how: ai_debug::Lookup,
)
    requires
        forall|j: int| 0 <= j < order.len() ==> (#[trigger] order[j]) < videos.len(),
    ensures
        match ai_debug::first_answer(videos, order, path, name, how) {
            Some(i) => i < videos.len() && ai_debug::answers(videos[i as int], path, name, how),
            None => forall|j: int|
                0 <= j < order.len() ==> !ai_debug::answers(
                    videos[(#[trigger] order[j]) as int],
                    path,
                    name,
                    how,
                ),
        },
    decreases order.len(),
{
    if order.len() > 0 {
        let rest = order.drop_first();
        assert forall|j: int| 0 <= j < rest.len() implies (#[trigger] rest[j]) < videos.len() by {
            assert(rest[j] == order[j + 1]);
        }
        lemma_first_answer(videos, rest, path, name, how);
        if ai_debug::first_answer(videos, order, path, name, how) is None {
            assert forall|j: int| 0 <= j < order.len() implies !ai_debug::answers(
                videos[(#[trigger] order[j]) as int],
                path,
                name,
                how,
            ) by {
                if j > 0 {
                    assert(rest[j - 1] == order[j]);
                }
            }
        }
    }
}

/// A video is found wherever one answers to the path or the name, and only one that answers is.
pub proof fn law_found_videos_answer(
    videos: Seq<VideoRecord>,
    order: Seq<usize>,
    path: Seq<char>,
    name: Seq<char>,
)
    requires
        forall|j: int| 0 <= j < order.len() ==> (#[trigger] order[j]) < videos.len(),
    ensures
        match ai_debug::stands_for(videos, order, path, name) {
            Some(i) => i < videos.len() && (text::has_suffix(
                ai_debug::lookup_form(videos[i as int].path@),
                ai_debug::lookup_form(path),
            ) || text::lowercase(videos[i as int].file_name@) == text::lowercase(name)),
            None => forall|j: int|
                0 <= j < order.len() ==> text::lowercase(
                    videos[(#[trigger] order[j]) as int].file_name@,
                ) != text::lowercase(name),
        },
{
    lemma_first_answer(videos, order, path, name, ai_debug::Lookup::Whole);
    lemma_first_answer(videos, order, path, name, ai_debug::Lookup::End);
    lemma_first_answer(videos, order, path, name, ai_debug::Lookup::Name);
    if let Some(i) = ai_debug::first_answer(videos, order, path, name, ai_debug::Lookup::Whole) {
        let form = ai_debug::lookup_form(path);
        assert(form.skip(0) =~= form);
    }
    if ai_debug::stands_for(videos, order, path, name) is None {
        assert forall|j: int| 0 <= j < order.len() implies text::lowercase(
            videos[(#[trigger] order[j]) as int].file_name@,
        ) != text::lowercase(name) by {
            assert(!ai_debug::answers(
                videos[order[j] as int],
                path,
                name,
                ai_debug::Lookup::Name,
            ));
        }
    }
}

/// The frames of a video are shown in the order of their positions, all of them and no other.
pub proof fn law_frames_are_shown_in_order(
    table: Seq<FrameEmbeddingRecord>,
    video_id: i64,
    model: Seq<char>,
    n: int,
    i: int,
)
    requires
        0 <= i < table.len() <= usize::MAX,
        0 <= n <= table.len(),
    ensures
        ai_debug::frames_of(table, video_id, model, n).contains(i as usize) <==> i < n
            && table[i].video_id == video_id && table[i].model_id@ == model,
        forall|a: int, b: int|
            0 <= a < b < ai_debug::frames_of(table, video_id, model, n).len()
                ==> table[#[trigger] ai_debug::frames_of(table, video_id, model, n)[a] as int].frame_index
                <= table[#[trigger] ai_debug::frames_of(table, video_id, model, n)[b] as int].frame_index,
    decreases n,
{
    if n > 0 {
        law_frames_are_shown_in_order(table, video_id, model, n - 1, i);
        let rest = ai_debug::frames_of(table, video_id, model, n - 1);
        let all = ai_debug::frames_of(table, video_id, model, n);
        let own = (n - 1) as usize;
        if findings::is_frame_of(table[n - 1], video_id, model) {
            lemma_frames_before(table, rest, own);
            let p = ai_debug::frames_before(table, rest, own);
            assert(all =~= rest.insert(p, own));
            if rest.contains(i as usize) {
                let at = choose|at: int| 0 <= at < rest.len() && rest[at] == i as usize;
                if at < p {
                    assert(all[at] == i as usize);
                } else {
                    assert(all[at + 1] == i as usize);
                }
            }
            if i == n - 1 {
                assert(all[p] == i as usize);
            }
            if all.contains(i as usize) {
                let at = choose|at: int| 0 <= at < all.len() && all[at] == i as usize;
                if at < p {
                    assert(rest[at] == i as usize);
                } else if at > p {
                    assert(rest[at - 1] == i as usize);
                }
            }
            assert forall|a: int, b: int| 0 <= a < b < all.len() implies table[#[trigger] all[a] as int].frame_index
                <= table[#[trigger] all[b] as int].frame_index by {
                if a < p {
                    assert(all[a] == rest[a]);
                    if p > 0 && a < p - 1 {
                        assert(table[rest[a] as int].frame_index
                            <= table[rest[p - 1] as int].frame_index);
                    }
                }
                if a > p {
                    assert(all[a] == rest[a - 1]);
                }
                if b < p {
                    assert(all[b] == rest[b]);
                }
                if b > p {
                    assert(all[b] == rest[b - 1]);
                }
            }
        }
    }
}

proof fn lemma_frames_before(table: Seq<FrameEmbeddingRecord>, list: Seq<usize>, i: usize)
    ensures
        ({
            let p = ai_debug::frames_before(table, list, i);
            &&& 0 <= p <= list.len()
            &&& p > 0 ==> table[list[p - 1] as int].frame_index <= table[i as int].frame_index
            &&& forall|k: int|
                p <= k < list.len() ==> table[(#[trigger] list[k]) as int].frame_index
                    > table[i as int].frame_index
        }),
    decreases list.len(),
{
    if list.len() > 0 && table[list.last() as int].frame_index > table[i as int].frame_index {
        let head = list.drop_last();
        lemma_frames_before(table, head, i);
        let p = ai_debug::frames_before(table, list, i);
        if p > 0 {
            assert(head[p - 1] == list[p - 1]);
        }
        assert forall|k: int| p <= k < list.len() implies table[(#[trigger] list[k]) as int].frame_index
            > table[i as int].frame_index by {
            if k < head.len() {
                assert(head[k] == list[k]);
            }
        }
    }
}

/// Nothing is missing exactly where matching is on, both videos are found and the model is known.
pub proof fn law_missing_parts_are_told(enabled: bool, left: bool, right: bool, model: bool)
    ensures
        ai_debug::missing_parts(enabled, left, right, model).len() == (if enabled {
            0int
        } else {
            1
        }) + (if left {
            0int
        } else {
            1
        }) + (if right {
            0int
        } else {
            1
        }) + (if model {
            0int
        } else {
            1
        }),
        !enabled ==> ai_debug::missing_parts(enabled, left, right, model)[0]
            == "AI vision matching is disabled in settings."@,
        !model ==> ai_debug::missing_parts(enabled, left, right, model).last()
            == "No embedding model record matches the configured model path."@,
{
}

/// Of a list in the log every text is read, in its order, and nothing else.
pub proof fn law_texts_of_a_list_are_read(items: Seq<Option<Seq<char>>>, n: int, told: Seq<char>)
    requires
        0 <= n <= items.len(),
    ensures
        log_lines::texts_among(items, n).contains(told) <==> exists|k: int|
            0 <= k < n && #[trigger] items[k] == Some(told),
        (forall|k: int| 0 <= k < n ==> #[trigger] items[k] is Some) ==> log_lines::texts_among(
            items,
            n,
        ).len() == n,
    decreases n,
{
    if n > 0 {
        law_texts_of_a_list_are_read(items, n - 1, told);
        let rest = log_lines::texts_among(items, n - 1);
        let all = log_lines::texts_among(items, n);
        if rest.contains(told) {
            let at = choose|at: int| 0 <= at < rest.len() && rest[at] == told;
            assert(all[at] == told);
        }
        if items[n - 1] == Some(told) {
            assert(all[rest.len() as int] == told);
        }
        if all.contains(told) && !rest.contains(told) {
            let at = choose|at: int| 0 <= at < all.len() && all[at] == told;
            if at < rest.len() {
                assert(rest[at] == told);
            }
            assert(items[n - 1] == Some(told));
        }
    }
}

/// Of the log every line that is not blank and can be read is an entry; other lines are passed over.
pub proof fn law_readable_lines_are_entries(lines: Seq<Seq<char>>, n: int, i: int)
    requires
        0 <= i < lines.len() <= usize::MAX,
        0 <= n <= lines.len(),
    ensures
        log_lines::entry_positions(lines, n).contains(i as usize) <==> i < n && text::trimmed(
            lines[i],
        ).len() > 0 && log_lines::line_parses(lines[i]),
        forall|a: int, b: int|
            0 <= a < b < log_lines::entry_positions(lines, n).len()
                ==> #[trigger] log_lines::entry_positions(lines, n)[a]
                < #[trigger] log_lines::entry_positions(lines, n)[b],
        forall|a: int|
            0 <= a < log_lines::entry_positions(lines, n).len()
                ==> #[trigger] log_lines::entry_positions(lines, n)[a] < n,
    decreases n,
{
    if n > 0 {
        law_readable_lines_are_entries(lines, n - 1, i);
        let rest = log_lines::entry_positions(lines, n - 1);
        let all = log_lines::entry_positions(lines, n);
        let own = i as usize;
        if rest.contains(own) {
            let at = choose|at: int| 0 <= at < rest.len() && rest[at] == own;
            assert(all[at] == own);
        }
        if i == n - 1 && log_lines::holds_entry(lines[i]) {
            assert(all[rest.len() as int] == own);
        }
        if all.contains(own) && !rest.contains(own) {
            let at = choose|at: int| 0 <= at < all.len() && all[at] == own;
            if at < rest.len() {
                assert(rest[at] == own);
            }
        }
    }
}

/// Of the scores of a pair at most twenty are shown.
pub proof fn law_twenty_scores_are_shown(
    shown: Seq<AiPairDebugCachedScore>,
    table: Seq<AiPairScoreRecord>,
    pair: (i64, i64),
    model: Seq<char>,
    current: Option<Seq<char>>,
)
    requires
        ai_debug::newest_shown(shown, table, pair, model, current),
    ensures
        shown.len() <= 20,
        ai_debug::scores_of_pair(table, pair, model, table.len() as int).len() <= 20
            ==> shown.len() == ai_debug::scores_of_pair(
            table,
            pair,
            model,
            table.len() as int,
        ).len(),
        ai_debug::scores_of_pair(table, pair, model, table.len() as int).len() > 20
            ==> shown.len() == 20,
{
}

/// At least one matching frame is asked for, and never more than 128.
pub proof fn law_asked_frames_are_bounded(settings: AppSettings)
    ensures
        1 <= ai_debug::least_frames(settings) <= 128,
        1 <= settings.ai_min_matched_frames <= 128 ==> ai_debug::least_frames(settings)
            == settings.ai_min_matched_frames,
{
}

/// As many frames can be compared as the video with fewer has, and at least one.
pub proof fn law_fewer_frames_bound_the_comparison(short_frames: int, long_frames: int)
    ensures
        stretches::comparable(short_frames, long_frames) >= 1,
        short_frames >= 1 && long_frames >= 1 ==> stretches::comparable(short_frames, long_frames)
            <= short_frames && stretches::comparable(short_frames, long_frames) <= long_frames,
        1 <= short_frames <= long_frames ==> stretches::comparable(short_frames, long_frames)
            == short_frames,
        1 <= long_frames <= short_frames ==> stretches::comparable(short_frames, long_frames)
            == long_frames,
{
}

/// A stretch near the last one is joined to it; another one is listed on its own.
pub proof fn law_near_stretches_are_joined(
    merged: Seq<MatchRange>,
    range: MatchRange,
    average: Double,
)
    ensures
        merged.len() > 0 ==> stretches::with_range(merged, range, true, average).len()
            == merged.len(),
        merged.len() > 0 ==> stretches::with_range(merged, range, true, average).last().average_similarity
            == average,
        stretches::with_range(merged, range, false, average).last() == range,
        stretches::with_range(merged, range, false, average).len() == merged.len() + 1,
        stretches::with_range(merged, range, false, average).drop_last() == merged,
        merged.len() == 0 ==> stretches::with_range(merged, range, true, average) == seq![range],
{
    assert(merged.push(range).drop_last() =~= merged);
    if merged.len() == 0 {
        assert(merged.push(range) =~= seq![range]);
    }
}

/// Details of a group are told of its recommended video, else of its first one.
pub proof fn law_details_lead_from_the_recommended_video(group: MatchGroup)
    ensures
        group.recommended_video_id is Some ==> stretches::leader(group)
            == group.recommended_video_id,
        group.recommended_video_id is None && group.items@.len() > 0 ==> stretches::leader(group)
            == group.items@[0].video.id,
        group.recommended_video_id is None && group.items@.len() == 0 ==> stretches::leader(group)
            is None,
{
}

/// Each video of a pair is shown its own side of the comparison, and no other video is shown any.
pub proof fn law_each_side_is_shown_its_own(detail: stretches::PairDisplayDetail, id: i64)
    ensures
        stretches::detail_for(detail, Some(detail.left_video_id)) == Some(detail.left_detail),
        detail.left_video_id != detail.right_video_id ==> stretches::detail_for(
            detail,
            Some(detail.right_video_id),
        ) == Some(detail.right_detail),
        id != detail.left_video_id && id != detail.right_video_id ==> stretches::detail_for(
            detail,
            Some(id),
        ) is None,
        stretches::detail_for(detail, None) is None,
{
}

} // verus!
