//! What holds of the index: what is recorded, what is recognized, and what is removed.
use crate::database;
use crate::database::{FilePlace, RowProbe};
use crate::files::FileState;
use crate::findings;
use crate::identity;
use crate::index;
use crate::index::{MatchEdge, SessionLink, VideoIndex};
use crate::models::{
    AiPairScoreRecord, FrameEmbeddingRecord, ScanSession, VideoData, VideoRecord,
};
use crate::operations;
use crate::rows;
use crate::scans;
use crate::text;
use crate::upkeep;
use vstd::prelude::*;

verus! {

/// Of a list exactly the items that have a property are kept.
pub proof fn law_kept_items_have_the_property<T>(items: Seq<T>, property: spec_fn(T) -> bool, x: T)
    ensures
        rows::having(items, property).contains(x) <==> items.contains(x) && property(x),
{
    rows::lemma_having(items, property);
    if rows::having(items, property).contains(x) {
        let k = choose|k: int|
            0 <= k < rows::having(items, property).len() && rows::having(items, property)[k] == x;
        assert(property(rows::having(items, property)[k]));
    }
}

/// Videos that are removed go with all that refers to them, and nothing else goes: every other
/// video, link, frame, score and verdict stays, and so do all scans and models.
pub proof fn law_removed_videos_take_their_rows_along(
    before: VideoIndex,
    after: VideoIndex,
    ids: Seq<i64>,
    video: VideoRecord,
    link: SessionLink,
    frame: FrameEmbeddingRecord,
    score: AiPairScoreRecord,
    edge: MatchEdge,
)
    requires
        index::videos_dropped(before, after, ids),
    ensures
        after.videos@.contains(video) <==> before.videos@.contains(video) && (video.id is None
            || !ids.contains(video.id->0)),
        after.links@.contains(link) <==> before.links@.contains(link) && !ids.contains(
            link.video_id,
        ),
        after.frame_embeddings@.contains(frame) <==> before.frame_embeddings@.contains(frame)
            && !ids.contains(frame.video_id),
        after.pair_scores@.contains(score) <==> before.pair_scores@.contains(score)
            && !ids.contains(score.video_a_id) && !ids.contains(score.video_b_id),
        after.match_edges@.contains(edge) <==> before.match_edges@.contains(edge) && !ids.contains(
            edge.video_a_id,
        ) && !ids.contains(edge.video_b_id),
        after.sessions@ == before.sessions@,
        after.models@ == before.models@,
        after.next_video_id == before.next_video_id,
        after.next_session_id == before.next_session_id,
{
    law_kept_items_have_the_property(before.videos@, index::video_spared(ids), video);
    law_kept_items_have_the_property(before.links@, index::link_spared(ids), link);
    law_kept_items_have_the_property(before.frame_embeddings@, index::frame_spared(ids), frame);
    law_kept_items_have_the_property(before.pair_scores@, index::score_spared(ids), score);
    law_kept_items_have_the_property(before.match_edges@, index::edge_spared(ids), edge);
}

/// A file has other content where its size or its content hash is another one; only where a hash is
/// missing does the time of its last change tell.
pub proof fn law_content_is_told_by_size_and_hash(known: VideoData, seen: VideoData)
    ensures
        known.size_bytes != seen.size_bytes ==> database::content_changed(known, seen),
        known.size_bytes == seen.size_bytes && known.partial_hash is Some
            && known.partial_hash->0.len() > 0 && seen.partial_hash is Some
            && seen.partial_hash->0.len() > 0 ==> (database::content_changed(known, seen)
            <==> known.partial_hash->0 != seen.partial_hash->0),
        known.size_bytes == seen.size_bytes && (known.partial_hash is None || seen.partial_hash
            is None || known.partial_hash->0.len() == 0 || seen.partial_hash->0.len() == 0) ==> (
        database::content_changed(known, seen) <==> known.modified_unix_ms
            != seen.modified_unix_ms),
{
}

/// What is written of a video is in the index under its path, as it was given; a video whose path is
/// known keeps its id, another one gets an id of its own; all other videos stay as they are.
pub proof fn law_written_videos_are_in_the_index(
    before: VideoIndex,
    after: VideoIndex,
    video: VideoData,
    id: i64,
) -> (at: int)
    requires
        before.wf(),
        database::upserted(before, after, video, id),
    ensures
        0 <= at < after.videos@.len(),
        after.videos@[at]@ == (VideoData { id: Some(id), ..video }),
        forall|k: int|
            #![trigger before.videos@[k]]
            0 <= k < before.videos@.len() && before.videos@[k].path@ != video.path ==> k
                < after.videos@.len() && after.videos@[k] == before.videos@[k],
        forall|k: int|
            #![trigger before.videos@[k]]
            0 <= k < before.videos@.len() && before.videos@[k].path@ == video.path ==> id
                == before.videos@[k].id->0 && after.videos@.len() == before.videos@.len(),
        (forall|k: int|
            #![trigger before.videos@[k]]
            0 <= k < before.videos@.len() ==> before.videos@[k].path@ != video.path)
            ==> after.videos@.len() == before.videos@.len() + 1 && id == before.next_video_id,
        after.links@ == before.links@,
        after.sessions@ == before.sessions@,
        after.models@ == before.models@,
{
    if exists|i: int| database::path_at(before.videos@, video.path, i) {
        let i = choose|i: int| #[trigger]
            database::path_at(before.videos@, video.path, i) && {
                &&& id == before.videos@[i].id->0
                &&& after.next_video_id == before.next_video_id
                &&& after.videos@.len() == before.videos@.len()
                &&& after.videos@[i]@ == database::recorded(video, id)
                &&& forall|k: int|
                    0 <= k < before.videos@.len() && k != i ==> #[trigger] after.videos@[k]
                        == before.videos@[k]
                &&& if database::content_changed(before.videos@[i]@, video) {
                    index::ai_rows_dropped(before, after, seq![id])
                } else {
                    index::same_ai_rows(before, after)
                }
            };
        assert forall|k: int|
            #![trigger before.videos@[k]]
            0 <= k < before.videos@.len() && before.videos@[k].path@ == video.path implies k
            == i by {
            if k < i {
                assert(before.videos@[k].path@ != before.videos@[i].path@);
            } else if i < k {
                assert(before.videos@[i].path@ != before.videos@[k].path@);
            }
        }
        assert forall|k: int|
            #![trigger before.videos@[k]]
            0 <= k < before.videos@.len() && before.videos@[k].path@ != video.path implies k
            < after.videos@.len() && after.videos@[k] == before.videos@[k] by {
            assert(k != i);
            assert(after.videos@[k] == before.videos@[k]);
        }
        i
    } else {
        assert forall|k: int|
            #![trigger before.videos@[k]]
            0 <= k < before.videos@.len() implies before.videos@[k].path@ != video.path
            && after.videos@[k] == before.videos@[k] by {
            assert(!database::path_at(before.videos@, video.path, k));
            assert(after.videos@.drop_last()[k] == after.videos@[k]);
        }
        after.videos@.len() - 1
    }
}

/// What the model found of a file is forgotten where its content changed, and kept where it did not.
pub proof fn law_changed_content_is_looked_at_again(
    before: VideoIndex,
    after: VideoIndex,
    video: VideoData,
    id: i64,
    i: int,
    frame: FrameEmbeddingRecord,
)
    requires
        before.wf(),
        database::upserted(before, after, video, id),
        0 <= i < before.videos@.len(),
        before.videos@[i].path@ == video.path,
    ensures
        database::content_changed(before.videos@[i]@, video) ==> (
        after.frame_embeddings@.contains(frame) <==> before.frame_embeddings@.contains(frame)
            && frame.video_id != id),
        !database::content_changed(before.videos@[i]@, video) ==> after.frame_embeddings@
            == before.frame_embeddings@ && after.pair_scores@ == before.pair_scores@
            && after.match_edges@ == before.match_edges@,
{
    assert(database::path_at(before.videos@, video.path, i));
    let j = choose|j: int| #[trigger]
        database::path_at(before.videos@, video.path, j) && {
            &&& id == before.videos@[j].id->0
            &&& after.next_video_id == before.next_video_id
            &&& after.videos@.len() == before.videos@.len()
            &&& after.videos@[j]@ == database::recorded(video, id)
            &&& forall|k: int|
                0 <= k < before.videos@.len() && k != j ==> #[trigger] after.videos@[k]
                    == before.videos@[k]
            &&& if database::content_changed(before.videos@[j]@, video) {
                index::ai_rows_dropped(before, after, seq![id])
            } else {
                index::same_ai_rows(before, after)
            }
        };
    if i < j {
        assert(before.videos@[i].path@ != before.videos@[j].path@);
    } else if j < i {
        assert(before.videos@[j].path@ != before.videos@[i].path@);
    }
    law_kept_items_have_the_property(
        before.frame_embeddings@,
        index::frame_spared(seq![id]),
        frame,
    );
    assert(seq![id].contains(frame.video_id) <==> frame.video_id == id) by {
        assert(seq![id][0] == id);
    }
}

/// A video that is moved has its new path, name and folder, and is in all else as it was; no other
/// video changes.
pub proof fn law_moved_videos_only_change_their_place(
    before: VideoIndex,
    after: VideoIndex,
    id: i64,
    place: FilePlace,
    now: i64,
    k: int,
)
    requires
        database::one_moved(before, after, id, place, now),
        0 <= k < before.videos@.len(),
    ensures
        before.videos@[k].id != Some(id) ==> after.videos@[k] == before.videos@[k],
        before.videos@[k].id == Some(id) ==> after.videos@[k]@ == (VideoData {
            path: place.path@,
            file_name: place.file_name@,
            parent_path: place.parent_path@,
            scanned_at_unix_ms: now,
            ..before.videos@[k]@
        }),
        after.videos@.len() == before.videos@.len(),
        after.frame_embeddings@ == before.frame_embeddings@,
        after.pair_scores@ == before.pair_scores@,
        after.match_edges@ == before.match_edges@,
        after.links@ == before.links@,
{
    let row = after.videos@[k];
}

/// A file is taken for a video that was moved only where the video was scanned well, its own file is
/// gone from another path on the same drive or share, and both have one size, one extension, one
/// content hash and one length.
pub proof fn law_moved_files_are_recognized_by_content(
    row: VideoData,
    video: VideoData,
    probe: RowProbe,
)
    ensures
        identity::is_twin(row, video, probe) <==> {
            &&& row.scan_status == "ok"@
            &&& text::ascii_lowered(row.path) != text::ascii_lowered(video.path)
            &&& database::storage_root(row.path) is Some
            &&& database::storage_root(row.path) == database::storage_root(video.path)
            &&& !probe.path_exists
            &&& row.size_bytes == video.size_bytes
            &&& text::ascii_lowered(row.extension) == text::ascii_lowered(video.extension)
            &&& database::nonempty(row.partial_hash) == database::nonempty(video.partial_hash)
            &&& row.duration_seconds is Some
            &&& video.duration_seconds is Some
            &&& probe.duration_close
        },
{
}

/// A file without a content hash, a length, a size or an extension is not recognized, and neither is
/// one that could be two videos.
pub proof fn law_doubtful_files_are_not_recognized(
    videos: Seq<VideoRecord>,
    video: VideoData,
    probes: Seq<RowProbe>,
    i: int,
)
    requires
        identity::only_twin(videos, video, probes, i),
    ensures
        video.partial_hash is Some && video.partial_hash->0.len() > 0,
        video.duration_seconds is Some,
        video.size_bytes > 0,
        text::trimmed(video.extension).len() > 0,
        forall|k: int|
            #![trigger videos[k]]
            0 <= k < videos.len() && k != i ==> !identity::is_twin(videos[k]@, video, probes[k]),
{
}

/// Only videos that were scanned well and whose files are missing are taken out of the index.
pub proof fn law_only_missing_files_are_pruned(
    videos: Seq<VideoRecord>,
    states: Seq<FileState>,
    n: int,
    id: i64,
)
    requires
        0 <= n <= videos.len(),
        states.len() == videos.len(),
    ensures
        operations::gone_ids(videos, states, n).contains(id) <==> exists|k: int|
            0 <= k < n && (#[trigger] videos[k]).id == Some(id) && videos[k].scan_status@ == "ok"@
                && states[k] is Missing,
    decreases n,
{
    if n > 0 {
        law_only_missing_files_are_pruned(videos, states, n - 1, id);
        let rest = operations::gone_ids(videos, states, n - 1);
        let all = operations::gone_ids(videos, states, n);
        if rest.contains(id) {
            let at = choose|at: int| 0 <= at < rest.len() && rest[at] == id;
            assert(all[at] == id);
        }
        if videos[n - 1].id == Some(id) && videos[n - 1].scan_status@ == "ok"@ && states[n - 1]
            is Missing {
            assert(all[rest.len() as int] == id);
        }
        if all.contains(id) && !rest.contains(id) {
            let at = choose|at: int| 0 <= at < all.len() && all[at] == id;
            if at < rest.len() {
                assert(rest[at] == id);
            }
            assert(videos[n - 1].id == Some(id));
        }
    }
}

/// Videos whose files are there, or were never scanned well, are still listed.
pub proof fn law_files_that_are_there_stay_listed(
    videos: Seq<VideoRecord>,
    states: Seq<FileState>,
    n: int,
    video: VideoRecord,
)
    requires
        0 <= n <= videos.len(),
        states.len() == videos.len(),
    ensures
        operations::still_there(videos, states, n).contains(video) <==> exists|k: int|
            0 <= k < n && #[trigger] videos[k] == video && !(videos[k].scan_status@ == "ok"@
                && states[k] is Missing),
    decreases n,
{
    if n > 0 {
        law_files_that_are_there_stay_listed(videos, states, n - 1, video);
        let rest = operations::still_there(videos, states, n - 1);
        let all = operations::still_there(videos, states, n);
        if rest.contains(video) {
            let at = choose|at: int| 0 <= at < rest.len() && rest[at] == video;
            assert(all[at] == video);
        }
        if videos[n - 1] == video && !(videos[n - 1].scan_status@ == "ok"@ && states[n - 1]
            is Missing) {
            assert(all[rest.len() as int] == video);
        }
        if all.contains(video) && !rest.contains(video) {
            let at = choose|at: int| 0 <= at < all.len() && all[at] == video;
            if at < rest.len() {
                assert(rest[at] == video);
            }
            assert(videos[n - 1] == video);
        }
    }
}

/// A source is forgotten only where it is gone although the drive or share that it lay on can be
/// reached; one that cannot be reached is only counted.
pub proof fn law_sources_out_of_reach_are_kept(
    sessions: Seq<ScanSession>,
    listed: Seq<usize>,
    probes: Seq<scans::SourceProbe>,
    n: int,
    id: i64,
)
    requires
        0 <= n <= listed.len(),
        listed.len() == probes.len(),
    ensures
        scans::vanished(sessions, listed, probes, n).contains(id) <==> exists|k: int|
            0 <= k < n && sessions[#[trigger] listed[k] as int].id == id && !probes[k].exists
                && probes[k].root_available,
        scans::vanished(sessions, listed, probes, n).len() + scans::out_of_reach(probes, n) <= n,
        (forall|k: int| 0 <= k < n ==> (#[trigger] probes[k]).exists) ==> scans::vanished(
            sessions,
            listed,
            probes,
            n,
        ).len() == 0 && scans::out_of_reach(probes, n) == 0,
    decreases n,
{
    if n > 0 {
        law_sources_out_of_reach_are_kept(sessions, listed, probes, n - 1, id);
        let rest = scans::vanished(sessions, listed, probes, n - 1);
        let all = scans::vanished(sessions, listed, probes, n);
        let own = probes[n - 1];
        if rest.contains(id) {
            let at = choose|at: int| 0 <= at < rest.len() && rest[at] == id;
            assert(all[at] == id);
        }
        if sessions[listed[n - 1] as int].id == id && !own.exists && own.root_available {
            assert(all[rest.len() as int] == id);
        }
        if all.contains(id) && !rest.contains(id) {
            let at = choose|at: int| 0 <= at < all.len() && all[at] == id;
            if at < rest.len() {
                assert(rest[at] == id);
            }
            assert(sessions[listed[n - 1] as int].id == id);
        }
    }
}

proof fn lemma_doomed(sessions: Seq<ScanSession>, requested: Seq<i64>, n: int, id: i64)
    requires
        0 <= n <= sessions.len(),
    ensures
        scans::doomed_ids(sessions, requested, n).contains(id) <==> exists|k: int|
            0 <= k < n && (#[trigger] sessions[k]).id == id && scans::is_doomed(
                sessions,
                requested,
                sessions[k],
            ),
    decreases n,
{
    if n > 0 {
        lemma_doomed(sessions, requested, n - 1, id);
        let rest = scans::doomed_ids(sessions, requested, n - 1);
        let all = scans::doomed_ids(sessions, requested, n);
        if rest.contains(id) {
            let at = choose|at: int| 0 <= at < rest.len() && rest[at] == id;
            assert(all[at] == id);
        }
        if sessions[n - 1].id == id && scans::is_doomed(sessions, requested, sessions[n - 1]) {
            assert(all[rest.len() as int] == id);
        }
        if all.contains(id) && !rest.contains(id) {
            let at = choose|at: int| 0 <= at < all.len() && all[at] == id;
            if at < rest.len() {
                assert(rest[at] == id);
            }
            assert(sessions[n - 1].id == id);
        }
    }
}

/// The removal of scans takes every scan of the same sources along, and no scan of another source.
pub proof fn law_scans_of_one_source_go_together(before: VideoIndex, requested: Seq<i64>, id: i64)
    ensures
        scans::removal(before, requested).sessions.contains(id) <==> exists|k: int, j: int|
            #![trigger before.sessions@[k], before.sessions@[j]]
            0 <= k < before.sessions@.len() && 0 <= j < before.sessions@.len()
                && before.sessions@[k].id == id && requested.contains(before.sessions@[j].id)
                && text::ascii_lowered(before.sessions@[k].source@) == text::ascii_lowered(
                before.sessions@[j].source@,
            ),
{
    let sessions = before.sessions@;
    lemma_doomed(sessions, requested, sessions.len() as int, id);
    if scans::removal(before, requested).sessions.contains(id) {
        let k = choose|k: int|
            0 <= k < sessions.len() && (#[trigger] sessions[k]).id == id && scans::is_doomed(
                sessions,
                requested,
                sessions[k],
            );
        let j = choose|j: int|
            0 <= j < sessions.len() && requested.contains((#[trigger] sessions[j]).id)
                && scans::is_of(sessions[k], sessions[j].source@);
        assert(before.sessions@[k].id == id && requested.contains(before.sessions@[j].id));
    }
    if exists|k: int, j: int|
        #![trigger before.sessions@[k], before.sessions@[j]]
        0 <= k < before.sessions@.len() && 0 <= j < before.sessions@.len()
            && before.sessions@[k].id == id && requested.contains(before.sessions@[j].id)
            && text::ascii_lowered(before.sessions@[k].source@) == text::ascii_lowered(
            before.sessions@[j].source@,
        ) {
        let (k, j) = choose|k: int, j: int|
            #![trigger before.sessions@[k], before.sessions@[j]]
            0 <= k < before.sessions@.len() && 0 <= j < before.sessions@.len()
                && before.sessions@[k].id == id && requested.contains(before.sessions@[j].id)
                && text::ascii_lowered(before.sessions@[k].source@) == text::ascii_lowered(
                before.sessions@[j].source@,
            );
        assert(scans::is_of(sessions[k], sessions[j].source@));
        assert(scans::is_doomed(sessions, requested, sessions[k]));
    }
}

proof fn lemma_linked_videos(links: Seq<SessionLink>, ids: Seq<i64>, n: int, id: i64)
    requires
        0 <= n <= links.len(),
    ensures
        scans::linked_videos(links, ids, n).contains(id) <==> exists|k: int|
            0 <= k < n && (#[trigger] links[k]).video_id == id && ids.contains(links[k].session_id),
    decreases n,
{
    if n > 0 {
        lemma_linked_videos(links, ids, n - 1, id);
        let rest = scans::linked_videos(links, ids, n - 1);
        let all = scans::linked_videos(links, ids, n);
        let link = links[n - 1];
        if rest.contains(id) {
            let at = choose|at: int| 0 <= at < rest.len() && rest[at] == id;
            assert(all[at] == id);
        }
        if link.video_id == id && ids.contains(link.session_id) && !rest.contains(id) {
            assert(all[rest.len() as int] == id);
        }
        if all.contains(id) && !rest.contains(id) {
            let at = choose|at: int| 0 <= at < all.len() && all[at] == id;
            if at < rest.len() {
                assert(rest[at] == id);
            }
            assert(links[n - 1].video_id == id);
        }
    }
}

/// With its scans a video goes exactly where one of them saw it and no scan that stays did.
pub proof fn law_videos_go_with_their_last_scan(before: VideoIndex, requested: Seq<i64>, id: i64)
    ensures
        scans::removal(before, requested).orphans.contains(id) <==> {
            &&& exists|k: int|
                0 <= k < before.links@.len() && (#[trigger] before.links@[k]).video_id == id
                    && scans::removal(before, requested).sessions.contains(
                    before.links@[k].session_id,
                )
            &&& forall|k: int|
                0 <= k < before.links@.len() && (#[trigger] before.links@[k]).video_id == id
                    ==> scans::removal(before, requested).sessions.contains(
                    before.links@[k].session_id,
                )
        },
{
    let what = scans::removal(before, requested);
    let links = before.links@;
    let left = rows::having(links, scans::from_spared(what.sessions));
    let property = |v: i64| !database::is_linked(left, v);
    lemma_linked_videos(links, what.sessions, links.len() as int, id);
    law_kept_items_have_the_property(what.affected, property, id);
    if database::is_linked(left, id) {
        let at = choose|at: int| 0 <= at < left.len() && (#[trigger] left[at]).video_id == id;
        law_kept_items_have_the_property(links, scans::from_spared(what.sessions), left[at]);
        assert(left.contains(left[at]));
        let k = choose|k: int| 0 <= k < links.len() && links[k] == left[at];
        assert(before.links@[k].video_id == id);
    } else {
        assert forall|k: int|
            0 <= k < links.len() && (#[trigger] links[k]).video_id
                == id implies what.sessions.contains(links[k].session_id) by {
            law_kept_items_have_the_property(links, scans::from_spared(what.sessions), links[k]);
            assert(links.contains(links[k]));
            if !what.sessions.contains(links[k].session_id) {
                assert(left.contains(links[k]));
                let at = choose|at: int| 0 <= at < left.len() && left[at] == links[k];
                assert(left[at].video_id == id);
            }
        }
    }
}

/// A new scan of a source starts with no videos and no counts, and forgets which ones the scans of
/// that source saw before; what other scans saw stays.
pub proof fn law_new_scans_start_empty(
    before: VideoIndex,
    after: VideoIndex,
    source: Seq<char>,
    started_unix_ms: i64,
    id: i64,
    link: SessionLink,
)
    requires
        before.wf(),
        scans::session_started(before, after, source, started_unix_ms, id),
    ensures
        exists|k: int|
            0 <= k < after.sessions@.len() && (#[trigger] after.sessions@[k]).id == id
                && after.sessions@[k].source@ == source && after.sessions@[k].started_unix_ms
                == started_unix_ms && after.sessions@[k].completed_unix_ms is None
                && after.sessions@[k].scanned == 0 && after.sessions@[k].failed == 0,
        after.links@.contains(link) ==> before.links@.contains(link) && link.session_id != id,
        before.links@.contains(link) && (forall|k: int|
            0 <= k < before.sessions@.len() && (#[trigger] before.sessions@[k]).id
                == link.session_id ==> text::ascii_lowered(before.sessions@[k].source@)
                != text::ascii_lowered(source)) ==> after.links@.contains(link),
        after.videos@ == before.videos@,
{
    if scans::was_scanned(before.sessions@, source) {
        let property = |l: SessionLink| !scans::links_source(before.sessions@, source, l);
        law_kept_items_have_the_property(before.links@, property, link);
        let i = choose|i: int|
            0 <= i < before.sessions@.len() && scans::is_of(#[trigger] before.sessions@[i], source)
                && before.sessions@[i].id == id;
        let keep = |s: ScanSession| !scans::is_of(s, source) || s.id == id;
        let kept = rows::having(before.sessions@, keep);
        law_kept_items_have_the_property(before.sessions@, keep, before.sessions@[i]);
        assert(before.sessions@.contains(before.sessions@[i]));
        let k = choose|k: int| 0 <= k < kept.len() && kept[k] == before.sessions@[i];
        assert(after.sessions@[k].id == id);
    } else {
        let k = after.sessions@.len() - 1;
        assert(after.sessions@[k].id == id);
        if before.links@.contains(link) {
            let at = choose|at: int| 0 <= at < before.links@.len() && before.links@[at] == link;
            assert(index::has_session_id(before.sessions@, before.links@[at].session_id));
        }
    }
}

/// Videos are listed by their quality, the best first.
pub proof fn law_best_videos_are_listed_first(
    videos: Seq<VideoRecord>,
    listed: Seq<usize>,
    a: int,
    b: int,
)
    requires
        scans::lists_in_order(videos, listed),
        0 <= a < b < listed.len(),
    ensures
        !videos[listed[a] as int].quality_score.lt(videos[listed[b] as int].quality_score),
        videos[listed[a] as int].quality_score == videos[listed[b] as int].quality_score
            ==> text::text_less(videos[listed[a] as int].path@, videos[listed[b] as int].path@),
{
}

/// A score that is written replaces the one of the same two videos, model and options, if there is
/// one, and no other.
pub proof fn law_scores_replace_their_own(
    table: Seq<AiPairScoreRecord>,
    score: AiPairScoreRecord,
    other: AiPairScoreRecord,
)
    requires
        forall|i: int, j: int|
            #![trigger table[i], table[j]]
            0 <= i < j < table.len() ==> !index::same_score_key(table[i], table[j]),
        !(other.video_a_id == score.video_a_id && other.video_b_id == score.video_b_id
            && other.model_id@ == score.model_id@ && other.cache_key@ == score.cache_key@),
    ensures
        findings::score_put(table, score).contains(score),
        findings::score_put(table, score).contains(other) <==> table.contains(other),
        forall|k: int|
            0 <= k < findings::score_put(table, score).len() && index::same_score_key(
                #[trigger] findings::score_put(table, score)[k],
                score,
            ) ==> findings::score_put(table, score)[k] == score,
{
    lemma_score_position(table, score, 0);
    let at = findings::score_position(table, score, 0);
    let all = findings::score_put(table, score);
    if at >= 0 {
        assert(all[at] == score);
        if all.contains(other) {
            let k = choose|k: int| 0 <= k < all.len() && all[k] == other;
            assert(k != at);
            assert(table[k] == other);
        }
        if table.contains(other) {
            let k = choose|k: int| 0 <= k < table.len() && table[k] == other;
            assert(k != at);
            assert(all[k] == other);
        }
        assert forall|k: int|
            0 <= k < all.len() && index::same_score_key(
                #[trigger] all[k],
                score,
            ) implies all[k] == score by {
            if k != at {
                assert(all[k] == table[k]);
                if k < at {
                    assert(!index::same_score_key(table[k], table[at]));
                } else {
                    assert(!index::same_score_key(table[at], table[k]));
                }
            }
        }
    } else {
        assert(all[table.len() as int] == score);
        if all.contains(other) {
            let k = choose|k: int| 0 <= k < all.len() && all[k] == other;
            assert(table[k] == other);
        }
        if table.contains(other) {
            let k = choose|k: int| 0 <= k < table.len() && table[k] == other;
            assert(all[k] == other);
        }
    }
}

proof fn lemma_score_position(table: Seq<AiPairScoreRecord>, score: AiPairScoreRecord, from: int)
    requires
        0 <= from <= table.len(),
    ensures
        ({
            let at = findings::score_position(table, score, from);
            &&& at >= 0 ==> from <= at < table.len() && index::same_score_key(table[at], score)
            &&& at < 0 ==> forall|k: int|
                from <= k < table.len() ==> !index::same_score_key(#[trigger] table[k], score)
        }),
    decreases table.len() - from,
{
    if from < table.len() && !index::same_score_key(table[from], score) {
        lemma_score_position(table, score, from + 1);
    }
}

/// Frames that are written replace those of the same video and model, and no others.
pub proof fn law_frames_replace_their_own(
    before: Seq<FrameEmbeddingRecord>,
    after: Seq<FrameEmbeddingRecord>,
    list: Seq<FrameEmbeddingRecord>,
    video_id: i64,
    model: Seq<char>,
    frame: FrameEmbeddingRecord,
)
    requires
        findings::frames_put(before, after, list, video_id, model),
        !(frame.video_id == video_id && frame.model_id@ == model),
    ensures
        after.contains(frame) <==> before.contains(frame),
{
    let property = findings::other_frames(video_id, model);
    let kept = rows::having(before, property);
    law_kept_items_have_the_property(before, property, frame);
    if after.contains(frame) {
        let at = choose|at: int| 0 <= at < after.len() && after[at] == frame;
        if at < kept.len() {
            assert(after.take(kept.len() as int)[at] == after[at]);
        } else {
            let k = at - kept.len();
            assert(findings::same_frame(after[kept.len() + k], list[k], video_id, model));
        }
    }
    if kept.contains(frame) {
        let at = choose|at: int| 0 <= at < kept.len() && kept[at] == frame;
        assert(after.take(kept.len() as int)[at] == after[at]);
    }
}

/// Frames that are written are there, with their places, times and values.
pub proof fn law_written_frames_are_there(
    before: Seq<FrameEmbeddingRecord>,
    after: Seq<FrameEmbeddingRecord>,
    list: Seq<FrameEmbeddingRecord>,
    video_id: i64,
    model: Seq<char>,
    k: int,
) -> (at: int)
    requires
        findings::frames_put(before, after, list, video_id, model),
        0 <= k < list.len(),
    ensures
        0 <= at < after.len(),
        after[at].video_id == video_id,
        after[at].model_id@ == model,
        after[at].frame_index == list[k].frame_index,
        after[at].timestamp_seconds == list[k].timestamp_seconds,
        after[at].embedding@ == list[k].embedding@,
        after[at].norm == list[k].norm,
{
    let kept = rows::having(before, findings::other_frames(video_id, model));
    assert(findings::same_frame(after[kept.len() + k], list[k], video_id, model));
    (kept.len() + k) as int
}

/// The frames of a video are counted one by one.
pub proof fn law_frames_are_counted(
    frames: Seq<FrameEmbeddingRecord>,
    video_id: i64,
    model: Seq<char>,
    n: int,
)
    requires
        0 <= n <= frames.len(),
    ensures
        ({
            let own = Set::new(
                |k: int|
                    0 <= k < n && frames[k].video_id == video_id && frames[k].model_id@ == model,
            );
            &&& own.finite()
            &&& findings::frame_count(frames, video_id, model, n) == own.len()
        }),
    decreases n,
{
    let own = Set::new(
        |k: int| 0 <= k < n && frames[k].video_id == video_id && frames[k].model_id@ == model,
    );
    if n == 0 {
        assert(own =~= Set::<int>::empty());
    } else {
        law_frames_are_counted(frames, video_id, model, n - 1);
        let before = Set::new(
            |k: int|
                0 <= k < n - 1 && frames[k].video_id == video_id && frames[k].model_id@ == model,
        );
        if frames[n - 1].video_id == video_id && frames[n - 1].model_id@ == model {
            assert(own =~= before.insert(n - 1));
        } else {
            assert(own =~= before);
        }
    }
}

/// What a model found is taken over only from another video that was scanned well and is the same
/// recording: of one content hash and size, of one length, picture size, bit rate and frame rate,
/// and in the same format.
pub proof fn law_findings_are_taken_from_the_same_recording(
    row: VideoData,
    video: VideoData,
    duration_close: bool,
    rate_close: bool,
)
    requires
        upkeep::same_recording(row, video, duration_close, rate_close),
    ensures
        row.id != video.id,
        row.scan_status == "ok"@,
        row.partial_hash == video.partial_hash,
        row.size_bytes == video.size_bytes,
        duration_close,
        rate_close,
        video.width->0 > 0 ==> row.width == Some(video.width->0),
        video.height->0 > 0 ==> row.height == Some(video.height->0),
        video.bitrate is Some && video.bitrate->0 > 0 ==> row.bitrate == video.bitrate,
        video.codec is Some && video.codec->0.len() > 0 ==> row.codec == video.codec,
        video.audio_codec is Some && video.audio_codec->0.len() > 0 ==> row.audio_codec
            == video.audio_codec,
        video.container_format is Some && video.container_format->0.len() > 0
            ==> row.container_format == video.container_format,
{
}

/// A cleanup keeps exactly what refers to videos and models that are there, and, where options are
/// given, scores of those options.
pub proof fn law_cleanup_keeps_what_is_live(
    before: VideoIndex,
    after: VideoIndex,
    active: Option<Seq<char>>,
    frame: FrameEmbeddingRecord,
    score: AiPairScoreRecord,
)
    requires
        upkeep::stale_dropped(before, after, active),
    ensures
        after.frame_embeddings@.contains(frame) <==> before.frame_embeddings@.contains(frame)
            && index::has_video_id(before.videos@, frame.video_id) && index::has_model_id(
            before.models@,
            frame.model_id@,
        ),
        after.pair_scores@.contains(score) <==> before.pair_scores@.contains(score)
            && index::has_video_id(before.videos@, score.video_a_id) && index::has_video_id(
            before.videos@,
            score.video_b_id,
        ) && index::has_model_id(before.models@, score.model_id@) && (active is None
            || score.cache_key@ == active->0),
        after.videos@ == before.videos@,
        after.links@ == before.links@,
{
    law_kept_items_have_the_property(before.frame_embeddings@, upkeep::live_frame(before), frame);
    law_kept_items_have_the_property(
        before.pair_scores@,
        upkeep::live_score(before, active),
        score,
    );
}

/// When the frames of a video are replaced, the comparisons of that video by that model go, and no
/// others.
pub proof fn law_comparisons_of_the_video_go(
    edges: Seq<MatchEdge>,
    scores: Seq<AiPairScoreRecord>,
    video_id: i64,
    model: Seq<char>,
    edge: MatchEdge,
    score: AiPairScoreRecord,
)
    ensures
        rows::having(edges, findings::other_edges(video_id, model)).contains(edge)
            <==> edges.contains(edge) && (edge.model_id@ != model || (edge.video_a_id != video_id
            && edge.video_b_id != video_id)),
        rows::having(scores, findings::other_scores(video_id, model)).contains(score)
            <==> scores.contains(score) && (score.model_id@ != model || (score.video_a_id
            != video_id && score.video_b_id != video_id)),
{
    law_kept_items_have_the_property(edges, findings::other_edges(video_id, model), edge);
    law_kept_items_have_the_property(scores, findings::other_scores(video_id, model), score);
}

/// Pruned are the scores of a model that rest on other options, and no others.
pub proof fn law_scores_of_other_options_are_pruned(
    scores: Seq<AiPairScoreRecord>,
    model: Seq<char>,
    active: Seq<char>,
    score: AiPairScoreRecord,
)
    ensures
        rows::having(
            scores,
            |s: AiPairScoreRecord| !findings::is_stale(s, model, active),
        ).contains(score) <==> scores.contains(score) && (score.model_id@ != model
            || score.cache_key@ == active),
{
    law_kept_items_have_the_property(
        scores,
        |s: AiPairScoreRecord| !findings::is_stale(s, model, active),
        score,
    );
}

/// Frames are taken over from another video only where it has all that are expected, and at least one.
pub proof fn law_whole_frame_sets_are_taken_over(
    index: VideoIndex,
    probes: Seq<upkeep::TimingProbe>,
    video: VideoData,
    model: Seq<char>,
    expected: usize,
    i: int,
)
    requires
        upkeep::is_source(index, probes, video, model, expected, i),
    ensures
        index.videos@[i].id is Some,
        findings::frame_count(
            index.frame_embeddings@,
            index.videos@[i].id->0,
            model,
            index.frame_embeddings@.len() as int,
        ) >= expected,
        findings::frame_count(
            index.frame_embeddings@,
            index.videos@[i].id->0,
            model,
            index.frame_embeddings@.len() as int,
        ) >= 1,
        index.videos@[i].size_bytes == video.size_bytes,
{
}

/// The frames of some videos are those of the model whose video is among them.
pub proof fn law_frames_of_videos_are_listed(
    frames: Seq<FrameEmbeddingRecord>,
    model: Seq<char>,
    ids: Seq<i64>,
    n: int,
    i: int,
)
    requires
        0 <= i < frames.len() <= usize::MAX,
        0 <= n <= frames.len(),
    ensures
        upkeep::positions_of(frames, model, ids, n).contains(i as usize) <==> i < n
            && frames[i].model_id@ == model && ids.contains(frames[i].video_id),
    decreases n,
{
    if n > 0 {
        law_frames_of_videos_are_listed(frames, model, ids, n - 1, i);
        let rest = upkeep::positions_of(frames, model, ids, n - 1);
        let all = upkeep::positions_of(frames, model, ids, n);
        let own = i as usize;
        if rest.contains(own) {
            let at = choose|at: int| 0 <= at < rest.len() && rest[at] == own;
            assert(all[at] == own);
        }
        if i == n - 1 && frames[i].model_id@ == model && ids.contains(frames[i].video_id) {
            assert(all[rest.len() as int] == own);
        }
        if all.contains(own) && !rest.contains(own) {
            let at = choose|at: int| 0 <= at < all.len() && all[at] == own;
            if at < rest.len() {
                assert(rest[at] == own);
            }
        }
    }
}

/// Every id is asked for in one of the queries.
pub proof fn law_every_id_is_asked_for(ids: Seq<i64>, k: int)
    requires
        0 <= k < ids.len(),
    ensures
        upkeep::query_ids(ids, k / 800).contains(ids[k]),
        upkeep::query_ids(ids, k / 800).len() <= 800,
{
    let part = upkeep::query_ids(ids, k / 800);
    let first = 800 * (k / 800);
    assert(first <= k < first + 800);
    assert(part[k - first] == ids[k]);
}

/// A query has one mark for each value, with commas between them.
pub proof fn law_queries_have_a_mark_for_each_value(count: int, k: int)
    requires
        count >= 1,
        0 <= k < 2 * count - 1,
    ensures
        upkeep::placeholders(count).len() == 2 * count - 1,
        upkeep::placeholders(count)[k] == (if k % 2 == 0 {
            '?'
        } else {
            ','
        }),
    decreases count,
{
    if count > 1 {
        if k < 2 * (count - 1) - 1 {
            law_queries_have_a_mark_for_each_value(count - 1, k);
        } else {
            law_queries_have_a_mark_for_each_value(count - 1, 0);
        }
    }
}

/// Another video stands at a path exactly where it has another id and the path but for the case of
/// its letters; the first such video is found.
pub proof fn law_other_videos_at_a_path_are_found(
    videos: Seq<VideoRecord>,
    id: i64,
    path: Seq<char>,
    from: int,
)
    requires
        0 <= from <= videos.len(),
    ensures
        ({
            let at = database::first_other(videos, id, path, from);
            &&& at >= 0 ==> from <= at < videos.len() && videos[at].id != Some(id)
                && text::ascii_lowered(videos[at].path@) == text::ascii_lowered(path)
            &&& at < 0 ==> forall|k: int|
                from <= k < videos.len() && (#[trigger] videos[k]).id != Some(id)
                    ==> text::ascii_lowered(videos[k].path@) != text::ascii_lowered(path)
        }),
    decreases videos.len() - from,
{
    if from < videos.len() {
        law_other_videos_at_a_path_are_found(videos, id, path, from + 1);
    }
}

/// Counts stop at the largest number instead of starting over.
pub proof fn law_counts_do_not_start_over(a: usize, b: usize)
    ensures
        index::capped_sum(a, b) >= a,
        index::capped_sum(a, b) >= b,
        a + b <= usize::MAX ==> index::capped_sum(a, b) - a == b,
{
}

proof fn lemma_one_piece(s: Seq<char>)
    requires
        !s.contains('\\'),
    ensures
        database::pieces(s) == seq![s],
    decreases s.len(),
{
    if s.len() > 0 {
        let head = s.drop_last();
        assert(s.contains(s.last())) by {
            assert(s[s.len() - 1] == s.last());
        }
        assert(!head.contains('\\')) by {
            if head.contains('\\') {
                let k = choose|k: int| 0 <= k < head.len() && head[k] == '\\';
                assert(s[k] == '\\');
            }
        }
        lemma_one_piece(head);
        assert(head.push(s.last()) =~= s);
        assert(database::pieces(s) =~= seq![s]);
    } else {
        assert(s =~= Seq::empty());
        assert(database::pieces(s) =~= seq![s]);
    }
}

proof fn lemma_next_piece(start: Seq<char>, name: Seq<char>)
    requires
        !name.contains('\\'),
    ensures
        database::pieces(start.push('\\') + name) == database::pieces(start).push(name),
    decreases name.len(),
{
    let s = start.push('\\') + name;
    if name.len() == 0 {
        assert(s =~= start.push('\\'));
        assert(s.drop_last() =~= start);
        assert(name =~= Seq::empty());
    } else {
        let head = name.drop_last();
        assert(name.contains(name.last())) by {
            assert(name[name.len() - 1] == name.last());
        }
        assert(!head.contains('\\')) by {
            if head.contains('\\') {
                let k = choose|k: int| 0 <= k < head.len() && head[k] == '\\';
                assert(name[k] == '\\');
            }
        }
        lemma_next_piece(start, head);
        assert(s.drop_last() =~= start.push('\\') + head);
        assert(s.last() == name.last());
        assert(head.push(name.last()) =~= name);
        assert(database::pieces(s) =~= database::pieces(start).push(name));
    }
}

/// A share is told by its server and its name, whatever follows them.
pub proof fn law_shares_are_told_by_server_and_name(
    server: Seq<char>,
    name: Seq<char>,
    rest: Seq<char>,
)
    requires
        server.len() > 0,
        name.len() > 0,
        !server.contains('\\'),
        !name.contains('\\'),
        !rest.contains('\\'),
    ensures
        database::share_of(server.push('\\') + name) == Some("\\\\"@ + server + "\\"@ + name),
        database::share_of((server.push('\\') + name).push('\\') + rest) == Some(
            "\\\\"@ + server + "\\"@ + name,
        ),
        database::share_of(server) is None,
{
    lemma_one_piece(server);
    lemma_next_piece(server, name);
    lemma_next_piece(server.push('\\') + name, rest);
    let full = |p: Seq<char>| p.len() > 0;
    let one = seq![server];
    let two = one.push(name);
    let three = two.push(rest);
    assert(one.drop_last() =~= Seq::empty());
    assert(two.drop_last() =~= one);
    assert(three.drop_last() =~= two);
    assert(rows::having(Seq::<Seq<char>>::empty(), full).len() == 0);
    assert(rows::having(one, full) =~= one);
    assert(rows::having(two, full) =~= two);
    assert(rows::having(three, full) == if rest.len() > 0 {
        two.push(rest)
    } else {
        two
    });
}

/// Kept frames are dropped exactly for the videos that were scanned well and whose frames the model
/// has looked at, as many as are expected.
pub proof fn law_frames_of_finished_videos_are_dropped(
    index: VideoIndex,
    model: Option<Seq<char>>,
    expected: Seq<usize>,
    n: int,
    i: int,
)
    requires
        0 <= i < index.videos@.len() <= usize::MAX,
        0 <= n <= index.videos@.len(),
        expected.len() == index.videos@.len(),
    ensures
        operations::completed(index, model, expected, n).contains(i as usize) <==> {
            &&& i < n
            &&& model is Some
            &&& index.videos@[i].scan_status@ == "ok"@
            &&& index.videos@[i].id is Some
            &&& findings::frame_count(
                index.frame_embeddings@,
                index.videos@[i].id->0,
                model->0,
                index.frame_embeddings@.len() as int,
            ) >= expected[i]
        },
    decreases n,
{
    if n > 0 {
        law_frames_of_finished_videos_are_dropped(index, model, expected, n - 1, i);
        let rest = operations::completed(index, model, expected, n - 1);
        let all = operations::completed(index, model, expected, n);
        let own = i as usize;
        if rest.contains(own) {
            let at = choose|at: int| 0 <= at < rest.len() && rest[at] == own;
            assert(all[at] == own);
        }
        if i == n - 1 && all.len() > rest.len() {
            assert(all[rest.len() as int] == own);
        }
        if all.contains(own) && !rest.contains(own) {
            let at = choose|at: int| 0 <= at < all.len() && all[at] == own;
            if at < rest.len() {
                assert(rest[at] == own);
            }
        }
    }
}

/// A video is only pruned where its file is missing, and, where scans are chosen, one of them saw it.
pub proof fn law_pruned_videos_are_missing(
    index: VideoIndex,
    states: Seq<FileState>,
    session_ids: Option<Seq<i64>>,
    id: i64,
)
    ensures
        operations::is_to_prune(index, states, session_ids, id) ==> exists|k: int|
            0 <= k < index.videos@.len() && (#[trigger] index.videos@[k]).id == Some(id)
                && index.videos@[k].scan_status@ == "ok"@ && states[k] is Missing,
        operations::is_to_prune(index, states, session_ids, id) && session_ids is Some
            ==> scans::seen_by(index, session_ids->0, id),
        operations::is_to_prune(index, states, session_ids, id) ==> operations::is_to_prune(
            index,
            states,
            None,
            id,
        ),
{
    if operations::is_to_prune(index, states, session_ids, id) {
        let i = choose|i: int|
            0 <= i < index.videos@.len() && (#[trigger] index.videos@[i]).id == Some(id)
                && operations::is_gone(index.videos@[i], states[i]) && (session_ids matches Some(
                ids,
            ) ==> scans::seen_by(index, ids, id));
        assert(index.videos@[i].id == Some(id));
    }
}

} // verus!
