//! Scans in the index: starting and finishing one, and removing those of a source.
use crate::database;
use crate::index;
use crate::index::{SessionLink, VideoIndex};
use crate::models;
use crate::models::{
    DeleteIndexProgress, DeleteIndexSummary, IndexRefreshSummary, ScanSession,
};
use crate::rows;
use crate::rows::{has_id, keep_marked};
use crate::text;
use crate::text::same_text;
use vstd::prelude::*;
use vstd::string::*;

verus! {

/// Whether a scan is of a source, up to the case of ASCII letters.
pub open spec fn is_of(session: ScanSession, source: Seq<char>) -> bool {
    database::same_folded(session.source@, source)
}

/// Whether a scan is none of those with the given ids.
pub open spec fn session_spared(ids: Seq<i64>) -> spec_fn(ScanSession) -> bool {
    |s: ScanSession| !ids.contains(s.id)
}

/// Whether a link is from none of the given scans.
pub open spec fn from_spared(ids: Seq<i64>) -> spec_fn(SessionLink) -> bool {
    |l: SessionLink| !ids.contains(l.session_id)
}

/// Whether two indexes hold the same videos.
pub open spec fn same_videos(before: VideoIndex, after: VideoIndex) -> bool {
    after.videos@ == before.videos@ && after.next_video_id == before.next_video_id
}

/// Whether `after` is `before` without the given scans and their links.
pub open spec fn sessions_dropped(before: VideoIndex, after: VideoIndex, ids: Seq<i64>) -> bool {
    &&& after.sessions@ == rows::having(before.sessions@, session_spared(ids))
    &&& after.links@ == rows::having(before.links@, from_spared(ids))
    &&& after.next_session_id == before.next_session_id
    &&& same_videos(before, after)
    &&& index::same_models(before, after)
    &&& index::same_ai_rows(before, after)
}

proof fn lemma_session_stays(sessions: Seq<ScanSession>, ids: Seq<i64>, id: i64)
    requires
        index::has_session_id(sessions, id),
        !ids.contains(id),
    ensures
        index::has_session_id(rows::having(sessions, session_spared(ids)), id),
{
    let i = choose|i: int| 0 <= i < sessions.len() && (#[trigger] sessions[i]).id == id;
    let after = rows::having(sessions, session_spared(ids));
    rows::lemma_having(sessions, session_spared(ids));
    assert(sessions.contains(sessions[i]));
    let j = choose|j: int| 0 <= j < after.len() && after[j] == sessions[i];
    assert(after[j].id == id);
}

proof fn lemma_sessions_dropped_wf(before: VideoIndex, after: VideoIndex, ids: Seq<i64>)
    requires
        before.wf(),
        sessions_dropped(before, after, ids),
    ensures
        after.wf(),
{
    let s = rows::lemma_having_places(before.sessions@, session_spared(ids));
    assert forall|i: int| 0 <= i < after.sessions@.len() implies (#[trigger] after.sessions@[i]).id
        < after.next_session_id by {
        assert(before.sessions@[s[i]] == after.sessions@[i]);
    }
    assert forall|i: int, j: int|
        #![trigger after.sessions@[i], after.sessions@[j]]
        0 <= i < j < after.sessions@.len() implies after.sessions@[i].id
        != after.sessions@[j].id by {
        assert(s[i] < s[j]);
        assert(before.sessions@[s[i]] == after.sessions@[i]);
        assert(before.sessions@[s[j]] == after.sessions@[j]);
    }
    let l = rows::lemma_having_places(before.links@, from_spared(ids));
    rows::lemma_having(before.links@, from_spared(ids));
    assert forall|i: int, j: int| 0 <= i < j < after.links@.len() implies after.links@[i]
        != after.links@[j] by {
        assert(l[i] < l[j]);
        assert(before.links@[l[i]] == after.links@[i] && before.links@[l[j]] == after.links@[j]);
    }
    assert forall|k: int| 0 <= k < after.links@.len() implies index::has_session_id(
        after.sessions@,
        (#[trigger] after.links@[k]).session_id,
    ) && index::has_video_id(after.videos@, after.links@[k].video_id) by {
        assert(before.links@[l[k]] == after.links@[k]);
        lemma_session_stays(before.sessions@, ids, after.links@[k].session_id);
    }
}

/// Whether a row is that of a scan that just started.
pub open spec fn just_started(
    session: ScanSession,
    id: i64,
    source: Seq<char>,
    started_unix_ms: i64,
) -> bool {
    &&& session.id == id
    &&& session.source@ == source
    &&& session.started_unix_ms == started_unix_ms
    &&& session.completed_unix_ms is None
    &&& session.total_files == 0
    &&& session.scanned == 0
    &&& session.failed == 0
}

/// Whether a source was scanned before.
pub open spec fn was_scanned(sessions: Seq<ScanSession>, source: Seq<char>) -> bool {
    exists|i: int| 0 <= i < sessions.len() && is_of(#[trigger] sessions[i], source)
}

/// Whether `after` is `before` with a scan of a source started under `id`: the oldest scan of the
/// source starts anew, without links, and its other scans are gone; a source that was not scanned
/// before gets a new scan.
pub open spec fn session_started(
    before: VideoIndex,
    after: VideoIndex,
    source: Seq<char>,
    started_unix_ms: i64,
    id: i64,
) -> bool {
    &&& same_videos(before, after)
    &&& index::same_models(before, after)
    &&& index::same_ai_rows(before, after)
    &&& if was_scanned(before.sessions@, source) {
        let kept = rows::having(
            before.sessions@,
            |s: ScanSession| !is_of(s, source) || s.id == id,
        );
        &&& exists|i: int|
            0 <= i < before.sessions@.len() && is_of(#[trigger] before.sessions@[i], source)
                && before.sessions@[i].id == id
        &&& forall|i: int|
            #![trigger before.sessions@[i]]
            0 <= i < before.sessions@.len() && is_of(before.sessions@[i], source) ==> id
                <= before.sessions@[i].id
        &&& after.next_session_id == before.next_session_id
        &&& after.sessions@.len() == kept.len()
        &&& forall|k: int|
            #![trigger after.sessions@[k]]
            0 <= k < kept.len() ==> if kept[k].id == id {
                just_started(after.sessions@[k], id, source, started_unix_ms)
            } else {
                after.sessions@[k] == kept[k]
            }
        &&& after.links@ == rows::having(
            before.links@,
            |l: SessionLink| !links_source(before.sessions@, source, l),
        )
    } else {
        &&& id == before.next_session_id
        &&& after.next_session_id == before.next_session_id + 1
        &&& after.sessions@.len() == before.sessions@.len() + 1
        &&& after.sessions@.drop_last() == before.sessions@
        &&& just_started(after.sessions@.last(), id, source, started_unix_ms)
        &&& after.links@ == before.links@
    }
}

/// Whether a link is from a scan of a source.
pub open spec fn links_source(
    sessions: Seq<ScanSession>,
    source: Seq<char>,
    link: SessionLink,
) -> bool {
    exists|i: int|
        0 <= i < sessions.len() && is_of(#[trigger] sessions[i], source) && sessions[i].id
            == link.session_id
}

/// Whether a requested scan has the source of a given scan.
pub open spec fn is_doomed(sessions: Seq<ScanSession>, requested: Seq<i64>, session: ScanSession) -> bool {
    exists|i: int|
        0 <= i < sessions.len() && requested.contains((#[trigger] sessions[i]).id) && is_of(
            session,
            sessions[i].source@,
        )
}

/// The ids of the first `n` scans that have the source of a requested one.
pub open spec fn doomed_ids(sessions: Seq<ScanSession>, requested: Seq<i64>, n: int) -> Seq<i64>
    decreases n,
{
    if n <= 0 {
        Seq::empty()
    } else {
        let rest = doomed_ids(sessions, requested, n - 1);
        if is_doomed(sessions, requested, sessions[n - 1]) {
            rest.push(sessions[n - 1].id)
        } else {
            rest
        }
    }
}

/// The videos that the first `n` links tie to the given scans, each once.
pub open spec fn linked_videos(links: Seq<SessionLink>, ids: Seq<i64>, n: int) -> Seq<i64>
    decreases n,
{
    if n <= 0 {
        Seq::empty()
    } else {
        let rest = linked_videos(links, ids, n - 1);
        let link = links[n - 1];
        if ids.contains(link.session_id) && !rest.contains(link.video_id) {
            rest.push(link.video_id)
        } else {
            rest
        }
    }
}

/// What the removal of scans takes out of an index.
pub struct Removal {
    pub sessions: Seq<i64>,
    pub affected: Seq<i64>,
    pub orphans: Seq<i64>,
}

/// What the removal of requested scans takes out of an index: all scans of their sources, and the
/// videos that no other scan saw.
pub open spec fn removal(before: VideoIndex, requested: Seq<i64>) -> Removal {
    let sessions = doomed_ids(before.sessions@, requested, before.sessions@.len() as int);
    let affected = linked_videos(before.links@, sessions, before.links@.len() as int);
    let left = rows::having(before.links@, from_spared(sessions));
    Removal {
        sessions,
        affected,
        orphans: rows::having(affected, |v: i64| !database::is_linked(left, v)),
    }
}

/// Whether `after` is `before` without the scans of the sources of the requested ones, and
/// without the videos that no other scan saw.
pub open spec fn sessions_removed(before: VideoIndex, after: VideoIndex, requested: Seq<i64>) -> bool {
    exists|mid: VideoIndex| #[trigger]
        sessions_dropped(before, mid, removal(before, requested).sessions)
            && index::videos_dropped(mid, after, removal(before, requested).orphans)
}

/// Whether a progress report says so much.
pub open spec fn reports(
    progress: DeleteIndexProgress,
    phase: Seq<char>,
    processed: int,
    requested: int,
    sessions: int,
    affected: int,
    videos: int,
) -> bool {
    &&& progress.phase@ == phase
    &&& progress.phase_processed == processed
    &&& progress.phase_total == 8
    &&& progress.requested_sessions == requested
    &&& progress.deleted_sessions == sessions
    &&& progress.affected_videos == affected
    &&& progress.deleted_videos == videos
}

/// Whether a row of progress reports tells of a removal, step by step.
pub open spec fn tells_removal(list: Seq<DeleteIndexProgress>, what: Removal) -> bool {
    let s = what.sessions.len() as int;
    let a = what.affected.len() as int;
    let v = what.orphans.len() as int;
    if s == 0 {
        list.len() == 0
    } else {
        let last = if v > 0 {
            8int
        } else {
            4
        };
        &&& list.len() == last + 1
        &&& reports(list[0], "preparing"@, 0, s, 0, 0, 0)
        &&& reports(list[1], "collecting-sessions"@, 1, s, 0, 0, 0)
        &&& reports(list[2], "unlinking-sessions"@, 2, s, 0, a, 0)
        &&& reports(list[3], "collecting-orphan-videos"@, 3, s, s, a, 0)
        &&& v > 0 ==> {
            &&& reports(list[4], "deleting-pair-scores-left"@, 4, s, s, a, v)
            &&& reports(list[5], "deleting-pair-scores-right"@, 5, s, s, a, v)
            &&& reports(list[6], "deleting-ai-metadata"@, 6, s, s, a, v)
            &&& reports(list[7], "deleting-videos"@, 7, s, s, a, v)
        }
        &&& reports(list[last], "completed"@, 8, s, s, a, v)
    }
}

fn report(
    phase: &str,
    processed: usize,
    requested: usize,
    sessions: usize,
    affected: usize,
    videos: usize,
) -> (r: DeleteIndexProgress)
    ensures
        reports(
            r,
            phase@,
            processed as int,
            requested as int,
            sessions as int,
            affected as int,
            videos as int,
        ),
{
    DeleteIndexProgress {
        phase: phase.to_owned(),
        phase_processed: processed,
        phase_total: 8,
        requested_sessions: requested,
        deleted_sessions: sessions,
        affected_videos: affected,
        deleted_videos: videos,
    }
}

impl VideoIndex {
    /// Removes scans and their links.
    fn drop_sessions(&mut self, ids: &Vec<i64>)
        requires
            old(self).wf(),
        ensures
            final(self).wf(),
            sessions_dropped(*old(self), *final(self), ids@),
    {
        let ghost before = *self;
        let mut session_marks: Vec<bool> = Vec::new();
        let mut i: usize = 0;
        while i < self.sessions.len()
            invariant
                i <= self.sessions@.len(),
                session_marks@.len() == i,
                forall|k: int|
                    0 <= k < i ==> #[trigger] session_marks@[k] == session_spared(ids@)(
                        self.sessions@[k],
                    ),
            decreases self.sessions@.len() - i,
        {
            session_marks.push(!has_id(ids, self.sessions[i].id));
            i += 1;
        }
        let mut link_marks: Vec<bool> = Vec::new();
        let mut j: usize = 0;
        while j < self.links.len()
            invariant
                j <= self.links@.len(),
                link_marks@.len() == j,
                forall|k: int|
                    0 <= k < j ==> #[trigger] link_marks@[k] == from_spared(ids@)(self.links@[k]),
            decreases self.links@.len() - j,
        {
            link_marks.push(!has_id(ids, self.links[j].session_id));
            j += 1;
        }
        proof {
            rows::lemma_marked_having(before.sessions@, session_marks@, session_spared(ids@));
            rows::lemma_marked_having(before.links@, link_marks@, from_spared(ids@));
        }
        let mut sessions: Vec<ScanSession> = Vec::new();
        std::mem::swap(&mut sessions, &mut self.sessions);
        self.sessions = keep_marked(sessions, &session_marks);
        let mut links: Vec<SessionLink> = Vec::new();
        std::mem::swap(&mut links, &mut self.links);
        self.links = keep_marked(links, &link_marks);
        proof {
            lemma_sessions_dropped_wf(before, *self, ids@);
        }
    }

    /// The ids of all scans that have the source of a requested one.
    pub fn expand_session_ids_by_source(&self, requested: &Vec<i64>) -> (r: Vec<i64>)
        ensures
            r@ == doomed_ids(self.sessions@, requested@, self.sessions@.len() as int),
    {
        let mut out: Vec<i64> = Vec::new();
        let mut i: usize = 0;
        while i < self.sessions.len()
            invariant
                i <= self.sessions@.len(),
                out@ == doomed_ids(self.sessions@, requested@, i as int),
            decreases self.sessions@.len() - i,
        {
            let mut doomed = false;
            let mut j: usize = 0;
            while j < self.sessions.len()
                invariant
                    i < self.sessions@.len(),
                    j <= self.sessions@.len(),
                    doomed == exists|k: int|
                        0 <= k < j && requested@.contains((#[trigger] self.sessions@[k]).id)
                            && is_of(self.sessions@[i as int], self.sessions@[k].source@),
                decreases self.sessions@.len() - j,
            {
                if has_id(requested, self.sessions[j].id) && text::eq_ignore_ascii_case(
                    self.sessions[i].source.as_str(),
                    self.sessions[j].source.as_str(),
                ) {
                    doomed = true;
                }
                j += 1;
            }
            if doomed {
                out.push(self.sessions[i].id);
            }
            i += 1;
        }
        out
    }

    /// Removes the scans of the sources of the requested scans, and the videos that no other scan
    /// saw. Gives the counts, and the reports of the steps in order.
    pub fn delete_scan_sessions_with_progress(&mut self, requested: &Vec<i64>) -> (r: (
        DeleteIndexSummary,
        Vec<DeleteIndexProgress>,
    ))
        requires
            old(self).wf(),
        ensures
            final(self).wf(),
            sessions_removed(*old(self), *final(self), requested@),
            tells_removal(r.1@, removal(*old(self), requested@)),
            r.0.requested_sessions == requested@.len(),
            r.0.deleted_sessions == removal(*old(self), requested@).sessions.len(),
            r.0.affected_videos == removal(*old(self), requested@).affected.len(),
            r.0.deleted_videos == removal(*old(self), requested@).orphans.len(),
            r.0.deleted_pair_scores == old(self).pair_scores@.len() - final(self).pair_scores@.len(),
            r.0.deleted_match_edges == old(self).match_edges@.len() - final(self).match_edges@.len(),
            r.0.deleted_frame_embeddings == old(self).frame_embeddings@.len() - final(self).frame_embeddings@.len(),
    {
        let ghost before = *self;
        let ghost what = removal(before, requested@);
        let doomed = self.expand_session_ids_by_source(requested);
        let mut affected: Vec<i64> = Vec::new();
        let mut i: usize = 0;
        while i < self.links.len()
            invariant
                i <= self.links@.len(),
                affected@ == linked_videos(self.links@, doomed@, i as int),
            decreases self.links@.len() - i,
        {
            if has_id(&doomed, self.links[i].session_id) && !has_id(
                &affected,
                self.links[i].video_id,
            ) {
                affected.push(self.links[i].video_id);
            }
            i += 1;
        }
        self.drop_sessions(&doomed);
        let ghost mid = *self;
        let ghost alone = |v: i64| !database::is_linked(mid.links@, v);
        let mut orphans: Vec<i64> = Vec::new();
        let mut j: usize = 0;
        while j < affected.len()
            invariant
                j <= affected@.len(),
                alone == (|v: i64| !database::is_linked(mid.links@, v)),
                self.links@ == mid.links@,
                orphans@ == rows::having(affected@.take(j as int), alone),
            decreases affected@.len() - j,
        {
            assert(affected@.take(j + 1).drop_last() =~= affected@.take(j as int));
            if !self.is_linked(affected[j]) {
                orphans.push(affected[j]);
            }
            j += 1;
        }
        assert(affected@.take(j as int) =~= affected@);
        assert(orphans@ == what.orphans);
        let s: usize = doomed.len();
        let a: usize = affected.len();
        let v: usize = orphans.len();
        let lost = self.drop_videos(&orphans);
        assert(sessions_dropped(before, mid, what.sessions) && index::videos_dropped(
            mid,
            *self,
            what.orphans,
        ));
        let mut steps: Vec<DeleteIndexProgress> = Vec::new();
        if s > 0 {
            steps.push(report("preparing", 0, s, 0, 0, 0));
            steps.push(report("collecting-sessions", 1, s, 0, 0, 0));
            steps.push(report("unlinking-sessions", 2, s, 0, a, 0));
            steps.push(report("collecting-orphan-videos", 3, s, s, a, 0));
            if v > 0 {
                steps.push(report("deleting-pair-scores-left", 4, s, s, a, v));
                steps.push(report("deleting-pair-scores-right", 5, s, s, a, v));
                steps.push(report("deleting-ai-metadata", 6, s, s, a, v));
                steps.push(report("deleting-videos", 7, s, s, a, v));
            }
            steps.push(report("completed", 8, s, s, a, v));
        }
        (
            DeleteIndexSummary {
                requested_sessions: requested.len(),
                deleted_sessions: s,
                affected_videos: a,
                deleted_videos: v,
                deleted_pair_scores: lost.pair_scores,
                deleted_match_edges: lost.match_edges,
                deleted_frame_embeddings: lost.frame_embeddings,
            },
            steps,
        )
    }

    /// Removes the scans of the sources of the requested scans, and the videos that no other scan
    /// saw.
    pub fn delete_scan_sessions(&mut self, requested: &Vec<i64>) -> (r: DeleteIndexSummary)
        requires
            old(self).wf(),
        ensures
            final(self).wf(),
            sessions_removed(*old(self), *final(self), requested@),
            r.requested_sessions == requested@.len(),
            r.deleted_sessions == removal(*old(self), requested@).sessions.len(),
            r.affected_videos == removal(*old(self), requested@).affected.len(),
            r.deleted_videos == removal(*old(self), requested@).orphans.len(),
            r.deleted_pair_scores == old(self).pair_scores@.len() - final(self).pair_scores@.len(),
            r.deleted_match_edges == old(self).match_edges@.len() - final(self).match_edges@.len(),
            r.deleted_frame_embeddings == old(self).frame_embeddings@.len() - final(self).frame_embeddings@.len(),
    {
        let (summary, _steps) = self.delete_scan_sessions_with_progress(requested);
        summary
    }

    /// Removes the scans of the source of one scan; fails where there is no such scan.
    pub fn delete_scan_session(&mut self, session_id: i64) -> (r: Result<(), String>)
        requires
            old(self).wf(),
        ensures
            final(self).wf(),
            sessions_removed(*old(self), *final(self), seq![session_id]),
            r is Ok == index::has_session_id(old(self).sessions@, session_id),
            r matches Err(message) ==> message@ == "scan session not found: "@
                + text::signed_decimal(session_id as int),
    {
        let ghost before = *self;
        let mut requested: Vec<i64> = Vec::new();
        requested.push(session_id);
        assert(requested@ =~= seq![session_id]);
        let summary = self.delete_scan_sessions(&requested);
        proof {
            lemma_doomed_exists(before.sessions@, requested@, before.sessions@.len() as int);
            assert(requested@[0] == session_id);
            if index::has_session_id(before.sessions@, session_id) {
                let i = choose|i: int|
                    0 <= i < before.sessions@.len() && (#[trigger] before.sessions@[i]).id
                        == session_id;
                assert(requested@.contains(before.sessions@[i].id));
            }
        }
        if summary.deleted_sessions == 0 {
            let mut message = "scan session not found: ".to_owned();
            message.append(text::signed_decimal_text(session_id).as_str());
            Err(message)
        } else {
            Ok(())
        }
    }
}

proof fn lemma_doomed_exists(sessions: Seq<ScanSession>, requested: Seq<i64>, n: int)
    requires
        0 <= n <= sessions.len(),
    ensures
        doomed_ids(sessions, requested, n).len() > 0 ==> exists|i: int|
            0 <= i < sessions.len() && requested.contains((#[trigger] sessions[i]).id),
        forall|i: int|
            0 <= i < n && requested.contains((#[trigger] sessions[i]).id) ==> doomed_ids(
                sessions,
                requested,
                n,
            ).len() > 0,
    decreases n,
{
    if n > 0 {
        lemma_doomed_exists(sessions, requested, n - 1);
        if requested.contains(sessions[n - 1].id) {
            assert(is_of(sessions[n - 1], sessions[n - 1].source@));
            assert(is_doomed(sessions, requested, sessions[n - 1]));
        }
    }
}

/// The removal of scans leaves every video that another scan saw, with what the model found of
/// it and of any two such videos.
pub proof fn law_removal_spares_what_other_scans_saw(
    before: VideoIndex,
    after: VideoIndex,
    requested: Seq<i64>,
    link: SessionLink,
)
    requires
        before.wf(),
        sessions_removed(before, after, requested),
        before.links@.contains(link),
        !removal(before, requested).sessions.contains(link.session_id),
    ensures
        index::has_video_id(after.videos@, link.video_id),
        after.links@.contains(link),
        forall|f: models::FrameEmbeddingRecord|
            before.frame_embeddings@.contains(f) && f.video_id == link.video_id
                ==> #[trigger] after.frame_embeddings@.contains(f),
        forall|s: models::AiPairScoreRecord, other: SessionLink|
            #![trigger after.pair_scores@.contains(s), before.links@.contains(other)]
            before.pair_scores@.contains(s) && before.links@.contains(other) && !removal(
                before,
                requested,
            ).sessions.contains(other.session_id) && (s.video_a_id == link.video_id && s.video_b_id
                == other.video_id || s.video_b_id == link.video_id && s.video_a_id
                == other.video_id) ==> after.pair_scores@.contains(s),
{
    let what = removal(before, requested);
    let mid = choose|mid: VideoIndex| #[trigger]
        sessions_dropped(before, mid, what.sessions) && index::videos_dropped(
            mid,
            after,
            what.orphans,
        );
    lemma_seen_is_no_orphan(before, mid, requested, link);
    rows::lemma_having(mid.links@, index::link_spared(what.orphans));
    let k = choose|k: int| 0 <= k < before.links@.len() && before.links@[k] == link;
    assert(index::has_video_id(before.videos@, before.links@[k].video_id));
    index::lemma_video_stays(mid.videos@, what.orphans, link.video_id);
    rows::lemma_having(mid.frame_embeddings@, index::frame_spared(what.orphans));
    rows::lemma_having(mid.pair_scores@, index::score_spared(what.orphans));
    assert forall|s: models::AiPairScoreRecord, other: SessionLink|
        #![trigger after.pair_scores@.contains(s), before.links@.contains(other)]
        before.pair_scores@.contains(s) && before.links@.contains(other) && !what.sessions.contains(
            other.session_id,
        ) && (s.video_a_id == link.video_id && s.video_b_id == other.video_id || s.video_b_id
            == link.video_id && s.video_a_id == other.video_id) implies after.pair_scores@.contains(
        s,
    ) by {
        lemma_seen_is_no_orphan(before, mid, requested, other);
    }
}

proof fn lemma_seen_is_no_orphan(
    before: VideoIndex,
    mid: VideoIndex,
    requested: Seq<i64>,
    link: SessionLink,
)
    requires
        sessions_dropped(before, mid, removal(before, requested).sessions),
        before.links@.contains(link),
        !removal(before, requested).sessions.contains(link.session_id),
    ensures
        mid.links@.contains(link),
        !removal(before, requested).orphans.contains(link.video_id),
{
    let what = removal(before, requested);
    rows::lemma_having(before.links@, from_spared(what.sessions));
    assert(mid.links@.contains(link));
    let k = choose|k: int| 0 <= k < mid.links@.len() && mid.links@[k] == link;
    assert(mid.links@[k].video_id == link.video_id);
    assert(database::is_linked(mid.links@, link.video_id));
    let alone = |v: i64| !database::is_linked(mid.links@, v);
    rows::lemma_having(what.affected, alone);
    if what.orphans.contains(link.video_id) {
        let j = choose|j: int| 0 <= j < what.orphans.len() && what.orphans[j] == link.video_id;
        assert(alone(what.orphans[j]));
    }
}

/// Whether one scan started after another one; of two that started together, the later id did.
pub open spec fn started_after(a: ScanSession, b: ScanSession) -> bool {
    a.started_unix_ms > b.started_unix_ms || (a.started_unix_ms == b.started_unix_ms && a.id
        > b.id)
}

/// The form by which sources are told apart when scans are listed.
pub open spec fn source_key(session: ScanSession) -> Seq<char> {
    text::lowercase(text::replaced(session.source@, '/', '\\'))
}

/// Whether the scan at `i` is the last one of its source.
pub open spec fn is_last_scan(sessions: Seq<ScanSession>, i: int) -> bool {
    &&& 0 <= i < sessions.len()
    &&& forall|k: int|
        #![trigger sessions[k]]
        0 <= k < sessions.len() && source_key(sessions[k]) == source_key(sessions[i])
            ==> !started_after(sessions[k], sessions[i])
}

/// What is known of the folder of a listed scan: whether it is there, and else whether the disk
/// or share that held it can be reached.
#[derive(Debug, Clone, Copy, PartialEq, Eq, Structural)]
pub struct SourceProbe {
    pub exists: bool,
    pub root_available: bool,
}

/// The ids of the first `n` listed scans whose folder is gone from a disk that can be reached.
pub open spec fn vanished(
    sessions: Seq<ScanSession>,
    listed: Seq<usize>,
    probes: Seq<SourceProbe>,
    n: int,
) -> Seq<i64>
    decreases n,
{
    if n <= 0 {
        Seq::empty()
    } else {
        let rest = vanished(sessions, listed, probes, n - 1);
        if !probes[n - 1].exists && probes[n - 1].root_available {
            rest.push(sessions[listed[n - 1] as int].id)
        } else {
            rest
        }
    }
}

/// How many of the first `n` listed scans have a folder that cannot be looked for.
pub open spec fn out_of_reach(probes: Seq<SourceProbe>, n: int) -> nat
    decreases n,
{
    if n <= 0 {
        0
    } else {
        out_of_reach(probes, n - 1) + (if !probes[n - 1].exists && !probes[n - 1].root_available {
            1nat
        } else {
            0
        })
    }
}

/// Whether a row lists the last scan of each source, the latest first.
pub open spec fn lists_scans(sessions: Seq<ScanSession>, listed: Seq<usize>) -> bool {
    &&& forall|k: int| 0 <= k < listed.len() ==> is_last_scan(sessions, #[trigger] listed[k] as int)
    &&& forall|i: int|
        is_last_scan(sessions, i) ==> #[trigger] listed.contains(i as usize)
    &&& forall|j: int, k: int|
        #![trigger listed[j], listed[k]]
        0 <= j < k < listed.len() ==> started_after(
            sessions[listed[j] as int],
            sessions[listed[k] as int],
        )
}

impl VideoIndex {
    /// The position of the scan with an id.
    fn session_position(&self, id: i64) -> (r: Option<usize>)
        ensures
            r is Some == index::has_session_id(self.sessions@, id),
            r matches Some(i) ==> i < self.sessions@.len() && self.sessions@[i as int].id == id,
    {
        let mut i: usize = 0;
        while i < self.sessions.len()
            invariant
                i <= self.sessions@.len(),
                forall|k: int| 0 <= k < i ==> (#[trigger] self.sessions@[k]).id != id,
            decreases self.sessions@.len() - i,
        {
            if self.sessions[i].id == id {
                assert(self.sessions@[i as int].id == id);
                return Some(i);
            }
            i += 1;
        }
        None
    }

    /// Whether there is a scan with an id.
    pub fn session_exists(&self, session_id: i64) -> (r: bool)
        ensures
            r == index::has_session_id(self.sessions@, session_id),
    {
        self.session_position(session_id).is_some()
    }

    /// Starts a scan of a source, and gives its id.
    pub fn create_or_reset_scan_session(&mut self, source: &str, started_unix_ms: i64) -> (r: i64)
        requires
            old(self).wf(),
            old(self).next_session_id < i64::MAX,
        ensures
            final(self).wf(),
            session_started(*old(self), *final(self), source@, started_unix_ms, r),
            index::has_session_id(final(self).sessions@, r),
    {
        let ghost before = *self;
        let mut oldest: Option<i64> = None;
        let mut i: usize = 0;
        while i < self.sessions.len()
            invariant
                i <= self.sessions@.len(),
                *self == before,
                oldest is Some == exists|k: int|
                    0 <= k < i && is_of(#[trigger] self.sessions@[k], source@),
                oldest matches Some(id) ==> {
                    &&& exists|k: int|
                        0 <= k < i && is_of(#[trigger] self.sessions@[k], source@)
                            && self.sessions@[k].id == id
                    &&& forall|k: int|
                        #![trigger self.sessions@[k]]
                        0 <= k < i && is_of(self.sessions@[k], source@) ==> id
                            <= self.sessions@[k].id
                },
            decreases self.sessions@.len() - i,
        {
            if text::eq_ignore_ascii_case(self.sessions[i].source.as_str(), source) {
                let own: i64 = self.sessions[i].id;
                assert(is_of(self.sessions@[i as int], source@));
                oldest = match oldest {
                    None => Some(own),
                    Some(id) => Some(
                        if own < id {
                            own
                        } else {
                            id
                        },
                    ),
                };
            }
            i += 1;
        }
        match oldest {
            None => {
                let id: i64 = self.next_session_id;
                self.sessions.push(
                    ScanSession {
                        id,
                        source: source.to_owned(),
                        started_unix_ms,
                        completed_unix_ms: None,
                        total_files: 0,
                        scanned: 0,
                        failed: 0,
                    },
                );
                self.next_session_id = id + 1;
                proof {
                    assert(self.sessions@.drop_last() =~= before.sessions@);
                    assert(self.sessions@[before.sessions@.len() as int].id == id);
                    assert forall|k: int| 0 <= k < self.links@.len() implies index::has_session_id(
                        self.sessions@,
                        (#[trigger] self.links@[k]).session_id,
                    ) && index::has_video_id(self.videos@, self.links@[k].video_id) by {
                        let x = before.links@[k];
                        let j = choose|j: int|
                            0 <= j < before.sessions@.len() && (#[trigger] before.sessions@[j]).id
                                == x.session_id;
                        assert(self.sessions@[j].id == x.session_id);
                    }
                    assert forall|a: int, b: int|
                        #![trigger self.sessions@[a], self.sessions@[b]]
                        0 <= a < b < self.sessions@.len() implies self.sessions@[a].id
                        != self.sessions@[b].id by {
                        assert(before.sessions@[a].id < before.next_session_id);
                        if b < before.sessions@.len() {
                            assert(before.sessions@[a].id != before.sessions@[b].id);
                        }
                    }
                    assert forall|a: int| 0 <= a < self.sessions@.len() implies (
                    #[trigger] self.sessions@[a]).id < self.next_session_id by {
                        if a < before.sessions@.len() {
                            assert(before.sessions@[a].id < before.next_session_id);
                        }
                    }
                }
                id
            },
            Some(id) => {
                let ghost keep = |s: ScanSession| !is_of(s, source@) || s.id == id;
                let ghost spare = |l: SessionLink| !links_source(before.sessions@, source@, l);
                let mut session_marks: Vec<bool> = Vec::new();
                let mut of_source: Vec<i64> = Vec::new();
                let mut j: usize = 0;
                while j < self.sessions.len()
                    invariant
                        j <= self.sessions@.len(),
                        *self == before,
                        keep == (|s: ScanSession| !is_of(s, source@) || s.id == id),
                        session_marks@.len() == j,
                        forall|k: int|
                            0 <= k < j ==> #[trigger] session_marks@[k] == keep(self.sessions@[k]),
                        forall|x: i64|
                            of_source@.contains(x) <==> exists|k: int|
                                0 <= k < j && is_of(#[trigger] self.sessions@[k], source@)
                                    && self.sessions@[k].id == x,
                    decreases self.sessions@.len() - j,
                {
                    let ghost listed = of_source@;
                    let own: i64 = self.sessions[j].id;
                    if text::eq_ignore_ascii_case(self.sessions[j].source.as_str(), source) {
                        assert(is_of(self.sessions@[j as int], source@));
                        of_source.push(own);
                        proof {
                            assert(of_source@[listed.len() as int] == own);
                            assert forall|x: i64|
                                of_source@.contains(x) <==> exists|k: int|
                                    0 <= k < j + 1 && is_of(#[trigger] self.sessions@[k], source@)
                                        && self.sessions@[k].id == x by {
                                if of_source@.contains(x) {
                                    let q = choose|q: int|
                                        0 <= q < of_source@.len() && of_source@[q] == x;
                                    if q < listed.len() {
                                        assert(listed[q] == x);
                                        assert(listed.contains(x));
                                    }
                                }
                                if listed.contains(x) {
                                    let q = choose|q: int| 0 <= q < listed.len() && listed[q] == x;
                                    assert(of_source@[q] == x);
                                }
                            }
                        }
                        session_marks.push(own == id);
                    } else {
                        session_marks.push(true);
                    }
                    j += 1;
                }
                let mut link_marks: Vec<bool> = Vec::new();
                let mut m: usize = 0;
                while m < self.links.len()
                    invariant
                        m <= self.links@.len(),
                        *self == before,
                        spare == (|l: SessionLink| !links_source(before.sessions@, source@, l)),
                        link_marks@.len() == m,
                        forall|x: i64|
                            of_source@.contains(x) <==> exists|k: int|
                                0 <= k < self.sessions@.len() && is_of(
                                    #[trigger] self.sessions@[k],
                                    source@,
                                ) && self.sessions@[k].id == x,
                        forall|k: int|
                            0 <= k < m ==> #[trigger] link_marks@[k] == spare(self.links@[k]),
                    decreases self.links@.len() - m,
                {
                    link_marks.push(!has_id(&of_source, self.links[m].session_id));
                    m += 1;
                }
                proof {
                    rows::lemma_marked_having(before.sessions@, session_marks@, keep);
                    rows::lemma_marked_having(before.links@, link_marks@, spare);
                }
                let ghost kept = rows::having(before.sessions@, keep);
                let mut sessions: Vec<ScanSession> = Vec::new();
                std::mem::swap(&mut sessions, &mut self.sessions);
                self.sessions = keep_marked(sessions, &session_marks);
                let mut links: Vec<SessionLink> = Vec::new();
                std::mem::swap(&mut links, &mut self.links);
                self.links = keep_marked(links, &link_marks);
                let ghost places = rows::lemma_having_places(before.sessions@, keep);
                proof {
                    rows::lemma_having(before.sessions@, keep);
                    let k = choose|k: int|
                        0 <= k < before.sessions@.len() && is_of(
                            #[trigger] before.sessions@[k],
                            source@,
                        ) && before.sessions@[k].id == id;
                    assert(keep(before.sessions@[k]));
                    assert(before.sessions@.contains(before.sessions@[k]));
                    let q = choose|q: int| 0 <= q < kept.len() && kept[q] == before.sessions@[k];
                    assert(kept[q].id == id);
                    assert(index::has_session_id(self.sessions@, id));
                }
                if let Some(at) = self.session_position(id) {
                    self.sessions.set(
                        at,
                        ScanSession {
                            id,
                            source: source.to_owned(),
                            started_unix_ms,
                            completed_unix_ms: None,
                            total_files: 0,
                            scanned: 0,
                            failed: 0,
                        },
                    );
                    proof {
                        assert forall|a: int, b: int|
                            #![trigger kept[a], kept[b]]
                            0 <= a < b < kept.len() implies kept[a].id != kept[b].id by {
                            assert(places[a] < places[b]);
                            assert(before.sessions@[places[a]] == kept[a]
                                && before.sessions@[places[b]] == kept[b]);
                        }
                        assert forall|k: int| 0 <= k < kept.len() implies if kept[k].id == id {
                            just_started(
                                #[trigger] self.sessions@[k],
                                id,
                                source@,
                                started_unix_ms,
                            )
                        } else {
                            self.sessions@[k] == kept[k]
                        } by {
                            if k < at {
                                assert(kept[k].id != kept[at as int].id);
                            } else if k > at {
                                assert(kept[at as int].id != kept[k].id);
                            }
                        }
                        lemma_restart_wf(before, *self, source@, id, kept);
                        assert(self.sessions@[at as int].id == id);
                    }
                }
                id
            },
        }
    }

    /// Records the outcome of a scan.
    pub fn complete_scan_session(
        &mut self,
        session_id: i64,
        completed_unix_ms: i64,
        total_files: usize,
        scanned: usize,
        failed: usize,
    )
        requires
            old(self).wf(),
        ensures
            final(self).wf(),
            same_videos(*old(self), *final(self)),
            index::same_models(*old(self), *final(self)),
            index::same_ai_rows(*old(self), *final(self)),
            final(self).links@ == old(self).links@,
            final(self).next_session_id == old(self).next_session_id,
            final(self).sessions@.len() == old(self).sessions@.len(),
            forall|k: int|
                #![trigger final(self).sessions@[k]]
                0 <= k < old(self).sessions@.len() ==> if old(self).sessions@[k].id == session_id {
                    &&& final(self).sessions@[k].id == session_id
                    &&& final(self).sessions@[k].source@ == old(self).sessions@[k].source@
                    &&& final(self).sessions@[k].started_unix_ms == old(
                        self).sessions@[k].started_unix_ms
                    &&& final(self).sessions@[k].completed_unix_ms == Some(completed_unix_ms)
                    &&& final(self).sessions@[k].total_files == total_files
                    &&& final(self).sessions@[k].scanned == scanned
                    &&& final(self).sessions@[k].failed == failed
                } else {
                    final(self).sessions@[k] == old(self).sessions@[k]
                },
    {
        let ghost before = *self;
        if let Some(at) = self.session_position(session_id) {
            let row = ScanSession {
                id: session_id,
                source: self.sessions[at].source.clone(),
                started_unix_ms: self.sessions[at].started_unix_ms,
                completed_unix_ms: Some(completed_unix_ms),
                total_files,
                scanned,
                failed,
            };
            self.sessions.set(at, row);
            proof {
                assert forall|k: int| 0 <= k < before.sessions@.len() && k != at implies (
                #[trigger] before.sessions@[k]).id != session_id by {
                    if k < at {
                        assert(before.sessions@[k].id != before.sessions@[at as int].id);
                    } else {
                        assert(before.sessions@[at as int].id != before.sessions@[k].id);
                    }
                }
                lemma_sessions_renewed_wf(before, *self);
            }
        }
    }

    /// Records that a scan saw a video; fails where one of them is not in the index.
    pub fn link_video_to_scan_session(&mut self, session_id: i64, video_id: i64) -> (r: Result<
        (),
        String,
    >)
        requires
            old(self).wf(),
        ensures
            final(self).wf(),
            r is Ok == (index::has_session_id(old(self).sessions@, session_id)
                && index::has_video_id(old(self).videos@, video_id)),
            r matches Err(message) ==> message@ == "FOREIGN KEY constraint failed"@,
            same_videos(*old(self), *final(self)),
            index::same_sessions(*old(self), *final(self)),
            index::same_models(*old(self), *final(self)),
            index::same_ai_rows(*old(self), *final(self)),
            final(self).links@ == (if r is Ok && !old(self).links@.contains(
                (SessionLink { session_id, video_id }),
            ) {
                old(self).links@.push(SessionLink { session_id, video_id })
            } else {
                old(self).links@
            }),
    {
        let ghost before = *self;
        let link = SessionLink { session_id, video_id };
        if !self.session_exists(session_id) || self.position_of(video_id).is_none() {
            return Err("FOREIGN KEY constraint failed".to_owned());
        }
        let mut known = false;
        let mut i: usize = 0;
        while i < self.links.len()
            invariant
                i <= self.links@.len(),
                known == exists|k: int| 0 <= k < i && #[trigger] self.links@[k] == link,
            decreases self.links@.len() - i,
        {
            if self.links[i] == link {
                assert(self.links@[i as int] == link);
                known = true;
            }
            i += 1;
        }
        if !known {
            self.links.push(link);
            assert forall|a: int, b: int| 0 <= a < b < self.links@.len() implies self.links@[a]
                != self.links@[b] by {
                if b < before.links@.len() {
                    assert(before.links@[a] != before.links@[b]);
                } else {
                    assert(before.links@[a] != link);
                }
            }
        }
        Ok(())
    }

    /// The scans that saw a video, by ascending id.
    pub fn session_ids_for_video(&self, video_id: i64) -> (r: Vec<i64>)
        requires
            self.wf(),
        ensures
            forall|x: i64|
                r@.contains(x) <==> self.links@.contains(
                    (SessionLink { session_id: x, video_id }),
                ),
            forall|i: int, j: int| 0 <= i < j < r@.len() ==> r@[i] < r@[j],
    {
        let mut out: Vec<i64> = Vec::new();
        let mut i: usize = 0;
        while i < self.links.len()
            invariant
                self.wf(),
                i <= self.links@.len(),
                forall|x: i64|
                    out@.contains(x) <==> exists|k: int|
                        0 <= k < i && #[trigger] self.links@[k] == (SessionLink {
                            session_id: x,
                            video_id,
                        }),
                forall|a: int, b: int| 0 <= a < b < out@.len() ==> out@[a] < out@[b],
            decreases self.links@.len() - i,
        {
            if self.links[i].video_id == video_id {
                let id: i64 = self.links[i].session_id;
                let ghost before = out@;
                assert(self.links@[i as int] == (SessionLink { session_id: id, video_id }));
                assert(!before.contains(id)) by {
                    if before.contains(id) {
                        let k = choose|k: int|
                            0 <= k < i && #[trigger] self.links@[k] == (SessionLink {
                                session_id: id,
                                video_id,
                            });
                        assert(self.links@[k] == self.links@[i as int]);
                    }
                }
                let mut p: usize = out.len();
                while p > 0 && out[p - 1] > id
                    invariant
                        p <= out@.len(),
                        out@ == before,
                        forall|k: int| p <= k < out@.len() ==> out@[k] > id,
                    decreases p,
                {
                    p -= 1;
                }
                assert forall|k: int| 0 <= k < p implies before[k] < id by {
                    assert(before.contains(before[k]));
                    if k < p - 1 {
                        assert(before[k] < before[p - 1]);
                    }
                    assert(before.contains(before[p - 1]));
                }
                out.insert(p, id);
                proof {
                    assert(out@[p as int] == id);
                    assert forall|x: i64|
                        out@.contains(x) <==> exists|k: int|
                            0 <= k < i + 1 && #[trigger] self.links@[k] == (SessionLink {
                                session_id: x,
                                video_id,
                            }) by {
                        if out@.contains(x) {
                            let q = choose|q: int| 0 <= q < out@.len() && out@[q] == x;
                            if q < p {
                                assert(before[q] == x);
                                assert(before.contains(x));
                            } else if q > p {
                                assert(before[q - 1] == x);
                                assert(before.contains(x));
                            }
                        }
                        if before.contains(x) {
                            let q = choose|q: int| 0 <= q < before.len() && before[q] == x;
                            if q < p {
                                assert(out@[q] == x);
                            } else {
                                assert(out@[q + 1] == x);
                            }
                        }
                    }
                }
            }
            i += 1;
        }
        out
    }
}

proof fn lemma_restart_wf(
    before: VideoIndex,
    after: VideoIndex,
    source: Seq<char>,
    id: i64,
    kept: Seq<ScanSession>,
)
    requires
        before.wf(),
        kept == rows::having(before.sessions@, |s: ScanSession| !is_of(s, source) || s.id == id),
        after.sessions@.len() == kept.len(),
        forall|k: int|
            #![trigger after.sessions@[k]]
            0 <= k < kept.len() ==> after.sessions@[k].id == kept[k].id,
        after.links@ == rows::having(
            before.links@,
            |l: SessionLink| !links_source(before.sessions@, source, l),
        ),
        after.next_session_id == before.next_session_id,
        same_videos(before, after),
        index::same_models(before, after),
        index::same_ai_rows(before, after),
    ensures
        after.wf(),
{
    let keep = |s: ScanSession| !is_of(s, source) || s.id == id;
    let spare = |l: SessionLink| !links_source(before.sessions@, source, l);
    let places = rows::lemma_having_places(before.sessions@, keep);
    rows::lemma_having(before.sessions@, keep);
    assert forall|a: int| 0 <= a < after.sessions@.len() implies (#[trigger] after.sessions@[a]).id
        < after.next_session_id by {
        assert(before.sessions@[places[a]] == kept[a]);
    }
    assert forall|a: int, b: int|
        #![trigger after.sessions@[a], after.sessions@[b]]
        0 <= a < b < after.sessions@.len() implies after.sessions@[a].id
        != after.sessions@[b].id by {
        assert(places[a] < places[b]);
        assert(before.sessions@[places[a]] == kept[a] && before.sessions@[places[b]] == kept[b]);
    }
    let l = rows::lemma_having_places(before.links@, spare);
    rows::lemma_having(before.links@, spare);
    assert forall|i: int, j: int| 0 <= i < j < after.links@.len() implies after.links@[i]
        != after.links@[j] by {
        assert(l[i] < l[j]);
        assert(before.links@[l[i]] == after.links@[i] && before.links@[l[j]] == after.links@[j]);
    }
    assert forall|k: int| 0 <= k < after.links@.len() implies index::has_session_id(
        after.sessions@,
        (#[trigger] after.links@[k]).session_id,
    ) && index::has_video_id(after.videos@, after.links@[k].video_id) by {
        let link = after.links@[k];
        assert(before.links@[l[k]] == link);
        assert(spare(link));
        let j = choose|j: int|
            0 <= j < before.sessions@.len() && (#[trigger] before.sessions@[j]).id
                == link.session_id;
        assert(!is_of(before.sessions@[j], source));
        assert(keep(before.sessions@[j]));
        assert(before.sessions@.contains(before.sessions@[j]));
        let q = choose|q: int| 0 <= q < kept.len() && kept[q] == before.sessions@[j];
        assert(after.sessions@[q].id == link.session_id);
    }
}

proof fn lemma_sessions_renewed_wf(before: VideoIndex, after: VideoIndex)
    requires
        before.wf(),
        after.sessions@.len() == before.sessions@.len(),
        forall|k: int|
            #![trigger after.sessions@[k]]
            0 <= k < before.sessions@.len() ==> after.sessions@[k].id == before.sessions@[k].id,
        after.links@ == before.links@,
        after.next_session_id == before.next_session_id,
        same_videos(before, after),
        index::same_models(before, after),
        index::same_ai_rows(before, after),
    ensures
        after.wf(),
{
    assert forall|a: int, b: int|
        #![trigger after.sessions@[a], after.sessions@[b]]
        0 <= a < b < after.sessions@.len() implies after.sessions@[a].id
        != after.sessions@[b].id by {
        assert(before.sessions@[a].id != before.sessions@[b].id);
    }
    assert forall|k: int| 0 <= k < after.links@.len() implies index::has_session_id(
        after.sessions@,
        (#[trigger] after.links@[k]).session_id,
    ) && index::has_video_id(after.videos@, after.links@[k].video_id) by {
        let x = before.links@[k];
        let j = choose|j: int|
            0 <= j < before.sessions@.len() && (#[trigger] before.sessions@[j]).id
                == x.session_id;
        assert(after.sessions@[j].id == x.session_id);
    }
    assert forall|a: int| 0 <= a < after.sessions@.len() implies (#[trigger] after.sessions@[a]).id
        < after.next_session_id by {
        assert(before.sessions@[a].id < before.next_session_id);
    }
}

impl VideoIndex {
    /// The positions of the last scan of each source, the latest first.
    pub fn list_scan_sessions(&self) -> (r: Vec<usize>)
        requires
            self.wf(),
        ensures
            lists_scans(self.sessions@, r@),
    {
        let count: usize = self.sessions.len();
        let mut keys: Vec<String> = Vec::new();
        let mut n: usize = 0;
        while n < count
            invariant
                n <= count,
                count == self.sessions@.len(),
                keys@.len() == n,
                forall|k: int|
                    0 <= k < n ==> (#[trigger] keys@[k])@ == source_key(self.sessions@[k]),
            decreases count - n,
        {
            keys.push(
                text::replace_char(self.sessions[n].source.as_str(), '/', '\\').to_lowercase(),
            );
            n += 1;
        }
        let mut out: Vec<usize> = Vec::new();
        let mut i: usize = 0;
        while i < count
            invariant
                i <= count,
                count == self.sessions@.len(),
                self.wf(),
                keys@.len() == count,
                forall|k: int|
                    0 <= k < count ==> (#[trigger] keys@[k])@ == source_key(self.sessions@[k]),
                forall|k: int| 0 <= k < out@.len() ==> (#[trigger] out@[k]) < i,
                forall|k: int|
                    0 <= k < out@.len() ==> is_last_scan(
                        self.sessions@,
                        #[trigger] out@[k] as int,
                    ),
                forall|x: int|
                    0 <= x < i && is_last_scan(self.sessions@, x) ==> #[trigger] out@.contains(
                        x as usize,
                    ),
                forall|a: int, b: int|
                    #![trigger out@[a], out@[b]]
                    0 <= a < b < out@.len() ==> started_after(
                        self.sessions@[out@[a] as int],
                        self.sessions@[out@[b] as int],
                    ),
            decreases count - i,
        {
            let started: i64 = self.sessions[i].started_unix_ms;
            let id: i64 = self.sessions[i].id;
            let mut last = true;
            let mut k: usize = 0;
            while k < count
                invariant
                    k <= count,
                    i < count,
                    count == self.sessions@.len(),
                    keys@.len() == count,
                    started == self.sessions@[i as int].started_unix_ms,
                    id == self.sessions@[i as int].id,
                    forall|q: int|
                        0 <= q < count ==> (#[trigger] keys@[q])@ == source_key(self.sessions@[q]),
                    last == forall|q: int|
                        #![trigger self.sessions@[q]]
                        0 <= q < k && source_key(self.sessions@[q]) == source_key(
                            self.sessions@[i as int],
                        ) ==> !started_after(self.sessions@[q], self.sessions@[i as int]),
                decreases count - k,
            {
                assert(keys@[k as int]@ == source_key(self.sessions@[k as int]));
                assert(keys@[i as int]@ == source_key(self.sessions@[i as int]));
                if same_text(keys[k].as_str(), keys[i].as_str()) && (
                self.sessions[k].started_unix_ms > started || (self.sessions[k].started_unix_ms
                    == started && self.sessions[k].id > id)) {
                    last = false;
                }
                k += 1;
            }
            if last {
                assert(is_last_scan(self.sessions@, i as int));
                let ghost before = out@;
                let mut p: usize = out.len();
                while p > 0 && !(self.sessions[out[p - 1]].started_unix_ms > started || (
                self.sessions[out[p - 1]].started_unix_ms == started && self.sessions[out[p
                    - 1]].id > id))
                    invariant
                        p <= out@.len(),
                        i < count,
                        count == self.sessions@.len(),
                        started == self.sessions@[i as int].started_unix_ms,
                        id == self.sessions@[i as int].id,
                        out@ == before,
                        forall|q: int| 0 <= q < out@.len() ==> (#[trigger] out@[q]) < i,
                        forall|q: int|
                            p <= q < out@.len() ==> !started_after(
                                self.sessions@[(#[trigger] out@[q]) as int],
                                self.sessions@[i as int],
                            ),
                    decreases p,
                {
                    p -= 1;
                }
                out.insert(p, i);
                proof {
                    assert(out@[p as int] == i);
                    assert forall|x: int|
                        0 <= x < i + 1 && is_last_scan(
                            self.sessions@,
                            x,
                        ) implies #[trigger] out@.contains(x as usize) by {
                        if x < i {
                            assert(before.contains(x as usize));
                            let q = choose|q: int| 0 <= q < before.len() && before[q] == x as usize;
                            if q < p {
                                assert(out@[q] == x as usize);
                            } else {
                                assert(out@[q + 1] == x as usize);
                            }
                        }
                    }
                    assert forall|a: int| 0 <= a < out@.len() implies is_last_scan(
                        self.sessions@,
                        #[trigger] out@[a] as int,
                    ) && out@[a] < i + 1 by {
                        if a < p {
                            assert(out@[a] == before[a]);
                        } else if a > p {
                            assert(out@[a] == before[a - 1]);
                        }
                    }
                    assert forall|a: int, b: int|
                        #![trigger out@[a], out@[b]]
                        0 <= a < b < out@.len() implies started_after(
                        self.sessions@[out@[a] as int],
                        self.sessions@[out@[b] as int],
                    ) by {
                        let x = if a < p {
                            a
                        } else {
                            a - 1
                        };
                        let y = if b < p {
                            b
                        } else {
                            b - 1
                        };
                        if a != p && b != p {
                            assert(out@[a] == before[x] && out@[b] == before[y]);
                        } else if b == p {
                            assert(out@[a] == before[a]);
                            if a < p - 1 {
                                assert(started_after(
                                    self.sessions@[before[a] as int],
                                    self.sessions@[before[p - 1] as int],
                                ));
                            }
                        } else {
                            assert(out@[b] == before[y]);
                            let other = self.sessions@[before[y] as int];
                            assert(before[y] < i);
                            assert(other.id != self.sessions@[i as int].id);
                        }
                    }
                }
            }
            i += 1;
        }
        out
    }

    /// Removes the scans whose folders are gone from disks that can be reached. `probes` tells of
    /// each listed scan, in the order of the list.
    pub fn refresh_index_sources(&mut self, listed: &Vec<usize>, probes: &Vec<SourceProbe>) -> (r:
        IndexRefreshSummary)
        requires
            old(self).wf(),
            lists_scans(old(self).sessions@, listed@),
            listed@.len() == probes@.len(),
        ensures
            final(self).wf(),
            sessions_removed(
                *old(self),
                *final(self),
                vanished(old(self).sessions@, listed@, probes@, listed@.len() as int),
            ),
            r.removed_missing_sources == vanished(
                old(self).sessions@,
                listed@,
                probes@,
                listed@.len() as int,
            ).len(),
            r.skipped_unavailable_roots == out_of_reach(probes@, probes@.len() as int),
    {
        let ghost before = *self;
        let mut gone: Vec<i64> = Vec::new();
        let mut skipped: usize = 0;
        let mut i: usize = 0;
        while i < listed.len()
            invariant
                i <= listed@.len(),
                listed@.len() == probes@.len(),
                *self == before,
                lists_scans(before.sessions@, listed@),
                gone@ == vanished(before.sessions@, listed@, probes@, i as int),
                skipped == out_of_reach(probes@, i as int),
                skipped <= i,
            decreases listed@.len() - i,
        {
            assert(is_last_scan(before.sessions@, listed@[i as int] as int));
            if !probes[i].exists {
                if probes[i].root_available {
                    gone.push(self.sessions[listed[i]].id);
                } else {
                    skipped += 1;
                }
            }
            i += 1;
        }
        let removed: usize = gone.len();
        let _summary = self.delete_scan_sessions(&gone);
        IndexRefreshSummary { removed_missing_sources: removed, skipped_unavailable_roots: skipped }
    }

    /// The positions of the videos, the best first.
    pub fn list_videos(&self) -> (r: Vec<usize>)
        requires
            self.wf(),
        ensures
            lists_in_order(self.videos@, r@),
            forall|i: int| 0 <= i < self.videos@.len() ==> #[trigger] r@.contains(i as usize),
    {
        let mut out: Vec<usize> = Vec::new();
        let mut i: usize = 0;
        while i < self.videos.len()
            invariant
                i <= self.videos@.len(),
                self.wf(),
                lists_in_order(self.videos@.take(i as int), out@),
                forall|x: int| 0 <= x < i ==> #[trigger] out@.contains(x as usize),
            decreases self.videos@.len() - i,
        {
            let ghost before = out@;
            let ghost shown = self.videos@.take(i as int);
            assert forall|q: int| 0 <= q < before.len() implies (#[trigger] before[q]) < i
                && shown[before[q] as int] == self.videos@[before[q] as int] by {
                assert(before[q] < shown.len());
            }
            let mut p: usize = out.len();
            while p > 0 && !precedes(&self.videos[out[p - 1]], &self.videos[i])
                invariant
                    p <= out@.len(),
                    i < self.videos@.len(),
                    self.wf(),
                    out@ == before,
                    forall|q: int| 0 <= q < out@.len() ==> (#[trigger] out@[q]) < i,
                    forall|q: int|
                        p <= q < out@.len() ==> listed_first(
                            self.videos@[i as int],
                            self.videos@[(#[trigger] out@[q]) as int],
                        ),
                decreases p,
            {
                let ghost other = self.videos@[out@[p - 1] as int];
                proof {
                    assert(other.path@ != self.videos@[i as int].path@);
                    if other.quality_score.rank() == self.videos@[i as int].quality_score.rank() {
                        text::lemma_text_less_total(other.path@, self.videos@[i as int].path@);
                    }
                }
                p -= 1;
            }
            out.insert(p, i);
            proof {
                let now = self.videos@.take(i + 1);
                assert(out@[p as int] == i);
                assert forall|x: int| 0 <= x < i + 1 implies #[trigger] out@.contains(
                    x as usize,
                ) by {
                    if x < i {
                        assert(before.contains(x as usize));
                        let q = choose|q: int| 0 <= q < before.len() && before[q] == x as usize;
                        if q < p {
                            assert(out@[q] == x as usize);
                        } else {
                            assert(out@[q + 1] == x as usize);
                        }
                    }
                }
                assert forall|a: int| 0 <= a < out@.len() implies (#[trigger] out@[a])
                    < now.len() by {
                    if a < p {
                        assert(out@[a] == before[a]);
                    } else if a > p {
                        assert(out@[a] == before[a - 1]);
                    }
                }
                assert forall|a: int, b: int|
                    #![trigger out@[a], out@[b]]
                    0 <= a < b < out@.len() implies listed_first(
                    now[out@[a] as int],
                    now[out@[b] as int],
                ) by {
                    let x = if a < p {
                        a
                    } else {
                        a - 1
                    };
                    let y = if b < p {
                        b
                    } else {
                        b - 1
                    };
                    if a != p && b != p {
                        assert(out@[a] == before[x] && out@[b] == before[y]);
                        assert(listed_first(shown[before[x] as int], shown[before[y] as int]));
                    } else if b == p {
                        assert(out@[a] == before[a]);
                        let last = self.videos@[before[p - 1] as int];
                        assert(before[p - 1] < i);
                        if a < p - 1 {
                            assert(listed_first(shown[before[a] as int], shown[before[p
                                - 1] as int]));
                            let first = self.videos@[before[a] as int];
                            if first.quality_score.rank() == last.quality_score.rank()
                                && last.quality_score.rank()
                                == self.videos@[i as int].quality_score.rank() {
                                text::lemma_text_less_transitive(
                                    first.path@,
                                    last.path@,
                                    self.videos@[i as int].path@,
                                );
                            }
                        }
                    } else {
                        assert(out@[b] == before[y]);
                    }
                }
            }
            i += 1;
        }
        assert(self.videos@.take(i as int) =~= self.videos@);
        out
    }

    /// The positions of the videos that the sources of the given scans hold, the best first.
    pub fn list_videos_for_sessions(&self, session_ids: &Vec<i64>) -> (r: Vec<usize>)
        requires
            self.wf(),
        ensures
            lists_in_order(self.videos@, r@),
            forall|i: int|
                0 <= i < self.videos@.len() ==> (#[trigger] r@.contains(i as usize) <==> seen_by(
                    *self,
                    session_ids@,
                    self.videos@[i].id->0,
                )),
    {
        let wanted = self.expand_session_ids_by_source(session_ids);
        let mut ids: Vec<i64> = Vec::new();
        let mut n: usize = 0;
        while n < self.links.len()
            invariant
                n <= self.links@.len(),
                forall|x: i64|
                    ids@.contains(x) <==> exists|k: int|
                        0 <= k < n && wanted@.contains((#[trigger] self.links@[k]).session_id)
                            && self.links@[k].video_id == x,
            decreases self.links@.len() - n,
        {
            let ghost before = ids@;
            if has_id(&wanted, self.links[n].session_id) {
                let id: i64 = self.links[n].video_id;
                ids.push(id);
                proof {
                    assert(ids@[before.len() as int] == id);
                    assert forall|x: i64|
                        ids@.contains(x) <==> exists|k: int|
                            0 <= k < n + 1 && wanted@.contains(
                                (#[trigger] self.links@[k]).session_id,
                            ) && self.links@[k].video_id == x by {
                        if ids@.contains(x) {
                            let q = choose|q: int| 0 <= q < ids@.len() && ids@[q] == x;
                            if q < before.len() {
                                assert(before[q] == x);
                                assert(before.contains(x));
                            } else {
                                assert(wanted@.contains(self.links@[n as int].session_id));
                            }
                        }
                        if before.contains(x) {
                            let q = choose|q: int| 0 <= q < before.len() && before[q] == x;
                            assert(ids@[q] == x);
                        }
                    }
                }
            }
            n += 1;
        }
        let order = self.list_videos();
        let mut out: Vec<usize> = Vec::new();
        let mut i: usize = 0;
        while i < order.len()
            invariant
                i <= order@.len(),
                self.wf(),
                wanted@ == doomed_ids(
                    self.sessions@,
                    session_ids@,
                    self.sessions@.len() as int,
                ),
                lists_in_order(self.videos@, order@),
                forall|x: i64|
                    ids@.contains(x) <==> exists|k: int|
                        0 <= k < self.links@.len() && wanted@.contains(
                            (#[trigger] self.links@[k]).session_id,
                        ) && self.links@[k].video_id == x,
                lists_in_order(self.videos@, out@),
                forall|k: int|
                    0 <= k < out@.len() ==> order@.take(i as int).contains(#[trigger] out@[k])
                        && seen_by(*self, session_ids@, self.videos@[out@[k] as int].id->0),
                forall|k: int|
                    0 <= k < i && seen_by(
                        *self,
                        session_ids@,
                        self.videos@[(#[trigger] order@[k]) as int].id->0,
                    ) ==> out@.contains(order@[k]),
            decreases order@.len() - i,
        {
            let at: usize = order[i];
            assert(order@[i as int] < self.videos@.len());
            assert(self.videos@[at as int].id is Some);
            let id: i64 = match self.videos[at].id {
                Some(own) => own,
                None => 0,
            };
            let ghost before = out@;
            assert(order@.take(i + 1) =~= order@.take(i as int).push(at));
            if has_id(&ids, id) {
                out.push(at);
                proof {
                    assert(out@[before.len() as int] == at);
                    assert forall|a: int, b: int|
                        #![trigger out@[a], out@[b]]
                        0 <= a < b < out@.len() implies listed_first(
                        self.videos@[out@[a] as int],
                        self.videos@[out@[b] as int],
                    ) by {
                        assert(out@[a] == before[a]);
                        if b < before.len() {
                            assert(out@[b] == before[b]);
                        } else {
                            assert(order@.take(i as int).contains(before[a]));
                            let q = choose|q: int|
                                0 <= q < i && order@.take(i as int)[q] == before[a];
                            assert(order@[q] == before[a]);
                            assert(order@[q] == out@[a] && order@[i as int] == out@[b]);
                        }
                    }
                }
            }
            proof {
                assert forall|k: int| 0 <= k < out@.len() implies order@.take(i + 1).contains(
                    #[trigger] out@[k],
                ) && seen_by(*self, session_ids@, self.videos@[out@[k] as int].id->0) by {
                    if k < before.len() {
                        assert(out@[k] == before[k]);
                        let q = choose|q: int|
                            0 <= q < i && order@.take(i as int)[q] == before[k];
                        assert(order@.take(i + 1)[q] == before[k]);
                    } else {
                        assert(order@.take(i + 1)[i as int] == at);
                    }
                }
                assert forall|k: int|
                    0 <= k < i + 1 && seen_by(
                        *self,
                        session_ids@,
                        self.videos@[(#[trigger] order@[k]) as int].id->0,
                    ) implies out@.contains(order@[k]) by {
                    if k < i {
                        let q = choose|q: int| 0 <= q < before.len() && before[q] == order@[k];
                        assert(out@[q] == order@[k]);
                    }
                }
            }
            i += 1;
        }
        proof {
            assert(self.videos.len() == self.videos@.len());
            assert forall|x: int| 0 <= x < self.videos@.len() implies (#[trigger] out@.contains(
                x as usize,
            ) <==> seen_by(*self, session_ids@, self.videos@[x].id->0)) by {
                assert(order@.contains(x as usize));
                let q = choose|q: int| 0 <= q < order@.len() && order@[q] == x as usize;
                if out@.contains(x as usize) {
                    let k = choose|k: int| 0 <= k < out@.len() && out@[k] == x as usize;
                    assert(seen_by(*self, session_ids@, self.videos@[out@[k] as int].id->0));
                }
                if seen_by(*self, session_ids@, self.videos@[x].id->0) {
                    assert(out@.contains(order@[q]));
                }
            }
        }
        out
    }
}

/// Whether one video is listed before another one: its score is higher, or, where both are the
/// same, its path stands before the other path.
pub open spec fn listed_first(a: models::VideoRecord, b: models::VideoRecord) -> bool {
    a.quality_score.rank() > b.quality_score.rank() || (a.quality_score.rank()
        == b.quality_score.rank() && text::text_less(a.path@, b.path@))
}

/// Whether positions list videos in order.
pub open spec fn lists_in_order(videos: Seq<models::VideoRecord>, listed: Seq<usize>) -> bool {
    &&& forall|k: int| 0 <= k < listed.len() ==> (#[trigger] listed[k]) < videos.len()
    &&& forall|a: int, b: int|
        #![trigger listed[a], listed[b]]
        0 <= a < b < listed.len() ==> listed_first(
            videos[listed[a] as int],
            videos[listed[b] as int],
        )
}

/// Whether one video is listed before another one.
fn precedes(a: &models::VideoRecord, b: &models::VideoRecord) -> (r: bool)
    ensures
        r == listed_first(*a, *b),
{
    let left: i64 = a.quality_score.order();
    let right: i64 = b.quality_score.order();
    left > right || (left == right && text::less_text(a.path.as_str(), b.path.as_str()))
}

/// Whether a scan of the source of one of the given scans saw a video.
pub open spec fn seen_by(index: VideoIndex, session_ids: Seq<i64>, id: i64) -> bool {
    exists|k: int|
        0 <= k < index.links@.len() && doomed_ids(
            index.sessions@,
            session_ids,
            index.sessions@.len() as int,
        ).contains((#[trigger] index.links@[k]).session_id) && index.links@[k].video_id == id
}

} // verus!
