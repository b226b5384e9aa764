//! The index: the videos that were scanned, the scans, and what the embedding model found.
use crate::double::Double;
use crate::models;
use crate::models::{AiPairScoreRecord, FrameEmbeddingRecord, ScanSession, VideoRecord};
use crate::rows;
use crate::rows::{has_id, keep_marked};
use vstd::prelude::*;
use vstd::string::*;

verus! {

/// One video was seen by one scan.
#[derive(Debug, Clone, Copy, PartialEq, Eq, Structural)]
pub struct SessionLink {
    pub session_id: i64,
    pub video_id: i64,
}

/// An embedding model that frames were put through.
#[derive(Debug, Clone)]
pub struct EmbeddingModel {
    pub model_id: String,
    pub name: String,
    pub dimension: usize,
    pub runtime: String,
    pub model_path: String,
    pub model_file_hash: String,
    pub created_unix_ms: i64,
}

/// A recorded verdict on two videos.
#[derive(Debug, Clone)]
pub struct MatchEdge {
    pub video_a_id: i64,
    pub video_b_id: i64,
    pub model_id: String,
    pub confidence: Double,
    pub matched_frame_count: usize,
    pub alignment_score: Double,
    pub clip_score: Double,
    pub verdict: String,
    pub evidence_json: String,
    pub created_unix_ms: i64,
}

/// How many rows of each kind were removed.
#[derive(Debug, Clone, Copy, PartialEq, Eq, Structural)]
pub struct DeletedVideoRows {
    pub videos: usize,
    pub pair_scores: usize,
    pub match_edges: usize,
    pub frame_embeddings: usize,
}

impl Default for DeletedVideoRows {
    fn default() -> (r: DeletedVideoRows)
        ensures
            r == (DeletedVideoRows {
                videos: 0,
                pair_scores: 0,
                match_edges: 0,
                frame_embeddings: 0,
            }),
    {
        DeletedVideoRows { videos: 0, pair_scores: 0, match_edges: 0, frame_embeddings: 0 }
    }
}

/// The sum of two numbers, or the largest number.
pub open spec fn capped_sum(a: usize, b: usize) -> usize {
    if a + b > usize::MAX {
        usize::MAX
    } else {
        (a + b) as usize
    }
}

/// The counts of two removals together.
pub open spec fn rows_sum(a: DeletedVideoRows, b: DeletedVideoRows) -> DeletedVideoRows {
    DeletedVideoRows {
        videos: capped_sum(a.videos, b.videos),
        pair_scores: capped_sum(a.pair_scores, b.pair_scores),
        match_edges: capped_sum(a.match_edges, b.match_edges),
        frame_embeddings: capped_sum(a.frame_embeddings, b.frame_embeddings),
    }
}

/// Adds the counts of another removal.
pub fn add_deleted_rows(total: &mut DeletedVideoRows, rows: DeletedVideoRows)
    ensures
        *final(total) == rows_sum(*old(total), rows),
{
    total.videos = total.videos.saturating_add(rows.videos);
    total.pair_scores = total.pair_scores.saturating_add(rows.pair_scores);
    total.match_edges = total.match_edges.saturating_add(rows.match_edges);
    total.frame_embeddings = total.frame_embeddings.saturating_add(rows.frame_embeddings);
}

/// The rows of the index.
#[derive(Debug, Clone)]
pub struct VideoIndex {
    pub videos: Vec<VideoRecord>,
    pub next_video_id: i64,
    pub sessions: Vec<ScanSession>,
    pub next_session_id: i64,
    pub links: Vec<SessionLink>,
    pub models: Vec<EmbeddingModel>,
    pub frame_embeddings: Vec<FrameEmbeddingRecord>,
    pub match_edges: Vec<MatchEdge>,
    pub pair_scores: Vec<AiPairScoreRecord>,
}

/// Whether two pair scores are of the same pair, model and options.
pub open spec fn same_score_key(a: AiPairScoreRecord, b: AiPairScoreRecord) -> bool {
    a.video_a_id == b.video_a_id && a.video_b_id == b.video_b_id && a.model_id@ == b.model_id@
        && a.cache_key@ == b.cache_key@
}

/// Whether two verdicts are of the same pair and model.
pub open spec fn same_edge_key(a: MatchEdge, b: MatchEdge) -> bool {
    a.video_a_id == b.video_a_id && a.video_b_id == b.video_b_id && a.model_id@ == b.model_id@
}

/// Whether two embeddings are of the same frame and model.
pub open spec fn same_frame_key(a: FrameEmbeddingRecord, b: FrameEmbeddingRecord) -> bool {
    a.video_id == b.video_id && a.model_id@ == b.model_id@ && a.frame_index == b.frame_index
}

/// Whether some video has an id.
pub open spec fn has_video_id(videos: Seq<VideoRecord>, id: i64) -> bool {
    exists|i: int| 0 <= i < videos.len() && (#[trigger] videos[i]).id == Some(id)
}

/// Whether some scan has an id.
pub open spec fn has_session_id(sessions: Seq<ScanSession>, id: i64) -> bool {
    exists|i: int| 0 <= i < sessions.len() && (#[trigger] sessions[i]).id == id
}

/// Whether some model has an id.
pub open spec fn has_model_id(list: Seq<EmbeddingModel>, id: Seq<char>) -> bool {
    exists|i: int| 0 <= i < list.len() && (#[trigger] list[i]).model_id@ == id
}

/// Every video has an id of its own and a path of its own; ids to come are new.
pub open spec fn videos_ok(videos: Seq<VideoRecord>, next: i64) -> bool {
    &&& forall|i: int|
        #![trigger videos[i]]
        0 <= i < videos.len() ==> videos[i].id is Some && videos[i].id->0 < next
    &&& forall|i: int, j: int|
        #![trigger videos[i], videos[j]]
        0 <= i < j < videos.len() ==> videos[i].id != videos[j].id && videos[i].path@
            != videos[j].path@
}

/// Every scan has an id of its own; ids to come are new.
pub open spec fn sessions_ok(sessions: Seq<ScanSession>, next: i64) -> bool {
    &&& forall|i: int| 0 <= i < sessions.len() ==> (#[trigger] sessions[i]).id < next
    &&& forall|i: int, j: int|
        #![trigger sessions[i], sessions[j]]
        0 <= i < j < sessions.len() ==> sessions[i].id != sessions[j].id
}

/// Links are between scans and videos that exist, each once.
pub open spec fn links_ok(
    links: Seq<SessionLink>,
    sessions: Seq<ScanSession>,
    videos: Seq<VideoRecord>,
) -> bool {
    &&& links.no_duplicates()
    &&& forall|k: int|
        #![trigger links[k]]
        0 <= k < links.len() ==> has_session_id(sessions, links[k].session_id) && has_video_id(
            videos,
            links[k].video_id,
        )
}

/// Embeddings are of videos and models that exist, each frame once.
pub open spec fn frames_ok(
    frames: Seq<FrameEmbeddingRecord>,
    videos: Seq<VideoRecord>,
    list: Seq<EmbeddingModel>,
) -> bool {
    &&& forall|k: int|
        #![trigger frames[k]]
        0 <= k < frames.len() ==> has_video_id(videos, frames[k].video_id) && has_model_id(
            list,
            frames[k].model_id@,
        )
    &&& forall|i: int, j: int|
        #![trigger frames[i], frames[j]]
        0 <= i < j < frames.len() ==> !same_frame_key(frames[i], frames[j])
}

/// Pair scores are of two videos and a model that exist, in the order of the ids, each key once.
pub open spec fn scores_ok(
    scores: Seq<AiPairScoreRecord>,
    videos: Seq<VideoRecord>,
    list: Seq<EmbeddingModel>,
) -> bool {
    &&& forall|k: int|
        #![trigger scores[k]]
        0 <= k < scores.len() ==> {
            &&& scores[k].video_a_id < scores[k].video_b_id
            &&& has_video_id(videos, scores[k].video_a_id)
            &&& has_video_id(videos, scores[k].video_b_id)
            &&& has_model_id(list, scores[k].model_id@)
        }
    &&& forall|i: int, j: int|
        #![trigger scores[i], scores[j]]
        0 <= i < j < scores.len() ==> !same_score_key(scores[i], scores[j])
}

/// Verdicts are on two videos and a model that exist, in the order of the ids, each key once.
pub open spec fn edges_ok(
    edges: Seq<MatchEdge>,
    videos: Seq<VideoRecord>,
    list: Seq<EmbeddingModel>,
) -> bool {
    &&& forall|k: int|
        #![trigger edges[k]]
        0 <= k < edges.len() ==> {
            &&& edges[k].video_a_id < edges[k].video_b_id
            &&& has_video_id(videos, edges[k].video_a_id)
            &&& has_video_id(videos, edges[k].video_b_id)
            &&& has_model_id(list, edges[k].model_id@)
        }
    &&& forall|i: int, j: int|
        #![trigger edges[i], edges[j]]
        0 <= i < j < edges.len() ==> !same_edge_key(edges[i], edges[j])
}

/// Every model has an id of its own.
pub open spec fn models_ok(list: Seq<EmbeddingModel>) -> bool {
    forall|i: int, j: int|
        #![trigger list[i], list[j]]
        0 <= i < j < list.len() ==> list[i].model_id@ != list[j].model_id@
}

impl VideoIndex {
    /// Ids and keys are unique, and rows refer to rows that exist.
    pub open spec fn wf(&self) -> bool {
        &&& videos_ok(self.videos@, self.next_video_id)
        &&& sessions_ok(self.sessions@, self.next_session_id)
        &&& links_ok(self.links@, self.sessions@, self.videos@)
        &&& models_ok(self.models@)
        &&& frames_ok(self.frame_embeddings@, self.videos@, self.models@)
        &&& scores_ok(self.pair_scores@, self.videos@, self.models@)
        &&& edges_ok(self.match_edges@, self.videos@, self.models@)
    }

    /// The position of the video with an id.
    pub open spec fn is_at(&self, id: i64, i: int) -> bool {
        0 <= i < self.videos@.len() && self.videos@[i].id == Some(id)
    }

    /// An index without rows.
    pub fn new() -> (r: VideoIndex)
        ensures
            r.wf(),
            r.videos@.len() == 0,
            r.sessions@.len() == 0,
            r.links@.len() == 0,
            r.models@.len() == 0,
            r.frame_embeddings@.len() == 0,
            r.match_edges@.len() == 0,
            r.pair_scores@.len() == 0,
            r.next_video_id == 1,
            r.next_session_id == 1,
    {
        VideoIndex {
            videos: Vec::new(),
            next_video_id: 1,
            sessions: Vec::new(),
            next_session_id: 1,
            links: Vec::new(),
            models: Vec::new(),
            frame_embeddings: Vec::new(),
            match_edges: Vec::new(),
            pair_scores: Vec::new(),
        }
    }
}

/// Whether a video is none of those with the given ids.
pub open spec fn video_spared(ids: Seq<i64>) -> spec_fn(VideoRecord) -> bool {
    |v: VideoRecord| !(v.id is Some && ids.contains(v.id->0))
}

/// Whether a link is to none of the given videos.
pub open spec fn link_spared(ids: Seq<i64>) -> spec_fn(SessionLink) -> bool {
    |l: SessionLink| !ids.contains(l.video_id)
}

/// Whether an embedding is of none of the given videos.
pub open spec fn frame_spared(ids: Seq<i64>) -> spec_fn(FrameEmbeddingRecord) -> bool {
    |f: FrameEmbeddingRecord| !ids.contains(f.video_id)
}

/// Whether a pair score is of none of the given videos.
pub open spec fn score_spared(ids: Seq<i64>) -> spec_fn(AiPairScoreRecord) -> bool {
    |s: AiPairScoreRecord| !ids.contains(s.video_a_id) && !ids.contains(s.video_b_id)
}

/// Whether a verdict is on none of the given videos.
pub open spec fn edge_spared(ids: Seq<i64>) -> spec_fn(MatchEdge) -> bool {
    |e: MatchEdge| !ids.contains(e.video_a_id) && !ids.contains(e.video_b_id)
}

/// Whether `after` is `before` without what the model found of the given videos.
pub open spec fn ai_rows_dropped(before: VideoIndex, after: VideoIndex, ids: Seq<i64>) -> bool {
    &&& after.frame_embeddings@ == rows::having(before.frame_embeddings@, frame_spared(ids))
    &&& after.pair_scores@ == rows::having(before.pair_scores@, score_spared(ids))
    &&& after.match_edges@ == rows::having(before.match_edges@, edge_spared(ids))
}

/// Whether `after` is `before` without the given videos and all that refers to them.
pub open spec fn videos_dropped(before: VideoIndex, after: VideoIndex, ids: Seq<i64>) -> bool {
    &&& after.videos@ == rows::having(before.videos@, video_spared(ids))
    &&& after.links@ == rows::having(before.links@, link_spared(ids))
    &&& ai_rows_dropped(before, after, ids)
    &&& same_sessions(before, after)
    &&& same_models(before, after)
    &&& after.next_video_id == before.next_video_id
}

/// Whether two indexes hold the same scans.
pub open spec fn same_sessions(before: VideoIndex, after: VideoIndex) -> bool {
    after.sessions@ == before.sessions@ && after.next_session_id == before.next_session_id
}

/// Whether two indexes hold the same models.
pub open spec fn same_models(before: VideoIndex, after: VideoIndex) -> bool {
    after.models@ == before.models@
}

/// Whether two indexes hold the same findings of the model.
pub open spec fn same_ai_rows(before: VideoIndex, after: VideoIndex) -> bool {
    &&& after.frame_embeddings@ == before.frame_embeddings@
    &&& after.pair_scores@ == before.pair_scores@
    &&& after.match_edges@ == before.match_edges@
}

/// How many rows of each kind `after` has less than `before`.
pub open spec fn rows_lost(before: VideoIndex, after: VideoIndex, lost: DeletedVideoRows) -> bool {
    &&& lost.videos == before.videos@.len() - after.videos@.len()
    &&& lost.pair_scores == before.pair_scores@.len() - after.pair_scores@.len()
    &&& lost.match_edges == before.match_edges@.len() - after.match_edges@.len()
    &&& lost.frame_embeddings == before.frame_embeddings@.len() - after.frame_embeddings@.len()
}

proof fn lemma_sub_links(before: Seq<SessionLink>, property: spec_fn(SessionLink) -> bool)
    requires
        before.no_duplicates(),
    ensures
        rows::having(before, property).no_duplicates(),
{
    let after = rows::having(before, property);
    let places = rows::lemma_having_places(before, property);
    assert forall|i: int, j: int| 0 <= i < j < after.len() implies after[i] != after[j] by {
        assert(places[i] < places[j]);
        assert(before[places[i]] == after[i] && before[places[j]] == after[j]);
    }
}

/// A video that is spared is still there.
pub proof fn lemma_video_stays(videos: Seq<VideoRecord>, ids: Seq<i64>, id: i64)
    requires
        has_video_id(videos, id),
        !ids.contains(id),
    ensures
        has_video_id(rows::having(videos, video_spared(ids)), id),
{
    let i = choose|i: int| 0 <= i < videos.len() && (#[trigger] videos[i]).id == Some(id);
    let after = rows::having(videos, video_spared(ids));
    rows::lemma_having(videos, video_spared(ids));
    assert(videos.contains(videos[i]));
    let j = choose|j: int| 0 <= j < after.len() && after[j] == videos[i];
    assert(after[j].id == Some(id));
}

/// Removing videos with all that refers to them keeps an index well formed.
pub proof fn lemma_drop_keeps_wf(before: VideoIndex, after: VideoIndex, ids: Seq<i64>)
    requires
        before.wf(),
        videos_dropped(before, after, ids),
    ensures
        after.wf(),
{
    let places = rows::lemma_having_places(before.videos@, video_spared(ids));
    assert(videos_ok(after.videos@, after.next_video_id)) by {
        assert forall|i: int| 0 <= i < after.videos@.len() implies (#[trigger] after.videos@[i]).id
            is Some && after.videos@[i].id->0 < after.next_video_id by {
            assert(before.videos@[places[i]] == after.videos@[i]);
        }
        assert forall|i: int, j: int|
            #![trigger after.videos@[i], after.videos@[j]]
            0 <= i < j < after.videos@.len() implies after.videos@[i].id != after.videos@[j].id
            && after.videos@[i].path@ != after.videos@[j].path@ by {
            assert(places[i] < places[j]);
            assert(before.videos@[places[i]] == after.videos@[i]);
            assert(before.videos@[places[j]] == after.videos@[j]);
        }
    }
    lemma_sub_links(before.links@, link_spared(ids));
    rows::lemma_having(before.links@, link_spared(ids));
    assert forall|k: int| 0 <= k < after.links@.len() implies has_session_id(
        after.sessions@,
        (#[trigger] after.links@[k]).session_id,
    ) && has_video_id(after.videos@, after.links@[k].video_id) by {
        let link = after.links@[k];
        assert(before.links@.contains(link));
        let j = choose|j: int| 0 <= j < before.links@.len() && before.links@[j] == link;
        assert(has_video_id(before.videos@, before.links@[j].video_id));
        lemma_video_stays(before.videos@, ids, link.video_id);
    }
    assert forall|id: i64|
        has_video_id(before.videos@, id) && !ids.contains(id) implies #[trigger] has_video_id(
        after.videos@,
        id,
    ) by {
        lemma_video_stays(before.videos@, ids, id);
    }
    lemma_ai_drop_keeps_ok(before, after, ids);
}

proof fn lemma_ai_drop_keeps_ok(before: VideoIndex, after: VideoIndex, ids: Seq<i64>)
    requires
        before.wf(),
        ai_rows_dropped(before, after, ids),
        same_models(before, after),
        forall|id: i64|
            has_video_id(before.videos@, id) && !ids.contains(id) ==> #[trigger] has_video_id(
                after.videos@,
                id,
            ),
    ensures
        frames_ok(after.frame_embeddings@, after.videos@, after.models@),
        scores_ok(after.pair_scores@, after.videos@, after.models@),
        edges_ok(after.match_edges@, after.videos@, after.models@),
{
    let f = rows::lemma_having_places(before.frame_embeddings@, frame_spared(ids));
    rows::lemma_having(before.frame_embeddings@, frame_spared(ids));
    assert forall|k: int| 0 <= k < after.frame_embeddings@.len() implies has_video_id(
        after.videos@,
        (#[trigger] after.frame_embeddings@[k]).video_id,
    ) && has_model_id(after.models@, after.frame_embeddings@[k].model_id@) by {
        assert(before.frame_embeddings@[f[k]] == after.frame_embeddings@[k]);
    }
    assert forall|i: int, j: int|
        #![trigger after.frame_embeddings@[i], after.frame_embeddings@[j]]
        0 <= i < j < after.frame_embeddings@.len() implies !same_frame_key(
        after.frame_embeddings@[i],
        after.frame_embeddings@[j],
    ) by {
        assert(f[i] < f[j]);
        assert(before.frame_embeddings@[f[i]] == after.frame_embeddings@[i]);
        assert(before.frame_embeddings@[f[j]] == after.frame_embeddings@[j]);
    }
    let s = rows::lemma_having_places(before.pair_scores@, score_spared(ids));
    rows::lemma_having(before.pair_scores@, score_spared(ids));
    assert forall|k: int| 0 <= k < after.pair_scores@.len() implies {
        &&& (#[trigger] after.pair_scores@[k]).video_a_id < after.pair_scores@[k].video_b_id
        &&& has_video_id(after.videos@, after.pair_scores@[k].video_a_id)
        &&& has_video_id(after.videos@, after.pair_scores@[k].video_b_id)
        &&& has_model_id(after.models@, after.pair_scores@[k].model_id@)
    } by {
        assert(before.pair_scores@[s[k]] == after.pair_scores@[k]);
    }
    assert forall|i: int, j: int|
        #![trigger after.pair_scores@[i], after.pair_scores@[j]]
        0 <= i < j < after.pair_scores@.len() implies !same_score_key(
        after.pair_scores@[i],
        after.pair_scores@[j],
    ) by {
        assert(s[i] < s[j]);
        assert(before.pair_scores@[s[i]] == after.pair_scores@[i]);
        assert(before.pair_scores@[s[j]] == after.pair_scores@[j]);
    }
    let e = rows::lemma_having_places(before.match_edges@, edge_spared(ids));
    rows::lemma_having(before.match_edges@, edge_spared(ids));
    assert forall|k: int| 0 <= k < after.match_edges@.len() implies {
        &&& (#[trigger] after.match_edges@[k]).video_a_id < after.match_edges@[k].video_b_id
        &&& has_video_id(after.videos@, after.match_edges@[k].video_a_id)
        &&& has_video_id(after.videos@, after.match_edges@[k].video_b_id)
        &&& has_model_id(after.models@, after.match_edges@[k].model_id@)
    } by {
        assert(before.match_edges@[e[k]] == after.match_edges@[k]);
    }
    assert forall|i: int, j: int|
        #![trigger after.match_edges@[i], after.match_edges@[j]]
        0 <= i < j < after.match_edges@.len() implies !same_edge_key(
        after.match_edges@[i],
        after.match_edges@[j],
    ) by {
        assert(e[i] < e[j]);
        assert(before.match_edges@[e[i]] == after.match_edges@[i]);
        assert(before.match_edges@[e[j]] == after.match_edges@[j]);
    }
}

/// Keeps the embeddings that are of none of the given videos.
fn spare_frames(table: Vec<FrameEmbeddingRecord>, ids: &Vec<i64>) -> (r: Vec<FrameEmbeddingRecord>)
    ensures
        r@ == rows::having(table@, frame_spared(ids@)),
        r@.len() <= table@.len(),
{
    let mut marks: Vec<bool> = Vec::new();
    let mut i: usize = 0;
    while i < table.len()
        invariant
            i <= table@.len(),
            marks@.len() == i,
            forall|k: int| 0 <= k < i ==> #[trigger] marks@[k] == frame_spared(ids@)(table@[k]),
        decreases table@.len() - i,
    {
        marks.push(!has_id(ids, table[i].video_id));
        i += 1;
    }
    proof {
        rows::lemma_marked_having(table@, marks@, frame_spared(ids@));
        rows::lemma_having(table@, frame_spared(ids@));
    }
    keep_marked(table, &marks)
}

/// Keeps the pair scores that are of none of the given videos.
fn spare_scores(table: Vec<AiPairScoreRecord>, ids: &Vec<i64>) -> (r: Vec<AiPairScoreRecord>)
    ensures
        r@ == rows::having(table@, score_spared(ids@)),
        r@.len() <= table@.len(),
{
    let mut marks: Vec<bool> = Vec::new();
    let mut i: usize = 0;
    while i < table.len()
        invariant
            i <= table@.len(),
            marks@.len() == i,
            forall|k: int| 0 <= k < i ==> #[trigger] marks@[k] == score_spared(ids@)(table@[k]),
        decreases table@.len() - i,
    {
        marks.push(!has_id(ids, table[i].video_a_id) && !has_id(ids, table[i].video_b_id));
        i += 1;
    }
    proof {
        rows::lemma_marked_having(table@, marks@, score_spared(ids@));
        rows::lemma_having(table@, score_spared(ids@));
    }
    keep_marked(table, &marks)
}

/// Keeps the verdicts that are on none of the given videos.
fn spare_edges(table: Vec<MatchEdge>, ids: &Vec<i64>) -> (r: Vec<MatchEdge>)
    ensures
        r@ == rows::having(table@, edge_spared(ids@)),
        r@.len() <= table@.len(),
{
    let mut marks: Vec<bool> = Vec::new();
    let mut i: usize = 0;
    while i < table.len()
        invariant
            i <= table@.len(),
            marks@.len() == i,
            forall|k: int| 0 <= k < i ==> #[trigger] marks@[k] == edge_spared(ids@)(table@[k]),
        decreases table@.len() - i,
    {
        marks.push(!has_id(ids, table[i].video_a_id) && !has_id(ids, table[i].video_b_id));
        i += 1;
    }
    proof {
        rows::lemma_marked_having(table@, marks@, edge_spared(ids@));
        rows::lemma_having(table@, edge_spared(ids@));
    }
    keep_marked(table, &marks)
}

/// Keeps the links that are to none of the given videos.
fn spare_links(table: Vec<SessionLink>, ids: &Vec<i64>) -> (r: Vec<SessionLink>)
    ensures
        r@ == rows::having(table@, link_spared(ids@)),
        r@.len() <= table@.len(),
{
    let mut marks: Vec<bool> = Vec::new();
    let mut i: usize = 0;
    while i < table.len()
        invariant
            i <= table@.len(),
            marks@.len() == i,
            forall|k: int| 0 <= k < i ==> #[trigger] marks@[k] == link_spared(ids@)(table@[k]),
        decreases table@.len() - i,
    {
        marks.push(!has_id(ids, table[i].video_id));
        i += 1;
    }
    proof {
        rows::lemma_marked_having(table@, marks@, link_spared(ids@));
        rows::lemma_having(table@, link_spared(ids@));
    }
    keep_marked(table, &marks)
}

/// Keeps the videos that are none of those with the given ids.
fn spare_videos(table: Vec<VideoRecord>, ids: &Vec<i64>) -> (r: Vec<VideoRecord>)
    ensures
        r@ == rows::having(table@, video_spared(ids@)),
        r@.len() <= table@.len(),
{
    let mut marks: Vec<bool> = Vec::new();
    let mut i: usize = 0;
    while i < table.len()
        invariant
            i <= table@.len(),
            marks@.len() == i,
            forall|k: int| 0 <= k < i ==> #[trigger] marks@[k] == video_spared(ids@)(table@[k]),
        decreases table@.len() - i,
    {
        let keep = match table[i].id {
            Some(id) => !has_id(ids, id),
            None => true,
        };
        marks.push(keep);
        i += 1;
    }
    proof {
        rows::lemma_marked_having(table@, marks@, video_spared(ids@));
        rows::lemma_having(table@, video_spared(ids@));
    }
    keep_marked(table, &marks)
}

impl VideoIndex {
    /// Removes what the model found of the given videos.
    pub fn drop_ai_rows(&mut self, ids: &Vec<i64>)
        requires
            old(self).wf(),
        ensures
            final(self).wf(),
            ai_rows_dropped(*old(self), *final(self), ids@),
            final(self).videos@ == old(self).videos@,
            final(self).links@ == old(self).links@,
            final(self).next_video_id == old(self).next_video_id,
            same_sessions(*old(self), *final(self)),
            same_models(*old(self), *final(self)),
    {
        let ghost before = *self;
        let mut scores: Vec<AiPairScoreRecord> = Vec::new();
        std::mem::swap(&mut scores, &mut self.pair_scores);
        self.pair_scores = spare_scores(scores, ids);
        let mut edges: Vec<MatchEdge> = Vec::new();
        std::mem::swap(&mut edges, &mut self.match_edges);
        self.match_edges = spare_edges(edges, ids);
        let mut frames: Vec<FrameEmbeddingRecord> = Vec::new();
        std::mem::swap(&mut frames, &mut self.frame_embeddings);
        self.frame_embeddings = spare_frames(frames, ids);
        proof {
            lemma_ai_drop_keeps_ok(before, *self, ids@);
        }
    }

    /// Removes the given videos and all that refers to them, and counts the rows.
    pub fn drop_videos(&mut self, ids: &Vec<i64>) -> (r: DeletedVideoRows)
        requires
            old(self).wf(),
        ensures
            final(self).wf(),
            videos_dropped(*old(self), *final(self), ids@),
            rows_lost(*old(self), *final(self), r),
    {
        let ghost before = *self;
        let videos_before: usize = self.videos.len();
        let scores_before: usize = self.pair_scores.len();
        let edges_before: usize = self.match_edges.len();
        let frames_before: usize = self.frame_embeddings.len();
        let mut scores: Vec<AiPairScoreRecord> = Vec::new();
        std::mem::swap(&mut scores, &mut self.pair_scores);
        self.pair_scores = spare_scores(scores, ids);
        let mut edges: Vec<MatchEdge> = Vec::new();
        std::mem::swap(&mut edges, &mut self.match_edges);
        self.match_edges = spare_edges(edges, ids);
        let mut frames: Vec<FrameEmbeddingRecord> = Vec::new();
        std::mem::swap(&mut frames, &mut self.frame_embeddings);
        self.frame_embeddings = spare_frames(frames, ids);
        let mut links: Vec<SessionLink> = Vec::new();
        std::mem::swap(&mut links, &mut self.links);
        self.links = spare_links(links, ids);
        let mut videos: Vec<VideoRecord> = Vec::new();
        std::mem::swap(&mut videos, &mut self.videos);
        self.videos = spare_videos(videos, ids);
        proof {
            lemma_drop_keeps_wf(before, *self, ids@);
        }
        DeletedVideoRows {
            videos: videos_before - self.videos.len(),
            pair_scores: scores_before - self.pair_scores.len(),
            match_edges: edges_before - self.match_edges.len(),
            frame_embeddings: frames_before - self.frame_embeddings.len(),
        }
    }
}

} // verus!
