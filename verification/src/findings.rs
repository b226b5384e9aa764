//! What the embedding model found, in the index: models, embeddings of frames, and scores of pairs.
use crate::index;
use crate::index::{EmbeddingModel, MatchEdge, VideoIndex};
use crate::models;
use crate::models::{AiPairScoreRecord, FrameEmbeddingRecord};
use crate::rows;
use crate::rows::{has_id, keep_marked};
use crate::scans;
use crate::text::same_text;
use vstd::prelude::*;
use vstd::string::*;

verus! {

/// Whether an embedding is of a video under a model.
pub open spec fn is_frame_of(frame: FrameEmbeddingRecord, video_id: i64, model: Seq<char>) -> bool {
    frame.video_id == video_id && frame.model_id@ == model
}

/// Tells the embeddings of a video under a model.
pub open spec fn own_frames(video_id: i64, model: Seq<char>) -> spec_fn(FrameEmbeddingRecord) -> bool {
    |frame: FrameEmbeddingRecord| is_frame_of(frame, video_id, model)
}

/// The number of embeddings of a video under a model, among the first `n` ones.
pub open spec fn frame_count(
    frames: Seq<FrameEmbeddingRecord>,
    video_id: i64,
    model: Seq<char>,
    n: int,
) -> nat
    decreases n,
{
    if n <= 0 {
        0
    } else {
        frame_count(frames, video_id, model, n - 1) + (if is_frame_of(
            frames[n - 1],
            video_id,
            model,
        ) {
            1nat
        } else {
            0
        })
    }
}

/// Whether a score is under a model and of a video.
pub open spec fn score_touches(score: AiPairScoreRecord, video_id: i64, model: Seq<char>) -> bool {
    score.model_id@ == model && (score.video_a_id == video_id || score.video_b_id == video_id)
}

/// Whether a verdict is under a model and on a video.
pub open spec fn edge_touches(edge: MatchEdge, video_id: i64, model: Seq<char>) -> bool {
    edge.model_id@ == model && (edge.video_a_id == video_id || edge.video_b_id == video_id)
}

/// The scores that are not of a video under a model.
pub open spec fn other_scores(video_id: i64, model: Seq<char>) -> spec_fn(AiPairScoreRecord) -> bool {
    |s: AiPairScoreRecord| !score_touches(s, video_id, model)
}

/// The verdicts that are not on a video under a model.
pub open spec fn other_edges(video_id: i64, model: Seq<char>) -> spec_fn(MatchEdge) -> bool {
    |e: MatchEdge| !edge_touches(e, video_id, model)
}

/// The embeddings that are not of a video under a model.
pub open spec fn other_frames(video_id: i64, model: Seq<char>) -> spec_fn(FrameEmbeddingRecord) -> bool {
    |f: FrameEmbeddingRecord| !is_frame_of(f, video_id, model)
}

/// Whether an embedding is that of another record, put under a video and a model.
pub open spec fn same_frame(
    frame: FrameEmbeddingRecord,
    source: FrameEmbeddingRecord,
    video_id: i64,
    model: Seq<char>,
) -> bool {
    &&& frame.video_id == video_id
    &&& frame.model_id@ == model
    &&& frame.frame_index == source.frame_index
    &&& frame.timestamp_seconds == source.timestamp_seconds
    &&& frame.embedding@ == source.embedding@
    &&& frame.norm == source.norm
}

/// Whether no two records are of the same frame.
pub open spec fn frames_distinct(list: Seq<FrameEmbeddingRecord>) -> bool {
    forall|i: int, j: int|
        #![trigger list[i], list[j]]
        0 <= i < j < list.len() ==> list[i].frame_index != list[j].frame_index
}

/// Whether `after` is `before` with the embeddings of a video under a model exchanged for those
/// of `list`.
pub open spec fn frames_put(
    before: Seq<FrameEmbeddingRecord>,
    after: Seq<FrameEmbeddingRecord>,
    list: Seq<FrameEmbeddingRecord>,
    video_id: i64,
    model: Seq<char>,
) -> bool {
    let kept = rows::having(before, other_frames(video_id, model));
    &&& after.len() == kept.len() + list.len()
    &&& after.take(kept.len() as int) == kept
    &&& forall|k: int|
        #![trigger list[k]]
        0 <= k < list.len() ==> same_frame(after[kept.len() + k], list[k], video_id, model)
}

proof fn lemma_frames_put_ok(
    before: VideoIndex,
    after: Seq<FrameEmbeddingRecord>,
    list: Seq<FrameEmbeddingRecord>,
    video_id: i64,
    model: Seq<char>,
)
    requires
        before.wf(),
        frames_distinct(list),
        list.len() > 0 ==> index::has_video_id(before.videos@, video_id) && index::has_model_id(
            before.models@,
            model,
        ),
        frames_put(before.frame_embeddings@, after, list, video_id, model),
    ensures
        index::frames_ok(after, before.videos@, before.models@),
{
    let keep = other_frames(video_id, model);
    let kept = rows::having(before.frame_embeddings@, keep);
    let places = rows::lemma_having_places(before.frame_embeddings@, keep);
    rows::lemma_having(before.frame_embeddings@, keep);
    assert forall|k: int| 0 <= k < kept.len() implies #[trigger] after[k] == kept[k] by {
        assert(after.take(kept.len() as int)[k] == kept[k]);
    }
    assert forall|k: int| 0 <= k < after.len() implies index::has_video_id(
        before.videos@,
        (#[trigger] after[k]).video_id,
    ) && index::has_model_id(before.models@, after[k].model_id@) by {
        if k < kept.len() {
            assert(before.frame_embeddings@[places[k]] == after[k]);
        } else {
            let source = list[k - kept.len()];
            assert(same_frame(after[kept.len() + (k - kept.len())], source, video_id, model));
        }
    }
    assert forall|i: int, j: int|
        #![trigger after[i], after[j]]
        0 <= i < j < after.len() implies !index::same_frame_key(after[i], after[j]) by {
        if j < kept.len() {
            assert(places[i] < places[j]);
            assert(before.frame_embeddings@[places[i]] == after[i]);
            assert(before.frame_embeddings@[places[j]] == after[j]);
        } else {
            let b = list[j - kept.len()];
            assert(same_frame(after[kept.len() + (j - kept.len())], b, video_id, model));
            if i < kept.len() {
                assert(keep(kept[i]));
            } else {
                let a = list[i - kept.len()];
                assert(same_frame(after[kept.len() + (i - kept.len())], a, video_id, model));
                assert(a.frame_index != b.frame_index);
            }
        }
    }
}

proof fn lemma_sub_scores_ok(before: VideoIndex, keep: spec_fn(AiPairScoreRecord) -> bool)
    requires
        before.wf(),
    ensures
        index::scores_ok(rows::having(before.pair_scores@, keep), before.videos@, before.models@),
        rows::having(before.pair_scores@, keep).len() <= before.pair_scores@.len(),
{
    let after = rows::having(before.pair_scores@, keep);
    let places = rows::lemma_having_places(before.pair_scores@, keep);
    rows::lemma_having(before.pair_scores@, keep);
    assert forall|k: int| 0 <= k < after.len() implies {
        &&& (#[trigger] after[k]).video_a_id < after[k].video_b_id
        &&& index::has_video_id(before.videos@, after[k].video_a_id)
        &&& index::has_video_id(before.videos@, after[k].video_b_id)
        &&& index::has_model_id(before.models@, after[k].model_id@)
    } by {
        assert(before.pair_scores@[places[k]] == after[k]);
    }
    assert forall|i: int, j: int|
        #![trigger after[i], after[j]]
        0 <= i < j < after.len() implies !index::same_score_key(after[i], after[j]) by {
        assert(places[i] < places[j]);
        assert(before.pair_scores@[places[i]] == after[i]);
        assert(before.pair_scores@[places[j]] == after[j]);
    }
}

proof fn lemma_sub_edges_ok(before: VideoIndex, keep: spec_fn(MatchEdge) -> bool)
    requires
        before.wf(),
    ensures
        index::edges_ok(rows::having(before.match_edges@, keep), before.videos@, before.models@),
{
    let after = rows::having(before.match_edges@, keep);
    let places = rows::lemma_having_places(before.match_edges@, keep);
    assert forall|k: int| 0 <= k < after.len() implies {
        &&& (#[trigger] after[k]).video_a_id < after[k].video_b_id
        &&& index::has_video_id(before.videos@, after[k].video_a_id)
        &&& index::has_video_id(before.videos@, after[k].video_b_id)
        &&& index::has_model_id(before.models@, after[k].model_id@)
    } by {
        assert(before.match_edges@[places[k]] == after[k]);
    }
    assert forall|i: int, j: int|
        #![trigger after[i], after[j]]
        0 <= i < j < after.len() implies !index::same_edge_key(after[i], after[j]) by {
        assert(places[i] < places[j]);
        assert(before.match_edges@[places[i]] == after[i]);
        assert(before.match_edges@[places[j]] == after[j]);
    }
}

/// Keeps the scores that are not of a video under a model.
fn drop_scores_of(table: Vec<AiPairScoreRecord>, video_id: i64, model: &str) -> (r: Vec<
    AiPairScoreRecord,
>)
    ensures
        r@ == rows::having(table@, other_scores(video_id, model@)),
{
    let mut marks: Vec<bool> = Vec::new();
    let mut i: usize = 0;
    while i < table.len()
        invariant
            i <= table@.len(),
            marks@.len() == i,
            forall|k: int|
                0 <= k < i ==> #[trigger] marks@[k] == other_scores(video_id, model@)(table@[k]),
        decreases table@.len() - i,
    {
        let touches = same_text(table[i].model_id.as_str(), model) && (table[i].video_a_id
            == video_id || table[i].video_b_id == video_id);
        marks.push(!touches);
        i += 1;
    }
    proof {
        rows::lemma_marked_having(table@, marks@, other_scores(video_id, model@));
    }
    keep_marked(table, &marks)
}

/// Keeps the verdicts that are not on a video under a model.
fn drop_edges_of(table: Vec<MatchEdge>, video_id: i64, model: &str) -> (r: Vec<MatchEdge>)
    ensures
        r@ == rows::having(table@, other_edges(video_id, model@)),
{
    let mut marks: Vec<bool> = Vec::new();
    let mut i: usize = 0;
    while i < table.len()
        invariant
            i <= table@.len(),
            marks@.len() == i,
            forall|k: int|
                0 <= k < i ==> #[trigger] marks@[k] == other_edges(video_id, model@)(table@[k]),
        decreases table@.len() - i,
    {
        let touches = same_text(table[i].model_id.as_str(), model) && (table[i].video_a_id
            == video_id || table[i].video_b_id == video_id);
        marks.push(!touches);
        i += 1;
    }
    proof {
        rows::lemma_marked_having(table@, marks@, other_edges(video_id, model@));
    }
    keep_marked(table, &marks)
}

/// Keeps the embeddings that are not of a video under a model.
fn drop_frames_of(table: Vec<FrameEmbeddingRecord>, video_id: i64, model: &str) -> (r: Vec<
    FrameEmbeddingRecord,
>)
    ensures
        r@ == rows::having(table@, other_frames(video_id, model@)),
{
    let mut marks: Vec<bool> = Vec::new();
    let mut i: usize = 0;
    while i < table.len()
        invariant
            i <= table@.len(),
            marks@.len() == i,
            forall|k: int|
                0 <= k < i ==> #[trigger] marks@[k] == other_frames(video_id, model@)(table@[k]),
        decreases table@.len() - i,
    {
        let own = table[i].video_id == video_id && same_text(table[i].model_id.as_str(), model);
        marks.push(!own);
        i += 1;
    }
    proof {
        rows::lemma_marked_having(table@, marks@, other_frames(video_id, model@));
    }
    keep_marked(table, &marks)
}

/// Copies the coordinates of an embedding.
fn copy_coordinates(list: &Vec<u32>) -> (r: Vec<u32>)
    ensures
        r@ == list@,
{
    let mut out: Vec<u32> = Vec::new();
    let mut i: usize = 0;
    while i < list.len()
        invariant
            i <= list@.len(),
            out@ == list@.take(i as int),
        decreases list@.len() - i,
    {
        out.push(list[i]);
        i += 1;
    }
    out
}

/// Puts copies of embeddings under a video and a model.
fn copy_frames(list: &Vec<FrameEmbeddingRecord>, video_id: i64, model: &str) -> (r: Vec<
    FrameEmbeddingRecord,
>)
    ensures
        r@.len() == list@.len(),
        forall|k: int|
            #![trigger list@[k]]
            0 <= k < list@.len() ==> same_frame(r@[k], list@[k], video_id, model@),
{
    let mut out: Vec<FrameEmbeddingRecord> = Vec::new();
    let mut i: usize = 0;
    while i < list.len()
        invariant
            i <= list@.len(),
            out@.len() == i,
            forall|k: int|
                #![trigger list@[k]]
                0 <= k < i ==> same_frame(out@[k], list@[k], video_id, model@),
        decreases list@.len() - i,
    {
        out.push(
            FrameEmbeddingRecord {
                video_id,
                model_id: model.to_owned(),
                frame_index: list[i].frame_index,
                timestamp_seconds: list[i].timestamp_seconds,
                embedding: copy_coordinates(&list[i].embedding),
                norm: list[i].norm,
            },
        );
        i += 1;
    }
    out
}

/// Whether no two records are of the same frame.
fn are_frames_distinct(list: &Vec<FrameEmbeddingRecord>) -> (r: bool)
    ensures
        r == frames_distinct(list@),
{
    let mut i: usize = 0;
    while i < list.len()
        invariant
            i <= list@.len(),
            forall|a: int, b: int|
                #![trigger list@[a], list@[b]]
                0 <= a < b < i ==> list@[a].frame_index != list@[b].frame_index,
        decreases list@.len() - i,
    {
        let mut j: usize = 0;
        while j < i
            invariant
                j <= i < list@.len(),
                forall|a: int|
                    0 <= a < j ==> (#[trigger] list@[a]).frame_index
                        != list@[i as int].frame_index,
            decreases i - j,
        {
            if list[j].frame_index == list[i].frame_index {
                assert(list@[j as int].frame_index == list@[i as int].frame_index);
                return false;
            }
            j += 1;
        }
        i += 1;
    }
    true
}

/// A record of a model with its values.
pub open spec fn model_is(
    row: EmbeddingModel,
    model_id: Seq<char>,
    name: Seq<char>,
    dimension: usize,
    runtime: Seq<char>,
    model_path: Seq<char>,
    model_file_hash: Seq<char>,
    created_unix_ms: i64,
) -> bool {
    &&& row.model_id@ == model_id
    &&& row.name@ == name
    &&& row.dimension == dimension
    &&& row.runtime@ == runtime
    &&& row.model_path@ == model_path
    &&& row.model_file_hash@ == model_file_hash
    &&& row.created_unix_ms == created_unix_ms
}

/// Whether a model was recorded: one with the id is written anew, but for its time; else it comes
/// last. The other models stay as they are.
pub open spec fn model_recorded(
    before: Seq<EmbeddingModel>,
    after: Seq<EmbeddingModel>,
    model_id: Seq<char>,
    name: Seq<char>,
    dimension: usize,
    runtime: Seq<char>,
    model_path: Seq<char>,
    model_file_hash: Seq<char>,
    created_unix_ms: i64,
) -> bool {
    if index::has_model_id(before, model_id) {
        &&& after.len() == before.len()
        &&& forall|k: int|
            #![trigger after[k]]
            0 <= k < before.len() ==> if before[k].model_id@ == model_id {
                model_is(
                    after[k],
                    model_id,
                    name,
                    dimension,
                    runtime,
                    model_path,
                    model_file_hash,
                    before[k].created_unix_ms,
                )
            } else {
                after[k] == before[k]
            }
    } else {
        &&& after.len() == before.len() + 1
        &&& after.drop_last() == before
        &&& model_is(
            after.last(),
            model_id,
            name,
            dimension,
            runtime,
            model_path,
            model_file_hash,
            created_unix_ms,
        )
    }
}

impl VideoIndex {
    /// The position of the model with an id.
    fn model_position(&self, model_id: &str) -> (r: Option<usize>)
        ensures
            r is Some == index::has_model_id(self.models@, model_id@),
            r matches Some(i) ==> i < self.models@.len() && self.models@[i as int].model_id@
                == model_id@,
    {
        let mut i: usize = 0;
        while i < self.models.len()
            invariant
                i <= self.models@.len(),
                forall|k: int| 0 <= k < i ==> (#[trigger] self.models@[k]).model_id@ != model_id@,
            decreases self.models@.len() - i,
        {
            if same_text(self.models[i].model_id.as_str(), model_id) {
                assert(self.models@[i as int].model_id@ == model_id@);
                return Some(i);
            }
            i += 1;
        }
        None
    }

    /// Records a model; one with the id is written anew, but for its time.
    pub fn upsert_embedding_model(
        &mut self,
        model_id: &str,
        name: &str,
        dimension: usize,
        runtime: &str,
        model_path: &str,
        model_file_hash: &str,
        created_unix_ms: i64,
    )
        requires
            old(self).wf(),
        ensures
            final(self).wf(),
            scans::same_videos(*old(self), *final(self)),
            index::same_sessions(*old(self), *final(self)),
            index::same_ai_rows(*old(self), *final(self)),
            final(self).links@ == old(self).links@,
            index::has_model_id(final(self).models@, model_id@),
            model_recorded(
                old(self).models@,
                final(self).models@,
                model_id@,
                name@,
                dimension,
                runtime@,
                model_path@,
                model_file_hash@,
                created_unix_ms,
            ),
    {
        let ghost before = *self;
        match self.model_position(model_id) {
            Some(at) => {
                let row = EmbeddingModel {
                    model_id: model_id.to_owned(),
                    name: name.to_owned(),
                    dimension,
                    runtime: runtime.to_owned(),
                    model_path: model_path.to_owned(),
                    model_file_hash: model_file_hash.to_owned(),
                    created_unix_ms: self.models[at].created_unix_ms,
                };
                self.models.set(at, row);
                proof {
                    assert forall|k: int| 0 <= k < before.models@.len() && k != at implies (
                    #[trigger] before.models@[k]).model_id@ != model_id@ by {
                        if k < at {
                            assert(before.models@[k].model_id@
                                != before.models@[at as int].model_id@);
                        } else {
                            assert(before.models@[at as int].model_id@
                                != before.models@[k].model_id@);
                        }
                    }
                    assert forall|a: int, b: int|
                        #![trigger self.models@[a], self.models@[b]]
                        0 <= a < b < self.models@.len() implies self.models@[a].model_id@
                        != self.models@[b].model_id@ by {
                        assert(before.models@[a].model_id@ != before.models@[b].model_id@);
                    }
                    assert forall|id: Seq<char>|
                        index::has_model_id(before.models@, id) implies #[trigger] index::has_model_id(
                        self.models@,
                        id,
                    ) by {
                        let k = choose|k: int|
                            0 <= k < before.models@.len() && (#[trigger] before.models@[k]).model_id@
                                == id;
                        assert(self.models@[k].model_id@ == id);
                    }
                    lemma_more_models_wf(before, *self);
                    assert(self.models@[at as int].model_id@ == model_id@);
                }
            },
            None => {
                self.models.push(
                    EmbeddingModel {
                        model_id: model_id.to_owned(),
                        name: name.to_owned(),
                        dimension,
                        runtime: runtime.to_owned(),
                        model_path: model_path.to_owned(),
                        model_file_hash: model_file_hash.to_owned(),
                        created_unix_ms,
                    },
                );
                proof {
                    assert(self.models@.drop_last() =~= before.models@);
                    assert forall|a: int, b: int|
                        #![trigger self.models@[a], self.models@[b]]
                        0 <= a < b < self.models@.len() implies self.models@[a].model_id@
                        != self.models@[b].model_id@ by {
                        assert(before.models@[a].model_id@ != model_id@);
                        if b < before.models@.len() {
                            assert(before.models@[a].model_id@ != before.models@[b].model_id@);
                        }
                    }
                    assert forall|id: Seq<char>|
                        index::has_model_id(before.models@, id) implies #[trigger] index::has_model_id(
                        self.models@,
                        id,
                    ) by {
                        let k = choose|k: int|
                            0 <= k < before.models@.len() && (#[trigger] before.models@[k]).model_id@
                                == id;
                        assert(self.models@[k].model_id@ == id);
                    }
                    lemma_more_models_wf(before, *self);
                    assert(self.models@[before.models@.len() as int].model_id@ == model_id@);
                }
            },
        }
    }

    /// The number of embeddings of a video under a model.
    pub fn count_frame_embeddings(&self, video_id: i64, model_id: &str) -> (r: usize)
        ensures
            r == frame_count(
                self.frame_embeddings@,
                video_id,
                model_id@,
                self.frame_embeddings@.len() as int,
            ),
    {
        let mut count: usize = 0;
        let mut i: usize = 0;
        while i < self.frame_embeddings.len()
            invariant
                i <= self.frame_embeddings@.len(),
                count == frame_count(self.frame_embeddings@, video_id, model_id@, i as int),
                count <= i,
            decreases self.frame_embeddings@.len() - i,
        {
            if self.frame_embeddings[i].video_id == video_id && same_text(
                self.frame_embeddings[i].model_id.as_str(),
                model_id,
            ) {
                count += 1;
            }
            i += 1;
        }
        count
    }

    /// Exchanges the embeddings of a video under a model, and drops the scores that rest on the
    /// old ones. Fails, and changes nothing, where the video or the model is not in the index or
    /// a frame comes twice.
    pub fn replace_frame_embeddings(
        &mut self,
        video_id: i64,
        model_id: &str,
        embeddings: &Vec<FrameEmbeddingRecord>,
    ) -> (r: Result<(), String>)
        requires
            old(self).wf(),
        ensures
            final(self).wf(),
            r is Ok == (frames_distinct(embeddings@) && (embeddings@.len() == 0 || (
            index::has_video_id(old(self).videos@, video_id) && index::has_model_id(
                old(self).models@,
                model_id@,
            )))),
            scans::same_videos(*old(self), *final(self)),
            index::same_sessions(*old(self), *final(self)),
            index::same_models(*old(self), *final(self)),
            final(self).links@ == old(self).links@,
            final(self).match_edges@ == old(self).match_edges@,
            r is Ok ==> {
                &&& final(self).pair_scores@ == rows::having(
                    old(self).pair_scores@,
                    other_scores(video_id, model_id@),
                )
                &&& frames_put(
                    old(self).frame_embeddings@,
                    final(self).frame_embeddings@,
                    embeddings@,
                    video_id,
                    model_id@,
                )
            },
            r is Err ==> *final(self) == *old(self),
            r matches Err(message) ==> message@ == (if index::has_video_id(
                old(self).videos@,
                video_id,
            ) && index::has_model_id(old(self).models@, model_id@) {
                "UNIQUE constraint failed: frame_embeddings.video_id, frame_embeddings.model_id, frame_embeddings.frame_index"@
            } else {
                "FOREIGN KEY constraint failed"@
            }),
    {
        let ghost before = *self;
        if embeddings.len() > 0 && (self.position_of(video_id).is_none() || self.model_position(
            model_id,
        ).is_none()) {
            return Err("FOREIGN KEY constraint failed".to_owned());
        }
        if !are_frames_distinct(embeddings) {
            return Err(
                "UNIQUE constraint failed: frame_embeddings.video_id, frame_embeddings.model_id, frame_embeddings.frame_index".to_owned(),
            );
        }
        let mut scores: Vec<AiPairScoreRecord> = Vec::new();
        std::mem::swap(&mut scores, &mut self.pair_scores);
        self.pair_scores = drop_scores_of(scores, video_id, model_id);
        let mut frames: Vec<FrameEmbeddingRecord> = Vec::new();
        std::mem::swap(&mut frames, &mut self.frame_embeddings);
        let mut kept = drop_frames_of(frames, video_id, model_id);
        let ghost left = kept@;
        let mut added = copy_frames(embeddings, video_id, model_id);
        let ghost new = added@;
        kept.append(&mut added);
        self.frame_embeddings = kept;
        proof {
            assert(self.frame_embeddings@ == left + new);
            assert(self.frame_embeddings@.take(left.len() as int) =~= left);
            lemma_sub_scores_ok(before, other_scores(video_id, model_id@));
            assert forall|k: int| 0 <= k < embeddings@.len() implies same_frame(
                self.frame_embeddings@[left.len() + k],
                #[trigger] embeddings@[k],
                video_id,
                model_id@,
            ) by {
                assert(self.frame_embeddings@[left.len() + k] == new[k]);
            }
            lemma_frames_put_ok(
                before,
                self.frame_embeddings@,
                embeddings@,
                video_id,
                model_id@,
            );
        }
        Ok(())
    }

    /// Gives a video the embeddings of another one under a model, and drops what rests on its old
    /// ones. Gives the number of embeddings. Fails, and changes nothing, where the video is not
    /// in the index and there is something to copy.
    pub fn copy_frame_embeddings_from_video(
        &mut self,
        source_video_id: i64,
        target_video_id: i64,
        model_id: &str,
    ) -> (r: Result<usize, String>)
        requires
            old(self).wf(),
        ensures
            final(self).wf(),
            scans::same_videos(*old(self), *final(self)),
            index::same_sessions(*old(self), *final(self)),
            index::same_models(*old(self), *final(self)),
            final(self).links@ == old(self).links@,
            ({
                let own = own_frames(source_video_id, model_id@);
                let source = rows::having(old(self).frame_embeddings@, own);
                if source_video_id == target_video_id {
                    r == Ok::<usize, String>(0) && *final(self) == *old(self)
                } else if source.len() > 0 && !index::has_video_id(
                    old(self).videos@,
                    target_video_id,
                ) {
                    &&& r matches Err(message) && message@ == "FOREIGN KEY constraint failed"@
                    &&& *final(self) == *old(self)
                } else {
                    &&& r matches Ok(count) && count == source.len()
                    &&& final(self).pair_scores@ == rows::having(
                        old(self).pair_scores@,
                        other_scores(target_video_id, model_id@),
                    )
                    &&& final(self).match_edges@ == rows::having(
                        old(self).match_edges@,
                        other_edges(target_video_id, model_id@),
                    )
                    &&& frames_put(
                        old(self).frame_embeddings@,
                        final(self).frame_embeddings@,
                        source,
                        target_video_id,
                        model_id@,
                    )
                }
            }),
    {
        if source_video_id == target_video_id {
            return Ok(0);
        }
        let ghost before = *self;
        let ghost own = own_frames(source_video_id, model_id@);
        let mut added: Vec<FrameEmbeddingRecord> = Vec::new();
        let mut i: usize = 0;
        while i < self.frame_embeddings.len()
            invariant
                i <= self.frame_embeddings@.len(),
                *self == before,
                own == own_frames(source_video_id, model_id@),
                added@.len() == rows::having(self.frame_embeddings@.take(i as int), own).len(),
                forall|k: int|
                    #![trigger added@[k]]
                    0 <= k < added@.len() ==> same_frame(
                        added@[k],
                        rows::having(self.frame_embeddings@.take(i as int), own)[k],
                        target_video_id,
                        model_id@,
                    ),
            decreases self.frame_embeddings@.len() - i,
        {
            assert(self.frame_embeddings@.take(i + 1).drop_last()
                =~= self.frame_embeddings@.take(i as int));
            let frame = &self.frame_embeddings[i];
            let ghost had = added@;
            let ghost part = rows::having(self.frame_embeddings@.take(i as int), own);
            if frame.video_id == source_video_id && same_text(frame.model_id.as_str(), model_id) {
                added.push(
                    FrameEmbeddingRecord {
                        video_id: target_video_id,
                        model_id: model_id.to_owned(),
                        frame_index: frame.frame_index,
                        timestamp_seconds: frame.timestamp_seconds,
                        embedding: copy_coordinates(&frame.embedding),
                        norm: frame.norm,
                    },
                );
                assert forall|k: int| 0 <= k < added@.len() implies same_frame(
                    #[trigger] added@[k],
                    part.push(*frame)[k],
                    target_video_id,
                    model_id@,
                ) by {
                    if k < had.len() {
                        assert(added@[k] == had[k]);
                    }
                }
            }
            i += 1;
        }
        assert(self.frame_embeddings@.take(i as int) =~= self.frame_embeddings@);
        let ghost source = rows::having(before.frame_embeddings@, own);
        if added.len() > 0 && self.position_of(target_video_id).is_none() {
            return Err("FOREIGN KEY constraint failed".to_owned());
        }
        let count: usize = added.len();
        let mut scores: Vec<AiPairScoreRecord> = Vec::new();
        std::mem::swap(&mut scores, &mut self.pair_scores);
        self.pair_scores = drop_scores_of(scores, target_video_id, model_id);
        let mut edges: Vec<MatchEdge> = Vec::new();
        std::mem::swap(&mut edges, &mut self.match_edges);
        self.match_edges = drop_edges_of(edges, target_video_id, model_id);
        let mut frames: Vec<FrameEmbeddingRecord> = Vec::new();
        std::mem::swap(&mut frames, &mut self.frame_embeddings);
        let mut kept = drop_frames_of(frames, target_video_id, model_id);
        let ghost left = kept@;
        let ghost new = added@;
        kept.append(&mut added);
        self.frame_embeddings = kept;
        proof {
            assert(self.frame_embeddings@ == left + new);
            assert(self.frame_embeddings@.take(left.len() as int) =~= left);
            lemma_sub_scores_ok(before, other_scores(target_video_id, model_id@));
            lemma_sub_edges_ok(before, other_edges(target_video_id, model_id@));
            assert forall|k: int| 0 <= k < source.len() implies same_frame(
                self.frame_embeddings@[left.len() + k],
                #[trigger] source[k],
                target_video_id,
                model_id@,
            ) by {
                assert(self.frame_embeddings@[left.len() + k] == new[k]);
            }
            let places = rows::lemma_having_places(before.frame_embeddings@, own);
            rows::lemma_having(before.frame_embeddings@, own);
            assert forall|a: int, b: int|
                #![trigger source[a], source[b]]
                0 <= a < b < source.len() implies source[a].frame_index
                != source[b].frame_index by {
                assert(places[a] < places[b]);
                assert(before.frame_embeddings@[places[a]] == source[a]);
                assert(before.frame_embeddings@[places[b]] == source[b]);
                assert(own(source[a]) && own(source[b]));
            }
            if source.len() > 0 {
                assert(own(source[0]));
                assert(before.frame_embeddings@[places[0]] == source[0]);
            }
            lemma_frames_put_ok(
                before,
                self.frame_embeddings@,
                source,
                target_video_id,
                model_id@,
            );
        }
        Ok(count)
    }
}

proof fn lemma_more_models_wf(before: VideoIndex, after: VideoIndex)
    requires
        before.wf(),
        index::models_ok(after.models@),
        forall|id: Seq<char>|
            index::has_model_id(before.models@, id) ==> #[trigger] index::has_model_id(
                after.models@,
                id,
            ),
        after.links@ == before.links@,
        scans::same_videos(before, after),
        index::same_sessions(before, after),
        index::same_ai_rows(before, after),
    ensures
        after.wf(),
{
    assert forall|k: int| 0 <= k < after.frame_embeddings@.len() implies index::has_video_id(
        after.videos@,
        (#[trigger] after.frame_embeddings@[k]).video_id,
    ) && index::has_model_id(after.models@, after.frame_embeddings@[k].model_id@) by {
        assert(index::has_model_id(before.models@, before.frame_embeddings@[k].model_id@));
    }
    assert forall|k: int| 0 <= k < after.pair_scores@.len() implies {
        &&& (#[trigger] after.pair_scores@[k]).video_a_id < after.pair_scores@[k].video_b_id
        &&& index::has_video_id(after.videos@, after.pair_scores@[k].video_a_id)
        &&& index::has_video_id(after.videos@, after.pair_scores@[k].video_b_id)
        &&& index::has_model_id(after.models@, after.pair_scores@[k].model_id@)
    } by {
        assert(index::has_model_id(before.models@, before.pair_scores@[k].model_id@));
    }
    assert forall|k: int| 0 <= k < after.match_edges@.len() implies {
        &&& (#[trigger] after.match_edges@[k]).video_a_id < after.match_edges@[k].video_b_id
        &&& index::has_video_id(after.videos@, after.match_edges@[k].video_a_id)
        &&& index::has_video_id(after.videos@, after.match_edges@[k].video_b_id)
        &&& index::has_model_id(after.models@, after.match_edges@[k].model_id@)
    } by {
        assert(index::has_model_id(before.models@, before.match_edges@[k].model_id@));
    }
}

/// Whether a score can be recorded: its ids are in order, and its videos and its model exist.
pub open spec fn score_fits(index: VideoIndex, score: AiPairScoreRecord) -> bool {
    &&& score.video_a_id < score.video_b_id
    &&& index::has_video_id(index.videos@, score.video_a_id)
    &&& index::has_video_id(index.videos@, score.video_b_id)
    &&& index::has_model_id(index.models@, score.model_id@)
}

/// Whether record `k` is the first of a list that cannot be recorded.
pub open spec fn is_first_misfit(index: VideoIndex, list: Seq<AiPairScoreRecord>, k: int) -> bool {
    &&& 0 <= k < list.len()
    &&& !score_fits(index, list[k])
    &&& forall|j: int| 0 <= j < k ==> score_fits(index, #[trigger] list[j])
}

/// Why a score cannot be recorded.
pub open spec fn misfit_message(score: AiPairScoreRecord) -> Seq<char> {
    if score.video_a_id < score.video_b_id {
        "FOREIGN KEY constraint failed"@
    } else {
        "CHECK constraint failed: video_a_id < video_b_id"@
    }
}

/// The position, from `from` on, of the score with a key; -1 without one.
pub open spec fn score_position(
    table: Seq<AiPairScoreRecord>,
    score: AiPairScoreRecord,
    from: int,
) -> int
    decreases table.len() - from,
{
    if from < 0 || from >= table.len() {
        -1
    } else if index::same_score_key(table[from], score) {
        from
    } else {
        score_position(table, score, from + 1)
    }
}

/// A table of scores with one more score: in the place of the one with its key, or at the end.
pub open spec fn score_put(table: Seq<AiPairScoreRecord>, score: AiPairScoreRecord) -> Seq<
    AiPairScoreRecord,
> {
    let at = score_position(table, score, 0);
    if at >= 0 {
        table.update(at, score)
    } else {
        table.push(score)
    }
}

/// A table of scores with the first `n` of a list put into it, in order.
pub open spec fn scores_put(
    table: Seq<AiPairScoreRecord>,
    list: Seq<AiPairScoreRecord>,
    n: int,
) -> Seq<AiPairScoreRecord>
    decreases n,
{
    if n <= 0 {
        table
    } else {
        score_put(scores_put(table, list, n - 1), list[n - 1])
    }
}

/// The position of a score is that of one with its key, where there is one.
pub proof fn lemma_score_position(table: Seq<AiPairScoreRecord>, score: AiPairScoreRecord, from: int)
    requires
        0 <= from,
    ensures
        ({
            let at = score_position(table, score, from);
            &&& at >= 0 ==> from <= at < table.len() && index::same_score_key(table[at], score)
            &&& at < 0 ==> at == -1 && forall|k: int|
                from <= k < table.len() ==> !index::same_score_key(#[trigger] table[k], score)
        }),
    decreases table.len() - from,
{
    if from < table.len() && !index::same_score_key(table[from], score) {
        lemma_score_position(table, score, from + 1);
    }
}

proof fn lemma_score_put_ok(index: VideoIndex, table: Seq<AiPairScoreRecord>, score: AiPairScoreRecord)
    requires
        index::scores_ok(table, index.videos@, index.models@),
        score_fits(index, score),
    ensures
        index::scores_ok(score_put(table, score), index.videos@, index.models@),
{
    let at = score_position(table, score, 0);
    lemma_score_position(table, score, 0);
    let after = score_put(table, score);
    assert forall|k: int| 0 <= k < after.len() implies {
        &&& (#[trigger] after[k]).video_a_id < after[k].video_b_id
        &&& index::has_video_id(index.videos@, after[k].video_a_id)
        &&& index::has_video_id(index.videos@, after[k].video_b_id)
        &&& index::has_model_id(index.models@, after[k].model_id@)
    } by {
        if k < table.len() {
            let x = table[k];
        }
    }
    assert forall|i: int, j: int|
        #![trigger after[i], after[j]]
        0 <= i < j < after.len() implies !index::same_score_key(after[i], after[j]) by {
        let x = table[i];
        if j < table.len() {
            let y = table[j];
            assert(!index::same_score_key(table[i], table[j]));
        } else {
            assert(!index::same_score_key(table[i], score));
        }
    }
}

/// Whether a score is under a model with other options than the given ones.
pub open spec fn is_stale(score: AiPairScoreRecord, model: Seq<char>, active: Seq<char>) -> bool {
    score.model_id@ == model && score.cache_key@ != active
}

/// Whether a score is one that a comparison of some videos can use again.
pub open spec fn is_wanted(
    score: AiPairScoreRecord,
    model: Seq<char>,
    key: Seq<char>,
    ids: Seq<i64>,
) -> bool {
    &&& score.model_id@ == model
    &&& score.cache_key@ == key
    &&& ids.contains(score.video_a_id)
    &&& ids.contains(score.video_b_id)
}

/// Whether one score stands before another one: by its first id, then by its second.
pub open spec fn pair_before(a: AiPairScoreRecord, b: AiPairScoreRecord) -> bool {
    a.video_a_id < b.video_a_id || (a.video_a_id == b.video_a_id && a.video_b_id < b.video_b_id)
}

/// Whether positions list the wanted scores in the order of their ids.
pub open spec fn lists_wanted(
    table: Seq<AiPairScoreRecord>,
    model: Seq<char>,
    key: Seq<char>,
    ids: Seq<i64>,
    listed: Seq<usize>,
) -> bool {
    &&& forall|k: int|
        0 <= k < listed.len() ==> (#[trigger] listed[k]) < table.len() && is_wanted(
            table[listed[k] as int],
            model,
            key,
            ids,
        )
    &&& forall|i: int|
        0 <= i < table.len() && is_wanted(#[trigger] table[i], model, key, ids) ==> listed.contains(
            i as usize,
        )
    &&& forall|a: int, b: int|
        #![trigger listed[a], listed[b]]
        0 <= a < b < listed.len() ==> pair_before(
            table[listed[a] as int],
            table[listed[b] as int],
        )
}

/// The number of listed scores whose first id is at most `limit`, among the first `n`.
pub open spec fn loaded_until(
    table: Seq<AiPairScoreRecord>,
    listed: Seq<usize>,
    limit: i64,
    n: int,
) -> nat
    decreases n,
{
    if n <= 0 {
        0
    } else {
        loaded_until(table, listed, limit, n - 1) + (if table[listed[n - 1] as int].video_a_id
            <= limit {
            1nat
        } else {
            0
        })
    }
}

/// Whether a list holds the numbers of another one in ascending order, each once.
pub open spec fn sorts(list: Seq<i64>, sorted: Seq<i64>) -> bool {
    &&& forall|x: i64| #[trigger] sorted.contains(x) <==> list.contains(x)
    &&& forall|a: int, b: int|
        #![trigger sorted[a], sorted[b]]
        0 <= a < b < sorted.len() ==> sorted[a] < sorted[b]
}

/// The numbers of a list in ascending order, each once.
pub fn sorted_unique(list: &Vec<i64>) -> (r: Vec<i64>)
    ensures
        sorts(list@, r@),
{
    let mut out: Vec<i64> = Vec::new();
    let mut i: usize = 0;
    while i < list.len()
        invariant
            i <= list@.len(),
            sorts(list@.take(i as int), out@),
        decreases list@.len() - i,
    {
        let id: i64 = list[i];
        let ghost before = out@;
        let ghost part = list@.take(i as int);
        assert(list@.take(i + 1) =~= part.push(id));
        proof {
            assert forall|x: i64| #[trigger] part.push(id).contains(x) <==> part.contains(x) || x
                == id by {
                if part.push(id).contains(x) {
                    let q = choose|q: int| 0 <= q < part.len() + 1 && part.push(id)[q] == x;
                    if q < part.len() {
                        assert(part[q] == x);
                    }
                }
                if part.contains(x) {
                    let q = choose|q: int| 0 <= q < part.len() && part[q] == x;
                    assert(part.push(id)[q] == x);
                }
                assert(part.push(id)[part.len() as int] == id);
            }
        }
        if has_id(&out, id) {
            assert forall|x: i64| #[trigger] out@.contains(x) <==> list@.take(i + 1).contains(
                x,
            ) by {
                assert(part.push(id).contains(x) <==> part.contains(x) || x == id);
            }
        } else {
            let mut p: usize = out.len();
            while p > 0 && out[p - 1] > id
                invariant
                    p <= out@.len(),
                    out@ == before,
                    forall|k: int| p <= k < out@.len() ==> (#[trigger] out@[k]) > id,
                decreases p,
            {
                p -= 1;
            }
            assert forall|k: int| 0 <= k < p implies (#[trigger] before[k]) < id by {
                assert(before.contains(before[k]));
                assert(before.contains(before[p - 1]));
                if k < p - 1 {
                    assert(before[k] < before[p - 1]);
                }
            }
            out.insert(p, id);
            proof {
                assert(out@[p as int] == id);
                assert forall|x: i64| #[trigger] out@.contains(x) <==> list@.take(i + 1).contains(
                    x,
                ) by {
                    assert(part.push(id).contains(x) <==> part.contains(x) || x == id);
                    if out@.contains(x) {
                        let q = choose|q: int| 0 <= q < out@.len() && out@[q] == x;
                        if q < p {
                            assert(before[q] == x);
                            assert(before.contains(x));
                        } else if q > p {
                            assert(before[q - 1] == x);
                            assert(before.contains(x));
                        }
                    }
                    if before.contains(x) {
                        let q = choose|q: int| 0 <= q < before.len() && before[q] == x;
                        if q < p {
                            assert(out@[q] == x);
                        } else {
                            assert(out@[q + 1] == x);
                        }
                    }
                }
                assert forall|a: int, b: int|
                    #![trigger out@[a], out@[b]]
                    0 <= a < b < out@.len() implies out@[a] < out@[b] by {
                    let x = if a < p {
                        a
                    } else {
                        a - 1
                    };
                    let y = if b < p {
                        b
                    } else {
                        b - 1
                    };
                    if a != p && b != p {
                        assert(out@[a] == before[x] && out@[b] == before[y]);
                    } else if a == p {
                        assert(out@[b] == before[y]);
                    } else {
                        assert(out@[a] == before[x]);
                    }
                }
            }
        }
        i += 1;
    }
    assert(list@.take(i as int) =~= list@);
    out
}

impl VideoIndex {
    /// The position of the score with the key of another one.
    fn find_score(&self, score: &AiPairScoreRecord) -> (r: Option<usize>)
        ensures
            r is Some == (score_position(self.pair_scores@, *score, 0) >= 0),
            r matches Some(i) ==> i == score_position(self.pair_scores@, *score, 0) && i
                < self.pair_scores@.len(),
    {
        let mut i: usize = 0;
        while i < self.pair_scores.len()
            invariant
                i <= self.pair_scores@.len(),
                score_position(self.pair_scores@, *score, i as int) == score_position(
                    self.pair_scores@,
                    *score,
                    0,
                ),
            decreases self.pair_scores@.len() - i,
        {
            let row = &self.pair_scores[i];
            if row.video_a_id == score.video_a_id && row.video_b_id == score.video_b_id
                && same_text(row.model_id.as_str(), score.model_id.as_str()) && same_text(
                row.cache_key.as_str(),
                score.cache_key.as_str(),
            ) {
                return Some(i);
            }
            i += 1;
        }
        None
    }

    /// Whether a score can be recorded.
    fn fits(&self, score: &AiPairScoreRecord) -> (r: bool)
        ensures
            r == score_fits(*self, *score),
    {
        score.video_a_id < score.video_b_id && self.position_of(score.video_a_id).is_some()
            && self.position_of(score.video_b_id).is_some() && self.model_position(
            score.model_id.as_str(),
        ).is_some()
    }

    /// Records scores, all or none: each takes the place of the one with its key, or is added.
    pub fn upsert_ai_pair_scores(&mut self, records: Vec<AiPairScoreRecord>) -> (r: Result<
        (),
        String,
    >)
        requires
            old(self).wf(),
        ensures
            final(self).wf(),
            scans::same_videos(*old(self), *final(self)),
            index::same_sessions(*old(self), *final(self)),
            index::same_models(*old(self), *final(self)),
            final(self).links@ == old(self).links@,
            final(self).match_edges@ == old(self).match_edges@,
            final(self).frame_embeddings@ == old(self).frame_embeddings@,
            r is Ok == forall|k: int|
                0 <= k < records@.len() ==> score_fits(*old(self), #[trigger] records@[k]),
            final(self).pair_scores@ == (if r is Ok {
                scores_put(old(self).pair_scores@, records@, records@.len() as int)
            } else {
                old(self).pair_scores@
            }),
            r matches Err(message) ==> exists|k: int| #[trigger]
                is_first_misfit(*old(self), records@, k) && message@ == misfit_message(records@[k]),
    {
        let ghost before = *self;
        let ghost list = records@;
        let mut i: usize = 0;
        while i < records.len()
            invariant
                i <= records@.len(),
                *self == before,
                before == *old(self),
                before.wf(),
                list == records@,
                forall|k: int| 0 <= k < i ==> score_fits(before, #[trigger] list[k]),
            decreases records@.len() - i,
        {
            if !self.fits(&records[i]) {
                assert(is_first_misfit(before, list, i as int));
                return Err(
                    if records[i].video_a_id < records[i].video_b_id {
                        "FOREIGN KEY constraint failed".to_owned()
                    } else {
                        "CHECK constraint failed: video_a_id < video_b_id".to_owned()
                    },
                );
            }
            i += 1;
        }
        let mut rest = records;
        let mut stack: Vec<AiPairScoreRecord> = Vec::new();
        let mut j: usize = rest.len();
        assert(list.take(j as int) =~= list);
        assert(list.skip(j as int).reverse() =~= stack@);
        while j > 0
            invariant
                j <= list.len(),
                rest@ == list.take(j as int),
                stack@ == list.skip(j as int).reverse(),
            decreases j,
        {
            j -= 1;
            if let Some(record) = rest.pop() {
                let ghost had = stack@;
                stack.push(record);
                assert(list.skip(j as int) =~= seq![record] + list.skip(j + 1));
                assert(list.skip(j as int).reverse() =~= had.push(record));
            }
        }
        let mut n: usize = 0;
        assert(list.skip(0) =~= list);
        while n < i
            invariant
                n <= i,
                i == list.len(),
                stack@ == list.skip(n as int).reverse(),
                self.wf(),
                scans::same_videos(before, *self),
                index::same_sessions(before, *self),
                index::same_models(before, *self),
                self.links@ == before.links@,
                self.match_edges@ == before.match_edges@,
                self.frame_embeddings@ == before.frame_embeddings@,
                forall|k: int| 0 <= k < list.len() ==> score_fits(before, #[trigger] list[k]),
                self.pair_scores@ == scores_put(before.pair_scores@, list, n as int),
            decreases i - n,
        {
            let ghost had = stack@;
            if let Some(record) = stack.pop() {
                proof {
                    assert(had.last() == list.skip(n as int)[0]);
                    assert(record == list[n as int]);
                    assert(stack@ =~= list.skip(n + 1).reverse());
                    assert(score_fits(before, list[n as int]));
                    lemma_score_put_ok(*self, self.pair_scores@, record);
                }
                match self.find_score(&record) {
                    Some(at) => {
                        self.pair_scores.set(at, record);
                    },
                    None => {
                        self.pair_scores.push(record);
                    },
                }
            }
            n += 1;
        }
        Ok(())
    }

    /// Removes the scores under a model that were made with other options, and counts them.
    pub fn prune_ai_pair_score_cache_keys(&mut self, model_id: &str, active_cache_key: &str) -> (r:
        usize)
        requires
            old(self).wf(),
        ensures
            final(self).wf(),
            scans::same_videos(*old(self), *final(self)),
            index::same_sessions(*old(self), *final(self)),
            index::same_models(*old(self), *final(self)),
            final(self).links@ == old(self).links@,
            final(self).match_edges@ == old(self).match_edges@,
            final(self).frame_embeddings@ == old(self).frame_embeddings@,
            final(self).pair_scores@ == rows::having(
                old(self).pair_scores@,
                |s: AiPairScoreRecord| !is_stale(s, model_id@, active_cache_key@),
            ),
            r == old(self).pair_scores@.len() - final(self).pair_scores@.len(),
    {
        let ghost before = *self;
        let ghost keep = |s: AiPairScoreRecord| !is_stale(s, model_id@, active_cache_key@);
        let count: usize = self.pair_scores.len();
        let mut marks: Vec<bool> = Vec::new();
        let mut i: usize = 0;
        while i < self.pair_scores.len()
            invariant
                i <= self.pair_scores@.len(),
                marks@.len() == i,
                keep == (|s: AiPairScoreRecord| !is_stale(s, model_id@, active_cache_key@)),
                forall|k: int| 0 <= k < i ==> #[trigger] marks@[k] == keep(self.pair_scores@[k]),
            decreases self.pair_scores@.len() - i,
        {
            let stale = same_text(self.pair_scores[i].model_id.as_str(), model_id) && !same_text(
                self.pair_scores[i].cache_key.as_str(),
                active_cache_key,
            );
            marks.push(!stale);
            i += 1;
        }
        proof {
            rows::lemma_marked_having(before.pair_scores@, marks@, keep);
            lemma_sub_scores_ok(before, keep);
        }
        let mut scores: Vec<AiPairScoreRecord> = Vec::new();
        std::mem::swap(&mut scores, &mut self.pair_scores);
        self.pair_scores = keep_marked(scores, &marks);
        count - self.pair_scores.len()
    }

    /// The positions of the scores of pairs among the given videos, under a model and with some
    /// options, in the order of their ids.
    #[verifier::rlimit(60)]
    fn wanted_positions(&self, model_id: &str, cache_key: &str, ids: &Vec<i64>) -> (r: Vec<usize>)
        requires
            self.wf(),
        ensures
            lists_wanted(self.pair_scores@, model_id@, cache_key@, ids@, r@),
    {
        let count: usize = self.pair_scores.len();
        let mut out: Vec<usize> = Vec::new();
        let mut i: usize = 0;
        assert(lists_wanted(
            self.pair_scores@.take(0),
            model_id@,
            cache_key@,
            ids@,
            out@,
        ));
        while i < count
            invariant
                i <= count,
                count == self.pair_scores@.len(),
                self.wf(),
                lists_wanted(
                    self.pair_scores@.take(i as int),
                    model_id@,
                    cache_key@,
                    ids@,
                    out@,
                ),
            decreases count - i,
        {
            let row = &self.pair_scores[i];
            let ghost before = out@;
            let ghost part = self.pair_scores@.take(i as int);
            let ghost now = self.pair_scores@.take(i + 1);
            assert forall|q: int| 0 <= q < part.len() implies #[trigger] now[q] == part[q] by {}
            assert(now[i as int] == *row);
            if same_text(row.model_id.as_str(), model_id) && same_text(
                row.cache_key.as_str(),
                cache_key,
            ) && has_id(ids, row.video_a_id) && has_id(ids, row.video_b_id) {
                assert(is_wanted(*row, model_id@, cache_key@, ids@));
                let mut p: usize = out.len();
                while p > 0 && !(self.pair_scores[out[p - 1]].video_a_id < row.video_a_id || (
                self.pair_scores[out[p - 1]].video_a_id == row.video_a_id && self.pair_scores[out[p
                    - 1]].video_b_id < row.video_b_id))
                    invariant
                        p <= out@.len(),
                        i < count,
                        count == self.pair_scores@.len(),
                        *row == self.pair_scores@[i as int],
                        out@ == before,
                        forall|q: int| 0 <= q < out@.len() ==> (#[trigger] out@[q]) < i,
                        forall|q: int|
                            p <= q < out@.len() ==> !pair_before(
                                self.pair_scores@[(#[trigger] out@[q]) as int],
                                *row,
                            ),
                    decreases p,
                {
                    p -= 1;
                }
                out.insert(p, i);
                proof {
                    assert(out@[p as int] == i);
                    assert forall|a: int| 0 <= a < out@.len() implies (#[trigger] out@[a])
                        < now.len() && is_wanted(
                        now[out@[a] as int],
                        model_id@,
                        cache_key@,
                        ids@,
                    ) by {
                        if a < p {
                            assert(out@[a] == before[a]);
                        } else if a > p {
                            assert(out@[a] == before[a - 1]);
                        }
                    }
                    assert forall|x: int|
                        0 <= x < now.len() && is_wanted(
                            #[trigger] now[x],
                            model_id@,
                            cache_key@,
                            ids@,
                        ) implies out@.contains(x as usize) by {
                        if x < i {
                            assert(part[x] == now[x]);
                            let q = choose|q: int| 0 <= q < before.len() && before[q] == x as usize;
                            if q < p {
                                assert(out@[q] == x as usize);
                            } else {
                                assert(out@[q + 1] == x as usize);
                            }
                        }
                    }
                    assert forall|a: int, b: int|
                        #![trigger out@[a], out@[b]]
                        0 <= a < b < out@.len() implies pair_before(
                        now[out@[a] as int],
                        now[out@[b] as int],
                    ) by {
                        let x = if a < p {
                            a
                        } else {
                            a - 1
                        };
                        let y = if b < p {
                            b
                        } else {
                            b - 1
                        };
                        if a != p && b != p {
                            assert(out@[a] == before[x] && out@[b] == before[y]);
                            assert(pair_before(part[before[x] as int], part[before[y] as int]));
                        } else if b == p {
                            assert(out@[a] == before[a]);
                            if a < p - 1 {
                                assert(pair_before(
                                    part[before[a] as int],
                                    part[before[p - 1] as int],
                                ));
                            }
                        } else {
                            assert(out@[b] == before[y]);
                            let other = self.pair_scores@[before[y] as int];
                            assert(part[before[y] as int] == other);
                            assert(is_wanted(other, model_id@, cache_key@, ids@));
                            assert(!index::same_score_key(other, *row));
                        }
                    }
                }
            } else {
                assert forall|x: int|
                    0 <= x < now.len() && is_wanted(
                        #[trigger] now[x],
                        model_id@,
                        cache_key@,
                        ids@,
                    ) implies out@.contains(x as usize) by {
                    if x < i {
                        assert(part[x] == now[x]);
                    }
                }
                assert forall|a: int| 0 <= a < out@.len() implies (#[trigger] out@[a]) < now.len()
                    && is_wanted(now[out@[a] as int], model_id@, cache_key@, ids@) by {
                    assert(now[out@[a] as int] == part[out@[a] as int]);
                }
                assert forall|a: int, b: int|
                    #![trigger out@[a], out@[b]]
                    0 <= a < b < out@.len() implies pair_before(
                    now[out@[a] as int],
                    now[out@[b] as int],
                ) by {
                    assert(pair_before(part[out@[a] as int], part[out@[b] as int]));
                }
            }
            i += 1;
        }
        assert(self.pair_scores@.take(count as int) =~= self.pair_scores@);
        out
    }

    /// The positions of the scores of pairs among the given videos, under a model and with some
    /// options, in the order of their ids. With them the steps in which they are read: after each
    /// `chunk_size` ids (1 to 800), how many ids are done and how many scores are read.
    pub fn list_ai_pair_scores_chunked(
        &self,
        model_id: &str,
        cache_key: &str,
        video_ids: &Vec<i64>,
        chunk_size: usize,
    ) -> (r: (Vec<usize>, Vec<(usize, usize)>))
        requires
            self.wf(),
        ensures
            video_ids@.len() < 2 ==> r.0@.len() == 0 && r.1@.len() == 0,
            video_ids@.len() >= 2 ==> {
                &&& lists_wanted(
                    self.pair_scores@,
                    model_id@,
                    cache_key@,
                    video_ids@,
                    r.0@,
                )
                &&& exists|sorted: Seq<i64>| #[trigger]
                    sorts(video_ids@, sorted) && steps_are(
                        self.pair_scores@,
                        r.0@,
                        sorted,
                        chunk_of(chunk_size),
                        r.1@,
                    )
            },
    {
        if video_ids.len() < 2 {
            return (Vec::new(), Vec::new());
        }
        let ids = sorted_unique(video_ids);
        let out = self.wanted_positions(model_id, cache_key, &ids);
        assert(lists_wanted(self.pair_scores@, model_id@, cache_key@, video_ids@, out@)) by {
            assert forall|i: int|
                0 <= i < self.pair_scores@.len() && is_wanted(
                    #[trigger] self.pair_scores@[i],
                    model_id@,
                    cache_key@,
                    video_ids@,
                ) implies out@.contains(i as usize) by {
                let row = self.pair_scores@[i];
                assert(ids@.contains(row.video_a_id) && ids@.contains(row.video_b_id));
            }
        }
        let size: usize = if chunk_size < 1 {
            1
        } else if chunk_size > 800 {
            800
        } else {
            chunk_size
        };
        let mut steps: Vec<(usize, usize)> = Vec::new();
        let mut done: usize = 0;
        assert(0 * size == 0) by (nonlinear_arith);
        while done < ids.len()
            invariant
                done <= ids@.len(),
                1 <= size <= 800,
                size == chunk_of(chunk_size),
                done == if steps@.len() * size <= ids@.len() {
                    steps@.len() * size
                } else {
                    ids@.len() as int
                },
                done < ids@.len() ==> done == steps@.len() * size,
                done == ids@.len() ==> ids@.len() <= steps@.len() * size && (steps@.len() == 0 || (
                steps@.len() - 1) * size < ids@.len()),
                forall|k: int| 0 <= k < out@.len() ==> (#[trigger] out@[k])
                    < self.pair_scores@.len(),
                forall|c: int|
                    0 <= c < steps@.len() ==> #[trigger] step_is(
                        self.pair_scores@,
                        out@,
                        ids@,
                        size as int,
                        steps@,
                        c,
                    ),
            decreases ids@.len() - done,
        {
            let ghost c = steps@.len() as int;
            let next: usize = if ids.len() - done <= size {
                ids.len()
            } else {
                done + size
            };
            let limit: i64 = ids[next - 1];
            let mut loaded: usize = 0;
            let mut k: usize = 0;
            while k < out.len()
                invariant
                    k <= out@.len(),
                    forall|q: int| 0 <= q < out@.len() ==> (#[trigger] out@[q])
                        < self.pair_scores@.len(),
                    loaded == loaded_until(self.pair_scores@, out@, limit, k as int),
                    loaded <= k,
                decreases out@.len() - k,
            {
                if self.pair_scores[out[k]].video_a_id <= limit {
                    loaded += 1;
                }
                k += 1;
            }
            let ghost old_steps = steps@;
            steps.push((next, loaded));
            proof {
                assert((c + 1) * size == c * size + size) by (nonlinear_arith);
                assert(step_is(self.pair_scores@, out@, ids@, size as int, steps@, c));
                assert forall|q: int| 0 <= q < steps@.len() implies #[trigger] step_is(
                    self.pair_scores@,
                    out@,
                    ids@,
                    size as int,
                    steps@,
                    q,
                ) by {
                    if q < c {
                        assert(step_is(
                            self.pair_scores@,
                            out@,
                            ids@,
                            size as int,
                            old_steps,
                            q,
                        ));
                    }
                }
            }
            done = next;
        }
        assert(steps_are(self.pair_scores@, out@, ids@, size as int, steps@));
        (out, steps)
    }
}

/// The number of ids that are read in one step.
pub open spec fn chunk_of(chunk_size: usize) -> int {
    if chunk_size < 1 {
        1
    } else if chunk_size > 800 {
        800
    } else {
        chunk_size as int
    }
}

/// Whether step `c` tells how many ids are done and how many scores are read.
pub open spec fn step_is(
    table: Seq<AiPairScoreRecord>,
    listed: Seq<usize>,
    sorted: Seq<i64>,
    size: int,
    steps: Seq<(usize, usize)>,
    c: int,
) -> bool {
    let done = if (c + 1) * size <= sorted.len() {
        (c + 1) * size
    } else {
        sorted.len() as int
    };
    steps[c].0 == done && steps[c].1 == loaded_until(
        table,
        listed,
        sorted[done - 1],
        listed.len() as int,
    )
}

/// Whether steps tell of the reading of scores, `size` ids at a time.
pub open spec fn steps_are(
    table: Seq<AiPairScoreRecord>,
    listed: Seq<usize>,
    sorted: Seq<i64>,
    size: int,
    steps: Seq<(usize, usize)>,
) -> bool {
    &&& sorted.len() <= steps.len() * size
    &&& steps.len() == 0 || (steps.len() - 1) * size < sorted.len()
    &&& forall|c: int|
        0 <= c < steps.len() ==> #[trigger] step_is(table, listed, sorted, size, steps, c)
}

} // verus!
