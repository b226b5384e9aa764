//! The comparison of all videos by their frames: what is compared anew, what is taken from earlier
//! comparisons, and what is kept for later ones.
use crate::ai_groups;
use crate::ai_groups::{missing_pairs, pair_score_from_edge, total_pairs, AiEdge};
use crate::ai_index;
use crate::ai_index::ai_match_cache_key;
use crate::double::Double;
use crate::findings;
use crate::findings::sorted_unique;
use crate::index;
use crate::index::VideoIndex;
use crate::models;
use crate::models::{AiPairScoreRecord, AppSettings, FrameEmbeddingRecord, VideoRecord};
use crate::naming;
use crate::rows;
use crate::rows::has_id;
use crate::scans;
use crate::text::same_text;
use crate::upkeep;
use vstd::prelude::*;
use vstd::string::*;

verus! {

/// The number of videos whose scores are read at once, and the number of scores that are written
/// at once.
pub const AI_PAIR_SCORE_READ_CHUNK: usize = 512;

pub const AI_PAIR_SCORE_WRITE_CHUNK: usize = 4_096;

/// What a comparison starts from.
#[derive(Debug, Clone)]
pub struct AiMatchStart {
    pub model_id: String,
    pub cache_key: String,
    /// The videos that are compared, by ascending id.
    pub ids: Vec<i64>,
    pub total_pairs: usize,
    /// The steps in which scores are read: how many videos are done, and how many scores.
    pub steps: Vec<(usize, usize)>,
    /// The pairs that need not be compared.
    pub known: Vec<(i64, i64)>,
    /// The comparisons that are good enough.
    pub edges: Vec<AiEdge>,
    /// The pairs that are to be compared.
    pub missing: Vec<(i64, i64)>,
    pub min_confidence: Double,
}

/// Whether a video is in a list.
pub open spec fn is_listed(videos: Seq<VideoRecord>, id: i64) -> bool {
    exists|i: int| 0 <= i < videos.len() && (#[trigger] videos[i]).id == Some(id)
}

/// Whether a video has embeddings under a model.
pub open spec fn has_frames(frames: Seq<FrameEmbeddingRecord>, model: Seq<char>, id: i64) -> bool {
    exists|k: int|
        0 <= k < frames.len() && findings::is_frame_of(#[trigger] frames[k], id, model)
}

/// Whether a list holds the videos that are compared, by ascending id: those that have embeddings.
pub open spec fn lists_compared(
    index: VideoIndex,
    videos: Seq<VideoRecord>,
    model: Seq<char>,
    ids: Seq<i64>,
) -> bool {
    &&& forall|id: i64| #[trigger]
        ids.contains(id) <==> is_listed(videos, id) && has_frames(
            index.frame_embeddings@,
            model,
            id,
        )
    &&& forall|a: int, b: int|
        #![trigger ids[a], ids[b]]
        0 <= a < b < ids.len() ==> ids[a] < ids[b]
}

/// The least confidence, between zero and one.
pub open spec fn least_confidence(min_confidence: Double) -> Double {
    min_confidence.clamped(
        (Double { bits: naming::NO_CONFIDENCE }),
        (Double { bits: naming::FULL_CONFIDENCE }),
    )
}

/// The model that a comparison rests on: the newest one that is recorded with its path, or else
/// the one that is there.
pub open spec fn is_model_for(
    index: VideoIndex,
    model_path: Seq<char>,
    prepared: Option<Seq<char>>,
    model: Option<Seq<char>>,
) -> bool {
    if exists|i: int| #[trigger] upkeep::is_latest(index.models@, model_path, i) {
        exists|i: int| #[trigger]
            upkeep::is_latest(index.models@, model_path, i) && model == Some(
                index.models@[i].model_id@,
            )
    } else {
        model == prepared
    }
}

/// Whether a comparison starts from what is stored: the scores that can be used, and the pairs
/// without one.
pub open spec fn starts_from(
    index: VideoIndex,
    videos: Seq<VideoRecord>,
    settings: AppSettings,
    threshold_text: Seq<char>,
    min_confidence: Double,
    start: AiMatchStart,
) -> bool {
    &&& start.cache_key@ == ai_index::cache_key_text(settings, threshold_text)
    &&& lists_compared(index, videos, start.model_id@, start.ids@)
    &&& start.ids@.len() > 0
    &&& start.min_confidence == least_confidence(min_confidence)
    &&& ai_groups::counts_pairs(
        videos,
        settings.compare_within_same_folder,
        start.ids@,
        start.total_pairs as int,
    )
    &&& exists|listed: Seq<usize>| #[trigger]
        lists_stored(index, start.model_id@, start.cache_key@, start.ids@, listed)
            && tells_reading(index, start.ids@, listed, start.steps@) && {
            let usable = ai_groups::usable_scores(
                videos,
                settings.compare_within_same_folder,
                index.pair_scores@,
                listed,
                listed.len() as int,
            );
            &&& start.known@ == ai_groups::known_pairs(usable)
            &&& ai_groups::edges_of(
                start.edges@,
                rows::having(usable, ai_groups::good_enough(start.min_confidence)),
            )
        }
    &&& forall|pair: (i64, i64)| #[trigger]
        start.missing@.contains(pair) <==> ai_groups::is_open_pair(
            videos,
            settings.compare_within_same_folder,
            start.ids@,
            start.known@,
            pair,
        )
    &&& forall|a: int, b: int|
        #![trigger start.missing@[a], start.missing@[b]]
        0 <= a < b < start.missing@.len() ==> ai_groups::pair_less(
            start.missing@[a],
            start.missing@[b],
        )
}

/// Whether positions list the stored scores of some videos: none of fewer than two.
pub open spec fn lists_stored(
    index: VideoIndex,
    model: Seq<char>,
    key: Seq<char>,
    ids: Seq<i64>,
    listed: Seq<usize>,
) -> bool {
    if ids.len() < 2 {
        listed.len() == 0
    } else {
        findings::lists_wanted(index.pair_scores@, model, key, ids, listed)
    }
}

/// Whether the steps in which scores are read are told.
pub open spec fn tells_reading(
    index: VideoIndex,
    ids: Seq<i64>,
    listed: Seq<usize>,
    steps: Seq<(usize, usize)>,
) -> bool {
    if ids.len() < 2 {
        steps.len() == 0
    } else {
        exists|sorted: Seq<i64>| #[trigger]
            findings::sorts(ids, sorted) && findings::steps_are(
                index.pair_scores@,
                listed,
                sorted,
                findings::chunk_of(AI_PAIR_SCORE_READ_CHUNK),
                steps,
            )
    }
}

fn list_video_ids(videos: &Vec<VideoRecord>) -> (r: Vec<i64>)
    ensures
        forall|id: i64| #[trigger] r@.contains(id) <==> is_listed(videos@, id),
{
    let mut out: Vec<i64> = Vec::new();
    let mut i: usize = 0;
    while i < videos.len()
        invariant
            i <= videos@.len(),
            forall|id: i64| #[trigger]
                out@.contains(id) <==> exists|k: int|
                    0 <= k < i && (#[trigger] videos@[k]).id == Some(id),
        decreases videos@.len() - i,
    {
        let ghost before = out@;
        match videos[i].id {
            Some(own) => {
                out.push(own);
                assert(out@[before.len() as int] == own);
                assert forall|id: i64| #[trigger] out@.contains(id) <==> exists|k: int|
                    0 <= k < i + 1 && (#[trigger] videos@[k]).id == Some(id) by {
                    if out@.contains(id) {
                        let k = choose|k: int| 0 <= k < out@.len() && out@[k] == id;
                        if k < before.len() {
                            assert(before[k] == id);
                            assert(before.contains(id));
                        } else {
                            assert(videos@[i as int].id == Some(id));
                        }
                    }
                    if exists|k: int| 0 <= k < i + 1 && (#[trigger] videos@[k]).id == Some(id) {
                        let k = choose|k: int|
                            0 <= k < i + 1 && (#[trigger] videos@[k]).id == Some(id);
                        if k < i {
                            assert(before.contains(id));
                            let m = choose|m: int| 0 <= m < before.len() && before[m] == id;
                            assert(out@[m] == id);
                        }
                    }
                }
            },
            None => {},
        }
        i += 1;
    }
    out
}

impl VideoIndex {
    /// The videos of a list that have embeddings under a model, by ascending id.
    pub fn compared_ids(&self, videos: &Vec<VideoRecord>, model_id: &str) -> (r: Vec<i64>)
        ensures
            lists_compared(*self, videos@, model_id@, r@),
    {
        let wanted = list_video_ids(videos);
        let mut found: Vec<i64> = Vec::new();
        let mut i: usize = 0;
        while i < self.frame_embeddings.len()
            invariant
                i <= self.frame_embeddings@.len(),
                forall|id: i64| #[trigger] wanted@.contains(id) <==> is_listed(videos@, id),
                forall|id: i64| #[trigger]
                    found@.contains(id) ==> is_listed(videos@, id) && has_frames(
                        self.frame_embeddings@,
                        model_id@,
                        id,
                    ),
                forall|k: int|
                    0 <= k < i && (#[trigger] self.frame_embeddings@[k]).model_id@ == model_id@
                        && is_listed(videos@, self.frame_embeddings@[k].video_id)
                        ==> found@.contains(self.frame_embeddings@[k].video_id),
            decreases self.frame_embeddings@.len() - i,
        {
            let own: i64 = self.frame_embeddings[i].video_id;
            let ghost before = found@;
            if same_text(self.frame_embeddings[i].model_id.as_str(), model_id) && has_id(
                &wanted,
                own,
            ) {
                found.push(own);
                proof {
                    assert(found@[before.len() as int] == own);
                    assert(findings::is_frame_of(
                        self.frame_embeddings@[i as int],
                        own,
                        model_id@,
                    ));
                    assert forall|id: i64| #[trigger] found@.contains(id) implies is_listed(
                        videos@,
                        id,
                    ) && has_frames(self.frame_embeddings@, model_id@, id) by {
                        let k = choose|k: int| 0 <= k < found@.len() && found@[k] == id;
                        if k < before.len() {
                            assert(before[k] == id);
                            assert(before.contains(id));
                        }
                    }
                    assert forall|id: i64| before.contains(id) implies #[trigger] found@.contains(
                        id,
                    ) by {
                        let k = choose|k: int| 0 <= k < before.len() && before[k] == id;
                        assert(found@[k] == id);
                    }
                }
            }
            i += 1;
        }
        proof {
            assert forall|id: i64| is_listed(videos@, id) && has_frames(
                self.frame_embeddings@,
                model_id@,
                id,
            ) implies #[trigger] found@.contains(id) by {
                let k = choose|k: int|
                    0 <= k < self.frame_embeddings@.len() && findings::is_frame_of(
                        #[trigger] self.frame_embeddings@[k],
                        id,
                        model_id@,
                    );
                assert(self.frame_embeddings@[k].model_id@ == model_id@);
            }
        }
        sorted_unique(&found)
    }

    /// The model whose embeddings are compared: the latest that was recorded for the path, else the
    /// one that can be read there. There is none where such comparisons are switched off or the file
    /// of the model is not there.
    pub fn matching_model(
        &self,
        settings: &AppSettings,
        model_exists: bool,
        model_path: &str,
        prepared_id: &Option<String>,
    ) -> (r: Option<String>)
        requires
            self.wf(),
        ensures
            if settings.ai_vision_enabled && model_exists {
                is_model_for(
                    *self,
                    model_path@,
                    models::opt_text(*prepared_id),
                    models::opt_text(r),
                )
            } else {
                r is None
            },
    {
        if !settings.ai_vision_enabled || !model_exists {
            return None;
        }
        match self.latest_embedding_model_id_for_path(model_path) {
            Some(id) => {
                assert(is_model_for(
                    *self,
                    model_path@,
                    models::opt_text(*prepared_id),
                    Some(id@),
                ));
                Some(id)
            },
            None => {
                assert forall|i: int| !#[trigger] upkeep::is_latest(
                    self.models@,
                    model_path@,
                    i,
                ) by {
                    if upkeep::is_latest(self.models@, model_path@, i) {
                        assert(self.models@[i].model_path@ == model_path@);
                    }
                }
                models::copy_opt_text(prepared_id)
            },
        }
    }

    /// Starts a comparison of videos by their frames: what is stored of it, and what is to be
    /// compared. Gives nothing where such comparisons are switched off, there is no model, or no
    /// video has embeddings. `model_exists` tells whether the file of the model is there,
    /// `prepared_id` is its id where it can be read, and `threshold_text` is the least similarity
    /// of frames with four digits behind the point.
    pub fn build_ai_match_groups_with_progress(
        &self,
        videos: &Vec<VideoRecord>,
        settings: &AppSettings,
        model_exists: bool,
        model_path: &str,
        prepared_id: &Option<String>,
        threshold_text: &str,
        min_confidence: Double,
    ) -> (r: Option<AiMatchStart>)
        requires
            self.wf(),
        ensures
            !settings.ai_vision_enabled || !model_exists ==> r is None,
            r matches Some(start) ==> {
                &&& is_model_for(
                    *self,
                    model_path@,
                    models::opt_text(*prepared_id),
                    Some(start.model_id@),
                )
                &&& starts_from(
                    *self,
                    videos@,
                    *settings,
                    threshold_text@,
                    min_confidence,
                    start,
                )
            },
            settings.ai_vision_enabled && model_exists && r is None ==> exists|model: Option<
                Seq<char>,
            >| #[trigger]
                is_model_for(*self, model_path@, models::opt_text(*prepared_id), model) && (
                model is None || forall|id: i64|
                    is_listed(videos@, id) ==> !#[trigger] has_frames(
                        self.frame_embeddings@,
                        model->0,
                        id,
                    )),
    {
        let model_id = match self.matching_model(settings, model_exists, model_path, prepared_id) {
            Some(id) => id,
            None => {
                return None;
            },
        };
        let ids = self.compared_ids(videos, model_id.as_str());
        if ids.len() == 0 {
            assert forall|id: i64| is_listed(videos@, id) implies !#[trigger] has_frames(
                self.frame_embeddings@,
                model_id@,
                id,
            ) by {
                assert(!ids@.contains(id));
            }
            assert(is_model_for(
                *self,
                model_path@,
                models::opt_text(*prepared_id),
                Some(model_id@),
            ));
            return None;
        }
        let cache_key = ai_match_cache_key(settings, threshold_text);
        let within = settings.compare_within_same_folder;
        let total: usize = total_pairs(videos, within, &ids);
        let least = min_confidence.clamp(
            Double { bits: naming::NO_CONFIDENCE },
            Double { bits: naming::FULL_CONFIDENCE },
        );
        let (listed, steps) = self.list_ai_pair_scores_chunked(
            model_id.as_str(),
            cache_key.as_str(),
            &ids,
            AI_PAIR_SCORE_READ_CHUNK,
        );
        assert(lists_stored(*self, model_id@, cache_key@, ids@, listed@));
        let cached = self.cached_pairs(videos, within, &listed, least);
        let missing = missing_pairs(videos, within, &ids, &cached.known);
        assert(is_model_for(
            *self,
            model_path@,
            models::opt_text(*prepared_id),
            Some(model_id@),
        ));
        let start = AiMatchStart {
            model_id,
            cache_key,
            ids,
            total_pairs: total,
            steps,
            known: cached.known,
            edges: cached.edges,
            missing,
            min_confidence: least,
        };
        assert(lists_compared(*self, videos@, start.model_id@, start.ids@));
        assert(lists_stored(*self, start.model_id@, start.cache_key@, start.ids@, listed@));
        assert(tells_reading(*self, start.ids@, listed@, start.steps@));
        assert(starts_from(*self, videos@, *settings, threshold_text@, min_confidence, start));
        Some(start)
    }

    /// Keeps comparisons for later ones, so many at a time. Gives how many were written after each
    /// step. Fails where one cannot be recorded; those of the steps before stay.
    pub fn store_pair_scores(
        &mut self,
        start: &AiMatchStart,
        computed: &Vec<AiEdge>,
        now: i64,
    ) -> (r: Result<Vec<usize>, String>)
        requires
            old(self).wf(),
        ensures
            final(self).wf(),
            scans::same_videos(*old(self), *final(self)),
            index::same_sessions(*old(self), *final(self)),
            index::same_models(*old(self), *final(self)),
            final(self).links@ == old(self).links@,
            final(self).match_edges@ == old(self).match_edges@,
            final(self).frame_embeddings@ == old(self).frame_embeddings@,
            exists|records: Seq<AiPairScoreRecord>, written: int| #[trigger]
                are_written(*old(self), *final(self), *start, computed@, now, records, written) && (
                match r {
                    Ok(steps) => written == computed@.len() && steps_written(
                        steps@,
                        computed@.len() as int,
                    ),
                    Err(message) => exists|k: int| #[trigger]
                        findings::is_first_misfit(*old(self), records, k) && written <= k < written
                            + AI_PAIR_SCORE_WRITE_CHUNK && written % (
                        AI_PAIR_SCORE_WRITE_CHUNK as int) == 0 && message@
                            == findings::misfit_message(records[k]),
                }),
    {
        let ghost before = *self;
        let total: usize = computed.len();
        let mut steps: Vec<usize> = Vec::new();
        let ghost mut records: Seq<AiPairScoreRecord> = Seq::empty();
        let mut done: usize = 0;
        while done < total
            invariant
                done <= total,
                total == computed@.len(),
                records.len() == done,
                before.wf(),
                before == *old(self),
                self.wf(),
                scans::same_videos(before, *self),
                index::same_sessions(before, *self),
                index::same_models(before, *self),
                self.links@ == before.links@,
                self.match_edges@ == before.match_edges@,
                self.frame_embeddings@ == before.frame_embeddings@,
                self.pair_scores@ == findings::scores_put(
                    before.pair_scores@,
                    records,
                    done as int,
                ),
                forall|k: int|
                    #![trigger records[k]]
                    0 <= k < done ==> findings::score_fits(before, records[k]) && ai_groups::tells(
                        records[k],
                        computed@[k],
                        start.model_id@,
                        start.cache_key@,
                        now,
                    ),
                done == total || done % 4_096 == 0,
                steps@.len() == (done + 4_095) / 4_096,
                forall|k: int|
                    #![trigger steps@[k]]
                    0 <= k < steps@.len() ==> steps@[k] == ai_index::smaller(
                        (k + 1) * 4_096,
                        total as int,
                    ),
            decreases total - done,
        {
            let end: usize = if total - done > AI_PAIR_SCORE_WRITE_CHUNK {
                done + AI_PAIR_SCORE_WRITE_CHUNK
            } else {
                total
            };
            let mut chunk: Vec<AiPairScoreRecord> = Vec::new();
            let mut i: usize = done;
            while i < end
                invariant
                    done <= i <= end,
                    end <= total,
                    total == computed@.len(),
                    chunk@.len() == i - done,
                    forall|k: int|
                        #![trigger chunk@[k]]
                        0 <= k < chunk@.len() ==> ai_groups::tells(
                            chunk@[k],
                            computed@[done + k],
                            start.model_id@,
                            start.cache_key@,
                            now,
                        ),
                decreases end - i,
            {
                chunk.push(
                    pair_score_from_edge(
                        &computed[i],
                        start.model_id.as_str(),
                        start.cache_key.as_str(),
                        now,
                    ),
                );
                i += 1;
            }
            let ghost part = chunk@;
            let ghost mid = *self;
            let ghost all = records + part;
            proof {
                lemma_scores_put_prefix(before.pair_scores@, records, part, done as int);
                lemma_scores_put_more(
                    before.pair_scores@,
                    records,
                    part,
                    part.len() as int,
                );
                assert forall|k: int| 0 <= k < part.len() implies (findings::score_fits(
                    mid,
                    #[trigger] part[k],
                ) == findings::score_fits(before, all[done + k])) by {
                    assert(all[done + k] == part[k]);
                }
            }
            match self.upsert_ai_pair_scores(chunk) {
                Err(message) => {
                    proof {
                        let k = choose|k: int| #[trigger]
                            findings::is_first_misfit(mid, part, k) && message@
                                == findings::misfit_message(part[k]);
                        assert(all[done + k] == part[k]);
                        let whole = lemma_rest_of_records(
                            computed@,
                            all,
                            end as int,
                            start.model_id@,
                            start.cache_key@,
                            now,
                        );
                        assert forall|j: int| 0 <= j < done + k implies findings::score_fits(
                            before,
                            #[trigger] whole[j],
                        ) by {
                            assert(whole[j] == all[j]);
                            if j < done {
                                assert(records[j] == all[j]);
                            } else {
                                assert(all[j] == part[j - done]);
                            }
                        }
                        assert(whole[done + k] == all[done + k]);
                        assert(findings::is_first_misfit(before, whole, done + k));
                        assert(whole.take(done as int) =~= records);
                        lemma_scores_put_same(before.pair_scores@, whole, records, done as int);
                        assert(are_written(
                            before,
                            *self,
                            *start,
                            computed@,
                            now,
                            whole,
                            done as int,
                        ));
                    }
                    return Err(message);
                },
                Ok(_) => {},
            }
            proof {
                assert forall|k: int|
                    #![trigger all[k]]
                    0 <= k < end implies findings::score_fits(before, all[k]) && ai_groups::tells(
                    all[k],
                    computed@[k],
                    start.model_id@,
                    start.cache_key@,
                    now,
                ) by {
                    if k < done {
                        assert(all[k] == records[k]);
                    } else {
                        assert(all[k] == part[k - done]);
                        assert(findings::score_fits(mid, part[k - done]));
                    }
                }
                records = all;
            }
            steps.push(end);
            done = end;
        }
        assert(are_written(before, *self, *start, computed@, now, records, done as int));
        Ok(steps)
    }
}

/// Tells the comparisons that are good enough.
pub open spec fn is_good(min_confidence: Double) -> spec_fn(AiEdge) -> bool {
    |edge: AiEdge| min_confidence.le(edge.confidence)
}

/// The comparisons that are good enough.
pub fn keep_good_edges(edges: Vec<AiEdge>, min_confidence: Double) -> (r: Vec<AiEdge>)
    ensures
        r@ == rows::having(edges@, is_good(min_confidence)),
{
    let ghost all = edges@;
    let mut marks: Vec<bool> = Vec::new();
    let mut i: usize = 0;
    while i < edges.len()
        invariant
            i <= edges@.len(),
            marks@.len() == i,
            forall|k: int|
                0 <= k < i ==> #[trigger] marks@[k] == min_confidence.le(edges@[k].confidence),
        decreases edges@.len() - i,
    {
        marks.push(min_confidence.at_most(edges[i].confidence));
        i += 1;
    }
    let kept = rows::keep_marked(edges, &marks);
    proof {
        lemma_marked_good(all, marks@, min_confidence);
    }
    kept
}

proof fn lemma_marked_good(edges: Seq<AiEdge>, marks: Seq<bool>, min_confidence: Double)
    requires
        edges.len() <= marks.len(),
        forall|k: int|
            0 <= k < edges.len() ==> #[trigger] marks[k] == min_confidence.le(
                edges[k].confidence,
            ),
    ensures
        rows::marked(edges, marks) == rows::having(edges, is_good(min_confidence)),
    decreases edges.len(),
{
    if edges.len() > 0 {
        lemma_marked_good(edges.drop_last(), marks, min_confidence);
        assert(marks[edges.len() - 1] == min_confidence.le(edges[edges.len() - 1].confidence));
    }
}

/// Whether the steps in which scores are written are told: after each, how many are written.
pub open spec fn steps_written(steps: Seq<usize>, total: int) -> bool {
    &&& steps.len() == (total + 4_095) / 4_096
    &&& forall|k: int|
        #![trigger steps[k]]
        0 <= k < steps.len() ==> steps[k] == ai_index::smaller((k + 1) * 4_096, total)
}

/// Whether the first `written` of some comparisons are kept as records.
pub open spec fn are_written(
    before: VideoIndex,
    after: VideoIndex,
    start: AiMatchStart,
    computed: Seq<AiEdge>,
    now: i64,
    records: Seq<AiPairScoreRecord>,
    written: int,
) -> bool {
    &&& records.len() == computed.len()
    &&& 0 <= written <= records.len()
    &&& forall|k: int|
        #![trigger records[k]]
        0 <= k < records.len() ==> ai_groups::tells(
            records[k],
            computed[k],
            start.model_id@,
            start.cache_key@,
            now,
        )
    &&& after.pair_scores@ == findings::scores_put(before.pair_scores@, records, written)
}

proof fn lemma_scores_put_same(
    table: Seq<AiPairScoreRecord>,
    a: Seq<AiPairScoreRecord>,
    b: Seq<AiPairScoreRecord>,
    n: int,
)
    requires
        0 <= n <= a.len(),
        n <= b.len(),
        forall|k: int| 0 <= k < n ==> #[trigger] a[k] == b[k],
    ensures
        findings::scores_put(table, a, n) == findings::scores_put(table, b, n),
    decreases n,
{
    if n > 0 {
        lemma_scores_put_same(table, a, b, n - 1);
        assert(a[n - 1] == b[n - 1]);
    }
}

proof fn lemma_scores_put_prefix(
    table: Seq<AiPairScoreRecord>,
    first: Seq<AiPairScoreRecord>,
    more: Seq<AiPairScoreRecord>,
    n: int,
)
    requires
        0 <= n <= first.len(),
    ensures
        findings::scores_put(table, first + more, n) == findings::scores_put(table, first, n),
{
    assert forall|k: int| 0 <= k < n implies #[trigger] (first + more)[k] == first[k] by {}
    lemma_scores_put_same(table, first + more, first, n);
}

proof fn lemma_scores_put_more(
    table: Seq<AiPairScoreRecord>,
    first: Seq<AiPairScoreRecord>,
    more: Seq<AiPairScoreRecord>,
    n: int,
)
    requires
        0 <= n <= more.len(),
    ensures
        findings::scores_put(
            findings::scores_put(table, first, first.len() as int),
            more,
            n,
        ) == findings::scores_put(table, first + more, first.len() + n),
    decreases n,
{
    if n > 0 {
        lemma_scores_put_more(table, first, more, n - 1);
        assert((first + more)[first.len() + n - 1] == more[n - 1]);
    } else {
        lemma_scores_put_prefix(table, first, more, first.len() as int);
    }
}

/// Records for all comparisons, of which the first ones are given.
proof fn lemma_rest_of_records(
    computed: Seq<AiEdge>,
    given: Seq<AiPairScoreRecord>,
    n: int,
    model: Seq<char>,
    key: Seq<char>,
    now: i64,
) -> (whole: Seq<AiPairScoreRecord>)
    requires
        given.len() == n,
        0 < n <= computed.len(),
        forall|k: int|
            #![trigger given[k]]
            0 <= k < n ==> ai_groups::tells(given[k], computed[k], model, key, now),
    ensures
        whole.len() == computed.len(),
        forall|k: int| 0 <= k < n ==> #[trigger] whole[k] == given[k],
        forall|k: int|
            #![trigger whole[k]]
            0 <= k < whole.len() ==> ai_groups::tells(whole[k], computed[k], model, key, now),
{
    let strings = given[0];
    Seq::new(
        computed.len(),
        |k: int|
            if k < n {
                given[k]
            } else {
                AiPairScoreRecord {
                    video_a_id: ai_groups::pair_key(computed[k].a, computed[k].b).0,
                    video_b_id: ai_groups::pair_key(computed[k].a, computed[k].b).1,
                    model_id: strings.model_id,
                    cache_key: strings.cache_key,
                    confidence: computed[k].confidence,
                    matched: computed[k].matched,
                    compared: computed[k].compared,
                    average_similarity: computed[k].average_similarity,
                    coverage: computed[k].coverage,
                    created_unix_ms: now,
                }
            },
    )
}

proof fn lemma_put_has_key(
    table: Seq<AiPairScoreRecord>,
    list: Seq<AiPairScoreRecord>,
    n: int,
    k: int,
) -> (at: int)
    requires
        0 <= k < n <= list.len(),
    ensures
        0 <= at < findings::scores_put(table, list, n).len(),
        index::same_score_key(findings::scores_put(table, list, n)[at], list[k]),
    decreases n,
{
    let before = findings::scores_put(table, list, n - 1);
    let score = list[n - 1];
    let place = findings::score_position(before, score, 0);
    findings::lemma_score_position(before, score, 0);
    if k == n - 1 {
        if place >= 0 {
            place
        } else {
            before.len() as int
        }
    } else {
        let at = lemma_put_has_key(table, list, n - 1, k);
        at
    }
}

/// A pair whose comparison was kept is not compared again: a later comparison of the same videos
/// under the same model and options knows it.
pub proof fn law_kept_pairs_are_known(
    before: VideoIndex,
    after: VideoIndex,
    first: AiMatchStart,
    computed: Seq<AiEdge>,
    now: i64,
    records: Seq<AiPairScoreRecord>,
    later: VideoIndex,
    videos: Seq<VideoRecord>,
    settings: AppSettings,
    threshold_text: Seq<char>,
    min_confidence: Double,
    next: AiMatchStart,
    k: int,
)
    requires
        are_written(before, after, first, computed, now, records, computed.len() as int),
        later.pair_scores@ == after.pair_scores@,
        later.pair_scores@.len() <= usize::MAX,
        starts_from(later, videos, settings, threshold_text, min_confidence, next),
        next.model_id@ == first.model_id@,
        next.cache_key@ == first.cache_key@,
        0 <= k < computed.len(),
        computed[k].a != computed[k].b,
        next.ids@.contains(computed[k].a),
        next.ids@.contains(computed[k].b),
    ensures
        !next.missing@.contains((computed[k].a, computed[k].b)),
        !next.missing@.contains((computed[k].b, computed[k].a)),
{
    let table = after.pair_scores@;
    let at = lemma_put_has_key(before.pair_scores@, records, records.len() as int, k);
    assert(ai_groups::tells(records[k], computed[k], first.model_id@, first.cache_key@, now));
    let row = table[at];
    let within = settings.compare_within_same_folder;
    let pair = ai_groups::pair_key(computed[k].a, computed[k].b);
    assert(row.video_a_id == pair.0 && row.video_b_id == pair.1);
    let listed = choose|listed: Seq<usize>| #[trigger]
        lists_stored(later, next.model_id@, next.cache_key@, next.ids@, listed)
            && tells_reading(later, next.ids@, listed, next.steps@) && {
            let usable = ai_groups::usable_scores(
                videos,
                within,
                later.pair_scores@,
                listed,
                listed.len() as int,
            );
            &&& next.known@ == ai_groups::known_pairs(usable)
            &&& ai_groups::edges_of(
                next.edges@,
                rows::having(usable, ai_groups::good_enough(next.min_confidence)),
            )
        };
    assert(next.ids@.len() >= 2) by {
        let i = choose|i: int| 0 <= i < next.ids@.len() && next.ids@[i] == computed[k].a;
        let j = choose|j: int| 0 <= j < next.ids@.len() && next.ids@[j] == computed[k].b;
    }
    assert(findings::is_wanted(row, next.model_id@, next.cache_key@, next.ids@));
    assert(listed.contains(at as usize));
    let p = choose|p: int| 0 <= p < listed.len() && listed[p] == at as usize;
    ai_groups::lemma_may_compare_symmetric(videos, within, computed[k].a, computed[k].b);
    if ai_groups::may_compare(videos, within, pair.0, pair.1) {
        let m = lemma_usable_has(
            videos,
            within,
            later.pair_scores@,
            listed,
            listed.len() as int,
            p,
        );
        let usable = ai_groups::usable_scores(
            videos,
            within,
            later.pair_scores@,
            listed,
            listed.len() as int,
        );
        assert(next.known@[m] == pair);
        assert(next.known@.contains(pair));
    }
    assert(ai_groups::pair_key(computed[k].b, computed[k].a) == pair);
}

proof fn lemma_usable_has(
    videos: Seq<VideoRecord>,
    within: bool,
    scores: Seq<AiPairScoreRecord>,
    listed: Seq<usize>,
    n: int,
    p: int,
) -> (m: int)
    requires
        0 <= p < n <= listed.len(),
        ({
            let row = scores[listed[p] as int];
            ai_groups::may_compare(videos, within, row.video_a_id, row.video_b_id)
                && row.video_a_id <= row.video_b_id
        }),
    ensures
        ({
            let usable = ai_groups::usable_scores(videos, within, scores, listed, n);
            0 <= m < usable.len() && usable[m] == scores[listed[p] as int]
        }),
    decreases n,
{
    if p == n - 1 {
        ai_groups::usable_scores(videos, within, scores, listed, n - 1).len() as int
    } else {
        lemma_usable_has(videos, within, scores, listed, n - 1, p)
    }
}

} // verus!
