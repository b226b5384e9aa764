//! Keeping the index in order: counting, clearing, and dropping what refers to nothing.
use crate::database;
use crate::findings;
use crate::index;
use crate::index::{DeletedVideoRows, EmbeddingModel, MatchEdge, SessionLink, VideoIndex};
use crate::models;
use crate::models::{
    AiPairScoreRecord, FrameEmbeddingRecord, StorageDatabaseStats, VideoData, VideoRecord,
};
use crate::rows;
use crate::rows::{has_id, keep_marked};
use crate::text::{chars_of, same_text};
use vstd::prelude::*;
use vstd::string::*;

verus! {

/// The ids of the first `n` videos that no scan has seen.
pub open spec fn orphans(videos: Seq<VideoRecord>, links: Seq<SessionLink>, n: int) -> Seq<i64>
    decreases n,
{
    if n <= 0 {
        Seq::empty()
    } else {
        let rest = orphans(videos, links, n - 1);
        if videos[n - 1].id is Some && !database::is_linked(links, videos[n - 1].id->0) {
            rest.push(videos[n - 1].id->0)
        } else {
            rest
        }
    }
}

proof fn lemma_orphans(videos: Seq<VideoRecord>, links: Seq<SessionLink>, n: int)
    requires
        0 <= n <= videos.len(),
    ensures
        forall|id: i64| #[trigger]
            orphans(videos, links, n).contains(id) <==> !database::is_linked(links, id) && (exists|
                i: int,
            |
                0 <= i < n && (#[trigger] videos[i]).id == Some(id)),
    decreases n,
{
    if n > 0 {
        lemma_orphans(videos, links, n - 1);
        let rest = orphans(videos, links, n - 1);
        let all = orphans(videos, links, n);
        assert forall|id: i64| #[trigger] all.contains(id) implies !database::is_linked(links, id)
            && (exists|i: int| 0 <= i < n && (#[trigger] videos[i]).id == Some(id)) by {
            let k = choose|k: int| 0 <= k < all.len() && all[k] == id;
            if k < rest.len() {
                assert(rest[k] == id);
                assert(rest.contains(id));
            } else {
                assert(videos[n - 1].id == Some(id));
            }
        }
        assert forall|id: i64|
            !database::is_linked(links, id) && (exists|i: int|
                0 <= i < n && (#[trigger] videos[i]).id == Some(id)) implies #[trigger] all.contains(
            id,
        ) by {
            let i = choose|i: int| 0 <= i < n && (#[trigger] videos[i]).id == Some(id);
            if i < n - 1 {
                assert(rest.contains(id));
                let k = choose|k: int| 0 <= k < rest.len() && rest[k] == id;
                assert(all[k] == id);
            } else {
                assert(all[rest.len() as int] == id);
            }
        }
    }
}

/// After the videos that no scan has seen are removed, every video that is left was seen by a
/// scan, and every video that a scan has seen is left.
pub proof fn law_only_seen_videos_are_left(before: VideoIndex, after: VideoIndex)
    requires
        before.wf(),
        index::videos_dropped(
            before,
            after,
            orphans(before.videos@, before.links@, before.videos@.len() as int),
        ),
    ensures
        forall|i: int|
            0 <= i < after.videos@.len() ==> database::is_linked(
                after.links@,
                (#[trigger] after.videos@[i]).id->0,
            ),
        forall|id: i64|
            index::has_video_id(before.videos@, id) && database::is_linked(before.links@, id)
                ==> #[trigger] index::has_video_id(after.videos@, id),
        after.links@ == before.links@,
{
    let n = before.videos@.len() as int;
    let ids = orphans(before.videos@, before.links@, n);
    lemma_orphans(before.videos@, before.links@, n);
    assert forall|k: int| 0 <= k < before.links@.len() implies index::link_spared(ids)(
        #[trigger] before.links@[k],
    ) by {
        let id = before.links@[k].video_id;
        assert(database::is_linked(before.links@, id));
    }
    lemma_having_all(before.links@, index::link_spared(ids));
    rows::lemma_having(before.videos@, index::video_spared(ids));
    assert forall|i: int| 0 <= i < after.videos@.len() implies database::is_linked(
        after.links@,
        (#[trigger] after.videos@[i]).id->0,
    ) by {
        let video = after.videos@[i];
        assert(before.videos@.contains(video));
        let j = choose|j: int| 0 <= j < before.videos@.len() && before.videos@[j] == video;
        assert(before.videos@[j].id == Some(video.id->0));
        assert(index::video_spared(ids)(video));
        assert(!ids.contains(video.id->0));
    }
    assert forall|id: i64|
        index::has_video_id(before.videos@, id) && database::is_linked(
            before.links@,
            id,
        ) implies #[trigger] index::has_video_id(after.videos@, id) by {
        assert(!ids.contains(id));
        index::lemma_video_stays(before.videos@, ids, id);
    }
}

proof fn lemma_having_all<T>(items: Seq<T>, property: spec_fn(T) -> bool)
    requires
        forall|k: int| 0 <= k < items.len() ==> property(#[trigger] items[k]),
    ensures
        rows::having(items, property) == items,
    decreases items.len(),
{
    if items.len() > 0 {
        let start = items.drop_last();
        assert forall|k: int| 0 <= k < start.len() implies property(#[trigger] start[k]) by {
            assert(start[k] == items[k]);
        }
        lemma_having_all(start, property);
        assert(property(items[items.len() - 1]));
        assert(start.push(items.last()) =~= items);
    } else {
        assert(rows::having(items, property) =~= items);
    }
}

/// Whether the rows that an embedding refers to are there.
pub open spec fn live_frame(index: VideoIndex) -> spec_fn(FrameEmbeddingRecord) -> bool {
    |f: FrameEmbeddingRecord|
        index::has_video_id(index.videos@, f.video_id) && index::has_model_id(
            index.models@,
            f.model_id@,
        )
}

/// Whether the rows that a verdict refers to are there.
pub open spec fn live_edge(index: VideoIndex) -> spec_fn(MatchEdge) -> bool {
    |e: MatchEdge|
        index::has_video_id(index.videos@, e.video_a_id) && index::has_video_id(
            index.videos@,
            e.video_b_id,
        ) && index::has_model_id(index.models@, e.model_id@)
}

/// Whether the rows that a pair score refers to are there, and the score was made under the
/// active options, where some are given.
pub open spec fn live_score(index: VideoIndex, active: Option<Seq<char>>) -> spec_fn(
    AiPairScoreRecord,
) -> bool {
    |s: AiPairScoreRecord|
        {
            &&& index::has_video_id(index.videos@, s.video_a_id)
            &&& index::has_video_id(index.videos@, s.video_b_id)
            &&& index::has_model_id(index.models@, s.model_id@)
            &&& active matches Some(key) ==> s.cache_key@ == key
        }
}

/// Whether `after` is `before` without the findings that refer to nothing or were made under
/// other options.
pub open spec fn stale_dropped(
    before: VideoIndex,
    after: VideoIndex,
    active: Option<Seq<char>>,
) -> bool {
    &&& after.frame_embeddings@ == rows::having(before.frame_embeddings@, live_frame(before))
    &&& after.match_edges@ == rows::having(before.match_edges@, live_edge(before))
    &&& after.pair_scores@ == rows::having(before.pair_scores@, live_score(before, active))
    &&& after.videos@ == before.videos@
    &&& after.next_video_id == before.next_video_id
    &&& after.links@ == before.links@
    &&& index::same_sessions(before, after)
    &&& index::same_models(before, after)
}

/// Where every finding refers to what is there and no options are given, nothing is stale.
pub proof fn law_nothing_is_stale_in_order(before: VideoIndex, after: VideoIndex)
    requires
        before.wf(),
        stale_dropped(before, after, None),
    ensures
        index::same_ai_rows(before, after),
{
    assert forall|k: int| 0 <= k < before.frame_embeddings@.len() implies live_frame(before)(
        #[trigger] before.frame_embeddings@[k],
    ) by {}
    lemma_having_all(before.frame_embeddings@, live_frame(before));
    assert forall|k: int| 0 <= k < before.match_edges@.len() implies live_edge(before)(
        #[trigger] before.match_edges@[k],
    ) by {}
    lemma_having_all(before.match_edges@, live_edge(before));
    assert forall|k: int| 0 <= k < before.pair_scores@.len() implies live_score(before, None)(
        #[trigger] before.pair_scores@[k],
    ) by {}
    lemma_having_all(before.pair_scores@, live_score(before, None));
}

/// What is left after a cleanup refers to what is there.
pub proof fn law_cleanup_leaves_live_rows(
    before: VideoIndex,
    after: VideoIndex,
    active: Option<Seq<char>>,
)
    requires
        stale_dropped(before, after, active),
    ensures
        forall|k: int|
            0 <= k < after.frame_embeddings@.len() ==> live_frame(after)(
                #[trigger] after.frame_embeddings@[k],
            ),
        forall|k: int|
            0 <= k < after.match_edges@.len() ==> live_edge(after)(
                #[trigger] after.match_edges@[k],
            ),
        forall|k: int|
            0 <= k < after.pair_scores@.len() ==> live_score(after, active)(
                #[trigger] after.pair_scores@[k],
            ),
{
    rows::lemma_having(before.frame_embeddings@, live_frame(before));
    rows::lemma_having(before.match_edges@, live_edge(before));
    rows::lemma_having(before.pair_scores@, live_score(before, active));
}

/// Whether a model is kept at a path and none that is kept there is newer.
pub open spec fn is_latest(list: Seq<EmbeddingModel>, path: Seq<char>, i: int) -> bool {
    &&& 0 <= i < list.len()
    &&& list[i].model_path@ == path
    &&& forall|k: int|
        #![trigger list[k]]
        0 <= k < list.len() && list[k].model_path@ == path ==> list[k].created_unix_ms
            <= list[i].created_unix_ms
}

/// Whether pairs give the number of embeddings of each video that has some under a model.
pub open spec fn counts_frames(
    frames: Seq<FrameEmbeddingRecord>,
    model: Seq<char>,
    counts: Seq<(i64, usize)>,
) -> bool {
    &&& forall|k: int|
        #![trigger counts[k]]
        0 <= k < counts.len() ==> counts[k].1 > 0 && counts[k].1 == findings::frame_count(
            frames,
            counts[k].0,
            model,
            frames.len() as int,
        )
    &&& forall|i: int, j: int|
        #![trigger counts[i], counts[j]]
        0 <= i < j < counts.len() ==> counts[i].0 != counts[j].0
    &&& forall|f: int|
        #![trigger frames[f]]
        0 <= f < frames.len() && frames[f].model_id@ == model ==> exists|k: int|
            0 <= k < counts.len() && (#[trigger] counts[k]).0 == frames[f].video_id
}

/// The part of a list of ids that one query asks for.
pub open spec fn query_ids(ids: Seq<i64>, chunk: int) -> Seq<i64> {
    ids.subrange(
        800 * chunk,
        if 800 * chunk + 800 <= ids.len() {
            800 * chunk + 800
        } else {
            ids.len() as int
        },
    )
}

/// The positions of the first `n` embeddings that are under a model and of one of some videos.
pub open spec fn positions_of(
    frames: Seq<FrameEmbeddingRecord>,
    model: Seq<char>,
    ids: Seq<i64>,
    n: int,
) -> Seq<usize>
    decreases n,
{
    if n <= 0 {
        Seq::empty()
    } else {
        let rest = positions_of(frames, model, ids, n - 1);
        if frames[n - 1].model_id@ == model && ids.contains(frames[n - 1].video_id) {
            rest.push((n - 1) as usize)
        } else {
            rest
        }
    }
}

/// The positions that the first `n` queries give.
pub open spec fn gathered(
    frames: Seq<FrameEmbeddingRecord>,
    model: Seq<char>,
    ids: Seq<i64>,
    n: int,
) -> Seq<usize>
    decreases n,
{
    if n <= 0 {
        Seq::empty()
    } else {
        gathered(frames, model, ids, n - 1) + positions_of(
            frames,
            model,
            query_ids(ids, n - 1),
            frames.len() as int,
        )
    }
}

/// Whether a frame does not come after another by video and number.
pub open spec fn frame_in_order(a: FrameEmbeddingRecord, b: FrameEmbeddingRecord) -> bool {
    a.video_id < b.video_id || (a.video_id == b.video_id && a.frame_index <= b.frame_index)
}

/// Whether a recorded video holds the same content as another, by all that the scan told of it.
pub open spec fn same_recording(
    row: VideoData,
    video: VideoData,
    duration_close: bool,
    rate_close: bool,
) -> bool {
    &&& row.id != video.id
    &&& row.scan_status == "ok"@
    &&& row.partial_hash == video.partial_hash
    &&& row.size_bytes == video.size_bytes
    &&& duration_close
    &&& (if row.width is Some { row.width->0 } else { 0u32 }) == video.width->0
    &&& (if row.height is Some { row.height->0 } else { 0u32 }) == video.height->0
    &&& (if row.bitrate is Some { row.bitrate->0 } else { 0u64 }) == (if video.bitrate is Some {
        video.bitrate->0
    } else {
        0u64
    })
    &&& or_blank(row.codec) == or_blank(video.codec)
    &&& rate_close
    &&& or_blank(row.audio_codec) == or_blank(video.audio_codec)
    &&& or_blank(row.container_format) == or_blank(video.container_format)
}

/// A text, or the empty one.
pub open spec fn or_blank(value: Option<Seq<char>>) -> Seq<char> {
    match value {
        Some(t) => t,
        None => Seq::empty(),
    }
}

/// What is known of a recorded video beside its row, when it is held against another: whether
/// its length and its frame rate, a missing one counting as zero, are within a thousandth of those
/// of the other.
#[derive(Debug, Clone, Copy, PartialEq, Eq, Structural)]
pub struct TimingProbe {
    pub duration_close: bool,
    pub rate_close: bool,
}

/// Whether a video is recorded with all that its content is told by.
pub open spec fn is_described(video: VideoData) -> bool {
    &&& video.id is Some
    &&& database::nonempty(video.partial_hash) is Some
    &&& video.duration_seconds is Some
    &&& video.width is Some
    &&& video.height is Some
}

/// Whether the embeddings of the video at `i` can stand for those of another video.
pub open spec fn is_source(
    index: VideoIndex,
    probes: Seq<TimingProbe>,
    video: VideoData,
    model: Seq<char>,
    expected: usize,
    i: int,
) -> bool {
    let row = index.videos@[i]@;
    let count = findings::frame_count(
        index.frame_embeddings@,
        row.id->0,
        model,
        index.frame_embeddings@.len() as int,
    );
    &&& same_recording(row, video, probes[i].duration_close, probes[i].rate_close)
    &&& row.id is Some
    &&& count >= 1
    &&& count >= expected
}

/// Whether a video was scanned later than another, or at the same time with a higher id.
pub open spec fn is_newer(a: VideoRecord, b: VideoRecord) -> bool {
    a.scanned_at_unix_ms > b.scanned_at_unix_ms || (a.scanned_at_unix_ms == b.scanned_at_unix_ms
        && a.id->0 > b.id->0)
}

/// Whether an optional text is equal to another, a missing one counting as empty.
fn same_or_blank(a: &Option<String>, b: &Option<String>) -> (r: bool)
    ensures
        r == (or_blank(models::opt_text(*a)) == or_blank(models::opt_text(*b))),
{
    match (a, b) {
        (Some(x), Some(y)) => same_text(x.as_str(), y.as_str()),
        (Some(x), None) => {
            let chars = chars_of(x.as_str());
            assert(x@.len() == 0 ==> x@ =~= Seq::<char>::empty());
            chars.len() == 0
        },
        (None, Some(y)) => {
            let chars = chars_of(y.as_str());
            assert(y@.len() == 0 ==> y@ =~= Seq::<char>::empty());
            chars.len() == 0
        },
        (None, None) => true,
    }
}

/// Whether two optional texts are both there and equal, or both missing.
fn same_option(a: &Option<String>, b: &Option<String>) -> (r: bool)
    ensures
        r == (models::opt_text(*a) == models::opt_text(*b)),
{
    match (a, b) {
        (Some(x), Some(y)) => same_text(x.as_str(), y.as_str()),
        (None, None) => true,
        _ => false,
    }
}

/// A number, or zero.
fn or_zero(value: Option<u32>) -> (r: u32)
    ensures
        r == (if value is Some { value->0 } else { 0u32 }),
{
    match value {
        Some(n) => n,
        None => 0,
    }
}

/// A number, or zero.
fn or_zero_long(value: Option<u64>) -> (r: u64)
    ensures
        r == (if value is Some { value->0 } else { 0u64 }),
{
    match value {
        Some(n) => n,
        None => 0,
    }
}

/// Whether a recorded video holds the same content as another.
fn is_same_recording(row: &VideoRecord, video: &VideoRecord, probe: TimingProbe) -> (r: bool)
    requires
        is_described(video@),
    ensures
        r == same_recording(row@, video@, probe.duration_close, probe.rate_close),
{
    row.id != video.id && same_text(row.scan_status.as_str(), "ok") && same_option(
        &row.partial_hash,
        &video.partial_hash,
    ) && row.size_bytes == video.size_bytes && probe.duration_close && or_zero(row.width)
        == or_zero(video.width) && or_zero(row.height) == or_zero(video.height) && or_zero_long(
        row.bitrate,
    ) == or_zero_long(video.bitrate) && same_or_blank(&row.codec, &video.codec)
        && probe.rate_close && same_or_blank(&row.audio_codec, &video.audio_codec)
        && same_or_blank(&row.container_format, &video.container_format)
}

/// Whether some video has an id.
fn knows_video(videos: &Vec<VideoRecord>, id: i64) -> (r: bool)
    ensures
        r == index::has_video_id(videos@, id),
{
    let mut i: usize = 0;
    while i < videos.len()
        invariant
            i <= videos@.len(),
            forall|k: int| 0 <= k < i ==> (#[trigger] videos@[k]).id != Some(id),
        decreases videos@.len() - i,
    {
        if videos[i].id == Some(id) {
            return true;
        }
        i += 1;
    }
    false
}

/// Whether some model has an id.
fn knows_model(list: &Vec<EmbeddingModel>, id: &str) -> (r: bool)
    ensures
        r == index::has_model_id(list@, id@),
{
    let mut i: usize = 0;
    while i < list.len()
        invariant
            i <= list@.len(),
            forall|k: int| 0 <= k < i ==> (#[trigger] list@[k]).model_id@ != id@,
        decreases list@.len() - i,
    {
        if same_text(list[i].model_id.as_str(), id) {
            return true;
        }
        i += 1;
    }
    false
}

impl VideoIndex {
    /// Removes the given videos and all that refers to them, and counts the rows.
    pub fn delete_videos_by_ids(&mut self, video_ids: &Vec<i64>) -> (r: DeletedVideoRows)
        requires
            old(self).wf(),
        ensures
            final(self).wf(),
            index::videos_dropped(*old(self), *final(self), video_ids@),
            index::rows_lost(*old(self), *final(self), r),
    {
        self.drop_videos(video_ids)
    }

    /// Removes a video and all that refers to it.
    pub fn remove_video(&mut self, video_id: i64)
        requires
            old(self).wf(),
        ensures
            final(self).wf(),
            index::videos_dropped(*old(self), *final(self), seq![video_id]),
    {
        let mut ids: Vec<i64> = Vec::new();
        ids.push(video_id);
        assert(ids@ =~= seq![video_id]);
        self.drop_videos(&ids);
    }

    /// Removes the videos that no scan has seen, with all that refers to them.
    pub fn delete_orphan_videos(&mut self) -> (r: DeletedVideoRows)
        requires
            old(self).wf(),
        ensures
            final(self).wf(),
            index::videos_dropped(
                *old(self),
                *final(self),
                orphans(old(self).videos@, old(self).links@, old(self).videos@.len() as int),
            ),
            index::rows_lost(*old(self), *final(self), r),
    {
        let mut ids: Vec<i64> = Vec::new();
        let mut i: usize = 0;
        while i < self.videos.len()
            invariant
                i <= self.videos@.len(),
                ids@ == orphans(self.videos@, self.links@, i as int),
            decreases self.videos@.len() - i,
        {
            if let Some(id) = self.videos[i].id {
                if !self.is_linked(id) {
                    ids.push(id);
                }
            }
            i += 1;
        }
        self.drop_videos(&ids)
    }

    /// Removes every row. Ids that were given out are not given out again.
    pub fn clear_all_indexes(&mut self)
        requires
            old(self).wf(),
        ensures
            final(self).wf(),
            final(self).videos@.len() == 0,
            final(self).sessions@.len() == 0,
            final(self).links@.len() == 0,
            final(self).models@.len() == 0,
            final(self).frame_embeddings@.len() == 0,
            final(self).match_edges@.len() == 0,
            final(self).pair_scores@.len() == 0,
            final(self).next_video_id == old(self).next_video_id,
            final(self).next_session_id == old(self).next_session_id,
    {
        self.videos = Vec::new();
        self.sessions = Vec::new();
        self.links = Vec::new();
        self.models = Vec::new();
        self.frame_embeddings = Vec::new();
        self.match_edges = Vec::new();
        self.pair_scores = Vec::new();
    }

    /// The number of rows of each table.
    pub fn storage_database_stats(&self) -> (r: StorageDatabaseStats)
        ensures
            r.videos == self.videos@.len(),
            r.scan_sessions == self.sessions@.len(),
            r.frame_embeddings == self.frame_embeddings@.len(),
            r.ai_pair_scores == self.pair_scores@.len(),
            r.ai_match_edges == self.match_edges@.len(),
            r.embedding_models == self.models@.len(),
    {
        StorageDatabaseStats {
            videos: self.videos.len(),
            scan_sessions: self.sessions.len(),
            frame_embeddings: self.frame_embeddings.len(),
            ai_pair_scores: self.pair_scores.len(),
            ai_match_edges: self.match_edges.len(),
            embedding_models: self.models.len(),
        }
    }

    fn frame_marks(&self) -> (r: Vec<bool>)
        ensures
            r@.len() == self.frame_embeddings@.len(),
            forall|k: int|
                0 <= k < r@.len() ==> #[trigger] r@[k] == live_frame(*self)(
                    self.frame_embeddings@[k],
                ),
    {
        let mut marks: Vec<bool> = Vec::new();
        let mut i: usize = 0;
        while i < self.frame_embeddings.len()
            invariant
                i <= self.frame_embeddings@.len(),
                marks@.len() == i,
                forall|k: int|
                    0 <= k < i ==> #[trigger] marks@[k] == live_frame(*self)(
                        self.frame_embeddings@[k],
                    ),
            decreases self.frame_embeddings@.len() - i,
        {
            let f = &self.frame_embeddings[i];
            let live = knows_video(&self.videos, f.video_id) && knows_model(
                &self.models,
                f.model_id.as_str(),
            );
            marks.push(live);
            i += 1;
        }
        marks
    }

    fn edge_marks(&self) -> (r: Vec<bool>)
        ensures
            r@.len() == self.match_edges@.len(),
            forall|k: int|
                0 <= k < r@.len() ==> #[trigger] r@[k] == live_edge(*self)(self.match_edges@[k]),
    {
        let mut marks: Vec<bool> = Vec::new();
        let mut i: usize = 0;
        while i < self.match_edges.len()
            invariant
                i <= self.match_edges@.len(),
                marks@.len() == i,
                forall|k: int|
                    0 <= k < i ==> #[trigger] marks@[k] == live_edge(*self)(self.match_edges@[k]),
            decreases self.match_edges@.len() - i,
        {
            let e = &self.match_edges[i];
            let live = knows_video(&self.videos, e.video_a_id) && knows_video(
                &self.videos,
                e.video_b_id,
            ) && knows_model(&self.models, e.model_id.as_str());
            marks.push(live);
            i += 1;
        }
        marks
    }

    fn score_marks(&self, active: &Option<String>) -> (r: Vec<bool>)
        ensures
            r@.len() == self.pair_scores@.len(),
            forall|k: int|
                0 <= k < r@.len() ==> #[trigger] r@[k] == live_score(
                    *self,
                    models::opt_text(*active),
                )(self.pair_scores@[k]),
    {
        let mut marks: Vec<bool> = Vec::new();
        let mut i: usize = 0;
        while i < self.pair_scores.len()
            invariant
                i <= self.pair_scores@.len(),
                marks@.len() == i,
                forall|k: int|
                    0 <= k < i ==> #[trigger] marks@[k] == live_score(
                        *self,
                        models::opt_text(*active),
                    )(self.pair_scores@[k]),
            decreases self.pair_scores@.len() - i,
        {
            let s = &self.pair_scores[i];
            let live = knows_video(&self.videos, s.video_a_id) && knows_video(
                &self.videos,
                s.video_b_id,
            ) && knows_model(&self.models, s.model_id.as_str());
            let wanted = match active {
                Some(key) => same_text(s.cache_key.as_str(), key.as_str()),
                None => true,
            };
            marks.push(live && wanted);
            i += 1;
        }
        marks
    }

    /// Removes the findings that refer to videos or models that are not there.
    pub fn cleanup_stale_ai_rows(&mut self) -> (r: DeletedVideoRows)
        ensures
            stale_dropped(*old(self), *final(self), None),
            index::rows_lost(*old(self), *final(self), r),
    {
        self.cleanup_stale_ai_rows_with_active_cache(&None)
    }

    /// Removes the findings that refer to videos or models that are not there, and, where the
    /// active options are given, the pair scores that were made under others.
    pub fn cleanup_stale_ai_rows_with_active_cache(&mut self, active_cache_key: &Option<String>)
        -> (r: DeletedVideoRows)
        ensures
            stale_dropped(*old(self), *final(self), models::opt_text(*active_cache_key)),
            index::rows_lost(*old(self), *final(self), r),
    {
        let ghost before = *self;
        let ghost active = models::opt_text(*active_cache_key);
        let frame_marks = self.frame_marks();
        let edge_marks = self.edge_marks();
        let score_marks = self.score_marks(active_cache_key);
        proof {
            rows::lemma_marked_having(before.frame_embeddings@, frame_marks@, live_frame(before));
            rows::lemma_marked_having(before.match_edges@, edge_marks@, live_edge(before));
            rows::lemma_marked_having(
                before.pair_scores@,
                score_marks@,
                live_score(before, active),
            );
            rows::lemma_having(before.frame_embeddings@, live_frame(before));
            rows::lemma_having(before.match_edges@, live_edge(before));
            rows::lemma_having(before.pair_scores@, live_score(before, active));
        }
        let scores_before: usize = self.pair_scores.len();
        let edges_before: usize = self.match_edges.len();
        let frames_before: usize = self.frame_embeddings.len();
        let mut scores: Vec<AiPairScoreRecord> = Vec::new();
        std::mem::swap(&mut scores, &mut self.pair_scores);
        self.pair_scores = keep_marked(scores, &score_marks);
        let mut edges: Vec<MatchEdge> = Vec::new();
        std::mem::swap(&mut edges, &mut self.match_edges);
        self.match_edges = keep_marked(edges, &edge_marks);
        let mut frames: Vec<FrameEmbeddingRecord> = Vec::new();
        std::mem::swap(&mut frames, &mut self.frame_embeddings);
        self.frame_embeddings = keep_marked(frames, &frame_marks);
        DeletedVideoRows {
            videos: 0,
            pair_scores: scores_before - self.pair_scores.len(),
            match_edges: edges_before - self.match_edges.len(),
            frame_embeddings: frames_before - self.frame_embeddings.len(),
        }
    }

    /// The id of the newest model that is kept at a path.
    pub fn latest_embedding_model_id_for_path(&self, model_path: &str) -> (r: Option<String>)
        ensures
            match r {
                Some(id) => exists|i: int|
                    #[trigger] is_latest(self.models@, model_path@, i) && self.models@[i].model_id@
                        == id@,
                None => forall|k: int|
                    #![trigger self.models@[k]]
                    0 <= k < self.models@.len() ==> self.models@[k].model_path@ != model_path@,
            },
    {
        let mut best: Option<usize> = None;
        let mut i: usize = 0;
        while i < self.models.len()
            invariant
                i <= self.models@.len(),
                match best {
                    Some(b) => b < i && is_latest(self.models@.take(i as int), model_path@, b as int),
                    None => forall|k: int|
                        #![trigger self.models@[k]]
                        0 <= k < i ==> self.models@[k].model_path@ != model_path@,
                },
            decreases self.models@.len() - i,
        {
            let ghost seen = self.models@.take(i as int);
            let ghost next = self.models@.take(i + 1);
            assert(forall|k: int| 0 <= k < i ==> #[trigger] next[k] == seen[k]);
            assert(forall|k: int| 0 <= k < i ==> #[trigger] seen[k] == self.models@[k]);
            if same_text(self.models[i].model_path.as_str(), model_path) {
                match best {
                    Some(b) => {
                        if self.models[i].created_unix_ms > self.models[b].created_unix_ms {
                            best = Some(i);
                        }
                    },
                    None => {
                        best = Some(i);
                    },
                }
            }
            i += 1;
        }
        assert(self.models@.take(i as int) =~= self.models@);
        match best {
            Some(b) => Some(self.models[b].model_id.clone()),
            None => None,
        }
    }

    /// The number of embeddings of each video that has some under a model.
    pub fn frame_embedding_counts_by_video(&self, model_id: &str) -> (r: Vec<(i64, usize)>)
        ensures
            counts_frames(self.frame_embeddings@, model_id@, r@),
    {
        let mut seen: Vec<i64> = Vec::new();
        let mut out: Vec<(i64, usize)> = Vec::new();
        let mut i: usize = 0;
        while i < self.frame_embeddings.len()
            invariant
                i <= self.frame_embeddings@.len(),
                seen@.len() == out@.len(),
                forall|k: int| 0 <= k < out@.len() ==> (#[trigger] out@[k]).0 == seen@[k],
                forall|k: int|
                    #![trigger out@[k]]
                    0 <= k < out@.len() ==> out@[k].1 > 0 && out@[k].1 == findings::frame_count(
                        self.frame_embeddings@,
                        out@[k].0,
                        model_id@,
                        self.frame_embeddings@.len() as int,
                    ),
                forall|a: int, b: int|
                    #![trigger out@[a], out@[b]]
                    0 <= a < b < out@.len() ==> out@[a].0 != out@[b].0,
                forall|f: int|
                    #![trigger self.frame_embeddings@[f]]
                    0 <= f < i && self.frame_embeddings@[f].model_id@ == model_id@
                        ==> seen@.contains(self.frame_embeddings@[f].video_id),
            decreases self.frame_embeddings@.len() - i,
        {
            let id: i64 = self.frame_embeddings[i].video_id;
            let ghost seen_before = seen@;
            if same_text(self.frame_embeddings[i].model_id.as_str(), model_id) && !has_id(
                &seen,
                id,
            ) {
                let count: usize = self.count_frame_embeddings(id, model_id);
                proof {
                    lemma_counted(
                        self.frame_embeddings@,
                        id,
                        model_id@,
                        i as int,
                        self.frame_embeddings@.len() as int,
                    );
                    assert forall|a: int| 0 <= a < out@.len() implies (#[trigger] out@[a]).0 != id by {
                        assert(seen@[a] != id);
                    }
                }
                seen.push(id);
                out.push((id, count));
                proof {
                    assert(seen@[seen_before.len() as int] == id);
                    assert forall|x: i64| seen_before.contains(x) implies #[trigger] seen@.contains(
                        x,
                    ) by {
                        let k = choose|k: int| 0 <= k < seen_before.len() && seen_before[k] == x;
                        assert(seen@[k] == x);
                    }
                }
            }
            i += 1;
        }
        proof {
            assert forall|f: int|
                #![trigger self.frame_embeddings@[f]]
                0 <= f < self.frame_embeddings@.len() && self.frame_embeddings@[f].model_id@
                    == model_id@ implies exists|k: int|
                0 <= k < out@.len() && (#[trigger] out@[k]).0
                    == self.frame_embeddings@[f].video_id by {
                let id = self.frame_embeddings@[f].video_id;
                assert(seen@.contains(id));
                let k = choose|k: int| 0 <= k < seen@.len() && seen@[k] == id;
                assert(out@[k].0 == id);
            }
        }
        out
    }

    /// The video whose embeddings can stand for those of another: it holds the same content, its
    /// scan went well, and at least as many frames as expected are embedded. The newest such
    /// video is taken. `probes` tells of each recorded video how its timing compares.
    pub fn find_embedding_source_by_video_identity(
        &self,
        probes: &Vec<TimingProbe>,
        video: &VideoRecord,
        model_id: &str,
        expected_frames: usize,
    ) -> (r: Option<i64>)
        requires
            self.wf(),
            probes@.len() == self.videos@.len(),
        ensures
            match r {
                Some(id) => is_described(video@) && exists|i: int|
                    #![trigger self.videos@[i]]
                    0 <= i < self.videos@.len() && self.videos@[i].id == Some(id) && is_source(
                        *self,
                        probes@,
                        video@,
                        model_id@,
                        expected_frames,
                        i,
                    ) && (forall|k: int|
                        0 <= k < self.videos@.len() && k != i && #[trigger] is_source(
                            *self,
                            probes@,
                            video@,
                            model_id@,
                            expected_frames,
                            k,
                        ) ==> is_newer(self.videos@[i], self.videos@[k])),
                None => !is_described(video@) || forall|k: int|
                    0 <= k < self.videos@.len() ==> !#[trigger] is_source(
                        *self,
                        probes@,
                        video@,
                        model_id@,
                        expected_frames,
                        k,
                    ),
            },
    {
        let hash_there = match &video.partial_hash {
            Some(hash) => chars_of(hash.as_str()).len() > 0,
            None => false,
        };
        if video.id.is_none() || !hash_there || video.duration_seconds.is_none()
            || video.width.is_none() || video.height.is_none() {
            return None;
        }
        let mut best: Option<usize> = None;
        let mut i: usize = 0;
        while i < self.videos.len()
            invariant
                self.wf(),
                is_described(video@),
                probes@.len() == self.videos@.len(),
                i <= self.videos@.len(),
                match best {
                    Some(b) => b < i && is_source(
                        *self,
                        probes@,
                        video@,
                        model_id@,
                        expected_frames,
                        b as int,
                    ) && (forall|k: int|
                        0 <= k < i && k != b && #[trigger] is_source(
                            *self,
                            probes@,
                            video@,
                            model_id@,
                            expected_frames,
                            k,
                        ) ==> is_newer(self.videos@[b as int], self.videos@[k])),
                    None => forall|k: int|
                        0 <= k < i ==> !#[trigger] is_source(
                            *self,
                            probes@,
                            video@,
                            model_id@,
                            expected_frames,
                            k,
                        ),
                },
            decreases self.videos@.len() - i,
        {
            if is_same_recording(&self.videos[i], video, probes[i]) {
                if let Some(id) = self.videos[i].id {
                    let count: usize = self.count_frame_embeddings(id, model_id);
                    if count >= 1 && count >= expected_frames {
                        assert(is_source(
                            *self,
                            probes@,
                            video@,
                            model_id@,
                            expected_frames,
                            i as int,
                        ));
                        match best {
                            Some(b) => {
                                let newer = self.videos[i].scanned_at_unix_ms
                                    > self.videos[b].scanned_at_unix_ms || (
                                self.videos[i].scanned_at_unix_ms
                                    == self.videos[b].scanned_at_unix_ms && match (
                                    self.videos[i].id,
                                    self.videos[b].id,
                                ) {
                                    (Some(x), Some(y)) => x > y,
                                    _ => false,
                                });
                                assert(newer == is_newer(
                                    self.videos@[i as int],
                                    self.videos@[b as int],
                                ));
                                assert(self.videos@[b as int].id != self.videos@[i as int].id);
                                if newer {
                                    best = Some(i);
                                }
                            },
                            None => {
                                best = Some(i);
                            },
                        }
                    }
                }
            }
            i += 1;
        }
        match best {
            Some(b) => self.videos[b].id,
            None => None,
        }
    }

    fn query_frames(&self, model_id: &str, ids: &Vec<i64>) -> (r: Vec<usize>)
        ensures
            r@ == positions_of(
                self.frame_embeddings@,
                model_id@,
                ids@,
                self.frame_embeddings@.len() as int,
            ),
            forall|k: int| 0 <= k < r@.len() ==> (#[trigger] r@[k]) < self.frame_embeddings@.len(),
    {
        let mut out: Vec<usize> = Vec::new();
        let mut i: usize = 0;
        while i < self.frame_embeddings.len()
            invariant
                i <= self.frame_embeddings@.len(),
                out@ == positions_of(self.frame_embeddings@, model_id@, ids@, i as int),
                forall|k: int| 0 <= k < out@.len() ==> (#[trigger] out@[k]) < i,
            decreases self.frame_embeddings@.len() - i,
        {
            if same_text(self.frame_embeddings[i].model_id.as_str(), model_id) && has_id(
                ids,
                self.frame_embeddings[i].video_id,
            ) {
                out.push(i);
            }
            i += 1;
        }
        out
    }

    /// The positions of the embeddings of some videos under a model, by video and frame. The
    /// videos are asked for in queries of at most 800.
    pub fn list_frame_embeddings(&self, model_id: &str, video_ids: &Vec<i64>) -> (r: Vec<usize>)
        ensures
            r@.to_multiset() == gathered(
                self.frame_embeddings@,
                model_id@,
                video_ids@,
                (video_ids@.len() + 799) as int / 800,
            ).to_multiset(),
            forall|k: int| 0 <= k < r@.len() ==> (#[trigger] r@[k]) < self.frame_embeddings@.len(),
            forall|a: int, b: int|
                #![trigger r@[a], r@[b]]
                0 <= a < b < r@.len() ==> frame_in_order(
                    self.frame_embeddings@[r@[a] as int],
                    self.frame_embeddings@[r@[b] as int],
                ),
    {
        let mut all: Vec<usize> = Vec::new();
        let total: usize = video_ids.len();
        let mut start: usize = 0;
        let ghost mut chunk: int = 0;
        while start < total
            invariant
                total == video_ids@.len(),
                start <= total,
                chunk >= 0,
                start == 800 * chunk || (start == total && 800 * (chunk - 1) < total <= 800
                    * chunk),
                all@ == gathered(self.frame_embeddings@, model_id@, video_ids@, chunk),
                forall|k: int|
                    0 <= k < all@.len() ==> (#[trigger] all@[k]) < self.frame_embeddings@.len(),
            decreases total - start,
        {
            let end: usize = if total - start <= 800 {
                total
            } else {
                start + 800
            };
            let mut part: Vec<i64> = Vec::new();
            let mut i: usize = start;
            while i < end
                invariant
                    start <= i <= end <= total,
                    total == video_ids@.len(),
                    part@ == video_ids@.subrange(start as int, i as int),
                decreases end - i,
            {
                part.push(video_ids[i]);
                assert(video_ids@.subrange(start as int, i + 1) =~= video_ids@.subrange(
                    start as int,
                    i as int,
                ).push(video_ids@[i as int]));
                i += 1;
            }
            assert(part@ =~= query_ids(video_ids@, chunk));
            let mut found = self.query_frames(model_id, &part);
            let ghost before = all@;
            let ghost fresh = found@;
            all.append(&mut found);
            proof {
                assert(all@ == before + fresh);
                assert forall|k: int| 0 <= k < all@.len() implies (#[trigger] all@[k])
                    < self.frame_embeddings@.len() by {
                    if k >= before.len() {
                        assert(all@[k] == fresh[k - before.len()]);
                    }
                }
                chunk = chunk + 1;
            }
            start = end;
        }
        assert(chunk == (video_ids@.len() + 799) / 800);
        self.sort_frames(all)
    }

    fn is_in_order(&self, a: usize, b: usize) -> (r: bool)
        requires
            a < self.frame_embeddings@.len(),
            b < self.frame_embeddings@.len(),
        ensures
            r == frame_in_order(
                self.frame_embeddings@[a as int],
                self.frame_embeddings@[b as int],
            ),
    {
        let x = &self.frame_embeddings[a];
        let y = &self.frame_embeddings[b];
        x.video_id < y.video_id || (x.video_id == y.video_id && x.frame_index <= y.frame_index)
    }

    fn sort_frames(&self, list: Vec<usize>) -> (r: Vec<usize>)
        requires
            forall|k: int|
                0 <= k < list@.len() ==> (#[trigger] list@[k]) < self.frame_embeddings@.len(),
        ensures
            r@.to_multiset() == list@.to_multiset(),
            forall|k: int| 0 <= k < r@.len() ==> (#[trigger] r@[k]) < self.frame_embeddings@.len(),
            forall|a: int, b: int|
                #![trigger r@[a], r@[b]]
                0 <= a < b < r@.len() ==> frame_in_order(
                    self.frame_embeddings@[r@[a] as int],
                    self.frame_embeddings@[r@[b] as int],
                ),
    {
        broadcast use vstd::seq_lib::group_to_multiset_ensures;

        let mut out: Vec<usize> = Vec::new();
        let mut i: usize = 0;
        assert(list@.take(0) =~= out@);
        while i < list.len()
            invariant
                i <= list@.len(),
                forall|k: int|
                    0 <= k < list@.len() ==> (#[trigger] list@[k]) < self.frame_embeddings@.len(),
                out@.to_multiset() == list@.take(i as int).to_multiset(),
                forall|k: int|
                    0 <= k < out@.len() ==> (#[trigger] out@[k]) < self.frame_embeddings@.len(),
                forall|a: int, b: int|
                    #![trigger out@[a], out@[b]]
                    0 <= a < b < out@.len() ==> frame_in_order(
                        self.frame_embeddings@[out@[a] as int],
                        self.frame_embeddings@[out@[b] as int],
                    ),
            decreases list@.len() - i,
        {
            let item: usize = list[i];
            let mut j: usize = out.len();
            while j > 0 && !self.is_in_order(out[j - 1], item)
                invariant
                    j <= out@.len(),
                    item < self.frame_embeddings@.len(),
                    forall|k: int|
                        0 <= k < out@.len() ==> (#[trigger] out@[k]) < self.frame_embeddings@.len(),
                    forall|k: int|
                        j <= k < out@.len() ==> !frame_in_order(
                            self.frame_embeddings@[(#[trigger] out@[k]) as int],
                            self.frame_embeddings@[item as int],
                        ),
                decreases j,
            {
                j -= 1;
            }
            let ghost before = out@;
            out.insert(j, item);
            proof {
                broadcast use vstd::seq_lib::group_to_multiset_ensures;

                assert(out@ == before.insert(j as int, item));
                assert(out@[j as int] == item);
                assert(out@.remove(j as int) =~= before);
                vstd::seq_lib::to_multiset_remove(out@, j as int);
                assert(out@.contains(item));
                assert(out@.to_multiset().count(item) > 0);
                assert(out@.to_multiset() =~= before.to_multiset().insert(item));
                assert(list@.take(i + 1) =~= list@.take(i as int).push(item));
                assert forall|k: int| 0 <= k < out@.len() implies #[trigger] out@[k] == (if k < j {
                    before[k]
                } else if k == j {
                    item
                } else {
                    before[k - 1]
                }) by {}
            }
            i += 1;
        }
        assert(list@.take(i as int) =~= list@);
        out
    }
}

proof fn lemma_counted(
    frames: Seq<FrameEmbeddingRecord>,
    video_id: i64,
    model: Seq<char>,
    i: int,
    n: int,
)
    requires
        0 <= i < n <= frames.len(),
        findings::is_frame_of(frames[i], video_id, model),
    ensures
        findings::frame_count(frames, video_id, model, n) > 0,
    decreases n,
{
    if i < n - 1 {
        lemma_counted(frames, video_id, model, i, n - 1);
    }
}

/// The placeholders of a query for some number of values: question marks with commas between.
pub open spec fn placeholders(count: int) -> Seq<char>
    decreases count,
{
    if count <= 0 {
        Seq::empty()
    } else if count == 1 {
        seq!['?']
    } else {
        placeholders(count - 1).push(',').push('?')
    }
}

/// The placeholders of a query for some number of values.
pub fn sql_placeholders(count: usize) -> (r: String)
    ensures
        r@ == placeholders(count as int),
{
    let mut out: String = String::new();
    let mut i: usize = 0;
    assert(out@ =~= Seq::<char>::empty());
    while i < count
        invariant
            i <= count,
            out@ == placeholders(i as int),
        decreases count - i,
    {
        if i > 0 {
            out.push(',');
        }
        out.push('?');
        assert(i == 0 ==> out@ =~= seq!['?']);
        i += 1;
    }
    out
}

} // verus!
