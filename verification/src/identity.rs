//! Recognizing a video that was moved while nobody looked: a file whose recorded path is gone and
//! whose content is that of a new file.
use crate::database;
use crate::database::{same_content_identity, same_storage_root, FilePlace, RowProbe};
use crate::index;
use crate::index::{SessionLink, VideoIndex};
use crate::models::{VideoData, VideoRecord};
use crate::rows;
use crate::text;
use crate::text::{is_blank, same_text};
use vstd::prelude::*;
use vstd::string::*;

verus! {

/// Whether enough is known of a file for it to be recognized.
pub open spec fn recognizable(video: VideoData) -> bool {
    &&& database::nonempty(video.partial_hash) is Some
    &&& video.duration_seconds is Some
    &&& video.size_bytes != 0
    &&& text::trimmed(video.extension).len() > 0
}

/// Whether a recorded video lost its file and has the content of another file on the same disk.
pub open spec fn is_twin(row: VideoData, video: VideoData, probe: RowProbe) -> bool {
    &&& row.scan_status == "ok"@
    &&& !database::same_folded(row.path, video.path)
    &&& database::on_one_root(row.path, video.path)
    &&& !probe.path_exists
    &&& database::same_identity(row, video, probe.duration_close)
}

/// Whether the video at `i` is the only one that lost its file and has the content of a file.
pub open spec fn only_twin(
    videos: Seq<VideoRecord>,
    video: VideoData,
    probes: Seq<RowProbe>,
    i: int,
) -> bool {
    &&& recognizable(video)
    &&& 0 <= i < videos.len()
    &&& is_twin(videos[i]@, video, probes[i])
    &&& forall|k: int|
        #![trigger videos[k]]
        0 <= k < videos.len() && k != i ==> !is_twin(videos[k]@, video, probes[k])
}

/// Whether no video can be recognized in a file, or more than one can.
pub open spec fn no_twin(videos: Seq<VideoRecord>, video: VideoData, probes: Seq<RowProbe>) -> bool {
    forall|i: int| !#[trigger] only_twin(videos, video, probes, i)
}

/// Whether a recorded video lost its file and has the content of another file on the same disk.
fn check_twin(row: &VideoRecord, video: &VideoRecord, probe: RowProbe) -> (r: bool)
    ensures
        r == is_twin(row@, video@, probe),
{
    same_text(row.scan_status.as_str(), "ok") && !text::eq_ignore_ascii_case(
        row.path.as_str(),
        video.path.as_str(),
    ) && same_storage_root(row.path.as_str(), video.path.as_str()) && !probe.path_exists
        && same_content_identity(row, video, probe.duration_close)
}

/// Whether enough is known of a file for it to be recognized.
fn check_recognizable(video: &VideoRecord) -> (r: bool)
    ensures
        r == recognizable(video@),
{
    let hashed = match &video.partial_hash {
        Some(hash) => text::chars_of(hash.as_str()).len() > 0,
        None => false,
    };
    hashed && video.duration_seconds.is_some() && video.size_bytes != 0 && !is_blank(
        video.extension.as_str(),
    )
}

/// Whether `after` is `before` with the links of one video given to another one too.
pub open spec fn links_shared(before: VideoIndex, after: VideoIndex, from: i64, to: i64) -> bool {
    &&& after.videos@ == before.videos@
    &&& after.next_video_id == before.next_video_id
    &&& index::same_sessions(before, after)
    &&& index::same_models(before, after)
    &&& index::same_ai_rows(before, after)
    &&& forall|link: SessionLink| #[trigger]
        after.links@.contains(link) <==> before.links@.contains(link) || (link.video_id == to
            && before.links@.contains(
            (SessionLink { session_id: link.session_id, video_id: from }),
        ))
}

/// The row, recorded at a file's path without a content hash, that gives way to the video that is
/// recognized in the file.
pub open spec fn is_placeholder(
    videos: Seq<VideoRecord>,
    video: VideoData,
    probes: Seq<RowProbe>,
    i: int,
) -> bool {
    &&& database::newest_at(videos, video.path, i)
    &&& !database::same_identity(videos[i]@, video, probes[i].duration_close)
    &&& database::nonempty(videos[i]@.partial_hash) is None
}

impl VideoIndex {
    /// The position of the only video that lost its file and has the content of a file. `probes`
    /// tells of each video, held against the file.
    pub fn find_missing_video_by_content_identity(
        &self,
        candidate: &VideoRecord,
        probes: &Vec<RowProbe>,
    ) -> (r: Option<usize>)
        requires
            probes@.len() == self.videos@.len(),
        ensures
            r matches Some(i) ==> only_twin(self.videos@, candidate@, probes@, i as int),
            r is None ==> no_twin(self.videos@, candidate@, probes@),
    {
        if !check_recognizable(candidate) {
            return None;
        }
        let mut found: Option<usize> = None;
        let mut i: usize = 0;
        while i < self.videos.len()
            invariant
                i <= self.videos@.len(),
                probes@.len() == self.videos@.len(),
                recognizable(candidate@),
                found matches Some(f) ==> {
                    &&& f < i
                    &&& is_twin(self.videos@[f as int]@, candidate@, probes@[f as int])
                    &&& forall|k: int|
                        #![trigger self.videos@[k]]
                        0 <= k < i && k != f ==> !is_twin(
                            self.videos@[k]@,
                            candidate@,
                            probes@[k],
                        )
                },
                found is None ==> forall|k: int|
                    #![trigger self.videos@[k]]
                    0 <= k < i ==> !is_twin(self.videos@[k]@, candidate@, probes@[k]),
            decreases self.videos@.len() - i,
        {
            if check_twin(&self.videos[i], candidate, probes[i]) {
                if let Some(f) = found {
                    assert forall|x: int| !#[trigger] only_twin(
                        self.videos@,
                        candidate@,
                        probes@,
                        x,
                    ) by {
                        let a = self.videos@[f as int];
                        let b = self.videos@[i as int];
                    }
                    return None;
                }
                found = Some(i);
            }
            i += 1;
        }
        proof {
            if found is None {
                assert forall|x: int| !#[trigger] only_twin(
                    self.videos@,
                    candidate@,
                    probes@,
                    x,
                ) by {
                    if 0 <= x < self.videos@.len() {
                        let a = self.videos@[x];
                    }
                }
            }
        }
        found
    }

    /// Records that a video lies at a new place, where it is recognized there and nothing is
    /// recorded at that place. Gives its id.
    pub fn migrate_video_by_content_identity(
        &mut self,
        candidate: &VideoRecord,
        place: &FilePlace,
        probes: &Vec<RowProbe>,
        now: i64,
    ) -> (r: Result<Option<i64>, String>)
        requires
            old(self).wf(),
            probes@.len() == old(self).videos@.len(),
            place.path@ == candidate.path@,
        ensures
            final(self).wf(),
            r is Ok,
            r matches Ok(Some(id)) ==> {
                &&& database::path_free(old(self).videos@, candidate.path@)
                &&& exists|i: int| #[trigger]
                    only_twin(old(self).videos@, candidate@, probes@, i) && old(
                        self).videos@[i].id == Some(id)
                &&& database::one_moved(*old(self), *final(self), id, *place, now)
            },
            r matches Ok(None) ==> {
                &&& *final(self) == *old(self)
                &&& !database::path_free(old(self).videos@, candidate.path@) || no_twin(
                    old(self).videos@,
                    candidate@,
                    probes@,
                )
            },
    {
        let ghost before = *self;
        if self.find_video_by_path(candidate.path.as_str()).is_some() {
            return Ok(None);
        }
        match self.find_missing_video_by_content_identity(candidate, probes) {
            None => Ok(None),
            Some(i) => {
                assert(before.videos@[i as int].id is Some);
                let id: i64 = match self.videos[i].id {
                    Some(own) => own,
                    None => 0,
                };
                proof {
                    lemma_free_path_has_no_orphans(
                        before.videos@,
                        before.links@,
                        id,
                        place.path@,
                        before.videos@.len() as int,
                    );
                    lemma_free_path_has_no_other(before.videos@, id, place.path@, 0);
                    lemma_spare_none(before);
                    assert(index::has_video_id(before.videos@, id)) by {
                        assert(before.videos@[i as int].id == Some(id));
                    }
                }
                match self.move_video_path(id, place, now) {
                    Ok(()) => {
                        proof {
                            let mid = choose|mid: VideoIndex| #[trigger]
                                index::videos_dropped(before, mid, Seq::empty())
                                    && database::one_moved(mid, *self, id, *place, now);
                            assert(database::one_moved(before, *self, id, *place, now));
                        }
                        Ok(Some(id))
                    },
                    Err(message) => Err(message),
                }
            },
        }
    }

    /// Gives the links of one video to another one too.
    fn share_links(&mut self, from: i64, to: i64)
        requires
            old(self).wf(),
            index::has_video_id(old(self).videos@, to),
        ensures
            final(self).wf(),
            links_shared(*old(self), *final(self), from, to),
    {
        let ghost before = *self;
        let count: usize = self.links.len();
        let mut i: usize = 0;
        while i < count
            invariant
                i <= count,
                count == before.links@.len(),
                before.wf(),
                self.wf(),
                index::has_video_id(before.videos@, to),
                self.videos@ == before.videos@,
                self.next_video_id == before.next_video_id,
                index::same_sessions(before, *self),
                index::same_models(before, *self),
                index::same_ai_rows(before, *self),
                self.links@.len() >= count,
                self.links@.take(count as int) == before.links@,
                forall|link: SessionLink| #[trigger]
                    self.links@.contains(link) <==> before.links@.contains(link) || (link.video_id
                        == to && before.links@.take(i as int).contains(
                        (SessionLink { session_id: link.session_id, video_id: from }),
                    )),
            decreases count - i,
        {
            assert(self.links@.take(count as int)[i as int] == self.links@[i as int]);
            let link = self.links[i];
            let ghost mid = *self;
            assert(before.links@.take(i + 1) =~= before.links@.take(i as int).push(link));
            if link.video_id == from {
                assert(before.links@.contains(before.links@[i as int]));
                let _linked = self.link_video_to_scan_session(link.session_id, to);
                proof {
                    let added = SessionLink { session_id: link.session_id, video_id: to };
                    assert(index::has_session_id(before.sessions@, before.links@[i as int].session_id));
                    assert(self.links@.take(count as int) =~= before.links@);
                    assert forall|x: SessionLink|
                        self.links@.contains(x) <==> mid.links@.contains(x) || x == added by {
                        if !mid.links@.contains(added) {
                            if self.links@.contains(x) {
                                let q = choose|q: int|
                                    0 <= q < self.links@.len() && self.links@[q] == x;
                                if q < mid.links@.len() {
                                    assert(mid.links@[q] == x);
                                }
                            }
                            if mid.links@.contains(x) {
                                let q = choose|q: int|
                                    0 <= q < mid.links@.len() && mid.links@[q] == x;
                                assert(self.links@[q] == x);
                            }
                            assert(self.links@[mid.links@.len() as int] == added);
                        }
                    }
                }
            }
            proof {
                let part = before.links@.take(i as int);
                assert forall|x: SessionLink| #[trigger] part.push(link).contains(x)
                    <==> part.contains(x) || x == link by {
                    if part.push(link).contains(x) {
                        let q = choose|q: int|
                            0 <= q < part.len() + 1 && part.push(link)[q] == x;
                        if q < part.len() {
                            assert(part[q] == x);
                        }
                    }
                    if part.contains(x) {
                        let q = choose|q: int| 0 <= q < part.len() && part[q] == x;
                        assert(part.push(link)[q] == x);
                    }
                    assert(part.push(link)[part.len() as int] == link);
                }
                assert forall|x: SessionLink| #[trigger]
                    self.links@.contains(x) <==> before.links@.contains(x) || (x.video_id == to
                        && before.links@.take(i + 1).contains(
                        (SessionLink { session_id: x.session_id, video_id: from }),
                    )) by {
                    let source = SessionLink { session_id: x.session_id, video_id: from };
                    assert(part.push(link).contains(source) <==> part.contains(source) || source
                        == link);
                    assert(mid.links@.contains(x) <==> before.links@.contains(x) || (x.video_id
                        == to && part.contains(source)));
                }
            }
            i += 1;
        }
        assert(before.links@.take(count as int) =~= before.links@);
    }
}

proof fn lemma_free_path_has_no_orphans(
    videos: Seq<VideoRecord>,
    links: Seq<SessionLink>,
    id: i64,
    path: Seq<char>,
    n: int,
)
    requires
        database::path_free(videos, path),
        n <= videos.len(),
    ensures
        database::orphans_at(videos, links, id, path, Seq::empty(), n) == Seq::<i64>::empty(),
    decreases n,
{
    if n > 0 {
        lemma_free_path_has_no_orphans(videos, links, id, path, n - 1);
        assert(!database::same_folded(videos[n - 1].path@, path));
    }
}

proof fn lemma_free_path_has_no_other(videos: Seq<VideoRecord>, id: i64, path: Seq<char>, from: int)
    requires
        database::path_free(videos, path),
        0 <= from,
    ensures
        database::first_other(videos, id, path, from) == -1,
    decreases videos.len() - from,
{
    if from < videos.len() {
        assert(!database::same_folded(videos[from].path@, path));
        lemma_free_path_has_no_other(videos, id, path, from + 1);
    }
}

proof fn lemma_spare_none(before: VideoIndex)
    ensures
        rows::having(before.videos@, index::video_spared(Seq::empty())) == before.videos@,
        forall|mid: VideoIndex| #[trigger]
            index::videos_dropped(before, mid, Seq::empty()) ==> {
                &&& mid.videos@ == before.videos@
                &&& mid.links@ == before.links@
                &&& index::same_ai_rows(before, mid)
            },
{
    database::lemma_drop_none(before);
}

/// Whether the index stays as it is before a file is recorded: something with known content, or
/// the same content, is recorded at its path; or nothing is, or a placeholder is, and no video is
/// recognized in the file, or only the placeholder itself.
pub open spec fn nothing_to_carry_over(
    before: VideoIndex,
    video: VideoData,
    probes: Seq<RowProbe>,
) -> bool {
    ||| no_twin(before.videos@, video, probes)
    ||| !database::path_free(before.videos@, video.path) && forall|i: int|
        !#[trigger] is_placeholder(before.videos@, video, probes, i)
    ||| exists|i: int, j: int|
        #![trigger is_placeholder(before.videos@, video, probes, i), only_twin(before.videos@, video, probes, j)]
        is_placeholder(before.videos@, video, probes, i) && only_twin(
            before.videos@,
            video,
            probes,
            j,
        ) && before.videos@[i].id == before.videos@[j].id
}

/// Whether `ready` is the index in which a file is recorded, made out of `before`: a video that
/// is recognized in the file was moved to its path, in place of a placeholder if there was one.
pub open spec fn carried_over(
    before: VideoIndex,
    ready: VideoIndex,
    video: VideoData,
    place: FilePlace,
    probes: Seq<RowProbe>,
    now: i64,
) -> bool {
    ||| nothing_to_carry_over(before, video, probes) && ready == before
    ||| exists|j: int| #[trigger]
        only_twin(before.videos@, video, probes, j) && database::path_free(
            before.videos@,
            video.path,
        ) && database::one_moved(before, ready, before.videos@[j].id->0, place, now)
    ||| exists|i: int, j: int, shared: VideoIndex, mid: VideoIndex|
        #![trigger is_placeholder(before.videos@, video, probes, i), only_twin(before.videos@, video, probes, j), links_shared(before, shared, before.videos@[i].id->0, before.videos@[j].id->0), database::all_moved(mid, ready, seq![(before.videos@[j].id->0, place)], 1, now)]
        is_placeholder(before.videos@, video, probes, i) && only_twin(
            before.videos@,
            video,
            probes,
            j,
        ) && before.videos@[i].id != before.videos@[j].id && links_shared(
            before,
            shared,
            before.videos@[i].id->0,
            before.videos@[j].id->0,
        ) && database::whole_trouble(
            shared.videos@,
            shared.links@,
            seq![before.videos@[i].id->0],
            seq![(before.videos@[j].id->0, place)],
        ) is None && index::videos_dropped(
            shared,
            mid,
            database::prepared(
                shared.videos@,
                shared.links@,
                seq![before.videos@[i].id->0],
                seq![(before.videos@[j].id->0, place)],
                1,
            ).gone + seq![before.videos@[i].id->0],
        ) && database::all_moved(mid, ready, seq![(before.videos@[j].id->0, place)], 1, now)
}

/// Whether a recognized video cannot take the place of a placeholder, and why. Then `after` has the
/// scans of the placeholder for the recognized video too, and has lost the unscanned videos that
/// gave way; nothing else is changed.
pub open spec fn cannot_carry_over(
    before: VideoIndex,
    after: VideoIndex,
    video: VideoData,
    place: FilePlace,
    probes: Seq<RowProbe>,
    message: Seq<char>,
) -> bool {
    exists|i: int, j: int, shared: VideoIndex|
        #![trigger is_placeholder(before.videos@, video, probes, i), only_twin(before.videos@, video, probes, j), links_shared(before, shared, before.videos@[i].id->0, before.videos@[j].id->0)]
        is_placeholder(before.videos@, video, probes, i) && only_twin(
            before.videos@,
            video,
            probes,
            j,
        ) && before.videos@[i].id != before.videos@[j].id && links_shared(
            before,
            shared,
            before.videos@[i].id->0,
            before.videos@[j].id->0,
        ) && (database::whole_trouble(
            shared.videos@,
            shared.links@,
            seq![before.videos@[i].id->0],
            seq![(before.videos@[j].id->0, place)],
        ) matches Some(trouble) && message == database::trouble_message(trouble))
            && index::videos_dropped(
            shared,
            after,
            database::prepared(
                shared.videos@,
                shared.links@,
                seq![before.videos@[i].id->0],
                seq![(before.videos@[j].id->0, place)],
                1,
            ).gone,
        )
}

impl VideoIndex {
    /// Records a file under the id of the video that is recognized in it, if one is, so that what
    /// the model found of the video stays. Gives the id.
    pub fn upsert_video_preserving_content_identity(
        &mut self,
        video: &VideoRecord,
        place: &FilePlace,
        probes: &Vec<RowProbe>,
        now: i64,
    ) -> (r: Result<i64, String>)
        requires
            old(self).wf(),
            old(self).next_video_id < i64::MAX,
            probes@.len() == old(self).videos@.len(),
            place.path@ == video.path@,
        ensures
            final(self).wf(),
            r matches Ok(id) ==> exists|ready: VideoIndex| #[trigger]
                carried_over(*old(self), ready, video@, *place, probes@, now)
                    && database::upserted(ready, *final(self), video@, id),
            r matches Ok(id) ==> index::same_sessions(*old(self), *final(self))
                && index::has_video_id(final(self).videos@, id),
            r matches Err(message) ==> cannot_carry_over(
                *old(self),
                *final(self),
                video@,
                *place,
                probes@,
                message@,
            ),
    {
        let ghost before = *self;
        match self.find_video_by_path(video.path.as_str()) {
            Some(e) => {
                let hashed = match &self.videos[e].partial_hash {
                    Some(hash) => text::chars_of(hash.as_str()).len() > 0,
                    None => false,
                };
                let placeholder = !same_content_identity(
                    &self.videos[e],
                    video,
                    probes[e].duration_close,
                ) && !hashed;
                assert(!database::path_free(before.videos@, video.path@)) by {
                    assert(database::same_folded(before.videos@[e as int].path@, video.path@));
                }
                if placeholder {
                    assert(is_placeholder(before.videos@, video@, probes@, e as int));
                    if let Some(m) = self.find_missing_video_by_content_identity(video, probes) {
                        assert(before.videos@[e as int].id is Some);
                        assert(before.videos@[m as int].id is Some);
                        let existing: i64 = match self.videos[e].id {
                            Some(own) => own,
                            None => 0,
                        };
                        let missing: i64 = match self.videos[m].id {
                            Some(own) => own,
                            None => 0,
                        };
                        if existing != missing {
                            assert(index::has_video_id(before.videos@, missing));
                            self.share_links(existing, missing);
                            let ghost shared = *self;
                            let mut removed: Vec<i64> = Vec::new();
                            removed.push(existing);
                            let mut moves: Vec<(i64, FilePlace)> = Vec::new();
                            let target = FilePlace {
                                path: place.path.clone(),
                                file_name: place.file_name.clone(),
                                parent_path: place.parent_path.clone(),
                            };
                            assert(target == *place);
                            moves.push((missing, target));
                            assert(removed@ =~= seq![existing]);
                            assert(moves@ =~= seq![(missing, *place)]);
                            match self.delete_videos_and_move_paths(&removed, &moves, now) {
                                Err(message) => {
                                    return Err(message);
                                },
                                Ok(_lost) => {
                                    proof {
                                        let gone = database::prepared(
                                            shared.videos@,
                                            shared.links@,
                                            removed@,
                                            moves@,
                                            1,
                                        ).gone;
                                        let mid = choose|mid: VideoIndex| #[trigger]
                                            index::videos_dropped(shared, mid, gone + removed@)
                                                && database::all_moved(
                                                mid,
                                                *self,
                                                moves@,
                                                1,
                                                now,
                                            );
                                        assert(links_shared(
                                            before,
                                            shared,
                                            before.videos@[e as int].id->0,
                                            before.videos@[m as int].id->0,
                                        ));
                                        assert(database::all_moved(
                                            mid,
                                            *self,
                                            seq![(before.videos@[m as int].id->0, *place)],
                                            1,
                                            now,
                                        ));
                                        assert(carried_over(
                                            before,
                                            *self,
                                            video@,
                                            *place,
                                            probes@,
                                            now,
                                        ));
                                    }
                                },
                            }
                        } else {
                            assert(nothing_to_carry_over(before, video@, probes@));
                        }
                    }
                } else {
                    assert forall|i: int| !#[trigger] is_placeholder(
                        before.videos@,
                        video@,
                        probes@,
                        i,
                    ) by {
                        if database::newest_at(before.videos@, video@.path, i) && i != e {
                            let a = before.videos@[i];
                            let b = before.videos@[e as int];
                            assert(a.id->0 == b.id->0);
                            assert(a.id is Some && b.id is Some);
                            if i < e {
                                assert(before.videos@[i].id != before.videos@[e as int].id);
                            } else {
                                assert(before.videos@[e as int].id != before.videos@[i].id);
                            }
                        }
                    }
                }
            },
            None => {
                let moved = self.migrate_video_by_content_identity(video, place, probes, now);
                if let Err(message) = moved {
                    return Err(message);
                }
            },
        }
        assert(carried_over(before, *self, video@, *place, probes@, now));
        let ghost ready = *self;
        assert(ready.next_video_id == before.next_video_id);
        let id: i64 = self.upsert_video(video);
        Ok(id)
    }
}

/// A file that is recognized keeps the id of the video, and with it what the model found: where
/// nothing is recorded at its path, the row that is written is the row of the recognized video,
/// and nothing that the model found is removed.
pub proof fn law_recognized_video_keeps_its_rows(
    before: VideoIndex,
    ready: VideoIndex,
    after: VideoIndex,
    video: VideoData,
    place: FilePlace,
    probes: Seq<RowProbe>,
    now: i64,
    j: int,
    id: i64,
)
    requires
        before.wf(),
        only_twin(before.videos@, video, probes, j),
        database::path_free(before.videos@, video.path),
        place.path@ == video.path,
        database::one_moved(before, ready, before.videos@[j].id->0, place, now),
        database::upserted(ready, after, video, id),
    ensures
        id == before.videos@[j].id->0,
        after.videos@.len() == before.videos@.len(),
        index::same_ai_rows(before, after),
{
    assert(before.videos@[j].id is Some);
    let row = ready.videos@[j];
    assert(row@ == database::moved(before.videos@[j]@, place, now));
    assert(database::path_at(ready.videos@, video.path, j));
    let i = choose|i: int| #[trigger]
        database::path_at(ready.videos@, video.path, i) && {
            &&& id == ready.videos@[i].id->0
            &&& after.next_video_id == ready.next_video_id
            &&& after.videos@.len() == ready.videos@.len()
            &&& after.videos@[i]@ == database::recorded(video, id)
            &&& forall|k: int|
                0 <= k < ready.videos@.len() && k != i ==> #[trigger] after.videos@[k]
                    == ready.videos@[k]
            &&& if database::content_changed(ready.videos@[i]@, video) {
                index::ai_rows_dropped(ready, after, seq![id])
            } else {
                index::same_ai_rows(ready, after)
            }
        };
    if i != j {
        assert(before.videos@[i].id is Some);
        if i < j {
            assert(before.videos@[i].id != before.videos@[j].id);
        } else {
            assert(before.videos@[j].id != before.videos@[i].id);
        }
        assert(ready.videos@[i] == before.videos@[i]);
        assert(database::same_folded(before.videos@[i].path@, video.path));
    }
    assert(row@.id == Some(id));
}

} // verus!
