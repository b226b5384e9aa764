//! Scanning a source: what becomes of each of its files in the index.
use crate::database;
use crate::database::{FilePlace, RowProbe};
use crate::identity;
use crate::index;
use crate::index::{SessionLink, VideoIndex};
use crate::local_preprocess;
use crate::local_preprocess::worker_count;
use crate::media;
use crate::media::{display_path_text, place_of, same_file_observation};
use crate::models::{AppSettings, ScanProgress, ScanSummary, VideoRecord};
use crate::paths;
use crate::paths::{database_path, Root, RootData, ALLOWED_SOURCE};
use crate::scans;
use crate::settings;
use crate::settings::is_path_allowed_by_settings;
use crate::text;
use crate::text::{cat, decimal_text};
use crate::upkeep;
use vstd::prelude::*;
use vstd::string::*;

verus! {

/// A scan of a source: how far it is. Files wait to be looked at; those that have to be read are
/// pending.
#[derive(Debug, Clone)]
pub struct ScanRun {
    pub source: String,
    pub session_id: i64,
    pub total_files: usize,
    pub waiting: usize,
    pub pending: usize,
    pub scanned: usize,
    pub failed: usize,
}

impl ScanRun {
    /// Every file is waiting, pending, scanned or failed, and only one of these.
    pub open spec fn wf(&self) -> bool {
        self.waiting + self.pending + self.scanned + self.failed == self.total_files
    }

    /// Whether two runs are of the same scan with the same files.
    pub open spec fn same_scan(&self, other: ScanRun) -> bool {
        &&& self.source == other.source
        &&& self.session_id == other.session_id
        &&& self.total_files == other.total_files
    }

    /// Takes note of the number of files.
    pub fn start_files(&mut self, total_files: usize)
        requires
            old(self).total_files == 0,
            old(self).wf(),
        ensures
            final(self).wf(),
            final(self).source == old(self).source,
            final(self).session_id == old(self).session_id,
            final(self).total_files == total_files,
            final(self).waiting == total_files,
            final(self).pending == 0,
            final(self).scanned == 0,
            final(self).failed == 0,
    {
        self.total_files = total_files;
        self.waiting = total_files;
    }

    /// What a run tells.
    pub fn progress(&self, phase: &str, current_path: Option<String>) -> (r: ScanProgress)
        ensures
            r.source@ == self.source@,
            r.phase@ == phase@,
            r.total_files == self.total_files,
            r.scanned == self.scanned,
            r.failed == self.failed,
            r.current_path == current_path,
    {
        ScanProgress {
            source: self.source.clone(),
            phase: phase.to_owned(),
            total_files: self.total_files,
            scanned: self.scanned,
            failed: self.failed,
            current_path,
        }
    }

    /// The name of the phase in which files are looked at.
    pub fn listing_phase(&self, settings: &AppSettings) -> (r: String)
        ensures
            r@ == (if settings.local_preprocess_enabled {
                "listing-local-staging"@
            } else {
                "scanning"@
            }),
    {
        if settings.local_preprocess_enabled {
            "listing-local-staging".to_owned()
        } else {
            "scanning".to_owned()
        }
    }

    /// The number of workers that read files.
    pub fn workers(&self, settings: &AppSettings) -> (r: usize)
        ensures
            r == local_preprocess::workers(settings.scan_worker_count, 4, self.pending as int),
    {
        worker_count(settings.scan_worker_count, 4, self.pending)
    }

    /// The name of the phase in which workers read files.
    pub fn reading_phase(&self, workers: usize) -> (r: String)
        ensures
            r@ == "scanning x"@ + text::decimal(workers as nat),
    {
        cat("scanning x", decimal_text(workers as u64).as_str())
    }

    /// What a scan came to.
    pub fn summary(&self, root: &Root, elapsed_ms: u128) -> (r: ScanSummary)
        ensures
            r.session_id == Some(self.session_id),
            r.source@ == self.source@,
            r.database_path@ == paths::in_data(root@, "index.sqlite"@),
            r.total_files == self.total_files,
            r.scanned == self.scanned,
            r.failed == self.failed,
            r.elapsed_ms == elapsed_ms,
    {
        ScanSummary {
            session_id: Some(self.session_id),
            source: self.source.clone(),
            database_path: database_path(root),
            total_files: self.total_files,
            scanned: self.scanned,
            failed: self.failed,
            elapsed_ms,
        }
    }
}

/// Once no file waits or is pending, each was counted once, as scanned or as failed.
pub proof fn law_every_file_is_counted(run: ScanRun)
    requires
        run.wf(),
        run.waiting == 0,
        run.pending == 0,
    ensures
        run.scanned + run.failed == run.total_files,
{
}

/// Why a source is not scanned.
pub open spec fn source_trouble(
    source: Seq<char>,
    exists_there: bool,
    restricted: bool,
    root: RootData,
) -> Option<Seq<char>> {
    if !settings::path_allowed(source, restricted, root) {
        Some("scan path is outside the allowed source: "@ + ALLOWED_SOURCE@)
    } else if !exists_there {
        Some("source path does not exist: "@ + source)
    } else {
        None
    }
}

/// Whether a video was linked to a scan, and nothing else changed.
pub open spec fn linked(before: VideoIndex, after: VideoIndex, session_id: i64, video_id: i64) -> bool {
    &&& scans::same_videos(before, after)
    &&& index::same_sessions(before, after)
    &&& index::same_models(before, after)
    &&& index::same_ai_rows(before, after)
    &&& after.links@ == (if before.links@.contains((SessionLink { session_id, video_id })) {
        before.links@
    } else {
        before.links@.push(SessionLink { session_id, video_id })
    })
}

/// Whether a file is recorded as it is seen.
pub open spec fn is_known(index: VideoIndex, seen: VideoRecord, i: int) -> bool {
    database::newest_at(index.videos@, seen.path@, i) && media::looks_same(index.videos@[i], seen)
}

/// Whether a listed file was recorded in the index: one that is as it was stays as it is; one at a
/// known path is recorded anew; one at a new path is the video that is recognized in it, which is
/// moved there, or else a new one.
pub open spec fn listed(
    before: VideoIndex,
    after: VideoIndex,
    seen: VideoRecord,
    content: Option<VideoRecord>,
    probes: Seq<RowProbe>,
    now: i64,
    id: i64,
) -> bool {
    if exists|i: int| is_known(before, seen, i) {
        after == before && exists|i: int| #[trigger]
            is_known(before, seen, i) && before.videos@[i].id == Some(id)
    } else if !database::path_free(before.videos@, seen.path@) || content is None
        || identity::no_twin(before.videos@, content->0@, probes) {
        database::upserted(before, after, seen@, id)
    } else {
        recognized(before, after, content->0, probes, now, id)
    }
}

/// Whether the video that is recognized in a file was moved to the place of the file.
pub open spec fn recognized(
    before: VideoIndex,
    after: VideoIndex,
    content: VideoRecord,
    probes: Seq<RowProbe>,
    now: i64,
    id: i64,
) -> bool {
    exists|i: int, place: FilePlace|
        #![trigger identity::only_twin(before.videos@, content@, probes, i), database::one_moved(before, after, id, place, now)]
        identity::only_twin(before.videos@, content@, probes, i) && before.videos@[i].id == Some(id)
            && database::one_moved(before, after, id, place, now) && place.path@ == content.path@
            && place.file_name@ == content.file_name@ && place.parent_path@ == content.parent_path@
}

impl VideoIndex {
    /// Starts a scan of a source. Fails where the source may not be scanned or is not there.
    pub fn scan_source(
        &mut self,
        source: &str,
        source_exists: bool,
        settings: &AppSettings,
        root: &Root,
        now: i64,
    ) -> (r: Result<ScanRun, String>)
        requires
            old(self).wf(),
            old(self).next_session_id < i64::MAX,
        ensures
            final(self).wf(),
            match source_trouble(
                source@,
                source_exists,
                settings.restrict_scan_to_test_path,
                root@,
            ) {
                Some(message) => {
                    &&& r is Err && r->Err_0@ == message
                    &&& *final(self) == *old(self)
                },
                None => {
                    &&& r matches Ok(run) && {
                        &&& run.wf()
                        &&& run.source@ == media::shown_path(root@.host, source@)
                        &&& run.total_files == 0
                        &&& run.scanned == 0 && run.failed == 0
                        &&& scans::session_started(
                            *old(self),
                            *final(self),
                            media::shown_path(root@.host, source@),
                            now,
                            run.session_id,
                        )
                        &&& index::has_session_id(final(self).sessions@, run.session_id)
                    }
                },
            },
    {
        if !is_path_allowed_by_settings(source, settings, root) {
            return Err(cat("scan path is outside the allowed source: ", ALLOWED_SOURCE));
        }
        if !source_exists {
            return Err(cat("source path does not exist: ", source));
        }
        let shown = display_path_text(root.host, source);
        let session_id: i64 = self.create_or_reset_scan_session(shown.as_str(), now);
        Ok(
            ScanRun {
                source: shown,
                session_id,
                total_files: 0,
                waiting: 0,
                pending: 0,
                scanned: 0,
                failed: 0,
            },
        )
    }

    /// Starts a scan of a source, and tells that its files are counted.
    pub fn scan_source_with_progress(
        &mut self,
        source: &str,
        source_exists: bool,
        settings: &AppSettings,
        root: &Root,
        now: i64,
    ) -> (r: Result<(ScanRun, ScanProgress), String>)
        requires
            old(self).wf(),
            old(self).next_session_id < i64::MAX,
        ensures
            final(self).wf(),
            match source_trouble(
                source@,
                source_exists,
                settings.restrict_scan_to_test_path,
                root@,
            ) {
                Some(message) => {
                    &&& r is Err && r->Err_0@ == message
                    &&& *final(self) == *old(self)
                },
                None => {
                    &&& r matches Ok(start) && {
                        &&& start.0.wf()
                        &&& start.0.source@ == media::shown_path(root@.host, source@)
                        &&& start.0.total_files == 0
                        &&& scans::session_started(
                            *old(self),
                            *final(self),
                            media::shown_path(root@.host, source@),
                            now,
                            start.0.session_id,
                        )
                        &&& index::has_session_id(final(self).sessions@, start.0.session_id)
                        &&& start.1.source@ == media::shown_path(root@.host, source@)
                        &&& start.1.phase@ == "counting"@
                        &&& start.1.total_files == 0 && start.1.scanned == 0
                        &&& start.1.failed == 0
                        &&& start.1.current_path is None
                    }
                },
            },
    {
        match self.scan_source(source, source_exists, settings, root, now) {
            Err(message) => Err(message),
            Ok(run) => {
                let told = run.progress("counting", None);
                Ok((run, told))
            },
        }
    }

    fn link(&mut self, session_id: i64, video_id: i64)
        requires
            old(self).wf(),
            index::has_session_id(old(self).sessions@, session_id),
            index::has_video_id(old(self).videos@, video_id),
        ensures
            final(self).wf(),
            linked(*old(self), *final(self), session_id, video_id),
    {
        let _done = self.link_video_to_scan_session(session_id, video_id);
    }

    /// Records a file that is only listed, and gives the id of its video. `content` tells what is
    /// needed to recognize its content, where it is known; `probes` tells of each recorded video,
    /// held against the file.
    pub fn settle_listed(
        &mut self,
        run: &mut ScanRun,
        seen: &VideoRecord,
        content: &Option<VideoRecord>,
        probes: &Vec<RowProbe>,
        now: i64,
    ) -> (r: i64)
        requires
            old(self).wf(),
            old(self).next_video_id < i64::MAX,
            old(run).wf(),
            old(run).waiting > 0,
            index::has_session_id(old(self).sessions@, old(run).session_id),
            probes@.len() == old(self).videos@.len(),
            content matches Some(own) ==> own.path@ == seen.path@,
        ensures
            final(self).wf(),
            final(run).wf(),
            final(run).same_scan(*old(run)),
            final(run).waiting == old(run).waiting - 1,
            final(run).pending == old(run).pending,
            final(run).scanned == old(run).scanned + 1,
            final(run).failed == old(run).failed,
            index::same_sessions(*old(self), *final(self)),
            exists|mid: VideoIndex| #[trigger]
                listed(*old(self), mid, *seen, *content, probes@, now, r) && linked(
                    mid,
                    *final(self),
                    old(run).session_id,
                    r,
                ),
    {
        let ghost before = *self;
        let found = self.find_video_by_path(seen.path.as_str());
        let known = match found {
            Some(i) => same_file_observation(&self.videos[i], seen),
            None => false,
        };
        proof {
            assert forall|i: int, j: int|
                database::newest_at(before.videos@, seen.path@, i) && database::newest_at(
                    before.videos@,
                    seen.path@,
                    j,
                ) implies i == j by {
                lemma_one_newest(before, seen.path@, i, j);
            }
        }
        let mut id: i64 = 0;
        let mut placed = false;
        match found {
            Some(i) => {
                assert(before.videos@[i as int].id is Some);
                assert(!database::path_free(before.videos@, seen.path@)) by {
                    assert(database::same_folded(before.videos@[i as int].path@, seen.path@));
                }
                if known {
                    assert(is_known(before, *seen, i as int));
                    match self.videos[i].id {
                        Some(own) => {
                            id = own;
                        },
                        None => {},
                    }
                    placed = true;
                    assert(index::has_video_id(self.videos@, id));
                } else {
                    assert(forall|k: int| !is_known(before, *seen, k));
                }
            },
            None => {
                assert(forall|k: int| !is_known(before, *seen, k)) by {
                    assert forall|k: int| !is_known(before, *seen, k) by {
                        if is_known(before, *seen, k) {
                            assert(database::same_folded(before.videos@[k].path@, seen.path@));
                        }
                    }
                }
                match content {
                    Some(own) => {
                        let place = place_of(own);
                        match self.migrate_video_by_content_identity(own, &place, probes, now) {
                            Ok(Some(other)) => {
                                id = other;
                                placed = true;
                                proof {
                                    let i = choose|i: int| #[trigger]
                                        identity::only_twin(
                                            before.videos@,
                                            own@,
                                            probes@,
                                            i,
                                        ) && before.videos@[i].id == Some(other);
                                    assert(recognized(before, *self, *own, probes@, now, id));
                                    assert(self.videos@[i]@.id == Some(id));
                                    assert(self.videos@[i].id == Some(id));
                                    assert(index::has_video_id(self.videos@, id));
                                }
                            },
                            _ => {},
                        }
                    },
                    None => {},
                }
            },
        }
        if !placed {
            id = self.upsert_video(seen);
        }
        let ghost mid = *self;
        assert(listed(before, mid, *seen, *content, probes@, now, id));
        self.link(run.session_id, id);
        run.waiting = run.waiting - 1;
        run.scanned = run.scanned + 1;
        id
    }

    /// Looks at a file before it is read: one that is current, or that is recognized at a new
    /// path, is done, and its id is given; any other one is pending. `current` tells whether the
    /// video that is recorded at the path need not be scanned again.
    pub fn settle_scanned(
        &mut self,
        run: &mut ScanRun,
        path: &str,
        current: bool,
        content: &Option<VideoRecord>,
        probes: &Vec<RowProbe>,
        now: i64,
    ) -> (r: Option<i64>)
        requires
            old(self).wf(),
            old(run).wf(),
            old(run).waiting > 0,
            index::has_session_id(old(self).sessions@, old(run).session_id),
            probes@.len() == old(self).videos@.len(),
            content matches Some(own) ==> own.path@ == path@,
        ensures
            final(self).wf(),
            final(run).wf(),
            final(run).same_scan(*old(run)),
            final(run).waiting == old(run).waiting - 1,
            final(run).failed == old(run).failed,
            index::same_sessions(*old(self), *final(self)),
            final(run).scanned == old(run).scanned + local_preprocess::one_if(r is Some),
            final(run).pending == old(run).pending + local_preprocess::one_if(r is None),
            r is None ==> *final(self) == *old(self),
            if database::path_free(old(self).videos@, path@) {
                &&& r is Some == (content is Some && !identity::no_twin(
                    old(self).videos@,
                    content->0@,
                    probes@,
                ))
                &&& r matches Some(id) ==> exists|mid: VideoIndex| #[trigger]
                    recognized(*old(self), mid, content->0, probes@, now, id) && linked(
                        mid,
                        *final(self),
                        old(run).session_id,
                        id,
                    )
            } else {
                &&& r is Some == current
                &&& r matches Some(id) ==> {
                    &&& exists|i: int| #[trigger]
                        database::newest_at(old(self).videos@, path@, i) && old(
                            self).videos@[i].id == Some(id)
                    &&& linked(*old(self), *final(self), old(run).session_id, id)
                }
            },
    {
        let ghost before = *self;
        let mut done: Option<i64> = None;
        match self.find_video_by_path(path) {
            Some(i) => {
                assert(before.videos@[i as int].id is Some);
                assert(!database::path_free(before.videos@, path@)) by {
                    assert(database::same_folded(before.videos@[i as int].path@, path@));
                }
                if current {
                    match self.videos[i].id {
                        Some(own) => {
                            assert(index::has_video_id(self.videos@, own));
                            self.link(run.session_id, own);
                            done = Some(own);
                        },
                        None => {},
                    }
                }
            },
            None => {
                match content {
                    Some(own) => {
                        let place = place_of(own);
                        match self.migrate_video_by_content_identity(own, &place, probes, now) {
                            Ok(Some(id)) => {
                                let ghost mid = *self;
                                proof {
                                    let i = choose|i: int| #[trigger]
                                        identity::only_twin(
                                            before.videos@,
                                            own@,
                                            probes@,
                                            i,
                                        ) && before.videos@[i].id == Some(id);
                                    assert(recognized(before, mid, *own, probes@, now, id));
                                    assert(self.videos@[i]@.id == Some(id));
                                    assert(self.videos@[i].id == Some(id));
                                    assert(index::has_video_id(self.videos@, id));
                                }
                                self.link(run.session_id, id);
                                done = Some(id);
                            },
                            _ => {},
                        }
                    },
                    None => {},
                }
            },
        }
        run.waiting = run.waiting - 1;
        if done.is_some() {
            run.scanned = run.scanned + 1;
        } else {
            run.pending = run.pending + 1;
        }
        done
    }

    /// Records a file that could not be scanned, and gives the id of its video. `was_pending` tells
    /// whether it failed when it was read.
    pub fn settle_failed(&mut self, run: &mut ScanRun, failed: &VideoRecord, was_pending: bool) -> (r:
        i64)
        requires
            old(self).wf(),
            old(self).next_video_id < i64::MAX,
            old(run).wf(),
            was_pending ==> old(run).pending > 0,
            !was_pending ==> old(run).waiting > 0,
            index::has_session_id(old(self).sessions@, old(run).session_id),
        ensures
            final(self).wf(),
            final(run).wf(),
            final(run).same_scan(*old(run)),
            final(run).waiting == old(run).waiting - local_preprocess::one_if(!was_pending),
            final(run).pending == old(run).pending - local_preprocess::one_if(was_pending),
            final(run).scanned == old(run).scanned,
            final(run).failed == old(run).failed + 1,
            index::same_sessions(*old(self), *final(self)),
            exists|mid: VideoIndex| #[trigger]
                database::upserted(*old(self), mid, failed@, r) && linked(
                    mid,
                    *final(self),
                    old(run).session_id,
                    r,
                ),
    {
        let id: i64 = self.upsert_video(failed);
        self.link(run.session_id, id);
        if was_pending {
            run.pending = run.pending - 1;
        } else {
            run.waiting = run.waiting - 1;
        }
        run.failed = run.failed + 1;
        id
    }

    /// Records a file that was read, under the id of the video that is recognized in it if one is,
    /// and gives the id. Fails where the recognized video cannot be moved there.
    pub fn settle_result(
        &mut self,
        run: &mut ScanRun,
        video: &VideoRecord,
        probes: &Vec<RowProbe>,
        now: i64,
    ) -> (r: Result<i64, String>)
        requires
            old(self).wf(),
            old(self).next_video_id < i64::MAX,
            old(run).wf(),
            old(run).pending > 0,
            index::has_session_id(old(self).sessions@, old(run).session_id),
            probes@.len() == old(self).videos@.len(),
        ensures
            final(self).wf(),
            final(run).wf(),
            final(run).same_scan(*old(run)),
            final(run).waiting == old(run).waiting,
            final(run).failed == old(run).failed,
            r is Ok ==> index::same_sessions(*old(self), *final(self)),
            final(run).pending == old(run).pending - local_preprocess::one_if(r is Ok),
            final(run).scanned == old(run).scanned + local_preprocess::one_if(r is Ok),
            r matches Ok(id) ==> exists|place: FilePlace, ready: VideoIndex, mid: VideoIndex|
                #![trigger identity::carried_over(*old(self), ready, video@, place, probes@, now), database::upserted(ready, mid, video@, id)]
                place.path@ == video.path@ && place.file_name@ == video.file_name@
                    && place.parent_path@ == video.parent_path@ && identity::carried_over(
                    *old(self),
                    ready,
                    video@,
                    place,
                    probes@,
                    now,
                ) && database::upserted(ready, mid, video@, id) && linked(
                    mid,
                    *final(self),
                    old(run).session_id,
                    id,
                ),
            r matches Err(message) ==> exists|place: FilePlace| #[trigger]
                identity::cannot_carry_over(
                    *old(self),
                    *final(self),
                    video@,
                    place,
                    probes@,
                    message@,
                ) && place.path@ == video.path@ && place.file_name@ == video.file_name@
                    && place.parent_path@ == video.parent_path@,
    {
        let place = place_of(video);
        match self.upsert_video_preserving_content_identity(video, &place, probes, now) {
            Err(message) => Err(message),
            Ok(id) => {
                self.link(run.session_id, id);
                run.pending = run.pending - 1;
                run.scanned = run.scanned + 1;
                Ok(id)
            },
        }
    }

    /// Ends a scan: records its outcome, and removes the videos that no scan has seen, but where
    /// it was cancelled. Tells the end.
    pub fn finish_scan(&mut self, run: &ScanRun, cancelled: bool, now: i64) -> (r: ScanProgress)
        requires
            old(self).wf(),
        ensures
            final(self).wf(),
            r.source@ == run.source@,
            r.phase@ == (if cancelled {
                "cancelled"@
            } else {
                "completed"@
            }),
            r.total_files == run.total_files,
            r.scanned == run.scanned,
            r.failed == run.failed,
            r.current_path is None,
            exists|mid: VideoIndex| #[trigger]
                is_completed(*old(self), mid, *run, now) && (if cancelled {
                    mid == *final(self)
                } else {
                    index::videos_dropped(
                        mid,
                        *final(self),
                        upkeep::orphans(mid.videos@, mid.links@, mid.videos@.len() as int),
                    )
                }),
    {
        let ghost before = *self;
        self.complete_scan_session(
            run.session_id,
            now,
            run.total_files,
            run.scanned,
            run.failed,
        );
        let ghost mid = *self;
        assert(is_completed(before, mid, *run, now));
        if cancelled {
            run.progress("cancelled", None)
        } else {
            let _gone = self.delete_orphan_videos();
            run.progress("completed", None)
        }
    }
}

/// Whether the outcome of a scan was recorded, and nothing else changed.
pub open spec fn is_completed(before: VideoIndex, after: VideoIndex, run: ScanRun, now: i64) -> bool {
    &&& scans::same_videos(before, after)
    &&& index::same_models(before, after)
    &&& index::same_ai_rows(before, after)
    &&& after.links@ == before.links@
    &&& after.next_session_id == before.next_session_id
    &&& after.sessions@.len() == before.sessions@.len()
    &&& forall|k: int|
        #![trigger after.sessions@[k]]
        0 <= k < before.sessions@.len() ==> if before.sessions@[k].id == run.session_id {
            &&& after.sessions@[k].id == run.session_id
            &&& after.sessions@[k].source@ == before.sessions@[k].source@
            &&& after.sessions@[k].started_unix_ms == before.sessions@[k].started_unix_ms
            &&& after.sessions@[k].completed_unix_ms == Some(now)
            &&& after.sessions@[k].total_files == run.total_files
            &&& after.sessions@[k].scanned == run.scanned
            &&& after.sessions@[k].failed == run.failed
        } else {
            after.sessions@[k] == before.sessions@[k]
        }
}

proof fn lemma_one_newest(index: VideoIndex, path: Seq<char>, i: int, j: int)
    requires
        index.wf(),
        database::newest_at(index.videos@, path, i),
        database::newest_at(index.videos@, path, j),
    ensures
        i == j,
{
    assert(index.videos@[i].id->0 <= index.videos@[j].id->0);
    assert(index.videos@[j].id->0 <= index.videos@[i].id->0);
    assert(index.videos@[i].id is Some && index.videos@[j].id is Some);
    if i < j {
        assert(index.videos@[i].id != index.videos@[j].id);
    } else if j < i {
        assert(index.videos@[j].id != index.videos@[i].id);
    }
}

/// A file that is seen again as it was does not change what is known of it: scanning a source
/// twice records nothing new.
pub proof fn law_unchanged_files_stay(
    before: VideoIndex,
    after: VideoIndex,
    seen: VideoRecord,
    content: Option<VideoRecord>,
    probes: Seq<RowProbe>,
    now: i64,
    id: i64,
    i: int,
)
    requires
        is_known(before, seen, i),
        listed(before, after, seen, content, probes, now, id),
    ensures
        after == before,
{
}

/// The first error of some outcomes, from `n` on.
pub open spec fn first_error(outcomes: Seq<Result<ScanSummary, String>>, n: int) -> Option<int>
    decreases outcomes.len() - n,
{
    if n < 0 || n >= outcomes.len() {
        None
    } else if outcomes[n] is Err {
        Some(n)
    } else {
        first_error(outcomes, n + 1)
    }
}

/// What the scans of some sources, one after the other, came to: all outcomes, or the error of the
/// first one that failed.
pub fn scan_sources_with_progress(outcomes: Vec<Result<ScanSummary, String>>) -> (r: Result<
    Vec<ScanSummary>,
    String,
>)
    ensures
        match first_error(outcomes@, 0) {
            Some(k) => r is Err && r->Err_0 == outcomes@[k]->Err_0,
            None => r is Ok && r->Ok_0@.len() == outcomes@.len() && forall|k: int|
                #![trigger r->Ok_0@[k]]
                0 <= k < outcomes@.len() ==> outcomes@[k] == Ok::<ScanSummary, String>(
                    r->Ok_0@[k],
                ),
        },
{
    let ghost all = outcomes@;
    let mut rest = outcomes;
    let mut out: Vec<ScanSummary> = Vec::new();
    let mut n: usize = 0;
    let total: usize = rest.len();
    while n < total
        invariant
            n <= total,
            total == all.len(),
            all == outcomes@,
            rest@ == all.skip(n as int),
            out@.len() == n,
            first_error(all, 0) == first_error(all, n as int),
            forall|k: int|
                #![trigger out@[k]]
                0 <= k < n ==> all[k] == Ok::<ScanSummary, String>(out@[k]),
        decreases total - n,
    {
        let first = rest.remove(0);
        assert(first == all[n as int]);
        assert(rest@ =~= all.skip(n + 1));
        match first {
            Err(message) => {
                return Err(message);
            },
            Ok(summary) => {
                out.push(summary);
            },
        }
        n += 1;
    }
    Ok(out)
}

} // verus!
