//! Taking frames from copies of videos on local disks: how many copies run at once, where they
//! go, and how far the work is.
use crate::digest;
use crate::double::Double;
use crate::matching;
use crate::models;
use crate::models::{AppSettings, LocalPreprocessSummary, VideoRecord};
use crate::settings;
use crate::text;
use crate::text::{
    add_line, cat, cat3, cat4, cat5, chars_of, decimal_text, has_text, same_text,
    signed_decimal_text, trim,
};
use vstd::prelude::*;
use vstd::string::*;

verus! {

/// How frames are taken from local copies.
#[derive(Debug, Clone)]
pub struct LocalPreprocessOptions {
    pub video_workers: usize,
    pub overlap_start_percent: usize,
    pub process_workers: usize,
    pub frame_workers: usize,
    pub temp_dir: Option<String>,
    pub secondary_temp_dir: Option<String>,
    pub secondary_threshold_mb: usize,
}

impl Default for LocalPreprocessOptions {
    fn default() -> (r: LocalPreprocessOptions)
        ensures
            r.video_workers == 1,
            r.overlap_start_percent == 95,
            r.process_workers == 2,
            r.frame_workers == 0,
            r.temp_dir is None,
            r.secondary_temp_dir is None,
            r.secondary_threshold_mb == 16_384,
    {
        LocalPreprocessOptions {
            video_workers: 1,
            overlap_start_percent: 95,
            process_workers: 2,
            frame_workers: 0,
            temp_dir: None,
            secondary_temp_dir: None,
            secondary_threshold_mb: 16_384,
        }
    }
}

/// Whether frames are taken from local copies.
pub fn enabled(settings: &AppSettings) -> (r: bool)
    ensures
        r == settings.local_preprocess_enabled,
{
    settings.local_preprocess_enabled
}

/// A number moved into a range.
fn clamp(value: usize, low: usize, high: usize) -> (r: usize)
    requires
        low <= high,
    ensures
        r == matching::within(value as int, low as int, high as int),
{
    if value < low {
        low
    } else if value > high {
        high
    } else {
        value
    }
}

/// A text without white space at its ends, where it is not blank.
pub open spec fn unless_blank(value: Seq<char>) -> Option<Seq<char>> {
    if text::trimmed(value).len() == 0 {
        None
    } else {
        Some(text::trimmed(value))
    }
}

fn folder_unless_blank(value: &str) -> (r: Option<String>)
    ensures
        models::opt_text(r) == unless_blank(value@),
{
    let folder = trim(value);
    if chars_of(folder.as_str()).len() == 0 {
        None
    } else {
        Some(folder)
    }
}

/// How frames are taken from local copies, by the settings.
pub fn options_from_settings(settings: &AppSettings) -> (r: LocalPreprocessOptions)
    ensures
        r.video_workers == matching::within(settings.local_preprocess_video_workers as int, 1, 8),
        r.overlap_start_percent == matching::within(
            settings.local_preprocess_overlap_start_percent as int,
            50,
            99,
        ),
        r.process_workers == matching::within(
            settings.local_preprocess_process_workers as int,
            1,
            4,
        ),
        r.frame_workers == matching::within(settings.local_preprocess_frame_workers as int, 1, 64),
        r.secondary_threshold_mb == matching::within(
            settings.local_preprocess_secondary_threshold_mb as int,
            512,
            1_048_576,
        ),
        models::opt_text(r.temp_dir) == unless_blank(settings.local_preprocess_temp_dir@),
        models::opt_text(r.secondary_temp_dir) == unless_blank(
            settings.local_preprocess_secondary_temp_dir@,
        ),
{
    LocalPreprocessOptions {
        video_workers: clamp(settings.local_preprocess_video_workers, 1, 8),
        overlap_start_percent: clamp(settings.local_preprocess_overlap_start_percent, 50, 99),
        process_workers: clamp(settings.local_preprocess_process_workers, 1, 4),
        frame_workers: clamp(settings.local_preprocess_frame_workers, 1, 64),
        secondary_threshold_mb: clamp(
            settings.local_preprocess_secondary_threshold_mb,
            512,
            1_048_576,
        ),
        temp_dir: folder_unless_blank(settings.local_preprocess_temp_dir.as_str()),
        secondary_temp_dir: folder_unless_blank(
            settings.local_preprocess_secondary_temp_dir.as_str(),
        ),
    }
}

/// How far the taking of frames is.
#[derive(Debug, Clone)]
pub struct LocalPreprocessProgress {
    pub total_videos: usize,
    pub started: usize,
    pub imported: usize,
    pub skipped: usize,
    pub insufficient_frames: usize,
    pub failed: usize,
    pub phase: String,
    pub current_path: Option<String>,
}

/// The last eight of some lines.
pub open spec fn last_eight(lines: Seq<Seq<char>>) -> Seq<Seq<char>> {
    if lines.len() > 8 {
        lines.skip(lines.len() - 8)
    } else {
        lines
    }
}

/// Adds an error to the recent ones, of which eight are kept.
pub fn push_recent_error(errors: &mut Vec<String>, message: String)
    requires
        old(errors)@.len() <= 8,
    ensures
        models::texts(final(errors)@) == last_eight(models::texts(old(errors)@).push(message@)),
        final(errors)@.len() <= 8,
{
    let ghost before = errors@;
    add_line(errors, message);
    let ghost all = errors@;
    if errors.len() > 8 {
        let _oldest = errors.remove(0);
        assert(errors@ == all.remove(0));
        assert(models::texts(errors@) =~= models::texts(all).skip(1));
    }
}

/// Which copies may start: at most some number runs at once; the next may start once one has got
/// far enough, and the one before that is complete.
#[derive(Debug, Clone)]
pub struct CopyPacer {
    pub max_active: usize,
    pub active: usize,
    pub available_starts: usize,
    pub next_start_index: usize,
    pub threshold_reached: Vec<usize>,
    pub completed: Vec<usize>,
    pub released_next_for: Vec<usize>,
}

fn has_number(list: &Vec<usize>, n: usize) -> (r: bool)
    ensures
        r == list@.contains(n),
{
    let mut i: usize = 0;
    while i < list.len()
        invariant
            i <= list@.len(),
            forall|k: int| 0 <= k < i ==> list@[k] != n,
        decreases list@.len() - i,
    {
        if list[i] == n {
            assert(list@[i as int] == n);
            return true;
        }
        i += 1;
    }
    false
}

/// A list with a number added, where it is not there.
pub open spec fn with_number(list: Seq<usize>, n: usize) -> Seq<usize> {
    if list.contains(n) {
        list
    } else {
        list.push(n)
    }
}

fn put_number(list: &mut Vec<usize>, n: usize)
    ensures
        final(list)@ == with_number(old(list)@, n),
        final(list)@.contains(n),
        forall|x: usize| #[trigger]
            final(list)@.contains(x) <==> old(list)@.contains(x) || x == n,
{
    let ghost before = list@;
    if !has_number(list, n) {
        list.push(n);
        assert(list@[before.len() as int] == n);
        assert forall|x: usize| #[trigger] list@.contains(x) <==> before.contains(x) || x == n by {
            if list@.contains(x) {
                let k = choose|k: int| 0 <= k < list@.len() && list@[k] == x;
                if k < before.len() {
                    assert(before[k] == x);
                }
            }
            if before.contains(x) {
                let k = choose|k: int| 0 <= k < before.len() && before[k] == x;
                assert(list@[k] == x);
            }
        }
    }
}

impl CopyPacer {
    /// No more copies run or may start than may run at once, and each start was due.
    pub open spec fn wf(&self) -> bool {
        &&& 1 <= self.max_active <= 8
        &&& self.active + self.available_starts <= self.max_active
        &&& forall|k: usize| #[trigger]
            self.released_next_for@.contains(k) ==> self.threshold_reached@.contains(k) && (k > 1
                ==> self.completed@.contains((k - 1) as usize))
    }

    /// Whether the copy after one may start now: it got far enough, it was not taken as leave
    /// before, there is room, and the copy before it is complete.
    pub open spec fn is_due(&self, start_index: usize) -> bool {
        &&& self.threshold_reached@.contains(start_index)
        &&& !self.released_next_for@.contains(start_index)
        &&& self.active + self.available_starts < self.max_active
        &&& start_index > 1 ==> self.completed@.contains((start_index - 1) as usize)
    }

    /// The pacer once a copy was looked at: where the next copy is due, it may start.
    pub open spec fn released(&self, start_index: usize) -> CopyPacerData {
        if self.is_due(start_index) {
            CopyPacerData {
                available_starts: self.available_starts + 1,
                released_next_for: self.released_next_for@.push(start_index),
                ..self.data()
            }
        } else {
            self.data()
        }
    }

    /// What the pacer knows.
    pub open spec fn data(&self) -> CopyPacerData {
        CopyPacerData {
            max_active: self.max_active as int,
            active: self.active as int,
            available_starts: self.available_starts as int,
            next_start_index: self.next_start_index as int,
            threshold_reached: self.threshold_reached@,
            completed: self.completed@,
            released_next_for: self.released_next_for@,
        }
    }

    /// A pacer for at most some number of copies at once, between one and eight.
    pub fn new(max_active: usize) -> (r: CopyPacer)
        ensures
            r.wf(),
            r.max_active == matching::within(max_active as int, 1, 8),
            r.active == 0,
            r.available_starts == 1,
            r.next_start_index == 1,
            r.threshold_reached@.len() == 0,
            r.completed@.len() == 0,
            r.released_next_for@.len() == 0,
    {
        CopyPacer {
            max_active: clamp(max_active, 1, 8),
            active: 0,
            available_starts: 1,
            next_start_index: 1,
            threshold_reached: Vec::new(),
            completed: Vec::new(),
            released_next_for: Vec::new(),
        }
    }

    /// Starts a copy where one may start, and gives its number.
    pub fn acquire(&mut self) -> (r: Option<usize>)
        requires
            old(self).wf(),
        ensures
            final(self).wf(),
            if old(self).available_starts > 0 {
                &&& r == Some(old(self).next_start_index)
                &&& final(self).data() == (CopyPacerData {
                    active: old(self).active + 1,
                    available_starts: old(self).available_starts - 1,
                    next_start_index: if old(self).next_start_index < usize::MAX {
                        old(self).next_start_index + 1
                    } else {
                        old(self).next_start_index as int
                    },
                    ..old(self).data()
                })
            } else {
                r is None && *final(self) == *old(self)
            },
    {
        if self.available_starts > 0 {
            self.available_starts = self.available_starts - 1;
            self.active = self.active + 1;
            let start_index: usize = self.next_start_index;
            self.next_start_index = self.next_start_index.saturating_add(1);
            Some(start_index)
        } else {
            None
        }
    }

    fn release_next(&mut self, start_index: usize)
        requires
            old(self).wf(),
        ensures
            final(self).wf(),
            final(self).data() == old(self).released(start_index),
    {
        if !has_number(&self.threshold_reached, start_index) || has_number(
            &self.released_next_for,
            start_index,
        ) || self.active + self.available_starts >= self.max_active {
            return;
        }
        if start_index > 1 && !has_number(&self.completed, start_index - 1) {
            return;
        }
        let ghost before = *self;
        self.released_next_for.push(start_index);
        self.available_starts = self.available_starts + 1;
        assert forall|k: usize| #[trigger]
            self.released_next_for@.contains(k) implies self.threshold_reached@.contains(k) && (k
            > 1 ==> self.completed@.contains((k - 1) as usize)) by {
            let n = choose|n: int|
                0 <= n < self.released_next_for@.len() && self.released_next_for@[n] == k;
            if n < before.released_next_for@.len() {
                assert(before.released_next_for@[n] == k);
                assert(before.released_next_for@.contains(k));
            }
        }
    }

    /// Takes note that a copy got far enough; where the next one is due, it may start.
    pub fn release_next_if_ready(&mut self, start_index: usize)
        requires
            old(self).wf(),
        ensures
            final(self).wf(),
            ({
                let told = CopyPacer {
                    threshold_reached: final(self).threshold_reached,
                    ..*old(self)
                };
                &&& told.threshold_reached@ == with_number(
                    old(self).threshold_reached@,
                    start_index,
                )
                &&& final(self).data() == told.released(start_index)
            }),
    {
        put_number(&mut self.threshold_reached, start_index);
        self.release_next(start_index);
    }

    /// Takes note that a copy is complete; the copies that are due thereby may start.
    pub fn finish_copy(&mut self, start_index: usize)
        requires
            old(self).wf(),
            start_index < usize::MAX,
        ensures
            final(self).wf(),
            final(self).max_active == old(self).max_active,
            final(self).next_start_index == old(self).next_start_index,
            final(self).active == (if old(self).active > 0 {
                old(self).active - 1
            } else {
                0
            }),
            final(self).completed@ == with_number(old(self).completed@, start_index),
            final(self).threshold_reached@ == with_number(
                old(self).threshold_reached@,
                start_index,
            ),
            exists|told: CopyPacer, mid: CopyPacer|
                #![trigger told.released(start_index), mid.released((start_index + 1) as usize)]
                {
                    &&& told.data() == (CopyPacerData {
                        active: final(self).active as int,
                        completed: final(self).completed@,
                        threshold_reached: final(self).threshold_reached@,
                        ..old(self).data()
                    })
                    &&& mid.data() == told.released(start_index)
                    &&& final(self).data() == mid.released((start_index + 1) as usize)
                },
    {
        self.active = if self.active > 0 {
            self.active - 1
        } else {
            0
        };
        put_number(&mut self.completed, start_index);
        put_number(&mut self.threshold_reached, start_index);
        let ghost told = *self;
        self.release_next(start_index);
        let ghost mid = *self;
        self.release_next(start_index + 1);
        assert(mid.data() == told.released(start_index));
        assert(self.data() == mid.released((start_index + 1) as usize));
    }

    /// The number of copies that may start now.
    pub fn available_starts_for_test(&self) -> (r: usize)
        ensures
            r == self.available_starts,
    {
        self.available_starts
    }
}

/// What a pacer knows.
#[verifier::ext_equal]
pub struct CopyPacerData {
    pub max_active: int,
    pub active: int,
    pub available_starts: int,
    pub next_start_index: int,
    pub threshold_reached: Seq<usize>,
    pub completed: Seq<usize>,
    pub released_next_for: Seq<usize>,
}

/// Never do more copies run, or have leave to start, than may run at once.
pub proof fn law_copies_stay_within_the_limit(pacer: CopyPacer)
    requires
        pacer.wf(),
    ensures
        pacer.active <= pacer.max_active,
        pacer.active + pacer.available_starts <= 8,
{
}

/// A copy gives leave to the next one only after the copy before it is complete: of three copies in
/// a row the first is done before the third starts.
pub proof fn law_third_copy_waits_for_the_first(pacer: CopyPacer, k: usize)
    requires
        pacer.wf(),
        k > 1,
        pacer.released_next_for@.contains(k),
    ensures
        pacer.completed@.contains((k - 1) as usize),
{
}

/// Whether enough of a file was copied for the next copy to start.
pub fn copy_overlap_reached(copied: u64, total: u64, percent: usize) -> (r: bool)
    ensures
        r == (total > 0 && copied * 100 >= total * percent),
{
    if total == 0 {
        return false;
    }
    assert(copied * 100 <= 0xffff_ffff_ffff_ffff * 100);
    assert(total * percent <= 0xffff_ffff_ffff_ffff * 0xffff_ffff_ffff_ffff) by (nonlinear_arith)
        requires
            total <= 0xffff_ffff_ffff_ffff,
            percent <= 0xffff_ffff_ffff_ffff,
    ;
    let done: u128 = copied as u128 * 100;
    let share: u128 = percent as u128;
    let needed: u128 = total as u128 * share;
    done >= needed
}

/// The free and the whole space of a disk.
#[derive(Debug, Clone, Copy, PartialEq, Eq, Structural)]
pub struct DiskCapacity {
    pub free_bytes: u64,
    pub total_bytes: Option<u64>,
}

/// Whether a file goes to a disk now.
#[derive(Debug, Clone, Copy, PartialEq, Eq, Structural)]
pub enum CapacityChoice {
    /// There is room, or nothing is known of the disk.
    Take,
    /// The disk is too small.
    TooSmall,
    /// There is no room now.
    Wait,
}

/// The space that a file asks for.
pub open spec fn asked(bytes: u64) -> u64 {
    if bytes == 0 {
        1
    } else {
        bytes
    }
}

/// Whether a file goes to a disk now.
pub open spec fn room_for(bytes: u64, capacity: Option<DiskCapacity>) -> CapacityChoice {
    match capacity {
        None => CapacityChoice::Take,
        Some(disk) => if disk.free_bytes >= asked(bytes) {
            CapacityChoice::Take
        } else if disk.total_bytes is Some && disk.total_bytes->0 < asked(bytes) {
            CapacityChoice::TooSmall
        } else {
            CapacityChoice::Wait
        },
    }
}

/// The space of one disk that copies have reserved.
#[derive(Debug, Clone, Copy, PartialEq, Eq, Structural)]
pub struct DiskCapacityGate {
    pub reserved_bytes: u64,
}

impl DiskCapacityGate {
    /// Reserves space for a file where it goes to the disk now, and tells whether it does.
    pub fn acquire(&mut self, bytes: u64, capacity: Option<DiskCapacity>) -> (r: CapacityChoice)
        ensures
            r == room_for(bytes, capacity),
            final(self).reserved_bytes == (if r == CapacityChoice::Take {
                if old(self).reserved_bytes + asked(bytes) > u64::MAX {
                    u64::MAX as int
                } else {
                    old(self).reserved_bytes + asked(bytes)
                }
            } else {
                old(self).reserved_bytes as int
            }),
    {
        let bytes: u64 = if bytes == 0 {
            1
        } else {
            bytes
        };
        let choice = match capacity {
            None => CapacityChoice::Take,
            Some(disk) => if disk.free_bytes >= bytes {
                CapacityChoice::Take
            } else {
                match disk.total_bytes {
                    Some(total) => if total < bytes {
                        CapacityChoice::TooSmall
                    } else {
                        CapacityChoice::Wait
                    },
                    None => CapacityChoice::Wait,
                }
            },
        };
        if choice == CapacityChoice::Take {
            self.reserved_bytes = self.reserved_bytes.saturating_add(bytes);
        }
        choice
    }

    /// Gives back the space of a file.
    pub fn release(&mut self, bytes: u64)
        ensures
            final(self).reserved_bytes == (if old(self).reserved_bytes >= asked(bytes) {
                old(self).reserved_bytes - asked(bytes)
            } else {
                0
            }),
    {
        let bytes: u64 = if bytes == 0 {
            1
        } else {
            bytes
        };
        self.reserved_bytes = if self.reserved_bytes >= bytes {
            self.reserved_bytes - bytes
        } else {
            0
        };
    }

    /// Whether the disk is large enough for a file, where that is known.
    pub fn can_fit_single_request(bytes: u64, capacity: Option<DiskCapacity>) -> (r: Option<bool>)
        ensures
            r == (match capacity {
                None => None,
                Some(disk) => Some(disk.total_bytes is None || disk.total_bytes->0 >= asked(bytes)),
            }),
    {
        let bytes: u64 = if bytes == 0 {
            1
        } else {
            bytes
        };
        match capacity {
            None => None,
            Some(disk) => match disk.total_bytes {
                Some(total) => Some(total >= bytes),
                None => Some(true),
            },
        }
    }
}

/// Whether part of a file can be written now: there is room, or nothing is known of the disk.
pub fn has_write_room(bytes: u64, capacity: Option<DiskCapacity>) -> (r: bool)
    ensures
        r == (capacity is None || capacity->0.free_bytes >= asked(bytes)),
{
    match capacity {
        None => true,
        Some(disk) => disk.free_bytes >= (if bytes == 0 {
            1
        } else {
            bytes
        }),
    }
}

/// The message that a disk is too small. Sizes are given as text.
pub fn too_small_text(name: &str, bytes: &str, total: &str) -> (r: String)
    ensures
        r@ == name@ + " cache disk cannot fit "@ + bytes@ + ": total capacity "@ + total@
            + ", needs at least "@ + bytes@,
{
    let mut line = cat5(name, " cache disk cannot fit ", bytes, ": total capacity ", total);
    line.append(", needs at least ");
    line.append(bytes);
    line
}

/// The message that a copy waits for room.
pub fn waiting_text(name: &str) -> (r: String)
    ensures
        r@ == name@
            + " cache full; paused. Raise overlap % or lower secondary threshold MB."@,
{
    cat(name, " cache full; paused. Raise overlap % or lower secondary threshold MB.")
}

/// Which disk a copy goes to.
#[derive(Debug, Clone, Copy, PartialEq, Eq, Structural)]
pub enum StagingDisk {
    Primary,
    Secondary,
}

/// The disk that a copy is first tried on: the second one for large files, where there is one.
pub fn first_disk(bytes: u64, has_secondary: bool, secondary_threshold_bytes: u64) -> (r:
    StagingDisk)
    ensures
        r == (if has_secondary && bytes >= asked(secondary_threshold_bytes) {
            StagingDisk::Secondary
        } else {
            StagingDisk::Primary
        }),
{
    let threshold: u64 = if secondary_threshold_bytes == 0 {
        1
    } else {
        secondary_threshold_bytes
    };
    if has_secondary && bytes >= threshold {
        StagingDisk::Secondary
    } else {
        StagingDisk::Primary
    }
}

/// Whether a copy that failed on the first disk goes to the second: there is one, and the first is
/// known to be too small.
pub fn falls_back(has_secondary: bool, fits_primary: Option<bool>) -> (r: bool)
    ensures
        r == (has_secondary && fits_primary == Some(false)),
{
    match fits_primary {
        Some(fits) => has_secondary && !fits,
        None => false,
    }
}

/// The bytes of a number of mebibytes, or the largest number.
pub fn threshold_bytes(megabytes: usize) -> (r: u64)
    ensures
        r == (if megabytes * 1_048_576 > u64::MAX {
            u64::MAX as int
        } else {
            megabytes * 1_048_576
        }),
{
    match (megabytes as u64).checked_mul(1_048_576) {
        Some(bytes) => bytes,
        None => u64::MAX,
    }
}

/// Whether two folders for copies are the same, up to case, slashes and a slash at the end.
pub fn same_staging_base(left: &str, right: &str) -> (r: bool)
    ensures
        r == (settings::folder_key(left@) == settings::folder_key(right@)),
{
    let l = text::trim_end_char(text::replace_char(left, '/', '\\').as_str(), '\\').to_lowercase();
    let r = text::trim_end_char(text::replace_char(right, '/', '\\').as_str(), '\\').to_lowercase();
    same_text(l.as_str(), r.as_str())
}

/// The folders of a run, as they are named.
pub fn current_roots_label(primary: &str, secondary: &Option<String>) -> (r: String)
    ensures
        r@ == (match models::opt_text(*secondary) {
            Some(other) => primary@ + "; "@ + other,
            None => primary@,
        }),
{
    match secondary {
        Some(other) => cat3(primary, "; ", other.as_str()),
        None => primary.to_owned(),
    }
}

/// The number of frames that are at least needed of some: three of four, rounded up.
pub open spec fn enough(expected: int) -> int {
    if expected <= 1 {
        expected
    } else {
        (3 * expected + 3) / 4
    }
}

/// The number of frames that are at least needed of some.
pub fn minimum_usable_frame_count(expected: usize) -> (r: usize)
    ensures
        r == enough(expected as int),
{
    if expected <= 1 {
        expected
    } else {
        expected - expected / 4
    }
}

/// At least three of four frames are needed, and never more than all.
pub proof fn law_enough_is_three_quarters(expected: int)
    requires
        0 <= expected,
    ensures
        3 * expected <= 4 * enough(expected) < 3 * expected + 4,
        enough(expected) <= expected,
{
}

/// What is known of the file that a video was scanned from.
#[derive(Debug, Clone, Copy, PartialEq, Eq, Structural)]
pub struct SourceFacts {
    pub is_file: bool,
    pub size_bytes: u64,
    pub modified_unix_ms: i64,
}

/// Why a file is not copied: it is no file any more, or is not as it was when it was scanned.
pub open spec fn source_trouble(video: VideoRecord, path: Seq<char>, facts: SourceFacts) -> Option<
    Seq<char>,
> {
    let apart = facts.modified_unix_ms - video.modified_unix_ms;
    if !facts.is_file {
        Some("source is not a file: "@ + path)
    } else if video.size_bytes > 0 && facts.size_bytes != video.size_bytes {
        Some(
            "source file size changed since scan: "@ + text::decimal(facts.size_bytes as nat)
                + " vs "@ + text::decimal(video.size_bytes as nat),
        )
    } else if video.modified_unix_ms > 0 && (apart > 2_000 || apart < -2_000) {
        Some(
            "source modified time changed since scan: "@ + text::signed_decimal(
                facts.modified_unix_ms as int,
            ) + " vs "@ + text::signed_decimal(video.modified_unix_ms as int),
        )
    } else {
        None
    }
}

/// The time of the file that a video was scanned from; fails where it is not as it was.
pub fn validate_source_metadata(video: &VideoRecord, path: &str, facts: SourceFacts) -> (r: Result<
    i64,
    String,
>)
    ensures
        match source_trouble(*video, path@, facts) {
            Some(message) => r is Err && r->Err_0@ == message,
            None => r == Ok::<i64, String>(facts.modified_unix_ms),
        },
{
    if !facts.is_file {
        return Err(cat("source is not a file: ", path));
    }
    if video.size_bytes > 0 && facts.size_bytes != video.size_bytes {
        return Err(
            cat4(
                "source file size changed since scan: ",
                decimal_text(facts.size_bytes).as_str(),
                " vs ",
                decimal_text(video.size_bytes).as_str(),
            ),
        );
    }
    let apart: i128 = facts.modified_unix_ms as i128 - video.modified_unix_ms as i128;
    if video.modified_unix_ms > 0 && (apart > 2_000 || apart < -2_000) {
        return Err(
            cat4(
                "source modified time changed since scan: ",
                signed_decimal_text(facts.modified_unix_ms).as_str(),
                " vs ",
                signed_decimal_text(video.modified_unix_ms).as_str(),
            ),
        );
    }
    Ok(facts.modified_unix_ms)
}

/// Why a copy is not used: it is not as large as the video.
pub fn check_copied_size(copied_size: u64, size_bytes: u64) -> (r: Result<(), String>)
    ensures
        r is Err == (size_bytes > 0 && copied_size != size_bytes),
        r matches Err(message) ==> message@ == "copied file size differs from index: "@
            + text::decimal(copied_size as nat) + " vs "@ + text::decimal(size_bytes as nat),
{
    if size_bytes > 0 && copied_size != size_bytes {
        return Err(
            cat4(
                "copied file size differs from index: ",
                decimal_text(copied_size).as_str(),
                " vs ",
                decimal_text(size_bytes).as_str(),
            ),
        );
    }
    Ok(())
}

/// Whether characters are all decimal digits.
pub open spec fn all_digits(s: Seq<char>) -> bool {
    forall|k: int| 0 <= k < s.len() ==> '0' <= #[trigger] s[k] <= '9'
}

/// Whether the name of a folder is that of a run: `run-` and at least ten digits.
pub open spec fn names_run(name: Seq<char>) -> bool {
    "run-"@.is_prefix_of(name) && name.len() - "run-"@.len() >= 10 && all_digits(
        name.skip("run-"@.len() as int),
    )
}

/// Whether the name of a folder is that of a run.
pub fn is_run_staging_dir(name: &str) -> (r: bool)
    ensures
        r == names_run(name@),
{
    match text::strip_prefix(name, "run-") {
        None => false,
        Some(rest) => {
            let chars = chars_of(rest.as_str());
            if chars.len() < 10 {
                return false;
            }
            let mut i: usize = 0;
            while i < chars.len()
                invariant
                    i <= chars@.len(),
                    chars@ == name@.skip("run-"@.len() as int),
                    forall|k: int| 0 <= k < i ==> '0' <= #[trigger] chars@[k] <= '9',
                decreases chars@.len() - i,
            {
                if chars[i] < '0' || chars[i] > '9' {
                    assert(!('0' <= chars@[i as int] <= '9'));
                    return false;
                }
                i += 1;
            }
            true
        },
    }
}

/// The name of the copy of a video.
pub open spec fn copy_name(id: Option<i64>, extension: Seq<char>) -> Seq<char> {
    let kind = text::without_leading(text::trimmed(extension), '.');
    let number = text::signed_decimal(
        match id {
            Some(n) => n as int,
            None => 0,
        },
    );
    if kind.len() == 0 {
        "video-"@ + number + ".bin"@
    } else {
        "video-"@ + number + "."@ + kind
    }
}

/// The name of the copy of a video.
pub fn stage_file_name(video: &VideoRecord) -> (r: String)
    ensures
        r@ == copy_name(video.id, video.extension@),
{
    let kind = text::trim_start_char(trim(video.extension.as_str()).as_str(), '.');
    let id: i64 = match video.id {
        Some(n) => n,
        None => 0,
    };
    let number = signed_decimal_text(id);
    if chars_of(kind.as_str()).len() == 0 {
        cat3("video-", number.as_str(), ".bin")
    } else {
        cat4("video-", number.as_str(), ".", kind.as_str())
    }
}

/// The length, six seconds, above which several frames of a video are taken.
pub const SHORT_VIDEO: u64 = 0x4018_0000_0000_0000;

/// The number of frames that are taken of a video: one of a short one.
pub open spec fn frames_expected(duration: Option<Double>, configured: int) -> int {
    if duration is Some && (Double { bits: SHORT_VIDEO }).lt(duration->0) {
        digest::kept_frame_count(configured)
    } else {
        1
    }
}

/// The number of frames that are taken of a video.
pub fn expected_ai_frame_count(video: &VideoRecord, configured: usize) -> (r: usize)
    ensures
        r == frames_expected(video.duration_seconds, configured as int),
        1 <= r <= 512,
{
    let long = match video.duration_seconds {
        Some(seconds) => (Double { bits: SHORT_VIDEO }).less(seconds),
        None => false,
    };
    if long {
        digest::clamp_frame_count(configured)
    } else {
        1
    }
}

/// Whether frames can be taken of a video: its scan went well and it is in the index.
pub open spec fn can_take_frames(video: VideoRecord) -> bool {
    video.scan_status@ == "ok"@ && video.id is Some
}

/// The positions of the first `n` videos whose frames are there already.
pub open spec fn ready_videos(videos: Seq<VideoRecord>, cached: Seq<bool>, n: int) -> Seq<usize>
    decreases n,
{
    if n <= 0 {
        Seq::empty()
    } else {
        let rest = ready_videos(videos, cached, n - 1);
        if can_take_frames(videos[n - 1]) && cached[n - 1] {
            rest.push((n - 1) as usize)
        } else {
            rest
        }
    }
}

/// The positions of the first `n` videos of which frames have to be taken.
pub open spec fn job_videos(videos: Seq<VideoRecord>, cached: Seq<bool>, n: int) -> Seq<usize>
    decreases n,
{
    if n <= 0 {
        Seq::empty()
    } else {
        let rest = job_videos(videos, cached, n - 1);
        if can_take_frames(videos[n - 1]) && !cached[n - 1] {
            rest.push((n - 1) as usize)
        } else {
            rest
        }
    }
}

/// What is to be done: the videos whose frames are there, those of which frames have to be taken,
/// and the run that takes them.
#[derive(Debug, Clone)]
pub struct PreprocessPlan {
    pub ready: Vec<usize>,
    pub jobs: Vec<usize>,
    pub run: PipelineRun,
}

/// A run that takes frames from copies: how far it is.
#[derive(Debug, Clone)]
pub struct PipelineRun {
    pub total_videos: usize,
    pub job_total: usize,
    pub video_workers: usize,
    pub process_workers: usize,
    pub frame_workers: usize,
    pub started: usize,
    pub imported: usize,
    pub skipped: usize,
    pub insufficient_frames: usize,
    pub failed: usize,
    pub completed_jobs: usize,
    pub copied_jobs: usize,
    pub recent_errors: Vec<String>,
}

impl PipelineRun {
    /// Every job that is complete was counted once, beside the videos that need no work.
    pub open spec fn wf(&self) -> bool {
        &&& self.job_total <= self.total_videos
        &&& self.completed_jobs <= self.job_total
        &&& self.copied_jobs <= self.job_total
        &&& self.started <= self.total_videos
        &&& self.imported + self.skipped + self.insufficient_frames + self.failed
            == self.total_videos - self.job_total + self.completed_jobs
        &&& self.recent_errors@.len() <= 8
    }
}

/// Once a run is complete every video was counted once: its frames were taken, were there, are too
/// few, or could not be taken.
pub proof fn law_every_video_is_counted(run: PipelineRun)
    requires
        run.wf(),
        run.completed_jobs == run.job_total,
    ensures
        run.imported + run.skipped + run.insufficient_frames + run.failed == run.total_videos,
{
}

/// The number of workers: as many as asked for within limits, but no more than jobs.
pub open spec fn workers(asked: usize, limit: int, jobs: int) -> int {
    let wanted = matching::within(asked as int, 1, limit);
    let most = if jobs > 1 {
        jobs
    } else {
        1
    };
    if wanted <= most {
        wanted
    } else {
        most
    }
}

/// The number of workers: as many as asked for within limits, but no more than jobs.
pub fn worker_count(asked: usize, limit: usize, jobs: usize) -> (r: usize)
    requires
        limit >= 1,
    ensures
        r == workers(asked, limit as int, jobs as int),
        r >= 1,
{
    let wanted: usize = clamp(asked, 1, limit);
    let most: usize = if jobs > 1 {
        jobs
    } else {
        1
    };
    if wanted <= most {
        wanted
    } else {
        most
    }
}

proof fn lemma_jobs_and_ready(videos: Seq<VideoRecord>, cached: Seq<bool>, n: int)
    requires
        0 <= n,
    ensures
        job_videos(videos, cached, n).len() + ready_videos(videos, cached, n).len() <= n,
    decreases n,
{
    if n > 0 {
        lemma_jobs_and_ready(videos, cached, n - 1);
    }
}

/// Whether a run is at its start, with some jobs for some videos: videos without a job are skipped.
pub open spec fn starts_with_jobs(
    run: PipelineRun,
    videos: int,
    jobs: int,
    settings: AppSettings,
    options: LocalPreprocessOptions,
) -> bool {
    &&& run.total_videos == videos
    &&& run.job_total == jobs
    &&& run.skipped == videos - jobs
    &&& run.started == run.skipped
    &&& run.imported == 0 && run.insufficient_frames == 0 && run.failed == 0
    &&& run.completed_jobs == 0 && run.copied_jobs == 0
    &&& run.recent_errors@.len() == 0
    &&& run.video_workers == workers(options.video_workers, 8, jobs)
    &&& run.process_workers == workers(options.process_workers, 4, jobs)
    &&& run.frame_workers == matching::within(
        if options.frame_workers == 0 {
            settings.ai_extract_worker_count as int
        } else {
            options.frame_workers as int
        },
        1,
        64,
    )
}

/// What is told where frames are not taken at all: every video is skipped.
pub fn idle_summary(videos: &Vec<VideoRecord>) -> (r: LocalPreprocessSummary)
    ensures
        r.total_videos == 0,
        r.imported == 0,
        r.skipped == videos@.len(),
        r.insufficient_frames == 0,
        r.failed == 0,
        r.staging_dir is None,
        r.recent_errors@.len() == 0,
{
    LocalPreprocessSummary {
        total_videos: 0,
        imported: 0,
        skipped: videos.len(),
        insufficient_frames: 0,
        failed: 0,
        staging_dir: None,
        recent_errors: Vec::new(),
    }
}

/// Starts the taking of frames. `cached` tells of each video whether it was scanned in full and its
/// frames are there. Gives nothing where frames are not taken at all.
pub fn preprocess_ai_frame_cache_with_ready(
    videos: &Vec<VideoRecord>,
    cached: &Vec<bool>,
    settings: &AppSettings,
    options: &LocalPreprocessOptions,
) -> (r: Option<PreprocessPlan>)
    requires
        cached@.len() == videos@.len(),
    ensures
        r is Some == (settings.ai_vision_enabled && settings.ai_frame_cache_enabled),
        r matches Some(plan) ==> {
            let n = videos@.len() as int;
            &&& plan.ready@ == ready_videos(videos@, cached@, n)
            &&& plan.jobs@ == job_videos(videos@, cached@, n)
            &&& plan.run.wf()
            &&& starts_with_jobs(plan.run, n, plan.jobs@.len() as int, *settings, *options)
        },
{
    if !settings.ai_vision_enabled || !settings.ai_frame_cache_enabled {
        return None;
    }
    let total: usize = videos.len();
    let mut ready: Vec<usize> = Vec::new();
    let mut jobs: Vec<usize> = Vec::new();
    let mut i: usize = 0;
    while i < videos.len()
        invariant
            i <= videos@.len(),
            total == videos@.len(),
            cached@.len() == videos@.len(),
            ready@ == ready_videos(videos@, cached@, i as int),
            jobs@ == job_videos(videos@, cached@, i as int),
        decreases videos@.len() - i,
    {
        if same_text(videos[i].scan_status.as_str(), "ok") && videos[i].id.is_some() {
            if cached[i] {
                ready.push(i);
            } else {
                jobs.push(i);
            }
        }
        i += 1;
    }
    proof {
        lemma_jobs_and_ready(videos@, cached@, videos@.len() as int);
    }
    let job_total: usize = jobs.len();
    let skipped: usize = total - job_total;
    let asked_frames: usize = if options.frame_workers == 0 {
        settings.ai_extract_worker_count
    } else {
        options.frame_workers
    };
    let run = PipelineRun {
        total_videos: total,
        job_total,
        video_workers: worker_count(options.video_workers, 8, job_total),
        process_workers: worker_count(options.process_workers, 4, job_total),
        frame_workers: clamp(asked_frames, 1, 64),
        started: skipped,
        imported: 0,
        skipped,
        insufficient_frames: 0,
        failed: 0,
        completed_jobs: 0,
        copied_jobs: 0,
        recent_errors: Vec::new(),
    };
    Some(PreprocessPlan { ready, jobs, run })
}

/// What a worker tells.
#[derive(Debug, Clone)]
pub enum PipelineEvent {
    CopyStarted,
    CopyWaiting,
    /// A copy is complete and was handed on.
    CopyStaged,
    /// A copy was not needed: the frames are there.
    CopySkipped,
    /// A copy failed, or could not be handed on.
    CopyFailed(String),
    /// The frames of a video were taken.
    Imported,
    /// Too few frames of a video could be taken.
    TooFewFrames,
    /// The frames of a video could not be taken.
    ProcessFailed(String),
}

/// Whether an event completes a job.
pub open spec fn completes(event: PipelineEvent) -> bool {
    match event {
        PipelineEvent::CopyStarted => false,
        PipelineEvent::CopyWaiting => false,
        PipelineEvent::CopyStaged => false,
        _ => true,
    }
}

/// Whether an event ends a copy.
pub open spec fn ends_copy(event: PipelineEvent) -> bool {
    match event {
        PipelineEvent::CopyStaged => true,
        PipelineEvent::CopySkipped => true,
        PipelineEvent::CopyFailed(_) => true,
        _ => false,
    }
}

/// The error of an event, with the path of its video.
pub open spec fn error_of(event: PipelineEvent, path: Seq<char>) -> Option<Seq<char>> {
    match event {
        PipelineEvent::CopyFailed(error) => Some(path + ": "@ + error@),
        PipelineEvent::ProcessFailed(error) => Some(path + ": "@ + error@),
        _ => None,
    }
}

/// One where something holds, else nothing.
pub open spec fn one_if(b: bool) -> int {
    if b {
        1
    } else {
        0
    }
}

impl PipelineRun {
    /// What a run tells: how far it is, in a phase.
    pub fn progress(&self, phase: &str, current_path: Option<String>) -> (r:
        LocalPreprocessProgress)
        ensures
            r.total_videos == self.total_videos,
            r.started == self.started,
            r.imported == self.imported,
            r.skipped == self.skipped,
            r.insufficient_frames == self.insufficient_frames,
            r.failed == self.failed,
            r.phase@ == phase@,
            r.current_path == current_path,
    {
        LocalPreprocessProgress {
            total_videos: self.total_videos,
            started: self.started,
            imported: self.imported,
            skipped: self.skipped,
            insufficient_frames: self.insufficient_frames,
            failed: self.failed,
            phase: phase.to_owned(),
            current_path,
        }
    }

    /// The name of the phase in which copies are made and frames are taken.
    pub fn working_phase(&self) -> (r: String)
        ensures
            r@ == "copying x"@ + text::decimal(self.video_workers as nat) + " / processing x"@
                + text::decimal(self.process_workers as nat),
    {
        cat4(
            "copying x",
            decimal_text(self.video_workers as u64).as_str(),
            " / processing x",
            decimal_text(self.process_workers as u64).as_str(),
        )
    }

    /// Takes note of what a worker tells.
    pub fn note(&mut self, event: &PipelineEvent, path: &str)
        requires
            old(self).wf(),
            completes(*event) ==> old(self).completed_jobs < old(self).job_total,
            ends_copy(*event) ==> old(self).copied_jobs < old(self).job_total,
        ensures
            final(self).wf(),
            final(self).total_videos == old(self).total_videos,
            final(self).job_total == old(self).job_total,
            final(self).video_workers == old(self).video_workers,
            final(self).process_workers == old(self).process_workers,
            final(self).frame_workers == old(self).frame_workers,
            final(self).started == (if event is CopyStarted && old(self).started
                < old(self).total_videos {
                old(self).started + 1
            } else {
                old(self).started as int
            }),
            final(self).imported == old(self).imported + one_if(event is Imported),
            final(self).skipped == old(self).skipped + one_if(event is CopySkipped),
            final(self).insufficient_frames == old(self).insufficient_frames + one_if(
                event is TooFewFrames,
            ),
            final(self).failed == old(self).failed + one_if(error_of(*event, path@) is Some),
            final(self).completed_jobs == old(self).completed_jobs + one_if(completes(*event)),
            final(self).copied_jobs == old(self).copied_jobs + one_if(ends_copy(*event)),
            models::texts(final(self).recent_errors@) == (match error_of(*event, path@) {
                Some(message) => last_eight(
                    models::texts(old(self).recent_errors@).push(message),
                ),
                None => models::texts(old(self).recent_errors@),
            }),
    {
        match event {
            PipelineEvent::CopyStarted => {
                if self.started < self.total_videos {
                    self.started = self.started + 1;
                }
            },
            PipelineEvent::CopyWaiting => {},
            PipelineEvent::CopyStaged => {
                self.copied_jobs = self.copied_jobs + 1;
            },
            PipelineEvent::CopySkipped => {
                self.copied_jobs = self.copied_jobs + 1;
                self.completed_jobs = self.completed_jobs + 1;
                self.skipped = self.skipped + 1;
            },
            PipelineEvent::CopyFailed(error) => {
                self.copied_jobs = self.copied_jobs + 1;
                self.completed_jobs = self.completed_jobs + 1;
                self.failed = self.failed + 1;
                push_recent_error(&mut self.recent_errors, cat3(path, ": ", error.as_str()));
            },
            PipelineEvent::Imported => {
                self.completed_jobs = self.completed_jobs + 1;
                self.imported = self.imported + 1;
            },
            PipelineEvent::TooFewFrames => {
                self.completed_jobs = self.completed_jobs + 1;
                self.insufficient_frames = self.insufficient_frames + 1;
            },
            PipelineEvent::ProcessFailed(error) => {
                self.completed_jobs = self.completed_jobs + 1;
                self.failed = self.failed + 1;
                push_recent_error(&mut self.recent_errors, cat3(path, ": ", error.as_str()));
            },
        }
    }

    /// Whether all jobs are complete.
    pub fn is_complete(&self) -> (r: bool)
        ensures
            r == (self.completed_jobs >= self.job_total),
    {
        self.completed_jobs >= self.job_total
    }

    /// Whether no copy is to come.
    pub fn copies_are_done(&self) -> (r: bool)
        ensures
            r == (self.copied_jobs >= self.job_total),
    {
        self.copied_jobs >= self.job_total
    }

    /// What a run came to. `roots` names the folders of its copies; it is told where one could not
    /// be removed.
    pub fn summary(self, roots: String) -> (r: LocalPreprocessSummary)
        ensures
            r.total_videos == self.total_videos,
            r.imported == self.imported,
            r.skipped == self.skipped,
            r.insufficient_frames == self.insufficient_frames,
            r.failed == self.failed,
            r.recent_errors == self.recent_errors,
            r.staging_dir == (if left_behind(models::texts(self.recent_errors@)) {
                Some(roots)
            } else {
                None
            }),
    {
        let mut left = false;
        let ghost all = models::texts(self.recent_errors@);
        let mut i: usize = 0;
        while i < self.recent_errors.len()
            invariant
                i <= self.recent_errors@.len(),
                all == models::texts(self.recent_errors@),
                left == exists|k: int|
                    0 <= k < i && text::contains_text(
                        #[trigger] all[k],
                        "failed to remove staging directory"@,
                    ),
            decreases self.recent_errors@.len() - i,
        {
            assert(all[i as int] == self.recent_errors@[i as int]@);
            if has_text(
                self.recent_errors[i].as_str(),
                "failed to remove staging directory",
            ) {
                left = true;
            }
            i += 1;
        }
        LocalPreprocessSummary {
            total_videos: self.total_videos,
            imported: self.imported,
            skipped: self.skipped,
            insufficient_frames: self.insufficient_frames,
            failed: self.failed,
            staging_dir: if left {
                Some(roots)
            } else {
                None
            },
            recent_errors: self.recent_errors,
        }
    }
}

/// Whether an error tells that a folder of copies could not be removed.
pub open spec fn left_behind(errors: Seq<Seq<char>>) -> bool {
    exists|k: int|
        0 <= k < errors.len() && text::contains_text(
            #[trigger] errors[k],
            "failed to remove staging directory"@,
        )
}

/// Starts the taking of frames where nobody waits for those that are there.
pub fn preprocess_ai_frame_cache(
    videos: &Vec<VideoRecord>,
    cached: &Vec<bool>,
    settings: &AppSettings,
    options: &LocalPreprocessOptions,
) -> (r: Option<PreprocessPlan>)
    requires
        cached@.len() == videos@.len(),
    ensures
        r is Some == (settings.ai_vision_enabled && settings.ai_frame_cache_enabled),
        r matches Some(plan) ==> {
            let n = videos@.len() as int;
            &&& plan.ready@.len() == 0
            &&& plan.jobs@ == job_videos(videos@, cached@, n)
            &&& plan.run.wf()
            &&& starts_with_jobs(plan.run, n, plan.jobs@.len() as int, *settings, *options)
        },
{
    match preprocess_ai_frame_cache_with_ready(videos, cached, settings, options) {
        None => None,
        Some(plan) => {
            Some(PreprocessPlan { ready: Vec::new(), jobs: plan.jobs, run: plan.run })
        },
    }
}

} // verus!
