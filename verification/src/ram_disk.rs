//! The memory disk that holds copies of videos: which drive it gets, when it is mounted, and when
//! it goes.
use crate::matching;
use crate::media::parse_u64;
use crate::media;
use crate::models;
use crate::models::{AppSettings, RamDiskStatus};
use crate::paths;
use crate::paths::{data_path, join, Host, Root};
use crate::text;
use crate::text::{cat, cat3, cat5, chars_of, same_text, trim};
use vstd::prelude::*;
use vstd::string::*;

verus! {

/// The least size of the disk, and the largest, in mebibytes.
pub const MIN_SIZE_MB: usize = 512;

pub const MAX_SIZE_MB: usize = 1_048_576;

/// The folder of the disk that holds the copies.
pub const CACHE_FOLDER: &'static str = "TEMP";

/// The file that tells that a disk belongs to the program.
pub const MARKER_FILE: &'static str = ".duplicate-video-search-ram-cache";

/// The tasks that mount and release the disk.
pub const TASK_NAME: &'static str = "DuplicateVideoSearch-RamDisk";

pub const RELEASE_TASK_NAME: &'static str = "DuplicateVideoSearch-RamDisk-Release";

/// Where the driver can be had.
pub const DRIVER_DOWNLOAD_URL: &'static str =
    "https://sourceforge.net/projects/imdisk-toolkit/files/20250206/ImDiskTk-x64.zip/download";

/// Whether a character is a letter of the Latin alphabet.
pub open spec fn is_letter(c: char) -> bool {
    'A' <= c <= 'Z' || 'a' <= c <= 'z'
}

/// The drive of a path: its first letter, where it stands alone or before a colon.
pub open spec fn drive_of(value: Seq<char>) -> Option<char> {
    let own = text::trimmed(value);
    if own.len() > 0 && is_letter(own[0]) && (own.len() == 1 || own[1] == ':') {
        Some(text::ascii_upper(own[0]))
    } else {
        None
    }
}

/// The drive of a path.
pub fn parse_drive_letter(value: &str) -> (r: Option<char>)
    ensures
        r == drive_of(value@),
{
    let chars = chars_of(trim(value).as_str());
    if chars.len() == 0 {
        return None;
    }
    let letter = text::to_ascii_upper(chars[0]);
    if letter < 'A' || letter > 'Z' {
        return None;
    }
    if chars.len() == 1 || chars[1] == ':' {
        Some(letter)
    } else {
        None
    }
}

/// A text of one character.
fn text_of(c: char) -> (r: String)
    ensures
        r@ == seq![c],
{
    let mut out = String::new();
    out.push(c);
    assert(out@ =~= seq![c]);
    out
}

/// The root of a drive.
pub fn drive_root(drive_letter: char) -> (r: String)
    ensures
        r@ == seq![drive_letter] + ":\\"@,
{
    cat(text_of(drive_letter).as_str(), ":\\")
}

/// The folder of a drive that holds the copies.
pub open spec fn cache_place(host: Host, drive_letter: char) -> Seq<char> {
    paths::joined(host, seq![drive_letter] + ":\\"@, CACHE_FOLDER@)
}

/// The folder of a drive that holds the copies.
pub fn cache_path(host: Host, drive_letter: char) -> (r: String)
    ensures
        r@ == cache_place(host, drive_letter),
{
    join(host, drive_root(drive_letter).as_str(), CACHE_FOLDER)
}

/// The folder that holds the copies is found on the drive that it was made on.
pub proof fn law_cache_folder_names_its_drive(host: Host, drive_letter: char)
    requires
        'A' <= drive_letter <= 'Z',
    ensures
        drive_of(cache_place(host, drive_letter)) == Some(drive_letter),
{
    reveal_strlit(":\\");
    reveal_strlit("TEMP");
    let path = cache_place(host, drive_letter);
    assert(path[0] == drive_letter);
    assert(path.last() == 'P');
    assert(text::trimmed_start(path) == path);
    assert(text::trimmed_end(path) == path);
    assert(path[1] == ':');
}

/// What is known of the disk on a drive.
#[derive(Debug, Clone, Copy, PartialEq, Eq, Structural)]
pub struct DiskProbe {
    /// Whether the system can have such disks.
    pub supported: bool,
    pub driver_installed: bool,
    /// Whether the drive is a memory disk.
    pub mounted: bool,
    /// Whether the folder for copies is there.
    pub cache_is_dir: bool,
    /// Whether the drive is there.
    pub root_exists: bool,
    /// Whether the drive belongs to the program.
    pub marker_exists: bool,
    pub capacity_mb: Option<u64>,
}

impl DiskProbe {
    /// The kind of machine: only Windows can have such disks.
    pub open spec fn host(self) -> Host {
        if self.supported {
            Host::Windows
        } else {
            Host::Other
        }
    }
}

/// Whether the disk can be used.
pub open spec fn is_ready(letter: Option<char>, probe: DiskProbe) -> bool {
    letter is Some && probe.mounted && probe.cache_is_dir
}

/// The folder for copies: that of the drive, or the path itself where it names no drive.
pub open spec fn cache_folder(cache: Seq<char>, probe: DiskProbe) -> Seq<char> {
    match drive_of(cache) {
        Some(letter) => cache_place(probe.host(), letter),
        None => cache,
    }
}

/// What the user is told of the disk.
pub open spec fn status_message(cache: Seq<char>, completed: bool, probe: DiskProbe) -> Seq<char> {
    let letter = drive_of(cache);
    if !probe.supported {
        "自动内存盘仅支持 Windows"@
    } else if !probe.driver_installed {
        "未检测到 ImDisk 驱动；安装驱动后可继续自动配置"@
    } else if is_ready(letter, probe) {
        "内存缓存已就绪："@ + cache_folder(cache, probe)
    } else if letter is None {
        "一级缓存路径不是有效的盘符路径，需要重新配置"@
    } else if probe.root_exists {
        "目标盘符已被其他磁盘占用，将在配置时自动选择空闲盘符"@
    } else if completed {
        "内存盘当前未挂载；会在任务开始时自动挂载，任务结束后自动卸载"@
    } else {
        "首次使用需要申请管理员权限并创建内存盘"@
    }
}

/// Whether the state of the disk is told.
pub open spec fn tells_state(
    r: RamDiskStatus,
    cache: Seq<char>,
    size_mb: usize,
    completed: bool,
    probe: DiskProbe,
) -> bool {
    let letter = drive_of(cache);
    &&& r.supported == probe.supported
    &&& r.driver_installed == probe.driver_installed
    &&& r.mounted == (letter is Some && probe.mounted)
    &&& r.ready == is_ready(letter, probe)
    &&& r.setup_completed == completed
    &&& r.configured_size_mb == size_mb
    &&& r.actual_capacity_mb == (if letter is Some {
        probe.capacity_mb
    } else {
        None
    })
    &&& models::opt_text(r.drive_letter) == (match letter {
        Some(c) => Some(seq![c]),
        None => None,
    })
    &&& r.cache_path@ == cache_folder(cache, probe)
    &&& r.message@ == status_message(cache, completed, probe)
}

/// The state of the disk. `probe` tells of the drive of `cache`.
pub fn status_for_cache(
    cache: &str,
    configured_size_mb: usize,
    setup_completed: bool,
    probe: DiskProbe,
) -> (r: RamDiskStatus)
    ensures
        tells_state(r, cache@, configured_size_mb, setup_completed, probe),
{
    let letter = parse_drive_letter(cache);
    let folder = match letter {
        Some(c) => cache_path(
            if probe.supported {
                Host::Windows
            } else {
                Host::Other
            },
            c,
        ),
        None => cache.to_owned(),
    };
    let mounted = letter.is_some() && probe.mounted;
    let ready = mounted && probe.cache_is_dir;
    let message = if !probe.supported {
        "自动内存盘仅支持 Windows".to_owned()
    } else if !probe.driver_installed {
        "未检测到 ImDisk 驱动；安装驱动后可继续自动配置".to_owned()
    } else if ready {
        cat("内存缓存已就绪：", folder.as_str())
    } else if letter.is_none() {
        "一级缓存路径不是有效的盘符路径，需要重新配置".to_owned()
    } else if probe.root_exists {
        "目标盘符已被其他磁盘占用，将在配置时自动选择空闲盘符".to_owned()
    } else if setup_completed {
        "内存盘当前未挂载；会在任务开始时自动挂载，任务结束后自动卸载".to_owned()
    } else {
        "首次使用需要申请管理员权限并创建内存盘".to_owned()
    };
    RamDiskStatus {
        supported: probe.supported,
        driver_installed: probe.driver_installed,
        mounted,
        ready,
        setup_completed,
        configured_size_mb,
        actual_capacity_mb: if letter.is_some() {
            probe.capacity_mb
        } else {
            None
        },
        drive_letter: match letter {
            Some(c) => Some(text_of(c)),
            None => None,
        },
        cache_path: folder,
        message,
    }
}

/// The state of the disk that the settings ask for.
pub fn status(settings: &AppSettings, probe: DiskProbe) -> (r: RamDiskStatus)
    ensures
        tells_state(
            r,
            settings.local_preprocess_temp_dir@,
            settings.ram_disk_size_mb,
            settings.ram_disk_setup_completed,
            probe,
        ),
{
    status_for_cache(
        settings.local_preprocess_temp_dir.as_str(),
        settings.ram_disk_size_mb,
        settings.ram_disk_setup_completed,
        probe,
    )
}

/// Whether the mount task is run: the disk is asked for and not ready, and the driver is there.
pub fn needs_mount_task(settings: &AppSettings, current: &RamDiskStatus) -> (r: bool)
    ensures
        r == (!current.ready && settings.ram_disk_enabled && current.driver_installed),
{
    !current.ready && settings.ram_disk_enabled && current.driver_installed
}

/// A size within the limits.
pub fn clamp_size(size_mb: usize) -> (r: usize)
    ensures
        r == matching::within(size_mb as int, MIN_SIZE_MB as int, MAX_SIZE_MB as int),
{
    if size_mb < MIN_SIZE_MB {
        MIN_SIZE_MB
    } else if size_mb > MAX_SIZE_MB {
        MAX_SIZE_MB
    } else {
        size_mb
    }
}

/// Whether the size of a disk is that asked for, to within eight mebibytes.
pub open spec fn fits_size(capacity_mb: Option<u64>, size_mb: int) -> bool {
    capacity_mb is Some && -8 <= capacity_mb->0 - size_mb <= 8
}

fn has_size(capacity_mb: Option<u64>, size_mb: usize) -> (r: bool)
    ensures
        r == fits_size(capacity_mb, size_mb as int),
{
    match capacity_mb {
        Some(capacity) => {
            let apart: i128 = capacity as i128 - size_mb as i128;
            -8 <= apart && apart <= 8
        },
        None => false,
    }
}

/// Whether a drive can be had: it is free, belongs to the program, or is a memory disk of the size
/// that is asked for.
pub open spec fn is_available(probe: DiskProbe, size_mb: int) -> bool {
    !probe.root_exists || probe.marker_exists || (probe.mounted && fits_size(
        probe.capacity_mb,
        size_mb,
    ))
}

/// The drives that come into question, in the order in which they are tried: the one that is
/// asked for, then from Z down to R.
pub open spec fn candidates(preferred: Option<char>) -> Seq<char> {
    let all = seq!['Z', 'Y', 'X', 'W', 'V', 'U', 'T', 'S', 'R'];
    match preferred {
        Some(own) => seq![own] + others(all, own),
        None => all,
    }
}

/// The letters that are not another one.
pub open spec fn others(all: Seq<char>, own: char) -> Seq<char>
    decreases all.len(),
{
    if all.len() == 0 {
        Seq::empty()
    } else if all.last() == own {
        others(all.drop_last(), own)
    } else {
        others(all.drop_last(), own).push(all.last())
    }
}

/// The drives that come into question, in the order in which they are tried.
pub fn drive_candidates(preferred_cache: &str) -> (r: Vec<char>)
    ensures
        r@ == candidates(drive_of(preferred_cache@)),
{
    let all = vec!['Z', 'Y', 'X', 'W', 'V', 'U', 'T', 'S', 'R'];
    let ghost letters = seq!['Z', 'Y', 'X', 'W', 'V', 'U', 'T', 'S', 'R'];
    assert(all@ =~= letters);
    match parse_drive_letter(preferred_cache) {
        None => all,
        Some(own) => {
            let mut out: Vec<char> = Vec::new();
            out.push(own);
            let mut i: usize = 0;
            assert(letters.take(0) =~= Seq::empty());
            assert(out@ =~= seq![own] + others(letters.take(0), own));
            while i < all.len()
                invariant
                    i <= all@.len(),
                    all@ == letters,
                    out@ == seq![own] + others(letters.take(i as int), own),
                decreases all@.len() - i,
            {
                assert(letters.take(i + 1).drop_last() =~= letters.take(i as int));
                if all[i] != own {
                    out.push(all[i]);
                    assert(out@ =~= seq![own] + others(letters.take(i + 1), own));
                }
                i += 1;
            }
            assert(letters.take(i as int) =~= letters);
            out
        },
    }
}

/// The first drive, from `i` on, that can be had.
pub open spec fn first_available(probes: Seq<DiskProbe>, size_mb: int, i: int) -> Option<int>
    decreases probes.len() - i,
{
    if i < 0 || i >= probes.len() {
        None
    } else if is_available(probes[i], size_mb) {
        Some(i)
    } else {
        first_available(probes, size_mb, i + 1)
    }
}

/// The first of some drives that can be had. Fails where there is none.
pub fn choose_drive_letter(letters: &Vec<char>, probes: &Vec<DiskProbe>, size_mb: usize) -> (r:
    Result<char, String>)
    requires
        probes@.len() == letters@.len(),
    ensures
        match first_available(probes@, size_mb as int, 0) {
            Some(i) => r == Ok::<char, String>(letters@[i]),
            None => r is Err && r->Err_0@
                == "no free drive letter is available between R: and Z:"@,
        },
{
    let mut i: usize = 0;
    while i < letters.len()
        invariant
            i <= letters@.len(),
            probes@.len() == letters@.len(),
            first_available(probes@, size_mb as int, 0) == first_available(
                probes@,
                size_mb as int,
                i as int,
            ),
        decreases letters@.len() - i,
    {
        let probe = probes[i];
        if !probe.root_exists || probe.marker_exists || (probe.mounted && has_size(
            probe.capacity_mb,
            size_mb,
        )) {
            return Ok(letters[i]);
        }
        i += 1;
    }
    Err("no free drive letter is available between R: and Z:".to_owned())
}

/// What the set-up of the disk came to. Fails, with what the user is told, where it is not ready.
pub fn configure_with_elevation(result: RamDiskStatus) -> (r: Result<RamDiskStatus, String>)
    ensures
        r == (if result.ready {
            Ok::<RamDiskStatus, String>(result)
        } else {
            Err::<RamDiskStatus, String>(result.message)
        }),
{
    if result.ready {
        Ok(result)
    } else {
        Err(result.message)
    }
}

/// How the disk is made.
#[derive(Debug, Clone, Copy, PartialEq, Eq, Structural)]
pub enum SetupStep {
    /// It is there with the right size.
    Reuse,
    /// One of the program is there with another size: it is removed first.
    Replace,
    /// The drive is free.
    Create,
}

/// How the disk is made, or why it cannot be.
pub open spec fn setup_step(letter: char, probe: DiskProbe, size_mb: int) -> Result<
    SetupStep,
    Seq<char>,
> {
    if !probe.supported {
        Err("automatic RAM disk setup is only supported on Windows"@)
    } else if !probe.driver_installed {
        Err("ImDisk driver is not installed"@)
    } else if !probe.root_exists {
        Ok(SetupStep::Create)
    } else if probe.mounted && fits_size(probe.capacity_mb, size_mb) {
        Ok(SetupStep::Reuse)
    } else if !probe.marker_exists {
        Err(
            "drive "@ + seq![letter]
                + ": is already in use and is not managed by Duplicate Video Search"@,
        )
    } else {
        Ok(SetupStep::Replace)
    }
}

/// How the disk is made on a drive, with a size within the limits. Fails where it cannot be.
pub fn configure_elevated(size_mb: usize, drive_letter: char, probe: DiskProbe) -> (r: Result<
    SetupStep,
    String,
>)
    ensures
        match setup_step(
            drive_letter,
            probe,
            matching::within(size_mb as int, MIN_SIZE_MB as int, MAX_SIZE_MB as int),
        ) {
            Ok(step) => r == Ok::<SetupStep, String>(step),
            Err(message) => r is Err && r->Err_0@ == message,
        },
{
    let size: usize = clamp_size(size_mb);
    if !probe.supported {
        return Err("automatic RAM disk setup is only supported on Windows".to_owned());
    }
    if !probe.driver_installed {
        return Err("ImDisk driver is not installed".to_owned());
    }
    if !probe.root_exists {
        return Ok(SetupStep::Create);
    }
    if probe.mounted && has_size(probe.capacity_mb, size) {
        return Ok(SetupStep::Reuse);
    }
    if !probe.marker_exists {
        return Err(
            cat3(
                "drive ",
                text_of(drive_letter).as_str(),
                ": is already in use and is not managed by Duplicate Video Search",
            ),
        );
    }
    Ok(SetupStep::Replace)
}

/// No drive but a memory disk of the right size or one of the program is ever touched.
pub proof fn law_foreign_drives_are_left_alone(letter: char, probe: DiskProbe, size_mb: int)
    requires
        probe.root_exists,
        !probe.marker_exists,
        !(probe.mounted && fits_size(probe.capacity_mb, size_mb)),
    ensures
        setup_step(letter, probe, size_mb) is Err,
        release_step(letter, probe) != Ok::<bool, Seq<char>>(true),
{
}

/// Whether the disk on a drive is removed, or why it must not be.
pub open spec fn release_step(letter: char, probe: DiskProbe) -> Result<bool, Seq<char>> {
    if !probe.supported || !probe.mounted {
        Ok(false)
    } else if !probe.marker_exists {
        Err(
            "refusing to remove drive "@ + seq![letter]
                + ": because it is not marked as a Duplicate Video Search RAM cache"@,
        )
    } else {
        Ok(true)
    }
}

/// Whether the disk on a drive is removed. Fails where it does not belong to the program.
pub fn release_managed_drive(drive_letter: char, probe: DiskProbe) -> (r: Result<bool, String>)
    ensures
        match release_step(drive_letter, probe) {
            Ok(goes) => r == Ok::<bool, String>(goes),
            Err(message) => r is Err && r->Err_0@ == message,
        },
{
    if !probe.supported || !probe.mounted {
        return Ok(false);
    }
    if !probe.marker_exists {
        return Err(
            cat3(
                "refusing to remove drive ",
                text_of(drive_letter).as_str(),
                ": because it is not marked as a Duplicate Video Search RAM cache",
            ),
        );
    }
    Ok(true)
}

/// The drive whose disk is released for a task, where the settings name one.
pub fn release_managed(settings: &AppSettings, supported: bool) -> (r: Option<char>)
    ensures
        r == (if supported {
            drive_of(settings.local_preprocess_temp_dir@)
        } else {
            None
        }),
{
    if supported {
        parse_drive_letter(settings.local_preprocess_temp_dir.as_str())
    } else {
        None
    }
}

/// How often it is looked whether a task of the system did its work.
pub const TASK_CHECKS: u32 = 30;

/// How often it is looked whether a disk is gone once its removal was asked for.
pub const REMOVAL_CHECKS: u32 = 20;

/// How often it is looked whether a disk that was made is there.
pub const SETUP_CHECKS: u32 = 40;

/// A wait for something, which is looked at a number of times.
#[derive(Debug, Clone, Copy, PartialEq, Eq, Structural)]
pub struct Waiting {
    pub checks: u32,
    pub limit: u32,
}

impl Waiting {
    /// A wait starts.
    pub fn start(limit: u32) -> (r: Waiting)
        ensures
            r.checks == 0,
            r.limit == limit,
    {
        Waiting { checks: 0, limit }
    }

    /// Takes note of a look; tells whether the wait goes on.
    pub fn goes_on(&mut self, done: bool) -> (r: bool)
        requires
            old(self).checks < old(self).limit,
        ensures
            final(self).checks == old(self).checks + 1,
            final(self).limit == old(self).limit,
            r == (!done && final(self).checks < final(self).limit),
    {
        self.checks = self.checks + 1;
        !done && self.checks < self.limit
    }
}

/// What comes next while a disk is removed.
#[derive(Debug, Clone, Copy, PartialEq, Eq, Structural)]
pub enum ReleaseNext {
    /// The disk is gone.
    Done,
    /// The removal is tried again.
    Again,
    /// The release task is run, where that is allowed.
    GiveUp,
}

/// The attempts to remove a disk, eight at most, and the error of the last one.
#[derive(Debug, Clone)]
pub struct ReleaseRun {
    pub drive_letter: char,
    pub attempts: usize,
    pub error: Option<String>,
}

impl ReleaseRun {
    /// The removal of the disk on a drive starts.
    pub fn start(drive_letter: char) -> (r: ReleaseRun)
        ensures
            r.drive_letter == drive_letter,
            r.attempts == 0,
            r.error is None,
    {
        ReleaseRun { drive_letter, attempts: 0, error: None }
    }

    /// Takes note of an attempt: the error of the command, if it failed; whether the disk was gone
    /// right after it; and whether it was gone a while later.
    pub fn note(&mut self, failure: Option<String>, gone: bool, gone_later: bool) -> (r: ReleaseNext)
        requires
            old(self).attempts < 8,
        ensures
            final(self).drive_letter == old(self).drive_letter,
            final(self).attempts == old(self).attempts + 1,
            r == (if (failure is None && gone) || gone_later {
                ReleaseNext::Done
            } else if final(self).attempts < 8 {
                ReleaseNext::Again
            } else {
                ReleaseNext::GiveUp
            }),
            models::opt_text(final(self).error) == (match models::opt_text(failure) {
                Some(message) => Some(message),
                None => if gone {
                    models::opt_text(old(self).error)
                } else {
                    Some(
                        "drive "@ + seq![old(self).drive_letter]
                            + ": is still mounted after ImDisk remove command"@,
                    )
                },
            }),
    {
        self.attempts = self.attempts + 1;
        match failure {
            Some(message) => {
                self.error = Some(message);
            },
            None => {
                if gone {
                    return ReleaseNext::Done;
                }
                self.error = Some(
                    cat3(
                        "drive ",
                        text_of(self.drive_letter).as_str(),
                        ": is still mounted after ImDisk remove command",
                    ),
                );
            },
        }
        if gone_later {
            ReleaseNext::Done
        } else if self.attempts < 8 {
            ReleaseNext::Again
        } else {
            ReleaseNext::GiveUp
        }
    }

    /// Why the disk could not be removed.
    pub fn failure(self) -> (r: String)
        ensures
            r@ == (match models::opt_text(self.error) {
                Some(message) => message,
                None => removal_message(self.drive_letter),
            }),
    {
        match self.error {
            Some(message) => message,
            None => removal_text(self.drive_letter),
        }
    }
}

/// The message that a disk could not be removed.
pub open spec fn removal_message(letter: char) -> Seq<char> {
    "failed to remove managed RAM disk on "@ + seq![letter] + ":"@
}

/// The message that a disk could not be removed.
pub fn removal_text(drive_letter: char) -> (r: String)
    ensures
        r@ == removal_message(drive_letter),
{
    cat3("failed to remove managed RAM disk on ", text_of(drive_letter).as_str(), ":")
}

/// The disk of a task: whether it was mounted for the task, and whether it was released.
#[derive(Debug, Clone, Copy, PartialEq, Eq, Structural)]
pub struct TaskRamDisk {
    pub active: bool,
    pub released: bool,
}

/// Whether a task has to have the disk.
pub open spec fn is_wanted(settings: AppSettings) -> bool {
    settings.ram_disk_enabled && settings.local_preprocess_enabled
        && settings.ai_frame_cache_enabled
}

impl TaskRamDisk {
    /// Whether a task mounts the disk. Fails where it was not set up.
    pub fn needs_disk(settings: &AppSettings) -> (r: Result<bool, String>)
        ensures
            match r {
                Ok(needed) => needed == is_wanted(*settings) && (needed
                    ==> settings.ram_disk_setup_completed),
                Err(message) => is_wanted(*settings) && !settings.ram_disk_setup_completed
                    && message@ == "内存缓存盘尚未完成配置，请先在设置中申请权限并创建"@,
            },
    {
        if !settings.ram_disk_enabled || !settings.local_preprocess_enabled
            || !settings.ai_frame_cache_enabled {
            return Ok(false);
        }
        if !settings.ram_disk_setup_completed {
            return Err("内存缓存盘尚未完成配置，请先在设置中申请权限并创建".to_owned());
        }
        Ok(true)
    }

    /// The disk of a task that does without, or whose disk is in some state. Fails where it is not
    /// ready.
    pub fn activate(state: &Option<RamDiskStatus>) -> (r: Result<TaskRamDisk, String>)
        ensures
            match *state {
                None => r == Ok::<TaskRamDisk, String>(
                    (TaskRamDisk { active: false, released: false }),
                ),
                Some(own) => if own.ready {
                    r == Ok::<TaskRamDisk, String>((TaskRamDisk { active: true, released: false }))
                } else {
                    r is Err && r->Err_0@ == "内存缓存盘不可用："@ + own.message@
                },
            },
    {
        match state {
            None => Ok(TaskRamDisk { active: false, released: false }),
            Some(own) => if own.ready {
                Ok(TaskRamDisk { active: true, released: false })
            } else {
                Err(cat("内存缓存盘不可用：", own.message.as_str()))
            },
        }
    }

    /// Ends a task; tells whether its disk is to be released, which it is once at most.
    pub fn release(&mut self) -> (r: bool)
        ensures
            r == (old(self).active && !old(self).released),
            final(self).active == old(self).active,
            final(self).released,
    {
        let goes = self.active && !self.released;
        self.released = true;
        goes
    }
}

/// What the program is started for with raised rights.
#[derive(Debug, Clone, Copy, PartialEq, Eq, Structural)]
pub enum ElevatedCommand {
    /// The disk is made; its tasks are registered, where that is asked for.
    Configure { size_mb: usize, drive_letter: char, register: bool },
    /// The disk is released.
    Release { drive_letter: char },
}

/// Whether an argument starts a command.
pub open spec fn starts_command(argument: Seq<char>) -> bool {
    argument == "--configure-ram-disk"@ || argument == "--ensure-ram-disk"@ || argument
        == "--release-ram-disk"@
}

/// The first argument, from `i` on, that starts a command.
pub open spec fn command_at(args: Seq<Seq<char>>, i: int) -> Option<int>
    decreases args.len() - i,
{
    if i < 0 || i >= args.len() {
        None
    } else if starts_command(args[i]) {
        Some(i)
    } else {
        command_at(args, i + 1)
    }
}

/// What the program is started for, by its arguments.
pub open spec fn command_of(args: Seq<Seq<char>>) -> Option<ElevatedCommand> {
    match command_at(args, 0) {
        None => None,
        Some(i) => if args[i] == "--release-ram-disk"@ {
            if i + 1 < args.len() && drive_of(args[i + 1]) is Some {
                Some(ElevatedCommand::Release { drive_letter: drive_of(args[i + 1])->0 })
            } else {
                None
            }
        } else if i + 2 < args.len() && media::number_of(args[i + 1]) is Some && media::number_of(
            args[i + 1],
        )->0 <= usize::MAX && drive_of(args[i + 2]) is Some {
            Some(
                ElevatedCommand::Configure {
                    size_mb: media::number_of(args[i + 1])->0 as usize,
                    drive_letter: drive_of(args[i + 2])->0,
                    register: args[i] == "--configure-ram-disk"@,
                },
            )
        } else {
            None
        },
    }
}

/// What the program is started for with raised rights, if for anything.
pub fn handle_elevated_arguments(args: &Vec<String>) -> (r: Option<ElevatedCommand>)
    ensures
        r == command_of(models::texts(args@)),
{
    let ghost all = models::texts(args@);
    let total: usize = args.len();
    let mut i: usize = 0;
    while i < total
        invariant
            i <= total,
            total == args@.len(),
            all == models::texts(args@),
            command_at(all, 0) == command_at(all, i as int),
        decreases total - i,
    {
        assert(all[i as int] == args@[i as int]@);
        let own = args[i].as_str();
        if same_text(own, "--release-ram-disk") {
            if total - i < 2 {
                return None;
            }
            assert(all[i + 1] == args@[i + 1]@);
            return match parse_drive_letter(args[i + 1].as_str()) {
                Some(drive_letter) => Some(ElevatedCommand::Release { drive_letter }),
                None => None,
            };
        }
        if same_text(own, "--configure-ram-disk") || same_text(own, "--ensure-ram-disk") {
            if total - i < 3 {
                return None;
            }
            assert(all[i + 1] == args@[i + 1]@);
            assert(all[i + 2] == args@[i + 2]@);
            let size: u64 = match parse_u64(&Some(args[i + 1].clone())) {
                Some(n) => n,
                None => {
                    return None;
                },
            };
            if size > usize::MAX as u64 {
                return None;
            }
            return match parse_drive_letter(args[i + 2].as_str()) {
                Some(drive_letter) => Some(
                    ElevatedCommand::Configure {
                        size_mb: size as usize,
                        drive_letter,
                        register: same_text(own, "--configure-ram-disk"),
                    },
                ),
                None => None,
            };
        }
        i += 1;
    }
    None
}

/// The arguments with which a command is started again.
pub fn command_arguments(command: ElevatedCommand) -> (r: String)
    ensures
        r@ == (match command {
            ElevatedCommand::Configure { size_mb, drive_letter, register } => (if register {
                "--configure-ram-disk "@
            } else {
                "--ensure-ram-disk "@
            }) + text::decimal(size_mb as nat) + " "@ + seq![drive_letter],
            ElevatedCommand::Release { drive_letter } => "--release-ram-disk "@ + seq![
                drive_letter,
            ],
        }),
{
    match command {
        ElevatedCommand::Configure { size_mb, drive_letter, register } => {
            let size = text::decimal_text(size_mb as u64);
            let letter = text_of(drive_letter);
            if register {
                text::cat4("--configure-ram-disk ", size.as_str(), " ", letter.as_str())
            } else {
                text::cat4("--ensure-ram-disk ", size.as_str(), " ", letter.as_str())
            }
        },
        ElevatedCommand::Release { drive_letter } => {
            cat("--release-ram-disk ", text_of(drive_letter).as_str())
        },
    }
}

/// The message that the set-up with raised rights failed, with what it left behind.
pub fn setup_failure_text(detail: &str) -> (r: String)
    ensures
        r@ == (if text::trimmed(detail@).len() == 0 {
            "RAM disk setup failed"@
        } else {
            "RAM disk setup failed: "@ + text::trimmed(detail@)
        }),
{
    if text::is_blank(detail) {
        "RAM disk setup failed".to_owned()
    } else {
        cat("RAM disk setup failed: ", trim(detail).as_str())
    }
}

/// The file that holds what a failed set-up left behind.
pub fn setup_error_path(root: &Root) -> (r: String)
    ensures
        r@ == paths::in_data(root@, "ram-disk-setup-error.txt"@),
{
    data_path(root, "ram-disk-setup-error.txt")
}

/// Where the driver's program may be, by the folders that the system names.
pub open spec fn driver_places(
    host: Host,
    system_root: Option<Seq<char>>,
    programs: Option<Seq<char>>,
    programs_x86: Option<Seq<char>>,
) -> Seq<Seq<char>> {
    let first = match system_root {
        Some(root) => seq![paths::joined(host, root, "System32\\imdisk.exe"@)],
        None => Seq::empty(),
    };
    let second = match programs {
        Some(root) => first.push(paths::joined(host, root, "ImDisk\\imdisk.exe"@)),
        None => first,
    };
    match programs_x86 {
        Some(root) => second.push(paths::joined(host, root, "ImDisk\\imdisk.exe"@)),
        None => second,
    }
}

/// Where the driver's program may be, by the folders that the system names.
pub fn resolve_imdisk(
    host: Host,
    system_root: &Option<String>,
    programs: &Option<String>,
    programs_x86: &Option<String>,
) -> (r: Vec<String>)
    ensures
        models::texts(r@) == driver_places(
            host,
            models::opt_text(*system_root),
            models::opt_text(*programs),
            models::opt_text(*programs_x86),
        ),
{
    let mut out: Vec<String> = Vec::new();
    assert(models::texts(out@) =~= Seq::empty());
    if let Some(root) = system_root {
        text::add_line(&mut out, join(host, root.as_str(), "System32\\imdisk.exe"));
    }
    if let Some(root) = programs {
        text::add_line(&mut out, join(host, root.as_str(), "ImDisk\\imdisk.exe"));
    }
    if let Some(root) = programs_x86 {
        text::add_line(&mut out, join(host, root.as_str(), "ImDisk\\imdisk.exe"));
    }
    assert(models::texts(out@) =~= driver_places(
        host,
        models::opt_text(*system_root),
        models::opt_text(*programs),
        models::opt_text(*programs_x86),
    ));
    out
}

/// What stands for a character in XML.
pub open spec fn escaped_char(c: char) -> Seq<char> {
    if c == '&' {
        "&amp;"@
    } else if c == '<' {
        "&lt;"@
    } else if c == '>' {
        "&gt;"@
    } else if c == '"' {
        "&quot;"@
    } else if c == '\'' {
        "&apos;"@
    } else {
        seq![c]
    }
}

/// What stands for a text in XML.
pub open spec fn escaped(s: Seq<char>) -> Seq<char>
    decreases s.len(),
{
    if s.len() == 0 {
        Seq::empty()
    } else {
        escaped(s.drop_last()) + escaped_char(s.last())
    }
}

/// What stands for a text in XML.
pub fn xml_escape(value: &str) -> (r: String)
    ensures
        r@ == escaped(value@),
{
    let chars = chars_of(value);
    let mut out = String::new();
    let mut i: usize = 0;
    assert(chars@.take(0) =~= Seq::empty());
    assert(out@ =~= Seq::empty());
    while i < chars.len()
        invariant
            i <= chars@.len(),
            chars@ == value@,
            out@ == escaped(chars@.take(i as int)),
        decreases chars@.len() - i,
    {
        let c = chars[i];
        assert(chars@.take(i + 1).drop_last() =~= chars@.take(i as int));
        let ghost before = out@;
        if c == '&' {
            out.append("&amp;");
        } else if c == '<' {
            out.append("&lt;");
        } else if c == '>' {
            out.append("&gt;");
        } else if c == '"' {
            out.append("&quot;");
        } else if c == '\'' {
            out.append("&apos;");
        } else {
            out.push(c);
            assert(out@ =~= before + seq![c]);
        }
        i += 1;
    }
    assert(chars@.take(i as int) =~= chars@);
    out
}

/// The code units of a character in UTF-16.
pub open spec fn code_units(c: char) -> Seq<int> {
    let n = c as int;
    if n < 0x1_0000 {
        seq![n]
    } else {
        seq![0xd800 + (n - 0x1_0000) / 0x400, 0xdc00 + (n - 0x1_0000) % 0x400]
    }
}

/// The bytes of code units, the low one first.
pub open spec fn unit_bytes(units: Seq<int>) -> Seq<u8>
    decreases units.len(),
{
    if units.len() == 0 {
        Seq::empty()
    } else {
        unit_bytes(units.drop_last()).push((units.last() % 256) as u8).push(
            (units.last() / 256) as u8,
        )
    }
}

/// The bytes of a text in UTF-16, the low one of each pair first, behind the mark of that order.
pub open spec fn utf16_bytes(s: Seq<char>) -> Seq<u8>
    decreases s.len(),
{
    if s.len() == 0 {
        seq![0xffu8, 0xfeu8]
    } else {
        utf16_bytes(s.drop_last()) + unit_bytes(code_units(s.last()))
    }
}

/// The number of a character.
fn code_of(c: char) -> (r: u32)
    ensures
        r == c as int,
        r <= 0x10_ffff,
{
    c as u32
}

fn push_unit(bytes: &mut Vec<u8>, unit: u32)
    requires
        unit < 0x1_0000,
    ensures
        final(bytes)@ == old(bytes)@.push((unit % 256) as u8).push((unit / 256) as u8),
{
    bytes.push((unit % 256) as u8);
    bytes.push((unit / 256) as u8);
}

/// The bytes of a text in UTF-16, the low one of each pair first, behind the mark of that order.
pub fn encode_utf16le_with_bom(value: &str) -> (r: Vec<u8>)
    ensures
        r@ == utf16_bytes(value@),
{
    let chars = chars_of(value);
    let mut bytes: Vec<u8> = Vec::new();
    bytes.push(0xff);
    bytes.push(0xfe);
    let mut i: usize = 0;
    assert(chars@.take(0) =~= Seq::empty());
    assert(bytes@ =~= seq![0xffu8, 0xfeu8]);
    while i < chars.len()
        invariant
            i <= chars@.len(),
            chars@ == value@,
            bytes@ == utf16_bytes(chars@.take(i as int)),
        decreases chars@.len() - i,
    {
        let c = chars[i];
        let n: u32 = code_of(c);
        let ghost before = bytes@;
        assert(chars@.take(i + 1).drop_last() =~= chars@.take(i as int));
        if n < 0x1_0000 {
            push_unit(&mut bytes, n);
            proof {
                reveal_with_fuel(unit_bytes, 3);
                assert(code_units(c).drop_last() =~= Seq::empty());
                assert(bytes@ =~= before + unit_bytes(code_units(c)));
            }
        } else {
            let high: u32 = 0xd800 + (n - 0x1_0000) / 0x400;
            let low: u32 = 0xdc00 + (n - 0x1_0000) % 0x400;
            push_unit(&mut bytes, high);
            push_unit(&mut bytes, low);
            proof {
                reveal_with_fuel(unit_bytes, 4);
                assert(code_units(c) =~= seq![high as int, low as int]);
                assert(code_units(c).drop_last() =~= seq![high as int]);
                assert(code_units(c).drop_last().drop_last() =~= Seq::empty());
                assert(bytes@ =~= before + unit_bytes(code_units(c)));
            }
        }
        i += 1;
    }
    assert(chars@.take(i as int) =~= chars@);
    bytes
}

/// What stands before the program in the description of a task.
pub const TASK_HEAD: &'static str = r#"<?xml version="1.0" encoding="UTF-16"?>
<Task version="1.4" xmlns="http://schemas.microsoft.com/windows/2004/02/mit/task">
  <RegistrationInfo>
    <Author>Duplicate Video Search</Author>
  </RegistrationInfo>
  <Principals>
    <Principal id="Author">
      <LogonType>InteractiveToken</LogonType>
      <RunLevel>HighestAvailable</RunLevel>
    </Principal>
  </Principals>
  <Settings>
    <MultipleInstancesPolicy>IgnoreNew</MultipleInstancesPolicy>
    <DisallowStartIfOnBatteries>false</DisallowStartIfOnBatteries>
    <StopIfGoingOnBatteries>false</StopIfGoingOnBatteries>
    <AllowHardTerminate>true</AllowHardTerminate>
    <StartWhenAvailable>false</StartWhenAvailable>
    <RunOnlyIfNetworkAvailable>false</RunOnlyIfNetworkAvailable>
    <IdleSettings>
      <StopOnIdleEnd>false</StopOnIdleEnd>
      <RestartOnIdle>false</RestartOnIdle>
    </IdleSettings>
    <AllowStartOnDemand>true</AllowStartOnDemand>
    <Enabled>true</Enabled>
    <Hidden>true</Hidden>
    <RunOnlyIfIdle>false</RunOnlyIfIdle>
    <WakeToRun>false</WakeToRun>
    <ExecutionTimeLimit>PT1H</ExecutionTimeLimit>
    <Priority>7</Priority>
  </Settings>
  <Actions Context="Author">
    <Exec>
      <Command>"#;

/// What stands between the program and its arguments.
pub const TASK_MIDDLE: &'static str = r#"</Command>
      <Arguments>"#;

/// What stands behind the arguments.
pub const TASK_TAIL: &'static str = r#"</Arguments>
    </Exec>
  </Actions>
</Task>
"#;

/// The description of a task: it runs a program with arguments when it is asked to.
pub fn task_description(executable: &str, arguments: &str) -> (r: String)
    ensures
        r@ == TASK_HEAD@ + escaped(executable@) + TASK_MIDDLE@ + escaped(arguments@) + TASK_TAIL@,
{
    cat5(
        TASK_HEAD,
        xml_escape(executable).as_str(),
        TASK_MIDDLE,
        xml_escape(arguments).as_str(),
        TASK_TAIL,
    )
}

} // verus!
