//! What is taken from video files: their records, their frames, and the tools that read them.
use crate::database::FilePlace;
use crate::digest;
use crate::digest::{ai_frame_cache_key, clamp_frame_count};
use crate::double::Double;
use crate::files::FileParts;
use crate::local_preprocess;
use crate::local_preprocess::minimum_usable_frame_count;
use crate::matching;
use crate::models;
use crate::models::{AppSettings, ToolStatus, VideoData, VideoRecord};
use crate::paths;
use crate::paths::{
    at_or_under, data_dir, data_path, database_path, join, Host, Root, RootData, ALLOWED_SOURCE,
};
use crate::settings;
use crate::text;
use crate::text::{
    cat, cat4, chars_of, decimal_text, has_line, replace_char, same_text, starts_with, strip_prefix,
    trim_end_char,
};
use vstd::prelude::*;
use vstd::string::*;

verus! {

/// The width and the height of a frame.
pub const AI_FRAME_SIZE: usize = 224;

/// The bytes of a frame: three for each of its points.
pub const AI_FRAME_BYTES: usize = 150_528;

/// The kinds of files that are videos.
pub open spec fn video_kinds() -> Seq<Seq<char>> {
    seq![
        "mp4"@,
        "mov"@,
        "m4v"@,
        "avi"@,
        "mkv"@,
        "mts"@,
        "m2ts"@,
        "wmv"@,
        "mpg"@,
        "mpeg"@,
        "3gp"@,
        "webm"@,
    ]
}

/// Whether a file is a video, by its extension.
pub open spec fn is_video(extension: Option<Seq<char>>) -> bool {
    extension is Some && video_kinds().contains(text::lowercase(extension->0))
}

/// Whether a file is a video, by its extension.
pub fn is_video_path(extension: &Option<String>) -> (r: bool)
    ensures
        r == is_video(models::opt_text(*extension)),
{
    match extension {
        None => false,
        Some(own) => {
            let kind = own.as_str().to_lowercase();
            let k = kind.as_str();
            let ghost all = video_kinds();
            proof {
                assert(all[0] == "mp4"@ && all[1] == "mov"@ && all[2] == "m4v"@);
                assert(all[3] == "avi"@ && all[4] == "mkv"@ && all[5] == "mts"@);
                assert(all[6] == "m2ts"@ && all[7] == "wmv"@ && all[8] == "mpg"@);
                assert(all[9] == "mpeg"@ && all[10] == "3gp"@ && all[11] == "webm"@);
            }
            same_text(k, "mp4") || same_text(k, "mov") || same_text(k, "m4v") || same_text(k, "avi")
                || same_text(k, "mkv") || same_text(k, "mts") || same_text(k, "m2ts") || same_text(
                k,
                "wmv",
            ) || same_text(k, "mpg") || same_text(k, "mpeg") || same_text(k, "3gp") || same_text(
                k,
                "webm",
            )
        },
    }
}

/// A path as it is shown: on Windows with one kind of slash, and without the marks of long paths.
pub open spec fn shown_path(host: Host, path: Seq<char>) -> Seq<char> {
    let own = text::replaced(path, '/', '\\');
    if host == Host::Other {
        path
    } else if "\\\\?\\UNC\\"@.is_prefix_of(own) {
        "\\\\"@ + own.skip("\\\\?\\UNC\\"@.len() as int)
    } else if "\\\\?\\"@.is_prefix_of(own) {
        own.skip("\\\\?\\"@.len() as int)
    } else {
        own
    }
}

/// A path as it is shown.
pub fn display_path_text(host: Host, path: &str) -> (r: String)
    ensures
        r@ == shown_path(host, path@),
{
    if host == Host::Other {
        return path.to_owned();
    }
    let own = replace_char(path, '/', '\\');
    if let Some(rest) = strip_prefix(own.as_str(), "\\\\?\\UNC\\") {
        return cat("\\\\", rest.as_str());
    }
    if let Some(rest) = strip_prefix(own.as_str(), "\\\\?\\") {
        return rest;
    }
    own
}

/// A path as it is handed to other programs: on Windows marked as a long path, where it is not
/// relative.
pub open spec fn long_path(host: Host, path: Seq<char>, is_absolute: bool) -> Seq<char> {
    if host == Host::Other || "\\\\?\\"@.is_prefix_of(path) {
        path
    } else if "\\\\"@.is_prefix_of(path) {
        "\\\\?\\UNC\\"@ + path.skip("\\\\"@.len() as int)
    } else if is_absolute {
        "\\\\?\\"@ + path
    } else {
        path
    }
}

/// A path as it is handed to other programs.
pub fn command_input_path(host: Host, path: &str, is_absolute: bool) -> (r: String)
    ensures
        r@ == long_path(host, path@, is_absolute),
{
    if host == Host::Other || starts_with(path, "\\\\?\\") {
        return path.to_owned();
    }
    if let Some(rest) = strip_prefix(path, "\\\\") {
        return cat("\\\\?\\UNC\\", rest.as_str());
    }
    if is_absolute {
        return cat("\\\\?\\", path);
    }
    path.to_owned()
}

/// The path at which a file is read: marked as a long path, but where only the plain one is there.
pub fn filesystem_input_path(
    host: Host,
    path: &str,
    is_absolute: bool,
    long_exists: bool,
    plain_exists: bool,
) -> (r: String)
    ensures
        r@ == (if long_exists || !plain_exists {
            long_path(host, path@, is_absolute)
        } else {
            path@
        }),
{
    if long_exists || !plain_exists {
        command_input_path(host, path, is_absolute)
    } else {
        path.to_owned()
    }
}

/// A path on a share is shown as it was, once it was marked as a long path.
pub proof fn law_shares_are_shown_as_they_were(rest: Seq<char>, is_absolute: bool)
    requires
        !"\\\\?\\"@.is_prefix_of("\\\\"@ + rest),
        text::replaced(rest, '/', '\\') == rest,
    ensures
        shown_path(
            Host::Windows,
            long_path(Host::Windows, "\\\\"@ + rest, is_absolute),
        ) == "\\\\"@ + rest,
{
    reveal_strlit("\\\\?\\UNC\\");
    reveal_strlit("\\\\?\\");
    reveal_strlit("\\\\");
    let path = "\\\\"@ + rest;
    let marked = "\\\\?\\UNC\\"@ + rest;
    assert("\\\\"@.is_prefix_of(path));
    assert(path.skip(2) =~= rest);
    assert(long_path(Host::Windows, path, is_absolute) == marked);
    assert forall|k: int| 0 <= k < rest.len() implies #[trigger] rest[k] != '/' by {
        assert(text::replaced(rest, '/', '\\')[k] == rest[k]);
    }
    assert(text::replaced(marked, '/', '\\') =~= marked);
    assert("\\\\?\\UNC\\"@.is_prefix_of(marked));
    assert(marked.skip(8) =~= rest);
}

/// The form by which paths of files are compared.
pub open spec fn path_key(host: Host, path: Seq<char>) -> Seq<char> {
    text::lowercase(
        text::without_trailing(text::replaced(shown_path(host, path), '/', '\\'), '\\'),
    )
}

/// The form by which paths of files are compared.
pub fn normalized_path_key(host: Host, path: &str) -> (r: String)
    ensures
        r@ == path_key(host, path@),
{
    let slashes = replace_char(display_path_text(host, path).as_str(), '/', '\\');
    trim_end_char(slashes.as_str(), '\\').to_lowercase()
}

/// Whether a path is one of some folders, or lies under one.
pub open spec fn is_excluded(host: Host, path: Seq<char>, dirs: Seq<Seq<char>>) -> bool {
    exists|k: int|
        0 <= k < dirs.len() && (#[trigger] dirs[k]).len() > 0 && paths::is_or_under(
            path_key(host, path),
            path_key(host, dirs[k]),
        )
}

/// Whether a path is one of some folders, or lies under one.
pub fn is_inside_any_excluded_dir(host: Host, path: &str, excluded_dirs: &Vec<String>) -> (r: bool)
    ensures
        r == is_excluded(host, path@, models::texts(excluded_dirs@)),
{
    let key = normalized_path_key(host, path);
    let ghost dirs = models::texts(excluded_dirs@);
    let mut i: usize = 0;
    while i < excluded_dirs.len()
        invariant
            i <= excluded_dirs@.len(),
            dirs == models::texts(excluded_dirs@),
            key@ == path_key(host, path@),
            forall|k: int|
                0 <= k < i ==> !((#[trigger] dirs[k]).len() > 0 && paths::is_or_under(
                    path_key(host, path@),
                    path_key(host, dirs[k]),
                )),
        decreases excluded_dirs@.len() - i,
    {
        assert(dirs[i as int] == excluded_dirs@[i as int]@);
        if chars_of(excluded_dirs[i].as_str()).len() > 0 {
            let dir = normalized_path_key(host, excluded_dirs[i].as_str());
            if at_or_under(key.as_str(), dir.as_str()) {
                return true;
            }
        }
        i += 1;
    }
    false
}

/// Whether an entry of a folder is looked at: a folder that is not excluded, or a video that does
/// not lie in an excluded one.
pub fn is_wanted_entry(
    host: Host,
    path: &str,
    extension: &Option<String>,
    is_dir: bool,
    is_file: bool,
    excluded_dirs: &Vec<String>,
) -> (r: bool)
    ensures
        r == (!is_excluded(host, path@, models::texts(excluded_dirs@)) && (is_dir || (is_file && is_video(
            models::opt_text(*extension),
        )))),
{
    !is_inside_any_excluded_dir(host, path, excluded_dirs) && (is_dir || (is_file && is_video_path(
        extension,
    )))
}

/// Whether a file is as it was recorded: of the same size, and changed at the same time to within
/// two seconds.
pub open spec fn looks_same(existing: VideoRecord, observed: VideoRecord) -> bool {
    existing.size_bytes == observed.size_bytes && -2_000 <= existing.modified_unix_ms
        - observed.modified_unix_ms <= 2_000
}

/// Whether a file is as it was recorded.
pub fn same_file_observation(existing: &VideoRecord, observed: &VideoRecord) -> (r: bool)
    ensures
        r == looks_same(*existing, *observed),
{
    let apart: i128 = existing.modified_unix_ms as i128 - observed.modified_unix_ms as i128;
    existing.size_bytes == observed.size_bytes && -2_000 <= apart && apart <= 2_000
}

/// The number of picture hashes that a complete scan takes: one of a short video.
pub open spec fn hashes_expected(duration: Option<Double>, configured: int) -> int {
    if duration is Some && (Double { bits: local_preprocess::SHORT_VIDEO }).lt(duration->0) {
        matching::within(configured, 3, 20)
    } else {
        1
    }
}

/// The number of picture hashes that a complete scan takes.
pub fn expected_sample_hash_count(duration_seconds: Option<Double>, sample_hash_count: usize) -> (r:
    usize)
    ensures
        r == hashes_expected(duration_seconds, sample_hash_count as int),
        1 <= r <= 20,
{
    let long = match duration_seconds {
        Some(seconds) => (Double { bits: local_preprocess::SHORT_VIDEO }).less(seconds),
        None => false,
    };
    if !long {
        1
    } else if sample_hash_count < 3 {
        3
    } else if sample_hash_count > 20 {
        20
    } else {
        sample_hash_count
    }
}

/// Whether all pictures of a video are there: it has some, and each file is found.
pub open spec fn pictures_there(video: VideoRecord, found: Seq<bool>) -> bool {
    video.preview_images@.len() > 0 && forall|k: int|
        0 <= k < video.preview_images@.len() ==> #[trigger] found[k]
}

fn are_pictures_there(video: &VideoRecord, found: &Vec<bool>) -> (r: bool)
    requires
        found@.len() == video.preview_images@.len(),
    ensures
        r == pictures_there(*video, found@),
{
    if video.preview_images.len() == 0 {
        return false;
    }
    let mut i: usize = 0;
    while i < found.len()
        invariant
            i <= found@.len(),
            found@.len() == video.preview_images@.len(),
            forall|k: int| 0 <= k < i ==> #[trigger] found@[k],
        decreases found@.len() - i,
    {
        if !found[i] {
            assert(!found@[i as int]);
            return false;
        }
        i += 1;
    }
    true
}

/// Whether a video was scanned in full.
pub open spec fn fully_scanned(video: VideoRecord, sample_hash_count: usize, found: Seq<bool>) -> bool {
    &&& video.scan_status@ == "ok"@
    &&& video.size_bytes > 0
    &&& video.duration_seconds is Some
    &&& video.partial_hash is Some
    &&& video.sample_hashes@.len() >= hashes_expected(
        video.duration_seconds,
        sample_hash_count as int,
    )
    &&& pictures_there(video, found)
}

/// Whether a video was scanned in full. `found` tells of each of its pictures whether it is there.
pub fn video_has_full_scan(video: &VideoRecord, settings: &AppSettings, found: &Vec<bool>) -> (r:
    bool)
    requires
        found@.len() == video.preview_images@.len(),
    ensures
        r == fully_scanned(*video, settings.sample_hash_count, found@),
{
    same_text(video.scan_status.as_str(), "ok") && video.size_bytes > 0
        && video.duration_seconds.is_some() && video.partial_hash.is_some()
        && video.sample_hashes.len() >= expected_sample_hash_count(
        video.duration_seconds,
        settings.sample_hash_count,
    ) && are_pictures_there(video, found)
}

/// Whether a scan takes the frames of videos itself.
pub open spec fn takes_frames(settings: AppSettings) -> bool {
    settings.ai_vision_enabled && settings.ai_frame_cache_enabled
        && !settings.nas_ssh_preprocess_enabled && !settings.local_preprocess_enabled
}

/// Whether a scan takes the frames of videos itself.
pub fn scan_takes_frames(settings: &AppSettings) -> (r: bool)
    ensures
        r == takes_frames(*settings),
{
    settings.ai_vision_enabled && settings.ai_frame_cache_enabled
        && !settings.nas_ssh_preprocess_enabled && !settings.local_preprocess_enabled
}

/// Whether a recorded video need not be scanned again.
pub open spec fn is_current(
    video: VideoRecord,
    size_bytes: u64,
    modified_unix_ms: i64,
    settings: AppSettings,
    found: Seq<bool>,
    has_frames: bool,
) -> bool {
    &&& video.scan_status@ == "ok"@
    &&& video.size_bytes == size_bytes
    &&& video.modified_unix_ms == modified_unix_ms
    &&& video.sample_hashes@.len() >= hashes_expected(
        video.duration_seconds,
        settings.sample_hash_count as int,
    )
    &&& pictures_there(video, found)
    &&& takes_frames(settings) ==> has_frames
}

/// Whether a recorded video need not be scanned again: its file is as it was and all that a scan
/// takes is there. `found` tells of each of its pictures whether it is there, `has_frames` whether
/// its frames are.
pub fn current_indexed_video(
    video: &VideoRecord,
    size_bytes: u64,
    modified_unix_ms: i64,
    settings: &AppSettings,
    found: &Vec<bool>,
    has_frames: bool,
) -> (r: bool)
    requires
        found@.len() == video.preview_images@.len(),
    ensures
        r == is_current(*video, size_bytes, modified_unix_ms, *settings, found@, has_frames),
{
    same_text(video.scan_status.as_str(), "ok") && video.size_bytes == size_bytes
        && video.modified_unix_ms == modified_unix_ms && video.sample_hashes.len()
        >= expected_sample_hash_count(video.duration_seconds, settings.sample_hash_count)
        && are_pictures_there(video, found) && (!scan_takes_frames(settings) || has_frames)
}

/// What a tool tells of one stream of a file. Lengths and rates are given as numbers, where they
/// are numbers.
#[derive(Debug, Clone)]
pub struct ProbeStream {
    pub codec_type: Option<String>,
    pub codec_name: Option<String>,
    pub width: Option<u32>,
    pub height: Option<u32>,
    pub frame_rate: Option<Double>,
    pub bit_rate: Option<String>,
    pub duration: Option<Double>,
}

/// What a tool tells of a file as a whole.
#[derive(Debug, Clone)]
pub struct ProbeFormat {
    pub format_name: Option<String>,
    pub duration: Option<Double>,
    pub bit_rate: Option<String>,
}

/// What a tool tells of a file.
#[derive(Debug, Clone)]
pub struct ProbeOutput {
    pub streams: Vec<ProbeStream>,
    pub format: Option<ProbeFormat>,
}

/// What is known of a video.
#[derive(Debug, Clone)]
pub struct MediaInfo {
    pub container_format: Option<String>,
    pub duration_seconds: Option<Double>,
    pub width: Option<u32>,
    pub height: Option<u32>,
    pub bitrate: Option<u64>,
    pub codec: Option<String>,
    pub frame_rate: Option<Double>,
    pub audio_codec: Option<String>,
}

/// The number that decimal digits stand for.
pub open spec fn digits_value(s: Seq<char>) -> int
    decreases s.len(),
{
    if s.len() == 0 {
        0
    } else {
        digits_value(s.drop_last()) * 10 + (s.last() as int - '0' as int)
    }
}

/// The digits of a number: those behind a plus sign, where there is one.
pub open spec fn digits_of(s: Seq<char>) -> Seq<char> {
    if s.len() > 0 && s[0] == '+' {
        s.drop_first()
    } else {
        s
    }
}

/// The number that a text stands for, where it stands for one of 64 bits.
pub open spec fn number_of(s: Seq<char>) -> Option<int> {
    let digits = digits_of(s);
    if digits.len() > 0 && local_preprocess::all_digits(digits) && digits_value(digits)
        <= u64::MAX {
        Some(digits_value(digits))
    } else {
        None
    }
}

proof fn lemma_digits_grow(s: Seq<char>, n: int)
    requires
        0 <= n <= s.len(),
        local_preprocess::all_digits(s),
    ensures
        0 <= digits_value(s.take(n)) <= digits_value(s),
    decreases s.len() - n,
{
    if n < s.len() {
        lemma_digits_grow(s, n + 1);
        assert(s.take(n + 1).drop_last() =~= s.take(n));
        assert(s.take(n + 1).last() == s[n]);
        lemma_digits_positive(s.take(n));
    } else {
        assert(s.take(n) =~= s);
        lemma_digits_positive(s);
    }
}

proof fn lemma_digits_positive(s: Seq<char>)
    requires
        local_preprocess::all_digits(s),
    ensures
        digits_value(s) >= 0,
    decreases s.len(),
{
    if s.len() > 0 {
        assert(local_preprocess::all_digits(s.drop_last())) by {
            assert forall|k: int| 0 <= k < s.drop_last().len() implies '0'
                <= #[trigger] s.drop_last()[k] <= '9' by {
                assert(s.drop_last()[k] == s[k]);
            }
        }
        lemma_digits_positive(s.drop_last());
        assert('0' <= s[s.len() - 1] <= '9');
    }
}

/// The number that a text stands for.
pub fn parse_u64(value: &Option<String>) -> (r: Option<u64>)
    ensures
        match models::opt_text(*value) {
            None => r is None,
            Some(s) => match number_of(s) {
                None => r is None,
                Some(n) => r is Some && r->0 == n,
            },
        },
{
    let chars = match value {
        None => {
            return None;
        },
        Some(s) => chars_of(s.as_str()),
    };
    let ghost all = chars@;
    let start: usize = if chars.len() > 0 && chars[0] == '+' {
        1
    } else {
        0
    };
    let ghost digits = digits_of(all);
    assert(digits =~= all.skip(start as int));
    if chars.len() == start {
        return None;
    }
    let mut i: usize = start;
    let mut total: u64 = 0;
    assert(digits.take(0) =~= Seq::empty());
    while i < chars.len()
        invariant
            start <= i <= chars@.len(),
            chars@ == all,
            digits == all.skip(start as int),
            digits == digits_of(all),
            total == digits_value(digits.take(i - start)),
            forall|k: int| 0 <= k < i - start ==> '0' <= #[trigger] digits[k] <= '9',
            models::opt_text(*value) == Some(all),
            all.len() > start,
        decreases chars@.len() - i,
    {
        let c = chars[i];
        let ghost n = i - start;
        assert(digits[n] == c);
        if c < '0' || c > '9' {
            assert(!local_preprocess::all_digits(digits));
            return None;
        }
        let d: u64 = c as u64 - '0' as u64;
        proof {
            assert(digits.take(n + 1).drop_last() =~= digits.take(n));
            assert(digits.take(n + 1).last() == c);
            assert(digits_value(digits.take(n + 1)) == total * 10 + d);
            if local_preprocess::all_digits(digits) {
                lemma_digits_grow(digits, n + 1);
            }
        }
        let tens: u64 = match total.checked_mul(10) {
            Some(t) => t,
            None => {
                return None;
            },
        };
        total = match tens.checked_add(d) {
            Some(t) => t,
            None => {
                return None;
            },
        };
        i += 1;
    }
    assert(digits.take(i - start) =~= digits);
    Some(total)
}

/// The first stream of a kind.
pub open spec fn first_stream(streams: Seq<ProbeStream>, kind: Seq<char>) -> Option<ProbeStream>
    decreases streams.len(),
{
    if streams.len() == 0 {
        None
    } else if models::opt_text(streams[0].codec_type) == Some(kind) {
        Some(streams[0])
    } else {
        first_stream(streams.drop_first(), kind)
    }
}

fn find_stream(streams: &Vec<ProbeStream>, kind: &str) -> (r: Option<usize>)
    ensures
        match r {
            Some(i) => i < streams@.len() && first_stream(streams@, kind@) == Some(
                streams@[i as int],
            ),
            None => first_stream(streams@, kind@) is None,
        },
{
    let mut i: usize = 0;
    assert(streams@.skip(0) =~= streams@);
    while i < streams.len()
        invariant
            i <= streams@.len(),
            first_stream(streams@, kind@) == first_stream(streams@.skip(i as int), kind@),
        decreases streams@.len() - i,
    {
        assert(streams@.skip(i as int).drop_first() =~= streams@.skip(i + 1));
        assert(streams@.skip(i as int)[0] == streams@[i as int]);
        let fits = match &streams[i].codec_type {
            Some(own) => same_text(own.as_str(), kind),
            None => false,
        };
        if fits {
            return Some(i);
        }
        i += 1;
    }
    None
}

/// A value of a stream that may be missing.
pub open spec fn of_stream<T>(stream: Option<ProbeStream>, value: spec_fn(ProbeStream) -> Option<T>) -> Option<
    T,
> {
    match stream {
        Some(own) => value(own),
        None => None,
    }
}

/// The number in an optional text.
pub open spec fn number_in(value: Option<String>) -> Option<int> {
    match models::opt_text(value) {
        Some(s) => number_of(s),
        None => None,
    }
}

/// Whether what is known of a video is what a tool tells of its file.
pub open spec fn is_told(info: MediaInfo, output: ProbeOutput) -> bool {
    let video = first_stream(output.streams@, "video"@);
    let audio = first_stream(output.streams@, "audio"@);
    let whole = output.format;
    let length = match whole {
        Some(format) => format.duration,
        None => None,
    };
    let own_rate = of_stream(video, |s: ProbeStream| number_in(s.bit_rate));
    let rate = match own_rate {
        Some(n) => Some(n),
        None => match whole {
            Some(format) => number_in(format.bit_rate),
            None => None,
        },
    };
    &&& models::opt_text(info.container_format) == (match whole {
        Some(format) => models::opt_text(format.format_name),
        None => None,
    })
    &&& info.duration_seconds == (match length {
        Some(seconds) => Some(seconds),
        None => of_stream(video, |s: ProbeStream| s.duration),
    })
    &&& info.width == of_stream(video, |s: ProbeStream| s.width)
    &&& info.height == of_stream(video, |s: ProbeStream| s.height)
    &&& info.frame_rate == of_stream(video, |s: ProbeStream| s.frame_rate)
    &&& models::opt_text(info.codec) == of_stream(
        video,
        |s: ProbeStream| models::opt_text(s.codec_name),
    )
    &&& models::opt_text(info.audio_codec) == of_stream(
        audio,
        |s: ProbeStream| models::opt_text(s.codec_name),
    )
    &&& (match info.bitrate {
        Some(n) => Some(n as int),
        None => None,
    }) == rate
}

/// What is known of a video, from what a tool tells of its file: of the first picture stream, the
/// first sound stream and the file as a whole. The length of the whole goes before that of the
/// stream, and the rate of the stream before that of the whole.
pub fn parse_probe_output(output: &ProbeOutput) -> (r: MediaInfo)
    ensures
        is_told(r, *output),
{
    let video = find_stream(&output.streams, "video");
    let audio = find_stream(&output.streams, "audio");
    let whole_length = match &output.format {
        Some(format) => format.duration,
        None => None,
    };
    let duration_seconds = match whole_length {
        Some(seconds) => Some(seconds),
        None => match video {
            Some(i) => output.streams[i].duration,
            None => None,
        },
    };
    let own_rate = match video {
        Some(i) => parse_u64(&output.streams[i].bit_rate),
        None => None,
    };
    let bitrate = match own_rate {
        Some(n) => Some(n),
        None => match &output.format {
            Some(format) => parse_u64(&format.bit_rate),
            None => None,
        },
    };
    MediaInfo {
        container_format: match &output.format {
            Some(format) => models::copy_opt_text(&format.format_name),
            None => None,
        },
        duration_seconds,
        width: match video {
            Some(i) => output.streams[i].width,
            None => None,
        },
        height: match video {
            Some(i) => output.streams[i].height,
            None => None,
        },
        bitrate,
        codec: match video {
            Some(i) => models::copy_opt_text(&output.streams[i].codec_name),
            None => None,
        },
        frame_rate: match video {
            Some(i) => output.streams[i].frame_rate,
            None => None,
        },
        audio_codec: match audio {
            Some(i) => models::copy_opt_text(&output.streams[i].codec_name),
            None => None,
        },
    }
}

/// What is known of a file that is scanned: the machine that it is on, its path with its parts, its
/// size and its times.
#[derive(Debug, Clone)]
pub struct ScannedFile {
    pub host: Host,
    pub path: String,
    pub parts: FileParts,
    pub is_file: bool,
    pub size_bytes: u64,
    pub modified_unix_ms: i64,
}

/// A text, or the empty one.
pub open spec fn text_or_empty(value: Option<Seq<char>>) -> Seq<char> {
    match value {
        Some(s) => s,
        None => Seq::empty(),
    }
}

/// The record of a file of which nothing but its place, its size and its time is known.
pub open spec fn plain_record(
    file: ScannedFile,
    status: Seq<char>,
    error: Option<Seq<char>>,
    now: i64,
) -> VideoData {
    VideoData {
        id: None,
        path: shown_path(file.host, file.path@),
        file_name: text_or_empty(models::opt_text(file.parts.file_name)),
        parent_path: match models::opt_text(file.parts.parent) {
            Some(parent) => shown_path(file.host, parent),
            None => Seq::empty(),
        },
        size_bytes: file.size_bytes,
        modified_unix_ms: file.modified_unix_ms,
        extension: match models::opt_text(file.parts.extension) {
            Some(extension) => text::lowercase(extension),
            None => Seq::empty(),
        },
        container_format: None,
        duration_seconds: None,
        width: None,
        height: None,
        bitrate: None,
        codec: None,
        frame_rate: None,
        audio_codec: None,
        partial_hash: None,
        sample_hashes: Seq::empty(),
        preview_images: Seq::empty(),
        scan_status: status,
        error,
        quality_score: (Double { bits: 0 }),
        scanned_at_unix_ms: now,
    }
}

fn make_plain_record(file: &ScannedFile, status: &str, error: Option<String>, now: i64) -> (r:
    VideoRecord)
    ensures
        r@ == plain_record(*file, status@, models::opt_text(error), now),
{
    let r = VideoRecord {
        id: None,
        path: display_path_text(file.host, file.path.as_str()),
        file_name: match &file.parts.file_name {
            Some(name) => name.clone(),
            None => String::new(),
        },
        parent_path: match &file.parts.parent {
            Some(parent) => display_path_text(file.host, parent.as_str()),
            None => String::new(),
        },
        size_bytes: file.size_bytes,
        modified_unix_ms: file.modified_unix_ms,
        extension: match &file.parts.extension {
            Some(extension) => extension.as_str().to_lowercase(),
            None => String::new(),
        },
        container_format: None,
        duration_seconds: None,
        width: None,
        height: None,
        bitrate: None,
        codec: None,
        frame_rate: None,
        audio_codec: None,
        partial_hash: None,
        sample_hashes: Vec::new(),
        preview_images: Vec::new(),
        scan_status: status.to_owned(),
        error,
        quality_score: Double { bits: 0 },
        scanned_at_unix_ms: now,
    };
    assert(r@ =~= plain_record(*file, status@, models::opt_text(error), now));
    r
}

/// The record of a file that is only listed. Fails where it is no file.
pub fn lightweight_video_record(file: &ScannedFile, now: i64) -> (r: Result<VideoRecord, String>)
    ensures
        r is Ok == file.is_file,
        r matches Ok(video) ==> video@ == plain_record(*file, "ok"@, None, now),
        r matches Err(message) ==> message@ == "source is not a file: "@ + file.path@,
{
    if !file.is_file {
        return Err(cat("source is not a file: ", file.path.as_str()));
    }
    Ok(make_plain_record(file, "ok", None, now))
}

/// The record of a file that could not be scanned.
pub fn failed_record(file: &ScannedFile, error: String, now: i64) -> (r: VideoRecord)
    ensures
        r@ == plain_record(*file, "failed"@, Some(error@), now),
{
    make_plain_record(file, "failed", Some(error), now)
}

/// The record of a file that was scanned. Without hashes of pictures and pictures it tells what is
/// needed to recognize its content. `quality_score` is from the length, the size of the picture,
/// the rate and the size of the file.
pub fn scanned_record(
    file: &ScannedFile,
    info: MediaInfo,
    partial_hash: Option<String>,
    sample_hashes: Vec<String>,
    preview_images: Vec<String>,
    quality_score: Double,
    now: i64,
) -> (r: VideoRecord)
    ensures
        r@ == (VideoData {
            container_format: models::opt_text(info.container_format),
            duration_seconds: info.duration_seconds,
            width: info.width,
            height: info.height,
            bitrate: info.bitrate,
            codec: models::opt_text(info.codec),
            frame_rate: info.frame_rate,
            audio_codec: models::opt_text(info.audio_codec),
            partial_hash: models::opt_text(partial_hash),
            sample_hashes: models::texts(sample_hashes@),
            preview_images: models::texts(preview_images@),
            quality_score,
            ..plain_record(*file, "ok"@, None, now)
        }),
{
    let mut r = make_plain_record(file, "ok", None, now);
    r.container_format = info.container_format;
    r.duration_seconds = info.duration_seconds;
    r.width = info.width;
    r.height = info.height;
    r.bitrate = info.bitrate;
    r.codec = info.codec;
    r.frame_rate = info.frame_rate;
    r.audio_codec = info.audio_codec;
    r.partial_hash = partial_hash;
    r.sample_hashes = sample_hashes;
    r.preview_images = preview_images;
    r.quality_score = quality_score;
    r
}

/// The place of a recorded file.
pub fn place_of(video: &VideoRecord) -> (r: FilePlace)
    ensures
        r.path@ == video.path@,
        r.file_name@ == video.file_name@,
        r.parent_path@ == video.parent_path@,
{
    FilePlace {
        path: video.path.clone(),
        file_name: video.file_name.clone(),
        parent_path: video.parent_path.clone(),
    }
}

/// What the description of a frame cache says.
#[derive(Debug, Clone)]
pub struct AiFrameCacheManifest {
    pub version: u32,
    pub source_path: String,
    pub frame_size: usize,
    pub pixel_format: String,
    pub configured_frame_count: usize,
    pub positions: Vec<Double>,
    pub data_file: String,
}

/// The frames of a video, with their places.
#[derive(Debug, Clone)]
pub struct AiFramePack {
    pub positions: Vec<Double>,
    pub frames: Vec<Vec<u8>>,
}

/// Whether a frame cache can be read.
pub open spec fn is_readable(manifest: AiFrameCacheManifest) -> bool {
    &&& manifest.version == 1
    &&& manifest.frame_size == AI_FRAME_SIZE
    &&& manifest.pixel_format@ == "rgb24"@
    &&& manifest.positions@.len() > 0
}

/// The frames of a cache: of the bytes as many at a time as a frame has.
pub open spec fn frame_at(bytes: Seq<u8>, k: int) -> Seq<u8> {
    bytes.subrange(k * AI_FRAME_BYTES, (k + 1) * AI_FRAME_BYTES)
}

/// Reads the frames of a cache. Gives nothing where the cache is of another kind or too short.
pub fn read_ai_frame_pack(manifest: AiFrameCacheManifest, bytes: &Vec<u8>) -> (r: Option<
    AiFramePack,
>)
    ensures
        r is Some == (is_readable(manifest) && bytes@.len() >= manifest.positions@.len()
            * AI_FRAME_BYTES),
        r matches Some(pack) ==> {
            &&& pack.positions == manifest.positions
            &&& pack.frames@.len() == manifest.positions@.len()
            &&& forall|k: int|
                #![trigger pack.frames@[k]]
                0 <= k < pack.frames@.len() ==> pack.frames@[k]@ == frame_at(bytes@, k)
        },
{
    if manifest.version != 1 || manifest.frame_size != AI_FRAME_SIZE || !same_text(
        manifest.pixel_format.as_str(),
        "rgb24",
    ) || manifest.positions.len() == 0 {
        return None;
    }
    let count: usize = manifest.positions.len();
    let total: usize = bytes.len();
    let needed: usize = match count.checked_mul(AI_FRAME_BYTES) {
        Some(n) => n,
        None => {
            return None;
        },
    };
    if total < needed {
        return None;
    }
    let mut frames: Vec<Vec<u8>> = Vec::new();
    let mut i: usize = 0;
    let mut at: usize = 0;
    while i < count
        invariant
            i <= count,
            total == bytes@.len(),
            needed <= total,
            needed == count * 150_528,
            at == i * 150_528,
            frames@.len() == i,
            forall|k: int|
                #![trigger frames@[k]]
                0 <= k < i ==> frames@[k]@ == frame_at(bytes@, k),
        decreases count - i,
    {
        let end: usize = at + AI_FRAME_BYTES;
        let mut frame: Vec<u8> = Vec::new();
        let mut p: usize = at;
        while p < end
            invariant
                at <= p <= end,
                end <= bytes@.len(),
                frame@ == bytes@.subrange(at as int, p as int),
            decreases end - p,
        {
            frame.push(bytes[p]);
            p += 1;
            assert(bytes@.subrange(at as int, p as int) =~= bytes@.subrange(
                at as int,
                p - 1,
            ).push(bytes@[p - 1]));
        }
        frames.push(frame);
        at = end;
        i += 1;
    }
    Some(AiFramePack { positions: manifest.positions, frames })
}

/// The bytes of the first `n` frames, one after the other.
pub open spec fn pack_bytes(frames: Seq<Vec<u8>>, n: int) -> Seq<u8>
    decreases n,
{
    if n <= 0 {
        Seq::empty()
    } else {
        pack_bytes(frames, n - 1) + frames[n - 1]@
    }
}

/// Whether all frames are at least as long as a frame is.
pub open spec fn are_long(frames: Seq<Vec<u8>>) -> bool {
    forall|k: int| 0 <= k < frames.len() ==> (#[trigger] frames[k])@.len() >= AI_FRAME_BYTES
}

fn are_frames_long(frames: &Vec<Vec<u8>>) -> (r: bool)
    ensures
        r == are_long(frames@),
{
    let mut i: usize = 0;
    while i < frames.len()
        invariant
            i <= frames@.len(),
            forall|k: int| 0 <= k < i ==> (#[trigger] frames@[k])@.len() >= AI_FRAME_BYTES,
        decreases frames@.len() - i,
    {
        if frames[i].len() < AI_FRAME_BYTES {
            assert(frames@[i as int]@.len() < AI_FRAME_BYTES);
            return false;
        }
        i += 1;
    }
    true
}

/// What is written of the frames of a video: the description and the bytes.
#[derive(Debug, Clone)]
pub struct FrameCacheFiles {
    pub manifest: AiFrameCacheManifest,
    pub bytes: Vec<u8>,
    pub pack: AiFramePack,
}

/// Whether a cache is written as it has to be.
pub open spec fn is_written(
    files: FrameCacheFiles,
    source_path: Seq<char>,
    frame_count: usize,
    data_file: Seq<char>,
    positions: Vec<Double>,
    frames: Vec<Vec<u8>>,
) -> bool {
    &&& files.manifest.version == 1
    &&& files.manifest.source_path@ == source_path
    &&& files.manifest.frame_size == AI_FRAME_SIZE
    &&& files.manifest.pixel_format@ == "rgb24"@
    &&& files.manifest.configured_frame_count == frame_count
    &&& files.manifest.positions@ == positions@
    &&& files.manifest.data_file@ == data_file
    &&& files.bytes@ == pack_bytes(frames@, frames@.len() as int)
    &&& files.pack.positions == positions
    &&& files.pack.frames == frames
}

fn copy_positions(list: &Vec<Double>) -> (r: Vec<Double>)
    ensures
        r@ == list@,
{
    let mut out: Vec<Double> = Vec::new();
    let mut i: usize = 0;
    while i < list.len()
        invariant
            i <= list@.len(),
            out@ == list@.take(i as int),
        decreases list@.len() - i,
    {
        out.push(list[i]);
        i += 1;
        assert(list@.take(i as int) =~= list@.take(i - 1).push(list@[i - 1]));
    }
    assert(list@.take(i as int) =~= list@);
    out
}

/// What is written of the frames of a video: nothing where there are none or their places do not
/// fit. Fails where a frame is too short.
pub fn write_ai_frame_cache(
    source_path: &str,
    frame_count: usize,
    data_file: &str,
    positions: Vec<Double>,
    frames: Vec<Vec<u8>>,
) -> (r: Result<Option<FrameCacheFiles>, String>)
    ensures
        ({
            let some = positions@.len() > 0 && positions@.len() == frames@.len();
            match r {
                Ok(None) => !some,
                Err(message) => some && !are_long(frames@) && message@
                    == "AI frame has an invalid byte length"@,
                Ok(Some(files)) => some && are_long(frames@) && is_written(
                    files,
                    source_path@,
                    frame_count,
                    data_file@,
                    positions,
                    frames,
                ),
            }
        }),
{
    if positions.len() == 0 || frames.len() == 0 || positions.len() != frames.len() {
        return Ok(None);
    }
    if !are_frames_long(&frames) {
        return Err("AI frame has an invalid byte length".to_owned());
    }
    let mut bytes: Vec<u8> = Vec::new();
    let mut i: usize = 0;
    while i < frames.len()
        invariant
            i <= frames@.len(),
            bytes@ == pack_bytes(frames@, i as int),
        decreases frames@.len() - i,
    {
        let mut p: usize = 0;
        let ghost before = bytes@;
        while p < frames[i].len()
            invariant
                i < frames@.len(),
                p <= frames@[i as int]@.len(),
                bytes@ == before + frames@[i as int]@.take(p as int),
            decreases frames@[i as int]@.len() - p,
        {
            bytes.push(frames[i][p]);
            p += 1;
            assert(frames@[i as int]@.take(p as int) =~= frames@[i as int]@.take(p - 1).push(
                frames@[i as int]@[p - 1],
            ));
            assert(bytes@ =~= before + frames@[i as int]@.take(p as int));
        }
        assert(frames@[i as int]@.take(p as int) =~= frames@[i as int]@);
        i += 1;
    }
    let manifest = AiFrameCacheManifest {
        version: 1,
        source_path: source_path.to_owned(),
        frame_size: AI_FRAME_SIZE,
        pixel_format: "rgb24".to_owned(),
        configured_frame_count: frame_count,
        positions: copy_positions(&positions),
        data_file: data_file.to_owned(),
    };
    Ok(Some(FrameCacheFiles { manifest, bytes, pack: AiFramePack { positions, frames } }))
}

proof fn lemma_pack(frames: Seq<Vec<u8>>, n: int, k: int)
    requires
        0 <= k < n <= frames.len(),
        forall|i: int| 0 <= i < frames.len() ==> (#[trigger] frames[i])@.len() == AI_FRAME_BYTES,
    ensures
        pack_bytes(frames, n).len() == n * AI_FRAME_BYTES,
        frame_at(pack_bytes(frames, n), k) == frames[k]@,
    decreases n,
{
    assert(frames[n - 1]@.len() == AI_FRAME_BYTES);
    if n > 1 {
        lemma_pack(
            frames,
            n - 1,
            if k < n - 1 {
                k
            } else {
                0
            },
        );
    }
    let before = pack_bytes(frames, n - 1);
    let all = pack_bytes(frames, n);
    assert(before.len() == (n - 1) * AI_FRAME_BYTES);
    if k < n - 1 {
        assert((k + 1) * AI_FRAME_BYTES <= before.len());
        assert(frame_at(all, k) =~= frame_at(before, k));
    } else {
        assert(frame_at(all, k) =~= frames[k]@);
    }
}

/// A frame cache gives back the frames that were written, where each has the length of a frame.
pub proof fn law_frames_are_read_back(
    files: FrameCacheFiles,
    source_path: Seq<char>,
    frame_count: usize,
    data_file: Seq<char>,
    positions: Vec<Double>,
    frames: Vec<Vec<u8>>,
    k: int,
)
    requires
        is_written(files, source_path, frame_count, data_file, positions, frames),
        positions@.len() == frames@.len(),
        forall|i: int|
            0 <= i < frames@.len() ==> (#[trigger] frames@[i])@.len() == AI_FRAME_BYTES,
        0 <= k < frames@.len(),
    ensures
        is_readable(files.manifest),
        files.bytes@.len() >= files.manifest.positions@.len() * AI_FRAME_BYTES,
        frame_at(files.bytes@, k) == frames@[k]@,
{
    lemma_pack(frames@, frames@.len() as int, k);
}

/// Whether frames that are taken from elsewhere can be written, and why not.
pub open spec fn import_trouble(positions: int, frames: Seq<Vec<u8>>, expected: int) -> Option<
    Option<Seq<char>>,
> {
    if positions == 0 || positions != frames.len() {
        Some(None)
    } else if !are_long(frames) {
        Some(Some("imported AI frame has an invalid byte length"@))
    } else if frames.len() < local_preprocess::enough(expected) {
        Some(None)
    } else {
        None
    }
}

/// Whether frames that are taken from elsewhere are written: not where there are too few. Fails
/// where one is too short. `expected` is the number of frames that the video should have.
pub fn check_import(positions: usize, frames: &Vec<Vec<u8>>, expected: usize) -> (r: Result<
    bool,
    String,
>)
    ensures
        match import_trouble(positions as int, frames@, expected as int) {
            None => r == Ok::<bool, String>(true),
            Some(None) => r == Ok::<bool, String>(false),
            Some(Some(message)) => r is Err && r->Err_0@ == message,
        },
{
    if positions == 0 || frames.len() == 0 || positions != frames.len() {
        return Ok(false);
    }
    if !are_frames_long(frames) {
        return Err("imported AI frame has an invalid byte length".to_owned());
    }
    if frames.len() < expected && frames.len() < minimum_usable_ai_frame_count(expected) {
        return Ok(false);
    }
    Ok(true)
}

/// The number of frames that are at least needed of some: three of four, rounded up.
pub fn minimum_usable_ai_frame_count(expected: usize) -> (r: usize)
    ensures
        r == local_preprocess::enough(expected as int),
        r <= expected,
{
    minimum_usable_frame_count(expected)
}

/// Whether a cache holds enough frames of a video.
pub fn is_usable_pack(pack: &AiFramePack, expected: usize) -> (r: bool)
    ensures
        r == (pack.frames@.len() >= local_preprocess::enough(expected as int)),
{
    pack.frames.len() >= expected || pack.frames.len() >= minimum_usable_ai_frame_count(expected)
}

/// The number of frames that are taken of a video: one of a short one, else as many as are kept.
pub fn sample_count(duration_seconds: Option<Double>, count: usize) -> (r: usize)
    ensures
        r == (if duration_seconds is Some && !duration_seconds->0.le(
            (Double { bits: local_preprocess::SHORT_VIDEO }),
        ) {
            matching::within(count as int, 1, 512)
        } else {
            1
        }),
        1 <= r <= 512,
        duration_seconds matches Some(seconds) && seconds.le(Double::of(0x4018_0000_0000_0000))
            ==> r == 1,
        duration_seconds matches Some(seconds) && Double::of(0x4018_0000_0000_0000).lt(seconds)
            && 1 <= count <= 512 ==> r == count,
{
    match duration_seconds {
        Some(seconds) => {
            if seconds.at_most(Double { bits: local_preprocess::SHORT_VIDEO }) {
                1
            } else if count < 1 {
                1
            } else if count > 512 {
                512
            } else {
                count
            }
        },
        None => 1,
    }
}

/// The frame in the output of a tool: its first bytes, as many as a frame has. Fails where there
/// are fewer.
pub fn frame_of_output(output: &Vec<u8>) -> (r: Result<Vec<u8>, String>)
    ensures
        r is Ok == (output@.len() >= AI_FRAME_BYTES),
        r matches Ok(frame) ==> frame@ == output@.take(AI_FRAME_BYTES as int),
        r matches Err(message) ==> message@ == "ffmpeg returned "@ + text::decimal(
            output@.len(),
        ) + " bytes, expected at least "@ + text::decimal(AI_FRAME_BYTES as nat),
{
    let total: usize = output.len();
    if total < AI_FRAME_BYTES {
        return Err(
            cat4(
                "ffmpeg returned ",
                decimal_text(total as u64).as_str(),
                " bytes, expected at least ",
                decimal_text(AI_FRAME_BYTES as u64).as_str(),
            ),
        );
    }
    let mut frame: Vec<u8> = Vec::new();
    let mut i: usize = 0;
    while i < AI_FRAME_BYTES
        invariant
            i <= AI_FRAME_BYTES,
            AI_FRAME_BYTES <= output@.len(),
            frame@ == output@.take(i as int),
        decreases AI_FRAME_BYTES - i,
    {
        frame.push(output[i]);
        i += 1;
        assert(output@.take(i as int) =~= output@.take(i - 1).push(output@[i - 1]));
    }
    Ok(frame)
}

/// The files of a frame cache: its description and its bytes.
pub fn ai_frame_cache_paths(root: &Root, key: &str) -> (r: (String, String))
    ensures
        r.0@ == paths::joined(root@.host, cache_folder(root@), key@ + ".json"@),
        r.1@ == paths::joined(root@.host, cache_folder(root@), key@ + ".rgb"@),
{
    let dir = data_path(root, "ai-frame-cache");
    (
        join(root.host, dir.as_str(), cat(key, ".json").as_str()),
        join(root.host, dir.as_str(), cat(key, ".rgb").as_str()),
    )
}

/// The folder of the frame caches.
pub open spec fn cache_folder(root: RootData) -> Seq<char> {
    paths::in_data(root, "ai-frame-cache"@)
}

/// The name of the frame cache of a video. `duration_text` is its length in seconds with three
/// decimals.
pub open spec fn cache_name(video: VideoData, duration_text: Seq<char>, configured: int) -> Seq<
    char,
> {
    digest::head(
        digest::fingerprint(
            digest::frame_cache_bytes(
                video.path,
                video.partial_hash,
                video.size_bytes,
                video.modified_unix_ms,
                duration_text,
                configured,
            ),
        ),
        32,
    )
}

/// The files of the frame cache of a video, which go with it.
pub fn delete_ai_frame_cache_for_video(
    root: &Root,
    video: &VideoRecord,
    duration_text: &str,
    configured_frame_count: usize,
) -> (r: (String, String))
    ensures
        ({
            let key = cache_name(video@, duration_text@, configured_frame_count as int);
            &&& r.0@ == paths::joined(root@.host, cache_folder(root@), key + ".json"@)
            &&& r.1@ == paths::joined(root@.host, cache_folder(root@), key + ".rgb"@)
        }),
{
    let key = ai_frame_cache_key(
        video.path.as_str(),
        &video.partial_hash,
        video.size_bytes,
        video.modified_unix_ms,
        duration_text,
        configured_frame_count,
    );
    ai_frame_cache_paths(root, key.as_str())
}

/// The names of the frame caches of those of the first `n` videos whose scan went well.
pub open spec fn valid_names(
    videos: Seq<VideoRecord>,
    duration_texts: Seq<String>,
    configured: int,
    n: int,
) -> Seq<Seq<char>>
    decreases n,
{
    if n <= 0 {
        Seq::empty()
    } else {
        let rest = valid_names(videos, duration_texts, configured, n - 1);
        if videos[n - 1].scan_status@ == "ok"@ {
            rest.push(cache_name(videos[n - 1]@, duration_texts[n - 1]@, configured))
        } else {
            rest
        }
    }
}

/// The positions of those of the first `n` files that belong to no cache in use.
pub open spec fn stale_files(stems: Seq<Option<String>>, valid: Seq<Seq<char>>, n: int) -> Seq<usize>
    decreases n,
{
    if n <= 0 {
        Seq::empty()
    } else {
        let rest = stale_files(stems, valid, n - 1);
        match models::opt_text(stems[n - 1]) {
            Some(stem) => if valid.contains(stem) {
                rest
            } else {
                rest.push((n - 1) as usize)
            },
            None => rest.push((n - 1) as usize),
        }
    }
}

/// The positions of the files of the cache folder that go: those that belong to no video. `stems`
/// are the names of the files without extensions, and `duration_texts` the lengths of the videos
/// in seconds with three decimals.
pub fn prune_stale_ai_frame_cache(
    videos: &Vec<VideoRecord>,
    duration_texts: &Vec<String>,
    configured_frame_count: usize,
    stems: &Vec<Option<String>>,
) -> (r: Vec<usize>)
    requires
        duration_texts@.len() == videos@.len(),
    ensures
        r@ == stale_files(
            stems@,
            valid_names(
                videos@,
                duration_texts@,
                digest::kept_frame_count(configured_frame_count as int),
                videos@.len() as int,
            ),
            stems@.len() as int,
        ),
{
    let frame_count: usize = clamp_frame_count(configured_frame_count);
    let mut valid: Vec<String> = Vec::new();
    let mut i: usize = 0;
    assert(models::texts(valid@) =~= Seq::empty());
    while i < videos.len()
        invariant
            i <= videos@.len(),
            duration_texts@.len() == videos@.len(),
            models::texts(valid@) == valid_names(
                videos@,
                duration_texts@,
                frame_count as int,
                i as int,
            ),
        decreases videos@.len() - i,
    {
        if same_text(videos[i].scan_status.as_str(), "ok") {
            let key = ai_frame_cache_key(
                videos[i].path.as_str(),
                &videos[i].partial_hash,
                videos[i].size_bytes,
                videos[i].modified_unix_ms,
                duration_texts[i].as_str(),
                frame_count,
            );
            text::add_line(&mut valid, key);
        }
        i += 1;
    }
    let ghost names = models::texts(valid@);
    let mut out: Vec<usize> = Vec::new();
    let mut k: usize = 0;
    while k < stems.len()
        invariant
            k <= stems@.len(),
            names == models::texts(valid@),
            out@ == stale_files(stems@, names, k as int),
        decreases stems@.len() - k,
    {
        let keep = match &stems[k] {
            Some(stem) => has_line(&valid, stem.as_str()),
            None => false,
        };
        if !keep {
            out.push(k);
        }
        k += 1;
    }
    out
}

/// Whether a picture belongs to one of the first `n` videos.
pub open spec fn is_picture_of(
    host: Host,
    videos: Seq<VideoRecord>,
    key: Seq<char>,
    n: int,
) -> bool {
    exists|i: int, k: int|
        #![trigger videos[i].preview_images@[k]]
        0 <= i < n && 0 <= k < videos[i].preview_images@.len() && path_key(
            host,
            videos[i].preview_images@[k]@,
        ) == key
}

/// The positions of those of the first `n` pictures that belong to no video.
pub open spec fn loose_pictures(
    host: Host,
    files: Seq<String>,
    videos: Seq<VideoRecord>,
    n: int,
) -> Seq<usize>
    decreases n,
{
    if n <= 0 {
        Seq::empty()
    } else {
        let rest = loose_pictures(host, files, videos, n - 1);
        if is_picture_of(host, videos, path_key(host, files[n - 1]@), videos.len() as int) {
            rest
        } else {
            rest.push((n - 1) as usize)
        }
    }
}

fn belongs(host: Host, videos: &Vec<VideoRecord>, key: &str) -> (r: bool)
    ensures
        r == is_picture_of(host, videos@, key@, videos@.len() as int),
{
    let mut i: usize = 0;
    while i < videos.len()
        invariant
            i <= videos@.len(),
            !is_picture_of(host, videos@, key@, i as int),
        decreases videos@.len() - i,
    {
        let mut k: usize = 0;
        while k < videos[i].preview_images.len()
            invariant
                i < videos@.len(),
                k <= videos@[i as int].preview_images@.len(),
                forall|p: int|
                    0 <= p < k ==> path_key(
                        host,
                        (#[trigger] videos@[i as int].preview_images@[p])@,
                    ) != key@,
            decreases videos@[i as int].preview_images@.len() - k,
        {
            let own = normalized_path_key(host, videos[i].preview_images[k].as_str());
            if same_text(own.as_str(), key) {
                assert(path_key(host, videos@[i as int].preview_images@[k as int]@) == key@);
                return true;
            }
            k += 1;
        }
        i += 1;
    }
    false
}

/// The positions of the pictures that go: those that belong to no video.
pub fn prune_unreferenced_thumbnails(
    host: Host,
    videos: &Vec<VideoRecord>,
    files: &Vec<String>,
) -> (r: Vec<usize>)
    ensures
        r@ == loose_pictures(host, files@, videos@, files@.len() as int),
{
    let mut out: Vec<usize> = Vec::new();
    let mut i: usize = 0;
    while i < files.len()
        invariant
            i <= files@.len(),
            out@ == loose_pictures(host, files@, videos@, i as int),
        decreases files@.len() - i,
    {
        let key = normalized_path_key(host, files[i].as_str());
        if !belongs(host, videos, key.as_str()) {
            out.push(i);
        }
        i += 1;
    }
    out
}

/// Files that were removed, and their bytes.
#[derive(Debug, Clone, Copy, PartialEq, Eq, Structural)]
pub struct FileCleanupStats {
    pub files: usize,
    pub bytes: u64,
}

impl Default for FileCleanupStats {
    fn default() -> (r: FileCleanupStats)
        ensures
            r.files == 0,
            r.bytes == 0,
    {
        FileCleanupStats { files: 0, bytes: 0 }
    }
}

impl FileCleanupStats {
    /// Counts a file where it was removed.
    pub fn count(&mut self, removed: bool, bytes: u64)
        ensures
            final(self).files == (if removed && old(self).files < usize::MAX {
                old(self).files + 1
            } else {
                old(self).files as int
            }),
            final(self).bytes == (if !removed {
                old(self).bytes as int
            } else if old(self).bytes + bytes > u64::MAX {
                u64::MAX as int
            } else {
                old(self).bytes + bytes
            }),
    {
        if removed {
            self.files = self.files.saturating_add(1);
            self.bytes = self.bytes.saturating_add(bytes);
        }
    }
}

/// A tool that was found, with what it tells of its version.
#[derive(Debug, Clone)]
pub struct FoundTool {
    pub path: String,
    pub version_output: Option<String>,
}

/// The first line of a text.
pub open spec fn first_line(s: Seq<char>) -> Option<Seq<char>> {
    if text::lines_of(s).len() > 0 {
        Some(text::lines_of(s)[0])
    } else {
        None
    }
}

/// The first line of a text.
pub fn command_first_line(output: &str) -> (r: Option<String>)
    ensures
        models::opt_text(r) == first_line(output@),
{
    let lines = text::lines(output);
    assert(models::texts(lines@).len() == lines@.len());
    if lines.len() > 0 {
        assert(models::texts(lines@)[0] == lines@[0]@);
        Some(lines[0].clone())
    } else {
        None
    }
}

/// Lines without white space at their ends.
pub open spec fn trimmed_lines(all: Seq<Seq<char>>) -> Seq<Seq<char>> {
    Seq::new(all.len(), |k: int| text::trimmed(all[k]))
}

/// The paths that a search for a tool gave, one on each line.
pub fn tool_candidates(output: &str) -> (r: Vec<String>)
    ensures
        models::texts(r@) == trimmed_lines(text::lines_of(output@)),
{
    let lines = text::lines(output);
    let ghost all = models::texts(lines@);
    let mut out: Vec<String> = Vec::new();
    let mut i: usize = 0;
    while i < lines.len()
        invariant
            i <= lines@.len(),
            all == models::texts(lines@),
            models::texts(out@) == trimmed_lines(all).take(i as int),
        decreases lines@.len() - i,
    {
        assert(all[i as int] == lines@[i as int]@);
        text::add_line(&mut out, text::trim(lines[i].as_str()));
        assert(trimmed_lines(all).take(i + 1) =~= trimmed_lines(all).take(i as int).push(
            trimmed_lines(all)[i as int],
        ));
        i += 1;
    }
    assert(trimmed_lines(all).take(i as int) =~= trimmed_lines(all));
    out
}

/// Whether a tool is shown: where it is, and the first line of what it tells.
pub open spec fn tool_shown(
    path: Option<Seq<char>>,
    version: Option<Seq<char>>,
    tool: Option<FoundTool>,
) -> bool {
    match tool {
        Some(found) => {
            &&& path == Some(found.path@)
            &&& version == (match models::opt_text(found.version_output) {
                Some(output) => first_line(output),
                None => None,
            })
        },
        None => path is None && version is None,
    }
}

fn version_of(tool: &Option<FoundTool>) -> (r: Option<String>)
    ensures
        models::opt_text(r) == (match *tool {
            Some(found) => match models::opt_text(found.version_output) {
                Some(output) => first_line(output),
                None => None,
            },
            None => None,
        }),
{
    match tool {
        Some(found) => match &found.version_output {
            Some(output) => command_first_line(output.as_str()),
            None => None,
        },
        None => None,
    }
}

fn tool_path(tool: &Option<FoundTool>) -> (r: Option<String>)
    ensures
        models::opt_text(r) == (match *tool {
            Some(found) => Some(found.path@),
            None => None,
        }),
{
    match tool {
        Some(found) => Some(found.path.clone()),
        None => None,
    }
}

/// Where the program keeps its data, and which tools it found.
pub fn tool_status(root: &Root, ffmpeg: &Option<FoundTool>, ffprobe: &Option<FoundTool>) -> (r:
    ToolStatus)
    ensures
        r.workspace_root@ == root@.path,
        r.data_dir@ == paths::data_folder(root@),
        r.database_path@ == paths::in_data(root@, "index.sqlite"@),
        r.allowed_source@ == ALLOWED_SOURCE@,
        tool_shown(models::opt_text(r.ffmpeg_path), models::opt_text(r.ffmpeg_version), *ffmpeg),
        tool_shown(
            models::opt_text(r.ffprobe_path),
            models::opt_text(r.ffprobe_version),
            *ffprobe,
        ),
{
    ToolStatus {
        workspace_root: root.path.clone(),
        data_dir: data_dir(root),
        database_path: database_path(root),
        allowed_source: ALLOWED_SOURCE.to_owned(),
        ffmpeg_path: tool_path(ffmpeg),
        ffprobe_path: tool_path(ffprobe),
        ffmpeg_version: version_of(ffmpeg),
        ffprobe_version: version_of(ffprobe),
    }
}

/// Where the copy of a tool is kept.
pub fn local_cached_tool_path(root: &Root, name: &str) -> (r: String)
    ensures
        r@ == paths::joined(
            root@.host,
            paths::in_data(root@, "tools"@),
            name@ + ".exe"@,
        ),
{
    join(
        root.host,
        data_path(root, "tools").as_str(),
        cat(name, ".exe").as_str(),
    )
}

/// Which file of a tool is used.
#[derive(Debug, Clone, Copy, PartialEq, Eq, Structural)]
pub enum ToolChoice {
    /// The one that the environment names.
    Named,
    /// The copy that is kept.
    Copy,
    /// One that was found, which is copied first if that can be done.
    Found,
    /// There is none.
    Missing,
}

/// Which file of a tool is used.
pub fn resolve_tool(named_exists: bool, copy_usable: bool, found: bool) -> (r: ToolChoice)
    ensures
        r == (if named_exists {
            ToolChoice::Named
        } else if copy_usable {
            ToolChoice::Copy
        } else if found {
            ToolChoice::Found
        } else {
            ToolChoice::Missing
        }),
{
    if named_exists {
        ToolChoice::Named
    } else if copy_usable {
        ToolChoice::Copy
    } else if found {
        ToolChoice::Found
    } else {
        ToolChoice::Missing
    }
}

/// Whether a tool that was found has to be copied: not where it is the copy, or where the copy can
/// be used.
pub fn needs_copy(source: &str, destination: &str, destination_usable: bool) -> (r: bool)
    ensures
        r == (text::lowercase(text::replaced(source@, '/', '\\')) != text::lowercase(
            text::replaced(destination@, '/', '\\'),
        ) && !destination_usable),
{
    let from = replace_char(source, '/', '\\').to_lowercase();
    let to = replace_char(destination, '/', '\\').to_lowercase();
    !same_text(from.as_str(), to.as_str()) && !destination_usable
}

} // verus!
