//! Taking frames of videos on the storage server: what is asked for, and what becomes of the
//! answer.
use crate::digest;
use crate::digest::clamp_frame_count;
use crate::double::Double;
use crate::local_preprocess;
use crate::local_preprocess::push_recent_error;
use crate::matching;
use crate::models;
use crate::models::{AppSettings, NasPreprocessSummary, VideoRecord};
use crate::paths;
use crate::paths::{join, Host, ALLOWED_SOURCE};
use crate::text;
use crate::text::{
    add_line, cat, cat3, cat4, chars_of, decimal_text, is_blank, join_lines, lines, replace_char,
    same_text, strip_prefix, trim, trim_end_char,
};
use vstd::prelude::*;
use vstd::string::*;

verus! {

/// How far the work on the storage server is.
#[derive(Debug, Clone)]
pub struct NasPreprocessProgress {
    pub total_videos: usize,
    pub imported: usize,
    pub skipped: usize,
    pub failed: usize,
    pub current_path: Option<String>,
}

/// Whether frames can be taken on the storage server: it is switched on and configured.
pub open spec fn is_enabled(settings: AppSettings) -> bool {
    &&& settings.nas_ssh_preprocess_enabled
    &&& text::trimmed(settings.nas_ssh_host@).len() > 0
    &&& text::trimmed(settings.nas_remote_root@).len() > 0
}

/// Whether frames can be taken on the storage server.
pub fn enabled(settings: &AppSettings) -> (r: bool)
    ensures
        r == is_enabled(*settings),
{
    settings.nas_ssh_preprocess_enabled && !is_blank(settings.nas_ssh_host.as_str()) && !is_blank(
        settings.nas_remote_root.as_str(),
    )
}

/// A path with one kind of slash, and none at its end.
pub open spec fn plain_path(path: Seq<char>) -> Seq<char> {
    text::without_trailing(text::replaced(path, '/', '\\'), '\\')
}

/// A path with one kind of slash, and none at its end.
pub fn normalize_windows_path(path: &str) -> (r: String)
    ensures
        r@ == plain_path(path@),
{
    trim_end_char(replace_char(path, '/', '\\').as_str(), '\\')
}

/// The share that the storage server offers.
pub open spec fn share_root(settings: AppSettings) -> Seq<char> {
    if text::trimmed(settings.nas_smb_root@).len() == 0 {
        ALLOWED_SOURCE@
    } else {
        text::trimmed(settings.nas_smb_root@)
    }
}

/// The folder of the share on the storage server.
pub open spec fn server_root(settings: AppSettings) -> Seq<char> {
    text::without_trailing(text::trimmed(settings.nas_remote_root@), '/')
}

/// The part of a path behind a root, where the path lies there.
pub open spec fn behind_root(path: Seq<char>, root: Seq<char>) -> Option<Seq<char>> {
    if path == root {
        Some(Seq::empty())
    } else if root.push('\\').is_prefix_of(path) {
        Some(path.skip((root.len() + 1) as int))
    } else {
        None
    }
}

/// The path of a file of the share on the storage server, or why there is none.
pub open spec fn remote_path(path: Seq<char>, settings: AppSettings) -> Result<
    Seq<char>,
    Seq<char>,
> {
    match behind_root(plain_path(path), plain_path(share_root(settings))) {
        None => Err(
            "SMB path is outside configured NAS SMB root: "@ + path + " not under "@ + share_root(
                settings,
            ),
        ),
        Some(part) => if server_root(settings).len() == 0 {
            Err("NAS remote root is empty"@)
        } else if part.len() == 0 {
            Ok(server_root(settings))
        } else {
            Ok(server_root(settings) + "/"@ + text::replaced(part, '\\', '/'))
        },
    }
}

/// The path of a file of the share on the storage server. Fails where the file does not lie on the
/// share, or the folder of the share is not configured.
pub fn map_smb_path_to_remote(path: &str, settings: &AppSettings) -> (r: Result<String, String>)
    ensures
        match remote_path(path@, *settings) {
            Ok(there) => r is Ok && r->Ok_0@ == there,
            Err(message) => r is Err && r->Err_0@ == message,
        },
{
    let root = if is_blank(settings.nas_smb_root.as_str()) {
        ALLOWED_SOURCE.to_owned()
    } else {
        trim(settings.nas_smb_root.as_str())
    };
    let own = normalize_windows_path(path);
    let base = normalize_windows_path(root.as_str());
    let part = if same_text(own.as_str(), base.as_str()) {
        String::new()
    } else {
        let mut inside = base.clone();
        inside.push('\\');
        match strip_prefix(own.as_str(), inside.as_str()) {
            Some(rest) => rest,
            None => {
                return Err(
                    cat4(
                        "SMB path is outside configured NAS SMB root: ",
                        path,
                        " not under ",
                        root.as_str(),
                    ),
                );
            },
        }
    };
    assert(behind_root(plain_path(path@), plain_path(share_root(*settings))) == Some(part@));
    let server = trim_end_char(trim(settings.nas_remote_root.as_str()).as_str(), '/');
    if chars_of(server.as_str()).len() == 0 {
        return Err("NAS remote root is empty".to_owned());
    }
    if chars_of(part.as_str()).len() == 0 {
        Ok(server)
    } else {
        Ok(cat3(server.as_str(), "/", replace_char(part.as_str(), '\\', '/').as_str()))
    }
}

/// Different files of the share are different files on the storage server: paths with the same
/// remote path differ in nothing but slashes.
pub proof fn law_files_keep_apart(left: Seq<char>, right: Seq<char>, settings: AppSettings)
    requires
        remote_path(left, settings) is Ok,
        remote_path(left, settings) == remote_path(right, settings),
    ensures
        plain_path(left) == plain_path(right),
{
    let root = plain_path(share_root(settings));
    let l = plain_path(left);
    let r = plain_path(right);
    lemma_no_slash(left);
    lemma_no_slash(right);
    let a = behind_root(l, root)->0;
    let b = behind_root(r, root)->0;
    let server = server_root(settings);
    reveal_strlit("/");
    assert(a =~= b) by {
        if a.len() == 0 && b.len() > 0 {
            assert((server + "/"@ + text::replaced(b, '\\', '/')).len() > server.len());
        } else if a.len() > 0 && b.len() == 0 {
            assert((server + "/"@ + text::replaced(a, '\\', '/')).len() > server.len());
        } else if a.len() > 0 {
            let x = server + "/"@ + text::replaced(a, '\\', '/');
            let y = server + "/"@ + text::replaced(b, '\\', '/');
            assert(x == y);
            assert(x.len() == server.len() + 1 + a.len());
            assert(y.len() == server.len() + 1 + b.len());
            assert forall|k: int| 0 <= k < a.len() implies a[k] == b[k] by {
                assert(x[server.len() + 1 + k] == text::replaced(a, '\\', '/')[k]);
                assert(y[server.len() + 1 + k] == text::replaced(b, '\\', '/')[k]);
                assert(a[k] == l[root.len() + 1 + k]);
                assert(b[k] == r[root.len() + 1 + k]);
            }
        }
    }
    if a.len() == 0 {
        if l != root {
            assert(l.len() == root.len() + 1);
            assert(l.last() == l[root.len() as int]);
            assert(root.push('\\')[root.len() as int] == '\\');
            lemma_no_end_slash(left);
        }
        if r != root {
            assert(r.len() == root.len() + 1);
            assert(r.last() == r[root.len() as int]);
            assert(root.push('\\')[root.len() as int] == '\\');
            lemma_no_end_slash(right);
        }
    } else {
        assert(l =~= root.push('\\') + a);
        assert(r =~= root.push('\\') + b);
    }
}

proof fn lemma_trimmed_part(s: Seq<char>, c: char)
    ensures
        text::without_trailing(s, c).is_prefix_of(s),
        text::without_trailing(s, c).len() > 0 ==> text::without_trailing(s, c).last() != c,
    decreases s.len(),
{
    if s.len() > 0 && s.last() == c {
        lemma_trimmed_part(s.drop_last(), c);
    }
}

proof fn lemma_no_slash(path: Seq<char>)
    ensures
        forall|k: int| 0 <= k < plain_path(path).len() ==> #[trigger] plain_path(path)[k] != '/',
{
    let all = text::replaced(path, '/', '\\');
    lemma_trimmed_part(all, '\\');
    assert forall|k: int| 0 <= k < plain_path(path).len() implies #[trigger] plain_path(path)[k]
        != '/' by {
        assert(plain_path(path)[k] == all[k]);
    }
}

proof fn lemma_no_end_slash(path: Seq<char>)
    ensures
        plain_path(path).len() > 0 ==> plain_path(path).last() != '\\',
{
    lemma_trimmed_part(text::replaced(path, '/', '\\'), '\\');
}

/// A video whose frames are asked for; `video` is its position.
#[derive(Debug, Clone)]
pub struct RemoteVideoRequest {
    pub video: usize,
    pub id: i64,
    pub smb_path: String,
    pub remote_path: String,
    pub size_bytes: u64,
    pub modified_unix_ms: i64,
    pub duration_seconds: Option<Double>,
}

/// What is asked of the storage server.
#[derive(Debug, Clone)]
pub struct NasPlan {
    pub frame_count: usize,
    pub workers: usize,
    pub skipped: usize,
    pub requests: Vec<RemoteVideoRequest>,
}

/// Whether the frames of a video are asked for: they are not there, and the video is in the index.
pub open spec fn is_asked(video: VideoRecord, cached: bool) -> bool {
    !cached && video.id is Some
}

/// The positions of those of the first `n` videos whose frames are asked for.
pub open spec fn asked_videos(videos: Seq<VideoRecord>, cached: Seq<bool>, n: int) -> Seq<usize>
    decreases n,
{
    if n <= 0 {
        Seq::empty()
    } else if is_asked(videos[n - 1], cached[n - 1]) {
        asked_videos(videos, cached, n - 1).push((n - 1) as usize)
    } else {
        asked_videos(videos, cached, n - 1)
    }
}

/// The first video, from `i` on, whose frames are asked for and that is not on the server.
pub open spec fn first_lost(
    videos: Seq<VideoRecord>,
    cached: Seq<bool>,
    settings: AppSettings,
    i: int,
) -> Option<int>
    decreases videos.len() - i,
{
    if i < 0 || i >= videos.len() {
        None
    } else if is_asked(videos[i], cached[i]) && remote_path(videos[i].path@, settings) is Err {
        Some(i)
    } else {
        first_lost(videos, cached, settings, i + 1)
    }
}

/// Whether a request asks for the frames of a video.
pub open spec fn asks_for(
    request: RemoteVideoRequest,
    videos: Seq<VideoRecord>,
    i: usize,
    settings: AppSettings,
) -> bool {
    let video = videos[i as int];
    &&& request.video == i
    &&& Some(request.id) == video.id
    &&& request.smb_path@ == video.path@
    &&& remote_path(video.path@, settings) == Ok::<Seq<char>, Seq<char>>(request.remote_path@)
    &&& request.size_bytes == video.size_bytes
    &&& request.modified_unix_ms == video.modified_unix_ms
    &&& request.duration_seconds == video.duration_seconds
}

/// What is asked of the storage server, where it is in use. `cached` tells of each video whether
/// its frames are there. Fails where a video is not on the server.
pub fn preprocess_ai_frame_cache(
    videos: &Vec<VideoRecord>,
    cached: &Vec<bool>,
    settings: &AppSettings,
) -> (r: Result<Option<NasPlan>, String>)
    requires
        cached@.len() == videos@.len(),
    ensures
        if !is_enabled(*settings) {
            r matches Ok(None)
        } else {
            match first_lost(videos@, cached@, *settings, 0) {
                Some(i) => r is Err && remote_path(videos@[i].path@, *settings) == Err::<
                    Seq<char>,
                    Seq<char>,
                >(r->Err_0@),
                None => r is Ok && r->Ok_0 is Some && {
                    let plan = r->Ok_0->0;
                    let asked = asked_videos(videos@, cached@, videos@.len() as int);
                    &&& plan.frame_count == digest::kept_frame_count(
                        settings.ai_frame_count as int,
                    )
                    &&& plan.workers == matching::within(
                        settings.nas_ssh_ffmpeg_workers as int,
                        1,
                        4,
                    )
                    &&& plan.skipped == videos@.len() - asked.len()
                    &&& plan.requests@.len() == asked.len()
                    &&& forall|k: int|
                        #![trigger plan.requests@[k]]
                        0 <= k < asked.len() ==> asks_for(
                            plan.requests@[k],
                            videos@,
                            asked[k],
                            *settings,
                        )
                },
            }
        },
{
    if !enabled(settings) {
        return Ok(None);
    }
    let total: usize = videos.len();
    let mut skipped: usize = 0;
    let mut requests: Vec<RemoteVideoRequest> = Vec::new();
    let mut i: usize = 0;
    while i < total
        invariant
            i <= total,
            total == videos@.len(),
            cached@.len() == videos@.len(),
            is_enabled(*settings),
            first_lost(videos@, cached@, *settings, 0) == first_lost(
                videos@,
                cached@,
                *settings,
                i as int,
            ),
            requests@.len() == asked_videos(videos@, cached@, i as int).len(),
            skipped + requests@.len() == i,
            forall|k: int|
                #![trigger requests@[k]]
                0 <= k < requests@.len() ==> asks_for(
                    requests@[k],
                    videos@,
                    asked_videos(videos@, cached@, i as int)[k],
                    *settings,
                ),
        decreases total - i,
    {
        let ghost before = requests@;
        let ghost had = asked_videos(videos@, cached@, i as int);
        match videos[i].id {
            Some(id) => {
                if cached[i] {
                    skipped += 1;
                } else {
                    let there = match map_smb_path_to_remote(videos[i].path.as_str(), settings) {
                        Ok(there) => there,
                        Err(message) => {
                            return Err(message);
                        },
                    };
                    requests.push(
                        RemoteVideoRequest {
                            video: i,
                            id,
                            smb_path: videos[i].path.clone(),
                            remote_path: there,
                            size_bytes: videos[i].size_bytes,
                            modified_unix_ms: videos[i].modified_unix_ms,
                            duration_seconds: videos[i].duration_seconds,
                        },
                    );
                    assert forall|k: int|
                        #![trigger requests@[k]]
                        0 <= k < requests@.len() implies asks_for(
                        requests@[k],
                        videos@,
                        had.push(i)[k],
                        *settings,
                    ) by {
                        if k < before.len() {
                            assert(requests@[k] == before[k]);
                        }
                    }
                }
            },
            None => {
                skipped += 1;
            },
        }
        i += 1;
    }
    let workers: usize = if settings.nas_ssh_ffmpeg_workers < 1 {
        1
    } else if settings.nas_ssh_ffmpeg_workers > 4 {
        4
    } else {
        settings.nas_ssh_ffmpeg_workers
    };
    Ok(
        Some(
            NasPlan {
                frame_count: clamp_frame_count(settings.ai_frame_count),
                workers,
                skipped,
                requests,
            },
        ),
    )
}

/// Fails where the answer of the storage server is of an unknown version.
pub fn check_manifest_version(version: u32) -> (r: Result<(), String>)
    ensures
        r is Ok == (version == 1),
        r matches Err(message) ==> message@ == "unsupported NAS frame manifest version "@
            + text::decimal(version as nat),
{
    if version != 1 {
        return Err(
            cat(
                "unsupported NAS frame manifest version ",
                decimal_text(version as u64).as_str(),
            ),
        );
    }
    Ok(())
}

/// What is done with the answer on one video.
#[derive(Debug, Clone, Copy, PartialEq, Eq, Structural)]
pub enum RemoteChoice {
    /// The server could not serve it.
    Refused,
    /// There is no such video.
    Unknown,
    /// Its frames are taken, for the video at a position.
    Import(usize),
}

/// The position of the last of the first `n` videos with an id.
pub open spec fn last_with_id(videos: Seq<VideoRecord>, id: i64, n: int) -> Option<usize>
    decreases n,
{
    if n <= 0 {
        None
    } else if videos[n - 1].id == Some(id) {
        Some((n - 1) as usize)
    } else {
        last_with_id(videos, id, n - 1)
    }
}

/// What is done with the answer on one video.
pub fn judge_remote(status: &str, id: i64, videos: &Vec<VideoRecord>) -> (r: RemoteChoice)
    ensures
        r == (if status@ != "ok"@ {
            RemoteChoice::Refused
        } else {
            match last_with_id(videos@, id, videos@.len() as int) {
                Some(i) => RemoteChoice::Import(i),
                None => RemoteChoice::Unknown,
            }
        }),
{
    if !same_text(status, "ok") {
        return RemoteChoice::Refused;
    }
    let mut n: usize = videos.len();
    while n > 0
        invariant
            n <= videos@.len(),
            status@ == "ok"@,
            last_with_id(videos@, id, videos@.len() as int) == last_with_id(
                videos@,
                id,
                n as int,
            ),
        decreases n,
    {
        let fits = match videos[n - 1].id {
            Some(own) => own == id,
            None => false,
        };
        if fits {
            return RemoteChoice::Import(n - 1);
        }
        n -= 1;
    }
    RemoteChoice::Unknown
}

/// Why the frames of a video are not taken: the file on the server is another one.
pub open spec fn remote_trouble(
    remote_size: Option<u64>,
    size: u64,
    lengths_differ: bool,
    remote_length: Seq<char>,
    length: Seq<char>,
) -> Option<Seq<char>> {
    if remote_size is Some && remote_size->0 != size {
        Some(
            "remote file size differs from SMB metadata: "@ + text::decimal(
                remote_size->0 as nat,
            ) + " vs "@ + text::decimal(size as nat),
        )
    } else if lengths_differ {
        Some(
            "remote duration differs from SMB metadata: "@ + remote_length + "s vs "@ + length
                + "s"@,
        )
    } else {
        None
    }
}

/// Fails where the file on the server is another one. `lengths_differ` tells whether both lengths
/// are known and are more than a second apart; they are given with three digits behind the point.
pub fn check_remote_video(
    remote_size: Option<u64>,
    size: u64,
    lengths_differ: bool,
    remote_length: &str,
    length: &str,
) -> (r: Result<(), String>)
    ensures
        match remote_trouble(remote_size, size, lengths_differ, remote_length@, length@) {
            Some(message) => r is Err && r->Err_0@ == message,
            None => r is Ok,
        },
{
    match remote_size {
        Some(own) => {
            if own != size {
                return Err(
                    cat4(
                        "remote file size differs from SMB metadata: ",
                        decimal_text(own).as_str(),
                        " vs ",
                        decimal_text(size).as_str(),
                    ),
                );
            }
        },
        None => {},
    }
    if lengths_differ {
        return Err(
            text::cat5(
                "remote duration differs from SMB metadata: ",
                remote_length,
                "s vs ",
                length,
                "s",
            ),
        );
    }
    Ok(())
}

/// The place at which a frame comes in among others, by its number.
pub open spec fn place_by_number(numbers: Seq<usize>, list: Seq<usize>, i: usize) -> int
    decreases list.len(),
{
    if list.len() == 0 {
        0
    } else if numbers[list.last() as int] <= numbers[i as int] {
        list.len() as int
    } else {
        place_by_number(numbers, list.drop_last(), i)
    }
}

/// The positions of the first `n` frames, by their numbers.
pub open spec fn by_number(numbers: Seq<usize>, n: int) -> Seq<usize>
    decreases n,
{
    if n <= 0 {
        Seq::empty()
    } else {
        let rest = by_number(numbers, n - 1);
        rest.insert(place_by_number(numbers, rest, (n - 1) as usize), (n - 1) as usize)
    }
}

/// The positions of frames by their numbers; those with the same number stay as they are.
pub fn order_remote_frames(numbers: &Vec<usize>) -> (r: Vec<usize>)
    ensures
        r@ == by_number(numbers@, numbers@.len() as int),
        forall|k: int| 0 <= k < r@.len() ==> (#[trigger] r@[k]) < numbers@.len(),
{
    let total: usize = numbers.len();
    let mut all: Vec<usize> = Vec::new();
    let mut i: usize = 0;
    while i < total
        invariant
            total == numbers@.len(),
            i <= total,
            all@ == by_number(numbers@, i as int),
            forall|k: int| 0 <= k < all@.len() ==> (#[trigger] all@[k]) < i,
        decreases total - i,
    {
        let mut at: usize = all.len();
        assert(all@.take(at as int) =~= all@);
        while at > 0 && numbers[all[at - 1]] > numbers[i]
            invariant
                at <= all@.len(),
                i < numbers@.len(),
                forall|k: int| 0 <= k < all@.len() ==> (#[trigger] all@[k]) < i,
                place_by_number(numbers@, all@, i) == place_by_number(
                    numbers@,
                    all@.take(at as int),
                    i,
                ),
            decreases at,
        {
            assert(all@.take(at as int).drop_last() =~= all@.take(at - 1));
            assert(all@.take(at as int).last() == all@[at - 1]);
            at -= 1;
        }
        proof {
            assert(all@.take(at as int).len() == at);
            if at > 0 {
                assert(all@.take(at as int).last() == all@[at - 1]);
            }
        }
        let ghost before = all@;
        all.insert(at, i);
        assert forall|k: int| 0 <= k < all@.len() implies (#[trigger] all@[k]) < i + 1 by {
            if k < at {
                assert(all@[k] == before[k]);
            } else if k > at {
                assert(all@[k] == before[k - 1]);
            }
        }
        i += 1;
    }
    all
}

/// The path of a frame that came from the server.
pub fn remote_frame_path(host: Host, payload_dir: &str, file_name: &str) -> (r: String)
    ensures
        r@ == paths::joined(
            host,
            payload_dir@,
            text::replaced(file_name@, '/', paths::separator(host)),
        ),
{
    let own = match host {
        Host::Windows => '\\',
        Host::Other => '/',
    };
    join(host, payload_dir, replace_char(file_name, '/', own).as_str())
}

/// The message that a frame that came from the server is not there.
pub fn missing_frame_text(path: &str) -> (r: String)
    ensures
        r@ == "imported frame is missing: "@ + path@,
{
    cat("imported frame is missing: ", path)
}

/// How the answer on one video fared.
#[derive(Debug, Clone)]
pub enum RemoteOutcome {
    /// The server could not serve it, and maybe tells why.
    Refused(Option<String>),
    /// There is no such video.
    Unknown,
    /// Its frames were taken.
    Imported,
    /// Its frames are too few.
    Incomplete,
    /// Its frames could not be taken.
    Failed(String),
}

/// The error of an outcome.
pub open spec fn outcome_error(path: Seq<char>, outcome: RemoteOutcome) -> Option<Seq<char>> {
    match outcome {
        RemoteOutcome::Refused(error) => Some(
            path + ": "@ + (match models::opt_text(error) {
                Some(own) => own,
                None => "NAS preprocessing failed"@,
            }),
        ),
        RemoteOutcome::Unknown => Some(path + ": local video record was not found"@),
        RemoteOutcome::Imported => None,
        RemoteOutcome::Incomplete => Some(path + ": incomplete NAS frame set"@),
        RemoteOutcome::Failed(error) => Some(path + ": "@ + error@),
    }
}

/// A run on the storage server: how far it is.
#[derive(Debug, Clone)]
pub struct NasRun {
    pub total_videos: usize,
    pub imported: usize,
    pub skipped: usize,
    pub failed: usize,
    pub recent_errors: Vec<String>,
}

impl NasRun {
    /// Eight errors at most are kept.
    pub open spec fn wf(&self) -> bool {
        self.recent_errors@.len() <= 8
    }

    /// A run for a plan.
    pub fn start(plan: &NasPlan) -> (r: NasRun)
        ensures
            r.wf(),
            r.total_videos == plan.requests@.len(),
            r.imported == 0,
            r.skipped == plan.skipped,
            r.failed == 0,
            r.recent_errors@.len() == 0,
    {
        NasRun {
            total_videos: plan.requests.len(),
            imported: 0,
            skipped: plan.skipped,
            failed: 0,
            recent_errors: Vec::new(),
        }
    }

    /// What a run tells.
    pub fn progress(&self, current_path: Option<String>) -> (r: NasPreprocessProgress)
        ensures
            r.total_videos == self.total_videos,
            r.imported == self.imported,
            r.skipped == self.skipped,
            r.failed == self.failed,
            r.current_path == current_path,
    {
        NasPreprocessProgress {
            total_videos: self.total_videos,
            imported: self.imported,
            skipped: self.skipped,
            failed: self.failed,
            current_path,
        }
    }

    /// Takes note of how the answer on one video fared.
    pub fn note(&mut self, smb_path: &str, outcome: &RemoteOutcome)
        requires
            old(self).wf(),
            old(self).imported < usize::MAX,
            old(self).failed < usize::MAX,
        ensures
            final(self).wf(),
            final(self).total_videos == old(self).total_videos,
            final(self).skipped == old(self).skipped,
            match outcome_error(smb_path@, *outcome) {
                Some(message) => {
                    &&& final(self).imported == old(self).imported
                    &&& final(self).failed == old(self).failed + 1
                    &&& models::texts(final(self).recent_errors@) == local_preprocess::last_eight(
                        models::texts(old(self).recent_errors@).push(message),
                    )
                },
                None => {
                    &&& final(self).imported == old(self).imported + 1
                    &&& final(self).failed == old(self).failed
                    &&& final(self).recent_errors@ == old(self).recent_errors@
                },
            },
    {
        let message = match outcome {
            RemoteOutcome::Imported => {
                self.imported = self.imported + 1;
                return;
            },
            RemoteOutcome::Refused(error) => match error {
                Some(own) => cat3(smb_path, ": ", own.as_str()),
                None => cat3(smb_path, ": ", "NAS preprocessing failed"),
            },
            RemoteOutcome::Unknown => cat(smb_path, ": local video record was not found"),
            RemoteOutcome::Incomplete => cat(smb_path, ": incomplete NAS frame set"),
            RemoteOutcome::Failed(error) => cat3(smb_path, ": ", error.as_str()),
        };
        self.failed = self.failed + 1;
        push_recent_error(&mut self.recent_errors, message);
    }

    /// What a run came to. `bundle_dir` is the folder of what the server sent, where it was asked.
    pub fn summary(self, bundle_dir: Option<String>) -> (r: NasPreprocessSummary)
        ensures
            r.total_videos == self.total_videos,
            r.imported == self.imported,
            r.skipped == self.skipped,
            r.failed == self.failed,
            r.bundle_dir == bundle_dir,
            r.recent_errors == self.recent_errors,
    {
        NasPreprocessSummary {
            total_videos: self.total_videos,
            imported: self.imported,
            skipped: self.skipped,
            failed: self.failed,
            bundle_dir,
            recent_errors: self.recent_errors,
        }
    }
}

/// The name by which the server is reached: with the user, where one is configured.
pub fn ssh_target(settings: &AppSettings) -> (r: String)
    ensures
        r@ == (if text::trimmed(settings.nas_ssh_user@).len() == 0 {
            text::trimmed(settings.nas_ssh_host@)
        } else {
            text::trimmed(settings.nas_ssh_user@) + "@"@ + text::trimmed(settings.nas_ssh_host@)
        }),
{
    let host = trim(settings.nas_ssh_host.as_str());
    if is_blank(settings.nas_ssh_user.as_str()) {
        host
    } else {
        cat3(trim(settings.nas_ssh_user.as_str()).as_str(), "@", host.as_str())
    }
}

/// The name by which the server is reached with a password. Fails where the user or the server is
/// not configured.
pub fn plink_target(settings: &AppSettings) -> (r: Result<String, String>)
    ensures
        ({
            let user = text::trimmed(settings.nas_ssh_user@);
            let host = text::trimmed(settings.nas_ssh_host@);
            match r {
                Ok(target) => user.len() > 0 && host.len() > 0 && target@ == user + "@"@ + host,
                Err(message) => if user.len() == 0 {
                    message@ == "NAS SSH user is empty when password login is used"@
                } else {
                    host.len() == 0 && message@ == "NAS SSH host is empty"@
                },
            }
        }),
{
    if is_blank(settings.nas_ssh_user.as_str()) {
        return Err("NAS SSH user is empty when password login is used".to_owned());
    }
    if is_blank(settings.nas_ssh_host.as_str()) {
        return Err("NAS SSH host is empty".to_owned());
    }
    Ok(
        cat3(
            trim(settings.nas_ssh_user.as_str()).as_str(),
            "@",
            trim(settings.nas_ssh_host.as_str()).as_str(),
        ),
    )
}

/// The arguments of the program that reaches the server without a password.
pub open spec fn ssh_arguments(port: u16, target: Seq<char>) -> Seq<Seq<char>> {
    seq![
        "-p"@,
        text::decimal(port as nat),
        "-o"@,
        "BatchMode=yes"@,
        "-o"@,
        "ConnectTimeout=12"@,
        target,
        "bash"@,
        "-s"@,
    ]
}

/// The arguments of the program that reaches the server without a password.
pub fn ssh_args(settings: &AppSettings, target: &str) -> (r: Vec<String>)
    ensures
        models::texts(r@) == ssh_arguments(settings.nas_ssh_port, target@),
{
    let mut out: Vec<String> = Vec::new();
    add_line(&mut out, "-p".to_owned());
    add_line(&mut out, decimal_text(settings.nas_ssh_port as u64));
    add_line(&mut out, "-o".to_owned());
    add_line(&mut out, "BatchMode=yes".to_owned());
    add_line(&mut out, "-o".to_owned());
    add_line(&mut out, "ConnectTimeout=12".to_owned());
    add_line(&mut out, target.to_owned());
    add_line(&mut out, "bash".to_owned());
    add_line(&mut out, "-s".to_owned());
    assert(models::texts(out@) =~= ssh_arguments(settings.nas_ssh_port, target@));
    out
}

/// The arguments of the program that reaches the server with a password.
pub open spec fn plink_arguments(settings: AppSettings, target: Seq<char>, batch: bool) -> Seq<
    Seq<char>,
> {
    let first = seq![
        "-ssh"@,
        "-P"@,
        text::decimal(settings.nas_ssh_port as nat),
        "-pw"@,
        settings.nas_ssh_password@,
    ];
    let key = text::trimmed(settings.nas_ssh_host_key@);
    let second = if key.len() > 0 {
        first.push("-hostkey"@).push(key)
    } else {
        first
    };
    let third = if batch {
        second.push("-batch"@)
    } else {
        second
    };
    third.push(target)
}

/// The arguments of the program that reaches the server with a password.
pub fn plink_args(settings: &AppSettings, target: &str, batch: bool) -> (r: Vec<String>)
    ensures
        models::texts(r@) == plink_arguments(*settings, target@, batch),
{
    let mut out: Vec<String> = Vec::new();
    add_line(&mut out, "-ssh".to_owned());
    add_line(&mut out, "-P".to_owned());
    add_line(&mut out, decimal_text(settings.nas_ssh_port as u64));
    add_line(&mut out, "-pw".to_owned());
    add_line(&mut out, settings.nas_ssh_password.clone());
    if !is_blank(settings.nas_ssh_host_key.as_str()) {
        add_line(&mut out, "-hostkey".to_owned());
        add_line(&mut out, trim(settings.nas_ssh_host_key.as_str()));
    }
    if batch {
        add_line(&mut out, "-batch".to_owned());
    }
    add_line(&mut out, target.to_owned());
    assert(models::texts(out@) =~= plink_arguments(*settings, target@, batch));
    out
}

/// The message that a program failed, with the first six lines of what it said.
pub fn program_failure_text(what: &str, said: &str) -> (r: String)
    ensures
        r@ == what@ + " failed: "@ + text::joined_lines(
            text::lines_of(said@),
            " | "@,
            if text::lines_of(said@).len() < 6 {
                text::lines_of(said@).len() as int
            } else {
                6
            },
        ),
{
    let all = lines(said);
    assert(models::texts(all@).len() == all@.len());
    cat3(what, " failed: ", join_lines(&all, " | ", 6).as_str())
}

} // verus!
