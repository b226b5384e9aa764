//! What holds of files and frames: what is scanned, what is up to date, and what is taken of a video.
use crate::digest;
use crate::double::Double;
use crate::hashes;
use crate::local_preprocess;
use crate::local_preprocess::{DiskCapacity, SourceFacts};
use crate::media;
use crate::media::{ProbeStream, ScannedFile};
use crate::models;
use crate::models::{AppSettings, VideoRecord};
use crate::paths::Host;
use crate::text;
use vstd::prelude::*;

verus! {

/// Videos are told by twelve extensions, in either case.
pub proof fn law_videos_are_told_by_extension(extension: Seq<char>)
    ensures
        !media::is_video(None),
        media::is_video(Some(extension)) <==> ({
            let kind = text::lowercase(extension);
            ||| kind == "mp4"@
            ||| kind == "mov"@
            ||| kind == "m4v"@
            ||| kind == "avi"@
            ||| kind == "mkv"@
            ||| kind == "mts"@
            ||| kind == "m2ts"@
            ||| kind == "wmv"@
            ||| kind == "mpg"@
            ||| kind == "mpeg"@
            ||| kind == "3gp"@
            ||| kind == "webm"@
        }),
{
    let kinds = media::video_kinds();
    let kind = text::lowercase(extension);
    assert(kinds[0] == "mp4"@ && kinds[1] == "mov"@ && kinds[2] == "m4v"@ && kinds[3] == "avi"@);
    assert(kinds[4] == "mkv"@ && kinds[5] == "mts"@ && kinds[6] == "m2ts"@ && kinds[7] == "wmv"@);
    assert(kinds[8] == "mpg"@ && kinds[9] == "mpeg"@ && kinds[10] == "3gp"@ && kinds[11]
        == "webm"@);
    if kinds.contains(kind) {
        let k = choose|k: int| 0 <= k < kinds.len() && kinds[k] == kind;
        assert(0 <= k < 12);
    }
}

/// A folder that is left out takes everything below it along, and nothing beside it.
pub proof fn law_excluded_folders_are_left_out(host: Host, path: Seq<char>, dirs: Seq<Seq<char>>)
    ensures
        media::is_excluded(host, path, dirs) <==> exists|k: int|
            0 <= k < dirs.len() && (#[trigger] dirs[k]).len() > 0
                && crate::settings_laws::is_at_or_below(
                media::path_key(host, path),
                media::path_key(host, dirs[k]),
            ),
{
    let own = media::path_key(host, path);
    assert forall|k: int| 0 <= k < dirs.len() implies (crate::paths::is_or_under(
        own,
        media::path_key(host, #[trigger] dirs[k]),
    ) <==> crate::settings_laws::is_at_or_below(own, media::path_key(host, dirs[k]))) by {
        let dir = media::path_key(host, dirs[k]);
        let longer = dir.push('\\');
        if longer.is_prefix_of(own) {
            assert(longer =~= own.subrange(0, longer.len() as int));
            assert(own.take(dir.len() as int) =~= dir);
            assert(own[dir.len() as int] == longer[dir.len() as int]);
        }
        if own.len() > dir.len() && own.take(dir.len() as int) == dir && own[dir.len() as int]
            == '\\' {
            assert(longer =~= own.subrange(0, longer.len() as int));
        }
    }
}

/// A file is taken for the one that was scanned where its size is the same and its last change is at
/// most two seconds away.
pub proof fn law_unchanged_files_are_told_by_size_and_time(known: VideoRecord, seen: VideoRecord)
    ensures
        known.size_bytes != seen.size_bytes ==> !media::looks_same(known, seen),
        known.modified_unix_ms - seen.modified_unix_ms > 2_000 ==> !media::looks_same(known, seen),
        seen.modified_unix_ms - known.modified_unix_ms > 2_000 ==> !media::looks_same(known, seen),
        known.size_bytes == seen.size_bytes && known.modified_unix_ms == seen.modified_unix_ms
            ==> media::looks_same(known, seen),
        media::looks_same(known, seen) ==> media::looks_same(seen, known),
        known.size_bytes == seen.size_bytes && seen.modified_unix_ms - known.modified_unix_ms
            == 2_000 ==> media::looks_same(known, seen),
{
}

/// Of a video of at most six seconds one frame is taken, of a longer one as many as are asked for, from
/// 3 to 20 for its picture hashes and from 8 to 512 for the model.
pub proof fn law_short_videos_give_one_frame(duration: Option<Double>, asked: int)
    ensures
        duration is None || !Double::of(0x4018_0000_0000_0000).lt(duration->0)
            ==> media::hashes_expected(duration, asked) == 1 && local_preprocess::frames_expected(
            duration,
            asked,
        ) == 1,
        duration is Some && Double::of(0x4018_0000_0000_0000).lt(duration->0)
            ==> crate::settings_laws::is_moved_into(
            asked,
            media::hashes_expected(duration, asked),
            3,
            20,
        ) && crate::settings_laws::is_moved_into(
            asked,
            local_preprocess::frames_expected(duration, asked),
            8,
            512,
        ),
{
}

/// A video is up to date exactly where it was scanned well, its file did not change, and everything
/// that is taken of it is there.
pub proof fn law_current_videos_are_complete(
    video: VideoRecord,
    size_bytes: u64,
    modified_unix_ms: i64,
    settings: AppSettings,
    found: Seq<bool>,
    has_frames: bool,
)
    ensures
        media::is_current(video, size_bytes, modified_unix_ms, settings, found, has_frames) ==> {
            &&& video.scan_status@ == "ok"@
            &&& video.size_bytes == size_bytes
            &&& video.modified_unix_ms == modified_unix_ms
            &&& video.sample_hashes@.len() >= 1
            &&& video.preview_images@.len() > 0
            &&& forall|k: int| 0 <= k < video.preview_images@.len() ==> #[trigger] found[k]
            &&& settings.ai_vision_enabled && settings.ai_frame_cache_enabled
                && !settings.nas_ssh_preprocess_enabled && !settings.local_preprocess_enabled
                ==> has_frames
        },
        video.scan_status@ == "ok"@ && video.size_bytes == size_bytes && video.modified_unix_ms
            == modified_unix_ms && video.sample_hashes@.len() >= 20 && video.preview_images@.len()
            > 0 && (forall|k: int|
            0 <= k < video.preview_images@.len() ==> #[trigger] found[k]) && has_frames
            ==> media::is_current(
            video,
            size_bytes,
            modified_unix_ms,
            settings,
            found,
            has_frames,
        ),
{
}

/// A number that was written is read back.
pub proof fn law_written_numbers_are_read_back(n: nat)
    requires
        n <= u64::MAX,
    ensures
        media::number_of(text::decimal(n)) == Some(n as int),
{
    lemma_decimal_value(n);
    let s = text::decimal(n);
    assert('0' <= s[0] <= '9');
    assert(media::digits_of(s) == s);
}

proof fn lemma_decimal_value(n: nat)
    ensures
        text::decimal(n).len() > 0,
        local_preprocess::all_digits(text::decimal(n)),
        media::digits_value(text::decimal(n)) == n,
    decreases n,
{
    let s = text::decimal(n);
    if n < 10 {
        assert(s.drop_last() =~= Seq::empty());
        assert(media::digits_value(Seq::empty()) == 0);
        assert(s.last() as int == 48 + n);
    } else {
        lemma_decimal_value(n / 10);
        let head = text::decimal(n / 10);
        assert(s.drop_last() =~= head);
        assert(s.last() as int == 48 + n % 10);
        assert forall|k: int| 0 <= k < s.len() implies '0' <= #[trigger] s[k] <= '9' by {
            if k < head.len() {
                assert(s[k] == head[k]);
            }
        }
        assert(n == (n / 10) * 10 + n % 10);
    }
}

/// What is no number is not read as one: neither an empty text, nor one with a character that is no
/// digit behind its first.
pub proof fn law_other_texts_are_no_numbers(s: Seq<char>, k: int)
    requires
        0 < k < s.len(),
        !('0' <= s[k] <= '9'),
    ensures
        media::number_of(s) is None,
        media::number_of(Seq::empty()) is None,
{
    let digits = media::digits_of(s);
    if s[0] == '+' {
        assert(digits[k - 1] == s[k]);
    } else {
        assert(digits[k] == s[k]);
    }
    assert(media::digits_of(Seq::empty()).len() == 0);
}

/// What is read of a kind of stream is read of the first one of that kind.
pub proof fn law_first_stream_of_a_kind_counts(streams: Seq<ProbeStream>, kind: Seq<char>)
    ensures
        match media::first_stream(streams, kind) {
            Some(stream) => exists|i: int|
                0 <= i < streams.len() && #[trigger] streams[i] == stream && models::opt_text(
                    stream.codec_type,
                ) == Some(kind) && forall|k: int|
                    0 <= k < i ==> models::opt_text((#[trigger] streams[k]).codec_type) != Some(
                        kind,
                    ),
            None => forall|k: int|
                0 <= k < streams.len() ==> models::opt_text((#[trigger] streams[k]).codec_type)
                    != Some(kind),
        },
    decreases streams.len(),
{
    if streams.len() > 0 {
        let rest = streams.drop_first();
        if models::opt_text(streams[0].codec_type) == Some(kind) {
            assert(streams[0] == streams[0]);
        } else {
            law_first_stream_of_a_kind_counts(rest, kind);
            if let Some(stream) = media::first_stream(rest, kind) {
                let i = choose|i: int|
                    0 <= i < rest.len() && #[trigger] rest[i] == stream && models::opt_text(
                        stream.codec_type,
                    ) == Some(kind) && forall|k: int|
                        0 <= k < i ==> models::opt_text((#[trigger] rest[k]).codec_type) != Some(
                            kind,
                        );
                assert(streams[i + 1] == stream);
                assert forall|k: int| 0 <= k < i + 1 implies models::opt_text(
                    (#[trigger] streams[k]).codec_type,
                ) != Some(kind) by {
                    if k > 0 {
                        assert(rest[k - 1] == streams[k]);
                    }
                }
            } else {
                assert forall|k: int| 0 <= k < streams.len() implies models::opt_text(
                    (#[trigger] streams[k]).codec_type,
                ) != Some(kind) by {
                    if k > 0 {
                        assert(rest[k - 1] == streams[k]);
                    }
                }
            }
        }
    }
}

/// What is written of a file that could not be read in full says where it is, how large it is and when
/// it changed, and claims nothing else of it.
pub proof fn law_plain_records_claim_nothing(
    file: ScannedFile,
    status: Seq<char>,
    error: Option<Seq<char>>,
    now: i64,
)
    ensures
        ({
            let r = media::plain_record(file, status, error, now);
            &&& r.id is None
            &&& r.path == media::shown_path(file.host, file.path@)
            &&& r.size_bytes == file.size_bytes
            &&& r.modified_unix_ms == file.modified_unix_ms
            &&& file.parts.file_name is Some ==> r.file_name == file.parts.file_name->0@
            &&& file.parts.extension is Some ==> r.extension == text::lowercase(
                file.parts.extension->0@,
            )
            &&& r.scan_status == status
            &&& r.error == error
            &&& r.scanned_at_unix_ms == now
            &&& r.duration_seconds is None && r.width is None && r.height is None && r.bitrate
                is None && r.partial_hash is None
            &&& r.sample_hashes.len() == 0 && r.preview_images.len() == 0
        }),
{
}

proof fn lemma_valid_names(
    videos: Seq<VideoRecord>,
    duration_texts: Seq<String>,
    configured: int,
    n: int,
    name: Seq<char>,
)
    requires
        0 <= n <= videos.len(),
        duration_texts.len() == videos.len(),
    ensures
        media::valid_names(videos, duration_texts, configured, n).contains(name) <==> exists|k: int|
            0 <= k < n && (#[trigger] videos[k]).scan_status@ == "ok"@ && media::cache_name(
                videos[k]@,
                duration_texts[k]@,
                configured,
            ) == name,
    decreases n,
{
    if n > 0 {
        lemma_valid_names(videos, duration_texts, configured, n - 1, name);
        let rest = media::valid_names(videos, duration_texts, configured, n - 1);
        let all = media::valid_names(videos, duration_texts, configured, n);
        if rest.contains(name) {
            let at = choose|at: int| 0 <= at < rest.len() && rest[at] == name;
            assert(all[at] == name);
        }
        if videos[n - 1].scan_status@ == "ok"@ && media::cache_name(
            videos[n - 1]@,
            duration_texts[n - 1]@,
            configured,
        ) == name {
            assert(all[rest.len() as int] == name);
        }
        if all.contains(name) && !rest.contains(name) {
            let at = choose|at: int| 0 <= at < all.len() && all[at] == name;
            if at < rest.len() {
                assert(rest[at] == name);
            }
            assert(videos[n - 1].scan_status@ == "ok"@);
        }
    }
}

/// A file of kept frames is stale exactly where it is not named for a video that was scanned well.
pub proof fn law_frames_of_scanned_videos_are_kept(
    videos: Seq<VideoRecord>,
    duration_texts: Seq<String>,
    configured: int,
    stems: Seq<Option<String>>,
    i: int,
)
    requires
        duration_texts.len() == videos.len(),
        0 <= i < stems.len() <= usize::MAX,
    ensures
        media::stale_files(
            stems,
            media::valid_names(videos, duration_texts, configured, videos.len() as int),
            stems.len() as int,
        ).contains(i as usize) <==> stems[i] is None || forall|k: int|
            0 <= k < videos.len() && (#[trigger] videos[k]).scan_status@ == "ok"@
                ==> media::cache_name(videos[k]@, duration_texts[k]@, configured) != stems[i]->0@,
{
    let valid = media::valid_names(videos, duration_texts, configured, videos.len() as int);
    lemma_stale_files(stems, valid, stems.len() as int, i);
    if stems[i] is Some {
        lemma_valid_names(
            videos,
            duration_texts,
            configured,
            videos.len() as int,
            stems[i]->0@,
        );
    }
}

proof fn lemma_stale_files(stems: Seq<Option<String>>, valid: Seq<Seq<char>>, n: int, i: int)
    requires
        0 <= i < stems.len() <= usize::MAX,
        0 <= n <= stems.len(),
    ensures
        media::stale_files(stems, valid, n).contains(i as usize) <==> i < n && (stems[i] is None
            || !valid.contains(stems[i]->0@)),
    decreases n,
{
    if n > 0 {
        lemma_stale_files(stems, valid, n - 1, i);
        let rest = media::stale_files(stems, valid, n - 1);
        let all = media::stale_files(stems, valid, n);
        if rest.contains(i as usize) {
            let at = choose|at: int| 0 <= at < rest.len() && rest[at] == i as usize;
            assert(all[at] == i as usize);
        }
        if i == n - 1 && (stems[i] is None || !valid.contains(stems[i]->0@)) {
            assert(all[rest.len() as int] == i as usize);
        }
        if all.contains(i as usize) && !rest.contains(i as usize) {
            let at = choose|at: int| 0 <= at < all.len() && all[at] == i as usize;
            if at < rest.len() {
                assert(rest[at] == i as usize);
            }
        }
    }
}

/// A picture is loose exactly where no video shows it.
pub proof fn law_shown_pictures_are_kept(
    host: Host,
    files: Seq<String>,
    videos: Seq<VideoRecord>,
    n: int,
    i: int,
)
    requires
        0 <= i < files.len() <= usize::MAX,
        0 <= n <= files.len(),
    ensures
        media::loose_pictures(host, files, videos, n).contains(i as usize) <==> i < n && forall|
            v: int,
            k: int,
        |
            #![trigger videos[v].preview_images@[k]]
            0 <= v < videos.len() && 0 <= k < videos[v].preview_images@.len() ==> media::path_key(
                host,
                videos[v].preview_images@[k]@,
            ) != media::path_key(host, files[i]@),
    decreases n,
{
    if n > 0 {
        law_shown_pictures_are_kept(host, files, videos, n - 1, i);
        let rest = media::loose_pictures(host, files, videos, n - 1);
        let all = media::loose_pictures(host, files, videos, n);
        if rest.contains(i as usize) {
            let at = choose|at: int| 0 <= at < rest.len() && rest[at] == i as usize;
            assert(all[at] == i as usize);
        }
        if i == n - 1 && !media::is_picture_of(
            host,
            videos,
            media::path_key(host, files[i]@),
            videos.len() as int,
        ) {
            assert(all[rest.len() as int] == i as usize);
        }
        if all.contains(i as usize) && !rest.contains(i as usize) {
            let at = choose|at: int| 0 <= at < all.len() && all[at] == i as usize;
            if at < rest.len() {
                assert(rest[at] == i as usize);
            }
        }
    }
}

/// A video is copied only where its file is there, of the size that was scanned, and changed at most
/// two seconds away from when it was.
pub proof fn law_changed_sources_are_not_copied(
    video: VideoRecord,
    path: Seq<char>,
    facts: SourceFacts,
)
    ensures
        local_preprocess::source_trouble(video, path, facts) is None <==> {
            &&& facts.is_file
            &&& video.size_bytes == 0 || facts.size_bytes == video.size_bytes
            &&& video.modified_unix_ms <= 0 || -2_000 <= facts.modified_unix_ms
                - video.modified_unix_ms <= 2_000
        },
{
}

/// A copy is taken where there is room for it, waits where there could be, and is refused where the
/// disk is too small.
pub proof fn law_copies_need_room(bytes: u64, disk: DiskCapacity)
    requires
        bytes > 0,
    ensures
        local_preprocess::room_for(bytes, None) is Take,
        local_preprocess::room_for(bytes, Some(disk)) is Take <==> disk.free_bytes >= bytes,
        local_preprocess::room_for(bytes, Some(disk)) is TooSmall <==> disk.free_bytes < bytes
            && disk.total_bytes is Some && disk.total_bytes->0 < bytes,
{
}

/// Frames of a video are ready or to be taken, where it was scanned well and has an id, and never
/// both.
pub proof fn law_frames_are_ready_or_to_be_taken(
    videos: Seq<VideoRecord>,
    cached: Seq<bool>,
    n: int,
    i: int,
)
    requires
        0 <= i < videos.len() <= usize::MAX,
        0 <= n <= videos.len(),
        cached.len() == videos.len(),
    ensures
        local_preprocess::ready_videos(videos, cached, n).contains(i as usize) <==> i < n
            && videos[i].scan_status@ == "ok"@ && videos[i].id is Some && cached[i],
        local_preprocess::job_videos(videos, cached, n).contains(i as usize) <==> i < n
            && videos[i].scan_status@ == "ok"@ && videos[i].id is Some && !cached[i],
    decreases n,
{
    if n > 0 {
        law_frames_are_ready_or_to_be_taken(videos, cached, n - 1, i);
        let ready = local_preprocess::ready_videos(videos, cached, n - 1);
        let all_ready = local_preprocess::ready_videos(videos, cached, n);
        let jobs = local_preprocess::job_videos(videos, cached, n - 1);
        let all_jobs = local_preprocess::job_videos(videos, cached, n);
        let own = i as usize;
        if ready.contains(own) {
            let at = choose|at: int| 0 <= at < ready.len() && ready[at] == own;
            assert(all_ready[at] == own);
        }
        if jobs.contains(own) {
            let at = choose|at: int| 0 <= at < jobs.len() && jobs[at] == own;
            assert(all_jobs[at] == own);
        }
        if i == n - 1 && local_preprocess::can_take_frames(videos[i]) {
            if cached[i] {
                assert(all_ready[ready.len() as int] == own);
            } else {
                assert(all_jobs[jobs.len() as int] == own);
            }
        }
        if all_ready.contains(own) && !ready.contains(own) {
            let at = choose|at: int| 0 <= at < all_ready.len() && all_ready[at] == own;
            if at < ready.len() {
                assert(ready[at] == own);
            }
        }
        if all_jobs.contains(own) && !jobs.contains(own) {
            let at = choose|at: int| 0 <= at < all_jobs.len() && all_jobs[at] == own;
            if at < jobs.len() {
                assert(jobs[at] == own);
            }
        }
    }
}

/// A content hash covers the start of a file, and of one larger than a mebibyte also its middle and
/// its end.
pub proof fn law_content_hashes_cover_start_middle_and_end(size: u64)
    ensures
        digest::sample_places(size)[0] == 0,
        size <= 1_048_576 ==> digest::sample_places(size).len() == 1,
        size > 1_048_576 ==> digest::sample_places(size).contains((size / 2) as u64)
            && digest::sample_places(size).contains((size - 1_048_576) as u64),
        digest::sample_places(size).no_duplicates(),
{
    let places = digest::sample_places(size);
    if size > 1_048_576 {
        assert(places[1] == size / 2);
        if size / 2 != size - 1_048_576 {
            assert(places[2] == (size - 1_048_576) as u64);
        }
    }
}

proof fn lemma_pieces_of_length(pieces: Seq<digest::FilePiece>, n: int, other: Seq<digest::FilePiece>)
    requires
        0 <= n <= pieces.len() == other.len(),
        forall|k: int|
            #![trigger pieces[k]]
            0 <= k < n ==> pieces[k].position == other[k].position && pieces[k].bytes@.len()
                == other[k].bytes@.len(),
    ensures
        digest::piece_bytes(pieces, n).len() == digest::piece_bytes(other, n).len(),
        digest::piece_bytes(pieces, n) == digest::piece_bytes(other, n) ==> forall|k: int|
            #![trigger pieces[k]]
            0 <= k < n ==> pieces[k].bytes@ == other[k].bytes@,
    decreases n,
{
    if n > 0 {
        lemma_pieces_of_length(pieces, n - 1, other);
        let a = digest::piece_bytes(pieces, n);
        let b = digest::piece_bytes(other, n);
        let head_a = digest::piece_bytes(pieces, n - 1);
        let head_b = digest::piece_bytes(other, n - 1);
        let place = vstd::bytes::spec_u64_to_le_bytes(pieces[n - 1].position);
        let own = pieces[n - 1].bytes@;
        let theirs = other[n - 1].bytes@;
        assert(a =~= head_a + place + own);
        assert(b =~= head_b + place + theirs);
        if a == b {
            assert(head_a =~= a.take(head_a.len() as int));
            assert(head_b =~= b.take(head_b.len() as int));
            assert(own =~= a.skip(a.len() - own.len()));
            assert(theirs =~= b.skip(b.len() - theirs.len()));
        }
    }
}

/// Files whose pieces differ in a byte are hashed from different bytes.
pub proof fn law_different_pieces_are_hashed_apart(
    one: Seq<digest::FilePiece>,
    other: Seq<digest::FilePiece>,
    k: int,
)
    requires
        one.len() == other.len(),
        forall|i: int|
            #![trigger one[i]]
            0 <= i < one.len() ==> one[i].position == other[i].position && one[i].bytes@.len()
                == other[i].bytes@.len(),
        0 <= k < one.len(),
        one[k].bytes@ != other[k].bytes@,
    ensures
        digest::piece_bytes(one, one.len() as int) != digest::piece_bytes(
            other,
            other.len() as int,
        ),
{
    lemma_pieces_of_length(one, one.len() as int, other);
    assert(one[k] == one[k]);
}

/// A hash is written with two digits for each of its bytes, from which the byte can be read.
pub proof fn law_hash_texts_tell_their_bytes(bytes: Seq<u8>, i: int)
    requires
        0 <= i < bytes.len(),
    ensures
        digest::hex_text(bytes).len() == 2 * bytes.len(),
        16 * hashes::hex_digit(digest::hex_text(bytes)[2 * i]) + hashes::hex_digit(
            digest::hex_text(bytes)[2 * i + 1],
        ) == bytes[i],
{
    let t = digest::hex_text(bytes);
    assert(t[2 * i] == hashes::hex_char(bytes[i] as int / 16)) by {
        assert((2 * i) / 2 == i && (2 * i) % 2 == 0);
    }
    assert(t[2 * i + 1] == hashes::hex_char(bytes[i] as int % 16)) by {
        assert((2 * i + 1) / 2 == i && (2 * i + 1) % 2 == 1);
    }
}

/// The name under which frames are kept changes with the content of the video, its size, its last
/// change, its length and the number of frames: what it is made from does.
pub proof fn law_kept_frames_are_named_for_their_video(
    one: (Seq<char>, Option<Seq<char>>, u64, i64, Seq<char>, int),
    size_bytes: u64,
    configured: int,
)
    requires
        8 <= one.5 <= 512,
        8 <= configured <= 512,
    ensures
        size_bytes != one.2 ==> digest::frame_cache_bytes(
            one.0,
            one.1,
            one.2,
            one.3,
            one.4,
            one.5,
        ) != digest::frame_cache_bytes(one.0, one.1, size_bytes, one.3, one.4, one.5),
        configured != one.5 ==> digest::frame_cache_bytes(
            one.0,
            one.1,
            one.2,
            one.3,
            one.4,
            one.5,
        ) != digest::frame_cache_bytes(one.0, one.1, one.2, one.3, one.4, configured),
{
    vstd::bytes::lemma_auto_spec_u64_to_from_le_bytes();
    let a = digest::frame_cache_bytes(one.0, one.1, one.2, one.3, one.4, one.5);
    let head = digest::text_bytes("ai-frame-cache-v1"@) + digest::text_bytes(
        digest::content_name(one.1, one.0),
    );
    let size = vstd::bytes::spec_u64_to_le_bytes(one.2);
    let time = vstd::bytes::spec_u64_to_le_bytes(digest::as_bits(one.3));
    let length = digest::text_bytes(one.4);
    let count = vstd::bytes::spec_u64_to_le_bytes(one.5 as u64);
    assert(a =~= head + size + (time + length + count));
    if size_bytes != one.2 {
        let b = digest::frame_cache_bytes(one.0, one.1, size_bytes, one.3, one.4, one.5);
        let other = vstd::bytes::spec_u64_to_le_bytes(size_bytes);
        assert(b =~= head + other + (time + length + count));
        if a == b {
            assert(size =~= a.subrange(head.len() as int, (head.len() + 8) as int));
            assert(other =~= b.subrange(head.len() as int, (head.len() + 8) as int));
            assert(vstd::bytes::spec_u64_from_le_bytes(size) == one.2);
            assert(vstd::bytes::spec_u64_from_le_bytes(other) == size_bytes);
        }
    }
    if configured != one.5 {
        let b = digest::frame_cache_bytes(one.0, one.1, one.2, one.3, one.4, configured);
        let other = vstd::bytes::spec_u64_to_le_bytes(configured as u64);
        let front = head + size + time + length;
        assert(a =~= front + count);
        assert(b =~= front + other);
        if a == b {
            assert(count =~= a.skip(front.len() as int));
            assert(other =~= b.skip(front.len() as int));
            assert(vstd::bytes::spec_u64_from_le_bytes(count) == one.5 as u64);
            assert(vstd::bytes::spec_u64_from_le_bytes(other) == configured as u64);
        }
    }
}

/// A path in the long form of the system is shown without the mark of that form, and is the long form
/// of what is shown.
pub proof fn law_long_paths_are_shown_short(path: Seq<char>)
    requires
        path.len() >= 3,
        path[0] != '\\' && path[0] != '?',
        path[1] == ':',
        !path.contains('/'),
    ensures
        media::shown_path(Host::Windows, media::long_path(Host::Windows, path, true)) == path,
        media::long_path(Host::Windows, path, true).len() == path.len() + 4,
        media::long_path(Host::Windows, path, false) == path,
        media::long_path(Host::Other, path, true) == path,
        media::shown_path(Host::Other, path) == path,
{
    reveal_strlit("\\\\?\\UNC\\");
    reveal_strlit("\\\\?\\");
    reveal_strlit("\\\\");
    let long = "\\\\?\\"@ + path;
    assert(!("\\\\?\\"@.is_prefix_of(path))) by {
        if "\\\\?\\"@.is_prefix_of(path) {
            assert("\\\\?\\"@[0] == path[0]);
        }
    }
    assert(!("\\\\"@.is_prefix_of(path))) by {
        if "\\\\"@.is_prefix_of(path) {
            assert("\\\\"@[0] == path[0]);
        }
    }
    assert(media::long_path(Host::Windows, path, true) == long);
    let own = text::replaced(long, '/', '\\');
    assert(own =~= long) by {
        assert forall|k: int| 0 <= k < long.len() implies #[trigger] own[k] == long[k] by {
            if k >= 4 {
                assert(long[k] == path[k - 4]);
                assert(path.contains(path[k - 4]));
            }
        }
    }
    assert(!("\\\\?\\UNC\\"@.is_prefix_of(own))) by {
        if "\\\\?\\UNC\\"@.is_prefix_of(own) {
            assert("\\\\?\\UNC\\"@[5] == own[5]);
            assert(own[5] == path[1]);
        }
    }
    assert("\\\\?\\"@ =~= own.subrange(0, 4));
    assert(own.skip(4) =~= path);
}

/// Imported frames are taken exactly where every position has a frame, every frame is whole, and at
/// least three quarters of what is expected came.
pub proof fn law_whole_frame_sets_are_imported(positions: int, frames: Seq<Vec<u8>>, expected: int)
    requires
        expected >= 0,
    ensures
        media::import_trouble(positions, frames, expected) is None ==> {
            &&& positions == frames.len()
            &&& positions > 0
            &&& forall|k: int| 0 <= k < frames.len() ==> (#[trigger] frames[k])@.len() >= 224 * 224 * 3
            &&& 4 * frames.len() >= 3 * expected
        },
        positions > 0 && positions == frames.len() && (forall|k: int|
            0 <= k < frames.len() ==> (#[trigger] frames[k])@.len() == 224 * 224 * 3)
            && frames.len() >= expected ==> media::import_trouble(positions, frames, expected)
            is None,
        media::import_trouble(positions, frames, expected) is None && expected >= 1
            ==> frames.len() >= 1,
{
    assert(224 * 224 * 3 == 150_528);
}

/// A video counts as scanned in full exactly where it was scanned well, its size, length and content
/// are known, and the hashes and pictures that are expected of it are there.
pub proof fn law_fully_scanned_videos_lack_nothing(
    video: VideoRecord,
    sample_hash_count: usize,
    found: Seq<bool>,
)
    ensures
        media::fully_scanned(video, sample_hash_count, found) ==> {
            &&& video.scan_status@ == "ok"@
            &&& video.size_bytes > 0
            &&& video.duration_seconds is Some && video.partial_hash is Some
            &&& video.sample_hashes@.len() >= 1
            &&& video.preview_images@.len() > 0
            &&& forall|k: int| 0 <= k < video.preview_images@.len() ==> #[trigger] found[k]
        },
        video.scan_status@ == "ok"@ && video.size_bytes > 0 && video.duration_seconds is Some
            && video.partial_hash is Some && video.sample_hashes@.len() >= 20
            && video.preview_images@.len() > 0 && (forall|k: int|
            0 <= k < video.preview_images@.len() ==> #[trigger] found[k])
            ==> media::fully_scanned(video, sample_hash_count, found),
{
}

/// At least one worker is started, and never more than there are jobs or than is allowed.
pub proof fn law_workers_are_bounded(asked: usize, limit: int, jobs: int)
    requires
        limit >= 1,
    ensures
        1 <= local_preprocess::workers(asked, limit, jobs) <= limit,
        jobs >= 1 ==> local_preprocess::workers(asked, limit, jobs) <= jobs,
        1 <= asked <= limit && asked <= jobs ==> local_preprocess::workers(asked, limit, jobs)
            == asked,
{
}

/// Of the messages the last eight are kept, in their order.
pub proof fn law_last_eight_messages_are_kept(lines: Seq<Seq<char>>, k: int)
    ensures
        local_preprocess::last_eight(lines).len() <= 8,
        lines.len() <= 8 ==> local_preprocess::last_eight(lines) == lines,
        lines.len() > 8 ==> local_preprocess::last_eight(lines).len() == 8,
        0 <= k < local_preprocess::last_eight(lines).len()
            ==> local_preprocess::last_eight(lines)[local_preprocess::last_eight(lines).len() - 1
            - k] == lines[lines.len() - 1 - k],
{
}

/// A folder of a run is told by its name: the mark, followed by at least ten digits and nothing else.
pub proof fn law_run_folders_are_told_by_name(digits: Seq<char>)
    ensures
        local_preprocess::names_run("run-"@ + digits) <==> digits.len() >= 10 && forall|k: int|
            0 <= k < digits.len() ==> '0' <= #[trigger] digits[k] <= '9',
        !local_preprocess::names_run(Seq::empty()),
{
    reveal_strlit("run-");
    let name = "run-"@ + digits;
    assert("run-"@ =~= name.subrange(0, 4));
    assert(name.skip(4) =~= digits);
}

/// The copy of a video is named for its id and keeps its extension, so copies of different videos do
/// not meet.
pub proof fn law_copies_are_named_for_their_video(
    one: i64,
    other: i64,
    extension: Seq<char>,
)
    requires
        one != other,
    ensures
        local_preprocess::copy_name(Some(one), extension) != local_preprocess::copy_name(
            Some(other),
            extension,
        ),
        text::without_leading(text::trimmed(extension), '.').len() > 0 ==> text::has_suffix(
            local_preprocess::copy_name(Some(one), extension),
            text::without_leading(text::trimmed(extension), '.'),
        ),
{
    let kind = text::without_leading(text::trimmed(extension), '.');
    let a = text::signed_decimal(one as int);
    let b = text::signed_decimal(other as int);
    crate::text_laws::law_numbers_are_written_apart(one as int, other as int);
    if kind.len() == 0 {
        lemma_middle("video-"@, a, b, ".bin"@);
    } else {
        lemma_joined_end("video-"@ + a, "."@, kind);
        lemma_joined_end("video-"@ + b, "."@, kind);
        lemma_middle("video-"@, a, b, "."@ + kind);
    }
}

proof fn lemma_middle(start: Seq<char>, a: Seq<char>, b: Seq<char>, tail: Seq<char>)
    requires
        a != b,
    ensures
        start + a + tail != start + b + tail,
{
    let x = start + a + tail;
    let y = start + b + tail;
    if x == y {
        assert(x.len() == y.len());
        assert(a =~= x.subrange(start.len() as int, (start.len() + a.len()) as int));
        assert(b =~= y.subrange(start.len() as int, (start.len() + a.len()) as int));
    }
}

proof fn lemma_joined_end(start: Seq<char>, dot: Seq<char>, kind: Seq<char>)
    ensures
        start + dot + kind == start + (dot + kind),
        text::has_suffix(start + dot + kind, kind),
{
    let x = start + dot + kind;
    assert(x =~= start + (dot + kind));
    assert(x.skip(x.len() - kind.len()) =~= kind);
}

/// Times before the start of counting are told apart from those after it: what is hashed of a time
/// tells the time.
pub proof fn law_times_are_hashed_apart(one: i64, other: i64)
    requires
        one != other,
    ensures
        digest::as_bits(one) != digest::as_bits(other),
        one >= 0 ==> digest::as_bits(one) == one,
{
}

/// The numbers of a frame are read from four bytes each, the lowest first: what was written is read
/// back.
pub proof fn law_written_values_are_read_back(blob: Seq<u8>, k: int, value: u32)
    requires
        0 <= k,
        4 * k + 4 <= blob.len(),
        blob.subrange(4 * k, 4 * k + 4) == vstd::bytes::spec_u32_to_le_bytes(value),
    ensures
        digest::blob_value(blob, k) == value,
{
    vstd::bytes::lemma_auto_spec_u32_to_from_le_bytes();
    let bytes = vstd::bytes::spec_u32_to_le_bytes(value);
    assert(bytes.len() == 4);
    assert(blob.subrange(4 * k, 4 * k + 4) =~= bytes);
}

/// The version of a tool is the first line that it prints.
pub proof fn law_first_line_tells_the_version(s: Seq<char>)
    ensures
        media::first_line(s) is None <==> text::lines_of(s).len() == 0,
        media::first_line(s) matches Some(line) ==> line == text::lines_of(s)[0],
{
}

} // verus!
