//! Recording scans and videos in the index, and taking them out again.
use crate::index;
use crate::index::{add_deleted_rows, DeletedVideoRows, SessionLink, VideoIndex};
use crate::models;
use crate::models::{VideoData, VideoRecord};
use crate::rows;
use crate::rows::has_id;
use crate::text;
use crate::text::{chars_of, same_text, string_of};
use vstd::prelude::*;
use vstd::string::*;

verus! {

/// Whether two texts are equal up to the case of their ASCII letters.
pub open spec fn same_folded(left: Seq<char>, right: Seq<char>) -> bool {
    text::ascii_lowered(left) == text::ascii_lowered(right)
}

/// An optional text that is there and not empty.
pub open spec fn nonempty(value: Option<Seq<char>>) -> Option<Seq<char>> {
    match value {
        Some(t) => if t.len() > 0 {
            Some(t)
        } else {
            None
        },
        None => None,
    }
}

/// Whether what the model found of a video no longer holds, once the file is seen again: the
/// size changed, or the content hash did, or, where one of the hashes is missing, the time did.
pub open spec fn content_changed(known: VideoData, seen: VideoData) -> bool {
    if known.size_bytes != seen.size_bytes {
        true
    } else {
        match (nonempty(known.partial_hash), nonempty(seen.partial_hash)) {
            (Some(a), Some(b)) => a != b,
            _ => known.modified_unix_ms != seen.modified_unix_ms,
        }
    }
}

/// Whether an optional text is there and not empty.
fn is_present(value: &Option<String>) -> (r: bool)
    ensures
        r == (nonempty(models::opt_text(*value)) is Some),
{
    match value {
        Some(t) => chars_of(t.as_str()).len() > 0,
        None => false,
    }
}

/// Whether two optional texts are equal, an empty one counting as missing.
fn same_optional(left: &Option<String>, right: &Option<String>) -> (r: bool)
    ensures
        r == (nonempty(models::opt_text(*left)) == nonempty(models::opt_text(*right))),
{
    let l = is_present(left);
    let r = is_present(right);
    if l != r {
        return false;
    }
    if !l {
        return true;
    }
    match (left, right) {
        (Some(a), Some(b)) => same_text(a.as_str(), b.as_str()),
        _ => true,
    }
}

/// Whether what the model found of a video no longer holds.
pub fn should_clear_ai(known: &VideoRecord, seen: &VideoRecord) -> (r: bool)
    ensures
        r == content_changed(known@, seen@),
{
    if known.size_bytes != seen.size_bytes {
        return true;
    }
    if is_present(&known.partial_hash) && is_present(&seen.partial_hash) {
        !same_optional(&known.partial_hash, &seen.partial_hash)
    } else {
        known.modified_unix_ms != seen.modified_unix_ms
    }
}

/// A video as it is recorded under an id.
pub open spec fn recorded(video: VideoData, id: i64) -> VideoData {
    VideoData { id: Some(id), ..video }
}

/// Whether the video at `i` is the one with exactly this path.
pub open spec fn path_at(videos: Seq<VideoRecord>, path: Seq<char>, i: int) -> bool {
    0 <= i < videos.len() && videos[i].path@ == path
}

/// Whether the video at `i` is the newest one whose path is equal up to ASCII case.
pub open spec fn newest_at(videos: Seq<VideoRecord>, path: Seq<char>, i: int) -> bool {
    &&& 0 <= i < videos.len()
    &&& same_folded(videos[i].path@, path)
    &&& forall|k: int|
        #![trigger videos[k]]
        0 <= k < videos.len() && same_folded(videos[k].path@, path) ==> videos[k].id->0
            <= videos[i].id->0
}

/// Whether no video has a path that is equal up to ASCII case.
pub open spec fn path_free(videos: Seq<VideoRecord>, path: Seq<char>) -> bool {
    forall|k: int|
        #![trigger videos[k]]
        0 <= k < videos.len() ==> !same_folded(videos[k].path@, path)
}

/// Whether two texts are equal up to the case of their ASCII letters.
fn equal_folded(left: &str, right: &str) -> (r: bool)
    ensures
        r == same_folded(left@, right@),
{
    text::eq_ignore_ascii_case(left, right)
}

/// Whether a text says that a scan went well.
fn is_ok(status: &String) -> (r: bool)
    ensures
        r == (status@ == "ok"@),
{
    same_text(status.as_str(), "ok")
}

/// Where a file lies now: its path, and the name and the folder that the path says.
#[derive(Debug, Clone)]
pub struct FilePlace {
    pub path: String,
    pub file_name: String,
    pub parent_path: String,
}

/// A video that was moved to a place.
pub open spec fn moved(video: VideoData, place: FilePlace, now: i64) -> VideoData {
    VideoData {
        path: place.path@,
        file_name: place.file_name@,
        parent_path: place.parent_path@,
        scanned_at_unix_ms: now,
        ..video
    }
}

/// What is known of a recorded video beside its row, when it is held against a file: whether its
/// own file is there, and whether its length is that of the file to within a second.
#[derive(Debug, Clone, Copy, PartialEq, Eq, Structural)]
pub struct RowProbe {
    pub path_exists: bool,
    pub duration_close: bool,
}

/// Whether two videos hold the same content, by size, kind, hash and length.
pub open spec fn same_identity(a: VideoData, b: VideoData, duration_close: bool) -> bool {
    &&& a.size_bytes == b.size_bytes
    &&& same_folded(a.extension, b.extension)
    &&& nonempty(a.partial_hash) == nonempty(b.partial_hash)
    &&& a.duration_seconds is Some && b.duration_seconds is Some && duration_close
}

/// Whether two videos hold the same content, by size, kind, hash and length.
pub fn same_content_identity(left: &VideoRecord, right: &VideoRecord, duration_close: bool) -> (r:
    bool)
    ensures
        r == same_identity(left@, right@, duration_close),
{
    left.size_bytes == right.size_bytes && equal_folded(
        left.extension.as_str(),
        right.extension.as_str(),
    ) && same_optional(&left.partial_hash, &right.partial_hash) && left.duration_seconds.is_some()
        && right.duration_seconds.is_some() && duration_close
}

/// The runs of characters between backslashes, empty ones among them.
pub open spec fn pieces(s: Seq<char>) -> Seq<Seq<char>>
    decreases s.len(),
{
    if s.len() == 0 {
        seq![Seq::empty()]
    } else {
        let rest = pieces(s.drop_last());
        if s.last() == '\\' {
            rest.push(Seq::empty())
        } else {
            rest.update(rest.len() - 1, rest.last().push(s.last()))
        }
    }
}

/// The names between backslashes.
pub open spec fn segments(s: Seq<char>) -> Seq<Seq<char>> {
    rows::having(pieces(s), |p: Seq<char>| p.len() > 0)
}

/// Cuts a text into the names between backslashes.
pub fn path_segments(path: &str) -> (r: Vec<String>)
    ensures
        models::texts(r@) == segments(path@),
{
    let chars = chars_of(path);
    let ghost nonempty_piece = |p: Seq<char>| p.len() > 0;
    let mut done: Vec<String> = Vec::new();
    let mut current: Vec<char> = Vec::new();
    let mut i: usize = 0;
    assert(chars@.take(0) =~= Seq::empty());
    assert(models::texts(done@) =~= rows::having(pieces(chars@.take(0)).drop_last(), nonempty_piece));
    while i < chars.len()
        invariant
            i <= chars@.len(),
            nonempty_piece == (|p: Seq<char>| p.len() > 0),
            pieces(chars@.take(i as int)).len() > 0,
            current@ == pieces(chars@.take(i as int)).last(),
            models::texts(done@) == rows::having(
                pieces(chars@.take(i as int)).drop_last(),
                nonempty_piece,
            ),
        decreases chars@.len() - i,
    {
        let ghost before = pieces(chars@.take(i as int));
        let ghost after = pieces(chars@.take(i + 1));
        assert(chars@.take(i + 1).drop_last() =~= chars@.take(i as int));
        let c = chars[i];
        if c == '\\' {
            assert(after.drop_last() =~= before);
            if current.len() > 0 {
                let ghost old_done = done@;
                let piece = string_of(&current);
                done.push(piece);
                assert(models::texts(done@) =~= models::texts(old_done).push(current@));
            }
            current = Vec::new();
            assert(current@ =~= after.last());
        } else {
            current.push(c);
            assert(after.drop_last() =~= before.drop_last());
        }
        i += 1;
    }
    assert(chars@.take(i as int) =~= chars@);
    if current.len() > 0 {
        let ghost old_done = done@;
        let piece = string_of(&current);
        done.push(piece);
        assert(models::texts(done@) =~= models::texts(old_done).push(current@));
    }
    done
}

/// The share that the first two names of a path on a server make.
pub open spec fn share_of(rest: Seq<char>) -> Option<Seq<char>> {
    let names = segments(rest);
    if names.len() >= 2 {
        Some("\\\\"@ + names[0] + "\\"@ + names[1])
    } else {
        None
    }
}

/// The drive that a path names, with its backslash.
pub open spec fn drive_of(path: Seq<char>) -> Option<Seq<char>> {
    if path.len() >= 3 && (path[0] as u32) < 128 && path[1] == ':' && path[2] == '\\' {
        Some(path.take(3))
    } else {
        None
    }
}

/// The disk or share on which a path lies, in the form by which paths are compared.
pub open spec fn storage_root(path: Seq<char>) -> Option<Seq<char>> {
    let form = text::lowercase(text::without_trailing(text::replaced(path, '/', '\\'), '\\'));
    if "\\\\?\\unc\\"@.is_prefix_of(form) {
        share_of(form.skip("\\\\?\\unc\\"@.len() as int))
    } else if "\\\\"@.is_prefix_of(form) {
        share_of(form.skip("\\\\"@.len() as int))
    } else {
        drive_of(form)
    }
}

/// The share that the first two names of a path on a server make.
fn share_text(rest: &str) -> (r: Option<String>)
    ensures
        models::opt_text(r) == share_of(rest@),
{
    let names = path_segments(rest);
    assert(models::texts(names@).len() == names@.len());
    if names.len() < 2 {
        return None;
    }
    let mut out = "\\\\".to_owned();
    out.append(names[0].as_str());
    out.append("\\");
    out.append(names[1].as_str());
    assert(names@[0]@ == segments(rest@)[0]);
    assert(names@[1]@ == segments(rest@)[1]);
    Some(out)
}

/// The drive that a path names, with its backslash.
fn drive_text(path: &str) -> (r: Option<String>)
    ensures
        models::opt_text(r) == drive_of(path@),
{
    let chars = chars_of(path);
    if chars.len() >= 3 && (chars[0] as u32) < 128 && chars[1] == ':' && chars[2] == '\\' {
        let out = text::string_of_range(&chars, 0, 3);
        assert(out@ =~= path@.take(3));
        Some(out)
    } else {
        None
    }
}

/// The disk or share on which a path lies, in the form by which paths are compared.
pub fn storage_root_key(path: &str) -> (r: Option<String>)
    ensures
        models::opt_text(r) == storage_root(path@),
{
    let slashes = text::replace_char(path, '/', '\\');
    let form = text::trim_end_char(slashes.as_str(), '\\').to_lowercase();
    if let Some(rest) = text::strip_prefix(form.as_str(), "\\\\?\\unc\\") {
        return share_text(rest.as_str());
    }
    if let Some(rest) = text::strip_prefix(form.as_str(), "\\\\") {
        return share_text(rest.as_str());
    }
    drive_text(form.as_str())
}

/// Whether two paths lie on one known disk or share.
pub open spec fn on_one_root(left: Seq<char>, right: Seq<char>) -> bool {
    storage_root(left) is Some && storage_root(left) == storage_root(right)
}

/// Whether two paths lie on one known disk or share.
pub fn same_storage_root(left: &str, right: &str) -> (r: bool)
    ensures
        r == on_one_root(left@, right@),
{
    match (storage_root_key(left), storage_root_key(right)) {
        (Some(a), Some(b)) => same_text(a.as_str(), b.as_str()),
        _ => false,
    }
}

/// What has to be reachable for a source to count as removed rather than out of reach.
#[derive(Debug, Clone)]
pub enum SourceRoot {
    /// The share or drive with this path.
    At(String),
    /// The folder above the source.
    Parent,
    /// A path on a server without a share: never reachable.
    Nowhere,
}

/// What has to be reachable for a source to count as removed.
pub open spec fn source_root_is(path: Seq<char>, root: SourceRoot) -> bool {
    let form = text::replaced(path, '/', '\\');
    if "\\\\"@.is_prefix_of(form) {
        match share_of(form.skip("\\\\"@.len() as int)) {
            Some(share) => root matches SourceRoot::At(at) && at@ == share,
            None => root is Nowhere,
        }
    } else {
        match drive_of(form) {
            Some(drive) => root matches SourceRoot::At(at) && at@ == drive,
            None => root is Parent,
        }
    }
}

/// What has to be reachable for a source to count as removed.
pub fn source_root(path: &str) -> (r: SourceRoot)
    ensures
        source_root_is(path@, r),
{
    let form = text::replace_char(path, '/', '\\');
    if let Some(rest) = text::strip_prefix(form.as_str(), "\\\\") {
        return match share_text(rest.as_str()) {
            Some(share) => SourceRoot::At(share),
            None => SourceRoot::Nowhere,
        };
    }
    match drive_text(form.as_str()) {
        Some(drive) => SourceRoot::At(drive),
        None => SourceRoot::Parent,
    }
}

/// An index whose videos were exchanged for others with at least the same ids, and whose other
/// rows stayed, is still well formed.
proof fn lemma_other_videos_keep_wf(before: VideoIndex, after: VideoIndex)
    requires
        before.wf(),
        index::videos_ok(after.videos@, after.next_video_id),
        forall|id: i64|
            index::has_video_id(before.videos@, id) ==> #[trigger] index::has_video_id(
                after.videos@,
                id,
            ),
        after.links@ == before.links@,
        index::same_sessions(before, after),
        index::same_models(before, after),
        index::same_ai_rows(before, after),
    ensures
        after.wf(),
{
    assert forall|k: int| 0 <= k < after.links@.len() implies index::has_session_id(
        after.sessions@,
        (#[trigger] after.links@[k]).session_id,
    ) && index::has_video_id(after.videos@, after.links@[k].video_id) by {
        assert(index::has_video_id(before.videos@, before.links@[k].video_id));
    }
    assert forall|k: int| 0 <= k < after.frame_embeddings@.len() implies index::has_video_id(
        after.videos@,
        (#[trigger] after.frame_embeddings@[k]).video_id,
    ) && index::has_model_id(after.models@, after.frame_embeddings@[k].model_id@) by {
        assert(index::has_video_id(before.videos@, before.frame_embeddings@[k].video_id));
    }
    assert forall|k: int| 0 <= k < after.pair_scores@.len() implies {
        &&& (#[trigger] after.pair_scores@[k]).video_a_id < after.pair_scores@[k].video_b_id
        &&& index::has_video_id(after.videos@, after.pair_scores@[k].video_a_id)
        &&& index::has_video_id(after.videos@, after.pair_scores@[k].video_b_id)
        &&& index::has_model_id(after.models@, after.pair_scores@[k].model_id@)
    } by {
        assert(index::has_video_id(before.videos@, before.pair_scores@[k].video_a_id));
        assert(index::has_video_id(before.videos@, before.pair_scores@[k].video_b_id));
    }
    assert forall|k: int| 0 <= k < after.match_edges@.len() implies {
        &&& (#[trigger] after.match_edges@[k]).video_a_id < after.match_edges@[k].video_b_id
        &&& index::has_video_id(after.videos@, after.match_edges@[k].video_a_id)
        &&& index::has_video_id(after.videos@, after.match_edges@[k].video_b_id)
        &&& index::has_model_id(after.models@, after.match_edges@[k].model_id@)
    } by {
        assert(index::has_video_id(before.videos@, before.match_edges@[k].video_a_id));
        assert(index::has_video_id(before.videos@, before.match_edges@[k].video_b_id));
    }
}

/// Exchanging one row for one with the same id keeps all ids.
proof fn lemma_update_keeps_ids(videos: Seq<VideoRecord>, i: int, row: VideoRecord)
    requires
        0 <= i < videos.len(),
        row.id == videos[i].id,
    ensures
        forall|id: i64|
            index::has_video_id(videos, id) ==> #[trigger] index::has_video_id(
                videos.update(i, row),
                id,
            ),
{
    let after = videos.update(i, row);
    assert forall|id: i64| index::has_video_id(videos, id) implies #[trigger] index::has_video_id(
        after,
        id,
    ) by {
        let k = choose|k: int| 0 <= k < videos.len() && (#[trigger] videos[k]).id == Some(id);
        assert(after[k].id == Some(id));
    }
}

/// Whether `after` is `before` with a file recorded under an id: the row with exactly its path is
/// written anew, and what the model found of it goes where the content changed; a new path gets a
/// new row.
pub open spec fn upserted(before: VideoIndex, after: VideoIndex, video: VideoData, id: i64) -> bool {
    &&& after.links@ == before.links@
    &&& index::same_sessions(before, after)
    &&& index::same_models(before, after)
    &&& if exists|i: int| path_at(before.videos@, video.path, i) {
        exists|i: int| #[trigger]
            path_at(before.videos@, video.path, i) && {
                &&& id == before.videos@[i].id->0
                &&& after.next_video_id == before.next_video_id
                &&& after.videos@.len() == before.videos@.len()
                &&& after.videos@[i]@ == recorded(video, id)
                &&& forall|k: int|
                    0 <= k < before.videos@.len() && k != i ==> #[trigger] after.videos@[k]
                        == before.videos@[k]
                &&& if content_changed(before.videos@[i]@, video) {
                    index::ai_rows_dropped(before, after, seq![id])
                } else {
                    index::same_ai_rows(before, after)
                }
            }
    } else {
        &&& id == before.next_video_id
        &&& after.next_video_id == before.next_video_id + 1
        &&& after.videos@.len() == before.videos@.len() + 1
        &&& after.videos@.last()@ == recorded(video, id)
        &&& after.videos@.drop_last() == before.videos@
        &&& index::same_ai_rows(before, after)
    }
}

/// Whether a video is another one whose path is equal up to ASCII case.
pub open spec fn is_other(video: VideoRecord, id: i64, path: Seq<char>) -> bool {
    video.id != Some(id) && same_folded(video.path@, path)
}

/// Whether a video belongs to some scan.
pub open spec fn is_linked(links: Seq<SessionLink>, id: i64) -> bool {
    exists|k: int| 0 <= k < links.len() && (#[trigger] links[k]).video_id == id
}

/// The first video, from position `from` on, that is another one with the path; -1 without one.
pub open spec fn first_other(videos: Seq<VideoRecord>, id: i64, path: Seq<char>, from: int) -> int
    decreases videos.len() - from,
{
    if from >= videos.len() || from < 0 {
        -1
    } else if is_other(videos[from], id, path) {
        from
    } else {
        first_other(videos, id, path, from + 1)
    }
}

/// The ids of the other videos with the path that belong to no scan and are not in `except`, of
/// the first `n` videos.
pub open spec fn orphans_at(
    videos: Seq<VideoRecord>,
    links: Seq<SessionLink>,
    id: i64,
    path: Seq<char>,
    except: Seq<i64>,
    n: int,
) -> Seq<i64>
    decreases n,
{
    if n <= 0 {
        Seq::empty()
    } else {
        let rest = orphans_at(videos, links, id, path, except, n - 1);
        let video = videos[n - 1];
        if video.id is Some && is_other(video, id, path) && !is_linked(links, video.id->0)
            && !except.contains(video.id->0) {
            rest.push(video.id->0)
        } else {
            rest
        }
    }
}

/// The message that a path is taken.
pub open spec fn owned_message(path: Seq<char>, owner: i64) -> Seq<char> {
    "cannot move video index to "@ + path + "; path is already owned by video id "@
        + text::signed_decimal(owner as int)
}

/// The message that a video is not in the index.
pub open spec fn not_found_message(id: i64) -> Seq<char> {
    "video id "@ + text::signed_decimal(id as int) + " was not found"@
}

/// Writes that a path is taken.
fn owned_text(path: &str, owner: i64) -> (r: String)
    ensures
        r@ == owned_message(path@, owner),
{
    let mut out = "cannot move video index to ".to_owned();
    out.append(path);
    out.append("; path is already owned by video id ");
    out.append(text::signed_decimal_text(owner).as_str());
    out
}

/// Writes that a video is not in the index.
fn not_found_text(id: i64) -> (r: String)
    ensures
        r@ == not_found_message(id),
{
    let mut out = "video id ".to_owned();
    out.append(text::signed_decimal_text(id).as_str());
    out.append(" was not found");
    out
}

/// Whether `after` is `before` with one video moved to a place.
pub open spec fn one_moved(
    before: VideoIndex,
    after: VideoIndex,
    id: i64,
    place: FilePlace,
    now: i64,
) -> bool {
    &&& after.links@ == before.links@
    &&& index::same_sessions(before, after)
    &&& index::same_models(before, after)
    &&& index::same_ai_rows(before, after)
    &&& after.next_video_id == before.next_video_id
    &&& after.videos@.len() == before.videos@.len()
    &&& forall|k: int|
        #![trigger after.videos@[k]]
        0 <= k < before.videos@.len() ==> if before.videos@[k].id == Some(id) {
            after.videos@[k]@ == moved(before.videos@[k]@, place, now)
        } else {
            after.videos@[k] == before.videos@[k]
        }
}

impl VideoIndex {
    /// The position of the video with an id.
    pub fn position_of(&self, id: i64) -> (r: Option<usize>)
        ensures
            r is Some == index::has_video_id(self.videos@, id),
            r matches Some(i) ==> i < self.videos@.len() && self.videos@[i as int].id == Some(id),
    {
        let mut i: usize = 0;
        while i < self.videos.len()
            invariant
                i <= self.videos@.len(),
                forall|k: int| 0 <= k < i ==> (#[trigger] self.videos@[k]).id != Some(id),
            decreases self.videos@.len() - i,
        {
            if let Some(own) = self.videos[i].id {
                if own == id {
                    assert(self.videos@[i as int].id == Some(id));
                    return Some(i);
                }
            }
            i += 1;
        }
        None
    }

    /// The position of the newest video whose path is equal up to ASCII case.
    pub fn find_video_by_path(&self, path: &str) -> (r: Option<usize>)
        requires
            self.wf(),
        ensures
            r is None == path_free(self.videos@, path@),
            r matches Some(i) ==> newest_at(self.videos@, path@, i as int),
    {
        let mut found: Option<usize> = None;
        let mut i: usize = 0;
        while i < self.videos.len()
            invariant
                self.wf(),
                i <= self.videos@.len(),
                found matches Some(f) ==> {
                    &&& f < i
                    &&& same_folded(self.videos@[f as int].path@, path@)
                    &&& forall|k: int|
                        #![trigger self.videos@[k]]
                        0 <= k < i && same_folded(self.videos@[k].path@, path@)
                            ==> self.videos@[k].id->0 <= self.videos@[f as int].id->0
                },
                found is None ==> forall|k: int|
                    #![trigger self.videos@[k]]
                    0 <= k < i ==> !same_folded(self.videos@[k].path@, path@),
            decreases self.videos@.len() - i,
        {
            if equal_folded(self.videos[i].path.as_str(), path) {
                let newer = match found {
                    None => true,
                    Some(f) => match (self.videos[f].id, self.videos[i].id) {
                        (Some(a), Some(b)) => a < b,
                        _ => false,
                    },
                };
                assert(self.videos@[i as int].id is Some);
                if newer {
                    found = Some(i);
                }
            }
            i += 1;
        }
        found
    }

    /// The position of the video with exactly this path.
    fn find_exact(&self, path: &str) -> (r: Option<usize>)
        ensures
            r is Some == exists|i: int| path_at(self.videos@, path@, i),
            r matches Some(i) ==> path_at(self.videos@, path@, i as int),
    {
        let mut i: usize = 0;
        while i < self.videos.len()
            invariant
                i <= self.videos@.len(),
                forall|k: int| 0 <= k < i ==> !path_at(self.videos@, path@, k),
            decreases self.videos@.len() - i,
        {
            if same_text(self.videos[i].path.as_str(), path) {
                assert(path_at(self.videos@, path@, i as int));
                return Some(i);
            }
            i += 1;
        }
        None
    }

    /// Records a file, and gives the id of its row.
    pub fn upsert_video(&mut self, video: &VideoRecord) -> (r: i64)
        requires
            old(self).wf(),
            old(self).next_video_id < i64::MAX,
        ensures
            final(self).wf(),
            upserted(*old(self), *final(self), video@, r),
            index::has_video_id(final(self).videos@, r),
    {
        let ghost before = *self;
        match self.find_exact(video.path.as_str()) {
            Some(i) => {
                assert(self.videos@[i as int].id is Some);
                let id: i64 = match self.videos[i].id {
                    Some(id) => id,
                    None => 0,
                };
                let clear = should_clear_ai(&self.videos[i], video);
                let mut row = video.copy();
                row.id = Some(id);
                assert(row@ =~= recorded(video@, id));
                self.videos.set(i, row);
                proof {
                    assert(index::videos_ok(self.videos@, self.next_video_id)) by {
                        assert forall|a: int, b: int|
                            #![trigger self.videos@[a], self.videos@[b]]
                            0 <= a < b < self.videos@.len() implies self.videos@[a].id
                            != self.videos@[b].id && self.videos@[a].path@
                            != self.videos@[b].path@ by {
                            assert(before.videos@[a].id != before.videos@[b].id
                                && before.videos@[a].path@ != before.videos@[b].path@);
                        }
                        assert forall|a: int| 0 <= a < self.videos@.len() implies (
                        #[trigger] self.videos@[a]).id is Some && self.videos@[a].id->0
                            < self.next_video_id by {
                            assert(before.videos@[a].id is Some);
                        }
                    }
                    lemma_update_keeps_ids(before.videos@, i as int, row);
                    lemma_other_videos_keep_wf(before, *self);
                    assert(self.videos@[i as int].id == Some(id));
                }
                if clear {
                    let mut ids: Vec<i64> = Vec::new();
                    ids.push(id);
                    assert(ids@ =~= seq![id]);
                    self.drop_ai_rows(&ids);
                }
                assert(path_at(before.videos@, video.path@, i as int));
                id
            },
            None => {
                let id: i64 = self.next_video_id;
                let mut row = video.copy();
                row.id = Some(id);
                assert(row@ =~= recorded(video@, id));
                self.videos.push(row);
                self.next_video_id = id + 1;
                proof {
                    assert(self.videos@.drop_last() =~= before.videos@);
                    assert(index::videos_ok(self.videos@, self.next_video_id)) by {
                        assert forall|a: int, b: int|
                            #![trigger self.videos@[a], self.videos@[b]]
                            0 <= a < b < self.videos@.len() implies self.videos@[a].id
                            != self.videos@[b].id && self.videos@[a].path@
                            != self.videos@[b].path@ by {
                            assert(before.videos@[a].id->0 < before.next_video_id);
                            assert(!path_at(before.videos@, video.path@, a));
                            if b < before.videos@.len() {
                                assert(before.videos@[a].id != before.videos@[b].id);
                            }
                        }
                        assert forall|a: int| 0 <= a < self.videos@.len() implies (
                        #[trigger] self.videos@[a]).id is Some && self.videos@[a].id->0
                            < self.next_video_id by {
                            if a < before.videos@.len() {
                                assert(before.videos@[a].id is Some);
                            }
                        }
                    }
                    assert forall|k: i64|
                        index::has_video_id(before.videos@, k) implies #[trigger] index::has_video_id(
                        self.videos@,
                        k,
                    ) by {
                        let j = choose|j: int|
                            0 <= j < before.videos@.len() && (#[trigger] before.videos@[j]).id
                                == Some(k);
                        assert(self.videos@[j].id == Some(k));
                    }
                    lemma_other_videos_keep_wf(before, *self);
                    assert(self.videos@[before.videos@.len() as int].id == Some(id));
                }
                id
            },
        }
    }

    /// The ids of the other videos with a path that belong to no scan and are not in `except`.
    fn find_orphans_at(&self, id: i64, path: &str, except: &Vec<i64>) -> (r: Vec<i64>)
        ensures
            r@ == orphans_at(
                self.videos@,
                self.links@,
                id,
                path@,
                except@,
                self.videos@.len() as int,
            ),
    {
        let mut out: Vec<i64> = Vec::new();
        let mut i: usize = 0;
        while i < self.videos.len()
            invariant
                i <= self.videos@.len(),
                out@ == orphans_at(self.videos@, self.links@, id, path@, except@, i as int),
            decreases self.videos@.len() - i,
        {
            if let Some(own) = self.videos[i].id {
                if own != id && equal_folded(self.videos[i].path.as_str(), path) && !self.is_linked(
                    own,
                ) && !has_id(except, own) {
                    out.push(own);
                }
            }
            i += 1;
        }
        out
    }

    /// Whether a video belongs to some scan.
    pub fn is_linked(&self, id: i64) -> (r: bool)
        ensures
            r == is_linked(self.links@, id),
    {
        let mut i: usize = 0;
        while i < self.links.len()
            invariant
                i <= self.links@.len(),
                forall|k: int| 0 <= k < i ==> (#[trigger] self.links@[k]).video_id != id,
            decreases self.links@.len() - i,
        {
            if self.links[i].video_id == id {
                assert(self.links@[i as int].video_id == id);
                return true;
            }
            i += 1;
        }
        false
    }

    /// The first other video with a path.
    fn find_other(&self, id: i64, path: &str) -> (r: Option<usize>)
        ensures
            r is Some == (first_other(self.videos@, id, path@, 0) >= 0),
            r matches Some(i) ==> i == first_other(self.videos@, id, path@, 0) && i
                < self.videos@.len() && is_other(self.videos@[i as int], id, path@),
            r is None ==> forall|k: int|
                0 <= k < self.videos@.len() ==> !is_other(#[trigger] self.videos@[k], id, path@),
    {
        let mut i: usize = 0;
        while i < self.videos.len()
            invariant
                i <= self.videos@.len(),
                first_other(self.videos@, id, path@, i as int) == first_other(
                    self.videos@,
                    id,
                    path@,
                    0,
                ),
                forall|k: int| 0 <= k < i ==> !is_other(#[trigger] self.videos@[k], id, path@),
            decreases self.videos@.len() - i,
        {
            let same_id = match self.videos[i].id {
                Some(own) => own == id,
                None => false,
            };
            if !same_id && equal_folded(self.videos[i].path.as_str(), path) {
                return Some(i);
            }
            i += 1;
        }
        None
    }

    /// Writes the place of a video into its row.
    fn set_place(&mut self, i: usize, place: &FilePlace, now: i64)
        requires
            old(self).wf(),
            i < old(self).videos@.len(),
            forall|k: int|
                0 <= k < old(self).videos@.len() && k != i ==> (#[trigger] old(self).videos@[k]).path@ != place.path@,
        ensures
            final(self).wf(),
            one_moved(
                *old(self),
                *final(self),
                old(self).videos@[i as int].id->0,
                *place,
                now,
            ),
    {
        let ghost before = *self;
        let mut row = self.videos[i].copy();
        row.path = place.path.clone();
        row.file_name = place.file_name.clone();
        row.parent_path = place.parent_path.clone();
        row.scanned_at_unix_ms = now;
        assert(row@ =~= moved(before.videos@[i as int]@, *place, now));
        assert(row.id == before.videos@[i as int].id) by {
            assert(row@.id == before.videos@[i as int]@.id);
        }
        self.videos.set(i, row);
        proof {
            assert(index::videos_ok(self.videos@, self.next_video_id)) by {
                assert forall|a: int, b: int|
                    #![trigger self.videos@[a], self.videos@[b]]
                    0 <= a < b < self.videos@.len() implies self.videos@[a].id
                    != self.videos@[b].id && self.videos@[a].path@ != self.videos@[b].path@ by {
                    assert(before.videos@[a].id != before.videos@[b].id && before.videos@[a].path@
                        != before.videos@[b].path@);
                }
                assert forall|a: int| 0 <= a < self.videos@.len() implies (
                #[trigger] self.videos@[a]).id is Some && self.videos@[a].id->0
                    < self.next_video_id by {
                    assert(before.videos@[a].id is Some);
                }
            }
            lemma_update_keeps_ids(before.videos@, i as int, row);
            lemma_other_videos_keep_wf(before, *self);
            assert forall|k: int| 0 <= k < before.videos@.len() implies if before.videos@[k].id
                == Some(before.videos@[i as int].id->0) {
                (#[trigger] self.videos@[k])@ == moved(before.videos@[k]@, *place, now)
            } else {
                self.videos@[k] == before.videos@[k]
            } by {
                assert(before.videos@[k].id is Some);
                if k < i {
                    assert(before.videos@[k].id != before.videos@[i as int].id);
                } else if k > i {
                    assert(before.videos@[i as int].id != before.videos@[k].id);
                }
            }
        }
    }

    /// Records that the file of a video lies at another place now. Other videos recorded there
    /// that belong to no scan give way; one that belongs to a scan does not.
    pub fn move_video_path(&mut self, id: i64, place: &FilePlace, now: i64) -> (r: Result<
        (),
        String,
    >)
        requires
            old(self).wf(),
        ensures
            final(self).wf(),
            ({
                let orphans = orphans_at(
                    old(self).videos@,
                    old(self).links@,
                    id,
                    place.path@,
                    Seq::empty(),
                    old(self).videos@.len() as int,
                );
                let rest = rows::having(old(self).videos@, index::video_spared(orphans));
                let other = first_other(rest, id, place.path@, 0);
                if other >= 0 {
                    &&& r matches Err(message) && message@ == owned_message(
                        place.path@,
                        rest[other].id->0,
                    )
                    &&& index::videos_dropped(*old(self), *final(self), orphans)
                } else if !index::has_video_id(rest, id) {
                    &&& r matches Err(message) && message@ == not_found_message(id)
                    &&& index::videos_dropped(*old(self), *final(self), orphans)
                } else {
                    &&& r is Ok
                    &&& exists|mid: VideoIndex| #[trigger]
                        index::videos_dropped(*old(self), mid, orphans) && one_moved(
                            mid,
                            *final(self),
                            id,
                            *place,
                            now,
                        )
                }
            }),
    {
        let none: Vec<i64> = Vec::new();
        let orphans = self.find_orphans_at(id, place.path.as_str(), &none);
        assert(none@ =~= Seq::empty());
        let _dropped = self.drop_videos(&orphans);
        if let Some(i) = self.find_other(id, place.path.as_str()) {
            assert(self.videos@[i as int].id is Some);
            let owner: i64 = match self.videos[i].id {
                Some(own) => own,
                None => 0,
            };
            return Err(owned_text(place.path.as_str(), owner));
        }
        match self.position_of(id) {
            None => Err(not_found_text(id)),
            Some(i) => {
                let ghost mid = *self;
                assert forall|k: int| 0 <= k < self.videos@.len() && k != i implies (
                #[trigger] self.videos@[k]).path@ != place.path@ by {
                    assert(!is_other(self.videos@[k], id, place.path@));
                    if k < i {
                        assert(self.videos@[k].id != self.videos@[i as int].id);
                    } else {
                        assert(self.videos@[i as int].id != self.videos@[k].id);
                    }
                }
                self.set_place(i, place, now);
                assert(one_moved(mid, *self, id, *place, now));
                Ok(())
            },
        }
    }
}

/// Why videos cannot be removed and others moved to their places.
pub enum MoveTrouble {
    /// A video is both removed and moved.
    Removed(i64),
    /// Two videos would be moved to one path.
    Twice(Seq<char>),
    /// A path is taken by a video that stays.
    Owned(Seq<char>, i64),
    /// A moved video is not in the index.
    Missing(i64),
    /// A path is taken when the rows are written.
    Taken,
}

/// The message of a trouble.
pub open spec fn trouble_message(trouble: MoveTrouble) -> Seq<char> {
    match trouble {
        MoveTrouble::Removed(id) => "cannot migrate removed video id "@ + text::signed_decimal(
            id as int,
        ),
        MoveTrouble::Twice(path) => "multiple kept videos would migrate to "@ + path,
        MoveTrouble::Owned(path, owner) => owned_message(path, owner),
        MoveTrouble::Missing(id) => not_found_message(id),
        MoveTrouble::Taken => "UNIQUE constraint failed: videos.path"@,
    }
}

/// The videos that give way to the moves so far, and the trouble that was met.
pub struct Prepared {
    pub gone: Seq<i64>,
    pub trouble: Option<MoveTrouble>,
}

/// Whether one of the first `n` moves goes to a path that is the same in lowercase.
pub open spec fn goes_there(moves: Seq<(i64, FilePlace)>, path: Seq<char>, n: int) -> bool {
    exists|k: int|
        0 <= k < n && text::lowercase((#[trigger] moves[k]).1.path@) == text::lowercase(path)
}

/// What the first `n` moves ask for before rows are removed.
pub open spec fn prepared(
    videos: Seq<VideoRecord>,
    links: Seq<SessionLink>,
    removed: Seq<i64>,
    moves: Seq<(i64, FilePlace)>,
    n: int,
) -> Prepared
    decreases n,
{
    if n <= 0 {
        Prepared { gone: Seq::empty(), trouble: None }
    } else {
        let before = prepared(videos, links, removed, moves, n - 1);
        let id = moves[n - 1].0;
        let path = moves[n - 1].1.path@;
        if before.trouble is Some {
            before
        } else if removed.contains(id) {
            Prepared { gone: before.gone, trouble: Some(MoveTrouble::Removed(id)) }
        } else {
            let present = rows::having(videos, index::video_spared(before.gone));
            let gone = before.gone + orphans_at(
                present,
                links,
                id,
                path,
                removed,
                present.len() as int,
            );
            let left = rows::having(videos, index::video_spared(gone));
            let other = first_other(left, id, path, 0);
            if goes_there(moves, path, n - 1) {
                Prepared { gone, trouble: Some(MoveTrouble::Twice(path)) }
            } else if other >= 0 && !removed.contains(left[other].id->0) {
                Prepared { gone, trouble: Some(MoveTrouble::Owned(path, left[other].id->0)) }
            } else {
                Prepared { gone, trouble: None }
            }
        }
    }
}

/// The ids and paths of videos.
pub open spec fn id_paths(videos: Seq<VideoRecord>) -> Seq<(i64, Seq<char>)> {
    videos.map_values(|v: VideoRecord| (v.id->0, v.path@))
}

/// Ids with paths after some moves, and the trouble that was met.
pub struct Renamed {
    pub table: Seq<(i64, Seq<char>)>,
    pub trouble: Option<MoveTrouble>,
}

/// Whether an id is in a table of ids with paths.
pub open spec fn table_has(table: Seq<(i64, Seq<char>)>, id: i64) -> bool {
    exists|k: int| 0 <= k < table.len() && (#[trigger] table[k]).0 == id
}

/// Whether another id has exactly this path.
pub open spec fn table_taken(table: Seq<(i64, Seq<char>)>, id: i64, path: Seq<char>) -> bool {
    exists|k: int|
        0 <= k < table.len() && (#[trigger] table[k]).0 != id && table[k].1 == path
}

/// Ids with paths after the first `n` moves.
pub open spec fn renamed(
    table: Seq<(i64, Seq<char>)>,
    moves: Seq<(i64, FilePlace)>,
    n: int,
) -> Renamed
    decreases n,
{
    if n <= 0 {
        Renamed { table, trouble: None }
    } else {
        let before = renamed(table, moves, n - 1);
        let id = moves[n - 1].0;
        let path = moves[n - 1].1.path@;
        if before.trouble is Some {
            before
        } else if !table_has(before.table, id) {
            Renamed { table: before.table, trouble: Some(MoveTrouble::Missing(id)) }
        } else if table_taken(before.table, id, path) {
            Renamed { table: before.table, trouble: Some(MoveTrouble::Taken) }
        } else {
            Renamed {
                table: before.table.map_values(
                    |row: (i64, Seq<char>)| if row.0 == id { (id, path) } else { row },
                ),
                trouble: None,
            }
        }
    }
}

/// A video after the first `n` moves.
pub open spec fn moved_along(
    video: VideoData,
    moves: Seq<(i64, FilePlace)>,
    n: int,
    now: i64,
) -> VideoData
    decreases n,
{
    if n <= 0 {
        video
    } else {
        let before = moved_along(video, moves, n - 1, now);
        if video.id == Some(moves[n - 1].0) {
            moved(before, moves[n - 1].1, now)
        } else {
            before
        }
    }
}

/// Whether `after` is `before` with the first `n` moves done.
pub open spec fn all_moved(
    before: VideoIndex,
    after: VideoIndex,
    moves: Seq<(i64, FilePlace)>,
    n: int,
    now: i64,
) -> bool {
    &&& after.links@ == before.links@
    &&& index::same_sessions(before, after)
    &&& index::same_models(before, after)
    &&& index::same_ai_rows(before, after)
    &&& after.next_video_id == before.next_video_id
    &&& after.videos@.len() == before.videos@.len()
    &&& forall|k: int|
        #![trigger after.videos@[k]]
        0 <= k < before.videos@.len() ==> after.videos@[k]@ == moved_along(
            before.videos@[k]@,
            moves,
            n,
            now,
        )
}

/// The trouble of removing videos and moving others, if any: first that of the preparation, then
/// that of writing the rows.
pub open spec fn whole_trouble(
    videos: Seq<VideoRecord>,
    links: Seq<SessionLink>,
    removed: Seq<i64>,
    moves: Seq<(i64, FilePlace)>,
) -> Option<MoveTrouble> {
    let plan = prepared(videos, links, removed, moves, moves.len() as int);
    if plan.trouble is Some {
        plan.trouble
    } else {
        renamed(
            id_paths(rows::having(videos, index::video_spared(plan.gone + removed))),
            moves,
            moves.len() as int,
        ).trouble
    }
}

/// A row of the table of ids with paths.
struct PathRow {
    id: i64,
    path: String,
}

spec fn path_rows(list: Seq<PathRow>) -> Seq<(i64, Seq<char>)> {
    list.map_values(|row: PathRow| (row.id, row.path@))
}

/// Tries the moves on ids with paths; the message of the trouble, if any.
fn try_moves(table: Vec<PathRow>, moves: &Vec<(i64, FilePlace)>) -> (r: Option<String>)
    ensures
        r is Some == renamed(path_rows(table@), moves@, moves@.len() as int).trouble is Some,
        r matches Some(message) ==> message@ == trouble_message(
            renamed(path_rows(table@), moves@, moves@.len() as int).trouble->0,
        ),
{
    let ghost start = path_rows(table@);
    let mut rows_now = table;
    let mut n: usize = 0;
    while n < moves.len()
        invariant
            n <= moves@.len(),
            start == path_rows(table@),
            renamed(start, moves@, n as int).trouble is None,
            path_rows(rows_now@) == renamed(start, moves@, n as int).table,
        decreases moves@.len() - n,
    {
        let id: i64 = moves[n].0;
        let ghost path = moves@[n as int].1.path@;
        let ghost current = renamed(start, moves@, n as int).table;
        let mut found = false;
        let mut taken = false;
        let mut k: usize = 0;
        while k < rows_now.len()
            invariant
                k <= rows_now@.len(),
                n < moves@.len(),
                path == moves@[n as int].1.path@,
                current == path_rows(rows_now@),
                found == exists|j: int| 0 <= j < k && (#[trigger] current[j]).0 == id,
                taken == exists|j: int|
                    0 <= j < k && (#[trigger] current[j]).0 != id && current[j].1 == path,
            decreases rows_now@.len() - k,
        {
            assert(current[k as int] == (rows_now@[k as int].id, rows_now@[k as int].path@));
            if rows_now[k].id == id {
                found = true;
            } else if same_text(rows_now[k].path.as_str(), moves[n].1.path.as_str()) {
                taken = true;
            }
            k += 1;
        }
        assert(current.len() == rows_now@.len());
        if !found {
            proof {
                lemma_renamed_trouble_stays(start, moves@, n + 1, moves@.len() as int);
            }
            return Some(not_found_text(id));
        }
        if taken {
            proof {
                lemma_renamed_trouble_stays(start, moves@, n + 1, moves@.len() as int);
            }
            return Some("UNIQUE constraint failed: videos.path".to_owned());
        }
        let mut j: usize = 0;
        let ghost target = current.map_values(
            |row: (i64, Seq<char>)| if row.0 == id { (id, path) } else { row },
        );
        while j < rows_now.len()
            invariant
                j <= rows_now@.len(),
                n < moves@.len(),
                path == moves@[n as int].1.path@,
                rows_now@.len() == current.len(),
                target == current.map_values(
                    |row: (i64, Seq<char>)| if row.0 == id { (id, path) } else { row },
                ),
                forall|k: int|
                    0 <= k < current.len() ==> (#[trigger] path_rows(rows_now@)[k]) == (if k < j {
                        target[k]
                    } else {
                        current[k]
                    }),
            decreases rows_now@.len() - j,
        {
            assert(path_rows(rows_now@)[j as int] == current[j as int]);
            if rows_now[j].id == id {
                let ghost before = rows_now@;
                rows_now.set(j, PathRow { id, path: moves[n].1.path.clone() });
                assert forall|k: int| 0 <= k < current.len() implies (#[trigger] path_rows(
                    rows_now@,
                )[k]) == (if k < j + 1 {
                    target[k]
                } else {
                    current[k]
                }) by {
                    if k != j {
                        assert(path_rows(before)[k] == path_rows(rows_now@)[k]);
                    }
                }
            }
            j += 1;
        }
        assert(path_rows(rows_now@) =~= target);
        n += 1;
    }
    None
}

proof fn lemma_renamed_trouble_stays(
    table: Seq<(i64, Seq<char>)>,
    moves: Seq<(i64, FilePlace)>,
    n: int,
    m: int,
)
    requires
        0 <= n <= m,
        renamed(table, moves, n).trouble is Some,
    ensures
        renamed(table, moves, m).trouble == renamed(table, moves, n).trouble,
    decreases m - n,
{
    if n < m {
        lemma_renamed_trouble_stays(table, moves, n, m - 1);
    }
}

proof fn lemma_renamed_prefix(
    table: Seq<(i64, Seq<char>)>,
    moves: Seq<(i64, FilePlace)>,
    n: int,
    m: int,
)
    requires
        0 <= n <= m,
        renamed(table, moves, m).trouble is None,
    ensures
        renamed(table, moves, n).trouble is None,
    decreases m - n,
{
    if n < m {
        if renamed(table, moves, m - 1).trouble is Some {
        }
        lemma_renamed_prefix(table, moves, n, m - 1);
    }
}

proof fn lemma_prepared_trouble_stays(
    videos: Seq<VideoRecord>,
    links: Seq<SessionLink>,
    removed: Seq<i64>,
    moves: Seq<(i64, FilePlace)>,
    n: int,
    m: int,
)
    requires
        0 <= n <= m,
        prepared(videos, links, removed, moves, n).trouble is Some,
    ensures
        prepared(videos, links, removed, moves, m) == prepared(videos, links, removed, moves, n),
    decreases m - n,
{
    if n < m {
        lemma_prepared_trouble_stays(videos, links, removed, moves, n, m - 1);
    }
}

/// Removing in two steps is removing at once.
proof fn lemma_having_twice<T>(
    items: Seq<T>,
    first: spec_fn(T) -> bool,
    second: spec_fn(T) -> bool,
    both: spec_fn(T) -> bool,
)
    requires
        forall|x: T| #[trigger] both(x) == (first(x) && second(x)),
    ensures
        rows::having(rows::having(items, first), second) == rows::having(items, both),
    decreases items.len(),
{
    if items.len() > 0 {
        lemma_having_twice(items.drop_last(), first, second, both);
        let rest = rows::having(items.drop_last(), first);
        if first(items.last()) {
            assert(rest.push(items.last()).drop_last() =~= rest);
        }
        assert(both(items.last()) == (first(items.last()) && second(items.last())));
    }
}

proof fn lemma_drop_twice(a: VideoIndex, b: VideoIndex, c: VideoIndex, first: Seq<i64>, second: Seq<
    i64,
>)
    requires
        index::videos_dropped(a, b, first),
        index::videos_dropped(b, c, second),
    ensures
        index::videos_dropped(a, c, first + second),
{
    let ids = first + second;
    assert forall|x: i64| #[trigger] ids.contains(x) <==> first.contains(x) || second.contains(
        x,
    ) by {
        if first.contains(x) {
            let k = choose|k: int| 0 <= k < first.len() && first[k] == x;
            assert(ids[k] == x);
        }
        if second.contains(x) {
            let k = choose|k: int| 0 <= k < second.len() && second[k] == x;
            assert(ids[first.len() + k] == x);
        }
        if ids.contains(x) {
            let k = choose|k: int| 0 <= k < ids.len() && ids[k] == x;
            if k < first.len() {
                assert(first[k] == x);
            } else {
                assert(second[k - first.len()] == x);
            }
        }
    }
    lemma_having_twice(
        a.videos@,
        index::video_spared(first),
        index::video_spared(second),
        index::video_spared(ids),
    );
    lemma_having_twice(
        a.links@,
        index::link_spared(first),
        index::link_spared(second),
        index::link_spared(ids),
    );
    lemma_having_twice(
        a.frame_embeddings@,
        index::frame_spared(first),
        index::frame_spared(second),
        index::frame_spared(ids),
    );
    lemma_having_twice(
        a.pair_scores@,
        index::score_spared(first),
        index::score_spared(second),
        index::score_spared(ids),
    );
    lemma_having_twice(
        a.match_edges@,
        index::edge_spared(first),
        index::edge_spared(second),
        index::edge_spared(ids),
    );
}

/// Removing no videos changes nothing.
pub proof fn lemma_drop_none(a: VideoIndex)
    ensures
        index::videos_dropped(a, a, Seq::empty()),
{
    lemma_having_all(a.videos@, index::video_spared(Seq::empty()));
    lemma_having_all(a.links@, index::link_spared(Seq::empty()));
    lemma_having_all(a.frame_embeddings@, index::frame_spared(Seq::empty()));
    lemma_having_all(a.pair_scores@, index::score_spared(Seq::empty()));
    lemma_having_all(a.match_edges@, index::edge_spared(Seq::empty()));
}

proof fn lemma_having_all<T>(items: Seq<T>, property: spec_fn(T) -> bool)
    requires
        forall|x: T| #[trigger] property(x),
    ensures
        rows::having(items, property) == items,
    decreases items.len(),
{
    if items.len() > 0 {
        lemma_having_all(items.drop_last(), property);
        assert(items.drop_last().push(items.last()) =~= items);
        assert(property(items.last()));
    } else {
        assert(items =~= Seq::empty());
    }
}

/// The links of the videos that are left are all links, where those removed have none.
proof fn lemma_links_stay(links: Seq<SessionLink>, ids: Seq<i64>)
    requires
        forall|k: int| 0 <= k < ids.len() ==> !is_linked(links, #[trigger] ids[k]),
    ensures
        rows::having(links, index::link_spared(ids)) == links,
    decreases links.len(),
{
    let property = index::link_spared(ids);
    assert forall|i: int| 0 <= i < links.len() implies property(#[trigger] links[i]) by {
        if ids.contains(links[i].video_id) {
            let k = choose|k: int| 0 <= k < ids.len() && ids[k] == links[i].video_id;
            assert(!is_linked(links, ids[k]));
        }
    }
    lemma_having_each(links, property);
}

proof fn lemma_having_each<T>(items: Seq<T>, property: spec_fn(T) -> bool)
    requires
        forall|i: int| 0 <= i < items.len() ==> property(#[trigger] items[i]),
    ensures
        rows::having(items, property) == items,
    decreases items.len(),
{
    if items.len() > 0 {
        assert forall|i: int| 0 <= i < items.len() - 1 implies property(
            #[trigger] items.drop_last()[i],
        ) by {
            assert(items.drop_last()[i] == items[i]);
        }
        lemma_having_each(items.drop_last(), property);
        assert(property(items[items.len() - 1]));
        assert(items.drop_last().push(items.last()) =~= items);
    } else {
        assert(items =~= Seq::empty());
    }
}

proof fn lemma_orphans_unlinked(
    videos: Seq<VideoRecord>,
    links: Seq<SessionLink>,
    id: i64,
    path: Seq<char>,
    except: Seq<i64>,
    n: int,
)
    requires
        n <= videos.len(),
    ensures
        forall|k: int|
            0 <= k < orphans_at(videos, links, id, path, except, n).len() ==> !is_linked(
                links,
                #[trigger] orphans_at(videos, links, id, path, except, n)[k],
            ),
    decreases n,
{
    if n > 0 {
        lemma_orphans_unlinked(videos, links, id, path, except, n - 1);
        let rest = orphans_at(videos, links, id, path, except, n - 1);
        let all = orphans_at(videos, links, id, path, except, n);
        assert forall|k: int| 0 <= k < all.len() implies !is_linked(links, #[trigger] all[k]) by {
            if k < rest.len() {
                assert(all[k] == rest[k]);
            }
        }
    }
}

impl VideoIndex {
    /// Removes videos and moves the files of others to new places, all or nothing but for the
    /// unscanned videos that give way. Counts the removed rows.
    pub fn delete_videos_and_move_paths(
        &mut self,
        video_ids: &Vec<i64>,
        moves: &Vec<(i64, FilePlace)>,
        now: i64,
    ) -> (r: Result<DeletedVideoRows, String>)
        requires
            old(self).wf(),
        ensures
            final(self).wf(),
            ({
                let plan = prepared(
                    old(self).videos@,
                    old(self).links@,
                    video_ids@,
                    moves@,
                    moves@.len() as int,
                );
                match whole_trouble(old(self).videos@, old(self).links@, video_ids@, moves@) {
                    Some(trouble) => {
                        &&& r matches Err(message) && message@ == trouble_message(trouble)
                        &&& index::videos_dropped(*old(self), *final(self), plan.gone)
                    },
                    None => {
                        &&& r matches Ok(lost) && index::rows_lost(*old(self), *final(self), lost)
                        &&& exists|mid: VideoIndex| #[trigger]
                            index::videos_dropped(*old(self), mid, plan.gone + video_ids@)
                                && all_moved(mid, *final(self), moves@, moves@.len() as int, now)
                    },
                }
            }),
    {
        let ghost start = *self;
        let mut lost = DeletedVideoRows::default();
        let mut n: usize = 0;
        assert(self.videos.len() <= usize::MAX && self.pair_scores.len() <= usize::MAX);
        assert(self.match_edges.len() <= usize::MAX && self.frame_embeddings.len() <= usize::MAX);
        proof {
            lemma_drop_none(start);
        }
        while n < moves.len()
            invariant
                n <= moves@.len(),
                start == *old(self),
                start.videos@.len() <= usize::MAX,
                start.pair_scores@.len() <= usize::MAX,
                start.match_edges@.len() <= usize::MAX,
                start.frame_embeddings@.len() <= usize::MAX,
                self.wf(),
                self.links@ == start.links@,
                prepared(start.videos@, start.links@, video_ids@, moves@, n as int).trouble is None,
                index::videos_dropped(
                    start,
                    *self,
                    prepared(start.videos@, start.links@, video_ids@, moves@, n as int).gone,
                ),
                index::rows_lost(start, *self, lost),
            decreases moves@.len() - n,
        {
            let id: i64 = moves[n].0;
            let place = &moves[n].1;
            let ghost all = moves@.len() as int;
            let ghost gone = prepared(
                start.videos@,
                start.links@,
                video_ids@,
                moves@,
                n as int,
            ).gone;
            if has_id(video_ids, id) {
                proof {
                    lemma_prepared_trouble_stays(
                        start.videos@,
                        start.links@,
                        video_ids@,
                        moves@,
                        n + 1,
                        all,
                    );
                }
                let mut message = "cannot migrate removed video id ".to_owned();
                message.append(text::signed_decimal_text(id).as_str());
                return Err(message);
            }
            let ghost present = *self;
            let orphans = self.find_orphans_at(id, place.path.as_str(), video_ids);
            let dropped = self.drop_videos(&orphans);
            proof {
                lemma_orphans_unlinked(
                    present.videos@,
                    present.links@,
                    id,
                    place.path@,
                    video_ids@,
                    present.videos@.len() as int,
                );
                lemma_links_stay(present.links@, orphans@);
                lemma_drop_twice(start, present, *self, gone, orphans@);
            }
            add_deleted_rows(&mut lost, dropped);
            let mut twice = false;
            let key = place.path.as_str().to_lowercase();
            let mut k: usize = 0;
            while k < n
                invariant
                    k <= n < moves@.len(),
                    key@ == text::lowercase(place.path@),
                    twice == goes_there(moves@, place.path@, k as int),
                decreases n - k,
            {
                let other_key = moves[k].1.path.as_str().to_lowercase();
                if same_text(other_key.as_str(), key.as_str()) {
                    assert(text::lowercase(moves@[k as int].1.path@) == text::lowercase(
                        place.path@,
                    ));
                    twice = true;
                }
                k += 1;
            }
            if twice {
                proof {
                    lemma_prepared_trouble_stays(
                        start.videos@,
                        start.links@,
                        video_ids@,
                        moves@,
                        n + 1,
                        all,
                    );
                }
                let mut message = "multiple kept videos would migrate to ".to_owned();
                message.append(place.path.as_str());
                return Err(message);
            }
            if let Some(i) = self.find_other(id, place.path.as_str()) {
                assert(self.videos@[i as int].id is Some);
                let owner: i64 = match self.videos[i].id {
                    Some(own) => own,
                    None => 0,
                };
                if !has_id(video_ids, owner) {
                    proof {
                        lemma_prepared_trouble_stays(
                            start.videos@,
                            start.links@,
                            video_ids@,
                            moves@,
                            n + 1,
                            all,
                        );
                    }
                    return Err(owned_text(place.path.as_str(), owner));
                }
            }
            n += 1;
        }
        let ghost plan = prepared(
            start.videos@,
            start.links@,
            video_ids@,
            moves@,
            moves@.len() as int,
        );
        let ghost between = *self;
        let mut table: Vec<PathRow> = Vec::new();
        let mut i: usize = 0;
        while i < self.videos.len()
            invariant
                i <= self.videos@.len(),
                self.wf(),
                *self == between,
                path_rows(table@) == id_paths(
                    rows::having(self.videos@.take(i as int), index::video_spared(video_ids@)),
                ),
            decreases self.videos@.len() - i,
        {
            let ghost old_table = table@;
            let ghost kept = rows::having(
                self.videos@.take(i as int),
                index::video_spared(video_ids@),
            );
            assert(self.videos@.take(i + 1).drop_last() =~= self.videos@.take(i as int));
            assert(self.videos@[i as int].id is Some);
            let id: i64 = match self.videos[i].id {
                Some(own) => own,
                None => 0,
            };
            if !has_id(video_ids, id) {
                let row = PathRow { id, path: self.videos[i].path.clone() };
                table.push(row);
                assert(path_rows(table@) =~= path_rows(old_table).push(
                    (id, self.videos@[i as int].path@),
                ));
                assert(id_paths(kept.push(self.videos@[i as int])) =~= id_paths(kept).push(
                    (id, self.videos@[i as int].path@),
                ));
            }
            i += 1;
        }
        assert(self.videos@.take(i as int) =~= self.videos@);
        let ghost remaining = rows::having(
            start.videos@,
            index::video_spared(plan.gone + video_ids@),
        );
        proof {
            lemma_two_step_videos(start.videos@, plan.gone, video_ids@);
        }
        assert(path_rows(table@) == id_paths(remaining));
        if let Some(message) = try_moves(table, moves) {
            return Err(message);
        }
        let dropped = self.drop_videos(video_ids);
        add_deleted_rows(&mut lost, dropped);
        let ghost mid = *self;
        proof {
            lemma_drop_twice(start, between, mid, plan.gone, video_ids@);
        }
        assert(mid.videos@ == remaining);
        assert(index::rows_lost(start, mid, lost));
        let mut m: usize = 0;
        while m < moves.len()
            invariant
                m <= moves@.len(),
                self.wf(),
                mid.wf(),
                mid.videos@ == remaining,
                renamed(id_paths(remaining), moves@, moves@.len() as int).trouble is None,
                id_paths(self.videos@) == renamed(id_paths(remaining), moves@, m as int).table,
                all_moved(mid, *self, moves@, m as int, now),
            decreases moves@.len() - m,
        {
            let id: i64 = moves[m].0;
            let place = &moves[m].1;
            let ghost step = *self;
            let ghost before = renamed(id_paths(remaining), moves@, m as int).table;
            proof {
                lemma_renamed_prefix(id_paths(remaining), moves@, m + 1, moves@.len() as int);
                lemma_renamed_prefix(id_paths(remaining), moves@, m as int, m + 1);
                assert(table_has(before, id));
                assert(!table_taken(before, id, place.path@));
                let k = choose|k: int| 0 <= k < before.len() && (#[trigger] before[k]).0 == id;
                assert(id_paths(step.videos@)[k] == before[k]);
                assert(step.videos@[k].id is Some);
                assert(step.videos@[k].id == Some(id));
            }
            if let Some(at) = self.position_of(id) {
                assert forall|k: int| 0 <= k < step.videos@.len() && k != at implies (
                #[trigger] step.videos@[k]).path@ != place.path@ by {
                    assert(id_paths(step.videos@)[k] == before[k]);
                    assert(step.videos@[k].id is Some);
                    if k < at {
                        assert(step.videos@[k].id != step.videos@[at as int].id);
                    } else {
                        assert(step.videos@[at as int].id != step.videos@[k].id);
                    }
                    assert(before[k].0 != id);
                }
                self.set_place(at, place, now);
                proof {
                    let target = renamed(id_paths(remaining), moves@, m + 1).table;
                    assert(id_paths(self.videos@) =~= target) by {
                        assert forall|k: int| 0 <= k < self.videos@.len() implies id_paths(
                            self.videos@,
                        )[k] == target[k] by {
                            assert(id_paths(step.videos@)[k] == before[k]);
                            assert(step.videos@[k].id is Some);
                            let row = self.videos@[k];
                            if step.videos@[k].id == Some(id) {
                                assert(row@ == moved(step.videos@[k]@, *place, now));
                                assert(row@.id == Some(id));
                            }
                        }
                    }
                    assert forall|k: int| 0 <= k < mid.videos@.len() implies (
                    #[trigger] self.videos@[k])@ == moved_along(
                        mid.videos@[k]@,
                        moves@,
                        m + 1,
                        now,
                    ) by {
                        assert(step.videos@[k]@ == moved_along(
                            mid.videos@[k]@,
                            moves@,
                            m as int,
                            now,
                        ));
                        lemma_moved_keeps_id(mid.videos@[k]@, moves@, m as int, now);
                        assert(step.videos@[k]@.id == mid.videos@[k]@.id);
                    }
                }
            }
            m += 1;
        }
        assert(index::videos_dropped(start, mid, plan.gone + video_ids@) && all_moved(
            mid,
            *self,
            moves@,
            moves@.len() as int,
            now,
        ));
        Ok(lost)
    }
}

proof fn lemma_moved_keeps_id(video: VideoData, moves: Seq<(i64, FilePlace)>, n: int, now: i64)
    ensures
        moved_along(video, moves, n, now).id == video.id,
    decreases n,
{
    if n > 0 {
        lemma_moved_keeps_id(video, moves, n - 1, now);
    }
}

proof fn lemma_two_step_videos(videos: Seq<VideoRecord>, first: Seq<i64>, second: Seq<i64>)
    ensures
        rows::having(
            rows::having(videos, index::video_spared(first)),
            index::video_spared(second),
        ) == rows::having(videos, index::video_spared(first + second)),
{
    let ids = first + second;
    assert forall|x: i64| #[trigger] ids.contains(x) <==> first.contains(x) || second.contains(
        x,
    ) by {
        if first.contains(x) {
            let k = choose|k: int| 0 <= k < first.len() && first[k] == x;
            assert(ids[k] == x);
        }
        if second.contains(x) {
            let k = choose|k: int| 0 <= k < second.len() && second[k] == x;
            assert(ids[first.len() + k] == x);
        }
        if ids.contains(x) {
            let k = choose|k: int| 0 <= k < ids.len() && ids[k] == x;
            if k < first.len() {
                assert(first[k] == x);
            } else {
                assert(second[k - first.len()] == x);
            }
        }
    }
    lemma_having_twice(
        videos,
        index::video_spared(first),
        index::video_spared(second),
        index::video_spared(ids),
    );
}

} // verus!
