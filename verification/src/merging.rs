//! Merging copies: one video is kept, takes the place and the name of another, and the rest goes
//! to the backup folder or is deleted.
use crate::files;
use crate::files::{
    existing_file_status, path_key_for_path, FileParts, FileState,
};
use crate::index::VideoIndex;
use crate::models;
use crate::models::VideoRecord;
use crate::paths;
use crate::paths::{Host, Root, RootData};
use crate::rows;
use crate::rows::has_id;
use crate::settings;
use crate::settings::validate_operable_path;
use crate::text;
use crate::text::{
    add_line, cat, cat3, cat4, chars_of, decimal_text, same_text, signed_decimal_text, trim,
};
use vstd::prelude::*;
use vstd::string::*;

verus! {

/// The position, from `i` on, of the first video with an id.
pub open spec fn place_from(videos: Seq<VideoRecord>, id: i64, i: int) -> Option<int>
    decreases videos.len() - i,
{
    if i >= videos.len() {
        None
    } else if videos[i].id == Some(id) {
        Some(i)
    } else {
        place_from(videos, id, i + 1)
    }
}

/// The position of the first video with an id.
pub open spec fn place(videos: Seq<VideoRecord>, id: i64) -> Option<int> {
    place_from(videos, id, 0)
}

/// The position of a known id is that of a video with it.
pub proof fn lemma_place(videos: Seq<VideoRecord>, id: i64, i: int)
    requires
        0 <= i,
        place_from(videos, id, i) is Some,
    ensures
        0 <= place_from(videos, id, i)->0 < videos.len(),
        videos[place_from(videos, id, i)->0].id == Some(id),
    decreases videos.len() - i,
{
    if i < videos.len() && videos[i].id != Some(id) {
        lemma_place(videos, id, i + 1);
    }
}

/// The message that a video is not in the index.
pub open spec fn unknown_message(id: i64) -> Seq<char> {
    "video id "@ + text::signed_decimal(id as int) + " was not found in the local index"@
}

/// The position of the first video with an id.
pub fn find_place(videos: &Vec<VideoRecord>, id: i64) -> (r: Option<usize>)
    ensures
        match r {
            Some(i) => place(videos@, id) == Some(i as int) && i < videos@.len()
                && videos@[i as int].id == Some(id),
            None => place(videos@, id) is None,
        },
{
    let mut i: usize = 0;
    while i < videos.len()
        invariant
            i <= videos@.len(),
            place(videos@, id) == place_from(videos@, id, i as int),
        decreases videos@.len() - i,
    {
        if videos[i].id == Some(id) {
            return Some(i);
        }
        i += 1;
    }
    None
}

/// The position of the video with an id; fails where it is not in the index.
pub fn find_video(videos: &Vec<VideoRecord>, id: i64) -> (r: Result<usize, String>)
    ensures
        match r {
            Ok(i) => place(videos@, id) == Some(i as int) && i < videos@.len()
                && videos@[i as int].id == Some(id),
            Err(message) => place(videos@, id) is None && message@ == unknown_message(id),
        },
{
    match find_place(videos, id) {
        Some(i) => Ok(i),
        None => Err(
            cat3(
                "video id ",
                signed_decimal_text(id).as_str(),
                " was not found in the local index",
            ),
        ),
    }
}

/// Whether merged copies are kept in the backup folder, or why nothing may be merged.
pub open spec fn merge_mode_of(
    disposal: Seq<char>,
    confirmation: Seq<char>,
    allow_direct_delete: bool,
) -> Result<bool, Seq<char>> {
    if disposal == "backup"@ {
        if confirmation != "MERGE_BACKUP"@ {
            Err("confirmation must be MERGE_BACKUP"@)
        } else {
            Ok(true)
        }
    } else if disposal == "delete"@ {
        if !allow_direct_delete {
            Err("direct delete is disabled in Settings"@)
        } else if confirmation != "MERGE_DELETE"@ {
            Err("confirmation must be MERGE_DELETE"@)
        } else {
            Ok(false)
        }
    } else {
        Err("unsupported merge disposal: "@ + disposal)
    }
}

/// Whether merged copies are kept in the backup folder, or why nothing may be merged.
pub fn merge_mode(disposal: &str, confirmation: &str, allow_direct_delete: bool) -> (r: Result<
    bool,
    String,
>)
    ensures
        files::said(r) == merge_mode_of(disposal@, confirmation@, allow_direct_delete),
{
    proof {
        reveal_strlit("backup");
        reveal_strlit("delete");
        assert("backup"@[0] != "delete"@[0]);
    }
    if same_text(disposal, "backup") {
        if !same_text(confirmation, "MERGE_BACKUP") {
            return Err("confirmation must be MERGE_BACKUP".to_owned());
        }
        return Ok(true);
    }
    if same_text(disposal, "delete") {
        if !allow_direct_delete {
            return Err("direct delete is disabled in Settings".to_owned());
        }
        if !same_text(confirmation, "MERGE_DELETE") {
            return Err("confirmation must be MERGE_DELETE".to_owned());
        }
        return Ok(false);
    }
    Err(cat("unsupported merge disposal: ", disposal))
}

/// Nothing is deleted unless the settings allow it and the user confirmed it.
pub proof fn law_deleting_needs_leave(
    disposal: Seq<char>,
    confirmation: Seq<char>,
    allow_direct_delete: bool,
)
    requires
        merge_mode_of(disposal, confirmation, allow_direct_delete) == Ok::<bool, Seq<char>>(false),
    ensures
        allow_direct_delete,
        confirmation == "MERGE_DELETE"@,
{
}

/// The path that the kept video gets: that of the path source, with the file name of the name
/// source where there is one.
pub open spec fn merge_target(
    host: Host,
    videos: Seq<VideoRecord>,
    parts: Seq<FileParts>,
    source: int,
    named_by: Option<int>,
) -> Result<Seq<char>, Seq<char>> {
    match named_by {
        None => Ok(videos[source].path@),
        Some(n) => match parts[source].parent {
            None => Err("path source has no parent directory: "@ + videos[source].path@),
            Some(parent) => match parts[n].file_name {
                Some(name) => Ok(paths::joined(host, parent@, name@)),
                None => if text::trimmed(videos[n].file_name@).len() > 0 {
                    Ok(paths::joined(host, parent@, text::trimmed(videos[n].file_name@)))
                } else {
                    Err("filename source is missing a file name"@)
                },
            },
        },
    }
}

/// What a result says, as text.
pub open spec fn said_text(r: Result<String, String>) -> Result<Seq<char>, Seq<char>> {
    match r {
        Ok(value) => Ok(value@),
        Err(message) => Err(message@),
    }
}

/// The path that the kept video gets.
pub fn merge_target_path(
    host: Host,
    videos: &Vec<VideoRecord>,
    parts: &Vec<FileParts>,
    source: usize,
    named_by: Option<usize>,
) -> (r: Result<String, String>)
    requires
        parts@.len() == videos@.len(),
        source < videos@.len(),
        named_by matches Some(n) ==> n < videos@.len(),
    ensures
        said_text(r) == merge_target(
            host,
            videos@,
            parts@,
            source as int,
            match named_by {
                Some(n) => Some(n as int),
                None => None,
            },
        ),
{
    match named_by {
        None => Ok(videos[source].path.clone()),
        Some(n) => match &parts[source].parent {
            None => Err(cat("path source has no parent directory: ", videos[source].path.as_str())),
            Some(parent) => match &parts[n].file_name {
                Some(name) => Ok(paths::join(host, parent.as_str(), name.as_str())),
                None => {
                    let name = trim(videos[n].file_name.as_str());
                    if chars_of(name.as_str()).len() > 0 {
                        Ok(paths::join(host, parent.as_str(), name.as_str()))
                    } else {
                        Err("filename source is missing a file name".to_owned())
                    }
                },
            },
        },
    }
}

/// Whether an id is neither of two.
pub open spec fn is_neither(keeper: i64, source: i64) -> spec_fn(i64) -> bool {
    |id: i64| id != keeper && id != source
}

/// The ids other than those of the kept video and the path source, each once.
pub open spec fn extra_ids(ids: Seq<i64>, keeper: i64, source: i64) -> Seq<i64> {
    rows::firsts(rows::having(ids, is_neither(keeper, source)))
}

/// The ids other than those of the kept video and the path source, each once.
pub fn list_extra_ids(ids: &Vec<i64>, keeper: i64, source: i64) -> (r: Vec<i64>)
    ensures
        r@ == extra_ids(ids@, keeper, source),
{
    let ghost other = is_neither(keeper, source);
    let mut out: Vec<i64> = Vec::new();
    let mut i: usize = 0;
    assert(ids@.take(0) =~= Seq::empty());
    while i < ids.len()
        invariant
            i <= ids@.len(),
            other == is_neither(keeper, source),
            out@ == rows::firsts(rows::having(ids@.take(i as int), other)),
        decreases ids@.len() - i,
    {
        let id: i64 = ids[i];
        let ghost before = rows::having(ids@.take(i as int), other);
        assert(ids@.take(i + 1).drop_last() =~= ids@.take(i as int));
        if id != keeper && id != source {
            assert(before.push(id).drop_last() =~= before);
            if !has_id(&out, id) {
                out.push(id);
            }
        }
        i += 1;
    }
    assert(ids@.take(i as int) =~= ids@);
    out
}

/// The positions of the first `n` ids, or the first id that is not in the index.
pub open spec fn all_places(videos: Seq<VideoRecord>, ids: Seq<i64>, n: int) -> Result<
    Seq<int>,
    i64,
>
    decreases n,
{
    if n <= 0 {
        Ok(Seq::empty())
    } else {
        match all_places(videos, ids, n - 1) {
            Err(id) => Err(id),
            Ok(list) => match place(videos, ids[n - 1]) {
                Some(p) => Ok(list.push(p)),
                None => Err(ids[n - 1]),
            },
        }
    }
}

/// Positions as numbers.
pub open spec fn positions(list: Seq<usize>) -> Seq<int> {
    list.map_values(|p: usize| p as int)
}

proof fn lemma_places_stop(videos: Seq<VideoRecord>, ids: Seq<i64>, n: int, m: int)
    requires
        0 <= n <= m,
        all_places(videos, ids, n) is Err,
    ensures
        all_places(videos, ids, m) == all_places(videos, ids, n),
    decreases m - n,
{
    if n < m {
        lemma_places_stop(videos, ids, n, m - 1);
    }
}

/// The positions of the videos with some ids; fails at the first that is not in the index.
pub fn find_videos(videos: &Vec<VideoRecord>, ids: &Vec<i64>) -> (r: Result<Vec<usize>, String>)
    ensures
        match r {
            Ok(list) => all_places(videos@, ids@, ids@.len() as int) == Ok::<Seq<int>, i64>(
                positions(list@),
            ) && (forall|k: int| 0 <= k < list@.len() ==> (#[trigger] list@[k]) < videos@.len()),
            Err(message) => all_places(videos@, ids@, ids@.len() as int) is Err && message@
                == unknown_message(all_places(videos@, ids@, ids@.len() as int)->Err_0),
        },
{
    let mut out: Vec<usize> = Vec::new();
    let mut i: usize = 0;
    assert(positions(out@) =~= Seq::empty());
    while i < ids.len()
        invariant
            i <= ids@.len(),
            all_places(videos@, ids@, i as int) == Ok::<Seq<int>, i64>(positions(out@)),
            forall|k: int| 0 <= k < out@.len() ==> (#[trigger] out@[k]) < videos@.len(),
        decreases ids@.len() - i,
    {
        let ghost before = out@;
        match find_video(videos, ids[i]) {
            Ok(p) => {
                out.push(p);
                assert(positions(out@) =~= positions(before).push(p as int));
            },
            Err(message) => {
                proof {
                    lemma_places_stop(videos@, ids@, i + 1, ids@.len() as int);
                }
                return Err(message);
            },
        }
        i += 1;
    }
    Ok(out)
}

/// A merge that was asked for: the kept video, the path source, the rest, and the path that the
/// kept video gets. Videos are named by their positions. `host` is the machine that the files are
/// on.
#[derive(Debug, Clone)]
pub struct MergeDraft {
    pub host: Host,
    pub keeper: usize,
    pub source: usize,
    pub extras: Vec<usize>,
    pub final_path: String,
}

/// What a draft says.
#[verifier::ext_equal]
pub struct DraftData {
    pub host: Host,
    pub keeper: int,
    pub source: int,
    pub extras: Seq<int>,
    pub final_path: Seq<char>,
}

impl View for MergeDraft {
    type V = DraftData;

    open spec fn view(&self) -> DraftData {
        DraftData {
            host: self.host,
            keeper: self.keeper as int,
            source: self.source as int,
            extras: positions(self.extras@),
            final_path: self.final_path@,
        }
    }
}

impl MergeDraft {
    /// Whether the positions are those of videos.
    pub open spec fn fits(&self, count: nat) -> bool {
        &&& self.keeper < count
        &&& self.source < count
        &&& forall|k: int| 0 <= k < self.extras@.len() ==> (#[trigger] self.extras@[k]) < count
    }
}

/// Whether all files of a merge, and the path that the kept one gets, may be worked on.
pub open spec fn draft_allowed(
    videos: Seq<VideoRecord>,
    draft: DraftData,
    restricted: bool,
    root: RootData,
) -> bool {
    &&& settings::path_allowed(videos[draft.keeper].path@, restricted, root)
    &&& settings::path_allowed(videos[draft.source].path@, restricted, root)
    &&& settings::path_allowed(draft.final_path, restricted, root)
    &&& forall|k: int|
        0 <= k < draft.extras.len() ==> settings::path_allowed(
            videos[#[trigger] draft.extras[k]].path@,
            restricted,
            root,
        )
}

/// Fails where a file of a merge, or the path that the kept one gets, may not be worked on.
pub fn validate_draft(
    videos: &Vec<VideoRecord>,
    draft: &MergeDraft,
    restricted: bool,
    root: &Root,
) -> (r: Result<(), String>)
    requires
        draft.fits(videos@.len()),
    ensures
        r is Ok == draft_allowed(videos@, draft@, restricted, root@),
        r matches Err(message) ==> message@ == settings::outside_message(),
{
    validate_operable_path(videos[draft.keeper].path.as_str(), restricted, root)?;
    validate_operable_path(videos[draft.source].path.as_str(), restricted, root)?;
    validate_operable_path(draft.final_path.as_str(), restricted, root)?;
    let ghost data = draft@;
    let mut i: usize = 0;
    while i < draft.extras.len()
        invariant
            i <= draft.extras@.len(),
            draft.fits(videos@.len()),
            data == draft@,
            settings::path_allowed(videos@[data.keeper].path@, restricted, root@),
            settings::path_allowed(videos@[data.source].path@, restricted, root@),
            settings::path_allowed(data.final_path, restricted, root@),
            forall|k: int|
                0 <= k < i ==> settings::path_allowed(
                    videos@[#[trigger] data.extras[k]].path@,
                    restricted,
                    root@,
                ),
        decreases draft.extras@.len() - i,
    {
        let p: usize = draft.extras[i];
        assert(data.extras[i as int] == p);
        validate_operable_path(videos[p].path.as_str(), restricted, root)?;
        i += 1;
    }
    Ok(())
}

/// What the user asks of a merge.
#[derive(Debug, Clone)]
pub struct MergeRequest {
    pub high_quality_id: i64,
    pub naming_source_id: i64,
    pub extra_video_ids: Vec<i64>,
    pub filename_source_id: Option<i64>,
}

/// Whether a merge keeps a video at its place under its name.
pub open spec fn keeps_place_and_name(keeper: i64, source: i64, named_by: Option<i64>) -> bool {
    keeper == source && (named_by is None || named_by->0 == keeper)
}

/// The draft of a merge of known videos, or why it cannot be made.
pub open spec fn drafted(
    videos: Seq<VideoRecord>,
    parts: Seq<FileParts>,
    keeper: int,
    source: int,
    named_by: Option<int>,
    extras: Seq<int>,
    restricted: bool,
    root: RootData,
) -> Result<DraftData, Seq<char>> {
    match merge_target(root.host, videos, parts, source, named_by) {
        Err(message) => Err(message),
        Ok(final_path) => {
            let draft = DraftData { host: root.host, keeper, source, extras, final_path };
            if draft_allowed(videos, draft, restricted, root) {
                Ok(draft)
            } else {
                Err(settings::outside_message())
            }
        },
    }
}

/// The draft of a merge of known videos; fails where it cannot be made.
pub fn draft_merge(
    videos: &Vec<VideoRecord>,
    parts: &Vec<FileParts>,
    keeper: usize,
    source: usize,
    named_by: Option<usize>,
    extras: Vec<usize>,
    restricted: bool,
    root: &Root,
) -> (r: Result<MergeDraft, String>)
    requires
        parts@.len() == videos@.len(),
        keeper < videos@.len(),
        source < videos@.len(),
        named_by matches Some(n) ==> n < videos@.len(),
        forall|k: int| 0 <= k < extras@.len() ==> (#[trigger] extras@[k]) < videos@.len(),
    ensures
        ({
            let outcome = drafted(
                videos@,
                parts@,
                keeper as int,
                source as int,
                match named_by {
                    Some(n) => Some(n as int),
                    None => None,
                },
                positions(extras@),
                restricted,
                root@,
            );
            match r {
                Ok(draft) => outcome == Ok::<DraftData, Seq<char>>(draft@) && draft.fits(
                    videos@.len(),
                ) && draft.keeper == keeper && draft.source == source && draft.extras == extras,
                Err(message) => outcome == Err::<DraftData, Seq<char>>(message@),
            }
        }),
{
    match merge_target_path(root.host, videos, parts, source, named_by) {
        Err(message) => Err(message),
        Ok(final_path) => {
            let draft = MergeDraft { host: root.host, keeper, source, extras, final_path };
            match validate_draft(videos, &draft, restricted, root) {
                Ok(_) => Ok(draft),
                Err(message) => Err(message),
            }
        },
    }
}

/// What a merge request comes to: whether merged copies are kept, and the draft; or why it is
/// refused.
pub open spec fn merge_asked(
    videos: Seq<VideoRecord>,
    parts: Seq<FileParts>,
    request: MergeRequest,
    mode: Result<bool, Seq<char>>,
    restricted: bool,
    root: RootData,
) -> Result<(bool, DraftData), Seq<char>> {
    let high = request.high_quality_id;
    let naming = request.naming_source_id;
    let extras = extra_ids(request.extra_video_ids@, high, naming);
    if keeps_place_and_name(high, naming, request.filename_source_id) {
        Err("recommended keep file and path source must be different"@)
    } else if mode is Err {
        Err(mode->Err_0)
    } else if place(videos, high) is None {
        Err(unknown_message(high))
    } else if place(videos, naming) is None {
        Err(unknown_message(naming))
    } else if request.filename_source_id is Some && place(videos, request.filename_source_id->0)
        is None {
        Err(unknown_message(request.filename_source_id->0))
    } else {
        match all_places(videos, extras, extras.len() as int) {
            Err(id) => Err(unknown_message(id)),
            Ok(list) => match drafted(
                videos,
                parts,
                place(videos, high)->0,
                place(videos, naming)->0,
                match request.filename_source_id {
                    Some(id) => place(videos, id),
                    None => None,
                },
                list,
                restricted,
                root,
            ) {
                Ok(draft) => Ok((mode->Ok_0, draft)),
                Err(message) => Err(message),
            },
        }
    }
}

/// Fails where a merge would leave the kept video at its place under its name.
pub fn check_merge_request(request: &MergeRequest) -> (r: Result<(), String>)
    ensures
        r is Err == keeps_place_and_name(
            request.high_quality_id,
            request.naming_source_id,
            request.filename_source_id,
        ),
        r matches Err(message) ==> message@
            == "recommended keep file and path source must be different"@,
{
    let own_name = match request.filename_source_id {
        Some(id) => id == request.high_quality_id,
        None => true,
    };
    if request.high_quality_id == request.naming_source_id && own_name {
        return Err("recommended keep file and path source must be different".to_owned());
    }
    Ok(())
}

/// Starts a merge: tells whether merged copies are kept in the backup folder, and which files
/// are merged into which path. Fails where the request is refused.
pub fn execute_merge_selection(
    videos: &Vec<VideoRecord>,
    parts: &Vec<FileParts>,
    request: &MergeRequest,
    disposal: &str,
    confirmation: &str,
    allow_direct_delete: bool,
    restricted: bool,
    root: &Root,
) -> (r: Result<(bool, MergeDraft), String>)
    requires
        parts@.len() == videos@.len(),
    ensures
        ({
            let outcome = merge_asked(
                videos@,
                parts@,
                *request,
                merge_mode_of(disposal@, confirmation@, allow_direct_delete),
                restricted,
                root@,
            );
            match r {
                Ok(started) => outcome == Ok::<(bool, DraftData), Seq<char>>(
                    (started.0, started.1@),
                ) && started.1.fits(videos@.len()),
                Err(message) => outcome == Err::<(bool, DraftData), Seq<char>>(message@),
            }
        }),
{
    let high: i64 = request.high_quality_id;
    let naming: i64 = request.naming_source_id;
    if let Err(message) = check_merge_request(request) {
        return Err(message);
    }
    let backup_mode = match merge_mode(disposal, confirmation, allow_direct_delete) {
        Ok(mode) => mode,
        Err(message) => {
            return Err(message);
        },
    };
    let keeper = match find_video(videos, high) {
        Ok(p) => p,
        Err(message) => {
            return Err(message);
        },
    };
    let source = match find_video(videos, naming) {
        Ok(p) => p,
        Err(message) => {
            return Err(message);
        },
    };
    let named_by: Option<usize> = match request.filename_source_id {
        Some(id) => match find_video(videos, id) {
            Ok(p) => Some(p),
            Err(message) => {
                return Err(message);
            },
        },
        None => None,
    };
    let ids = list_extra_ids(&request.extra_video_ids, high, naming);
    let extras = match find_videos(videos, &ids) {
        Ok(list) => list,
        Err(message) => {
            return Err(message);
        },
    };
    match draft_merge(videos, parts, keeper, source, named_by, extras, restricted, root) {
        Ok(draft) => Ok((backup_mode, draft)),
        Err(message) => Err(message),
    }
}

/// What the files of a merge turned out to be.
#[derive(Debug, Clone)]
pub enum MergeSurvey {
    /// The kept video or the path source is missing: nothing is merged.
    Stale(Vec<String>),
    /// The extras that are there, and those that are missing.
    Ready(Vec<usize>, Vec<usize>),
}

/// The positions of the extras, among the first `n`, that are there or, with `there` false, are
/// missing.
pub open spec fn sorted_out(extras: Seq<int>, states: Seq<FileState>, there: bool, n: int) -> Seq<
    int,
>
    decreases n,
{
    if n <= 0 {
        Seq::empty()
    } else {
        let rest = sorted_out(extras, states, there, n - 1);
        if (states[n - 1] is Present && there) || (states[n - 1] is Missing && !there) {
            rest.push(extras[n - 1])
        } else {
            rest
        }
    }
}

/// The first of the states, from `i` on, that says neither that a file is there nor that it is
/// missing.
pub open spec fn first_unclear(states: Seq<FileState>, i: int) -> int
    decreases states.len() - i,
{
    if i >= states.len() {
        states.len() as int
    } else if states[i] is Present || states[i] is Missing {
        first_unclear(states, i + 1)
    } else {
        i
    }
}

/// The messages that the kept video or the path source is missing.
pub open spec fn stale_messages(
    keeper_path: Seq<char>,
    source_path: Seq<char>,
    keeper_there: bool,
    source_there: bool,
) -> Seq<Seq<char>> {
    (if keeper_there {
        Seq::empty()
    } else {
        seq![
            "recommended keep file is missing; index will remain until manual refresh "@
                + keeper_path,
        ]
    }) + (if source_there {
        Seq::empty()
    } else {
        seq!["path source file is missing; index will remain until manual refresh "@ + source_path]
    })
}

/// Sorts the extras into those that are there and those that are missing; fails at the first of
/// which that cannot be told.
pub fn sort_extras(
    videos: &Vec<VideoRecord>,
    extras: &Vec<usize>,
    states: &Vec<FileState>,
) -> (r: Result<(Vec<usize>, Vec<usize>), String>)
    requires
        forall|k: int| 0 <= k < extras@.len() ==> (#[trigger] extras@[k]) < videos@.len(),
        states@.len() == extras@.len(),
    ensures
        ({
            let n = states@.len() as int;
            let unclear = first_unclear(states@, 0);
            if unclear < n {
                r is Err && Err::<bool, Seq<char>>(r->Err_0@) == files::status(
                    videos@[extras@[unclear] as int].path@,
                    states@[unclear],
                )
            } else {
                r matches Ok(sorted) && positions(sorted.0@) == sorted_out(
                    positions(extras@),
                    states@,
                    true,
                    n,
                ) && positions(sorted.1@) == sorted_out(positions(extras@), states@, false, n) && (
                forall|k: int|
                    0 <= k < sorted.0@.len() ==> (#[trigger] sorted.0@[k]) < videos@.len()) && (
                forall|k: int|
                    0 <= k < sorted.1@.len() ==> (#[trigger] sorted.1@[k]) < videos@.len())
            }
        }),
{
    let mut present: Vec<usize> = Vec::new();
    let mut missing: Vec<usize> = Vec::new();
    let ghost data = positions(extras@);
    let mut i: usize = 0;
    assert(positions(present@) =~= Seq::empty());
    assert(positions(missing@) =~= Seq::empty());
    while i < extras.len()
        invariant
            i <= extras@.len(),
            states@.len() == extras@.len(),
            forall|k: int| 0 <= k < extras@.len() ==> (#[trigger] extras@[k]) < videos@.len(),
            data == positions(extras@),
            first_unclear(states@, 0) == first_unclear(states@, i as int),
            positions(present@) == sorted_out(data, states@, true, i as int),
            positions(missing@) == sorted_out(data, states@, false, i as int),
            forall|k: int| 0 <= k < present@.len() ==> (#[trigger] present@[k]) < videos@.len(),
            forall|k: int| 0 <= k < missing@.len() ==> (#[trigger] missing@[k]) < videos@.len(),
        decreases extras@.len() - i,
    {
        let p: usize = extras[i];
        let ghost present_before = present@;
        let ghost missing_before = missing@;
        assert(data[i as int] == p);
        match existing_file_status(videos[p].path.as_str(), &states[i]) {
            Ok(there) => {
                if there {
                    present.push(p);
                    assert(positions(present@) =~= positions(present_before).push(p as int));
                } else {
                    missing.push(p);
                    assert(positions(missing@) =~= positions(missing_before).push(p as int));
                }
            },
            Err(message) => {
                return Err(message);
            },
        }
        i += 1;
    }
    Ok((present, missing))
}

/// Finds out what can be merged.
pub fn survey_merge(
    videos: &Vec<VideoRecord>,
    draft: &MergeDraft,
    keeper_state: &FileState,
    source_state: &FileState,
    extra_states: &Vec<FileState>,
) -> (r: Result<MergeSurvey, String>)
    requires
        draft.fits(videos@.len()),
        extra_states@.len() == draft.extras@.len(),
    ensures
        ({
            let keeper_path = videos@[draft.keeper as int].path@;
            let source_path = videos@[draft.source as int].path@;
            let keeper = files::status(keeper_path, *keeper_state);
            let source = files::status(source_path, *source_state);
            let n = extra_states@.len() as int;
            let unclear = first_unclear(extra_states@, 0);
            if keeper is Err {
                files::said(r) == Err::<MergeSurvey, Seq<char>>(keeper->Err_0)
            } else if source is Err {
                files::said(r) == Err::<MergeSurvey, Seq<char>>(source->Err_0)
            } else if !keeper->Ok_0 || !source->Ok_0 {
                r matches Ok(MergeSurvey::Stale(messages)) && models::texts(messages@)
                    == stale_messages(keeper_path, source_path, keeper->Ok_0, source->Ok_0)
            } else if unclear < n {
                r is Err && Err::<bool, Seq<char>>(r->Err_0@) == files::status(
                    videos@[draft.extras@[unclear] as int].path@,
                    extra_states@[unclear],
                )
            } else {
                r matches Ok(MergeSurvey::Ready(present, missing)) && positions(present@)
                    == sorted_out(draft@.extras, extra_states@, true, n) && positions(missing@)
                    == sorted_out(draft@.extras, extra_states@, false, n) && (forall|k: int|
                    0 <= k < present@.len() ==> (#[trigger] present@[k]) < videos@.len()) && (
                forall|k: int|
                    0 <= k < missing@.len() ==> (#[trigger] missing@[k]) < videos@.len())
            }
        }),
{
    let keeper_path = videos[draft.keeper].path.as_str();
    let source_path = videos[draft.source].path.as_str();
    let keeper_there = match existing_file_status(keeper_path, keeper_state) {
        Ok(there) => there,
        Err(message) => {
            return Err(message);
        },
    };
    let source_there = match existing_file_status(source_path, source_state) {
        Ok(there) => there,
        Err(message) => {
            return Err(message);
        },
    };
    if !keeper_there || !source_there {
        let mut messages: Vec<String> = Vec::new();
        assert(models::texts(messages@) =~= Seq::empty());
        if !keeper_there {
            add_line(
                &mut messages,
                cat(
                    "recommended keep file is missing; index will remain until manual refresh ",
                    keeper_path,
                ),
            );
        }
        if !source_there {
            add_line(
                &mut messages,
                cat(
                    "path source file is missing; index will remain until manual refresh ",
                    source_path,
                ),
            );
        }
        assert(models::texts(messages@) =~= stale_messages(
            keeper_path@,
            source_path@,
            keeper_there,
            source_there,
        ));
        return Ok(MergeSurvey::Stale(messages));
    }
    match sort_extras(videos, &draft.extras, extra_states) {
        Ok(sorted) => Ok(MergeSurvey::Ready(sorted.0, sorted.1)),
        Err(message) => Err(message),
    }
}

/// Whether a video stands in the way of a merge: its path is that of the kept one, and it neither
/// is the kept one nor goes away.
pub open spec fn in_the_way(
    video: VideoRecord,
    keeper_id: Option<i64>,
    target: Seq<char>,
    gone: Seq<i64>,
) -> bool {
    &&& video.id != keeper_id
    &&& files::path_key(video.path@) == files::path_key(target)
    &&& !(video.id is Some && gone.contains(video.id->0))
}

/// The first video, from `i` on, that stands in the way of a merge, or the number of videos.
pub open spec fn first_in_the_way(
    videos: Seq<VideoRecord>,
    keeper_id: Option<i64>,
    target: Seq<char>,
    gone: Seq<i64>,
    i: int,
) -> int
    decreases videos.len() - i,
{
    if i >= videos.len() {
        videos.len() as int
    } else if in_the_way(videos[i], keeper_id, target, gone) {
        i
    } else {
        first_in_the_way(videos, keeper_id, target, gone, i + 1)
    }
}

/// The ids of some videos, and of the path source where its place is taken.
pub open spec fn ids_gone(videos: Seq<VideoRecord>, draft: DraftData) -> Seq<i64> {
    ids_at(videos, draft.extras, draft.extras.len() as int) + (if draft.keeper != draft.source
        && videos[draft.source].id is Some {
        seq![videos[draft.source].id->0]
    } else {
        Seq::empty()
    })
}

/// The ids of the videos at the first `n` positions.
pub open spec fn ids_at(videos: Seq<VideoRecord>, list: Seq<int>, n: int) -> Seq<i64>
    decreases n,
{
    if n <= 0 {
        Seq::empty()
    } else {
        let rest = ids_at(videos, list, n - 1);
        match videos[list[n - 1]].id {
            Some(id) => rest.push(id),
            None => rest,
        }
    }
}

/// The ids of the videos at some positions.
pub fn list_ids(videos: &Vec<VideoRecord>, list: &Vec<usize>) -> (r: Vec<i64>)
    requires
        forall|k: int| 0 <= k < list@.len() ==> (#[trigger] list@[k]) < videos@.len(),
    ensures
        r@ == ids_at(videos@, positions(list@), list@.len() as int),
{
    let ghost all = positions(list@);
    let mut out: Vec<i64> = Vec::new();
    let mut i: usize = 0;
    while i < list.len()
        invariant
            i <= list@.len(),
            all == positions(list@),
            forall|k: int| 0 <= k < list@.len() ==> (#[trigger] list@[k]) < videos@.len(),
            out@ == ids_at(videos@, all, i as int),
        decreases list@.len() - i,
    {
        assert(all[i as int] == list@[i as int]);
        if let Some(id) = videos[list[i]].id {
            out.push(id);
        }
        i += 1;
    }
    out
}

/// The first video that stands in the way of a merge.
pub fn find_conflict(videos: &Vec<VideoRecord>, draft: &MergeDraft) -> (r: Option<usize>)
    requires
        draft.fits(videos@.len()),
    ensures
        ({
            let at = first_in_the_way(
                videos@,
                videos@[draft.keeper as int].id,
                draft.final_path@,
                ids_gone(videos@, draft@),
                0,
            );
            match r {
                Some(i) => i == at && i < videos@.len(),
                None => at == videos@.len(),
            }
        }),
{
    let mut gone = list_ids(videos, &draft.extras);
    if draft.keeper != draft.source {
        if let Some(id) = videos[draft.source].id {
            gone.push(id);
        }
    }
    assert(gone@ =~= ids_gone(videos@, draft@));
    let keeper_id: Option<i64> = videos[draft.keeper].id;
    let target = path_key_for_path(draft.final_path.as_str());
    let mut i: usize = 0;
    while i < videos.len()
        invariant
            i <= videos@.len(),
            draft.fits(videos@.len()),
            keeper_id == videos@[draft.keeper as int].id,
            gone@ == ids_gone(videos@, draft@),
            target@ == files::path_key(draft.final_path@),
            first_in_the_way(videos@, keeper_id, draft.final_path@, gone@, 0) == first_in_the_way(
                videos@,
                keeper_id,
                draft.final_path@,
                gone@,
                i as int,
            ),
        decreases videos@.len() - i,
    {
        let own = path_key_for_path(videos[i].path.as_str());
        let goes = match videos[i].id {
            Some(id) => has_id(&gone, id),
            None => false,
        };
        if videos[i].id != keeper_id && same_text(own.as_str(), target.as_str()) && !goes {
            return Some(i);
        }
        i += 1;
    }
    None
}

/// An optional id, as it is shown.
pub open spec fn shown_id(id: Option<i64>) -> Seq<char> {
    match id {
        Some(n) => "Some("@ + text::signed_decimal(n as int) + ")"@,
        None => "None"@,
    }
}

/// An optional id, as it is shown.
pub fn show_id(id: Option<i64>) -> (r: String)
    ensures
        r@ == shown_id(id),
{
    match id {
        Some(n) => cat3("Some(", signed_decimal_text(n).as_str(), ")"),
        None => "None".to_owned(),
    }
}

/// Why a video at the path of the kept one forbids the merge: its file is there, or that cannot
/// be told.
pub open spec fn conflict_trouble(video: VideoRecord, state: FileState) -> Option<Seq<char>> {
    match files::status(video.path@, state) {
        Err(message) => Some(message),
        Ok(false) => None,
        Ok(true) => Some(
            "merge target path is owned by unrelated video id "@ + shown_id(video.id) + ": "@
                + video.path@,
        ),
    }
}

/// Fails where a video at the path of the kept one forbids the merge.
pub fn check_conflict(video: &VideoRecord, state: &FileState) -> (r: Result<(), String>)
    ensures
        files::trouble(r) == conflict_trouble(*video, *state),
{
    match existing_file_status(video.path.as_str(), state) {
        Err(message) => Err(message),
        Ok(there) => if there {
            Err(
                cat4(
                    "merge target path is owned by unrelated video id ",
                    show_id(video.id).as_str(),
                    ": ",
                    video.path.as_str(),
                ),
            )
        } else {
            Ok(())
        },
    }
}

/// What is done with a file.
#[derive(Debug, Clone)]
pub enum FileAction {
    Move { from: String, to: String },
    Delete { path: String },
}

/// What is done with a file, as text.
pub enum ActionData {
    Move { from: Seq<char>, to: Seq<char> },
    Delete { path: Seq<char> },
}

impl View for FileAction {
    type V = ActionData;

    open spec fn view(&self) -> ActionData {
        match *self {
            FileAction::Move { from, to } => ActionData::Move { from: from@, to: to@ },
            FileAction::Delete { path } => ActionData::Delete { path: path@ },
        }
    }
}

/// What a step of a merge is for.
#[derive(Debug, Clone, Copy, PartialEq, Eq, Structural)]
pub enum StepRole {
    /// The path source leaves its place.
    SourceAway,
    /// The kept video takes the place.
    KeeperIn,
    /// An extra goes away.
    ExtraAway,
    /// The kept video gets its name.
    Rename,
}

/// One step of a merge.
#[derive(Debug, Clone)]
pub struct MergeStep {
    pub role: StepRole,
    pub action: FileAction,
}

/// One step of a merge, as text.
pub struct StepData {
    pub role: StepRole,
    pub action: ActionData,
}

/// Steps, as text.
pub open spec fn steps_data(list: Seq<MergeStep>) -> Seq<StepData> {
    list.map_values(|s: MergeStep| StepData { role: s.role, action: s.action@ })
}

/// How a file goes away: to its backup where there is one, or for good.
pub open spec fn away(path: Seq<char>, backup: Option<Seq<char>>) -> ActionData {
    match backup {
        Some(to) => ActionData::Move { from: path, to },
        None => ActionData::Delete { path },
    }
}

/// The backup of the extra at `k`, where extras are backed up.
pub open spec fn nth_backup(backups: Option<Seq<Seq<char>>>, k: int) -> Option<Seq<char>> {
    match backups {
        Some(list) => Some(list[k]),
        None => None,
    }
}

/// Where the kept video stands once it took the place of the path source.
pub open spec fn keeper_path(videos: Seq<VideoRecord>, draft: DraftData) -> Seq<char> {
    if draft.keeper != draft.source {
        videos[draft.source].path@
    } else {
        videos[draft.keeper].path@
    }
}

/// The steps that put the kept video in the place of the path source.
pub open spec fn place_steps(
    videos: Seq<VideoRecord>,
    draft: DraftData,
    source_backup: Option<Seq<char>>,
) -> Seq<StepData> {
    if draft.keeper != draft.source {
        seq![
            StepData {
                role: StepRole::SourceAway,
                action: away(videos[draft.source].path@, source_backup),
            },
            StepData {
                role: StepRole::KeeperIn,
                action: ActionData::Move {
                    from: videos[draft.keeper].path@,
                    to: videos[draft.source].path@,
                },
            },
        ]
    } else {
        Seq::empty()
    }
}

/// The steps that put extras away.
pub open spec fn extra_steps(
    videos: Seq<VideoRecord>,
    taken: Seq<int>,
    backups: Option<Seq<Seq<char>>>,
) -> Seq<StepData> {
    Seq::new(
        taken.len(),
        |k: int|
            StepData {
                role: StepRole::ExtraAway,
                action: away(videos[taken[k]].path@, nth_backup(backups, k)),
            },
    )
}

/// Whether the kept video gets another path than the one where it is once it took the place of the
/// path source.
pub open spec fn is_renamed(videos: Seq<VideoRecord>, draft: DraftData) -> bool {
    !paths::same_place(draft.host, draft.final_path, keeper_path(videos, draft))
}

/// Whether the kept video changes its path at all.
pub open spec fn keeper_moves(videos: Seq<VideoRecord>, draft: DraftData) -> bool {
    draft.keeper != draft.source || !paths::same_place(
        draft.host,
        draft.final_path,
        videos[draft.keeper].path@,
    )
}

/// The step that gives the kept video its name.
pub open spec fn name_steps(videos: Seq<VideoRecord>, draft: DraftData) -> Seq<StepData> {
    let here = keeper_path(videos, draft);
    if is_renamed(videos, draft) {
        seq![
            StepData {
                role: StepRole::Rename,
                action: ActionData::Move { from: here, to: draft.final_path },
            },
        ]
    } else {
        Seq::empty()
    }
}

/// The steps of a merge, in order.
pub open spec fn merge_steps_of(
    videos: Seq<VideoRecord>,
    draft: DraftData,
    taken: Seq<int>,
    source_backup: Option<Seq<char>>,
    backups: Option<Seq<Seq<char>>>,
) -> Seq<StepData> {
    place_steps(videos, draft, source_backup) + extra_steps(videos, taken, backups) + name_steps(
        videos,
        draft,
    )
}

/// The texts of an optional list.
pub open spec fn opt_texts(list: Option<Vec<String>>) -> Option<Seq<Seq<char>>> {
    match list {
        Some(v) => Some(models::texts(v@)),
        None => None,
    }
}

fn add_step(list: &mut Vec<MergeStep>, role: StepRole, action: FileAction)
    ensures
        steps_data(final(list)@) == steps_data(old(list)@).push(
            StepData { role, action: action@ },
        ),
{
    let ghost before = list@;
    list.push(MergeStep { role, action });
    assert(steps_data(list@) =~= steps_data(before).push(StepData { role, action: action@ }));
}

/// The steps of a merge, in order. `taken` are the extras that are put away; with backups each
/// has its own, without them files are deleted.
pub fn merge_steps(
    videos: &Vec<VideoRecord>,
    draft: &MergeDraft,
    taken: &Vec<usize>,
    source_backup: &Option<String>,
    backups: &Option<Vec<String>>,
) -> (r: Vec<MergeStep>)
    requires
        draft.fits(videos@.len()),
        forall|k: int| 0 <= k < taken@.len() ==> (#[trigger] taken@[k]) < videos@.len(),
        backups matches Some(list) ==> list@.len() == taken@.len(),
    ensures
        steps_data(r@) == merge_steps_of(
            videos@,
            draft@,
            positions(taken@),
            models::opt_text(*source_backup),
            opt_texts(*backups),
        ),
{
    let mut out: Vec<MergeStep> = Vec::new();
    let ghost first = place_steps(videos@, draft@, models::opt_text(*source_backup));
    let ghost extras = extra_steps(videos@, positions(taken@), opt_texts(*backups));
    assert(steps_data(out@) =~= Seq::empty());
    if draft.keeper != draft.source {
        let from = videos[draft.source].path.clone();
        match source_backup {
            Some(to) => add_step(
                &mut out,
                StepRole::SourceAway,
                FileAction::Move { from, to: to.clone() },
            ),
            None => add_step(&mut out, StepRole::SourceAway, FileAction::Delete { path: from }),
        }
        add_step(
            &mut out,
            StepRole::KeeperIn,
            FileAction::Move {
                from: videos[draft.keeper].path.clone(),
                to: videos[draft.source].path.clone(),
            },
        );
    }
    assert(steps_data(out@) =~= first);
    let mut i: usize = 0;
    assert(extras.take(0) =~= Seq::empty());
    assert(first + extras.take(0) =~= first);
    while i < taken.len()
        invariant
            i <= taken@.len(),
            forall|k: int| 0 <= k < taken@.len() ==> (#[trigger] taken@[k]) < videos@.len(),
            backups matches Some(list) ==> list@.len() == taken@.len(),
            extras == extra_steps(videos@, positions(taken@), opt_texts(*backups)),
            steps_data(out@) == first + extras.take(i as int),
        decreases taken@.len() - i,
    {
        let ghost before = steps_data(out@);
        let from = videos[taken[i]].path.clone();
        match backups {
            Some(list) => add_step(
                &mut out,
                StepRole::ExtraAway,
                FileAction::Move { from, to: list[i].clone() },
            ),
            None => add_step(&mut out, StepRole::ExtraAway, FileAction::Delete { path: from }),
        }
        assert(positions(taken@)[i as int] == taken@[i as int]);
        assert(steps_data(out@) == before.push(extras[i as int]));
        assert(first + extras.take(i + 1) =~= (first + extras.take(i as int)).push(
            extras[i as int],
        ));
        i += 1;
    }
    assert(extras.take(i as int) =~= extras);
    let here: String = if draft.keeper != draft.source {
        videos[draft.source].path.clone()
    } else {
        videos[draft.keeper].path.clone()
    };
    let ghost before = steps_data(out@);
    if !paths::same_path(draft.host, draft.final_path.as_str(), here.as_str()) {
        add_step(
            &mut out,
            StepRole::Rename,
            FileAction::Move { from: here, to: draft.final_path.clone() },
        );
        assert(steps_data(out@) =~= before + name_steps(videos@, draft@));
    } else {
        assert(before + name_steps(videos@, draft@) =~= before);
    }
    out
}

/// With backups a merge deletes no file: every step moves one.
pub proof fn law_backups_delete_nothing(
    videos: Seq<VideoRecord>,
    draft: DraftData,
    taken: Seq<int>,
    source_backup: Seq<char>,
    backups: Seq<Seq<char>>,
    k: int,
)
    requires
        0 <= k < merge_steps_of(videos, draft, taken, Some(source_backup), Some(backups)).len(),
    ensures
        merge_steps_of(videos, draft, taken, Some(source_backup), Some(backups))[k].action is Move,
{
}

/// A file system: what each path holds.
pub type Disk = Map<Seq<char>, int>;

/// The file system after a step that went well.
pub open spec fn stepped(disk: Disk, action: ActionData) -> Disk {
    match action {
        ActionData::Move { from, to } => disk.remove(from).insert(to, disk[from]),
        ActionData::Delete { path } => disk.remove(path),
    }
}

/// The file system after the first `n` steps, all of which went well.
pub open spec fn after_steps(disk: Disk, steps: Seq<StepData>, n: int) -> Disk
    decreases n,
{
    if n <= 0 {
        disk
    } else {
        stepped(after_steps(disk, steps, n - 1), steps[n - 1].action)
    }
}

/// Whether the files of a merge are there under different paths, and the backups get paths of
/// their own where nothing stands.
pub open spec fn is_safe_merge(
    disk: Disk,
    videos: Seq<VideoRecord>,
    draft: DraftData,
    taken: Seq<int>,
    source_backup: Seq<char>,
    backups: Seq<Seq<char>>,
) -> bool {
    let kept = videos[draft.keeper].path@;
    let source = videos[draft.source].path@;
    &&& backups.len() == taken.len()
    &&& disk.dom().contains(kept) && disk.dom().contains(source)
    &&& draft.keeper != draft.source ==> kept != source
    &&& forall|k: int|
        #![trigger taken[k]]
        0 <= k < taken.len() ==> disk.dom().contains(videos[taken[k]].path@)
            && videos[taken[k]].path@ != kept && videos[taken[k]].path@ != source
    &&& forall|i: int, j: int|
        #![trigger taken[i], taken[j]]
        0 <= i < j < taken.len() ==> videos[taken[i]].path@ != videos[taken[j]].path@
    &&& !disk.dom().contains(source_backup) && source_backup != draft.final_path
    &&& forall|k: int|
        #![trigger backups[k]]
        0 <= k < backups.len() ==> !disk.dom().contains(backups[k]) && backups[k] != source_backup
            && backups[k] != draft.final_path
    &&& backups.no_duplicates()
}

proof fn lemma_after_placing(
    disk: Disk,
    videos: Seq<VideoRecord>,
    draft: DraftData,
    taken: Seq<int>,
    source_backup: Seq<char>,
    backups: Seq<Seq<char>>,
    n: int,
)
    requires
        is_safe_merge(disk, videos, draft, taken, source_backup, backups),
        0 <= n <= taken.len(),
    ensures
        ({
            let steps = merge_steps_of(videos, draft, taken, Some(source_backup), Some(backups));
            let moved: int = if draft.keeper != draft.source {
                2
            } else {
                0
            };
            let now = after_steps(disk, steps, moved + n);
            &&& now.dom().contains(keeper_path(videos, draft))
            &&& now[keeper_path(videos, draft)] == disk[videos[draft.keeper].path@]
            &&& draft.keeper != draft.source ==> now.dom().contains(source_backup)
                && now[source_backup] == disk[videos[draft.source].path@]
            &&& forall|k: int|
                #![trigger backups[k]]
                0 <= k < n ==> now.dom().contains(backups[k]) && now[backups[k]]
                    == disk[videos[taken[k]].path@]
            &&& forall|k: int|
                #![trigger taken[k]]
                n <= k < taken.len() ==> now.dom().contains(videos[taken[k]].path@)
                    && now[videos[taken[k]].path@] == disk[videos[taken[k]].path@]
        }),
    decreases n,
{
    let steps = merge_steps_of(videos, draft, taken, Some(source_backup), Some(backups));
    let moved: int = if draft.keeper != draft.source {
        2
    } else {
        0
    };
    let kept = videos[draft.keeper].path@;
    let source = videos[draft.source].path@;
    if n == 0 {
        if draft.keeper != draft.source {
            assert(steps[0].action == ActionData::Move { from: source, to: source_backup });
            assert(steps[1].action == ActionData::Move { from: kept, to: source });
            reveal_with_fuel(after_steps, 3);
            let one = stepped(disk, steps[0].action);
            assert(one[kept] == disk[kept]);
            assert(after_steps(disk, steps, 2) == stepped(one, steps[1].action));
        }
    } else {
        lemma_after_placing(disk, videos, draft, taken, source_backup, backups, n - 1);
        let before = after_steps(disk, steps, moved + n - 1);
        let here = videos[taken[n - 1]].path@;
        assert(steps[moved + n - 1].action == ActionData::Move { from: here, to: backups[n - 1] });
        let now = after_steps(disk, steps, moved + n);
        assert(now == before.remove(here).insert(backups[n - 1], before[here]));
        assert(disk.dom().contains(here));
        assert forall|k: int|
            #![trigger backups[k]]
            0 <= k < n implies now.dom().contains(backups[k]) && now[backups[k]]
            == disk[videos[taken[k]].path@] by {
            if k < n - 1 {
                assert(backups[k] != backups[n - 1]);
                assert(backups[k] != here);
            }
        }
        assert forall|k: int|
            #![trigger taken[k]]
            n <= k < taken.len() implies now.dom().contains(videos[taken[k]].path@)
            && now[videos[taken[k]].path@] == disk[videos[taken[k]].path@] by {
            assert(videos[taken[n - 1]].path@ != videos[taken[k]].path@);
            assert(backups[n - 1] != videos[taken[k]].path@);
        }
    }
}

/// Where the kept video is in the end: at the path that it was to get, as that path was written
/// where the file did not have to be renamed.
pub open spec fn kept_at(videos: Seq<VideoRecord>, draft: DraftData) -> Seq<char> {
    if is_renamed(videos, draft) {
        draft.final_path
    } else {
        keeper_path(videos, draft)
    }
}

/// A merge with backups loses nothing: in the end the kept video is at the path that it was to
/// get, the path source is at its backup, and so is every extra.
pub proof fn law_merge_with_backups_keeps_all(
    disk: Disk,
    videos: Seq<VideoRecord>,
    draft: DraftData,
    taken: Seq<int>,
    source_backup: Seq<char>,
    backups: Seq<Seq<char>>,
)
    requires
        is_safe_merge(disk, videos, draft, taken, source_backup, backups),
    ensures
        ({
            let steps = merge_steps_of(videos, draft, taken, Some(source_backup), Some(backups));
            let end = after_steps(disk, steps, steps.len() as int);
            let at = kept_at(videos, draft);
            &&& paths::same_place(draft.host, draft.final_path, at)
            &&& end.dom().contains(at)
            &&& end[at] == disk[videos[draft.keeper].path@]
            &&& draft.keeper != draft.source ==> end.dom().contains(source_backup)
                && end[source_backup] == disk[videos[draft.source].path@]
            &&& forall|k: int|
                #![trigger backups[k]]
                0 <= k < backups.len() ==> end.dom().contains(backups[k]) && end[backups[k]]
                    == disk[videos[taken[k]].path@]
        }),
{
    let steps = merge_steps_of(videos, draft, taken, Some(source_backup), Some(backups));
    let moved: int = if draft.keeper != draft.source {
        2
    } else {
        0
    };
    let n = taken.len() as int;
    lemma_after_placing(disk, videos, draft, taken, source_backup, backups, n);
    let here = keeper_path(videos, draft);
    let before = after_steps(disk, steps, moved + n);
    if is_renamed(videos, draft) {
        assert(steps.len() == moved + n + 1);
        assert(steps[moved + n].action == ActionData::Move { from: here, to: draft.final_path });
        let end = after_steps(disk, steps, moved + n + 1);
        assert(end == before.remove(here).insert(draft.final_path, before[here]));
        assert(disk.dom().contains(here));
        assert forall|k: int|
            #![trigger backups[k]]
            0 <= k < backups.len() implies end.dom().contains(backups[k]) && end[backups[k]]
            == disk[videos[taken[k]].path@] by {
            assert(backups[k] != here);
        }
    } else {
        assert(steps.len() == moved + n);
    }
}

/// What came of a step.
#[derive(Debug, Clone)]
pub enum StepOutcome {
    Done,
    /// The file was not there any more.
    Missing,
    /// The step failed with an error.
    Failed(String),
    /// What stands at the paths of the step forbids it; the message is given.
    Refused(String),
}

/// The path that is looked at before a step: that of an extra that is put away, or the one that the
/// kept video is renamed to.
pub open spec fn probed(step: StepData) -> Option<Seq<char>> {
    match (step.role, step.action) {
        (StepRole::ExtraAway, ActionData::Move { from, to: _ }) => Some(from),
        (StepRole::ExtraAway, ActionData::Delete { path }) => Some(path),
        (StepRole::Rename, ActionData::Move { from: _, to }) => Some(to),
        _ => None,
    }
}

/// The path that is looked at before a step, if one is.
pub fn probe_of_step(step: &MergeStep) -> (r: Option<String>)
    ensures
        models::opt_text(r) == probed(StepData { role: step.role, action: step.action@ }),
{
    match (&step.role, &step.action) {
        (StepRole::ExtraAway, FileAction::Move { from, .. }) => Some(from.clone()),
        (StepRole::ExtraAway, FileAction::Delete { path }) => Some(path.clone()),
        (StepRole::Rename, FileAction::Move { to, .. }) => Some(to.clone()),
        _ => None,
    }
}

/// What comes of a step before anything is done: an extra that is missing is left, and what stands
/// in the way of a step forbids it. `path` and `state` are what was looked at.
pub fn check_step(step: &MergeStep, path: &str, state: &FileState) -> (r: Option<StepOutcome>)
    ensures
        match step.role {
            StepRole::ExtraAway => match files::status(path@, *state) {
                Ok(true) => r is None,
                Ok(false) => r == Some(StepOutcome::Missing),
                Err(told) => r matches Some(StepOutcome::Refused(message)) && message@ == told,
            },
            StepRole::Rename => match files::destination_trouble(path@, *state) {
                None => r is None,
                Some(told) => r matches Some(StepOutcome::Refused(message)) && message@ == told,
            },
            _ => r is None,
        },
{
    match step.role {
        StepRole::ExtraAway => match existing_file_status(path, state) {
            Ok(true) => None,
            Ok(false) => Some(StepOutcome::Missing),
            Err(message) => Some(StepOutcome::Refused(message)),
        },
        StepRole::Rename => match files::ensure_destination_available(path, state) {
            Ok(_) => None,
            Err(message) => Some(StepOutcome::Refused(message)),
        },
        _ => None,
    }
}

/// A move that is recorded for a rollback: of the file of the video at a position.
#[derive(Debug, Clone)]
pub struct RecordedMove {
    pub place: usize,
    pub from: String,
    pub to: String,
}

/// What a recorded move says.
#[verifier::ext_equal]
pub struct MoveData {
    pub place: int,
    pub from: Seq<char>,
    pub to: Seq<char>,
}

/// What recorded moves say.
pub open spec fn moves_data(list: Seq<RecordedMove>) -> Seq<MoveData> {
    list.map_values(
        |own: RecordedMove| MoveData { place: own.place as int, from: own.from@, to: own.to@ },
    )
}

/// The moves that are recorded for a merge with backups: that of the path source where the kept
/// video takes its place, that of the kept video to the path it ends at, where it is recorded, and
/// those of the extras.
pub open spec fn recorded(
    videos: Seq<VideoRecord>,
    draft: DraftData,
    taken: Seq<int>,
    source_backup: Option<Seq<char>>,
    backups: Seq<Seq<char>>,
    with_keeper: bool,
) -> Seq<MoveData> {
    let source = match source_backup {
        Some(to) if draft.keeper != draft.source => seq![
            MoveData { place: draft.source, from: videos[draft.source].path@, to },
        ],
        _ => Seq::empty(),
    };
    let kept = if with_keeper {
        seq![
            MoveData {
                place: draft.keeper,
                from: videos[draft.keeper].path@,
                to: draft.final_path,
            },
        ]
    } else {
        Seq::empty()
    };
    source + kept + Seq::new(
        taken.len(),
        |k: int| MoveData { place: taken[k], from: videos[taken[k]].path@, to: backups[k] },
    )
}

fn add_move(list: &mut Vec<RecordedMove>, place: usize, from: &str, to: &str)
    ensures
        moves_data(final(list)@) == moves_data(old(list)@).push(
            MoveData { place: place as int, from: from@, to: to@ },
        ),
{
    let ghost before = list@;
    list.push(RecordedMove { place, from: from.to_owned(), to: to.to_owned() });
    assert(moves_data(list@) =~= moves_data(before).push(
        MoveData { place: place as int, from: from@, to: to@ },
    ));
}

/// The moves that are recorded for a merge with backups.
fn list_moves(
    videos: &Vec<VideoRecord>,
    draft: &MergeDraft,
    taken: &Vec<usize>,
    source_backup: &Option<String>,
    backups: &Vec<String>,
    with_keeper: bool,
) -> (r: Vec<RecordedMove>)
    requires
        draft.fits(videos@.len()),
        forall|k: int| 0 <= k < taken@.len() ==> (#[trigger] taken@[k]) < videos@.len(),
        backups@.len() == taken@.len(),
    ensures
        moves_data(r@) == recorded(
            videos@,
            draft@,
            positions(taken@),
            models::opt_text(*source_backup),
            models::texts(backups@),
            with_keeper,
        ),
{
    let mut out: Vec<RecordedMove> = Vec::new();
    let ghost whole = recorded(
        videos@,
        draft@,
        positions(taken@),
        models::opt_text(*source_backup),
        models::texts(backups@),
        with_keeper,
    );
    assert(moves_data(out@) =~= Seq::empty());
    if draft.keeper != draft.source {
        if let Some(to) = source_backup {
            add_move(&mut out, draft.source, videos[draft.source].path.as_str(), to.as_str());
        }
    }
    let keeper = videos[draft.keeper].path.as_str();
    if with_keeper {
        add_move(&mut out, draft.keeper, keeper, draft.final_path.as_str());
    }
    let ghost head = moves_data(out@);
    let mut i: usize = 0;
    assert(head.len() + taken@.len() == whole.len());
    assert(head =~= whole.take(head.len() as int));
    while i < taken.len()
        invariant
            i <= taken@.len(),
            forall|k: int| 0 <= k < taken@.len() ==> (#[trigger] taken@[k]) < videos@.len(),
            backups@.len() == taken@.len(),
            whole == recorded(
                videos@,
                draft@,
                positions(taken@),
                models::opt_text(*source_backup),
                models::texts(backups@),
                with_keeper,
            ),
            head.len() + taken@.len() == whole.len(),
            moves_data(out@) == whole.take(head.len() + i),
        decreases taken@.len() - i,
    {
        let place: usize = taken[i];
        let ghost before = moves_data(out@);
        add_move(&mut out, place, videos[place].path.as_str(), backups[i].as_str());
        assert(whole[head.len() + i] == MoveData {
            place: place as int,
            from: videos@[place as int].path@,
            to: backups@[i as int]@,
        });
        assert(whole.take(head.len() + i + 1) =~= before.push(whole[head.len() + i]));
        i += 1;
    }
    assert(whole.take(head.len() + i) =~= whole);
    out
}

/// The moves that are recorded for the merge of a selection with backups. That of the kept video is
/// always recorded, also where it stays at its path.
pub fn recorded_moves(
    videos: &Vec<VideoRecord>,
    draft: &MergeDraft,
    taken: &Vec<usize>,
    source_backup: &Option<String>,
    backups: &Vec<String>,
) -> (r: Vec<RecordedMove>)
    requires
        draft.fits(videos@.len()),
        forall|k: int| 0 <= k < taken@.len() ==> (#[trigger] taken@[k]) < videos@.len(),
        backups@.len() == taken@.len(),
    ensures
        moves_data(r@) == recorded(
            videos@,
            draft@,
            positions(taken@),
            models::opt_text(*source_backup),
            models::texts(backups@),
            true,
        ),
{
    list_moves(videos, draft, taken, source_backup, backups, true)
}

/// The moves that are recorded for a group of a batch that is merged with backups. That of the kept
/// video is recorded where it changes its path.
pub fn recorded_group_moves(
    videos: &Vec<VideoRecord>,
    draft: &MergeDraft,
    taken: &Vec<usize>,
    source_backup: &Option<String>,
    backups: &Vec<String>,
) -> (r: Vec<RecordedMove>)
    requires
        draft.fits(videos@.len()),
        forall|k: int| 0 <= k < taken@.len() ==> (#[trigger] taken@[k]) < videos@.len(),
        backups@.len() == taken@.len(),
    ensures
        moves_data(r@) == recorded(
            videos@,
            draft@,
            positions(taken@),
            models::opt_text(*source_backup),
            models::texts(backups@),
            keeper_moves(videos@, draft@),
        ),
{
    let moves = moves_keeper(videos, draft);
    list_moves(videos, draft, taken, source_backup, backups, moves)
}

/// Whether the kept video changes its path at all.
pub fn moves_keeper(videos: &Vec<VideoRecord>, draft: &MergeDraft) -> (r: bool)
    requires
        draft.fits(videos@.len()),
    ensures
        r == keeper_moves(videos@, draft@),
{
    draft.keeper != draft.source || !paths::same_path(
        draft.host,
        draft.final_path.as_str(),
        videos[draft.keeper].path.as_str(),
    )
}

/// Why a merge of a selection stops at a step that failed.
pub open spec fn selection_failure(step: StepData, error: Seq<char>) -> Seq<char> {
    match (step.role, step.action) {
        (StepRole::SourceAway, ActionData::Move { from: _, to }) => "move target to backup "@ + to,
        (StepRole::KeeperIn, _) =>
            "failed to move recommended keep file into target path; rollback attempted when possible: "@
            + error,
        (StepRole::ExtraAway, ActionData::Move { from, to: _ }) => "move "@ + from + " to backup"@,
        (StepRole::Rename, ActionData::Move { from, to }) => "rename kept video "@ + from + " to "@
            + to,
        (_, ActionData::Delete { path }) => "delete "@ + path,
    }
}

/// Why a merge of a selection stops at a step that failed.
pub fn selection_failure_text(step: &MergeStep, error: &str) -> (r: String)
    ensures
        r@ == selection_failure(StepData { role: step.role, action: step.action@ }, error@),
{
    match (step.role, &step.action) {
        (StepRole::SourceAway, FileAction::Move { from: _, to }) => cat(
            "move target to backup ",
            to.as_str(),
        ),
        (StepRole::KeeperIn, _) => cat(
            "failed to move recommended keep file into target path; rollback attempted when possible: ",
            error,
        ),
        (StepRole::ExtraAway, FileAction::Move { from, to: _ }) => cat3(
            "move ",
            from.as_str(),
            " to backup",
        ),
        (StepRole::Rename, FileAction::Move { from, to }) => cat4(
            "rename kept video ",
            from.as_str(),
            " to ",
            to.as_str(),
        ),
        (_, FileAction::Delete { path }) => cat("delete ", path.as_str()),
    }
}

/// The move that undoes the first step where the kept video could not take the place: the path
/// source comes back from its backup. Without a backup there is none.
pub open spec fn undoing(step: StepData, first: StepData) -> Option<ActionData> {
    match (step.role, first.action) {
        (StepRole::KeeperIn, ActionData::Move { from, to }) => Some(
            ActionData::Move { from: to, to: from },
        ),
        _ => None,
    }
}

/// The move that undoes the first step where the kept video could not take the place.
pub fn undo_after(step: &MergeStep, first: &MergeStep) -> (r: Option<FileAction>)
    ensures
        (match r {
            Some(action) => Some(action@),
            None => None,
        }) == undoing(
            StepData { role: step.role, action: step.action@ },
            StepData { role: first.role, action: first.action@ },
        ),
{
    match (step.role, &first.action) {
        (StepRole::KeeperIn, FileAction::Move { from, to }) => Some(
            FileAction::Move { from: to.clone(), to: from.clone() },
        ),
        _ => None,
    }
}

/// Where the kept video could not take the place, undoing the first step gives back the files as
/// they were.
pub proof fn law_undoing_restores(disk: Disk, from: Seq<char>, to: Seq<char>)
    requires
        disk.dom().contains(from),
        !disk.dom().contains(to),
    ensures
        stepped(stepped(disk, ActionData::Move { from, to }), ActionData::Move { from: to, to: from })
            == disk,
{
    let there = stepped(disk, ActionData::Move { from, to });
    let back = stepped(there, ActionData::Move { from: to, to: from });
    assert(back =~= disk);
}

/// The message of an extra that was put away, or was not there.
pub open spec fn extra_message(step: StepData, done: bool) -> Seq<char> {
    match step.action {
        ActionData::Move { from, to } => if done {
            "moved "@ + from + " to backup "@ + to
        } else {
            "extra file is missing; index will remain until manual refresh "@ + from
        },
        ActionData::Delete { path } => if done {
            "deleted "@ + path
        } else {
            "extra file is missing; index will remain until manual refresh "@ + path
        },
    }
}

fn extra_text(step: &MergeStep, done: bool) -> (r: String)
    ensures
        r@ == extra_message(StepData { role: step.role, action: step.action@ }, done),
{
    match &step.action {
        FileAction::Move { from, to } => if done {
            cat4("moved ", from.as_str(), " to backup ", to.as_str())
        } else {
            cat(
                "extra file is missing; index will remain until manual refresh ",
                from.as_str(),
            )
        },
        FileAction::Delete { path } => if done {
            cat("deleted ", path.as_str())
        } else {
            cat(
                "extra file is missing; index will remain until manual refresh ",
                path.as_str(),
            )
        },
    }
}

/// The messages of the steps on extras, among the first `n`.
pub open spec fn extra_messages(steps: Seq<StepData>, done: Seq<bool>, n: int) -> Seq<Seq<char>>
    decreases n,
{
    if n <= 0 {
        Seq::empty()
    } else {
        let rest = extra_messages(steps, done, n - 1);
        if steps[n - 1].role == StepRole::ExtraAway {
            rest.push(extra_message(steps[n - 1], done[n - 1]))
        } else {
            rest
        }
    }
}

/// Messages that extras were missing from the start.
pub open spec fn missing_messages(videos: Seq<VideoRecord>, missing: Seq<int>, n: int) -> Seq<
    Seq<char>,
>
    decreases n,
{
    if n <= 0 {
        Seq::empty()
    } else {
        missing_messages(videos, missing, n - 1).push(
            "extra file is missing; index will be removed "@ + videos[missing[n - 1]].path@,
        )
    }
}

/// How the path source went away.
pub open spec fn source_message(
    videos: Seq<VideoRecord>,
    draft: DraftData,
    source_backup: Option<Seq<char>>,
) -> Seq<char> {
    match source_backup {
        Some(to) => "moved path source "@ + videos[draft.source].path@ + " to backup "@ + to,
        None => "deleted path source "@ + videos[draft.source].path@,
    }
}

/// The ids that leave the index once a selection was merged.
pub open spec fn selection_gone(
    videos: Seq<VideoRecord>,
    draft: DraftData,
    present: Seq<int>,
    missing: Seq<int>,
) -> Seq<i64> {
    (if draft.keeper != draft.source && videos[draft.source].id is Some {
        seq![videos[draft.source].id->0]
    } else {
        Seq::empty()
    }) + ids_at(videos, present, present.len() as int) + ids_at(
        videos,
        missing,
        missing.len() as int,
    )
}

/// All messages of a merged selection.
pub open spec fn selection_messages(
    videos: Seq<VideoRecord>,
    draft: DraftData,
    present: Seq<int>,
    missing: Seq<int>,
    source_backup: Option<Seq<char>>,
    steps: Seq<StepData>,
    done: Seq<bool>,
) -> Seq<Seq<char>> {
    let head = (if draft.keeper != draft.source {
        seq![source_message(videos, draft, source_backup)]
    } else {
        Seq::empty()
    }).push(
        "moved recommended keep "@ + videos[draft.keeper].path@ + " into "@ + draft.final_path,
    );
    let body = head + missing_messages(videos, missing, missing.len() as int) + extra_messages(
        steps,
        done,
        steps.len() as int,
    );
    (if is_renamed(videos, draft) {
        body.push("renamed kept video to filename source path "@ + draft.final_path)
    } else {
        body
    }).push(
        "index migrated: kept video id "@ + text::signed_decimal(videos[draft.keeper].id->0 as int)
            + " at "@ + draft.final_path + " and removed "@ + text::decimal(
            selection_gone(videos, draft, present, missing).len(),
        ) + " merged-away ids"@,
    )
}

/// What a merged selection comes to: the ids that leave the index, and the messages.
#[derive(Debug, Clone)]
pub struct MergeConclusion {
    pub removed_ids: Vec<i64>,
    pub messages: Vec<String>,
}

/// What a merged selection comes to. `done` tells of each step whether the file was there.
pub fn conclude_merge(
    videos: &Vec<VideoRecord>,
    draft: &MergeDraft,
    present: &Vec<usize>,
    missing: &Vec<usize>,
    source_backup: &Option<String>,
    steps: &Vec<MergeStep>,
    done: &Vec<bool>,
) -> (r: MergeConclusion)
    requires
        draft.fits(videos@.len()),
        videos@[draft.keeper as int].id is Some,
        forall|k: int| 0 <= k < present@.len() ==> (#[trigger] present@[k]) < videos@.len(),
        forall|k: int| 0 <= k < missing@.len() ==> (#[trigger] missing@[k]) < videos@.len(),
        done@.len() == steps@.len(),
    ensures
        r.removed_ids@ == selection_gone(videos@, draft@, positions(present@), positions(missing@)),
        models::texts(r.messages@) == selection_messages(
            videos@,
            draft@,
            positions(present@),
            positions(missing@),
            models::opt_text(*source_backup),
            steps_data(steps@),
            done@,
        ),
{
    let mut removed: Vec<i64> = Vec::new();
    if draft.keeper != draft.source {
        if let Some(id) = videos[draft.source].id {
            removed.push(id);
        }
    }
    let mut some = list_ids(videos, present);
    removed.append(&mut some);
    let mut others = list_ids(videos, missing);
    removed.append(&mut others);
    assert(removed@ =~= selection_gone(
        videos@,
        draft@,
        positions(present@),
        positions(missing@),
    ));
    let mut messages: Vec<String> = Vec::new();
    assert(models::texts(messages@) =~= Seq::empty());
    if draft.keeper != draft.source {
        let line = match source_backup {
            Some(to) => cat4(
                "moved path source ",
                videos[draft.source].path.as_str(),
                " to backup ",
                to.as_str(),
            ),
            None => cat("deleted path source ", videos[draft.source].path.as_str()),
        };
        add_line(&mut messages, line);
        assert(models::texts(messages@) =~= seq![
            source_message(videos@, draft@, models::opt_text(*source_backup)),
        ]);
    }
    add_line(
        &mut messages,
        cat4(
            "moved recommended keep ",
            videos[draft.keeper].path.as_str(),
            " into ",
            draft.final_path.as_str(),
        ),
    );
    let ghost head = models::texts(messages@);
    let ghost lost = positions(missing@);
    let mut i: usize = 0;
    assert(head + missing_messages(videos@, lost, 0) =~= head);
    while i < missing.len()
        invariant
            i <= missing@.len(),
            lost == positions(missing@),
            forall|k: int| 0 <= k < missing@.len() ==> (#[trigger] missing@[k]) < videos@.len(),
            models::texts(messages@) == head + missing_messages(videos@, lost, i as int),
        decreases missing@.len() - i,
    {
        assert(lost[i as int] == missing@[i as int]);
        add_line(
            &mut messages,
            cat(
                "extra file is missing; index will be removed ",
                videos[missing[i]].path.as_str(),
            ),
        );
        assert(models::texts(messages@) =~= head + missing_messages(videos@, lost, i + 1));
        i += 1;
    }
    let ghost mid = models::texts(messages@);
    let ghost all = steps_data(steps@);
    let mut j: usize = 0;
    assert(mid + extra_messages(all, done@, 0) =~= mid);
    while j < steps.len()
        invariant
            j <= steps@.len(),
            all == steps_data(steps@),
            done@.len() == steps@.len(),
            models::texts(messages@) == mid + extra_messages(all, done@, j as int),
        decreases steps@.len() - j,
    {
        let ghost before = models::texts(messages@);
        if steps[j].role == StepRole::ExtraAway {
            add_line(&mut messages, extra_text(&steps[j], done[j]));
            assert(models::texts(messages@) =~= mid + extra_messages(all, done@, j + 1));
        }
        j += 1;
    }
    let ghost body = models::texts(messages@);
    let here: String = if draft.keeper != draft.source {
        videos[draft.source].path.clone()
    } else {
        videos[draft.keeper].path.clone()
    };
    if !paths::same_path(draft.host, draft.final_path.as_str(), here.as_str()) {
        add_line(
            &mut messages,
            cat("renamed kept video to filename source path ", draft.final_path.as_str()),
        );
    }
    let id: i64 = match videos[draft.keeper].id {
        Some(own) => own,
        None => 0,
    };
    let mut line = cat4(
        "index migrated: kept video id ",
        signed_decimal_text(id).as_str(),
        " at ",
        draft.final_path.as_str(),
    );
    line.append(" and removed ");
    line.append(decimal_text(removed.len() as u64).as_str());
    line.append(" merged-away ids");
    add_line(&mut messages, line);
    MergeConclusion { removed_ids: removed, messages }
}

/// A file that an operation moved, as it is recorded to be moved back.
#[derive(Debug, Clone)]
pub struct FileMoveRecord {
    pub video: VideoRecord,
    pub session_ids: Vec<i64>,
    pub from: String,
    pub to: String,
}

impl VideoIndex {
    /// Records that the file of a video is moved, with the scans that saw the video.
    pub fn build_move_record(&self, video: &VideoRecord, from: &str, to: &str) -> (r: Result<
        FileMoveRecord,
        String,
    >)
        requires
            self.wf(),
        ensures
            match video.id {
                Some(id) => r matches Ok(record) && record.video@ == video@ && record.from@ == from@
                    && record.to@ == to@ && (forall|s: i64|
                    #[trigger] record.session_ids@.contains(s) <==> self.links@.contains(
                        crate::index::SessionLink { session_id: s, video_id: id },
                    )),
                None => r matches Err(message) && message@ == "video record is missing an id: "@
                    + video.path@,
            },
    {
        match video.id {
            None => Err(cat("video record is missing an id: ", video.path.as_str())),
            Some(id) => {
                let session_ids = self.session_ids_for_video(id);
                Ok(
                    FileMoveRecord {
                        video: video.copy(),
                        session_ids,
                        from: from.to_owned(),
                        to: to.to_owned(),
                    },
                )
            },
        }
    }
}

} // verus!
