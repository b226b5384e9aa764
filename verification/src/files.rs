//! What is known of files, and the names that backups get.
use crate::models;
use crate::paths;
use crate::paths::Host;
use crate::text;
use crate::text::{add_line, cat, cat3, cat4, cat5, decimal_text, has_line, same_text};
use vstd::prelude::*;
use vstd::string::*;

verus! {

/// The parts of a path, as the file system reads them.
#[derive(Debug, Clone)]
pub struct FileParts {
    pub parent: Option<String>,
    pub file_name: Option<String>,
    pub stem: Option<String>,
    pub extension: Option<String>,
}

/// What stands at a path.
#[derive(Debug, Clone)]
pub enum FileState {
    /// A file.
    Present,
    /// Something that is no file.
    Other,
    /// Nothing.
    Missing,
    /// It cannot be told; the error is given.
    Unreadable(String),
}

/// Whether a video file is there, or why that cannot be told.
pub open spec fn status(path: Seq<char>, state: FileState) -> Result<bool, Seq<char>> {
    match state {
        FileState::Present => Ok(true),
        FileState::Missing => Ok(false),
        FileState::Other => Err("path is not a video file: "@ + path),
        FileState::Unreadable(error) => Err(
            "cannot access video file "@ + path + ": "@ + error@,
        ),
    }
}

/// What a result says, with the text of its error.
pub open spec fn said<T>(r: Result<T, String>) -> Result<T, Seq<char>> {
    match r {
        Ok(value) => Ok(value),
        Err(message) => Err(message@),
    }
}

/// Whether a video file is there, or why that cannot be told.
pub fn existing_file_status(path: &str, state: &FileState) -> (r: Result<bool, String>)
    ensures
        said(r) == status(path@, *state),
{
    match state {
        FileState::Present => Ok(true),
        FileState::Missing => Ok(false),
        FileState::Other => Err(cat("path is not a video file: ", path)),
        FileState::Unreadable(error) => Err(
            cat4("cannot access video file ", path, ": ", error.as_str()),
        ),
    }
}

/// Why a file that has to be there is not.
pub open spec fn presence_trouble(path: Seq<char>, label: Seq<char>, state: FileState) -> Option<
    Seq<char>,
> {
    match status(path, state) {
        Ok(true) => None,
        Ok(false) => Some(label + " does not exist: "@ + path),
        Err(message) => Some(message),
    }
}

/// The message of a result that went wrong.
pub open spec fn trouble(r: Result<(), String>) -> Option<Seq<char>> {
    match r {
        Ok(_) => None,
        Err(message) => Some(message@),
    }
}

/// Fails where a file that has to be there is not.
pub fn ensure_existing_file(path: &str, label: &str, state: &FileState) -> (r: Result<(), String>)
    ensures
        trouble(r) == presence_trouble(path@, label@, *state),
{
    match existing_file_status(path, state) {
        Ok(there) => if there {
            Ok(())
        } else {
            Err(cat3(label, " does not exist: ", path))
        },
        Err(message) => Err(message),
    }
}

/// Why a file cannot be moved to a path: something stands there, or that cannot be told.
pub open spec fn destination_trouble(path: Seq<char>, state: FileState) -> Option<Seq<char>> {
    match state {
        FileState::Missing => None,
        FileState::Unreadable(error) => Some(
            "cannot inspect backup destination "@ + path + ": "@ + error@,
        ),
        _ => Some("backup destination already exists; move or rename it first: "@ + path),
    }
}

/// Fails where something stands at a path, or that cannot be told.
pub fn ensure_destination_available(path: &str, state: &FileState) -> (r: Result<(), String>)
    ensures
        trouble(r) == destination_trouble(path@, *state),
{
    match state {
        FileState::Missing => Ok(()),
        FileState::Unreadable(error) => Err(
            cat4("cannot inspect backup destination ", path, ": ", error.as_str()),
        ),
        _ => Err(cat("backup destination already exists; move or rename it first: ", path)),
    }
}

/// The form in which paths are held against each other when files are merged.
pub open spec fn path_key(path: Seq<char>) -> Seq<char> {
    text::ascii_lowered(text::without_trailing(text::replaced(path, '/', '\\'), '\\'))
}

/// The form in which paths are held against each other when files are merged.
pub fn path_key_for_path(path: &str) -> (r: String)
    ensures
        r@ == path_key(path@),
{
    let slashes = text::replace_char(path, '/', '\\');
    let trimmed = text::trim_end_char(slashes.as_str(), '\\');
    text::ascii_lowercase(trimmed.as_str())
}

/// Whether a path is one of a list, as paths are held against each other.
pub open spec fn is_among(path: Seq<char>, list: Seq<Seq<char>>) -> bool {
    exists|k: int| 0 <= k < list.len() && path_key(#[trigger] list[k]) == path_key(path)
}

/// Whether a path is one of a list, as paths are held against each other.
pub fn path_is_among(path: &str, list: &Vec<String>) -> (r: bool)
    ensures
        r == is_among(path@, models::texts(list@)),
{
    let key = path_key_for_path(path);
    let ghost all = models::texts(list@);
    let mut i: usize = 0;
    while i < list.len()
        invariant
            i <= list@.len(),
            all == models::texts(list@),
            key@ == path_key(path@),
            forall|k: int| 0 <= k < i ==> path_key(#[trigger] all[k]) != key@,
        decreases list@.len() - i,
    {
        let own = path_key_for_path(list[i].as_str());
        if same_text(own.as_str(), key.as_str()) {
            assert(path_key(all[i as int]) == key@);
            return true;
        }
        i += 1;
    }
    false
}

/// Why a file cannot be merged into a path: the path is none of the merged files' and something
/// stands there.
pub open spec fn merge_destination_trouble(
    path: Seq<char>,
    merged: Seq<Seq<char>>,
    state: FileState,
) -> Option<Seq<char>> {
    if is_among(path, merged) {
        None
    } else {
        destination_trouble(path, state)
    }
}

/// Fails where a file cannot be merged into a path.
pub fn ensure_merge_destination_available(
    path: &str,
    allowed_existing_paths: &Vec<String>,
    state: &FileState,
) -> (r: Result<(), String>)
    ensures
        trouble(r) == merge_destination_trouble(
            path@,
            models::texts(allowed_existing_paths@),
            *state,
        ),
{
    if path_is_among(path, allowed_existing_paths) {
        Ok(())
    } else {
        ensure_destination_available(path, state)
    }
}

/// An optional text that is there and not empty.
pub open spec fn filled(value: Option<String>) -> bool {
    value matches Some(t) && t@.len() > 0
}

/// Whether an optional text is there and not empty.
fn is_filled(value: &Option<String>) -> (r: bool)
    ensures
        r == filled(*value),
{
    match value {
        Some(t) => text::chars_of(t.as_str()).len() > 0,
        None => false,
    }
}

/// The name that a backup gets at an attempt: the name of the file, then the name with the number
/// of the attempt before the extension, or at the end where there is none.
pub open spec fn backup_name(parts: FileParts, attempt: int) -> Seq<char> {
    if attempt == 0 {
        parts.file_name->0@
    } else if filled(parts.extension) {
        (if filled(parts.stem) { parts.stem->0@ } else { parts.file_name->0@ }) + " ("@
            + text::decimal(attempt as nat) + ")."@ + parts.extension->0@
    } else {
        parts.file_name->0@ + " ("@ + text::decimal(attempt as nat) + ")"@
    }
}

/// The name that a backup gets at an attempt.
fn write_backup_name(parts: &FileParts, name: &str, attempt: u64) -> (r: String)
    requires
        parts.file_name matches Some(n) && n@ == name@,
    ensures
        r@ == backup_name(*parts, attempt as int),
{
    if attempt == 0 {
        return name.to_owned();
    }
    let number = decimal_text(attempt);
    match &parts.extension {
        Some(extension) => {
            if is_filled(&parts.extension) {
                match &parts.stem {
                    Some(stem) => if is_filled(&parts.stem) {
                        cat5(stem.as_str(), " (", number.as_str(), ").", extension.as_str())
                    } else {
                        cat5(name, " (", number.as_str(), ").", extension.as_str())
                    },
                    None => cat5(name, " (", number.as_str(), ").", extension.as_str()),
                }
            } else {
                cat4(name, " (", number.as_str(), ")")
            }
        },
        None => cat4(name, " (", number.as_str(), ")"),
    }
}

/// The number of names that are tried for a backup.
pub const BACKUP_ATTEMPTS: u64 = 10_000;

/// A path that a backup may get.
#[derive(Debug, Clone)]
pub struct BackupCandidate {
    pub attempt: u64,
    pub path: String,
}

/// The path that a backup gets at an attempt.
pub open spec fn backup_path(host: Host, dir: Seq<char>, parts: FileParts, attempt: int) -> Seq<char> {
    paths::joined(host, dir, backup_name(parts, attempt))
}

/// Whether the path of an attempt is promised to another file of the same operation.
pub open spec fn is_promised(
    host: Host,
    dir: Seq<char>,
    parts: FileParts,
    reserved: Seq<Seq<char>>,
    attempt: int,
) -> bool {
    reserved.contains(text::lowercase(backup_path(host, dir, parts, attempt)))
}

/// The next path that a backup may get, from an attempt on: the first that is not promised to
/// another file. Fails where the file has no name, or no attempts are left.
pub fn next_backup_candidate(
    host: Host,
    backup_dir: &str,
    source: &str,
    parts: &FileParts,
    from: u64,
    reserved: &Vec<String>,
) -> (r: Result<BackupCandidate, String>)
    ensures
        match r {
            Ok(c) => {
                &&& parts.file_name is Some
                &&& from <= c.attempt < BACKUP_ATTEMPTS
                &&& c.path@ == backup_path(host, backup_dir@, *parts, c.attempt as int)
                &&& !is_promised(
                    host,
                    backup_dir@,
                    *parts,
                    models::texts(reserved@),
                    c.attempt as int,
                )
                &&& forall|k: int|
                    from <= k < c.attempt ==> #[trigger] is_promised(
                        host,
                        backup_dir@,
                        *parts,
                        models::texts(reserved@),
                        k,
                    )
            },
            Err(message) => if parts.file_name is None {
                message@ == "source path has no file name: "@ + source@
            } else {
                &&& message@ == "cannot find an available backup filename for "@ + source@ + " in "@
                    + backup_dir@
                &&& forall|k: int|
                    from <= k < BACKUP_ATTEMPTS ==> #[trigger] is_promised(
                        host,
                        backup_dir@,
                        *parts,
                        models::texts(reserved@),
                        k,
                    )
            },
        },
{
    match &parts.file_name {
        None => Err(cat("source path has no file name: ", source)),
        Some(name) => {
            let mut attempt: u64 = from;
            while attempt < BACKUP_ATTEMPTS
                invariant
                    parts.file_name matches Some(n) && n@ == name@,
                    from <= attempt,
                    forall|k: int|
                        from <= k < attempt ==> #[trigger] is_promised(
                            host,
                            backup_dir@,
                            *parts,
                            models::texts(reserved@),
                            k,
                        ),
                decreases BACKUP_ATTEMPTS - attempt,
            {
                let own = write_backup_name(parts, name.as_str(), attempt);
                let path = paths::join(host, backup_dir, own.as_str());
                let key = path.to_lowercase();
                if !has_line(reserved, key.as_str()) {
                    return Ok(BackupCandidate { attempt, path });
                }
                assert(is_promised(
                    host,
                    backup_dir@,
                    *parts,
                    models::texts(reserved@),
                    attempt as int,
                ));
                attempt += 1;
            }
            Err(cat4("cannot find an available backup filename for ", source, " in ", backup_dir))
        },
    }
}

/// What to do with a path that a backup may get.
#[derive(Debug, Clone, Copy, PartialEq, Eq, Structural)]
pub enum BackupChoice {
    /// The path is free; it is promised to the file.
    Take,
    /// The path is taken; another has to be tried.
    TryNext,
}

/// Takes a path for a backup where nothing stands there, and promises it to the file.
pub fn settle_backup_candidate(
    candidate: &BackupCandidate,
    state: &FileState,
    reserved: &mut Vec<String>,
) -> (r: Result<BackupChoice, String>)
    ensures
        match *state {
            FileState::Missing => r == Ok::<BackupChoice, String>(BackupChoice::Take)
                && models::texts(final(reserved)@) == models::texts(old(reserved)@).push(
                text::lowercase(candidate.path@),
            ),
            FileState::Unreadable(error) => *final(reserved) == *old(reserved) && r is Err && r->Err_0@
                == "cannot inspect backup destination "@ + candidate.path@ + ": "@ + error@,
            _ => r == Ok::<BackupChoice, String>(BackupChoice::TryNext) && *final(reserved) == *old(reserved),
        },
{
    match state {
        FileState::Missing => {
            add_line(reserved, candidate.path.as_str().to_lowercase());
            Ok(BackupChoice::Take)
        },
        FileState::Unreadable(error) => Err(
            cat4(
                "cannot inspect backup destination ",
                candidate.path.as_str(),
                ": ",
                error.as_str(),
            ),
        ),
        _ => Ok(BackupChoice::TryNext),
    }
}

/// The lowercase forms of some paths.
pub open spec fn lowered(list: Seq<String>) -> Seq<Seq<char>> {
    list.map_values(|s: String| text::lowercase(s@))
}

/// The first position whose lowercase form occurred before, or the number of paths.
pub open spec fn first_repeat(keys: Seq<Seq<char>>, n: int) -> int
    decreases keys.len() - n,
{
    if n >= keys.len() {
        keys.len() as int
    } else if keys.take(n).contains(keys[n]) {
        n
    } else {
        first_repeat(keys, n + 1)
    }
}

/// Fails where two files would be moved to one path, up to case.
pub fn ensure_unique_destinations(destinations: &Vec<String>) -> (r: Result<(), String>)
    ensures
        ({
            let at = first_repeat(lowered(destinations@), 0);
            trouble(r) == (if at < destinations@.len() {
                Some(
                    "multiple selected videos would use the same backup filename: "@
                        + destinations@[at]@,
                )
            } else {
                None
            })
        }),
{
    let mut seen: Vec<String> = Vec::new();
    let ghost keys = lowered(destinations@);
    let mut i: usize = 0;
    assert(models::texts(seen@) =~= keys.take(0));
    while i < destinations.len()
        invariant
            i <= destinations@.len(),
            keys == lowered(destinations@),
            models::texts(seen@) == keys.take(i as int),
            first_repeat(keys, i as int) == first_repeat(keys, 0),
        decreases destinations@.len() - i,
    {
        let key = destinations[i].as_str().to_lowercase();
        assert(key@ == keys[i as int]);
        if has_line(&seen, key.as_str()) {
            return Err(
                cat(
                    "multiple selected videos would use the same backup filename: ",
                    destinations[i].as_str(),
                ),
            );
        }
        add_line(&mut seen, key);
        assert(keys.take(i + 1) =~= keys.take(i as int).push(keys[i as int]));
        i += 1;
    }
    Ok(())
}

proof fn lemma_no_repeat(keys: Seq<Seq<char>>, n: int)
    requires
        keys.no_duplicates(),
        0 <= n,
    ensures
        first_repeat(keys, n) == keys.len() || n > keys.len(),
    decreases keys.len() - n,
{
    if n < keys.len() {
        assert(!keys.take(n).contains(keys[n])) by {
            if keys.take(n).contains(keys[n]) {
                let k = choose|k: int| 0 <= k < n && keys.take(n)[k] == keys[n];
                assert(keys[k] == keys[n]);
            }
        }
        lemma_no_repeat(keys, n + 1);
    }
}

/// Paths that were promised to the files of one operation never clash: a new promise is unlike
/// all before, and where every destination was promised once no two are the same.
pub proof fn law_promised_backups_are_unique(
    reserved: Seq<Seq<char>>,
    host: Host,
    dir: Seq<char>,
    parts: FileParts,
    attempt: int,
)
    requires
        reserved.no_duplicates(),
        !is_promised(host, dir, parts, reserved, attempt),
    ensures
        reserved.push(text::lowercase(backup_path(host, dir, parts, attempt))).no_duplicates(),
        first_repeat(reserved, 0) == reserved.len(),
{
    lemma_no_repeat(reserved, 0);
    let key = text::lowercase(backup_path(host, dir, parts, attempt));
    let all = reserved.push(key);
    assert forall|i: int, j: int| 0 <= i < j < all.len() implies all[i] != all[j] by {
        if j == reserved.len() {
            assert(reserved[i] != key);
        }
    }
}

} // verus!
