//! Where the program keeps its data, and rules on the paths of files.
use crate::models;
use crate::text;
use crate::text::{replace_char, rsplit_once, same_text, starts_with};
use vstd::prelude::*;
use vstd::string::*;

verus! {

/// The share that may be scanned while scanning is restricted.
pub const ALLOWED_SOURCE: &'static str = r"\\EXAMPLE-NAS\Test";

/// A path with backslashes and in lowercase, by which paths are compared.
pub open spec fn path_form(path: Seq<char>) -> Seq<char> {
    text::lowercase(text::replaced(path, '/', '\\'))
}

/// The compared form of the folder that directly holds a file.
pub open spec fn parent_key(path: Seq<char>) -> Option<Seq<char>> {
    let form = path_form(path);
    let at = text::last_position(form, '\\');
    if at >= 0 {
        Some(form.take(at))
    } else {
        None
    }
}

/// Whether two files lie directly in one folder.
pub open spec fn shares_parent(left: Seq<char>, right: Seq<char>) -> bool {
    parent_key(left) is Some && parent_key(left) == parent_key(right)
}

/// Whether a path has a folder before the name of the file.
pub open spec fn has_separator(path: Seq<char>) -> bool {
    path.contains('/') || path.contains('\\')
}

/// Whether two files lie directly in one folder; the files need not be reachable. A bare file name
/// lies in one folder with no file, not even with itself.
pub fn same_parent_folder(left: &str, right: &str) -> (r: bool)
    ensures
        r == shares_parent(left@, right@),
        parent_key(left@) is Some == has_separator(left@),
        parent_key(right@) is Some == has_separator(right@),
        !has_separator(left@) || !has_separator(right@) ==> !r,
{
    let plain_left = replace_char(left, '/', '\\');
    let plain_right = replace_char(right, '/', '\\');
    let l = plain_left.to_lowercase();
    let r = plain_right.to_lowercase();
    proof {
        lemma_replaced_separator(left@);
        lemma_replaced_separator(right@);
        lemma_has_position(l@, '\\');
        lemma_has_position(r@, '\\');
    }
    match (rsplit_once(l.as_str(), '\\'), rsplit_once(r.as_str(), '\\')) {
        (Some(a), Some(b)) => same_text(a.0.as_str(), b.0.as_str()),
        _ => false,
    }
}

proof fn lemma_replaced_separator(path: Seq<char>)
    ensures
        text::replaced(path, '/', '\\').contains('\\') == has_separator(path),
{
    let form = text::replaced(path, '/', '\\');
    if form.contains('\\') {
        let k = choose|k: int| 0 <= k < form.len() && form[k] == '\\';
        assert(path[k] == '/' || path[k] == '\\');
        assert(path.contains(path[k]));
    }
    if has_separator(path) {
        let k = choose|k: int| 0 <= k < path.len() && (path[k] == '/' || path[k] == '\\');
        assert(form[k] == '\\');
    }
}

proof fn lemma_has_position(s: Seq<char>, c: char)
    ensures
        (text::last_position(s, c) >= 0) == s.contains(c),
    decreases s.len(),
{
    if s.len() > 0 {
        let rest = s.drop_last();
        lemma_has_position(rest, c);
        assert(s[s.len() - 1] == s.last());
        if rest.contains(c) {
            let k = choose|k: int| 0 <= k < rest.len() && rest[k] == c;
            assert(s[k] == c);
        }
        if s.contains(c) && s.last() != c {
            let k = choose|k: int| 0 <= k < s.len() && s[k] == c;
            assert(rest[k] == c);
        }
    }
}

/// Lying in one folder does not depend on the order of two files.
pub proof fn law_shared_parent_is_symmetric(left: Seq<char>, right: Seq<char>)
    ensures
        shares_parent(left, right) == shares_parent(right, left),
{
}

/// Lying in one folder carries over from file to file.
pub proof fn law_shared_parent_is_transitive(first: Seq<char>, second: Seq<char>, third: Seq<char>)
    requires
        shares_parent(first, second),
        shares_parent(second, third),
    ensures
        shares_parent(first, third),
{
}

/// The kind of machine that the program runs on; paths are written its way.
#[derive(Debug, Clone, Copy, PartialEq, Eq, Structural)]
pub enum Host {
    Windows,
    Other,
}

/// The folder under which the program works, and the kind of machine.
#[derive(Debug, Clone)]
pub struct Root {
    pub path: String,
    pub host: Host,
}

/// What a root says.
#[verifier::ext_equal]
pub struct RootData {
    pub path: Seq<char>,
    pub host: Host,
}

impl View for Root {
    type V = RootData;

    open spec fn view(&self) -> RootData {
        RootData { path: self.path@, host: self.host }
    }
}

/// Whether a character separates the parts of a path.
pub open spec fn separates(host: Host, c: char) -> bool {
    c == '/' || host == Host::Windows && c == '\\'
}

/// The character that is written between the parts of a path.
pub open spec fn separator(host: Host) -> char {
    match host {
        Host::Windows => '\\',
        Host::Other => '/',
    }
}

/// Whether a drive is named at `i`.
pub open spec fn is_drive_at(path: Seq<char>, i: int) -> bool {
    &&& i + 1 < path.len()
    &&& 'A' <= text::ascii_upper(path[i]) <= 'Z'
    &&& path[i + 1] == ':'
}

/// The place of the first separator from `i` on, else the end.
pub open spec fn next_separator(host: Host, path: Seq<char>, i: int) -> int
    decreases path.len() - i,
{
    if i >= path.len() || separates(host, path[i]) {
        i
    } else {
        next_separator(host, path, i + 1)
    }
}

/// The number of separators at the start of a path, up to two.
pub open spec fn leading_separators(host: Host, path: Seq<char>) -> int {
    if path.len() == 0 || !separates(host, path[0]) {
        0
    } else if host == Host::Windows && path.len() > 1 && separates(host, path[1]) {
        2
    } else {
        1
    }
}

/// How much of a path names the drive, or the server and the share, that it lies on.
pub open spec fn prefix_len(host: Host, path: Seq<char>) -> int {
    if host != Host::Windows {
        0
    } else if is_drive_at(path, 0) {
        2
    } else if leading_separators(host, path) == 2 {
        let server_end = next_separator(host, path, 2);
        let share_end = next_separator(host, path, server_end + 1);
        if 2 < server_end && server_end + 1 < share_end {
            share_end
        } else {
            0
        }
    } else {
        0
    }
}

/// Whether `base` needs a separator before another part: it is neither empty, nor ends with a
/// separator, nor is a bare drive.
pub open spec fn needs_separator(host: Host, base: Seq<char>) -> bool {
    &&& base.len() > 0
    &&& !separates(host, base.last())
    &&& !(host == Host::Windows && base.len() == 2 && is_drive_at(base, 0))
}

/// The path of `part` under `base`. A part that names its drive stands for itself, and one that
/// starts with a separator lies on the drive of `base`.
pub open spec fn joined(host: Host, base: Seq<char>, part: Seq<char>) -> Seq<char> {
    if prefix_len(host, part) > 0 {
        part
    } else if part.len() > 0 && separates(host, part[0]) {
        base.take(prefix_len(host, base)) + part
    } else if needs_separator(host, base) {
        base.push(separator(host)) + part
    } else {
        base + part
    }
}

/// Whether a character separates the parts of a path.
pub fn is_separator(host: Host, c: char) -> (r: bool)
    ensures
        r == separates(host, c),
{
    c == '/' || host == Host::Windows && c == '\\'
}

fn names_drive(chars: &Vec<char>, i: usize) -> (r: bool)
    requires
        i <= 4,
    ensures
        r == is_drive_at(chars@, i as int),
{
    if i + 1 >= chars.len() {
        return false;
    }
    let letter = text::to_ascii_upper(chars[i]);
    'A' <= letter && letter <= 'Z' && chars[i + 1] == ':'
}

fn find_separator(host: Host, chars: &Vec<char>, from: usize) -> (r: usize)
    requires
        from <= chars@.len(),
    ensures
        r == next_separator(host, chars@, from as int),
        from <= r <= chars@.len(),
{
    let mut i: usize = from;
    while i < chars.len() && !is_separator(host, chars[i])
        invariant
            from <= i <= chars@.len(),
            next_separator(host, chars@, i as int) == next_separator(host, chars@, from as int),
        decreases chars@.len() - i,
    {
        i += 1;
    }
    i
}

fn count_lead(host: Host, chars: &Vec<char>) -> (r: usize)
    ensures
        r == leading_separators(host, chars@),
{
    if chars.len() == 0 || !is_separator(host, chars[0]) {
        0
    } else if host == Host::Windows && chars.len() > 1 && is_separator(host, chars[1]) {
        2
    } else {
        1
    }
}

fn count_prefix(host: Host, chars: &Vec<char>) -> (r: usize)
    ensures
        r == prefix_len(host, chars@),
        r <= chars@.len(),
{
    if host != Host::Windows {
        return 0;
    }
    if names_drive(chars, 0) {
        return 2;
    }
    if count_lead(host, chars) != 2 {
        return 0;
    }
    let server_end: usize = find_separator(host, chars, 2);
    if server_end == 2 || server_end == chars.len() {
        return 0;
    }
    let share_end: usize = find_separator(host, chars, server_end + 1);
    if share_end == server_end + 1 {
        return 0;
    }
    share_end
}

/// The path of `part` under `base`.
pub fn join(host: Host, base: &str, part: &str) -> (r: String)
    ensures
        r@ == joined(host, base@, part@),
{
    let chars = text::chars_of(base);
    let own = text::chars_of(part);
    if count_prefix(host, &own) > 0 {
        return part.to_owned();
    }
    if own.len() > 0 && is_separator(host, own[0]) {
        let at: usize = count_prefix(host, &chars);
        let out = text::string_of_range(&chars, 0, at);
        assert(out@ =~= base@.take(at as int));
        return out.concat(part);
    }
    let n: usize = chars.len();
    let mut out = base.to_owned();
    if n > 0 && !is_separator(host, chars[n - 1]) && !(host == Host::Windows && n == 2
        && names_drive(&chars, 0)) {
        let own = match host {
            Host::Windows => '\\',
            Host::Other => '/',
        };
        out.push(own);
    }
    out.concat(part)
}

/// Whether a path is written in the long form, in which only backslashes separate parts and no
/// part is left out.
pub open spec fn is_long_form(host: Host, path: Seq<char>) -> bool {
    &&& host == Host::Windows
    &&& path.len() >= 4
    &&& path[0] == '\\' && path[1] == '\\' && path[2] == '?' && path[3] == '\\'
}

/// A path with the letter of its drive in uppercase.
pub open spec fn with_large_drive(host: Host, path: Seq<char>) -> Seq<char> {
    let at = if is_long_form(host, path) {
        4int
    } else {
        0
    };
    if host == Host::Windows && is_drive_at(path, at) {
        path.update(at, text::ascii_upper(path[at]))
    } else {
        path
    }
}

/// Whether a character separates the parts of a path, which is in the long form or not.
pub open spec fn splits(host: Host, long: bool, c: char) -> bool {
    if long {
        c == '\\'
    } else {
        separates(host, c)
    }
}

/// The parts of a path from `i` on; `part` is what was read of the part before it. Empty parts are
/// left out, and those that name the folder itself, but for one at the start of the path and those
/// of the long form.
pub open spec fn parts_from(
    host: Host,
    long: bool,
    path: Seq<char>,
    i: int,
    part: Seq<char>,
) -> Seq<Seq<char>>
    decreases path.len() - i,
{
    if i >= path.len() {
        kept_part(long, i, part)
    } else if splits(host, long, path[i]) {
        kept_part(long, i, part) + parts_from(host, long, path, i + 1, Seq::empty())
    } else {
        parts_from(host, long, path, i + 1, part.push(path[i]))
    }
}

/// The part of a path that ends at `i`, where it counts.
pub open spec fn kept_part(long: bool, i: int, part: Seq<char>) -> Seq<Seq<char>> {
    if part.len() == 0 || part == "."@ && i > 1 && !long {
        Seq::empty()
    } else {
        seq![part]
    }
}

/// The parts of a path, with the letter of its drive in uppercase.
pub open spec fn parts_of(host: Host, path: Seq<char>) -> Seq<Seq<char>> {
    parts_from(
        host,
        is_long_form(host, path),
        with_large_drive(host, path),
        0,
        Seq::empty(),
    )
}

/// Whether two paths are equal, part for part.
pub open spec fn same_place(host: Host, left: Seq<char>, right: Seq<char>) -> bool {
    &&& leading_separators(host, left) == leading_separators(host, right)
    &&& is_long_form(host, left) == is_long_form(host, right)
    &&& parts_of(host, left) == parts_of(host, right)
}

fn in_long_form(host: Host, chars: &Vec<char>) -> (r: bool)
    ensures
        r == is_long_form(host, chars@),
{
    host == Host::Windows && chars.len() >= 4 && chars[0] == '\\' && chars[1] == '\\' && chars[2]
        == '?' && chars[3] == '\\'
}

/// The parts of a path, with the letter of its drive in uppercase.
fn path_parts(host: Host, path: &str) -> (r: Vec<String>)
    ensures
        models::texts(r@) == parts_of(host, path@),
{
    let mut chars = text::chars_of(path);
    let long = in_long_form(host, &chars);
    let at: usize = if long {
        4
    } else {
        0
    };
    if host == Host::Windows && names_drive(&chars, at) {
        let letter = text::to_ascii_upper(chars[at]);
        chars.set(at, letter);
    }
    assert(chars@ == with_large_drive(host, path@));
    let mut out: Vec<String> = Vec::new();
    let mut part = String::new();
    let ghost whole = parts_from(host, long, chars@, 0, Seq::empty());
    let mut i: usize = 0;
    assert(models::texts(out@) + whole =~= whole);
    assert(part@ =~= Seq::<char>::empty());
    while i < chars.len()
        invariant
            i <= chars@.len(),
            models::texts(out@) + parts_from(host, long, chars@, i as int, part@) == whole,
        decreases chars@.len() - i,
    {
        let ends = if long {
            chars[i] == '\\'
        } else {
            is_separator(host, chars[i])
        };
        if ends {
            let ghost before = models::texts(out@);
            let ghost rest = parts_from(host, long, chars@, i + 1, Seq::empty());
            let ghost own = part@;
            if counts(part.as_str(), long, i) {
                text::add_line(&mut out, part);
                assert(models::texts(out@) + rest =~= before + (seq![own] + rest));
            } else {
                assert(before + rest =~= before + (Seq::<Seq<char>>::empty() + rest));
            }
            part = String::new();
            assert(part@ =~= Seq::<char>::empty());
        } else {
            part.push(chars[i]);
        }
        i += 1;
    }
    let ghost before = models::texts(out@);
    let ghost own = part@;
    if counts(part.as_str(), long, i) {
        text::add_line(&mut out, part);
        assert(models::texts(out@) =~= before + seq![own]);
    } else {
        assert(before =~= before + Seq::<Seq<char>>::empty());
    }
    out
}

/// Whether the part of a path that ends at `i` counts.
fn counts(part: &str, long: bool, i: usize) -> (r: bool)
    ensures
        kept_part(long, i as int, part@) == (if r {
            seq![part@]
        } else {
            Seq::empty()
        }),
{
    let n: usize = text::chars_of(part).len();
    !(n == 0 || !long && i > 1 && same_text(part, "."))
}

/// Whether two paths are equal, part for part: whichever separators stand between the parts, and
/// however many.
pub fn same_path(host: Host, left: &str, right: &str) -> (r: bool)
    ensures
        r == same_place(host, left@, right@),
{
    let l = path_parts(host, left);
    let r = path_parts(host, right);
    let left_chars = text::chars_of(left);
    let right_chars = text::chars_of(right);
    if count_lead(host, &left_chars) != count_lead(host, &right_chars) || in_long_form(
        host,
        &left_chars,
    ) != in_long_form(host, &right_chars) || l.len() != r.len() {
        assert(models::texts(l@).len() == l@.len() && models::texts(r@).len() == r@.len());
        return false;
    }
    let mut i: usize = 0;
    while i < l.len()
        invariant
            i <= l@.len(),
            l@.len() == r@.len(),
            models::texts(l@) == parts_of(host, left@),
            models::texts(r@) == parts_of(host, right@),
            forall|k: int| 0 <= k < i ==> models::texts(l@)[k] == models::texts(r@)[k],
        decreases l@.len() - i,
    {
        if !same_text(l[i].as_str(), r[i].as_str()) {
            assert(models::texts(l@)[i as int] != models::texts(r@)[i as int]);
            return false;
        }
        i += 1;
    }
    assert(models::texts(l@) =~= models::texts(r@));
    true
}

proof fn lemma_slashed_parts(path: Seq<char>, i: int, part: Seq<char>)
    requires
        0 <= i <= path.len(),
    ensures
        parts_from(Host::Windows, false, path, i, part) == parts_from(
            Host::Windows,
            false,
            text::replaced(path, '/', '\\'),
            i,
            part,
        ),
    decreases path.len() - i,
{
    if i < path.len() {
        lemma_slashed_parts(path, i + 1, Seq::empty());
        lemma_slashed_parts(path, i + 1, part.push(path[i]));
    }
}

/// On Windows it makes no difference to a path with which kind of slash it is written, unless it
/// would then be in the long form.
pub proof fn law_slashes_make_no_difference(path: Seq<char>)
    requires
        !is_long_form(Host::Windows, text::replaced(path, '/', '\\')),
    ensures
        same_place(Host::Windows, path, text::replaced(path, '/', '\\')),
{
    let other = text::replaced(path, '/', '\\');
    assert(!is_long_form(Host::Windows, path)) by {
        if is_long_form(Host::Windows, path) {
            assert(is_long_form(Host::Windows, other));
        }
    }
    let large = with_large_drive(Host::Windows, path);
    assert(with_large_drive(Host::Windows, other) =~= text::replaced(large, '/', '\\'));
    lemma_slashed_parts(large, 0, Seq::empty());
}

/// On Windows it makes no difference to a path whether the letter of its drive is large or small.
pub proof fn law_drive_letters_have_no_case(path: Seq<char>)
    requires
        is_drive_at(path, 0),
    ensures
        same_place(Host::Windows, path, path.update(0, text::ascii_upper(path[0]))),
{
    let large = path.update(0, text::ascii_upper(path[0]));
    assert(with_large_drive(Host::Windows, large) =~= with_large_drive(Host::Windows, path));
}

/// One folder above the program, and whether it holds the project's files.
#[derive(Debug, Clone)]
pub struct Ancestor {
    pub path: String,
    pub is_project: bool,
}

/// What is known of the folder that holds the program.
#[derive(Debug, Clone)]
pub struct ProgramFolder {
    pub path: String,
    /// The folder itself and the folders above it, from the inside out.
    pub ancestors: Vec<Ancestor>,
}

/// The first folder of a list that holds the project's files.
pub open spec fn first_project(list: Seq<Ancestor>) -> Option<Seq<char>>
    decreases list.len(),
{
    if list.len() == 0 {
        None
    } else if list[0].is_project {
        Some(list[0].path@)
    } else {
        first_project(list.drop_first())
    }
}

/// The folder under which the program works.
pub open spec fn root_folder(
    home: Option<Seq<char>>,
    program: Option<ProgramFolder>,
    fallback: Seq<char>,
) -> Seq<char> {
    match (home, program) {
        (Some(path), _) => path,
        (None, Some(folder)) => match first_project(folder.ancestors@) {
            Some(path) => path,
            None => folder.path@,
        },
        (None, None) => fallback,
    }
}

/// The folder under which the program works: the one that the user named, else the project that
/// holds the program, else the program's own folder.
pub fn workspace_root(home: Option<String>, program: Option<ProgramFolder>, fallback: String) -> (r:
    String)
    ensures
        r@ == root_folder(crate::models::opt_text(home), program, fallback@),
{
    if let Some(path) = home {
        return path;
    }
    match program {
        None => fallback,
        Some(folder) => {
            let mut i: usize = 0;
            let ghost all = folder.ancestors@;
            assert(all.skip(0) =~= all);
            while i < folder.ancestors.len()
                invariant
                    i <= folder.ancestors@.len(),
                    all == folder.ancestors@,
                    first_project(all.skip(i as int)) == first_project(all),
                    crate::models::opt_text(home) is None,
                    program == Some(folder),
                decreases folder.ancestors@.len() - i,
            {
                if folder.ancestors[i].is_project {
                    return folder.ancestors[i].path.clone();
                }
                assert(all.skip(i as int).drop_first() =~= all.skip(i + 1));
                i += 1;
            }
            folder.path
        },
    }
}

/// The folder that holds the program's data.
pub open spec fn data_folder(root: RootData) -> Seq<char> {
    joined(root.host, root.path, "data"@)
}

/// The path of `name` in the folder that holds the program's data.
pub open spec fn in_data(root: RootData, name: Seq<char>) -> Seq<char> {
    joined(root.host, data_folder(root), name)
}

/// The folder that holds the program's data.
pub fn data_dir(root: &Root) -> (r: String)
    ensures
        r@ == data_folder(root@),
{
    join(root.host, root.path.as_str(), "data")
}

/// The path of `name` in the folder that holds the program's data.
pub fn data_path(root: &Root, name: &str) -> (r: String)
    ensures
        r@ == in_data(root@, name@),
{
    join(root.host, data_dir(root).as_str(), name)
}

/// The file that holds the index.
pub fn database_path(root: &Root) -> (r: String)
    ensures
        r@ == in_data(root@, "index.sqlite"@),
{
    data_path(root, "index.sqlite")
}

/// The names of the folders of the data directory.
pub open spec fn data_folder_names() -> Seq<Seq<char>> {
    seq![
        "operations"@,
        "reports"@,
        "thumbnails"@,
        "ai-frame-cache"@,
        "nas-frame-import"@,
        "local-video-staging"@,
        "backups"@,
        "tools"@,
    ]
}

/// The folders that have to exist in the data directory.
pub fn data_folders(root: &Root) -> (r: Vec<String>)
    ensures
        r@.len() == data_folder_names().len(),
        forall|i: int|
            0 <= i < r@.len() ==> (#[trigger] r@[i])@ == in_data(
                root@,
                data_folder_names()[i],
            ),
{
    let mut out: Vec<String> = Vec::new();
    out.push(data_path(root, "operations"));
    out.push(data_path(root, "reports"));
    out.push(data_path(root, "thumbnails"));
    out.push(data_path(root, "ai-frame-cache"));
    out.push(data_path(root, "nas-frame-import"));
    out.push(data_path(root, "local-video-staging"));
    out.push(data_path(root, "backups"));
    out.push(data_path(root, "tools"));
    out
}

/// Whether `path` is `dir` or lies under it, both in compared form.
pub open spec fn is_or_under(path: Seq<char>, dir: Seq<char>) -> bool {
    path == dir || dir.push('\\').is_prefix_of(path)
}

/// Whether `path` is `dir` or lies under it, both in compared form.
pub fn at_or_under(path: &str, dir: &str) -> (r: bool)
    ensures
        r == is_or_under(path@, dir@),
{
    let mut inside = dir.to_owned();
    inside.push('\\');
    same_text(path, dir) || starts_with(path, inside.as_str())
}

/// Whether a path may be scanned while scanning is restricted: the allowed share, the samples of
/// the workspace, and what lies under them.
pub open spec fn scan_allowed(path: Seq<char>, root: RootData) -> bool {
    is_or_under(path_form(path), text::lowercase(ALLOWED_SOURCE@)) || is_or_under(
        path_form(path),
        path_form(joined(root.host, root.path, "samples"@)),
    )
}

/// Whether a path may be scanned while scanning is restricted.
pub fn is_allowed_scan_path(path: &str, root: &Root) -> (r: bool)
    ensures
        r == scan_allowed(path@, root@),
{
    let normalized = replace_char(path, '/', '\\').to_lowercase();
    let allowed = ALLOWED_SOURCE.to_lowercase();
    let samples = replace_char(join(root.host, root.path.as_str(), "samples").as_str(), '/', '\\').to_lowercase();
    at_or_under(normalized.as_str(), allowed.as_str()) || at_or_under(
        normalized.as_str(),
        samples.as_str(),
    )
}

/// The samples of a workspace may always be scanned, and so may all files under them.
pub proof fn law_samples_may_be_scanned(root: RootData)
    ensures
        scan_allowed(joined(root.host, root.path, "samples"@), root),
{
}

} // verus!
