//! Which video of a group gives its name to the one that is kept, and the tasks that merge all
//! groups.
use crate::ai_report::sort_ai_groups;
use crate::ai_report;
use crate::double::Double;
use crate::models;
use crate::models::{MatchGroup, MatchItem, VideoRecord};
use crate::rows::has_id;
use crate::text;
use crate::text::{
    ascii_lowercase, cat3, chars_of, eq_ignore_ascii_case, replace_char, rsplit_once, same_text,
    starts_with, string_of_range, trim, trim_end, trim_end_char, trim_start,
};
use vstd::prelude::*;
use vstd::string::*;

verus! {

/// The name of a file before its last dot, and its extension behind it.
pub open spec fn name_parts(name: Seq<char>) -> (Seq<char>, Seq<char>) {
    let at = text::last_position(name, '.');
    if at >= 0 {
        (name.take(at), name.skip(at + 1))
    } else {
        (name, Seq::empty())
    }
}

/// The name of a file before its last dot, and its extension behind it.
pub fn split_file_name(name: &str) -> (r: (String, String))
    ensures
        (r.0@, r.1@) == name_parts(name@),
{
    match rsplit_once(name, '.') {
        Some(parts) => parts,
        None => (name.to_owned(), String::new()),
    }
}

/// Whether a character is a Chinese one.
pub open spec fn is_chinese(c: char) -> bool {
    '\u{4e00}' <= c <= '\u{9fff}'
}

/// Whether a character is a Chinese one.
pub fn is_cjk(ch: char) -> (r: bool)
    ensures
        r == is_chinese(ch),
{
    '\u{4e00}' <= ch && ch <= '\u{9fff}'
}

/// Whether some characters are Chinese ones.
pub open spec fn has_chinese(s: Seq<char>) -> bool {
    exists|k: int| 0 <= k < s.len() && is_chinese(#[trigger] s[k])
}

fn any_chinese(chars: &Vec<char>, from: usize, to: usize) -> (r: bool)
    requires
        from <= to <= chars@.len(),
    ensures
        r == has_chinese(chars@.subrange(from as int, to as int)),
{
    let ghost part = chars@.subrange(from as int, to as int);
    let mut i: usize = from;
    while i < to
        invariant
            from <= i <= to,
            to <= chars@.len(),
            part == chars@.subrange(from as int, to as int),
            forall|k: int| 0 <= k < i - from ==> !is_chinese(#[trigger] part[k]),
        decreases to - i,
    {
        assert(part[i - from] == chars@[i as int]);
        if is_cjk(chars[i]) {
            return true;
        }
        i += 1;
    }
    false
}

/// Whether a character is a decimal digit.
pub open spec fn is_digit(c: char) -> bool {
    '0' <= c <= '9'
}

/// The number of digits at the start of a text.
pub open spec fn leading_digits(s: Seq<char>) -> int
    decreases s.len(),
{
    if s.len() > 0 && is_digit(s[0]) {
        1 + leading_digits(s.drop_first())
    } else {
        0
    }
}

fn count_leading_digits(chars: &Vec<char>) -> (r: usize)
    ensures
        r == leading_digits(chars@),
        r <= chars@.len(),
{
    let mut i: usize = 0;
    assert(chars@.skip(0) =~= chars@);
    while i < chars.len() && '0' <= chars[i] && chars[i] <= '9'
        invariant
            i <= chars@.len(),
            leading_digits(chars@) == i + leading_digits(chars@.skip(i as int)),
        decreases chars@.len() - i,
    {
        assert(chars@.skip(i as int).drop_first() =~= chars@.skip(i + 1));
        i += 1;
    }
    i
}

/// The characters before the first of a kind, or all.
pub open spec fn before_first(s: Seq<char>, c: char) -> Seq<char>
    decreases s.len(),
{
    if s.len() == 0 || s[0] == c {
        Seq::empty()
    } else {
        seq![s[0]] + before_first(s.drop_first(), c)
    }
}

proof fn lemma_before_first(s: Seq<char>, c: char, n: int)
    requires
        0 <= n <= s.len(),
        forall|k: int| 0 <= k < n ==> #[trigger] s[k] != c,
        n < s.len() ==> s[n] == c,
    ensures
        before_first(s, c) == s.take(n),
    decreases s.len(),
{
    if n == 0 {
        assert(s.take(0) =~= Seq::empty());
    } else {
        assert(s[0] != c);
        let rest = s.drop_first();
        assert forall|k: int| 0 <= k < n - 1 implies #[trigger] rest[k] != c by {
            assert(rest[k] == s[k + 1]);
        }
        lemma_before_first(rest, c, n - 1);
        assert(seq![s[0]] + rest.take(n - 1) =~= s.take(n));
    }
}

/// How a file name starts: with a number and a Chinese text in brackets, with a number and a
/// Chinese text, or otherwise.
pub open spec fn prefix_rank(name: Seq<char>) -> int {
    let base = text::trimmed_start(name_parts(name).0);
    let digits = leading_digits(base);
    let rest = text::trimmed_start(base.skip(digits));
    if digits == 0 {
        2
    } else if rest.len() > 0 && rest[0] == '\u{3010}' && has_chinese(
        before_first(rest.drop_first(), '\u{3011}'),
    ) {
        0
    } else if rest.len() > 0 && is_chinese(rest[0]) {
        1
    } else {
        2
    }
}

/// How a file name starts.
pub fn file_name_chinese_prefix_rank(name: &str) -> (r: usize)
    ensures
        r == prefix_rank(name@),
{
    let parts = split_file_name(name);
    let base = chars_of(trim_start(parts.0.as_str()).as_str());
    let digits: usize = count_leading_digits(&base);
    if digits == 0 {
        return 2;
    }
    let behind = string_of_range(&base, digits, base.len());
    assert(behind@ =~= base@.skip(digits as int));
    let rest = chars_of(trim_start(behind.as_str()).as_str());
    if rest.len() == 0 {
        return 2;
    }
    if rest[0] == '\u{3010}' {
        let mut n: usize = 1;
        while n < rest.len() && rest[n] != '\u{3011}'
            invariant
                1 <= n <= rest@.len(),
                forall|k: int| 1 <= k < n ==> #[trigger] rest@[k] != '\u{3011}',
            decreases rest@.len() - n,
        {
            n += 1;
        }
        proof {
            let inner = rest@.drop_first();
            assert forall|k: int| 0 <= k < n - 1 implies #[trigger] inner[k] != '\u{3011}' by {
                assert(inner[k] == rest@[k + 1]);
            }
            if n < rest@.len() {
                assert(inner[n - 1] == rest@[n as int]);
            }
            lemma_before_first(inner, '\u{3011}', n - 1);
            assert(inner.take(n - 1) =~= rest@.subrange(1, n as int));
        }
        if any_chinese(&rest, 1, n) {
            return 0;
        }
    }
    if is_cjk(rest[0]) {
        1
    } else {
        2
    }
}

/// The position of the last opening bracket, or -1.
pub open spec fn last_open(s: Seq<char>) -> int
    decreases s.len(),
{
    if s.len() == 0 {
        -1
    } else if s.last() == '(' || s.last() == '\u{ff08}' {
        s.len() - 1
    } else {
        last_open(s.drop_last())
    }
}

/// The name of which a file name is a renamed copy: one with a number in brackets at its end.
pub open spec fn copied_name(name: Seq<char>) -> Option<Seq<char>> {
    let base = text::trimmed_end(name_parts(name).0);
    let inner = base.drop_last();
    let open = last_open(inner);
    let number = inner.skip(open + 1);
    let original = text::trimmed_end(inner.take(open));
    if base.len() > 0 && (base.last() == ')' || base.last() == '\u{ff09}') && open >= 0
        && number.len() > 0 && (forall|k: int| 0 <= k < number.len() ==> is_digit(
        #[trigger] number[k],
    )) && number != "0"@ && original.len() > 0 {
        Some(text::lowercase(original))
    } else {
        None
    }
}

/// The name of which a file name is a renamed copy.
pub fn rename_suffix_base(name: &str) -> (r: Option<String>)
    ensures
        models::opt_text(r) == copied_name(name@),
{
    let parts = split_file_name(name);
    let base = chars_of(trim_end(parts.0.as_str()).as_str());
    let n: usize = base.len();
    if n == 0 || (base[n - 1] != ')' && base[n - 1] != '\u{ff09}') {
        return None;
    }
    let ghost inner = base@.drop_last();
    let mut open: usize = n - 1;
    assert(inner.take(open as int) =~= inner);
    while open > 0 && base[open - 1] != '(' && base[open - 1] != '\u{ff08}'
        invariant
            open <= n - 1,
            n == base@.len(),
            n > 0,
            inner == base@.drop_last(),
            last_open(inner) == last_open(inner.take(open as int)),
        decreases open,
    {
        assert(inner.take(open as int).drop_last() =~= inner.take(open - 1));
        assert(inner.take(open as int).last() == base@[open - 1]);
        open -= 1;
    }
    if open == 0 {
        assert(last_open(inner) == -1);
        return None;
    }
    assert(inner.take(open as int).last() == base@[open - 1]);
    assert(last_open(inner) == open - 1);
    let number = string_of_range(&base, open, n - 1);
    assert(number@ =~= inner.skip(open as int));
    let mut i: usize = open;
    while i < n - 1
        invariant
            open <= i <= n - 1,
            n == base@.len(),
            n > 0,
            inner == base@.drop_last(),
            number@ == inner.skip(open as int),
            forall|k: int| 0 <= k < i - open ==> is_digit(#[trigger] number@[k]),
            last_open(inner) == open - 1,
            open > 0,
            base@ == text::trimmed_end(name_parts(name@).0),
        decreases n - 1 - i,
    {
        assert(number@[i - open] == base@[i as int]);
        if base[i] < '0' || base[i] > '9' {
            assert(!is_digit(number@[i - open]));
            return None;
        }
        i += 1;
    }
    if n - 1 == open || same_text(number.as_str(), "0") {
        return None;
    }
    let head = string_of_range(&base, 0, open - 1);
    assert(head@ =~= inner.take(open - 1));
    let original = trim_end(head.as_str());
    if chars_of(original.as_str()).len() == 0 {
        None
    } else {
        Some(original.as_str().to_lowercase())
    }
}

/// The form by which the paths of videos and folders are compared.
pub open spec fn compared_path(path: Seq<char>) -> Seq<char> {
    text::ascii_lowered(
        text::without_trailing(text::replaced(text::trimmed(path), '/', '\\'), '\\'),
    )
}

/// The form by which the paths of videos and folders are compared.
pub fn path_key(path: &str) -> (r: String)
    ensures
        r@ == compared_path(path@),
{
    let own = replace_char(trim(path).as_str(), '/', '\\');
    ascii_lowercase(trim_end_char(own.as_str(), '\\').as_str())
}

/// Whether a path is a folder or lies under it.
pub open spec fn lies_in(path: Seq<char>, dir: Seq<char>) -> bool {
    let folder = compared_path(dir);
    let own = compared_path(path);
    folder.len() > 0 && (own == folder || folder.push('\\').is_prefix_of(own))
}

/// Whether a path is a folder or lies under it.
pub fn path_inside_dir(path: &str, dir: &str) -> (r: bool)
    ensures
        r == lies_in(path@, dir@),
{
    let folder = path_key(dir);
    let own = path_key(path);
    if chars_of(folder.as_str()).len() == 0 {
        return false;
    }
    let mut inside = folder.clone();
    inside.push('\\');
    same_text(own.as_str(), folder.as_str()) || starts_with(own.as_str(), inside.as_str())
}

/// The rank of a video by the folders whose names are taken first: the position of the first
/// folder that it lies in, or the largest number.
pub open spec fn folder_rank(video: VideoRecord, dirs: Seq<Seq<char>>, i: int) -> int
    decreases dirs.len() - i,
{
    if i < 0 || i >= dirs.len() {
        usize::MAX as int
    } else if lies_in(video.path@, dirs[i]) || lies_in(video.parent_path@, dirs[i]) {
        i
    } else {
        folder_rank(video, dirs, i + 1)
    }
}

/// The rank of a video by the folders whose names are taken first.
pub fn naming_folder_priority(video: &VideoRecord, dirs: &Vec<String>) -> (r: usize)
    ensures
        r == folder_rank(*video, models::texts(dirs@), 0),
{
    let ghost all = models::texts(dirs@);
    let mut i: usize = 0;
    while i < dirs.len()
        invariant
            i <= dirs@.len(),
            all == models::texts(dirs@),
            folder_rank(*video, all, 0) == folder_rank(*video, all, i as int),
        decreases dirs@.len() - i,
    {
        assert(all[i as int] == dirs@[i as int]@);
        if path_inside_dir(video.path.as_str(), dirs[i].as_str()) || path_inside_dir(
            video.parent_path.as_str(),
            dirs[i].as_str(),
        ) {
            return i;
        }
        i += 1;
    }
    usize::MAX
}

/// Whether two videos lie in one source; without sources, in one folder.
pub open spec fn share_source(a: VideoRecord, b: VideoRecord, sources: Seq<Seq<char>>) -> bool {
    if sources.len() == 0 {
        compared_path(a.parent_path@) == compared_path(b.parent_path@)
    } else {
        exists|k: int|
            0 <= k < sources.len() && lies_in(a.path@, #[trigger] sources[k]) && lies_in(
                b.path@,
                sources[k],
            )
    }
}

/// Whether two videos lie in one source; without sources, in one folder.
pub fn videos_share_scan_source(a: &VideoRecord, b: &VideoRecord, sources: &Vec<String>) -> (r: bool)
    ensures
        r == share_source(*a, *b, models::texts(sources@)),
{
    let ghost all = models::texts(sources@);
    if sources.len() == 0 {
        return same_text(
            path_key(a.parent_path.as_str()).as_str(),
            path_key(b.parent_path.as_str()).as_str(),
        );
    }
    let mut i: usize = 0;
    while i < sources.len()
        invariant
            i <= sources@.len(),
            all == models::texts(sources@),
            forall|k: int|
                0 <= k < i ==> !(lies_in(a.path@, #[trigger] all[k]) && lies_in(b.path@, all[k])),
        decreases sources@.len() - i,
    {
        assert(all[i as int] == sources@[i as int]@);
        if path_inside_dir(a.path.as_str(), sources[i].as_str()) && path_inside_dir(
            b.path.as_str(),
            sources[i].as_str(),
        ) {
            return true;
        }
        i += 1;
    }
    false
}

/// Whether a video is the one of which another one, in the same source and with the same
/// extension, is a renamed copy.
pub open spec fn is_origin(origin: VideoRecord, copy: VideoRecord, sources: Seq<Seq<char>>) -> bool {
    &&& share_source(copy, origin, sources)
    &&& text::ascii_lowered(name_parts(origin.file_name@).1) == text::ascii_lowered(
        name_parts(copy.file_name@).1,
    )
    &&& copied_name(copy.file_name@) == Some(text::lowercase(name_parts(origin.file_name@).0))
}

/// Whether a video has its original in a group.
pub open spec fn has_origin(items: Seq<MatchItem>, i: int, sources: Seq<Seq<char>>) -> bool {
    exists|k: int|
        0 <= k < items.len() && k != i && is_origin(
            (#[trigger] items[k]).video,
            items[i].video,
            sources,
        )
}

/// Whether a video has a renamed copy in a group.
pub open spec fn has_copy(items: Seq<MatchItem>, i: int, sources: Seq<Seq<char>>) -> bool {
    exists|k: int|
        0 <= k < items.len() && k != i && is_origin(
            items[i].video,
            (#[trigger] items[k]).video,
            sources,
        )
}

/// Lying in one source does not depend on the order of two videos.
pub proof fn law_shared_source_is_symmetric(a: VideoRecord, b: VideoRecord, sources: Seq<Seq<char>>)
    ensures
        share_source(a, b, sources) == share_source(b, a, sources),
{
    if sources.len() > 0 {
        if share_source(a, b, sources) {
            let k = choose|k: int|
                0 <= k < sources.len() && lies_in(a.path@, #[trigger] sources[k]) && lies_in(
                    b.path@,
                    sources[k],
                );
            assert(lies_in(b.path@, sources[k]));
        }
        if share_source(b, a, sources) {
            let k = choose|k: int|
                0 <= k < sources.len() && lies_in(b.path@, #[trigger] sources[k]) && lies_in(
                    a.path@,
                    sources[k],
                );
            assert(lies_in(a.path@, sources[k]));
        }
    }
}

/// The rank of a video by copies: one with a renamed copy goes before the others, and renamed
/// copies with their original go last.
pub open spec fn copy_rank(items: Seq<MatchItem>, i: int, sources: Seq<Seq<char>>) -> int {
    if has_origin(items, i, sources) {
        2
    } else if has_copy(items, i, sources) {
        0
    } else {
        1
    }
}

fn check_origin(origin: &VideoRecord, copy: &VideoRecord, sources: &Vec<String>) -> (r: bool)
    ensures
        r == is_origin(*origin, *copy, models::texts(sources@)),
{
    let own = split_file_name(origin.file_name.as_str());
    let other = split_file_name(copy.file_name.as_str());
    let named = match rename_suffix_base(copy.file_name.as_str()) {
        Some(base) => same_text(base.as_str(), own.0.as_str().to_lowercase().as_str()),
        None => false,
    };
    named && eq_ignore_ascii_case(own.1.as_str(), other.1.as_str()) && videos_share_scan_source(
        copy,
        origin,
        sources,
    )
}

/// The rank of a video of a group by copies.
pub fn path_source_rename_suffix_priority(
    items: &Vec<MatchItem>,
    i: usize,
    sources: &Vec<String>,
) -> (r: usize)
    requires
        i < items@.len(),
    ensures
        r == copy_rank(items@, i as int, models::texts(sources@)),
{
    let ghost all = models::texts(sources@);
    let mut k: usize = 0;
    while k < items.len()
        invariant
            i < items@.len(),
            k <= items@.len(),
            all == models::texts(sources@),
            forall|m: int|
                0 <= m < k && m != i ==> !is_origin(
                    (#[trigger] items@[m]).video,
                    items@[i as int].video,
                    all,
                ),
        decreases items@.len() - k,
    {
        if k != i && check_origin(&items[k].video, &items[i].video, sources) {
            assert(has_origin(items@, i as int, all));
            return 2;
        }
        k += 1;
    }
    assert(!has_origin(items@, i as int, all));
    let mut k: usize = 0;
    while k < items.len()
        invariant
            i < items@.len(),
            k <= items@.len(),
            all == models::texts(sources@),
            !has_origin(items@, i as int, all),
            forall|m: int|
                0 <= m < k && m != i ==> !is_origin(
                    items@[i as int].video,
                    (#[trigger] items@[m]).video,
                    all,
                ),
        decreases items@.len() - k,
    {
        if k != i && check_origin(&items[i].video, &items[k].video, sources) {
            assert(has_copy(items@, i as int, all));
            return 0;
        }
        k += 1;
    }
    assert(!has_copy(items@, i as int, all));
    1
}

/// Whether a text has digits.
pub open spec fn has_digit(s: Seq<char>) -> bool {
    exists|k: int| 0 <= k < s.len() && is_digit(#[trigger] s[k])
}

/// Whether a text is nothing but digits.
pub open spec fn is_number(s: Seq<char>) -> bool {
    s.len() > 0 && forall|k: int| 0 <= k < s.len() ==> is_digit(#[trigger] s[k])
}

/// How much a file name tells: by its length, Chinese characters and digits.
pub open spec fn readable_score(name: Seq<char>) -> int {
    let base = name_parts(name).0;
    let n = base.len() as int;
    (if n < 80 {
        n
    } else {
        80
    }) + (if has_chinese(base) {
        80int
    } else {
        0
    }) + (if has_digit(base) {
        18int
    } else {
        0
    }) - (if is_number(base) {
        70int
    } else {
        0
    }) - (if n < 6 {
        20int
    } else {
        0
    })
}

/// How much a file name tells.
pub fn score_readable_file_name(name: &str) -> (r: i64)
    ensures
        r == readable_score(name@),
{
    let parts = split_file_name(name);
    let base = chars_of(parts.0.as_str());
    let n: usize = base.len();
    let mut digit = false;
    let mut number = n > 0;
    let mut i: usize = 0;
    while i < n
        invariant
            i <= n,
            n == base@.len(),
            digit == exists|k: int| 0 <= k < i && is_digit(#[trigger] base@[k]),
            number == (n > 0 && forall|k: int| 0 <= k < i ==> is_digit(#[trigger] base@[k])),
        decreases n - i,
    {
        if '0' <= base[i] && base[i] <= '9' {
            assert(is_digit(base@[i as int]));
            digit = true;
        } else {
            assert(!is_digit(base@[i as int]));
            number = false;
        }
        i += 1;
    }
    let mut score: i64 = if n < 80 {
        n as i64
    } else {
        80
    };
    assert(base@.subrange(0, n as int) =~= base@);
    if any_chinese(&base, 0, n) {
        score = score + 80;
    }
    if digit {
        score = score + 18;
    }
    if number {
        score = score - 70;
    }
    if n < 6 {
        score = score - 20;
    }
    score
}

/// What the choice of a name rests on.
pub struct NamingRank {
    pub prefix: int,
    pub copy: int,
    pub folder: int,
    pub readable: int,
    pub quality: int,
}

/// What the choice of a name rests on, for one video of a group.
pub open spec fn naming_rank(
    items: Seq<MatchItem>,
    i: int,
    dirs: Seq<Seq<char>>,
    sources: Seq<Seq<char>>,
) -> NamingRank {
    NamingRank {
        prefix: prefix_rank(items[i].video.file_name@),
        copy: copy_rank(items, i, sources),
        folder: folder_rank(items[i].video, dirs, 0),
        readable: readable_score(items[i].video.file_name@),
        quality: items[i].video.quality_score.total_rank(),
    }
}

/// Whether one name is chosen before another.
pub open spec fn named_first(a: NamingRank, b: NamingRank) -> bool {
    a.prefix < b.prefix || (a.prefix == b.prefix && (a.copy < b.copy || (a.copy == b.copy && (
    a.folder < b.folder || (a.folder == b.folder && (a.readable > b.readable || (a.readable
        == b.readable && a.quality > b.quality)))))))
}

/// Whether a video of a group gives the name: none goes before it, and no earlier one is its equal.
pub open spec fn gives_name(
    items: Seq<MatchItem>,
    i: int,
    dirs: Seq<Seq<char>>,
    sources: Seq<Seq<char>>,
) -> bool {
    &&& 0 <= i < items.len()
    &&& forall|k: int|
        #![trigger items[k]]
        0 <= k < items.len() ==> !named_first(
            naming_rank(items, k, dirs, sources),
            naming_rank(items, i, dirs, sources),
        )
    &&& forall|k: int|
        #![trigger items[k]]
        0 <= k < i ==> named_first(
            naming_rank(items, i, dirs, sources),
            naming_rank(items, k, dirs, sources),
        )
}

/// Only one video of a group gives the name.
pub proof fn law_one_video_gives_the_name(
    items: Seq<MatchItem>,
    i: int,
    j: int,
    dirs: Seq<Seq<char>>,
    sources: Seq<Seq<char>>,
)
    requires
        gives_name(items, i, dirs, sources),
        gives_name(items, j, dirs, sources),
    ensures
        i == j,
{
    if i < j {
        let _first = items[i];
    } else if j < i {
        let _second = items[j];
    }
    assert(items[i] == items[i] && items[j] == items[j]);
}

/// What the choice of a name rests on, as numbers of the machine.
#[derive(Debug, Clone, Copy)]
struct Rank {
    prefix: usize,
    copy: usize,
    folder: usize,
    readable: i64,
    quality: i64,
}

impl Rank {
    closed spec fn model(self) -> NamingRank {
        NamingRank {
            prefix: self.prefix as int,
            copy: self.copy as int,
            folder: self.folder as int,
            readable: self.readable as int,
            quality: self.quality as int,
        }
    }
}

fn rank_of(
    items: &Vec<MatchItem>,
    i: usize,
    dirs: &Vec<String>,
    sources: &Vec<String>,
) -> (r: Rank)
    requires
        i < items@.len(),
    ensures
        r.model() == naming_rank(
            items@,
            i as int,
            models::texts(dirs@),
            models::texts(sources@),
        ),
{
    Rank {
        prefix: file_name_chinese_prefix_rank(items[i].video.file_name.as_str()),
        copy: path_source_rename_suffix_priority(items, i, sources),
        folder: naming_folder_priority(&items[i].video, dirs),
        readable: score_readable_file_name(items[i].video.file_name.as_str()),
        quality: items[i].video.quality_score.total_order(),
    }
}

fn is_first(a: Rank, b: Rank) -> (r: bool)
    ensures
        r == named_first(a.model(), b.model()),
{
    a.prefix < b.prefix || (a.prefix == b.prefix && (a.copy < b.copy || (a.copy == b.copy && (
    a.folder < b.folder || (a.folder == b.folder && (a.readable > b.readable || (a.readable
        == b.readable && a.quality > b.quality)))))))
}

/// The position of the video of a group that gives the name. `dirs` are the folders whose names
/// are taken first, and `sources` those that were scanned.
pub fn naming_source_for_group(
    group: &MatchGroup,
    naming_source_dirs: &Vec<String>,
    scan_source_dirs: &Vec<String>,
) -> (r: Option<usize>)
    ensures
        match r {
            Some(i) => gives_name(
                group.items@,
                i as int,
                models::texts(naming_source_dirs@),
                models::texts(scan_source_dirs@),
            ),
            None => group.items@.len() == 0,
        },
{
    if group.items.len() == 0 {
        return None;
    }
    let ghost dirs = models::texts(naming_source_dirs@);
    let ghost sources = models::texts(scan_source_dirs@);
    let ghost items = group.items@;
    let mut best: usize = 0;
    let mut best_rank = rank_of(&group.items, 0, naming_source_dirs, scan_source_dirs);
    let mut i: usize = 1;
    while i < group.items.len()
        invariant
            1 <= i <= group.items@.len(),
            best < i,
            items == group.items@,
            dirs == models::texts(naming_source_dirs@),
            sources == models::texts(scan_source_dirs@),
            best_rank.model() == naming_rank(items, best as int, dirs, sources),
            forall|k: int|
                #![trigger items[k]]
                0 <= k < i ==> !named_first(
                    naming_rank(items, k, dirs, sources),
                    naming_rank(items, best as int, dirs, sources),
                ),
            forall|k: int|
                #![trigger items[k]]
                0 <= k < best ==> named_first(
                    naming_rank(items, best as int, dirs, sources),
                    naming_rank(items, k, dirs, sources),
                ),
        decreases group.items@.len() - i,
    {
        let rank = rank_of(&group.items, i, naming_source_dirs, scan_source_dirs);
        if is_first(rank, best_rank) {
            best = i;
            best_rank = rank;
        }
        i += 1;
    }
    Some(best)
}

/// A task that merges a group: the kept video takes the place of the one that gives the name, or
/// the others only go.
#[derive(Debug, Clone)]
pub enum MergeTask {
    Merge { title: String, keeper_id: i64, source_id: i64, extra_ids: Vec<i64> },
    File { title: String, ids: Vec<i64> },
}

/// The ids of the first `n` videos of a group.
pub open spec fn group_ids(items: Seq<MatchItem>, n: int) -> Seq<i64>
    decreases n,
{
    if n <= 0 {
        Seq::empty()
    } else {
        match items[n - 1].video.id {
            Some(id) => group_ids(items, n - 1).push(id),
            None => group_ids(items, n - 1),
        }
    }
}

/// The ids of a list that are neither of two.
pub open spec fn ids_but(ids: Seq<i64>, one: i64, other: i64) -> Seq<i64>
    decreases ids.len(),
{
    if ids.len() == 0 {
        Seq::empty()
    } else if ids.last() != one && ids.last() != other {
        ids_but(ids.drop_last(), one, other).push(ids.last())
    } else {
        ids_but(ids.drop_last(), one, other)
    }
}

fn list_ids(items: &Vec<MatchItem>) -> (r: Vec<i64>)
    ensures
        r@ == group_ids(items@, items@.len() as int),
{
    let mut out: Vec<i64> = Vec::new();
    let mut i: usize = 0;
    while i < items.len()
        invariant
            i <= items@.len(),
            out@ == group_ids(items@, i as int),
        decreases items@.len() - i,
    {
        if let Some(id) = items[i].video.id {
            out.push(id);
        }
        i += 1;
    }
    out
}

fn drop_ids(ids: &Vec<i64>, one: i64, other: i64) -> (r: Vec<i64>)
    ensures
        r@ == ids_but(ids@, one, other),
{
    let mut out: Vec<i64> = Vec::new();
    let mut i: usize = 0;
    assert(ids@.take(0) =~= Seq::empty());
    while i < ids.len()
        invariant
            i <= ids@.len(),
            out@ == ids_but(ids@.take(i as int), one, other),
        decreases ids@.len() - i,
    {
        assert(ids@.take(i + 1).drop_last() =~= ids@.take(i as int));
        if ids[i] != one && ids[i] != other {
            out.push(ids[i]);
        }
        i += 1;
    }
    assert(ids@.take(i as int) =~= ids@);
    out
}

/// The video of a group that is kept: the one that is recommended, or else the first with an id.
pub open spec fn keeper_of(group: MatchGroup) -> Option<i64> {
    let ids = group_ids(group.items@, group.items@.len() as int);
    match group.recommended_video_id {
        Some(id) => Some(id),
        None => if ids.len() > 0 {
            Some(ids[0])
        } else {
            None
        },
    }
}

/// Whether a task merges a group, with the video at `i` giving the name.
pub open spec fn merges(task: MergeTask, group: MatchGroup, keeper: i64, i: int) -> bool {
    let ids = group_ids(group.items@, group.items@.len() as int);
    let source = group.items@[i].video.id->0;
    match task {
        MergeTask::Merge { title, keeper_id, source_id, extra_ids } => {
            &&& source != keeper
            &&& title@ == group.title@
            &&& keeper_id == keeper
            &&& source_id == source
            &&& extra_ids@ == ids_but(ids, keeper, source)
        },
        MergeTask::File { title, ids: others } => {
            &&& source == keeper
            &&& title@ == group.title@
            &&& others@ == ids_but(ids, keeper, keeper)
        },
    }
}

/// Whether there is something to merge in a group, with the video at `i` giving the name.
pub open spec fn is_mergeable(group: MatchGroup, i: int) -> bool {
    &&& keeper_of(group) is Some
    &&& group.items@[i].video.id is Some
    &&& ids_but(
        group_ids(group.items@, group.items@.len() as int),
        keeper_of(group)->0,
        keeper_of(group)->0,
    ).len() > 0
}

/// The task that merges a group, where there is something to merge.
pub fn plan_group_task(
    group: &MatchGroup,
    naming_source_dirs: &Vec<String>,
    scan_source_dirs: &Vec<String>,
) -> (r: Option<MergeTask>)
    ensures
        match r {
            Some(task) => exists|i: int| #[trigger]
                gives_name(
                    group.items@,
                    i,
                    models::texts(naming_source_dirs@),
                    models::texts(scan_source_dirs@),
                ) && is_mergeable(*group, i) && merges(task, *group, keeper_of(*group)->0, i),
            None => forall|i: int| #[trigger]
                gives_name(
                    group.items@,
                    i,
                    models::texts(naming_source_dirs@),
                    models::texts(scan_source_dirs@),
                ) ==> !is_mergeable(*group, i),
        },
{
    let ids = list_ids(&group.items);
    let source_at = naming_source_for_group(group, naming_source_dirs, scan_source_dirs);
    let i: usize = match source_at {
        Some(i) => i,
        None => {
            return None;
        },
    };
    proof {
        assert forall|k: int| #[trigger]
            gives_name(
                group.items@,
                k,
                models::texts(naming_source_dirs@),
                models::texts(scan_source_dirs@),
            ) implies k == i by {
            law_one_video_gives_the_name(
                group.items@,
                k,
                i as int,
                models::texts(naming_source_dirs@),
                models::texts(scan_source_dirs@),
            );
        }
    }
    let keeper: i64 = match group.recommended_video_id {
        Some(id) => id,
        None => {
            if ids.len() == 0 {
                return None;
            }
            ids[0]
        },
    };
    let source: i64 = match group.items[i].video.id {
        Some(id) => id,
        None => {
            return None;
        },
    };
    let others = drop_ids(&ids, keeper, keeper);
    if others.len() == 0 {
        return None;
    }
    let task = if source != keeper {
        MergeTask::Merge {
            title: group.title.clone(),
            keeper_id: keeper,
            source_id: source,
            extra_ids: drop_ids(&ids, keeper, source),
        }
    } else {
        MergeTask::File { title: group.title.clone(), ids: others }
    };
    assert(merges(task, *group, keeper, i as int));
    Some(task)
}

/// The title of a task.
pub fn task_title(task: &MergeTask) -> (r: String)
    ensures
        r@ == (match *task {
            MergeTask::Merge { title, .. } => title@,
            MergeTask::File { title, .. } => title@,
        }),
{
    match task {
        MergeTask::Merge { title, .. } => title.clone(),
        MergeTask::File { title, .. } => title.clone(),
    }
}

/// Whether two lists of ids have none in common.
pub open spec fn are_apart(a: Seq<i64>, b: Seq<i64>) -> bool {
    forall|x: i64| !(#[trigger] a.contains(x) && b.contains(x))
}

fn have_common(a: &Vec<i64>, b: &Vec<i64>) -> (r: bool)
    ensures
        r == !are_apart(a@, b@),
{
    let mut i: usize = 0;
    while i < a.len()
        invariant
            i <= a@.len(),
            forall|k: int| 0 <= k < i ==> !b@.contains(#[trigger] a@[k]),
        decreases a@.len() - i,
    {
        if has_id(b, a[i]) {
            assert(a@.contains(a@[i as int]));
            return true;
        }
        i += 1;
    }
    assert(are_apart(a@, b@)) by {
        assert forall|x: i64| !(#[trigger] a@.contains(x) && b@.contains(x)) by {
            if a@.contains(x) {
                let k = choose|k: int| 0 <= k < a@.len() && a@[k] == x;
                assert(!b@.contains(a@[k]));
            }
        }
    }
    false
}

/// The tasks that merge all groups, the number of groups that were left out because a video of
/// theirs is in an earlier one, and the positions of the groups of the tasks.
#[derive(Debug, Clone)]
pub struct MergeAllPlan {
    pub tasks: Vec<MergeTask>,
    pub groups: Vec<usize>,
    pub skipped: usize,
}

/// Whether no two of some groups have a video in common.
pub open spec fn all_apart(groups: Seq<MatchGroup>, chosen: Seq<usize>) -> bool {
    forall|a: int, b: int|
        #![trigger chosen[a], chosen[b]]
        0 <= a < b < chosen.len() ==> are_apart(
            group_ids(
                groups[chosen[b] as int].items@,
                groups[chosen[b] as int].items@.len() as int,
            ),
            group_ids(
                groups[chosen[a] as int].items@,
                groups[chosen[a] as int].items@.len() as int,
            ),
        )
}

/// The ids that the first `n` chosen groups hold.
pub open spec fn claimed_ids(groups: Seq<MatchGroup>, chosen: Seq<usize>, n: int) -> Seq<i64>
    decreases n,
{
    if n <= 0 {
        Seq::empty()
    } else {
        let items = groups[chosen[n - 1] as int].items@;
        claimed_ids(groups, chosen, n - 1) + group_ids(items, items.len() as int)
    }
}

proof fn lemma_claimed(groups: Seq<MatchGroup>, chosen: Seq<usize>, n: int, k: int, x: i64)
    requires
        0 <= k < n <= chosen.len(),
        group_ids(
            groups[chosen[k] as int].items@,
            groups[chosen[k] as int].items@.len() as int,
        ).contains(x),
    ensures
        claimed_ids(groups, chosen, n).contains(x),
    decreases n,
{
    let before = claimed_ids(groups, chosen, n - 1);
    let items = groups[chosen[n - 1] as int].items@;
    let own = group_ids(items, items.len() as int);
    if k < n - 1 {
        lemma_claimed(groups, chosen, n - 1, k, x);
        let p = choose|p: int| 0 <= p < before.len() && before[p] == x;
        assert((before + own)[p] == x);
    } else {
        let p = choose|p: int| 0 <= p < own.len() && own[p] == x;
        assert((before + own)[before.len() + p] == x);
    }
}

proof fn lemma_claimed_push(groups: Seq<MatchGroup>, chosen: Seq<usize>, g: usize, n: int)
    requires
        0 <= n <= chosen.len(),
    ensures
        claimed_ids(groups, chosen.push(g), n) == claimed_ids(groups, chosen, n),
    decreases n,
{
    if n > 0 {
        lemma_claimed_push(groups, chosen, g, n - 1);
        assert(chosen.push(g)[n - 1] == chosen[n - 1]);
    }
}

/// Whether a task merges a group in the way that the folders and sources ask for.
pub open spec fn is_task_of(
    task: MergeTask,
    group: MatchGroup,
    dirs: Seq<Seq<char>>,
    sources: Seq<Seq<char>>,
) -> bool {
    exists|i: int| #[trigger]
        gives_name(group.items@, i, dirs, sources) && is_mergeable(group, i) && merges(
            task,
            group,
            keeper_of(group)->0,
            i,
        )
}

/// The tasks that merge all groups, in their order; a group with a video of an earlier task is left
/// out.
pub fn plan_all_groups(
    groups: &Vec<MatchGroup>,
    naming_source_dirs: &Vec<String>,
    scan_source_dirs: &Vec<String>,
) -> (r: MergeAllPlan)
    ensures
        r.tasks@.len() == r.groups@.len(),
        r.skipped == passed_over(
            groups@,
            r.groups@,
            models::texts(naming_source_dirs@),
            models::texts(scan_source_dirs@),
            groups@.len() as int,
        ),
        forall|k: int|
            #![trigger r.tasks@[k]]
            0 <= k < r.tasks@.len() ==> r.groups@[k] < groups@.len() && is_task_of(
                r.tasks@[k],
                groups@[r.groups@[k] as int],
                models::texts(naming_source_dirs@),
                models::texts(scan_source_dirs@),
            ),
        forall|a: int, b: int|
            #![trigger r.groups@[a], r.groups@[b]]
            0 <= a < b < r.groups@.len() ==> r.groups@[a] < r.groups@[b],
        all_apart(groups@, r.groups@),
        forall|g: int|
            #![trigger groups@[g]]
            0 <= g < groups@.len() && !r.groups@.contains(g as usize) ==> is_left_out(
                groups@,
                r.groups@,
                g,
                models::texts(naming_source_dirs@),
                models::texts(scan_source_dirs@),
            ),
{
    let ghost dirs = models::texts(naming_source_dirs@);
    let ghost sources = models::texts(scan_source_dirs@);
    let total: usize = groups.len();
    let mut tasks: Vec<MergeTask> = Vec::new();
    let mut chosen: Vec<usize> = Vec::new();
    let mut claimed: Vec<i64> = Vec::new();
    let mut skipped: usize = 0;
    let mut g: usize = 0;
    while g < total
        invariant
            g <= total,
            total == groups@.len(),
            dirs == models::texts(naming_source_dirs@),
            sources == models::texts(scan_source_dirs@),
            tasks@.len() == chosen@.len(),
            skipped + tasks@.len() <= g,
            skipped == passed_over(groups@, chosen@, dirs, sources, g as int),
            claimed@ == claimed_ids(groups@, chosen@, chosen@.len() as int),
            forall|k: int|
                #![trigger tasks@[k]]
                0 <= k < tasks@.len() ==> chosen@[k] < groups@.len() && is_task_of(
                    tasks@[k],
                    groups@[chosen@[k] as int],
                    dirs,
                    sources,
                ),
            forall|a: int| 0 <= a < chosen@.len() ==> (#[trigger] chosen@[a]) < g,
            forall|a: int, b: int|
                #![trigger chosen@[a], chosen@[b]]
                0 <= a < b < chosen@.len() ==> chosen@[a] < chosen@[b],
            all_apart(groups@, chosen@),
            forall|m: int|
                #![trigger groups@[m]]
                0 <= m < g && !chosen@.contains(m as usize) ==> is_left_out(
                    groups@,
                    chosen@,
                    m,
                    dirs,
                    sources,
                ),
        decreases total - g,
    {
        let ghost had = chosen@;
        let ghost had_tasks = tasks@;
        let ghost had_ids = claimed@;
        let mut ids = list_ids(&groups[g].items);
        let ghost own = ids@;
        match plan_group_task(&groups[g], naming_source_dirs, scan_source_dirs) {
            None => {
                proof {
                    assert(!has_task(groups@[g as int], dirs, sources));
                    assert(is_left_out(groups@, had, g as int, dirs, sources));
                }
            },
            Some(task) => {
                if have_common(&ids, &claimed) {
                    skipped += 1;
                    proof {
                        assert(has_task(groups@[g as int], dirs, sources));
                        assert(is_left_out(groups@, had, g as int, dirs, sources));
                    }
                } else {
                    proof {
                        assert forall|a: int| 0 <= a < had.len() implies are_apart(
                            own,
                            group_ids(
                                groups@[(#[trigger] had[a]) as int].items@,
                                groups@[had[a] as int].items@.len() as int,
                            ),
                        ) by {
                            let other = group_ids(
                                groups@[had[a] as int].items@,
                                groups@[had[a] as int].items@.len() as int,
                            );
                            assert forall|x: i64| !(#[trigger] own.contains(x) && other.contains(
                                x,
                            )) by {
                                if own.contains(x) && other.contains(x) {
                                    lemma_claimed(groups@, had, had.len() as int, a, x);
                                }
                            }
                        }
                        lemma_claimed_push(groups@, had, g, had.len() as int);
                        lemma_passed_over(groups@, had, g, dirs, sources, g as int);
                    }
                    claimed.append(&mut ids);
                    tasks.push(task);
                    chosen.push(g);
                    proof {
                        assert(is_task_of(task, groups@[g as int], dirs, sources));
                        assert forall|k: int|
                            #![trigger tasks@[k]]
                            0 <= k < tasks@.len() implies chosen@[k] < groups@.len() && is_task_of(
                            tasks@[k],
                            groups@[chosen@[k] as int],
                            dirs,
                            sources,
                        ) by {
                            if k < had.len() {
                                assert(tasks@[k] == had_tasks[k]);
                                assert(chosen@[k] == had[k]);
                            }
                        }
                        assert forall|a: int, b: int|
                            #![trigger chosen@[a], chosen@[b]]
                            0 <= a < b < chosen@.len() implies chosen@[a] < chosen@[b]
                            && are_apart(
                            group_ids(
                                groups@[chosen@[b] as int].items@,
                                groups@[chosen@[b] as int].items@.len() as int,
                            ),
                            group_ids(
                                groups@[chosen@[a] as int].items@,
                                groups@[chosen@[a] as int].items@.len() as int,
                            ),
                        ) by {
                            assert(chosen@[a] == had[a]);
                            if b < had.len() {
                                assert(chosen@[b] == had[b]);
                            }
                        }
                        assert(chosen@[had.len() as int] == g);
                    }
                }
            },
        }
        proof {
            assert forall|m: int|
                #![trigger groups@[m]]
                0 <= m < g + 1 && !chosen@.contains(m as usize) implies is_left_out(
                groups@,
                chosen@,
                m,
                dirs,
                sources,
            ) by {
                if m < g {
                    assert(!had.contains(m as usize)) by {
                        if had.contains(m as usize) {
                            let k = choose|k: int| 0 <= k < had.len() && had[k] == m as usize;
                            assert(chosen@[k] == m as usize);
                        }
                    }
                    lemma_left_out_stays(groups@, had, chosen@, m, dirs, sources);
                } else {
                    lemma_left_out_stays(groups@, had, chosen@, m, dirs, sources);
                }
            }
        }
        g += 1;
    }
    MergeAllPlan { tasks, groups: chosen, skipped }
}

/// Whether there is a task for a group.
pub open spec fn has_task(group: MatchGroup, dirs: Seq<Seq<char>>, sources: Seq<Seq<char>>) -> bool {
    exists|i: int| #[trigger]
        gives_name(group.items@, i, dirs, sources) && is_mergeable(group, i)
}

/// Whether a group is rightly left out: there is nothing to merge in it, or a video of it is in a
/// chosen group before it.
pub open spec fn is_left_out(
    groups: Seq<MatchGroup>,
    chosen: Seq<usize>,
    g: int,
    dirs: Seq<Seq<char>>,
    sources: Seq<Seq<char>>,
) -> bool {
    ||| !has_task(groups[g], dirs, sources)
    ||| exists|n: int|
        0 <= n <= chosen.len() && (n > 0 ==> chosen[n - 1] < g) && !are_apart(
            group_ids(groups[g].items@, groups[g].items@.len() as int),
            #[trigger] claimed_ids(groups, chosen, n),
        )
}

/// The number of those of the first `n` groups that are left out though there is something to
/// merge in them.
pub open spec fn passed_over(
    groups: Seq<MatchGroup>,
    chosen: Seq<usize>,
    dirs: Seq<Seq<char>>,
    sources: Seq<Seq<char>>,
    n: int,
) -> int
    decreases n,
{
    if n <= 0 {
        0
    } else {
        passed_over(groups, chosen, dirs, sources, n - 1) + (if has_task(
            groups[n - 1],
            dirs,
            sources,
        ) && !chosen.contains((n - 1) as usize) {
            1int
        } else {
            0
        })
    }
}

proof fn lemma_passed_over(
    groups: Seq<MatchGroup>,
    chosen: Seq<usize>,
    g: usize,
    dirs: Seq<Seq<char>>,
    sources: Seq<Seq<char>>,
    n: int,
)
    requires
        n <= g,
    ensures
        passed_over(groups, chosen.push(g), dirs, sources, n) == passed_over(
            groups,
            chosen,
            dirs,
            sources,
            n,
        ),
    decreases n,
{
    if n > 0 {
        lemma_passed_over(groups, chosen, g, dirs, sources, n - 1);
        let m = (n - 1) as usize;
        if chosen.contains(m) {
            let k = choose|k: int| 0 <= k < chosen.len() && chosen[k] == m;
            assert(chosen.push(g)[k] == m);
        }
        if chosen.push(g).contains(m) {
            let k = choose|k: int| 0 <= k < chosen.push(g).len() && chosen.push(g)[k] == m;
            assert(chosen[k] == m);
        }
    }
}

proof fn lemma_left_out_stays(
    groups: Seq<MatchGroup>,
    had: Seq<usize>,
    chosen: Seq<usize>,
    g: int,
    dirs: Seq<Seq<char>>,
    sources: Seq<Seq<char>>,
)
    requires
        is_left_out(groups, had, g, dirs, sources),
        chosen == had || (chosen.len() == had.len() + 1 && chosen == had.push(chosen.last())),
    ensures
        is_left_out(groups, chosen, g, dirs, sources),
{
    if has_task(groups[g], dirs, sources) {
        let n = choose|n: int|
            0 <= n <= had.len() && (n > 0 ==> had[n - 1] < g) && !are_apart(
                group_ids(groups[g].items@, groups[g].items@.len() as int),
                #[trigger] claimed_ids(groups, had, n),
            );
        if chosen != had {
            lemma_claimed_push(groups, had, chosen.last(), n);
        }
        assert(!are_apart(
            group_ids(groups[g].items@, groups[g].items@.len() as int),
            claimed_ids(groups, chosen, n),
        ));
    }
}

/// The ids of a list that are still in the index.
pub open spec fn active_ids(ids: Seq<i64>, indexed: Seq<i64>) -> Seq<i64>
    decreases ids.len(),
{
    if ids.len() == 0 {
        Seq::empty()
    } else if indexed.contains(ids.last()) {
        active_ids(ids.drop_last(), indexed).push(ids.last())
    } else {
        active_ids(ids.drop_last(), indexed)
    }
}

fn keep_active(ids: &Vec<i64>, indexed: &Vec<i64>) -> (r: Vec<i64>)
    ensures
        r@ == active_ids(ids@, indexed@),
{
    let mut out: Vec<i64> = Vec::new();
    let mut i: usize = 0;
    assert(ids@.take(0) =~= Seq::empty());
    while i < ids.len()
        invariant
            i <= ids@.len(),
            out@ == active_ids(ids@.take(i as int), indexed@),
        decreases ids@.len() - i,
    {
        assert(ids@.take(i + 1).drop_last() =~= ids@.take(i as int));
        if has_id(indexed, ids[i]) {
            out.push(ids[i]);
        }
        i += 1;
    }
    assert(ids@.take(i as int) =~= ids@);
    out
}

/// What a task asks for, by what is still in the index.
#[derive(Debug, Clone)]
pub enum TaskRequest {
    /// Nothing, since its videos are gone.
    Skip,
    /// The kept video takes the place of another; more videos go.
    Merge { keeper_id: i64, source_id: i64, extra_ids: Vec<i64> },
    /// Videos go.
    File { ids: Vec<i64> },
}

/// What a task asks for, by what is still in the index.
pub fn task_request(task: &MergeTask, indexed: &Vec<i64>) -> (r: TaskRequest)
    ensures
        match *task {
            MergeTask::Merge { keeper_id, source_id, extra_ids, .. } => if indexed@.contains(
                keeper_id,
            ) && indexed@.contains(source_id) {
                r matches TaskRequest::Merge { keeper_id: k, source_id: s, extra_ids: e } && k
                    == keeper_id && s == source_id && e@ == active_ids(extra_ids@, indexed@)
            } else {
                r is Skip
            },
            MergeTask::File { ids, .. } => if active_ids(ids@, indexed@).len() == 0 {
                r is Skip
            } else {
                r matches TaskRequest::File { ids: left } && left@ == active_ids(ids@, indexed@)
            },
        },
{
    match task {
        MergeTask::Merge { keeper_id, source_id, extra_ids, .. } => {
            if has_id(indexed, *keeper_id) && has_id(indexed, *source_id) {
                TaskRequest::Merge {
                    keeper_id: *keeper_id,
                    source_id: *source_id,
                    extra_ids: keep_active(extra_ids, indexed),
                }
            } else {
                TaskRequest::Skip
            }
        },
        MergeTask::File { ids, .. } => {
            let left = keep_active(ids, indexed);
            if left.len() == 0 {
                TaskRequest::Skip
            } else {
                TaskRequest::File { ids: left }
            }
        },
    }
}

/// What becomes of the videos that go: they are deleted only where that is asked for.
pub fn merge_disposal(disposal: &str) -> (r: String)
    ensures
        r@ == (if disposal@ == "delete"@ {
            "delete"@
        } else {
            "backup"@
        }),
{
    if same_text(disposal, "delete") {
        "delete".to_owned()
    } else {
        "backup".to_owned()
    }
}

/// The words that confirm a task.
pub fn task_confirmation(disposal: &str, merges_videos: bool) -> (r: String)
    ensures
        r@ == (if merges_videos {
            if disposal@ == "backup"@ {
                "MERGE_BACKUP"@
            } else {
                "MERGE_DELETE"@
            }
        } else if disposal@ == "backup"@ {
            "MOVE"@
        } else {
            "DELETE"@
        }),
{
    if merges_videos {
        if same_text(disposal, "backup") {
            "MERGE_BACKUP".to_owned()
        } else {
            "MERGE_DELETE".to_owned()
        }
    } else if same_text(disposal, "backup") {
        "MOVE".to_owned()
    } else {
        "DELETE".to_owned()
    }
}

/// What the merging of all groups came to so far.
#[derive(Debug, Clone)]
pub struct MergeAllRun {
    pub completed: usize,
    pub skipped: usize,
    pub failed: usize,
    pub failures: Vec<String>,
}

impl MergeAllRun {
    /// Takes note of how a task fared: its status, its error, or that it was skipped. Eight errors
    /// are kept.
    pub fn note(&mut self, title: &str, outcome: &Option<Result<String, String>>)
        requires
            old(self).completed < usize::MAX,
            old(self).skipped < usize::MAX,
            old(self).failed < usize::MAX,
        ensures
            match *outcome {
                None => {
                    &&& final(self).skipped == old(self).skipped + 1
                    &&& final(self).completed == old(self).completed
                    &&& final(self).failed == old(self).failed
                    &&& final(self).failures@ == old(self).failures@
                },
                Some(Ok(status)) => {
                    &&& final(self).skipped == old(self).skipped + (if status@ == "skipped-stale"@ {
                        1int
                    } else {
                        0
                    })
                    &&& final(self).completed == old(self).completed + (if status@
                        == "skipped-stale"@ {
                        0int
                    } else {
                        1
                    })
                    &&& final(self).failed == old(self).failed
                    &&& final(self).failures@ == old(self).failures@
                },
                Some(Err(error)) => {
                    &&& final(self).skipped == old(self).skipped
                    &&& final(self).completed == old(self).completed
                    &&& final(self).failed == old(self).failed + 1
                    &&& models::texts(final(self).failures@) == (if old(self).failures@.len() < 8 {
                        models::texts(old(self).failures@).push(title@ + ": "@ + error@)
                    } else {
                        models::texts(old(self).failures@)
                    })
                },
            },
    {
        match outcome {
            None => {
                self.skipped = self.skipped + 1;
            },
            Some(Ok(status)) => {
                if same_text(status.as_str(), "skipped-stale") {
                    self.skipped = self.skipped + 1;
                } else {
                    self.completed = self.completed + 1;
                }
            },
            Some(Err(error)) => {
                self.failed = self.failed + 1;
                if self.failures.len() < 8 {
                    text::add_line(&mut self.failures, cat3(title, ": ", error.as_str()));
                }
            },
        }
    }

    /// How the merging went.
    pub fn status(&self) -> (r: String)
        ensures
            r@ == (if self.failed == 0 {
                "completed"@
            } else {
                "completed-with-failures"@
            }),
    {
        if self.failed == 0 {
            "completed".to_owned()
        } else {
            "completed-with-failures".to_owned()
        }
    }
}

/// The lowest and the highest confidence that groups are listed with: zero and one.
pub const NO_CONFIDENCE: u64 = 0x0000_0000_0000_0000;

pub const FULL_CONFIDENCE: u64 = 0x3ff0_0000_0000_0000;

/// Two confidences as a range, the lower first, each between zero and one.
pub open spec fn range_of(a: Double, b: Double) -> (Double, Double) {
    let low = a.clamped((Double { bits: NO_CONFIDENCE }), (Double { bits: FULL_CONFIDENCE }));
    let high = b.clamped((Double { bits: NO_CONFIDENCE }), (Double { bits: FULL_CONFIDENCE }));
    if low.le(high) {
        (low, high)
    } else {
        (high, low)
    }
}

/// Two confidences as a range.
pub fn confidence_range(min_confidence: Double, max_confidence: Double) -> (r: (Double, Double))
    ensures
        r == range_of(min_confidence, max_confidence),
{
    let none = Double { bits: NO_CONFIDENCE };
    let full = Double { bits: FULL_CONFIDENCE };
    let low = min_confidence.clamp(none, full);
    let high = max_confidence.clamp(none, full);
    if low.at_most(high) {
        (low, high)
    } else {
        (high, low)
    }
}

/// The groups that are not surer than a limit.
pub open spec fn groups_below(groups: Seq<MatchGroup>, limit: Double) -> Seq<MatchGroup>
    decreases groups.len(),
{
    if groups.len() == 0 {
        Seq::empty()
    } else {
        let rest = groups_below(groups.drop_last(), limit);
        if groups.last().confidence.le(limit) {
            rest.push(groups.last())
        } else {
            rest
        }
    }
}

/// The groups that are listed: those that are not surer than a limit, the surest first.
pub fn list_groups(groups: Vec<MatchGroup>, limit: Double) -> (r: Vec<MatchGroup>)
    ensures
        r@ == ai_report::groups_sorted(
            groups_below(groups@, limit),
            groups_below(groups@, limit).len() as int,
        ),
{
    let ghost all = groups@;
    let mut marks: Vec<bool> = Vec::new();
    let mut i: usize = 0;
    while i < groups.len()
        invariant
            i <= groups@.len(),
            marks@.len() == i,
            forall|k: int|
                0 <= k < i ==> #[trigger] marks@[k] == groups@[k].confidence.le(limit),
        decreases groups@.len() - i,
    {
        marks.push(groups[i].confidence.at_most(limit));
        i += 1;
    }
    let kept = crate::rows::keep_marked(groups, &marks);
    proof {
        lemma_marked_below(all, marks@, limit);
    }
    sort_ai_groups(kept)
}

proof fn lemma_marked_below(groups: Seq<MatchGroup>, marks: Seq<bool>, limit: Double)
    requires
        groups.len() <= marks.len(),
        forall|k: int|
            0 <= k < groups.len() ==> #[trigger] marks[k] == groups[k].confidence.le(limit),
    ensures
        crate::rows::marked(groups, marks) == groups_below(groups, limit),
    decreases groups.len(),
{
    if groups.len() > 0 {
        lemma_marked_below(groups.drop_last(), marks, limit);
        assert(marks[groups.len() - 1] == groups[groups.len() - 1].confidence.le(limit));
    }
}

} // verus!
