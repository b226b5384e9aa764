//! What holds of texts, lines and numbers as they are read and written.
use crate::local_preprocess;
use crate::media;
use crate::media_laws;
use crate::paths;
use crate::paths::Host;
use crate::text;
use vstd::prelude::*;

verus! {

/// A text is cut exactly at the separator: no piece has one, and the pieces joined by it are the text.
pub proof fn law_pieces_make_up_the_text(s: Seq<char>, c: char)
    ensures
        text::pieces(s, c).len() > 0,
        forall|k: int|
            0 <= k < text::pieces(s, c).len() ==> !(#[trigger] text::pieces(s, c)[k]).contains(c),
        text::joined_lines(text::pieces(s, c), seq![c], text::pieces(s, c).len() as int) == s,
    decreases s.len(),
{
    let all = text::pieces(s, c);
    if s.len() == 0 {
        assert(all[0] == Seq::<char>::empty());
        assert(text::joined_lines(all, seq![c], 1) =~= s);
    } else {
        let head = s.drop_last();
        law_pieces_make_up_the_text(head, c);
        let rest = text::pieces(head, c);
        let m = rest.len() as int;
        if s.last() == c {
            assert(all =~= rest.push(Seq::empty()));
            lemma_joined_same(rest, all, seq![c], m);
            assert(text::joined_lines(all, seq![c], m + 1) =~= text::joined_lines(
                all,
                seq![c],
                m,
            ) + seq![c] + Seq::<char>::empty());
            assert(s =~= head + seq![c] + Seq::<char>::empty());
        } else {
            let grown = rest.last().push(s.last());
            assert(all =~= rest.update(m - 1, grown));
            assert(!rest[m - 1].contains(c));
            assert(!grown.contains(c)) by {
                if grown.contains(c) {
                    let k = choose|k: int| 0 <= k < grown.len() && grown[k] == c;
                    if k < rest.last().len() {
                        assert(rest[m - 1][k] == c);
                    }
                }
            }
            lemma_joined_same(rest, all, seq![c], m - 1);
            if m == 1 {
                assert(all[0] == grown);
                assert(s =~= head.push(s.last()));
                assert(text::joined_lines(rest, seq![c], 1) == rest[0]);
            } else {
                assert(text::joined_lines(all, seq![c], m) == text::joined_lines(
                    all,
                    seq![c],
                    m - 1,
                ) + seq![c] + grown);
                assert(text::joined_lines(rest, seq![c], m) == text::joined_lines(
                    rest,
                    seq![c],
                    m - 1,
                ) + seq![c] + rest[m - 1]);
                let start = text::joined_lines(rest, seq![c], m - 1);
                assert(rest.last() == rest[m - 1]);
                assert(start + seq![c] + grown =~= (start + seq![c] + rest[m - 1]).push(s.last()));
                assert(s =~= head.push(s.last()));
            }
        }
    }
}

proof fn lemma_joined_same(a: Seq<Seq<char>>, b: Seq<Seq<char>>, separator: Seq<char>, n: int)
    requires
        0 <= n <= a.len(),
        n <= b.len(),
        forall|k: int| 0 <= k < n ==> #[trigger] a[k] == b[k],
    ensures
        text::joined_lines(a, separator, n) == text::joined_lines(b, separator, n),
    decreases n,
{
    if n > 1 {
        lemma_joined_same(a, b, separator, n - 1);
    }
    if n > 0 {
        assert(a[n - 1] == b[n - 1]);
    }
}

/// Every line stands between line ends; a return before the line end is not part of it, and no line
/// follows the last line end.
pub proof fn law_lines_stand_between_line_ends(s: Seq<char>, k: int)
    requires
        0 <= k < text::pieces(s, '\n').len() - 1,
    ensures
        ({
            let piece = text::pieces(s, '\n')[k];
            let line = text::lines_of(s)[k];
            &&& piece == line || piece == line.push('\r')
            &&& piece == line ==> line.len() == 0 || line.last() != '\r'
        }),
        text::lines_of(s).len() == text::pieces(s, '\n').len() - (if text::pieces(s, '\n').last().len()
            == 0 {
            1int
        } else {
            0
        }),
        text::pieces(s, '\n').last().len() > 0 ==> text::lines_of(s).last() == text::pieces(
            s,
            '\n',
        ).last(),
{
    let all = text::pieces(s, '\n');
    lemma_as_lines(all, all.len() - 1);
    let piece = all[k];
    let line = text::without_return(piece);
    if piece.len() > 0 && piece.last() == '\r' {
        assert(piece =~= line.push('\r'));
    }
}

proof fn lemma_as_lines(all: Seq<Seq<char>>, n: int)
    requires
        0 <= n < all.len(),
    ensures
        text::as_lines(all, n).len() == n,
        forall|k: int|
            0 <= k < n ==> #[trigger] text::as_lines(all, n)[k] == text::without_return(all[k]),
    decreases n,
{
    if n > 0 {
        lemma_as_lines(all, n - 1);
    }
}

/// What is left of a text without its leading copies of a character starts with another one, and
/// nothing else was taken away.
pub proof fn law_only_leading_copies_are_dropped(s: Seq<char>, c: char)
    ensures
        ({
            let rest = text::without_leading(s, c);
            let cut = s.len() - rest.len();
            &&& rest.len() <= s.len()
            &&& s.skip(cut) == rest
            &&& rest.len() > 0 ==> rest[0] != c
            &&& forall|k: int| 0 <= k < cut ==> #[trigger] s[k] == c
        }),
    decreases s.len(),
{
    if s.len() > 0 && s[0] == c {
        let tail = s.drop_first();
        law_only_leading_copies_are_dropped(tail, c);
        let rest = text::without_leading(s, c);
        let cut = s.len() - rest.len();
        assert(s.skip(cut) =~= tail.skip(cut - 1));
        assert forall|k: int| 0 <= k < cut implies #[trigger] s[k] == c by {
            if k > 0 {
                assert(tail[k - 1] == s[k]);
            }
        }
    } else {
        assert(s.skip(0) =~= s);
    }
}

/// What is left of a text without its trailing copies of a character ends with another one, and
/// nothing else was taken away.
pub proof fn law_only_trailing_copies_are_dropped(s: Seq<char>, c: char)
    ensures
        ({
            let rest = text::without_trailing(s, c);
            &&& rest.len() <= s.len()
            &&& s.take(rest.len() as int) == rest
            &&& rest.len() > 0 ==> rest.last() != c
            &&& forall|k: int| rest.len() <= k < s.len() ==> #[trigger] s[k] == c
        }),
    decreases s.len(),
{
    let rest = text::without_trailing(s, c);
    if s.len() > 0 && s.last() == c {
        let head = s.drop_last();
        law_only_trailing_copies_are_dropped(head, c);
        assert(s.take(rest.len() as int) =~= head.take(rest.len() as int));
        assert forall|k: int| rest.len() <= k < s.len() implies #[trigger] s[k] == c by {
            if k < head.len() {
                assert(head[k] == s[k]);
            }
        }
    } else {
        assert(s.take(s.len() as int) =~= s);
    }
}

/// The last position of a character is one where it stands, and none behind it is.
pub proof fn law_last_position_is_the_last(s: Seq<char>, c: char)
    ensures
        ({
            let at = text::last_position(s, c);
            &&& -1 <= at < s.len()
            &&& at >= 0 ==> s[at] == c
            &&& forall|k: int| at < k < s.len() ==> #[trigger] s[k] != c
        }),
    decreases s.len(),
{
    if s.len() > 0 && s.last() != c {
        let head = s.drop_last();
        law_last_position_is_the_last(head, c);
        let at = text::last_position(s, c);
        if at >= 0 {
            assert(head[at] == s[at]);
        }
        assert forall|k: int| at < k < s.len() implies #[trigger] s[k] != c by {
            if k < head.len() {
                assert(head[k] == s[k]);
            }
        }
    }
}

/// Only the plain letters have another case.
pub proof fn law_plain_letters_have_two_cases(c: char)
    ensures
        'a' <= c <= 'z' ==> text::ascii_upper(c) as int == c as int - 32 && text::ascii_lower(
            text::ascii_upper(c),
        ) == c,
        'A' <= c <= 'Z' ==> text::ascii_lower(c) as int == c as int + 32 && text::ascii_upper(
            text::ascii_lower(c),
        ) == c,
        !('a' <= c <= 'z') ==> text::ascii_upper(c) == c,
        !('A' <= c <= 'Z') ==> text::ascii_lower(c) == c,
{
}

/// Numbers are written apart.
pub proof fn law_numbers_are_written_apart(a: int, b: int)
    requires
        a != b,
        -0x1_0000_0000_0000_0000 < a < 0x1_0000_0000_0000_0000,
        -0x1_0000_0000_0000_0000 < b < 0x1_0000_0000_0000_0000,
    ensures
        text::signed_decimal(a) != text::signed_decimal(b),
        a >= 0 ==> media::number_of(text::signed_decimal(a)) == Some(a),
        a < 0 ==> text::signed_decimal(a)[0] == '-',
{
    lemma_number_back(a);
    lemma_number_back(b);
    if a < 0 && b < 0 {
        let x = text::decimal((-a) as nat);
        let y = text::decimal((-b) as nat);
        if text::signed_decimal(a) == text::signed_decimal(b) {
            assert(x =~= text::signed_decimal(a).skip(1));
            assert(y =~= text::signed_decimal(b).skip(1));
            media_laws::law_written_numbers_are_read_back((-a) as nat);
            media_laws::law_written_numbers_are_read_back((-b) as nat);
        }
    }
}

proof fn lemma_number_back(a: int)
    requires
        -0x1_0000_0000_0000_0000 < a < 0x1_0000_0000_0000_0000,
    ensures
        a >= 0 ==> media::number_of(text::signed_decimal(a)) == Some(a),
        a < 0 ==> text::signed_decimal(a)[0] == '-' && media::number_of(text::signed_decimal(a))
            != Some(a),
        a < 0 ==> media::number_of(text::signed_decimal(a)) is None,
{
    if a >= 0 {
        media_laws::law_written_numbers_are_read_back(a as nat);
    } else {
        let s = text::signed_decimal(a);
        assert(s[0] == '-');
        assert(media::digits_of(s) == s);
        assert(!local_preprocess::all_digits(s)) by {
            assert(!('0' <= s[0] <= '9'));
        }
    }
}

/// A text is found exactly where it stands between something before and something behind it.
pub proof fn law_texts_are_found_anywhere(before: Seq<char>, needle: Seq<char>, after: Seq<char>)
    ensures
        text::contains_text(before + needle + after, needle),
        needle.len() > before.len() ==> !text::contains_text(before, needle),
{
    let s = before + needle + after;
    assert(s.subrange(before.len() as int, (before.len() + needle.len()) as int) =~= needle);
    assert(text::stands_at(s, needle, before.len() as int));
}

/// In a replaced text every character stands in its place, but for the one that was replaced.
pub proof fn law_characters_are_replaced_in_place(s: Seq<char>, from: char, to: char, k: int)
    requires
        0 <= k < s.len(),
    ensures
        text::replaced(s, from, to).len() == s.len(),
        s[k] == from ==> text::replaced(s, from, to)[k] == to,
        s[k] != from ==> text::replaced(s, from, to)[k] == s[k],
{
}

proof fn lemma_name_is_last(
    host: Host,
    long: bool,
    dir: Seq<char>,
    name: Seq<char>,
    c: char,
    i: int,
    part: Seq<char>,
)
    requires
        paths::splits(host, long, c),
        name.len() > 0,
        name != "."@,
        forall|k: int| 0 <= k < name.len() ==> !paths::splits(host, long, #[trigger] name[k]),
        0 <= i <= dir.len(),
    ensures
        paths::parts_from(host, long, dir + seq![c] + name, i, part) == paths::parts_from(
            host,
            long,
            dir,
            i,
            part,
        ).push(name),
    decreases dir.len() - i,
{
    let path = dir + seq![c] + name;
    if i < dir.len() {
        assert(path[i] == dir[i]);
        if paths::splits(host, long, dir[i]) {
            lemma_name_is_last(host, long, dir, name, c, i + 1, Seq::empty());
            let rest = paths::parts_from(host, long, dir, i + 1, Seq::empty());
            assert(paths::kept_part(long, i, part) + rest.push(name) =~= (paths::kept_part(
                long,
                i,
                part,
            ) + rest).push(name));
        } else {
            lemma_name_is_last(host, long, dir, name, c, i + 1, part.push(dir[i]));
        }
    } else {
        assert(path[i] == c);
        assert(path.skip(i + 1) =~= name);
        lemma_name_is_read(host, long, path, name, i + 1, 0);
        assert(Seq::<char>::empty() =~= name.take(0));
        assert(paths::kept_part(long, i, part) + seq![name] =~= paths::kept_part(
            long,
            i,
            part,
        ).push(name));
    }
}

proof fn lemma_name_is_read(
    host: Host,
    long: bool,
    path: Seq<char>,
    name: Seq<char>,
    from: int,
    read: int,
)
    requires
        0 <= from <= path.len(),
        path.skip(from) == name,
        name.len() > 0,
        name != "."@,
        forall|k: int| 0 <= k < name.len() ==> !paths::splits(host, long, #[trigger] name[k]),
        0 <= read <= name.len(),
    ensures
        paths::parts_from(host, long, path, from + read, name.take(read)) == seq![name],
    decreases name.len() - read,
{
    if read < name.len() {
        assert(path[from + read] == name[read]);
        assert(name.take(read).push(name[read]) =~= name.take(read + 1));
        lemma_name_is_read(host, long, path, name, from, read + 1);
    } else {
        assert(name.take(read) =~= name);
    }
}

/// Files with different names in one folder are at different places, and a file is never at the place
/// of its folder.
pub proof fn law_names_tell_files_of_a_folder_apart(
    host: Host,
    dir: Seq<char>,
    one: Seq<char>,
    other: Seq<char>,
)
    requires
        dir.len() >= 6,
        one != other,
        one.len() > 0 && one != "."@,
        other.len() > 0 && other != "."@,
        forall|k: int|
            0 <= k < one.len() ==> !paths::separates(host, #[trigger] one[k]) && one[k] != '\\',
        forall|k: int|
            0 <= k < other.len() ==> !paths::separates(host, #[trigger] other[k]) && other[k]
                != '\\',
    ensures
        !paths::same_place(
            host,
            dir + seq![paths::separator(host)] + one,
            dir + seq![paths::separator(host)] + other,
        ),
        !paths::same_place(host, dir + seq![paths::separator(host)] + one, dir),
        paths::same_place(
            host,
            dir + seq![paths::separator(host)] + one,
            dir + seq![paths::separator(host)] + one,
        ),
{
    lemma_parts_of(host, dir, one);
    lemma_parts_of(host, dir, other);
    let start = paths::parts_of(host, dir);
    if start.push(one) == start.push(other) {
        assert(start.push(one).last() == start.push(other).last());
    }
    if start.push(one) == start {
        assert(start.push(one).len() == start.len());
    }
}

proof fn lemma_parts_of(host: Host, dir: Seq<char>, name: Seq<char>)
    requires
        dir.len() >= 6,
        name.len() > 0 && name != "."@,
        forall|k: int|
            0 <= k < name.len() ==> !paths::separates(host, #[trigger] name[k]) && name[k] != '\\',
    ensures
        paths::parts_of(host, dir + seq![paths::separator(host)] + name) == paths::parts_of(
            host,
            dir,
        ).push(name),
{
    let c = paths::separator(host);
    let path = dir + seq![c] + name;
    let long = paths::is_long_form(host, dir);
    assert(path[0] == dir[0] && path[1] == dir[1] && path[2] == dir[2] && path[3] == dir[3]);
    assert(path[4] == dir[4] && path[5] == dir[5]);
    assert(paths::is_long_form(host, path) == long);
    let large = paths::with_large_drive(host, dir);
    assert(paths::with_large_drive(host, path) =~= large + seq![c] + name);
    lemma_name_is_last(host, long, large, name, c, 0, Seq::empty());
}

/// The folder of the project is the first one above the program that is marked as such.
pub proof fn law_first_project_folder_is_taken(list: Seq<paths::Ancestor>, k: int)
    requires
        0 <= k < list.len(),
        list[k].is_project,
        forall|j: int| 0 <= j < k ==> !(#[trigger] list[j]).is_project,
    ensures
        paths::first_project(list) == Some(list[k].path@),
    decreases k,
{
    if k > 0 {
        let rest = list.drop_first();
        assert(rest[k - 1] == list[k]);
        assert forall|j: int| 0 <= j < k - 1 implies !(#[trigger] rest[j]).is_project by {
            assert(rest[j] == list[j + 1]);
        }
        law_first_project_folder_is_taken(rest, k - 1);
    }
}

/// Two files share their folder exactly where their paths agree up to the last separator, in any case
/// and with either slash.
pub proof fn law_files_of_one_folder_share_it(dir: Seq<char>, one: Seq<char>, other: Seq<char>)
    requires
        !one.contains('\\'),
        !other.contains('\\'),
        paths::path_form(dir + seq!['\\'] + one) == dir + seq!['\\'] + one,
        paths::path_form(dir + seq!['\\'] + other) == dir + seq!['\\'] + other,
    ensures
        paths::shares_parent(dir + seq!['\\'] + one, dir + seq!['\\'] + other),
        paths::parent_key(dir + seq!['\\'] + one) == Some(dir),
{
    lemma_parent(dir, one);
    lemma_parent(dir, other);
}

proof fn lemma_parent(dir: Seq<char>, name: Seq<char>)
    requires
        !name.contains('\\'),
        paths::path_form(dir + seq!['\\'] + name) == dir + seq!['\\'] + name,
    ensures
        paths::parent_key(dir + seq!['\\'] + name) == Some(dir),
{
    let path = dir + seq!['\\'] + name;
    law_last_position_is_the_last(path, '\\');
    let at = text::last_position(path, '\\');
    assert(path[dir.len() as int] == '\\');
    if at > dir.len() {
        assert(name[at - dir.len() - 1] == '\\');
    }
    assert(at == dir.len());
    assert(path.take(at) =~= dir);
}

/// A drive is any letter before a colon, in either case.
pub proof fn law_drives_are_letters_before_a_colon(path: Seq<char>)
    requires
        path.len() >= 2,
    ensures
        paths::is_drive_at(path, 0) <==> path[1] == ':' && ('A' <= path[0] <= 'Z' || 'a' <= path[0]
            <= 'z'),
{
}

} // verus!
