//! What holds of titles, of the choice of a name, and of the tasks that merge groups.
use crate::double::Double;
use crate::models::{MatchGroup, MatchItem, VideoRecord};
use crate::naming;
use crate::naming::MergeTask;
use crate::text;
use crate::titles;
use vstd::prelude::*;

verus! {

/// Whether a character is a Chinese one.
pub open spec fn chinese(c: char) -> bool {
    0x4e00 <= c as int <= 0x9fff
}

proof fn lemma_chinese_of_parts(s: Seq<char>, t: Seq<char>)
    ensures
        titles::cjk_chars(s + t) == titles::cjk_chars(s) + titles::cjk_chars(t),
    decreases t.len(),
{
    if t.len() == 0 {
        assert(s + t =~= s);
        assert(titles::cjk_chars(s) + titles::cjk_chars(t) =~= titles::cjk_chars(s));
    } else {
        lemma_chinese_of_parts(s, t.drop_last());
        assert((s + t).drop_last() =~= s + t.drop_last());
        assert((s + t).last() == t.last());
        assert(titles::cjk_chars(s + t) =~= titles::cjk_chars(s) + titles::cjk_chars(t));
    }
}

proof fn lemma_all_chinese(s: Seq<char>)
    requires
        forall|i: int| 0 <= i < s.len() ==> chinese(#[trigger] s[i]),
    ensures
        titles::cjk_chars(s) == s,
    decreases s.len(),
{
    if s.len() > 0 {
        assert(chinese(s[s.len() - 1]));
        assert forall|i: int| 0 <= i < s.len() - 1 implies chinese(#[trigger] s.drop_last()[i]) by {
            assert(s.drop_last()[i] == s[i]);
        }
        lemma_all_chinese(s.drop_last());
        assert(s.drop_last().push(s.last()) =~= s);
    } else {
        assert(titles::cjk_chars(s) =~= s);
    }
}

/// What is not Chinese makes no difference to the pairs of a title.
pub proof fn law_other_characters_make_no_pairs(before: Seq<char>, c: char, after: Seq<char>)
    requires
        !chinese(c),
    ensures
        titles::bigrams(before + seq![c] + after) == titles::bigrams(before + after),
{
    lemma_chinese_of_parts(before, seq![c]);
    lemma_chinese_of_parts(before + seq![c], after);
    lemma_chinese_of_parts(before, after);
    assert(seq![c].drop_last() =~= Seq::empty());
    assert(titles::cjk_chars(seq![c]) =~= titles::cjk_chars(Seq::empty()));
    assert(titles::cjk_chars(Seq::empty()) =~= Seq::empty());
    assert(titles::cjk_chars(before) + Seq::<char>::empty() =~= titles::cjk_chars(before));
}

/// The pairs of a Chinese title are its neighbours, but for the three that say nothing.
pub proof fn law_pairs_of_a_chinese_title(title: Seq<char>, i: int)
    requires
        forall|k: int| 0 <= k < title.len() ==> chinese(#[trigger] title[k]),
        0 <= i < title.len() - 1,
    ensures
        titles::bigrams(title).contains((title[i], title[i + 1])) <==> !((title[i] == '视' && title[i
            + 1] == '频') || (title[i] == '合' && title[i + 1] == '集') || (title[i] == '示' && title[i
            + 1] == '例')),
{
    lemma_all_chinese(title);
    titles::law_bigrams_are_neighbours(title, (title[i], title[i + 1]));
    assert(titles::cjk_chars(title)[i] == title[i]);
}

/// A title is the name of a file without its extension, and without white space around it.
pub proof fn law_titles_leave_the_extension_out(name: Seq<char>, extension: Seq<char>)
    requires
        !extension.contains('.'),
    ensures
        titles::stem(name + seq!['.'] + extension) == text::trimmed(name),
        titles::stem(extension) == text::trimmed(extension),
        naming::name_parts(name + seq!['.'] + extension) == (name, extension),
        naming::name_parts(extension).0 == extension,
        naming::name_parts(extension).1.len() == 0,
{
    let whole = name + seq!['.'] + extension;
    lemma_last_dot(name + seq!['.'], extension);
    lemma_no_dot(extension);
    assert((name + seq!['.']).last() == '.');
    assert(text::last_position(name + seq!['.'], '.') == name.len());
    assert(whole.take(name.len() as int) =~= name);
    assert(whole.skip((name.len() + 1) as int) =~= extension);
}

proof fn lemma_no_dot(s: Seq<char>)
    requires
        !s.contains('.'),
    ensures
        text::last_position(s, '.') == -1,
    decreases s.len(),
{
    if s.len() > 0 {
        assert(s[s.len() - 1] != '.') by {
            if s[s.len() - 1] == '.' {
                assert(s.contains('.'));
            }
        }
        assert(!s.drop_last().contains('.')) by {
            if s.drop_last().contains('.') {
                let k = choose|k: int| 0 <= k < s.len() - 1 && s.drop_last()[k] == '.';
                assert(s[k] == '.');
            }
        }
        lemma_no_dot(s.drop_last());
    }
}

proof fn lemma_last_dot(head: Seq<char>, tail: Seq<char>)
    requires
        !tail.contains('.'),
    ensures
        text::last_position(head + tail, '.') == text::last_position(head, '.'),
    decreases tail.len(),
{
    if tail.len() == 0 {
        assert(head + tail =~= head);
    } else {
        assert(tail[tail.len() - 1] != '.') by {
            if tail[tail.len() - 1] == '.' {
                assert(tail.contains('.'));
            }
        }
        assert(!tail.drop_last().contains('.')) by {
            if tail.drop_last().contains('.') {
                let k = choose|k: int| 0 <= k < tail.len() - 1 && tail.drop_last()[k] == '.';
                assert(tail[k] == '.');
            }
        }
        lemma_last_dot(head, tail.drop_last());
        assert((head + tail).drop_last() =~= head + tail.drop_last());
    }
}

/// Trimming takes away white space at both ends and nothing else.
pub proof fn law_trimming_takes_white_space_away(before: Seq<char>, s: Seq<char>, after: Seq<char>)
    requires
        forall|i: int| 0 <= i < before.len() ==> text::is_white_space(#[trigger] before[i]),
        forall|i: int| 0 <= i < after.len() ==> text::is_white_space(#[trigger] after[i]),
        s.len() > 0,
        !text::is_white_space(s[0]),
        !text::is_white_space(s.last()),
    ensures
        text::trimmed(before + s + after) == s,
    decreases before.len() + after.len(),
{
    let whole = before + s + after;
    if before.len() > 0 {
        assert(text::is_white_space(before[0]));
        assert(whole[0] == before[0]);
        let rest = before.drop_first();
        assert forall|i: int| 0 <= i < rest.len() implies text::is_white_space(
            #[trigger] rest[i],
        ) by {
            assert(rest[i] == before[i + 1]);
        }
        assert(whole.drop_first() =~= rest + s + after);
        law_trimming_takes_white_space_away(rest, s, after);
    } else {
        assert(whole =~= s + after);
        assert(whole[0] == s[0]);
        lemma_trim_end(s, after);
    }
}

proof fn lemma_trim_end(s: Seq<char>, after: Seq<char>)
    requires
        forall|i: int| 0 <= i < after.len() ==> text::is_white_space(#[trigger] after[i]),
        s.len() > 0,
        !text::is_white_space(s.last()),
    ensures
        text::trimmed_end(s + after) == s,
    decreases after.len(),
{
    if after.len() > 0 {
        let rest = after.drop_last();
        assert(text::is_white_space(after[after.len() - 1]));
        assert((s + after).last() == after.last());
        assert((s + after).drop_last() =~= s + rest);
        assert forall|i: int| 0 <= i < rest.len() implies text::is_white_space(
            #[trigger] rest[i],
        ) by {
            assert(rest[i] == after[i]);
        }
        lemma_trim_end(s, rest);
    } else {
        assert(s + after =~= s);
    }
}

/// Whether a video lies in a folder, by its path or by that of its own folder.
pub open spec fn is_in_folder(video: VideoRecord, dir: Seq<char>) -> bool {
    naming::lies_in(video.path@, dir) || naming::lies_in(video.parent_path@, dir)
}

proof fn lemma_first_folder(video: VideoRecord, dirs: Seq<Seq<char>>, i: int, d: int)
    requires
        0 <= i <= d < dirs.len(),
        is_in_folder(video, dirs[d]),
    ensures
        i <= naming::folder_rank(video, dirs, i) <= d,
        is_in_folder(video, dirs[naming::folder_rank(video, dirs, i)]),
    decreases dirs.len() - i,
{
    if !is_in_folder(video, dirs[i]) {
        lemma_first_folder(video, dirs, i + 1, d);
    }
}

proof fn lemma_folder_of_rank(video: VideoRecord, dirs: Seq<Seq<char>>, i: int)
    requires
        0 <= i <= dirs.len() <= usize::MAX,
    ensures
        naming::folder_rank(video, dirs, i) < dirs.len() ==> i <= naming::folder_rank(
            video,
            dirs,
            i,
        ) && is_in_folder(video, dirs[naming::folder_rank(video, dirs, i)]),
    decreases dirs.len() - i,
{
    if i < dirs.len() && !is_in_folder(video, dirs[i]) {
        lemma_folder_of_rank(video, dirs, i + 1);
    }
}

/// Among videos whose names and copies rank alike, one in a folder that is configured for names goes
/// before one in none or only in a later one: the video that gives the name lies in that folder or
/// in an earlier one.
pub proof fn law_configured_folders_give_the_name(
    items: Seq<MatchItem>,
    i: int,
    k: int,
    d: int,
    dirs: Seq<Seq<char>>,
    sources: Seq<Seq<char>>,
)
    requires
        naming::gives_name(items, i, dirs, sources),
        0 <= k < items.len(),
        naming::prefix_rank(items[k].video.file_name@) == naming::prefix_rank(
            items[i].video.file_name@,
        ),
        naming::copy_rank(items, k, sources) == naming::copy_rank(items, i, sources),
        dirs.len() <= usize::MAX,
        0 <= d < dirs.len(),
        is_in_folder(items[k].video, dirs[d]),
    ensures
        exists|e: int| 0 <= e <= d && is_in_folder(items[i].video, #[trigger] dirs[e]),
{
    lemma_first_folder(items[k].video, dirs, 0, d);
    lemma_folder_of_rank(items[i].video, dirs, 0);
    assert(items[k] == items[k]);
    let e = naming::folder_rank(items[i].video, dirs, 0);
    assert(is_in_folder(items[i].video, dirs[e]));
}

/// The kind of a name: 0 for a number before a bracketed Chinese title, 1 for a number before a
/// Chinese title, 2 for any other. The video that gives the name has the lowest of its group.
pub proof fn law_numbered_chinese_titles_give_the_name(
    items: Seq<MatchItem>,
    i: int,
    k: int,
    dirs: Seq<Seq<char>>,
    sources: Seq<Seq<char>>,
)
    requires
        naming::gives_name(items, i, dirs, sources),
        0 <= k < items.len(),
    ensures
        naming::prefix_rank(items[i].video.file_name@) <= naming::prefix_rank(
            items[k].video.file_name@,
        ),
{
    assert(items[k] == items[k]);
}

/// Whether a row of characters is a number.
pub open spec fn digits_only(s: Seq<char>) -> bool {
    s.len() > 0 && forall|i: int| 0 <= i < s.len() ==> '0' <= #[trigger] s[i] <= '9'
}

proof fn lemma_leading_digits(number: Seq<char>, rest: Seq<char>)
    requires
        number.len() == 0 || digits_only(number),
        rest.len() == 0 || !('0' <= rest[0] <= '9'),
    ensures
        naming::leading_digits(number + rest) == number.len(),
    decreases number.len(),
{
    if number.len() == 0 {
        assert(number + rest =~= rest);
    } else {
        let tail = number.drop_first();
        assert('0' <= number[0] <= '9');
        assert((number + rest)[0] == number[0]);
        assert((number + rest).drop_first() =~= tail + rest);
        assert forall|i: int| 0 <= i < tail.len() implies '0' <= #[trigger] tail[i] <= '9' by {
            assert(tail[i] == number[i + 1]);
        }
        lemma_leading_digits(tail, rest);
    }
}

proof fn lemma_before_first(inner: Seq<char>, c: char, rest: Seq<char>)
    requires
        !inner.contains(c),
    ensures
        naming::before_first(inner + seq![c] + rest, c) == inner,
    decreases inner.len(),
{
    let whole = inner + seq![c] + rest;
    if inner.len() == 0 {
        assert(whole[0] == c);
        assert(naming::before_first(whole, c) =~= inner);
    } else {
        assert(inner[0] != c) by {
            if inner[0] == c {
                assert(inner.contains(c));
            }
        }
        let tail = inner.drop_first();
        assert(!tail.contains(c)) by {
            if tail.contains(c) {
                let k = choose|k: int| 0 <= k < tail.len() && tail[k] == c;
                assert(inner[k + 1] == c);
            }
        }
        assert(whole.drop_first() =~= tail + seq![c] + rest);
        lemma_before_first(tail, c, rest);
        assert(seq![inner[0]] + tail =~= inner);
    }
}

/// A name of a number and a bracketed title with a Chinese character is of the first kind, one of a
/// number and a Chinese character is of the second kind, and one that starts with no number is of
/// the last kind; the extension plays no part.
pub proof fn law_kinds_of_names(
    number: Seq<char>,
    inner: Seq<char>,
    c: char,
    rest: Seq<char>,
    extension: Seq<char>,
)
    requires
        digits_only(number),
        !inner.contains('\u{3011}'),
        exists|k: int| 0 <= k < inner.len() && chinese(#[trigger] inner[k]),
        !('0' <= c <= '9'),
        !text::is_white_space(c),
        !extension.contains('.'),
    ensures
        naming::prefix_rank(
            number + seq!['\u{3010}'] + inner + seq!['\u{3011}'] + rest + seq!['.'] + extension,
        ) == 0,
        chinese(c) ==> naming::prefix_rank(number + seq![c] + rest + seq!['.'] + extension) == 1,
        !chinese(c) && c != '\u{3010}' ==> naming::prefix_rank(
            number + seq![c] + rest + seq!['.'] + extension,
        ) == 2,
        naming::prefix_rank(seq![c] + rest + seq!['.'] + extension) == 2,
{
    let bracketed = number + seq!['\u{3010}'] + inner + seq!['\u{3011}'] + rest;
    law_titles_leave_the_extension_out(bracketed, extension);
    assert('0' <= number[0] <= '9');
    assert(bracketed[0] == number[0]);
    assert(text::trimmed_start(bracketed) == bracketed);
    let tail = seq!['\u{3010}'] + inner + seq!['\u{3011}'] + rest;
    assert(bracketed =~= number + tail);
    lemma_leading_digits(number, tail);
    assert(bracketed.skip(number.len() as int) =~= tail);
    assert(tail[0] == '\u{3010}');
    assert(text::trimmed_start(tail) == tail);
    assert(tail.drop_first() =~= inner + seq!['\u{3011}'] + rest);
    lemma_before_first(inner, '\u{3011}', rest);
    let k = choose|k: int| 0 <= k < inner.len() && chinese(#[trigger] inner[k]);
    assert(naming::is_chinese(inner[k]));
    let plain = number + seq![c] + rest;
    law_titles_leave_the_extension_out(plain, extension);
    assert(plain[0] == number[0]);
    assert(text::trimmed_start(plain) == plain);
    let other = seq![c] + rest;
    assert(plain =~= number + other);
    lemma_leading_digits(number, other);
    assert(plain.skip(number.len() as int) =~= other);
    assert(other[0] == c);
    assert(text::trimmed_start(other) == other);
    law_titles_leave_the_extension_out(other, extension);
    assert(naming::leading_digits(other) == 0);
}

/// A copy whose original is in the group gives the name only where every video with a name of its
/// kind is such a copy.
pub proof fn law_originals_give_the_name(
    items: Seq<MatchItem>,
    i: int,
    k: int,
    dirs: Seq<Seq<char>>,
    sources: Seq<Seq<char>>,
)
    requires
        naming::gives_name(items, i, dirs, sources),
        0 <= k < items.len(),
        naming::prefix_rank(items[k].video.file_name@) == naming::prefix_rank(
            items[i].video.file_name@,
        ),
    ensures
        naming::has_origin(items, i, sources) ==> naming::has_origin(items, k, sources),
        naming::has_copy(items, k, sources) && !naming::has_origin(items, k, sources)
            ==> naming::has_copy(items, i, sources) && !naming::has_origin(items, i, sources),
{
    assert(items[k] == items[k]);
}

proof fn lemma_last_open(head: Seq<char>, open: char, number: Seq<char>)
    requires
        digits_only(number) || number.len() == 0,
        open == '(' || open == '\u{ff08}',
    ensures
        naming::last_open(head + seq![open] + number) == head.len(),
    decreases number.len(),
{
    let whole = head + seq![open] + number;
    if number.len() == 0 {
        assert(whole.last() == open);
    } else {
        let rest = number.drop_last();
        assert('0' <= number[number.len() - 1] <= '9');
        assert(whole.last() == number.last());
        assert(whole.drop_last() =~= head + seq![open] + rest);
        assert forall|i: int| 0 <= i < rest.len() implies '0' <= #[trigger] rest[i] <= '9' by {
            assert(rest[i] == number[i]);
        }
        lemma_last_open(head, open, rest);
    }
}

/// A file whose name ends with a number in round brackets, plain or full ones, is a copy of the file
/// with the name before them; one whose name does not end with a closing bracket is none.
pub proof fn law_numbers_in_brackets_mark_copies(
    base: Seq<char>,
    open: char,
    number: Seq<char>,
    close: char,
    extension: Seq<char>,
)
    requires
        digits_only(number),
        number != "0"@,
        base.len() > 0,
        !text::is_white_space(base.last()),
        !extension.contains('.'),
        open == '(' || open == '\u{ff08}',
        close == ')' || close == '\u{ff09}',
    ensures
        naming::copied_name(base + seq![open] + number + seq![close, '.'] + extension) == Some(
            text::lowercase(base),
        ),
        naming::copied_name(base + seq![' ', open] + number + seq![close, '.'] + extension) == Some(
            text::lowercase(base),
        ),
        base.last() != ')' && base.last() != '\u{ff09}' ==> naming::copied_name(
            base + seq!['.'] + extension,
        ) is None,
{
    lemma_copy(base, base, open, number, close, extension);
    let spaced = base.push(' ');
    assert(spaced.drop_last() =~= base);
    assert(text::trimmed_end(spaced) == text::trimmed_end(base));
    lemma_copy(spaced, base, open, number, close, extension);
    assert(spaced + seq![open] + number + seq![close, '.'] + extension =~= base + seq![' ', open]
        + number + seq![close, '.'] + extension);
    law_titles_leave_the_extension_out(base, extension);
    assert(text::trimmed_end(base) == base);
}

proof fn lemma_copy(
    head: Seq<char>,
    base: Seq<char>,
    open: char,
    number: Seq<char>,
    close: char,
    extension: Seq<char>,
)
    requires
        digits_only(number),
        number != "0"@,
        base.len() > 0,
        text::trimmed_end(head) == base,
        !extension.contains('.'),
        open == '(' || open == '\u{ff08}',
        close == ')' || close == '\u{ff09}',
    ensures
        naming::copied_name(head + seq![open] + number + seq![close, '.'] + extension) == Some(
            text::lowercase(base),
        ),
{
    let own = head + seq![open] + number + seq![close];
    let name = head + seq![open] + number + seq![close, '.'] + extension;
    assert(name =~= own + seq!['.'] + extension);
    law_titles_leave_the_extension_out(own, extension);
    assert(own.last() == close);
    assert(text::trimmed_end(own) == own);
    let inner = own.drop_last();
    assert(inner =~= head + seq![open] + number);
    lemma_last_open(head, open, number);
    assert(inner.skip((head.len() + 1) as int) =~= number);
    assert(inner.take(head.len() as int) =~= head);
    assert forall|k: int| 0 <= k < number.len() implies naming::is_digit(#[trigger] number[k]) by {
        assert('0' <= number[k] <= '9');
    }
}

/// Among videos that rank alike by the kind of their names, by copies and by folders, the most
/// readable name is given, then that of the best video, then the first.
pub proof fn law_readable_names_are_given(
    items: Seq<MatchItem>,
    i: int,
    k: int,
    dirs: Seq<Seq<char>>,
    sources: Seq<Seq<char>>,
)
    requires
        naming::gives_name(items, i, dirs, sources),
        0 <= k < items.len(),
        naming::prefix_rank(items[k].video.file_name@) == naming::prefix_rank(
            items[i].video.file_name@,
        ),
        naming::copy_rank(items, k, sources) == naming::copy_rank(items, i, sources),
        naming::folder_rank(items[k].video, dirs, 0) == naming::folder_rank(
            items[i].video,
            dirs,
            0,
        ),
    ensures
        naming::readable_score(items[k].video.file_name@) <= naming::readable_score(
            items[i].video.file_name@,
        ),
        naming::readable_score(items[k].video.file_name@) == naming::readable_score(
            items[i].video.file_name@,
        ) ==> !items[i].video.quality_score.lt(items[k].video.quality_score),
        naming::readable_score(items[k].video.file_name@) == naming::readable_score(
            items[i].video.file_name@,
        ) && items[i].video.quality_score == items[k].video.quality_score ==> i <= k,
{
    assert(items[k] == items[k]);
}

/// Of two names of the same length, with a number in both or in none and something else as well, the
/// Chinese one is more readable.
pub proof fn law_chinese_names_are_more_readable(
    one: Seq<char>,
    other: Seq<char>,
    extension: Seq<char>,
    k: int,
)
    requires
        one.len() == other.len(),
        !extension.contains('.'),
        0 <= k < one.len(),
        chinese(one[k]),
        forall|i: int| 0 <= i < other.len() ==> !chinese(#[trigger] other[i]),
        (exists|i: int| 0 <= i < one.len() && '0' <= #[trigger] one[i] <= '9') == (exists|i: int|
            0 <= i < other.len() && '0' <= #[trigger] other[i] <= '9'),
    ensures
        naming::readable_score(other + seq!['.'] + extension) < naming::readable_score(
            one + seq!['.'] + extension,
        ),
{
    law_titles_leave_the_extension_out(one, extension);
    law_titles_leave_the_extension_out(other, extension);
    assert(naming::is_chinese(one[k]));
    assert(!naming::is_digit(one[k]));
    assert(!naming::has_chinese(other));
    if naming::has_digit(one) {
        let i = choose|i: int| 0 <= i < one.len() && naming::is_digit(#[trigger] one[i]);
        assert('0' <= one[i] <= '9');
        let j = choose|j: int| 0 <= j < other.len() && '0' <= #[trigger] other[j] <= '9';
        assert(naming::is_digit(other[j]));
    } else {
        if naming::has_digit(other) {
            let j = choose|j: int| 0 <= j < other.len() && naming::is_digit(#[trigger] other[j]);
            assert('0' <= other[j] <= '9');
            let i = choose|i: int| 0 <= i < one.len() && '0' <= #[trigger] one[i] <= '9';
            assert(naming::is_digit(one[i]));
        }
    }
}

/// A bare number is less readable than any name of at least its length with something else in it.
pub proof fn law_bare_numbers_are_hard_to_read(
    number: Seq<char>,
    name: Seq<char>,
    extension: Seq<char>,
    k: int,
)
    requires
        digits_only(number),
        number.len() <= name.len(),
        !extension.contains('.'),
        0 <= k < name.len(),
        !('0' <= name[k] <= '9'),
    ensures
        naming::readable_score(number + seq!['.'] + extension) < naming::readable_score(
            name + seq!['.'] + extension,
        ),
{
    law_titles_leave_the_extension_out(number, extension);
    law_titles_leave_the_extension_out(name, extension);
    assert forall|i: int| 0 <= i < number.len() implies naming::is_digit(#[trigger] number[i])
        && !naming::is_chinese(number[i]) by {
        assert('0' <= number[i] <= '9');
    }
    assert(naming::is_digit(number[0]));
    assert(naming::is_number(number));
    assert(!naming::is_digit(name[k]));
    assert(!naming::is_number(name));
    assert(!naming::has_chinese(number));
}

/// A file beside a folder, or in one whose name only starts alike, does not lie in the folder.
pub proof fn law_neighbours_lie_outside(path: Seq<char>, dir: Seq<char>)
    requires
        naming::lies_in(path, dir),
    ensures
        ({
            let own = naming::compared_path(path);
            let folder = naming::compared_path(dir);
            &&& own.len() >= folder.len() > 0
            &&& own.take(folder.len() as int) == folder
            &&& own.len() > folder.len() ==> own[folder.len() as int] == '\\'
        }),
{
    let own = naming::compared_path(path);
    let folder = naming::compared_path(dir);
    if own == folder {
        assert(own.take(folder.len() as int) =~= folder);
    } else {
        let longer = folder.push('\\');
        assert(own.take(folder.len() as int) =~= folder) by {
            assert(longer =~= own.subrange(0, longer.len() as int));
        }
        assert(own[folder.len() as int] == longer[folder.len() as int]);
    }
}

/// Paths are compared without regard to the kind of slash and to the case of Latin letters.
pub proof fn law_paths_are_compared_loosely(path: Seq<char>, other: Seq<char>)
    requires
        text::trimmed(path).len() == text::trimmed(other).len(),
        forall|i: int|
            #![trigger text::trimmed(path)[i]]
            0 <= i < text::trimmed(path).len() ==> {
                let a = text::trimmed(path)[i];
                let b = text::trimmed(other)[i];
                a == b || (a == '/' && b == '\\') || ('A' <= a <= 'Z' && b as int == a as int + 32)
            },
    ensures
        naming::compared_path(path) == naming::compared_path(other),
{
    let one = text::replaced(text::trimmed(path), '/', '\\');
    let two = text::replaced(text::trimmed(other), '/', '\\');
    assert forall|i: int| 0 <= i < one.len() implies text::ascii_lower(#[trigger] one[i])
        == text::ascii_lower(two[i]) && (one[i] == '\\' <==> two[i] == '\\') by {
        let a = text::trimmed(path)[i];
    }
    lemma_trailing_alike(one, two);
    let left = text::without_trailing(one, '\\');
    let right = text::without_trailing(two, '\\');
    assert(text::ascii_lowered(left) =~= text::ascii_lowered(right));
}

proof fn lemma_trailing_alike(one: Seq<char>, two: Seq<char>)
    requires
        one.len() == two.len(),
        forall|i: int|
            0 <= i < one.len() ==> text::ascii_lower(#[trigger] one[i]) == text::ascii_lower(two[i])
                && (one[i] == '\\' <==> two[i] == '\\'),
    ensures
        text::without_trailing(one, '\\').len() == text::without_trailing(two, '\\').len(),
        forall|i: int|
            #![trigger text::without_trailing(one, '\\')[i]]
            0 <= i < text::without_trailing(one, '\\').len() ==> text::ascii_lower(
                text::without_trailing(one, '\\')[i],
            ) == text::ascii_lower(text::without_trailing(two, '\\')[i]),
    decreases one.len(),
{
    if one.len() > 0 {
        let i = one.len() - 1;
        assert(text::ascii_lower(one[i]) == text::ascii_lower(two[i]));
        if one.last() == '\\' {
            let a = one.drop_last();
            let b = two.drop_last();
            assert forall|i: int| 0 <= i < a.len() implies text::ascii_lower(#[trigger] a[i])
                == text::ascii_lower(b[i]) && (a[i] == '\\' <==> b[i] == '\\') by {
                assert(a[i] == one[i] && b[i] == two[i]);
            }
            lemma_trailing_alike(a, b);
        }
    }
}

/// Whether an id is that of a video of a group.
pub open spec fn is_in_group(group: MatchGroup, id: i64) -> bool {
    exists|k: int| 0 <= k < group.items@.len() && (#[trigger] group.items@[k]).video.id == Some(id)
}

proof fn lemma_group_ids(items: Seq<MatchItem>, n: int, id: i64)
    requires
        0 <= n <= items.len(),
    ensures
        naming::group_ids(items, n).contains(id) <==> exists|k: int|
            0 <= k < n && (#[trigger] items[k]).video.id == Some(id),
    decreases n,
{
    if n > 0 {
        lemma_group_ids(items, n - 1, id);
        let rest = naming::group_ids(items, n - 1);
        let all = naming::group_ids(items, n);
        if rest.contains(id) {
            let at = choose|at: int| 0 <= at < rest.len() && rest[at] == id;
            assert(all[at] == id);
        }
        if items[n - 1].video.id == Some(id) {
            assert(all[rest.len() as int] == id);
        }
        if all.contains(id) && !rest.contains(id) {
            let at = choose|at: int| 0 <= at < all.len() && all[at] == id;
            if at < rest.len() {
                assert(rest[at] == id);
            }
        }
    }
}

proof fn lemma_ids_but(ids: Seq<i64>, one: i64, other: i64, id: i64)
    ensures
        naming::ids_but(ids, one, other).contains(id) <==> ids.contains(id) && id != one && id
            != other,
    decreases ids.len(),
{
    if ids.len() > 0 {
        let rest = ids.drop_last();
        lemma_ids_but(rest, one, other, id);
        let kept = naming::ids_but(rest, one, other);
        let all = naming::ids_but(ids, one, other);
        if ids.contains(id) {
            let at = choose|at: int| 0 <= at < ids.len() && ids[at] == id;
            if at < rest.len() {
                assert(rest[at] == id);
            }
        }
        if rest.contains(id) {
            let at = choose|at: int| 0 <= at < rest.len() && rest[at] == id;
            assert(ids[at] == id);
        }
        assert(ids[ids.len() - 1] == ids.last());
        if kept.contains(id) {
            let at = choose|at: int| 0 <= at < kept.len() && kept[at] == id;
            assert(all[at] == id);
        }
        if all.contains(id) {
            let at = choose|at: int| 0 <= at < all.len() && all[at] == id;
            if at < kept.len() {
                assert(kept[at] == id);
            }
        }
        if ids.last() == id && id != one && id != other {
            assert(all[kept.len() as int] == id);
        }
    }
}

/// The task of a group keeps the recommended video and takes the name of the one that gives it; all
/// others of the group go, and nothing else does.
pub proof fn law_tasks_keep_the_recommended_video(
    task: MergeTask,
    group: MatchGroup,
    dirs: Seq<Seq<char>>,
    sources: Seq<Seq<char>>,
    id: i64,
)
    requires
        naming::is_task_of(task, group, dirs, sources),
    ensures
        match task {
            MergeTask::Merge { keeper_id, source_id, extra_ids, .. } => {
                &&& group.recommended_video_id is Some ==> keeper_id
                    == group.recommended_video_id->0
                &&& keeper_id != source_id
                &&& exists|i: int| #[trigger]
                    naming::gives_name(group.items@, i, dirs, sources) && group.items@[i].video.id == Some(
                        source_id,
                    )
                &&& extra_ids@.contains(id) <==> is_in_group(group, id) && id != keeper_id && id
                    != source_id
            },
            MergeTask::File { ids, .. } => {
                &&& group.recommended_video_id is Some ==> (ids@.contains(id) <==> is_in_group(
                    group,
                    id,
                ) && id != group.recommended_video_id->0)
                &&& group.recommended_video_id is Some ==> exists|i: int| #[trigger]
                    naming::gives_name(group.items@, i, dirs, sources) && group.items@[i].video.id
                        == group.recommended_video_id
            },
        },
{
    let i = choose|i: int| #[trigger]
        naming::gives_name(group.items@, i, dirs, sources) && naming::is_mergeable(group, i)
            && naming::merges(task, group, naming::keeper_of(group)->0, i);
    let items = group.items@;
    let ids = naming::group_ids(items, items.len() as int);
    let keeper = naming::keeper_of(group)->0;
    let source = items[i].video.id->0;
    lemma_group_ids(items, items.len() as int, id);
    lemma_ids_but(ids, keeper, source, id);
    lemma_ids_but(ids, keeper, keeper, id);
    assert(naming::gives_name(group.items@, i, dirs, sources) && group.items@[i].video.id == Some(source));
}

/// Where a group has a task, it has a recommended video or a first one, which is not the only one.
pub proof fn law_groups_with_others_have_tasks(
    group: MatchGroup,
    i: int,
    dirs: Seq<Seq<char>>,
    sources: Seq<Seq<char>>,
    id: i64,
)
    requires
        naming::gives_name(group.items@, i, dirs, sources),
        group.items@[i].video.id is Some,
        group.recommended_video_id is Some,
        is_in_group(group, id),
        id != group.recommended_video_id->0,
    ensures
        naming::has_task(group, dirs, sources),
{
    let items = group.items@;
    let ids = naming::group_ids(items, items.len() as int);
    let keeper = naming::keeper_of(group)->0;
    lemma_group_ids(items, items.len() as int, id);
    lemma_ids_but(ids, keeper, keeper, id);
    assert(naming::is_mergeable(group, i));
}

/// The groups that are listed up to a confidence are those that are at most as sure, and no others.
pub proof fn law_listed_groups_are_at_most_as_sure(
    groups: Seq<MatchGroup>,
    limit: Double,
    group: MatchGroup,
)
    ensures
        naming::groups_below(groups, limit).contains(group) <==> groups.contains(group)
            && group.confidence.le(limit),
    decreases groups.len(),
{
    if groups.len() > 0 {
        let rest = groups.drop_last();
        law_listed_groups_are_at_most_as_sure(rest, limit, group);
        let kept = naming::groups_below(rest, limit);
        let all = naming::groups_below(groups, limit);
        assert(groups[groups.len() - 1] == groups.last());
        if groups.contains(group) {
            let at = choose|at: int| 0 <= at < groups.len() && groups[at] == group;
            if at < rest.len() {
                assert(rest[at] == group);
            }
        }
        if rest.contains(group) {
            let at = choose|at: int| 0 <= at < rest.len() && rest[at] == group;
            assert(groups[at] == group);
        }
        if kept.contains(group) {
            let at = choose|at: int| 0 <= at < kept.len() && kept[at] == group;
            assert(all[at] == group);
        }
        if all.contains(group) {
            let at = choose|at: int| 0 <= at < all.len() && all[at] == group;
            if at < kept.len() {
                assert(kept[at] == group);
            }
        }
        if groups.last() == group && group.confidence.le(limit) {
            assert(all[kept.len() as int] == group);
        }
    }
}

/// A range of confidence runs upwards and lies between nothing and one, whichever bound is given
/// first; bounds within are kept.
pub proof fn law_confidence_ranges_run_upwards(a: Double, b: Double)
    requires
        !a.nan(),
        !b.nan(),
    ensures
        naming::range_of(a, b).0.le(naming::range_of(a, b).1),
        Double::of(0).le(naming::range_of(a, b).0),
        naming::range_of(a, b).1.le(Double::of(0x3FF0_0000_0000_0000)),
        Double::of(0).le(a) && a.le(b) && b.le(Double::of(0x3FF0_0000_0000_0000))
            ==> naming::range_of(a, b) == (a, b),
        Double::of(0).le(a) && a.lt(b) && b.le(Double::of(0x3FF0_0000_0000_0000))
            ==> naming::range_of(b, a) == (a, b),
{
}

/// The videos that a task removes are those of the list but for two.
pub proof fn law_two_ids_are_left_out(ids: Seq<i64>, one: i64, other: i64, x: i64)
    ensures
        naming::ids_but(ids, one, other).contains(x) <==> ids.contains(x) && x != one && x != other,
    decreases ids.len(),
{
    if ids.len() > 0 {
        let head = ids.drop_last();
        law_two_ids_are_left_out(head, one, other, x);
        let rest = naming::ids_but(head, one, other);
        let all = naming::ids_but(ids, one, other);
        if rest.contains(x) {
            let at = choose|at: int| 0 <= at < rest.len() && rest[at] == x;
            assert(all[at] == x);
        }
        if head.contains(x) {
            let at = choose|at: int| 0 <= at < head.len() && head[at] == x;
            assert(ids[at] == x);
        }
        if ids.contains(x) && !head.contains(x) {
            let at = choose|at: int| 0 <= at < ids.len() && ids[at] == x;
            if at < head.len() {
                assert(head[at] == x);
            }
            if x != one && x != other {
                assert(all[rest.len() as int] == x);
            }
        }
        if all.contains(x) && !rest.contains(x) {
            let at = choose|at: int| 0 <= at < all.len() && all[at] == x;
            if at < rest.len() {
                assert(rest[at] == x);
            }
            assert(ids[ids.len() - 1] == x);
        }
    }
}

/// The recommended video of a group is kept, else its first one that has an id.
pub proof fn law_recommended_or_first_video_is_kept(group: MatchGroup)
    ensures
        group.recommended_video_id is Some ==> naming::keeper_of(group)
            == group.recommended_video_id,
        group.recommended_video_id is None && group.items@.len() == 1 && group.items@[0].video.id
            is Some ==> naming::keeper_of(group) == group.items@[0].video.id,
        group.recommended_video_id is None && group.items@.len() == 0 ==> naming::keeper_of(group)
            is None,
{
    reveal_with_fuel(naming::group_ids, 3);
}

} // verus!
