//! Text operations over the characters of a string.
use vstd::prelude::*;
use vstd::string::*;

verus! {

/// `String::push` appends one character at the end.
pub assume_specification[ String::push ](s: &mut String, c: char)
    ensures
        final(s)@ == old(s)@.push(c),
;

/// The lowercase form of a text, as `str::to_lowercase` gives it.
pub uninterp spec fn lowercase(s: Seq<char>) -> Seq<char>;

/// `str::to_lowercase` gives the Unicode lowercase form of the whole text; it depends on the
/// text alone. Which characters it maps to which is left to the Unicode tables, but for a backslash:
/// it has no case there, so it stays, and no other character becomes one.
pub assume_specification[ str::to_lowercase ](s: &str) -> (r: String)
    ensures
        r@ == lowercase(s@),
        r@.contains('\\') == s@.contains('\\'),
;

/// The characters of `text` in order.
pub fn chars_of(text: &str) -> (r: Vec<char>)
    ensures
        r@ == text@,
{
    let mut out: Vec<char> = Vec::new();
    for c in it: text.chars()
        invariant
            out@ == it.seq().take(it.index()),
            it.seq() == text@,
    {
        out.push(c);
    }
    out
}

/// The string made of the characters at `from..to`.
pub fn string_of_range(chars: &Vec<char>, from: usize, to: usize) -> (r: String)
    requires
        from <= to <= chars@.len(),
    ensures
        r@ == chars@.subrange(from as int, to as int),
{
    let mut out = String::new();
    let mut i: usize = from;
    while i < to
        invariant
            from <= i <= to <= chars@.len(),
            out@ == chars@.subrange(from as int, i as int),
        decreases to - i,
    {
        out.push(chars[i]);
        i += 1;
    }
    out
}

/// The string made of `chars` in order.
pub fn string_of(chars: &Vec<char>) -> (r: String)
    ensures
        r@ == chars@,
{
    let r = string_of_range(chars, 0, chars.len());
    assert(chars@.subrange(0, chars@.len() as int) =~= chars@);
    r
}

/// Whether two texts hold the same characters.
pub fn same_text(left: &str, right: &str) -> (r: bool)
    ensures
        r == (left@ == right@),
{
    let a = chars_of(left);
    let b = chars_of(right);
    if a.len() != b.len() {
        return false;
    }
    let mut i: usize = 0;
    while i < a.len()
        invariant
            i <= a@.len(),
            a@ == left@,
            b@ == right@,
            a@.len() == b@.len(),
            a@.take(i as int) == b@.take(i as int),
        decreases a@.len() - i,
    {
        if a[i] != b[i] {
            return false;
        }
        assert(a@.take(i + 1) =~= a@.take(i as int).push(a@[i as int]));
        assert(b@.take(i + 1) =~= b@.take(i as int).push(b@[i as int]));
        i += 1;
    }
    assert(a@.take(i as int) =~= a@);
    assert(b@.take(i as int) =~= b@);
    true
}

/// `s` with every `from` turned into `to`.
pub open spec fn replaced(s: Seq<char>, from: char, to: char) -> Seq<char> {
    s.map_values(|c: char| if c == from { to } else { c })
}

/// Turns every `from` into `to`.
pub fn replace_char(text: &str, from: char, to: char) -> (r: String)
    ensures
        r@ == replaced(text@, from, to),
{
    let chars = chars_of(text);
    let mut out = String::new();
    let mut i: usize = 0;
    while i < chars.len()
        invariant
            i <= chars@.len(),
            out@ == replaced(chars@.take(i as int), from, to),
        decreases chars@.len() - i,
    {
        let c = chars[i];
        assert(chars@.take(i + 1) =~= chars@.take(i as int).push(c));
        out.push(if c == from { to } else { c });
        assert(out@ =~= replaced(chars@.take(i + 1), from, to));
        i += 1;
    }
    assert(chars@.take(i as int) =~= chars@);
    out
}

/// `s` without the copies of `c` at its end.
pub open spec fn without_trailing(s: Seq<char>, c: char) -> Seq<char>
    decreases s.len(),
{
    if s.len() > 0 && s.last() == c {
        without_trailing(s.drop_last(), c)
    } else {
        s
    }
}

/// Drops the copies of `c` at the end of `text`.
pub fn trim_end_char(text: &str, c: char) -> (r: String)
    ensures
        r@ == without_trailing(text@, c),
{
    let chars = chars_of(text);
    let mut end: usize = chars.len();
    assert(chars@.take(end as int) =~= chars@);
    while end > 0 && chars[end - 1] == c
        invariant
            end <= chars@.len(),
            chars@ == text@,
            without_trailing(chars@.take(end as int), c) == without_trailing(text@, c),
        decreases end,
    {
        assert(chars@.take(end as int).drop_last() =~= chars@.take(end - 1));
        end -= 1;
    }
    let r = string_of_range(&chars, 0, end);
    assert(r@ =~= chars@.take(end as int));
    r
}

/// `s` without the copies of `c` at its start.
pub open spec fn without_leading(s: Seq<char>, c: char) -> Seq<char>
    decreases s.len(),
{
    if s.len() > 0 && s[0] == c {
        without_leading(s.drop_first(), c)
    } else {
        s
    }
}

/// Drops the copies of `c` at the start of `text`.
pub fn trim_start_char(text: &str, c: char) -> (r: String)
    ensures
        r@ == without_leading(text@, c),
{
    let chars = chars_of(text);
    let mut i: usize = 0;
    assert(chars@.skip(0) =~= chars@);
    while i < chars.len() && chars[i] == c
        invariant
            i <= chars@.len(),
            chars@ == text@,
            without_leading(chars@.skip(i as int), c) == without_leading(text@, c),
        decreases chars@.len() - i,
    {
        assert(chars@.skip(i as int).drop_first() =~= chars@.skip(i + 1));
        i += 1;
    }
    let r = string_of_range(&chars, i, chars.len());
    assert(r@ =~= chars@.skip(i as int));
    r
}

/// The characters with the Unicode property White_Space.
pub open spec fn is_white_space(c: char) -> bool {
    ||| '\u{9}' <= c <= '\u{d}'
    ||| c == ' '
    ||| c == '\u{85}'
    ||| c == '\u{a0}'
    ||| c == '\u{1680}'
    ||| '\u{2000}' <= c <= '\u{200a}'
    ||| c == '\u{2028}'
    ||| c == '\u{2029}'
    ||| c == '\u{202f}'
    ||| c == '\u{205f}'
    ||| c == '\u{3000}'
}

/// Whether `c` has the Unicode property White_Space.
pub fn white_space(c: char) -> (r: bool)
    ensures
        r == is_white_space(c),
{
    ('\u{9}' <= c && c <= '\u{d}') || c == ' ' || c == '\u{85}' || c == '\u{a0}' || c == '\u{1680}'
        || ('\u{2000}' <= c && c <= '\u{200a}') || c == '\u{2028}' || c == '\u{2029}' || c
        == '\u{202f}' || c == '\u{205f}' || c == '\u{3000}'
}

/// `s` without the white space at its end.
pub open spec fn trimmed_end(s: Seq<char>) -> Seq<char>
    decreases s.len(),
{
    if s.len() > 0 && is_white_space(s.last()) {
        trimmed_end(s.drop_last())
    } else {
        s
    }
}

/// `s` without the white space at its start.
pub open spec fn trimmed_start(s: Seq<char>) -> Seq<char>
    decreases s.len(),
{
    if s.len() > 0 && is_white_space(s[0]) {
        trimmed_start(s.drop_first())
    } else {
        s
    }
}

/// `s` without the white space at both ends.
pub open spec fn trimmed(s: Seq<char>) -> Seq<char> {
    trimmed_end(trimmed_start(s))
}

/// Drops the white space at the start of `text`.
pub fn trim_start(text: &str) -> (r: String)
    ensures
        r@ == trimmed_start(text@),
{
    let chars = chars_of(text);
    let mut start: usize = 0;
    assert(chars@.skip(0) =~= chars@);
    while start < chars.len() && white_space(chars[start])
        invariant
            start <= chars@.len(),
            trimmed_start(chars@.skip(start as int)) == trimmed_start(chars@),
        decreases chars@.len() - start,
    {
        assert(chars@.skip(start as int).drop_first() =~= chars@.skip(start + 1));
        start += 1;
    }
    let r = string_of_range(&chars, start, chars.len());
    assert(r@ =~= chars@.skip(start as int));
    r
}

/// Drops the white space at the end of `text`.
pub fn trim_end(text: &str) -> (r: String)
    ensures
        r@ == trimmed_end(text@),
{
    let chars = chars_of(text);
    let mut end: usize = chars.len();
    assert(chars@.take(end as int) =~= chars@);
    while end > 0 && white_space(chars[end - 1])
        invariant
            end <= chars@.len(),
            trimmed_end(chars@.take(end as int)) == trimmed_end(chars@),
        decreases end,
    {
        assert(chars@.take(end as int).drop_last() =~= chars@.take(end - 1));
        end -= 1;
    }
    let r = string_of_range(&chars, 0, end);
    assert(r@ =~= chars@.take(end as int));
    r
}

/// Drops the white space at both ends of `text`.
pub fn trim(text: &str) -> (r: String)
    ensures
        r@ == trimmed(text@),
{
    trim_end(trim_start(text).as_str())
}

/// Whether `text` is empty once the white space at both ends is dropped.
pub fn is_blank(text: &str) -> (r: bool)
    ensures
        r == (trimmed(text@).len() == 0),
{
    chars_of(trim(text).as_str()).len() == 0
}

/// Whether `text` begins with `prefix`.
pub fn starts_with(text: &str, prefix: &str) -> (r: bool)
    ensures
        r == prefix@.is_prefix_of(text@),
{
    let t = chars_of(text);
    let p = chars_of(prefix);
    if p.len() > t.len() {
        return false;
    }
    let mut i: usize = 0;
    while i < p.len()
        invariant
            i <= p@.len() <= t@.len(),
            t@ == text@,
            p@ == prefix@,
            forall|k: int| 0 <= k < i ==> p@[k] == t@[k],
        decreases p@.len() - i,
    {
        if p[i] != t[i] {
            assert(text@.subrange(0, prefix@.len() as int)[i as int] != prefix@[i as int]);
            return false;
        }
        i += 1;
    }
    assert(p@ =~= t@.subrange(0, p@.len() as int));
    true
}

/// What follows `prefix` in `text`, or nothing where `text` does not begin with it.
pub fn strip_prefix(text: &str, prefix: &str) -> (r: Option<String>)
    ensures
        r is Some == prefix@.is_prefix_of(text@),
        r matches Some(rest) ==> rest@ == text@.skip(prefix@.len() as int),
{
    if starts_with(text, prefix) {
        let t = chars_of(text);
        let n: usize = chars_of(prefix).len();
        let rest = string_of_range(&t, n, t.len());
        assert(rest@ =~= text@.skip(n as int));
        Some(rest)
    } else {
        None
    }
}

/// Whether `s` ends with `suffix`.
pub open spec fn has_suffix(s: Seq<char>, suffix: Seq<char>) -> bool {
    suffix.len() <= s.len() && s.skip(s.len() - suffix.len()) == suffix
}

/// Whether a text ends with another.
pub fn ends_with(text: &str, suffix: &str) -> (r: bool)
    ensures
        r == has_suffix(text@, suffix@),
{
    let chars = chars_of(text);
    let end = chars_of(suffix);
    if end.len() > chars.len() {
        return false;
    }
    let tail = string_of_range(&chars, chars.len() - end.len(), chars.len());
    assert(tail@ =~= text@.skip(text@.len() - suffix@.len()));
    same_text(tail.as_str(), suffix)
}

/// The position of the last `c` in `s`, or -1.
pub open spec fn last_position(s: Seq<char>, c: char) -> int
    decreases s.len(),
{
    if s.len() == 0 {
        -1
    } else if s.last() == c {
        s.len() - 1
    } else {
        last_position(s.drop_last(), c)
    }
}

/// The position of the last `c` in `chars`.
pub fn find_last(chars: &Vec<char>, c: char) -> (r: Option<usize>)
    ensures
        r is Some == (last_position(chars@, c) >= 0),
        r matches Some(i) ==> i == last_position(chars@, c) && i < chars@.len(),
{
    let mut end: usize = chars.len();
    assert(chars@.take(end as int) =~= chars@);
    while end > 0
        invariant
            end <= chars@.len(),
            last_position(chars@.take(end as int), c) == last_position(chars@, c),
        decreases end,
    {
        assert(chars@.take(end as int).drop_last() =~= chars@.take(end - 1));
        if chars[end - 1] == c {
            return Some(end - 1);
        }
        end -= 1;
    }
    None
}

/// The parts of `text` before and after the last `c`.
pub fn rsplit_once(text: &str, c: char) -> (r: Option<(String, String)>)
    ensures
        r is Some == (last_position(text@, c) >= 0),
        r matches Some(parts) ==> parts.0@ == text@.take(last_position(text@, c)) && parts.1@
            == text@.skip(last_position(text@, c) + 1),
{
    let chars = chars_of(text);
    match find_last(&chars, c) {
        None => None,
        Some(i) => {
            let end: usize = chars.len();
            let head = string_of_range(&chars, 0, i);
            let tail = string_of_range(&chars, i + 1, end);
            assert(head@ =~= text@.take(i as int));
            assert(tail@ =~= text@.skip(i + 1));
            Some((head, tail))
        },
    }
}

/// The ASCII lowercase form of a character.
pub open spec fn ascii_lower(c: char) -> char {
    if 'A' <= c <= 'Z' {
        ((c as u32) + 32) as char
    } else {
        c
    }
}

/// The ASCII uppercase form of a character.
pub open spec fn ascii_upper(c: char) -> char {
    if 'a' <= c <= 'z' {
        ((c as u32) - 32) as char
    } else {
        c
    }
}

/// Turns an ASCII uppercase letter into its lowercase letter.
pub fn to_ascii_lower(c: char) -> (r: char)
    ensures
        r == ascii_lower(c),
{
    if 'A' <= c && c <= 'Z' {
        ((c as u8) + 32) as char
    } else {
        c
    }
}

/// Turns an ASCII lowercase letter into its uppercase letter.
pub fn to_ascii_upper(c: char) -> (r: char)
    ensures
        r == ascii_upper(c),
{
    if 'a' <= c && c <= 'z' {
        ((c as u8) - 32) as char
    } else {
        c
    }
}

/// `s` with its ASCII letters in lowercase.
pub open spec fn ascii_lowered(s: Seq<char>) -> Seq<char> {
    s.map_values(|c: char| ascii_lower(c))
}

/// Turns the ASCII letters of `text` to lowercase.
pub fn ascii_lowercase(text: &str) -> (r: String)
    ensures
        r@ == ascii_lowered(text@),
{
    let chars = chars_of(text);
    let mut out = String::new();
    let mut i: usize = 0;
    while i < chars.len()
        invariant
            i <= chars@.len(),
            out@ == ascii_lowered(chars@.take(i as int)),
        decreases chars@.len() - i,
    {
        assert(chars@.take(i + 1) =~= chars@.take(i as int).push(chars@[i as int]));
        out.push(to_ascii_lower(chars[i]));
        assert(out@ =~= ascii_lowered(chars@.take(i + 1)));
        i += 1;
    }
    assert(chars@.take(i as int) =~= chars@);
    out
}

/// Whether two texts are equal up to the case of their ASCII letters.
pub fn eq_ignore_ascii_case(left: &str, right: &str) -> (r: bool)
    ensures
        r == (ascii_lowered(left@) == ascii_lowered(right@)),
{
    same_text(ascii_lowercase(left).as_str(), ascii_lowercase(right).as_str())
}

/// Whether `s` stands before `t` in the order of their characters.
pub open spec fn text_less(s: Seq<char>, t: Seq<char>) -> bool
    decreases s.len(),
{
    if t.len() == 0 {
        false
    } else if s.len() == 0 {
        true
    } else if s[0] != t[0] {
        s[0] < t[0]
    } else {
        text_less(s.drop_first(), t.drop_first())
    }
}

/// Whether `left` stands before `right` in the order of their characters.
pub fn less_text(left: &str, right: &str) -> (r: bool)
    ensures
        r == text_less(left@, right@),
{
    let a = chars_of(left);
    let b = chars_of(right);
    let mut i: usize = 0;
    assert(a@.skip(0) =~= a@);
    assert(b@.skip(0) =~= b@);
    while i < a.len() && i < b.len()
        invariant
            i <= a@.len(),
            i <= b@.len(),
            a@ == left@,
            b@ == right@,
            text_less(a@.skip(i as int), b@.skip(i as int)) == text_less(left@, right@),
        decreases a@.len() - i,
    {
        if a[i] != b[i] {
            return a[i] < b[i];
        }
        assert(a@.skip(i as int).drop_first() =~= a@.skip(i + 1));
        assert(b@.skip(i as int).drop_first() =~= b@.skip(i + 1));
        i += 1;
    }
    i < b.len()
}

/// Of two texts at most one stands before the other.
pub proof fn lemma_text_less_one_way(s: Seq<char>, t: Seq<char>)
    requires
        text_less(s, t),
    ensures
        !text_less(t, s),
    decreases s.len(),
{
    if s.len() > 0 && t.len() > 0 && s[0] == t[0] {
        lemma_text_less_one_way(s.drop_first(), t.drop_first());
    }
}

/// Of two different texts one stands before the other.
pub proof fn lemma_text_less_total(s: Seq<char>, t: Seq<char>)
    requires
        s != t,
    ensures
        text_less(s, t) || text_less(t, s),
    decreases s.len(),
{
    if s.len() == 0 || t.len() == 0 {
        if s.len() == t.len() {
            assert(s =~= t);
        }
    } else if s[0] == t[0] {
        if s.drop_first() == t.drop_first() {
            assert(s =~= seq![s[0]] + s.drop_first());
            assert(t =~= seq![t[0]] + t.drop_first());
        }
        lemma_text_less_total(s.drop_first(), t.drop_first());
    }
}

/// The order of texts carries over from text to text.
pub proof fn lemma_text_less_transitive(s: Seq<char>, t: Seq<char>, u: Seq<char>)
    requires
        text_less(s, t),
        text_less(t, u),
    ensures
        text_less(s, u),
    decreases s.len(),
{
    if s.len() > 0 && u.len() > 0 && t.len() > 0 && s[0] == t[0] && t[0] == u[0] {
        lemma_text_less_transitive(s.drop_first(), t.drop_first(), u.drop_first());
    }
}

/// The decimal digits of a number.
pub open spec fn decimal(n: nat) -> Seq<char>
    decreases n,
{
    if n < 10 {
        seq![(('0' as u32) + n) as char]
    } else {
        decimal(n / 10).push((('0' as u32) + n % 10) as char)
    }
}

/// The decimal digits of a signed number, with its minus sign.
pub open spec fn signed_decimal(n: int) -> Seq<char> {
    if n < 0 {
        seq!['-'] + decimal((-n) as nat)
    } else {
        decimal(n as nat)
    }
}

/// Writes a number in decimal.
pub fn decimal_text(n: u64) -> (r: String)
    ensures
        r@ == decimal(n as nat),
    decreases n,
{
    let digit: u8 = (n % 10) as u8;
    let c: char = (48u8 + digit) as char;
    let mut out = if n < 10 {
        String::new()
    } else {
        decimal_text(n / 10)
    };
    out.push(c);
    assert(out@ =~= decimal(n as nat));
    out
}

/// Writes a signed number in decimal.
pub fn signed_decimal_text(n: i64) -> (r: String)
    ensures
        r@ == signed_decimal(n as int),
{
    if n < 0 {
        let magnitude: u64 = if n == i64::MIN {
            9223372036854775808
        } else {
            (-n) as u64
        };
        let mut out = String::new();
        out.push('-');
        let out = out.concat(decimal_text(magnitude).as_str());
        assert(out@ =~= signed_decimal(n as int));
        out
    } else {
        decimal_text(n as u64)
    }
}

/// Whether `needle` stands somewhere in `s`.
pub open spec fn contains_text(s: Seq<char>, needle: Seq<char>) -> bool {
    exists|i: int| #[trigger] stands_at(s, needle, i)
}

/// Whether `needle` stands in `s` at position `i`.
pub open spec fn stands_at(s: Seq<char>, needle: Seq<char>, i: int) -> bool {
    0 <= i && i + needle.len() <= s.len() && s.subrange(i, i + needle.len()) == needle
}

/// Whether `needle` stands somewhere in `text`.
pub fn has_text(text: &str, needle: &str) -> (r: bool)
    ensures
        r == contains_text(text@, needle@),
{
    let t = chars_of(text);
    let n: usize = chars_of(needle).len();
    let mut i: usize = 0;
    while i <= t.len() && n <= t.len() - i
        invariant
            i <= t@.len() + 1,
            t@ == text@,
            n == needle@.len(),
            forall|k: int| 0 <= k < i ==> !stands_at(text@, needle@, k),
        decreases t@.len() + 1 - i,
    {
        let part = string_of_range(&t, i, i + n);
        if same_text(part.as_str(), needle) {
            assert(stands_at(text@, needle@, i as int));
            return true;
        }
        if i == t.len() {
            return false;
        }
        i += 1;
    }
    false
}

/// One text after another.
pub fn cat(a: &str, b: &str) -> (r: String)
    ensures
        r@ == a@ + b@,
{
    let mut out = a.to_owned();
    out.append(b);
    out
}

/// Three texts in a row.
pub fn cat3(a: &str, b: &str, c: &str) -> (r: String)
    ensures
        r@ == a@ + b@ + c@,
{
    let mut out = a.to_owned();
    out.append(b);
    out.append(c);
    out
}

/// Four texts in a row.
pub fn cat4(a: &str, b: &str, c: &str, d: &str) -> (r: String)
    ensures
        r@ == a@ + b@ + c@ + d@,
{
    let mut out = a.to_owned();
    out.append(b);
    out.append(c);
    out.append(d);
    out
}

/// Five texts in a row.
pub fn cat5(a: &str, b: &str, c: &str, d: &str, e: &str) -> (r: String)
    ensures
        r@ == a@ + b@ + c@ + d@ + e@,
{
    let mut out = a.to_owned();
    out.append(b);
    out.append(c);
    out.append(d);
    out.append(e);
    out
}

/// Six texts in a row.
pub fn cat6(a: &str, b: &str, c: &str, d: &str, e: &str, f: &str) -> (r: String)
    ensures
        r@ == a@ + b@ + c@ + d@ + e@ + f@,
{
    let mut out = a.to_owned();
    out.append(b);
    out.append(c);
    out.append(d);
    out.append(e);
    out.append(f);
    out
}

/// Whether a text is in a list.
pub fn has_line(list: &Vec<String>, line: &str) -> (r: bool)
    ensures
        r == crate::models::texts(list@).contains(line@),
{
    let ghost all = crate::models::texts(list@);
    let mut i: usize = 0;
    while i < list.len()
        invariant
            i <= list@.len(),
            all == crate::models::texts(list@),
            forall|k: int| 0 <= k < i ==> #[trigger] all[k] != line@,
        decreases list@.len() - i,
    {
        if same_text(list[i].as_str(), line) {
            assert(all[i as int] == line@);
            return true;
        }
        i += 1;
    }
    false
}

/// Appends a line to a list.
pub fn add_line(list: &mut Vec<String>, line: String)
    ensures
        crate::models::texts(final(list)@) == crate::models::texts(old(list)@).push(line@),
        final(list)@ == old(list)@.push(line),
{
    let ghost before = list@;
    list.push(line);
    assert(crate::models::texts(list@) =~= crate::models::texts(before).push(line@));
}

/// The runs of characters between separators, empty ones among them.
pub open spec fn pieces(s: Seq<char>, c: char) -> Seq<Seq<char>>
    decreases s.len(),
{
    if s.len() == 0 {
        seq![Seq::empty()]
    } else {
        let rest = pieces(s.drop_last(), c);
        if s.last() == c {
            rest.push(Seq::empty())
        } else {
            rest.update(rest.len() - 1, rest.last().push(s.last()))
        }
    }
}

/// Cuts a text at every separator.
pub fn split(text: &str, c: char) -> (r: Vec<String>)
    ensures
        crate::models::texts(r@) == pieces(text@, c),
        r@.len() > 0,
{
    let chars = chars_of(text);
    let mut done: Vec<String> = Vec::new();
    let mut current: Vec<char> = Vec::new();
    let mut i: usize = 0;
    assert(chars@.take(0) =~= Seq::empty());
    assert(crate::models::texts(done@) =~= pieces(chars@.take(0), c).drop_last());
    while i < chars.len()
        invariant
            i <= chars@.len(),
            pieces(chars@.take(i as int), c).len() > 0,
            current@ == pieces(chars@.take(i as int), c).last(),
            crate::models::texts(done@) == pieces(chars@.take(i as int), c).drop_last(),
        decreases chars@.len() - i,
    {
        let ghost before = pieces(chars@.take(i as int), c);
        let ghost after = pieces(chars@.take(i + 1), c);
        assert(chars@.take(i + 1).drop_last() =~= chars@.take(i as int));
        if chars[i] == c {
            assert(after.drop_last() =~= before);
            assert(before =~= before.drop_last().push(before.last()));
            add_line(&mut done, string_of(&current));
            current = Vec::new();
            assert(current@ =~= after.last());
        } else {
            current.push(chars[i]);
            assert(after.drop_last() =~= before.drop_last());
        }
        i += 1;
    }
    assert(chars@.take(i as int) =~= chars@);
    let ghost all = pieces(chars@, c);
    assert(all =~= all.drop_last().push(all.last()));
    add_line(&mut done, string_of(&current));
    done
}

/// A line without a carriage return at its end.
pub open spec fn without_return(line: Seq<char>) -> Seq<char> {
    if line.len() > 0 && line.last() == '\r' {
        line.drop_last()
    } else {
        line
    }
}

/// The first `n` of the pieces between line ends as lines: each but the last one of all lost its
/// line end, and with it a carriage return.
pub open spec fn as_lines(all: Seq<Seq<char>>, n: int) -> Seq<Seq<char>>
    decreases n,
{
    if n <= 0 {
        Seq::empty()
    } else if n < all.len() {
        as_lines(all, n - 1).push(without_return(all[n - 1]))
    } else if all[n - 1].len() > 0 {
        as_lines(all, n - 1).push(all[n - 1])
    } else {
        as_lines(all, n - 1)
    }
}

/// The lines of a text.
pub open spec fn lines_of(s: Seq<char>) -> Seq<Seq<char>> {
    as_lines(pieces(s, '\n'), pieces(s, '\n').len() as int)
}

/// The lines of a text.
pub fn lines(text: &str) -> (r: Vec<String>)
    ensures
        crate::models::texts(r@) == lines_of(text@),
{
    let parts = split(text, '\n');
    let ghost all = crate::models::texts(parts@);
    let mut out: Vec<String> = Vec::new();
    let mut i: usize = 0;
    let total: usize = parts.len();
    assert(crate::models::texts(out@) =~= Seq::empty());
    while i < total
        invariant
            i <= total,
            total == parts@.len(),
            all == crate::models::texts(parts@),
            crate::models::texts(out@) == as_lines(all, i as int),
        decreases total - i,
    {
        assert(all[i as int] == parts@[i as int]@);
        let chars = chars_of(parts[i].as_str());
        let n: usize = chars.len();
        if i + 1 < total {
            if n > 0 && chars[n - 1] == '\r' {
                let line = string_of_range(&chars, 0, n - 1);
                assert(line@ =~= without_return(all[i as int]));
                add_line(&mut out, line);
            } else {
                add_line(&mut out, parts[i].clone());
            }
        } else if n > 0 {
            add_line(&mut out, parts[i].clone());
        }
        i += 1;
    }
    out
}

/// The first `n` lines with a separator between them.
pub open spec fn joined_lines(all: Seq<Seq<char>>, separator: Seq<char>, n: int) -> Seq<char>
    decreases n,
{
    if n <= 0 {
        Seq::empty()
    } else if n == 1 {
        all[0]
    } else {
        joined_lines(all, separator, n - 1) + separator + all[n - 1]
    }
}

/// Joins the first lines of a list, `limit` at most.
pub fn join_lines(list: &Vec<String>, separator: &str, limit: usize) -> (r: String)
    ensures
        r@ == joined_lines(
            crate::models::texts(list@),
            separator@,
            if limit <= list@.len() {
                limit as int
            } else {
                list@.len() as int
            },
        ),
{
    let ghost all = crate::models::texts(list@);
    let mut out = String::new();
    let mut i: usize = 0;
    assert(out@ =~= Seq::empty());
    while i < list.len() && i < limit
        invariant
            i <= list@.len(),
            i <= limit,
            all == crate::models::texts(list@),
            out@ == joined_lines(all, separator@, i as int),
        decreases list@.len() - i,
    {
        assert(all[i as int] == list@[i as int]@);
        if i > 0 {
            out.append(separator);
        }
        out.append(list[i].as_str());
        if i == 0 {
            assert(out@ =~= all[0]);
        }
        i += 1;
    }
    out
}

} // verus!
