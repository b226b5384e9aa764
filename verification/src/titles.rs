//! What the names of video files say.
use crate::hashes;
use crate::text;
use crate::text::{chars_of, rsplit_once, trim};
use vstd::prelude::*;

verus! {

/// Whether a character is a common Chinese one.
pub open spec fn is_cjk(c: char) -> bool {
    '\u{4e00}' <= c <= '\u{9fff}'
}

/// Whether a character is a common Chinese one.
pub fn cjk(c: char) -> (r: bool)
    ensures
        r == is_cjk(c),
{
    '\u{4e00}' <= c && c <= '\u{9fff}'
}

/// A file name without its last extension and without white space around it.
pub open spec fn stem(file_name: Seq<char>) -> Seq<char> {
    let at = text::last_position(file_name, '.');
    text::trimmed(
        if at >= 0 {
            file_name.take(at)
        } else {
            file_name
        },
    )
}

/// A file name without its last extension and without white space around it.
pub fn file_stem(file_name: &str) -> (r: String)
    ensures
        r@ == stem(file_name@),
{
    match rsplit_once(file_name, '.') {
        Some(parts) => trim(parts.0.as_str()),
        None => trim(file_name),
    }
}

/// Whether a character is a decimal digit of ASCII.
pub open spec fn is_digit(c: char) -> bool {
    '0' <= c <= '9'
}

/// How well a title reads.
pub open spec fn readability(title: Seq<char>) -> int {
    (if exists|i: int| 0 <= i < title.len() && is_cjk(#[trigger] title[i]) {
        100int
    } else {
        0
    }) + (if exists|i: int| 0 <= i < title.len() && is_digit(#[trigger] title[i]) {
        15int
    } else {
        0
    }) + (if 4 <= title.len() <= 90 {
        10int
    } else {
        0
    }) + (if forall|i: int| 0 <= i < title.len() ==> is_digit(#[trigger] title[i]) {
        0int
    } else {
        30
    })
}

/// How well a title reads: Chinese characters, digits, a moderate length and more than digits
/// each count for it.
pub fn title_score(title: &str) -> (r: i32)
    ensures
        r == readability(title@),
{
    let chars = chars_of(title);
    let mut has_cjk = false;
    let mut has_digit = false;
    let mut numeric_only = true;
    let mut i: usize = 0;
    while i < chars.len()
        invariant
            i <= chars@.len(),
            has_cjk == exists|k: int| 0 <= k < i && is_cjk(#[trigger] chars@[k]),
            has_digit == exists|k: int| 0 <= k < i && is_digit(#[trigger] chars@[k]),
            numeric_only == forall|k: int| 0 <= k < i ==> is_digit(#[trigger] chars@[k]),
        decreases chars@.len() - i,
    {
        let c = chars[i];
        if cjk(c) {
            has_cjk = true;
        }
        if '0' <= c && c <= '9' {
            has_digit = true;
        } else {
            numeric_only = false;
        }
        i += 1;
    }
    let mut score: i32 = 0;
    if has_cjk {
        score += 100;
    }
    if has_digit {
        score += 15;
    }
    if 4 <= chars.len() && chars.len() <= 90 {
        score += 10;
    }
    if !numeric_only {
        score += 30;
    }
    score
}

/// The Chinese characters of a text, in order.
pub open spec fn cjk_chars(s: Seq<char>) -> Seq<char>
    decreases s.len(),
{
    if s.len() == 0 {
        Seq::empty()
    } else if is_cjk(s.last()) {
        cjk_chars(s.drop_last()).push(s.last())
    } else {
        cjk_chars(s.drop_last())
    }
}

/// The pairs of characters that say nothing of a title's subject.
pub open spec fn is_weak(pair: (char, char)) -> bool {
    pair == ('视', '频') || pair == ('合', '集') || pair == ('示', '例')
}

/// Whether a pair of characters says nothing of a title's subject.
pub fn is_weak_title_bigram(pair: (char, char)) -> (r: bool)
    ensures
        r == is_weak(pair),
{
    (pair.0 == '视' && pair.1 == '频') || (pair.0 == '合' && pair.1 == '集') || (pair.0 == '示'
        && pair.1 == '例')
}

/// The pairs of neighbours among the first `n + 1` characters of a row that say something of a
/// title's subject.
pub open spec fn pairs_of(chars: Seq<char>, n: int) -> Set<(char, char)>
    decreases n,
{
    if n <= 0 {
        Set::empty()
    } else if is_weak((chars[n - 1], chars[n])) {
        pairs_of(chars, n - 1)
    } else {
        pairs_of(chars, n - 1).insert((chars[n - 1], chars[n]))
    }
}

/// The pairs of neighbouring Chinese characters of a title that say something of its subject.
pub open spec fn bigrams(title: Seq<char>) -> Set<(char, char)> {
    pairs_of(cjk_chars(title), cjk_chars(title).len() - 1)
}

/// A pair belongs to a title exactly where its two characters are neighbours among the Chinese
/// characters and it is not weak.
pub proof fn law_bigrams_are_neighbours(title: Seq<char>, pair: (char, char))
    ensures
        bigrams(title).contains(pair) <==> !is_weak(pair) && exists|i: int|
            #![trigger cjk_chars(title)[i]]
            0 <= i < cjk_chars(title).len() - 1 && pair == (
                cjk_chars(title)[i],
                cjk_chars(title)[i + 1],
            ),
{
    lemma_pairs_of(cjk_chars(title), cjk_chars(title).len() - 1, pair);
}

proof fn lemma_pairs_of(chars: Seq<char>, n: int, pair: (char, char))
    ensures
        pairs_of(chars, n).contains(pair) <==> !is_weak(pair) && exists|i: int|
            #![trigger chars[i]]
            0 <= i < n && pair == (chars[i], chars[i + 1]),
    decreases n,
{
    if n > 0 {
        lemma_pairs_of(chars, n - 1, pair);
        let last = chars[n - 1];
        if !is_weak(pair) && exists|i: int|
            #![trigger chars[i]]
            0 <= i < n && pair == (chars[i], chars[i + 1]) {
            let i = choose|i: int|
                #![trigger chars[i]]
                0 <= i < n && pair == (chars[i], chars[i + 1]);
            if i < n - 1 {
                assert(0 <= i < n - 1 && pair == (chars[i], chars[i + 1]));
            }
        }
    }
}

/// Whether a pair of characters is in a list.
fn has_pair(list: &Vec<(char, char)>, pair: (char, char)) -> (r: bool)
    ensures
        r == list@.contains(pair),
{
    let mut i: usize = 0;
    while i < list.len()
        invariant
            i <= list@.len(),
            forall|k: int| 0 <= k < i ==> list@[k] != pair,
        decreases list@.len() - i,
    {
        if list[i].0 == pair.0 && list[i].1 == pair.1 {
            assert(list@[i as int] == pair);
            return true;
        }
        i += 1;
    }
    false
}

/// The pairs of neighbouring Chinese characters of a title that say something of its subject,
/// each once.
pub fn title_bigrams(title: &str) -> (r: Vec<(char, char)>)
    ensures
        r@.no_duplicates(),
        r@.to_set() == bigrams(title@),
{
    let all = chars_of(title);
    let mut chars: Vec<char> = Vec::new();
    let mut i: usize = 0;
    while i < all.len()
        invariant
            i <= all@.len(),
            chars@ == cjk_chars(all@.take(i as int)),
        decreases all@.len() - i,
    {
        assert(all@.take(i + 1).drop_last() =~= all@.take(i as int));
        if cjk(all[i]) {
            chars.push(all[i]);
        }
        i += 1;
    }
    assert(all@.take(i as int) =~= all@);
    let mut out: Vec<(char, char)> = Vec::new();
    let mut n: usize = 0;
    assert(out@.to_set() =~= Set::empty());
    if chars.len() > 0 {
        while n < chars.len() - 1
            invariant
                0 < chars@.len(),
                n <= chars@.len() - 1,
                out@.no_duplicates(),
                out@.to_set() == pairs_of(chars@, n as int),
            decreases chars@.len() - n,
        {
            let pair: (char, char) = (chars[n], chars[n + 1]);
            let ghost before = out@;
            if !is_weak_title_bigram(pair) {
                if has_pair(&out, pair) {
                    assert(before.to_set().contains(pair));
                    assert(before.to_set().insert(pair) =~= before.to_set());
                } else {
                    out.push(pair);
                    proof {
                        hashes::lemma_to_set_push(before, pair);
                    }
                }
            }
            n += 1;
        }
    }
    out
}

/// How many pairs of characters two titles share, out of how many the one with fewer has.
#[derive(Debug, Clone, Copy, PartialEq, Eq, Structural)]
pub struct TitleOverlap {
    pub shared: usize,
    pub smaller: usize,
}

/// The overlap of the titles of two files.
pub open spec fn overlap(left: Seq<char>, right: Seq<char>) -> (nat, nat) {
    let l = bigrams(stem(left));
    let r = bigrams(stem(right));
    (
        l.intersect(r).len(),
        if l.len() <= r.len() {
            l.len()
        } else {
            r.len()
        },
    )
}

/// Whether an overlap makes up at least so many percent of the smaller title.
pub open spec fn reaches(shared: int, smaller: int, percent: int) -> bool {
    smaller > 0 && 100 * shared >= percent * smaller
}

impl TitleOverlap {
    /// Whether the overlap makes up at least so many percent of the smaller title.
    pub fn reaches_percent(&self, percent: u8) -> (r: bool)
        ensures
            r == reaches(self.shared as int, self.smaller as int, percent as int),
    {
        assert(percent * self.smaller <= 255 * 0xffff_ffff_ffff_ffff) by (nonlinear_arith)
            requires
                percent <= 255,
                self.smaller <= 0xffff_ffff_ffff_ffff,
        ;
        self.smaller > 0 && 100 * (self.shared as u128) >= (percent as u128) * (self.smaller
            as u128)
    }
}

/// The overlap of the titles of two files.
pub fn title_overlap(left: &str, right: &str) -> (r: TitleOverlap)
    ensures
        (r.shared as nat, r.smaller as nat) == overlap(left@, right@),
{
    let l = title_bigrams(file_stem(left).as_str());
    let r = title_bigrams(file_stem(right).as_str());
    let ghost ls = bigrams(stem(left@));
    let ghost rs = bigrams(stem(right@));
    proof {
        l@.unique_seq_to_set();
        r@.unique_seq_to_set();
    }
    let mut shared: usize = 0;
    let mut i: usize = 0;
    assert(l@.take(0).to_set().intersect(rs) =~= Set::empty());
    while i < l.len()
        invariant
            i <= l@.len(),
            l@.no_duplicates(),
            r@.to_set() == rs,
            shared <= i,
            l@.take(i as int).to_set().intersect(rs).finite(),
            shared == l@.take(i as int).to_set().intersect(rs).len(),
        decreases l@.len() - i,
    {
        let ghost before = l@.take(i as int);
        assert(l@.take(i + 1) =~= before.push(l@[i as int]));
        proof {
            hashes::lemma_to_set_push(before, l@[i as int]);
        }
        if has_pair(&r, l[i]) {
            assert(rs.contains(l@[i as int]));
            assert(!before.contains(l@[i as int]));
            assert(before.push(l@[i as int]).to_set().intersect(rs) =~= before.to_set().intersect(
                rs,
            ).insert(l@[i as int]));
            shared += 1;
        } else {
            assert(!rs.contains(l@[i as int]));
            assert(before.push(l@[i as int]).to_set().intersect(rs) =~= before.to_set().intersect(
                rs,
            ));
        }
        i += 1;
    }
    assert(l@.take(i as int) =~= l@);
    TitleOverlap {
        shared,
        smaller: if l.len() <= r.len() {
            l.len()
        } else {
            r.len()
        },
    }
}

} // verus!
