//! Sample hashes: 64-bit fingerprints of single frames, written in hexadecimal.
use crate::models;
use crate::text::chars_of;
use vstd::prelude::*;

verus! {

/// The value of a hexadecimal digit, or -1.
pub open spec fn hex_digit(c: char) -> int {
    if '0' <= c <= '9' {
        c as int - '0' as int
    } else if 'a' <= c <= 'f' {
        c as int - 'a' as int + 10
    } else if 'A' <= c <= 'F' {
        c as int - 'A' as int + 10
    } else {
        -1
    }
}

/// The value of a row of hexadecimal digits.
pub open spec fn hex_number(s: Seq<char>) -> int
    decreases s.len(),
{
    if s.len() == 0 {
        0
    } else {
        hex_number(s.drop_last()) * 16 + hex_digit(s.last())
    }
}

/// Whether every character is a hexadecimal digit.
pub open spec fn all_hex(s: Seq<char>) -> bool {
    forall|i: int| 0 <= i < s.len() ==> hex_digit(#[trigger] s[i]) >= 0
}

/// A text without its leading plus sign.
pub open spec fn hex_body(s: Seq<char>) -> Seq<char> {
    if s.len() > 0 && s[0] == '+' {
        s.skip(1)
    } else {
        s
    }
}

/// The number that a hexadecimal text writes: an optional plus sign, then digits whose value
/// fits 64 bits.
pub open spec fn hex_value(s: Seq<char>) -> Option<u64> {
    let body = hex_body(s);
    if body.len() > 0 && all_hex(body) && hex_number(body) <= u64::MAX {
        Some(hex_number(body) as u64)
    } else {
        None
    }
}

proof fn lemma_hex_grows(s: Seq<char>, n: int)
    requires
        all_hex(s),
        0 <= n <= s.len(),
    ensures
        0 <= hex_number(s.take(n)) <= hex_number(s),
    decreases s.len(),
{
    if n == s.len() {
        assert(s.take(n) =~= s);
        if s.len() > 0 {
            assert(all_hex(s.drop_last()));
            lemma_hex_grows(s.drop_last(), n - 1);
            assert(s.drop_last().take(n - 1) =~= s.drop_last());
            assert(hex_digit(s[s.len() - 1]) >= 0);
        }
    } else {
        assert(all_hex(s.drop_last()));
        lemma_hex_grows(s.drop_last(), n);
        assert(s.drop_last().take(n) =~= s.take(n));
        assert(hex_digit(s[s.len() - 1]) >= 0);
    }
}

/// Reads one hexadecimal digit.
fn digit_value(c: char) -> (r: Option<u64>)
    ensures
        r is Some == (hex_digit(c) >= 0),
        r matches Some(v) ==> v == hex_digit(c) && v < 16,
{
    if '0' <= c && c <= '9' {
        Some((c as u32 - 48) as u64)
    } else if 'a' <= c && c <= 'f' {
        Some((c as u32 - 87) as u64)
    } else if 'A' <= c && c <= 'F' {
        Some((c as u32 - 55) as u64)
    } else {
        None
    }
}

/// Reads a hexadecimal number of at most 64 bits.
pub fn parse_hex(text: &str) -> (r: Option<u64>)
    ensures
        r == hex_value(text@),
{
    let chars = chars_of(text);
    let start: usize = if chars.len() > 0 && chars[0] == '+' {
        1
    } else {
        0
    };
    let ghost body = hex_body(text@);
    assert(body =~= chars@.skip(start as int));
    if chars.len() == start {
        return None;
    }
    let mut value: u64 = 0;
    let mut i: usize = start;
    while i < chars.len()
        invariant
            start <= i <= chars@.len(),
            chars@ == text@,
            body == hex_body(text@),
            body == chars@.skip(start as int),
            body.len() > 0,
            all_hex(body.take(i - start)),
            value == hex_number(body.take(i - start)),
        decreases chars@.len() - i,
    {
        let ghost n = i - start;
        assert(body[n] == chars@[i as int]);
        assert(body.take(n + 1).drop_last() =~= body.take(n));
        match digit_value(chars[i]) {
            None => {
                assert(hex_digit(body[n]) < 0);
                return None;
            },
            Some(d) => {
                if value > (u64::MAX - d) / 16 {
                    proof {
                        if all_hex(body) {
                            lemma_hex_grows(body, n + 1);
                        }
                    }
                    return None;
                }
                value = value * 16 + d;
            },
        }
        assert(all_hex(body.take(n + 1))) by {
            assert forall|k: int| 0 <= k < n + 1 implies hex_digit(
                #[trigger] body.take(n + 1)[k],
            ) >= 0 by {
                if k < n {
                    assert(body.take(n)[k] == body.take(n + 1)[k]);
                }
            }
        }
        i += 1;
    }
    assert(body.take(body.len() as int) =~= body);
    Some(value)
}

/// The number of ones in the binary form of `n`.
pub open spec fn ones(n: nat) -> nat
    decreases n,
{
    if n == 0 {
        0
    } else {
        n % 2 + ones(n / 2)
    }
}

/// Counts the ones in the binary form of `value`.
pub fn count_ones(value: u64) -> (r: u32)
    ensures
        r == ones(value as nat),
        r <= 64,
{
    let mut rest: u64 = value;
    let mut count: u32 = 0;
    let mut steps: u32 = 0;
    proof {
        vstd::arithmetic::power2::lemma2_to64();
    }
    while rest > 0
        invariant
            count + ones(rest as nat) == ones(value as nat),
            count <= steps <= 64,
            rest < vstd::arithmetic::power2::pow2((64 - steps) as nat),
        decreases rest,
    {
        proof {
            if steps == 64 {
                vstd::arithmetic::power2::lemma2_to64();
            } else {
                vstd::arithmetic::power2::lemma_pow2_unfold((64 - steps) as nat);
            }
        }
        count += (rest % 2) as u32;
        rest = rest / 2;
        steps += 1;
    }
    count
}

/// The number of bits in which two hashes differ.
pub open spec fn distance(left: u64, right: u64) -> nat {
    ones((left ^ right) as nat)
}

proof fn lemma_ones_bound(n: nat, bits: nat)
    requires
        n < vstd::arithmetic::power2::pow2(bits),
    ensures
        ones(n) <= bits,
    decreases bits,
{
    if n > 0 {
        if bits == 0 {
            vstd::arithmetic::power2::lemma2_to64();
        } else {
            vstd::arithmetic::power2::lemma_pow2_unfold(bits);
            lemma_ones_bound(n / 2, (bits - 1) as nat);
        }
    }
}

/// Two hashes differ in at most 64 bits.
pub proof fn lemma_distance_bound(left: u64, right: u64)
    ensures
        distance(left, right) <= 64,
{
    vstd::arithmetic::power2::lemma2_to64();
    lemma_ones_bound((left ^ right) as nat, 64);
}

/// The number of bits in which two written hashes differ.
pub open spec fn hex_distance(left: Seq<char>, right: Seq<char>) -> Option<nat> {
    match (hex_value(left), hex_value(right)) {
        (Some(l), Some(r)) => Some(distance(l, r)),
        _ => None,
    }
}

/// Counts the bits in which two hashes differ.
pub fn hamming(left: u64, right: u64) -> (r: u32)
    ensures
        r == distance(left, right),
        r <= 64,
{
    count_ones(left ^ right)
}

/// Counts the bits in which two written hashes differ; none where one is no number.
pub fn hamming_hex(left: &str, right: &str) -> (r: Option<u32>)
    ensures
        r is Some == hex_distance(left@, right@) is Some,
        r matches Some(d) ==> d == hex_distance(left@, right@)->0 && d <= 64,
{
    match (parse_hex(left), parse_hex(right)) {
        (Some(l), Some(r)) => Some(hamming(l, r)),
        _ => None,
    }
}

proof fn lemma_ones_zero(n: nat)
    ensures
        ones(n) == 0 <==> n == 0,
    decreases n,
{
    if n > 0 {
        lemma_ones_zero(n / 2);
    }
}

/// The distance of two hashes does not depend on their order, and is zero only for equal ones.
pub proof fn law_distance_is_symmetric_and_separates(left: u64, right: u64)
    ensures
        distance(left, right) == distance(right, left),
        distance(left, right) == 0 <==> left == right,
{
    assert(left ^ right == right ^ left) by (bit_vector);
    assert((left ^ right == 0) <==> left == right) by (bit_vector);
    lemma_ones_zero((left ^ right) as nat);
}

/// The pairs of characters that a text of sixteen characters is made of.
pub open spec fn chunks(s: Seq<char>) -> Seq<(char, char)> {
    Seq::new(8, |i: int| (s[2 * i], s[2 * i + 1]))
}

/// Whether a written hash says enough of its frame: sixteen digits, neither almost blank nor
/// almost full, with more than three different bytes.
pub open spec fn informative(s: Seq<char>) -> bool {
    &&& s.len() == 16
    &&& hex_value(s) matches Some(value)
    &&& 12 <= ones(value as nat) <= 52
    &&& chunks(s).to_set().len() > 3
}

/// Whether a written hash says enough of its frame.
pub fn is_informative_hash(hash: &str) -> (r: bool)
    ensures
        r == informative(hash@),
{
    let chars = chars_of(hash);
    if chars.len() != 16 {
        return false;
    }
    let value: u64 = match parse_hex(hash) {
        None => {
            return false;
        },
        Some(v) => v,
    };
    let count: u32 = count_ones(value);
    if count < 12 || count > 52 {
        return false;
    }
    let ghost all = chunks(hash@);
    let mut seen: Vec<(char, char)> = Vec::new();
    let mut i: usize = 0;
    assert(seen@.to_set() =~= all.take(0).to_set());
    while i < 8
        invariant
            i <= 8,
            chars@ == hash@,
            chars@.len() == 16,
            all == chunks(hash@),
            seen@.no_duplicates(),
            seen@.to_set() == all.take(i as int).to_set(),
        decreases 8 - i,
    {
        let pair: (char, char) = (chars[2 * i], chars[2 * i + 1]);
        let mut known = false;
        let mut j: usize = 0;
        while j < seen.len()
            invariant
                j <= seen@.len(),
                known == exists|k: int| 0 <= k < j && #[trigger] seen@[k] == pair,
            decreases seen@.len() - j,
        {
            if seen[j].0 == pair.0 && seen[j].1 == pair.1 {
                assert(seen@[j as int] == pair);
                known = true;
            }
            j += 1;
        }
        let ghost before = seen@;
        assert(all.take(i + 1) =~= all.take(i as int).push(pair));
        assert(all.take(i + 1).to_set() =~= all.take(i as int).to_set().insert(pair)) by {
            lemma_to_set_push(all.take(i as int), pair);
        }
        if known {
            assert(before.contains(pair));
            assert(before.to_set().contains(pair));
            assert(before.to_set().insert(pair) =~= before.to_set());
        } else {
            seen.push(pair);
            proof {
                lemma_to_set_push(before, pair);
            }
        }
        i += 1;
    }
    assert(all.take(8) =~= all);
    proof {
        seen@.unique_seq_to_set();
    }
    seen.len() > 3
}

/// Appending an item adds it to the set of items.
pub proof fn lemma_to_set_push<A>(s: Seq<A>, item: A)
    ensures
        s.push(item).to_set() =~= s.to_set().insert(item),
{
    let after = s.push(item);
    assert forall|x: A| after.to_set().contains(x) <==> s.to_set().insert(item).contains(x) by {
        if after.contains(x) {
            let k = choose|k: int| 0 <= k < after.len() && after[k] == x;
            if k < s.len() {
                assert(s[k] == x);
            }
        }
        if s.contains(x) {
            let k = choose|k: int| 0 <= k < s.len() && s[k] == x;
            assert(after[k] == x);
        }
        assert(after[s.len() as int] == item);
    }
}

/// The values of the informative hashes of a list, in order.
pub open spec fn informative_values(list: Seq<Seq<char>>) -> Seq<u64>
    decreases list.len(),
{
    if list.len() == 0 {
        Seq::empty()
    } else {
        let rest = informative_values(list.drop_last());
        if informative(list.last()) {
            rest.push(hex_value(list.last())->0)
        } else {
            rest
        }
    }
}

/// The values of the informative hashes of a list, in order.
pub fn informative_hash_points(hashes: &Vec<String>) -> (r: Vec<u64>)
    ensures
        r@ == informative_values(models::texts(hashes@)),
        r@.len() <= hashes@.len(),
{
    let ghost all = models::texts(hashes@);
    let mut out: Vec<u64> = Vec::new();
    let mut i: usize = 0;
    while i < hashes.len()
        invariant
            i <= hashes@.len(),
            all == models::texts(hashes@),
            out@ == informative_values(all.take(i as int)),
            out@.len() <= i,
        decreases hashes@.len() - i,
    {
        assert(all.take(i + 1).drop_last() =~= all.take(i as int));
        assert(all.take(i + 1).last() == hashes@[i as int]@);
        let hash = hashes[i].as_str();
        if is_informative_hash(hash) {
            if let Some(value) = parse_hex(hash) {
                out.push(value);
            }
        }
        i += 1;
    }
    assert(all.take(all.len() as int) =~= all);
    out
}

/// The lowercase hexadecimal digit of a value below sixteen.
pub open spec fn hex_char(n: int) -> char {
    if n < 10 {
        ('0' as int + n) as char
    } else {
        ('a' as int + n - 10) as char
    }
}

/// Bit `p` of the difference hash of a gray image of nine columns and eight rows: whether the
/// pixel at column `p % 8` of row `p / 8` is brighter than the next one.
pub open spec fn gradient_bit(bytes: Seq<u8>, p: int) -> int {
    if bytes[9 * (p / 8) + p % 8] > bytes[9 * (p / 8) + p % 8 + 1] {
        1
    } else {
        0
    }
}

/// Four bits of the difference hash, from bit `4 * n` up.
pub open spec fn gradient_digit(bytes: Seq<u8>, n: int) -> int {
    gradient_bit(bytes, 4 * n) + 2 * gradient_bit(bytes, 4 * n + 1) + 4 * gradient_bit(
        bytes,
        4 * n + 2,
    ) + 8 * gradient_bit(bytes, 4 * n + 3)
}

/// The difference hash in hexadecimal, the highest bits first.
pub open spec fn gradient_text(bytes: Seq<u8>) -> Seq<char> {
    Seq::new(16, |i: int| hex_char(gradient_digit(bytes, 15 - i)))
}

/// The difference hash of a gray image of nine columns and eight rows; none where bytes miss.
pub fn dhash_9x8_gray(bytes: &Vec<u8>) -> (r: Option<String>)
    ensures
        r is Some == (bytes@.len() >= 72),
        r matches Some(text) ==> text@ == gradient_text(bytes@),
{
    if bytes.len() < 72 {
        return None;
    }
    let mut out = String::new();
    let mut i: usize = 0;
    while i < 16
        invariant
            i <= 16,
            bytes@.len() >= 72,
            out@ == gradient_text(bytes@).take(i as int),
        decreases 16 - i,
    {
        let n: usize = 15 - i;
        let mut digit: u8 = 0;
        let mut j: usize = 0;
        let mut weight: u8 = 1;
        while j < 4
            invariant
                n < 16,
                j <= 4,
                bytes@.len() >= 72,
                weight == (if j == 0 {
                    1int
                } else if j == 1 {
                    2
                } else if j == 2 {
                    4
                } else if j == 3 {
                    8
                } else {
                    16
                }),
                digit == (if j > 0 {
                    gradient_bit(bytes@, 4 * n)
                } else {
                    0
                }) + (if j > 1 {
                    2 * gradient_bit(bytes@, 4 * n + 1)
                } else {
                    0
                }) + (if j > 2 {
                    4 * gradient_bit(bytes@, 4 * n + 2)
                } else {
                    0
                }) + (if j > 3 {
                    8 * gradient_bit(bytes@, 4 * n + 3)
                } else {
                    0
                }),
            decreases 4 - j,
        {
            let p: usize = 4 * n + j;
            let at: usize = 9 * (p / 8) + p % 8;
            if bytes[at] > bytes[at + 1] {
                digit += weight;
            }
            weight = weight * 2;
            j += 1;
        }
        let c: char = if digit < 10 {
            (48 + digit) as char
        } else {
            (87 + digit) as char
        };
        assert(c == hex_char(gradient_digit(bytes@, n as int)));
        out.push(c);
        assert(gradient_text(bytes@).take(i + 1) =~= gradient_text(bytes@).take(i as int).push(c));
        i += 1;
    }
    assert(gradient_text(bytes@).take(16) =~= gradient_text(bytes@));
    Some(out)
}

/// A difference hash is written with sixteen hexadecimal digits, so it can be read back.
pub proof fn law_difference_hash_is_a_hash(bytes: Seq<u8>)
    requires
        bytes.len() >= 72,
    ensures
        gradient_text(bytes).len() == 16,
        all_hex(gradient_text(bytes)),
        hex_value(gradient_text(bytes)) is Some,
{
    let s = gradient_text(bytes);
    assert forall|i: int| 0 <= i < s.len() implies hex_digit(#[trigger] s[i]) >= 0 && s[i]
        != '+' by {
        assert(0 <= gradient_digit(bytes, 15 - i) < 16);
    }
    assert(s[0] != '+');
    lemma_hex_bound(s);
    vstd::arithmetic::power::lemma_pow_positive(16, 0);
    assert(vstd::arithmetic::power::pow(16, 16) == 0x1_0000_0000_0000_0000) by {
        reveal_with_fuel(vstd::arithmetic::power::pow, 17);
    }
}

proof fn lemma_hex_bound(s: Seq<char>)
    requires
        all_hex(s),
    ensures
        0 <= hex_number(s) < vstd::arithmetic::power::pow(16, s.len()),
    decreases s.len(),
{
    reveal(vstd::arithmetic::power::pow);
    if s.len() > 0 {
        assert(all_hex(s.drop_last())) by {
            assert forall|i: int| 0 <= i < s.len() - 1 implies hex_digit(
                #[trigger] s.drop_last()[i],
            ) >= 0 by {
                assert(s.drop_last()[i] == s[i]);
            }
        }
        lemma_hex_bound(s.drop_last());
        assert(hex_digit(s[s.len() - 1]) >= 0);
        assert(hex_digit(s.last()) < 16);
        assert(vstd::arithmetic::power::pow(16, s.len()) == 16 * vstd::arithmetic::power::pow(
            16,
            (s.len() - 1) as nat,
        ));
    }
}

} // verus!
