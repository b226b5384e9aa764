//! What holds of the fingerprints of frames, bit by bit.
use crate::hashes;
use vstd::arithmetic::power2::pow2;
use vstd::prelude::*;

verus! {

proof fn lemma_shift_halves(n: nat, k: nat)
    ensures
        n / pow2(k + 1) == (n / pow2(k)) / 2,
{
    vstd::arithmetic::power2::lemma_pow2_unfold(k + 1);
    vstd::arithmetic::power2::lemma_pow2_pos(k);
    vstd::arithmetic::div_mod::lemma_div_denominator(n as int, pow2(k) as int, 2);
    assert(pow2(k + 1) == pow2(k) * 2);
}

proof fn lemma_bit_is_remainder(v: u64, p: u64)
    requires
        p < 64,
    ensures
        ((v >> p) & 1) == 1 <==> (v as nat / pow2(p as nat)) % 2 == 1,
        ((v >> p) & 1) == 0 <==> (v as nat / pow2(p as nat)) % 2 == 0,
{
    vstd::bits::lemma_u64_shr_is_div(v, p);
    let w: u64 = v >> p;
    assert((w & 1) == w % 2) by (bit_vector);
}

/// A digit of a hexadecimal number, counted from its end, is the remainder by sixteen of the number
/// without the digits after it.
proof fn lemma_digit_from_end(s: Seq<char>, k: nat)
    requires
        hashes::all_hex(s),
        k < s.len(),
    ensures
        hashes::hex_number(s) >= 0,
        (hashes::hex_number(s) / pow2(4 * k) as int) % 16 == hashes::hex_digit(s[s.len() - 1 - k]),
    decreases k,
{
    let head = s.drop_last();
    assert(hashes::all_hex(head)) by {
        assert forall|i: int| 0 <= i < head.len() implies hashes::hex_digit(#[trigger] head[i]) >= 0 by {
            assert(head[i] == s[i]);
        }
    }
    lemma_not_negative(s);
    lemma_not_negative(head);
    assert(0 <= hashes::hex_digit(s[s.len() - 1]) < 16);
    assert(hashes::hex_number(s) == hashes::hex_number(head) * 16 + hashes::hex_digit(s.last()));
    if k == 0 {
        vstd::arithmetic::power2::lemma2_to64();
        assert(pow2(4 * k) == 1);
        assert(hashes::hex_number(s) / 1 == hashes::hex_number(s));
        assert((hashes::hex_number(head) * 16 + hashes::hex_digit(s.last())) % 16 == hashes::hex_digit(s.last()));
    } else {
        let j = (k - 1) as nat;
        lemma_digit_from_end(head, j);
        assert(head[head.len() - 1 - j] == s[s.len() - 1 - k]);
        assert(hashes::hex_number(s) / 16 == hashes::hex_number(head));
        vstd::arithmetic::power2::lemma_pow2_adds(4, 4 * j);
        vstd::arithmetic::power2::lemma2_to64();
        assert(pow2(4) == 16);
        assert(pow2(4 * k) == 16 * pow2(4 * j));
        vstd::arithmetic::power2::lemma_pow2_pos(4 * j);
        vstd::arithmetic::div_mod::lemma_div_denominator(
            hashes::hex_number(s),
            16,
            pow2(4 * j) as int,
        );
    }
}

proof fn lemma_not_negative(s: Seq<char>)
    requires
        hashes::all_hex(s),
    ensures
        hashes::hex_number(s) >= 0,
    decreases s.len(),
{
    if s.len() > 0 {
        let head = s.drop_last();
        assert forall|i: int| 0 <= i < head.len() implies hashes::hex_digit(#[trigger] head[i]) >= 0 by {
            assert(head[i] == s[i]);
        }
        lemma_not_negative(head);
        assert(hashes::hex_digit(s[s.len() - 1]) >= 0);
    }
}

proof fn lemma_low_bits(m: nat, d: int)
    requires
        m % 16 == d,
    ensures
        m % 2 == d % 2,
        (m / 2) % 2 == (d / 2) % 2,
        ((m / 2) / 2) % 2 == (d / 4) % 2,
        (((m / 2) / 2) / 2) % 2 == (d / 8) % 2,
{
}

proof fn lemma_digit_bits(bytes: Seq<u8>, n: int)
    ensures
        hashes::gradient_digit(bytes, n) % 2 == hashes::gradient_bit(bytes, 4 * n),
        (hashes::gradient_digit(bytes, n) / 2) % 2 == hashes::gradient_bit(bytes, 4 * n + 1),
        (hashes::gradient_digit(bytes, n) / 4) % 2 == hashes::gradient_bit(bytes, 4 * n + 2),
        (hashes::gradient_digit(bytes, n) / 8) % 2 == hashes::gradient_bit(bytes, 4 * n + 3),
{
}

proof fn lemma_ones_step(m: nat)
    ensures
        hashes::ones(m) == m % 2 + hashes::ones(m / 2),
{
    if m == 0 {
        assert(m / 2 == 0);
    }
}

/// Every bit of the number that a difference hash writes compares two neighbours of the picture:
/// bit `8 * y + x` is set exactly where the pixel at column `x` of row `y` is brighter than the next
/// one in its row.
pub proof fn law_every_bit_compares_neighbours(bytes: Seq<u8>, y: int, x: int)
    requires
        bytes.len() >= 72,
        0 <= y < 8,
        0 <= x < 8,
    ensures
        hashes::hex_value(hashes::gradient_text(bytes)) matches Some(number) && (((number >> ((8 * y + x) as u64)) & 1)
            == 1 <==> bytes[9 * y + x] > bytes[9 * y + x + 1]),
{
    hashes::law_difference_hash_is_a_hash(bytes);
    let s = hashes::gradient_text(bytes);
    let number = hashes::hex_value(s)->0;
    let p = 8 * y + x;
    assert(p / 8 == y && p % 8 == x);
    let k = (p / 4) as nat;
    let j = p % 4;
    let d = hashes::gradient_digit(bytes, k as int);
    assert(s[15 - k] == hashes::hex_char(d));
    assert(hashes::hex_digit(hashes::hex_char(d)) == d);
    assert(s[0] != '+') by {
        assert(s[0] == hashes::hex_char(hashes::gradient_digit(bytes, 15)));
        assert(0 <= hashes::gradient_digit(bytes, 15) < 16);
    }
    assert(hashes::hex_body(s) == s);
    lemma_not_negative(s);
    assert(number == hashes::hex_number(s));
    lemma_digit_from_end(s, k);
    let n = number as nat;
    vstd::arithmetic::power2::lemma_pow2_pos(4 * k);
    vstd::arithmetic::div_mod::lemma_div_pos_is_pos(n as int, pow2(4 * k) as int);
    lemma_low_bits((n / pow2(4 * k)) as nat, d);
    lemma_shift_halves(n, 4 * k);
    lemma_shift_halves(n, 4 * k + 1);
    lemma_shift_halves(n, 4 * k + 2);
    lemma_digit_bits(bytes, k as int);
    assert(p == 4 * k + j);
    assert((n / pow2(p as nat)) % 2 == hashes::gradient_bit(bytes, p)) by {
        if j == 0 {
            assert(p as nat == 4 * k);
        } else if j == 1 {
            assert(p as nat == 4 * k + 1);
        } else if j == 2 {
            assert(p as nat == 4 * k + 2);
        } else {
            assert(p as nat == 4 * k + 3);
        }
    }
    lemma_bit_is_remainder(number, p as u64);
}

/// Two pictures have the same difference hash exactly where all of their neighbours compare alike.
pub proof fn law_hash_tells_every_comparison_apart(one: Seq<u8>, other: Seq<u8>)
    requires
        one.len() >= 72,
        other.len() >= 72,
    ensures
        hashes::gradient_text(one) == hashes::gradient_text(other) <==> forall|y: int, x: int|
            #![trigger one[9 * y + x], other[9 * y + x]]
            0 <= y < 8 && 0 <= x < 8 ==> (one[9 * y + x] > one[9 * y + x + 1] <==> other[9 * y + x]
                > other[9 * y + x + 1]),
{
    if hashes::gradient_text(one) == hashes::gradient_text(other) {
        assert forall|y: int, x: int|
            #![trigger one[9 * y + x], other[9 * y + x]]
            0 <= y < 8 && 0 <= x < 8 implies (one[9 * y + x] > one[9 * y + x + 1] <==> other[9 * y
            + x] > other[9 * y + x + 1]) by {
            law_every_bit_compares_neighbours(one, y, x);
            law_every_bit_compares_neighbours(other, y, x);
        }
    }
    if forall|y: int, x: int|
        #![trigger one[9 * y + x], other[9 * y + x]]
        0 <= y < 8 && 0 <= x < 8 ==> (one[9 * y + x] > one[9 * y + x + 1] <==> other[9 * y + x]
            > other[9 * y + x + 1]) {
        assert forall|p: int| 0 <= p < 64 implies #[trigger] hashes::gradient_bit(one, p) == hashes::gradient_bit(
            other,
            p,
        ) by {
            let y = p / 8;
            let x = p % 8;
            assert(one[9 * y + x] == one[9 * (p / 8) + p % 8]);
            assert(other[9 * y + x] == other[9 * (p / 8) + p % 8]);
        }
        assert forall|n: int| 0 <= n < 16 implies #[trigger] hashes::gradient_digit(one, n)
            == hashes::gradient_digit(other, n) by {
            assert(hashes::gradient_bit(one, 4 * n) == hashes::gradient_bit(other, 4 * n));
            assert(hashes::gradient_bit(one, 4 * n + 1) == hashes::gradient_bit(other, 4 * n + 1));
            assert(hashes::gradient_bit(one, 4 * n + 2) == hashes::gradient_bit(other, 4 * n + 2));
            assert(hashes::gradient_bit(one, 4 * n + 3) == hashes::gradient_bit(other, 4 * n + 3));
        }
        assert forall|i: int| 0 <= i < 16 implies hashes::gradient_text(one)[i] == hashes::gradient_text(
            other,
        )[i] by {
            assert(hashes::gradient_digit(one, 15 - i) == hashes::gradient_digit(other, 15 - i));
        }
        assert(hashes::gradient_text(one) =~= hashes::gradient_text(other));
    }
}

/// The positions below `n` whose bits differ in two numbers.
pub open spec fn differing_bits(left: u64, right: u64, n: int) -> Set<int> {
    Set::new(
        |p: int| 0 <= p < n && ((left >> (p as u64)) & 1) != ((right >> (p as u64)) & 1),
    )
}

proof fn lemma_ones_by_bits(left: u64, right: u64, k: nat)
    requires
        k <= 64,
    ensures
        differing_bits(left, right, k as int).finite(),
        hashes::ones((left ^ right) as nat) == differing_bits(left, right, k as int).len() + hashes::ones(
            (left ^ right) as nat / pow2(k),
        ),
    decreases k,
{
    let n = (left ^ right) as nat;
    if k == 0 {
        vstd::arithmetic::power2::lemma2_to64();
        assert(differing_bits(left, right, 0) =~= Set::<int>::empty());
    } else {
        let j = (k - 1) as nat;
        lemma_ones_by_bits(left, right, j);
        lemma_shift_halves(n, j);
        let before = differing_bits(left, right, j as int);
        let after = differing_bits(left, right, k as int);
        let p = j as u64;
        assert(p < 64);
        let x: u64 = left ^ right;
        lemma_bit_is_remainder(x, p);
        assert(((x >> p) & 1) == 1 <==> ((left >> p) & 1) != ((right >> p) & 1)) by (bit_vector)
            requires
                x == left ^ right,
                p < 64,
        ;
        assert(((x >> p) & 1) == 1 || ((x >> p) & 1) == 0) by (bit_vector);
        let m = n / pow2(j);
        vstd::arithmetic::power2::lemma_pow2_pos(j);
        vstd::arithmetic::div_mod::lemma_div_pos_is_pos(n as int, pow2(j) as int);
        lemma_ones_step(m as nat);
        if ((left >> p) & 1) != ((right >> p) & 1) {
            assert(after =~= before.insert(j as int));
            assert(!before.contains(j as int));
        } else {
            assert(after =~= before);
        }
    }
}

/// The distance of two hashes is the number of positions at which their bits differ.
pub proof fn law_distance_counts_differing_bits(left: u64, right: u64)
    ensures
        differing_bits(left, right, 64).finite(),
        hashes::distance(left, right) == differing_bits(left, right, 64).len(),
{
    lemma_ones_by_bits(left, right, 64);
    vstd::arithmetic::power2::lemma2_to64();
    assert((left ^ right) as nat / pow2(64) == 0) by {
        assert((left ^ right) as nat <= u64::MAX);
        assert(pow2(64) == 0x1_0000_0000_0000_0000);
    }
    assert(hashes::ones(0) == 0);
}

/// A digit is read as its place among the sixteen digits, whether its letter is large or small.
pub proof fn law_digits_are_read_in_either_case(n: int)
    requires
        0 <= n < 16,
    ensures
        hashes::hex_value(seq!["0123456789abcdef"@[n]]) == Some(n as u64),
        hashes::hex_value(seq!["0123456789ABCDEF"@[n]]) == Some(n as u64),
{
    reveal_strlit("0123456789abcdef");
    reveal_strlit("0123456789ABCDEF");
    let small = seq!["0123456789abcdef"@[n]];
    let large = seq!["0123456789ABCDEF"@[n]];
    assert(small.drop_last() =~= Seq::empty() && large.drop_last() =~= Seq::empty());
    assert(hashes::hex_number(Seq::<char>::empty()) == 0);
    assert(hashes::hex_number(small) == hashes::hex_digit(small[0]));
    assert(hashes::hex_number(large) == hashes::hex_digit(large[0]));
    assert(hashes::hex_digit(small[0]) == n && hashes::hex_digit(large[0]) == n);
    assert(hashes::all_hex(small) && hashes::all_hex(large));
    assert(hashes::hex_body(small) == small && hashes::hex_body(large) == large);
}

/// A digit behind a number makes it sixteen times as large and adds its own value.
pub proof fn law_digits_count_by_sixteen(s: Seq<char>, c: char)
    requires
        hashes::hex_value(s) is Some,
        hashes::hex_value(seq![c]) is Some,
        16 * (hashes::hex_value(s)->0) + hashes::hex_value(seq![c])->0 <= u64::MAX,
    ensures
        hashes::hex_value(s.push(c)) == Some((16 * (hashes::hex_value(s)->0) + hashes::hex_value(seq![c])->0) as u64),
{
    let one = seq![c];
    assert(one.drop_last() =~= Seq::empty());
    assert(hashes::hex_number(Seq::<char>::empty()) == 0);
    if c == '+' {
        assert(hashes::hex_body(one).len() == 0);
    }
    assert(hashes::hex_body(one) == one);
    assert(hashes::hex_number(one) == hashes::hex_digit(one[0]));
    let body = hashes::hex_body(s);
    let longer = s.push(c);
    let whole = hashes::hex_body(longer);
    assert(whole =~= body.push(c));
    assert(whole.drop_last() =~= body);
    assert forall|i: int| 0 <= i < whole.len() implies hashes::hex_digit(#[trigger] whole[i]) >= 0 by {
        if i < body.len() {
            assert(whole[i] == body[i]);
        } else {
            assert(whole[i] == one[0]);
        }
    }
    lemma_not_negative(body);
}

/// A frame says enough only where between 12 and 52 of its bits are set.
pub proof fn law_informative_hashes_are_neither_blank_nor_full(s: Seq<char>)
    requires
        hashes::informative(s),
    ensures
        s.len() == 16,
        hashes::hex_value(s) matches Some(value) && 12 <= differing_bits(value, 0, 64).len() <= 52,
{
    let value = hashes::hex_value(s)->0;
    law_distance_counts_differing_bits(value, 0);
    assert(value ^ 0 == value) by (bit_vector);
}

/// A frame of at most three different bytes says too little.
pub proof fn law_informative_hashes_vary(s: Seq<char>, a: (char, char), b: (char, char), c: (char, char))
    requires
        s.len() == 16,
        forall|i: int|
            #![trigger s[2 * i]]
            0 <= i < 8 ==> (s[2 * i], s[2 * i + 1]) == a || (s[2 * i], s[2 * i + 1]) == b || (
            s[2 * i],
            s[2 * i + 1],
        ) == c,
    ensures
        !hashes::informative(s),
{
    let all = hashes::chunks(s).to_set();
    let three = Set::<(char, char)>::empty().insert(a).insert(b).insert(c);
    assert forall|x: (char, char)| all.contains(x) implies three.contains(x) by {
        let k = choose|k: int| 0 <= k < hashes::chunks(s).len() && hashes::chunks(s)[k] == x;
        assert(s[2 * k] == x.0);
    }
    vstd::set_lib::lemma_len_subset(all, three);
    assert(three.len() <= 3);
}

/// Sixteen digits with 12 to 52 bits set and four different bytes say enough.
pub proof fn law_varied_hashes_are_informative(s: Seq<char>, i: int, j: int, k: int, l: int)
    requires
        s.len() == 16,
        hashes::hex_value(s) matches Some(value) && 12 <= differing_bits(value, 0, 64).len() <= 52,
        0 <= i < 8 && 0 <= j < 8 && 0 <= k < 8 && 0 <= l < 8,
        ({
            let own = |n: int| (s[2 * n], s[2 * n + 1]);
            own(i) != own(j) && own(i) != own(k) && own(i) != own(l) && own(j) != own(k) && own(j)
                != own(l) && own(k) != own(l)
        }),
    ensures
        hashes::informative(s),
{
    let value = hashes::hex_value(s)->0;
    law_distance_counts_differing_bits(value, 0);
    assert(value ^ 0 == value) by (bit_vector);
    let chunks = hashes::chunks(s);
    let all = chunks.to_set();
    vstd::seq_lib::seq_to_set_is_finite(chunks);
    let four = Set::<(char, char)>::empty().insert(chunks[i]).insert(chunks[j]).insert(
        chunks[k],
    ).insert(chunks[l]);
    assert(four.len() == 4);
    assert(four.subset_of(all));
    vstd::set_lib::lemma_len_subset(four, all);
}

/// A plus before the digits of a number does not change it.
pub proof fn law_leading_plus_is_passed_over(s: Seq<char>)
    requires
        s.len() > 0,
        s[0] != '+',
    ensures
        hashes::hex_value(seq!['+'] + s) == hashes::hex_value(s),
{
    assert((seq!['+'] + s).skip(1) =~= s);
}

} // verus!
