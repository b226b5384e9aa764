//! Double-precision numbers carried by their bit patterns.
//!
//! The library compares, orders and stores such numbers; it does no arithmetic on them.
use vstd::prelude::*;

verus! {

/// A double-precision number, as the 64 bits of its IEEE 754 encoding.
#[derive(Debug, Clone, Copy, PartialEq, Eq, Structural)]
pub struct Double {
    pub bits: u64,
}

/// The weight of the sign bit.
pub const SIGN: u64 = 0x8000_0000_0000_0000;

/// The encoding of positive infinity; a larger magnitude is not a number.
pub const INFINITE: u64 = 0x7FF0_0000_0000_0000;

impl Double {
    /// Whether the sign bit is set.
    pub open spec fn negative(self) -> bool {
        self.bits >= SIGN
    }

    /// The encoding without its sign bit.
    pub open spec fn magnitude(self) -> int {
        if self.negative() {
            self.bits - SIGN
        } else {
            self.bits as int
        }
    }

    /// Whether this encodes no number.
    pub open spec fn nan(self) -> bool {
        self.magnitude() > INFINITE
    }

    /// Whether this encodes a finite number.
    pub open spec fn finite(self) -> bool {
        self.magnitude() < INFINITE
    }

    /// An integer that orders encodings as the numbers are ordered; both zeros are 0.
    pub open spec fn rank(self) -> int {
        if self.negative() {
            -self.magnitude()
        } else {
            self.magnitude()
        }
    }

    /// An integer that orders all encodings, the negative zero before the positive one.
    pub open spec fn total_rank(self) -> int {
        if self.negative() {
            -self.magnitude() - 1
        } else {
            self.magnitude()
        }
    }

    /// Whether this is a number less than the number `other`.
    pub open spec fn lt(self, other: Double) -> bool {
        !self.nan() && !other.nan() && self.rank() < other.rank()
    }

    /// Whether this is a number at most the number `other`.
    pub open spec fn le(self, other: Double) -> bool {
        !self.nan() && !other.nan() && self.rank() <= other.rank()
    }

    /// Whether this is a finite number above zero.
    pub open spec fn positive(self) -> bool {
        self.finite() && self.rank() > 0
    }

    /// The larger of two numbers; where one is no number, the other.
    pub open spec fn max_of(self, other: Double) -> Double {
        if self.nan() || self.lt(other) {
            other
        } else {
            self
        }
    }

    /// The smaller of two numbers; where one is no number, the other.
    pub open spec fn min_of(self, other: Double) -> Double {
        if self.nan() || other.lt(self) {
            other
        } else {
            self
        }
    }

    /// The number moved into the range from `low` to `high`.
    pub open spec fn clamped(self, low: Double, high: Double) -> Double {
        if self.lt(low) {
            low
        } else if high.lt(self) {
            high
        } else {
            self
        }
    }

    /// The number with the given encoding.
    #[verifier::allow_in_spec]
    pub fn of(bits: u64) -> Double
        returns
            (Double { bits }),
    {
        Double { bits }
    }

    /// Whether the encoding is that of no number.
    pub fn is_nan(&self) -> (r: bool)
        ensures
            r == self.nan(),
    {
        if self.bits >= SIGN {
            self.bits - SIGN > INFINITE
        } else {
            self.bits > INFINITE
        }
    }

    /// Whether the encoding is that of a finite number.
    pub fn is_finite(&self) -> (r: bool)
        ensures
            r == self.finite(),
    {
        if self.bits >= SIGN {
            self.bits - SIGN < INFINITE
        } else {
            self.bits < INFINITE
        }
    }

    /// The integer that orders the number.
    pub fn order(&self) -> (r: i64)
        ensures
            r == self.rank(),
    {
        if self.bits >= SIGN {
            -((self.bits - SIGN) as i64)
        } else {
            self.bits as i64
        }
    }

    /// The integer that orders the encoding.
    pub fn total_order(&self) -> (r: i64)
        ensures
            r == self.total_rank(),
    {
        if self.bits >= SIGN {
            -((self.bits - SIGN) as i64) - 1
        } else {
            self.bits as i64
        }
    }

    /// Whether this number is less than `other`.
    pub fn less(&self, other: Double) -> (r: bool)
        ensures
            r == self.lt(other),
    {
        !self.is_nan() && !other.is_nan() && self.order() < other.order()
    }

    /// Whether this number is at most `other`.
    pub fn at_most(&self, other: Double) -> (r: bool)
        ensures
            r == self.le(other),
    {
        !self.is_nan() && !other.is_nan() && self.order() <= other.order()
    }

    /// Whether this is a finite number above zero.
    pub fn is_positive(&self) -> (r: bool)
        ensures
            r == self.positive(),
    {
        self.is_finite() && self.order() > 0
    }

    /// The larger of two numbers.
    pub fn max(&self, other: Double) -> (r: Double)
        ensures
            r == self.max_of(other),
    {
        if self.is_nan() || self.less(other) {
            other
        } else {
            *self
        }
    }

    /// The smaller of two numbers.
    pub fn min(&self, other: Double) -> (r: Double)
        ensures
            r == self.min_of(other),
    {
        if self.is_nan() || other.less(*self) {
            other
        } else {
            *self
        }
    }

    /// Moves the number into the range from `low` to `high`.
    pub fn clamp(&self, low: Double, high: Double) -> (r: Double)
        ensures
            r == self.clamped(low, high),
    {
        if self.less(low) {
            low
        } else if high.less(*self) {
            high
        } else {
            *self
        }
    }
}

/// A clamped number lies in the range, whatever number it was.
pub proof fn law_clamped_lies_in_range(value: Double, low: Double, high: Double)
    requires
        !value.nan(),
        low.le(high),
    ensures
        low.le(value.clamped(low, high)),
        value.clamped(low, high).le(high),
{
}

/// Numbers that are not negative are ordered as their encodings are.
pub proof fn law_encodings_order_numbers(a: Double, b: Double)
    requires
        a.bits <= 0x7FF0_0000_0000_0000,
        b.bits <= 0x7FF0_0000_0000_0000,
    ensures
        a.lt(b) <==> a.bits < b.bits,
        a.le(b) <==> a.bits <= b.bits,
{
}

/// Numbers below zero lie below all others, and are ordered against their encodings.
pub proof fn law_negative_numbers_come_first(a: Double, b: Double)
    requires
        0x8000_0000_0000_0000 < a.bits <= 0xFFF0_0000_0000_0000,
        b.bits <= 0xFFF0_0000_0000_0000,
        b.bits <= 0x7FF0_0000_0000_0000 || 0x8000_0000_0000_0000 <= b.bits,
    ensures
        b.bits <= 0x8000_0000_0000_0000 ==> a.lt(b) && !b.le(a),
        b.bits > 0x8000_0000_0000_0000 ==> (a.lt(b) <==> b.bits < a.bits),
{
}

/// What encodes no number is neither below nor above anything.
pub proof fn law_no_number_is_not_compared(a: Double, b: Double)
    requires
        0x7FF0_0000_0000_0000 < a.bits < 0x8000_0000_0000_0000 || a.bits > 0xFFF0_0000_0000_0000,
    ensures
        !a.lt(b) && !a.le(b) && !b.lt(a) && !b.le(a),
        !a.finite(),
{
}

/// The larger and the smaller of two numbers are one of them, and lie on either side of both.
pub proof fn law_larger_and_smaller_bound_both(a: Double, b: Double)
    requires
        a.le(b) || b.le(a),
    ensures
        a.le(a.max_of(b)) && b.le(a.max_of(b)),
        a.min_of(b).le(a) && a.min_of(b).le(b),
        a.max_of(b) == a || a.max_of(b) == b,
        a.min_of(b) == a || a.min_of(b) == b,
{
}

/// A number that lies in a range is not moved.
pub proof fn law_clamping_moves_no_number_within(value: Double, low: Double, high: Double)
    requires
        low.le(value),
        value.le(high),
    ensures
        value.clamped(low, high) == value,
{
}

/// Neither infinity is finite, and only numbers above zero are positive.
pub proof fn law_infinities_are_not_finite(value: Double)
    ensures
        !Double::of(0x7FF0_0000_0000_0000).finite(),
        !Double::of(0xFFF0_0000_0000_0000).finite(),
        value.nan() ==> !value.finite() && !value.positive(),
        value.positive() ==> value.finite() && Double::of(0).lt(value),
        value.finite() && Double::of(0).lt(value) ==> value.positive(),
        value.lt(Double::of(0x7FF0_0000_0000_0000)) && Double::of(0xFFF0_0000_0000_0000).lt(value)
            ==> value.finite(),
{
}

} // verus!
