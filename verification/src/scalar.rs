//! A double-precision number held as its IEEE-754 bit pattern.

use vstd::prelude::*;

verus! {

/// The bit that carries the sign.
pub const SIGN_BIT: u64 = 0x8000_0000_0000_0000;

/// The pattern of positive infinity: every exponent bit set, no fraction bit.
pub const INFINITY_BITS: u64 = 0x7ff0_0000_0000_0000;

/// A double-precision number, stored as the 64 bits of its binary64 encoding.
///
/// `==` on two scalars compares the encodings. The numeric comparisons, under
/// which the two zeros are equal and a NaN is unordered, are [`Scalar::lt`],
/// [`Scalar::gt`], [`Scalar::le`], [`Scalar::ge`] and [`Scalar::same_value`].
#[derive(Clone, Copy, Debug, PartialEq, Eq, Hash, Structural)]
pub struct Scalar {
    pub bits: u64,
}

impl Scalar {
    /// The encoding without its sign bit.
    pub open spec fn magnitude(self) -> int {
        self.bits as int % 0x8000_0000_0000_0000
    }

    /// The sign bit is set.
    pub open spec fn sign_set(self) -> bool {
        self.bits >= SIGN_BIT
    }

    /// Not a number: the exponent is all ones and the fraction is not zero.
    pub open spec fn nan(self) -> bool {
        self.magnitude() > INFINITY_BITS
    }

    /// Positive or negative zero.
    pub open spec fn zero_valued(self) -> bool {
        self.magnitude() == 0
    }

    /// Positive or negative infinity.
    pub open spec fn infinite(self) -> bool {
        self.magnitude() == INFINITY_BITS
    }

    /// An integer that orders the numbers that are not NaN as their values are
    /// ordered: the magnitude for a clear sign bit, its negation for a set one.
    pub open spec fn rank(self) -> int {
        if self.sign_set() {
            -self.magnitude()
        } else {
            self.magnitude()
        }
    }

    /// `self < other` as numbers; false when either is NaN.
    pub open spec fn less(self, other: Scalar) -> bool {
        !self.nan() && !other.nan() && self.rank() < other.rank()
    }

    /// `self == other` as numbers; false when either is NaN.
    pub open spec fn equal_value(self, other: Scalar) -> bool {
        !self.nan() && !other.nan() && self.rank() == other.rank()
    }

    /// The number with the opposite sign bit.
    pub open spec fn negated(self) -> Scalar {
        if self.sign_set() {
            Scalar { bits: (self.bits - SIGN_BIT) as u64 }
        } else {
            Scalar { bits: (self.bits + SIGN_BIT) as u64 }
        }
    }

    /// The scalar with the given encoding.
    pub fn from_bits(bits: u64) -> (s: Scalar)
        ensures
            s.bits == bits,
    {
        Scalar { bits }
    }

    /// The encoding.
    pub fn to_bits(&self) -> (bits: u64)
        ensures
            bits == self.bits,
    {
        self.bits
    }

    /// Positive zero.
    pub fn zero() -> (s: Scalar)
        ensures
            s.bits == 0,
            s.zero_valued(),
            !s.nan(),
    {
        Scalar { bits: 0 }
    }

    /// Positive infinity.
    pub fn infinity() -> (s: Scalar)
        ensures
            s.bits == INFINITY_BITS,
            s.infinite(),
            !s.nan(),
            !s.sign_set(),
    {
        Scalar { bits: INFINITY_BITS }
    }

    fn magnitude_bits(&self) -> (m: u64)
        ensures
            m == self.magnitude(),
            m < SIGN_BIT,
    {
        self.bits % SIGN_BIT
    }

    /// Whether the number is NaN.
    pub fn is_nan(&self) -> (r: bool)
        ensures
            r == self.nan(),
    {
        self.magnitude_bits() > INFINITY_BITS
    }

    /// Whether the number is positive or negative zero.
    pub fn is_zero(&self) -> (r: bool)
        ensures
            r == self.zero_valued(),
    {
        self.magnitude_bits() == 0
    }

    /// Whether the number is positive or negative infinity.
    pub fn is_infinite(&self) -> (r: bool)
        ensures
            r == self.infinite(),
    {
        self.magnitude_bits() == INFINITY_BITS
    }

    /// Whether the sign bit is set.
    pub fn is_sign_negative(&self) -> (r: bool)
        ensures
            r == self.sign_set(),
    {
        self.bits >= SIGN_BIT
    }

    /// `self < other` as numbers.
    pub fn lt(&self, other: &Scalar) -> (r: bool)
        ensures
            r == self.less(*other),
    {
        if self.is_nan() || other.is_nan() {
            return false;
        }
        let a: u64 = self.magnitude_bits();
        let b: u64 = other.magnitude_bits();
        if self.is_sign_negative() {
            if other.is_sign_negative() {
                b < a
            } else {
                a > 0 || b > 0
            }
        } else {
            if other.is_sign_negative() {
                false
            } else {
                a < b
            }
        }
    }

    /// `self > other` as numbers.
    pub fn gt(&self, other: &Scalar) -> (r: bool)
        ensures
            r == other.less(*self),
    {
        other.lt(self)
    }

    /// `self == other` as numbers: the two zeros are equal, a NaN equals nothing.
    pub fn same_value(&self, other: &Scalar) -> (r: bool)
        ensures
            r == self.equal_value(*other),
    {
        if self.is_nan() || other.is_nan() {
            return false;
        }
        let a: u64 = self.magnitude_bits();
        let b: u64 = other.magnitude_bits();
        if a == 0 && b == 0 {
            true
        } else {
            self.bits == other.bits
        }
    }

    /// `self <= other` as numbers.
    pub fn le(&self, other: &Scalar) -> (r: bool)
        ensures
            r == (self.less(*other) || self.equal_value(*other)),
    {
        self.lt(other) || self.same_value(other)
    }

    /// `self >= other` as numbers.
    pub fn ge(&self, other: &Scalar) -> (r: bool)
        ensures
            r == (other.less(*self) || self.equal_value(*other)),
    {
        other.lt(self) || self.same_value(other)
    }

    /// The number with its sign flipped. A NaN stays a NaN.
    pub fn neg(&self) -> (r: Scalar)
        ensures
            r == self.negated(),
            r.magnitude() == self.magnitude(),
            r.sign_set() == !self.sign_set(),
            r.nan() == self.nan(),
    {
        if self.bits >= SIGN_BIT {
            Scalar { bits: self.bits - SIGN_BIT }
        } else {
            Scalar { bits: self.bits + SIGN_BIT }
        }
    }
}

/// Among the numbers, `less` is a strict order: nothing is below itself, and
/// what is below a number that is below a third is below the third.
pub proof fn less_is_strict_order(a: Scalar, b: Scalar, c: Scalar)
    ensures
        !a.less(a),
        a.less(b) ==> !b.less(a),
        a.less(b) && b.less(c) ==> a.less(c),
{
}

/// Two numbers, neither of them NaN, are ordered one way or the other or have
/// the same value; a NaN is never below, above or equal to anything.
pub proof fn less_is_total_on_numbers(a: Scalar, b: Scalar)
    ensures
        !a.nan() && !b.nan() ==> a.less(b) || b.less(a) || a.equal_value(b),
        a.nan() || b.nan() ==> !a.less(b) && !b.less(a) && !a.equal_value(b),
{
}

/// Every number that is not NaN is at most positive infinity.
pub proof fn infinity_is_greatest(a: Scalar)
    requires
        !a.nan(),
    ensures
        !(Scalar { bits: INFINITY_BITS }).less(a),
{
}

} // verus!
