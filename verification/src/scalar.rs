//! Sixty-four-bit binary floating-point numbers, held as their bit patterns.
//!
//! The library decides with measured numbers (is it finite, is it above a gate) and moves them
//! around, but leaves the arithmetic on them to a [`crate::numerics::Numerics`]. What a decision
//! reads of a number is fixed by its bits, so that is what a [`Scalar`] holds.

use vstd::prelude::*;

verus! {

/// The sign bit: patterns from here up stand for negative numbers.
pub const SIGN_BIT: u64 = 0x8000_0000_0000_0000;

/// The pattern of positive infinity: a larger magnitude is not a number.
pub const INFINITE_BITS: u64 = 0x7ff0_0000_0000_0000;

/// A floating-point number by its IEEE 754 binary64 bit pattern.
///
/// `==` compares patterns, so it tells the two zeros apart; [`Scalar::lt`] and the tests against
/// zero go by the number.
#[derive(Clone, Copy, Debug, PartialEq, Eq, Structural)]
pub struct Scalar {
    pub bits: u64,
}

impl Scalar {
    /// The number is below zero, or a negative zero.
    pub open spec fn signed(self) -> bool {
        self.bits >= SIGN_BIT
    }

    /// The pattern without its sign: it grows with the distance from zero.
    pub open spec fn magnitude(self) -> int {
        if self.signed() {
            self.bits - SIGN_BIT
        } else {
            self.bits as int
        }
    }

    /// The pattern stands for no number.
    pub open spec fn nan(self) -> bool {
        self.magnitude() > INFINITE_BITS
    }

    /// The pattern stands for a number other than the infinities.
    pub open spec fn finite(self) -> bool {
        self.magnitude() < INFINITE_BITS
    }

    /// Where the number stands in the order of all numbers; both zeros stand at 0.
    pub open spec fn rank(self) -> int {
        if self.signed() {
            -self.magnitude()
        } else {
            self.magnitude()
        }
    }

    /// `self < other` as numbers: false whenever one of them is not a number.
    pub open spec fn below(self, other: Scalar) -> bool {
        !self.nan() && !other.nan() && self.rank() < other.rank()
    }

    /// `self <= other` as numbers: false whenever one of them is not a number.
    pub open spec fn at_most(self, other: Scalar) -> bool {
        !self.nan() && !other.nan() && self.rank() <= other.rank()
    }

    /// `self > 0` as a number.
    pub open spec fn positive(self) -> bool {
        !self.nan() && self.rank() > 0
    }

    /// `self < 0` as a number.
    pub open spec fn negative(self) -> bool {
        !self.nan() && self.rank() < 0
    }

    /// The same number with the other sign.
    pub open spec fn opposite(self) -> Scalar {
        if self.signed() {
            Scalar { bits: (self.bits - SIGN_BIT) as u64 }
        } else {
            Scalar { bits: (self.bits + SIGN_BIT) as u64 }
        }
    }

    /// The same number with the other sign.
    pub fn negated(self) -> (r: Scalar)
        ensures
            r == self.opposite(),
    {
        if self.bits >= SIGN_BIT {
            Scalar { bits: self.bits - SIGN_BIT }
        } else {
            Scalar { bits: self.bits + SIGN_BIT }
        }
    }

    /// Positive zero.
    pub open spec fn spec_zero() -> Scalar {
        Scalar { bits: 0 }
    }

    /// Positive zero.
    #[verifier::when_used_as_spec(spec_zero)]
    pub fn zero() -> (z: Scalar)
        ensures
            z == Scalar::spec_zero(),
    {
        Scalar { bits: 0 }
    }

    /// One.
    pub open spec fn spec_one() -> Scalar {
        Scalar { bits: 0x3ff0_0000_0000_0000 }
    }

    /// One.
    #[verifier::when_used_as_spec(spec_one)]
    pub fn one() -> (z: Scalar)
        ensures
            z == Scalar::spec_one(),
    {
        Scalar { bits: 0x3ff0_0000_0000_0000 }
    }

    /// Positive infinity.
    pub open spec fn spec_infinity() -> Scalar {
        Scalar { bits: INFINITE_BITS }
    }

    /// Positive infinity.
    #[verifier::when_used_as_spec(spec_infinity)]
    pub fn infinity() -> (z: Scalar)
        ensures
            z == Scalar::spec_infinity(),
    {
        Scalar { bits: INFINITE_BITS }
    }

    /// Minus one.
    pub open spec fn spec_minus_one() -> Scalar {
        Scalar { bits: 0xbff0_0000_0000_0000 }
    }

    /// Minus one.
    #[verifier::when_used_as_spec(spec_minus_one)]
    pub fn minus_one() -> (z: Scalar)
        ensures
            z == Scalar::spec_minus_one(),
    {
        Scalar { bits: 0xbff0_0000_0000_0000 }
    }

    /// A number by its bit pattern.
    pub fn from_bits(bits: u64) -> (s: Scalar)
        ensures
            s.bits == bits,
    {
        Scalar { bits }
    }

    fn unsigned_bits(self) -> (m: u64)
        ensures
            m == self.magnitude(),
    {
        if self.bits >= SIGN_BIT {
            self.bits - SIGN_BIT
        } else {
            self.bits
        }
    }

    /// Whether the pattern stands for no number.
    pub fn is_nan(self) -> (r: bool)
        ensures
            r == self.nan(),
    {
        self.unsigned_bits() > INFINITE_BITS
    }

    /// Whether the number is neither infinite nor missing.
    pub fn is_finite(self) -> (r: bool)
        ensures
            r == self.finite(),
    {
        self.unsigned_bits() < INFINITE_BITS
    }

    /// `self < other`, as floating-point comparison has it.
    pub fn lt(self, other: Scalar) -> (r: bool)
        ensures
            r == self.below(other),
    {
        if self.is_nan() || other.is_nan() {
            return false;
        }
        let a: u64 = self.unsigned_bits();
        let b: u64 = other.unsigned_bits();
        if self.bits >= SIGN_BIT {
            if other.bits >= SIGN_BIT {
                b < a
            } else {
                a > 0 || b > 0
            }
        } else if other.bits >= SIGN_BIT {
            false
        } else {
            a < b
        }
    }

    /// `self <= other`, as floating-point comparison has it.
    pub fn le(self, other: Scalar) -> (r: bool)
        ensures
            r == self.at_most(other),
    {
        !self.is_nan() && !other.is_nan() && !other.lt(self)
    }

    /// `self > 0`.
    pub fn is_positive(self) -> (r: bool)
        ensures
            r == self.positive(),
    {
        Scalar::zero().lt(self)
    }

    /// `self < 0`.
    pub fn is_negative(self) -> (r: bool)
        ensures
            r == self.negative(),
    {
        self.lt(Scalar::zero())
    }

    /// Whether the pattern is one of the two zeros.
    pub fn is_zero(self) -> (r: bool)
        ensures
            r == (self.magnitude() == 0),
    {
        self.unsigned_bits() == 0
    }
}

/// A single-precision number by its bit pattern.
#[derive(Clone, Copy, Debug, PartialEq, Eq, Structural)]
pub struct Single {
    pub bits: u32,
}

impl Single {
    /// One.
    pub open spec fn spec_one() -> Single {
        Single { bits: 0x3f80_0000 }
    }

    /// One.
    #[verifier::when_used_as_spec(spec_one)]
    pub fn one() -> (z: Single)
        ensures
            z == Single::spec_one(),
    {
        Single { bits: 0x3f80_0000 }
    }
}

/// The larger of two numbers; one that is not a number gives way to the other.
pub open spec fn spec_larger(a: Scalar, b: Scalar) -> Scalar {
    if a.nan() || a.below(b) {
        b
    } else {
        a
    }
}

/// The larger of two numbers; one that is not a number gives way to the other.
pub fn larger(a: Scalar, b: Scalar) -> (r: Scalar)
    ensures
        r == spec_larger(a, b),
{
    if a.is_nan() || a.lt(b) {
        b
    } else {
        a
    }
}

/// The smaller of two numbers; one that is not a number gives way to the other.
pub open spec fn spec_smaller(a: Scalar, b: Scalar) -> Scalar {
    if a.nan() || b.below(a) {
        b
    } else {
        a
    }
}

/// The smaller of two numbers; one that is not a number gives way to the other.
pub fn smaller(a: Scalar, b: Scalar) -> (r: Scalar)
    ensures
        r == spec_smaller(a, b),
{
    if a.is_nan() || b.lt(a) {
        b
    } else {
        a
    }
}

} // verus!
