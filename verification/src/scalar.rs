//! Real numbers as the verifier can compare them.
//!
//! The tracer computes in IEEE 754 single precision. Such a number is carried here by its
//! bit pattern: a sign bit above 31 bits of magnitude. Among patterns that are not NaN a
//! larger magnitude is a number further from zero, so comparing signed magnitudes compares
//! the numbers. Arithmetic is the caller's business; comparing is done here.

use vstd::prelude::*;

verus! {

/// The bit that holds the sign.
pub const SIGN_BIT: u32 = 0x8000_0000;

/// The bit pattern of positive infinity. A larger magnitude is a NaN.
pub const INFINITY_BITS: u32 = 0x7f80_0000;

/// A single-precision number, by its bit pattern. `==` compares patterns, not numbers:
/// it tells the two zeros apart and takes a NaN to equal itself.
#[derive(Clone, Copy, Debug, PartialEq, Eq, Structural)]
pub struct Scalar {
    pub bits: u32,
}

impl Scalar {
    /// The bits below the sign bit, read as a number.
    pub open spec fn magnitude(self) -> int {
        self.bits as int % (SIGN_BIT as int)
    }

    /// Whether the sign bit is set.
    pub open spec fn is_negative(self) -> bool {
        self.bits >= SIGN_BIT
    }

    /// Whether the pattern is that of a NaN, which compares with nothing.
    pub open spec fn is_nan(self) -> bool {
        self.magnitude() > INFINITY_BITS
    }

    /// The signed magnitude. Two numbers that are not NaN compare as their ranks do; the
    /// two zeros share rank 0.
    pub open spec fn rank(self) -> int {
        if self.is_negative() {
            -self.magnitude()
        } else {
            self.magnitude()
        }
    }

    /// `self < other` as numbers: false as soon as either is a NaN.
    pub open spec fn lt(self, other: Scalar) -> bool {
        !self.is_nan() && !other.is_nan() && self.rank() < other.rank()
    }

    /// `self <= other` as numbers: false as soon as either is a NaN.
    pub open spec fn le(self, other: Scalar) -> bool {
        !self.is_nan() && !other.is_nan() && self.rank() <= other.rank()
    }

    /// Whether the number is negative: below zero, so neither a zero nor a NaN.
    pub open spec fn is_below_zero(self) -> bool {
        !self.is_nan() && self.rank() < 0
    }

    /// Whether the number is positive: above zero, so neither a zero nor a NaN.
    pub open spec fn is_above_zero(self) -> bool {
        !self.is_nan() && self.rank() > 0
    }

    /// Whether the number lies below positive infinity.
    pub open spec fn is_below_infinity(self) -> bool {
        !self.is_nan() && self.rank() < INFINITY_BITS
    }

    /// The number with the given bit pattern.
    pub fn from_bits(bits: u32) -> (s: Scalar)
        ensures
            s.bits == bits,
    {
        Scalar { bits }
    }

    /// The bit pattern of the number.
    pub fn to_bits(self) -> (bits: u32)
        ensures
            bits == self.bits,
    {
        self.bits
    }

    /// Sign and magnitude.
    fn split(self) -> (parts: (bool, u32))
        ensures
            parts.0 == self.is_negative(),
            parts.1 == self.magnitude(),
    {
        if self.bits >= SIGN_BIT {
            (true, self.bits - SIGN_BIT)
        } else {
            (false, self.bits)
        }
    }

    /// Whether `self < other` as numbers.
    pub fn less_than(self, other: Scalar) -> (yes: bool)
        ensures
            yes == self.lt(other),
    {
        let (self_negative, self_magnitude) = self.split();
        let (other_negative, other_magnitude) = other.split();
        if self_magnitude > INFINITY_BITS || other_magnitude > INFINITY_BITS {
            false
        } else if self_negative && other_negative {
            self_magnitude > other_magnitude
        } else if self_negative {
            self_magnitude > 0 || other_magnitude > 0
        } else if other_negative {
            false
        } else {
            self_magnitude < other_magnitude
        }
    }

    /// Whether `self <= other` as numbers.
    pub fn at_most(self, other: Scalar) -> (yes: bool)
        ensures
            yes == self.le(other),
    {
        let (self_negative, self_magnitude) = self.split();
        let (other_negative, other_magnitude) = other.split();
        if self_magnitude > INFINITY_BITS || other_magnitude > INFINITY_BITS {
            false
        } else if self_negative && other_negative {
            self_magnitude >= other_magnitude
        } else if self_negative {
            true
        } else if other_negative {
            self_magnitude == 0 && other_magnitude == 0
        } else {
            self_magnitude <= other_magnitude
        }
    }

    /// Whether the pattern is that of a NaN.
    pub fn not_a_number(self) -> (yes: bool)
        ensures
            yes == self.is_nan(),
    {
        let (_, magnitude) = self.split();
        magnitude > INFINITY_BITS
    }

    /// Whether the number is negative.
    pub fn below_zero(self) -> (yes: bool)
        ensures
            yes == self.is_below_zero(),
    {
        let (negative, magnitude) = self.split();
        negative && 0 < magnitude && magnitude <= INFINITY_BITS
    }

    /// Whether the number is positive.
    pub fn above_zero(self) -> (yes: bool)
        ensures
            yes == self.is_above_zero(),
    {
        let (negative, magnitude) = self.split();
        !negative && 0 < magnitude && magnitude <= INFINITY_BITS
    }

    /// Whether the number lies below positive infinity.
    pub fn below_infinity(self) -> (yes: bool)
        ensures
            yes == self.is_below_infinity(),
    {
        let (negative, magnitude) = self.split();
        magnitude < INFINITY_BITS || (negative && magnitude == INFINITY_BITS)
    }
}

/// Among numbers that are not NaN, `lt` is a strict order that leaves only equal ranks
/// unordered: it is irreflexive and transitive, and of two numbers with different ranks
/// one is less than the other. The tests against zero and infinity are `lt` against the
/// patterns of zero and of positive infinity.
pub proof fn lemma_lt_orders(a: Scalar, b: Scalar, c: Scalar)
    ensures
        !a.lt(a),
        a.lt(b) && b.lt(c) ==> a.lt(c),
        !a.is_nan() && !b.is_nan() ==> (a.lt(b) || b.lt(a) || a.rank() == b.rank()),
        a.le(b) <==> !a.is_nan() && !b.is_nan() && !b.lt(a),
        a.is_below_zero() <==> a.lt(Scalar { bits: 0 }),
        a.is_above_zero() <==> (Scalar { bits: 0 }).lt(a),
        a.is_below_infinity() <==> a.lt(Scalar { bits: INFINITY_BITS }),
{
}

} // verus!
