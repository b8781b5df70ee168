use vstd::prelude::*;

verus! {

/// A single-precision IEEE 754 number, carried by its bit pattern.
///
/// The library never computes with such a number. It passes it through, tells
/// whether it is zero or finite, and compares two of them for numeric equality.
#[derive(Clone, Copy, Debug, PartialEq, Eq, Structural)]
pub struct Scalar {
    pub bits: u32,
}

/// The bits of a pattern without its sign.
pub const MAGNITUDE_MASK: u32 = 0x7fff_ffff;

/// The magnitude of positive infinity; every larger magnitude is not a number.
pub const INFINITY_MAGNITUDE: u32 = 0x7f80_0000;

impl Scalar {
    /// The bit pattern without its sign bit.
    pub open spec fn magnitude(self) -> u32 {
        self.bits & MAGNITUDE_MASK
    }

    /// Positive or negative zero.
    pub open spec fn zero(self) -> bool {
        self.magnitude() == 0
    }

    /// Neither an infinity nor a not-a-number pattern.
    pub open spec fn finite(self) -> bool {
        self.magnitude() < INFINITY_MAGNITUDE
    }

    /// A not-a-number pattern.
    pub open spec fn nan(self) -> bool {
        self.magnitude() > INFINITY_MAGNITUDE
    }

    /// Numeric equality: a not-a-number equals nothing, the two zeros equal
    /// each other, and every other value equals only its own pattern.
    pub open spec fn equals(self, other: Scalar) -> bool {
        &&& !self.nan()
        &&& !other.nan()
        &&& (self.bits == other.bits || (self.zero() && other.zero()))
    }

    pub fn from_bits(bits: u32) -> (s: Scalar)
        ensures
            s.bits == bits,
    {
        Scalar { bits }
    }

    pub fn is_zero(self) -> (r: bool)
        ensures
            r == self.zero(),
    {
        self.bits & MAGNITUDE_MASK == 0
    }

    pub fn is_finite(self) -> (r: bool)
        ensures
            r == self.finite(),
    {
        self.bits & MAGNITUDE_MASK < INFINITY_MAGNITUDE
    }

    pub fn is_nan(self) -> (r: bool)
        ensures
            r == self.nan(),
    {
        self.bits & MAGNITUDE_MASK > INFINITY_MAGNITUDE
    }

    pub fn same_value(self, other: Scalar) -> (r: bool)
        ensures
            r == self.equals(other),
    {
        !self.is_nan() && !other.is_nan() && (self.bits == other.bits || (self.is_zero()
            && other.is_zero()))
    }
}

/// Numeric equality is symmetric.
pub proof fn lemma_equals_symmetric(a: Scalar, b: Scalar)
    ensures
        a.equals(b) == b.equals(a),
{
}

/// Two zeros are equal whatever their signs, and a not-a-number is not even
/// equal to itself.
pub proof fn lemma_equals_edges(a: Scalar, b: Scalar)
    ensures
        a.zero() && b.zero() ==> a.equals(b),
        a.nan() ==> !a.equals(a),
        !a.nan() ==> a.equals(a),
{
    assert(a.zero() ==> !a.nan());
    assert(b.zero() ==> !b.nan());
}

} // verus!
