//! Floating-point readings, held by their bit patterns.
//!
//! The monitor's readings are IEEE 754 binary64 numbers. Their arithmetic and
//! their formatting are done outside the library; what the library decides by
//! a reading, it decides by the order of the bit patterns.

use vstd::prelude::*;

verus! {

/// The bit pattern of minus zero: the sign bit alone.
pub const SIGN_BIT: u64 = 0x8000_0000_0000_0000;

/// The bit pattern of infinity. Larger magnitudes are no numbers.
pub const INFINITY_BITS: u64 = 0x7ff0_0000_0000_0000;

/// A binary64 number, by its bit pattern.
#[derive(Clone, Copy, Debug, PartialEq, Eq, Structural)]
pub struct Real {
    pub bits: u64,
}

impl Real {
    /// The bit pattern without its sign.
    pub open spec fn magnitude(self) -> int {
        if self.bits >= SIGN_BIT {
            self.bits - SIGN_BIT
        } else {
            self.bits as int
        }
    }

    pub open spec fn is_nan(self) -> bool {
        self.magnitude() > INFINITY_BITS
    }

    /// The place of a number among the numbers: numbers of the same rank are
    /// equal, and a number is larger than another if its rank is.
    pub open spec fn rank(self) -> int {
        if self.bits >= SIGN_BIT {
            -self.magnitude()
        } else {
            self.magnitude()
        }
    }

    /// `self >= other`.
    pub open spec fn at_least(self, other: Real) -> bool {
        !self.is_nan() && !other.is_nan() && self.rank() >= other.rank()
    }

    /// `self == other`.
    pub open spec fn equals(self, other: Real) -> bool {
        !self.is_nan() && !other.is_nan() && self.rank() == other.rank()
    }

    /// `self > 0.0`.
    pub open spec fn positive(self) -> bool {
        !self.is_nan() && self.rank() > 0
    }

    /// `self == 0.0`, of either sign.
    pub open spec fn zero(self) -> bool {
        self.rank() == 0
    }

    /// Zero.
    pub open spec fn spec_nought() -> Real {
        Real { bits: 0 }
    }

    /// Zero.
    #[verifier::when_used_as_spec(spec_nought)]
    pub fn nought() -> (r: Real)
        ensures
            r == Real::spec_nought(),
    {
        Real { bits: 0 }
    }

    fn order(self) -> (r: i128)
        ensures
            r == self.rank(),
    {
        if self.bits >= SIGN_BIT {
            -((self.bits - SIGN_BIT) as i128)
        } else {
            self.bits as i128
        }
    }

    /// Whether this is a number.
    pub fn is_number(self) -> (r: bool)
        ensures
            r == !self.is_nan(),
    {
        let magnitude: u64 = if self.bits >= SIGN_BIT {
            self.bits - SIGN_BIT
        } else {
            self.bits
        };
        magnitude <= INFINITY_BITS
    }

    /// Whether `self >= other`.
    pub fn reaches(self, other: Real) -> (r: bool)
        ensures
            r == self.at_least(other),
    {
        self.is_number() && other.is_number() && self.order() >= other.order()
    }

    /// Whether `self == other`.
    pub fn same_as(self, other: Real) -> (r: bool)
        ensures
            r == self.equals(other),
    {
        self.is_number() && other.is_number() && self.order() == other.order()
    }

    /// Whether `self > 0.0`.
    pub fn is_positive(self) -> (r: bool)
        ensures
            r == self.positive(),
    {
        self.is_number() && self.order() > 0
    }

    /// Whether `self == 0.0`.
    pub fn is_zero(self) -> (r: bool)
        ensures
            r == self.zero(),
    {
        self.order() == 0
    }
}

/// The reading, or zero where there is none.
pub open spec fn spec_or_nought(x: Option<Real>) -> Real {
    match x {
        Some(v) => v,
        None => Real::nought(),
    }
}

/// The reading, or zero where there is none.
#[verifier::when_used_as_spec(spec_or_nought)]
pub fn or_nought(x: Option<Real>) -> (r: Real)
    ensures
        r == spec_or_nought(x),
{
    match x {
        Some(v) => v,
        None => Real::nought(),
    }
}

/// The reading where it is above zero.
pub open spec fn spec_if_positive(x: Option<Real>) -> Option<Real> {
    match x {
        Some(v) => if v.positive() {
            Some(v)
        } else {
            None
        },
        None => None,
    }
}

/// The reading where it is above zero.
#[verifier::when_used_as_spec(spec_if_positive)]
pub fn if_positive(x: Option<Real>) -> (r: Option<Real>)
    ensures
        r == spec_if_positive(x),
{
    match x {
        Some(v) => if v.is_positive() {
            Some(v)
        } else {
            None
        },
        None => None,
    }
}

/// Equality of readings is symmetric, and holds of every number and itself.
pub proof fn law_equality(a: Real, b: Real)
    ensures
        a.equals(b) == b.equals(a),
        a.equals(a) == !a.is_nan(),
{
}

/// Two numbers are equal where neither is below the other, and one of two
/// numbers is always at least the other.
pub proof fn law_order(a: Real, b: Real)
    requires
        !a.is_nan(),
        !b.is_nan(),
    ensures
        a.at_least(b) || b.at_least(a),
        a.at_least(b) && b.at_least(a) <==> a.equals(b),
{
}

} // verus!
