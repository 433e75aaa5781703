//! Single precision numbers, held by their bit patterns.
//!
//! The library orders, bounds and tests such numbers; computing with them is left to its callers.
use vstd::prelude::*;

verus! {

/// An IEEE 754 single precision number.
#[derive(Clone, Copy, Debug, PartialEq, Eq, Structural)]
pub struct Scalar {
    pub bits: u32,
}

impl Scalar {
    /// The pattern without its sign bit.
    pub open spec fn magnitude(self) -> int {
        if self.bits >= 0x8000_0000 {
            self.bits - 0x8000_0000
        } else {
            self.bits as int
        }
    }

    /// The sign bit is set.
    pub open spec fn negative(self) -> bool {
        self.bits >= 0x8000_0000
    }

    /// The pattern stands for no number.
    pub open spec fn nan(self) -> bool {
        self.magnitude() > 0x7f80_0000
    }

    /// The pattern stands for a number that is not infinite.
    pub open spec fn finite(self) -> bool {
        self.magnitude() < 0x7f80_0000
    }

    /// An integer that orders the numbers: of two patterns that are numbers, the smaller number
    /// has the smaller integer, and equal numbers (the two zeros) have the same.
    pub open spec fn order(self) -> int {
        if self.negative() {
            -self.magnitude()
        } else {
            self.magnitude()
        }
    }

    /// The place of the pattern in the total order of all patterns.
    pub open spec fn place(self) -> int {
        if self.negative() {
            -self.magnitude() - 1
        } else {
            self.magnitude()
        }
    }

    /// Both are numbers and `self` is the smaller.
    pub open spec fn below(self, other: Scalar) -> bool {
        !self.nan() && !other.nan() && self.order() < other.order()
    }

    /// Both are numbers and `self` is not the smaller.
    pub open spec fn reaches(self, other: Scalar) -> bool {
        !self.nan() && !other.nan() && self.order() >= other.order()
    }

    fn magnitude_bits(self) -> (m: u32)
        ensures
            m == self.magnitude(),
    {
        if self.bits >= 0x8000_0000 {
            self.bits - 0x8000_0000
        } else {
            self.bits
        }
    }

    /// Whether the pattern stands for no number.
    pub fn is_nan(self) -> (r: bool)
        ensures
            r == self.nan(),
    {
        self.magnitude_bits() > 0x7f80_0000
    }

    /// Whether the pattern stands for a number that is not infinite.
    pub fn is_finite(self) -> (r: bool)
        ensures
            r == self.finite(),
    {
        self.magnitude_bits() < 0x7f80_0000
    }

    /// The number without its sign.
    pub fn abs(self) -> (r: Scalar)
        ensures
            r.bits == self.magnitude(),
    {
        Scalar { bits: self.magnitude_bits() }
    }

    fn order_key(self) -> (r: i64)
        ensures
            r == self.order(),
    {
        if self.bits >= 0x8000_0000 {
            0 - (self.magnitude_bits() as i64)
        } else {
            self.bits as i64
        }
    }

    /// The place of the pattern in the total order of all patterns.
    pub fn place_key(self) -> (r: i128)
        ensures
            r == self.place(),
    {
        if self.bits >= 0x8000_0000 {
            -1 - (self.magnitude_bits() as i128)
        } else {
            self.bits as i128
        }
    }

    /// Whether both are numbers and `self` is the smaller.
    pub fn is_below(self, other: Scalar) -> (r: bool)
        ensures
            r == self.below(other),
    {
        !self.is_nan() && !other.is_nan() && self.order_key() < other.order_key()
    }

    /// Whether both are numbers and `self` is not the smaller.
    pub fn does_reach(self, other: Scalar) -> (r: bool)
        ensures
            r == self.reaches(other),
    {
        !self.is_nan() && !other.is_nan() && self.order_key() >= other.order_key()
    }

    /// What `bounded` returns.
    pub open spec fn spec_bounded(self, low: Scalar, high: Scalar, fallback: Scalar) -> Scalar {
        if !self.finite() {
            fallback
        } else if self.below(low) {
            low
        } else if high.below(self) {
            high
        } else {
            self
        }
    }

    /// `self` bounded by `low` and `high`, or `fallback` where it is not finite.
    pub fn bounded(self, low: Scalar, high: Scalar, fallback: Scalar) -> (r: Scalar)
        ensures
            r == self.spec_bounded(low, high, fallback),
    {
        if !self.is_finite() {
            fallback
        } else if self.is_below(low) {
            low
        } else if high.is_below(self) {
            high
        } else {
            self
        }
    }
}

/// Bounding a bounded number changes nothing, where the bounds and the fallback are themselves
/// finite and in bounds.
pub proof fn bounding_twice_is_bounding_once(x: Scalar, low: Scalar, high: Scalar, fallback: Scalar)
    requires
        low.finite(),
        high.finite(),
        fallback.finite(),
        low.order() <= fallback.order() <= high.order(),
    ensures
        x.spec_bounded(low, high, fallback).spec_bounded(low, high, fallback) == x.spec_bounded(
            low,
            high,
            fallback,
        ),
        x.spec_bounded(low, high, fallback).finite(),
        low.order() <= x.spec_bounded(low, high, fallback).order() <= high.order(),
{
}

} // verus!
