//! Measured figures (rates, percentages, latencies) carried as the bit pattern
//! of an IEEE 754 binary64 value. Comparing two of them needs no arithmetic:
//! the patterns order by sign and magnitude.

use vstd::prelude::*;

verus! {

/// The sign bit of a pattern.
pub const SIGN_BIT: u64 = 0x8000_0000_0000_0000;

/// The pattern of positive infinity; a larger magnitude is not a number.
pub const INFINITY_BITS: u64 = 0x7FF0_0000_0000_0000;

/// A binary64 value, held as its bit pattern.
#[derive(Clone, Copy, Debug, PartialEq, Eq, Structural)]
pub struct Figure {
    pub bits: u64,
}

/// The pattern of `0.0`.
pub const ZERO_BITS: u64 = 0;

/// The pattern of `1.0`.
pub const ONE_BITS: u64 = 0x3FF0_0000_0000_0000;

/// The pattern of `-1.0`.
pub const MINUS_ONE_BITS: u64 = 0xBFF0_0000_0000_0000;

/// The pattern of `100.0`.
pub const HUNDRED_BITS: u64 = 0x4059_0000_0000_0000;

/// The figure with a given pattern.
pub open spec fn figure_of(bits: u64) -> Figure {
    Figure { bits }
}

impl Figure {
    /// The pattern without its sign.
    pub open spec fn magnitude(self) -> int {
        if self.bits >= SIGN_BIT {
            self.bits - SIGN_BIT
        } else {
            self.bits as int
        }
    }

    /// Not a number: ordered against nothing.
    pub open spec fn nan(self) -> bool {
        self.magnitude() > INFINITY_BITS
    }

    /// The place of a number among all others: magnitudes of one sign order
    /// as their patterns do, and the two zeros share a place.
    pub open spec fn place(self) -> int {
        if self.bits >= SIGN_BIT {
            -self.magnitude()
        } else {
            self.magnitude()
        }
    }

    /// `self < other`.
    pub open spec fn below(self, other: Figure) -> bool {
        !self.nan() && !other.nan() && self.place() < other.place()
    }

    /// `self <= other`.
    pub open spec fn at_most(self, other: Figure) -> bool {
        !self.nan() && !other.nan() && self.place() <= other.place()
    }

    /// `self` held to the range between `low` and `high`; what is not a number
    /// stays what it is.
    pub open spec fn clamped(self, low: Figure, high: Figure) -> Figure {
        if self.below(low) {
            low
        } else if high.below(self) {
            high
        } else {
            self
        }
    }

    /// The smaller of the two, or the one that is a number.
    pub open spec fn smaller(self, other: Figure) -> Figure {
        if self.nan() || other.below(self) {
            other
        } else {
            self
        }
    }

    /// The larger of the two, or the one that is a number.
    pub open spec fn larger(self, other: Figure) -> Figure {
        if self.nan() || self.below(other) {
            other
        } else {
            self
        }
    }

    fn strip_sign(self) -> (res: u64)
        ensures
            res == self.magnitude(),
    {
        if self.bits >= SIGN_BIT {
            self.bits - SIGN_BIT
        } else {
            self.bits
        }
    }

    pub fn is_nan(self) -> (res: bool)
        ensures
            res == self.nan(),
    {
        self.strip_sign() > INFINITY_BITS
    }

    pub fn lt(self, other: Figure) -> (res: bool)
        ensures
            res == self.below(other),
    {
        if self.is_nan() || other.is_nan() {
            return false;
        }
        let a: u64 = self.strip_sign();
        let b: u64 = other.strip_sign();
        if self.bits >= SIGN_BIT {
            if other.bits >= SIGN_BIT {
                a > b
            } else {
                a > 0 || b > 0
            }
        } else {
            other.bits < SIGN_BIT && a < b
        }
    }

    pub fn le(self, other: Figure) -> (res: bool)
        ensures
            res == self.at_most(other),
    {
        !self.is_nan() && !other.is_nan() && !other.lt(self)
    }

    pub fn clamp(self, low: Figure, high: Figure) -> (res: Figure)
        requires
            low.at_most(high),
        ensures
            res == self.clamped(low, high),
            !self.nan() ==> low.at_most(res) && res.at_most(high),
    {
        if self.lt(low) {
            low
        } else if high.lt(self) {
            high
        } else {
            self
        }
    }

    pub fn min(self, other: Figure) -> (res: Figure)
        ensures
            res == self.smaller(other),
    {
        if self.is_nan() || other.lt(self) {
            other
        } else {
            self
        }
    }

    pub fn max(self, other: Figure) -> (res: Figure)
        ensures
            res == self.larger(other),
    {
        if self.is_nan() || self.lt(other) {
            other
        } else {
            self
        }
    }
}

/// Numbers are totally ordered: of any two, one is below the other or they
/// share a place, and `below` is transitive.
pub proof fn numbers_are_ordered(a: Figure, b: Figure, c: Figure)
    requires
        !a.nan(),
        !b.nan(),
        !c.nan(),
    ensures
        a.at_most(b) || b.at_most(a),
        a.below(b) <==> !b.at_most(a),
        a.at_most(b) && b.at_most(c) ==> a.at_most(c),
        a.below(b) && b.at_most(c) ==> a.below(c),
{
}

/// Clamping twice to one range is clamping once.
pub proof fn clamping_is_idempotent(a: Figure, low: Figure, high: Figure)
    requires
        low.at_most(high),
    ensures
        a.clamped(low, high).clamped(low, high) == a.clamped(low, high),
{
}

} // verus!
