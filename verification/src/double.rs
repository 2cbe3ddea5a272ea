//! Double-precision numbers by their bit patterns.

use vstd::prelude::*;

verus! {

/// The sign bit of a pattern.
pub const SIGN: u64 = 0x8000_0000_0000_0000;

/// The pattern of positive infinity; a larger magnitude is not a number.
pub const INFINITY: u64 = 0x7ff0_0000_0000_0000;

/// The pattern of 0.
pub const ZERO: u64 = 0;

/// The pattern of 0.25.
pub const QUARTER: u64 = 0x3fd0_0000_0000_0000;

/// The pattern of 0.75.
pub const THREE_QUARTERS: u64 = 0x3fe8_0000_0000_0000;

/// The pattern of 1.
pub const ONE: u64 = 0x3ff0_0000_0000_0000;

/// The pattern of 2.
pub const TWO: u64 = 0x4000_0000_0000_0000;

/// The pattern of 10.
pub const TEN: u64 = 0x4024_0000_0000_0000;

/// The pattern of 20.
pub const TWENTY: u64 = 0x4034_0000_0000_0000;

/// The pattern of 30.
pub const THIRTY: u64 = 0x403e_0000_0000_0000;

/// The pattern of 40.
pub const FORTY: u64 = 0x4044_0000_0000_0000;

/// The pattern of 2400.
pub const TWENTY_FOUR_HUNDRED: u64 = 0x40a2_c000_0000_0000;

/// A double-precision number in the sense of IEEE 754, held as its bit
/// pattern. Among the patterns of one sign, the magnitude grows with the
/// pattern, so numbers can be compared by their patterns alone.
#[derive(Clone, Copy, PartialEq, Eq, Structural, Debug)]
pub struct Double {
    pub bits: u64,
}

impl Double {
    /// The pattern without its sign bit.
    pub open spec fn magnitude(self) -> u64 {
        if self.bits < SIGN {
            self.bits
        } else {
            (self.bits - SIGN) as u64
        }
    }

    /// The pattern stands for no number.
    pub open spec fn is_nan(self) -> bool {
        self.magnitude() > INFINITY
    }

    /// The place of the number in the order of all numbers. The two zeros
    /// share one place.
    pub open spec fn key(self) -> int {
        if self.bits < SIGN {
            self.magnitude() as int
        } else {
            -(self.magnitude() as int)
        }
    }

    /// Both are numbers, and the first is at most the second.
    pub open spec fn spec_le(self, other: Double) -> bool {
        !self.is_nan() && !other.is_nan() && self.key() <= other.key()
    }

    /// Both are numbers, and the first is less than the second.
    pub open spec fn spec_lt(self, other: Double) -> bool {
        !self.is_nan() && !other.is_nan() && self.key() < other.key()
    }

    /// The larger of two numbers, or the one number where the other pattern
    /// stands for none.
    pub open spec fn spec_max(self, other: Double) -> Double {
        if self.is_nan() || self.spec_lt(other) {
            other
        } else {
            self
        }
    }

    /// The number with the given pattern.
    pub fn new(bits: u64) -> (r: Double)
        ensures
            r == (Double { bits }),
    {
        Double { bits }
    }

    /// Whether the pattern stands for no number.
    pub fn nan(&self) -> (r: bool)
        ensures
            r == self.is_nan(),
            r <==> INFINITY < self.bits < SIGN || self.bits > SIGN + INFINITY,
    {
        if self.bits < SIGN {
            self.bits > INFINITY
        } else {
            self.bits - SIGN > INFINITY
        }
    }

    /// Whether both are numbers and the first is at most the second.
    pub fn le(&self, other: &Double) -> (r: bool)
        ensures
            r == self.spec_le(*other),
            self.is_nan() || other.is_nan() ==> !r,
            !self.is_nan() && !other.is_nan() ==> {
                &&& self.bits < SIGN && other.bits < SIGN ==> (r <==> self.bits <= other.bits)
                &&& self.bits >= SIGN && other.bits >= SIGN ==> (r <==> other.bits <= self.bits)
                &&& self.bits >= SIGN && other.bits < SIGN ==> r
                &&& self.bits < SIGN && other.bits >= SIGN ==> (r <==> self.bits == 0
                    && other.bits == SIGN)
            },
    {
        if self.nan() || other.nan() {
            false
        } else if self.bits < SIGN {
            if other.bits < SIGN {
                self.bits <= other.bits
            } else {
                self.bits == 0 && other.bits == SIGN
            }
        } else {
            if other.bits < SIGN {
                true
            } else {
                self.bits >= other.bits
            }
        }
    }

    /// Whether both are numbers and the first is less than the second.
    pub fn lt(&self, other: &Double) -> (r: bool)
        ensures
            r == self.spec_lt(*other),
            self.is_nan() || other.is_nan() ==> !r,
            !self.is_nan() && !other.is_nan() ==> (r <==> !other.spec_le(*self)),
    {
        !self.nan() && !other.nan() && !other.le(self)
    }

    /// The larger of two numbers, or the one number where the other pattern
    /// stands for none.
    pub fn max(&self, other: &Double) -> (r: Double)
        ensures
            r == self.spec_max(*other),
            r == *self || r == *other,
            r.is_nan() ==> self.is_nan() && other.is_nan(),
            !self.is_nan() ==> self.spec_le(r),
            !other.is_nan() ==> other.spec_le(r),
    {
        if self.nan() || self.lt(other) {
            *other
        } else {
            *self
        }
    }

    /// Whether the number lies between `low` and `high`, both included.
    pub fn within(&self, low: &Double, high: &Double) -> (r: bool)
        ensures
            r <==> low.spec_le(*self) && self.spec_le(*high),
    {
        low.le(self) && self.le(high)
    }
}

/// Among numbers of one sign the patterns decide: up with the pattern where
/// the sign bit is clear, down with it where it is set. Every number with the
/// sign bit is at most every number without, and the two zeros are equal. What
/// is no number compares with nothing.
pub proof fn law_patterns_order_the_numbers(a: Double, b: Double)
    ensures
        a.is_nan() <==> INFINITY < a.bits < SIGN || a.bits > SIGN + INFINITY,
        a.is_nan() || b.is_nan() ==> !a.spec_le(b) && !a.spec_lt(b),
        !a.is_nan() && !b.is_nan() ==> {
            &&& a.bits < SIGN && b.bits < SIGN ==> (a.spec_le(b) <==> a.bits <= b.bits)
            &&& a.bits >= SIGN && b.bits >= SIGN ==> (a.spec_le(b) <==> b.bits <= a.bits)
            &&& a.bits >= SIGN && b.bits < SIGN ==> a.spec_le(b)
            &&& a.bits < SIGN && b.bits >= SIGN ==> (a.spec_le(b) <==> a.bits == 0 && b.bits
                == SIGN)
            &&& a.spec_lt(b) <==> !b.spec_le(a)
        },
{
}

/// The larger of two is one of them, a number where one of them is, and less
/// than neither.
pub proof fn law_larger_is_one_of_the_two(a: Double, b: Double)
    ensures
        a.spec_max(b) == a || a.spec_max(b) == b,
        a.spec_max(b).is_nan() ==> a.is_nan() && b.is_nan(),
        !a.is_nan() ==> a.spec_le(a.spec_max(b)),
        !b.is_nan() ==> b.spec_le(a.spec_max(b)),
{
}

} // verus!
