//! Real-valued parameters, held by their bit patterns.

use vstd::prelude::*;

verus! {

/// A real-valued parameter, held as the IEEE 754 binary64 bit pattern of its value. The library
/// carries such values and compares them; it does not compute with them.
#[derive(Debug, Clone, Copy, PartialEq, Eq, Structural)]
pub struct Real {
    pub bits: u64,
}

/// The bit pattern of 1.
pub const ONE_BITS: u64 = 0x3ff0_0000_0000_0000;

/// The bit pattern of the number before 1.
pub const BELOW_ONE_BITS: u64 = 0x3fef_ffff_ffff_ffff;

/// The bit pattern of one half.
pub const HALF_BITS: u64 = 0x3fe0_0000_0000_0000;

/// The bit pattern of the distance between 1 and the next number.
pub const EPSILON_BITS: u64 = 0x3cb0_0000_0000_0000;

/// The bit pattern of infinity.
pub const INFINITY_BITS: u64 = 0x7ff0_0000_0000_0000;

/// The bit of the sign.
pub const SIGN_BIT: u64 = 0x8000_0000_0000_0000;

impl Real {
    /// The bit pattern of the absolute value.
    pub open spec fn magnitude(self) -> u64 {
        if self.bits >= SIGN_BIT {
            (self.bits - SIGN_BIT) as u64
        } else {
            self.bits
        }
    }

    /// Whether the absolute value is below the distance between 1 and the next number.
    pub open spec fn is_negligible(self) -> bool {
        self.magnitude() < EPSILON_BITS
    }

    /// Whether the distance to 1 is below the distance between 1 and the next number.
    pub open spec fn is_unit(self) -> bool {
        self.bits == ONE_BITS || self.bits == BELOW_ONE_BITS
    }

    /// Zero.
    pub fn zero() -> (r: Real)
        ensures
            r.bits == 0,
    {
        Real { bits: 0 }
    }

    /// One.
    pub fn one() -> (r: Real)
        ensures
            r.bits == ONE_BITS,
    {
        Real { bits: ONE_BITS }
    }

    /// One half.
    pub fn half() -> (r: Real)
        ensures
            r.bits == HALF_BITS,
    {
        Real { bits: HALF_BITS }
    }

    /// Whether the absolute value is too small to matter.
    pub fn negligible(self) -> (r: bool)
        ensures
            r == self.is_negligible(),
    {
        let m: u64 = if self.bits >= SIGN_BIT {
            self.bits - SIGN_BIT
        } else {
            self.bits
        };
        m < EPSILON_BITS
    }

    /// Whether the distance to 1 is too small to matter.
    pub fn unit(self) -> (r: bool)
        ensures
            r == self.is_unit(),
    {
        self.bits == ONE_BITS || self.bits == BELOW_ONE_BITS
    }

    /// Whether the value differs from zero.
    pub open spec fn is_nonzero(self) -> bool {
        self.magnitude() != 0
    }

    /// Whether the value is above the positive number, or zero, with this bit pattern.
    pub open spec fn is_above(self, bits: u64) -> bool {
        bits < self.bits <= INFINITY_BITS
    }

    /// Whether the value is below the positive number with this bit pattern.
    pub open spec fn is_below(self, bits: u64) -> bool {
        self.bits < bits || SIGN_BIT <= self.bits <= SIGN_BIT + INFINITY_BITS
    }

    /// Whether the absolute value is above the positive number with this bit pattern.
    pub open spec fn is_beyond(self, bits: u64) -> bool {
        bits < self.magnitude() <= INFINITY_BITS
    }

    /// Whether the value differs from zero.
    pub fn nonzero(self) -> (r: bool)
        ensures
            r == self.is_nonzero(),
    {
        self.bits != 0 && self.bits != SIGN_BIT
    }

    /// Whether the value is above a positive number, or zero.
    pub fn above(self, bits: u64) -> (r: bool)
        ensures
            r == self.is_above(bits),
    {
        bits < self.bits && self.bits <= INFINITY_BITS
    }

    /// Whether the value is below a positive number.
    pub fn below(self, bits: u64) -> (r: bool)
        ensures
            r == self.is_below(bits),
    {
        self.bits < bits || (SIGN_BIT <= self.bits && self.bits <= SIGN_BIT + INFINITY_BITS)
    }

    /// Whether the absolute value is above a positive number.
    pub fn beyond(self, bits: u64) -> (r: bool)
        ensures
            r == self.is_beyond(bits),
    {
        let m: u64 = if self.bits >= SIGN_BIT {
            self.bits - SIGN_BIT
        } else {
            self.bits
        };
        bits < m && m <= INFINITY_BITS
    }

    /// Whether this is a number at all.
    pub open spec fn is_number(self) -> bool {
        self.magnitude() <= INFINITY_BITS
    }

    /// The place of the value among all values: smaller values have smaller places, and the two
    /// zeros share one.
    pub open spec fn place(self) -> u64 {
        if self.magnitude() == 0 {
            SIGN_BIT
        } else if self.bits > SIGN_BIT {
            (u64::MAX - self.bits) as u64
        } else {
            (self.bits + SIGN_BIT) as u64
        }
    }

    /// Whether the value is smaller than another.
    pub open spec fn is_less(self, other: Real) -> bool {
        self.is_number() && other.is_number() && self.place() < other.place()
    }

    /// The place of the value among all values.
    pub fn rank(self) -> (r: u64)
        ensures
            r == self.place(),
    {
        if self.bits == 0 || self.bits == SIGN_BIT {
            SIGN_BIT
        } else if self.bits > SIGN_BIT {
            u64::MAX - self.bits
        } else {
            self.bits + SIGN_BIT
        }
    }

    /// Whether this is a number at all.
    pub fn number(self) -> (r: bool)
        ensures
            r == self.is_number(),
    {
        let m: u64 = if self.bits >= SIGN_BIT {
            self.bits - SIGN_BIT
        } else {
            self.bits
        };
        m <= INFINITY_BITS
    }

    /// Whether the value is smaller than another.
    pub fn less(self, other: Real) -> (r: bool)
        ensures
            r == self.is_less(other),
    {
        self.number() && other.number() && self.rank() < other.rank()
    }

    /// Whether the value is no larger than another.
    pub open spec fn is_at_most(self, other: Real) -> bool {
        self.is_number() && other.is_number() && self.place() <= other.place()
    }

    /// The smaller of two values, or the one that is a number.
    pub open spec fn smaller(self, other: Real) -> Real {
        if !self.is_number() || other.is_less(self) {
            other
        } else {
            self
        }
    }

    /// The larger of two values, or the one that is a number.
    pub open spec fn larger(self, other: Real) -> Real {
        if !self.is_number() || self.is_less(other) {
            other
        } else {
            self
        }
    }

    /// The value, or the end of the range that it lies beyond.
    pub open spec fn within(self, low: Real, high: Real) -> Real {
        if self.is_less(low) {
            low
        } else if high.is_less(self) {
            high
        } else {
            self
        }
    }

    /// Whether the value is no larger than another.
    pub fn at_most(self, other: Real) -> (r: bool)
        ensures
            r == self.is_at_most(other),
    {
        self.number() && other.number() && self.rank() <= other.rank()
    }

    /// The smaller of two values, or the one that is a number.
    pub fn min(self, other: Real) -> (r: Real)
        ensures
            r == self.smaller(other),
    {
        if !self.number() || other.less(self) {
            other
        } else {
            self
        }
    }

    /// The larger of two values, or the one that is a number.
    pub fn max(self, other: Real) -> (r: Real)
        ensures
            r == self.larger(other),
    {
        if !self.number() || self.less(other) {
            other
        } else {
            self
        }
    }

    /// The value, or the end of the range that it lies beyond.
    pub fn clamp(self, low: Real, high: Real) -> (r: Real)
        ensures
            r == self.within(low, high),
    {
        if self.less(low) {
            low
        } else if high.less(self) {
            high
        } else {
            self
        }
    }
}

/// Values are ordered as numbers are: positive ones by their bits, negative ones the other way
/// round, every negative one before zero and zero before every positive one.
pub proof fn lemma_order_of_values(a: u64, b: u64)
    requires
        0 < a < b <= INFINITY_BITS,
    ensures
        ({
            let zero = Real { bits: 0 };
            let x = Real { bits: a };
            let y = Real { bits: b };
            let minus_x = Real { bits: (a + SIGN_BIT) as u64 };
            let minus_y = Real { bits: (b + SIGN_BIT) as u64 };
            &&& x.is_less(y) && !y.is_less(x)
            &&& minus_y.is_less(minus_x) && !minus_x.is_less(minus_y)
            &&& zero.is_less(x) && minus_x.is_less(zero)
            &&& minus_x.is_less(x) && minus_x.is_less(y)
            &&& !(Real { bits: SIGN_BIT }).is_less(zero)
            &&& !zero.is_less(Real { bits: SIGN_BIT })
        }),
{
}

/// The smaller and the larger of two values are the two values, in order.
pub proof fn lemma_smaller_and_larger(a: Real, b: Real)
    requires
        a.is_number(),
        b.is_number(),
    ensures
        a.smaller(b) == a || a.smaller(b) == b,
        a.larger(b) == a || a.larger(b) == b,
        a.is_less(b) ==> a.smaller(b) == a && a.larger(b) == b,
        b.is_less(a) ==> a.smaller(b) == b && a.larger(b) == a,
        !a.larger(b).is_less(a.smaller(b)),
{
}

/// A value that is brought within bounds lies within them, and stays where it did.
pub proof fn lemma_within(x: Real, low: Real, high: Real)
    requires
        x.is_number(),
        low.is_number(),
        high.is_number(),
        low.is_at_most(high),
    ensures
        low.is_at_most(x.within(low, high)),
        x.within(low, high).is_at_most(high),
        low.is_at_most(x) && x.is_at_most(high) ==> x.within(low, high) == x,
        x.is_less(low) ==> x.within(low, high) == low,
        high.is_less(x) ==> x.within(low, high) == high,
{
}

/// A value is above or below a positive number as the order says.
pub proof fn lemma_above_and_below(x: Real, bits: u64)
    requires
        0 < bits <= INFINITY_BITS,
    ensures
        x.is_above(bits) <==> (Real { bits }).is_less(x),
        x.is_below(bits) <==> x.is_less(Real { bits }),
{
}

} // verus!
