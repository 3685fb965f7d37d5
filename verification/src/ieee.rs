//! IEEE 754 numbers held by their bit patterns, with the comparisons that the player's rules make.
//!
//! Arithmetic on such numbers is done by the callers of the library; what is decided here from the
//! results is the order in which they stand.
use vstd::prelude::*;

verus! {

/// The sign bit of a double.
pub const DOUBLE_SIGN: u64 = 0x8000_0000_0000_0000;

/// The bits of positive infinity as a double; a larger magnitude is a NaN.
pub const DOUBLE_INFINITY: u64 = 0x7FF0_0000_0000_0000;

/// The sign bit of a single.
pub const SINGLE_SIGN: u32 = 0x8000_0000;

/// The bits of positive infinity as a single; a larger magnitude is a NaN.
pub const SINGLE_INFINITY: u32 = 0x7F80_0000;

/// A binary64 number, given by its bits.
#[derive(Debug, Clone, Copy, PartialEq, Eq, Structural)]
pub struct Double {
    pub bits: u64,
}

/// A binary32 number, given by its bits.
#[derive(Debug, Clone, Copy, PartialEq, Eq, Structural)]
pub struct Single {
    pub bits: u32,
}

impl Double {
    /// The bits without the sign.
    pub open spec fn magnitude(self) -> int {
        if self.bits >= DOUBLE_SIGN {
            self.bits - DOUBLE_SIGN
        } else {
            self.bits as int
        }
    }

    pub open spec fn nan(self) -> bool {
        self.magnitude() > DOUBLE_INFINITY
    }

    /// A number that orders as the doubles do: the patterns of one sign grow with the magnitude
    /// that they stand for, and the two zeros are equal.
    pub open spec fn key(self) -> int {
        if self.bits >= DOUBLE_SIGN {
            -self.magnitude()
        } else {
            self.magnitude()
        }
    }

    /// `self < other`: false as soon as one of them is a NaN.
    pub open spec fn below(self, other: Double) -> bool {
        !self.nan() && !other.nan() && self.key() < other.key()
    }

    /// `self <= other`: false as soon as one of them is a NaN.
    pub open spec fn at_most(self, other: Double) -> bool {
        !self.nan() && !other.nan() && self.key() <= other.key()
    }

    /// The larger of the two, and the other one where one of them is a NaN.
    pub open spec fn larger(self, other: Double) -> Double {
        if self.nan() || self.below(other) {
            other
        } else {
            self
        }
    }

    pub fn from_bits(bits: u64) -> (d: Double)
        ensures
            d.bits == bits,
    {
        Double { bits }
    }

    fn magnitude_bits(&self) -> (m: u64)
        ensures
            m == self.magnitude(),
    {
        if self.bits >= DOUBLE_SIGN {
            self.bits - DOUBLE_SIGN
        } else {
            self.bits
        }
    }

    pub fn is_nan(&self) -> (r: bool)
        ensures
            r == self.nan(),
    {
        self.magnitude_bits() > DOUBLE_INFINITY
    }

    /// `self < other`.
    pub fn lt(&self, other: &Double) -> (r: bool)
        ensures
            r == self.below(*other),
    {
        if self.is_nan() || other.is_nan() {
            return false;
        }
        let a: u64 = self.magnitude_bits();
        let b: u64 = other.magnitude_bits();
        if self.bits >= DOUBLE_SIGN {
            if other.bits >= DOUBLE_SIGN {
                a > b
            } else {
                a > 0 || b > 0
            }
        } else if other.bits >= DOUBLE_SIGN {
            false
        } else {
            a < b
        }
    }

    /// `self <= other`.
    pub fn le(&self, other: &Double) -> (r: bool)
        ensures
            r == self.at_most(*other),
    {
        !self.is_nan() && !other.is_nan() && !other.lt(self)
    }

    /// The larger of two numbers, where a NaN counts as absent.
    pub fn max(&self, other: Double) -> (r: Double)
        ensures
            r == self.larger(other),
    {
        if self.is_nan() || self.lt(&other) {
            other
        } else {
            *self
        }
    }
}

impl Single {
    /// The bits without the sign.
    pub open spec fn magnitude(self) -> int {
        if self.bits >= SINGLE_SIGN {
            self.bits - SINGLE_SIGN
        } else {
            self.bits as int
        }
    }

    pub open spec fn nan(self) -> bool {
        self.magnitude() > SINGLE_INFINITY
    }

    /// A number that orders as the singles do.
    pub open spec fn key(self) -> int {
        if self.bits >= SINGLE_SIGN {
            -self.magnitude()
        } else {
            self.magnitude()
        }
    }

    /// `self < other`: false as soon as one of them is a NaN.
    pub open spec fn below(self, other: Single) -> bool {
        !self.nan() && !other.nan() && self.key() < other.key()
    }

    /// `self <= other`: false as soon as one of them is a NaN.
    pub open spec fn at_most(self, other: Single) -> bool {
        !self.nan() && !other.nan() && self.key() <= other.key()
    }

    pub open spec fn clamped(self, lo: Single, hi: Single) -> Single {
        if self.below(lo) {
            lo
        } else if hi.below(self) {
            hi
        } else {
            self
        }
    }

    /// The number without its sign.
    pub open spec fn size(self) -> Single {
        Single { bits: self.magnitude() as u32 }
    }

    /// The larger of the two, and the other one where one of them is a NaN.
    pub open spec fn larger(self, other: Single) -> Single {
        if self.nan() || self.below(other) {
            other
        } else {
            self
        }
    }

    /// The smaller of the two, and the other one where one of them is a NaN.
    pub open spec fn smaller(self, other: Single) -> Single {
        if self.nan() || other.below(self) {
            other
        } else {
            self
        }
    }

    pub fn from_bits(bits: u32) -> (s: Single)
        ensures
            s.bits == bits,
    {
        Single { bits }
    }

    fn magnitude_bits(&self) -> (m: u32)
        ensures
            m == self.magnitude(),
    {
        if self.bits >= SINGLE_SIGN {
            self.bits - SINGLE_SIGN
        } else {
            self.bits
        }
    }

    pub fn is_nan(&self) -> (r: bool)
        ensures
            r == self.nan(),
    {
        self.magnitude_bits() > SINGLE_INFINITY
    }

    /// `self < other`.
    pub fn lt(&self, other: &Single) -> (r: bool)
        ensures
            r == self.below(*other),
    {
        if self.is_nan() || other.is_nan() {
            return false;
        }
        let a: u32 = self.magnitude_bits();
        let b: u32 = other.magnitude_bits();
        if self.bits >= SINGLE_SIGN {
            if other.bits >= SINGLE_SIGN {
                a > b
            } else {
                a > 0 || b > 0
            }
        } else if other.bits >= SINGLE_SIGN {
            false
        } else {
            a < b
        }
    }

    /// `self <= other`.
    pub fn le(&self, other: &Single) -> (r: bool)
        ensures
            r == self.at_most(*other),
    {
        !self.is_nan() && !other.is_nan() && !other.lt(self)
    }

    /// The number without its sign.
    pub fn abs(&self) -> (r: Single)
        ensures
            r == self.size(),
    {
        Single { bits: self.magnitude_bits() }
    }

    /// The larger of two numbers, where a NaN counts as absent.
    pub fn max(&self, other: Single) -> (r: Single)
        ensures
            r == self.larger(other),
    {
        if self.is_nan() || self.lt(&other) {
            other
        } else {
            *self
        }
    }

    /// The smaller of two numbers, where a NaN counts as absent.
    pub fn min(&self, other: Single) -> (r: Single)
        ensures
            r == self.smaller(other),
    {
        if self.is_nan() || other.lt(self) {
            other
        } else {
            *self
        }
    }

    /// `self` brought into `lo ..= hi`.
    pub fn clamp(&self, lo: Single, hi: Single) -> (r: Single)
        requires
            lo.at_most(hi),
        ensures
            r == self.clamped(lo, hi),
            !self.nan() ==> lo.at_most(r) && r.at_most(hi),
            self.nan() ==> r == *self,
    {
        if self.lt(&lo) {
            lo
        } else if hi.lt(self) {
            hi
        } else {
            *self
        }
    }
}

/// Singles stand in the order of the numbers that their bits encode: above zero the larger pattern
/// is the larger number, below zero it is the smaller one, the two zeros are equal, and a NaN stands
/// in no order.
pub proof fn law_singles_are_ordered(a: Single, b: Single)
    ensures
        a.nan() <==> 0x7F80_0000 < a.bits < 0x8000_0000 || 0xFF80_0000 < a.bits,
        a.nan() || b.nan() ==> !a.below(b) && !a.at_most(b),
        !a.nan() && !b.nan() ==> (a.at_most(b) <==> !b.below(a)),
        !a.nan() && !b.nan() && a.bits < 0x8000_0000 && b.bits < 0x8000_0000 ==> (a.below(b)
            <==> a.bits < b.bits),
        !a.nan() && !b.nan() && a.bits >= 0x8000_0000 && b.bits >= 0x8000_0000 ==> (a.below(b)
            <==> a.bits > b.bits),
        !a.nan() && !b.nan() && a.bits >= 0x8000_0000 && b.bits < 0x8000_0000 ==> (a.below(b)
            <==> !(a.bits == 0x8000_0000 && b.bits == 0)) && !b.below(a),
{
}

/// The size of a single is the same bits without a sign.
pub proof fn law_size_drops_the_sign(a: Single)
    ensures
        a.bits < 0x8000_0000 ==> a.size().bits == a.bits,
        a.bits >= 0x8000_0000 ==> a.size().bits == a.bits - 0x8000_0000,
{
}

/// The larger and the smaller of two singles are one of the two, and no other is beyond them; a NaN
/// gives way to a number.
pub proof fn law_extremes_are_one_of_two(a: Single, b: Single)
    ensures
        a.larger(b) == a || a.larger(b) == b,
        a.smaller(b) == a || a.smaller(b) == b,
        !a.nan() && !b.nan() ==> a.at_most(a.larger(b)) && b.at_most(a.larger(b)) && a.smaller(
            b,
        ).at_most(a) && a.smaller(b).at_most(b),
        a.nan() ==> a.larger(b) == b && a.smaller(b) == b,
        b.nan() ==> a.nan() || (a.larger(b) == a && a.smaller(b) == a),
{
}

/// What is clamped lies within the bounds, and what lies within them is left alone.
pub proof fn law_clamped_lies_within(a: Single, lo: Single, hi: Single)
    requires
        lo.at_most(hi),
    ensures
        !a.nan() ==> lo.at_most(a.clamped(lo, hi)) && a.clamped(lo, hi).at_most(hi),
        lo.at_most(a) && a.at_most(hi) ==> a.clamped(lo, hi) == a,
        a.below(lo) ==> a.clamped(lo, hi) == lo,
        hi.below(a) ==> a.clamped(lo, hi) == hi,
        a.nan() ==> a.clamped(lo, hi) == a,
{
}

/// Doubles stand in the order of the numbers that their bits encode, as singles do.
pub proof fn law_doubles_are_ordered(a: Double, b: Double)
    ensures
        a.nan() <==> 0x7FF0_0000_0000_0000 < a.bits < 0x8000_0000_0000_0000 || 0xFFF0_0000_0000_0000
            < a.bits,
        a.nan() || b.nan() ==> !a.below(b) && !a.at_most(b),
        !a.nan() && !b.nan() ==> (a.at_most(b) <==> !b.below(a)),
        !a.nan() && !b.nan() && a.bits < 0x8000_0000_0000_0000 && b.bits < 0x8000_0000_0000_0000
            ==> (a.below(b) <==> a.bits < b.bits),
        !a.nan() && !b.nan() && a.bits >= 0x8000_0000_0000_0000 && b.bits >= 0x8000_0000_0000_0000
            ==> (a.below(b) <==> a.bits > b.bits),
        !a.nan() && !b.nan() && a.bits >= 0x8000_0000_0000_0000 && b.bits < 0x8000_0000_0000_0000
            ==> (a.below(b) <==> !(a.bits == 0x8000_0000_0000_0000 && b.bits == 0)) && !b.below(a),
{
}

/// The larger of two doubles is one of the two and not below the other; a NaN gives way to a number.
pub proof fn law_larger_is_one_of_two(a: Double, b: Double)
    ensures
        a.larger(b) == a || a.larger(b) == b,
        !a.nan() && !b.nan() ==> a.at_most(a.larger(b)) && b.at_most(a.larger(b)),
        a.nan() ==> a.larger(b) == b,
        b.nan() && !a.nan() ==> a.larger(b) == a,
{
}

} // verus!
