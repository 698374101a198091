//! Binary64 numbers carried by their bits.
//!
//! The library orders, clamps and sanitises numbers but never does arithmetic on
//! them, and all of that can be said of the bit pattern: the magnitude is the low
//! 63 bits, read as an integer, and it grows with the number it stands for.
use vstd::prelude::*;

verus! {

/// The sign bit, and so also the number of distinct magnitudes.
pub const SIGN: u64 = 0x8000_0000_0000_0000;

/// The magnitude of an infinity; every larger magnitude is a NaN.
pub const INFINITE: u64 = 0x7ff0_0000_0000_0000;

/// A binary64 number, by its bits.
#[derive(Clone, Copy, Debug, PartialEq, Eq, Structural)]
pub struct Real {
    pub bits: u64,
}

impl Real {
    /// The bits without the sign.
    pub open spec fn magnitude(self) -> int {
        if self.bits < SIGN {
            self.bits as int
        } else {
            self.bits - SIGN
        }
    }

    /// Neither an infinity nor a NaN.
    pub open spec fn finite(self) -> bool {
        self.magnitude() < INFINITE
    }

    /// Not a number.
    pub open spec fn nan(self) -> bool {
        self.magnitude() > INFINITE
    }

    /// The place of the number in the order of all numbers. The two zeroes share
    /// a place; a NaN's place means nothing.
    pub open spec fn rank(self) -> int {
        if self.bits < SIGN {
            self.bits as int
        } else {
            SIGN - self.bits
        }
    }

    /// `self < other`: never true of a NaN.
    pub open spec fn below(self, other: Real) -> bool {
        !self.nan() && !other.nan() && self.rank() < other.rank()
    }

    /// `self <= other`: never true of a NaN.
    pub open spec fn at_most(self, other: Real) -> bool {
        !self.nan() && !other.nan() && self.rank() <= other.rank()
    }

    /// `self == other` as numbers: the two zeroes are equal, a NaN equals nothing.
    pub open spec fn same(self, other: Real) -> bool {
        !self.nan() && !other.nan() && self.rank() == other.rank()
    }

    /// The larger of the two, the other one where either is a NaN.
    pub open spec fn larger(self, other: Real) -> Real {
        if self.nan() {
            other
        } else if self.below(other) {
            other
        } else {
            self
        }
    }

    /// The smaller of the two, the other one where either is a NaN.
    pub open spec fn smaller(self, other: Real) -> Real {
        if self.nan() {
            other
        } else if other.below(self) {
            other
        } else {
            self
        }
    }

    /// `self`, moved to the nearer bound where it lies outside `lo` to `hi`. A NaN
    /// stays one.
    pub open spec fn clamped(self, lo: Real, hi: Real) -> Real {
        if self.below(lo) {
            lo
        } else if hi.below(self) {
            hi
        } else {
            self
        }
    }

    /// A finite number inside the bounds, or `dflt` where `self` is not finite.
    pub open spec fn fenced(self, lo: Real, hi: Real, dflt: Real) -> Real {
        if self.finite() {
            self.clamped(lo, hi)
        } else {
            dflt
        }
    }

    /// Inside the bounds, both of them included.
    pub open spec fn within(self, lo: Real, hi: Real) -> bool {
        &&& self.finite()
        &&& lo.rank() <= self.rank() <= hi.rank()
    }

    /// The number with these bits.
    pub fn of(bits: u64) -> (r: Real)
        ensures
            r == (Real { bits }),
    {
        Real { bits }
    }

    fn magnitude_of(self) -> (m: u64)
        ensures
            m == self.magnitude(),
    {
        if self.bits < SIGN {
            self.bits
        } else {
            self.bits - SIGN
        }
    }

    /// Whether the number is neither infinite nor a NaN.
    pub fn is_finite(self) -> (r: bool)
        ensures
            r == self.finite(),
    {
        self.magnitude_of() < INFINITE
    }

    /// Whether the number is a NaN.
    pub fn is_nan(self) -> (r: bool)
        ensures
            r == self.nan(),
    {
        self.magnitude_of() > INFINITE
    }

    /// `self < other`.
    pub fn is_below(self, other: Real) -> (r: bool)
        ensures
            r == self.below(other),
    {
        if self.is_nan() || other.is_nan() {
            return false;
        }
        if self.bits < SIGN {
            other.bits < SIGN && self.bits < other.bits
        } else if other.bits < SIGN {
            other.bits > 0 || self.bits > SIGN
        } else {
            self.bits > other.bits
        }
    }

    /// `self <= other`.
    pub fn is_at_most(self, other: Real) -> (r: bool)
        ensures
            r == self.at_most(other),
    {
        !self.is_nan() && !other.is_nan() && !other.is_below(self)
    }

    /// `self == other` as numbers.
    pub fn is_same(self, other: Real) -> (r: bool)
        ensures
            r == self.same(other),
    {
        self.is_at_most(other) && other.is_at_most(self)
    }

    /// The larger of the two numbers.
    pub fn max_with(self, other: Real) -> (r: Real)
        ensures
            r == self.larger(other),
    {
        if self.is_nan() || self.is_below(other) {
            other
        } else {
            self
        }
    }

    /// The smaller of the two numbers.
    pub fn min_with(self, other: Real) -> (r: Real)
        ensures
            r == self.smaller(other),
    {
        if self.is_nan() || other.is_below(self) {
            other
        } else {
            self
        }
    }

    /// The number moved into the bounds.
    pub fn clamp_to(self, lo: Real, hi: Real) -> (r: Real)
        ensures
            r == self.clamped(lo, hi),
    {
        if self.is_below(lo) {
            lo
        } else if hi.is_below(self) {
            hi
        } else {
            self
        }
    }
}

/// A finite number inside `lo` to `hi`, or `dflt` when `v` is not finite.
pub fn fin(v: Real, lo: Real, hi: Real, dflt: Real) -> (r: Real)
    ensures
        r == v.fenced(lo, hi, dflt),
{
    if v.is_finite() {
        v.clamp_to(lo, hi)
    } else {
        dflt
    }
}

/// A fenced number is inside its fence, given a default that is, and fencing it
/// again changes nothing.
pub proof fn law_fence_holds(v: Real, lo: Real, hi: Real, dflt: Real)
    requires
        lo.finite(),
        hi.finite(),
        lo.rank() <= hi.rank(),
        dflt.within(lo, hi),
    ensures
        v.fenced(lo, hi, dflt).within(lo, hi),
        v.fenced(lo, hi, dflt).fenced(lo, hi, dflt) == v.fenced(lo, hi, dflt),
{
}

/// A number already inside the fence is left alone.
pub proof fn law_fence_leaves_what_is_inside(v: Real, lo: Real, hi: Real, dflt: Real)
    requires
        v.within(lo, hi),
    ensures
        v.fenced(lo, hi, dflt) == v,
{
}

/// The order of numbers goes by their bits: a larger magnitude is a larger number, or a smaller
/// one where the sign bit is set; the two zeroes are equal; and nothing is said of what is no
/// number.
pub proof fn law_numbers_are_ordered_by_their_bits(a: Real, b: Real)
    ensures
        a.bits < 0x8000_0000_0000_0000 && b.bits < 0x8000_0000_0000_0000 && !a.nan() && !b.nan() ==> (
        a.below(b) <==> a.bits < b.bits),
        a.bits >= 0x8000_0000_0000_0000 && b.bits >= 0x8000_0000_0000_0000 && !a.nan() && !b.nan() ==> (
        a.below(b) <==> a.bits > b.bits),
        a.bits > 0x8000_0000_0000_0000 && b.bits < 0x8000_0000_0000_0000 && !a.nan() && !b.nan()
            ==> a.below(b) && !b.below(a),
        a.bits == 0 && b.bits == 0x8000_0000_0000_0000 ==> a.same(b) && !a.below(b) && !b.below(a),
        a.nan() || b.nan() ==> !a.below(b) && !a.at_most(b) && !a.same(b),
        !a.nan() && !b.nan() ==> (a.at_most(b) <==> !b.below(a)),
        !a.nan() && !b.nan() ==> (a.same(b) <==> !a.below(b) && !b.below(a)),
{
}

/// Which bits are numbers: a magnitude below that of an infinity is finite, and one above it
/// is no number.
pub proof fn law_which_bits_are_numbers(a: Real)
    ensures
        a.finite() <==> a.bits < 0x7ff0_0000_0000_0000 || 0x8000_0000_0000_0000 <= a.bits
            < 0xfff0_0000_0000_0000,
        a.nan() <==> 0x7ff0_0000_0000_0000 < a.bits < 0x8000_0000_0000_0000 || a.bits
            > 0xfff0_0000_0000_0000,
{
}

/// The larger of two numbers is one of them and not below either; the smaller is one of them,
/// and neither is below it. What is no number gives way.
pub proof fn law_the_larger_and_the_smaller(a: Real, b: Real)
    ensures
        a.larger(b) == a || a.larger(b) == b,
        a.smaller(b) == a || a.smaller(b) == b,
        !a.larger(b).below(a) && !a.larger(b).below(b),
        !a.below(a.smaller(b)) && !b.below(a.smaller(b)),
        a.nan() ==> a.larger(b) == b && a.smaller(b) == b,
        b.nan() && !a.nan() ==> a.larger(b) == a && a.smaller(b) == a,
{
}

/// A number inside the bounds is left alone, one below them becomes the low one, and one above
/// them the high one.
pub proof fn law_clamping_goes_to_the_nearer_bound(v: Real, lo: Real, hi: Real)
    requires
        !lo.nan() && !hi.nan() && lo.rank() <= hi.rank(),
    ensures
        v.nan() ==> v.clamped(lo, hi) == v,
        !v.nan() && v.rank() < lo.rank() ==> v.clamped(lo, hi) == lo,
        !v.nan() && v.rank() > hi.rank() ==> v.clamped(lo, hi) == hi,
        !v.nan() && lo.rank() <= v.rank() <= hi.rank() ==> v.clamped(lo, hi) == v,
{
}

} // verus!
