//! Classification of a [`BigNum`]: the derived predicates that every
//! arithmetic routine consults before dispatching special values.

use crate::bignum::dbl::{exp_field, frac_field, is_nan_bits, NEG_INF_BITS, POS_INF_BITS};
use crate::bignum::BigNum;
use vstd::prelude::*;

verus! {

/// The class of a [`BigNum`], mirroring the floating-point categories. The
/// `Zero`, `Subnormal` and `Normal` classes describe the stored logarithm
/// itself, so a number of magnitude exactly 1 (logarithm zero) falls in
/// `Zero`.
#[derive(Debug, Copy, Clone, PartialEq, Eq, Structural)]
pub enum Category {
    /// The represented number is NaN.
    Nan,
    /// The represented number is infinite.
    Infinite,
    /// The stored logarithm is zero or negative infinity: the represented
    /// number is zero, or has magnitude exactly 1.
    Zero,
    /// The stored logarithm is subnormal.
    Subnormal,
    /// The stored logarithm is a normal finite value.
    Normal,
}

impl BigNum {
    /// The represented number is NaN.
    pub open spec fn spec_is_nan(&self) -> bool {
        is_nan_bits(self.exponent)
    }

    /// The represented number is infinite: the logarithm is positive
    /// infinity. The sign of the number is tracked separately, so negative
    /// infinity also satisfies this.
    pub open spec fn spec_is_infinite(&self) -> bool {
        self.exponent == POS_INF_BITS
    }

    /// The represented number is neither infinite nor NaN.
    pub open spec fn spec_is_finite(&self) -> bool {
        !self.spec_is_infinite() && !self.spec_is_nan()
    }

    /// The represented number is zero: the logarithm is negative infinity.
    pub open spec fn spec_is_zero(&self) -> bool {
        self.exponent == NEG_INF_BITS
    }

    /// The class of the represented number; see [`Category`].
    pub open spec fn spec_classify(&self) -> Category {
        if self.spec_is_nan() {
            Category::Nan
        } else if self.spec_is_infinite() {
            Category::Infinite
        } else if self.spec_is_zero() {
            Category::Zero
        } else if exp_field(self.exponent) == 0 {
            if frac_field(self.exponent) == 0 {
                Category::Zero
            } else {
                Category::Subnormal
            }
        } else {
            Category::Normal
        }
    }

    /// True when the represented number is NaN.
    pub fn is_nan(&self) -> (r: bool)
        ensures
            r == self.spec_is_nan(),
    {
        let a: u64 = self.exponent % 0x8000_0000_0000_0000;
        a > 0x7FF0_0000_0000_0000
    }

    /// True when the represented number is infinite (of either sign).
    pub fn is_infinite(&self) -> (r: bool)
        ensures
            r == self.spec_is_infinite(),
    {
        self.exponent == 0x7FF0_0000_0000_0000
    }

    /// True when the represented number is neither infinite nor NaN (zero is
    /// finite).
    pub fn is_finite(&self) -> (r: bool)
        ensures
            r == self.spec_is_finite(),
    {
        let a: u64 = self.exponent % 0x8000_0000_0000_0000;
        a < 0x7FF0_0000_0000_0000 || self.exponent == 0xFFF0_0000_0000_0000
    }

    /// True when the sign bit is clear; zero and NaN included.
    pub fn is_sign_positive(&self) -> (r: bool)
        ensures
            r == !self.is_negative,
    {
        !self.is_negative
    }

    /// True when the sign bit is set; zero and NaN included.
    pub fn is_sign_negative(&self) -> (r: bool)
        ensures
            r == self.is_negative,
    {
        self.is_negative
    }

    /// True when the represented number is zero (the logarithm is negative
    /// infinity).
    pub fn is_zero(&self) -> (r: bool)
        ensures
            r == self.spec_is_zero(),
    {
        self.exponent == 0xFFF0_0000_0000_0000
    }

    /// The class of the represented number; NaN, infinity and zero are
    /// detected first, any other logarithm passes its own floating-point
    /// class through.
    pub fn classify(&self) -> (r: Category)
        ensures
            r == self.spec_classify(),
    {
        if self.is_nan() {
            return Category::Nan;
        }
        if self.is_infinite() {
            return Category::Infinite;
        }
        if self.is_zero() {
            return Category::Zero;
        }
        let a: u64 = self.exponent % 0x8000_0000_0000_0000;
        if a / 0x0010_0000_0000_0000 == 0 {
            if a % 0x0010_0000_0000_0000 == 0 {
                Category::Zero
            } else {
                Category::Subnormal
            }
        } else {
            Category::Normal
        }
    }
}

} // verus!
