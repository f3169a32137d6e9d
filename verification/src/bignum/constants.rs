//! The pre-computed constant values: special values, units, and the logarithms
//! of the classical constants.

use crate::bignum::BigNum;
use vstd::prelude::*;

verus! {

impl BigNum {
    /// Spec-level twin of [`BigNum::zero`].
    pub open spec fn spec_zero() -> BigNum {
        BigNum { is_negative: false, exponent: 0xFFF0_0000_0000_0000 }
    }

    /// Zero: logarithm negative infinity, positive sign.
    #[verifier::when_used_as_spec(spec_zero)]
    pub fn zero() -> (r: BigNum)
        ensures
            r.is_negative == false,
            r.exponent == 0xFFF0_0000_0000_0000u64,
            r.spec_is_zero(),
    {
        BigNum { is_negative: false, exponent: 0xFFF0_0000_0000_0000 }
    }

    /// Spec-level twin of [`BigNum::one`].
    pub open spec fn spec_one() -> BigNum {
        BigNum { is_negative: false, exponent: 0 }
    }

    /// One: magnitude 10^0.
    #[verifier::when_used_as_spec(spec_one)]
    pub fn one() -> (r: BigNum)
        ensures
            r.is_negative == false,
            r.exponent == 0u64,
    {
        BigNum { is_negative: false, exponent: 0 }
    }

    /// Spec-level twin of [`BigNum::neg_one`].
    pub open spec fn spec_neg_one() -> BigNum {
        BigNum { is_negative: true, exponent: 0 }
    }

    /// Negative one: magnitude 10^0, negative sign.
    #[verifier::when_used_as_spec(spec_neg_one)]
    pub fn neg_one() -> (r: BigNum)
        ensures
            r.is_negative == true,
            r.exponent == 0u64,
    {
        BigNum { is_negative: true, exponent: 0 }
    }

    /// Spec-level twin of [`BigNum::nan`].
    pub open spec fn spec_nan() -> BigNum {
        BigNum { is_negative: false, exponent: 0x7FF8_0000_0000_0000 }
    }

    /// NaN, carried as a NaN logarithm.
    #[verifier::when_used_as_spec(spec_nan)]
    pub fn nan() -> (r: BigNum)
        ensures
            r.is_negative == false,
            r.exponent == 0x7FF8_0000_0000_0000u64,
            r.spec_is_nan(),
    {
        BigNum { is_negative: false, exponent: 0x7FF8_0000_0000_0000 }
    }

    /// Spec-level twin of [`BigNum::infinity`].
    pub open spec fn spec_infinity() -> BigNum {
        BigNum { is_negative: false, exponent: 0x7FF0_0000_0000_0000 }
    }

    /// Positive infinity: logarithm positive infinity.
    #[verifier::when_used_as_spec(spec_infinity)]
    pub fn infinity() -> (r: BigNum)
        ensures
            r.is_negative == false,
            r.exponent == 0x7FF0_0000_0000_0000u64,
            r.spec_is_infinite(),
    {
        BigNum { is_negative: false, exponent: 0x7FF0_0000_0000_0000 }
    }

    /// Spec-level twin of [`BigNum::neg_infinity`].
    pub open spec fn spec_neg_infinity() -> BigNum {
        BigNum { is_negative: true, exponent: 0x7FF0_0000_0000_0000 }
    }

    /// Negative infinity: logarithm positive infinity, negative sign.
    #[verifier::when_used_as_spec(spec_neg_infinity)]
    pub fn neg_infinity() -> (r: BigNum)
        ensures
            r.is_negative == true,
            r.exponent == 0x7FF0_0000_0000_0000u64,
            r.spec_is_infinite(),
    {
        BigNum { is_negative: true, exponent: 0x7FF0_0000_0000_0000 }
    }

    /// Spec-level twin of [`BigNum::max_value`].
    pub open spec fn spec_max_value() -> BigNum {
        BigNum { is_negative: false, exponent: 0x7FEF_FFFF_FFFF_FFFF }
    }

    /// The largest value: magnitude 10^m where m is the largest finite
    /// binary64 value.
    #[verifier::when_used_as_spec(spec_max_value)]
    pub fn max_value() -> (r: BigNum)
        ensures
            r.is_negative == false,
            r.exponent == 0x7FEF_FFFF_FFFF_FFFFu64,
    {
        BigNum { is_negative: false, exponent: 0x7FEF_FFFF_FFFF_FFFF }
    }

    /// Spec-level twin of [`BigNum::min_value`].
    pub open spec fn spec_min_value() -> BigNum {
        BigNum { is_negative: true, exponent: 0x7FEF_FFFF_FFFF_FFFF }
    }

    /// The smallest value: the negative of [`BigNum::max_value`].
    #[verifier::when_used_as_spec(spec_min_value)]
    pub fn min_value() -> (r: BigNum)
        ensures
            r.is_negative == true,
            r.exponent == 0x7FEF_FFFF_FFFF_FFFFu64,
    {
        BigNum { is_negative: true, exponent: 0x7FEF_FFFF_FFFF_FFFF }
    }

    /// Spec-level twin of [`BigNum::min_positive`].
    pub open spec fn spec_min_positive() -> BigNum {
        BigNum { is_negative: false, exponent: 0x0010_0000_0000_0000 }
    }

    /// The smallest positive value: magnitude 10^m where m is the smallest
    /// positive normal binary64 value.
    #[verifier::when_used_as_spec(spec_min_positive)]
    pub fn min_positive() -> (r: BigNum)
        ensures
            r.is_negative == false,
            r.exponent == 0x0010_0000_0000_0000u64,
    {
        BigNum { is_negative: false, exponent: 0x0010_0000_0000_0000 }
    }

    /// Spec-level twin of [`BigNum::max_negative`].
    pub open spec fn spec_max_negative() -> BigNum {
        BigNum { is_negative: true, exponent: 0x0010_0000_0000_0000 }
    }

    /// The largest negative value: the negative of [`BigNum::min_positive`].
    #[verifier::when_used_as_spec(spec_max_negative)]
    pub fn max_negative() -> (r: BigNum)
        ensures
            r.is_negative == true,
            r.exponent == 0x0010_0000_0000_0000u64,
    {
        BigNum { is_negative: true, exponent: 0x0010_0000_0000_0000 }
    }

    /// Spec-level twin of [`BigNum::pi`].
    pub open spec fn spec_pi() -> BigNum {
        BigNum { is_negative: false, exponent: 0x3FDF_D14D_B31B_A3BA }
    }

    /// Pi: the logarithm is the binary64 nearest to log10(pi).
    #[verifier::when_used_as_spec(spec_pi)]
    pub fn pi() -> (r: BigNum)
        ensures
            r.is_negative == false,
            r.exponent == 0x3FDF_D14D_B31B_A3BAu64,
    {
        BigNum { is_negative: false, exponent: 0x3FDF_D14D_B31B_A3BA }
    }

    /// Spec-level twin of [`BigNum::tau`].
    pub open spec fn spec_tau() -> BigNum {
        BigNum { is_negative: false, exponent: 0x3FE9_8AB0_81DD_8EDD }
    }

    /// Tau (2 pi): the logarithm is the binary64 nearest to log10(tau).
    #[verifier::when_used_as_spec(spec_tau)]
    pub fn tau() -> (r: BigNum)
        ensures
            r.is_negative == false,
            r.exponent == 0x3FE9_8AB0_81DD_8EDDu64,
    {
        BigNum { is_negative: false, exponent: 0x3FE9_8AB0_81DD_8EDD }
    }

    /// Spec-level twin of [`BigNum::euler`].
    pub open spec fn spec_euler() -> BigNum {
        BigNum { is_negative: false, exponent: 0x3FDB_CB7B_1526_E50E }
    }

    /// Euler's number: the logarithm is the binary64 nearest to log10(e).
    #[verifier::when_used_as_spec(spec_euler)]
    pub fn euler() -> (r: BigNum)
        ensures
            r.is_negative == false,
            r.exponent == 0x3FDB_CB7B_1526_E50Eu64,
    {
        BigNum { is_negative: false, exponent: 0x3FDB_CB7B_1526_E50E }
    }

    /// Spec-level twin of [`BigNum::two`].
    pub open spec fn spec_two() -> BigNum {
        BigNum { is_negative: false, exponent: 0x3FD3_4413_509F_79FF }
    }

    /// Two: the logarithm is the binary64 nearest to log10(2).
    #[verifier::when_used_as_spec(spec_two)]
    pub fn two() -> (r: BigNum)
        ensures
            r.is_negative == false,
            r.exponent == 0x3FD3_4413_509F_79FFu64,
    {
        BigNum { is_negative: false, exponent: 0x3FD3_4413_509F_79FF }
    }
}

} // verus!
