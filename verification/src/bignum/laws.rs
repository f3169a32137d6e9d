//! The general laws of the engine, stated over the same specifications that
//! the executable functions are proved against.

use crate::bignum::comparisons::{cmp_spec, same_value};
use crate::bignum::dbl::{
    double_bits, half_bits, is_finite_bits, is_nan_bits, lemma_half_double, lemma_half_props,
    lemma_sval_reflects_order, mag_key, sval, NEG_INF_BITS, POS_INF_BITS, QUIET_NAN_BITS,
};
use vstd::arithmetic::power2::pow2;
use crate::bignum::operations::{
    add_step_spec, div_special_spec, mul_special_spec, powb_step_spec, powf_step_spec,
    powi_step_spec, rem_special_spec, sub_step_spec, AddStep, PowStep, SubStep,
};
use crate::bignum::BigNum;
use core::cmp::Ordering;
use vstd::prelude::*;

verus! {

/// Sign and order are consistent: two values are incomparable exactly when
/// one is NaN or both are infinities of one sign; otherwise exactly one of
/// below, equal and above holds, the comparison read either way round agrees,
/// and equality under the order is equality of the represented values.
pub proof fn lemma_order_trichotomy(a: BigNum, b: BigNum)
    ensures
        cmp_spec(a, b) is None <==> (a.spec_is_nan() || b.spec_is_nan() || (a.spec_is_infinite()
            && b.spec_is_infinite() && a.is_negative == b.is_negative)),
        cmp_spec(a, b) == Some(Ordering::Less) <==> cmp_spec(b, a) == Some(Ordering::Greater),
        cmp_spec(a, b) == Some(Ordering::Equal) <==> cmp_spec(b, a) == Some(Ordering::Equal),
        !(a.spec_is_infinite() && b.spec_is_infinite()) ==> (cmp_spec(a, b) == Some(
            Ordering::Equal,
        ) <==> same_value(a, b)),
{
}

/// Additive identity: adding (positive) zero gives the operand back — at
/// once for a non-negative operand, and through the sign reduction and the
/// zero short-circuit of the subtraction for a negative one.
pub proof fn lemma_add_zero_identity(a: BigNum)
    requires
        a.spec_is_finite(),
    ensures
        !a.is_negative ==> add_step_spec(a, BigNum::zero()) == AddStep::Done(a),
        a.is_negative ==> add_step_spec(a, BigNum::zero()) == (AddStep::ViaSub {
            x: BigNum::zero(),
            y: a.spec_neg(),
        }),
        a.is_negative ==> sub_step_spec(BigNum::zero(), a.spec_neg()) == SubStep::Done(a),
{
}

/// Additive inverse: subtracting a finite value from itself is zero, exactly
/// — the logarithms are equal, and `10^0 - 1` is exactly zero — under the
/// operand's own sign.
pub proof fn lemma_sub_self_is_zero(a: BigNum)
    requires
        a.spec_is_finite(),
    ensures
        !a.spec_is_zero() ==> sub_step_spec(a, a) == SubStep::Done(
            BigNum { is_negative: a.is_negative, exponent: NEG_INF_BITS },
        ),
        a.spec_is_zero() ==> sub_step_spec(a, a) == SubStep::Done(a.spec_neg()),
        sub_step_spec(a, a) matches SubStep::Done(r) && r.spec_is_zero(),
{
}

/// The power zero gives one, through either exponent form, for every base
/// that is neither NaN nor infinite (an infinite base raised to the power
/// zero is NaN instead).
pub proof fn lemma_pow_zero_is_one(a: BigNum)
    requires
        !a.spec_is_nan(),
        !a.spec_is_infinite(),
    ensures
        powf_step_spec(a, 0) == PowStep::Done(BigNum::one()),
        powf_step_spec(a, 0x8000_0000_0000_0000) == PowStep::Done(BigNum::one()),
        powi_step_spec(a, 0) == PowStep::Done(BigNum::one()),
{
}

/// The power one gives the base back, through either exponent form, for
/// every finite non-zero base.
pub proof fn lemma_pow_one_is_identity(a: BigNum)
    requires
        a.spec_is_finite(),
        !a.spec_is_zero(),
    ensures
        powf_step_spec(a, 0x3FF0_0000_0000_0000) == PowStep::Done(a),
        powi_step_spec(a, 1) == PowStep::Done(a),
{
}

/// The square root of the square restores the absolute value bit for bit,
/// for every finite value whose logarithm lies below the top binade (from
/// there the square saturates to infinity).
pub proof fn lemma_sqrt_of_sqr(a: BigNum)
    requires
        a.spec_is_finite(),
        crate::bignum::dbl::exp_field(a.exponent) < 0x7FE,
    ensures
        !is_nan_bits(double_bits(a.exponent)),
        half_bits(double_bits(a.exponent)) == a.exponent,
{
    crate::bignum::dbl::lemma_double_props(a.exponent);
    lemma_half_double(a.exponent);
}


/// The order is transitive: below of below stays below. (No chain can end at
/// an incomparable pair: nothing lies above positive infinity or below
/// negative infinity.)
pub proof fn lemma_order_transitive(a: BigNum, b: BigNum, c: BigNum)
    requires
        cmp_spec(a, b) == Some(Ordering::Less),
        cmp_spec(b, c) == Some(Ordering::Less),
    ensures
        cmp_spec(a, c) == Some(Ordering::Less),
{
}


/// The negligibility cutoff: adding a non-negative addend whose logarithm
/// lies more than 20 decades below a positive operand's — or a zero addend —
/// returns that operand unchanged.
pub proof fn lemma_negligible_addend(a: BigNum, b: BigNum)
    requires
        !a.is_negative,
        !b.is_negative,
        a.spec_is_finite(),
        b.spec_is_finite(),
        !a.spec_is_zero(),
        b.spec_is_zero() || sval(a.exponent) - sval(b.exponent) > 20 * pow2(1075),
    ensures
        add_step_spec(a, b) == AddStep::Done(a),
{
    vstd::arithmetic::power2::lemma_pow2_pos(1075);
    if !b.spec_is_zero() {
        assert(20 * pow2(1075) >= 0) by (nonlinear_arith)
            requires
                pow2(1075) > 0,
        ;
        lemma_sval_reflects_order(b.exponent, a.exponent);
    } else {
        assert(crate::bignum::dbl::ord_key(b.exponent) < crate::bignum::dbl::ord_key(a.exponent));
    }
}


/// The square root halves the logarithm exactly: for every finite logarithm
/// with a representable half — any value above the subnormal floor, or an
/// even pattern on it — the magnitude of the halved logarithm is exactly half
/// the original's.
pub proof fn lemma_sqrt_halves_logarithm(a: BigNum)
    requires
        !a.is_negative,
        is_finite_bits(a.exponent),
        crate::bignum::dbl::exp_field(a.exponent) >= 2 || crate::bignum::dbl::abs_bits(a.exponent)
            % 2 == 0,
    ensures
        mag_key(a.exponent) == 2 * mag_key(half_bits(a.exponent)),
        crate::bignum::dbl::sign_of(half_bits(a.exponent)) == crate::bignum::dbl::sign_of(
            a.exponent,
        ),
{
    lemma_half_props(a.exponent);
}

/// NaN propagates through every binary operation and every power.
pub proof fn lemma_nan_propagates(a: BigNum, b: BigNum, exp: u64, exp_i: i32, exp_odd: bool)
    requires
        a.spec_is_nan() || b.spec_is_nan(),
    ensures
        add_step_spec(a, b) == AddStep::Done(BigNum::nan()),
        sub_step_spec(a, b) == SubStep::Done(BigNum::nan()),
        mul_special_spec(a, b) == Some(BigNum::nan()),
        div_special_spec(a, b) == Some(BigNum::nan()),
        rem_special_spec(a, b) == Some(
            BigNum { is_negative: a.is_negative != b.is_negative, exponent: QUIET_NAN_BITS },
        ),
        a.spec_is_nan() ==> powf_step_spec(a, exp) == PowStep::Done(BigNum::nan()),
        a.spec_is_nan() ==> powi_step_spec(a, exp_i) == PowStep::Done(BigNum::nan()),
        powb_step_spec(a, b, exp_odd) == PowStep::Done(BigNum::nan()),
{
}

/// The two infinities combine exactly as the tables say: equal signs add to
/// the same infinity and subtract to NaN, opposite signs add to NaN and
/// subtract to an infinity under the minuend's sign; a product of infinities
/// is an infinity under the XOR of the signs, their quotient is NaN, their
/// remainder a zero under that XOR.
pub proof fn lemma_infinite_pairs(a: BigNum, b: BigNum)
    requires
        a.spec_is_infinite(),
        b.spec_is_infinite(),
    ensures
        a.is_negative == b.is_negative ==> add_step_spec(a, b) == AddStep::Done(a),
        a.is_negative != b.is_negative ==> add_step_spec(a, b) == AddStep::Done(BigNum::nan()),
        a.is_negative == b.is_negative ==> sub_step_spec(a, b) == SubStep::Done(BigNum::nan()),
        a.is_negative != b.is_negative ==> sub_step_spec(a, b) == SubStep::Done(
            BigNum { is_negative: a.is_negative, exponent: POS_INF_BITS },
        ),
        mul_special_spec(a, b) == Some(
            BigNum { is_negative: a.is_negative != b.is_negative, exponent: POS_INF_BITS },
        ),
        div_special_spec(a, b) == Some(BigNum::nan()),
        rem_special_spec(a, b) == Some(
            BigNum { is_negative: a.is_negative != b.is_negative, exponent: NEG_INF_BITS },
        ),
{
}

/// An infinity against any finite value (zero included): it absorbs the sum
/// and the difference, turns the product into an infinity under the XOR of
/// the signs — a product of an infinity and zero included — and divides to
/// an infinity or is divided into zero.
pub proof fn lemma_infinite_against_finite(a: BigNum, b: BigNum)
    requires
        a.spec_is_infinite(),
        b.spec_is_finite(),
    ensures
        add_step_spec(a, b) == AddStep::Done(a),
        add_step_spec(b, a) == AddStep::Done(a),
        sub_step_spec(a, b) == SubStep::Done(
            BigNum { is_negative: a.is_negative, exponent: POS_INF_BITS },
        ),
        sub_step_spec(b, a) == SubStep::Done(
            BigNum { is_negative: b.is_negative, exponent: POS_INF_BITS },
        ),
        mul_special_spec(a, b) == Some(
            BigNum { is_negative: a.is_negative != b.is_negative, exponent: POS_INF_BITS },
        ),
        mul_special_spec(b, a) == Some(
            BigNum { is_negative: a.is_negative != b.is_negative, exponent: POS_INF_BITS },
        ),
        div_special_spec(a, b) == Some(
            BigNum { is_negative: a.is_negative != b.is_negative, exponent: POS_INF_BITS },
        ),
        div_special_spec(b, a) == Some(BigNum::zero()),
{
}

} // verus!
