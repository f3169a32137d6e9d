//! The arithmetic engine.
//!
//! Every operation first dispatches on the special values (NaN, the
//! infinities, zero) and on the signs; all of those decisions are verified
//! here, exactly. What remains of a binary operation is a single evaluation
//! of `10^x` / `log10` on the stored logarithms, which no verified code can
//! perform: the `*_step` functions hand that one evaluation to the caller as
//! data, and the `*_combined` functions assemble the verified result around
//! the returned logarithm.

use crate::bignum::comparisons::cmp_spec;
use crate::bignum::dbl::{
    abs_bits, dbl_double, dbl_eq, dbl_eq_x, dbl_half, dbl_is_even_integer, dbl_lt, dbl_lt_x,
    dbl_neg, double_bits, half_bits, is_even_integer_bits, is_nan_bits, lemma_finite_from_class,
    sign_of, sval, NEG_INF_BITS, POS_INF_BITS, QUIET_NAN_BITS,
};
use crate::bignum::negligibility::{dbl_gap_at_least_15, dbl_gap_exceeds_20};
use vstd::arithmetic::power2::pow2;
use crate::bignum::BigNum;
use core::cmp::Ordering;
use vstd::prelude::*;

verus! {

impl BigNum {
    /// The same magnitude with the opposite sign.
    pub open spec fn spec_neg(self) -> BigNum {
        BigNum { is_negative: !self.is_negative, exponent: self.exponent }
    }

    /// Negation: flips the sign, keeps the logarithm.
    pub fn neg(&self) -> (r: BigNum)
        ensures
            r == self.spec_neg(),
    {
        BigNum { is_negative: !self.is_negative, exponent: self.exponent }
    }

    /// Absolute value: clears the sign, keeps the logarithm.
    pub fn abs(&self) -> (r: BigNum)
        ensures
            r == (BigNum { is_negative: false, exponent: self.exponent }),
    {
        BigNum { is_negative: false, exponent: self.exponent }
    }

    /// The sign of the value as `±1` (logarithm zero); NaN propagates.
    pub fn signum(&self) -> (r: BigNum)
        ensures
            self.spec_is_nan() ==> r == BigNum::nan(),
            !self.spec_is_nan() ==> r == (BigNum { is_negative: self.is_negative, exponent: 0u64 }),
    {
        if self.is_nan() {
            return BigNum::nan();
        }
        BigNum { is_negative: self.is_negative, exponent: 0 }
    }

    /// The reciprocal `1 / self`: negates the logarithm, keeps the sign. The
    /// negation is exact, so the reciprocal of a reciprocal restores the
    /// value bit for bit.
    pub fn recip(&self) -> (r: BigNum)
        ensures
            r.is_negative == self.is_negative,
            abs_bits(r.exponent) == abs_bits(self.exponent),
            sign_of(r.exponent) == !sign_of(self.exponent),
    {
        BigNum { is_negative: self.is_negative, exponent: dbl_neg(self.exponent) }
    }

    /// The pair `(self, other)` sorted ascending; with incomparable operands
    /// (either NaN, or infinities of one sign) the order is kept as given.
    pub fn order(&self, other: &BigNum) -> (r: (BigNum, BigNum))
        ensures
            r == (if cmp_spec(*self, *other) == Some(Ordering::Less) {
                (*self, *other)
            } else {
                (*other, *self)
            }),
    {
        if self.lt(other) {
            (*self, *other)
        } else {
            (*other, *self)
        }
    }

    /// The smaller of the two values; with incomparable or equal operands the
    /// second is returned, as [`BigNum::order`] keeps it first.
    pub fn min(&self, other: &BigNum) -> (r: BigNum)
        ensures
            r == (if cmp_spec(*self, *other) == Some(Ordering::Less) {
                *self
            } else {
                *other
            }),
    {
        self.order(other).0
    }

    /// The larger of the two values; the first operand is preferred on ties.
    pub fn max(&self, other: &BigNum) -> (r: BigNum)
        ensures
            r == (if cmp_spec(*self, *other) == Some(Ordering::Less) {
                *other
            } else {
                *self
            }),
    {
        self.order(other).1
    }

    /// `self` clamped into `[min_v, max_v]`; `None` when `self` is NaN. A
    /// NaN bound never triggers its side of the clamp.
    pub fn clamp(&self, min_v: &BigNum, max_v: &BigNum) -> (r: Option<BigNum>)
        ensures
            r == (if self.spec_is_nan() {
                Option::<BigNum>::None
            } else if cmp_spec(*self, *min_v) == Some(Ordering::Less) {
                Some(*min_v)
            } else if cmp_spec(*self, *max_v) == Some(Ordering::Greater) {
                Some(*max_v)
            } else {
                Some(*self)
            }),
    {
        if self.is_nan() {
            return None;
        }
        if self.lt(min_v) {
            return Some(*min_v);
        }
        if self.gt(max_v) {
            return Some(*max_v);
        }
        Some(*self)
    }
}


/// What remains to do for an addition: either the result — the negligibility
/// cutoff included: once the larger operand's logarithm exceeds the smaller's
/// by more than 20 decades, the smaller term cannot register at binary64
/// precision and the larger operand is the sum — or a reduction to a
/// subtraction of same-signed values, or one log-domain combination
/// `larger.exponent + log10(1 + 10^(smaller.exponent - larger.exponent))`
/// that the caller evaluates.
pub enum AddStep {
    /// The sum is fully decided.
    Done(BigNum),
    /// Opposite signs: the sum equals `x - y`, where `x` and `y` carry one
    /// sign.
    ViaSub { x: BigNum, y: BigNum },
    /// Same-signed finite operands, the smaller one non-zero and at most 20
    /// decades below the larger: evaluate the combination above and finish
    /// with [`BigNum::add_combined`].
    CombineLogs { larger: BigNum, smaller: BigNum },
}

/// What remains to do for a subtraction: either the result — the
/// negligibility cutoff included: with the logarithms more than 20 decades
/// apart the dominant operand decides the difference outright — or a
/// reduction to an addition of same-signed values, or one log-domain
/// combination `rhs.exponent + log10(|10^(lhs.exponent - rhs.exponent) - 1|)`
/// that the caller evaluates.
pub enum SubStep {
    /// The difference is fully decided.
    Done(BigNum),
    /// Opposite signs: the difference equals `x + y` (negated when `negate`),
    /// where `x` and `y` carry one sign.
    ViaAdd { x: BigNum, y: BigNum, negate: bool },
    /// Same-signed finite non-zero operands whose logarithms differ by no
    /// more than 20 decades: evaluate the combination above and finish with
    /// [`BigNum::sub_combined`].
    CombineLogs { lhs: BigNum, rhs: BigNum },
}

/// What remains to do for a power: either the result, or the one product
/// `self.exponent * exp` of the logarithm by the power, with the result's
/// sign already decided.
pub enum PowStep {
    /// The power is fully decided.
    Done(BigNum),
    /// Finite non-zero base: the caller evaluates the product of the
    /// logarithm by the power and builds the result with
    /// [`BigNum::from_exponent`] under the given sign.
    MulExp { negative: bool },
}

/// The addition dispatch: every case of [`BigNum::add_step`], as a value.
pub open spec fn add_step_spec(a: BigNum, b: BigNum) -> AddStep {
    if is_nan_bits(a.exponent) || is_nan_bits(b.exponent) {
        AddStep::Done(BigNum::nan())
    } else if a.spec_is_infinite() || b.spec_is_infinite() {
        if a.spec_is_infinite() && b.spec_is_infinite() && a.is_negative != b.is_negative {
            AddStep::Done(BigNum::nan())
        } else if a.spec_is_infinite() {
            AddStep::Done(a)
        } else {
            AddStep::Done(b)
        }
    } else if a.is_negative != b.is_negative {
        if a.is_negative {
            AddStep::ViaSub { x: b, y: a.spec_neg() }
        } else {
            AddStep::ViaSub { x: a, y: b.spec_neg() }
        }
    } else {
        let smaller = if cmp_spec(a, b) == Some(Ordering::Less) { a } else { b };
        let larger = if cmp_spec(a, b) == Some(Ordering::Less) { b } else { a };
        if smaller.spec_is_zero() {
            AddStep::Done(larger)
        } else if !larger.spec_is_zero() && sval(larger.exponent) - sval(smaller.exponent) > 20
            * pow2(1075) {
            AddStep::Done(larger)
        } else {
            AddStep::CombineLogs { larger, smaller }
        }
    }
}

/// The subtraction dispatch: every case of [`BigNum::sub_step`], as a value.
/// Equal logarithms are decided here: `10^0 - 1` is exactly zero, so the
/// difference of two same-signed values of one magnitude is a zero carrying
/// the minuend's sign.
pub open spec fn sub_step_spec(a: BigNum, b: BigNum) -> SubStep {
    if is_nan_bits(a.exponent) || is_nan_bits(b.exponent) {
        SubStep::Done(BigNum::nan())
    } else if a.spec_is_infinite() || b.spec_is_infinite() {
        if a.spec_is_infinite() && b.spec_is_infinite() && a.is_negative == b.is_negative {
            SubStep::Done(BigNum::nan())
        } else {
            SubStep::Done(BigNum { is_negative: a.is_negative, exponent: POS_INF_BITS })
        }
    } else if a.is_negative != b.is_negative {
        if a.is_negative {
            SubStep::ViaAdd { x: a.spec_neg(), y: b, negate: true }
        } else {
            SubStep::ViaAdd { x: a, y: b.spec_neg(), negate: false }
        }
    } else if a.spec_is_zero() {
        SubStep::Done(b.spec_neg())
    } else if b.spec_is_zero() {
        SubStep::Done(a)
    } else if dbl_eq(a.exponent, b.exponent) {
        SubStep::Done(BigNum { is_negative: a.is_negative, exponent: NEG_INF_BITS })
    } else if sval(a.exponent) - sval(b.exponent) > 20 * pow2(1075) {
        SubStep::Done(a)
    } else if sval(b.exponent) - sval(a.exponent) > 20 * pow2(1075) {
        SubStep::Done(b.spec_neg())
    } else {
        SubStep::CombineLogs { lhs: a, rhs: b }
    }
}

/// The special cases of a multiplication: NaN propagates, any infinite
/// operand gives an infinity under the XOR of the signs. `None` means both
/// operands are finite and the product's logarithm is the sum
/// `a.exponent + b.exponent`, to be finished with [`BigNum::mul_combined`].
pub open spec fn mul_special_spec(a: BigNum, b: BigNum) -> Option<BigNum> {
    if is_nan_bits(a.exponent) || is_nan_bits(b.exponent) {
        Some(BigNum::nan())
    } else if a.spec_is_infinite() || b.spec_is_infinite() {
        Some(BigNum { is_negative: a.is_negative != b.is_negative, exponent: POS_INF_BITS })
    } else {
        None
    }
}

/// The special cases of a division: NaN propagates, infinity over infinity is
/// NaN, infinity over a finite value is a signed infinity, a finite value
/// over infinity is zero. `None` means both operands are finite and the
/// quotient's logarithm is the difference `a.exponent - b.exponent`, to be
/// finished with [`BigNum::div_combined`].
pub open spec fn div_special_spec(a: BigNum, b: BigNum) -> Option<BigNum> {
    if is_nan_bits(a.exponent) || is_nan_bits(b.exponent) {
        Some(BigNum::nan())
    } else if a.spec_is_infinite() || b.spec_is_infinite() {
        if a.spec_is_infinite() && b.spec_is_infinite() {
            Some(BigNum::nan())
        } else if a.spec_is_infinite() {
            Some(BigNum { is_negative: a.is_negative != b.is_negative, exponent: POS_INF_BITS })
        } else {
            Some(BigNum::zero())
        }
    } else {
        None
    }
}

/// The special cases of a remainder, following the evaluation order of the
/// log-domain algorithm: two infinities give a zero under the XOR of the
/// signs; a NaN operand, or two zeros, give a NaN under that XOR; a dividend
/// below the divisor (or with a zero or infinite-divisor logarithm gap
/// pushing it there) passes through; a gap of 15 decades or more, or equal
/// logarithms, give a zero. `None` means both operands are finite, non-zero
/// and the dividend's logarithm exceeds the divisor's by less than 15: the
/// caller evaluates `10^(a.exponent - b.exponent)`, splits off its fractional
/// part and finishes with [`BigNum::rem_combined`].
pub open spec fn rem_special_spec(a: BigNum, b: BigNum) -> Option<BigNum> {
    if a.spec_is_infinite() && b.spec_is_infinite() {
        Some(BigNum { is_negative: a.is_negative != b.is_negative, exponent: NEG_INF_BITS })
    } else if is_nan_bits(a.exponent) || is_nan_bits(b.exponent) {
        Some(BigNum { is_negative: a.is_negative != b.is_negative, exponent: QUIET_NAN_BITS })
    } else if a.spec_is_zero() && b.spec_is_zero() {
        Some(BigNum { is_negative: a.is_negative != b.is_negative, exponent: QUIET_NAN_BITS })
    } else if a.spec_is_zero() || b.spec_is_infinite() {
        Some(a)
    } else if a.spec_is_infinite() || b.spec_is_zero() {
        Some(BigNum { is_negative: a.is_negative, exponent: NEG_INF_BITS })
    } else if dbl_lt(a.exponent, b.exponent) {
        Some(a)
    } else if dbl_eq(a.exponent, b.exponent) {
        Some(BigNum { is_negative: a.is_negative, exponent: NEG_INF_BITS })
    } else if sval(a.exponent) - sval(b.exponent) >= 15 * pow2(1075) {
        Some(BigNum { is_negative: a.is_negative, exponent: NEG_INF_BITS })
    } else {
        None
    }
}

impl BigNum {
    /// Decides an addition as far as the special values, the signs and the
    /// ordering go; see [`AddStep`] for what may remain.
    pub fn add_step(&self, other: &BigNum) -> (r: AddStep)
        ensures
            r == add_step_spec(*self, *other),
    {
        if self.is_nan() || other.is_nan() {
            return AddStep::Done(BigNum::nan());
        }
        if self.is_infinite() || other.is_infinite() {
            if self.is_infinite() && other.is_infinite() && self.is_negative != other.is_negative {
                return AddStep::Done(BigNum::nan());
            }
            if self.is_infinite() {
                return AddStep::Done(*self);
            }
            return AddStep::Done(*other);
        }
        if self.is_negative != other.is_negative {
            if self.is_negative {
                return AddStep::ViaSub { x: *other, y: self.neg() };
            }
            return AddStep::ViaSub { x: *self, y: other.neg() };
        }
        let ordered = self.order(other);
        if ordered.0.is_zero() {
            return AddStep::Done(ordered.1);
        }
        if !ordered.1.is_zero() {
            proof {
                lemma_finite_from_class(ordered.1.exponent);
                lemma_finite_from_class(ordered.0.exponent);
            }
            if dbl_gap_exceeds_20(ordered.1.exponent, ordered.0.exponent) {
                return AddStep::Done(ordered.1);
            }
        }
        AddStep::CombineLogs { larger: ordered.1, smaller: ordered.0 }
    }

    /// Builds the sum once the caller has evaluated the combined logarithm:
    /// the sign is the larger operand's.
    pub fn add_combined(larger: &BigNum, exponent: u64) -> (r: BigNum)
        ensures
            r == (BigNum { is_negative: larger.is_negative, exponent }),
    {
        BigNum { is_negative: larger.is_negative, exponent }
    }

    /// Decides a subtraction as far as the special values, the signs and the
    /// zero operands go; see [`SubStep`] for what may remain.
    pub fn sub_step(&self, other: &BigNum) -> (r: SubStep)
        ensures
            r == sub_step_spec(*self, *other),
    {
        if self.is_nan() || other.is_nan() {
            return SubStep::Done(BigNum::nan());
        }
        if self.is_infinite() || other.is_infinite() {
            if self.is_infinite() && other.is_infinite() && self.is_negative == other.is_negative {
                return SubStep::Done(BigNum::nan());
            }
            return SubStep::Done(
                BigNum { is_negative: self.is_negative, exponent: 0x7FF0_0000_0000_0000 },
            );
        }
        if self.is_negative != other.is_negative {
            if self.is_negative {
                return SubStep::ViaAdd { x: self.neg(), y: *other, negate: true };
            }
            return SubStep::ViaAdd { x: *self, y: other.neg(), negate: false };
        }
        if self.is_zero() {
            return SubStep::Done(other.neg());
        }
        if other.is_zero() {
            return SubStep::Done(*self);
        }
        if dbl_eq_x(self.exponent, other.exponent) {
            return SubStep::Done(
                BigNum { is_negative: self.is_negative, exponent: 0xFFF0_0000_0000_0000 },
            );
        }
        proof {
            lemma_finite_from_class(self.exponent);
            lemma_finite_from_class(other.exponent);
        }
        if dbl_gap_exceeds_20(self.exponent, other.exponent) {
            return SubStep::Done(*self);
        }
        if dbl_gap_exceeds_20(other.exponent, self.exponent) {
            return SubStep::Done(other.neg());
        }
        SubStep::CombineLogs { lhs: *self, rhs: *other }
    }

    /// Builds the difference once the caller has evaluated the combined
    /// logarithm: the minuend's sign flips exactly when its logarithm was the
    /// smaller one.
    pub fn sub_combined(lhs: &BigNum, rhs: &BigNum, exponent: u64) -> (r: BigNum)
        ensures
            r == (BigNum {
                is_negative: lhs.is_negative != dbl_lt(lhs.exponent, rhs.exponent),
                exponent,
            }),
    {
        BigNum {
            is_negative: lhs.is_negative != dbl_lt_x(lhs.exponent, rhs.exponent),
            exponent,
        }
    }

    /// Decides a multiplication's special cases; see [`mul_special_spec`].
    pub fn mul_special(&self, other: &BigNum) -> (r: Option<BigNum>)
        ensures
            r == mul_special_spec(*self, *other),
    {
        if self.is_nan() || other.is_nan() {
            return Some(BigNum::nan());
        }
        if self.is_infinite() || other.is_infinite() {
            return Some(
                BigNum {
                    is_negative: self.is_negative != other.is_negative,
                    exponent: 0x7FF0_0000_0000_0000,
                },
            );
        }
        None
    }

    /// Builds the product once the caller has evaluated the sum of the
    /// logarithms: the sign is the XOR of the operands' signs.
    pub fn mul_combined(a: &BigNum, b: &BigNum, exponent: u64) -> (r: BigNum)
        ensures
            r == (BigNum { is_negative: a.is_negative != b.is_negative, exponent }),
    {
        BigNum { is_negative: a.is_negative != b.is_negative, exponent }
    }

    /// Decides a division's special cases; see [`div_special_spec`].
    pub fn div_special(&self, other: &BigNum) -> (r: Option<BigNum>)
        ensures
            r == div_special_spec(*self, *other),
    {
        if self.is_nan() || other.is_nan() {
            return Some(BigNum::nan());
        }
        if self.is_infinite() || other.is_infinite() {
            if self.is_infinite() && other.is_infinite() {
                return Some(BigNum::nan());
            }
            if self.is_infinite() {
                return Some(
                    BigNum {
                        is_negative: self.is_negative != other.is_negative,
                        exponent: 0x7FF0_0000_0000_0000,
                    },
                );
            }
            return Some(BigNum::zero());
        }
        None
    }

    /// Builds the quotient once the caller has evaluated the difference of
    /// the logarithms: the sign is the XOR of the operands' signs.
    pub fn div_combined(a: &BigNum, b: &BigNum, exponent: u64) -> (r: BigNum)
        ensures
            r == (BigNum { is_negative: a.is_negative != b.is_negative, exponent }),
    {
        BigNum { is_negative: a.is_negative != b.is_negative, exponent }
    }

    /// Decides a remainder's special cases; see [`rem_special_spec`].
    pub fn rem_special(&self, other: &BigNum) -> (r: Option<BigNum>)
        ensures
            r == rem_special_spec(*self, *other),
    {
        if self.is_infinite() && other.is_infinite() {
            return Some(
                BigNum {
                    is_negative: self.is_negative != other.is_negative,
                    exponent: 0xFFF0_0000_0000_0000,
                },
            );
        }
        if self.is_nan() || other.is_nan() {
            return Some(
                BigNum {
                    is_negative: self.is_negative != other.is_negative,
                    exponent: 0x7FF8_0000_0000_0000,
                },
            );
        }
        if self.is_zero() && other.is_zero() {
            return Some(
                BigNum {
                    is_negative: self.is_negative != other.is_negative,
                    exponent: 0x7FF8_0000_0000_0000,
                },
            );
        }
        if self.is_zero() || other.is_infinite() {
            return Some(*self);
        }
        if self.is_infinite() || other.is_zero() {
            return Some(
                BigNum { is_negative: self.is_negative, exponent: 0xFFF0_0000_0000_0000 },
            );
        }
        if dbl_lt_x(self.exponent, other.exponent) {
            return Some(*self);
        }
        if dbl_eq_x(self.exponent, other.exponent) {
            return Some(
                BigNum { is_negative: self.is_negative, exponent: 0xFFF0_0000_0000_0000 },
            );
        }
        proof {
            lemma_finite_from_class(self.exponent);
            lemma_finite_from_class(other.exponent);
        }
        if dbl_gap_at_least_15(self.exponent, other.exponent) {
            return Some(
                BigNum { is_negative: self.is_negative, exponent: 0xFFF0_0000_0000_0000 },
            );
        }
        None
    }

    /// Builds the remainder once the caller has evaluated
    /// `10^(lhs.exponent - rhs.exponent)` and split off its fractional part:
    /// a zero fraction gives a zero result, otherwise the given logarithm is
    /// `rhs.exponent + log10(fraction)`; either way the sign is the XOR of
    /// the operands' signs.
    pub fn rem_combined(lhs: &BigNum, rhs: &BigNum, fraction_zero: bool, exponent: u64) -> (r:
        BigNum)
        ensures
            r == (BigNum {
                is_negative: lhs.is_negative != rhs.is_negative,
                exponent: if fraction_zero {
                    NEG_INF_BITS
                } else {
                    exponent
                },
            }),
    {
        if fraction_zero {
            return BigNum {
                is_negative: lhs.is_negative != rhs.is_negative,
                exponent: 0xFFF0_0000_0000_0000,
            };
        }
        BigNum { is_negative: lhs.is_negative != rhs.is_negative, exponent }
    }
}


/// The dispatch of a power with a native-float exponent, given as its bit
/// pattern `exp`. NaN propagates from either side. A zero base gives one,
/// NaN or zero as the power is zero, negative or positive. An infinite base
/// gives NaN, zero or a signed infinity the same way, negative exactly when
/// the base is negative and the power is odd (not an even integer). The
/// powers zero and one are decided directly; any other finite case leaves the
/// product of the logarithm by the power to the caller.
pub open spec fn powf_step_spec(a: BigNum, exp: u64) -> PowStep {
    if is_nan_bits(a.exponent) || is_nan_bits(exp) {
        PowStep::Done(BigNum::nan())
    } else if a.spec_is_zero() {
        if abs_bits(exp) == 0 {
            PowStep::Done(BigNum::one())
        } else if sign_of(exp) {
            PowStep::Done(BigNum::nan())
        } else {
            PowStep::Done(BigNum::zero())
        }
    } else if a.spec_is_infinite() {
        if abs_bits(exp) == 0 {
            PowStep::Done(BigNum::nan())
        } else if sign_of(exp) {
            PowStep::Done(BigNum::zero())
        } else {
            PowStep::Done(
                BigNum {
                    is_negative: a.is_negative && !is_even_integer_bits(exp),
                    exponent: POS_INF_BITS,
                },
            )
        }
    } else if abs_bits(exp) == 0 {
        PowStep::Done(BigNum::one())
    } else if exp == 0x3FF0_0000_0000_0000 {
        PowStep::Done(a)
    } else {
        PowStep::MulExp { negative: a.is_negative && !is_even_integer_bits(exp) }
    }
}

/// The dispatch of a power with a machine-integer exponent; the same table as
/// [`powf_step_spec`] with the integer's own sign and parity.
pub open spec fn powi_step_spec(a: BigNum, exp: i32) -> PowStep {
    if is_nan_bits(a.exponent) {
        PowStep::Done(BigNum::nan())
    } else if a.spec_is_zero() {
        if exp > 0 {
            PowStep::Done(BigNum::zero())
        } else if exp < 0 {
            PowStep::Done(BigNum::nan())
        } else {
            PowStep::Done(BigNum::one())
        }
    } else if a.spec_is_infinite() {
        if exp > 0 {
            PowStep::Done(
                BigNum { is_negative: a.is_negative && exp % 2 != 0, exponent: POS_INF_BITS },
            )
        } else if exp < 0 {
            PowStep::Done(BigNum::zero())
        } else {
            PowStep::Done(BigNum::nan())
        }
    } else if exp == 0 {
        PowStep::Done(BigNum::one())
    } else if exp == 1 {
        PowStep::Done(a)
    } else {
        PowStep::MulExp { negative: a.is_negative && exp % 2 != 0 }
    }
}

/// The dispatch of a power whose exponent is itself a [`BigNum`]. The caller
/// decides `exp_odd` beforehand (whether `exp mod 2` differs from zero, by
/// the library's own remainder); the table is then that of
/// [`powf_step_spec`], with the exponent's value read off its fields.
pub open spec fn powb_step_spec(a: BigNum, exp: BigNum, exp_odd: bool) -> PowStep {
    if is_nan_bits(a.exponent) || is_nan_bits(exp.exponent) {
        PowStep::Done(BigNum::nan())
    } else if a.spec_is_zero() {
        if exp.spec_is_zero() {
            PowStep::Done(BigNum::one())
        } else if exp.is_negative {
            PowStep::Done(BigNum::nan())
        } else {
            PowStep::Done(BigNum::zero())
        }
    } else if a.spec_is_infinite() {
        if exp.spec_is_zero() {
            PowStep::Done(BigNum::nan())
        } else if exp.is_negative {
            PowStep::Done(BigNum::zero())
        } else {
            PowStep::Done(
                BigNum { is_negative: a.is_negative && exp_odd, exponent: POS_INF_BITS },
            )
        }
    } else {
        PowStep::MulExp { negative: a.is_negative && exp_odd }
    }
}

impl BigNum {
    /// Decides a power by a native-float exponent, given as the bit pattern
    /// `exp`; see [`powf_step_spec`].
    pub fn powf_step(&self, exp: u64) -> (r: PowStep)
        ensures
            r == powf_step_spec(*self, exp),
    {
        let exp_abs: u64 = exp % 0x8000_0000_0000_0000;
        if self.is_nan() || exp_abs > 0x7FF0_0000_0000_0000 {
            return PowStep::Done(BigNum::nan());
        }
        let exp_negative: bool = exp >= 0x8000_0000_0000_0000;
        if self.is_zero() {
            if exp_abs == 0 {
                return PowStep::Done(BigNum::one());
            }
            if exp_negative {
                return PowStep::Done(BigNum::nan());
            }
            return PowStep::Done(BigNum::zero());
        }
        if self.is_infinite() {
            if exp_abs == 0 {
                return PowStep::Done(BigNum::nan());
            }
            if exp_negative {
                return PowStep::Done(BigNum::zero());
            }
            return PowStep::Done(
                BigNum {
                    is_negative: self.is_negative && !dbl_is_even_integer(exp),
                    exponent: 0x7FF0_0000_0000_0000,
                },
            );
        }
        if exp_abs == 0 {
            return PowStep::Done(BigNum::one());
        }
        if exp == 0x3FF0_0000_0000_0000 {
            return PowStep::Done(*self);
        }
        PowStep::MulExp { negative: self.is_negative && !dbl_is_even_integer(exp) }
    }

    /// Decides a power by a machine-integer exponent; see
    /// [`powi_step_spec`].
    pub fn powi_step(&self, exp: i32) -> (r: PowStep)
        ensures
            r == powi_step_spec(*self, exp),
    {
        if self.is_nan() {
            return PowStep::Done(BigNum::nan());
        }
        if self.is_zero() {
            if exp > 0 {
                return PowStep::Done(BigNum::zero());
            }
            if exp < 0 {
                return PowStep::Done(BigNum::nan());
            }
            return PowStep::Done(BigNum::one());
        }
        if self.is_infinite() {
            if exp > 0 {
                return PowStep::Done(
                    BigNum {
                        is_negative: self.is_negative && exp % 2 != 0,
                        exponent: 0x7FF0_0000_0000_0000,
                    },
                );
            }
            if exp < 0 {
                return PowStep::Done(BigNum::zero());
            }
            return PowStep::Done(BigNum::nan());
        }
        if exp == 0 {
            return PowStep::Done(BigNum::one());
        }
        if exp == 1 {
            return PowStep::Done(*self);
        }
        PowStep::MulExp { negative: self.is_negative && exp % 2 != 0 }
    }

    /// Decides a power by a [`BigNum`] exponent, whose parity `exp_odd` the
    /// caller has taken beforehand; see [`powb_step_spec`].
    pub fn powb_step(&self, exp: &BigNum, exp_odd: bool) -> (r: PowStep)
        ensures
            r == powb_step_spec(*self, *exp, exp_odd),
    {
        if self.is_nan() || exp.is_nan() {
            return PowStep::Done(BigNum::nan());
        }
        if self.is_zero() {
            if exp.is_zero() {
                return PowStep::Done(BigNum::one());
            }
            if exp.is_negative {
                return PowStep::Done(BigNum::nan());
            }
            return PowStep::Done(BigNum::zero());
        }
        if self.is_infinite() {
            if exp.is_zero() {
                return PowStep::Done(BigNum::nan());
            }
            if exp.is_negative {
                return PowStep::Done(BigNum::zero());
            }
            return PowStep::Done(
                BigNum {
                    is_negative: self.is_negative && exp_odd,
                    exponent: 0x7FF0_0000_0000_0000,
                },
            );
        }
        PowStep::MulExp { negative: self.is_negative && exp_odd }
    }
}


impl BigNum {
    /// The square: the logarithm doubles (exactly, saturating to infinity
    /// from the top binade — see [`double_bits`]) and the sign clears.
    pub fn sqr(&self) -> (r: BigNum)
        ensures
            r == (BigNum { is_negative: false, exponent: double_bits(self.exponent) }),
    {
        BigNum { is_negative: false, exponent: dbl_double(self.exponent) }
    }

    /// The square root: NaN for NaN or negative input, otherwise the
    /// logarithm halves (exactly but for the last bit at the subnormal floor
    /// — see [`half_bits`]) and the sign clears.
    pub fn sqrt(&self) -> (r: BigNum)
        ensures
            self.spec_is_nan() || self.is_negative ==> r == BigNum::nan(),
            !(self.spec_is_nan() || self.is_negative) ==> r == (BigNum {
                is_negative: false,
                exponent: half_bits(self.exponent),
            }),
    {
        if self.is_nan() || self.is_negative {
            return BigNum::nan();
        }
        BigNum { is_negative: false, exponent: dbl_half(self.exponent) }
    }

    /// True when the magnitude exceeds the largest finite binary64 value:
    /// the logarithm compares above log10 of that value. Narrowing such a
    /// number to a native float or to fixed-notation text must fail.
    pub fn exceeds_native_range(&self) -> (r: bool)
        ensures
            r == (!self.spec_is_nan() && dbl_lt(0x4073_4413_509F_79FF, self.exponent)),
    {
        if self.is_nan() {
            return false;
        }
        dbl_lt_x(0x4073_4413_509F_79FF, self.exponent)
    }

    /// True when the logarithm compares above 300: the magnitude is so large
    /// that rounding to an integer cannot change it at binary64 precision,
    /// so the rounding family returns the value unchanged (and a zero
    /// fractional part).
    pub fn beyond_integer_precision(&self) -> (r: bool)
        ensures
            r == (!self.spec_is_nan() && dbl_lt(0x4072_C000_0000_0000, self.exponent)),
    {
        if self.is_nan() {
            return false;
        }
        dbl_lt_x(0x4072_C000_0000_0000, self.exponent)
    }
}

} // verus!
