//! The partial order on [`BigNum`] values.
//!
//! NaN is incomparable with everything, itself included. Two infinities of
//! the same sign are incomparable: the stored logarithm alone cannot tell
//! which is larger. Otherwise a negative value is below a positive one, and
//! values of equal sign compare by their logarithms — reversed when both are
//! negative.

use crate::bignum::dbl::{dbl_eq, dbl_lt, dbl_lt_x, is_nan_bits, POS_INF_BITS};
use crate::bignum::BigNum;
use core::cmp::Ordering;
use vstd::prelude::*;

verus! {

/// How `a` compares to `b`: `None` when either is NaN or both are infinities
/// of the same sign, otherwise the sign-major, logarithm-minor order.
pub open spec fn cmp_spec(a: BigNum, b: BigNum) -> Option<Ordering> {
    if is_nan_bits(a.exponent) || is_nan_bits(b.exponent) {
        None
    } else if a.exponent == POS_INF_BITS && b.exponent == POS_INF_BITS && a.is_negative
        == b.is_negative {
        None
    } else if a.is_negative != b.is_negative {
        if a.is_negative {
            Some(Ordering::Less)
        } else {
            Some(Ordering::Greater)
        }
    } else if dbl_lt(b.exponent, a.exponent) {
        if a.is_negative {
            Some(Ordering::Less)
        } else {
            Some(Ordering::Greater)
        }
    } else if dbl_lt(a.exponent, b.exponent) {
        if a.is_negative {
            Some(Ordering::Greater)
        } else {
            Some(Ordering::Less)
        }
    } else {
        Some(Ordering::Equal)
    }
}

/// `a` and `b` represent the same value: equal signs and equal (possibly both
/// zero) logarithms, never NaN. The bit-for-bit equality of the two fields is
/// stricter only in telling the two zero logarithms apart.
pub open spec fn same_value(a: BigNum, b: BigNum) -> bool {
    &&& a.is_negative == b.is_negative
    &&& !is_nan_bits(a.exponent)
    &&& !is_nan_bits(b.exponent)
    &&& dbl_eq(a.exponent, b.exponent)
}

impl PartialEq for BigNum {
    /// Field-wise equality with floating-point meaning on the logarithm: NaN
    /// logarithms are never equal, the two zero logarithms are.
    fn eq(&self, other: &Self) -> (r: bool) {
        if self.is_negative != other.is_negative {
            return false;
        }
        let sa: u64 = self.exponent % 0x8000_0000_0000_0000;
        let sb: u64 = other.exponent % 0x8000_0000_0000_0000;
        if sa > 0x7FF0_0000_0000_0000 || sb > 0x7FF0_0000_0000_0000 {
            return false;
        }
        if sa == 0 && sb == 0 {
            return true;
        }
        self.exponent == other.exponent
    }
}

impl vstd::std_specs::cmp::PartialEqSpecImpl for BigNum {
    open spec fn obeys_eq_spec() -> bool {
        true
    }

    open spec fn eq_spec(&self, other: &Self) -> bool {
        same_value(*self, *other)
    }
}

impl PartialOrd for BigNum {
    /// The partial order described by [`cmp_spec`].
    fn partial_cmp(&self, other: &Self) -> (r: Option<Ordering>) {
        if self.is_nan() || other.is_nan() {
            return None;
        }
        if self.is_infinite() && other.is_infinite() && self.is_negative == other.is_negative {
            return None;
        }
        if self.is_negative && !other.is_negative {
            return Some(Ordering::Less);
        }
        if !self.is_negative && other.is_negative {
            return Some(Ordering::Greater);
        }
        if dbl_lt_x(other.exponent, self.exponent) {
            if self.is_negative {
                return Some(Ordering::Less);
            }
            return Some(Ordering::Greater);
        }
        if dbl_lt_x(self.exponent, other.exponent) {
            if self.is_negative {
                return Some(Ordering::Greater);
            }
            return Some(Ordering::Less);
        }
        Some(Ordering::Equal)
    }
}

impl vstd::std_specs::cmp::PartialOrdSpecImpl for BigNum {
    open spec fn obeys_partial_cmp_spec() -> bool {
        true
    }

    open spec fn partial_cmp_spec(&self, other: &Self) -> Option<Ordering> {
        cmp_spec(*self, *other)
    }
}

impl BigNum {
    /// True when `self` compares strictly below `other`; false whenever the
    /// two are incomparable.
    pub fn lt(&self, other: &BigNum) -> (r: bool)
        ensures
            r == (cmp_spec(*self, *other) == Some(Ordering::Less)),
    {
        match self.partial_cmp(other) {
            Some(Ordering::Less) => true,
            _ => false,
        }
    }

    /// True when `self` compares strictly above `other`; false whenever the
    /// two are incomparable.
    pub fn gt(&self, other: &BigNum) -> (r: bool)
        ensures
            r == (cmp_spec(*self, *other) == Some(Ordering::Greater)),
    {
        match self.partial_cmp(other) {
            Some(Ordering::Greater) => true,
            _ => false,
        }
    }
}

} // verus!
