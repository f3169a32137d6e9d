//! Numbers of essentially unbounded range, stored as a sign and the base-10
//! logarithm of the magnitude.
//!
//! The logarithm is kept as the bit pattern of an IEEE-754 binary64 value in a
//! plain `u64`, so that every decision the library makes about it — its class,
//! its sign, how two logarithms compare — is ordinary integer logic with an
//! exact mathematical meaning. The encoding doubles as the carrier of the
//! special values:
//!
//! * logarithm negative infinity — the represented number is zero,
//! * logarithm positive infinity — the represented number is infinite,
//! * logarithm NaN — the represented number is NaN,
//! * any finite logarithm `l` — the represented number is `±10^l`.
//!
//! The transcendental steps of the arithmetic (evaluating `10^x` and `log10`)
//! cannot run inside the verified core; every operation that needs one is
//! split into a verified decision part here and a small numeric kernel that a
//! host program supplies, driven through the `*_step` functions.

pub mod comparisons;
pub mod constants;
pub mod converters;
pub mod dbl;
pub mod laws;
pub mod misc;
pub mod negligibility;
pub mod operations;

use vstd::prelude::*;

verus! {

/// A signed number `±10^exponent`, where `exponent` holds the IEEE-754
/// binary64 bit pattern of the base-10 logarithm of the magnitude.
#[derive(Debug, Copy, Clone)]
pub struct BigNum {
    /// True when the represented number is negative (including negative zero
    /// and negative infinity).
    pub is_negative: bool,
    /// Bit pattern of the base-10 logarithm of the absolute value.
    pub exponent: u64,
}

} // verus!
