//! An exact model of IEEE-754 binary64 bit patterns.
//!
//! The library stores every base-10 logarithm as the `u64` bit pattern of a
//! binary64 value. This module gives those patterns their mathematical
//! meaning: a finite pattern denotes the rational magnitude
//! `mant * 2^(mexp - 1075)` with the sign bit kept separately, and the
//! all-ones exponent field denotes an infinity (zero fraction) or a NaN
//! (non-zero fraction). Everything the library decides about a logarithm —
//! class, sign, order — is proved against this model.

use vstd::arithmetic::div_mod::{
    lemma_breakdown, lemma_div_multiples_vanish, lemma_mod_add_multiples_vanish,
    lemma_mod_multiples_basic, lemma_small_mod,
};
use vstd::arithmetic::mul::{lemma_mul_inequality, lemma_mul_strict_inequality};
use vstd::arithmetic::power2::{
    lemma2_to64, lemma2_to64_rest, lemma_pow2_adds, lemma_pow2_pos, lemma_pow2_strictly_increases,
    pow2,
};
use vstd::prelude::*;

verus! {

/// Bit pattern of positive infinity.
pub const POS_INF_BITS: u64 = 0x7FF0_0000_0000_0000;

/// Bit pattern of negative infinity.
pub const NEG_INF_BITS: u64 = 0xFFF0_0000_0000_0000;

/// Bit pattern of the canonical quiet NaN.
pub const QUIET_NAN_BITS: u64 = 0x7FF8_0000_0000_0000;

/// The sign bit of the pattern: true means the encoded value is negative.
pub open spec fn sign_of(b: u64) -> bool {
    b >= 0x8000_0000_0000_0000
}

/// The pattern with the sign bit cleared: the encoding of the magnitude.
pub open spec fn abs_bits(b: u64) -> nat {
    (b as nat) % 0x8000_0000_0000_0000
}

/// The 11-bit biased exponent field.
pub open spec fn exp_field(b: u64) -> nat {
    abs_bits(b) / 0x0010_0000_0000_0000
}

/// The 52-bit fraction field.
pub open spec fn frac_field(b: u64) -> nat {
    abs_bits(b) % 0x0010_0000_0000_0000
}

/// The pattern encodes a NaN.
pub open spec fn is_nan_bits(b: u64) -> bool {
    exp_field(b) == 0x7FF && frac_field(b) != 0
}

/// The pattern encodes an infinity of either sign.
pub open spec fn is_inf_bits(b: u64) -> bool {
    exp_field(b) == 0x7FF && frac_field(b) == 0
}

/// The pattern encodes a finite value (normal, subnormal or zero).
pub open spec fn is_finite_bits(b: u64) -> bool {
    exp_field(b) != 0x7FF
}

/// The full significand of a finite pattern, hidden bit included: the encoded
/// magnitude is exactly `mant(b) * 2^(mexp(b) - 1075)`.
pub open spec fn mant(b: u64) -> nat {
    if exp_field(b) == 0 {
        frac_field(b)
    } else {
        frac_field(b) + 0x0010_0000_0000_0000
    }
}

/// The effective binary exponent of a finite pattern, biased by 1075;
/// subnormals share the exponent of the smallest normals.
pub open spec fn mexp(b: u64) -> nat {
    if exp_field(b) == 0 {
        1
    } else {
        exp_field(b)
    }
}

/// The encoded magnitude of a finite pattern, scaled by the fixed factor
/// 2^1075 so that it is a natural number: `mag_key(b) == |value| * 2^1075`.
/// Two finite patterns compare as values exactly as their keys compare.
pub open spec fn mag_key(b: u64) -> nat {
    mant(b) * pow2(mexp(b))
}

/// A signed key that orders all non-NaN patterns exactly as the encoded
/// values order, with positive and negative zero sharing the key 0 and the
/// infinities at the two ends.
pub open spec fn ord_key(b: u64) -> int {
    if sign_of(b) {
        -(abs_bits(b) as int)
    } else {
        abs_bits(b) as int
    }
}

/// `x < y` as binary64 values; meaningful only when neither pattern is a NaN.
pub open spec fn dbl_lt(x: u64, y: u64) -> bool {
    ord_key(x) < ord_key(y)
}

/// `x == y` as binary64 values (so the two zeros are equal); meaningful only
/// when neither pattern is a NaN.
pub open spec fn dbl_eq(x: u64, y: u64) -> bool {
    ord_key(x) == ord_key(y)
}

/// The pattern with the sign bit flipped: exact negation of the value.
pub fn dbl_neg(b: u64) -> (r: u64)
    ensures
        abs_bits(r) == abs_bits(b),
        sign_of(r) == !sign_of(b),
        ord_key(r) == -ord_key(b) || abs_bits(b) == 0,
{
    if b >= 0x8000_0000_0000_0000 {
        b - 0x8000_0000_0000_0000
    } else {
        b + 0x8000_0000_0000_0000
    }
}

/// Compares two non-NaN patterns as binary64 values.
pub fn dbl_lt_x(x: u64, y: u64) -> (r: bool)
    ensures
        r == dbl_lt(x, y),
{
    let ax: u64 = x % 0x8000_0000_0000_0000;
    let ay: u64 = y % 0x8000_0000_0000_0000;
    let sx: bool = x >= 0x8000_0000_0000_0000;
    let sy: bool = y >= 0x8000_0000_0000_0000;
    if sx != sy {
        sx && (ax > 0 || ay > 0)
    } else if sx {
        ay < ax
    } else {
        ax < ay
    }
}

/// Compares two non-NaN patterns for equality as binary64 values: equal bits,
/// or the two zeros.
pub fn dbl_eq_x(x: u64, y: u64) -> (r: bool)
    ensures
        r == dbl_eq(x, y),
{
    let ax: u64 = x % 0x8000_0000_0000_0000;
    let ay: u64 = y % 0x8000_0000_0000_0000;
    if ax == 0 && ay == 0 {
        true
    } else {
        x == y
    }
}

/// For finite mantissa/exponent pairs in range, a strictly smaller effective
/// exponent gives a strictly smaller magnitude, whatever the mantissas.
pub proof fn lemma_mag_exp_dominates(mx: nat, ex: nat, my: nat, ey: nat)
    requires
        mx < 0x0020_0000_0000_0000,
        my >= 0x0010_0000_0000_0000,
        ex < ey,
    ensures
        mx * pow2(ex) < my * pow2(ey),
{
    lemma2_to64();
    lemma2_to64_rest();
    vstd::arithmetic::power2::lemma_pow2_pos(ex);
    vstd::arithmetic::power2::lemma_pow2_pos(ey);
    assert(pow2(52) == 0x0010_0000_0000_0000);
    assert(pow2(53) == 0x0020_0000_0000_0000);
    lemma_mul_inequality(mx as int, (pow2(53) - 1) as int, pow2(ex) as int);
    lemma_pow2_adds(53, ex);
    lemma_pow2_adds(52, ey);
    if 53 + ex < 52 + ey {
        lemma_pow2_strictly_increases(53 + ex, 52 + ey);
    }
    lemma_mul_inequality(pow2(52) as int, my as int, pow2(ey) as int);
    assert(mx * pow2(ex) <= (pow2(53) - 1) * pow2(ex));
    assert((pow2(53) - 1) * pow2(ex) < pow2(53) * pow2(ex)) by {
        lemma_mul_strict_inequality((pow2(53) - 1) as int, pow2(53) as int, pow2(ex) as int);
    }
    assert(pow2(52) * pow2(ey) <= my * pow2(ey)) by {
        lemma_mul_inequality(pow2(52) as int, my as int, pow2(ey) as int);
    }
}

/// The order of the sign-cleared bit patterns of two finite values is exactly
/// the order of the encoded magnitudes.
pub proof fn lemma_abs_bits_orders_magnitude(x: u64, y: u64)
    requires
        is_finite_bits(x),
        is_finite_bits(y),
    ensures
        abs_bits(x) < abs_bits(y) <==> mag_key(x) < mag_key(y),
        abs_bits(x) == abs_bits(y) <==> mag_key(x) == mag_key(y),
{
    lemma2_to64();
    let u: nat = 0x0010_0000_0000_0000;
    assert(abs_bits(x) == exp_field(x) * u + frac_field(x)) by (nonlinear_arith)
        requires
            exp_field(x) == abs_bits(x) / 0x0010_0000_0000_0000,
            frac_field(x) == abs_bits(x) % 0x0010_0000_0000_0000,
            u == 0x0010_0000_0000_0000,
    ;
    assert(abs_bits(y) == exp_field(y) * u + frac_field(y)) by (nonlinear_arith)
        requires
            exp_field(y) == abs_bits(y) / 0x0010_0000_0000_0000,
            frac_field(y) == abs_bits(y) % 0x0010_0000_0000_0000,
            u == 0x0010_0000_0000_0000,
    ;
    assert(frac_field(x) < u) by (nonlinear_arith)
        requires
            frac_field(x) == abs_bits(x) % 0x0010_0000_0000_0000,
            u == 0x0010_0000_0000_0000,
    ;
    assert(frac_field(y) < u) by (nonlinear_arith)
        requires
            frac_field(y) == abs_bits(y) % 0x0010_0000_0000_0000,
            u == 0x0010_0000_0000_0000,
    ;
    if exp_field(x) == exp_field(y) {
        lemma_mag_fields_same_exp(x, y);
    } else if exp_field(x) < exp_field(y) {
        lemma_mag_fields_cross_exp(x, y);
    } else {
        lemma_mag_fields_cross_exp(y, x);
    }
}

/// With equal biased exponent fields, both the packed magnitudes and the
/// magnitude keys compare as the fraction fields do.
proof fn lemma_mag_fields_same_exp(x: u64, y: u64)
    requires
        is_finite_bits(x),
        is_finite_bits(y),
        exp_field(x) == exp_field(y),
    ensures
        abs_bits(x) < abs_bits(y) <==> mag_key(x) < mag_key(y),
        abs_bits(x) == abs_bits(y) <==> mag_key(x) == mag_key(y),
{
    let u: nat = 0x0010_0000_0000_0000;
    assert(abs_bits(x) == exp_field(x) * u + frac_field(x)) by (nonlinear_arith)
        requires
            exp_field(x) == abs_bits(x) / 0x0010_0000_0000_0000,
            frac_field(x) == abs_bits(x) % 0x0010_0000_0000_0000,
            u == 0x0010_0000_0000_0000,
    ;
    assert(abs_bits(y) == exp_field(y) * u + frac_field(y)) by (nonlinear_arith)
        requires
            exp_field(y) == abs_bits(y) / 0x0010_0000_0000_0000,
            frac_field(y) == abs_bits(y) % 0x0010_0000_0000_0000,
            u == 0x0010_0000_0000_0000,
    ;
    assert(mexp(x) == mexp(y));
    vstd::arithmetic::power2::lemma_pow2_pos(mexp(x));
    let p: nat = pow2(mexp(x));
    if mant(x) < mant(y) {
        lemma_mul_strict_inequality(mant(x) as int, mant(y) as int, p as int);
    }
    if mant(y) < mant(x) {
        lemma_mul_strict_inequality(mant(y) as int, mant(x) as int, p as int);
    }
}

/// With a strictly smaller biased exponent field, both the packed magnitude
/// and the magnitude key are strictly smaller.
proof fn lemma_mag_fields_cross_exp(x: u64, y: u64)
    requires
        is_finite_bits(x),
        is_finite_bits(y),
        exp_field(x) < exp_field(y),
    ensures
        abs_bits(x) < abs_bits(y),
        mag_key(x) < mag_key(y),
{
    lemma2_to64();
    lemma2_to64_rest();
    let u: nat = 0x0010_0000_0000_0000;
    assert(abs_bits(x) == exp_field(x) * u + frac_field(x)) by (nonlinear_arith)
        requires
            exp_field(x) == abs_bits(x) / 0x0010_0000_0000_0000,
            frac_field(x) == abs_bits(x) % 0x0010_0000_0000_0000,
            u == 0x0010_0000_0000_0000,
    ;
    assert(abs_bits(y) == exp_field(y) * u + frac_field(y)) by (nonlinear_arith)
        requires
            exp_field(y) == abs_bits(y) / 0x0010_0000_0000_0000,
            frac_field(y) == abs_bits(y) % 0x0010_0000_0000_0000,
            u == 0x0010_0000_0000_0000,
    ;
    assert(frac_field(x) < u) by (nonlinear_arith)
        requires
            frac_field(x) == abs_bits(x) % 0x0010_0000_0000_0000,
            u == 0x0010_0000_0000_0000,
    ;
    // Packed order: x's field is at least one unit below y's.
    assert((exp_field(x) + 1) * u <= exp_field(y) * u) by {
        lemma_mul_inequality((exp_field(x) + 1) as int, exp_field(y) as int, u as int);
    }
    assert(exp_field(x) * u + frac_field(x) < (exp_field(x) + 1) * u) by (nonlinear_arith)
        requires
            frac_field(x) < u,
    ;
    // Key order.
    if mexp(x) == mexp(y) {
        // Only possible as subnormal against the smallest normals.
        assert(exp_field(x) == 0 && exp_field(y) == 1);
        vstd::arithmetic::power2::lemma_pow2_pos(mexp(x));
        lemma_mul_strict_inequality(mant(x) as int, mant(y) as int, pow2(mexp(x)) as int);
    } else {
        assert(mexp(x) < mexp(y));
        assert(mant(x) < 0x0020_0000_0000_0000);
        assert(mant(y) >= 0x0010_0000_0000_0000);
        lemma_mag_exp_dominates(mant(x), mexp(x), mant(y), mexp(y));
    }
}


/// The pattern encodes an even integer: a finite value whose magnitude,
/// `mag_key(b) / 2^1075`, is an even natural number. The special values and
/// non-integers do not qualify. This decides the sign rule of the power
/// operations, where an exponent `e` counts as odd exactly when `e mod 2`
/// is not zero — which holds for every value that is not an even integer.
pub open spec fn is_even_integer_bits(b: u64) -> bool {
    is_finite_bits(b) && mag_key(b) % pow2(1076) == 0
}

/// Divisibility of the magnitude key by 2^1076 reduces to divisibility of the
/// significand by the remaining power of two.
proof fn lemma_even_divisibility(b: u64, t: nat)
    requires
        is_finite_bits(b),
        mexp(b) + t == 1076,
    ensures
        (mag_key(b) % pow2(1076) == 0) <==> (mant(b) % pow2(t) == 0),
{
    lemma_pow2_adds(mexp(b), t);
    lemma_pow2_pos(mexp(b));
    lemma_pow2_pos(t);
    let p: int = pow2(mexp(b)) as int;
    let q: int = pow2(t) as int;
    let m: int = mant(b) as int;
    lemma_breakdown(mag_key(b) as int, p, q);
    assert(mag_key(b) as int == p * m) by (nonlinear_arith)
        requires
            mag_key(b) == mant(b) * pow2(mexp(b)),
            p == pow2(mexp(b)),
            m == mant(b),
    ;
    lemma_mod_multiples_basic(m, p);
    lemma_div_multiples_vanish(m, p);
    assert(mag_key(b) as int % (p * q) == p * ((m % q)));
    assert((p * (m % q) == 0) <==> (m % q == 0)) by (nonlinear_arith)
        requires
            p > 0,
            m % q >= 0,
    ;
}

/// With an effective exponent of 1076 or more, the magnitude key is always
/// divisible by 2^1076: such values are even integers whatever the
/// significand.
proof fn lemma_even_high_exp(b: u64)
    requires
        is_finite_bits(b),
        mexp(b) >= 1076,
    ensures
        mag_key(b) % pow2(1076) == 0,
{
    let k: nat = (mexp(b) - 1076) as nat;
    lemma_pow2_adds(k, 1076);
    lemma_pow2_pos(k);
    lemma_pow2_pos(1076);
    assert(mag_key(b) == (mant(b) * pow2(k)) * pow2(1076)) by (nonlinear_arith)
        requires
            mag_key(b) == mant(b) * pow2(mexp(b)),
            pow2(mexp(b)) == pow2(k) * pow2(1076),
    ;
    lemma_mod_multiples_basic((mant(b) * pow2(k)) as int, pow2(1076) as int);
}

/// Decides whether the pattern encodes an even integer; see
/// [`is_even_integer_bits`].
pub fn dbl_is_even_integer(b: u64) -> (r: bool)
    ensures
        r == is_even_integer_bits(b),
{
    let a: u64 = b % 0x8000_0000_0000_0000;
    let ef: u64 = a / 0x0010_0000_0000_0000;
    if ef == 0x7FF {
        return false;
    }
    let m: u64 = if ef == 0 {
        a
    } else {
        a % 0x0010_0000_0000_0000 + 0x0010_0000_0000_0000
    };
    proof {
        if ef == 0 {
            lemma_small_mod(a as nat, 0x0010_0000_0000_0000);
        }
        assert(m as nat == mant(b));
    }
    let me: u64 = if ef == 0 {
        1
    } else {
        ef
    };
    if me >= 1076 {
        proof { lemma_even_high_exp(b); }
        return true;
    }
    let t: u64 = 1076 - me;
    proof { lemma_even_divisibility(b, t as nat); }
    if t >= 53 {
        proof {
            lemma2_to64();
            lemma2_to64_rest();
            if t > 53 {
                lemma_pow2_strictly_increases(53, t as nat);
            }
            lemma_small_mod(mant(b), pow2(t as nat));
        }
        return m == 0;
    }
    let divisor: u64 = 1u64 << t;
    proof {
        lemma2_to64();
        lemma2_to64_rest();
        vstd::bits::lemma_u64_shl_is_mul(1u64, t);
    }
    m % divisor == 0
}


/// Re-attaches a sign bit to a sign-cleared pattern.
pub open spec fn attach_sign(negative: bool, a: nat) -> u64 {
    if negative {
        (a + 0x8000_0000_0000_0000) as u64
    } else {
        a as u64
    }
}

/// The sign-cleared pattern of twice the encoded magnitude: one step up in
/// the exponent field for normal values, an exact shift for subnormals, and
/// saturation to infinity from the topmost binade; infinities and NaNs keep
/// their pattern.
pub open spec fn double_abs(a: nat) -> nat {
    let ef = a / 0x0010_0000_0000_0000;
    if ef >= 0x7FF {
        a
    } else if ef >= 0x7FE {
        0x7FF0_0000_0000_0000
    } else if ef == 0 {
        2 * a
    } else {
        a + 0x0010_0000_0000_0000
    }
}

/// Twice the encoded value, exactly as binary64 multiplication by two
/// behaves: exact until the top binade, which saturates to infinity.
pub open spec fn double_bits(b: u64) -> u64 {
    attach_sign(sign_of(b), double_abs(abs_bits(b)))
}

/// The sign-cleared pattern of half the encoded magnitude: one step down in
/// the exponent field for values of two binades or more, and for the rest —
/// the subnormals and the lowest binade — the packed pattern halved with the
/// dropped bit rounded to the nearer (on ties, even) neighbour; infinities
/// and NaNs keep their pattern.
pub open spec fn half_abs(a: nat) -> nat {
    let ef = a / 0x0010_0000_0000_0000;
    if ef >= 0x7FF {
        a
    } else if ef >= 2 {
        (a - 0x0010_0000_0000_0000) as nat
    } else {
        a / 2 + (if a % 4 == 3 {
            1nat
        } else {
            0nat
        })
    }
}

/// Half the encoded value, exactly as binary64 division by two behaves:
/// exact except at the subnormal floor, where the last bit rounds to even.
pub open spec fn half_bits(b: u64) -> u64 {
    attach_sign(sign_of(b), half_abs(abs_bits(b)))
}

/// Attaching a sign to a sign-cleared pattern sets exactly the sign and the
/// magnitude bits.
proof fn lemma_attach_sign(negative: bool, a: nat)
    requires
        a < 0x8000_0000_0000_0000,
    ensures
        abs_bits(attach_sign(negative, a)) == a,
        sign_of(attach_sign(negative, a)) == negative,
{
    if negative {
        lemma_mod_add_multiples_vanish(a as int, 0x8000_0000_0000_0000);
        lemma_small_mod(a, 0x8000_0000_0000_0000);
    } else {
        lemma_small_mod(a, 0x8000_0000_0000_0000);
    }
}

/// A packed pattern below 2^53 (exponent field at most one) has magnitude key
/// exactly twice the pattern.
proof fn lemma_low_packed_key(b: u64)
    requires
        is_finite_bits(b),
        exp_field(b) <= 1,
    ensures
        mag_key(b) == 2 * abs_bits(b),
{
    lemma2_to64();
    let u: nat = 0x0010_0000_0000_0000;
    let a = abs_bits(b);
    assert(a == exp_field(b) * u + frac_field(b)) by (nonlinear_arith)
        requires
            exp_field(b) == a / 0x0010_0000_0000_0000,
            frac_field(b) == a % 0x0010_0000_0000_0000,
            u == 0x0010_0000_0000_0000,
    ;
    assert(mexp(b) == 1);
    assert(pow2(1) == 2);
    if exp_field(b) == 0 {
        assert(mant(b) == a);
    } else {
        assert(mant(b) == frac_field(b) + u);
        assert(a == u + frac_field(b));
    }
}

/// Doubling a finite pattern keeps the sign and doubles the magnitude
/// exactly, except from the top binade, which saturates to infinity.
pub proof fn lemma_double_props(b: u64)
    requires
        is_finite_bits(b),
    ensures
        sign_of(double_bits(b)) == sign_of(b),
        exp_field(b) >= 0x7FE ==> abs_bits(double_bits(b)) == 0x7FF0_0000_0000_0000,
        exp_field(b) < 0x7FE ==> is_finite_bits(double_bits(b)) && mag_key(double_bits(b)) == 2
            * mag_key(b),
{
    lemma2_to64();
    lemma2_to64_rest();
    let u: nat = 0x0010_0000_0000_0000;
    let a = abs_bits(b);
    let ef = exp_field(b);
    assert(a == ef * u + frac_field(b)) by (nonlinear_arith)
        requires
            ef == a / 0x0010_0000_0000_0000,
            frac_field(b) == a % 0x0010_0000_0000_0000,
            u == 0x0010_0000_0000_0000,
    ;
    assert(ef <= 0x7FE) by (nonlinear_arith)
        requires
            ef == a / 0x0010_0000_0000_0000,
            a < 0x8000_0000_0000_0000,
            u == 0x0010_0000_0000_0000,
            ef != 0x7FF,
    ;
    let d = double_abs(a);
    if ef >= 0x7FE {
        lemma_attach_sign(sign_of(b), 0x7FF0_0000_0000_0000);
    } else if ef == 0 {
        // Subnormal: the packed pattern itself doubles.
        assert(a < u);
        lemma_attach_sign(sign_of(b), 2 * a);
        let r = double_bits(b);
        assert(abs_bits(r) == 2 * a);
        assert(exp_field(r) <= 1) by (nonlinear_arith)
            requires
                abs_bits(r) == 2 * a,
                a < 0x0010_0000_0000_0000,
                exp_field(r) == abs_bits(r) / 0x0010_0000_0000_0000,
        ;
        lemma_low_packed_key(b);
        lemma_low_packed_key(r);
    } else {
        // Normal below the top binade: one step up in the exponent field.
        assert(d == a + u);
        assert(d < 0x8000_0000_0000_0000);
        lemma_attach_sign(sign_of(b), d);
        let r = double_bits(b);
        assert(abs_bits(r) == (ef + 1) * u + frac_field(b)) by (nonlinear_arith)
            requires
                abs_bits(r) == a + u,
                a == ef * u + frac_field(b),
                u == 0x0010_0000_0000_0000,
        ;
        assert(exp_field(r) == ef + 1 && frac_field(r) == frac_field(b)) by (nonlinear_arith)
            requires
                abs_bits(r) == (ef + 1) * u + frac_field(b),
                frac_field(b) < u,
                ef + 1 <= 0x7FF,
                u == 0x0010_0000_0000_0000,
                exp_field(r) == abs_bits(r) / 0x0010_0000_0000_0000,
                frac_field(r) == abs_bits(r) % 0x0010_0000_0000_0000,
        ;
        assert(mant(r) == mant(b));
        assert(mexp(r) == mexp(b) + 1);
        lemma_pow2_adds(mexp(b), 1);
        assert(pow2(1) == 2);
        assert(mag_key(r) == 2 * mag_key(b)) by (nonlinear_arith)
            requires
                mag_key(r) == mant(r) * pow2(mexp(r)),
                mag_key(b) == mant(b) * pow2(mexp(b)),
                mant(r) == mant(b),
                pow2(mexp(r)) == pow2(mexp(b)) * pow2(1),
                pow2(1) == 2,
        ;
    }
}

/// Halving a finite pattern keeps the sign, stays finite, and halves the
/// magnitude exactly wherever a representable half exists; at the subnormal
/// floor the dropped bit rounds, staying within one unit of the key.
pub proof fn lemma_half_props(b: u64)
    requires
        is_finite_bits(b),
    ensures
        sign_of(half_bits(b)) == sign_of(b),
        is_finite_bits(half_bits(b)),
        exp_field(b) >= 2 ==> mag_key(b) == 2 * mag_key(half_bits(b)),
        exp_field(b) <= 1 && abs_bits(b) % 2 == 0 ==> mag_key(b) == 2 * mag_key(half_bits(b)),
        exp_field(b) <= 1 ==> 2 * mag_key(half_bits(b)) <= mag_key(b) + 2 && mag_key(b) <= 2
            * mag_key(half_bits(b)) + 2,
{
    lemma2_to64();
    lemma2_to64_rest();
    let u: nat = 0x0010_0000_0000_0000;
    let a = abs_bits(b);
    let ef = exp_field(b);
    assert(a == ef * u + frac_field(b)) by (nonlinear_arith)
        requires
            ef == a / 0x0010_0000_0000_0000,
            frac_field(b) == a % 0x0010_0000_0000_0000,
            u == 0x0010_0000_0000_0000,
    ;
    if ef >= 2 {
        let d = (a - u) as nat;
        lemma_attach_sign(sign_of(b), d);
        let r = half_bits(b);
        assert(abs_bits(r) == (ef - 1) * u + frac_field(b)) by (nonlinear_arith)
            requires
                abs_bits(r) == a - u,
                a == ef * u + frac_field(b),
                ef >= 2,
                u == 0x0010_0000_0000_0000,
        ;
        assert(exp_field(r) == ef - 1 && frac_field(r) == frac_field(b)) by (nonlinear_arith)
            requires
                abs_bits(r) == (ef - 1) * u + frac_field(b),
                frac_field(b) < u,
                ef >= 2,
                ef <= 0x7FE,
                u == 0x0010_0000_0000_0000,
                exp_field(r) == abs_bits(r) / 0x0010_0000_0000_0000,
                frac_field(r) == abs_bits(r) % 0x0010_0000_0000_0000,
        ;
        assert(ef <= 0x7FE) by (nonlinear_arith)
            requires
                ef == a / 0x0010_0000_0000_0000,
                a < 0x8000_0000_0000_0000,
                u == 0x0010_0000_0000_0000,
                ef != 0x7FF,
        ;
        assert(mant(r) == mant(b));
        assert(mexp(r) + 1 == mexp(b));
        lemma_pow2_adds(mexp(r), 1);
        assert(pow2(1) == 2);
        assert(mag_key(b) == 2 * mag_key(r)) by (nonlinear_arith)
            requires
                mag_key(r) == mant(r) * pow2(mexp(r)),
                mag_key(b) == mant(b) * pow2(mexp(b)),
                mant(r) == mant(b),
                pow2(mexp(b)) == pow2(mexp(r)) * pow2(1),
                pow2(1) == 2,
        ;
    } else {
        let h: nat = a / 2 + (if a % 4 == 3 { 1nat } else { 0nat });
        assert(a < 2 * u);
        assert(h <= u) by (nonlinear_arith)
            requires
                h == a / 2 + (if a % 4 == 3 { 1nat } else { 0nat }),
                a < 2 * 0x0010_0000_0000_0000,
                u == 0x0010_0000_0000_0000,
        ;
        lemma_attach_sign(sign_of(b), h);
        let r = half_bits(b);
        assert(abs_bits(r) == h);
        assert(exp_field(r) <= 1) by (nonlinear_arith)
            requires
                abs_bits(r) == h,
                h <= 0x0010_0000_0000_0000,
                exp_field(r) == abs_bits(r) / 0x0010_0000_0000_0000,
        ;
        lemma_low_packed_key(b);
        lemma_low_packed_key(r);
        assert(2 * h == a || (a % 2 == 1 && (2 * h == a + 1 || 2 * h == a - 1))) by (nonlinear_arith)
            requires
                h == a / 2 + (if a % 4 == 3 { 1nat } else { 0nat }),
        ;
    }
}

/// Halving undoes doubling bit for bit, for every finite value below the top
/// binade. (From the top binade doubling saturates to infinity, and at the
/// subnormal floor the doubled pattern is even, so the halving is exact.)
pub proof fn lemma_half_double(b: u64)
    requires
        is_finite_bits(b),
        exp_field(b) < 0x7FE,
    ensures
        half_bits(double_bits(b)) == b,
{
    lemma2_to64();
    lemma2_to64_rest();
    let u: nat = 0x0010_0000_0000_0000;
    let a = abs_bits(b);
    let ef = exp_field(b);
    assert(a == ef * u + frac_field(b)) by (nonlinear_arith)
        requires
            ef == a / 0x0010_0000_0000_0000,
            frac_field(b) == a % 0x0010_0000_0000_0000,
            u == 0x0010_0000_0000_0000,
    ;
    let d = double_abs(a);
    if ef == 0 {
        assert(d == 2 * a);
        lemma_attach_sign(sign_of(b), d);
        let m = double_bits(b);
        assert(abs_bits(m) == 2 * a);
        assert(exp_field(m) <= 1) by (nonlinear_arith)
            requires
                abs_bits(m) == 2 * a,
                a < 0x0010_0000_0000_0000,
                exp_field(m) == abs_bits(m) / 0x0010_0000_0000_0000,
        ;
        assert(half_abs(2 * a) == a) by (nonlinear_arith)
            requires
                exp_field(m) <= 1,
                abs_bits(m) == 2 * a,
                half_abs(2 * a) == (if (2 * a) / 0x0010_0000_0000_0000 >= 2 { ((2 * a)
                    - 0x0010_0000_0000_0000) as nat } else { (2 * a) / 2 + (if (2 * a) % 4 == 3 {
                    1nat } else { 0nat }) }),
                (2 * a) / 0x0010_0000_0000_0000 == exp_field(m),
        ;
        lemma_attach_sign(sign_of(b), a);
        assert(attach_sign(sign_of(b), a) == b) by {
            if sign_of(b) {
                assert(b as nat == a + 0x8000_0000_0000_0000) by (nonlinear_arith)
                    requires
                        a == (b as nat) % 0x8000_0000_0000_0000,
                        b >= 0x8000_0000_0000_0000,
                ;
            } else {
                assert(b as nat == a) by (nonlinear_arith)
                    requires
                        a == (b as nat) % 0x8000_0000_0000_0000,
                        b < 0x8000_0000_0000_0000,
                ;
            }
        }
    } else {
        assert(d == a + u);
        assert(d < 0x8000_0000_0000_0000);
        lemma_attach_sign(sign_of(b), d);
        let m = double_bits(b);
        assert(abs_bits(m) == a + u);
        assert(exp_field(m) == ef + 1 && ef + 1 >= 2) by (nonlinear_arith)
            requires
                abs_bits(m) == a + u,
                a == ef * u + frac_field(b),
                frac_field(b) < u,
                ef >= 1,
                ef < 0x7FE,
                u == 0x0010_0000_0000_0000,
                exp_field(m) == abs_bits(m) / 0x0010_0000_0000_0000,
        ;
        assert(half_abs(a + u) == a);
        lemma_attach_sign(sign_of(b), a);
        assert(attach_sign(sign_of(b), a) == b) by {
            if sign_of(b) {
                assert(b as nat == a + 0x8000_0000_0000_0000) by (nonlinear_arith)
                    requires
                        a == (b as nat) % 0x8000_0000_0000_0000,
                        b >= 0x8000_0000_0000_0000,
                ;
            } else {
                assert(b as nat == a) by (nonlinear_arith)
                    requires
                        a == (b as nat) % 0x8000_0000_0000_0000,
                        b < 0x8000_0000_0000_0000,
                ;
            }
        }
    }
}

/// Doubles the encoded value; see [`double_bits`].
pub fn dbl_double(b: u64) -> (r: u64)
    ensures
        r == double_bits(b),
{
    let s: bool = b >= 0x8000_0000_0000_0000;
    let a: u64 = b % 0x8000_0000_0000_0000;
    let ef: u64 = a / 0x0010_0000_0000_0000;
    let na: u64 = if ef >= 0x7FF {
        a
    } else if ef >= 0x7FE {
        0x7FF0_0000_0000_0000
    } else if ef == 0 {
        a * 2
    } else {
        a + 0x0010_0000_0000_0000
    };
    proof {
        assert(na as nat == double_abs(abs_bits(b)));
    }
    if s {
        na + 0x8000_0000_0000_0000
    } else {
        na
    }
}

/// Halves the encoded value; see [`half_bits`].
pub fn dbl_half(b: u64) -> (r: u64)
    ensures
        r == half_bits(b),
{
    let s: bool = b >= 0x8000_0000_0000_0000;
    let a: u64 = b % 0x8000_0000_0000_0000;
    let ef: u64 = a / 0x0010_0000_0000_0000;
    let na: u64 = if ef >= 0x7FF {
        a
    } else if ef >= 2 {
        a - 0x0010_0000_0000_0000
    } else {
        a / 2 + (if a % 4 == 3 {
            1
        } else {
            0
        })
    };
    proof {
        assert(na as nat == half_abs(abs_bits(b)));
    }
    if s {
        na + 0x8000_0000_0000_0000
    } else {
        na
    }
}


/// The encoded value of a finite pattern as a signed integer at the fixed
/// scale 2^1075: the magnitude key under the pattern's sign.
pub open spec fn sval(b: u64) -> int {
    if sign_of(b) {
        -(mag_key(b) as int)
    } else {
        mag_key(b) as int
    }
}

/// The significand and effective exponent of a finite pattern, as one pair.
pub fn dbl_unpack(b: u64) -> (r: (u64, u64))
    ensures
        r.0 as nat == mant(b),
        r.1 as nat == mexp(b),
{
    let a: u64 = b % 0x8000_0000_0000_0000;
    let ef: u64 = a / 0x0010_0000_0000_0000;
    if ef == 0 {
        proof {
            lemma_small_mod(a as nat, 0x0010_0000_0000_0000);
        }
        (a, 1)
    } else {
        (a % 0x0010_0000_0000_0000 + 0x0010_0000_0000_0000, ef)
    }
}

/// For finite patterns, the signed scaled value orders exactly as the order
/// key does: the key is the packed form of the same sign-and-magnitude
/// comparison.
pub proof fn lemma_sval_reflects_order(x: u64, y: u64)
    requires
        is_finite_bits(x),
        is_finite_bits(y),
    ensures
        sval(x) < sval(y) <==> ord_key(x) < ord_key(y),
        sval(x) == sval(y) <==> ord_key(x) == ord_key(y),
{
    lemma_abs_bits_orders_magnitude(x, y);
    lemma_mag_key_zero(x);
    lemma_mag_key_zero(y);
}

/// A finite pattern has magnitude key zero exactly when its sign-cleared
/// pattern is zero.
proof fn lemma_mag_key_zero(b: u64)
    requires
        is_finite_bits(b),
    ensures
        (mag_key(b) == 0) <==> (abs_bits(b) == 0),
{
    lemma2_to64();
    lemma_pow2_pos(mexp(b));
    let u: nat = 0x0010_0000_0000_0000;
    assert(abs_bits(b) == exp_field(b) * u + frac_field(b)) by (nonlinear_arith)
        requires
            exp_field(b) == abs_bits(b) / 0x0010_0000_0000_0000,
            frac_field(b) == abs_bits(b) % 0x0010_0000_0000_0000,
            u == 0x0010_0000_0000_0000,
    ;
    assert(mag_key(b) == mant(b) * pow2(mexp(b)));
    if mant(b) == 0 {
        assert(mag_key(b) == 0) by (nonlinear_arith)
            requires
                mag_key(b) == mant(b) * pow2(mexp(b)),
                mant(b) == 0,
        ;
    } else {
        assert(mag_key(b) > 0) by (nonlinear_arith)
            requires
                mag_key(b) == mant(b) * pow2(mexp(b)),
                mant(b) > 0,
                pow2(mexp(b)) > 0,
        ;
    }
    if exp_field(b) == 0 {
    } else {
        assert(exp_field(b) * u >= u) by (nonlinear_arith)
            requires
                exp_field(b) >= 1,
                u == 0x0010_0000_0000_0000,
        ;
    }
}


/// A pattern that is not a NaN and is neither of the two infinities is
/// finite.
pub proof fn lemma_finite_from_class(b: u64)
    requires
        !is_nan_bits(b),
        b != POS_INF_BITS,
        b != NEG_INF_BITS,
    ensures
        is_finite_bits(b),
{
    if exp_field(b) == 0x7FF {
        let u: nat = 0x0010_0000_0000_0000;
        assert(abs_bits(b) == 0x7FF0_0000_0000_0000) by (nonlinear_arith)
            requires
                exp_field(b) == abs_bits(b) / 0x0010_0000_0000_0000,
                frac_field(b) == abs_bits(b) % 0x0010_0000_0000_0000,
                exp_field(b) == 0x7FF,
                frac_field(b) == 0,
        ;
        assert(b as nat == 0x7FF0_0000_0000_0000 || b as nat == 0xFFF0_0000_0000_0000)
            by (nonlinear_arith)
            requires
                (b as nat) % 0x8000_0000_0000_0000 == 0x7FF0_0000_0000_0000,
                b < 0x1_0000_0000_0000_0000,
        ;
    }
}

} // verus!
