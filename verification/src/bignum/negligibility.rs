//! The negligibility cutoffs, decided exactly.
//!
//! Addition and subtraction treat the smaller operand as zero once the two
//! base-10 logarithms lie more than 20 apart, and the remainder is zero once
//! the gap reaches 15: at binary64 precision the smaller term could not
//! register anyway. The logarithms span an astronomical range, so the
//! comparison of their difference against the threshold cannot be done
//! naively; this module decides it exactly, over the integer-scaled values
//! `sval(b) == value * 2^1075` of the two logarithms, against a threshold
//! `t * 2^1075` for a small threshold `t`.

use crate::bignum::dbl::{
    dbl_lt_x, dbl_unpack, is_finite_bits, lemma_sval_reflects_order, mant, mexp, sval,
};
use core::cmp::Ordering;
use vstd::arithmetic::div_mod::lemma_fundamental_div_mod;
use vstd::arithmetic::power2::{
    lemma2_to64, lemma2_to64_rest, lemma_pow2_adds, lemma_pow2_pos, lemma_pow2_strictly_increases,
    pow2,
};
use vstd::prelude::*;

verus! {

/// 2^d as a 128-bit integer.
fn pow2_128(d: u64) -> (r: u128)
    requires
        d <= 127,
    ensures
        r as nat == pow2(d as nat),
{
    let mut r: u128 = 1;
    let mut i: u64 = 0;
    proof {
        lemma2_to64();
    }
    while i < d
        invariant
            i <= d,
            d <= 127,
            r as nat == pow2(i as nat),
        decreases d - i,
    {
        proof {
            lemma2_to64();
            lemma2_to64_rest();
            lemma_pow2_adds(63, 64);
            if (i as nat) < 126 {
                lemma_pow2_strictly_increases(i as nat, 126);
            }
            lemma_pow2_adds(63, 63);
            lemma_pow2_adds(i as nat, 1);
        }
        r = r * 2;
        i = i + 1;
    }
    r
}

/// How `m1 * 2^e1` compares to `m2 * 2^e2`, decided exactly for mantissas of
/// any width: the wider side is divided down rather than the narrower side
/// shifted up.
fn scaled_cmp(m1: u128, e1: u64, m2: u128, e2: u64) -> (r: Ordering)
    requires
        e1 <= 4200,
        e2 <= 4200,
    ensures
        (r == Ordering::Less) == ((m1 as nat) * pow2(e1 as nat) < (m2 as nat) * pow2(e2 as nat)),
        (r == Ordering::Equal) == ((m1 as nat) * pow2(e1 as nat) == (m2 as nat) * pow2(e2 as nat)),
        (r == Ordering::Greater) == ((m1 as nat) * pow2(e1 as nat) > (m2 as nat) * pow2(
            e2 as nat,
        )),
{
    proof {
        lemma_pow2_pos(e1 as nat);
        lemma_pow2_pos(e2 as nat);
        assert(m1 == 0 ==> (m1 as nat) * pow2(e1 as nat) == 0) by (nonlinear_arith);
        assert(m2 == 0 ==> (m2 as nat) * pow2(e2 as nat) == 0) by (nonlinear_arith);
        assert(m1 > 0 ==> (m1 as nat) * pow2(e1 as nat) > 0) by (nonlinear_arith)
            requires
                pow2(e1 as nat) > 0,
        ;
        assert(m2 > 0 ==> (m2 as nat) * pow2(e2 as nat) > 0) by (nonlinear_arith)
            requires
                pow2(e2 as nat) > 0,
        ;
    }
    if m1 == 0 && m2 == 0 {
        return Ordering::Equal;
    }
    if m1 == 0 {
        return Ordering::Less;
    }
    if m2 == 0 {
        return Ordering::Greater;
    }
    if e1 >= e2 {
        let d: u64 = e1 - e2;
        proof {
            lemma_pow2_adds(d as nat, e2 as nat);
        }
        if d >= 128 {
            proof {
                lemma2_to64();
                lemma2_to64_rest();
                lemma_pow2_adds(64, 64);
                if 128 < d {
                    lemma_pow2_strictly_increases(128, d as nat);
                }
                assert((m1 as nat) * pow2(d as nat) * pow2(e2 as nat) > (m2 as nat) * pow2(
                    e2 as nat,
                )) by (nonlinear_arith)
                    requires
                        m1 >= 1,
                        pow2(d as nat) >= pow2(128),
                        pow2(128) > m2 as nat,
                        pow2(e2 as nat) > 0,
                ;
                assert((m1 as nat) * pow2(e1 as nat) == (m1 as nat) * pow2(d as nat) * pow2(
                    e2 as nat,
                )) by (nonlinear_arith)
                    requires
                        pow2(e1 as nat) == pow2(d as nat) * pow2(e2 as nat),
                ;
            }
            return Ordering::Greater;
        }
        let p: u128 = pow2_128(d);
        proof {
            lemma_pow2_pos(d as nat);
        }
        let q: u128 = m2 / p;
        let rest: u128 = m2 % p;
        let r = if m1 < q || (m1 == q && rest > 0) {
            Ordering::Less
        } else if m1 == q && rest == 0 {
            Ordering::Equal
        } else {
            Ordering::Greater
        };
        proof {
            lemma_fundamental_div_mod(m2 as int, p as int);
            assert(((m1 as nat) * pow2(d as nat) < m2 as nat <==> (m1 < q || (m1 == q && rest > 0)))
                && ((m1 as nat) * pow2(d as nat) == m2 as nat <==> (m1 == q && rest == 0)))
                by (nonlinear_arith)
                requires
                    m2 as int == (p as int) * (q as int) + (rest as int),
                    0 <= rest < p,
                    p as nat == pow2(d as nat),
                    p > 0,
            ;
            assert((((m1 as nat) * pow2(d as nat)) * pow2(e2 as nat) < (m2 as nat) * pow2(e2 as nat)
                <==> (m1 as nat) * pow2(d as nat) < m2 as nat) && (((m1 as nat) * pow2(d as nat))
                * pow2(e2 as nat) == (m2 as nat) * pow2(e2 as nat) <==> (m1 as nat) * pow2(
                d as nat,
            ) == m2 as nat)) by (nonlinear_arith)
                requires
                    pow2(e2 as nat) > 0,
            ;
            assert((m1 as nat) * pow2(e1 as nat) == ((m1 as nat) * pow2(d as nat)) * pow2(
                e2 as nat,
            )) by (nonlinear_arith)
                requires
                    pow2(e1 as nat) == pow2(d as nat) * pow2(e2 as nat),
            ;
        }
        r
    } else {
        let d: u64 = e2 - e1;
        proof {
            lemma_pow2_adds(d as nat, e1 as nat);
        }
        if d >= 128 {
            proof {
                lemma2_to64();
                lemma2_to64_rest();
                lemma_pow2_adds(64, 64);
                if 128 < d {
                    lemma_pow2_strictly_increases(128, d as nat);
                }
                assert((m1 as nat) * pow2(e1 as nat) < (m2 as nat) * pow2(d as nat) * pow2(
                    e1 as nat,
                )) by (nonlinear_arith)
                    requires
                        m2 >= 1,
                        pow2(d as nat) >= pow2(128),
                        pow2(128) > m1 as nat,
                        pow2(e1 as nat) > 0,
                ;
                assert((m2 as nat) * pow2(e2 as nat) == (m2 as nat) * pow2(d as nat) * pow2(
                    e1 as nat,
                )) by (nonlinear_arith)
                    requires
                        pow2(e2 as nat) == pow2(d as nat) * pow2(e1 as nat),
                ;
            }
            return Ordering::Less;
        }
        let p: u128 = pow2_128(d);
        proof {
            lemma_pow2_pos(d as nat);
        }
        let q: u128 = m1 / p;
        let rest: u128 = m1 % p;
        let r = if q < m2 {
            Ordering::Less
        } else if q == m2 && rest == 0 {
            Ordering::Equal
        } else {
            Ordering::Greater
        };
        proof {
            lemma_fundamental_div_mod(m1 as int, p as int);
            assert(((m1 as nat) < (m2 as nat) * pow2(d as nat) <==> q < m2) && ((m1 as nat) == (
            m2 as nat) * pow2(d as nat) <==> (q == m2 && rest == 0))) by (nonlinear_arith)
                requires
                    m1 as int == (p as int) * (q as int) + (rest as int),
                    0 <= rest < p,
                    p as nat == pow2(d as nat),
                    p > 0,
            ;
            assert(((m1 as nat) * pow2(e1 as nat) < ((m2 as nat) * pow2(d as nat)) * pow2(e1 as nat)
                <==> (m1 as nat) < (m2 as nat) * pow2(d as nat)) && ((m1 as nat) * pow2(e1 as nat)
                == ((m2 as nat) * pow2(d as nat)) * pow2(e1 as nat) <==> (m1 as nat) == (m2 as nat)
                * pow2(d as nat))) by (nonlinear_arith)
                requires
                    pow2(e1 as nat) > 0,
            ;
            assert((m2 as nat) * pow2(e2 as nat) == ((m2 as nat) * pow2(d as nat)) * pow2(
                e1 as nat,
            )) by (nonlinear_arith)
                requires
                    pow2(e2 as nat) == pow2(d as nat) * pow2(e1 as nat),
            ;
        }
        r
    }
}

/// A valid significand/exponent pair of a finite pattern: the significand is
/// below 2^53, the exponent in the encodable range, and every pair above the
/// subnormal exponent carries the hidden bit.
pub open spec fn valid_pair(m: nat, e: nat) -> bool {
    &&& m < 0x0020_0000_0000_0000
    &&& 1 <= e <= 2046
    &&& (e >= 2 ==> m >= 0x0010_0000_0000_0000)
}

/// A valid threshold `t * 2^1075`: a scaled natural number below 64, so that
/// the threshold sits around the magnitudes' own scale.
pub open spec fn valid_threshold(t: nat) -> bool {
    1 <= t < 64
}

/// The significand and exponent of a finite pattern form a valid pair.
proof fn lemma_unpack_valid(b: u64)
    requires
        is_finite_bits(b),
    ensures
        valid_pair(mant(b), mexp(b)),
{
    let a = crate::bignum::dbl::abs_bits(b);
    let u: nat = 0x0010_0000_0000_0000;
    assert(a == crate::bignum::dbl::exp_field(b) * u + crate::bignum::dbl::frac_field(b)
        && crate::bignum::dbl::frac_field(b) < u) by (nonlinear_arith)
        requires
            crate::bignum::dbl::exp_field(b) == a / 0x0010_0000_0000_0000,
            crate::bignum::dbl::frac_field(b) == a % 0x0010_0000_0000_0000,
            u == 0x0010_0000_0000_0000,
    ;
    assert(crate::bignum::dbl::exp_field(b) <= 2047) by (nonlinear_arith)
        requires
            crate::bignum::dbl::exp_field(b) == a / 0x0010_0000_0000_0000,
            a < 0x8000_0000_0000_0000,
    ;
}

/// Two valid pairs whose magnitudes are ordered have nearly ordered
/// exponents: the smaller magnitude's exponent exceeds the larger's by at
/// most one (only a subnormal can undercut the exponent of a larger value).
proof fn lemma_close_scales(mx: nat, ex: nat, my: nat, ey: nat)
    requires
        valid_pair(mx, ex),
        valid_pair(my, ey),
        my * pow2(ey) <= mx * pow2(ex),
    ensures
        ey <= ex + 1,
{
    if ey >= ex + 2 {
        crate::bignum::dbl::lemma_mag_exp_dominates(mx, ex, my, ey);
    }
}

/// With `Y` at least 75 binades below `X`, any `X` above the threshold stays
/// strictly above it after subtracting `Y`: the threshold and `X` share a
/// grid coarser than all of `Y`.
proof fn lemma_far_below(mx: nat, ex: nat, my: nat, ey: nat, t: nat)
    requires
        valid_pair(mx, ex),
        valid_pair(my, ey),
        valid_threshold(t),
        ex >= ey + 75,
        mx * pow2(ex) > t * pow2(1075),
    ensures
        mx * pow2(ex) - my * pow2(ey) > t * pow2(1075),
{
    lemma2_to64();
    lemma2_to64_rest();
    lemma_pow2_pos(ex);
    lemma_pow2_pos(ey);
    lemma_pow2_pos(1075);
    // Y < 2^(53 + ey) <= 2^(ex - 22).
    lemma_pow2_adds(53, ey);
    assert(my * pow2(ey) < pow2(53 + ey)) by (nonlinear_arith)
        requires
            my < 0x0020_0000_0000_0000,
            pow2(53 + ey) == pow2(53) * pow2(ey),
            pow2(53) == 0x0020_0000_0000_0000,
            pow2(ey) > 0,
    ;
    if ex <= 1075 {
        // The threshold is a multiple of 2^ex: X minus the threshold is a
        // positive multiple of 2^ex, and Y lies below one such step.
        lemma_pow2_adds((1075 - ex) as nat, ex);
        let c = t * pow2((1075 - ex) as nat);
        assert(t * pow2(1075) == c * pow2(ex)) by (nonlinear_arith)
            requires
                pow2(1075) == pow2((1075 - ex) as nat) * pow2(ex),
                c == t * pow2((1075 - ex) as nat),
        ;
        assert(mx > c) by (nonlinear_arith)
            requires
                mx * pow2(ex) > c * pow2(ex),
                pow2(ex) > 0,
        ;
        assert(mx * pow2(ex) - c * pow2(ex) >= pow2(ex)) by (nonlinear_arith)
            requires
                mx > c,
                pow2(ex) > 0,
        ;
        assert(pow2(53 + ey) <= pow2(ex)) by {
            if 53 + ey < ex {
                lemma_pow2_strictly_increases(53 + ey, ex);
            }
        }
    } else {
        // X is at least 2^(52 + ex), which dwarfs both the threshold and Y.
        assert(mx >= 0x0010_0000_0000_0000);
        lemma_pow2_adds(52, ex);
        lemma_pow2_adds(6, 1075);
        lemma_pow2_adds(51, ex);
        lemma_pow2_adds(1, 51 + ex);
        assert(mx * pow2(ex) >= pow2(52 + ex)) by (nonlinear_arith)
            requires
                mx >= 0x0010_0000_0000_0000,
                pow2(52 + ex) == pow2(52) * pow2(ex),
                pow2(52) == 0x0010_0000_0000_0000,
                pow2(ex) > 0,
        ;
        assert(t * pow2(1075) < pow2(1081)) by (nonlinear_arith)
            requires
                pow2(1081) == pow2(6) * pow2(1075),
                pow2(6) == 64,
                t < 64,
                pow2(1075) > 0,
        ;
        assert(pow2(1081) <= pow2(51 + ex)) by {
            if 1081 < 51 + ex {
                lemma_pow2_strictly_increases(1081, 51 + ex);
            }
        }
        assert(pow2(52 + ex) == 2 * pow2(51 + ex)) by (nonlinear_arith)
            requires
                pow2(52 + ex) == pow2(1) * pow2(51 + ex),
                pow2(1) == 2,
        ;
        assert(pow2(53 + ey) <= pow2(51 + ex)) by {
            if 53 + ey < 51 + ex {
                lemma_pow2_strictly_increases(53 + ey, 51 + ex);
            }
        }
    }
}

/// How `X - Y` compares to the threshold `t * 2^1075`, for magnitudes
/// `X = mx * 2^ex > Y = my * 2^ey`, decided exactly: an `X` at most the
/// threshold cannot exceed it, far above the smaller side's grid every
/// difference above the threshold stays above it, and in the remaining band
/// the difference is computed outright.
fn mag_diff_cmp(mx: u64, ex: u64, my: u64, ey: u64, t: u64) -> (r: Ordering)
    requires
        valid_pair(mx as nat, ex as nat),
        valid_pair(my as nat, ey as nat),
        valid_threshold(t as nat),
        (my as nat) * pow2(ey as nat) < (mx as nat) * pow2(ex as nat),
    ensures
        (r == Ordering::Greater) == ((mx as nat) * pow2(ex as nat) - (my as nat) * pow2(ey as nat)
            > (t as nat) * pow2(1075)),
        (r == Ordering::Equal) == ((mx as nat) * pow2(ex as nat) - (my as nat) * pow2(ey as nat)
            == (t as nat) * pow2(1075)),
{
    proof {
        lemma_pow2_pos(ex as nat);
        lemma_pow2_pos(ey as nat);
        lemma_pow2_pos(1075);
        assert(my == 0 ==> (my as nat) * pow2(ey as nat) == 0) by (nonlinear_arith);
        assert(my > 0 ==> (my as nat) * pow2(ey as nat) > 0) by (nonlinear_arith)
            requires
                pow2(ey as nat) > 0,
        ;
    }
    let against_x: Ordering = scaled_cmp(mx as u128, ex, t as u128, 1075);
    if matches!(against_x, Ordering::Less) {
        // Even X alone falls short of the threshold.
        return Ordering::Less;
    }
    if matches!(against_x, Ordering::Equal) {
        // X sits exactly on the threshold: the difference reaches it only
        // when Y is zero.
        if my == 0 {
            return Ordering::Equal;
        }
        return Ordering::Less;
    }
    if ex >= ey + 75 {
        proof {
            lemma_far_below(mx as nat, ex as nat, my as nat, ey as nat, t as nat);
        }
        return Ordering::Greater;
    }
    let e0: u64 = if ex <= ey {
        ex
    } else {
        ey
    };
    proof {
        lemma_close_scales(mx as nat, ex as nat, my as nat, ey as nat);
        lemma2_to64();
        lemma2_to64_rest();
        lemma_pow2_adds(63, 64);
        lemma_pow2_adds(53, 74);
        if ((ex - e0) as nat) < 74 {
            lemma_pow2_strictly_increases((ex - e0) as nat, 74);
        }
        if ((ey - e0) as nat) < 74 {
            lemma_pow2_strictly_increases((ey - e0) as nat, 74);
        }
        assert((mx as nat) * pow2((ex - e0) as nat) < pow2(127) && (my as nat) * pow2(
            (ey - e0) as nat,
        ) < pow2(127)) by (nonlinear_arith)
            requires
                mx < 0x0020_0000_0000_0000,
                my < 0x0020_0000_0000_0000,
                pow2((ex - e0) as nat) <= pow2(74),
                pow2((ey - e0) as nat) <= pow2(74),
                pow2(53) == 0x0020_0000_0000_0000,
                pow2(127) == pow2(53) * pow2(74),
                pow2(74) > 0,
        ;
        assert(pow2(127) == 0x8000_0000_0000_0000 * 0x1_0000_0000_0000_0000) by (nonlinear_arith)
            requires
                pow2(127) == pow2(63) * pow2(64),
                pow2(63) == 0x8000_0000_0000_0000,
                pow2(64) == 0x1_0000_0000_0000_0000,
        ;
        lemma_pow2_pos((ex - e0) as nat);
        lemma_pow2_pos((ey - e0) as nat);
        lemma_pow2_adds((ex - e0) as nat, e0 as nat);
        lemma_pow2_adds((ey - e0) as nat, e0 as nat);
    }
    let ax: u128 = (mx as u128) * pow2_128(ex - e0);
    let ay: u128 = (my as u128) * pow2_128(ey - e0);
    proof {
        assert((ax as nat) * pow2(e0 as nat) == (mx as nat) * pow2(ex as nat)) by (nonlinear_arith)
            requires
                ax as nat == (mx as nat) * pow2((ex - e0) as nat),
                pow2(ex as nat) == pow2((ex - e0) as nat) * pow2(e0 as nat),
        ;
        assert((ay as nat) * pow2(e0 as nat) == (my as nat) * pow2(ey as nat)) by (nonlinear_arith)
            requires
                ay as nat == (my as nat) * pow2((ey - e0) as nat),
                pow2(ey as nat) == pow2((ey - e0) as nat) * pow2(e0 as nat),
        ;
        assert(ay < ax) by (nonlinear_arith)
            requires
                (ay as nat) * pow2(e0 as nat) < (ax as nat) * pow2(e0 as nat),
                pow2(e0 as nat) > 0,
        ;
        lemma_pow2_pos(e0 as nat);
    }
    let diff: u128 = ax - ay;
    let r = scaled_cmp(diff, e0, t as u128, 1075);
    proof {
        assert((diff as nat) * pow2(e0 as nat) == (mx as nat) * pow2(ex as nat) - (my as nat)
            * pow2(ey as nat)) by (nonlinear_arith)
            requires
                diff == ax - ay,
                ay < ax,
                (ax as nat) * pow2(e0 as nat) == (mx as nat) * pow2(ex as nat),
                (ay as nat) * pow2(e0 as nat) == (my as nat) * pow2(ey as nat),
        ;
    }
    r
}

/// A magnitude strictly above half the threshold and below the threshold has
/// its exponent pinned to a narrow band around 1075.
proof fn lemma_sum_band(bm: nat, be: nat, t: nat)
    requires
        valid_pair(bm, be),
        valid_threshold(t),
        2 * (bm * pow2(be)) > t * pow2(1075),
        bm * pow2(be) < t * pow2(1075),
    ensures
        1020 <= be <= 1075,
{
    lemma2_to64();
    lemma2_to64_rest();
    lemma_pow2_pos(be);
    lemma_pow2_pos(1075);
    lemma_pow2_adds(54, be);
    lemma_pow2_adds(53, be);
    assert(2 * (bm * pow2(be)) < pow2(54 + be)) by (nonlinear_arith)
        requires
            bm < 0x0020_0000_0000_0000,
            pow2(54 + be) == pow2(54) * pow2(be),
            pow2(54) == 0x0040_0000_0000_0000,
            pow2(be) > 0,
    ;
    if 54 + be <= 1075 {
        if 54 + be < 1075 {
            lemma_pow2_strictly_increases(54 + be, 1075);
        }
        assert(pow2(1075) <= t * pow2(1075)) by (nonlinear_arith)
            requires
                t >= 1,
                pow2(1075) > 0,
        ;
        assert(false);
    }
    // Above the band the magnitude would already exceed the threshold.
    assert(bm >= 0x0010_0000_0000_0000);
    lemma_pow2_adds(52, be);
    assert(pow2(52 + be) <= bm * pow2(be)) by (nonlinear_arith)
        requires
            bm >= 0x0010_0000_0000_0000,
            pow2(52 + be) == pow2(52) * pow2(be),
            pow2(52) == 0x0010_0000_0000_0000,
            pow2(be) > 0,
    ;
    lemma_pow2_adds(6, 1075);
    assert(t * pow2(1075) < pow2(1081)) by (nonlinear_arith)
        requires
            pow2(1081) == pow2(6) * pow2(1075),
            pow2(6) == 64,
            t < 64,
            pow2(1075) > 0,
    ;
    if be > 1075 {
        if 1081 < 52 + be {
            lemma_pow2_strictly_increases(1081, 52 + be);
        }
        assert(false);
    }
}

/// How `X + Y` compares to the threshold `t * 2^1075`, decided exactly: a
/// side above the threshold decides at once, both sides at most half of it
/// cannot exceed it, and otherwise the gap from the larger side to the
/// threshold is computed outright and held against the smaller side.
fn mag_sum_cmp(mx: u64, ex: u64, my: u64, ey: u64, t: u64) -> (r: Ordering)
    requires
        valid_pair(mx as nat, ex as nat),
        valid_pair(my as nat, ey as nat),
        valid_threshold(t as nat),
    ensures
        (r == Ordering::Greater) == ((mx as nat) * pow2(ex as nat) + (my as nat) * pow2(ey as nat)
            > (t as nat) * pow2(1075)),
        (r == Ordering::Equal) == ((mx as nat) * pow2(ex as nat) + (my as nat) * pow2(ey as nat)
            == (t as nat) * pow2(1075)),
{
    proof {
        lemma_pow2_pos(ex as nat);
        lemma_pow2_pos(ey as nat);
        lemma_pow2_pos(1075);
        assert(mx == 0 ==> (mx as nat) * pow2(ex as nat) == 0) by (nonlinear_arith);
        assert(my == 0 ==> (my as nat) * pow2(ey as nat) == 0) by (nonlinear_arith);
        assert(mx > 0 ==> (mx as nat) * pow2(ex as nat) > 0) by (nonlinear_arith)
            requires
                pow2(ex as nat) > 0,
        ;
        assert(my > 0 ==> (my as nat) * pow2(ey as nat) > 0) by (nonlinear_arith)
            requires
                pow2(ey as nat) > 0,
        ;
    }
    let against_x: Ordering = scaled_cmp(mx as u128, ex, t as u128, 1075);
    if matches!(against_x, Ordering::Greater) {
        return Ordering::Greater;
    }
    if matches!(against_x, Ordering::Equal) {
        if my > 0 {
            return Ordering::Greater;
        }
        return Ordering::Equal;
    }
    let against_y: Ordering = scaled_cmp(my as u128, ey, t as u128, 1075);
    if matches!(against_y, Ordering::Greater) {
        return Ordering::Greater;
    }
    if matches!(against_y, Ordering::Equal) {
        if mx > 0 {
            return Ordering::Greater;
        }
        return Ordering::Equal;
    }
    // X < threshold and Y < threshold; sort the two sides.
    let x_is_larger: bool = !matches!(
        scaled_cmp(mx as u128, ex, my as u128, ey),
        Ordering::Less
    );
    let bm: u64 = if x_is_larger {
        mx
    } else {
        my
    };
    let be: u64 = if x_is_larger {
        ex
    } else {
        ey
    };
    let lm: u64 = if x_is_larger {
        my
    } else {
        mx
    };
    let le: u64 = if x_is_larger {
        ey
    } else {
        ex
    };
    // Compare twice the larger side against the threshold: at most half the
    // threshold, the sum cannot exceed it, and reaches it only when both
    // sides are exactly half of it.
    proof {
        lemma_pow2_adds(1, be as nat);
        lemma2_to64();
        assert((bm as nat) * pow2((be + 1) as nat) == 2 * ((bm as nat) * pow2(be as nat)))
            by (nonlinear_arith)
            requires
                pow2((be + 1) as nat) == pow2(1) * pow2(be as nat),
                pow2(1) == 2,
        ;
    }
    let twice_larger: Ordering = scaled_cmp(bm as u128, be + 1, t as u128, 1075);
    if matches!(twice_larger, Ordering::Less) {
        return Ordering::Less;
    }
    if matches!(twice_larger, Ordering::Equal) {
        if matches!(scaled_cmp(lm as u128, le, bm as u128, be), Ordering::Equal) {
            return Ordering::Equal;
        }
        return Ordering::Less;
    }
    // The larger side lies strictly between half the threshold and the
    // threshold, which pins its exponent near 1075.
    proof {
        lemma_sum_band(bm as nat, be as nat, t as nat);
        lemma2_to64();
        lemma2_to64_rest();
        if ((1075 - be) as nat) < 56 {
            lemma_pow2_strictly_increases((1075 - be) as nat, 56);
        }
        lemma_pow2_adds((1075 - be) as nat, be as nat);
        lemma_pow2_pos((1075 - be) as nat);
        assert((t as nat) * pow2((1075 - be) as nat) <= 64 * pow2(56)) by (nonlinear_arith)
            requires
                t < 64,
                pow2((1075 - be) as nat) <= pow2(56),
                pow2(56) > 0,
        ;
    }
    let kc: u128 = (t as u128) * pow2_128(1075 - be);
    proof {
        assert((t as nat) * pow2(1075) == (kc as nat) * pow2(be as nat)) by (nonlinear_arith)
            requires
                pow2(1075) == pow2((1075 - be) as nat) * pow2(be as nat),
                kc as nat == (t as nat) * pow2((1075 - be) as nat),
        ;
        assert(bm < kc) by (nonlinear_arith)
            requires
                (bm as nat) * pow2(be as nat) < (kc as nat) * pow2(be as nat),
                pow2(be as nat) > 0,
        ;
        lemma_pow2_pos(be as nat);
    }
    let gap: u128 = kc - (bm as u128);
    let r = scaled_cmp(lm as u128, le, gap, be);
    proof {
        assert((gap as nat) * pow2(be as nat) == (t as nat) * pow2(1075) - (bm as nat) * pow2(
            be as nat,
        )) by (nonlinear_arith)
            requires
                gap == kc - bm,
                bm < kc,
                (t as nat) * pow2(1075) == (kc as nat) * pow2(be as nat),
        ;
    }
    r
}

/// How the difference of the logarithms encoded by `z` and `w` compares to a
/// small threshold `t`, decided exactly over the scaled values: the result
/// orders `sval(z) - sval(w)` against `t * 2^1075`.
pub fn dbl_gap_cmp(z: u64, w: u64, t: u64) -> (r: Ordering)
    requires
        is_finite_bits(z),
        is_finite_bits(w),
        1 <= t < 64,
    ensures
        (r == Ordering::Greater) == (sval(z) - sval(w) > (t as int) * pow2(1075)),
        (r == Ordering::Equal) == (sval(z) - sval(w) == (t as int) * pow2(1075)),
{
    proof {
        lemma_pow2_pos(1075);
        assert((t as int) * pow2(1075) > 0) by (nonlinear_arith)
            requires
                t >= 1,
                pow2(1075) > 0,
        ;
    }
    if !dbl_lt_x(w, z) {
        proof {
            lemma_sval_reflects_order(w, z);
        }
        return Ordering::Less;
    }
    let unpacked_z: (u64, u64) = dbl_unpack(z);
    let unpacked_w: (u64, u64) = dbl_unpack(w);
    let sz: bool = z >= 0x8000_0000_0000_0000;
    let sw: bool = w >= 0x8000_0000_0000_0000;
    proof {
        lemma_unpack_valid(z);
        lemma_unpack_valid(w);
        crate::bignum::dbl::lemma_abs_bits_orders_magnitude(z, w);
    }
    if sz == sw {
        if !sz {
            mag_diff_cmp(unpacked_z.0, unpacked_z.1, unpacked_w.0, unpacked_w.1, t)
        } else {
            mag_diff_cmp(unpacked_w.0, unpacked_w.1, unpacked_z.0, unpacked_z.1, t)
        }
    } else {
        mag_sum_cmp(unpacked_z.0, unpacked_z.1, unpacked_w.0, unpacked_w.1, t)
    }
}

/// The negligibility test of the log-domain addition and subtraction: the
/// logarithm encoded by `z` exceeds the logarithm encoded by `w` by more
/// than 20, decided exactly.
pub fn dbl_gap_exceeds_20(z: u64, w: u64) -> (r: bool)
    requires
        is_finite_bits(z),
        is_finite_bits(w),
    ensures
        r == (sval(z) - sval(w) > 20 * pow2(1075)),
{
    matches!(dbl_gap_cmp(z, w, 20), Ordering::Greater)
}

/// The cutoff of the log-domain remainder: the logarithm encoded by `z`
/// exceeds the logarithm encoded by `w` by 15 or more, decided exactly.
pub fn dbl_gap_at_least_15(z: u64, w: u64) -> (r: bool)
    requires
        is_finite_bits(z),
        is_finite_bits(w),
    ensures
        r == (sval(z) - sval(w) >= 15 * pow2(1075)),
{
    !matches!(dbl_gap_cmp(z, w, 15), Ordering::Less)
}

} // verus!
