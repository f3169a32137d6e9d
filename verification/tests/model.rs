//! The value model, the ordering layer and the exact operations, on concrete
//! values.

use bignum::bignum::converters::{DisplayStyle, NotationShape, ParseFault, ParseShape};
use bignum::bignum::misc::Category;
use bignum::bignum::operations::{AddStep, PowStep, SubStep};
use bignum::bignum::BigNum;
use std::cmp::Ordering;

fn num(value: f64, negative: bool) -> BigNum {
    BigNum::from_exponent(value.to_bits(), negative)
}

#[test]
fn test_classification_predicates() {
    assert!(BigNum::nan().is_nan());
    assert!(!BigNum::nan().is_infinite());
    assert!(!BigNum::nan().is_finite());
    assert!(!BigNum::nan().is_zero());

    assert!(BigNum::infinity().is_infinite());
    assert!(BigNum::neg_infinity().is_infinite());
    assert!(BigNum::neg_infinity().is_sign_negative());
    assert!(!BigNum::infinity().is_finite());

    assert!(BigNum::zero().is_zero());
    assert!(BigNum::zero().is_finite());
    assert!(BigNum::zero().is_sign_positive());

    assert!(BigNum::one().is_finite());
    assert!(!BigNum::one().is_zero());
    assert!(BigNum::neg_one().is_sign_negative());

    // A negative zero: sign set, zero magnitude.
    let neg_zero = BigNum::from_exponent(f64::NEG_INFINITY.to_bits(), true);
    assert!(neg_zero.is_zero());
    assert!(neg_zero.is_sign_negative());
    assert!(neg_zero.is_finite());
}

#[test]
fn test_classify() {
    assert_eq!(BigNum::nan().classify(), Category::Nan);
    assert_eq!(BigNum::infinity().classify(), Category::Infinite);
    assert_eq!(BigNum::neg_infinity().classify(), Category::Infinite);
    assert_eq!(BigNum::zero().classify(), Category::Zero);
    // The classes below describe the stored logarithm itself.
    assert_eq!(BigNum::one().classify(), Category::Zero);
    assert_eq!(num(2.0, false).classify(), Category::Normal);
    assert_eq!(num(5e-324, false).classify(), Category::Subnormal);
}

#[test]
fn test_negation_and_abs() {
    let a = num(2.5, false);
    assert_eq!(a.neg().is_negative, true);
    assert_eq!(a.neg().exponent, a.exponent);
    assert_eq!(a.neg().neg(), a);

    let b = num(2.5, true);
    assert_eq!(b.abs().is_negative, false);
    assert_eq!(b.abs().exponent, b.exponent);
}

#[test]
fn test_signum() {
    assert!(BigNum::nan().signum().is_nan());
    let s = num(500.0, true).signum();
    assert!(s.is_negative);
    assert_eq!(f64::from_bits(s.exponent), 0.0);
    let p = num(500.0, false).signum();
    assert!(!p.is_negative);
    assert_eq!(f64::from_bits(p.exponent), 0.0);
}

#[test]
fn test_recip() {
    // 1 / 10^300 == 10^-300, exactly.
    let a = num(300.0, false);
    let r = a.recip();
    assert_eq!(f64::from_bits(r.exponent), -300.0);
    assert!(!r.is_negative);
    assert_eq!(r.recip(), a);
    // The reciprocal of a negative keeps the sign.
    assert!(num(1.5, true).recip().is_negative);
    // 1 / 0 in the log domain: the logarithm flips to positive infinity.
    assert!(BigNum::zero().recip().is_infinite());
    assert!(BigNum::infinity().recip().is_zero());
}

#[test]
fn test_order_min_max() {
    let small = num(2.0, false);
    let large = num(500.0, false);
    assert_eq!(small.order(&large), (small, large));
    assert_eq!(large.order(&small), (small, large));
    assert_eq!(small.min(&large), small);
    assert_eq!(small.max(&large), large);
    // Negative values order by magnitude reversed.
    let sneg = num(2.0, true);
    let lneg = num(500.0, true);
    assert_eq!(lneg.min(&sneg), lneg);
    assert_eq!(lneg.max(&sneg), sneg);
}

#[test]
fn test_clamp() {
    let lo = num(1.0, false);
    let hi = num(3.0, false);
    assert_eq!(num(2.0, false).clamp(&lo, &hi), Some(num(2.0, false)));
    assert_eq!(num(0.0, false).clamp(&lo, &hi), Some(lo));
    assert_eq!(num(5.0, false).clamp(&lo, &hi), Some(hi));
    assert_eq!(BigNum::nan().clamp(&lo, &hi), None);
}

#[test]
fn test_trichotomy_examples() {
    // Exactly one of below, equal, above for comparable pairs.
    let a = num(3.0, true);
    let b = num(3.0, false);
    assert_eq!(a.partial_cmp(&b), Some(Ordering::Less));
    assert_eq!(b.partial_cmp(&a), Some(Ordering::Greater));
    assert_eq!(b.partial_cmp(&b.clone()), Some(Ordering::Equal));
    // The two zero logarithms are one value.
    let one_pos = BigNum::from_exponent(0f64.to_bits(), false);
    let one_neg_zero = BigNum::from_exponent((-0f64).to_bits(), false);
    assert_eq!(one_pos.partial_cmp(&one_neg_zero), Some(Ordering::Equal));
    assert_eq!(one_pos == one_neg_zero, true);
    // NaN is equal to nothing, not even itself.
    assert!(BigNum::nan() != BigNum::nan());
}

#[test]
fn test_add_zero_identity_concrete() {
    let a = num(123.456, false);
    match a.add_step(&BigNum::zero()) {
        AddStep::Done(r) => assert_eq!(r, a),
        _ => panic!("adding zero must be decided at once"),
    }
    // For a negative operand the sum reduces to a subtraction from zero,
    // which short-circuits back to the operand.
    let n = num(123.456, true);
    match n.add_step(&BigNum::zero()) {
        AddStep::ViaSub { x, y } => {
            assert_eq!(x, BigNum::zero());
            match x.sub_step(&y) {
                SubStep::Done(r) => assert_eq!(r, n),
                _ => panic!("zero minus a value must be decided at once"),
            }
        }
        _ => panic!("a negative plus zero reduces to a subtraction"),
    }
}

#[test]
fn test_sub_self_is_zero_concrete() {
    let a = num(1e308, false);
    match a.sub_step(&a) {
        SubStep::Done(r) => {
            assert!(r.is_zero());
            assert!(!r.is_negative);
        }
        _ => panic!("a value minus itself must be decided at once"),
    }
    let n = num(42.0, true);
    match n.sub_step(&n) {
        SubStep::Done(r) => {
            assert!(r.is_zero());
            assert!(r.is_negative);
        }
        _ => panic!("a value minus itself must be decided at once"),
    }
}

#[test]
fn test_nan_propagation() {
    let x = num(5.0, false);
    let nan = BigNum::nan();
    assert!(matches!(nan.add_step(&x), AddStep::Done(r) if r.is_nan()));
    assert!(matches!(x.add_step(&nan), AddStep::Done(r) if r.is_nan()));
    assert!(matches!(nan.sub_step(&x), SubStep::Done(r) if r.is_nan()));
    assert!(matches!(x.sub_step(&nan), SubStep::Done(r) if r.is_nan()));
    assert!(matches!(nan.mul_special(&x), Some(r) if r.is_nan()));
    assert!(matches!(x.mul_special(&nan), Some(r) if r.is_nan()));
    assert!(matches!(nan.div_special(&x), Some(r) if r.is_nan()));
    assert!(matches!(x.div_special(&nan), Some(r) if r.is_nan()));
    assert!(matches!(nan.rem_special(&x), Some(r) if r.is_nan()));
    assert!(matches!(x.rem_special(&nan), Some(r) if r.is_nan()));
    assert!(matches!(nan.powf_step(2f64.to_bits()), PowStep::Done(r) if r.is_nan()));
    assert!(matches!(nan.powi_step(2), PowStep::Done(r) if r.is_nan()));
    assert!(matches!(nan.powb_step(&x, false), PowStep::Done(r) if r.is_nan()));
    assert!(matches!(x.powb_step(&nan, false), PowStep::Done(r) if r.is_nan()));
}

#[test]
fn test_infinity_tables() {
    let inf = BigNum::infinity();
    let ninf = BigNum::neg_infinity();
    let x = num(5.0, false);

    // inf + inf == inf; inf + (-inf) is NaN.
    assert!(matches!(inf.add_step(&inf), AddStep::Done(r) if r.is_infinite() && !r.is_negative));
    assert!(matches!(inf.add_step(&ninf), AddStep::Done(r) if r.is_nan()));
    // inf - inf is NaN; inf - (-inf) == inf.
    assert!(matches!(inf.sub_step(&inf), SubStep::Done(r) if r.is_nan()));
    assert!(
        matches!(inf.sub_step(&ninf), SubStep::Done(r) if r.is_infinite() && !r.is_negative)
    );
    // inf + x == inf, x + inf == inf.
    assert!(matches!(inf.add_step(&x), AddStep::Done(r) if r.is_infinite()));
    assert!(matches!(x.add_step(&inf), AddStep::Done(r) if r.is_infinite()));
    // inf * 0 follows the sign table, not native-float NaN.
    assert!(
        matches!(inf.mul_special(&BigNum::zero()), Some(r) if r.is_infinite() && !r.is_negative)
    );
    assert!(
        matches!(ninf.mul_special(&BigNum::zero()), Some(r) if r.is_infinite() && r.is_negative)
    );
    // inf / inf is NaN; x / inf == 0; inf / x == inf.
    assert!(matches!(inf.div_special(&inf), Some(r) if r.is_nan()));
    assert!(matches!(x.div_special(&inf), Some(r) if r.is_zero()));
    assert!(matches!(inf.div_special(&x), Some(r) if r.is_infinite()));
    // inf % inf: a zero under the XOR of the signs.
    assert!(matches!(inf.rem_special(&ninf), Some(r) if r.is_zero() && r.is_negative));
}

#[test]
fn test_pow_identities_concrete() {
    let a = num(123.0, true);
    assert!(matches!(a.powf_step(0f64.to_bits()), PowStep::Done(r) if r == BigNum::one()));
    assert!(matches!(a.powf_step((-0f64).to_bits()), PowStep::Done(r) if r == BigNum::one()));
    assert!(matches!(a.powi_step(0), PowStep::Done(r) if r == BigNum::one()));
    assert!(matches!(a.powf_step(1f64.to_bits()), PowStep::Done(r) if r == a));
    assert!(matches!(a.powi_step(1), PowStep::Done(r) if r == a));
}

#[test]
fn test_pow_parity_sign() {
    let neg = num(5.0, true);
    // An even power clears the sign, an odd power keeps it, a fractional
    // power counts as odd.
    assert!(matches!(neg.powf_step(2f64.to_bits()), PowStep::MulExp { negative: false }));
    assert!(matches!(neg.powf_step(3f64.to_bits()), PowStep::MulExp { negative: true }));
    assert!(matches!(neg.powf_step(2.5f64.to_bits()), PowStep::MulExp { negative: true }));
    assert!(matches!(neg.powf_step(1024f64.to_bits()), PowStep::MulExp { negative: false }));
    assert!(matches!(neg.powf_step(1e300f64.to_bits()), PowStep::MulExp { negative: false }));
    assert!(matches!(neg.powi_step(4), PowStep::MulExp { negative: false }));
    assert!(matches!(neg.powi_step(7), PowStep::MulExp { negative: true }));
    // Zero and infinite bases follow their tables.
    let z = BigNum::zero();
    assert!(matches!(z.powf_step(2f64.to_bits()), PowStep::Done(r) if r.is_zero()));
    assert!(matches!(z.powf_step((-2f64).to_bits()), PowStep::Done(r) if r.is_nan()));
    let ninf = BigNum::neg_infinity();
    assert!(
        matches!(ninf.powf_step(3f64.to_bits()), PowStep::Done(r) if r.is_infinite() && r.is_negative)
    );
    assert!(
        matches!(ninf.powf_step(2f64.to_bits()), PowStep::Done(r) if r.is_infinite() && !r.is_negative)
    );
    assert!(matches!(ninf.powf_step((-2f64).to_bits()), PowStep::Done(r) if r.is_zero()));
}

#[test]
fn test_sqr_sqrt() {
    // sqrt(sqr(x)) == |x|, bit for bit.
    let a = num(123.456, true);
    let s = a.sqr();
    assert!(!s.is_negative);
    assert_eq!(f64::from_bits(s.exponent), 246.912);
    let r = s.sqrt();
    assert_eq!(r, a.abs());
    // A negative radicand gives NaN.
    assert!(num(4.0, true).sqrt().is_nan());
    assert!(BigNum::nan().sqrt().is_nan());
    // Doubling the logarithm saturates to infinity at the top of the range.
    let huge = num(1e308, false);
    assert!(f64::from_bits(huge.sqr().exponent).is_infinite());
}

#[test]
fn test_negligibility_cutoff() {
    // a + b == a whenever b's logarithm lies more than 20 decades below a's.
    let a = BigNum::from_exponent(500f64.to_bits(), false);
    let b = BigNum::from_exponent(470f64.to_bits(), false);
    assert!(matches!(a.add_step(&b), AddStep::Done(r) if r == a));
    assert!(matches!(b.add_step(&a), AddStep::Done(r) if r == a));
    // A gap of exactly 20 decades is not negligible yet.
    let c = BigNum::from_exponent(480f64.to_bits(), false);
    assert!(matches!(
        a.add_step(&c),
        AddStep::CombineLogs { larger, smaller } if larger == a && smaller == c
    ));
    // Subtraction short-circuits the same way, negating the dominant
    // subtrahend.
    assert!(matches!(a.sub_step(&b), SubStep::Done(r) if r == a));
    assert!(matches!(b.sub_step(&a), SubStep::Done(r) if r == a.neg()));
    // The cutoff compares the logarithms' values, whatever their scale.
    let tiny = BigNum::from_exponent(1e-300f64.to_bits(), false);
    let moderate = BigNum::from_exponent(30f64.to_bits(), false);
    assert!(matches!(moderate.add_step(&tiny), AddStep::Done(r) if r == moderate));
    let negexp = BigNum::from_exponent((-40f64).to_bits(), false);
    assert!(matches!(moderate.add_step(&negexp), AddStep::Done(r) if r == moderate));
    // Opposite-signed logarithms adding up to the threshold exactly: a gap
    // of 10 - (-10) == 20 is still combined.
    let ten_up = BigNum::from_exponent(10f64.to_bits(), false);
    let ten_down = BigNum::from_exponent((-10f64).to_bits(), false);
    assert!(matches!(ten_up.add_step(&ten_down), AddStep::CombineLogs { .. }));
    let bit_more = BigNum::from_exponent(10.5f64.to_bits(), false);
    assert!(matches!(bit_more.add_step(&ten_down), AddStep::Done(r) if r == bit_more));
}

#[test]
fn test_rem_cutoff() {
    // A logarithm gap of 15 or more makes the remainder zero under the
    // dividend's sign; below 15 the fractional computation remains.
    let a = num(20.0, false);
    let b = num(5.0, false);
    assert!(matches!(a.rem_special(&b), Some(r) if r.is_zero() && !r.is_negative));
    let c = num(5.5, false);
    assert!(a.rem_special(&c).is_none());
    // The boundary counts as negligible: a gap of exactly 15.
    let d = num(15.0, false);
    let one_log = num(0.0, false);
    assert!(matches!(d.rem_special(&one_log), Some(r) if r.is_zero()));
    // A dividend below the divisor passes through.
    assert!(matches!(b.rem_special(&a), Some(r) if r == b));
    // Equal logarithms give zero under the dividend's sign.
    let neg = num(5.0, true);
    assert!(matches!(neg.rem_special(&b), Some(r) if r.is_zero() && r.is_negative));
}

#[test]
fn test_parse_faults() {
    assert_eq!(BigNum::parse_shape(""), Err(ParseFault::Empty));
    assert_eq!(BigNum::parse_shape("x100"), Err(ParseFault::InvalidFirstCharacter));
    assert_eq!(BigNum::parse_shape(" 100"), Err(ParseFault::InvalidFirstCharacter));
}

#[test]
fn test_parse_shapes() {
    assert_eq!(
        BigNum::parse_shape("INFINITY"),
        Ok(ParseShape::Infinite { negative: false })
    );
    assert_eq!(
        BigNum::parse_shape("-Inf"),
        Ok(ParseShape::Infinite { negative: true })
    );
    assert_eq!(BigNum::parse_shape("NaN"), Ok(ParseShape::NotANumber));
    assert_eq!(
        BigNum::parse_shape("123.456"),
        Ok(ParseShape::PlainNotation { negative: false })
    );
    assert_eq!(
        BigNum::parse_shape("-123.456"),
        Ok(ParseShape::PlainNotation { negative: true })
    );
    assert_eq!(
        BigNum::parse_shape("e123"),
        Ok(ParseShape::LogNotation { negative: false, exponent_from: 1 })
    );
    assert_eq!(
        BigNum::parse_shape("-E11"),
        Ok(ParseShape::LogNotation { negative: true, exponent_from: 2 })
    );
    assert_eq!(
        BigNum::parse_shape("1.23e456"),
        Ok(ParseShape::SciNotation {
            negative: false,
            coefficient_from: 0,
            coefficient_to: 4,
            exponent_from: 5,
        })
    );
    assert_eq!(
        BigNum::parse_shape("-1e-12"),
        Ok(ParseShape::SciNotation {
            negative: true,
            coefficient_from: 1,
            coefficient_to: 2,
            exponent_from: 3,
        })
    );
    // "+inf" is not a special token: it parses as a plain signed number.
    assert_eq!(
        BigNum::parse_shape("+inf"),
        Ok(ParseShape::PlainNotation { negative: false })
    );
}

#[test]
fn test_parse_negative_zero() {
    // "-0.0" keeps its sign and is zero.
    match BigNum::parse_shape("-0.0") {
        Ok(ParseShape::PlainNotation { negative }) => {
            assert!(negative);
            let v: f64 = "-0.0".parse().unwrap();
            let b = BigNum::from_exponent(v.abs().log10().to_bits(), negative);
            assert!(b.is_zero());
            assert!(b.is_sign_negative());
        }
        other => panic!("unexpected shape: {:?}", other),
    }
}

#[test]
fn test_notation_shapes() {
    assert_eq!(BigNum::nan().sci_shape(), NotationShape::NotANumberToken);
    assert_eq!(BigNum::zero().sci_shape(), NotationShape::ZeroToken);
    assert_eq!(
        BigNum::neg_infinity().sci_shape(),
        NotationShape::InfiniteToken { negative: true }
    );
    // Logarithms in (-3, 9) render fixed, outside that single exponential,
    // at a billion decades the double-exponential form.
    assert_eq!(num(2.0, false).sci_shape(), NotationShape::Fixed);
    assert_eq!(num(-2.9, false).sci_shape(), NotationShape::Fixed);
    assert_eq!(num(9.0, false).sci_shape(), NotationShape::Single);
    assert_eq!(num(-3.0, false).sci_shape(), NotationShape::Single);
    assert_eq!(num(500.0, false).sci_shape(), NotationShape::Single);
    assert_eq!(num(1e9, false).sci_shape(), NotationShape::Recursive);
    assert_eq!(num(1e200, false).sci_shape(), NotationShape::Recursive);

    assert_eq!(num(2.0, false).log_shape(), NotationShape::Single);
    assert_eq!(num(-500.0, false).log_shape(), NotationShape::Single);
    assert_eq!(num(1e200, true).log_shape(), NotationShape::Recursive);
    assert_eq!(BigNum::zero().log_shape(), NotationShape::ZeroToken);
}

#[test]
fn test_display_style() {
    assert_eq!(num(50.0, false).display_style(), DisplayStyle::Scientific { precision: 2 });
    assert_eq!(num(5000.0, false).display_style(), DisplayStyle::Scientific { precision: 0 });
    assert_eq!(num(1e7, false).display_style(), DisplayStyle::Logarithmic { precision: 3 });
    assert_eq!(BigNum::nan().display_style(), DisplayStyle::Logarithmic { precision: 3 });
}

#[test]
fn test_tokens() {
    assert_eq!(BigNum::nan_token(), "NaN");
    assert_eq!(BigNum::infinite_token(false), "inf");
    assert_eq!(BigNum::infinite_token(true), "-inf");
}

#[test]
fn test_range_guards() {
    assert!(!num(308.0, false).exceeds_native_range());
    assert!(num(309.0, false).exceeds_native_range());
    assert!(BigNum::infinity().exceeds_native_range());
    assert!(!BigNum::nan().exceeds_native_range());
    assert!(!BigNum::zero().exceeds_native_range());

    assert!(!num(300.0, false).beyond_integer_precision());
    assert!(num(300.5, false).beyond_integer_precision());
    assert!(BigNum::infinity().beyond_integer_precision());
    assert!(!BigNum::nan().beyond_integer_precision());
}

#[test]
fn test_constants() {
    assert_eq!(f64::from_bits(BigNum::max_value().exponent), f64::MAX);
    assert_eq!(f64::from_bits(BigNum::min_positive().exponent), f64::MIN_POSITIVE);
    assert!(BigNum::min_value().is_negative);
    assert_eq!(f64::from_bits(BigNum::pi().exponent), std::f64::consts::PI.log10());
    assert_eq!(f64::from_bits(BigNum::tau().exponent), std::f64::consts::TAU.log10());
    assert_eq!(f64::from_bits(BigNum::euler().exponent), std::f64::consts::E.log10());
    assert_eq!(f64::from_bits(BigNum::two().exponent), 2f64.log10());
}
