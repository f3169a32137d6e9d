//! The engine exercised end to end: the verified dispatch and assembly
//! functions, driven with the native-float kernels a host program supplies.

use bignum::bignum::converters::{NotationShape, ParseFault, ParseShape};
use bignum::bignum::operations::{AddStep, PowStep, SubStep};
use bignum::bignum::BigNum;
use std::cmp::Ordering;

fn almost_equal(a: f64, b: f64, tolerance: f64) -> bool {
    if a.is_infinite() && b.is_infinite() {
        return a == b;
    }
    (a - b).abs() < tolerance
}

fn from_f64(value: f64) -> BigNum {
    BigNum::from_exponent(value.abs().log10().to_bits(), value.is_sign_negative())
}

fn from_string(value: &str) -> Result<BigNum, String> {
    let err = |e: std::num::ParseFloatError| e.to_string();
    match BigNum::parse_shape(value) {
        Err(ParseFault::Empty) => Err("Value is empty".into()),
        Err(ParseFault::InvalidFirstCharacter) => Err("Invalid first character".into()),
        Ok(ParseShape::Infinite { negative }) => Ok(if negative {
            BigNum::neg_infinity()
        } else {
            BigNum::infinity()
        }),
        Ok(ParseShape::NotANumber) => Ok(BigNum::nan()),
        Ok(ParseShape::LogNotation {
            negative,
            exponent_from,
        }) => {
            let e: f64 = value[exponent_from..].parse().map_err(err)?;
            Ok(BigNum::from_exponent(e.to_bits(), negative))
        }
        Ok(ParseShape::SciNotation {
            negative,
            coefficient_from,
            coefficient_to,
            exponent_from,
        }) => {
            let c: f64 = value[coefficient_from..coefficient_to].parse().map_err(err)?;
            let e: f64 = value[exponent_from..].parse().map_err(err)?;
            Ok(BigNum::from_exponent((c.log10() + e).to_bits(), negative))
        }
        Ok(ParseShape::PlainNotation { negative }) => {
            let v: f64 = value.parse().map_err(err)?;
            Ok(BigNum::from_exponent(v.abs().log10().to_bits(), negative))
        }
    }
}

fn add(a: BigNum, b: BigNum) -> BigNum {
    match a.add_step(&b) {
        AddStep::Done(r) => r,
        AddStep::ViaSub { x, y } => sub(x, y),
        AddStep::CombineLogs { larger, smaller } => {
            let ls = f64::from_bits(larger.exponent);
            let ss = f64::from_bits(smaller.exponent);
            let e = ls + (1.0 + 10f64.powf(ss - ls)).log10();
            BigNum::add_combined(&larger, e.to_bits())
        }
    }
}

fn sub(a: BigNum, b: BigNum) -> BigNum {
    match a.sub_step(&b) {
        SubStep::Done(r) => r,
        SubStep::ViaAdd { x, y, negate } => {
            let s = add(x, y);
            if negate {
                s.neg()
            } else {
                s
            }
        }
        SubStep::CombineLogs { lhs, rhs } => {
            let le = f64::from_bits(lhs.exponent);
            let re = f64::from_bits(rhs.exponent);
            let e = re + (10f64.powf(le - re) - 1.0).abs().log10();
            BigNum::sub_combined(&lhs, &rhs, e.to_bits())
        }
    }
}

fn mul(a: BigNum, b: BigNum) -> BigNum {
    match a.mul_special(&b) {
        Some(r) => r,
        None => {
            let e = f64::from_bits(a.exponent) + f64::from_bits(b.exponent);
            BigNum::mul_combined(&a, &b, e.to_bits())
        }
    }
}

fn div(a: BigNum, b: BigNum) -> BigNum {
    match a.div_special(&b) {
        Some(r) => r,
        None => {
            let e = f64::from_bits(a.exponent) - f64::from_bits(b.exponent);
            BigNum::div_combined(&a, &b, e.to_bits())
        }
    }
}

fn rem(a: BigNum, b: BigNum) -> BigNum {
    match a.rem_special(&b) {
        Some(r) => r,
        None => {
            let d = f64::from_bits(a.exponent) - f64::from_bits(b.exponent);
            let modulo = 10f64.powf(d);
            let modulo_floor = modulo.floor();
            if modulo == modulo_floor {
                BigNum::rem_combined(&a, &b, true, 0)
            } else {
                let e = f64::from_bits(b.exponent) + (modulo - modulo_floor).log10();
                BigNum::rem_combined(&a, &b, false, e.to_bits())
            }
        }
    }
}

fn to_f64(b: &BigNum) -> Option<f64> {
    if b.exceeds_native_range() {
        return None;
    }
    let abs_value = 10f64.powf(f64::from_bits(b.exponent));
    Some(if b.is_sign_negative() { -abs_value } else { abs_value })
}

fn to_string_num(b: &BigNum, precision: usize) -> Option<String> {
    if b.exceeds_native_range() {
        return None;
    }
    Some(format!(
        "{}{:.*}",
        if b.is_sign_negative() { "-" } else { "" },
        precision,
        10f64.powf(f64::from_bits(b.exponent))
    ))
}

fn to_string_sci(b: &BigNum, precision: usize) -> String {
    match b.sci_shape() {
        NotationShape::NotANumberToken => BigNum::nan_token().to_string(),
        NotationShape::ZeroToken => format!("{:.*}", precision, 0),
        NotationShape::InfiniteToken { negative } => BigNum::infinite_token(negative).to_string(),
        NotationShape::Fixed => to_string_num(b, precision).unwrap(),
        NotationShape::Single => {
            let exp = f64::from_bits(b.exponent);
            let coefficient = 10f64.powf(exp.fract());
            format!(
                "{}{:.*}e{:.0}",
                if b.is_sign_negative() { "-" } else { "" },
                precision,
                coefficient,
                exp.floor()
            )
        }
        NotationShape::Recursive => {
            let exp = f64::from_bits(b.exponent);
            let coefficient = 10f64.powf(exp.fract());
            let exponent = exp.floor();
            let exponent_exponent = exponent.abs().log10().floor();
            let exponent_coefficient = exponent / 10f64.powf(exponent_exponent);
            format!(
                "{}{:.0}e{}",
                if b.is_sign_negative() { "-" } else { "" },
                coefficient,
                format!("{:.*}e{:.0}", precision, exponent_coefficient, exponent_exponent)
            )
        }
    }
}

fn to_string_log(b: &BigNum, precision: usize) -> String {
    match b.log_shape() {
        NotationShape::NotANumberToken => BigNum::nan_token().to_string(),
        NotationShape::ZeroToken => format!("{:.*}", precision, 0),
        NotationShape::InfiniteToken { negative } => BigNum::infinite_token(negative).to_string(),
        NotationShape::Fixed => unreachable!(),
        NotationShape::Single => {
            let exp = f64::from_bits(b.exponent);
            format!(
                "{}e{:.*}",
                if b.is_sign_negative() { "-" } else { "" },
                precision,
                exp
            )
        }
        NotationShape::Recursive => {
            let exp = f64::from_bits(b.exponent);
            let exponent_exponent = exp.abs().log10().floor();
            let exponent_coefficient = exp / 10f64.powf(exponent_exponent);
            format!(
                "{}e{}",
                if b.is_sign_negative() { "-" } else { "" },
                format!("{:.*}e{:.0}", precision, exponent_coefficient, exponent_exponent)
            )
        }
    }
}

fn almost_equal_big(a: BigNum, b: BigNum, tolerance: &BigNum) -> bool {
    sub(a, b).abs().lt(tolerance)
}

fn powb(a: BigNum, exp: BigNum) -> BigNum {
    let parity = rem(exp, BigNum::from_exponent(2f64.log10().to_bits(), false));
    let exp_odd = !(parity.is_sign_positive() && parity.is_zero());
    match a.powb_step(&exp, exp_odd) {
        PowStep::Done(r) => r,
        PowStep::MulExp { negative } => {
            let log = BigNum::from_exponent(
                f64::from_bits(a.exponent).abs().log10().to_bits(),
                f64::from_bits(a.exponent).is_sign_negative(),
            );
            let product = mul(log, exp);
            let e = to_f64(&product).unwrap_or(f64::INFINITY);
            BigNum::from_exponent(e.to_bits(), negative)
        }
    }
}

#[test]
fn test_from_exponent() {
    let decimal = BigNum::from_exponent(2.0f64.to_bits(), false);

    assert_eq!(decimal.is_negative, false);
    assert_eq!(decimal.exponent, 2.0f64.to_bits());
}

#[test]
fn test_from_f64() {
    let decimal = from_f64(100.0);

    assert_eq!(decimal.is_negative, false);
    assert!(almost_equal(f64::from_bits(decimal.exponent), 2.0, 1e-9));
}

#[test]
fn test_from_string() {
    const INF: f64 = f64::INFINITY;
    let tests = vec![
        ("Zero", "0.0", -INF, false),
        ("Negative Zero", "-0.0", -INF, true),
        ("Normal", "100.0", 2.0, false),
        ("Negative", "-100.0", 2.0, true),
        ("Small", "0.01", -2.0, false),
        ("Scientific", "1e2", 2.0, false),
        ("Sci. Small", "1e-2", -2.0, false),
        ("Sci. Negative", "-1e2", 2.0, true),
        ("Sci. Huge", "1e500", 500.0, false),
        ("Sci. Huge Neg.", "-1e500", 500.0, true),
        ("Sci. Tiny", "1e-500", -500.0, false),
        ("Sci. Massive", "1e1e200", 1e200, false),
        ("Sci. Msv. Neg.", "-1e1e200", 1e200, true),
        ("Sci. Miniscule", "1e-1e200", -1e200, false),
        ("Sci. Mini Neg.", "-1e-1e200", -1e200, true),
        ("Logarithm", "e10", 10.0, false),
        ("Log Negative", "-e10", 10.0, true),
        ("Log Small", "e-10", -10.0, false),
        ("Log Huge", "e500", 500.0, false),
        ("Log Huge Neg.", "-e500", 500.0, true),
        ("Log Tiny", "e-500", -500.0, false),
        ("Log Massive", "e1e200", 1e200, false),
        ("Log Msv. Neg.", "-e1e200", 1e200, true),
        ("Log Miniscule", "e-1e200", -1e200, false),
        ("Log Mini. Neg.", "-e-1e200", -1e200, true),
        ("Log Decimal", "e123.456", 123.456, false),
    ];

    for (name, input, expected_exponent, expected_is_negative) in tests {
        let decimal = from_string(input).unwrap();

        assert_eq!(decimal.is_negative, expected_is_negative, "{}: sign check", name);
        assert!(
            almost_equal(f64::from_bits(decimal.exponent), expected_exponent, 1e-9),
            "{}: exponent check (got {}, expected {})",
            name,
            f64::from_bits(decimal.exponent),
            expected_exponent
        );
    }
}

#[test]
fn test_from_string_with_invalid_input() {
    let t2 = from_string("1e");
    assert!(t2.is_err());

    let t3 = from_string("1e-");
    assert!(t3.is_err());

    let t4 = from_string("1e+");
    assert!(t4.is_err());

    let t5 = from_string("e");
    assert!(t5.is_err());

    let t6 = from_string("-");
    assert!(t6.is_err());
}

#[test]
fn test_to_f64() {
    let t1 = BigNum::from_exponent(2.0f64.to_bits(), false);
    assert!(almost_equal(to_f64(&t1).unwrap(), 100.0, 1e-9));

    let t2 = BigNum::from_exponent((-2.0f64).to_bits(), false);
    assert!(almost_equal(to_f64(&t2).unwrap(), 0.01, 1e-9));

    let t3 = BigNum::from_exponent(2.0f64.to_bits(), true);
    assert!(almost_equal(to_f64(&t3).unwrap(), -100.0, 1e-9));
}

#[test]
fn test_string_conversions() {
    let tests = vec![
        ("Zero", "0"),
        ("Sci. Huge", "1.00e500"),
        ("Sci. Huge Neg.", "-1.00e500"),
        ("Sci. Tiny", "1.00e-500"),
        ("Sci. Massive", "1e1.00e200"),
        ("Sci. Msv. Neg.", "-1e1.00e200"),
        ("Sci. Miniscule", "1e-1.00e200"),
        ("Sci. Mini Neg.", "-1e-1.00e200"),
        ("Logarithm", "e10.000"),
        ("Log Negative", "-e10.000"),
        ("Log Small", "e-10.000"),
        ("Log Huge", "e500.000"),
        ("Log Huge Neg.", "-e500.000"),
        ("Log Tiny", "e-500.000"),
        ("Log Massive", "e1.000e200"),
        ("Log Msv. Neg.", "-e1.000e200"),
        ("Log Miniscule", "e-1.000e200"),
        ("Log Mini. Neg.", "-e-1.000e200"),
        ("Log Decimal", "e123.456"),
    ];

    for (name, string) in tests {
        let decimal = from_string(string).unwrap();

        let result = if name.to_lowercase().contains("log") {
            to_string_log(&decimal, 3)
        } else {
            to_string_sci(&decimal, 2)
        };

        assert_eq!(result, string, "{}: string conversion check", name);
    }
}

#[test]
fn test_comparisons() {
    let tests = vec![
        ("Signed Zero", "-0", "0", Some(Ordering::Less)),
        ("Equal Zero", "0", "0", Some(Ordering::Equal)),
        ("Different Signs 1", "-100", "100", Some(Ordering::Less)),
        ("Different Signs 2", "100", "-100", Some(Ordering::Greater)),
        ("Infinities 1", "inf", "inf", None),
        ("Infinities 2", "inf", "-inf", Some(Ordering::Greater)),
        ("Infinities 3", "-inf", "inf", Some(Ordering::Less)),
        ("Infinities 4", "-inf", "-inf", None),
        ("Non-numbers 1", "nan", "nan", None),
        ("Non-numbers 2", "nan", "inf", None),
        ("Non-numbers 3", "0", "nan", None),
        ("Non-numbers 4", "-inf", "nan", None),
        ("Non-numbers 5", "e500", "nan", None),
    ];

    for (name, a, b, expected) in tests {
        let a = from_string(a).unwrap();
        let b = from_string(b).unwrap();

        assert_eq!(a.partial_cmp(&b), expected, "Comparison check: {}", name);
    }
}

#[test]
fn test_addition() {
    let tests = vec![
        // Name,    A,          B,          Expected,       Tolerance
        ("Zero", "0", "0", "0", "e-9"),
        ("Two", "1", "1", "2", "e-9"),
        ("Meme", "9", "10", "19", "e-9"),
        ("Neg 1", "-1", "1", "0", "e-9"),
        ("Neg 2", "1", "-1", "0", "e-9"),
        ("Neg 3", "-1", "-1", "-2", "e-9"),
        ("Neg 4", "-1", "-9", "-10", "e-9"),
        ("Neg 5", "-9", "-1", "-10", "e-9"),
        ("Neg 6", "21", "-25", "-4", "e-9"),
        ("Neg 7", "42", "-62", "-20", "e-9"),
        ("Neg 8", "e6", "-e7", "-9e6", "e2"),
        ("Tiny 1", "e-4", "e-5", "1.1e-4", "e-12"),
        ("Tiny 2", "e-5", "e-4", "1.1e-4", "e-12"),
        ("Tiny 3", "2e-4", "3e-5", "2.3e-4", "e-12"),
        ("Tiny 4", "6e-4", "5e-4", "1.1e-3", "e-12"),
        ("Tiny 5", "e-500", "e-600", "e-500", "e-510"),
        ("Huge 1", "e308", "e309", "1.1e309", "e300"),
        ("Huge 2", "e500", "e530", "e530", "e500"),
        ("Huge 3", "e1e12", "e9e15", "e9e15", "e9e15"),
        ("Huge 4", "e1e200", "e2e200", "e2e200", "e1e200"),
        ("Huge 5", "e1e308", "e1e308", "e1e308", "e1e308"),
    ];

    for (name, a, b, expected, tolerance) in tests {
        let a = from_string(a).unwrap();
        let b = from_string(b).unwrap();
        let expected = from_string(expected).unwrap();
        let tolerance = from_string(tolerance).unwrap();

        let result = add(a, b);

        assert!(
            almost_equal_big(result, expected, &tolerance),
            "Addition check: {} (expected {:?}, got {:?})",
            name,
            expected,
            result
        );
    }
}

#[test]
fn test_subtraction() {
    let tests = vec![
        // Name,    A,          B,          Expected,       Tolerance
        ("Zero", "0", "0", "0", "e-9"),
        ("Two", "1", "1", "0", "e-9"),
        ("Neg 1", "9", "10", "-1", "e-9"),
        ("Neg 2", "-1", "1", "-2", "e-9"),
        ("Neg 3", "1", "-1", "2", "e-9"),
        ("Neg 4", "-1", "-1", "0", "e-9"),
        ("Neg 5", "-1", "-9", "8", "e-9"),
        ("Neg 6", "-9", "-1", "-8", "e-9"),
        ("Tiny 1", "e-4", "e-5", "9e-5", "e-12"),
        ("Tiny 2", "e-5", "e-4", "-9e-5", "e-12"),
        ("Tiny 3", "2e-4", "3e-5", "1.7e-4", "e-12"),
        ("Tiny 4", "6e-4", "5e-4", "1e-4", "e-12"),
        ("Tiny 5", "e-500", "e-600", "e-500", "e-510"),
        ("Huge 1", "e308", "e309", "-9e308", "e300"),
        ("Huge 2", "e500", "e530", "-e530", "e500"),
        ("Huge 3", "e1e12", "e9e15", "-e9e15", "e9e15"),
        ("Huge 4", "e1e200", "e2e200", "-e2e200", "e1e200"),
        ("Huge 5", "e1e308", "e1e308", "0", "e-12"),
    ];

    for (name, a, b, expected, tolerance) in tests {
        let a = from_string(a).unwrap();
        let b = from_string(b).unwrap();
        let expected = from_string(expected).unwrap();
        let tolerance = from_string(tolerance).unwrap();

        let result = sub(a, b);

        assert!(
            almost_equal_big(result, expected, &tolerance),
            "Subtraction check: {} (expected {:?}, got {:?})",
            name,
            expected,
            result
        );
    }
}

#[test]
fn test_multiplication() {
    let tests = vec![
        // Name,    A,          B,          Expected,       Exponent tolerance
        ("Zero", "0", "0", "0", 1e-13),
        ("Two", "1", "2", "2", 1e-13),
        ("Neg 1", "1", "-1", "-1", 1e-13),
        ("Neg 2", "-1", "1", "-1", 1e-13),
        ("Neg 3", "-1", "-1", "1", 1e-13),
        ("Neg 4", "-1", "-9", "9", 1e-13),
        ("Neg 5", "-9", "-1", "9", 1e-13),
        ("Neg 6", "21", "-25", "-525", 1e-13),
        ("Neg 7", "42", "-62", "-2604", 1e-13),
        ("Neg 8", "e6", "-e7", "-e13", 1e-10),
        ("Tiny 1", "e-4", "e-5", "e-9", 1e-10),
        ("Tiny 2", "e-5", "e-4", "e-9", 1e-10),
        ("Tiny 3", "2e-4", "3e-5", "6e-9", 1e-10),
        ("Tiny 4", "6e-4", "5e-4", "3e-7", 1e-10),
        ("Tiny 5", "e-500", "e-600", "e-1100", 1e-6),
        ("Huge 1", "e308", "e309", "e617", 1e-8),
        ("Huge 2", "e500", "e530", "e1030", 1e-6),
        ("Huge 3", "e1e12", "e9e15", "e9.001e15", 1e+10),
        ("Huge 4", "e1e200", "e2e200", "e3e200", 1e190),
        ("Huge 5", "e8e307", "e9e307", "e1.7e308", 1e300),
    ];

    for (name, a, b, expected, tolerance) in tests {
        let a = from_string(a).unwrap();
        let b = from_string(b).unwrap();
        let expected = from_string(expected).unwrap();

        let result = mul(a, b);

        let result_exponent = f64::from_bits(result.exponent);

        assert_eq!(
            result.is_negative, expected.is_negative,
            "Multiplication check: {} (sign check)",
            name
        );
        assert!(
            almost_equal(result_exponent, f64::from_bits(expected.exponent), tolerance),
            "Multiplication check: {} (exponent check: got {}, expected {})",
            name,
            result_exponent,
            f64::from_bits(expected.exponent)
        );

        println!(
            "Test {} succeeded. Distance from expected: {}/{}",
            name,
            (result_exponent - f64::from_bits(expected.exponent)).abs(),
            tolerance
        );
    }
}

#[test]
fn test_division() {
    let tests = vec![
        // Name,            A,                  B,          Expected,       Exponent tolerance
        ("Two", "2", "1", "2", 1e-13),
        ("Neg 1", "1", "-1", "-1", 1e-13),
        ("Neg 2", "-1", "1", "-1", 1e-13),
        ("Neg 3", "-1", "-1", "1", 1e-13),
        ("Small", "0.1", "0.2", "0.5", 1e-13),
        ("Zero Dividend", "0", "5", "0", 1e-13),
        ("Zero Divisor", "5", "0", "inf", 1e-13),
        ("Large", "e308", "1", "e308", 1e-13),
        ("Precision", "1.0000000000001", "1", "1.0000000000001", 1e-13),
        ("Recurring", "1", "3", "0.3333333333333", 1e-13),
        ("Negative", "-2", "-2", "1", 1e-13),
        ("Mixed Sign 1", "-2", "1", "-2", 1e-13),
        ("Mixed Sign 2", "2", "-1", "-2", 1e-13),
    ];
    for (name, a, b, expected, tolerance) in tests {
        let a = from_string(a).unwrap();
        let b = from_string(b).unwrap();
        let expected = from_string(expected).unwrap();
        let result = div(a, b);
        let result_exponent = f64::from_bits(result.exponent);
        assert_eq!(
            result.is_negative, expected.is_negative,
            "Division check: {} (sign check)",
            name
        );
        assert!(
            almost_equal(result_exponent, f64::from_bits(expected.exponent), tolerance),
            "Division check: {} (exponent check: got {}, expected {})",
            name,
            result_exponent,
            f64::from_bits(expected.exponent)
        );
        println!(
            "Test {} succeeded. Distance from expected: {}/{}",
            name,
            (result_exponent - f64::from_bits(expected.exponent)).abs(),
            tolerance
        );
    }
}

#[test]
fn test_modulo() {
    let tests = vec![
        // Name,              A,                  B,          Expected,       Exponent tolerance
        ("Mod Zero", "0", "5", "0", 1e-13),
        ("Mod by Zero", "5", "0", "0", 1e-13),
        ("Positive", "10", "3", "1", 1e-13),
        ("Negative Dividend", "-10", "3", "-1", 1e-13),
        ("Negative Divisor", "10", "-3", "-1", 1e-13),
        ("Both Negative", "-10", "-3", "1", 1e-13),
        ("Large Numbers", "1E20", "1E10", "0", 1e-13),
        ("Small Dividend", "0.1", "0.2", "0.1", 1e-13),
        ("Precision", "1.0000000000001", "1", "0.0000000000001", 1e-3),
        ("Recurring", "1", "3", "1", 1e-13),
    ];

    for (name, a, b, expected, tolerance) in tests {
        let a = from_string(a).unwrap();
        let b = from_string(b).unwrap();
        let expected = from_string(expected).unwrap();
        let result = rem(a, b);
        let result_exponent = f64::from_bits(result.exponent);
        assert_eq!(
            result.is_negative, expected.is_negative,
            "Modulo check: {} (sign check)",
            name
        );
        assert!(
            almost_equal(result_exponent, f64::from_bits(expected.exponent), tolerance),
            "Modulo check: {} (exponent check: got {}, expected {})",
            name,
            result_exponent,
            f64::from_bits(expected.exponent)
        );
        println!(
            "Test {} succeeded. Distance from expected: {}/{}",
            name,
            (result_exponent - f64::from_bits(expected.exponent)).abs(),
            tolerance
        );
    }
}

#[test]
fn test_mul_recip_identity() {
    // a * a.recip() == ONE for finite non-zero a: the logarithms cancel
    // exactly.
    for &(value, negative) in &[(2.0f64, false), (500.0, true), (-300.0, false), (0.5, true)] {
        let a = BigNum::from_exponent(value.to_bits(), negative);
        let product = mul(a, a.recip());
        assert_eq!(product, BigNum::one(), "recip product for {}", value);
    }
}

#[test]
fn test_powb_grows_to_infinity() {
    // The demonstration loop: 2^fib(n) through the power dispatch, until the
    // logarithm overflows to infinity.
    let mut cur = BigNum::from_exponent(0f64.to_bits(), false);
    let mut prev = cur;
    let two = BigNum::from_exponent(2f64.log10().to_bits(), false);
    let mut reached_infinity = false;
    for _ in 0..5000 {
        let next = add(cur, prev);
        prev = cur;
        cur = next;
        let result = powb(two, cur);
        if result.is_infinite() {
            reached_infinity = true;
            break;
        }
    }
    assert!(reached_infinity);
}
