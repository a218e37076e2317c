use complex_eval::arith::ImaginaryDenominator;
use complex_eval::arith::add_with_mode;
use complex_eval::arith::arithmetic_fallback;
use complex_eval::arith::checked_add;
use complex_eval::arith::checked_multiply;
use complex_eval::arith::multiply;
use complex_eval::values::Value;
use complex_eval::values::gcd;

#[test]
fn gcd_of_zero_and_positive_is_the_positive() {
    assert_eq!(gcd(0, 5), 5);
    assert_eq!(gcd(5, 0), 5);
}

#[test]
fn gcd_of_zero_and_zero_is_zero() {
    assert_eq!(gcd(0, 0), 0);
}

#[test]
fn gcd_ignores_signs() {
    assert_eq!(gcd(-4, 6), 2);
    assert_eq!(gcd(4, -6), 2);
    assert_eq!(gcd(-4, -6), 2);
}

#[test]
fn gcd_of_coprime_numbers_is_one() {
    assert_eq!(gcd(2, 3), 1);
}

#[test]
fn gcd_of_extreme_magnitudes() {
    assert_eq!(gcd(i64::MIN, i64::MIN), 9223372036854775808u64);
}

#[test]
fn fallback_is_the_canonical_zero() {
    assert_eq!(arithmetic_fallback(), Value::ComplexNumber(0, 1, 0, 1));
}

#[test]
fn add_of_one_half_and_one_third_is_five_sixths() {
    let x = Value::ComplexNumber(1, 2, 0, 1);
    let y = Value::ComplexNumber(1, 3, 0, 1);
    let r = complex_eval::arith::add(x, y);
    match r {
        Value::ComplexNumber(af, bf, cf, df) => {
            // Numerically 5/6 + 0i, whether or not literally reduced.
            assert_eq!(af * 6, 5 * bf);
            assert_eq!(cf, 0);
            assert_ne!(df, 0);
            assert_eq!((af, bf, cf, df), (5, 6, 0, 6));
        }
        _ => panic!("expected a complex number"),
    }
}

#[test]
fn multiply_with_boolean_operand_returns_fallback() {
    let c = Value::ComplexNumber(1, 2, 3, 4);
    let b = Value::Boolean(true);
    assert_eq!(multiply(b, c), Value::ComplexNumber(0, 1, 0, 1));
    let c = Value::ComplexNumber(1, 2, 3, 4);
    let b = Value::Boolean(false);
    assert_eq!(multiply(c, b), Value::ComplexNumber(0, 1, 0, 1));
}

#[test]
fn add_with_boolean_operand_returns_fallback() {
    let c = Value::ComplexNumber(1, 2, 3, 4);
    let b = Value::Boolean(true);
    assert_eq!(complex_eval::arith::add(b, c), Value::ComplexNumber(0, 1, 0, 1));
    let c = Value::ComplexNumber(1, 2, 3, 4);
    let b = Value::Boolean(true);
    assert_eq!(complex_eval::arith::add(c, b), Value::ComplexNumber(0, 1, 0, 1));
}

#[test]
fn multiply_by_one_is_numerically_the_identity() {
    let x = Value::ComplexNumber(3, 4, 5, 6);
    let one = Value::ComplexNumber(1, 1, 0, 1);
    match multiply(x, one) {
        Value::ComplexNumber(a, b, c, d) => {
            assert_eq!((a, b, c, d), (18, 24, 20, 24));
            // 18/24 == 3/4 and 20/24 == 5/6 by cross-multiplication.
            assert_eq!(a * 4, 3 * b);
            assert_eq!(c * 6, 5 * d);
        }
        _ => panic!("expected a complex number"),
    }
}

#[test]
fn multiply_follows_the_product_formula() {
    let x = Value::ComplexNumber(1, 2, 1, 3);
    let y = Value::ComplexNumber(2, 5, 1, 2);
    assert_eq!(multiply(x, y), Value::ComplexNumber(2, 60, 23, 60));
}

#[test]
fn add_imaginary_denominator_modes_differ() {
    // 1/2 i + 1/3 i: the imaginary numerator is 5 over the imaginary lcm 6,
    // but the historical mode places it over the real denominator 1.
    let x = Value::ComplexNumber(0, 1, 1, 2);
    let y = Value::ComplexNumber(0, 1, 1, 3);
    let shared = add_with_mode(x, y, ImaginaryDenominator::SharedWithReal);
    assert_eq!(shared, Value::ComplexNumber(0, 1, 5, 1));
    let x = Value::ComplexNumber(0, 1, 1, 2);
    let y = Value::ComplexNumber(0, 1, 1, 3);
    let independent = add_with_mode(x, y, ImaginaryDenominator::Independent);
    assert_eq!(independent, Value::ComplexNumber(0, 1, 5, 6));
}

#[test]
fn add_matches_historical_mode() {
    let x = Value::ComplexNumber(0, 1, 1, 2);
    let y = Value::ComplexNumber(0, 1, 1, 3);
    assert_eq!(complex_eval::arith::add(x, y), Value::ComplexNumber(0, 1, 5, 1));
}

#[test]
fn checked_multiply_reports_overflow() {
    let x = Value::ComplexNumber(i64::MAX, 1, 0, 1);
    let y = Value::ComplexNumber(2, 1, 0, 1);
    assert_eq!(checked_multiply(&x, &y), None);
}

#[test]
fn checked_multiply_accepts_a_zero_denominator() {
    // Multiplication performs no division; a malformed operand flows
    // through and poisons the result's denominator instead.
    let x = Value::ComplexNumber(1, 0, 0, 1);
    let y = Value::ComplexNumber(1, 1, 0, 1);
    assert_eq!(checked_multiply(&x, &y), Some(Value::ComplexNumber(1, 0, 0, 0)));
}

#[test]
fn checked_add_reports_overflow() {
    let x = Value::ComplexNumber(i64::MAX, 1, 0, 1);
    let y = Value::ComplexNumber(1, 1, 0, 1);
    assert_eq!(checked_add(&x, &y), None);
}

#[test]
fn checked_add_rejects_a_zero_denominator() {
    let x = Value::ComplexNumber(1, 0, 0, 1);
    let y = Value::ComplexNumber(1, 1, 0, 1);
    assert_eq!(checked_add(&x, &y), None);
}

#[test]
fn checked_add_on_mismatch_returns_fallback() {
    let x = Value::Boolean(true);
    let y = Value::ComplexNumber(1, 1, 0, 1);
    assert_eq!(checked_add(&x, &y), Some(Value::ComplexNumber(0, 1, 0, 1)));
}

#[test]
fn add_with_negative_denominators() {
    // 1/-2 + 1/4 = -1/4: the common denominator keeps b1's sign.
    let x = Value::ComplexNumber(1, -2, 0, 1);
    let y = Value::ComplexNumber(1, 4, 0, 1);
    match complex_eval::arith::add(x, y) {
        Value::ComplexNumber(af, bf, _, _) => {
            assert_ne!(bf, 0);
            assert_eq!(af * 4, -1 * bf);
        }
        _ => panic!("expected a complex number"),
    }
}
