//! The rational complex arithmetic combinators.
//!
//! Both combinators are defined when both operands are complex numbers and
//! otherwise return the named fallback value; a type mismatch is absorbed,
//! never raised. Results are never reduced to lowest terms.

use crate::values::Value;
use crate::values::abs_int;
use crate::values::gcd;
use crate::values::gcd_int;
use crate::values::lemma_gcd_int_properties;
use vstd::prelude::*;

verus! {

/// The canonical zero `0/1 + (0/1)i`, returned by the combinators when the
/// operand types do not match the expected pair of complex numbers.
pub open spec fn spec_fallback() -> Value {
    Value::ComplexNumber(0, 1, 0, 1)
}

/// The named fallback value for arithmetic on mismatched operand types.
pub fn arithmetic_fallback() -> (r: Value)
    ensures
        r == spec_fallback(),
{
    Value::ComplexNumber(0, 1, 0, 1)
}

/// Whether a mathematical integer fits in the machine word the value
/// representation uses.
pub open spec fn fits_i64(x: int) -> bool {
    i64::MIN <= x <= i64::MAX
}

/// The exact components of the product
/// `(a1/b1 + (c1/d1)i) * (a2/b2 + (c2/d2)i)`, as mathematical integers:
/// real numerator, shared denominator, imaginary numerator.
pub open spec fn mul_parts(
    a1: int, b1: int, c1: int, d1: int,
    a2: int, b2: int, c2: int, d2: int,
) -> (int, int, int) {
    (
        a1 * a2 * d1 * d2 - c1 * c2 * b1 * b2,
        b1 * b2 * d1 * d2,
        a1 * c2 * b2 * d1 + a2 * c1 * b1 * d2,
    )
}

/// Whether every intermediate step of the product formula, in the order the
/// implementation computes them, stays within the machine word.
pub open spec fn mul_steps_fit(
    a1: int, b1: int, c1: int, d1: int,
    a2: int, b2: int, c2: int, d2: int,
) -> bool {
    let r1 = a1 * a2;
    let r2 = r1 * d1;
    let r3 = r2 * d2;
    let s1 = c1 * c2;
    let s2 = s1 * b1;
    let s3 = s2 * b2;
    let t1 = b1 * b2;
    let t2 = t1 * d1;
    let t3 = t2 * d2;
    let u1 = a1 * c2;
    let u2 = u1 * b2;
    let u3 = u2 * d1;
    let v1 = a2 * c1;
    let v2 = v1 * b1;
    let v3 = v2 * d2;
    fits_i64(r1) && fits_i64(r2) && fits_i64(r3)
        && fits_i64(s1) && fits_i64(s2) && fits_i64(s3) && fits_i64(r3 - s3)
        && fits_i64(t1) && fits_i64(t2) && fits_i64(t3)
        && fits_i64(u1) && fits_i64(u2) && fits_i64(u3)
        && fits_i64(v1) && fits_i64(v2) && fits_i64(v3) && fits_i64(u3 + v3)
}

/// Whether `multiply` can represent its result for these operands: always,
/// for a type mismatch; for two complex numbers, when every step of the
/// formula fits the machine word.
pub open spec fn mul_ok(x: Value, y: Value) -> bool {
    match (x, y) {
        (
            Value::ComplexNumber(a1, b1, c1, d1),
            Value::ComplexNumber(a2, b2, c2, d2),
        ) => mul_steps_fit(
            a1 as int, b1 as int, c1 as int, d1 as int,
            a2 as int, b2 as int, c2 as int, d2 as int,
        ),
        _ => true,
    }
}

/// The value `multiply` returns: the exact product components for two
/// complex numbers, the fallback otherwise. Meaningful where `mul_ok` holds.
pub open spec fn mul_vals(x: Value, y: Value) -> Value {
    match (x, y) {
        (
            Value::ComplexNumber(a1, b1, c1, d1),
            Value::ComplexNumber(a2, b2, c2, d2),
        ) => {
            let (re, den, im) = mul_parts(
                a1 as int, b1 as int, c1 as int, d1 as int,
                a2 as int, b2 as int, c2 as int, d2 as int,
            );
            Value::ComplexNumber(re as i64, den as i64, im as i64, den as i64)
        },
        _ => spec_fallback(),
    }
}

/// Which denominator the imaginary part of a sum is placed over.
///
/// `SharedWithReal` reproduces the historical behavior, where the imaginary
/// numerator is built from the imaginary common denominator but the result
/// reuses the real part's denominator. `Independent` places the imaginary
/// numerator over its own common denominator.
pub enum ImaginaryDenominator {
    SharedWithReal,
    Independent,
}

/// The exact components of the sum
/// `(a1/b1 + (c1/d1)i) + (a2/b2 + (c2/d2)i)` over least common
/// denominators, as mathematical integers:
/// `(real numerator, real denominator, imaginary numerator, imaginary lcm)`.
pub open spec fn add_parts(
    a1: int, b1: int, c1: int, d1: int,
    a2: int, b2: int, c2: int, d2: int,
) -> (int, int, int, int) {
    let g = gcd_int(b1, b2) as int;
    let l = (b1 / g) * b2;
    let af = a1 * (l / b1) + a2 * (l / b2);
    let gi = gcd_int(d1, d2) as int;
    let li = (d1 / gi) * d2;
    let cf = c1 * (li / d1) + c2 * (li / d2);
    (af, l, cf, li)
}

/// Whether `add` is defined and representable for these operands: always,
/// for a type mismatch; for two complex numbers, when all four denominators
/// are nonzero and every step of the formula fits the machine word.
pub open spec fn add_ok(x: Value, y: Value) -> bool {
    match (x, y) {
        (
            Value::ComplexNumber(a1, b1, c1, d1),
            Value::ComplexNumber(a2, b2, c2, d2),
        ) => b1 != 0 && b2 != 0 && d1 != 0 && d2 != 0 && add_steps_fit(
            a1 as int, b1 as int, c1 as int, d1 as int,
            a2 as int, b2 as int, c2 as int, d2 as int,
        ),
        _ => true,
    }
}

/// Whether every step of the sum formula stays within the machine word.
pub open spec fn add_steps_fit(
    a1: int, b1: int, c1: int, d1: int,
    a2: int, b2: int, c2: int, d2: int,
) -> bool {
    let g = gcd_int(b1, b2) as int;
    let l = (b1 / g) * b2;
    let gi = gcd_int(d1, d2) as int;
    let li = (d1 / gi) * d2;
    fits_i64(l) && fits_i64(a1 * (l / b1)) && fits_i64(a2 * (l / b2))
        && fits_i64(a1 * (l / b1) + a2 * (l / b2))
        && fits_i64(li) && fits_i64(c1 * (li / d1)) && fits_i64(c2 * (li / d2))
        && fits_i64(c1 * (li / d1) + c2 * (li / d2))
}

/// The value `add` returns under the chosen imaginary-denominator mode:
/// the exact sum components for two complex numbers, the fallback
/// otherwise. Meaningful where `add_ok` holds.
pub open spec fn add_vals(x: Value, y: Value, mode: ImaginaryDenominator) -> Value {
    match (x, y) {
        (
            Value::ComplexNumber(a1, b1, c1, d1),
            Value::ComplexNumber(a2, b2, c2, d2),
        ) => {
            let (af, l, cf, li) = add_parts(
                a1 as int, b1 as int, c1 as int, d1 as int,
                a2 as int, b2 as int, c2 as int, d2 as int,
            );
            let df = match mode {
                ImaginaryDenominator::SharedWithReal => l,
                ImaginaryDenominator::Independent => li,
            };
            Value::ComplexNumber(af as i64, l as i64, cf as i64, df as i64)
        },
        _ => spec_fallback(),
    }
}

/// A signed integer whose magnitude a positive integer divides is itself
/// an exact multiple of it.
proof fn lemma_divides_signed(x: int, g: int)
    requires
        g >= 1,
        (abs_int(x) as int) % g == 0,
    ensures
        x == g * (x / g),
{
    vstd::arithmetic::div_mod::lemma_fundamental_div_mod(abs_int(x) as int, g);
    let k = (abs_int(x) as int) / g;
    if x < 0 {
        assert(x == g * (-k)) by (nonlinear_arith)
            requires
                abs_int(x) as int == g * k,
                abs_int(x) as int == -x,
        ;
        lemma_exact_div(x, g, -k);
    } else {
        assert(x == g * k);
        lemma_exact_div(x, g, k);
    }
}

/// An exact division has the quotient the equation names.
proof fn lemma_exact_div(x: int, d: int, q: int)
    requires
        d != 0,
        x == d * q,
    ensures
        x / d == q,
{
    vstd::arithmetic::div_mod::lemma_fundamental_div_mod(x, d);
    assert(q == x / d) by (nonlinear_arith)
        requires
            d != 0,
            x == d * q,
            x == d * (x / d) + x % d,
            0 <= x % d < (if d < 0 { -d } else { d }),
    ;
}

/// Multiplies two machine words exactly in a double-width word and reports
/// whether the product fits back in a machine word.
fn mul_fit(p: i128, q: i128) -> (r: Option<i128>)
    requires
        fits_i64(p as int),
        fits_i64(q as int),
    ensures
        match r {
            Some(v) => fits_i64((p * q) as int) && v == p * q,
            None => !fits_i64((p * q) as int),
        },
{
    proof {
        assert((i64::MIN as int) * (i64::MIN as int) >= p * q >= (i64::MIN as int)
            * (i64::MAX as int)) by (nonlinear_arith)
            requires
                i64::MIN as int <= p as int <= i64::MAX as int,
                i64::MIN as int <= q as int <= i64::MAX as int,
        ;
    }
    let w = p * q;
    if w < i64::MIN as i128 || w > i64::MAX as i128 {
        None
    } else {
        Some(w)
    }
}

/// Adds two in-range double-width words and reports whether the sum fits in
/// a machine word.
fn add_fit(p: i128, q: i128) -> (r: Option<i128>)
    requires
        fits_i64(p as int),
        fits_i64(q as int),
    ensures
        match r {
            Some(v) => fits_i64((p + q) as int) && v == p + q,
            None => !fits_i64((p + q) as int),
        },
{
    let w = p + q;
    if w < i64::MIN as i128 || w > i64::MAX as i128 {
        None
    } else {
        Some(w)
    }
}

/// Subtracts two in-range double-width words and reports whether the
/// difference fits in a machine word.
fn sub_fit(p: i128, q: i128) -> (r: Option<i128>)
    requires
        fits_i64(p as int),
        fits_i64(q as int),
    ensures
        match r {
            Some(v) => fits_i64((p - q) as int) && v == p - q,
            None => !fits_i64((p - q) as int),
        },
{
    let w = p - q;
    if w < i64::MIN as i128 || w > i64::MAX as i128 {
        None
    } else {
        Some(w)
    }
}

/// The product of two complex numbers, step by step; `None` as soon as a
/// step leaves the machine word.
fn complex_multiply(
    a1: i64, b1: i64, c1: i64, d1: i64,
    a2: i64, b2: i64, c2: i64, d2: i64,
) -> (r: Option<Value>)
    ensures
        mul_steps_fit(
            a1 as int, b1 as int, c1 as int, d1 as int,
            a2 as int, b2 as int, c2 as int, d2 as int,
        ) ==> r == Some(
            mul_vals(
                Value::ComplexNumber(a1, b1, c1, d1),
                Value::ComplexNumber(a2, b2, c2, d2),
            ),
        ),
        !mul_steps_fit(
            a1 as int, b1 as int, c1 as int, d1 as int,
            a2 as int, b2 as int, c2 as int, d2 as int,
        ) ==> r is None,
{
    let r1 = match mul_fit(a1 as i128, a2 as i128) {
        Some(v) => v,
        None => { return None; },
    };
    let r2 = match mul_fit(r1, d1 as i128) {
        Some(v) => v,
        None => { return None; },
    };
    let r3 = match mul_fit(r2, d2 as i128) {
        Some(v) => v,
        None => { return None; },
    };
    let s1 = match mul_fit(c1 as i128, c2 as i128) {
        Some(v) => v,
        None => { return None; },
    };
    let s2 = match mul_fit(s1, b1 as i128) {
        Some(v) => v,
        None => { return None; },
    };
    let s3 = match mul_fit(s2, b2 as i128) {
        Some(v) => v,
        None => { return None; },
    };
    let re = match sub_fit(r3, s3) {
        Some(v) => v,
        None => { return None; },
    };
    let t1 = match mul_fit(b1 as i128, b2 as i128) {
        Some(v) => v,
        None => { return None; },
    };
    let t2 = match mul_fit(t1, d1 as i128) {
        Some(v) => v,
        None => { return None; },
    };
    let den = match mul_fit(t2, d2 as i128) {
        Some(v) => v,
        None => { return None; },
    };
    let u1 = match mul_fit(a1 as i128, c2 as i128) {
        Some(v) => v,
        None => { return None; },
    };
    let u2 = match mul_fit(u1, b2 as i128) {
        Some(v) => v,
        None => { return None; },
    };
    let u3 = match mul_fit(u2, d1 as i128) {
        Some(v) => v,
        None => { return None; },
    };
    let v1 = match mul_fit(a2 as i128, c1 as i128) {
        Some(v) => v,
        None => { return None; },
    };
    let v2 = match mul_fit(v1, b1 as i128) {
        Some(v) => v,
        None => { return None; },
    };
    let v3 = match mul_fit(v2, d2 as i128) {
        Some(v) => v,
        None => { return None; },
    };
    let im = match add_fit(u3, v3) {
        Some(v) => v,
        None => { return None; },
    };
    Some(Value::ComplexNumber(re as i64, den as i64, im as i64, den as i64))
}

/// The product of two values when it is representable; `None` exactly where
/// `mul_ok` fails.
pub fn checked_multiply(x: &Value, y: &Value) -> (r: Option<Value>)
    ensures
        mul_ok(*x, *y) ==> r == Some(mul_vals(*x, *y)),
        !mul_ok(*x, *y) ==> r is None,
{
    match (x, y) {
        (
            Value::ComplexNumber(a1, b1, c1, d1),
            Value::ComplexNumber(a2, b2, c2, d2),
        ) => complex_multiply(*a1, *b1, *c1, *d1, *a2, *b2, *c2, *d2),
        _ => Some(arithmetic_fallback()),
    }
}

/// The product of two values.
///
/// Defined when both operands are complex numbers; any other pairing is
/// absorbed into the fallback zero. The result's fraction is not reduced.
pub fn multiply(x: Value, y: Value) -> (r: Value)
    requires
        mul_ok(x, y),
    ensures
        r == mul_vals(x, y),
{
    match checked_multiply(&x, &y) {
        Some(v) => v,
        None => vstd::pervasive::unreached(),
    }
}

/// The signed exact quotient of a machine word by a positive divisor of its
/// magnitude.
fn exact_div_signed(x: i64, g: u64) -> (q: i64)
    requires
        g >= 1,
        (abs_int(x as int) as int) % (g as int) == 0,
    ensures
        q as int == (x as int) / (g as int),
{
    let mag = crate::values::abs_magnitude(x);
    let qm = mag / g;
    proof {
        vstd::arithmetic::div_mod::lemma_fundamental_div_mod(mag as int, g as int);
        assert(mag as int == (g as int) * (qm as int));
        vstd::arithmetic::div_mod::lemma_div_nonincreasing(mag as int, g as int);
        assert(qm <= mag);
        if x < 0 {
            assert(x as int == (g as int) * (-(qm as int))) by (nonlinear_arith)
                requires
                    mag as int == (g as int) * (qm as int),
                    mag as int == -(x as int),
            ;
            lemma_exact_div(x as int, g as int, -(qm as int));
        } else {
            assert(x as int == (g as int) * (qm as int));
            lemma_exact_div(x as int, g as int, qm as int);
        }
    }
    if x < 0 {
        (-(qm as i128)) as i64
    } else {
        qm as i64
    }
}

/// The sum of two complex numbers over least common denominators, step by
/// step; `None` as soon as a step leaves the machine word. The imaginary
/// numerator is always built from the imaginary common denominator; `mode`
/// chooses which denominator it is then placed over.
fn complex_add(
    a1: i64, b1: i64, c1: i64, d1: i64,
    a2: i64, b2: i64, c2: i64, d2: i64,
    mode: ImaginaryDenominator,
) -> (r: Option<Value>)
    requires
        b1 != 0,
        b2 != 0,
        d1 != 0,
        d2 != 0,
    ensures
        add_steps_fit(
            a1 as int, b1 as int, c1 as int, d1 as int,
            a2 as int, b2 as int, c2 as int, d2 as int,
        ) ==> r == Some(
            add_vals(
                Value::ComplexNumber(a1, b1, c1, d1),
                Value::ComplexNumber(a2, b2, c2, d2),
                mode,
            ),
        ),
        !add_steps_fit(
            a1 as int, b1 as int, c1 as int, d1 as int,
            a2 as int, b2 as int, c2 as int, d2 as int,
        ) ==> r is None,
{
    proof {
        lemma_gcd_int_properties(b1 as int, b2 as int);
        lemma_gcd_int_properties(d1 as int, d2 as int);
    }
    let g = gcd(b1, b2);
    let q1 = exact_div_signed(b1, g);
    let q2 = exact_div_signed(b2, g);
    let ghost gg = g as int;
    let ghost l_spec = ((b1 as int) / gg) * (b2 as int);
    let l = match mul_fit(q1 as i128, b2 as i128) {
        Some(v) => v,
        None => { return None; },
    };
    proof {
        // l = (b1/g) * b2 is divisible by both b1 and b2, with the expected
        // quotients: l / b1 == b2 / g and l / b2 == b1 / g.
        let b1i = b1 as int;
        let b2i = b2 as int;
        lemma_divides_signed(b1i, gg);
        lemma_divides_signed(b2i, gg);
        assert(l_spec == b2i * (b1i / gg));
        lemma_exact_div(l_spec, b2i, b1i / gg);
        assert(l_spec == b1i * (b2i / gg)) by (nonlinear_arith)
            requires
                b1i == gg * (b1i / gg),
                b2i == gg * (b2i / gg),
                l_spec == (b1i / gg) * b2i,
        ;
        lemma_exact_div(l_spec, b1i, b2i / gg);
        assert(l_spec / b1i == b2i / gg);
        assert(l_spec / b2i == b1i / gg);
    }
    let af1 = match mul_fit(a1 as i128, q2 as i128) {
        Some(v) => v,
        None => { return None; },
    };
    let af2 = match mul_fit(a2 as i128, q1 as i128) {
        Some(v) => v,
        None => { return None; },
    };
    let af = match add_fit(af1, af2) {
        Some(v) => v,
        None => { return None; },
    };
    proof {
        lemma_gcd_int_properties(d1 as int, d2 as int);
    }
    let gi = gcd(d1, d2);
    let e1 = exact_div_signed(d1, gi);
    let e2 = exact_div_signed(d2, gi);
    let ghost gii = gi as int;
    let ghost li_spec = ((d1 as int) / gii) * (d2 as int);
    let li = match mul_fit(e1 as i128, d2 as i128) {
        Some(v) => v,
        None => { return None; },
    };
    proof {
        let d1i = d1 as int;
        let d2i = d2 as int;
        lemma_divides_signed(d1i, gii);
        lemma_divides_signed(d2i, gii);
        assert(li_spec == d2i * (d1i / gii));
        lemma_exact_div(li_spec, d2i, d1i / gii);
        assert(li_spec == d1i * (d2i / gii)) by (nonlinear_arith)
            requires
                d1i == gii * (d1i / gii),
                d2i == gii * (d2i / gii),
                li_spec == (d1i / gii) * d2i,
        ;
        lemma_exact_div(li_spec, d1i, d2i / gii);
    }
    let cf1 = match mul_fit(c1 as i128, e2 as i128) {
        Some(v) => v,
        None => { return None; },
    };
    let cf2 = match mul_fit(c2 as i128, e1 as i128) {
        Some(v) => v,
        None => { return None; },
    };
    let cf = match add_fit(cf1, cf2) {
        Some(v) => v,
        None => { return None; },
    };
    let df = match mode {
        ImaginaryDenominator::SharedWithReal => l,
        ImaginaryDenominator::Independent => li,
    };
    Some(Value::ComplexNumber(af as i64, l as i64, cf as i64, df as i64))
}

/// The sum of two values under the historical imaginary-denominator mode,
/// when it is representable; `None` exactly where `add_ok` fails.
pub fn checked_add(x: &Value, y: &Value) -> (r: Option<Value>)
    ensures
        add_ok(*x, *y) ==> r == Some(
            add_vals(*x, *y, ImaginaryDenominator::SharedWithReal),
        ),
        !add_ok(*x, *y) ==> r is None,
{
    match (x, y) {
        (
            Value::ComplexNumber(a1, b1, c1, d1),
            Value::ComplexNumber(a2, b2, c2, d2),
        ) => {
            if *b1 == 0 || *b2 == 0 || *d1 == 0 || *d2 == 0 {
                None
            } else {
                complex_add(
                    *a1, *b1, *c1, *d1, *a2, *b2, *c2, *d2,
                    ImaginaryDenominator::SharedWithReal,
                )
            }
        },
        _ => Some(arithmetic_fallback()),
    }
}

/// The sum of two values under an explicit imaginary-denominator mode.
///
/// Defined when both operands are complex numbers; any other pairing is
/// absorbed into the fallback zero. Fractions are combined over least
/// common denominators and not reduced.
pub fn add_with_mode(x: Value, y: Value, mode: ImaginaryDenominator) -> (r: Value)
    requires
        add_ok(x, y),
    ensures
        r == add_vals(x, y, mode),
{
    match (x, y) {
        (
            Value::ComplexNumber(a1, b1, c1, d1),
            Value::ComplexNumber(a2, b2, c2, d2),
        ) => {
            match complex_add(a1, b1, c1, d1, a2, b2, c2, d2, mode) {
                Some(v) => v,
                None => vstd::pervasive::unreached(),
            }
        },
        _ => arithmetic_fallback(),
    }
}

/// The sum of two values, with the imaginary part placed over the real
/// part's denominator as the historical behavior has it.
pub fn add(x: Value, y: Value) -> (r: Value)
    requires
        add_ok(x, y),
    ensures
        r == add_vals(x, y, ImaginaryDenominator::SharedWithReal),
{
    add_with_mode(x, y, ImaginaryDenominator::SharedWithReal)
}

/// Two complex values denote the same rational complex number, compared by
/// cross-multiplication, so without reducing either fraction.
pub open spec fn numerically_equal(u: Value, v: Value) -> bool {
    match (u, v) {
        (
            Value::ComplexNumber(ua, ub, uc, ud),
            Value::ComplexNumber(va, vb, vc, vd),
        ) => ua * vb == va * ub && uc * vd == vc * ud,
        _ => false,
    }
}

/// Multiplying by one, written `1/1 + (0/1)i`, is numerically the identity
/// on every complex number with nonzero denominators, even though the
/// result's representation is not reduced.
pub proof fn lemma_multiply_identity(x: Value)
    requires
        x matches Value::ComplexNumber(a, b, c, d) && b != 0 && d != 0,
        mul_ok(x, Value::ComplexNumber(1, 1, 0, 1)),
    ensures
        numerically_equal(mul_vals(x, Value::ComplexNumber(1, 1, 0, 1)), x),
{
    let a = x->ComplexNumber_0 as int;
    let b = x->ComplexNumber_1 as int;
    let c = x->ComplexNumber_2 as int;
    let d = x->ComplexNumber_3 as int;
    let (re, den, im) = mul_parts(a, b, c, d, 1, 1, 0, 1);
    assert(re == a * d && den == b * d && im == c * b) by (nonlinear_arith)
        requires
            re == a * 1 * d * 1 - c * 0 * b * 1,
            den == b * 1 * d * 1,
            im == a * 0 * 1 * d + 1 * c * b * 1,
    ;
    assert(fits_i64(re) && fits_i64(den) && fits_i64(im));
    assert((a * d) * b == a * (b * d) && (c * b) * d == c * (b * d)) by (nonlinear_arith);
}

/// A type mismatch is absorbed: whenever either operand is not a complex
/// number, both combinators return exactly the fallback zero.
pub proof fn lemma_mismatch_returns_fallback(x: Value, y: Value, mode: ImaginaryDenominator)
    requires
        !(x matches Value::ComplexNumber(..)) || !(y matches Value::ComplexNumber(..)),
    ensures
        mul_vals(x, y) == spec_fallback(),
        add_vals(x, y, mode) == spec_fallback(),
{
}

} // verus!
