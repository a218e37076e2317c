//! The value domain: rational complex numbers, closure values, booleans,
//! and the integer gcd primitive that addition builds its common
//! denominator from.

use crate::nodes::Expression;
use vstd::prelude::*;

verus! {

/// A value an expression can denote.
#[derive(Debug, PartialEq)]
pub enum Value {
    /// Four signed integers `(a, b, c, d)` representing `a/b + (c/d)i`.
    /// Denominators are expected to be nonzero; fractions are never reduced,
    /// so denominators may grow across repeated operations.
    ComplexNumber(i64, i64, i64, i64),
    /// A closure value: parameter and body expressions verbatim, with no
    /// captured scope.
    Function(Expression, Expression),
    /// A literal truth value.
    Boolean(bool),
}

/// The greatest common divisor of two nonnegative integers, by Euclid's
/// recurrence.
pub open spec fn gcd_nat(a: nat, b: nat) -> nat
    decreases b,
{
    if b == 0 {
        a
    } else {
        gcd_nat(b, a % b)
    }
}

/// The absolute value of an integer.
pub open spec fn abs_int(x: int) -> nat {
    if x < 0 {
        (-x) as nat
    } else {
        x as nat
    }
}

/// The gcd of two signed integers: the gcd of their absolute values.
pub open spec fn gcd_int(m: int, n: int) -> nat {
    gcd_nat(abs_int(m), abs_int(n))
}

/// The gcd of nonnegative integers is positive as soon as its first
/// argument is, and divides both arguments.
pub proof fn lemma_gcd_nat_properties(a: nat, b: nat)
    ensures
        a > 0 || b > 0 ==> gcd_nat(a, b) > 0,
        gcd_nat(a, b) > 0 ==> (a as int) % (gcd_nat(a, b) as int) == 0,
        gcd_nat(a, b) > 0 ==> (b as int) % (gcd_nat(a, b) as int) == 0,
    decreases b,
{
    let g = gcd_nat(a, b) as int;
    if b == 0 {
        if a > 0 {
            vstd::arithmetic::div_mod::lemma_mod_self_0(a as int);
            vstd::arithmetic::div_mod::lemma_small_mod(0, a);
        }
    } else {
        lemma_gcd_nat_properties(b, a % b);
        assert(gcd_nat(a, b) == gcd_nat(b, a % b));
        if g > 0 {
            // g divides b and a % b; show it divides a = (a / b) * b + a % b.
            vstd::arithmetic::div_mod::lemma_fundamental_div_mod(a as int, b as int);
            let q = a as int / b as int;
            let r = a as int % b as int;
            assert(a as int == b as int * q + r);
            assert(b as int % g == 0);
            assert(r % g == 0);
            let bq = b as int / g;
            vstd::arithmetic::div_mod::lemma_fundamental_div_mod(b as int, g);
            assert(b as int == g * bq + b as int % g);
            assert(b as int == g * bq);
            assert(b as int * q == g * (bq * q)) by (nonlinear_arith)
                requires
                    b as int == g * bq,
            ;
            vstd::arithmetic::div_mod::lemma_mod_multiples_basic(bq * q, g);
            assert((g * (bq * q)) % g == 0);
            vstd::arithmetic::div_mod::lemma_add_mod_noop(b as int * q, r, g);
            assert((b as int * q + r) % g == ((b as int * q) % g + r % g) % g);
            vstd::arithmetic::div_mod::lemma_small_mod(0, g as nat);
            assert(a as int % g == 0);
        }
    }
}

/// The gcd of signed integers divides them and is positive when either is
/// nonzero.
pub proof fn lemma_gcd_int_properties(m: int, n: int)
    ensures
        m != 0 || n != 0 ==> gcd_int(m, n) > 0,
        gcd_int(m, n) > 0 ==> (abs_int(m) as int) % (gcd_int(m, n) as int) == 0,
        gcd_int(m, n) > 0 ==> (abs_int(n) as int) % (gcd_int(m, n) as int) == 0,
{
    lemma_gcd_nat_properties(abs_int(m), abs_int(n));
}

/// The greatest common divisor of the absolute values of two integers.
///
/// Zero and negative inputs are accepted: `gcd(0, n)` is `|n|`, `gcd(m, 0)`
/// is `|m|`, `gcd(0, 0)` is `0`, and signs are ignored. The result is
/// returned as an unsigned integer so that `gcd(i64::MIN, i64::MIN)` is
/// still representable.
pub fn gcd(m: i64, n: i64) -> (g: u64)
    ensures
        g == gcd_int(m as int, n as int),
{
    let mut a: u64 = abs_magnitude(m);
    let mut b: u64 = abs_magnitude(n);
    while b != 0
        invariant
            gcd_nat(a as nat, b as nat) == gcd_int(m as int, n as int),
        decreases b,
    {
        let r = a % b;
        a = b;
        b = r;
    }
    a
}

/// The magnitude of a signed integer as an unsigned one; total, including
/// `i64::MIN`.
pub fn abs_magnitude(x: i64) -> (m: u64)
    ensures
        m == abs_int(x as int),
{
    if x < 0 {
        let wide: i128 = -(x as i128);
        wide as u64
    } else {
        x as u64
    }
}

} // verus!
