//! Greatest common divisor by Euclid's algorithm, with the facts about it
//! that reduction to lowest terms relies on.

use vstd::arithmetic::div_mod::{
    lemma_div_multiples_vanish, lemma_fundamental_div_mod, lemma_fundamental_div_mod_converse,
    lemma_mod_multiples_basic,
};
use vstd::prelude::*;

verus! {

/// Euclid's algorithm on naturals: `gcd(a, 0) == a`, `gcd(a, b) == gcd(b, a % b)`.
pub open spec fn spec_gcd(a: nat, b: nat) -> nat
    decreases b,
{
    if b == 0 {
        a
    } else {
        spec_gcd(b, a % b)
    }
}

/// Greatest common divisor of two magnitudes.
pub fn gcd(a: u128, b: u128) -> (r: u128)
    ensures
        r == spec_gcd(a as nat, b as nat),
    decreases b,
{
    if b == 0 {
        a
    } else {
        gcd(b, a % b)
    }
}


/// A linear combination of two multiples of `k` is a multiple of `k`.
pub proof fn lemma_multiple_combination(k: int, x: int, y: int, c: int)
    requires
        k > 0,
        x % k == 0,
        y % k == 0,
    ensures
        (x + c * y) % k == 0,
{
    lemma_fundamental_div_mod(x, k);
    lemma_fundamental_div_mod(y, k);
    let m = x / k + c * (y / k);
    assert(x + c * y == m * k) by (nonlinear_arith)
        requires
            x == k * (x / k),
            y == k * (y / k),
            m == x / k + c * (y / k),
    ;
    lemma_mod_multiples_basic(m, k);
}

/// Two positive numbers that divide each other are equal.
pub proof fn lemma_mutual_divisors_equal(x: int, y: int)
    requires
        x > 0,
        y > 0,
        x % y == 0,
        y % x == 0,
    ensures
        x == y,
{
    lemma_fundamental_div_mod(x, y);
    lemma_fundamental_div_mod(y, x);
    assert(x >= y) by (nonlinear_arith)
        requires
            x > 0,
            y > 0,
            x == y * (x / y),
    ;
    assert(y >= x) by (nonlinear_arith)
        requires
            x > 0,
            y > 0,
            y == x * (y / x),
    ;
}

/// The gcd of two numbers, not both zero, is positive and divides both.
pub proof fn lemma_gcd_divides(a: nat, b: nat)
    requires
        a > 0 || b > 0,
    ensures
        spec_gcd(a, b) > 0,
        a % spec_gcd(a, b) == 0,
        b % spec_gcd(a, b) == 0,
    decreases b,
{
    if b == 0 {
        lemma_mod_multiples_basic(1, a as int);
        lemma_mod_multiples_basic(0, a as int);
    } else {
        let r = a % b;
        lemma_gcd_divides(b, r);
        let g = spec_gcd(b, r) as int;
        lemma_fundamental_div_mod(a as int, b as int);
        lemma_multiple_combination(g, r as int, b as int, (a / b) as int);
        assert(r + (a / b) * b == a) by (nonlinear_arith)
            requires
                a == b * (a / b) + r,
        ;
    }
}

/// Every common divisor of `a` and `b` divides their gcd.
pub proof fn lemma_gcd_greatest(a: nat, b: nat, k: int)
    requires
        k > 0,
        (a as int) % k == 0,
        (b as int) % k == 0,
    ensures
        (spec_gcd(a, b) as int) % k == 0,
    decreases b,
{
    if b > 0 {
        let r = a % b;
        lemma_fundamental_div_mod(a as int, b as int);
        lemma_multiple_combination(k, a as int, b as int, -(a / b));
        assert(a + (-(a / b)) * b == r) by (nonlinear_arith)
            requires
                a == b * (a / b) + r,
        ;
        lemma_gcd_greatest(b, r, k);
    }
}

/// Scaling both arguments scales the gcd: `gcd(a*m, b*m) == gcd(a, b) * m`.
pub proof fn lemma_gcd_scale(a: nat, b: nat, m: nat)
    requires
        m > 0,
    ensures
        spec_gcd(a * m, b * m) == spec_gcd(a, b) * m,
    decreases b,
{
    if b > 0 {
        let q = a / b;
        let r = a % b;
        lemma_fundamental_div_mod(a as int, b as int);
        assert(a * m == q * (b * m) + r * m && 0 <= r * m < b * m) by (nonlinear_arith)
            requires
                a == b * q + r,
                0 <= r < b,
                m > 0,
        ;
        lemma_fundamental_div_mod_converse((a * m) as int, (b * m) as int, q as int, (r * m) as int);
        assert(b * m > 0) by (nonlinear_arith)
            requires
                b > 0,
                m > 0,
        ;
        lemma_gcd_scale(b, r, m);
        assert((a * m) % (b * m) == r * m);
        assert(spec_gcd(a * m, b * m) == spec_gcd(b * m, r * m));
    } else {
        assert(b * m == 0) by (nonlinear_arith)
            requires
                b == 0,
        ;
    }
}

/// The gcd does not depend on the order of its arguments.
pub proof fn lemma_gcd_commutative(a: nat, b: nat)
    ensures
        spec_gcd(a, b) == spec_gcd(b, a),
{
    if a > 0 || b > 0 {
        lemma_gcd_divides(a, b);
        lemma_gcd_divides(b, a);
        lemma_gcd_greatest(a, b, spec_gcd(b, a) as int);
        lemma_gcd_greatest(b, a, spec_gcd(a, b) as int);
        lemma_mutual_divisors_equal(spec_gcd(a, b) as int, spec_gcd(b, a) as int);
    } else {
        reveal_with_fuel(spec_gcd, 2);
    }
}

/// `gcd(0, m) == m` and `gcd(m, m) == m`.
pub proof fn lemma_gcd_zero_and_self(m: nat)
    requires
        m > 0,
    ensures
        spec_gcd(0, m) == m,
        spec_gcd(m, m) == m,
{
    reveal_with_fuel(spec_gcd, 2);
    lemma_mod_multiples_basic(0, m as int);
    lemma_mod_multiples_basic(1, m as int);
}

/// `gcd(a, 1) == 1`.
pub proof fn lemma_gcd_one(a: nat)
    ensures
        spec_gcd(a, 1) == 1,
{
    reveal_with_fuel(spec_gcd, 2);
}

/// Dividing both arguments by their gcd leaves them coprime.
pub proof fn lemma_gcd_quotients_coprime(a: nat, b: nat)
    requires
        a > 0 || b > 0,
    ensures
        spec_gcd(a / spec_gcd(a, b), b / spec_gcd(a, b)) == 1,
{
    let g = spec_gcd(a, b);
    lemma_gcd_divides(a, b);
    lemma_fundamental_div_mod(a as int, g as int);
    lemma_fundamental_div_mod(b as int, g as int);
    let a1 = a / g;
    let b1 = b / g;
    assert(a1 * g == a && b1 * g == b) by (nonlinear_arith)
        requires
            a == g * (a / g),
            b == g * (b / g),
            a1 == a / g,
            b1 == b / g,
    ;
    lemma_gcd_scale(a1, b1, g);
    let h = spec_gcd(a1, b1);
    assert(h == 1) by (nonlinear_arith)
        requires
            g == h * g,
            g > 0,
    ;
}

/// Euclid's lemma: if `b` is coprime to `a` and divides `a * d`, it divides `d`.
pub proof fn lemma_coprime_divides_product(a: nat, b: nat, d: nat)
    requires
        b > 0,
        spec_gcd(a, b) == 1,
        (a * d) % b == 0,
    ensures
        d % b == 0,
{
    if d == 0 {
        lemma_mod_multiples_basic(0, b as int);
    } else {
        lemma_gcd_scale(a, b, d);
        assert(b * d == d * b) by (nonlinear_arith);
        lemma_mod_multiples_basic(d as int, b as int);
        lemma_gcd_greatest(a * d, b * d, b as int);
        assert(spec_gcd(a, b) * d == d);
    }
}

} // verus!
