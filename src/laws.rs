//! Algebraic laws of fraction arithmetic, stated over the reduced model of
//! `Fraction` that the operations' contracts use.

use crate::fraction::{
    abs, difference, inverse, is_reduced, lemma_reduce_correct, lemma_reduce_reduced, product,
    product_fits, quotient, reduce, same_value, sign, sum, sum_fits, Fraction,
};
use crate::gcd::{
    lemma_coprime_divides_product, lemma_gcd_zero_and_self, lemma_mutual_divisors_equal,
    spec_gcd,
};
use vstd::arithmetic::div_mod::{lemma_div_by_self, lemma_mod_multiples_basic};
use vstd::arithmetic::mul::lemma_mul_is_distributive_add_other_way;
use vstd::prelude::*;

verus! {

/// The addition formula before reduction.
spec fn raw_sum(p: (int, int), q: (int, int)) -> (int, int) {
    (p.0 * q.1 + q.0 * p.1, p.1 * q.1)
}

/// The multiplication formula before reduction.
spec fn raw_product(p: (int, int), q: (int, int)) -> (int, int) {
    (p.0 * q.0, p.1 * q.1)
}

/// Two pairs in lowest terms that denote the same number are the same pair.
pub proof fn lemma_reduced_form_unique(p: (int, int), q: (int, int))
    requires
        is_reduced(p),
        is_reduced(q),
        same_value(p, q),
    ensures
        p == q,
{
    let a = abs(p.0);
    let c = abs(q.0);
    let b = p.1;
    let d = q.1;
    assert(a * d == c * b) by (nonlinear_arith)
        requires
            p.0 * d == q.0 * b,
            b > 0,
            d > 0,
            a == (if p.0 < 0 { -p.0 } else { p.0 }),
            c == (if q.0 < 0 { -q.0 } else { q.0 }),
    ;
    lemma_mod_multiples_basic(c as int, b);
    lemma_mod_multiples_basic(a as int, d);
    lemma_coprime_divides_product(a, b as nat, d as nat);
    lemma_coprime_divides_product(c, d as nat, b as nat);
    lemma_mutual_divisors_equal(b, d);
    assert(p.0 == q.0) by (nonlinear_arith)
        requires
            p.0 * d == q.0 * b,
            b == d,
            d > 0,
    ;
}

/// Denoting the same number is transitive through a pair with a nonzero denominator.
proof fn lemma_same_value_transitive(p: (int, int), q: (int, int), r: (int, int))
    requires
        q.1 != 0,
        same_value(p, q),
        same_value(q, r),
    ensures
        same_value(p, r),
{
    assert(q.1 * (p.0 * r.1 - r.0 * p.1) == 0) by (nonlinear_arith)
        requires
            p.0 * q.1 == q.0 * p.1,
            q.0 * r.1 == r.0 * q.1,
    ;
    assert(p.0 * r.1 == r.0 * p.1) by (nonlinear_arith)
        requires
            q.1 != 0,
            q.1 * (p.0 * r.1 - r.0 * p.1) == 0,
    ;
}

/// Replacing an operand of the raw sum by an equal number keeps its value.
proof fn lemma_raw_sum_congruent(p: (int, int), other: (int, int), r: (int, int))
    requires
        same_value(p, other),
    ensures
        same_value(raw_sum(p, r), raw_sum(other, r)),
        same_value(raw_sum(r, p), raw_sum(r, other)),
{
    let (a, b, a_other, b_other, c, d) = (p.0, p.1, other.0, other.1, r.0, r.1);
    lemma_mul_is_distributive_add_other_way(b_other * d, a * d, c * b);
    lemma_mul_is_distributive_add_other_way(b * d, a_other * d, c * b_other);
    lemma_mul_is_distributive_add_other_way(d * b_other, c * b, a * d);
    lemma_mul_is_distributive_add_other_way(d * b, c * b_other, a_other * d);
    assert((a * d) * (b_other * d) == (a * b_other) * (d * d)) by (nonlinear_arith);
    assert((a_other * d) * (b * d) == (a_other * b) * (d * d)) by (nonlinear_arith);
    assert((c * b) * (b_other * d) == c * (b * b_other * d)) by (nonlinear_arith);
    assert((c * b_other) * (b * d) == c * (b * b_other * d)) by (nonlinear_arith);
    assert((a * d) * (d * b_other) == (a * b_other) * (d * d)) by (nonlinear_arith);
    assert((a_other * d) * (d * b) == (a_other * b) * (d * d)) by (nonlinear_arith);
    assert((c * b) * (d * b_other) == c * (b * b_other * d)) by (nonlinear_arith);
    assert((c * b_other) * (d * b) == c * (b * b_other * d)) by (nonlinear_arith);
}

/// Replacing an operand of the raw product by an equal number keeps its value.
proof fn lemma_raw_product_congruent(p: (int, int), other: (int, int), r: (int, int))
    requires
        same_value(p, other),
    ensures
        same_value(raw_product(p, r), raw_product(other, r)),
        same_value(raw_product(r, p), raw_product(r, other)),
{
    assert((p.0 * r.0) * (other.1 * r.1) == (other.0 * r.0) * (p.1 * r.1)) by (nonlinear_arith)
        requires
            p.0 * other.1 == other.0 * p.1,
    ;
    assert((r.0 * p.0) * (r.1 * other.1) == (r.0 * other.0) * (r.1 * p.1)) by (nonlinear_arith)
        requires
            p.0 * other.1 == other.0 * p.1,
    ;
}

/// Normalizing is idempotent: reducing an already reduced pair gives it back.
pub proof fn lemma_normalize_idempotent(n: int, d: int)
    requires
        d > 0,
    ensures
        reduce(reduce(n, d).0, reduce(n, d).1) == reduce(n, d),
{
    lemma_reduce_correct(n, d);
    lemma_reduce_reduced(reduce(n, d));
}

/// Addition is commutative: `x + y == y + x`, and one side fits exactly
/// when the other does.
pub proof fn lemma_add_commutative(x: Fraction, y: Fraction)
    ensures
        sum(x@, y@) == sum(y@, x@),
        sum_fits(x@, y@) == sum_fits(y@, x@),
{
    let (p, q) = (x@, y@);
    assert(p.0 * q.1 + q.0 * p.1 == q.0 * p.1 + p.0 * q.1 && p.1 * q.1 == q.1 * p.1)
        by (nonlinear_arith);
}

/// Addition is associative: `(x + y) + z == x + (y + z)`.
pub proof fn lemma_add_associative(x: Fraction, y: Fraction, z: Fraction)
    requires
        is_reduced(x@),
        is_reduced(y@),
        is_reduced(z@),
    ensures
        sum(sum(x@, y@), z@) == sum(x@, sum(y@, z@)),
{
    let (p, q, r) = (x@, y@, z@);
    let pq = raw_sum(p, q);
    let qr = raw_sum(q, r);
    assert(pq.1 > 0 && qr.1 > 0) by (nonlinear_arith)
        requires
            p.1 > 0,
            q.1 > 0,
            r.1 > 0,
            pq.1 == p.1 * q.1,
            qr.1 == q.1 * r.1,
    ;
    let s = sum(p, q);
    let t = sum(q, r);
    lemma_reduce_correct(pq.0, pq.1);
    lemma_reduce_correct(qr.0, qr.1);
    let left = raw_sum(s, r);
    let right = raw_sum(p, t);
    let whole = raw_sum(pq, r);
    let (a, b, c, d, e, f) = (p.0, p.1, q.0, q.1, r.0, r.1);
    lemma_mul_is_distributive_add_other_way(f, a * d, c * b);
    lemma_mul_is_distributive_add_other_way(b, c * f, e * d);
    assert((a * d) * f == a * (d * f)) by (nonlinear_arith);
    assert((c * b) * f == (c * f) * b) by (nonlinear_arith);
    assert(e * (b * d) == (e * d) * b) by (nonlinear_arith);
    assert((b * d) * f == b * (d * f)) by (nonlinear_arith);
    assert(whole == raw_sum(p, qr));
    assert(left.1 > 0 && right.1 > 0 && whole.1 > 0) by (nonlinear_arith)
        requires
            s.1 > 0,
            t.1 > 0,
            p.1 > 0,
            r.1 > 0,
            pq.1 > 0,
            left.1 == s.1 * r.1,
            right.1 == p.1 * t.1,
            whole.1 == pq.1 * r.1,
    ;
    lemma_raw_sum_congruent(s, pq, r);
    lemma_raw_sum_congruent(t, qr, p);
    lemma_reduce_correct(left.0, left.1);
    lemma_reduce_correct(right.0, right.1);
    let a = sum(s, r);
    let b = sum(p, t);
    lemma_same_value_transitive(a, left, whole);
    lemma_same_value_transitive(b, right, whole);
    lemma_same_value_transitive(a, whole, b);
    lemma_reduced_form_unique(a, b);
}

/// `0/1` is the identity of addition: `x + 0 == x`.
pub proof fn lemma_add_identity(x: Fraction)
    requires
        is_reduced(x@),
    ensures
        sum(x@, (0, 1)) == x@,
{
    let p = x@;
    assert(p.0 * 1 + 0 * p.1 == p.0 && p.1 * 1 == p.1) by (nonlinear_arith);
    lemma_reduce_reduced(p);
}

/// Multiplication is commutative: `x · y == y · x`, and one side fits
/// exactly when the other does.
pub proof fn lemma_mul_commutative(x: Fraction, y: Fraction)
    ensures
        product(x@, y@) == product(y@, x@),
        product_fits(x@, y@) == product_fits(y@, x@),
{
    let (p, q) = (x@, y@);
    assert(p.0 * q.0 == q.0 * p.0 && p.1 * q.1 == q.1 * p.1) by (nonlinear_arith);
}

/// Multiplication is associative: `(x · y) · z == x · (y · z)`.
pub proof fn lemma_mul_associative(x: Fraction, y: Fraction, z: Fraction)
    requires
        is_reduced(x@),
        is_reduced(y@),
        is_reduced(z@),
    ensures
        product(product(x@, y@), z@) == product(x@, product(y@, z@)),
{
    let (p, q, r) = (x@, y@, z@);
    let pq = raw_product(p, q);
    let qr = raw_product(q, r);
    assert(pq.1 > 0 && qr.1 > 0) by (nonlinear_arith)
        requires
            p.1 > 0,
            q.1 > 0,
            r.1 > 0,
            pq.1 == p.1 * q.1,
            qr.1 == q.1 * r.1,
    ;
    let s = product(p, q);
    let t = product(q, r);
    lemma_reduce_correct(pq.0, pq.1);
    lemma_reduce_correct(qr.0, qr.1);
    let left = raw_product(s, r);
    let right = raw_product(p, t);
    let whole = raw_product(pq, r);
    assert(whole == raw_product(p, qr)) by (nonlinear_arith)
        requires
            whole == raw_product(pq, r),
            pq == raw_product(p, q),
            qr == raw_product(q, r),
    ;
    assert(left.1 > 0 && right.1 > 0 && whole.1 > 0) by (nonlinear_arith)
        requires
            s.1 > 0,
            t.1 > 0,
            p.1 > 0,
            r.1 > 0,
            pq.1 > 0,
            left.1 == s.1 * r.1,
            right.1 == p.1 * t.1,
            whole.1 == pq.1 * r.1,
    ;
    lemma_raw_product_congruent(s, pq, r);
    lemma_raw_product_congruent(t, qr, p);
    lemma_reduce_correct(left.0, left.1);
    lemma_reduce_correct(right.0, right.1);
    let a = product(s, r);
    let b = product(p, t);
    lemma_same_value_transitive(a, left, whole);
    lemma_same_value_transitive(b, right, whole);
    lemma_same_value_transitive(a, whole, b);
    lemma_reduced_form_unique(a, b);
}

/// `1/1` is the identity of multiplication: `x · 1 == x`.
pub proof fn lemma_mul_identity(x: Fraction)
    requires
        is_reduced(x@),
    ensures
        product(x@, (1, 1)) == x@,
{
    let p = x@;
    assert(p.0 * 1 == p.0 && p.1 * 1 == p.1) by (nonlinear_arith);
    lemma_reduce_reduced(p);
}

/// A number minus itself is `0/1`.
pub proof fn lemma_sub_self(x: Fraction)
    requires
        is_reduced(x@),
    ensures
        difference(x@, x@) == (0int, 1int),
{
    let p = x@;
    let m = p.1 * p.1;
    assert(p.0 * p.1 + (-p.0) * p.1 == 0 && m > 0) by (nonlinear_arith)
        requires
            p.1 > 0,
            m == p.1 * p.1,
    ;
    lemma_gcd_zero_and_self(m as nat);
    lemma_div_by_self(m);
    assert(abs(0) == 0);
}

/// A nonzero number divided by itself is `1/1`.
pub proof fn lemma_div_self(x: Fraction)
    requires
        is_reduced(x@),
        x@.0 != 0,
    ensures
        quotient(x@, x@) == (1int, 1int),
{
    let p = x@;
    let a = abs(p.0) as int;
    let m = a * p.1;
    assert(p.0 * (sign(p.0) * p.1) == m && p.1 * a == m && m > 0) by (nonlinear_arith)
        requires
            p.1 > 0,
            p.0 != 0,
            a == (if p.0 < 0 { -p.0 } else { p.0 }),
            sign(p.0) == (if p.0 < 0 { -1int } else { 1int }),
            m == a * p.1,
    ;
    assert(inverse(p) == (sign(p.0) * p.1, a));
    lemma_gcd_zero_and_self(m as nat);
    lemma_div_by_self(m);
}

/// Taking the reciprocal twice gives the number back, for nonzero numbers.
pub proof fn lemma_reciprocal_involutive(x: Fraction)
    requires
        is_reduced(x@),
        x@.0 != 0,
    ensures
        inverse(inverse(x@)) == x@,
{
    let p = x@;
    if p.0 < 0 {
        assert(sign(p.0) * p.1 == -p.1);
    } else {
        assert(sign(p.0) * p.1 == p.1);
    }
}

} // verus!
