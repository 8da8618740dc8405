//! The `Fraction` value type: a signed numerator over a positive denominator,
//! always in lowest terms, and its exact arithmetic.

use crate::gcd::{
    gcd, lemma_gcd_commutative, lemma_gcd_divides, lemma_gcd_one, lemma_gcd_quotients_coprime,
    spec_gcd,
};
use vstd::arithmetic::div_mod::{lemma_div_multiples_vanish, lemma_fundamental_div_mod};
use crate::decimal::{decimal, push_decimal};
use vstd::prelude::*;
use vstd::string::StringExecFns;

verus! {

/// Magnitude of an integer.
pub open spec fn abs(x: int) -> nat {
    if x < 0 {
        (-x) as nat
    } else {
        x as nat
    }
}

/// Sign used by the reciprocal: zero counts as positive.
pub open spec fn sign(x: int) -> int {
    if x < 0 {
        -1
    } else {
        1
    }
}

/// A pair `(n, d)` is in lowest terms: `d > 0` and `gcd(|n|, d) == 1`.
/// For `n == 0` this forces `d == 1`.
pub open spec fn is_reduced(p: (int, int)) -> bool {
    p.1 > 0 && spec_gcd(abs(p.0), p.1 as nat) == 1
}

/// `n / d` brought to lowest terms by dividing both parts by `gcd(|n|, d)`.
pub open spec fn reduce(n: int, d: int) -> (int, int) {
    let g = spec_gcd(abs(n), d as nat) as int;
    (n / g, d / g)
}

/// `p` and `q` denote the same rational number (for positive denominators).
pub open spec fn same_value(p: (int, int), q: (int, int)) -> bool {
    p.0 * q.1 == q.0 * p.1
}

/// `(a/b) + (c/d) = (a·d + c·b) / (b·d)`, in lowest terms.
pub open spec fn sum(p: (int, int), q: (int, int)) -> (int, int) {
    reduce(p.0 * q.1 + q.0 * p.1, p.1 * q.1)
}

/// The sign flipped on the numerator.
pub open spec fn negation(p: (int, int)) -> (int, int) {
    (-p.0, p.1)
}

/// `x - y = x + (-y)`.
pub open spec fn difference(p: (int, int), q: (int, int)) -> (int, int) {
    sum(p, negation(q))
}

/// `(a/b) · (c/d) = (a·c) / (b·d)`, in lowest terms.
pub open spec fn product(p: (int, int), q: (int, int)) -> (int, int) {
    reduce(p.0 * q.0, p.1 * q.1)
}

/// `n/d` turned over: `(sign(n)·d) / |n|`.
pub open spec fn inverse(p: (int, int)) -> (int, int) {
    (sign(p.0) * p.1, abs(p.0) as int)
}

/// `x / y = x · reciprocal(y)`.
pub open spec fn quotient(p: (int, int), q: (int, int)) -> (int, int) {
    product(p, inverse(q))
}

/// The parts of the addition formula each fit their 128-bit type.
pub open spec fn sum_fits(p: (int, int), q: (int, int)) -> bool {
    &&& p.1 <= i128::MAX
    &&& q.1 <= i128::MAX
    &&& i128::MIN <= p.0 * q.1 <= i128::MAX
    &&& i128::MIN <= q.0 * p.1 <= i128::MAX
    &&& i128::MIN <= p.0 * q.1 + q.0 * p.1 <= i128::MAX
    &&& p.1 * q.1 <= u128::MAX
}

/// The parts of the multiplication formula each fit their 128-bit type.
pub open spec fn product_fits(p: (int, int), q: (int, int)) -> bool {
    &&& i128::MIN <= p.0 * q.0 <= i128::MAX
    &&& p.1 * q.1 <= u128::MAX
}

/// The reciprocal's numerator `sign(n)·d` fits an `i128`.
pub open spec fn inverse_fits(p: (int, int)) -> bool {
    i128::MIN <= sign(p.0) * p.1 <= i128::MAX
}

/// The text `numerator/denominator`, the sign on the numerator only.
pub open spec fn display(p: (int, int)) -> Seq<char> {
    let sign_text = if p.0 < 0 {
        seq!['-']
    } else {
        Seq::<char>::empty()
    };
    sign_text + decimal(abs(p.0)) + seq!['/'] + decimal(abs(p.1))
}

/// Why an operation on fractions produced no value.
#[derive(Clone, Copy, Debug, PartialEq, Eq, Structural)]
pub enum FractionError {
    /// A zero denominator, or the reciprocal of zero.
    DivisionByZero,
    /// A step of the formula does not fit its 128-bit type.
    Overflow,
}

/// An exact rational number `numerator / denominator` in lowest terms.
#[derive(Clone, Copy, Debug, PartialEq, Eq, Structural)]
pub struct Fraction {
    numerator: i128,
    denominator: u128,
}

impl View for Fraction {
    type V = (int, int);

    /// The pair `(numerator, denominator)`.
    closed spec fn view(&self) -> (int, int) {
        (self.numerator as int, self.denominator as int)
    }
}

/// The reduced form is in lowest terms and denotes the same number.
pub proof fn lemma_reduce_correct(n: int, d: int)
    requires
        d > 0,
    ensures
        is_reduced(reduce(n, d)),
        same_value(reduce(n, d), (n, d)),
        reduce(n, d).0 == (if n < 0 {
            -((abs(n) / spec_gcd(abs(n), d as nat)) as int)
        } else {
            (abs(n) / spec_gcd(abs(n), d as nat)) as int
        }),
{
    let a = abs(n);
    let g = spec_gcd(a, d as nat);
    lemma_gcd_divides(a, d as nat);
    lemma_gcd_quotients_coprime(a, d as nat);
    lemma_fundamental_div_mod(a as int, g as int);
    lemma_fundamental_div_mod(d, g as int);
    let q = (a / g) as int;
    let e = d / (g as int);
    assert(a == g * q && d == g * e);
    assert(e > 0) by (nonlinear_arith)
        requires
            d == g * e,
            d > 0,
            g > 0,
    ;
    if n < 0 {
        assert(n == g * (-q)) by (nonlinear_arith)
            requires
                a == g * q,
                n == -a,
        ;
        lemma_div_multiples_vanish(-q, g as int);
    } else {
        lemma_div_multiples_vanish(q as int, g as int);
    }
    let m = reduce(n, d).0;
    assert(abs(m) == q);
    assert(m * d == n * e) by (nonlinear_arith)
        requires
            n == g * m,
            d == g * e,
    ;
}

/// A pair already in lowest terms is left as it is by reduction.
pub proof fn lemma_reduce_reduced(p: (int, int))
    requires
        is_reduced(p),
    ensures
        reduce(p.0, p.1) == p,
{
}

/// Magnitude of an `i128`, which always fits a `u128`.
fn magnitude(n: i128) -> (r: u128)
    ensures
        r == abs(n as int),
{
    if n < 0 {
        (-(n + 1)) as u128 + 1
    } else {
        n as u128
    }
}

impl Fraction {
    #[verifier::type_invariant]
    spec fn inv(self) -> bool {
        is_reduced(self@)
    }

    /// Brings `numerator / denominator` to lowest terms.
    fn normalized(numerator: i128, denominator: u128) -> (r: Fraction)
        requires
            denominator > 0,
        ensures
            r@ == reduce(numerator as int, denominator as int),
            is_reduced(r@),
    {
        let m = magnitude(numerator);
        let g = gcd(m, denominator);
        proof {
            lemma_gcd_divides(m as nat, denominator as nat);
            lemma_reduce_correct(numerator as int, denominator as int);
        }
        let q = m / g;
        let e = denominator / g;
        let n: i128 = if numerator >= 0 {
            q as i128
        } else if q == 0x8000_0000_0000_0000_0000_0000_0000_0000u128 {
            i128::MIN
        } else {
            -(q as i128)
        };
        Fraction { numerator: n, denominator: e }
    }

    /// The fraction `numerator / denominator` in lowest terms;
    /// `DivisionByZero` exactly when `denominator == 0`.
    pub fn new(numerator: i128, denominator: u128) -> (r: Result<Fraction, FractionError>)
        ensures
            match r {
                Ok(f) => {
                    &&& denominator != 0
                    &&& f@ == reduce(numerator as int, denominator as int)
                    &&& is_reduced(f@)
                    &&& same_value(f@, (numerator as int, denominator as int))
                    &&& (f@.0 == 0) == (numerator == 0)
                    &&& (f@.0 < 0) == (numerator < 0)
                },
                Err(e) => denominator == 0 && e == FractionError::DivisionByZero,
            },
    {
        if denominator == 0 {
            return Err(FractionError::DivisionByZero);
        }
        proof {
            lemma_reduce_correct(numerator as int, denominator as int);
        }
        let f = Fraction::normalized(numerator, denominator);
        proof {
            let (m, e) = (f@.0, f@.1);
            let (n, d) = (numerator as int, denominator as int);
            assert((m == 0) == (n == 0) && (m < 0) == (n < 0)) by (nonlinear_arith)
                requires
                    m * d == n * e,
                    d > 0,
                    e > 0,
            ;
        }
        Ok(f)
    }

    /// The numerator; it carries the sign.
    pub fn numerator(&self) -> (r: i128)
        ensures
            r == self@.0,
    {
        self.numerator
    }

    /// The denominator, always positive.
    pub fn denominator(&self) -> (r: u128)
        ensures
            r == self@.1,
            r > 0,
    {
        proof {
            use_type_invariant(self);
        }
        self.denominator
    }

    /// Whether the numerator is non-negative: zero counts as positive.
    pub fn is_positive(&self) -> (r: bool)
        ensures
            r == (self@.0 >= 0),
    {
        self.numerator >= 0
    }

    /// Renders the fraction as `numerator/denominator`, e.g. `-1/2` or `3/1`.
    pub fn to_string(&self) -> (r: String)
        ensures
            r@ == display(self@),
    {
        proof {
            use_type_invariant(self);
            reveal_strlit("-");
            reveal_strlit("/");
        }
        let mut text = String::new();
        if self.numerator < 0 {
            text.append("-");
        }
        push_decimal(&mut text, magnitude(self.numerator));
        text.append("/");
        push_decimal(&mut text, self.denominator);
        proof {
            assert(abs(self.denominator as int) == self.denominator);
            assert(text@ =~= display(self@));
        }
        text
    }

    /// The same number with the sign flipped; `Overflow` exactly when the
    /// numerator is `i128::MIN`.
    pub fn neg(self) -> (r: Result<Fraction, FractionError>)
        ensures
            match r {
                Ok(f) => self@.0 != i128::MIN && f@ == negation(self@),
                Err(e) => self@.0 == i128::MIN && e == FractionError::Overflow,
            },
    {
        proof {
            use_type_invariant(&self);
        }
        if self.numerator == i128::MIN {
            return Err(FractionError::Overflow);
        }
        proof {
            assert(abs(-self.numerator) == abs(self.numerator as int));
        }
        Ok(Fraction { numerator: -self.numerator, denominator: self.denominator })
    }

    /// `(a/b) + (c/d) = (a·d + c·b) / (b·d)` in lowest terms; `Overflow`
    /// exactly when a step of that formula does not fit.
    pub fn add(self, rhs: Fraction) -> (r: Result<Fraction, FractionError>)
        ensures
            match r {
                Ok(f) => sum_fits(self@, rhs@) && f@ == sum(self@, rhs@),
                Err(e) => !sum_fits(self@, rhs@) && e == FractionError::Overflow,
            },
    {
        proof {
            use_type_invariant(&self);
            use_type_invariant(&rhs);
        }
        let max: u128 = i128::MAX as u128;
        if self.denominator > max || rhs.denominator > max {
            return Err(FractionError::Overflow);
        }
        let ad = match self.numerator.checked_mul(rhs.denominator as i128) {
            Some(v) => v,
            None => return Err(FractionError::Overflow),
        };
        let cb = match rhs.numerator.checked_mul(self.denominator as i128) {
            Some(v) => v,
            None => return Err(FractionError::Overflow),
        };
        let numerator = match ad.checked_add(cb) {
            Some(v) => v,
            None => return Err(FractionError::Overflow),
        };
        let denominator = match self.denominator.checked_mul(rhs.denominator) {
            Some(v) => v,
            None => return Err(FractionError::Overflow),
        };
        proof {
            assert(denominator > 0) by (nonlinear_arith)
                requires
                    denominator == self.denominator * rhs.denominator,
                    self.denominator > 0,
                    rhs.denominator > 0,
            ;
        }
        Ok(Fraction::normalized(numerator, denominator))
    }

    /// `x - y = x + (-y)`; `Overflow` when `-y` or the sum does not fit.
    pub fn sub(self, rhs: Fraction) -> (r: Result<Fraction, FractionError>)
        ensures
            match r {
                Ok(f) => {
                    &&& rhs@.0 != i128::MIN
                    &&& sum_fits(self@, negation(rhs@))
                    &&& f@ == difference(self@, rhs@)
                },
                Err(e) => {
                    &&& (rhs@.0 == i128::MIN || !sum_fits(self@, negation(rhs@)))
                    &&& e == FractionError::Overflow
                },
            },
    {
        match rhs.neg() {
            Ok(m) => self.add(m),
            Err(e) => Err(e),
        }
    }

    /// `(a/b) · (c/d) = (a·c) / (b·d)` in lowest terms; `Overflow` exactly
    /// when a step of that formula does not fit.
    pub fn mul(self, rhs: Fraction) -> (r: Result<Fraction, FractionError>)
        ensures
            match r {
                Ok(f) => product_fits(self@, rhs@) && f@ == product(self@, rhs@),
                Err(e) => !product_fits(self@, rhs@) && e == FractionError::Overflow,
            },
    {
        proof {
            use_type_invariant(&self);
            use_type_invariant(&rhs);
        }
        let numerator = match self.numerator.checked_mul(rhs.numerator) {
            Some(v) => v,
            None => return Err(FractionError::Overflow),
        };
        let denominator = match self.denominator.checked_mul(rhs.denominator) {
            Some(v) => v,
            None => return Err(FractionError::Overflow),
        };
        proof {
            assert(denominator > 0) by (nonlinear_arith)
                requires
                    denominator == self.denominator * rhs.denominator,
                    self.denominator > 0,
                    rhs.denominator > 0,
            ;
        }
        Ok(Fraction::normalized(numerator, denominator))
    }

    /// `n/d` turned over into `(sign(n)·d) / |n|`, zero counting as positive.
    /// `DivisionByZero` exactly when the value is zero; `Overflow` when the new
    /// numerator does not fit an `i128`.
    pub fn reciprocal(self) -> (r: Result<Fraction, FractionError>)
        ensures
            match r {
                Ok(f) => self@.0 != 0 && inverse_fits(self@) && f@ == inverse(self@),
                Err(e) => {
                    ||| (self@.0 == 0 && e == FractionError::DivisionByZero)
                    ||| (self@.0 != 0 && !inverse_fits(self@) && e == FractionError::Overflow)
                },
            },
    {
        proof {
            use_type_invariant(&self);
        }
        if self.numerator == 0 {
            return Err(FractionError::DivisionByZero);
        }
        let d = self.denominator;
        let n: i128 = if self.numerator > 0 {
            if d > i128::MAX as u128 {
                return Err(FractionError::Overflow);
            }
            d as i128
        } else if d == 0x8000_0000_0000_0000_0000_0000_0000_0000u128 {
            i128::MIN
        } else if d > i128::MAX as u128 {
            return Err(FractionError::Overflow);
        } else {
            -(d as i128)
        };
        let m = magnitude(self.numerator);
        proof {
            lemma_gcd_commutative(abs(self.numerator as int), d as nat);
            assert(abs(n as int) == d);
        }
        Ok(Fraction { numerator: n, denominator: m })
    }

    /// `x / y = x · reciprocal(y)`. `DivisionByZero` exactly when `y` is zero;
    /// otherwise `Overflow` when the reciprocal or the product does not fit.
    pub fn div(self, rhs: Fraction) -> (r: Result<Fraction, FractionError>)
        ensures
            match r {
                Ok(f) => {
                    &&& rhs@.0 != 0
                    &&& inverse_fits(rhs@)
                    &&& product_fits(self@, inverse(rhs@))
                    &&& f@ == quotient(self@, rhs@)
                },
                Err(e) => {
                    ||| (rhs@.0 == 0 && e == FractionError::DivisionByZero)
                    ||| {
                        &&& rhs@.0 != 0
                        &&& (!inverse_fits(rhs@) || !product_fits(self@, inverse(rhs@)))
                        &&& e == FractionError::Overflow
                    }
                },
            },
    {
        match rhs.reciprocal() {
            Ok(t) => self.mul(t),
            Err(e) => Err(e),
        }
    }
}

impl From<i32> for Fraction {
    /// The integer `value` as `value / 1`.
    fn from(value: i32) -> (r: Fraction) {
        proof {
            lemma_gcd_one(abs(value as int));
        }
        Fraction { numerator: value as i128, denominator: 1 }
    }
}

impl vstd::std_specs::convert::FromSpecImpl<i32> for Fraction {
    open spec fn obeys_from_spec() -> bool {
        true
    }

    closed spec fn from_spec(v: i32) -> Fraction {
        Fraction { numerator: v as i128, denominator: 1 }
    }
}

/// Converting an integer gives `value / 1`, which is in lowest terms.
pub proof fn lemma_from_integer(value: i32)
    ensures
        <Fraction as vstd::std_specs::convert::FromSpec<i32>>::from_spec(value)@ == (value as int, 1int),
        is_reduced((value as int, 1int)),
{
    lemma_gcd_one(abs(value as int));
}

} // verus!
