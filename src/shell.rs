//! The decisions of the interactive calculator: the sign-normalizing
//! constructor that scripts call, and how an evaluation result is shown.

use crate::fraction::{abs, display, reduce, Fraction, FractionError};
use vstd::prelude::*;
use vstd::string::StringExecFns;

verus! {

/// Builds `a / b` from two script integers: a negative `b` moves its sign to
/// the numerator, so the fraction is `(-a) / |b|`; `DivisionByZero` exactly
/// when `b == 0`.
pub fn frac(a: i64, b: i64) -> (r: Result<Fraction, FractionError>)
    ensures
        match r {
            Ok(f) => {
                &&& b != 0
                &&& f@ == reduce(if b < 0 { -a } else { a as int }, abs(b as int) as int)
            },
            Err(e) => b == 0 && e == FractionError::DivisionByZero,
        },
{
    if b == 0 {
        return Err(FractionError::DivisionByZero);
    }
    if b < 0 {
        Fraction::new(-(a as i128), (-(b as i128)) as u128)
    } else {
        Fraction::new(a as i128, b as u128)
    }
}

/// What evaluating one line of input gave.
#[derive(Clone, Debug)]
pub enum Outcome {
    /// No value was produced.
    Nothing,
    /// A fraction.
    Value(Fraction),
    /// A value of a registered type that is not a fraction, by type name.
    Unrecognized(String),
    /// Any other value, by its own text.
    Other(String),
    /// Evaluation failed, with the evaluator's message.
    Failed(String),
}

/// The line printed for an outcome, if any.
pub open spec fn shown(o: Outcome) -> Option<Seq<char>> {
    match o {
        Outcome::Nothing => None,
        Outcome::Value(f) => Some(display(f@)),
        Outcome::Unrecognized(name) => Some("unknown type: "@ + name@),
        Outcome::Other(text) => Some(text@),
        Outcome::Failed(message) => Some("error: "@ + message@),
    }
}

/// Renders an outcome: nothing for no value, `n/d` for a fraction, the
/// value's own text for other values, and a diagnostic otherwise.
pub fn render(o: &Outcome) -> (r: Option<String>)
    ensures
        match r {
            Some(text) => shown(*o) == Some(text@),
            None => shown(*o).is_none(),
        },
{
    match o {
        Outcome::Nothing => None,
        Outcome::Value(f) => Some(f.to_string()),
        Outcome::Unrecognized(name) => Some(String::from_str("unknown type: ").concat(name.as_str())),
        Outcome::Other(text) => Some(String::from_str(text.as_str())),
        Outcome::Failed(message) => Some(String::from_str("error: ").concat(message.as_str())),
    }
}

} // verus!
