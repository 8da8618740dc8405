use fraction_shell::fraction::{Fraction, FractionError};
use fraction_shell::gcd::gcd;
use fraction_shell::shell::{frac, render, Outcome};

fn f(n: i128, d: u128) -> Fraction {
    Fraction::new(n, d).unwrap()
}

fn parts(x: Fraction) -> (i128, u128) {
    (x.numerator(), x.denominator())
}

#[test]
fn new_reduces_to_lowest_terms() {
    let x = f(4, 8);
    assert_eq!(parts(x), (1, 2));
    assert_eq!(x.to_string(), "1/2");
}

#[test]
fn new_keeps_sign_on_numerator() {
    assert_eq!(parts(f(-6, 9)), (-2, 3));
    assert_eq!(f(-6, 9).to_string(), "-2/3");
}

#[test]
fn new_zero_is_zero_over_one() {
    assert_eq!(parts(f(0, 7)), (0, 1));
    assert_eq!(f(0, 7).to_string(), "0/1");
}

#[test]
fn new_zero_denominator_fails() {
    assert_eq!(Fraction::new(3, 0), Err(FractionError::DivisionByZero));
}

#[test]
fn new_extreme_values() {
    assert_eq!(parts(f(i128::MIN, 1u128 << 127)), (-1, 1));
    assert_eq!(parts(f(i128::MIN, 3)), (i128::MIN, 3));
    assert_eq!(parts(f(i128::MAX, u128::MAX)), (i128::MAX, u128::MAX));
}

#[test]
fn normalizing_twice_changes_nothing() {
    let x = f(12, 18);
    assert_eq!(f(x.numerator(), x.denominator()), x);
}

#[test]
fn gcd_values() {
    assert_eq!(gcd(12, 18), 6);
    assert_eq!(gcd(7, 0), 7);
    assert_eq!(gcd(0, 5), 5);
    assert_eq!(gcd(17, 5), 1);
}

#[test]
fn from_integer() {
    let x = Fraction::from(-7);
    assert_eq!(parts(x), (-7, 1));
    assert_eq!(x.to_string(), "-7/1");
}

#[test]
fn sign_convention() {
    assert!(f(0, 5).is_positive());
    assert!(!f(-1, 3).is_positive());
    assert!(f(2, 3).is_positive());
}

#[test]
fn add_halves_and_thirds() {
    assert_eq!(f(1, 2).add(f(1, 3)).unwrap().to_string(), "5/6");
}

#[test]
fn sub_self_is_zero() {
    assert_eq!(f(1, 2).sub(f(1, 2)).unwrap().to_string(), "0/1");
    assert_eq!(parts(f(-5, 7).sub(f(-5, 7)).unwrap()), (0, 1));
}

#[test]
fn sub_values() {
    assert_eq!(parts(f(1, 2).sub(f(1, 3)).unwrap()), (1, 6));
    assert_eq!(parts(f(1, 3).sub(f(1, 2)).unwrap()), (-1, 6));
}

#[test]
fn mul_values() {
    assert_eq!(f(2, 3).mul(f(3, 4)).unwrap().to_string(), "1/2");
    assert_eq!(parts(f(-2, 3).mul(f(3, 4)).unwrap()), (-1, 2));
}

#[test]
fn div_values() {
    assert_eq!(f(1, 2).div(f(1, 4)).unwrap().to_string(), "2/1");
    assert_eq!(parts(f(1, 2).div(f(-1, 4)).unwrap()), (-2, 1));
}

#[test]
fn div_by_zero_fails() {
    assert_eq!(f(1, 2).div(f(0, 1)), Err(FractionError::DivisionByZero));
}

#[test]
fn div_self_is_one() {
    assert_eq!(parts(f(-3, 7).div(f(-3, 7)).unwrap()), (1, 1));
}

#[test]
fn neg_values() {
    assert_eq!(parts(f(3, 4).neg().unwrap()), (-3, 4));
    assert_eq!(f(i128::MIN, 1).neg(), Err(FractionError::Overflow));
}

#[test]
fn reciprocal_values() {
    assert_eq!(parts(f(2, 3).reciprocal().unwrap()), (3, 2));
    assert_eq!(parts(f(-2, 3).reciprocal().unwrap()), (-3, 2));
    assert_eq!(f(-2, 3).reciprocal().unwrap().reciprocal().unwrap(), f(-2, 3));
    assert_eq!(f(0, 1).reciprocal(), Err(FractionError::DivisionByZero));
    assert_eq!(f(1, u128::MAX).reciprocal(), Err(FractionError::Overflow));
    assert_eq!(parts(f(-1, 1u128 << 127).reciprocal().unwrap()), (i128::MIN, 1));
}

#[test]
fn overflow_is_reported() {
    let big = f(i128::MAX, 1);
    assert_eq!(big.add(big), Err(FractionError::Overflow));
    assert_eq!(big.mul(f(2, 1)), Err(FractionError::Overflow));
    assert_eq!(f(1, u128::MAX).add(f(1, 2)), Err(FractionError::Overflow));
    assert_eq!(f(1, 2).sub(f(i128::MIN, 1)), Err(FractionError::Overflow));
}

#[test]
fn add_and_mul_commute() {
    let (x, y) = (f(3, 4), f(-5, 6));
    assert_eq!(x.add(y), y.add(x));
    assert_eq!(x.mul(y), y.mul(x));
}

#[test]
fn add_and_mul_associate() {
    let (x, y, z) = (f(1, 2), f(-2, 3), f(5, 7));
    assert_eq!(
        x.add(y).unwrap().add(z).unwrap(),
        x.add(y.add(z).unwrap()).unwrap()
    );
    assert_eq!(
        x.mul(y).unwrap().mul(z).unwrap(),
        x.mul(y.mul(z).unwrap()).unwrap()
    );
}

#[test]
fn identities() {
    let x = f(-9, 4);
    assert_eq!(x.add(f(0, 1)).unwrap(), x);
    assert_eq!(x.mul(f(1, 1)).unwrap(), x);
}

#[test]
fn frac_moves_sign_to_numerator() {
    assert_eq!(parts(frac(1, -2).unwrap()), (-1, 2));
    assert_eq!(parts(frac(-3, -6).unwrap()), (1, 2));
    assert_eq!(parts(frac(4, 6).unwrap()), (2, 3));
    assert_eq!(frac(1, 0), Err(FractionError::DivisionByZero));
}

#[test]
fn render_outcomes() {
    assert_eq!(render(&Outcome::Nothing), None);
    assert_eq!(render(&Outcome::Value(f(6, 8))), Some("3/4".to_string()));
    assert_eq!(
        render(&Outcome::Unrecognized("Point".to_string())),
        Some("unknown type: Point".to_string())
    );
    assert_eq!(render(&Outcome::Other("42".to_string())), Some("42".to_string()));
}

#[test]
fn failure_then_valid_line() {
    let first = render(&Outcome::Failed("syntax error".to_string()));
    assert_eq!(first, Some("error: syntax error".to_string()));
    let second = render(&Outcome::Value(frac(1, 2).unwrap()));
    assert_eq!(second, Some("1/2".to_string()));
}
