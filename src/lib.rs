//! Exact rational numbers kept in lowest terms, with the arithmetic and
//! rendering that an interactive calculator shell builds on.

pub mod gcd;
pub mod decimal;
pub mod fraction;
pub mod laws;
pub mod shell;
