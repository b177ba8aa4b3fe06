//! Why an operation on units or quantities was refused.
use vstd::prelude::*;

verus! {

/// The recoverable failures of unit arithmetic. Exponent overflow is not among them:
/// exponents that fit are a precondition of composition.
#[derive(Clone, Copy, Debug, PartialEq, Eq, Structural)]
pub enum UnitError {
    /// Addition, subtraction or comparison of quantities whose units differ as
    /// dimension vectors.
    UnitMismatch,
    /// Multiplication or division where one base dimension is realized by two
    /// different concrete units with nonzero exponents.
    IncompatibleCompose,
    /// Conversion between units of different dimensions, with no registered transform.
    MissingConversion,
}

} // verus!
