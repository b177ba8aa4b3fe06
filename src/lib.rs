//! Dimensional analysis: physical units as vectors of rational exponents over the
//! seven base dimensions, and quantities that carry such a unit beside their value.
pub mod arith;
pub mod base_unit;
pub mod error;
pub mod frac;
pub mod name;
pub mod ops;
pub mod quantity;
pub mod unit;

pub use crate::base_unit::{Prefix, Root};
pub use crate::name::Name;
pub use crate::quantity::Quantity;
