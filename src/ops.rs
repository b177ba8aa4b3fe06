//! Operators of the unit algebra that std does not name.
use vstd::prelude::*;

verus! {

/// The multiplicative inverse.
pub trait Inv: Sized {
    fn inv(&self) -> Self;
}

/// The multiplicative identity.
pub trait One: Sized {
    fn one() -> Self;
}

} // verus!
