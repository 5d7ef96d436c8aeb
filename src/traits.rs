//! A field capability, so that polynomial code can be written once over any field.
use vstd::prelude::*;
use crate::galois_fields::DomainError;

verus! {

pub trait GaloisField: Sized + Copy {
    /// The sum in the field.
    spec fn sum_of(self, other: Self) -> Self;

    /// The difference in the field.
    spec fn difference_of(self, other: Self) -> Self;

    /// The product in the field.
    spec fn product_of(self, other: Self) -> Self;

    /// The multiplicative inverse of a nonzero element.
    spec fn inverse_of(self) -> Self;

    /// Whether this is the additive identity.
    spec fn is_zero(self) -> bool;

    fn run_add(self, other: Self) -> (r: Self)
        ensures
            r == self.sum_of(other),
    ;

    fn run_sub(self, other: Self) -> (r: Self)
        ensures
            r == self.difference_of(other),
    ;

    fn run_mul(self, other: Self) -> (r: Self)
        ensures
            r == self.product_of(other),
    ;

    /// The inverse, or `DomainError` for the zero element.
    fn run_inv(self) -> (r: Result<Self, DomainError>)
        ensures
            r == (if self.is_zero() {
                Err(DomainError::ZeroHasNoInverse)
            } else {
                Ok(self.inverse_of())
            }),
    ;

    /// Whether this is the multiplicative identity.
    spec fn is_one(self) -> bool;

    /// The additive identity.
    fn zero() -> (r: Self)
        ensures
            r.is_zero(),
    ;

    /// The multiplicative identity.
    fn one() -> (r: Self)
        ensures
            r.is_one(),
    ;
}

} // verus!
