//! A typed field value with named algebraic operations.
use vstd::prelude::*;
use crate::field_spec::{gf_inv, gf_mul};
use crate::galois_fields::{call_exp, gf256_mul_ct, DomainError};
use crate::traits::GaloisField;

verus! {

/// One element of GF(2^8); value semantics, no identity beyond its byte.
#[derive(Debug, Clone, Copy, PartialEq, Eq, Structural, Default)]
pub struct FieldElement(pub u8);

impl FieldElement {
    /// Field addition (XOR).
    pub fn add(self, rhs: FieldElement) -> (r: FieldElement)
        ensures
            r.0 == self.0 ^ rhs.0,
    {
        FieldElement(self.0 ^ rhs.0)
    }

    /// Field subtraction, identical to addition.
    pub fn sub(self, rhs: FieldElement) -> (r: FieldElement)
        ensures
            r.0 == self.0 ^ rhs.0,
    {
        self.add(rhs)
    }

    /// XOR of the two bytes, which is field addition.
    pub fn bitxor(self, rhs: FieldElement) -> (r: FieldElement)
        ensures
            r.0 == self.0 ^ rhs.0,
    {
        FieldElement(self.0 ^ rhs.0)
    }

    /// Field multiplication through the constant-time multiplier.
    pub fn mul(self, rhs: FieldElement) -> (r: FieldElement)
        ensures
            r.0 == gf_mul(self.0, rhs.0),
    {
        FieldElement(gf256_mul_ct(self.0, rhs.0))
    }

    /// Multiplicative inverse as self^254; zero has none.
    pub fn inv(self) -> (r: Result<FieldElement, DomainError>)
        ensures
            r == (if self.0 == 0 {
                Err(DomainError::ZeroHasNoInverse)
            } else {
                Ok(FieldElement(gf_inv(self.0)))
            }),
    {
        if self.0 == 0 {
            return Err(DomainError::ZeroHasNoInverse);
        }
        Ok(FieldElement(call_exp(self.0, 254)))
    }

    /// `self / rhs` as `self * rhs^-1`; fails on a zero divisor.
    pub fn div(self, rhs: FieldElement) -> (r: Result<FieldElement, DomainError>)
        ensures
            r == (if rhs.0 == 0 {
                Err(DomainError::ZeroHasNoInverse)
            } else {
                Ok(FieldElement(gf_mul(self.0, gf_inv(rhs.0))))
            }),
    {
        match rhs.inv() {
            Ok(i) => Ok(self.mul(i)),
            Err(e) => Err(e),
        }
    }
}

impl From<u8> for FieldElement {
    fn from(b: u8) -> (r: FieldElement) {
        FieldElement(b)
    }
}

impl vstd::std_specs::convert::FromSpecImpl<u8> for FieldElement {
    open spec fn obeys_from_spec() -> bool {
        true
    }

    open spec fn from_spec(b: u8) -> FieldElement {
        FieldElement(b)
    }
}

impl GaloisField for FieldElement {
    open spec fn sum_of(self, other: FieldElement) -> FieldElement {
        FieldElement(self.0 ^ other.0)
    }

    open spec fn difference_of(self, other: FieldElement) -> FieldElement {
        FieldElement(self.0 ^ other.0)
    }

    open spec fn product_of(self, other: FieldElement) -> FieldElement {
        FieldElement(gf_mul(self.0, other.0))
    }

    open spec fn inverse_of(self) -> FieldElement {
        FieldElement(gf_inv(self.0))
    }

    open spec fn is_zero(self) -> bool {
        self.0 == 0
    }

    fn run_add(self, other: FieldElement) -> (r: FieldElement) {
        self.add(other)
    }

    fn run_sub(self, other: FieldElement) -> (r: FieldElement) {
        self.sub(other)
    }

    /// Uses the constant-time multiplier.
    fn run_mul(self, other: FieldElement) -> (r: FieldElement) {
        FieldElement(gf256_mul_ct(self.0, other.0))
    }

    fn run_inv(self) -> (r: Result<FieldElement, DomainError>) {
        self.inv()
    }

    open spec fn is_one(self) -> bool {
        self.0 == 1
    }

    fn zero() -> (r: FieldElement) {
        FieldElement(0)
    }

    fn one() -> (r: FieldElement) {
        FieldElement(1)
    }
}

} // verus!
