//! Algebraic laws of the field operations, stated over the models that the
//! kernel functions are proved to compute (`gf256_add` and `gf256_sub`
//! return `a ^ b`, the multipliers `gf_mul`, `gf256_inv` and `gf256_div`
//! `gf_inv` and `gf_mul(a, gf_inv(b))`).
use vstd::prelude::*;
use crate::field_spec::{
    gf_inv, gf_mul, lemma_inverse, lemma_mul_associative, lemma_mul_commutative,
    lemma_mul_distributive, lemma_mul_one, lemma_xor,
};

verus! {

/// Addition is XOR, and so commutative and associative, and it equals subtraction.
pub proof fn law_addition(a: u8, b: u8, c: u8)
    ensures
        a ^ b == b ^ a,
        (a ^ b) ^ c == a ^ (b ^ c),
{
    lemma_xor(a, b, c);
}

/// Multiplication distributes over addition and is commutative and associative.
pub proof fn law_multiplication(a: u8, b: u8, c: u8)
    ensures
        gf_mul(a, b ^ c) == gf_mul(a, b) ^ gf_mul(a, c),
        gf_mul(a, b) == gf_mul(b, a),
        gf_mul(gf_mul(a, b), c) == gf_mul(a, gf_mul(b, c)),
{
    lemma_mul_distributive(a, b, c);
    lemma_mul_commutative(a, b);
    lemma_mul_associative(a, b, c);
}

/// Every nonzero element times its inverse is one.
pub proof fn law_inverse(a: u8)
    requires
        a != 0,
    ensures
        gf_mul(a, gf_inv(a)) == 1,
{
    lemma_inverse(a);
}

/// Dividing `a` by a nonzero `b` and multiplying back by `b` gives `a`.
pub proof fn law_division(a: u8, b: u8)
    requires
        b != 0,
    ensures
        gf_mul(gf_mul(a, gf_inv(b)), b) == a,
{
    lemma_inverse(b);
    lemma_mul_associative(a, gf_inv(b), b);
    lemma_mul_one(a);
}

} // verus!
