//! Secret reconstruction: Lagrange interpolation at zero over GF(2^8).
use vstd::prelude::*;
use crate::field_spec::{gf_inv, gf_mul, lemma_inverse, lemma_mul_one, lemma_no_zero_divisors, lemma_xor};
use crate::galois_fields::{gf256_add, gf256_div, gf256_mul_ct, gf256_sub};

verus! {

/// No two shares have the same x-coordinate.
pub open spec fn xs_distinct(s: Seq<(u8, u8)>) -> bool {
    forall|i: int, j: int| 0 <= i < s.len() && 0 <= j < s.len() && i != j ==> s[i].0 != s[j].0
}

/// Product of x_j over j < n, j != i.
pub open spec fn basis_numerator(s: Seq<(u8, u8)>, i: int, n: nat) -> u8
    decreases n,
{
    if n == 0 {
        1
    } else {
        let p = basis_numerator(s, i, (n - 1) as nat);
        if n - 1 == i {
            p
        } else {
            gf_mul(p, s[n - 1].0)
        }
    }
}

/// Product of (x_j - x_i) over j < n, j != i.
pub open spec fn basis_denominator(s: Seq<(u8, u8)>, i: int, n: nat) -> u8
    decreases n,
{
    if n == 0 {
        1
    } else {
        let p = basis_denominator(s, i, (n - 1) as nat);
        if n - 1 == i {
            p
        } else {
            gf_mul(p, s[n - 1].0 ^ s[i].0)
        }
    }
}

/// The Lagrange basis value of share `i` at zero.
pub open spec fn basis_at_zero(s: Seq<(u8, u8)>, i: int) -> u8 {
    gf_mul(basis_numerator(s, i, s.len()), gf_inv(basis_denominator(s, i, s.len())))
}

/// Sum over the first `n` shares of basis value times y.
pub open spec fn partial_secret(s: Seq<(u8, u8)>, n: nat) -> u8
    decreases n,
{
    if n == 0 {
        0
    } else {
        partial_secret(s, (n - 1) as nat) ^ gf_mul(basis_at_zero(s, n - 1), s[n - 1].1)
    }
}

/// The constant term of the polynomial through the shares.
pub open spec fn interpolate_at_zero(s: Seq<(u8, u8)>) -> u8 {
    partial_secret(s, s.len())
}

proof fn lemma_xor_nonzero(a: u8, b: u8)
    by (bit_vector)
    requires
        a != b,
    ensures
        a ^ b != 0,
{
}

proof fn lemma_denominator_nonzero(s: Seq<(u8, u8)>, i: int, n: nat)
    requires
        xs_distinct(s),
        0 <= i < s.len(),
        n <= s.len(),
    ensures
        basis_denominator(s, i, n) != 0,
    decreases n,
{
    if n > 0 {
        lemma_denominator_nonzero(s, i, (n - 1) as nat);
        if n - 1 != i {
            lemma_xor_nonzero(s[n - 1].0, s[i].0);
            lemma_no_zero_divisors(basis_denominator(s, i, (n - 1) as nat), s[n - 1].0 ^ s[i].0);
        }
    }
}

/// Recovers the secret from shares with pairwise distinct x-coordinates.
pub fn lagrange_interpolate_at_zero(shares: &[(u8, u8)]) -> (r: u8)
    requires
        xs_distinct(shares@),
    ensures
        r == interpolate_at_zero(shares@),
{
    let ghost s = shares@;
    let mut secret: u8 = 0;
    let mut i: usize = 0;
    while i < shares.len()
        invariant
            s == shares@,
            xs_distinct(s),
            i <= s.len(),
            secret == partial_secret(s, i as nat),
        decreases shares.len() - i,
    {
        let (xi, yi) = shares[i];
        let mut num: u8 = 1;
        let mut den: u8 = 1;
        let mut j: usize = 0;
        while j < shares.len()
            invariant
                s == shares@,
                i < s.len(),
                j <= s.len(),
                xi == s[i as int].0,
                num == basis_numerator(s, i as int, j as nat),
                den == basis_denominator(s, i as int, j as nat),
            decreases shares.len() - j,
        {
            if i != j {
                let (xj, _) = shares[j];
                num = gf256_mul_ct(num, xj);
                den = gf256_mul_ct(den, gf256_sub(xj, xi));
            }
            j = j + 1;
        }
        proof {
            lemma_denominator_nonzero(s, i as int, s.len());
        }
        let li = match gf256_div(num, den) {
            Ok(v) => v,
            Err(_) => 0,
        };
        secret = gf256_add(secret, gf256_mul_ct(li, yi));
        i = i + 1;
    }
    secret
}

/// A single share (x, y) reconstructs to y.
pub proof fn lemma_single_share(x: u8, y: u8)
    ensures
        interpolate_at_zero(seq![(x, y)]) == y,
{
    let s = seq![(x, y)];
    assert(basis_numerator(s, 0, 0) == 1);
    assert(basis_denominator(s, 0, 0) == 1);
    assert(basis_numerator(s, 0, 1) == 1);
    assert(basis_denominator(s, 0, 1) == 1);
    assert(s.len() == 1);
    lemma_inverse(1);
    lemma_mul_one(gf_inv(1));
    lemma_mul_one(1);
    lemma_mul_one(y);
    lemma_xor(y, 0, 0);
    lemma_xor(0, y, 0);
    assert(partial_secret(s, 1) == partial_secret(s, 0) ^ gf_mul(basis_at_zero(s, 0), y));
}

} // verus!
