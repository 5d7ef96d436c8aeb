//! The AES S-box and its inverse, computed from field inversion.
use vstd::prelude::*;
use crate::aes_spec::{inv_sbox_spec, lemma_sbox_round_trip, rotl, sbox_spec};
use crate::field_element::FieldElement;
use crate::field_spec::lemma_gf_inv_zero;

verus! {

/// Left rotation of a byte by `k` bits.
fn rotl8(x: u8, k: u8) -> (r: u8)
    requires
        0 < k < 8,
    ensures
        r == rotl(x, k),
{
    (x << k) | (x >> (8 - k))
}

/// S-box: the inverse (0 for 0), then the affine map.
pub fn s_box(input: FieldElement) -> (r: FieldElement)
    ensures
        r.0 == sbox_spec(input.0),
{
    proof {
        lemma_gf_inv_zero();
    }
    let b = match input.inv() {
        Ok(v) => v.0,
        Err(_) => 0,
    };
    let out = b ^ rotl8(b, 1) ^ rotl8(b, 2) ^ rotl8(b, 3) ^ rotl8(b, 4) ^ 0x63;
    FieldElement(out)
}

/// Inverse S-box: the inverse affine map, then the inverse (0 for 0).
pub fn inv_s_box(input: FieldElement) -> (r: FieldElement)
    ensures
        r.0 == inv_sbox_spec(input.0),
{
    let s = input.0;
    let out = rotl8(s, 1) ^ rotl8(s, 3) ^ rotl8(s, 6) ^ 0x05;
    proof {
        lemma_gf_inv_zero();
    }
    match FieldElement(out).inv() {
        Ok(v) => v,
        Err(_) => FieldElement(0),
    }
}

/// Whether the inverse S-box undoes the S-box on `x`; it always does.
pub fn is_sbox_inverse(x: u8) -> (r: bool)
    ensures
        r == (inv_sbox_spec(sbox_spec(x)) == x),
        r,
{
    proof {
        lemma_sbox_round_trip(x);
    }
    inv_s_box(s_box(FieldElement(x))) == FieldElement(x)
}

} // verus!
