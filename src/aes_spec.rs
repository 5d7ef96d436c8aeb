//! Mathematical model of AES-128 encryption of one block.
use vstd::prelude::*;
use crate::field_element::FieldElement;
use crate::field_spec::{gf_inv, gf_mul, gpow, lemma_gf_inv_zero, lemma_inverse};

verus! {

/// Left rotation of a byte by `k` bits, 0 < k < 8.
pub open spec fn rotl(x: u8, k: u8) -> u8 {
    ((x << k) | (x >> ((8 - k) as u8))) as u8
}

/// The S-box affine map: b ^ rotl(b,1) ^ rotl(b,2) ^ rotl(b,3) ^ rotl(b,4) ^ 0x63.
pub open spec fn affine(b: u8) -> u8 {
    b ^ rotl(b, 1) ^ rotl(b, 2) ^ rotl(b, 3) ^ rotl(b, 4) ^ 0x63u8
}

/// The inverse affine map: rotl(s,1) ^ rotl(s,3) ^ rotl(s,6) ^ 0x05, each
/// bit i of the result being bits i-1, i-3 and i-6 (mod 8) of `s`.
pub open spec fn inv_affine(s: u8) -> u8 {
    rotl(s, 1) ^ rotl(s, 3) ^ rotl(s, 6) ^ 0x05u8
}

/// S-box: inversion (0 to 0), then the affine map.
pub open spec fn sbox_spec(x: u8) -> u8 {
    affine(gf_inv(x))
}

/// Inverse S-box: the inverse affine map, then inversion (0 to 0).
pub open spec fn inv_sbox_spec(y: u8) -> u8 {
    gf_inv(inv_affine(y))
}

pub proof fn lemma_affine_round_trip(b: u8)
    by (bit_vector)
    ensures
        inv_affine(affine(b)) == b,
{
}

/// The inverse S-box undoes the S-box on every byte.
pub proof fn lemma_sbox_round_trip(x: u8)
    ensures
        inv_sbox_spec(sbox_spec(x)) == x,
{
    lemma_affine_round_trip(gf_inv(x));
    if x == 0 {
        lemma_gf_inv_zero();
    } else {
        lemma_inverse(x);
    }
}

/// The bytes of a state of field elements.
pub open spec fn vals(s: [FieldElement; 16]) -> Seq<u8> {
    Seq::new(16, |i: int| s[i].0)
}

pub open spec fn sub_bytes_spec(s: Seq<u8>) -> Seq<u8> {
    Seq::new(16, |i: int| sbox_spec(s[i]))
}

/// Row r (bytes at offsets r, r+4, r+8, r+12) rotated left by r columns.
pub open spec fn shift_rows_spec(s: Seq<u8>) -> Seq<u8> {
    Seq::new(16, |i: int| s[((i / 4 + i % 4) % 4) * 4 + i % 4])
}

/// Byte `r` of the column a0..a3 times the fixed matrix (2 3 1 1 / 1 2 3 1 / 1 1 2 3 / 3 1 1 2).
pub open spec fn mix_byte(a0: u8, a1: u8, a2: u8, a3: u8, r: int) -> u8 {
    if r == 0 {
        gf_mul(2, a0) ^ gf_mul(3, a1) ^ a2 ^ a3
    } else if r == 1 {
        a0 ^ gf_mul(2, a1) ^ gf_mul(3, a2) ^ a3
    } else if r == 2 {
        a0 ^ a1 ^ gf_mul(2, a2) ^ gf_mul(3, a3)
    } else {
        gf_mul(3, a0) ^ a1 ^ a2 ^ gf_mul(2, a3)
    }
}

pub open spec fn mix_columns_spec(s: Seq<u8>) -> Seq<u8> {
    Seq::new(
        16,
        |i: int|
            mix_byte(s[i - i % 4], s[i - i % 4 + 1], s[i - i % 4 + 2], s[i - i % 4 + 3], i % 4),
    )
}

pub open spec fn add_round_key_spec(s: Seq<u8>, k: Seq<u8>) -> Seq<u8> {
    Seq::new(16, |i: int| s[i] ^ k[i])
}

/// One round; the last round leaves out MixColumns.
pub open spec fn round_spec(s: Seq<u8>, k: Seq<u8>, last: bool) -> Seq<u8> {
    let t = shift_rows_spec(sub_bytes_spec(s));
    add_round_key_spec(
        if last {
            t
        } else {
            mix_columns_spec(t)
        },
        k,
    )
}

/// Round constant of round `r` >= 1: 2^(r-1) in the field.
pub open spec fn rcon_spec(r: nat) -> u8 {
    if r == 0 {
        1
    } else {
        gpow(2, (r - 1) as nat)
    }
}

/// The key-schedule transform of word `w` for word index `i`, a multiple of 4:
/// rotate left one byte, substitute, add the round constant to the first byte.
pub open spec fn schedule_core(w: Seq<u8>, i: nat) -> Seq<u8> {
    Seq::new(
        4,
        |j: int|
            if j == 0 {
                sbox_spec(w[1]) ^ rcon_spec(i / 4)
            } else {
                sbox_spec(w[(j + 1) % 4])
            },
    )
}

/// Word `i` (four bytes) of the expanded key.
pub open spec fn key_word(key: Seq<u8>, i: nat) -> Seq<u8>
    decreases i,
{
    if i < 4 {
        key.subrange(4 * i as int, 4 * i as int + 4)
    } else {
        let prev = key_word(key, (i - 1) as nat);
        let t = if i % 4 == 0 {
            schedule_core(prev, i)
        } else {
            prev
        };
        let back = key_word(key, (i - 4) as nat);
        Seq::new(4, |j: int| back[j] ^ t[j])
    }
}

/// The 176-byte schedule: 44 words, 11 round keys.
pub open spec fn expanded_key(key: Seq<u8>) -> Seq<u8> {
    Seq::new(176, |n: int| key_word(key, (n / 4) as nat)[n % 4])
}

/// Round key `r` of a schedule.
pub open spec fn round_key(keys: Seq<u8>, r: int) -> Seq<u8> {
    keys.subrange(16 * r, 16 * r + 16)
}

/// The state after the initial key addition and `n` full rounds.
pub open spec fn full_rounds(s: Seq<u8>, keys: Seq<u8>, n: nat) -> Seq<u8>
    decreases n,
{
    if n == 0 {
        add_round_key_spec(s, round_key(keys, 0))
    } else {
        round_spec(full_rounds(s, keys, (n - 1) as nat), round_key(keys, n as int), false)
    }
}

/// AES-128 encryption of one block.
pub open spec fn aes_encrypt_spec(message: Seq<u8>, key: Seq<u8>) -> Seq<u8> {
    let keys = expanded_key(key);
    round_spec(full_rounds(message, keys, 9), round_key(keys, 10), true)
}

} // verus!
