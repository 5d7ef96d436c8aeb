//! AES-128 encryption of a single 16-byte block.
use vstd::prelude::*;
use crate::aes_round::{add_round_key, aes_round};
use crate::aes_spec::{aes_encrypt_spec, expanded_key, full_rounds, round_key, vals};
use crate::expand_key::expand_key;
use crate::field_element::FieldElement;

verus! {

/// Round key `r` copied out of the 176-byte schedule.
fn round_key_block(keys: &Vec<FieldElement>, r: usize) -> (b: [FieldElement; 16])
    requires
        keys@.len() == 176,
        r <= 10,
    ensures
        forall|i: int| 0 <= i < 16 ==> #[trigger] b[i] == keys@[16 * r + i],
{
    let mut b = [FieldElement(0); 16];
    let start = r * 16;
    let mut i: usize = 0;
    while i < 16
        invariant
            i <= 16,
            start == 16 * r,
            r <= 10,
            keys@.len() == 176,
            forall|j: int| 0 <= j < i ==> #[trigger] b[j] == keys@[16 * r + j],
        decreases 16 - i,
    {
        b[i] = keys[start + i];
        i = i + 1;
    }
    b
}

/// Encrypts one block: the initial key addition, nine full rounds and a
/// final round without MixColumns.
pub fn aes_encrypt(message: [u8; 16], master_key: [u8; 16]) -> (r: [u8; 16])
    ensures
        r@ == aes_encrypt_spec(message@, master_key@),
{
    let ghost keys = expanded_key(master_key@);
    let mut state = [FieldElement(0); 16];
    let mut i: usize = 0;
    while i < 16
        invariant
            i <= 16,
            forall|j: int| 0 <= j < i ==> #[trigger] state[j].0 == message[j],
        decreases 16 - i,
    {
        state[i] = FieldElement(message[i]);
        i = i + 1;
    }
    proof {
        assert(vals(state) =~= message@);
    }
    let round_keys = expand_key(master_key);
    let k0 = round_key_block(&round_keys, 0);
    proof {
        assert(vals(k0) =~= round_key(keys, 0));
    }
    add_round_key(&mut state, &k0);
    let mut r: usize = 1;
    while r < 10
        invariant
            1 <= r <= 10,
            round_keys@.len() == 176,
            keys.len() == 176,
            forall|n: int| 0 <= n < 176 ==> #[trigger] round_keys@[n].0 == keys[n],
            vals(state) == full_rounds(message@, keys, (r - 1) as nat),
        decreases 10 - r,
    {
        let kr = round_key_block(&round_keys, r);
        proof {
            assert(vals(kr) =~= round_key(keys, r as int));
        }
        aes_round(&mut state, &kr, false);
        r = r + 1;
    }
    let k10 = round_key_block(&round_keys, 10);
    proof {
        assert(vals(k10) =~= round_key(keys, 10));
    }
    aes_round(&mut state, &k10, true);
    let mut out = [0u8; 16];
    let mut i: usize = 0;
    while i < 16
        invariant
            i <= 16,
            forall|j: int| 0 <= j < i ==> #[trigger] out[j] == state[j].0,
        decreases 16 - i,
    {
        out[i] = state[i].0;
        i = i + 1;
    }
    proof {
        assert(out@ =~= vals(state));
    }
    out
}

} // verus!
