//! The AES-128 round transform: ShiftRows, MixColumns, the round constant,
//! and the round itself.
use vstd::prelude::*;
use crate::aes_spec::{
    add_round_key_spec, mix_byte, mix_columns_spec, rcon_spec, round_spec, sbox_spec,
    shift_rows_spec, sub_bytes_spec, vals,
};
use crate::field_element::FieldElement;
use crate::field_spec::{gf_mul, gpow, xtime_spec};
use crate::s_box::s_box;

verus! {

proof fn lemma_small_multiples(a: u8)
    by (bit_vector)
    ensures
        xtime_spec(a) == gf_mul(2, a),
        xtime_spec(a) ^ a == gf_mul(3, a),
        (a & 0x80u8 != 0) ==> ((a << 1u8) ^ 0x1bu8) as u8 == xtime_spec(a),
        (a & 0x80u8 == 0) ==> (a << 1u8) as u8 == xtime_spec(a),
{
}

proof fn lemma_index16(i: int)
    requires
        0 <= i < 16,
    ensures
        i == 0 || i == 1 || i == 2 || i == 3 || i == 4 || i == 5 || i == 6 || i == 7 || i == 8
            || i == 9 || i == 10 || i == 11 || i == 12 || i == 13 || i == 14 || i == 15,
{
}

/// Multiplication by 2 in the field.
pub fn xtime(a: FieldElement) -> (r: FieldElement)
    ensures
        r.0 == xtime_spec(a.0),
        r.0 == gf_mul(2, a.0),
{
    proof {
        lemma_small_multiples(a.0);
    }
    let raw = a.0;
    let res = if raw & 0x80 != 0 {
        (raw << 1) ^ 0x1b
    } else {
        raw << 1
    };
    FieldElement(res)
}

/// Rotates row r of the column-major state left by r positions.
pub fn shift_rows(state: &mut [FieldElement; 16])
    ensures
        vals(*final(state)) == shift_rows_spec(vals(*old(state))),
{
    let temp = *state;
    state[1] = temp[5];
    state[5] = temp[9];
    state[9] = temp[13];
    state[13] = temp[1];
    state[2] = temp[10];
    state[6] = temp[14];
    state[10] = temp[2];
    state[14] = temp[6];
    state[3] = temp[15];
    state[7] = temp[3];
    state[11] = temp[7];
    state[15] = temp[11];
    proof {
        assert forall|i: int| 0 <= i < 16 implies #[trigger] vals(*state)[i] == shift_rows_spec(
            vals(temp),
        )[i] by {
            lemma_index16(i);
        }
        assert(vals(*state) =~= shift_rows_spec(vals(temp)));
    }
}

/// MixColumns: each column times the fixed matrix, written out column by column.
pub fn mix_columns(state: &mut [FieldElement; 16])
    ensures
        vals(*final(state)) == mix_columns_spec(vals(*old(state))),
{
    let ghost old_state = *state;
    let two = FieldElement(0x02);
    let three = FieldElement(0x03);
    let s0 = state[0];
    let s1 = state[1];
    let s2 = state[2];
    let s3 = state[3];
    state[0] = two.mul(s0).bitxor(three.mul(s1)).bitxor(s2).bitxor(s3);
    state[1] = s0.bitxor(two.mul(s1)).bitxor(three.mul(s2)).bitxor(s3);
    state[2] = s0.bitxor(s1).bitxor(two.mul(s2)).bitxor(three.mul(s3));
    state[3] = three.mul(s0).bitxor(s1).bitxor(s2).bitxor(two.mul(s3));
    let s4 = state[4];
    let s5 = state[5];
    let s6 = state[6];
    let s7 = state[7];
    state[4] = two.mul(s4).bitxor(three.mul(s5)).bitxor(s6).bitxor(s7);
    state[5] = s4.bitxor(two.mul(s5)).bitxor(three.mul(s6)).bitxor(s7);
    state[6] = s4.bitxor(s5).bitxor(two.mul(s6)).bitxor(three.mul(s7));
    state[7] = three.mul(s4).bitxor(s5).bitxor(s6).bitxor(two.mul(s7));
    let s8 = state[8];
    let s9 = state[9];
    let s10 = state[10];
    let s11 = state[11];
    state[8] = two.mul(s8).bitxor(three.mul(s9)).bitxor(s10).bitxor(s11);
    state[9] = s8.bitxor(two.mul(s9)).bitxor(three.mul(s10)).bitxor(s11);
    state[10] = s8.bitxor(s9).bitxor(two.mul(s10)).bitxor(three.mul(s11));
    state[11] = three.mul(s8).bitxor(s9).bitxor(s10).bitxor(two.mul(s11));
    let s12 = state[12];
    let s13 = state[13];
    let s14 = state[14];
    let s15 = state[15];
    state[12] = two.mul(s12).bitxor(three.mul(s13)).bitxor(s14).bitxor(s15);
    state[13] = s12.bitxor(two.mul(s13)).bitxor(three.mul(s14)).bitxor(s15);
    state[14] = s12.bitxor(s13).bitxor(two.mul(s14)).bitxor(three.mul(s15));
    state[15] = three.mul(s12).bitxor(s13).bitxor(s14).bitxor(two.mul(s15));
    proof {
        assert forall|i: int| 0 <= i < 16 implies #[trigger] vals(*state)[i] == mix_columns_spec(
            vals(old_state),
        )[i] by {
            lemma_index16(i);
        }
        assert(vals(*state) =~= mix_columns_spec(vals(old_state)));
    }
}

/// MixColumns with 3*s computed as xtime(s) ^ s.
pub fn mix_columns_xtime(state: &mut [FieldElement; 16])
    ensures
        vals(*final(state)) == mix_columns_spec(vals(*old(state))),
{
    let ghost old_state = *state;
    let s0 = state[0];
    let s1 = state[1];
    let s2 = state[2];
    let s3 = state[3];
    state[0] = xtime(s0).bitxor(xtime(s1).bitxor(s1)).bitxor(s2).bitxor(s3);
    state[1] = s0.bitxor(xtime(s1)).bitxor(xtime(s2).bitxor(s2)).bitxor(s3);
    state[2] = s0.bitxor(s1).bitxor(xtime(s2)).bitxor(xtime(s3).bitxor(s3));
    state[3] = xtime(s0).bitxor(s0).bitxor(s1).bitxor(s2).bitxor(xtime(s3));
    let s4 = state[4];
    let s5 = state[5];
    let s6 = state[6];
    let s7 = state[7];
    state[4] = xtime(s4).bitxor(xtime(s5).bitxor(s5)).bitxor(s6).bitxor(s7);
    state[5] = s4.bitxor(xtime(s5)).bitxor(xtime(s6).bitxor(s6)).bitxor(s7);
    state[6] = s4.bitxor(s5).bitxor(xtime(s6)).bitxor(xtime(s7).bitxor(s7));
    state[7] = xtime(s4).bitxor(s4).bitxor(s5).bitxor(s6).bitxor(xtime(s7));
    let s8 = state[8];
    let s9 = state[9];
    let s10 = state[10];
    let s11 = state[11];
    state[8] = xtime(s8).bitxor(xtime(s9).bitxor(s9)).bitxor(s10).bitxor(s11);
    state[9] = s8.bitxor(xtime(s9)).bitxor(xtime(s10).bitxor(s10)).bitxor(s11);
    state[10] = s8.bitxor(s9).bitxor(xtime(s10)).bitxor(xtime(s11).bitxor(s11));
    state[11] = xtime(s8).bitxor(s8).bitxor(s9).bitxor(s10).bitxor(xtime(s11));
    let s12 = state[12];
    let s13 = state[13];
    let s14 = state[14];
    let s15 = state[15];
    state[12] = xtime(s12).bitxor(xtime(s13).bitxor(s13)).bitxor(s14).bitxor(s15);
    state[13] = s12.bitxor(xtime(s13)).bitxor(xtime(s14).bitxor(s14)).bitxor(s15);
    state[14] = s12.bitxor(s13).bitxor(xtime(s14)).bitxor(xtime(s15).bitxor(s15));
    state[15] = xtime(s12).bitxor(s12).bitxor(s13).bitxor(s14).bitxor(xtime(s15));
    proof {
        lemma_small_multiples(s0.0);
        lemma_small_multiples(s1.0);
        lemma_small_multiples(s2.0);
        lemma_small_multiples(s3.0);
        lemma_small_multiples(s4.0);
        lemma_small_multiples(s5.0);
        lemma_small_multiples(s6.0);
        lemma_small_multiples(s7.0);
        lemma_small_multiples(s8.0);
        lemma_small_multiples(s9.0);
        lemma_small_multiples(s10.0);
        lemma_small_multiples(s11.0);
        lemma_small_multiples(s12.0);
        lemma_small_multiples(s13.0);
        lemma_small_multiples(s14.0);
        lemma_small_multiples(s15.0);
    }
    proof {
        assert forall|i: int| 0 <= i < 16 implies #[trigger] vals(*state)[i] == mix_columns_spec(
            vals(old_state),
        )[i] by {
            lemma_index16(i);
        }
        assert(vals(*state) =~= mix_columns_spec(vals(old_state)));
    }
}

/// MixColumns as a loop over the four columns.
pub fn mix_columns_dry(state: &mut [FieldElement; 16])
    ensures
        vals(*final(state)) == mix_columns_spec(vals(*old(state))),
{
    let ghost old_state = *state;
    let two = FieldElement(0x02);
    let three = FieldElement(0x03);
    let mut i: usize = 0;
    while i < 4
        invariant
            i <= 4,
            two.0 == 2,
            three.0 == 3,
            forall|k: int| 0 <= k < 4 * i ==> #[trigger] state[k].0 == mix_byte(
                old_state[k - k % 4].0,
                old_state[k - k % 4 + 1].0,
                old_state[k - k % 4 + 2].0,
                old_state[k - k % 4 + 3].0,
                k % 4,
            ),
            forall|k: int| 4 * i <= k < 16 ==> #[trigger] state[k] == old_state[k],
        decreases 4 - i,
    {
        let c = i * 4;
        let s0 = state[c];
        let s1 = state[c + 1];
        let s2 = state[c + 2];
        let s3 = state[c + 3];
        assert(s0 == old_state[c as int] && s1 == old_state[c + 1] && s2 == old_state[c + 2] && s3
            == old_state[c + 3]);
        state[c] = two.mul(s0).add(three.mul(s1)).add(s2).add(s3);
        state[c + 1] = s0.add(two.mul(s1)).add(three.mul(s2)).add(s3);
        state[c + 2] = s0.add(s1).add(two.mul(s2)).add(three.mul(s3));
        state[c + 3] = three.mul(s0).add(s1).add(s2).add(two.mul(s3));
        proof {
            assert forall|k: int| 0 <= k < 4 * (i + 1) implies #[trigger] state[k].0 == mix_byte(
                old_state[k - k % 4].0,
                old_state[k - k % 4 + 1].0,
                old_state[k - k % 4 + 2].0,
                old_state[k - k % 4 + 3].0,
                k % 4,
            ) by {
                if k >= c {
                    assert(c == 4 * i);
                    assert(k % 4 == k - c);
                    assert(k == c || k == c + 1 || k == c + 2 || k == c + 3);

                }
            }
        }
        i = i + 1;
    }
    proof {
        assert(vals(*state) =~= mix_columns_spec(vals(old_state)));
    }
}

/// Round constant of `round`: 2^(round-1) by repeated multiplication by 2.
pub fn get_rcon(round: usize) -> (r: FieldElement)
    ensures
        r.0 == rcon_spec(round as nat),
{
    let mut val = FieldElement(1);
    let two = FieldElement(2);
    let mut k: usize = 1;
    while k < round
        invariant
            two.0 == 2,
            1 <= k,
            round >= 1 ==> k <= round,
            round == 0 ==> k == 1,
            val.0 == gpow(2, (k - 1) as nat),
        decreases round - k,
    {
        proof {
            assert(gpow(2, k as nat) == gf_mul(gpow(2, (k - 1) as nat), 2));
        }
        val = val.mul(two);
        k = k + 1;
    }
    proof {
        if round == 0 {
            assert(gpow(2, 0) == 1);
        } else {
            assert(k == round);
            assert(rcon_spec(round as nat) == gpow(2, (k - 1) as nat));
        }
    }
    val
}

/// AddRoundKey: XOR every state byte with the matching key byte.
pub(crate) fn add_round_key(state: &mut [FieldElement; 16], key: &[FieldElement; 16])
    ensures
        vals(*final(state)) == add_round_key_spec(vals(*old(state)), vals(*key)),
{
    let ghost t = vals(*state);
    let mut i: usize = 0;
    while i < 16
        invariant
            i <= 16,
            t.len() == 16,
            forall|j: int| 0 <= j < i ==> #[trigger] state[j].0 == t[j] ^ key[j].0,
            forall|j: int| i <= j < 16 ==> #[trigger] state[j].0 == t[j],
        decreases 16 - i,
    {
        state[i] = state[i].add(key[i]);
        i = i + 1;
    }
    proof {
        assert(vals(*state) =~= add_round_key_spec(t, vals(*key)));
    }
}

/// One AES round: SubBytes, ShiftRows, MixColumns unless `last_round`, AddRoundKey.
pub fn aes_round(state: &mut [FieldElement; 16], key: &[FieldElement; 16], last_round: bool)
    ensures
        vals(*final(state)) == round_spec(vals(*old(state)), vals(*key), last_round),
{
    let ghost s0 = vals(*state);
    let mut i: usize = 0;
    while i < 16
        invariant
            i <= 16,
            s0.len() == 16,
            forall|j: int| 0 <= j < i ==> #[trigger] state[j].0 == sbox_spec(s0[j]),
            forall|j: int| i <= j < 16 ==> #[trigger] state[j].0 == s0[j],
        decreases 16 - i,
    {
        state[i] = s_box(state[i]);
        i = i + 1;
    }
    proof {
        assert(vals(*state) =~= sub_bytes_spec(s0));
    }
    shift_rows(state);
    if !last_round {
        mix_columns(state);
    }
    add_round_key(state, key);
}

} // verus!
