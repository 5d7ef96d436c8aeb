//! AES-128 key expansion: 16 key bytes into 11 round keys.
use vstd::prelude::*;
use crate::aes_round::get_rcon;
use crate::aes_spec::{expanded_key, key_word, schedule_core};
use crate::field_element::FieldElement;
use crate::s_box::s_box;

verus! {

proof fn lemma_word_index(k: int, j: int)
    requires
        0 <= k,
        0 <= j < 4,
    ensures
        (4 * k + j) / 4 == k,
        (4 * k + j) % 4 == j,
{
    assert((4 * k + j) / 4 == k && (4 * k + j) % 4 == j) by (nonlinear_arith)
        requires
            0 <= k,
            0 <= j < 4,
    ;
}

/// Expands `master_key` into 44 words (176 bytes): word i is word i-4 XOR
/// word i-1, the latter rotated, substituted and given the round constant
/// when i is a multiple of 4.
#[verifier::rlimit(60)]
pub fn expand_key(master_key: [u8; 16]) -> (r: Vec<FieldElement>)
    ensures
        r@.len() == 176,
        forall|n: int| 0 <= n < 176 ==> #[trigger] r@[n].0 == expanded_key(master_key@)[n],
{
    let ghost key = master_key@;
    let mut w: Vec<FieldElement> = Vec::new();
    let mut n: usize = 0;
    while n < 16
        invariant
            n <= 16,
            key == master_key@,
            w@.len() == n,
            forall|m: int| 0 <= m < n ==> #[trigger] w@[m].0 == key[m],
        decreases 16 - n,
    {
        w.push(FieldElement(master_key[n]));
        n = n + 1;
    }
    proof {
        assert forall|m: int| 0 <= m < 16 implies #[trigger] w@[m].0 == key_word(
            key,
            (m / 4) as nat,
        )[m % 4] by {
            lemma_word_index(m / 4, m % 4);
        }
    }
    let mut i: usize = 4;
    while i < 44
        invariant
            4 <= i <= 44,
            key.len() == 16,
            w@.len() == 4 * i,
            forall|m: int| 0 <= m < 4 * i ==> #[trigger] w@[m].0 == key_word(key, (m / 4) as nat)[m % 4],
        decreases 44 - i,
    {
        let ghost prev = key_word(key, (i - 1) as nat);
        let ghost back = key_word(key, (i - 4) as nat);
        let p = (i - 1) * 4;
        proof {
            assert forall|j: int| 0 <= j < 4 implies w@[p + j].0 == prev[j] && w@[(i - 4) * 4 + j].0
                == back[j] by {
                lemma_word_index(i - 1, j);
                lemma_word_index(i - 4, j);
                assert(w@[p + j].0 == key_word(key, ((p + j) / 4) as nat)[(p + j) % 4]);
                assert(w@[(i - 4) * 4 + j].0 == key_word(key, (((i - 4) * 4 + j) / 4) as nat)[((i
                    - 4) * 4 + j) % 4]);
            }
        }
        let mut temp = [w[p], w[p + 1], w[p + 2], w[p + 3]];
        if i % 4 == 0 {
            // RotWord, then SubWord, then the round constant on the first byte.
            temp = [temp[1], temp[2], temp[3], temp[0]];
            temp[0] = s_box(temp[0]);
            temp[1] = s_box(temp[1]);
            temp[2] = s_box(temp[2]);
            temp[3] = s_box(temp[3]);
            temp[0] = temp[0].add(get_rcon(i / 4));
        }
        let ghost t = if i % 4 == 0 {
            schedule_core(prev, i as nat)
        } else {
            prev
        };
        proof {
            assert(temp[0].0 == t[0] && temp[1].0 == t[1] && temp[2].0 == t[2] && temp[3].0
                == t[3]);
        }
        let mut j: usize = 0;
        while j < 4
            invariant
                4 <= i < 44,
                j <= 4,
                key.len() == 16,
                w@.len() == 4 * i + j,
                forall|m: int| 0 <= m < 4 * i ==> #[trigger] w@[m].0 == key_word(key, (m / 4) as nat)[m % 4],
                forall|jj: int| 0 <= jj < 4 ==> #[trigger] w@[(i - 4) * 4 + jj].0 == back[jj],
                forall|jj: int| 0 <= jj < 4 ==> #[trigger] temp[jj].0 == t[jj],
                forall|jj: int| 0 <= jj < j ==> #[trigger] w@[4 * i + jj].0 == back[jj] ^ t[jj],
            decreases 4 - j,
        {
            let v = w[(i - 4) * 4 + j].add(temp[j]);
            w.push(v);
            j = j + 1;
        }
        proof {
            let cur = key_word(key, i as nat);
            assert(cur =~= Seq::new(4, |jj: int| back[jj] ^ t[jj]));
            assert forall|m: int| 0 <= m < 4 * (i + 1) implies #[trigger] w@[m].0 == key_word(
                key,
                (m / 4) as nat,
            )[m % 4] by {
                if m >= 4 * i {
                    lemma_word_index(i as int, m - 4 * i);
                }
            }
        }
        i = i + 1;
    }
    w
}

} // verus!
