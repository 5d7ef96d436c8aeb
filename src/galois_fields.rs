//! Byte-level GF(2^8) kernel: addition, three multipliers, powers,
//! inversion and division.
use vstd::prelude::*;
use crate::field_spec::{
    gf_inv, gf_mul, gpow, lemma_fermat, lemma_gpow_add, lemma_gpow_mul, lemma_gpow_small,
    lemma_mul_associative, lemma_mul_commutative, lemma_mul_one, lemma_mul_step,
    lemma_three_powers_cover, lemma_three_powers_distinct,
    lemma_pick_additive, lemma_xor, pick, xtime_spec,
};

verus! {

/// Inversion or division by the zero element.
#[derive(Debug, Clone, Copy, PartialEq, Eq, Structural)]
pub enum DomainError {
    ZeroHasNoInverse,
}

/// Field addition: XOR.
pub fn gf256_add(a: u8, b: u8) -> (r: u8)
    ensures
        r == a ^ b,
{
    a ^ b
}

pub fn call_add(a: u8, b: u8) -> (r: u8)
    ensures
        r == a ^ b,
{
    gf256_add(a, b)
}

/// Field subtraction, which in characteristic 2 is addition.
pub fn gf256_sub(a: u8, b: u8) -> (r: u8)
    ensures
        r == a ^ b,
{
    a ^ b
}

pub fn call_sub(a: u8, b: u8) -> (r: u8)
    ensures
        r == a ^ b,
{
    gf256_sub(a, b)
}

proof fn lemma_ct_step(a: u8, b: u8)
    by (bit_vector)
    ensures
        (b & 1u8) * 0xffu8 <= 0xffu8,
        ((a >> 7u8) & 1u8) * 0x1bu8 <= 0xffu8,
        a & (((b & 1u8) * 0xffu8) as u8) == pick(b & 1u8 != 0, a),
        ((a << 1u8) ^ ((((a >> 7u8) & 1u8) * 0x1bu8) as u8)) as u8 == xtime_spec(a),
        (a & 0x80u8 != 0) ==> ((a << 1u8) ^ 0x1bu8) as u8 == xtime_spec(a),
        (a & 0x80u8 == 0) ==> (a << 1u8) as u8 == xtime_spec(a),
        (b & 1u8 != 0) ==> pick(b & 1u8 != 0, a) == a,
        (b & 1u8 == 0) ==> pick(b & 1u8 != 0, a) == 0,
{
}

proof fn lemma_shift_out(b: u8, i: u8)
    by (bit_vector)
    requires
        i < 8,
    ensures
        (b >> i) >> 1u8 == b >> ((i + 1) as u8),
        b >> 8u8 == 0,
        b >> 0u8 == b,
{
}

/// Constant-time multiplication: eight rounds, every choice made with masks.
pub fn gf256_mul_ct(a: u8, b: u8) -> (r: u8)
    ensures
        r == gf_mul(a, b),
{
    let mut x = a;
    let mut y = b;
    let mut result: u8 = 0;
    let mut i: u8 = 0;
    proof {
        lemma_shift_out(b, 0);
        lemma_xor(0, gf_mul(a, b), 0);
        lemma_xor(gf_mul(a, b), 0, 0);
    }
    while i < 8
        invariant
            i <= 8,
            y == b >> i,
            result ^ gf_mul(x, y) == gf_mul(a, b),
        decreases 8 - i,
    {
        proof {
            lemma_ct_step(x, y);
            lemma_mul_step(x, y);
            lemma_shift_out(b, i);
            lemma_xor(result, pick(y & 1u8 != 0, x), gf_mul(xtime_spec(x), y >> 1u8));
        }
        let mask: u8 = (y & 1) * 0xff;
        result = result ^ (x & mask);
        let poly_mask: u8 = ((x >> 7) & 1) * 0x1b;
        x = (x << 1) ^ poly_mask;
        y = y >> 1;
        i = i + 1;
    }
    proof {
        lemma_shift_out(b, 0);
        lemma_mul_step(x, y);
        lemma_xor(result, 0, 0);
    }
    result
}

pub fn call_mul_ct(a: u8, b: u8) -> (r: u8)
    ensures
        r == gf_mul(a, b),
{
    gf256_mul_ct(a, b)
}

/// Reference shift-and-add multiplication.
pub fn gf256_mul(a: u8, b: u8) -> (r: u8)
    ensures
        r == gf_mul(a, b),
{
    let mut x = a;
    let mut y = b;
    let mut result: u8 = 0;
    proof {
        lemma_xor(0, gf_mul(a, b), 0);
        lemma_xor(gf_mul(a, b), 0, 0);
    }
    while y != 0
        invariant
            result ^ gf_mul(x, y) == gf_mul(a, b),
        decreases y,
    {
        proof {
            lemma_ct_step(x, y);
            lemma_mul_step(x, y);
            lemma_pick_additive(y, 0, 0);
            lemma_xor(result, pick(y & 1u8 != 0, x), gf_mul(xtime_spec(x), y >> 1u8));
            lemma_xor(result, 0, 0);
        }
        if y & 1 != 0 {
            result = result ^ x;
        }
        let carry = x & 0x80;
        x = x << 1;
        if carry != 0 {
            x = x ^ 0x1b;
        }
        y = y >> 1;
    }
    proof {
        lemma_mul_step(x, y);
        lemma_xor(result, 0, 0);
    }
    result
}

pub fn call_mul(a: u8, b: u8) -> (r: u8)
    ensures
        r == gf_mul(a, b),
{
    gf256_mul(a, b)
}

proof fn lemma_halve(e: u8)
    by (bit_vector)
    ensures
        e >> 1u8 == e / 2,
        e & 1u8 == e % 2,
{
}

/// `base` raised to `exp` by square-and-multiply over the constant-time multiplier.
pub fn gf256_exp(base: u8, exp: u8) -> (r: u8)
    ensures
        r == gpow(base, exp as nat),
{
    let mut b = base;
    let mut e = exp;
    let mut result: u8 = 1;
    proof {
        lemma_mul_one(gpow(base, exp as nat));
    }
    while e != 0
        invariant
            gf_mul(result, gpow(b, e as nat)) == gpow(base, exp as nat),
        decreases e,
    {
        let ghost h = (e / 2) as nat;
        let ghost bit = (e % 2) as nat;
        proof {
            lemma_halve(e);
            lemma_gpow_add(b, 2 * h, bit);
            lemma_gpow_mul(b, 2, h);
            lemma_gpow_small(b);
            let g = gpow(b, 2 * h);
            lemma_mul_commutative(g, b);
            lemma_mul_associative(result, b, g);
            lemma_mul_one(g);
        }
        if e & 1 != 0 {
            result = gf256_mul_ct(result, b);
        }
        b = gf256_mul_ct(b, b);
        e = e >> 1;
    }
    proof {
        lemma_mul_one(result);
    }
    result
}

pub fn call_exp(base: u8, exp: u8) -> (r: u8)
    ensures
        r == gpow(base, exp as nat),
{
    gf256_exp(base, exp)
}

/// Multiplicative inverse as a^254; zero has none.
pub fn gf256_inv(a: u8) -> (r: Result<u8, DomainError>)
    ensures
        r == (if a == 0 {
            Err(DomainError::ZeroHasNoInverse)
        } else {
            Ok(gf_inv(a))
        }),
{
    if a == 0 {
        Err(DomainError::ZeroHasNoInverse)
    } else {
        Ok(gf256_exp(a, 254))
    }
}

pub fn call_inv(a: u8) -> (r: Result<u8, DomainError>)
    ensures
        r == (if a == 0 {
            Err(DomainError::ZeroHasNoInverse)
        } else {
            Ok(gf_inv(a))
        }),
{
    gf256_inv(a)
}

/// `a / b` as `a * b^-1` with the constant-time multiplier; fails when `b` is zero.
pub fn gf256_div(a: u8, b: u8) -> (r: Result<u8, DomainError>)
    ensures
        r == (if b == 0 {
            Err(DomainError::ZeroHasNoInverse)
        } else {
            Ok(gf_mul(a, gf_inv(b)))
        }),
{
    match gf256_inv(b) {
        Ok(ib) => Ok(gf256_mul_ct(a, ib)),
        Err(e) => Err(e),
    }
}

/// Generator of the multiplicative group used for the log/antilog tables:
/// its powers 3^0..3^254 are all the nonzero elements.
/// (The element 2 has order 51 here and so cannot serve.)
pub const GENERATOR: u8 = 3;

/// Discrete-log and antilog tables with respect to `GENERATOR`;
/// the antilog table is doubled so that a sum of two logs needs no reduction.
pub struct GF256Tables {
    pub log: [u8; 256],
    pub exp: [u8; 512],
}

/// `exp[log[x]] == x` for every nonzero `x`.
pub open spec fn valid_log_table(log: [u8; 256], exp: [u8; 512]) -> bool {
    forall|x: int| 1 <= x < 256 ==> #[trigger] exp[log[x] as int] == x
}

/// What `generate_tables` produces: powers of the generator, repeated once,
/// and logs below 255.
pub open spec fn generated_shape(log: [u8; 256], exp: [u8; 512]) -> bool {
    &&& forall|i: int| 0 <= i < 255 ==> #[trigger] exp[i] == gpow(GENERATOR, i as nat)
    &&& forall|i: int| 0 <= i < 255 ==> #[trigger] exp[i + 255] == exp[i]
    &&& forall|x: int| 0 <= x < 256 ==> #[trigger] log[x] < 255
}

impl GF256Tables {
    pub open spec fn wf(&self) -> bool {
        generated_shape(self.log, self.exp) && valid_log_table(self.log, self.exp)
    }
}

proof fn lemma_times_generator(x: u8)
    by (bit_vector)
    ensures
        x ^ xtime_spec(x) == gf_mul(x, 3),
{
}

/// Builds the tables by repeated multiplication by the generator.
pub fn generate_tables() -> (r: ([u8; 256], [u8; 512]))
    ensures
        generated_shape(r.0, r.1),
        valid_log_table(r.0, r.1),
{
    let mut log = [0u8; 256];
    let mut exp = [0u8; 512];
    let mut x: u8 = 1;
    let mut i: usize = 0;
    while i < 255
        invariant
            i <= 255,
            x == gpow(GENERATOR, i as nat),
            forall|j: int| 0 <= j < i ==> #[trigger] exp[j] == gpow(GENERATOR, j as nat),
            forall|j: int| 0 <= j < i ==> #[trigger] exp[j + 255] == exp[j],
            forall|j: int| 0 <= j < i ==> #[trigger] log[exp[j] as int] == j,
            forall|v: int| 0 <= v < 256 ==> #[trigger] log[v] < 255,
        decreases 255 - i,
    {
        proof {
            assert forall|j: int| 0 <= j < i implies exp[j] != x by {
                lemma_three_powers_distinct(j as nat, i as nat);
            }
        }
        exp[i] = x;
        exp[i + 255] = x;
        log[x as usize] = i as u8;
        proof {
            lemma_times_generator(x);
        }
        let carry = x & 0x80;
        let mut doubled = x << 1;
        if carry != 0 {
            doubled = doubled ^ 0x1b;
        }
        proof {
            lemma_ct_step(x, 0);
        }
        x = x ^ doubled;
        i = i + 1;
    }
    proof {
        assert forall|v: int| 1 <= v < 256 implies #[trigger] exp[log[v] as int] == v by {
            lemma_three_powers_cover(v as u8);
            let j = choose|j: int| 0 <= j < 255 && #[trigger] gpow(3, j as nat) == v as u8;
            assert(exp[j] == v);
        }
    }
    (log, exp)
}

/// Checks `exp[log[x]] == x` for every nonzero `x`.
pub fn is_valid_log_table(log: [u8; 256], exp: [u8; 512]) -> (r: bool)
    ensures
        r == valid_log_table(log, exp),
{
    let mut x: usize = 1;
    while x < 256
        invariant
            1 <= x <= 256,
            forall|y: int| 1 <= y < x ==> #[trigger] exp[log[y] as int] == y,
        decreases 256 - x,
    {
        let l = log[x] as usize;
        if exp[l] as usize != x {
            return false;
        }
        x = x + 1;
    }
    true
}

/// Generates the tables, which are always well formed.
pub fn build_tables() -> (t: GF256Tables)
    ensures
        t.wf(),
{
    let (log, exp) = generate_tables();
    GF256Tables { log, exp }
}

/// Table-based multiplication: antilog of the sum of the logs.
/// Its running time depends on the operands; keep it away from secrets.
pub fn gf256_mul_fast(tables: &GF256Tables, a: u8, b: u8) -> (r: u8)
    requires
        tables.wf(),
    ensures
        r == gf_mul(a, b),
{
    if a == 0 || b == 0 {
        proof {
            lemma_mul_one(a);
            lemma_mul_one(b);
        }
        return 0;
    }
    let l_a = tables.log[a as usize];
    let l_b = tables.log[b as usize];
    let idx = (l_a as usize) + (l_b as usize);
    proof {
        let la = l_a as nat;
        let lb = l_b as nat;
        assert(tables.exp[la as int] == a);
        assert(tables.exp[lb as int] == b);
        lemma_gpow_add(GENERATOR, la, lb);
        if idx >= 255 {
            let k = (idx - 255) as nat;
            assert(tables.exp[k as int + 255] == tables.exp[k as int]);
            lemma_gpow_add(GENERATOR, k, 255);
            lemma_fermat(GENERATOR);
            lemma_mul_one(gpow(GENERATOR, k));
            assert(k + 255 == la + lb);
        }
    }
    tables.exp[idx]
}

/// Multiplies through freshly built tables.
pub fn run_mul_opt(a: u8, b: u8) -> (r: u8)
    ensures
        r == gf_mul(a, b),
{
    let tables = build_tables();
    gf256_mul_fast(&tables, a, b)
}

} // verus!
