//! Mathematical model of GF(2^8) modulo x^8 + x^4 + x^3 + x + 1 (0x11B).
use vstd::prelude::*;
use vstd::relations::injective_on;
use vstd::set_lib::{lemma_int_range, lemma_map_size, lemma_subset_equality, set_int_range};

verus! {

/// Multiplication by x: shift left and reduce by 0x1B when bit 7 falls out.
pub open spec fn xtime_spec(a: u8) -> u8 {
    if a & 0x80u8 == 0 {
        (a << 1u8) as u8
    } else {
        ((a << 1u8) ^ 0x1bu8) as u8
    }
}

/// `v` when `bit` is set, zero otherwise.
pub open spec fn pick(bit: bool, v: u8) -> u8 {
    if bit {
        v
    } else {
        0u8
    }
}

/// Field product: the XOR over the set bits i of `b` of `a * x^i`.
pub open spec fn gf_mul(a: u8, b: u8) -> u8 {
    let a1 = xtime_spec(a);
    let a2 = xtime_spec(a1);
    let a3 = xtime_spec(a2);
    let a4 = xtime_spec(a3);
    let a5 = xtime_spec(a4);
    let a6 = xtime_spec(a5);
    let a7 = xtime_spec(a6);
    pick(b & 0x01u8 != 0, a) ^ pick(b & 0x02u8 != 0, a1) ^ pick(b & 0x04u8 != 0, a2) ^ pick(
        b & 0x08u8 != 0,
        a3,
    ) ^ pick(b & 0x10u8 != 0, a4) ^ pick(b & 0x20u8 != 0, a5) ^ pick(b & 0x40u8 != 0, a6)
        ^ pick(b & 0x80u8 != 0, a7)
}

/// One step of shift-and-add: the low bit of `b`, then `x * a` times `b / 2`.
pub proof fn lemma_mul_step(a: u8, b: u8)
    ensures
        gf_mul(a, b) == pick(b & 1u8 != 0, a) ^ gf_mul(xtime_spec(a), b >> 1u8),
        gf_mul(a, 0) == 0,
{
    assert(gf_mul(a, b) == pick(b & 1u8 != 0, a) ^ gf_mul(xtime_spec(a), b >> 1u8)) by (bit_vector);
    assert(gf_mul(a, 0) == 0) by (bit_vector);
}

/// XOR is a commutative group operation on bytes with identity 0.
pub proof fn lemma_xor(x: u8, y: u8, z: u8)
    by (bit_vector)
    ensures
        x ^ y == y ^ x,
        (x ^ y) ^ z == x ^ (y ^ z),
        x ^ 0u8 == x,
        x ^ x == 0u8,
{
}

/// Multiplication by x is additive.
proof fn lemma_xtime_additive(a: u8, b: u8)
    by (bit_vector)
    ensures
        xtime_spec(a ^ b) == xtime_spec(a) ^ xtime_spec(b),
{
}

pub(crate) proof fn lemma_pick_additive(c: u8, a: u8, b: u8)
    by (bit_vector)
    ensures
        pick(c & 1u8 != 0, a ^ b) == pick(c & 1u8 != 0, a) ^ pick(c & 1u8 != 0, b),
        c != 0 ==> c >> 1u8 < c,
{
}

/// Multiplication is additive in its left argument.
pub proof fn lemma_mul_distributive_left(a: u8, b: u8, c: u8)
    ensures
        gf_mul(a ^ b, c) == gf_mul(a, c) ^ gf_mul(b, c),
    decreases c,
{
    lemma_mul_step(a ^ b, c);
    lemma_mul_step(a, c);
    lemma_mul_step(b, c);
    lemma_pick_additive(c, a, b);
    if c == 0 {
        lemma_xor(0, 0, 0);
    } else {
        let h = c >> 1u8;
        lemma_xtime_additive(a, b);
        lemma_mul_distributive_left(xtime_spec(a), xtime_spec(b), h);
        let pa = pick(c & 1u8 != 0, a);
        let pb = pick(c & 1u8 != 0, b);
        let ga = gf_mul(xtime_spec(a), h);
        let gb = gf_mul(xtime_spec(b), h);
        assert((pa ^ pb) ^ (ga ^ gb) == (pa ^ ga) ^ (pb ^ gb)) by (bit_vector);
    }
}

/// A byte splits into its low bit and `x` times its upper seven bits.
proof fn lemma_split_low_bit(b: u8)
    ensures
        b == xtime_spec(b >> 1u8) ^ (b & 1u8),
        b != 0 ==> b >> 1u8 < b,
        forall|a: u8| gf_mul(#[trigger] (b & 1u8), a) == pick(b & 1u8 != 0, a),
{
    assert(b == xtime_spec(b >> 1u8) ^ (b & 1u8)) by (bit_vector);
    assert(b != 0 ==> b >> 1u8 < b) by (bit_vector);
    assert forall|a: u8| gf_mul(#[trigger] (b & 1u8), a) == pick(b & 1u8 != 0, a) by {
        assert(gf_mul(b & 1u8, a) == pick(b & 1u8 != 0, a)) by (bit_vector);
    }
}

pub proof fn lemma_mul_commutative(a: u8, b: u8)
    ensures
        gf_mul(a, b) == gf_mul(b, a),
    decreases b,
{
    lemma_mul_step(a, b);
    lemma_split_low_bit(b);
    if b != 0 {
        let h = b >> 1u8;
        lemma_mul_commutative(a, h);
        lemma_xtime_mul(a, h);
        lemma_xtime_mul(h, a);
        lemma_mul_distributive_left(xtime_spec(h), b & 1u8, a);
        lemma_xor(gf_mul(xtime_spec(h), a), pick(b & 1u8 != 0, a), 0);
    } else {
        assert(gf_mul(0u8, a) == 0u8) by (bit_vector);
    }
}

pub proof fn lemma_mul_distributive(a: u8, b: u8, c: u8)
    ensures
        gf_mul(a, b ^ c) == gf_mul(a, b) ^ gf_mul(a, c),
{
    assert(gf_mul(a, b ^ c) == gf_mul(a, b) ^ gf_mul(a, c)) by (bit_vector);
}

#[verifier::rlimit(100)]
#[verifier::spinoff_prover]
pub proof fn lemma_xtime_mul(a: u8, b: u8)
    ensures
        gf_mul(xtime_spec(a), b) == xtime_spec(gf_mul(a, b)),
{
    assert(gf_mul(xtime_spec(a), b) == xtime_spec(gf_mul(a, b))) by (bit_vector);
}

/// Multiplication is associative.
pub proof fn lemma_mul_associative(a: u8, b: u8, c: u8)
    ensures
        gf_mul(gf_mul(a, b), c) == gf_mul(a, gf_mul(b, c)),
    decreases c,
{
    let ab = gf_mul(a, b);
    lemma_mul_step(ab, c);
    lemma_mul_step(b, c);
    lemma_mul_step(a, 0);
    lemma_pick_additive(c, 0, 0);
    if c != 0 {
        let h = c >> 1u8;
        let xb = xtime_spec(b);
        lemma_mul_commutative(a, xb);
        lemma_xtime_mul(b, a);
        lemma_mul_commutative(b, a);
        lemma_mul_associative(a, xb, h);
        lemma_mul_distributive(a, pick(c & 1u8 != 0, b), gf_mul(xb, h));
    }
}

/// One is the multiplicative identity.
pub proof fn lemma_mul_one(a: u8)
    ensures
        gf_mul(a, 1) == a,
        gf_mul(1, a) == a,
        gf_mul(a, 0) == 0,
        gf_mul(0, a) == 0,
{
    assert(gf_mul(a, 1) == a) by (bit_vector);
    lemma_mul_commutative(a, 1);
    lemma_mul_step(a, 0);
    lemma_mul_commutative(a, 0);
}

/// `x` raised to the `n`-th power by repeated multiplication.
pub open spec fn gpow(x: u8, n: nat) -> u8
    decreases n,
{
    if n == 0 {
        1
    } else {
        gf_mul(gpow(x, (n - 1) as nat), x)
    }
}

pub proof fn lemma_gpow_add(x: u8, m: nat, n: nat)
    ensures
        gpow(x, m + n) == gf_mul(gpow(x, m), gpow(x, n)),
    decreases n,
{
    if n == 0 {
        lemma_mul_one(gpow(x, m));
    } else {
        lemma_gpow_add(x, m, (n - 1) as nat);
        assert(m + n - 1 == m + (n - 1) as nat);
        lemma_mul_associative(gpow(x, m), gpow(x, (n - 1) as nat), x);
    }
}

pub proof fn lemma_gpow_mul(x: u8, m: nat, n: nat)
    ensures
        gpow(x, m * n) == gpow(gpow(x, m), n),
    decreases n,
{
    if n > 0 {
        lemma_gpow_mul(x, m, (n - 1) as nat);
        assert(m * n == m * (n - 1) as nat + m) by (nonlinear_arith)
            requires
                n > 0,
        ;
        lemma_gpow_add(x, m * (n - 1) as nat, m);
    } else {
        assert(m * n == 0) by (nonlinear_arith)
            requires
                n == 0,
        ;
    }
}

pub open spec fn sq(x: u8) -> u8 {
    gf_mul(x, x)
}

/// x^255 == 1 for nonzero x, along the chain x * x^2 * x^4 * ... * x^128.
proof fn lemma_pow255_chain(
    x: u8,
    s1: u8,
    s2: u8,
    s3: u8,
    s4: u8,
    s5: u8,
    s6: u8,
    s7: u8,
    m1: u8,
    m2: u8,
    m3: u8,
    m4: u8,
    m5: u8,
    m6: u8,
    m7: u8,
)
    by (bit_vector)
    requires
        x != 0,
        s1 == sq(x),
        s2 == sq(s1),
        s3 == sq(s2),
        s4 == sq(s3),
        s5 == sq(s4),
        s6 == sq(s5),
        s7 == sq(s6),
        m1 == gf_mul(x, s1),
        m2 == gf_mul(m1, s2),
        m3 == gf_mul(m2, s3),
        m4 == gf_mul(m3, s4),
        m5 == gf_mul(m4, s5),
        m6 == gf_mul(m5, s6),
        m7 == gf_mul(m6, s7),
    ensures
        m7 == 1,
{
}

pub proof fn lemma_gpow_small(y: u8)
    ensures
        gpow(y, 0) == 1,
        gpow(y, 1) == y,
        gpow(y, 2) == sq(y),
{
    lemma_mul_one(y);
    assert(gpow(y, 1) == gf_mul(gpow(y, 0), y));
    assert(gpow(y, 2) == gf_mul(gpow(y, 1), y));
}

proof fn lemma_gpow_double(x: u8, m: nat)
    ensures
        gpow(x, 2 * m) == sq(gpow(x, m)),
{
    lemma_gpow_mul(x, m, 2);
    assert(m * 2 == 2 * m);
    lemma_gpow_small(gpow(x, m));
}

/// Every nonzero element satisfies x^255 == 1.
pub proof fn lemma_fermat(x: u8)
    requires
        x != 0,
    ensures
        gpow(x, 255) == 1,
{
    lemma_gpow_small(x);
    lemma_gpow_double(x, 1);
    lemma_gpow_double(x, 2);
    lemma_gpow_double(x, 4);
    lemma_gpow_double(x, 8);
    lemma_gpow_double(x, 16);
    lemma_gpow_double(x, 32);
    lemma_gpow_double(x, 64);
    lemma_gpow_add(x, 1, 2);
    lemma_gpow_add(x, 3, 4);
    lemma_gpow_add(x, 7, 8);
    lemma_gpow_add(x, 15, 16);
    lemma_gpow_add(x, 31, 32);
    lemma_gpow_add(x, 63, 64);
    lemma_gpow_add(x, 127, 128);
    lemma_pow255_chain(
        x,
        gpow(x, 2),
        gpow(x, 4),
        gpow(x, 8),
        gpow(x, 16),
        gpow(x, 32),
        gpow(x, 64),
        gpow(x, 128),
        gpow(x, 3),
        gpow(x, 7),
        gpow(x, 15),
        gpow(x, 31),
        gpow(x, 63),
        gpow(x, 127),
        gpow(x, 255),
    );
}

/// The multiplicative inverse, x^254 (zero maps to zero).
pub open spec fn gf_inv(x: u8) -> u8 {
    gpow(x, 254)
}

pub proof fn lemma_inverse(x: u8)
    requires
        x != 0,
    ensures
        gf_mul(x, gf_inv(x)) == 1,
        gf_mul(gf_inv(x), x) == 1,
        gf_inv(x) != 0,
        gf_inv(gf_inv(x)) == x,
{
    lemma_fermat(x);
    lemma_gpow_add(x, 254, 1);
    lemma_gpow_small(x);
    lemma_mul_commutative(x, gf_inv(x));
    let y = gf_inv(x);
    if y == 0 {
        lemma_mul_one(x);
    }
    lemma_fermat(y);
    lemma_gpow_add(y, 254, 1);
    lemma_gpow_small(y);
    // inv(y) = inv(y) * (y * x) = (inv(y) * y) * x = x
    let z = gf_inv(y);
    lemma_mul_commutative(y, z);
    lemma_mul_associative(z, y, x);
    lemma_mul_one(z);
    lemma_mul_one(x);
}

pub proof fn lemma_gf_inv_zero()
    ensures
        gf_inv(0) == 0,
{
    lemma_gpow_add(0, 253, 1);
    lemma_gpow_small(0);
    lemma_mul_one(gpow(0, 253));
}

/// A product of nonzero elements is nonzero.
pub proof fn lemma_no_zero_divisors(a: u8, b: u8)
    requires
        a != 0,
        b != 0,
    ensures
        gf_mul(a, b) != 0,
{
    lemma_inverse(b);
    lemma_mul_associative(a, b, gf_inv(b));
    lemma_mul_one(a);
    lemma_mul_one(gf_inv(b));
}

/// `v` when `bit` is set, one otherwise.
pub open spec fn pick_or_one(bit: bool, v: u8) -> u8 {
    if bit {
        v
    } else {
        1u8
    }
}

/// 3^k != 1 for 0 < k < 255, along the binary expansion of `k`:
/// `s_i` is 3^(2^i) and `m_i` the product of the `s_j` for the set bits j <= i.
proof fn lemma_three_order_chain(
    k: u8,
    s1: u8,
    s2: u8,
    s3: u8,
    s4: u8,
    s5: u8,
    s6: u8,
    s7: u8,
    m0: u8,
    m1: u8,
    m2: u8,
    m3: u8,
    m4: u8,
    m5: u8,
    m6: u8,
    m7: u8,
)
    by (bit_vector)
    requires
        1 <= k <= 254,
        s1 == sq(3),
        s2 == sq(s1),
        s3 == sq(s2),
        s4 == sq(s3),
        s5 == sq(s4),
        s6 == sq(s5),
        s7 == sq(s6),
        m0 == pick_or_one(k & 0x01u8 != 0, 3),
        m1 == gf_mul(m0, pick_or_one(k & 0x02u8 != 0, s1)),
        m2 == gf_mul(m1, pick_or_one(k & 0x04u8 != 0, s2)),
        m3 == gf_mul(m2, pick_or_one(k & 0x08u8 != 0, s3)),
        m4 == gf_mul(m3, pick_or_one(k & 0x10u8 != 0, s4)),
        m5 == gf_mul(m4, pick_or_one(k & 0x20u8 != 0, s5)),
        m6 == gf_mul(m5, pick_or_one(k & 0x40u8 != 0, s6)),
        m7 == gf_mul(m6, pick_or_one(k & 0x80u8 != 0, s7)),
    ensures
        m7 != 1,
{
}

proof fn lemma_bits(k: u8)
    by (bit_vector)
    ensures
        k == (k & 0x01u8) + (k & 0x02u8) + (k & 0x04u8) + (k & 0x08u8) + (k & 0x10u8) + (k
            & 0x20u8) + (k & 0x40u8) + (k & 0x80u8),
        (k & 0x01u8) == 0 || (k & 0x01u8) == 0x01,
        (k & 0x02u8) == 0 || (k & 0x02u8) == 0x02,
        (k & 0x04u8) == 0 || (k & 0x04u8) == 0x04,
        (k & 0x08u8) == 0 || (k & 0x08u8) == 0x08,
        (k & 0x10u8) == 0 || (k & 0x10u8) == 0x10,
        (k & 0x20u8) == 0 || (k & 0x20u8) == 0x20,
        (k & 0x40u8) == 0 || (k & 0x40u8) == 0x40,
        (k & 0x80u8) == 0 || (k & 0x80u8) == 0x80,
{
}

/// x^(p + b) from x^p, where b is either 0 or the power of two `t` with x^t == s.
proof fn lemma_gpow_bit_step(x: u8, p: nat, b: nat, t: nat, s: u8, bit: bool)
    requires
        gpow(x, t) == s,
        bit ==> b == t,
        !bit ==> b == 0,
    ensures
        gpow(x, p + b) == gf_mul(gpow(x, p), pick_or_one(bit, s)),
{
    lemma_gpow_add(x, p, b);
    lemma_gpow_small(x);
}

/// 3 generates the multiplicative group: no power 3^k with 0 < k < 255 is one.
#[verifier::rlimit(100)]
#[verifier::spinoff_prover]
pub proof fn lemma_three_order(k: nat)
    requires
        1 <= k < 255,
    ensures
        gpow(3, k) != 1,
{
    let k8 = k as u8;
    lemma_bits(k8);
    lemma_gpow_small(3);
    lemma_gpow_double(3, 1);
    lemma_gpow_double(3, 2);
    lemma_gpow_double(3, 4);
    lemma_gpow_double(3, 8);
    lemma_gpow_double(3, 16);
    lemma_gpow_double(3, 32);
    lemma_gpow_double(3, 64);
    let b0 = (k8 & 0x01u8) as nat;
    let b1 = (k8 & 0x02u8) as nat;
    let b2 = (k8 & 0x04u8) as nat;
    let b3 = (k8 & 0x08u8) as nat;
    let b4 = (k8 & 0x10u8) as nat;
    let b5 = (k8 & 0x20u8) as nat;
    let b6 = (k8 & 0x40u8) as nat;
    let b7 = (k8 & 0x80u8) as nat;
    lemma_gpow_bit_step(3, 0, b0, 1, 3, k8 & 0x01u8 != 0);
    lemma_mul_one(pick_or_one(k8 & 0x01u8 != 0, 3));
    lemma_gpow_bit_step(3, b0, b1, 2, gpow(3, 2), k8 & 0x02u8 != 0);
    lemma_gpow_bit_step(3, b0 + b1, b2, 4, gpow(3, 4), k8 & 0x04u8 != 0);
    lemma_gpow_bit_step(3, b0 + b1 + b2, b3, 8, gpow(3, 8), k8 & 0x08u8 != 0);
    lemma_gpow_bit_step(3, b0 + b1 + b2 + b3, b4, 16, gpow(3, 16), k8 & 0x10u8 != 0);
    lemma_gpow_bit_step(3, b0 + b1 + b2 + b3 + b4, b5, 32, gpow(3, 32), k8 & 0x20u8 != 0);
    lemma_gpow_bit_step(3, b0 + b1 + b2 + b3 + b4 + b5, b6, 64, gpow(3, 64), k8 & 0x40u8 != 0);
    lemma_gpow_bit_step(
        3,
        b0 + b1 + b2 + b3 + b4 + b5 + b6,
        b7,
        128,
        gpow(3, 128),
        k8 & 0x80u8 != 0,
    );
    lemma_three_order_chain(
        k8,
        gpow(3, 2),
        gpow(3, 4),
        gpow(3, 8),
        gpow(3, 16),
        gpow(3, 32),
        gpow(3, 64),
        gpow(3, 128),
        gpow(3, b0),
        gpow(3, b0 + b1),
        gpow(3, b0 + b1 + b2),
        gpow(3, b0 + b1 + b2 + b3),
        gpow(3, b0 + b1 + b2 + b3 + b4),
        gpow(3, b0 + b1 + b2 + b3 + b4 + b5),
        gpow(3, b0 + b1 + b2 + b3 + b4 + b5 + b6),
        gpow(3, k),
    );
}

/// Every power of a nonzero element is nonzero.
pub proof fn lemma_gpow_nonzero(x: u8, n: nat)
    requires
        x != 0,
    ensures
        gpow(x, n) != 0,
    decreases n,
{
    if n > 0 {
        lemma_gpow_nonzero(x, (n - 1) as nat);
        lemma_no_zero_divisors(gpow(x, (n - 1) as nat), x);
    }
}

/// The powers 3^0, ..., 3^254 are pairwise distinct.
pub proof fn lemma_three_powers_distinct(i: nat, j: nat)
    requires
        i < j < 255,
    ensures
        gpow(3, i) != gpow(3, j),
{
    let a = gpow(3, i);
    let c = gpow(3, (j - i) as nat);
    lemma_gpow_add(3, i, (j - i) as nat);
    assert(i + (j - i) as nat == j);
    lemma_gpow_nonzero(3, i);
    lemma_three_order((j - i) as nat);
    if a == gpow(3, j) {
        lemma_inverse(a);
        lemma_mul_associative(gf_inv(a), a, c);
        lemma_mul_one(c);
    }
}

/// Every nonzero byte is a power 3^i with i < 255.
pub proof fn lemma_three_powers_cover(x: u8)
    requires
        x != 0,
    ensures
        exists|i: int| 0 <= i < 255 && #[trigger] gpow(3, i as nat) == x,
{
    let dom = set_int_range(0, 255);
    let f = |i: int| gpow(3, i as nat) as int;
    let img = dom.map(f);
    let nonzero = set_int_range(1, 256);
    lemma_int_range(0, 255);
    lemma_int_range(1, 256);
    assert forall|i1: int, i2: int|
        dom.contains(i1) && dom.contains(i2) && #[trigger] f(i1) == #[trigger] f(i2) implies i1
        == i2 by {
        if i1 < i2 {
            lemma_three_powers_distinct(i1 as nat, i2 as nat);
        } else if i2 < i1 {
            lemma_three_powers_distinct(i2 as nat, i1 as nat);
        }
    }
    assert(injective_on(f, dom));
    lemma_map_size(dom, img, f);
    assert forall|v: int| img.contains(v) implies nonzero.contains(v) by {
        let i = choose|i: int| dom.contains(i) && f(i) == v;
        lemma_gpow_nonzero(3, i as nat);
    }
    lemma_subset_equality(img, nonzero);
    assert(nonzero.contains(x as int));
    assert(img.contains(x as int));
    let i = choose|i: int| dom.contains(i) && f(i) == x as int;
    assert(0 <= i < 255 && gpow(3, i as nat) == x);
}

} // verus!
