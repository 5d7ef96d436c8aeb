use honest::aes_encrypt::aes_encrypt;
use honest::aes_round::{
    aes_round, get_rcon, mix_columns, mix_columns_dry, mix_columns_xtime, shift_rows, xtime,
};
use honest::expand_key::expand_key;
use honest::field_element::FieldElement;
use honest::s_box::{inv_s_box, is_sbox_inverse, s_box};

fn block(bytes: [u8; 16]) -> [FieldElement; 16] {
    let mut s = [FieldElement(0); 16];
    for i in 0..16 {
        s[i] = FieldElement(bytes[i]);
    }
    s
}

fn bytes(s: &[FieldElement; 16]) -> [u8; 16] {
    let mut b = [0u8; 16];
    for i in 0..16 {
        b[i] = s[i].0;
    }
    b
}

#[test]
fn s_box_0x01() {
    let v = s_box(FieldElement(0x01));
    assert_eq!(v.0, 0x7C)
}

#[test]
fn s_box_known_values() {
    assert_eq!(s_box(FieldElement(0x00)).0, 0x63);
    assert_eq!(s_box(FieldElement(0x53)).0, 0xED);
    assert_eq!(s_box(FieldElement(0xFF)).0, 0x16);
    assert_eq!(inv_s_box(FieldElement(0x63)).0, 0x00);
    assert_eq!(inv_s_box(FieldElement(0xED)).0, 0x53);
}

#[test]
fn inv_s_box_undoes_s_box_on_every_byte() {
    for x in 0..=255u8 {
        assert_eq!(inv_s_box(s_box(FieldElement(x))), FieldElement(x));
        assert!(is_sbox_inverse(x));
    }
}

#[test]
fn encrypt_zero_block_with_zero_key() {
    let expected = [
        0x66, 0xE9, 0x4B, 0xD4, 0xEF, 0x8A, 0x2C, 0x3B, 0x88, 0x4C, 0xFA, 0x59, 0xCA, 0x34, 0x2B,
        0x2E,
    ];
    assert_eq!(aes_encrypt([0u8; 16], [0u8; 16]), expected);
}

#[test]
fn encrypt_standard_example_vector() {
    let key = [
        0x00, 0x01, 0x02, 0x03, 0x04, 0x05, 0x06, 0x07, 0x08, 0x09, 0x0a, 0x0b, 0x0c, 0x0d, 0x0e,
        0x0f,
    ];
    let plain = [
        0x00, 0x11, 0x22, 0x33, 0x44, 0x55, 0x66, 0x77, 0x88, 0x99, 0xaa, 0xbb, 0xcc, 0xdd, 0xee,
        0xff,
    ];
    let expected = [
        0x69, 0xc4, 0xe0, 0xd8, 0x6a, 0x7b, 0x04, 0x30, 0xd8, 0xcd, 0xb7, 0x80, 0x70, 0xb4, 0xc5,
        0x5a,
    ];
    assert_eq!(aes_encrypt(plain, key), expected);
}

#[test]
fn key_schedule_of_standard_key() {
    let key = [
        0x2b, 0x7e, 0x15, 0x16, 0x28, 0xae, 0xd2, 0xa6, 0xab, 0xf7, 0x15, 0x88, 0x09, 0xcf, 0x4f,
        0x3c,
    ];
    let w = expand_key(key);
    assert_eq!(w.len(), 176);
    for i in 0..16 {
        assert_eq!(w[i].0, key[i]);
    }
    let w4 = [0xa0, 0xfa, 0xfe, 0x17];
    for j in 0..4 {
        assert_eq!(w[16 + j].0, w4[j]);
    }
    let last = [
        0xd0, 0x14, 0xf9, 0xa8, 0xc9, 0xee, 0x25, 0x89, 0xe1, 0x3f, 0x0c, 0xc8, 0xb6, 0x63, 0x0c,
        0xa6,
    ];
    for j in 0..16 {
        assert_eq!(w[160 + j].0, last[j]);
    }
}

#[test]
fn round_constants() {
    let expected = [0x01u8, 0x02, 0x04, 0x08, 0x10, 0x20, 0x40, 0x80, 0x1b, 0x36];
    for r in 1..=10usize {
        assert_eq!(get_rcon(r).0, expected[r - 1]);
    }
    assert_eq!(get_rcon(0).0, 0x01);
}

#[test]
fn xtime_doubles() {
    assert_eq!(xtime(FieldElement(0x57)).0, 0xAE);
    assert_eq!(xtime(FieldElement(0xAE)).0, 0x47);
    assert_eq!(xtime(FieldElement(0x80)).0, 0x1B);
}

#[test]
fn shift_rows_rotates_rows() {
    let mut s = block([0, 1, 2, 3, 4, 5, 6, 7, 8, 9, 10, 11, 12, 13, 14, 15]);
    shift_rows(&mut s);
    assert_eq!(bytes(&s), [0, 5, 10, 15, 4, 9, 14, 3, 8, 13, 2, 7, 12, 1, 6, 11]);
}

#[test]
fn mix_columns_known_column_and_variants_agree() {
    let input = [
        0xdb, 0x13, 0x53, 0x45, 0xf2, 0x0a, 0x22, 0x5c, 0x01, 0x01, 0x01, 0x01, 0xc6, 0xc6, 0xc6,
        0xc6,
    ];
    let expected = [
        0x8e, 0x4d, 0xa1, 0xbc, 0x9f, 0xdc, 0x58, 0x9d, 0x01, 0x01, 0x01, 0x01, 0xc6, 0xc6, 0xc6,
        0xc6,
    ];
    let mut a = block(input);
    let mut b = block(input);
    let mut c = block(input);
    mix_columns(&mut a);
    mix_columns_xtime(&mut b);
    mix_columns_dry(&mut c);
    assert_eq!(bytes(&a), expected);
    assert_eq!(bytes(&b), expected);
    assert_eq!(bytes(&c), expected);
}

#[test]
fn last_round_skips_mix_columns() {
    let key = block([0u8; 16]);
    let mut full = block([1u8; 16]);
    let mut last = block([1u8; 16]);
    aes_round(&mut full, &key, false);
    aes_round(&mut last, &key, true);
    let sub = s_box(FieldElement(1)).0;
    assert_eq!(bytes(&last), [sub; 16]);
    // A column of equal bytes is fixed by MixColumns (2 ^ 3 ^ 1 ^ 1 == 1).
    assert_eq!(bytes(&full), [sub; 16]);
    let mut other = block([0, 1, 2, 3, 4, 5, 6, 7, 8, 9, 10, 11, 12, 13, 14, 15]);
    let mut other_last = other;
    aes_round(&mut other, &key, false);
    aes_round(&mut other_last, &key, true);
    assert_ne!(bytes(&other), bytes(&other_last));
}
