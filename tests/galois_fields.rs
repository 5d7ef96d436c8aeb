use honest::galois_fields::{
    build_tables, call_add, call_exp, call_inv, call_mul, call_mul_ct, call_sub, generate_tables,
    gf256_add, gf256_div, gf256_exp, gf256_inv, gf256_mul, gf256_mul_ct, gf256_mul_fast,
    gf256_sub, is_valid_log_table, run_mul_opt, DomainError,
};

#[test]
fn test_gf256_add_sub() {
    for a in 0..=255u8 {
        for b in 0..=255u8 {
            assert_eq!(gf256_add(a, b), a ^ b);
            assert_eq!(gf256_sub(a, b), a ^ b);
            assert_eq!(gf256_add(a, b), gf256_sub(a, b));
        }
    }
}

#[test]
fn test_gf256_mul_basic() {
    assert_eq!(gf256_mul(0, 0), 0);
    assert_eq!(gf256_mul(0, 1), 0);
    assert_eq!(gf256_mul(1, 0), 0);
    assert_eq!(gf256_mul(1, 1), 1);
    assert_eq!(gf256_mul(1, 255), 255);
    assert_eq!(gf256_mul(255, 1), 255);
}

#[test]
fn test_gf256_mul_distributive() {
    for a in 1..=10u8 {
        for b in 1..=10u8 {
            for c in 1..=10u8 {
                let left = gf256_mul(a, gf256_add(b, c));
                let right = gf256_add(gf256_mul(a, b), gf256_mul(a, c));
                assert_eq!(left, right, "Distributive failed for a={}, b={}, c={}", a, b, c);
            }
        }
    }
}

#[test]
fn test_gf256_inv_and_div() {
    for a in 1..=255u8 {
        let inv = gf256_inv(a).unwrap();
        assert_eq!(gf256_mul(a, inv), 1, "a * inv(a) != 1 for a = {}", a);

        for b in 1..=255u8 {
            let div = gf256_div(a, b).unwrap();
            assert_eq!(gf256_mul(div, b), a, "a/b * b != a for a = {}, b = {}", a, b);
        }
    }
}

#[test]
fn inv_of_zero_is_a_domain_error() {
    assert_eq!(gf256_inv(0), Err(DomainError::ZeroHasNoInverse));
    assert_eq!(call_inv(0), Err(DomainError::ZeroHasNoInverse));
    assert_eq!(gf256_div(7, 0), Err(DomainError::ZeroHasNoInverse));
    assert_eq!(gf256_div(0, 0), Err(DomainError::ZeroHasNoInverse));
    assert_eq!(gf256_div(0, 9), Ok(0));
}

#[test]
fn test_gf256_exp_properties() {
    for base in 1..=10u8 {
        assert_eq!(gf256_exp(base, 0), 1);
        assert_eq!(gf256_exp(base, 1), base);
        assert_eq!(gf256_exp(base, 2), gf256_mul(base, base));
    }
}

#[test]
fn test_gf256_exp_fermat_identity() {
    for a in 1..=255u8 {
        assert_eq!(gf256_exp(a, 254), gf256_inv(a).unwrap());
    }
}

#[test]
fn is_mul_distributive() {
    let a = 13 as u8;
    let b = 16 as u8;
    let c = 73 as u8;
    assert_eq!(
        gf256_mul(a, gf256_add(b, c)),
        gf256_add(gf256_mul(a, b), gf256_mul(a, c))
    );
}

#[test]
fn is_add_associative() {
    let a = 13 as u8;
    let b = 16 as u8;
    let c = 73 as u8;
    assert_eq!(gf256_add(a, gf256_add(b, c)), gf256_add(gf256_add(a, b), c))
}

#[test]
fn is_mul_associative() {
    let a = 13 as u8;
    let b = 16 as u8;
    let c = 73 as u8;
    assert_eq!(gf256_mul(a, gf256_mul(b, c)), gf256_mul(gf256_mul(a, b), c));
}

#[test]
fn is_mul_commutative() {
    let a = 13 as u8;
    let b = 16 as u8;
    assert_eq!(gf256_mul(a, b), gf256_mul(b, a));
}

#[test]
fn add_is_xor_and_differs_from_integer_addition() {
    assert_eq!(call_add(1, 1), 0);
    assert_eq!(call_sub(1, 1), 0);
    assert_eq!(call_add(0x53, 0xCA), 0x99);
    assert_eq!(call_add(255, 255), 0);
}

#[test]
fn mul_known_answer() {
    assert_eq!(gf256_mul(0x57, 0x83), 0xC1);
    assert_eq!(call_mul(0x57, 0x83), 0xC1);
    assert_eq!(gf256_mul_ct(0x57, 0x83), 0xC1);
    assert_eq!(call_mul_ct(0x57, 0x13), 0xFE);
    assert_eq!(gf256_mul(0x53, 0xCA), 0x01);
}

#[test]
fn constant_time_mul_agrees_with_reference() {
    for a in 0..=255u8 {
        for b in 0..=255u8 {
            assert_eq!(gf256_mul_ct(a, b), gf256_mul(a, b));
        }
    }
}

#[test]
fn mul_laws_on_all_pairs_and_some_triples() {
    for a in 0..=255u8 {
        for b in 0..=255u8 {
            assert_eq!(gf256_mul(a, b), gf256_mul(b, a));
        }
    }
    for a in (0..=255u8).step_by(7) {
        for b in (0..=255u8).step_by(11) {
            for c in (0..=255u8).step_by(13) {
                assert_eq!(gf256_mul(a, gf256_mul(b, c)), gf256_mul(gf256_mul(a, b), c));
                assert_eq!(
                    gf256_mul(a, gf256_add(b, c)),
                    gf256_add(gf256_mul(a, b), gf256_mul(a, c))
                );
            }
        }
    }
}

#[test]
fn exp_values() {
    assert_eq!(call_exp(2, 8), 0x1B);
    assert_eq!(call_exp(3, 255), 1);
    assert_eq!(call_exp(0, 0), 1);
    assert_eq!(call_exp(0, 5), 0);
    assert_eq!(call_inv(0x53), Ok(0xCA));
}

#[test]
fn generated_tables_are_valid() {
    let (log, exp) = generate_tables();
    assert!(is_valid_log_table(log, exp));
    assert_eq!(exp[0], 1);
    assert_eq!(exp[1], 3);
    assert_eq!(exp[2], 5);
    assert_eq!(exp[255], 1);
    assert_eq!(log[3], 1);
    let mut broken = log;
    broken[7] = broken[7].wrapping_add(1);
    assert!(!is_valid_log_table(broken, exp));
}

#[test]
fn fast_mul_agrees_with_reference_on_all_pairs() {
    let tables = build_tables();
    assert!(is_valid_log_table(tables.log, tables.exp));
    for a in 0..=255u8 {
        for b in 0..=255u8 {
            assert_eq!(gf256_mul_fast(&tables, a, b), gf256_mul(a, b));
        }
    }
    assert_eq!(run_mul_opt(0x57, 0x83), 0xC1);
    assert_eq!(run_mul_opt(0, 0x83), 0);
}
