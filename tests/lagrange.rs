use honest::galois_fields::{gf256_add, gf256_mul};
use honest::lagrange::lagrange_interpolate_at_zero;

#[test]
fn test_lagrange_interpolate_single_share() {
    let shares = vec![(5u8, 123u8)];
    assert_eq!(lagrange_interpolate_at_zero(&shares), 123);
}

#[test]
fn test_lagrange_interpolate_two_shares_linear() {
    let p = |x: u8| gf256_add(42, gf256_mul(3, x));
    let shares = vec![(1, p(1)), (2, p(2))];
    let result = lagrange_interpolate_at_zero(&shares);
    assert_eq!(result, 42);
}

#[test]
fn test_lagrange_interpolate_three_shares_quadratic() {
    let x_vals = [1u8, 2, 3];
    let mut shares = Vec::new();
    for &x in &x_vals {
        let x2 = gf256_mul(x, x);
        let y = gf256_add(gf256_add(gf256_mul(7, x2), gf256_mul(5, x)), 200);
        shares.push((x, y));
    }
    let result = lagrange_interpolate_at_zero(&shares);
    assert_eq!(result, 200);
}

#[test]
fn test_lagrange_interpolate_order_independence() {
    let shares = vec![(1, 55), (2, 55), (3, 55)];
    let mut reversed = shares.clone();
    reversed.reverse();
    let s1 = lagrange_interpolate_at_zero(&shares);
    let s2 = lagrange_interpolate_at_zero(&reversed);
    assert_eq!(s1, 55);
    assert_eq!(s2, 55);
}

#[test]
fn two_shares_reversed_give_the_same_secret() {
    let p = |x: u8| gf256_add(42, gf256_mul(3, x));
    let shares = vec![(1, p(1)), (2, p(2))];
    let reversed = vec![(2, p(2)), (1, p(1))];
    assert_eq!(lagrange_interpolate_at_zero(&shares), 42);
    assert_eq!(lagrange_interpolate_at_zero(&reversed), 42);
}

#[test]
fn single_share_gives_its_y_for_any_x() {
    for x in [0u8, 1, 2, 77, 255] {
        for y in [0u8, 1, 200, 255] {
            assert_eq!(lagrange_interpolate_at_zero(&[(x, y)]), y);
        }
    }
}

#[test]
fn empty_share_set_gives_zero() {
    assert_eq!(lagrange_interpolate_at_zero(&[]), 0);
}

#[test]
fn too_few_shares_give_a_different_value() {
    let p = |x: u8| gf256_add(gf256_add(gf256_mul(7, gf256_mul(x, x)), gf256_mul(5, x)), 200);
    let shares = vec![(1, p(1)), (2, p(2))];
    assert_ne!(lagrange_interpolate_at_zero(&shares), 200);
}
