use eth_pairing_py::layout::{ORDER_HIGH, ORDER_LOW};
use eth_pairing_py::ops::curve_mul;
use eth_pairing_py::scalar::reduce_scalar;

fn generator() -> Vec<u128> {
    vec![1, 0, 2, 0]
}

#[test]
fn reduce_keeps_small_scalars() {
    assert_eq!(reduce_scalar(0, 0), (0, 0));
    assert_eq!(reduce_scalar(7, 0), (7, 0));
    assert_eq!(reduce_scalar(ORDER_LOW - 1, ORDER_HIGH), (ORDER_LOW - 1, ORDER_HIGH));
}

#[test]
fn reduce_order_is_zero() {
    assert_eq!(reduce_scalar(ORDER_LOW, ORDER_HIGH), (0, 0));
}

#[test]
fn reduce_order_plus_one_is_one() {
    assert_eq!(reduce_scalar(ORDER_LOW + 1, ORDER_HIGH), (1, 0));
}

#[test]
fn reduce_borrows_from_the_high_limb() {
    // (ORDER_HIGH + 1) * 2^128 minus r leaves 2^128 - ORDER_LOW in the low limb.
    let (low, high) = reduce_scalar(0, ORDER_HIGH + 1);
    assert_eq!((low, high), (0u128.wrapping_sub(ORDER_LOW), 0));
}

#[test]
fn reduce_largest_scalar() {
    assert_eq!(
        reduce_scalar(u128::MAX, u128::MAX),
        (0x36fc76959f60cd29ac96341c4ffffffa, 0x0e0a77c19a07df2f666ea36f7879462e)
    );
}

#[test]
fn order_times_point_is_infinity() {
    assert_eq!(curve_mul(generator(), vec![ORDER_LOW, ORDER_HIGH, 0, 0]), Ok(vec![0, 0, 0, 0]));
}

#[test]
fn order_plus_one_times_point_is_the_point() {
    assert_eq!(curve_mul(generator(), vec![ORDER_LOW + 1, ORDER_HIGH, 0, 0]), Ok(generator()));
}

#[test]
fn largest_scalar_is_accepted() {
    let big = curve_mul(generator(), vec![u128::MAX, u128::MAX, 0, 0]);
    let reduced = curve_mul(
        generator(),
        vec![0x36fc76959f60cd29ac96341c4ffffffa, 0x0e0a77c19a07df2f666ea36f7879462e, 0, 0],
    );
    assert!(big.is_ok());
    assert_eq!(big, reduced);
}
