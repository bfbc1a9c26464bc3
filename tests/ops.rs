use eth_pairing_py::error::PrecompileError;
use eth_pairing_py::ops::{curve_add, curve_mul, decode_point, pairing_check, pairing_verdict};

const P_LOW: u128 = 0x97816a916871ca8d3c208c16d87cfd47;
const P_HIGH: u128 = 0x30644e72e131a029b85045b68181585d;

fn generator() -> Vec<u128> {
    vec![1, 0, 2, 0]
}

fn negated_generator() -> Vec<u128> {
    vec![1, 0, P_LOW - 2, P_HIGH]
}

fn infinity() -> Vec<u128> {
    vec![0; 4]
}

/// The G2 generator, imaginary part of each coordinate first.
fn g2_generator() -> Vec<u128> {
    vec![
        0xf1aa493335a9e71297e485b7aef312c2,
        0x198e9393920d483a7260bfb731fb5d25,
        0x674322d4f75edadd46debd5cd992f6ed,
        0x1800deef121f1e76426a00665e5c4479,
        0xbc4b313370b38ef355acdadcd122975b,
        0x090689d0585ff075ec9e99ad690c3395,
        0xe3d1e7690c43d37b4ce6cc0166fa7daa,
        0x12c85ea5db8c6deb4aab71808dcb408f,
    ]
}

fn term(g1: Vec<u128>, g2: Vec<u128>) -> Vec<u128> {
    let mut t = g1;
    t.extend(g2);
    t
}

#[test]
fn it_works() {
    let a: Vec<u128> = vec![0 as u128; 4];
    let b: Vec<u128> = vec![0 as u128; 4];
    let c = curve_add(a, b);
    assert!(c.is_ok());
}

#[test]
fn infinity_plus_infinity_is_infinity() {
    assert_eq!(curve_add(infinity(), infinity()), Ok(infinity()));
}

#[test]
fn adding_infinity_keeps_the_point() {
    assert_eq!(curve_add(generator(), infinity()), Ok(generator()));
    assert_eq!(curve_add(infinity(), generator()), Ok(generator()));
}

#[test]
fn doubling_the_generator() {
    let expected = vec![
        0xd97816a916871ca8d3c208c16d87cfd3,
        0x030644e72e131a029b85045b68181585,
        0x68a6a449e3538fc7ff3ebf7a5a18a2c4,
        0x15ed738c0e0a7c92e7845f96b2ae9c0a,
    ];
    assert_eq!(curve_add(generator(), generator()), Ok(expected.clone()));
    assert_eq!(curve_mul(generator(), vec![2, 0, 0, 0]), Ok(expected));
}

#[test]
fn addition_commutes() {
    let double = curve_add(generator(), generator()).unwrap();
    let left = curve_add(generator(), double.clone());
    let right = curve_add(double, generator());
    assert!(left.is_ok());
    assert_eq!(left, right);
}

#[test]
fn point_plus_its_negation_is_infinity() {
    assert_eq!(curve_add(generator(), negated_generator()), Ok(infinity()));
}

#[test]
fn scalar_zero_gives_infinity() {
    assert_eq!(curve_mul(generator(), vec![0, 0, 0, 0]), Ok(infinity()));
}

#[test]
fn scalar_one_keeps_the_point() {
    assert_eq!(curve_mul(generator(), vec![1, 0, 0, 0]), Ok(generator()));
}

#[test]
fn scalar_upper_limbs_are_ignored() {
    assert_eq!(curve_mul(generator(), vec![1, 0, 7, 9]), Ok(generator()));
}

#[test]
fn trivial_pairing_holds() {
    assert_eq!(pairing_check(vec![0; 24]), Ok(true));
}

#[test]
fn pairing_with_negated_point_holds() {
    let mut pairs = term(generator(), g2_generator());
    pairs.extend(term(negated_generator(), g2_generator()));
    assert_eq!(pairing_check(pairs), Ok(true));
}

#[test]
fn pairing_of_generator_twice_fails() {
    let mut pairs = term(generator(), g2_generator());
    pairs.extend(term(generator(), g2_generator()));
    assert_eq!(pairing_check(pairs), Ok(false));
}

#[test]
fn short_point_is_a_size_error() {
    assert_eq!(curve_add(vec![1, 0, 2], infinity()), Err(PrecompileError::Size));
    assert_eq!(curve_add(infinity(), vec![]), Err(PrecompileError::Size));
    assert_eq!(curve_add(vec![0; 5], infinity()), Err(PrecompileError::Size));
}

#[test]
fn short_mul_operands_are_a_size_error() {
    assert_eq!(curve_mul(vec![1, 0, 2], vec![1, 0, 0, 0]), Err(PrecompileError::Size));
    assert_eq!(curve_mul(generator(), vec![1, 0]), Err(PrecompileError::Size));
}

#[test]
fn short_pairing_input_is_a_size_error() {
    assert_eq!(pairing_check(vec![0; 23]), Err(PrecompileError::Size));
    assert_eq!(pairing_check(vec![]), Err(PrecompileError::Size));
}

#[test]
fn point_off_the_curve_is_a_curve_error() {
    let off = vec![1, 0, 1, 0];
    assert_eq!(curve_add(off.clone(), infinity()), Err(PrecompileError::Curve));
    assert_eq!(curve_add(generator(), off.clone()), Err(PrecompileError::Curve));
    assert_eq!(curve_mul(off.clone(), vec![2, 0, 0, 0]), Err(PrecompileError::Curve));
    let mut pairs = term(off, g2_generator());
    pairs.extend(term(generator(), g2_generator()));
    assert_eq!(pairing_check(pairs), Err(PrecompileError::Curve));
}

#[test]
fn decode_point_reads_both_coordinates() {
    let mut out = vec![0u8; 64];
    out[31] = 1;
    out[32] = 0x40;
    out[63] = 2;
    assert_eq!(decode_point(&out), Ok(vec![1, 0, 2, 1u128 << 126]));
}

#[test]
fn decode_point_rejects_wrong_length() {
    assert_eq!(decode_point(&vec![0u8; 63]), Err(PrecompileError::Encoding));
    assert_eq!(decode_point(&vec![0u8; 96]), Err(PrecompileError::Encoding));
}

#[test]
fn pairing_verdict_reads_the_last_byte() {
    assert_eq!(pairing_verdict(&vec![1]), Ok(true));
    assert_eq!(pairing_verdict(&vec![0]), Ok(false));
    let mut word = vec![0u8; 32];
    word[31] = 1;
    assert_eq!(pairing_verdict(&word), Ok(true));
    word[31] = 0;
    word[0] = 1;
    assert_eq!(pairing_verdict(&word), Ok(false));
}

#[test]
fn pairing_verdict_rejects_empty_output() {
    assert_eq!(pairing_verdict(&vec![]), Err(PrecompileError::Encoding));
}
