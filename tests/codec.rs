use eth_pairing_py::codec::{decode, encode};
use eth_pairing_py::error::PrecompileError;

#[test]
fn encode_one_is_big_endian() {
    let bytes = encode(1, 0);
    let mut expected = vec![0u8; 32];
    expected[31] = 1;
    assert_eq!(bytes, expected);
}

#[test]
fn encode_high_limb_comes_first() {
    let bytes = encode(0, 1);
    let mut expected = vec![0u8; 32];
    expected[15] = 1;
    assert_eq!(bytes, expected);
}

#[test]
fn encode_mixed_limbs() {
    let bytes = encode(0x0102030405060708090a0b0c0d0e0f10, 0x1112131415161718191a1b1c1d1e1f20);
    let expected: Vec<u8> = (0x11u8..=0x20).chain(0x01u8..=0x10).collect();
    assert_eq!(bytes, expected);
}

#[test]
fn encode_largest_value() {
    assert_eq!(encode(u128::MAX, u128::MAX), vec![0xffu8; 32]);
}

#[test]
fn decode_reads_big_endian() {
    let mut bytes = vec![0u8; 32];
    bytes[0] = 0x80;
    bytes[31] = 0x05;
    assert_eq!(decode(&bytes), Ok((5, 1u128 << 127)));
}

#[test]
fn round_trip_on_sample_limbs() {
    let samples: [(u128, u128); 5] = [
        (0, 0),
        (1, 0),
        (0, 1),
        (u128::MAX, u128::MAX),
        (0x97816a916871ca8d3c208c16d87cfd47, 0x30644e72e131a029b85045b68181585d),
    ];
    for (low, high) in samples {
        assert_eq!(decode(&encode(low, high)), Ok((low, high)));
    }
}

#[test]
fn decode_rejects_short_buffer() {
    assert_eq!(decode(&[0u8; 31]), Err(PrecompileError::Encoding));
}

#[test]
fn decode_rejects_long_buffer() {
    assert_eq!(decode(&[0u8; 33]), Err(PrecompileError::Encoding));
}
