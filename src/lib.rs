//! Elliptic-curve point addition, scalar multiplication and a pairing-product check
//! over the BN254 curve, taking and returning field elements as pairs of 128-bit limbs.
pub mod codec;
pub mod error;
pub mod engine;
pub mod layout;
pub mod ops;
pub mod scalar;
