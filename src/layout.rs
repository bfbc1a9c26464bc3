//! The byte buffers of the three operations, and the requests that carry them to the engine.
//!
//! The operands are laid out as the EIP-196/197 precompiles take them. The engine's request
//! adds an operation code and a description of BN254 in front of them (EIP-1962 framing).
use vstd::prelude::*;

use crate::codec::{be_bytes, encode, field_bytes, lemma_be_length, limbs_value};
use crate::scalar::{group_order, reduce_scalar};

verus! {

/// Operation code of a G1 point addition.
pub const OP_G1_ADD: u8 = 1;

/// Operation code of a G1 scalar multiplication.
pub const OP_G1_MUL: u8 = 2;

/// Operation code of a pairing-product check.
pub const OP_PAIRING: u8 = 7;

/// Curve family code of a BN curve.
pub const CURVE_BN: u8 = 2;

/// Bytes in one base field element, and in the group order.
pub const FIELD_LENGTH: u8 = 32;

/// Twist type code of a D-type twist.
pub const TWIST_D: u8 = 2;

/// Sign code of a non-negative curve parameter.
pub const SIGN_PLUS: u8 = 0;

/// Pairing terms in a pairing-product check.
pub const PAIRING_TERMS: u8 = 2;

/// Low limb of the base field modulus p.
pub const MODULUS_LOW: u128 = 0x97816a916871ca8d3c208c16d87cfd47;

/// High limb of the base field modulus p.
pub const MODULUS_HIGH: u128 = 0x30644e72e131a029b85045b68181585d;

/// Low limb of p - 1, which stands for -1: the quadratic non-residue of the base field.
pub const MINUS_ONE_LOW: u128 = 0x97816a916871ca8d3c208c16d87cfd46;

/// Low limb of the group order r.
pub const ORDER_LOW: u128 = 0x2833e84879b9709143e1f593f0000001;

/// High limb of the group order r.
pub const ORDER_HIGH: u128 = 0x30644e72e131a029b85045b68181585d;

/// The coefficient b of y^2 = x^3 + b.
pub const CURVE_B: u128 = 3;

/// The encoding of the first `k` field elements of `limbs`, two limbs each, in order.
pub open spec fn elements_bytes(limbs: Seq<u128>, k: nat) -> Seq<u8>
    decreases k,
{
    if k == 0 {
        Seq::empty()
    } else {
        elements_bytes(limbs, (k - 1) as nat) + field_bytes(limbs[2 * k - 2], limbs[2 * k - 1])
    }
}

/// The 128 bytes of an addition: `a.x`, `a.y`, `b.x`, `b.y`.
pub open spec fn add_bytes(a: Seq<u128>, b: Seq<u128>) -> Seq<u8> {
    elements_bytes(a, 2) + elements_bytes(b, 2)
}

/// The 96 bytes of a multiplication: `pt.x`, `pt.y`, then the scalar from the first two limbs
/// of `sc`, reduced modulo the group order.
pub open spec fn mul_bytes(pt: Seq<u128>, sc: Seq<u128>) -> Seq<u8> {
    elements_bytes(pt, 2) + be_bytes(limbs_value(sc[0], sc[1]) % group_order(), 32)
}

/// The 384 bytes of a pairing check: the twelve field elements of `pairs`, in order.
pub open spec fn pair_bytes(pairs: Seq<u128>) -> Seq<u8> {
    elements_bytes(pairs, 12)
}

/// BN254 as the engine reads it for G1 operations: field length, modulus, a, b,
/// order length, order.
pub open spec fn g1_curve() -> Seq<u8> {
    seq![FIELD_LENGTH] + field_bytes(MODULUS_LOW, MODULUS_HIGH) + field_bytes(0, 0) + field_bytes(
        CURVE_B,
        0,
    ) + seq![FIELD_LENGTH] + field_bytes(ORDER_LOW, ORDER_HIGH)
}

/// A G1 request: the operation code, the curve, then the operands.
pub open spec fn g1_request(op: u8, operands: Seq<u8>) -> Seq<u8> {
    seq![op] + g1_curve() + operands
}

/// BN254 as the engine reads it for a pairing: the family, the G1 curve, the non-residues
/// -1 (for Fp2) and 9 + i (for Fp6), a D-type twist, and u = 0x44e992b44a6909f1 with its sign.
pub open spec fn bn_pairing_curve() -> Seq<u8> {
    seq![CURVE_BN] + g1_curve() + field_bytes(MINUS_ONE_LOW, MODULUS_HIGH) + field_bytes(9, 0)
        + field_bytes(1, 0) + seq![TWIST_D, 8, 0x44, 0xe9, 0x92, 0xb4, 0x4a, 0x69, 0x09, 0xf1, SIGN_PLUS]
}

/// Where byte `i` of the engine's pair layout comes from in the precompile's layout: each
/// pairing term is six 32-byte elements, and the two halves of each G2 coordinate trade
/// places (the precompile writes the imaginary part first, the engine the real part).
pub open spec fn swapped_index(i: int) -> int {
    let k = (i / 32) % 6;
    if k == 2 || k == 4 {
        i + 32
    } else if k == 3 || k == 5 {
        i - 32
    } else {
        i
    }
}

/// The pairing terms of `buf` in the engine's order.
pub open spec fn engine_pair_order(buf: Seq<u8>) -> Seq<u8> {
    Seq::new(buf.len(), |i: int| buf[swapped_index(i)])
}

/// A pairing request for the terms in `buf` (laid out as the precompile takes them).
pub open spec fn pairing_request(buf: Seq<u8>) -> Seq<u8> {
    seq![OP_PAIRING] + bn_pairing_curve() + seq![PAIRING_TERMS] + engine_pair_order(buf)
}

pub proof fn lemma_elements_length(limbs: Seq<u128>, k: nat)
    ensures
        elements_bytes(limbs, k).len() == 32 * k,
    decreases k,
{
    if k > 0 {
        lemma_elements_length(limbs, (k - 1) as nat);
        lemma_be_length(crate::codec::limbs_value(limbs[2 * k - 2], limbs[2 * k - 1]), 32);
    }
}

fn push_element(out: &mut Vec<u8>, low: u128, high: u128)
    ensures
        final(out)@ == old(out)@ + field_bytes(low, high),
{
    let mut e = encode(low, high);
    out.append(&mut e);
}

/// Appends the encoding of the first `count` field elements of `limbs`.
fn push_elements(out: &mut Vec<u8>, limbs: &Vec<u128>, count: usize)
    requires
        count <= 12,
        2 * count <= limbs@.len(),
    ensures
        final(out)@ == old(out)@ + elements_bytes(limbs@, count as nat),
{
    let ghost start = old(out)@;
    let mut k: usize = 0;
    assert(out@ =~= start + elements_bytes(limbs@, 0));
    while k < count
        invariant
            k <= count,
            count <= 12,
            2 * count <= limbs@.len(),
            out@ == start + elements_bytes(limbs@, k as nat),
        decreases count - k,
    {
        push_element(out, limbs[2 * k], limbs[2 * k + 1]);
        assert(out@ =~= start + elements_bytes(limbs@, (k + 1) as nat));
        k = k + 1;
    }
}

fn push_g1_curve(out: &mut Vec<u8>)
    ensures
        final(out)@ == old(out)@ + g1_curve(),
{
    let ghost start = old(out)@;
    out.push(FIELD_LENGTH);
    push_element(out, MODULUS_LOW, MODULUS_HIGH);
    push_element(out, 0, 0);
    push_element(out, CURVE_B, 0);
    out.push(FIELD_LENGTH);
    push_element(out, ORDER_LOW, ORDER_HIGH);
    assert(out@ =~= start + g1_curve());
}

/// The engine request of `curve_add` on two points of four limbs each.
pub fn add_request(a: &Vec<u128>, b: &Vec<u128>) -> (r: Vec<u8>)
    requires
        a@.len() == 4,
        b@.len() == 4,
    ensures
        r@ == g1_request(OP_G1_ADD, add_bytes(a@, b@)),
{
    let mut out: Vec<u8> = Vec::new();
    out.push(OP_G1_ADD);
    push_g1_curve(&mut out);
    push_elements(&mut out, a, 2);
    push_elements(&mut out, b, 2);
    assert(out@ =~= g1_request(OP_G1_ADD, add_bytes(a@, b@)));
    out
}

/// The engine request of `curve_mul` on a point of four limbs and a scalar of four limbs,
/// of which the first two are read; the scalar goes out reduced modulo the group order.
pub fn mul_request(pt: &Vec<u128>, sc: &Vec<u128>) -> (r: Vec<u8>)
    requires
        pt@.len() == 4,
        sc@.len() == 4,
    ensures
        r@ == g1_request(OP_G1_MUL, mul_bytes(pt@, sc@)),
{
    let mut out: Vec<u8> = Vec::new();
    out.push(OP_G1_MUL);
    push_g1_curve(&mut out);
    push_elements(&mut out, pt, 2);
    let (low, high) = reduce_scalar(sc[0], sc[1]);
    push_element(&mut out, low, high);
    assert(out@ =~= g1_request(OP_G1_MUL, mul_bytes(pt@, sc@)));
    out
}

/// The 384-byte buffer of a pairing check on 24 limbs.
pub fn pair_buffer(pairs: &Vec<u128>) -> (r: Vec<u8>)
    requires
        pairs@.len() == 24,
    ensures
        r@ == pair_bytes(pairs@),
{
    let mut out: Vec<u8> = Vec::new();
    push_elements(&mut out, pairs, 12);
    assert(out@ =~= pair_bytes(pairs@));
    out
}

/// The engine request of a pairing check on the 384-byte buffer `buf`.
pub fn pairing_request_for(buf: &Vec<u8>) -> (r: Vec<u8>)
    requires
        buf@.len() == 384,
    ensures
        r@ == pairing_request(buf@),
{
    let mut out: Vec<u8> = Vec::new();
    out.push(OP_PAIRING);
    out.push(CURVE_BN);
    push_g1_curve(&mut out);
    push_element(&mut out, MINUS_ONE_LOW, MODULUS_HIGH);
    push_element(&mut out, 9, 0);
    push_element(&mut out, 1, 0);
    out.push(TWIST_D);
    out.push(8);
    out.push(0x44);
    out.push(0xe9);
    out.push(0x92);
    out.push(0xb4);
    out.push(0x4a);
    out.push(0x69);
    out.push(0x09);
    out.push(0xf1);
    out.push(SIGN_PLUS);
    out.push(PAIRING_TERMS);
    let ghost prefix = out@;
    assert(prefix =~= seq![OP_PAIRING] + bn_pairing_curve() + seq![PAIRING_TERMS]);
    let mut i: usize = 0;
    while i < 384
        invariant
            i <= 384,
            buf@.len() == 384,
            out@ == prefix + Seq::new(i as nat, |j: int| buf@[swapped_index(j)]),
        decreases 384 - i,
    {
        let k: usize = (i / 32) % 6;
        let from: usize = if k == 2 || k == 4 {
            i + 32
        } else if k == 3 || k == 5 {
            i - 32
        } else {
            i
        };
        out.push(buf[from]);
        assert(out@ =~= prefix + Seq::new((i + 1) as nat, |j: int| buf@[swapped_index(j)]));
        i = i + 1;
    }
    assert(out@ =~= pairing_request(buf@));
    out
}

} // verus!
