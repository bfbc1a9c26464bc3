//! The three curve operations: limbs in, engine request, engine answer, limbs out.
use vstd::arithmetic::div_mod::lemma_fundamental_div_mod_converse;
use vstd::prelude::*;

use crate::codec::{
    be_bytes, be_value, field_bytes, lemma_be_length, lemma_be_value_of_bytes, lemma_pow256_values,
    lemma_round_trip, limb_base, limbs_value, pow256, read_element,
};
use crate::engine::{engine_answer, run_engine};
use crate::error::PrecompileError;
use crate::layout::{
    add_bytes, add_request, elements_bytes, g1_request, mul_bytes, mul_request, pair_buffer,
    pair_bytes, pairing_request, pairing_request_for, lemma_elements_length, OP_G1_ADD, OP_G1_MUL,
    ORDER_HIGH, ORDER_LOW,
};
use crate::scalar::group_order;

verus! {

/// `v` holds the point whose two coordinates the 64 bytes `out` encode: `[x_low, x_high, y_low, y_high]`.
pub open spec fn point_of(out: Seq<u8>, v: Seq<u128>) -> bool {
    v.len() == 4 && elements_bytes(v, 2) == out
}

/// At most one limb array holds the point that given output bytes encode.
pub proof fn lemma_point_of_unique(out: Seq<u8>, v: Seq<u128>, w: Seq<u128>)
    requires
        point_of(out, v),
        point_of(out, w),
    ensures
        v == w,
{
    reveal_with_fuel(elements_bytes, 3);
    lemma_round_trip(v[0], v[1]);
    lemma_round_trip(v[2], v[3]);
    lemma_round_trip(w[0], w[1]);
    lemma_round_trip(w[2], w[3]);
    let vx = field_bytes(v[0], v[1]);
    let wx = field_bytes(w[0], w[1]);
    let vy = field_bytes(v[2], v[3]);
    let wy = field_bytes(w[2], w[3]);
    assert(vx =~= out.subrange(0, 32));
    assert(wx =~= out.subrange(0, 32));
    assert(vy =~= out.subrange(32, 64));
    assert(wy =~= out.subrange(32, 64));
    assert(v =~= w);
}

/// What a point operation returns for the engine's answer `answer`: a curve error where the
/// engine rejected the request, an encoding error where its output is not two field elements,
/// and otherwise the point it encodes.
pub open spec fn point_outcome(answer: Option<Seq<u8>>, r: Result<Vec<u128>, PrecompileError>) -> bool {
    match answer {
        None => match r {
            Ok(_) => false,
            Err(e) => e == PrecompileError::Curve,
        },
        Some(out) => match r {
            Ok(v) => out.len() == 64 && point_of(out, v@),
            Err(e) => out.len() != 64 && e == PrecompileError::Encoding,
        },
    }
}

/// Two results that meet `point_outcome` for one engine answer are the same result.
pub proof fn lemma_point_outcome_unique(
    answer: Option<Seq<u8>>,
    r1: Result<Vec<u128>, PrecompileError>,
    r2: Result<Vec<u128>, PrecompileError>,
)
    requires
        point_outcome(answer, r1),
        point_outcome(answer, r2),
    ensures
        same_result(r1, r2),
{
    if let (Some(out), Ok(v), Ok(w)) = (answer, r1, r2) {
        lemma_point_of_unique(out, v@, w@);
    }
}

/// `r1` and `r2` are the same point, or the same error.
pub open spec fn same_result(r1: Result<Vec<u128>, PrecompileError>, r2: Result<Vec<u128>, PrecompileError>) -> bool {
    match (r1, r2) {
        (Ok(v), Ok(w)) => v@ == w@,
        (Err(e1), Err(e2)) => e1 == e2,
        _ => false,
    }
}

/// Scalars that agree modulo the group order give the same product: `curve_mul` sends the
/// engine the same request for both, so their results (stated by `curve_mul`'s contract as
/// `r1` and `r2`) are the same point or the same error.
pub proof fn lemma_mul_scalar_mod_order(
    pt: Seq<u128>,
    s1: Seq<u128>,
    s2: Seq<u128>,
    r1: Result<Vec<u128>, PrecompileError>,
    r2: Result<Vec<u128>, PrecompileError>,
)
    requires
        pt.len() == 4,
        s1.len() == 4,
        s2.len() == 4,
        limbs_value(s1[0], s1[1]) % group_order() == limbs_value(s2[0], s2[1]) % group_order(),
        point_outcome(engine_answer(g1_request(OP_G1_MUL, mul_bytes(pt, s1))), r1),
        point_outcome(engine_answer(g1_request(OP_G1_MUL, mul_bytes(pt, s2))), r2),
    ensures
        same_result(r1, r2),
{
    assert(mul_bytes(pt, s1) == mul_bytes(pt, s2));
    lemma_point_outcome_unique(engine_answer(g1_request(OP_G1_MUL, mul_bytes(pt, s1))), r1, r2);
}

/// The scalar that `curve_mul` hands to the engine is below the group order, for every
/// 256-bit input scalar: it is the 32-byte encoding of the input's value modulo the order.
pub proof fn lemma_mul_scalar_in_range(pt: Seq<u128>, sc: Seq<u128>)
    requires
        pt.len() == 4,
        sc.len() == 4,
    ensures
        mul_bytes(pt, sc).subrange(64, 96) == be_bytes(limbs_value(sc[0], sc[1]) % group_order(), 32),
        be_value(mul_bytes(pt, sc).subrange(64, 96)) < group_order(),
{
    let v = limbs_value(sc[0], sc[1]) % group_order();
    lemma_elements_length(pt, 2);
    lemma_be_length(v, 32);
    assert(mul_bytes(pt, sc).subrange(64, 96) =~= be_bytes(v, 32));
    lemma_be_value_of_bytes(v, 32);
    lemma_pow256_values();
    let b = limb_base();
    assert(pow256(32) == b * b) by {
        reveal_with_fuel(pow256, 33);
    }
    assert(group_order() < b * b) by (nonlinear_arith)
        requires
            group_order() == ORDER_HIGH as nat * b + ORDER_LOW as nat,
            ORDER_HIGH < b,
            ORDER_LOW < b,
    ;
    lemma_fundamental_div_mod_converse(v as int, (b * b) as int, 0, v as int);
}

/// What a pairing check returns for the engine's answer `answer`: a curve error where the
/// engine rejected the request, an encoding error where its output is empty, and otherwise
/// whether the least significant (last) byte of the output is non-zero.
pub open spec fn verdict_outcome(answer: Option<Seq<u8>>, r: Result<bool, PrecompileError>) -> bool {
    match answer {
        None => r == Err::<bool, PrecompileError>(PrecompileError::Curve),
        Some(out) => match r {
            Ok(b) => out.len() > 0 && b == (out.last() != 0),
            Err(e) => out.len() == 0 && e == PrecompileError::Encoding,
        },
    }
}

/// The point `[x_low, x_high, y_low, y_high]` whose coordinates the 64 bytes `out` encode.
pub fn decode_point(out: &Vec<u8>) -> (r: Result<Vec<u128>, PrecompileError>)
    ensures
        point_outcome(Some(out@), r),
{
    if out.len() != 64 {
        return Err(PrecompileError::Encoding);
    }
    let (x_low, x_high) = read_element(out.as_slice(), 0);
    let (y_low, y_high) = read_element(out.as_slice(), 32);
    let mut v: Vec<u128> = Vec::new();
    v.push(x_low);
    v.push(x_high);
    v.push(y_low);
    v.push(y_high);
    proof {
        reveal_with_fuel(elements_bytes, 3);
        assert(out@ =~= out@.subrange(0, 32) + out@.subrange(32, 64));
    }
    Ok(v)
}

/// Whether the engine's pairing output `out` says that the pairing-product equation holds.
pub fn pairing_verdict(out: &Vec<u8>) -> (r: Result<bool, PrecompileError>)
    ensures
        verdict_outcome(Some(out@), r),
{
    if out.len() == 0 {
        return Err(PrecompileError::Encoding);
    }
    Ok(out[out.len() - 1] != 0)
}

/// The sum `a + b` of two G1 points, each `[x_low, x_high, y_low, y_high]`, with `[0, 0, 0, 0]`
/// standing for the point at infinity.
pub fn curve_add(a: Vec<u128>, b: Vec<u128>) -> (r: Result<Vec<u128>, PrecompileError>)
    ensures
        a@.len() != 4 || b@.len() != 4 ==> r == Err::<Vec<u128>, PrecompileError>(PrecompileError::Size),
        a@.len() == 4 && b@.len() == 4 ==> point_outcome(
            engine_answer(g1_request(OP_G1_ADD, add_bytes(a@, b@))),
            r,
        ),
{
    if a.len() != 4 || b.len() != 4 {
        return Err(PrecompileError::Size);
    }
    let request = add_request(&a, &b);
    match run_engine(&request) {
        None => Err(PrecompileError::Curve),
        Some(out) => decode_point(&out),
    }
}

/// The multiple `sc * pt` of the G1 point `pt` (`[x_low, x_high, y_low, y_high]`); the scalar is
/// `[low, high, _, _]`: of its four limbs the first two are read, and any 256-bit value is taken,
/// reduced modulo the group order.
pub fn curve_mul(pt: Vec<u128>, sc: Vec<u128>) -> (r: Result<Vec<u128>, PrecompileError>)
    ensures
        pt@.len() != 4 || sc@.len() != 4 ==> r == Err::<Vec<u128>, PrecompileError>(PrecompileError::Size),
        pt@.len() == 4 && sc@.len() == 4 ==> point_outcome(
            engine_answer(g1_request(OP_G1_MUL, mul_bytes(pt@, sc@))),
            r,
        ),
{
    if pt.len() != 4 || sc.len() != 4 {
        return Err(PrecompileError::Size);
    }
    let request = mul_request(&pt, &sc);
    match run_engine(&request) {
        None => Err(PrecompileError::Curve),
        Some(out) => decode_point(&out),
    }
}

/// Whether the two-term pairing-product equation holds. `pairs` is 24 limbs: twelve field
/// elements, six per term: `g1.x, g1.y, g2.x0, g2.x1, g2.y0, g2.y1`.
pub fn pairing_check(pairs: Vec<u128>) -> (r: Result<bool, PrecompileError>)
    ensures
        pairs@.len() != 24 ==> r == Err::<bool, PrecompileError>(PrecompileError::Size),
        pairs@.len() == 24 ==> verdict_outcome(engine_answer(pairing_request(pair_bytes(pairs@))), r),
{
    if pairs.len() != 24 {
        return Err(PrecompileError::Size);
    }
    let buf = pair_buffer(&pairs);
    proof {
        crate::layout::lemma_elements_length(pairs@, 12);
    }
    let request = pairing_request_for(&buf);
    match run_engine(&request) {
        None => Err(PrecompileError::Curve),
        Some(out) => pairing_verdict(&out),
    }
}

} // verus!
