//! Field elements as two 128-bit limbs, and their canonical 32-byte big-endian form.
use vstd::arithmetic::div_mod::{
    lemma_div_denominator, lemma_fundamental_div_mod, lemma_fundamental_div_mod_converse,
};
use vstd::prelude::*;

use crate::error::PrecompileError;

verus! {

/// 256 raised to the power `n`: how many values `n` bytes can hold.
pub open spec fn pow256(n: nat) -> nat
    decreases n,
{
    if n == 0 {
        1
    } else {
        256 * pow256((n - 1) as nat)
    }
}

/// One more than the largest limb, 2^128.
pub open spec fn limb_base() -> nat {
    pow256(16)
}

/// The 256-bit value of the field element `[low, high]`.
pub open spec fn limbs_value(low: u128, high: u128) -> nat {
    high as nat * limb_base() + low as nat
}

/// The unsigned integer that `s` spells, most significant byte first.
pub open spec fn be_value(s: Seq<u8>) -> nat
    decreases s.len(),
{
    if s.len() == 0 {
        0
    } else {
        be_value(s.drop_last()) * 256 + s.last() as nat
    }
}

/// The `n` least significant bytes of `v`, most significant first.
pub open spec fn be_bytes(v: nat, n: nat) -> Seq<u8>
    decreases n,
{
    if n == 0 {
        Seq::empty()
    } else {
        be_bytes(v / 256, (n - 1) as nat).push((v % 256) as u8)
    }
}

/// The canonical wire form of the field element `[low, high]`: 32 bytes, big-endian.
pub open spec fn field_bytes(low: u128, high: u128) -> Seq<u8> {
    be_bytes(limbs_value(low, high), 32)
}

/// Powers of 256 are positive.
pub proof fn lemma_pow256_positive(n: nat)
    ensures
        pow256(n) > 0,
    decreases n,
{
    if n > 0 {
        lemma_pow256_positive((n - 1) as nat);
    }
}

/// Powers of 256 grow with the exponent.
pub proof fn lemma_pow256_monotone(a: nat, b: nat)
    requires
        a <= b,
    ensures
        pow256(a) <= pow256(b),
    decreases b,
{
    if a < b {
        lemma_pow256_monotone(a, (b - 1) as nat);
        lemma_pow256_positive((b - 1) as nat);
    }
}

/// 256^15 = 2^120, and the limb base is one more than the largest `u128`.
pub proof fn lemma_pow256_values()
    ensures
        pow256(15) == 0x1000000000000000000000000000000,
        limb_base() == u128::MAX as nat + 1,
{
    reveal_with_fuel(pow256, 17);
}

/// `be_bytes(v, n)` is `n` bytes long.
pub proof fn lemma_be_length(v: nat, n: nat)
    ensures
        be_bytes(v, n).len() == n,
    decreases n,
{
    if n > 0 {
        lemma_be_length(v / 256, (n - 1) as nat);
    }
}

/// A value spelled in `n` bytes is below 256^n.
pub proof fn lemma_be_value_bound(s: Seq<u8>)
    ensures
        be_value(s) < pow256(s.len()),
    decreases s.len(),
{
    if s.len() > 0 {
        let t = s.drop_last();
        lemma_be_value_bound(t);
        let a = be_value(t);
        let p = pow256(t.len());
        let b = s.last() as nat;
        assert(a * 256 + b < p * 256) by (nonlinear_arith)
            requires
                a < p,
                b < 256,
        ;
    }
}

/// Reading `n` bytes of `v` gives back `v` modulo 256^n.
pub proof fn lemma_be_value_of_bytes(v: nat, n: nat)
    ensures
        be_value(be_bytes(v, n)) == v % pow256(n),
    decreases n,
{
    if n > 0 {
        let m = (n - 1) as nat;
        lemma_be_value_of_bytes(v / 256, m);
        lemma_pow256_positive(m);
        let s = be_bytes(v, n);
        assert(s.drop_last() =~= be_bytes(v / 256, m));
        let p = pow256(m);
        let q = v / 256;
        let r = v % 256;
        let x = q % p;
        lemma_fundamental_div_mod(q as int, p as int);
        // v % (256 * p) == 256 * (q % p) + r
        assert(v == (q / p) * (256 * p) + (256 * x + r)) by (nonlinear_arith)
            requires
                v == q * 256 + r,
                q == (q / p) * p + x,
        ;
        assert(0 <= 256 * x + r < 256 * p) by (nonlinear_arith)
            requires
                0 <= x < p,
                0 <= r < 256,
        ;
        lemma_fundamental_div_mod_converse(v as int, (256 * p) as int, q as int / p as int, (256 * x + r) as int);
    } else {
        assert(v % 1 == 0);
    }
}

/// Writing out the value of `s` in `s.len()` bytes gives back `s`.
pub proof fn lemma_be_bytes_of_value(s: Seq<u8>)
    ensures
        be_bytes(be_value(s), s.len()) == s,
    decreases s.len(),
{
    if s.len() > 0 {
        let t = s.drop_last();
        lemma_be_bytes_of_value(t);
        let v = be_value(s);
        lemma_fundamental_div_mod_converse(v as int, 256, be_value(t) as int, s.last() as int);
        assert(be_bytes(v, s.len()) =~= s);
    } else {
        assert(be_bytes(be_value(s), 0) =~= s);
    }
}

/// The value of a concatenation: the first part shifted past the second.
pub proof fn lemma_be_value_concat(a: Seq<u8>, b: Seq<u8>)
    ensures
        be_value(a + b) == be_value(a) * pow256(b.len()) + be_value(b),
    decreases b.len(),
{
    if b.len() == 0 {
        assert(a + b =~= a);
        assert(pow256(0) == 1);
        assert(be_value(a) * 1 == be_value(a));
    } else {
        let c = b.drop_last();
        lemma_be_value_concat(a, c);
        assert((a + b).drop_last() =~= a + c);
        assert((a + b).last() == b.last());
        assert(be_value(a + b) == be_value(a + c) * 256 + b.last() as nat);
        assert(be_value(b) == be_value(c) * 256 + b.last() as nat);
        assert(pow256(b.len()) == 256 * pow256(c.len()));
        let x = be_value(a);
        let p = pow256(c.len());
        let y = be_value(c);
        let last = b.last() as nat;
        let whole = be_value(a + b);
        let q = pow256(b.len());
        let vb = be_value(b);
        assert(whole == x * q + vb) by (nonlinear_arith)
            requires
                whole == (x * p + y) * 256 + last,
                q == 256 * p,
                vb == y * 256 + last,
        ;
    }
}

/// Writing a value whose low part fits in `m` bytes: the high part, then the low part.
pub proof fn lemma_be_bytes_split(h: nat, l: nat, n: nat, m: nat)
    requires
        l < pow256(m),
    ensures
        be_bytes(h * pow256(m) + l, n + m) == be_bytes(h, n) + be_bytes(l, m),
    decreases m,
{
    if m == 0 {
        assert(pow256(0) == 1);
        assert(h * 1 + 0 == h);
        assert(be_bytes(h * pow256(m) + l, n + m) =~= be_bytes(h, n) + be_bytes(l, m));
    } else {
        let k = (m - 1) as nat;
        let p = pow256(k);
        let v = h * pow256(m) + l;
        let q = l / 256;
        let r = l % 256;
        assert(q < p) by (nonlinear_arith)
            requires
                l < 256 * p,
                l == q * 256 + r,
                0 <= r,
        ;
        lemma_be_bytes_split(h, q, n, k);
        assert(v == (h * p + q) * 256 + r) by (nonlinear_arith)
            requires
                v == h * (256 * p) + l,
                l == q * 256 + r,
        ;
        lemma_fundamental_div_mod_converse(v as int, 256, (h * p + q) as int, r as int);
        assert(be_bytes(v, n + m) =~= be_bytes(h, n) + be_bytes(l, m));
    }
}

/// Two limb pairs with the same wire form are the same pair.
pub proof fn lemma_field_bytes_injective(l1: u128, h1: u128, l2: u128, h2: u128)
    requires
        field_bytes(l1, h1) == field_bytes(l2, h2),
    ensures
        l1 == l2,
        h1 == h2,
{
    lemma_pow256_values();
    let b = limb_base();
    let v1 = limbs_value(l1, h1);
    let v2 = limbs_value(l2, h2);
    lemma_be_value_of_bytes(v1, 32);
    lemma_be_value_of_bytes(v2, 32);
    assert(pow256(32) == b * b) by {
        reveal_with_fuel(pow256, 33);
    }
    assert(v1 < b * b) by (nonlinear_arith)
        requires
            v1 == h1 as nat * b + l1 as nat,
            h1 < b,
            l1 < b,
    ;
    assert(v2 < b * b) by (nonlinear_arith)
        requires
            v2 == h2 as nat * b + l2 as nat,
            h2 < b,
            l2 < b,
    ;
    lemma_fundamental_div_mod_converse(v1 as int, (b * b) as int, 0, v1 as int);
    lemma_fundamental_div_mod_converse(v2 as int, (b * b) as int, 0, v2 as int);
    lemma_fundamental_div_mod_converse(v1 as int, b as int, h1 as int, l1 as int);
    lemma_fundamental_div_mod_converse(v1 as int, b as int, h2 as int, l2 as int);
}

/// Decoding the encoding of `[low, high]` gives back `low` and `high`: the encoding is 32
/// bytes long, so `decode` accepts it, and no other limb pair has it as its encoding.
pub proof fn lemma_round_trip(low: u128, high: u128)
    ensures
        field_bytes(low, high).len() == 32,
        forall|l: u128, h: u128|
            #[trigger] field_bytes(l, h) == field_bytes(low, high) ==> l == low && h == high,
{
    lemma_be_length(limbs_value(low, high), 32);
    assert forall|l: u128, h: u128| #[trigger]
        field_bytes(l, h) == field_bytes(low, high) implies l == low && h == high by {
        lemma_field_bytes_injective(l, h, low, high);
    }
}

/// Appends the 16 bytes of the limb `x`, most significant first.
fn push_limb(out: &mut Vec<u8>, x: u128)
    ensures
        final(out)@ == old(out)@ + be_bytes(x as nat, 16),
{
    let ghost start = old(out)@;
    proof {
        lemma_pow256_values();
    }
    let mut div: u128 = 0x1000000000000000000000000000000;
    let mut i: usize = 0;
    while i < 16
        invariant
            i <= 16,
            i < 16 ==> div as nat == pow256((15 - i) as nat),
            out@ == start + be_bytes(x as nat / pow256((16 - i) as nat), i as nat),
        decreases 16 - i,
    {
        let ghost prev = out@;
        proof {
            lemma_pow256_positive((15 - i) as nat);
        }
        let q: u128 = x / div;
        out.push((q % 256) as u8);
        proof {
            let p = pow256((15 - i) as nat);
            lemma_div_denominator(x as int, p as int, 256);
            assert(pow256((16 - i) as nat) == p * 256);
            assert(be_bytes(q as nat, (i + 1) as nat) == be_bytes(q as nat / 256, i as nat).push(
                (q as nat % 256) as u8,
            ));
            assert(out@ =~= start + be_bytes(x as nat / p, (i + 1) as nat));
        }
        if i < 15 {
            proof {
                assert(pow256((15 - i) as nat) == 256 * pow256((15 - (i + 1)) as nat));
            }
            div = div / 256;
        }
        i = i + 1;
    }
    assert(pow256(0) == 1);
    assert(x as nat / 1 == x as nat);
}

/// The canonical 32-byte big-endian encoding of the field element `[low, high]`.
pub fn encode(low: u128, high: u128) -> (r: Vec<u8>)
    ensures
        r@ == field_bytes(low, high),
        r@.len() == 32,
{
    let mut out: Vec<u8> = Vec::new();
    push_limb(&mut out, high);
    push_limb(&mut out, low);
    proof {
        lemma_pow256_values();
        lemma_be_bytes_split(high as nat, low as nat, 16, 16);
        assert(out@ =~= be_bytes(high as nat, 16) + be_bytes(low as nat, 16));
        lemma_be_length(limbs_value(low, high), 32);
    }
    out
}

/// The limb spelled by the 16 bytes of `bytes` from `start` on, most significant first.
fn read_limb(bytes: &[u8], start: usize) -> (r: u128)
    requires
        start <= 48,
        start + 16 <= bytes@.len(),
    ensures
        r as nat == be_value(bytes@.subrange(start as int, start + 16)),
{
    let mut acc: u128 = 0;
    let mut i: usize = 0;
    while i < 16
        invariant
            i <= 16,
            start <= 48,
            start + 16 <= bytes@.len(),
            acc as nat == be_value(bytes@.subrange(start as int, start + i)),
        decreases 16 - i,
    {
        let ghost t = bytes@.subrange(start as int, start + i);
        proof {
            lemma_be_value_bound(t);
            lemma_pow256_monotone(i as nat, 15);
            lemma_pow256_values();
            assert(acc * 256 + 255 <= u128::MAX) by (nonlinear_arith)
                requires
                    acc < 0x1000000000000000000000000000000,
            ;
        }
        acc = acc * 256 + bytes[start + i] as u128;
        proof {
            let s = bytes@.subrange(start as int, start + i + 1);
            assert(s.drop_last() =~= t);
        }
        i = i + 1;
    }
    acc
}

/// The field element whose encoding is the 32 bytes of `bytes` from `start` on.
pub(crate) fn read_element(bytes: &[u8], start: usize) -> (r: (u128, u128))
    requires
        start <= 32,
        start + 32 <= bytes@.len(),
    ensures
        field_bytes(r.0, r.1) == bytes@.subrange(start as int, start + 32),
{
    let high = read_limb(bytes, start);
    let low = read_limb(bytes, start + 16);
    proof {
        let s = bytes@.subrange(start as int, start + 32);
        let a = bytes@.subrange(start as int, start + 16);
        let b = bytes@.subrange(start + 16, start + 32);
        assert(s =~= a + b);
        lemma_be_value_concat(a, b);
        lemma_be_bytes_of_value(s);
    }
    (low, high)
}

/// The field element whose canonical encoding is `bytes`, as `(low, high)`;
/// anything but exactly 32 bytes is an encoding error.
pub fn decode(bytes: &[u8]) -> (r: Result<(u128, u128), PrecompileError>)
    ensures
        match r {
            Ok((low, high)) => bytes@.len() == 32 && field_bytes(low, high) == bytes@,
            Err(e) => bytes@.len() != 32 && e == PrecompileError::Encoding,
        },
{
    if bytes.len() != 32 {
        return Err(PrecompileError::Encoding);
    }
    let r = read_element(bytes, 0);
    assert(bytes@.subrange(0, 32) =~= bytes@);
    Ok(r)
}

} // verus!
