//! Scalars reduced modulo the order of the group.
use vstd::arithmetic::div_mod::lemma_fundamental_div_mod_converse;
use vstd::prelude::*;

use crate::codec::{lemma_pow256_values, limb_base, limbs_value};
use crate::layout::{ORDER_HIGH, ORDER_LOW};

verus! {

/// The order r of the group of curve points.
pub open spec fn group_order() -> nat {
    limbs_value(ORDER_LOW, ORDER_HIGH)
}

/// Two-limb values compare as their high limbs do, and as their low limbs where those agree.
proof fn lemma_limbs_compare(l: u128, h: u128, lo: u128, hi: u128)
    ensures
        limbs_value(l, h) >= limbs_value(lo, hi) <==> (h > hi || (h == hi && l >= lo)),
{
    lemma_pow256_values();
    let b = limb_base();
    if h > hi {
        assert(limbs_value(l, h) >= limbs_value(lo, hi)) by (nonlinear_arith)
            requires
                h as int >= hi as int + 1,
                lo < b,
                limbs_value(l, h) == h as nat * b + l as nat,
                limbs_value(lo, hi) == hi as nat * b + lo as nat,
        ;
    } else if h < hi {
        assert(limbs_value(l, h) < limbs_value(lo, hi)) by (nonlinear_arith)
            requires
                h as int + 1 <= hi as int,
                l < b,
                limbs_value(l, h) == h as nat * b + l as nat,
                limbs_value(lo, hi) == hi as nat * b + lo as nat,
        ;
    }
}

/// The scalar `[low, high]` modulo the group order, as `(low, high)`.
pub fn reduce_scalar(low: u128, high: u128) -> (r: (u128, u128))
    ensures
        limbs_value(r.0, r.1) == limbs_value(low, high) % group_order(),
        limbs_value(r.0, r.1) < group_order(),
{
    proof {
        lemma_pow256_values();
    }
    let ghost w = group_order();
    let ghost v0 = limbs_value(low, high);
    let ghost mut k: int = 0;
    let mut l = low;
    let mut h = high;
    proof {
        lemma_limbs_compare(l, h, ORDER_LOW, ORDER_HIGH);
    }
    while h > ORDER_HIGH || (h == ORDER_HIGH && l >= ORDER_LOW)
        invariant
            w == group_order(),
            limb_base() == u128::MAX as nat + 1,
            v0 == k * w + limbs_value(l, h),
            k >= 0,
            limbs_value(l, h) >= w <==> (h > ORDER_HIGH || (h == ORDER_HIGH && l >= ORDER_LOW)),
        decreases limbs_value(l, h),
    {
        let ghost before = limbs_value(l, h);
        let ghost (l1, h1) = (l, h);
        if l >= ORDER_LOW {
            l = l - ORDER_LOW;
            h = h - ORDER_HIGH;
        } else {
            l = u128::MAX - (ORDER_LOW - l) + 1;
            h = h - ORDER_HIGH - 1;
        }
        proof {
            let b = limb_base();
            let borrow: int = if l1 >= ORDER_LOW { 0 } else { 1 };
            assert(l as int == l1 as int - ORDER_LOW as int + borrow * b);
            assert(h as int == h1 as int - ORDER_HIGH as int - borrow);
            assert(limbs_value(l, h) + w == before) by (nonlinear_arith)
                requires
                    l as int == l1 as int - ORDER_LOW as int + borrow * b,
                    h as int == h1 as int - ORDER_HIGH as int - borrow,
                    limbs_value(l, h) == h as nat * b + l as nat,
                    w == ORDER_HIGH as nat * b + ORDER_LOW as nat,
                    before == h1 as nat * b + l1 as nat,
            ;
            assert(v0 == (k + 1) * w + limbs_value(l, h)) by (nonlinear_arith)
                requires
                    v0 == k * w + before,
                    limbs_value(l, h) + w == before,
            ;
            k = k + 1;
            lemma_limbs_compare(l, h, ORDER_LOW, ORDER_HIGH);
        }
    }
    proof {
        lemma_fundamental_div_mod_converse(v0 as int, w as int, k, limbs_value(l, h) as int);
    }
    (l, h)
}

} // verus!
