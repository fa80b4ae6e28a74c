//! Products that do not fit `u128`.

use vstd::arithmetic::div_mod::*;
use vstd::arithmetic::mul::*;
use vstd::prelude::*;

verus! {

/// Two to the power of 64.
pub const LIMB: u128 = 0x1_0000_0000_0000_0000;

/// The largest product of two `u64` fits `u128`, with room for one more `u64`.
pub proof fn lemma_product_fits(a: u64, b: u64)
    ensures
        0 <= a * b <= u128::MAX - u64::MAX - u64::MAX,
{
    lemma_mul_upper_bound(a as int, u64::MAX as int, b as int, u64::MAX as int);
    lemma_mul_nonnegative(a as int, b as int);
}

/// The product of two `u64`.
pub fn product(a: u64, b: u64) -> (p: u128)
    ensures
        p == a * b,
{
    proof {
        lemma_product_fits(a, b);
    }
    (a as u128) * (b as u128)
}

/// The product of a `u64` and a `u128`, in two parts.
fn wide_product(a: u64, u: u128) -> (parts: (u128, u64))
    ensures
        a * u == parts.0 * LIMB + parts.1,
{
    let high: u64 = (u / LIMB) as u64;
    let low: u64 = (u % LIMB) as u64;
    let bottom: u128 = product(a, low);
    let carry: u128 = bottom / LIMB;
    proof {
        lemma_product_fits(a, high);
    }
    let top: u128 = product(a, high) + carry;
    proof {
        lemma_fundamental_div_mod(u as int, LIMB as int);
        lemma_fundamental_div_mod(bottom as int, LIMB as int);
        assert(u == high * LIMB + low);
        assert(bottom == carry * LIMB + bottom % LIMB);
        assert(a * u == top * LIMB + bottom % LIMB) by (nonlinear_arith)
            requires
                u == high * LIMB + low,
                bottom == carry * LIMB + bottom % LIMB,
                bottom == a * low,
                top == a * high + carry,
        ;
    }
    (top, (bottom % LIMB) as u64)
}

/// Whether one product is at most another one.
pub fn product_at_most(a: u64, u: u128, b: u64, v: u128) -> (r: bool)
    ensures
        r == (a * u <= b * v),
{
    let left: (u128, u64) = wide_product(a, u);
    let right: (u128, u64) = wide_product(b, v);
    left.0 < right.0 || (left.0 == right.0 && left.1 <= right.1)
}

} // verus!
