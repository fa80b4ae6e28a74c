//! Constant-product swaps.

use crate::wide::{product, product_at_most};
use vstd::arithmetic::div_mod::*;
use vstd::arithmetic::mul::*;
use vstd::prelude::*;

verus! {

/// Swap fee of a pool, in parts of `FEE_DENOM`.
pub const FEE_BPS: u64 = 30;

/// Denominator of the swap fee.
pub const FEE_DENOM: u64 = 10_000;

/// The share of the input that a swap trades after its fee, in parts of `fee_denom`.
pub open spec fn fee_multiplier(fee_bps: int, fee_denom: int) -> int {
    if fee_denom > fee_bps {
        fee_denom - fee_bps
    } else {
        0
    }
}

/// The constant-product output of a swap:
/// `reserve_out * amt_in * m / (reserve_in * fee_denom + amt_in * m)`, rounded
/// down, where `m` is the fee multiplier. A swap without a denominator yields
/// nothing.
pub open spec fn swap_output(
    reserve_in: int,
    reserve_out: int,
    amt_in: int,
    fee_bps: int,
    fee_denom: int,
) -> int {
    let m = fee_multiplier(fee_bps, fee_denom);
    let denominator = reserve_in * fee_denom + amt_in * m;
    if denominator == 0 {
        0
    } else {
        reserve_out * amt_in * m / denominator
    }
}

/// The output of a swap at the pool fee.
pub open spec fn pool_swap(reserve_in: int, reserve_out: int, amt_in: int) -> int {
    swap_output(reserve_in, reserve_out, amt_in, FEE_BPS as int, FEE_DENOM as int)
}

/// A quotient is at least `b` exactly if the dividend is at least `b` divisors.
pub proof fn lemma_quotient_at_least(n: int, k: int, b: int)
    requires
        k > 0,
    ensures
        n / k >= b <==> n >= b * k,
{
    lemma_fundamental_div_mod(n, k);
    lemma_mod_bound(n, k);
    let q = n / k;
    assert(n == k * q + n % k);
    assert(q >= b ==> n >= b * k) by (nonlinear_arith)
        requires
            n >= k * q,
            k > 0,
    ;
    assert(q < b ==> n < b * k) by (nonlinear_arith)
        requires
            n < k * q + k,
            k > 0,
    {
        if q < b {
            assert(k * (q + 1) <= k * b);
        }
    }
}

/// A swap pays at least `out` exactly if what it takes is worth that at the
/// price after the swap: `out * reserve_in * fee_denom <= amt_in * m * (reserve_out - out)`.
pub proof fn lemma_swap_pays_at_least(
    reserve_in: int,
    reserve_out: int,
    amt_in: int,
    fee_bps: int,
    fee_denom: int,
    out: int,
)
    requires
        ({
            let m = fee_multiplier(fee_bps, fee_denom);
            reserve_in * fee_denom + amt_in * m > 0
        }),
    ensures
        ({
            let m = fee_multiplier(fee_bps, fee_denom);
            swap_output(reserve_in, reserve_out, amt_in, fee_bps, fee_denom) >= out <==> out * (
            reserve_in * fee_denom) <= (reserve_out - out) * (amt_in * m)
        }),
{
    let m = fee_multiplier(fee_bps, fee_denom);
    let u = reserve_in * fee_denom;
    let t = amt_in * m;
    lemma_quotient_at_least(reserve_out * amt_in * m, u + t, out);
    lemma_mul_is_associative(reserve_out, amt_in, m);
    assert(reserve_out * t >= out * (u + t) <==> out * u <= (reserve_out - out) * t)
        by (nonlinear_arith);
}

/// A swap never pays out more than the pool holds.
pub proof fn law_swap_pays_at_most_the_reserve(
    reserve_in: u64,
    reserve_out: u64,
    amt_in: u64,
    fee_bps: u64,
    fee_denom: u64,
)
    ensures
        0 <= swap_output(
            reserve_in as int,
            reserve_out as int,
            amt_in as int,
            fee_bps as int,
            fee_denom as int,
        ) <= reserve_out,
{
    let m = fee_multiplier(fee_bps as int, fee_denom as int);
    let u = reserve_in * fee_denom;
    let t = amt_in * m;
    lemma_mul_nonnegative(amt_in as int, m);
    lemma_mul_nonnegative(reserve_in as int, fee_denom as int);
    if u + t > 0 {
        lemma_swap_pays_at_least(
            reserve_in as int,
            reserve_out as int,
            amt_in as int,
            fee_bps as int,
            fee_denom as int,
            0,
        );
        lemma_swap_pays_at_least(
            reserve_in as int,
            reserve_out as int,
            amt_in as int,
            fee_bps as int,
            fee_denom as int,
            reserve_out + 1,
        );
        lemma_mul_nonnegative(reserve_out as int, t);
        assert((reserve_out + 1) * u > (reserve_out - (reserve_out + 1)) * t) by (nonlinear_arith)
            requires
                u >= 0,
                t >= 0,
                u + t > 0,
                reserve_out >= 0,
        {
            assert((reserve_out + 1) * u >= u);
            assert((reserve_out - (reserve_out + 1)) * t == -t);
        }
    }
}

/// Constant-product output of a swap: what `amt_in` buys of the `reserve_out`
/// side after the pool fee, rounded down. The output is found by bisection, so
/// that no reserve, input or fee is too large.
pub fn compute_output(
    reserve_in: u64,
    reserve_out: u64,
    amt_in: u64,
    fee_bps: u64,
    fee_denom: u64,
) -> (out: u64)
    ensures
        out == swap_output(
            reserve_in as int,
            reserve_out as int,
            amt_in as int,
            fee_bps as int,
            fee_denom as int,
        ),
        out <= reserve_out,
{
    let fee_mult: u64 = fee_denom.saturating_sub(fee_bps);
    let u: u128 = product(reserve_in, fee_denom);
    let t: u128 = product(amt_in, fee_mult);
    if u == 0 && t == 0 {
        return 0;
    }
    let ghost exact = swap_output(
        reserve_in as int,
        reserve_out as int,
        amt_in as int,
        fee_bps as int,
        fee_denom as int,
    );
    proof {
        law_swap_pays_at_most_the_reserve(reserve_in, reserve_out, amt_in, fee_bps, fee_denom);
    }
    let mut lo: u64 = 0;
    let mut hi: u64 = reserve_out;
    while lo < hi
        invariant
            lo <= exact <= hi <= reserve_out,
            exact == swap_output(
                reserve_in as int,
                reserve_out as int,
                amt_in as int,
                fee_bps as int,
                fee_denom as int,
            ),
            u + t > 0,
            u == reserve_in * fee_denom,
            t == amt_in * fee_mult,
            fee_mult == fee_multiplier(fee_bps as int, fee_denom as int),
        decreases hi - lo,
    {
        let mid: u64 = hi - (hi - lo) / 2;
        proof {
            lemma_swap_pays_at_least(
                reserve_in as int,
                reserve_out as int,
                amt_in as int,
                fee_bps as int,
                fee_denom as int,
                mid as int,
            );
        }
        if product_at_most(mid, u, reserve_out - mid, t) {
            lo = mid;
        } else {
            hi = mid - 1;
        }
    }
    lo
}

/// A swap never lowers the product of the reserves, whatever the fee: the pool
/// keeps its invariant, and the fee and the rounding stay with it.
pub proof fn law_swap_keeps_the_product(
    reserve_in: u64,
    reserve_out: u64,
    amt_in: u64,
    fee_bps: u64,
    fee_denom: u64,
)
    ensures
        ({
            let out = swap_output(
                reserve_in as int,
                reserve_out as int,
                amt_in as int,
                fee_bps as int,
                fee_denom as int,
            );
            (reserve_in + amt_in) * (reserve_out - out) >= reserve_in * reserve_out
        }),
{
    let x = reserve_in as int;
    let y = reserve_out as int;
    let a = amt_in as int;
    let d = fee_denom as int;
    let m = fee_multiplier(fee_bps as int, d);
    let out = swap_output(x, y, a, fee_bps as int, d);
    law_swap_pays_at_most_the_reserve(reserve_in, reserve_out, amt_in, fee_bps, fee_denom);
    lemma_mul_nonnegative(x, d);
    lemma_mul_nonnegative(a, m);
    if x * d + a * m > 0 {
        lemma_swap_pays_at_least(x, y, a, fee_bps as int, d, out);
        assert(out * x <= (y - out) * a) by (nonlinear_arith)
            requires
                out * (x * d) <= (y - out) * (a * m),
                0 <= m <= d,
                d > 0,
                0 <= out <= y,
                0 <= x,
                0 <= a,
        {
            assert((y - out) * a >= 0);
            assert((y - out) * (a * m) == ((y - out) * a) * m);
            assert(((y - out) * a) * m <= ((y - out) * a) * d);
            assert(out * (x * d) == (out * x) * d);
            assert((out * x) * d <= ((y - out) * a) * d);
        }
    }
    assert((x + a) * (y - out) >= x * y) by (nonlinear_arith)
        requires
            out * x <= (y - out) * a || out == 0,
            0 <= a,
            0 <= y,
            0 <= out,
    {
        assert((x + a) * (y - out) == x * y - out * x + (y - out) * a);
        if out == 0 {
            assert(out * x == 0);
            assert((y - out) * a >= 0);
        }
    }
}

/// A swap never empties a pool that holds something of both tokens.
pub proof fn law_swap_never_empties_the_pool(
    reserve_in: u64,
    reserve_out: u64,
    amt_in: u64,
    fee_bps: u64,
    fee_denom: u64,
)
    requires
        reserve_in > 0,
        reserve_out > 0,
    ensures
        swap_output(
            reserve_in as int,
            reserve_out as int,
            amt_in as int,
            fee_bps as int,
            fee_denom as int,
        ) < reserve_out,
{
    law_swap_keeps_the_product(reserve_in, reserve_out, amt_in, fee_bps, fee_denom);
    let out = swap_output(
        reserve_in as int,
        reserve_out as int,
        amt_in as int,
        fee_bps as int,
        fee_denom as int,
    );
    let x = reserve_in as int;
    let y = reserve_out as int;
    let a = amt_in as int;
    assert(y - out > 0) by (nonlinear_arith)
        requires
            (x + a) * (y - out) >= x * y,
            x > 0,
            y > 0,
            a >= 0,
    ;
}

/// Paying more in never gets less out.
pub proof fn law_swap_is_monotone(
    reserve_in: u64,
    reserve_out: u64,
    less_in: u64,
    more_in: u64,
    fee_bps: u64,
    fee_denom: u64,
)
    requires
        less_in <= more_in,
    ensures
        swap_output(
            reserve_in as int,
            reserve_out as int,
            less_in as int,
            fee_bps as int,
            fee_denom as int,
        ) <= swap_output(
            reserve_in as int,
            reserve_out as int,
            more_in as int,
            fee_bps as int,
            fee_denom as int,
        ),
{
    let x = reserve_in as int;
    let y = reserve_out as int;
    let a = less_in as int;
    let b = more_in as int;
    let d = fee_denom as int;
    let m = fee_multiplier(fee_bps as int, d);
    let out = swap_output(x, y, a, fee_bps as int, d);
    law_swap_pays_at_most_the_reserve(reserve_in, reserve_out, less_in, fee_bps, fee_denom);
    law_swap_pays_at_most_the_reserve(reserve_in, reserve_out, more_in, fee_bps, fee_denom);
    lemma_mul_nonnegative(x, d);
    lemma_mul_nonnegative(a, m);
    lemma_mul_inequality(a, b, m);
    if x * d + a * m > 0 {
        lemma_swap_pays_at_least(x, y, a, fee_bps as int, d, out);
        lemma_swap_pays_at_least(x, y, b, fee_bps as int, d, out);
        lemma_mul_inequality(a * m, b * m, y - out);
        lemma_mul_is_commutative(a * m, y - out);
        lemma_mul_is_commutative(b * m, y - out);
    }
}

/// The output of a swap is the most that the pool can pay at its price after the
/// fee: what comes in, less the fee, is worth the output at the pool's new
/// balance, and would not be worth one more.
pub proof fn law_swap_pays_the_most_its_input_is_worth(
    reserve_in: u64,
    reserve_out: u64,
    amt_in: u64,
    fee_bps: u64,
    fee_denom: u64,
)
    requires
        fee_bps <= fee_denom,
        reserve_in * fee_denom + amt_in * (fee_denom - fee_bps) > 0,
    ensures
        ({
            let out = swap_output(
                reserve_in as int,
                reserve_out as int,
                amt_in as int,
                fee_bps as int,
                fee_denom as int,
            );
            let traded = amt_in * (fee_denom - fee_bps);
            let held = reserve_in * fee_denom;
            &&& out * (held + traded) <= reserve_out * traded
            &&& reserve_out * traded < (out + 1) * (held + traded)
        }),
{
    let x = reserve_in as int;
    let y = reserve_out as int;
    let a = amt_in as int;
    let d = fee_denom as int;
    let m = fee_multiplier(fee_bps as int, d);
    assert(m == d - fee_bps);
    let out = swap_output(x, y, a, fee_bps as int, d);
    let t = a * m;
    let u = x * d;
    lemma_swap_pays_at_least(x, y, a, fee_bps as int, d, out);
    lemma_swap_pays_at_least(x, y, a, fee_bps as int, d, out + 1);
    assert(out * (u + t) <= y * t) by (nonlinear_arith)
        requires
            out * u <= (y - out) * t,
    ;
    assert(y * t < (out + 1) * (u + t)) by (nonlinear_arith)
        requires
            (out + 1) * u > (y - (out + 1)) * t,
    ;
}

/// A fee of the whole input, or more, and an empty input buy nothing.
pub proof fn law_nothing_traded_buys_nothing(
    reserve_in: u64,
    reserve_out: u64,
    amt_in: u64,
    fee_bps: u64,
    fee_denom: u64,
)
    ensures
        fee_bps >= fee_denom ==> swap_output(
            reserve_in as int,
            reserve_out as int,
            amt_in as int,
            fee_bps as int,
            fee_denom as int,
        ) == 0,
        swap_output(
            reserve_in as int,
            reserve_out as int,
            0,
            fee_bps as int,
            fee_denom as int,
        ) == 0,
{
    let d = reserve_in * fee_denom;
    let m = fee_multiplier(fee_bps as int, fee_denom as int);
    lemma_mul_basics(amt_in as int);
    lemma_mul_basics(reserve_out * amt_in);
    lemma_mul_basics(reserve_out as int);
    lemma_mul_basics(m);
    if d != 0 {
        lemma_div_basics(d);
    }
}

/// The pools take 30 parts in 10,000 of what comes in.
pub proof fn law_pools_charge_thirty_basis_points(reserve_in: u64, reserve_out: u64, amt_in: u64)
    requires
        reserve_in > 0 || amt_in > 0,
    ensures
        ({
            let out = pool_swap(reserve_in as int, reserve_out as int, amt_in as int);
            let held = reserve_in * 10_000;
            let traded = amt_in * 9_970;
            &&& out * (held + traded) <= reserve_out * traded
            &&& reserve_out * traded < (out + 1) * (held + traded)
        }),
{
    law_swap_pays_the_most_its_input_is_worth(reserve_in, reserve_out, amt_in, 30, 10_000);
}

/// Nothing comes out of a pool for nothing, whatever it holds.
pub proof fn law_pools_pay_nothing_for_nothing(reserve_in: u64, reserve_out: u64)
    ensures
        pool_swap(reserve_in as int, reserve_out as int, 0) == 0,
{
    law_nothing_traded_buys_nothing(reserve_in, reserve_out, 0, 30, 10_000);
}

} // verus!
