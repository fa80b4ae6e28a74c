//! Solana fee math for the arbitrage hot path.
//!
//! - Base fee: 5000 lamports per signature.
//! - Priority fee: the compute-unit price (micro-lamports per unit) times the
//!   requested unit limit, divided by one million and rounded up.
//! - A transaction may request at most 1,400,000 compute units.

use vstd::arithmetic::div_mod::*;
use vstd::arithmetic::mul::*;
use vstd::prelude::*;

verus! {

/// Maximum compute units a single transaction may request on Solana.
pub const MAX_CU_PER_TX: u32 = 1_400_000;

/// Base fee in lamports charged per signature on a transaction.
pub const LAMPORTS_PER_SIGNATURE: u64 = 5000;

/// Micro-lamports per lamport, the unit the compute-unit price is quoted in.
pub const MICRO_LAMPORTS_PER_LAMPORT: u128 = 1_000_000;

/// `n`, or `limit` where `n` is larger.
pub open spec fn capped(n: int, limit: int) -> int {
    if n > limit {
        limit
    } else {
        n
    }
}

/// The priority fee before it is held to the range of `u64`: the price of the
/// requested units in micro-lamports, in whole lamports rounded up.
pub open spec fn exact_priority_fee(cu_price_microlamports: int, cu_limit: int) -> int {
    (cu_price_microlamports * cu_limit + 999_999) / 1_000_000
}

/// What `priority_fee_lamports` returns.
pub open spec fn priority_fee(cu_price_microlamports: int, cu_limit: int) -> int {
    capped(exact_priority_fee(cu_price_microlamports, cu_limit), u64::MAX as int)
}

/// What `total_fee_lamports` returns.
pub open spec fn total_fee(num_sigs: int, priority_lamports: int) -> int {
    capped(LAMPORTS_PER_SIGNATURE * num_sigs + priority_lamports, u64::MAX as int)
}

/// What `cu_limit_with_margin` returns: the estimate scaled by
/// `1 + margin_bps / 10_000`, rounded down, at most `MAX_CU_PER_TX`.
pub open spec fn cu_limit(estimate: int, margin_bps: int) -> int {
    capped(estimate * (10_000 + margin_bps) / 10_000, MAX_CU_PER_TX as int)
}

/// Priority fee in lamports for a transaction, given the price per compute unit
/// in micro-lamports and the requested limit. Rounded up, so the fee is never
/// under-budgeted; held to `u64::MAX` where it would not fit.
pub fn priority_fee_lamports(cu_price_microlamports: u64, cu_limit: u32) -> (fee: u64)
    ensures
        fee == priority_fee(cu_price_microlamports as int, cu_limit as int),
{
    proof {
        lemma_mul_inequality(
            cu_price_microlamports as int,
            u64::MAX as int,
            cu_limit as int,
        );
        lemma_mul_inequality(cu_limit as int, u32::MAX as int, u64::MAX as int);
        lemma_mul_is_commutative(cu_limit as int, u64::MAX as int);
        lemma_mul_nonnegative(cu_price_microlamports as int, cu_limit as int);
    }
    let product: u128 = (cu_price_microlamports as u128) * (cu_limit as u128);
    let ceil: u128 = (product + (MICRO_LAMPORTS_PER_LAMPORT - 1)) / MICRO_LAMPORTS_PER_LAMPORT;
    if ceil > u64::MAX as u128 {
        u64::MAX
    } else {
        ceil as u64
    }
}

/// Total transaction fee in lamports: the base fee of every signature plus the
/// priority fee, saturating at `u64::MAX`.
pub fn total_fee_lamports(num_sigs: u64, priority_lamports: u64) -> (fee: u64)
    ensures
        fee == total_fee(num_sigs as int, priority_lamports as int),
{
    proof {
        lemma_mul_inequality(num_sigs as int, u64::MAX as int, LAMPORTS_PER_SIGNATURE as int);
        lemma_mul_is_commutative(num_sigs as int, LAMPORTS_PER_SIGNATURE as int);
    }
    let sum: u128 = (num_sigs as u128) * (LAMPORTS_PER_SIGNATURE as u128)
        + (priority_lamports as u128);
    if sum > u64::MAX as u128 {
        u64::MAX
    } else {
        sum as u64
    }
}

/// Apply a safety margin in basis points to a simulated compute-unit estimate,
/// rounding down, and cap the result at the per-transaction maximum.
pub fn cu_limit_with_margin(estimate: u32, margin_bps: u32) -> (limit: u32)
    ensures
        limit == cu_limit(estimate as int, margin_bps as int),
{
    proof {
        lemma_mul_inequality(estimate as int, u32::MAX as int, 10_000 + margin_bps as int);
        lemma_mul_nonnegative(estimate as int, 10_000 + margin_bps as int);
    }
    let scaled: u128 = (estimate as u128) * (10_000u128 + margin_bps as u128) / 10_000u128;
    if scaled > MAX_CU_PER_TX as u128 {
        MAX_CU_PER_TX
    } else {
        scaled as u32
    }
}

/// The priority fee covers the price of the requested units, and one lamport
/// less would not. Only a fee that does not fit `u64` falls short.
pub proof fn law_priority_fee_is_the_least_covering_fee(cu_price_microlamports: u64, cu_limit: u32)
    ensures
        ({
            let fee = priority_fee(cu_price_microlamports as int, cu_limit as int);
            let price = cu_price_microlamports * cu_limit;
            &&& (fee - 1) * 1_000_000 < price || fee == 0
            &&& price <= fee * 1_000_000 || fee == u64::MAX
        }),
{
    lemma_mul_nonnegative(cu_price_microlamports as int, cu_limit as int);
}

/// A transaction with no compute-unit price, or with no units, pays no priority fee.
pub proof fn law_no_price_or_no_units_costs_nothing(cu_price_microlamports: u64, cu_limit: u32)
    ensures
        priority_fee(0, cu_limit as int) == 0,
        priority_fee(cu_price_microlamports as int, 0) == 0,
{
    lemma_mul_basics(cu_limit as int);
    lemma_mul_basics(cu_price_microlamports as int);
}

/// A higher price, or more units, never makes the priority fee smaller.
pub proof fn law_priority_fee_is_monotone(price_1: u64, price_2: u64, limit_1: u32, limit_2: u32)
    requires
        price_1 <= price_2,
        limit_1 <= limit_2,
    ensures
        priority_fee(price_1 as int, limit_1 as int) <= priority_fee(
            price_2 as int,
            limit_2 as int,
        ),
{
    lemma_mul_upper_bound(price_1 as int, price_2 as int, limit_1 as int, limit_2 as int);
    lemma_div_is_ordered(
        price_1 * limit_1 + 999_999,
        price_2 * limit_2 + 999_999,
        1_000_000,
    );
}

/// The total fee never wraps: it is at least the priority fee, and at least the
/// base fee of every signature unless it has reached `u64::MAX`.
pub proof fn law_total_fee_never_wraps(num_sigs: u64, priority_lamports: u64)
    ensures
        total_fee(num_sigs as int, priority_lamports as int) >= priority_lamports,
        total_fee(num_sigs as int, priority_lamports as int) >= LAMPORTS_PER_SIGNATURE * num_sigs
            || total_fee(num_sigs as int, priority_lamports as int) == u64::MAX,
        total_fee(num_sigs as int, priority_lamports as int) <= u64::MAX,
{
}

/// More signatures, or a higher priority fee, never make the total fee smaller.
pub proof fn law_total_fee_is_monotone(sigs_1: u64, sigs_2: u64, priority_1: u64, priority_2: u64)
    requires
        sigs_1 <= sigs_2,
        priority_1 <= priority_2,
    ensures
        total_fee(sigs_1 as int, priority_1 as int) <= total_fee(sigs_2 as int, priority_2 as int),
{
}

/// The limit never exceeds the per-transaction maximum, and never falls below
/// the estimate except where that maximum cuts it.
pub proof fn law_cu_limit_covers_the_estimate_up_to_the_maximum(estimate: u32, margin_bps: u32)
    ensures
        cu_limit(estimate as int, margin_bps as int) <= MAX_CU_PER_TX,
        cu_limit(estimate as int, margin_bps as int) >= capped(
            estimate as int,
            MAX_CU_PER_TX as int,
        ),
{
    lemma_mul_is_distributive_add(estimate as int, 10_000, margin_bps as int);
    lemma_mul_nonnegative(estimate as int, margin_bps as int);
    lemma_div_is_ordered(
        estimate as int * 10_000,
        estimate * (10_000 + margin_bps),
        10_000,
    );
}

/// A margin of zero leaves an estimate within the maximum as it is.
pub proof fn law_zero_margin_is_identity(estimate: u32)
    requires
        estimate <= MAX_CU_PER_TX,
    ensures
        cu_limit(estimate as int, 0) == estimate,
{
}

/// A larger estimate, or a larger margin, never makes the limit smaller.
pub proof fn law_cu_limit_is_monotone(estimate_1: u32, estimate_2: u32, margin_1: u32, margin_2: u32)
    requires
        estimate_1 <= estimate_2,
        margin_1 <= margin_2,
    ensures
        cu_limit(estimate_1 as int, margin_1 as int) <= cu_limit(
            estimate_2 as int,
            margin_2 as int,
        ),
{
    lemma_mul_upper_bound(
        estimate_1 as int,
        estimate_2 as int,
        10_000 + margin_1,
        10_000 + margin_2,
    );
    lemma_div_is_ordered(
        estimate_1 * (10_000 + margin_1),
        estimate_2 * (10_000 + margin_2),
        10_000,
    );
}

/// The total fee is 5000 lamports for every signature and the priority fee on
/// top, or `u64::MAX` where that sum is larger.
pub proof fn law_total_fee_is_base_plus_priority(num_sigs: u64, priority_lamports: u64)
    ensures
        ({
            let fee = total_fee(num_sigs as int, priority_lamports as int);
            &&& fee - priority_lamports == 5_000 * num_sigs || fee == u64::MAX
            &&& fee == u64::MAX ==> 5_000 * num_sigs + priority_lamports >= u64::MAX
        }),
{
}

/// Another signature costs 5000 lamports more, and another lamport of priority
/// fee one more, until the total reaches `u64::MAX`.
pub proof fn law_total_fee_adds_up(num_sigs: u64, priority_lamports: u64)
    ensures
        total_fee(0, priority_lamports as int) == priority_lamports,
        total_fee(num_sigs + 1, priority_lamports as int) == if total_fee(
            num_sigs as int,
            priority_lamports as int,
        ) + 5_000 > u64::MAX {
            u64::MAX as int
        } else {
            total_fee(num_sigs as int, priority_lamports as int) + 5_000
        },
        priority_lamports < u64::MAX ==> total_fee(num_sigs as int, priority_lamports + 1)
            == if total_fee(num_sigs as int, priority_lamports as int) == u64::MAX {
            u64::MAX as int
        } else {
            total_fee(num_sigs as int, priority_lamports as int) + 1
        },
{
}

/// The limit is the largest whole number of units within the estimate plus its
/// margin, and never above 1,400,000; only that maximum makes it fall short.
pub proof fn law_cu_limit_is_the_estimate_plus_the_margin(estimate: u32, margin_bps: u32)
    ensures
        ({
            let limit = cu_limit(estimate as int, margin_bps as int);
            let exact = estimate * 10_000 + estimate * margin_bps;
            &&& 0 <= limit <= 1_400_000
            &&& limit * 10_000 <= exact
            &&& exact < (limit + 1) * 10_000 || limit == 1_400_000
        }),
{
    lemma_mul_is_distributive_add(estimate as int, 10_000, margin_bps as int);
    lemma_mul_nonnegative(estimate as int, margin_bps as int);
    let exact = estimate * (10_000 + margin_bps);
    lemma_fundamental_div_mod(exact, 10_000);
    lemma_mod_bound(exact, 10_000);
    lemma_div_pos_is_pos(exact, 10_000);
}

} // verus!
