//! The size of a two-pool round trip that makes the most net profit.

use crate::detector::PoolState;
use crate::frontier::{
    lemma_bought_if_affordable, lemma_proceeds_are_sold, Cycle, FEE_MULT,
};
use crate::swap::{
    compute_output, law_swap_is_monotone, law_swap_keeps_the_product,
    law_swap_pays_at_most_the_reserve, lemma_quotient_at_least, lemma_swap_pays_at_least,
    pool_swap, FEE_BPS, FEE_DENOM,
};
use crate::wide::product;
use vstd::arithmetic::div_mod::*;
use vstd::arithmetic::mul::*;
use vstd::prelude::*;

verus! {

/// A trade size with the profit that it makes.
#[derive(Debug, Clone, Copy)]
pub struct ProfitResult {
    pub input: u64,
    pub gross: i128,
    pub net: i128,
}

/// A trade size with its profit, as mathematical values.
pub struct Sizing {
    pub input: int,
    pub gross: int,
    pub net: int,
}

impl View for ProfitResult {
    type V = Sizing;

    open spec fn view(&self) -> Sizing {
        Sizing { input: self.input as int, gross: self.gross as int, net: self.net as int }
    }
}

/// What comes back of `input` when token B is bought in one pool and sold in
/// the other, or nothing if either leg yields nothing.
pub open spec fn round_trip(buy: PoolState, sell: PoolState, input: int) -> Option<int> {
    let out_b = pool_swap(buy.reserve_a as int, buy.reserve_b as int, input);
    let out_a = pool_swap(sell.reserve_b as int, sell.reserve_a as int, out_b);
    if out_b == 0 || out_a == 0 {
        None
    } else {
        Some(out_a)
    }
}

/// The profit of a round trip of `input`, if both legs yield something.
pub open spec fn sizing_at(buy: PoolState, sell: PoolState, fee_cost: int, input: int) -> Option<
    Sizing,
> {
    match round_trip(buy, sell, input) {
        None => None,
        Some(out_a) => Some(
            Sizing { input, gross: out_a - input, net: out_a - input - fee_cost },
        ),
    }
}

/// The gross profit of a round trip of `input`, if both legs yield something.
pub open spec fn gross_at(buy: PoolState, sell: PoolState, input: int) -> Option<int> {
    match round_trip(buy, sell, input) {
        None => None,
        Some(out_a) => Some(out_a - input),
    }
}

/// The size from 1 to `max_input` that makes the most profit, the least one where
/// several do; 0 where no size comes back as anything.
pub open spec fn best_size(buy: PoolState, sell: PoolState, max_input: int) -> int
    decreases max_input,
{
    if max_input <= 0 {
        0
    } else {
        let below = best_size(buy, sell, max_input - 1);
        match gross_at(buy, sell, max_input) {
            Some(gross) if below == 0 || gross > gross_at(buy, sell, below)->0 => max_input,
            _ => below,
        }
    }
}

/// What is found where no size comes back as anything.
pub open spec fn nothing_found() -> Sizing {
    Sizing { input: 0, gross: 0, net: i128::MIN as int }
}

/// The best size from 1 to `max_input` with its profit. Without any input the fee
/// is lost, and where nothing can be traded nothing is found.
pub open spec fn best_sizing(buy: PoolState, sell: PoolState, max_input: int, fee_cost: int) -> Sizing {
    if max_input == 0 {
        Sizing { input: 0, gross: 0, net: -fee_cost }
    } else {
        match sizing_at(buy, sell, fee_cost, best_size(buy, sell, max_input)) {
            Some(found) if found.input > 0 => found,
            _ => nothing_found(),
        }
    }
}

/// The best size is the least one that makes the most profit, and there is one
/// wherever any size comes back as anything.
pub proof fn law_best_size_is_the_least_maximiser(buy: PoolState, sell: PoolState, max_input: int)
    requires
        max_input >= 0,
    ensures
        ({
            let best = best_size(buy, sell, max_input);
            &&& 0 <= best <= max_input
            &&& best > 0 ==> gross_at(buy, sell, best) is Some
            &&& forall|x: int|
                1 <= x <= max_input ==> (#[trigger] gross_at(buy, sell, x) matches Some(gross)
                    ==> best > 0 && gross <= gross_at(buy, sell, best)->0 && (gross == gross_at(
                    buy,
                    sell,
                    best,
                )->0 ==> best <= x))
        }),
    decreases max_input,
{
    if max_input > 0 {
        law_best_size_is_the_least_maximiser(buy, sell, max_input - 1);
    }
}

/// A size that makes the most, and more than every lesser one, is the best size.
proof fn lemma_is_best_size(buy: PoolState, sell: PoolState, max_input: int, input: int)
    requires
        1 <= input <= max_input,
        gross_at(buy, sell, input) is Some,
        forall|x: int|
            1 <= x <= max_input ==> (#[trigger] gross_at(buy, sell, x) matches Some(gross) ==> gross
                <= gross_at(buy, sell, input)->0 && (gross == gross_at(buy, sell, input)->0 ==> input
                <= x)),
    ensures
        best_size(buy, sell, max_input) == input,
{
    law_best_size_is_the_least_maximiser(buy, sell, max_input);
}

/// The bounds of a round trip's output.
proof fn lemma_round_trip_bounds(buy: PoolState, sell: PoolState, input: u64)
    ensures
        0 <= pool_swap(buy.reserve_a as int, buy.reserve_b as int, input as int) <= buy.reserve_b,
        round_trip(buy, sell, input as int) matches Some(out) ==> 1 <= out <= sell.reserve_a,
{
    law_swap_pays_at_most_the_reserve(buy.reserve_a, buy.reserve_b, input, FEE_BPS, FEE_DENOM);
    let out_b = pool_swap(buy.reserve_a as int, buy.reserve_b as int, input as int);
    law_swap_pays_at_most_the_reserve(
        sell.reserve_b,
        sell.reserve_a,
        out_b as u64,
        FEE_BPS,
        FEE_DENOM,
    );
}

/// The best sizing is the profit of its actual round trip, whose output is at most
/// the reserve of the pool that is sold into; and no size makes more net profit.
pub proof fn law_best_sizing_maximises_the_net_profit(
    buy: PoolState,
    sell: PoolState,
    max_input: u64,
    fee_cost: u64,
    x: int,
)
    ensures
        ({
            let best = best_sizing(buy, sell, max_input as int, fee_cost as int);
            &&& 0 <= best.input <= max_input
            &&& best.input > 0 ==> {
                &&& sizing_at(buy, sell, fee_cost as int, best.input) == Some(best)
                &&& best.input == best_size(buy, sell, max_input as int)
                &&& best.gross + best.input <= sell.reserve_a
            }
            &&& 1 <= x <= max_input ==> (sizing_at(
                buy,
                sell,
                fee_cost as int,
                x,
            ) matches Some(other) ==> best.input > 0 && other.net <= best.net)
        }),
{
    law_best_size_is_the_least_maximiser(buy, sell, max_input as int);
    let best = best_size(buy, sell, max_input as int);
    lemma_round_trip_bounds(buy, sell, best as u64);
    assert(gross_at(buy, sell, x) is Some <==> sizing_at(buy, sell, fee_cost as int, x) is Some);
}

/// A flat fee shifts the profit and never the size: with a fee that is higher by
/// `more` the same size is found, with the same gross profit and `more` less net
/// profit.
pub proof fn law_the_fee_shifts_the_profit_and_not_the_size(
    buy: PoolState,
    sell: PoolState,
    max_input: u64,
    fee_cost: int,
    more: int,
)
    ensures
        ({
            let best = best_sizing(buy, sell, max_input as int, fee_cost);
            let dearer = best_sizing(buy, sell, max_input as int, fee_cost + more);
            &&& dearer.input == best.input
            &&& dearer.gross == best.gross
            &&& best.input > 0 ==> dearer.net == best.net - more
        }),
{
}

/// When an amount of token B sells for anything.
proof fn lemma_sells_for_something(sell_a: u64, sell_b: u64, b: int)
    requires
        b >= 1,
    ensures
        pool_swap(sell_b as int, sell_a as int, b) >= 1 <==> sell_b * FEE_DENOM <= b * ((sell_a - 1)
            * FEE_MULT),
{
    let m = FEE_MULT as int;
    let n = sell_b * FEE_DENOM;
    assert(n + b * m > 0) by (nonlinear_arith)
        requires
            n == sell_b * FEE_DENOM,
            b >= 1,
            m == 9_970,
    ;
    lemma_swap_pays_at_least(
        sell_b as int,
        sell_a as int,
        b,
        FEE_BPS as int,
        FEE_DENOM as int,
        1,
    );
    assert((sell_a - 1) * (b * m) == b * ((sell_a - 1) * m)) by (nonlinear_arith);
}

/// The least amount of token B that sells for anything, if `last` does.
fn least_sellable(sell_a: u64, sell_b: u64, last: u64) -> (first: Option<u64>)
    requires
        last >= 1,
    ensures
        match first {
            Some(f) => 1 <= f <= last && forall|b: int|
                1 <= b <= last ==> (#[trigger] pool_swap(sell_b as int, sell_a as int, b) >= 1 <==> b
                    >= f),
            None => forall|b: int|
                1 <= b <= last ==> #[trigger] pool_swap(sell_b as int, sell_a as int, b) < 1,
        },
{
    if sell_a == 0 {
        proof {
            assert forall|b: int| 1 <= b <= last implies #[trigger] pool_swap(
                sell_b as int,
                sell_a as int,
                b,
            ) < 1 by {
                lemma_sells_for_something(sell_a, sell_b, b);
                lemma_mul_nonnegative(sell_b as int, FEE_DENOM as int);
            }
        }
        return None;
    }
    let n: u128 = product(sell_b, FEE_DENOM);
    let k: u128 = product(sell_a - 1, FEE_MULT);
    if n == 0 {
        proof {
            assert forall|b: int| 1 <= b <= last implies #[trigger] pool_swap(
                sell_b as int,
                sell_a as int,
                b,
            ) >= 1 by {
                lemma_sells_for_something(sell_a, sell_b, b);
                lemma_mul_nonnegative(b, k as int);
            }
        }
        return Some(1);
    }
    if k == 0 {
        proof {
            assert forall|b: int| 1 <= b <= last implies #[trigger] pool_swap(
                sell_b as int,
                sell_a as int,
                b,
            ) < 1 by {
                lemma_sells_for_something(sell_a, sell_b, b);
                lemma_mul_basics(b);
            }
        }
        return None;
    }
    proof {
        lemma_div_pos_is_pos(n - 1, k as int);
        lemma_div_is_ordered_by_denominator(n - 1, 1, k as int);
        lemma_div_basics(n - 1);
    }
    let first: u128 = (n - 1) / k + 1;
    proof {
        assert forall|b: int| 1 <= b <= last implies (#[trigger] pool_swap(
            sell_b as int,
            sell_a as int,
            b,
        ) >= 1 <==> b >= first) by {
            lemma_sells_for_something(sell_a, sell_b, b);
            lemma_quotient_at_least(n - 1, k as int, b);
        }
    }
    if first > last as u128 {
        None
    } else {
        Some(first as u64)
    }
}

/// Without a reserve of token A the first pool sells all it has for any input.
proof fn lemma_empty_side(reserve_out: u64, input: int)
    requires
        input >= 1,
    ensures
        pool_swap(0, reserve_out as int, input) == reserve_out,
{
    let m: int = 9_970;
    let t = input * m;
    assert(t > 0) by (nonlinear_arith)
        requires
            t == input * m,
            input >= 1,
            m == 9_970,
    ;
    lemma_mul_is_associative(reserve_out as int, input, m);
    lemma_div_multiples_vanish(reserve_out as int, t);
    lemma_mul_is_commutative(reserve_out as int, t);
}

/// The input size that maximises the net profit when token B is bought in
/// `pool_buy` and sold in `pool_sell`; the least such size where there are
/// several. It does not depend on the fee.
pub fn optimal_net_profit(
    pool_buy: &PoolState,
    pool_sell: &PoolState,
    max_input: u64,
    fee_cost: u64,
) -> (best: ProfitResult)
    ensures
        best@ == best_sizing(*pool_buy, *pool_sell, max_input as int, fee_cost as int),
        best.input == best_size(*pool_buy, *pool_sell, max_input as int),
        forall|x: int|
            1 <= x <= max_input ==> (#[trigger] sizing_at(
                *pool_buy,
                *pool_sell,
                fee_cost as int,
                x,
            ) matches Some(other) ==> other.net <= best.net),
{
    if max_input == 0 {
        return ProfitResult { input: 0, gross: 0, net: -(fee_cost as i128) };
    }
    let input: u64 = if pool_buy.reserve_a == 0 {
        proof {
            assert forall|x: int| 1 <= x <= max_input implies #[trigger] round_trip(
                *pool_buy,
                *pool_sell,
                x,
            ) == round_trip(*pool_buy, *pool_sell, 1) by {
                lemma_empty_side(pool_buy.reserve_b, x);
                lemma_empty_side(pool_buy.reserve_b, 1);
            }
        }
        1
    } else {
        best_input_of(pool_buy, pool_sell, max_input)
    };
    proof {
        lemma_round_trip_bounds(*pool_buy, *pool_sell, input);
        law_best_size_is_the_least_maximiser(*pool_buy, *pool_sell, max_input as int);
        assert forall|x: int| 1 <= x <= max_input implies (#[trigger] sizing_at(
            *pool_buy,
            *pool_sell,
            fee_cost as int,
            x,
        ) matches Some(other) ==> gross_at(*pool_buy, *pool_sell, x) == Some(
            other.net + fee_cost,
        )) by {
        }
    }
    let out_b: u64 = compute_output(
        pool_buy.reserve_a,
        pool_buy.reserve_b,
        input,
        FEE_BPS,
        FEE_DENOM,
    );
    let out_a: u64 = compute_output(
        pool_sell.reserve_b,
        pool_sell.reserve_a,
        out_b,
        FEE_BPS,
        FEE_DENOM,
    );
    if out_b == 0 || out_a == 0 {
        assert(gross_at(*pool_buy, *pool_sell, input as int) is None);
        assert(best_size(*pool_buy, *pool_sell, max_input as int) == 0);
        return ProfitResult { input: 0, gross: 0, net: i128::MIN };
    }
    let gross: i128 = out_a as i128 - input as i128;
    proof {
        assert(gross_at(*pool_buy, *pool_sell, input as int) == Some(gross as int));
        lemma_is_best_size(*pool_buy, *pool_sell, max_input as int, input as int);
    }
    ProfitResult { input, gross, net: gross - fee_cost as i128 }
}

/// The least input from 1 to `max_input` that makes the most of a round trip; 1
/// where nothing comes back of any.
fn best_input_of(pool_buy: &PoolState, pool_sell: &PoolState, max_input: u64) -> (input: u64)
    requires
        pool_buy.reserve_a > 0,
        max_input > 0,
    ensures
        1 <= input <= max_input,
        forall|x: int|
            1 <= x <= max_input ==> (#[trigger] round_trip(*pool_buy, *pool_sell, x) matches Some(
                out,
            ) ==> (round_trip(*pool_buy, *pool_sell, input as int) matches Some(best) && out - x
                <= best - input && (out - x == best - input ==> input <= x))),
{
    let cycle: Cycle = Cycle {
        buy_a: pool_buy.reserve_a,
        buy_b: pool_buy.reserve_b,
        sell_a: pool_sell.reserve_a,
        sell_b: pool_sell.reserve_b,
    };
    let last: u64 = compute_output(
        pool_buy.reserve_a,
        pool_buy.reserve_b,
        max_input,
        FEE_BPS,
        FEE_DENOM,
    );
    proof {
        assert forall|x: int| 1 <= x <= max_input implies 0 <= #[trigger] cycle.bought(x)
            <= last by {
            law_swap_is_monotone(
                pool_buy.reserve_a,
                pool_buy.reserve_b,
                x as u64,
                max_input,
                FEE_BPS,
                FEE_DENOM,
            );
            law_swap_pays_at_most_the_reserve(
                pool_buy.reserve_a,
                pool_buy.reserve_b,
                x as u64,
                FEE_BPS,
                FEE_DENOM,
            );
        }
        assert forall|b: int| 0 <= b <= last implies #[trigger] cycle.sold(b) >= 0 by {
            law_swap_pays_at_most_the_reserve(
                pool_sell.reserve_b,
                pool_sell.reserve_a,
                b as u64,
                FEE_BPS,
                FEE_DENOM,
            );
        }
    }
    if last == 0 {
        assert forall|x: int| 1 <= x <= max_input implies #[trigger] round_trip(
            *pool_buy,
            *pool_sell,
            x,
        ) is None by {
            assert(cycle.bought(x) == 0);
        }
        return 1;
    }
    match least_sellable(pool_sell.reserve_a, pool_sell.reserve_b, last) {
        None => {
            assert forall|x: int| 1 <= x <= max_input implies #[trigger] round_trip(
                *pool_buy,
                *pool_sell,
                x,
            ) is None by {
                let b = cycle.bought(x);
                if b > 0 {
                    assert(cycle.sold(b) == 0);
                }
            }
            1
        },
        Some(first) => {
            let input: u64 = cycle.least_best_input(first, last, max_input);
            proof {
                let top = cycle.bought(input as int);
                assert(cycle.sold(top) >= 1);
                assert forall|x: int| 1 <= x <= max_input implies (#[trigger] round_trip(
                    *pool_buy,
                    *pool_sell,
                    x,
                ) matches Some(out) ==> cycle.sold(top) - input >= out - x && (out - x == cycle.sold(
                    top,
                ) - input ==> input <= x)) by {
                    let b = cycle.bought(x);
                    if round_trip(*pool_buy, *pool_sell, x) is Some {
                        assert(cycle.sold(b) >= 1);
                        assert(first <= b <= last);
                        lemma_bought_if_affordable(cycle, x, b);
                        lemma_proceeds_are_sold(cycle, b);
                        assert(cycle.gain(b, 1) >= cycle.sold(b) - x);
                    }
                }
            }
            input
        },
    }
}

/// A swap never trades below the pool's price: what it pays, at the pool's new
/// balance, is worth no more than what it takes at the old one.
proof fn lemma_swap_price(reserve_in: u64, reserve_out: u64, amt_in: u64)
    ensures
        ({
            let out = pool_swap(reserve_in as int, reserve_out as int, amt_in as int);
            out * (reserve_in + amt_in) <= reserve_out * amt_in
        }),
{
    law_swap_keeps_the_product(reserve_in, reserve_out, amt_in, FEE_BPS, FEE_DENOM);
    let out = pool_swap(reserve_in as int, reserve_out as int, amt_in as int);
    let x = reserve_in as int;
    let y = reserve_out as int;
    let a = amt_in as int;
    assert(out * (x + a) <= y * a) by (nonlinear_arith)
        requires
            (x + a) * (y - out) >= x * y,
    ;
}

/// Between two pools with the same reserves no round trip makes a gross profit.
pub proof fn law_equal_pools_offer_no_profit(buy: PoolState, sell: PoolState, input: u64)
    requires
        buy.reserve_a == sell.reserve_a,
        buy.reserve_b == sell.reserve_b,
    ensures
        round_trip(buy, sell, input as int) matches Some(out_a) ==> out_a <= input,
{
    let x = buy.reserve_a as int;
    let y = buy.reserve_b as int;
    let a = input as int;
    let out_b = pool_swap(x, y, a);
    law_swap_pays_at_most_the_reserve(buy.reserve_a, buy.reserve_b, input, FEE_BPS, FEE_DENOM);
    lemma_swap_price(buy.reserve_a, buy.reserve_b, input);
    lemma_swap_price(sell.reserve_b, sell.reserve_a, out_b as u64);
    let out_a = pool_swap(y, x, out_b);
    if out_b > 0 {
        assert(out_a <= a) by (nonlinear_arith)
            requires
                out_b * (x + a) <= y * a,
                out_a * (y + out_b) <= x * out_b,
                out_b > 0,
                y >= 0,
                x >= 0,
                a >= 0,
        {
            assert(x * out_b <= a * (y - out_b));
            assert(a * (y - out_b) <= a * (y + out_b));
            assert(out_a * (y + out_b) <= a * (y + out_b));
        }
    }
}

/// What the best sizing is, leg by leg: its gross profit is what the second pool
/// pays for what the first one paid, less the input; its net profit is that less
/// the fee; every other size on which both legs pay makes less, or as much at a
/// larger size. Where no size is allowed the fee is lost, and where none pays
/// nothing is found.
pub proof fn law_the_best_sizing_is_that_of_its_legs(
    buy: PoolState,
    sell: PoolState,
    max_input: u64,
    fee_cost: u64,
    x: int,
)
    ensures
        ({
            let best = best_sizing(buy, sell, max_input as int, fee_cost as int);
            let bought = pool_swap(buy.reserve_a as int, buy.reserve_b as int, best.input);
            let sold = pool_swap(sell.reserve_b as int, sell.reserve_a as int, bought);
            let other_bought = pool_swap(buy.reserve_a as int, buy.reserve_b as int, x);
            let other_sold = pool_swap(sell.reserve_b as int, sell.reserve_a as int, other_bought);
            &&& 0 <= best.input <= max_input
            &&& best.input > 0 ==> {
                &&& bought > 0
                &&& sold > 0
                &&& best.gross == sold - best.input
                &&& best.net == sold - best.input - fee_cost
            }
            &&& 1 <= x <= max_input && other_bought > 0 && other_sold > 0 ==> {
                &&& best.input > 0
                &&& other_sold - x <= best.gross
                &&& other_sold - x == best.gross ==> best.input <= x
            }
            &&& best.input == 0 ==> best.gross == 0 && best.net == if max_input == 0 {
                -fee_cost
            } else {
                i128::MIN as int
            }
        }),
{
    law_best_size_is_the_least_maximiser(buy, sell, max_input as int);
    let best = best_size(buy, sell, max_input as int);
    lemma_round_trip_bounds(buy, sell, best as u64);
    assert(gross_at(buy, sell, x) is Some ==> round_trip(buy, sell, x) is Some);
}

} // verus!
