use solana_arb_executor::detector::PoolState;
use solana_arb_executor::sizing::optimal_net_profit;
use solana_arb_executor::swap::compute_output;

fn pool(reserve_a: u64, reserve_b: u64) -> PoolState {
    PoolState { pubkey: [0; 32], reserve_a, reserve_b, last_slot: 1, initialised: true }
}

/// The gross profit of a size, if something comes back of it.
fn gross(buy: &PoolState, sell: &PoolState, input: u64) -> Option<i128> {
    let out_b = compute_output(buy.reserve_a, buy.reserve_b, input, 30, 10_000);
    let out_a = compute_output(sell.reserve_b, sell.reserve_a, out_b, 30, 10_000);
    if out_b == 0 || out_a == 0 {
        None
    } else {
        Some(out_a as i128 - input as i128)
    }
}

fn next(seed: &mut u64) -> u64 {
    *seed = seed.wrapping_mul(6_364_136_223_846_793_005).wrapping_add(1_442_695_040_888_963_407);
    *seed >> 20
}

#[test]
fn the_best_of_three_sizes() {
    // Sizes 1, 2 and 3 all bring back 9.
    let best = optimal_net_profit(&pool(1, 1_000), &pool(10, 1), 3, 0);
    assert_eq!((best.input, best.gross, best.net), (1, 8, 8));
}

#[test]
fn the_size_maximises_the_profit() {
    let a = pool(1_000_000_000, 2_000_000_000);
    let b = pool(1_100_000_000, 1_900_000_000);
    let best = optimal_net_profit(&a, &b, 100_000_000, 17_300);
    // The sizes up to 35_661_615 that make as much are not the least.
    assert_eq!((best.input, best.gross, best.net), (35_621_238, 2_595_657, 2_578_357));
    assert_eq!(gross(&a, &b, 35_661_615), Some(2_595_657));
    assert_eq!(gross(&a, &b, best.input), Some(best.gross));
    let other = optimal_net_profit(&b, &a, 110_000_000, 17_300);
    assert_eq!((other.input, other.gross, other.net), (2, -1, -17_301));
}

#[test]
fn the_size_stays_within_its_bound() {
    let a = pool(1_000_000_000, 2_000_000_000);
    let b = pool(1_100_000_000, 1_900_000_000);
    let best = optimal_net_profit(&a, &b, 1_000, 0);
    assert!(best.input <= 1_000);
    for x in 1..=1_000 {
        if let Some(g) = gross(&a, &b, x) {
            assert!(g <= best.gross);
        }
    }
}

#[test]
fn no_size_beats_the_best_on_small_pools() {
    let mut seed: u64 = 7;
    for round in 0..3_000u64 {
        let top = [5, 50, 500, 5_000][(round % 4) as usize];
        let tall = [5, 5_000, 5_000_000][(round % 3) as usize];
        let buy = pool(next(&mut seed) % top, next(&mut seed) % tall);
        let sell = pool(next(&mut seed) % tall, next(&mut seed) % top);
        let max_input = 1 + next(&mut seed) % 80;
        let fee = next(&mut seed) % 3;
        let best = optimal_net_profit(&buy, &sell, max_input, fee);
        let expected = (1..=max_input).filter_map(|x| gross(&buy, &sell, x)).max();
        match expected {
            None => assert_eq!((best.input, best.gross, best.net), (0, 0, i128::MIN)),
            Some(g) => {
                assert_eq!(best.gross, g, "{buy:?} {sell:?} {max_input}");
                assert_eq!(best.net, g - fee as i128);
                let least = (1..=max_input).find(|x| gross(&buy, &sell, *x) == Some(g));
                assert_eq!(Some(best.input), least, "{buy:?} {sell:?} {max_input}");
            }
        }
    }
}

#[test]
fn no_size_beats_the_best_on_large_pools() {
    let mut seed: u64 = 11;
    for (buy_a, buy_b, sell_a, sell_b) in [
        (1_000_000_000_000u64, 2_000_000_000_000u64, 1_100_000_000_000u64, 1_900_000_000_000u64),
        (1_000_000_000_000, 2_000_000_000_000_000_000, 1_100_000_000_000, 1_900_000_000_000_000_000),
        (1_000_000_000_000_000, 2_000_000, 1_100_000_000_000_000, 1_900_000),
        (u64::MAX / 3, u64::MAX, u64::MAX, u64::MAX / 2),
        (u64::MAX / 2, 1_000, u64::MAX, 900),
        (3, u64::MAX, u64::MAX, u64::MAX / 2),
        (1_000, u64::MAX, 2_000, u64::MAX / 2),
    ] {
        let buy = pool(buy_a, buy_b);
        let sell = pool(sell_a, sell_b);
        let max_input = u64::MAX / 2;
        let best = optimal_net_profit(&buy, &sell, max_input, 0);
        assert_eq!(gross(&buy, &sell, best.input), Some(best.gross));
        for _ in 0..20_000 {
            let near = (next(&mut seed) % 4_000_001) as i128 - 2_000_000;
            let x = (best.input as i128 + near).clamp(1, max_input as i128) as u64;
            let there = gross(&buy, &sell, x).unwrap_or(i128::MIN);
            assert!(there < best.gross || (there == best.gross && x >= best.input));
            let anywhere = 1 + (next(&mut seed) << 19) % max_input;
            assert!(gross(&buy, &sell, anywhere).unwrap_or(i128::MIN) <= best.gross);
        }
    }
}

#[test]
fn the_fee_moves_the_profit_and_not_the_size() {
    let mut seed: u64 = 23;
    for _ in 0..200 {
        let buy = pool(1 + next(&mut seed) % 1_000_000_000, 1 + next(&mut seed) % 1_000_000_000);
        let sell = pool(1 + next(&mut seed) % 1_000_000_000, 1 + next(&mut seed) % 1_000_000_000);
        let max_input = buy.reserve_a / 10;
        let fee = next(&mut seed) % 100_000;
        let more = next(&mut seed) % 100_000;
        let cheap = optimal_net_profit(&buy, &sell, max_input, fee);
        let dear = optimal_net_profit(&buy, &sell, max_input, fee + more);
        assert_eq!(cheap.input, dear.input);
        assert_eq!(cheap.gross, dear.gross);
        if cheap.input > 0 {
            assert_eq!(cheap.net - more as i128, dear.net);
        }
    }
}

#[test]
fn nothing_can_be_traded_without_input() {
    let a = pool(5, 5);
    let best = optimal_net_profit(&a, &a, 0, 17_300);
    assert_eq!((best.input, best.gross, best.net), (0, 0, -17_300));
    let none = optimal_net_profit(&pool(1_000, 1), &pool(1_000, 1), 100, 0);
    assert_eq!((none.input, none.gross, none.net), (0, 0, i128::MIN));
    let empty = optimal_net_profit(&pool(0, 7), &pool(100, 1), 50, 0);
    assert_eq!(empty.input, 1);
}

#[test]
fn equal_pools_offer_no_profit() {
    let a = pool(1_000_000_000, 2_000_000_000);
    let best = optimal_net_profit(&a, &a, 100_000_000, 0);
    assert!(best.gross <= 0);
}
