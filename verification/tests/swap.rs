use solana_arb_executor::swap::compute_output;
use solana_arb_executor::wide::product_at_most;

#[test]
fn swap_outputs() {
    assert_eq!(compute_output(1_000, 2_000, 100, 30, 10_000), 181);
    assert_eq!(compute_output(1_000_000, 2_000_000, 10_000, 30, 10_000), 19_743);
    assert_eq!(compute_output(1_000, 2_000, 0, 30, 10_000), 0);
    assert_eq!(compute_output(0, 0, 0, 30, 10_000), 0);
    assert_eq!(compute_output(5, 10, 10, 10_000, 10_000), 0);
    assert_eq!(compute_output(5, 10, 10, 20_000, 10_000), 0);
    assert_eq!(compute_output(0, 77, 1, 0, 1), 77);
}

#[test]
fn swaps_never_pay_out_the_reserve() {
    for amount in [1u64, 1_000, 1_000_000, u32::MAX as u64] {
        for fee in [0u64, 30, 9_999] {
            let out = compute_output(1_000_000, 2_000_000, amount, fee, 10_000);
            assert!(out < 2_000_000);
            let more = compute_output(1_000_000, 2_000_000, amount + 1, fee, 10_000);
            assert!(out <= more);
            let before: u128 = 1_000_000u128 * 2_000_000;
            let after: u128 = (1_000_000u128 + amount as u128) * (2_000_000 - out as u128);
            assert!(after >= before);
        }
    }
}

#[test]
fn swaps_are_exact_at_the_extremes() {
    let max = u64::MAX;
    assert_eq!(compute_output(max, max, max, 30, 10_000), 9_209_516_195_036_766_630);
    assert_eq!(compute_output(max, max, max, 0, max), 9_223_372_036_854_775_807);
    assert_eq!(compute_output(3, max, max, 1, 1 << 63), 18_446_744_073_709_551_612);
}

#[test]
fn wide_products_are_compared() {
    assert!(product_at_most(u64::MAX, u128::MAX, u64::MAX, u128::MAX));
    assert!(product_at_most(u64::MAX, u128::MAX - 1, u64::MAX, u128::MAX));
    assert!(!product_at_most(u64::MAX, u128::MAX, u64::MAX, u128::MAX - 1));
    assert!(product_at_most(0, u128::MAX, 0, 0));
    assert!(!product_at_most(3, 1 << 64, 1, (3 << 64) - 1));
}
