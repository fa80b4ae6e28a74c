use solana_arb_executor::fees::{
    cu_limit_with_margin, priority_fee_lamports, total_fee_lamports, MAX_CU_PER_TX,
};

#[test]
fn priority_fee_exact_division() {
    // 1000 microlamports/CU * 1000 CU = 1_000_000 microlamports = 1 lamport.
    assert_eq!(priority_fee_lamports(1000, 1000), 1);
    // 1_000_000 microlamports/CU * 1 CU = exactly 1 lamport.
    assert_eq!(priority_fee_lamports(1_000_000, 1), 1);
    // Exactly 2 lamports worth.
    assert_eq!(priority_fee_lamports(1_000_000, 2), 2);
}

#[test]
fn priority_fee_rounds_up() {
    // 1 microlamport * 1 CU = 1 microlamport -> ceil to 1 lamport.
    assert_eq!(priority_fee_lamports(1, 1), 1);
    // 1500 microlamports/CU * 1000 CU = 1_500_000 microlamports = 1.5 lamports -> ceil to 2.
    assert_eq!(priority_fee_lamports(1500, 1000), 2);
    // 999_999 microlamports -> 0.999999 lamports -> ceil to 1.
    assert_eq!(priority_fee_lamports(999_999, 1), 1);
    // 1_000_001 microlamports -> 1.000001 -> ceil to 2.
    assert_eq!(priority_fee_lamports(1_000_001, 1), 2);
}

#[test]
fn priority_fee_zero() {
    // No price or no compute -> no priority fee.
    assert_eq!(priority_fee_lamports(0, 1_400_000), 0);
    assert_eq!(priority_fee_lamports(50_000, 0), 0);
}

#[test]
fn priority_fee_no_overflow_at_extremes() {
    // u64::MAX price * MAX_CU would overflow u64 in the multiply; u128
    // intermediate handles it and the result clamps to u64::MAX.
    let f = priority_fee_lamports(u64::MAX, MAX_CU_PER_TX);
    assert_eq!(f, u64::MAX);
}

#[test]
fn total_fee_basic() {
    // 1 signature, no priority fee.
    assert_eq!(total_fee_lamports(1, 0), 5000);
    // 2 signatures + 10_000 lamport priority fee.
    assert_eq!(total_fee_lamports(2, 10_000), 20_000);
    // 0 signatures (degenerate) still adds priority.
    assert_eq!(total_fee_lamports(0, 777), 777);
}

#[test]
fn total_fee_saturates() {
    // Pathological inputs saturate instead of wrapping.
    assert_eq!(total_fee_lamports(u64::MAX, u64::MAX), u64::MAX);
}

#[test]
fn cu_margin_applies_and_caps() {
    // 10% margin on 200_000 -> 220_000.
    assert_eq!(cu_limit_with_margin(200_000, 1000), 220_000);
    // 0% margin is identity.
    assert_eq!(cu_limit_with_margin(200_000, 0), 200_000);
    // 50% margin on 1_000_000 -> 1_500_000, capped at MAX_CU_PER_TX.
    assert_eq!(cu_limit_with_margin(1_000_000, 5000), MAX_CU_PER_TX);
    // Estimate already at the cap stays at the cap.
    assert_eq!(cu_limit_with_margin(MAX_CU_PER_TX, 1000), MAX_CU_PER_TX);
}

#[test]
fn cu_margin_rounds_down_fractional() {
    // 333 * 1.10 = 366.3 -> integer division floors to 366.
    assert_eq!(cu_limit_with_margin(333, 1000), 366);
}

#[test]
fn exact_fee_values() {
    // 10_000 micro-lamports per unit * 230_000 units = 2_300 lamports.
    assert_eq!(priority_fee_lamports(10_000, 230_000), 2_300);
    assert_eq!(total_fee_lamports(3, 2_300), 17_300);
    assert_eq!(cu_limit_with_margin(200_000, 1_500), 230_000);
}

#[test]
fn priority_fee_is_the_least_that_covers_the_product() {
    for (price, units) in [(1u64, 1u32), (7, 333_333), (999_999, 1), (1_000_001, 3)] {
        let fee: u128 = priority_fee_lamports(price, units) as u128;
        let product: u128 = price as u128 * units as u128;
        assert!(fee * 1_000_000 >= product);
        assert!(fee == 0 || (fee - 1) * 1_000_000 < product);
    }
}

#[test]
fn fees_grow_with_price_units_and_signatures() {
    assert!(priority_fee_lamports(500, 100_000) <= priority_fee_lamports(501, 100_000));
    assert!(priority_fee_lamports(500, 100_000) <= priority_fee_lamports(500, 100_001));
    assert!(total_fee_lamports(2, 77) <= total_fee_lamports(3, 77));
    assert!(total_fee_lamports(2, 77) <= total_fee_lamports(2, 78));
}

#[test]
fn cu_limit_survives_extreme_margins() {
    assert_eq!(cu_limit_with_margin(u32::MAX, u32::MAX), MAX_CU_PER_TX);
    assert_eq!(cu_limit_with_margin(123_456, 0), 123_456);
    assert_eq!(cu_limit_with_margin(0, u32::MAX), 0);
    assert!(cu_limit_with_margin(100_000, 1_000) <= cu_limit_with_margin(100_001, 1_000));
}
