use solana_arb_executor::detector::{decode_pool_reserves, Detector};
use solana_arb_executor::risk::RiskLimits;
use solana_arb_executor::stream::AccountSnapshot;

fn limits(max_notional_lamports: u64, max_position_lamports: u64) -> RiskLimits {
    RiskLimits {
        max_notional_lamports,
        max_position_lamports,
        max_daily_loss_lamports: 1,
        max_consecutive_reverts: 1,
    }
}

fn data(reserve_a: u64, reserve_b: u64) -> Vec<u8> {
    let mut bytes = vec![0xaa; 8];
    bytes.extend_from_slice(&reserve_a.to_le_bytes());
    bytes.extend_from_slice(&reserve_b.to_le_bytes());
    bytes.push(0xbb);
    bytes
}

fn snapshot(key: u8, slot: u64, data: Vec<u8>) -> AccountSnapshot {
    AccountSnapshot {
        pubkey: [key; 32],
        slot,
        lamports: 0,
        data,
        owner: [0; 32],
        executable: false,
        rent_epoch: 0,
    }
}

fn detector(threshold: u64) -> Detector {
    capped_detector(threshold, limits(1_000_000_000, 1_000_000_000))
}

fn capped_detector(threshold: u64, limits: RiskLimits) -> Detector {
    Detector::new([1; 32], [2; 32], threshold, 10_000, 230_000, 3, limits)
}

#[test]
fn reserves_are_decoded() {
    assert_eq!(decode_pool_reserves(&data(1, u64::MAX)), Some((1, u64::MAX)));
    assert_eq!(
        decode_pool_reserves(&data(0x0102_0304_0506_0708, 256)),
        Some((0x0102_0304_0506_0708, 256))
    );
    assert_eq!(decode_pool_reserves(&data(1, 2)[..24]), Some((1, 2)));
    assert_eq!(decode_pool_reserves(&data(1, 2)[..23]), None);
    assert_eq!(decode_pool_reserves(&data(0, 2)), None);
    assert_eq!(decode_pool_reserves(&data(1, 0)), None);
    assert_eq!(decode_pool_reserves(&[]), None);
}

#[test]
fn a_candidate_needs_both_pools() {
    let mut d = detector(3_000_000);
    assert!(d.process_account(snapshot(1, 10, data(1_000_000_000, 2_000_000_000))).is_none());
    let none = d.process_account(snapshot(2, 11, data(1_100_000_000, 1_900_000_000)));
    assert!(none.is_none(), "2_578_357 net is below the threshold");
}

#[test]
fn a_candidate_describes_the_best_direction() {
    let mut d = detector(2_578_357);
    assert!(d.process_account(snapshot(1, 10, data(1_000_000_000, 2_000_000_000))).is_none());
    let c = d.process_account(snapshot(2, 11, data(1_100_000_000, 1_900_000_000))).unwrap();
    assert_eq!(c.slot, 11);
    assert_eq!(c.gross_profit_lamports, 2_595_657);
    assert_eq!(c.net_profit_lamports, 2_578_357);
    assert_eq!(c.pool_a_pubkey, [1; 32]);
    assert_eq!(c.pool_b_pubkey, [2; 32]);
    assert!(c.buy_on_a);
    assert_eq!(c.optimal_input_lamports, 35_621_238);
    assert_eq!(d.evaluate(99).unwrap().slot, 99);
}

#[test]
fn the_other_direction_is_found_too() {
    let mut d = detector(1);
    d.process_account(snapshot(2, 10, data(1_000_000_000, 2_000_000_000)));
    let c = d.process_account(snapshot(1, 11, data(1_100_000_000, 1_900_000_000))).unwrap();
    assert!(!c.buy_on_a);
    assert_eq!(c.gross_profit_lamports, 2_595_657);
    assert_eq!(c.optimal_input_lamports, 35_621_238);
}

#[test]
fn foreign_and_broken_updates_are_ignored() {
    let mut d = detector(1);
    d.process_account(snapshot(1, 10, data(1_000_000_000, 2_000_000_000)));
    assert!(d.process_account(snapshot(9, 11, data(1_100_000_000, 1_900_000_000))).is_none());
    assert!(d.process_account(snapshot(2, 12, vec![0; 10])).is_none());
    assert!(d.evaluate(12).is_none());
    assert!(d.process_account(snapshot(2, 13, data(1_100_000_000, 1_900_000_000))).is_some());
    assert!(d.process_account(snapshot(2, 14, data(0, 1))).is_none());
    assert!(d.evaluate(14).is_some());
}

#[test]
fn a_candidate_keeps_the_risk_caps() {
    for (notional, position) in [(1_000_000, 9_000_000), (9_000_000, 1_000_000)] {
        let mut d = capped_detector(1, limits(notional, position));
        d.process_account(snapshot(1, 10, data(1_000_000_000, 2_000_000_000)));
        let c = d.process_account(snapshot(2, 11, data(1_100_000_000, 1_900_000_000))).unwrap();
        assert!(c.optimal_input_lamports <= 1_000_000);
        assert!(c.optimal_input_lamports > 990_000);
    }
    let mut d = capped_detector(0, limits(0, 9));
    d.process_account(snapshot(1, 10, data(1_000_000_000, 2_000_000_000)));
    assert!(d.process_account(snapshot(2, 11, data(1_100_000_000, 1_900_000_000))).is_none());
}

#[test]
fn stale_pools_offer_nothing() {
    let mut d = detector(1);
    d.process_account(snapshot(1, 10, data(1_000_000_000, 2_000_000_000)));
    assert!(d.process_account(snapshot(2, 11, data(1_100_000_000, 1_900_000_000))).is_some());
    d.mark_stale();
    assert!(d.evaluate(12).is_none());
    assert!(d.process_account(snapshot(2, 13, data(1_100_000_000, 1_900_000_000))).is_none());
    assert!(d.process_account(snapshot(2, 14, data(1_200_000_000, 1_900_000_000))).is_none());
    assert!(d.process_account(snapshot(1, 15, data(1_000_000_000, 2_000_000_000))).is_some());
}
