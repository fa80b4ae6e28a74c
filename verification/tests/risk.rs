use solana_arb_executor::risk::{RiskGate, RiskLimits};

fn limits() -> RiskLimits {
    RiskLimits {
        max_notional_lamports: 1_000_000_000, // 1 SOL per order
        max_position_lamports: 5_000_000_000, // 5 SOL open
        max_daily_loss_lamports: 200_000_000, // 0.2 SOL/day
        max_consecutive_reverts: 3,
    }
}

#[test]
fn allows_order_within_caps() {
    let gate = RiskGate::new(limits());
    assert!(gate.check_order(500_000_000, 2_000_000_000).is_ok());
    // Exactly at the caps is allowed (inclusive).
    assert!(gate.check_order(1_000_000_000, 5_000_000_000).is_ok());
}

#[test]
fn blocks_over_notional() {
    let gate = RiskGate::new(limits());
    let err = gate.check_order(1_000_000_001, 0).unwrap_err();
    assert!(err.contains("notional"));
}

#[test]
fn blocks_over_position() {
    let gate = RiskGate::new(limits());
    let err = gate.check_order(100_000_000, 5_000_000_001).unwrap_err();
    assert!(err.contains("position"));
}

#[test]
fn kill_blocks_all_orders() {
    let mut gate = RiskGate::new(limits());
    assert!(!gate.is_killed());
    gate.kill();
    assert!(gate.is_killed());
    // Even a trivially-small, in-cap order is blocked once killed.
    let err = gate.check_order(1, 1).unwrap_err();
    assert!(err.contains("kill-switch"));
}

#[test]
fn breaker_trips_at_threshold() {
    let mut gate = RiskGate::new(limits());
    // First two reverts: still armed.
    gate.record_revert();
    assert!(!gate.is_breaker_tripped());
    gate.record_revert();
    assert!(!gate.is_breaker_tripped());
    assert!(gate.check_order(1, 1).is_ok());
    // Third revert hits the threshold (3) -> breaker trips.
    gate.record_revert();
    assert!(gate.is_breaker_tripped());
    let err = gate.check_order(1, 1).unwrap_err();
    assert!(err.contains("circuit breaker"));
}

#[test]
fn fill_clears_revert_streak() {
    let mut gate = RiskGate::new(limits());
    gate.record_revert();
    gate.record_revert();
    assert_eq!(gate.consecutive_reverts(), 2);
    // A successful (profitable) fill resets the streak so the breaker won't
    // trip on the next isolated revert.
    gate.record_fill(50_000);
    assert_eq!(gate.consecutive_reverts(), 0);
    gate.record_revert();
    assert!(!gate.is_breaker_tripped());
}

#[test]
fn daily_loss_accumulates_and_blocks() {
    let mut gate = RiskGate::new(limits());
    // Two losing fills totaling exactly the daily cap.
    gate.record_fill(-150_000_000);
    gate.record_fill(-50_000_000);
    assert_eq!(gate.daily_loss_lamports(), 200_000_000);
    // At/over the cap, further orders are blocked.
    let err = gate.check_order(1, 1).unwrap_err();
    assert!(err.contains("daily loss"));
}

#[test]
fn profitable_fill_does_not_add_loss() {
    let mut gate = RiskGate::new(limits());
    gate.record_fill(123_456);
    assert_eq!(gate.daily_loss_lamports(), 0);
}

#[test]
fn reset_rearms_gate() {
    let mut gate = RiskGate::new(limits());
    gate.kill();
    gate.record_revert();
    gate.record_revert();
    gate.record_revert();
    gate.record_fill(-200_000_000);
    assert!(gate.is_killed());
    assert!(gate.is_breaker_tripped());
    gate.reset();
    assert!(!gate.is_killed());
    assert!(!gate.is_breaker_tripped());
    assert_eq!(gate.consecutive_reverts(), 0);
    assert_eq!(gate.daily_loss_lamports(), 0);
    // Fully re-armed: an in-cap order passes again.
    assert!(gate.check_order(500_000_000, 1_000_000_000).is_ok());
}

#[test]
fn daily_loss_saturates() {
    let mut gate = RiskGate::new(RiskLimits {
        max_daily_loss_lamports: u64::MAX,
        ..limits()
    });
    gate.record_fill(i64::MIN); // largest representable single loss
    gate.record_fill(i64::MIN);
    // No wraparound; tally saturates at u64::MAX.
    assert_eq!(gate.daily_loss_lamports(), u64::MAX);
}

fn small_limits() -> RiskLimits {
    RiskLimits {
        max_notional_lamports: 1_000,
        max_position_lamports: 5_000,
        max_daily_loss_lamports: 500,
        max_consecutive_reverts: 3,
    }
}

#[test]
fn each_block_names_its_cause() {
    let mut g = RiskGate::new(small_limits());
    assert_eq!(
        g.check_order(1_001, 0),
        Err(String::from("blocked: notional 1001 exceeds max_notional 1000"))
    );
    assert_eq!(
        g.check_order(0, 5_001),
        Err(String::from("blocked: position_after 5001 exceeds max_position 5000"))
    );
    g.record_fill(-600);
    assert_eq!(
        g.check_order(1, 1),
        Err(String::from("blocked: daily loss 600 reached max_daily_loss 500"))
    );
    for _ in 0..3 {
        g.record_revert();
    }
    assert_eq!(
        g.check_order(1, 1),
        Err(String::from("blocked: circuit breaker tripped after 3 consecutive reverts"))
    );
    g.kill();
    assert_eq!(g.check_order(1, 1), Err(String::from("blocked: kill-switch engaged")));
}

#[test]
fn caps_are_inclusive() {
    let g = RiskGate::new(small_limits());
    assert_eq!(g.check_order(1_000, 5_000), Ok(()));
}

#[test]
fn a_fill_does_not_release_a_tripped_breaker() {
    let mut g = RiskGate::new(small_limits());
    for _ in 0..3 {
        g.record_revert();
    }
    g.record_fill(10);
    assert_eq!(g.consecutive_reverts(), 0);
    assert!(g.is_breaker_tripped());
    assert!(g.check_order(1, 1).is_err());
}

#[test]
fn blocks_stand_until_reset() {
    let mut g = RiskGate::new(small_limits());
    g.kill();
    g.record_fill(5);
    g.record_revert();
    assert!(g.is_killed());
    assert!(g.check_order(1, 1).is_err());
    g.reset();
    assert!(!g.is_killed());
    assert_eq!(g.check_order(1, 1), Ok(()));
}

#[test]
fn losses_add_up_and_the_smallest_pnl_is_held() {
    let mut g = RiskGate::new(small_limits());
    g.record_fill(-100);
    g.record_fill(250);
    g.record_fill(-23);
    assert_eq!(g.daily_loss_lamports(), 123);
    g.reset();
    g.record_fill(i64::MIN);
    assert_eq!(g.daily_loss_lamports(), 1u64 << 63);
    g.record_fill(i64::MIN);
    assert_eq!(g.daily_loss_lamports(), u64::MAX);
}

#[test]
fn a_clone_keeps_the_state() {
    let mut g = RiskGate::new(small_limits());
    g.record_revert();
    g.record_fill(-7);
    g.record_revert();
    let copy = g.clone();
    assert_eq!(copy.consecutive_reverts(), 1);
    assert_eq!(copy.daily_loss_lamports(), 7);
}

#[test]
fn a_smaller_order_passes_where_a_larger_one_does() {
    let g = RiskGate::new(small_limits());
    assert!(g.check_order(900, 4_000).is_ok());
    assert!(g.check_order(899, 4_000).is_ok());
    assert!(g.check_order(900, 3_999).is_ok());
}
