use solana_arb_executor::config::{Config, Environment, SolCap, SolCaps};
use solana_arb_executor::detector::ArbCandidate;
use solana_arb_executor::jito::{simulation_result, PollPhase};
use solana_arb_executor::json::Json;
use solana_arb_executor::pipeline::{
    bps_to_lamports_floor, build_candidate_bundle, build_swap_instructions_placeholder,
    compute_tip_lamports, CandidateRun, RunPhase, TipPolicy, POLL_MAX_ATTEMPTS,
};
use solana_arb_executor::risk::RiskGate;
use solana_arb_executor::solana::Keypair;
use solana_arb_executor::stream::AccountSnapshot;
use solana_sdk::signature::Keypair as SdkKeypair;

fn config(dry_run: &str, require_confirm: &str) -> Config {
    let env: Environment = [
        ("ARB_RPC_URL", "https://rpc"),
        ("ARB_GRPC_URL", "https://grpc"),
        ("ARB_GRPC_TOKEN", "token"),
        ("ARB_JITO_URL", "https://jito"),
        ("ARB_DRY_RUN", dry_run),
        ("ARB_REQUIRE_CONFIRM", require_confirm),
    ]
    .iter()
    .map(|(k, v)| (String::from(*k), String::from(*v)))
    .collect();
    let caps = SolCaps {
        max_notional: SolCap::Unset,
        max_position: SolCap::Unset,
        max_daily_loss: SolCap::Unset,
    };
    Config::from_env(&env, caps).unwrap()
}

fn candidate(input: u64, net: u64) -> ArbCandidate {
    ArbCandidate {
        slot: 11,
        gross_profit_lamports: net + 17_300,
        net_profit_lamports: net,
        pool_a_pubkey: [1; 32],
        pool_b_pubkey: [2; 32],
        buy_on_a: true,
        optimal_input_lamports: input,
    }
}

fn keypair() -> Keypair {
    let bytes = SdkKeypair::new_from_array([1; 32]).to_bytes().to_vec();
    match Keypair::from_bytes(bytes) {
        Ok(k) => k,
        Err(e) => panic!("{e:?}"),
    }
}

fn object(fields: Vec<(&str, Json)>) -> Json {
    Json::Object(fields.into_iter().map(|(k, v)| (String::from(k), v)).collect())
}

fn text(s: &str) -> Json {
    Json::Text(String::from(s))
}

fn reply(entry: Vec<(&str, Json)>) -> Json {
    object(vec![("result", object(vec![("value", Json::Array(vec![object(entry)]))]))])
}

fn gate() -> RiskGate {
    RiskGate::new(config("true", "true").risk_limits)
}

#[test]
fn thirty_bps_of_a_sol() {
    assert_eq!(bps_to_lamports_floor(30), 3_000_000);
    assert_eq!(bps_to_lamports_floor(0), 0);
    assert_eq!(bps_to_lamports_floor(u32::MAX), 429_496_729_500_000);
}

#[test]
fn tips_are_a_clamped_share() {
    let policy = TipPolicy { bps: 5_000, floor: 1_000, ceil: 10_000_000, min_net: 3_000_000 };
    assert_eq!(compute_tip_lamports(8_000_001, policy), Some(4_000_000));
    assert_eq!(compute_tip_lamports(100_000_000, policy), Some(10_000_000));
    // 6_000_000 - 3_000_000 leaves no more than the minimum.
    assert_eq!(compute_tip_lamports(6_000_000, policy), None);
    assert_eq!(compute_tip_lamports(6_000_001, policy), Some(3_000_000));
    assert_eq!(compute_tip_lamports(0, policy), None);

    let lenient = TipPolicy { bps: 100, floor: 1_000, ceil: 2_000, min_net: 0 };
    assert_eq!(compute_tip_lamports(1_000, lenient), None);
    assert_eq!(compute_tip_lamports(1_001, lenient), Some(1_000));
    assert_eq!(compute_tip_lamports(150_000, lenient), Some(1_500));
    assert_eq!(compute_tip_lamports(u64::MAX, lenient), Some(2_000));

    let greedy = TipPolicy { bps: u32::MAX, floor: 0, ceil: u64::MAX, min_net: 0 };
    assert_eq!(compute_tip_lamports(u64::MAX, greedy), None);
}

#[test]
fn a_configuration_sets_up_detector_and_stream() {
    let c = config("true", "true");
    let policy = c.tip_policy();
    assert_eq!(
        policy,
        TipPolicy { bps: 5_000, floor: 1_000, ceil: 10_000_000, min_net: 3_000_000 }
    );
    let stream = c.stream_config([0; 32], [0; 32]);
    assert_eq!(stream.grpc_url, "https://grpc");
    assert_eq!(stream.grpc_token, "token");
    assert_eq!(stream.channel_capacity, 256);
    assert_eq!(
        stream.account_keys,
        vec![
            String::from("11111111111111111111111111111111"),
            String::from("11111111111111111111111111111111")
        ]
    );
    let mut d = c.detector([1; 32], [2; 32]);
    let mut data = vec![0; 8];
    data.extend_from_slice(&1_000_000_000u64.to_le_bytes());
    data.extend_from_slice(&2_000_000_000u64.to_le_bytes());
    let mut snap = AccountSnapshot {
        pubkey: [1; 32],
        slot: 1,
        lamports: 0,
        data,
        owner: [0; 32],
        executable: false,
        rent_epoch: 0,
    };
    assert!(d.process_account(snap.clone()).is_none());
    snap.pubkey = [2; 32];
    snap.data[8..16].copy_from_slice(&1_300_000_000u64.to_le_bytes());
    let found = d.process_account(snap).unwrap();
    assert_eq!(found.gross_profit_lamports - found.net_profit_lamports, 17_300);
    assert!(found.net_profit_lamports >= 3_000_000);
}

#[test]
fn legs_are_empty() {
    let payer = keypair();
    let c = candidate(1, 1);
    assert!(build_swap_instructions_placeholder(&c, true, &payer).is_empty());
    let bundle = build_candidate_bundle(&c, &payer, [7; 32], 5, [9; 32]);
    assert_eq!(bundle.transactions.len(), 3);
    assert_eq!(bundle.transactions[0], bundle.transactions[1]);
    assert_eq!(bundle.tip_lamports, 5);
}

#[test]
fn blocked_candidates_count_as_reverts() {
    let c = config("false", "true");
    let mut g = gate();
    let too_big = candidate(1_000_000_001, 8_000_000);
    let mut run = CandidateRun::begin(&too_big, &g, &c);
    assert_eq!(run.phase(), RunPhase::Blocked);
    assert_eq!(
        run.block_message(),
        Some(&String::from("blocked: notional 1000000001 exceeds max_notional 1000000000"))
    );
    run.on_prepared(&keypair(), [7; 32], [9; 32]);
    assert_eq!(run.phase(), RunPhase::Blocked);
    assert!(!run.settle(&mut g));
    assert_eq!(g.consecutive_reverts(), 1);
}

#[test]
fn dry_runs_send_nothing() {
    let c = config("true", "true");
    let mut g = gate();
    let good = candidate(50_000_000, 8_000_000);
    let mut run = CandidateRun::begin(&good, &g, &c);
    assert_eq!(run.phase(), RunPhase::DryRun);
    run.on_prepared(&keypair(), [7; 32], [9; 32]);
    run.on_simulated(&simulation_result(None, None));
    run.on_typed("YES");
    run.on_call_failed();
    assert_eq!(run.phase(), RunPhase::DryRun);
    assert!(run.bundle().is_none());
    assert!(run.submission().is_none());
    assert!(!run.settle(&mut g));
    assert_eq!(g.consecutive_reverts(), 0);
}

#[test]
fn a_confirmed_bundle_lands() {
    let c = config("false", "true");
    let mut g = gate();
    g.record_revert();
    let good = candidate(50_000_000, 8_000_000);
    let mut run = CandidateRun::begin(&good, &g, &c);
    assert_eq!(run.phase(), RunPhase::Preparing);
    assert!(run.simulation_request().is_none());

    run.on_prepared(&keypair(), [7; 32], [9; 32]);
    assert_eq!(run.phase(), RunPhase::Simulating);
    let bundle = run.bundle().unwrap();
    assert_eq!(bundle.tip_lamports, 4_000_000);
    assert_eq!(run.simulation_request(), Some(&bundle.transactions[0]));
    assert!(run.submission().is_none());

    run.on_simulated(&simulation_result(None, Some(1_000)));
    assert_eq!(run.phase(), RunPhase::Confirming);
    assert!(run.submission().is_none());

    run.on_typed(" YES\n");
    assert_eq!(run.phase(), RunPhase::Submitting);
    assert_eq!(run.submission(), run.bundle().map(|b| b.submit_params()));

    let id = run.on_submitted(&object(vec![("result", text("uuid"))]));
    assert_eq!(id, Some(String::from("uuid")));
    assert_eq!(run.phase(), RunPhase::Polling);
    assert_eq!(run.poll_phase(), PollPhase::AskInFlight);
    assert!(run.on_statuses(&reply(vec![])).is_none());

    assert!(run.on_in_flight(&reply(vec![("status", text("Pending"))])).is_some());
    assert!(run.on_in_flight(&reply(vec![("status", text("Landed"))])).is_some());
    assert_eq!(run.poll_phase(), PollPhase::AskStatuses);
    assert!(run.on_in_flight(&reply(vec![("status", text("Failed"))])).is_none());
    let answer = reply(vec![("confirmation_status", text("confirmed"))]);
    assert!(matches!(run.on_statuses(&answer), Some(Ok(s)) if s == "confirmed"));
    assert_eq!(run.phase(), RunPhase::Landed);
    assert!(!run.settle(&mut g));
    assert_eq!(g.consecutive_reverts(), 0);
    assert_eq!(g.daily_loss_lamports(), 0);
}

#[test]
fn no_flag_skips_the_confirmation() {
    let good = candidate(50_000_000, 8_000_000);
    for require_confirm in ["true", "false"] {
        let c = config("false", require_confirm);
        let g = gate();
        let mut run = CandidateRun::begin(&good, &g, &c);
        run.on_prepared(&keypair(), [7; 32], [9; 32]);
        run.on_simulated(&simulation_result(None, None));
        assert_eq!(run.phase(), RunPhase::Confirming);
        assert!(run.submission().is_none());
        run.on_typed("YES");
        assert_eq!(run.phase(), RunPhase::Submitting);
        assert!(run.submission().is_some());
    }
}

#[test]
fn anything_but_yes_aborts() {
    let good = candidate(50_000_000, 8_000_000);
    let c = config("false", "true");
    let mut g = gate();
    let mut run = CandidateRun::begin(&good, &g, &c);
    run.on_prepared(&keypair(), [7; 32], [9; 32]);
    run.on_simulated(&simulation_result(None, None));
    run.on_typed("yes");
    assert_eq!(run.phase(), RunPhase::Failed);
    assert!(!run.settle(&mut g));
    assert_eq!(g.consecutive_reverts(), 1);
}

#[test]
fn a_failed_simulation_aborts() {
    let good = candidate(50_000_000, 8_000_000);
    let c = config("false", "false");
    let g = gate();
    let mut run = CandidateRun::begin(&good, &g, &c);
    run.on_prepared(&keypair(), [7; 32], [9; 32]);
    run.on_simulated(&simulation_result(Some(String::from("custom")), None));
    assert_eq!(run.phase(), RunPhase::Failed);
    run.on_simulated(&simulation_result(None, None));
    assert_eq!(run.phase(), RunPhase::Failed);
    assert!(run.submission().is_none());
}

#[test]
fn a_candidate_not_worth_a_tip_is_skipped() {
    let thin = candidate(50_000_000, 5_000_000);
    let c = config("false", "false");
    let mut g = gate();
    let mut run = CandidateRun::begin(&thin, &g, &c);
    run.on_prepared(&keypair(), [7; 32], [9; 32]);
    assert_eq!(run.phase(), RunPhase::Skipped);
    assert!(run.bundle().is_none());
    assert!(!run.settle(&mut g));
    assert_eq!(g.consecutive_reverts(), 0);
}

#[test]
fn bad_answers_and_timeouts_fail() {
    let good = candidate(50_000_000, 8_000_000);
    let c = config("false", "false");
    let g = gate();
    let mut run = CandidateRun::begin(&good, &g, &c);
    run.on_prepared(&keypair(), [7; 32], [9; 32]);
    run.on_simulated(&simulation_result(None, None));
    run.on_typed("YES");
    assert_eq!(run.on_submitted(&Json::Null), None);
    assert_eq!(run.phase(), RunPhase::Failed);

    let mut run = CandidateRun::begin(&good, &g, &c);
    run.on_prepared(&keypair(), [7; 32], [9; 32]);
    run.on_simulated(&simulation_result(None, None));
    run.on_typed("YES");
    run.on_submitted(&object(vec![("result", text("uuid"))]));
    for _ in 0..POLL_MAX_ATTEMPTS - 1 {
        run.on_in_flight(&Json::Null);
        assert_eq!(run.phase(), RunPhase::Polling);
    }
    run.on_in_flight(&Json::Null);
    assert_eq!(run.phase(), RunPhase::Failed);

    let mut run = CandidateRun::begin(&good, &g, &c);
    run.on_call_failed();
    assert_eq!(run.phase(), RunPhase::Failed);
}

#[test]
fn failures_in_a_row_trip_the_breaker() {
    let good = candidate(50_000_000, 8_000_000);
    let c = config("false", "false");
    let mut g = gate();
    for _ in 0..5 {
        let mut run = CandidateRun::begin(&good, &g, &c);
        run.on_call_failed();
        assert!(!run.settle(&mut g));
    }
    assert!(g.is_breaker_tripped());
    let run = CandidateRun::begin(&good, &g, &c);
    assert_eq!(run.phase(), RunPhase::Blocked);
    g.kill();
    let run = CandidateRun::begin(&good, &g, &c);
    assert!(run.settle(&mut g));
}

#[test]
fn a_huge_profit_is_no_loss() {
    let huge = ArbCandidate {
        slot: 0,
        gross_profit_lamports: u64::MAX,
        net_profit_lamports: u64::MAX,
        pool_a_pubkey: [1; 32],
        pool_b_pubkey: [2; 32],
        buy_on_a: true,
        optimal_input_lamports: 1,
    };
    let c = config("false", "false");
    let mut g = gate();
    let mut run = CandidateRun::begin(&huge, &g, &c);
    run.on_prepared(&keypair(), [7; 32], [9; 32]);
    run.on_simulated(&simulation_result(None, None));
    run.on_typed("YES");
    run.on_submitted(&object(vec![("result", text("uuid"))]));
    run.on_in_flight(&reply(vec![("status", text("Landed"))]));
    run.on_statuses(&Json::Null);
    assert_eq!(run.phase(), RunPhase::Polling);
    run.on_statuses(&reply(vec![("confirmation_status", text("finalized"))]));
    assert_eq!(run.phase(), RunPhase::Landed);
    run.settle(&mut g);
    assert_eq!(g.daily_loss_lamports(), 0);
}
