use solana_arb_executor::jito::{
    build_bundle, confirm_gate, in_flight_status, reconcile_landed_bundle, simulation_result,
    submitted_bundle_id, BundleError, BundlePoll, InFlightStatus, InstructionGroup, JitoBundle,
    PollPhase, ReconcileError, BUNDLE_MAX_TXS, POLL_INTERVAL_MS,
};
use solana_arb_executor::json::Json;
use solana_arb_executor::solana::Keypair;
use solana_sdk::signature::Keypair as SdkKeypair;
use solana_sdk::transaction::Transaction;

fn text(s: &str) -> Json {
    Json::Text(String::from(s))
}

fn object(fields: Vec<(&str, Json)>) -> Json {
    Json::Object(fields.into_iter().map(|(k, v)| (String::from(k), v)).collect())
}

fn reply(entry: Vec<(&str, Json)>) -> Json {
    object(vec![("result", object(vec![("value", Json::Array(vec![object(entry)]))]))])
}

fn keypair(seed: u8) -> Keypair {
    let bytes = SdkKeypair::new_from_array([seed; 32]).to_bytes().to_vec();
    match Keypair::from_bytes(bytes) {
        Ok(k) => k,
        Err(e) => panic!("{e:?}"),
    }
}

fn empty_legs(payer: &Keypair, n: usize) -> Vec<InstructionGroup<'_>> {
    (0..n).map(|_| (vec![], vec![payer])).collect()
}

fn built(legs: usize, tip: u64) -> JitoBundle {
    let payer = keypair(1);
    match build_bundle(empty_legs(&payer, legs), &payer, [7u8; 32], tip, [9u8; 32]) {
        Ok(bundle) => bundle,
        Err(e) => panic!("{e:?}"),
    }
}

#[test]
fn the_tip_is_paid_in_the_last_transaction() {
    let payer = keypair(1).pubkey();
    let bundle = built(2, 123_456_789);
    assert_eq!(bundle.transactions.len(), 3);
    assert_eq!(bundle.tip_lamports, 123_456_789);
    assert_eq!(bundle.tip_account, [7u8; 32]);

    let tip: Transaction = bincode::deserialize(&bundle.transactions[2]).unwrap();
    assert!(tip.verify().is_ok());
    let keys: Vec<[u8; 32]> = tip.message.account_keys.iter().map(|k| k.to_bytes()).collect();
    assert_eq!(keys, vec![payer, [7u8; 32], [0u8; 32]]);
    assert_eq!(tip.message.recent_blockhash.to_bytes(), [9u8; 32]);
    assert_eq!(tip.message.instructions.len(), 1);
    let transfer = &tip.message.instructions[0];
    assert_eq!(transfer.accounts, vec![0, 1]);
    assert_eq!(transfer.program_id_index, 2);
    assert_eq!(transfer.data, vec![2, 0, 0, 0, 0x15, 0xcd, 0x5b, 0x07, 0, 0, 0, 0]);

    let leg: Transaction = bincode::deserialize(&bundle.transactions[0]).unwrap();
    assert!(leg.verify().is_ok());
    assert_eq!(leg.message.instructions.len(), 0);
    assert_eq!(leg.message.account_keys[0].to_bytes(), payer);
}

#[test]
fn a_bundle_holds_at_most_five_transactions() {
    assert_eq!(built(BUNDLE_MAX_TXS - 1, 1).transactions.len(), BUNDLE_MAX_TXS);
    let payer = keypair(1);
    let refused = build_bundle(empty_legs(&payer, 5), &payer, [7u8; 32], 1, [9u8; 32]);
    assert_eq!(refused.err(), Some(BundleError::TooManyTransactions(5)));
    // Too many groups are refused before anything is signed.
    let unsigned: Vec<InstructionGroup<'_>> = (0..6).map(|_| (vec![], vec![])).collect();
    let refused = build_bundle(unsigned, &payer, [7u8; 32], 1, [9u8; 32]);
    assert_eq!(refused.err(), Some(BundleError::TooManyTransactions(6)));
}

#[test]
fn the_first_transaction_is_simulated() {
    let bundle = built(2, 1);
    assert_eq!(bundle.simulated_transaction(), Some(&bundle.transactions[0]));
    let empty = JitoBundle { transactions: vec![], tip_lamports: 0, tip_account: [0u8; 32] };
    assert_eq!(empty.simulated_transaction(), None);
}

#[test]
fn submission_parameters_are_base64() {
    let bundle = JitoBundle {
        transactions: vec![b"Man".to_vec(), b"Ma".to_vec(), b"M".to_vec(), vec![], vec![251, 255, 254]],
        tip_lamports: 1,
        tip_account: [0u8; 32],
    };
    let encoded = vec![text("TWFu"), text("TWE="), text("TQ=="), text(""), text("+//+")];
    let expected =
        Json::Array(vec![Json::Array(encoded), object(vec![("encoding", text("base64"))])]);
    assert_eq!(bundle.submit_params(), expected);
}

#[test]
fn a_simulation_succeeds_without_an_error() {
    let passed = simulation_result(None, Some(4_200));
    assert!(passed.success);
    assert_eq!(passed.err_message, None);
    assert_eq!(passed.units_consumed, Some(4_200));
    let failed = simulation_result(Some(String::from("InstructionError")), None);
    assert!(!failed.success);
    assert_eq!(failed.err_message, Some(String::from("InstructionError")));
}

#[test]
fn only_a_typed_yes_confirms() {
    assert_eq!(confirm_gate("YES"), Ok(()));
    assert_eq!(confirm_gate("  YES\t\r\n"), Ok(()));
    assert_eq!(confirm_gate("yes"), Err("yes"));
    assert_eq!(confirm_gate(" y "), Err("y"));
    assert_eq!(confirm_gate(""), Err(""));
    assert_eq!(confirm_gate("YES!"), Err("YES!"));
    assert_eq!(confirm_gate("Y ES"), Err("Y ES"));
}

#[test]
fn the_bundle_id_is_the_result() {
    let id = submitted_bundle_id(&object(vec![("result", text("uuid"))]));
    assert_eq!(id, Some(String::from("uuid")));
    assert_eq!(submitted_bundle_id(&object(vec![("error", text("busy"))])), None);
    assert_eq!(submitted_bundle_id(&object(vec![("result", Json::Null)])), None);
    assert_eq!(submitted_bundle_id(&text("uuid")), None);
}

#[test]
fn in_flight_replies_are_read() {
    for status in ["Failed", "Invalid"] {
        match in_flight_status(&reply(vec![("status", text(status))])) {
            InFlightStatus::Rejected(s) => assert_eq!(s, status),
            other => panic!("{other:?}"),
        }
    }
    assert!(matches!(
        in_flight_status(&reply(vec![("status", text("Landed"))])),
        InFlightStatus::Landed
    ));
    match in_flight_status(&reply(vec![("status", text("Pending"))])) {
        InFlightStatus::Waiting(s) => assert_eq!(s, Some(String::from("Pending"))),
        other => panic!("{other:?}"),
    }
    for unknown in [reply(vec![]), Json::Null, reply(vec![("status", Json::Null)])] {
        assert!(matches!(in_flight_status(&unknown), InFlightStatus::Waiting(None)));
    }
}

#[test]
fn landed_bundles_are_reconciled() {
    for status in ["processed", "confirmed", "finalized"] {
        for err in [Json::Null, object(vec![("Ok", Json::Null)])] {
            let ok = reply(vec![("confirmation_status", text(status)), ("err", err)]);
            assert!(matches!(reconcile_landed_bundle(&ok), Ok(s) if s == status));
        }
    }
    for unconfirmed in [
        Json::Null,
        reply(vec![]),
        reply(vec![("err", Json::Null)]),
        reply(vec![("confirmation_status", Json::Null)]),
    ] {
        assert!(matches!(
            reconcile_landed_bundle(&unconfirmed),
            Err(ReconcileError::Unconfirmed)
        ));
    }
    for err in [
        object(vec![("Err", text("custom"))]),
        object(vec![("Ok", text("not null"))]),
        object(vec![]),
        text("reverted"),
        Json::Bool(false),
        Json::Array(vec![]),
    ] {
        let reverted = reply(vec![("confirmation_status", text("finalized")), ("err", err)]);
        let reported = reverted.pointer(&["result", "value", "0", "err"]);
        match reconcile_landed_bundle(&reverted) {
            Err(ReconcileError::Reverted(e)) => assert_eq!(Some(e), reported),
            other => panic!("{other:?}"),
        }
    }
}

#[test]
fn a_poll_lands_only_on_a_settled_bundle() {
    for settled in ["confirmed", "finalized"] {
        let mut poll = BundlePoll::new(20);
        assert_eq!(poll.phase(), PollPhase::AskInFlight);
        poll.on_in_flight(&reply(vec![("status", text("Pending"))]));
        assert_eq!(poll.phase(), PollPhase::AskInFlight);
        poll.on_in_flight(&reply(vec![("status", text("Landed"))]));
        assert_eq!(poll.phase(), PollPhase::AskStatuses);
        for open in [
            Json::Null,
            reply(vec![("confirmation_status", text("processed"))]),
            reply(vec![("confirmation_status", text("something else"))]),
        ] {
            let _ = poll.on_statuses(&open);
            assert_eq!(poll.phase(), PollPhase::AskStatuses);
        }
        let answer = reply(vec![("confirmation_status", text(settled))]);
        assert!(matches!(poll.on_statuses(&answer), Ok(s) if s == settled));
        assert_eq!(poll.phase(), PollPhase::Landed);
    }
}

#[test]
fn an_unsettled_bundle_is_given_up() {
    let mut poll = BundlePoll::new(3);
    poll.on_in_flight(&Json::Null);
    poll.on_in_flight(&reply(vec![("status", text("Landed"))]));
    let processed = reply(vec![("confirmation_status", text("processed"))]);
    let _ = poll.on_statuses(&processed);
    assert_eq!(poll.phase(), PollPhase::AskStatuses);
    let _ = poll.on_statuses(&processed);
    assert_eq!(poll.phase(), PollPhase::Failed);
}

#[test]
fn a_reverted_or_rejected_bundle_fails() {
    let mut poll = BundlePoll::new(20);
    poll.on_in_flight(&reply(vec![("status", text("Landed"))]));
    let answer = reply(vec![("confirmation_status", text("finalized")), ("err", text("reverted"))]);
    assert!(poll.on_statuses(&answer).is_err());
    assert_eq!(poll.phase(), PollPhase::Failed);

    let mut poll = BundlePoll::new(20);
    poll.on_in_flight(&reply(vec![("status", text("Invalid"))]));
    assert_eq!(poll.phase(), PollPhase::Failed);
}

#[test]
fn polling_gives_up_after_its_attempts() {
    let mut poll = BundlePoll::new(3);
    for _ in 0..2 {
        poll.on_in_flight(&Json::Null);
        assert_eq!(poll.phase(), PollPhase::AskInFlight);
    }
    poll.on_in_flight(&Json::Null);
    assert_eq!(poll.phase(), PollPhase::Failed);
    assert_eq!(BundlePoll::new(0).phase(), PollPhase::Failed);
    assert_eq!(POLL_INTERVAL_MS, 500);
}
