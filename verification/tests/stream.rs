use solana_arb_executor::stream::{
    decode_update, delivery, parse_account_update, AccountSnapshot, AccountUpdateError, Commitment,
    Delivery, RawAccountInfo, RawAccountUpdate, RawUpdate, Reconnect, ReconnectAction, StreamConfig,
    StreamUpdate,
};

fn info() -> RawAccountInfo {
    RawAccountInfo {
        pubkey: vec![1; 32],
        lamports: 77,
        owner: vec![2; 32],
        executable: true,
        rent_epoch: 9,
        data: vec![3, 4, 5],
    }
}

fn update(account: Option<RawAccountInfo>) -> RawAccountUpdate {
    RawAccountUpdate { account, slot: 42 }
}

#[test]
fn account_updates_are_parsed() {
    let snap: AccountSnapshot = parse_account_update(&update(Some(info()))).unwrap();
    assert_eq!(snap.pubkey, [1; 32]);
    assert_eq!(snap.slot, 42);
    assert_eq!(snap.lamports, 77);
    assert_eq!(snap.data, vec![3, 4, 5]);
    assert_eq!(snap.owner, [2; 32]);
    assert!(snap.executable);
    assert_eq!(snap.rent_epoch, 9);
}

#[test]
fn bad_account_updates_are_refused() {
    assert_eq!(
        parse_account_update(&update(None)).err(),
        Some(AccountUpdateError::MissingAccount)
    );
    let mut short = info();
    short.pubkey = vec![1; 31];
    short.owner = vec![];
    assert_eq!(
        parse_account_update(&update(Some(short))).err(),
        Some(AccountUpdateError::BadPubkey)
    );
    let mut long = info();
    long.owner = vec![2; 33];
    assert_eq!(
        parse_account_update(&update(Some(long))).err(),
        Some(AccountUpdateError::BadOwner)
    );
}

#[test]
fn messages_are_decoded_or_dropped() {
    assert!(matches!(decode_update(&RawUpdate::Slot(7)), Some(StreamUpdate::Slot(7))));
    assert!(decode_update(&RawUpdate::Other).is_none());
    assert!(decode_update(&RawUpdate::Account(update(None))).is_none());
    match decode_update(&RawUpdate::Account(update(Some(info())))) {
        Some(StreamUpdate::Account(snap)) => assert_eq!(snap.lamports, 77),
        other => panic!("{other:?}"),
    }
}

#[test]
fn only_slots_may_be_dropped() {
    assert_eq!(delivery(&StreamUpdate::Slot(1)), Delivery::BestEffort);
    let snap = parse_account_update(&update(Some(info()))).unwrap();
    assert_eq!(delivery(&StreamUpdate::Account(snap)), Delivery::Blocking);
}

fn config(url: &str, token: &str) -> StreamConfig {
    StreamConfig {
        grpc_url: String::from(url),
        grpc_token: String::from(token),
        account_keys: vec![String::from("a"), String::from("b")],
        channel_capacity: 256,
    }
}

#[test]
fn subscriptions_follow_the_configuration() {
    let live = config("https://grpc.example.com", "some-token").subscription();
    assert_eq!(live.endpoint, "https://grpc.example.com");
    assert_eq!(live.x_token, Some(String::from("some-token")));
    assert!(live.tls);
    assert_eq!(live.account_filter, "arb_pools");
    assert_eq!(live.account_keys, vec![String::from("a"), String::from("b")]);
    assert_eq!(live.slot_filter, "slots");
    assert!(live.filter_slots_by_commitment);
    assert_eq!(live.commitment, Commitment::Processed);

    let local = config("http://localhost:10000", "").subscription();
    assert_eq!(local.x_token, None);
    assert!(!local.tls);
}

#[test]
fn backoff_doubles_up_to_the_cap_and_starts_over() {
    let mut policy = Reconnect::new();
    for delay in [250, 500, 1_000, 2_000, 4_000, 8_000, 16_000, 30_000, 30_000] {
        assert_eq!(policy.on_stream_end(false), ReconnectAction::SleepMs(delay));
    }
    policy.on_account_delivered();
    assert_eq!(policy.on_stream_end(false), ReconnectAction::SleepMs(250));
    assert_eq!(policy.on_stream_end(true), ReconnectAction::Stop);
    assert_eq!(policy.on_stream_end(false), ReconnectAction::SleepMs(500));
}
