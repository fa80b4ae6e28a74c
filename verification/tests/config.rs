use solana_arb_executor::base58::AddressError;
use solana_arb_executor::config::{
    parse_bool_env, parse_pubkey_env, parse_u32_env, parse_u64_env, require_env, Config,
    ConfigError, Environment, PubkeyEnvError, SolCap, SolCaps,
};

fn env(pairs: &[(&str, &str)]) -> Environment {
    pairs.iter().map(|(k, v)| (String::from(*k), String::from(*v))).collect()
}

fn required() -> Environment {
    env(&[
        ("ARB_RPC_URL", "https://rpc"),
        ("ARB_GRPC_URL", "https://grpc"),
        ("ARB_GRPC_TOKEN", "token"),
        ("ARB_JITO_URL", "https://jito"),
    ])
}

fn with(pairs: &[(&str, &str)]) -> Environment {
    let mut all = required();
    all.extend(env(pairs));
    all
}

fn unset() -> SolCaps {
    SolCaps {
        max_notional: SolCap::Unset,
        max_position: SolCap::Unset,
        max_daily_loss: SolCap::Unset,
    }
}

fn config(pairs: &[(&str, &str)]) -> Config {
    match Config::from_env(&with(pairs), unset()) {
        Ok(c) => c,
        Err(e) => panic!("{e:?}"),
    }
}

fn error(env: &Environment, caps: SolCaps) -> String {
    match Config::from_env(env, caps) {
        Ok(_) => panic!("accepted"),
        Err(e) => format!("{e:?}"),
    }
}

#[test]
fn defaults_are_safe() {
    let c = config(&[]);
    assert!(c.dry_run);
    assert!(c.require_confirm);
    assert_eq!(c.rpc_url, "https://rpc");
    assert_eq!(c.grpc_url, "https://grpc");
    assert_eq!(c.grpc_token, "token");
    assert_eq!(c.jito_block_engine_url, "https://jito");
    assert_eq!(c.risk_limits.max_notional_lamports, 1_000_000_000);
    assert_eq!(c.risk_limits.max_position_lamports, 2_000_000_000);
    assert_eq!(c.risk_limits.max_daily_loss_lamports, 500_000_000);
    assert_eq!(c.risk_limits.max_consecutive_reverts, 5);
    assert_eq!(c.spread_threshold_bps, 30);
    assert_eq!(c.cu_limit_estimate, 200_000);
    assert_eq!(c.cu_margin_bps, 1_500);
    assert_eq!(c.cu_price_microlamports, 10_000);
    assert_eq!(c.tip_bps, 5_000);
    assert_eq!(c.tip_floor_lamports, 1_000);
    assert_eq!(c.tip_ceil_lamports, 10_000_000);
}

#[test]
fn every_setting_is_read() {
    let all = with(&[
        ("ARB_DRY_RUN", "FALSE"),
        ("ARB_REQUIRE_CONFIRM", "No"),
        ("ARB_MAX_CONSECUTIVE_REVERTS", "7"),
        ("ARB_SPREAD_THRESHOLD_BPS", "31"),
        ("ARB_CU_LIMIT_ESTIMATE", "210000"),
        ("ARB_CU_MARGIN_BPS", "+1600"),
        ("ARB_CU_PRICE_MICROLAMPORTS", "18446744073709551615"),
        ("ARB_TIP_BPS", "6000"),
        ("ARB_TIP_FLOOR_LAMPORTS", "5"),
        ("ARB_TIP_CEIL_LAMPORTS", "5"),
    ]);
    let caps = SolCaps {
        max_notional: SolCap::Lamports(1),
        max_position: SolCap::Lamports(2),
        max_daily_loss: SolCap::Lamports(3),
    };
    let c = Config::from_env(&all, caps).unwrap();
    assert!(!c.dry_run);
    assert!(!c.require_confirm);
    assert_eq!(c.risk_limits.max_notional_lamports, 1);
    assert_eq!(c.risk_limits.max_position_lamports, 2);
    assert_eq!(c.risk_limits.max_daily_loss_lamports, 3);
    assert_eq!(c.risk_limits.max_consecutive_reverts, 7);
    assert_eq!(c.spread_threshold_bps, 31);
    assert_eq!(c.cu_limit_estimate, 210_000);
    assert_eq!(c.cu_margin_bps, 1_600);
    assert_eq!(c.cu_price_microlamports, u64::MAX);
    assert_eq!(c.tip_bps, 6_000);
    assert_eq!(c.tip_floor_lamports, 5);
    assert_eq!(c.tip_ceil_lamports, 5);
}

#[test]
fn missing_endpoints_are_errors() {
    for key in ["ARB_RPC_URL", "ARB_GRPC_URL", "ARB_GRPC_TOKEN", "ARB_JITO_URL"] {
        let rest: Environment = required().into_iter().filter(|(k, _)| k != key).collect();
        assert_eq!(error(&rest, unset()), format!("Missing {{ key: {key:?} }}"));
    }
}

#[test]
fn the_first_fault_is_reported() {
    let none = env(&[("ARB_REQUIRE_CONFIRM", "Maybe"), ("ARB_TIP_BPS", "x")]);
    assert_eq!(
        error(&none, unset()),
        "InvalidBool { key: \"ARB_REQUIRE_CONFIRM\", value: \"maybe\" }"
    );
    let caps = SolCaps { max_position: SolCap::Negative, ..unset() };
    assert_eq!(
        error(&with(&[("ARB_TIP_BPS", "x")]), caps),
        "NegativeAmount { key: \"ARB_MAX_POSITION_SOL\" }"
    );
    let caps = SolCaps { max_notional: SolCap::NotANumber, ..caps };
    assert_eq!(error(&required(), caps), "InvalidNumber { key: \"ARB_MAX_NOTIONAL_SOL\" }");
    let caps = SolCaps { max_daily_loss: SolCap::Negative, ..unset() };
    assert_eq!(error(&required(), caps), "NegativeAmount { key: \"ARB_MAX_DAILY_LOSS_SOL\" }");
}

#[test]
fn numbers_out_of_range_are_errors() {
    assert_eq!(
        error(&with(&[("ARB_TIP_BPS", "4294967296")]), unset()),
        "InvalidU32 { key: \"ARB_TIP_BPS\", value: \"4294967296\" }"
    );
    assert_eq!(
        error(&with(&[("ARB_CU_PRICE_MICROLAMPORTS", "-1")]), unset()),
        "InvalidU64 { key: \"ARB_CU_PRICE_MICROLAMPORTS\", value: \"-1\" }"
    );
}

#[test]
fn the_tip_floor_must_not_exceed_the_ceiling() {
    let crossed =
        with(&[("ARB_TIP_FLOOR_LAMPORTS", "6"), ("ARB_TIP_CEIL_LAMPORTS", "5")]);
    assert_eq!(error(&crossed, unset()), "TipFloorAboveCeil { floor: 6, ceil: 5 }");
}

#[test]
fn a_live_run_needs_every_limit() {
    let live = with(&[("ARB_DRY_RUN", "false")]);
    assert!(Config::from_env(&live, unset()).is_ok());
    let zero = SolCap::Lamports(0);
    let notional = SolCaps { max_notional: zero, ..unset() };
    assert_eq!(error(&live, notional), "ZeroLimit { key: \"ARB_MAX_NOTIONAL_SOL\" }");
    assert!(Config::from_env(&required(), notional).is_ok());
    let position = SolCaps { max_position: zero, ..unset() };
    assert_eq!(error(&live, position), "ZeroLimit { key: \"ARB_MAX_POSITION_SOL\" }");
    let daily = SolCaps { max_daily_loss: zero, ..unset() };
    assert_eq!(error(&live, daily), "ZeroLimit { key: \"ARB_MAX_DAILY_LOSS_SOL\" }");
    let reverts = with(&[("ARB_DRY_RUN", "0"), ("ARB_MAX_CONSECUTIVE_REVERTS", "0")]);
    assert_eq!(error(&reverts, unset()), "ZeroLimit { key: \"ARB_MAX_CONSECUTIVE_REVERTS\" }");
}

#[test]
fn booleans_are_read_in_any_case() {
    for text in ["true", "TRUE", "1", "yes", "Yes"] {
        let e = env(&[("K", text)]);
        assert!(parse_bool_env(&e, "K", false).unwrap());
    }
    for text in ["false", "False", "0", "no", "NO"] {
        let e = env(&[("K", text)]);
        assert!(!parse_bool_env(&e, "K", true).unwrap());
    }
    for text in ["", "on", " true", "2", "tru\u{c9}"] {
        let e = env(&[("K", text)]);
        match parse_bool_env(&e, "K", true) {
            Err(ConfigError::InvalidBool { key, value }) => {
                assert_eq!(key, "K");
                assert_eq!(value, text.to_ascii_lowercase());
            }
            other => panic!("{other:?}"),
        }
    }
    assert!(parse_bool_env(&env(&[]), "K", true).unwrap());
    assert!(!parse_bool_env(&env(&[]), "K", false).unwrap());
}

#[test]
fn helpers_fall_back_to_their_defaults() {
    let e = env(&[("A", "3"), ("A", "4")]);
    assert_eq!(parse_u32_env(&e, "A", 9).unwrap(), 3);
    assert_eq!(parse_u32_env(&e, "B", 9).unwrap(), 9);
    assert_eq!(parse_u64_env(&e, "A", 9).unwrap(), 3);
    assert_eq!(parse_u64_env(&e, "B", 9).unwrap(), 9);
    assert_eq!(require_env(&e, "A").unwrap(), "3");
    assert!(require_env(&e, "B").is_err());
}

#[test]
fn pool_addresses_come_from_variables() {
    let e = env(&[
        ("ARB_POOL_A", "11111111111111111111111111111111"),
        ("SHORT", "2NEpo7TZRRrLZSi2U"),
        ("BAD", "0OIl"),
    ]);
    assert_eq!(parse_pubkey_env(&e, "ARB_POOL_A").unwrap(), [0u8; 32]);
    match parse_pubkey_env(&e, "ARB_POOL_B") {
        Err(PubkeyEnvError::Missing { key }) => assert_eq!(key, "ARB_POOL_B"),
        other => panic!("{other:?}"),
    }
    match parse_pubkey_env(&e, "SHORT") {
        Err(PubkeyEnvError::Invalid { key, value, error }) => {
            assert_eq!(key, "SHORT");
            assert_eq!(value, "2NEpo7TZRRrLZSi2U");
            assert_eq!(error, AddressError::WrongLength(12));
        }
        other => panic!("{other:?}"),
    }
    match parse_pubkey_env(&e, "BAD") {
        Err(PubkeyEnvError::Invalid { error, .. }) => assert_eq!(error, AddressError::NotBase58),
        other => panic!("{other:?}"),
    }
}
