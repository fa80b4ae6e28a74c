//! Configuration from environment variables.
//!
//! Secrets come in through the environment and have no defaults. `ARB_DRY_RUN`
//! and `ARB_REQUIRE_CONFIRM` both default to true, so that a configuration is
//! safe unless it is told otherwise. A live run needs every risk limit to be
//! above zero.

use crate::base58::{
    is_address_error, is_address_text, is_base58_of, law_an_address_error_is_true,
    law_base58_text_names_one_key, parse_pubkey, AddressError,
};
use crate::risk::RiskLimits;
use crate::text::{
    ascii_lower, decimal, law_decimal_text_reads_back, parse_unsigned, same_text, unsigned_value,
};
use vstd::prelude::*;
use vstd::string::*;

verus! {

/// Runtime configuration, built once at startup.
#[derive(Debug, Clone)]
pub struct Config {
    /// When true, report the intended bundle but never send it.
    pub dry_run: bool,
    /// Whether the operator wants to be asked before a bundle is sent. A typed
    /// `YES` is needed either way; the flag is only reported.
    pub require_confirm: bool,
    pub rpc_url: String,
    pub grpc_url: String,
    pub grpc_token: String,
    pub jito_block_engine_url: String,
    pub risk_limits: RiskLimits,
    /// Minimum spread in basis points of a candidate.
    pub spread_threshold_bps: u32,
    /// Estimate of the compute units per transaction.
    pub cu_limit_estimate: u32,
    /// Margin on top of that estimate, in basis points.
    pub cu_margin_bps: u32,
    /// Priority fee price in micro-lamports per compute unit.
    pub cu_price_microlamports: u64,
    /// Tip as basis points of the net edge.
    pub tip_bps: u32,
    /// A tip is never below this.
    pub tip_floor_lamports: u64,
    /// A tip is never above this.
    pub tip_ceil_lamports: u64,
}

/// A cap that the environment gives in SOL, in whole lamports.
#[derive(Debug, Clone, Copy, PartialEq, Eq, Structural)]
pub enum SolCap {
    /// The variable is not set.
    Unset,
    /// The amount, rounded to whole lamports.
    Lamports(u64),
    /// The text of the variable is not a number.
    NotANumber,
    /// The amount is negative.
    Negative,
}

/// The caps that the environment gives in SOL.
#[derive(Debug, Clone, Copy, PartialEq, Eq, Structural)]
pub struct SolCaps {
    /// `ARB_MAX_NOTIONAL_SOL`
    pub max_notional: SolCap,
    /// `ARB_MAX_POSITION_SOL`
    pub max_position: SolCap,
    /// `ARB_MAX_DAILY_LOSS_SOL`
    pub max_daily_loss: SolCap,
}

/// Why an environment holds no configuration.
#[derive(Debug)]
pub enum ConfigError {
    /// A required variable is not set.
    Missing { key: String },
    /// The value is not a boolean; it is given in lower case.
    InvalidBool { key: String, value: String },
    /// The value is not a `u32`.
    InvalidU32 { key: String, value: String },
    /// The value is not a `u64`.
    InvalidU64 { key: String, value: String },
    /// The value is not a number.
    InvalidNumber { key: String },
    /// The amount is negative.
    NegativeAmount { key: String },
    /// The tip floor is above the tip ceiling.
    TipFloorAboveCeil { floor: u64, ceil: u64 },
    /// A risk limit is zero, and the run is live.
    ZeroLimit { key: String },
}

/// Why an environment holds no configuration, as mathematical values.
pub enum ConfigFault {
    Missing { key: Seq<char> },
    InvalidBool { key: Seq<char>, value: Seq<char> },
    InvalidU32 { key: Seq<char>, value: Seq<char> },
    InvalidU64 { key: Seq<char>, value: Seq<char> },
    InvalidNumber { key: Seq<char> },
    NegativeAmount { key: Seq<char> },
    TipFloorAboveCeil { floor: nat, ceil: nat },
    ZeroLimit { key: Seq<char> },
}

impl View for ConfigError {
    type V = ConfigFault;

    open spec fn view(&self) -> ConfigFault {
        match *self {
            ConfigError::Missing { key } => ConfigFault::Missing { key: key@ },
            ConfigError::InvalidBool { key, value } => ConfigFault::InvalidBool {
                key: key@,
                value: value@,
            },
            ConfigError::InvalidU32 { key, value } => ConfigFault::InvalidU32 {
                key: key@,
                value: value@,
            },
            ConfigError::InvalidU64 { key, value } => ConfigFault::InvalidU64 {
                key: key@,
                value: value@,
            },
            ConfigError::InvalidNumber { key } => ConfigFault::InvalidNumber { key: key@ },
            ConfigError::NegativeAmount { key } => ConfigFault::NegativeAmount { key: key@ },
            ConfigError::TipFloorAboveCeil { floor, ceil } => ConfigFault::TipFloorAboveCeil {
                floor: floor as nat,
                ceil: ceil as nat,
            },
            ConfigError::ZeroLimit { key } => ConfigFault::ZeroLimit { key: key@ },
        }
    }
}

/// The variables of an environment: names and values.
pub type Environment = Vec<(String, String)>;

/// The value of the first variable of that name, counted from `from` on.
pub open spec fn value_from(env: Seq<(String, String)>, key: Seq<char>, from: int) -> Option<
    Seq<char>,
>
    decreases env.len() - from,
{
    if from < 0 || from >= env.len() {
        None
    } else if env[from].0@ == key {
        Some(env[from].1@)
    } else {
        value_from(env, key, from + 1)
    }
}

/// The value of a variable, if it is set.
pub open spec fn env_value(env: Seq<(String, String)>, key: Seq<char>) -> Option<Seq<char>> {
    value_from(env, key, 0)
}

/// The value of a variable, if it is set.
pub fn env_var<'a>(env: &'a Environment, key: &str) -> (value: Option<&'a String>)
    ensures
        match value {
            Some(v) => env_value(env@, key@) == Some(v@),
            None => env_value(env@, key@) is None,
        },
{
    let mut i: usize = 0;
    while i < env.len()
        invariant
            i <= env@.len(),
            env_value(env@, key@) == value_from(env@, key@, i as int),
        decreases env@.len() - i,
    {
        if same_text(env[i].0.as_str(), key) {
            return Some(&env[i].1);
        }
        i = i + 1;
    }
    None
}

/// What a required variable holds.
pub open spec fn text_reading(env: Seq<(String, String)>, key: Seq<char>) -> Result<
    Seq<char>,
    ConfigFault,
> {
    match env_value(env, key) {
        Some(value) => Ok(value),
        None => Err(ConfigFault::Missing { key }),
    }
}

/// What a boolean variable holds: `true`, `1` and `yes` are true, `false`, `0`
/// and `no` are false, in any case.
pub open spec fn bool_reading(env: Seq<(String, String)>, key: Seq<char>, default: bool) -> Result<
    bool,
    ConfigFault,
> {
    match env_value(env, key) {
        None => Ok(default),
        Some(value) => {
            let lower = ascii_lower(value);
            if lower == "true"@ || lower == "1"@ || lower == "yes"@ {
                Ok(true)
            } else if lower == "false"@ || lower == "0"@ || lower == "no"@ {
                Ok(false)
            } else {
                Err(ConfigFault::InvalidBool { key, value: lower })
            }
        },
    }
}

/// What a `u32` variable holds.
pub open spec fn u32_reading(env: Seq<(String, String)>, key: Seq<char>, default: nat) -> Result<
    nat,
    ConfigFault,
> {
    match env_value(env, key) {
        None => Ok(default),
        Some(value) => match unsigned_value(value, u32::MAX as nat) {
            Some(n) => Ok(n),
            None => Err(ConfigFault::InvalidU32 { key, value }),
        },
    }
}

/// What a `u64` variable holds.
pub open spec fn u64_reading(env: Seq<(String, String)>, key: Seq<char>, default: nat) -> Result<
    nat,
    ConfigFault,
> {
    match env_value(env, key) {
        None => Ok(default),
        Some(value) => match unsigned_value(value, u64::MAX as nat) {
            Some(n) => Ok(n),
            None => Err(ConfigFault::InvalidU64 { key, value }),
        },
    }
}

/// What a cap in SOL amounts to, in lamports.
pub open spec fn cap_reading(cap: SolCap, key: Seq<char>, default: nat) -> Result<
    nat,
    ConfigFault,
> {
    match cap {
        SolCap::Unset => Ok(default),
        SolCap::Lamports(n) => Ok(n as nat),
        SolCap::NotANumber => Err(ConfigFault::InvalidNumber { key }),
        SolCap::Negative => Err(ConfigFault::NegativeAmount { key }),
    }
}

/// A required variable.
pub fn require_env(env: &Environment, key: &str) -> (value: Result<String, ConfigError>)
    ensures
        match value {
            Ok(v) => text_reading(env@, key@) == Ok::<Seq<char>, ConfigFault>(v@),
            Err(e) => text_reading(env@, key@) == Err::<Seq<char>, ConfigFault>(e@),
        },
{
    match env_var(env, key) {
        Some(value) => Ok(value.clone()),
        None => Err(ConfigError::Missing { key: key.to_owned() }),
    }
}

/// A boolean variable, or `default` where it is not set.
pub fn parse_bool_env(env: &Environment, key: &str, default: bool) -> (value: Result<
    bool,
    ConfigError,
>)
    ensures
        match value {
            Ok(v) => bool_reading(env@, key@, default) == Ok::<bool, ConfigFault>(v),
            Err(e) => bool_reading(env@, key@, default) == Err::<bool, ConfigFault>(e@),
        },
{
    match env_var(env, key) {
        None => Ok(default),
        Some(value) => {
            let lower: String = value.as_str().to_ascii_lowercase();
            let text: &str = lower.as_str();
            if same_text(text, "true") || same_text(text, "1") || same_text(text, "yes") {
                Ok(true)
            } else if same_text(text, "false") || same_text(text, "0") || same_text(text, "no") {
                Ok(false)
            } else {
                Err(ConfigError::InvalidBool { key: key.to_owned(), value: lower })
            }
        },
    }
}

/// A `u32` variable, or `default` where it is not set.
pub fn parse_u32_env(env: &Environment, key: &str, default: u32) -> (value: Result<
    u32,
    ConfigError,
>)
    ensures
        match value {
            Ok(v) => u32_reading(env@, key@, default as nat) == Ok::<nat, ConfigFault>(v as nat),
            Err(e) => u32_reading(env@, key@, default as nat) == Err::<nat, ConfigFault>(e@),
        },
{
    match env_var(env, key) {
        None => Ok(default),
        Some(value) => match parse_unsigned(value.as_str(), u32::MAX as u64) {
            Some(n) => Ok(n as u32),
            None => Err(ConfigError::InvalidU32 { key: key.to_owned(), value: value.clone() }),
        },
    }
}

/// A `u64` variable, or `default` where it is not set.
pub fn parse_u64_env(env: &Environment, key: &str, default: u64) -> (value: Result<
    u64,
    ConfigError,
>)
    ensures
        match value {
            Ok(v) => u64_reading(env@, key@, default as nat) == Ok::<nat, ConfigFault>(v as nat),
            Err(e) => u64_reading(env@, key@, default as nat) == Err::<nat, ConfigFault>(e@),
        },
{
    match env_var(env, key) {
        None => Ok(default),
        Some(value) => match parse_unsigned(value.as_str(), u64::MAX) {
            Some(n) => Ok(n),
            None => Err(ConfigError::InvalidU64 { key: key.to_owned(), value: value.clone() }),
        },
    }
}

fn sol_cap(cap: SolCap, key: &str, default: u64) -> (value: Result<u64, ConfigError>)
    ensures
        match value {
            Ok(v) => cap_reading(cap, key@, default as nat) == Ok::<nat, ConfigFault>(v as nat),
            Err(e) => cap_reading(cap, key@, default as nat) == Err::<nat, ConfigFault>(e@),
        },
{
    match cap {
        SolCap::Unset => Ok(default),
        SolCap::Lamports(n) => Ok(n),
        SolCap::NotANumber => Err(ConfigError::InvalidNumber { key: key.to_owned() }),
        SolCap::Negative => Err(ConfigError::NegativeAmount { key: key.to_owned() }),
    }
}

/// The fault of a reading, if it has one.
pub open spec fn fault<T>(reading: Result<T, ConfigFault>) -> Option<ConfigFault> {
    match reading {
        Ok(_) => None,
        Err(e) => Some(e),
    }
}

/// The first of two faults.
pub open spec fn or(first: Option<ConfigFault>, second: Option<ConfigFault>) -> Option<
    ConfigFault,
> {
    if first is Some {
        first
    } else {
        second
    }
}

/// The fault of the flags and endpoints that is met first.
pub open spec fn endpoint_fault(env: Seq<(String, String)>) -> Option<ConfigFault> {
    or(
        fault(bool_reading(env, "ARB_DRY_RUN"@, true)),
        or(
            fault(bool_reading(env, "ARB_REQUIRE_CONFIRM"@, true)),
            or(
                fault(text_reading(env, "ARB_RPC_URL"@)),
                or(
                    fault(text_reading(env, "ARB_GRPC_URL"@)),
                    or(
                        fault(text_reading(env, "ARB_GRPC_TOKEN"@)),
                        fault(text_reading(env, "ARB_JITO_URL"@)),
                    ),
                ),
            ),
        ),
    )
}

/// The fault of the risk limits that is met first.
pub open spec fn limit_fault(env: Seq<(String, String)>, caps: SolCaps) -> Option<ConfigFault> {
    or(
        fault(cap_reading(caps.max_notional, "ARB_MAX_NOTIONAL_SOL"@, 1_000_000_000)),
        or(
            fault(cap_reading(caps.max_position, "ARB_MAX_POSITION_SOL"@, 2_000_000_000)),
            or(
                fault(cap_reading(caps.max_daily_loss, "ARB_MAX_DAILY_LOSS_SOL"@, 500_000_000)),
                fault(u32_reading(env, "ARB_MAX_CONSECUTIVE_REVERTS"@, 5)),
            ),
        ),
    )
}

/// The fault of the detection and sizing settings that is met first.
pub open spec fn sizing_fault(env: Seq<(String, String)>) -> Option<ConfigFault> {
    or(
        fault(u32_reading(env, "ARB_SPREAD_THRESHOLD_BPS"@, 30)),
        or(
            fault(u32_reading(env, "ARB_CU_LIMIT_ESTIMATE"@, 200_000)),
            or(
                fault(u32_reading(env, "ARB_CU_MARGIN_BPS"@, 1_500)),
                fault(u64_reading(env, "ARB_CU_PRICE_MICROLAMPORTS"@, 10_000)),
            ),
        ),
    )
}

/// The fault of the tip settings that is met first. A floor above the ceiling
/// is a fault too.
pub open spec fn tip_fault(env: Seq<(String, String)>) -> Option<ConfigFault> {
    let floor = u64_reading(env, "ARB_TIP_FLOOR_LAMPORTS"@, 1_000);
    let ceil = u64_reading(env, "ARB_TIP_CEIL_LAMPORTS"@, 10_000_000);
    or(
        fault(u32_reading(env, "ARB_TIP_BPS"@, 5_000)),
        or(
            fault(floor),
            or(
                fault(ceil),
                if floor->Ok_0 > ceil->Ok_0 {
                    Some(
                        ConfigFault::TipFloorAboveCeil { floor: floor->Ok_0, ceil: ceil->Ok_0 },
                    )
                } else {
                    None
                },
            ),
        ),
    )
}

/// The fault of a limit that is zero.
pub open spec fn zero_fault(limit: Result<nat, ConfigFault>, key: Seq<char>) -> Option<ConfigFault> {
    if limit == Ok::<nat, ConfigFault>(0) {
        Some(ConfigFault::ZeroLimit { key })
    } else {
        None
    }
}

/// The first risk limit that is zero, where the run is live.
pub open spec fn live_fault(env: Seq<(String, String)>, caps: SolCaps) -> Option<ConfigFault> {
    if bool_reading(env, "ARB_DRY_RUN"@, true) == Ok::<bool, ConfigFault>(false) {
        or(
            zero_fault(
                cap_reading(caps.max_notional, "ARB_MAX_NOTIONAL_SOL"@, 1_000_000_000),
                "ARB_MAX_NOTIONAL_SOL"@,
            ),
            or(
                zero_fault(
                    cap_reading(caps.max_position, "ARB_MAX_POSITION_SOL"@, 2_000_000_000),
                    "ARB_MAX_POSITION_SOL"@,
                ),
                or(
                    zero_fault(
                        cap_reading(caps.max_daily_loss, "ARB_MAX_DAILY_LOSS_SOL"@, 500_000_000),
                        "ARB_MAX_DAILY_LOSS_SOL"@,
                    ),
                    zero_fault(
                        u32_reading(env, "ARB_MAX_CONSECUTIVE_REVERTS"@, 5),
                        "ARB_MAX_CONSECUTIVE_REVERTS"@,
                    ),
                ),
            ),
        )
    } else {
        None
    }
}

/// The fault of an environment that is met first, if it has one.
pub open spec fn first_fault(env: Seq<(String, String)>, caps: SolCaps) -> Option<ConfigFault> {
    or(
        endpoint_fault(env),
        or(
            limit_fault(env, caps),
            or(sizing_fault(env), or(tip_fault(env), live_fault(env, caps))),
        ),
    )
}

impl Config {
    /// Whether every setting is what the environment says, or its default.
    pub open spec fn reflects(self, env: Seq<(String, String)>, caps: SolCaps) -> bool {
        &&& bool_reading(env, "ARB_DRY_RUN"@, true) == Ok::<bool, ConfigFault>(self.dry_run)
        &&& bool_reading(env, "ARB_REQUIRE_CONFIRM"@, true) == Ok::<bool, ConfigFault>(
            self.require_confirm,
        )
        &&& env_value(env, "ARB_RPC_URL"@) == Some(self.rpc_url@)
        &&& env_value(env, "ARB_GRPC_URL"@) == Some(self.grpc_url@)
        &&& env_value(env, "ARB_GRPC_TOKEN"@) == Some(self.grpc_token@)
        &&& env_value(env, "ARB_JITO_URL"@) == Some(self.jito_block_engine_url@)
        &&& cap_reading(caps.max_notional, "ARB_MAX_NOTIONAL_SOL"@, 1_000_000_000) == Ok::<
            nat,
            ConfigFault,
        >(self.risk_limits.max_notional_lamports as nat)
        &&& cap_reading(caps.max_position, "ARB_MAX_POSITION_SOL"@, 2_000_000_000) == Ok::<
            nat,
            ConfigFault,
        >(self.risk_limits.max_position_lamports as nat)
        &&& cap_reading(caps.max_daily_loss, "ARB_MAX_DAILY_LOSS_SOL"@, 500_000_000) == Ok::<
            nat,
            ConfigFault,
        >(self.risk_limits.max_daily_loss_lamports as nat)
        &&& u32_reading(env, "ARB_MAX_CONSECUTIVE_REVERTS"@, 5) == Ok::<nat, ConfigFault>(
            self.risk_limits.max_consecutive_reverts as nat,
        )
        &&& u32_reading(env, "ARB_SPREAD_THRESHOLD_BPS"@, 30) == Ok::<nat, ConfigFault>(
            self.spread_threshold_bps as nat,
        )
        &&& u32_reading(env, "ARB_CU_LIMIT_ESTIMATE"@, 200_000) == Ok::<nat, ConfigFault>(
            self.cu_limit_estimate as nat,
        )
        &&& u32_reading(env, "ARB_CU_MARGIN_BPS"@, 1_500) == Ok::<nat, ConfigFault>(
            self.cu_margin_bps as nat,
        )
        &&& u64_reading(env, "ARB_CU_PRICE_MICROLAMPORTS"@, 10_000) == Ok::<nat, ConfigFault>(
            self.cu_price_microlamports as nat,
        )
        &&& u32_reading(env, "ARB_TIP_BPS"@, 5_000) == Ok::<nat, ConfigFault>(self.tip_bps as nat)
        &&& u64_reading(env, "ARB_TIP_FLOOR_LAMPORTS"@, 1_000) == Ok::<nat, ConfigFault>(
            self.tip_floor_lamports as nat,
        )
        &&& u64_reading(env, "ARB_TIP_CEIL_LAMPORTS"@, 10_000_000) == Ok::<nat, ConfigFault>(
            self.tip_ceil_lamports as nat,
        )
    }

    /// Build the configuration from the variables of the environment. The first
    /// variable that is missing or does not parse is the error; limits that
    /// contradict each other or rule out a live run come last.
    pub fn from_env(env: &Environment, caps: SolCaps) -> (config: Result<Config, ConfigError>)
        ensures
            match config {
                Ok(c) => first_fault(env@, caps) is None && c.reflects(env@, caps)
                    && c.tip_floor_lamports <= c.tip_ceil_lamports,
                Err(e) => first_fault(env@, caps) == Some(e@),
            },
    {
        let dry_run: bool = match parse_bool_env(env, "ARB_DRY_RUN", true) {
            Ok(v) => v,
            Err(e) => return Err(e),
        };
        let require_confirm: bool = match parse_bool_env(env, "ARB_REQUIRE_CONFIRM", true) {
            Ok(v) => v,
            Err(e) => return Err(e),
        };
        let rpc_url: String = match require_env(env, "ARB_RPC_URL") {
            Ok(v) => v,
            Err(e) => return Err(e),
        };
        let grpc_url: String = match require_env(env, "ARB_GRPC_URL") {
            Ok(v) => v,
            Err(e) => return Err(e),
        };
        let grpc_token: String = match require_env(env, "ARB_GRPC_TOKEN") {
            Ok(v) => v,
            Err(e) => return Err(e),
        };
        let jito_block_engine_url: String = match require_env(env, "ARB_JITO_URL") {
            Ok(v) => v,
            Err(e) => return Err(e),
        };
        let max_notional_lamports: u64 = match sol_cap(
            caps.max_notional,
            "ARB_MAX_NOTIONAL_SOL",
            1_000_000_000,
        ) {
            Ok(v) => v,
            Err(e) => return Err(e),
        };
        let max_position_lamports: u64 = match sol_cap(
            caps.max_position,
            "ARB_MAX_POSITION_SOL",
            2_000_000_000,
        ) {
            Ok(v) => v,
            Err(e) => return Err(e),
        };
        let max_daily_loss_lamports: u64 = match sol_cap(
            caps.max_daily_loss,
            "ARB_MAX_DAILY_LOSS_SOL",
            500_000_000,
        ) {
            Ok(v) => v,
            Err(e) => return Err(e),
        };
        let max_consecutive_reverts: u32 = match parse_u32_env(env, "ARB_MAX_CONSECUTIVE_REVERTS", 5) {
            Ok(v) => v,
            Err(e) => return Err(e),
        };
        let spread_threshold_bps: u32 = match parse_u32_env(env, "ARB_SPREAD_THRESHOLD_BPS", 30) {
            Ok(v) => v,
            Err(e) => return Err(e),
        };
        let cu_limit_estimate: u32 = match parse_u32_env(env, "ARB_CU_LIMIT_ESTIMATE", 200_000) {
            Ok(v) => v,
            Err(e) => return Err(e),
        };
        let cu_margin_bps: u32 = match parse_u32_env(env, "ARB_CU_MARGIN_BPS", 1_500) {
            Ok(v) => v,
            Err(e) => return Err(e),
        };
        let cu_price_microlamports: u64 = match parse_u64_env(env, "ARB_CU_PRICE_MICROLAMPORTS", 10_000) {
            Ok(v) => v,
            Err(e) => return Err(e),
        };
        let tip_bps: u32 = match parse_u32_env(env, "ARB_TIP_BPS", 5_000) {
            Ok(v) => v,
            Err(e) => return Err(e),
        };
        let tip_floor_lamports: u64 = match parse_u64_env(env, "ARB_TIP_FLOOR_LAMPORTS", 1_000) {
            Ok(v) => v,
            Err(e) => return Err(e),
        };
        let tip_ceil_lamports: u64 = match parse_u64_env(env, "ARB_TIP_CEIL_LAMPORTS", 10_000_000) {
            Ok(v) => v,
            Err(e) => return Err(e),
        };
        if tip_floor_lamports > tip_ceil_lamports {
            return Err(
                ConfigError::TipFloorAboveCeil {
                    floor: tip_floor_lamports,
                    ceil: tip_ceil_lamports,
                },
            );
        }
        if !dry_run {
            if max_notional_lamports == 0 {
                return Err(zero_limit("ARB_MAX_NOTIONAL_SOL"));
            }
            if max_position_lamports == 0 {
                return Err(zero_limit("ARB_MAX_POSITION_SOL"));
            }
            if max_daily_loss_lamports == 0 {
                return Err(zero_limit("ARB_MAX_DAILY_LOSS_SOL"));
            }
            if max_consecutive_reverts == 0 {
                return Err(zero_limit("ARB_MAX_CONSECUTIVE_REVERTS"));
            }
        }
        Ok(
            Config {
                dry_run,
                require_confirm,
                rpc_url,
                grpc_url,
                grpc_token,
                jito_block_engine_url,
                risk_limits: RiskLimits {
                    max_notional_lamports,
                    max_position_lamports,
                    max_daily_loss_lamports,
                    max_consecutive_reverts,
                },
                spread_threshold_bps,
                cu_limit_estimate,
                cu_margin_bps,
                cu_price_microlamports,
                tip_bps,
                tip_floor_lamports,
                tip_ceil_lamports,
            },
        )
    }
}

fn zero_limit(key: &str) -> (error: ConfigError)
    ensures
        error@ == (ConfigFault::ZeroLimit { key: key@ }),
{
    ConfigError::ZeroLimit { key: key.to_owned() }
}

/// Why a variable does not name an account.
#[derive(Debug)]
pub enum PubkeyEnvError {
    /// The variable is not set.
    Missing { key: String },
    /// Its value is not the address of an account.
    Invalid { key: String, value: String, error: AddressError },
}

/// The account that a required variable names, in base 58.
pub fn parse_pubkey_env(env: &Environment, key: &str) -> (account: Result<
    [u8; 32],
    PubkeyEnvError,
>)
    ensures
        is_pubkey_reading(account, env@, key@),
        match account {
            Ok(k) => env_value(env@, key@) matches Some(value) && is_base58_of(value, k@),
            Err(PubkeyEnvError::Missing { key: name }) => env_value(env@, key@) is None && name@
                == key@,
            Err(PubkeyEnvError::Invalid { key: name, value: text, error }) => env_value(
                env@,
                key@,
            ) == Some(text@) && name@ == key@ && is_address_error(text@, error),
        },
        account is Ok <==> (env_value(env@, key@) matches Some(value) && is_address_text(value)),
{
    match env_var(env, key) {
        None => Err(PubkeyEnvError::Missing { key: key.to_owned() }),
        Some(value) => match parse_pubkey(value.as_str()) {
            Ok(account) => Ok(account),
            Err(error) => Err(
                PubkeyEnvError::Invalid { key: key.to_owned(), value: value.clone(), error },
            ),
        },
    }
}

/// A configuration is safe by default: where neither flag is set, nothing is
/// sent and confirmation is wanted.
pub proof fn law_unset_flags_are_safe(env: Seq<(String, String)>, caps: SolCaps, config: Config)
    requires
        config.reflects(env, caps),
    ensures
        env_value(env, "ARB_DRY_RUN"@) is None ==> config.dry_run,
        env_value(env, "ARB_REQUIRE_CONFIRM"@) is None ==> config.require_confirm,
{
}

/// Whether a variable is set to one of the spellings of false.
pub open spec fn switched_off(env: Seq<(String, String)>, key: Seq<char>) -> bool {
    env_value(env, key) matches Some(value) && {
        let lower = ascii_lower(value);
        lower == "false"@ || lower == "0"@ || lower == "no"@
    }
}

/// Live submission needs a variable that is explicitly set to false, and so does
/// a configuration that asks for no confirmation.
pub proof fn law_live_submission_is_opted_into(
    env: Seq<(String, String)>,
    caps: SolCaps,
    config: Config,
)
    requires
        config.reflects(env, caps),
    ensures
        !config.dry_run <==> switched_off(env, "ARB_DRY_RUN"@),
        !config.require_confirm <==> switched_off(env, "ARB_REQUIRE_CONFIRM"@),
{
    lemma_spellings_differ();
}

proof fn lemma_spellings_differ()
    ensures
        "true"@ != "false"@,
        "true"@ != "0"@,
        "true"@ != "no"@,
        "1"@ != "false"@,
        "1"@ != "0"@,
        "1"@ != "no"@,
        "yes"@ != "false"@,
        "yes"@ != "0"@,
        "yes"@ != "no"@,
{
    reveal_strlit("true");
    reveal_strlit("1");
    reveal_strlit("yes");
    reveal_strlit("false");
    reveal_strlit("0");
    reveal_strlit("no");
    assert("true"@[0] == 't');
    assert("1"@[0] == '1');
    assert("yes"@[0] == 'y');
    assert("false"@[0] == 'f');
    assert("0"@[0] == '0');
    assert("no"@[0] == 'n');
}

/// A live run has every risk limit above zero.
pub proof fn law_live_runs_have_every_limit(
    env: Seq<(String, String)>,
    caps: SolCaps,
    config: Config,
)
    requires
        first_fault(env, caps) is None,
        config.reflects(env, caps),
        !config.dry_run,
    ensures
        config.risk_limits.max_notional_lamports > 0,
        config.risk_limits.max_position_lamports > 0,
        config.risk_limits.max_daily_loss_lamports > 0,
        config.risk_limits.max_consecutive_reverts > 0,
{
}

/// The endpoints and the token have no defaults: without any one of them there
/// is no configuration.
pub proof fn law_endpoints_are_required(env: Seq<(String, String)>, caps: SolCaps)
    requires
        first_fault(env, caps) is None,
    ensures
        env_value(env, "ARB_RPC_URL"@) is Some,
        env_value(env, "ARB_GRPC_URL"@) is Some,
        env_value(env, "ARB_GRPC_TOKEN"@) is Some,
        env_value(env, "ARB_JITO_URL"@) is Some,
{
}

/// Whether only required variables are set.
pub open spec fn only_required_set(env: Seq<(String, String)>, caps: SolCaps) -> bool {
    &&& caps.max_notional == SolCap::Unset
    &&& caps.max_position == SolCap::Unset
    &&& caps.max_daily_loss == SolCap::Unset
    &&& env_value(env, "ARB_DRY_RUN"@) is None
    &&& env_value(env, "ARB_REQUIRE_CONFIRM"@) is None
    &&& env_value(env, "ARB_MAX_CONSECUTIVE_REVERTS"@) is None
    &&& env_value(env, "ARB_SPREAD_THRESHOLD_BPS"@) is None
    &&& env_value(env, "ARB_CU_LIMIT_ESTIMATE"@) is None
    &&& env_value(env, "ARB_CU_MARGIN_BPS"@) is None
    &&& env_value(env, "ARB_CU_PRICE_MICROLAMPORTS"@) is None
    &&& env_value(env, "ARB_TIP_BPS"@) is None
    &&& env_value(env, "ARB_TIP_FLOOR_LAMPORTS"@) is None
    &&& env_value(env, "ARB_TIP_CEIL_LAMPORTS"@) is None
}

/// Every optional variable has a default: the required ones are enough for a
/// configuration, and the rest is then as documented.
pub proof fn law_required_variables_are_enough(env: Seq<(String, String)>, caps: SolCaps)
    requires
        only_required_set(env, caps),
        env_value(env, "ARB_RPC_URL"@) is Some,
        env_value(env, "ARB_GRPC_URL"@) is Some,
        env_value(env, "ARB_GRPC_TOKEN"@) is Some,
        env_value(env, "ARB_JITO_URL"@) is Some,
    ensures
        first_fault(env, caps) is None,
        forall|config: Config| #[trigger]
            config.reflects(env, caps) ==> {
                &&& config.dry_run
                &&& config.require_confirm
                &&& config.risk_limits.max_notional_lamports == 1_000_000_000
                &&& config.risk_limits.max_position_lamports == 2_000_000_000
                &&& config.risk_limits.max_daily_loss_lamports == 500_000_000
                &&& config.risk_limits.max_consecutive_reverts == 5
                &&& config.spread_threshold_bps == 30
                &&& config.cu_limit_estimate == 200_000
                &&& config.cu_margin_bps == 1_500
                &&& config.cu_price_microlamports == 10_000
                &&& config.tip_bps == 5_000
                &&& config.tip_floor_lamports == 1_000
                &&& config.tip_ceil_lamports == 10_000_000
            },
{
}

/// A variable has the value that is set for its name, and where the name comes up
/// more than once the first counts. A name that does not come up is not set.
pub proof fn law_a_variable_is_found_by_its_name(env: Seq<(String, String)>, key: Seq<char>, i: int)
    ensures
        0 <= i < env.len() && env[i].0@ == key && (forall|j: int|
            0 <= j < i ==> (#[trigger] env[j]).0@ != key) ==> env_value(env, key) == Some(env[i].1@),
        env_value(env, key) is None <==> forall|j: int|
            0 <= j < env.len() ==> (#[trigger] env[j]).0@ != key,
{
    lemma_value_from(env, key, 0, i);
}

proof fn lemma_value_from(env: Seq<(String, String)>, key: Seq<char>, from: int, i: int)
    requires
        0 <= from <= env.len(),
    ensures
        from <= i < env.len() && env[i].0@ == key && (forall|j: int|
            from <= j < i ==> (#[trigger] env[j]).0@ != key) ==> value_from(env, key, from) == Some(
            env[i].1@,
        ),
        value_from(env, key, from) is None <==> forall|j: int|
            from <= j < env.len() ==> (#[trigger] env[j]).0@ != key,
    decreases env.len() - from,
{
    if from < env.len() {
        lemma_value_from(env, key, from + 1, i);
        assert(env[from].0@ == key || env[from].0@ != key);
    }
}

/// A cap that is set is the limit, to the lamport, whatever it is and whatever the
/// default; only a cap that is not set leaves the default.
pub proof fn law_caps_are_taken_as_they_are_set(
    env: Seq<(String, String)>,
    caps: SolCaps,
    config: Config,
    n: u64,
)
    requires
        config.reflects(env, caps),
    ensures
        caps.max_notional == SolCap::Lamports(n) ==> config.risk_limits.max_notional_lamports == n,
        caps.max_position == SolCap::Lamports(n) ==> config.risk_limits.max_position_lamports == n,
        caps.max_daily_loss == SolCap::Lamports(n) ==> config.risk_limits.max_daily_loss_lamports
            == n,
        caps.max_notional == SolCap::Unset ==> config.risk_limits.max_notional_lamports
            == 1_000_000_000,
        caps.max_position == SolCap::Unset ==> config.risk_limits.max_position_lamports
            == 2_000_000_000,
        caps.max_daily_loss == SolCap::Unset ==> config.risk_limits.max_daily_loss_lamports
            == 500_000_000,
        caps.max_notional is Unset || caps.max_notional is Lamports,
        caps.max_position is Unset || caps.max_position is Lamports,
        caps.max_daily_loss is Unset || caps.max_daily_loss is Lamports,
{
}

/// One cap is read as it is set, whatever its name and default.
pub proof fn law_a_cap_is_read_as_it_is_set(n: u64, key: Seq<char>, default: nat)
    ensures
        cap_reading(SolCap::Lamports(n), key, default) == Ok::<nat, ConfigFault>(n as nat),
        cap_reading(SolCap::Unset, key, default) == Ok::<nat, ConfigFault>(default),
        cap_reading(SolCap::NotANumber, key, default) == Err::<nat, ConfigFault>(
            ConfigFault::InvalidNumber { key },
        ),
        cap_reading(SolCap::Negative, key, default) == Err::<nat, ConfigFault>(
            ConfigFault::NegativeAmount { key },
        ),
{
}

/// Whether a setting is the number that its variable spells, or its default where
/// the variable is not set.
pub open spec fn is_number_or_default(
    value: Option<Seq<char>>,
    setting: nat,
    default: nat,
    max: nat,
) -> bool {
    match value {
        Some(text) => unsigned_value(text, max) == Some(setting),
        None => setting == default,
    }
}

/// Every numeric setting is the number that its variable spells, or its default.
pub proof fn law_numbers_are_taken_as_they_are_spelled(
    env: Seq<(String, String)>,
    caps: SolCaps,
    config: Config,
)
    requires
        config.reflects(env, caps),
    ensures
        is_number_or_default(
            env_value(env, "ARB_MAX_CONSECUTIVE_REVERTS"@),
            config.risk_limits.max_consecutive_reverts as nat,
            5,
            u32::MAX as nat,
        ),
        is_number_or_default(
            env_value(env, "ARB_SPREAD_THRESHOLD_BPS"@),
            config.spread_threshold_bps as nat,
            30,
            u32::MAX as nat,
        ),
        is_number_or_default(
            env_value(env, "ARB_CU_LIMIT_ESTIMATE"@),
            config.cu_limit_estimate as nat,
            200_000,
            u32::MAX as nat,
        ),
        is_number_or_default(
            env_value(env, "ARB_CU_MARGIN_BPS"@),
            config.cu_margin_bps as nat,
            1_500,
            u32::MAX as nat,
        ),
        is_number_or_default(
            env_value(env, "ARB_CU_PRICE_MICROLAMPORTS"@),
            config.cu_price_microlamports as nat,
            10_000,
            u64::MAX as nat,
        ),
        is_number_or_default(
            env_value(env, "ARB_TIP_BPS"@),
            config.tip_bps as nat,
            5_000,
            u32::MAX as nat,
        ),
        is_number_or_default(
            env_value(env, "ARB_TIP_FLOOR_LAMPORTS"@),
            config.tip_floor_lamports as nat,
            1_000,
            u64::MAX as nat,
        ),
        is_number_or_default(
            env_value(env, "ARB_TIP_CEIL_LAMPORTS"@),
            config.tip_ceil_lamports as nat,
            10_000_000,
            u64::MAX as nat,
        ),
{
}

/// A number that is written out in a variable is the setting, for every number that
/// fits.
pub proof fn law_written_numbers_are_the_settings(
    env: Seq<(String, String)>,
    caps: SolCaps,
    config: Config,
    n: nat,
)
    requires
        config.reflects(env, caps),
    ensures
        env_value(env, "ARB_MAX_CONSECUTIVE_REVERTS"@) == Some(decimal(n)) && n <= u32::MAX ==> config.risk_limits.max_consecutive_reverts == n,
        env_value(env, "ARB_MAX_CONSECUTIVE_REVERTS"@) is None ==> config.risk_limits.max_consecutive_reverts == 5,
        env_value(env, "ARB_SPREAD_THRESHOLD_BPS"@) == Some(decimal(n)) && n <= u32::MAX ==> config.spread_threshold_bps == n,
        env_value(env, "ARB_SPREAD_THRESHOLD_BPS"@) is None ==> config.spread_threshold_bps == 30,
        env_value(env, "ARB_CU_LIMIT_ESTIMATE"@) == Some(decimal(n)) && n <= u32::MAX ==> config.cu_limit_estimate == n,
        env_value(env, "ARB_CU_LIMIT_ESTIMATE"@) is None ==> config.cu_limit_estimate == 200_000,
        env_value(env, "ARB_CU_MARGIN_BPS"@) == Some(decimal(n)) && n <= u32::MAX ==> config.cu_margin_bps == n,
        env_value(env, "ARB_CU_MARGIN_BPS"@) is None ==> config.cu_margin_bps == 1_500,
        env_value(env, "ARB_CU_PRICE_MICROLAMPORTS"@) == Some(decimal(n)) && n <= u64::MAX ==> config.cu_price_microlamports == n,
        env_value(env, "ARB_CU_PRICE_MICROLAMPORTS"@) is None ==> config.cu_price_microlamports == 10_000,
        env_value(env, "ARB_TIP_BPS"@) == Some(decimal(n)) && n <= u32::MAX ==> config.tip_bps == n,
        env_value(env, "ARB_TIP_BPS"@) is None ==> config.tip_bps == 5_000,
        env_value(env, "ARB_TIP_FLOOR_LAMPORTS"@) == Some(decimal(n)) && n <= u64::MAX ==> config.tip_floor_lamports == n,
        env_value(env, "ARB_TIP_FLOOR_LAMPORTS"@) is None ==> config.tip_floor_lamports == 1_000,
        env_value(env, "ARB_TIP_CEIL_LAMPORTS"@) == Some(decimal(n)) && n <= u64::MAX ==> config.tip_ceil_lamports == n,
        env_value(env, "ARB_TIP_CEIL_LAMPORTS"@) is None ==> config.tip_ceil_lamports == 10_000_000,
{
    law_decimal_text_reads_back(n, u32::MAX as nat);
    law_decimal_text_reads_back(n, u64::MAX as nat);
}

/// A number reads the same in every variable, whatever its name and default.
pub proof fn law_a_number_is_read_as_it_is_written(
    env: Seq<(String, String)>,
    key: Seq<char>,
    default: nat,
    n: nat,
)
    requires
        env_value(env, key) == Some(decimal(n)),
    ensures
        n <= u32::MAX ==> u32_reading(env, key, default) == Ok::<nat, ConfigFault>(n),
        n > u32::MAX ==> u32_reading(env, key, default) == Err::<nat, ConfigFault>(
            ConfigFault::InvalidU32 { key, value: decimal(n) },
        ),
        n <= u64::MAX ==> u64_reading(env, key, default) == Ok::<nat, ConfigFault>(n),
        n > u64::MAX ==> u64_reading(env, key, default) == Err::<nat, ConfigFault>(
            ConfigFault::InvalidU64 { key, value: decimal(n) },
        ),
{
    law_decimal_text_reads_back(n, u32::MAX as nat);
    law_decimal_text_reads_back(n, u64::MAX as nat);
}

/// Each endpoint, and the token, is what its own variable holds.
pub proof fn law_endpoints_are_taken_from_their_variables(
    env: Seq<(String, String)>,
    caps: SolCaps,
    config: Config,
)
    requires
        config.reflects(env, caps),
    ensures
        env_value(env, "ARB_RPC_URL"@) == Some(config.rpc_url@),
        env_value(env, "ARB_GRPC_URL"@) == Some(config.grpc_url@),
        env_value(env, "ARB_GRPC_TOKEN"@) == Some(config.grpc_token@),
        env_value(env, "ARB_JITO_URL"@) == Some(config.jito_block_engine_url@),
{
}

/// A flag is read from its spelling in any case: three words are true, three are
/// false, and any other is a fault that names it in lower case.
pub proof fn law_flags_are_read_in_any_case(
    env: Seq<(String, String)>,
    key: Seq<char>,
    default: bool,
    value: Seq<char>,
)
    ensures
        env_value(env, key) is None ==> bool_reading(env, key, default) == Ok::<bool, ConfigFault>(
            default,
        ),
        env_value(env, key) == Some(value) ==> {
            let lower = ascii_lower(value);
            let is_true = lower == "true"@ || lower == "1"@ || lower == "yes"@;
            let is_false = lower == "false"@ || lower == "0"@ || lower == "no"@;
            let reading = bool_reading(env, key, default);
            &&& is_true ==> reading == Ok::<bool, ConfigFault>(true)
            &&& is_false ==> reading == Ok::<bool, ConfigFault>(false)
            &&& !is_true && !is_false ==> reading == Err::<bool, ConfigFault>(
                ConfigFault::InvalidBool { key, value: lower },
            )
        },
{
    lemma_spellings_differ();
}

/// What is wrong with a flag.
pub open spec fn flag_problem(env: Seq<(String, String)>, key: Seq<char>) -> Option<ConfigFault> {
    match env_value(env, key) {
        Some(value) => {
            let lower = ascii_lower(value);
            if seq!["true"@, "1"@, "yes"@, "false"@, "0"@, "no"@].contains(lower) {
                None
            } else {
                Some(ConfigFault::InvalidBool { key, value: lower })
            }
        },
        None => None,
    }
}

/// What is wrong with a required variable.
pub open spec fn text_problem(env: Seq<(String, String)>, key: Seq<char>) -> Option<ConfigFault> {
    if env_value(env, key) is None {
        Some(ConfigFault::Missing { key })
    } else {
        None
    }
}

/// What is wrong with a number of at most 32 bits.
pub open spec fn u32_problem(env: Seq<(String, String)>, key: Seq<char>) -> Option<ConfigFault> {
    let value = env_value(env, key);
    if value is Some && unsigned_value(value->0, 0xffff_ffff) is None {
        Some(ConfigFault::InvalidU32 { key, value: value->0 })
    } else {
        None
    }
}

/// What is wrong with a number of at most 64 bits.
pub open spec fn u64_problem(env: Seq<(String, String)>, key: Seq<char>) -> Option<ConfigFault> {
    let value = env_value(env, key);
    if value is Some && unsigned_value(value->0, 0xffff_ffff_ffff_ffff) is None {
        Some(ConfigFault::InvalidU64 { key, value: value->0 })
    } else {
        None
    }
}

/// What is wrong with a cap in SOL.
pub open spec fn cap_problem(cap: SolCap, key: Seq<char>) -> Option<ConfigFault> {
    if cap is NotANumber {
        Some(ConfigFault::InvalidNumber { key })
    } else if cap is Negative {
        Some(ConfigFault::NegativeAmount { key })
    } else {
        None
    }
}

/// The number that a variable spells, or `default` where it is not set.
pub open spec fn number_or(value: Option<Seq<char>>, default: nat) -> nat {
    match value {
        Some(text) => unsigned_value(text, 0xffff_ffff_ffff_ffff)->0,
        None => default,
    }
}

/// What is wrong with the two ends of the range of tips.
pub open spec fn range_problem(env: Seq<(String, String)>) -> Option<ConfigFault> {
    let floor = number_or(env_value(env, "ARB_TIP_FLOOR_LAMPORTS"@), 1_000);
    let ceil = number_or(env_value(env, "ARB_TIP_CEIL_LAMPORTS"@), 10_000_000);
    if ceil < floor {
        Some(ConfigFault::TipFloorAboveCeil { floor, ceil })
    } else {
        None
    }
}

/// What is wrong with a limit of a run.
pub open spec fn zero_problem(env: Seq<(String, String)>, is_zero: bool, key: Seq<char>) -> Option<
    ConfigFault,
> {
    if is_zero && switched_off(env, "ARB_DRY_RUN"@) {
        Some(ConfigFault::ZeroLimit { key })
    } else {
        None
    }
}

/// All that can be wrong with an environment, in the order in which it is looked at.
pub open spec fn problems(env: Seq<(String, String)>, caps: SolCaps) -> Seq<Option<ConfigFault>> {
    seq![
        flag_problem(env, "ARB_DRY_RUN"@),
        flag_problem(env, "ARB_REQUIRE_CONFIRM"@),
        text_problem(env, "ARB_RPC_URL"@),
        text_problem(env, "ARB_GRPC_URL"@),
        text_problem(env, "ARB_GRPC_TOKEN"@),
        text_problem(env, "ARB_JITO_URL"@),
        cap_problem(caps.max_notional, "ARB_MAX_NOTIONAL_SOL"@),
        cap_problem(caps.max_position, "ARB_MAX_POSITION_SOL"@),
        cap_problem(caps.max_daily_loss, "ARB_MAX_DAILY_LOSS_SOL"@),
        u32_problem(env, "ARB_MAX_CONSECUTIVE_REVERTS"@),
        u32_problem(env, "ARB_SPREAD_THRESHOLD_BPS"@),
        u32_problem(env, "ARB_CU_LIMIT_ESTIMATE"@),
        u32_problem(env, "ARB_CU_MARGIN_BPS"@),
        u64_problem(env, "ARB_CU_PRICE_MICROLAMPORTS"@),
        u32_problem(env, "ARB_TIP_BPS"@),
        u64_problem(env, "ARB_TIP_FLOOR_LAMPORTS"@),
        u64_problem(env, "ARB_TIP_CEIL_LAMPORTS"@),
        range_problem(env),
        zero_problem(env, caps.max_notional == SolCap::Lamports(0), "ARB_MAX_NOTIONAL_SOL"@),
        zero_problem(env, caps.max_position == SolCap::Lamports(0), "ARB_MAX_POSITION_SOL"@),
        zero_problem(env, caps.max_daily_loss == SolCap::Lamports(0), "ARB_MAX_DAILY_LOSS_SOL"@),
        zero_problem(
            env,
            number_or(env_value(env, "ARB_MAX_CONSECUTIVE_REVERTS"@), 5) == 0,
            "ARB_MAX_CONSECUTIVE_REVERTS"@,
        ),
    ]
}

/// A configuration is refused exactly if something is wrong, and for what is wrong
/// first.
pub proof fn law_the_first_problem_is_the_fault(
    env: Seq<(String, String)>,
    caps: SolCaps,
    i: int,
)
    ensures
        (forall|j: int| 0 <= j < 22 ==> #[trigger] problems(env, caps)[j] is None) <==> first_fault(
            env,
            caps,
        ) is None,
        0 <= i < 22 && problems(env, caps)[i] is Some && (forall|j: int|
            0 <= j < i ==> #[trigger] problems(env, caps)[j] is None) ==> first_fault(env, caps)
            == problems(env, caps)[i],
        problems(env, caps).len() == 22,
{
    lemma_spellings_differ();
    lemma_flag_problem(env, "ARB_DRY_RUN"@);
    lemma_flag_problem(env, "ARB_REQUIRE_CONFIRM"@);
    lemma_fits_more(env, "ARB_MAX_CONSECUTIVE_REVERTS"@);
    let all = problems(env, caps);
    let first = or(
        or(or(or(or(all[0], all[1]), all[2]), all[3]), all[4]),
        all[5],
    );
    assert(endpoint_fault(env) == first);
    assert(limit_fault(env, caps) == or(or(or(all[6], all[7]), all[8]), all[9]));
    assert(sizing_fault(env) == or(or(or(all[10], all[11]), all[12]), all[13]));
    assert(tip_fault(env) == or(or(or(all[14], all[15]), all[16]), all[17]));
    let live = or(or(or(all[18], all[19]), all[20]), all[21]);
    if endpoint_fault(env) is None && limit_fault(env, caps) is None {
        assert(live_fault(env, caps) == live);
    }
}

proof fn lemma_flag_problem(env: Seq<(String, String)>, key: Seq<char>)
    ensures
        fault(bool_reading(env, key, true)) == flag_problem(env, key),
        bool_reading(env, key, true) == Ok::<bool, ConfigFault>(false) <==> switched_off(env, key),
{
    lemma_spellings_differ();
    let words = seq!["true"@, "1"@, "yes"@, "false"@, "0"@, "no"@];
    assert(words[0] == "true"@ && words[1] == "1"@ && words[2] == "yes"@ && words[3] == "false"@
        && words[4] == "0"@ && words[5] == "no"@);
    if env_value(env, key) is Some {
        let lower = ascii_lower(env_value(env, key)->0);
        assert(words.contains(lower) <==> lower == "true"@ || lower == "1"@ || lower == "yes"@
            || lower == "false"@ || lower == "0"@ || lower == "no"@);
    }
}

proof fn lemma_fits_more(env: Seq<(String, String)>, key: Seq<char>)
    ensures
        env_value(env, key) is Some && unsigned_value(env_value(env, key)->0, u32::MAX as nat) is Some
            ==> unsigned_value(env_value(env, key)->0, u64::MAX as nat) == unsigned_value(
            env_value(env, key)->0,
            u32::MAX as nat,
        ),
{
}

/// An error stands for the fault of its own kind, with the same name and value.
pub proof fn law_errors_keep_their_kind(error: ConfigError)
    ensures
        error matches ConfigError::Missing { key } ==> error@ == (ConfigFault::Missing { key: key@ }),
        error matches ConfigError::InvalidBool { key, value } ==> error@ == (
        ConfigFault::InvalidBool { key: key@, value: value@ }),
        error matches ConfigError::InvalidU32 { key, value } ==> error@ == (
        ConfigFault::InvalidU32 { key: key@, value: value@ }),
        error matches ConfigError::InvalidU64 { key, value } ==> error@ == (
        ConfigFault::InvalidU64 { key: key@, value: value@ }),
        error matches ConfigError::InvalidNumber { key } ==> error@ == (
        ConfigFault::InvalidNumber { key: key@ }),
        error matches ConfigError::NegativeAmount { key } ==> error@ == (
        ConfigFault::NegativeAmount { key: key@ }),
        error matches ConfigError::TipFloorAboveCeil { floor, ceil } ==> error@ == (
        ConfigFault::TipFloorAboveCeil { floor: floor as nat, ceil: ceil as nat }),
        error matches ConfigError::ZeroLimit { key } ==> error@ == (
        ConfigFault::ZeroLimit { key: key@ }),
{
}

/// Whether `account` is what a required variable names, or why it names none.
pub open spec fn is_pubkey_reading(
    account: Result<[u8; 32], PubkeyEnvError>,
    env: Seq<(String, String)>,
    key: Seq<char>,
) -> bool {
    match account {
        Ok(k) => env_value(env, key) matches Some(value) && is_base58_of(value, k@),
        Err(PubkeyEnvError::Missing { key: name }) => env_value(env, key) is None && name@ == key,
        Err(PubkeyEnvError::Invalid { key: name, value: text, error }) => env_value(env, key)
            == Some(text@) && name@ == key && is_address_error(text@, error),
    }
}

/// A variable that is set to the base-58 text of 32 bytes names these bytes. One
/// that is not set is missing, and any other value is refused with the value itself.
pub proof fn law_an_account_variable_names_its_account(
    account: Result<[u8; 32], PubkeyEnvError>,
    env: Seq<(String, String)>,
    key: Seq<char>,
    value: Seq<char>,
    bytes: Seq<u8>,
)
    requires
        is_pubkey_reading(account, env, key),
    ensures
        env_value(env, key) == Some(value) && is_base58_of(value, bytes) && bytes.len() == 32
            ==> account is Ok && account->Ok_0@ == bytes,
        env_value(env, key) is None ==> (account matches Err(PubkeyEnvError::Missing { key: name })
            && name@ == key),
        env_value(env, key) == Some(value) && !is_address_text(value) ==> (account matches Err(
            PubkeyEnvError::Invalid { key: name, value: text, error },
        ) && name@ == key && text@ == value),
{
    if env_value(env, key) == Some(value) && is_base58_of(value, bytes) {
        match account {
            Ok(k) => {
                law_base58_text_names_one_key(value, k@, bytes);
            },
            Err(PubkeyEnvError::Invalid { key: name, value: text, error }) => {
                law_an_address_error_is_true(value, bytes, error);
            },
            Err(PubkeyEnvError::Missing { key: name }) => {},
        }
    }
}

} // verus!
