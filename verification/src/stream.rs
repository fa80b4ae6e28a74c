//! Account and slot updates of the ingestion stream, and the reconnect policy.

use crate::keys::key_from_bytes;
use crate::text::begins_with;
use vstd::arithmetic::power2::*;
use vstd::prelude::*;
use vstd::string::*;

verus! {

/// Delay before the first reconnect, in milliseconds.
pub const BASE_BACKOFF_MS: u64 = 250;

/// Longest delay before a reconnect, in milliseconds.
pub const MAX_BACKOFF_MS: u64 = 30_000;

/// Decoded update delivered to the detector.
#[derive(Debug, Clone)]
pub enum StreamUpdate {
    /// An account changed. Carries the raw account bytes and the slot it landed in.
    Account(AccountSnapshot),
    /// A slot was processed.
    Slot(u64),
}

/// Minimal snapshot of a pool account as observed on the stream.
#[derive(Debug, Clone)]
pub struct AccountSnapshot {
    pub pubkey: [u8; 32],
    pub slot: u64,
    pub lamports: u64,
    /// Raw account data bytes in the layout of the pool's program.
    pub data: Vec<u8>,
    pub owner: [u8; 32],
    pub executable: bool,
    pub rent_epoch: u64,
}

/// Configuration of the stream subscriber.
pub struct StreamConfig {
    /// Yellowstone gRPC endpoint.
    pub grpc_url: String,
    /// Bearer token; empty if the endpoint is unauthenticated.
    pub grpc_token: String,
    /// Base-58 addresses of the accounts to subscribe to.
    pub account_keys: Vec<String>,
    /// Capacity of the channel to the detector.
    pub channel_capacity: usize,
}

/// The account part of an update as it comes off the wire.
pub struct RawAccountInfo {
    pub pubkey: Vec<u8>,
    pub lamports: u64,
    pub owner: Vec<u8>,
    pub executable: bool,
    pub rent_epoch: u64,
    pub data: Vec<u8>,
}

/// An account update as it comes off the wire.
pub struct RawAccountUpdate {
    pub account: Option<RawAccountInfo>,
    pub slot: u64,
}

/// A message of the stream as it comes off the wire.
pub enum RawUpdate {
    Account(RawAccountUpdate),
    Slot(u64),
    /// Pings and update kinds that were not subscribed to.
    Other,
}

/// Why an account update cannot be used.
#[derive(Debug, Clone, Copy, PartialEq, Eq, Structural)]
pub enum AccountUpdateError {
    /// The update carries no account.
    MissingAccount,
    /// The address is not 32 bytes long.
    BadPubkey,
    /// The owner is not 32 bytes long.
    BadOwner,
}

/// The error of an account update, if it has one; the address is looked at
/// before the owner.
pub open spec fn account_update_error(update: RawAccountUpdate) -> Option<AccountUpdateError> {
    match update.account {
        None => Some(AccountUpdateError::MissingAccount),
        Some(info) => if info.pubkey@.len() != 32 {
            Some(AccountUpdateError::BadPubkey)
        } else if info.owner@.len() != 32 {
            Some(AccountUpdateError::BadOwner)
        } else {
            None
        },
    }
}

/// Whether a snapshot holds exactly what an account update carries.
pub open spec fn is_snapshot_of(snap: AccountSnapshot, update: RawAccountUpdate) -> bool {
    update.account matches Some(info) && {
        &&& snap.pubkey@ == info.pubkey@
        &&& snap.slot == update.slot
        &&& snap.lamports == info.lamports
        &&& snap.data@ == info.data@
        &&& snap.owner@ == info.owner@
        &&& snap.executable == info.executable
        &&& snap.rent_epoch == info.rent_epoch
    }
}

/// Check an account update and turn it into a snapshot.
pub fn parse_account_update(update: &RawAccountUpdate) -> (snapshot: Result<
    AccountSnapshot,
    AccountUpdateError,
>)
    ensures
        match account_update_error(*update) {
            Some(error) => snapshot == Err::<AccountSnapshot, AccountUpdateError>(error),
            None => snapshot matches Ok(snap) && is_snapshot_of(snap, *update),
        },
{
    match &update.account {
        None => Err(AccountUpdateError::MissingAccount),
        Some(info) => {
            let pubkey: [u8; 32] = match key_from_bytes(&info.pubkey) {
                Some(key) => key,
                None => return Err(AccountUpdateError::BadPubkey),
            };
            let owner: [u8; 32] = match key_from_bytes(&info.owner) {
                Some(key) => key,
                None => return Err(AccountUpdateError::BadOwner),
            };
            let data: Vec<u8> = info.data.clone();
            assert(data@ =~= info.data@);
            Ok(
                AccountSnapshot {
                    pubkey,
                    slot: update.slot,
                    lamports: info.lamports,
                    data,
                    owner,
                    executable: info.executable,
                    rent_epoch: info.rent_epoch,
                },
            )
        },
    }
}

/// Whether `update` is what a stream message stands for.
pub open spec fn is_decoded(update: Option<StreamUpdate>, message: RawUpdate) -> bool {
    match update {
        Some(StreamUpdate::Account(snap)) => message matches RawUpdate::Account(raw)
            && account_update_error(raw) is None && is_snapshot_of(snap, raw),
        Some(StreamUpdate::Slot(slot)) => message == RawUpdate::Slot(slot),
        None => match message {
            RawUpdate::Account(raw) => account_update_error(raw) is Some,
            RawUpdate::Slot(_) => false,
            RawUpdate::Other => true,
        },
    }
}

/// The update that a stream message stands for: account updates that check out
/// and slots; everything else is passed over.
pub fn decode_update(message: &RawUpdate) -> (update: Option<StreamUpdate>)
    ensures
        is_decoded(update, *message),
        match *message {
            RawUpdate::Account(raw) => match account_update_error(raw) {
                Some(_) => update is None,
                None => update matches Some(StreamUpdate::Account(snap)) && is_snapshot_of(
                    snap,
                    raw,
                ),
            },
            RawUpdate::Slot(slot) => update == Some(StreamUpdate::Slot(slot)),
            RawUpdate::Other => update is None,
        },
{
    match message {
        RawUpdate::Account(raw) => match parse_account_update(raw) {
            Ok(snap) => Some(StreamUpdate::Account(snap)),
            Err(_) => None,
        },
        RawUpdate::Slot(slot) => Some(StreamUpdate::Slot(*slot)),
        RawUpdate::Other => None,
    }
}

/// How an update is handed to the detector.
#[derive(Debug, Clone, Copy, PartialEq, Eq, Structural)]
pub enum Delivery {
    /// Drop the update if the channel is full.
    BestEffort,
    /// Wait until the detector takes the update.
    Blocking,
}

/// How an update is to be handed on.
pub open spec fn delivery_of(update: StreamUpdate) -> Delivery {
    if update is Account {
        Delivery::Blocking
    } else {
        Delivery::BestEffort
    }
}

/// Slots are a clock and may be dropped under back-pressure; account updates
/// are pool state and never are.
pub fn delivery(update: &StreamUpdate) -> (how: Delivery)
    ensures
        how == delivery_of(*update),
        how == match *update {
            StreamUpdate::Slot(_) => Delivery::BestEffort,
            StreamUpdate::Account(_) => Delivery::Blocking,
        },
{
    match update {
        StreamUpdate::Slot(_) => Delivery::BestEffort,
        StreamUpdate::Account(_) => Delivery::Blocking,
    }
}

/// What a connection attempt and its subscription are made of.
pub struct Subscription {
    pub endpoint: String,
    /// Authentication token, if the endpoint asks for one.
    pub x_token: Option<String>,
    /// Whether TLS with the native root certificates is configured.
    pub tls: bool,
    /// Name of the account filter.
    pub account_filter: String,
    /// Addresses that the account filter matches literally.
    pub account_keys: Vec<String>,
    /// Name of the slot filter.
    pub slot_filter: String,
    /// Whether slots are filtered by the commitment level.
    pub filter_slots_by_commitment: bool,
    /// The commitment level of the subscription.
    pub commitment: Commitment,
}

/// Commitment levels of the ledger.
#[derive(Debug, Clone, Copy, PartialEq, Eq, Structural)]
pub enum Commitment {
    Processed,
    Confirmed,
    Finalized,
}

impl StreamConfig {
    /// What to connect to and subscribe to: the listed accounts and the slots, at
    /// `processed` commitment. An empty token means no authentication; TLS is for
    /// `https://` endpoints only.
    pub fn subscription(&self) -> (subscription: Subscription)
        ensures
            is_subscription_of(subscription, *self),
            subscription.endpoint@ == self.grpc_url@,
            match subscription.x_token {
                Some(token) => token@ == self.grpc_token@ && self.grpc_token@.len() > 0,
                None => self.grpc_token@.len() == 0,
            },
            subscription.tls == "https://"@.is_prefix_of(self.grpc_url@),
            subscription.account_filter@ == "arb_pools"@,
            subscription.account_keys@ == self.account_keys@,
            subscription.slot_filter@ == "slots"@,
            subscription.filter_slots_by_commitment,
            subscription.commitment == Commitment::Processed,
    {
        let account_keys: Vec<String> = self.account_keys.clone();
        assert(account_keys@ =~= self.account_keys@);
        Subscription {
            endpoint: self.grpc_url.clone(),
            x_token: if self.grpc_token.as_str().is_empty() {
                None
            } else {
                Some(self.grpc_token.clone())
            },
            tls: begins_with(self.grpc_url.as_str(), "https://"),
            account_filter: String::from_str("arb_pools"),
            account_keys,
            slot_filter: String::from_str("slots"),
            filter_slots_by_commitment: true,
            commitment: Commitment::Processed,
        }
    }
}

/// What the subscriber does once a stream has ended.
#[derive(Debug, Clone, Copy, PartialEq, Eq, Structural)]
pub enum ReconnectAction {
    /// The receiver is gone: stop for good.
    Stop,
    /// Wait this many milliseconds, then connect again.
    SleepMs(u64),
}

/// Twice the delay, held to the longest one.
pub open spec fn doubled_backoff(backoff_ms: int) -> int {
    if backoff_ms * 2 > MAX_BACKOFF_MS {
        MAX_BACKOFF_MS as int
    } else {
        backoff_ms * 2
    }
}

/// What follows a stream that ended at a delay, and the delay after that.
pub open spec fn after_stream_end(delay_ms: int, receiver_closed: bool) -> (ReconnectAction, int) {
    if receiver_closed {
        (ReconnectAction::Stop, delay_ms)
    } else {
        (ReconnectAction::SleepMs(delay_ms as u64), doubled_backoff(delay_ms))
    }
}

/// Reconnect policy with exponential backoff. The delay doubles with every
/// stream that ends, up to a cap, and starts over once an account update has
/// been delivered.
pub struct Reconnect {
    backoff_ms: u64,
}

impl View for Reconnect {
    type V = int;

    closed spec fn view(&self) -> int {
        self.backoff_ms as int
    }
}

impl Reconnect {
    /// The delay is always between the base and the cap.
    #[verifier::type_invariant]
    spec fn delay_in_range(self) -> bool {
        BASE_BACKOFF_MS <= self.backoff_ms <= MAX_BACKOFF_MS
    }

    /// A policy at its base delay.
    pub fn new() -> (policy: Self)
        ensures
            policy@ == BASE_BACKOFF_MS,
    {
        Reconnect { backoff_ms: BASE_BACKOFF_MS }
    }

    /// An account update has been delivered: start over at the base delay.
    pub fn on_account_delivered(&mut self)
        ensures
            final(self)@ == BASE_BACKOFF_MS,
    {
        self.backoff_ms = BASE_BACKOFF_MS;
    }

    /// A stream has ended, cleanly or with an error. Stop if the receiver is
    /// gone; else sleep for the current delay and double it for the next time.
    pub fn on_stream_end(&mut self, receiver_closed: bool) -> (action: ReconnectAction)
        ensures
            BASE_BACKOFF_MS <= old(self)@ <= MAX_BACKOFF_MS,
            (action, final(self)@) == after_stream_end(old(self)@, receiver_closed),
            receiver_closed ==> action == ReconnectAction::Stop && final(self)@ == old(self)@,
            !receiver_closed ==> {
                &&& action == ReconnectAction::SleepMs(old(self)@ as u64)
                &&& final(self)@ == doubled_backoff(old(self)@)
            },
    {
        proof {
            use_type_invariant(&*self);
        }
        if receiver_closed {
            return ReconnectAction::Stop;
        }
        let delay: u64 = self.backoff_ms;
        self.backoff_ms = if delay * 2 > MAX_BACKOFF_MS {
            MAX_BACKOFF_MS
        } else {
            delay * 2
        };
        ReconnectAction::SleepMs(delay)
    }
}

/// The delay after `n` streams in a row that ended without a delivery.
pub open spec fn backoff_after(n: nat) -> int
    decreases n,
{
    if n == 0 {
        BASE_BACKOFF_MS as int
    } else {
        doubled_backoff(backoff_after((n - 1) as nat))
    }
}

/// The delay grows exponentially from the base to the cap: after `n` failures
/// in a row it is `250 * 2^n` milliseconds, at most 30 seconds.
pub proof fn law_backoff_is_exponential_up_to_the_cap(n: nat)
    ensures
        backoff_after(n) == if BASE_BACKOFF_MS * pow2(n) > MAX_BACKOFF_MS {
            MAX_BACKOFF_MS as int
        } else {
            BASE_BACKOFF_MS * pow2(n)
        },
        BASE_BACKOFF_MS <= backoff_after(n) <= MAX_BACKOFF_MS,
    decreases n,
{
    lemma2_to64();
    lemma_pow2_pos(n);
    if n > 0 {
        law_backoff_is_exponential_up_to_the_cap((n - 1) as nat);
        lemma_pow2_unfold(n);
    }
}

/// The delay after `n` failures in a row, in milliseconds: a quarter of a second
/// doubled `n` times, at most half a minute. A delivery starts it over, and every
/// stream that ends doubles it until the cap.
pub proof fn law_the_delay_doubles_from_a_quarter_second(n: nat, delay: int)
    ensures
        backoff_after(0) == 250,
        250 * pow2(n) <= 30_000 ==> backoff_after(n) == 250 * pow2(n),
        250 * pow2(n) > 30_000 ==> backoff_after(n) == 30_000,
        2 * delay <= 30_000 ==> doubled_backoff(delay) == 2 * delay,
        2 * delay > 30_000 ==> doubled_backoff(delay) == 30_000,
{
    law_backoff_is_exponential_up_to_the_cap(n);
}

/// An account update is refused exactly if it carries no account or an address or
/// an owner that is not 32 bytes long, and the error names the first of these.
pub proof fn law_updates_are_refused_for_what_is_wrong(update: RawAccountUpdate)
    ensures
        ({
            let error = account_update_error(update);
            let absent = update.account is None;
            let bad_pubkey = !absent && update.account->0.pubkey@.len() != 32;
            let bad_owner = !absent && update.account->0.owner@.len() != 32;
            &&& error == Some(AccountUpdateError::MissingAccount) <==> absent
            &&& error == Some(AccountUpdateError::BadPubkey) <==> bad_pubkey
            &&& error == Some(AccountUpdateError::BadOwner) <==> bad_owner && !bad_pubkey
            &&& error is None <==> !absent && !bad_pubkey && !bad_owner
        }),
{
}

/// A snapshot loses nothing of the update that it was taken from.
pub proof fn law_a_snapshot_keeps_the_whole_update(snap: AccountSnapshot, update: RawAccountUpdate)
    requires
        is_snapshot_of(snap, update),
    ensures
        update.account is Some,
        snap.slot == update.slot,
        snap.pubkey@ == update.account->0.pubkey@,
        snap.owner@ == update.account->0.owner@,
        snap.data@ == update.account->0.data@,
        snap.lamports == update.account->0.lamports,
        snap.executable == update.account->0.executable,
        snap.rent_epoch == update.account->0.rent_epoch,
{
}

/// Whether a subscription is that of a configuration.
pub open spec fn is_subscription_of(subscription: Subscription, config: StreamConfig) -> bool {
    &&& subscription.endpoint@ == config.grpc_url@
    &&& match subscription.x_token {
        Some(token) => token@ == config.grpc_token@ && config.grpc_token@.len() > 0,
        None => config.grpc_token@.len() == 0,
    }
    &&& subscription.tls == "https://"@.is_prefix_of(config.grpc_url@)
    &&& subscription.account_filter@ == "arb_pools"@
    &&& subscription.account_keys@ == config.account_keys@
    &&& subscription.slot_filter@ == "slots"@
    &&& subscription.filter_slots_by_commitment
    &&& subscription.commitment == Commitment::Processed
}

/// A subscription is to the configured endpoint and to every configured account, in
/// their order, as they are processed. It carries the token exactly if there is one,
/// and TLS exactly if the endpoint begins with `https://`.
pub proof fn law_a_subscription_is_as_configured(
    subscription: Subscription,
    config: StreamConfig,
    rest: Seq<char>,
    i: int,
)
    requires
        is_subscription_of(subscription, config),
    ensures
        subscription.endpoint@ == config.grpc_url@,
        subscription.account_keys@.len() == config.account_keys@.len(),
        0 <= i < config.account_keys@.len() ==> subscription.account_keys@[i]
            == config.account_keys@[i],
        subscription.x_token is Some <==> config.grpc_token@.len() > 0,
        subscription.x_token is Some ==> subscription.x_token->0@ == config.grpc_token@,
        config.grpc_url@ == seq!['h', 't', 't', 'p', 's', ':', '/', '/'] + rest
            ==> subscription.tls,
        subscription.tls ==> config.grpc_url@.len() >= 8 && config.grpc_url@.subrange(0, 8) == seq![
            'h',
            't',
            't',
            'p',
            's',
            ':',
            '/',
            '/',
        ],
        subscription.filter_slots_by_commitment,
        subscription.commitment == Commitment::Processed,
{
    reveal_strlit("https://");
    let scheme = seq!['h', 't', 't', 'p', 's', ':', '/', '/'];
    assert("https://"@ =~= scheme);
    if config.grpc_url@ == scheme + rest {
        assert(config.grpc_url@.subrange(0, 8) =~= scheme);
    }
}

/// A slot is handed on as it is, and so is every account update with an address and
/// an owner of 32 bytes, with all that it carries. Only what is neither is passed
/// over.
pub proof fn law_only_faulty_messages_are_passed_over(
    update: Option<StreamUpdate>,
    message: RawUpdate,
)
    requires
        is_decoded(update, message),
    ensures
        message matches RawUpdate::Slot(slot) ==> update == Some(StreamUpdate::Slot(slot)),
        message is Other ==> update is None,
        message matches RawUpdate::Account(raw) ==> {
            let fit = raw.account is Some && raw.account->0.pubkey@.len() == 32
                && raw.account->0.owner@.len() == 32;
            &&& fit <==> update is Some
            &&& fit ==> {
                &&& update->0 is Account
                &&& update->0->Account_0.slot == raw.slot
                &&& update->0->Account_0.pubkey@ == raw.account->0.pubkey@
                &&& update->0->Account_0.data@ == raw.account->0.data@
                &&& update->0->Account_0.owner@ == raw.account->0.owner@
                &&& update->0->Account_0.lamports == raw.account->0.lamports
                &&& update->0->Account_0.executable == raw.account->0.executable
                &&& update->0->Account_0.rent_epoch == raw.account->0.rent_epoch
            }
        },
{
}

/// Account updates are never dropped; slots may be.
pub proof fn law_account_updates_are_never_dropped(snap: AccountSnapshot, slot: u64)
    ensures
        delivery_of(StreamUpdate::Account(snap)) == Delivery::Blocking,
        delivery_of(StreamUpdate::Slot(slot)) == Delivery::BestEffort,
{
}

/// The subscriber connects again after the current delay for as long as there is a
/// receiver, waits twice as long the next time, at most 30 seconds, and stops for
/// good once the receiver is gone.
pub proof fn law_only_a_gone_receiver_stops_the_stream(delay_ms: u64, receiver_closed: bool)
    requires
        250 <= delay_ms <= 30_000,
    ensures
        ({
            let (action, next) = after_stream_end(delay_ms as int, receiver_closed);
            &&& receiver_closed <==> action == ReconnectAction::Stop
            &&& receiver_closed ==> next == delay_ms
            &&& !receiver_closed ==> action == ReconnectAction::SleepMs(delay_ms)
            &&& !receiver_closed && delay_ms <= 15_000 ==> next == 2 * delay_ms
            &&& !receiver_closed && delay_ms > 15_000 ==> next == 30_000
        }),
{
}

} // verus!
