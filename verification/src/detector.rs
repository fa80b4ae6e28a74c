//! Opportunity detection over streamed pool state.
//!
//! The detector keeps the reserves of two constant-product pools and reports a
//! candidate when the best round trip within the risk caps, after the pool fees
//! and the estimated transaction fee, clears the configured threshold. It signs,
//! simulates and submits nothing.

use crate::fees::{
    law_priority_fee_is_the_least_covering_fee, priority_fee, priority_fee_lamports, total_fee,
    total_fee_lamports,
};
use crate::keys::same_key;
use crate::risk::{BlockCause, RiskLimits, RiskState};
use crate::sizing::{
    best_sizing, law_best_sizing_maximises_the_net_profit, law_the_best_sizing_is_that_of_its_legs,
    optimal_net_profit, round_trip, sizing_at, ProfitResult, Sizing,
};
use crate::stream::AccountSnapshot;
use crate::swap::pool_swap;
use vstd::arithmetic::mul::*;
use vstd::bytes::*;
use vstd::prelude::*;

verus! {

/// A detected arbitrage candidate, ready for the risk gate.
#[derive(Debug, Clone)]
pub struct ArbCandidate {
    /// Slot in which the triggering account update arrived.
    pub slot: u64,
    /// Estimated gross profit before fees, in lamports.
    pub gross_profit_lamports: u64,
    /// Estimated net profit after transaction fees, in lamports.
    pub net_profit_lamports: u64,
    /// The two pools involved.
    pub pool_a_pubkey: [u8; 32],
    pub pool_b_pubkey: [u8; 32],
    /// Direction: true = buy on pool A, sell on pool B.
    pub buy_on_a: bool,
    /// Trade size (input lamports) that the detector settled on.
    pub optimal_input_lamports: u64,
}

/// Constant-product pool state taken from raw account data.
#[derive(Debug, Clone, Copy)]
pub struct PoolState {
    pub pubkey: [u8; 32],
    /// Reserve of token A, in the token's smallest unit.
    pub reserve_a: u64,
    /// Reserve of token B, in the token's smallest unit.
    pub reserve_b: u64,
    /// Slot of the last update.
    pub last_slot: u64,
    /// Whether an account update has arrived, on the stream as it is now.
    pub initialised: bool,
}

/// What the detector proposes: a direction and a sized trade.
pub struct Opportunity {
    pub buy_on_a: bool,
    pub sizing: Sizing,
}

/// The little-endian number in the eight bytes from `at`.
pub open spec fn le_u64(data: Seq<u8>, at: int) -> nat {
    (data[at] + 0x100 * data[at + 1] + 0x1_0000 * data[at + 2] + 0x100_0000 * data[at + 3]
        + 0x1_0000_0000 * data[at + 4] + 0x100_0000_0000 * data[at + 5] + 0x1_0000_0000_0000
        * data[at + 6] + 0x100_0000_0000_0000 * data[at + 7]) as nat
}

/// The reserves in raw account data: two little-endian numbers behind an
/// eight-byte discriminator, neither of them zero.
pub open spec fn pool_reserves(data: Seq<u8>) -> Option<(nat, nat)> {
    if data.len() < 24 || le_u64(data, 8) == 0 || le_u64(data, 16) == 0 {
        None
    } else {
        Some((le_u64(data, 8), le_u64(data, 16)))
    }
}

fn read_le_u64(data: &[u8], at: usize) -> (value: u64)
    requires
        at + 8 <= data@.len(),
    ensures
        value == le_u64(data@, at as int),
{
    data[at] as u64 + 0x100 * (data[at + 1] as u64) + 0x1_0000 * (data[at + 2] as u64) + 0x100_0000
        * (data[at + 3] as u64) + 0x1_0000_0000 * (data[at + 4] as u64) + 0x100_0000_0000 * (data[at
        + 5] as u64) + 0x1_0000_0000_0000 * (data[at + 6] as u64) + 0x100_0000_0000_0000 * (data[at
        + 7] as u64)
}

/// Decode `(reserve_a, reserve_b)` from raw account bytes. Data that is too
/// short, or that holds a zero reserve, is not a pool.
pub fn decode_pool_reserves(data: &[u8]) -> (reserves: Option<(u64, u64)>)
    ensures
        match reserves {
            Some((a, b)) => pool_reserves(data@) == Some((a as nat, b as nat)),
            None => pool_reserves(data@) is None,
        },
{
    if data.len() < 24 {
        return None;
    }
    let reserve_a: u64 = read_le_u64(data, 8);
    let reserve_b: u64 = read_le_u64(data, 16);
    if reserve_a == 0 || reserve_b == 0 {
        return None;
    }
    Some((reserve_a, reserve_b))
}

impl PoolState {
    /// A pool of which nothing is known but its address.
    pub open spec fn unknown(pubkey: [u8; 32]) -> PoolState {
        PoolState { pubkey, reserve_a: 0, reserve_b: 0, last_slot: 0, initialised: false }
    }

    /// The pool after an account update: new reserves and slot where the update
    /// is about this pool and decodes, else unchanged.
    pub open spec fn updated(self, snap: AccountSnapshot) -> PoolState {
        match pool_reserves(snap.data@) {
            Some((a, b)) if self.pubkey@ == snap.pubkey@ => PoolState {
                pubkey: self.pubkey,
                reserve_a: a as u64,
                reserve_b: b as u64,
                last_slot: snap.slot,
                initialised: true,
            },
            _ => self,
        }
    }

    /// The pool when its state may be out of date: nothing of it counts until the
    /// next account update.
    pub open spec fn stale(self) -> PoolState {
        PoolState { initialised: false, ..self }
    }

    /// An initialised pool holds something of both tokens.
    pub open spec fn well_formed(self) -> bool {
        self.initialised ==> self.reserve_a > 0 && self.reserve_b > 0
    }

    fn update(&mut self, snap: &AccountSnapshot) -> (updated: bool)
        requires
            old(self).pubkey@ == snap.pubkey@,
        ensures
            *final(self) == old(self).updated(*snap),
            updated == pool_reserves(snap.data@) is Some,
    {
        match decode_pool_reserves(snap.data.as_slice()) {
            Some((reserve_a, reserve_b)) => {
                self.reserve_a = reserve_a;
                self.reserve_b = reserve_b;
                self.last_slot = snap.slot;
                self.initialised = true;
                true
            },
            None => false,
        }
    }
}

/// What a detector holds.
pub struct DetectorState {
    pub pool_a: PoolState,
    pub pool_b: PoolState,
    pub spread_threshold: nat,
    pub cu_price: nat,
    pub cu_limit: nat,
    pub sigs: nat,
    pub limits: RiskLimits,
}

/// The lesser of two numbers.
pub open spec fn lesser(a: int, b: int) -> int {
    if a < b {
        a
    } else {
        b
    }
}

impl DetectorState {
    /// The estimated transaction fee of a bundle.
    pub open spec fn fee_cost(self) -> int {
        total_fee(self.sigs as int, priority_fee(self.cu_price as int, self.cu_limit as int))
    }

    /// The pool that token B is bought in, in either direction.
    pub open spec fn buy_pool(self, on_a: bool) -> PoolState {
        if on_a {
            self.pool_a
        } else {
            self.pool_b
        }
    }

    /// The largest size in either direction: a tenth of the reserve that is
    /// bought against, and within both risk caps.
    pub open spec fn max_input(self, on_a: bool) -> int {
        lesser(
            self.buy_pool(on_a).reserve_a as int / 10,
            lesser(
                self.limits.max_notional_lamports as int,
                self.limits.max_position_lamports as int,
            ),
        )
    }

    /// The best trade when token B is bought in pool A, or in pool B.
    pub open spec fn best_when_buying_on_a(self, on_a: bool) -> Sizing {
        best_sizing(
            self.buy_pool(on_a),
            self.buy_pool(!on_a),
            self.max_input(on_a),
            self.fee_cost(),
        )
    }

    /// The better of the two directions.
    pub open spec fn best_direction(self) -> Opportunity {
        let on_a = self.best_when_buying_on_a(true);
        let on_b = self.best_when_buying_on_a(false);
        if on_a.net > on_b.net {
            Opportunity { buy_on_a: true, sizing: on_a }
        } else {
            Opportunity { buy_on_a: false, sizing: on_b }
        }
    }

    /// Whether both pools are up to date and hold something.
    pub open spec fn is_ready(self) -> bool {
        &&& self.pool_a.initialised
        &&& self.pool_b.initialised
        &&& self.pool_a.reserve_a > 0
        &&& self.pool_a.reserve_b > 0
        &&& self.pool_b.reserve_a > 0
        &&& self.pool_b.reserve_b > 0
    }

    /// The opportunity that the pools offer now: the best trade in the better
    /// direction, if both pools are up to date, a size was found and its net
    /// profit reaches the threshold.
    pub open spec fn opportunity(self) -> Option<Opportunity> {
        let best = self.best_direction();
        if !self.is_ready() || best.sizing.net < self.spread_threshold || best.sizing.input == 0 {
            None
        } else {
            Some(best)
        }
    }

    /// Whether an update is about a tracked pool and decodes.
    pub open spec fn takes(self, snap: AccountSnapshot) -> bool {
        &&& pool_reserves(snap.data@) is Some
        &&& self.pool_a.pubkey@ == snap.pubkey@ || self.pool_b.pubkey@ == snap.pubkey@
    }

    /// The state after an account update. Pool A is asked first.
    pub open spec fn after(self, snap: AccountSnapshot) -> DetectorState {
        if self.pool_a.pubkey@ == snap.pubkey@ {
            DetectorState { pool_a: self.pool_a.updated(snap), ..self }
        } else {
            DetectorState { pool_b: self.pool_b.updated(snap), ..self }
        }
    }

    /// The state after a row of account updates.
    pub open spec fn after_all(self, snaps: Seq<AccountSnapshot>) -> DetectorState
        decreases snaps.len(),
    {
        if snaps.len() == 0 {
            self
        } else {
            self.after_all(snaps.drop_last()).after(snaps.last())
        }
    }

    /// The state when both pools may be out of date.
    pub open spec fn stale(self) -> DetectorState {
        DetectorState { pool_a: self.pool_a.stale(), pool_b: self.pool_b.stale(), ..self }
    }

    /// Both pools are well formed.
    pub open spec fn well_formed(self) -> bool {
        self.pool_a.well_formed() && self.pool_b.well_formed()
    }
}

impl ArbCandidate {
    /// What the candidate proposes.
    pub open spec fn opportunity(self) -> Opportunity {
        Opportunity {
            buy_on_a: self.buy_on_a,
            sizing: Sizing {
                input: self.optimal_input_lamports as int,
                gross: self.gross_profit_lamports as int,
                net: self.net_profit_lamports as int,
            },
        }
    }
}

/// Whether `result` is the candidate of what the state offers, for the given
/// slot, or nothing where the state offers nothing.
pub open spec fn reports(result: Option<ArbCandidate>, slot: u64, state: DetectorState) -> bool {
    match result {
        Some(candidate) => {
            &&& candidate.slot == slot
            &&& candidate.pool_a_pubkey == state.pool_a.pubkey
            &&& candidate.pool_b_pubkey == state.pool_b.pubkey
            &&& state.opportunity() == Some(candidate.opportunity())
        },
        None => state.opportunity() is None,
    }
}

/// Keeps the state of exactly two pools that form a two-leg arbitrage circuit.
pub struct Detector {
    pool_a: PoolState,
    pool_b: PoolState,
    /// Minimum net profit of a candidate, in lamports.
    spread_threshold_lamports: u64,
    /// Compute-unit price of the fee estimate, in micro-lamports.
    cu_price_microlamports: u64,
    /// Compute-unit limit per bundle, margin included.
    cu_limit_per_bundle: u32,
    /// Number of signatures per bundle.
    sigs_per_bundle: u64,
    /// Caps that a candidate has to keep.
    limits: RiskLimits,
}

impl View for Detector {
    type V = DetectorState;

    closed spec fn view(&self) -> DetectorState {
        DetectorState {
            pool_a: self.pool_a,
            pool_b: self.pool_b,
            spread_threshold: self.spread_threshold_lamports as nat,
            cu_price: self.cu_price_microlamports as nat,
            cu_limit: self.cu_limit_per_bundle as nat,
            sigs: self.sigs_per_bundle as nat,
            limits: self.limits,
        }
    }
}

impl Detector {
    /// A detector of two pools of which nothing has been seen yet.
    pub fn new(
        pool_a_pubkey: [u8; 32],
        pool_b_pubkey: [u8; 32],
        spread_threshold_lamports: u64,
        cu_price_microlamports: u64,
        cu_limit_per_bundle: u32,
        sigs_per_bundle: u64,
        limits: RiskLimits,
    ) -> (detector: Self)
        ensures
            detector@ == (DetectorState {
                pool_a: PoolState::unknown(pool_a_pubkey),
                pool_b: PoolState::unknown(pool_b_pubkey),
                spread_threshold: spread_threshold_lamports as nat,
                cu_price: cu_price_microlamports as nat,
                cu_limit: cu_limit_per_bundle as nat,
                sigs: sigs_per_bundle as nat,
                limits,
            }),
    {
        Detector {
            pool_a: PoolState {
                pubkey: pool_a_pubkey,
                reserve_a: 0,
                reserve_b: 0,
                last_slot: 0,
                initialised: false,
            },
            pool_b: PoolState {
                pubkey: pool_b_pubkey,
                reserve_a: 0,
                reserve_b: 0,
                last_slot: 0,
                initialised: false,
            },
            spread_threshold_lamports,
            cu_price_microlamports,
            cu_limit_per_bundle,
            sigs_per_bundle,
            limits,
        }
    }

    /// Take an account snapshot: update the pool that it is about, then report
    /// the candidate that the new prices bring up, if there is one. Snapshots of
    /// other accounts, and those that do not decode, change nothing.
    pub fn process_account(&mut self, snap: AccountSnapshot) -> (candidate: Option<ArbCandidate>)
        ensures
            final(self)@ == old(self)@.after(snap),
            if old(self)@.takes(snap) {
                reports(candidate, snap.slot, final(self)@)
            } else {
                candidate is None
            },
    {
        let updated: bool = if same_key(&snap.pubkey, &self.pool_a.pubkey) {
            self.pool_a.update(&snap)
        } else if same_key(&snap.pubkey, &self.pool_b.pubkey) {
            self.pool_b.update(&snap)
        } else {
            false
        };
        if !updated {
            return None;
        }
        self.evaluate(snap.slot)
    }

    /// The stream has been interrupted: what is known of the pools may be out of
    /// date, and no candidate comes up until each has been updated again.
    pub fn mark_stale(&mut self)
        ensures
            final(self)@ == old(self)@.stale(),
    {
        self.pool_a.initialised = false;
        self.pool_b.initialised = false;
    }

    /// Evaluate the current pool states in both directions and report the better
    /// one if its net profit reaches the threshold.
    pub fn evaluate(&self, slot: u64) -> (candidate: Option<ArbCandidate>)
        ensures
            reports(candidate, slot, self@),
    {
        let fee_cost: u64 = self.estimated_fee_lamports();
        if !self.pool_a.initialised || !self.pool_b.initialised || self.pool_a.reserve_a == 0
            || self.pool_a.reserve_b == 0 || self.pool_b.reserve_a == 0 || self.pool_b.reserve_b
            == 0 {
            return None;
        }
        let cap: u64 = least(
            self.limits.max_notional_lamports,
            self.limits.max_position_lamports,
        );
        let max_on_a: u64 = least(self.pool_a.reserve_a / 10, cap);
        let max_on_b: u64 = least(self.pool_b.reserve_a / 10, cap);
        let on_a: ProfitResult = optimal_net_profit(
            &self.pool_a,
            &self.pool_b,
            max_on_a,
            fee_cost,
        );
        let on_b: ProfitResult = optimal_net_profit(
            &self.pool_b,
            &self.pool_a,
            max_on_b,
            fee_cost,
        );
        let buy_on_a: bool = on_a.net > on_b.net;
        let best: ProfitResult = if buy_on_a {
            on_a
        } else {
            on_b
        };
        if best.net < self.spread_threshold_lamports as i128 || best.input == 0 {
            return None;
        }
        let candidate: ArbCandidate = ArbCandidate {
            slot,
            gross_profit_lamports: best.gross as u64,
            net_profit_lamports: best.net as u64,
            pool_a_pubkey: self.pool_a.pubkey,
            pool_b_pubkey: self.pool_b.pubkey,
            buy_on_a,
            optimal_input_lamports: best.input,
        };
        proof {
            law_best_sizing_maximises_the_net_profit(
                self@.buy_pool(buy_on_a),
                self@.buy_pool(!buy_on_a),
                self@.max_input(buy_on_a) as u64,
                fee_cost,
                0,
            );
            assert(candidate.opportunity().sizing == best@);
        }
        Some(candidate)
    }

    /// The estimated fee of a bundle: base fee of its signatures plus priority fee.
    pub fn estimated_fee_lamports(&self) -> (fee: u64)
        ensures
            fee == self@.fee_cost(),
    {
        let priority: u64 = priority_fee_lamports(
            self.cu_price_microlamports,
            self.cu_limit_per_bundle,
        );
        total_fee_lamports(self.sigs_per_bundle, priority)
    }
}

fn least(a: u64, b: u64) -> (c: u64)
    ensures
        c == lesser(a as int, b as int),
{
    if a < b {
        a
    } else {
        b
    }
}

/// The fee estimate fits its type.
proof fn lemma_fee_fits(state: DetectorState)
    ensures
        0 <= state.fee_cost() <= u64::MAX,
{
    lemma_mul_nonnegative(state.cu_price as int, state.cu_limit as int);
}

/// What a candidate promises: its net profit reaches the threshold and is the
/// gross profit less the estimated fee; its size is at least 1, at most a tenth
/// of the reserve it is bought against and within both risk caps; its gross
/// profit is that of the actual round trip; and no allowed size in either
/// direction makes more.
pub proof fn law_candidates_are_the_best_on_offer(state: DetectorState, on_a: bool, x: int)
    requires
        state.opportunity() is Some,
    ensures
        ({
            let found = state.opportunity()->0;
            let sizing = found.sizing;
            let (buy, sell) = (state.buy_pool(found.buy_on_a), state.buy_pool(!found.buy_on_a));
            &&& sizing.net >= state.spread_threshold
            &&& sizing.net == sizing.gross - state.fee_cost()
            &&& 1 <= sizing.input <= buy.reserve_a as int / 10
            &&& sizing.input <= state.limits.max_notional_lamports
            &&& sizing.input <= state.limits.max_position_lamports
            &&& round_trip(buy, sell, sizing.input) == Some(sizing.gross + sizing.input)
            &&& 1 <= x <= state.max_input(on_a) ==> (sizing_at(
                state.buy_pool(on_a),
                state.buy_pool(!on_a),
                state.fee_cost(),
                x,
            ) matches Some(other) ==> other.net <= sizing.net)
        }),
{
    lemma_fee_fits(state);
    let fee_cost = state.fee_cost() as u64;
    let found = state.opportunity()->0;
    law_best_sizing_maximises_the_net_profit(
        state.buy_pool(found.buy_on_a),
        state.buy_pool(!found.buy_on_a),
        state.max_input(found.buy_on_a) as u64,
        fee_cost,
        0,
    );
    law_best_sizing_maximises_the_net_profit(
        state.buy_pool(on_a),
        state.buy_pool(!on_a),
        state.max_input(on_a) as u64,
        fee_cost,
        x,
    );
}

/// The risk gate never blocks a candidate for its size.
pub proof fn law_candidates_keep_the_risk_caps(state: DetectorState, gate: RiskState)
    requires
        state.opportunity() is Some,
        gate.limits == state.limits,
    ensures
        ({
            let input = state.opportunity()->0.sizing.input;
            let cause = gate.block_cause(input, input);
            cause != Some(BlockCause::Notional) && cause != Some(BlockCause::Position)
        }),
{
    law_candidates_are_the_best_on_offer(state, true, 0);
}

/// Every state that a detector can reach is well formed: a pool that has been
/// seen holds something of both tokens. No update changes the addresses, the
/// threshold, the caps or the fee estimate.
pub proof fn law_updates_keep_the_detector_well_formed(state: DetectorState, snap: AccountSnapshot)
    requires
        state.well_formed(),
    ensures
        state.after(snap).well_formed(),
        state.after(snap).pool_a.pubkey == state.pool_a.pubkey,
        state.after(snap).pool_b.pubkey == state.pool_b.pubkey,
        state.after(snap).spread_threshold == state.spread_threshold,
        state.after(snap).limits == state.limits,
        state.after(snap).fee_cost() == state.fee_cost(),
        state.stale().well_formed(),
{
    assert(pool_reserves(snap.data@) matches Some((a, b)) ==> a <= u64::MAX && b <= u64::MAX);
}

/// An update of an account that is not tracked, or that does not decode,
/// changes nothing.
pub proof fn law_foreign_updates_are_ignored(state: DetectorState, snap: AccountSnapshot)
    requires
        !state.takes(snap),
    ensures
        state.after(snap) == state,
{
}

/// Whether a row of updates holds one of the account that decodes.
pub open spec fn was_updated(key: Seq<u8>, snaps: Seq<AccountSnapshot>) -> bool {
    exists|i: int|
        0 <= i < snaps.len() && (#[trigger] snaps[i]).pubkey@ == key && pool_reserves(
            snaps[i].data@,
        ) is Some
}

/// After an interruption of the stream nothing is offered until both pools have
/// been updated again, whatever else arrives.
pub proof fn law_stale_pools_offer_nothing(state: DetectorState, snaps: Seq<AccountSnapshot>)
    requires
        !was_updated(state.pool_a.pubkey@, snaps) || !was_updated(state.pool_b.pubkey@, snaps),
    ensures
        state.stale().after_all(snaps).opportunity() is None,
{
    lemma_only_updates_refresh(state, snaps);
}

proof fn lemma_only_updates_refresh(state: DetectorState, snaps: Seq<AccountSnapshot>)
    ensures
        ({
            let next = state.stale().after_all(snaps);
            &&& next.pool_a.pubkey == state.pool_a.pubkey
            &&& next.pool_b.pubkey == state.pool_b.pubkey
            &&& next.pool_a.initialised ==> was_updated(state.pool_a.pubkey@, snaps)
            &&& next.pool_b.initialised ==> was_updated(state.pool_b.pubkey@, snaps)
        }),
    decreases snaps.len(),
{
    if snaps.len() > 0 {
        let earlier = snaps.drop_last();
        lemma_only_updates_refresh(state, earlier);
        lemma_updates_add_up(state.pool_a.pubkey@, snaps);
        lemma_updates_add_up(state.pool_b.pubkey@, snaps);
    }
}

proof fn lemma_updates_add_up(key: Seq<u8>, snaps: Seq<AccountSnapshot>)
    requires
        snaps.len() > 0,
    ensures
        was_updated(key, snaps.drop_last()) ==> was_updated(key, snaps),
        snaps.last().pubkey@ == key && pool_reserves(snaps.last().data@) is Some ==> was_updated(
            key,
            snaps,
        ),
{
    let earlier = snaps.drop_last();
    if was_updated(key, earlier) {
        let i = choose|i: int|
            0 <= i < earlier.len() && (#[trigger] earlier[i]).pubkey@ == key && pool_reserves(
                earlier[i].data@,
            ) is Some;
        assert(snaps[i] == earlier[i]);
    }
    assert(snaps[snaps.len() - 1] == snaps.last());
}

/// Whether account data spells two reserves: behind the eight bytes of the
/// discriminator the first in eight little-endian bytes, then the second, neither
/// of them zero.
pub open spec fn spells_reserves(data: Seq<u8>, reserve_a: u64, reserve_b: u64) -> bool {
    &&& data.len() >= 24
    &&& data.subrange(8, 16) == spec_u64_to_le_bytes(reserve_a)
    &&& data.subrange(16, 24) == spec_u64_to_le_bytes(reserve_b)
    &&& reserve_a > 0
    &&& reserve_b > 0
}

/// The little-endian bytes of a number, each at its weight, add up to it.
proof fn lemma_le_bytes_add_up(m: u64)
    ensures
        le_u64(spec_u64_to_le_bytes(m), 0) == m,
{
    spec_u64_to_le_bytes_to_open(m);
    let q1 = m / 0x100;
    let q2 = q1 / 0x100;
    let q3 = q2 / 0x100;
    let q4 = q3 / 0x100;
    let q5 = q4 / 0x100;
    let q6 = q5 / 0x100;
    let q7 = q6 / 0x100;
    assert(m & 0xff == m % 0x100) by (bit_vector);
    assert((m >> 8) & 0xff == q1 % 0x100) by (bit_vector)
        requires
            q1 == m / 0x100,
    ;
    assert(m >> 16 == q2) by (bit_vector)
        requires
            q1 == m / 0x100,
            q2 == q1 / 0x100,
    ;
    assert(q2 & 0xff == q2 % 0x100) by (bit_vector);
    assert(m >> 24 == q3) by (bit_vector)
        requires
            m >> 16 == q2,
            q3 == q2 / 0x100,
    ;
    assert(q3 & 0xff == q3 % 0x100) by (bit_vector);
    assert(m >> 32 == q4) by (bit_vector)
        requires
            m >> 24 == q3,
            q4 == q3 / 0x100,
    ;
    assert(q4 & 0xff == q4 % 0x100) by (bit_vector);
    assert(m >> 40 == q5) by (bit_vector)
        requires
            m >> 32 == q4,
            q5 == q4 / 0x100,
    ;
    assert(q5 & 0xff == q5 % 0x100) by (bit_vector);
    assert(m >> 48 == q6) by (bit_vector)
        requires
            m >> 40 == q5,
            q6 == q5 / 0x100,
    ;
    assert(q6 & 0xff == q6 % 0x100) by (bit_vector);
    assert(m >> 56 == q7 && q7 < 0x100) by (bit_vector)
        requires
            m >> 48 == q6,
            q7 == q6 / 0x100,
    ;
    assert(q7 & 0xff == q7 % 0x100) by (bit_vector);
}

/// The number in eight bytes is the one whose little-endian bytes they are.
proof fn lemma_le_u64(data: Seq<u8>, at: int, n: u64)
    requires
        0 <= at,
        at + 8 <= data.len(),
    ensures
        data.subrange(at, at + 8) == spec_u64_to_le_bytes(n) <==> le_u64(data, at) == n,
{
    let bytes = data.subrange(at, at + 8);
    lemma_auto_spec_u64_to_from_le_bytes();
    let m = spec_u64_from_le_bytes(bytes);
    assert(spec_u64_to_le_bytes(m) == bytes);
    lemma_le_bytes_add_up(m);
    assert(le_u64(bytes, 0) == m);
    assert(data[at] == bytes[0] && data[at + 1] == bytes[1] && data[at + 2] == bytes[2] && data[at
        + 3] == bytes[3] && data[at + 4] == bytes[4] && data[at + 5] == bytes[5] && data[at + 6]
        == bytes[6] && data[at + 7] == bytes[7]);
    assert(le_u64(data, at) == m);
    if spec_u64_to_le_bytes(n) == bytes {
        assert(spec_u64_from_le_bytes(spec_u64_to_le_bytes(n)) == n);
    }
}

/// Account data decodes to the two numbers that it spells, and to nothing else:
/// not if it is too short, and not if one of the numbers is zero.
pub proof fn law_reserves_are_read_as_they_are_spelled(data: Seq<u8>, reserve_a: u64, reserve_b: u64)
    ensures
        pool_reserves(data) == Some((reserve_a as nat, reserve_b as nat)) <==> spells_reserves(
            data,
            reserve_a,
            reserve_b,
        ),
        pool_reserves(data) is Some <==> data.len() >= 24 && data.subrange(8, 16)
            != spec_u64_to_le_bytes(0) && data.subrange(16, 24) != spec_u64_to_le_bytes(0),
{
    if data.len() >= 24 {
        lemma_le_u64(data, 8, reserve_a);
        lemma_le_u64(data, 16, reserve_b);
        lemma_le_u64(data, 8, 0);
        lemma_le_u64(data, 16, 0);
    }
}

/// Whether nothing that is spelled in the data could be reserves.
pub open spec fn spells_nothing(data: Seq<u8>) -> bool {
    forall|a: u64, b: u64| !#[trigger] spells_reserves(data, a, b)
}

proof fn lemma_spells_nothing(data: Seq<u8>)
    ensures
        spells_nothing(data) <==> pool_reserves(data) is None,
{
    if pool_reserves(data) is Some {
        let (a, b) = pool_reserves(data)->0;
        assert(a <= u64::MAX && b <= u64::MAX);
        law_reserves_are_read_as_they_are_spelled(data, a as u64, b as u64);
        assert(spells_reserves(data, a as u64, b as u64));
    }
    assert forall|a: u64, b: u64| #[trigger] spells_reserves(data, a, b) implies pool_reserves(
        data,
    ) is Some by {
        law_reserves_are_read_as_they_are_spelled(data, a, b);
    }
}

/// An update of a tracked pool replaces what was known of it, whatever that was:
/// its reserves are then the two numbers in the update's data, and its slot is
/// the update's. Nothing else changes.
pub proof fn law_an_update_replaces_the_reserves(
    state: DetectorState,
    snap: AccountSnapshot,
    reserve_a: u64,
    reserve_b: u64,
)
    requires
        spells_reserves(snap.data@, reserve_a, reserve_b),
    ensures
        ({
            let next = state.after(snap);
            let about_a = state.pool_a.pubkey@ == snap.pubkey@;
            let about_b = !about_a && state.pool_b.pubkey@ == snap.pubkey@;
            &&& state.takes(snap) <==> about_a || about_b
            &&& about_a ==> {
                &&& next.pool_a.reserve_a == reserve_a
                &&& next.pool_a.reserve_b == reserve_b
                &&& next.pool_a.last_slot == snap.slot
                &&& next.pool_a.initialised
            }
            &&& !about_a ==> next.pool_a == state.pool_a
            &&& about_b ==> {
                &&& next.pool_b.reserve_a == reserve_a
                &&& next.pool_b.reserve_b == reserve_b
                &&& next.pool_b.last_slot == snap.slot
                &&& next.pool_b.initialised
            }
            &&& !about_b ==> next.pool_b == state.pool_b
            &&& next.pool_a.pubkey == state.pool_a.pubkey
            &&& next.pool_b.pubkey == state.pool_b.pubkey
            &&& next.spread_threshold == state.spread_threshold
            &&& next.cu_price == state.cu_price
            &&& next.cu_limit == state.cu_limit
            &&& next.sigs == state.sigs
            &&& next.limits == state.limits
        }),
{
    law_reserves_are_read_as_they_are_spelled(snap.data@, reserve_a, reserve_b);
}

/// An update whose data spells no reserves changes nothing, and neither does one
/// of an account that is not tracked.
pub proof fn law_other_updates_change_nothing(state: DetectorState, snap: AccountSnapshot)
    requires
        spells_nothing(snap.data@) || (state.pool_a.pubkey@ != snap.pubkey@ && state.pool_b.pubkey@
            != snap.pubkey@),
    ensures
        state.after(snap) == state,
        !state.takes(snap),
{
    lemma_spells_nothing(snap.data@);
}

/// One pool takes exactly the updates of its own address, whatever it held.
pub proof fn law_a_pool_takes_its_own_updates(
    pool: PoolState,
    snap: AccountSnapshot,
    reserve_a: u64,
    reserve_b: u64,
)
    ensures
        ({
            let next = pool.updated(snap);
            &&& next.pubkey == pool.pubkey
            &&& pool.pubkey@ == snap.pubkey@ && spells_reserves(snap.data@, reserve_a, reserve_b)
                ==> {
                &&& next.reserve_a == reserve_a
                &&& next.reserve_b == reserve_b
                &&& next.last_slot == snap.slot
                &&& next.initialised
            }
            &&& pool.pubkey@ != snap.pubkey@ || spells_nothing(snap.data@) ==> next == pool
        }),
{
    law_reserves_are_read_as_they_are_spelled(snap.data@, reserve_a, reserve_b);
    lemma_spells_nothing(snap.data@);
}

/// After a row of updates a pool holds the reserves of the last one that is of
/// its address and decodes, whatever was known before and whatever else arrived.
pub proof fn law_reserves_are_those_of_the_last_update(
    state: DetectorState,
    snaps: Seq<AccountSnapshot>,
    last: int,
    reserve_a: u64,
    reserve_b: u64,
)
    requires
        0 <= last < snaps.len(),
        spells_reserves(snaps[last].data@, reserve_a, reserve_b),
        forall|i: int|
            last < i < snaps.len() ==> (#[trigger] snaps[i]).pubkey@ != snaps[last].pubkey@
                || spells_nothing(snaps[i].data@),
    ensures
        ({
            let next = state.after_all(snaps);
            let key = snaps[last].pubkey@;
            &&& state.pool_a.pubkey@ == key ==> {
                &&& next.pool_a.reserve_a == reserve_a
                &&& next.pool_a.reserve_b == reserve_b
                &&& next.pool_a.last_slot == snaps[last].slot
                &&& next.pool_a.initialised
            }
            &&& state.pool_a.pubkey@ != key && state.pool_b.pubkey@ == key ==> {
                &&& next.pool_b.reserve_a == reserve_a
                &&& next.pool_b.reserve_b == reserve_b
                &&& next.pool_b.last_slot == snaps[last].slot
                &&& next.pool_b.initialised
            }
        }),
    decreases snaps.len(),
{
    let earlier = snaps.drop_last();
    let before = state.after_all(earlier);
    lemma_addresses_stay(state, earlier);
    if last == snaps.len() - 1 {
        law_an_update_replaces_the_reserves(before, snaps.last(), reserve_a, reserve_b);
    } else {
        assert(earlier[last] == snaps[last]);
        assert forall|i: int| last < i < earlier.len() implies (#[trigger] earlier[i]).pubkey@
            != earlier[last].pubkey@ || spells_nothing(earlier[i].data@) by {
            assert(earlier[i] == snaps[i]);
        }
        law_reserves_are_those_of_the_last_update(state, earlier, last, reserve_a, reserve_b);
        let snap = snaps[snaps.len() - 1];
        assert(snap.pubkey@ != snaps[last].pubkey@ || spells_nothing(snap.data@));
        lemma_spells_nothing(snap.data@);
    }
}

proof fn lemma_addresses_stay(state: DetectorState, snaps: Seq<AccountSnapshot>)
    ensures
        state.after_all(snaps).pool_a.pubkey == state.pool_a.pubkey,
        state.after_all(snaps).pool_b.pubkey == state.pool_b.pubkey,
    decreases snaps.len(),
{
    if snaps.len() > 0 {
        lemma_addresses_stay(state, snaps.drop_last());
    }
}

/// A pool of which no update in a row decodes is as it was before the row.
pub proof fn law_pools_without_updates_stay(state: DetectorState, snaps: Seq<AccountSnapshot>)
    ensures
        ({
            let next = state.after_all(snaps);
            &&& (forall|i: int|
                0 <= i < snaps.len() ==> (#[trigger] snaps[i]).pubkey@ != state.pool_a.pubkey@
                    || spells_nothing(snaps[i].data@)) ==> next.pool_a == state.pool_a
            &&& (forall|i: int|
                0 <= i < snaps.len() ==> (#[trigger] snaps[i]).pubkey@ != state.pool_b.pubkey@
                    || spells_nothing(snaps[i].data@)) ==> next.pool_b == state.pool_b
        }),
    decreases snaps.len(),
{
    if snaps.len() > 0 {
        let earlier = snaps.drop_last();
        law_pools_without_updates_stay(state, earlier);
        lemma_addresses_stay(state, earlier);
        assert(forall|i: int| 0 <= i < earlier.len() ==> #[trigger] earlier[i] == snaps[i]);
        assert(snaps[snaps.len() - 1] == snaps.last());
        lemma_spells_nothing(snaps.last().data@);
    }
}

/// A pool of which nothing has been seen, and one whose state may be out of date,
/// do not count as seen; becoming out of date changes nothing else.
pub proof fn law_an_interruption_takes_only_the_standing(state: DetectorState, pubkey: [u8; 32])
    ensures
        ({
            let unseen = PoolState::unknown(pubkey);
            let next = state.stale();
            &&& unseen.pubkey == pubkey && !unseen.initialised && unseen.reserve_a == 0
                && unseen.reserve_b == 0 && unseen.last_slot == 0
            &&& !next.pool_a.initialised && !next.pool_b.initialised
            &&& next.pool_a.pubkey == state.pool_a.pubkey
            &&& next.pool_a.reserve_a == state.pool_a.reserve_a
            &&& next.pool_a.reserve_b == state.pool_a.reserve_b
            &&& next.pool_a.last_slot == state.pool_a.last_slot
            &&& next.pool_b.pubkey == state.pool_b.pubkey
            &&& next.pool_b.reserve_a == state.pool_b.reserve_a
            &&& next.pool_b.reserve_b == state.pool_b.reserve_b
            &&& next.pool_b.last_slot == state.pool_b.last_slot
            &&& next.spread_threshold == state.spread_threshold
            &&& next.cu_price == state.cu_price
            &&& next.cu_limit == state.cu_limit
            &&& next.sigs == state.sigs
            &&& next.limits == state.limits
        }),
{
}

/// The estimated fee is the least whole number of lamports that covers 5000
/// lamports for every signature and the price of the compute units, or `u64::MAX`
/// where that is larger.
pub proof fn law_the_fee_estimate_covers_signatures_and_units(state: DetectorState)
    requires
        state.cu_price <= u64::MAX,
        state.cu_limit <= u32::MAX,
        state.sigs <= u64::MAX,
    ensures
        ({
            let fee = state.fee_cost();
            let exact = 5_000_000_000 * state.sigs + state.cu_price * state.cu_limit;
            &&& (fee - 1) * 1_000_000 < exact
            &&& exact <= fee * 1_000_000 || fee == u64::MAX
        }),
{
    lemma_mul_nonnegative(state.cu_price as int, state.cu_limit as int);
    law_priority_fee_is_the_least_covering_fee(state.cu_price as u64, state.cu_limit as u32);
}

/// Whether a size may be traded: at least 1, at most a tenth of the reserve that it
/// is bought against, within both risk caps, and something comes out of both legs.
pub open spec fn may_be_traded(state: DetectorState, buy: PoolState, sell: PoolState, x: int) -> bool {
    let bought = pool_swap(buy.reserve_a as int, buy.reserve_b as int, x);
    &&& 1 <= x
    &&& 10 * x <= buy.reserve_a
    &&& x <= state.limits.max_notional_lamports
    &&& x <= state.limits.max_position_lamports
    &&& bought > 0
    &&& pool_swap(sell.reserve_b as int, sell.reserve_a as int, bought) > 0
}

/// What a round trip of a size makes after the estimated fee.
pub open spec fn made_by(state: DetectorState, buy: PoolState, sell: PoolState, x: int) -> int {
    pool_swap(
        sell.reserve_b as int,
        sell.reserve_a as int,
        pool_swap(buy.reserve_a as int, buy.reserve_b as int, x),
    ) - x - state.fee_cost()
}

proof fn lemma_direction(state: DetectorState, on_a: bool, x: int)
    ensures
        ({
            let (buy, sell) = if on_a {
                (state.pool_a, state.pool_b)
            } else {
                (state.pool_b, state.pool_a)
            };
            let best = state.best_when_buying_on_a(on_a);
            &&& best.input > 0 ==> {
                &&& may_be_traded(state, buy, sell, best.input)
                &&& best.net == made_by(state, buy, sell, best.input)
                &&& best.gross == best.net + state.fee_cost()
            }
            &&& best.input >= 0
            &&& best.input == 0 ==> best.net <= 0
            &&& may_be_traded(state, buy, sell, x) ==> {
                &&& best.input > 0
                &&& made_by(state, buy, sell, x) <= best.net
                &&& made_by(state, buy, sell, x) == best.net ==> best.input <= x
            }
        }),
{
    lemma_fee_fits(state);
    law_the_best_sizing_is_that_of_its_legs(
        state.buy_pool(on_a),
        state.buy_pool(!on_a),
        state.max_input(on_a) as u64,
        state.fee_cost() as u64,
        x,
    );
}

/// A candidate is a trade that may be made, with its real profit, that reaches the
/// threshold; no other trade that may be made, in either direction, makes more,
/// and of those that make as much the candidate is the one in pool B, then the
/// smallest.
pub proof fn law_a_report_is_the_best_trade(
    result: Option<ArbCandidate>,
    slot: u64,
    state: DetectorState,
    x: int,
)
    requires
        reports(result, slot, state),
        result is Some,
    ensures
        ({
            let found = result->0;
            let input = found.optimal_input_lamports as int;
            let (a, b) = (state.pool_a, state.pool_b);
            let (buy, sell) = if found.buy_on_a {
                (a, b)
            } else {
                (b, a)
            };
            &&& found.slot == slot
            &&& found.pool_a_pubkey == a.pubkey
            &&& found.pool_b_pubkey == b.pubkey
            &&& a.initialised && b.initialised
            &&& a.reserve_a > 0 && a.reserve_b > 0 && b.reserve_a > 0 && b.reserve_b > 0
            &&& may_be_traded(state, buy, sell, input)
            &&& found.net_profit_lamports == made_by(state, buy, sell, input)
            &&& found.gross_profit_lamports == found.net_profit_lamports + state.fee_cost()
            &&& found.net_profit_lamports >= state.spread_threshold
            &&& may_be_traded(state, buy, sell, x) ==> {
                &&& made_by(state, buy, sell, x) <= found.net_profit_lamports
                &&& made_by(state, buy, sell, x) == found.net_profit_lamports ==> input <= x
            }
            &&& may_be_traded(state, sell, buy, x) ==> {
                &&& made_by(state, sell, buy, x) <= found.net_profit_lamports
                &&& made_by(state, sell, buy, x) == found.net_profit_lamports ==> !found.buy_on_a
            }
        }),
{
    lemma_direction(state, true, x);
    lemma_direction(state, false, x);
}

/// Where nothing is reported nothing is to be had: one of the pools has not been
/// seen, or no trade that may be made, in either direction, makes a profit that
/// reaches the threshold.
pub proof fn law_no_report_means_no_trade(slot: u64, state: DetectorState, x: int)
    requires
        reports(None, slot, state),
        state.pool_a.initialised,
        state.pool_b.initialised,
        state.pool_a.reserve_a > 0 && state.pool_a.reserve_b > 0,
        state.pool_b.reserve_a > 0 && state.pool_b.reserve_b > 0,
    ensures
        ({
            let (a, b) = (state.pool_a, state.pool_b);
            &&& may_be_traded(state, a, b, x) ==> made_by(state, a, b, x) < state.spread_threshold
                || made_by(state, a, b, x) <= 0
            &&& may_be_traded(state, b, a, x) ==> made_by(state, b, a, x) < state.spread_threshold
                || made_by(state, b, a, x) <= 0
        }),
{
    lemma_direction(state, true, x);
    lemma_direction(state, false, x);
}

} // verus!
