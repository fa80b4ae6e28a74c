//! The path of a candidate: risk gate, bundle, simulation, confirmation,
//! submission, landing.
//!
//! - The risk gate is asked first, in every mode.
//! - A dry run ends there: nothing is built, simulated or sent.
//! - A bundle is simulated before anything is sent, and a failed simulation ends
//!   the run.
//! - Only a typed `YES` leads to a submission. No setting turns that off.
//! - Whatever fails counts as a revert.

use crate::base58::{is_base58_of, law_base58_text_names_one_key, pubkey_text};
use crate::config::Config;
use crate::detector::{ArbCandidate, Detector, DetectorState, PoolState};
use crate::fees::{
    cu_limit, cu_limit_with_margin, law_cu_limit_is_the_estimate_plus_the_margin,
};
use crate::jito::{
    build_bundle, bundle_of, confirm_gate, group_view, group_views, is_in_flight_status,
    is_reconciliation, is_submit_params, law_a_bundle_keeps_the_order_of_its_groups,
    law_a_status_reply_decides, law_an_in_flight_reply_decides, law_only_yes_is_a_confirmation,
    poll_start, reports_landed, reports_settled, said_of_the_bundle, submitted_bundle_id, BundlePoll, BundleView, GroupView, InFlightStatus, InstructionGroup,
    JitoBundle, PollPhase, PollReply, PollState, ReconcileError, SimulationResult,
};
use crate::json::Json;
use crate::risk::{
    law_reverts_in_a_row_trip_the_breaker, saturated, RiskEvent, RiskGate, RiskState,
};
use crate::solana::{
    instruction_views, keypair_views, lemma_empty_can_be_signed, pubkey_of, pubkeys,
    signed_transaction, transfer_view, Instruction, InstructionView, Keypair,
};
use crate::stream::StreamConfig;
use crate::text::{is_blank, trimmed};
use vstd::arithmetic::mul::*;
use vstd::prelude::*;

verus! {

/// Lamports in one SOL.
pub const LAMPORTS_PER_SOL: u64 = 1_000_000_000;

/// Basis points in a whole.
pub const BPS_DENOM: u64 = 10_000;

/// Signatures of a bundle: two swap transactions and the tip transaction.
pub const SIGS_PER_BUNDLE: u64 = 3;

/// Updates that may wait between the stream and the detector.
pub const STREAM_CHANNEL_CAPACITY: usize = 256;

/// Questions about a submitted bundle before it is given up.
pub const POLL_MAX_ATTEMPTS: u32 = 20;

/// `bps` basis points of one SOL, in lamports.
pub open spec fn bps_of_a_sol(bps: nat) -> nat {
    (LAMPORTS_PER_SOL * bps / (BPS_DENOM as int)) as nat
}

/// Convert basis points to a threshold in lamports, at a nominal size of 1 SOL.
pub fn bps_to_lamports_floor(bps: u32) -> (lamports: u64)
    ensures
        lamports == bps_of_a_sol(bps as nat),
{
    LAMPORTS_PER_SOL * (bps as u64) / BPS_DENOM
}

/// `n` held between `floor` and `ceil`.
pub open spec fn clamped(n: int, floor: int, ceil: int) -> int {
    if n < floor {
        floor
    } else if n > ceil {
        ceil
    } else {
        n
    }
}

/// How tips are sized: `bps` of the net edge, held between a floor and a
/// ceiling, and never so high that `min_net` or less is left.
#[derive(Debug, Clone, Copy, PartialEq, Eq, Structural)]
pub struct TipPolicy {
    pub bps: u32,
    pub floor: u64,
    pub ceil: u64,
    pub min_net: u64,
}

impl TipPolicy {
    /// The tip before it is decided whether to tip at all.
    pub open spec fn sized(self, net: int) -> int {
        clamped(net * self.bps / (BPS_DENOM as int), self.floor as int, self.ceil as int)
    }

    /// The tip of a candidate; none where the edge is no more than the floor or
    /// what is left of it no more than the minimum.
    pub open spec fn tip(self, net: int) -> Option<int> {
        if net <= self.floor || net - self.sized(net) <= self.min_net {
            None
        } else {
            Some(self.sized(net))
        }
    }
}

/// The tip of a candidate with the given net profit, or none where the candidate
/// is not worth submitting.
pub fn compute_tip_lamports(net_profit_lamports: u64, policy: TipPolicy) -> (tip: Option<u64>)
    requires
        policy.floor <= policy.ceil,
    ensures
        match tip {
            Some(t) => policy.tip(net_profit_lamports as int) == Some(t as int),
            None => policy.tip(net_profit_lamports as int) is None,
        },
{
    if net_profit_lamports <= policy.floor {
        return None;
    }
    proof {
        lemma_mul_upper_bound(
            net_profit_lamports as int,
            u64::MAX as int,
            policy.bps as int,
            u32::MAX as int,
        );
    }
    let share: u128 = (net_profit_lamports as u128) * (policy.bps as u128) / (BPS_DENOM as u128);
    let tip: u64 = if share < policy.floor as u128 {
        policy.floor
    } else if share > policy.ceil as u128 {
        policy.ceil
    } else {
        share as u64
    };
    if tip >= net_profit_lamports || net_profit_lamports - tip <= policy.min_net {
        None
    } else {
        Some(tip)
    }
}

/// A tip is never below the floor, never above the ceiling, and leaves more than
/// the minimum net profit.
pub proof fn law_tip_is_bounded_and_leaves_the_minimum(policy: TipPolicy, net: int)
    requires
        policy.floor <= policy.ceil,
    ensures
        policy.tip(net) matches Some(tip) ==> {
            &&& policy.floor <= tip <= policy.ceil
            &&& net - tip > policy.min_net
            &&& tip < net
        },
{
}

/// A candidate is skipped if its edge is no more than the tip floor or no more
/// than the minimum that has to be left.
pub proof fn law_edge_within_the_floor_is_skipped(policy: TipPolicy, net: int)
    requires
        policy.floor <= policy.ceil,
        net <= policy.floor || net <= policy.min_net,
    ensures
        policy.tip(net) is None,
{
}

/// A higher edge never gets a lower tip.
pub proof fn law_tip_is_monotone(policy: TipPolicy, net: int, more: int)
    requires
        policy.floor <= policy.ceil,
        0 <= net <= more,
    ensures
        policy.sized(net) <= policy.sized(more),
        policy.tip(net) is Some && policy.tip(more) is Some ==> policy.tip(net)->0 <= policy.tip(
            more,
        )->0,
{
    lemma_mul_inequality(net, more, policy.bps as int);
    vstd::arithmetic::div_mod::lemma_div_is_ordered(
        net * policy.bps,
        more * policy.bps,
        BPS_DENOM as int,
    );
}

impl Config {
    /// The tip policy of a configuration: the minimum that has to be left is the
    /// spread threshold.
    pub open spec fn tip_policy_spec(self) -> TipPolicy {
        TipPolicy {
            bps: self.tip_bps,
            floor: self.tip_floor_lamports,
            ceil: self.tip_ceil_lamports,
            min_net: bps_of_a_sol(self.spread_threshold_bps as nat) as u64,
        }
    }

    /// The tip policy of a configuration.
    pub fn tip_policy(&self) -> (policy: TipPolicy)
        ensures
            policy == self.tip_policy_spec(),
            policy.min_net == bps_of_a_sol(self.spread_threshold_bps as nat),
    {
        TipPolicy {
            bps: self.tip_bps,
            floor: self.tip_floor_lamports,
            ceil: self.tip_ceil_lamports,
            min_net: bps_to_lamports_floor(self.spread_threshold_bps),
        }
    }

    /// What the detector of a configuration holds before the first update: the spread
    /// threshold, the fee estimate and the caps of the configuration.
    pub open spec fn detector_start(self, pool_a: [u8; 32], pool_b: [u8; 32]) -> DetectorState {
        DetectorState {
            pool_a: PoolState::unknown(pool_a),
            pool_b: PoolState::unknown(pool_b),
            spread_threshold: bps_of_a_sol(self.spread_threshold_bps as nat),
            cu_price: self.cu_price_microlamports as nat,
            cu_limit: cu_limit(self.cu_limit_estimate as int, self.cu_margin_bps as int) as nat,
            sigs: SIGS_PER_BUNDLE as nat,
            limits: self.risk_limits,
        }
    }

    /// The detector of a configuration for two pools.
    pub fn detector(&self, pool_a: [u8; 32], pool_b: [u8; 32]) -> (detector: Detector)
        ensures
            detector@ == self.detector_start(pool_a, pool_b),
            detector@ == (DetectorState {
                pool_a: PoolState::unknown(pool_a),
                pool_b: PoolState::unknown(pool_b),
                spread_threshold: bps_of_a_sol(self.spread_threshold_bps as nat),
                cu_price: self.cu_price_microlamports as nat,
                cu_limit: cu_limit(
                    self.cu_limit_estimate as int,
                    self.cu_margin_bps as int,
                ) as nat,
                sigs: SIGS_PER_BUNDLE as nat,
                limits: self.risk_limits,
            }),
    {
        Detector::new(
            pool_a,
            pool_b,
            bps_to_lamports_floor(self.spread_threshold_bps),
            self.cu_price_microlamports,
            cu_limit_with_margin(self.cu_limit_estimate, self.cu_margin_bps),
            SIGS_PER_BUNDLE,
            self.risk_limits,
        )
    }

    /// Whether a stream is that of the configuration for two pools.
    pub open spec fn streams(self, stream: StreamConfig, pool_a: Seq<u8>, pool_b: Seq<u8>) -> bool {
        &&& stream.grpc_url@ == self.grpc_url@
        &&& stream.grpc_token@ == self.grpc_token@
        &&& stream.account_keys@.len() == 2
        &&& is_base58_of(stream.account_keys@[0]@, pool_a)
        &&& is_base58_of(stream.account_keys@[1]@, pool_b)
        &&& stream.channel_capacity == STREAM_CHANNEL_CAPACITY
    }

    /// The stream of a configuration: both pools, by their addresses.
    pub fn stream_config(&self, pool_a: [u8; 32], pool_b: [u8; 32]) -> (stream: StreamConfig)
        ensures
            stream.grpc_url@ == self.grpc_url@,
            stream.grpc_token@ == self.grpc_token@,
            stream.account_keys@.len() == 2,
            self.streams(stream, pool_a@, pool_b@),
            is_base58_of(stream.account_keys@[0]@, pool_a@),
            is_base58_of(stream.account_keys@[1]@, pool_b@),
            stream.channel_capacity == STREAM_CHANNEL_CAPACITY,
            stream.channel_capacity == 256,
    {
        let mut account_keys: Vec<String> = Vec::new();
        account_keys.push(pubkey_text(&pool_a));
        account_keys.push(pubkey_text(&pool_b));
        StreamConfig {
            grpc_url: self.grpc_url.clone(),
            grpc_token: self.grpc_token.clone(),
            account_keys,
            channel_capacity: STREAM_CHANNEL_CAPACITY,
        }
    }
}

/// The swap instructions of one leg. Building them takes the programs and account
/// layouts of the exchanges in question; without those a leg is empty, and a
/// bundle moves nothing but its tip.
pub fn build_swap_instructions_placeholder(
    _candidate: &ArbCandidate,
    _buy_leg: bool,
    _payer: &Keypair,
) -> (instructions: Vec<Instruction>)
    ensures
        instructions@ == Seq::<Instruction>::empty(),
{
    Vec::new()
}

/// The groups of a bundle's legs: both are empty and signed by the payer.
pub open spec fn leg_views(payer: Seq<u8>) -> Seq<GroupView> {
    seq![(Seq::empty(), seq![payer]), (Seq::empty(), seq![payer])]
}

fn leg<'a>(candidate: &ArbCandidate, buy_leg: bool, payer: &'a Keypair) -> (group:
    InstructionGroup<'a>)
    ensures
        group_view(group) == (Seq::<InstructionView>::empty(), seq![payer@]),
{
    let instructions: Vec<Instruction> = build_swap_instructions_placeholder(
        candidate,
        buy_leg,
        payer,
    );
    let mut signers: Vec<&'a Keypair> = Vec::new();
    signers.push(payer);
    assert(instruction_views(instructions@) =~= Seq::<InstructionView>::empty());
    assert(keypair_views(signers@) =~= seq![payer@]);
    (instructions, signers)
}

/// The bundle of a candidate: the buying leg, the selling leg and the tip.
pub open spec fn candidate_bundle(
    payer: Seq<u8>,
    tip_account: Seq<u8>,
    tip_lamports: nat,
    blockhash: Seq<u8>,
) -> BundleView {
    bundle_of(leg_views(payer), payer, tip_account, tip_lamports, blockhash)
}

/// Build and sign the bundle of a candidate.
pub fn build_candidate_bundle(
    candidate: &ArbCandidate,
    payer: &Keypair,
    tip_account: [u8; 32],
    tip_lamports: u64,
    recent_blockhash: [u8; 32],
) -> (bundle: JitoBundle)
    ensures
        bundle@ == candidate_bundle(
            payer@,
            tip_account@,
            tip_lamports as nat,
            recent_blockhash@,
        ),
{
    let mut groups: Vec<InstructionGroup> = Vec::new();
    groups.push(leg(candidate, true, payer));
    groups.push(leg(candidate, false, payer));
    proof {
        assert(group_views(groups@) =~= leg_views(payer@));
        assert(pubkeys(seq![payer@]) =~= seq![pubkey_of(payer@)]);
        lemma_empty_can_be_signed(pubkey_of(payer@));
    }
    match build_bundle(groups, payer, tip_account, tip_lamports, recent_blockhash) {
        Ok(bundle) => bundle,
        Err(_) => vstd::pervasive::unreached(),
    }
}

/// Where the handling of a candidate stands.
#[derive(Debug, Clone, Copy, PartialEq, Eq, Structural)]
pub enum RunPhase {
    /// The risk gate blocked the candidate.
    Blocked,
    /// The candidate passed the risk gate; nothing is sent in a dry run.
    DryRun,
    /// The payer's key and a recent blockhash are wanted.
    Preparing,
    /// The candidate is not worth a tip.
    Skipped,
    /// The simulation of the bundle is wanted.
    Simulating,
    /// A typed confirmation is wanted.
    Confirming,
    /// The bundle is to be submitted.
    Submitting,
    /// The fate of the submitted bundle is wanted.
    Polling,
    /// The bundle landed.
    Landed,
    /// Something failed.
    Failed,
}

/// What happens to a candidate that is being handled.
pub enum RunEvent {
    /// The payer's keypair, the tip account and a recent blockhash are there.
    Prepared { payer: Seq<u8>, tip_account: Seq<u8>, blockhash: Seq<u8> },
    /// The simulation is over.
    Simulated { success: bool },
    /// The answer to the request for confirmation.
    Typed { response: Seq<char> },
    /// The block engine answered the submission.
    Submitted { answer: Json },
    /// The in-flight endpoint or the status endpoint answered.
    Polled { reply: PollReply },
    /// A call to the outside failed.
    CallFailed,
}

/// The handling of a candidate, as mathematical values.
pub struct RunState {
    pub phase: RunPhase,
    pub block_message: Option<Seq<char>>,
    pub net_profit: nat,
    pub policy: TipPolicy,
    pub bundle: Option<BundleView>,
    pub poll: PollState,
}

/// The text under `result` of a reply, if there is one.
pub open spec fn names_a_bundle(reply: Json) -> bool {
    reply.child("result"@) matches Some(value) && value.text() is Some
}

/// Where a run stands that has just begun.
pub open spec fn first_phase(gate: RiskState, config: Config, input: int) -> RunPhase {
    if !gate.admits(input, input) {
        RunPhase::Blocked
    } else if config.dry_run {
        RunPhase::DryRun
    } else {
        RunPhase::Preparing
    }
}

/// What the risk gate says of an order of this size that it blocks.
pub open spec fn block_message(gate: RiskState, input: nat) -> Option<Seq<char>> {
    match gate.block_cause(input as int, input as int) {
        Some(cause) => Some(gate.block_message(cause, input, input)),
        None => None,
    }
}

/// The handling of a candidate when it begins.
pub open spec fn run_start(gate: RiskState, config: Config, candidate: ArbCandidate) -> RunState {
    RunState {
        phase: first_phase(gate, config, candidate.optimal_input_lamports as int),
        block_message: block_message(gate, candidate.optimal_input_lamports as nat),
        net_profit: candidate.net_profit_lamports as nat,
        policy: config.tip_policy_spec(),
        bundle: None,
        poll: poll_start(POLL_MAX_ATTEMPTS as nat),
    }
}

impl RunState {
    /// Whether nothing more happens.
    pub open spec fn is_over(self) -> bool {
        self.phase == RunPhase::Blocked || self.phase == RunPhase::DryRun || self.phase
            == RunPhase::Skipped || self.phase == RunPhase::Landed || self.phase
            == RunPhase::Failed
    }

    /// Whether the candidate was blocked or something failed.
    pub open spec fn has_failed(self) -> bool {
        self.phase == RunPhase::Blocked || self.phase == RunPhase::Failed
    }

    /// The run in another phase.
    pub open spec fn at(self, phase: RunPhase) -> RunState {
        RunState { phase, ..self }
    }

    /// The phase that the state of the poll leads to.
    pub open spec fn polled_phase(poll: PollState) -> RunPhase {
        match poll.phase {
            PollPhase::Landed => RunPhase::Landed,
            PollPhase::Failed => RunPhase::Failed,
            _ => RunPhase::Polling,
        }
    }

    /// The run after an event. An event that is not waited for changes nothing.
    pub open spec fn after(self, event: RunEvent) -> RunState {
        match event {
            RunEvent::Prepared { payer, tip_account, blockhash } => if self.phase
                != RunPhase::Preparing {
                self
            } else {
                match self.policy.tip(self.net_profit as int) {
                    None => self.at(RunPhase::Skipped),
                    Some(tip) => RunState {
                        phase: RunPhase::Simulating,
                        bundle: Some(candidate_bundle(payer, tip_account, tip as nat, blockhash)),
                        ..self
                    },
                }
            },
            RunEvent::Simulated { success } => if self.phase != RunPhase::Simulating {
                self
            } else if success {
                self.at(RunPhase::Confirming)
            } else {
                self.at(RunPhase::Failed)
            },
            RunEvent::Typed { response } => if self.phase != RunPhase::Confirming {
                self
            } else if trimmed(response) == "YES"@ {
                self.at(RunPhase::Submitting)
            } else {
                self.at(RunPhase::Failed)
            },
            RunEvent::Submitted { answer } => if self.phase != RunPhase::Submitting {
                self
            } else if names_a_bundle(answer) {
                self.at(RunPhase::Polling)
            } else {
                self.at(RunPhase::Failed)
            },
            RunEvent::Polled { reply } => if self.phase != RunPhase::Polling {
                self
            } else {
                let poll = self.poll.after(reply);
                RunState { phase: RunState::polled_phase(poll), poll, ..self }
            },
            RunEvent::CallFailed => if self.is_over() {
                self
            } else {
                self.at(RunPhase::Failed)
            },
        }
    }

    /// The transaction that is wanted simulated, if one is.
    pub open spec fn to_simulate(self) -> Option<Seq<u8>> {
        if self.phase == RunPhase::Simulating && self.bundle is Some {
            self.bundle->0.simulated()
        } else {
            None
        }
    }

    /// The transactions that are to be submitted, if any are.
    pub open spec fn to_submit(self) -> Option<Seq<Seq<u8>>> {
        if self.phase == RunPhase::Submitting && self.bundle is Some {
            Some(self.bundle->0.transactions)
        } else {
            None
        }
    }

    /// The run after a row of events.
    pub open spec fn after_all(self, events: Seq<RunEvent>) -> RunState
        decreases events.len(),
    {
        if events.len() == 0 {
            self
        } else {
            self.after_all(events.drop_last()).after(events.last())
        }
    }
}

/// The handling of one candidate. The program around it performs what the phase
/// asks for and hands the outcome back.
pub struct CandidateRun<'a> {
    candidate: &'a ArbCandidate,
    phase: RunPhase,
    block_message: Option<String>,
    policy: TipPolicy,
    bundle: Option<JitoBundle>,
    poll: BundlePoll,
}

impl<'a> View for CandidateRun<'a> {
    type V = RunState;

    closed spec fn view(&self) -> RunState {
        RunState {
            phase: self.phase,
            block_message: match self.block_message {
                Some(message) => Some(message@),
                None => None,
            },
            net_profit: self.candidate.net_profit_lamports as nat,
            policy: self.policy,
            bundle: match self.bundle {
                Some(bundle) => Some(bundle@),
                None => None,
            },
            poll: self.poll@,
        }
    }
}

impl RunState {
    /// A tip can be sized at all times, a bundle is there from the simulation to
    /// the submission, and while the fate of a bundle is wanted there is
    /// something to ask.
    pub open spec fn well_formed(self) -> bool {
        &&& self.policy.floor <= self.policy.ceil
        &&& self.phase == RunPhase::Simulating || self.phase == RunPhase::Confirming || self.phase
            == RunPhase::Submitting ==> self.bundle is Some && self.bundle->0.transactions.len()
            > 0
        &&& self.phase == RunPhase::Polling ==> self.poll.phase == PollPhase::AskInFlight
            || self.poll.phase == PollPhase::AskStatuses
        &&& !self.is_over() && self.phase != RunPhase::Polling ==> self.poll.phase
            == PollPhase::AskInFlight
    }
}

impl<'a> CandidateRun<'a> {
    /// Every run is well formed at all times.
    #[verifier::type_invariant]
    spec fn run_well_formed(self) -> bool {
        self@.well_formed()
    }

    /// Ask the risk gate about a candidate. The whole input counts as the size of
    /// the order and as the position after it.
    pub fn begin(candidate: &'a ArbCandidate, gate: &RiskGate, config: &Config) -> (run: Self)
        requires
            config.tip_floor_lamports <= config.tip_ceil_lamports,
        ensures
            run@ == run_start(gate@, *config, *candidate),
    {
        let input: u64 = candidate.optimal_input_lamports;
        let (phase, block_message) = match gate.check_order(input, input) {
            Err(message) => (RunPhase::Blocked, Some(message)),
            Ok(_) => if config.dry_run {
                (RunPhase::DryRun, None)
            } else {
                (RunPhase::Preparing, None)
            },
        };
        CandidateRun {
            candidate,
            phase,
            block_message,
            policy: config.tip_policy(),
            bundle: None,
            poll: BundlePoll::new(POLL_MAX_ATTEMPTS),
        }
    }

    /// Where the run stands.
    pub fn phase(&self) -> (phase: RunPhase)
        ensures
            phase == self@.phase,
    {
        self.phase
    }

    /// Why the risk gate blocked the candidate, if it did.
    pub fn block_message(&self) -> (message: Option<&String>)
        ensures
            match message {
                Some(text) => self@.block_message == Some(text@),
                None => self@.block_message is None,
            },
    {
        match &self.block_message {
            Some(message) => Some(message),
            None => None,
        }
    }

    /// The bundle, once it is built.
    pub fn bundle(&self) -> (bundle: Option<&JitoBundle>)
        ensures
            match bundle {
                Some(b) => self@.bundle == Some(b@),
                None => self@.bundle is None,
            },
    {
        match &self.bundle {
            Some(bundle) => Some(bundle),
            None => None,
        }
    }

    /// What to ask about a submitted bundle.
    pub fn poll_phase(&self) -> (phase: PollPhase)
        ensures
            phase == self@.poll.phase,
    {
        self.poll.phase()
    }

    /// Size the tip, then build and sign the bundle.
    pub fn on_prepared(
        &mut self,
        payer: &Keypair,
        tip_account: [u8; 32],
        recent_blockhash: [u8; 32],
    )
        ensures
            final(self)@ == old(self)@.after(
                RunEvent::Prepared {
                    payer: payer@,
                    tip_account: tip_account@,
                    blockhash: recent_blockhash@,
                },
            ),
    {
        proof {
            use_type_invariant(&*self);
        }
        match self.phase {
            RunPhase::Preparing => {
                match compute_tip_lamports(self.candidate.net_profit_lamports, self.policy) {
                    None => {
                        self.phase = RunPhase::Skipped;
                    },
                    Some(tip) => {
                        let bundle: JitoBundle = build_candidate_bundle(
                            self.candidate,
                            payer,
                            tip_account,
                            tip,
                            recent_blockhash,
                        );
                        self.bundle = Some(bundle);
                        self.phase = RunPhase::Simulating;
                    },
                }
            },
            _ => {},
        }
    }

    /// The transaction to simulate, while the simulation is wanted.
    pub fn simulation_request(&self) -> (wire: Option<&Vec<u8>>)
        ensures
            match wire {
                Some(tx) => self@.to_simulate() == Some(tx@),
                None => self@.to_simulate() is None,
            },
            match wire {
                Some(tx) => self@.phase == RunPhase::Simulating && self@.bundle is Some && tx@
                    == self@.bundle->0.transactions[0],
                None => self@.phase != RunPhase::Simulating,
            },
    {
        proof {
            use_type_invariant(self);
        }
        match (self.phase, &self.bundle) {
            (RunPhase::Simulating, Some(bundle)) => bundle.simulated_transaction(),
            _ => None,
        }
    }

    /// Take in the outcome of the simulation.
    pub fn on_simulated(&mut self, result: &SimulationResult)
        ensures
            final(self)@ == old(self)@.after(RunEvent::Simulated { success: result.success }),
    {
        proof {
            use_type_invariant(&*self);
        }
        match self.phase {
            RunPhase::Simulating => {
                self.phase = if result.success {
                    RunPhase::Confirming
                } else {
                    RunPhase::Failed
                };
            },
            _ => {},
        }
    }

    /// Take in the answer to the request for confirmation.
    pub fn on_typed(&mut self, response: &str)
        ensures
            final(self)@ == old(self)@.after(RunEvent::Typed { response: response@ }),
    {
        proof {
            use_type_invariant(&*self);
        }
        match self.phase {
            RunPhase::Confirming => {
                self.phase = match confirm_gate(response) {
                    Ok(_) => RunPhase::Submitting,
                    Err(_) => RunPhase::Failed,
                };
            },
            _ => {},
        }
    }

    /// The parameters of the submission request, once the bundle may be sent.
    pub fn submission(&self) -> (params: Option<Json>)
        ensures
            match params {
                Some(json) => self@.to_submit() is Some && is_submit_params(
                    json,
                    self@.to_submit()->0,
                ),
                None => self@.to_submit() is None,
            },
            match params {
                Some(json) => self@.phase == RunPhase::Submitting && self@.bundle is Some
                    && is_submit_params(json, self@.bundle->0.transactions),
                None => self@.phase != RunPhase::Submitting,
            },
    {
        proof {
            use_type_invariant(self);
        }
        match (self.phase, &self.bundle) {
            (RunPhase::Submitting, Some(bundle)) => Some(bundle.submit_params()),
            _ => None,
        }
    }

    /// Take in the answer of the block engine to the submission. It names the
    /// bundle, or the submission has failed.
    pub fn on_submitted(&mut self, reply: &Json) -> (id: Option<String>)
        ensures
            final(self)@ == old(self)@.after(RunEvent::Submitted { answer: *reply }),
            match id {
                Some(text) => old(self)@.phase == RunPhase::Submitting && final(self)@.phase
                    == RunPhase::Polling && reply.child("result"@) is Some && reply.child("result"@)->0.text() == Some(text@),
                None => old(self)@.phase == RunPhase::Submitting ==> final(self)@.phase
                    == RunPhase::Failed,
            },
    {
        proof {
            use_type_invariant(&*self);
        }
        match self.phase {
            RunPhase::Submitting => {
                let id: Option<String> = submitted_bundle_id(reply);
                self.phase = if id.is_some() {
                    RunPhase::Polling
                } else {
                    RunPhase::Failed
                };
                id
            },
            _ => None,
        }
    }

    /// Take in a reply of the in-flight endpoint, if one is wanted.
    pub fn on_in_flight(&mut self, reply: &Json) -> (status: Option<InFlightStatus>)
        ensures
            final(self)@ == old(self)@.after(
                RunEvent::Polled { reply: PollReply::InFlight(*reply) },
            ),
            match status {
                Some(s) => old(self)@.phase == RunPhase::Polling && old(self)@.poll.phase
                    == PollPhase::AskInFlight && is_in_flight_status(s, *reply),
                None => old(self)@.phase != RunPhase::Polling || old(self)@.poll.phase
                    != PollPhase::AskInFlight,
            },
    {
        proof {
            use_type_invariant(&*self);
        }
        match (self.phase, self.poll.phase()) {
            (RunPhase::Polling, PollPhase::AskInFlight) => {
                self.phase = RunPhase::Failed;
                let mut poll: BundlePoll = BundlePoll::new(0);
                std::mem::swap(&mut poll, &mut self.poll);
                let status: InFlightStatus = poll.on_in_flight(reply);
                let phase: RunPhase = polled(&poll);
                self.poll = poll;
                self.phase = phase;
                Some(status)
            },
            _ => None,
        }
    }

    /// Take in a reply of the status endpoint, if one is wanted. A landed bundle
    /// comes with its confirmation, if there is one, and a reverted one with its error.
    pub fn on_statuses<'b>(&mut self, reply: &'b Json) -> (confirmation: Option<
        Result<String, ReconcileError<'b>>,
    >)
        ensures
            final(self)@ == old(self)@.after(
                RunEvent::Polled { reply: PollReply::Statuses(*reply) },
            ),
            match confirmation {
                Some(result) => old(self)@.phase == RunPhase::Polling && old(self)@.poll.phase
                    == PollPhase::AskStatuses && is_reconciliation(result, *reply),
                None => old(self)@.phase != RunPhase::Polling || old(self)@.poll.phase
                    != PollPhase::AskStatuses,
            },
    {
        proof {
            use_type_invariant(&*self);
        }
        match (self.phase, self.poll.phase()) {
            (RunPhase::Polling, PollPhase::AskStatuses) => {
                self.phase = RunPhase::Failed;
                let mut poll: BundlePoll = BundlePoll::new(0);
                std::mem::swap(&mut poll, &mut self.poll);
                let confirmation: Result<String, ReconcileError<'b>> = poll.on_statuses(reply);
                let phase: RunPhase = polled(&poll);
                self.poll = poll;
                self.phase = phase;
                Some(confirmation)
            },
            _ => None,
        }
    }

    /// Take in that a call to the outside failed.
    pub fn on_call_failed(&mut self)
        ensures
            final(self)@ == old(self)@.after(RunEvent::CallFailed),
    {
        proof {
            use_type_invariant(&*self);
        }
        match self.phase {
            RunPhase::Blocked | RunPhase::DryRun | RunPhase::Skipped | RunPhase::Landed
            | RunPhase::Failed => {},
            _ => {
                self.phase = RunPhase::Failed;
            },
        }
    }

    /// Account for a run that is over: a landed bundle is a fill, a block or a
    /// failure is a revert, and a dry run or a skipped candidate is neither. Says
    /// whether the program has to stop, which it does after a failure once the
    /// kill-switch is engaged.
    pub fn settle(self, gate: &mut RiskGate) -> (stop: bool)
        requires
            self@.is_over(),
        ensures
            final(gate)@ == settled(old(gate)@, self@),
            stop == must_stop(old(gate)@, self@),
            stop == (self@.has_failed() && final(gate)@.killed),
    {
        match self.phase {
            RunPhase::Landed => {
                gate.record_fill(realized_pnl(self.candidate.net_profit_lamports));
                false
            },
            RunPhase::Blocked | RunPhase::Failed => {
                gate.record_revert();
                gate.is_killed()
            },
            _ => false,
        }
    }
}

fn polled(poll: &BundlePoll) -> (phase: RunPhase)
    ensures
        phase == RunState::polled_phase(poll@),
{
    match poll.phase() {
        PollPhase::Landed => RunPhase::Landed,
        PollPhase::Failed => RunPhase::Failed,
        _ => RunPhase::Polling,
    }
}

/// The realized PnL that a net profit amounts to.
pub open spec fn pnl_of(net_profit: nat) -> i64 {
    if net_profit > i64::MAX {
        i64::MAX
    } else {
        net_profit as i64
    }
}

fn realized_pnl(net_profit: u64) -> (pnl: i64)
    ensures
        pnl == pnl_of(net_profit as nat),
{
    if net_profit > i64::MAX as u64 {
        i64::MAX
    } else {
        net_profit as i64
    }
}

/// The risk gate after a run.
pub open spec fn settled(gate: RiskState, run: RunState) -> RiskState {
    if run.phase == RunPhase::Landed {
        gate.after(RiskEvent::Fill(pnl_of(run.net_profit)))
    } else if run.has_failed() {
        gate.after(RiskEvent::Revert)
    } else {
        gate
    }
}

/// Whether the program has to stop after a run: after a failure, once the
/// kill-switch is engaged.
pub open spec fn must_stop(gate: RiskState, run: RunState) -> bool {
    run.has_failed() && settled(gate, run).killed
}

/// The risk gate after a row of runs.
pub open spec fn settled_all(gate: RiskState, runs: Seq<RunState>) -> RiskState
    decreases runs.len(),
{
    if runs.len() == 0 {
        gate
    } else {
        settled(settled_all(gate, runs.drop_last()), runs.last())
    }
}

/// Whether a simulation of the bundle succeeded.
pub open spec fn simulation_passed(events: Seq<RunEvent>) -> bool {
    exists|i: int| 0 <= i < events.len() && is_passed_simulation(#[trigger] events[i])
}

/// Whether an event is a successful simulation.
pub open spec fn is_passed_simulation(event: RunEvent) -> bool {
    event matches RunEvent::Simulated { success } && success
}

/// Whether an event is a typed confirmation.
pub open spec fn is_confirmation(event: RunEvent) -> bool {
    event matches RunEvent::Typed { response } && trimmed(response) == "YES"@
}

/// Whether `YES` was typed after a successful simulation.
pub open spec fn confirmed_after_simulation(events: Seq<RunEvent>) -> bool {
    exists|i: int, j: int|
        0 <= i < j < events.len() && is_passed_simulation(#[trigger] events[i]) && is_confirmation(
            #[trigger] events[j],
        )
}

/// Whether a bundle may be or has been sent.
pub open spec fn is_sendable(phase: RunPhase) -> bool {
    phase == RunPhase::Submitting || phase == RunPhase::Polling || phase == RunPhase::Landed
}

proof fn lemma_trace_grows(events: Seq<RunEvent>)
    requires
        events.len() > 0,
    ensures
        simulation_passed(events.drop_last()) ==> simulation_passed(events),
        confirmed_after_simulation(events.drop_last()) ==> confirmed_after_simulation(events),
        is_passed_simulation(events.last()) ==> simulation_passed(events),
        simulation_passed(events.drop_last()) && is_confirmation(events.last())
            ==> confirmed_after_simulation(events),
{
    let earlier = events.drop_last();
    let n = events.len() - 1;
    assert(events[n] == events.last());
    if simulation_passed(earlier) {
        let i = choose|i: int|
            0 <= i < earlier.len() && is_passed_simulation(#[trigger] earlier[i]);
        assert(is_passed_simulation(events[i]));
        if is_confirmation(events.last()) {
            assert(is_confirmation(events[n]));
        }
    }
    if confirmed_after_simulation(earlier) {
        let (i, j) = choose|i: int, j: int|
            0 <= i < j < earlier.len() && is_passed_simulation(#[trigger] earlier[i])
                && is_confirmation(#[trigger] earlier[j]);
        assert(is_passed_simulation(events[i]) && is_confirmation(events[j]));
    }
}

/// Nothing is sent unless the risk gate admitted the candidate, the dry run is
/// off, a simulation of the bundle succeeded and `YES` was typed after that,
/// whatever the configuration.
pub proof fn law_nothing_is_sent_without_every_check(
    gate: RiskState,
    config: Config,
    candidate: ArbCandidate,
    events: Seq<RunEvent>,
)
    ensures
        ({
            let run = run_start(gate, config, candidate).after_all(events);
            let input = candidate.optimal_input_lamports as int;
            is_sendable(run.phase) ==> {
                &&& gate.admits(input, input)
                &&& !config.dry_run
                &&& simulation_passed(events)
                &&& confirmed_after_simulation(events)
            }
        }),
{
    lemma_checks_so_far(gate, config, candidate, events);
}

proof fn lemma_checks_so_far(
    gate: RiskState,
    config: Config,
    candidate: ArbCandidate,
    events: Seq<RunEvent>,
)
    ensures
        ({
            let run = run_start(gate, config, candidate).after_all(events);
            let input = candidate.optimal_input_lamports as int;
            &&& !run.is_over() || run.phase == RunPhase::Landed ==> gate.admits(input, input)
                && !config.dry_run
            &&& run.phase == RunPhase::Confirming || is_sendable(run.phase) ==> simulation_passed(
                events,
            )
            &&& is_sendable(run.phase) ==> confirmed_after_simulation(events)
        }),
    decreases events.len(),
{
    if events.len() > 0 {
        lemma_checks_so_far(gate, config, candidate, events.drop_last());
        lemma_trace_grows(events);
    }
}

/// A dry run never gets past the risk gate, whatever happens, and leaves the
/// gate as it is where it passes.
pub proof fn law_dry_run_sends_nothing(
    gate: RiskState,
    config: Config,
    candidate: ArbCandidate,
    events: Seq<RunEvent>,
)
    requires
        config.dry_run,
    ensures
        ({
            let run = run_start(gate, config, candidate).after_all(events);
            &&& run == run_start(gate, config, candidate)
            &&& run.bundle is None
            &&& gate.admits(
                candidate.optimal_input_lamports as int,
                candidate.optimal_input_lamports as int,
            ) ==> settled(gate, run) == gate
        }),
{
    law_a_finished_run_stays_finished(run_start(gate, config, candidate), events);
}

/// A candidate that the risk gate blocks is dropped: no bundle is ever built.
pub proof fn law_blocked_candidates_are_dropped(
    gate: RiskState,
    config: Config,
    candidate: ArbCandidate,
    events: Seq<RunEvent>,
)
    requires
        !gate.admits(
            candidate.optimal_input_lamports as int,
            candidate.optimal_input_lamports as int,
        ),
    ensures
        run_start(gate, config, candidate).after_all(events).phase == RunPhase::Blocked,
        run_start(gate, config, candidate).after_all(events).bundle is None,
{
    law_a_finished_run_stays_finished(run_start(gate, config, candidate), events);
}

/// Once a run is over, it stays as it ended.
pub proof fn law_a_finished_run_stays_finished(run: RunState, events: Seq<RunEvent>)
    requires
        run.is_over(),
    ensures
        run.after_all(events) == run,
    decreases events.len(),
{
    if events.len() > 0 {
        law_a_finished_run_stays_finished(run, events.drop_last());
    }
}

/// What is submitted is what was simulated: once a bundle is built, it never changes.
pub proof fn law_a_bundle_is_sent_as_simulated(run: RunState, events: Seq<RunEvent>)
    requires
        run.phase != RunPhase::Preparing,
    ensures
        run.after_all(events).bundle == run.bundle,
        run.after_all(events).phase != RunPhase::Preparing,
    decreases events.len(),
{
    if events.len() > 0 {
        law_a_bundle_is_sent_as_simulated(run, events.drop_last());
    }
}

/// Every state that a run can reach is well formed.
pub proof fn law_reachable_runs_are_well_formed(
    gate: RiskState,
    config: Config,
    candidate: ArbCandidate,
    events: Seq<RunEvent>,
)
    requires
        config.tip_floor_lamports <= config.tip_ceil_lamports,
    ensures
        run_start(gate, config, candidate).after_all(events).well_formed(),
    decreases events.len(),
{
    if events.len() > 0 {
        law_reachable_runs_are_well_formed(gate, config, candidate, events.drop_last());
    }
}

/// Whether an event is an in-flight report of a landed bundle.
pub open spec fn is_landing_report(event: RunEvent) -> bool {
    event matches RunEvent::Polled { reply } && reply matches PollReply::InFlight(json)
        && reports_landed(json)
}

/// Whether an event is a status report of a settled bundle.
pub open spec fn is_settlement_report(event: RunEvent) -> bool {
    event matches RunEvent::Polled { reply } && reply matches PollReply::Statuses(json)
        && reports_settled(json)
}

/// Only a bundle that was reported as landed, and after that as confirmed or
/// finalized and not reverted, counts as a fill.
pub proof fn law_fills_are_reported_and_reconciled(
    gate: RiskState,
    config: Config,
    candidate: ArbCandidate,
    events: Seq<RunEvent>,
)
    ensures
        run_start(gate, config, candidate).after_all(events).phase == RunPhase::Landed ==> exists|
            i: int,
            j: int,
        |
            0 <= i < j < events.len() && is_landing_report(#[trigger] events[i])
                && is_settlement_report(#[trigger] events[j]),
{
    lemma_reports_so_far(gate, config, candidate, events);
}

proof fn lemma_reports_so_far(
    gate: RiskState,
    config: Config,
    candidate: ArbCandidate,
    events: Seq<RunEvent>,
)
    ensures
        ({
            let run = run_start(gate, config, candidate).after_all(events);
            &&& run.phase == RunPhase::Polling && run.poll.phase == PollPhase::AskStatuses
                ==> exists|i: int| 0 <= i < events.len() && is_landing_report(#[trigger] events[i])
            &&& run.phase == RunPhase::Landed ==> exists|i: int, j: int|
                0 <= i < j < events.len() && is_landing_report(#[trigger] events[i])
                    && is_settlement_report(#[trigger] events[j])
            &&& run.phase == RunPhase::Polling ==> run.poll.phase == PollPhase::AskInFlight
                || run.poll.phase == PollPhase::AskStatuses
            &&& !run.is_over() && run.phase != RunPhase::Polling ==> run.poll.phase
                == PollPhase::AskInFlight
        }),
    decreases events.len(),
{
    if events.len() > 0 {
        let earlier = events.drop_last();
        let n = events.len() - 1;
        let before = run_start(gate, config, candidate).after_all(earlier);
        lemma_reports_so_far(gate, config, candidate, earlier);
        assert(events[n] == events.last());
        if before.phase == RunPhase::Landed {
            let (i, j) = choose|i: int, j: int|
                0 <= i < j < earlier.len() && is_landing_report(#[trigger] earlier[i])
                    && is_settlement_report(#[trigger] earlier[j]);
            assert(is_landing_report(events[i]) && is_settlement_report(events[j]));
        }
        if before.phase == RunPhase::Polling && before.poll.phase == PollPhase::AskStatuses {
            let i = choose|i: int|
                0 <= i < earlier.len() && is_landing_report(#[trigger] earlier[i]);
            assert(is_landing_report(events[i]));
            if is_settlement_report(events.last()) {
                assert(is_settlement_report(events[n]));
            }
        }
        if is_landing_report(events.last()) {
            assert(is_landing_report(events[n]));
        }
    }
}

/// A run that is blocked or fails adds one to the revert streak; one that lands
/// ends the streak and adds nothing to the daily loss. Neither engages or
/// releases the kill-switch.
pub proof fn law_every_run_is_accounted_for(gate: RiskState, run: RunState)
    requires
        gate.well_formed(),
    ensures
        run.has_failed() ==> settled(gate, run).consecutive_reverts == saturated(
            gate.consecutive_reverts + 1,
            u32::MAX as nat,
        ),
        run.phase == RunPhase::Landed ==> settled(gate, run).consecutive_reverts == 0,
        settled(gate, run).daily_loss == gate.daily_loss,
        settled(gate, run).killed == gate.killed,
        settled(gate, run).well_formed(),
{
}

/// With the kill-switch engaged every candidate is blocked, whatever its size,
/// and the program has to stop.
pub proof fn law_a_killed_gate_stops_the_program(
    gate: RiskState,
    config: Config,
    candidate: ArbCandidate,
    events: Seq<RunEvent>,
)
    requires
        gate.killed,
    ensures
        ({
            let run = run_start(gate, config, candidate).after_all(events);
            run.has_failed() && settled(gate, run).killed
        }),
{
    law_a_finished_run_stays_finished(run_start(gate, config, candidate), events);
}

/// As many failed runs in a row as the breaker allows reverts trip it, and it
/// then blocks every candidate.
pub proof fn law_failures_in_a_row_trip_the_breaker(
    gate: RiskState,
    runs: Seq<RunState>,
    config: Config,
    candidate: ArbCandidate,
)
    requires
        gate.well_formed(),
        runs.len() > 0,
        runs.len() >= gate.limits.max_consecutive_reverts,
        forall|i: int| 0 <= i < runs.len() ==> (#[trigger] runs[i]).has_failed(),
    ensures
        settled_all(gate, runs).breaker_tripped,
        run_start(settled_all(gate, runs), config, candidate).phase == RunPhase::Blocked,
{
    let events = Seq::new(runs.len(), |i: int| RiskEvent::Revert);
    lemma_failures_are_reverts(gate, runs);
    law_reverts_in_a_row_trip_the_breaker(gate, events);
}

proof fn lemma_failures_are_reverts(gate: RiskState, runs: Seq<RunState>)
    requires
        forall|i: int| 0 <= i < runs.len() ==> (#[trigger] runs[i]).has_failed(),
    ensures
        settled_all(gate, runs) == gate.after_all(
            Seq::new(runs.len(), |i: int| RiskEvent::Revert),
        ),
    decreases runs.len(),
{
    let events = Seq::new(runs.len(), |i: int| RiskEvent::Revert);
    if runs.len() > 0 {
        let earlier = runs.drop_last();
        assert forall|i: int| 0 <= i < earlier.len() implies (
        #[trigger] earlier[i]).has_failed() by {
            assert(runs[i].has_failed());
        }
        assert(runs[runs.len() - 1].has_failed());
        lemma_failures_are_reverts(gate, earlier);
        assert(events.drop_last() =~= Seq::new(earlier.len(), |i: int| RiskEvent::Revert));
    }
}

/// A basis point of a SOL is 100,000 lamports.
pub proof fn law_a_basis_point_is_a_ten_thousandth(bps: nat)
    ensures
        bps_of_a_sol(bps) == 100_000 * bps,
{
}

/// The tip is the whole number of lamports in `bps` ten-thousandths of the net
/// profit, raised to the floor or cut to the ceiling. It is paid exactly if the net
/// profit is above the floor and more than the minimum is left.
pub proof fn law_the_tip_is_the_share_within_its_range(policy: TipPolicy, net: int, share: int)
    requires
        policy.floor <= policy.ceil,
        0 <= net,
        share * 10_000 <= net * policy.bps < (share + 1) * 10_000,
    ensures
        ({
            let tip = if share < policy.floor {
                policy.floor as int
            } else if share > policy.ceil {
                policy.ceil as int
            } else {
                share
            };
            &&& policy.tip(net) == Some(tip) <==> net > policy.floor && net - tip > policy.min_net
            &&& policy.tip(net) is Some ==> policy.tip(net) == Some(tip)
        }),
{
    lemma_mul_nonnegative(net, policy.bps as int);
    vstd::arithmetic::div_mod::lemma_fundamental_div_mod(net * policy.bps, 10_000);
}

/// The tip policy is that of the configuration, and what has to be left is the
/// spread threshold.
pub proof fn law_the_tip_policy_is_configured(config: Config)
    ensures
        config.tip_policy_spec().bps == config.tip_bps,
        config.tip_policy_spec().floor == config.tip_floor_lamports,
        config.tip_policy_spec().ceil == config.tip_ceil_lamports,
        config.tip_policy_spec().min_net == 100_000 * config.spread_threshold_bps,
{
}

/// The detector works with the settings of the configuration: the threshold in
/// lamports of a SOL, the compute units with their margin and the fee of three
/// signatures. It has seen nothing.
pub proof fn law_the_detector_is_configured(config: Config, pool_a: [u8; 32], pool_b: [u8; 32])
    ensures
        ({
            let state = config.detector_start(pool_a, pool_b);
            let exact = config.cu_limit_estimate * 10_000 + config.cu_limit_estimate
                * config.cu_margin_bps;
            &&& state.pool_a.pubkey == pool_a && !state.pool_a.initialised
            &&& state.pool_b.pubkey == pool_b && !state.pool_b.initialised
            &&& state.spread_threshold == 100_000 * config.spread_threshold_bps
            &&& state.cu_price == config.cu_price_microlamports
            &&& state.cu_limit * 10_000 <= exact
            &&& exact < (state.cu_limit + 1) * 10_000 || state.cu_limit == 1_400_000
            &&& state.cu_limit <= 1_400_000
            &&& state.sigs == 3
            &&& state.limits == config.risk_limits
        }),
{
    law_cu_limit_is_the_estimate_plus_the_margin(config.cu_limit_estimate, config.cu_margin_bps);
}

/// A candidate's bundle holds three transactions, all paid by the payer and signed
/// by the payer alone: two legs, then the transfer of the tip.
pub proof fn law_a_candidate_bundle_pays_its_tip_last(
    payer: Seq<u8>,
    tip_account: Seq<u8>,
    tip_lamports: nat,
    blockhash: Seq<u8>,
)
    ensures
        ({
            let bundle = candidate_bundle(payer, tip_account, tip_lamports, blockhash);
            let payer_key = payer.subrange(32, 64);
            let leg = signed_transaction(Seq::empty(), payer_key, seq![payer], blockhash);
            let tip = signed_transaction(
                seq![transfer_view(payer_key, tip_account, tip_lamports)],
                payer_key,
                seq![payer],
                blockhash,
            );
            &&& bundle.transactions == seq![leg, leg, tip]
            &&& bundle.tip_lamports == tip_lamports
            &&& bundle.tip_account == tip_account
        }),
{
    let groups = leg_views(payer);
    law_a_bundle_keeps_the_order_of_its_groups(
        groups,
        payer,
        tip_account,
        tip_lamports,
        blockhash,
        0,
    );
    law_a_bundle_keeps_the_order_of_its_groups(
        groups,
        payer,
        tip_account,
        tip_lamports,
        blockhash,
        1,
    );
    let payer_key = payer.subrange(32, 64);
    let leg = signed_transaction(Seq::empty(), payer_key, seq![payer], blockhash);
    let tip = signed_transaction(
        seq![transfer_view(payer_key, tip_account, tip_lamports)],
        payer_key,
        seq![payer],
        blockhash,
    );
    assert(candidate_bundle(payer, tip_account, tip_lamports, blockhash).transactions =~= seq![
        leg,
        leg,
        tip,
    ]);
}

/// How a run begins: a candidate whose input is within every limit of the risk gate
/// goes on, to a dry run or to a bundle as configured, and any other is blocked. A
/// message is there exactly for a block. Nothing is built yet, and all twenty
/// questions about a bundle are left.
pub proof fn law_a_run_begins_with_the_risk_limits(
    gate: RiskState,
    config: Config,
    candidate: ArbCandidate,
)
    ensures
        ({
            let run = run_start(gate, config, candidate);
            let input = candidate.optimal_input_lamports;
            let passes = !gate.killed && !gate.breaker_tripped && gate.daily_loss
                < gate.limits.max_daily_loss_lamports && input <= gate.limits.max_notional_lamports
                && input <= gate.limits.max_position_lamports;
            &&& run.phase == RunPhase::Blocked <==> !passes
            &&& run.phase == RunPhase::DryRun <==> passes && config.dry_run
            &&& run.phase == RunPhase::Preparing <==> passes && !config.dry_run
            &&& run.block_message is Some <==> !passes
            &&& !passes ==> run.block_message == Some(
                gate.block_message(
                    gate.block_cause(input as int, input as int)->0,
                    input as nat,
                    input as nat,
                ),
            )
            &&& run.net_profit == candidate.net_profit_lamports
            &&& run.policy == config.tip_policy_spec()
            &&& run.bundle is None
            &&& run.poll.attempt == 0
            &&& run.poll.max_attempts == 20
            &&& run.poll.phase == PollPhase::AskInFlight
        }),
{
}

/// Preparing builds the candidate's bundle with the tip of the policy, or skips a
/// candidate that gets no tip.
pub proof fn law_a_bundle_is_built_with_its_tip(
    run: RunState,
    payer: Seq<u8>,
    tip_account: Seq<u8>,
    blockhash: Seq<u8>,
)
    requires
        run.phase == RunPhase::Preparing,
        run.policy.floor <= run.policy.ceil,
    ensures
        ({
            let next = run.after(RunEvent::Prepared { payer, tip_account, blockhash });
            let tip = run.policy.tip(run.net_profit as int);
            &&& tip is None ==> next.phase == RunPhase::Skipped && next.bundle == run.bundle
            &&& tip is Some ==> {
                &&& next.phase == RunPhase::Simulating
                &&& next.bundle is Some
                &&& next.bundle->0.tip_lamports == tip->0
                &&& next.bundle->0.tip_account == tip_account
                &&& next.bundle->0.transactions == candidate_bundle(
                    payer,
                    tip_account,
                    tip->0 as nat,
                    blockhash,
                ).transactions
            }
            &&& next.poll == run.poll
            &&& next.net_profit == run.net_profit
            &&& next.policy == run.policy
            &&& next.block_message == run.block_message
        }),
{
}

/// Whether a run differs from another in nothing but its phase.
pub open spec fn differs_in_phase_only(run: RunState, next: RunState) -> bool {
    &&& next.bundle == run.bundle
    &&& next.poll == run.poll
    &&& next.net_profit == run.net_profit
    &&& next.policy == run.policy
    &&& next.block_message == run.block_message
}

/// A simulation that succeeds leads to the request for confirmation, and one that
/// does not ends the run.
pub proof fn law_a_simulation_decides(run: RunState, success: bool)
    requires
        run.phase == RunPhase::Simulating,
    ensures
        ({
            let next = run.after(RunEvent::Simulated { success });
            &&& success <==> next.phase == RunPhase::Confirming
            &&& !success <==> next.phase == RunPhase::Failed
            &&& differs_in_phase_only(run, next)
        }),
{
}

/// `YES`, with or without white space around it, leads to the submission, and
/// anything else that is typed ends the run.
pub proof fn law_a_typed_answer_decides(run: RunState, response: Seq<char>)
    requires
        run.phase == RunPhase::Confirming,
    ensures
        ({
            let next = run.after(RunEvent::Typed { response });
            let yes = exists|left: Seq<char>, right: Seq<char>| #[trigger]
                is_blank(left) && #[trigger] is_blank(right) && response == left + seq![
                    'Y',
                    'E',
                    'S',
                ] + right;
            &&& yes <==> next.phase == RunPhase::Submitting
            &&& !yes <==> next.phase == RunPhase::Failed
            &&& differs_in_phase_only(run, next)
        }),
{
    law_only_yes_is_a_confirmation(response);
}

/// An answer to the submission that names the bundle leads to the questions about
/// it, and any other ends the run.
pub proof fn law_a_submission_answer_decides(run: RunState, answer: Json)
    requires
        run.phase == RunPhase::Submitting,
    ensures
        ({
            let next = run.after(RunEvent::Submitted { answer });
            let named = answer.child("result"@) is Some && answer.child("result"@)->0 is Text;
            &&& named <==> next.phase == RunPhase::Polling
            &&& !named <==> next.phase == RunPhase::Failed
            &&& differs_in_phase_only(run, next)
        }),
{
}

/// While the fate of a bundle is wanted the run follows the wait for it: it lands
/// where the wait lands, fails where it fails, and goes on where it goes on.
pub proof fn law_a_run_follows_the_wait(run: RunState, reply: PollReply)
    requires
        run.phase == RunPhase::Polling,
    ensures
        ({
            let next = run.after(RunEvent::Polled { reply });
            &&& next.poll == run.poll.after(reply)
            &&& next.phase == RunPhase::Landed <==> next.poll.phase == PollPhase::Landed
            &&& next.phase == RunPhase::Failed <==> next.poll.phase == PollPhase::Failed
            &&& next.phase == RunPhase::Polling <==> next.poll.phase == PollPhase::AskInFlight
                || next.poll.phase == PollPhase::AskStatuses
            &&& next.bundle == run.bundle
            &&& next.net_profit == run.net_profit
            &&& next.policy == run.policy
            &&& next.block_message == run.block_message
        }),
{
}

/// A call that fails ends every run that is not over, and changes no other. Every
/// other event changes nothing in a run that does not wait for it.
pub proof fn law_events_out_of_turn_change_nothing(run: RunState, event: RunEvent)
    ensures
        ({
            let next = run.after(event);
            let over = run.phase == RunPhase::Blocked || run.phase == RunPhase::DryRun || run.phase
                == RunPhase::Skipped || run.phase == RunPhase::Landed || run.phase
                == RunPhase::Failed;
            &&& run.is_over() <==> over
            &&& over ==> next == run
            &&& event is CallFailed && !over ==> next.phase == RunPhase::Failed
                && differs_in_phase_only(run, next)
            &&& event is Prepared && run.phase != RunPhase::Preparing ==> next == run
            &&& event is Simulated && run.phase != RunPhase::Simulating ==> next == run
            &&& event is Typed && run.phase != RunPhase::Confirming ==> next == run
            &&& event is Submitted && run.phase != RunPhase::Submitting ==> next == run
            &&& event is Polled && run.phase != RunPhase::Polling ==> next == run
        }),
{
}

/// What a run leaves behind in the risk gate: a landing ends the revert streak, a
/// block or a failure adds one to it, and a dry run or a skipped candidate changes
/// nothing. None of them adds to the daily loss.
pub proof fn law_a_run_leaves_its_outcome(gate: RiskState, run: RunState)
    requires
        gate.well_formed(),
    ensures
        ({
            let next = settled(gate, run);
            let failed = run.phase == RunPhase::Blocked || run.phase == RunPhase::Failed;
            let landed = run.phase == RunPhase::Landed;
            &&& run.has_failed() <==> failed
            &&& next.limits == gate.limits
            &&& next.killed == gate.killed
            &&& next.daily_loss == gate.daily_loss
            &&& landed ==> next.consecutive_reverts == 0 && next.breaker_tripped
                == gate.breaker_tripped
            &&& failed && gate.consecutive_reverts < u32::MAX ==> next.consecutive_reverts
                == gate.consecutive_reverts + 1
            &&& failed && gate.consecutive_reverts == u32::MAX ==> next.consecutive_reverts
                == u32::MAX
            &&& failed ==> (next.breaker_tripped <==> gate.breaker_tripped
                || next.consecutive_reverts >= gate.limits.max_consecutive_reverts)
            &&& !failed && !landed ==> next == gate
        }),
{
}

/// The realized PnL of a landed bundle is its net profit, held to `i64::MAX`.
pub proof fn law_a_landing_realizes_the_net_profit(net_profit: u64)
    ensures
        net_profit <= i64::MAX ==> pnl_of(net_profit as nat) == net_profit,
        net_profit > i64::MAX ==> pnl_of(net_profit as nat) == i64::MAX,
{
}

/// A candidate that passes every check lands: admitted by the risk gate outside a
/// dry run, worth its tip, simulated with success, confirmed, named by the block
/// engine, reported as landed and then as confirmed or finalized without an error.
pub proof fn law_a_good_candidate_lands(
    gate: RiskState,
    config: Config,
    candidate: ArbCandidate,
    payer: Seq<u8>,
    tip_account: Seq<u8>,
    blockhash: Seq<u8>,
    response: Seq<char>,
    answer: Json,
    in_flight: Json,
    statuses: Json,
)
    requires
        !config.dry_run,
        gate.admits(
            candidate.optimal_input_lamports as int,
            candidate.optimal_input_lamports as int,
        ),
        config.tip_policy_spec().tip(candidate.net_profit_lamports as int) is Some,
        trimmed(response) == "YES"@,
        answer.child("result"@) is Some && answer.child("result"@)->0 is Text,
        said_of_the_bundle(in_flight, "status"@) is Some,
        said_of_the_bundle(in_flight, "status"@)->0 is Text,
        said_of_the_bundle(in_flight, "status"@)->0->Text_0@ == "Landed"@,
        said_of_the_bundle(statuses, "err"@) is None,
        said_of_the_bundle(statuses, "confirmation_status"@) is Some,
        said_of_the_bundle(statuses, "confirmation_status"@)->0 is Text,
        said_of_the_bundle(statuses, "confirmation_status"@)->0->Text_0@ == "confirmed"@
            || said_of_the_bundle(statuses, "confirmation_status"@)->0->Text_0@ == "finalized"@,
    ensures
        run_start(gate, config, candidate).after(
            RunEvent::Prepared { payer, tip_account, blockhash },
        ).after(RunEvent::Simulated { success: true }).after(RunEvent::Typed { response }).after(
            RunEvent::Submitted { answer },
        ).after(RunEvent::Polled { reply: PollReply::InFlight(in_flight) }).after(
            RunEvent::Polled { reply: PollReply::Statuses(statuses) },
        ).phase == RunPhase::Landed,
{
    let polling = run_start(gate, config, candidate).after(
        RunEvent::Prepared { payer, tip_account, blockhash },
    ).after(RunEvent::Simulated { success: true }).after(RunEvent::Typed { response }).after(
        RunEvent::Submitted { answer },
    );
    law_an_in_flight_reply_decides(polling.poll, in_flight);
    let asking = polling.after(RunEvent::Polled { reply: PollReply::InFlight(in_flight) });
    law_a_status_reply_decides(asking.poll, statuses);
}

/// The stream connects to the configured endpoint with the configured token, and
/// its two addresses spell the two pools and no others.
pub proof fn law_the_stream_is_configured(
    config: Config,
    stream: StreamConfig,
    pool_a: Seq<u8>,
    pool_b: Seq<u8>,
    spelled: Seq<u8>,
)
    requires
        config.streams(stream, pool_a, pool_b),
    ensures
        stream.grpc_url@ == config.grpc_url@,
        stream.grpc_token@ == config.grpc_token@,
        stream.account_keys@.len() == 2,
        is_base58_of(stream.account_keys@[0]@, spelled) <==> spelled == pool_a,
        is_base58_of(stream.account_keys@[1]@, spelled) <==> spelled == pool_b,
        stream.channel_capacity == 256,
{
    if is_base58_of(stream.account_keys@[0]@, spelled) {
        law_base58_text_names_one_key(stream.account_keys@[0]@, spelled, pool_a);
    }
    if is_base58_of(stream.account_keys@[1]@, spelled) {
        law_base58_text_names_one_key(stream.account_keys@[1]@, spelled, pool_b);
    }
}

/// A bundle's first transaction is simulated, and all of its transactions, in their
/// order, are submitted, each only when it is the run's turn.
pub proof fn law_the_bundle_is_what_goes_out(run: RunState)
    requires
        run.well_formed(),
    ensures
        run.to_simulate() is Some <==> run.phase == RunPhase::Simulating,
        run.to_simulate() is Some ==> run.bundle is Some && run.to_simulate()->0
            == run.bundle->0.transactions[0],
        run.to_submit() is Some <==> run.phase == RunPhase::Submitting,
        run.to_submit() is Some ==> run.bundle is Some && run.to_submit()->0
            == run.bundle->0.transactions,
{
}

/// What is submitted after a success and a confirmation is the bundle of which the
/// first transaction was simulated.
pub proof fn law_what_was_simulated_is_submitted(run: RunState, response: Seq<char>)
    requires
        run.well_formed(),
        run.phase == RunPhase::Simulating,
        trimmed(response) == "YES"@,
    ensures
        ({
            let next = run.after(RunEvent::Simulated { success: true }).after(
                RunEvent::Typed { response },
            );
            &&& next.to_submit() is Some
            &&& next.to_submit()->0.len() > 0
            &&& run.to_simulate() == Some(next.to_submit()->0[0])
        }),
{
}

/// The program has to stop exactly after a block or a failure with the kill-switch
/// engaged.
pub proof fn law_only_a_failure_of_a_killed_gate_stops(gate: RiskState, run: RunState)
    ensures
        must_stop(gate, run) <==> gate.killed && (run.phase == RunPhase::Blocked || run.phase
            == RunPhase::Failed),
{
}

} // verus!
