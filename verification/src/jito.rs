//! Bundle construction, simulation verdicts, the confirm-gate and landing checks.
//!
//! - A bundle holds at most five transactions, and the tip is paid in the last.
//! - A bundle is simulated before any decision to submit it.
//! - Only a typed `YES` lets a bundle pass the confirm-gate.
//! - Only a bundle that is confirmed or finalized counts as landed.

use crate::base64_text::{base64, base64_encode};
use crate::json::{law_a_member_is_found_by_its_name, member, Json};
use crate::solana::{
    can_be_signed, instruction_views, keypair_views, lemma_transfer_can_be_signed, pubkey_of,
    pubkeys, sign_transaction, signed_transaction, system_transfer, transfer_view, Instruction,
    InstructionView, Keypair,
};
use crate::text::{
    is_blank, law_trimming_keeps_the_middle, law_trimming_takes_off_the_padding, same_text, trim,
    trimmed,
};
use vstd::prelude::*;
use vstd::string::*;

verus! {

/// Maximum transactions in a single bundle.
pub const BUNDLE_MAX_TXS: usize = 5;

/// A constructed, signed bundle, ready to simulate and to submit.
pub struct JitoBundle {
    /// The wire bytes of the signed transactions, in order.
    pub transactions: Vec<Vec<u8>>,
    /// Tip lamports paid in the last transaction.
    pub tip_lamports: u64,
    /// The account that the tip is sent to.
    pub tip_account: [u8; 32],
}

/// Why a bundle cannot be built.
#[derive(Debug, Clone, Copy, PartialEq, Eq, Structural)]
pub enum BundleError {
    /// This many transactions and a tip transaction are more than a bundle holds.
    TooManyTransactions(usize),
}

/// The instructions of one transaction and the keypairs that sign it.
pub type InstructionGroup<'a> = (Vec<Instruction>, Vec<&'a Keypair>);

/// A group as mathematical values: the instructions and the signing keypairs.
pub type GroupView = (Seq<InstructionView>, Seq<Seq<u8>>);

/// The view of a group.
pub open spec fn group_view(group: InstructionGroup) -> GroupView {
    (instruction_views(group.0@), keypair_views(group.1@))
}

/// The views of a row of groups.
pub open spec fn group_views(groups: Seq<InstructionGroup>) -> Seq<GroupView> {
    Seq::new(groups.len(), |i: int| group_view(groups[i]))
}

/// The wire bytes of a group's transaction.
pub open spec fn group_wire(group: GroupView, payer: Seq<u8>, blockhash: Seq<u8>) -> Seq<u8> {
    signed_transaction(group.0, pubkey_of(payer), group.1, blockhash)
}

/// Whether a group's transaction can be compiled and signed.
pub open spec fn group_can_be_signed(group: GroupView, payer: Seq<u8>) -> bool {
    can_be_signed(group.0, pubkey_of(payer), pubkeys(group.1))
}

/// The wire bytes of a tip transaction: a single transfer, signed by its payer.
pub open spec fn tip_wire(
    payer: Seq<u8>,
    tip_account: Seq<u8>,
    tip_lamports: nat,
    blockhash: Seq<u8>,
) -> Seq<u8> {
    signed_transaction(
        seq![transfer_view(pubkey_of(payer), tip_account, tip_lamports)],
        pubkey_of(payer),
        seq![payer],
        blockhash,
    )
}

/// A bundle as mathematical values.
#[verifier::ext_equal]
pub struct BundleView {
    pub transactions: Seq<Seq<u8>>,
    pub tip_lamports: nat,
    pub tip_account: Seq<u8>,
}

impl BundleView {
    /// The transaction that stands for the bundle in a simulation: the first.
    pub open spec fn simulated(self) -> Option<Seq<u8>> {
        if self.transactions.len() == 0 {
            None
        } else {
            Some(self.transactions.first())
        }
    }
}

impl View for JitoBundle {
    type V = BundleView;

    open spec fn view(&self) -> BundleView {
        BundleView {
            transactions: wires(self.transactions@),
            tip_lamports: self.tip_lamports as nat,
            tip_account: self.tip_account@,
        }
    }
}

/// The bytes of a row of transactions.
pub open spec fn wires(transactions: Seq<Vec<u8>>) -> Seq<Seq<u8>> {
    Seq::new(transactions.len(), |i: int| transactions[i]@)
}

/// The bundle of the groups' transactions, in order, and of the tip transaction
/// at the end.
pub open spec fn bundle_of(
    groups: Seq<GroupView>,
    payer: Seq<u8>,
    tip_account: Seq<u8>,
    tip_lamports: nat,
    blockhash: Seq<u8>,
) -> BundleView {
    BundleView {
        transactions: Seq::new(
            groups.len(),
            |i: int| group_wire(groups[i], payer, blockhash),
        ).push(tip_wire(payer, tip_account, tip_lamports, blockhash)),
        tip_lamports,
        tip_account,
    }
}

/// Build a bundle from the instruction groups of the arbitrage legs. The tip is
/// a transfer of its own in the last transaction, paid by `tip_payer`, who pays
/// the fees of every transaction too.
pub fn build_bundle(
    arb_instructions: Vec<InstructionGroup>,
    tip_payer: &Keypair,
    tip_account: [u8; 32],
    tip_lamports: u64,
    recent_blockhash: [u8; 32],
) -> (bundle: Result<JitoBundle, BundleError>)
    requires
        arb_instructions@.len() < BUNDLE_MAX_TXS ==> forall|i: int|
            0 <= i < arb_instructions@.len() ==> group_can_be_signed(
                #[trigger] group_views(arb_instructions@)[i],
                tip_payer@,
            ),
    ensures
        bundle is Ok <==> arb_instructions@.len() <= 4,
        arb_instructions@.len() >= BUNDLE_MAX_TXS ==> bundle == Err::<JitoBundle, BundleError>(
            BundleError::TooManyTransactions(arb_instructions@.len() as usize),
        ),
        arb_instructions@.len() < BUNDLE_MAX_TXS ==> (bundle matches Ok(b) && b@ == bundle_of(
            group_views(arb_instructions@),
            tip_payer@,
            tip_account@,
            tip_lamports as nat,
            recent_blockhash@,
        )),
        bundle matches Ok(b) ==> b.transactions@.len() <= BUNDLE_MAX_TXS,
{
    if arb_instructions.len() >= BUNDLE_MAX_TXS {
        return Err(BundleError::TooManyTransactions(arb_instructions.len()));
    }
    let mut transactions: Vec<Vec<u8>> = Vec::new();
    let mut i: usize = 0;
    while i < arb_instructions.len()
        invariant
            i <= arb_instructions@.len(),
            transactions@.len() == i,
            forall|k: int|
                0 <= k < arb_instructions@.len() ==> group_can_be_signed(
                    #[trigger] group_views(arb_instructions@)[k],
                    tip_payer@,
                ),
            forall|k: int|
                0 <= k < i ==> (#[trigger] transactions@[k])@ == group_wire(
                    group_views(arb_instructions@)[k],
                    tip_payer@,
                    recent_blockhash@,
                ),
        decreases arb_instructions@.len() - i,
    {
        assert(group_can_be_signed(group_views(arb_instructions@)[i as int], tip_payer@));
        let group: &InstructionGroup = &arb_instructions[i];
        transactions.push(sign_transaction(&group.0, tip_payer, &group.1, &recent_blockhash));
        i = i + 1;
    }
    let payer_key: [u8; 32] = tip_payer.pubkey();
    let mut tip_instructions: Vec<Instruction> = Vec::new();
    tip_instructions.push(system_transfer(&payer_key, &tip_account, tip_lamports));
    let mut tip_signers: Vec<&Keypair> = Vec::new();
    tip_signers.push(tip_payer);
    proof {
        let transfer = transfer_view(payer_key@, tip_account@, tip_lamports as nat);
        assert(instruction_views(tip_instructions@) =~= seq![transfer]);
        assert(keypair_views(tip_signers@) =~= seq![tip_payer@]);
        assert(pubkeys(keypair_views(tip_signers@)) =~= seq![payer_key@]);
        lemma_transfer_can_be_signed(payer_key@, tip_account@, tip_lamports as nat);
    }
    transactions.push(
        sign_transaction(&tip_instructions, tip_payer, &tip_signers, &recent_blockhash),
    );
    Ok(JitoBundle { transactions, tip_lamports, tip_account })
}

/// Result of a bundle simulation.
#[derive(Debug)]
pub struct SimulationResult {
    pub success: bool,
    pub err_message: Option<String>,
    /// Compute units that the simulated transaction consumed.
    pub units_consumed: Option<u64>,
}

impl JitoBundle {
    /// The transaction that is simulated: the first, which is the primary swap.
    pub fn simulated_transaction(&self) -> (wire: Option<&Vec<u8>>)
        ensures
            match wire {
                Some(tx) => self@.simulated() == Some(tx@),
                None => self@.simulated() is None,
            },
            match wire {
                Some(tx) => self.transactions@.len() > 0 && *tx == self.transactions@[0],
                None => self.transactions@.len() == 0,
            },
    {
        if self.transactions.len() == 0 {
            None
        } else {
            Some(&self.transactions[0])
        }
    }

    /// The parameters of the submission request: the transactions in base 64, in
    /// order, and the name of that encoding.
    pub fn submit_params(&self) -> (params: Json)
        ensures
            is_submit_params(params, self@.transactions),
    {
        let mut encoded: Vec<Json> = Vec::new();
        let mut i: usize = 0;
        while i < self.transactions.len()
            invariant
                i <= self.transactions@.len(),
                encoded@.len() == i,
                forall|k: int|
                    0 <= k < i ==> (#[trigger] encoded@[k]).text() == Some(
                        base64(self.transactions@[k]@),
                    ),
            decreases self.transactions@.len() - i,
        {
            encoded.push(Json::Text(base64_encode(&self.transactions[i])));
            i = i + 1;
        }
        let mut options: Vec<(String, Json)> = Vec::new();
        options.push(
            (String::from_str("encoding"), Json::Text(String::from_str("base64"))),
        );
        let mut params: Vec<Json> = Vec::new();
        params.push(Json::Array(encoded));
        params.push(Json::Object(options));
        Json::Array(params)
    }
}

/// Whether `params` is `[[tx, ...], {"encoding": "base64"}]` with the given
/// transactions in base 64, in order.
pub open spec fn is_submit_params(params: Json, transactions: Seq<Seq<u8>>) -> bool {
    params matches Json::Array(parts) && parts@.len() == 2 && (parts@[0] matches Json::Array(
        encoded,
    ) && {
        &&& encoded@.len() == transactions.len()
        &&& forall|i: int|
            0 <= i < transactions.len() ==> (#[trigger] encoded@[i]).text() == Some(
                base64(transactions[i]),
            )
    }) && (parts@[1] matches Json::Object(options) && {
        &&& options@.len() == 1
        &&& options@[0].0@ == "encoding"@
        &&& options@[0].1.text() == Some("base64"@)
    })
}

/// Whether `result` is what a finished simulation says.
pub open spec fn is_simulation_result(
    result: SimulationResult,
    err_message: Option<String>,
    units_consumed: Option<u64>,
) -> bool {
    &&& result.success == err_message is None
    &&& result.err_message == err_message
    &&& result.units_consumed == units_consumed
}

/// What a finished simulation says: it succeeded exactly if it reports no error.
pub fn simulation_result(err_message: Option<String>, units_consumed: Option<u64>) -> (result:
    SimulationResult)
    ensures
        is_simulation_result(result, err_message, units_consumed),
        result.success == err_message is None,
        result.err_message == err_message,
        result.units_consumed == units_consumed,
{
    SimulationResult { success: err_message.is_none(), err_message, units_consumed }
}

/// The confirm-gate: only `YES`, with nothing but white space around it, passes.
/// Anything else comes back without that white space.
pub fn confirm_gate(response: &str) -> (verdict: Result<(), &str>)
    ensures
        match verdict {
            Ok(_) => trimmed(response@) == "YES"@,
            Err(typed) => typed@ == trimmed(response@) && typed@ != "YES"@,
        },
{
    let typed: &str = trim(response);
    if same_text(typed, "YES") {
        Ok(())
    } else {
        Err(typed)
    }
}

/// The identifier that the block engine gave to a submitted bundle: the text
/// under `result` of its reply.
pub fn submitted_bundle_id(reply: &Json) -> (id: Option<String>)
    ensures
        match id {
            Some(text) => reply.child("result"@) matches Some(value) && value.text() == Some(text@),
            None => reply.child("result"@) is None || reply.child("result"@)->0.text() is None,
        },
{
    match reply.get("result") {
        Some(value) => match value.as_text() {
            Some(text) => Some(text.clone()),
            None => None,
        },
        None => None,
    }
}

/// Where the in-flight endpoint reports a bundle's status.
pub open spec fn in_flight_path() -> Seq<&'static str> {
    seq!["result", "value", "0", "status"]
}

/// Where the status endpoint reports a landed bundle's error.
pub open spec fn err_path() -> Seq<&'static str> {
    seq!["result", "value", "0", "err"]
}

/// Where the status endpoint reports a landed bundle's confirmation.
pub open spec fn confirmation_path() -> Seq<&'static str> {
    seq!["result", "value", "0", "confirmation_status"]
}

/// The text at a path of a reply, if there is one.
pub open spec fn text_at(reply: Json, path: Seq<&str>) -> Option<Seq<char>> {
    match reply.at(path) {
        Some(value) => value.text(),
        None => None,
    }
}

/// What the in-flight endpoint says of a bundle.
#[derive(Debug)]
pub enum InFlightStatus {
    /// `Failed` or `Invalid`: the bundle will not land.
    Rejected(String),
    /// `Landed`: to be reconciled with the status endpoint.
    Landed,
    /// Any other status, or none yet.
    Waiting(Option<String>),
}

/// Whether a status text means that the bundle will not land.
pub open spec fn is_rejection(status: Seq<char>) -> bool {
    status == "Failed"@ || status == "Invalid"@
}

/// Whether the in-flight endpoint reports the bundle as landed.
pub open spec fn reports_landed(reply: Json) -> bool {
    text_at(reply, in_flight_path()) == Some("Landed"@)
}

/// Whether the in-flight endpoint reports that the bundle will not land.
pub open spec fn reports_rejected(reply: Json) -> bool {
    text_at(reply, in_flight_path()) matches Some(status) && is_rejection(status)
}

/// Whether `status` is what a reply of the in-flight endpoint says.
pub open spec fn is_in_flight_status(status: InFlightStatus, reply: Json) -> bool {
    match status {
        InFlightStatus::Rejected(text) => reports_rejected(reply) && text_at(
            reply,
            in_flight_path(),
        ) == Some(text@),
        InFlightStatus::Landed => reports_landed(reply),
        InFlightStatus::Waiting(text) => {
            &&& !reports_rejected(reply)
            &&& !reports_landed(reply)
            &&& match text {
                Some(text) => text_at(reply, in_flight_path()) == Some(text@),
                None => text_at(reply, in_flight_path()) is None,
            }
        },
    }
}

/// Read a reply of the in-flight endpoint.
pub fn in_flight_status(reply: &Json) -> (status: InFlightStatus)
    ensures
        is_in_flight_status(status, *reply),
{
    let path: [&str; 4] = ["result", "value", "0", "status"];
    assert(path@ =~= in_flight_path());
    proof {
        reveal_strlit("Failed");
        reveal_strlit("Invalid");
        reveal_strlit("Landed");
        assert("Failed"@[0] != "Landed"@[0]);
        assert("Invalid"@[0] != "Landed"@[0]);
    }
    match reply.pointer(path.as_slice()) {
        Some(value) => match value.as_text() {
            Some(text) => if same_text(text.as_str(), "Failed") || same_text(
                text.as_str(),
                "Invalid",
            ) {
                InFlightStatus::Rejected(text.clone())
            } else if same_text(text.as_str(), "Landed") {
                InFlightStatus::Landed
            } else {
                InFlightStatus::Waiting(Some(text.clone()))
            },
            None => InFlightStatus::Waiting(None),
        },
        None => InFlightStatus::Waiting(None),
    }
}

/// Whether a reported error means that a transaction reverted. Null and an
/// object whose member `Ok` is null mean that none did.
pub open spec fn is_revert(err: Json) -> bool {
    match err {
        Json::Null => false,
        Json::Object(fields) => member(fields@, "Ok"@) != Some(Json::Null),
        _ => true,
    }
}

/// Whether the status endpoint reports that a landed bundle reverted.
pub open spec fn reports_revert(reply: Json) -> bool {
    reply.at(err_path()) matches Some(err) && is_revert(err)
}

/// Why a bundle that the in-flight endpoint reports as landed is not confirmed.
#[derive(Debug)]
pub enum ReconcileError<'a> {
    /// A transaction reverted with this error.
    Reverted(&'a Json),
    /// The status endpoint reports no confirmation.
    Unconfirmed,
}

/// Whether `result` is what a reply of the status endpoint says: the
/// confirmation that it reports, unless a transaction reverted or it reports none.
pub open spec fn is_reconciliation(result: Result<String, ReconcileError>, reply: Json) -> bool {
    match result {
        Ok(status) => !reports_revert(reply) && text_at(reply, confirmation_path()) == Some(
            status@,
        ),
        Err(ReconcileError::Reverted(err)) => reports_revert(reply) && reply.at(err_path()) == Some(
            *err,
        ),
        Err(ReconcileError::Unconfirmed) => !reports_revert(reply) && text_at(
            reply,
            confirmation_path(),
        ) is None,
    }
}

/// Whether a status is a settled one. A bundle that is only `processed` can
/// still be rolled back.
pub open spec fn is_settled(status: Seq<char>) -> bool {
    status == "confirmed"@ || status == "finalized"@
}

/// Whether the status endpoint reports a landed bundle as settled and not reverted.
pub open spec fn reports_settled(reply: Json) -> bool {
    !reports_revert(reply) && (text_at(reply, confirmation_path()) matches Some(status)
        && is_settled(status))
}

/// Read the status endpoint's reply for a bundle that the in-flight endpoint
/// reports as landed: its confirmation, or why there is none.
pub fn reconcile_landed_bundle(reply: &Json) -> (confirmation: Result<String, ReconcileError<'_>>)
    ensures
        is_reconciliation(confirmation, *reply),
{
    let err_at: [&str; 4] = ["result", "value", "0", "err"];
    assert(err_at@ =~= err_path());
    match reply.pointer(err_at.as_slice()) {
        Some(err) => {
            let reverted: bool = match err {
                Json::Null => false,
                Json::Object(_) => match err.get("Ok") {
                    Some(Json::Null) => false,
                    _ => true,
                },
                _ => true,
            };
            if reverted {
                return Err(ReconcileError::Reverted(err));
            }
        },
        None => {},
    }
    let status_at: [&str; 4] = ["result", "value", "0", "confirmation_status"];
    assert(status_at@ =~= confirmation_path());
    match reply.pointer(status_at.as_slice()) {
        Some(value) => match value.as_text() {
            Some(text) => Ok(text.clone()),
            None => Err(ReconcileError::Unconfirmed),
        },
        None => Err(ReconcileError::Unconfirmed),
    }
}

/// Pause between two questions about a bundle, in milliseconds.
pub const POLL_INTERVAL_MS: u64 = 500;

/// Where the wait for a submitted bundle stands.
#[derive(Debug, Clone, Copy, PartialEq, Eq, Structural)]
pub enum PollPhase {
    /// Ask the in-flight endpoint.
    AskInFlight,
    /// The bundle is reported as landed: ask the status endpoint.
    AskStatuses,
    /// The bundle has landed, is settled, and none of its transactions reverted.
    Landed,
    /// The bundle was rejected, reverted or not seen in time.
    Failed,
}

/// A reply that the wait for a bundle takes in.
pub enum PollReply {
    InFlight(Json),
    Statuses(Json),
}

/// The wait for a submitted bundle, as mathematical values.
pub struct PollState {
    pub attempt: nat,
    pub max_attempts: nat,
    pub phase: PollPhase,
}

/// The wait before its first question; without attempts it has failed.
pub open spec fn poll_start(max_attempts: nat) -> PollState {
    PollState {
        attempt: 0,
        max_attempts,
        phase: if max_attempts == 0 {
            PollPhase::Failed
        } else {
            PollPhase::AskInFlight
        },
    }
}

impl PollState {
    /// The wait after an attempt without a verdict. After the last one it has failed.
    pub open spec fn waited(self) -> PollState {
        PollState {
            attempt: self.attempt + 1,
            phase: if self.attempt + 1 >= self.max_attempts {
                PollPhase::Failed
            } else {
                self.phase
            },
            ..self
        }
    }

    /// The wait after a reply. A reply that was not asked for changes nothing.
    pub open spec fn after(self, reply: PollReply) -> PollState {
        match reply {
            PollReply::InFlight(json) => if self.phase != PollPhase::AskInFlight {
                self
            } else if reports_rejected(json) {
                PollState { phase: PollPhase::Failed, ..self }
            } else if reports_landed(json) {
                PollState { phase: PollPhase::AskStatuses, ..self }
            } else {
                self.waited()
            },
            PollReply::Statuses(json) => if self.phase != PollPhase::AskStatuses {
                self
            } else if reports_revert(json) {
                PollState { phase: PollPhase::Failed, ..self }
            } else if reports_settled(json) {
                PollState { phase: PollPhase::Landed, ..self }
            } else {
                self.waited()
            },
        }
    }

    /// The wait after a row of replies.
    pub open spec fn after_all(self, replies: Seq<PollReply>) -> PollState
        decreases replies.len(),
    {
        if replies.len() == 0 {
            self
        } else {
            self.after_all(replies.drop_last()).after(replies.last())
        }
    }
}

/// The wait for a submitted bundle: ask the in-flight endpoint for a quick
/// verdict, then reconcile a landed bundle with the status endpoint.
#[derive(Debug)]
pub struct BundlePoll {
    attempt: u32,
    max_attempts: u32,
    phase: PollPhase,
}

impl View for BundlePoll {
    type V = PollState;

    closed spec fn view(&self) -> PollState {
        PollState {
            attempt: self.attempt as nat,
            max_attempts: self.max_attempts as nat,
            phase: self.phase,
        }
    }
}

impl BundlePoll {
    /// While there is something to ask, an attempt is left.
    #[verifier::type_invariant]
    spec fn has_attempts_left(self) -> bool {
        self.phase == PollPhase::AskInFlight || self.phase == PollPhase::AskStatuses
            ==> self.attempt < self.max_attempts
    }

    /// A wait of at most `max_attempts` questions to the in-flight endpoint.
    pub fn new(max_attempts: u32) -> (poll: Self)
        ensures
            poll@ == poll_start(max_attempts as nat),
    {
        BundlePoll {
            attempt: 0,
            max_attempts,
            phase: if max_attempts == 0 {
                PollPhase::Failed
            } else {
                PollPhase::AskInFlight
            },
        }
    }

    /// Where the wait stands.
    pub fn phase(&self) -> (phase: PollPhase)
        ensures
            phase == self@.phase,
    {
        self.phase
    }

    /// Take in a reply of the in-flight endpoint.
    pub fn on_in_flight(&mut self, reply: &Json) -> (status: InFlightStatus)
        requires
            old(self)@.phase == PollPhase::AskInFlight,
        ensures
            is_in_flight_status(status, *reply),
            final(self)@ == old(self)@.after(PollReply::InFlight(*reply)),
    {
        proof {
            use_type_invariant(&*self);
            reveal_strlit("Failed");
            reveal_strlit("Invalid");
            reveal_strlit("Landed");
            assert("Failed"@[0] != "Landed"@[0]);
            assert("Invalid"@[0] != "Landed"@[0]);
        }
        let status: InFlightStatus = in_flight_status(reply);
        match &status {
            InFlightStatus::Rejected(_) => {
                self.phase = PollPhase::Failed;
            },
            InFlightStatus::Landed => {
                self.phase = PollPhase::AskStatuses;
            },
            InFlightStatus::Waiting(_) => {
                self.wait();
            },
        }
        status
    }

    /// Count an attempt without a verdict.
    fn wait(&mut self)
        requires
            old(self)@.phase == PollPhase::AskInFlight || old(self)@.phase
                == PollPhase::AskStatuses,
        ensures
            final(self)@ == old(self)@.waited(),
    {
        proof {
            use_type_invariant(&*self);
        }
        let attempt: u32 = self.attempt + 1;
        if attempt >= self.max_attempts {
            self.phase = PollPhase::Failed;
        }
        self.attempt = attempt;
    }

    /// Take in a reply of the status endpoint. A bundle that is not settled yet is
    /// asked about again.
    pub fn on_statuses<'a>(&mut self, reply: &'a Json) -> (confirmation: Result<
        String,
        ReconcileError<'a>,
    >)
        requires
            old(self)@.phase == PollPhase::AskStatuses,
        ensures
            is_reconciliation(confirmation, *reply),
            final(self)@ == old(self)@.after(PollReply::Statuses(*reply)),
    {
        proof {
            use_type_invariant(&*self);
        }
        let confirmation: Result<String, ReconcileError<'a>> = reconcile_landed_bundle(reply);
        match &confirmation {
            Ok(status) => if same_text(status.as_str(), "confirmed") || same_text(
                status.as_str(),
                "finalized",
            ) {
                self.phase = PollPhase::Landed;
            } else {
                self.wait();
            },
            Err(ReconcileError::Reverted(_)) => {
                self.phase = PollPhase::Failed;
            },
            Err(ReconcileError::Unconfirmed) => {
                self.wait();
            },
        }
        confirmation
    }
}

/// Whether a row of replies holds an in-flight report of a landed bundle.
pub open spec fn was_reported_landed(replies: Seq<PollReply>) -> bool {
    exists|i: int|
        0 <= i < replies.len() && (#[trigger] replies[i] matches PollReply::InFlight(json)
            && reports_landed(json))
}

/// Whether a row of replies holds a status report of a settled bundle.
pub open spec fn was_reconciled(replies: Seq<PollReply>) -> bool {
    exists|i: int|
        0 <= i < replies.len() && (#[trigger] replies[i] matches PollReply::Statuses(json)
            && reports_settled(json))
}

/// A bundle counts as landed only if the in-flight endpoint reported it as
/// landed and the status endpoint as confirmed or finalized, without a revert.
pub proof fn law_landing_is_reported_and_reconciled(max_attempts: nat, replies: Seq<PollReply>)
    ensures
        ({
            let phase = poll_start(max_attempts).after_all(replies).phase;
            &&& phase == PollPhase::AskStatuses ==> was_reported_landed(replies)
            &&& phase == PollPhase::Landed ==> was_reported_landed(replies) && was_reconciled(
                replies,
            )
        }),
    decreases replies.len(),
{
    if replies.len() > 0 {
        let earlier = replies.drop_last();
        law_landing_is_reported_and_reconciled(max_attempts, earlier);
        assert(replies[replies.len() - 1] == replies.last());
        if was_reported_landed(earlier) {
            let i = choose|i: int|
                0 <= i < earlier.len() && (#[trigger] earlier[i] matches PollReply::InFlight(json)
                    && reports_landed(json));
            assert(replies[i] == earlier[i]);
        }
        if was_reconciled(earlier) {
            let i = choose|i: int|
                0 <= i < earlier.len() && (#[trigger] earlier[i] matches PollReply::Statuses(json)
                    && reports_settled(json));
            assert(replies[i] == earlier[i]);
        }
    }
}

/// A wait never goes on past its attempts: as long as it asks, attempts are
/// left, and as long as it asks the in-flight endpoint, every reply of that
/// endpoint was one.
pub proof fn law_polling_is_bounded(max_attempts: nat, replies: Seq<PollReply>)
    ensures
        ({
            let state = poll_start(max_attempts).after_all(replies);
            &&& state.max_attempts == max_attempts
            &&& state.phase == PollPhase::AskInFlight || state.phase == PollPhase::AskStatuses
                ==> state.attempt < max_attempts
            &&& state.phase == PollPhase::AskInFlight ==> state.attempt == in_flight_replies(
                replies,
            )
        }),
    decreases replies.len(),
{
    if replies.len() > 0 {
        law_polling_is_bounded(max_attempts, replies.drop_last());
    }
}

/// The number of in-flight replies.
pub open spec fn in_flight_replies(replies: Seq<PollReply>) -> nat
    decreases replies.len(),
{
    if replies.len() == 0 {
        0
    } else {
        in_flight_replies(replies.drop_last()) + if replies.last() is InFlight {
            1nat
        } else {
            0nat
        }
    }
}

/// Every reply that was asked for brings the wait nearer to its end: it ends it,
/// uses up an attempt, or moves on to the status endpoint for good.
pub proof fn law_every_answer_makes_progress(state: PollState, reply: PollReply)
    requires
        state.attempt < state.max_attempts,
        match reply {
            PollReply::InFlight(_) => state.phase == PollPhase::AskInFlight,
            PollReply::Statuses(_) => state.phase == PollPhase::AskStatuses,
        },
    ensures
        ({
            let next = state.after(reply);
            ||| next.phase == PollPhase::Landed
            ||| next.phase == PollPhase::Failed
            ||| next.attempt == state.attempt + 1 && next.phase == state.phase
            ||| next.attempt == state.attempt && state.phase == PollPhase::AskInFlight && next.phase
                == PollPhase::AskStatuses
        }),
{
}

/// Once a wait has ended, it stays as it ended.
pub proof fn law_a_finished_wait_stays_finished(state: PollState, replies: Seq<PollReply>)
    requires
        state.phase == PollPhase::Landed || state.phase == PollPhase::Failed,
    ensures
        state.after_all(replies) == state,
    decreases replies.len(),
{
    if replies.len() > 0 {
        law_a_finished_wait_stays_finished(state, replies.drop_last());
    }
}

/// Every transaction of a bundle is the signed transaction of the group at its
/// place, paid by the tip payer, whose public key is the second half of its
/// keypair. Behind the groups comes one more transaction: the transfer of the tip,
/// signed by the tip payer alone.
pub proof fn law_a_bundle_keeps_the_order_of_its_groups(
    groups: Seq<GroupView>,
    payer: Seq<u8>,
    tip_account: Seq<u8>,
    tip_lamports: nat,
    blockhash: Seq<u8>,
    i: int,
)
    ensures
        ({
            let bundle = bundle_of(groups, payer, tip_account, tip_lamports, blockhash);
            let payer_key = payer.subrange(32, 64);
            &&& bundle.transactions.len() == groups.len() + 1
            &&& 0 <= i < groups.len() ==> bundle.transactions[i] == signed_transaction(
                groups[i].0,
                payer_key,
                groups[i].1,
                blockhash,
            )
            &&& groups.len() > 0 ==> bundle.transactions[0] == signed_transaction(
                groups[0].0,
                payer_key,
                groups[0].1,
                blockhash,
            )
            &&& bundle.transactions[groups.len() as int] == signed_transaction(
                seq![transfer_view(payer_key, tip_account, tip_lamports)],
                payer_key,
                seq![payer],
                blockhash,
            )
            &&& bundle.tip_lamports == tip_lamports
            &&& bundle.tip_account == tip_account
        }),
{
}

/// The values that a bundle stands for are those that it holds, transaction by
/// transaction, and those of a group are its instructions and the bytes of its
/// keypairs, one by one.
pub proof fn law_views_keep_every_part(bundle: JitoBundle, groups: Seq<InstructionGroup>, i: int, j: int)
    ensures
        bundle@.transactions.len() == bundle.transactions@.len(),
        0 <= i < bundle.transactions@.len() ==> bundle@.transactions[i] == bundle.transactions@[i]@,
        bundle@.tip_lamports == bundle.tip_lamports,
        bundle@.tip_account == bundle.tip_account@,
        group_views(groups).len() == groups.len(),
        0 <= i < groups.len() ==> {
            let group = group_views(groups)[i];
            &&& group.0.len() == groups[i].0@.len()
            &&& group.1.len() == groups[i].1@.len()
            &&& 0 <= j < group.0.len() ==> group.0[j] == groups[i].0@[j]@
            &&& 0 <= j < group.1.len() ==> group.1[j] == groups[i].1@[j]@
        },
{
}

/// The submission request lists exactly the bundle's transactions, in their order,
/// in base 64.
pub proof fn law_a_submission_lists_the_transactions_in_order(
    params: Json,
    transactions: Seq<Seq<u8>>,
    i: int,
)
    requires
        is_submit_params(params, transactions),
    ensures
        params is Array,
        params->Array_0@.len() == 2,
        params->Array_0@[0] is Array,
        ({
            let encoded = params->Array_0@[0]->Array_0@;
            &&& encoded.len() == transactions.len()
            &&& 0 <= i < transactions.len() ==> encoded[i] is Text && encoded[i]->Text_0@ == base64(
                transactions[i],
            )
        }),
        params->Array_0@[1] is Object,
        ({
            let options = params->Array_0@[1]->Object_0@;
            options.len() == 1 && options[0].0@ == "encoding"@ && options[0].1 is Text
                && options[0].1->Text_0@ == "base64"@
        }),
{
}

/// Only `YES` passes the confirm-gate, with or without white space around it.
pub proof fn law_only_yes_is_a_confirmation(response: Seq<char>)
    ensures
        trimmed(response) == "YES"@ <==> exists|left: Seq<char>, right: Seq<char>| #[trigger]
            is_blank(left) && #[trigger] is_blank(right) && response == left + seq!['Y', 'E', 'S']
                + right,
{
    reveal_strlit("YES");
    assert("YES"@ =~= seq!['Y', 'E', 'S']);
    law_trimming_keeps_the_middle(response);
    assert forall|left: Seq<char>, right: Seq<char>| #[trigger]
        is_blank(left) && #[trigger] is_blank(right) && response == left + seq!['Y', 'E', 'S']
            + right implies trimmed(response) == "YES"@ by {
        law_trimming_takes_off_the_padding(left, "YES"@, right);
    }
}

/// The value one step down from a value that may not be there.
pub open spec fn below(value: Option<Json>, token: Seq<char>) -> Option<Json> {
    match value {
        Some(value) => value.child(token),
        None => None,
    }
}

/// What a reply says of the bundle under a name: the member of that name in the
/// first element of `value` in `result`.
pub open spec fn said_of_the_bundle(reply: Json, name: Seq<char>) -> Option<Json> {
    below(below(below(reply.child("result"@), "value"@), "0"@), name)
}

proof fn lemma_four_steps(reply: Json, path: Seq<&str>)
    requires
        path.len() == 4,
    ensures
        reply.at(path) == below(
            below(below(reply.child(path[0]@), path[1]@), path[2]@),
            path[3]@,
        ),
{
    reveal_with_fuel(Json::at, 5);
    assert(path.skip(1).skip(1) =~= path.skip(2));
    assert(path.skip(2).skip(1) =~= path.skip(3));
    assert(path.skip(3).skip(1) =~= Seq::<&str>::empty());
}

/// Where the endpoints' replies are read.
pub proof fn law_replies_are_read_at_the_first_bundle(reply: Json)
    ensures
        reply.at(in_flight_path()) == said_of_the_bundle(reply, "status"@),
        reply.at(err_path()) == said_of_the_bundle(reply, "err"@),
        reply.at(confirmation_path()) == said_of_the_bundle(reply, "confirmation_status"@),
{
    lemma_four_steps(reply, in_flight_path());
    lemma_four_steps(reply, err_path());
    lemma_four_steps(reply, confirmation_path());
}

/// Whether an error is one in name only: null, or an object whose member `Ok` is
/// there and null.
pub open spec fn is_no_error(err: Json) -> bool {
    err is Null || (err is Object && exists|i: int|
        0 <= i < err->Object_0@.len() && (#[trigger] err->Object_0@[i]).0@ == "Ok"@
            && err->Object_0@[i].1 is Null && forall|j: int|
            0 <= j < i ==> (#[trigger] err->Object_0@[j]).0@ != "Ok"@)
}

/// Every error counts as a revert but null and an object whose member `Ok` is null.
/// So an object without a member `Ok` counts as one, whatever its members are
/// named, and so does every text, number, truth value and array.
pub proof fn law_every_real_error_is_a_revert(err: Json)
    ensures
        is_revert(err) <==> !is_no_error(err),
        err is Object && (forall|i: int|
            0 <= i < err->Object_0@.len() ==> (#[trigger] err->Object_0@[i]).0@ != "Ok"@)
            ==> is_revert(err),
        err is Text || err is Number || err is Bool || err is Array ==> is_revert(err),
{
    if err is Object {
        let fields = err->Object_0;
        assert forall|i: int|
            0 <= i < fields@.len() && (#[trigger] fields@[i]).0@ == "Ok"@ && (forall|j: int|
                0 <= j < i ==> (#[trigger] fields@[j]).0@ != "Ok"@) implies member(fields@, "Ok"@)
            == Some(fields@[i].1) by {
            law_a_member_is_found_by_its_name(fields, "Ok"@, i);
        }
        law_a_member_is_found_by_its_name(fields, "Ok"@, 0);
        if member(fields@, "Ok"@) is Some {
            lemma_first_member(fields@, "Ok"@);
        }
    }
}

proof fn lemma_first_member(fields: Seq<(String, Json)>, key: Seq<char>) -> (i: int)
    requires
        member(fields, key) is Some,
    ensures
        0 <= i < fields.len(),
        fields[i].0@ == key,
        member(fields, key) == Some(fields[i].1),
        forall|j: int| 0 <= j < i ==> (#[trigger] fields[j]).0@ != key,
    decreases fields.len(),
{
    if fields[0].0@ == key {
        0
    } else {
        let rest = fields.skip(1);
        let i = lemma_first_member(rest, key);
        assert(forall|j: int| 1 <= j < fields.len() ==> #[trigger] fields[j] == rest[j - 1]);
        i + 1
    }
}

/// What a reply of the status endpoint makes of the wait: an error ends it without
/// a landing, whatever else the reply says; without one, `confirmed` and
/// `finalized` end it with a landing, and anything else uses up an attempt.
pub proof fn law_a_status_reply_decides(state: PollState, reply: Json)
    requires
        state.phase == PollPhase::AskStatuses,
    ensures
        ({
            let next = state.after(PollReply::Statuses(reply));
            let err = said_of_the_bundle(reply, "err"@);
            let confirmation = said_of_the_bundle(reply, "confirmation_status"@);
            let reverted = err is Some && !is_no_error(err->0);
            let settled = confirmation is Some && confirmation->0 is Text && (
            confirmation->0->Text_0@ == "confirmed"@ || confirmation->0->Text_0@ == "finalized"@);
            &&& next.max_attempts == state.max_attempts
            &&& reverted ==> next.phase == PollPhase::Failed && next.attempt == state.attempt
            &&& !reverted && settled ==> next.phase == PollPhase::Landed && next.attempt
                == state.attempt
            &&& !reverted && !settled ==> {
                &&& next.attempt == state.attempt + 1
                &&& next.attempt < state.max_attempts ==> next.phase == PollPhase::AskStatuses
                &&& next.attempt >= state.max_attempts ==> next.phase == PollPhase::Failed
            }
        }),
{
    law_replies_are_read_at_the_first_bundle(reply);
    if said_of_the_bundle(reply, "err"@) is Some {
        law_every_real_error_is_a_revert(said_of_the_bundle(reply, "err"@)->0);
    }
}

/// A bundle whose error is an object without a member `Ok` has failed, whatever
/// the object's members are named, and never counts as landed.
pub proof fn law_an_error_object_fails_the_wait(
    state: PollState,
    reply: Json,
    err: Vec<(String, Json)>,
)
    requires
        state.phase == PollPhase::AskStatuses,
        said_of_the_bundle(reply, "err"@) == Some(Json::Object(err)),
        forall|i: int| 0 <= i < err@.len() ==> (#[trigger] err@[i]).0@ != "Ok"@,
    ensures
        state.after(PollReply::Statuses(reply)).phase == PollPhase::Failed,
{
    law_a_status_reply_decides(state, reply);
}

/// What a reply of the in-flight endpoint makes of the wait: `Failed` and `Invalid`
/// end it, `Landed` moves it on to the status endpoint, and anything else, or
/// nothing, uses up an attempt.
pub proof fn law_an_in_flight_reply_decides(state: PollState, reply: Json)
    requires
        state.phase == PollPhase::AskInFlight,
    ensures
        ({
            let next = state.after(PollReply::InFlight(reply));
            let status = said_of_the_bundle(reply, "status"@);
            let told = status is Some && status->0 is Text;
            let rejected = told && (status->0->Text_0@ == "Failed"@ || status->0->Text_0@
                == "Invalid"@);
            let landed = told && status->0->Text_0@ == "Landed"@;
            &&& next.max_attempts == state.max_attempts
            &&& rejected ==> next.phase == PollPhase::Failed && next.attempt == state.attempt
            &&& landed ==> next.phase == PollPhase::AskStatuses && next.attempt == state.attempt
            &&& !rejected && !landed ==> {
                &&& next.attempt == state.attempt + 1
                &&& next.attempt < state.max_attempts ==> next.phase == PollPhase::AskInFlight
                &&& next.attempt >= state.max_attempts ==> next.phase == PollPhase::Failed
            }
        }),
{
    law_replies_are_read_at_the_first_bundle(reply);
    reveal_strlit("Failed");
    reveal_strlit("Invalid");
    reveal_strlit("Landed");
    assert("Failed"@[0] != "Landed"@[0]);
    assert("Invalid"@[0] != "Landed"@[0]);
}

/// A wait starts with its first question and all its attempts, and a reply that
/// was not asked for changes nothing.
pub proof fn law_a_wait_starts_by_asking(max_attempts: nat, state: PollState, reply: Json)
    ensures
        poll_start(max_attempts).attempt == 0,
        poll_start(max_attempts).max_attempts == max_attempts,
        max_attempts > 0 ==> poll_start(max_attempts).phase == PollPhase::AskInFlight,
        max_attempts == 0 ==> poll_start(max_attempts).phase == PollPhase::Failed,
        state.phase != PollPhase::AskInFlight ==> state.after(PollReply::InFlight(reply)) == state,
        state.phase != PollPhase::AskStatuses ==> state.after(PollReply::Statuses(reply)) == state,
{
}

/// What is read from a reply of the in-flight endpoint is what it says: a rejection
/// with its text, a landing, or any other text.
pub proof fn law_an_in_flight_status_is_as_said(status: InFlightStatus, reply: Json)
    requires
        is_in_flight_status(status, reply),
    ensures
        ({
            let said = said_of_the_bundle(reply, "status"@);
            let told = said is Some && said->0 is Text;
            let text = said->0->Text_0@;
            &&& status is Rejected <==> told && (text == "Failed"@ || text == "Invalid"@)
            &&& status is Rejected ==> status->Rejected_0@ == text
            &&& status is Landed <==> told && text == "Landed"@
            &&& status is Waiting ==> (status->Waiting_0 is Some <==> told) && (told
                ==> status->Waiting_0->0@ == text)
        }),
{
    law_replies_are_read_at_the_first_bundle(reply);
    reveal_strlit("Failed");
    reveal_strlit("Invalid");
    reveal_strlit("Landed");
    assert("Failed"@[0] != "Landed"@[0]);
    assert("Invalid"@[0] != "Landed"@[0]);
}

/// What is read from a reply of the status endpoint is what it says: its error, if
/// it is one, else its confirmation, if there is one.
pub proof fn law_a_reconciliation_is_as_said(result: Result<String, ReconcileError>, reply: Json)
    requires
        is_reconciliation(result, reply),
    ensures
        ({
            let err = said_of_the_bundle(reply, "err"@);
            let confirmation = said_of_the_bundle(reply, "confirmation_status"@);
            let reverted = err is Some && !is_no_error(err->0);
            let told = confirmation is Some && confirmation->0 is Text;
            &&& reverted <==> (result matches Err(ReconcileError::Reverted(_)))
            &&& (result matches Err(ReconcileError::Reverted(why)) ==> err == Some(*why))
            &&& result is Ok <==> !reverted && told
            &&& result is Ok ==> result->Ok_0@ == confirmation->0->Text_0@
        }),
{
    law_replies_are_read_at_the_first_bundle(reply);
    if said_of_the_bundle(reply, "err"@) is Some {
        law_every_real_error_is_a_revert(said_of_the_bundle(reply, "err"@)->0);
    }
}

/// What is simulated of a bundle is the signed transaction of its first group; of a
/// bundle without groups it is the tip.
pub proof fn law_the_first_group_is_simulated(
    groups: Seq<GroupView>,
    payer: Seq<u8>,
    tip_account: Seq<u8>,
    tip_lamports: nat,
    blockhash: Seq<u8>,
)
    ensures
        ({
            let bundle = bundle_of(groups, payer, tip_account, tip_lamports, blockhash);
            let payer_key = payer.subrange(32, 64);
            &&& groups.len() > 0 ==> bundle.simulated() == Some(
                signed_transaction(groups[0].0, payer_key, groups[0].1, blockhash),
            )
            &&& groups.len() == 0 ==> bundle.simulated() == Some(
                signed_transaction(
                    seq![transfer_view(payer_key, tip_account, tip_lamports)],
                    payer_key,
                    seq![payer],
                    blockhash,
                ),
            )
        }),
{
    law_a_bundle_keeps_the_order_of_its_groups(
        groups,
        payer,
        tip_account,
        tip_lamports,
        blockhash,
        0,
    );
}

/// A simulation succeeds exactly if it reports no error, and its report is kept.
pub proof fn law_a_reported_error_is_a_failed_simulation(
    result: SimulationResult,
    err_message: Option<String>,
    units_consumed: Option<u64>,
    error: String,
)
    requires
        is_simulation_result(result, err_message, units_consumed),
    ensures
        err_message is None ==> result.success && result.err_message is None,
        err_message == Some(error) ==> !result.success && result.err_message == Some(error),
        result.units_consumed == units_consumed,
{
}

} // verus!
