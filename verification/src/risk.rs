//! Risk gate, circuit breaker and kill-switch for the arbitrage hot path.
//!
//! Every candidate order passes `RiskGate::check_order` before it can be
//! simulated or submitted. It enforces hard caps (notional per order, open
//! position, realized loss per day), a circuit breaker on consecutive reverts
//! and a manual kill-switch. It moves no funds and signs nothing: it says yes or
//! no, and a blocked state stands until a reset.

use crate::text::{decimal, decimal_text};
use vstd::prelude::*;
use vstd::string::*;

verus! {

/// Hard caps of the risk gate, in lamports and counts.
#[derive(Debug, Clone, Copy, PartialEq, Eq, Structural)]
pub struct RiskLimits {
    /// Max notional (size) of a single order, in lamports.
    pub max_notional_lamports: u64,
    /// Max absolute open position allowed after a fill, in lamports.
    pub max_position_lamports: u64,
    /// Max cumulative realized loss allowed within the current day, in lamports.
    pub max_daily_loss_lamports: u64,
    /// Number of consecutive reverts that trips the circuit breaker.
    pub max_consecutive_reverts: u32,
}

/// What a risk gate holds, as mathematical values.
pub struct RiskState {
    pub limits: RiskLimits,
    pub killed: bool,
    pub breaker_tripped: bool,
    pub consecutive_reverts: nat,
    pub daily_loss: nat,
}

/// Why an order is blocked.
pub enum BlockCause {
    Killed,
    BreakerTripped,
    DailyLoss,
    Notional,
    Position,
}

/// One call that changes a risk gate.
pub enum RiskEvent {
    Fill(i64),
    Revert,
    Kill,
    Reset,
}

/// A clean, armed gate.
pub open spec fn armed(limits: RiskLimits) -> RiskState {
    RiskState {
        limits,
        killed: false,
        breaker_tripped: false,
        consecutive_reverts: 0,
        daily_loss: 0,
    }
}

impl RiskState {
    /// The first reason that blocks an order, if there is one. The kill-switch
    /// comes first, then the breaker, the daily loss, the notional and the position.
    pub open spec fn block_cause(self, notional: int, position_after: int) -> Option<BlockCause> {
        if self.killed {
            Some(BlockCause::Killed)
        } else if self.breaker_tripped {
            Some(BlockCause::BreakerTripped)
        } else if self.daily_loss >= self.limits.max_daily_loss_lamports {
            Some(BlockCause::DailyLoss)
        } else if notional > self.limits.max_notional_lamports {
            Some(BlockCause::Notional)
        } else if position_after > self.limits.max_position_lamports {
            Some(BlockCause::Position)
        } else {
            None
        }
    }

    /// Whether an order passes.
    pub open spec fn admits(self, notional: int, position_after: int) -> bool {
        self.block_cause(notional, position_after) is None
    }

    /// The text that names the cause of a block.
    pub open spec fn block_message(
        self,
        cause: BlockCause,
        notional: nat,
        position_after: nat,
    ) -> Seq<char> {
        match cause {
            BlockCause::Killed => "blocked: kill-switch engaged"@,
            BlockCause::BreakerTripped => "blocked: circuit breaker tripped after "@ + decimal(
                self.consecutive_reverts,
            ) + " consecutive reverts"@,
            BlockCause::DailyLoss => "blocked: daily loss "@ + decimal(self.daily_loss)
                + " reached max_daily_loss "@ + decimal(
                self.limits.max_daily_loss_lamports as nat,
            ),
            BlockCause::Notional => over_notional_message(
                notional,
                self.limits.max_notional_lamports as nat,
            ),
            BlockCause::Position => over_position_message(
                position_after,
                self.limits.max_position_lamports as nat,
            ),
        }
    }

    /// The state after one event.
    pub open spec fn after(self, event: RiskEvent) -> RiskState {
        match event {
            RiskEvent::Fill(pnl) => RiskState {
                consecutive_reverts: 0,
                daily_loss: saturated(self.daily_loss + loss_of(pnl), u64::MAX as nat),
                ..self
            },
            RiskEvent::Revert => {
                let streak = saturated(self.consecutive_reverts + 1, u32::MAX as nat);
                RiskState {
                    consecutive_reverts: streak,
                    breaker_tripped: self.breaker_tripped || streak
                        >= self.limits.max_consecutive_reverts,
                    ..self
                }
            },
            RiskEvent::Kill => RiskState { killed: true, ..self },
            RiskEvent::Reset => armed(self.limits),
        }
    }

    /// The state after a row of events.
    pub open spec fn after_all(self, events: Seq<RiskEvent>) -> RiskState
        decreases events.len(),
    {
        if events.len() == 0 {
            self
        } else {
            self.after_all(events.drop_last()).after(events.last())
        }
    }

    /// A running streak of reverts is below the threshold unless the breaker has
    /// tripped, and both counters fit their types.
    pub open spec fn well_formed(self) -> bool {
        &&& self.consecutive_reverts <= u32::MAX
        &&& self.daily_loss <= u64::MAX
        &&& self.breaker_tripped || self.consecutive_reverts == 0 || self.consecutive_reverts
            < self.limits.max_consecutive_reverts
    }
}

/// `n` held to at most `limit`.
pub open spec fn saturated(n: nat, limit: nat) -> nat {
    if n > limit {
        limit
    } else {
        n
    }
}

/// The lamports that a realized PnL loses: its size where it is negative.
pub open spec fn loss_of(pnl: i64) -> nat {
    if pnl < 0 {
        (-pnl) as nat
    } else {
        0
    }
}

/// The message of an order above the notional cap.
pub open spec fn over_notional_message(notional: nat, cap: nat) -> Seq<char> {
    "blocked: notional "@ + decimal(notional) + " exceeds max_notional "@ + decimal(cap)
}

/// The message of an order whose position is above the position cap.
pub open spec fn over_position_message(position: nat, cap: nat) -> Seq<char> {
    "blocked: position_after "@ + decimal(position) + " exceeds max_position "@ + decimal(cap)
}

/// The message of an order above the notional cap.
pub fn over_notional(notional: u64, cap: u64) -> (message: String)
    ensures
        message@ == over_notional_message(notional as nat, cap as nat),
{
    String::from_str("blocked: notional ").concat(decimal_text(notional).as_str()).concat(
        " exceeds max_notional ",
    ).concat(decimal_text(cap).as_str())
}

/// The message of an order whose position is above the position cap.
pub fn over_position(position: u64, cap: u64) -> (message: String)
    ensures
        message@ == over_position_message(position as nat, cap as nat),
{
    String::from_str("blocked: position_after ").concat(decimal_text(position).as_str()).concat(
        " exceeds max_position ",
    ).concat(decimal_text(cap).as_str())
}

/// Stateful risk gate: fixed limits plus the runtime state of the kill-switch,
/// the circuit breaker, the revert streak and the daily loss.
#[derive(Debug)]
pub struct RiskGate {
    limits: RiskLimits,
    killed: bool,
    breaker_tripped: bool,
    consecutive_reverts: u32,
    daily_loss_lamports: u64,
}

impl View for RiskGate {
    type V = RiskState;

    closed spec fn view(&self) -> RiskState {
        RiskState {
            limits: self.limits,
            killed: self.killed,
            breaker_tripped: self.breaker_tripped,
            consecutive_reverts: self.consecutive_reverts as nat,
            daily_loss: self.daily_loss_lamports as nat,
        }
    }
}

impl Clone for RiskGate {
    fn clone(&self) -> (copy: Self)
        ensures
            copy@ == self@,
    {
        proof {
            use_type_invariant(self);
        }
        RiskGate {
            limits: self.limits,
            killed: self.killed,
            breaker_tripped: self.breaker_tripped,
            consecutive_reverts: self.consecutive_reverts,
            daily_loss_lamports: self.daily_loss_lamports,
        }
    }
}

impl RiskGate {
    /// Every gate is well formed at all times.
    #[verifier::type_invariant]
    spec fn gate_well_formed(self) -> bool {
        self@.well_formed()
    }

    /// Create a gate from the given limits in a clean, armed state.
    pub fn new(limits: RiskLimits) -> (gate: Self)
        ensures
            gate@ == armed(limits),
    {
        RiskGate {
            limits,
            killed: false,
            breaker_tripped: false,
            consecutive_reverts: 0,
            daily_loss_lamports: 0,
        }
    }

    /// Decide whether an order may proceed. `notional_lamports` is the size of
    /// the order and `position_after_lamports` the absolute open position that
    /// results if it fills. Both caps are inclusive. A block names its cause.
    pub fn check_order(&self, notional_lamports: u64, position_after_lamports: u64) -> (result:
        Result<(), String>)
        ensures
            match self@.block_cause(notional_lamports as int, position_after_lamports as int) {
                None => result is Ok,
                Some(cause) => result matches Err(message) && message@ == self@.block_message(
                    cause,
                    notional_lamports as nat,
                    position_after_lamports as nat,
                ),
            },
    {
        if self.killed {
            return Err(String::from_str("blocked: kill-switch engaged"));
        }
        if self.breaker_tripped {
            return Err(
                String::from_str("blocked: circuit breaker tripped after ").concat(
                    decimal_text(self.consecutive_reverts as u64).as_str(),
                ).concat(" consecutive reverts"),
            );
        }
        if self.daily_loss_lamports >= self.limits.max_daily_loss_lamports {
            return Err(
                String::from_str("blocked: daily loss ").concat(
                    decimal_text(self.daily_loss_lamports).as_str(),
                ).concat(" reached max_daily_loss ").concat(
                    decimal_text(self.limits.max_daily_loss_lamports).as_str(),
                ),
            );
        }
        if notional_lamports > self.limits.max_notional_lamports {
            return Err(over_notional(notional_lamports, self.limits.max_notional_lamports));
        }
        if position_after_lamports > self.limits.max_position_lamports {
            return Err(over_position(position_after_lamports, self.limits.max_position_lamports));
        }
        Ok(())
    }

    /// Record a fill. A negative realized PnL adds its size to the daily loss,
    /// saturating. A fill ends the revert streak; it does not release a tripped
    /// breaker.
    pub fn record_fill(&mut self, realized_pnl_lamports: i64)
        ensures
            final(self)@ == old(self)@.after(RiskEvent::Fill(realized_pnl_lamports)),
    {
        proof {
            use_type_invariant(&*self);
        }
        self.consecutive_reverts = 0;
        if realized_pnl_lamports < 0 {
            let loss: u64 = (-(realized_pnl_lamports as i128)) as u64;
            self.daily_loss_lamports = self.daily_loss_lamports.saturating_add(loss);
        }
    }

    /// Record a reverted or failed transaction. Reaching the threshold trips the
    /// circuit breaker, which then blocks every order until `reset`.
    pub fn record_revert(&mut self)
        ensures
            final(self)@ == old(self)@.after(RiskEvent::Revert),
    {
        proof {
            use_type_invariant(&*self);
        }
        let streak: u32 = self.consecutive_reverts.saturating_add(1);
        if streak >= self.limits.max_consecutive_reverts {
            self.breaker_tripped = true;
        }
        self.consecutive_reverts = streak;
    }

    /// Engage the kill-switch: every order is blocked until `reset`.
    pub fn kill(&mut self)
        ensures
            final(self)@ == old(self)@.after(RiskEvent::Kill),
    {
        proof {
            use_type_invariant(&*self);
        }
        self.killed = true;
    }

    /// Whether the kill-switch is engaged.
    pub fn is_killed(&self) -> (killed: bool)
        ensures
            killed == self@.killed,
    {
        self.killed
    }

    /// Whether the circuit breaker is tripped.
    pub fn is_breaker_tripped(&self) -> (tripped: bool)
        ensures
            tripped == self@.breaker_tripped,
    {
        self.breaker_tripped
    }

    /// The running streak of reverts.
    pub fn consecutive_reverts(&self) -> (streak: u32)
        ensures
            streak == self@.consecutive_reverts,
    {
        self.consecutive_reverts
    }

    /// The accumulated realized loss of the day, in lamports.
    pub fn daily_loss_lamports(&self) -> (loss: u64)
        ensures
            loss == self@.daily_loss,
    {
        self.daily_loss_lamports
    }

    /// Clear the runtime state back to armed. The limits stay.
    pub fn reset(&mut self)
        ensures
            final(self)@ == old(self)@.after(RiskEvent::Reset),
    {
        proof {
            use_type_invariant(&*self);
        }
        self.consecutive_reverts = 0;
        self.killed = false;
        self.breaker_tripped = false;
        self.daily_loss_lamports = 0;
    }
}

/// Whether a row of events holds a reset.
pub open spec fn has_reset(events: Seq<RiskEvent>) -> bool {
    exists|i: int| 0 <= i < events.len() && #[trigger] events[i] is Reset
}

/// The number of reverts since the last fill or reset.
pub open spec fn revert_streak(events: Seq<RiskEvent>) -> nat
    decreases events.len(),
{
    if events.len() == 0 {
        0
    } else {
        match events.last() {
            RiskEvent::Fill(_) => 0,
            RiskEvent::Reset => 0,
            RiskEvent::Kill => revert_streak(events.drop_last()),
            RiskEvent::Revert => revert_streak(events.drop_last()) + 1,
        }
    }
}

/// The lamports lost by fills since the last reset.
pub open spec fn losses(events: Seq<RiskEvent>) -> nat
    decreases events.len(),
{
    if events.len() == 0 {
        0
    } else {
        match events.last() {
            RiskEvent::Fill(pnl) => losses(events.drop_last()) + loss_of(pnl),
            RiskEvent::Reset => 0,
            _ => losses(events.drop_last()),
        }
    }
}

/// Every state that a gate can reach is well formed, and no event changes the limits.
pub proof fn law_reachable_states_are_well_formed(limits: RiskLimits, events: Seq<RiskEvent>)
    ensures
        armed(limits).after_all(events).well_formed(),
        armed(limits).after_all(events).limits == limits,
    decreases events.len(),
{
    if events.len() > 0 {
        law_reachable_states_are_well_formed(limits, events.drop_last());
    }
}

proof fn lemma_no_reset_before(events: Seq<RiskEvent>)
    requires
        events.len() > 0,
        !has_reset(events),
    ensures
        !(events.last() is Reset),
        !has_reset(events.drop_last()),
{
    assert(!(events[events.len() - 1] is Reset));
    assert forall|i: int| 0 <= i < events.drop_last().len() implies !(
    #[trigger] events.drop_last()[i] is Reset) by {
        assert(!(events[i] is Reset));
    }
}

/// Once killed, a gate stays killed and blocks every order, whatever happens
/// short of a reset.
pub proof fn law_kill_blocks_until_reset(
    state: RiskState,
    events: Seq<RiskEvent>,
    notional: u64,
    position_after: u64,
)
    requires
        state.killed,
        !has_reset(events),
    ensures
        state.after_all(events).killed,
        !state.after_all(events).admits(notional as int, position_after as int),
    decreases events.len(),
{
    if events.len() > 0 {
        lemma_no_reset_before(events);
        law_kill_blocks_until_reset(state, events.drop_last(), notional, position_after);
    }
}

/// Once tripped, the circuit breaker stays tripped and blocks every order,
/// whatever happens short of a reset. A fill does not release it.
pub proof fn law_tripped_breaker_blocks_until_reset(
    state: RiskState,
    events: Seq<RiskEvent>,
    notional: u64,
    position_after: u64,
)
    requires
        state.breaker_tripped,
        !has_reset(events),
    ensures
        state.after_all(events).breaker_tripped,
        !state.after_all(events).admits(notional as int, position_after as int),
    decreases events.len(),
{
    if events.len() > 0 {
        lemma_no_reset_before(events);
        law_tripped_breaker_blocks_until_reset(state, events.drop_last(), notional, position_after);
    }
}

/// Short of a reset the daily loss never shrinks, and once it has reached its
/// cap every order is blocked.
pub proof fn law_daily_loss_blocks_until_reset(
    state: RiskState,
    events: Seq<RiskEvent>,
    notional: u64,
    position_after: u64,
)
    requires
        state.well_formed(),
        !has_reset(events),
    ensures
        state.after_all(events).daily_loss >= state.daily_loss,
        state.after_all(events).limits == state.limits,
        state.after_all(events).well_formed(),
        state.daily_loss >= state.limits.max_daily_loss_lamports ==> !state.after_all(
            events,
        ).admits(notional as int, position_after as int),
    decreases events.len(),
{
    if events.len() > 0 {
        lemma_no_reset_before(events);
        law_daily_loss_blocks_until_reset(state, events.drop_last(), notional, position_after);
    }
}

/// The daily loss is the sum of the losses since the last reset, saturated; a
/// profit adds nothing.
pub proof fn law_daily_loss_is_the_sum_of_losses(limits: RiskLimits, events: Seq<RiskEvent>)
    ensures
        armed(limits).after_all(events).daily_loss == saturated(losses(events), u64::MAX as nat),
    decreases events.len(),
{
    if events.len() > 0 {
        law_daily_loss_is_the_sum_of_losses(limits, events.drop_last());
    }
}

/// The streak is the number of reverts since the last fill or reset, saturated.
pub proof fn law_streak_counts_reverts_since_the_last_fill(
    limits: RiskLimits,
    events: Seq<RiskEvent>,
)
    ensures
        armed(limits).after_all(events).consecutive_reverts == saturated(
            revert_streak(events),
            u32::MAX as nat,
        ),
    decreases events.len(),
{
    if events.len() > 0 {
        law_streak_counts_reverts_since_the_last_fill(limits, events.drop_last());
    }
}

/// As many reverts in a row as the threshold trip the breaker, from any state.
pub proof fn law_reverts_in_a_row_trip_the_breaker(state: RiskState, events: Seq<RiskEvent>)
    requires
        state.well_formed(),
        events.len() > 0,
        events.len() >= state.limits.max_consecutive_reverts,
        forall|i: int| 0 <= i < events.len() ==> #[trigger] events[i] is Revert,
    ensures
        state.after_all(events).breaker_tripped,
{
    lemma_reverts_add_up(state, events);
}

proof fn lemma_reverts_add_up(state: RiskState, events: Seq<RiskEvent>)
    requires
        state.well_formed(),
        forall|i: int| 0 <= i < events.len() ==> #[trigger] events[i] is Revert,
    ensures
        state.after_all(events).consecutive_reverts == saturated(
            state.consecutive_reverts + events.len(),
            u32::MAX as nat,
        ),
        state.after_all(events).limits == state.limits,
        events.len() > 0 && events.len() >= state.limits.max_consecutive_reverts
            ==> state.after_all(events).breaker_tripped,
    decreases events.len(),
{
    if events.len() > 0 {
        assert forall|i: int| 0 <= i < events.drop_last().len() implies
            #[trigger] events.drop_last()[i] is Revert by {
            assert(events[i] is Revert);
        }
        assert(events[events.len() - 1] is Revert);
        lemma_reverts_add_up(state, events.drop_last());
    }
}

/// A gate whose reverts never run up to the threshold without a fill or reset
/// between them has not tripped.
pub proof fn law_breaker_needs_a_full_streak(limits: RiskLimits, events: Seq<RiskEvent>)
    requires
        forall|k: int|
            0 <= k <= events.len() ==> #[trigger] revert_streak(events.take(k)) == 0
                || revert_streak(events.take(k)) < limits.max_consecutive_reverts,
    ensures
        !armed(limits).after_all(events).breaker_tripped,
    decreases events.len(),
{
    if events.len() > 0 {
        let earlier = events.drop_last();
        assert forall|k: int| 0 <= k <= earlier.len() implies #[trigger] revert_streak(
            earlier.take(k),
        ) == 0 || revert_streak(earlier.take(k)) < limits.max_consecutive_reverts by {
            assert(earlier.take(k) =~= events.take(k));
        }
        law_breaker_needs_a_full_streak(limits, earlier);
        law_streak_counts_reverts_since_the_last_fill(limits, events);
        law_streak_counts_reverts_since_the_last_fill(limits, earlier);
        law_reachable_states_are_well_formed(limits, earlier);
        assert(events.take(events.len() as int) =~= events);
        assert(revert_streak(events.take(events.len() as int)) == 0 || revert_streak(events)
            < limits.max_consecutive_reverts);
    }
}

/// A reset brings any gate back to the clean state of its limits, where every
/// order within the caps passes unless the daily-loss budget is zero.
pub proof fn law_reset_rearms(state: RiskState, notional: u64, position_after: u64)
    ensures
        state.after(RiskEvent::Reset) == armed(state.limits),
        state.limits.max_daily_loss_lamports > 0 ==> (state.after(RiskEvent::Reset).admits(
            notional as int,
            position_after as int,
        ) <==> notional <= state.limits.max_notional_lamports && position_after
            <= state.limits.max_position_lamports),
{
}

/// An order passes only on an armed gate with loss budget left, and only within
/// both caps.
pub proof fn law_admitted_orders_are_within_every_cap(
    state: RiskState,
    notional: u64,
    position_after: u64,
)
    requires
        state.admits(notional as int, position_after as int),
    ensures
        !state.killed,
        !state.breaker_tripped,
        state.daily_loss < state.limits.max_daily_loss_lamports,
        notional <= state.limits.max_notional_lamports,
        position_after <= state.limits.max_position_lamports,
{
}

/// Where an order passes, a smaller one passes too.
pub proof fn law_smaller_orders_pass_too(
    state: RiskState,
    notional: u64,
    position_after: u64,
    smaller_notional: u64,
    smaller_position: u64,
)
    requires
        state.admits(notional as int, position_after as int),
        smaller_notional <= notional,
        smaller_position <= position_after,
    ensures
        state.admits(smaller_notional as int, smaller_position as int),
{
}

/// An order passes exactly if the kill-switch is off, the breaker has not
/// tripped, the daily loss is below its cap and the order is within both other
/// caps, from any state.
pub proof fn law_orders_pass_exactly_within_the_limits(
    state: RiskState,
    notional: u64,
    position_after: u64,
)
    ensures
        state.admits(notional as int, position_after as int) <==> {
            &&& !state.killed
            &&& !state.breaker_tripped
            &&& state.daily_loss < state.limits.max_daily_loss_lamports
            &&& notional <= state.limits.max_notional_lamports
            &&& position_after <= state.limits.max_position_lamports
        },
{
}

/// A block names a cause that holds, and none that would have been named before
/// it holds: the kill-switch, the breaker, the daily loss, the notional, the
/// position.
pub proof fn law_a_block_names_the_first_cause(
    state: RiskState,
    notional: u64,
    position_after: u64,
)
    ensures
        ({
            let cause = state.block_cause(notional as int, position_after as int);
            let lost = state.daily_loss >= state.limits.max_daily_loss_lamports;
            let large = notional > state.limits.max_notional_lamports;
            let exposed = position_after > state.limits.max_position_lamports;
            &&& cause == Some(BlockCause::Killed) <==> state.killed
            &&& cause == Some(BlockCause::BreakerTripped) <==> !state.killed
                && state.breaker_tripped
            &&& cause == Some(BlockCause::DailyLoss) <==> !state.killed && !state.breaker_tripped
                && lost
            &&& cause == Some(BlockCause::Notional) <==> !state.killed && !state.breaker_tripped
                && !lost && large
            &&& cause == Some(BlockCause::Position) <==> !state.killed && !state.breaker_tripped
                && !lost && !large && exposed
        }),
{
}

/// Every block says that it is one, and those that rest on numbers name them.
pub proof fn law_block_messages_name_their_numbers(
    state: RiskState,
    cause: BlockCause,
    notional: u64,
    position_after: u64,
)
    ensures
        ({
            let message = state.block_message(cause, notional as nat, position_after as nat);
            &&& "blocked: "@.is_prefix_of(message)
            &&& cause is Killed ==> message == "blocked: kill-switch engaged"@
            &&& cause is BreakerTripped ==> message == "blocked: circuit breaker tripped after "@
                + decimal(state.consecutive_reverts) + " consecutive reverts"@
            &&& cause is DailyLoss ==> message == "blocked: daily loss "@ + decimal(
                state.daily_loss,
            ) + " reached max_daily_loss "@ + decimal(
                state.limits.max_daily_loss_lamports as nat,
            )
            &&& cause is Notional ==> message == "blocked: notional "@ + decimal(notional as nat)
                + " exceeds max_notional "@ + decimal(state.limits.max_notional_lamports as nat)
            &&& cause is Position ==> message == "blocked: position_after "@ + decimal(
                position_after as nat,
            ) + " exceeds max_position "@ + decimal(state.limits.max_position_lamports as nat)
            &&& cause is BreakerTripped ==> names(message, decimal(state.consecutive_reverts))
            &&& cause is DailyLoss ==> names(message, decimal(state.daily_loss)) && names(
                message,
                decimal(state.limits.max_daily_loss_lamports as nat),
            )
            &&& cause is Notional ==> names(message, decimal(notional as nat)) && names(
                message,
                decimal(state.limits.max_notional_lamports as nat),
            )
            &&& cause is Position ==> names(message, decimal(position_after as nat)) && names(
                message,
                decimal(state.limits.max_position_lamports as nat),
            )
        }),
{
    reveal_strlit("blocked: ");
    reveal_strlit("blocked: kill-switch engaged");
    reveal_strlit("blocked: circuit breaker tripped after ");
    reveal_strlit(" consecutive reverts");
    reveal_strlit("blocked: daily loss ");
    reveal_strlit(" reached max_daily_loss ");
    reveal_strlit("blocked: notional ");
    reveal_strlit(" exceeds max_notional ");
    reveal_strlit("blocked: position_after ");
    reveal_strlit(" exceeds max_position ");
    let message = state.block_message(cause, notional as nat, position_after as nat);
    assert("blocked: "@ =~= message.subrange(0, "blocked: "@.len() as int));
    match cause {
        BlockCause::Killed => {},
        BlockCause::BreakerTripped => {
            lemma_names(
                "blocked: circuit breaker tripped after "@,
                decimal(state.consecutive_reverts),
                " consecutive reverts"@,
            );
        },
        BlockCause::DailyLoss => {
            lemma_names_two(
                "blocked: daily loss "@,
                decimal(state.daily_loss),
                " reached max_daily_loss "@,
                decimal(state.limits.max_daily_loss_lamports as nat),
            );
        },
        BlockCause::Notional => {
            lemma_names_two(
                "blocked: notional "@,
                decimal(notional as nat),
                " exceeds max_notional "@,
                decimal(state.limits.max_notional_lamports as nat),
            );
        },
        BlockCause::Position => {
            lemma_names_two(
                "blocked: position_after "@,
                decimal(position_after as nat),
                " exceeds max_position "@,
                decimal(state.limits.max_position_lamports as nat),
            );
        },
    }
}

/// Whether a text stands in a message.
pub open spec fn names(message: Seq<char>, text: Seq<char>) -> bool {
    exists|i: int|
        0 <= i <= message.len() - text.len() && #[trigger] message.subrange(i, i + text.len())
            == text
}

proof fn lemma_names(before: Seq<char>, text: Seq<char>, behind: Seq<char>)
    ensures
        names(before + text + behind, text),
{
    let message = before + text + behind;
    let i = before.len() as int;
    assert(message.subrange(i, i + text.len()) =~= text);
}

proof fn lemma_names_two(
    before: Seq<char>,
    first: Seq<char>,
    between: Seq<char>,
    second: Seq<char>,
)
    ensures
        names(before + first + between + second, first),
        names(before + first + between + second, second),
{
    let message = before + first + between + second;
    let i = before.len() as int;
    assert(message.subrange(i, i + first.len()) =~= first);
    let j = (before + first + between).len() as int;
    assert(message.subrange(j, j + second.len()) =~= second);
}

/// A fill that loses adds exactly its loss to the daily loss, held to `u64::MAX`,
/// and one that does not lose adds nothing. It ends the streak, and changes
/// neither the limits nor the breaker nor the kill-switch.
pub proof fn law_a_fill_adds_its_loss(state: RiskState, pnl: i64)
    requires
        state.well_formed(),
    ensures
        ({
            let next = state.after(RiskEvent::Fill(pnl));
            &&& pnl >= 0 ==> next.daily_loss == state.daily_loss
            &&& pnl < 0 ==> next.daily_loss == state.daily_loss - pnl || next.daily_loss == u64::MAX
            &&& pnl < 0 && next.daily_loss == u64::MAX ==> state.daily_loss - pnl >= u64::MAX
            &&& next.consecutive_reverts == 0
            &&& next.breaker_tripped == state.breaker_tripped
            &&& next.killed == state.killed
            &&& next.limits == state.limits
        }),
{
}

/// A revert adds exactly one to the streak, held to `u32::MAX`, and trips the
/// breaker exactly where the streak reaches its threshold. It changes nothing else.
pub proof fn law_a_revert_adds_one_to_the_streak(state: RiskState)
    requires
        state.well_formed(),
    ensures
        ({
            let next = state.after(RiskEvent::Revert);
            &&& state.consecutive_reverts < u32::MAX ==> next.consecutive_reverts
                == state.consecutive_reverts + 1
            &&& state.consecutive_reverts == u32::MAX ==> next.consecutive_reverts == u32::MAX
            &&& next.breaker_tripped <==> state.breaker_tripped || next.consecutive_reverts
                >= state.limits.max_consecutive_reverts
            &&& next.daily_loss == state.daily_loss
            &&& next.killed == state.killed
            &&& next.limits == state.limits
        }),
{
}

/// The kill-switch is engaged by a kill and by nothing else, and a kill changes
/// nothing else.
pub proof fn law_only_a_kill_engages_the_kill_switch(state: RiskState, event: RiskEvent)
    ensures
        ({
            let next = state.after(event);
            &&& event is Kill ==> next.killed && next.breaker_tripped == state.breaker_tripped
                && next.consecutive_reverts == state.consecutive_reverts && next.daily_loss
                == state.daily_loss && next.limits == state.limits
            &&& next.killed && !state.killed ==> event is Kill
            &&& state.killed && !next.killed ==> event is Reset
            &&& state.breaker_tripped && !next.breaker_tripped ==> event is Reset
        }),
{
}

/// A new gate, and one that has been reset, is clean: nothing engaged, nothing
/// tripped, nothing counted, the limits as given.
pub proof fn law_a_clean_gate_has_nothing_against_it(limits: RiskLimits, state: RiskState)
    ensures
        ({
            let new = armed(limits);
            let reset = state.after(RiskEvent::Reset);
            &&& !new.killed && !new.breaker_tripped && new.consecutive_reverts == 0
                && new.daily_loss == 0 && new.limits == limits
            &&& !reset.killed && !reset.breaker_tripped && reset.consecutive_reverts == 0
                && reset.daily_loss == 0 && reset.limits == state.limits
        }),
{
}

/// In which order two fills come does not matter.
pub proof fn law_fills_commute(state: RiskState, first: i64, second: i64)
    requires
        state.well_formed(),
    ensures
        state.after(RiskEvent::Fill(first)).after(RiskEvent::Fill(second)) == state.after(
            RiskEvent::Fill(second),
        ).after(RiskEvent::Fill(first)),
{
}

} // verus!
