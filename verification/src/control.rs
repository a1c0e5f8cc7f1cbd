//! The organizer loop's tick protocol: once per second the loop checks for a
//! pending command, then either runs a scan cycle, keeps waiting, or emits
//! the termination sentinel and stops.

use vstd::prelude::*;

verus! {

/// The only control message: request a graceful stop of the organizer loop.
#[derive(Clone, Copy, Debug, PartialEq, Eq, Structural)]
pub enum OrganizationCommand {
    Terminate,
}

/// What the loop does on one tick.
#[derive(Clone, Copy, Debug, PartialEq, Eq, Structural)]
pub enum TickAction {
    /// Emit the sentinel report and stop; no further scan runs.
    EmitSentinel,
    /// Run a full scan cycle, then sleep one second.
    RunScan,
    /// Sleep one second without scanning.
    KeepWaiting,
}

/// The report value that signals the loop has terminated and will send no
/// further reports. Every per-cycle report is non-negative, so the sentinel
/// is distinguished by its sign alone.
pub const TERMINATION_SENTINEL: i8 = -1;

/// The loop's interval bookkeeping between ticks.
#[derive(Clone, Copy, Debug, PartialEq, Eq, Structural)]
pub struct LoopState {
    /// Seconds (= ticks) between two scan cycles; at least 1.
    pub interval_sec: u8,
    /// Ticks counted toward the next scan; a scan runs when the counter
    /// reaches `interval_sec` and resets it to 1.
    pub counter: u8,
}

impl LoopState {
    pub open spec fn wf(self) -> bool {
        1 <= self.interval_sec && 1 <= self.counter <= self.interval_sec
    }
}

/// What one tick decides, given the state and whether a terminate command
/// is pending: the action, and the state for the next tick.
pub open spec fn tick_result(s: LoopState, terminate_pending: bool) -> (TickAction, LoopState) {
    if terminate_pending {
        (TickAction::EmitSentinel, s)
    } else if s.counter == s.interval_sec {
        (TickAction::RunScan, LoopState { counter: 1, ..s })
    } else {
        (TickAction::KeepWaiting, LoopState { counter: (s.counter + 1) as u8, ..s })
    }
}

/// The state a freshly started loop begins with. The counter starts equal
/// to the interval, so the very first tick already runs a scan.
pub fn start_state(interval_sec: u8) -> (s: LoopState)
    requires
        interval_sec >= 1,
    ensures
        s.wf(),
        s.interval_sec == interval_sec,
        s.counter == interval_sec,
{
    LoopState { interval_sec, counter: interval_sec }
}

/// Decide one tick: a pending terminate command always wins; otherwise a
/// scan runs exactly when the counter has reached the interval.
pub fn on_tick(state: &mut LoopState, command: Option<OrganizationCommand>) -> (a: TickAction)
    requires
        old(state).wf(),
    ensures
        final(state).wf(),
        (a, *final(state)) == tick_result(*old(state), command is Some),
{
    match command {
        Some(OrganizationCommand::Terminate) => TickAction::EmitSentinel,
        None => {
            if state.counter == state.interval_sec {
                state.counter = 1;
                TickAction::RunScan
            } else {
                state.counter = state.counter + 1;
                TickAction::KeepWaiting
            }
        },
    }
}

/// Law: a terminate command pending at a tick is honoured at that tick, in
/// whatever state the loop is sleeping: the action is the sentinel emission
/// and no scan runs.
pub proof fn lemma_terminate_wins(s: LoopState)
    requires
        s.wf(),
    ensures
        tick_result(s, true).0 == TickAction::EmitSentinel,
        tick_result(s, true).0 != TickAction::RunScan,
        tick_result(s, true).1 == s,
{
}

/// Law: without a pending command, a freshly started loop scans on its very
/// first tick.
pub proof fn lemma_first_tick_scans(interval_sec: u8)
    requires
        interval_sec >= 1,
    ensures
        tick_result(
            LoopState { interval_sec, counter: interval_sec },
            false,
        ).0 == TickAction::RunScan,
{
}

} // verus!
