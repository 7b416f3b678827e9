//! The decisions of stopping and awaiting a sidecar process. The caller polls
//! the process and the clock, performs the action each step names, and
//! brings back what it saw.
use vstd::prelude::*;

verus! {

/// How long the caller sleeps between two polls of a process.
pub const POLL_INTERVAL_MS: u32 = 10;

/// Where a termination stands.
#[derive(Debug, Clone, Copy, PartialEq, Eq, Structural)]
pub enum TerminateState {
    /// Nothing done yet.
    Start,
    /// The process was asked to exit.
    Signalled,
    /// Waiting out the grace period.
    Waiting,
    /// The process was killed.
    Killed,
}

/// What the caller does next while terminating a process.
#[derive(Debug, Clone, Copy, PartialEq, Eq, Structural)]
pub enum TerminateAction {
    /// The process is gone: collect its output pump and report success.
    Finish,
    /// Ask the process to exit (close its standard input).
    SignalGraceful,
    /// Start a grace period of this many milliseconds.
    StartGrace(u32),
    /// Sleep this many milliseconds and poll again.
    Sleep(u32),
    /// Kill the process and reap it.
    Kill,
}

/// One step of a termination with a grace period of `grace_ms`, given whether
/// the process has exited and whether the grace period is over.
pub open spec fn terminate_spec(state: TerminateState, grace_ms: u32, exited: bool, grace_over: bool) -> (TerminateState, TerminateAction) {
    match state {
        TerminateState::Start => if exited {
            (TerminateState::Start, TerminateAction::Finish)
        } else {
            (TerminateState::Signalled, TerminateAction::SignalGraceful)
        },
        TerminateState::Signalled => if exited {
            (TerminateState::Signalled, TerminateAction::Finish)
        } else if grace_ms > 0 {
            (TerminateState::Waiting, TerminateAction::StartGrace(grace_ms))
        } else {
            (TerminateState::Killed, TerminateAction::Kill)
        },
        TerminateState::Waiting => if exited {
            (TerminateState::Waiting, TerminateAction::Finish)
        } else if grace_over {
            (TerminateState::Killed, TerminateAction::Kill)
        } else {
            (TerminateState::Waiting, TerminateAction::Sleep(POLL_INTERVAL_MS))
        },
        TerminateState::Killed => (TerminateState::Killed, TerminateAction::Finish),
    }
}

pub fn terminate_step(state: TerminateState, grace_ms: u32, exited: bool, grace_over: bool) -> (r: (TerminateState, TerminateAction))
    ensures
        r == terminate_spec(state, grace_ms, exited, grace_over),
{
    match state {
        TerminateState::Start => if exited {
            (TerminateState::Start, TerminateAction::Finish)
        } else {
            (TerminateState::Signalled, TerminateAction::SignalGraceful)
        },
        TerminateState::Signalled => if exited {
            (TerminateState::Signalled, TerminateAction::Finish)
        } else if grace_ms > 0 {
            (TerminateState::Waiting, TerminateAction::StartGrace(grace_ms))
        } else {
            (TerminateState::Killed, TerminateAction::Kill)
        },
        TerminateState::Waiting => if exited {
            (TerminateState::Waiting, TerminateAction::Finish)
        } else if grace_over {
            (TerminateState::Killed, TerminateAction::Kill)
        } else {
            (TerminateState::Waiting, TerminateAction::Sleep(POLL_INTERVAL_MS))
        },
        TerminateState::Killed => (TerminateState::Killed, TerminateAction::Finish),
    }
}

/// A process that has exited is never signalled or killed, and a kill comes
/// only once the grace period is over (or where there is none), after the
/// process was asked to exit.
pub proof fn law_terminate_kills_last(state: TerminateState, grace_ms: u32, exited: bool, grace_over: bool)
    ensures
        exited ==> terminate_spec(state, grace_ms, exited, grace_over).1 == TerminateAction::Finish,
        terminate_spec(state, grace_ms, exited, grace_over).1 == TerminateAction::Kill ==> !exited && (
        (state == TerminateState::Signalled && grace_ms == 0) || (state == TerminateState::Waiting
            && grace_over)),
        terminate_spec(state, grace_ms, exited, grace_over).1 == TerminateAction::SignalGraceful
            ==> state == TerminateState::Start,
{
}

/// A termination ends within three steps once the grace period is over:
/// from any state, polling a process that keeps running reaches `Finish`.
pub proof fn law_terminate_ends_after_grace(state: TerminateState, grace_ms: u32)
    ensures
        ({
            let (s1, a1) = terminate_spec(state, grace_ms, false, true);
            let (s2, a2) = terminate_spec(s1, grace_ms, false, true);
            let (s3, a3) = terminate_spec(s2, grace_ms, false, true);
            a1 == TerminateAction::Finish || a2 == TerminateAction::Finish || a3
                == TerminateAction::Finish || terminate_spec(s3, grace_ms, false, true).1
                == TerminateAction::Finish
        }),
{
}

/// What the caller does next while awaiting a process's exit.
#[derive(Debug, Clone, Copy, PartialEq, Eq, Structural)]
pub enum WaitExitAction {
    /// Block until the process exits and report its code.
    Block,
    /// The process exited: report its code.
    ReportExit,
    /// The time ran out: report that it still runs.
    ReportRunning,
    /// Sleep this many milliseconds and poll again.
    Sleep(u32),
}

/// One step of awaiting an exit: with no limit the caller blocks; with one,
/// it polls until the process exits or the time runs out.
pub open spec fn wait_exit_spec(timeout_ms: Option<u32>, exited: bool, deadline_passed: bool) -> WaitExitAction {
    match timeout_ms {
        None => WaitExitAction::Block,
        Some(_) => if exited {
            WaitExitAction::ReportExit
        } else if deadline_passed {
            WaitExitAction::ReportRunning
        } else {
            WaitExitAction::Sleep(POLL_INTERVAL_MS)
        },
    }
}

pub fn wait_exit_step(timeout_ms: Option<u32>, exited: bool, deadline_passed: bool) -> (a: WaitExitAction)
    ensures
        a == wait_exit_spec(timeout_ms, exited, deadline_passed),
{
    match timeout_ms {
        None => WaitExitAction::Block,
        Some(_) => if exited {
            WaitExitAction::ReportExit
        } else if deadline_passed {
            WaitExitAction::ReportRunning
        } else {
            WaitExitAction::Sleep(POLL_INTERVAL_MS)
        },
    }
}

} // verus!
