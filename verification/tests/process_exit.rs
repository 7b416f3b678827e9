use stellatune_plugins::process_exit::{
    terminate_step, wait_exit_step, TerminateAction, TerminateState, WaitExitAction,
    POLL_INTERVAL_MS,
};

#[test]
fn terminate_of_exited_process_finishes_at_once() {
    assert_eq!(
        terminate_step(TerminateState::Start, 500, true, false),
        (TerminateState::Start, TerminateAction::Finish)
    );
}

#[test]
fn terminate_signals_then_waits_out_grace_then_kills() {
    let (s, a) = terminate_step(TerminateState::Start, 500, false, false);
    assert_eq!(a, TerminateAction::SignalGraceful);
    let (s, a) = terminate_step(s, 500, false, false);
    assert_eq!(a, TerminateAction::StartGrace(500));
    let (s, a) = terminate_step(s, 500, false, false);
    assert_eq!(a, TerminateAction::Sleep(POLL_INTERVAL_MS));
    let (s, a) = terminate_step(s, 500, false, true);
    assert_eq!(a, TerminateAction::Kill);
    assert_eq!(terminate_step(s, 500, false, true).1, TerminateAction::Finish);
}

#[test]
fn terminate_without_grace_kills_after_signal() {
    let (s, _) = terminate_step(TerminateState::Start, 0, false, false);
    assert_eq!(terminate_step(s, 0, false, false), (TerminateState::Killed, TerminateAction::Kill));
}

#[test]
fn terminate_stops_polling_when_process_exits_during_grace() {
    assert_eq!(terminate_step(TerminateState::Waiting, 500, true, false).1, TerminateAction::Finish);
}

#[test]
fn wait_exit_blocks_without_timeout() {
    assert_eq!(wait_exit_step(None, false, false), WaitExitAction::Block);
}

#[test]
fn wait_exit_polls_until_exit_or_deadline() {
    assert_eq!(wait_exit_step(Some(100), false, false), WaitExitAction::Sleep(10));
    assert_eq!(wait_exit_step(Some(100), true, false), WaitExitAction::ReportExit);
    assert_eq!(wait_exit_step(Some(100), false, true), WaitExitAction::ReportRunning);
}
