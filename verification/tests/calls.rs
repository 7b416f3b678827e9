use stellatune_plugins::calls::{
    config_update_action, mismatch_message, op_state_outcome, op_wait_step, plan_without_planner,
    session_update_outcome, status_error_text, status_to_result, timeout_message, AsyncOpState,
    ConfigUpdateAction, GenerationCallGuard, GenerationGuard, InstanceCallOwner,
    InstanceRegistry, InstanceRuntimeCtx, OpOutcome, OpWaitStep, OwnerCheck, SessionHandles,
    SessionTable,
};
use stellatune_plugins::sdk::{ConfigUpdatePlan, StConfigUpdateMode, StStatus};
use stellatune_plugins::calls::{session_reload_step, SessionReloadAction, SessionReloadEvent};

#[test]
fn status_text_with_and_without_message() {
    assert_eq!(status_error_text("Lyrics op wait", 3, ""), "Lyrics op wait failed (code=3)");
    assert_eq!(status_error_text("Decoder open", -7, "bad"), "Decoder open failed (code=-7): bad");
    assert_eq!(status_error_text("x", i32::MIN, ""), "x failed (code=-2147483648)");
    assert!(status_to_result("x", StStatus { code: 0 }, "ignored").is_ok());
    assert_eq!(status_to_result("x", StStatus { code: 2 }, "m").unwrap_err(), "x failed (code=2): m");
}

#[test]
fn first_caller_owns_the_instance() {
    let mut owner = InstanceCallOwner::new();
    assert_eq!(owner.assert_current_thread(11), OwnerCheck::Owner);
    assert_eq!(owner.assert_current_thread(11), OwnerCheck::Owner);
    assert_eq!(owner.assert_current_thread(22), OwnerCheck::Mismatch { owner: 11, report: true });
    assert_eq!(owner.assert_current_thread(33), OwnerCheck::Mismatch { owner: 11, report: false });
    assert_eq!(owner.assert_current_thread(11), OwnerCheck::Owner);
}

#[test]
fn mismatch_message_names_both_threads() {
    assert_eq!(
        mismatch_message(5, 11, 22),
        "instance 5 called from non-owner thread (owner_token=11, caller_token=22)"
    );
}

#[test]
fn calls_in_flight_are_counted() {
    let mut generation = GenerationGuard::new(4);
    let a = GenerationCallGuard::enter(&mut generation);
    let b = GenerationCallGuard::enter(&mut generation);
    assert_eq!(generation.inflight_calls(), 2);
    a.leave(&mut generation);
    assert_eq!(generation.inflight_calls(), 1);
    b.leave(&mut generation);
    assert_eq!(generation.inflight_calls(), 0);
    assert_eq!(generation.generation(), 4);
}

#[test]
fn runtime_ctx_begins_calls_and_unregisters() {
    let mut ctx = InstanceRuntimeCtx {
        instance_id: 9,
        owner: InstanceCallOwner::new(),
        generation: GenerationGuard::new(1),
    };
    let (check, guard) = ctx.begin_call(7);
    assert_eq!(check, OwnerCheck::Owner);
    assert_eq!(ctx.generation.inflight_calls(), 1);
    guard.leave(&mut ctx.generation);
    let mut instances = InstanceRegistry::new();
    let mut updates = InstanceRegistry::new();
    instances.insert(9);
    instances.insert(10);
    updates.insert(9);
    ctx.unregister(&mut instances, &mut updates);
    assert!(!instances.contains(9));
    assert!(instances.contains(10));
    assert!(!updates.contains(9));
}

#[test]
fn waiting_on_operations() {
    assert_eq!(op_wait_step(AsyncOpState::Ready, 0, 10), OpWaitStep::Settled(AsyncOpState::Ready));
    assert_eq!(op_wait_step(AsyncOpState::Pending, 5, 10), OpWaitStep::WaitMore);
    assert_eq!(op_wait_step(AsyncOpState::Pending, 10, 10), OpWaitStep::TimedOut);
    assert_eq!(timeout_message("lyrics", 20000), "lyrics operation timed out after 20000ms");
}

#[test]
fn settled_operation_outcomes() {
    assert!(matches!(op_state_outcome("lyrics search", AsyncOpState::Ready), OpOutcome::TakeResult));
    match op_state_outcome("lyrics search", AsyncOpState::Cancelled) {
        OpOutcome::Fail(m) => assert_eq!(m, "lyrics search operation cancelled"),
        other => panic!("unexpected: {other:?}"),
    }
    match op_state_outcome("source list_items", AsyncOpState::Pending) {
        OpOutcome::Fail(m) => assert_eq!(m, "source list_items operation still pending"),
        other => panic!("unexpected: {other:?}"),
    }
    match op_state_outcome("lyrics fetch", AsyncOpState::Failed) {
        OpOutcome::TakeStatusThenFail(m) => assert_eq!(m, "lyrics fetch operation failed"),
        other => panic!("unexpected: {other:?}"),
    }
}

#[test]
fn config_update_actions() {
    let p = plan_without_planner();
    assert_eq!(p.mode, StConfigUpdateMode::Recreate);
    assert_eq!(p.reason.as_deref(), Some("plugin does not implement plan_config_update"));
    match config_update_action("lyrics", ConfigUpdatePlan { mode: StConfigUpdateMode::Reject, reason: None }) {
        ConfigUpdateAction::Rejected { reason } => assert_eq!(reason, "lyrics rejected config update"),
        other => panic!("unexpected: {other:?}"),
    }
    match config_update_action("dsp", ConfigUpdatePlan { mode: StConfigUpdateMode::Reject, reason: Some("no".to_string()) }) {
        ConfigUpdateAction::Rejected { reason } => assert_eq!(reason, "no"),
        other => panic!("unexpected: {other:?}"),
    }
    assert!(matches!(
        config_update_action("dsp", ConfigUpdatePlan { mode: StConfigUpdateMode::HotApply, reason: None }),
        ConfigUpdateAction::HotApply
    ));
    match config_update_action("dsp", p) {
        ConfigUpdateAction::RequiresRecreate { reason } => {
            assert_eq!(reason.as_deref(), Some("plugin does not implement plan_config_update"))
        },
        other => panic!("unexpected: {other:?}"),
    }
}

#[test]
fn session_updates_during_reload() {
    assert!(session_update_outcome("decoder session", StConfigUpdateMode::HotApply, None).is_ok());
    assert_eq!(
        session_update_outcome("decoder session", StConfigUpdateMode::Recreate, None).unwrap_err(),
        "decoder session requested recreate for config update"
    );
    assert_eq!(
        session_update_outcome("dsp processor", StConfigUpdateMode::Reject, None).unwrap_err(),
        "dsp processor rejected config update: unknown"
    );
    assert_eq!(
        session_update_outcome("lyrics provider", StConfigUpdateMode::Reject, Some("x".to_string())).unwrap_err(),
        "lyrics provider rejected config update: x"
    );
}

#[test]
fn session_handles_start_at_one() {
    let mut h = SessionHandles::new();
    assert_eq!(h.next_handle(), 1);
    assert_eq!(h.next_handle(), 2);
    assert_eq!(h.next_handle(), 3);
}

#[test]
fn session_table_opens_finds_and_closes() {
    let mut t: SessionTable<&str> = SessionTable::new();
    let a = t.open("first");
    let b = t.open("second");
    assert_eq!((a, b), (1, 2));
    assert_eq!(t.get(a, "decoder session"), Ok(&"first"));
    assert_eq!(t.close(a), Some("first"));
    assert_eq!(t.close(a), None);
    assert_eq!(t.get(a, "decoder session"), Err("decoder session `1` not found".to_string()));
    assert_eq!(t.get(9, "dsp processor").err().unwrap(), "dsp processor `9` not found");
    let all = t.take_all();
    assert_eq!(all.into_iter().collect::<Vec<_>>(), vec![(2, "second")]);
    assert!(t.get(b, "encoder session").is_err());
    assert_eq!(t.open("third"), 3);
}

/// Runs a hot reload over sessions whose plans are `plans`, every apply
/// succeeding; returns the steps taken and the result.
fn run_reload(plans: Vec<StConfigUpdateMode>) -> (Vec<String>, Result<(), String>) {
    let count = plans.len();
    let mut steps = Vec::new();
    let mut index = 0;
    let mut event = SessionReloadEvent::Started;
    loop {
        match session_reload_step("decoder session", count, index, event) {
            SessionReloadAction::Finish(result) => return (steps, result),
            SessionReloadAction::PlanSession(i) => {
                steps.push(format!("plan {i}"));
                index = i;
                event = SessionReloadEvent::Planned { mode: plans[i], reason: Some("busy".to_string()) };
            },
            SessionReloadAction::ApplySession(i) => {
                steps.push(format!("apply {i}"));
                index = i;
                event = SessionReloadEvent::Applied;
            },
        }
    }
}

#[test]
fn hot_reload_applies_to_every_session_in_order() {
    let (steps, result) = run_reload(vec![StConfigUpdateMode::HotApply, StConfigUpdateMode::HotApply]);
    assert_eq!(steps, vec!["plan 0", "apply 0", "plan 1", "apply 1"]);
    assert_eq!(result, Ok(()));
    let (steps, result) = run_reload(Vec::new());
    assert!(steps.is_empty());
    assert_eq!(result, Ok(()));
}

#[test]
fn hot_reload_stops_at_the_first_session_that_will_not_apply() {
    let (steps, result) = run_reload(vec![
        StConfigUpdateMode::HotApply,
        StConfigUpdateMode::Reject,
        StConfigUpdateMode::HotApply,
    ]);
    assert_eq!(steps, vec!["plan 0", "apply 0", "plan 1"]);
    assert_eq!(result, Err("decoder session rejected config update: busy".to_string()));
    let (_, result) = run_reload(vec![StConfigUpdateMode::Recreate]);
    assert_eq!(result, Err("decoder session requested recreate for config update".to_string()));
    match session_reload_step("decoder session", 2, 0, SessionReloadEvent::Failed("trap".to_string())) {
        SessionReloadAction::Finish(result) => assert_eq!(result, Err("trap".to_string())),
        other => panic!("unexpected: {other:?}"),
    }
}

#[test]
fn sessions_survive_a_reload_only_in_place() {
    let mut t: SessionTable<&str> = SessionTable::new();
    let a = t.open("first");
    t.after_reload(false, false);
    assert_eq!(t.get(a, "decoder session"), Ok(&"first"));
    t.after_reload(true, false);
    assert!(t.get(a, "decoder session").is_err());
    let b = t.open("second");
    t.after_reload(false, true);
    assert!(t.get(b, "decoder session").is_err());
}
