use stellatune_plugins::sdk::{
    decision_from_plan, mode_to_status, mode_to_status_v2, plan_from_ffi, plan_to_ffi,
    plan_to_ffi_v2, ConfigUpdatable, ConfigUpdatableV2, InstanceUpdateDecision, SdkError,
    SourceOpenResultV2, SourceStreamV2, StConfigUpdateMode, StConfigUpdatePlan, StSeekWhence,
    UpdatePlan, UpdatePlanV2,
};

#[test]
fn plans_cross_to_the_host() {
    let f = plan_to_ffi(UpdatePlan::reject("too big".to_string()));
    assert_eq!(f.mode, StConfigUpdateMode::Reject);
    assert_eq!(f.reason_utf8, "too big");
    let read = plan_from_ffi(f);
    assert_eq!(read.mode, StConfigUpdateMode::Reject);
    assert_eq!(read.reason.as_deref(), Some("too big"));
    assert_eq!(decision_from_plan(&read), InstanceUpdateDecision::Reject);
    let read = plan_from_ffi(plan_to_ffi(UpdatePlan::hot_apply()));
    assert_eq!(read.mode, StConfigUpdateMode::HotApply);
    assert!(read.reason.is_none());
    assert_eq!(decision_from_plan(&read), InstanceUpdateDecision::HotApply);
    let read = plan_from_ffi(plan_to_ffi_v2(UpdatePlanV2::recreate()));
    assert_eq!(decision_from_plan(&read), InstanceUpdateDecision::Recreate);
    let read = plan_from_ffi(StConfigUpdatePlan { mode: StConfigUpdateMode::Reject, reason_utf8: String::new() });
    assert!(read.reason.is_none());
}

#[test]
fn every_plan_is_a_successful_answer() {
    assert_eq!(mode_to_status(&UpdatePlan::reject("x".to_string())).code, 0);
    assert_eq!(mode_to_status(&UpdatePlan::recreate()).code, 0);
    assert_eq!(mode_to_status_v2(&UpdatePlanV2::hot_apply()).code, 0);
}

struct Plain;

impl ConfigUpdatable for Plain {}
impl ConfigUpdatableV2 for Plain {}

#[test]
fn default_config_updates_recreate() {
    let mut p = Plain;
    assert!(matches!(ConfigUpdatable::plan_config_update_json(&p, "{}"), Ok(UpdatePlan::Recreate)));
    let err = ConfigUpdatable::apply_config_update_json(&mut p, "{}").err().expect("unsupported");
    assert_eq!(err.message, "hot config update unsupported");
    assert!(matches!(ConfigUpdatable::export_state_json(&p), Ok(None)));
    assert!(ConfigUpdatable::import_state_json(&mut p, "{}").is_ok());
    assert!(matches!(ConfigUpdatableV2::plan_config_update_json(&p, "{}"), Ok(UpdatePlanV2::Recreate)));
}

struct Bytes;

impl SourceStreamV2 for Bytes {
    fn read(&mut self, out: &mut [u8]) -> Result<usize, SdkError> {
        Ok(out.len())
    }
}

#[test]
fn source_streams_without_seek() {
    let mut s = Bytes;
    assert_eq!(s.seek(0, StSeekWhence::Start).err().expect("no seek").message, "seek unsupported");
    assert_eq!(s.tell().err().expect("no tell").message, "tell unsupported");
    assert_eq!(s.size().err().expect("no size").message, "size unsupported");
    let r = SourceOpenResultV2::new(Bytes).with_track_meta_json("{\"t\":1}".to_string());
    assert_eq!(r.track_meta_json.as_deref(), Some("{\"t\":1}"));
}
