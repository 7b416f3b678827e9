use stellatune_plugins::sidecar::{
    SidecarLaunchScope, SidecarLaunchSpec, SidecarTransportKind, SidecarTransportOption,
};
use stellatune_plugins::sidecar_state::{
    launch_signature, lock_timeout_message, shares_process, signature_env, LockAttempt, PackageSidecarRegistry, ProcessAcquire,
    ProcessRegistered, ProcessRelease, SidecarLockKey, SidecarProcessKey, SidecarProcessRef,
    SidecarState,
};

/// A host whose processes and channels do nothing but answer as the tests
/// expect; the library keeps the books.
struct Harness {
    registry: PackageSidecarRegistry,
    launches: usize,
    channels: Vec<(u32, SidecarTransportKind)>,
}

fn signature(spec: &SidecarLaunchSpec) -> String {
    let env = signature_env(spec.env.clone());
    format!(
        "scope={:?};exe={};args={:?};env={:?}",
        spec.scope, spec.executable, spec.args, env
    )
}

impl Harness {
    fn new() -> Self {
        Harness { registry: PackageSidecarRegistry::new(), launches: 0, channels: Vec::new() }
    }

    fn launch(&mut self, state: &mut SidecarState, spec: &SidecarLaunchSpec) -> u32 {
        let process = match spec.scope {
            SidecarLaunchScope::Package => {
                let key = SidecarProcessKey {
                    plugin_id: state.plugin_id().to_string(),
                    signature: signature(spec),
                };
                if self.registry.acquire_process(&key) == ProcessAcquire::Launch {
                    self.launches += 1;
                    assert_eq!(self.registry.register_launched(key.clone_key()), ProcessRegistered::Inserted);
                }
                SidecarProcessRef::Shared(key)
            },
            SidecarLaunchScope::Instance => {
                self.launches += 1;
                SidecarProcessRef::Instance
            },
        };
        state.add_process(process)
    }

    fn drop_process(&mut self, state: &mut SidecarState, rep: u32) {
        if let Ok(SidecarProcessRef::Shared(key)) = state.take_process(rep) {
            let _ = self.registry.release_process(&key);
        }
    }

    fn open_channel(&mut self, state: &mut SidecarState, rep: u32, kind: SidecarTransportKind) -> Result<u32, String> {
        state.process(rep)?;
        let ch = state.add_channel();
        self.channels.push((ch, kind));
        Ok(ch)
    }

    fn transport(&self, state: &SidecarState, ch: u32) -> Result<SidecarTransportKind, String> {
        state.check_channel(ch)?;
        Ok(self.channels.iter().find(|(r, _)| *r == ch).map(|(_, k)| *k).unwrap())
    }

    fn lock(&mut self, state: &mut SidecarState, name: &str, timeout_ms: Option<u32>) -> Result<u32, String> {
        match self.registry.acquire_lock(state.plugin_id(), name)? {
            LockAttempt::Acquired(key) => Ok(state.add_lock(key)),
            LockAttempt::Busy(key) => {
                // nobody else runs here, so the lock never comes free
                let _ = key;
                Err(lock_timeout_message(name.trim(), timeout_ms.unwrap_or(0)))
            },
        }
    }

    fn unlock(&mut self, state: &mut SidecarState, rep: u32) -> Result<(), String> {
        let key: SidecarLockKey = state.take_lock(rep)?;
        self.registry.release_lock(&key);
        Ok(())
    }
}

trait CloneKey {
    fn clone_key(&self) -> SidecarProcessKey;
}

impl CloneKey for SidecarProcessKey {
    fn clone_key(&self) -> SidecarProcessKey {
        SidecarProcessKey { plugin_id: self.plugin_id.clone(), signature: self.signature.clone() }
    }
}

fn package_spec(args: Vec<String>, env: Vec<(String, String)>) -> SidecarLaunchSpec {
    SidecarLaunchSpec {
        scope: SidecarLaunchScope::Package,
        executable: "demo.exe".to_string(),
        args,
        preferred_control: Vec::new(),
        preferred_data: Vec::new(),
        env,
    }
}

fn fake_read(max_bytes: u32) -> Vec<u8> {
    vec![7; max_bytes.min(4) as usize]
}

fn launch_and_io_path_works_body() {
    let mut h = Harness::new();
    let mut state = SidecarState::new("dev.stellatune.test".to_string());
    let process_rep = h.launch(&mut state, &package_spec(Vec::new(), Vec::new()));
    let channel_rep = h
        .open_channel(&mut state, process_rep, SidecarTransportKind::Stdio)
        .expect("open control");
    assert_eq!(h.transport(&state, channel_rep).expect("transport"), SidecarTransportKind::Stdio);
    assert_eq!(state.check_channel(channel_rep).map(|_| [1u8, 2, 3].len() as u32).expect("write"), 3);
    assert_eq!(state.check_channel(channel_rep).map(|_| fake_read(8)).expect("read"), vec![7, 7, 7, 7]);
    state.check_channel(channel_rep).expect("close");
    assert_eq!(state.process(process_rep).map(|_| Some(0)).expect("wait"), Some(0));
    match state.take_process(process_rep).expect("terminate") {
        SidecarProcessRef::Shared(key) => {
            assert_eq!(h.registry.release_process(&key), ProcessRelease::Terminate);
        },
        SidecarProcessRef::Instance => panic!("package scope is shared"),
    }
}

#[test]
fn sidecar_state_launch_and_io_path_works() {
    launch_and_io_path_works_body();
}

#[test]
fn tests_launch_and_io_path_works() {
    launch_and_io_path_works_body();
}

fn data_channel_transport_follows_preferred_kind_body() {
    let kinds = [
        SidecarTransportKind::Stdio,
        SidecarTransportKind::NamedPipe,
        SidecarTransportKind::UnixSocket,
        SidecarTransportKind::LoopbackTcp,
        SidecarTransportKind::SharedMemoryRing,
    ];
    for kind in kinds {
        let mut h = Harness::new();
        let mut state = SidecarState::new("dev.stellatune.test".to_string());
        let process_rep = h.launch(&mut state, &package_spec(Vec::new(), Vec::new()));
        let preferred = [SidecarTransportOption { kind, priority: 1, max_frame_bytes: None }];
        let chosen = preferred.first().map(|o| o.kind).unwrap_or(SidecarTransportKind::LoopbackTcp);
        let channel_rep = h.open_channel(&mut state, process_rep, chosen).expect("open data");
        assert_eq!(h.transport(&state, channel_rep).expect("transport"), kind);
    }
}

#[test]
fn sidecar_state_data_channel_transport_follows_preferred_kind() {
    data_channel_transport_follows_preferred_kind_body();
}

#[test]
fn tests_data_channel_transport_follows_preferred_kind() {
    data_channel_transport_follows_preferred_kind_body();
}

fn missing_handles_return_error_body() {
    let mut h = Harness::new();
    let mut state = SidecarState::new("dev.stellatune.test".to_string());
    let error = h
        .open_channel(&mut state, 999, SidecarTransportKind::Stdio)
        .expect_err("missing process should fail");
    assert!(error.contains("not found"));
    let error = state.check_channel(999).map(|_| fake_read(16)).expect_err("missing channel should fail");
    assert!(error.contains("not found"));
}

#[test]
fn sidecar_state_missing_handles_return_error() {
    missing_handles_return_error_body();
}

#[test]
fn tests_missing_handles_return_error() {
    missing_handles_return_error_body();
}

#[test]
fn share_sidecar_process_within_same_plugin() {
    let mut h = Harness::new();
    let mut first = SidecarState::new("dev.stellatune.shared".to_string());
    let mut second = SidecarState::new("dev.stellatune.shared".to_string());
    let spec = package_spec(
        vec!["--api".to_string()],
        vec![("TOKEN".to_string(), "abc".to_string())],
    );
    let first_rep = h.launch(&mut first, &spec);
    let second_rep = h.launch(&mut second, &spec);
    assert_eq!(h.launches, 1);
    h.drop_process(&mut first, first_rep);
    assert_eq!(h.launches, 1);
    h.drop_process(&mut second, second_rep);
}

#[test]
fn instance_scope_does_not_share_process() {
    let mut h = Harness::new();
    let mut first = SidecarState::new("dev.stellatune.instance".to_string());
    let mut second = SidecarState::new("dev.stellatune.instance".to_string());
    let mut spec = package_spec(vec!["--api".to_string()], Vec::new());
    spec.scope = SidecarLaunchScope::Instance;
    let first_rep = h.launch(&mut first, &spec);
    let second_rep = h.launch(&mut second, &spec);
    assert_eq!(h.launches, 2);
    h.drop_process(&mut first, first_rep);
    h.drop_process(&mut second, second_rep);
}

#[test]
fn lock_is_serialized_per_plugin_and_name() {
    let mut h = Harness::new();
    let mut first = SidecarState::new("dev.stellatune.shared-lock".to_string());
    let mut second = SidecarState::new("dev.stellatune.shared-lock".to_string());
    let first_lock = h.lock(&mut first, "asio-control", Some(100)).expect("first lock");
    let error = h
        .lock(&mut second, "asio-control", Some(20))
        .expect_err("second lock should timeout while first lock is held");
    assert!(error.contains("timed out"));
    h.unlock(&mut first, first_lock).expect("first unlock");
    let second_lock = h.lock(&mut second, "asio-control", Some(100)).expect("second lock after release");
    h.unlock(&mut second, second_lock).expect("second unlock");
}

#[test]
fn lock_name_blank_is_refused() {
    let mut registry = PackageSidecarRegistry::new();
    let err = registry.acquire_lock("p", "   ").err().expect("blank name");
    assert_eq!(err, "sidecar lock name is empty");
}

#[test]
fn lock_timeout_message_names_lock_and_time() {
    assert_eq!(lock_timeout_message("asio", 20), "sidecar lock `asio` timed out after 20ms");
}

#[test]
fn shared_process_kept_alive_while_plugin_active() {
    let mut registry = PackageSidecarRegistry::new();
    registry.plugin_activated(" p ");
    let key = SidecarProcessKey { plugin_id: "p".to_string(), signature: "s".to_string() };
    assert_eq!(registry.acquire_process(&key), ProcessAcquire::Launch);
    assert_eq!(
        registry.register_launched(SidecarProcessKey { plugin_id: "p".to_string(), signature: "s".to_string() }),
        ProcessRegistered::Inserted
    );
    assert_eq!(registry.release_process(&key), ProcessRelease::KeptAlive);
    assert!(registry.check_process(&key).is_ok());
    let removed = registry.plugin_deactivated("p");
    assert_eq!(removed.len(), 1);
    assert_eq!(removed[0].signature, "s");
    let err = registry.check_process(&key).expect_err("gone");
    assert_eq!(err, "shared sidecar process not found for plugin `p`");
    assert_eq!(registry.release_process(&key), ProcessRelease::Missing);
}

#[test]
fn plugin_deactivation_keeps_processes_while_references_remain() {
    let mut registry = PackageSidecarRegistry::new();
    registry.plugin_activated("p");
    registry.plugin_activated("p");
    let key = SidecarProcessKey { plugin_id: "p".to_string(), signature: "s".to_string() };
    registry.register_launched(SidecarProcessKey { plugin_id: "p".to_string(), signature: "s".to_string() });
    assert!(registry.plugin_deactivated("p").is_empty());
    assert!(registry.is_plugin_active(&"p".to_string()));
    assert_eq!(registry.plugin_deactivated("p").len(), 1);
    assert!(!registry.is_plugin_active(&"p".to_string()));
    assert!(registry.check_process(&key).is_err());
}

#[test]
fn handles_count_up_from_one() {
    let mut state = SidecarState::new("p".to_string());
    assert_eq!(state.add_channel(), 1);
    assert_eq!(state.add_channel(), 2);
    assert!(state.remove_channel(1));
    assert!(!state.remove_channel(1));
    assert_eq!(state.take_lock(5).expect_err("no guard"), "sidecar lock guard `5` not found");
    assert_eq!(state.take_process(7).expect_err("no process"), "sidecar process handle `7` not found");
}

#[test]
fn signature_env_orders_by_name_then_value() {
    let env = vec![
        ("B".to_string(), "1".to_string()),
        ("A".to_string(), "2".to_string()),
        ("A".to_string(), "1".to_string()),
    ];
    let sorted = signature_env(env);
    assert_eq!(
        sorted,
        vec![
            ("A".to_string(), "1".to_string()),
            ("A".to_string(), "2".to_string()),
            ("B".to_string(), "1".to_string()),
        ]
    );
}

#[test]
fn launch_signature_lists_the_launch_with_its_environment_sorted() {
    let control = SidecarTransportOption {
        kind: SidecarTransportKind::Stdio,
        priority: 10,
        max_frame_bytes: Some(4096),
    };
    let data = SidecarTransportOption {
        kind: SidecarTransportKind::SharedMemoryRing,
        priority: 3,
        max_frame_bytes: None,
    };
    let spec = SidecarLaunchSpec {
        scope: SidecarLaunchScope::Package,
        executable: "/opt/host".to_string(),
        args: vec!["--mode".to_string(), "a \"b\"\n".to_string()],
        preferred_control: vec![control],
        preferred_data: vec![data],
        env: vec![("Z".to_string(), "1".to_string()), ("A".to_string(), "2".to_string())],
    };
    let sorted: Vec<(String, String)> = vec![("A".to_string(), "2".to_string()), ("Z".to_string(), "1".to_string())];
    let expected = format!(
        "scope={};exe={};args={:?};control={:?};data={:?};env={:?}",
        "package", spec.executable, spec.args, spec.preferred_control, spec.preferred_data, sorted
    );
    assert_eq!(launch_signature(&spec), expected);
    assert_eq!(
        launch_signature(&spec),
        "scope=package;exe=/opt/host;args=[\"--mode\", \"a \\\"b\\\"\\n\"];control=[SidecarTransportOption { kind: Stdio, priority: 10, max_frame_bytes: Some(4096) }];data=[SidecarTransportOption { kind: SharedMemoryRing, priority: 3, max_frame_bytes: None }];env=[(\"A\", \"2\"), (\"Z\", \"1\")]"
    );
    let mut reordered = SidecarLaunchSpec {
        scope: SidecarLaunchScope::Package,
        executable: "/opt/host".to_string(),
        args: spec.args.clone(),
        preferred_control: spec.preferred_control.clone(),
        preferred_data: spec.preferred_data.clone(),
        env: sorted.clone(),
    };
    assert_eq!(launch_signature(&reordered), launch_signature(&spec));
    reordered.scope = SidecarLaunchScope::Instance;
    assert!(launch_signature(&reordered).starts_with("scope=instance;exe=/opt/host;args=["));
}

#[test]
fn only_package_launches_share_a_process() {
    let mut spec = package_spec(Vec::new(), Vec::new());
    assert!(shares_process(&spec));
    spec.scope = SidecarLaunchScope::Instance;
    assert!(!shares_process(&spec));
}
