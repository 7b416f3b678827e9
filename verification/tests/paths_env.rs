use stellatune_plugins::env::{
    apply_shared_memory_endpoint, build_env_map, ensure_env_entry, eq_ignore_ascii_case,
    first_non_empty_env, plan_shared_memory_env, resolve_endpoint, upper_string, EnvMap,
    ShmEnvPlan,
};
use stellatune_plugins::error::Error;
use stellatune_plugins::paths::{
    is_safe_relative_sidecar_path, join_path, join_path_on, path_order_parts, pick_sidecar_executable,
    sidecar_executable_candidates,
};
use stellatune_plugins::sidecar::{
    merged_data_preferred, normalize_role_key, ordered_kinds, transport_env_suffixes,
    SidecarTransportKind, SidecarTransportOption,
};
use stellatune_plugins::env::{channel_attempt_order, channel_plan, launch_executable, ChannelPlan};
use stellatune_plugins::sidecar::{SidecarLaunchScope, SidecarLaunchSpec};

fn opt(kind: SidecarTransportKind, priority: u8, max: Option<u32>) -> SidecarTransportOption {
    SidecarTransportOption { kind, priority, max_frame_bytes: max }
}

#[test]
fn relative_paths_are_checked() {
    assert!(is_safe_relative_sidecar_path("bin/host", false));
    assert!(!is_safe_relative_sidecar_path("../stellatune-asio-host", false));
    assert!(!is_safe_relative_sidecar_path("/usr/bin/host", false));
    assert!(!is_safe_relative_sidecar_path("", false));
}

#[test]
fn windows_relative_paths_are_checked() {
    assert!(is_safe_relative_sidecar_path("bin\\host", true));
    assert!(!is_safe_relative_sidecar_path("bin\\..\\..\\host", true));
    assert!(is_safe_relative_sidecar_path("bin\\..\\..\\host", false));
    assert!(!is_safe_relative_sidecar_path("C:\\tools\\host.exe", true));
    assert!(!is_safe_relative_sidecar_path("C:host.exe", true));
    assert!(!is_safe_relative_sidecar_path("\\host", true));
    assert!(!is_safe_relative_sidecar_path("\\\\server\\share\\host", true));
}

#[test]
fn paths_join_on_windows() {
    assert_eq!(join_path_on(true, "C:\\p", "a"), "C:\\p\\a");
    assert_eq!(join_path_on(true, "C:\\p\\", "a"), "C:\\p\\a");
    assert_eq!(join_path_on(true, "C:/p/", "a"), "C:/p/a");
    assert_eq!(join_path_on(true, "C:\\p", "D:\\abs"), "D:\\abs");
    assert_eq!(join_path_on(false, "/p", "a"), "/p/a");
}

#[test]
fn paths_join() {
    assert_eq!(join_path("/p", "a"), "/p/a");
    assert_eq!(join_path("/p/", "a"), "/p/a");
    assert_eq!(join_path("/p", "/abs"), "/abs");
    assert_eq!(join_path("", "a"), "a");
}

#[test]
fn executable_candidates() {
    let c = sidecar_executable_candidates("/plug", "stellatune-asio-host", false).ok().expect("ok");
    assert_eq!(c, vec!["/plug/stellatune-asio-host".to_string(), "/plug/bin/stellatune-asio-host".to_string()]);
    let c = sidecar_executable_candidates("/plug", "/opt/h", false).ok().expect("ok");
    assert_eq!(c, vec!["/opt/h".to_string()]);
    assert!(matches!(sidecar_executable_candidates("/plug", "../stellatune-asio-host", false), Err(Error::InvalidInput { .. })));
    assert!(matches!(sidecar_executable_candidates("/plug", "  ", false), Err(Error::InvalidInput { .. })));
}

#[test]
fn windows_executable_candidates_add_exe_fallbacks() {
    let c = sidecar_executable_candidates("C:\\plug", "stellatune-asio-host", true).ok().expect("ok");
    assert_eq!(
        c,
        vec![
            "C:\\plug\\stellatune-asio-host".to_string(),
            "C:\\plug\\bin\\stellatune-asio-host".to_string(),
            "C:\\plug\\stellatune-asio-host.exe".to_string(),
            "C:\\plug\\bin\\stellatune-asio-host.exe".to_string(),
        ]
    );
    let c = sidecar_executable_candidates("C:\\plug", "tools\\host", true).ok().expect("ok");
    assert_eq!(
        c,
        vec![
            "C:\\plug\\tools\\host".to_string(),
            "C:\\plug\\bin\\tools\\host".to_string(),
            "C:\\plug\\tools\\host.exe".to_string(),
            "C:\\plug\\bin\\tools\\host.exe".to_string(),
        ]
    );
    let c = sidecar_executable_candidates("C:\\plug", "host.exe", true).ok().expect("ok");
    assert_eq!(c, vec!["C:\\plug\\host.exe".to_string(), "C:\\plug\\bin\\host.exe".to_string()]);
    let c = sidecar_executable_candidates("C:\\plug", " D:\\tools\\host ", true).ok().expect("ok");
    assert_eq!(c, vec!["D:\\tools\\host".to_string()]);
    let c = sidecar_executable_candidates("C:\\plug", "\\\\server\\share\\host", true).ok().expect("ok");
    assert_eq!(c, vec!["\\\\server\\share\\host".to_string()]);
    assert!(matches!(
        sidecar_executable_candidates("C:\\plug", "..\\host", true),
        Err(Error::InvalidInput { .. })
    ));
    match pick_sidecar_executable("C:\\plug", "D:\\x", &vec!["D:\\x".to_string()], &vec![false], true) {
        Err(Error::NotFound { detail, .. }) => assert_eq!(detail, "D:\\x"),
        other => panic!("unexpected: {other:?}"),
    }
}

#[test]
fn first_existing_candidate_is_picked() {
    let c = vec!["/a".to_string(), "/b".to_string()];
    assert_eq!(pick_sidecar_executable("/plug", "h", &c, &vec![false, true], false).ok().expect("found"), "/b");
    match pick_sidecar_executable("/plug", "stellatune-asio-host", &c, &vec![false, false], false) {
        Err(Error::NotFound { what, .. }) => assert_eq!(what, "sidecar executable"),
        other => panic!("unexpected: {other:?}"),
    }
}

#[test]
fn transports_order_and_env_names() {
    assert_eq!(transport_env_suffixes(SidecarTransportKind::SharedMemoryRing), vec!["SHARED_MEMORY_RING".to_string(), "SHM".to_string()]);
    assert_eq!(normalize_role_key(" sink-1 "), "SINK_1");
    assert_eq!(normalize_role_key("__x__"), "X");
    let kinds = ordered_kinds(&vec![
        opt(SidecarTransportKind::Stdio, 1, None),
        opt(SidecarTransportKind::SharedMemoryRing, 10, None),
        opt(SidecarTransportKind::Stdio, 5, None),
    ]);
    assert_eq!(kinds[0], SidecarTransportKind::SharedMemoryRing);
    assert_eq!(kinds[1], SidecarTransportKind::Stdio);
    let merged = merged_data_preferred(&Vec::new(), &vec![opt(SidecarTransportKind::Stdio, 1, None)]);
    assert_eq!(merged.len(), 1);
}

#[test]
fn env_maps_and_entries() {
    let env = vec![("A".to_string(), "1".to_string()), ("A".to_string(), "2".to_string())];
    let m = build_env_map(&env);
    assert_eq!(m.get("A").as_deref(), Some("2"));
    assert!(m.get("B").is_none());
    assert_eq!(upper_string(&"sink_a".to_string()), "SINK_A");
    assert!(eq_ignore_ascii_case(&"Range".to_string(), &"rANGE".to_string()));
    let mut env = vec![("path".to_string(), "x".to_string())];
    ensure_env_entry(&mut env, "PATH", "y");
    assert_eq!(env, vec![("PATH".to_string(), "y".to_string())]);
    ensure_env_entry(&mut env, "HOME", "/h");
    assert_eq!(env.len(), 2);
    let mut m = EnvMap::new();
    m.insert("K1".to_string(), "".to_string());
    m.insert("K2".to_string(), "v2".to_string());
    // the first key present decides, even where its value is blank
    assert_eq!(first_non_empty_env(&m, &vec!["K1".to_string(), "K2".to_string()]), None);
    assert_eq!(first_non_empty_env(&m, &vec!["K0".to_string(), "K2".to_string()]).as_deref(), Some("v2"));
}

#[test]
fn shared_memory_env_plans() {
    let m = EnvMap::new();
    let shm = vec![opt(SidecarTransportKind::SharedMemoryRing, 10, Some(8192))];
    match plan_shared_memory_env(&shm, "STELLATUNE_SIDECAR_DATA_SHARED_MEMORY_RING", "STELLATUNE_SIDECAR_DATA_SHM", &m) {
        ShmEnvPlan::Create(cap) => assert_eq!(cap, 8192),
        other => panic!("unexpected: {other:?}"),
    }
    assert!(matches!(plan_shared_memory_env(&vec![opt(SidecarTransportKind::Stdio, 1, None)], "F", "S", &m), ShmEnvPlan::Skip));
    let mut m2 = EnvMap::new();
    m2.insert("S".to_string(), "tx=/a;rx=/b".to_string());
    match plan_shared_memory_env(&shm, "F", "S", &m2) {
        ShmEnvPlan::Reuse(v) => assert_eq!(v, "tx=/a;rx=/b"),
        other => panic!("unexpected: {other:?}"),
    }
    let mut env = Vec::new();
    let mut map = EnvMap::new();
    apply_shared_memory_endpoint(&mut env, &mut map, "F", "S", "tx=/a;rx=/b");
    assert_eq!(map.get("F").as_deref(), Some("tx=/a;rx=/b"));
    assert_eq!(map.get("S").as_deref(), Some("tx=/a;rx=/b"));
}

#[test]
fn endpoints_resolve_from_role_then_generic_keys() {
    let mut m = EnvMap::new();
    m.insert("STELLATUNE_SIDECAR_DATA_SHM".to_string(), "generic".to_string());
    let r = resolve_endpoint(&m, Some("sink"), SidecarTransportKind::SharedMemoryRing);
    assert!(r.is_some());
}

#[test]
fn channels_are_planned_per_transport() {
    let order = channel_attempt_order(&vec![opt(SidecarTransportKind::LoopbackTcp, 5, None)]);
    assert_eq!(order, vec![SidecarTransportKind::LoopbackTcp, SidecarTransportKind::Stdio]);
    let order = channel_attempt_order(&vec![opt(SidecarTransportKind::Stdio, 5, None), opt(SidecarTransportKind::LoopbackTcp, 1, None)]);
    assert_eq!(order, vec![SidecarTransportKind::Stdio, SidecarTransportKind::LoopbackTcp]);
    let mut m = EnvMap::new();
    assert!(matches!(channel_plan(&m, None, SidecarTransportKind::Stdio), Ok(ChannelPlan::Stdio)));
    match channel_plan(&m, Some("sink"), SidecarTransportKind::LoopbackTcp) {
        Err(Error::Unsupported { message }) => assert_eq!(message, "missing endpoint env for loopback tcp role=sink"),
        other => panic!("unexpected: {other:?}"),
    }
    match channel_plan(&m, None, SidecarTransportKind::SharedMemoryRing) {
        Err(Error::Unsupported { message }) => assert_eq!(message, "missing endpoint env for shared-memory-ring role=control"),
        other => panic!("unexpected: {other:?}"),
    }
    m.insert("STELLATUNE_SIDECAR_CONTROL_TCP".to_string(), " 127.0.0.1:9 ".to_string());
    match channel_plan(&m, None, SidecarTransportKind::LoopbackTcp) {
        Ok(ChannelPlan::Connect { kind, endpoint }) => {
            assert_eq!(kind, SidecarTransportKind::LoopbackTcp);
            assert_eq!(endpoint, "127.0.0.1:9");
        },
        other => panic!("unexpected: {other:?}"),
    }
    let spec = SidecarLaunchSpec {
        scope: SidecarLaunchScope::Instance,
        executable: "  ".to_string(),
        args: Vec::new(),
        preferred_control: Vec::new(),
        preferred_data: Vec::new(),
        env: Vec::new(),
    };
    assert!(matches!(launch_executable(&spec), Err(Error::InvalidInput { .. })));
}

/// Resolves a sidecar executable under `root` as the host does: the
/// library's candidates, checked for files.
fn resolve_under(root: &std::path::Path, raw: &str) -> Result<String, Error> {
    let windows = std::path::MAIN_SEPARATOR == '\\';
    let root = root.to_string_lossy().into_owned();
    let candidates = sidecar_executable_candidates(&root, raw, windows)?;
    let is_file: Vec<bool> = candidates.iter().map(|c| std::path::Path::new(c).is_file()).collect();
    pick_sidecar_executable(&root, raw, &candidates, &is_file, windows)
}

fn missing_candidate_fails() {
    let temp = tempfile::tempdir().expect("create tempdir");
    let err = resolve_under(temp.path(), "stellatune-asio-host").expect_err("missing sidecar should fail");
    assert!(err.describe().contains("sidecar executable"));
}

fn parent_dir_relative_path_is_refused() {
    let temp = tempfile::tempdir().expect("create tempdir");
    let err = resolve_under(temp.path(), "../stellatune-asio-host").expect_err("unsafe relative path should fail");
    assert!(err.describe().contains("unsafe"));
}

#[test]
fn sidecar_fails_when_no_candidate_exists() {
    missing_candidate_fails();
}

#[test]
fn tests_fails_when_no_candidate_exists() {
    missing_candidate_fails();
}

#[test]
fn sidecar_rejects_parent_dir_relative_path() {
    parent_dir_relative_path_is_refused();
}

#[test]
fn tests_rejects_parent_dir_relative_path() {
    parent_dir_relative_path_is_refused();
}

#[test]
fn path_components_as_paths_compare_them() {
    assert_eq!(path_order_parts("/a/./b/"), vec!["\u{1}", "\u{4}a", "\u{4}b"]);
    assert_eq!(path_order_parts("./x/.."), vec!["\u{2}", "\u{4}x", "\u{3}"]);
    assert_eq!(path_order_parts("a//b"), vec!["\u{4}a", "\u{4}b"]);
    assert_eq!(path_order_parts(""), Vec::<String>::new());
}

fn bare_executable_is_found_in_bin() {
    let temp = tempfile::tempdir().expect("create tempdir");
    let root = temp.path();
    let bin_dir = tempfile::Builder::new().prefix("bin").rand_bytes(0).tempdir_in(root).expect("create bin dir");
    let windows = std::path::MAIN_SEPARATOR == '\\';
    let name = if windows { "stellatune-asio-host.exe" } else { "stellatune-asio-host" };
    let stub = tempfile::Builder::new()
        .prefix(name)
        .rand_bytes(0)
        .tempfile_in(bin_dir.path())
        .expect("create sidecar stub");
    let resolved = resolve_under(root, "stellatune-asio-host").ok().expect("resolve executable");
    assert_eq!(std::path::Path::new(&resolved), stub.path());
    assert_eq!(std::path::Path::new(&resolved), root.join("bin").join(name).as_path());
}

#[test]
fn sidecar_resolves_bare_executable_in_plugin_bin_dir() {
    bare_executable_is_found_in_bin();
}

#[test]
fn tests_resolves_bare_executable_in_plugin_bin_dir() {
    bare_executable_is_found_in_bin();
}
