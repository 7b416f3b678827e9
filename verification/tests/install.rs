use stellatune_plugins::install::{
    archive_entry_path_allowed, default_marker_for_root, discovered_plugin, file_name_of,
    inspect_artifact_plugin_id, install_receipt_file_name, installed_package, list_installed,
    list_installed_plugins, pending_marker_path_for_plugin_root, pending_uninstall_marker,
    plugin_id_from_root, receipt_path_for_plugin_root, select_single_manifest, uninstall_roots,
    DiscoveredPlugin, InvalidManifestCandidate, ManifestCandidate, PendingUninstallPlugin,
    PluginInstallReceipt, PluginInstallState, PluginManifest, ReceiptIssue, UninstallIssue,
    WasmDiscoveredPlugin, WasmPendingUninstall, WasmPluginInstallReceipt, WasmPluginManifest,
    DELETE_FAILED_RETRY_THRESHOLD, INSTALL_RECEIPT_FILE_NAME, UNINSTALL_PENDING_MARKER_FILE_NAME,
};
use stellatune_plugins::install::{artifact_kind, extension_of, staging_dir_name, ArtifactKind};
use stellatune_plugins::install::{dynamic_library_ext, native_artifact_kind, NativeArtifactKind};
use stellatune_plugins::install::{
    check_before_load, check_loaded_module, install_step, library_rel_path, receipt_library_path,
    select_single_library, InstallAction, InstallEvent, InstallStage, LibraryCandidate,
};

fn manifest(id: &str, name: Option<&str>) -> PluginManifest {
    PluginManifest {
        id: id.to_string(),
        api_version: 1,
        name: name.map(|n| n.to_string()),
        entry_symbol: None,
        info_json: Some("{}".to_string()),
    }
}

fn discovered(root: &str, id: &str, name: Option<&str>) -> DiscoveredPlugin {
    DiscoveredPlugin {
        root_dir: root.to_string(),
        manifest: manifest(id, name),
        library_path: format!("{root}/lib.so"),
    }
}

#[test]
fn receipt_and_marker_paths() {
    assert_eq!(install_receipt_file_name(), ".install.json");
    assert_eq!(INSTALL_RECEIPT_FILE_NAME, ".install.json");
    assert_eq!(UNINSTALL_PENDING_MARKER_FILE_NAME, ".uninstall-pending");
    assert_eq!(receipt_path_for_plugin_root("/p/a"), "/p/a/.install.json");
    assert_eq!(pending_marker_path_for_plugin_root("/p/a/"), "/p/a/.uninstall-pending");
}

#[test]
fn file_names_of_paths() {
    assert_eq!(file_name_of("/p/dev.plugin").as_deref(), Some("dev.plugin"));
    assert_eq!(file_name_of("/p/dev.plugin/").as_deref(), Some("dev.plugin"));
    assert_eq!(file_name_of("/p/dev.plugin/.").as_deref(), Some("dev.plugin"));
    assert_eq!(file_name_of("/p/.."), None);
    assert_eq!(file_name_of("/"), None);
    assert_eq!(file_name_of(""), None);
}

#[test]
fn plugin_ids_from_roots() {
    assert_eq!(plugin_id_from_root("/plugins/ dev.x "), "dev.x");
    assert_eq!(plugin_id_from_root("/"), "unknown-plugin");
    assert_eq!(plugin_id_from_root("/plugins/   "), "unknown-plugin");
}

#[test]
fn markers() {
    let m = default_marker_for_root("/plugins/dev.a");
    assert_eq!(m.plugin_id, "dev.a");
    assert_eq!(m.queued_at_ms, 0);
    assert_eq!(m.state, PluginInstallState::PendingUninstall);
    let m = pending_uninstall_marker("dev.b", 77, "busy".to_string());
    assert_eq!(m.queued_at_ms, 77);
    assert_eq!(m.last_error.as_deref(), Some("busy"));
}

#[test]
fn failed_deletes_become_delete_failed_at_threshold() {
    let mut m = default_marker_for_root("/plugins/dev.a");
    m.record_delete_failure("e1".to_string());
    assert_eq!((m.retry_count, m.state), (1, PluginInstallState::PendingUninstall));
    m.record_delete_failure("e2".to_string());
    assert_eq!((m.retry_count, m.state), (2, PluginInstallState::PendingUninstall));
    m.record_delete_failure("e3".to_string());
    assert_eq!(m.retry_count, DELETE_FAILED_RETRY_THRESHOLD);
    assert_eq!(m.state, PluginInstallState::DeleteFailed);
    assert_eq!(m.last_error.as_deref(), Some("e3"));
    m.retry_count = u32::MAX;
    m.record_delete_failure("e4".to_string());
    assert_eq!(m.retry_count, u32::MAX);
}

#[test]
fn receipts_make_discovered_plugins() {
    let ok = discovered_plugin(
        "/p/a".to_string(),
        PluginInstallReceipt { manifest: manifest("a", None), library_rel_path: "lib/a.so".to_string() },
    )
    .expect("usable");
    assert_eq!(ok.library_path, "/p/a/lib/a.so");
    let err = discovered_plugin(
        "/p/a".to_string(),
        PluginInstallReceipt { manifest: manifest(" ", None), library_rel_path: "a.so".to_string() },
    )
    .err()
    .expect("empty id");
    assert_eq!(err, ReceiptIssue::EmptyManifestId);
    let err = discovered_plugin(
        "/p/a".to_string(),
        PluginInstallReceipt { manifest: manifest("a", None), library_rel_path: "  ".to_string() },
    )
    .err()
    .expect("empty path");
    assert_eq!(err, ReceiptIssue::EmptyLibraryPath);
}

#[test]
fn listing_is_sorted_and_covers_pending() {
    let d = vec![discovered("/p/zeta", "zeta", Some("Zeta")), discovered("/p/alpha", "alpha", None)];
    let p = vec![PendingUninstallPlugin {
        root_dir: "/p/beta".to_string(),
        marker: pending_uninstall_marker("beta", 1, "busy".to_string()),
        receipt: None,
    }];
    let rows = list_installed_plugins(d, p);
    let ids: Vec<&str> = rows.iter().map(|r| r.id.as_str()).collect();
    assert_eq!(ids, vec!["alpha", "beta", "zeta"]);
    assert_eq!(rows[0].name, "alpha");
    assert_eq!(rows[1].install_state, PluginInstallState::PendingUninstall);
    assert_eq!(rows[1].library_path, "/p/beta");
    assert_eq!(rows[1].uninstall_last_error.as_deref(), Some("busy"));
    assert_eq!(rows[2].name, "Zeta");
}

#[test]
fn listing_orders_same_id_by_root() {
    let d = vec![discovered("/p/b", "same", None), discovered("/p/a", "same", None)];
    let rows = list_installed_plugins(d, Vec::new());
    assert_eq!(rows[0].root_dir, "/p/a");
    assert_eq!(rows[1].root_dir, "/p/b");
}

#[test]
fn uninstall_roots_collects_each_root_once() {
    let d = vec![discovered("/p/a", "dev.a", None), discovered("/p/b", "dev.b", None)];
    let p = vec![
        PendingUninstallPlugin {
            root_dir: "/p/a".to_string(),
            marker: pending_uninstall_marker("dev.a", 1, "e".to_string()),
            receipt: None,
        },
        PendingUninstallPlugin {
            root_dir: "/p/old".to_string(),
            marker: pending_uninstall_marker("other", 1, "e".to_string()),
            receipt: Some(PluginInstallReceipt { manifest: manifest("dev.a", None), library_rel_path: "x".to_string() }),
        },
    ];
    let roots = uninstall_roots(" dev.a ", &d, &p).ok().expect("roots");
    assert_eq!(roots, vec!["/p/a".to_string(), "/p/old".to_string()]);
    match uninstall_roots("  ", &d, &p) {
        Err(UninstallIssue::EmptyPluginId) => {},
        other => panic!("unexpected: {other:?}"),
    }
    match uninstall_roots("dev.z", &d, &p) {
        Err(UninstallIssue::NotInstalled { plugin_id }) => assert_eq!(plugin_id, "dev.z"),
        other => panic!("unexpected: {other:?}"),
    }
}

fn wasm(id: &str) -> WasmPluginManifest {
    WasmPluginManifest { id: id.to_string(), name: format!("{id} name"), version: "1.0".to_string(), component_count: 2 }
}

#[test]
fn package_listing() {
    let d = vec![WasmDiscoveredPlugin { root_dir: "/w/b".to_string(), manifest_path: "/w/b/plugin.json".to_string(), manifest: wasm("b") }];
    let p = vec![
        WasmPendingUninstall { root_dir: "/w/a".to_string(), marker: pending_uninstall_marker("a", 1, "e".to_string()), receipt: None },
        WasmPendingUninstall {
            root_dir: "/w/c".to_string(),
            marker: pending_uninstall_marker("c-marker", 1, "e".to_string()),
            receipt: Some(WasmPluginInstallReceipt { manifest: wasm("c"), manifest_rel_path: "m.json".to_string() }),
        },
    ];
    let rows = list_installed(d, p, "plugin.json");
    assert_eq!(rows.len(), 3);
    assert_eq!(rows[0].id, "a");
    assert_eq!(rows[0].version, "unknown");
    assert_eq!(rows[0].manifest_path, "/w/a/plugin.json");
    assert_eq!(rows[0].component_count, 0);
    assert_eq!(rows[1].id, "b");
    assert_eq!(rows[2].id, "c");
    assert_eq!(rows[2].manifest_path, "/w/c/m.json");
    assert_eq!(rows[2].component_count, 2);
}

#[test]
fn installed_package_row() {
    let row = installed_package("/w", &wasm("dev.p"), "plugin.json");
    assert_eq!(row.root_dir, "/w/dev.p");
    assert_eq!(row.manifest_path, "/w/dev.p/plugin.json");
    assert_eq!(row.install_state, PluginInstallState::Installed);
}

#[test]
fn manifest_selection() {
    let one = vec![ManifestCandidate { path: "/s/plugin.json".to_string(), manifest: wasm("dev.one") }];
    assert_eq!(inspect_artifact_plugin_id(one, &Vec::new(), "a.zip").unwrap(), "dev.one");
    let none_err = select_single_manifest(Vec::new(), &Vec::new(), "a.zip").err().expect("none");
    assert_eq!(none_err, "no valid wasm plugin manifest found in artifact: a.zip");
    let invalid = vec![
        InvalidManifestCandidate { path: "p1".to_string(), error: "e1".to_string() },
        InvalidManifestCandidate { path: "p2".to_string(), error: "e2".to_string() },
        InvalidManifestCandidate { path: "p3".to_string(), error: "e3".to_string() },
        InvalidManifestCandidate { path: "p4".to_string(), error: "e4".to_string() },
    ];
    let err = select_single_manifest(Vec::new(), &invalid, "a.zip").err().expect("none");
    assert_eq!(
        err,
        "no valid wasm plugin manifest found in artifact: a.zip; invalid manifest candidates: p1 => e1 | p2 => e2 | p3 => e3"
    );
    let two = vec![
        ManifestCandidate { path: "x".to_string(), manifest: wasm("dev.a") },
        ManifestCandidate { path: "y".to_string(), manifest: wasm("dev.b") },
    ];
    let err = inspect_artifact_plugin_id(two, &Vec::new(), "a.zip").err().expect("many");
    assert_eq!(
        err,
        "artifact contains multiple plugin manifests (dev.a, dev.b); one artifact must contain exactly one plugin"
    );
}

#[test]
fn archive_entry_paths() {
    assert!(archive_entry_path_allowed("plugin/plugin.json", false));
    assert!(archive_entry_path_allowed("", false));
    assert!(!archive_entry_path_allowed("/etc/passwd", false));
    assert!(!archive_entry_path_allowed("a/../../b", false));
    assert!(archive_entry_path_allowed("a/..b", false));
    assert!(!archive_entry_path_allowed("a\\..\\..\\b", true));
    assert!(archive_entry_path_allowed("a\\..\\..\\b", false));
    assert!(!archive_entry_path_allowed("C:\\x", true));
    assert!(archive_entry_path_allowed("C:\\x", false));
}

#[test]
fn staging_names_and_artifacts() {
    assert_eq!(staging_dir_name("install", "dev.a", 42, 1000, Some(3)), ".install-dev.a-42-1000-3");
    assert_eq!(staging_dir_name("backup", "dev.a", 42, 1000, None), ".backup-dev.a-42-1000");
    assert_eq!(extension_of("/x/plugin.ZIP").as_deref(), Some("ZIP"));
    assert_eq!(extension_of("/x/.hidden"), None);
    assert_eq!(extension_of("/x/noext"), None);
    assert_eq!(extension_of("/x/a.tar.gz").as_deref(), Some("gz"));
    assert_eq!(artifact_kind("/x/p.ZIP", true, false).unwrap(), ArtifactKind::Zip);
    assert_eq!(artifact_kind("/x/dir", true, true).unwrap(), ArtifactKind::Directory);
    assert_eq!(artifact_kind("/x/p.zip", false, false).unwrap_err(), "artifact not found: /x/p.zip");
    assert_eq!(
        artifact_kind("/x/p.tar", true, false).unwrap_err(),
        "unsupported plugin artifact: /x/p.tar (expect directory or .zip)"
    );
}

#[test]
fn package_listing_orders_roots_as_paths() {
    let d = vec![
        WasmDiscoveredPlugin { root_dir: "/p/a-b".to_string(), manifest_path: "/p/a-b/plugin.json".to_string(), manifest: wasm("x") },
        WasmDiscoveredPlugin { root_dir: "/p/a/b".to_string(), manifest_path: "/p/a/b/plugin.json".to_string(), manifest: wasm("x") },
        WasmDiscoveredPlugin { root_dir: "/p//a".to_string(), manifest_path: "/p/a/plugin.json".to_string(), manifest: wasm("x") },
    ];
    let rows = list_installed(d, Vec::new(), "plugin.json");
    let roots: Vec<&str> = rows.iter().map(|r| r.root_dir.as_str()).collect();
    assert_eq!(roots, vec!["/p//a", "/p/a/b", "/p/a-b"]);
}

#[test]
fn loading_checks_the_declared_api_version_and_the_library() {
    let d = discovered("/p/a", "dev.a", None);
    assert_eq!(check_before_load(&d, 1, true), Ok(()));
    assert_eq!(
        check_before_load(&d, 2, true),
        Err("plugin `dev.a` api_version mismatch: plugin=1, host=2".to_string())
    );
    assert_eq!(
        check_before_load(&d, 1, false),
        Err("plugin `dev.a` library not found: /p/a/lib.so".to_string())
    );
}

#[test]
fn loading_checks_what_the_entry_point_gave() {
    assert_eq!(check_loaded_module("dev.a", 3, "dev.a", 3, 3), Ok(()));
    assert_eq!(
        check_loaded_module("dev.a", 12, "dev.b", 4, 3),
        Err("plugin `dev.a` api_version mismatch: plugin=12, host=3".to_string())
    );
    assert_eq!(
        check_loaded_module("dev.a", 3, "dev.b", 4, 3),
        Err("plugin id mismatch: manifest.id=`dev.a`, metadata.id=`dev.b`".to_string())
    );
    assert_eq!(
        check_loaded_module("dev.a", 3, "dev.a", 40, 3),
        Err("plugin `dev.a` metadata api_version mismatch: plugin=40, host=3".to_string())
    );
}

fn run_install(answers: Vec<InstallEvent>) -> (Vec<String>, Result<(), String>) {
    let mut stage = InstallStage::Staged;
    let mut seen = Vec::new();
    for event in answers {
        let (next, action) = install_step(stage, event, "/p/dev.a", "/p/.backup-dev.a");
        stage = next;
        match action {
            InstallAction::Finish(result) => return (seen, result),
            InstallAction::MarkBackup { error } => seen.push(format!("MarkBackup({error})")),
            other => seen.push(format!("{other:?}")),
        }
    }
    panic!("install did not finish: {seen:?}");
}

#[test]
fn install_over_an_earlier_root_keeps_a_backup_until_the_receipt_is_written() {
    let (steps, result) = run_install(vec![
        InstallEvent::Found(true),
        InstallEvent::Succeeded,
        InstallEvent::Succeeded,
        InstallEvent::Succeeded,
        InstallEvent::Succeeded,
    ]);
    assert_eq!(steps, vec!["BackupExisting", "Promote", "WriteReceipt", "RemoveBackup"]);
    assert_eq!(result, Ok(()));
}

#[test]
fn fresh_install_needs_no_backup() {
    let (steps, result) = run_install(vec![InstallEvent::Found(false), InstallEvent::Succeeded, InstallEvent::Succeeded]);
    assert_eq!(steps, vec!["Promote", "WriteReceipt"]);
    assert_eq!(result, Ok(()));
}

#[test]
fn failed_promotion_restores_the_backup_and_reports_both_failures() {
    let (steps, result) = run_install(vec![
        InstallEvent::Found(true),
        InstallEvent::Succeeded,
        InstallEvent::Failed("promote failed".to_string()),
        InstallEvent::Succeeded,
        InstallEvent::Failed("busy".to_string()),
    ]);
    assert_eq!(steps, vec!["BackupExisting", "Promote", "RemoveStaged", "RestoreBackup"]);
    assert_eq!(result, Err("promote failed; rollback /p/.backup-dev.a -> /p/dev.a also failed: busy".to_string()));
    let (steps, result) = run_install(vec![
        InstallEvent::Found(false),
        InstallEvent::Failed("promote failed".to_string()),
        InstallEvent::Failed("ignored".to_string()),
    ]);
    assert_eq!(steps, vec!["Promote", "RemoveStaged"]);
    assert_eq!(result, Err("promote failed".to_string()));
}

#[test]
fn failed_receipt_removes_the_new_root_and_restores_the_backup() {
    let (steps, result) = run_install(vec![
        InstallEvent::Found(true),
        InstallEvent::Succeeded,
        InstallEvent::Succeeded,
        InstallEvent::Failed("receipt".to_string()),
        InstallEvent::Succeeded,
        InstallEvent::Succeeded,
    ]);
    assert_eq!(steps, vec!["BackupExisting", "Promote", "WriteReceipt", "RemoveNewRoot", "RestoreBackup"]);
    assert_eq!(result, Err("receipt".to_string()));
    let (_, result) = run_install(vec![
        InstallEvent::Found(true),
        InstallEvent::Succeeded,
        InstallEvent::Succeeded,
        InstallEvent::Failed("receipt".to_string()),
        InstallEvent::Failed("ignored".to_string()),
        InstallEvent::Failed("denied".to_string()),
    ]);
    assert_eq!(
        result,
        Err("failed to finalize plugin install receipt under /p/dev.a: receipt; rollback /p/.backup-dev.a -> /p/dev.a also failed: denied".to_string())
    );
}

#[test]
fn backup_that_cannot_be_removed_is_marked() {
    let (steps, result) = run_install(vec![
        InstallEvent::Found(true),
        InstallEvent::Succeeded,
        InstallEvent::Succeeded,
        InstallEvent::Succeeded,
        InstallEvent::Failed("in use".to_string()),
        InstallEvent::Succeeded,
    ]);
    assert_eq!(steps, vec!["BackupExisting", "Promote", "WriteReceipt", "RemoveBackup", "MarkBackup(in use)"]);
    assert_eq!(result, Ok(()));
    let (_, result) = run_install(vec![InstallEvent::Found(true), InstallEvent::Failed("locked".to_string())]);
    assert_eq!(result, Err("locked".to_string()));
}

fn library(path: &str, id: &str) -> LibraryCandidate {
    LibraryCandidate { path: path.to_string(), manifest: manifest(id, None) }
}

#[test]
fn an_artifact_must_hold_exactly_one_plugin_library() {
    let one = select_single_library(vec![library("/s/lib/a.so", "dev.a")], "a.zip").expect("one library");
    assert_eq!(one.path, "/s/lib/a.so");
    assert_eq!(one.manifest.id, "dev.a");
    assert_eq!(
        select_single_library(Vec::new(), "a.zip").err(),
        Some("no valid StellaTune plugin library found in artifact: a.zip".to_string())
    );
    assert_eq!(
        select_single_library(vec![library("/s/a.so", "dev.a"), library("/s/b.so", "dev.b")], "a.zip").err(),
        Some("artifact contains multiple StellaTune plugins (dev.a, dev.b); one artifact must contain exactly one plugin".to_string())
    );
}

#[test]
fn receipt_library_path_is_relative_to_the_staging_root() {
    assert_eq!(library_rel_path("/tmp/x/staging", "/tmp/x/staging/lib/a.so"), Ok("lib/a.so".to_string()));
    assert_eq!(library_rel_path("/tmp/x/staging/", "/tmp/x/staging/a.so"), Ok("a.so".to_string()));
    assert_eq!(
        library_rel_path("/tmp/x/staging", "/tmp/x/stage/a.so"),
        Err("failed to derive library_rel_path from /tmp/x/stage/a.so".to_string())
    );
    assert_eq!(receipt_library_path(Some("lib\\win\\a.dll".to_string()), "x"), Ok("lib/win/a.dll".to_string()));
    assert_eq!(
        receipt_library_path(None, "/elsewhere/a.so"),
        Err("failed to derive library_rel_path from /elsewhere/a.so".to_string())
    );
}

#[test]
fn native_artifacts_are_archives_or_libraries() {
    assert_eq!(dynamic_library_ext("windows"), "dll");
    assert_eq!(dynamic_library_ext("linux"), "so");
    assert_eq!(dynamic_library_ext("macos"), "dylib");
    assert_eq!(dynamic_library_ext("freebsd"), "");
    assert_eq!(native_artifact_kind("/a/p.ZIP", true, "so"), Ok(NativeArtifactKind::Zip));
    assert_eq!(native_artifact_kind("/a/libp.SO", true, "so"), Ok(NativeArtifactKind::Library));
    assert_eq!(native_artifact_kind("/a/p.dll", true, "dll"), Ok(NativeArtifactKind::Library));
    assert_eq!(
        native_artifact_kind("/a/p.dll", true, "so"),
        Err("unsupported plugin artifact: /a/p.dll (expect .zip or .so)".to_string())
    );
    assert_eq!(
        native_artifact_kind("/a/p", true, ""),
        Err("unsupported plugin artifact: /a/p (expect .zip or .)".to_string())
    );
    assert_eq!(native_artifact_kind("/a/p.zip", false, "so"), Err("artifact not found: /a/p.zip".to_string()));
}

#[test]
fn plain_library_paths_under_the_staging_root() {
    assert_eq!(library_rel_path("/tmp/x/staging", "/tmp/x/staging/lib/plugin-a_1"), Ok("lib/plugin-a_1".to_string()));
    assert_eq!(library_rel_path("staging", "staging/plugin"), Ok("plugin".to_string()));
}
