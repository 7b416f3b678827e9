use stellatune_plugins::shadow::{
    classify_shadow_file, parse_shadow_file_key, sanitize_plugin_id, shadow_file_name,
    ShadowCleanupReport, ShadowFileAction,
};

#[test]
fn sanitize_plugin_id_replaces_invalid_chars() {
    assert_eq!(sanitize_plugin_id(" dev/plug in "), "dev_plug_in");
    assert_eq!(sanitize_plugin_id(""), "unknown-plugin");
}

#[test]
fn parse_shadow_file_key_requires_expected_prefix() {
    assert!(parse_shadow_file_key("1700-123-1-a.dll").is_some());
    assert!(parse_shadow_file_key("a-123-1-a.dll").is_none());
    assert!(parse_shadow_file_key("1700-123-a-a.dll").is_none());
    assert!(parse_shadow_file_key("1700-123-1-").is_none());
}

#[test]
fn shadow_name_round_trips_through_key() {
    let name = shadow_file_name(1700, 123, 9, "plugin.so");
    assert_eq!(name, "1700-123-9-plugin.so");
    let key = parse_shadow_file_key(&name).expect("key");
    assert_eq!(key.stamp_ms, 1700);
    assert_eq!(key.pid, 123);
    assert_eq!(key.seq, 9);
}

fn sweep(files: &[(bool, &str, u32, u128)], current_pid: u32, grace: u128) -> ShadowCleanupReport {
    let mut report = ShadowCleanupReport::new();
    for (protected, name, _pid, age) in files {
        let action = classify_shadow_file(*protected, Some(name), current_pid, *age, grace);
        report.record(action, true);
    }
    report
}

#[test]
fn cleanup_deletes_stale_and_keeps_active() {
    let pid = 4242u32;
    let active = shadow_file_name(1000, pid, 1, "a.dll");
    let stale_current = shadow_file_name(1000, pid, 2, "b.dll");
    let stale_other = shadow_file_name(1000, 999_999, 3, "c.dll");
    let files = [
        (true, active.as_str(), pid, 0u128),
        (false, stale_current.as_str(), pid, 0u128),
        (false, stale_other.as_str(), 999_999, 0u128),
        (false, "not-a-shadow-name.dll", 0, 0u128),
    ];
    let report = sweep(&files, pid, 0);
    assert_eq!(report.deleted, 2);
    assert_eq!(report.skipped_active, 1);
    assert_eq!(report.skipped_unrecognized, 1);
}

#[test]
fn cleanup_respects_grace_period_for_current_process() {
    let pid = 4242u32;
    let current = shadow_file_name(1000, pid, 7, "x.dll");
    let files = [(false, current.as_str(), pid, 5u128)];
    let report = sweep(&files, pid, 3_600_000_000_000u128);
    assert_eq!(report.deleted, 0);
    assert_eq!(report.skipped_recent_current_process, 1);
}

#[test]
fn unreadable_shadow_name_is_unrecognized() {
    assert_eq!(
        classify_shadow_file(false, None, 1, 0, 0),
        ShadowFileAction::SkipUnrecognized
    );
}
