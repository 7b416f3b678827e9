use stellatune_plugins::endpoint::parse_shared_memory_endpoint;
use stellatune_plugins::error::Error;
use stellatune_plugins::endpoint::format_shared_memory_endpoint;
use stellatune_plugins::endpoint::{normalize_semaphore_name, ring_file_name, semaphore_name_for};

#[test]
fn sidecar_parse_shared_memory_endpoint_supports_pair_format() {
    let endpoint = parse_shared_memory_endpoint("tx=C:/tmp/a.shm;rx=C:/tmp/b.shm")
        .expect("endpoint parse should succeed");
    assert_eq!(endpoint.tx_path, "C:/tmp/a.shm");
    assert_eq!(endpoint.rx_path, "C:/tmp/b.shm");
}

#[test]
fn sidecar_parse_shared_memory_endpoint_supports_single_path() {
    let endpoint =
        parse_shared_memory_endpoint("/tmp/ring.shm").expect("single path should be accepted");
    assert_eq!(endpoint.tx_path, "/tmp/ring.shm");
    assert_eq!(endpoint.rx_path, "/tmp/ring.shm");
}

#[test]
fn tests_parse_shared_memory_endpoint_supports_pair_format() {
    let endpoint = parse_shared_memory_endpoint("tx=C:/tmp/a.shm;rx=C:/tmp/b.shm")
        .expect("endpoint parse should succeed");
    assert_eq!(endpoint.tx_path, "C:/tmp/a.shm");
    assert_eq!(endpoint.rx_path, "C:/tmp/b.shm");
}

#[test]
fn tests_parse_shared_memory_endpoint_supports_single_path() {
    let endpoint =
        parse_shared_memory_endpoint("/tmp/ring.shm").expect("single path should be accepted");
    assert_eq!(endpoint.tx_path, "/tmp/ring.shm");
    assert_eq!(endpoint.rx_path, "/tmp/ring.shm");
}

#[test]
fn endpoint_reads_wakeup_events() {
    let endpoint = parse_shared_memory_endpoint(
        "tx=/a;rx=/b;tx_data_event=e1;tx_space_event=e2;rx_data_event=e3;rx_space_event=e4",
    )
    .expect("full endpoint");
    assert_eq!(endpoint.tx_path, "/a");
    assert_eq!(endpoint.rx_path, "/b");
    assert_eq!(endpoint.tx_data_event.as_deref(), Some("e1"));
    assert_eq!(endpoint.tx_space_event.as_deref(), Some("e2"));
    assert_eq!(endpoint.rx_data_event.as_deref(), Some("e3"));
    assert_eq!(endpoint.rx_space_event.as_deref(), Some("e4"));
}

#[test]
fn endpoint_with_one_side_uses_it_for_both() {
    let endpoint = parse_shared_memory_endpoint("tx=/a").expect("tx only");
    assert_eq!(endpoint.tx_path, "/a");
    assert_eq!(endpoint.rx_path, "/a");
}

#[test]
fn endpoint_without_paths_is_refused() {
    let err = parse_shared_memory_endpoint("tx_data_event=e1").expect_err("no ring path");
    match err {
        Error::InvalidInput { message } => {
            assert_eq!(message, "shared-memory endpoint missing `tx` or `path`")
        },
        other => panic!("unexpected error: {other:?}"),
    }
}

#[test]
fn endpoint_blank_is_refused() {
    let err = parse_shared_memory_endpoint("   ").expect_err("blank");
    assert!(matches!(err, Error::InvalidInput { .. }));
}

#[test]
fn formatted_endpoint_parses_back() {
    let text = format_shared_memory_endpoint(
        "/tmp/stellatune-sidecar-shm/ring-1-2-tx-0.shm",
        "/tmp/stellatune-sidecar-shm/ring-1-2-rx-0.shm",
        "/stellatune-sidecar-1-2-tx-data",
        "/stellatune-sidecar-1-2-tx-space",
        "/stellatune-sidecar-1-2-rx-data",
        "/stellatune-sidecar-1-2-rx-space",
    );
    assert!(text.starts_with("tx=/tmp/"));
    let e = parse_shared_memory_endpoint(&text).expect("parse back");
    assert_eq!(e.tx_path, "/tmp/stellatune-sidecar-shm/ring-1-2-tx-0.shm");
    assert_eq!(e.rx_path, "/tmp/stellatune-sidecar-shm/ring-1-2-rx-0.shm");
    assert_eq!(e.tx_data_event.as_deref(), Some("/stellatune-sidecar-1-2-tx-data"));
    assert_eq!(e.tx_space_event.as_deref(), Some("/stellatune-sidecar-1-2-tx-space"));
    assert_eq!(e.rx_data_event.as_deref(), Some("/stellatune-sidecar-1-2-rx-data"));
    assert_eq!(e.rx_space_event.as_deref(), Some("/stellatune-sidecar-1-2-rx-space"));
}

#[test]
fn ring_and_semaphore_names() {
    assert_eq!(ring_file_name(12, 34, "tx", Some(0)), "ring-12-34-tx-0.shm");
    assert_eq!(ring_file_name(12, 340282366920938463463374607431768211455, "rx", None), "ring-12-340282366920938463463374607431768211455-rx.shm");
    assert_eq!(semaphore_name_for(7, 8, "tx-data"), "/stellatune-sidecar-7-8-tx-data");
    assert_eq!(normalize_semaphore_name(" name ").unwrap(), "/name");
    assert_eq!(normalize_semaphore_name("/x").unwrap(), "/x");
    match normalize_semaphore_name("  ") {
        Err(Error::InvalidInput { message }) => assert_eq!(message, "shared-memory semaphore name is empty"),
        other => panic!("unexpected: {other:?}"),
    }
    match normalize_semaphore_name("a\0b") {
        Err(Error::InvalidInput { message }) => assert_eq!(message, "shared-memory semaphore name contains NUL"),
        other => panic!("unexpected: {other:?}"),
    }
}
