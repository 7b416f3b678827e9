use stellatune_plugins::ring::{
    encode_ring_header, free_len, occupied_len, plan_read, plan_write, read_le_u32,
    semaphore_sync_action, shm_read_step, shm_ring_capacity, shm_write_follow_up, ShmReadStep, validate_ring_file, SharedByteRing, SignalAction,
    RING_HEADER_SIZE, SHM_DEFAULT_CAPACITY, SHM_MAGIC, SHM_MAX_CAPACITY, SHM_MIN_CAPACITY,
    SHM_VERSION,
};

#[test]
fn ring_round_trip_gives_back_what_was_written() {
    let mut ring = SharedByteRing::create(SHM_MIN_CAPACITY).expect("create ring");
    let data = b"stellatune-sidecar-shm";
    assert_eq!(ring.write_bytes(data), data.len());
    assert_eq!(ring.occupied_len(), data.len());
    let mut out = vec![0u8; 64];
    let n = ring.read_bytes(&mut out);
    assert_eq!(n, data.len());
    assert_eq!(&out[..n], &data[..]);
    assert_eq!(ring.occupied_len(), 0);
}

#[test]
fn ring_write_stops_when_full_and_wraps() {
    let mut ring = SharedByteRing::create(SHM_MIN_CAPACITY).expect("create ring");
    let big = vec![1u8; SHM_MIN_CAPACITY + 10];
    assert_eq!(ring.write_bytes(&big), SHM_MIN_CAPACITY);
    assert_eq!(ring.free_len(), 0);
    let mut out = vec![0u8; 100];
    assert_eq!(ring.read_bytes(&mut out), 100);
    let tail = vec![2u8; 50];
    assert_eq!(ring.write_bytes(&tail), 50);
    let mut all = vec![0u8; SHM_MIN_CAPACITY];
    let n = ring.read_bytes(&mut all);
    assert_eq!(n, SHM_MIN_CAPACITY - 100 + 50);
    assert_eq!(all[n - 1], 2);
    assert_eq!(all[0], 1);
}

#[test]
fn ring_rejects_bad_capacity() {
    assert!(SharedByteRing::create(100).is_err());
    assert!(SharedByteRing::create(SHM_MAX_CAPACITY + 1).is_err());
}

#[test]
fn occupied_and_free_lengths() {
    assert_eq!(occupied_len(100, 10, 30), 20);
    assert_eq!(free_len(100, 10, 30), 80);
    assert_eq!(occupied_len(100, 0, 500), 100);
}

#[test]
fn write_and_read_plans_wrap_at_the_end() {
    let t = plan_write(100, 0, 90, 30);
    assert_eq!((t.count, t.start, t.first), (10, 90, 10));
    let t = plan_write(100, 50, 90, 30);
    assert_eq!((t.count, t.start, t.first), (30, 90, 10));
    let t = plan_read(100, 95, 110, 100);
    assert_eq!((t.count, t.start, t.first), (15, 95, 5));
}

#[test]
fn ring_header_encodes_and_validates() {
    let cap = SHM_MIN_CAPACITY as u32;
    let header = encode_ring_header(cap);
    assert_eq!(header.len(), RING_HEADER_SIZE);
    assert_eq!(read_le_u32(&header, 0), SHM_MAGIC);
    assert_eq!(read_le_u32(&header, 4), SHM_VERSION);
    assert_eq!(read_le_u32(&header, 8), cap);
    let mut file = header.clone();
    file.extend(vec![0u8; SHM_MIN_CAPACITY]);
    assert_eq!(validate_ring_file(&file).expect("valid"), SHM_MIN_CAPACITY);
    assert!(validate_ring_file(&header[..10]).is_err());
    let mut short = file.clone();
    short.pop();
    assert!(validate_ring_file(&short).is_err());
    let mut bad = file.clone();
    bad[0] ^= 0xff;
    assert!(validate_ring_file(&bad).is_err());
}

#[test]
fn ring_capacity_from_frame_sizes() {
    assert_eq!(shm_ring_capacity(&Vec::new()), SHM_DEFAULT_CAPACITY);
    assert_eq!(shm_ring_capacity(&vec![10, 8192]), 8192);
    assert_eq!(shm_ring_capacity(&vec![10]), SHM_MIN_CAPACITY);
    assert_eq!(shm_ring_capacity(&vec![u32::MAX]), SHM_MAX_CAPACITY);
}

#[test]
fn semaphore_follows_condition_changes() {
    assert!(matches!(semaphore_sync_action(false, true), SignalAction::Post));
    assert!(matches!(semaphore_sync_action(true, false), SignalAction::Drain));
    assert!(matches!(semaphore_sync_action(true, true), SignalAction::Keep));
    assert!(matches!(semaphore_sync_action(false, false), SignalAction::Keep));
}

#[test]
fn shm_read_steps() {
    assert_eq!(shm_read_step(5, false, false, false), ShmReadStep::Deliver);
    assert_eq!(shm_read_step(0, false, false, true), ShmReadStep::ReturnEmpty);
    assert_eq!(shm_read_step(0, true, true, true), ShmReadStep::ReturnEmpty);
    assert_eq!(shm_read_step(0, true, false, true), ShmReadStep::WaitForData);
    assert_eq!(shm_read_step(0, true, false, false), ShmReadStep::Poll);
}

#[test]
fn shm_write_follow_ups() {
    assert_eq!(shm_write_follow_up(0, true), (true, true));
    assert_eq!(shm_write_follow_up(3, true), (true, false));
    assert_eq!(shm_write_follow_up(0, false), (false, false));
}

fn shared_ring_round_trip() {
    let mut ring = SharedByteRing::create(SHM_MIN_CAPACITY).expect("create ring");
    let payload = b"stellatune-sidecar-shm";
    let wrote = ring.write_bytes(payload);
    assert_eq!(wrote, payload.len());
    let mut out = vec![0_u8; payload.len()];
    let read = ring.read_bytes(&mut out);
    assert_eq!(read, payload.len());
    assert_eq!(out, payload);
}

#[test]
fn sidecar_shared_byte_ring_write_read_round_trip() {
    shared_ring_round_trip();
}

#[test]
fn tests_shared_byte_ring_write_read_round_trip() {
    shared_ring_round_trip();
}
