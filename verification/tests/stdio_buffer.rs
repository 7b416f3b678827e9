use stellatune_plugins::error::Error;
use stellatune_plugins::stdio_buffer::{StdioStdoutBuffer, StdoutRead};

fn data(r: StdoutRead) -> Vec<u8> {
    match r {
        StdoutRead::Data(v) => v,
        other => panic!("expected data, got {other:?}"),
    }
}

#[test]
fn stdout_reads_oldest_bytes_first() {
    let mut b = StdioStdoutBuffer::new();
    b.push_chunk(b"hello ");
    b.push_chunk(b"world");
    assert_eq!(data(b.try_read(3)), b"hel".to_vec());
    assert_eq!(data(b.try_read(100)), b"lo world".to_vec());
    assert!(matches!(b.try_read(4), StdoutRead::Wait));
}

#[test]
fn stdout_zero_byte_read_takes_nothing() {
    let mut b = StdioStdoutBuffer::new();
    b.push_chunk(b"abc");
    assert_eq!(data(b.try_read(0)), Vec::<u8>::new());
    assert_eq!(data(b.try_read(3)), b"abc".to_vec());
}

#[test]
fn stdout_end_after_pending_bytes() {
    let mut b = StdioStdoutBuffer::new();
    b.push_chunk(b"xy");
    b.mark_eof();
    assert_eq!(data(b.try_read(8)), b"xy".to_vec());
    assert!(matches!(b.try_read(8), StdoutRead::Eof));
}

#[test]
fn stdout_pump_failure_is_reported_once_drained() {
    let mut b = StdioStdoutBuffer::new();
    b.push_chunk(b"z");
    b.mark_error("broken pipe".to_string());
    assert_eq!(data(b.try_read(8)), b"z".to_vec());
    match b.try_read(8) {
        StdoutRead::Failed(Error::Operation { op, message }) => {
            assert_eq!(op, "sidecar.channel.read");
            assert_eq!(message, "sidecar stdout pump failed: broken pipe");
        },
        other => panic!("expected failure, got {other:?}"),
    }
}

#[test]
fn stdout_failure_wins_over_end_of_stream() {
    let mut b = StdioStdoutBuffer::new();
    b.mark_eof();
    b.mark_error("gone".to_string());
    assert!(matches!(b.try_read(1), StdoutRead::Failed(_)));
}
