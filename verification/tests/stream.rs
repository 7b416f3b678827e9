use stellatune_plugins::error::Error;
use stellatune_plugins::stream::{
    check_range_response, file_seek_from, http_fetch_target, parse_content_range_total,
    range_request_headers, read_limit, resolve_total_size, seek_target, DefaultHostStreamService,
    FileSeekFrom, HostStreamOpenRequest, HttpChunkMessage, HttpReadState, HttpSeekPlan,
    StreamHeader, StreamHttpMethod, StreamOpenKind, StreamOpenPlan, StreamSeekWhence,
    DEFAULT_TCP_CONNECT_TIMEOUT_MS,
};

fn header(name: &str, value: &str) -> StreamHeader {
    StreamHeader { name: name.to_string(), value: value.to_string() }
}

#[test]
fn requests_for_file_and_http() {
    let f = HostStreamOpenRequest::file("/music/a.flac".to_string());
    assert_eq!(f.kind, StreamOpenKind::File);
    assert_eq!(f.target, "/music/a.flac");
    assert!(f.method.is_none());
    let h = HostStreamOpenRequest::http("http://x/a".to_string());
    assert_eq!(h.kind, StreamOpenKind::Http);
    assert_eq!(h.method, Some(StreamHttpMethod::Get));
}

#[test]
fn open_plans_by_transport() {
    let svc = DefaultHostStreamService::new();
    match svc.plan_open(&HostStreamOpenRequest::file("  /a.flac ".to_string())) {
        Ok(StreamOpenPlan::File { path }) => assert_eq!(path, "/a.flac"),
        other => panic!("unexpected: {other:?}"),
    }
    let mut req = HostStreamOpenRequest::http(" http://h/x ".to_string());
    req.method = None;
    req.headers = vec![header("Accept", "*/*")];
    req.body = Some(vec![1, 2]);
    match svc.plan_open(&req) {
        Ok(StreamOpenPlan::Http { config }) => {
            assert_eq!(config.url, "http://h/x");
            assert_eq!(config.method, StreamHttpMethod::Get);
            assert_eq!(config.headers.len(), 1);
            assert_eq!(config.body, vec![1, 2]);
        },
        other => panic!("unexpected: {other:?}"),
    }
    let mut tcp = HostStreamOpenRequest::file("host:1".to_string());
    tcp.kind = StreamOpenKind::Tcp;
    match svc.plan_open(&tcp) {
        Ok(StreamOpenPlan::Tcp { target, connect_timeout_ms, read_timeout_ms }) => {
            assert_eq!(target, "host:1");
            assert_eq!(connect_timeout_ms, DEFAULT_TCP_CONNECT_TIMEOUT_MS);
            assert_eq!(read_timeout_ms, None);
        },
        other => panic!("unexpected: {other:?}"),
    }
}

#[test]
fn open_plan_errors() {
    let svc = DefaultHostStreamService::new();
    let mut req = HostStreamOpenRequest::http("   ".to_string());
    match svc.plan_open(&req) {
        Err(Error::InvalidInput { message }) => assert_eq!(message, "http target is empty"),
        other => panic!("unexpected: {other:?}"),
    }
    req.kind = StreamOpenKind::Tcp;
    match svc.plan_open(&req) {
        Err(Error::InvalidInput { message }) => assert_eq!(message, "tcp target is empty"),
        other => panic!("unexpected: {other:?}"),
    }
    req.kind = StreamOpenKind::Udp;
    match svc.plan_open(&req) {
        Err(Error::Unsupported { message }) => {
            assert_eq!(message, "udp stream transport is not implemented")
        },
        other => panic!("unexpected: {other:?}"),
    }
}

#[test]
fn content_range_totals() {
    assert_eq!(parse_content_range_total("bytes 0-99/1234"), Some(1234));
    assert_eq!(parse_content_range_total("bytes 0-99/ 77 "), Some(77));
    assert_eq!(parse_content_range_total("bytes 0-99/*"), None);
    assert_eq!(parse_content_range_total("bytes 0-99"), None);
    assert_eq!(parse_content_range_total("bytes 0-99/x"), None);
    assert_eq!(parse_content_range_total("bytes 0-99/99999999999999999999"), None);
}

#[test]
fn total_size_prefers_content_range_then_length() {
    assert_eq!(resolve_total_size(Some("bytes 10-19/500"), Some(10), 10), Some(500));
    assert_eq!(resolve_total_size(None, Some(300), 0), Some(300));
    assert_eq!(resolve_total_size(Some("bytes */*"), Some(300), 100), Some(400));
    assert_eq!(resolve_total_size(None, Some(10), u64::MAX), Some(u64::MAX));
    assert_eq!(resolve_total_size(None, None, 5), None);
}

#[test]
fn range_headers_replace_callers_range() {
    let hs = vec![header("Accept", "*/*"), header("RANGE", "bytes=0-")];
    let at0 = range_request_headers(&hs, 0);
    assert_eq!(at0.len(), 2);
    let later = range_request_headers(&hs, 4096);
    assert_eq!(later.len(), 2);
    assert_eq!(later[0].name, "Accept");
    assert_eq!(later[1].name, "Range");
    assert_eq!(later[1].value, "bytes=4096-");
}

#[test]
fn range_response_must_be_partial() {
    assert!(check_range_response("http://x", 0, 200).is_ok());
    assert!(check_range_response("http://x", 10, 206).is_ok());
    match check_range_response("http://x", 10, 200) {
        Err(Error::Unsupported { message }) => {
            assert_eq!(message, "http server does not support range seek for http://x")
        },
        other => panic!("unexpected: {other:?}"),
    }
}

fn msg(r: Result<u64, Error>) -> String {
    match r {
        Err(Error::InvalidInput { message }) | Err(Error::Unsupported { message }) => message,
        other => panic!("unexpected: {other:?}"),
    }
}

#[test]
fn seek_targets_and_their_errors() {
    assert_eq!(seek_target(5, None, 7, StreamSeekWhence::Start).unwrap(), 7);
    assert_eq!(seek_target(5, None, -2, StreamSeekWhence::Current).unwrap(), 3);
    assert_eq!(seek_target(5, Some(100), -10, StreamSeekWhence::End).unwrap(), 90);
    assert_eq!(msg(seek_target(5, None, -1, StreamSeekWhence::Start)), "negative offset with seek start");
    assert_eq!(msg(seek_target(5, None, -6, StreamSeekWhence::Current)), "seek underflow with current base");
    assert_eq!(msg(seek_target(u64::MAX, None, 1, StreamSeekWhence::Current)), "seek overflow with current base");
    assert_eq!(
        msg(seek_target(0, None, 0, StreamSeekWhence::End)),
        "seek from end is unavailable for unknown http stream size"
    );
    assert_eq!(msg(seek_target(0, Some(3), -4, StreamSeekWhence::End)), "seek underflow with end base");
    assert_eq!(msg(seek_target(0, Some(u64::MAX), 1, StreamSeekWhence::End)), "seek overflow with end base");
    assert_eq!(seek_target(0, None, i64::MIN, StreamSeekWhence::Current).is_err(), true);
}

#[test]
fn read_limit_is_at_least_one() {
    assert_eq!(read_limit(0), 1);
    assert_eq!(read_limit(4096), 4096);
}

#[test]
fn file_seeks() {
    assert_eq!(file_seek_from(3, StreamSeekWhence::Start).unwrap(), FileSeekFrom::Start(3));
    assert_eq!(file_seek_from(-3, StreamSeekWhence::Current).unwrap(), FileSeekFrom::Current(-3));
    assert_eq!(file_seek_from(-3, StreamSeekWhence::End).unwrap(), FileSeekFrom::End(-3));
    assert!(file_seek_from(-1, StreamSeekWhence::Start).is_err());
}

#[test]
fn http_reading_hands_out_chunks_in_order() {
    let mut st = HttpReadState::new(Some(10));
    let mut out = Vec::new();
    st.drain_pending_into(&mut out, 4);
    assert!(out.is_empty());
    assert!(st.wants_more(out.len(), 4));
    st.accept(HttpChunkMessage::Chunk(vec![1, 2, 3])).unwrap();
    st.drain_pending_into(&mut out, 4);
    assert_eq!(out, vec![1, 2, 3]);
    st.accept(HttpChunkMessage::Chunk(vec![4, 5, 6])).unwrap();
    st.drain_pending_into(&mut out, 4);
    assert_eq!(out, vec![1, 2, 3, 4]);
    assert!(!st.wants_more(out.len(), 4));
    assert_eq!(st.position(), 4);
    let mut next = Vec::new();
    st.drain_pending_into(&mut next, 10);
    assert_eq!(next, vec![5, 6]);
    assert_eq!(st.position(), 6);
    st.accept(HttpChunkMessage::Eof).unwrap();
    assert!(st.is_eof());
    assert!(!st.wants_more(0, 10));
    assert_eq!(st.size().unwrap(), 10);
}

#[test]
fn http_read_errors_and_unknown_size() {
    let mut st = HttpReadState::new(None);
    match st.accept(HttpChunkMessage::Error("boom".to_string())) {
        Err(Error::Operation { op, message }) => {
            assert_eq!(op, "host_stream.read");
            assert_eq!(message, "boom");
        },
        other => panic!("unexpected: {other:?}"),
    }
    st.accept(HttpChunkMessage::Closed).unwrap();
    assert!(st.is_eof());
    match st.size() {
        Err(Error::Unsupported { message }) => {
            assert_eq!(message, "size is unavailable for chunked http streams")
        },
        other => panic!("unexpected: {other:?}"),
    }
}

#[test]
fn http_seek_plans() {
    let mut st = HttpReadState::new(Some(100));
    assert_eq!(st.plan_seek(StreamHttpMethod::Post, 0, StreamSeekWhence::Current).unwrap(), HttpSeekPlan::Stay(0));
    assert_eq!(st.plan_seek(StreamHttpMethod::Get, -10, StreamSeekWhence::End).unwrap(), HttpSeekPlan::Reopen(90));
    match st.plan_seek(StreamHttpMethod::Post, 5, StreamSeekWhence::Start) {
        Err(Error::Unsupported { message }) => {
            assert_eq!(message, "http seek is only supported for GET streams")
        },
        other => panic!("unexpected: {other:?}"),
    }
    st.reopened(90, Some(100));
    assert_eq!(st.position(), 90);
    assert!(!st.is_eof());
}

#[test]
fn fetch_target_is_trimmed() {
    assert_eq!(http_fetch_target(" http://a ").unwrap(), "http://a");
    match http_fetch_target("  ") {
        Err(Error::InvalidInput { message }) => assert_eq!(message, "url is empty"),
        other => panic!("unexpected: {other:?}"),
    }
}
