//! Byte streams that the host opens for plugins: the request model, how a
//! request is dispatched to a transport, the headers of an HTTP range
//! request, and the read and seek bookkeeping of an HTTP stream.
use vstd::prelude::*;
use crate::error::Error;
use crate::text::{
    chars_of, dec_digits, find_char_in, first_index, parse_uint_range, parse_uint_spec, push_decimal,
    range_eq, string_of, trim_range, trim_s, trim_string,
};
use crate::env::{eq_ignore_ascii_case, eq_ignore_case};

verus! {

/// Where a seek offset is measured from.
#[derive(Debug, Clone, Copy, PartialEq, Eq, Structural)]
pub enum StreamSeekWhence {
    Start,
    Current,
    End,
}

/// The transport a stream is opened over.
#[derive(Debug, Clone, Copy, PartialEq, Eq, Structural)]
pub enum StreamOpenKind {
    File,
    Http,
    Tcp,
    Udp,
}

#[derive(Debug, Clone, Copy, PartialEq, Eq, Structural)]
pub enum StreamHttpMethod {
    Get,
    Post,
    Put,
    Delete,
    Head,
    Patch,
}

/// One request header.
#[derive(Debug)]
pub struct StreamHeader {
    pub name: String,
    pub value: String,
}

/// What a plugin asks the host to open.
#[derive(Debug)]
pub struct HostStreamOpenRequest {
    pub kind: StreamOpenKind,
    pub target: String,
    pub method: Option<StreamHttpMethod>,
    pub headers: Vec<StreamHeader>,
    pub body: Option<Vec<u8>>,
    pub connect_timeout_ms: Option<u32>,
    pub read_timeout_ms: Option<u32>,
}

impl HostStreamOpenRequest {
    /// A request for a local file.
    pub fn file(path: String) -> (r: HostStreamOpenRequest)
        ensures
            r.kind == StreamOpenKind::File,
            r.target@ == path@,
            r.method is None,
            r.headers@.len() == 0,
            r.body is None,
            r.connect_timeout_ms is None,
            r.read_timeout_ms is None,
    {
        HostStreamOpenRequest {
            kind: StreamOpenKind::File,
            target: path,
            method: None,
            headers: Vec::new(),
            body: None,
            connect_timeout_ms: None,
            read_timeout_ms: None,
        }
    }

    /// A `GET` request for a URL.
    pub fn http(url: String) -> (r: HostStreamOpenRequest)
        ensures
            r.kind == StreamOpenKind::Http,
            r.target@ == url@,
            r.method == Some(StreamHttpMethod::Get),
            r.headers@.len() == 0,
            r.body is None,
            r.connect_timeout_ms is None,
            r.read_timeout_ms is None,
    {
        HostStreamOpenRequest {
            kind: StreamOpenKind::Http,
            target: url,
            method: Some(StreamHttpMethod::Get),
            headers: Vec::new(),
            body: None,
            connect_timeout_ms: None,
            read_timeout_ms: None,
        }
    }
}

/// An open stream, as a plugin reads it.
pub trait HostStreamHandle {
    fn read(&mut self, max_bytes: u32) -> Result<Vec<u8>, Error>;

    fn seek(&mut self, offset: i64, whence: StreamSeekWhence) -> Result<u64, Error>;

    fn tell(&mut self) -> Result<u64, Error>;

    fn size(&mut self) -> Result<u64, Error>;

    fn close(&mut self) {
    }
}

/// Opens streams for plugins.
pub trait HostStreamService {
    type Handle: HostStreamHandle;

    fn open(&self, request: &HostStreamOpenRequest) -> Result<Self::Handle, Error>;
}

/// The headers as (name, value) texts.
pub open spec fn header_views(hs: Seq<StreamHeader>) -> Seq<(Seq<char>, Seq<char>)> {
    hs.map_values(|h: StreamHeader| (h.name@, h.value@))
}

/// A copy of a header list.
pub fn clone_headers(hs: &Vec<StreamHeader>) -> (r: Vec<StreamHeader>)
    ensures
        header_views(r@) == header_views(hs@),
{
    let mut out: Vec<StreamHeader> = Vec::new();
    let mut i: usize = 0;
    while i < hs.len()
        invariant
            i <= hs@.len(),
            out@.len() == i,
            header_views(out@) == header_views(hs@.take(i as int)),
        decreases hs@.len() - i,
    {
        let name = hs[i].name.clone();
        let value = hs[i].value.clone();
        assert(name@ == hs@[i as int].name@ && value@ == hs@[i as int].value@);
        let h = StreamHeader { name, value };
        let ghost prev = out@;
        out.push(h);
        proof {
            assert(out@ == prev.push(h));
            assert forall|k: int| 0 <= k < i + 1 implies header_views(out@)[k] == header_views(
                hs@.take(i + 1),
            )[k] by {
                if k < i {
                    assert(header_views(prev)[k] == header_views(hs@.take(i as int))[k]);
                    assert(hs@.take(i as int)[k] == hs@.take(i + 1)[k]);
                }
            }
        }
        i = i + 1;
        assert(header_views(out@) =~= header_views(hs@.take(i as int)));
    }
    assert(hs@.take(hs@.len() as int) =~= hs@);
    out
}

/// A copy of a byte vector.
pub fn clone_bytes(b: &Vec<u8>) -> (r: Vec<u8>)
    ensures
        r@ == b@,
{
    let mut out: Vec<u8> = Vec::new();
    let mut i: usize = 0;
    while i < b.len()
        invariant
            i <= b@.len(),
            out@ == b@.take(i as int),
        decreases b@.len() - i,
    {
        out.push(b[i]);
        i = i + 1;
        assert(out@ =~= b@.take(i as int));
    }
    assert(b@.take(b@.len() as int) =~= b@);
    out
}

/// What the HTTP transport is opened with.
#[derive(Debug)]
pub struct HttpStreamConfig {
    pub url: String,
    pub method: StreamHttpMethod,
    pub headers: Vec<StreamHeader>,
    pub body: Vec<u8>,
    pub connect_timeout_ms: Option<u32>,
    pub read_timeout_ms: Option<u32>,
}

/// How a request is to be opened.
#[derive(Debug)]
pub enum StreamOpenPlan {
    /// Open the local file at `path`.
    File { path: String },
    /// Start an HTTP transfer.
    Http { config: HttpStreamConfig },
    /// Connect to a TCP address.
    Tcp { target: String, connect_timeout_ms: u32, read_timeout_ms: Option<u32> },
}

/// How long a TCP connect waits where the request names no limit.
pub const DEFAULT_TCP_CONNECT_TIMEOUT_MS: u32 = 10000;

/// The host's own stream service: local files, HTTP and TCP.
#[derive(Debug)]
pub struct DefaultHostStreamService;

impl DefaultHostStreamService {
    pub fn new() -> (s: DefaultHostStreamService) {
        DefaultHostStreamService
    }

    /// Decides how `request` is opened: a file by its trimmed path, HTTP and
    /// TCP by their trimmed, non-empty target; UDP is refused.
    pub fn plan_open(&self, request: &HostStreamOpenRequest) -> (r: Result<StreamOpenPlan, Error>)
        ensures
            match request.kind {
                StreamOpenKind::File => r matches Ok(StreamOpenPlan::File { path }) && path@
                    == trim_s(request.target@),
                StreamOpenKind::Http => if trim_s(request.target@).len() == 0 {
                    r matches Err(Error::InvalidInput { message }) && message@
                        == "http target is empty"@
                } else {
                    r matches Ok(StreamOpenPlan::Http { config }) && config.url@ == trim_s(
                        request.target@,
                    ) && config.method == (match request.method {
                        Some(m) => m,
                        None => StreamHttpMethod::Get,
                    }) && header_views(config.headers@) == header_views(request.headers@)
                        && config.body@ == (match request.body {
                        Some(b) => b@,
                        None => Seq::<u8>::empty(),
                    }) && config.connect_timeout_ms == request.connect_timeout_ms
                        && config.read_timeout_ms == request.read_timeout_ms
                },
                StreamOpenKind::Tcp => if trim_s(request.target@).len() == 0 {
                    r matches Err(Error::InvalidInput { message }) && message@
                        == "tcp target is empty"@
                } else {
                    r matches Ok(StreamOpenPlan::Tcp { target, connect_timeout_ms, read_timeout_ms })
                        && target@ == trim_s(request.target@) && connect_timeout_ms == (
                    match request.connect_timeout_ms {
                        Some(t) => t,
                        None => DEFAULT_TCP_CONNECT_TIMEOUT_MS,
                    }) && read_timeout_ms == request.read_timeout_ms
                },
                StreamOpenKind::Udp => r matches Err(Error::Unsupported { message }) && message@
                    == "udp stream transport is not implemented"@,
            },
    {
        match request.kind {
            StreamOpenKind::File => {
                let path = trim_string(request.target.as_str());
                Ok(StreamOpenPlan::File { path })
            },
            StreamOpenKind::Http => {
                let url = trim_string(request.target.as_str());
                if url.as_str().is_empty() {
                    return Err(Error::invalid_input("http target is empty"));
                }
                let method = match request.method {
                    Some(m) => m,
                    None => StreamHttpMethod::Get,
                };
                let body = match &request.body {
                    Some(b) => clone_bytes(b),
                    None => Vec::new(),
                };
                let config = HttpStreamConfig {
                    url,
                    method,
                    headers: clone_headers(&request.headers),
                    body,
                    connect_timeout_ms: request.connect_timeout_ms,
                    read_timeout_ms: request.read_timeout_ms,
                };
                Ok(StreamOpenPlan::Http { config })
            },
            StreamOpenKind::Tcp => {
                let target = trim_string(request.target.as_str());
                if target.as_str().is_empty() {
                    return Err(Error::invalid_input("tcp target is empty"));
                }
                let connect_timeout_ms = match request.connect_timeout_ms {
                    Some(t) => t,
                    None => DEFAULT_TCP_CONNECT_TIMEOUT_MS,
                };
                Ok(StreamOpenPlan::Tcp {
                    target,
                    connect_timeout_ms,
                    read_timeout_ms: request.read_timeout_ms,
                })
            },
            StreamOpenKind::Udp => Err(
                Error::unsupported("udp stream transport is not implemented"),
            ),
        }
    }
}

/// The total length that a `Content-Range` value states after its `/`, or
/// `None` where it names none (`*`) or the text after the `/` is no number.
pub open spec fn content_range_total_spec(s: Seq<char>) -> Option<nat> {
    let k = first_index(s, '/');
    if k < 0 {
        None
    } else {
        let t = trim_s(s.subrange(k + 1, s.len() as int));
        if t == seq!['*'] {
            None
        } else {
            parse_uint_spec(t, 0xffff_ffff_ffff_ffff)
        }
    }
}

/// Reads the total length of a `Content-Range` header value.
pub fn parse_content_range_total(content_range: &str) -> (r: Option<u64>)
    ensures
        match r {
            Some(n) => content_range_total_spec(content_range@) == Some(n as nat),
            None => content_range_total_spec(content_range@) is None,
        },
{
    let v = chars_of(content_range);
    let n = v.len();
    assert(v@.subrange(0, n as int) =~= v@);
    let k = match find_char_in(&v, 0, n, '/') {
        Some(k) => k,
        None => return None,
    };
    let (a, b) = trim_range(&v, k + 1, n);
    if b - a == 1 && v[a] == '*' {
        assert(v@.subrange(a as int, b as int) =~= seq!['*']);
        return None;
    }
    assert(v@.subrange(a as int, b as int) != seq!['*']) by {
        if v@.subrange(a as int, b as int) == seq!['*'] {
            assert(v@.subrange(a as int, b as int)[0] == v@[a as int]);
        }
    }
    parse_uint_range(&v, a, b, 0xffff_ffff_ffff_ffffu64)
}

/// The total size of an HTTP stream: the `Content-Range` total where there is
/// one; otherwise the body length, which a ranged response counts from
/// `start_offset` on (the sum saturates).
pub open spec fn total_size_spec(content_range: Option<Seq<char>>, content_length: Option<u64>, start_offset: u64) -> Option<nat> {
    let from_range = match content_range {
        Some(c) => content_range_total_spec(c),
        None => None,
    };
    if from_range is Some {
        from_range
    } else {
        match content_length {
            None => None,
            Some(len) => if start_offset + len > 0xffff_ffff_ffff_ffff {
                Some(0xffff_ffff_ffff_ffff)
            } else {
                Some((start_offset + len) as nat)
            },
        }
    }
}

/// Decides the total size of an HTTP stream opened at `start_offset` from
/// the response's `Content-Range` header value and body length.
pub fn resolve_total_size(content_range: Option<&str>, content_length: Option<u64>, start_offset: u64) -> (r: Option<u64>)
    ensures
        match r {
            Some(n) => total_size_spec(
                match content_range {
                    Some(c) => Some(c@),
                    None => None,
                },
                content_length,
                start_offset,
            ) == Some(n as nat),
            None => total_size_spec(
                match content_range {
                    Some(c) => Some(c@),
                    None => None,
                },
                content_length,
                start_offset,
            ) is None,
        },
{
    if let Some(c) = content_range {
        if let Some(total) = parse_content_range_total(c) {
            return Some(total);
        }
    }
    match content_length {
        None => None,
        Some(len) => Some(start_offset.saturating_add(len)),
    }
}

/// The header list without its `Range` headers (any ASCII case).
pub open spec fn without_range_headers(hs: Seq<(Seq<char>, Seq<char>)>) -> Seq<(Seq<char>, Seq<char>)>
    decreases hs.len(),
{
    if hs.len() == 0 {
        seq![]
    } else {
        let rest = without_range_headers(hs.drop_last());
        if eq_ignore_case(hs.last().0, "range"@) {
            rest
        } else {
            rest.push(hs.last())
        }
    }
}

/// The headers an HTTP request is sent with when it starts at
/// `start_offset`: from a later offset, the caller's `Range` headers give way
/// to `Range: bytes=<start_offset>-`.
pub open spec fn range_request_headers_spec(hs: Seq<(Seq<char>, Seq<char>)>, start_offset: u64) -> Seq<
    (Seq<char>, Seq<char>),
> {
    if start_offset == 0 {
        hs
    } else {
        without_range_headers(hs).push(("Range"@, "bytes="@ + dec_digits(start_offset as nat) + "-"@))
    }
}

/// Builds the header list of an HTTP request that starts at `start_offset`.
pub fn range_request_headers(headers: &Vec<StreamHeader>, start_offset: u64) -> (r: Vec<StreamHeader>)
    ensures
        header_views(r@) == range_request_headers_spec(header_views(headers@), start_offset),
{
    if start_offset == 0 {
        return clone_headers(headers);
    }
    let range_name = String::from_str("range");
    let mut out: Vec<StreamHeader> = Vec::new();
    let mut i: usize = 0;
    while i < headers.len()
        invariant
            i <= headers@.len(),
            range_name@ == "range"@,
            header_views(out@) == without_range_headers(header_views(headers@.take(i as int))),
        decreases headers@.len() - i,
    {
        let ghost prefix = header_views(headers@.take(i as int));
        let ghost next = header_views(headers@.take(i + 1));
        assert(next.drop_last() =~= prefix);
        assert(next.last() == (headers@[i as int].name@, headers@[i as int].value@));
        if !eq_ignore_ascii_case(&headers[i].name, &range_name) {
            let name = headers[i].name.clone();
            let value = headers[i].value.clone();
            let h = StreamHeader { name, value };
            out.push(h);
            assert(header_views(out@) =~= without_range_headers(prefix).push(next.last()));
        }
        i = i + 1;
    }
    assert(headers@.take(headers@.len() as int) =~= headers@);
    let mut text = chars_of("bytes=");
    push_decimal(&mut text, start_offset);
    text.push('-');
    proof {
        reveal_strlit("bytes=");
        reveal_strlit("-");
        assert(text@ =~= "bytes="@ + dec_digits(start_offset as nat) + "-"@);
    }
    let h = StreamHeader { name: String::from_str("Range"), value: string_of(&text) };
    out.push(h);
    assert(header_views(out@) =~= range_request_headers_spec(header_views(headers@), start_offset));
    out
}

/// Accepts the response to a request that started at `start_offset`: from a
/// later offset only `206 Partial Content` will do.
pub fn check_range_response(url: &str, start_offset: u64, status: u16) -> (r: Result<(), Error>)
    ensures
        r is Ok <==> (start_offset == 0 || status == 206),
        r matches Err(e) ==> e matches Error::Unsupported { message } && message@
            == "http server does not support range seek for "@ + url@,
{
    if start_offset > 0 && status != 206 {
        let message = String::from_str("http server does not support range seek for ").concat(url);
        return Err(Error::Unsupported { message });
    }
    Ok(())
}

/// The position a seek lands on, or `None` where it would leave the range of
/// `u64`, start before 0, or is measured from an end that is not known.
pub open spec fn seek_target_value(position: u64, total_size: Option<u64>, offset: i64, whence: StreamSeekWhence) -> Option<int> {
    let t = match whence {
        StreamSeekWhence::Start => Some(offset as int),
        StreamSeekWhence::Current => Some(position + offset),
        StreamSeekWhence::End => match total_size {
            Some(e) => Some(e + offset),
            None => None,
        },
    };
    match t {
        Some(v) => if 0 <= v <= 0xffff_ffff_ffff_ffff {
            Some(v)
        } else {
            None
        },
        None => None,
    }
}

/// The position an HTTP stream at `position`, of `total_size` bytes where
/// known, seeks to; each way of failing has its own error.
pub fn seek_target(position: u64, total_size: Option<u64>, offset: i64, whence: StreamSeekWhence) -> (r: Result<u64, Error>)
    ensures
        match r {
            Ok(t) => seek_target_value(position, total_size, offset, whence) == Some(t as int),
            Err(_) => seek_target_value(position, total_size, offset, whence) is None,
        },
        match whence {
            StreamSeekWhence::Start => r matches Err(e) ==> e matches Error::InvalidInput { message }
                && message@ == "negative offset with seek start"@,
            StreamSeekWhence::Current => r matches Err(e) ==> e matches Error::InvalidInput {
                message,
            } && message@ == (if offset >= 0 {
                "seek overflow with current base"@
            } else {
                "seek underflow with current base"@
            }),
            StreamSeekWhence::End => r matches Err(e) ==> match total_size {
                None => e matches Error::Unsupported { message } && message@
                    == "seek from end is unavailable for unknown http stream size"@,
                Some(_) => e matches Error::InvalidInput { message } && message@ == (if offset >= 0 {
                    "seek overflow with end base"@
                } else {
                    "seek underflow with end base"@
                }),
            },
        },
{
    match whence {
        StreamSeekWhence::Start => {
            if offset < 0 {
                return Err(Error::invalid_input("negative offset with seek start"));
            }
            Ok(offset as u64)
        },
        StreamSeekWhence::Current => {
            if offset >= 0 {
                match position.checked_add(offset as u64) {
                    Some(t) => Ok(t),
                    None => Err(Error::invalid_input("seek overflow with current base")),
                }
            } else {
                let back: u64 = (0i128 - offset as i128) as u64;
                match position.checked_sub(back) {
                    Some(t) => Ok(t),
                    None => Err(Error::invalid_input("seek underflow with current base")),
                }
            }
        },
        StreamSeekWhence::End => {
            let end = match total_size {
                Some(e) => e,
                None => {
                    return Err(
                        Error::unsupported(
                            "seek from end is unavailable for unknown http stream size",
                        ),
                    );
                },
            };
            if offset >= 0 {
                match end.checked_add(offset as u64) {
                    Some(t) => Ok(t),
                    None => Err(Error::invalid_input("seek overflow with end base")),
                }
            } else {
                let back: u64 = (0i128 - offset as i128) as u64;
                match end.checked_sub(back) {
                    Some(t) => Ok(t),
                    None => Err(Error::invalid_input("seek underflow with end base")),
                }
            }
        },
    }
}

/// How many bytes a read of `max_bytes` asks for: at least one.
pub fn read_limit(max_bytes: u32) -> (r: usize)
    ensures
        r == (if max_bytes == 0 {
            1
        } else {
            max_bytes as int
        }),
{
    if max_bytes == 0 {
        1
    } else {
        max_bytes as usize
    }
}

/// A seek of a local file, in the terms of the file API.
#[derive(Debug, Clone, Copy, PartialEq, Eq, Structural)]
pub enum FileSeekFrom {
    Start(u64),
    Current(i64),
    End(i64),
}

/// Turns a plugin's seek into a seek of a local file: only a negative offset
/// from the start is refused.
pub fn file_seek_from(offset: i64, whence: StreamSeekWhence) -> (r: Result<FileSeekFrom, Error>)
    ensures
        match whence {
            StreamSeekWhence::Start => if offset < 0 {
                r matches Err(Error::InvalidInput { message }) && message@
                    == "negative offset with seek start"@
            } else {
                r == Ok::<FileSeekFrom, Error>(FileSeekFrom::Start(offset as u64))
            },
            StreamSeekWhence::Current => r == Ok::<FileSeekFrom, Error>(FileSeekFrom::Current(offset)),
            StreamSeekWhence::End => r == Ok::<FileSeekFrom, Error>(FileSeekFrom::End(offset)),
        },
{
    match whence {
        StreamSeekWhence::Start => {
            if offset < 0 {
                return Err(Error::invalid_input("negative offset with seek start"));
            }
            Ok(FileSeekFrom::Start(offset as u64))
        },
        StreamSeekWhence::Current => Ok(FileSeekFrom::Current(offset)),
        StreamSeekWhence::End => Ok(FileSeekFrom::End(offset)),
    }
}

/// What the HTTP transfer hands the reading side.
#[derive(Debug)]
pub enum HttpChunkMessage {
    /// The next bytes of the body.
    Chunk(Vec<u8>),
    /// The body ended.
    Eof,
    /// The transfer failed with this message.
    Error(String),
    /// The transfer went away without a word.
    Closed,
}

/// What a seek of an HTTP stream does.
#[derive(Debug, Clone, Copy, PartialEq, Eq, Structural)]
pub enum HttpSeekPlan {
    /// The stream is already there.
    Stay(u64),
    /// Start a new transfer at this offset.
    Reopen(u64),
}

/// The reading side of an HTTP stream: the bytes received and not yet read,
/// the stream position, whether the body ended, and its total size where
/// known.
#[derive(Debug)]
pub struct HttpReadState {
    pending: Vec<u8>,
    pending_offset: usize,
    position: u64,
    eof: bool,
    total_size: Option<u64>,
}

impl HttpReadState {
    pub closed spec fn wf(&self) -> bool {
        self.pending_offset <= self.pending@.len()
    }

    /// Bytes received and not yet handed out, in order.
    pub closed spec fn unread(&self) -> Seq<u8> {
        self.pending@.subrange(self.pending_offset as int, self.pending@.len() as int)
    }

    pub closed spec fn position_spec(&self) -> u64 {
        self.position
    }

    pub closed spec fn eof_spec(&self) -> bool {
        self.eof
    }

    pub closed spec fn total_size_spec(&self) -> Option<u64> {
        self.total_size
    }

    /// A stream at offset 0 with nothing received yet.
    pub fn new(total_size: Option<u64>) -> (s: HttpReadState)
        ensures
            s.wf(),
            s.unread().len() == 0,
            s.position_spec() == 0,
            !s.eof_spec(),
            s.total_size_spec() == total_size,
    {
        HttpReadState { pending: Vec::new(), pending_offset: 0, position: 0, eof: false, total_size }
    }

    /// The stream position (`tell`).
    pub fn position(&self) -> (p: u64)
        ensures
            p == self.position_spec(),
    {
        self.position
    }

    pub fn is_eof(&self) -> (b: bool)
        ensures
            b == self.eof_spec(),
    {
        self.eof
    }

    /// The total size, where the server stated one.
    pub fn size(&self) -> (r: Result<u64, Error>)
        ensures
            match self.total_size_spec() {
                Some(t) => r == Ok::<u64, Error>(t),
                None => r matches Err(Error::Unsupported { message }) && message@
                    == "size is unavailable for chunked http streams"@,
            },
    {
        match self.total_size {
            Some(t) => Ok(t),
            None => Err(Error::unsupported("size is unavailable for chunked http streams")),
        }
    }

    /// Moves received bytes to `out` until it holds `max_bytes` or nothing
    /// received is left; the position advances by as many (saturating).
    pub fn drain_pending_into(&mut self, out: &mut Vec<u8>, max_bytes: usize)
        requires
            old(self).wf(),
        ensures
            final(self).wf(),
            ({
                let room: int = if old(out)@.len() >= max_bytes {
                    0
                } else {
                    max_bytes - old(out)@.len()
                };
                let take: int = if old(self).unread().len() <= room {
                    old(self).unread().len() as int
                } else {
                    room
                };
                &&& final(out)@ == old(out)@ + old(self).unread().take(take)
                &&& final(self).unread() == old(self).unread().skip(take)
                &&& final(self).position_spec() == (if old(self).position_spec() + take
                    > 0xffff_ffff_ffff_ffff {
                    0xffff_ffff_ffff_ffff
                } else {
                    old(self).position_spec() + take
                })
            }),
            final(self).eof_spec() == old(self).eof_spec(),
            final(self).total_size_spec() == old(self).total_size_spec(),
    {
        let ghost unread0 = self.unread();
        if self.pending_offset >= self.pending.len() {
            assert(unread0.take(0) =~= Seq::<u8>::empty());
            assert(unread0.skip(0) =~= unread0);
            assert(out@ =~= old(out)@ + unread0.take(0));
            return;
        }
        let remain = self.pending.len() - self.pending_offset;
        let room = max_bytes.saturating_sub(out.len());
        let take = if remain <= room {
            remain
        } else {
            room
        };
        if take == 0 {
            assert(unread0.take(0) =~= Seq::<u8>::empty());
            assert(unread0.skip(0) =~= unread0);
            assert(out@ =~= old(out)@ + unread0.take(0));
            return;
        }
        let start = self.pending_offset;
        let end = start + take;
        let mut i: usize = start;
        while i < end
            invariant
                start <= i <= end <= self.pending@.len(),
                self.pending_offset == start,
                unread0 == self.pending@.subrange(start as int, self.pending@.len() as int),
                out@ == old(out)@ + unread0.take(i - start),
            decreases end - i,
        {
            out.push(self.pending[i]);
            i = i + 1;
            assert(out@ =~= old(out)@ + unread0.take(i - start));
        }
        self.pending_offset = end;
        self.position = self.position.saturating_add(take as u64);
        assert(self.unread() =~= unread0.skip(take as int));
        if self.pending_offset >= self.pending.len() {
            self.pending = Vec::new();
            self.pending_offset = 0;
            assert(self.unread() =~= unread0.skip(take as int));
        }
    }

    /// Whether a read that holds `out_len` of `limit` bytes waits for more.
    pub fn wants_more(&self, out_len: usize, limit: usize) -> (b: bool)
        ensures
            b == (out_len < limit && !self.eof_spec()),
    {
        !(out_len >= limit || self.eof)
    }

    /// Takes in what the transfer sent: a chunk becomes the bytes to read
    /// (what was left unread is dropped), the end of the body or of the
    /// transfer ends the stream, and a transfer error fails the read.
    pub fn accept(&mut self, message: HttpChunkMessage) -> (r: Result<(), Error>)
        requires
            old(self).wf(),
        ensures
            final(self).wf(),
            final(self).position_spec() == old(self).position_spec(),
            final(self).total_size_spec() == old(self).total_size_spec(),
            match message {
                HttpChunkMessage::Chunk(c) => r is Ok && final(self).unread() == c@
                    && final(self).eof_spec() == old(self).eof_spec(),
                HttpChunkMessage::Eof => r is Ok && final(self).eof_spec() && final(self).unread()
                    == old(self).unread(),
                HttpChunkMessage::Closed => r is Ok && final(self).eof_spec()
                    && final(self).unread() == old(self).unread(),
                HttpChunkMessage::Error(m) => (r matches Err(Error::Operation { op, message })
                    && op@ == "host_stream.read"@ && message@ == m@) && final(self).unread()
                    == old(self).unread() && final(self).eof_spec() == old(self).eof_spec(),
            },
    {
        match message {
            HttpChunkMessage::Chunk(chunk) => {
                self.pending = chunk;
                self.pending_offset = 0;
                assert(self.unread() =~= self.pending@);
                Ok(())
            },
            HttpChunkMessage::Eof => {
                self.eof = true;
                Ok(())
            },
            HttpChunkMessage::Closed => {
                self.eof = true;
                Ok(())
            },
            HttpChunkMessage::Error(m) => Err(Error::operation("host_stream.read", m)),
        }
    }

    /// Decides a seek of a stream opened with `method`: the position stays
    /// where the target is the current position; any other target needs a
    /// new `GET` transfer.
    pub fn plan_seek(&self, method: StreamHttpMethod, offset: i64, whence: StreamSeekWhence) -> (r:
        Result<HttpSeekPlan, Error>)
        ensures
            match seek_target_value(self.position_spec(), self.total_size_spec(), offset, whence) {
                None => r is Err,
                Some(t) => if t == self.position_spec() {
                    r == Ok::<HttpSeekPlan, Error>(HttpSeekPlan::Stay(self.position_spec()))
                } else if method != StreamHttpMethod::Get {
                    r matches Err(Error::Unsupported { message }) && message@
                        == "http seek is only supported for GET streams"@
                } else {
                    r == Ok::<HttpSeekPlan, Error>(HttpSeekPlan::Reopen(t as u64))
                },
            },
    {
        let target = match seek_target(self.position, self.total_size, offset, whence) {
            Ok(t) => t,
            Err(e) => return Err(e),
        };
        if target == self.position {
            return Ok(HttpSeekPlan::Stay(self.position));
        }
        if method != StreamHttpMethod::Get {
            return Err(Error::unsupported("http seek is only supported for GET streams"));
        }
        Ok(HttpSeekPlan::Reopen(target))
    }

    /// The state after a new transfer started at `position`.
    pub fn reopened(&mut self, position: u64, total_size: Option<u64>)
        ensures
            final(self).wf(),
            final(self).unread().len() == 0,
            final(self).position_spec() == position,
            !final(self).eof_spec(),
            final(self).total_size_spec() == total_size,
    {
        self.pending = Vec::new();
        self.pending_offset = 0;
        self.position = position;
        self.eof = false;
        self.total_size = total_size;
    }
}

/// Seeking to where the stream already is needs no new transfer, whatever
/// the method.
pub proof fn law_seek_to_current_position_stays(position: u64, total_size: Option<u64>)
    ensures
        seek_target_value(position, total_size, 0, StreamSeekWhence::Current) == Some(position as int),
        position <= 0x7fff_ffff_ffff_ffff ==> seek_target_value(
            position,
            total_size,
            position as i64,
            StreamSeekWhence::Start,
        ) == Some(position as int),
{
}

/// Draining never loses or invents bytes: what was handed out and what is
/// left unread together are what was unread before.
pub proof fn law_drain_conserves_bytes(before: Seq<u8>, out_before: Seq<u8>, out_after: Seq<u8>, after: Seq<u8>, take: int)
    requires
        0 <= take <= before.len(),
        out_after == out_before + before.take(take),
        after == before.skip(take),
    ensures
        out_after + after == out_before + before,
{
    assert(before.take(take) + before.skip(take) =~= before);
    assert(out_after + after =~= out_before + before);
}

/// Fetches JSON documents over HTTP for plugins.
pub trait HttpClientHost {
    fn fetch_json(&self, url: &str) -> Result<String, Error>;
}

/// The URL a JSON fetch goes to: the trimmed URL; a blank one is refused.
pub fn http_fetch_target(url: &str) -> (r: Result<String, Error>)
    ensures
        trim_s(url@).len() == 0 ==> (r matches Err(Error::InvalidInput { message }) && message@
            == "url is empty"@),
        trim_s(url@).len() > 0 ==> (r matches Ok(u) && u@ == trim_s(url@)),
{
    let u = trim_string(url);
    if u.as_str().is_empty() {
        return Err(Error::invalid_input("url is empty"));
    }
    Ok(u)
}

} // verus!
