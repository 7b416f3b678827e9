//! The buffer between a sidecar's standard output and the reads of its stdio
//! channel: a pump appends what the process writes, marks the end of the
//! stream or a failure, and reads take the oldest bytes first.
use vstd::prelude::*;

use std::collections::VecDeque;

use crate::error::Error;

verus! {

broadcast use vstd::std_specs::vecdeque::group_vec_dequeue_axioms;

/// What the pump delivered and the reads have not taken yet.
#[derive(Debug)]
pub struct StdioStdoutBuffer {
    bytes: VecDeque<u8>,
    eof: bool,
    read_error: Option<String>,
}

/// The outcome of one attempt to read from the buffer.
#[derive(Debug)]
pub enum StdoutRead {
    /// These bytes, the oldest the buffer held.
    Data(Vec<u8>),
    /// The pump failed: the read fails with this error.
    Failed(Error),
    /// The stream ended and nothing is left: the read returns no bytes.
    Eof,
    /// Nothing is there yet: the reader waits for the pump.
    Wait,
}

pub open spec fn opt_text(o: Option<String>) -> Option<Seq<char>> {
    match o {
        Some(s) => Some(s@),
        None => None,
    }
}

/// How many bytes a read of `max_bytes` takes from `pending` bytes.
pub open spec fn take_count(pending: nat, max_bytes: u32) -> nat {
    if max_bytes < pending {
        max_bytes as nat
    } else {
        pending
    }
}

/// The message a read fails with after the pump failed with `error`.
pub open spec fn pump_failed_text(error: Seq<char>) -> Seq<char> {
    "sidecar stdout pump failed: "@ + error
}

impl StdioStdoutBuffer {
    /// The bytes delivered and not yet read, oldest first.
    pub closed spec fn pending(&self) -> Seq<u8> {
        self.bytes@
    }

    /// Whether the stream ended.
    pub closed spec fn at_eof(&self) -> bool {
        self.eof
    }

    /// The failure the pump reported, if any.
    pub closed spec fn failure(&self) -> Option<Seq<char>> {
        opt_text(self.read_error)
    }

    /// An empty buffer of a stream that is still open.
    pub fn new() -> (b: StdioStdoutBuffer)
        ensures
            b.pending() == Seq::<u8>::empty(),
            !b.at_eof(),
            b.failure() is None,
    {
        StdioStdoutBuffer { bytes: VecDeque::new(), eof: false, read_error: None }
    }

    /// Appends what the process wrote.
    pub fn push_chunk(&mut self, chunk: &[u8])
        ensures
            final(self).pending() == old(self).pending() + chunk@,
            final(self).at_eof() == old(self).at_eof(),
            final(self).failure() == old(self).failure(),
    {
        let mut i: usize = 0;
        while i < chunk.len()
            invariant
                i <= chunk@.len(),
                self.bytes@ == old(self).bytes@ + chunk@.take(i as int),
                self.eof == old(self).eof,
                self.read_error == old(self).read_error,
            decreases chunk@.len() - i,
        {
            self.bytes.push_back(chunk[i]);
            i = i + 1;
            assert(chunk@.take(i as int) =~= chunk@.take(i - 1).push(chunk@[i - 1]));
        }
        assert(chunk@.take(chunk@.len() as int) =~= chunk@);
    }

    /// Records that the stream ended.
    pub fn mark_eof(&mut self)
        ensures
            final(self).pending() == old(self).pending(),
            final(self).at_eof(),
            final(self).failure() == old(self).failure(),
    {
        self.eof = true;
    }

    /// Records that the pump failed with `error`.
    pub fn mark_error(&mut self, error: String)
        ensures
            final(self).pending() == old(self).pending(),
            final(self).at_eof() == old(self).at_eof(),
            final(self).failure() == Some(error@),
    {
        self.read_error = Some(error);
    }

    /// One attempt to read at most `max_bytes`: the oldest bytes where there
    /// are any; else the pump's failure; else the end of the stream; else a
    /// wait. A read of zero bytes takes nothing and returns at once.
    pub fn try_read(&mut self, max_bytes: u32) -> (r: StdoutRead)
        ensures
            final(self).at_eof() == old(self).at_eof(),
            final(self).failure() == old(self).failure(),
            max_bytes == 0 ==> (r matches StdoutRead::Data(v) && v@.len() == 0
                && final(self).pending() == old(self).pending()),
            max_bytes > 0 && old(self).pending().len() > 0 ==> ({
                let n = take_count(old(self).pending().len(), max_bytes) as int;
                &&& r matches StdoutRead::Data(v) && v@ == old(self).pending().take(n)
                &&& final(self).pending() == old(self).pending().skip(n)
            }),
            max_bytes > 0 && old(self).pending().len() == 0 ==> final(self).pending() == old(
                self,
            ).pending() && match old(self).failure() {
                Some(e) => r matches StdoutRead::Failed(Error::Operation { op, message }) && op@
                    == "sidecar.channel.read"@ && message@ == pump_failed_text(e),
                None => if old(self).at_eof() {
                    r is Eof
                } else {
                    r is Wait
                },
            },
    {
        if max_bytes == 0 {
            return StdoutRead::Data(Vec::new());
        }
        let len = self.bytes.len();
        if len > 0 {
            let take: usize = if (max_bytes as usize) < len {
                max_bytes as usize
            } else {
                len
            };
            let ghost before = self.bytes@;
            let mut out: Vec<u8> = Vec::new();
            let mut i: usize = 0;
            while i < take
                invariant
                    i <= take <= before.len(),
                    out@ == before.take(i as int),
                    self.bytes@ == before.skip(i as int),
                    self.eof == old(self).eof,
                    self.read_error == old(self).read_error,
                decreases take - i,
            {
                let b = self.bytes.pop_front();
                match b {
                    Some(x) => {
                        out.push(x);
                    },
                    None => {},
                }
                i = i + 1;
                assert(out@ =~= before.take(i as int));
                assert(self.bytes@ =~= before.skip(i as int));
            }
            return StdoutRead::Data(out);
        }
        match &self.read_error {
            Some(e) => {
                let message = String::from_str("sidecar stdout pump failed: ").concat(e.as_str());
                StdoutRead::Failed(Error::operation("sidecar.channel.read", message))
            },
            None => {
                if self.eof {
                    StdoutRead::Eof
                } else {
                    StdoutRead::Wait
                }
            },
        }
    }
}

/// What one read takes and what it leaves make up the bytes that were there,
/// in order: nothing is lost, repeated or reordered.
pub proof fn law_stdout_read_conserves(pending: Seq<u8>, max_bytes: u32)
    ensures
        ({
            let n = take_count(pending.len(), max_bytes) as int;
            pending.take(n) + pending.skip(n) == pending
        }),
{
    let n = take_count(pending.len(), max_bytes) as int;
    assert(pending.take(n) + pending.skip(n) =~= pending);
}

/// Bytes come out in the order they were pushed: after pushing `chunk` onto
/// what is pending, a read that takes everything returns the old bytes and
/// then the chunk.
pub proof fn law_stdout_fifo(pending: Seq<u8>, chunk: Seq<u8>, max_bytes: u32)
    requires
        max_bytes >= pending.len() + chunk.len(),
    ensures
        ({
            let all = pending + chunk;
            let n = take_count(all.len(), max_bytes) as int;
            all.take(n) == pending + chunk && all.skip(n) == Seq::<u8>::empty()
        }),
{
    let all = pending + chunk;
    assert(all.take(all.len() as int) =~= all);
    assert(all.skip(all.len() as int) =~= Seq::<u8>::empty());
}

} // verus!
