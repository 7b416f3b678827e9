//! The byte ring that carries a shared-memory sidecar channel: a header with
//! magic, version, capacity and two monotone positions, followed by the data
//! area. The position arithmetic here is shared by the in-memory ring of this
//! module and by the memory-mapped ring that the host maps from a file.
use vstd::prelude::*;

use crate::error::Error;

verus! {

pub const SHM_MAGIC: u32 = 0x53544D52;

pub const SHM_VERSION: u32 = 1;

pub const SHM_MIN_CAPACITY: usize = 4096;

pub const SHM_MAX_CAPACITY: usize = 67108864;

pub const SHM_DEFAULT_CAPACITY: usize = 1048576;

/// Bytes of the header: magic, version, capacity, a reserved word, then the
/// write and read positions as 64-bit words.
pub const RING_HEADER_SIZE: usize = 32;

pub open spec fn min_int(a: int, b: int) -> int {
    if a <= b {
        a
    } else {
        b
    }
}

/// Bytes between the read and the write position, as the ring counts them.
pub open spec fn occupied_spec(capacity: int, read_pos: int, write_pos: int) -> int {
    if write_pos <= read_pos {
        0
    } else {
        min_int(write_pos - read_pos, capacity)
    }
}

/// Where one write or read touches the data area: `count` bytes from `start`,
/// of which the first `first` lie before the end of the area and the rest wrap
/// round to its beginning.
#[derive(Debug)]
pub struct RingTransfer {
    pub count: usize,
    pub start: usize,
    pub first: usize,
}

/// The bytes a ring holds (`write_pos - read_pos`, capped at the capacity).
pub fn occupied_len(capacity: usize, read_pos: u64, write_pos: u64) -> (r: usize)
    ensures
        r == occupied_spec(capacity as int, read_pos as int, write_pos as int),
{
    let used = write_pos.saturating_sub(read_pos);
    if used < capacity as u64 {
        used as usize
    } else {
        capacity
    }
}

/// The bytes a ring can still take.
pub fn free_len(capacity: usize, read_pos: u64, write_pos: u64) -> (r: usize)
    ensures
        r == capacity - occupied_spec(capacity as int, read_pos as int, write_pos as int),
{
    capacity - occupied_len(capacity, read_pos, write_pos)
}

/// The placement of a write of `len` bytes.
pub fn plan_write(capacity: usize, read_pos: u64, write_pos: u64, len: usize) -> (t: RingTransfer)
    requires
        capacity > 0,
    ensures
        t.count == min_int(
            capacity - occupied_spec(capacity as int, read_pos as int, write_pos as int),
            len as int,
        ),
        t.start == write_pos as int % capacity as int,
        t.first == min_int(t.count as int, capacity - t.start),
{
    let used = occupied_len(capacity, read_pos, write_pos);
    let available = capacity - used;
    let count = if available < len {
        available
    } else {
        len
    };
    let start = (write_pos % (capacity as u64)) as usize;
    let first = if count < capacity - start {
        count
    } else {
        capacity - start
    };
    RingTransfer { count, start, first }
}

/// The placement of a read of at most `len` bytes.
pub fn plan_read(capacity: usize, read_pos: u64, write_pos: u64, len: usize) -> (t: RingTransfer)
    requires
        capacity > 0,
    ensures
        t.count == min_int(
            occupied_spec(capacity as int, read_pos as int, write_pos as int),
            len as int,
        ),
        t.start == read_pos as int % capacity as int,
        t.first == min_int(t.count as int, capacity - t.start),
{
    let available = occupied_len(capacity, read_pos, write_pos);
    let count = if available < len {
        available
    } else {
        len
    };
    let start = (read_pos % (capacity as u64)) as usize;
    let first = if count < capacity - start {
        count
    } else {
        capacity - start
    };
    RingTransfer { count, start, first }
}

/// The slot of the data area that position `p` falls into.
pub open spec fn slot(p: int, cap: int) -> int {
    p % cap
}

/// Whether a capacity is one a ring may have.
pub open spec fn valid_capacity(capacity: int) -> bool {
    SHM_MIN_CAPACITY <= capacity <= SHM_MAX_CAPACITY
}

/// A byte ring held in memory: the data area and its two positions.
#[derive(Debug)]
pub struct SharedByteRing {
    capacity_bytes: usize,
    write_pos: u64,
    read_pos: u64,
    data: Vec<u8>,
}

impl SharedByteRing {
    pub closed spec fn capacity(&self) -> int {
        self.capacity_bytes as int
    }

    pub closed spec fn write_position(&self) -> int {
        self.write_pos as int
    }

    pub closed spec fn read_position(&self) -> int {
        self.read_pos as int
    }

    pub closed spec fn wf(&self) -> bool {
        &&& valid_capacity(self.capacity_bytes as int)
        &&& self.data@.len() == self.capacity_bytes
        &&& self.read_pos <= self.write_pos
        &&& self.write_pos - self.read_pos <= self.capacity_bytes
    }

    /// The bytes written and not yet read, oldest first.
    pub closed spec fn contents(&self) -> Seq<u8> {
        Seq::new(
            (self.write_pos - self.read_pos) as nat,
            |j: int| self.data@[slot(self.read_pos + j, self.capacity_bytes as int)],
        )
    }

    /// A ring of `capacity_bytes` that holds nothing.
    pub fn create(capacity_bytes: usize) -> (r: Result<SharedByteRing, Error>)
        ensures
            match r {
                Ok(ring) => valid_capacity(capacity_bytes as int) && ring.wf() && ring.capacity()
                    == capacity_bytes && ring.contents() == Seq::<u8>::empty()
                    && ring.write_position() == 0 && ring.read_position() == 0,
                Err(e) => !valid_capacity(capacity_bytes as int) && e is Operation,
            },
    {
        if capacity_bytes < SHM_MIN_CAPACITY || capacity_bytes > SHM_MAX_CAPACITY {
            return Err(Error::operation("sidecar.shm.create", String::from_str("invalid capacity")));
        }
        let data = vec![0u8; capacity_bytes];
        let ring = SharedByteRing { capacity_bytes, write_pos: 0, read_pos: 0, data };
        assert(ring.contents() =~= Seq::<u8>::empty());
        Ok(ring)
    }

    pub fn occupied_len(&self) -> (r: usize)
        requires
            self.wf(),
        ensures
            r == self.contents().len(),
    {
        occupied_len(self.capacity_bytes, self.read_pos, self.write_pos)
    }

    pub fn free_len(&self) -> (r: usize)
        requires
            self.wf(),
        ensures
            r == self.capacity() - self.contents().len(),
    {
        free_len(self.capacity_bytes, self.read_pos, self.write_pos)
    }

    /// Appends as much of `input` as fits; returns how many bytes it took.
    pub fn write_bytes(&mut self, input: &[u8]) -> (count: usize)
        requires
            old(self).wf(),
            old(self).write_position() + old(self).capacity() <= u64::MAX,
        ensures
            final(self).wf(),
            final(self).capacity() == old(self).capacity(),
            count == min_int(old(self).capacity() - old(self).contents().len(), input@.len() as int),
            final(self).contents() == old(self).contents() + input@.take(count as int),
            final(self).write_position() == old(self).write_position() + count,
            final(self).read_position() == old(self).read_position(),
    {
        let ghost old_contents = self.contents();
        if input.len() == 0 {
            assert(input@.take(0) =~= Seq::<u8>::empty());
            assert(old_contents + input@.take(0) =~= old_contents);
            return 0;
        }
        let t = plan_write(self.capacity_bytes, self.read_pos, self.write_pos, input.len());
        let cap = self.capacity_bytes;
        let count = t.count;
        if count == 0 {
            assert(input@.take(0) =~= Seq::<u8>::empty());
            assert(old_contents + input@.take(0) =~= old_contents);
            return 0;
        }
        let ghost rp = self.read_pos as int;
        let ghost wp = self.write_pos as int;
        let mut k: usize = 0;
        while k < count
            invariant
                0 <= k <= count,
                count <= cap,
                count <= input@.len(),
                wp + count <= rp + cap,
                cap == self.capacity_bytes,
                self.data@.len() == cap,
                cap > 0,
                cap <= SHM_MAX_CAPACITY,
                t.start < cap,
                rp == self.read_pos,
                wp == self.write_pos,
                t.start == wp % (cap as int),
                rp <= wp,
                forall|j: int|
                    0 <= j < wp - rp ==> self.data@[slot(rp + j, cap as int)] == old_contents[j],
                forall|j: int| 0 <= j < k ==> self.data@[slot(wp + j, cap as int)] == input@[j],
                old_contents.len() == wp - rp,
            decreases count - k,
        {
            let idx = if t.start + k < cap {
                t.start + k
            } else {
                t.start + k - cap
            };
            assert(idx == (wp + k) % (cap as int)) by (nonlinear_arith)
                requires
                    t.start == wp % (cap as int),
                    cap > 0,
                    0 <= t.start < cap,
                    k < cap,
                    idx == if t.start + k < cap {
                        t.start + k
                    } else {
                        t.start + k - cap
                    },
                    wp >= 0,
            {
                let q = wp / (cap as int);
                assert(wp == q * cap + t.start);
                if t.start + k < cap {
                    assert(wp + k == q * cap + (t.start + k));
                    vstd::arithmetic::div_mod::lemma_fundamental_div_mod_converse(
                        wp + k,
                        cap as int,
                        q,
                        t.start + k,
                    );
                } else {
                    assert(wp + k == (q + 1) * cap + (t.start + k - cap));
                    vstd::arithmetic::div_mod::lemma_fundamental_div_mod_converse(
                        wp + k,
                        cap as int,
                        q + 1,
                        t.start + k - cap,
                    );
                }
            }
            proof {
                assert forall|j: int| 0 <= j < wp - rp implies #[trigger] slot(rp + j, cap as int) != idx by {
                    lemma_ring_slots_distinct(rp, wp, cap as int, j, k as int);
                }
                assert forall|j: int| 0 <= j < k implies #[trigger] slot(wp + j, cap as int) != idx by {
                    lemma_ring_slots_distinct(wp, wp + k, cap as int, j, 0);
                }
            }
            self.data.set(idx, input[k]);
            k = k + 1;
        }
        self.write_pos = self.write_pos + count as u64;
        assert(self.contents() =~= old_contents + input@.take(count as int)) by {
            assert forall|j: int| 0 <= j < self.contents().len() implies self.contents()[j]
                == (old_contents + input@.take(count as int))[j] by {
                if j >= wp - rp {
                    assert(rp + j == wp + (j - (wp - rp)));
                }
            }
        }
        count
    }

    /// Moves up to `out.len()` of the oldest bytes into the front of `out`;
    /// returns how many it moved.
    pub fn read_bytes(&mut self, out: &mut [u8]) -> (count: usize)
        requires
            old(self).wf(),
        ensures
            final(self).wf(),
            final(self).capacity() == old(self).capacity(),
            count == min_int(old(self).contents().len() as int, old(out)@.len() as int),
            final(out)@.len() == old(out)@.len(),
            final(out)@.take(count as int) == old(self).contents().take(count as int),
            final(out)@.skip(count as int) == old(out)@.skip(count as int),
            final(self).contents() == old(self).contents().skip(count as int),
            final(self).read_position() == old(self).read_position() + count,
            final(self).write_position() == old(self).write_position(),
    {
        let ghost old_contents = self.contents();
        let ghost old_out = out@;
        if out.len() == 0 {
            assert(old_contents.skip(0) =~= old_contents);
            assert(out@.take(0) =~= old_contents.take(0));
            return 0;
        }
        let t = plan_read(self.capacity_bytes, self.read_pos, self.write_pos, out.len());
        let cap = self.capacity_bytes;
        let count = t.count;
        if count == 0 {
            assert(old_contents.skip(0) =~= old_contents);
            assert(out@.take(0) =~= old_contents.take(0));
            return 0;
        }
        let ghost rp = self.read_pos as int;
        let mut k: usize = 0;
        while k < count
            invariant
                0 <= k <= count,
                count <= cap,
                count <= old_contents.len(),
                count <= old_out.len(),
                out@.len() == old_out.len(),
                cap == self.capacity_bytes,
                self.data@.len() == cap,
                cap > 0,
                cap <= SHM_MAX_CAPACITY,
                t.start < cap,
                rp == self.read_pos,
                t.start == rp % (cap as int),
                old_contents == self.contents(),
                forall|j: int| 0 <= j < k ==> out@[j] == old_contents[j],
                forall|j: int| k <= j < out@.len() ==> out@[j] == old_out[j],
            decreases count - k,
        {
            let idx = if t.start + k < cap {
                t.start + k
            } else {
                t.start + k - cap
            };
            assert(idx == (rp + k) % (cap as int)) by (nonlinear_arith)
                requires
                    t.start == rp % (cap as int),
                    cap > 0,
                    0 <= t.start < cap,
                    k < cap,
                    idx == if t.start + k < cap {
                        t.start + k
                    } else {
                        t.start + k - cap
                    },
                    rp >= 0,
            {
                let q = rp / (cap as int);
                assert(rp == q * cap + t.start);
                if t.start + k < cap {
                    vstd::arithmetic::div_mod::lemma_fundamental_div_mod_converse(
                        rp + k,
                        cap as int,
                        q,
                        t.start + k,
                    );
                } else {
                    vstd::arithmetic::div_mod::lemma_fundamental_div_mod_converse(
                        rp + k,
                        cap as int,
                        q + 1,
                        t.start + k - cap,
                    );
                }
            }
            out[k] = self.data[idx];
            k = k + 1;
        }
        self.read_pos = self.read_pos + count as u64;
        assert(out@.take(count as int) =~= old_contents.take(count as int));
        assert(out@.skip(count as int) =~= old_out.skip(count as int));
        assert(self.contents() =~= old_contents.skip(count as int)) by {
            assert forall|j: int| 0 <= j < self.contents().len() implies self.contents()[j]
                == old_contents.skip(count as int)[j] by {
                assert(self.read_pos + j == rp + (count + j));
            }
        }
        count
    }
}

/// Two positions that lie less than a capacity apart fall into different
/// slots of the data area.
pub proof fn lemma_ring_slots_distinct(lo: int, hi: int, cap: int, j: int, k: int)
    requires
        cap > 0,
        0 <= lo <= hi,
        0 <= j < hi - lo,
        0 <= k,
        hi + k < lo + cap,
    ensures
        (lo + j) % cap != (hi + k) % cap,
{
    let a = lo + j;
    let b = hi + k;
    assert(0 < b - a < cap);
    if a % cap == b % cap {
        vstd::arithmetic::div_mod::lemma_fundamental_div_mod(a, cap);
        vstd::arithmetic::div_mod::lemma_fundamental_div_mod(b, cap);
        let qa = a / cap;
        let qb = b / cap;
        assert(b - a == (qb - qa) * cap) by (nonlinear_arith)
            requires
                a == cap * qa + a % cap,
                b == cap * qb + b % cap,
                a % cap == b % cap,
        ;
        if qb - qa >= 1 {
            assert((qb - qa) * cap >= cap) by (nonlinear_arith)
                requires
                    qb - qa >= 1,
                    cap > 0,
            ;
        } else {
            assert((qb - qa) * cap <= 0) by (nonlinear_arith)
                requires
                    qb - qa <= 0,
                    cap > 0,
            ;
        }
    }
}

/// A ring is a first-in first-out queue: bytes written to a ring that holds
/// nothing are all taken when they fit, and a read of the same length gives
/// them back in order and leaves the ring empty again. The premises are the
/// postconditions of `write_bytes` (from `r0` to `r1`) and of `read_bytes`
/// (from `r1` to `r2`, filling `out`).
pub proof fn law_ring_round_trip(
    r0: SharedByteRing,
    written: Seq<u8>,
    wrote: int,
    r1: SharedByteRing,
    out: Seq<u8>,
    read: int,
    r2: SharedByteRing,
)
    requires
        r0.wf(),
        r0.contents() == Seq::<u8>::empty(),
        written.len() <= r0.capacity(),
        wrote == min_int(r0.capacity() - r0.contents().len(), written.len() as int),
        r1.contents() == r0.contents() + written.take(wrote),
        out.len() == written.len(),
        read == min_int(r1.contents().len() as int, out.len() as int),
        out.take(read) == r1.contents().take(read),
        r2.contents() == r1.contents().skip(read),
    ensures
        wrote == written.len(),
        read == written.len(),
        out == written,
        r2.contents() == Seq::<u8>::empty(),
{
    assert(written.take(wrote) =~= written);
    assert(r1.contents() =~= written);
    assert(out.take(read) =~= out);
    assert(r1.contents().take(read) =~= written);
    assert(r2.contents() =~= Seq::<u8>::empty());
}

/// The little-endian 32-bit word at `off`.
pub open spec fn le_u32(b: Seq<u8>, off: int) -> int {
    b[off] + 256 * (b[off + 1] + 256 * (b[off + 2] + 256 * b[off + 3]))
}

/// Reads the little-endian 32-bit word at `off`.
pub fn read_le_u32(b: &[u8], off: usize) -> (r: u32)
    requires
        off + 4 <= b@.len(),
    ensures
        r == le_u32(b@, off as int),
{
    let b0 = b[off] as u32;
    let b1 = b[off + 1] as u32;
    let b2 = b[off + 2] as u32;
    let b3 = b[off + 3] as u32;
    assert(b0 + 256 * (b1 + 256 * (b2 + 256 * b3)) <= 0xffff_ffff) by (nonlinear_arith)
        requires
            b0 <= 255,
            b1 <= 255,
            b2 <= 255,
            b3 <= 255,
    ;
    b0 + 256 * (b1 + 256 * (b2 + 256 * b3))
}

/// Appends `x` as four little-endian bytes.
pub fn push_le_u32(out: &mut Vec<u8>, x: u32)
    ensures
        final(out)@.len() == old(out)@.len() + 4,
        final(out)@.take(old(out)@.len() as int) == old(out)@,
        le_u32(final(out)@, old(out)@.len() as int) == x,
{
    let ghost n = out@.len() as int;
    let b0 = (x % 256) as u8;
    let b1 = ((x / 256) % 256) as u8;
    let b2 = ((x / 65536) % 256) as u8;
    let b3 = (x / 16777216) as u8;
    assert(b0 + 256 * (b1 + 256 * (b2 + 256 * b3)) == x) by (nonlinear_arith)
        requires
            b0 == x % 256,
            b1 == (x / 256) % 256,
            b2 == (x / 65536) % 256,
            b3 == x / 16777216,
            x <= 0xffff_ffff,
    ;
    out.push(b0);
    out.push(b1);
    out.push(b2);
    out.push(b3);
    assert(out@.take(n) =~= old(out)@);
}

/// The header bytes of a freshly created ring of `capacity_bytes`: magic,
/// version, capacity, a zero word, and both positions at zero.
pub fn encode_ring_header(capacity_bytes: u32) -> (h: Vec<u8>)
    ensures
        h@.len() == RING_HEADER_SIZE,
        le_u32(h@, 0) == SHM_MAGIC,
        le_u32(h@, 4) == SHM_VERSION,
        le_u32(h@, 8) == capacity_bytes,
        forall|i: int| 12 <= i < RING_HEADER_SIZE ==> h@[i] == 0,
{
    let mut h: Vec<u8> = Vec::new();
    push_le_u32(&mut h, SHM_MAGIC);
    let ghost h0 = h@;
    push_le_u32(&mut h, SHM_VERSION);
    let ghost h1 = h@;
    push_le_u32(&mut h, capacity_bytes);
    let ghost h2 = h@;
    let mut i: usize = 12;
    while i < RING_HEADER_SIZE
        invariant
            12 <= i <= RING_HEADER_SIZE,
            h@.len() == i,
            h@.take(12) == h2,
            forall|j: int| 12 <= j < i ==> h@[j] == 0,
        decreases RING_HEADER_SIZE - i,
    {
        h.push(0);
        i = i + 1;
        assert(h@.take(12) =~= h2);
    }
    assert(h@[0] == h2[0] && h@[1] == h2[1] && h@[2] == h2[2] && h@[3] == h2[3]);
    assert(h2[0] == h1[0] && h2[1] == h1[1] && h2[2] == h1[2] && h2[3] == h1[3]);
    assert(h1[0] == h0[0] && h1[1] == h0[1] && h1[2] == h0[2] && h1[3] == h0[3]);
    assert(h@[4] == h2[4] && h@[5] == h2[5] && h@[6] == h2[6] && h@[7] == h2[7]);
    assert(h2[4] == h1[4] && h2[5] == h1[5] && h2[6] == h1[6] && h2[7] == h1[7]);
    assert(h@[8] == h2[8] && h@[9] == h2[9] && h@[10] == h2[10] && h@[11] == h2[11]);
    h
}

/// Why a ring file is refused.
#[derive(Debug)]
pub enum RingFileFault {
    TooSmall,
    BadHeader,
    BadCapacity,
    SizeMismatch,
}

/// What opening a ring file of these bytes gives: its capacity, or the reason
/// it is refused.
pub open spec fn ring_file_check(b: Seq<u8>) -> Result<int, RingFileFault> {
    if b.len() < RING_HEADER_SIZE {
        Err(RingFileFault::TooSmall)
    } else if le_u32(b, 0) != SHM_MAGIC || le_u32(b, 4) != SHM_VERSION {
        Err(RingFileFault::BadHeader)
    } else if !valid_capacity(le_u32(b, 8)) {
        Err(RingFileFault::BadCapacity)
    } else if RING_HEADER_SIZE + le_u32(b, 8) != b.len() {
        Err(RingFileFault::SizeMismatch)
    } else {
        Ok(le_u32(b, 8))
    }
}

/// Checks the bytes of a mapped ring file and returns the capacity of its
/// data area.
pub fn validate_ring_file(b: &[u8]) -> (r: Result<usize, Error>)
    ensures
        match r {
            Ok(cap) => ring_file_check(b@) == Ok::<int, RingFileFault>(cap as int),
            Err(e) => ring_file_check(b@) is Err && e is Operation,
        },
{
    if b.len() < RING_HEADER_SIZE {
        return Err(Error::operation("sidecar.shm.open", String::from_str("ring file too small")));
    }
    let magic = read_le_u32(b, 0);
    let version = read_le_u32(b, 4);
    if magic != SHM_MAGIC || version != SHM_VERSION {
        return Err(Error::operation("sidecar.shm.open", String::from_str("invalid ring header")));
    }
    let cap = read_le_u32(b, 8) as usize;
    if cap < SHM_MIN_CAPACITY || cap > SHM_MAX_CAPACITY {
        return Err(Error::operation("sidecar.shm.open", String::from_str("invalid ring capacity")));
    }
    if RING_HEADER_SIZE + cap != b.len() {
        return Err(Error::operation("sidecar.shm.open", String::from_str("ring size mismatch")));
    }
    Ok(cap)
}

/// A ring file as `create` lays it out (header, then a zeroed data area) is
/// one that `open` accepts, with the capacity it was created with.
pub proof fn law_created_ring_file_opens(header: Seq<u8>, capacity: u32, file: Seq<u8>)
    requires
        valid_capacity(capacity as int),
        header.len() == RING_HEADER_SIZE,
        le_u32(header, 0) == SHM_MAGIC,
        le_u32(header, 4) == SHM_VERSION,
        le_u32(header, 8) == capacity,
        file == header + Seq::new(capacity as nat, |i: int| 0u8),
    ensures
        ring_file_check(file) == Ok::<int, RingFileFault>(capacity as int),
{
    assert(file.len() == RING_HEADER_SIZE + capacity);
    assert forall|i: int| 0 <= i < RING_HEADER_SIZE implies file[i] == header[i] by {}
    assert(le_u32(file, 0) == le_u32(header, 0));
    assert(le_u32(file, 4) == le_u32(header, 4));
    assert(le_u32(file, 8) == le_u32(header, 8));
}

/// The capacity of the rings created for a shared-memory channel: the largest
/// frame size that a shared-memory option asks for, 1 MiB where none does,
/// clamped to the bounds a ring may have.
pub fn shm_ring_capacity(frame_sizes: &Vec<u32>) -> (cap: usize)
    ensures
        valid_capacity(cap as int),
        frame_sizes@.len() == 0 ==> cap == SHM_DEFAULT_CAPACITY,
        frame_sizes@.len() > 0 ==> {
            let m = seq_max(frame_sizes@);
            cap == if m < SHM_MIN_CAPACITY {
                SHM_MIN_CAPACITY as int
            } else if m > SHM_MAX_CAPACITY {
                SHM_MAX_CAPACITY as int
            } else {
                m
            }
        },
        forall|i: int|
            0 <= i < frame_sizes@.len() ==> (if frame_sizes@[i] > SHM_MAX_CAPACITY {
                SHM_MAX_CAPACITY as int
            } else {
                frame_sizes@[i] as int
            }) <= cap,
        frame_sizes@.len() > 0 ==> exists|i: int|
            0 <= i < frame_sizes@.len() && cap == if frame_sizes@[i] < SHM_MIN_CAPACITY {
                SHM_MIN_CAPACITY as int
            } else if frame_sizes@[i] > SHM_MAX_CAPACITY {
                SHM_MAX_CAPACITY as int
            } else {
                frame_sizes@[i] as int
            },
{
    if frame_sizes.len() == 0 {
        return SHM_DEFAULT_CAPACITY;
    }
    proof {
        law_ring_capacity_fits_frames(
            frame_sizes@,
            if seq_max(frame_sizes@) < SHM_MIN_CAPACITY {
                SHM_MIN_CAPACITY as int
            } else if seq_max(frame_sizes@) > SHM_MAX_CAPACITY {
                SHM_MAX_CAPACITY as int
            } else {
                seq_max(frame_sizes@)
            },
        );
    }
    let mut m: u32 = frame_sizes[0];
    let mut i: usize = 1;
    assert(frame_sizes@.take(1).drop_last() =~= Seq::<u32>::empty());
    while i < frame_sizes.len()
        invariant
            1 <= i <= frame_sizes@.len(),
            m == seq_max(frame_sizes@.take(i as int)),
        decreases frame_sizes@.len() - i,
    {
        assert(frame_sizes@.take((i + 1) as int).drop_last() =~= frame_sizes@.take(i as int));
        if frame_sizes[i] > m {
            m = frame_sizes[i];
        }
        i = i + 1;
    }
    assert(frame_sizes@.take(i as int) =~= frame_sizes@);
    let m = m as usize;
    if m < SHM_MIN_CAPACITY {
        SHM_MIN_CAPACITY
    } else if m > SHM_MAX_CAPACITY {
        SHM_MAX_CAPACITY
    } else {
        m
    }
}

/// The largest element of a non-empty sequence.
pub open spec fn seq_max(s: Seq<u32>) -> int
    decreases s.len(),
{
    if s.len() == 0 {
        0
    } else if s.len() == 1 {
        s[0] as int
    } else {
        let m = seq_max(s.drop_last());
        if s.last() > m {
            s.last() as int
        } else {
            m
        }
    }
}

/// The largest element really is the largest: no element exceeds it, and
/// some element equals it.
pub proof fn law_seq_max_is_largest(s: Seq<u32>)
    requires
        s.len() > 0,
    ensures
        forall|i: int| 0 <= i < s.len() ==> s[i] <= seq_max(s),
        exists|i: int| 0 <= i < s.len() && s[i] == seq_max(s),
    decreases s.len(),
{
    if s.len() > 1 {
        let d = s.drop_last();
        law_seq_max_is_largest(d);
        assert forall|i: int| 0 <= i < s.len() implies s[i] <= seq_max(s) by {
            if i < s.len() - 1 {
                assert(s[i] == d[i]);
            }
        }
        if s.last() > seq_max(d) {
            assert(s[s.len() - 1] == seq_max(s));
        } else {
            let k = choose|k: int| 0 <= k < d.len() && d[k] == seq_max(d);
            assert(s[k] == d[k]);
        }
    } else {
        assert(s[0] == seq_max(s));
    }
}

/// The ring made for a shared-memory channel holds every frame its options
/// ask for, up to the largest ring allowed, and is no larger than it must
/// be: its capacity is the largest frame size asked for, clamped to the
/// bounds a ring may have.
pub proof fn law_ring_capacity_fits_frames(frame_sizes: Seq<u32>, cap: int)
    requires
        frame_sizes.len() > 0,
        cap == if seq_max(frame_sizes) < SHM_MIN_CAPACITY {
            SHM_MIN_CAPACITY as int
        } else if seq_max(frame_sizes) > SHM_MAX_CAPACITY {
            SHM_MAX_CAPACITY as int
        } else {
            seq_max(frame_sizes)
        },
    ensures
        forall|i: int|
            0 <= i < frame_sizes.len() ==> (if frame_sizes[i] > SHM_MAX_CAPACITY {
                SHM_MAX_CAPACITY as int
            } else {
                frame_sizes[i] as int
            }) <= cap,
        exists|i: int|
            0 <= i < frame_sizes.len() && cap == if frame_sizes[i] < SHM_MIN_CAPACITY {
                SHM_MIN_CAPACITY as int
            } else if frame_sizes[i] > SHM_MAX_CAPACITY {
                SHM_MAX_CAPACITY as int
            } else {
                frame_sizes[i] as int
            },
{
    law_seq_max_is_largest(frame_sizes);
}

/// What to do with a named wake-up semaphore after the ring changed.
#[derive(Debug)]
pub enum SignalAction {
    /// Signal it once: the condition just became true.
    Post,
    /// Drain it: the condition just became false.
    Drain,
    /// Leave it: the condition did not change.
    Keep,
}

/// The semaphore step that keeps "signalled" equal to "available".
pub fn semaphore_sync_action(was_signaled: bool, available: bool) -> (a: SignalAction)
    ensures
        a is Post <==> available && !was_signaled,
        a is Drain <==> !available && was_signaled,
        a is Keep <==> available == was_signaled,
{
    if available {
        if !was_signaled {
            SignalAction::Post
        } else {
            SignalAction::Keep
        }
    } else if was_signaled {
        SignalAction::Drain
    } else {
        SignalAction::Keep
    }
}

/// What a read of a shared-memory channel does after one attempt on its
/// receive ring.
#[derive(Debug, Clone, Copy, PartialEq, Eq, Structural)]
pub enum ShmReadStep {
    /// Bytes were read: bring the ring's semaphores up to date and return them.
    Deliver,
    /// Return no bytes: nothing came and the read may not wait (longer).
    ReturnEmpty,
    /// Wait on the data semaphore for the rest of the time, then try again.
    WaitForData,
    /// Sleep one poll interval, then try again.
    Poll,
}

/// Decides the next step of a read: bytes end it; without a time limit, or
/// past it, it returns nothing; else it waits on the ring's semaphore where
/// the channel has one, and polls where not.
pub fn shm_read_step(read: usize, timeout_given: bool, deadline_passed: bool, has_events: bool) -> (s: ShmReadStep)
    ensures
        read > 0 ==> s == ShmReadStep::Deliver,
        read == 0 && (!timeout_given || deadline_passed) ==> s == ShmReadStep::ReturnEmpty,
        read == 0 && timeout_given && !deadline_passed ==> s == (if has_events {
            ShmReadStep::WaitForData
        } else {
            ShmReadStep::Poll
        }),
{
    if read > 0 {
        ShmReadStep::Deliver
    } else if !timeout_given || deadline_passed {
        ShmReadStep::ReturnEmpty
    } else if has_events {
        ShmReadStep::WaitForData
    } else {
        ShmReadStep::Poll
    }
}

/// What a write of a shared-memory channel does after putting `wrote` bytes
/// into its send ring: with semaphores, bring them up to date, and where
/// nothing fit, wait briefly for space (the write still reports `wrote`).
pub fn shm_write_follow_up(wrote: usize, has_events: bool) -> (r: (bool, bool))
    ensures
        r.0 == has_events,
        r.1 == (has_events && wrote == 0),
{
    (has_events, has_events && wrote == 0)
}

} // verus!
