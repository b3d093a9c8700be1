use crate::errors::Error;
use crate::futex::arm_transition;
use crate::futex::notify_transition;
use crate::futex::ASLEEP;
use crate::header::init;
use crate::header::lemma_u32_at_unchanged;
use crate::header::load_u32;
use crate::header::spec_capacity;
use crate::header::spec_head;
use crate::header::spec_reader_state;
use crate::header::spec_tail;
use crate::header::spec_writer_state;
use crate::header::store_u32;
use crate::header::CAPACITY_OFFSET;
use crate::header::HEADER_SIZE;
use crate::header::HEAD_OFFSET;
use crate::header::READER_STATE_OFFSET;
use crate::header::TAIL_OFFSET;
use crate::header::WRITER_STATE_OFFSET;
use crate::shm::Shm;
use vstd::math::min;
use vstd::pervasive::VecAdditionalExecFns;
use vstd::prelude::*;
use vstd::slice::slice_index_get;

verus! {

// Index model of the circular data region.
//
// The data region holds `capacity` bytes just after the header; one
// byte of it is a permanent sentinel so that `head == tail` means
// empty and never full.  `head` is the next byte offset the consumer
// reads, `tail` the next offset the producer fills; both always lie
// in `[0, capacity)` and all index arithmetic is modulo `capacity`.

/// Reduces `i` into `[0, cap)`, for `i` in `[0, 2 * cap)`: one
/// wraparound step of the modular index arithmetic.
pub open spec fn wrap_index(i: int, cap: int) -> int
    recommends
        0 <= i < 2 * cap,
{
    if i < cap {
        i
    } else {
        i - cap
    }
}

/// How many bytes stand unread in the region: the distance from
/// `head` forward to `tail`, modulo `cap`.
pub open spec fn used_slots(head: int, tail: int, cap: int) -> int
    recommends
        0 <= head < cap,
        0 <= tail < cap,
{
    if tail >= head {
        tail - head
    } else {
        tail - head + cap
    }
}

/// How many payload bytes the producer may still write: everything
/// not in use, minus the one sentinel byte that keeps full and empty
/// distinguishable.
pub open spec fn free_slots(head: int, tail: int, cap: int) -> int
    recommends
        0 <= head < cap,
        0 <= tail < cap,
{
    cap - 1 - used_slots(head, tail, cap)
}

/// The unread bytes of a mapped region `s`, in consumption order:
/// byte `i` of the stream lies `i` slots past `head`, wrapping at the
/// region's physical end.
pub open spec fn ring_contents(s: Seq<u8>, head: int, tail: int, cap: int) -> Seq<u8>
    recommends
        0 <= head < cap,
        0 <= tail < cap,
        s.len() == HEADER_SIZE + cap,
{
    Seq::new(
        used_slots(head, tail, cap) as nat,
        |i: int| s[HEADER_SIZE + wrap_index(head + i, cap)],
    )
}

/// A contiguous-or-split copy plan for one transfer, as in the
/// classic circular-buffer scheme: `first` bytes are moved at the
/// running index, and if the transfer crosses the physical end of the
/// region the remaining `second` bytes continue from offset `0`.
#[derive(Clone, Copy, Debug, PartialEq, Eq, Structural)]
pub struct CopyPlan {
    /// Total bytes to move: never more than the caller asked for, nor
    /// than the region has available.
    pub count: usize,
    /// Bytes of the first, contiguous copy.
    pub first: usize,
    /// Bytes of the second copy, continuing from region offset `0`;
    /// zero unless the transfer wraps.
    pub second: usize,
    /// The running index after the transfer, reduced into the region.
    pub next_index: u32,
}

/// Plans one write: `len` bytes offered by the producer against the
/// space left between `tail` and the sentinel.
pub fn write_plan(head: u32, tail: u32, cap: u32, len: usize) -> (p: CopyPlan)
    requires
        head < cap,
        tail < cap,
    ensures
        p.count == min(len as int, free_slots(head as int, tail as int, cap as int)),
        p.first == min(p.count as int, cap - tail),
        p.second == p.count - p.first,
        p.next_index == wrap_index(tail + p.count, cap as int),
        tail + p.first <= cap,
        p.second <= tail,
        p.next_index < cap,
{
    let used: u32 = if tail >= head {
        tail - head
    } else {
        ((tail as u64 + cap as u64 - head as u64) as u32)
    };
    let free: u32 = cap - 1 - used;
    let count: usize = if len < free as usize {
        len
    } else {
        free as usize
    };
    let until_end: u32 = cap - tail;
    let first: usize = if count < until_end as usize {
        count
    } else {
        until_end as usize
    };
    let second: usize = count - first;
    let nt64: u64 = tail as u64 + count as u64;
    let next_index: u32 = if nt64 < cap as u64 {
        nt64 as u32
    } else {
        ((nt64 - cap as u64) as u32)
    };
    CopyPlan { count, first, second, next_index }
}

/// Plans one read: `len` bytes wanted by the consumer against the
/// bytes standing unread between `head` and `tail`.
pub fn read_plan(head: u32, tail: u32, cap: u32, len: usize) -> (p: CopyPlan)
    requires
        head < cap,
        tail < cap,
    ensures
        p.count == min(len as int, used_slots(head as int, tail as int, cap as int)),
        p.first == min(p.count as int, cap - head),
        p.second == p.count - p.first,
        p.next_index == wrap_index(head + p.count, cap as int),
        head + p.first <= cap,
        p.second <= head,
        p.next_index < cap,
{
    let used: u32 = if tail >= head {
        tail - head
    } else {
        ((tail as u64 + cap as u64 - head as u64) as u32)
    };
    let count: usize = if len < used as usize {
        len
    } else {
        used as usize
    };
    let until_end: u32 = cap - head;
    let first: usize = if count < until_end as usize {
        count
    } else {
        until_end as usize
    };
    let second: usize = count - first;
    let nh64: u64 = head as u64 + count as u64;
    let next_index: u32 = if nh64 < cap as u64 {
        nh64 as u32
    } else {
        ((nh64 - cap as u64) as u32)
    };
    CopyPlan { count, first, second, next_index }
}

/// What a blocking transfer loop does next after observing the
/// indices: move bytes, spin once more, or go to sleep on the wait
/// primitive.
#[derive(Clone, Copy, Debug, PartialEq, Eq, Structural)]
pub enum PollAction {
    /// The unfavourable condition is gone; plan and perform the copy.
    Proceed,
    /// Still unfavourable, but within the bounded busy-poll budget:
    /// reload the indices without a kernel call.
    Retry,
    /// Still unfavourable and the budget is spent: block on the wait
    /// primitive, then start over.
    Sleep,
}

/// The consumer's decision before a read: proceed unless the region
/// is empty (`head == tail`), and when it is, spin until `retries`
/// reaches the configured `max_retries` budget before sleeping.
pub fn read_action(head: u32, tail: u32, retries: usize, max_retries: usize) -> (a: PollAction)
    ensures
        (a == PollAction::Proceed) == (head != tail),
        (a == PollAction::Retry) == (head == tail && retries < max_retries),
        (a == PollAction::Sleep) == (head == tail && retries >= max_retries),
{
    if head != tail {
        PollAction::Proceed
    } else if retries < max_retries {
        PollAction::Retry
    } else {
        PollAction::Sleep
    }
}

/// The producer's decision before a write: proceed unless the region
/// is full (no free payload byte), and when it is, spin until
/// `retries` reaches the configured `max_retries` budget before
/// sleeping.
pub fn write_action(head: u32, tail: u32, cap: u32, retries: usize, max_retries: usize) -> (a:
    PollAction)
    requires
        head < cap,
        tail < cap,
    ensures
        (a == PollAction::Proceed) == (free_slots(head as int, tail as int, cap as int) > 0),
        (a == PollAction::Retry) == (free_slots(head as int, tail as int, cap as int) == 0
            && retries < max_retries),
        (a == PollAction::Sleep) == (free_slots(head as int, tail as int, cap as int) == 0
            && retries >= max_retries),
{
    let used: u32 = if tail >= head {
        tail - head
    } else {
        ((tail as u64 + cap as u64 - head as u64) as u32)
    };
    let free: u32 = cap - 1 - used;
    if free > 0 {
        PollAction::Proceed
    } else if retries < max_retries {
        PollAction::Retry
    } else {
        PollAction::Sleep
    }
}

/// The largest request that [`Buffer::new`] accepts: the region is
/// sized at four times the request plus the sentinel byte, and the
/// whole region including the header must stay addressable by the
/// 32-bit indices.
pub const MAX_CAPACITY_REQUEST: u32 = 1073741818;

/// A region is a well-formed ring when its header's capacity matches
/// the region's length, both indices lie inside the data region, and
/// both wait words are in a legal state.
pub open spec fn region_valid(s: Seq<u8>) -> bool {
    &&& s.len() >= HEADER_SIZE + 1
    &&& s.len() == HEADER_SIZE + spec_capacity(s)
    &&& spec_head(s) < spec_capacity(s)
    &&& spec_tail(s) < spec_capacity(s)
    &&& spec_reader_state(s) <= 1
    &&& spec_writer_state(s) <= 1
}

/// A single-producer/single-consumer byte channel over one shared
/// segment: a fixed header followed by a circular data region.
///
/// The buffer's view is the queue of bytes written but not yet read.
/// A write appends to the queue and a read removes its front, so the
/// bytes come out exactly as they went in, however the transfers are
/// chunked and wherever the copies wrap.
#[derive(Debug)]
pub struct Buffer {
    seg: Shm,
}

impl View for Buffer {
    type V = Seq<u8>;

    /// The queue of bytes written but not yet read.
    closed spec fn view(&self) -> Seq<u8> {
        ring_contents(
            self.seg@,
            spec_head(self.seg@) as int,
            spec_tail(self.seg@) as int,
            spec_capacity(self.seg@) as int,
        )
    }
}

impl Buffer {
    /// The ring invariants, established at construction and preserved
    /// by every operation.
    pub closed spec fn wf(&self) -> bool {
        region_valid(self.seg@)
    }

    /// Usable payload bytes: the data region minus its sentinel byte.
    pub closed spec fn capacity(&self) -> int {
        spec_capacity(self.seg@) - 1
    }

    /// Whether the consumer's wait word is armed.
    pub closed spec fn reader_asleep(&self) -> bool {
        spec_reader_state(self.seg@) == ASLEEP
    }

    /// Whether the producer's wait word is armed.
    pub closed spec fn writer_asleep(&self) -> bool {
        spec_writer_state(self.seg@) == ASLEEP
    }

    /// The queue never outgrows the payload capacity.
    pub proof fn lemma_queue_within_capacity(&self)
        requires
            self.wf(),
        ensures
            0 <= self@.len() <= self.capacity(),
    {
    }

    /// Opens a channel endpoint.  The owner (`master`) creates the
    /// named region — sized at four times the request plus the
    /// sentinel byte — and initializes the header to the empty state.
    /// The peer must attach to a region mapped by its own
    /// surroundings (see [`Buffer::from_region`]): within this
    /// library's namespace there is no existing object to attach to,
    /// so the peer role fails with `NotFound` here.
    pub fn new(name: &str, master: bool, size: u32) -> (r: Result<Buffer, Error>)
        ensures
            match r {
                Ok(b) => {
                    &&& master
                    &&& size <= MAX_CAPACITY_REQUEST
                    &&& b.wf()
                    &&& b@ == Seq::<u8>::empty()
                    &&& b.capacity() == 4 * size
                    &&& !b.reader_asleep()
                    &&& !b.writer_asleep()
                },
                Err(e) => {
                    ||| (!master && e == Error::NotFound)
                    ||| (master && size > MAX_CAPACITY_REQUEST && e == Error::CapacityOverflow(
                        size,
                    ))
                },
            },
    {
        if !master {
            return Err(Error::NotFound);
        }
        if size > MAX_CAPACITY_REQUEST {
            return Err(Error::CapacityOverflow(size));
        }
        let data_size: u32 = 4 * size + 1;
        assert(HEADER_SIZE + data_size as int <= u32::MAX);
        let total: usize = HEADER_SIZE + data_size as usize;
        let mut seg = Shm::create(name, total);
        let bytes = seg.as_mut_bytes();
        init(bytes, data_size);
        let buf = Buffer { seg };
        proof {
            assert(buf@ =~= Seq::<u8>::empty());
        }
        Ok(buf)
    }

    /// Attaches the consumer or producer side to a region that
    /// already carries a live channel.  The peer must not
    /// reinitialize the header — the owner may already be running —
    /// so the header is only validated: a region that does not
    /// satisfy the ring invariants is rejected, never repaired.
    pub fn from_region(seg: Shm) -> (r: Result<Buffer, Error>)
        ensures
            match r {
                Ok(b) => {
                    &&& region_valid(seg@)
                    &&& b.wf()
                    &&& b@ == ring_contents(
                        seg@,
                        spec_head(seg@) as int,
                        spec_tail(seg@) as int,
                        spec_capacity(seg@) as int,
                    )
                    &&& b.capacity() == spec_capacity(seg@) - 1
                    &&& b.reader_asleep() == (spec_reader_state(seg@) == ASLEEP)
                    &&& b.writer_asleep() == (spec_writer_state(seg@) == ASLEEP)
                },
                Err(e) => {
                    &&& !region_valid(seg@)
                    &&& (if seg@.len() < HEADER_SIZE + 1 {
                        e == Error::SizeMismatch((HEADER_SIZE + 1) as usize, seg@.len() as usize)
                    } else {
                        e == Error::CorruptHeader
                    })
                },
            },
    {
        let n = seg.len();
        if n < HEADER_SIZE + 1 {
            return Err(Error::SizeMismatch(HEADER_SIZE + 1, n));
        }
        let bytes = seg.as_bytes();
        let cap = load_u32(bytes, CAPACITY_OFFSET);
        if n as u64 != HEADER_SIZE as u64 + cap as u64 {
            return Err(Error::CorruptHeader);
        }
        let head = load_u32(bytes, HEAD_OFFSET);
        let tail = load_u32(bytes, TAIL_OFFSET);
        let rs = load_u32(bytes, READER_STATE_OFFSET);
        let ws = load_u32(bytes, WRITER_STATE_OFFSET);
        if head >= cap || tail >= cap || rs > 1 || ws > 1 {
            return Err(Error::CorruptHeader);
        }
        Ok(Buffer { seg })
    }

    /// The producer's transfer: copies as much of `buf` as the region
    /// has room for — `min(buf.len(), capacity - queued)` bytes,
    /// splitting the copy if it crosses the region's physical end —
    /// and appends exactly those bytes to the queue.  Returns `0`
    /// only if the region is full or nothing was offered; the caller
    /// loops for the remainder, as with any byte stream.
    #[verifier::loop_isolation(false)]
    pub fn try_write(&mut self, buf: &[u8]) -> (n: usize)
        requires
            old(self).wf(),
        ensures
            final(self).wf(),
            final(self).capacity() == old(self).capacity(),
            final(self).reader_asleep() == old(self).reader_asleep(),
            final(self).writer_asleep() == old(self).writer_asleep(),
            n == min(buf@.len() as int, old(self).capacity() - old(self)@.len()),
            final(self)@ == old(self)@ + buf@.take(n as int),
    {
        let bytes = self.seg.as_mut_bytes();
        let ghost s0 = bytes@;
        // Binding the length as a machine word lets the verifier see
        // that every offset into the region fits a usize.
        let region_len = bytes.len();
        let cap = load_u32(bytes, CAPACITY_OFFSET);
        let head = load_u32(bytes, HEAD_OFFSET);
        let tail = load_u32(bytes, TAIL_OFFSET);
        let plan = write_plan(head, tail, cap, buf.len());
        let n = plan.count;
        let ghost capi = cap as int;
        let ghost taili = tail as int;
        let ghost headi = head as int;
        let ghost used = used_slots(headi, taili, capi);
        let mut i: usize = 0;
        while i < n
            invariant
                i <= n,
                bytes@.len() == s0.len(),
                forall|j: int| 0 <= j < HEADER_SIZE ==> bytes@[j] == s0[j],
                forall|k: int|
                    0 <= k < i ==> bytes@[HEADER_SIZE + wrap_index(taili + k, capi)] == #[trigger] buf@[k],
                forall|j: int|
                    0 <= j < capi && #[trigger] wrap_index(j - taili + capi, capi) >= i
                        ==> bytes@[HEADER_SIZE + j] == s0[HEADER_SIZE + j],
            decreases n - i,
        {
            let b = *slice_index_get(buf, i);
            let pos64: u64 = tail as u64 + i as u64;
            let idx: usize = if pos64 < cap as u64 {
                pos64 as usize
            } else {
                ((pos64 - cap as u64) as usize)
            };
            assert(idx as int == wrap_index(taili + i, capi));
            assert(wrap_index(idx as int - taili + capi, capi) == i);
            bytes.set(HEADER_SIZE + idx, b);
            i = i + 1;
        }
        let ghost s1 = bytes@;
        store_u32(bytes, TAIL_OFFSET, plan.next_index);
        proof {
            let s2 = bytes@;
            let newtail = plan.next_index as int;
            lemma_u32_at_unchanged(s0, s1, HEAD_OFFSET as int);
            lemma_u32_at_unchanged(s0, s1, CAPACITY_OFFSET as int);
            lemma_u32_at_unchanged(s0, s1, READER_STATE_OFFSET as int);
            lemma_u32_at_unchanged(s0, s1, WRITER_STATE_OFFSET as int);
            lemma_u32_at_unchanged(s1, s2, HEAD_OFFSET as int);
            lemma_u32_at_unchanged(s1, s2, CAPACITY_OFFSET as int);
            lemma_u32_at_unchanged(s1, s2, READER_STATE_OFFSET as int);
            lemma_u32_at_unchanged(s1, s2, WRITER_STATE_OFFSET as int);
            lemma_used_after_advance(headi, taili, capi, n as int);
            lemma_tail_is_head_plus_used(headi, taili, capi);
            assert forall|t: int| 0 <= t < used + n implies ring_contents(
                s2,
                headi,
                newtail,
                capi,
            )[t] == (ring_contents(s0, headi, taili, capi) + buf@.take(n as int))[t] by {
                if t < used {
                    lemma_old_slot_distance(headi, taili, capi, t);
                    assert(wrap_index(headi + t, capi) < capi);
                } else {
                    let k = t - used;
                    lemma_wrap_assoc(headi, used, k, capi);
                    assert(bytes@[HEADER_SIZE + wrap_index(taili + k, capi)] == buf@[k]);
                }
            }
            assert(ring_contents(s2, headi, newtail, capi) =~= ring_contents(
                s0,
                headi,
                taili,
                capi,
            ) + buf@.take(n as int));
        }
        n
    }

    /// The consumer's transfer: removes `min(buf.len(), queued)`
    /// bytes from the front of the queue — splitting the copy if it
    /// crosses the region's physical end — and places them in order
    /// at the start of `buf`, whose remainder and length stay as they
    /// were.  Returns `0` only if the region is empty or no room was
    /// offered.
    #[verifier::loop_isolation(false)]
    pub fn try_read(&mut self, buf: &mut Vec<u8>) -> (n: usize)
        requires
            old(self).wf(),
        ensures
            final(self).wf(),
            final(self).capacity() == old(self).capacity(),
            final(self).reader_asleep() == old(self).reader_asleep(),
            final(self).writer_asleep() == old(self).writer_asleep(),
            n == min(old(buf)@.len() as int, old(self)@.len() as int),
            final(self)@ == old(self)@.skip(n as int),
            final(buf)@.len() == old(buf)@.len(),
            final(buf)@.take(n as int) == old(self)@.take(n as int),
            final(buf)@.skip(n as int) == old(buf)@.skip(n as int),
            forall|k: int| 0 <= k < n ==> #[trigger] final(buf)@[k] == old(self)@[k],
            forall|k: int|
                n <= k < final(buf)@.len() ==> #[trigger] final(buf)@[k] == old(buf)@[k],
    {
        let ghost s0 = self.seg@;
        let ghost headi = spec_head(s0) as int;
        let ghost taili = spec_tail(s0) as int;
        let ghost capi = spec_capacity(s0) as int;
        let ghost used = used_slots(headi, taili, capi);
        let plan;
        let n;
        {
            let bytes = self.seg.as_bytes();
            // As in `try_write`: every offset into the region fits a
            // usize.
            let region_len = bytes.len();
            let cap = load_u32(bytes, CAPACITY_OFFSET);
            let head = load_u32(bytes, HEAD_OFFSET);
            let tail = load_u32(bytes, TAIL_OFFSET);
            plan = read_plan(head, tail, cap, buf.len());
            n = plan.count;
            let mut i: usize = 0;
            while i < n
                invariant
                    i <= n,
                    buf@.len() == old(buf)@.len(),
                    forall|k: int|
                        0 <= k < i ==> buf@[k] == s0[HEADER_SIZE + wrap_index(headi + k, capi)],
                    forall|k: int| i <= k < buf@.len() ==> buf@[k] == old(buf)@[k],
                decreases n - i,
            {
                let pos64: u64 = head as u64 + i as u64;
                let idx: usize = if pos64 < cap as u64 {
                    pos64 as usize
                } else {
                    ((pos64 - cap as u64) as usize)
                };
                assert(idx as int == wrap_index(headi + i, capi));
                let b = bytes[HEADER_SIZE + idx];
                buf.set(i, b);
                i = i + 1;
            }
        }
        let bytes = self.seg.as_mut_bytes();
        store_u32(bytes, HEAD_OFFSET, plan.next_index);
        proof {
            let s2 = bytes@;
            let newhead = plan.next_index as int;
            lemma_u32_at_unchanged(s0, s2, TAIL_OFFSET as int);
            lemma_u32_at_unchanged(s0, s2, CAPACITY_OFFSET as int);
            lemma_u32_at_unchanged(s0, s2, READER_STATE_OFFSET as int);
            lemma_u32_at_unchanged(s0, s2, WRITER_STATE_OFFSET as int);
            lemma_used_after_consume(headi, taili, capi, n as int);
            assert forall|t: int| 0 <= t < used - n implies ring_contents(
                s2,
                newhead,
                taili,
                capi,
            )[t] == ring_contents(s0, headi, taili, capi).skip(n as int)[t] by {
                lemma_wrap_assoc(headi, n as int, t, capi);
                assert(0 <= wrap_index(headi + n + t, capi) < capi);
            }
            assert(ring_contents(s2, newhead, taili, capi) =~= ring_contents(
                s0,
                headi,
                taili,
                capi,
            ).skip(n as int));
            assert(buf@.take(n as int) =~= ring_contents(s0, headi, taili, capi).take(n as int));
            assert(buf@.skip(n as int) =~= old(buf)@.skip(n as int));
        }
        n
    }

    /// The payload capacity in bytes: the most that can stand queued
    /// at once.
    pub fn capacity_bytes(&self) -> (c: usize)
        requires
            self.wf(),
        ensures
            c == self.capacity(),
    {
        let bytes = self.seg.as_bytes();
        let cap = load_u32(bytes, CAPACITY_OFFSET);
        (cap - 1) as usize
    }

    /// How many bytes stand queued, ready for the consumer.
    pub fn available_bytes(&self) -> (a: usize)
        requires
            self.wf(),
        ensures
            a == self@.len(),
    {
        let bytes = self.seg.as_bytes();
        let cap = load_u32(bytes, CAPACITY_OFFSET);
        let head = load_u32(bytes, HEAD_OFFSET);
        let tail = load_u32(bytes, TAIL_OFFSET);
        let used: u32 = if tail >= head {
            tail - head
        } else {
            ((tail as u64 + cap as u64 - head as u64) as u32)
        };
        used as usize
    }

    /// How many bytes the producer may still write before the region
    /// is full.
    pub fn free_bytes(&self) -> (f: usize)
        requires
            self.wf(),
        ensures
            f == self.capacity() - self@.len(),
    {
        let bytes = self.seg.as_bytes();
        let cap = load_u32(bytes, CAPACITY_OFFSET);
        let head = load_u32(bytes, HEAD_OFFSET);
        let tail = load_u32(bytes, TAIL_OFFSET);
        let used: u32 = if tail >= head {
            tail - head
        } else {
            ((tail as u64 + cap as u64 - head as u64) as u32)
        };
        (cap - 1 - used) as usize
    }

    /// Observability snapshot of the consumer's wait word, not for
    /// control logic.
    pub fn reader_armed(&self) -> (armed: bool)
        requires
            self.wf(),
        ensures
            armed == self.reader_asleep(),
    {
        let bytes = self.seg.as_bytes();
        load_u32(bytes, READER_STATE_OFFSET) == ASLEEP
    }

    /// Observability snapshot of the producer's wait word, not for
    /// control logic.
    pub fn writer_armed(&self) -> (armed: bool)
        requires
            self.wf(),
        ensures
            armed == self.writer_asleep(),
    {
        let bytes = self.seg.as_bytes();
        load_u32(bytes, WRITER_STATE_OFFSET) == ASLEEP
    }

    /// The producer's notification to the consumer after a transfer:
    /// resets the consumer's wait word and reports whether a kernel
    /// wake call is owed.  Cheap when nobody sleeps: no word changes
    /// and no wake is needed.
    pub fn reader_notify(&mut self) -> (wake: bool)
        requires
            old(self).wf(),
        ensures
            final(self).wf(),
            final(self)@ == old(self)@,
            final(self).capacity() == old(self).capacity(),
            !final(self).reader_asleep(),
            final(self).writer_asleep() == old(self).writer_asleep(),
            wake == old(self).reader_asleep(),
    {
        let bytes = self.seg.as_mut_bytes();
        let ghost s0 = bytes@;
        let word = load_u32(bytes, READER_STATE_OFFSET);
        let (new_word, wake) = notify_transition(word);
        if wake {
            store_u32(bytes, READER_STATE_OFFSET, new_word);
            proof {
                lemma_state_store_preserves_ring(s0, bytes@, READER_STATE_OFFSET as int);
            }
        }
        wake
    }

    /// The consumer's notification to the producer after a transfer:
    /// resets the producer's wait word and reports whether a kernel
    /// wake call is owed.
    pub fn writer_notify(&mut self) -> (wake: bool)
        requires
            old(self).wf(),
        ensures
            final(self).wf(),
            final(self)@ == old(self)@,
            final(self).capacity() == old(self).capacity(),
            !final(self).writer_asleep(),
            final(self).reader_asleep() == old(self).reader_asleep(),
            wake == old(self).writer_asleep(),
    {
        let bytes = self.seg.as_mut_bytes();
        let ghost s0 = bytes@;
        let word = load_u32(bytes, WRITER_STATE_OFFSET);
        let (new_word, wake) = notify_transition(word);
        if wake {
            store_u32(bytes, WRITER_STATE_OFFSET, new_word);
            proof {
                lemma_state_store_preserves_ring(s0, bytes@, WRITER_STATE_OFFSET as int);
            }
        }
        wake
    }

    /// The consumer arms its wait word after observing an empty
    /// region and before sleeping on it.  The word must be clear: the
    /// single consumer is the only party that ever arms it.
    pub fn reader_arm(&mut self)
        requires
            old(self).wf(),
            !old(self).reader_asleep(),
        ensures
            final(self).wf(),
            final(self)@ == old(self)@,
            final(self).capacity() == old(self).capacity(),
            final(self).reader_asleep(),
            final(self).writer_asleep() == old(self).writer_asleep(),
    {
        let bytes = self.seg.as_mut_bytes();
        let ghost s0 = bytes@;
        let word = load_u32(bytes, READER_STATE_OFFSET);
        let armed = arm_transition(word);
        store_u32(bytes, READER_STATE_OFFSET, armed);
        proof {
            lemma_state_store_preserves_ring(s0, bytes@, READER_STATE_OFFSET as int);
        }
    }

    /// The producer arms its wait word after observing a full region
    /// and before sleeping on it.
    pub fn writer_arm(&mut self)
        requires
            old(self).wf(),
            !old(self).writer_asleep(),
        ensures
            final(self).wf(),
            final(self)@ == old(self)@,
            final(self).capacity() == old(self).capacity(),
            final(self).writer_asleep(),
            final(self).reader_asleep() == old(self).reader_asleep(),
    {
        let bytes = self.seg.as_mut_bytes();
        let ghost s0 = bytes@;
        let word = load_u32(bytes, WRITER_STATE_OFFSET);
        let armed = arm_transition(word);
        store_u32(bytes, WRITER_STATE_OFFSET, armed);
        proof {
            lemma_state_store_preserves_ring(s0, bytes@, WRITER_STATE_OFFSET as int);
        }
    }
}

// Geometry of the circular data region: how slot positions, the two
// indices and the stream offsets relate under one wraparound step.

/// The producer's index stands `used` slots past the consumer's.
proof fn lemma_tail_is_head_plus_used(head: int, tail: int, cap: int)
    requires
        0 <= head < cap,
        0 <= tail < cap,
    ensures
        tail == wrap_index(head + used_slots(head, tail, cap), cap),
{
}

/// Walking `a` slots from `head` and then `b` more lands on the same
/// slot as walking `a + b` at once, as long as the walk stays within
/// one lap of the region.
proof fn lemma_wrap_assoc(head: int, a: int, b: int, cap: int)
    requires
        0 <= head < cap,
        0 <= a,
        0 <= b,
        a + b < cap,
    ensures
        wrap_index(wrap_index(head + a, cap) + b, cap) == wrap_index(head + a + b, cap),
{
}

/// A slot holding stream byte `t` lies `cap - used + t` slots past
/// the producer's index: at least one full free region away, so no
/// write of at most `free` bytes can touch it.
proof fn lemma_old_slot_distance(head: int, tail: int, cap: int, t: int)
    requires
        0 <= head < cap,
        0 <= tail < cap,
        0 <= t < used_slots(head, tail, cap),
    ensures
        wrap_index(wrap_index(head + t, cap) - tail + cap, cap) == cap - used_slots(
            head,
            tail,
            cap,
        ) + t,
{
}

/// Advancing the producer's index over `n` freshly written bytes
/// grows the unread count by exactly `n`.
proof fn lemma_used_after_advance(head: int, tail: int, cap: int, n: int)
    requires
        0 <= head < cap,
        0 <= tail < cap,
        0 <= n <= free_slots(head, tail, cap),
    ensures
        used_slots(head, wrap_index(tail + n, cap), cap) == used_slots(head, tail, cap) + n,
{
}

/// Advancing the consumer's index over `n` consumed bytes shrinks
/// the unread count by exactly `n`.
proof fn lemma_used_after_consume(head: int, tail: int, cap: int, n: int)
    requires
        0 <= head < cap,
        0 <= tail < cap,
        0 <= n <= used_slots(head, tail, cap),
    ensures
        used_slots(wrap_index(head + n, cap), tail, cap) == used_slots(head, tail, cap) - n,
{
}

/// Storing into one wait word leaves the indices, the capacity, the
/// other wait word and every data byte as they were, and with them
/// the ring's contents.
proof fn lemma_state_store_preserves_ring(s0: Seq<u8>, s1: Seq<u8>, off: int)
    requires
        s0.len() == s1.len(),
        s0.len() == HEADER_SIZE + spec_capacity(s0),
        spec_head(s0) < spec_capacity(s0),
        spec_tail(s0) < spec_capacity(s0),
        off == READER_STATE_OFFSET || off == WRITER_STATE_OFFSET,
        forall|j: int| 0 <= j < s1.len() && !(off <= j < off + 4) ==> s1[j] == s0[j],
    ensures
        spec_head(s1) == spec_head(s0),
        spec_tail(s1) == spec_tail(s0),
        spec_capacity(s1) == spec_capacity(s0),
        off == READER_STATE_OFFSET ==> spec_writer_state(s1) == spec_writer_state(s0),
        off == WRITER_STATE_OFFSET ==> spec_reader_state(s1) == spec_reader_state(s0),
        ring_contents(
            s1,
            spec_head(s0) as int,
            spec_tail(s0) as int,
            spec_capacity(s0) as int,
        ) == ring_contents(
            s0,
            spec_head(s0) as int,
            spec_tail(s0) as int,
            spec_capacity(s0) as int,
        ),
{
    lemma_u32_at_unchanged(s0, s1, HEAD_OFFSET as int);
    lemma_u32_at_unchanged(s0, s1, TAIL_OFFSET as int);
    lemma_u32_at_unchanged(s0, s1, CAPACITY_OFFSET as int);
    if off == READER_STATE_OFFSET {
        lemma_u32_at_unchanged(s0, s1, WRITER_STATE_OFFSET as int);
    } else {
        lemma_u32_at_unchanged(s0, s1, READER_STATE_OFFSET as int);
    }
    let head = spec_head(s0) as int;
    let tail = spec_tail(s0) as int;
    let cap = spec_capacity(s0) as int;
    assert(ring_contents(s1, head, tail, cap) =~= ring_contents(s0, head, tail, cap));
}

// Laws of the index model.

/// Full and empty are never the same state: with at least one
/// sentinel slot (`cap >= 2` gives at least one payload byte), a
/// region with nothing to read always has room to write.
pub proof fn lemma_full_empty_distinct(head: int, tail: int, cap: int)
    requires
        0 <= head < cap,
        0 <= tail < cap,
        cap >= 2,
    ensures
        !(used_slots(head, tail, cap) == 0 && free_slots(head, tail, cap) == 0),
{
}

/// The region is empty exactly when the two indices coincide.
pub proof fn lemma_empty_iff_equal(head: int, tail: int, cap: int)
    requires
        0 <= head < cap,
        0 <= tail < cap,
    ensures
        (used_slots(head, tail, cap) == 0) <==> (head == tail),
{
}

/// The region is full exactly when the producer's index stands one
/// slot (modulo `cap`) behind the consumer's: the sentinel position.
pub proof fn lemma_full_iff_sentinel(head: int, tail: int, cap: int)
    requires
        0 <= head < cap,
        0 <= tail < cap,
        cap >= 1,
    ensures
        (free_slots(head, tail, cap) == 0) <==> (tail == wrap_index(head + cap - 1, cap)),
{
}

/// A transfer loop always makes progress: as long as bytes are
/// offered and the region is not at its limit, at least one byte
/// moves, so accumulating the returned counts converges on the total.
pub proof fn lemma_transfer_progress(len: int, space: int)
    requires
        len > 0,
        space > 0,
    ensures
        min(len, space) >= 1,
{
}

/// Round trip, reader's half: however the reads are chunked, the
/// pieces taken off the front of the queue reassemble the stream
/// exactly.  With [`Buffer::try_read`] handing out `q.take(i)` and
/// leaving `q.skip(i)`, consuming the queue in any number of steps
/// yields the very bytes that were queued, in order.
pub proof fn lemma_stream_rebuild(q: Seq<u8>, i: int)
    requires
        0 <= i <= q.len(),
    ensures
        q.take(i) + q.skip(i) == q,
{
    assert(q.take(i) + q.skip(i) =~= q);
}

/// Round trip: bytes written behind a backlog come back out exactly,
/// in order, once the backlog drains.  After [`Buffer::try_write`]
/// turns queue `q` into `q + w`, reads consuming the first
/// `q.len()` bytes hand out precisely `q`, and what remains is
/// precisely `w`.
pub proof fn lemma_write_read_round_trip(q: Seq<u8>, w: Seq<u8>)
    ensures
        (q + w).take(q.len() as int) == q,
        (q + w).skip(q.len() as int) == w,
{
    assert((q + w).take(q.len() as int) =~= q);
    assert((q + w).skip(q.len() as int) =~= w);
}

/// Round trip, writer's half: however the writes are chunked, the
/// queue holds their concatenation.  With [`Buffer::try_write`]
/// appending each accepted chunk, two writes in a row queue the same
/// stream as one combined write.
pub proof fn lemma_stream_append_assoc(q: Seq<u8>, a: Seq<u8>, b: Seq<u8>)
    ensures
        (q + a) + b == q + (a + b),
{
    assert((q + a) + b =~= q + (a + b));
}

} // verus!
