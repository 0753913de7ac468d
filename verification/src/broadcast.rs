//! Single-producer, multi-consumer broadcast receiver over an
//! [`AtomicBuffer`].
//!
//! The producer publishes records into a power-of-two region and never waits
//! for consumers; each receiver polls a cursor forward and detects being
//! lapped by comparing its cursor against the producer's tail-intent counter.
use crate::atomic_buffer::{i32_at, i64_at, in_bounds, same_outside, AtomicBuffer};
use crate::util::{align8, AeronError, IndexT};
use crate::ringbuffer::{lemma_mask_bounds, lemma_pow2_index_bound, masked};
use vstd::arithmetic::power2::is_pow2;
use vstd::prelude::*;

verus! {

/// Offset within the trailer of the producer's tail-intent counter.
pub const TAIL_INTENT_COUNTER_OFFSET: IndexT = 0;

/// Offset within the trailer of the published tail counter.
pub const TAIL_COUNTER_OFFSET: IndexT = 8;

/// Offset within the trailer of the latest-record counter.
pub const LATEST_COUNTER_OFFSET: IndexT = 16;

/// Size of the broadcast buffer metadata trailer.
pub const TRAILER_LENGTH: IndexT = 128;

/// Message type identifier of a padding record.
pub const PADDING_MSG_TYPE_ID: i32 = -1;

/// Offset from the beginning of a record to its length field.
pub const LENGTH_OFFSET: IndexT = 0;

/// Offset from the beginning of a record to its type field.
pub const TYPE_OFFSET: IndexT = 4;

/// Total header length for each record.
pub const HEADER_LENGTH: IndexT = 8;

/// Records are placed on 8-byte boundaries.
pub const RECORD_ALIGNMENT: IndexT = 8;

/// Byte offset of a record's length field given the record start.
pub fn length_offset(record_offset: IndexT) -> (r: IndexT)
    ensures
        r == record_offset,
{
    record_offset + LENGTH_OFFSET
}

/// Byte offset of a record's type field given the record start.
pub fn type_offset(record_offset: IndexT) -> (r: IndexT)
    requires
        record_offset + 4 <= i32::MAX,
    ensures
        r == record_offset + 4,
{
    record_offset + TYPE_OFFSET
}

/// Byte offset of a record's message payload given the record start.
pub fn msg_offset(record_offset: IndexT) -> (r: IndexT)
    requires
        record_offset + 8 <= i32::MAX,
    ensures
        r == record_offset + 8,
{
    record_offset + HEADER_LENGTH
}

/// The producer's tail-intent counter stored in the trailer.
pub open spec fn bc_tail_intent(s: Seq<u8>, cap: int) -> i64 {
    i64_at(s, cap + TAIL_INTENT_COUNTER_OFFSET)
}

/// The published tail counter stored in the trailer.
pub open spec fn bc_tail(s: Seq<u8>, cap: int) -> i64 {
    i64_at(s, cap + TAIL_COUNTER_OFFSET)
}

/// The latest-record counter stored in the trailer.
pub open spec fn bc_latest(s: Seq<u8>, cap: int) -> i64 {
    i64_at(s, cap + LATEST_COUNTER_OFFSET)
}

/// The cursor a receiver adopts for its next record: its own `next_record`
/// while it has not been lapped, else the producer's latest-record position.
pub open spec fn bc_next_cursor(s: Seq<u8>, cap: int, next_record: i64) -> i64 {
    if next_record + cap > bc_tail_intent(s, cap) {
        next_record
    } else {
        bc_latest(s, cap)
    }
}

/// Sanity of the producer counters and of the record lengths a poll may read.
pub open spec fn bc_counters_wf(s: Seq<u8>, cap: int, next_record: i64) -> bool {
    &&& 0 <= bc_tail_intent(s, cap) <= 0x1000_0000_0000_0000
    &&& 0 <= bc_tail(s, cap) <= 0x1000_0000_0000_0000
    &&& 0 <= bc_latest(s, cap) <= 0x1000_0000_0000_0000
    &&& 0 <= i32_at(s, masked(bc_next_cursor(s, cap, next_record), cap)) <= cap
    &&& 0 <= i32_at(s, 0) <= cap
}

/// A poll that found nothing: the receiver state is unchanged.
pub open spec fn poll_unchanged(pre: BroadcastReceiver, post: BroadcastReceiver) -> bool {
    &&& post.spec_cursor() == pre.spec_cursor()
    &&& post.spec_next_record() == pre.spec_next_record()
    &&& post.spec_record_offset() == pre.spec_record_offset()
    &&& post.spec_lapped_count() == pre.spec_lapped_count()
}

/// A poll that found a record: the receiver adopts the next cursor (counting
/// a lap if the producer overran it) and steps over a leading padding record.
pub open spec fn poll_advances(pre: BroadcastReceiver, post: BroadcastReceiver) -> bool {
    let s = pre@;
    let cap = pre.spec_capacity();
    let lapped = !(pre.spec_next_record() + cap > bc_tail_intent(s, cap));
    let c = bc_next_cursor(s, cap, pre.next_i64());
    let ro = masked(c, cap);
    let l = i32_at(s, ro);
    let nr = c + align8(l as int);
    &&& post.spec_lapped_count() == pre.spec_lapped_count() + (if lapped { 1int } else { 0int })
    &&& (i32_at(s, ro + 4) == PADDING_MSG_TYPE_ID ==> {
        &&& post.spec_record_offset() == 0
        &&& post.spec_cursor() == nr
        &&& post.spec_next_record() == nr + align8(i32_at(s, 0) as int)
    })
    &&& (i32_at(s, ro + 4) != PADDING_MSG_TYPE_ID ==> {
        &&& post.spec_record_offset() == ro
        &&& post.spec_cursor() == c
        &&& post.spec_next_record() == nr
    })
}

/// Receiver of messages from a transmission stream: poll [`BroadcastReceiver::receive_next`]
/// until it returns `true`, then inspect the current record.
pub struct BroadcastReceiver {
    buffer: AtomicBuffer,
    capacity: IndexT,
    mask: IndexT,
    tail_intent_counter_index: IndexT,
    tail_counter_index: IndexT,
    latest_counter_index: IndexT,
    record_offset: IndexT,
    cursor: i64,
    next_record: i64,
    lapped_count: i64,
}

impl View for BroadcastReceiver {
    type V = Seq<u8>;

    closed spec fn view(&self) -> Seq<u8> {
        self.buffer@
    }
}

impl BroadcastReceiver {
    /// Structural well-formedness: power-of-two capacity, trailer offsets in
    /// place, and receiver state within arithmetic bounds.
    pub closed spec fn wf(self) -> bool {
        &&& self.buffer.wf()
        &&& is_pow2(self.capacity as int)
        &&& self.buffer@.len() == self.capacity + TRAILER_LENGTH
        &&& self.mask == self.capacity - 1
        &&& self.tail_intent_counter_index == self.capacity + TAIL_INTENT_COUNTER_OFFSET
        &&& self.tail_counter_index == self.capacity + TAIL_COUNTER_OFFSET
        &&& self.latest_counter_index == self.capacity + LATEST_COUNTER_OFFSET
        &&& 0 <= self.record_offset < self.capacity
        &&& 0 <= self.cursor <= 0x2000_0000_0000_0000
        &&& 0 <= self.next_record <= 0x2000_0000_0000_0000
        &&& 0 <= self.lapped_count
    }

    /// Payload capacity in bytes, excluding the trailer.
    pub closed spec fn spec_capacity(self) -> int {
        self.capacity as int
    }

    /// Position at the start of the current record.
    pub closed spec fn spec_cursor(self) -> int {
        self.cursor as int
    }

    /// Position immediately after the current record.
    pub closed spec fn spec_next_record(self) -> int {
        self.next_record as int
    }

    /// Byte index of the current record within the payload region.
    pub closed spec fn spec_record_offset(self) -> int {
        self.record_offset as int
    }

    /// Number of times this receiver has observed being lapped.
    pub closed spec fn spec_lapped_count(self) -> int {
        self.lapped_count as int
    }

    /// Facts every well-formed receiver provides about its shape.
    pub proof fn lemma_wf_facts(self)
        requires
            self.wf(),
        ensures
            self@.len() == self.spec_capacity() + TRAILER_LENGTH,
            is_pow2(self.spec_capacity()),
            1 <= self.spec_capacity() <= 0x4000_0000,
            0 <= self.spec_record_offset() < self.spec_capacity(),
            0 <= self.spec_cursor() <= 0x2000_0000_0000_0000,
            0 <= self.spec_next_record() <= 0x2000_0000_0000_0000,
            0 <= self.spec_lapped_count(),
    {
        lemma_pow2_index_bound(self.capacity as int);
        reveal(is_pow2);
    }

    /// Create a new receiver backed by `buffer`, joining the stream at the
    /// producer's latest-record position.
    pub fn new(buffer: AtomicBuffer) -> (r: Result<BroadcastReceiver, AeronError>)
        requires
            buffer.wf(),
            is_pow2(buffer@.len() - TRAILER_LENGTH)
                ==> 0 <= bc_latest(buffer@, buffer@.len() - TRAILER_LENGTH)
                    <= 0x1000_0000_0000_0000,
        ensures
            is_pow2(buffer@.len() - TRAILER_LENGTH) ==> (r matches Ok(rcv) && {
                &&& rcv.wf()
                &&& rcv@ == buffer@
                &&& rcv.spec_capacity() == buffer@.len() - TRAILER_LENGTH
                &&& rcv.spec_cursor() == bc_latest(buffer@, rcv.spec_capacity())
                &&& rcv.spec_next_record() == rcv.spec_cursor()
                &&& rcv.spec_record_offset() == masked(
                    bc_latest(buffer@, rcv.spec_capacity()), rcv.spec_capacity())
                &&& rcv.spec_lapped_count() == 0
            }),
            !is_pow2(buffer@.len() - TRAILER_LENGTH)
                ==> r == Err::<BroadcastReceiver, AeronError>(AeronError::IllegalArgument),
    {
        let capacity = buffer.capacity() - TRAILER_LENGTH;
        if !crate::util::is_power_of_two(capacity) {
            return Err(AeronError::IllegalArgument);
        }
        proof {
            reveal(is_pow2);
        }
        let mask = capacity - 1;
        let latest_counter_index = capacity + LATEST_COUNTER_OFFSET;
        let cursor = buffer.get_i64(latest_counter_index).unwrap();
        proof {
            lemma_mask_bounds(cursor, mask as i64);
        }
        Ok(BroadcastReceiver {
            record_offset: (cursor & mask as i64) as IndexT,
            buffer,
            capacity,
            mask,
            tail_intent_counter_index: capacity + TAIL_INTENT_COUNTER_OFFSET,
            tail_counter_index: capacity + TAIL_COUNTER_OFFSET,
            latest_counter_index,
            cursor,
            next_record: cursor,
            lapped_count: 0,
        })
    }

    /// Payload capacity of this receiver in bytes.
    pub fn capacity(&self) -> (r: IndexT)
        requires
            self.wf(),
        ensures
            r == self.spec_capacity(),
    {
        self.capacity
    }

    /// Number of times the transmitter has lapped this receiver.  Each lap
    /// represents at least a buffer's worth of lost data.
    pub fn lapped_count(&self) -> (r: i64)
        requires
            self.wf(),
        ensures
            r == self.spec_lapped_count(),
    {
        self.lapped_count
    }

    /// The current record is still valid iff the producer has not yet begun a
    /// write that would overwrite it.
    fn _validate(&self, cursor: i64) -> (r: bool)
        requires
            self.wf(),
            0 <= cursor <= 0x2000_0000_0000_0000,
        ensures
            r == (cursor + self.spec_capacity() > bc_tail_intent(self@, self.spec_capacity())),
    {
        proof {
            self.lemma_wf_facts();
        }
        cursor + self.capacity as i64
            > self.buffer.get_i64_volatile(self.tail_intent_counter_index).unwrap()
    }

    /// Ensure that the current record has not been overwritten since it was
    /// received.  A `false` result means the bytes just observed may be torn.
    pub fn validate(&self) -> (r: bool)
        requires
            self.wf(),
        ensures
            r == (self.spec_cursor() + self.spec_capacity()
                > bc_tail_intent(self@, self.spec_capacity())),
    {
        self._validate(self.cursor)
    }

    /// Message type identifier of the current record.
    pub fn msg_type_id(&self) -> (r: Result<i32, AeronError>)
        requires
            self.wf(),
        ensures
            r == Ok::<i32, AeronError>(i32_at(self@, self.spec_record_offset() + 4)),
    {
        proof {
            self.lemma_wf_facts();
        }
        self.buffer.get_i32(self.record_offset + TYPE_OFFSET)
    }

    /// Length of the message payload in the current record (the stored record
    /// length minus the header).
    pub fn length(&self) -> (r: Result<i32, AeronError>)
        requires
            self.wf(),
            i32_at(self@, self.spec_record_offset()) >= 0,
        ensures
            r == Ok::<i32, AeronError>(
                (i32_at(self@, self.spec_record_offset()) - HEADER_LENGTH) as i32),
    {
        proof {
            self.lemma_wf_facts();
        }
        let l = self.buffer.get_i32(self.record_offset + LENGTH_OFFSET).unwrap();
        Ok(l - HEADER_LENGTH)
    }

    /// Absolute byte offset of the current record's payload inside the region.
    pub fn offset(&self) -> (r: IndexT)
        requires
            self.wf(),
        ensures
            r == self.spec_record_offset() + 8,
    {
        proof {
            self.lemma_wf_facts();
        }
        self.record_offset + HEADER_LENGTH
    }

    /// Non-blocking poll for the next record in the transmission stream.
    ///
    /// Returns `Ok(false)` when nothing new is published.  Otherwise adopts
    /// the next cursor — re-seeding from the latest-record counter and
    /// counting a lap if the producer has overrun this receiver — skips a
    /// padding record if one is present, and returns `Ok(true)`.
    pub fn receive_next(&mut self) -> (r: Result<bool, AeronError>)
        requires
            old(self).wf(),
            bc_counters_wf(old(self)@, old(self).spec_capacity(), old(self).next_i64()),
            old(self).spec_lapped_count() < i64::MAX,
        ensures
            final(self).wf(),
            final(self)@ == old(self)@,
            final(self).spec_capacity() == old(self).spec_capacity(),
            ({
                let s = old(self)@;
                let cap = old(self).spec_capacity();
                let tail = bc_tail(s, cap);
                &&& (tail <= old(self).spec_next_record() ==> r == Ok::<bool, AeronError>(false)
                    && poll_unchanged(*old(self), *final(self)))
                &&& (tail > old(self).spec_next_record() ==> r == Ok::<bool, AeronError>(true)
                    && poll_advances(*old(self), *final(self)))
            }),
    {
        proof {
            self.lemma_wf_facts();
        }
        let ghost s = self@;
        let ghost cap = self.spec_capacity();
        let mut is_available = false;
        let tail = self.buffer.get_i64_volatile(self.tail_counter_index).unwrap();
        let mut cursor = self.next_record;

        if tail > cursor {
            if !self._validate(cursor) {
                self.lapped_count = self.lapped_count + 1;
                cursor = self.buffer.get_i64(self.latest_counter_index).unwrap();
            }
            proof {
                lemma_mask_bounds(cursor, self.mask as i64);
            }
            let mut record_offset = (cursor & self.mask as i64) as IndexT;

            self.cursor = cursor;
            let l = self.buffer.get_i32(record_offset + LENGTH_OFFSET).unwrap();
            proof {
                crate::util::lemma_alignment_pow2();
                crate::util::lemma_align_up_props(l as int, 8);
            }
            let aligned = crate::util::align(l as usize, RECORD_ALIGNMENT as usize) as i64;
            self.next_record = cursor + aligned;

            if PADDING_MSG_TYPE_ID == self.buffer.get_i32(record_offset + TYPE_OFFSET).unwrap() {
                record_offset = 0;
                self.cursor = self.next_record;
                let l0 = self.buffer.get_i32(LENGTH_OFFSET).unwrap();
                proof {
                    crate::util::lemma_align_up_props(l0 as int, 8);
                }
                let aligned0 = crate::util::align(l0 as usize, RECORD_ALIGNMENT as usize) as i64;
                self.next_record = self.next_record + aligned0;
            }

            self.record_offset = record_offset;
            is_available = true;
        }

        Ok(is_available)
    }

    /// The raw `next_record` position (spec-level helper for contracts).
    pub closed spec fn next_i64(self) -> i64 {
        self.next_record
    }

    /// Write an `i64` into the backing region (test- and producer-side hatch).
    pub fn put_i64(&mut self, offset: IndexT, value: i64) -> (r: Result<(), AeronError>)
        requires
            old(self).wf(),
        ensures
            final(self).wf(),
            final(self).spec_capacity() == old(self).spec_capacity(),
            final(self).spec_cursor() == old(self).spec_cursor(),
            final(self).spec_next_record() == old(self).spec_next_record(),
            final(self).spec_record_offset() == old(self).spec_record_offset(),
            final(self).spec_lapped_count() == old(self).spec_lapped_count(),
            in_bounds(old(self)@, offset as int, 8) ==> {
                &&& r == Ok::<(), AeronError>(())
                &&& same_outside(old(self)@, final(self)@, offset as int, offset as int + 8)
                &&& i64_at(final(self)@, offset as int) == value
                &&& i32_at(final(self)@, offset as int) == value as i32
                &&& i32_at(final(self)@, offset as int + 4) == (value >> 32) as i32
            },
            !in_bounds(old(self)@, offset as int, 8) ==> {
                &&& r == Err::<(), AeronError>(AeronError::OutOfBounds)
                &&& final(self)@ == old(self)@
            },
    {
        self.buffer.put_i64(offset, value)
    }

    /// Write an `i32` into the backing region (test- and producer-side hatch).
    pub fn put_i32(&mut self, offset: IndexT, value: i32) -> (r: Result<(), AeronError>)
        requires
            old(self).wf(),
        ensures
            final(self).wf(),
            final(self).spec_capacity() == old(self).spec_capacity(),
            final(self).spec_cursor() == old(self).spec_cursor(),
            final(self).spec_next_record() == old(self).spec_next_record(),
            final(self).spec_record_offset() == old(self).spec_record_offset(),
            final(self).spec_lapped_count() == old(self).spec_lapped_count(),
            in_bounds(old(self)@, offset as int, 4) ==> {
                &&& r == Ok::<(), AeronError>(())
                &&& same_outside(old(self)@, final(self)@, offset as int, offset as int + 4)
                &&& i32_at(final(self)@, offset as int) == value
            },
            !in_bounds(old(self)@, offset as int, 4) ==> {
                &&& r == Err::<(), AeronError>(AeronError::OutOfBounds)
                &&& final(self)@ == old(self)@
            },
    {
        self.buffer.put_i32(offset, value)
    }

    /// Copy `length` payload bytes of the current record out of the region.
    pub fn copy_payload(&self, offset: IndexT, length: IndexT)
        -> (r: Result<Vec<u8>, AeronError>)
        requires
            self.wf(),
        ensures
            in_bounds(self@, offset as int, length as int)
                ==> (r matches Ok(v)
                    && v@ == self@.subrange(offset as int, offset as int + length as int)),
            !in_bounds(self@, offset as int, length as int)
                ==> r == Err::<Vec<u8>, AeronError>(AeronError::OutOfBounds),
    {
        self.buffer.get_bytes(offset, length)
    }
}

/// A freshly constructed receiver has seen no laps, and on a buffer where
/// nothing was published past the latest-record position its next poll finds
/// nothing: its cursor starts at the latest-record position, so the published
/// tail is not ahead of it and `receive_next` reports no record.
pub proof fn lemma_fresh_receiver_sees_nothing(rcv: BroadcastReceiver)
    requires
        rcv.wf(),
        rcv.spec_lapped_count() == 0,
        rcv.spec_next_record() == bc_latest(rcv@, rcv.spec_capacity()) as int,
        bc_tail(rcv@, rcv.spec_capacity()) <= bc_latest(rcv@, rcv.spec_capacity()),
    ensures
        bc_tail(rcv@, rcv.spec_capacity()) <= rcv.spec_next_record(),
{
}

/// Largest message payload the copying receiver hands out.
pub const SCRATCH_CAPACITY: IndexT = 4096;

/// Broadcast receiver that hands out a stable copy of each message.
///
/// The producer may overwrite the region at any time, so the payload is
/// copied out before it is validated; only a copy that revalidates is
/// delivered.
pub struct CopyBroadcastReceiver {
    receiver: BroadcastReceiver,
}

impl CopyBroadcastReceiver {
    /// The wrapped polling receiver.
    pub closed spec fn inner(self) -> BroadcastReceiver {
        self.receiver
    }

    /// Wrap a polling receiver.
    pub fn new(receiver: BroadcastReceiver) -> (r: CopyBroadcastReceiver)
        ensures
            r.inner() == receiver,
    {
        CopyBroadcastReceiver { receiver }
    }

    /// Attempt to receive a single message from the broadcast stream.
    ///
    /// Returns `Ok(None)` when nothing new is published.  A message is
    /// delivered only if the receiver was not lapped during the poll, the
    /// payload fits the scratch bound, and the record still validates after
    /// the copy; otherwise the snapshot may be torn and the poll fails with
    /// `IllegalState`.
    pub fn receive(&mut self) -> (r: Result<Option<(i32, Vec<u8>)>, AeronError>)
        requires
            old(self).inner().wf(),
            bc_counters_wf(old(self).inner()@, old(self).inner().spec_capacity(),
                old(self).inner().next_i64()),
            old(self).inner().spec_lapped_count() < i64::MAX,
        ensures
            final(self).inner().wf(),
            final(self).inner()@ == old(self).inner()@,
            final(self).inner().spec_capacity() == old(self).inner().spec_capacity(),
            ({
                let pre = old(self).inner();
                let post = final(self).inner();
                let s = pre@;
                let cap = pre.spec_capacity();
                let tail = bc_tail(s, cap);
                &&& (tail <= pre.spec_next_record()
                    ==> r == Ok::<Option<(i32, Vec<u8>)>, AeronError>(None)
                        && poll_unchanged(pre, post))
                &&& (tail > pre.spec_next_record() ==> {
                    let lapped = !(pre.spec_next_record() + cap > bc_tail_intent(s, cap));
                    &&& poll_advances(pre, post)
                    &&& (lapped ==> r == Err::<Option<(i32, Vec<u8>)>, AeronError>(
                        AeronError::IllegalState))
                    &&& (!lapped ==> {
                        let ro = post.spec_record_offset();
                        let plen = i32_at(s, ro) - HEADER_LENGTH;
                        &&& (plen > SCRATCH_CAPACITY
                            ==> r == Err::<Option<(i32, Vec<u8>)>, AeronError>(
                                AeronError::IllegalState))
                        &&& (plen <= SCRATCH_CAPACITY && !in_bounds(s, ro + 8, plen)
                            ==> r == Err::<Option<(i32, Vec<u8>)>, AeronError>(
                                AeronError::OutOfBounds))
                        &&& (plen <= SCRATCH_CAPACITY && in_bounds(s, ro + 8, plen) ==> {
                            let valid = post.spec_cursor() + cap > bc_tail_intent(s, cap);
                            &&& (!valid ==> r == Err::<Option<(i32, Vec<u8>)>, AeronError>(
                                AeronError::IllegalState))
                            &&& (valid ==> (r matches Ok(m) && m matches Some(msg)
                                && msg.0 == i32_at(s, ro + 4)
                                && msg.1@ == s.subrange(ro + 8, ro + 8 + plen)))
                        })
                    })
                })
            }),
    {
        proof {
            self.receiver.lemma_wf_facts();
        }
        let last_seen_lapped_count = self.receiver.lapped_count();

        let available = match self.receiver.receive_next() {
            Ok(a) => a,
            Err(e) => {
                return Err(e);
            },
        };
        if !available {
            return Ok(None);
        }

        if last_seen_lapped_count != self.receiver.lapped_count() {
            return Err(AeronError::IllegalState);
        }

        let length = match self.receiver.length() {
            Ok(l) => l,
            Err(e) => {
                return Err(e);
            },
        };
        if length > SCRATCH_CAPACITY {
            return Err(AeronError::IllegalState);
        }

        let msg_type_id = match self.receiver.msg_type_id() {
            Ok(t) => t,
            Err(e) => {
                return Err(e);
            },
        };
        let payload = match self.receiver.copy_payload(self.receiver.offset(), length) {
            Ok(p) => p,
            Err(e) => {
                return Err(e);
            },
        };

        if !self.receiver.validate() {
            return Err(AeronError::IllegalState);
        }

        Ok(Some((msg_type_id, payload)))
    }
}

} // verus!
