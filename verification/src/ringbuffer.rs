//! Multi-producer, single-consumer ring buffer over an [`AtomicBuffer`].
//!
//! The backing region is `capacity` payload bytes (a power of two) followed by
//! a fixed trailer holding the tail, head-cache, head, correlation and
//! consumer-heartbeat counters, each on its own cache line.  Records are laid
//! out contiguously: a claim that would cross the capacity edge first emits a
//! padding record that fills the gap to the edge.
use crate::atomic_buffer::{
    i32_at, i64_at, in_bounds, same_outside, u32_of_le, u64_of_halves, AtomicBuffer,
};
use crate::util::{align8, align_up, AeronError, IndexT};
use vstd::arithmetic::power2::is_pow2;
use vstd::prelude::*;

verus! {

/// Offset within the trailer of the tail position counter.
pub const TAIL_POSITION_OFFSET: IndexT = 128;

/// Offset within the trailer of the producers' cached head position.
pub const HEAD_CACHE_POSITION_OFFSET: IndexT = 256;

/// Offset within the trailer of the head position counter.
pub const HEAD_POSITION_OFFSET: IndexT = 384;

/// Offset within the trailer of the correlation identifier counter.
pub const CORRELATION_COUNTER_OFFSET: IndexT = 512;

/// Offset within the trailer of the consumer heartbeat timestamp.
pub const CONSUMER_HEARTBEAT_OFFSET: IndexT = 640;

/// Total size of the ring buffer metadata trailer.
pub const TRAILER_LENGTH: IndexT = 768;

/// Size of the record header: an `i32` length then an `i32` type identifier.
pub const HEADER_LENGTH: IndexT = 8;

/// Records are placed on 8-byte boundaries.
pub const ALIGNMENT: IndexT = 8;

/// Message type identifier of a padding record.
pub const PADDING_MSG_TYPE_ID: i32 = -1;

/// Sentinel returned by `claim_capacity` when the ring cannot hold the record.
pub const INSUFFICIENT_CAPACITY: IndexT = -2;

/// Verify that a capacity is legal for use as a ring buffer.
pub fn check_capacity(capacity: IndexT) -> (r: Result<(), AeronError>)
    ensures
        r == (if is_pow2(capacity as int) {
            Ok::<(), AeronError>(())
        } else {
            Err::<(), AeronError>(AeronError::IllegalArgument)
        }),
{
    if crate::util::is_power_of_two(capacity) {
        Ok(())
    } else {
        Err(AeronError::IllegalArgument)
    }
}

/// The packed 64-bit record header: type identifier in the high word,
/// length in the low word.
pub open spec fn spec_make_header(length: i32, msg_type_id: i32) -> i64 {
    ((msg_type_id as i64 & 0xFFFF_FFFF) << 32) | (length as i64 & 0xFFFF_FFFF)
}

/// The packed header stores its two fields in its two little-endian words.
pub proof fn lemma_header_fields(length: i32, msg_type_id: i32)
    by (bit_vector)
    ensures
        spec_make_header(length, msg_type_id) as i32 == length,
        (spec_make_header(length, msg_type_id) >> 32) as i32 == msg_type_id,
        u64_of_halves(length as u32, msg_type_id as u32) as i64
            == spec_make_header(length, msg_type_id),
{
}

/// Pack a record header out of a length and a message type identifier.
pub fn make_header(length: i32, msg_type_id: i32) -> (r: i64)
    ensures
        r == spec_make_header(length, msg_type_id),
{
    ((msg_type_id as i64 & 0xFFFF_FFFF) << 32) | (length as i64 & 0xFFFF_FFFF)
}

/// Verify that a message type identifier is usable (user types are >= 1).
pub fn check_msg_type_id(msg_type_id: i32) -> (r: Result<(), AeronError>)
    ensures
        r == (if msg_type_id >= 1 {
            Ok::<(), AeronError>(())
        } else {
            Err::<(), AeronError>(AeronError::IllegalArgument)
        }),
{
    if msg_type_id < 1 {
        Err(AeronError::IllegalArgument)
    } else {
        Ok(())
    }
}

/// Offset of a record's payload given the record's starting offset.
pub fn encoded_msg_offset(record_offset: IndexT) -> (r: IndexT)
    requires
        record_offset + HEADER_LENGTH <= i32::MAX,
    ensures
        r == record_offset + HEADER_LENGTH,
{
    record_offset + HEADER_LENGTH
}

/// Offset of a record's length field given the record's starting offset.
pub fn length_offset(record_offset: IndexT) -> (r: IndexT)
    ensures
        r == record_offset,
{
    record_offset
}

/// Offset of a record's type field given the record's starting offset.
pub fn type_offset(record_offset: IndexT) -> (r: IndexT)
    requires
        record_offset + 4 <= i32::MAX,
    ensures
        r == record_offset + 4,
{
    record_offset + 4
}

/// Extract the record length from a packed header.
pub fn record_length(header: i64) -> (r: i32)
    ensures
        r == header as i32,
{
    #[verifier::truncate] (header as i32)
}

/// Extract the message type identifier from a packed header.
pub fn message_type_id(header: i64) -> (r: i32)
    ensures
        r == (header >> 32) as i32,
{
    #[verifier::truncate] ((header >> 32) as i32)
}

/// The tail position counter stored in the trailer.
pub open spec fn ring_tail(s: Seq<u8>, cap: int) -> i64 {
    i64_at(s, cap + TAIL_POSITION_OFFSET)
}

/// The producers' cached head position stored in the trailer.
pub open spec fn ring_head_cache(s: Seq<u8>, cap: int) -> i64 {
    i64_at(s, cap + HEAD_CACHE_POSITION_OFFSET)
}

/// The head position counter stored in the trailer.
pub open spec fn ring_head(s: Seq<u8>, cap: int) -> i64 {
    i64_at(s, cap + HEAD_POSITION_OFFSET)
}

/// The correlation identifier counter stored in the trailer.
pub open spec fn ring_correlation(s: Seq<u8>, cap: int) -> i64 {
    i64_at(s, cap + CORRELATION_COUNTER_OFFSET)
}

/// The consumer heartbeat timestamp stored in the trailer.
pub open spec fn ring_heartbeat(s: Seq<u8>, cap: int) -> i64 {
    i64_at(s, cap + CONSUMER_HEARTBEAT_OFFSET)
}

/// Byte offset within `[0, cap)` of a position counter value.
pub open spec fn masked(pos: i64, cap: int) -> int {
    (pos & (cap - 1) as i64) as int
}

/// Masking a non-negative position keeps it within `[0, mask]`.
pub proof fn lemma_mask_bounds(pos: i64, mask: i64)
    by (bit_vector)
    requires
        pos >= 0,
        0 <= mask < 0x8000_0000,
    ensures
        0 <= (pos & mask) <= mask,
{
}

/// For a power-of-two capacity, masking is reduction modulo the capacity.
pub proof fn lemma_masked_is_mod(pos: i64, cap: int)
    requires
        pos >= 0,
        is_pow2(cap),
        cap <= 0x4000_0000,
    ensures
        masked(pos, cap) == (pos as int) % cap,
{
    broadcast use vstd::arithmetic::power2::is_pow2_equiv;

    assert(vstd::arithmetic::power2::is_pow2_exists(cap));
    let n = choose|i: nat| vstd::arithmetic::power::pow(2, i) == cap;
    assert(vstd::arithmetic::power::pow(2, n) == cap);
    vstd::arithmetic::power::lemma_pow_positive(2, n);
    assert(vstd::arithmetic::power2::pow2(n) == cap);
    assert(n <= 30) by {
        if n > 30 {
            vstd::arithmetic::power2::lemma_pow2_strictly_increases(30, n);
            vstd::arithmetic::power2::lemma2_to64();
        }
    }
    vstd::bits::lemma_u64_low_bits_mask_is_mod(pos as u64, n);
    assert(vstd::bits::low_bits_mask(n) == cap - 1);
    let m_u = (cap - 1) as u64;
    let m_i = (cap - 1) as i64;
    assert((pos & m_i) == ((pos as u64) & m_u) as i64) by (bit_vector)
        requires
            pos >= 0,
            m_i == m_u as i64,
            m_u < 0x8000_0000;
    vstd::arithmetic::div_mod::lemma_mod_bound(pos as int, cap);
}

/// Producer-side well-formedness of the counters stored in the region:
/// the head never passes the tail, at most `cap` bytes are unread, the
/// cached head trails the real head, and positions stay far from overflow.
pub open spec fn counters_wf(s: Seq<u8>, cap: int) -> bool {
    let t = ring_tail(s, cap);
    let h = ring_head(s, cap);
    let hc = ring_head_cache(s, cap);
    &&& 0 <= hc <= h <= t
    &&& t - h <= cap
    &&& t - hc <= 0x4000_0000
    &&& t <= 0x1000_0000_0000_0000
}

/// Outcome of one capacity claim, as a function of the region contents.
pub struct ClaimPlan {
    /// No room for the record, even after refreshing the cached head.
    pub insufficient: bool,
    /// Bytes of padding emitted at the old tail index (0 when none).
    pub padding: int,
    /// Offset at which the claimed record starts.
    pub index: int,
    /// Tail position after the claim.
    pub new_tail: int,
    /// Whether the cached head was refreshed from the head counter.
    pub cache_updated: bool,
}

/// The claim algorithm of the producers, written out as a function of the
/// region contents: check available capacity against the cached head,
/// refreshing it from the head counter on demand; then, if the record would
/// cross the capacity edge, check that the wrapped record fits below the
/// head index, and plan a padding record over the gap.
pub open spec fn claim_plan(s: Seq<u8>, cap: int, required: int) -> ClaimPlan {
    let t = ring_tail(s, cap);
    let h = ring_head(s, cap);
    let hc = ring_head_cache(s, cap);
    let b1 = required > cap - (t - hc);
    let ins1 = b1 && required > cap - (t - h);
    let head1 = if b1 { h } else { hc };
    let ti = masked(t, cap);
    let to_end = cap - ti;
    let b2 = !ins1 && required > to_end;
    let b2b = b2 && required > masked(head1, cap);
    let ins2 = b2b && required > masked(h, cap);
    let insufficient = ins1 || ins2;
    let padding = if b2 && !insufficient { to_end } else { 0 };
    ClaimPlan {
        insufficient,
        padding,
        index: if !insufficient && padding != 0 { 0 } else { ti },
        new_tail: t + required + padding,
        cache_updated: (b1 && !ins1) || (b2b && !ins2),
    }
}

/// How one claim transforms the region: the head-cache slot is refreshed when
/// the plan says so, the tail advances on success, a padding header appears at
/// the old tail index when the record wrapped, and no other byte moves.
pub open spec fn claim_post(s0: Seq<u8>, s1: Seq<u8>, cap: int, required: int) -> bool {
    let plan = claim_plan(s0, cap, required);
    let ti = masked(ring_tail(s0, cap), cap);
    &&& s1.len() == s0.len()
    &&& ring_head(s1, cap) == ring_head(s0, cap)
    &&& ring_correlation(s1, cap) == ring_correlation(s0, cap)
    &&& ring_heartbeat(s1, cap) == ring_heartbeat(s0, cap)
    &&& ring_head_cache(s1, cap) == (if plan.cache_updated {
        ring_head(s0, cap)
    } else {
        ring_head_cache(s0, cap)
    })
    &&& ring_tail(s1, cap) == (if plan.insufficient {
        ring_tail(s0, cap)
    } else {
        plan.new_tail as i64
    })
    &&& (!plan.insufficient && plan.padding > 0 ==> {
        &&& i32_at(s1, ti) == plan.padding as i32
        &&& i32_at(s1, ti + 4) == PADDING_MSG_TYPE_ID
        &&& i64_at(s1, ti) == spec_make_header(plan.padding as i32, PADDING_MSG_TYPE_ID)
    })
    &&& forall|j: int| 0 <= j < s0.len()
        && !(cap + HEAD_CACHE_POSITION_OFFSET <= j < cap + HEAD_CACHE_POSITION_OFFSET + 8)
        && !(cap + TAIL_POSITION_OFFSET <= j < cap + TAIL_POSITION_OFFSET + 8)
        && !(!plan.insufficient && plan.padding > 0 && ti <= j < ti + 8)
        ==> s1[j] == s0[j]
    &&& (!plan.cache_updated ==> forall|j: int|
        cap + HEAD_CACHE_POSITION_OFFSET <= j < cap + HEAD_CACHE_POSITION_OFFSET + 8
            ==> s1[j] == s0[j])
    &&& (plan.insufficient ==> forall|j: int|
        cap + TAIL_POSITION_OFFSET <= j < cap + TAIL_POSITION_OFFSET + 8 ==> s1[j] == s0[j])
}

/// How one record write transforms the region: the claim's effects, plus the
/// committed record header and payload at the claimed index.
pub open spec fn write_post(s0: Seq<u8>, s1: Seq<u8>, cap: int, required: int,
    msg_type_id: i32, src: Seq<u8>, si: int, len: int) -> bool {
    let plan = claim_plan(s0, cap, required);
    let idx = plan.index;
    let ti = masked(ring_tail(s0, cap), cap);
    &&& s1.len() == s0.len()
    &&& 0 <= idx
    &&& idx + required <= cap
    &&& len + 8 <= required
    &&& ring_tail(s1, cap) == plan.new_tail as i64
    &&& ring_head(s1, cap) == ring_head(s0, cap)
    &&& ring_correlation(s1, cap) == ring_correlation(s0, cap)
    &&& ring_heartbeat(s1, cap) == ring_heartbeat(s0, cap)
    &&& ring_head_cache(s1, cap) == (if plan.cache_updated {
        ring_head(s0, cap)
    } else {
        ring_head_cache(s0, cap)
    })
    &&& i32_at(s1, idx) == len + 8
    &&& i32_at(s1, idx + 4) == msg_type_id
    &&& i64_at(s1, idx) == spec_make_header((len + 8) as i32, msg_type_id)
    &&& forall|k: int| 0 <= k < len ==> #[trigger] s1[idx + 8 + k] == src[si + k]
    &&& (plan.padding > 0 ==> {
        &&& i32_at(s1, ti) == plan.padding as i32
        &&& i32_at(s1, ti + 4) == PADDING_MSG_TYPE_ID
    })
    &&& forall|j: int| 0 <= j < s0.len()
        && !(cap + HEAD_CACHE_POSITION_OFFSET <= j < cap + HEAD_CACHE_POSITION_OFFSET + 8)
        && !(cap + TAIL_POSITION_OFFSET <= j < cap + TAIL_POSITION_OFFSET + 8)
        && !(plan.padding > 0 && ti <= j < ti + 8)
        && !(idx <= j < idx + 8 + len)
        ==> s1[j] == s0[j]
    &&& (!plan.cache_updated ==> forall|j: int|
        cap + HEAD_CACHE_POSITION_OFFSET <= j < cap + HEAD_CACHE_POSITION_OFFSET + 8
            ==> s1[j] == s0[j])
}

/// On a successful wrapping claim the claimed record (starting at offset 0)
/// ends at or before the old tail index, where the padding header goes.
proof fn lemma_padding_fits(s: Seq<u8>, cap: int, required: int)
    requires
        counters_wf(s, cap),
        is_pow2(cap),
        1 <= cap <= 0x4000_0000,
        1 <= required,
        ({
            let plan = claim_plan(s, cap, required);
            !plan.insufficient && plan.padding > 0
        }),
    ensures
        required <= masked(ring_tail(s, cap), cap),
{
    let t = ring_tail(s, cap);
    let h = ring_head(s, cap);
    let hc = ring_head_cache(s, cap);
    let plan = claim_plan(s, cap, required);
    lemma_masked_is_mod(t, cap);
    lemma_masked_is_mod(h, cap);
    lemma_masked_is_mod(hc, cap);
    // A witness position `g` with: g <= t, t - g <= cap - required, required <= g % cap.
    let b1 = required > cap - (t - hc);
    let head1 = if b1 { h } else { hc };
    let b2b = required > masked(head1, cap);
    let g: i64 = if b2b || b1 { h } else { hc };
    assert(0 <= g <= t);
    assert(t - g <= cap - required);
    assert(required <= masked(g, cap));
    lemma_masked_is_mod(g, cap);
    let gi = (g as int) % cap;
    let d = t - g;
    vstd::arithmetic::div_mod::lemma_mod_bound(g as int, cap);
    vstd::arithmetic::div_mod::lemma_add_mod_noop(g as int, d, cap);
    vstd::arithmetic::div_mod::lemma_small_mod(d as nat, cap as nat);
    if gi + d < cap {
        vstd::arithmetic::div_mod::lemma_small_mod((gi + d) as nat, cap as nat);
        assert(masked(t, cap) == gi + d);
    } else {
        assert((gi + d) % cap == (gi + d - cap) % cap) by {
            vstd::arithmetic::div_mod::lemma_mod_multiples_vanish(1, gi + d - cap, cap);
        }
        vstd::arithmetic::div_mod::lemma_small_mod((gi + d - cap) as nat, cap as nat);
        assert(masked(t, cap) == gi + d - cap);
        // contradicts the wrap condition required > cap - masked(t, cap)
        assert(false);
    }
}

/// Multi-producer, single-consumer ring buffer.
pub struct ManyToOneRingBuffer {
    buffer: AtomicBuffer,
    capacity: IndexT,
    max_msg_length: IndexT,
    tail_position_index: IndexT,
    head_cache_position_index: IndexT,
    head_position_index: IndexT,
    correlation_id_counter_index: IndexT,
    consumer_heartbeat_index: IndexT,
}

impl View for ManyToOneRingBuffer {
    type V = Seq<u8>;

    closed spec fn view(&self) -> Seq<u8> {
        self.buffer@
    }
}

impl ManyToOneRingBuffer {
    /// Structural well-formedness: the capacity is a power of two, the region
    /// is the payload plus the trailer, and the trailer offsets are in place.
    pub closed spec fn wf(self) -> bool {
        &&& self.buffer.wf()
        &&& is_pow2(self.capacity as int)
        &&& self.buffer@.len() == self.capacity + TRAILER_LENGTH
        &&& self.max_msg_length == self.capacity as int / 8
        &&& self.tail_position_index == self.capacity + TAIL_POSITION_OFFSET
        &&& self.head_cache_position_index == self.capacity + HEAD_CACHE_POSITION_OFFSET
        &&& self.head_position_index == self.capacity + HEAD_POSITION_OFFSET
        &&& self.correlation_id_counter_index == self.capacity + CORRELATION_COUNTER_OFFSET
        &&& self.consumer_heartbeat_index == self.capacity + CONSUMER_HEARTBEAT_OFFSET
    }

    /// Payload capacity in bytes, excluding the trailer.
    pub closed spec fn spec_capacity(self) -> int {
        self.capacity as int
    }

    /// Facts every well-formed ring provides about its shape.
    pub proof fn lemma_wf_facts(self)
        requires
            self.wf(),
        ensures
            self@.len() == self.spec_capacity() + TRAILER_LENGTH,
            is_pow2(self.spec_capacity()),
            1 <= self.spec_capacity() <= 0x4000_0000,
    {
        lemma_pow2_index_bound(self.capacity as int);
        reveal(is_pow2);
    }

    /// Create a many-to-one ring buffer from an underlying atomic buffer.
    pub fn new(buffer: AtomicBuffer) -> (r: Result<ManyToOneRingBuffer, AeronError>)
        requires
            buffer.wf(),
        ensures
            is_pow2(buffer@.len() - TRAILER_LENGTH) ==> (r matches Ok(rb) && {
                &&& rb.wf()
                &&& rb@ == buffer@
                &&& rb.spec_capacity() == buffer@.len() - TRAILER_LENGTH
            }),
            !is_pow2(buffer@.len() - TRAILER_LENGTH)
                ==> r == Err::<ManyToOneRingBuffer, AeronError>(AeronError::IllegalArgument),
    {
        let capacity = buffer.capacity() - TRAILER_LENGTH;
        match check_capacity(capacity) {
            Ok(_) => {
                proof {
                    reveal(is_pow2);
                }
                Ok(ManyToOneRingBuffer {
                    buffer,
                    capacity,
                    max_msg_length: capacity / 8,
                    tail_position_index: capacity + TAIL_POSITION_OFFSET,
                    head_cache_position_index: capacity + HEAD_CACHE_POSITION_OFFSET,
                    head_position_index: capacity + HEAD_POSITION_OFFSET,
                    correlation_id_counter_index: capacity + CORRELATION_COUNTER_OFFSET,
                    consumer_heartbeat_index: capacity + CONSUMER_HEARTBEAT_OFFSET,
                })
            },
            Err(e) => Err(e),
        }
    }

    /// Payload capacity of this ring in bytes.
    pub fn capacity(&self) -> (r: IndexT)
        requires
            self.wf(),
        ensures
            r == self.spec_capacity(),
    {
        self.capacity
    }

    /// Largest message length this ring accepts: an eighth of the capacity.
    pub fn max_msg_length(&self) -> (r: IndexT)
        requires
            self.wf(),
        ensures
            r == self.spec_capacity() / 8,
    {
        self.max_msg_length
    }

    /// Atomically take the next correlation identifier: a sequentially
    /// consistent fetch-add of one, returning the pre-increment value.
    pub fn next_correlation_id(&mut self) -> (r: i64)
        requires
            old(self).wf(),
            ring_correlation(old(self)@, old(self).spec_capacity()) < i64::MAX,
        ensures
            final(self).wf(),
            final(self).spec_capacity() == old(self).spec_capacity(),
            r == ring_correlation(old(self)@, old(self).spec_capacity()),
            ring_correlation(final(self)@, final(self).spec_capacity()) == r + 1,
            same_outside(old(self)@, final(self)@,
                old(self).spec_capacity() + CORRELATION_COUNTER_OFFSET,
                old(self).spec_capacity() + CORRELATION_COUNTER_OFFSET + 8),
    {
        proof {
            self.lemma_wf_facts();
        }
        let idx = self.correlation_id_counter_index;
        self.buffer.get_and_add_i64(idx, 1).unwrap()
    }

    /// Timestamp of the consumer's last heartbeat (volatile read).
    pub fn consumer_heartbeat_time(&self) -> (r: i64)
        requires
            self.wf(),
        ensures
            r == ring_heartbeat(self@, self.spec_capacity()),
    {
        proof {
            self.lemma_wf_facts();
        }
        self.buffer.get_i64_volatile(self.consumer_heartbeat_index).unwrap()
    }

    /// Read an `i32` from the backing region without synchronisation.
    pub fn get_i32(&self, offset: IndexT) -> (r: Result<i32, AeronError>)
        requires
            self.wf(),
        ensures
            r == (if in_bounds(self@, offset as int, 4) {
                Ok::<i32, AeronError>(i32_at(self@, offset as int))
            } else {
                Err::<i32, AeronError>(AeronError::OutOfBounds)
            }),
    {
        self.buffer.get_i32(offset)
    }

    /// Read an `i64` from the backing region without synchronisation.
    pub fn get_i64(&self, offset: IndexT) -> (r: Result<i64, AeronError>)
        requires
            self.wf(),
        ensures
            r == (if in_bounds(self@, offset as int, 8) {
                Ok::<i64, AeronError>(i64_at(self@, offset as int))
            } else {
                Err::<i64, AeronError>(AeronError::OutOfBounds)
            }),
    {
        self.buffer.get_i64(offset)
    }

    /// Volatile read of an `i64` from the backing region.
    pub fn get_i64_volatile(&self, offset: IndexT) -> (r: Result<i64, AeronError>)
        requires
            self.wf(),
        ensures
            r == (if in_bounds(self@, offset as int, 8) {
                Ok::<i64, AeronError>(i64_at(self@, offset as int))
            } else {
                Err::<i64, AeronError>(AeronError::OutOfBounds)
            }),
    {
        self.buffer.get_i64_volatile(offset)
    }

    /// Write an `i64` into the backing region without synchronisation.
    /// This is the consumer- and test-facing hatch for seeding counters.
    pub fn put_i64(&mut self, offset: IndexT, value: i64) -> (r: Result<(), AeronError>)
        requires
            old(self).wf(),
        ensures
            final(self).wf(),
            final(self).spec_capacity() == old(self).spec_capacity(),
            in_bounds(old(self)@, offset as int, 8) ==> {
                &&& r == Ok::<(), AeronError>(())
                &&& same_outside(old(self)@, final(self)@, offset as int, offset as int + 8)
                &&& i64_at(final(self)@, offset as int) == value
                &&& i32_at(final(self)@, offset as int) == value as i32
                &&& i32_at(final(self)@, offset as int + 4) == (value >> 32) as i32
            },
            !in_bounds(old(self)@, offset as int, 8) ==> {
                &&& r == Err::<(), AeronError>(AeronError::OutOfBounds)
                &&& final(self)@ == old(self)@
            },
    {
        self.buffer.put_i64(offset, value)
    }
}

impl ManyToOneRingBuffer {
    /// Claim space for a record of `required` bytes.  Returns the offset at
    /// which to write, or `-2` when the ring lacks capacity.  Producers race
    /// on the tail counter with a compare-and-set; when the record would
    /// cross the capacity edge a padding record is laid over the gap first.
    #[verifier::rlimit(100)]
    #[verifier::spinoff_prover]
    pub fn claim_capacity(&mut self, required: IndexT) -> (r: Result<IndexT, AeronError>)
        requires
            old(self).wf(),
            counters_wf(old(self)@, old(self).spec_capacity()),
            1 <= required <= 0x1000_0000,
        ensures
            final(self).wf(),
            final(self).spec_capacity() == old(self).spec_capacity(),
            claim_post(old(self)@, final(self)@, old(self).spec_capacity(), required as int),
            r == Ok::<IndexT, AeronError>(
                ({
                    let plan = claim_plan(old(self)@, old(self).spec_capacity(), required as int);
                    if plan.insufficient {
                        INSUFFICIENT_CAPACITY
                    } else {
                        plan.index as IndexT
                    }
                })),
    {
        proof {
            self.lemma_wf_facts();
        }
        let cap = self.capacity;
        let mask = cap - 1;
        let ghost s0 = self@;
        let ghost capi = self.spec_capacity();
        let ghost plan = claim_plan(s0, capi, required as int);

        let mut head = self.buffer.get_i64_volatile(self.head_cache_position_index).unwrap();

        let mut tail: i64 = 0;
        let mut tail_index: IndexT = 0;
        let mut padding: IndexT = 0;
        // Producers race on the tail with a compare-and-set and retry on
        // failure.  Over an owned region the counter cannot move between the
        // read and the swap, so the body provably runs exactly once.
        loop
            invariant_except_break
                self.wf(),
                self.spec_capacity() == capi,
                s0 == old(self)@,
                capi == old(self).spec_capacity(),
                1 <= capi <= 0x4000_0000,
                cap == capi as IndexT,
                mask == cap - 1,
                self@ == s0,
                counters_wf(s0, capi),
                1 <= required <= 0x1000_0000,
                head == ring_head_cache(s0, capi),
                plan == claim_plan(s0, capi, required as int),
            ensures
                self.wf(),
                self.spec_capacity() == capi,
                s0 == old(self)@,
                capi == old(self).spec_capacity(),
                1 <= capi <= 0x4000_0000,
                plan == claim_plan(s0, capi, required as int),
                !plan.insufficient,
                tail == ring_tail(s0, capi),
                tail_index as int == masked(ring_tail(s0, capi), capi),
                padding as int == plan.padding,
                self@.len() == s0.len(),
                ring_tail(self@, capi) == plan.new_tail as i64,
                ring_head(self@, capi) == ring_head(s0, capi),
                ring_correlation(self@, capi) == ring_correlation(s0, capi),
                ring_heartbeat(self@, capi) == ring_heartbeat(s0, capi),
                ring_head_cache(self@, capi) == (if plan.cache_updated {
                    ring_head(s0, capi)
                } else {
                    ring_head_cache(s0, capi)
                }),
                forall|j: int| 0 <= j < s0.len()
                    && !(capi + HEAD_CACHE_POSITION_OFFSET <= j < capi + HEAD_CACHE_POSITION_OFFSET + 8)
                    && !(capi + TAIL_POSITION_OFFSET <= j < capi + TAIL_POSITION_OFFSET + 8)
                    ==> self@[j] == s0[j],
                !plan.cache_updated ==> forall|j: int|
                    capi + HEAD_CACHE_POSITION_OFFSET <= j < capi + HEAD_CACHE_POSITION_OFFSET + 8
                        ==> self@[j] == s0[j],
            decreases 0int,
        {
            tail = self.buffer.get_i64_volatile(self.tail_position_index).unwrap();
            let available_capacity = cap - (tail - head) as IndexT;

            if required > available_capacity {
                head = self.buffer.get_i64_volatile(self.head_position_index).unwrap();

                if required > cap - (tail - head) as IndexT {
                    return Ok(INSUFFICIENT_CAPACITY);
                }

                self.buffer.put_i64_ordered(self.head_cache_position_index, head).unwrap();
            }

            padding = 0;

            proof {
                lemma_mask_bounds(tail, mask as i64);
            }
            tail_index = (tail & mask as i64) as IndexT;
            let to_buffer_end_length = cap - tail_index;

            if required > to_buffer_end_length {
                proof {
                    lemma_mask_bounds(head, mask as i64);
                }
                let mut head_index = (head & mask as i64) as IndexT;

                if required > head_index {
                    head = self.buffer.get_i64_volatile(self.head_position_index).unwrap();
                    proof {
                        lemma_mask_bounds(head, mask as i64);
                    }
                    head_index = (head & mask as i64) as IndexT;

                    if required > head_index {
                        return Ok(INSUFFICIENT_CAPACITY);
                    }

                    self.buffer.put_i64_ordered(self.head_cache_position_index, head).unwrap();
                }

                padding = to_buffer_end_length;
            }

            let swapped = self.buffer.compare_and_set_i64(
                self.tail_position_index,
                tail,
                tail + required as i64 + padding as i64,
            ).unwrap();
            if swapped {
                break;
            }
        }

        if padding != 0 {
            proof {
                lemma_mask_bounds(ring_tail(s0, capi), (capi - 1) as i64);
                lemma_padding_fits(s0, capi, required as int);
                lemma_header_fields(padding, PADDING_MSG_TYPE_ID);
            }
            self.buffer.put_i64_ordered(tail_index, make_header(padding, PADDING_MSG_TYPE_ID))
                .unwrap();
            tail_index = 0;
        }

        Ok(tail_index)
    }
}

impl ManyToOneRingBuffer {
    /// Release the underlying atomic buffer.
    pub fn into_buffer(self) -> (r: AtomicBuffer)
        ensures
            r@ == self@,
    {
        self.buffer
    }

    /// Reject messages longer than an eighth of the capacity.
    fn check_msg_length(&self, length: IndexT) -> (r: Result<(), AeronError>)
        requires
            self.wf(),
        ensures
            r == (if length as int > self.spec_capacity() / 8 {
                Err::<(), AeronError>(AeronError::IllegalArgument)
            } else {
                Ok::<(), AeronError>(())
            }),
    {
        if length > self.max_msg_length {
            Err(AeronError::IllegalArgument)
        } else {
            Ok(())
        }
    }

    /// Write one record into the ring.
    ///
    /// Fails with `IllegalArgument` for a non-positive type identifier or an
    /// over-long message; returns `Ok(false)` when the ring lacks capacity
    /// (back-pressure); otherwise publishes the record header, copies the
    /// payload out of `source`, commits the length field, and returns
    /// `Ok(true)`.
    #[verifier::rlimit(100)]
    #[verifier::spinoff_prover]
    pub fn write(&mut self, msg_type_id: i32, source: &AtomicBuffer, source_index: IndexT,
        length: IndexT) -> (r: Result<bool, AeronError>)
        requires
            old(self).wf(),
            counters_wf(old(self)@, old(self).spec_capacity()),
            source.wf(),
            0 <= length,
            0 <= source_index,
            source_index + length <= source@.len(),
        ensures
            final(self).wf(),
            final(self).spec_capacity() == old(self).spec_capacity(),
            msg_type_id < 1 ==> r == Err::<bool, AeronError>(AeronError::IllegalArgument)
                && final(self)@ == old(self)@,
            msg_type_id >= 1 && length as int > old(self).spec_capacity() / 8
                ==> r == Err::<bool, AeronError>(AeronError::IllegalArgument)
                    && final(self)@ == old(self)@,
            msg_type_id >= 1 && length as int <= old(self).spec_capacity() / 8 ==> ({
                let cap = old(self).spec_capacity();
                let required = align8(length as int + 8);
                let plan = claim_plan(old(self)@, cap, required);
                &&& (plan.insufficient ==> r == Ok::<bool, AeronError>(false)
                    && claim_post(old(self)@, final(self)@, cap, required))
                &&& (!plan.insufficient ==> r == Ok::<bool, AeronError>(true)
                    && write_post(old(self)@, final(self)@, cap, required, msg_type_id,
                        source@, source_index as int, length as int))
            }),
    {
        proof {
            self.lemma_wf_facts();
        }
        match check_msg_type_id(msg_type_id) {
            Err(e) => {
                return Err(e);
            },
            Ok(_) => {},
        }
        match self.check_msg_length(length) {
            Err(e) => {
                return Err(e);
            },
            Ok(_) => {},
        }

        let record_len = length + HEADER_LENGTH;
        proof {
            crate::util::lemma_alignment_pow2();
            crate::util::lemma_align_up_props(record_len as int, 8);
        }
        let required = crate::util::align(record_len as usize, ALIGNMENT as usize) as IndexT;

        let ghost s0 = self@;
        let ghost capi = self.spec_capacity();
        let ghost plan = claim_plan(s0, capi, required as int);

        let record_index = match self.claim_capacity(required) {
            Ok(idx) => idx,
            Err(_) => {
                proof {
                    assert(false);
                }
                return Err(AeronError::IllegalState);
            },
        };

        proof {
            lemma_mask_bounds(ring_tail(s0, capi), (capi - 1) as i64);
            lemma_mask_bounds(ring_head(s0, capi), (capi - 1) as i64);
            lemma_mask_bounds(ring_head_cache(s0, capi), (capi - 1) as i64);
        }

        if record_index == INSUFFICIENT_CAPACITY {
            return Ok(false);
        }

        proof {
            if plan.padding > 0 {
                lemma_padding_fits(s0, capi, required as int);
            }
            lemma_header_fields((0 - length) as i32, msg_type_id);
            lemma_header_fields(record_len, msg_type_id);
        }

        self.buffer.put_i64_ordered(record_index, make_header(-length, msg_type_id)).unwrap();
        self.buffer.put_bytes(record_index + HEADER_LENGTH, source, source_index, length)
            .unwrap();
        self.buffer.put_i32_ordered(record_index, record_len).unwrap();

        proof {
            crate::atomic_buffer::lemma_i64_at_halves(self@, record_index as int);
        }

        Ok(true)
    }
}

/// Structural sanity of the committed record chain in `[idx, cap)`: each
/// record either marks the end of published data (length <= 0) or carries a
/// full header and fits inside the contiguous block.
pub open spec fn chain_wf(s: Seq<u8>, idx: int, cap: int) -> bool
    decreases (if idx <= cap { cap + 8 - idx } else { 0 }),
    when idx >= 0
    via chain_wf_decreases
{
    idx >= cap || ({
        let l = i32_at(s, idx);
        ||| l <= 0
        ||| (8 <= l && idx + l <= cap && chain_wf(s, idx + align8(l as int), cap))
    })
}

#[via_fn]
proof fn chain_wf_decreases(s: Seq<u8>, idx: int, cap: int) {
    if idx < cap {
        let l = i32_at(s, idx);
        if l > 0 {
            crate::util::lemma_align_up_props(l as int, 8);
        }
    }
}

/// The sequence of messages the consumer delivers when reading up to `limit`
/// messages from the record chain starting at `idx`: committed records in
/// order, padding records skipped, stopping at an uncommitted or absent
/// record or at the end of the contiguous block.
pub open spec fn parsed_messages(s: Seq<u8>, idx: int, cap: int, limit: int)
    -> Seq<(i32, Seq<u8>)>
    decreases (if idx <= cap { cap + 8 - idx } else { 0 }),
    when idx >= 0
    via parsed_messages_decreases
{
    if limit <= 0 || idx >= cap {
        Seq::empty()
    } else {
        let l = i32_at(s, idx);
        if l <= 0 {
            Seq::empty()
        } else {
            let next = idx + align8(l as int);
            let t = i32_at(s, idx + 4);
            if t == PADDING_MSG_TYPE_ID {
                parsed_messages(s, next, cap, limit)
            } else {
                seq![(t, s.subrange(idx + 8, idx + l as int))]
                    + parsed_messages(s, next, cap, limit - 1)
            }
        }
    }
}

#[via_fn]
proof fn parsed_messages_decreases(s: Seq<u8>, idx: int, cap: int, limit: int) {
    if limit > 0 && idx < cap {
        let l = i32_at(s, idx);
        if l > 0 {
            crate::util::lemma_align_up_props(l as int, 8);
        }
    }
}

/// Bytes the consumer walks past while delivering `parsed_messages`.
pub open spec fn consumed_bytes(s: Seq<u8>, idx: int, cap: int, limit: int) -> int
    decreases (if idx <= cap { cap + 8 - idx } else { 0 }),
    when idx >= 0
    via consumed_bytes_decreases
{
    if limit <= 0 || idx >= cap {
        0
    } else {
        let l = i32_at(s, idx);
        if l <= 0 {
            0
        } else {
            let next = idx + align8(l as int);
            if i32_at(s, idx + 4) == PADDING_MSG_TYPE_ID {
                align8(l as int) + consumed_bytes(s, next, cap, limit)
            } else {
                align8(l as int) + consumed_bytes(s, next, cap, limit - 1)
            }
        }
    }
}

#[via_fn]
proof fn consumed_bytes_decreases(s: Seq<u8>, idx: int, cap: int, limit: int) {
    if limit > 0 && idx < cap {
        let l = i32_at(s, idx);
        if l > 0 {
            crate::util::lemma_align_up_props(l as int, 8);
        }
    }
}

/// The abstract value of a vector of delivered messages.
pub open spec fn msgs_view(v: Seq<(i32, Vec<u8>)>) -> Seq<(i32, Seq<u8>)> {
    Seq::new(v.len(), |i: int| (v[i].0, v[i].1@))
}

/// Consumer-side well-formedness: the head counter is a sane position and the
/// record chain it points into is structurally valid.
pub open spec fn consumer_wf(s: Seq<u8>, cap: int) -> bool {
    &&& 0 <= ring_head(s, cap) <= 0x1000_0000_0000_0000
    &&& chain_wf(s, masked(ring_head(s, cap), cap), cap)
}

impl ManyToOneRingBuffer {
    /// Read committed records from the ring, up to `message_count_limit`
    /// messages, and return them in order (type identifier and payload
    /// bytes).  Padding records are walked over but never delivered.  Every
    /// consumed byte is zeroed and the head counter is advanced past them
    /// with a release-ordered store.
    #[verifier::rlimit(100)]
    #[verifier::spinoff_prover]
    pub fn read_n(&mut self, message_count_limit: usize)
        -> (r: Result<Vec<(i32, Vec<u8>)>, AeronError>)
        requires
            old(self).wf(),
            consumer_wf(old(self)@, old(self).spec_capacity()),
        ensures
            final(self).wf(),
            final(self).spec_capacity() == old(self).spec_capacity(),
            r matches Ok(msgs) && ({
                let cap = old(self).spec_capacity();
                let head = ring_head(old(self)@, cap);
                let hi = masked(head, cap);
                let limit = message_count_limit as int;
                let consumed = consumed_bytes(old(self)@, hi, cap, limit);
                &&& msgs_view(msgs@) == parsed_messages(old(self)@, hi, cap, limit)
                &&& (consumed > 0 ==> {
                    &&& ring_head(final(self)@, cap) == head + consumed
                    &&& forall|j: int| hi <= j < hi + consumed ==> final(self)@[j] == 0
                    &&& forall|j: int| 0 <= j < old(self)@.len()
                        && !(hi <= j < hi + consumed)
                        && !(cap + HEAD_POSITION_OFFSET <= j < cap + HEAD_POSITION_OFFSET + 8)
                        ==> final(self)@[j] == old(self)@[j]
                })
                &&& (consumed == 0 ==> final(self)@ == old(self)@)
            }),
    {
        proof {
            self.lemma_wf_facts();
        }
        let cap = self.capacity;
        let mask = cap - 1;
        let ghost s0 = self@;
        let ghost capi = self.spec_capacity();
        let ghost limit = message_count_limit as int;

        let head = self.buffer.get_i64(self.head_position_index).unwrap();
        proof {
            lemma_mask_bounds(head, mask as i64);
        }
        let head_index = (head & mask as i64) as IndexT;
        let contiguous_block_length = cap - head_index;
        let ghost hi = head_index as int;

        let mut messages_read: usize = 0;
        let mut bytes_read: IndexT = 0;
        let mut out: Vec<(i32, Vec<u8>)> = Vec::new();

        while bytes_read < contiguous_block_length && messages_read < message_count_limit
            invariant
                self.wf(),
                self.spec_capacity() == capi,
                self@ == s0,
                s0 == old(self)@,
                capi == old(self).spec_capacity(),
                1 <= capi <= 0x4000_0000,
                cap == capi as IndexT,
                mask == cap - 1,
                head == ring_head(s0, capi),
                hi == masked(head, capi),
                0 <= hi < capi,
                head_index as int == hi,
                contiguous_block_length == capi - hi,
                limit == message_count_limit as int,
                0 <= messages_read <= message_count_limit,
                0 <= bytes_read <= capi + 7 - hi,
                chain_wf(s0, hi + bytes_read, capi),
                parsed_messages(s0, hi, capi, limit) == msgs_view(out@)
                    + parsed_messages(s0, hi + bytes_read, capi, limit - messages_read),
                consumed_bytes(s0, hi, capi, limit) == bytes_read
                    + consumed_bytes(s0, hi + bytes_read, capi, limit - messages_read),
                out@.len() == messages_read,
            ensures
                self@ == s0,
                msgs_view(out@) == parsed_messages(s0, hi, capi, limit),
                bytes_read as int == consumed_bytes(s0, hi, capi, limit),
            decreases capi + 7 - hi - bytes_read,
        {
            let record_index = head_index + bytes_read;
            let header = self.buffer.get_i64_volatile(record_index).unwrap();
            proof {
                crate::atomic_buffer::lemma_i64_at_halves(s0, record_index as int);
                lemma_i64_words_of_halves(
                    i32_at(s0, record_index as int),
                    i32_at(s0, record_index as int + 4),
                );
            }
            let rec_len = record_length(header);

            if rec_len <= 0 {
                proof {
                    assert(parsed_messages(s0, hi + bytes_read, capi, limit - messages_read)
                        =~= Seq::<(i32, Seq<u8>)>::empty());
                    assert(msgs_view(out@) + Seq::<(i32, Seq<u8>)>::empty() =~= msgs_view(out@));
                }
                break;
            }

            proof {
                crate::util::lemma_align_up_props(rec_len as int, 8);
                crate::util::lemma_alignment_pow2();
            }
            let aligned = crate::util::align(rec_len as usize, ALIGNMENT as usize) as IndexT;
            let ghost prev_bytes = bytes_read as int;
            let ghost prev_msgs = messages_read as int;
            bytes_read = bytes_read + aligned;

            let msg_type = message_type_id(header);
            if msg_type != PADDING_MSG_TYPE_ID {
                let payload = self.buffer
                    .get_bytes(record_index + HEADER_LENGTH, rec_len - HEADER_LENGTH)
                    .unwrap();
                out.push((msg_type, payload));
                messages_read = messages_read + 1;
                proof {
                    assert(msgs_view(out@) =~= msgs_view(out@.drop_last())
                        + seq![(msg_type, s0.subrange(
                            record_index as int + 8, record_index as int + rec_len as int))]);
                    assert(msgs_view(out@) + parsed_messages(s0, hi + bytes_read, capi,
                            limit - messages_read)
                        =~= msgs_view(out@.drop_last())
                            + parsed_messages(s0, hi + prev_bytes, capi, limit - prev_msgs));
                }
            }
        }

        if bytes_read != 0 {
            self.buffer.set_memory(head_index, bytes_read as usize, 0).unwrap();
            self.buffer
                .put_i64_ordered(self.head_position_index, head + bytes_read as i64)
                .unwrap();
        }

        Ok(out)
    }

    /// Read committed records from the ring with no bound on the number of
    /// messages delivered.
    pub fn read(&mut self) -> (r: Result<Vec<(i32, Vec<u8>)>, AeronError>)
        requires
            old(self).wf(),
            consumer_wf(old(self)@, old(self).spec_capacity()),
        ensures
            final(self).wf(),
            final(self).spec_capacity() == old(self).spec_capacity(),
            r matches Ok(msgs) && ({
                let cap = old(self).spec_capacity();
                let head = ring_head(old(self)@, cap);
                let hi = masked(head, cap);
                let limit = usize::MAX as int;
                let consumed = consumed_bytes(old(self)@, hi, cap, limit);
                &&& msgs_view(msgs@) == parsed_messages(old(self)@, hi, cap, limit)
                &&& (consumed > 0 ==> {
                    &&& ring_head(final(self)@, cap) == head + consumed
                    &&& forall|j: int| hi <= j < hi + consumed ==> final(self)@[j] == 0
                    &&& forall|j: int| 0 <= j < old(self)@.len()
                        && !(hi <= j < hi + consumed)
                        && !(cap + HEAD_POSITION_OFFSET <= j < cap + HEAD_POSITION_OFFSET + 8)
                        ==> final(self)@[j] == old(self)@[j]
                })
                &&& (consumed == 0 ==> final(self)@ == old(self)@)
            }),
    {
        self.read_n(usize::MAX)
    }
}

/// A packed 64-bit word relates to its two halves as the record header does.
proof fn lemma_i64_words_of_halves(lo: i32, hi: i32)
    by (bit_vector)
    ensures
        (u64_of_halves(lo as u32, hi as u32) as i64) as i32 == lo,
        ((u64_of_halves(lo as u32, hi as u32) as i64) >> 32) as i32 == hi,
{
}

/// Padding records are never delivered to the consumer: every message in the
/// parsed sequence carries a user type identifier, never the padding marker.
pub proof fn lemma_padding_never_delivered(s: Seq<u8>, idx: int, cap: int, limit: int)
    requires
        idx >= 0,
    ensures
        forall|i: int| 0 <= i < parsed_messages(s, idx, cap, limit).len()
            ==> (#[trigger] parsed_messages(s, idx, cap, limit)[i]).0 != PADDING_MSG_TYPE_ID,
    decreases (if idx <= cap { cap + 8 - idx } else { 0 }),
{
    let p = parsed_messages(s, idx, cap, limit);
    if limit > 0 && idx < cap {
        let l = i32_at(s, idx);
        if l > 0 {
            crate::util::lemma_align_up_props(l as int, 8);
            let next = idx + align8(l as int);
            let t = i32_at(s, idx + 4);
            if t == PADDING_MSG_TYPE_ID {
                lemma_padding_never_delivered(s, next, cap, limit);
                assert(p == parsed_messages(s, next, cap, limit));
            } else {
                lemma_padding_never_delivered(s, next, cap, limit - 1);
                let rest = parsed_messages(s, next, cap, limit - 1);
                assert(p == seq![(t, s.subrange(idx + 8, idx + l as int))] + rest);
                assert forall|i: int| 0 <= i < p.len()
                    implies (#[trigger] p[i]).0 != PADDING_MSG_TYPE_ID by {
                    if i > 0 {
                        assert(p[i] == rest[i - 1]);
                    }
                }
            }
        }
    }
}

/// Round trip of one record: a successful non-wrapping write into a ring
/// whose unread chain is empty leaves a chain from which the consumer reads
/// back exactly the written type identifier and payload bytes — no loss, no
/// duplication — and consumes exactly the record's aligned length.
pub proof fn lemma_write_read_round_trip(s0: Seq<u8>, s1: Seq<u8>, cap: int,
    msg_type_id: i32, src: Seq<u8>, si: int, len: int, limit: int)
    requires
        counters_wf(s0, cap),
        is_pow2(cap),
        1 <= cap <= 0x4000_0000,
        s0.len() == cap + TRAILER_LENGTH,
        ring_head(s0, cap) == ring_tail(s0, cap),
        msg_type_id >= 1,
        0 <= len,
        len + 8 <= align8(len + 8) < cap,
        si >= 0,
        si + len <= src.len(),
        !claim_plan(s0, cap, align8(len + 8)).insufficient,
        claim_plan(s0, cap, align8(len + 8)).padding == 0,
        write_post(s0, s1, cap, align8(len + 8), msg_type_id, src, si, len),
        limit >= 1,
        // the slot after the record was empty before the write
        ({
            let nxt = masked(ring_tail(s0, cap), cap) + align8(len + 8);
            nxt >= cap || i32_at(s0, nxt) <= 0
        }),
    ensures
        parsed_messages(s1, masked(ring_head(s0, cap), cap), cap, limit)
            =~= seq![(msg_type_id, src.subrange(si, si + len))],
        consumed_bytes(s1, masked(ring_head(s0, cap), cap), cap, limit) == align8(len + 8),
{
    let required = align8(len + 8);
    let plan = claim_plan(s0, cap, required);
    let idx = plan.index;
    let hi = masked(ring_head(s0, cap), cap);
    lemma_mask_bounds(ring_tail(s0, cap), (cap - 1) as i64);
    assert(hi == masked(ring_tail(s0, cap), cap));
    assert(idx == hi);
    crate::util::lemma_align_up_props(len + 8, 8);
    let l = i32_at(s1, idx);
    assert(l == len + 8);
    assert(i32_at(s1, idx + 4) == msg_type_id);
    let nxt = idx + align8(l as int);
    assert(nxt == idx + required);
    // the payload bytes are exactly the written source window
    assert(s1.subrange(idx + 8, idx + l as int)
        =~= src.subrange(si, si + len)) by {
        assert forall|k: int| 0 <= k < len implies
            #[trigger] s1.subrange(idx + 8, idx + l as int)[k]
                == src.subrange(si, si + len)[k] by {
            assert(s1[idx + 8 + k] == src[si + k]);
        }
    }
    // the chain ends right after the record
    if nxt < cap {
        assert(i32_at(s1, nxt) == i32_at(s0, nxt)) by {
            assert(forall|j: int| nxt <= j < nxt + 4 ==> s1[j] == s0[j]);
        }
        assert(parsed_messages(s1, nxt, cap, limit - 1) == Seq::<(i32, Seq<u8>)>::empty());
        assert(consumed_bytes(s1, nxt, cap, limit - 1) == 0);
    } else {
        assert(parsed_messages(s1, nxt, cap, limit - 1) == Seq::<(i32, Seq<u8>)>::empty());
        assert(consumed_bytes(s1, nxt, cap, limit - 1) == 0);
    }
    assert(parsed_messages(s1, hi, cap, limit)
        == seq![(msg_type_id, s1.subrange(hi + 8, hi + l as int))]
            + parsed_messages(s1, nxt, cap, limit - 1));
    assert(consumed_bytes(s1, hi, cap, limit)
        == align8(l as int) + consumed_bytes(s1, nxt, cap, limit - 1));
    assert(parsed_messages(s1, hi, cap, limit)
        =~= seq![(msg_type_id, src.subrange(si, si + len))]);
}

/// The committed chain starting at `idx` reaches exactly `ti`: each record
/// carries a full header and the records tile `[idx, ti)`.
pub open spec fn chain_ends(s: Seq<u8>, idx: int, ti: int, cap: int) -> bool
    decreases (if idx <= ti { ti - idx } else { 0 }),
    when idx >= 0
    via chain_ends_decreases
{
    idx == ti || {
        let l = i32_at(s, idx);
        &&& idx < ti <= cap
        &&& 8 <= l
        &&& idx + align8(l as int) <= ti
        &&& chain_ends(s, idx + align8(l as int), ti, cap)
    }
}

#[via_fn]
proof fn chain_ends_decreases(s: Seq<u8>, idx: int, ti: int, cap: int) {
    if idx != ti && idx < ti {
        let l = i32_at(s, idx);
        if l >= 8 {
            crate::util::lemma_align_up_props(l as int, 8);
        }
    }
}

/// Appending one committed record at the end of a chain appends exactly one
/// message to the sequence the consumer parses: nothing earlier is lost,
/// duplicated or reordered, and the new record is delivered last.
proof fn lemma_parsed_append(s0: Seq<u8>, s1: Seq<u8>, cap: int, idx: int, ti: int,
    msg_type_id: i32, len: int, limit: int)
    requires
        0 <= idx,
        ti <= cap,
        chain_ends(s0, idx, ti, cap),
        i32_at(s0, ti) <= 0,
        forall|j: int| idx <= j < ti ==> s1[j] == s0[j],
        s1.len() == s0.len(),
        s0.len() >= cap,
        msg_type_id >= 1,
        0 <= len,
        ti + len + 8 <= ti + align8(len + 8) <= cap,
        i32_at(s1, ti) == len + 8,
        i32_at(s1, ti + 4) == msg_type_id,
        ti + align8(len + 8) >= cap || i32_at(s1, ti + align8(len + 8)) <= 0,
        limit >= ti - idx + 1,
    ensures
        parsed_messages(s1, idx, cap, limit)
            == parsed_messages(s0, idx, cap, limit)
                + seq![(msg_type_id, s1.subrange(ti + 8, ti + 8 + len))],
    decreases (if idx <= ti { ti - idx } else { 0 }),
{
    crate::util::lemma_align_up_props(len + 8, 8);
    if idx == ti {
        let nxt = ti + align8(len + 8);
        assert(parsed_messages(s0, idx, cap, limit) == Seq::<(i32, Seq<u8>)>::empty());
        if nxt < cap {
            assert(parsed_messages(s1, nxt, cap, limit - 1) == Seq::<(i32, Seq<u8>)>::empty());
        } else {
            assert(parsed_messages(s1, nxt, cap, limit - 1) == Seq::<(i32, Seq<u8>)>::empty());
        }
        assert(parsed_messages(s1, idx, cap, limit)
            == seq![(msg_type_id, s1.subrange(ti + 8, ti + 8 + len))]
                + parsed_messages(s1, nxt, cap, limit - 1));
        assert(parsed_messages(s1, idx, cap, limit)
            =~= parsed_messages(s0, idx, cap, limit)
                + seq![(msg_type_id, s1.subrange(ti + 8, ti + 8 + len))]);
    } else {
        let l0 = i32_at(s0, idx);
        crate::util::lemma_align_up_props(l0 as int, 8);
        let next = idx + align8(l0 as int);
        assert(i32_at(s1, idx) == l0) by {
            assert(forall|j: int| idx <= j < idx + 4 ==> s1[j] == s0[j]);
        }
        assert(i32_at(s1, idx + 4) == i32_at(s0, idx + 4)) by {
            assert(forall|j: int| idx + 4 <= j < idx + 8 ==> s1[j] == s0[j]);
        }
        lemma_parsed_append(s0, s1, cap, next, ti, msg_type_id, len, limit);
        lemma_parsed_append(s0, s1, cap, next, ti, msg_type_id, len, limit - 1);
        let t0 = i32_at(s0, idx + 4);
        if t0 == PADDING_MSG_TYPE_ID {
            assert(parsed_messages(s0, idx, cap, limit)
                == parsed_messages(s0, next, cap, limit));
            assert(parsed_messages(s1, idx, cap, limit)
                == parsed_messages(s1, next, cap, limit));
        } else {
            assert(s1.subrange(idx + 8, idx + l0 as int)
                =~= s0.subrange(idx + 8, idx + l0 as int)) by {
                assert forall|k: int| 0 <= k < l0 - 8 implies
                    #[trigger] s1.subrange(idx + 8, idx + l0 as int)[k]
                        == s0.subrange(idx + 8, idx + l0 as int)[k] by {
                    assert(s1[idx + 8 + k] == s0[idx + 8 + k]);
                }
            }
            assert(parsed_messages(s0, idx, cap, limit)
                == seq![(t0, s0.subrange(idx + 8, idx + l0 as int))]
                    + parsed_messages(s0, next, cap, limit - 1));
            assert(parsed_messages(s1, idx, cap, limit)
                == seq![(t0, s1.subrange(idx + 8, idx + l0 as int))]
                    + parsed_messages(s1, next, cap, limit - 1));
            assert(parsed_messages(s1, idx, cap, limit)
                =~= parsed_messages(s0, idx, cap, limit)
                    + seq![(msg_type_id, s1.subrange(ti + 8, ti + 8 + len))]);
        }
    }
}

/// Extending a committed chain with one more full record at its end keeps it
/// a committed chain, now ending after the new record.
proof fn lemma_chain_extend(s0: Seq<u8>, s1: Seq<u8>, idx: int, ti: int, nxt: int, cap: int)
    requires
        0 <= idx,
        chain_ends(s0, idx, ti, cap),
        forall|j: int| idx <= j < ti ==> s1[j] == s0[j],
        ti < nxt <= cap,
        i32_at(s1, ti) >= 8,
        ti + align8(i32_at(s1, ti) as int) == nxt,
    ensures
        chain_ends(s1, idx, nxt, cap),
    decreases (if idx <= ti { ti - idx } else { 0 }),
{
    if idx == ti {
        assert(chain_ends(s1, nxt, nxt, cap));
    } else {
        let l0 = i32_at(s0, idx);
        crate::util::lemma_align_up_props(l0 as int, 8);
        assert(i32_at(s1, idx) == l0) by {
            assert(forall|j: int| idx <= j < idx + 4 ==> s1[j] == s0[j]);
        }
        lemma_chain_extend(s0, s1, idx + align8(l0 as int), ti, nxt, cap);
    }
}

/// Order and integrity of delivery: a successful non-wrapping write into a
/// ring whose unread chain tiles `[head index, tail index)` and whose free
/// space is still empty appends exactly the written message — type
/// identifier and payload bytes — to the sequence the consumer reads, after
/// everything written before it, with no duplication and no loss.
pub proof fn lemma_write_appends_message(s0: Seq<u8>, s1: Seq<u8>, cap: int,
    msg_type_id: i32, src: Seq<u8>, si: int, len: int, limit: int)
    requires
        counters_wf(s0, cap),
        is_pow2(cap),
        1 <= cap <= 0x4000_0000,
        s0.len() == cap + TRAILER_LENGTH,
        masked(ring_head(s0, cap), cap) <= masked(ring_tail(s0, cap), cap),
        chain_ends(s0, masked(ring_head(s0, cap), cap), masked(ring_tail(s0, cap), cap), cap),
        i32_at(s0, masked(ring_tail(s0, cap), cap)) <= 0,
        msg_type_id >= 1,
        0 <= len,
        si >= 0,
        si + len <= src.len(),
        !claim_plan(s0, cap, align8(len + 8)).insufficient,
        claim_plan(s0, cap, align8(len + 8)).padding == 0,
        write_post(s0, s1, cap, align8(len + 8), msg_type_id, src, si, len),
        ({
            let nxt = masked(ring_tail(s0, cap), cap) + align8(len + 8);
            nxt >= cap || i32_at(s0, nxt) <= 0
        }),
        limit >= cap + 1,
    ensures
        parsed_messages(s1, masked(ring_head(s0, cap), cap), cap, limit)
            == parsed_messages(s0, masked(ring_head(s0, cap), cap), cap, limit)
                + seq![(msg_type_id, src.subrange(si, si + len))],
        ring_head(s1, cap) == ring_head(s0, cap),
        chain_ends(s1, masked(ring_head(s0, cap), cap),
            masked(ring_tail(s0, cap), cap) + align8(len + 8), cap),
        masked(ring_tail(s0, cap), cap) + align8(len + 8) < cap
            ==> masked(ring_tail(s1, cap), cap)
                    == masked(ring_tail(s0, cap), cap) + align8(len + 8)
                && i32_at(s1, masked(ring_tail(s1, cap), cap)) <= 0,
{
    let required = align8(len + 8);
    let plan = claim_plan(s0, cap, required);
    let hi = masked(ring_head(s0, cap), cap);
    let ti = masked(ring_tail(s0, cap), cap);
    let idx = plan.index;
    lemma_mask_bounds(ring_tail(s0, cap), (cap - 1) as i64);
    lemma_mask_bounds(ring_head(s0, cap), (cap - 1) as i64);
    assert(idx == ti);
    crate::util::lemma_align_up_props(len + 8, 8);
    let nxt = ti + required;
    if nxt < cap {
        assert(i32_at(s1, nxt) == i32_at(s0, nxt)) by {
            assert(forall|j: int| nxt <= j < nxt + 4 ==> s1[j] == s0[j]);
        }
    }
    assert(forall|j: int| hi <= j < ti ==> s1[j] == s0[j]);
    lemma_parsed_append(s0, s1, cap, hi, ti, msg_type_id, len, limit);
    assert(s1.subrange(ti + 8, ti + 8 + len) =~= src.subrange(si, si + len)) by {
        assert forall|k: int| 0 <= k < len implies
            #[trigger] s1.subrange(ti + 8, ti + 8 + len)[k]
                == src.subrange(si, si + len)[k] by {
            assert(s1[idx + 8 + k] == src[si + k]);
        }
    }
    lemma_chain_extend(s0, s1, hi, ti, nxt, cap);
    if nxt < cap {
        let t0 = ring_tail(s0, cap);
        let t1 = ring_tail(s1, cap);
        assert(t1 == plan.new_tail as i64);
        lemma_masked_is_mod(t0, cap);
        lemma_masked_is_mod(t1, cap);
        vstd::arithmetic::div_mod::lemma_add_mod_noop(t0 as int, required, cap);
        vstd::arithmetic::div_mod::lemma_small_mod(required as nat, cap as nat);
        vstd::arithmetic::div_mod::lemma_small_mod(nxt as nat, cap as nat);
        assert(masked(ring_tail(s1, cap), cap) == nxt);
    }
}

/// A power of two that fits an `IndexT` is at most `2^30`.
pub proof fn lemma_pow2_index_bound(c: int)
    requires
        is_pow2(c),
        c < 0x8000_0000,
    ensures
        c <= 0x4000_0000,
{
    broadcast use vstd::arithmetic::power2::is_pow2_equiv;

    assert(vstd::arithmetic::power2::is_pow2_exists(c));
    let n = choose|i: nat| vstd::arithmetic::power::pow(2, i) == c;
    assert(vstd::arithmetic::power::pow(2, n) == c);
    vstd::arithmetic::power::lemma_pow_positive(2, n);
    if n > 30 {
        vstd::arithmetic::power2::lemma_pow2_strictly_increases(30, n);
        vstd::arithmetic::power2::lemma2_to64();
        if n > 31 {
            vstd::arithmetic::power2::lemma_pow2_strictly_increases(31, n);
        }
        assert(false);
    }
    vstd::arithmetic::power2::lemma2_to64();
    if n < 30 {
        vstd::arithmetic::power2::lemma_pow2_strictly_increases(n, 30);
    }
}

} // verus!
