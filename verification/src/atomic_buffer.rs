//! Typed, bounds-checked accessors over a mutable byte region.
//!
//! The buffer owns its backing bytes and is the single synchronisation
//! boundary of the transport: callers that need cross-thread visibility use
//! the ordered (volatile) accessors, and the unordered ones exist only for
//! fields the caller has already fenced.  In this verified model every
//! accessor is specified functionally over the little-endian byte image of
//! the region, which is what the wire format prescribes.
use crate::util::{AeronError, IndexT};
use vstd::pervasive::VecAdditionalExecFns;
use vstd::prelude::*;

verus! {

/// The `u32` whose little-endian bytes are `b0, b1, b2, b3`.
pub open spec fn u32_of_le(b0: u8, b1: u8, b2: u8, b3: u8) -> u32 {
    (b0 as u32) | (b1 as u32) << 8 | (b2 as u32) << 16 | (b3 as u32) << 24
}

/// The `u64` with low half `lo` and high half `hi`.
pub open spec fn u64_of_halves(lo: u32, hi: u32) -> u64 {
    (lo as u64) | (hi as u64) << 32
}

/// The `i32` stored little-endian at byte offset `i` of `s`.
pub open spec fn i32_at(s: Seq<u8>, i: int) -> i32 {
    u32_of_le(s[i], s[i + 1], s[i + 2], s[i + 3]) as i32
}

/// The `i64` stored little-endian at byte offset `i` of `s`.
pub open spec fn i64_at(s: Seq<u8>, i: int) -> i64 {
    u64_of_halves(
        u32_of_le(s[i], s[i + 1], s[i + 2], s[i + 3]),
        u32_of_le(s[i + 4], s[i + 5], s[i + 6], s[i + 7]),
    ) as i64
}

/// `[offset, offset + size)` lies within `s`.
pub open spec fn in_bounds(s: Seq<u8>, offset: int, size: int) -> bool {
    0 <= offset && 0 <= size && offset + size <= s.len()
}

/// `s2` has the same length as `s1` and agrees with it outside `[lo, hi)`.
pub open spec fn same_outside(s1: Seq<u8>, s2: Seq<u8>, lo: int, hi: int) -> bool {
    s2.len() == s1.len() && forall|j: int| 0 <= j < s1.len() && !(lo <= j < hi) ==> s2[j] == s1[j]
}

/// A 64-bit value stored at `i` carries its two 32-bit halves at `i` and `i + 4`.
pub proof fn lemma_i64_at_halves(s: Seq<u8>, i: int)
    ensures
        i64_at(s, i) == u64_of_halves(i32_at(s, i) as u32, i32_at(s, i + 4) as u32) as i64,
{
    let lo = u32_of_le(s[i], s[i + 1], s[i + 2], s[i + 3]);
    let hi = u32_of_le(s[i + 4], s[i + 5], s[i + 6], s[i + 7]);
    assert(lo as i32 as u32 == lo && hi as i32 as u32 == hi) by (bit_vector);
}

/// A word read from an all-zero window is zero.
pub proof fn lemma_zero_window(s: Seq<u8>, i: int, n: int)
    requires
        forall|j: int| i <= j < i + n ==> s[j] == 0u8,
        n >= 4,
    ensures
        i32_at(s, i) == 0,
        n >= 8 ==> i64_at(s, i) == 0 && i32_at(s, i + 4) == 0,
{
    assert(u32_of_le(0, 0, 0, 0) == 0u32 && u32_of_le(0, 0, 0, 0) as i32 == 0
        && u64_of_halves(0, 0) as i64 == 0) by (bit_vector);
}

/// Storing the little-endian bytes of `v as u64` lays down `v` itself,
/// with `v as i32` in the low word and `(v >> 32) as i32` in the high word.
proof fn lemma_i64_le_store(v: i64)
    by (bit_vector)
    ensures
        u64_of_halves(
            u32_of_le(
                ((v as u64) & 0xff) as u8,
                (((v as u64) >> 8) & 0xff) as u8,
                (((v as u64) >> 16) & 0xff) as u8,
                (((v as u64) >> 24) & 0xff) as u8,
            ),
            u32_of_le(
                (((v as u64) >> 32) & 0xff) as u8,
                (((v as u64) >> 40) & 0xff) as u8,
                (((v as u64) >> 48) & 0xff) as u8,
                (((v as u64) >> 56) & 0xff) as u8,
            ),
        ) as i64 == v,
        u32_of_le(
            ((v as u64) & 0xff) as u8,
            (((v as u64) >> 8) & 0xff) as u8,
            (((v as u64) >> 16) & 0xff) as u8,
            (((v as u64) >> 24) & 0xff) as u8,
        ) as i32 == v as i32,
        u32_of_le(
            (((v as u64) >> 32) & 0xff) as u8,
            (((v as u64) >> 40) & 0xff) as u8,
            (((v as u64) >> 48) & 0xff) as u8,
            (((v as u64) >> 56) & 0xff) as u8,
        ) as i32 == (v >> 32) as i32,
{
}

/// Storing the little-endian bytes of `v as u32` lays down `v` itself.
proof fn lemma_i32_le_store(v: i32)
    by (bit_vector)
    ensures
        u32_of_le(
            ((v as u32) & 0xff) as u8,
            (((v as u32) >> 8) & 0xff) as u8,
            (((v as u32) >> 16) & 0xff) as u8,
            (((v as u32) >> 24) & 0xff) as u8,
        ) as i32 == v,
{
}

/// Reassembling eight consecutive bytes in one go agrees with the two-half model.
proof fn lemma_u64_le_assembly(b0: u8, b1: u8, b2: u8, b3: u8, b4: u8, b5: u8, b6: u8, b7: u8)
    by (bit_vector)
    ensures
        ((b0 as u64) | (b1 as u64) << 8 | (b2 as u64) << 16 | (b3 as u64) << 24
            | (b4 as u64) << 32 | (b5 as u64) << 40 | (b6 as u64) << 48 | (b7 as u64) << 56)
            == u64_of_halves(u32_of_le(b0, b1, b2, b3), u32_of_le(b4, b5, b6, b7)),
{
}

/// Mutable view over a contiguous byte region with typed, explicitly-ordered
/// accessors.  In this sequential model the ordered and plain accessors have
/// the same functional contract; the split in the API records which reads and
/// writes are synchronisation points when the region is shared.
pub struct AtomicBuffer {
    data: Vec<u8>,
}

impl View for AtomicBuffer {
    type V = Seq<u8>;

    closed spec fn view(&self) -> Seq<u8> {
        self.data@
    }
}

impl AtomicBuffer {
    /// Region lengths are indexable by `IndexT`.
    pub open spec fn wf(self) -> bool {
        self@.len() <= 0x7fff_ffff
    }

    /// Take ownership of a byte region.
    pub fn wrap(data: Vec<u8>) -> (r: AtomicBuffer)
        requires
            data@.len() <= 0x7fff_ffff,
        ensures
            r@ == data@,
    {
        AtomicBuffer { data }
    }

    /// Release the backing region.
    pub fn into_vec(self) -> (r: Vec<u8>)
        ensures
            r@ == self@,
    {
        self.data
    }

    /// Total number of bytes in the region.
    pub fn capacity(&self) -> (r: IndexT)
        requires
            self.wf(),
        ensures
            r == self@.len(),
    {
        self.data.len() as IndexT
    }

    /// Check that `size` bytes are available starting at `offset`.
    pub fn bounds_check(&self, offset: IndexT, size: IndexT) -> (r: Result<(), AeronError>)
        requires
            self.wf(),
        ensures
            r == (if in_bounds(self@, offset as int, size as int) {
                Ok::<(), AeronError>(())
            } else {
                Err::<(), AeronError>(AeronError::OutOfBounds)
            }),
    {
        if offset < 0 || size < 0 || self.data.len() as IndexT - offset < size {
            Err(AeronError::OutOfBounds)
        } else {
            Ok(())
        }
    }

    /// Read an `i32` without any synchronisation.
    pub fn get_i32(&self, offset: IndexT) -> (r: Result<i32, AeronError>)
        requires
            self.wf(),
        ensures
            r == (if in_bounds(self@, offset as int, 4) {
                Ok::<i32, AeronError>(i32_at(self@, offset as int))
            } else {
                Err::<i32, AeronError>(AeronError::OutOfBounds)
            }),
    {
        if offset < 0 || self.data.len() as IndexT - offset < 4 {
            return Err(AeronError::OutOfBounds);
        }
        let i = offset as usize;
        let b0 = self.data[i];
        let b1 = self.data[i + 1];
        let b2 = self.data[i + 2];
        let b3 = self.data[i + 3];
        Ok(((b0 as u32) | (b1 as u32) << 8 | (b2 as u32) << 16 | (b3 as u32) << 24) as i32)
    }

    /// Volatile (acquire-equivalent) read of an `i32`.
    pub fn get_i32_volatile(&self, offset: IndexT) -> (r: Result<i32, AeronError>)
        requires
            self.wf(),
        ensures
            r == (if in_bounds(self@, offset as int, 4) {
                Ok::<i32, AeronError>(i32_at(self@, offset as int))
            } else {
                Err::<i32, AeronError>(AeronError::OutOfBounds)
            }),
    {
        self.get_i32(offset)
    }

    /// Read an `i64` without any synchronisation.
    pub fn get_i64(&self, offset: IndexT) -> (r: Result<i64, AeronError>)
        requires
            self.wf(),
        ensures
            r == (if in_bounds(self@, offset as int, 8) {
                Ok::<i64, AeronError>(i64_at(self@, offset as int))
            } else {
                Err::<i64, AeronError>(AeronError::OutOfBounds)
            }),
    {
        if offset < 0 || self.data.len() as IndexT - offset < 8 {
            return Err(AeronError::OutOfBounds);
        }
        let i = offset as usize;
        let b0 = self.data[i];
        let b1 = self.data[i + 1];
        let b2 = self.data[i + 2];
        let b3 = self.data[i + 3];
        let b4 = self.data[i + 4];
        let b5 = self.data[i + 5];
        let b6 = self.data[i + 6];
        let b7 = self.data[i + 7];
        proof {
            lemma_u64_le_assembly(b0, b1, b2, b3, b4, b5, b6, b7);
        }
        Ok(((b0 as u64) | (b1 as u64) << 8 | (b2 as u64) << 16 | (b3 as u64) << 24
            | (b4 as u64) << 32 | (b5 as u64) << 40 | (b6 as u64) << 48 | (b7 as u64) << 56)
            as i64)
    }

    /// Volatile (acquire-equivalent) read of an `i64`.
    pub fn get_i64_volatile(&self, offset: IndexT) -> (r: Result<i64, AeronError>)
        requires
            self.wf(),
        ensures
            r == (if in_bounds(self@, offset as int, 8) {
                Ok::<i64, AeronError>(i64_at(self@, offset as int))
            } else {
                Err::<i64, AeronError>(AeronError::OutOfBounds)
            }),
    {
        self.get_i64(offset)
    }

    /// Write an `i32` without any synchronisation.
    pub fn put_i32(&mut self, offset: IndexT, value: i32) -> (r: Result<(), AeronError>)
        requires
            old(self).wf(),
        ensures
            in_bounds(old(self)@, offset as int, 4) ==> {
                &&& r == Ok::<(), AeronError>(())
                &&& same_outside(old(self)@, final(self)@, offset as int, offset as int + 4)
                &&& i32_at(final(self)@, offset as int) == value
            },
            !in_bounds(old(self)@, offset as int, 4) ==> {
                &&& r == Err::<(), AeronError>(AeronError::OutOfBounds)
                &&& final(self)@ == old(self)@
            },
    {
        if offset < 0 || self.data.len() as IndexT - offset < 4 {
            return Err(AeronError::OutOfBounds);
        }
        let i = offset as usize;
        let u = value as u32;
        proof {
            assert(u & 0xff < 256 && (u >> 8) & 0xff < 256 && (u >> 16) & 0xff < 256
                && (u >> 24) & 0xff < 256) by (bit_vector);
            lemma_i32_le_store(value);
        }
        self.data.set(i, (u & 0xff) as u8);
        self.data.set(i + 1, ((u >> 8) & 0xff) as u8);
        self.data.set(i + 2, ((u >> 16) & 0xff) as u8);
        self.data.set(i + 3, ((u >> 24) & 0xff) as u8);
        Ok(())
    }

    /// Ordered (release-equivalent) write of an `i32`.
    pub fn put_i32_ordered(&mut self, offset: IndexT, value: i32) -> (r: Result<(), AeronError>)
        requires
            old(self).wf(),
        ensures
            in_bounds(old(self)@, offset as int, 4) ==> {
                &&& r == Ok::<(), AeronError>(())
                &&& same_outside(old(self)@, final(self)@, offset as int, offset as int + 4)
                &&& i32_at(final(self)@, offset as int) == value
            },
            !in_bounds(old(self)@, offset as int, 4) ==> {
                &&& r == Err::<(), AeronError>(AeronError::OutOfBounds)
                &&& final(self)@ == old(self)@
            },
    {
        self.put_i32(offset, value)
    }

    /// Write an `i64` without any synchronisation.
    pub fn put_i64(&mut self, offset: IndexT, value: i64) -> (r: Result<(), AeronError>)
        requires
            old(self).wf(),
        ensures
            in_bounds(old(self)@, offset as int, 8) ==> {
                &&& r == Ok::<(), AeronError>(())
                &&& same_outside(old(self)@, final(self)@, offset as int, offset as int + 8)
                &&& i64_at(final(self)@, offset as int) == value
                &&& i32_at(final(self)@, offset as int) == value as i32
                &&& i32_at(final(self)@, offset as int + 4) == (value >> 32) as i32
            },
            !in_bounds(old(self)@, offset as int, 8) ==> {
                &&& r == Err::<(), AeronError>(AeronError::OutOfBounds)
                &&& final(self)@ == old(self)@
            },
    {
        if offset < 0 || self.data.len() as IndexT - offset < 8 {
            return Err(AeronError::OutOfBounds);
        }
        let i = offset as usize;
        let u = #[verifier::truncate] (value as u64);
        proof {
            assert(u & 0xff < 256 && (u >> 8) & 0xff < 256 && (u >> 16) & 0xff < 256
                && (u >> 24) & 0xff < 256 && (u >> 32) & 0xff < 256 && (u >> 40) & 0xff < 256
                && (u >> 48) & 0xff < 256 && (u >> 56) & 0xff < 256) by (bit_vector);
            lemma_i64_le_store(value);
        }
        self.data.set(i, (u & 0xff) as u8);
        self.data.set(i + 1, ((u >> 8) & 0xff) as u8);
        self.data.set(i + 2, ((u >> 16) & 0xff) as u8);
        self.data.set(i + 3, ((u >> 24) & 0xff) as u8);
        self.data.set(i + 4, ((u >> 32) & 0xff) as u8);
        self.data.set(i + 5, ((u >> 40) & 0xff) as u8);
        self.data.set(i + 6, ((u >> 48) & 0xff) as u8);
        self.data.set(i + 7, ((u >> 56) & 0xff) as u8);
        Ok(())
    }

    /// Ordered (release-equivalent) write of an `i64`.
    pub fn put_i64_ordered(&mut self, offset: IndexT, value: i64) -> (r: Result<(), AeronError>)
        requires
            old(self).wf(),
        ensures
            in_bounds(old(self)@, offset as int, 8) ==> {
                &&& r == Ok::<(), AeronError>(())
                &&& same_outside(old(self)@, final(self)@, offset as int, offset as int + 8)
                &&& i64_at(final(self)@, offset as int) == value
                &&& i32_at(final(self)@, offset as int) == value as i32
                &&& i32_at(final(self)@, offset as int + 4) == (value >> 32) as i32
            },
            !in_bounds(old(self)@, offset as int, 8) ==> {
                &&& r == Err::<(), AeronError>(AeronError::OutOfBounds)
                &&& final(self)@ == old(self)@
            },
    {
        self.put_i64(offset, value)
    }

    /// Sequentially-consistent fetch-add on the `i64` at `offset`; returns the
    /// pre-increment value.  The stored value wraps as the hardware operation does.
    pub fn get_and_add_i64(&mut self, offset: IndexT, delta: i64) -> (r: Result<i64, AeronError>)
        requires
            old(self).wf(),
        ensures
            in_bounds(old(self)@, offset as int, 8) ==> {
                &&& r == Ok::<i64, AeronError>(i64_at(old(self)@, offset as int))
                &&& same_outside(old(self)@, final(self)@, offset as int, offset as int + 8)
                &&& i64_at(final(self)@, offset as int)
                    == vstd::wrapping::i64_specs::wrapping_add(
                        i64_at(old(self)@, offset as int), delta)
            },
            !in_bounds(old(self)@, offset as int, 8) ==> {
                &&& r == Err::<i64, AeronError>(AeronError::OutOfBounds)
                &&& final(self)@ == old(self)@
            },
    {
        let prior = match self.get_i64(offset) {
            Ok(v) => v,
            Err(e) => {
                return Err(e);
            },
        };
        let updated = prior.wrapping_add(delta);
        match self.put_i64(offset, updated) {
            Ok(_) => Ok(prior),
            Err(e) => Err(e),
        }
    }

    /// Sequentially-consistent compare-and-set on the `i64` at `offset`;
    /// returns whether the swap was performed.
    pub fn compare_and_set_i64(&mut self, offset: IndexT, expected: i64, update: i64)
        -> (r: Result<bool, AeronError>)
        requires
            old(self).wf(),
        ensures
            in_bounds(old(self)@, offset as int, 8)
                && i64_at(old(self)@, offset as int) == expected ==> {
                &&& r == Ok::<bool, AeronError>(true)
                &&& same_outside(old(self)@, final(self)@, offset as int, offset as int + 8)
                &&& i64_at(final(self)@, offset as int) == update
            },
            in_bounds(old(self)@, offset as int, 8)
                && i64_at(old(self)@, offset as int) != expected ==> {
                &&& r == Ok::<bool, AeronError>(false)
                &&& final(self)@ == old(self)@
            },
            !in_bounds(old(self)@, offset as int, 8) ==> {
                &&& r == Err::<bool, AeronError>(AeronError::OutOfBounds)
                &&& final(self)@ == old(self)@
            },
    {
        let current = match self.get_i64(offset) {
            Ok(v) => v,
            Err(e) => {
                return Err(e);
            },
        };
        if current == expected {
            match self.put_i64(offset, update) {
                Ok(_) => Ok(true),
                Err(e) => Err(e),
            }
        } else {
            Ok(false)
        }
    }

    /// Plain byte copy from another buffer; both regions are bounds-checked.
    pub fn put_bytes(&mut self, index: IndexT, source: &AtomicBuffer, source_index: IndexT,
        len: IndexT) -> (r: Result<(), AeronError>)
        requires
            old(self).wf(),
            source.wf(),
        ensures
            in_bounds(old(self)@, index as int, len as int)
                && in_bounds(source@, source_index as int, len as int) ==> {
                &&& r == Ok::<(), AeronError>(())
                &&& same_outside(old(self)@, final(self)@, index as int, index as int + len as int)
                &&& forall|k: int| 0 <= k < len as int
                    ==> #[trigger] final(self)@[index as int + k]
                        == source@[source_index as int + k]
            },
            !(in_bounds(old(self)@, index as int, len as int)
                && in_bounds(source@, source_index as int, len as int)) ==> {
                &&& r == Err::<(), AeronError>(AeronError::OutOfBounds)
                &&& final(self)@ == old(self)@
            },
    {
        if index < 0 || len < 0 || self.data.len() as IndexT - index < len {
            return Err(AeronError::OutOfBounds);
        }
        if source_index < 0 || source.data.len() as IndexT - source_index < len {
            return Err(AeronError::OutOfBounds);
        }
        let dst0 = index as usize;
        let src0 = source_index as usize;
        let n = len as usize;
        let ghost pre = self.data@;
        let mut k: usize = 0;
        while k < n
            invariant
                k <= n,
                dst0 + n <= self.data@.len(),
                src0 + n <= source@.len(),
                self.data@.len() <= 0x7fff_ffff,
                source@.len() <= 0x7fff_ffff,
                self.data@.len() == pre.len(),
                forall|j: int| 0 <= j < pre.len() && !(dst0 <= j < dst0 + n) ==> self.data@[j] == pre[j],
                forall|j: int| 0 <= j < k ==> #[trigger] self.data@[dst0 + j] == source@[src0 + j],
                forall|j: int| k <= j < n ==> #[trigger] self.data@[dst0 + j] == pre[dst0 + j],
            decreases n - k,
        {
            let b = source.data[src0 + k];
            self.data.set(dst0 + k, b);
            k += 1;
        }
        Ok(())
    }

    /// Plain byte copy from a slice; both regions are bounds-checked.
    pub fn put_slice(&mut self, index: IndexT, source: &[u8], source_index: IndexT,
        len: IndexT) -> (r: Result<(), AeronError>)
        requires
            old(self).wf(),
            source@.len() <= 0x7fff_ffff,
        ensures
            in_bounds(old(self)@, index as int, len as int)
                && in_bounds(source@, source_index as int, len as int) ==> {
                &&& r == Ok::<(), AeronError>(())
                &&& same_outside(old(self)@, final(self)@, index as int, index as int + len as int)
                &&& forall|k: int| 0 <= k < len as int
                    ==> #[trigger] final(self)@[index as int + k]
                        == source@[source_index as int + k]
            },
            !(in_bounds(old(self)@, index as int, len as int)
                && in_bounds(source@, source_index as int, len as int)) ==> {
                &&& r == Err::<(), AeronError>(AeronError::OutOfBounds)
                &&& final(self)@ == old(self)@
            },
    {
        if index < 0 || len < 0 || self.data.len() as IndexT - index < len {
            return Err(AeronError::OutOfBounds);
        }
        if source_index < 0 || source.len() as IndexT - source_index < len {
            return Err(AeronError::OutOfBounds);
        }
        let dst0 = index as usize;
        let src0 = source_index as usize;
        let n = len as usize;
        let ghost pre = self.data@;
        let mut k: usize = 0;
        while k < n
            invariant
                k <= n,
                dst0 + n <= self.data@.len(),
                src0 + n <= source@.len(),
                self.data@.len() <= 0x7fff_ffff,
                source@.len() <= 0x7fff_ffff,
                self.data@.len() == pre.len(),
                forall|j: int| 0 <= j < pre.len() && !(dst0 <= j < dst0 + n) ==> self.data@[j] == pre[j],
                forall|j: int| 0 <= j < k ==> #[trigger] self.data@[dst0 + j] == source@[src0 + j],
                forall|j: int| k <= j < n ==> #[trigger] self.data@[dst0 + j] == pre[dst0 + j],
            decreases n - k,
        {
            let b = source[src0 + k];
            self.data.set(dst0 + k, b);
            k += 1;
        }
        Ok(())
    }

    /// Copy `length` bytes out of the region.
    pub fn get_bytes(&self, offset: IndexT, length: IndexT) -> (r: Result<Vec<u8>, AeronError>)
        requires
            self.wf(),
        ensures
            in_bounds(self@, offset as int, length as int)
                ==> (r matches Ok(v)
                    && v@ == self@.subrange(offset as int, offset as int + length as int)),
            !in_bounds(self@, offset as int, length as int)
                ==> r == Err::<Vec<u8>, AeronError>(AeronError::OutOfBounds),
    {
        if offset < 0 || length < 0 || self.data.len() as IndexT - offset < length {
            return Err(AeronError::OutOfBounds);
        }
        let base = offset as usize;
        let n = length as usize;
        let mut out: Vec<u8> = Vec::new();
        let mut k: usize = 0;
        while k < n
            invariant
                k <= n,
                base + n <= self.data@.len(),
                self.data@.len() <= 0x7fff_ffff,
                out@.len() == k,
                forall|j: int| 0 <= j < k ==> out@[j] == self.data@[base + j],
            decreases n - k,
        {
            out.push(self.data[base + k]);
            k += 1;
        }
        proof {
            assert(out@ =~= self@.subrange(offset as int, offset as int + length as int));
        }
        Ok(out)
    }

    /// Fill `length` bytes starting at `offset` with `value` (memset).
    pub fn set_memory(&mut self, offset: IndexT, length: usize, value: u8)
        -> (r: Result<(), AeronError>)
        requires
            old(self).wf(),
        ensures
            in_bounds(old(self)@, offset as int, length as int) ==> {
                &&& r == Ok::<(), AeronError>(())
                &&& same_outside(old(self)@, final(self)@, offset as int, offset as int + length as int)
                &&& forall|j: int| offset as int <= j < offset as int + length as int
                    ==> final(self)@[j] == value
            },
            !in_bounds(old(self)@, offset as int, length as int) ==> {
                &&& r == Err::<(), AeronError>(AeronError::OutOfBounds)
                &&& final(self)@ == old(self)@
            },
    {
        if offset < 0 || length > 0x7fff_ffff || self.data.len() as IndexT - offset < length as IndexT {
            return Err(AeronError::OutOfBounds);
        }
        let base = offset as usize;
        let ghost pre = self.data@;
        let mut k: usize = 0;
        while k < length
            invariant
                k <= length,
                base + length <= self.data@.len(),
                self.data@.len() <= 0x7fff_ffff,
                self.data@.len() == pre.len(),
                forall|j: int| 0 <= j < pre.len() && !(base <= j < base + length) ==> self.data@[j] == pre[j],
                forall|j: int| base <= j < base + k ==> self.data@[j] == value,
                forall|j: int| base + k <= j < base + length ==> self.data@[j] == pre[j],
            decreases length - k,
        {
            self.data.set(base + k, value);
            k += 1;
        }
        Ok(())
    }
}

/// Reading a word inside a subrange agrees with reading it in the full
/// sequence at the shifted offset.
pub proof fn lemma_i64_at_subrange(s: Seq<u8>, a: int, b: int, o: int)
    requires
        0 <= a,
        0 <= o,
        a + o + 8 <= b <= s.len(),
    ensures
        i64_at(s.subrange(a, b), o) == i64_at(s, a + o),
{
}

/// Reading a word inside a subrange agrees with reading it in the full
/// sequence at the shifted offset.
pub proof fn lemma_i32_at_subrange(s: Seq<u8>, a: int, b: int, o: int)
    requires
        0 <= a,
        0 <= o,
        a + o + 4 <= b <= s.len(),
    ensures
        i32_at(s.subrange(a, b), o) == i32_at(s, a + o),
{
}

/// A window of `s` that agrees pointwise with a prefix of `t` is that prefix.
pub proof fn lemma_subrange_eq_of_pointwise(s: Seq<u8>, t: Seq<u8>, a: int, n: int)
    requires
        0 <= a,
        0 <= n,
        a + n <= s.len(),
        n <= t.len(),
        forall|k: int| 0 <= k < n ==> s[a + k] == t[k],
    ensures
        s.subrange(a, a + n) == t.subrange(0, n),
{
    assert forall|i: int| 0 <= i < n implies s.subrange(a, a + n)[i] == t.subrange(0, n)[i] by {
        assert(s[a + i] == t[i]);
    }
    assert(s.subrange(a, a + n) =~= t.subrange(0, n));
}

/// A fresh all-zero byte region of the given length.
pub fn zeroed_buffer(len: usize) -> (r: Vec<u8>)
    requires
        len <= 0x7fff_ffff,
    ensures
        r@.len() == len,
        forall|j: int| 0 <= j < len ==> r@[j] == 0u8,
{
    let mut v: Vec<u8> = Vec::new();
    let mut k: usize = 0;
    while k < len
        invariant
            k <= len,
            v@.len() == k,
            forall|j: int| 0 <= j < k ==> v@[j] == 0u8,
        decreases len - k,
    {
        v.push(0u8);
        k += 1;
    }
    v
}

} // verus!
