//! Flyweight pattern for command messages: a typed view over a fixed byte
//! layout inside a buffer, addressed relative to a base offset.
use crate::atomic_buffer::{in_bounds, AtomicBuffer};
use crate::util::{AeronError, IndexT};
use vstd::prelude::*;

verus! {

/// A fixed-layout message definition: its size is the length of the fixed
/// fields, before any variable-length trailer.
pub trait FlyweightDefn {
    /// Byte length of the fixed fields.
    spec fn spec_size() -> int;

    /// The fixed fields occupy a small, non-negative prefix.
    proof fn size_bounds()
        ensures
            0 <= Self::spec_size() <= 0x1000,
    ;

    /// Byte length of the fixed fields.
    fn size() -> (r: IndexT)
        ensures
            r == Self::spec_size(),
    ;
}

/// Marker for a flyweight whose layout has not been chosen yet.
pub struct Unchecked;

impl FlyweightDefn for Unchecked {
    open spec fn spec_size() -> int {
        0
    }

    proof fn size_bounds() {
    }

    fn size() -> (r: IndexT) {
        0
    }
}

/// Flyweight holder: a buffer plus the base offset that all field accesses
/// are relative to.
pub struct Flyweight<S: FlyweightDefn> {
    buffer: AtomicBuffer,
    base_offset: IndexT,
    _defn: core::marker::PhantomData<S>,
}

impl<S: FlyweightDefn> View for Flyweight<S> {
    type V = Seq<u8>;

    closed spec fn view(&self) -> Seq<u8> {
        self.buffer@
    }
}

impl Flyweight<Unchecked> {
    /// Create a flyweight over `buffer`, checking on initialisation that
    /// there is space for the fixed fields of `S` at `offset`.
    pub fn new<S: FlyweightDefn>(buffer: AtomicBuffer, offset: IndexT)
        -> (r: Result<Flyweight<S>, AeronError>)
        requires
            buffer.wf(),
        ensures
            in_bounds(buffer@, offset as int, S::spec_size()) ==> (r matches Ok(f) && {
                &&& f.wf()
                &&& f@ == buffer@
                &&& f.spec_base() == offset as int
            }),
            !in_bounds(buffer@, offset as int, S::spec_size())
                ==> r == Err::<Flyweight<S>, AeronError>(AeronError::OutOfBounds),
    {
        proof {
            S::size_bounds();
        }
        match buffer.bounds_check(offset, S::size()) {
            Ok(_) => Ok(Flyweight { buffer, base_offset: offset, _defn: core::marker::PhantomData }),
            Err(e) => Err(e),
        }
    }
}

impl<S: FlyweightDefn> Flyweight<S> {
    /// The fixed fields of `S` lie within the buffer at the base offset.
    pub closed spec fn wf(self) -> bool {
        &&& self.buffer.wf()
        &&& 0 <= self.base_offset
        &&& self.base_offset + S::spec_size() <= self.buffer@.len()
    }

    /// Base offset that all field accesses are relative to.
    pub closed spec fn spec_base(self) -> int {
        self.base_offset as int
    }

    /// Facts every well-formed flyweight provides about its shape.
    pub proof fn lemma_wf_facts(self)
        requires
            self.wf(),
        ensures
            0 <= self.spec_base(),
            self.spec_base() + S::spec_size() <= self@.len(),
            self@.len() <= 0x7fff_ffff,
            self.buffer_wf(),
    {
    }

    /// Borrow the underlying buffer, e.g. to hand the assembled message on.
    pub fn buffer_ref(&self) -> (r: &AtomicBuffer)
        ensures
            r@ == self@,
            r.wf() == self.buffer_wf(),
    {
        &self.buffer
    }

    /// Whether the underlying buffer is well-formed (spec-level helper).
    pub closed spec fn buffer_wf(self) -> bool {
        self.buffer.wf()
    }

    /// Read an `i64` field at `off` bytes past the base.
    pub(crate) fn get_i64_field(&self, off: IndexT) -> (r: i64)
        requires
            self.wf(),
            0 <= off,
            self.spec_base() + off + 8 <= self@.len(),
        ensures
            r == crate::atomic_buffer::i64_at(self@, self.spec_base() + off),
    {
        proof {
            self.lemma_wf_facts();
        }
        self.buffer.get_i64(self.base_offset + off).unwrap()
    }

    /// Write an `i64` field at `off` bytes past the base.
    pub(crate) fn put_i64_field(&mut self, off: IndexT, value: i64)
        requires
            old(self).wf(),
            0 <= off,
            old(self).spec_base() + off + 8 <= old(self)@.len(),
        ensures
            final(self).wf(),
            final(self).spec_base() == old(self).spec_base(),
            crate::atomic_buffer::same_outside(old(self)@, final(self)@,
                old(self).spec_base() + off, old(self).spec_base() + off + 8),
            crate::atomic_buffer::i64_at(final(self)@, old(self).spec_base() + off) == value,
            crate::atomic_buffer::i32_at(final(self)@, old(self).spec_base() + off)
                == value as i32,
            crate::atomic_buffer::i32_at(final(self)@, old(self).spec_base() + off + 4)
                == (value >> 32) as i32,
    {
        proof {
            self.lemma_wf_facts();
        }
        let base = self.base_offset;
        self.buffer.put_i64(base + off, value).unwrap();
    }

    /// Read an `i32` field at `off` bytes past the base.
    pub(crate) fn get_i32_field(&self, off: IndexT) -> (r: i32)
        requires
            self.wf(),
            0 <= off,
            self.spec_base() + off + 4 <= self@.len(),
        ensures
            r == crate::atomic_buffer::i32_at(self@, self.spec_base() + off),
    {
        proof {
            self.lemma_wf_facts();
        }
        self.buffer.get_i32(self.base_offset + off).unwrap()
    }

    /// Write an `i32` field at `off` bytes past the base.
    pub(crate) fn put_i32_field(&mut self, off: IndexT, value: i32)
        requires
            old(self).wf(),
            0 <= off,
            old(self).spec_base() + off + 4 <= old(self)@.len(),
        ensures
            final(self).wf(),
            final(self).spec_base() == old(self).spec_base(),
            crate::atomic_buffer::same_outside(old(self)@, final(self)@,
                old(self).spec_base() + off, old(self).spec_base() + off + 4),
            crate::atomic_buffer::i32_at(final(self)@, old(self).spec_base() + off) == value,
    {
        proof {
            self.lemma_wf_facts();
        }
        let base = self.base_offset;
        self.buffer.put_i32(base + off, value).unwrap();
    }

    /// Copy `len` bytes out of the message starting `off` bytes past the base.
    pub(crate) fn bytes_at(&self, off: IndexT, len: IndexT) -> (r: Result<Vec<u8>, AeronError>)
        requires
            self.wf(),
            0 <= off,
            self.spec_base() + off <= self@.len(),
        ensures
            in_bounds(self@, self.spec_base() + off, len as int) ==> (r matches Ok(v)
                && v@ == self@.subrange(self.spec_base() + off,
                    self.spec_base() + off + len as int)),
            !in_bounds(self@, self.spec_base() + off, len as int)
                ==> r == Err::<Vec<u8>, AeronError>(AeronError::OutOfBounds),
    {
        proof {
            self.lemma_wf_facts();
        }
        if len < 0 {
            return Err(AeronError::OutOfBounds);
        }
        self.buffer.get_bytes(self.base_offset + off, len)
    }

    /// Write `source` into the message starting `off` bytes past the base.
    pub(crate) fn put_bytes_at(&mut self, off: IndexT, source: &[u8])
        -> (r: Result<(), AeronError>)
        requires
            old(self).wf(),
            0 <= off,
            old(self).spec_base() + off <= old(self)@.len(),
            source@.len() <= 0x7fff_ffff,
        ensures
            final(self).wf(),
            final(self).spec_base() == old(self).spec_base(),
            in_bounds(old(self)@, old(self).spec_base() + off, source@.len() as int) ==> {
                &&& r == Ok::<(), AeronError>(())
                &&& crate::atomic_buffer::same_outside(old(self)@, final(self)@,
                    old(self).spec_base() + off,
                    old(self).spec_base() + off + source@.len() as int)
                &&& forall|k: int| 0 <= k < source@.len()
                    ==> #[trigger] final(self)@[old(self).spec_base() + off + k] == source@[k]
            },
            !in_bounds(old(self)@, old(self).spec_base() + off, source@.len() as int) ==> {
                &&& r == Err::<(), AeronError>(AeronError::OutOfBounds)
                &&& final(self)@ == old(self)@
            },
    {
        proof {
            self.lemma_wf_facts();
        }
        let base = self.base_offset;
        self.buffer.put_slice(base + off, source, 0, source.len() as IndexT)
    }
}

} // verus!
