//! Control message for adding a publication.
//!
//! Layout: `int64 client_id`, `int64 correlation_id`, `int32 stream_id`,
//! `int32 channel_length`, then the channel bytes.
use crate::atomic_buffer::{i32_at, i64_at, in_bounds, same_outside};
use crate::flyweight::{Flyweight, FlyweightDefn};
use crate::util::{AeronError, IndexT};
use vstd::prelude::*;

verus! {

/// Offset of the stream identifier field.
pub const STREAM_ID_FIELD_OFFSET: IndexT = 16;

/// Offset of the channel length field.
pub const CHANNEL_LENGTH_FIELD_OFFSET: IndexT = 20;

/// Offset of the channel bytes.
pub const CHANNEL_FIELD_OFFSET: IndexT = 24;

/// Control message for adding a publication.
pub struct PublicationMessageDefn;

impl FlyweightDefn for PublicationMessageDefn {
    open spec fn spec_size() -> int {
        24
    }

    proof fn size_bounds() {
    }

    fn size() -> (r: IndexT) {
        24
    }
}

impl Flyweight<PublicationMessageDefn> {
    /// Client identifier of this request.
    pub fn client_id(&self) -> (r: i64)
        requires
            self.wf(),
        ensures
            r == i64_at(self@, self.spec_base()),
    {
        proof {
            self.lemma_wf_facts();
        }
        self.get_i64_field(0)
    }

    /// Set the client identifier of this request.
    pub fn put_client_id(&mut self, value: i64)
        requires
            old(self).wf(),
        ensures
            final(self).wf(),
            final(self).spec_base() == old(self).spec_base(),
            same_outside(old(self)@, final(self)@, old(self).spec_base(),
                old(self).spec_base() + 8),
            i64_at(final(self)@, old(self).spec_base()) == value,
    {
        proof {
            self.lemma_wf_facts();
        }
        self.put_i64_field(0, value);
    }

    /// Correlation identifier used to pair this request with its response.
    pub fn correlation_id(&self) -> (r: i64)
        requires
            self.wf(),
        ensures
            r == i64_at(self@, self.spec_base() + 8),
    {
        proof {
            self.lemma_wf_facts();
        }
        self.get_i64_field(8)
    }

    /// Set the correlation identifier of this request.
    pub fn put_correlation_id(&mut self, value: i64)
        requires
            old(self).wf(),
        ensures
            final(self).wf(),
            final(self).spec_base() == old(self).spec_base(),
            same_outside(old(self)@, final(self)@, old(self).spec_base() + 8,
                old(self).spec_base() + 16),
            i64_at(final(self)@, old(self).spec_base() + 8) == value,
    {
        proof {
            self.lemma_wf_facts();
        }
        self.put_i64_field(8, value);
    }

    /// Stream identifier associated with this request.
    pub fn stream_id(&self) -> (r: i32)
        requires
            self.wf(),
        ensures
            r == i32_at(self@, self.spec_base() + 16),
    {
        proof {
            self.lemma_wf_facts();
        }
        self.get_i32_field(STREAM_ID_FIELD_OFFSET)
    }

    /// Set the stream identifier of this request.
    pub fn put_stream_id(&mut self, value: i32)
        requires
            old(self).wf(),
        ensures
            final(self).wf(),
            final(self).spec_base() == old(self).spec_base(),
            same_outside(old(self)@, final(self)@, old(self).spec_base() + 16,
                old(self).spec_base() + 20),
            i32_at(final(self)@, old(self).spec_base() + 16) == value,
    {
        proof {
            self.lemma_wf_facts();
        }
        self.put_i32_field(STREAM_ID_FIELD_OFFSET, value);
    }

    /// Channel name bytes of this request.
    pub fn channel(&self) -> (r: Result<Vec<u8>, AeronError>)
        requires
            self.wf(),
        ensures
            ({
                let cl = i32_at(self@, self.spec_base() + 20) as int;
                &&& (in_bounds(self@, self.spec_base() + 24, cl) ==> (r matches Ok(v)
                    && v@ == self@.subrange(self.spec_base() + 24, self.spec_base() + 24 + cl)))
                &&& (!in_bounds(self@, self.spec_base() + 24, cl)
                    ==> r == Err::<Vec<u8>, AeronError>(AeronError::OutOfBounds))
            }),
    {
        proof {
            self.lemma_wf_facts();
        }
        let cl = self.get_i32_field(CHANNEL_LENGTH_FIELD_OFFSET);
        self.bytes_at(CHANNEL_FIELD_OFFSET, cl)
    }

    /// Set the channel name of this request: the channel length field and the
    /// trailing channel bytes.
    pub fn put_channel(&mut self, value: &[u8]) -> (r: Result<(), AeronError>)
        requires
            old(self).wf(),
            value@.len() <= 0x7fff_ffff,
        ensures
            final(self).wf(),
            final(self).spec_base() == old(self).spec_base(),
            in_bounds(old(self)@, old(self).spec_base() + 24, value@.len() as int) ==> {
                &&& r == Ok::<(), AeronError>(())
                &&& same_outside(old(self)@, final(self)@, old(self).spec_base() + 20,
                    old(self).spec_base() + 24 + value@.len() as int)
                &&& i32_at(final(self)@, old(self).spec_base() + 20) == value@.len() as i32
                &&& forall|k: int| 0 <= k < value@.len()
                    ==> #[trigger] final(self)@[old(self).spec_base() + 24 + k] == value@[k]
            },
            !in_bounds(old(self)@, old(self).spec_base() + 24, value@.len() as int) ==> {
                &&& r == Err::<(), AeronError>(AeronError::OutOfBounds)
                &&& final(self)@ == old(self)@
            },
    {
        proof {
            self.lemma_wf_facts();
        }
        match self.put_bytes_at(CHANNEL_FIELD_OFFSET, value) {
            Err(e) => {
                return Err(e);
            },
            Ok(_) => {},
        }
        self.put_i32_field(CHANNEL_LENGTH_FIELD_OFFSET, value.len() as i32);
        Ok(())
    }

    /// Total byte length of this subscription command.
    pub fn length(&self) -> (r: IndexT)
        requires
            self.wf(),
            0 <= i32_at(self@, self.spec_base() + 20),
            self.spec_base() + 24 + i32_at(self@, self.spec_base() + 20) <= self@.len(),
        ensures
            r == 24 + i32_at(self@, self.spec_base() + 20),
    {
        proof {
            self.lemma_wf_facts();
        }
        24 + self.get_i32_field(CHANNEL_LENGTH_FIELD_OFFSET)
    }
}

} // verus!
