//! Header fields for commands that carry a client and correlation identifier
//! to associate driver responses with requests.
//!
//! Layout: `int64 client_id` at offset 0, `int64 correlation_id` at offset 8.
use crate::atomic_buffer::{i64_at, same_outside};
use crate::flyweight::{Flyweight, FlyweightDefn};
use crate::util::IndexT;
use vstd::prelude::*;

verus! {

/// Offset of the client identifier field.
pub const CLIENT_ID_FIELD_OFFSET: IndexT = 0;

/// Offset of the correlation identifier field.
pub const CORRELATION_ID_FIELD_OFFSET: IndexT = 8;

/// Message fragment holding a client and a correlation identifier.
pub struct CorrelatedMessageDefn;

impl FlyweightDefn for CorrelatedMessageDefn {
    open spec fn spec_size() -> int {
        16
    }

    proof fn size_bounds() {
    }

    fn size() -> (r: IndexT) {
        16
    }
}

impl Flyweight<CorrelatedMessageDefn> {
    /// Client identifier associated with this message.
    pub fn client_id(&self) -> (r: i64)
        requires
            self.wf(),
        ensures
            r == i64_at(self@, self.spec_base()),
    {
        proof {
            self.lemma_wf_facts();
        }
        self.get_i64_field(CLIENT_ID_FIELD_OFFSET)
    }

    /// Set the client identifier for this message.
    pub fn put_client_id(&mut self, value: i64)
        requires
            old(self).wf(),
        ensures
            final(self).wf(),
            final(self).spec_base() == old(self).spec_base(),
            same_outside(old(self)@, final(self)@, old(self).spec_base(),
                old(self).spec_base() + 8),
            i64_at(final(self)@, old(self).spec_base()) == value,
    {
        proof {
            self.lemma_wf_facts();
        }
        self.put_i64_field(CLIENT_ID_FIELD_OFFSET, value);
    }

    /// Correlation identifier associated with this message.
    pub fn correlation_id(&self) -> (r: i64)
        requires
            self.wf(),
        ensures
            r == i64_at(self@, self.spec_base() + 8),
    {
        proof {
            self.lemma_wf_facts();
        }
        self.get_i64_field(CORRELATION_ID_FIELD_OFFSET)
    }

    /// Set the correlation identifier for this message.
    pub fn put_correlation_id(&mut self, value: i64)
        requires
            old(self).wf(),
        ensures
            final(self).wf(),
            final(self).spec_base() == old(self).spec_base(),
            same_outside(old(self)@, final(self)@, old(self).spec_base() + 8,
                old(self).spec_base() + 16),
            i64_at(final(self)@, old(self).spec_base() + 8) == value,
    {
        proof {
            self.lemma_wf_facts();
        }
        self.put_i64_field(CORRELATION_ID_FIELD_OFFSET, value);
    }
}

} // verus!
