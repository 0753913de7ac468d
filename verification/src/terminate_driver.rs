//! Command to terminate the media driver.
//!
//! Layout: `int64 client_id`, `int64 correlation_id`, `int32 token_length`,
//! then `token_length` bytes of token payload trailing the fixed fields.
use crate::atomic_buffer::{i32_at, i64_at, in_bounds, same_outside};
use crate::flyweight::{Flyweight, FlyweightDefn};
use crate::util::{AeronError, IndexT};
use vstd::prelude::*;

verus! {

/// Offset of the token length field.
pub const TOKEN_LENGTH_FIELD_OFFSET: IndexT = 16;

/// Offset of the token payload bytes.
pub const TOKEN_FIELD_OFFSET: IndexT = 20;

/// Command to terminate the media driver, with an optional token the driver
/// can use to decide whether to honour the request.
pub struct TerminateDriverDefn;

impl FlyweightDefn for TerminateDriverDefn {
    open spec fn spec_size() -> int {
        20
    }

    proof fn size_bounds() {
    }

    fn size() -> (r: IndexT) {
        20
    }
}

impl Flyweight<TerminateDriverDefn> {
    /// Client identifier of this request.
    pub fn client_id(&self) -> (r: i64)
        requires
            self.wf(),
        ensures
            r == i64_at(self@, self.spec_base()),
    {
        proof {
            self.lemma_wf_facts();
        }
        self.get_i64_field(0)
    }

    /// Set the client identifier of this request.
    pub fn put_client_id(&mut self, value: i64)
        requires
            old(self).wf(),
        ensures
            final(self).wf(),
            final(self).spec_base() == old(self).spec_base(),
            same_outside(old(self)@, final(self)@, old(self).spec_base(),
                old(self).spec_base() + 8),
            i64_at(final(self)@, old(self).spec_base()) == value,
    {
        proof {
            self.lemma_wf_facts();
        }
        self.put_i64_field(0, value);
    }

    /// Correlation identifier used to pair this request with its response.
    pub fn correlation_id(&self) -> (r: i64)
        requires
            self.wf(),
        ensures
            r == i64_at(self@, self.spec_base() + 8),
    {
        proof {
            self.lemma_wf_facts();
        }
        self.get_i64_field(8)
    }

    /// Set the correlation identifier of this request.
    pub fn put_correlation_id(&mut self, value: i64)
        requires
            old(self).wf(),
        ensures
            final(self).wf(),
            final(self).spec_base() == old(self).spec_base(),
            same_outside(old(self)@, final(self)@, old(self).spec_base() + 8,
                old(self).spec_base() + 16),
            i64_at(final(self)@, old(self).spec_base() + 8) == value,
    {
        proof {
            self.lemma_wf_facts();
        }
        self.put_i64_field(8, value);
    }

    /// Length of the token payload trailing this command.
    pub fn token_length(&self) -> (r: i32)
        requires
            self.wf(),
        ensures
            r == i32_at(self@, self.spec_base() + 16),
    {
        proof {
            self.lemma_wf_facts();
        }
        self.get_i32_field(TOKEN_LENGTH_FIELD_OFFSET)
    }

    /// The token payload associated with this termination request.
    pub fn token_buffer(&self) -> (r: Result<Vec<u8>, AeronError>)
        requires
            self.wf(),
        ensures
            ({
                let tl = i32_at(self@, self.spec_base() + 16) as int;
                &&& (in_bounds(self@, self.spec_base() + 20, tl) ==> (r matches Ok(v)
                    && v@ == self@.subrange(self.spec_base() + 20, self.spec_base() + 20 + tl)))
                &&& (!in_bounds(self@, self.spec_base() + 20, tl)
                    ==> r == Err::<Vec<u8>, AeronError>(AeronError::OutOfBounds))
            }),
    {
        proof {
            self.lemma_wf_facts();
        }
        let tl = self.get_i32_field(TOKEN_LENGTH_FIELD_OFFSET);
        self.bytes_at(TOKEN_FIELD_OFFSET, tl)
    }

    /// Append a token payload to the termination request: the token length
    /// field and the trailing token bytes.
    pub fn put_token_buffer(&mut self, token_buffer: &[u8]) -> (r: Result<(), AeronError>)
        requires
            old(self).wf(),
            token_buffer@.len() <= 0x7fff_ffff,
        ensures
            final(self).wf(),
            final(self).spec_base() == old(self).spec_base(),
            in_bounds(old(self)@, old(self).spec_base() + 20, token_buffer@.len() as int) ==> {
                &&& r == Ok::<(), AeronError>(())
                &&& same_outside(old(self)@, final(self)@, old(self).spec_base() + 16,
                    old(self).spec_base() + 20 + token_buffer@.len() as int)
                &&& i32_at(final(self)@, old(self).spec_base() + 16)
                    == token_buffer@.len() as i32
                &&& forall|k: int| 0 <= k < token_buffer@.len()
                    ==> #[trigger] final(self)@[old(self).spec_base() + 20 + k]
                        == token_buffer@[k]
            },
            !in_bounds(old(self)@, old(self).spec_base() + 20, token_buffer@.len() as int) ==> {
                &&& r == Err::<(), AeronError>(AeronError::OutOfBounds)
                &&& final(self)@ == old(self)@
            },
    {
        proof {
            self.lemma_wf_facts();
        }
        if token_buffer.len() > 0 {
            match self.put_bytes_at(TOKEN_FIELD_OFFSET, token_buffer) {
                Err(e) => {
                    return Err(e);
                },
                Ok(_) => {},
            }
        }
        self.put_i32_field(TOKEN_LENGTH_FIELD_OFFSET, token_buffer.len() as i32);
        Ok(())
    }

    /// Total byte length of this termination command.
    pub fn length(&self) -> (r: IndexT)
        requires
            self.wf(),
            0 <= i32_at(self@, self.spec_base() + 16),
            self.spec_base() + 20 + i32_at(self@, self.spec_base() + 16) <= self@.len(),
        ensures
            r == 20 + i32_at(self@, self.spec_base() + 16),
    {
        proof {
            self.lemma_wf_facts();
        }
        20 + self.get_i32_field(TOKEN_LENGTH_FIELD_OFFSET)
    }
}

} // verus!
