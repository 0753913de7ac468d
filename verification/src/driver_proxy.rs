//! High-level interface for issuing commands to the media driver.
//!
//! Each command is assembled as a flyweight into a scratch buffer and then
//! written as one record into the to-driver ring buffer.
use crate::atomic_buffer::{
    i32_at, i64_at, lemma_i32_at_subrange, lemma_i64_at_subrange, same_outside, zeroed_buffer,
    AtomicBuffer,
};
use crate::control_protocol::ClientCommand;
use crate::flyweight::Flyweight;
use crate::ringbuffer::{
    claim_plan, counters_wf, ring_correlation, ring_head, ring_heartbeat, ring_tail, write_post,
    ManyToOneRingBuffer,
};
use crate::subscription_message::SubscriptionMessageDefn;
use crate::terminate_driver::TerminateDriverDefn;
use crate::util::{align8, AeronError, IndexT};
use vstd::prelude::*;

verus! {

/// Size of the per-call scratch buffer commands are assembled in.
pub const COMMAND_BUFFER_SIZE: usize = 512;

/// Proxy that turns driver commands into records on the to-driver ring.
pub struct DriverProxy {
    to_driver: ManyToOneRingBuffer,
    client_id: i64,
}

impl View for DriverProxy {
    type V = Seq<u8>;

    closed spec fn view(&self) -> Seq<u8> {
        self.to_driver@
    }
}

impl DriverProxy {
    /// The to-driver ring is well formed.
    pub closed spec fn wf(self) -> bool {
        self.to_driver.wf()
    }

    /// Payload capacity of the to-driver ring.
    pub closed spec fn spec_capacity(self) -> int {
        self.to_driver.spec_capacity()
    }

    /// The identifier this proxy allocated for its client.
    pub closed spec fn spec_client_id(self) -> i64 {
        self.client_id
    }

    /// Initialise a proxy from a command-and-control to-driver ring,
    /// allocating the client identifier from the ring's correlation counter.
    pub fn new(to_driver: ManyToOneRingBuffer) -> (r: DriverProxy)
        requires
            to_driver.wf(),
            ring_correlation(to_driver@, to_driver.spec_capacity()) < i64::MAX,
        ensures
            r.wf(),
            r.spec_capacity() == to_driver.spec_capacity(),
            r.spec_client_id() == ring_correlation(to_driver@, to_driver.spec_capacity()),
            ring_correlation(r@, r.spec_capacity()) == r.spec_client_id() + 1,
            same_outside(to_driver@, r@,
                to_driver.spec_capacity() + crate::ringbuffer::CORRELATION_COUNTER_OFFSET,
                to_driver.spec_capacity() + crate::ringbuffer::CORRELATION_COUNTER_OFFSET + 8),
    {
        let mut to_driver = to_driver;
        let client_id = to_driver.next_correlation_id();
        DriverProxy { to_driver, client_id }
    }

    /// Timestamp of the most recent driver heartbeat.
    pub fn time_of_last_driver_keepalive(&self) -> (r: i64)
        requires
            self.wf(),
        ensures
            r == ring_heartbeat(self@, self.spec_capacity()),
    {
        self.to_driver.consumer_heartbeat_time()
    }

    /// The unique identifier associated with this proxy.
    pub fn client_id(&self) -> (r: i64)
        ensures
            r == self.spec_client_id(),
    {
        self.client_id
    }

    /// Request that the media driver subscribe to a channel and stream.
    ///
    /// Returns the correlation identifier allocated for the request.  An
    /// over-long channel fails with `InsufficientCapacity` before touching
    /// the ring; a ring without room fails with `IllegalState`.
    #[verifier::rlimit(100)]
    #[verifier::spinoff_prover]
    pub fn add_subscription(&mut self, channel: &[u8], stream_id: i32)
        -> (r: Result<i64, AeronError>)
        requires
            old(self).wf(),
            counters_wf(old(self)@, old(self).spec_capacity()),
            ring_correlation(old(self)@, old(self).spec_capacity()) < i64::MAX,
            channel@.len() <= 0x7fff_ffff,
        ensures
            final(self).wf(),
            final(self).spec_capacity() == old(self).spec_capacity(),
            final(self).spec_client_id() == old(self).spec_client_id(),
            ({
                let s0 = old(self)@;
                let cap = old(self).spec_capacity();
                let corr = ring_correlation(s0, cap);
                &&& ring_correlation(final(self)@, cap) == corr + 1
                &&& (channel@.len() > COMMAND_BUFFER_SIZE - 32
                    ==> r == Err::<i64, AeronError>(AeronError::InsufficientCapacity)
                        && ring_tail(final(self)@, cap) == ring_tail(s0, cap)
                        && ring_head(final(self)@, cap) == ring_head(s0, cap))
                &&& (channel@.len() <= COMMAND_BUFFER_SIZE - 32 ==> {
                    let msg_len = 32 + channel@.len() as int;
                    let required = align8(8 + msg_len);
                    let plan = claim_plan(s0, cap, required);
                    &&& (msg_len > cap / 8
                        ==> r == Err::<i64, AeronError>(AeronError::IllegalArgument)
                            && ring_tail(final(self)@, cap) == ring_tail(s0, cap))
                    &&& (msg_len <= cap / 8 && plan.insufficient
                        ==> r == Err::<i64, AeronError>(AeronError::IllegalState)
                            && ring_tail(final(self)@, cap) == ring_tail(s0, cap))
                    &&& (msg_len <= cap / 8 && !plan.insufficient ==> {
                        let idx = plan.index;
                        &&& r == Ok::<i64, AeronError>(corr)
                        &&& ring_tail(final(self)@, cap) == plan.new_tail as i64
                        &&& ring_head(final(self)@, cap) == ring_head(s0, cap)
                        &&& i32_at(final(self)@, idx) == msg_len + 8
                        &&& i32_at(final(self)@, idx + 4) == 0x04
                        &&& i64_at(final(self)@, idx + 8) == old(self).spec_client_id()
                        &&& i64_at(final(self)@, idx + 16) == corr
                        &&& i64_at(final(self)@, idx + 24) == -1
                        &&& i32_at(final(self)@, idx + 32) == stream_id
                        &&& i32_at(final(self)@, idx + 36) == channel@.len() as i32
                        &&& forall|k: int| 0 <= k < channel@.len()
                            ==> #[trigger] final(self)@[idx + 40 + k] == channel@[k]
                    })
                })
            }),
    {
        proof {
            self.to_driver.lemma_wf_facts();
        }
        let correlation_id = self.to_driver.next_correlation_id();
        if channel.len() > COMMAND_BUFFER_SIZE - 32 {
            return Err(AeronError::InsufficientCapacity);
        }

        let scratch = AtomicBuffer::wrap(zeroed_buffer(COMMAND_BUFFER_SIZE));
        let mut message: Flyweight<SubscriptionMessageDefn> =
            Flyweight::new(scratch, 0).unwrap();

        message.put_client_id(self.client_id);
        message.put_registration_correlation_id(-1);
        message.put_correlation_id(correlation_id);
        message.put_stream_id(stream_id);
        message.put_channel(channel).unwrap();
        let length = message.length();

        let ghost s1 = self@;
        let ghost cap = self.spec_capacity();
        let ghost scratch_view = message@;

        let outcome = self.write_command_to_driver(ClientCommand::AddSubscription,
            message.buffer_ref(), length);

        proof {
            if outcome is Ok {
                let required = align8(8 + length as int);
                let plan = claim_plan(s1, cap, required);
                let idx = plan.index;
                assert(forall|k: int| 0 <= k < length as int
                    ==> #[trigger] self@[idx + 8 + k] == scratch_view[k]);
                crate::atomic_buffer::lemma_subrange_eq_of_pointwise(
                    self@, scratch_view, idx + 8, length as int);
                assert(self@.subrange(idx + 8, idx + 8 + length as int)
                    == scratch_view.subrange(0, length as int));
                lemma_i64_at_subrange(self@, idx + 8, idx + 8 + length as int, 0);
                lemma_i64_at_subrange(self@, idx + 8, idx + 8 + length as int, 8);
                lemma_i64_at_subrange(self@, idx + 8, idx + 8 + length as int, 16);
                lemma_i32_at_subrange(self@, idx + 8, idx + 8 + length as int, 24);
                lemma_i32_at_subrange(self@, idx + 8, idx + 8 + length as int, 28);
                lemma_i64_at_subrange(scratch_view, 0, length as int, 0);
                lemma_i64_at_subrange(scratch_view, 0, length as int, 8);
                lemma_i64_at_subrange(scratch_view, 0, length as int, 16);
                lemma_i32_at_subrange(scratch_view, 0, length as int, 24);
                lemma_i32_at_subrange(scratch_view, 0, length as int, 28);
                assert forall|k: int| 0 <= k < channel@.len()
                    implies self@[idx + 40 + k] == channel@[k] by {
                    assert(self@[idx + 8 + (32 + k)] == scratch_view[32 + k]);
                    assert(scratch_view[0 + 32 + k] == channel@[k]);
                }
            }
        }

        match outcome {
            Ok(_) => Ok(correlation_id),
            Err(e) => Err(e),
        }
    }

    /// Request termination of the media driver, optionally supplying a token
    /// payload the driver can use to decide whether to honour the request.
    #[verifier::rlimit(100)]
    #[verifier::spinoff_prover]
    pub fn terminate_driver(&mut self, token_buffer: Option<&[u8]>)
        -> (r: Result<(), AeronError>)
        requires
            old(self).wf(),
            counters_wf(old(self)@, old(self).spec_capacity()),
            token_buffer matches Some(t) ==> t@.len() <= 0x7fff_ffff,
        ensures
            final(self).wf(),
            final(self).spec_capacity() == old(self).spec_capacity(),
            final(self).spec_client_id() == old(self).spec_client_id(),
            ({
                let s0 = old(self)@;
                let cap = old(self).spec_capacity();
                let token_len = (match token_buffer {
                    Some(t) => t@.len() as int,
                    None => 0,
                });
                &&& (token_len > COMMAND_BUFFER_SIZE - 20
                    ==> r == Err::<(), AeronError>(AeronError::InsufficientCapacity)
                        && final(self)@ == s0)
                &&& (token_len <= COMMAND_BUFFER_SIZE - 20 ==> {
                    let msg_len = 20 + token_len;
                    let required = align8(8 + msg_len);
                    let plan = claim_plan(s0, cap, required);
                    &&& (msg_len > cap / 8
                        ==> r == Err::<(), AeronError>(AeronError::IllegalArgument)
                            && ring_tail(final(self)@, cap) == ring_tail(s0, cap))
                    &&& (msg_len <= cap / 8 && plan.insufficient
                        ==> r == Err::<(), AeronError>(AeronError::IllegalState)
                            && ring_tail(final(self)@, cap) == ring_tail(s0, cap))
                    &&& (msg_len <= cap / 8 && !plan.insufficient ==> {
                        let idx = plan.index;
                        &&& r == Ok::<(), AeronError>(())
                        &&& ring_tail(final(self)@, cap) == plan.new_tail as i64
                        &&& ring_head(final(self)@, cap) == ring_head(s0, cap)
                        &&& i32_at(final(self)@, idx) == msg_len + 8
                        &&& i32_at(final(self)@, idx + 4) == 0x0E
                        &&& i64_at(final(self)@, idx + 8) == old(self).spec_client_id()
                        &&& i64_at(final(self)@, idx + 16) == -1
                        &&& i32_at(final(self)@, idx + 24) == token_len as i32
                        &&& (token_buffer matches Some(t)
                            ==> forall|k: int| 0 <= k < t@.len()
                                ==> #[trigger] final(self)@[idx + 28 + k] == t@[k])
                    })
                })
            }),
    {
        proof {
            self.to_driver.lemma_wf_facts();
        }
        let client_id = self.client_id;
        match token_buffer {
            Some(t) => {
                if t.len() > COMMAND_BUFFER_SIZE - 20 {
                    return Err(AeronError::InsufficientCapacity);
                }
            },
            None => {},
        }

        let scratch = AtomicBuffer::wrap(zeroed_buffer(COMMAND_BUFFER_SIZE));
        let mut request: Flyweight<TerminateDriverDefn> = Flyweight::new(scratch, 0).unwrap();

        request.put_client_id(client_id);
        request.put_correlation_id(-1);
        match token_buffer {
            Some(t) => {
                request.put_token_buffer(t).unwrap();
            },
            None => {
                proof {
                    crate::atomic_buffer::lemma_zero_window(request@, 16, 4);
                }
            },
        }
        let length = request.length();

        let ghost s1 = self@;
        let ghost cap = self.spec_capacity();
        let ghost scratch_view = request@;

        let outcome = self.write_command_to_driver(ClientCommand::TerminateDriver,
            request.buffer_ref(), length);

        proof {
            if outcome is Ok {
                let required = align8(8 + length as int);
                let plan = claim_plan(s1, cap, required);
                let idx = plan.index;
                assert(forall|k: int| 0 <= k < length as int
                    ==> #[trigger] self@[idx + 8 + k] == scratch_view[k]);
                crate::atomic_buffer::lemma_subrange_eq_of_pointwise(
                    self@, scratch_view, idx + 8, length as int);
                assert(self@.subrange(idx + 8, idx + 8 + length as int)
                    == scratch_view.subrange(0, length as int));
                lemma_i64_at_subrange(self@, idx + 8, idx + 8 + length as int, 0);
                lemma_i64_at_subrange(self@, idx + 8, idx + 8 + length as int, 8);
                lemma_i32_at_subrange(self@, idx + 8, idx + 8 + length as int, 16);
                lemma_i64_at_subrange(scratch_view, 0, length as int, 0);
                lemma_i64_at_subrange(scratch_view, 0, length as int, 8);
                lemma_i32_at_subrange(scratch_view, 0, length as int, 16);
                match token_buffer {
                    Some(t) => {
                        assert forall|k: int| 0 <= k < t@.len()
                            implies self@[idx + 28 + k] == t@[k] by {
                            assert(self@[idx + 8 + (20 + k)] == scratch_view[20 + k]);
                            assert(scratch_view[0 + 20 + k] == t@[k]);
                        }
                    },
                    None => {},
                }
            }
        }

        match outcome {
            Ok(_) => Ok(()),
            Err(e) => Err(e),
        }
    }

    /// Release the underlying to-driver ring.
    pub fn into_ring(self) -> (r: ManyToOneRingBuffer)
        ensures
            r@ == self@,
            r.wf() == self.wf(),
            r.spec_capacity() == self.spec_capacity(),
    {
        self.to_driver
    }

    /// Write one assembled command into the to-driver ring, surfacing the
    /// ring's back-pressure signal as `IllegalState`.
    fn write_command_to_driver(&mut self, command: ClientCommand, source: &AtomicBuffer,
        length: IndexT) -> (r: Result<(), AeronError>)
        requires
            old(self).wf(),
            counters_wf(old(self)@, old(self).spec_capacity()),
            source.wf(),
            0 <= length <= source@.len(),
        ensures
            final(self).wf(),
            final(self).spec_capacity() == old(self).spec_capacity(),
            final(self).spec_client_id() == old(self).spec_client_id(),
            ({
                let s0 = old(self)@;
                let cap = old(self).spec_capacity();
                let required = align8(8 + length as int);
                let plan = claim_plan(s0, cap, required);
                &&& (length as int > cap / 8
                    ==> r == Err::<(), AeronError>(AeronError::IllegalArgument)
                        && final(self)@ == s0)
                &&& (length as int <= cap / 8 && plan.insufficient ==> {
                    &&& r == Err::<(), AeronError>(AeronError::IllegalState)
                    &&& ring_tail(final(self)@, cap) == ring_tail(s0, cap)
                    &&& ring_head(final(self)@, cap) == ring_head(s0, cap)
                    &&& ring_correlation(final(self)@, cap) == ring_correlation(s0, cap)
                    &&& ring_heartbeat(final(self)@, cap) == ring_heartbeat(s0, cap)
                })
                &&& (length as int <= cap / 8 && !plan.insufficient ==> {
                    &&& r == Ok::<(), AeronError>(())
                    &&& write_post(s0, final(self)@, cap, required,
                        spec_client_command_code_i32(command), source@, 0, length as int)
                })
            }),
    {
        let msg_type_id = command.code() as i32;
        proof {
            assert(msg_type_id >= 1 && msg_type_id == spec_client_command_code_i32(command));
        }
        match self.to_driver.write(msg_type_id, source, 0, length) {
            Ok(true) => Ok(()),
            Ok(false) => Err(AeronError::IllegalState),
            Err(e) => Err(e),
        }
    }
}

/// A client command's wire code, as the `i32` written into a record header.
pub open spec fn spec_client_command_code_i32(c: ClientCommand) -> i32 {
    crate::control_protocol::spec_client_command_code(c) as i32
}

} // verus!
