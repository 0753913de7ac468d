//! Description of the command-and-control (CnC) file shared between the
//! media driver and its clients.
//!
//! The file begins with a fixed metadata header; the to-driver sub-region is
//! wrapped by the ring buffer and the to-clients sub-region by the broadcast
//! receiver.
use crate::atomic_buffer::{i32_at, i64_at};
use crate::util::AeronError;
use vstd::prelude::*;

verus! {

/// Length of the metadata block at the start of a CnC file: the header
/// fields aligned up to two cache lines.
pub const META_DATA_LENGTH: usize = 128;

/// Byte length of the metadata header fields themselves.
pub const META_DATA_FIELDS_LENGTH: usize = 48;

/// Version code for the CnC file format: the composed semantic
/// version `0.0.16`, i.e. `(0 << 16) | (0 << 8) | 16`.
pub const CNC_VERSION: i32 = 16;

/// The CnC file metadata header.
#[derive(Clone, Copy, Debug, PartialEq, Eq, Structural)]
pub struct MetaDataDefinition {
    /// Version of the CnC file format.
    pub cnc_version: i32,
    /// Size of the buffer carrying data to the media driver.
    pub to_driver_buffer_length: i32,
    /// Size of the buffer carrying data back to clients.
    pub to_client_buffer_length: i32,
    /// Size of the counters metadata buffer.
    pub counter_metadata_buffer_length: i32,
    /// Size of the counters values buffer.
    pub counter_values_buffer_length: i32,
    /// Size of the error log buffer.
    pub error_log_buffer_length: i32,
    /// Client liveness timeout in nanoseconds.
    pub client_liveness_timeout: i64,
    /// Timestamp at which the driver started.
    pub start_timestamp: i64,
    /// Process identifier of the driver.
    pub pid: i64,
}

/// The metadata header parsed from the little-endian bytes of a region.
pub open spec fn spec_metadata(s: Seq<u8>) -> MetaDataDefinition {
    MetaDataDefinition {
        cnc_version: i32_at(s, 0),
        to_driver_buffer_length: i32_at(s, 4),
        to_client_buffer_length: i32_at(s, 8),
        counter_metadata_buffer_length: i32_at(s, 12),
        counter_values_buffer_length: i32_at(s, 16),
        error_log_buffer_length: i32_at(s, 20),
        client_liveness_timeout: i64_at(s, 24),
        start_timestamp: i64_at(s, 32),
        pid: i64_at(s, 40),
    }
}

/// Read an `i32` stored little-endian at `i` in a byte slice.
fn slice_i32(bytes: &[u8], i: usize) -> (r: i32)
    requires
        i <= 0x2000,
        i + 4 <= bytes@.len(),
    ensures
        r == i32_at(bytes@, i as int),
{
    let b0 = bytes[i];
    let b1 = bytes[i + 1];
    let b2 = bytes[i + 2];
    let b3 = bytes[i + 3];
    ((b0 as u32) | (b1 as u32) << 8 | (b2 as u32) << 16 | (b3 as u32) << 24) as i32
}

/// Read an `i64` stored little-endian at `i` in a byte slice.
fn slice_i64(bytes: &[u8], i: usize) -> (r: i64)
    requires
        i <= 0x1000,
        i + 8 <= bytes@.len(),
    ensures
        r == i64_at(bytes@, i as int),
{
    let lo = slice_i32(bytes, i);
    let hi = slice_i32(bytes, i + 4);
    proof {
        crate::atomic_buffer::lemma_i64_at_halves(bytes@, i as int);
        lemma_halves_assemble(lo, hi);
    }
    #[verifier::truncate]
    (((#[verifier::truncate] (lo as u32)) as u64
        | ((#[verifier::truncate] (hi as u32)) as u64) << 32) as i64)
}

/// Recombining two words through `u32` casts matches the two-half model.
proof fn lemma_halves_assemble(lo: i32, hi: i32)
    by (bit_vector)
    ensures
        (lo as u32 as u64 | (hi as u32 as u64) << 32) as i64
            == crate::atomic_buffer::u64_of_halves(lo as u32, hi as u32) as i64,
{
}

impl MetaDataDefinition {
    /// Parse the metadata header from the first bytes of a CnC region.
    /// Fails with `IllegalArgument` when the region cannot hold the header.
    pub fn read_from(bytes: &[u8]) -> (r: Result<MetaDataDefinition, AeronError>)
        ensures
            bytes@.len() >= META_DATA_FIELDS_LENGTH
                ==> r == Ok::<MetaDataDefinition, AeronError>(spec_metadata(bytes@)),
            bytes@.len() < META_DATA_FIELDS_LENGTH
                ==> r == Err::<MetaDataDefinition, AeronError>(AeronError::IllegalArgument),
    {
        if bytes.len() < META_DATA_FIELDS_LENGTH {
            return Err(AeronError::IllegalArgument);
        }
        Ok(MetaDataDefinition {
            cnc_version: slice_i32(bytes, 0),
            to_driver_buffer_length: slice_i32(bytes, 4),
            to_client_buffer_length: slice_i32(bytes, 8),
            counter_metadata_buffer_length: slice_i32(bytes, 12),
            counter_values_buffer_length: slice_i32(bytes, 16),
            error_log_buffer_length: slice_i32(bytes, 20),
            client_liveness_timeout: slice_i64(bytes, 24),
            start_timestamp: slice_i64(bytes, 32),
            pid: slice_i64(bytes, 40),
        })
    }
}

} // verus!
