//! Client-side shared-memory transport for an Aeron-style media driver:
//! a bounded multi-producer/single-consumer ring buffer for client-to-driver
//! commands and a single-producer/multi-consumer broadcast buffer for
//! driver-to-client responses, both layered over a typed, bounds-checked
//! byte-region accessor.
use vstd::prelude::*;

pub mod atomic_buffer;
pub mod broadcast;
pub mod cnc_descriptor;
pub mod control_protocol;
pub mod correlated_message;
pub mod driver_proxy;
pub mod flyweight;
pub mod publication_message;
pub mod subscription_message;
pub mod terminate_driver;
pub mod ringbuffer;
pub mod util;

verus! {

/// Compose a 24-bit semantic version value: `(major << 16) | (minor << 8) | patch`.
pub fn sematic_version_compose(major: u8, minor: u8, patch: u8) -> (r: i32)
    ensures
        r == (major as int) * 0x10000 + (minor as int) * 0x100 + (patch as int),
{
    proof {
        assert((major as i32) << 16 | (minor as i32) << 8 | (patch as i32)
            == (major as int) * 0x10000 + (minor as int) * 0x100 + (patch as int))
            by (bit_vector);
    }
    (major as i32) << 16 | (minor as i32) << 8 | (patch as i32)
}

} // verus!
