//! Handles that name bound sockets.

use vstd::prelude::*;

verus! {

/// Names one bound socket. A handle is a version 4 UUID held as its 128 bits;
/// it is cheap to copy and to compare, and serves as a map key.
#[derive(Debug, Copy, Clone, PartialEq, Eq, Hash, Structural)]
pub struct SocketHandle(u128);

/// The bits that every version 4 UUID of the RFC variant has in common:
/// version nibble `4`, variant bits `10`.
pub open spec fn is_random_uuid(bits: u128) -> bool {
    bits & 0x0000_0000_0000_f000_c000_0000_0000_0000u128
        == 0x0000_0000_0000_4000_8000_0000_0000_0000u128
}

/// Calls `uuid::Uuid::new_v4` and hands back the UUID as the integer that
/// `Uuid::as_u128` gives. The value is random; trusted of every outcome is
/// only that the version and variant fields are those of a version 4 UUID,
/// which `new_v4` sets by masking. (`new_v4` panics where the operating
/// system cannot supply random bytes; no argument decides that.)
#[verifier::external_body]
fn random_uuid_bits() -> (bits: u128)
    ensures
        is_random_uuid(bits),
{
    uuid::Uuid::new_v4().as_u128()
}

impl SocketHandle {
    /// The 128 bits of the handle.
    pub closed spec fn bits(self) -> u128 {
        self.0
    }

    /// Draws a new handle. Two draws differ with overwhelming probability;
    /// nothing in this library relies on that.
    pub fn new() -> (handle: Self)
        ensures
            is_random_uuid(handle.bits()),
    {
        SocketHandle(random_uuid_bits())
    }

    /// The handle as an integer, for display and for keys outside Rust.
    pub fn as_u128(&self) -> (bits: u128)
        ensures
            bits == self.bits(),
    {
        self.0
    }
}

} // verus!
