//! Packet buffers.
use vstd::prelude::*;

verus! {

/// A range of packet memory that an endpoint uses.
#[derive(Clone, Copy, Debug, PartialEq, Eq, Structural)]
pub struct EndpointBuffer {
    /// Where it starts.
    pub addr: u32,
    /// How many bytes the controller may put there in one packet.
    pub len: usize,
    /// How many bytes can be stored there.
    pub capacity: usize,
}

impl EndpointBuffer {
    /// Whether the buffer lies where the controller can address it: on a multiple of 64 bytes.
    #[verifier::allow_in_spec]
    pub fn is_aligned(&self) -> bool
        returns
            self.addr % 64 == 0,
    {
        self.addr % 64 == 0
    }

    /// The part of the address that the endpoint list holds.
    ///
    /// It is bits 21:6. The bits below are zero, and those above are common to all buffers and
    /// stand in the controller's data buffer start register.
    pub fn addroff(&self) -> (offset: u32)
        requires
            self.is_aligned(),
        ensures
            offset == self.spec_addroff(),
    {
        let addr: u32 = self.addr;
        assert((addr >> 6u32) & 0xffff == (addr / 64) % 0x1_0000) by (bit_vector);
        (addr >> 6u32) & 0xffff
    }

    /// Bits 21:6 of the address.
    pub open spec fn spec_addroff(&self) -> u32 {
        (self.addr / 64) % 0x1_0000
    }
}

} // verus!
