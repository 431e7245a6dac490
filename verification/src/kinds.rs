//! Kinds of endpoint, what an endpoint answers, and the errors of a transfer.
use vstd::prelude::*;

verus! {

/// The transfer type of an endpoint.
#[derive(Clone, Copy, Debug, PartialEq, Eq, Structural)]
pub enum EndpointType {
    Control,
    Isochronous,
    Bulk,
    Interrupt,
}

impl EndpointType {
    /// The two bits that encode the type.
    #[verifier::allow_in_spec]
    pub fn bits(self) -> u8
        returns
            (match self {
                EndpointType::Bulk => 0u8,
                EndpointType::Control => 1u8,
                EndpointType::Isochronous => 2u8,
                EndpointType::Interrupt => 3u8,
            }),
    {
        match self {
            EndpointType::Bulk => 0,
            EndpointType::Control => 1,
            EndpointType::Isochronous => 2,
            EndpointType::Interrupt => 3,
        }
    }
}

/// How an endpoint answers the host, in the order of its two-bit encoding.
#[derive(Clone, Copy, Debug, PartialEq, Eq, Structural)]
pub enum EndpointStatus {
    Disabled,
    Stall,
    Nak,
    Valid,
}

impl From<u8> for EndpointStatus {
    /// Decodes a status; a value of more than two bits stands for a disabled endpoint.
    fn from(v: u8) -> (status: EndpointStatus) {
        if v == 1 {
            EndpointStatus::Stall
        } else if v == 2 {
            EndpointStatus::Nak
        } else if v == 3 {
            EndpointStatus::Valid
        } else {
            EndpointStatus::Disabled
        }
    }
}

impl vstd::std_specs::convert::FromSpecImpl<u8> for EndpointStatus {
    open spec fn obeys_from_spec() -> bool {
        true
    }

    open spec fn from_spec(v: u8) -> EndpointStatus {
        match v {
            1 => EndpointStatus::Stall,
            2 => EndpointStatus::Nak,
            3 => EndpointStatus::Valid,
            _ => EndpointStatus::Disabled,
        }
    }
}

/// Why a transfer did not take place.
#[derive(Clone, Copy, Debug, PartialEq, Eq, Structural)]
pub enum UsbError {
    /// The endpoint is not set up for the transfer, or there is nothing to transfer yet.
    WouldBlock,
    /// The packet does not fit the endpoint's buffer.
    BufferOverflow,
}

} // verus!
