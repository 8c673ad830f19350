//! Datagrams for discovery by broadcast.
use vstd::prelude::*;

verus! {

/// A datagram sent to the discovery group.
pub enum UDPRequest {
    Discovery,
    Other,
}

/// An answer to a discovery datagram.
pub enum UDPResponse {
    Discovery,
    Other,
}

} // verus!
