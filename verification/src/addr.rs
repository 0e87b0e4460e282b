//! The address of the peer that sent a request.

use vstd::prelude::*;

verus! {

/// The socket address of a request's peer: an IPv4 address and port, or an
/// IPv6 address with port, flow information and scope.
#[derive(Debug, Copy, Clone, PartialEq, Eq)]
pub enum SocketAddress {
    V4 { octets: [u8; 4], port: u16 },
    V6 { segments: [u16; 8], port: u16, flowinfo: u32, scope_id: u32 },
}

impl SocketAddress {
    /// `127.0.0.1:0`, the address a request has until one is set.
    pub(crate) fn localhost() -> (r: Self)
        ensures
            r == (SocketAddress::V4 { octets: [127u8, 0u8, 0u8, 1u8], port: 0u16 }),
    {
        SocketAddress::V4 { octets: [127, 0, 0, 1], port: 0 }
    }
}

} // verus!
