//! Network endpoints, as plain values.
use crate::table::Key;
use vstd::prelude::*;

verus! {

/// An address: the number that its bytes stand for.
#[derive(Clone, Copy, Debug, PartialEq, Eq, Structural)]
pub enum IpAddress {
    V4(u32),
    V6(u128),
}

/// The address that a client sends from. Flow and scope are zero where the address is IPv4.
#[derive(Clone, Copy, Debug, PartialEq, Eq, Structural)]
pub struct PeerAddress {
    pub ip: IpAddress,
    pub port: u16,
    pub flowinfo: u32,
    pub scope_id: u32,
}

/// A client's address, with the local address that it sends to where that is known.
#[derive(Clone, Copy, Debug)]
pub struct EndpointKey {
    pub peer: PeerAddress,
    pub local_ip: Option<IpAddress>,
}

impl View for EndpointKey {
    type V = EndpointKey;

    open spec fn view(&self) -> EndpointKey {
        *self
    }
}

/// Whether two optional addresses are the same.
pub fn same_local_ip(left: Option<IpAddress>, right: Option<IpAddress>) -> (same: bool)
    ensures
        same == (left == right),
{
    match (left, right) {
        (None, None) => true,
        (Some(a), Some(b)) => a == b,
        _ => false,
    }
}

impl Key for EndpointKey {
    fn same(&self, other: &EndpointKey) -> (same: bool) {
        self.peer == other.peer && same_local_ip(self.local_ip, other.local_ip)
    }
}

impl EndpointKey {
    /// The endpoint of `peer` and `local_ip`.
    pub fn new(peer: PeerAddress, local_ip: Option<IpAddress>) -> (key: EndpointKey)
        ensures
            key == (EndpointKey { peer, local_ip }),
    {
        EndpointKey { peer, local_ip }
    }
}

/// Whether two tunnel addresses are the same.
pub fn same_tunnel_ip(left: [u8; 4], right: [u8; 4]) -> (same: bool)
    ensures
        same == (left == right),
{
    let same = left[0] == right[0] && left[1] == right[1] && left[2] == right[2] && left[3]
        == right[3];
    proof {
        if same {
            assert(left@ =~= right@);
            assert(left == right);
        }
    }
    same
}

} // verus!
