//! Network endpoints as plain values: an IP address and a port.
use vstd::prelude::*;

verus! {

/// An IP address, held as its numeric value.
#[derive(Clone, Copy, Debug, PartialEq, Eq, Hash, Structural)]
pub enum IpAddress {
    /// An IPv4 address, most significant octet first.
    V4(u32),
    /// An IPv6 address, most significant segment first.
    V6(u128),
}

/// An IP address and a TCP port.
#[derive(Clone, Copy, Debug, PartialEq, Eq, Hash, Structural)]
pub struct Endpoint {
    pub ip: IpAddress,
    pub port: u16,
}

impl Endpoint {
    pub fn new(ip: IpAddress, port: u16) -> (r: Endpoint)
        ensures
            r.ip == ip,
            r.port == port,
    {
        Endpoint { ip, port }
    }
}

} // verus!
