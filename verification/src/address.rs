use vstd::prelude::*;

verus! {

/// What the request history knows a remote address by: the address family
/// (4 or 6) and the address bits.
pub type AddressKey = (u8, u128);

/// An IP address, as the integer that its bytes spell in network order.
#[derive(Debug, Clone, Copy, PartialEq, Eq, Structural)]
pub enum IpAddr {
    V4(u32),
    V6(u128),
}

impl IpAddr {
    /// The key of the address. An IPv4 address and an IPv6 address never share one.
    pub open spec fn spec_key(self) -> AddressKey {
        match self {
            IpAddr::V4(bits) => (4u8, bits as u128),
            IpAddr::V6(bits) => (6u8, bits),
        }
    }

    /// The key of the address.
    pub fn key(&self) -> (key: AddressKey)
        ensures
            key == self.spec_key(),
    {
        match *self {
            IpAddr::V4(bits) => (4u8, bits as u128),
            IpAddr::V6(bits) => (6u8, bits),
        }
    }
}

/// Where a request came from.
#[derive(Debug, Clone, Copy, PartialEq, Eq, Structural)]
pub struct SocketAddr {
    pub ip: IpAddr,
    pub port: u16,
}

impl SocketAddr {
    pub fn new(ip: IpAddr, port: u16) -> (addr: SocketAddr)
        ensures
            addr == (SocketAddr { ip, port }),
    {
        SocketAddr { ip, port }
    }

    /// The address without the port.
    pub fn ip(&self) -> (ip: IpAddr)
        ensures
            ip == self.ip,
    {
        self.ip
    }
}

} // verus!
