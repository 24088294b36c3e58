//! Addresses of peers: an IP address of either family and a port, with the
//! order in which addresses are compared.

use vstd::prelude::*;

verus! {

/// An IP address, of either family, as one number in network order: the first
/// octet is the most significant byte.
#[derive(Clone, Copy, Debug, PartialEq, Eq, Structural, Hash)]
pub enum IpAddress {
    V4(u32),
    V6(u128),
}

/// The address of a peer: an IP address and a port. A peer is identified by it.
#[derive(Clone, Copy, Debug, PartialEq, Eq, Structural, Hash)]
pub struct PeerAddress {
    pub ip: IpAddress,
    pub port: u16,
}

/// The IPv4 address `a.b.c.d` as a number.
pub open spec fn ipv4_number(a: u8, b: u8, c: u8, d: u8) -> int {
    a as int * 0x100_0000 + b as int * 0x1_0000 + c as int * 0x100 + d as int
}

impl IpAddress {
    /// An address of the loopback range: `127.0.0.0/8`, or `::1`.
    pub open spec fn spec_is_loopback(self) -> bool {
        match self {
            IpAddress::V4(n) => 0x7f00_0000 <= n <= 0x7fff_ffff,
            IpAddress::V6(n) => n == 1,
        }
    }

    /// The address that stands for no address: `0.0.0.0`, or `::`.
    pub open spec fn spec_is_unspecified(self) -> bool {
        match self {
            IpAddress::V4(n) => n == 0,
            IpAddress::V6(n) => n == 0,
        }
    }

    /// The order of addresses: every IPv4 address comes before every IPv6
    /// address, and within a family the numbers decide.
    pub open spec fn spec_lt(self, other: IpAddress) -> bool {
        match (self, other) {
            (IpAddress::V4(a), IpAddress::V4(b)) => a < b,
            (IpAddress::V4(_), IpAddress::V6(_)) => true,
            (IpAddress::V6(_), IpAddress::V4(_)) => false,
            (IpAddress::V6(a), IpAddress::V6(b)) => a < b,
        }
    }

    pub fn is_loopback(&self) -> (r: bool)
        ensures
            r == self.spec_is_loopback(),
    {
        match *self {
            IpAddress::V4(n) => 0x7f00_0000 <= n && n <= 0x7fff_ffff,
            IpAddress::V6(n) => n == 1,
        }
    }

    pub fn is_unspecified(&self) -> (r: bool)
        ensures
            r == self.spec_is_unspecified(),
    {
        match *self {
            IpAddress::V4(n) => n == 0,
            IpAddress::V6(n) => n == 0,
        }
    }

    pub fn lt(&self, other: &IpAddress) -> (r: bool)
        ensures
            r == self.spec_lt(*other),
    {
        match (*self, *other) {
            (IpAddress::V4(a), IpAddress::V4(b)) => a < b,
            (IpAddress::V4(_), IpAddress::V6(_)) => true,
            (IpAddress::V6(_), IpAddress::V4(_)) => false,
            (IpAddress::V6(a), IpAddress::V6(b)) => a < b,
        }
    }
}

impl PeerAddress {
    /// The order of peer addresses: by IP address first, then by port.
    pub open spec fn spec_lt(self, other: PeerAddress) -> bool {
        self.ip.spec_lt(other.ip) || (self.ip == other.ip && self.port < other.port)
    }

    pub fn new(ip: IpAddress, port: u16) -> (r: PeerAddress)
        ensures
            r == (PeerAddress { ip, port }),
    {
        PeerAddress { ip, port }
    }

    /// The address `a.b.c.d:port`.
    pub fn new_v4(a: u8, b: u8, c: u8, d: u8, port: u16) -> (r: PeerAddress)
        ensures
            r.port == port,
            r.ip == IpAddress::V4(ipv4_number(a, b, c, d) as u32),
            ipv4_number(a, b, c, d) <= u32::MAX,
    {
        let n: u32 = (a as u32) * 0x100_0000 + (b as u32) * 0x1_0000 + (c as u32) * 0x100 + (
        d as u32);
        PeerAddress { ip: IpAddress::V4(n), port }
    }

    pub fn ip(&self) -> (r: IpAddress)
        ensures
            r == self.ip,
    {
        self.ip
    }

    pub fn port(&self) -> (r: u16)
        ensures
            r == self.port,
    {
        self.port
    }

    pub fn lt(&self, other: &PeerAddress) -> (r: bool)
        ensures
            r == self.spec_lt(*other),
    {
        self.ip.lt(&other.ip) || (self.ip == other.ip && self.port < other.port)
    }
}

/// Of two different addresses exactly one comes before the other, and none
/// comes before itself.
pub proof fn address_order_is_total(a: PeerAddress, b: PeerAddress)
    ensures
        !a.spec_lt(a),
        a != b ==> (a.spec_lt(b) != b.spec_lt(a)),
        a == b ==> !a.spec_lt(b) && !b.spec_lt(a),
{
}

} // verus!
