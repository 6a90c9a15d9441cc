//! Value types naming a flow: transport protocol, IP addresses, endpoints and
//! the five-tuple connection id, plus the address classification predicates
//! (multicast, loopback) that decide which packets bypass the engine.

use vstd::prelude::*;

verus! {

/// Transport protocols the redirector handles; everything else is ignored.
#[derive(Clone, Copy, Debug, PartialEq, Eq, Structural)]
pub enum TransportProtocol {
    Tcp,
    Udp,
}

impl TransportProtocol {
    /// The IANA protocol number, also used as part of the table's cache key.
    pub open spec fn spec_number(self) -> u8 {
        match self {
            TransportProtocol::Tcp => 6,
            TransportProtocol::Udp => 17,
        }
    }

    /// Decode an IP protocol number; anything but TCP (6) and UDP (17) is unsupported.
    pub open spec fn spec_from_number(n: u8) -> Option<TransportProtocol> {
        if n == 6 {
            Some(TransportProtocol::Tcp)
        } else if n == 17 {
            Some(TransportProtocol::Udp)
        } else {
            None
        }
    }

    pub fn from_number(n: u8) -> (r: Option<TransportProtocol>)
        ensures
            r == Self::spec_from_number(n),
    {
        if n == 6 {
            Some(TransportProtocol::Tcp)
        } else if n == 17 {
            Some(TransportProtocol::Udp)
        } else {
            None
        }
    }
}

/// An IPv4 or IPv6 address held as its big-endian integer value.
#[derive(Clone, Copy, Debug, PartialEq, Eq, Structural)]
pub enum IpAddress {
    V4(u32),
    V6(u128),
}

impl IpAddress {
    /// Multicast ranges: 224.0.0.0/4 for IPv4, ff00::/8 for IPv6.
    pub open spec fn spec_is_multicast(self) -> bool {
        match self {
            IpAddress::V4(a) => a >> 28 == 0xe,
            IpAddress::V6(a) => a >> 120 == 0xff,
        }
    }

    pub fn is_multicast(&self) -> (r: bool)
        ensures
            r == self.spec_is_multicast(),
    {
        match self {
            IpAddress::V4(a) => (*a >> 28) == 0xe,
            IpAddress::V6(a) => (*a >> 120) == 0xff,
        }
    }

    /// Loopback: 127.0.0.0/8 for IPv4, ::1 for IPv6.
    pub open spec fn spec_is_loopback(self) -> bool {
        match self {
            IpAddress::V4(a) => a >> 24 == 127,
            IpAddress::V6(a) => a == 1,
        }
    }

    pub fn is_loopback(&self) -> (r: bool)
        ensures
            r == self.spec_is_loopback(),
    {
        match self {
            IpAddress::V4(a) => (*a >> 24) == 127,
            IpAddress::V6(a) => *a == 1,
        }
    }

    /// The IP version, used to keep v4 and v6 addresses distinct in cache keys.
    pub open spec fn spec_version(self) -> u8 {
        match self {
            IpAddress::V4(_) => 4,
            IpAddress::V6(_) => 6,
        }
    }

    /// The address bits widened to 128 bits.
    pub open spec fn spec_bits(self) -> u128 {
        match self {
            IpAddress::V4(a) => a as u128,
            IpAddress::V6(a) => a,
        }
    }
}

/// One side of a flow: an address and a port.
#[derive(Clone, Copy, Debug, PartialEq, Eq, Structural)]
pub struct NetEndpoint {
    pub ip: IpAddress,
    pub port: u16,
}

/// The five-tuple naming a flow: protocol, local (source) endpoint and
/// remote (destination) endpoint. Equality is exact.
#[derive(Clone, Copy, Debug, PartialEq, Eq, Structural)]
pub struct ConnectionId {
    pub proto: TransportProtocol,
    pub src: NetEndpoint,
    pub dst: NetEndpoint,
}

/// The connection-table key: every field of the five-tuple flattened into a
/// tuple of integers, whose ordering and equality std documents.
pub type CacheKey = (u8, u8, u128, u16, u8, u128, u16);

/// The cache key that stands for a connection id.
pub open spec fn key_of(c: ConnectionId) -> CacheKey {
    (
        c.proto.spec_number(),
        c.src.ip.spec_version(),
        c.src.ip.spec_bits(),
        c.src.port,
        c.dst.ip.spec_version(),
        c.dst.ip.spec_bits(),
        c.dst.port,
    )
}

/// Distinct connection ids have distinct cache keys, so the integer-keyed
/// cache faithfully represents a map over connection ids.
pub proof fn lemma_key_of_injective(a: ConnectionId, b: ConnectionId)
    ensures
        key_of(a) == key_of(b) ==> a == b,
{
}

impl ConnectionId {
    /// The counter-direction of the flow: local and remote swapped.
    pub open spec fn spec_reverse(self) -> ConnectionId {
        ConnectionId { proto: self.proto, src: self.dst, dst: self.src }
    }

    pub fn reverse(&self) -> (r: ConnectionId)
        ensures
            r == self.spec_reverse(),
    {
        ConnectionId { proto: self.proto, src: self.dst, dst: self.src }
    }

    /// Reversing twice gives the flow back.
    pub proof fn lemma_reverse_involutive(self)
        ensures
            self.spec_reverse().spec_reverse() == self,
    {
    }

    pub fn cache_key(&self) -> (r: CacheKey)
        ensures
            r == key_of(*self),
    {
        let pn: u8 = match self.proto {
            TransportProtocol::Tcp => 6,
            TransportProtocol::Udp => 17,
        };
        let (sv, sb): (u8, u128) = match self.src.ip {
            IpAddress::V4(a) => (4, a as u128),
            IpAddress::V6(a) => (6, a),
        };
        let (dv, db): (u8, u128) = match self.dst.ip {
            IpAddress::V4(a) => (4, a as u128),
            IpAddress::V6(a) => (6, a),
        };
        (pn, sv, sb, self.src.port, dv, db, self.dst.port)
    }
}

} // verus!
