//! The packet parser: decodes a raw layer-3 byte buffer into the five-tuple
//! and the classification hints the engine needs, keeping the bytes for
//! re-emission. Fails on truncated headers or unsupported protocols.

use vstd::prelude::*;

use crate::net::{ConnectionId, IpAddress, NetEndpoint, TransportProtocol};

verus! {

/// Why a buffer failed to parse.
#[derive(Clone, Copy, Debug, PartialEq, Eq, Structural)]
pub enum ParseError {
    /// The buffer is too short for the headers it announces, or a header
    /// length field is malformed.
    Truncated,
    /// Not IPv4 or IPv6, or not TCP or UDP.
    UnsupportedProtocol,
}

/// Specification view of a parsed packet.
pub struct PacketView {
    /// The full, unmodified layer-3 bytes.
    pub data: Seq<u8>,
    pub proto: TransportProtocol,
    pub src: NetEndpoint,
    pub dst: NetEndpoint,
    pub payload_len: usize,
    /// The TCP flags byte; zero for UDP.
    pub tcp_flags: u8,
}

/// The two header bytes at `i` read big-endian.
pub open spec fn be16(s: Seq<u8>, i: int) -> u16 {
    ((s[i] as int) * 0x100 + (s[i + 1] as int)) as u16
}

/// The four header bytes at `i` read big-endian.
pub open spec fn be32(s: Seq<u8>, i: int) -> u32 {
    ((s[i] as int) * 0x1000000 + (s[i + 1] as int) * 0x10000 + (s[i + 2] as int) * 0x100 + (s[i
        + 3] as int)) as u32
}

/// The sixteen header bytes at `i` read big-endian.
pub open spec fn be128(s: Seq<u8>, i: int) -> u128 {
    ((be32(s, i) as int) * 0x1000000000000000000000000 + (be32(
        s,
        i + 4,
    ) as int) * 0x10000000000000000 + (be32(s, i + 8) as int) * 0x100000000 + (be32(
        s,
        i + 12,
    ) as int)) as u128
}

/// Parse the transport header at offset `off`, the IP fields already decoded.
pub open spec fn spec_parse_transport(
    s: Seq<u8>,
    off: int,
    proto: TransportProtocol,
    src_ip: IpAddress,
    dst_ip: IpAddress,
) -> Result<PacketView, ParseError> {
    match proto {
        TransportProtocol::Tcp => if s.len() < off + 20 {
            Err(ParseError::Truncated)
        } else {
            let doff = (s[off + 12] / 16) as int * 4;
            if doff < 20 || s.len() < off + doff {
                Err(ParseError::Truncated)
            } else {
                Ok(
                    PacketView {
                        data: s,
                        proto,
                        src: NetEndpoint { ip: src_ip, port: be16(s, off) },
                        dst: NetEndpoint { ip: dst_ip, port: be16(s, off + 2) },
                        payload_len: (s.len() - off - doff) as usize,
                        tcp_flags: s[off + 13],
                    },
                )
            }
        },
        TransportProtocol::Udp => if s.len() < off + 8 {
            Err(ParseError::Truncated)
        } else {
            Ok(
                PacketView {
                    data: s,
                    proto,
                    src: NetEndpoint { ip: src_ip, port: be16(s, off) },
                    dst: NetEndpoint { ip: dst_ip, port: be16(s, off + 2) },
                    payload_len: (s.len() - off - 8) as usize,
                    tcp_flags: 0,
                },
            )
        },
    }
}

/// Parse a raw layer-3 buffer: IPv4 or IPv6, then TCP or UDP.
pub open spec fn spec_parse(s: Seq<u8>) -> Result<PacketView, ParseError> {
    if s.len() == 0 {
        Err(ParseError::Truncated)
    } else {
        let version = s[0] / 16;
        if version == 4 {
            let header = (s[0] % 16) as int * 4;
            if header < 20 || s.len() < header {
                Err(ParseError::Truncated)
            } else {
                match TransportProtocol::spec_from_number(s[9]) {
                    Some(proto) => spec_parse_transport(
                        s,
                        header,
                        proto,
                        IpAddress::V4(be32(s, 12)),
                        IpAddress::V4(be32(s, 16)),
                    ),
                    None => Err(ParseError::UnsupportedProtocol),
                }
            }
        } else if version == 6 {
            if s.len() < 40 {
                Err(ParseError::Truncated)
            } else {
                match TransportProtocol::spec_from_number(s[6]) {
                    Some(proto) => spec_parse_transport(
                        s,
                        40,
                        proto,
                        IpAddress::V6(be128(s, 8)),
                        IpAddress::V6(be128(s, 24)),
                    ),
                    None => Err(ParseError::UnsupportedProtocol),
                }
            }
        } else {
            Err(ParseError::UnsupportedProtocol)
        }
    }
}

/// The connection id a parsed packet names.
pub open spec fn cid_of(p: PacketView) -> ConnectionId {
    ConnectionId { proto: p.proto, src: p.src, dst: p.dst }
}

/// Packets that are never classified: multicast on either side, or pure
/// loopback on both sides. They are re-injected unchanged.
pub open spec fn spec_bypass(p: PacketView) -> bool {
    p.src.ip.spec_is_multicast() || p.dst.ip.spec_is_multicast() || (p.src.ip.spec_is_loopback()
        && p.dst.ip.spec_is_loopback())
}

fn read_be16(data: &Vec<u8>, i: usize) -> (r: u16)
    requires
        i + 1 < data@.len(),
    ensures
        r == be16(data@, i as int),
{
    let n: usize = data.len();
    (data[i] as u16) * 0x100 + (data[i + 1] as u16)
}

fn read_be32(data: &Vec<u8>, i: usize) -> (r: u32)
    requires
        i + 3 < data@.len(),
    ensures
        r == be32(data@, i as int),
{
    let n: usize = data.len();
    (data[i] as u32) * 0x1000000 + (data[i + 1] as u32) * 0x10000 + (data[i + 2] as u32) * 0x100 + (
    data[i + 3] as u32)
}

fn read_be128(data: &Vec<u8>, i: usize) -> (r: u128)
    requires
        i + 15 < data@.len(),
    ensures
        r == be128(data@, i as int),
{
    let n: usize = data.len();
    (read_be32(data, i) as u128) * 0x1000000000000000000000000 + (read_be32(
        data,
        i + 4,
    ) as u128) * 0x10000000000000000 + (read_be32(data, i + 8) as u128) * 0x100000000 + (read_be32(
        data,
        i + 12,
    ) as u128)
}

/// A parsed network packet: the decoded five-tuple and hints, plus the
/// underlying bytes for re-emission.
#[derive(Debug)]
pub struct InternetPacket {
    pub data: Vec<u8>,
    pub proto: TransportProtocol,
    pub src: NetEndpoint,
    pub dst: NetEndpoint,
    pub payload_len: usize,
    pub tcp_flags: u8,
}

impl View for InternetPacket {
    type V = PacketView;

    open spec fn view(&self) -> PacketView {
        PacketView {
            data: self.data@,
            proto: self.proto,
            src: self.src,
            dst: self.dst,
            payload_len: self.payload_len,
            tcp_flags: self.tcp_flags,
        }
    }
}

impl InternetPacket {
    /// Decode the buffer's IP and transport headers, keeping the bytes.
    pub fn parse(data: Vec<u8>) -> (r: Result<InternetPacket, ParseError>)
        ensures
            match r {
                Ok(p) => spec_parse(data@) == Ok::<PacketView, ParseError>(p@) && p@.data == data@,
                Err(e) => spec_parse(data@) == Err::<PacketView, ParseError>(e),
            },
    {
        if data.len() == 0 {
            return Err(ParseError::Truncated);
        }
        let first = data[0];
        let version = first / 16;
        if version == 4 {
            let header: usize = (first % 16) as usize * 4;
            if header < 20 || data.len() < header {
                return Err(ParseError::Truncated);
            }
            let proto = match TransportProtocol::from_number(data[9]) {
                Some(p) => p,
                None => {
                    return Err(ParseError::UnsupportedProtocol);
                },
            };
            let src_ip = IpAddress::V4(read_be32(&data, 12));
            let dst_ip = IpAddress::V4(read_be32(&data, 16));
            Self::parse_transport(data, header, proto, src_ip, dst_ip)
        } else if version == 6 {
            if data.len() < 40 {
                return Err(ParseError::Truncated);
            }
            let proto = match TransportProtocol::from_number(data[6]) {
                Some(p) => p,
                None => {
                    return Err(ParseError::UnsupportedProtocol);
                },
            };
            let src_ip = IpAddress::V6(read_be128(&data, 8));
            let dst_ip = IpAddress::V6(read_be128(&data, 24));
            Self::parse_transport(data, 40, proto, src_ip, dst_ip)
        } else {
            Err(ParseError::UnsupportedProtocol)
        }
    }

    fn parse_transport(
        data: Vec<u8>,
        off: usize,
        proto: TransportProtocol,
        src_ip: IpAddress,
        dst_ip: IpAddress,
    ) -> (r: Result<InternetPacket, ParseError>)
        requires
            off <= 60,
        ensures
            match r {
                Ok(p) => spec_parse_transport(data@, off as int, proto, src_ip, dst_ip) == Ok::<
                    PacketView,
                    ParseError,
                >(p@) && p@.data == data@,
                Err(e) => spec_parse_transport(data@, off as int, proto, src_ip, dst_ip) == Err::<
                    PacketView,
                    ParseError,
                >(e),
            },
    {
        match proto {
            TransportProtocol::Tcp => {
                if data.len() < off + 20 {
                    return Err(ParseError::Truncated);
                }
                let doff: usize = (data[off + 12] / 16) as usize * 4;
                if doff < 20 || data.len() < off + doff {
                    return Err(ParseError::Truncated);
                }
                let src_port = read_be16(&data, off);
                let dst_port = read_be16(&data, off + 2);
                let payload_len = data.len() - off - doff;
                let tcp_flags = data[off + 13];
                Ok(
                    InternetPacket {
                        data,
                        proto,
                        src: NetEndpoint { ip: src_ip, port: src_port },
                        dst: NetEndpoint { ip: dst_ip, port: dst_port },
                        payload_len,
                        tcp_flags,
                    },
                )
            },
            TransportProtocol::Udp => {
                if data.len() < off + 8 {
                    return Err(ParseError::Truncated);
                }
                let src_port = read_be16(&data, off);
                let dst_port = read_be16(&data, off + 2);
                let payload_len = data.len() - off - 8;
                Ok(
                    InternetPacket {
                        data,
                        proto,
                        src: NetEndpoint { ip: src_ip, port: src_port },
                        dst: NetEndpoint { ip: dst_ip, port: dst_port },
                        payload_len,
                        tcp_flags: 0,
                    },
                )
            },
        }
    }

    /// The five-tuple this packet belongs to.
    pub fn connection_id(&self) -> (r: ConnectionId)
        ensures
            r == cid_of(self@),
    {
        ConnectionId { proto: self.proto, src: self.src, dst: self.dst }
    }

    /// Whether the packet bypasses classification (multicast or pure loopback).
    pub fn bypasses(&self) -> (r: bool)
        ensures
            r == spec_bypass(self@),
    {
        self.src.ip.is_multicast() || self.dst.ip.is_multicast() || (self.src.ip.is_loopback()
            && self.dst.ip.is_loopback())
    }

    /// The transport payload length in bytes.
    pub fn payload_len(&self) -> (r: usize)
        ensures
            r == self@.payload_len,
    {
        self.payload_len
    }

    /// The TCP flags byte (zero for UDP).
    pub fn tcp_flags(&self) -> (r: u8)
        ensures
            r == self@.tcp_flags,
    {
        self.tcp_flags
    }

    /// Give the underlying layer-3 bytes back for re-emission.
    pub fn into_data(self) -> (r: Vec<u8>)
        ensures
            r@ == self@.data,
    {
        self.data
    }
}

} // verus!
