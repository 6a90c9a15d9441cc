use windows_redirector::net::{ConnectionId, IpAddress, NetEndpoint, TransportProtocol};
use windows_redirector::packet::{InternetPacket, ParseError};
use windows_redirector::policy::Policy;

fn ipv4_packet(proto: u8, src: [u8; 4], dst: [u8; 4], transport: &[u8]) -> Vec<u8> {
    let mut b = vec![0u8; 20];
    b[0] = 0x45;
    b[9] = proto;
    b[12..16].copy_from_slice(&src);
    b[16..20].copy_from_slice(&dst);
    b.extend_from_slice(transport);
    b
}

fn tcp_header(sport: u16, dport: u16, flags: u8, payload: &[u8]) -> Vec<u8> {
    let mut t = vec![0u8; 20];
    t[0..2].copy_from_slice(&sport.to_be_bytes());
    t[2..4].copy_from_slice(&dport.to_be_bytes());
    t[12] = 5 << 4;
    t[13] = flags;
    t.extend_from_slice(payload);
    t
}

fn udp_header(sport: u16, dport: u16, payload: &[u8]) -> Vec<u8> {
    let mut t = vec![0u8; 8];
    t[0..2].copy_from_slice(&sport.to_be_bytes());
    t[2..4].copy_from_slice(&dport.to_be_bytes());
    t.extend_from_slice(payload);
    t
}

#[test]
fn parse_ipv4_tcp_fields() {
    let bytes = ipv4_packet(6, [10, 0, 0, 1], [1, 2, 3, 4], &tcp_header(5000, 443, 0x18, b"AB"));
    let p = InternetPacket::parse(bytes.clone()).unwrap();
    assert_eq!(p.proto, TransportProtocol::Tcp);
    assert_eq!(p.src.ip, IpAddress::V4(u32::from_be_bytes([10, 0, 0, 1])));
    assert_eq!(p.src.port, 5000);
    assert_eq!(p.dst.ip, IpAddress::V4(u32::from_be_bytes([1, 2, 3, 4])));
    assert_eq!(p.dst.port, 443);
    assert_eq!(p.payload_len, 2);
    assert_eq!(p.tcp_flags, 0x18);
    assert_eq!(p.into_data(), bytes);
}

#[test]
fn parse_ipv4_udp_fields() {
    let bytes = ipv4_packet(17, [192, 168, 0, 2], [8, 8, 8, 8], &udp_header(1234, 53, b"query"));
    let p = InternetPacket::parse(bytes).unwrap();
    assert_eq!(p.proto, TransportProtocol::Udp);
    assert_eq!(p.src.port, 1234);
    assert_eq!(p.dst.port, 53);
    assert_eq!(p.payload_len, 5);
    assert_eq!(p.tcp_flags, 0);
}

#[test]
fn parse_ipv6_udp_fields() {
    let src = [0x20u8, 0x01, 0, 0, 0, 0, 0, 0, 0, 0, 0, 0, 0, 0, 0, 1];
    let dst = [0x20u8, 0x01, 0, 0, 0, 0, 0, 0, 0, 0, 0, 0, 0, 0, 0, 2];
    let mut b = vec![0u8; 40];
    b[0] = 0x60;
    b[6] = 17;
    b[8..24].copy_from_slice(&src);
    b[24..40].copy_from_slice(&dst);
    b.extend_from_slice(&udp_header(40000, 443, b"xyz"));
    let p = InternetPacket::parse(b).unwrap();
    assert_eq!(p.proto, TransportProtocol::Udp);
    assert_eq!(p.src.ip, IpAddress::V6(u128::from_be_bytes(src)));
    assert_eq!(p.dst.ip, IpAddress::V6(u128::from_be_bytes(dst)));
    assert_eq!(p.src.port, 40000);
    assert_eq!(p.dst.port, 443);
    assert_eq!(p.payload_len, 3);
}

#[test]
fn parse_truncated_errors() {
    assert_eq!(InternetPacket::parse(vec![]).unwrap_err(), ParseError::Truncated);
    assert_eq!(InternetPacket::parse(vec![0x45, 0, 0]).unwrap_err(), ParseError::Truncated);
    // IPv4 header complete but TCP header missing
    let short = ipv4_packet(6, [10, 0, 0, 1], [1, 2, 3, 4], &[0u8; 10]);
    assert_eq!(InternetPacket::parse(short).unwrap_err(), ParseError::Truncated);
    // IPv6 header truncated
    let mut v6 = vec![0u8; 30];
    v6[0] = 0x60;
    assert_eq!(InternetPacket::parse(v6).unwrap_err(), ParseError::Truncated);
}

#[test]
fn parse_unsupported_protocol_errors() {
    // ICMP inside IPv4
    let icmp = ipv4_packet(1, [10, 0, 0, 1], [1, 2, 3, 4], &[0u8; 8]);
    assert_eq!(InternetPacket::parse(icmp).unwrap_err(), ParseError::UnsupportedProtocol);
    // bogus IP version
    let mut bogus = vec![0u8; 40];
    bogus[0] = 0x50;
    assert_eq!(InternetPacket::parse(bogus).unwrap_err(), ParseError::UnsupportedProtocol);
}

#[test]
fn bypass_hints() {
    let mcast = ipv4_packet(6, [10, 0, 0, 1], [239, 0, 0, 1], &tcp_header(1, 2, 0, b""));
    assert!(InternetPacket::parse(mcast).unwrap().bypasses());
    let loopb = ipv4_packet(6, [127, 0, 0, 1], [127, 0, 0, 2], &tcp_header(1, 2, 0, b""));
    assert!(InternetPacket::parse(loopb).unwrap().bypasses());
    // loopback on one side only is classified normally
    let half = ipv4_packet(6, [127, 0, 0, 1], [10, 0, 0, 1], &tcp_header(1, 2, 0, b""));
    assert!(!InternetPacket::parse(half).unwrap().bypasses());
    let plain = ipv4_packet(6, [10, 0, 0, 1], [1, 2, 3, 4], &tcp_header(1, 2, 0, b""));
    assert!(!InternetPacket::parse(plain).unwrap().bypasses());
}

#[test]
fn reverse_swaps_and_is_involutive() {
    let cid = ConnectionId {
        proto: TransportProtocol::Udp,
        src: NetEndpoint { ip: IpAddress::V4(1), port: 10 },
        dst: NetEndpoint { ip: IpAddress::V6(2), port: 20 },
    };
    let rev = cid.reverse();
    assert_eq!(rev.src, cid.dst);
    assert_eq!(rev.dst, cid.src);
    assert_eq!(rev.proto, cid.proto);
    assert_eq!(rev.reverse(), cid);
}

#[test]
fn default_policy_intercepts_nothing() {
    let p = Policy::default_policy();
    assert!(!p.should_intercept(0));
    assert!(!p.should_intercept(1000));
}

#[test]
fn policy_lists_decide_interception() {
    let inc = Policy::InterceptInclude(vec![3, 5]);
    assert!(inc.should_intercept(3));
    assert!(inc.should_intercept(5));
    assert!(!inc.should_intercept(4));
    let exc = Policy::InterceptExclude(vec![3]);
    assert!(!exc.should_intercept(3));
    assert!(exc.should_intercept(4));
}

#[test]
fn protocol_numbers_decode() {
    assert_eq!(TransportProtocol::from_number(6), Some(TransportProtocol::Tcp));
    assert_eq!(TransportProtocol::from_number(17), Some(TransportProtocol::Udp));
    assert_eq!(TransportProtocol::from_number(1), None);
}
