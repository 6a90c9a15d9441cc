use windows_redirector::engine::{EntryStatus, Redirector};
use windows_redirector::events::{
    ConnectionAction, Event, Output, PacketMetadata, SocketEventKind, SocketMetadata,
};
use windows_redirector::net::{ConnectionId, IpAddress, NetEndpoint, TransportProtocol};

fn meta_out() -> PacketMetadata {
    PacketMetadata {
        outbound: true,
        loopback: false,
        ip_checksum: true,
        tcp_checksum: true,
        udp_checksum: true,
    }
}

fn meta_in() -> PacketMetadata {
    PacketMetadata {
        outbound: false,
        loopback: false,
        ip_checksum: true,
        tcp_checksum: true,
        udp_checksum: true,
    }
}

fn ep(ip: [u8; 4], port: u16) -> NetEndpoint {
    NetEndpoint { ip: IpAddress::V4(u32::from_be_bytes(ip)), port }
}

fn tcp_cid(src: [u8; 4], sport: u16, dst: [u8; 4], dport: u16) -> ConnectionId {
    ConnectionId { proto: TransportProtocol::Tcp, src: ep(src, sport), dst: ep(dst, dport) }
}

/// A minimal IPv4+TCP packet: 20-byte IP header, 20-byte TCP header, payload.
fn ipv4_tcp(src: [u8; 4], sport: u16, dst: [u8; 4], dport: u16, payload: &[u8]) -> Vec<u8> {
    let mut b = vec![0u8; 40];
    b[0] = 0x45;
    b[9] = 6;
    b[12..16].copy_from_slice(&src);
    b[16..20].copy_from_slice(&dst);
    b[20..22].copy_from_slice(&sport.to_be_bytes());
    b[22..24].copy_from_slice(&dport.to_be_bytes());
    b[32] = 5 << 4; // data offset: 5 words
    b[33] = 0x18; // PSH|ACK
    b.extend_from_slice(payload);
    b
}

fn connect(pid: u32, local: NetEndpoint, remote: NetEndpoint) -> Event {
    Event::Socket(
        SocketEventKind::Connect,
        SocketMetadata { process_id: pid, protocol: 6, local, remote },
    )
}

#[test]
fn pending_then_resolve_intercept() {
    let mut rd = Redirector::new();
    assert!(rd.handle_event(Event::InterceptInclude(vec![1000])).is_empty());
    let pkt = ipv4_tcp([10, 0, 0, 1], 5000, [1, 2, 3, 4], 443, b"A");
    let outs = rd.handle_event(Event::NetworkPacket(meta_out(), pkt.clone()));
    assert!(outs.is_empty());
    let outs = rd.handle_event(connect(1000, ep([10, 0, 0, 1], 5000), ep([1, 2, 3, 4], 443)));
    assert_eq!(outs.len(), 1);
    match &outs[0] {
        Output::Forward(bytes) => assert_eq!(bytes, &pkt),
        other => panic!("expected a forwarded packet, got {:?}", other),
    }
    let fwd = tcp_cid([10, 0, 0, 1], 5000, [1, 2, 3, 4], 443);
    assert_eq!(
        rd.entry_status(&fwd),
        Some(EntryStatus::Resolved(ConnectionAction::Intercept))
    );
    assert_eq!(
        rd.entry_status(&fwd.reverse()),
        Some(EntryStatus::Resolved(ConnectionAction::Pass))
    );
}

#[test]
fn pending_then_resolve_pass() {
    let mut rd = Redirector::new();
    assert!(rd.handle_event(Event::InterceptInclude(vec![1000])).is_empty());
    let pkt = ipv4_tcp([10, 0, 0, 1], 5000, [1, 2, 3, 4], 443, b"A");
    let outs = rd.handle_event(Event::NetworkPacket(meta_out(), pkt.clone()));
    assert!(outs.is_empty());
    let outs = rd.handle_event(connect(2000, ep([10, 0, 0, 1], 5000), ep([1, 2, 3, 4], 443)));
    assert_eq!(outs.len(), 1);
    match &outs[0] {
        Output::Inject(meta, bytes) => {
            assert_eq!(bytes, &pkt);
            assert_eq!(*meta, meta_out());
        },
        other => panic!("expected an injected packet, got {:?}", other),
    }
    let fwd = tcp_cid([10, 0, 0, 1], 5000, [1, 2, 3, 4], 443);
    assert_eq!(
        rd.entry_status(&fwd),
        Some(EntryStatus::Resolved(ConnectionAction::Pass))
    );
    assert_eq!(
        rd.entry_status(&fwd.reverse()),
        Some(EntryStatus::Resolved(ConnectionAction::Pass))
    );
}

#[test]
fn order_preservation_across_drain() {
    let mut rd = Redirector::new();
    rd.handle_event(Event::InterceptInclude(vec![1000]));
    let p1 = ipv4_tcp([10, 0, 0, 1], 5000, [1, 2, 3, 4], 443, b"one");
    let p2 = ipv4_tcp([10, 0, 0, 1], 5000, [1, 2, 3, 4], 443, b"two");
    let p3 = ipv4_tcp([10, 0, 0, 1], 5000, [1, 2, 3, 4], 443, b"three");
    for p in [&p1, &p2, &p3] {
        assert!(rd.handle_event(Event::NetworkPacket(meta_out(), p.clone())).is_empty());
    }
    let fwd = tcp_cid([10, 0, 0, 1], 5000, [1, 2, 3, 4], 443);
    assert_eq!(rd.entry_status(&fwd), Some(EntryStatus::Waiting(3)));
    let outs = rd.handle_event(connect(1000, ep([10, 0, 0, 1], 5000), ep([1, 2, 3, 4], 443)));
    assert_eq!(outs.len(), 3);
    let expected = [&p1, &p2, &p3];
    for (o, e) in outs.iter().zip(expected.iter()) {
        match o {
            Output::Forward(bytes) => assert_eq!(&bytes, e),
            other => panic!("expected a forwarded packet, got {:?}", other),
        }
    }
}

#[test]
fn multicast_bypass() {
    let mut rd = Redirector::new();
    let pkt = ipv4_tcp([10, 0, 0, 1], 5000, [224, 0, 0, 1], 443, b"A");
    let outs = rd.handle_event(Event::NetworkPacket(meta_out(), pkt.clone()));
    assert_eq!(outs.len(), 1);
    match &outs[0] {
        Output::Inject(meta, bytes) => {
            assert_eq!(bytes, &pkt);
            assert_eq!(*meta, meta_out());
        },
        other => panic!("expected an injected packet, got {:?}", other),
    }
    let cid = tcp_cid([10, 0, 0, 1], 5000, [224, 0, 0, 1], 443);
    assert_eq!(rd.entry_status(&cid), None);
}

#[test]
fn loopback_bypass() {
    let mut rd = Redirector::new();
    let pkt = ipv4_tcp([127, 0, 0, 1], 5000, [127, 0, 0, 1], 443, b"A");
    let outs = rd.handle_event(Event::NetworkPacket(meta_out(), pkt.clone()));
    assert_eq!(outs.len(), 1);
    assert!(matches!(&outs[0], Output::Inject(_, bytes) if bytes == &pkt));
    let cid = tcp_cid([127, 0, 0, 1], 5000, [127, 0, 0, 1], 443);
    assert_eq!(rd.entry_status(&cid), None);
}

#[test]
fn policy_replacement_mid_flight() {
    let mut rd = Redirector::new();
    let pkt = ipv4_tcp([10, 0, 0, 1], 5000, [1, 2, 3, 4], 443, b"A");
    assert!(rd.handle_event(Event::NetworkPacket(meta_out(), pkt.clone())).is_empty());
    assert!(rd.handle_event(Event::InterceptInclude(vec![1000])).is_empty());
    let outs = rd.handle_event(connect(1000, ep([10, 0, 0, 1], 5000), ep([1, 2, 3, 4], 443)));
    assert_eq!(outs.len(), 1);
    assert!(matches!(&outs[0], Output::Forward(bytes) if bytes == &pkt));
}

#[test]
fn close_clears_buffer_but_keeps_entry() {
    let mut rd = Redirector::new();
    let pkt = ipv4_tcp([10, 0, 0, 1], 5000, [1, 2, 3, 4], 443, b"A");
    assert!(rd.handle_event(Event::NetworkPacket(meta_out(), pkt)).is_empty());
    let fwd = tcp_cid([10, 0, 0, 1], 5000, [1, 2, 3, 4], 443);
    assert_eq!(rd.entry_status(&fwd), Some(EntryStatus::Waiting(1)));
    let outs = rd.handle_event(Event::Socket(
        SocketEventKind::Close,
        SocketMetadata {
            process_id: 1234,
            protocol: 6,
            local: ep([10, 0, 0, 1], 5000),
            remote: ep([1, 2, 3, 4], 443),
        },
    ));
    assert!(outs.is_empty());
    assert_eq!(rd.entry_status(&fwd), Some(EntryStatus::Waiting(0)));
}

#[test]
fn kernel_pid_socket_events_ignored() {
    let mut rd = Redirector::new();
    let outs = rd.handle_event(connect(4, ep([10, 0, 0, 1], 5000), ep([1, 2, 3, 4], 443)));
    assert!(outs.is_empty());
    let fwd = tcp_cid([10, 0, 0, 1], 5000, [1, 2, 3, 4], 443);
    assert_eq!(rd.entry_status(&fwd), None);
    assert_eq!(rd.entry_status(&fwd.reverse()), None);
}

#[test]
fn known_entry_is_terminal() {
    let mut rd = Redirector::new();
    rd.handle_event(Event::InterceptInclude(vec![1000]));
    let local = ep([10, 0, 0, 1], 5000);
    let remote = ep([1, 2, 3, 4], 443);
    rd.handle_event(connect(1000, local, remote));
    let fwd = tcp_cid([10, 0, 0, 1], 5000, [1, 2, 3, 4], 443);
    assert_eq!(
        rd.entry_status(&fwd),
        Some(EntryStatus::Resolved(ConnectionAction::Intercept))
    );
    // a later connect under another pid does not re-resolve the entry
    rd.handle_event(Event::InterceptInclude(vec![]));
    let outs = rd.handle_event(connect(2000, local, remote));
    assert!(outs.is_empty());
    assert_eq!(
        rd.entry_status(&fwd),
        Some(EntryStatus::Resolved(ConnectionAction::Intercept))
    );
}

#[test]
fn return_path_not_intercepted() {
    let mut rd = Redirector::new();
    rd.handle_event(Event::InterceptInclude(vec![1000]));
    rd.handle_event(connect(1000, ep([10, 0, 0, 1], 5000), ep([1, 2, 3, 4], 443)));
    // a response packet on the reversed flow is re-injected, not forwarded
    let response = ipv4_tcp([1, 2, 3, 4], 443, [10, 0, 0, 1], 5000, b"R");
    let outs = rd.handle_event(Event::NetworkPacket(meta_in(), response.clone()));
    assert_eq!(outs.len(), 1);
    assert!(matches!(&outs[0], Output::Inject(_, bytes) if bytes == &response));
}

#[test]
fn inject_request_round_trip() {
    let mut rd = Redirector::new();
    let payload = vec![1u8, 2, 3, 4, 5];
    let outs = rd.handle_event(Event::InjectRequest(payload.clone()));
    assert_eq!(outs.len(), 1);
    match &outs[0] {
        Output::Inject(meta, bytes) => {
            assert_eq!(bytes, &payload);
            assert!(meta.outbound);
            assert!(!meta.ip_checksum);
            assert!(!meta.tcp_checksum);
            assert!(!meta.udp_checksum);
        },
        other => panic!("expected an injected packet, got {:?}", other),
    }
}

#[test]
fn new_inbound_flow_placeholder() {
    let mut rd = Redirector::new();
    let pkt = ipv4_tcp([9, 9, 9, 9], 80, [10, 0, 0, 1], 5000, b"hello");
    let outs = rd.handle_event(Event::NetworkPacket(meta_in(), pkt.clone()));
    assert_eq!(outs.len(), 1);
    assert!(matches!(&outs[0], Output::Forward(bytes) if bytes == &pkt));
    let fwd = tcp_cid([9, 9, 9, 9], 80, [10, 0, 0, 1], 5000);
    assert_eq!(
        rd.entry_status(&fwd),
        Some(EntryStatus::Resolved(ConnectionAction::Intercept))
    );
    assert_eq!(
        rd.entry_status(&fwd.reverse()),
        Some(EntryStatus::Resolved(ConnectionAction::Pass))
    );
}

#[test]
fn unparseable_packet_dropped() {
    let mut rd = Redirector::new();
    let outs = rd.handle_event(Event::NetworkPacket(meta_out(), vec![0x45, 0x00]));
    assert!(outs.is_empty());
}

#[test]
fn multicast_socket_event_ignored() {
    let mut rd = Redirector::new();
    rd.handle_event(Event::InterceptExclude(vec![]));
    let outs = rd.handle_event(connect(1000, ep([10, 0, 0, 1], 5000), ep([224, 0, 0, 7], 443)));
    assert!(outs.is_empty());
    let cid = tcp_cid([10, 0, 0, 1], 5000, [224, 0, 0, 7], 443);
    assert_eq!(rd.entry_status(&cid), None);
}

#[test]
fn exclude_policy_intercepts_unlisted() {
    let mut rd = Redirector::new();
    rd.handle_event(Event::InterceptExclude(vec![2000]));
    let pkt = ipv4_tcp([10, 0, 0, 1], 5000, [1, 2, 3, 4], 443, b"A");
    rd.handle_event(Event::NetworkPacket(meta_out(), pkt.clone()));
    let outs = rd.handle_event(connect(1000, ep([10, 0, 0, 1], 5000), ep([1, 2, 3, 4], 443)));
    assert_eq!(outs.len(), 1);
    assert!(matches!(&outs[0], Output::Forward(bytes) if bytes == &pkt));
}
