//! The value types flowing through the engine: packet arrival metadata,
//! socket lifecycle events, the merged event union, the engine's outputs,
//! and the per-connection classification state.

use vstd::prelude::*;

use crate::net::NetEndpoint;
use crate::packet::{InternetPacket, PacketView};

verus! {

/// Arrival metadata of a network-layer packet, as the diverter reports it:
/// direction, loopback flag and checksum-validity flags.
#[derive(Clone, Copy, Debug, PartialEq, Eq, Structural)]
pub struct PacketMetadata {
    pub outbound: bool,
    pub loopback: bool,
    pub ip_checksum: bool,
    pub tcp_checksum: bool,
    pub udp_checksum: bool,
}

/// The metadata synthesised for packets handed back by the controller:
/// outbound, with every checksum-valid flag cleared so the kernel recomputes.
pub open spec fn synthesized_metadata() -> PacketMetadata {
    PacketMetadata {
        outbound: true,
        loopback: false,
        ip_checksum: false,
        tcp_checksum: false,
        udp_checksum: false,
    }
}

impl PacketMetadata {
    pub fn synthesized() -> (r: PacketMetadata)
        ensures
            r == synthesized_metadata(),
    {
        PacketMetadata {
            outbound: true,
            loopback: false,
            ip_checksum: false,
            tcp_checksum: false,
            udp_checksum: false,
        }
    }
}

/// The socket lifecycle events the engine reacts to; everything else is `Other`.
#[derive(Clone, Copy, Debug, PartialEq, Eq, Structural)]
pub enum SocketEventKind {
    Connect,
    Accept,
    Close,
    Other,
}

/// A socket-layer event: process identity plus the flow's raw protocol number
/// and both endpoints. The protocol arrives undecoded, as the kernel gives it.
#[derive(Clone, Copy, Debug, PartialEq, Eq, Structural)]
pub struct SocketMetadata {
    pub process_id: u32,
    pub protocol: u8,
    pub local: NetEndpoint,
    pub remote: NetEndpoint,
}

/// What a resolved connection does with its packets.
#[derive(Clone, Copy, Debug, PartialEq, Eq, Structural)]
pub enum ConnectionAction {
    /// Re-inject unchanged into the kernel.
    Pass,
    /// Forward to the controller.
    Intercept,
}

/// A packet held back until its connection's identity is known.
#[derive(Debug)]
pub struct BufferedPacket {
    pub meta: PacketMetadata,
    pub packet: InternetPacket,
}

/// Specification view of a buffered packet.
pub struct BufferedPacketView {
    pub meta: PacketMetadata,
    pub packet: PacketView,
}

impl View for BufferedPacket {
    type V = BufferedPacketView;

    open spec fn view(&self) -> BufferedPacketView {
        BufferedPacketView { meta: self.meta, packet: self.packet@ }
    }
}

/// Classification state of one connection: resolved with an action, or
/// awaiting a socket event with an ordered buffer of early packets.
#[derive(Debug)]
pub enum ConnectionState {
    Known(ConnectionAction),
    Pending(Vec<BufferedPacket>),
}

/// Specification view of a connection entry.
pub enum EntryView {
    Known(ConnectionAction),
    Pending(Seq<BufferedPacketView>),
}

impl View for ConnectionState {
    type V = EntryView;

    open spec fn view(&self) -> EntryView {
        match self {
            ConnectionState::Known(a) => EntryView::Known(*a),
            ConnectionState::Pending(buf) => EntryView::Pending(
                buf@.map_values(|b: BufferedPacket| b@),
            ),
        }
    }
}

/// One event taken off the merged queue.
#[derive(Debug)]
pub enum Event {
    /// A raw network-layer packet with its arrival metadata.
    NetworkPacket(PacketMetadata, Vec<u8>),
    /// A socket lifecycle event.
    Socket(SocketEventKind, SocketMetadata),
    /// A reconstructed packet from the controller, to inject outbound.
    InjectRequest(Vec<u8>),
    /// Replace the policy: intercept only the listed process ids.
    InterceptInclude(Vec<u32>),
    /// Replace the policy: intercept everything but the listed process ids.
    InterceptExclude(Vec<u32>),
}

/// Specification view of an event.
pub enum EventView {
    NetworkPacket(PacketMetadata, Seq<u8>),
    Socket(SocketEventKind, SocketMetadata),
    InjectRequest(Seq<u8>),
    InterceptInclude(Seq<u32>),
    InterceptExclude(Seq<u32>),
}

impl View for Event {
    type V = EventView;

    open spec fn view(&self) -> EventView {
        match self {
            Event::NetworkPacket(m, d) => EventView::NetworkPacket(*m, d@),
            Event::Socket(k, sm) => EventView::Socket(*k, *sm),
            Event::InjectRequest(d) => EventView::InjectRequest(d@),
            Event::InterceptInclude(l) => EventView::InterceptInclude(l@),
            Event::InterceptExclude(l) => EventView::InterceptExclude(l@),
        }
    }
}

/// One effect the caller must perform: re-inject a packet into the kernel,
/// or forward raw packet bytes to the controller.
#[derive(Debug)]
pub enum Output {
    Inject(PacketMetadata, Vec<u8>),
    Forward(Vec<u8>),
}

/// Specification view of an output.
pub enum OutputView {
    Inject(PacketMetadata, Seq<u8>),
    Forward(Seq<u8>),
}

impl View for Output {
    type V = OutputView;

    open spec fn view(&self) -> OutputView {
        match self {
            Output::Inject(m, d) => OutputView::Inject(*m, d@),
            Output::Forward(d) => OutputView::Forward(d@),
        }
    }
}

/// The view of a sequence of outputs.
pub open spec fn outputs_view(s: Seq<Output>) -> Seq<OutputView> {
    s.map_values(|o: Output| o@)
}

} // verus!
