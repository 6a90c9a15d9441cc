//! The mathematical model of the engine: an abstract state (a map from
//! connection id to entry, plus the policy), and the transition function
//! `step` that says what one event does to the state and which outputs it
//! yields. The executable engine is proved against `step_rel`, which is
//! `step` weakened by the table's TTL: any idle entry may vanish at any
//! access, so a step may start from, and end in, a shaved table.

use vstd::prelude::*;

use crate::events::{
    BufferedPacketView, ConnectionAction, EntryView, EventView, OutputView, SocketEventKind,
    SocketMetadata, synthesized_metadata,
};
use crate::net::{ConnectionId, TransportProtocol};
use crate::packet::{PacketView, cid_of, spec_bypass, spec_parse};
use crate::policy::PolicyView;

verus! {

/// The abstract engine state.
pub struct ModelState {
    pub table: Map<ConnectionId, EntryView>,
    pub policy: PolicyView,
}

/// The one output a packet produces under an action: re-inject it unchanged
/// with its arrival metadata, or forward its bytes to the controller.
pub open spec fn out_of(
    action: ConnectionAction,
    meta: crate::events::PacketMetadata,
    p: PacketView,
) -> OutputView {
    match action {
        ConnectionAction::Pass => OutputView::Inject(meta, p.data),
        ConnectionAction::Intercept => OutputView::Forward(p.data),
    }
}

/// Draining a pending buffer emits one output per buffered packet, in
/// buffer order, each under the newly resolved action.
pub open spec fn drain_outputs(action: ConnectionAction, buf: Seq<BufferedPacketView>) -> Seq<
    OutputView,
> {
    Seq::new(buf.len(), |i: int| out_of(action, buf[i].meta, buf[i].packet))
}

/// What an entry yields when replaced by a Known entry: its buffer drained
/// if it was Pending, nothing otherwise.
pub open spec fn drain_of(prev: Option<EntryView>, action: ConnectionAction) -> Seq<OutputView> {
    match prev {
        Some(EntryView::Pending(buf)) => drain_outputs(action, buf),
        _ => Seq::empty(),
    }
}

/// The entry stored at a key, if any.
pub open spec fn entry_at(t: Map<ConnectionId, EntryView>, c: ConnectionId) -> Option<EntryView> {
    if t.dom().contains(c) {
        Some(t[c])
    } else {
        None
    }
}

/// Whether `prev` is a truthful observation of key `c` in table `t`: a seen
/// entry must really be there, while `None` is always possible, because the
/// TTL may have dropped the entry at the access.
pub open spec fn observed(
    t: Map<ConnectionId, EntryView>,
    c: ConnectionId,
    prev: Option<EntryView>,
) -> bool {
    match prev {
        Some(e) => t.contains_pair(c, e),
        None => true,
    }
}

/// Rewrite one key of a table to match an observation: the observed entry,
/// or absence.
pub open spec fn with_obs(
    m: Map<ConnectionId, EntryView>,
    c: ConnectionId,
    prev: Option<EntryView>,
) -> Map<ConnectionId, EntryView> {
    match prev {
        Some(e) => m.insert(c, e),
        None => m.remove(c),
    }
}

/// Insert a Known entry, draining the previous entry's buffer under the new
/// action if it was Pending. This is the resolution point.
pub open spec fn spec_insert_known(
    t: Map<ConnectionId, EntryView>,
    c: ConnectionId,
    action: ConnectionAction,
) -> (Map<ConnectionId, EntryView>, Seq<OutputView>) {
    (t.insert(c, EntryView::Known(action)), drain_of(entry_at(t, c), action))
}

/// The connection id a socket event names.
pub open spec fn socket_cid(sm: SocketMetadata) -> ConnectionId {
    ConnectionId {
        proto: TransportProtocol::spec_from_number(sm.protocol)->Some_0,
        src: sm.local,
        dst: sm.remote,
    }
}

/// Socket events that are ignored outright: the kernel's own process id (4),
/// a protocol that is not TCP or UDP, or a multicast endpoint.
pub open spec fn socket_relevant(sm: SocketMetadata) -> bool {
    &&& sm.process_id != 4
    &&& TransportProtocol::spec_from_number(sm.protocol) is Some
    &&& !sm.local.ip.spec_is_multicast()
    &&& !sm.remote.ip.spec_is_multicast()
}

/// One socket event: Connect and Accept resolve an absent or Pending entry,
/// installing Pass on the reversed key and the policy's verdict on the
/// forward key; Close clears a Pending buffer but keeps the entry; anything
/// else changes nothing. A Known entry is terminal: it is never re-resolved.
pub open spec fn step_socket(s: ModelState, kind: SocketEventKind, sm: SocketMetadata) -> (
    ModelState,
    Seq<OutputView>,
) {
    if !socket_relevant(sm) {
        (s, Seq::empty())
    } else {
        let c = socket_cid(sm);
        match kind {
            SocketEventKind::Connect | SocketEventKind::Accept => {
                let make_entry = !(s.table.dom().contains(c) && s.table[c] is Known);
                if make_entry {
                    let action = if s.policy.intercepts(sm.process_id) {
                        ConnectionAction::Intercept
                    } else {
                        ConnectionAction::Pass
                    };
                    let (t1, o1) = spec_insert_known(
                        s.table,
                        c.spec_reverse(),
                        ConnectionAction::Pass,
                    );
                    let (t2, o2) = spec_insert_known(t1, c, action);
                    (ModelState { table: t2, policy: s.policy }, o1 + o2)
                } else {
                    (s, Seq::empty())
                }
            },
            SocketEventKind::Close => {
                if s.table.dom().contains(c) && s.table[c] is Pending {
                    (
                        ModelState {
                            table: s.table.insert(c, EntryView::Pending(Seq::empty())),
                            policy: s.policy,
                        },
                        Seq::empty(),
                    )
                } else {
                    (s, Seq::empty())
                }
            },
            SocketEventKind::Other => (s, Seq::empty()),
        }
    }
}

/// One network packet: unparseable packets are dropped; multicast or pure
/// loopback packets are re-injected unchanged; otherwise the packet is
/// processed under a Known entry's action, appended to a Pending buffer,
/// buffered as a fresh Pending entry when its outbound flow is new, or — for
/// a new inbound flow — classified Intercept with Pass on the reversed key.
pub open spec fn step_network(
    s: ModelState,
    meta: crate::events::PacketMetadata,
    data: Seq<u8>,
) -> (ModelState, Seq<OutputView>) {
    match spec_parse(data) {
        Err(_) => (s, Seq::empty()),
        Ok(p) => {
            if spec_bypass(p) {
                (s, seq![OutputView::Inject(meta, p.data)])
            } else {
                let c = cid_of(p);
                let bp = BufferedPacketView { meta, packet: p };
                if s.table.dom().contains(c) {
                    match s.table[c] {
                        EntryView::Known(a) => (s, seq![out_of(a, meta, p)]),
                        EntryView::Pending(buf) => (
                            ModelState {
                                table: s.table.insert(c, EntryView::Pending(buf.push(bp))),
                                policy: s.policy,
                            },
                            Seq::empty(),
                        ),
                    }
                } else if meta.outbound {
                    (
                        ModelState {
                            table: s.table.insert(c, EntryView::Pending(seq![bp])),
                            policy: s.policy,
                        },
                        Seq::empty(),
                    )
                } else {
                    let (t1, o1) = spec_insert_known(
                        s.table,
                        c.spec_reverse(),
                        ConnectionAction::Pass,
                    );
                    let (t2, o2) = spec_insert_known(t1, c, ConnectionAction::Intercept);
                    (
                        ModelState { table: t2, policy: s.policy },
                        o1 + o2 + seq![out_of(ConnectionAction::Intercept, meta, p)],
                    )
                }
            }
        },
    }
}

/// A policy update replaces the whole policy value.
pub open spec fn apply_policy(listed_are_intercepted: bool, pids: Seq<u32>) -> PolicyView {
    PolicyView { listed_are_intercepted, pids }
}

/// The transition function: what one event does to the abstract state, and
/// the outputs it yields, in order.
pub open spec fn step(s: ModelState, ev: EventView) -> (ModelState, Seq<OutputView>) {
    match ev {
        EventView::NetworkPacket(meta, data) => step_network(s, meta, data),
        EventView::Socket(kind, sm) => step_socket(s, kind, sm),
        EventView::InjectRequest(data) => (
            s,
            seq![OutputView::Inject(synthesized_metadata(), data)],
        ),
        EventView::InterceptInclude(pids) => (
            ModelState { table: s.table, policy: apply_policy(true, pids) },
            Seq::empty(),
        ),
        EventView::InterceptExclude(pids) => (
            ModelState { table: s.table, policy: apply_policy(false, pids) },
            Seq::empty(),
        ),
    }
}

/// A whole trace: the fold of `step` over an event sequence, with the
/// outputs concatenated in event order.
pub open spec fn run(s: ModelState, evs: Seq<EventView>) -> (ModelState, Seq<OutputView>)
    decreases evs.len(),
{
    if evs.len() == 0 {
        (s, Seq::empty())
    } else {
        let first = step(s, evs[0]);
        let rest = run(first.0, evs.skip(1));
        (rest.0, first.1 + rest.1)
    }
}

/// One step as the executable engine may actually take it: the idle-TTL can
/// drop any set of entries at any access, so the step runs from some shaved
/// pre-table `mid`, and the table it leaves may itself be further shaved.
/// Policy and outputs are never affected by expiry.
pub open spec fn step_rel(
    pre: ModelState,
    ev: EventView,
    post: ModelState,
    outs: Seq<OutputView>,
) -> bool {
    exists|mid: Map<ConnectionId, EntryView>|
        {
            &&& #[trigger] mid.submap_of(pre.table)
            &&& {
                let (full, o) = step(ModelState { table: mid, policy: pre.policy }, ev);
                &&& o == outs
                &&& post.policy == full.policy
                &&& post.table.submap_of(full.table)
            }
        }
}

} // verus!
