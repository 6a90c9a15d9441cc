//! The engine's laws, stated and proved over the model's transition function.
//! Each is a property of every state and event, not of chosen values; the
//! idle-TTL weakening (`step_rel`) only ever removes idle entries, so these
//! hold of every step the executable engine takes, between expiries.

use vstd::prelude::*;

use crate::events::{
    BufferedPacketView, ConnectionAction, EntryView, EventView, OutputView, PacketMetadata,
    SocketEventKind, SocketMetadata, synthesized_metadata,
};
use crate::model::{
    ModelState, out_of, run, socket_cid, socket_relevant, spec_insert_known, step, step_network,
    step_socket,
};
use crate::net::ConnectionId;
use crate::packet::{cid_of, spec_bypass, spec_parse};

verus! {

/// Single resolution: once a connection is Known it never returns to
/// Pending; no event re-resolves it (its action can change only through the
/// placeholder inbound path, never its resolvedness).
pub proof fn lemma_single_resolution(s: ModelState, ev: EventView, c: ConnectionId)
    requires
        s.table.dom().contains(c),
        s.table[c] is Known,
    ensures
        step(s, ev).0.table.dom().contains(c),
        step(s, ev).0.table[c] is Known,
{
}

/// Packet conservation: a parsed, non-bypass network packet is handled
/// exactly one way — dispatched under the Known action as the sole output,
/// appended once to its Pending buffer, buffered once as a fresh Pending
/// entry, or (new inbound flow) intercepted once after the reverse drain.
pub proof fn lemma_packet_conservation(s: ModelState, meta: PacketMetadata, data: Seq<u8>)
    requires
        spec_parse(data) is Ok,
        !spec_bypass(spec_parse(data)->Ok_0),
    ensures
        ({
            let p = spec_parse(data)->Ok_0;
            let c = cid_of(p);
            let bp = BufferedPacketView { meta, packet: p };
            let post = step_network(s, meta, data).0;
            let outs = step_network(s, meta, data).1;
            if s.table.dom().contains(c) && s.table[c] is Known {
                outs == seq![out_of(s.table[c]->Known_0, meta, p)] && post.table == s.table
            } else if s.table.dom().contains(c) {
                outs == Seq::<OutputView>::empty() && post.table[c] == EntryView::Pending(
                    s.table[c]->Pending_0.push(bp),
                )
            } else if meta.outbound {
                outs == Seq::<OutputView>::empty() && post.table[c] == EntryView::Pending(
                    seq![bp],
                )
            } else {
                outs.len() >= 1 && outs.last() == out_of(ConnectionAction::Intercept, meta, p)
                    && post.table[c] == EntryView::Known(ConnectionAction::Intercept)
            }
        }),
{
}

/// Drain order: resolving a Pending entry emits one output per buffered
/// packet, in buffer (arrival) order, all under the new action.
pub proof fn lemma_drain_preserves_order(
    t: Map<ConnectionId, EntryView>,
    c: ConnectionId,
    action: ConnectionAction,
)
    requires
        t.dom().contains(c),
        t[c] is Pending,
    ensures
        ({
            let buf = t[c]->Pending_0;
            let outs = spec_insert_known(t, c, action).1;
            outs.len() == buf.len() && (forall|i: int|
                0 <= i < buf.len() ==> outs[i] == out_of(action, buf[i].meta, buf[i].packet))
                && spec_insert_known(t, c, action).0[c] == EntryView::Known(action)
        }),
{
}

/// Return path never intercepted: resolving an outbound connection by a
/// Connect or Accept event installs Pass on the reversed key.
pub proof fn lemma_return_path_pass(s: ModelState, kind: SocketEventKind, sm: SocketMetadata)
    requires
        kind == SocketEventKind::Connect || kind == SocketEventKind::Accept,
        socket_relevant(sm),
        !(s.table.dom().contains(socket_cid(sm)) && s.table[socket_cid(sm)] is Known),
        socket_cid(sm) != socket_cid(sm).spec_reverse(),
    ensures
        ({
            let post = step_socket(s, kind, sm).0;
            post.table.dom().contains(socket_cid(sm).spec_reverse()) && post.table[socket_cid(
                sm,
            ).spec_reverse()] == EntryView::Known(ConnectionAction::Pass)
        }),
{
}

/// The inbound placeholder keeps the same promise: a previously unseen
/// inbound flow gets Pass on its reversed key before it is intercepted.
pub proof fn lemma_inbound_return_path_pass(s: ModelState, meta: PacketMetadata, data: Seq<u8>)
    requires
        spec_parse(data) is Ok,
        !spec_bypass(spec_parse(data)->Ok_0),
        !meta.outbound,
        !s.table.dom().contains(cid_of(spec_parse(data)->Ok_0)),
        cid_of(spec_parse(data)->Ok_0) != cid_of(spec_parse(data)->Ok_0).spec_reverse(),
    ensures
        ({
            let c = cid_of(spec_parse(data)->Ok_0);
            let post = step_network(s, meta, data).0;
            post.table.dom().contains(c.spec_reverse()) && post.table[c.spec_reverse()]
                == EntryView::Known(ConnectionAction::Pass)
        }),
{
}

/// No flow and its reverse are ever both intercepted: the redirector always
/// installs Pass on a reversed key before it classifies a forward key
/// Intercept, and entries only leave this set, so the property is an
/// invariant of every step (the empty table starts inside it). A flow whose
/// two endpoints are equal is its own reverse and is left out: there the one
/// entry plays both roles.
pub open spec fn no_mutual_intercept(t: Map<ConnectionId, EntryView>) -> bool {
    forall|c: ConnectionId|
        #![trigger t.dom().contains(c)]
        t.dom().contains(c) && t[c] == EntryView::Known(ConnectionAction::Intercept) && c
            != c.spec_reverse() && t.dom().contains(c.spec_reverse()) ==> t[c.spec_reverse()]
            != EntryView::Known(ConnectionAction::Intercept)
}

/// The return-path promise as a preserved invariant.
pub proof fn lemma_no_mutual_intercept_preserved(s: ModelState, ev: EventView)
    requires
        no_mutual_intercept(s.table),
    ensures
        no_mutual_intercept(step(s, ev).0.table),
{
    let post = step(s, ev).0.table;
    assert forall|c: ConnectionId|
        post.dom().contains(c) && post[c] == EntryView::Known(ConnectionAction::Intercept) && c
            != c.spec_reverse() && post.dom().contains(c.spec_reverse()) implies post[
        c.spec_reverse()] != EntryView::Known(ConnectionAction::Intercept) by {
        c.lemma_reverse_involutive();
        c.spec_reverse().lemma_reverse_involutive();
    };
}

/// Policy idempotence: applying the same policy update twice leaves the same
/// state as applying it once, and policy updates yield no output, so every
/// later event evolves the table identically.
pub proof fn lemma_policy_idempotent(s: ModelState, ev: EventView)
    requires
        ev is InterceptInclude || ev is InterceptExclude,
    ensures
        step(step(s, ev).0, ev).0 == step(s, ev).0,
        step(s, ev).1 == Seq::<OutputView>::empty(),
        step(step(s, ev).0, ev).1 == Seq::<OutputView>::empty(),
{
}

/// Policy idempotence over a whole trace: after one application of a policy
/// update or two, every subsequent event sequence produces the same final
/// state and the same outputs.
pub proof fn lemma_policy_idempotent_trace(s: ModelState, ev: EventView, evs: Seq<EventView>)
    requires
        ev is InterceptInclude || ev is InterceptExclude,
    ensures
        run(step(step(s, ev).0, ev).0, evs) == run(step(s, ev).0, evs),
{
    lemma_policy_idempotent(s, ev);
}

/// A Close event on a Pending entry clears its buffer but keeps the entry.
pub proof fn lemma_close_clears_but_keeps(s: ModelState, sm: SocketMetadata)
    requires
        socket_relevant(sm),
        s.table.dom().contains(socket_cid(sm)),
        s.table[socket_cid(sm)] is Pending,
    ensures
        step_socket(s, SocketEventKind::Close, sm).0.table.dom().contains(socket_cid(sm)),
        step_socket(s, SocketEventKind::Close, sm).0.table[socket_cid(sm)] == EntryView::Pending(
            Seq::empty(),
        ),
        step_socket(s, SocketEventKind::Close, sm).1 == Seq::<OutputView>::empty(),
{
}

/// Socket events of the kernel's own process (id 4) change nothing.
pub proof fn lemma_kernel_pid_ignored(s: ModelState, kind: SocketEventKind, sm: SocketMetadata)
    requires
        sm.process_id == 4,
    ensures
        step_socket(s, kind, sm).0 == s,
        step_socket(s, kind, sm).1 == Seq::<OutputView>::empty(),
{
}

/// Round trip: an inject request is emitted unchanged, outbound, with every
/// checksum-valid flag cleared, and touches no state.
pub proof fn lemma_inject_round_trip(s: ModelState, data: Seq<u8>)
    ensures
        step(s, EventView::InjectRequest(data)).0 == s,
        step(s, EventView::InjectRequest(data)).1 == seq![
            OutputView::Inject(synthesized_metadata(), data),
        ],
        synthesized_metadata().outbound,
        !synthesized_metadata().ip_checksum,
        !synthesized_metadata().tcp_checksum,
        !synthesized_metadata().udp_checksum,
{
}

} // verus!
