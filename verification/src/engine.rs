//! The correlation core: the engine that owns the connection table and the
//! policy, consumes one merged event at a time, and returns the outputs the
//! caller must perform. Verified against the model's transition function,
//! weakened only by the table's idle TTL (`step_rel`).

use vstd::prelude::*;

use crate::cache::{cache_get, cache_insert, cache_map, cache_new, ConnCache};
use crate::events::{
    BufferedPacket, ConnectionAction, ConnectionState, EntryView, Event, EventView, Output,
    OutputView, PacketMetadata, SocketEventKind, SocketMetadata, outputs_view,
};
use crate::model::{
    ModelState, drain_of, drain_outputs, entry_at, observed, out_of, step, step_rel, with_obs,
};
use crate::net::{CacheKey, ConnectionId, IpAddress, NetEndpoint, TransportProtocol, key_of,
    lemma_key_of_injective};
use crate::packet::InternetPacket;
use crate::policy::Policy;

verus! {

/// Idle time after which a connection entry may be dropped.
pub const TTL_SECS: u64 = 600;

/// The views of a slot vector's entries.
pub open spec fn entries_of(ss: Seq<ConnectionState>) -> Seq<EntryView> {
    ss.map_values(|s: ConnectionState| s@)
}

/// The connection table a key store and a slot vector represent: connection
/// id `c` is present iff its cache key is, and maps to the slot it indexes.
pub open spec fn view_of(cm: Map<CacheKey, usize>, ss: Seq<EntryView>) -> Map<
    ConnectionId,
    EntryView,
> {
    Map::new(
        |c: ConnectionId| cm.dom().contains(key_of(c)) && cm[key_of(c)] < ss.len(),
        |c: ConnectionId| ss[cm[key_of(c)] as int],
    )
}

/// What one connection's entry currently holds: a resolved action, or the
/// number of packets waiting in its Pending buffer.
#[derive(Clone, Copy, Debug, PartialEq, Eq, Structural)]
pub enum EntryStatus {
    Resolved(ConnectionAction),
    Waiting(usize),
}

/// The correlation engine: the TTL-bounded connection table (an integer
/// key store plus the slot vector it indexes) and the active policy.
pub struct Redirector {
    index: ConnCache,
    slots: Vec<ConnectionState>,
    policy: Policy,
}

impl View for Redirector {
    type V = ModelState;

    closed spec fn view(&self) -> ModelState {
        ModelState {
            table: view_of(cache_map(self.index), entries_of(self.slots@)),
            policy: self.policy@,
        }
    }
}

impl Redirector {
    /// Every stored index names a slot, and no two keys share one.
    pub closed spec fn inv(self) -> bool {
        &&& forall|k: CacheKey| #[trigger]
            cache_map(self.index).dom().contains(k) ==> cache_map(self.index)[k]
                < self.slots@.len()
        &&& forall|k1: CacheKey, k2: CacheKey|
            cache_map(self.index).dom().contains(k1) && cache_map(self.index).dom().contains(k2)
                && k1 != k2 ==> cache_map(self.index)[k1] != cache_map(self.index)[k2]
    }

    /// A fresh engine: empty table, default policy (intercept nothing).
    pub fn new() -> (r: Redirector)
        ensures
            r.inv(),
            forall|c: ConnectionId| !r@.table.dom().contains(c),
            r@.policy.listed_are_intercepted == true,
            r@.policy.pids == Seq::<u32>::empty(),
    {
        Redirector {
            index: cache_new(TTL_SECS),
            slots: Vec::new(),
            policy: Policy::default_policy(),
        }
    }
}

/// Emit the one output a packet produces under an action: re-inject it with
/// its metadata, or forward its bytes to the controller.
pub fn process_packet(
    meta: PacketMetadata,
    packet: InternetPacket,
    action: ConnectionAction,
    outs: &mut Vec<Output>,
)
    ensures
        outputs_view(final(outs)@) == outputs_view(old(outs)@).push(out_of(action, meta, packet@)),
{
    match action {
        ConnectionAction::Pass => outs.push(Output::Inject(meta, packet.into_data())),
        ConnectionAction::Intercept => outs.push(Output::Forward(packet.into_data())),
    }
    proof {
        assert(outputs_view(outs@) =~= outputs_view(old(outs)@).push(
            out_of(action, meta, packet@),
        ));
    }
}

/// A placeholder buffered packet, swapped in while draining a buffer.
fn vacant_buffered() -> BufferedPacket {
    BufferedPacket {
        meta: PacketMetadata::synthesized(),
        packet: InternetPacket {
            data: Vec::new(),
            proto: TransportProtocol::Tcp,
            src: NetEndpoint { ip: IpAddress::V4(0), port: 0 },
            dst: NetEndpoint { ip: IpAddress::V4(0), port: 0 },
            payload_len: 0,
            tcp_flags: 0,
        },
    }
}

impl Redirector {
    /// Insert a Known entry at `key`, draining a previous Pending entry's
    /// buffer in arrival order under the new action. This is the resolution
    /// point of the state machine.
    pub fn insert_into_connections(
        &mut self,
        key: &ConnectionId,
        action: ConnectionAction,
        outs: &mut Vec<Output>,
    )
        requires
            old(self).inv(),
        ensures
            final(self).inv(),
            final(self)@.policy == old(self)@.policy,
            final(self)@.table.contains_pair(*key, EntryView::Known(action)),
            forall|c2: ConnectionId| #[trigger]
                final(self)@.table.dom().contains(c2) && c2 != *key ==> old(
                    self,
                )@.table.contains_pair(c2, final(self)@.table[c2]),
            exists|prev: Option<EntryView>|
                #[trigger] observed(old(self)@.table, *key, prev) && outputs_view(final(outs)@)
                    == outputs_view(old(outs)@) + drain_of(prev, action),
    {
        let ghost cm0 = cache_map(self.index);
        let ghost ss0 = entries_of(self.slots@);
        let ghost t0 = view_of(cm0, ss0);
        let ghost outs0 = outputs_view(outs@);
        let k = key.cache_key();
        let idx = self.slots.len();
        let prev_idx = cache_insert(&mut self.index, k, idx);
        self.slots.push(ConnectionState::Known(action));
        let ghost cm1 = cache_map(self.index);

        let ghost prev_w: Option<EntryView> = match prev_idx {
            Some(i) => Some(ss0[i as int]),
            None => None,
        };
        proof {
            if prev_idx is Some {
                let i = prev_idx->0;
                assert(cm0.contains_pair(k, i));
                assert(i < ss0.len());
                assert(t0.dom().contains(*key));
                assert(t0[*key] == ss0[i as int]);
            }
            assert(observed(t0, *key, prev_w));
        }

        match prev_idx {
            Some(i) => {
                let mut taken = ConnectionState::Known(action);
                proof {
                    assert(i < self.slots@.len());
                }
                core::mem::swap(&mut self.slots[i], &mut taken);
                match taken {
                    ConnectionState::Pending(mut buf) => {
                        let ghost orig = buf@;
                        let ghost bufv = entries_of_buf(buf@);
                        let ghost self_snap = *self;
                        let mut j: usize = 0;
                        while j < buf.len()
                            invariant
                                j <= buf@.len(),
                                buf@.len() == orig.len(),
                                forall|m: int| j <= m < orig.len() ==> buf@[m] == orig[m],
                                outputs_view(outs@) == outs0 + drain_outputs(action, bufv).take(
                                    j as int,
                                ),
                                bufv == entries_of_buf(orig),
                                *self == self_snap,
                            decreases buf@.len() - j,
                        {
                            let mut bp = vacant_buffered();
                            core::mem::swap(&mut buf[j], &mut bp);
                            proof {
                                assert(bp == orig[j as int]);
                                assert(bufv[j as int] == orig[j as int]@);
                            }
                            let ghost before = outputs_view(outs@);
                            process_packet(bp.meta, bp.packet, action, outs);
                            proof {
                                assert(outputs_view(outs@) == before.push(
                                    out_of(action, bp.meta, bp.packet@),
                                ));
                                assert(drain_outputs(action, bufv).take(j + 1 as int)
                                    =~= drain_outputs(action, bufv).take(j as int).push(
                                    out_of(action, bufv[j as int].meta, bufv[j as int].packet),
                                ));
                            }
                            j += 1;
                        }
                        proof {
                            assert(drain_outputs(action, bufv).take(orig.len() as int)
                                =~= drain_outputs(action, bufv));
                            assert(prev_w == Some(EntryView::Pending(bufv)));
                            assert(drain_of(prev_w, action) == drain_outputs(action, bufv));
                        }
                    },
                    ConnectionState::Known(_) => {
                        proof {
                            assert(drain_of(prev_w, action) =~= Seq::<OutputView>::empty());
                            assert(outputs_view(outs@) =~= outs0 + drain_of(prev_w, action));
                        }
                    },
                }
            },
            None => {
                proof {
                    assert(drain_of(prev_w, action) =~= Seq::<OutputView>::empty());
                    assert(outputs_view(outs@) =~= outs0 + drain_of(prev_w, action));
                }
            },
        }

        proof {
            let cmf = cache_map(self.index);
            let ssf = entries_of(self.slots@);
            let tf = view_of(cmf, ssf);
            assert(cmf == cm1);
            assert(ssf.len() == ss0.len() + 1);
            assert(ssf[idx as int] == EntryView::Known(action));
            // the invariant
            assert forall|k2: CacheKey| #[trigger]
                cmf.dom().contains(k2) implies cmf[k2] < ssf.len() by {
                if k2 != k {
                    assert(cm0.contains_pair(k2, cmf[k2]));
                }
            };
            assert forall|k1: CacheKey, k2: CacheKey|
                cmf.dom().contains(k1) && cmf.dom().contains(k2) && k1 != k2 implies cmf[k1]
                != cmf[k2] by {
                if k1 != k && k2 != k {
                    assert(cm0.contains_pair(k1, cmf[k1]));
                    assert(cm0.contains_pair(k2, cmf[k2]));
                } else if k1 == k {
                    assert(cm0.contains_pair(k2, cmf[k2]));
                } else {
                    assert(cm0.contains_pair(k1, cmf[k1]));
                }
            };
            assert(self.inv());
            // the new entry
            assert(tf.contains_pair(*key, EntryView::Known(action)));
            // the frame: every other visible entry was already there
            assert forall|c2: ConnectionId| #[trigger]
                tf.dom().contains(c2) && c2 != *key implies t0.contains_pair(c2, tf[c2]) by {
                lemma_key_of_injective(c2, *key);
                let k2 = key_of(c2);
                assert(cmf.dom().contains(k2));
                assert(cm0.contains_pair(k2, cmf[k2]));
                let j = cmf[k2];
                assert(j < ss0.len());
                if prev_idx is Some {
                    let i = prev_idx->0;
                    assert(cm0.contains_pair(k, i));
                    assert(j != i);
                }
                assert(ssf[j as int] == ss0[j as int]);
                assert(t0.dom().contains(c2));
                assert(t0[c2] == ss0[j as int]);
            };
            // the outputs
            assert(t0 == old(self)@.table);
            assert(outs0 == outputs_view(old(outs)@));
            assert(observed(old(self)@.table, *key, prev_w) && outputs_view(outs@)
                == outputs_view(old(outs)@) + drain_of(prev_w, action));
        }
    }
}

/// The views of a buffer's packets.
pub open spec fn entries_of_buf(bs: Seq<BufferedPacket>) -> Seq<crate::events::BufferedPacketView> {
    bs.map_values(|b: BufferedPacket| b@)
}

/// A shaved key store shaves the table it represents, and keeps its shape.
proof fn lemma_shave(cm0: Map<CacheKey, usize>, cmf: Map<CacheKey, usize>, ss: Seq<EntryView>, n: nat)
    requires
        forall|k2: CacheKey| #[trigger] cmf.dom().contains(k2) ==> cm0.contains_pair(k2, cmf[k2]),
        forall|k: CacheKey| #[trigger] cm0.dom().contains(k) ==> cm0[k] < n,
        forall|k1: CacheKey, k2: CacheKey|
            cm0.dom().contains(k1) && cm0.dom().contains(k2) && k1 != k2 ==> cm0[k1] != cm0[k2],
    ensures
        forall|k: CacheKey| #[trigger] cmf.dom().contains(k) ==> cmf[k] < n,
        forall|k1: CacheKey, k2: CacheKey|
            cmf.dom().contains(k1) && cmf.dom().contains(k2) && k1 != k2 ==> cmf[k1] != cmf[k2],
        view_of(cmf, ss).submap_of(view_of(cm0, ss)),
{
    assert forall|k1: CacheKey, k2: CacheKey|
        cmf.dom().contains(k1) && cmf.dom().contains(k2) && k1 != k2 implies cmf[k1]
        != cmf[k2] by {
        assert(cm0.contains_pair(k1, cmf[k1]));
        assert(cm0.contains_pair(k2, cmf[k2]));
    };
    assert forall|c: ConnectionId| #[trigger]
        view_of(cmf, ss).dom().contains(c) implies view_of(cm0, ss).dom().contains(c) && view_of(
        cmf,
        ss,
    )[c] == view_of(cm0, ss)[c] by {
        assert(cmf.dom().contains(key_of(c)));
        assert(cm0.contains_pair(key_of(c), cmf[key_of(c)]));
    };
}

impl Redirector {
    /// One socket lifecycle event: ignore the kernel's own process, undecodable
    /// protocols and multicast endpoints; Connect and Accept resolve an absent
    /// or Pending connection (installing Pass on the reversed key and the
    /// policy's verdict on the forward key, draining buffered packets in
    /// order); Close clears a Pending buffer but keeps the entry.
    pub fn handle_socket_event(&mut self, kind: SocketEventKind, sm: &SocketMetadata) -> (outs:
        Vec<Output>)
        requires
            old(self).inv(),
        ensures
            final(self).inv(),
            step_rel(old(self)@, EventView::Socket(kind, *sm), final(self)@, outputs_view(outs@)),
    {
        let mut outs: Vec<Output> = Vec::new();
        let ghost ev = EventView::Socket(kind, *sm);
        let ghost pre = old(self)@;

        if sm.process_id == 4 {
            proof {
                nop_step(pre, ev, outs@);
            }
            return outs;
        }
        let proto = match TransportProtocol::from_number(sm.protocol) {
            Some(p) => p,
            None => {
                proof {
                    nop_step(pre, ev, outs@);
                }
                return outs;
            },
        };
        if sm.local.ip.is_multicast() || sm.remote.ip.is_multicast() {
            proof {
                nop_step(pre, ev, outs@);
            }
            return outs;
        }
        let cid = ConnectionId { proto, src: sm.local, dst: sm.remote };
        proof {
            assert(crate::model::socket_relevant(*sm));
            assert(cid == crate::model::socket_cid(*sm));
        }
        match kind {
            SocketEventKind::Connect | SocketEventKind::Accept => {
                let ghost cm0 = cache_map(self.index);
                let ghost ss = entries_of(self.slots@);
                let r = cache_get(&mut self.index, &cid.cache_key());
                let ghost cm1 = cache_map(self.index);
                let ghost t1 = view_of(cm1, ss);
                proof {
                    lemma_shave(cm0, cm1, ss, self.slots@.len() as nat);
                    assert(self.inv());
                    assert(t1.submap_of(pre.table));
                }
                let mut known_already = false;
                if let Some(i) = r {
                    proof {
                        assert(cm1.contains_pair(key_of(cid), i));
                        assert(i < self.slots@.len());
                        assert(t1.contains_pair(cid, ss[i as int]));
                    }
                    known_already = match &self.slots[i] {
                        ConnectionState::Known(_) => true,
                        ConnectionState::Pending(_) => false,
                    };
                    proof {
                        assert(known_already == (ss[i as int] is Known));
                    }
                }
                if known_already {
                    proof {
                        let mid = t1;
                        assert(mid.submap_of(pre.table));
                        assert(mid.dom().contains(cid) && mid[cid] is Known);
                        let stepped = step(ModelState { table: mid, policy: pre.policy }, ev);
                        assert(stepped.1 =~= Seq::<OutputView>::empty());
                        assert(outputs_view(outs@) =~= Seq::<OutputView>::empty());
                        assert(self@.table == t1);
                        assert(self@.table.submap_of(stepped.0.table));
                        assert(step_rel(pre, ev, self@, outputs_view(outs@)));
                    }
                    return outs;
                }
                // absent or pending: resolve now, under the current policy
                proof {
                    if r is Some {
                        assert(t1.contains_pair(cid, ss[r->0 as int]) && !(ss[r->0 as int]
                            is Known));
                    } else {
                        assert(!t1.dom().contains(cid));
                    }
                }
                let ghost obs0: Option<EntryView> = if r is Some {
                    Some(ss[r->0 as int])
                } else {
                    None
                };
                let action = if self.policy.should_intercept(sm.process_id) {
                    ConnectionAction::Intercept
                } else {
                    ConnectionAction::Pass
                };
                let rev = cid.reverse();
                let ghost pol = self@.policy;
                let ghost outs_a = outputs_view(outs@);
                self.insert_into_connections(&rev, ConnectionAction::Pass, &mut outs);
                let ghost t2 = self@.table;
                let ghost prev1 = choose|p: Option<EntryView>|
                    #[trigger] observed(t1, rev, p) && outputs_view(outs@) == outs_a + drain_of(
                        p,
                        ConnectionAction::Pass,
                    );
                let ghost outs_b = outputs_view(outs@);
                self.insert_into_connections(&cid, action, &mut outs);
                let ghost t3 = self@.table;
                let ghost prev2 = choose|p: Option<EntryView>|
                    #[trigger] observed(t2, cid, p) && outputs_view(outs@) == outs_b + drain_of(
                        p,
                        action,
                    );
                proof {
                    assert(outputs_view(outs@) =~= ((Seq::<OutputView>::empty() + drain_of(
                        prev1,
                        ConnectionAction::Pass,
                    )) + drain_of(prev2, action)) + Seq::<OutputView>::empty());
                    let mid = resolve_mid(t3, cid, rev, prev1, prev2);
                    assert(step(ModelState { table: mid, policy: pre.policy }, ev).1
                        =~= resolve_outs(mid, cid, rev, action) + Seq::<OutputView>::empty());
                    self.lemma_resolve(
                        pre,
                        ev,
                        t1,
                        t2,
                        t3,
                        cid,
                        rev,
                        obs0,
                        prev1,
                        prev2,
                        action,
                        outputs_view(outs@),
                        Seq::<OutputView>::empty(),
                    );
                }
                outs
            },
            SocketEventKind::Close => {
                let ghost cm0 = cache_map(self.index);
                let ghost ss = entries_of(self.slots@);
                let r = cache_get(&mut self.index, &cid.cache_key());
                let ghost cm1 = cache_map(self.index);
                let ghost t1 = view_of(cm1, ss);
                proof {
                    lemma_shave(cm0, cm1, ss, self.slots@.len() as nat);
                    assert(self.inv());
                    assert(t1.submap_of(pre.table));
                }
                let mut cleared = false;
                if let Some(i) = r {
                    proof {
                        assert(cm1.contains_pair(key_of(cid), i));
                        assert(i < self.slots@.len());
                        assert(t1.contains_pair(cid, ss[i as int]));
                    }
                    let ghost slots0 = self.slots@;
                    let ghost ss_before = entries_of(self.slots@);
                    let fresh: Vec<BufferedPacket> = Vec::new();
                    let ghost freshv = fresh@;
                    let mut taken = ConnectionState::Pending(fresh);
                    core::mem::swap(&mut self.slots[i], &mut taken);
                    match taken {
                        ConnectionState::Pending(_) => {
                            cleared = true;
                        },
                        ConnectionState::Known(a) => {
                            let mut back = ConnectionState::Known(a);
                            core::mem::swap(&mut self.slots[i], &mut back);
                        },
                    }
                    proof {
                        if cleared {
                            assert(ss_before[i as int] is Pending);
                            assert(freshv.map_values(|b: BufferedPacket| b@)
                                =~= Seq::<crate::events::BufferedPacketView>::empty());
                            assert(self.slots@[i as int]@ == EntryView::Pending(
                                Seq::<crate::events::BufferedPacketView>::empty(),
                            ));
                            assert(entries_of(self.slots@) =~= ss_before.update(
                                i as int,
                                EntryView::Pending(Seq::empty()),
                            ));
                        } else {
                            assert(slots0[i as int] is Known);
                            assert(self.slots@ =~= slots0);
                        }
                    }
                }
                proof {
                    let mid = t1;
                    assert(mid.submap_of(pre.table));
                    let stepped = step(ModelState { table: mid, policy: pre.policy }, ev);
                    assert(outputs_view(outs@) =~= Seq::<OutputView>::empty());
                    assert(stepped.1 =~= Seq::<OutputView>::empty());
                    if cleared {
                        let i = r->0;
                        let tf = self@.table;
                        assert(stepped.0.table == t1.insert(cid, EntryView::Pending(Seq::empty())));
                        assert forall|c2: ConnectionId| #[trigger]
                            tf.dom().contains(c2) implies stepped.0.table.dom().contains(c2)
                            && tf[c2] == stepped.0.table[c2] by {
                            if c2 != cid {
                                lemma_key_of_injective(c2, cid);
                                assert(cm1.contains_pair(key_of(c2), cm1[key_of(c2)]));
                                assert(cm0.contains_pair(key_of(c2), cm1[key_of(c2)]));
                                assert(cm0.contains_pair(key_of(cid), i));
                                assert(cm1[key_of(c2)] != i);
                            }
                        };
                        assert(self@.table.submap_of(stepped.0.table));
                    } else {
                        assert(self@.table == t1);
                        assert(self@.table.submap_of(stepped.0.table));
                    }
                    assert(step_rel(pre, ev, self@, outputs_view(outs@)));
                }
                outs
            },
            SocketEventKind::Other => {
                proof {
                    nop_step(pre, ev, outs@);
                }
                outs
            },
        }
    }

    /// The composition argument shared by every resolution site: two
    /// insert-with-drain calls (reversed key first) observed `prev1` and
    /// `prev2`, so the whole step is one model step from a shaved table.
    proof fn lemma_resolve(
        &self,
        pre: ModelState,
        ev: EventView,
        t1: Map<ConnectionId, EntryView>,
        t2: Map<ConnectionId, EntryView>,
        t3: Map<ConnectionId, EntryView>,
        cid: ConnectionId,
        rev: ConnectionId,
        obs0: Option<EntryView>,
        prev1: Option<EntryView>,
        prev2: Option<EntryView>,
        action: ConnectionAction,
        outsv: Seq<OutputView>,
        tail: Seq<OutputView>,
    )
        requires
            self@.table == t3,
            self@.policy == pre.policy,
            rev == cid.spec_reverse(),
            t1.submap_of(pre.table),
            obs0 matches Some(e) ==> t1.contains_pair(cid, e) && !(e is Known),
            obs0 is None ==> !t1.dom().contains(cid),
            observed(t1, rev, prev1),
            observed(t2, cid, prev2),
            t2.contains_pair(rev, EntryView::Known(ConnectionAction::Pass)),
            t3.contains_pair(cid, EntryView::Known(action)),
            forall|c2: ConnectionId| #[trigger]
                t2.dom().contains(c2) && c2 != rev ==> t1.contains_pair(c2, t2[c2]),
            forall|c2: ConnectionId| #[trigger]
                t3.dom().contains(c2) && c2 != cid ==> t2.contains_pair(c2, t3[c2]),
            outsv == ((Seq::<OutputView>::empty() + drain_of(prev1, ConnectionAction::Pass))
                + drain_of(prev2, action)) + tail,
            step(
                ModelState { table: resolve_mid(t3, cid, rev, prev1, prev2), policy: pre.policy },
                ev,
            ).0 == resolve_step(
                resolve_mid(t3, cid, rev, prev1, prev2),
                pre.policy,
                cid,
                rev,
                action,
            ),
            step(
                ModelState { table: resolve_mid(t3, cid, rev, prev1, prev2), policy: pre.policy },
                ev,
            ).1 == resolve_outs(resolve_mid(t3, cid, rev, prev1, prev2), cid, rev, action) + tail,
        ensures
            step_rel(pre, ev, self@, outsv),
    {
        let mid = resolve_mid(t3, cid, rev, prev1, prev2);
        // mid is a shaving of the pre table
        assert forall|c2: ConnectionId| #[trigger]
            mid.dom().contains(c2) implies pre.table.dom().contains(c2) && mid[c2]
            == pre.table[c2] by {
            if c2 == rev {
                assert(prev1 is Some && mid[c2] == prev1->0);
                assert(t1.contains_pair(rev, prev1->0));
            } else if c2 == cid {
                assert(prev2 is Some && mid[c2] == prev2->0);
                assert(t2.contains_pair(cid, prev2->0));
                assert(t1.contains_pair(cid, prev2->0));
            } else {
                assert(t3.dom().contains(c2) && mid[c2] == t3[c2]);
                assert(t2.contains_pair(c2, t3[c2]));
                assert(t1.contains_pair(c2, t3[c2]));
            }
            assert(t1.dom().contains(c2) && t1[c2] == mid[c2]);
            assert(pre.table.dom().contains(c2));
            assert(pre.table[c2] == t1[c2]);
        };
        assert(mid.submap_of(pre.table));
        let stepped = step(ModelState { table: mid, policy: pre.policy }, ev);
        let full = stepped.0.table;
        // outputs agree
        if cid != rev {
            assert(entry_at(mid, rev) == prev1);
            assert(entry_at(mid.insert(rev, EntryView::Known(ConnectionAction::Pass)), cid)
                == entry_at(mid, cid));
            assert(entry_at(mid, cid) == prev2);
            assert(stepped.1 =~= outsv);
        } else {
            assert(entry_at(mid, rev) == prev1);
            assert(entry_at(mid.insert(rev, EntryView::Known(ConnectionAction::Pass)), cid)
                == Some(EntryView::Known(ConnectionAction::Pass)));
            if prev2 is Some {
                assert(t2.contains_pair(cid, prev2->0));
                assert(prev2->0 == EntryView::Known(ConnectionAction::Pass));
            }
            assert(drain_of(prev2, action) =~= Seq::<OutputView>::empty());
            assert(stepped.1 =~= outsv);
        }
        assert(stepped.1 == outsv);
        // the final table is a shaving of the stepped table
        assert(full == mid.insert(rev, EntryView::Known(ConnectionAction::Pass)).insert(
            cid,
            EntryView::Known(action),
        ));
        assert forall|c2: ConnectionId| #[trigger]
            t3.dom().contains(c2) implies full.dom().contains(c2) && t3[c2] == full[c2] by {
            if c2 == cid {
                assert(t3[c2] == EntryView::Known(action));
            } else if c2 == rev {
                assert(t2.contains_pair(rev, t3[c2]));
                assert(t3[c2] == EntryView::Known(ConnectionAction::Pass));
            } else {
                assert(mid.dom().contains(c2) && mid[c2] == t3[c2]);
            }
        };
        assert(self@.table.submap_of(full));
        assert(step_rel(pre, ev, self@, outsv));
    }
}

/// The shaved table a resolution step ran from: the final table with the two
/// written keys put back to what the two inserts observed.
pub open spec fn resolve_mid(
    t3: Map<ConnectionId, EntryView>,
    cid: ConnectionId,
    rev: ConnectionId,
    prev1: Option<EntryView>,
    prev2: Option<EntryView>,
) -> Map<ConnectionId, EntryView> {
    if cid == rev {
        with_obs(t3, cid, prev1)
    } else {
        with_obs(with_obs(t3, cid, prev2), rev, prev1)
    }
}

/// The table after a resolution step from `mid`.
pub open spec fn resolve_step(
    mid: Map<ConnectionId, EntryView>,
    policy: crate::policy::PolicyView,
    cid: ConnectionId,
    rev: ConnectionId,
    action: ConnectionAction,
) -> ModelState {
    ModelState {
        table: mid.insert(rev, EntryView::Known(ConnectionAction::Pass)).insert(
            cid,
            EntryView::Known(action),
        ),
        policy,
    }
}

/// The outputs of a resolution step from `mid`.
pub open spec fn resolve_outs(
    mid: Map<ConnectionId, EntryView>,
    cid: ConnectionId,
    rev: ConnectionId,
    action: ConnectionAction,
) -> Seq<OutputView> {
    drain_of(entry_at(mid, rev), ConnectionAction::Pass) + drain_of(
        entry_at(mid.insert(rev, EntryView::Known(ConnectionAction::Pass)), cid),
        action,
    )
}

/// A step that read nothing and changed nothing: the model takes the whole
/// pre table and yields no output.
proof fn nop_step(pre: ModelState, ev: EventView, outs: Seq<Output>)
    requires
        step(pre, ev).0 == pre,
        step(pre, ev).1 == Seq::<OutputView>::empty(),
        outs == Seq::<Output>::empty(),
    ensures
        step_rel(pre, ev, pre, outputs_view(outs)),
{
    assert(pre.table.submap_of(pre.table));
    assert(outputs_view(outs) =~= Seq::<OutputView>::empty());
    assert(step_rel(pre, ev, pre, outputs_view(outs)));
}

impl Redirector {
    /// One network-layer packet: drop what does not parse; re-inject
    /// multicast and pure-loopback packets unchanged; dispatch under a Known
    /// entry's action; append to a Pending buffer; open a fresh Pending entry
    /// for a new outbound flow; and for a new inbound flow install Pass on
    /// the reversed key and Intercept on the forward key, then intercept.
    pub fn handle_network_packet(&mut self, meta: PacketMetadata, data: Vec<u8>) -> (outs: Vec<
        Output,
    >)
        requires
            old(self).inv(),
        ensures
            final(self).inv(),
            step_rel(
                old(self)@,
                EventView::NetworkPacket(meta, data@),
                final(self)@,
                outputs_view(outs@),
            ),
    {
        let ghost dv = data@;
        let ghost ev = EventView::NetworkPacket(meta, dv);
        let ghost pre = old(self)@;
        let mut outs: Vec<Output> = Vec::new();

        let packet = match InternetPacket::parse(data) {
            Ok(p) => p,
            Err(_) => {
                proof {
                    nop_step(pre, ev, outs@);
                }
                return outs;
            },
        };
        let ghost p = packet@;

        if packet.bypasses() {
            outs.push(Output::Inject(meta, packet.into_data()));
            proof {
                assert(pre.table.submap_of(pre.table));
                let stepped = step(ModelState { table: pre.table, policy: pre.policy }, ev);
                assert(outputs_view(outs@) =~= seq![OutputView::Inject(meta, p.data)]);
                assert(stepped.1 == seq![OutputView::Inject(meta, p.data)]);
                assert(self@.table.submap_of(stepped.0.table));
                assert(step_rel(pre, ev, self@, outputs_view(outs@)));
            }
            return outs;
        }

        let cid = packet.connection_id();
        let ghost cm0 = cache_map(self.index);
        let ghost ss = entries_of(self.slots@);
        let r = cache_get(&mut self.index, &cid.cache_key());
        let ghost cm1 = cache_map(self.index);
        let ghost t1 = view_of(cm1, ss);
        proof {
            lemma_shave(cm0, cm1, ss, self.slots@.len() as nat);
            assert(self.inv());
            assert(t1.submap_of(pre.table));
        }
        match r {
            Some(i) => {
                proof {
                    assert(cm1.contains_pair(key_of(cid), i));
                    assert(i < self.slots@.len());
                    assert(t1.contains_pair(cid, ss[i as int]));
                }
                let is_known = match &self.slots[i] {
                    ConnectionState::Known(_) => true,
                    ConnectionState::Pending(_) => false,
                };
                if is_known {
                    let act = match &self.slots[i] {
                        ConnectionState::Known(a) => *a,
                        ConnectionState::Pending(_) => ConnectionAction::Pass,
                    };
                    proof {
                        assert(ss[i as int] == EntryView::Known(act));
                    }
                    process_packet(meta, packet, act, &mut outs);
                    proof {
                        let stepped = step(ModelState { table: t1, policy: pre.policy }, ev);
                        assert(t1[cid] == EntryView::Known(act));
                        assert(outputs_view(outs@) =~= seq![out_of(act, meta, p)]);
                        assert(stepped.1 == seq![out_of(act, meta, p)]);
                        assert(self@.table == t1);
                        assert(self@.table.submap_of(stepped.0.table));
                        assert(step_rel(pre, ev, self@, outputs_view(outs@)));
                    }
                } else {
                    let ghost slots0 = self.slots@;
                    let ghost bufv0 = ss[i as int]->Pending_0;
                    let ghost bpv = crate::events::BufferedPacketView { meta, packet: p };
                    let ghost mut b0: Seq<BufferedPacket> = Seq::empty();
                    match &mut self.slots[i] {
                        ConnectionState::Pending(buf) => {
                            proof {
                                b0 = buf@;
                            }
                            buf.push(BufferedPacket { meta, packet });
                        },
                        ConnectionState::Known(_) => {},
                    }
                    proof {
                        assert(slots0[i as int]@ == EntryView::Pending(entries_of_buf(b0)));
                        assert(entries_of_buf(b0) == bufv0);
                        assert(entries_of_buf(b0.push(BufferedPacket { meta, packet: packet }))
                            =~= bufv0.push(bpv));
                        assert(self.slots@[i as int]@ == EntryView::Pending(bufv0.push(bpv)));
                        assert(entries_of(self.slots@) =~= ss.update(
                            i as int,
                            EntryView::Pending(bufv0.push(bpv)),
                        ));
                        let stepped = step(ModelState { table: t1, policy: pre.policy }, ev);
                        assert(t1[cid] == EntryView::Pending(bufv0));
                        assert(stepped.0.table == t1.insert(
                            cid,
                            EntryView::Pending(bufv0.push(bpv)),
                        ));
                        assert(outputs_view(outs@) =~= Seq::<OutputView>::empty());
                        assert(stepped.1 == Seq::<OutputView>::empty());
                        let tf = self@.table;
                        assert forall|c2: ConnectionId| #[trigger]
                            tf.dom().contains(c2) implies stepped.0.table.dom().contains(c2)
                            && tf[c2] == stepped.0.table[c2] by {
                            if c2 != cid {
                                lemma_key_of_injective(c2, cid);
                                assert(cm1.dom().contains(key_of(c2)));
                                assert(cm1[key_of(c2)] != i);
                            }
                        };
                        assert(self@.table.submap_of(stepped.0.table));
                        assert(step_rel(pre, ev, self@, outputs_view(outs@)));
                    }
                }
            },
            None => {
                if meta.outbound {
                    let k = cid.cache_key();
                    let idx = self.slots.len();
                    let prev = cache_insert(&mut self.index, k, idx);
                    proof {
                        assert(prev is None);
                    }
                    let mut v: Vec<BufferedPacket> = Vec::new();
                    v.push(BufferedPacket { meta, packet });
                    let ghost vv = v@;
                    self.slots.push(ConnectionState::Pending(v));
                    proof {
                        let ghost bpv = crate::events::BufferedPacketView { meta, packet: p };
                        let cmf = cache_map(self.index);
                        let ssf = entries_of(self.slots@);
                        assert(entries_of_buf(vv) =~= seq![bpv]);
                        assert(ssf.len() == ss.len() + 1);
                        assert(ssf[idx as int] == EntryView::Pending(seq![bpv]));
                        assert forall|k2: CacheKey| #[trigger]
                            cmf.dom().contains(k2) implies cmf[k2] < ssf.len() by {
                            if k2 != k {
                                assert(cm1.contains_pair(k2, cmf[k2]));
                                assert(cm0.contains_pair(k2, cmf[k2]));
                            }
                        };
                        assert forall|k1: CacheKey, k2: CacheKey|
                            cmf.dom().contains(k1) && cmf.dom().contains(k2) && k1
                                != k2 implies cmf[k1] != cmf[k2] by {
                            if k1 != k && k2 != k {
                                assert(cm1.contains_pair(k1, cmf[k1]));
                                assert(cm0.contains_pair(k1, cmf[k1]));
                                assert(cm1.contains_pair(k2, cmf[k2]));
                                assert(cm0.contains_pair(k2, cmf[k2]));
                            } else if k1 == k {
                                assert(cm1.contains_pair(k2, cmf[k2]));
                                assert(cm0.contains_pair(k2, cmf[k2]));
                            } else {
                                assert(cm1.contains_pair(k1, cmf[k1]));
                                assert(cm0.contains_pair(k1, cmf[k1]));
                            }
                        };
                        assert(self.inv());
                        let stepped = step(ModelState { table: t1, policy: pre.policy }, ev);
                        assert(!t1.dom().contains(cid));
                        assert(stepped.0.table == t1.insert(cid, EntryView::Pending(seq![bpv])));
                        let tf = self@.table;
                        assert(tf.contains_pair(cid, EntryView::Pending(seq![bpv])));
                        assert forall|c2: ConnectionId| #[trigger]
                            tf.dom().contains(c2) implies stepped.0.table.dom().contains(c2)
                            && tf[c2] == stepped.0.table[c2] by {
                            if c2 != cid {
                                lemma_key_of_injective(c2, cid);
                                let k2 = key_of(c2);
                                assert(cmf.dom().contains(k2));
                                assert(cm1.contains_pair(k2, cmf[k2]));
                                let j = cmf[k2];
                                assert(j < ss.len());
                                assert(ssf[j as int] == ss[j as int]);
                                assert(t1.dom().contains(c2));
                            }
                        };
                        assert(self@.table.submap_of(stepped.0.table));
                        assert(outputs_view(outs@) =~= Seq::<OutputView>::empty());
                        assert(stepped.1 == Seq::<OutputView>::empty());
                        assert(step_rel(pre, ev, self@, outputs_view(outs@)));
                    }
                } else {
                    let rev = cid.reverse();
                    let ghost outs_a = outputs_view(outs@);
                    self.insert_into_connections(&rev, ConnectionAction::Pass, &mut outs);
                    let ghost t2 = self@.table;
                    let ghost prev1 = choose|q: Option<EntryView>|
                        #[trigger] observed(t1, rev, q) && outputs_view(outs@) == outs_a
                            + drain_of(q, ConnectionAction::Pass);
                    let ghost outs_b = outputs_view(outs@);
                    self.insert_into_connections(&cid, ConnectionAction::Intercept, &mut outs);
                    let ghost t3 = self@.table;
                    let ghost prev2 = choose|q: Option<EntryView>|
                        #[trigger] observed(t2, cid, q) && outputs_view(outs@) == outs_b
                            + drain_of(q, ConnectionAction::Intercept);
                    process_packet(meta, packet, ConnectionAction::Intercept, &mut outs);
                    proof {
                        let tail = seq![out_of(ConnectionAction::Intercept, meta, p)];
                        assert(outputs_view(outs@) =~= ((Seq::<OutputView>::empty() + drain_of(
                            prev1,
                            ConnectionAction::Pass,
                        )) + drain_of(prev2, ConnectionAction::Intercept)) + tail);
                        let mid = resolve_mid(t3, cid, rev, prev1, prev2);
                        assert(!t1.dom().contains(cid));
                        if cid != rev {
                            if prev2 is Some {
                                assert(t2.contains_pair(cid, prev2->0));
                                assert(t1.contains_pair(cid, prev2->0));
                                assert(false);
                            }
                            assert(!mid.dom().contains(cid));
                        } else {
                            if prev1 is Some {
                                assert(t1.contains_pair(cid, prev1->0));
                                assert(false);
                            }
                            assert(!mid.dom().contains(cid));
                        }
                        let stepped = step(ModelState { table: mid, policy: pre.policy }, ev);
                        assert(stepped.0 == resolve_step(
                            mid,
                            pre.policy,
                            cid,
                            rev,
                            ConnectionAction::Intercept,
                        ));
                        assert(stepped.1 =~= resolve_outs(
                            mid,
                            cid,
                            rev,
                            ConnectionAction::Intercept,
                        ) + tail);
                        self.lemma_resolve(
                            pre,
                            ev,
                            t1,
                            t2,
                            t3,
                            cid,
                            rev,
                            None,
                            prev1,
                            prev2,
                            ConnectionAction::Intercept,
                            outputs_view(outs@),
                            tail,
                        );
                    }
                }
            },
        }
        outs
    }

    /// Look one connection up: its resolved action, or how many packets wait
    /// in its Pending buffer. Absent (or expired) entries give `None`; the
    /// access refreshes the entry as any table access does.
    pub fn entry_status(&mut self, key: &ConnectionId) -> (r: Option<EntryStatus>)
        requires
            old(self).inv(),
        ensures
            final(self).inv(),
            final(self)@.table.submap_of(old(self)@.table),
            final(self)@.policy == old(self)@.policy,
            match r {
                Some(EntryStatus::Resolved(a)) => old(self)@.table.contains_pair(
                    *key,
                    EntryView::Known(a),
                ),
                Some(EntryStatus::Waiting(n)) => old(self)@.table.dom().contains(*key) && old(
                    self,
                )@.table[*key] is Pending && old(self)@.table[*key]->Pending_0.len() == n,
                None => !final(self)@.table.dom().contains(*key),
            },
    {
        let ghost pre = old(self)@;
        let ghost cm0 = cache_map(self.index);
        let ghost ss = entries_of(self.slots@);
        let r = cache_get(&mut self.index, &key.cache_key());
        let ghost cm1 = cache_map(self.index);
        proof {
            lemma_shave(cm0, cm1, ss, self.slots@.len() as nat);
            assert(self.inv());
            assert(self@.table.submap_of(pre.table));
        }
        match r {
            Some(i) => {
                proof {
                    assert(cm1.contains_pair(key_of(*key), i));
                    assert(i < self.slots@.len());
                    assert(view_of(cm1, ss).contains_pair(*key, ss[i as int]));
                    assert(pre.table.contains_pair(*key, ss[i as int]));
                }
                match &self.slots[i] {
                    ConnectionState::Known(a) => Some(EntryStatus::Resolved(*a)),
                    ConnectionState::Pending(buf) => Some(EntryStatus::Waiting(buf.len())),
                }
            },
            None => None,
        }
    }

    /// Consume one merged event: mutate the table and the policy as the model
    /// says, and return the outputs to perform, in order.
    pub fn handle_event(&mut self, ev: Event) -> (outs: Vec<Output>)
        requires
            old(self).inv(),
        ensures
            final(self).inv(),
            step_rel(old(self)@, ev@, final(self)@, outputs_view(outs@)),
    {
        let ghost pre = old(self)@;
        match ev {
            Event::NetworkPacket(meta, data) => self.handle_network_packet(meta, data),
            Event::Socket(kind, sm) => self.handle_socket_event(kind, &sm),
            Event::InjectRequest(data) => {
                let ghost dv = data@;
                let ghost evv = EventView::InjectRequest(dv);
                let mut outs: Vec<Output> = Vec::new();
                outs.push(Output::Inject(PacketMetadata::synthesized(), data));
                proof {
                    assert(pre.table.submap_of(pre.table));
                    let stepped = step(ModelState { table: pre.table, policy: pre.policy }, evv);
                    assert(outputs_view(outs@) =~= seq![
                        OutputView::Inject(crate::events::synthesized_metadata(), dv),
                    ]);
                    assert(self@.table.submap_of(stepped.0.table));
                    assert(step_rel(pre, evv, self@, outputs_view(outs@)));
                }
                outs
            },
            Event::InterceptInclude(pids) => {
                let ghost pv = pids@;
                let ghost evv = EventView::InterceptInclude(pv);
                self.policy = Policy::InterceptInclude(pids);
                let outs: Vec<Output> = Vec::new();
                proof {
                    assert(pre.table.submap_of(pre.table));
                    let stepped = step(ModelState { table: pre.table, policy: pre.policy }, evv);
                    assert(self@.policy == stepped.0.policy);
                    assert(self@.table == pre.table);
                    assert(outputs_view(outs@) =~= Seq::<OutputView>::empty());
                    assert(step_rel(pre, evv, self@, outputs_view(outs@)));
                }
                outs
            },
            Event::InterceptExclude(pids) => {
                let ghost pv = pids@;
                let ghost evv = EventView::InterceptExclude(pv);
                self.policy = Policy::InterceptExclude(pids);
                let outs: Vec<Output> = Vec::new();
                proof {
                    assert(pre.table.submap_of(pre.table));
                    let stepped = step(ModelState { table: pre.table, policy: pre.policy }, evv);
                    assert(self@.policy == stepped.0.policy);
                    assert(self@.table == pre.table);
                    assert(outputs_view(outs@) =~= Seq::<OutputView>::empty());
                    assert(step_rel(pre, evv, self@, outputs_view(outs@)));
                }
                outs
            },
        }
    }
}

} // verus!
