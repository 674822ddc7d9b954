//! A flood reaches every drone that can be reached: the proof, over the model
//! of a network, that once no request of a flood is under way any more, every
//! drone that is linked to one that has handled the flood has handled it too.

use vstd::prelude::*;
use crate::laws::{lemma_spread_reaches_each_neighbor_once, packet_of};
use crate::network::NodeId;
use crate::packet::PacketView;
use crate::protocol::{flood_request_for, on_packet, spread, EmissionView, NodeState, Rejection};
use crate::swarm::{
    after_events, happen, is_request_of, lemma_other_packets_leave_the_flood_alone, posted,
    to_neighbors, Event, Swarm,
};

verus! {

/// Whether a request of the flood waits at drone `at`.
pub open spec fn awaits(flight: Seq<(NodeId, PacketView)>, at: NodeId, flood: (u64, NodeId)) -> bool {
    exists|packet: PacketView| #[trigger] flight.contains((at, packet)) && is_request_of(packet, flood)
}

/// The node that a flood request says it came from: the last of its trace.
pub open spec fn sender_of(packet: PacketView) -> NodeId {
    packet.pack_type->FloodRequest_0.path_trace.last().0
}

/// Whether the flood is spreading in good order from the drone `origin`:
/// - every drone stands under its own identifier and has finitely many links;
/// - links between drones go both ways;
/// - every request of the flood that waits at a drone names a sender that the
///   drone has a link to, and that has handled the flood if it is a drone;
/// - `origin` has handled the flood, or a request of it waits there;
/// - whenever a drone that has handled the flood has a link to a drone, that
///   drone has handled the flood too, or a request of it waits there.
pub open spec fn spreading(swarm: Swarm, flood: (u64, NodeId), origin: NodeId) -> bool {
    &&& forall|k: NodeId| #[trigger]
        swarm.nodes.contains_key(k) ==> swarm.nodes[k].id == k && swarm.nodes[k].links.dom().finite()
    &&& forall|u: NodeId, v: NodeId|
        swarm.nodes.contains_key(u) && swarm.nodes.contains_key(v) && #[trigger] swarm.nodes[u].linked(
            v,
        ) ==> swarm.nodes[v].linked(u)
    &&& forall|at: NodeId, packet: PacketView| #[trigger]
        swarm.in_flight.contains((at, packet)) && is_request_of(packet, flood)
            && swarm.nodes.contains_key(at) ==> {
            &&& packet.pack_type->FloodRequest_0.path_trace.len() > 0
            &&& swarm.nodes[at].linked(sender_of(packet))
            &&& swarm.nodes.contains_key(sender_of(packet)) ==> swarm.nodes[sender_of(
                packet,
            )].seen.contains(flood)
        }
    &&& swarm.nodes.contains_key(origin)
    &&& swarm.nodes[origin].seen.contains(flood) || awaits(swarm.in_flight, origin, flood)
    &&& forall|u: NodeId, v: NodeId|
        swarm.nodes.contains_key(u) && swarm.nodes[u].seen.contains(flood) && #[trigger] swarm.nodes[u].linked(
            v,
        ) && swarm.nodes.contains_key(v) ==> swarm.nodes[v].seen.contains(flood) || awaits(
            swarm.in_flight,
            v,
            flood,
        )
}

/// Whether no request of the flood waits at any drone.
pub open spec fn settled(swarm: Swarm, flood: (u64, NodeId)) -> bool {
    forall|at: NodeId| swarm.nodes.contains_key(at) ==> !#[trigger] awaits(swarm.in_flight, at, flood)
}

/// Whether `path` leads from drone to drone over links.
pub open spec fn is_path(swarm: Swarm, path: Seq<NodeId>) -> bool {
    &&& path.len() > 0
    &&& forall|i: int| 0 <= i < path.len() ==> swarm.nodes.contains_key(#[trigger] path[i])
    &&& forall|i: int| 0 <= i < path.len() - 1 ==> #[trigger] swarm.nodes[path[i]].linked(path[i + 1])
}

/// Whether every event hands a packet over.
pub open spec fn only_deliveries(events: Seq<Event>) -> bool {
    forall|i: int| 0 <= i < events.len() ==> #[trigger] events[i] is Deliver
}

/// What a list holds after one element has left it, it held before; and what
/// it held before, it still holds, unless it is the element that left.
proof fn lemma_remove_contains<A>(s: Seq<A>, place: int, e: A)
    requires
        0 <= place < s.len(),
    ensures
        s.remove(place).contains(e) ==> s.contains(e),
        s.contains(e) ==> s.remove(place).contains(e) || e == s[place],
{
    let r = s.remove(place);
    if r.contains(e) {
        let i = choose|i: int| 0 <= i < r.len() && r[i] == e;
        if i < place {
            assert(s[i] == e);
        } else {
            assert(s[i + 1] == e);
        }
    }
    if s.contains(e) && e != s[place] {
        let i = choose|i: int| 0 <= i < s.len() && s[i] == e;
        if i < place {
            assert(r[i] == e);
        } else {
            assert(r[i - 1] == e);
        }
    }
}

/// Two lists joined hold what the one or the other holds.
proof fn lemma_concat_contains<A>(a: Seq<A>, b: Seq<A>, e: A)
    ensures
        (a + b).contains(e) <==> a.contains(e) || b.contains(e),
{
    let c = a + b;
    if c.contains(e) {
        let i = choose|i: int| 0 <= i < c.len() && c[i] == e;
        if i < a.len() {
            assert(a[i] == e);
        } else {
            assert(b[i - a.len()] == e);
        }
    }
    if a.contains(e) {
        let i = choose|i: int| 0 <= i < a.len() && a[i] == e;
        assert(c[i] == e);
    }
    if b.contains(e) {
        let i = choose|i: int| 0 <= i < b.len() && b[i] == e;
        assert(c[a.len() + i] == e);
    }
}

/// A packet is put under way for a node exactly if it is emitted for that
/// node as a neighbor.
proof fn lemma_to_neighbors_contains(outbox: Seq<EmissionView>, e: (NodeId, PacketView))
    ensures
        to_neighbors(outbox).contains(e) <==> outbox.contains(EmissionView::ToNeighbor(e.0, e.1)),
    decreases outbox.len(),
{
    let wanted = EmissionView::ToNeighbor(e.0, e.1);
    if outbox.len() > 0 {
        let front = outbox.drop_last();
        let before = to_neighbors(front);
        lemma_to_neighbors_contains(front, e);
        let now = to_neighbors(outbox);
        if now.contains(e) {
            let i = choose|i: int| 0 <= i < now.len() && now[i] == e;
            if i < before.len() {
                assert(before[i] == e);
                let j = choose|j: int| 0 <= j < front.len() && front[j] == wanted;
                assert(outbox[j] == wanted);
            } else {
                assert(outbox[outbox.len() - 1] == wanted);
            }
        }
        if outbox.contains(wanted) {
            let j = choose|j: int| 0 <= j < outbox.len() && outbox[j] == wanted;
            if j < front.len() {
                assert(front[j] == wanted);
                let i = choose|i: int| 0 <= i < before.len() && before[i] == e;
                assert(now[i] == e);
            } else {
                assert(now[now.len() - 1] == e);
            }
        }
    }
}

/// What a drone puts under way for a packet that is no request of the flood
/// holds no request of the flood.
proof fn lemma_other_packets_post_no_request(
    state: NodeState,
    packet: PacketView,
    dropped: bool,
    flood: (u64, NodeId),
    e: (NodeId, PacketView),
)
    requires
        !is_request_of(packet, flood),
        posted(on_packet(state, packet, dropped).outcome).contains(e),
    ensures
        !is_request_of(e.1, flood),
{
    let outbox = on_packet(state, packet, dropped).outcome.unwrap();
    lemma_to_neighbors_contains(outbox, e);
    let j = choose|j: int| 0 <= j < outbox.len() && outbox[j] == EmissionView::ToNeighbor(e.0, e.1);
    if packet.pack_type is FloodRequest {
        let request = packet.pack_type->FloodRequest_0;
        if !(state.seen.contains((request.flood_id, request.initiator_id)) || state.links.dom().len()
            == 1) {
            lemma_spread_reaches_each_neighbor_once(
                state,
                flood_request_for(state.id, request, packet.routing_header, packet.session_id),
                request.path_trace.last().0,
                256,
            );
            assert(packet_of(outbox[j]) == e.1);
        }
    }
}

/// A drone with exactly one link has no link but that one.
proof fn lemma_only_link(state: NodeState, one: NodeId, other: NodeId)
    requires
        state.links.dom().finite(),
        state.links.dom().len() == 1,
        state.linked(one),
        state.linked(other),
    ensures
        one == other,
{
    let rest = state.links.dom().remove(one);
    assert(rest.len() == 0);
    if other != one {
        assert(rest.contains(other));
    }
}

/// Handing one packet over keeps a flood spreading in good order.
pub proof fn lemma_delivery_keeps_spreading(
    swarm: Swarm,
    place: int,
    dropped: bool,
    flood: (u64, NodeId),
    origin: NodeId,
)
    requires
        spreading(swarm, flood, origin),
    ensures
        spreading(happen(swarm, Event::Deliver(place, dropped)), flood, origin),
{
    let next = happen(swarm, Event::Deliver(place, dropped));
    if 0 <= place < swarm.in_flight.len() {
        let (at, packet) = swarm.in_flight[place];
        let rest = swarm.in_flight.remove(place);
        assert(swarm.in_flight.contains((at, packet)));
        assert forall|e: (NodeId, PacketView)| #[trigger] rest.contains(e) implies swarm.in_flight.contains(
            e,
        ) by {
            lemma_remove_contains(swarm.in_flight, place, e);
        }
        if !swarm.nodes.contains_key(at) {
            assert(next.in_flight == rest);
            assert forall|v: NodeId|
                swarm.nodes.contains_key(v) && awaits(swarm.in_flight, v, flood) implies awaits(
                rest,
                v,
                flood,
            ) by {
                let q = choose|q: PacketView| #[trigger]
                    swarm.in_flight.contains((v, q)) && is_request_of(q, flood);
                lemma_remove_contains(swarm.in_flight, place, (v, q));
                assert(rest.contains((v, q)));
            }
        } else {
            let state = swarm.nodes[at];
            let step = on_packet(state, packet, dropped);
            let sent = posted(step.outcome);
            assert(next.in_flight == rest + sent);
            assert(next.nodes == swarm.nodes.insert(at, step.state));
            assert(step.state.links == state.links);
            assert(step.state.id == state.id);
            assert(state.seen.contains(flood) ==> step.state.seen.contains(flood));
            assert forall|e: (NodeId, PacketView)| #[trigger]
                next.in_flight.contains(e) implies rest.contains(e) || sent.contains(e) by {
                lemma_concat_contains(rest, sent, e);
            }
            assert forall|e: (NodeId, PacketView)| rest.contains(e) || sent.contains(e) implies #[trigger] next.in_flight.contains(
                e,
            ) by {
                lemma_concat_contains(rest, sent, e);
            }
            // A request that waited at another drone still waits there.
            assert forall|v: NodeId|
                v != at && awaits(swarm.in_flight, v, flood) implies awaits(next.in_flight, v, flood) by {
                let q = choose|q: PacketView| #[trigger]
                    swarm.in_flight.contains((v, q)) && is_request_of(q, flood);
                lemma_remove_contains(swarm.in_flight, place, (v, q));
                assert(rest.contains((v, q)));
                assert(next.in_flight.contains((v, q)));
            }
            if is_request_of(packet, flood) {
                let request = packet.pack_type->FloodRequest_0;
                let from = sender_of(packet);
                assert(step.state.seen.contains(flood));
                assert(state.linked(from));
                if state.seen.contains(flood) || state.links.dom().len() == 1 {
                    // The drone answers: nothing new waits anywhere.
                    assert forall|e: (NodeId, PacketView)| #[trigger] sent.contains(e) implies !is_request_of(
                        e.1,
                        flood,
                    ) by {
                        let outbox = step.outcome.unwrap();
                        lemma_to_neighbors_contains(outbox, e);
                        let j = choose|j: int|
                            0 <= j < outbox.len() && outbox[j] == EmissionView::ToNeighbor(e.0, e.1);
                        assert(outbox.len() == 1);
                    }
                    assert forall|v: NodeId|
                        next.nodes.contains_key(at) && next.nodes[at].seen.contains(flood)
                            && #[trigger] next.nodes[at].linked(v) && next.nodes.contains_key(
                            v,
                        ) implies next.nodes[v].seen.contains(flood) || awaits(
                        next.in_flight,
                        v,
                        flood,
                    ) by {
                        if v != at {
                            if state.seen.contains(flood) {
                                assert(swarm.nodes[at].linked(v));
                            } else {
                                lemma_only_link(state, from, v);
                            }
                        }
                    }
                } else {
                    // The drone passes the request on to every neighbor but the sender.
                    let copy = flood_request_for(
                        state.id,
                        request,
                        packet.routing_header,
                        packet.session_id,
                    );
                    let outbox = spread(state, copy, from, 256);
                    assert(step.outcome == Ok::<Seq<EmissionView>, Rejection>(
                        outbox,
                    ));
                    lemma_spread_reaches_each_neighbor_once(state, copy, from, 256);
                    assert(sender_of(copy) == at);
                    assert forall|e: (NodeId, PacketView)| #[trigger] sent.contains(e) implies e.1
                        == copy && state.linked(e.0) by {
                        lemma_to_neighbors_contains(outbox, e);
                        let j = choose|j: int|
                            0 <= j < outbox.len() && outbox[j] == EmissionView::ToNeighbor(e.0, e.1);
                        assert(packet_of(outbox[j]) == copy);
                    }
                    assert forall|v: NodeId|
                        next.nodes.contains_key(at) && next.nodes[at].seen.contains(flood)
                            && #[trigger] next.nodes[at].linked(v) && next.nodes.contains_key(
                            v,
                        ) implies next.nodes[v].seen.contains(flood) || awaits(
                        next.in_flight,
                        v,
                        flood,
                    ) by {
                        if v != at && v != from {
                            assert(state.linked(v));
                            assert(outbox.contains(EmissionView::ToNeighbor(v, copy)));
                            lemma_to_neighbors_contains(outbox, (v, copy));
                            assert(sent.contains((v, copy)));
                            assert(next.in_flight.contains((v, copy)));
                        }
                    }
                    assert forall|to: NodeId, q: PacketView| #[trigger]
                        next.in_flight.contains((to, q)) && is_request_of(q, flood)
                            && next.nodes.contains_key(to) implies {
                        &&& q.pack_type->FloodRequest_0.path_trace.len() > 0
                        &&& next.nodes[to].linked(sender_of(q))
                        &&& next.nodes.contains_key(sender_of(q)) ==> next.nodes[sender_of(
                            q,
                        )].seen.contains(flood)
                    } by {
                        if sent.contains((to, q)) {
                            assert(q == copy && state.linked(to));
                            assert(swarm.nodes[at].linked(to));
                            assert(swarm.nodes[to].linked(at));
                        } else {
                            assert(rest.contains((to, q)));
                            assert(swarm.in_flight.contains((to, q)));
                        }
                    }
                }
            } else {
                assert forall|e: (NodeId, PacketView)| #[trigger] sent.contains(e) implies !is_request_of(
                    e.1,
                    flood,
                ) by {
                    lemma_other_packets_post_no_request(state, packet, dropped, flood, e);
                }
                lemma_other_packets_leave_the_flood_alone(state, packet, dropped, flood);
                assert(step.state.seen.contains(flood) == state.seen.contains(flood));
                // The packet handed over was no request, so whatever waited at
                // this drone still waits there.
                if awaits(swarm.in_flight, at, flood) {
                    let q = choose|q: PacketView| #[trigger]
                        swarm.in_flight.contains((at, q)) && is_request_of(q, flood);
                    lemma_remove_contains(swarm.in_flight, place, (at, q));
                    assert(rest.contains((at, q)));
                    assert(next.in_flight.contains((at, q)));
                }
            }
            // What still waits from before is as honest as it was.
            assert forall|to: NodeId, q: PacketView| #[trigger]
                next.in_flight.contains((to, q)) && is_request_of(q, flood) && next.nodes.contains_key(
                    to,
                ) && rest.contains((to, q)) implies {
                &&& q.pack_type->FloodRequest_0.path_trace.len() > 0
                &&& next.nodes[to].linked(sender_of(q))
                &&& next.nodes.contains_key(sender_of(q)) ==> next.nodes[sender_of(q)].seen.contains(
                    flood,
                )
            } by {
                assert(swarm.in_flight.contains((to, q)));
            }
            // Drones other than this one are as they were.
            assert forall|u: NodeId, v: NodeId|
                next.nodes.contains_key(u) && next.nodes[u].seen.contains(flood)
                    && #[trigger] next.nodes[u].linked(v) && next.nodes.contains_key(v) && u
                    != at implies next.nodes[v].seen.contains(flood) || awaits(
                next.in_flight,
                v,
                flood,
            ) by {
                assert(swarm.nodes[u].linked(v));
                if v == at {
                    if !step.state.seen.contains(flood) {
                        assert(awaits(swarm.in_flight, at, flood));
                    }
                }
            }
            if origin != at {
                assert(next.nodes[origin] == swarm.nodes[origin]);
            }
            // The links are as they were.
            assert forall|u: NodeId, v: NodeId|
                next.nodes.contains_key(u) && next.nodes.contains_key(v)
                    && #[trigger] next.nodes[u].linked(v) implies next.nodes[v].linked(u) by {
                assert(next.nodes[u].links == swarm.nodes[u].links);
                assert(next.nodes[v].links == swarm.nodes[v].links);
                assert(swarm.nodes[u].linked(v));
            }
        }
    }
}

/// Any number of packets handed over keeps a flood spreading in good order.
pub proof fn lemma_deliveries_keep_spreading(
    swarm: Swarm,
    events: Seq<Event>,
    flood: (u64, NodeId),
    origin: NodeId,
)
    requires
        spreading(swarm, flood, origin),
        only_deliveries(events),
    ensures
        spreading(after_events(swarm, events), flood, origin),
    decreases events.len(),
{
    if events.len() > 0 {
        let first = events[0];
        lemma_delivery_keeps_spreading(swarm, first->Deliver_0, first->Deliver_1, flood, origin);
        assert(only_deliveries(events.drop_first())) by {
            assert forall|i: int| 0 <= i < events.drop_first().len() implies #[trigger] events.drop_first()[i] is Deliver by {
                assert(events.drop_first()[i] == events[i + 1]);
            }
        }
        lemma_deliveries_keep_spreading(
            happen(swarm, first),
            events.drop_first(),
            flood,
            origin,
        );
    }
}

/// Once a flood that spreads in good order has come to rest, every drone at
/// the end of a path of links from a drone that has handled it has handled it.
pub proof fn lemma_settled_flood_follows_paths(
    swarm: Swarm,
    flood: (u64, NodeId),
    origin: NodeId,
    path: Seq<NodeId>,
)
    requires
        spreading(swarm, flood, origin),
        settled(swarm, flood),
        is_path(swarm, path),
        swarm.nodes[path[0]].seen.contains(flood),
    ensures
        swarm.nodes[path.last()].seen.contains(flood),
    decreases path.len(),
{
    if path.len() > 1 {
        let shorter = path.drop_last();
        assert forall|i: int| 0 <= i < shorter.len() implies swarm.nodes.contains_key(
            #[trigger] shorter[i],
        ) by {
            assert(shorter[i] == path[i]);
        }
        assert forall|i: int| 0 <= i < shorter.len() - 1 implies #[trigger] swarm.nodes[shorter[i]].linked(
            shorter[i + 1],
        ) by {
            assert(shorter[i] == path[i]);
            assert(shorter[i + 1] == path[i + 1]);
            assert(swarm.nodes[path[i]].linked(path[i + 1]));
        }
        lemma_settled_flood_follows_paths(swarm, flood, origin, shorter);
        let u = path[path.len() - 2];
        let v = path[path.len() - 1];
        assert(shorter.last() == u);
        assert(swarm.nodes[path[path.len() - 2]].linked(path[path.len() - 2 + 1]));
        assert(swarm.nodes[u].linked(v));
        assert(!awaits(swarm.in_flight, v, flood));
    }
}

/// A flood reaches every drone that can be reached. Take a network in which
/// every drone stands under its own identifier and the links between drones
/// go both ways; let no drone have handled the flood, and let one request of
/// it wait at the drone `origin`, sent by a node that `origin` has a link to
/// and that is no drone. Let packets be handed over in any order. Then, once
/// no request of the flood waits at any drone, `origin` has handled the flood,
/// and so has every drone at the end of a path of links from `origin`.
pub proof fn lemma_flood_reaches_every_drone(
    swarm: Swarm,
    events: Seq<Event>,
    flood: (u64, NodeId),
    origin: NodeId,
    path: Seq<NodeId>,
)
    requires
        forall|k: NodeId| #[trigger]
            swarm.nodes.contains_key(k) ==> swarm.nodes[k].id == k
                && swarm.nodes[k].links.dom().finite() && !swarm.nodes[k].seen.contains(flood),
        forall|u: NodeId, v: NodeId|
            swarm.nodes.contains_key(u) && swarm.nodes.contains_key(v)
                && #[trigger] swarm.nodes[u].linked(v) ==> swarm.nodes[v].linked(u),
        swarm.nodes.contains_key(origin),
        swarm.in_flight.len() == 1,
        swarm.in_flight[0].0 == origin,
        is_request_of(swarm.in_flight[0].1, flood),
        swarm.in_flight[0].1.pack_type->FloodRequest_0.path_trace.len() > 0,
        swarm.nodes[origin].linked(sender_of(swarm.in_flight[0].1)),
        !swarm.nodes.contains_key(sender_of(swarm.in_flight[0].1)),
        only_deliveries(events),
        settled(after_events(swarm, events), flood),
        is_path(after_events(swarm, events), path),
        path[0] == origin,
    ensures
        after_events(swarm, events).nodes[origin].seen.contains(flood),
        after_events(swarm, events).nodes[path.last()].seen.contains(flood),
{
    assert(spreading(swarm, flood, origin)) by {
        assert(swarm.in_flight.contains(swarm.in_flight[0]));
        assert(swarm.in_flight.contains((origin, swarm.in_flight[0].1)));
        assert forall|at: NodeId, packet: PacketView| #[trigger]
            swarm.in_flight.contains((at, packet)) implies (at, packet) == swarm.in_flight[0] by {
            let i = choose|i: int| 0 <= i < swarm.in_flight.len() && swarm.in_flight[i] == (at, packet);
        }
    }
    lemma_deliveries_keep_spreading(swarm, events, flood, origin);
    let end = after_events(swarm, events);
    assert(!awaits(end.in_flight, origin, flood));
    lemma_settled_flood_follows_paths(end, flood, origin, path);
}

} // verus!
