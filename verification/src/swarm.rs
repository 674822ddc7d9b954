//! A network of nodes with the packets under way between them, as a
//! mathematical model, and the proof that a flood in it comes to rest.

use vstd::prelude::*;
use crate::controller::DroneCommand;
use crate::laws::{lemma_spread_reaches_each_neighbor_once, packet_of};
use crate::network::NodeId;
use crate::packet::{PacketTypeView, PacketView};
use crate::protocol::{
    flood_request_for, on_command, on_packet, spread, EmissionView, NodeState, Rejection,
};

verus! {

/// Model of a network: the drones by identifier, and the packets that wait
/// at some node, each with the node it waits at. A packet that waits at an
/// identifier without a drone has reached a host and goes no further.
pub struct Swarm {
    pub nodes: Map<NodeId, NodeState>,
    pub in_flight: Seq<(NodeId, PacketView)>,
}

/// One thing that happens in a network.
pub enum Event {
    /// The packet at this place among those under way is handed to the node
    /// it waits at; the flag says whether that node drops it, should it carry
    /// a fragment.
    Deliver(int, bool),
    /// The controller sends a command to a node.
    Command(NodeId, DroneCommand),
}

/// Whether `packet` is a request of the flood `flood`.
pub open spec fn is_request_of(packet: PacketView, flood: (u64, NodeId)) -> bool {
    packet.pack_type matches PacketTypeView::FloodRequest(request) && (
        request.flood_id,
        request.initiator_id,
    ) == flood
}

/// The packets that a node puts under way: those of its emissions that go to
/// a neighbor, in order.
pub open spec fn to_neighbors(outbox: Seq<EmissionView>) -> Seq<(NodeId, PacketView)>
    decreases outbox.len(),
{
    if outbox.len() == 0 {
        Seq::empty()
    } else {
        let before = to_neighbors(outbox.drop_last());
        match outbox.last() {
            EmissionView::ToNeighbor(next_hop, packet) => before.push((next_hop, packet)),
            EmissionView::ToController(_) => before,
        }
    }
}

/// The packets that handling one packet puts under way.
pub open spec fn posted(outcome: Result<Seq<EmissionView>, Rejection>) -> Seq<(NodeId, PacketView)> {
    match outcome {
        Ok(outbox) => to_neighbors(outbox),
        Err(_) => Seq::empty(),
    }
}

/// The network after an event. Handing a packet over takes it out of those
/// under way; where a drone stands at its place, the drone handles it and
/// what it sends to neighbors is under way next. A command changes the drone
/// it is for. An event that names no packet, or no drone, changes nothing.
pub open spec fn happen(swarm: Swarm, event: Event) -> Swarm {
    match event {
        Event::Deliver(place, dropped) => if 0 <= place < swarm.in_flight.len() {
            let (at, packet) = swarm.in_flight[place];
            let rest = swarm.in_flight.remove(place);
            if swarm.nodes.contains_key(at) {
                let step = on_packet(swarm.nodes[at], packet, dropped);
                Swarm {
                    nodes: swarm.nodes.insert(at, step.state),
                    in_flight: rest + posted(step.outcome),
                }
            } else {
                Swarm { nodes: swarm.nodes, in_flight: rest }
            }
        } else {
            swarm
        },
        Event::Command(at, command) => if swarm.nodes.contains_key(at) {
            Swarm {
                nodes: swarm.nodes.insert(at, on_command(swarm.nodes[at], command)),
                in_flight: swarm.in_flight,
            }
        } else {
            swarm
        },
    }
}

/// The network after a list of events, first to last.
pub open spec fn after_events(swarm: Swarm, events: Seq<Event>) -> Swarm
    decreases events.len(),
{
    if events.len() == 0 {
        swarm
    } else {
        after_events(happen(swarm, events[0]), events.drop_first())
    }
}

/// Whether the event hands a request of the flood to whatever stands at its
/// place.
pub open spec fn hands_over(swarm: Swarm, event: Event, flood: (u64, NodeId)) -> bool {
    event matches Event::Deliver(place, _) && 0 <= place < swarm.in_flight.len() && is_request_of(
        swarm.in_flight[place].1,
        flood,
    )
}

/// How many of the events hand a request of the flood over.
pub open spec fn handed_over(swarm: Swarm, events: Seq<Event>, flood: (u64, NodeId)) -> nat
    decreases events.len(),
{
    if events.len() == 0 {
        0
    } else {
        let first: nat = if hands_over(swarm, events[0], flood) {
            1
        } else {
            0
        };
        first + handed_over(happen(swarm, events[0]), events.drop_first(), flood)
    }
}

/// How many of the packets are requests of the flood.
pub open spec fn requests_in(flight: Seq<(NodeId, PacketView)>, flood: (u64, NodeId)) -> nat
    decreases flight.len(),
{
    if flight.len() == 0 {
        0
    } else {
        let last: nat = if is_request_of(flight.last().1, flood) {
            1
        } else {
            0
        };
        requests_in(flight.drop_last(), flood) + last
    }
}

/// How many drones with an identifier below `upto` have not handled the
/// flood.
pub open spec fn unseen_below(nodes: Map<NodeId, NodeState>, flood: (u64, NodeId), upto: int) -> nat
    decreases upto,
{
    if upto <= 0 {
        0
    } else {
        let node = (upto - 1) as NodeId;
        let here: nat = if nodes.contains_key(node) && !nodes[node].seen.contains(flood) {
            1
        } else {
            0
        };
        unseen_below(nodes, flood, upto - 1) + here
    }
}

/// What is left for a flood to do: the requests under way, and 256 for each
/// drone that has not handled it, which is the most requests one drone sends.
pub open spec fn potential(swarm: Swarm, flood: (u64, NodeId)) -> nat {
    requests_in(swarm.in_flight, flood) + 256 * unseen_below(swarm.nodes, flood, 256)
}

/// The requests in two lists joined are those in the one and those in the
/// other.
proof fn lemma_requests_in_concat(
    a: Seq<(NodeId, PacketView)>,
    b: Seq<(NodeId, PacketView)>,
    flood: (u64, NodeId),
)
    ensures
        requests_in(a + b, flood) == requests_in(a, flood) + requests_in(b, flood),
    decreases b.len(),
{
    if b.len() == 0 {
        assert(a + b =~= a);
    } else {
        lemma_requests_in_concat(a, b.drop_last(), flood);
        assert((a + b).drop_last() =~= a + b.drop_last());
        assert((a + b).last() == b.last());
    }
}

/// Taking a packet out of a list takes one request away if it was one, and
/// none if it was not.
proof fn lemma_requests_in_remove(flight: Seq<(NodeId, PacketView)>, place: int, flood: (u64, NodeId))
    requires
        0 <= place < flight.len(),
    ensures
        requests_in(flight.remove(place), flood) + (if is_request_of(flight[place].1, flood) {
            1nat
        } else {
            0nat
        }) == requests_in(flight, flood),
    decreases flight.len(),
{
    if place == flight.len() - 1 {
        assert(flight.remove(place) =~= flight.drop_last());
    } else {
        lemma_requests_in_remove(flight.drop_last(), place, flood);
        assert(flight.remove(place).drop_last() =~= flight.drop_last().remove(place));
        assert(flight.remove(place).last() == flight.last());
    }
}

/// What is put under way holds no more requests than there are emissions, and
/// none where no emission carries one.
proof fn lemma_requests_in_bounded(outbox: Seq<EmissionView>, flood: (u64, NodeId))
    ensures
        requests_in(to_neighbors(outbox), flood) <= outbox.len(),
        (forall|i: int| 0 <= i < outbox.len() ==> !is_request_of(#[trigger] packet_of(outbox[i]), flood))
            ==> requests_in(to_neighbors(outbox), flood) == 0,
    decreases outbox.len(),
{
    if outbox.len() > 0 {
        let front = outbox.drop_last();
        lemma_requests_in_bounded(front, flood);
        let before = to_neighbors(front);
        match outbox.last() {
            EmissionView::ToNeighbor(next_hop, packet) => {
                assert(to_neighbors(outbox).drop_last() =~= before);
                assert(to_neighbors(outbox).last() == (next_hop, packet));
            },
            EmissionView::ToController(_) => {},
        }
        if forall|i: int| 0 <= i < outbox.len() ==> !is_request_of(#[trigger] packet_of(outbox[i]), flood) {
            assert forall|i: int| 0 <= i < front.len() implies !is_request_of(
                #[trigger] packet_of(front[i]),
                flood,
            ) by {
                assert(front[i] == outbox[i]);
            }
            assert(!is_request_of(packet_of(outbox[outbox.len() - 1]), flood));
        }
    }
}

/// A node passes on no more copies than there are identifiers to try.
proof fn lemma_spread_length(state: NodeState, packet: PacketView, except: NodeId, upto: int)
    requires
        0 <= upto,
    ensures
        spread(state, packet, except, upto).len() <= upto,
    decreases upto,
{
    if upto > 0 {
        lemma_spread_length(state, packet, except, upto - 1);
    }
}

/// When one drone changes and does not forget the flood, the drones that
/// have not handled it are one fewer if this one just has, and as many as
/// before if not.
proof fn lemma_unseen_after_change(
    nodes: Map<NodeId, NodeState>,
    at: NodeId,
    next: NodeState,
    flood: (u64, NodeId),
    upto: int,
)
    requires
        0 <= upto <= 256,
        nodes.contains_key(at),
        nodes[at].seen.contains(flood) ==> next.seen.contains(flood),
    ensures
        unseen_below(nodes.insert(at, next), flood, upto) + (if at < upto && !nodes[at].seen.contains(
            flood,
        ) && next.seen.contains(flood) {
            1nat
        } else {
            0nat
        }) == unseen_below(nodes, flood, upto),
    decreases upto,
{
    if upto > 0 {
        lemma_unseen_after_change(nodes, at, next, flood, upto - 1);
    }
}

/// Handling a packet that is no request of the flood sends no request of the
/// flood, and lets the node remember the flood exactly if it did before.
pub proof fn lemma_other_packets_leave_the_flood_alone(
    state: NodeState,
    packet: PacketView,
    dropped: bool,
    flood: (u64, NodeId),
)
    requires
        !is_request_of(packet, flood),
    ensures
        requests_in(posted(on_packet(state, packet, dropped).outcome), flood) == 0,
        on_packet(state, packet, dropped).state.seen.contains(flood) == state.seen.contains(flood),
{
    let step = on_packet(state, packet, dropped);
    match step.outcome {
        Ok(outbox) => {
            assert forall|i: int| 0 <= i < outbox.len() implies !is_request_of(
                #[trigger] packet_of(outbox[i]),
                flood,
            ) by {
                if packet.pack_type is FloodRequest {
                    let request = packet.pack_type->FloodRequest_0;
                    if !(state.seen.contains((request.flood_id, request.initiator_id))
                        || state.links.dom().len() == 1) {
                        lemma_spread_reaches_each_neighbor_once(
                            state,
                            flood_request_for(
                                state.id,
                                request,
                                packet.routing_header,
                                packet.session_id,
                            ),
                            request.path_trace.last().0,
                            256,
                        );
                    }
                }
            }
            lemma_requests_in_bounded(outbox, flood);
        },
        Err(_) => {},
    }
}

/// Handling a request of the flood leaves the node remembering it, and sends
/// at most 256 requests if the node did not remember it before, and none if
/// it did.
proof fn lemma_request_is_used_up(state: NodeState, packet: PacketView, dropped: bool, flood: (u64, NodeId))
    requires
        is_request_of(packet, flood),
    ensures
        on_packet(state, packet, dropped).state.seen.contains(flood),
        requests_in(posted(on_packet(state, packet, dropped).outcome), flood) <= 256,
        state.seen.contains(flood) ==> requests_in(
            posted(on_packet(state, packet, dropped).outcome),
            flood,
        ) == 0,
{
    let step = on_packet(state, packet, dropped);
    let request = packet.pack_type->FloodRequest_0;
    match step.outcome {
        Ok(outbox) => {
            lemma_requests_in_bounded(outbox, flood);
            if state.seen.contains(flood) || state.links.dom().len() == 1 {
                assert(outbox.len() == 1);
                assert(packet_of(outbox[0]).pack_type is FloodResponse);
            } else {
                lemma_spread_length(
                    state,
                    flood_request_for(
                        state.id,
                        request,
                        packet.routing_header,
                        packet.session_id,
                    ),
                    request.path_trace.last().0,
                    256,
                );
            }
        },
        Err(_) => {},
    }
}

/// Every event that hands a request of a flood over uses up some of what is
/// left for the flood to do, and no other event adds to it.
pub proof fn lemma_event_lowers_potential(swarm: Swarm, event: Event, flood: (u64, NodeId))
    ensures
        potential(happen(swarm, event), flood) + (if hands_over(swarm, event, flood) {
            1nat
        } else {
            0nat
        }) <= potential(swarm, flood),
{
    let next = happen(swarm, event);
    match event {
        Event::Deliver(place, dropped) => {
            if 0 <= place < swarm.in_flight.len() {
                let (at, packet) = swarm.in_flight[place];
                let rest = swarm.in_flight.remove(place);
                lemma_requests_in_remove(swarm.in_flight, place, flood);
                if swarm.nodes.contains_key(at) {
                    let state = swarm.nodes[at];
                    let step = on_packet(state, packet, dropped);
                    lemma_requests_in_concat(rest, posted(step.outcome), flood);
                    if is_request_of(packet, flood) {
                        lemma_request_is_used_up(state, packet, dropped, flood);
                    } else {
                        lemma_other_packets_leave_the_flood_alone(state, packet, dropped, flood);
                    }
                    lemma_unseen_after_change(swarm.nodes, at, step.state, flood, 256);
                }
            }
        },
        Event::Command(at, command) => {
            if swarm.nodes.contains_key(at) {
                lemma_unseen_after_change(
                    swarm.nodes,
                    at,
                    on_command(swarm.nodes[at], command),
                    flood,
                    256,
                );
            }
        },
    }
}

/// A flood comes to rest. In any network, whatever its links, and whatever
/// order the packets are handed over in, the number of times that a request
/// of one flood is handed over is bounded by what the network starts with:
/// the requests under way, and 256 for each drone that has not handled the
/// flood. No run goes beyond that, however long it is.
pub proof fn lemma_flood_comes_to_rest(swarm: Swarm, events: Seq<Event>, flood: (u64, NodeId))
    ensures
        handed_over(swarm, events, flood) + potential(after_events(swarm, events), flood)
            <= potential(swarm, flood),
        handed_over(swarm, events, flood) <= requests_in(swarm.in_flight, flood) + 256 * 256,
    decreases events.len(),
{
    if events.len() > 0 {
        lemma_event_lowers_potential(swarm, events[0], flood);
        lemma_flood_comes_to_rest(happen(swarm, events[0]), events.drop_first(), flood);
    }
    lemma_unseen_bounded(swarm.nodes, flood, 256);
}

/// There are no more drones that have not handled a flood than identifiers.
proof fn lemma_unseen_bounded(nodes: Map<NodeId, NodeState>, flood: (u64, NodeId), upto: int)
    requires
        0 <= upto,
    ensures
        unseen_below(nodes, flood, upto) <= upto,
    decreases upto,
{
    if upto > 0 {
        lemma_unseen_bounded(nodes, flood, upto - 1);
    }
}

/// A drone that is handed a request of a flood remembers the flood from then
/// on, whatever happens in the network afterwards.
pub proof fn lemma_reached_drone_remembers(
    swarm: Swarm,
    place: int,
    dropped: bool,
    later: Seq<Event>,
    flood: (u64, NodeId),
)
    requires
        hands_over(swarm, Event::Deliver(place, dropped), flood),
        swarm.nodes.contains_key(swarm.in_flight[place].0),
    ensures
        after_events(happen(swarm, Event::Deliver(place, dropped)), later).nodes.contains_key(
            swarm.in_flight[place].0,
        ),
        after_events(happen(swarm, Event::Deliver(place, dropped)), later).nodes[swarm.in_flight[place].0].seen.contains(
            flood,
        ),
{
    let at = swarm.in_flight[place].0;
    lemma_seen_stays(happen(swarm, Event::Deliver(place, dropped)), later, at, flood);
}

/// A drone that remembers a flood is still there and still remembers it
/// after any events.
pub proof fn lemma_seen_stays(swarm: Swarm, events: Seq<Event>, at: NodeId, flood: (u64, NodeId))
    requires
        swarm.nodes.contains_key(at),
        swarm.nodes[at].seen.contains(flood),
    ensures
        after_events(swarm, events).nodes.contains_key(at),
        after_events(swarm, events).nodes[at].seen.contains(flood),
    decreases events.len(),
{
    if events.len() > 0 {
        lemma_seen_stays(happen(swarm, events[0]), events.drop_first(), at, flood);
    }
}

} // verus!
