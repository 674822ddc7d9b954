//! What a node does with a packet or a command, stated over mathematical
//! models: a function from the node's state and the message to the next state
//! and the packets to emit.

use crossbeam_channel::Sender;
use vstd::prelude::*;
use crate::controller::DroneCommand;
use crate::network::{NodeId, Route};
use crate::packet::{
    trace_ids, FloodRequestView, FloodResponseView, Fragment, Nack, NackType, NodeType, Packet,
    PacketTypeView, PacketView,
};
use crate::packet_buffer::{after_put, after_take, keys, lookup, Key};

verus! {

/// Model of a node.
pub struct NodeState {
    /// The node's own identifier.
    pub id: NodeId,
    /// The share of fragments to drop, in percent.
    pub pdr: u8,
    /// The channel to each neighbor.
    pub links: Map<NodeId, Sender<Packet>>,
    /// The floods already handled, by identifier and initiator.
    pub seen: Set<(u64, NodeId)>,
    /// The cached fragments, oldest first.
    pub cache: Seq<(Key, Fragment)>,
    /// The capacity of the cache.
    pub capacity: nat,
}

/// Model of one thing a node emits.
pub enum EmissionView {
    /// The packet goes to this neighbor, to which the node has a link. Should
    /// the link refuse it, the packet is reported to the controller instead.
    ToNeighbor(NodeId, PacketView),
    /// The packet has no next hop that the node is linked to: it is reported
    /// to the controller as dropped.
    ToController(PacketView),
}

/// One thing a node emits.
#[derive(Debug, PartialEq, Eq)]
pub enum Emission {
    /// The packet goes to this neighbor, to which the node has a link.
    ToNeighbor(NodeId, Packet),
    /// The packet is reported to the controller as dropped.
    ToController(Packet),
}

impl View for Emission {
    type V = EmissionView;

    open spec fn view(&self) -> EmissionView {
        match *self {
            Emission::ToNeighbor(next_hop, packet) => EmissionView::ToNeighbor(next_hop, packet@),
            Emission::ToController(packet) => EmissionView::ToController(packet@),
        }
    }
}

/// The models of a list of emissions, in the list's order.
pub open spec fn outbox_view(outbox: Seq<Emission>) -> Seq<EmissionView> {
    Seq::new(outbox.len(), |i: int| outbox[i]@)
}

/// The model of what a handler returns.
pub open spec fn outcome_view(outcome: Result<Vec<Emission>, Rejection>) -> Result<
    Seq<EmissionView>,
    Rejection,
> {
    match outcome {
        Ok(outbox) => Ok(outbox_view(outbox@)),
        Err(rejection) => Err(rejection),
    }
}

/// Why a packet was turned away without anything being emitted.
#[derive(Clone, Copy, Debug, PartialEq, Eq, Structural)]
pub enum Rejection {
    /// A flood request arrived with an empty path trace, so that the node
    /// cannot tell where it came from.
    EmptyPathTrace,
    /// An acknowledgment arrived whose route has no hop behind the next one.
    NoFurtherHop,
}

/// What handling one packet leads to.
pub struct Step {
    /// The node afterwards.
    pub state: NodeState,
    /// What the node emits, in order, or why it turned the packet away.
    pub outcome: Result<Seq<EmissionView>, Rejection>,
}

impl NodeState {
    /// A node is valid when no key occurs twice in its cache and its links are
    /// finitely many.
    pub open spec fn valid(self) -> bool {
        &&& keys(self.cache).no_duplicates()
        &&& self.links.dom().finite()
    }

    /// Whether the node has a link to `node`.
    pub open spec fn linked(self, node: NodeId) -> bool {
        self.links.contains_key(node)
    }

    /// How `packet` leaves the node: to the hop under its cursor where the
    /// node has a link to it, else to the controller.
    pub open spec fn emit(self, packet: PacketView) -> EmissionView {
        match packet.routing_header.current_hop() {
            Some(next_hop) => if self.linked(next_hop) {
                EmissionView::ToNeighbor(next_hop, packet)
            } else {
                EmissionView::ToController(packet)
            },
            None => EmissionView::ToController(packet),
        }
    }
}

/// Whether a fragment is dropped at drop rate `pdr`, in percent, when the
/// number drawn for it, from 1 to 100, is `roll`.
pub open spec fn drops(pdr: u8, roll: u8) -> bool {
    roll <= pdr
}

/// The same packet with the cursor moved one hop on.
pub open spec fn advanced(packet: PacketView) -> PacketView {
    PacketView {
        routing_header: packet.routing_header.advanced(),
        session_id: packet.session_id,
        pack_type: packet.pack_type,
    }
}

/// The negative acknowledgment for `packet`, whose cursor stands behind the
/// node that refuses it. It travels the packet's route backwards and keeps its
/// session. For a dropped fragment it names the fragment's index and the kind
/// `Dropped`; else it names index zero and the given kind.
pub open spec fn nack_for(packet: PacketView, fragment: Option<Fragment>, kind: NackType) -> PacketView {
    PacketView {
        routing_header: packet.routing_header.reversed(),
        session_id: packet.session_id,
        pack_type: PacketTypeView::Nack(
            match fragment {
                Some(f) => Nack { fragment_index: f.fragment_index, nack_type: NackType::Dropped },
                None => Nack { fragment_index: 0, nack_type: kind },
            },
        ),
    }
}

/// The trace of a flood request once the node `id` has added itself.
pub open spec fn extended_trace(id: NodeId, request: FloodRequestView) -> Seq<(NodeId, NodeType)> {
    request.path_trace.push((id, NodeType::Drone))
}

/// The response with which node `id` answers a flood request: it carries the
/// trace with the node added, and travels that trace backwards, starting at
/// the node before this one.
pub open spec fn flood_response_for(id: NodeId, request: FloodRequestView, session_id: u64) -> PacketView {
    PacketView {
        routing_header: Route {
            hops: trace_ids(extended_trace(id, request)).reverse(),
            hop_index: 1,
        },
        session_id,
        pack_type: PacketTypeView::FloodResponse(
            FloodResponseView {
                flood_id: request.flood_id,
                path_trace: extended_trace(id, request),
            },
        ),
    }
}

/// The request that node `id` passes on: the same flood under the same route
/// and session, with the node added to the trace.
pub open spec fn flood_request_for(
    id: NodeId,
    request: FloodRequestView,
    route: Route,
    session_id: u64,
) -> PacketView {
    PacketView {
        routing_header: route,
        session_id,
        pack_type: PacketTypeView::FloodRequest(
            FloodRequestView {
                flood_id: request.flood_id,
                initiator_id: request.initiator_id,
                path_trace: extended_trace(id, request),
            },
        ),
    }
}

/// One copy of `packet` for each neighbor with an identifier below `upto`,
/// but for `except`, in ascending order of the identifiers.
pub open spec fn spread(state: NodeState, packet: PacketView, except: NodeId, upto: int) -> Seq<
    EmissionView,
>
    decreases upto,
{
    if upto <= 0 {
        Seq::empty()
    } else {
        let before = spread(state, packet, except, upto - 1);
        let node = (upto - 1) as NodeId;
        if state.linked(node) && node != except {
            before.push(EmissionView::ToNeighbor(node, packet))
        } else {
            before
        }
    }
}

/// What a node emits for a flood request. The node before this one is the
/// last of the trace; with an empty trace the request is turned away. A node
/// that has handled the flood before, or has exactly one link, answers with a
/// response to the node before it; any other node passes the request on to
/// every neighbor but that one.
pub open spec fn on_flood_request(
    state: NodeState,
    request: FloodRequestView,
    route: Route,
    session_id: u64,
) -> Result<Seq<EmissionView>, Rejection> {
    if request.path_trace.len() == 0 {
        Err(Rejection::EmptyPathTrace)
    } else if state.seen.contains((request.flood_id, request.initiator_id)) || state.links.dom().len()
        == 1 {
        Ok(seq![state.emit(flood_response_for(state.id, request, session_id))])
    } else {
        Ok(
            spread(
                state,
                flood_request_for(state.id, request, route, session_id),
                request.path_trace.last().0,
                256,
            ),
        )
    }
}

/// What a fragment leads to, `packet` being the packet with its cursor moved
/// on, and `dropped` saying whether the node drops this fragment. A dropped
/// fragment is answered with a negative acknowledgment and leaves the cache
/// alone; any other is cached under its session and index and passed on as it
/// is.
pub open spec fn on_fragment(state: NodeState, packet: PacketView, fragment: Fragment, dropped: bool) -> Step {
    if dropped {
        Step {
            state,
            outcome: Ok(seq![state.emit(nack_for(packet, Some(fragment), NackType::Dropped))]),
        }
    } else {
        Step {
            state: NodeState {
                cache: after_put(
                    state.cache,
                    state.capacity,
                    (packet.session_id, fragment.fragment_index),
                    fragment,
                ),
                ..state
            },
            outcome: Ok(seq![state.emit(packet)]),
        }
    }
}

/// The packet that carries a cached fragment back: the route of the negative
/// acknowledgment reversed, the same session, and the fragment.
pub open spec fn resend_for(packet: PacketView, fragment: Fragment) -> PacketView {
    PacketView {
        routing_header: packet.routing_header.reversed(),
        session_id: packet.session_id,
        pack_type: PacketTypeView::MsgFragment(fragment),
    }
}

/// What a negative acknowledgment leads to, `packet` being the packet with its
/// cursor moved on. Where the fragment it names is cached for its session,
/// the fragment leaves the cache and travels back the way the acknowledgment
/// came; else the acknowledgment is passed on as it is.
pub open spec fn on_nack(state: NodeState, packet: PacketView, nack: Nack) -> Step {
    match lookup(state.cache, (packet.session_id, nack.fragment_index)) {
        Some(fragment) => Step {
            state: NodeState {
                cache: after_take(state.cache, (packet.session_id, nack.fragment_index)),
                ..state
            },
            outcome: Ok(seq![state.emit(resend_for(packet, fragment))]),
        },
        None => Step { state, outcome: Ok(seq![state.emit(packet)]) },
    }
}

/// What an acknowledgment leads to, `packet` being the packet with its cursor
/// moved on. It is passed on as it is, unless its cursor stands on the last
/// hop: then it is turned away.
pub open spec fn on_ack(state: NodeState, packet: PacketView) -> Step {
    if packet.routing_header.hop_index == packet.routing_header.hops.len() - 1 {
        Step { state, outcome: Err(Rejection::NoFurtherHop) }
    } else {
        Step { state, outcome: Ok(seq![state.emit(packet)]) }
    }
}

/// What an acknowledgment of either kind leads to.
pub open spec fn on_ack_nack(state: NodeState, packet: PacketView) -> Step {
    match packet.pack_type {
        PacketTypeView::Nack(nack) => on_nack(state, packet, nack),
        _ => on_ack(state, packet),
    }
}

/// What a packet that is no flood request leads to once the node has found
/// itself under the cursor and moved the cursor on. A route that ends here is
/// refused, since a drone is no destination; so is a next hop to which the
/// node has no link. Else the payload decides.
pub open spec fn on_routed(state: NodeState, packet: PacketView, dropped: bool) -> Step {
    if packet.routing_header.hop_index == packet.routing_header.hops.len() {
        Step {
            state,
            outcome: Ok(seq![state.emit(nack_for(packet, None, NackType::DestinationIsDrone))]),
        }
    } else if !(packet.routing_header.current_hop() is Some && state.linked(
        packet.routing_header.current_hop().unwrap(),
    )) {
        Step {
            state,
            outcome: Ok(
                seq![state.emit(nack_for(packet, None, NackType::ErrorInRouting(state.id)))],
            ),
        }
    } else {
        match packet.pack_type {
            PacketTypeView::MsgFragment(fragment) => on_fragment(state, packet, fragment, dropped),
            PacketTypeView::FloodResponse(_) => Step { state, outcome: Ok(seq![state.emit(packet)]) },
            _ => on_ack_nack(state, packet),
        }
    }
}

/// What one inbound packet leads to. A flood request is handled whatever its
/// route says, and its flood is then remembered. Any other packet must have
/// this node under its cursor: if not, it is answered with a negative
/// acknowledgment and nothing else happens. `dropped` says whether the node
/// drops the packet, should it carry a fragment.
pub open spec fn on_packet(state: NodeState, packet: PacketView, dropped: bool) -> Step {
    match packet.pack_type {
        PacketTypeView::FloodRequest(request) => Step {
            state: NodeState {
                seen: state.seen.insert((request.flood_id, request.initiator_id)),
                ..state
            },
            outcome: on_flood_request(state, request, packet.routing_header, packet.session_id),
        },
        _ => if packet.routing_header.current_hop() == Some(state.id) {
            on_routed(state, advanced(packet), dropped)
        } else {
            Step {
                state,
                outcome: Ok(
                    seq![
                        state.emit(
                            nack_for(advanced(packet), None, NackType::UnexpectedRecipient(state.id)),
                        ),
                    ],
                ),
            }
        },
    }
}

/// The node after a command. A link is added only where there is none to that
/// neighbor yet; a drop rate is taken only up to 100 percent; removing a link
/// that is not there changes nothing. `Crash` is no change to the node: it
/// ends the node's run.
pub open spec fn on_command(state: NodeState, command: DroneCommand) -> NodeState {
    match command {
        DroneCommand::AddSender(node, link) => if state.linked(node) {
            state
        } else {
            NodeState { links: state.links.insert(node, link), ..state }
        },
        DroneCommand::SetPacketDropRate(pdr) => if pdr <= 100 {
            NodeState { pdr, ..state }
        } else {
            state
        },
        DroneCommand::RemoveSender(node) => NodeState { links: state.links.remove(node), ..state },
        DroneCommand::Crash => state,
    }
}

/// Whether a command changes the node.
pub open spec fn command_applies(state: NodeState, command: DroneCommand) -> bool {
    match command {
        DroneCommand::AddSender(node, _) => !state.linked(node),
        DroneCommand::SetPacketDropRate(pdr) => pdr <= 100,
        DroneCommand::RemoveSender(node) => state.linked(node),
        DroneCommand::Crash => false,
    }
}

} // verus!
