//! The node itself: its state, the handlers that decide what to emit, and the
//! functions that hand the emissions to the channels.

use std::collections::HashMap;
use crossbeam_channel::{Receiver, Sender};
use vstd::prelude::*;
use crate::controller::{DroneCommand, DroneEvent};
use crate::links::{draw_percent, try_send};
use crate::network::{reverse_hops, NodeId, SourceRoutingHeader};
use crate::packet::{
    copy_trace, reversed_trace_ids, FloodRequest, FloodResponse, Fragment, Nack, NackType, NodeType,
    Packet, PacketType,
};
use crate::packet_buffer::PacketBuffer;
use crate::protocol::{
    advanced, command_applies, drops, flood_request_for, flood_response_for, nack_for, on_ack_nack,
    on_command, on_flood_request, on_fragment, on_packet, on_routed, outbox_view, outcome_view,
    spread, Emission, EmissionView, NodeState, Rejection,
};
use crate::seen_floods::SeenFloods;

verus! {

broadcast use vstd::std_specs::hash::group_hash_axioms;

/// The number of fragments a new node's cache holds before it evicts.
pub const DEFAULT_BUFFER_SIZE: usize = 16;

/// A drone: a node that forwards packets for others and is never itself the
/// destination of a message.
#[derive(Debug)]
pub struct RustasticDrone {
    id: NodeId,
    controller_send: Sender<DroneEvent>,
    controller_recv: Receiver<DroneCommand>,
    packet_recv: Receiver<Packet>,
    pdr: u8,
    packet_send: HashMap<NodeId, Sender<Packet>>,
    flood_id_received: SeenFloods,
    /// The fragments kept for retransmission.
    pub buffer: PacketBuffer<Fragment>,
}

impl View for RustasticDrone {
    type V = NodeState;

    closed spec fn view(&self) -> NodeState {
        NodeState {
            id: self.id,
            pdr: self.pdr,
            links: self.packet_send@,
            seen: self.flood_id_received@,
            cache: self.buffer@,
            capacity: self.buffer.capacity(),
        }
    }
}

impl RustasticDrone {
    /// The channels the node was made with: the one to the controller, the
    /// one the controller's commands arrive on, and the one the neighbors'
    /// packets arrive on. Nothing the node does changes them.
    pub closed spec fn channels(&self) -> (
        Sender<DroneEvent>,
        Receiver<DroneCommand>,
        Receiver<Packet>,
    ) {
        (self.controller_send, self.controller_recv, self.packet_recv)
    }
}

/// What became of one emission.
#[derive(Clone, Copy, Debug, PartialEq, Eq, Structural)]
pub enum Delivery {
    /// The neighbor's channel took the packet.
    Delivered(NodeId),
    /// The packet was reported to the controller as dropped.
    Reported,
    /// Neither the neighbor's channel nor the controller's took the packet.
    Lost,
}

impl RustasticDrone {
    /// A node with the given identifier, channels, links and drop rate in
    /// percent. It has handled no flood, and its cache is empty with room for
    /// 16 fragments.
    pub fn new(
        id: NodeId,
        controller_send: Sender<DroneEvent>,
        controller_recv: Receiver<DroneCommand>,
        packet_recv: Receiver<Packet>,
        packet_send: HashMap<NodeId, Sender<Packet>>,
        pdr: u8,
    ) -> (drone: Self)
        ensures
            drone@ == (NodeState {
                id,
                pdr,
                links: packet_send@,
                seen: Set::empty(),
                cache: Seq::empty(),
                capacity: 16,
            }),
            drone@.valid(),
            drone.channels() == (controller_send, controller_recv, packet_recv),
    {
        RustasticDrone {
            id,
            controller_send,
            controller_recv,
            packet_recv,
            pdr,
            packet_send,
            flood_id_received: SeenFloods::new(),
            buffer: PacketBuffer::new(DEFAULT_BUFFER_SIZE),
        }
    }

    /// The node's identifier.
    pub fn id(&self) -> (id: NodeId)
        ensures
            id == self@.id,
    {
        self.id
    }

    /// The node's drop rate, in percent.
    pub fn pdr(&self) -> (pdr: u8)
        ensures
            pdr == self@.pdr,
    {
        self.pdr
    }

    /// Whether the node has a link to `node`.
    pub fn is_linked(&self, node: NodeId) -> (linked: bool)
        ensures
            linked == self@.linked(node),
    {
        self.packet_send.contains_key(&node)
    }

    /// How many links the node has.
    pub fn link_count(&self) -> (count: usize)
        ensures
            count == self@.links.dom().len(),
    {
        self.packet_send.len()
    }

    /// Whether the node has handled the flood `flood_id` of `initiator_id`.
    pub fn has_seen(&self, flood_id: u64, initiator_id: NodeId) -> (seen: bool)
        ensures
            seen == self@.seen.contains((flood_id, initiator_id)),
    {
        self.flood_id_received.has_seen(flood_id, initiator_id)
    }

    /// The channel on which the controller's commands arrive.
    pub fn controller_recv(&self) -> (inbox: &Receiver<DroneCommand>)
        ensures
            *inbox == self.channels().1,
    {
        &self.controller_recv
    }

    /// The channel on which the neighbors' packets arrive.
    pub fn packet_recv(&self) -> (inbox: &Receiver<Packet>)
        ensures
            *inbox == self.channels().2,
    {
        &self.packet_recv
    }

    /// Whether the hop under the packet's cursor is this node.
    pub fn check_packet_correct_id(&self, packet: &Packet) -> (correct: bool)
        ensures
            correct == (packet@.routing_header.current_hop() == Some(self@.id)),
    {
        match packet.routing_header.current_hop() {
            Some(hop) => hop == self.id,
            None => false,
        }
    }

    /// Whether the hop under the packet's cursor is a neighbor of this node.
    pub fn check_neighbor(&self, packet: &Packet) -> (linked: bool)
        ensures
            linked == (packet@.routing_header.current_hop() is Some && self@.linked(
                packet@.routing_header.current_hop().unwrap(),
            )),
    {
        match packet.routing_header.current_hop() {
            Some(hop) => self.packet_send.contains_key(&hop),
            None => false,
        }
    }

    /// Decides how a packet leaves the node: to the hop under its cursor where
    /// the node has a link to it, else to the controller.
    pub fn emit(&self, packet: Packet) -> (emission: Emission)
        ensures
            emission@ == self@.emit(packet@),
    {
        match packet.routing_header.current_hop() {
            Some(hop) => {
                if self.packet_send.contains_key(&hop) {
                    Emission::ToNeighbor(hop, packet)
                } else {
                    Emission::ToController(packet)
                }
            },
            None => Emission::ToController(packet),
        }
    }
}

/// Builds the negative acknowledgment for `packet`, whose cursor stands behind
/// the node that refuses it.
pub fn build_nack(packet: Packet, fragment: Option<Fragment>, nack_type: NackType) -> (nack: Packet)
    ensures
        nack@ == nack_for(packet@, fragment, nack_type),
{
    let Packet { routing_header: mut header, session_id, pack_type: _ } = packet;
    header.reverse();
    let nack: Nack = match fragment {
        Some(f) => Nack { fragment_index: f.fragment_index, nack_type: NackType::Dropped },
        None => Nack { fragment_index: 0, nack_type },
    };
    Packet { routing_header: header, session_id, pack_type: PacketType::Nack(nack) }
}

/// The list of emissions with one more at its end has the models of the list
/// followed by the model of that one.
pub proof fn lemma_outbox_push(outbox: Seq<Emission>, emission: Emission)
    ensures
        outbox_view(outbox.push(emission)) == outbox_view(outbox).push(emission@),
{
    assert(outbox_view(outbox.push(emission)) =~= outbox_view(outbox).push(emission@));
}

/// A list of one emission.
fn single(emission: Emission) -> (outbox: Vec<Emission>)
    ensures
        outbox_view(outbox@) == seq![emission@],
{
    let mut outbox: Vec<Emission> = Vec::new();
    outbox.push(emission);
    assert(outbox_view(outbox@) =~= seq![emission@]);
    outbox
}

impl RustasticDrone {
    /// Decides what to emit for a flood request that arrived under the given
    /// route and session. The node's state is not changed: remembering the
    /// flood is left to the caller.
    pub fn handle_flood_request(
        &self,
        flood_request: FloodRequest,
        routing_header: SourceRoutingHeader,
        session_id: u64,
    ) -> (outcome: Result<Vec<Emission>, Rejection>)
        ensures
            outcome_view(outcome) == on_flood_request(
                self@,
                flood_request@,
                routing_header@,
                session_id,
            ),
    {
        let FloodRequest { flood_id, initiator_id, path_trace: mut trace } = flood_request;
        if trace.len() == 0 {
            return Err(Rejection::EmptyPathTrace);
        }
        let prev_node: NodeId = trace[trace.len() - 1].0;
        trace.push((self.id, NodeType::Drone));
        if self.flood_id_received.has_seen(flood_id, initiator_id) || self.packet_send.len() == 1 {
            let hops: Vec<NodeId> = reversed_trace_ids(&trace);
            let response = Packet {
                routing_header: SourceRoutingHeader { hop_index: 1, hops },
                session_id,
                pack_type: PacketType::FloodResponse(FloodResponse { flood_id, path_trace: trace }),
            };
            assert(response@ == flood_response_for(self@.id, flood_request@, session_id));
            Ok(single(self.emit(response)))
        } else {
            let ghost copy = flood_request_for(self@.id, flood_request@, routing_header@, session_id);
            let mut outbox: Vec<Emission> = Vec::new();
            let mut next: u16 = 0;
            assert(outbox_view(outbox@) =~= spread(self@, copy, prev_node, 0));
            while next < 256
                invariant
                    next <= 256,
                    trace@ == flood_request@.path_trace.push((self@.id, NodeType::Drone)),
                    flood_id == flood_request@.flood_id,
                    initiator_id == flood_request@.initiator_id,
                    copy == flood_request_for(self@.id, flood_request@, routing_header@, session_id),
                    outbox_view(outbox@) == spread(self@, copy, prev_node, next as int),
                decreases 256 - next,
            {
                let node: NodeId = next as NodeId;
                if self.packet_send.contains_key(&node) && node != prev_node {
                    let request = Packet {
                        routing_header: routing_header.duplicate(),
                        session_id,
                        pack_type: PacketType::FloodRequest(
                            FloodRequest { flood_id, initiator_id, path_trace: copy_trace(&trace) },
                        ),
                    };
                    assert(request@ == copy);
                    proof {
                        lemma_outbox_push(outbox@, Emission::ToNeighbor(node, request));
                    }
                    outbox.push(Emission::ToNeighbor(node, request));
                }
                next = next + 1;
            }
            Ok(outbox)
        }
    }

    /// Decides what to emit for a flood response whose cursor has been moved
    /// on: it is passed on as it is.
    pub fn handle_flood_response(&self, packet: Packet) -> (outcome: Result<Vec<Emission>, Rejection>)
        ensures
            outcome_view(outcome) == Ok::<Seq<EmissionView>, Rejection>(
                seq![self@.emit(packet@)],
            ),
    {
        Ok(single(self.emit(packet)))
    }
}

impl RustasticDrone {
    /// Handles a fragment. `packet` is the packet that carries it, with its
    /// cursor moved on; `dropped` says whether the node drops it. A fragment
    /// that is dropped is answered with a negative acknowledgment; any other
    /// is cached and passed on.
    pub fn handle_fragment(&mut self, packet: Packet, fragment: Fragment, dropped: bool) -> (outcome:
        Result<Vec<Emission>, Rejection>)
        ensures
            final(self).channels() == old(self).channels(),
            final(self)@ == on_fragment(old(self)@, packet@, fragment, dropped).state,
            outcome_view(outcome) == on_fragment(old(self)@, packet@, fragment, dropped).outcome,
    {
        if dropped {
            let nack: Packet = build_nack(packet, Some(fragment), NackType::Dropped);
            Ok(single(self.emit(nack)))
        } else {
            let session_id: u64 = packet.session_id;
            let emission: Emission = self.emit(packet);
            self.buffer.add_fragment(session_id, fragment.fragment_index, fragment);
            Ok(single(emission))
        }
    }

    /// Handles an acknowledgment of either kind. `packet` is the packet with
    /// its cursor moved on, and the cursor must still stand on the route. A
    /// negative acknowledgment for a cached fragment sends the fragment back
    /// and takes it out of the cache; any other is passed on. An
    /// acknowledgment whose cursor stands on the last hop is turned away.
    pub fn handle_ack_nack(&mut self, packet: Packet) -> (outcome: Result<Vec<Emission>, Rejection>)
        requires
            packet@.routing_header.hop_index < packet@.routing_header.hops.len(),
        ensures
            final(self).channels() == old(self).channels(),
            final(self)@ == on_ack_nack(old(self)@, packet@).state,
            outcome_view(outcome) == on_ack_nack(old(self)@, packet@).outcome,
    {
        let named: Option<Nack> = match &packet.pack_type {
            PacketType::Nack(nack) => Some(*nack),
            _ => None,
        };
        match named {
            Some(nack) => {
                match self.buffer.get_fragment(packet.session_id, nack.fragment_index) {
                    Some(fragment) => {
                        let Packet { routing_header: mut header, session_id, pack_type: _ } = packet;
                        header.reverse();
                        let resend = Packet {
                            routing_header: header,
                            session_id,
                            pack_type: PacketType::MsgFragment(fragment),
                        };
                        let emission: Emission = self.emit(resend);
                        Ok(single(emission))
                    },
                    None => Ok(single(self.emit(packet))),
                }
            },
            None => {
                if packet.routing_header.hop_index == packet.routing_header.hops.len() - 1 {
                    Err(Rejection::NoFurtherHop)
                } else {
                    Ok(single(self.emit(packet)))
                }
            },
        }
    }
}

impl RustasticDrone {
    /// Builds the negative acknowledgment for a packet that reached this node
    /// though another node stands under its cursor. It travels back from the
    /// place under the cursor, as if this node stood there.
    fn refuse_unexpected(&self, packet: Packet) -> (nack: Packet)
        ensures
            nack@ == nack_for(
                advanced(packet@),
                None,
                NackType::UnexpectedRecipient(self@.id),
            ),
    {
        let Packet { routing_header: mut header, session_id, pack_type } = packet;
        if header.hop_index < usize::MAX {
            header.increase_hop_index();
            build_nack(
                Packet { routing_header: header, session_id, pack_type },
                None,
                NackType::UnexpectedRecipient(self.id),
            )
        } else {
            assert(header.hops@.len() == header.hops.len());
            assert(advanced(packet@).routing_header.hop_index > header.hops@.len());
            let hops: Vec<NodeId> = reverse_hops(&header.hops);
            Packet {
                routing_header: SourceRoutingHeader { hop_index: 0, hops },
                session_id,
                pack_type: PacketType::Nack(
                    Nack { fragment_index: 0, nack_type: NackType::UnexpectedRecipient(self.id) },
                ),
            }
        }
    }

    /// Handles a packet that is no flood request and has this node under its
    /// cursor. The cursor is moved on; then the route is checked and the
    /// payload decides.
    fn handle_routed(&mut self, packet: Packet, dropped: bool) -> (outcome: Result<
        Vec<Emission>,
        Rejection,
    >)
        requires
            packet@.routing_header.current_hop() == Some(old(self)@.id),
            !(packet@.pack_type is FloodRequest),
        ensures
            final(self).channels() == old(self).channels(),
            final(self)@ == on_routed(old(self)@, advanced(packet@), dropped).state,
            outcome_view(outcome) == on_routed(old(self)@, advanced(packet@), dropped).outcome,
    {
        let mut packet = packet;
        assert(packet.routing_header.hop_index < packet.routing_header.hops.len());
        packet.routing_header.increase_hop_index();
        if packet.routing_header.hop_index == packet.routing_header.hops.len() {
            let nack: Packet = build_nack(packet, None, NackType::DestinationIsDrone);
            return Ok(single(self.emit(nack)));
        }
        if !self.check_neighbor(&packet) {
            let nack: Packet = build_nack(packet, None, NackType::ErrorInRouting(self.id));
            return Ok(single(self.emit(nack)));
        }
        let carried: Option<Fragment> = match &packet.pack_type {
            PacketType::MsgFragment(fragment) => Some(*fragment),
            _ => None,
        };
        let answers_flood: bool = match &packet.pack_type {
            PacketType::FloodResponse(_) => true,
            _ => false,
        };
        match carried {
            Some(fragment) => self.handle_fragment(packet, fragment, dropped),
            None => {
                if answers_flood {
                    self.handle_flood_response(packet)
                } else {
                    self.handle_ack_nack(packet)
                }
            },
        }
    }

    /// Handles one inbound packet, `dropped` saying whether the node drops it
    /// should it carry a fragment: changes the node's state and returns what
    /// the node emits, in order, or why the packet was turned away.
    pub fn process_packet(&mut self, packet: Packet, dropped: bool) -> (outcome: Result<
        Vec<Emission>,
        Rejection,
    >)
        ensures
            final(self).channels() == old(self).channels(),
            final(self)@ == on_packet(old(self)@, packet@, dropped).state,
            outcome_view(outcome) == on_packet(old(self)@, packet@, dropped).outcome,
    {
        let Packet { routing_header, session_id, pack_type } = packet;
        match pack_type {
            PacketType::FloodRequest(flood_request) => {
                let flood_id: u64 = flood_request.flood_id;
                let initiator_id: NodeId = flood_request.initiator_id;
                let outcome = self.handle_flood_request(flood_request, routing_header, session_id);
                self.flood_id_received.mark_seen(flood_id, initiator_id);
                outcome
            },
            other => {
                let packet = Packet { routing_header, session_id, pack_type: other };
                if self.check_packet_correct_id(&packet) {
                    self.handle_routed(packet, dropped)
                } else {
                    let nack: Packet = self.refuse_unexpected(packet);
                    Ok(single(self.emit(nack)))
                }
            },
        }
    }

    /// Applies a command of the controller other than `Crash`, and says
    /// whether it changed the node. A link to a neighbor that has one already
    /// is not replaced; a drop rate over 100 percent is not taken; removing a
    /// link that is not there changes nothing.
    pub fn handle_command(&mut self, command: DroneCommand) -> (applied: bool)
        requires
            !(command is Crash),
        ensures
            final(self).channels() == old(self).channels(),
            final(self)@ == on_command(old(self)@, command),
            applied == command_applies(old(self)@, command),
    {
        match command {
            DroneCommand::AddSender(node, link) => {
                if self.packet_send.contains_key(&node) {
                    false
                } else {
                    self.packet_send.insert(node, link);
                    true
                }
            },
            DroneCommand::SetPacketDropRate(pdr) => {
                if pdr <= 100 {
                    self.pdr = pdr;
                    true
                } else {
                    false
                }
            },
            DroneCommand::RemoveSender(node) => {
                let linked: bool = self.packet_send.contains_key(&node);
                self.packet_send.remove(&node);
                linked
            },
            DroneCommand::Crash => false,
        }
    }
}

/// Decides whether a fragment is dropped at drop rate `pdr`, in percent, when
/// the number drawn for it is `roll`: it is dropped when the number is at most
/// the rate.
pub fn should_drop(pdr: u8, roll: u8) -> (dropped: bool)
    ensures
        dropped == drops(pdr, roll),
{
    roll <= pdr
}

/// The drop rate's two ends: at 0 percent no number from 1 to 100 drops a
/// fragment, and at 100 percent every such number does.
pub proof fn lemma_drop_rate_boundaries(roll: u8)
    requires
        1 <= roll <= 100,
    ensures
        !drops(0, roll),
        drops(100, roll),
{
}

/// Whether what came of a packet is what was decided: a packet that was turned
/// away is turned away for the same reason; else there is one delivery for
/// each emission, in order, and a packet counts as delivered only where the
/// emission was for that neighbor and the node has a link to it.
pub open spec fn delivered_as_decided(
    state: NodeState,
    decided: Result<Seq<EmissionView>, Rejection>,
    outcome: Result<Vec<Delivery>, Rejection>,
) -> bool {
    match outcome {
        Ok(deliveries) => {
            &&& decided is Ok
            &&& deliveries@.len() == decided.unwrap().len()
            &&& forall|i: int|
                0 <= i < deliveries@.len() ==> (#[trigger] deliveries@[i] matches Delivery::Delivered(
                    node,
                ) ==> (decided.unwrap()[i] matches EmissionView::ToNeighbor(next_hop, _) && next_hop
                    == node && state.linked(node)))
        },
        Err(rejection) => decided == Err::<Seq<EmissionView>, Rejection>(rejection),
    }
}

/// What became of a packet, told from what the channels answered. `next_hop`
/// is the neighbor whose channel was asked, if one was; `neighbor_took` says
/// whether that channel took the packet, and `controller_took` whether the
/// controller's channel took the report. A packet that the neighbor's channel
/// took is delivered and the controller is not asked; any other is reported
/// where the controller's channel took it, and lost where it did not.
pub open spec fn delivery_of(
    next_hop: Option<NodeId>,
    neighbor_took: bool,
    controller_took: bool,
) -> Delivery {
    match next_hop {
        Some(node) => if neighbor_took {
            Delivery::Delivered(node)
        } else if controller_took {
            Delivery::Reported
        } else {
            Delivery::Lost
        },
        None => if controller_took {
            Delivery::Reported
        } else {
            Delivery::Lost
        },
    }
}

/// Tells what the answer of a neighbor's channel comes to. Where the channel
/// took the packet, the packet is delivered to that neighbor; where it refused
/// the packet, the packet comes back as it is, still to be reported.
pub fn delivery_after_send(next_hop: NodeId, answer: Result<(), Packet>) -> (outcome: Result<
    Delivery,
    Packet,
>)
    ensures
        match answer {
            Ok(_) => outcome == Ok::<Delivery, Packet>(delivery_of(Some(next_hop), true, false)),
            Err(refused) => outcome == Err::<Delivery, Packet>(refused),
        },
{
    match answer {
        Ok(()) => Ok(Delivery::Delivered(next_hop)),
        Err(refused) => Err(refused),
    }
}

/// Tells what the answer of the controller's channel comes to for a packet
/// that no neighbor took: reported where the channel took the report, lost
/// where it did not.
pub fn delivery_after_report(answer: Result<(), DroneEvent>) -> (delivery: Delivery)
    ensures
        delivery == delivery_of(None, false, answer is Ok),
{
    match answer {
        Ok(()) => Delivery::Reported,
        Err(_) => Delivery::Lost,
    }
}

/// What a message that arrives at a node is.
#[derive(Debug)]
pub enum Incoming {
    /// A command from the controller.
    Command(DroneCommand),
    /// A packet from a neighbor.
    Packet(Packet),
}

impl RustasticDrone {
    /// Reports a packet to the controller as dropped.
    fn report_dropped(&self, packet: Packet) -> (delivery: Delivery)
        ensures
            !(delivery is Delivered),
    {
        delivery_after_report(try_send(&self.controller_send, DroneEvent::PacketDropped(packet)))
    }

    /// Performs one emission, without waiting. A packet for a neighbor is
    /// handed to that neighbor's channel; where the node has no link to the
    /// neighbor, or the channel refuses the packet, the packet is reported to
    /// the controller as dropped. Whether a channel takes a packet is not for
    /// this node to decide: what is certain is that a packet is delivered only
    /// to the neighbor it was meant for, and only over a link that is there.
    pub fn send_message(&self, emission: Emission) -> (delivery: Delivery)
        ensures
            delivery matches Delivery::Delivered(node) ==> (emission@ matches EmissionView::ToNeighbor(
                next_hop,
                _,
            ) && next_hop == node && self@.linked(node)),
    {
        match emission {
            Emission::ToNeighbor(next_hop, packet) => {
                match self.packet_send.get(&next_hop) {
                    Some(link) => {
                        match delivery_after_send(next_hop, try_send(link, packet)) {
                            Ok(delivery) => delivery,
                            Err(refused) => self.report_dropped(refused),
                        }
                    },
                    None => self.report_dropped(packet),
                }
            },
            Emission::ToController(packet) => self.report_dropped(packet),
        }
    }

    /// Performs a list of emissions, first to last, and returns what became
    /// of each.
    pub fn send_all(&self, outbox: Vec<Emission>) -> (deliveries: Vec<Delivery>)
        ensures
            deliveries@.len() == outbox@.len(),
            forall|i: int|
                0 <= i < deliveries@.len() ==> (#[trigger] deliveries@[i] matches Delivery::Delivered(
                    node,
                ) ==> (outbox@[i]@ matches EmissionView::ToNeighbor(next_hop, _) && next_hop == node
                    && self@.linked(node))),
    {
        let ghost all = outbox@;
        let mut outbox = outbox;
        let mut deliveries: Vec<Delivery> = Vec::new();
        while outbox.len() > 0
            invariant
                deliveries@.len() + outbox@.len() == all.len(),
                outbox@ == all.skip(deliveries@.len() as int),
                forall|i: int|
                    0 <= i < deliveries@.len() ==> (#[trigger] deliveries@[i] matches Delivery::Delivered(
                        node,
                    ) ==> (all[i]@ matches EmissionView::ToNeighbor(next_hop, _) && next_hop == node
                        && self@.linked(node))),
            decreases outbox@.len(),
        {
            let emission: Emission = outbox.remove(0);
            assert(emission == all[deliveries@.len() as int]);
            assert(outbox@ =~= all.skip(deliveries@.len() as int + 1));
            let delivery: Delivery = self.send_message(emission);
            deliveries.push(delivery);
        }
        deliveries
    }

    /// Draws a number from 1 to 100 and decides by it whether the next
    /// fragment is dropped. At a drop rate of 0 percent the answer is never
    /// yes, and from 100 percent on it is always yes.
    pub fn check_drop_fragment(&self) -> (dropped: bool)
        ensures
            self@.pdr == 0 ==> !dropped,
            self@.pdr >= 100 ==> dropped,
    {
        let roll: u8 = draw_percent();
        should_drop(self.pdr, roll)
    }

    /// Handles one inbound packet from end to end: decides whether to drop
    /// it should it carry a fragment, changes the node's state, and hands
    /// what the node emits to the channels. Returns what became of each
    /// emission, in order, or why the packet was turned away. A drop rate of
    /// 0 percent never drops, and one of 100 percent or more always does.
    pub fn handle_packet(&mut self, packet: Packet) -> (outcome: Result<Vec<Delivery>, Rejection>)
        ensures
            final(self).channels() == old(self).channels(),
            exists|dropped: bool|
                {
                    &&& (old(self)@.pdr == 0 ==> !dropped)
                    &&& (old(self)@.pdr >= 100 ==> dropped)
                    &&& final(self)@ == (#[trigger] on_packet(old(self)@, packet@, dropped)).state
                    &&& delivered_as_decided(
                        final(self)@,
                        on_packet(old(self)@, packet@, dropped).outcome,
                        outcome,
                    )
                },
    {
        let dropped: bool = self.check_drop_fragment();
        match self.process_packet(packet, dropped) {
            Ok(outbox) => {
                let deliveries: Vec<Delivery> = self.send_all(outbox);
                assert(outbox_view(outbox@).len() == outbox@.len());
                assert forall|i: int| 0 <= i < deliveries@.len() implies (
                #[trigger] deliveries@[i] matches Delivery::Delivered(node) ==> (outbox_view(
                    outbox@,
                )[i] matches EmissionView::ToNeighbor(next_hop, _) && next_hop == node
                    && self@.linked(node))) by {
                    assert(outbox_view(outbox@)[i] == outbox@[i]@);
                }
                Ok(deliveries)
            },
            Err(rejection) => Err(rejection),
        }
    }

    /// Serves one message and says whether the node goes on. `Crash` ends the
    /// node's run and changes nothing; any other command is applied; a packet
    /// is handled.
    pub fn serve(&mut self, incoming: Incoming) -> (alive: bool)
        ensures
            final(self).channels() == old(self).channels(),
            alive == !(incoming matches Incoming::Command(DroneCommand::Crash)),
            match incoming {
                Incoming::Command(command) => final(self)@ == on_command(old(self)@, command),
                Incoming::Packet(packet) => exists|dropped: bool|
                    final(self)@ == (#[trigger] on_packet(old(self)@, packet@, dropped)).state,
            },
    {
        match incoming {
            Incoming::Command(DroneCommand::Crash) => false,
            Incoming::Command(command) => {
                self.handle_command(command);
                true
            },
            Incoming::Packet(packet) => {
                let _ = self.handle_packet(packet);
                true
            },
        }
    }
}

} // verus!
