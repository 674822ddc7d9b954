//! What holds of a node whatever it is sent: statements about the protocol
//! that relate several steps, each proved from the definitions.

use vstd::prelude::*;
use crate::controller::DroneCommand;
use crate::network::NodeId;
use crate::packet::{Nack, NackType, Packet, PacketTypeView, PacketView};
use crate::packet_buffer::{lemma_put_keeps_keys_distinct, lemma_take_keeps_keys_distinct, lookup};
use crate::protocol::{
    advanced, flood_request_for, on_command, on_nack, on_packet, spread, EmissionView, NodeState,
    Rejection,
};
use crossbeam_channel::Sender;

verus! {

/// The destination of an emission to a neighbor.
pub open spec fn next_hop_of(emission: EmissionView) -> Option<NodeId> {
    match emission {
        EmissionView::ToNeighbor(next_hop, _) => Some(next_hop),
        EmissionView::ToController(_) => None,
    }
}

/// The packet of an emission.
pub open spec fn packet_of(emission: EmissionView) -> PacketView {
    match emission {
        EmissionView::ToNeighbor(_, packet) => packet,
        EmissionView::ToController(packet) => packet,
    }
}

/// A packet that reaches a node while another node stands under its cursor
/// changes nothing in the node and is never passed on: all that the node
/// emits is one negative acknowledgment of the kind `UnexpectedRecipient`
/// that names the node, under the packet's session.
pub proof fn lemma_unexpected_recipient(state: NodeState, packet: PacketView, dropped: bool)
    requires
        !(packet.pack_type is FloodRequest),
        packet.routing_header.current_hop() != Some(state.id),
    ensures
        on_packet(state, packet, dropped).state == state,
        on_packet(state, packet, dropped).outcome is Ok,
        on_packet(state, packet, dropped).outcome.unwrap().len() == 1,
        packet_of(on_packet(state, packet, dropped).outcome.unwrap()[0]).pack_type
            == PacketTypeView::Nack(
            Nack { fragment_index: 0, nack_type: NackType::UnexpectedRecipient(state.id) },
        ),
        packet_of(on_packet(state, packet, dropped).outcome.unwrap()[0]).session_id
            == packet.session_id,
        packet_of(on_packet(state, packet, dropped).outcome.unwrap()[0]).routing_header.hops
            == packet.routing_header.hops.reverse(),
{
}

/// No packet is swallowed in silence. A packet that is no flood request is
/// either turned away, which the caller is told, or leads to exactly one
/// emission: the packet itself on its way, a fragment sent back, or a negative
/// acknowledgment, to a neighbor or else to the controller.
pub proof fn lemma_every_packet_is_answered(state: NodeState, packet: PacketView, dropped: bool)
    requires
        !(packet.pack_type is FloodRequest),
    ensures
        on_packet(state, packet, dropped).outcome is Ok ==> on_packet(
            state,
            packet,
            dropped,
        ).outcome.unwrap().len() == 1,
        on_packet(state, packet, dropped).outcome is Err ==> {
            &&& packet.pack_type is Ack
            &&& on_packet(state, packet, dropped).outcome == Err::<Seq<EmissionView>, Rejection>(
                Rejection::NoFurtherHop,
            )
            &&& on_packet(state, packet, dropped).state == state
        },
{
}

/// Whatever a node emits for a neighbor goes over a link that the node has.
pub proof fn lemma_emissions_use_links(state: NodeState, packet: PacketView, dropped: bool)
    requires
        on_packet(state, packet, dropped).outcome is Ok,
    ensures
        forall|i: int|
            0 <= i < on_packet(state, packet, dropped).outcome.unwrap().len() ==> (
            #[trigger] on_packet(state, packet, dropped).outcome.unwrap()[i] matches EmissionView::ToNeighbor(
                next_hop,
                _,
            ) ==> state.linked(next_hop)),
{
    if packet.pack_type is FloodRequest {
        let request = packet.pack_type->FloodRequest_0;
        lemma_spread_reaches_each_neighbor_once(
            state,
            flood_request_for(state.id, request, packet.routing_header, packet.session_id),
            request.path_trace.last().0,
            256,
        );
    }
}

/// A packet that is no flood request leaves a node only for the hop under its
/// cursor, and that cursor stands on its route or directly behind it, as long
/// as the cursor of the packet that came in did.
pub proof fn lemma_emissions_follow_their_route(state: NodeState, packet: PacketView, dropped: bool)
    requires
        !(packet.pack_type is FloodRequest),
        packet.routing_header.in_bounds(),
        on_packet(state, packet, dropped).outcome is Ok,
    ensures
        forall|i: int|
            0 <= i < on_packet(state, packet, dropped).outcome.unwrap().len() ==> {
                let emission = #[trigger] on_packet(state, packet, dropped).outcome.unwrap()[i];
                &&& packet_of(emission).routing_header.in_bounds()
                &&& packet_of(emission).routing_header.hops.len() == packet.routing_header.hops.len()
                &&& emission is ToNeighbor ==> packet_of(emission).routing_header.current_hop()
                    == Some(emission->ToNeighbor_0)
            },
{
}

/// Removing a link that is not there leaves the node as it was.
pub proof fn lemma_remove_absent_link(state: NodeState, node: NodeId)
    requires
        !state.linked(node),
    ensures
        on_command(state, DroneCommand::RemoveSender(node)) == state,
{
    assert(state.links.remove(node) =~= state.links);
}

/// Adding a link to the same neighbor twice leaves the channel that was given
/// first in place: the second command changes nothing.
pub proof fn lemma_add_link_twice(
    state: NodeState,
    node: NodeId,
    first: Sender<Packet>,
    second: Sender<Packet>,
)
    requires
        !state.linked(node),
    ensures
        on_command(
            on_command(state, DroneCommand::AddSender(node, first)),
            DroneCommand::AddSender(node, second),
        ) == on_command(state, DroneCommand::AddSender(node, first)),
        on_command(
            on_command(state, DroneCommand::AddSender(node, first)),
            DroneCommand::AddSender(node, second),
        ).links[node] == first,
{
}

/// A link that is there is never replaced by a command that adds one.
pub proof fn lemma_add_existing_link(state: NodeState, node: NodeId, link: Sender<Packet>)
    requires
        state.linked(node),
    ensures
        on_command(state, DroneCommand::AddSender(node, link)) == state,
{
}

/// No step makes a valid node invalid.
pub proof fn lemma_packet_keeps_valid(state: NodeState, packet: PacketView, dropped: bool)
    requires
        state.valid(),
    ensures
        on_packet(state, packet, dropped).state.valid(),
{
    let next = on_packet(state, packet, dropped).state;
    match advanced(packet).pack_type {
        PacketTypeView::MsgFragment(fragment) => {
            lemma_put_keeps_keys_distinct(
                state.cache,
                state.capacity,
                (packet.session_id, fragment.fragment_index),
                fragment,
            );
        },
        PacketTypeView::Nack(nack) => {
            lemma_take_keeps_keys_distinct(state.cache, (packet.session_id, nack.fragment_index));
        },
        _ => {},
    }
}

/// No command makes a valid node invalid.
pub proof fn lemma_command_keeps_valid(state: NodeState, command: DroneCommand)
    requires
        state.valid(),
    ensures
        on_command(state, command).valid(),
{
}

/// A cached fragment is sent back once. After a negative acknowledgment has
/// fetched it, the same acknowledgment finds nothing, changes nothing, and is
/// passed on as it is.
pub proof fn lemma_resend_happens_once(state: NodeState, packet: PacketView, nack: Nack)
    requires
        state.valid(),
        lookup(state.cache, (packet.session_id, nack.fragment_index)) is Some,
    ensures
        on_nack(on_nack(state, packet, nack).state, packet, nack).state == on_nack(
            state,
            packet,
            nack,
        ).state,
        on_nack(on_nack(state, packet, nack).state, packet, nack).outcome == Ok::<
            Seq<EmissionView>,
            Rejection,
        >(seq![on_nack(state, packet, nack).state.emit(packet)]),
{
    lemma_take_keeps_keys_distinct(state.cache, (packet.session_id, nack.fragment_index));
}

/// A flood request is remembered, whatever else it leads to.
pub proof fn lemma_flood_is_remembered(state: NodeState, packet: PacketView, dropped: bool)
    requires
        packet.pack_type is FloodRequest,
    ensures
        on_packet(state, packet, dropped).state.seen.contains(
            (packet.pack_type->FloodRequest_0.flood_id, packet.pack_type->FloodRequest_0.initiator_id),
        ),
{
}

/// Nothing a node handles makes it forget a flood.
pub proof fn lemma_seen_only_grows(
    state: NodeState,
    packet: PacketView,
    dropped: bool,
    flood: (u64, NodeId),
)
    requires
        state.seen.contains(flood),
    ensures
        on_packet(state, packet, dropped).state.seen.contains(flood),
{
}

/// What a node passes on goes once to each neighbor but the one it came
/// from, and to nobody else.
pub proof fn lemma_spread_reaches_each_neighbor_once(
    state: NodeState,
    packet: PacketView,
    except: NodeId,
    upto: int,
)
    requires
        0 <= upto <= 256,
    ensures
        forall|i: int|
            0 <= i < spread(state, packet, except, upto).len() ==> {
                let emission = #[trigger] spread(state, packet, except, upto)[i];
                &&& emission is ToNeighbor
                &&& packet_of(emission) == packet
                &&& state.linked(emission->ToNeighbor_0)
                &&& emission->ToNeighbor_0 != except
                &&& emission->ToNeighbor_0 < upto
            },
        forall|i: int, j: int|
            0 <= i < j < spread(state, packet, except, upto).len() ==> (#[trigger] spread(
                state,
                packet,
                except,
                upto,
            )[i])->ToNeighbor_0 < (#[trigger] spread(state, packet, except, upto)[j])->ToNeighbor_0,
        forall|node: NodeId|
            node < upto && #[trigger] state.linked(node) && node != except ==> spread(
                state,
                packet,
                except,
                upto,
            ).contains(EmissionView::ToNeighbor(node, packet)),
    decreases upto,
{
    if upto > 0 {
        lemma_spread_reaches_each_neighbor_once(state, packet, except, upto - 1);
        let before = spread(state, packet, except, upto - 1);
        let now = spread(state, packet, except, upto);
        let last = (upto - 1) as NodeId;
        assert forall|node: NodeId|
            node < upto && #[trigger] state.linked(node) && node != except implies now.contains(
            EmissionView::ToNeighbor(node, packet),
        ) by {
            if node < upto - 1 {
                let i = choose|i: int|
                    0 <= i < before.len() && before[i] == EmissionView::ToNeighbor(node, packet);
                assert(now[i] == EmissionView::ToNeighbor(node, packet));
            } else {
                assert(now[now.len() - 1] == EmissionView::ToNeighbor(node, packet));
            }
        }
    }
}

/// Whether handling a flood request in this state sends a flood request out.
pub open spec fn passes_flood_on(state: NodeState, packet: PacketView) -> bool {
    &&& packet.pack_type is FloodRequest
    &&& on_packet(state, packet, false).outcome is Ok
    &&& exists|i: int|
        0 <= i < on_packet(state, packet, false).outcome.unwrap().len() && (#[trigger] packet_of(
            on_packet(state, packet, false).outcome.unwrap()[i],
        )).pack_type is FloodRequest
}

/// A node that has handled a flood answers every further request of that
/// flood and passes none on: it emits one flood response, or turns the
/// request away because its trace is empty.
pub proof fn lemma_seen_flood_is_answered(state: NodeState, packet: PacketView, dropped: bool)
    requires
        packet.pack_type is FloodRequest,
        state.seen.contains(
            (packet.pack_type->FloodRequest_0.flood_id, packet.pack_type->FloodRequest_0.initiator_id),
        ),
    ensures
        !passes_flood_on(state, packet),
        packet.pack_type->FloodRequest_0.path_trace.len() > 0 ==> {
            &&& on_packet(state, packet, dropped).outcome is Ok
            &&& on_packet(state, packet, dropped).outcome.unwrap().len() == 1
            &&& packet_of(
                on_packet(state, packet, dropped).outcome.unwrap()[0],
            ).pack_type is FloodResponse
        },
        packet.pack_type->FloodRequest_0.path_trace.len() == 0 ==> on_packet(
            state,
            packet,
            dropped,
        ).outcome == Err::<Seq<EmissionView>, Rejection>(Rejection::EmptyPathTrace),
{
    let request = packet.pack_type->FloodRequest_0;
    if request.path_trace.len() > 0 {
        let outbox = on_packet(state, packet, false).outcome.unwrap();
        assert(outbox.len() == 1);
        assert(packet_of(outbox[0]).pack_type is FloodResponse);
    }
}

/// One thing a node is sent: a packet, together with the decision whether to
/// drop it should it carry a fragment, or a command.
pub enum Input {
    Packet(PacketView, bool),
    Command(DroneCommand),
}

/// The node after one input.
pub open spec fn after_input(state: NodeState, input: Input) -> NodeState {
    match input {
        Input::Packet(packet, dropped) => on_packet(state, packet, dropped).state,
        Input::Command(command) => on_command(state, command),
    }
}

/// The node after a list of inputs, first to last.
pub open spec fn after_inputs(state: NodeState, inputs: Seq<Input>) -> NodeState
    decreases inputs.len(),
{
    if inputs.len() == 0 {
        state
    } else {
        after_input(after_inputs(state, inputs.drop_last()), inputs.last())
    }
}

/// Whether `input` is a request of the flood `flood`.
pub open spec fn requests_flood(input: Input, flood: (u64, NodeId)) -> bool {
    input matches Input::Packet(packet, _) && packet.pack_type matches PacketTypeView::FloodRequest(
        request,
    ) && (request.flood_id, request.initiator_id) == flood
}

/// A flood that a node has handled stays handled through any inputs.
pub proof fn lemma_seen_through_inputs(state: NodeState, inputs: Seq<Input>, flood: (u64, NodeId))
    requires
        state.seen.contains(flood),
    ensures
        after_inputs(state, inputs).seen.contains(flood),
    decreases inputs.len(),
{
    if inputs.len() > 0 {
        lemma_seen_through_inputs(state, inputs.drop_last(), flood);
    }
}

/// A flood does not go round for ever: over its whole life, whatever it is
/// sent in between, a node passes the requests of one flood on at most once.
/// Of any two requests of the same flood that it handles, the later one is
/// not passed on; and after any request of the flood the node remembers it.
pub proof fn lemma_flood_passed_on_at_most_once(
    state: NodeState,
    inputs: Seq<Input>,
    earlier: int,
    later: int,
    flood: (u64, NodeId),
)
    requires
        0 <= earlier < later < inputs.len(),
        requests_flood(inputs[earlier], flood),
        requests_flood(inputs[later], flood),
    ensures
        !passes_flood_on(
            after_inputs(state, inputs.take(later)),
            inputs[later]->Packet_0,
        ),
        after_inputs(state, inputs.take(earlier + 1)).seen.contains(flood),
        after_inputs(state, inputs).seen.contains(flood),
{
    let first = inputs.take(earlier + 1);
    assert(first.drop_last() =~= inputs.take(earlier));
    assert(first.last() == inputs[earlier]);
    let handled = after_inputs(state, first);
    assert(handled.seen.contains(flood));
    let between = inputs.subrange(earlier + 1, later);
    lemma_after_inputs_split(state, inputs.take(later), earlier + 1);
    assert(inputs.take(later).take(earlier + 1) =~= first);
    assert(inputs.take(later).skip(earlier + 1) =~= between);
    lemma_seen_through_inputs(handled, between, flood);
    let at_later = after_inputs(state, inputs.take(later));
    assert(at_later.seen.contains(flood));
    lemma_seen_flood_is_answered(at_later, inputs[later]->Packet_0, false);
    lemma_after_inputs_split(state, inputs, earlier + 1);
    assert(inputs.take(earlier + 1) =~= first);
    lemma_seen_through_inputs(handled, inputs.skip(earlier + 1), flood);
}

/// Handling a list of inputs is handling its front and then its rest.
pub proof fn lemma_after_inputs_split(state: NodeState, inputs: Seq<Input>, at: int)
    requires
        0 <= at <= inputs.len(),
    ensures
        after_inputs(state, inputs) == after_inputs(
            after_inputs(state, inputs.take(at)),
            inputs.skip(at),
        ),
    decreases inputs.len() - at,
{
    if at == inputs.len() {
        assert(inputs.take(at) =~= inputs);
        assert(inputs.skip(at) =~= Seq::<Input>::empty());
    } else {
        let shorter = inputs.drop_last();
        lemma_after_inputs_split(state, shorter, at);
        assert(shorter.take(at) =~= inputs.take(at));
        assert(inputs.skip(at).drop_last() =~= shorter.skip(at));
        assert(inputs.skip(at).last() == inputs.last());
    }
}

} // verus!
