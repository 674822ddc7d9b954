use crossbeam_channel::unbounded;
use rustastic_drone::drone::{build_nack, RustasticDrone};
use rustastic_drone::network::SourceRoutingHeader;
use rustastic_drone::packet::{
    Ack, FloodResponse, Fragment, Nack, NackType, NodeType, Packet, PacketType,
};
use rustastic_drone::protocol::{Emission, Rejection};
use std::collections::HashMap;

fn drone(id: u8, neighbors: &[u8], pdr: u8) -> RustasticDrone {
    let (event_send, _event_recv) = unbounded();
    let (_command_send, command_recv) = unbounded();
    let (_packet_send, packet_recv) = unbounded();
    let mut links = HashMap::new();
    for n in neighbors {
        links.insert(*n, unbounded().0);
    }
    RustasticDrone::new(id, event_send, command_recv, packet_recv, links, pdr)
}

fn fragment(index: u64) -> Fragment {
    Fragment { fragment_index: index, total_n_fragments: 10, length: 128, data: [index as u8; 128] }
}

fn packet(hops: Vec<u8>, hop_index: usize, session_id: u64, pack_type: PacketType) -> Packet {
    Packet { routing_header: SourceRoutingHeader { hop_index, hops }, session_id, pack_type }
}

fn nack(index: u64, nack_type: NackType) -> PacketType {
    PacketType::Nack(Nack { fragment_index: index, nack_type })
}

fn ack(index: u64) -> PacketType {
    PacketType::Ack(Ack { fragment_index: index })
}

#[test]
fn unexpected_recipient_is_answered_towards_the_sender() {
    let mut d = drone(2, &[1, 3], 0);
    let got = d.process_packet(packet(vec![1, 5, 3], 1, 40, ack(9)), false);
    assert_eq!(
        got,
        Ok(vec![Emission::ToNeighbor(
            1,
            packet(vec![3, 5, 1], 2, 40, nack(0, NackType::UnexpectedRecipient(2))),
        )])
    );
}

#[test]
fn unexpected_recipient_changes_nothing_in_the_node() {
    let mut d = drone(2, &[1, 3], 0);
    d.buffer.add_fragment(40, 9, fragment(9));
    let carried = PacketType::Nack(Nack { fragment_index: 9, nack_type: NackType::Dropped });
    let got = d.process_packet(packet(vec![1, 5, 3], 1, 40, carried), false);
    assert_eq!(
        got,
        Ok(vec![Emission::ToNeighbor(
            1,
            packet(vec![3, 5, 1], 2, 40, nack(0, NackType::UnexpectedRecipient(2))),
        )])
    );
    assert!(d.buffer.contains(40, 9));
    assert_eq!(d.buffer.len(), 1);
    assert_eq!(d.link_count(), 2);
    assert_eq!(d.pdr(), 0);
}

#[test]
fn unexpected_recipient_for_every_payload_but_a_flood_request() {
    let payloads = vec![
        PacketType::MsgFragment(fragment(3)),
        ack(3),
        nack(3, NackType::Dropped),
        PacketType::FloodResponse(FloodResponse { flood_id: 1, path_trace: vec![(1, NodeType::Client)] }),
    ];
    for payload in payloads {
        let mut d = drone(2, &[1, 3], 100);
        let got = d.process_packet(packet(vec![1, 7, 3], 1, 5, payload), true);
        assert_eq!(
            got,
            Ok(vec![Emission::ToNeighbor(
                1,
                packet(vec![3, 7, 1], 2, 5, nack(0, NackType::UnexpectedRecipient(2))),
            )])
        );
        assert_eq!(d.buffer.len(), 0);
    }
}

#[test]
fn unexpected_recipient_at_the_first_hop_goes_to_the_controller() {
    let mut d = drone(2, &[1, 3], 0);
    let got = d.process_packet(packet(vec![1, 2, 3], 0, 40, ack(9)), false);
    assert_eq!(
        got,
        Ok(vec![Emission::ToController(packet(
            vec![3, 2, 1],
            3,
            40,
            nack(0, NackType::UnexpectedRecipient(2)),
        ))])
    );
}

#[test]
fn cursor_off_the_route_counts_as_unexpected_recipient() {
    let mut d = drone(2, &[1, 3], 0);
    let got = d.process_packet(packet(vec![1, 2], 2, 40, ack(9)), false);
    assert_eq!(
        got,
        Ok(vec![Emission::ToController(packet(
            vec![2, 1],
            0,
            40,
            nack(0, NackType::UnexpectedRecipient(2)),
        ))])
    );
    let far = d.process_packet(packet(vec![1, 2], usize::MAX, 40, ack(9)), false);
    assert_eq!(
        far,
        Ok(vec![Emission::ToController(packet(
            vec![2, 1],
            0,
            40,
            nack(0, NackType::UnexpectedRecipient(2)),
        ))])
    );
}

#[test]
fn empty_route_counts_as_unexpected_recipient() {
    let mut d = drone(2, &[1, 3], 0);
    let got = d.process_packet(packet(vec![], 0, 40, ack(9)), false);
    assert_eq!(
        got,
        Ok(vec![Emission::ToController(packet(
            vec![],
            0,
            40,
            nack(0, NackType::UnexpectedRecipient(2)),
        ))])
    );
}

#[test]
fn route_that_ends_at_the_drone_is_refused() {
    let mut d = drone(2, &[1, 3], 0);
    let got = d.process_packet(packet(vec![1, 2], 1, 8, PacketType::MsgFragment(fragment(6))), false);
    assert_eq!(
        got,
        Ok(vec![Emission::ToNeighbor(
            1,
            packet(vec![2, 1], 1, 8, nack(0, NackType::DestinationIsDrone)),
        )])
    );
    assert_eq!(d.buffer.len(), 0);
}

#[test]
fn route_of_the_drone_alone_is_refused_to_the_controller() {
    let mut d = drone(2, &[1, 3], 0);
    let got = d.process_packet(packet(vec![2], 0, 8, ack(1)), false);
    assert_eq!(
        got,
        Ok(vec![Emission::ToController(packet(
            vec![2],
            1,
            8,
            nack(0, NackType::DestinationIsDrone),
        ))])
    );
}

#[test]
fn next_hop_without_a_link_is_an_error_in_routing() {
    let mut d = drone(2, &[1], 0);
    let got = d.process_packet(packet(vec![1, 2, 3], 1, 8, PacketType::MsgFragment(fragment(6))), false);
    assert_eq!(
        got,
        Ok(vec![Emission::ToNeighbor(
            1,
            packet(vec![3, 2, 1], 2, 8, nack(0, NackType::ErrorInRouting(2))),
        )])
    );
    assert_eq!(d.buffer.len(), 0);
}

#[test]
fn error_in_routing_without_a_link_back_goes_to_the_controller() {
    let mut d = drone(2, &[], 0);
    let got = d.process_packet(packet(vec![1, 2, 3], 1, 8, ack(0)), false);
    assert_eq!(
        got,
        Ok(vec![Emission::ToController(packet(
            vec![3, 2, 1],
            2,
            8,
            nack(0, NackType::ErrorInRouting(2)),
        ))])
    );
}

#[test]
fn fragment_is_cached_and_passed_on() {
    let mut d = drone(2, &[1, 3], 0);
    let got = d.process_packet(packet(vec![1, 2, 3], 1, 77, PacketType::MsgFragment(fragment(4))), false);
    assert_eq!(
        got,
        Ok(vec![Emission::ToNeighbor(
            3,
            packet(vec![1, 2, 3], 2, 77, PacketType::MsgFragment(fragment(4))),
        )])
    );
    assert_eq!(d.buffer.len(), 1);
    assert!(d.buffer.contains(77, 4));
    assert_eq!(d.buffer.get_fragment(77, 4), Some(fragment(4)));
}

#[test]
fn dropped_fragment_is_answered_and_not_cached() {
    let mut d = drone(2, &[1, 3], 100);
    let got = d.process_packet(packet(vec![1, 2, 3], 1, 77, PacketType::MsgFragment(fragment(4))), true);
    assert_eq!(
        got,
        Ok(vec![Emission::ToNeighbor(1, packet(vec![3, 2, 1], 2, 77, nack(4, NackType::Dropped)))])
    );
    assert_eq!(d.buffer.len(), 0);
}

#[test]
fn drop_decision_only_matters_for_fragments() {
    let mut d = drone(2, &[1, 3], 100);
    let got = d.process_packet(packet(vec![0, 1, 2, 3, 4], 2, 5, ack(1)), true);
    assert_eq!(got, Ok(vec![Emission::ToNeighbor(3, packet(vec![0, 1, 2, 3, 4], 3, 5, ack(1)))]));
}

#[test]
fn seventeenth_fragment_evicts_the_first() {
    let mut d = drone(2, &[1, 3], 0);
    assert_eq!(d.buffer.max_size(), 16);
    for i in 0..17u64 {
        let got = d.process_packet(packet(vec![1, 2, 3], 1, 1, PacketType::MsgFragment(fragment(i))), false);
        assert!(got.is_ok());
    }
    assert_eq!(d.buffer.len(), 16);
    assert!(!d.buffer.contains(1, 0));
    for i in 1..17u64 {
        assert!(d.buffer.contains(1, i));
    }
}

#[test]
fn nack_fetches_the_cached_fragment_and_sends_it_back_where_the_nack_came_from() {
    // Route 1 -> 2 -> 3. Node 2 passes fragment 0 of session 123 on and keeps it.
    let mut b = drone(2, &[1, 3], 0);
    let passed = b.process_packet(packet(vec![1, 2, 3], 1, 123, PacketType::MsgFragment(fragment(0))), false);
    assert_eq!(
        passed,
        Ok(vec![Emission::ToNeighbor(
            3,
            packet(vec![1, 2, 3], 2, 123, PacketType::MsgFragment(fragment(0))),
        )])
    );
    assert!(b.buffer.contains(123, 0));
    // Node 3 dropped it: its negative acknowledgment travels 3 -> 2 -> 1.
    let dropped = packet(vec![3, 2, 1], 1, 123, nack(0, NackType::Dropped));
    let resent = b.process_packet(dropped.duplicate(), false);
    assert_eq!(
        resent,
        Ok(vec![Emission::ToNeighbor(
            3,
            packet(vec![1, 2, 3], 2, 123, PacketType::MsgFragment(fragment(0))),
        )])
    );
    assert!(!b.buffer.contains(123, 0));
    assert_eq!(b.buffer.len(), 0);
    // The same acknowledgment again finds nothing and goes on towards node 1.
    let relayed = b.process_packet(dropped, false);
    assert_eq!(
        relayed,
        Ok(vec![Emission::ToNeighbor(1, packet(vec![3, 2, 1], 2, 123, nack(0, NackType::Dropped)))])
    );
    assert_eq!(b.buffer.len(), 0);
}

#[test]
fn nack_for_another_session_or_index_is_passed_on() {
    let mut b = drone(2, &[1, 3], 0);
    b.buffer.add_fragment(123, 0, fragment(0));
    let other_session = b.process_packet(packet(vec![3, 2, 1], 1, 124, nack(0, NackType::Dropped)), false);
    assert_eq!(
        other_session,
        Ok(vec![Emission::ToNeighbor(1, packet(vec![3, 2, 1], 2, 124, nack(0, NackType::Dropped)))])
    );
    let other_index = b.process_packet(packet(vec![3, 2, 1], 1, 123, nack(1, NackType::Dropped)), false);
    assert_eq!(
        other_index,
        Ok(vec![Emission::ToNeighbor(1, packet(vec![3, 2, 1], 2, 123, nack(1, NackType::Dropped)))])
    );
    assert!(b.buffer.contains(123, 0));
}

#[test]
fn nack_of_any_kind_fetches_the_fragment() {
    let mut b = drone(2, &[1, 3], 0);
    b.buffer.add_fragment(5, 2, fragment(2));
    let got = b.process_packet(packet(vec![3, 2, 1], 1, 5, nack(2, NackType::ErrorInRouting(3))), false);
    assert_eq!(
        got,
        Ok(vec![Emission::ToNeighbor(
            3,
            packet(vec![1, 2, 3], 2, 5, PacketType::MsgFragment(fragment(2))),
        )])
    );
    assert!(!b.buffer.contains(5, 2));
}

#[test]
fn resend_from_the_first_hop_has_nowhere_to_go() {
    // The acknowledgment starts at this node: no hop lies behind it.
    let mut b = drone(1, &[1, 2], 0);
    b.buffer.add_fragment(123, 0, fragment(0));
    let got = b.process_packet(packet(vec![1, 2], 0, 123, nack(0, NackType::Dropped)), false);
    assert_eq!(
        got,
        Ok(vec![Emission::ToController(packet(
            vec![2, 1],
            2,
            123,
            PacketType::MsgFragment(fragment(0)),
        ))])
    );
    assert!(!b.buffer.contains(123, 0));
}

#[test]
fn ack_is_passed_on_as_it_is() {
    let mut d = drone(2, &[1, 3], 0);
    let got = d.process_packet(packet(vec![3, 2, 1, 0], 1, 123, ack(5)), false);
    assert_eq!(got, Ok(vec![Emission::ToNeighbor(1, packet(vec![3, 2, 1, 0], 2, 123, ack(5)))]));
}

#[test]
fn ack_with_the_cursor_on_the_last_hop_is_turned_away() {
    let mut d = drone(2, &[1, 3], 0);
    let got = d.process_packet(packet(vec![3, 2, 1], 1, 123, ack(5)), false);
    assert_eq!(got, Err(Rejection::NoFurtherHop));
}

#[test]
fn nack_with_the_cursor_on_the_last_hop_is_passed_on() {
    let mut d = drone(2, &[1, 3], 0);
    let got = d.process_packet(packet(vec![3, 2, 1], 1, 123, nack(5, NackType::Dropped)), false);
    assert_eq!(
        got,
        Ok(vec![Emission::ToNeighbor(1, packet(vec![3, 2, 1], 2, 123, nack(5, NackType::Dropped)))])
    );
}

#[test]
fn flood_response_is_passed_on_as_it_is() {
    let mut d = drone(2, &[1, 3], 0);
    let trace = vec![(1, NodeType::Client), (2, NodeType::Drone), (3, NodeType::Drone)];
    let carried = PacketType::FloodResponse(FloodResponse { flood_id: 4, path_trace: trace.clone() });
    let got = d.process_packet(packet(vec![3, 2, 1], 1, 6, carried), false);
    assert_eq!(
        got,
        Ok(vec![Emission::ToNeighbor(
            1,
            packet(
                vec![3, 2, 1],
                2,
                6,
                PacketType::FloodResponse(FloodResponse { flood_id: 4, path_trace: trace }),
            ),
        )])
    );
}

#[test]
fn handlers_agree_with_the_dispatcher() {
    let mut d = drone(2, &[1, 3], 0);
    let moved_on = packet(vec![1, 2, 3], 2, 77, PacketType::MsgFragment(fragment(4)));
    let got = d.handle_fragment(moved_on.duplicate(), fragment(4), false);
    assert_eq!(got, Ok(vec![Emission::ToNeighbor(3, moved_on)]));
    assert!(d.buffer.contains(77, 4));
    let back = d.handle_ack_nack(packet(vec![3, 2, 1], 2, 77, nack(4, NackType::Dropped)));
    assert_eq!(
        back,
        Ok(vec![Emission::ToNeighbor(
            3,
            packet(vec![1, 2, 3], 2, 77, PacketType::MsgFragment(fragment(4))),
        )])
    );
    let turned_away = d.handle_ack_nack(packet(vec![3, 2, 1], 2, 77, ack(4)));
    assert_eq!(turned_away, Err(Rejection::NoFurtherHop));
}

#[test]
fn checks_look_at_the_hop_under_the_cursor() {
    let d = drone(2, &[1, 3], 0);
    assert!(d.check_packet_correct_id(&packet(vec![1, 2, 3], 1, 0, ack(0))));
    assert!(!d.check_packet_correct_id(&packet(vec![1, 2, 3], 0, 0, ack(0))));
    assert!(!d.check_packet_correct_id(&packet(vec![1, 2, 3], 3, 0, ack(0))));
    assert!(d.check_neighbor(&packet(vec![1, 2, 3], 2, 0, ack(0))));
    assert!(!d.check_neighbor(&packet(vec![1, 2, 3], 1, 0, ack(0))));
    assert!(!d.check_neighbor(&packet(vec![1, 2, 3], 3, 0, ack(0))));
}

#[test]
fn emit_picks_the_neighbor_or_the_controller() {
    let d = drone(2, &[1, 3], 0);
    assert_eq!(
        d.emit(packet(vec![1, 2, 3], 2, 0, ack(0))),
        Emission::ToNeighbor(3, packet(vec![1, 2, 3], 2, 0, ack(0)))
    );
    assert_eq!(
        d.emit(packet(vec![1, 2, 4], 2, 0, ack(0))),
        Emission::ToController(packet(vec![1, 2, 4], 2, 0, ack(0)))
    );
    assert_eq!(
        d.emit(packet(vec![1, 2, 3], 3, 0, ack(0))),
        Emission::ToController(packet(vec![1, 2, 3], 3, 0, ack(0)))
    );
}

#[test]
fn built_nack_names_the_fragment_only_when_one_is_given() {
    let carrier = packet(vec![1, 2, 3], 2, 9, PacketType::MsgFragment(fragment(6)));
    assert_eq!(
        build_nack(carrier.duplicate(), Some(fragment(6)), NackType::Dropped),
        packet(vec![3, 2, 1], 2, 9, nack(6, NackType::Dropped))
    );
    assert_eq!(
        build_nack(carrier.duplicate(), Some(fragment(6)), NackType::DestinationIsDrone),
        packet(vec![3, 2, 1], 2, 9, nack(6, NackType::Dropped))
    );
    assert_eq!(
        build_nack(carrier, None, NackType::ErrorInRouting(2)),
        packet(vec![3, 2, 1], 2, 9, nack(0, NackType::ErrorInRouting(2)))
    );
}
