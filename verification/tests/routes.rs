use rustastic_drone::network::{copy_hops, reverse_hops, SourceRoutingHeader};
use rustastic_drone::packet::{copy_trace, reversed_trace_ids, NodeType};

fn header(hops: Vec<u8>, hop_index: usize) -> SourceRoutingHeader {
    SourceRoutingHeader::new(hops, hop_index)
}

#[test]
fn current_hop_is_the_hop_under_the_cursor() {
    assert_eq!(header(vec![4, 5, 6], 0).current_hop(), Some(4));
    assert_eq!(header(vec![4, 5, 6], 2).current_hop(), Some(6));
    assert_eq!(header(vec![4, 5, 6], 3).current_hop(), None);
    assert_eq!(header(vec![4, 5, 6], usize::MAX).current_hop(), None);
    assert_eq!(header(vec![], 0).current_hop(), None);
}

#[test]
fn exhausted_means_the_cursor_is_off_the_route() {
    assert!(!header(vec![4, 5, 6], 2).is_exhausted());
    assert!(header(vec![4, 5, 6], 3).is_exhausted());
    assert!(header(vec![], 0).is_exhausted());
}

#[test]
fn increase_moves_the_cursor_by_one() {
    let mut h = header(vec![4, 5, 6], 1);
    h.increase_hop_index();
    assert_eq!(h, header(vec![4, 5, 6], 2));
    h.increase_hop_index();
    assert_eq!(h.hop_index, 3);
}

#[test]
fn reverse_points_at_the_hop_the_packet_came_from() {
    // The holder is node 20 (the cursor is on 30); it got the packet from 10.
    let mut h = header(vec![10, 20, 30, 40], 2);
    h.reverse();
    assert_eq!(h, header(vec![40, 30, 20, 10], 3));
    assert_eq!(h.current_hop(), Some(10));
}

#[test]
fn reverse_at_the_end_of_the_route() {
    let mut h = header(vec![10, 20, 30], 3);
    h.reverse();
    assert_eq!(h, header(vec![30, 20, 10], 1));
    assert_eq!(h.current_hop(), Some(20));
}

#[test]
fn reverse_with_the_first_node_holding_leaves_nothing_to_visit() {
    let mut h = header(vec![10, 20, 30], 1);
    h.reverse();
    assert_eq!(h, header(vec![30, 20, 10], 3));
    assert_eq!(h.current_hop(), None);
}

#[test]
fn reverse_with_no_holder_leaves_nothing_to_visit() {
    let mut h = header(vec![10, 20, 30], 0);
    h.reverse();
    assert_eq!(h, header(vec![30, 20, 10], 3));
}

#[test]
fn reverse_with_the_cursor_beyond_the_route_starts_over() {
    let mut h = header(vec![10, 20, 30], 4);
    h.reverse();
    assert_eq!(h, header(vec![30, 20, 10], 0));
    let mut far = header(vec![10, 20, 30], usize::MAX);
    far.reverse();
    assert_eq!(far, header(vec![30, 20, 10], 0));
}

#[test]
fn reverse_of_an_empty_route() {
    let mut h = header(vec![], 0);
    h.reverse();
    assert_eq!(h, header(vec![], 0));
    let mut off = header(vec![], 1);
    off.reverse();
    assert_eq!(off, header(vec![], 0));
}

#[test]
fn reverse_twice_gives_the_header_back() {
    for cursor in 1..=5usize {
        let mut h = header(vec![1, 2, 3, 4, 5], cursor);
        h.reverse();
        h.reverse();
        assert_eq!(h, header(vec![1, 2, 3, 4, 5], cursor));
    }
}

#[test]
fn duplicate_is_equal_and_independent() {
    let first = header(vec![7, 8, 9], 1);
    let mut copy = first.duplicate();
    assert_eq!(copy, first);
    copy.increase_hop_index();
    assert_eq!(first.hop_index, 1);
    assert_eq!(copy.hop_index, 2);
}

#[test]
fn hops_are_copied_and_reversed() {
    assert_eq!(copy_hops(&vec![1, 2, 3]), vec![1, 2, 3]);
    assert_eq!(reverse_hops(&vec![1, 2, 3]), vec![3, 2, 1]);
    assert_eq!(reverse_hops(&vec![9]), vec![9]);
    assert_eq!(reverse_hops(&Vec::new()), Vec::<u8>::new());
}

#[test]
fn trace_is_copied_and_its_ids_reversed() {
    let trace = vec![(6, NodeType::Client), (0, NodeType::Drone), (1, NodeType::Drone)];
    assert_eq!(copy_trace(&trace), trace);
    assert_eq!(reversed_trace_ids(&trace), vec![1, 0, 6]);
    assert_eq!(reversed_trace_ids(&Vec::new()), Vec::<u8>::new());
}
