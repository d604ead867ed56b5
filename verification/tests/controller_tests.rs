use rolling_drones::controller::{ack_hop, crash_commands, destination_of, flood_hop, fragment_hop, handle_event, ControllerCommand};
use rolling_drones::drone::DroneEvent;
use rolling_drones::packet::{Ack, FloodRequest, Fragment, NodeKind, Packet, SourceRoutingHeader};

#[test]
fn crashing_a_drone_tells_the_others() {
    let drones = vec![1u8, 2, 3];
    assert_eq!(
        crash_commands(&drones, 2, true),
        vec![(2, ControllerCommand::Crash), (1, ControllerCommand::RemoveSender(2)), (3, ControllerCommand::RemoveSender(2))]
    );
    assert_eq!(crash_commands(&drones, 2, false), vec![(2, ControllerCommand::Crash)]);
    assert!(crash_commands(&drones, 9, true).is_empty());
}

#[test]
fn packets_are_moved_along_their_routes() {
    let f = Fragment { fragment_index: 1, total_n_fragments: 1, length: 1, data: [1; 128] };
    let p = Packet::new_fragment(SourceRoutingHeader::new(vec![1, 3, 2], 0), 0, f);
    let (next, q) = fragment_hop(p);
    assert_eq!(next, 3);
    assert_eq!(q.routing_header.hop_index, 1);
    let ack = Packet::new_ack(SourceRoutingHeader::new(vec![2, 3], 0), 0, 345);
    assert_eq!(ack_hop(&ack), 2);
    assert_eq!(destination_of(&ack), 3);
    let _ = Ack { fragment_index: 0 };
}

#[test]
fn handed_over_packets_go_to_their_destination() {
    let ack = Packet::new_ack(SourceRoutingHeader::new(vec![2, 3, 4], 1), 0, 0);
    assert_eq!(handle_event(&DroneEvent::ControllerShortcut(ack)), Some(4));
    let other = Packet::new_ack(SourceRoutingHeader::new(vec![2, 3], 1), 0, 0);
    assert_eq!(handle_event(&DroneEvent::PacketSent(other)), None);
}

#[test]
fn floods_start_at_the_next_hop() {
    let req = Packet::new_flood_request(
        SourceRoutingHeader::new(vec![4, 10], 0),
        0,
        FloodRequest { flood_id: 1, initiator_id: 4, path_trace: vec![(4, NodeKind::Client)] },
    );
    assert_eq!(flood_hop(&req), Some(10));
    let ack = Packet::new_ack(SourceRoutingHeader::new(vec![2, 3], 0), 0, 0);
    assert_eq!(flood_hop(&ack), None);
}
