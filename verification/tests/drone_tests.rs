use rolling_drones::drone::{is_service, DroneAction, DroneEvent, DroneState};
use rolling_drones::packet::{
    FloodRequest, Fragment, NackType, NodeKind, Packet, PacketType, SourceRoutingHeader,
};

fn fragment(hops: Vec<u8>, hop_index: usize) -> Packet {
    let f = Fragment { fragment_index: 2, total_n_fragments: 3, length: 1, data: [1u8; 128] };
    Packet::new_fragment(SourceRoutingHeader::new(hops, hop_index), 5, f)
}

fn nack_of(a: &DroneAction) -> (u8, Vec<u8>, usize, NackType) {
    match a {
        DroneAction::Forward(n, p) | DroneAction::Send(n, p) => match &p.pack_type {
            PacketType::Nack(k) => (*n, p.routing_header.hops.clone(), p.routing_header.hop_index, k.nack_type),
            _ => panic!("expected a nack"),
        },
        _ => panic!("expected a packet to a neighbour"),
    }
}

#[test]
fn fragment_is_forwarded_to_the_next_hop() {
    let mut d = DroneState::new(11, vec![1, 12]);
    let acts = d.handle_packet(fragment(vec![1, 11, 12, 2], 1), false);
    assert_eq!(acts.len(), 2);
    match &acts[0] {
        DroneAction::Notify(DroneEvent::PacketSent(p)) => assert_eq!(p.routing_header.hop_index, 1),
        _ => panic!("expected a PacketSent report"),
    }
    match &acts[1] {
        DroneAction::Send(n, p) => {
            assert_eq!(*n, 12);
            assert_eq!(p.routing_header.hop_index, 2);
        },
        _ => panic!("expected a send"),
    }
}

#[test]
fn dropped_fragment_is_reported_and_nacked() {
    let mut d = DroneState::new(11, vec![1, 12]);
    let acts = d.handle_packet(fragment(vec![1, 11, 12, 2], 1), true);
    assert_eq!(acts.len(), 2);
    match &acts[0] {
        DroneAction::Notify(DroneEvent::PacketDropped(_)) => {},
        _ => panic!("expected a PacketDropped report"),
    }
    let (to, hops, hop_index, t) = nack_of(&acts[1]);
    assert_eq!(to, 1);
    assert_eq!(hops, vec![11, 1]);
    assert_eq!(hop_index, 1);
    assert_eq!(t, NackType::Dropped);
}

#[test]
fn fragment_for_a_stranger_gets_error_in_routing() {
    let mut d = DroneState::new(11, vec![1]);
    let acts = d.handle_packet(fragment(vec![1, 11, 12, 2], 1), false);
    assert_eq!(acts.len(), 1);
    let (to, hops, hop_index, t) = nack_of(&acts[0]);
    assert_eq!(to, 1);
    assert_eq!(hops, vec![11, 1]);
    assert_eq!(hop_index, 1);
    assert_eq!(t, NackType::ErrorInRouting(12));
}

#[test]
fn fragment_at_the_wrong_drone_gets_unexpected_recipient() {
    let mut d = DroneState::new(20, vec![1, 12]);
    let acts = d.handle_packet(fragment(vec![1, 11, 12, 2], 1), false);
    assert_eq!(acts.len(), 1);
    let (_, _, _, t) = nack_of(&acts[0]);
    assert_eq!(t, NackType::UnexpectedRecipient(20));
}

#[test]
fn fragment_ending_at_a_drone_gets_destination_is_drone() {
    let mut d = DroneState::new(11, vec![1]);
    let acts = d.handle_packet(fragment(vec![1, 11], 1), false);
    assert_eq!(acts.len(), 1);
    let (to, hops, _, t) = nack_of(&acts[0]);
    assert_eq!(to, 1);
    assert_eq!(hops, vec![11, 1]);
    assert_eq!(t, NackType::DestinationIsDrone);
}

#[test]
fn new_flood_request_is_passed_on_and_repeated_one_answered() {
    let mut d = DroneState::new(11, vec![1, 12, 13]);
    let req = || {
        Packet::new_flood_request(
            SourceRoutingHeader::empty_route(),
            0,
            FloodRequest { flood_id: 7, initiator_id: 1, path_trace: vec![(1, NodeKind::Client)] },
        )
    };
    let acts = d.handle_packet(req(), false);
    assert_eq!(acts.len(), 2);
    let mut targets = Vec::new();
    for a in &acts {
        match a {
            DroneAction::Send(n, p) => {
                targets.push(*n);
                match &p.pack_type {
                    PacketType::FloodRequest(f) => {
                        assert_eq!(f.path_trace, vec![(1, NodeKind::Client), (11, NodeKind::Drone)]);
                    },
                    _ => panic!("expected a flood request"),
                }
            },
            _ => panic!("expected sends"),
        }
    }
    assert_eq!(targets, vec![12, 13]);
    assert_eq!(d.already_visited, vec![(1, 7)]);

    let again = d.handle_packet(req(), false);
    assert_eq!(again.len(), 1);
    match &again[0] {
        DroneAction::Forward(n, p) => {
            assert_eq!(*n, 1);
            assert_eq!(p.routing_header.hops, vec![11, 1]);
            assert!(matches!(p.pack_type, PacketType::FloodResponse(_)));
        },
        _ => panic!("expected a flood response forwarded"),
    }
    assert_eq!(d.already_visited, vec![(1, 7)]);
}

#[test]
fn adding_and_removing_a_sender_restores_the_neighbours() {
    let mut d = DroneState::new(11, vec![1, 12]);
    assert!(d.add_sender(30));
    assert!(!d.add_sender(30));
    assert_eq!(d.neighbours, vec![1, 12, 30]);
    assert!(d.remove_sender(30));
    assert_eq!(d.neighbours, vec![1, 12]);
    assert!(!d.remove_sender(30));
}

#[test]
fn crashing_drone_answers_fragments_and_drops_floods() {
    let mut d = DroneState::new(11, vec![1, 12]);
    let acts = d.crash_packet(fragment(vec![1, 11, 12, 2], 1));
    assert_eq!(acts.len(), 1);
    let (to, _, _, t) = nack_of(&acts[0]);
    assert_eq!(to, 1);
    assert_eq!(t, NackType::ErrorInRouting(11));
    let flood = Packet::new_flood_request(
        SourceRoutingHeader::empty_route(),
        0,
        FloodRequest { flood_id: 1, initiator_id: 1, path_trace: vec![(1, NodeKind::Client)] },
    );
    assert!(d.crash_packet(flood).is_empty());
    d.finish_crash();
    assert!(d.neighbours.is_empty());
}

#[test]
fn service_packets_are_acks_nacks_and_flood_responses() {
    let ack = Packet::new_ack(SourceRoutingHeader::new(vec![1, 2], 0), 0, 0);
    assert!(is_service(&ack.pack_type));
    let frag = fragment(vec![1, 2], 0);
    assert!(!is_service(&frag.pack_type));
}

#[test]
fn service_packet_at_the_first_hop_is_forwarded() {
    // An ack whose hop index still points at the drone itself (index 0).
    let mut d = DroneState::new(2, vec![11]);
    let ack = Packet::new_ack(SourceRoutingHeader::new(vec![2, 11, 1], 0), 4, 0);
    let acts = d.handle_packet(ack, false);
    let sent = acts.iter().any(|a| match a {
        DroneAction::Send(n, p) | DroneAction::Forward(n, p) => *n == 11 && p.routing_header.hop_index == 1,
        _ => false,
    });
    assert!(sent);
    let ack = Packet::new_ack(SourceRoutingHeader::new(vec![2, 11, 1], 0), 4, 0);
    let crash = d.crash_packet(ack);
    assert!(!crash.is_empty());
}

/// The packet a drone passes on to a neighbour, with the neighbour's id.
fn sent(acts: Vec<DroneAction>) -> (u8, Packet) {
    for a in acts {
        match a {
            DroneAction::Send(n, p) | DroneAction::Forward(n, p) => return (n, p),
            DroneAction::Notify(_) => {},
        }
    }
    panic!("expected a packet to a neighbour");
}

fn one_fragment() -> Fragment {
    Fragment { fragment_index: 1, total_n_fragments: 1, length: 128, data: [1u8; 128] }
}

#[test]
fn test_generic_fragment_forward() {
    // Client 1 sends through drone 11 (never drops) towards drone 12.
    let mut d11 = DroneState::new(11, vec![1, 12]);
    let msg = Packet::new_fragment(SourceRoutingHeader::new(vec![1, 11, 12, 21], 1), 1, one_fragment());
    let (to, p) = sent(d11.handle_packet(msg, false));
    assert_eq!(to, 12);
    assert_eq!(p.routing_header.hops, vec![1, 11, 12, 21]);
    assert_eq!(p.routing_header.hop_index, 2);
    assert_eq!(p.session_id, 1);
    match p.pack_type {
        PacketType::MsgFragment(f) => assert_eq!(f.fragment_index, 1),
        _ => panic!("expected the fragment"),
    }
}

#[test]
fn test_generic_fragment_drop() {
    // Drone 11 always drops: the client gets a Dropped nack back.
    let mut d11 = DroneState::new(11, vec![1, 12]);
    let msg = Packet::new_fragment(SourceRoutingHeader::new(vec![1, 11, 12, 21], 1), 1, one_fragment());
    let (to, p) = sent(d11.handle_packet(msg, true));
    assert_eq!(to, 1);
    assert_eq!(p.routing_header.hops, vec![11, 1]);
    assert_eq!(p.routing_header.hop_index, 1);
    assert_eq!(p.session_id, 1);
    match p.pack_type {
        PacketType::Nack(n) => {
            assert_eq!(n.fragment_index, 1);
            assert_eq!(n.nack_type, NackType::Dropped);
        },
        _ => panic!("expected a nack"),
    }
}

#[test]
fn test_generic_chain_fragment_drop() {
    // Client 1 -> drone 11 (never drops) -> drone 12 (always drops) -> server 21.
    let mut d11 = DroneState::new(11, vec![1, 12]);
    let mut d12 = DroneState::new(12, vec![11, 21]);
    let msg = Packet::new_fragment(SourceRoutingHeader::new(vec![1, 11, 12, 21], 1), 1, one_fragment());
    let (to, p) = sent(d11.handle_packet(msg, false));
    assert_eq!(to, 12);
    let (to, nack) = sent(d12.handle_packet(p, true));
    assert_eq!(to, 11);
    let (to, nack) = sent(d11.handle_packet(nack, false));
    assert_eq!(to, 1);
    assert_eq!(nack.routing_header.hops, vec![12, 11, 1]);
    assert_eq!(nack.routing_header.hop_index, 2);
    assert_eq!(nack.session_id, 1);
    match nack.pack_type {
        PacketType::Nack(n) => {
            assert_eq!(n.fragment_index, 1);
            assert_eq!(n.nack_type, NackType::Dropped);
        },
        _ => panic!("expected a nack"),
    }
}

#[test]
fn test_generic_chain_fragment_ack() {
    // Client 1 -> drone 11 -> drone 12 -> server 21, no drops; the server's
    // ack comes back the same way.
    let mut d11 = DroneState::new(11, vec![1, 12]);
    let mut d12 = DroneState::new(12, vec![11, 21]);
    let msg = Packet::new_fragment(SourceRoutingHeader::new(vec![1, 11, 12, 21], 1), 1, one_fragment());
    let (to, p) = sent(d11.handle_packet(msg, false));
    assert_eq!(to, 12);
    let (to, p) = sent(d12.handle_packet(p, false));
    assert_eq!(to, 21);
    assert_eq!(p.routing_header.hop_index, 3);
    let ack = Packet::new_ack(SourceRoutingHeader::new(vec![21, 12, 11, 1], 1), 1, 1);
    let (to, ack) = sent(d12.handle_packet(ack, false));
    assert_eq!(to, 11);
    let (to, ack) = sent(d11.handle_packet(ack, false));
    assert_eq!(to, 1);
    assert_eq!(ack.routing_header.hops, vec![21, 12, 11, 1]);
    assert_eq!(ack.routing_header.hop_index, 3);
    assert_eq!(ack.session_id, 1);
    match ack.pack_type {
        PacketType::Ack(a) => assert_eq!(a.fragment_index, 1),
        _ => panic!("expected an ack"),
    }
}
