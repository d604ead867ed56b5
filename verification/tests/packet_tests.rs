use rolling_drones::drone::reverse_vector;
use rolling_drones::packet::{
    ack_for, create_ack, create_nack, FloodRequest, Fragment, NackType, NodeKind, Packet, PacketType, SourceRoutingHeader,
};

fn fragment_packet(hops: Vec<u8>, hop_index: usize, index: u64) -> Packet {
    let fragment = Fragment { fragment_index: index, total_n_fragments: 4, length: 3, data: [7u8; 128] };
    Packet::new_fragment(SourceRoutingHeader::new(hops, hop_index), 9, fragment)
}

#[test]
fn nack_goes_back_over_the_hops_taken() {
    let p = fragment_packet(vec![1, 11, 12, 13, 2], 2, 3);
    let nack = create_nack(&p, NackType::ErrorInRouting(13));
    assert_eq!(nack.routing_header.hops, vec![12, 11, 1]);
    assert_eq!(nack.routing_header.hop_index, 0);
    assert_eq!(nack.session_id, 9);
    match nack.pack_type {
        PacketType::Nack(n) => {
            assert_eq!(n.fragment_index, 3);
            assert_eq!(n.nack_type, NackType::ErrorInRouting(13));
        },
        _ => panic!("expected a nack"),
    }
}

#[test]
fn nack_of_a_non_fragment_names_fragment_zero() {
    let p = Packet::new_ack(SourceRoutingHeader::new(vec![4, 5, 6], 1), 2, 77);
    let nack = create_nack(&p, NackType::DestinationIsDrone);
    assert_eq!(nack.routing_header.hops, vec![5, 4]);
    match nack.pack_type {
        PacketType::Nack(n) => assert_eq!(n.fragment_index, 0),
        _ => panic!("expected a nack"),
    }
}

#[test]
fn ack_runs_the_whole_route_backwards() {
    let p = fragment_packet(vec![1, 11, 2], 2, 5);
    let ack = create_ack(&p);
    assert_eq!(ack.routing_header.hops, vec![2, 11, 1]);
    assert_eq!(ack.routing_header.hop_index, 0);
    match ack.pack_type {
        PacketType::Ack(a) => assert_eq!(a.fragment_index, 5),
        _ => panic!("expected an ack"),
    }
}

#[test]
fn flood_response_returns_along_the_trace() {
    let req = FloodRequest {
        flood_id: 4,
        initiator_id: 1,
        path_trace: vec![(1, NodeKind::Client), (11, NodeKind::Drone), (30, NodeKind::Server)],
    };
    let resp = req.generate_response(8);
    assert_eq!(resp.routing_header.hops, vec![30, 11, 1]);
    assert_eq!(resp.session_id, 8);
    match resp.pack_type {
        PacketType::FloodResponse(r) => {
            assert_eq!(r.flood_id, 4);
            assert_eq!(r.path_trace.len(), 3);
            assert_eq!(r.path_trace[2], (30, NodeKind::Server));
        },
        _ => panic!("expected a flood response"),
    }
}

#[test]
fn reverse_vector_reverses_and_twice_restores() {
    let v = vec![1u8, 2, 3, 4];
    let r = reverse_vector(&v);
    assert_eq!(r, vec![4, 3, 2, 1]);
    assert_eq!(reverse_vector(&r), v);
    let empty: Vec<String> = Vec::new();
    assert!(reverse_vector(&empty).is_empty());
    let words = vec!["a".to_string(), "b".to_string()];
    assert_eq!(reverse_vector(&words), vec!["b".to_string(), "a".to_string()]);
}

#[test]
fn duplicate_keeps_everything() {
    let p = fragment_packet(vec![1, 2, 3], 1, 0);
    let q = p.duplicate();
    assert_eq!(q.routing_header.hops, p.routing_header.hops);
    assert_eq!(q.routing_header.hop_index, 1);
    assert_eq!(q.fragment_index(), 0);
    assert_eq!(q.session_id, p.session_id);
}

#[test]
fn the_ack_for_a_fragment_goes_to_the_previous_hop() {
    let p = fragment_packet(vec![1, 11, 12, 2], 3, 5);
    let (to, ack) = ack_for(&p);
    assert_eq!(to, 12);
    assert_eq!(ack.routing_header.hops, vec![2, 12, 11, 1]);
    assert_eq!(ack.routing_header.hop_index, 1);
    assert_eq!(ack.session_id, 9);
    match ack.pack_type {
        PacketType::Ack(a) => assert_eq!(a.fragment_index, 5),
        _ => panic!("expected an ack"),
    }
}

#[test]
fn strings_reversed_twice_come_back() {
    let words = vec!["x".to_string(), "y".to_string(), "z".to_string()];
    assert_eq!(reverse_vector(&reverse_vector(&words)), words);
}
