use rolling_drones::assembler::{fragment_message, NodeData};
use rolling_drones::client::{make_pending_key, ClientCore, RequestError, RouteError};
use rolling_drones::common::{ContentType, ServerType};
use rolling_drones::packet::{
    FloodRequest, FloodResponse, Nack, NackType, NodeKind, Packet, PacketType, SourceRoutingHeader,
};

fn uniform_costs() -> Vec<u32> {
    vec![1u32; 256]
}

fn response(trace: Vec<(u8, NodeKind)>) -> Packet {
    Packet {
        pack_type: PacketType::FloodResponse(FloodResponse { flood_id: 0, path_trace: trace }),
        routing_header: SourceRoutingHeader::new(vec![], 0),
        session_id: 0,
    }
}

/// Client 1 learns two routes to server 3: through drone 10, and through
/// drones 11 and 12.
fn learnt_client() -> ClientCore {
    let mut c = ClientCore::new(1);
    let neighbours = vec![10, 11];
    let sends = c.handle_flood_response(
        response(vec![(1, NodeKind::Client), (10, NodeKind::Drone), (3, NodeKind::Server)]),
        &neighbours,
        false,
    );
    assert!(sends.is_empty());
    c.handle_flood_response(
        response(vec![(1, NodeKind::Client), (11, NodeKind::Drone), (12, NodeKind::Drone), (3, NodeKind::Server)]),
        &neighbours,
        false,
    );
    c
}

#[test]
fn flood_responses_teach_servers_and_links() {
    let c = learnt_client();
    assert_eq!(c.servers, vec![3]);
    assert_eq!(c.clients, vec![1]);
    assert_eq!(c.flood.len(), 2);
    assert_eq!(c.node_data.get(&10), Some(&NodeData::new()));
    assert_eq!(c.node_data.get(&12), Some(&NodeData::new()));
}

#[test]
fn the_cheapest_route_is_chosen() {
    let c = learnt_client();
    assert_eq!(c.find_best_route(3, &uniform_costs()), Ok(vec![1, 10, 3]));
    let mut costly = uniform_costs();
    costly[10] = 50;
    assert_eq!(c.find_best_route(3, &costly), Ok(vec![1, 11, 12, 3]));
}

#[test]
fn unknown_destination_has_no_route() {
    let c = learnt_client();
    assert_eq!(c.find_best_route(99, &uniform_costs()), Err(RouteError::NoRoute));
    let fresh = ClientCore::new(1);
    assert_eq!(fresh.find_best_route(3, &uniform_costs()), Err(RouteError::NoRoute));
}

#[test]
fn a_flood_starts_with_a_fresh_id() {
    let mut c = ClientCore::new(4);
    let first = c.initiate_flooding();
    let second = c.initiate_flooding();
    match (first.pack_type, second.pack_type) {
        (PacketType::FloodRequest(a), PacketType::FloodRequest(b)) => {
            assert_eq!(a.flood_id, 0);
            assert_eq!(b.flood_id, 1);
            assert_eq!(a.initiator_id, 4);
            assert_eq!(a.path_trace, vec![(4, NodeKind::Client)]);
        },
        _ => panic!("expected flood requests"),
    }
    assert!(first.routing_header.hops.is_empty());
}

#[test]
fn a_repeated_flood_request_is_answered() {
    let mut c = ClientCore::new(1);
    let neighbours = vec![10, 11];
    let req = || Packet::new_flood_request(
        SourceRoutingHeader::empty_route(),
        3,
        FloodRequest { flood_id: 5, initiator_id: 2, path_trace: vec![(2, NodeKind::Client), (10, NodeKind::Drone)] },
    );
    let first = c.handle_flood_req(req(), &neighbours);
    assert_eq!(first.len(), 1);
    assert_eq!(first[0].0, 11);
    let second = c.handle_flood_req(req(), &neighbours);
    assert_eq!(second.len(), 1);
    assert_eq!(second[0].0, 10);
    assert_eq!(second[0].1.routing_header.hops, vec![1, 10, 2]);
    assert_eq!(second[0].1.routing_header.hop_index, 1);
}

#[test]
fn requests_go_only_to_known_servers() {
    let mut c = learnt_client();
    let frags = fragment_message(&vec![1u8; 130]);
    assert_eq!(
        c.begin_request(42, frags.clone(), &uniform_costs()).err(),
        Some(RequestError::UnknownServer)
    );
    assert_eq!(c.session_id_packet, 0);
    let (route, packets) = c.begin_request(3, frags, &uniform_costs()).unwrap();
    assert_eq!(route, vec![1, 10, 3]);
    assert_eq!(packets.len(), 2);
    assert_eq!(c.session_id_packet, 1);
    assert_eq!(c.packet_sent.get(&0), Some(&3));
    assert_eq!(c.fragments_sent.get(&0).map(|v| v.len()), Some(2));
}

#[test]
fn a_lost_fragment_is_resent_on_a_new_route() {
    let mut c = learnt_client();
    let frags = fragment_message(&vec![1u8; 130]);
    c.begin_request(3, frags, &uniform_costs()).unwrap();
    let nack = Packet::new_nack(
        SourceRoutingHeader::new(vec![10, 1], 0),
        0,
        Nack { fragment_index: 1, nack_type: NackType::ErrorInRouting(3) },
    );
    let resend = c.handle_nack(&nack, &uniform_costs());
    assert_eq!(c.problematic_nodes, vec![3]);
    let (next, p) = resend.expect("the fragment is resent");
    assert_eq!(next, 11);
    assert_eq!(p.routing_header.hops, vec![1, 11, 12, 3]);
    assert_eq!(p.fragment_index(), 1);
}

#[test]
fn fragments_are_collected_until_complete() {
    let mut c = ClientCore::new(1);
    let bytes: Vec<u8> = (0..200u32).map(|i| i as u8).collect();
    let frags = fragment_message(&bytes);
    assert!(c.collect_fragment(7, 3, frags[1], true).is_none());
    assert!(c.collect_fragment(7, 4, frags[0], true).is_none());
    let done = c.collect_fragment(7, 3, frags[0], true);
    assert_eq!(done, Some(bytes));
    assert!(c.incoming_fragments.get(&make_pending_key(7, 3)).is_none());
    assert!(c.incoming_fragments.get(&make_pending_key(7, 4)).is_some());
}

#[test]
fn pending_keys_tell_sessions_and_sources_apart() {
    assert_eq!(make_pending_key(1, 2), 258);
    assert_ne!(make_pending_key(1, 2), make_pending_key(2, 1));
    assert_ne!(make_pending_key(0, 255), make_pending_key(1, 0));
}

#[test]
fn server_types_are_recorded_once() {
    let mut c = ClientCore::new(1);
    c.note_chat_server(3, ServerType::CommunicationServer);
    c.note_chat_server(3, ServerType::CommunicationServer);
    c.note_chat_server(4, ServerType::TextServer);
    assert_eq!(c.chat_servers, vec![3]);
}

#[test]
fn a_destination_known_as_a_client_cannot_be_traced_back() {
    let mut c = ClientCore::new(1);
    c.handle_flood_response(
        response(vec![(1, NodeKind::Client), (10, NodeKind::Drone), (3, NodeKind::Client)]),
        &vec![10],
        false,
    );
    assert_eq!(c.clients, vec![1, 3]);
    assert_eq!(c.find_best_route(3, &uniform_costs()), Err(RouteError::Unreconstructible));
}

#[test]
fn a_known_server_without_a_route_is_unroutable() {
    let mut c = learnt_client();
    let probe = || Packet::new_ack(SourceRoutingHeader::new(vec![1, 10], 0), 0, 0);
    assert!(c.send_packet(10, probe(), &vec![]).is_none());
    assert!(c.send_packet(11, probe(), &vec![]).is_none());
    let frags = fragment_message(&vec![1u8; 10]);
    assert_eq!(
        c.begin_request(3, frags, &uniform_costs()).err(),
        Some(RequestError::Unroutable(RouteError::NoRoute))
    );
    assert_eq!(c.session_id_packet, 1);
}

#[test]
fn a_new_drop_rate_resets_what_the_client_knows_of_a_drone() {
    let mut c = learnt_client();
    let nack = Packet::new_nack(
        SourceRoutingHeader::new(vec![10, 1], 0),
        0,
        Nack { fragment_index: 0, nack_type: NackType::Dropped },
    );
    c.handle_nack(&nack, &uniform_costs());
    assert_eq!(c.node_data.get(&10), Some(&NodeData { forwarded: 0, dropped: 1 }));
    c.reset_data(10);
    assert_eq!(c.node_data.get(&10), Some(&NodeData::new()));
    c.reset_data(99);
    assert!(c.node_data.get(&99).is_none());
}

#[test]
fn content_kinds_have_names() {
    assert_eq!(ContentType::FileList(3).describe(), "Fragment of a File List packet");
    assert_eq!(ContentType::SavedText(1).describe(), "Fragment of a SavedText packet");
}

#[test]
fn another_known_client_does_not_block_the_route() {
    let mut c = learnt_client();
    let neighbours = vec![10, 11];
    c.handle_flood_response(
        response(vec![(1, NodeKind::Client), (10, NodeKind::Drone), (2, NodeKind::Client)]),
        &neighbours,
        false,
    );
    assert_eq!(c.clients, vec![1, 2]);
    assert_eq!(c.find_best_route(3, &uniform_costs()), Ok(vec![1, 10, 3]));
    let frags = fragment_message(&vec![1u8; 10]);
    let (route, packets) = c.begin_request(3, frags, &uniform_costs()).unwrap();
    assert_eq!(route, vec![1, 10, 3]);
    assert_eq!(packets.len(), 1);
}
