use std::collections::HashMap;

use rolling_drones::common::ClientType;
use rolling_drones::network::{
    butterfly_layers, butterfly_nodes, calculate_complete_levels, client_kind, convert_to_config, create_neighbours_map, drone_brand, rustafarian_ids,
    server_role, server_role_max, ClientConfig, DroneBrand, DroneConfig, NetworkConfig, NodeCategory, ServerConfig,
    ServerRole,
};
use rolling_drones::report::SeenClients;
use rolling_drones::topology::NodeType;

fn config() -> NetworkConfig {
    NetworkConfig {
        drone: vec![
            DroneConfig { id: 10, connected_node_ids: vec![11, 1] },
            DroneConfig { id: 11, connected_node_ids: vec![10, 2] },
            DroneConfig { id: 12, connected_node_ids: vec![] },
            DroneConfig { id: 13, connected_node_ids: vec![] },
        ],
        client: vec![ClientConfig { id: 1, connected_drone_ids: vec![10] }],
        server: vec![ServerConfig { id: 2, connected_drone_ids: vec![11] }],
    }
}

#[test]
fn drone_brands_repeat_every_ten() {
    assert_eq!(drone_brand(0), DroneBrand::BagelBomber);
    assert_eq!(drone_brand(3), DroneBrand::Rustafarian);
    assert_eq!(drone_brand(9), DroneBrand::KrustyClub);
    assert_eq!(drone_brand(13), drone_brand(3));
    assert_eq!(drone_brand(20), DroneBrand::BagelBomber);
}

#[test]
fn rustafarian_drones_are_the_fourth_of_every_ten() {
    assert_eq!(rustafarian_ids(&config()), vec![13]);
}

#[test]
fn server_roles_follow_the_counts() {
    assert_eq!(server_role(1, 1, 0), ServerRole::Text(1));
    assert_eq!(server_role(2, 2, 1), ServerRole::Chat);
    assert_eq!(server_role(3, 2, 0), ServerRole::Chat);
    assert_eq!(server_role(3, 2, 1), ServerRole::Text(1));
    assert_eq!(server_role(1, 3, 0), ServerRole::Media(2));
    assert_eq!(server_role(1, 3, 1), ServerRole::Text(1));
    assert_eq!(server_role(1, 3, 2), ServerRole::Media(1));
    assert_eq!(server_role(4, 5, 4), ServerRole::Media(2));
    assert_eq!(server_role(4, 2, 1), ServerRole::Chat);
}

#[test]
fn combined_server_roles_follow_the_counts() {
    assert_eq!(server_role_max(1, 1, 0), ServerRole::Text(1));
    assert_eq!(server_role_max(1, 3, 0), ServerRole::Text(2));
    assert_eq!(server_role_max(1, 3, 1), ServerRole::Text(1));
    assert_eq!(server_role_max(4, 4, 0), ServerRole::Chat);
    assert_eq!(server_role_max(4, 4, 3), ServerRole::Text(2));
}

#[test]
fn client_kinds_follow_the_counts() {
    assert_eq!(client_kind(1, 3, 0), ClientType::WebBrowser);
    assert_eq!(client_kind(2, 1, 1), ClientType::ChatClient);
    assert_eq!(client_kind(3, 2, 2), ClientType::WebBrowser);
    assert_eq!(client_kind(3, 2, 0), ClientType::ChatClient);
}

#[test]
fn neighbours_of_the_drones() {
    let m = create_neighbours_map(&config());
    assert_eq!(m.get(&10), Some(&vec![11, 1]));
    assert_eq!(m.get(&12), Some(&vec![]));
    assert!(m.get(&1).is_none());
}

#[test]
fn configuration_as_nodes() {
    let mut categories = HashMap::new();
    categories.insert(1u8, NodeCategory::Client(NodeType::ChatClient));
    categories.insert(2u8, NodeCategory::Server(NodeType::ChatServer));
    let nodes = convert_to_config(&config(), &categories);
    assert_eq!(nodes.len(), 6);
    assert_eq!(nodes[0].node_type, NodeType::Drone);
    assert_eq!(nodes[4].id, 1);
    assert_eq!(nodes[4].node_type, NodeType::ChatClient);
    assert_eq!(nodes[5].node_type, NodeType::ChatServer);
    assert_eq!(nodes[5].connected_node_ids, vec![11]);
    let none = convert_to_config(&config(), &HashMap::new());
    assert_eq!(none.len(), 4);
}

#[test]
fn tree_levels_hold_the_nodes() {
    assert_eq!(calculate_complete_levels(0), 0);
    assert_eq!(calculate_complete_levels(1), 1);
    assert_eq!(calculate_complete_levels(3), 2);
    assert_eq!(calculate_complete_levels(4), 3);
    assert_eq!(calculate_complete_levels(7), 3);
    assert_eq!(calculate_complete_levels(8), 4);
}

#[test]
fn butterfly_layers_from_the_bottom() {
    assert!(butterfly_layers(0).is_empty());
    assert_eq!(butterfly_layers(1), vec![1]);
    assert_eq!(butterfly_layers(2), vec![2]);
    assert_eq!(butterfly_layers(7), vec![2, 1, 4]);
    assert_eq!(butterfly_layers(10), vec![2, 4, 4]);
}

#[test]
fn butterfly_nodes_are_drones_then_seen_clients_then_seen_servers() {
    let mut seen = SeenClients::default();
    seen.clients.push((NodeType::ChatClient, 1));
    seen.servers.push((NodeType::ChatServer, 2));
    seen.servers.push((NodeType::TextServer, 99));
    let nodes = butterfly_nodes(&config(), &seen);
    let ids: Vec<u8> = nodes.iter().map(|n| n.id).collect();
    assert_eq!(ids, vec![10, 11, 12, 13, 1, 2]);
    assert_eq!(nodes[4].node_type, NodeType::ChatClient);
    assert_eq!(nodes[4].connected_node_ids, vec![10]);
    assert_eq!(nodes[5].node_type, NodeType::ChatServer);
    assert_eq!(nodes[5].connected_node_ids, vec![11]);
    assert_eq!(nodes[0].node_type, NodeType::Drone);
    assert_eq!(nodes[0].connected_node_ids, vec![11, 1]);
    assert_eq!(butterfly_layers(nodes.len()), vec![2, 4]);
}

#[test]
fn unseen_clients_and_servers_stay_out_of_the_butterfly() {
    let seen = SeenClients::default();
    let nodes = butterfly_nodes(&config(), &seen);
    assert_eq!(nodes.len(), 4);
    assert!(nodes.iter().all(|n| n.node_type == NodeType::Drone));
}

#[test]
fn complete_levels_for_the_largest_counts() {
    assert_eq!(calculate_complete_levels(7), 3);
    assert_eq!(calculate_complete_levels(8), 4);
    assert_eq!(calculate_complete_levels(usize::MAX), usize::BITS as usize);
    assert_eq!(calculate_complete_levels(usize::MAX / 2 + 1), usize::BITS as usize);
    assert_eq!(calculate_complete_levels(usize::MAX / 2), usize::BITS as usize - 1);
}
