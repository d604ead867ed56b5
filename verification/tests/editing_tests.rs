use rolling_drones::editing::{
    apply_connection_update, can_connect, check_crash, check_disconnect, crash_drone, disconnect_nodes, find_node,
    process_connection_updates, simulate_crash, simulate_disconnect, simulate_network_change, ConnectionUpdate,
    ConnectionUpdateQueue, NetworkChange,
};
use rolling_drones::topology::{NodeConfig, NodeType, TopologyIssue};

fn node(t: NodeType, id: u8, links: Vec<u8>) -> NodeConfig {
    NodeConfig::new(t, id, links)
}

/// Clients 1 and 2 and chat server 3, joined by drones 10 and 11 (each
/// linked to all three) and drone 12 (linked to 10 only).
fn network() -> Vec<NodeConfig> {
    vec![
        node(NodeType::Drone, 10, vec![1, 2, 3, 12]),
        node(NodeType::Drone, 11, vec![1, 2, 3]),
        node(NodeType::Drone, 12, vec![10]),
        node(NodeType::ChatClient, 1, vec![10, 11]),
        node(NodeType::ChatClient, 2, vec![10, 11]),
        node(NodeType::ChatServer, 3, vec![10, 11]),
    ]
}

fn links_of(nodes: &[NodeConfig], id: u8) -> Vec<u8> {
    nodes.iter().find(|n| n.id == id).map(|n| n.connected_node_ids.clone()).unwrap()
}

#[test]
fn a_crash_removes_the_node_and_its_links() {
    let s = simulate_crash(&network(), 10);
    assert_eq!(s.len(), 5);
    assert!(find_node(&s, 10).is_none());
    assert_eq!(links_of(&s, 1), vec![11]);
    assert_eq!(links_of(&s, 12), Vec::<u8>::new());
    let same = simulate_network_change(&network(), NetworkChange::RemoveNode(10));
    assert_eq!(same.len(), 5);
}

#[test]
fn a_disconnect_cuts_both_ends() {
    let s = simulate_disconnect(&network(), 10, 3);
    assert_eq!(links_of(&s, 10), vec![1, 2, 12]);
    assert_eq!(links_of(&s, 3), vec![11]);
    assert_eq!(links_of(&s, 11), vec![1, 2, 3]);
}

#[test]
fn crashes_that_keep_the_rules_are_allowed() {
    assert_eq!(check_crash(&network(), 10), Ok(()));
    assert_eq!(check_crash(&network(), 12), Ok(()));
    let mut nodes = network();
    let mut queue = ConnectionUpdateQueue::default();
    assert_eq!(crash_drone(&mut nodes, &mut queue, 10), Ok(()));
    assert_eq!(nodes.len(), 5);
    assert_eq!(find_node(&nodes, 10), None);
    process_connection_updates(&mut queue, &mut nodes);
    assert_eq!(links_of(&nodes, 1), vec![11]);
    assert_eq!(links_of(&nodes, 12), Vec::<u8>::new());
}

#[test]
fn crashes_that_break_the_rules_are_refused() {
    let mut nodes = network();
    let mut queue = ConnectionUpdateQueue::default();
    crash_drone(&mut nodes, &mut queue, 10).unwrap();
    process_connection_updates(&mut queue, &mut nodes);
    let before = nodes.len();
    assert_eq!(crash_drone(&mut nodes, &mut queue, 11), Err(TopologyIssue::ClientWithoutServer(1)));
    assert_eq!(nodes.len(), before);
    assert_eq!(find_node(&nodes, 11), Some(0));
}

#[test]
fn disconnects_are_checked() {
    let nodes = network();
    let mut queue = ConnectionUpdateQueue::default();
    assert_eq!(check_disconnect(&nodes, 1, 10), Ok(()));
    assert_eq!(disconnect_nodes(&nodes, &mut queue, 1, 10), Ok(()));
    let mut lonely = network();
    let mut q2 = ConnectionUpdateQueue::default();
    disconnect_nodes(&lonely, &mut q2, 1, 10).unwrap();
    process_connection_updates(&mut q2, &mut lonely);
    assert_eq!(links_of(&lonely, 1), vec![11]);
    assert_eq!(disconnect_nodes(&lonely, &mut q2, 1, 11), Err(TopologyIssue::ClientWithoutServer(1)));
}

#[test]
fn adding_then_removing_a_connection_restores_the_links() {
    let mut nodes = network();
    let mut queue = ConnectionUpdateQueue::default();
    queue.add_connection(12, 11);
    process_connection_updates(&mut queue, &mut nodes);
    assert_eq!(links_of(&nodes, 12), vec![10, 11]);
    assert_eq!(links_of(&nodes, 11), vec![1, 2, 3, 12]);
    queue.add_connection(12, 11);
    queue.remove_connection(12, 11);
    process_connection_updates(&mut queue, &mut nodes);
    assert_eq!(links_of(&nodes, 12), vec![10]);
    assert_eq!(links_of(&nodes, 11), vec![1, 2, 3]);
}

#[test]
fn removing_all_connections_isolates_a_node() {
    let mut nodes = network();
    apply_connection_update(&mut nodes, ConnectionUpdate::RemoveAllForNode { node: 3 });
    assert_eq!(links_of(&nodes, 3), Vec::<u8>::new());
    assert_eq!(links_of(&nodes, 10), vec![1, 2, 12]);
    assert_eq!(links_of(&nodes, 11), vec![1, 2]);
}

#[test]
fn connections_need_a_drone() {
    let d = node(NodeType::Drone, 10, vec![]);
    let c = node(NodeType::ChatClient, 1, vec![]);
    let s = node(NodeType::ChatServer, 3, vec![]);
    assert!(can_connect(&d, &c));
    assert!(can_connect(&s, &d));
    assert!(!can_connect(&c, &s));
    assert!(!can_connect(&d, &d));
}
