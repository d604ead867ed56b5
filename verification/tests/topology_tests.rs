use rolling_drones::topology::{
    build_adjacency_list, has_path, validate_chat_connectivity, validate_duplex_connections,
    validate_web_media_connectivity, would_break_connectivity, NodeConfig, NodeType, TopologyIssue,
};

fn node(t: NodeType, id: u8, links: Vec<u8>) -> NodeConfig {
    NodeConfig::new(t, id, links)
}

/// Two chat clients and a chat server around a ring of drones 10, 11.
fn chat_network() -> Vec<NodeConfig> {
    vec![
        node(NodeType::Drone, 10, vec![11, 1, 3]),
        node(NodeType::Drone, 11, vec![10, 2]),
        node(NodeType::ChatClient, 1, vec![10]),
        node(NodeType::ChatClient, 2, vec![11]),
        node(NodeType::ChatServer, 3, vec![10]),
    ]
}

#[test]
fn paths_go_through_drones_only() {
    let nodes = vec![
        node(NodeType::ChatClient, 1, vec![2]),
        node(NodeType::ChatClient, 2, vec![1, 10]),
        node(NodeType::Drone, 10, vec![2, 3]),
        node(NodeType::ChatServer, 3, vec![10]),
    ];
    let graph = build_adjacency_list(&nodes);
    assert!(has_path(&graph, &nodes, 2, 3));
    assert!(has_path(&graph, &nodes, 1, 2));
    assert!(!has_path(&graph, &nodes, 1, 3));
    assert!(has_path(&graph, &nodes, 3, 3));
}

#[test]
fn chat_network_is_valid() {
    let nodes = chat_network();
    assert_eq!(validate_chat_connectivity(&nodes), Ok(()));
    assert_eq!(validate_web_media_connectivity(&nodes), Ok(()));
    assert_eq!(validate_duplex_connections(&nodes), Ok(()));
    assert_eq!(would_break_connectivity(&nodes), Ok(()));
}

#[test]
fn isolated_chat_client_is_reported() {
    let mut nodes = chat_network();
    nodes.push(node(NodeType::ChatClient, 4, vec![]));
    assert_eq!(validate_chat_connectivity(&nodes), Err(TopologyIssue::ClientWithoutServer(4)));
    assert_eq!(would_break_connectivity(&nodes), Err(TopologyIssue::ClientWithoutServer(4)));
}

#[test]
fn chat_server_with_one_client_is_reported() {
    let nodes = vec![
        node(NodeType::Drone, 10, vec![1, 3]),
        node(NodeType::ChatClient, 1, vec![10]),
        node(NodeType::ChatServer, 3, vec![10]),
    ];
    assert_eq!(validate_chat_connectivity(&nodes), Err(TopologyIssue::ServerWithFewClients(3, 1)));
}

#[test]
fn web_rules_are_checked() {
    let nodes = vec![
        node(NodeType::Drone, 10, vec![5, 6, 7]),
        node(NodeType::WebBrowser, 5, vec![10]),
        node(NodeType::TextServer, 6, vec![10]),
        node(NodeType::MediaServer, 7, vec![10]),
    ];
    assert_eq!(validate_web_media_connectivity(&nodes), Ok(()));
    let cut = vec![
        node(NodeType::Drone, 10, vec![5, 6]),
        node(NodeType::WebBrowser, 5, vec![10]),
        node(NodeType::TextServer, 6, vec![10]),
        node(NodeType::MediaServer, 7, vec![]),
    ];
    assert_eq!(validate_web_media_connectivity(&cut), Err(TopologyIssue::BrowserCannotReachMedia(5, 7)));
    let no_text_path = vec![
        node(NodeType::Drone, 10, vec![5, 7]),
        node(NodeType::WebBrowser, 5, vec![10]),
        node(NodeType::TextServer, 6, vec![]),
        node(NodeType::MediaServer, 7, vec![10]),
    ];
    assert_eq!(
        validate_web_media_connectivity(&no_text_path),
        Err(TopologyIssue::BrowserCannotReachText(5, 6))
    );
}

#[test]
fn one_sided_connections_are_reported() {
    let nodes = vec![
        node(NodeType::Drone, 10, vec![11]),
        node(NodeType::Drone, 11, vec![]),
    ];
    assert_eq!(validate_duplex_connections(&nodes), Err(TopologyIssue::MissingConnection(11, 10)));
    let unknown = vec![node(NodeType::Drone, 10, vec![42])];
    assert_eq!(validate_duplex_connections(&unknown), Err(TopologyIssue::MissingConnection(10, 42)));
}

#[test]
fn text_servers_must_reach_media_and_each_other() {
    let no_media = vec![
        node(NodeType::Drone, 10, vec![6]),
        node(NodeType::TextServer, 6, vec![10]),
        node(NodeType::MediaServer, 7, vec![]),
    ];
    assert_eq!(validate_web_media_connectivity(&no_media), Err(TopologyIssue::TextCannotReachMedia(6, 7)));
    let apart = vec![
        node(NodeType::Drone, 10, vec![6]),
        node(NodeType::TextServer, 6, vec![10]),
        node(NodeType::TextServer, 8, vec![]),
    ];
    assert_eq!(validate_web_media_connectivity(&apart), Err(TopologyIssue::TextCannotReachText(6, 8)));
}
