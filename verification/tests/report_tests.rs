use rolling_drones::network::NodeCategory;
use rolling_drones::report::{
    evaluate_state, set_node_types, sync_before_setup, sync_topology_error, AppState, ErrorConfig, SeenClients, ThreadInfo,
    TopologyError,
};
use rolling_drones::topology::{NodeConfig, NodeType, TopologyIssue};

#[test]
fn issues_read_as_messages() {
    assert_eq!(TopologyIssue::ClientWithoutServer(4).message(), "ChatClient 4 cannot reach any ChatServer");
    assert_eq!(
        TopologyIssue::ServerWithFewClients(3, 1).message(),
        "ChatServer 3 must be able to reach at least 2 different ChatClients through drones, but can only reach 1"
    );
    assert_eq!(TopologyIssue::BrowserCannotReachText(5, 6).message(), "WebBrowser 5 cannot reach TextServer 6");
    assert_eq!(TopologyIssue::BrowserCannotReachMedia(5, 7).message(), "WebBrowser 5 cannot reach MediaServer 7 ");
    assert_eq!(TopologyIssue::TextCannotReachMedia(6, 7).message(), "TextServer 6 cannot reach MediaServer 7 ");
    assert_eq!(TopologyIssue::TextCannotReachText(6, 8).message(), "TextServer 6 cannot reach Text/MediaServer 8");
    assert_eq!(TopologyIssue::MissingConnection(11, 100).message(), "Missing connection between 11-100");
}

#[test]
fn no_report_yet() {
    let r = TopologyError::default();
    assert!(!r.is_updated);
    assert_eq!(r.connection_error, (false, Ok(())));
    let c = ErrorConfig::default();
    assert!(!c.updated && !c.detected);
    assert_eq!(evaluate_state(&c), None);
}

#[test]
fn a_clean_configuration_moves_on() {
    let nodes = vec![NodeConfig::new(NodeType::Drone, 10, vec![])];
    let mut report = TopologyError::from_checks(&nodes, Ok(()), Ok(()));
    assert!(report.is_updated);
    let mut config = ErrorConfig::default();
    sync_topology_error(&mut config, &mut report);
    assert!(!report.is_updated);
    assert!(config.updated);
    assert!(!config.detected);
    assert_eq!(config.error_isolated, "");
    assert_eq!(evaluate_state(&config), Some(AppState::InGame));
}

#[test]
fn a_broken_configuration_stays_with_its_messages() {
    let nodes = vec![
        NodeConfig::new(NodeType::Drone, 10, vec![11]),
        NodeConfig::new(NodeType::ChatClient, 1, vec![]),
    ];
    let mut report = TopologyError::from_checks(&nodes, Err("Drone 10 was set with a pdr of 2".to_string()), Ok(()));
    let mut config = ErrorConfig::default();
    sync_topology_error(&mut config, &mut report);
    assert!(!config.updated);
    assert!(config.detected);
    assert_eq!(config.error_isolated, "ChatClient 1 cannot reach any ChatServer");
    assert_eq!(config.error_connection, "Missing connection between 10-11");
    assert_eq!(config.error_pdr, "Drone 10 was set with a pdr of 2");
    assert_eq!(config.error_generic, "");
    assert_eq!(evaluate_state(&config), None);
}

#[test]
fn a_report_is_read_once() {
    let nodes = vec![NodeConfig::new(NodeType::ChatClient, 1, vec![])];
    let mut report = TopologyError::from_checks(&nodes, Ok(()), Ok(()));
    let mut config = ErrorConfig::default();
    sync_topology_error(&mut config, &mut report);
    config.error_isolated = "seen".to_string();
    sync_topology_error(&mut config, &mut report);
    assert_eq!(config.error_isolated, "seen");
}

#[test]
fn started_nodes_reach_the_set_up_screen() {
    let mut state = ThreadInfo::default();
    set_node_types(&mut state, NodeType::Drone, 3, 10);
    assert!(!state.is_updated);
    set_node_types(&mut state, NodeType::ChatClient, 2, 1);
    set_node_types(&mut state, NodeType::WebBrowser, 2, 2);
    set_node_types(&mut state, NodeType::TextServer, 1, 3);
    assert!(state.is_updated);
    assert_eq!(state.n_clients, 2);
    assert_eq!(state.client_types, vec![(NodeType::ChatClient, 1), (NodeType::WebBrowser, 2)]);
    assert_eq!(state.server_types, vec![(NodeType::TextServer, 3)]);
    state.nodes.insert(3, NodeCategory::Server(NodeType::TextServer));
    state.ready_setup = true;

    let mut seen = SeenClients::default();
    seen.servers.push((NodeType::ChatServer, 9));
    sync_before_setup(&mut seen, &mut state);
    assert!(!state.is_updated);
    assert_eq!(seen.clients, state.client_types);
    assert_eq!(seen.clients_len, 2);
    assert_eq!(seen.servers, vec![(NodeType::ChatServer, 9), (NodeType::TextServer, 3)]);
    assert_eq!(seen.servers_len, 1);
    assert!(seen.ready_setup);
    assert_eq!(seen.nodes.get(&3), Some(&NodeCategory::Server(NodeType::TextServer)));

    sync_before_setup(&mut seen, &mut state);
    assert_eq!(seen.clients_len, 2);
}
