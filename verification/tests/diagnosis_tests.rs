use rolling_drones::diagnosis::{connection_diagnosis, dropped_in_session, last_session, lost_in_session, split_message_log};
use rolling_drones::topology::{NodeConfig, NodeType};

fn nodes() -> Vec<NodeConfig> {
    vec![
        NodeConfig::new(NodeType::ChatClient, 1, vec![10]),
        NodeConfig::new(NodeType::Drone, 10, vec![1, 11, 12]),
        NodeConfig::new(NodeType::Drone, 11, vec![10, 2]),
        NodeConfig::new(NodeType::Drone, 12, vec![10]),
        NodeConfig::new(NodeType::ChatServer, 2, vec![11]),
    ]
}

fn sorted(mut v: Vec<(u8, u8)>) -> Vec<(u8, u8)> {
    v.sort();
    v
}

#[test]
fn a_complete_search_misses_nothing() {
    let found = vec![(10, 1), (11, 10), (2, 11), (12, 10)];
    let seen = vec![1, 10, 11, 12, 2];
    let (missed, incorrect) = connection_diagnosis(&found, &seen, &nodes());
    assert!(missed.is_empty());
    assert!(incorrect.is_empty());
}

#[test]
fn missed_and_incorrect_links_are_told_apart() {
    // The search saw nodes 1, 10, 11 and 2, found 1-10 twice (both ways),
    // found a 1-2 link that is not configured, and missed 10-11 and 11-2.
    let found = vec![(1, 10), (10, 1), (2, 1)];
    let seen = vec![1, 10, 11, 2];
    let (missed, incorrect) = connection_diagnosis(&found, &seen, &nodes());
    assert_eq!(sorted(missed), vec![(2, 11), (10, 11)]);
    assert_eq!(incorrect, vec![(1, 2)]);
}

#[test]
fn links_to_unseen_nodes_are_not_counted_as_missed() {
    // Node 12 was not seen, so its link to 10 is not expected.
    let found = vec![(1, 10)];
    let seen = vec![1, 10];
    let (missed, incorrect) = connection_diagnosis(&found, &seen, &nodes());
    assert!(missed.is_empty());
    assert!(incorrect.is_empty());
}

#[test]
fn the_last_session_is_the_largest_of_the_node() {
    let log = vec![(1, 3), (2, 9), (1, 7), (1, 5)];
    assert_eq!(last_session(&log, 1), Some(7));
    assert_eq!(last_session(&log, 2), Some(9));
    assert_eq!(last_session(&log, 4), None);
}

#[test]
fn dropped_fragments_of_one_session() {
    let lost = vec![((10, 7), vec![0, 3]), ((11, 8), vec![1]), ((12, 7), vec![2])];
    assert_eq!(dropped_in_session(&lost, 7), vec![(0, 10), (3, 10), (2, 12)]);
    assert!(dropped_in_session(&lost, 9).is_empty());
}

#[test]
fn lost_entries_of_one_session_keep_log_order() {
    let lost: Vec<((u8, u64), Vec<u64>)> = vec![((10, 7), vec![0]), ((11, 8), vec![1, 2]), ((12, 7), vec![])];
    assert_eq!(lost_in_session(&lost, 7), vec![(10, vec![0]), (12, vec![])]);
    assert_eq!(lost_in_session(&lost, 8), vec![(11, vec![1, 2])]);
    assert!(lost_in_session(&lost, 3).is_empty());
}

#[test]
fn the_message_log_splits_into_clients_and_others() {
    let entries = vec![
        (1, "from client 1\n".to_string()),
        (2, "from server 2\n".to_string()),
        (77, "from nobody\n".to_string()),
        (1, "again 1\n".to_string()),
        (10, "from drone 10\n".to_string()),
    ];
    let (clients, others) = split_message_log(&entries, &nodes());
    assert_eq!(clients, "from client 1\nagain 1\n");
    assert_eq!(others, "from server 2\nfrom drone 10\n");
}
