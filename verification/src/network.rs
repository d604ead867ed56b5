use vstd::prelude::*;
use std::collections::HashMap;
use crate::common::ClientType;
use crate::packet::NodeId;
use crate::topology::{NodeConfig, NodeType};
use crate::report::SeenClients;

verus! {

broadcast use vstd::std_specs::hash::group_hash_axioms;

/// A drone of a network configuration (its drop rate stays with the runtime).
#[derive(Debug)]
pub struct DroneConfig {
    pub id: NodeId,
    pub connected_node_ids: Vec<NodeId>,
}

/// A client of a network configuration.
#[derive(Debug)]
pub struct ClientConfig {
    pub id: NodeId,
    pub connected_drone_ids: Vec<NodeId>,
}

/// A server of a network configuration.
#[derive(Debug)]
pub struct ServerConfig {
    pub id: NodeId,
    pub connected_drone_ids: Vec<NodeId>,
}

/// A network configuration: its drones, clients and servers.
#[derive(Debug)]
pub struct NetworkConfig {
    pub drone: Vec<DroneConfig>,
    pub client: Vec<ClientConfig>,
    pub server: Vec<ServerConfig>,
}

/// Whether a node is a client or a server, and of which kind.
#[derive(Clone, Copy, Debug, PartialEq, Eq, Structural)]
pub enum NodeCategory {
    Client(NodeType),
    Server(NodeType),
}

/// The drone implementations a simulation cycles through.
#[derive(Clone, Copy, Debug, PartialEq, Eq, Structural)]
pub enum DroneBrand {
    BagelBomber,
    SkyLink,
    Fungi,
    Rustafarian,
    Rusteze,
    LockheedRustin,
    RustDrone,
    RustBusters,
    LeDron,
    KrustyClub,
}

/// The brand of the `i`-th drone of a configuration: brands repeat every ten drones.
pub open spec fn brand_for(i: nat) -> DroneBrand {
    let k = i % 10;
    if k == 0 {
        DroneBrand::BagelBomber
    } else if k == 1 {
        DroneBrand::SkyLink
    } else if k == 2 {
        DroneBrand::Fungi
    } else if k == 3 {
        DroneBrand::Rustafarian
    } else if k == 4 {
        DroneBrand::Rusteze
    } else if k == 5 {
        DroneBrand::LockheedRustin
    } else if k == 6 {
        DroneBrand::RustDrone
    } else if k == 7 {
        DroneBrand::RustBusters
    } else if k == 8 {
        DroneBrand::LeDron
    } else {
        DroneBrand::KrustyClub
    }
}

/// Drone brands repeat every ten drones.
pub proof fn lemma_brand_cycle(i: nat)
    ensures
        brand_for(i + 10) == brand_for(i),
{
    assert((i + 10) % 10 == i % 10);
}

/// The brand of the `i`-th drone of a configuration.
pub fn drone_brand(i: usize) -> (b: DroneBrand)
    ensures
        b == brand_for(i as nat),
{
    let k = i % 10;
    if k == 0 {
        DroneBrand::BagelBomber
    } else if k == 1 {
        DroneBrand::SkyLink
    } else if k == 2 {
        DroneBrand::Fungi
    } else if k == 3 {
        DroneBrand::Rustafarian
    } else if k == 4 {
        DroneBrand::Rusteze
    } else if k == 5 {
        DroneBrand::LockheedRustin
    } else if k == 6 {
        DroneBrand::RustDrone
    } else if k == 7 {
        DroneBrand::RustBusters
    } else if k == 8 {
        DroneBrand::LeDron
    } else {
        DroneBrand::KrustyClub
    }
}

/// The ids of the Rustafarian drones: those at positions 3, 13, 23, ...
pub fn rustafarian_ids(config: &NetworkConfig) -> (ids: Vec<NodeId>)
    ensures
        ids@ == rustafarian_prefix(config.drone@, config.drone@.len() as int),
{
    let mut ids: Vec<NodeId> = Vec::new();
    let mut i: usize = 0;
    while i < config.drone.len()
        invariant
            i <= config.drone@.len(),
            ids@ == rustafarian_prefix(config.drone@, i as int),
        decreases config.drone@.len() - i,
    {
        if i % 10 == 3 {
            ids.push(config.drone[i].id);
        }
        i = i + 1;
    }
    ids
}

/// The ids of the Rustafarian drones among the first `n` drones.
pub open spec fn rustafarian_prefix(drones: Seq<DroneConfig>, n: int) -> Seq<NodeId>
    decreases n,
{
    if n <= 0 {
        Seq::empty()
    } else {
        let rest = rustafarian_prefix(drones, n - 1);
        if (n - 1) % 10 == 3 {
            rest.push(drones[n - 1].id)
        } else {
            rest
        }
    }
}

/// What the `i`-th server of a configuration runs as.
#[derive(Clone, Copy, Debug, PartialEq, Eq, Structural)]
pub enum ServerRole {
    Chat,
    /// A text server reading the list of texts with the given number.
    Text(u8),
    /// A media server reading the list of media with the given number (1 or 2).
    Media(u8),
}

/// The role of the `i`-th of `n_servers` servers, with `n_clients` clients:
/// one client and one server make a text server; two or three clients with
/// one server, or two with two, make chat servers; three clients and two
/// servers a chat server then a text server; one client and three servers a
/// media, a text and a media server; otherwise, with three or more servers,
/// a chat, a text, and then media servers, and with fewer, chat servers.
pub open spec fn role_for(n_clients: nat, n_servers: nat, i: nat) -> ServerRole {
    if n_clients == 1 && n_servers == 1 {
        ServerRole::Text(1)
    } else if (n_clients == 2 && n_servers == 1) || (n_clients == 2 && n_servers == 2) || (n_clients == 3
        && n_servers == 1) {
        ServerRole::Chat
    } else if n_clients == 3 && n_servers == 2 {
        if i == 0 {
            ServerRole::Chat
        } else {
            ServerRole::Text(1)
        }
    } else if n_clients == 1 && n_servers == 3 {
        if i == 0 {
            ServerRole::Media(2)
        } else if i == 1 {
            ServerRole::Text(1)
        } else {
            ServerRole::Media(1)
        }
    } else if n_servers >= 3 {
        if i == 0 {
            ServerRole::Chat
        } else if i == 1 {
            ServerRole::Text(1)
        } else if i == 2 {
            ServerRole::Media(1)
        } else {
            ServerRole::Media(2)
        }
    } else {
        ServerRole::Chat
    }
}

/// Wherever a configuration has a chat client, its first server is a chat
/// server (with or without the combined text-and-media servers): two or more
/// clients always make the first server a chat server, whatever the number
/// of servers.
pub proof fn lemma_chat_clients_get_a_chat_server(n_clients: nat, n_servers: nat, j: nat)
    requires
        j < n_clients,
        client_kind_for(n_clients, n_servers, j) == ClientType::ChatClient,
    ensures
        n_clients >= 2,
        role_for(n_clients, n_servers, 0) == ServerRole::Chat,
        max_role_for(n_clients, n_servers, 0) == ServerRole::Chat,
{
}

/// A single server serves chat for two or more clients, and texts (list 1)
/// for a single client.
pub proof fn lemma_single_server_role(n_clients: nat)
    ensures
        n_clients >= 2 ==> role_for(n_clients, 1, 0) == ServerRole::Chat && max_role_for(n_clients, 1, 0) == ServerRole::Chat,
        n_clients == 1 ==> role_for(n_clients, 1, 0) == ServerRole::Text(1) && max_role_for(n_clients, 1, 0)
            == ServerRole::Text(1),
{
}

/// With three or more servers, the second reads text list 1 and every later
/// one serves media (or, with the combined servers, reads text list 2).
pub proof fn lemma_many_servers_roles(n_clients: nat, n_servers: nat, i: nat)
    requires
        n_servers >= 3,
        1 <= i < n_servers,
    ensures
        i == 1 ==> role_for(n_clients, n_servers, i) == ServerRole::Text(1) && max_role_for(n_clients, n_servers, i)
            == ServerRole::Text(1),
        i >= 2 ==> role_for(n_clients, n_servers, i) is Media && max_role_for(n_clients, n_servers, i) == ServerRole::Text(
            2,
        ),
{
}

/// The role of the `i`-th of `n_servers` servers (see `role_for`).
pub fn server_role(n_clients: usize, n_servers: usize, i: usize) -> (role: ServerRole)
    requires
        i < n_servers,
    ensures
        role == role_for(n_clients as nat, n_servers as nat, i as nat),
        n_clients >= 2 && i == 0 ==> role == ServerRole::Chat,
        n_clients == 1 && n_servers == 1 ==> role == ServerRole::Text(1),
        n_servers >= 3 && i == 1 ==> role == ServerRole::Text(1),
        n_servers >= 3 && i >= 2 ==> role is Media,
{
    if n_clients == 1 && n_servers == 1 {
        ServerRole::Text(1)
    } else if (n_clients == 2 && n_servers == 1) || (n_clients == 2 && n_servers == 2) || (n_clients == 3
        && n_servers == 1) {
        ServerRole::Chat
    } else if n_clients == 3 && n_servers == 2 {
        if i == 0 {
            ServerRole::Chat
        } else {
            ServerRole::Text(1)
        }
    } else if n_clients == 1 && n_servers == 3 {
        if i == 0 {
            ServerRole::Media(2)
        } else if i == 1 {
            ServerRole::Text(1)
        } else {
            ServerRole::Media(1)
        }
    } else if n_servers >= 3 {
        if i == 0 {
            ServerRole::Chat
        } else if i == 1 {
            ServerRole::Text(1)
        } else if i == 2 {
            ServerRole::Media(1)
        } else {
            ServerRole::Media(2)
        }
    } else {
        ServerRole::Chat
    }
}

/// The role of the `i`-th of `n_servers` servers when the combined
/// text-and-media servers are used (they read text lists 1 and 2): as in
/// `role_for`, except that one client and three servers make a text server
/// with list 1 second and text servers with list 2 otherwise, and that with
/// three or more servers every server after the first two is a text server
/// with list 2.
pub open spec fn max_role_for(n_clients: nat, n_servers: nat, i: nat) -> ServerRole {
    if n_clients == 1 && n_servers == 1 {
        ServerRole::Text(1)
    } else if (n_clients == 2 && n_servers == 1) || (n_clients == 2 && n_servers == 2) || (n_clients == 3
        && n_servers == 1) {
        ServerRole::Chat
    } else if n_clients == 3 && n_servers == 2 {
        if i == 0 {
            ServerRole::Chat
        } else {
            ServerRole::Text(1)
        }
    } else if n_clients == 1 && n_servers == 3 {
        if i == 1 {
            ServerRole::Text(1)
        } else {
            ServerRole::Text(2)
        }
    } else if n_servers >= 3 {
        if i == 0 {
            ServerRole::Chat
        } else if i == 1 {
            ServerRole::Text(1)
        } else {
            ServerRole::Text(2)
        }
    } else {
        ServerRole::Chat
    }
}

/// The role of the `i`-th of `n_servers` servers with the combined servers
/// (see `max_role_for`).
pub fn server_role_max(n_clients: usize, n_servers: usize, i: usize) -> (role: ServerRole)
    requires
        i < n_servers,
    ensures
        role == max_role_for(n_clients as nat, n_servers as nat, i as nat),
        n_clients >= 2 && i == 0 ==> role == ServerRole::Chat,
        n_clients == 1 && n_servers == 1 ==> role == ServerRole::Text(1),
        n_servers >= 3 && i == 1 ==> role == ServerRole::Text(1),
        n_servers >= 3 && i >= 2 ==> role == ServerRole::Text(2),
{
    if n_clients == 1 && n_servers == 1 {
        ServerRole::Text(1)
    } else if (n_clients == 2 && n_servers == 1) || (n_clients == 2 && n_servers == 2) || (n_clients == 3
        && n_servers == 1) {
        ServerRole::Chat
    } else if n_clients == 3 && n_servers == 2 {
        if i == 0 {
            ServerRole::Chat
        } else {
            ServerRole::Text(1)
        }
    } else if n_clients == 1 && n_servers == 3 {
        if i == 1 {
            ServerRole::Text(1)
        } else {
            ServerRole::Text(2)
        }
    } else if n_servers >= 3 {
        if i == 0 {
            ServerRole::Chat
        } else if i == 1 {
            ServerRole::Text(1)
        } else {
            ServerRole::Text(2)
        }
    } else {
        ServerRole::Chat
    }
}

/// The kind of the `i`-th of `n_clients` clients, with `n_servers` servers:
/// a single client is a web browser; two clients, or three with one server,
/// are chat clients; three with two or three servers are two chat clients and
/// a web browser; otherwise the first two are chat clients and the rest web browsers.
pub open spec fn client_kind_for(n_clients: nat, n_servers: nat, i: nat) -> ClientType {
    if n_clients == 1 {
        ClientType::WebBrowser
    } else if n_clients == 2 || (n_clients == 3 && n_servers == 1) {
        ClientType::ChatClient
    } else if i < 2 {
        ClientType::ChatClient
    } else {
        ClientType::WebBrowser
    }
}

/// The kind of the `i`-th of `n_clients` clients (see `client_kind_for`).
pub fn client_kind(n_clients: usize, n_servers: usize, i: usize) -> (kind: ClientType)
    requires
        i < n_clients,
    ensures
        kind == client_kind_for(n_clients as nat, n_servers as nat, i as nat),
        n_clients == 1 ==> kind == ClientType::WebBrowser,
        n_clients >= 2 && i < 2 ==> kind == ClientType::ChatClient,
{
    if n_clients == 1 {
        ClientType::WebBrowser
    } else if n_clients == 2 || (n_clients == 3 && n_servers == 1) {
        ClientType::ChatClient
    } else if i < 2 {
        ClientType::ChatClient
    } else {
        ClientType::WebBrowser
    }
}

/// The neighbour lists of the drones, by id (a later drone with the same id wins).
pub open spec fn drone_links(drones: Seq<DroneConfig>) -> Map<NodeId, Seq<NodeId>>
    decreases drones.len(),
{
    if drones.len() == 0 {
        Map::empty()
    } else {
        drone_links(drones.drop_last()).insert(drones.last().id, drones.last().connected_node_ids@)
    }
}

/// The neighbour lists of the drones, by id.
pub fn create_neighbours_map(config: &NetworkConfig) -> (m: HashMap<NodeId, Vec<NodeId>>)
    ensures
        crate::topology::graph_view(m@) == drone_links(config.drone@),
{
    let mut m: HashMap<NodeId, Vec<NodeId>> = HashMap::new();
    let mut i: usize = 0;
    while i < config.drone.len()
        invariant
            i <= config.drone@.len(),
            crate::topology::graph_view(m@) == drone_links(config.drone@.subrange(0, i as int)),
        decreases config.drone@.len() - i,
    {
        let d = &config.drone[i];
        m.insert(d.id, crate::packet::copy_ids(&d.connected_node_ids));
        proof {
            assert(config.drone@.subrange(0, i as int + 1).drop_last() =~= config.drone@.subrange(0, i as int));
            assert(crate::topology::graph_view(m@) =~= drone_links(config.drone@.subrange(0, i as int + 1)));
        }
        i = i + 1;
    }
    assert(config.drone@.subrange(0, config.drone@.len() as int) =~= config.drone@);
    m
}

/// The node type a category names.
pub open spec fn category_type(c: NodeCategory) -> NodeType {
    match c {
        NodeCategory::Client(t) => t,
        NodeCategory::Server(t) => t,
    }
}

/// Validation nodes for the first `n` drones.
pub open spec fn drone_nodes(drones: Seq<DroneConfig>, n: int) -> Seq<(NodeType, NodeId, Seq<NodeId>)>
    decreases n,
{
    if n <= 0 {
        Seq::empty()
    } else {
        drone_nodes(drones, n - 1).push((NodeType::Drone, drones[n - 1].id, drones[n - 1].connected_node_ids@))
    }
}

/// Validation nodes for those of the first `n` clients that have a category.
pub open spec fn client_nodes(clients: Seq<ClientConfig>, categories: Map<NodeId, NodeCategory>, n: int) -> Seq<(NodeType, NodeId, Seq<NodeId>)>
    decreases n,
{
    if n <= 0 {
        Seq::empty()
    } else {
        let rest = client_nodes(clients, categories, n - 1);
        let c = clients[n - 1];
        if categories.contains_key(c.id) {
            rest.push((category_type(categories[c.id]), c.id, c.connected_drone_ids@))
        } else {
            rest
        }
    }
}

/// Validation nodes for those of the first `n` servers that have a category.
pub open spec fn server_nodes(servers: Seq<ServerConfig>, categories: Map<NodeId, NodeCategory>, n: int) -> Seq<(NodeType, NodeId, Seq<NodeId>)>
    decreases n,
{
    if n <= 0 {
        Seq::empty()
    } else {
        let rest = server_nodes(servers, categories, n - 1);
        let s = servers[n - 1];
        if categories.contains_key(s.id) {
            rest.push((category_type(categories[s.id]), s.id, s.connected_drone_ids@))
        } else {
            rest
        }
    }
}

/// The nodes of a configuration for validation: every drone, then every
/// client and every server that has a category, typed by it.
pub open spec fn config_nodes(config: NetworkConfig, categories: Map<NodeId, NodeCategory>) -> Seq<(NodeType, NodeId, Seq<NodeId>)> {
    drone_nodes(config.drone@, config.drone@.len() as int) + client_nodes(
        config.client@,
        categories,
        config.client@.len() as int,
    ) + server_nodes(config.server@, categories, config.server@.len() as int)
}

pub open spec fn node_triples(nodes: Seq<NodeConfig>) -> Seq<(NodeType, NodeId, Seq<NodeId>)> {
    nodes.map_values(|n: NodeConfig| (n.node_type, n.id, n.connected_node_ids@))
}

/// The nodes of a configuration, typed for validation (see `config_nodes`).
pub fn convert_to_config(config: &NetworkConfig, categories: &HashMap<NodeId, NodeCategory>) -> (nodes: Vec<NodeConfig>)
    ensures
        node_triples(nodes@) == config_nodes(*config, categories@),
{
    let mut nodes: Vec<NodeConfig> = Vec::new();
    let mut i: usize = 0;
    while i < config.drone.len()
        invariant
            i <= config.drone@.len(),
            node_triples(nodes@) == drone_nodes(config.drone@, i as int),
        decreases config.drone@.len() - i,
    {
        let d = &config.drone[i];
        let ghost before = nodes@;
        nodes.push(NodeConfig::new(NodeType::Drone, d.id, crate::packet::copy_ids(&d.connected_node_ids)));
        assert(node_triples(nodes@) =~= node_triples(before).push((NodeType::Drone, d.id, d.connected_node_ids@)));
        i = i + 1;
    }
    let ghost drones_part = node_triples(nodes@);
    let mut j: usize = 0;
    while j < config.client.len()
        invariant
            j <= config.client@.len(),
            drones_part == drone_nodes(config.drone@, config.drone@.len() as int),
            node_triples(nodes@) == drones_part + client_nodes(config.client@, categories@, j as int),
        decreases config.client@.len() - j,
    {
        let c = &config.client[j];
        let ghost before = nodes@;
        match categories.get(&c.id) {
            Some(cat) => {
                let t = match cat {
                    NodeCategory::Client(t) => *t,
                    NodeCategory::Server(t) => *t,
                };
                nodes.push(NodeConfig::new(t, c.id, crate::packet::copy_ids(&c.connected_drone_ids)));
                assert(node_triples(nodes@) =~= node_triples(before).push((t, c.id, c.connected_drone_ids@)));
            },
            None => {},
        }
        j = j + 1;
        assert(node_triples(nodes@) =~= drones_part + client_nodes(config.client@, categories@, j as int));
    }
    let ghost clients_part = node_triples(nodes@);
    let mut k: usize = 0;
    while k < config.server.len()
        invariant
            k <= config.server@.len(),
            clients_part == drone_nodes(config.drone@, config.drone@.len() as int) + client_nodes(
                config.client@,
                categories@,
                config.client@.len() as int,
            ),
            node_triples(nodes@) == clients_part + server_nodes(config.server@, categories@, k as int),
        decreases config.server@.len() - k,
    {
        let s = &config.server[k];
        let ghost before = nodes@;
        match categories.get(&s.id) {
            Some(cat) => {
                let t = match cat {
                    NodeCategory::Client(t) => *t,
                    NodeCategory::Server(t) => *t,
                };
                nodes.push(NodeConfig::new(t, s.id, crate::packet::copy_ids(&s.connected_drone_ids)));
                assert(node_triples(nodes@) =~= node_triples(before).push((t, s.id, s.connected_drone_ids@)));
            },
            None => {},
        }
        k = k + 1;
        assert(node_triples(nodes@) =~= clients_part + server_nodes(config.server@, categories@, k as int));
    }
    nodes
}

/// The number of complete levels a binary tree needs to hold `n` nodes: the
/// least `l` with `2^l - 1 >= n`.
pub fn calculate_complete_levels(node_count: usize) -> (levels: usize)
    ensures
        vstd::arithmetic::power2::pow2(levels as nat) - 1 >= node_count,
        levels == 0 || vstd::arithmetic::power2::pow2((levels - 1) as nat) - 1 < node_count,
{
    let mut levels: usize = 0;
    let mut total: usize = 0;
    let mut width: usize = 1;
    proof {
        vstd::arithmetic::power2::lemma2_to64();
    }
    while total < node_count
        invariant
            total == vstd::arithmetic::power2::pow2(levels as nat) - 1,
            total < node_count ==> width == vstd::arithmetic::power2::pow2(levels as nat),
            levels == 0 || vstd::arithmetic::power2::pow2((levels - 1) as nat) - 1 < node_count,
            levels <= 64,
        decreases usize::MAX - total,
    {
        proof {
            vstd::arithmetic::power2::lemma_pow2_adds(levels as nat, 1);
            vstd::arithmetic::power2::lemma2_to64();
            lemma_level_fits(levels as nat);
        }
        total = total + width;
        levels = levels + 1;
        if total < node_count {
            width = width * 2;
        }
    }
    levels
}

/// A level of `2^l` nodes that fits below `usize::MAX` leaves room for the
/// next level: `2^(l+1) - 1` fits too, and `l` stays below 64.
proof fn lemma_level_fits(l: nat)
    requires
        vstd::arithmetic::power2::pow2(l) <= usize::MAX,
    ensures
        vstd::arithmetic::power2::pow2(l) * 2 - 1 <= usize::MAX,
        l < 64,
{
    vstd::arithmetic::power2::lemma2_to64();
    vstd::arithmetic::power2::lemma2_to64_rest();
    if usize::MAX == 0xffff_ffffusize {
        if l >= 32 {
            if l > 32 {
                vstd::arithmetic::power2::lemma_pow2_strictly_increases(32, l);
            }
        }
        if l < 31 {
            vstd::arithmetic::power2::lemma_pow2_strictly_increases(l, 31);
        }
    } else {
        if l >= 64 {
            if l > 64 {
                vstd::arithmetic::power2::lemma_pow2_strictly_increases(64, l);
            }
        }
        if l < 63 {
            vstd::arithmetic::power2::lemma_pow2_strictly_increases(l, 63);
        }
    }
}


/// A sequence of sizes as natural numbers.
pub open spec fn as_nats(s: Seq<usize>) -> Seq<nat> {
    s.map_values(|k: usize| k as nat)
}

/// Layers of at most four nodes holding `m` nodes, the fullest first.
pub open spec fn layers_of_four(m: nat) -> Seq<nat>
    decreases m,
{
    if m == 0 {
        Seq::empty()
    } else if m <= 4 {
        seq![m]
    } else {
        seq![4nat] + layers_of_four((m - 4) as nat)
    }
}

/// The layers of the butterfly layout of `n` nodes, from the bottom: two
/// nodes (or the one there is) at the bottom, then the rest in layers of
/// four from the top down, so that a partial layer sits lowest.
pub open spec fn butterfly_plan(n: nat) -> Seq<nat> {
    if n == 0 {
        Seq::empty()
    } else {
        (layers_of_four(if n >= 2 { (n - 2) as nat } else { 0 }).push(if n < 2 { n } else { 2 })).reverse()
    }
}

/// The number of nodes on each layer of the butterfly layout, bottom first.
pub fn butterfly_layers(node_count: usize) -> (layers: Vec<usize>)
    ensures
        as_nats(layers@) == butterfly_plan(node_count as nat),
{
    let mut layers: Vec<usize> = Vec::new();
    if node_count == 0 {
        assert(as_nats(layers@) =~= butterfly_plan(0));
        return layers;
    }
    let upper = if node_count >= 2 { node_count - 2 } else { 0 };
    let mut top_down: Vec<usize> = Vec::new();
    let mut remaining = upper;
    while remaining > 0
        invariant
            remaining <= upper,
            as_nats(top_down@) + layers_of_four(remaining as nat) == layers_of_four(upper as nat),
        decreases remaining,
    {
        let size = if remaining < 4 { remaining } else { 4 };
        let ghost before = as_nats(top_down@);
        proof {
            if remaining > 4 {
                assert(layers_of_four(remaining as nat) == seq![4nat] + layers_of_four((remaining - 4) as nat));
            } else {
                assert(layers_of_four((remaining - size) as nat) == Seq::<nat>::empty());
            }
        }
        top_down.push(size);
        remaining = remaining - size;
        assert(as_nats(top_down@) =~= before.push(size as nat));
        assert(before.push(size as nat) + layers_of_four(remaining as nat) =~= before + layers_of_four((remaining + size) as nat));
    }
    let bottom = if node_count < 2 { node_count } else { 2 };
    top_down.push(bottom);
    let ghost plan = as_nats(top_down@);
    assert(plan =~= layers_of_four(upper as nat).push(bottom as nat));
    let mut i: usize = top_down.len();
    while i > 0
        invariant
            i <= top_down@.len(),
            plan == as_nats(top_down@),
            as_nats(layers@) == plan.subrange(i as int, plan.len() as int).reverse(),
        decreases i,
    {
        i = i - 1;
        let ghost prev = as_nats(layers@);
        layers.push(top_down[i]);
        assert(as_nats(layers@) =~= prev.push(top_down@[i as int] as nat));
        assert(plan[i as int] == top_down@[i as int] as nat);
        assert(as_nats(layers@) =~= plan.subrange(i as int, plan.len() as int).reverse());
    }
    assert(plan.subrange(0, plan.len() as int) =~= plan);
    layers
}


/// One node for each seen entry among the first `m` that carries `id`: the
/// seen type, `id` and `links`.
pub open spec fn seen_matches(seen: Seq<(NodeType, NodeId)>, id: NodeId, links: Seq<NodeId>, m: int) -> Seq<(NodeType, NodeId, Seq<NodeId>)>
    decreases m,
{
    if m <= 0 {
        Seq::empty()
    } else {
        let rest = seen_matches(seen, id, links, m - 1);
        if seen[m - 1].1 == id {
            rest.push((seen[m - 1].0, id, links))
        } else {
            rest
        }
    }
}

/// The butterfly nodes of the first `n` configured clients: for each, one
/// node per time it was seen.
pub open spec fn seen_client_nodes(clients: Seq<ClientConfig>, seen: Seq<(NodeType, NodeId)>, n: int) -> Seq<(NodeType, NodeId, Seq<NodeId>)>
    decreases n,
{
    if n <= 0 {
        Seq::empty()
    } else {
        seen_client_nodes(clients, seen, n - 1) + seen_matches(
            seen,
            clients[n - 1].id,
            clients[n - 1].connected_drone_ids@,
            seen.len() as int,
        )
    }
}

/// The butterfly nodes of the first `n` configured servers: for each, one
/// node per time it was seen.
pub open spec fn seen_server_nodes(servers: Seq<ServerConfig>, seen: Seq<(NodeType, NodeId)>, n: int) -> Seq<(NodeType, NodeId, Seq<NodeId>)>
    decreases n,
{
    if n <= 0 {
        Seq::empty()
    } else {
        seen_server_nodes(servers, seen, n - 1) + seen_matches(
            seen,
            servers[n - 1].id,
            servers[n - 1].connected_drone_ids@,
            seen.len() as int,
        )
    }
}

/// The nodes the butterfly layout shows: every configured drone, then the
/// configured clients that were seen, then the configured servers that were
/// seen, in configuration order, each typed as it was seen.
pub open spec fn butterfly_node_list(config: NetworkConfig, clients: Seq<(NodeType, NodeId)>, servers: Seq<(NodeType, NodeId)>) -> Seq<(NodeType, NodeId, Seq<NodeId>)> {
    drone_nodes(config.drone@, config.drone@.len() as int)
        + seen_client_nodes(config.client@, clients, config.client@.len() as int)
        + seen_server_nodes(config.server@, servers, config.server@.len() as int)
}

/// Appends one node for each seen entry that carries `id`.
fn push_seen(nodes: &mut Vec<NodeConfig>, seen: &Vec<(NodeType, NodeId)>, id: NodeId, links: &Vec<NodeId>)
    ensures
        node_triples(final(nodes)@) == node_triples(old(nodes)@) + seen_matches(seen@, id, links@, seen@.len() as int),
{
    let ghost start = node_triples(nodes@);
    let mut j: usize = 0;
    assert(start + seen_matches(seen@, id, links@, 0) =~= start);
    while j < seen.len()
        invariant
            j <= seen@.len(),
            node_triples(nodes@) == start + seen_matches(seen@, id, links@, j as int),
        decreases seen@.len() - j,
    {
        let (t, seen_id) = seen[j];
        let ghost before = nodes@;
        if seen_id == id {
            nodes.push(NodeConfig::new(t, id, crate::packet::copy_ids(links)));
            assert(node_triples(nodes@) =~= node_triples(before).push((t, id, links@)));
        }
        j = j + 1;
        assert(node_triples(nodes@) =~= start + seen_matches(seen@, id, links@, j as int));
    }
}

/// The nodes of the butterfly layout (see `butterfly_node_list`). A seen
/// client is a web browser or a chat client, a seen server a text, media or
/// chat server.
pub fn butterfly_nodes(config: &NetworkConfig, seen: &SeenClients) -> (nodes: Vec<NodeConfig>)
    requires
        forall|i: int, j: int|
            0 <= i < config.client@.len() && 0 <= j < seen.clients@.len() && #[trigger] seen.clients@[j].1
                == #[trigger] config.client@[i].id ==> (seen.clients@[j].0 is WebBrowser || seen.clients@[j].0 is ChatClient),
        forall|i: int, j: int|
            0 <= i < config.server@.len() && 0 <= j < seen.servers@.len() && #[trigger] seen.servers@[j].1
                == #[trigger] config.server@[i].id ==> (seen.servers@[j].0 is TextServer || seen.servers@[j].0
                is MediaServer || seen.servers@[j].0 is ChatServer),
    ensures
        node_triples(nodes@) == butterfly_node_list(*config, seen.clients@, seen.servers@),
{
    let mut nodes: Vec<NodeConfig> = Vec::new();
    let mut i: usize = 0;
    while i < config.drone.len()
        invariant
            i <= config.drone@.len(),
            node_triples(nodes@) == drone_nodes(config.drone@, i as int),
        decreases config.drone@.len() - i,
    {
        let d = &config.drone[i];
        let ghost before = nodes@;
        nodes.push(NodeConfig::new(NodeType::Drone, d.id, crate::packet::copy_ids(&d.connected_node_ids)));
        assert(node_triples(nodes@) =~= node_triples(before).push((NodeType::Drone, d.id, d.connected_node_ids@)));
        i = i + 1;
    }
    let ghost drones_part = node_triples(nodes@);
    let mut j: usize = 0;
    assert(drones_part + seen_client_nodes(config.client@, seen.clients@, 0) =~= drones_part);
    while j < config.client.len()
        invariant
            j <= config.client@.len(),
            drones_part == drone_nodes(config.drone@, config.drone@.len() as int),
            node_triples(nodes@) == drones_part + seen_client_nodes(config.client@, seen.clients@, j as int),
        decreases config.client@.len() - j,
    {
        let c = &config.client[j];
        push_seen(&mut nodes, &seen.clients, c.id, &c.connected_drone_ids);
        j = j + 1;
        assert(node_triples(nodes@) =~= drones_part + seen_client_nodes(config.client@, seen.clients@, j as int));
    }
    let ghost clients_part = node_triples(nodes@);
    let mut k: usize = 0;
    assert(clients_part + seen_server_nodes(config.server@, seen.servers@, 0) =~= clients_part);
    while k < config.server.len()
        invariant
            k <= config.server@.len(),
            clients_part == drone_nodes(config.drone@, config.drone@.len() as int) + seen_client_nodes(
                config.client@,
                seen.clients@,
                config.client@.len() as int,
            ),
            node_triples(nodes@) == clients_part + seen_server_nodes(config.server@, seen.servers@, k as int),
        decreases config.server@.len() - k,
    {
        let s = &config.server[k];
        push_seen(&mut nodes, &seen.servers, s.id, &s.connected_drone_ids);
        k = k + 1;
        assert(node_triples(nodes@) =~= clients_part + seen_server_nodes(config.server@, seen.servers@, k as int));
    }
    nodes
}

} // verus!
