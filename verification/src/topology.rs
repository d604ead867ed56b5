use vstd::prelude::*;
use std::collections::HashMap;
use crate::packet::NodeId;

verus! {

broadcast use vstd::std_specs::hash::group_hash_axioms;

/// The kinds of node a network configuration can hold.
#[derive(Clone, Copy, Debug, PartialEq, Eq, Structural)]
pub enum NodeType {
    Drone,
    TextServer,
    MediaServer,
    ChatServer,
    WebBrowser,
    ChatClient,
}

impl Default for NodeType {
    fn default() -> (res: NodeType)
        ensures
            res == NodeType::Drone,
    {
        NodeType::Drone
    }
}

/// A node of a network configuration: its kind, its id and the ids of the
/// nodes it is connected to.
#[derive(Debug)]
pub struct NodeConfig {
    pub node_type: NodeType,
    pub id: NodeId,
    pub connected_node_ids: Vec<NodeId>,
}

impl NodeConfig {
    pub fn new(node_type: NodeType, id: NodeId, connected_node_ids: Vec<NodeId>) -> (res: NodeConfig)
        ensures
            res.node_type == node_type,
            res.id == id,
            res.connected_node_ids@ == connected_node_ids@,
    {
        NodeConfig { node_type, id, connected_node_ids }
    }
}

/// Why a network configuration is rejected.
#[derive(Clone, Copy, Debug, PartialEq, Eq, Structural)]
pub enum TopologyIssue {
    /// A chat client reaches no chat server.
    ClientWithoutServer(NodeId),
    /// A chat server reaches fewer than two chat clients (it reaches the given number).
    ServerWithFewClients(NodeId, usize),
    /// A web browser cannot reach a text server.
    BrowserCannotReachText(NodeId, NodeId),
    /// A web browser cannot reach a media server.
    BrowserCannotReachMedia(NodeId, NodeId),
    /// A text server cannot reach a media server.
    TextCannotReachMedia(NodeId, NodeId),
    /// A text server cannot reach another text server.
    TextCannotReachText(NodeId, NodeId),
    /// A connection listed by one end only: either the second node lists
    /// the first, which does not list it back, or the first node lists the
    /// second, which is no node of the configuration.
    MissingConnection(NodeId, NodeId),
}

// ---------------------------------------------------------------------------
// Model
// ---------------------------------------------------------------------------

/// The neighbour lists by node id; a later node with the same id replaces an earlier one.
pub open spec fn adjacency(nodes: Seq<NodeConfig>) -> Map<NodeId, Seq<NodeId>>
    decreases nodes.len(),
{
    if nodes.len() == 0 {
        Map::empty()
    } else {
        adjacency(nodes.drop_last()).insert(nodes.last().id, nodes.last().connected_node_ids@)
    }
}

/// The neighbour lists of an adjacency map, as sequences.
pub open spec fn graph_view(g: Map<NodeId, Vec<NodeId>>) -> Map<NodeId, Seq<NodeId>> {
    Map::new(|k: NodeId| g.contains_key(k), |k: NodeId| g[k]@)
}

/// Whether the first node with this id is a drone.
pub open spec fn is_drone(nodes: Seq<NodeConfig>, id: NodeId) -> bool {
    exists|i: int|
        0 <= i < nodes.len() && nodes[i].id == id && nodes[i].node_type == NodeType::Drone && (forall|j: int|
            0 <= j < i ==> nodes[j].id != id)
}

/// A node a path may pass through: a drone, or the path's own source.
pub open spec fn relay(nodes: Seq<NodeConfig>, source: NodeId, v: NodeId) -> bool {
    is_drone(nodes, v) || v == source
}

pub open spec fn linked(adj: Map<NodeId, Seq<NodeId>>, a: NodeId, b: NodeId) -> bool {
    adj.contains_key(a) && adj[a].contains(b)
}

/// A walk from `source` to `target` along neighbour lists whose inner nodes are relays.
pub open spec fn relay_walk(
    adj: Map<NodeId, Seq<NodeId>>,
    nodes: Seq<NodeConfig>,
    source: NodeId,
    target: NodeId,
    w: Seq<NodeId>,
) -> bool {
    &&& w.len() >= 2
    &&& w[0] == source
    &&& w.last() == target
    &&& forall|i: int| 0 <= i < w.len() - 1 ==> linked(adj, #[trigger] w[i], w[i + 1])
    &&& forall|i: int| 0 < i < w.len() - 1 ==> relay(nodes, source, #[trigger] w[i])
}

/// `target` can be reached from `source` through drones only.
pub open spec fn reachable(
    adj: Map<NodeId, Seq<NodeId>>,
    nodes: Seq<NodeConfig>,
    source: NodeId,
    target: NodeId,
) -> bool {
    source == target || exists|w: Seq<NodeId>| relay_walk(adj, nodes, source, target, w)
}

/// Reachability in the network the configuration describes.
pub open spec fn connected(nodes: Seq<NodeConfig>, source: NodeId, target: NodeId) -> bool {
    reachable(adjacency(nodes), nodes, source, target)
}

// ---------------------------------------------------------------------------
// Adjacency and reachability
// ---------------------------------------------------------------------------

/// The neighbour lists of a configuration, keyed by node id.
pub fn build_adjacency_list(nodes: &[NodeConfig]) -> (graph: HashMap<NodeId, Vec<NodeId>>)
    ensures
        graph_view(graph@) == adjacency(nodes@),
{
    let mut graph: HashMap<NodeId, Vec<NodeId>> = HashMap::new();
    let mut i: usize = 0;
    while i < nodes.len()
        invariant
            i <= nodes@.len(),
            graph_view(graph@) == adjacency(nodes@.subrange(0, i as int)),
        decreases nodes@.len() - i,
    {
        let node = &nodes[i];
        let links = crate::packet::copy_ids(&node.connected_node_ids);
        graph.insert(node.id, links);
        proof {
            assert(nodes@.subrange(0, i as int + 1).drop_last() =~= nodes@.subrange(0, i as int));
            assert(graph_view(graph@) =~= adjacency(nodes@.subrange(0, i as int + 1)));
        }
        i = i + 1;
    }
    assert(nodes@.subrange(0, nodes@.len() as int) =~= nodes@);
    graph
}

/// Whether the first node with this id is a drone.
pub fn is_drone_id(nodes: &[NodeConfig], id: NodeId) -> (res: bool)
    ensures
        res == is_drone(nodes@, id),
{
    let mut i: usize = 0;
    while i < nodes.len()
        invariant
            i <= nodes@.len(),
            forall|j: int| 0 <= j < i ==> nodes@[j].id != id,
        decreases nodes@.len() - i,
    {
        if nodes[i].id == id {
            let res = nodes[i].node_type == NodeType::Drone;
            proof {
                if !res {
                    assert forall|k: int|
                        0 <= k < nodes@.len() && nodes@[k].id == id && nodes@[k].node_type == NodeType::Drone
                        implies exists|j: int| 0 <= j < k && nodes@[j].id == id by {
                        if k > i as int {
                            assert(nodes@[i as int].id == id);
                        }
                    }
                }
            }
            return res;
        }
        i = i + 1;
    }
    false
}

/// A walk from the source to `v` whose every node after the first is a relay.
pub open spec fn relay_prefix(
    adj: Map<NodeId, Seq<NodeId>>,
    nodes: Seq<NodeConfig>,
    source: NodeId,
    v: NodeId,
    w: Seq<NodeId>,
) -> bool {
    &&& w.len() >= 1
    &&& w[0] == source
    &&& w.last() == v
    &&& forall|i: int| 0 <= i < w.len() - 1 ==> linked(adj, #[trigger] w[i], w[i + 1])
    &&& forall|i: int| 0 < i < w.len() ==> relay(nodes, source, #[trigger] w[i])
}

/// When every visited node's relay neighbours are visited and none of them
/// neighbours the target, no relay walk reaches the target.
proof fn lemma_closed_blocks(
    adj: Map<NodeId, Seq<NodeId>>,
    nodes: Seq<NodeConfig>,
    source: NodeId,
    target: NodeId,
    vis: Set<NodeId>,
    w: Seq<NodeId>,
)
    requires
        vis.contains(source),
        forall|u: NodeId, n: NodeId|
            vis.contains(u) && linked(adj, u, n) ==> n != target && (relay(nodes, source, n) ==> vis.contains(n)),
    ensures
        !relay_walk(adj, nodes, source, target, w),
{
    if !relay_walk(adj, nodes, source, target, w) {
        return;
    }
    assert forall|i: int| 0 <= i < w.len() - 1 implies vis.contains(#[trigger] w[i]) by {
        lemma_walk_prefix_visited(adj, nodes, source, target, vis, w, i);
    }
    let k = w.len() - 2;
    assert(vis.contains(w[k]));
    assert(linked(adj, w[k], w[k + 1]));
}

proof fn lemma_walk_prefix_visited(
    adj: Map<NodeId, Seq<NodeId>>,
    nodes: Seq<NodeConfig>,
    source: NodeId,
    target: NodeId,
    vis: Set<NodeId>,
    w: Seq<NodeId>,
    i: int,
)
    requires
        vis.contains(source),
        forall|u: NodeId, n: NodeId|
            vis.contains(u) && linked(adj, u, n) ==> n != target && (relay(nodes, source, n) ==> vis.contains(n)),
        relay_walk(adj, nodes, source, target, w),
        0 <= i < w.len() - 1,
    ensures
        vis.contains(w[i]),
    decreases i,
{
    if i > 0 {
        lemma_walk_prefix_visited(adj, nodes, source, target, vis, w, i - 1);
        assert(linked(adj, w[i - 1], w[i]));
        assert(relay(nodes, source, w[i]));
    }
}

/// Whether `target` can be reached from `source` through drones only
/// (a breadth-first search over the neighbour lists).
pub fn has_path(graph: &HashMap<NodeId, Vec<NodeId>>, nodes: &[NodeConfig], source: NodeId, target: NodeId) -> (res: bool)
    ensures
        res == reachable(graph_view(graph@), nodes@, source, target),
{
    if source == target {
        return true;
    }
    let ghost adj = graph_view(graph@);
    let mut visited: Vec<bool> = Vec::new();
    let mut k: usize = 0;
    while k < 256
        invariant
            k <= 256,
            visited@.len() == k,
            forall|j: int| 0 <= j < k ==> !visited@[j],
        decreases 256 - k,
    {
        visited.push(false);
        k = k + 1;
    }
    let mut queue: Vec<NodeId> = Vec::new();
    let mut head: usize = 0;
    let ghost mut vis: Set<NodeId> = Set::empty();
    let ghost mut wit: Map<NodeId, Seq<NodeId>> = Map::empty();
    let ghost mut pos: Map<NodeId, int> = Map::empty();
    queue.push(source);
    visited.set(source as usize, true);
    proof {
        vis = vis.insert(source);
        wit = wit.insert(source, seq![source]);
        pos = pos.insert(source, 0);
        <NodeId as vstd::set_lib::FiniteFull>::full_properties();
    }
    while head < queue.len()
        invariant
            source != target,
            adj == graph_view(graph@),
            visited@.len() == 256,
            forall|v: NodeId| visited@[v as int] <==> #[trigger] vis.contains(v),
            head <= queue@.len(),
            forall|j: int| 0 <= j < queue@.len() ==> vis.contains(#[trigger] queue@[j]),
            forall|v: NodeId| #[trigger] vis.contains(v) ==> pos.contains_key(v) && 0 <= pos[v] < queue@.len() && queue@[pos[v]] == v,
            vis.contains(source),
            !vis.contains(target),
            forall|v: NodeId| #[trigger] vis.contains(v) ==> wit.contains_key(v) && relay_prefix(adj, nodes@, source, v, wit[v]),
            forall|j: int, n: NodeId|
                0 <= j < head && #[trigger] linked(adj, queue@[j], n) ==> n != target && (relay(nodes@, source, n) ==> vis.contains(n)),
            Set::<NodeId>::full().finite(),
        decreases Set::<NodeId>::full().difference(vis).len(), queue@.len() - head,
    {
        let current = queue[head];
        let ghost before = Set::<NodeId>::full().difference(vis).len();
        let ghost qlen0 = queue@.len();
        match graph.get(&current) {
            Some(neighbors) => {
                let mut t: usize = 0;
                while t < neighbors.len()
                    invariant
                        source != target,
                        adj == graph_view(graph@),
                        graph@.contains_key(current),
                        graph@[current] == *neighbors,
                        current == queue@[head as int],
                        head < queue@.len(),
                        t <= neighbors@.len(),
                        visited@.len() == 256,
                        forall|v: NodeId| visited@[v as int] <==> #[trigger] vis.contains(v),
                        forall|j: int| 0 <= j < queue@.len() ==> vis.contains(#[trigger] queue@[j]),
                        forall|v: NodeId| #[trigger] vis.contains(v) ==> pos.contains_key(v) && 0 <= pos[v] < queue@.len() && queue@[pos[v]] == v,
                        vis.contains(source),
                        !vis.contains(target),
                        forall|v: NodeId| #[trigger] vis.contains(v) ==> wit.contains_key(v) && relay_prefix(adj, nodes@, source, v, wit[v]),
                        forall|j: int, n: NodeId|
                            0 <= j < head && #[trigger] linked(adj, queue@[j], n) ==> n != target && (relay(nodes@, source, n) ==> vis.contains(n)),
                        forall|s: int| 0 <= s < t ==> neighbors@[s] != target && (relay(nodes@, source, #[trigger] neighbors@[s]) ==> vis.contains(neighbors@[s])),
                        Set::<NodeId>::full().finite(),
                        Set::<NodeId>::full().difference(vis).len() + queue@.len() == before + qlen0,
                        Set::<NodeId>::full().difference(vis).finite(),
                        queue@.len() >= qlen0,
                        queue@.len() > head,
                    decreases neighbors@.len() - t,
                {
                    let neighbor = neighbors[t];
                    if neighbor == target {
                        proof {
                            let wc = wit[current];
                            let w = wc.push(target);
                            assert(adj[current] == neighbors@);
                            assert(linked(adj, current, target)) by {
                                assert(neighbors@[t as int] == target);
                            }
                            assert(relay_walk(adj, nodes@, source, target, w)) by {
                                assert forall|i: int| 0 <= i < w.len() - 1 implies linked(adj, #[trigger] w[i], w[i + 1]) by {
                                    if i < wc.len() - 1 {
                                        assert(w[i] == wc[i] && w[i + 1] == wc[i + 1]);
                                    }
                                }
                                assert forall|i: int| 0 < i < w.len() - 1 implies relay(nodes@, source, #[trigger] w[i]) by {
                                    assert(w[i] == wc[i]);
                                }
                            }
                        }
                        return true;
                    }
                    let is_drone = is_drone_id(nodes, neighbor);
                    let is_source = neighbor == source;
                    let is_target = neighbor == target;
                    if (is_drone || is_source || is_target) && !visited[neighbor as usize] {
                        visited.set(neighbor as usize, true);
                        queue.push(neighbor);
                        proof {
                            let wc = wit[current];
                            let w = wc.push(neighbor);
                            assert(adj[current] == neighbors@);
                            assert(linked(adj, current, neighbor)) by {
                                assert(neighbors@[t as int] == neighbor);
                            }
                            assert(relay_prefix(adj, nodes@, source, neighbor, w)) by {
                                assert forall|i: int| 0 <= i < w.len() - 1 implies linked(adj, #[trigger] w[i], w[i + 1]) by {
                                    if i < wc.len() - 1 {
                                        assert(w[i] == wc[i] && w[i + 1] == wc[i + 1]);
                                    }
                                }
                                assert forall|i: int| 0 < i < w.len() implies relay(nodes@, source, #[trigger] w[i]) by {
                                    if i < wc.len() {
                                        assert(w[i] == wc[i]);
                                    }
                                }
                            }
                            let old_vis = vis;
                            vis = vis.insert(neighbor);
                            wit = wit.insert(neighbor, w);
                            assert(Set::<NodeId>::full().difference(vis) =~= Set::<NodeId>::full().difference(old_vis).remove(neighbor));
                            pos = pos.insert(neighbor, queue@.len() - 1);
                        }
                    }
                    t = t + 1;
                }
                proof {
                    assert forall|n: NodeId| linked(adj, current, n) implies n != target && (relay(nodes@, source, n) ==> vis.contains(n)) by {
                        assert(adj[current] == neighbors@);
                        let s = choose|s: int| 0 <= s < neighbors@.len() && neighbors@[s] == n;
                        assert(neighbors@[s] == n);
                    }
                }
            },
            None => {
                proof {
                    assert forall|n: NodeId| !linked(adj, current, n) by {}
                }
            },
        }
        proof {
            let d = Set::<NodeId>::full().difference(vis).len();
            assert(d < before || (d == before && queue@.len() == qlen0));
        }
        head = head + 1;
    }
    proof {
        assert forall|u: NodeId, n: NodeId|
            vis.contains(u) && linked(adj, u, n) implies n != target && (relay(nodes@, source, n) ==> vis.contains(n)) by {
            let j = pos[u];
            assert(linked(adj, queue@[j], n));
        }
        assert forall|w: Seq<NodeId>| !relay_walk(adj, nodes@, source, target, w) by {
            lemma_closed_blocks(adj, nodes@, source, target, vis, w);
        }
    }
    false
}


// ---------------------------------------------------------------------------
// Validation
// ---------------------------------------------------------------------------

/// A check: the issue it reports, and whether it passed.
pub type Check = (TopologyIssue, bool);

/// The outcome of a list of checks: the issue of the first one that failed.
pub open spec fn first_failure(checks: Seq<Check>) -> Result<(), TopologyIssue>
    decreases checks.len(),
{
    if checks.len() == 0 {
        Ok(())
    } else if !checks[0].1 {
        Err(checks[0].0)
    } else {
        first_failure(checks.drop_first())
    }
}

/// The ids of the nodes of one kind, in configuration order.
pub open spec fn ids_of_type(nodes: Seq<NodeConfig>, t: NodeType) -> Seq<NodeId>
    decreases nodes.len(),
{
    if nodes.len() == 0 {
        Seq::empty()
    } else {
        let rest = ids_of_type(nodes.drop_last(), t);
        if nodes.last().node_type == t {
            rest.push(nodes.last().id)
        } else {
            rest
        }
    }
}

/// How many of `targets` can be reached from `source`.
pub open spec fn count_reached(nodes: Seq<NodeConfig>, source: NodeId, targets: Seq<NodeId>) -> nat
    decreases targets.len(),
{
    if targets.len() == 0 {
        0
    } else {
        count_reached(nodes, source, targets.drop_last()) + if connected(nodes, source, targets.last()) {
            1nat
        } else {
            0nat
        }
    }
}

/// One check per pair: the issue `mk(a, b[i])`, passed when `b[i]` is reachable from `a`.
pub open spec fn reach_checks(nodes: Seq<NodeConfig>, a: NodeId, b: Seq<NodeId>, kind: int) -> Seq<Check> {
    Seq::new(b.len(), |i: int| (pair_issue(kind, a, b[i]), connected(nodes, a, b[i])))
}

pub open spec fn pair_issue(kind: int, a: NodeId, b: NodeId) -> TopologyIssue {
    if kind == 0 {
        TopologyIssue::BrowserCannotReachText(a, b)
    } else if kind == 1 {
        TopologyIssue::BrowserCannotReachMedia(a, b)
    } else if kind == 2 {
        TopologyIssue::TextCannotReachMedia(a, b)
    } else {
        TopologyIssue::TextCannotReachText(a, b)
    }
}

/// The chat checks: every chat client reaches some chat server, then every
/// chat server reaches at least two chat clients.
pub open spec fn chat_checks(nodes: Seq<NodeConfig>) -> Seq<Check> {
    let clients = ids_of_type(nodes, NodeType::ChatClient);
    let servers = ids_of_type(nodes, NodeType::ChatServer);
    Seq::new(
        clients.len(),
        |i: int|
            (
                TopologyIssue::ClientWithoutServer(clients[i]),
                exists|j: int| 0 <= j < servers.len() && connected(nodes, clients[i], #[trigger] servers[j]),
            ),
    ) + Seq::new(
        servers.len(),
        |j: int|
            (
                TopologyIssue::ServerWithFewClients(servers[j], count_reached(nodes, servers[j], clients) as usize),
                count_reached(nodes, servers[j], clients) >= 2,
            ),
    )
}

/// The checks for one web browser: it reaches every text server, then every media server.
pub open spec fn browser_checks(nodes: Seq<NodeConfig>, b: NodeId) -> Seq<Check> {
    reach_checks(nodes, b, ids_of_type(nodes, NodeType::TextServer), 0) + reach_checks(
        nodes,
        b,
        ids_of_type(nodes, NodeType::MediaServer),
        1,
    )
}

/// The checks for one text server: it reaches every media server, then every text server.
pub open spec fn text_checks(nodes: Seq<NodeConfig>, t: NodeId) -> Seq<Check> {
    reach_checks(nodes, t, ids_of_type(nodes, NodeType::MediaServer), 2) + reach_checks(
        nodes,
        t,
        ids_of_type(nodes, NodeType::TextServer),
        3,
    )
}

/// The checks of the first `n` sources, each source contributing `per(source)`.
pub open spec fn browsers_prefix(nodes: Seq<NodeConfig>, sources: Seq<NodeId>, n: int) -> Seq<Check>
    decreases n,
{
    if n <= 0 {
        Seq::empty()
    } else {
        browsers_prefix(nodes, sources, n - 1) + browser_checks(nodes, sources[n - 1])
    }
}

pub open spec fn texts_prefix(nodes: Seq<NodeConfig>, sources: Seq<NodeId>, n: int) -> Seq<Check>
    decreases n,
{
    if n <= 0 {
        Seq::empty()
    } else {
        texts_prefix(nodes, sources, n - 1) + text_checks(nodes, sources[n - 1])
    }
}

/// The web checks: for each web browser its checks, then for each text server its checks.
pub open spec fn web_checks(nodes: Seq<NodeConfig>) -> Seq<Check> {
    let browsers = ids_of_type(nodes, NodeType::WebBrowser);
    let texts = ids_of_type(nodes, NodeType::TextServer);
    browsers_prefix(nodes, browsers, browsers.len() as int) + texts_prefix(nodes, texts, texts.len() as int)
}

/// The duplex checks of one node: for each id it lists, that node lists it back.
pub open spec fn duplex_node_checks(adj: Map<NodeId, Seq<NodeId>>, node_id: NodeId, links: Seq<NodeId>) -> Seq<Check> {
    Seq::new(
        links.len(),
        |k: int|
            if adj.contains_key(links[k]) {
                (TopologyIssue::MissingConnection(links[k], node_id), adj[links[k]].contains(node_id))
            } else {
                (TopologyIssue::MissingConnection(node_id, links[k]), false)
            },
    )
}

pub open spec fn duplex_prefix(nodes: Seq<NodeConfig>, n: int) -> Seq<Check>
    decreases n,
{
    if n <= 0 {
        Seq::empty()
    } else {
        duplex_prefix(nodes, n - 1) + duplex_node_checks(
            adjacency(nodes),
            nodes[n - 1].id,
            nodes[n - 1].connected_node_ids@,
        )
    }
}

/// Every connection must be listed by both of its ends.
pub open spec fn duplex_checks(nodes: Seq<NodeConfig>) -> Seq<Check> {
    duplex_prefix(nodes, nodes.len() as int)
}

proof fn lemma_first_failure_append(a: Seq<Check>, b: Seq<Check>)
    ensures
        first_failure(a + b) == match first_failure(a) {
            Ok(()) => first_failure(b),
            Err(e) => Err(e),
        },
    decreases a.len(),
{
    if a.len() > 0 {
        assert((a + b).drop_first() =~= a.drop_first() + b);
        lemma_first_failure_append(a.drop_first(), b);
    } else {
        assert(a + b =~= b);
    }
}

/// Runs a list of checks in order, stopping at the first failure.
pub fn run_checks(checks: &Vec<Check>) -> (res: Result<(), TopologyIssue>)
    ensures
        res == first_failure(checks@),
{
    assert(checks@.subrange(0, checks@.len() as int) =~= checks@);
    let mut i: usize = 0;
    while i < checks.len()
        invariant
            i <= checks@.len(),
            first_failure(checks@) == first_failure(checks@.subrange(i as int, checks@.len() as int)),
        decreases checks@.len() - i,
    {
        let (issue, ok) = checks[i];
        proof {
            let rest = checks@.subrange(i as int, checks@.len() as int);
            assert(rest.drop_first() =~= checks@.subrange(i as int + 1, checks@.len() as int));
        }
        if !ok {
            return Err(issue);
        }
        i = i + 1;
    }
    proof {
        assert(checks@.subrange(i as int, checks@.len() as int) =~= Seq::<Check>::empty());
    }
    Ok(())
}

/// The ids of the nodes of one kind, in configuration order.
pub fn collect_ids(nodes: &[NodeConfig], t: NodeType) -> (ids: Vec<NodeId>)
    ensures
        ids@ == ids_of_type(nodes@, t),
{
    let mut ids: Vec<NodeId> = Vec::new();
    let mut i: usize = 0;
    while i < nodes.len()
        invariant
            i <= nodes@.len(),
            ids@ == ids_of_type(nodes@.subrange(0, i as int), t),
        decreases nodes@.len() - i,
    {
        proof {
            assert(nodes@.subrange(0, i as int + 1).drop_last() =~= nodes@.subrange(0, i as int));
        }
        if nodes[i].node_type == t {
            ids.push(nodes[i].id);
        }
        i = i + 1;
    }
    assert(nodes@.subrange(0, nodes@.len() as int) =~= nodes@);
    ids
}

fn push_reach_checks(
    out: &mut Vec<Check>,
    graph: &HashMap<NodeId, Vec<NodeId>>,
    nodes: &[NodeConfig],
    a: NodeId,
    targets: &Vec<NodeId>,
    kind: u8,
)
    requires
        graph_view(graph@) == adjacency(nodes@),
        kind <= 3,
    ensures
        final(out)@ == old(out)@ + reach_checks(nodes@, a, targets@, kind as int),
{
    let ghost start = out@;
    let mut i: usize = 0;
    while i < targets.len()
        invariant
            i <= targets@.len(),
            graph_view(graph@) == adjacency(nodes@),
            kind <= 3,
            out@ == start + reach_checks(nodes@, a, targets@.subrange(0, i as int), kind as int),
        decreases targets@.len() - i,
    {
        let b = targets[i];
        let ok = has_path(graph, nodes, a, b);
        let issue = if kind == 0 {
            TopologyIssue::BrowserCannotReachText(a, b)
        } else if kind == 1 {
            TopologyIssue::BrowserCannotReachMedia(a, b)
        } else if kind == 2 {
            TopologyIssue::TextCannotReachMedia(a, b)
        } else {
            TopologyIssue::TextCannotReachText(a, b)
        };
        out.push((issue, ok));
        i = i + 1;
        assert(out@ =~= start + reach_checks(nodes@, a, targets@.subrange(0, i as int), kind as int));
    }
    assert(targets@.subrange(0, targets@.len() as int) =~= targets@);
}

fn count_reachable(graph: &HashMap<NodeId, Vec<NodeId>>, nodes: &[NodeConfig], source: NodeId, targets: &Vec<NodeId>) -> (n: usize)
    requires
        graph_view(graph@) == adjacency(nodes@),
    ensures
        n == count_reached(nodes@, source, targets@),
{
    let mut n: usize = 0;
    let mut i: usize = 0;
    while i < targets.len()
        invariant
            i <= targets@.len(),
            graph_view(graph@) == adjacency(nodes@),
            n == count_reached(nodes@, source, targets@.subrange(0, i as int)),
            n <= i,
        decreases targets@.len() - i,
    {
        proof {
            assert(targets@.subrange(0, i as int + 1).drop_last() =~= targets@.subrange(0, i as int));
        }
        if has_path(graph, nodes, source, targets[i]) {
            n = n + 1;
        }
        i = i + 1;
    }
    assert(targets@.subrange(0, targets@.len() as int) =~= targets@);
    n
}

/// Every chat client must reach a chat server, and every chat server at
/// least two chat clients; the first failure in that order is reported.
pub fn validate_chat_connectivity(nodes: &[NodeConfig]) -> (res: Result<(), TopologyIssue>)
    ensures
        res == first_failure(chat_checks(nodes@)),
{
    let graph = build_adjacency_list(nodes);
    let clients = collect_ids(nodes, NodeType::ChatClient);
    let servers = collect_ids(nodes, NodeType::ChatServer);
    let mut checks: Vec<Check> = Vec::new();
    let mut i: usize = 0;
    while i < clients.len()
        invariant
            i <= clients@.len(),
            graph_view(graph@) == adjacency(nodes@),
            clients@ == ids_of_type(nodes@, NodeType::ChatClient),
            servers@ == ids_of_type(nodes@, NodeType::ChatServer),
            checks@ == chat_checks(nodes@).subrange(0, i as int),
        decreases clients@.len() - i,
    {
        let c = clients[i];
        let mut found = false;
        let mut j: usize = 0;
        while j < servers.len()
            invariant
                j <= servers@.len(),
                graph_view(graph@) == adjacency(nodes@),
                found == exists|k: int| 0 <= k < j && connected(nodes@, c, #[trigger] servers@[k]),
            decreases servers@.len() - j,
        {
            if has_path(&graph, nodes, c, servers[j]) {
                found = true;
            }
            j = j + 1;
        }
        checks.push((TopologyIssue::ClientWithoutServer(c), found));
        i = i + 1;
        assert(checks@ =~= chat_checks(nodes@).subrange(0, i as int));
    }
    let mut j: usize = 0;
    while j < servers.len()
        invariant
            j <= servers@.len(),
            graph_view(graph@) == adjacency(nodes@),
            clients@ == ids_of_type(nodes@, NodeType::ChatClient),
            servers@ == ids_of_type(nodes@, NodeType::ChatServer),
            checks@ == chat_checks(nodes@).subrange(0, clients@.len() + j),
        decreases servers@.len() - j,
    {
        let s = servers[j];
        let n = count_reachable(&graph, nodes, s, &clients);
        checks.push((TopologyIssue::ServerWithFewClients(s, n), n >= 2));
        j = j + 1;
        assert(checks@ =~= chat_checks(nodes@).subrange(0, clients@.len() + j));
    }
    assert(checks@ =~= chat_checks(nodes@));
    run_checks(&checks)
}

/// Every web browser must reach every text and media server, and every
/// text server every media server and every other text server; the first
/// failure in that order is reported.
pub fn validate_web_media_connectivity(nodes: &[NodeConfig]) -> (res: Result<(), TopologyIssue>)
    ensures
        res == first_failure(web_checks(nodes@)),
{
    let graph = build_adjacency_list(nodes);
    let browsers = collect_ids(nodes, NodeType::WebBrowser);
    let texts = collect_ids(nodes, NodeType::TextServer);
    let medias = collect_ids(nodes, NodeType::MediaServer);
    let mut checks: Vec<Check> = Vec::new();
    let mut i: usize = 0;
    while i < browsers.len()
        invariant
            i <= browsers@.len(),
            graph_view(graph@) == adjacency(nodes@),
            browsers@ == ids_of_type(nodes@, NodeType::WebBrowser),
            texts@ == ids_of_type(nodes@, NodeType::TextServer),
            medias@ == ids_of_type(nodes@, NodeType::MediaServer),
            checks@ == browsers_prefix(nodes@, browsers@, i as int),
        decreases browsers@.len() - i,
    {
        let b = browsers[i];
        push_reach_checks(&mut checks, &graph, nodes, b, &texts, 0);
        push_reach_checks(&mut checks, &graph, nodes, b, &medias, 1);
        i = i + 1;
        assert(checks@ =~= browsers_prefix(nodes@, browsers@, i as int));
    }
    let ghost head = checks@;
    let mut k: usize = 0;
    while k < texts.len()
        invariant
            k <= texts@.len(),
            graph_view(graph@) == adjacency(nodes@),
            texts@ == ids_of_type(nodes@, NodeType::TextServer),
            medias@ == ids_of_type(nodes@, NodeType::MediaServer),
            checks@ == head + texts_prefix(nodes@, texts@, k as int),
        decreases texts@.len() - k,
    {
        let t = texts[k];
        push_reach_checks(&mut checks, &graph, nodes, t, &medias, 2);
        push_reach_checks(&mut checks, &graph, nodes, t, &texts, 3);
        k = k + 1;
        assert(checks@ =~= head + texts_prefix(nodes@, texts@, k as int));
    }
    run_checks(&checks)
}

/// Every id a node lists must name a node that lists it back; the first
/// failure, in configuration order, is reported.
pub fn validate_duplex_connections(nodes: &[NodeConfig]) -> (res: Result<(), TopologyIssue>)
    ensures
        res == first_failure(duplex_checks(nodes@)),
{
    let graph = build_adjacency_list(nodes);
    let mut checks: Vec<Check> = Vec::new();
    let mut i: usize = 0;
    while i < nodes.len()
        invariant
            i <= nodes@.len(),
            graph_view(graph@) == adjacency(nodes@),
            checks@ == duplex_prefix(nodes@, i as int),
        decreases nodes@.len() - i,
    {
        let node = &nodes[i];
        let ghost start = checks@;
        let mut k: usize = 0;
        while k < node.connected_node_ids.len()
            invariant
                k <= node.connected_node_ids@.len(),
                graph_view(graph@) == adjacency(nodes@),
                checks@ == start + duplex_node_checks(adjacency(nodes@), node.id, node.connected_node_ids@.subrange(0, k as int)),
            decreases node.connected_node_ids@.len() - k,
        {
            let neighbor = node.connected_node_ids[k];
            match graph.get(&neighbor) {
                Some(links) => {
                    let back = contains_node(links, node.id);
                    checks.push((TopologyIssue::MissingConnection(neighbor, node.id), back));
                },
                None => {
                    checks.push((TopologyIssue::MissingConnection(node.id, neighbor), false));
                },
            }
            k = k + 1;
            assert(checks@ =~= start + duplex_node_checks(adjacency(nodes@), node.id, node.connected_node_ids@.subrange(0, k as int)));
        }
        assert(node.connected_node_ids@.subrange(0, k as int) =~= node.connected_node_ids@);
        i = i + 1;
    }
    assert(nodes@.len() as int == nodes@.len());
    run_checks(&checks)
}

fn contains_node(v: &Vec<NodeId>, x: NodeId) -> (res: bool)
    ensures
        res == v@.contains(x),
{
    crate::ids::contains_id(v, x)
}

/// The connectivity rules: the chat checks, then the web checks.
pub fn would_break_connectivity(simulated_nodes: &[NodeConfig]) -> (res: Result<(), TopologyIssue>)
    ensures
        res == first_failure(chat_checks(simulated_nodes@) + web_checks(simulated_nodes@)),
{
    proof {
        lemma_first_failure_append(chat_checks(simulated_nodes@), web_checks(simulated_nodes@));
    }
    match validate_chat_connectivity(simulated_nodes) {
        Err(e) => Err(e),
        Ok(()) => validate_web_media_connectivity(simulated_nodes),
    }
}


// ---------------------------------------------------------------------------
// The checks see only kinds, ids and links
// ---------------------------------------------------------------------------

/// Two configurations that list, node by node, the same kinds, ids and links.
pub open spec fn same_nodes(s1: Seq<NodeConfig>, s2: Seq<NodeConfig>) -> bool {
    &&& s1.len() == s2.len()
    &&& forall|i: int|
        0 <= i < s1.len() ==> (#[trigger] s1[i]).node_type == s2[i].node_type && s1[i].id == s2[i].id
            && s1[i].connected_node_ids@ == s2[i].connected_node_ids@
}

proof fn lemma_same_adjacency(s1: Seq<NodeConfig>, s2: Seq<NodeConfig>)
    requires
        same_nodes(s1, s2),
    ensures
        adjacency(s1) == adjacency(s2),
    decreases s1.len(),
{
    if s1.len() > 0 {
        assert(same_nodes(s1.drop_last(), s2.drop_last())) by {
            assert forall|i: int| 0 <= i < s1.drop_last().len() implies (#[trigger] s1.drop_last()[i]).node_type
                == s2.drop_last()[i].node_type && s1.drop_last()[i].id == s2.drop_last()[i].id
                && s1.drop_last()[i].connected_node_ids@ == s2.drop_last()[i].connected_node_ids@ by {
                assert(s1.drop_last()[i] == s1[i] && s2.drop_last()[i] == s2[i]);
            }
        }
        lemma_same_adjacency(s1.drop_last(), s2.drop_last());
        assert(s1.last() == s1[s1.len() - 1] && s2.last() == s2[s2.len() - 1]);
    }
}

proof fn lemma_same_ids(s1: Seq<NodeConfig>, s2: Seq<NodeConfig>, t: NodeType)
    requires
        same_nodes(s1, s2),
    ensures
        ids_of_type(s1, t) == ids_of_type(s2, t),
    decreases s1.len(),
{
    if s1.len() > 0 {
        assert(same_nodes(s1.drop_last(), s2.drop_last())) by {
            assert forall|i: int| 0 <= i < s1.drop_last().len() implies (#[trigger] s1.drop_last()[i]).node_type
                == s2.drop_last()[i].node_type && s1.drop_last()[i].id == s2.drop_last()[i].id
                && s1.drop_last()[i].connected_node_ids@ == s2.drop_last()[i].connected_node_ids@ by {
                assert(s1.drop_last()[i] == s1[i] && s2.drop_last()[i] == s2[i]);
            }
        }
        lemma_same_ids(s1.drop_last(), s2.drop_last(), t);
        assert(s1.last() == s1[s1.len() - 1] && s2.last() == s2[s2.len() - 1]);
    }
}

proof fn lemma_same_connected(s1: Seq<NodeConfig>, s2: Seq<NodeConfig>, a: NodeId, b: NodeId)
    requires
        same_nodes(s1, s2),
    ensures
        connected(s1, a, b) == connected(s2, a, b),
{
    lemma_same_adjacency(s1, s2);
    let adj = adjacency(s1);
    assert forall|v: NodeId| is_drone(s1, v) == is_drone(s2, v) by {
        if is_drone(s1, v) {
            let i = choose|i: int|
                0 <= i < s1.len() && s1[i].id == v && s1[i].node_type == NodeType::Drone && (forall|j: int|
                    0 <= j < i ==> s1[j].id != v);
            assert(s2[i].id == v && s2[i].node_type == NodeType::Drone);
            assert forall|j: int| 0 <= j < i implies s2[j].id != v by {
                assert(s1[j].id == s2[j].id);
            }
        }
        if is_drone(s2, v) {
            let i = choose|i: int|
                0 <= i < s2.len() && s2[i].id == v && s2[i].node_type == NodeType::Drone && (forall|j: int|
                    0 <= j < i ==> s2[j].id != v);
            assert(s1[i].id == v && s1[i].node_type == NodeType::Drone);
            assert forall|j: int| 0 <= j < i implies s1[j].id != v by {
                assert(s1[j].id == s2[j].id);
            }
        }
    }
    assert forall|w: Seq<NodeId>| relay_walk(adj, s1, a, b, w) == relay_walk(adj, s2, a, b, w) by {
        assert forall|i: int| 0 < i < w.len() - 1 implies relay(s1, a, #[trigger] w[i]) == relay(s2, a, w[i]) by {
            assert(is_drone(s1, w[i]) == is_drone(s2, w[i]));
        }
    }
    if reachable(adj, s1, a, b) && a != b {
        let w = choose|w: Seq<NodeId>| relay_walk(adj, s1, a, b, w);
        assert(relay_walk(adj, s2, a, b, w));
    }
    if reachable(adj, s2, a, b) && a != b {
        let w = choose|w: Seq<NodeId>| relay_walk(adj, s2, a, b, w);
        assert(relay_walk(adj, s1, a, b, w));
    }
}

proof fn lemma_same_count(s1: Seq<NodeConfig>, s2: Seq<NodeConfig>, source: NodeId, targets: Seq<NodeId>)
    requires
        same_nodes(s1, s2),
    ensures
        count_reached(s1, source, targets) == count_reached(s2, source, targets),
    decreases targets.len(),
{
    if targets.len() > 0 {
        lemma_same_count(s1, s2, source, targets.drop_last());
        lemma_same_connected(s1, s2, source, targets.last());
    }
}

proof fn lemma_same_reach_checks(s1: Seq<NodeConfig>, s2: Seq<NodeConfig>, a: NodeId, b: Seq<NodeId>, kind: int)
    requires
        same_nodes(s1, s2),
    ensures
        reach_checks(s1, a, b, kind) == reach_checks(s2, a, b, kind),
{
    assert forall|i: int| 0 <= i < b.len() implies connected(s1, a, #[trigger] b[i]) == connected(s2, a, b[i]) by {
        lemma_same_connected(s1, s2, a, b[i]);
    }
    assert(reach_checks(s1, a, b, kind) =~= reach_checks(s2, a, b, kind));
}

proof fn lemma_same_prefixes(s1: Seq<NodeConfig>, s2: Seq<NodeConfig>, sources: Seq<NodeId>, n: int)
    requires
        same_nodes(s1, s2),
    ensures
        browsers_prefix(s1, sources, n) == browsers_prefix(s2, sources, n),
        texts_prefix(s1, sources, n) == texts_prefix(s2, sources, n),
    decreases n,
{
    if n > 0 {
        lemma_same_prefixes(s1, s2, sources, n - 1);
        let x = sources[n - 1];
        lemma_same_ids(s1, s2, NodeType::TextServer);
        lemma_same_ids(s1, s2, NodeType::MediaServer);
        lemma_same_reach_checks(s1, s2, x, ids_of_type(s1, NodeType::TextServer), 0);
        lemma_same_reach_checks(s1, s2, x, ids_of_type(s1, NodeType::MediaServer), 1);
        lemma_same_reach_checks(s1, s2, x, ids_of_type(s1, NodeType::MediaServer), 2);
        lemma_same_reach_checks(s1, s2, x, ids_of_type(s1, NodeType::TextServer), 3);
    }
}

/// The connectivity rules look at each node's kind, id and links only: two
/// configurations that agree on those get the same answer.
pub proof fn lemma_checks_see_only_nodes(s1: Seq<NodeConfig>, s2: Seq<NodeConfig>)
    requires
        same_nodes(s1, s2),
    ensures
        chat_checks(s1) == chat_checks(s2),
        web_checks(s1) == web_checks(s2),
        duplex_checks(s1) == duplex_checks(s2),
{
    lemma_same_ids(s1, s2, NodeType::ChatClient);
    lemma_same_ids(s1, s2, NodeType::ChatServer);
    lemma_same_ids(s1, s2, NodeType::WebBrowser);
    lemma_same_ids(s1, s2, NodeType::TextServer);
    let clients = ids_of_type(s1, NodeType::ChatClient);
    let servers = ids_of_type(s1, NodeType::ChatServer);
    assert forall|i: int, j: int| 0 <= i < clients.len() && 0 <= j < servers.len() implies #[trigger] connected(
        s1,
        clients[i],
        servers[j],
    ) == connected(s2, clients[i], servers[j]) by {
        lemma_same_connected(s1, s2, clients[i], servers[j]);
    }
    assert forall|j: int| 0 <= j < servers.len() implies count_reached(s1, #[trigger] servers[j], clients)
        == count_reached(s2, servers[j], clients) by {
        lemma_same_count(s1, s2, servers[j], clients);
    }
    assert(chat_checks(s1) =~= chat_checks(s2));
    let browsers = ids_of_type(s1, NodeType::WebBrowser);
    let texts = ids_of_type(s1, NodeType::TextServer);
    lemma_same_prefixes(s1, s2, browsers, browsers.len() as int);
    lemma_same_prefixes(s1, s2, texts, texts.len() as int);
    lemma_same_duplex(s1, s2, s1.len() as int);
}

proof fn lemma_same_duplex(s1: Seq<NodeConfig>, s2: Seq<NodeConfig>, n: int)
    requires
        same_nodes(s1, s2),
        n <= s1.len(),
    ensures
        duplex_prefix(s1, n) == duplex_prefix(s2, n),
    decreases n,
{
    if n > 0 {
        lemma_same_duplex(s1, s2, n - 1);
        lemma_same_adjacency(s1, s2);
        assert(s1[n - 1].id == s2[n - 1].id && s1[n - 1].connected_node_ids@ == s2[n - 1].connected_node_ids@);
    }
}


// ---------------------------------------------------------------------------
// What passing the checks means
// ---------------------------------------------------------------------------

/// A list of checks passes exactly when every check in it passed.
pub proof fn lemma_first_failure_ok(checks: Seq<Check>)
    ensures
        first_failure(checks) is Ok <==> forall|i: int| 0 <= i < checks.len() ==> (#[trigger] checks[i]).1,
    decreases checks.len(),
{
    if checks.len() > 0 {
        lemma_first_failure_ok(checks.drop_first());
        if checks[0].1 && first_failure(checks.drop_first()) is Ok {
            assert forall|i: int| 0 <= i < checks.len() implies (#[trigger] checks[i]).1 by {
                if i > 0 {
                    assert(checks[i] == checks.drop_first()[i - 1]);
                }
            }
        }
        if forall|i: int| 0 <= i < checks.len() ==> (#[trigger] checks[i]).1 {
            assert(checks[0].1);
            assert forall|i: int| 0 <= i < checks.drop_first().len() implies (#[trigger] checks.drop_first()[i]).1 by {
                assert(checks.drop_first()[i] == checks[i + 1]);
            }
        }
    }
}

proof fn lemma_all_pass_append(a: Seq<Check>, b: Seq<Check>)
    ensures
        (forall|i: int| 0 <= i < (a + b).len() ==> (#[trigger] (a + b)[i]).1) <==> ((forall|i: int|
            0 <= i < a.len() ==> (#[trigger] a[i]).1) && (forall|i: int| 0 <= i < b.len() ==> (#[trigger] b[i]).1)),
{
    if forall|i: int| 0 <= i < (a + b).len() ==> (#[trigger] (a + b)[i]).1 {
        assert forall|i: int| 0 <= i < a.len() implies (#[trigger] a[i]).1 by {
            assert((a + b)[i] == a[i]);
        }
        assert forall|i: int| 0 <= i < b.len() implies (#[trigger] b[i]).1 by {
            assert((a + b)[a.len() + i] == b[i]);
        }
    }
}

/// The chat rule: every chat client reaches some chat server through
/// drones, and every chat server reaches at least two chat clients.
pub open spec fn chat_rule(nodes: Seq<NodeConfig>) -> bool {
    let clients = ids_of_type(nodes, NodeType::ChatClient);
    let servers = ids_of_type(nodes, NodeType::ChatServer);
    &&& forall|i: int| 0 <= i < clients.len() ==> exists|j: int| 0 <= j < servers.len() && connected(nodes, #[trigger] clients[i], servers[j])
    &&& forall|j: int| 0 <= j < servers.len() ==> count_reached(nodes, #[trigger] servers[j], clients) >= 2
}

/// The chat checks pass exactly when the chat rule holds.
pub proof fn lemma_chat_checks_ok(nodes: Seq<NodeConfig>)
    ensures
        first_failure(chat_checks(nodes)) is Ok <==> chat_rule(nodes),
{
    let clients = ids_of_type(nodes, NodeType::ChatClient);
    let servers = ids_of_type(nodes, NodeType::ChatServer);
    let a = Seq::new(
        clients.len(),
        |i: int|
            (
                TopologyIssue::ClientWithoutServer(clients[i]),
                exists|j: int| 0 <= j < servers.len() && connected(nodes, clients[i], #[trigger] servers[j]),
            ),
    );
    let b = Seq::new(
        servers.len(),
        |j: int|
            (
                TopologyIssue::ServerWithFewClients(servers[j], count_reached(nodes, servers[j], clients) as usize),
                count_reached(nodes, servers[j], clients) >= 2,
            ),
    );
    assert(chat_checks(nodes) == a + b);
    lemma_first_failure_ok(a + b);
    lemma_all_pass_append(a, b);
    if chat_rule(nodes) {
        assert forall|i: int| 0 <= i < a.len() implies (#[trigger] a[i]).1 by {
            assert(exists|j: int| 0 <= j < servers.len() && connected(nodes, clients[i], servers[j]));
        }
        assert forall|j: int| 0 <= j < b.len() implies (#[trigger] b[j]).1 by {
            assert(count_reached(nodes, servers[j], clients) >= 2);
        }
    }
    if forall|i: int| 0 <= i < (a + b).len() ==> (#[trigger] (a + b)[i]).1 {
        assert forall|i: int| 0 <= i < clients.len() implies exists|j: int|
            0 <= j < servers.len() && connected(nodes, #[trigger] clients[i], servers[j]) by {
            assert(a[i].1);
        }
        assert forall|j: int| 0 <= j < servers.len() implies count_reached(nodes, #[trigger] servers[j], clients) >= 2 by {
            assert(b[j].1);
        }
    }
}

/// The duplex rule: every id a node lists belongs to a node that lists it back.
pub open spec fn duplex_rule(nodes: Seq<NodeConfig>) -> bool {
    forall|i: int, k: int|
        0 <= i < nodes.len() && 0 <= k < nodes[i].connected_node_ids@.len() ==> linked(
            adjacency(nodes),
            #[trigger] nodes[i].connected_node_ids@[k],
            nodes[i].id,
        )
}

proof fn lemma_duplex_prefix_ok(nodes: Seq<NodeConfig>, n: int)
    requires
        0 <= n <= nodes.len(),
    ensures
        (forall|j: int| 0 <= j < duplex_prefix(nodes, n).len() ==> (#[trigger] duplex_prefix(nodes, n)[j]).1) <==> (
        forall|i: int, k: int|
            0 <= i < n && 0 <= k < nodes[i].connected_node_ids@.len() ==> linked(
                adjacency(nodes),
                #[trigger] nodes[i].connected_node_ids@[k],
                nodes[i].id,
            )),
    decreases n,
{
    if n > 0 {
        lemma_duplex_prefix_ok(nodes, n - 1);
        let adj = adjacency(nodes);
        let pre = duplex_prefix(nodes, n - 1);
        let last = duplex_node_checks(adj, nodes[n - 1].id, nodes[n - 1].connected_node_ids@);
        assert(duplex_prefix(nodes, n) == pre + last);
        lemma_all_pass_append(pre, last);
        let links = nodes[n - 1].connected_node_ids@;
        assert forall|k: int| 0 <= k < links.len() implies (#[trigger] last[k]).1 == linked(adj, links[k], nodes[n - 1].id) by {
        }
        if forall|j: int| 0 <= j < duplex_prefix(nodes, n).len() ==> (#[trigger] duplex_prefix(nodes, n)[j]).1 {
            assert forall|i: int, k: int|
                0 <= i < n && 0 <= k < nodes[i].connected_node_ids@.len() implies linked(
                adj,
                #[trigger] nodes[i].connected_node_ids@[k],
                nodes[i].id,
            ) by {
                if i == n - 1 {
                    assert(last[k].1);
                }
            }
        }
        if forall|i: int, k: int|
            0 <= i < n && 0 <= k < nodes[i].connected_node_ids@.len() ==> linked(
                adj,
                #[trigger] nodes[i].connected_node_ids@[k],
                nodes[i].id,
            ) {
            assert forall|k: int| 0 <= k < last.len() implies (#[trigger] last[k]).1 by {
                assert(linked(adj, nodes[n - 1].connected_node_ids@[k], nodes[n - 1].id));
            }
        }
    }
}

/// The duplex checks pass exactly when the duplex rule holds.
pub proof fn lemma_duplex_checks_ok(nodes: Seq<NodeConfig>)
    ensures
        first_failure(duplex_checks(nodes)) is Ok <==> duplex_rule(nodes),
{
    lemma_first_failure_ok(duplex_checks(nodes));
    lemma_duplex_prefix_ok(nodes, nodes.len() as int);
}


/// Every check of the list passed.
pub open spec fn all_pass(checks: Seq<Check>) -> bool {
    forall|i: int| 0 <= i < checks.len() ==> (#[trigger] checks[i]).1
}

proof fn lemma_reach_checks_pass(nodes: Seq<NodeConfig>, a: NodeId, b: Seq<NodeId>, kind: int)
    ensures
        all_pass(reach_checks(nodes, a, b, kind)) <==> (forall|j: int| 0 <= j < b.len() ==> connected(nodes, a, #[trigger] b[j])),
{
    let r = reach_checks(nodes, a, b, kind);
    if all_pass(r) {
        assert forall|j: int| 0 <= j < b.len() implies connected(nodes, a, #[trigger] b[j]) by {
            assert(r[j].1);
        }
    }
}

/// Every one of `sources` reaches every one of `targets`.
pub open spec fn all_reach(nodes: Seq<NodeConfig>, sources: Seq<NodeId>, targets: Seq<NodeId>) -> bool {
    forall|i: int, j: int|
        0 <= i < sources.len() && 0 <= j < targets.len() ==> #[trigger] connected(nodes, sources[i], targets[j])
}

/// The web rule: every web browser reaches every text server and every
/// media server, and every text server reaches every media server and every
/// other text server.
pub open spec fn web_rule(nodes: Seq<NodeConfig>) -> bool {
    let browsers = ids_of_type(nodes, NodeType::WebBrowser);
    let texts = ids_of_type(nodes, NodeType::TextServer);
    let medias = ids_of_type(nodes, NodeType::MediaServer);
    &&& all_reach(nodes, browsers, texts)
    &&& all_reach(nodes, browsers, medias)
    &&& all_reach(nodes, texts, medias)
    &&& all_reach(nodes, texts, texts)
}

proof fn lemma_all_pass_concat(a: Seq<Check>, b: Seq<Check>)
    ensures
        all_pass(a + b) == (all_pass(a) && all_pass(b)),
{
    lemma_all_pass_append(a, b);
}

proof fn lemma_browsers_pass(nodes: Seq<NodeConfig>, sources: Seq<NodeId>, n: int)
    requires
        0 <= n <= sources.len(),
    ensures
        all_pass(browsers_prefix(nodes, sources, n)) <==> forall|i: int| 0 <= i < n ==> #[trigger] all_pass(browser_checks(nodes, sources[i])),
    decreases n,
{
    if n > 0 {
        lemma_browsers_pass(nodes, sources, n - 1);
        lemma_all_pass_concat(browsers_prefix(nodes, sources, n - 1), browser_checks(nodes, sources[n - 1]));
    }
}

proof fn lemma_texts_pass(nodes: Seq<NodeConfig>, sources: Seq<NodeId>, n: int)
    requires
        0 <= n <= sources.len(),
    ensures
        all_pass(texts_prefix(nodes, sources, n)) <==> forall|i: int| 0 <= i < n ==> #[trigger] all_pass(text_checks(nodes, sources[i])),
    decreases n,
{
    if n > 0 {
        lemma_texts_pass(nodes, sources, n - 1);
        lemma_all_pass_concat(texts_prefix(nodes, sources, n - 1), text_checks(nodes, sources[n - 1]));
    }
}

/// The web checks pass exactly when the web rule holds.
pub proof fn lemma_web_checks_ok(nodes: Seq<NodeConfig>)
    ensures
        first_failure(web_checks(nodes)) is Ok <==> web_rule(nodes),
{
    let browsers = ids_of_type(nodes, NodeType::WebBrowser);
    let texts = ids_of_type(nodes, NodeType::TextServer);
    let medias = ids_of_type(nodes, NodeType::MediaServer);
    let bp = browsers_prefix(nodes, browsers, browsers.len() as int);
    let tp = texts_prefix(nodes, texts, texts.len() as int);
    lemma_first_failure_ok(bp + tp);
    lemma_all_pass_concat(bp, tp);
    lemma_browsers_pass(nodes, browsers, browsers.len() as int);
    lemma_texts_pass(nodes, texts, texts.len() as int);
    assert forall|i: int| 0 <= i < browsers.len() implies #[trigger] all_pass(browser_checks(nodes, browsers[i])) == (
    (forall|j: int| 0 <= j < texts.len() ==> connected(nodes, browsers[i], #[trigger] texts[j])) && (forall|j: int|
        0 <= j < medias.len() ==> connected(nodes, browsers[i], #[trigger] medias[j]))) by {
        lemma_all_pass_concat(reach_checks(nodes, browsers[i], texts, 0), reach_checks(nodes, browsers[i], medias, 1));
        lemma_reach_checks_pass(nodes, browsers[i], texts, 0);
        lemma_reach_checks_pass(nodes, browsers[i], medias, 1);
    }
    assert forall|i: int| 0 <= i < texts.len() implies #[trigger] all_pass(text_checks(nodes, texts[i])) == (
    (forall|j: int| 0 <= j < medias.len() ==> connected(nodes, texts[i], #[trigger] medias[j])) && (forall|j: int|
        0 <= j < texts.len() ==> connected(nodes, texts[i], #[trigger] texts[j]))) by {
        lemma_all_pass_concat(reach_checks(nodes, texts[i], medias, 2), reach_checks(nodes, texts[i], texts, 3));
        lemma_reach_checks_pass(nodes, texts[i], medias, 2);
        lemma_reach_checks_pass(nodes, texts[i], texts, 3);
    }
    if web_rule(nodes) {
        assert forall|i: int| 0 <= i < browsers.len() implies #[trigger] all_pass(browser_checks(nodes, browsers[i])) by {
            assert forall|j: int| 0 <= j < texts.len() implies connected(nodes, browsers[i], #[trigger] texts[j]) by {
                assert(connected(nodes, browsers[i], texts[j]));
            }
            assert forall|j: int| 0 <= j < medias.len() implies connected(nodes, browsers[i], #[trigger] medias[j]) by {
                assert(connected(nodes, browsers[i], medias[j]));
            }
        }
        assert forall|i: int| 0 <= i < texts.len() implies #[trigger] all_pass(text_checks(nodes, texts[i])) by {
            assert forall|j: int| 0 <= j < medias.len() implies connected(nodes, texts[i], #[trigger] medias[j]) by {
                assert(connected(nodes, texts[i], medias[j]));
            }
            assert forall|j: int| 0 <= j < texts.len() implies connected(nodes, texts[i], #[trigger] texts[j]) by {
                assert(connected(nodes, texts[i], texts[j]));
            }
        }
    }
    if all_pass(bp + tp) {
        assert forall|i: int, j: int| 0 <= i < browsers.len() && 0 <= j < texts.len() implies #[trigger] connected(
            nodes,
            browsers[i],
            texts[j],
        ) by {
            assert(all_pass(browser_checks(nodes, browsers[i])));
        }
        assert forall|i: int, j: int| 0 <= i < browsers.len() && 0 <= j < medias.len() implies #[trigger] connected(
            nodes,
            browsers[i],
            medias[j],
        ) by {
            assert(all_pass(browser_checks(nodes, browsers[i])));
        }
        assert forall|i: int, j: int| 0 <= i < texts.len() && 0 <= j < medias.len() implies #[trigger] connected(
            nodes,
            texts[i],
            medias[j],
        ) by {
            assert(all_pass(text_checks(nodes, texts[i])));
        }
        assert forall|i: int, j: int| 0 <= i < texts.len() && 0 <= j < texts.len() implies #[trigger] connected(
            nodes,
            texts[i],
            texts[j],
        ) by {
            assert(all_pass(text_checks(nodes, texts[i])));
        }
    }
}

/// The connectivity checks (as `would_break_connectivity` runs them) pass
/// exactly when both the chat rule and the web rule hold.
pub proof fn lemma_connectivity_ok(nodes: Seq<NodeConfig>)
    ensures
        first_failure(chat_checks(nodes) + web_checks(nodes)) is Ok <==> (chat_rule(nodes) && web_rule(nodes)),
{
    let a = chat_checks(nodes);
    let b = web_checks(nodes);
    lemma_first_failure_append(a, b);
    lemma_chat_checks_ok(nodes);
    lemma_web_checks_ok(nodes);
    if first_failure(a) is Ok {
        assert(first_failure(a + b) == first_failure(b));
    }
}

} // verus!
