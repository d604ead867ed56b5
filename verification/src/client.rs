use vstd::prelude::*;
use std::collections::HashMap;
use petgraph::graphmap::UnGraphMap;
use crate::assembler::{
    add_fragment, concat_payloads, copy_fragments, create_packet, find_fragment, fragment_packet, insert_fragment,
    reassemble, sorted_by_index, NodeData,
};
use crate::common::ServerType;
use crate::graph::{
    graph_edges, graph_incoming_edges, graph_new, node_cost, scores_traceable, shortest_costs, valid_costs,
    walk_between, walk_cost, weights_agree_on_cheapest, Edge,
};
use crate::ids::{contains_id, push_unique};
use crate::packet::{
    trace_ids, FloodRequest, FloodRequestView, FloodResponse, FloodResponseView, Fragment, NackType, NodeId, NodeKind,
    Packet, PacketType, PacketTypeView, PacketView, RouteView, SourceRoutingHeader,
};

verus! {

broadcast use vstd::std_specs::hash::group_hash_axioms;

/// Why no route was returned.
#[derive(Clone, Copy, Debug, PartialEq, Eq, Structural)]
pub enum RouteError {
    /// The destination cannot be reached in the known topology.
    NoRoute,
    /// The cheapest cost was found, but no route could be traced back with
    /// the per-node weights (which ignore the penalty on clients and servers).
    Unreconstructible,
}

/// The state of a client that does not depend on its channels: what it
/// knows of the network, and its bookkeeping of sent and received messages.
pub struct ClientCore {
    pub id: NodeId,
    /// Servers found by flooding.
    pub servers: Vec<NodeId>,
    /// Clients found by flooding (the client itself first).
    pub clients: Vec<NodeId>,
    /// Flood requests already seen, as (flood id, initiator).
    pub visited_nodes: Vec<(u64, NodeId)>,
    /// The flood responses that reached this client.
    pub flood: Vec<FloodResponse>,
    pub unique_flood_id: u64,
    pub session_id_packet: u64,
    /// The fragments of each session sent, for resending.
    pub fragments_sent: HashMap<u64, Vec<Fragment>>,
    /// Nodes reported by ErrorInRouting nacks since the last ack.
    pub problematic_nodes: Vec<NodeId>,
    /// Chat servers confirmed by their answer to a type request.
    pub chat_servers: Vec<NodeId>,
    pub text_servers: Vec<NodeId>,
    pub media_servers: Vec<NodeId>,
    /// The known topology.
    pub topology: UnGraphMap<NodeId, u32>,
    /// Delivery statistics of the nodes of the topology.
    pub node_data: HashMap<NodeId, NodeData>,
    /// The destination of each session sent.
    pub packet_sent: HashMap<u64, NodeId>,
    /// The fragments received so far of each incoming message, sorted by
    /// index, under the key `pending_key(session, source)`.
    pub incoming_fragments: HashMap<u128, Vec<Fragment>>,
}

/// The key under which the fragments of a session from a source are kept.
pub open spec fn pending_key(session_id: u64, source: NodeId) -> u128 {
    (session_id * 256 + source) as u128
}

/// Received fragments are kept sorted by index, each with a valid length.
pub open spec fn pending_ok(m: Map<u128, Vec<Fragment>>) -> bool {
    forall|k: u128|
        #[trigger] m.contains_key(k) ==> sorted_by_index(m[k]@) && forall|i: int|
            0 <= i < m[k]@.len() ==> (#[trigger] m[k]@[i]).length <= 128
}

/// Weight of entering node `v` when searching for a route to `destination`:
/// prohibitive for problematic nodes, clients and servers other than the
/// destination, and otherwise the reliability weight `base[v]`.
pub open spec fn search_cost(
    problematic: Seq<NodeId>,
    clients: Seq<NodeId>,
    servers: Seq<NodeId>,
    destination: NodeId,
    base: Seq<u32>,
    v: NodeId,
) -> u32 {
    if problematic.contains(v) || clients.contains(v) || (servers.contains(v) && v != destination) {
        1000
    } else {
        base[v as int]
    }
}

/// Weight of entering node `v` when tracing a route back: prohibitive for
/// problematic nodes, and otherwise the reliability weight `base[v]`.
pub open spec fn trace_cost(problematic: Seq<NodeId>, base: Seq<u32>, v: NodeId) -> u32 {
    if problematic.contains(v) {
        1000
    } else {
        base[v as int]
    }
}

/// When searching for a route to `destination`, entering a known server other
/// than the destination, a known client or a problematic node costs the
/// prohibitive 1000, whatever the node's reliability; any other node costs
/// its reliability weight.
pub proof fn lemma_search_weights(core: ClientCore, destination: NodeId, base: Seq<u32>, v: NodeId)
    ensures
        (core.servers@.contains(v) && v != destination) || core.clients@.contains(v) || core.problematic_nodes@.contains(v)
            ==> core.search_costs(destination, base)[v as int] == 1000,
        !((core.servers@.contains(v) && v != destination) || core.clients@.contains(v) || core.problematic_nodes@.contains(v))
            ==> core.search_costs(destination, base)[v as int] == base[v as int],
{
}

impl ClientCore {
    pub open spec fn edges(&self) -> Map<Edge, u32> {
        graph_edges(self.topology)
    }

    /// The known topology is undirected (every link listed both ways with one
    /// weight), and received fragments are kept sorted with valid lengths.
    pub open spec fn well_formed(&self) -> bool {
        symmetric(self.edges()) && pending_ok(self.incoming_fragments@)
    }

    pub open spec fn search_costs(&self, destination: NodeId, base: Seq<u32>) -> Seq<u32> {
        Seq::new(
            256,
            |v: int| search_cost(self.problematic_nodes@, self.clients@, self.servers@, destination, base, v as u8),
        )
    }

    pub open spec fn trace_costs(&self, base: Seq<u32>) -> Seq<u32> {
        Seq::new(256, |v: int| trace_cost(self.problematic_nodes@, base, v as u8))
    }

    /// A client that knows nothing yet but itself.
    pub fn new(id: NodeId) -> (res: ClientCore)
        ensures
            res.id == id,
            res.servers@ == Seq::<NodeId>::empty(),
            res.clients@ == seq![id],
            res.visited_nodes@ == Seq::<(u64, NodeId)>::empty(),
            res.flood@.len() == 0,
            res.unique_flood_id == 0,
            res.session_id_packet == 0,
            res.fragments_sent@ == Map::<u64, Vec<Fragment>>::empty(),
            res.problematic_nodes@ == Seq::<NodeId>::empty(),
            res.chat_servers@ == Seq::<NodeId>::empty(),
            res.text_servers@ == Seq::<NodeId>::empty(),
            res.media_servers@ == Seq::<NodeId>::empty(),
            res.edges() == Map::<Edge, u32>::empty(),
            res.node_data@ == Map::<NodeId, NodeData>::empty(),
            res.packet_sent@ == Map::<u64, NodeId>::empty(),
            res.incoming_fragments@ == Map::<u128, Vec<Fragment>>::empty(),
            res.well_formed(),
    {
        let mut clients: Vec<NodeId> = Vec::new();
        clients.push(id);
        let topology = graph_new();
        let res = ClientCore {
            id,
            servers: Vec::new(),
            clients,
            visited_nodes: Vec::new(),
            flood: Vec::new(),
            unique_flood_id: 0,
            session_id_packet: 0,
            fragments_sent: HashMap::new(),
            problematic_nodes: Vec::new(),
            chat_servers: Vec::new(),
            text_servers: Vec::new(),
            media_servers: Vec::new(),
            topology,
            node_data: HashMap::new(),
            packet_sent: HashMap::new(),
            incoming_fragments: HashMap::new(),
        };
        assert(res.edges() =~= Map::<Edge, u32>::empty());
        res
    }

    fn search_table(&self, destination: NodeId, base: &Vec<u32>) -> (table: Vec<u32>)
        requires
            valid_costs(base@),
        ensures
            table@ == self.search_costs(destination, base@),
            valid_costs(table@),
            forall|v: int|
                0 <= v < 256 && ((self.servers@.contains(v as u8) && v as u8 != destination) || self.clients@.contains(
                    v as u8,
                ) || self.problematic_nodes@.contains(v as u8)) ==> #[trigger] table@[v] == 1000,
    {
        let mut table: Vec<u32> = Vec::new();
        let mut v: usize = 0;
        while v < 256
            invariant
                v <= 256,
                valid_costs(base@),
                table@.len() == v,
                forall|i: int| 0 <= i < v ==> table@[i] == search_cost(
                    self.problematic_nodes@,
                    self.clients@,
                    self.servers@,
                    destination,
                    base@,
                    i as u8,
                ),
            decreases 256 - v,
        {
            let n = v as u8;
            let c = if contains_id(&self.problematic_nodes, n) || contains_id(&self.clients, n) || (
            contains_id(&self.servers, n) && n != destination) {
                1000
            } else {
                base[v]
            };
            table.push(c);
            v = v + 1;
        }
        assert(table@ =~= self.search_costs(destination, base@));
        table
    }

    fn trace_table(&self, base: &Vec<u32>) -> (table: Vec<u32>)
        requires
            valid_costs(base@),
        ensures
            table@ == self.trace_costs(base@),
            valid_costs(table@),
    {
        let mut table: Vec<u32> = Vec::new();
        let mut v: usize = 0;
        while v < 256
            invariant
                v <= 256,
                valid_costs(base@),
                table@.len() == v,
                forall|i: int| 0 <= i < v ==> table@[i] == trace_cost(self.problematic_nodes@, base@, i as u8),
            decreases 256 - v,
        {
            let n = v as u8;
            let c = if contains_id(&self.problematic_nodes, n) {
                1000
            } else {
                base[v]
            };
            table.push(c);
            v = v + 1;
        }
        assert(table@ =~= self.trace_costs(base@));
        table
    }

    /// A traced route avoids forbidden nodes when a walk that avoids them
    /// costs less than the weight of one.
    proof fn lemma_route_avoids_forbidden(
        &self,
        destination: NodeId,
        base: Seq<u32>,
        scores: Map<NodeId, u32>,
        search: Seq<u32>,
        route: Seq<NodeId>,
    )
        requires
            valid_costs(base),
            search == self.search_costs(destination, base),
            scores_settled(self.edges(), scores, search, self.id, destination),
            forall|j: int| 1 <= j < route.len() ==> scores.contains_key(#[trigger] route[j]) && route[j] != self.id
                && scores[route[j]] <= scores[destination],
        ensures
            !self.problematic_nodes@.contains(destination) && !self.clients@.contains(destination) && (exists|
                w: Seq<NodeId>,
            |
                walk_between(self.edges(), w, self.id, destination) && walk_cost(w, base) < 1000 && forall|i: int|
                    1 <= i < w.len() - 1 ==> !self.problematic_nodes@.contains(#[trigger] w[i]) && !self.clients@.contains(
                        w[i],
                    ) && !(self.servers@.contains(w[i]) && w[i] != destination)) ==> forall|i: int|
                1 <= i < route.len() - 1 ==> !self.problematic_nodes@.contains(#[trigger] route[i])
                    && !self.clients@.contains(route[i]) && !(self.servers@.contains(route[i]) && route[i] != destination),
    {
        if !self.problematic_nodes@.contains(destination) && !self.clients@.contains(destination) && (exists|
            w: Seq<NodeId>,
        |
            walk_between(self.edges(), w, self.id, destination) && walk_cost(w, base) < 1000 && forall|i: int|
                1 <= i < w.len() - 1 ==> !self.problematic_nodes@.contains(#[trigger] w[i]) && !self.clients@.contains(w[i])
                    && !(self.servers@.contains(w[i]) && w[i] != destination)) {
            let w = choose|w: Seq<NodeId>|
                walk_between(self.edges(), w, self.id, destination) && walk_cost(w, base) < 1000 && forall|i: int|
                    1 <= i < w.len() - 1 ==> !self.problematic_nodes@.contains(#[trigger] w[i]) && !self.clients@.contains(
                        w[i],
                    ) && !(self.servers@.contains(w[i]) && w[i] != destination);
            assert forall|j: int| 1 <= j < w.len() implies search[#[trigger] w[j] as int] == base[w[j] as int] by {
                if j == w.len() - 1 {
                    assert(w[j] == destination);
                }
            }
            crate::graph::lemma_walk_cost_agree(w, search, base);
            lemma_traced_route_stays_cheap(self.edges(), scores, search, self.id, destination, route, w);
            assert forall|i: int| 1 <= i < route.len() - 1 implies !self.problematic_nodes@.contains(#[trigger] route[i])
                && !self.clients@.contains(route[i]) && !(self.servers@.contains(route[i]) && route[i] != destination) by {
                assert(search[route[i] as int] <= walk_cost(w, search));
            }
        }
    }

    /// The cheapest route from this client to `destination`, by the weights
    /// `base` (one per node id, derived from the reliability of each node).
    /// The search makes problematic nodes, clients, and servers other than the
    /// destination prohibitively expensive; the route is then traced back from
    /// the destination using the weights without the client and server
    /// penalty. A route found costs, by those weights, no more than any walk
    /// to the destination costs by the search weights. A reachable destination
    /// gets a route whenever every node that a cheapest walk to it (by the
    /// search weights) enters has the same weight in both weightings.
    #[verifier::rlimit(80)]
    pub fn find_best_route(&self, destination: NodeId, base: &Vec<u32>) -> (res: Result<Vec<NodeId>, RouteError>)
        requires
            valid_costs(base@),
        ensures
            (res == Err::<Vec<NodeId>, RouteError>(RouteError::NoRoute)) <==> !exists|w: Seq<NodeId>|
                walk_between(self.edges(), w, self.id, destination),
            res is Ok ==> walk_between(self.edges(), res->Ok_0@, self.id, destination),
            res is Ok ==> forall|w: Seq<NodeId>|
                walk_between(self.edges(), w, self.id, destination) ==> walk_cost(res->Ok_0@, self.trace_costs(base@))
                    <= walk_cost(w, self.search_costs(destination, base@)),
            (exists|w: Seq<NodeId>| walk_between(self.edges(), w, self.id, destination)) && weights_agree_on_cheapest(
                self.edges(),
                self.id,
                destination,
                self.search_costs(destination, base@),
                self.trace_costs(base@),
            ) ==> res is Ok,
            res is Ok && !self.problematic_nodes@.contains(destination) && !self.clients@.contains(destination) && (exists|
                w: Seq<NodeId>,
            |
                walk_between(self.edges(), w, self.id, destination) && walk_cost(w, base@) < 1000 && forall|i: int|
                    1 <= i < w.len() - 1 ==> !self.problematic_nodes@.contains(#[trigger] w[i]) && !self.clients@.contains(
                        w[i],
                    ) && !(self.servers@.contains(w[i]) && w[i] != destination)) ==> forall|i: int|
                1 <= i < res->Ok_0@.len() - 1 ==> !self.problematic_nodes@.contains(#[trigger] res->Ok_0@[i])
                    && !self.clients@.contains(res->Ok_0@[i]) && !(self.servers@.contains(res->Ok_0@[i]) && res->Ok_0@[i]
                    != destination),
    {
        let source = self.id;
        let search = self.search_table(destination, base);
        let trace = self.trace_table(base);
        let scores = shortest_costs(&self.topology, source, destination, &search);
        let ghost edges = self.edges();
        match scores.get(&destination) {
            None => {
                return Err(RouteError::NoRoute);
            },
            Some(_) => {},
        }
        proof {
            assert(scores@.contains_key(destination));
            let w = choose|w: Seq<NodeId>|
                walk_between(graph_edges(self.topology), w, source, destination) && walk_cost(w, search@) == scores@[destination];
            assert(walk_between(self.edges(), w, self.id, destination));
        }
        assert(scores_settled(graph_edges(self.topology), scores@, search@, source, destination)) by {
            reveal(scores_settled);
        }
        match trace_route(&self.topology, &scores, &trace, source, destination, Ghost(search@)) {
            None => Err(RouteError::Unreconstructible),
            Some(route) => {
                proof {
                    self.lemma_route_avoids_forbidden(destination, base@, scores@, search@, route@);
                    assert forall|w: Seq<NodeId>| walk_between(self.edges(), w, self.id, destination) implies walk_cost(
                        route@,
                        self.trace_costs(base@),
                    ) <= walk_cost(w, self.search_costs(destination, base@)) by {
                        assert(scores@[destination] <= walk_cost(w, search@));
                    }
                }
                Ok(route)
            },
        }
    }
}

/// The search scores are those of a shortest-path search from `source` by
/// `search`: each scored node other than the source was reached from a scored
/// neighbour, each score is the cost of a walk, and the destination's score
/// is no more than any walk to it costs.
#[verifier::opaque]
pub open spec fn scores_settled(
    edges: Map<Edge, u32>,
    scores: Map<NodeId, u32>,
    search: Seq<u32>,
    source: NodeId,
    destination: NodeId,
) -> bool {
    &&& valid_costs(search)
    &&& scores_traceable(edges, scores, search, source)
    &&& forall|v: NodeId| #[trigger] scores.contains_key(v) ==> exists|w: Seq<NodeId>|
        walk_between(edges, w, source, v) && walk_cost(w, search) == scores[v]
    &&& forall|w: Seq<NodeId>| walk_between(edges, w, source, destination) ==> scores[destination] <= walk_cost(w, search)
}

/// A node reached while tracing back, other than the source, lies on a
/// cheapest walk (a walk to it of its score, then the part traced back), so
/// its two weights agree and it has a neighbour to trace back to.
#[verifier::rlimit(60)]
proof fn lemma_traced_node_agrees(
    edges: Map<Edge, u32>,
    scores: Map<NodeId, u32>,
    search: Seq<u32>,
    trace: Seq<u32>,
    source: NodeId,
    destination: NodeId,
    rp: Seq<NodeId>,
)
    requires
        scores_settled(edges, scores, search, source, destination),
        weights_agree_on_cheapest(edges, source, destination, search, trace),
        rp.len() >= 1,
        rp[0] != source,
        scores.contains_key(rp[0]),
        rp.last() == destination,
        crate::graph::is_walk(edges, rp),
        walk_cost(rp, trace) + scores[rp[0]] == scores[destination],
        forall|j: int| 1 <= j < rp.len() ==> search[#[trigger] rp[j] as int] == trace[rp[j] as int],
    ensures
        search[rp[0] as int] == trace[rp[0] as int],
        exists|u: NodeId| edges.contains_key((u, rp[0])) && scores.contains_key(u) && scores[u] + trace[rp[0] as int] == scores[rp[0]],
{
    reveal(scores_settled);
    reveal(weights_agree_on_cheapest);
    let current = rp[0];
    let p = choose|w: Seq<NodeId>| walk_between(edges, w, source, current) && walk_cost(w, search) == scores[current];
    let wj = p + rp.drop_first();
    crate::graph::lemma_walk_join(edges, p, rp);
    crate::graph::lemma_walk_cost_join(p, rp, search);
    crate::graph::lemma_walk_cost_agree(rp, search, trace);
    assert(wj.last() == destination) by {
        if rp.len() == 1 {
            assert(wj =~= p);
        } else {
            assert(wj.last() == rp.last());
        }
    }
    assert(wj[0] == source);
    assert(crate::graph::cheapest_walk(edges, wj, source, destination, search));
    assert(p.len() >= 2) by {
        if p.len() == 1 {
            assert(p[0] == p.last());
        }
    }
    let k = p.len() - 1;
    assert(wj[k] == current);
    assert(search[wj[k] as int] == trace[wj[k] as int]);
    assert(scores.contains_key(current) && current != source);
    let u = choose|u: NodeId| edges.contains_key((u, current)) && scores.contains_key(u) && scores[u] + search[current as int] == scores[current];
    assert(edges.contains_key((u, current)) && scores.contains_key(u) && scores[u] + trace[current as int] == scores[current]);
}

/// A route traced through the search scores enters only nodes whose search
/// weight is below that of a walk of the search weights: each node it enters
/// was reached from a scored neighbour, so it scores at least its weight, and
/// it scores no more than the destination.
proof fn lemma_traced_route_stays_cheap(
    edges: Map<Edge, u32>,
    scores: Map<NodeId, u32>,
    search: Seq<u32>,
    source: NodeId,
    destination: NodeId,
    route: Seq<NodeId>,
    w: Seq<NodeId>,
)
    requires
        scores_settled(edges, scores, search, source, destination),
        walk_between(edges, w, source, destination),
        forall|j: int| 1 <= j < route.len() ==> scores.contains_key(#[trigger] route[j]) && route[j] != source
            && scores[route[j]] <= scores[destination],
    ensures
        forall|j: int| 1 <= j < route.len() ==> search[#[trigger] route[j] as int] <= walk_cost(w, search),
{
    reveal(scores_settled);
    assert forall|j: int| 1 <= j < route.len() implies search[#[trigger] route[j] as int] <= walk_cost(w, search) by {
        let v = route[j];
        assert(scores.contains_key(v) && v != source);
        let u = choose|u: NodeId| edges.contains_key((u, v)) && scores.contains_key(u) && scores[u] + search[v as int] == scores[v];
        assert(scores[destination] <= walk_cost(w, search));
    }
}

/// Traces a cheapest walk back from `destination` to `source` through the
/// scores, choosing at each node the first neighbour whose score plus the
/// node's weight gives the node's score.
fn trace_route(
    topology: &UnGraphMap<NodeId, u32>,
    scores: &HashMap<NodeId, u32>,
    trace: &Vec<u32>,
    source: NodeId,
    destination: NodeId,
    Ghost(search): Ghost<Seq<u32>>,
) -> (route: Option<Vec<NodeId>>)
    requires
        valid_costs(trace@),
        scores@.contains_key(source),
        scores@[source] == 0,
        scores@.contains_key(destination),
    ensures
        route matches Some(r) ==> walk_between(graph_edges(*topology), r@, source, destination)
            && walk_cost(r@, trace@) == scores@[destination],
        route matches Some(r) ==> forall|j: int| 1 <= j < r@.len() ==> scores@.contains_key(#[trigger] r@[j]) && r@[j]
            != source && scores@[r@[j]] <= scores@[destination],
        scores_settled(graph_edges(*topology), scores@, search, source, destination) && weights_agree_on_cheapest(
            graph_edges(*topology),
            source,
            destination,
            search,
            trace@,
        ) ==> route is Some,
{
    let ghost edges = graph_edges(*topology);
    let ghost owed = scores_settled(graph_edges(*topology), scores@, search, source, destination)
        && weights_agree_on_cheapest(graph_edges(*topology), source, destination, search, trace@);
    let mut path: Vec<NodeId> = Vec::new();
    path.push(destination);
    let mut current = destination;
    let ghost mut rp: Seq<NodeId> = seq![destination];
    proof {
        assert(path@ =~= rp.reverse());
    }
    while current != source
        invariant
            edges == graph_edges(*topology),
            valid_costs(trace@),
            scores@.contains_key(source),
            scores@[source] == 0,
            scores@.contains_key(current),
            scores@.contains_key(destination),
            rp.len() >= 1,
            rp[0] == current,
            rp.last() == destination,
            crate::graph::is_walk(edges, rp),
            walk_cost(rp, trace@) + scores@[current] == scores@[destination],
            path@ == rp.reverse(),
            owed == (scores_settled(graph_edges(*topology), scores@, search, source, destination)
                && weights_agree_on_cheapest(graph_edges(*topology), source, destination, search, trace@)),
            owed ==> forall|j: int| 1 <= j < rp.len() ==> search[#[trigger] rp[j] as int] == trace@[rp[j] as int],
            forall|j: int| 0 <= j < rp.len() ==> scores@.contains_key(#[trigger] rp[j]) && scores@[rp[j]] <= scores@[destination],
            forall|j: int| 1 <= j < rp.len() ==> #[trigger] rp[j] != source,
        decreases scores@[current],
    {
        proof {
            if owed {
                lemma_traced_node_agrees(edges, scores@, search, trace@, source, destination, rp);
            }
        }
        match trace_back_step(topology, scores, trace, current) {
            None => {
                proof {
                    if owed {
                        let u = choose|u: NodeId|
                            edges.contains_key((u, current)) && scores@.contains_key(u) && scores@[u] + trace@[current as int]
                                == scores@[current];
                    }
                }
                return None;
            },
            Some(prev) => {
                path.push(prev);
                proof {
                    let nrp = seq![prev] + rp;
                    lemma_walk_cost_prepend(prev, rp, trace@);
                    assert(nrp.reverse() =~= rp.reverse().push(prev));
                    assert forall|i: int| 0 <= i < nrp.len() - 1 implies edges.contains_key(
                        (#[trigger] nrp[i], nrp[i + 1]),
                    ) by {
                        if i > 0 {
                            assert(nrp[i] == rp[i - 1] && nrp[i + 1] == rp[i]);
                        } else {
                            assert(nrp[1] == rp[0]);
                        }
                    }
                    assert forall|j: int| owed && 1 <= j < nrp.len() implies search[#[trigger] nrp[j] as int]
                        == trace@[nrp[j] as int] by {
                        assert(nrp[j] == rp[j - 1]);
                    }
                    assert(walk_cost(rp, trace@) >= 0) by {
                        lemma_walk_cost_lower(rp, trace@);
                    }
                    assert forall|j: int| 0 <= j < nrp.len() implies scores@.contains_key(#[trigger] nrp[j])
                        && scores@[nrp[j]] <= scores@[destination] by {
                        if j > 0 {
                            assert(nrp[j] == rp[j - 1]);
                        }
                    }
                    assert forall|j: int| 1 <= j < nrp.len() implies #[trigger] nrp[j] != source by {
                        assert(nrp[j] == rp[j - 1]);
                    }
                    rp = nrp;
                }
                current = prev;
            },
        }
    }
    let route = crate::ids::reverse_ids(&path);
    proof {
        assert(rp.reverse().reverse() =~= rp);
    }
    Some(route)
}


/// A node before `current` on a cheapest walk: it shares an edge with
/// `current`, and its score plus the weight of `current` is `current`'s score.
fn trace_back_step(
    topology: &UnGraphMap<NodeId, u32>,
    scores: &HashMap<NodeId, u32>,
    trace: &Vec<u32>,
    current: NodeId,
) -> (prev: Option<NodeId>)
    requires
        valid_costs(trace@),
    ensures
        prev matches Some(p) ==> {
            &&& graph_edges(*topology).contains_key((p, current))
            &&& scores@.contains_key(p)
            &&& scores@.contains_key(current)
            &&& scores@[p] + trace@[current as int] == scores@[current]
        },
        (exists|u: NodeId|
            graph_edges(*topology).contains_key((u, current)) && scores@.contains_key(u) && scores@.contains_key(current)
                && scores@[u] + trace@[current as int] == scores@[current]) ==> prev is Some,
{
    let incoming = graph_incoming_edges(topology, current);
    let mut k: usize = 0;
    while k < incoming.len()
        invariant
            valid_costs(trace@),
            k <= incoming@.len(),
            forall|i: int| 0 <= i < incoming@.len() ==> (#[trigger] incoming@[i]).1 == current
                && graph_edges(*topology).contains_key((incoming@[i].0, current)),
            forall|x: NodeId| graph_edges(*topology).contains_key((x, current)) ==> exists|i: int|
                0 <= i < incoming@.len() && (#[trigger] incoming@[i]).0 == x,
            forall|i: int| 0 <= i < k ==> !(scores@.contains_key((#[trigger] incoming@[i]).0) && scores@.contains_key(current)
                && scores@[incoming@[i].0] + trace@[current as int] == scores@[current]),
        decreases incoming@.len() - k,
    {
        let (prev, cur) = incoming[k];
        assert(incoming@[k as int].1 == current);
        match (scores.get(&prev), scores.get(&cur)) {
            (Some(prev_cost), Some(cur_cost)) => {
                let weight = node_cost(trace, cur);
                if (*prev_cost as u64) + (weight as u64) == (*cur_cost as u64) {
                    return Some(prev);
                }
            },
            _ => {},
        }
        k = k + 1;
    }
    proof {
        if exists|u: NodeId|
            graph_edges(*topology).contains_key((u, current)) && scores@.contains_key(u) && scores@.contains_key(current)
                && scores@[u] + trace@[current as int] == scores@[current] {
            let u = choose|u: NodeId|
                graph_edges(*topology).contains_key((u, current)) && scores@.contains_key(u) && scores@.contains_key(current)
                    && scores@[u] + trace@[current as int] == scores@[current];
            let i = choose|i: int| 0 <= i < incoming@.len() && (#[trigger] incoming@[i]).0 == u;
            assert(!(scores@.contains_key(incoming@[i].0) && scores@.contains_key(current)
                && scores@[incoming@[i].0] + trace@[current as int] == scores@[current]));
        }
    }
    None
}

/// A walk costs at least one per node it enters, when every node costs at least one.
proof fn lemma_walk_cost_lower(w: Seq<NodeId>, costs: Seq<u32>)
    requires
        costs.len() == 256,
        forall|i: int| 0 <= i < 256 ==> #[trigger] costs[i] >= 1,
    ensures
        walk_cost(w, costs) >= w.len() - 1,
    decreases w.len(),
{
    if w.len() > 1 {
        lemma_walk_cost_lower(w.drop_last(), costs);
        assert(costs[w.last() as int] >= 1);
    }
}

/// Prepending a node to a walk adds the cost of the walk's first node.
pub proof fn lemma_walk_cost_prepend(a: NodeId, w: Seq<NodeId>, costs: Seq<u32>)
    requires
        w.len() >= 1,
    ensures
        walk_cost(seq![a] + w, costs) == costs[w[0] as int] + walk_cost(w, costs),
    decreases w.len(),
{
    let s = seq![a] + w;
    assert(s.last() == w.last());
    if w.len() == 1 {
        assert(s.drop_last() =~= seq![a]);
        assert(walk_cost(seq![a], costs) == 0);
        assert(walk_cost(w, costs) == 0);
    } else {
        lemma_walk_cost_prepend(a, w.drop_last(), costs);
        assert(s.drop_last() =~= seq![a] + w.drop_last());
        assert(w.drop_last()[0] == w[0]);
    }
}


/// A packet paired with the neighbour it is for.
pub open spec fn sends_view(v: Seq<(NodeId, Packet)>) -> Seq<(NodeId, PacketView)> {
    v.map_values(|s: (NodeId, Packet)| (s.0, s.1@))
}

/// Passing a flooding packet one hop on: to the next hop, when there is one
/// and it is a neighbour.
pub open spec fn flood_step(neighbours: Seq<NodeId>, p: PacketView) -> Seq<(NodeId, PacketView)> {
    let r = p.routing_header;
    if r.hop_index + 1 < r.hops.len() && neighbours.contains(r.hops[r.hop_index + 1]) {
        seq![(r.hops[r.hop_index + 1], PacketView {
            routing_header: RouteView { hop_index: (r.hop_index + 1) as usize, hops: r.hops },
            ..p
        })]
    } else {
        seq![]
    }
}

/// The flood response a client answers a request with: the request's trace
/// extended with the client, sent back along that trace.
pub open spec fn client_response(me: NodeId, session_id: u64, f: FloodRequestView) -> PacketView {
    let trace = f.path_trace.push((me, NodeKind::Client));
    PacketView {
        pack_type: PacketTypeView::FloodResponse(FloodResponseView { flood_id: f.flood_id, path_trace: trace }),
        routing_header: RouteView { hop_index: 0, hops: trace_ids(trace).reverse() },
        session_id,
    }
}

/// Sends `p` to every neighbour but `previous`, in the order of `neighbours`.
pub open spec fn spread(neighbours: Seq<NodeId>, previous: NodeId, p: PacketView) -> Seq<(NodeId, PacketView)>
    decreases neighbours.len(),
{
    if neighbours.len() == 0 {
        seq![]
    } else {
        let rest = spread(neighbours.drop_last(), previous, p);
        if neighbours.last() == previous {
            rest
        } else {
            rest.push((neighbours.last(), p))
        }
    }
}

/// The next hop of a flooding packet (a flood response travelling back):
/// when the route goes on and its next hop is a neighbour, that neighbour and
/// the packet one hop further.
pub fn flood_next_hop(packet: Packet, neighbours: &Vec<NodeId>) -> (res: Vec<(NodeId, Packet)>)
    requires
        packet@.routing_header.hops.len() >= 1,
    ensures
        sends_view(res@) == flood_step(neighbours@, packet@),
{
    let mut res: Vec<(NodeId, Packet)> = Vec::new();
    let hi = packet.routing_header.hop_index;
    let n = packet.routing_header.hops.len();
    if hi < n - 1 {
        let next = packet.routing_header.hops[hi + 1];
        if contains_id(neighbours, next) {
            let mut q = packet;
            q.routing_header.hop_index = hi + 1;
            res.push((next, q));
        }
    }
    assert(sends_view(res@) =~= flood_step(neighbours@, packet@));
    res
}

fn spread_request(neighbours: &Vec<NodeId>, previous: NodeId, p: &Packet) -> (res: Vec<(NodeId, Packet)>)
    ensures
        sends_view(res@) == spread(neighbours@, previous, p@),
{
    let mut res: Vec<(NodeId, Packet)> = Vec::new();
    let mut i: usize = 0;
    while i < neighbours.len()
        invariant
            i <= neighbours@.len(),
            sends_view(res@) == spread(neighbours@.subrange(0, i as int), previous, p@),
        decreases neighbours@.len() - i,
    {
        let n = neighbours[i];
        proof {
            assert(neighbours@.subrange(0, i as int + 1).drop_last() =~= neighbours@.subrange(0, i as int));
        }
        if n != previous {
            res.push((n, p.duplicate()));
        }
        i = i + 1;
        assert(sends_view(res@) =~= spread(neighbours@.subrange(0, i as int), previous, p@));
    }
    assert(neighbours@.subrange(0, neighbours@.len() as int) =~= neighbours@);
    res
}

impl ClientCore {
    pub open spec fn has_seen(&self, flood_id: u64, initiator: NodeId) -> bool {
        self.visited_nodes@.contains((flood_id, initiator))
    }

    fn seen(&self, flood_id: u64, initiator: NodeId) -> (res: bool)
        ensures
            res == self.has_seen(flood_id, initiator),
    {
        let mut i: usize = 0;
        while i < self.visited_nodes.len()
            invariant
                i <= self.visited_nodes@.len(),
                forall|j: int| 0 <= j < i ==> self.visited_nodes@[j] != (flood_id, initiator),
            decreases self.visited_nodes@.len() - i,
        {
            let (a, b) = self.visited_nodes[i];
            if a == flood_id && b == initiator {
                assert(self.visited_nodes@[i as int] == (flood_id, initiator));
                return true;
            }
            i = i + 1;
        }
        false
    }

    /// Handles a flood request received from a neighbour (`neighbours` are the
    /// nodes this client can send to). A repeated request, or a new one when
    /// the client has a single neighbour, is answered with a flood response
    /// sent one hop back; otherwise the request, extended with this client, is
    /// passed to every neighbour but the one before the client in the trace.
    pub fn handle_flood_req(&mut self, packet: Packet, neighbours: &Vec<NodeId>) -> (sends: Vec<(NodeId, Packet)>)
        requires
            old(self).well_formed(),
            packet@.pack_type is FloodRequest,
        ensures
            final(self).well_formed(),
            ({
                let f = packet@.pack_type->FloodRequest_0;
                let seen = old(self).has_seen(f.flood_id, f.initiator_id);
                let trace = f.path_trace.push((old(self).id, NodeKind::Client));
                &&& final(self).visited_nodes@ == if seen {
                    old(self).visited_nodes@
                } else {
                    old(self).visited_nodes@.push((f.flood_id, f.initiator_id))
                }
                &&& sends_view(sends@) == if seen || neighbours@.len() == 1 {
                    flood_step(neighbours@, client_response(old(self).id, packet@.session_id, f))
                } else if trace.len() >= 2 {
                    spread(
                        neighbours@,
                        trace[trace.len() - 2].0,
                        PacketView {
                            pack_type: PacketTypeView::FloodRequest(FloodRequestView { path_trace: trace, ..f }),
                            ..packet@
                        },
                    )
                } else {
                    Seq::empty()
                }
            }),
            final(self).id == old(self).id,
            final(self).servers@ == old(self).servers@,
            final(self).clients@ == old(self).clients@,
            final(self).problematic_nodes@ == old(self).problematic_nodes@,
            final(self).edges() == old(self).edges(),
            final(self).node_data@ == old(self).node_data@,
            final(self).fragments_sent@ == old(self).fragments_sent@,
            final(self).packet_sent@ == old(self).packet_sent@,
            final(self).session_id_packet == old(self).session_id_packet,
            final(self).unique_flood_id == old(self).unique_flood_id,
    {
        let Packet { pack_type, routing_header, session_id } = packet;
        match pack_type {
            PacketType::FloodRequest(flood) => {
                let seen = self.seen(flood.flood_id, flood.initiator_id);
                let mut flood = flood;
                flood.path_trace.push((self.id, NodeKind::Client));
                if !seen {
                    self.visited_nodes.push((flood.flood_id, flood.initiator_id));
                }
                if seen || neighbours.len() == 1 {
                    let response = flood.generate_response(session_id);
                    flood_next_hop(response, neighbours)
                } else {
                    let len = flood.path_trace.len();
                    if len >= 2 {
                        let (previous, _) = flood.path_trace[len - 2];
                        let forwarded = Packet {
                            pack_type: PacketType::FloodRequest(flood),
                            routing_header,
                            session_id,
                        };
                        spread_request(neighbours, previous, &forwarded)
                    } else {
                        let res: Vec<(NodeId, Packet)> = Vec::new();
                        assert(sends_view(res@) =~= Seq::<(NodeId, PacketView)>::empty());
                        res
                    }
                }
            },
            _ => {
                assert(false);
                Vec::new()
            },
        }
    }

    /// Starts a flood: a request with a fresh flood id, this client as the
    /// initiator and the only node of the trace, and an empty route.
    pub fn initiate_flooding(&mut self) -> (request: Packet)
        requires
            old(self).well_formed(),
            old(self).unique_flood_id < u64::MAX,
        ensures
            final(self).well_formed(),
            final(self).unique_flood_id == old(self).unique_flood_id + 1,
            request@ == (PacketView {
                pack_type: PacketTypeView::FloodRequest(
                    FloodRequestView {
                        flood_id: old(self).unique_flood_id,
                        initiator_id: old(self).id,
                        path_trace: seq![(old(self).id, NodeKind::Client)],
                    },
                ),
                routing_header: RouteView { hop_index: 0, hops: Seq::empty() },
                session_id: 0,
            }),
            final(self).id == old(self).id,
            final(self).visited_nodes@ == old(self).visited_nodes@,
            final(self).servers@ == old(self).servers@,
            final(self).clients@ == old(self).clients@,
            final(self).edges() == old(self).edges(),
    {
        let flood_id = self.unique_flood_id;
        self.unique_flood_id = self.unique_flood_id + 1;
        let mut trace: Vec<(NodeId, NodeKind)> = Vec::new();
        trace.push((self.id, NodeKind::Client));
        let request = Packet::new_flood_request(
            SourceRoutingHeader::empty_route(),
            0,
            FloodRequest { flood_id, initiator_id: self.id, path_trace: trace },
        );
        assert(request@.pack_type->FloodRequest_0.path_trace =~= seq![(self.id, NodeKind::Client)]);
        request
    }

    /// Moves a packet one hop on towards `next`, as sending does: the hop
    /// index advances; when `next` is not a neighbour, the edge to it is
    /// removed from the topology and nothing is returned.
    pub fn send_packet(&mut self, next: NodeId, packet: Packet, neighbours: &Vec<NodeId>) -> (res: Option<Packet>)
        requires
            old(self).well_formed(),
            packet@.routing_header.hop_index < usize::MAX,
        ensures
            final(self).well_formed(),
            neighbours@.contains(next) ==> (res matches Some(q) && q@ == (PacketView {
                routing_header: RouteView {
                    hop_index: (packet@.routing_header.hop_index + 1) as usize,
                    hops: packet@.routing_header.hops,
                },
                ..packet@
            }) && final(self).edges() == old(self).edges()),
            !neighbours@.contains(next) ==> res is None && final(self).edges() == old(self).edges().remove(
                (old(self).id, next),
            ).remove((next, old(self).id)),
            final(self).id == old(self).id,
            final(self).servers@ == old(self).servers@,
            final(self).clients@ == old(self).clients@,
            final(self).problematic_nodes@ == old(self).problematic_nodes@,
            final(self).node_data@ == old(self).node_data@,
            final(self).fragments_sent@ == old(self).fragments_sent@,
            final(self).packet_sent@ == old(self).packet_sent@,
    {
        let mut q = packet;
        q.routing_header.hop_index = q.routing_header.hop_index + 1;
        if contains_id(neighbours, next) {
            Some(q)
        } else {
            crate::graph::graph_remove_edge(&mut self.topology, self.id, next);
            None
        }
    }
}


/// The topology and statistics after learning the first `n` links of a path
/// trace `ids`: a link not yet known is added with weight 1, and both its
/// ends get fresh statistics; a known link changes nothing.
pub open spec fn learn_links(
    edges: Map<Edge, u32>,
    data: Map<NodeId, NodeData>,
    ids: Seq<NodeId>,
    n: int,
) -> (Map<Edge, u32>, Map<NodeId, NodeData>)
    decreases n,
{
    if n <= 0 {
        (edges, data)
    } else {
        let (e, d) = learn_links(edges, data, ids, n - 1);
        let a = ids[n - 1];
        let b = ids[n];
        if e.contains_key((a, b)) {
            (e, d)
        } else {
            (
                e.insert((a, b), 1).insert((b, a), 1),
                d.insert(a, NodeData { forwarded: 0, dropped: 0 }).insert(b, NodeData { forwarded: 0, dropped: 0 }),
            )
        }
    }
}

/// As `learn_links`, but every link is (re)set to weight 1 and both its ends
/// get fresh statistics, known or not.
pub open spec fn relearn_links(
    edges: Map<Edge, u32>,
    data: Map<NodeId, NodeData>,
    ids: Seq<NodeId>,
    n: int,
) -> (Map<Edge, u32>, Map<NodeId, NodeData>)
    decreases n,
{
    if n <= 0 {
        (edges, data)
    } else {
        let (e, d) = relearn_links(edges, data, ids, n - 1);
        let a = ids[n - 1];
        let b = ids[n];
        (
            e.insert((a, b), 1).insert((b, a), 1),
            d.insert(a, NodeData { forwarded: 0, dropped: 0 }).insert(b, NodeData { forwarded: 0, dropped: 0 }),
        )
    }
}

/// `list` extended, in trace order, with the nodes of the first `n` trace
/// entries that have the given kind and are not in it yet.
pub open spec fn discover(list: Seq<NodeId>, trace: Seq<(NodeId, NodeKind)>, kind: NodeKind, n: int) -> Seq<NodeId>
    decreases n,
{
    if n <= 0 {
        list
    } else {
        let l = discover(list, trace, kind, n - 1);
        if trace[n - 1].1 == kind && !l.contains(trace[n - 1].0) {
            l.push(trace[n - 1].0)
        } else {
            l
        }
    }
}

/// The number of links of a trace of `len` entries.
pub open spec fn link_count(len: nat) -> int {
    if len == 0 {
        0
    } else {
        len - 1
    }
}

impl ClientCore {
    fn learn_trace(&mut self, trace: &Vec<(NodeId, NodeKind)>, reset_known: bool)
        requires
            old(self).well_formed(),
        ensures
            final(self).well_formed(),
            final(self).edges() == (if reset_known {
                relearn_links(old(self).edges(), old(self).node_data@, trace_ids(trace@), link_count(trace@.len())).0
            } else {
                learn_links(old(self).edges(), old(self).node_data@, trace_ids(trace@), link_count(trace@.len())).0
            }),
            final(self).node_data@ == (if reset_known {
                relearn_links(old(self).edges(), old(self).node_data@, trace_ids(trace@), link_count(trace@.len())).1
            } else {
                learn_links(old(self).edges(), old(self).node_data@, trace_ids(trace@), link_count(trace@.len())).1
            }),
            final(self).id == old(self).id,
            final(self).servers@ == old(self).servers@,
            final(self).clients@ == old(self).clients@,
            final(self).visited_nodes@ == old(self).visited_nodes@,
            final(self).problematic_nodes@ == old(self).problematic_nodes@,
            final(self).fragments_sent@ == old(self).fragments_sent@,
            final(self).packet_sent@ == old(self).packet_sent@,
            final(self).flood@ == old(self).flood@,
            final(self).session_id_packet == old(self).session_id_packet,
            final(self).unique_flood_id == old(self).unique_flood_id,
            final(self).chat_servers@ == old(self).chat_servers@,
            final(self).text_servers@ == old(self).text_servers@,
            final(self).media_servers@ == old(self).media_servers@,
    {
        let ghost ids = trace_ids(trace@);
        let ghost e0 = old(self).edges();
        let ghost d0 = old(self).node_data@;
        let n = trace.len();
        if n == 0 {
            return;
        }
        let mut k: usize = 1;
        while k < n
            invariant
                n == trace@.len(),
                1 <= k <= n,
                ids == trace_ids(trace@),
                self.edges() == (if reset_known {
                    relearn_links(e0, d0, ids, k - 1).0
                } else {
                    learn_links(e0, d0, ids, k - 1).0
                }),
                self.node_data@ == (if reset_known {
                    relearn_links(e0, d0, ids, k - 1).1
                } else {
                    learn_links(e0, d0, ids, k - 1).1
                }),
                self.id == old(self).id,
                self.servers@ == old(self).servers@,
                self.clients@ == old(self).clients@,
                self.visited_nodes@ == old(self).visited_nodes@,
                self.problematic_nodes@ == old(self).problematic_nodes@,
                self.fragments_sent@ == old(self).fragments_sent@,
                self.packet_sent@ == old(self).packet_sent@,
                self.flood@ == old(self).flood@,
                self.session_id_packet == old(self).session_id_packet,
                self.unique_flood_id == old(self).unique_flood_id,
                self.chat_servers@ == old(self).chat_servers@,
                self.text_servers@ == old(self).text_servers@,
                self.media_servers@ == old(self).media_servers@,
                self.incoming_fragments@ == old(self).incoming_fragments@,
                symmetric(self.edges()),
            decreases n - k,
        {
            let (a, _) = trace[k - 1];
            let (b, _) = trace[k];
            assert(ids[k - 1] == a && ids[k as int] == b);
            if reset_known || !crate::graph::graph_contains_edge(&self.topology, a, b) {
                self.node_data.insert(a, NodeData::new());
                self.node_data.insert(b, NodeData::new());
                let ghost before = self.edges();
                crate::graph::graph_add_edge(&mut self.topology, a, b, 1);
                proof {
                    lemma_add_link_symmetric(before, a, b, 1);
                }
            }
            k = k + 1;
        }
    }

    fn discover_nodes(&mut self, trace: &Vec<(NodeId, NodeKind)>)
        requires
            old(self).well_formed(),
        ensures
            final(self).well_formed(),
            final(self).servers@ == discover(old(self).servers@, trace@, NodeKind::Server, trace@.len() as int),
            final(self).clients@ == discover(old(self).clients@, trace@, NodeKind::Client, trace@.len() as int),
            final(self).id == old(self).id,
            final(self).edges() == old(self).edges(),
            final(self).node_data@ == old(self).node_data@,
            final(self).visited_nodes@ == old(self).visited_nodes@,
            final(self).problematic_nodes@ == old(self).problematic_nodes@,
            final(self).fragments_sent@ == old(self).fragments_sent@,
            final(self).packet_sent@ == old(self).packet_sent@,
            final(self).flood@ == old(self).flood@,
            final(self).session_id_packet == old(self).session_id_packet,
            final(self).unique_flood_id == old(self).unique_flood_id,
            final(self).chat_servers@ == old(self).chat_servers@,
            final(self).text_servers@ == old(self).text_servers@,
            final(self).media_servers@ == old(self).media_servers@,
    {
        let mut k: usize = 0;
        while k < trace.len()
            invariant
                k <= trace@.len(),
                self.servers@ == discover(old(self).servers@, trace@, NodeKind::Server, k as int),
                self.clients@ == discover(old(self).clients@, trace@, NodeKind::Client, k as int),
                self.id == old(self).id,
                self.edges() == old(self).edges(),
                self.node_data@ == old(self).node_data@,
                self.visited_nodes@ == old(self).visited_nodes@,
                self.problematic_nodes@ == old(self).problematic_nodes@,
                self.fragments_sent@ == old(self).fragments_sent@,
                self.packet_sent@ == old(self).packet_sent@,
                self.flood@ == old(self).flood@,
                self.session_id_packet == old(self).session_id_packet,
                self.unique_flood_id == old(self).unique_flood_id,
                self.chat_servers@ == old(self).chat_servers@,
                self.text_servers@ == old(self).text_servers@,
                self.media_servers@ == old(self).media_servers@,
                self.incoming_fragments@ == old(self).incoming_fragments@,
            decreases trace@.len() - k,
        {
            let (node, kind) = trace[k];
            if kind == NodeKind::Server {
                push_unique(&mut self.servers, node);
            }
            if kind == NodeKind::Client {
                push_unique(&mut self.clients, node);
            }
            k = k + 1;
        }
    }

    /// Handles a flood response. Its links are learnt (see `learn_links`;
    /// with `reset_known`, see `relearn_links`, and only for a non-empty
    /// trace). A response whose trace does not start at this client is passed
    /// one hop on; one that does adds its servers and clients to those known
    /// and is kept.
    pub fn handle_flood_response(&mut self, packet: Packet, neighbours: &Vec<NodeId>, reset_known: bool) -> (sends: Vec<(NodeId, Packet)>)
        requires
            old(self).well_formed(),
            packet@.pack_type is FloodResponse,
            ({
                let t = packet@.pack_type->FloodResponse_0.path_trace;
                t.len() >= 1 && t[0] != (old(self).id, NodeKind::Client) ==> packet@.routing_header.hops.len() >= 1
            }),
        ensures
            final(self).well_formed(),
            ({
                let t = packet@.pack_type->FloodResponse_0.path_trace;
                let learnt = if reset_known {
                    relearn_links(old(self).edges(), old(self).node_data@, trace_ids(t), link_count(t.len()))
                } else {
                    learn_links(old(self).edges(), old(self).node_data@, trace_ids(t), link_count(t.len()))
                };
                let mine = t.len() >= 1 && t[0] == (old(self).id, NodeKind::Client);
                &&& final(self).edges() == learnt.0
                &&& final(self).node_data@ == learnt.1
                &&& sends_view(sends@) == if t.len() >= 1 && !mine {
                    flood_step(neighbours@, packet@)
                } else {
                    Seq::empty()
                }
                &&& final(self).servers@ == if mine {
                    discover(old(self).servers@, t, NodeKind::Server, t.len() as int)
                } else {
                    old(self).servers@
                }
                &&& final(self).clients@ == if mine {
                    discover(old(self).clients@, t, NodeKind::Client, t.len() as int)
                } else {
                    old(self).clients@
                }
                &&& final(self).flood@.len() == old(self).flood@.len() + if mine { 1int } else { 0int }
                &&& mine ==> final(self).flood@.last()@ == packet@.pack_type->FloodResponse_0
            }),
            final(self).id == old(self).id,
            final(self).visited_nodes@ == old(self).visited_nodes@,
            final(self).problematic_nodes@ == old(self).problematic_nodes@,
            final(self).fragments_sent@ == old(self).fragments_sent@,
            final(self).packet_sent@ == old(self).packet_sent@,
            final(self).session_id_packet == old(self).session_id_packet,
    {
        let Packet { pack_type, routing_header, session_id } = packet;
        match pack_type {
            PacketType::FloodResponse(response) => {
                if response.path_trace.len() == 0 {
                    let res: Vec<(NodeId, Packet)> = Vec::new();
                    proof {
                        assert(relearn_links(self.edges(), self.node_data@, trace_ids(response.path_trace@), 0)
                            == (self.edges(), self.node_data@));
                        assert(learn_links(self.edges(), self.node_data@, trace_ids(response.path_trace@), 0)
                            == (self.edges(), self.node_data@));
                        assert(sends_view(res@) =~= Seq::<(NodeId, PacketView)>::empty());
                    }
                    return res;
                }
                self.learn_trace(&response.path_trace, reset_known);
                let (first, kind) = response.path_trace[0];
                if first != self.id || kind != NodeKind::Client {
                    let forwarded = Packet {
                        pack_type: PacketType::FloodResponse(response),
                        routing_header,
                        session_id,
                    };
                    return flood_next_hop(forwarded, neighbours);
                }
                self.discover_nodes(&response.path_trace);
                self.flood.push(response);
                let res: Vec<(NodeId, Packet)> = Vec::new();
                assert(sends_view(res@) =~= Seq::<(NodeId, PacketView)>::empty());
                res
            },
            _ => {
                assert(false);
                Vec::new()
            },
        }
    }
}


/// Why a request was not sent.
#[derive(Clone, Copy, Debug, PartialEq, Eq, Structural)]
pub enum RequestError {
    /// The destination is not a server found by flooding.
    UnknownServer,
    /// No route to the destination.
    Unroutable(RouteError),
}

impl ClientCore {
    /// Handles an ack: problematic nodes are forgotten, the session whose id
    /// equals the acknowledged fragment index is dropped from the fragments
    /// kept for resending, and the node before this client on the ack's
    /// route is credited with a forwarded fragment.
    pub fn handle_ack(&mut self, packet: &Packet)
        requires
            old(self).well_formed(),
            packet@.pack_type is Ack,
            packet@.routing_header.hops.len() >= 2,
            old(self).node_data@.contains_key(packet@.routing_header.hops[packet@.routing_header.hops.len() - 2]),
            old(self).node_data@[packet@.routing_header.hops[packet@.routing_header.hops.len() - 2]].forwarded < u32::MAX,
        ensures
            final(self).well_formed(),
            ({
                let h = packet@.routing_header.hops[packet@.routing_header.hops.len() - 2];
                let d = old(self).node_data@[h];
                &&& final(self).problematic_nodes@ == Seq::<NodeId>::empty()
                &&& final(self).fragments_sent@ == old(self).fragments_sent@.remove(
                    packet@.pack_type->Ack_0.fragment_index,
                )
                &&& final(self).node_data@ == old(self).node_data@.insert(
                    h,
                    NodeData { forwarded: (d.forwarded + 1) as u32, dropped: d.dropped },
                )
            }),
            final(self).id == old(self).id,
            final(self).edges() == old(self).edges(),
            final(self).servers@ == old(self).servers@,
            final(self).clients@ == old(self).clients@,
            final(self).packet_sent@ == old(self).packet_sent@,
            final(self).session_id_packet == old(self).session_id_packet,
    {
        match &packet.pack_type {
            PacketType::Ack(ack) => {
                self.problematic_nodes.clear();
                self.fragments_sent.remove(&ack.fragment_index);
                let n = packet.routing_header.hops.len();
                let h = packet.routing_header.hops[n - 2];
                let d = *self.node_data.get(&h).unwrap();
                self.node_data.insert(h, NodeData { forwarded: d.forwarded + 1, dropped: d.dropped });
            },
            _ => {},
        }
    }

    /// The resend of a fragment a nack reported lost: the fragment with the
    /// nack's index among those kept for the session, on a fresh route to the
    /// session's destination, with the neighbour it goes to first. Nothing
    /// when the fragment or the destination is unknown, or no route is found.
    pub fn resend_fragment_lost(&self, session_id: u64, fragment_index: u64, base: &Vec<u32>) -> (res: Option<(NodeId, Packet)>)
        requires
            valid_costs(base@),
        ensures
            !self.fragments_sent@.contains_key(session_id) ==> res is None,
            !self.packet_sent@.contains_key(session_id) ==> res is None,
            (self.fragments_sent@.contains_key(session_id) && forall|i: int|
                0 <= i < self.fragments_sent@[session_id]@.len() ==> (#[trigger] self.fragments_sent@[session_id]@[i]).fragment_index
                    != fragment_index) ==> res is None,
            (self.packet_sent@.contains_key(session_id) && !exists|w: Seq<NodeId>|
                walk_between(self.edges(), w, self.id, self.packet_sent@[session_id])) ==> res is None,
            (self.packet_sent@.contains_key(session_id) && self.packet_sent@[session_id] == self.id) ==> res is None,
            ({
                let dest = self.packet_sent@[session_id];
                &&& self.fragments_sent@.contains_key(session_id)
                &&& self.packet_sent@.contains_key(session_id)
                &&& exists|i: int|
                    0 <= i < self.fragments_sent@[session_id]@.len() && (#[trigger] self.fragments_sent@[session_id]@[i]).fragment_index
                        == fragment_index
                &&& dest != self.id
                &&& exists|w: Seq<NodeId>| walk_between(self.edges(), w, self.id, dest)
                &&& weights_agree_on_cheapest(
                    self.edges(),
                    self.id,
                    dest,
                    self.search_costs(dest, base@),
                    self.trace_costs(base@),
                )
            }) ==> res is Some,
            res matches Some((next, p)) ==> {
                let dest = self.packet_sent@[session_id];
                let route = p@.routing_header.hops;
                &&& self.fragments_sent@.contains_key(session_id)
                &&& self.packet_sent@.contains_key(session_id)
                &&& p@.pack_type matches PacketTypeView::MsgFragment(f) && f.fragment_index == fragment_index
                    && self.fragments_sent@[session_id]@.contains(f)
                &&& exists|i: int|
                    0 <= i < self.fragments_sent@[session_id]@.len() && self.fragments_sent@[session_id]@[i]
                        == p@.pack_type->MsgFragment_0 && forall|j: int|
                        0 <= j < i ==> (#[trigger] self.fragments_sent@[session_id]@[j]).fragment_index != fragment_index
                &&& p@ == fragment_packet(p@.pack_type->MsgFragment_0, route, session_id)
                &&& walk_between(self.edges(), route, self.id, dest)
                &&& route.len() >= 2
                &&& next == route[1]
                &&& forall|w: Seq<NodeId>| walk_between(self.edges(), w, self.id, dest) ==> walk_cost(
                    route,
                    self.trace_costs(base@),
                ) <= walk_cost(w, self.search_costs(dest, base@))
            },
    {
        let fragments = match self.fragments_sent.get(&session_id) {
            Some(f) => f,
            None => {
                return None;
            },
        };
        let fragment = match find_fragment(fragments, fragment_index) {
            Some(f) => f,
            None => {
                return None;
            },
        };
        let destination = match self.packet_sent.get(&session_id) {
            Some(d) => *d,
            None => {
                return None;
            },
        };
        match self.find_best_route(destination, base) {
            Ok(route) => {
                proof {
                    if destination == self.id {
                        assert(walk_between(self.edges(), seq![self.id], self.id, destination));
                        assert(walk_cost(seq![self.id], self.search_costs(destination, base@)) == 0);
                        lemma_walk_cost_lower(route@, self.trace_costs(base@));
                    }
                }
                if route.len() >= 2 {
                    let next = route[1];
                    let packet = Packet::new_fragment(SourceRoutingHeader::new(route, 0), session_id, fragment);
                    Some((next, packet))
                } else {
                    None
                }
            },
            Err(_) => None,
        }
    }

    /// Handles a nack. ErrorInRouting(x): `x` is marked problematic and the
    /// link between the nack's first hop and `x` is forgotten; Dropped: the
    /// nack's first hop is charged with a dropped fragment. In both cases the
    /// lost fragment is resent (see `resend_fragment_lost`, on the updated
    /// state), and a resend is owed whenever `resend_fragment_lost` owes one
    /// there. Other nacks change nothing.
    pub fn handle_nack(&mut self, packet: &Packet, base: &Vec<u32>) -> (res: Option<(NodeId, Packet)>)
        requires
            old(self).well_formed(),
            valid_costs(base@),
            packet@.pack_type is Nack,
            packet@.routing_header.hops.len() >= 1,
            packet@.pack_type->Nack_0.nack_type is Dropped ==> old(self).node_data@.contains_key(
                packet@.routing_header.hops[0],
            ) && old(self).node_data@[packet@.routing_header.hops[0]].dropped < u32::MAX,
        ensures
            final(self).well_formed(),
            ({
                let nack = packet@.pack_type->Nack_0;
                let first = packet@.routing_header.hops[0];
                match nack.nack_type {
                    NackType::ErrorInRouting(x) => {
                        &&& final(self).problematic_nodes@ == if old(self).problematic_nodes@.contains(x) {
                            old(self).problematic_nodes@
                        } else {
                            old(self).problematic_nodes@.push(x)
                        }
                        &&& final(self).edges() == old(self).edges().remove((first, x)).remove((x, first))
                        &&& final(self).node_data@ == old(self).node_data@
                    },
                    NackType::Dropped => {
                        let d = old(self).node_data@[first];
                        &&& final(self).problematic_nodes@ == old(self).problematic_nodes@
                        &&& final(self).edges() == old(self).edges()
                        &&& final(self).node_data@ == old(self).node_data@.insert(
                            first,
                            NodeData { forwarded: d.forwarded, dropped: (d.dropped + 1) as u32 },
                        )
                    },
                    _ => {
                        &&& final(self).problematic_nodes@ == old(self).problematic_nodes@
                        &&& final(self).edges() == old(self).edges()
                        &&& final(self).node_data@ == old(self).node_data@
                        &&& res is None
                    },
                }
            }),
            final(self).id == old(self).id,
            final(self).servers@ == old(self).servers@,
            final(self).clients@ == old(self).clients@,
            final(self).fragments_sent@ == old(self).fragments_sent@,
            final(self).packet_sent@ == old(self).packet_sent@,
            final(self).session_id_packet == old(self).session_id_packet,
            ({
                let sid = packet@.session_id;
                let nack = packet@.pack_type->Nack_0;
                let dest = final(self).packet_sent@[sid];
                &&& (nack.nack_type is ErrorInRouting || nack.nack_type is Dropped)
                &&& final(self).fragments_sent@.contains_key(sid)
                &&& final(self).packet_sent@.contains_key(sid)
                &&& exists|i: int|
                    0 <= i < final(self).fragments_sent@[sid]@.len() && (#[trigger] final(self).fragments_sent@[sid]@[i]).fragment_index
                        == nack.fragment_index
                &&& dest != final(self).id
                &&& exists|w: Seq<NodeId>| walk_between(final(self).edges(), w, final(self).id, dest)
                &&& weights_agree_on_cheapest(
                    final(self).edges(),
                    final(self).id,
                    dest,
                    final(self).search_costs(dest, base@),
                    final(self).trace_costs(base@),
                )
            }) ==> res is Some,
            !final(self).fragments_sent@.contains_key(packet@.session_id) ==> res is None,
            !final(self).packet_sent@.contains_key(packet@.session_id) ==> res is None,
            res matches Some((next, p)) ==> {
                let dest = final(self).packet_sent@[packet@.session_id];
                let route = p@.routing_header.hops;
                &&& p@.pack_type matches PacketTypeView::MsgFragment(f) && f.fragment_index
                    == packet@.pack_type->Nack_0.fragment_index && final(self).fragments_sent@[packet@.session_id]@.contains(f)
                &&& p@ == fragment_packet(p@.pack_type->MsgFragment_0, route, packet@.session_id)
                &&& walk_between(final(self).edges(), route, final(self).id, dest)
                &&& route.len() >= 2
                &&& next == route[1]
                &&& forall|w: Seq<NodeId>| walk_between(final(self).edges(), w, final(self).id, dest) ==> walk_cost(
                    route,
                    final(self).trace_costs(base@),
                ) <= walk_cost(w, final(self).search_costs(dest, base@))
            },
    {
        match &packet.pack_type {
            PacketType::Nack(nack) => {
                let first = packet.routing_header.hops[0];
                match nack.nack_type {
                    NackType::ErrorInRouting(x) => {
                        push_unique(&mut self.problematic_nodes, x);
                        crate::graph::graph_remove_edge(&mut self.topology, first, x);
                        self.resend_fragment_lost(packet.session_id, nack.fragment_index, base)
                    },
                    NackType::Dropped => {
                        let d = *self.node_data.get(&first).unwrap();
                        self.node_data.insert(first, NodeData { forwarded: d.forwarded, dropped: d.dropped + 1 });
                        self.resend_fragment_lost(packet.session_id, nack.fragment_index, base)
                    },
                    _ => None,
                }
            },
            _ => None,
        }
    }

    /// Prepares a request to a server: a fresh session id is taken, the
    /// fragments are kept for resending, and on a route found to the server
    /// the packets are built (one per fragment) and the session's destination
    /// recorded. A destination that is not a known server changes nothing.
    #[verifier::rlimit(60)]
    pub fn begin_request(&mut self, destination: NodeId, fragments: Vec<Fragment>, base: &Vec<u32>) -> (res: Result<(Vec<NodeId>, Vec<Packet>), RequestError>)
        requires
            old(self).well_formed(),
            valid_costs(base@),
            old(self).session_id_packet < u64::MAX,
        ensures
            final(self).well_formed(),
            !old(self).servers@.contains(destination) ==> res == Err::<(Vec<NodeId>, Vec<Packet>), RequestError>(
                RequestError::UnknownServer,
            ) && final(self).session_id_packet == old(self).session_id_packet
                && final(self).fragments_sent@ == old(self).fragments_sent@
                && final(self).packet_sent@ == old(self).packet_sent@,
            old(self).servers@.contains(destination) ==> {
                let session = old(self).session_id_packet;
                &&& final(self).session_id_packet == session + 1
                &&& final(self).fragments_sent@.contains_key(session)
                &&& final(self).fragments_sent@[session]@ == fragments@
                &&& final(self).fragments_sent@.remove(session) == old(self).fragments_sent@.remove(session)
                &&& res is Err ==> final(self).packet_sent@ == old(self).packet_sent@
                &&& res matches Err(e) ==> e is Unroutable
                &&& (res == Err::<(Vec<NodeId>, Vec<Packet>), RequestError>(RequestError::Unroutable(RouteError::NoRoute)))
                    <==> !exists|w: Seq<NodeId>| walk_between(old(self).edges(), w, old(self).id, destination)
                &&& ((exists|w: Seq<NodeId>| walk_between(old(self).edges(), w, old(self).id, destination))
                    && weights_agree_on_cheapest(
                    old(self).edges(),
                    old(self).id,
                    destination,
                    old(self).search_costs(destination, base@),
                    old(self).trace_costs(base@),
                )) ==> res is Ok
                &&& res matches Ok((route, packets)) ==> {
                    &&& final(self).packet_sent@ == old(self).packet_sent@.insert(session, destination)
                    &&& walk_between(old(self).edges(), route@, old(self).id, destination)
                    &&& forall|w: Seq<NodeId>| walk_between(old(self).edges(), w, old(self).id, destination) ==> walk_cost(
                        route@,
                        old(self).trace_costs(base@),
                    ) <= walk_cost(w, old(self).search_costs(destination, base@))
                    &&& packets@.len() == fragments@.len()
                    &&& forall|i: int| 0 <= i < packets@.len() ==> (#[trigger] packets@[i])@ == fragment_packet(
                        fragments@[i],
                        route@,
                        session,
                    )
                }
            },
            final(self).id == old(self).id,
            final(self).edges() == old(self).edges(),
            final(self).servers@ == old(self).servers@,
            final(self).clients@ == old(self).clients@,
            final(self).problematic_nodes@ == old(self).problematic_nodes@,
            final(self).node_data@ == old(self).node_data@,
    {
        if !contains_id(&self.servers, destination) {
            return Err(RequestError::UnknownServer);
        }
        let session = self.session_id_packet;
        self.session_id_packet = self.session_id_packet + 1;
        let route = self.find_best_route(destination, base);
        assert(self.edges() == old(self).edges());
        assert(self.id == old(self).id);
        match route {
            Err(e) => {
                self.fragments_sent.insert(session, fragments);
                proof {
                    assert(self.fragments_sent@.remove(session) =~= old(self).fragments_sent@.remove(session));
                }
                Err(RequestError::Unroutable(e))
            },
            Ok(route) => {
                assert(walk_between(old(self).edges(), route@, old(self).id, destination));
                let packets = create_packet(&fragments, &route, session);
                self.fragments_sent.insert(session, fragments);
                self.packet_sent.insert(session, destination);
                proof {
                    assert(self.fragments_sent@.remove(session) =~= old(self).fragments_sent@.remove(session));
                }
                Ok((route, packets))
            },
        }
    }

    /// Records the answer of `src` to a type request from a chat client:
    /// a communication server joins the chat servers (once).
    pub fn note_chat_server(&mut self, src: NodeId, server_type: ServerType)
        requires
            old(self).well_formed(),
        ensures
            final(self).well_formed(),
            final(self).id == old(self).id,
            final(self).chat_servers@ == if server_type == ServerType::CommunicationServer
                && !old(self).chat_servers@.contains(src) {
                old(self).chat_servers@.push(src)
            } else {
                old(self).chat_servers@
            },
            final(self).text_servers@ == old(self).text_servers@,
            final(self).media_servers@ == old(self).media_servers@,
    {
        if server_type == ServerType::CommunicationServer {
            push_unique(&mut self.chat_servers, src);
        }
    }

    /// Records the answer of `src` to a type request from a web browser, when
    /// it came as a text server message: a text server joins the text servers (once).
    pub fn note_text_server(&mut self, src: NodeId, server_type: ServerType)
        requires
            old(self).well_formed(),
        ensures
            final(self).well_formed(),
            final(self).id == old(self).id,
            final(self).text_servers@ == if server_type == ServerType::TextServer && !old(self).text_servers@.contains(src) {
                old(self).text_servers@.push(src)
            } else {
                old(self).text_servers@
            },
            final(self).chat_servers@ == old(self).chat_servers@,
            final(self).media_servers@ == old(self).media_servers@,
    {
        if server_type == ServerType::TextServer {
            push_unique(&mut self.text_servers, src);
        }
    }

    /// Records the answer of `src` to a type request from a web browser, when
    /// it came as a media server message: a media server joins the media servers (once).
    pub fn note_media_server(&mut self, src: NodeId, server_type: ServerType)
        requires
            old(self).well_formed(),
        ensures
            final(self).well_formed(),
            final(self).id == old(self).id,
            final(self).media_servers@ == if server_type == ServerType::MediaServer && !old(self).media_servers@.contains(src) {
                old(self).media_servers@.push(src)
            } else {
                old(self).media_servers@
            },
            final(self).chat_servers@ == old(self).chat_servers@,
            final(self).text_servers@ == old(self).text_servers@,
    {
        if server_type == ServerType::MediaServer {
            push_unique(&mut self.media_servers, src);
        }
    }
}


/// The weights after every link at `node` is set to 1.
pub open spec fn links_reset(edges: Map<Edge, u32>, node: NodeId) -> Map<Edge, u32> {
    Map::new(
        |e: Edge| edges.contains_key(e),
        |e: Edge| if e.0 == node || e.1 == node { 1u32 } else { edges[e] },
    )
}

/// A link map that lists every link under both orientations with one weight.
pub open spec fn symmetric(edges: Map<Edge, u32>) -> bool {
    forall|a: NodeId, b: NodeId| #[trigger] edges.contains_key((a, b)) ==> edges.contains_key((b, a)) && edges[(b, a)] == edges[(a, b)]
}

impl ClientCore {
    /// After a drone's drop rate changed: its statistics are reset, and every
    /// link at it is given weight 1 again.
    pub fn reset_data(&mut self, node_id: NodeId)
        requires
            old(self).well_formed(),
        ensures
            final(self).well_formed(),
            final(self).node_data@ == if old(self).node_data@.contains_key(node_id) {
                old(self).node_data@.insert(node_id, NodeData { forwarded: 0, dropped: 0 })
            } else {
                old(self).node_data@
            },
            final(self).edges() == links_reset(old(self).edges(), node_id),
            symmetric(final(self).edges()),
            final(self).id == old(self).id,
            final(self).servers@ == old(self).servers@,
            final(self).clients@ == old(self).clients@,
            final(self).problematic_nodes@ == old(self).problematic_nodes@,
            final(self).fragments_sent@ == old(self).fragments_sent@,
            final(self).packet_sent@ == old(self).packet_sent@,
    {
        if self.node_data.contains_key(&node_id) {
            self.node_data.insert(node_id, NodeData::new());
        }
        let neighbors = crate::graph::graph_neighbors(&self.topology, node_id);
        let ghost e0 = self.edges();
        let mut i: usize = 0;
        while i < neighbors.len()
            invariant
                i <= neighbors@.len(),
                neighbors@.no_duplicates(),
                symmetric(e0),
                forall|x: NodeId| neighbors@.contains(x) <==> e0.contains_key((node_id, x)),
                self.edges().dom() == e0.dom(),
                forall|e: Edge| #[trigger] self.edges().contains_key(e) ==> self.edges()[e] == if (e.0 == node_id
                    && neighbors@.subrange(0, i as int).contains(e.1)) || (e.1 == node_id && neighbors@.subrange(
                    0,
                    i as int,
                ).contains(e.0)) {
                    1u32
                } else {
                    e0[e]
                },
                self.id == old(self).id,
                self.servers@ == old(self).servers@,
                self.clients@ == old(self).clients@,
                self.problematic_nodes@ == old(self).problematic_nodes@,
                self.fragments_sent@ == old(self).fragments_sent@,
                self.packet_sent@ == old(self).packet_sent@,
                self.incoming_fragments@ == old(self).incoming_fragments@,
                self.node_data@ == (if old(self).node_data@.contains_key(node_id) {
                    old(self).node_data@.insert(node_id, NodeData { forwarded: 0, dropped: 0 })
                } else {
                    old(self).node_data@
                }),
            decreases neighbors@.len() - i,
        {
            let x = neighbors[i];
            let ghost before = self.edges();
            assert(neighbors@.contains(x));
            crate::graph::graph_add_edge(&mut self.topology, node_id, x, 1);
            proof {
                let sub = neighbors@.subrange(0, i as int + 1);
                assert(sub =~= neighbors@.subrange(0, i as int).push(x));
                assert forall|y: NodeId| sub.contains(y) <==> (neighbors@.subrange(0, i as int).contains(y) || y == x) by {
                    if sub.contains(y) {
                        let j = choose|j: int| 0 <= j < sub.len() && sub[j] == y;
                        if j < i {
                            assert(neighbors@.subrange(0, i as int)[j] == y);
                        }
                    }
                    if y == x {
                        assert(sub[i as int] == y);
                    }
                    if neighbors@.subrange(0, i as int).contains(y) {
                        let j = choose|j: int| 0 <= j < i && neighbors@.subrange(0, i as int)[j] == y;
                        assert(sub[j] == y);
                    }
                }
                assert(e0.contains_key((x, node_id)));
                assert(self.edges().dom() =~= e0.dom());
            }
            i = i + 1;
        }
        proof {
            assert(neighbors@.subrange(0, neighbors@.len() as int) =~= neighbors@);
            assert forall|e: Edge| #[trigger] self.edges().contains_key(e) implies self.edges()[e] == links_reset(e0, node_id)[e] by {
                if e.1 == node_id && e0.contains_key(e) {
                    assert(e0.contains_key((node_id, e.0)));
                }
            }
            assert(self.edges() =~= links_reset(e0, node_id));
        }
    }
}


/// Distinct sessions or sources give distinct keys.
pub proof fn lemma_pending_key_injective(s1: u64, a: NodeId, s2: u64, b: NodeId)
    ensures
        pending_key(s1, a) == pending_key(s2, b) <==> (s1 == s2 && a == b),
{
    assert(s1 * 256 + a < 0x1_0000_0000_0000_0000_00) by (nonlinear_arith)
        requires s1 <= 0xffff_ffff_ffff_ffff, a <= 255;
    assert(s2 * 256 + b < 0x1_0000_0000_0000_0000_00) by (nonlinear_arith)
        requires s2 <= 0xffff_ffff_ffff_ffff, b <= 255;
    if s1 * 256 + a == s2 * 256 + b {
        assert(s1 == s2 && a == b) by (nonlinear_arith)
            requires s1 * 256 + a == s2 * 256 + b, 0 <= a <= 255, 0 <= b <= 255, s1 >= 0, s2 >= 0;
    }
}

/// The key under which the fragments of a session from a source are kept.
pub fn make_pending_key(session_id: u64, source: NodeId) -> (k: u128)
    ensures
        k == pending_key(session_id, source),
{
    proof {
        lemma_pending_key_injective(session_id, source, session_id, source);
    }
    (session_id as u128) * 256 + (source as u128)
}

impl ClientCore {
    /// The fragments received so far of a session from a source.
    pub open spec fn received(&self, session_id: u64, source: NodeId) -> Seq<Fragment> {
        let k = pending_key(session_id, source);
        if self.incoming_fragments@.contains_key(k) {
            self.incoming_fragments@[k]@
        } else {
            Seq::empty()
        }
    }

    /// Stores a received fragment of a session from a source (replacing one
    /// with the same index). When the fragments received then number as many
    /// as the fragment's total, the message is complete: its bytes, the
    /// payloads in index order, are returned, and with `forget_complete` its
    /// fragments are dropped.
    pub fn collect_fragment(&mut self, session_id: u64, source: NodeId, f: Fragment, forget_complete: bool) -> (res: Option<Vec<u8>>)
        requires
            old(self).well_formed(),
            f.length <= 128,
        ensures
            final(self).well_formed(),
            pending_ok(final(self).incoming_fragments@),
            ({
                let k = pending_key(session_id, source);
                let frags = insert_fragment(old(self).received(session_id, source), f);
                let complete = frags.len() == f.total_n_fragments;
                &&& complete <==> res is Some
                &&& res matches Some(b) ==> b@ == concat_payloads(frags)
                &&& final(self).incoming_fragments@ == if complete && forget_complete {
                    old(self).incoming_fragments@.remove(k)
                } else {
                    old(self).incoming_fragments@.insert(k, final(self).incoming_fragments@[k])
                }
                &&& !(complete && forget_complete) ==> final(self).incoming_fragments@[k]@ == frags
            }),
            final(self).id == old(self).id,
            final(self).edges() == old(self).edges(),
            final(self).servers@ == old(self).servers@,
            final(self).clients@ == old(self).clients@,
            final(self).node_data@ == old(self).node_data@,
            final(self).fragments_sent@ == old(self).fragments_sent@,
            final(self).packet_sent@ == old(self).packet_sent@,
    {
        let k = make_pending_key(session_id, source);
        let mut frags: Vec<Fragment> = match self.incoming_fragments.get(&k) {
            Some(v) => copy_fragments(v),
            None => Vec::new(),
        };
        assert(frags@ == old(self).received(session_id, source));
        assert(sorted_by_index(frags@));
        add_fragment(&mut frags, f);
        proof {
            let old_frags = old(self).received(session_id, source);
            assert forall|i: int| 0 <= i < frags@.len() implies (#[trigger] frags@[i]).length <= 128 by {
                if frags@[i] != f {
                    let j = choose|j: int| 0 <= j < old_frags.len() && old_frags[j] == frags@[i];
                    assert(old_frags[j].length <= 128);
                }
            }
        }
        let complete = (frags.len() as u64) == f.total_n_fragments;
        if complete {
            let bytes = reassemble(&frags);
            if forget_complete {
                self.incoming_fragments.remove(&k);
            } else {
                self.incoming_fragments.insert(k, frags);
            }
            Some(bytes)
        } else {
            self.incoming_fragments.insert(k, frags);
            None
        }
    }
}


/// Adding a link under both orientations keeps a link map undirected.
pub proof fn lemma_add_link_symmetric(edges: Map<Edge, u32>, a: NodeId, b: NodeId, w: u32)
    requires
        symmetric(edges),
    ensures
        symmetric(edges.insert((a, b), w).insert((b, a), w)),
{
    let e = edges.insert((a, b), w).insert((b, a), w);
    assert forall|x: NodeId, y: NodeId| #[trigger] e.contains_key((x, y)) implies e.contains_key((y, x)) && e[(y, x)] == e[(x, y)] by {
        if !((x == a && y == b) || (x == b && y == a)) {
            assert(edges.contains_key((x, y)));
        }
    }
}

/// Removing a link under both orientations keeps a link map undirected.
pub proof fn lemma_remove_link_symmetric(edges: Map<Edge, u32>, a: NodeId, b: NodeId)
    requires
        symmetric(edges),
    ensures
        symmetric(edges.remove((a, b)).remove((b, a))),
{
    let e = edges.remove((a, b)).remove((b, a));
    assert forall|x: NodeId, y: NodeId| #[trigger] e.contains_key((x, y)) implies e.contains_key((y, x)) && e[(y, x)] == e[(x, y)] by {
        assert(edges.contains_key((x, y)));
    }
}

} // verus!
