use vstd::prelude::*;
use petgraph::graphmap::{GraphMap, UnGraphMap};
use std::collections::HashMap;
use std::hash::BuildHasher;
use crate::packet::NodeId;

verus! {

#[verifier::external_type_specification]
#[verifier::external_body]
#[verifier::reject_recursive_types(N)]
#[verifier::reject_recursive_types(E)]
#[verifier::reject_recursive_types(Ty)]
#[verifier::reject_recursive_types(S)]
pub struct ExGraphMap<N, E, Ty, S: BuildHasher>(GraphMap<N, E, Ty, S>);

#[verifier::external_type_specification]
#[verifier::external_body]
pub struct ExUndirected(petgraph::Undirected);

/// An edge, as the pair of its end points.
pub type Edge = (NodeId, NodeId);

/// The edges of an undirected graph map, with their weights: an edge between
/// `a` and `b` appears under both `(a, b)` and `(b, a)`.
pub uninterp spec fn graph_edges(g: UnGraphMap<NodeId, u32>) -> Map<Edge, u32>;

/// `petgraph::graphmap::GraphMap::new`: a graph without edges.
#[verifier::external_body]
pub(crate) fn graph_new() -> (g: UnGraphMap<NodeId, u32>)
    ensures
        graph_edges(g).dom() == Set::<Edge>::empty(),
{
    UnGraphMap::new()
}


/// `petgraph::graphmap::GraphMap::add_edge`: adds the edge between `a` and `b`
/// with weight `weight`, or replaces its weight; returns the old weight.
#[verifier::external_body]
pub(crate) fn graph_add_edge(g: &mut UnGraphMap<NodeId, u32>, a: NodeId, b: NodeId, weight: u32) -> (old_weight: Option<u32>)
    ensures
        graph_edges(*final(g)) == graph_edges(*old(g)).insert((a, b), weight).insert((b, a), weight),
        old_weight == if graph_edges(*old(g)).contains_key((a, b)) {
            Some(graph_edges(*old(g))[(a, b)])
        } else {
            None::<u32>
        },
{
    g.add_edge(a, b, weight)
}

/// `petgraph::graphmap::GraphMap::remove_edge`: removes the edge between `a`
/// and `b`; returns its weight, if it existed.
#[verifier::external_body]
pub(crate) fn graph_remove_edge(g: &mut UnGraphMap<NodeId, u32>, a: NodeId, b: NodeId) -> (old_weight: Option<u32>)
    ensures
        graph_edges(*final(g)) == graph_edges(*old(g)).remove((a, b)).remove((b, a)),
        old_weight == if graph_edges(*old(g)).contains_key((a, b)) {
            Some(graph_edges(*old(g))[(a, b)])
        } else {
            None::<u32>
        },
{
    g.remove_edge(a, b)
}

/// `petgraph::graphmap::GraphMap::contains_edge`.
#[verifier::external_body]
pub(crate) fn graph_contains_edge(g: &UnGraphMap<NodeId, u32>, a: NodeId, b: NodeId) -> (res: bool)
    ensures
        res == graph_edges(*g).contains_key((a, b)),
{
    g.contains_edge(a, b)
}

/// `petgraph::graphmap::GraphMap::neighbors`, collected: every node sharing an
/// edge with `a`, each once, in the graph's own order.
#[verifier::external_body]
pub(crate) fn graph_neighbors(g: &UnGraphMap<NodeId, u32>, a: NodeId) -> (res: Vec<NodeId>)
    ensures
        res@.no_duplicates(),
        forall|x: NodeId| res@.contains(x) <==> graph_edges(*g).contains_key((a, x)),
{
    g.neighbors(a).collect()
}

/// `petgraph::graphmap::GraphMap::edges_directed` with `Direction::Incoming`,
/// each edge taken as the pair of its end points: `(x, a)` for every node `x`
/// sharing an edge with `a`, each once, in the graph's own order.
#[verifier::external_body]
pub(crate) fn graph_incoming_edges(g: &UnGraphMap<NodeId, u32>, a: NodeId) -> (res: Vec<Edge>)
    ensures
        forall|i: int| 0 <= i < res@.len() ==> (#[trigger] res@[i]).1 == a && graph_edges(*g).contains_key((res@[i].0, a)),
        forall|x: NodeId| graph_edges(*g).contains_key((x, a)) ==> exists|i: int| 0 <= i < res@.len() && (#[trigger] res@[i]).0 == x,
{
    g.edges_directed(a, petgraph::Direction::Incoming).map(|e| (e.0, e.1)).collect()
}

/// A walk through the graph: consecutive nodes share an edge.
pub open spec fn is_walk(edges: Map<Edge, u32>, w: Seq<NodeId>) -> bool {
    &&& w.len() >= 1
    &&& forall|i: int| 0 <= i < w.len() - 1 ==> edges.contains_key((#[trigger] w[i], w[i + 1]))
}

/// A walk from `a` to `b`.
pub open spec fn walk_between(edges: Map<Edge, u32>, w: Seq<NodeId>, a: NodeId, b: NodeId) -> bool {
    is_walk(edges, w) && w[0] == a && w.last() == b
}

/// The cost of a walk: the sum of the costs of the nodes it enters.
pub open spec fn walk_cost(w: Seq<NodeId>, costs: Seq<u32>) -> int
    decreases w.len(),
{
    if w.len() <= 1 {
        0
    } else {
        walk_cost(w.drop_last(), costs) + costs[w.last() as int]
    }
}

/// A walk from `a` to `b` that costs no more, by `costs`, than any other.
pub open spec fn cheapest_walk(edges: Map<Edge, u32>, w: Seq<NodeId>, a: NodeId, b: NodeId, costs: Seq<u32>) -> bool {
    &&& walk_between(edges, w, a, b)
    &&& forall|w2: Seq<NodeId>| walk_between(edges, w2, a, b) ==> walk_cost(w, costs) <= walk_cost(w2, costs)
}

/// Every node a cheapest walk from `a` to `b` (by `search`) enters has the
/// same weight by `search` and by `trace`.
#[verifier::opaque]
pub open spec fn weights_agree_on_cheapest(
    edges: Map<Edge, u32>,
    a: NodeId,
    b: NodeId,
    search: Seq<u32>,
    trace: Seq<u32>,
) -> bool {
    forall|w: Seq<NodeId>, i: int|
        cheapest_walk(edges, w, a, b, search) && 1 <= i < w.len() ==> search[#[trigger] w[i] as int] == trace[w[i] as int]
}

/// Joining a walk to `x` and a walk from `x` gives a walk.
pub proof fn lemma_walk_join(edges: Map<Edge, u32>, p: Seq<NodeId>, r: Seq<NodeId>)
    requires
        is_walk(edges, p),
        is_walk(edges, r),
        p.last() == r[0],
    ensures
        is_walk(edges, p + r.drop_first()),
{
    let q = p + r.drop_first();
    assert forall|i: int| 0 <= i < q.len() - 1 implies edges.contains_key((#[trigger] q[i], q[i + 1])) by {
        if i + 1 < p.len() {
            assert(q[i] == p[i] && q[i + 1] == p[i + 1]);
        } else if i + 1 == p.len() {
            assert(q[i] == r[0] && q[i + 1] == r[1]);
        } else {
            let k = i - p.len() + 1;
            assert(q[i] == r[k] && q[i + 1] == r[k + 1]);
        }
    }
}

/// The cost of a joined walk is the sum of the costs of its parts.
pub proof fn lemma_walk_cost_join(p: Seq<NodeId>, r: Seq<NodeId>, costs: Seq<u32>)
    requires
        p.len() >= 1,
        r.len() >= 1,
        p.last() == r[0],
    ensures
        walk_cost(p + r.drop_first(), costs) == walk_cost(p, costs) + walk_cost(r, costs),
    decreases r.len(),
{
    let q = p + r.drop_first();
    if r.len() == 1 {
        assert(q =~= p);
    } else {
        lemma_walk_cost_join(p, r.drop_last(), costs);
        assert(q.drop_last() =~= p + r.drop_last().drop_first());
        assert(q.last() == r.last());
    }
}

/// Two weightings that agree on every node a walk enters give it one cost.
pub proof fn lemma_walk_cost_agree(r: Seq<NodeId>, s: Seq<u32>, t: Seq<u32>)
    requires
        forall|j: int| 1 <= j < r.len() ==> s[#[trigger] r[j] as int] == t[r[j] as int],
    ensures
        walk_cost(r, s) == walk_cost(r, t),
    decreases r.len(),
{
    if r.len() > 1 {
        assert forall|j: int| 1 <= j < r.drop_last().len() implies s[#[trigger] r.drop_last()[j] as int]
            == t[r.drop_last()[j] as int] by {
            assert(r.drop_last()[j] == r[j]);
        }
        lemma_walk_cost_agree(r.drop_last(), s, t);
        assert(s[r[r.len() - 1] as int] == t[r[r.len() - 1] as int]);
    }
}

/// A cost for every node id, each between 1 and 1000.
pub open spec fn valid_costs(costs: Seq<u32>) -> bool {
    costs.len() == 256 && forall|i: int| 0 <= i < 256 ==> 1 <= #[trigger] costs[i] <= 1000
}

/// The cost of entering node `v`.
pub fn node_cost(costs: &Vec<u32>, v: NodeId) -> (c: u32)
    requires
        costs@.len() == 256,
    ensures
        c == costs@[v as int],
{
    costs[v as usize]
}

/// Every scored node but the start has a neighbour whose score plus the
/// node's cost is its score.
pub open spec fn scores_traceable(edges: Map<Edge, u32>, scores: Map<NodeId, u32>, costs: Seq<u32>, start: NodeId) -> bool {
    forall|v: NodeId|
        #[trigger] scores.contains_key(v) && v != start ==> exists|u: NodeId|
            edges.contains_key((u, v)) && scores.contains_key(u) && scores[u] + costs[v as int] == scores[v]
}

/// `petgraph::algo::dijkstra` from `start` towards `goal`, where entering node
/// `v` costs `costs[v]`; the scores it returns, copied into a map. The start
/// scores 0; every score is the cost of some walk from the start; when the
/// goal can be reached, it is scored, no higher than any walk to it; and
/// every other score was set from a neighbour already settled, so it is that
/// neighbour's score plus the node's cost.
#[verifier::external_body]
pub(crate) fn shortest_costs(g: &UnGraphMap<NodeId, u32>, start: NodeId, goal: NodeId, costs: &Vec<u32>) -> (scores: HashMap<NodeId, u32>)
    requires
        valid_costs(costs@),
    ensures
        scores@.contains_key(start),
        scores@[start] == 0,
        forall|v: NodeId| #[trigger] scores@.contains_key(v) ==> exists|w: Seq<NodeId>|
            walk_between(graph_edges(*g), w, start, v) && walk_cost(w, costs@) == scores@[v],
        forall|w: Seq<NodeId>| walk_between(graph_edges(*g), w, start, goal) ==> scores@.contains_key(goal)
            && scores@[goal] <= walk_cost(w, costs@),
        scores_traceable(graph_edges(*g), scores@, costs@, start),
{
    petgraph::algo::dijkstra(g, start, Some(goal), |e| node_cost(costs, e.1)).into_iter().collect()
}

} // verus!
