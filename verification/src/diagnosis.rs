use vstd::prelude::*;
use crate::packet::NodeId;
use crate::topology::{NodeConfig, NodeType};

verus! {

/// A link written with its smaller end first.
pub open spec fn ordered(a: NodeId, b: NodeId) -> (NodeId, NodeId) {
    if a <= b {
        (a, b)
    } else {
        (b, a)
    }
}

/// The links a node found: each found edge, smaller end first.
pub open spec fn found_links(edges: Seq<(NodeId, NodeId)>) -> Set<(NodeId, NodeId)> {
    Set::new(|p: (NodeId, NodeId)| exists|j: int| 0 <= j < edges.len() && p == ordered(#[trigger] edges[j].0, edges[j].1))
}

/// Whether `p` is the link from `node` to its `k`-th neighbour, with both
/// ends among the nodes the search saw.
pub open spec fn seen_link(seen: Seq<NodeId>, node: NodeConfig, k: int, p: (NodeId, NodeId)) -> bool {
    &&& 0 <= k < node.connected_node_ids@.len()
    &&& seen.contains(node.id)
    &&& seen.contains(node.connected_node_ids@[k])
    &&& p == ordered(node.id, node.connected_node_ids@[k])
}

/// The configured links among the nodes the search saw: for every
/// configured node that was seen, its link to every seen neighbour, smaller
/// end first.
pub open spec fn configured_links(seen: Seq<NodeId>, nodes: Seq<NodeConfig>) -> Set<(NodeId, NodeId)> {
    Set::new(|p: (NodeId, NodeId)| exists|i: int, k: int| 0 <= i < nodes.len() && #[trigger] seen_link(seen, nodes[i], k, p))
}

fn has_pair(v: &Vec<(NodeId, NodeId)>, p: (NodeId, NodeId)) -> (b: bool)
    ensures
        b == v@.contains(p),
{
    let mut i: usize = 0;
    while i < v.len()
        invariant
            i <= v@.len(),
            forall|j: int| 0 <= j < i ==> v@[j] != p,
        decreases v@.len() - i,
    {
        if v[i].0 == p.0 && v[i].1 == p.1 {
            assert(v@[i as int] == p);
            return true;
        }
        i = i + 1;
    }
    false
}

fn has_id(v: &Vec<NodeId>, x: NodeId) -> (b: bool)
    ensures
        b == v@.contains(x),
{
    let mut i: usize = 0;
    while i < v.len()
        invariant
            i <= v@.len(),
            forall|j: int| 0 <= j < i ==> v@[j] != x,
        decreases v@.len() - i,
    {
        if v[i] == x {
            assert(v@[i as int] == x);
            return true;
        }
        i = i + 1;
    }
    false
}

fn order_pair(a: NodeId, b: NodeId) -> (p: (NodeId, NodeId))
    ensures
        p == ordered(a, b),
{
    if a <= b {
        (a, b)
    } else {
        (b, a)
    }
}

/// The found links, each once, smaller end first.
fn distinct_found(edges: &Vec<(NodeId, NodeId)>) -> (found: Vec<(NodeId, NodeId)>)
    ensures
        found@.no_duplicates(),
        forall|p: (NodeId, NodeId)| found@.contains(p) <==> found_links(edges@).contains(p),
{
    let mut found: Vec<(NodeId, NodeId)> = Vec::new();
    let mut i: usize = 0;
    while i < edges.len()
        invariant
            i <= edges@.len(),
            found@.no_duplicates(),
            forall|p: (NodeId, NodeId)|
                found@.contains(p) <==> exists|j: int| 0 <= j < i && p == ordered(#[trigger] edges@[j].0, edges@[j].1),
        decreases edges@.len() - i,
    {
        let p = order_pair(edges[i].0, edges[i].1);
        let ghost before = found@;
        if !has_pair(&found, p) {
            found.push(p);
            assert(found@ == before.push(p));
        }
        assert forall|q: (NodeId, NodeId)|
            found@.contains(q) <==> exists|j: int| 0 <= j < i + 1 && q == ordered(#[trigger] edges@[j].0, edges@[j].1) by {
            if found@.contains(q) && q != p {
                assert(before.contains(q));
            }
            if exists|j: int| 0 <= j < i + 1 && q == ordered(#[trigger] edges@[j].0, edges@[j].1) {
                let j = choose|j: int| 0 <= j < i + 1 && q == ordered(#[trigger] edges@[j].0, edges@[j].1);
                if j < i {
                    assert(before.contains(q));
                    if before.contains(q) {
                        let k = before.index_of(q);
                        assert(found@[k] == q);
                    }
                } else {
                    assert(q == p);
                    if !before.contains(p) {
                        assert(found@[before.len() as int] == p);
                    } else {
                        let k = before.index_of(p);
                        assert(found@[k] == p);
                    }
                }
            }
        }
        i = i + 1;
    }
    found
}

/// The configured links among the seen nodes, each once, smaller end first.
fn distinct_configured(seen: &Vec<NodeId>, nodes: &[NodeConfig]) -> (links: Vec<(NodeId, NodeId)>)
    ensures
        links@.no_duplicates(),
        forall|p: (NodeId, NodeId)| links@.contains(p) <==> configured_links(seen@, nodes@).contains(p),
{
    let mut links: Vec<(NodeId, NodeId)> = Vec::new();
    let mut i: usize = 0;
    while i < nodes.len()
        invariant
            i <= nodes@.len(),
            links@.no_duplicates(),
            forall|p: (NodeId, NodeId)|
                links@.contains(p) <==> exists|a: int, k: int| 0 <= a < i && #[trigger] seen_link(seen@, nodes@[a], k, p),
        decreases nodes@.len() - i,
    {
        let node = &nodes[i];
        let node_seen = has_id(seen, node.id);
        let mut k: usize = 0;
        while k < node.connected_node_ids.len()
            invariant
                i < nodes@.len(),
                *node == nodes@[i as int],
                node_seen == seen@.contains(node.id),
                k <= node.connected_node_ids@.len(),
                links@.no_duplicates(),
                forall|p: (NodeId, NodeId)|
                    links@.contains(p) <==> (exists|a: int, k2: int| 0 <= a < i && #[trigger] seen_link(seen@, nodes@[a], k2, p))
                        || (exists|k2: int| k2 < k && #[trigger] seen_link(seen@, nodes@[i as int], k2, p)),
            decreases node.connected_node_ids@.len() - k,
        {
            let other = node.connected_node_ids[k];
            let ghost before = links@;
            let linked = node_seen && has_id(seen, other);
            let p = order_pair(node.id, other);
            if linked && !has_pair(&links, p) {
                links.push(p);
                assert(links@ == before.push(p));
            }
            assert forall|q: (NodeId, NodeId)|
                links@.contains(q) <==> (exists|a: int, k2: int| 0 <= a < i && #[trigger] seen_link(seen@, nodes@[a], k2, q))
                    || (exists|k2: int| k2 < k + 1 && #[trigger] seen_link(seen@, nodes@[i as int], k2, q)) by {
                if links@.contains(q) && !before.contains(q) {
                    assert(q == p && linked);
                    assert(seen_link(seen@, nodes@[i as int], k as int, q));
                }
                if before.contains(q) {
                    let j = before.index_of(q);
                    assert(links@[j] == q);
                }
                if exists|k2: int| k2 < k + 1 && #[trigger] seen_link(seen@, nodes@[i as int], k2, q) {
                    let k2 = choose|k2: int| k2 < k + 1 && #[trigger] seen_link(seen@, nodes@[i as int], k2, q);
                    if k2 == k {
                        assert(linked && q == p);
                        if !before.contains(p) {
                            assert(links@[before.len() as int] == p);
                        }
                    }
                }
            }
            k = k + 1;
        }
        assert forall|q: (NodeId, NodeId)|
            links@.contains(q) <==> exists|a: int, k2: int| 0 <= a < i + 1 && #[trigger] seen_link(seen@, nodes@[a], k2, q) by {
            if exists|a: int, k2: int| 0 <= a < i + 1 && #[trigger] seen_link(seen@, nodes@[a], k2, q) {
                let (a, k2) = choose|a: int, k2: int| 0 <= a < i + 1 && #[trigger] seen_link(seen@, nodes@[a], k2, q);
                if a == i {
                    assert(k2 < k);
                }
            }
        }
        i = i + 1;
    }
    links
}

/// The entries of `a` that `b` lacks, in the order of `a`.
fn pairs_missing_from(a: &Vec<(NodeId, NodeId)>, b: &Vec<(NodeId, NodeId)>) -> (d: Vec<(NodeId, NodeId)>)
    requires
        a@.no_duplicates(),
    ensures
        d@.no_duplicates(),
        forall|p: (NodeId, NodeId)| d@.contains(p) <==> a@.contains(p) && !b@.contains(p),
{
    let mut d: Vec<(NodeId, NodeId)> = Vec::new();
    let mut i: usize = 0;
    while i < a.len()
        invariant
            i <= a@.len(),
            a@.no_duplicates(),
            d@.no_duplicates(),
            forall|p: (NodeId, NodeId)| d@.contains(p) <==> a@.subrange(0, i as int).contains(p) && !b@.contains(p),
        decreases a@.len() - i,
    {
        let p = a[i];
        let ghost before = d@;
        if !has_pair(b, p) {
            proof {
                if before.contains(p) {
                    let j = a@.subrange(0, i as int).index_of(p);
                    assert(a@[j] == a@[i as int]);
                }
            }
            d.push(p);
            assert(d@ == before.push(p));
        }
        assert forall|q: (NodeId, NodeId)|
            d@.contains(q) <==> a@.subrange(0, i as int + 1).contains(q) && !b@.contains(q) by {
            if a@.subrange(0, i as int + 1).contains(q) {
                let j = a@.subrange(0, i as int + 1).index_of(q);
                if j < i {
                    assert(a@.subrange(0, i as int)[j] == q);
                } else if !b@.contains(q) {
                    assert(q == p);
                    if !before.contains(q) {
                        assert(d@[before.len() as int] == q);
                    } else {
                        let m = before.index_of(q);
                        assert(d@[m] == q);
                    }
                }
            }
            if d@.contains(q) {
                if before.contains(q) {
                    let j = a@.subrange(0, i as int).index_of(q);
                    assert(a@.subrange(0, i as int + 1)[j] == q);
                } else {
                    assert(q == p);
                    assert(a@.subrange(0, i as int + 1)[i as int] == q);
                }
            }
            if before.contains(q) {
                let m = before.index_of(q);
                assert(d@[m] == q);
            }
        }
        i = i + 1;
    }
    assert(a@.subrange(0, a@.len() as int) =~= a@);
    d
}

/// How the links a node found compare with the configured ones among the
/// nodes it saw (the first result: configured links it missed; the second:
/// found links that are not configured). Links are written smaller end
/// first and listed once each.
pub fn connection_diagnosis(discovered: &Vec<(NodeId, NodeId)>, graph_nodes: &Vec<NodeId>, nodes: &[NodeConfig]) -> (res: (
    Vec<(NodeId, NodeId)>,
    Vec<(NodeId, NodeId)>,
))
    ensures
        res.0@.no_duplicates(),
        res.1@.no_duplicates(),
        forall|p: (NodeId, NodeId)|
            res.0@.contains(p) <==> configured_links(graph_nodes@, nodes@).contains(p) && !found_links(discovered@).contains(p),
        forall|p: (NodeId, NodeId)|
            res.1@.contains(p) <==> found_links(discovered@).contains(p) && !configured_links(graph_nodes@, nodes@).contains(p),
{
    let found = distinct_found(discovered);
    let configured = distinct_configured(graph_nodes, nodes);
    let missed = pairs_missing_from(&configured, &found);
    let incorrect = pairs_missing_from(&found, &configured);
    (missed, incorrect)
}


/// The newest session a node started, among the logged (sender, session)
/// pairs: the largest session id logged for it; nothing when none is.
pub fn last_session(log: &Vec<(NodeId, u64)>, node: NodeId) -> (res: Option<u64>)
    ensures
        res is None <==> forall|j: int| 0 <= j < log@.len() ==> (#[trigger] log@[j]).0 != node,
        res matches Some(s) ==> log@.contains((node, s)),
        res matches Some(s) ==> forall|j: int| 0 <= j < log@.len() && (#[trigger] log@[j]).0 == node ==> log@[j].1 <= s,
{
    let mut best: Option<u64> = None;
    let mut i: usize = 0;
    while i < log.len()
        invariant
            i <= log@.len(),
            best is None <==> forall|j: int| 0 <= j < i ==> (#[trigger] log@[j]).0 != node,
            best matches Some(s) ==> log@.contains((node, s)),
            best matches Some(s) ==> forall|j: int| 0 <= j < i && (#[trigger] log@[j]).0 == node ==> log@[j].1 <= s,
        decreases log@.len() - i,
    {
        let (sender, session) = log[i];
        if sender == node {
            let newer = match best {
                Some(s) => session > s,
                None => true,
            };
            if newer {
                assert(log@[i as int] == (node, session));
                best = Some(session);
            }
        }
        i = i + 1;
    }
    best
}

/// The (fragment index, drone) pairs of the logged drops of one session:
/// each logged entry of a (drone, session) pair carries the indexes of the
/// fragments that drone dropped.
pub open spec fn drops_of(entry: ((NodeId, u64), Vec<u64>)) -> Seq<(u64, NodeId)> {
    entry.1@.map_values(|f: u64| (f, entry.0.0))
}

/// The drops of `session` among the first `n` logged entries, in log order.
pub open spec fn session_drops(lost: Seq<((NodeId, u64), Vec<u64>)>, session: u64, n: int) -> Seq<(u64, NodeId)>
    decreases n,
{
    if n <= 0 {
        Seq::empty()
    } else if lost[n - 1].0.1 == session {
        session_drops(lost, session, n - 1) + drops_of(lost[n - 1])
    } else {
        session_drops(lost, session, n - 1)
    }
}

/// The fragments dropped in a session, as (fragment index, drone) pairs in
/// log order.
pub fn dropped_in_session(lost: &Vec<((NodeId, u64), Vec<u64>)>, session: u64) -> (res: Vec<(u64, NodeId)>)
    ensures
        res@ == session_drops(lost@, session, lost@.len() as int),
{
    let mut res: Vec<(u64, NodeId)> = Vec::new();
    let mut i: usize = 0;
    while i < lost.len()
        invariant
            i <= lost@.len(),
            res@ == session_drops(lost@, session, i as int),
        decreases lost@.len() - i,
    {
        let entry = &lost[i];
        if (entry.0).1 == session {
            let drone = (entry.0).0;
            let ghost start = res@;
            let mut k: usize = 0;
            while k < entry.1.len()
                invariant
                    i < lost@.len(),
                    *entry == lost@[i as int],
                    drone == entry.0.0,
                    k <= entry.1@.len(),
                    res@ == start + drops_of(*entry).subrange(0, k as int),
                decreases entry.1@.len() - k,
            {
                res.push((entry.1[k], drone));
                assert(drops_of(*entry).subrange(0, k as int + 1) =~= drops_of(*entry).subrange(0, k as int).push((entry.1@[k as int], drone)));
                k = k + 1;
            }
            assert(drops_of(*entry).subrange(0, entry.1@.len() as int) =~= drops_of(*entry));
        }
        i = i + 1;
    }
    res
}


/// The positions, among the first `n` logged entries, of those of `session`.
pub open spec fn session_positions<V>(log: Seq<((NodeId, u64), V)>, session: u64, n: int) -> Seq<int>
    decreases n,
{
    if n <= 0 {
        Seq::empty()
    } else if log[n - 1].0.1 == session {
        session_positions(log, session, n - 1).push(n - 1)
    } else {
        session_positions(log, session, n - 1)
    }
}

/// The logged entries of one session (lost acks, nacks, flood requests or
/// flood responses, each logged under a (drone, session) pair): the drone
/// and a clone of what it lost, in log order.
pub fn lost_in_session<V: Clone>(log: &Vec<((NodeId, u64), V)>, session: u64) -> (res: Vec<(NodeId, V)>)
    ensures
        ({
            let pos = session_positions(log@, session, log@.len() as int);
            &&& res@.len() == pos.len()
            &&& forall|k: int| 0 <= k < pos.len() ==> (#[trigger] res@[k]).0 == log@[pos[k]].0.0
                && cloned::<V>(log@[pos[k]].1, res@[k].1)
        }),
{
    let mut res: Vec<(NodeId, V)> = Vec::new();
    let mut i: usize = 0;
    while i < log.len()
        invariant
            i <= log@.len(),
            ({
                let pos = session_positions(log@, session, i as int);
                &&& res@.len() == pos.len()
                &&& forall|k: int| 0 <= k < pos.len() ==> (#[trigger] res@[k]).0 == log@[pos[k]].0.0
                    && cloned::<V>(log@[pos[k]].1, res@[k].1)
            }),
        decreases log@.len() - i,
    {
        let entry = &log[i];
        if (entry.0).1 == session {
            let item = entry.1.clone();
            res.push(((entry.0).0, item));
        }
        i = i + 1;
    }
    res
}

/// Whether a node type is a client's.
pub open spec fn is_client_type(t: NodeType) -> bool {
    t is WebBrowser || t is ChatClient
}

/// The type of the last of the first `n` configured nodes with the given id.
pub open spec fn type_of_id(nodes: Seq<NodeConfig>, id: NodeId, n: int) -> Option<NodeType>
    decreases n,
{
    if n <= 0 {
        None
    } else if nodes[n - 1].id == id {
        Some(nodes[n - 1].node_type)
    } else {
        type_of_id(nodes, id, n - 1)
    }
}

/// The texts of the first `n` logged messages whose sender is a configured
/// client (`clients`) or a configured node of another kind (`!clients`),
/// joined in log order; messages of unknown senders are left out.
pub open spec fn log_side(entries: Seq<(NodeId, String)>, nodes: Seq<NodeConfig>, clients: bool, n: int) -> Seq<char>
    decreases n,
{
    if n <= 0 {
        Seq::empty()
    } else {
        let rest = log_side(entries, nodes, clients, n - 1);
        match type_of_id(nodes, entries[n - 1].0, nodes.len() as int) {
            Some(t) => if is_client_type(t) == clients {
                rest + entries[n - 1].1@
            } else {
                rest
            },
            None => rest,
        }
    }
}

fn find_type(nodes: &[NodeConfig], id: NodeId) -> (t: Option<NodeType>)
    ensures
        t == type_of_id(nodes@, id, nodes@.len() as int),
{
    let mut t: Option<NodeType> = None;
    let mut i: usize = 0;
    while i < nodes.len()
        invariant
            i <= nodes@.len(),
            t == type_of_id(nodes@, id, i as int),
        decreases nodes@.len() - i,
    {
        if nodes[i].id == id {
            t = Some(nodes[i].node_type);
        }
        i = i + 1;
    }
    t
}

/// The message log split into the part sent by clients and the part sent by
/// the other configured nodes (see `log_side`).
pub fn split_message_log(entries: &Vec<(NodeId, String)>, nodes: &[NodeConfig]) -> (res: (String, String))
    ensures
        res.0@ == log_side(entries@, nodes@, true, entries@.len() as int),
        res.1@ == log_side(entries@, nodes@, false, entries@.len() as int),
{
    let mut client_log = String::new();
    let mut server_log = String::new();
    let mut i: usize = 0;
    while i < entries.len()
        invariant
            i <= entries@.len(),
            client_log@ == log_side(entries@, nodes@, true, i as int),
            server_log@ == log_side(entries@, nodes@, false, i as int),
        decreases entries@.len() - i,
    {
        let entry = &entries[i];
        match find_type(nodes, entry.0) {
            Some(t) => {
                let client = match t {
                    NodeType::WebBrowser | NodeType::ChatClient => true,
                    _ => false,
                };
                if client {
                    client_log.append(entry.1.as_str());
                } else {
                    server_log.append(entry.1.as_str());
                }
            },
            None => {},
        }
        i = i + 1;
    }
    (client_log, server_log)
}

} // verus!
