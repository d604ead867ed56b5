use vstd::prelude::*;
use crate::ids::{push_unique, remove_id, without_id, lemma_without_absent, lemma_without_excludes, lemma_without_push};
use crate::packet::{NodeId, copy_ids};
use crate::topology::{
    NodeConfig, NodeType, TopologyIssue, would_break_connectivity, first_failure, chat_checks, web_checks, same_nodes,
    lemma_checks_see_only_nodes, chat_rule, web_rule, lemma_connectivity_ok,
};

verus! {

// ---------------------------------------------------------------------------
// Model
// ---------------------------------------------------------------------------

/// `m` is the node `n` with the links `links`.
pub open spec fn relinked(n: NodeConfig, m: NodeConfig, links: Seq<NodeId>) -> bool {
    m.node_type == n.node_type && m.id == n.id && m.connected_node_ids@ == links
}

pub open spec fn links_with(links: Seq<NodeId>, x: NodeId) -> Seq<NodeId> {
    if links.contains(x) {
        links
    } else {
        links.push(x)
    }
}

/// `i` is the position of the first node with this id.
pub open spec fn is_first(nodes: Seq<NodeConfig>, id: NodeId, i: int) -> bool {
    &&& 0 <= i < nodes.len()
    &&& nodes[i].id == id
    &&& forall|j: int| 0 <= j < i ==> nodes[j].id != id
}

/// The position of the first node with this id, or -1 when there is none.
pub open spec fn first_pos(nodes: Seq<NodeConfig>, id: NodeId) -> int {
    if exists|i: int| is_first(nodes, id, i) {
        choose|i: int| is_first(nodes, id, i)
    } else {
        -1
    }
}

/// The nodes left when the first node with this id goes.
pub open spec fn kept_after_removal(nodes: Seq<NodeConfig>, id: NodeId) -> Seq<NodeConfig> {
    if first_pos(nodes, id) >= 0 {
        nodes.remove(first_pos(nodes, id))
    } else {
        nodes
    }
}

/// `s` is the network `nodes` after the node `id` crashed: the first node
/// with that id is gone and no node lists it any more.
pub open spec fn crash_of(nodes: Seq<NodeConfig>, id: NodeId, s: Seq<NodeConfig>) -> bool {
    let kept = kept_after_removal(nodes, id);
    &&& s.len() == kept.len()
    &&& forall|i: int|
        0 <= i < s.len() ==> relinked(kept[i], #[trigger] s[i], without_id(kept[i].connected_node_ids@, id))
}

/// The links of node `i` once the connection between `a` and `b` is cut:
/// the first node with id `a` drops `b`, the first node with id `b` drops `a`.
pub open spec fn cut_links(nodes: Seq<NodeConfig>, i: int, a: NodeId, b: NodeId) -> Seq<NodeId> {
    let l0 = nodes[i].connected_node_ids@;
    let l1 = if i == first_pos(nodes, a) { without_id(l0, b) } else { l0 };
    if i == first_pos(nodes, b) { without_id(l1, a) } else { l1 }
}

/// `s` is the network `nodes` with the connection between `a` and `b` cut.
pub open spec fn disconnect_of(nodes: Seq<NodeConfig>, a: NodeId, b: NodeId, s: Seq<NodeConfig>) -> bool {
    &&& s.len() == nodes.len()
    &&& forall|i: int| 0 <= i < s.len() ==> relinked(nodes[i], #[trigger] s[i], cut_links(nodes, i, a, b))
}

/// Two nodes may be connected when they differ and at least one of them is a drone.
pub open spec fn may_connect(a: NodeConfig, b: NodeConfig) -> bool {
    a.id != b.id && (a.node_type == NodeType::Drone || b.node_type == NodeType::Drone)
}

// ---------------------------------------------------------------------------
// Helpers
// ---------------------------------------------------------------------------

fn node_with_links(n: &NodeConfig, links: Vec<NodeId>) -> (m: NodeConfig)
    ensures
        relinked(*n, m, links@),
{
    NodeConfig { node_type: n.node_type, id: n.id, connected_node_ids: links }
}

/// The position of the first node with this id, if any.
pub fn find_node(nodes: &[NodeConfig], id: NodeId) -> (pos: Option<usize>)
    ensures
        match pos {
            Some(k) => is_first(nodes@, id, k as int) && first_pos(nodes@, id) == k as int,
            None => first_pos(nodes@, id) == -1 && forall|j: int| 0 <= j < nodes@.len() ==> nodes@[j].id != id,
        },
{
    let mut k: usize = 0;
    while k < nodes.len()
        invariant
            k <= nodes@.len(),
            forall|j: int| 0 <= j < k ==> nodes@[j].id != id,
        decreases nodes@.len() - k,
    {
        if nodes[k].id == id {
            proof {
                assert(is_first(nodes@, id, k as int));
                lemma_first_unique(nodes@, id, k as int);
            }
            return Some(k);
        }
        k = k + 1;
    }
    proof {
        if exists|i: int| is_first(nodes@, id, i) {
            let i = choose|i: int| is_first(nodes@, id, i);
            assert(nodes@[i].id == id);
        }
    }
    None
}

proof fn lemma_first_unique(nodes: Seq<NodeConfig>, id: NodeId, k: int)
    requires
        is_first(nodes, id, k),
    ensures
        first_pos(nodes, id) == k,
{
    let c = choose|i: int| is_first(nodes, id, i);
    assert(is_first(nodes, id, c));
    if c < k {
        assert(nodes[c].id != id);
    } else if c > k {
        assert(nodes[k].id != id);
    }
}

fn links_without_exec(v: &Vec<NodeId>, x: NodeId) -> (res: Vec<NodeId>)
    ensures
        res@ == without_id(v@, x),
{
    let mut res = copy_ids(v);
    remove_id(&mut res, x);
    res
}

// ---------------------------------------------------------------------------
// Simulated changes
// ---------------------------------------------------------------------------

/// A change to try on a copy of the network before making it.
#[derive(Clone, Copy, Debug, PartialEq, Eq, Structural)]
pub enum NetworkChange {
    /// The node crashes: it leaves the network with all its connections.
    RemoveNode(NodeId),
    /// The connection between the two nodes is cut.
    RemoveConnection(NodeId, NodeId),
}

/// The network after a crash of node `id`, on a copy.
pub fn simulate_crash(nodes: &[NodeConfig], id: NodeId) -> (s: Vec<NodeConfig>)
    ensures
        crash_of(nodes@, id, s@),
{
    let pos = find_node(nodes, id);
    let ghost kept = kept_after_removal(nodes@, id);
    let mut s: Vec<NodeConfig> = Vec::new();
    let mut i: usize = 0;
    while i < nodes.len()
        invariant
            i <= nodes@.len(),
            kept == kept_after_removal(nodes@, id),
            match pos {
                Some(k) => first_pos(nodes@, id) == k as int && k < nodes@.len()
                    && s@.len() == (if i <= k { i as int } else { i - 1 }),
                None => first_pos(nodes@, id) == -1 && s@.len() == i,
            },
            forall|j: int|
                0 <= j < s@.len() ==> relinked(kept[j], #[trigger] s@[j], without_id(kept[j].connected_node_ids@, id)),
        decreases nodes@.len() - i,
    {
        let skip = match pos {
            Some(k) => k == i,
            None => false,
        };
        if !skip {
            let links = links_without_exec(&nodes[i].connected_node_ids, id);
            let m = node_with_links(&nodes[i], links);
            proof {
                match pos {
                    Some(k) => {
                        if i < k {
                            assert(kept[s@.len() as int] == nodes@[i as int]);
                        } else {
                            assert(kept[s@.len() as int] == nodes@[i as int]);
                        }
                    },
                    None => {
                        assert(kept[s@.len() as int] == nodes@[i as int]);
                    },
                }
            }
            s.push(m);
        }
        i = i + 1;
    }
    s
}

/// The network with the connection between `a` and `b` cut, on a copy.
pub fn simulate_disconnect(nodes: &[NodeConfig], a: NodeId, b: NodeId) -> (s: Vec<NodeConfig>)
    ensures
        disconnect_of(nodes@, a, b, s@),
{
    let pa = find_node(nodes, a);
    let pb = find_node(nodes, b);
    let mut s: Vec<NodeConfig> = Vec::new();
    let mut i: usize = 0;
    while i < nodes.len()
        invariant
            i <= nodes@.len(),
            s@.len() == i,
            match pa {
                Some(k) => first_pos(nodes@, a) == k as int,
                None => first_pos(nodes@, a) == -1,
            },
            match pb {
                Some(k) => first_pos(nodes@, b) == k as int,
                None => first_pos(nodes@, b) == -1,
            },
            forall|j: int| 0 <= j < i ==> relinked(nodes@[j], #[trigger] s@[j], cut_links(nodes@, j, a, b)),
        decreases nodes@.len() - i,
    {
        let at_a = match pa {
            Some(k) => k == i,
            None => false,
        };
        let at_b = match pb {
            Some(k) => k == i,
            None => false,
        };
        let l1 = if at_a {
            links_without_exec(&nodes[i].connected_node_ids, b)
        } else {
            copy_ids(&nodes[i].connected_node_ids)
        };
        let l2 = if at_b {
            links_without_exec(&l1, a)
        } else {
            l1
        };
        let m = node_with_links(&nodes[i], l2);
        s.push(m);
        i = i + 1;
    }
    s
}

/// The network as it would be after the change, on a copy.
pub fn simulate_network_change(nodes: &[NodeConfig], change: NetworkChange) -> (s: Vec<NodeConfig>)
    ensures
        match change {
            NetworkChange::RemoveNode(id) => crash_of(nodes@, id, s@),
            NetworkChange::RemoveConnection(a, b) => disconnect_of(nodes@, a, b, s@),
        },
{
    match change {
        NetworkChange::RemoveNode(id) => simulate_crash(nodes, id),
        NetworkChange::RemoveConnection(a, b) => simulate_disconnect(nodes, a, b),
    }
}

proof fn lemma_crash_views_agree(nodes: Seq<NodeConfig>, id: NodeId, s1: Seq<NodeConfig>, s2: Seq<NodeConfig>)
    requires
        crash_of(nodes, id, s1),
        crash_of(nodes, id, s2),
    ensures
        same_nodes(s1, s2),
{
    assert forall|i: int| 0 <= i < s1.len() implies (#[trigger] s1[i]).node_type == s2[i].node_type && s1[i].id == s2[i].id
        && s1[i].connected_node_ids@ == s2[i].connected_node_ids@ by {
        assert(relinked(kept_after_removal(nodes, id)[i], s1[i], without_id(kept_after_removal(nodes, id)[i].connected_node_ids@, id)));
        assert(relinked(kept_after_removal(nodes, id)[i], s2[i], without_id(kept_after_removal(nodes, id)[i].connected_node_ids@, id)));
    }
}

proof fn lemma_disconnect_views_agree(nodes: Seq<NodeConfig>, a: NodeId, b: NodeId, s1: Seq<NodeConfig>, s2: Seq<NodeConfig>)
    requires
        disconnect_of(nodes, a, b, s1),
        disconnect_of(nodes, a, b, s2),
    ensures
        same_nodes(s1, s2),
{
    assert forall|i: int| 0 <= i < s1.len() implies (#[trigger] s1[i]).node_type == s2[i].node_type && s1[i].id == s2[i].id
        && s1[i].connected_node_ids@ == s2[i].connected_node_ids@ by {
        assert(relinked(nodes[i], s1[i], cut_links(nodes, i, a, b)));
        assert(relinked(nodes[i], s2[i], cut_links(nodes, i, a, b)));
    }
}

/// Whether a crash of node `id` keeps every connectivity rule: the answer
/// of the rules on the network after the crash.
pub fn check_crash(nodes: &[NodeConfig], id: NodeId) -> (res: Result<(), TopologyIssue>)
    ensures
        exists|s: Seq<NodeConfig>| crash_of(nodes@, id, s),
        forall|s: Seq<NodeConfig>| #[trigger] crash_of(nodes@, id, s) ==> res == first_failure(chat_checks(s) + web_checks(s)),
{
    let sim = simulate_crash(nodes, id);
    let res = would_break_connectivity(&sim);
    assert(crash_of(nodes@, id, sim@));
    proof {
        assert forall|s: Seq<NodeConfig>| #[trigger] crash_of(nodes@, id, s) implies res == first_failure(
            chat_checks(s) + web_checks(s),
        ) by {
            lemma_crash_views_agree(nodes@, id, sim@, s);
            lemma_checks_see_only_nodes(sim@, s);
        }
    }
    res
}

/// Whether cutting the connection between `a` and `b` keeps every
/// connectivity rule: the answer of the rules on the network after the cut.
pub fn check_disconnect(nodes: &[NodeConfig], a: NodeId, b: NodeId) -> (res: Result<(), TopologyIssue>)
    ensures
        exists|s: Seq<NodeConfig>| disconnect_of(nodes@, a, b, s),
        forall|s: Seq<NodeConfig>| #[trigger] disconnect_of(nodes@, a, b, s) ==> res == first_failure(
            chat_checks(s) + web_checks(s),
        ),
{
    let sim = simulate_disconnect(nodes, a, b);
    let res = would_break_connectivity(&sim);
    assert(disconnect_of(nodes@, a, b, sim@));
    proof {
        assert forall|s: Seq<NodeConfig>| #[trigger] disconnect_of(nodes@, a, b, s) implies res == first_failure(
            chat_checks(s) + web_checks(s),
        ) by {
            lemma_disconnect_views_agree(nodes@, a, b, sim@, s);
            lemma_checks_see_only_nodes(sim@, s);
        }
    }
    res
}

/// Whether a connection between the two nodes may be offered: they differ
/// and at least one of them is a drone.
pub fn can_connect(a: &NodeConfig, b: &NodeConfig) -> (res: bool)
    ensures
        res == may_connect(*a, *b),
{
    a.id != b.id && (a.node_type == NodeType::Drone || b.node_type == NodeType::Drone)
}

// ---------------------------------------------------------------------------
// Connection updates
// ---------------------------------------------------------------------------

/// A change of the connections, queued by the simulation commands and
/// applied to the network's configuration.
#[derive(Clone, Copy, Debug, PartialEq, Eq, Structural)]
pub enum ConnectionUpdate {
    Add { from: NodeId, to: NodeId },
    Remove { from: NodeId, to: NodeId },
    RemoveAllForNode { node: NodeId },
}

/// The links of a node with id `id` after one update: an added connection
/// is listed by both of its ends (once), a removed one by neither, and a
/// node that loses all its connections lists nothing and is listed by none.
pub open spec fn updated_links(id: NodeId, links: Seq<NodeId>, u: ConnectionUpdate) -> Seq<NodeId> {
    match u {
        ConnectionUpdate::Add { from, to } => {
            let l1 = if id == from { links_with(links, to) } else { links };
            if id == to { links_with(l1, from) } else { l1 }
        },
        ConnectionUpdate::Remove { from, to } => {
            let l1 = if id == from { without_id(links, to) } else { links };
            if id == to { without_id(l1, from) } else { l1 }
        },
        ConnectionUpdate::RemoveAllForNode { node } => {
            if id == node { Seq::empty() } else { without_id(links, node) }
        },
    }
}

/// The links of a node with id `id` after a series of updates, applied in order.
pub open spec fn links_after(id: NodeId, links: Seq<NodeId>, us: Seq<ConnectionUpdate>) -> Seq<NodeId>
    decreases us.len(),
{
    if us.len() == 0 {
        links
    } else {
        updated_links(id, links_after(id, links, us.drop_last()), us.last())
    }
}

fn links_with_exec(v: &Vec<NodeId>, x: NodeId) -> (res: Vec<NodeId>)
    ensures
        res@ == links_with(v@, x),
{
    let mut res = copy_ids(v);
    push_unique(&mut res, x);
    res
}

fn updated_links_exec(id: NodeId, links: &Vec<NodeId>, u: ConnectionUpdate) -> (res: Vec<NodeId>)
    ensures
        res@ == updated_links(id, links@, u),
{
    match u {
        ConnectionUpdate::Add { from, to } => {
            let l1 = if id == from { links_with_exec(links, to) } else { copy_ids(links) };
            if id == to { links_with_exec(&l1, from) } else { l1 }
        },
        ConnectionUpdate::Remove { from, to } => {
            let l1 = if id == from { links_without_exec(links, to) } else { copy_ids(links) };
            if id == to { links_without_exec(&l1, from) } else { l1 }
        },
        ConnectionUpdate::RemoveAllForNode { node } => {
            if id == node { Vec::new() } else { links_without_exec(links, node) }
        },
    }
}

/// Applies one update to the links of every node.
pub fn apply_connection_update(nodes: &mut Vec<NodeConfig>, u: ConnectionUpdate)
    ensures
        final(nodes)@.len() == old(nodes)@.len(),
        forall|i: int|
            0 <= i < old(nodes)@.len() ==> relinked(
                old(nodes)@[i],
                #[trigger] final(nodes)@[i],
                updated_links(old(nodes)@[i].id, old(nodes)@[i].connected_node_ids@, u),
            ),
{
    let mut res: Vec<NodeConfig> = Vec::new();
    let mut i: usize = 0;
    while i < nodes.len()
        invariant
            i <= nodes@.len(),
            res@.len() == i,
            forall|j: int|
                0 <= j < i ==> relinked(
                    nodes@[j],
                    #[trigger] res@[j],
                    updated_links(nodes@[j].id, nodes@[j].connected_node_ids@, u),
                ),
        decreases nodes@.len() - i,
    {
        let links = updated_links_exec(nodes[i].id, &nodes[i].connected_node_ids, u);
        let m = node_with_links(&nodes[i], links);
        res.push(m);
        i = i + 1;
    }
    *nodes = res;
}

/// The connection updates waiting to be applied, in the order they were asked for.
pub struct ConnectionUpdateQueue {
    updates: Vec<ConnectionUpdate>,
}

impl View for ConnectionUpdateQueue {
    type V = Seq<ConnectionUpdate>;

    closed spec fn view(&self) -> Seq<ConnectionUpdate> {
        self.updates@
    }
}

impl Default for ConnectionUpdateQueue {
    fn default() -> (q: ConnectionUpdateQueue)
        ensures
            q@ == Seq::<ConnectionUpdate>::empty(),
    {
        ConnectionUpdateQueue { updates: Vec::new() }
    }
}

impl ConnectionUpdateQueue {
    /// Queues a new connection between the two nodes.
    pub fn add_connection(&mut self, from: NodeId, to: NodeId)
        ensures
            final(self)@ == old(self)@.push(ConnectionUpdate::Add { from, to }),
    {
        self.updates.push(ConnectionUpdate::Add { from, to });
    }

    /// Queues the removal of the connection between the two nodes.
    pub fn remove_connection(&mut self, from: NodeId, to: NodeId)
        ensures
            final(self)@ == old(self)@.push(ConnectionUpdate::Remove { from, to }),
    {
        self.updates.push(ConnectionUpdate::Remove { from, to });
    }

    /// Queues the removal of every connection of the node.
    pub fn remove_all_connections_for_node(&mut self, node: NodeId)
        ensures
            final(self)@ == old(self)@.push(ConnectionUpdate::RemoveAllForNode { node }),
    {
        self.updates.push(ConnectionUpdate::RemoveAllForNode { node });
    }
}

/// Applies the queued updates to the network's configuration, in order, and
/// empties the queue.
pub fn process_connection_updates(update_queue: &mut ConnectionUpdateQueue, node_data: &mut Vec<NodeConfig>)
    ensures
        final(update_queue)@ == Seq::<ConnectionUpdate>::empty(),
        final(node_data)@.len() == old(node_data)@.len(),
        forall|i: int|
            0 <= i < old(node_data)@.len() ==> relinked(
                old(node_data)@[i],
                #[trigger] final(node_data)@[i],
                links_after(old(node_data)@[i].id, old(node_data)@[i].connected_node_ids@, old(update_queue)@),
            ),
{
    let ghost orig = node_data@;
    let ghost us = update_queue@;
    let mut k: usize = 0;
    while k < update_queue.updates.len()
        invariant
            k <= us.len(),
            update_queue@ == us,
            node_data@.len() == orig.len(),
            forall|i: int|
                0 <= i < orig.len() ==> relinked(
                    orig[i],
                    #[trigger] node_data@[i],
                    links_after(orig[i].id, orig[i].connected_node_ids@, us.subrange(0, k as int)),
                ),
        decreases us.len() - k,
    {
        let u = update_queue.updates[k];
        let ghost before = node_data@;
        apply_connection_update(node_data, u);
        proof {
            assert forall|i: int| 0 <= i < orig.len() implies relinked(
                orig[i],
                #[trigger] node_data@[i],
                links_after(orig[i].id, orig[i].connected_node_ids@, us.subrange(0, k + 1)),
            ) by {
                assert(us.subrange(0, k + 1).drop_last() =~= us.subrange(0, k as int));
                assert(relinked(before[i], node_data@[i], updated_links(before[i].id, before[i].connected_node_ids@, u)));
            }
        }
        k = k + 1;
    }
    assert(us.subrange(0, us.len() as int) =~= us);
    update_queue.updates = Vec::new();
}

/// A request to crash node `id`: refused with the broken rule when the
/// network without it would break a connectivity rule; otherwise (exactly
/// when the network without it meets the chat and the web rules) the node
/// leaves the configuration and the removal of its connections is queued.
pub fn crash_drone(nodes: &mut Vec<NodeConfig>, queue: &mut ConnectionUpdateQueue, id: NodeId) -> (res: Result<(), TopologyIssue>)
    ensures
        exists|s: Seq<NodeConfig>| crash_of(old(nodes)@, id, s),
        forall|s: Seq<NodeConfig>| #[trigger] crash_of(old(nodes)@, id, s) ==> res == first_failure(
            chat_checks(s) + web_checks(s),
        ),
        forall|s: Seq<NodeConfig>| #[trigger] crash_of(old(nodes)@, id, s) ==> (res is Ok <==> (chat_rule(s) && web_rule(s))),
        res is Ok ==> final(nodes)@ == kept_after_removal(old(nodes)@, id)
            && final(queue)@ == old(queue)@.push(ConnectionUpdate::RemoveAllForNode { node: id }),
        res is Err ==> final(nodes)@ == old(nodes)@ && final(queue)@ == old(queue)@,
{
    let res = check_crash(nodes, id);
    proof {
        assert forall|s: Seq<NodeConfig>| #[trigger] crash_of(old(nodes)@, id, s) implies (res is Ok <==> (chat_rule(s)
            && web_rule(s))) by {
            lemma_connectivity_ok(s);
        }
    }
    if res.is_ok() {
        match find_node(nodes, id) {
            Some(k) => {
                nodes.remove(k);
            },
            None => {},
        }
        queue.remove_all_connections_for_node(id);
    }
    res
}

/// A request to cut the connection between `from` and `to`: refused with the
/// broken rule when the network without it would break a connectivity rule;
/// otherwise its removal is queued.
pub fn disconnect_nodes(nodes: &Vec<NodeConfig>, queue: &mut ConnectionUpdateQueue, from: NodeId, to: NodeId) -> (res: Result<(), TopologyIssue>)
    ensures
        exists|s: Seq<NodeConfig>| disconnect_of(nodes@, from, to, s),
        forall|s: Seq<NodeConfig>| #[trigger] disconnect_of(nodes@, from, to, s) ==> res == first_failure(
            chat_checks(s) + web_checks(s),
        ),
        forall|s: Seq<NodeConfig>| #[trigger] disconnect_of(nodes@, from, to, s) ==> (res is Ok <==> (chat_rule(s)
            && web_rule(s))),
        res is Ok ==> final(queue)@ == old(queue)@.push(ConnectionUpdate::Remove { from, to }),
        res is Err ==> final(queue)@ == old(queue)@,
{
    let res = check_disconnect(nodes, from, to);
    proof {
        assert forall|s: Seq<NodeConfig>| #[trigger] disconnect_of(nodes@, from, to, s) implies (res is Ok <==> (
        chat_rule(s) && web_rule(s))) by {
            lemma_connectivity_ok(s);
        }
    }
    if res.is_ok() {
        queue.remove_connection(from, to);
    }
    res
}

// ---------------------------------------------------------------------------
// Laws of the connection updates
// ---------------------------------------------------------------------------

/// Once a connection is added, both of its ends list each other.
pub proof fn lemma_added_connection_listed(from_links: Seq<NodeId>, to_links: Seq<NodeId>, from: NodeId, to: NodeId)
    ensures
        updated_links(from, from_links, ConnectionUpdate::Add { from, to }).contains(to),
        updated_links(to, to_links, ConnectionUpdate::Add { from, to }).contains(from),
{
    let l = links_with(from_links, to);
    assert(l.contains(to)) by {
        if !from_links.contains(to) {
            assert(l[from_links.len() as int] == to);
        }
    }
    if from == to {
        assert(links_with(l, from) == l);
    }
    let m = if to == from { links_with(to_links, to) } else { to_links };
    assert(links_with(m, from).contains(from)) by {
        if !m.contains(from) {
            assert(links_with(m, from)[m.len() as int] == from);
        }
    }
}

/// Once a connection is removed, neither of its ends lists the other.
pub proof fn lemma_removed_connection_unlisted(from_links: Seq<NodeId>, to_links: Seq<NodeId>, from: NodeId, to: NodeId)
    ensures
        !updated_links(from, from_links, ConnectionUpdate::Remove { from, to }).contains(to),
        !updated_links(to, to_links, ConnectionUpdate::Remove { from, to }).contains(from),
{
    lemma_without_excludes(from_links, to);
    if from == to {
        let l = without_id(from_links, to);
        lemma_without_absent(l, from);
    }
    let m = if to == from { without_id(to_links, to) } else { to_links };
    lemma_without_excludes(m, from);
}

/// Once a node loses all its connections, no node lists it.
pub proof fn lemma_isolated_node_unlisted(id: NodeId, links: Seq<NodeId>, node: NodeId)
    ensures
        !updated_links(id, links, ConnectionUpdate::RemoveAllForNode { node }).contains(node),
{
    lemma_without_excludes(links, node);
}

/// Adding a connection that neither end listed and removing it again leaves
/// the links of every node as they were.
pub proof fn lemma_add_then_remove(id: NodeId, links: Seq<NodeId>, from: NodeId, to: NodeId)
    requires
        from != to,
        id == from ==> !links.contains(to),
        id == to ==> !links.contains(from),
    ensures
        links_after(id, links, seq![ConnectionUpdate::Add { from, to }, ConnectionUpdate::Remove { from, to }]) == links,
{
    let us = seq![ConnectionUpdate::Add { from, to }, ConnectionUpdate::Remove { from, to }];
    let one = seq![ConnectionUpdate::Add { from, to }];
    assert(us.drop_last() =~= one);
    assert(one.drop_last() =~= Seq::<ConnectionUpdate>::empty());
    assert(links_after(id, links, one.drop_last()) == links);
    let added = updated_links(id, links, ConnectionUpdate::Add { from, to });
    assert(links_after(id, links, one) == added);
    if id == from {
        lemma_without_push(links, to);
        lemma_without_absent(links, to);
    } else if id == to {
        lemma_without_push(links, from);
        lemma_without_absent(links, from);
    }
}

} // verus!
