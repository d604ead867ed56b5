use vstd::prelude::*;
use std::collections::HashMap;
use crate::network::NodeCategory;
use crate::packet::NodeId;
use crate::text_pages::{decimal_chars, decimal_text};
use crate::topology::{
    NodeConfig, NodeType, TopologyIssue, would_break_connectivity, validate_duplex_connections, first_failure,
    chat_checks, web_checks, duplex_checks,
};

verus! {

/// The decimal text of a node id.
pub open spec fn id_text(id: NodeId) -> Seq<char> {
    decimal_chars(id as nat)
}

/// The message shown for a rejected configuration.
pub open spec fn issue_message(issue: TopologyIssue) -> Seq<char> {
    match issue {
        TopologyIssue::ClientWithoutServer(c) => "ChatClient "@ + id_text(c) + " cannot reach any ChatServer"@,
        TopologyIssue::ServerWithFewClients(s, n) => "ChatServer "@ + id_text(s)
            + " must be able to reach at least 2 different ChatClients through drones, but can only reach "@
            + decimal_chars(n as nat),
        TopologyIssue::BrowserCannotReachText(b, t) => "WebBrowser "@ + id_text(b) + " cannot reach TextServer "@ + id_text(t),
        TopologyIssue::BrowserCannotReachMedia(b, m) => "WebBrowser "@ + id_text(b) + " cannot reach MediaServer "@ + id_text(m) + " "@,
        TopologyIssue::TextCannotReachMedia(t, m) => "TextServer "@ + id_text(t) + " cannot reach MediaServer "@ + id_text(m) + " "@,
        TopologyIssue::TextCannotReachText(t, o) => "TextServer "@ + id_text(t) + " cannot reach Text/MediaServer "@ + id_text(o),
        TopologyIssue::MissingConnection(a, b) => "Missing connection between "@ + id_text(a) + "-"@ + id_text(b),
    }
}

fn id_string(id: NodeId) -> (s: String)
    ensures
        s@ == id_text(id),
{
    decimal_text(id as usize)
}

impl TopologyIssue {
    /// The message that explains the rejection.
    pub fn message(&self) -> (s: String)
        ensures
            s@ == issue_message(*self),
    {
        match *self {
            TopologyIssue::ClientWithoutServer(c) => {
                let mut s = String::from_str("ChatClient ");
                s.append(id_string(c).as_str());
                s.append(" cannot reach any ChatServer");
                s
            },
            TopologyIssue::ServerWithFewClients(srv, n) => {
                let mut s = String::from_str("ChatServer ");
                s.append(id_string(srv).as_str());
                s.append(" must be able to reach at least 2 different ChatClients through drones, but can only reach ");
                s.append(decimal_text(n).as_str());
                s
            },
            TopologyIssue::BrowserCannotReachText(b, t) => {
                let mut s = String::from_str("WebBrowser ");
                s.append(id_string(b).as_str());
                s.append(" cannot reach TextServer ");
                s.append(id_string(t).as_str());
                s
            },
            TopologyIssue::BrowserCannotReachMedia(b, m) => {
                let mut s = String::from_str("WebBrowser ");
                s.append(id_string(b).as_str());
                s.append(" cannot reach MediaServer ");
                s.append(id_string(m).as_str());
                s.append(" ");
                s
            },
            TopologyIssue::TextCannotReachMedia(t, m) => {
                let mut s = String::from_str("TextServer ");
                s.append(id_string(t).as_str());
                s.append(" cannot reach MediaServer ");
                s.append(id_string(m).as_str());
                s.append(" ");
                s
            },
            TopologyIssue::TextCannotReachText(t, o) => {
                let mut s = String::from_str("TextServer ");
                s.append(id_string(t).as_str());
                s.append(" cannot reach Text/MediaServer ");
                s.append(id_string(o).as_str());
                s
            },
            TopologyIssue::MissingConnection(a, b) => {
                let mut s = String::from_str("Missing connection between ");
                s.append(id_string(a).as_str());
                s.append("-");
                s.append(id_string(b).as_str());
                s
            },
        }
    }
}

/// The outcome of a check as text: nothing when it passed, the message when it failed.
pub open spec fn outcome_text(r: Result<(), TopologyIssue>) -> Result<(), Seq<char>> {
    match r {
        Ok(()) => Ok(()),
        Err(e) => Err(issue_message(e)),
    }
}

pub open spec fn text_view(r: Result<(), String>) -> Result<(), Seq<char>> {
    match r {
        Ok(()) => Ok(()),
        Err(e) => Err(e@),
    }
}

fn outcome_string(r: Result<(), TopologyIssue>) -> (res: Result<(), String>)
    ensures
        text_view(res) == outcome_text(r),
{
    match r {
        Ok(()) => Ok(()),
        Err(e) => Err(e.message()),
    }
}

/// The outcome of the configuration checks, as the back end hands it to the
/// set-up screen. Each check carries a flag and its result; `is_updated`
/// says that a report is waiting to be read.
pub struct TopologyError {
    pub connection_error: (bool, Result<(), String>),
    pub isolated_node: (bool, Result<(), String>),
    pub wrong_pdr: (bool, Result<(), String>),
    pub generic_misconfiguration: (bool, Result<(), String>),
    pub is_updated: bool,
}

impl Default for TopologyError {
    /// No report yet: every check passed, nothing is waiting.
    fn default() -> (r: TopologyError)
        ensures
            r.connection_error.0 == false && r.connection_error.1 is Ok,
            r.isolated_node.0 == false && r.isolated_node.1 is Ok,
            r.wrong_pdr.0 == false && r.wrong_pdr.1 is Ok,
            r.generic_misconfiguration.0 == false && r.generic_misconfiguration.1 is Ok,
            !r.is_updated,
    {
        TopologyError {
            connection_error: (false, Ok(())),
            isolated_node: (false, Ok(())),
            wrong_pdr: (false, Ok(())),
            generic_misconfiguration: (false, Ok(())),
            is_updated: false,
        }
    }
}

impl TopologyError {
    /// The report on a configuration: the connectivity rules decide
    /// `isolated_node`, the duplex rule decides `connection_error`; the
    /// drop-rate check and the remaining check come in as results. The
    /// report is marked as waiting to be read.
    pub fn from_checks(
        nodes: &[NodeConfig],
        wrong_pdr: Result<(), String>,
        generic_misconfiguration: Result<(), String>,
    ) -> (r: TopologyError)
        ensures
            text_view(r.isolated_node.1) == outcome_text(first_failure(chat_checks(nodes@) + web_checks(nodes@))),
            text_view(r.connection_error.1) == outcome_text(first_failure(duplex_checks(nodes@))),
            text_view(r.wrong_pdr.1) == text_view(wrong_pdr),
            text_view(r.generic_misconfiguration.1) == text_view(generic_misconfiguration),
            !r.isolated_node.0 && !r.connection_error.0 && !r.wrong_pdr.0 && !r.generic_misconfiguration.0,
            r.is_updated,
    {
        let isolated = outcome_string(would_break_connectivity(nodes));
        let connection = outcome_string(validate_duplex_connections(nodes));
        TopologyError {
            connection_error: (false, connection),
            isolated_node: (false, isolated),
            wrong_pdr: (false, wrong_pdr),
            generic_misconfiguration: (false, generic_misconfiguration),
            is_updated: true,
        }
    }
}

/// The screens of the application.
#[derive(Clone, Copy, Debug, PartialEq, Eq, Structural)]
pub enum AppState {
    Menu,
    SetUp,
    InGame,
}

/// What the set-up screen knows of the configuration checks: the message of
/// each failed check (empty when it passed), whether every check passed and
/// whether any failed.
pub struct ErrorConfig {
    pub error_pdr: String,
    pub error_isolated: String,
    pub error_connection: String,
    pub error_generic: String,
    pub updated: bool,
    pub detected: bool,
}

/// The message of a check's result: empty when it passed.
pub open spec fn message_of(r: Result<(), String>) -> Seq<char> {
    match r {
        Ok(()) => Seq::empty(),
        Err(e) => e@,
    }
}

impl Default for ErrorConfig {
    fn default() -> (r: ErrorConfig)
        ensures
            r.error_pdr@ == Seq::<char>::empty(),
            r.error_isolated@ == Seq::<char>::empty(),
            r.error_connection@ == Seq::<char>::empty(),
            r.error_generic@ == Seq::<char>::empty(),
            !r.updated,
            !r.detected,
    {
        ErrorConfig {
            error_pdr: String::new(),
            error_isolated: String::new(),
            error_connection: String::new(),
            error_generic: String::new(),
            updated: false,
            detected: false,
        }
    }
}

fn message_string(r: &Result<(), String>) -> (s: String)
    ensures
        s@ == message_of(*r),
{
    match r {
        Ok(()) => String::new(),
        Err(e) => e.clone(),
    }
}

/// Reads a waiting report into the set-up screen's state: each check's
/// message, whether all passed and whether any failed. The report is then
/// marked as read; one that was not waiting changes nothing else.
pub fn sync_topology_error(possible_error: &mut ErrorConfig, state: &mut TopologyError)
    ensures
        old(state).is_updated ==> {
            &&& final(possible_error).error_connection@ == message_of(old(state).connection_error.1)
            &&& final(possible_error).error_pdr@ == message_of(old(state).wrong_pdr.1)
            &&& final(possible_error).error_isolated@ == message_of(old(state).isolated_node.1)
            &&& final(possible_error).error_generic@ == message_of(old(state).generic_misconfiguration.1)
            &&& final(possible_error).updated == (old(state).connection_error.1 is Ok
                && old(state).wrong_pdr.1 is Ok && old(state).isolated_node.1 is Ok
                && old(state).generic_misconfiguration.1 is Ok)
            &&& final(possible_error).detected == !final(possible_error).updated
        },
        !old(state).is_updated ==> *final(possible_error) == *old(possible_error),
        !final(state).is_updated,
        final(state).connection_error == old(state).connection_error,
        final(state).isolated_node == old(state).isolated_node,
        final(state).wrong_pdr == old(state).wrong_pdr,
        final(state).generic_misconfiguration == old(state).generic_misconfiguration,
{
    if state.is_updated {
        possible_error.error_connection = message_string(&state.connection_error.1);
        possible_error.error_pdr = message_string(&state.wrong_pdr.1);
        possible_error.error_isolated = message_string(&state.isolated_node.1);
        possible_error.error_generic = message_string(&state.generic_misconfiguration.1);
        let all_ok = state.connection_error.1.is_ok() && state.wrong_pdr.1.is_ok()
            && state.isolated_node.1.is_ok() && state.generic_misconfiguration.1.is_ok();
        possible_error.updated = all_ok;
        possible_error.detected = !all_ok;
    }
    state.is_updated = false;
}

/// The screen to move to from set-up: the simulation once every check has
/// passed; none (stay) otherwise.
pub fn evaluate_state(topology_error: &ErrorConfig) -> (next: Option<AppState>)
    ensures
        next == if topology_error.updated { Some(AppState::InGame) } else { None::<AppState> },
{
    if topology_error.updated {
        Some(AppState::InGame)
    } else {
        None
    }
}

/// The plugin that carries the back end's state to the screens.
pub struct BackendBridgePlugin;


/// What the back end tells the set-up screen about the nodes it started:
/// the kind of every client and server, how many of each there are, and
/// whether something new is waiting to be read.
pub struct ThreadInfo {
    pub nodes: HashMap<NodeId, NodeCategory>,
    pub n_clients: usize,
    pub client_types: Vec<(NodeType, NodeId)>,
    pub n_servers: usize,
    pub server_types: Vec<(NodeType, NodeId)>,
    pub is_updated: bool,
    pub ready_setup: bool,
}

impl Default for ThreadInfo {
    fn default() -> (r: ThreadInfo)
        ensures
            r.nodes@ == Map::<NodeId, NodeCategory>::empty(),
            r.n_clients == 0 && r.n_servers == 0,
            r.client_types@ == Seq::<(NodeType, NodeId)>::empty(),
            r.server_types@ == Seq::<(NodeType, NodeId)>::empty(),
            !r.is_updated && !r.ready_setup,
    {
        ThreadInfo {
            nodes: HashMap::new(),
            n_clients: 0,
            client_types: Vec::new(),
            n_servers: 0,
            server_types: Vec::new(),
            is_updated: false,
            ready_setup: false,
        }
    }
}

pub open spec fn is_client_type(t: NodeType) -> bool {
    t == NodeType::WebBrowser || t == NodeType::ChatClient
}

pub open spec fn is_server_type(t: NodeType) -> bool {
    t == NodeType::TextServer || t == NodeType::MediaServer || t == NodeType::ChatServer
}

/// Records a started node `id` of kind `node_type`, one of `n` of its group:
/// a client or a server is listed and its group's count set to `n`, and the
/// state is marked as waiting to be read; a drone changes nothing.
pub fn set_node_types(state: &mut ThreadInfo, node_type: NodeType, n: usize, id: NodeId)
    ensures
        final(state).nodes@ == old(state).nodes@,
        final(state).ready_setup == old(state).ready_setup,
        is_client_type(node_type) ==> final(state).n_clients == n
            && final(state).client_types@ == old(state).client_types@.push((node_type, id))
            && final(state).n_servers == old(state).n_servers && final(state).server_types@ == old(state).server_types@
            && final(state).is_updated,
        is_server_type(node_type) ==> final(state).n_servers == n
            && final(state).server_types@ == old(state).server_types@.push((node_type, id))
            && final(state).n_clients == old(state).n_clients && final(state).client_types@ == old(state).client_types@
            && final(state).is_updated,
        node_type == NodeType::Drone ==> final(state).n_clients == old(state).n_clients
            && final(state).client_types@ == old(state).client_types@ && final(state).n_servers == old(state).n_servers
            && final(state).server_types@ == old(state).server_types@ && final(state).is_updated == old(state).is_updated,
{
    match node_type {
        NodeType::WebBrowser | NodeType::ChatClient => {
            state.n_clients = n;
            state.client_types.push((node_type, id));
            state.is_updated = true;
        },
        NodeType::TextServer | NodeType::MediaServer | NodeType::ChatServer => {
            state.n_servers = n;
            state.server_types.push((node_type, id));
            state.is_updated = true;
        },
        NodeType::Drone => {},
    }
}

/// What the set-up screen has seen of the started nodes.
pub struct SeenClients {
    pub nodes: HashMap<NodeId, NodeCategory>,
    pub clients: Vec<(NodeType, NodeId)>,
    pub clients_len: usize,
    pub servers: Vec<(NodeType, NodeId)>,
    pub servers_len: usize,
    pub ready_setup: bool,
}

impl Default for SeenClients {
    fn default() -> (r: SeenClients)
        ensures
            r.nodes@ == Map::<NodeId, NodeCategory>::empty(),
            r.clients@ == Seq::<(NodeType, NodeId)>::empty(),
            r.servers@ == Seq::<(NodeType, NodeId)>::empty(),
            r.clients_len == 0 && r.servers_len == 0,
            !r.ready_setup,
    {
        SeenClients {
            nodes: HashMap::new(),
            clients: Vec::new(),
            clients_len: 0,
            servers: Vec::new(),
            servers_len: 0,
            ready_setup: false,
        }
    }
}

fn copy_typed(v: &Vec<(NodeType, NodeId)>) -> (res: Vec<(NodeType, NodeId)>)
    ensures
        res@ == v@,
{
    let mut res: Vec<(NodeType, NodeId)> = Vec::new();
    let mut i: usize = 0;
    while i < v.len()
        invariant
            i <= v@.len(),
            res@ == v@.subrange(0, i as int),
        decreases v@.len() - i,
    {
        res.push(v[i]);
        i = i + 1;
        assert(res@ =~= v@.subrange(0, i as int));
    }
    assert(v@.subrange(0, v@.len() as int) =~= v@);
    res
}

fn append_typed(dst: &mut Vec<(NodeType, NodeId)>, src: &Vec<(NodeType, NodeId)>)
    ensures
        final(dst)@ == old(dst)@ + src@,
{
    let mut i: usize = 0;
    let ghost start = dst@;
    while i < src.len()
        invariant
            i <= src@.len(),
            dst@ == start + src@.subrange(0, i as int),
        decreases src@.len() - i,
    {
        dst.push(src[i]);
        i = i + 1;
        assert(dst@ =~= start + src@.subrange(0, i as int));
    }
    assert(src@.subrange(0, src@.len() as int) =~= src@);
}

/// Reads waiting news of the started nodes into what the set-up screen has
/// seen: the clients are replaced, the servers extended, both counts
/// increased, and the node kinds and readiness copied. The news is then
/// marked as read.
pub fn sync_before_setup(seen_clients: &mut SeenClients, state: &mut ThreadInfo)
    requires
        old(state).is_updated ==> old(seen_clients).clients_len + old(state).n_clients <= usize::MAX
            && old(seen_clients).servers_len + old(state).n_servers <= usize::MAX,
    ensures
        old(state).is_updated ==> {
            &&& final(seen_clients).clients@ == old(state).client_types@
            &&& final(seen_clients).clients_len == old(seen_clients).clients_len + old(state).n_clients
            &&& final(seen_clients).servers@ == old(seen_clients).servers@ + old(state).server_types@
            &&& final(seen_clients).servers_len == old(seen_clients).servers_len + old(state).n_servers
            &&& final(seen_clients).ready_setup == old(state).ready_setup
            &&& final(seen_clients).nodes@ == old(state).nodes@
        },
        !old(state).is_updated ==> *final(seen_clients) == *old(seen_clients),
        !final(state).is_updated,
        final(state).nodes@ == old(state).nodes@,
        final(state).client_types@ == old(state).client_types@,
        final(state).server_types@ == old(state).server_types@,
        final(state).n_clients == old(state).n_clients,
        final(state).n_servers == old(state).n_servers,
        final(state).ready_setup == old(state).ready_setup,
{
    if state.is_updated {
        seen_clients.clients = copy_typed(&state.client_types);
        seen_clients.clients_len = seen_clients.clients_len + state.n_clients;
        append_typed(&mut seen_clients.servers, &state.server_types);
        seen_clients.servers_len = seen_clients.servers_len + state.n_servers;
        seen_clients.ready_setup = state.ready_setup;
        seen_clients.nodes = state.nodes.clone();
    }
    state.is_updated = false;
}

} // verus!
