use vstd::prelude::*;
use crate::packet::NodeId;

verus! {

// ---------------------------------------------------------------------------
// Chat windows
// ---------------------------------------------------------------------------

/// Whether a registration table (each (client, server) pair once, with
/// whether the client is registered at that server) marks the client as
/// registered there.
pub open spec fn is_registered(table: Seq<((NodeId, NodeId), bool)>, client: NodeId, server: NodeId) -> bool {
    exists|i: int| 0 <= i < table.len() && table[i] == ((client, server), true)
}

fn registered(table: &Vec<((NodeId, NodeId), bool)>, client: NodeId, server: NodeId) -> (b: bool)
    ensures
        b == is_registered(table@, client, server),
{
    let mut i: usize = 0;
    while i < table.len()
        invariant
            i <= table@.len(),
            forall|j: int| 0 <= j < i ==> table@[j] != ((client, server), true),
        decreases table@.len() - i,
    {
        let ((c, s), r) = table[i];
        if c == client && s == server && r {
            assert(table@[i as int] == ((client, server), true));
            return true;
        }
        i = i + 1;
    }
    false
}

/// A chat window can chat when it has a partner and a server, and both the
/// window's client and the partner are registered at that server.
pub open spec fn chat_open(table: Seq<((NodeId, NodeId), bool)>, me: NodeId, partner: Option<NodeId>, server: Option<NodeId>) -> bool {
    match (partner, server) {
        (Some(p), Some(s)) => is_registered(table, me, s) && is_registered(table, p, s),
        _ => false,
    }
}

/// Chatting through a server needs both ends registered there: a client not
/// registered at a server chats with nobody through it, and whoever can chat
/// with a partner through a server, the partner can chat back through it.
pub proof fn lemma_chat_needs_both_registered(table: Seq<((NodeId, NodeId), bool)>, me: NodeId, partner: NodeId, server: NodeId)
    ensures
        chat_open(table, me, Some(partner), Some(server)) ==> exists|i: int|
            0 <= i < table.len() && table[i] == ((me, server), true),
        chat_open(table, me, Some(partner), Some(server)) ==> exists|i: int|
            0 <= i < table.len() && table[i] == ((partner, server), true),
        chat_open(table, me, Some(partner), Some(server)) == chat_open(table, partner, Some(me), Some(server)),
        (forall|i: int| 0 <= i < table.len() ==> #[trigger] table[i] != ((me, server), true)) ==> !chat_open(
            table,
            me,
            Some(partner),
            Some(server),
        ),
{
}

/// Whether the chat window of `me` can chat (see `chat_open`).
pub fn can_chat(table: &Vec<((NodeId, NodeId), bool)>, me: NodeId, partner: Option<NodeId>, server: Option<NodeId>) -> (b: bool)
    ensures
        b == chat_open(table@, me, partner, server),
        b ==> partner is Some && server is Some,
        b ==> exists|i: int| 0 <= i < table@.len() && table@[i] == ((me, server->0), true),
        b ==> exists|i: int| 0 <= i < table@.len() && table@[i] == ((partner->0, server->0), true),
        (partner is Some && server is Some && (exists|i: int| 0 <= i < table@.len() && table@[i] == ((me, server->0), true))
            && (exists|i: int| 0 <= i < table@.len() && table@[i] == ((partner->0, server->0), true))) ==> b,
{
    match (partner, server) {
        (Some(p), Some(s)) => registered(table, me, s) && registered(table, p, s),
        _ => false,
    }
}

/// Whether a typed message is sent: the window can chat and the text is not
/// empty.
pub fn may_send(table: &Vec<((NodeId, NodeId), bool)>, me: NodeId, partner: Option<NodeId>, server: Option<NodeId>, text: &str) -> (b: bool)
    ensures
        b == (chat_open(table@, me, partner, server) && text@.len() > 0),
        b ==> text@.len() > 0 && partner is Some && server is Some,
        b ==> exists|i: int| 0 <= i < table@.len() && table@[i] == ((me, server->0), true),
        b ==> exists|i: int| 0 <= i < table@.len() && table@[i] == ((partner->0, server->0), true),
{
    can_chat(table, me, partner, server) && text.unicode_len() > 0
}

/// The chat partner after clicking a client's button: clicking the current
/// partner deselects it; clicking a registered client selects it; clicking
/// an unregistered one changes nothing.
pub fn partner_after_click(current: Option<NodeId>, client: NodeId, client_registered: bool) -> (res: Option<NodeId>)
    ensures
        res == if current == Some(client) {
            None
        } else if client_registered {
            Some(client)
        } else {
            current
        },
{
    match current {
        Some(c) => {
            if c == client {
                return None;
            }
        },
        None => {},
    }
    if client_registered {
        Some(client)
    } else {
        current
    }
}

/// The server a window uses after clicking a server in its list: clicking
/// the selected one deselects it, clicking another selects that one.
pub fn server_after_click(current: Option<NodeId>, server: NodeId) -> (res: Option<NodeId>)
    ensures
        res == if current == Some(server) { None } else { Some(server) },
{
    match current {
        Some(c) => {
            if c == server {
                return None;
            }
        },
        None => {},
    }
    Some(server)
}

// ---------------------------------------------------------------------------
// Web browser windows
// ---------------------------------------------------------------------------

/// Whether a media path names a text file: it ends in `.txt`.
pub open spec fn is_text_path(p: Seq<char>) -> bool {
    p.len() >= 4 && p.subrange(p.len() - 4, p.len() as int) == seq!['.', 't', 'x', 't']
}

/// What selecting a media of the list asks for.
#[derive(Clone, Copy, Debug, PartialEq, Eq, Structural)]
pub enum MediaRequest {
    /// The text file, from the selected text server.
    TextFile(NodeId),
    /// Where the media is stored, from the selected text server.
    MediaPosition(NodeId),
    /// No text server is selected: the search fails.
    Unreachable,
}

fn ends_in_txt(path: &str) -> (b: bool)
    ensures
        b == is_text_path(path@),
{
    let n = path.unicode_len();
    if n < 4 {
        return false;
    }
    let r = path.get_char(n - 4) == '.' && path.get_char(n - 3) == 't' && path.get_char(n - 2) == 'x'
        && path.get_char(n - 1) == 't';
    proof {
        let tail = path@.subrange(n - 4, n as int);
        if r {
            assert(tail =~= seq!['.', 't', 'x', 't']);
        } else {
            if tail == seq!['.', 't', 'x', 't'] {
                assert(tail[0] == path@[n - 4]);
                assert(tail[1] == path@[n - 3]);
                assert(tail[2] == path@[n - 2]);
                assert(tail[3] == path@[n - 1]);
            }
        }
    }
    r
}

/// What selecting the media at `path` asks for, given the window's selected
/// text server.
pub fn select_media(text_server: Option<NodeId>, path: &str) -> (r: MediaRequest)
    ensures
        r == match text_server {
            None => MediaRequest::Unreachable,
            Some(s) => if is_text_path(path@) {
                MediaRequest::TextFile(s)
            } else {
                MediaRequest::MediaPosition(s)
            },
        },
{
    match text_server {
        None => MediaRequest::Unreachable,
        Some(s) => {
            if ends_in_txt(path) {
                MediaRequest::TextFile(s)
            } else {
                MediaRequest::MediaPosition(s)
            }
        },
    }
}

/// Whether the media list is shown: the window's selected text server is the
/// one the list was asked from.
pub open spec fn media_list_matches(selected: Option<Option<NodeId>>, asked: Option<Option<NodeId>>) -> bool {
    match (selected, asked) {
        (Some(c), Some(u)) => c == u,
        _ => false,
    }
}

/// Whether the media list is shown (see `media_list_matches`), and whether a
/// list that is not shown is dropped: when the selected server differs from
/// the one the list was asked from.
pub fn media_list_state(selected: Option<Option<NodeId>>, asked: Option<Option<NodeId>>) -> (res: (bool, bool))
    ensures
        res.0 == media_list_matches(selected, asked),
        res.1 == (!media_list_matches(selected, asked) && selected != asked),
{
    let same = match (selected, asked) {
        (Some(c), Some(u)) => match (c, u) {
            (Some(a), Some(b)) => a == b,
            (None, None) => true,
            _ => false,
        },
        (None, None) => true,
        _ => false,
    };
    let shown = match (selected, asked) {
        (Some(_), Some(_)) => same,
        _ => false,
    };
    (shown, !shown && !same)
}

} // verus!
