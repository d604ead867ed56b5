use vstd::prelude::*;
use petgraph::graphmap::UnGraphMap;
use crate::client::ClientCore;
use crate::common::{ChatEvent, ChatResponse, ClientType, RequestEvent, ServerType};
use crate::packet::{copy_ids, NodeId};

verus! {

/// What a chat client reports to the simulation controller.
pub enum ChatClientEvent {
    /// The clients registered at a server: (client, server) and their ids.
    ClientList((NodeId, NodeId), Vec<NodeId>),
    /// A message delivered: (client, server, sender) and its text.
    IncomingMessage((NodeId, NodeId, NodeId), String),
    /// The outcome of a registration: (client, server) and the result.
    RegisteredSuccess((NodeId, NodeId), Result<(), String>),
    Error(NodeId),
    ChatServers(NodeId, Vec<NodeId>),
    ClientType(ClientType, NodeId),
    PacketInfo(NodeId, ChatEvent, u64),
    InfoRequest(NodeId, RequestEvent, u64),
    Graph(NodeId, UnGraphMap<NodeId, u32>),
}

/// The failure a refused registration is reported with.
pub open spec fn registration_failure() -> Seq<char> {
    "registration not successful"@
}

impl ClientCore {
    /// Handles a complete answer of the chat server `src`: its type answer
    /// records it as a chat server (once) and reports the chat servers; a
    /// registration outcome, a list of clients and a delivered message are
    /// reported with the client and the server; other answers report nothing.
    pub fn on_chat_response(&mut self, src: NodeId, msg: ChatResponse) -> (event: Option<ChatClientEvent>)
        requires
            old(self).well_formed(),
        ensures
            final(self).well_formed(),
            final(self).id == old(self).id,
            final(self).text_servers@ == old(self).text_servers@,
            final(self).media_servers@ == old(self).media_servers@,
            final(self).chat_servers@ == if msg matches ChatResponse::ServerTypeChat(t) && t
                == ServerType::CommunicationServer && !old(self).chat_servers@.contains(src) {
                old(self).chat_servers@.push(src)
            } else {
                old(self).chat_servers@
            },
            match msg {
                ChatResponse::ServerTypeChat(_) => event matches Some(ChatClientEvent::ChatServers(me, l))
                    && me == old(self).id && l@ == final(self).chat_servers@,
                ChatResponse::RegisterClient(ok) => event matches Some(ChatClientEvent::RegisteredSuccess(k, r))
                    && k == (old(self).id, src) && (ok ==> r is Ok)
                    && (!ok ==> (r matches Err(e) && e@ == registration_failure())),
                ChatResponse::RegisteredClients(list) => event matches Some(ChatClientEvent::ClientList(k, l))
                    && k == (old(self).id, src) && l@ == list@,
                ChatResponse::ForwardMessage(m) => event matches Some(ChatClientEvent::IncomingMessage(k, text))
                    && k == (old(self).id, src, m.from_id) && text@ == m.content@,
                _ => event is None,
            },
    {
        match msg {
            ChatResponse::ServerTypeChat(server_type) => {
                self.note_chat_server(src, server_type);
                Some(ChatClientEvent::ChatServers(self.id, copy_ids(&self.chat_servers)))
            },
            ChatResponse::RegisterClient(ok) => {
                let r = if ok {
                    Ok(())
                } else {
                    Err(String::from_str("registration not successful"))
                };
                Some(ChatClientEvent::RegisteredSuccess((self.id, src), r))
            },
            ChatResponse::RegisteredClients(list) => Some(ChatClientEvent::ClientList((self.id, src), list)),
            ChatResponse::ForwardMessage(m) => {
                let sender = m.from_id;
                Some(ChatClientEvent::IncomingMessage((self.id, src, sender), m.content))
            },
            _ => None,
        }
    }
}

} // verus!
