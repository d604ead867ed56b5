use vstd::prelude::*;
use crate::packet::NodeId;

verus! {

/// The kinds of server a client can ask about.
#[derive(Clone, Copy, Debug, PartialEq, Eq, Structural)]
pub enum ServerType {
    CommunicationServer,
    TextServer,
    MediaServer,
}

/// The kinds of client.
#[derive(Clone, Copy, Debug, PartialEq, Eq, Structural)]
pub enum ClientType {
    ChatClient,
    WebBrowser,
}

/// What a chat client reports having sent; the number is the count of fragments.
#[derive(Clone, Copy, Debug, PartialEq, Eq, Structural)]
pub enum RequestEvent {
    AskType(u64),
    Register(u64),
    SendMessage(u64),
}

/// What a chat server reports having sent; the number is the count of fragments.
#[derive(Clone, Copy, Debug, PartialEq, Eq, Structural)]
pub enum ChatServerEvent {
    SendingServerTypeChat(u64),
    ClientRegistration(u64),
    SendingClientList(u64),
    ForwardingMessage(u64),
    ClientElimination(u64),
}

/// What a text server reports having sent; the number is the count of fragments.
#[derive(Clone, Copy, Debug, PartialEq, Eq, Structural)]
pub enum TextServerEvent {
    SendingFileList(u64),
    SendingPosition(u64),
    SendingText(u64),
    SendingServerTypeText(u64),
    SendingServerTypeReq(u64),
    AskingForPathRes(u64),
}

/// What a media server reports having sent; the number is the count of fragments.
#[derive(Clone, Copy, Debug, PartialEq, Eq, Structural)]
pub enum MediaServerEvent {
    SendingServerTypeMedia(u64),
    SendingPathRes(u64),
    SendingMedia(u64),
}

/// Kinds of chat message a client or server reports; the number is the count of fragments.
#[derive(Clone, Copy, Debug, PartialEq, Eq, Structural)]
pub enum ChatEvent {
    ClientList(u64),
    IncomingMessage(u64),
    RegisteredSuccess(u64),
    ChatServers(u64),
    ClientType(u64),
}

/// What a web browser reports having sent; the number is the count of fragments.
#[derive(Clone, Copy, Debug, PartialEq, Eq, Structural)]
pub enum ContentRequest {
    AskTypes(u64),
    GetList(u64),
    GetPosition(u64),
    GetMedia(u64),
    GetText(u64),
}

/// Kinds of web content a node reports; the number is the count of fragments.
#[derive(Clone, Copy, Debug, PartialEq, Eq, Structural)]
pub enum ContentType {
    TextServerList(u64),
    MediaServerList(u64),
    FileList(u64),
    MediaPosition(u64),
    SavedMedia(u64),
    SavedText(u64),
}

impl ContentType {
    /// The human-readable name of the content kind.
    pub fn describe(&self) -> (s: &'static str)
        ensures
            s@ == content_description(*self)@,
    {
        match self {
            ContentType::TextServerList(_) => "Fragment of a TextServer List packet",
            ContentType::MediaServerList(_) => "Fragment of a MediaServer List packet",
            ContentType::FileList(_) => "Fragment of a File List packet",
            ContentType::MediaPosition(_) => "Fragment of a MediaPosition packet",
            ContentType::SavedMedia(_) => "Fragment of a SavedMedia packet",
            ContentType::SavedText(_) => "Fragment of a SavedText packet",
        }
    }
}

pub open spec fn content_description(c: ContentType) -> &'static str {
    match c {
        ContentType::TextServerList(_) => "Fragment of a TextServer List packet",
        ContentType::MediaServerList(_) => "Fragment of a MediaServer List packet",
        ContentType::FileList(_) => "Fragment of a File List packet",
        ContentType::MediaPosition(_) => "Fragment of a MediaPosition packet",
        ContentType::SavedMedia(_) => "Fragment of a SavedMedia packet",
        ContentType::SavedText(_) => "Fragment of a SavedText packet",
    }
}

/// The signal that starts a background flood.
#[derive(Clone, Copy, Debug, PartialEq, Eq, Structural)]
pub enum BackGroundFlood {
    Start,
}

/// A chat message to deliver.
#[derive(Debug)]
pub struct MessageChat {
    pub content: String,
    pub from_id: NodeId,
    pub to_id: NodeId,
}

impl MessageChat {
    pub fn new(content: String, from_id: NodeId, to_id: NodeId) -> (res: MessageChat)
        ensures
            res.content@ == content@,
            res.from_id == from_id,
            res.to_id == to_id,
    {
        MessageChat { content, from_id, to_id }
    }
}

/// A file sent by a server: its title, its extension and its content in Base64.
#[derive(Debug)]
pub struct FileMetaData {
    pub title: String,
    pub extension: String,
    pub content: String,
}

/// Requests of a web browser.
#[derive(Debug)]
pub enum WebBrowserCommands {
    GetList,
    GetPosition(String),
    GetMedia(String),
    GetText(String),
    GetServerType,
}

/// Messages of a media server.
#[derive(Debug)]
pub enum MediaServer {
    ServerTypeMedia(ServerType),
    SendPath(Vec<String>),
    SendMedia(FileMetaData),
}

/// Messages of a text server.
#[derive(Debug)]
pub enum TextServer {
    ServerTypeReq,
    ServerTypeText(ServerType),
    PathResolution,
    SendFileList(Vec<String>),
    PositionMedia(NodeId),
    Text(FileMetaData),
}

/// Requests of a chat client.
#[derive(Debug)]
pub enum ChatRequest {
    ServerType,
    RegisterClient(NodeId),
    GetListClients,
    SendMessage(MessageChat, NodeId),
    EndChat(NodeId),
}

/// Answers of a chat server.
#[derive(Debug)]
pub enum ChatResponse {
    ServerTypeChat(ServerType),
    RegisterClient(bool),
    RegisteredClients(Vec<NodeId>),
    SendMessage(Result<String, String>),
    EndChat(bool),
    ForwardMessage(MessageChat),
}

} // verus!
