use rolling_drones::chat::ChatClientEvent;
use rolling_drones::client::ClientCore;
use rolling_drones::common::{ChatResponse, FileMetaData, MediaServer, MessageChat, ServerType, TextServer};
use rolling_drones::web::{BrowserStep, WebBrowserEvent};

fn file(content: &str) -> FileMetaData {
    FileMetaData { title: "page".to_string(), extension: "txt".to_string(), content: content.to_string() }
}

#[test]
fn text_server_answers() {
    let mut c = ClientCore::new(1);
    match c.on_text_server_message(5, TextServer::ServerTypeText(ServerType::TextServer)) {
        BrowserStep::Report(WebBrowserEvent::TextServers(me, l)) => {
            assert_eq!(me, 1);
            assert_eq!(l, vec![5]);
        },
        _ => panic!("expected the text servers"),
    }
    c.on_text_server_message(5, TextServer::ServerTypeText(ServerType::TextServer));
    c.on_text_server_message(6, TextServer::ServerTypeText(ServerType::MediaServer));
    assert_eq!(c.text_servers, vec![5]);
    match c.on_text_server_message(5, TextServer::SendFileList(vec!["a.txt".to_string()])) {
        BrowserStep::Report(WebBrowserEvent::ListFiles(1, l)) => assert_eq!(l, vec!["a.txt".to_string()]),
        _ => panic!("expected the file list"),
    }
    match c.on_text_server_message(5, TextServer::PositionMedia(9)) {
        BrowserStep::Report(WebBrowserEvent::MediaPosition(1, 9)) => {},
        _ => panic!("expected the media position"),
    }
    match c.on_text_server_message(5, TextServer::Text(file("aGk="))) {
        BrowserStep::SaveText(f) => {
            assert_eq!(f.path, "assets/multimedia/SC/page.txt");
            assert_eq!(f.bytes, b"hi".to_vec());
        },
        _ => panic!("expected a text to store"),
    }
    match c.on_text_server_message(5, TextServer::Text(file("%%"))) {
        BrowserStep::Failure(e) => assert_eq!(e, "Failed to decode the file"),
        _ => panic!("expected a failure"),
    }
    assert!(matches!(c.on_text_server_message(5, TextServer::PathResolution), BrowserStep::Nothing));
}

#[test]
fn media_server_answers() {
    let mut c = ClientCore::new(2);
    match c.on_media_server_message(7, MediaServer::ServerTypeMedia(ServerType::MediaServer)) {
        BrowserStep::Report(WebBrowserEvent::MediaServers(2, l)) => assert_eq!(l, vec![7]),
        _ => panic!("expected the media servers"),
    }
    match c.on_media_server_message(7, MediaServer::SendMedia(file("AAEC"))) {
        BrowserStep::SaveMedia(f) => assert_eq!(f.bytes, vec![0u8, 1, 2]),
        _ => panic!("expected a media file to store"),
    }
    assert!(matches!(c.on_media_server_message(7, MediaServer::SendPath(vec![])), BrowserStep::Nothing));
}

#[test]
fn chat_server_answers() {
    let mut c = ClientCore::new(1);
    match c.on_chat_response(3, ChatResponse::ServerTypeChat(ServerType::CommunicationServer)) {
        Some(ChatClientEvent::ChatServers(1, l)) => assert_eq!(l, vec![3]),
        _ => panic!("expected the chat servers"),
    }
    match c.on_chat_response(3, ChatResponse::RegisterClient(true)) {
        Some(ChatClientEvent::RegisteredSuccess((1, 3), r)) => assert_eq!(r, Ok(())),
        _ => panic!("expected a registration outcome"),
    }
    match c.on_chat_response(3, ChatResponse::RegisterClient(false)) {
        Some(ChatClientEvent::RegisteredSuccess(_, r)) => assert_eq!(r, Err("registration not successful".to_string())),
        _ => panic!("expected a registration outcome"),
    }
    match c.on_chat_response(3, ChatResponse::RegisteredClients(vec![1, 2])) {
        Some(ChatClientEvent::ClientList((1, 3), l)) => assert_eq!(l, vec![1, 2]),
        _ => panic!("expected the client list"),
    }
    match c.on_chat_response(3, ChatResponse::ForwardMessage(MessageChat::new("ciao".to_string(), 2, 1))) {
        Some(ChatClientEvent::IncomingMessage((1, 3, 2), text)) => assert_eq!(text, "ciao"),
        _ => panic!("expected a message"),
    }
    assert!(c.on_chat_response(3, ChatResponse::EndChat(true)).is_none());
}
