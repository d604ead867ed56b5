use vstd::prelude::*;
use crate::client::ClientCore;
use crate::common::{MediaServer, ServerType, TextServer};
use crate::files::{base64_decoded, decode_failure, prepare_file, save_path, FileToSave};
use crate::packet::{copy_ids, NodeId};

verus! {

/// The folder received texts and media are stored in.
pub open spec fn download_folder() -> Seq<char> {
    "assets/multimedia/SC"@
}

/// What a web browser reports to the simulation controller.
pub enum WebBrowserEvent {
    TextServers(NodeId, Vec<NodeId>),
    ListFiles(NodeId, Vec<String>),
    MediaPosition(NodeId, NodeId),
    MediaServers(NodeId, Vec<NodeId>),
}

/// What a web browser does with a complete message from a server: report to
/// the controller, store a file (and then report where), show a failure, or
/// nothing.
pub enum BrowserStep {
    Report(WebBrowserEvent),
    SaveText(FileToSave),
    SaveMedia(FileToSave),
    Failure(String),
    Nothing,
}

impl ClientCore {
    /// Handles a message of a text server `src`: its type answer records it
    /// as a text server (once) and reports the text servers; a file list or
    /// a media position is reported; a text is stored in the download folder
    /// (or its decoding failure shown); other messages do nothing.
    pub fn on_text_server_message(&mut self, src: NodeId, msg: TextServer) -> (step: BrowserStep)
        requires
            old(self).well_formed(),
        ensures
            final(self).well_formed(),
            final(self).id == old(self).id,
            final(self).chat_servers@ == old(self).chat_servers@,
            final(self).media_servers@ == old(self).media_servers@,
            final(self).text_servers@ == if msg matches TextServer::ServerTypeText(t) && t == ServerType::TextServer
                && !old(self).text_servers@.contains(src) {
                old(self).text_servers@.push(src)
            } else {
                old(self).text_servers@
            },
            match msg {
                TextServer::ServerTypeText(_) => step matches BrowserStep::Report(WebBrowserEvent::TextServers(me, l))
                    && me == old(self).id && l@ == final(self).text_servers@,
                TextServer::SendFileList(list) => step matches BrowserStep::Report(WebBrowserEvent::ListFiles(me, l))
                    && me == old(self).id && l@ == list@,
                TextServer::PositionMedia(m) => step matches BrowserStep::Report(WebBrowserEvent::MediaPosition(me, n))
                    && me == old(self).id && n == m,
                TextServer::Text(fmd) => match base64_decoded(fmd.content@) {
                    Some(b) => step matches BrowserStep::SaveText(f) && f.path@ == save_path(
                        download_folder(),
                        fmd.title@,
                        fmd.extension@,
                    ) && f.bytes@ == b,
                    None => step matches BrowserStep::Failure(e) && e@ == decode_failure(),
                },
                _ => step is Nothing,
            },
    {
        match msg {
            TextServer::ServerTypeText(server_type) => {
                self.note_text_server(src, server_type);
                BrowserStep::Report(WebBrowserEvent::TextServers(self.id, copy_ids(&self.text_servers)))
            },
            TextServer::SendFileList(list) => BrowserStep::Report(WebBrowserEvent::ListFiles(self.id, list)),
            TextServer::PositionMedia(media_server_id) => BrowserStep::Report(
                WebBrowserEvent::MediaPosition(self.id, media_server_id),
            ),
            TextServer::Text(text) => {
                match prepare_file("assets/multimedia/SC", &text) {
                    Ok(f) => BrowserStep::SaveText(f),
                    Err(e) => BrowserStep::Failure(e),
                }
            },
            _ => BrowserStep::Nothing,
        }
    }

    /// Handles a message of a media server `src`: its type answer records it
    /// as a media server (once) and reports the media servers; a media file
    /// is stored in the download folder (or its decoding failure shown);
    /// other messages do nothing.
    pub fn on_media_server_message(&mut self, src: NodeId, msg: MediaServer) -> (step: BrowserStep)
        requires
            old(self).well_formed(),
        ensures
            final(self).well_formed(),
            final(self).id == old(self).id,
            final(self).chat_servers@ == old(self).chat_servers@,
            final(self).text_servers@ == old(self).text_servers@,
            final(self).media_servers@ == if msg matches MediaServer::ServerTypeMedia(t) && t == ServerType::MediaServer
                && !old(self).media_servers@.contains(src) {
                old(self).media_servers@.push(src)
            } else {
                old(self).media_servers@
            },
            match msg {
                MediaServer::ServerTypeMedia(_) => step matches BrowserStep::Report(WebBrowserEvent::MediaServers(me, l))
                    && me == old(self).id && l@ == final(self).media_servers@,
                MediaServer::SendMedia(fmd) => match base64_decoded(fmd.content@) {
                    Some(b) => step matches BrowserStep::SaveMedia(f) && f.path@ == save_path(
                        download_folder(),
                        fmd.title@,
                        fmd.extension@,
                    ) && f.bytes@ == b,
                    None => step matches BrowserStep::Failure(e) && e@ == decode_failure(),
                },
                _ => step is Nothing,
            },
    {
        match msg {
            MediaServer::ServerTypeMedia(server_type) => {
                self.note_media_server(src, server_type);
                BrowserStep::Report(WebBrowserEvent::MediaServers(self.id, copy_ids(&self.media_servers)))
            },
            MediaServer::SendMedia(media) => {
                match prepare_file("assets/multimedia/SC", &media) {
                    Ok(f) => BrowserStep::SaveMedia(f),
                    Err(e) => BrowserStep::Failure(e),
                }
            },
            _ => BrowserStep::Nothing,
        }
    }
}

} // verus!
