//! Tracker requests and responses.

use vstd::prelude::*;

use aquatic_http_protocol::request::Request as ParsedPath;

use crate::error::strings;
use crate::http::option_text;

verus! {

/// The identifier of a torrent.
#[derive(Clone, Copy, Debug, PartialEq, Eq)]
pub struct InfoHash(pub [u8; 20]);

/// The identifier that a peer gives itself.
#[derive(Clone, Copy, Debug, PartialEq, Eq)]
pub struct PeerId(pub [u8; 20]);

/// A peer announces itself and asks for other peers.
#[derive(Clone, Debug, PartialEq, Eq)]
pub struct AnnounceRequest {
    pub info_hash: InfoHash,
    pub peer_id: PeerId,
    pub port: u16,
    pub bytes_uploaded: usize,
    pub bytes_downloaded: usize,
    pub bytes_left: usize,
    /// The name of the event that is announced, if any.
    pub event: Option<String>,
    /// The number of peers asked for.
    pub numwant: Option<usize>,
    pub key: Option<String>,
}

/// A peer asks for statistics on torrents.
#[derive(Clone, Debug, PartialEq, Eq)]
pub struct ScrapeRequest {
    pub info_hashes: Vec<InfoHash>,
}

#[derive(Clone, Debug, PartialEq, Eq)]
pub enum Request {
    Announce(AnnounceRequest),
    Scrape(ScrapeRequest),
}

/// What an [`AnnounceRequest`] stands for.
pub struct AnnounceRequestView {
    pub info_hash: Seq<u8>,
    pub peer_id: Seq<u8>,
    pub port: u16,
    pub bytes_uploaded: usize,
    pub bytes_downloaded: usize,
    pub bytes_left: usize,
    pub event: Option<Seq<char>>,
    pub numwant: Option<usize>,
    pub key: Option<Seq<char>>,
}

/// What a [`Request`] stands for.
pub enum RequestView {
    Announce(AnnounceRequestView),
    Scrape(Seq<Seq<u8>>),
}

impl View for InfoHash {
    type V = Seq<u8>;

    open spec fn view(&self) -> Seq<u8> {
        self.0@
    }
}

impl View for PeerId {
    type V = Seq<u8>;

    open spec fn view(&self) -> Seq<u8> {
        self.0@
    }
}

impl View for AnnounceRequest {
    type V = AnnounceRequestView;

    open spec fn view(&self) -> AnnounceRequestView {
        AnnounceRequestView {
            info_hash: self.info_hash@,
            peer_id: self.peer_id@,
            port: self.port,
            bytes_uploaded: self.bytes_uploaded,
            bytes_downloaded: self.bytes_downloaded,
            bytes_left: self.bytes_left,
            event: option_text(self.event),
            numwant: self.numwant,
            key: option_text(self.key),
        }
    }
}

/// What a list of info hashes stands for.
pub open spec fn hash_views(hashes: Seq<InfoHash>) -> Seq<Seq<u8>> {
    hashes.map_values(|hash: InfoHash| hash@)
}

impl View for ScrapeRequest {
    type V = Seq<Seq<u8>>;

    open spec fn view(&self) -> Seq<Seq<u8>> {
        hash_views(self.info_hashes@)
    }
}

impl View for Request {
    type V = RequestView;

    open spec fn view(&self) -> RequestView {
        match *self {
            Request::Announce(request) => RequestView::Announce(request@),
            Request::Scrape(request) => RequestView::Scrape(request@),
        }
    }
}

/// What the result of reading a request path stands for.
pub open spec fn request_result(result: Result<Request, Vec<String>>) -> Result<
    RequestView,
    Seq<Seq<char>>,
> {
    match result {
        Ok(request) => Ok(request@),
        Err(messages) => Err(strings(messages@)),
    }
}

/// What `aquatic_http_protocol::request::Request::parse_http_get_path` makes of
/// a path: the request, or the messages of the error and its causes.
pub uninterp spec fn tracker_request_of(path: Seq<char>) -> Result<RequestView, Seq<Seq<char>>>;

/// Calls `aquatic_http_protocol::request::Request::parse_http_get_path`. What it
/// makes of the path depends on the path alone (numbers that do not fit in a
/// `usize` are refused). An error has at least one message, its own.
#[verifier::external_body]
pub(crate) fn parse_http_get_path(path: &str) -> (result: Result<Request, Vec<String>>)
    ensures
        request_result(result) == tracker_request_of(path@),
        result matches Err(messages) ==> messages.len() > 0,
{
    match ParsedPath::parse_http_get_path(path) {
        Ok(ParsedPath::Announce(r)) => Ok(Request::Announce(AnnounceRequest {
            info_hash: InfoHash(r.info_hash.0), peer_id: PeerId(r.peer_id.0), port: r.port,
            bytes_uploaded: r.bytes_uploaded, bytes_downloaded: r.bytes_downloaded,
            bytes_left: r.bytes_left, event: r.event.as_str().map(str::to_string),
            numwant: r.numwant, key: r.key.map(String::from),
        })),
        Ok(ParsedPath::Scrape(r)) => {
            let info_hashes = r.info_hashes.iter().map(|hash| InfoHash(hash.0)).collect();
            Ok(Request::Scrape(ScrapeRequest { info_hashes }))
        },
        Err(err) => Err(err.chain().map(ToString::to_string).collect()),
    }
}

/// What is read of a request path is handed on as it is: an announce with every field,
/// a scrape with every torrent in its order, or the messages of the error.
pub proof fn requests_are_handed_on_unchanged(result: Result<Request, Vec<String>>)
    ensures
        result matches Ok(Request::Announce(announce)) ==> {
            &&& request_result(result) matches Ok(RequestView::Announce(same))
            &&& same.info_hash == announce.info_hash.0@
            &&& same.peer_id == announce.peer_id.0@
            &&& same.port == announce.port
            &&& same.bytes_uploaded == announce.bytes_uploaded
            &&& same.bytes_downloaded == announce.bytes_downloaded
            &&& same.bytes_left == announce.bytes_left
            &&& same.event is Some <==> announce.event is Some
            &&& announce.event matches Some(event) ==> same.event == Some(event@)
            &&& same.numwant == announce.numwant
            &&& same.key is Some <==> announce.key is Some
            &&& announce.key matches Some(key) ==> same.key == Some(key@)
        },
        result matches Ok(Request::Scrape(scrape)) ==> {
            &&& request_result(result) matches Ok(RequestView::Scrape(hashes))
            &&& hashes.len() == scrape.info_hashes.len()
            &&& forall|i: int|
                0 <= i < hashes.len() ==> #[trigger] hashes[i] == scrape.info_hashes@[i].0@
        },
        result matches Err(messages) ==> {
            &&& request_result(result) matches Err(same)
            &&& same.len() == messages.len()
            &&& forall|i: int| 0 <= i < same.len() ==> #[trigger] same[i] == messages@[i]@
        },
{
}

} // verus!
