//! One connection: reading requests, deciding what to do with them, and
//! gathering the parts of an answer.

use vstd::prelude::*;

use aquatic_common::access_list::AccessList;

use crate::access_list::{allows, is_allowed, listed_hashes};
use crate::address::{
    canonical_of, groups_of_octets, mapped_form_is_the_ipv4_address, socket_addr_of,
    CanonicalSocketAddr, IpAddrView, SocketAddr, SocketAddrView,
};
use crate::common::{ChannelResponse, RequestId};
use crate::config::{AccessListMode, Config};
use crate::error::{report_of, ErrorChain};
use crate::http::{http_head_of, is_complete, HttpHeadView};
use crate::protocol::{AnnounceRequest, Request, RequestView, ScrapeRequest};
use crate::request::{
    head_outcome, is_accepted, parse_request, parse_result, peer_ip_is_given_behind_a_proxy,
    request_in, HttpMethod, HttpRequest, HttpRequestView, ParsedRequest, ParsedRequestView,
    RequestParseError, RequestParseErrorView, MAX_HEADERS,
};
use crate::response::{
    AnnounceResponse, FailureResponse, Response, ResponseView, ScrapeResponse,
};
use crate::scrape::{
    calculate_request_consumer_index, consumer_index, divide_scrape_request,
    each_torrent_is_in_one_part, is_division, part_holds_what_was_asked_for, part_views,
    ScrapePart,
};

verus! {

/// Why a connection was closed.
#[derive(Clone, Debug, PartialEq, Eq)]
pub enum ConnectionError {
    Inactive,
    NoSocketPeerAddr(String),
    RequestBufferFull,
    RequestReadTimeout,
    RequestParse(ErrorChain),
    ResponseBufferFull,
    ResponseBufferWrite(String),
    PeerClosed,
    ResponseSenderClosed,
    ResponseReceiverClosed,
    InternalResponseTimeout,
    UnexpectedInternalResponse,
    ScrapeChannelError(&'static str),
    Other(ErrorChain),
}

/// What a [`ConnectionError`] stands for.
pub enum ConnectionErrorView {
    Inactive,
    NoSocketPeerAddr(Seq<char>),
    RequestBufferFull,
    RequestReadTimeout,
    RequestParse(Seq<Seq<char>>),
    ResponseBufferFull,
    ResponseBufferWrite(Seq<char>),
    PeerClosed,
    ResponseSenderClosed,
    ResponseReceiverClosed,
    InternalResponseTimeout,
    UnexpectedInternalResponse,
    ScrapeChannelError(Seq<char>),
    Other(Seq<Seq<char>>),
}

impl View for ConnectionError {
    type V = ConnectionErrorView;

    open spec fn view(&self) -> ConnectionErrorView {
        match *self {
            ConnectionError::Inactive => ConnectionErrorView::Inactive,
            ConnectionError::NoSocketPeerAddr(text) => ConnectionErrorView::NoSocketPeerAddr(text@),
            ConnectionError::RequestBufferFull => ConnectionErrorView::RequestBufferFull,
            ConnectionError::RequestReadTimeout => ConnectionErrorView::RequestReadTimeout,
            ConnectionError::RequestParse(chain) => ConnectionErrorView::RequestParse(chain@),
            ConnectionError::ResponseBufferFull => ConnectionErrorView::ResponseBufferFull,
            ConnectionError::ResponseBufferWrite(
                text,
            ) => ConnectionErrorView::ResponseBufferWrite(text@),
            ConnectionError::PeerClosed => ConnectionErrorView::PeerClosed,
            ConnectionError::ResponseSenderClosed => ConnectionErrorView::ResponseSenderClosed,
            ConnectionError::ResponseReceiverClosed => ConnectionErrorView::ResponseReceiverClosed,
            ConnectionError::InternalResponseTimeout => ConnectionErrorView::InternalResponseTimeout,
            ConnectionError::UnexpectedInternalResponse => ConnectionErrorView::UnexpectedInternalResponse,
            ConnectionError::ScrapeChannelError(
                text,
            ) => ConnectionErrorView::ScrapeChannelError(text@),
            ConnectionError::Other(chain) => ConnectionErrorView::Other(chain@),
        }
    }
}

/// The text that says why a connection was closed.
pub open spec fn connection_error_text(err: ConnectionErrorView) -> Seq<char> {
    match err {
        ConnectionErrorView::Inactive => "inactive"@,
        ConnectionErrorView::NoSocketPeerAddr(_) => "socket peer addr extraction failed"@,
        ConnectionErrorView::RequestBufferFull => "request buffer full"@,
        ConnectionErrorView::RequestReadTimeout => "request read timeout"@,
        ConnectionErrorView::RequestParse(messages) => "request parse error: "@ + messages[0],
        ConnectionErrorView::ResponseBufferFull => "response buffer full"@,
        ConnectionErrorView::ResponseBufferWrite(text) => "response buffer write error: "@ + text,
        ConnectionErrorView::PeerClosed => "peer closed"@,
        ConnectionErrorView::ResponseSenderClosed => "response sender closed"@,
        ConnectionErrorView::ResponseReceiverClosed => "response receiver closed"@,
        ConnectionErrorView::InternalResponseTimeout => "internal response timeout"@,
        ConnectionErrorView::UnexpectedInternalResponse => "unexpected internal response"@,
        ConnectionErrorView::ScrapeChannelError(text) => "scrape channel error: "@ + text,
        ConnectionErrorView::Other(messages) => report_of(messages),
    }
}

impl ConnectionError {
    /// The text that says why the connection was closed.
    pub fn report(&self) -> (text: String)
        ensures
            text@ == connection_error_text(self@),
    {
        match self {
            ConnectionError::Inactive => "inactive".to_owned(),
            ConnectionError::NoSocketPeerAddr(_) => "socket peer addr extraction failed".to_owned(),
            ConnectionError::RequestBufferFull => "request buffer full".to_owned(),
            ConnectionError::RequestReadTimeout => "request read timeout".to_owned(),
            ConnectionError::RequestParse(chain) => {
                "request parse error: ".to_owned().concat(chain.summary().as_str())
            },
            ConnectionError::ResponseBufferFull => "response buffer full".to_owned(),
            ConnectionError::ResponseBufferWrite(text) => {
                "response buffer write error: ".to_owned().concat(text.as_str())
            },
            ConnectionError::PeerClosed => "peer closed".to_owned(),
            ConnectionError::ResponseSenderClosed => "response sender closed".to_owned(),
            ConnectionError::ResponseReceiverClosed => "response receiver closed".to_owned(),
            ConnectionError::InternalResponseTimeout => "internal response timeout".to_owned(),
            ConnectionError::UnexpectedInternalResponse => {
                "unexpected internal response".to_owned()
            },
            ConnectionError::ScrapeChannelError(text) => {
                "scrape channel error: ".to_owned().concat(text)
            },
            ConnectionError::Other(chain) => chain.report(),
        }
    }
}

/// The error for a request without a usable header that gives the peer address.
pub fn required_peer_ip_header_missing_error(err: ErrorChain) -> (result: ConnectionError)
    ensures
        result@ == ConnectionErrorView::RequestParse(
            seq!["required peer ip header missing or invalid"@] + err@,
        ),
{
    ConnectionError::RequestParse(err.context("required peer ip header missing or invalid"))
}

/// The answer to a request that could not be read.
pub fn request_parse_error_response(err: ErrorChain) -> (response: Response)
    ensures
        response@ == ResponseView::Failure("Invalid request: "@ + report_of(err@)),
{
    let reason = "Invalid request: ".to_owned().concat(err.report().as_str());
    Response::Failure(FailureResponse::new(reason.as_str()))
}

/// What a peer is told where reading its request failed. For some errors it is
/// told nothing.
pub open spec fn reply_to_read_error(err: ConnectionErrorView) -> Option<Seq<char>> {
    match err {
        ConnectionErrorView::RequestParse(messages) => Some(
            "Invalid request: "@ + report_of(messages),
        ),
        ConnectionErrorView::RequestBufferFull => Some(
            "Request too large: HTTP request headers exceed the request buffer"@,
        ),
        _ => None,
    }
}

/// The answer to a request that could not be read, or the error where there is
/// no answer.
pub fn request_read_error_response(err: ConnectionError) -> (result: Result<
    Response,
    ConnectionError,
>)
    ensures
        match reply_to_read_error(err@) {
            Some(reason) => result matches Ok(response) && response@ == ResponseView::Failure(
                reason,
            ),
            None => result matches Err(same) && same@ == err@,
        },
{
    match err {
        ConnectionError::RequestParse(chain) => Ok(request_parse_error_response(chain)),
        ConnectionError::RequestBufferFull => Ok(
            Response::Failure(
                FailureResponse::new(
                    "Request too large: HTTP request headers exceed the request buffer",
                ),
            ),
        ),
        err => Err(err),
    }
}

/// The number of bytes that a request may take up.
pub const REQUEST_BUFFER_SIZE: usize = 16 * 1024;

/// A request together with the address of its sender, where the request tells it.
#[derive(Clone, Debug, PartialEq, Eq)]
pub struct ReceivedRequest {
    pub request: HttpRequest,
    pub method: HttpMethod,
    pub opt_peer_addr: Option<CanonicalSocketAddr>,
}

/// What a [`ReceivedRequest`] stands for.
pub struct ReceivedRequestView {
    pub request: HttpRequestView,
    pub method: HttpMethod,
    pub opt_peer_addr: Option<SocketAddrView>,
}

/// What an optional address stands for.
pub open spec fn option_addr(addr: Option<CanonicalSocketAddr>) -> Option<SocketAddrView> {
    match addr {
        Some(addr) => Some(addr@),
        None => None,
    }
}

impl View for ReceivedRequest {
    type V = ReceivedRequestView;

    open spec fn view(&self) -> ReceivedRequestView {
        ReceivedRequestView {
            request: self.request@,
            method: self.method,
            opt_peer_addr: option_addr(self.opt_peer_addr),
        }
    }
}

/// What the result of looking for a request stands for.
pub open spec fn read_result(result: Result<Option<ReceivedRequest>, ConnectionError>) -> Result<
    Option<ReceivedRequestView>,
    ConnectionErrorView,
> {
    match result {
        Ok(Some(received)) => Ok(Some(received@)),
        Ok(None) => Ok(None),
        Err(err) => Err(err@),
    }
}

/// The address of a peer, given the IP address that its request tells.
pub open spec fn told_peer_addr(peer_ip: Option<IpAddrView>, peer_port: u16) -> Option<
    SocketAddrView,
> {
    match peer_ip {
        Some(ip) => Some(canonical_of(socket_addr_of(ip, peer_port))),
        None => None,
    }
}

/// What comes of looking for a request in the bytes received: a request, an
/// error, or nothing yet.
pub open spec fn read_outcome(
    peer_port: u16,
    parsed: Result<ParsedRequestView, RequestParseErrorView>,
) -> Result<Option<ReceivedRequestView>, ConnectionErrorView> {
    match parsed {
        Ok(parsed) => Ok(
            Some(
                ReceivedRequestView {
                    request: parsed.request,
                    method: parsed.method,
                    opt_peer_addr: told_peer_addr(parsed.opt_peer_ip, peer_port),
                },
            ),
        ),
        Err(RequestParseErrorView::MoreDataNeeded) => Ok(None),
        Err(RequestParseErrorView::MethodNotAllowed) => Err(
            ConnectionErrorView::RequestParse(seq!["method not allowed"@]),
        ),
        Err(RequestParseErrorView::RequiredPeerIpHeaderMissing(messages)) => Err(
            ConnectionErrorView::RequestParse(
                seq!["required peer ip header missing or invalid"@] + messages,
            ),
        ),
        Err(RequestParseErrorView::InvalidRequest(messages)) => Err(
            ConnectionErrorView::RequestParse(messages),
        ),
    }
}

/// Decides what comes of looking for a request, given what reading the bytes gave.
pub fn receive_parsed(
    peer_port: u16,
    parsed: Result<ParsedRequest, RequestParseError>,
) -> (result: Result<Option<ReceivedRequest>, ConnectionError>)
    ensures
        read_result(result) == read_outcome(peer_port, parse_result(parsed)),
{
    match parsed {
        Ok(parsed) => {
            let opt_peer_addr = match parsed.opt_peer_ip {
                Some(peer_ip) => Some(CanonicalSocketAddr::new(SocketAddr::new(peer_ip, peer_port))),
                None => None,
            };
            Ok(
                Some(
                    ReceivedRequest {
                        request: parsed.request,
                        method: parsed.method,
                        opt_peer_addr,
                    },
                ),
            )
        },
        Err(RequestParseError::MoreDataNeeded) => Ok(None),
        Err(RequestParseError::MethodNotAllowed) => Err(
            ConnectionError::RequestParse(
                ErrorChain::new(RequestParseError::MethodNotAllowed.report()),
            ),
        ),
        Err(RequestParseError::RequiredPeerIpHeaderMissing(chain)) => Err(
            required_peer_ip_header_missing_error(chain),
        ),
        Err(RequestParseError::InvalidRequest(chain)) => Err(ConnectionError::RequestParse(chain)),
    }
}

/// The address of the peer of a connection, where it is the same for all
/// requests. Behind a reverse proxy each request tells it.
pub open spec fn stable_addr(config: Config, remote_addr: SocketAddrView) -> Option<
    SocketAddrView,
> {
    if config.network.runs_behind_reverse_proxy {
        None
    } else {
        Some(canonical_of(remote_addr))
    }
}

/// A connection to a peer.
#[derive(Debug)]
pub struct Connection {
    opt_stable_peer_addr: Option<CanonicalSocketAddr>,
    peer_port: u16,
    request_buffer: Vec<u8>,
}

impl Connection {
    /// The bytes that have arrived and belong to no request read so far.
    pub closed spec fn buffered(&self) -> Seq<u8> {
        self.request_buffer@
    }

    pub closed spec fn port(&self) -> u16 {
        self.peer_port
    }

    /// The address of the peer, where it is the same for all requests.
    pub closed spec fn stable_peer_addr(&self) -> Option<SocketAddrView> {
        option_addr(self.opt_stable_peer_addr)
    }

    #[verifier::type_invariant]
    spec fn buffer_holds_its_size(self) -> bool {
        self.request_buffer@.len() <= REQUEST_BUFFER_SIZE
    }

    /// A new connection from `remote_addr`.
    pub fn new(config: &Config, remote_addr: SocketAddr) -> (connection: Self)
        ensures
            connection.buffered() == Seq::<u8>::empty(),
            connection.port() == remote_addr@.port(),
            connection.stable_peer_addr() == stable_addr(*config, remote_addr@),
    {
        let peer_port = match remote_addr {
            SocketAddr::V4 { port, .. } => port,
            SocketAddr::V6 { port, .. } => port,
        };
        let opt_stable_peer_addr = if config.network.runs_behind_reverse_proxy {
            None
        } else {
            Some(CanonicalSocketAddr::new(remote_addr))
        };
        Connection { opt_stable_peer_addr, peer_port, request_buffer: Vec::new() }
    }

    /// The number of bytes that may be received next. It is an error to need more
    /// bytes where there is no room for any.
    pub fn read_room(&self) -> (result: Result<usize, ConnectionError>)
        ensures
            match result {
                Ok(room) => room > 0 && room == REQUEST_BUFFER_SIZE - self.buffered().len(),
                Err(err) => err@ == ConnectionErrorView::RequestBufferFull && self.buffered().len()
                    == REQUEST_BUFFER_SIZE,
            },
    {
        proof {
            use_type_invariant(self);
        }
        if self.request_buffer.len() == REQUEST_BUFFER_SIZE {
            Err(ConnectionError::RequestBufferFull)
        } else {
            Ok(REQUEST_BUFFER_SIZE - self.request_buffer.len())
        }
    }

    /// Takes in bytes that have arrived. No bytes mean that the peer has closed
    /// the connection.
    pub fn receive(&mut self, bytes: &[u8]) -> (result: Result<(), ConnectionError>)
        requires
            old(self).buffered().len() + bytes@.len() <= REQUEST_BUFFER_SIZE,
        ensures
            final(self).buffered() == old(self).buffered() + bytes@,
            final(self).port() == old(self).port(),
            final(self).stable_peer_addr() == old(self).stable_peer_addr(),
            match result {
                Ok(_) => bytes@.len() > 0,
                Err(err) => err@ == ConnectionErrorView::PeerClosed && bytes@.len() == 0,
            },
    {
        let mut buffer: Vec<u8> = Vec::new();
        std::mem::swap(&mut buffer, &mut self.request_buffer);
        buffer.extend_from_slice(bytes);
        self.request_buffer = buffer;
        assert(self.buffered() == old(self).buffered() + bytes@);
        if bytes.len() == 0 {
            Err(ConnectionError::PeerClosed)
        } else {
            Ok(())
        }
    }

    /// Takes the next request off the front of the bytes that have arrived, if
    /// they hold all of it. The bytes behind the request are kept for the next one,
    /// and do not change how this one is read.
    pub fn take_request(&mut self, config: &Config) -> (result: Result<
        Option<ReceivedRequest>,
        ConnectionError,
    >)
        ensures
            final(self).port() == old(self).port(),
            final(self).stable_peer_addr() == old(self).stable_peer_addr(),
            ({
                let parsed = request_in(*config, old(self).buffered());
                if old(self).buffered().len() == 0 {
                    &&& read_result(result) == Ok::<
                        Option<ReceivedRequestView>,
                        ConnectionErrorView,
                    >(None)
                    &&& final(self).buffered() == old(self).buffered()
                } else {
                    &&& read_result(result) == read_outcome(old(self).port(), parsed)
                    &&& match parsed {
                        Ok(parsed) => {
                            &&& is_accepted(*config, old(self).buffered(), parsed)
                            &&& final(self).buffered() == old(self).buffered().skip(
                                parsed.consumed as int,
                            )
                        },
                        Err(_) => final(self).buffered() == old(self).buffered(),
                    }
                }
            }),
            forall|k: int|
                0 < k <= old(self).buffered().len() ==> is_complete(
                    #[trigger] http_head_of(old(self).buffered().take(k), MAX_HEADERS as nat),
                ) ==> {
                    let parsed = request_in(*config, old(self).buffered().take(k));
                    &&& read_result(result) == read_outcome(old(self).port(), parsed)
                    &&& parsed matches Ok(parsed) ==> final(self).buffered()
                        == old(self).buffered().skip(parsed.consumed as int)
                },
    {
        proof {
            use_type_invariant(&*self);
        }
        if self.request_buffer.len() == 0 {
            return Ok(None);
        }
        let parsed = parse_request(config, self.request_buffer.as_slice());
        if let Ok(request) = &parsed {
            let mut buffer: Vec<u8> = Vec::new();
            std::mem::swap(&mut buffer, &mut self.request_buffer);
            self.request_buffer = buffer.split_off(request.consumed);
            assert(self.buffered() == old(self).buffered().skip(request.consumed as int));
        }
        receive_parsed(self.peer_port, parsed)
    }
}

/// What happens while a request is read.
#[derive(Debug)]
pub enum ReadEvent<'a> {
    /// A request is wanted.
    Start,
    /// These bytes have arrived.
    Received(&'a [u8]),
    /// Reading from the peer failed.
    Failed(ErrorChain),
}

/// What is to be done to read a request.
#[derive(Debug)]
pub enum ReadAction {
    /// Read up to `room` bytes from the peer.
    Read { room: usize },
    /// The request was read, or reading it failed.
    Done(Result<ReceivedRequest, ConnectionError>),
}

/// What a [`ReadAction`] stands for.
pub enum ReadActionView {
    Read { room: int },
    Done(Result<ReceivedRequestView, ConnectionErrorView>),
}

impl View for ReadAction {
    type V = ReadActionView;

    open spec fn view(&self) -> ReadActionView {
        match *self {
            ReadAction::Read { room } => ReadActionView::Read { room: room as int },
            ReadAction::Done(Ok(received)) => ReadActionView::Done(Ok(received@)),
            ReadAction::Done(Err(err)) => ReadActionView::Done(Err(err@)),
        }
    }
}

/// What a [`ReadEvent`] stands for.
pub enum ReadEventView {
    Start,
    Received(Seq<u8>),
    Failed(Seq<Seq<char>>),
}

impl<'a> View for ReadEvent<'a> {
    type V = ReadEventView;

    open spec fn view(&self) -> ReadEventView {
        match *self {
            ReadEvent::Start => ReadEventView::Start,
            ReadEvent::Received(bytes) => ReadEventView::Received(bytes@),
            ReadEvent::Failed(chain) => ReadEventView::Failed(chain@),
        }
    }
}

/// The bytes that have arrived and belong to no request read so far, once an event
/// has been taken note of.
pub open spec fn arrived_bytes(buffered: Seq<u8>, event: ReadEvent<'_>) -> Seq<u8> {
    match event {
        ReadEvent::Received(bytes) => buffered + bytes@,
        _ => buffered,
    }
}

/// What is to be done to read a request where `buffered` has arrived, given what
/// reading those bytes gives.
pub open spec fn read_action(
    buffered: Seq<u8>,
    peer_port: u16,
    parsed: Result<ParsedRequestView, RequestParseErrorView>,
) -> ReadActionView {
    let outcome = if buffered.len() == 0 {
        Ok(None)
    } else {
        read_outcome(peer_port, parsed)
    };
    match outcome {
        Ok(Some(received)) => ReadActionView::Done(Ok(received)),
        Err(err) => ReadActionView::Done(Err(err)),
        Ok(None) => if buffered.len() == REQUEST_BUFFER_SIZE {
            ReadActionView::Done(Err(ConnectionErrorView::RequestBufferFull))
        } else {
            ReadActionView::Read { room: REQUEST_BUFFER_SIZE - buffered.len() }
        },
    }
}

/// How reading a request goes on after something has happened: what is to be done,
/// and the bytes that then belong to no request read so far.
pub open spec fn read_step(
    config: Config,
    buffered: Seq<u8>,
    peer_port: u16,
    event: ReadEventView,
) -> (ReadActionView, Seq<u8>) {
    match event {
        ReadEventView::Failed(messages) => (
            ReadActionView::Done(Err(ConnectionErrorView::Other(seq!["read"@] + messages))),
            buffered,
        ),
        ReadEventView::Received(bytes) if bytes.len() == 0 => (
            ReadActionView::Done(Err(ConnectionErrorView::PeerClosed)),
            buffered,
        ),
        _ => {
            let arrived = match event {
                ReadEventView::Received(bytes) => buffered + bytes,
                _ => buffered,
            };
            let parsed = request_in(config, arrived);
            (
                read_action(arrived, peer_port, parsed),
                match parsed {
                    Ok(parsed) if arrived.len() > 0 => arrived.skip(parsed.consumed as int),
                    _ => arrived,
                },
            )
        },
    }
}

impl Connection {
    /// Decides how reading a request goes on after something has happened. The
    /// bytes behind the request are kept for the next one, and do not change how
    /// this one is read.
    pub fn read_request(&mut self, config: &Config, event: ReadEvent<'_>) -> (action: ReadAction)
        requires
            event matches ReadEvent::Received(bytes) ==> old(self).buffered().len() + bytes@.len()
                <= REQUEST_BUFFER_SIZE,
        ensures
            final(self).port() == old(self).port(),
            final(self).stable_peer_addr() == old(self).stable_peer_addr(),
            (action@, final(self).buffered()) == read_step(
                *config,
                old(self).buffered(),
                old(self).port(),
                event@,
            ),
            ({
                let arrived = arrived_bytes(old(self).buffered(), event);
                let parsed = request_in(*config, arrived);
                match event {
                    ReadEvent::Failed(chain) => {
                        &&& action@ == ReadActionView::Done(
                            Err(ConnectionErrorView::Other(seq!["read"@] + chain@)),
                        )
                        &&& final(self).buffered() == arrived
                    },
                    ReadEvent::Received(bytes) if bytes@.len() == 0 => {
                        &&& action@ == ReadActionView::Done(Err(ConnectionErrorView::PeerClosed))
                        &&& final(self).buffered() == arrived
                    },
                    _ => {
                        &&& action@ == read_action(arrived, old(self).port(), parsed)
                        &&& match parsed {
                            Ok(parsed) if arrived.len() > 0 => {
                                &&& is_accepted(*config, arrived, parsed)
                                &&& final(self).buffered() == arrived.skip(parsed.consumed as int)
                            },
                            _ => final(self).buffered() == arrived,
                        }
                        &&& forall|k: int|
                            0 < k <= arrived.len() ==> is_complete(
                                #[trigger] http_head_of(arrived.take(k), MAX_HEADERS as nat),
                            ) ==> {
                                let parsed = request_in(*config, arrived.take(k));
                                &&& action@ == read_action(arrived, old(self).port(), parsed)
                                &&& parsed matches Ok(parsed) ==> final(self).buffered()
                                    == arrived.skip(parsed.consumed as int)
                            }
                    },
                }
            }),
    {
        match event {
            ReadEvent::Failed(chain) => {
                return ReadAction::Done(Err(ConnectionError::Other(chain.context("read"))));
            },
            ReadEvent::Received(bytes) => {
                if let Err(err) = self.receive(bytes) {
                    return ReadAction::Done(Err(err));
                }
            },
            ReadEvent::Start => {},
        }
        match self.take_request(config) {
            Ok(Some(received)) => ReadAction::Done(Ok(received)),
            Err(err) => ReadAction::Done(Err(err)),
            Ok(None) => match self.read_room() {
                Ok(room) => ReadAction::Read { room },
                Err(err) => ReadAction::Done(Err(err)),
            },
        }
    }
}

/// What has happened on a connection.
#[derive(Debug)]
pub enum RunEvent {
    /// A request was read, or reading one failed.
    Read(Result<ReceivedRequest, ConnectionError>),
    /// The request from `peer_addr` was handled.
    Handled { result: Result<Response, ConnectionError>, peer_addr: CanonicalSocketAddr },
    /// A response was written. `last` tells whether nothing may follow it.
    Written { result: Result<(), ConnectionError>, last: bool },
}

/// What is to be done next on a connection.
#[derive(Debug)]
pub enum RunAction {
    ReadRequest,
    HandleRequest { request: Request, peer_addr: CanonicalSocketAddr },
    ServeStaticIndex { method: HttpMethod },
    /// Write a response, to a peer whose address is known or not.
    WriteResponse {
        response: Response,
        opt_peer_addr: Option<CanonicalSocketAddr>,
        last: bool,
    },
    Close(Result<(), ConnectionError>),
}

/// What a [`RunEvent`] stands for.
pub enum RunEventView {
    Read(Result<ReceivedRequestView, ConnectionErrorView>),
    Handled { result: Result<ResponseView, ConnectionErrorView>, peer_addr: SocketAddrView },
    Written { result: Result<(), ConnectionErrorView>, last: bool },
}

/// What a [`RunAction`] stands for.
pub enum RunActionView {
    ReadRequest,
    HandleRequest { request: RequestView, peer_addr: SocketAddrView },
    ServeStaticIndex { method: HttpMethod },
    WriteResponse { response: ResponseView, opt_peer_addr: Option<SocketAddrView>, last: bool },
    Close(Result<(), ConnectionErrorView>),
}

/// What the result of a step without a value stands for.
pub open spec fn unit_result(result: Result<(), ConnectionError>) -> Result<
    (),
    ConnectionErrorView,
> {
    match result {
        Ok(_) => Ok(()),
        Err(err) => Err(err@),
    }
}

/// What the result of handling a request stands for.
pub open spec fn response_result(result: Result<Response, ConnectionError>) -> Result<
    ResponseView,
    ConnectionErrorView,
> {
    match result {
        Ok(response) => Ok(response@),
        Err(err) => Err(err@),
    }
}

impl View for RunEvent {
    type V = RunEventView;

    open spec fn view(&self) -> RunEventView {
        match *self {
            RunEvent::Read(Ok(received)) => RunEventView::Read(Ok(received@)),
            RunEvent::Read(Err(err)) => RunEventView::Read(Err(err@)),
            RunEvent::Handled { result, peer_addr } => RunEventView::Handled {
                result: response_result(result),
                peer_addr: peer_addr@,
            },
            RunEvent::Written { result, last } => RunEventView::Written {
                result: unit_result(result),
                last,
            },
        }
    }
}

impl View for RunAction {
    type V = RunActionView;

    open spec fn view(&self) -> RunActionView {
        match *self {
            RunAction::ReadRequest => RunActionView::ReadRequest,
            RunAction::HandleRequest { request, peer_addr } => RunActionView::HandleRequest {
                request: request@,
                peer_addr: peer_addr@,
            },
            RunAction::ServeStaticIndex { method } => RunActionView::ServeStaticIndex { method },
            RunAction::WriteResponse { response, opt_peer_addr, last } => {
                RunActionView::WriteResponse {
                    response: response@,
                    opt_peer_addr: option_addr(opt_peer_addr),
                    last,
                }
            },
            RunAction::Close(result) => RunActionView::Close(unit_result(result)),
        }
    }
}

/// What is to be done next on a connection after something has happened.
pub open spec fn next_action(
    keep_alive: bool,
    stable_addr: Option<SocketAddrView>,
    event: RunEventView,
) -> RunActionView {
    match event {
        RunEventView::Read(Ok(received)) => match received.request {
            HttpRequestView::StaticIndex => RunActionView::ServeStaticIndex {
                method: received.method,
            },
            HttpRequestView::Tracker(request) => match (stable_addr, received.opt_peer_addr) {
                (Some(peer_addr), _) => RunActionView::HandleRequest { request, peer_addr },
                (None, Some(peer_addr)) => RunActionView::HandleRequest { request, peer_addr },
                (None, None) => RunActionView::Close(
                    Err(ConnectionErrorView::Other(seq!["Could not extract peer addr"@])),
                ),
            },
        },
        RunEventView::Read(Err(err)) => match reply_to_read_error(err) {
            Some(reason) => RunActionView::WriteResponse {
                response: ResponseView::Failure(reason),
                opt_peer_addr: None,
                last: true,
            },
            None => RunActionView::Close(Err(err)),
        },
        RunEventView::Handled { result, peer_addr } => match result {
            Ok(response) => RunActionView::WriteResponse {
                response,
                opt_peer_addr: Some(peer_addr),
                last: false,
            },
            Err(err) => RunActionView::Close(Err(err)),
        },
        RunEventView::Written { result, last } => match result {
            Ok(_) => if last || !keep_alive {
                RunActionView::Close(Ok(()))
            } else {
                RunActionView::ReadRequest
            },
            Err(err) => RunActionView::Close(Err(err)),
        },
    }
}

impl Connection {
    /// Decides what is to be done next after something has happened. The first
    /// thing to do on a connection is to read a request.
    pub fn run(&self, config: &Config, event: RunEvent) -> (action: RunAction)
        ensures
            action@ == next_action(config.network.keep_alive, self.stable_peer_addr(), event@),
    {
        match event {
            RunEvent::Read(Ok(received)) => match received.request {
                HttpRequest::StaticIndex => RunAction::ServeStaticIndex { method: received.method },
                HttpRequest::Tracker(request) => match (
                    self.opt_stable_peer_addr,
                    received.opt_peer_addr,
                ) {
                    (Some(peer_addr), _) => RunAction::HandleRequest { request, peer_addr },
                    (None, Some(peer_addr)) => RunAction::HandleRequest { request, peer_addr },
                    (None, None) => RunAction::Close(
                        Err(ConnectionError::Other(ErrorChain::new("Could not extract peer addr"))),
                    ),
                },
            },
            RunEvent::Read(Err(err)) => match request_read_error_response(err) {
                Ok(response) => RunAction::WriteResponse {
                    response,
                    opt_peer_addr: None,
                    last: true,
                },
                Err(err) => RunAction::Close(Err(err)),
            },
            RunEvent::Handled { result, peer_addr } => match result {
                Ok(response) => RunAction::WriteResponse {
                    response,
                    opt_peer_addr: Some(peer_addr),
                    last: false,
                },
                Err(err) => RunAction::Close(Err(err)),
            },
            RunEvent::Written { result, last } => match result {
                Ok(()) => {
                    if last || !config.network.keep_alive {
                        RunAction::Close(Ok(()))
                    } else {
                        RunAction::ReadRequest
                    }
                },
                Err(err) => RunAction::Close(Err(err)),
            },
        }
    }
}

/// What is to be done to answer a tracker request.
#[derive(Debug)]
pub enum RequestPlan {
    /// Answer at once.
    Respond(Response),
    /// Let one swarm worker answer.
    Announce { consumer_index: usize, request: AnnounceRequest },
    /// Let each swarm worker answer its part.
    Scrape { parts: Vec<ScrapePart> },
}

/// Whether a request is passed on to a swarm worker: an announce of a torrent that is
/// served, or a scrape of at least one torrent.
pub open spec fn is_passed_on(
    mode: AccessListMode,
    listed: Set<Seq<u8>>,
    request: RequestView,
) -> bool {
    match request {
        RequestView::Announce(announce) => is_allowed(mode, listed, announce.info_hash),
        RequestView::Scrape(hashes) => hashes.len() > 0,
    }
}

/// Whether `plan` is how a tracker request is answered, where the torrents in
/// `listed` are on the access list.
pub open spec fn is_plan(
    config: Config,
    listed: Set<Seq<u8>>,
    request: Request,
    plan: RequestPlan,
) -> bool {
    match request {
        Request::Announce(announce) => if is_allowed(
            config.access_list.mode,
            listed,
            announce@.info_hash,
        ) {
            &&& plan matches RequestPlan::Announce { consumer_index: index, request: same }
            &&& index == consumer_index(config.swarm_workers, announce@.info_hash)
            &&& index < config.swarm_workers
            &&& same == announce
        } else {
            &&& plan matches RequestPlan::Respond(response)
            &&& response@ == ResponseView::Failure("Info hash not allowed"@)
        },
        Request::Scrape(scrape) => {
            &&& plan matches RequestPlan::Scrape { parts }
            &&& is_division(
                config.swarm_workers,
                scrape@,
                part_views(parts@),
                config.swarm_workers as int,
            )
        },
    }
}

/// Decides how a tracker request is answered: an announce of a torrent that the
/// access list does not allow is refused, others are passed on to the swarm
/// workers that the torrents belong to.
pub fn handle_request(config: &Config, access_list: &AccessList, request: Request) -> (plan:
    RequestPlan)
    requires
        is_passed_on(config.access_list.mode, listed_hashes(*access_list), request@)
            ==> config.swarm_workers > 0,
    ensures
        is_plan(*config, listed_hashes(*access_list), request, plan),
{
    match request {
        Request::Announce(request) => {
            if allows(access_list, config.access_list.mode, &request.info_hash) {
                let consumer_index = calculate_request_consumer_index(config, request.info_hash);
                RequestPlan::Announce { consumer_index, request }
            } else {
                RequestPlan::Respond(
                    Response::Failure(FailureResponse::new("Info hash not allowed")),
                )
            }
        },
        Request::Scrape(request) => {
            let parts = divide_scrape_request(config, &request);
            RequestPlan::Scrape { parts }
        },
    }
}

/// Decides how a tracker request is answered, unless it would have to be passed on
/// and there is no swarm worker.
pub fn checked_handle_request(
    config: &Config,
    access_list: &AccessList,
    request: Request,
) -> (result: Option<RequestPlan>)
    ensures
        result matches Some(plan) ==> is_plan(
            *config,
            listed_hashes(*access_list),
            request,
            plan,
        ),
        result is None <==> config.swarm_workers == 0 && is_passed_on(
            config.access_list.mode,
            listed_hashes(*access_list),
            request@,
        ),
{
    let passed_on = match &request {
        Request::Announce(request) => allows(
            access_list,
            config.access_list.mode,
            &request.info_hash,
        ),
        Request::Scrape(request) => request.info_hashes.len() > 0,
    };
    if passed_on && config.swarm_workers == 0 {
        None
    } else {
        Some(handle_request(config, access_list, request))
    }
}

/// What comes of an announce request, given what has come back from the swarm worker.
pub open spec fn announce_outcome(received: Option<ChannelResponse>) -> Result<
    Response,
    ConnectionError,
> {
    match received {
        Some(ChannelResponse::Announce { response, .. }) => Ok(Response::Announce(response)),
        Some(ChannelResponse::Scrape { .. }) => Err(ConnectionError::UnexpectedInternalResponse),
        None => Err(ConnectionError::ResponseSenderClosed),
    }
}

/// The response to an announce request, given what has come back from the swarm
/// worker. Nothing comes back where the worker has closed its end.
pub fn announce_response(received: Option<ChannelResponse>) -> (result: Result<
    Response,
    ConnectionError,
>)
    ensures
        result == announce_outcome(received),
        match received {
            Some(ChannelResponse::Announce { response, .. }) => result == Ok::<
                Response,
                ConnectionError,
            >(Response::Announce(response)),
            Some(ChannelResponse::Scrape { .. }) => result == Err::<Response, ConnectionError>(
                ConnectionError::UnexpectedInternalResponse,
            ),
            None => result == Err::<Response, ConnectionError>(
                ConnectionError::ResponseSenderClosed,
            ),
        },
{
    match received {
        Some(ChannelResponse::Announce { response, .. }) => Ok(Response::Announce(response)),
        Some(ChannelResponse::Scrape { .. }) => Err(ConnectionError::UnexpectedInternalResponse),
        None => Err(ConnectionError::ResponseSenderClosed),
    }
}

/// The word by which the kind of a response is counted.
pub open spec fn response_word(response: ResponseView) -> Seq<char> {
    match response {
        ResponseView::Announce(_) => "announce"@,
        ResponseView::Scrape(_) => "scrape"@,
        ResponseView::Failure(_) => "error"@,
    }
}

/// The word by which the kind of a response is counted.
pub fn response_type(response: &Response) -> (word: &'static str)
    ensures
        word@ == response_word(response@),
{
    match response {
        Response::Announce(_) => "announce",
        Response::Scrape(_) => "scrape",
        Response::Failure(_) => "error",
    }
}

/// The digit by which the IP version of a peer is counted.
pub fn peer_addr_to_ip_version_str(addr: &CanonicalSocketAddr) -> (word: &'static str)
    ensures
        word@ == if addr@ is V4 {
            "4"@
        } else {
            "6"@
        },
{
    if addr.is_ipv4() {
        "4"
    } else {
        "6"
    }
}

/// A tracker request that was read on a connection always has a peer address: it
/// is handled, and under that address.
pub proof fn tracker_requests_have_a_peer_address(
    config: Config,
    remote_addr: SocketAddrView,
    head: Result<HttpHeadView, Seq<char>>,
)
    ensures
        head_outcome(config, head) matches Ok(parsed) ==> (parsed.request matches
            HttpRequestView::Tracker(request) ==> next_action(
            config.network.keep_alive,
            stable_addr(config, remote_addr),
            RunEventView::Read(
                Ok(read_outcome(remote_addr.port(), Ok(parsed))->Ok_0.unwrap()),
            ),
        ) == (RunActionView::HandleRequest {
            request,
            peer_addr: if config.network.runs_behind_reverse_proxy {
                canonical_of(socket_addr_of(parsed.opt_peer_ip.unwrap(), remote_addr.port()))
            } else {
                canonical_of(remote_addr)
            },
        })),
{
    peer_ip_is_given_behind_a_proxy(config, head);
}

/// A request that cannot be read is answered with a failure that says why, and
/// the connection is closed after that answer.
pub proof fn unreadable_request_is_answered_and_closed(
    config: Config,
    stable_addr: Option<SocketAddrView>,
    peer_port: u16,
    parsed: Result<ParsedRequestView, RequestParseErrorView>,
)
    ensures
        read_outcome(peer_port, parsed) matches Err(err) ==> {
            &&& err is RequestParse
            &&& next_action(
                config.network.keep_alive,
                stable_addr,
                RunEventView::Read(Err(err)),
            ) == (RunActionView::WriteResponse {
                response: ResponseView::Failure("Invalid request: "@ + report_of(err->RequestParse_0)),
                opt_peer_addr: None,
                last: true,
            })
        },
        next_action(
            config.network.keep_alive,
            stable_addr,
            RunEventView::Written { result: Ok(()), last: true },
        ) == RunActionView::Close(Ok(())),
{
}

/// A request that fills the buffer without an end is answered with a failure
/// that says so, and the connection is closed after that answer.
pub proof fn oversized_request_is_answered_and_closed(
    keep_alive: bool,
    stable_addr: Option<SocketAddrView>,
)
    ensures
        next_action(
            keep_alive,
            stable_addr,
            RunEventView::Read(Err(ConnectionErrorView::RequestBufferFull)),
        ) == (RunActionView::WriteResponse {
            response: ResponseView::Failure(
                "Request too large: HTTP request headers exceed the request buffer"@,
            ),
            opt_peer_addr: None,
            last: true,
        }),
        next_action(
            keep_alive,
            stable_addr,
            RunEventView::Written { result: Ok(()), last: true },
        ) == RunActionView::Close(Ok(())),
{
}

/// Bytes are read only where there is room for some, and no more than there is
/// room for. So reading ends in a request or an error.
pub proof fn reading_is_bounded(
    buffered: Seq<u8>,
    peer_port: u16,
    parsed: Result<ParsedRequestView, RequestParseErrorView>,
)
    requires
        buffered.len() <= REQUEST_BUFFER_SIZE,
    ensures
        read_action(buffered, peer_port, parsed) matches ReadActionView::Read { room } ==> 0 < room
            && buffered.len() + room == REQUEST_BUFFER_SIZE,
        buffered.len() == REQUEST_BUFFER_SIZE ==> read_action(buffered, peer_port, parsed) is Done,
{
}

/// What reading a request comes to where `buffered` has arrived and `chunks` arrive
/// one after another, as long as bytes are wanted.
pub open spec fn reading(
    config: Config,
    peer_port: u16,
    buffered: Seq<u8>,
    chunks: Seq<Seq<u8>>,
) -> ReadActionView
    decreases chunks.len(),
{
    let action = read_action(buffered, peer_port, request_in(config, buffered));
    if action is Done || chunks.len() == 0 {
        action
    } else if chunks[0].len() == 0 {
        ReadActionView::Done(Err(ConnectionErrorView::PeerClosed))
    } else {
        reading(config, peer_port, buffered + chunks[0], chunks.drop_first())
    }
}

/// It does not matter how the bytes of a request are split into reads, or what
/// follows them: a request in `bytes` that is accepted and fits in the buffer is
/// read, under the address that it tells. It tells one exactly where it is a tracker
/// request behind a reverse proxy.
pub proof fn splitting_into_reads_does_not_matter(
    config: Config,
    peer_port: u16,
    bytes: Seq<u8>,
    parsed: ParsedRequestView,
    buffered: Seq<u8>,
    chunks: Seq<Seq<u8>>,
)
    requires
        is_accepted(config, bytes, parsed),
        parsed.consumed <= REQUEST_BUFFER_SIZE,
        forall|i: int| 0 <= i < chunks.len() ==> (#[trigger] chunks[i]).len() > 0,
        bytes.take(parsed.consumed as int).is_prefix_of(buffered + chunks.flatten()),
    ensures
        reading(config, peer_port, buffered, chunks) == ReadActionView::Done(
            Ok(
                ReceivedRequestView {
                    request: parsed.request,
                    method: parsed.method,
                    opt_peer_addr: told_peer_addr(parsed.opt_peer_ip, peer_port),
                },
            ),
        ),
        parsed.opt_peer_ip is Some <==> config.network.runs_behind_reverse_proxy
            && parsed.request is Tracker,
    decreases chunks.len(),
{
    peer_ip_is_given_behind_a_proxy(config, http_head_of(bytes, MAX_HEADERS as nat));
    let request = bytes.take(parsed.consumed as int);
    let stream = buffered + chunks.flatten();
    if buffered.len() < parsed.consumed {
        assert(buffered =~= bytes.take(buffered.len() as int)) by {
            assert forall|i: int| 0 <= i < buffered.len() implies buffered[i] == bytes[i] by {
                assert(stream[i] == buffered[i]);
                assert(request[i] == stream.subrange(0, request.len() as int)[i]);
            }
        }
        if chunks.len() > 0 {
            let rest = chunks.drop_first();
            assert forall|i: int| 0 <= i < rest.len() implies (#[trigger] rest[i]).len() > 0 by {
                assert(rest[i] == chunks[i + 1]);
            }
            assert(buffered + chunks[0] + rest.flatten() =~= stream);
            splitting_into_reads_does_not_matter(
                config,
                peer_port,
                bytes,
                parsed,
                buffered + chunks[0],
                rest,
            );
        }
    } else {
        let rest = buffered.skip(parsed.consumed as int);
        assert(buffered =~= request + rest) by {
            assert forall|i: int| 0 <= i < request.len() implies buffered[i] == request[i] by {
                assert(stream[i] == buffered[i]);
                assert(request[i] == stream.subrange(0, request.len() as int)[i]);
            }
        }
    }
}

/// An announce of a torrent that is not served is answered with a failure and passed
/// on to no swarm worker, however many there are.
pub proof fn refused_announce_needs_no_worker(
    config: Config,
    listed: Set<Seq<u8>>,
    announce: AnnounceRequest,
    plan: RequestPlan,
)
    requires
        !is_allowed(config.access_list.mode, listed, announce@.info_hash),
        is_plan(config, listed, Request::Announce(announce), plan),
    ensures
        !is_passed_on(config.access_list.mode, listed, Request::Announce(announce)@),
        plan matches RequestPlan::Respond(response) && response@ == ResponseView::Failure(
            "Info hash not allowed"@,
        ),
{
}

/// Without keep-alive, a connection is closed after its first response; with it,
/// the next request is read.
pub proof fn keep_alive_decides_on_further_requests(
    keep_alive: bool,
    stable_addr: Option<SocketAddrView>,
)
    ensures
        next_action(
            keep_alive,
            stable_addr,
            RunEventView::Written { result: Ok(()), last: false },
        ) == if keep_alive {
            RunActionView::ReadRequest
        } else {
            RunActionView::Close(Ok(()))
        },
{
}

/// Reading goes on as long as, and only where, the bytes so far are none or the
/// beginning of a request, and there is room for more. A request is given as it was
/// read, and the bytes behind it are kept. Bytes that cannot be read as a request end
/// reading at once, whatever room is left, with the reason why they cannot be read.
pub proof fn reading_ends_as_soon_as_the_bytes_decide(
    config: Config,
    buffered: Seq<u8>,
    peer_port: u16,
    bytes: Seq<u8>,
)
    requires
        bytes.len() > 0,
        buffered.len() + bytes.len() <= 16384,
    ensures
        ({
            let arrived = buffered + bytes;
            let (action, left) = read_step(
                config,
                buffered,
                peer_port,
                ReadEventView::Received(bytes),
            );
            &&& request_in(config, arrived) matches Ok(parsed) ==> {
                &&& action matches ReadActionView::Done(Ok(received))
                &&& received.request == parsed.request
                &&& received.method == parsed.method
                &&& received.opt_peer_addr is Some <==> parsed.opt_peer_ip is Some
                &&& parsed.opt_peer_ip matches Some(ip) ==> received.opt_peer_addr == Some(
                    canonical_of(socket_addr_of(ip, peer_port)),
                )
                &&& left == arrived.skip(parsed.consumed as int)
            }
            &&& request_in(config, arrived) matches Err(err) ==> left == arrived
            &&& request_in(config, arrived) matches Err(RequestParseErrorView::InvalidRequest(
                messages,
            )) ==> action == ReadActionView::Done(Err(ConnectionErrorView::RequestParse(messages)))
            &&& request_in(config, arrived) matches Err(
                RequestParseErrorView::RequiredPeerIpHeaderMissing(messages),
            ) ==> {
                &&& action matches ReadActionView::Done(Err(ConnectionErrorView::RequestParse(said)))
                &&& said.len() == messages.len() + 1
                &&& said[0] == "required peer ip header missing or invalid"@
                &&& said.skip(1) == messages
            }
            &&& request_in(config, arrived) matches Err(RequestParseErrorView::MethodNotAllowed)
                ==> {
                &&& action matches ReadActionView::Done(Err(ConnectionErrorView::RequestParse(said)))
                &&& said.len() == 1
                &&& said[0] == "method not allowed"@
            }
            &&& request_in(config, arrived) matches Err(RequestParseErrorView::MoreDataNeeded)
                ==> if arrived.len() < 16384 {
                action matches ReadActionView::Read { room } && arrived.len() + room == 16384
            } else {
                action == ReadActionView::Done(Err(ConnectionErrorView::RequestBufferFull))
            }
            &&& action is Read ==> request_in(config, arrived) == Err::<
                ParsedRequestView,
                RequestParseErrorView,
            >(RequestParseErrorView::MoreDataNeeded)
        }),
{
    let arrived = buffered + bytes;
    if let Err(RequestParseErrorView::RequiredPeerIpHeaderMissing(messages)) = request_in(
        config,
        arrived,
    ) {
        let said = seq!["required peer ip header missing or invalid"@] + messages;
        assert(said.skip(1) =~= messages);
    }
}

/// A request is first looked for in the bytes left over from the one before, as if
/// they had arrived just now.
pub proof fn left_over_bytes_are_read_first(config: Config, buffered: Seq<u8>, peer_port: u16)
    requires
        buffered.len() <= 16384,
    ensures
        buffered.len() > 0 ==> read_step(config, buffered, peer_port, ReadEventView::Start)
            == read_step(config, Seq::empty(), peer_port, ReadEventView::Received(buffered)),
        buffered.len() == 0 ==> read_step(config, buffered, peer_port, ReadEventView::Start) == (
            ReadActionView::Read { room: 16384 },
            buffered,
        ),
{
    assert(Seq::<u8>::empty() + buffered =~= buffered);
}

/// The end of the stream and a failure to read end reading, whatever has arrived. The
/// failure is told with its causes.
pub proof fn reading_ends_with_the_stream(
    config: Config,
    buffered: Seq<u8>,
    peer_port: u16,
    chain: ErrorChain,
    action: ReadAction,
)
    ensures
        read_step(config, buffered, peer_port, ReadEventView::Received(Seq::empty())) == (
            ReadActionView::Done(Err(ConnectionErrorView::PeerClosed)),
            buffered,
        ),
        action@ == read_step(config, buffered, peer_port, ReadEvent::Failed(chain)@).0 ==> {
            &&& action matches ReadAction::Done(Err(ConnectionError::Other(told)))
            &&& told@.len() == chain@.len() + 1
            &&& told@[0] == "read"@
            &&& told@.skip(1) == chain@
        },
        read_step(config, buffered, peer_port, ReadEvent::Failed(chain)@).1 == buffered,
{
    assert((seq!["read"@] + chain@).skip(1) =~= chain@);
}

/// Bytes that cannot be read as a request are answered at once: the peer is told why,
/// and the connection is closed after that.
pub proof fn unreadable_bytes_are_answered_at_once(
    config: Config,
    stable_addr: Option<SocketAddrView>,
    buffered: Seq<u8>,
    peer_port: u16,
    bytes: Seq<u8>,
)
    requires
        bytes.len() > 0,
        buffered.len() + bytes.len() <= 16384,
        request_in(config, buffered + bytes) is Err,
        request_in(config, buffered + bytes) != Err::<ParsedRequestView, RequestParseErrorView>(
            RequestParseErrorView::MoreDataNeeded,
        ),
    ensures
        read_step(config, buffered, peer_port, ReadEventView::Received(bytes)).0 matches
            ReadActionView::Done(result) && (next_action(
            config.network.keep_alive,
            stable_addr,
            RunEventView::Read(result),
        ) matches RunActionView::WriteResponse {
            response: ResponseView::Failure(reason),
            opt_peer_addr,
            last,
        } && last && opt_peer_addr is None && reason.take(17) == "Invalid request: "@
            && reason.skip(17) == report_of(
            match request_in(config, buffered + bytes)->Err_0 {
                RequestParseErrorView::InvalidRequest(messages) => messages,
                RequestParseErrorView::RequiredPeerIpHeaderMissing(messages) => seq![
                    "required peer ip header missing or invalid"@,
                ] + messages,
                RequestParseErrorView::MethodNotAllowed => seq!["method not allowed"@],
                RequestParseErrorView::MoreDataNeeded => Seq::empty(),
            },
        )),
{
    reveal_strlit("Invalid request: ");
    let messages = match request_in(config, buffered + bytes)->Err_0 {
        RequestParseErrorView::InvalidRequest(messages) => messages,
        RequestParseErrorView::RequiredPeerIpHeaderMissing(messages) => seq![
            "required peer ip header missing or invalid"@,
        ] + messages,
        RequestParseErrorView::MethodNotAllowed => seq!["method not allowed"@],
        RequestParseErrorView::MoreDataNeeded => Seq::empty(),
    };
    let reason = "Invalid request: "@ + report_of(messages);
    assert(reason.take(17) =~= "Invalid request: "@);
    assert(reason.skip(17) =~= report_of(messages));
}

/// A request that was read is handed on as it was read, under the address of the
/// connection, or under the one that it tells where the connection has none. The index
/// page is served under no address.
pub proof fn request_is_handed_on(
    keep_alive: bool,
    stable_addr: Option<SocketAddrView>,
    received: ReceivedRequest,
    action: RunAction,
)
    requires
        action@ == next_action(keep_alive, stable_addr, RunEvent::Read(Ok(received))@),
    ensures
        received.request is StaticIndex ==> {
            &&& action matches RunAction::ServeStaticIndex { method }
            &&& method == received.method
        },
        received.request matches HttpRequest::Tracker(request) ==> match (
            stable_addr,
            received.opt_peer_addr,
        ) {
            (None, None) => action matches RunAction::Close(Err(ConnectionError::Other(chain)))
                && chain@ == seq!["Could not extract peer addr"@],
            _ => {
                &&& action matches RunAction::HandleRequest { request: same, peer_addr }
                &&& same@ == request@
                &&& stable_addr matches Some(stable) ==> peer_addr@ == stable
                &&& stable_addr is None ==> peer_addr@ == received.opt_peer_addr.unwrap()@
            },
        },
{
}

/// Whatever response handling a request gives, of whatever kind, that response is
/// written to the peer, and it is not the last thing to be written.
pub proof fn each_response_is_written(
    keep_alive: bool,
    stable_addr: Option<SocketAddrView>,
    response: Response,
    peer_addr: CanonicalSocketAddr,
    action: RunAction,
)
    requires
        action@ == next_action(
            keep_alive,
            stable_addr,
            (RunEvent::Handled { result: Ok(response), peer_addr })@,
        ),
    ensures
        action matches RunAction::WriteResponse { response: written, opt_peer_addr, last } && !last
            && written@ == response@ && (opt_peer_addr matches Some(addr) && addr@ == peer_addr@),
        response matches Response::Announce(announce) ==> (
        action->WriteResponse_response matches Response::Announce(written) && written@ == announce@),
        response matches Response::Scrape(scrape) ==> (
        action->WriteResponse_response matches Response::Scrape(written) && written@ == scrape@),
        response matches Response::Failure(failure) ==> (
        action->WriteResponse_response matches Response::Failure(written) && written@ == failure@),
{
}

/// An error while a request is handled or a response is written closes the connection
/// with that error, and so does an error while a request is read that is not answered.
pub proof fn errors_close_the_connection(
    keep_alive: bool,
    stable_addr: Option<SocketAddrView>,
    err: ConnectionError,
    peer_addr: CanonicalSocketAddr,
    last: bool,
    action: RunAction,
)
    ensures
        action@ == next_action(
            keep_alive,
            stable_addr,
            (RunEvent::Handled { result: Err(err), peer_addr })@,
        ) ==> (action matches RunAction::Close(Err(same)) && same@ == err@),
        action@ == next_action(keep_alive, stable_addr, (RunEvent::Written { result: Err(err), last })@)
            ==> (action matches RunAction::Close(Err(same)) && same@ == err@),
        action@ == next_action(keep_alive, stable_addr, RunEvent::Read(Err(err))@) && !(
        err is RequestParse) && !(err is RequestBufferFull) ==> (action matches RunAction::Close(
            Err(same),
        ) && same@ == err@),
{
}

/// A response that was written is followed by the next request exactly where further
/// requests are served and the response was not the last; otherwise the connection is
/// closed without an error.
pub proof fn written_response_is_followed_by_the_next_request(
    keep_alive: bool,
    stable_addr: Option<SocketAddrView>,
    last: bool,
    action: RunAction,
)
    requires
        action@ == next_action(keep_alive, stable_addr, (RunEvent::Written { result: Ok(()), last })@),
    ensures
        action is ReadRequest <==> keep_alive && !last,
        action is ReadRequest || action matches RunAction::Close(Ok(_)),
{
}

/// Whether the worker to which a torrent belongs by its first byte is asked for it.
pub open spec fn is_asked_for(parts: Seq<ScrapePart>, workers: usize, hash: Seq<u8>) -> bool {
    exists|i: int|
        0 <= i < parts.len() && (#[trigger] parts[i]).request@.contains(hash)
            && parts[i].consumer_index == hash[0] as int % workers as int
}

/// A scrape request is divided among the swarm workers whatever the access list holds
/// and is used for, and is never answered with a failure. Each torrent is asked for
/// once per mention, of the worker that it belongs to by its first byte; no worker is
/// asked for anything else.
pub proof fn scrapes_are_never_refused(
    config: Config,
    listed: Set<Seq<u8>>,
    scrape: ScrapeRequest,
    plan: RequestPlan,
)
    requires
        scrape@.len() > 0 ==> config.swarm_workers > 0,
        is_plan(config, listed, Request::Scrape(scrape), plan),
    ensures
        plan is Scrape,
        plan matches RequestPlan::Scrape { parts } ==> {
            &&& forall|k: int|
                0 <= k < scrape.info_hashes.len() ==> is_asked_for(
                    parts@,
                    config.swarm_workers,
                    (#[trigger] scrape.info_hashes@[k])@,
                )
            &&& forall|i: int, hash: Seq<u8>|
                0 <= i < parts.len() && #[trigger] parts[i].request@.contains(hash) ==> {
                    &&& scrape@.contains(hash)
                    &&& parts[i].consumer_index == hash[0] as int % config.swarm_workers as int
                }
            &&& forall|i: int, j: int|
                0 <= i < j < parts.len() ==> (#[trigger] parts[i]).consumer_index < (
                #[trigger] parts[j]).consumer_index
            &&& forall|i: int|
                0 <= i < parts.len() ==> (#[trigger] parts[i]).request.info_hashes.len() > 0
            &&& forall|i: int, hash: Seq<u8>|
                0 <= i < parts.len() && #[trigger] parts[i].request@.contains(hash)
                    ==> parts[i].request@.to_multiset().count(hash)
                    == scrape@.to_multiset().count(hash)
        },
{
    if let RequestPlan::Scrape { parts } = plan {
        let views = part_views(parts@);
        let hashes = scrape@;
        assert forall|k: int| 0 <= k < scrape.info_hashes.len() implies is_asked_for(
            parts@,
            config.swarm_workers,
            (#[trigger] scrape.info_hashes@[k])@,
        ) by {
            each_torrent_is_in_one_part(config.swarm_workers, hashes, views, k);
            assert(hashes[k] == scrape.info_hashes[k]@);
            let i = choose|i: int|
                0 <= i < views.len() && (#[trigger] views[i]).hashes.contains(hashes[k]);
            assert(views[i] == parts[i]@);
            assert(parts@[i].request@.contains(scrape.info_hashes[k]@));
        }
        assert forall|i: int, hash: Seq<u8>|
            0 <= i < parts.len() && #[trigger] parts[i].request@.contains(hash) implies {
            &&& scrape@.contains(hash)
            &&& parts[i].consumer_index == hash[0] as int % config.swarm_workers as int
            &&& parts[i].request@.to_multiset().count(hash) == scrape@.to_multiset().count(hash)
        } by {
            assert(views[i] == parts[i]@);
            part_holds_what_was_asked_for(config.swarm_workers, hashes, views, i, hash);
        }
        assert forall|i: int, j: int| 0 <= i < j < parts.len() implies (
        #[trigger] parts[i]).consumer_index < (#[trigger] parts[j]).consumer_index by {
            assert(views[i] == parts[i]@ && views[j] == parts[j]@);
            assert(views[i].consumer_index < views[j].consumer_index);
        }
        assert forall|i: int| 0 <= i < parts.len() implies (
        #[trigger] parts[i]).request.info_hashes.len() > 0 by {
            assert(views[i] == parts[i]@);
            assert(views[i].hashes.len() > 0);
        }
    }
}

/// An announce is refused exactly where the list is used to allow torrents and does
/// not hold this one, or is used to deny torrents and holds it. Any other announce is
/// passed on as it is, to the worker that the torrent belongs to by its first byte.
pub proof fn access_list_decides_on_announces(
    config: Config,
    listed: Set<Seq<u8>>,
    announce: AnnounceRequest,
    plan: RequestPlan,
)
    requires
        is_plan(config, listed, Request::Announce(announce), plan),
    ensures
        ({
            let refused = match config.access_list.mode {
                AccessListMode::Allow => !listed.contains(announce.info_hash@),
                AccessListMode::Deny => listed.contains(announce.info_hash@),
                AccessListMode::Off => false,
            };
            &&& refused ==> (plan matches RequestPlan::Respond(Response::Failure(failure))
                && failure.failure_reason@ == "Info hash not allowed"@)
            &&& !refused ==> {
                &&& plan matches RequestPlan::Announce { consumer_index, request }
                &&& request == announce
                &&& consumer_index == announce.info_hash.0@[0] as int % config.swarm_workers as int
            }
        }),
{
}

/// What a swarm worker answers to an announce is the response, unchanged, whichever
/// request it names. An answer to a scrape is an error, and so is no answer.
pub proof fn announce_answer_is_the_response(
    response: AnnounceResponse,
    scrape: ScrapeResponse,
    request_id: RequestId,
)
    ensures
        announce_outcome(Some(ChannelResponse::Announce { request_id, response })) == Ok::<
            Response,
            ConnectionError,
        >(Response::Announce(response)),
        announce_outcome(Some(ChannelResponse::Scrape { request_id, response: scrape })) == Err::<
            Response,
            ConnectionError,
        >(ConnectionError::UnexpectedInternalResponse),
        announce_outcome(None) == Err::<Response, ConnectionError>(
            ConnectionError::ResponseSenderClosed,
        ),
{
}

/// Behind a reverse proxy a connection has no address of its own. Elsewhere it has that
/// of its remote end: an IPv4 address as it is, also where it comes in IPv6 form.
pub proof fn connection_has_the_address_of_its_remote_end(
    config: Config,
    octets: Seq<u8>,
    groups: Seq<u16>,
    port: u16,
    flowinfo: u32,
    scope_id: u32,
)
    requires
        octets.len() == 4,
        groups.len() == 8,
    ensures
        ({
            let v4 = SocketAddrView::V4 { octets, port };
            let v6 = SocketAddrView::V6 { groups, port, flowinfo, scope_id };
            if config.network.runs_behind_reverse_proxy {
                stable_addr(config, v4) is None && stable_addr(config, v6) is None
            } else {
                &&& stable_addr(config, v4) == Some(v4)
                &&& groups.take(6) != seq![0u16, 0, 0, 0, 0, 0xffff] ==> stable_addr(config, v6)
                    == Some(v6)
                &&& groups == seq![0u16, 0, 0, 0, 0, 0xffff] + groups_of_octets(octets)
                    ==> stable_addr(config, v6) == Some(v4)
            }
        }),
{
    let v6 = SocketAddrView::V6 { groups, port, flowinfo, scope_id };
    if groups.take(6) != seq![0u16, 0, 0, 0, 0, 0xffff] && canonical_of(v6) != v6 {
        assert(groups.take(6) =~= seq![0u16, 0, 0, 0, 0, 0xffff]);
    }
    if groups == seq![0u16, 0, 0, 0, 0, 0xffff] + groups_of_octets(octets) {
        mapped_form_is_the_ipv4_address(octets, port);
    }
}

/// A peer is told of an error exactly where its request cannot be read or is too large.
/// The kinds of errors do not look alike in the log, and what is known of an error is
/// told there.
pub proof fn errors_are_told(err: ConnectionError)
    ensures
        reply_to_read_error(err@) is Some <==> err is RequestParse || err is RequestBufferFull,
        err matches ConnectionError::RequestParse(chain) ==> reply_to_read_error(err@) == Some(
            "Invalid request: "@ + report_of(chain@),
        ) && connection_error_text(err@) == "request parse error: "@ + chain.message@,
        err matches ConnectionError::ResponseBufferWrite(text) ==> connection_error_text(err@)
            == "response buffer write error: "@ + text@,
        err matches ConnectionError::ScrapeChannelError(text) ==> connection_error_text(err@)
            == "scrape channel error: "@ + text@,
        err matches ConnectionError::Other(chain) ==> connection_error_text(err@) == report_of(
            chain@,
        ),
        err matches ConnectionError::NoSocketPeerAddr(_) ==> connection_error_text(err@)
            == "socket peer addr extraction failed"@,
{
}

/// Each kind of response is counted under a word of its own.
pub proof fn responses_are_counted_by_kind(response: Response)
    ensures
        response is Announce ==> response_word(response@) == "announce"@,
        response is Scrape ==> response_word(response@) == "scrape"@,
        response is Failure ==> response_word(response@) == "error"@,
{
}

/// A request needs a worker exactly where it is an announce that is passed on or a
/// scrape that has parts.
pub proof fn workers_are_needed_for_what_is_passed_on(
    config: Config,
    listed: Set<Seq<u8>>,
    request: Request,
    plan: RequestPlan,
)
    requires
        is_passed_on(config.access_list.mode, listed, request@) ==> config.swarm_workers > 0,
        is_plan(config, listed, request, plan),
    ensures
        is_passed_on(config.access_list.mode, listed, request@) <==> match plan {
            RequestPlan::Respond(_) => false,
            RequestPlan::Announce { .. } => true,
            RequestPlan::Scrape { parts } => parts.len() > 0,
        },
{
    if let Request::Scrape(scrape) = request {
        scrapes_are_never_refused(config, listed, scrape, plan);
        if let RequestPlan::Scrape { parts } = plan {
            if scrape@.len() > 0 {
                assert(is_asked_for(
                    parts@,
                    config.swarm_workers,
                    scrape.info_hashes@[0]@,
                ));
            }
            if parts.len() > 0 {
                let part = parts@[0].request@;
                assert(parts[0].request.info_hashes.len() > 0);
                assert(part.contains(part[0]));
                assert(parts[0].request@.contains(part[0]));
            }
        }
    }
}

/// What is to be done to read a request is done: bytes are read where bytes are wanted,
/// and the request or the error is the one that reading gave.
pub proof fn read_actions_are_carried_out(action: ReadAction)
    ensures
        action@ matches ReadActionView::Read { room } ==> (action matches ReadAction::Read {
            room: same,
        } && same == room),
        action@ matches ReadActionView::Done(Ok(received)) ==> (action matches ReadAction::Done(
            Ok(same),
        ) && same.request@ == received.request && same.method == received.method && (
        same.opt_peer_addr is Some <==> received.opt_peer_addr is Some) && (
        same.opt_peer_addr matches Some(addr) ==> received.opt_peer_addr == Some(addr@))),
        action@ matches ReadActionView::Done(Err(err)) ==> (action matches ReadAction::Done(
            Err(same),
        ) && same@ == err),
{
}

/// What is looked for in the bytes is found as it is: a request, nothing yet, or an
/// error, each for itself.
pub proof fn results_of_looking_are_told_apart(
    result: Result<Option<ReceivedRequest>, ConnectionError>,
)
    ensures
        read_result(result) matches Ok(Some(received)) ==> (result matches Ok(Some(same))
            && same@ == received),
        read_result(result) matches Ok(None) <==> result matches Ok(None),
        read_result(result) matches Err(err) ==> (result matches Err(same) && same@ == err),
{
}

} // verus!
