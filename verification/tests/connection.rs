use aquatic_common::access_list::AccessList;
use aquatic_http::address::{CanonicalSocketAddr, IpAddr, SocketAddr};
use aquatic_http::common::{ChannelResponse, RequestId, ValidUntil};
use aquatic_http::config::{AccessListMode, Config};
use aquatic_http::connection::{
    announce_response, checked_handle_request, handle_request, peer_addr_to_ip_version_str, receive_parsed,
    request_parse_error_response, request_read_error_response,
    required_peer_ip_header_missing_error, response_type, Connection, ConnectionError,
    ReadAction, ReadEvent, ReceivedRequest, RequestPlan, RunAction, RunEvent, REQUEST_BUFFER_SIZE,
};
use aquatic_http::error::ErrorChain;
use aquatic_http::files::{ScrapeFiles, ScrapeStatistics};
use aquatic_http::protocol::{AnnounceRequest, InfoHash, PeerId, Request, ScrapeRequest};
use aquatic_http::request::{HttpMethod, HttpRequest, RequestParseError};
use aquatic_http::response::{
    write_response_to_buffer, AnnounceResponse, FailureResponse, Response, ScrapeResponse,
    RESPONSE_BUFFER_SIZE, RESPONSE_HEADER_A,
};
use aquatic_http::worker::{close_log_level, LogLevel};

fn remote(port: u16) -> SocketAddr {
    SocketAddr::new(IpAddr::V4([192, 0, 2, 1]), port)
}

fn announce(info_hash: [u8; 20]) -> AnnounceRequest {
    AnnounceRequest {
        info_hash: InfoHash(info_hash),
        peer_id: PeerId([b'p'; 20]),
        port: 1,
        bytes_uploaded: 0,
        bytes_downloaded: 0,
        bytes_left: 0,
        event: None,
        numwant: None,
        key: None,
    }
}

fn announce_answer() -> AnnounceResponse {
    AnnounceResponse {
        announce_interval: 120,
        complete: 1,
        incomplete: 2,
        peers: vec![],
        peers6: vec![],
        warning_message: None,
    }
}

#[test]
fn default_request_buffer_fits_configured_max_scrape_request() {
    let config = Config::default();
    let request =
        aquatic_http_protocol::request::Request::Scrape(aquatic_http_protocol::request::ScrapeRequest {
            info_hashes: vec![
                aquatic_http_protocol::common::InfoHash([0xff; 20]);
                config.protocol.max_scrape_torrents
            ],
        });
    let mut bytes = Vec::new();

    request.write(&mut bytes, &[]).unwrap();

    assert!(
        bytes.len() <= REQUEST_BUFFER_SIZE,
        "default scrape request can be {} bytes, but request buffer is {} bytes",
        bytes.len(),
        REQUEST_BUFFER_SIZE
    );
}

#[test]
fn test_required_peer_ip_header_missing_is_connection_parse_error() {
    let err = required_peer_ip_header_missing_error(ErrorChain::new("header not present"));

    assert!(matches!(err, ConnectionError::RequestParse(_)));
    assert!(err
        .report()
        .contains("required peer ip header missing or invalid"));
}

#[test]
fn test_request_parse_error_is_written_as_failure_response() {
    const INFO_HASH: &str = "%E0%79%A8%4C%16%05%72%D7%54%8F%63%24%EE%E6%5B%69%5E%87%77%E9";
    const PEER_ID: &str = "-ABC940-5ert69muw5t8";

    let config = Config::default();

    for (path, expected_detail) in [
        (
            format!("/announce?peer_id={PEER_ID}&port=12345&uploaded=1&downloaded=2&left=3"),
            "no info_hash",
        ),
        (format!("/announce?info_hash={INFO_HASH}"), "no peer_id"),
        (
            format!("/announce?info_hash={INFO_HASH}&peer_id={PEER_ID}&uploaded=1&downloaded=2&left=3"),
            "no port",
        ),
        (
            format!("/announce?info_hash={INFO_HASH}&peer_id={PEER_ID}&port=12345&downloaded=2&left=3"),
            "no uploaded",
        ),
        (
            format!("/announce?info_hash={INFO_HASH}&peer_id={PEER_ID}&port=12345&uploaded=1&left=3"),
            "no downloaded",
        ),
        (
            format!("/announce?info_hash={INFO_HASH}&peer_id={PEER_ID}&port=12345&uploaded=1&downloaded=2"),
            "no left",
        ),
        (
            format!("/announce?info_hash={INFO_HASH}&peer_id={PEER_ID}&port=abc&uploaded=1&downloaded=2&left=3"),
            "parse port",
        ),
    ] {
        let request = format!("GET {path} HTTP/1.1\r\n\r\n");
        let err = match aquatic_http::request::parse_request(&config, request.as_bytes()) {
            Err(RequestParseError::InvalidRequest(err)) => err,
            other => panic!("unexpected outcome: {other:?}"),
        };
        let response = request_parse_error_response(err);
        let mut response_buffer = Vec::with_capacity(RESPONSE_BUFFER_SIZE);

        write_response_to_buffer(&mut response_buffer, &response).unwrap();

        let response = std::str::from_utf8(&response_buffer).unwrap();

        assert!(
            response.starts_with("HTTP/1.1 200 OK\r\nContent-Length: "),
            "{path}"
        );
        assert!(response.contains("d14:failure reason"), "{path}");
        assert!(response.contains("Invalid request"), "{path}");
        assert!(response.contains(expected_detail), "{path}");
    }
}

#[test]
fn test_request_buffer_full_is_written_as_failure_response() {
    let response = request_read_error_response(ConnectionError::RequestBufferFull).unwrap();
    let mut response_buffer = Vec::with_capacity(RESPONSE_BUFFER_SIZE);

    write_response_to_buffer(&mut response_buffer, &response).unwrap();

    let response = std::str::from_utf8(&response_buffer).unwrap();

    assert!(response.starts_with("HTTP/1.1 200 OK\r\nContent-Length: "));
    assert!(response.contains("d14:failure reason"));
    assert!(response.contains("Request too large"));
}

#[test]
fn test_write_response_to_buffer_handles_default_max_scrape_response() {
    let config = Config::default();
    let mut files = ScrapeFiles::new();

    for index in 0..config.protocol.max_scrape_torrents {
        let mut bytes = [0; 20];
        bytes[16..].copy_from_slice(&(index as u32).to_be_bytes());

        files.insert(
            InfoHash(bytes),
            ScrapeStatistics {
                complete: usize::MAX,
                downloaded: usize::MAX,
                incomplete: usize::MAX,
            },
        );
    }

    let response = Response::Scrape(ScrapeResponse { files });
    let mut response_buffer = Vec::with_capacity(RESPONSE_BUFFER_SIZE);

    let written = write_response_to_buffer(&mut response_buffer, &response).unwrap();

    assert_eq!(written, response_buffer.len());
    assert!(response_buffer.len() > RESPONSE_BUFFER_SIZE);
    assert!(response_buffer.starts_with(RESPONSE_HEADER_A.as_bytes()));
    assert!(response_buffer.ends_with(b"\r\n"));

    let header_end = response_buffer
        .windows(4)
        .position(|window| window == b"\r\n\r\n")
        .unwrap();
    let header = std::str::from_utf8(&response_buffer[..header_end]).unwrap();
    let content_len = header
        .strip_prefix("HTTP/1.1 200 OK\r\nContent-Length: ")
        .unwrap()
        .trim()
        .parse::<usize>()
        .unwrap();

    assert_eq!(content_len, response_buffer.len() - header_end - 4);
}

#[test]
fn connection_errors_are_reported() {
    for (err, expected) in [
        (ConnectionError::Inactive, "inactive"),
        (
            ConnectionError::NoSocketPeerAddr("x".to_string()),
            "socket peer addr extraction failed",
        ),
        (ConnectionError::RequestBufferFull, "request buffer full"),
        (ConnectionError::RequestReadTimeout, "request read timeout"),
        (
            ConnectionError::RequestParse(ErrorChain::new("inner").context("outer")),
            "request parse error: outer",
        ),
        (ConnectionError::ResponseBufferFull, "response buffer full"),
        (
            ConnectionError::ResponseBufferWrite("disk".to_string()),
            "response buffer write error: disk",
        ),
        (ConnectionError::PeerClosed, "peer closed"),
        (
            ConnectionError::ResponseSenderClosed,
            "response sender closed",
        ),
        (
            ConnectionError::ResponseReceiverClosed,
            "response receiver closed",
        ),
        (
            ConnectionError::InternalResponseTimeout,
            "internal response timeout",
        ),
        (
            ConnectionError::UnexpectedInternalResponse,
            "unexpected internal response",
        ),
        (
            ConnectionError::ScrapeChannelError("sender is closed"),
            "scrape channel error: sender is closed",
        ),
        (
            ConnectionError::Other(ErrorChain::new("inner").context("outer")),
            "outer: inner",
        ),
    ] {
        assert_eq!(err.report(), expected);
    }
}

#[test]
fn error_chains_are_built_from_the_inside() {
    let chain = ErrorChain::from_messages(vec!["a".to_string(), "b".to_string(), "c".to_string()]);

    assert_eq!(chain, ErrorChain::new("c").context("b").context("a"));
    assert_eq!(chain.summary(), "a");
    assert_eq!(chain.report(), "a: b: c");
}

#[test]
fn read_errors_without_an_answer_are_handed_back() {
    assert_eq!(
        request_read_error_response(ConnectionError::PeerClosed).unwrap_err(),
        ConnectionError::PeerClosed
    );
    assert_eq!(
        request_read_error_response(ConnectionError::RequestParse(
            ErrorChain::new("inner").context("outer")
        ))
        .unwrap(),
        Response::Failure(FailureResponse::new("Invalid request: outer: inner"))
    );
}

#[test]
fn request_is_read_piece_by_piece() {
    let config = Config::default();
    let mut connection = Connection::new(&config, remote(1000));

    assert_eq!(connection.take_request(&config), Ok(None));
    assert_eq!(connection.read_room(), Ok(16384));
    assert_eq!(connection.receive(b"GET / HT"), Ok(()));
    assert_eq!(connection.take_request(&config), Ok(None));
    assert_eq!(connection.read_room(), Ok(16376));
    assert_eq!(connection.receive(b"TP/1.1\r\n\r\n"), Ok(()));
    assert_eq!(
        connection.take_request(&config),
        Ok(Some(ReceivedRequest {
            request: HttpRequest::StaticIndex,
            method: HttpMethod::Get,
            opt_peer_addr: None,
        }))
    );
    assert_eq!(connection.read_room(), Ok(16384));
}

#[test]
fn pipelined_requests_are_kept() {
    let config = Config::default();
    let mut connection = Connection::new(&config, remote(1000));

    connection
        .receive(b"HEAD / HTTP/1.1\r\n\r\nGET /index.html HTTP/1.1\r\n\r\nGET")
        .unwrap();

    let first = connection.take_request(&config).unwrap().unwrap();
    assert_eq!(first.method, HttpMethod::Head);

    let second = connection.take_request(&config).unwrap().unwrap();
    assert_eq!(second.method, HttpMethod::Get);

    assert_eq!(connection.take_request(&config), Ok(None));
    assert_eq!(connection.read_room(), Ok(16381));
}

#[test]
fn full_buffer_without_a_request_is_an_error() {
    let config = Config::default();
    let mut connection = Connection::new(&config, remote(1000));
    let mut bytes = b"GET /".to_vec();
    bytes.resize(REQUEST_BUFFER_SIZE, b'a');

    connection.receive(&bytes).unwrap();

    assert_eq!(connection.take_request(&config), Ok(None));
    assert_eq!(
        connection.read_room(),
        Err(ConnectionError::RequestBufferFull)
    );
}

#[test]
fn no_bytes_mean_that_the_peer_has_closed() {
    let config = Config::default();
    let mut connection = Connection::new(&config, remote(1000));

    assert_eq!(connection.receive(b""), Err(ConnectionError::PeerClosed));
}

fn room(action: ReadAction) -> usize {
    match action {
        ReadAction::Read { room } => room,
        other => panic!("unexpected action: {other:?}"),
    }
}

fn read(action: ReadAction) -> Result<ReceivedRequest, ConnectionError> {
    match action {
        ReadAction::Done(result) => result,
        other => panic!("unexpected action: {other:?}"),
    }
}

#[test]
fn reading_goes_on_until_a_request_has_arrived() {
    let config = Config::default();
    let mut connection = Connection::new(&config, remote(1000));

    assert_eq!(room(connection.read_request(&config, ReadEvent::Start)), 16384);
    assert_eq!(
        room(connection.read_request(&config, ReadEvent::Received(b"HEAD / HT"))),
        16375
    );

    let event = ReadEvent::Received(b"TP/1.1\r\n\r\nGET / HTTP/1.1\r\n\r\nGE");
    let first = read(connection.read_request(&config, event)).unwrap();
    assert_eq!(first.method, HttpMethod::Head);

    // The second request has arrived together with the first one.
    let second = read(connection.read_request(&config, ReadEvent::Start)).unwrap();
    assert_eq!(second.method, HttpMethod::Get);

    assert_eq!(room(connection.read_request(&config, ReadEvent::Start)), 16382);
    assert_eq!(
        read(connection.read_request(&config, ReadEvent::Received(b""))),
        Err(ConnectionError::PeerClosed)
    );
}

#[test]
fn splitting_of_a_request_into_reads_does_not_matter() {
    let mut config = Config::default();
    config.network.runs_behind_reverse_proxy = true;

    let mut bytes = b"\r\nGET /scrape?info_hash=%aaaaaaaaaaaaaaaaaaaaa HTTP/1.1\r\n".to_vec();
    bytes.extend_from_slice(b"Host: example.com\r\nX-Forwarded-For: 1.2.3.4\r\n\r\n");
    let expected = ReceivedRequest {
        request: HttpRequest::Tracker(Request::Scrape(ScrapeRequest {
            info_hashes: vec![InfoHash({
                let mut hash = [b'a'; 20];
                hash[0] = 0xaa;
                hash
            })],
        })),
        method: HttpMethod::Get,
        opt_peer_addr: Some(CanonicalSocketAddr::new(SocketAddr::V4 {
            octets: [1, 2, 3, 4],
            port: 1000,
        })),
    };

    for size in 1..=bytes.len() {
        let mut connection = Connection::new(&config, remote(1000));
        let mut action = connection.read_request(&config, ReadEvent::Start);
        let mut position = 0;

        while position < bytes.len() {
            assert_eq!(room(action), REQUEST_BUFFER_SIZE - position);

            let end = bytes.len().min(position + size);
            action =
                connection.read_request(&config, ReadEvent::Received(&bytes[position..end]));
            position = end;
        }

        assert_eq!(read(action).as_ref(), Ok(&expected), "reads of {size} bytes");
    }
}

#[test]
fn reading_ends_with_a_full_buffer() {
    let config = Config::default();
    let mut connection = Connection::new(&config, remote(1000));
    let mut bytes = b"GET /".to_vec();
    bytes.resize(REQUEST_BUFFER_SIZE - 1, b'a');

    assert_eq!(
        room(connection.read_request(&config, ReadEvent::Received(&bytes))),
        1
    );
    assert_eq!(
        read(connection.read_request(&config, ReadEvent::Received(b"a"))),
        Err(ConnectionError::RequestBufferFull)
    );
}

#[test]
fn failure_to_read_is_reported_with_its_place() {
    let config = Config::default();
    let mut connection = Connection::new(&config, remote(1000));
    let event = ReadEvent::Failed(ErrorChain::new("connection reset"));
    let err = read(connection.read_request(&config, event)).unwrap_err();

    assert_eq!(
        err,
        ConnectionError::Other(ErrorChain::new("connection reset").context("read"))
    );
    assert_eq!(err.report(), "read: connection reset");
}

#[test]
fn request_behind_a_proxy_tells_its_address() {
    let mut config = Config::default();

    config.network.runs_behind_reverse_proxy = true;

    let mut connection = Connection::new(&config, remote(1000));

    connection
        .receive(
            b"GET /scrape?info_hash=aaaaaaaaaaaaaaaaaaaa HTTP/1.1\r\nX-Forwarded-For: ::ffff:1.2.3.4\r\n\r\n",
        )
        .unwrap();

    let received = connection.take_request(&config).unwrap().unwrap();
    let expected = CanonicalSocketAddr::new(SocketAddr::V4 {
        octets: [1, 2, 3, 4],
        port: 1000,
    });

    assert_eq!(received.opt_peer_addr, Some(expected));
    match connection.run(&config, RunEvent::Read(Ok(received))) {
        RunAction::HandleRequest { peer_addr, .. } => assert_eq!(peer_addr, expected),
        other => panic!("unexpected action: {other:?}"),
    }
}

#[test]
fn refusals_become_parse_errors() {
    assert_eq!(
        receive_parsed(1, Err(RequestParseError::MoreDataNeeded)),
        Ok(None)
    );
    assert_eq!(
        receive_parsed(1, Err(RequestParseError::MethodNotAllowed)),
        Err(ConnectionError::RequestParse(ErrorChain::new(
            "method not allowed"
        )))
    );
    assert_eq!(
        receive_parsed(
            1,
            Err(RequestParseError::InvalidRequest(ErrorChain::new("x")))
        ),
        Err(ConnectionError::RequestParse(ErrorChain::new("x")))
    );
    assert_eq!(
        receive_parsed(
            1,
            Err(RequestParseError::RequiredPeerIpHeaderMissing(
                ErrorChain::new("x")
            ))
        ),
        Err(ConnectionError::RequestParse(
            ErrorChain::new("x").context("required peer ip header missing or invalid")
        ))
    );
}

#[test]
fn unreadable_request_is_answered_before_closing() {
    let config = Config::default();
    let connection = Connection::new(&config, remote(1000));
    let err = ConnectionError::RequestParse(ErrorChain::new("no port"));

    match connection.run(&config, RunEvent::Read(Err(err))) {
        RunAction::WriteResponse {
            response,
            opt_peer_addr,
            last,
        } => {
            assert_eq!(
                response,
                Response::Failure(FailureResponse::new("Invalid request: no port"))
            );
            assert_eq!(opt_peer_addr, None);
            assert!(last);
        }
        other => panic!("unexpected action: {other:?}"),
    }
    assert!(matches!(
        connection.run(
            &config,
            RunEvent::Written {
                result: Ok(()),
                last: true
            }
        ),
        RunAction::Close(Ok(()))
    ));
    assert!(matches!(
        connection.run(&config, RunEvent::Read(Err(ConnectionError::PeerClosed))),
        RunAction::Close(Err(ConnectionError::PeerClosed))
    ));
}

#[test]
fn oversized_request_is_answered_before_closing() {
    let config = Config::default();
    let connection = Connection::new(&config, remote(1000));

    match connection.run(
        &config,
        RunEvent::Read(Err(ConnectionError::RequestBufferFull)),
    ) {
        RunAction::WriteResponse { response, last, .. } => {
            assert_eq!(
                response,
                Response::Failure(FailureResponse::new(
                    "Request too large: HTTP request headers exceed the request buffer"
                ))
            );
            assert!(last);
        }
        other => panic!("unexpected action: {other:?}"),
    }
}

#[test]
fn keep_alive_decides_what_follows_a_response() {
    let mut config = Config::default();
    let connection = Connection::new(&config, remote(1000));
    let peer_addr = CanonicalSocketAddr::new(remote(1000));

    assert!(matches!(
        connection.run(
            &config,
            RunEvent::Handled {
                result: Ok(Response::Announce(announce_answer())),
                peer_addr,
            }
        ),
        RunAction::WriteResponse {
            response: Response::Announce(_),
            opt_peer_addr: Some(_),
            last: false,
        }
    ));
    assert!(matches!(
        connection.run(
            &config,
            RunEvent::Handled {
                result: Err(ConnectionError::ResponseSenderClosed),
                peer_addr,
            }
        ),
        RunAction::Close(Err(ConnectionError::ResponseSenderClosed))
    ));
    assert!(matches!(
        connection.run(
            &config,
            RunEvent::Written {
                result: Ok(()),
                last: false
            }
        ),
        RunAction::ReadRequest
    ));

    config.network.keep_alive = false;

    assert!(matches!(
        connection.run(
            &config,
            RunEvent::Written {
                result: Ok(()),
                last: false
            }
        ),
        RunAction::Close(Ok(()))
    ));
}

#[test]
fn static_index_is_served_without_an_address() {
    let mut config = Config::default();

    config.network.runs_behind_reverse_proxy = true;

    let connection = Connection::new(&config, remote(1000));
    let index = ReceivedRequest {
        request: HttpRequest::StaticIndex,
        method: HttpMethod::Head,
        opt_peer_addr: None,
    };
    let nameless = ReceivedRequest {
        request: HttpRequest::Tracker(Request::Announce(announce([0; 20]))),
        method: HttpMethod::Get,
        opt_peer_addr: None,
    };

    assert!(matches!(
        connection.run(&config, RunEvent::Read(Ok(index))),
        RunAction::ServeStaticIndex {
            method: HttpMethod::Head
        }
    ));
    match connection.run(&config, RunEvent::Read(Ok(nameless))) {
        RunAction::Close(Err(ConnectionError::Other(chain))) => {
            assert_eq!(chain, ErrorChain::new("Could not extract peer addr"))
        }
        other => panic!("unexpected action: {other:?}"),
    }
}

#[test]
fn access_list_decides_on_announces() {
    let mut config = Config::default();
    let mut list = AccessList::default();

    config.swarm_workers = 3;
    list.insert_from_line("aaaaaaaaaaaaaaaaaaaaaaaaaaaaaaaaaaaaaaaa")
        .unwrap();

    for (mode, listed, served) in [
        (AccessListMode::Off, true, true),
        (AccessListMode::Off, false, true),
        (AccessListMode::Allow, true, true),
        (AccessListMode::Allow, false, false),
        (AccessListMode::Deny, true, false),
        (AccessListMode::Deny, false, true),
    ] {
        config.access_list.mode = mode;

        let byte = if listed { 0xaa } else { 0xbb };

        match handle_request(&config, &list, Request::Announce(announce([byte; 20]))) {
            RequestPlan::Announce {
                consumer_index,
                request,
            } => {
                assert!(served);
                assert_eq!(consumer_index, byte as usize % 3);
                assert_eq!(request, announce([byte; 20]));
            }
            RequestPlan::Respond(response) => {
                assert!(!served);
                assert_eq!(
                    response,
                    Response::Failure(FailureResponse::new("Info hash not allowed"))
                );
            }
            other => panic!("unexpected plan: {other:?}"),
        }
    }
}

#[test]
fn only_requests_that_are_passed_on_need_a_worker() {
    let mut config = Config::default();
    let list = AccessList::default();
    let scrape = |info_hashes| Request::Scrape(ScrapeRequest { info_hashes });

    config.swarm_workers = 0;
    config.access_list.mode = AccessListMode::Allow;

    match handle_request(&config, &list, Request::Announce(announce([1; 20]))) {
        RequestPlan::Respond(response) => assert_eq!(
            response,
            Response::Failure(FailureResponse::new("Info hash not allowed"))
        ),
        other => panic!("unexpected plan: {other:?}"),
    }
    match checked_handle_request(&config, &list, scrape(vec![])) {
        Some(RequestPlan::Scrape { parts }) => assert!(parts.is_empty()),
        other => panic!("unexpected plan: {other:?}"),
    }
    assert!(checked_handle_request(&config, &list, Request::Announce(announce([1; 20]))).is_some());
    assert!(checked_handle_request(&config, &list, scrape(vec![InfoHash([1; 20])])).is_none());

    config.access_list.mode = AccessListMode::Off;

    assert!(checked_handle_request(&config, &list, Request::Announce(announce([1; 20]))).is_none());

    config.swarm_workers = 1;

    assert!(checked_handle_request(&config, &list, Request::Announce(announce([1; 20]))).is_some());
    assert!(checked_handle_request(&config, &list, scrape(vec![InfoHash([1; 20])])).is_some());
}

#[test]
fn scrape_request_is_divided() {
    let mut config = Config::default();

    config.swarm_workers = 4;

    let request = Request::Scrape(ScrapeRequest {
        info_hashes: vec![
            InfoHash([7; 20]),
            InfoHash([1; 20]),
            InfoHash([3; 20]),
            InfoHash([5; 20]),
        ],
    });

    match handle_request(&config, &AccessList::default(), request) {
        RequestPlan::Scrape { parts } => {
            assert_eq!(parts.len(), 2);
            assert_eq!(parts[0].consumer_index, 1);
            assert_eq!(
                parts[0].request.info_hashes,
                vec![InfoHash([1; 20]), InfoHash([5; 20])]
            );
            assert_eq!(parts[1].consumer_index, 3);
            assert_eq!(
                parts[1].request.info_hashes,
                vec![InfoHash([7; 20]), InfoHash([3; 20])]
            );
        }
        other => panic!("unexpected plan: {other:?}"),
    }
}

#[test]
fn announce_answers_are_passed_on() {
    let request_id = RequestId(1);

    assert_eq!(
        announce_response(Some(ChannelResponse::Announce {
            request_id,
            response: announce_answer(),
        }))
        .unwrap(),
        Response::Announce(announce_answer())
    );
    assert_eq!(
        announce_response(Some(ChannelResponse::Scrape {
            request_id,
            response: ScrapeResponse {
                files: ScrapeFiles::new()
            },
        }))
        .unwrap_err(),
        ConnectionError::UnexpectedInternalResponse
    );
    assert_eq!(
        announce_response(None).unwrap_err(),
        ConnectionError::ResponseSenderClosed
    );
}

#[test]
fn words_for_counting() {
    assert_eq!(
        response_type(&Response::Announce(announce_answer())),
        "announce"
    );
    assert_eq!(
        response_type(&Response::Scrape(ScrapeResponse {
            files: ScrapeFiles::new()
        })),
        "scrape"
    );
    assert_eq!(
        response_type(&Response::Failure(FailureResponse::new("x"))),
        "error"
    );
    assert_eq!(
        peer_addr_to_ip_version_str(&CanonicalSocketAddr::new(remote(1))),
        "4"
    );
    assert_eq!(
        peer_addr_to_ip_version_str(&CanonicalSocketAddr::new(SocketAddr::new(
            IpAddr::V6([1, 0, 0, 0, 0, 0, 0, 1]),
            1
        ))),
        "6"
    );
}

#[test]
fn closes_are_logged_by_their_cause() {
    assert_eq!(close_log_level(&Ok(())), None);
    for (err, level) in [
        (ConnectionError::ResponseBufferFull, LogLevel::Error),
        (
            ConnectionError::ResponseBufferWrite("x".to_string()),
            LogLevel::Error,
        ),
        (ConnectionError::ResponseReceiverClosed, LogLevel::Error),
        (ConnectionError::InternalResponseTimeout, LogLevel::Error),
        (ConnectionError::UnexpectedInternalResponse, LogLevel::Error),
        (ConnectionError::RequestBufferFull, LogLevel::Info),
        (ConnectionError::RequestReadTimeout, LogLevel::Info),
        (ConnectionError::PeerClosed, LogLevel::Debug),
        (ConnectionError::Inactive, LogLevel::Debug),
    ] {
        assert_eq!(close_log_level(&Err(err)), Some(level));
    }
}

#[test]
fn validity_ends_at_its_second() {
    assert_eq!(ValidUntil::new(None, 5), None);

    let valid_until = ValidUntil::new(Some(10), 5).unwrap();

    assert!(valid_until.valid(14));
    assert!(!valid_until.valid(15));
}
