use aquatic_http::common::{ChannelResponse, RequestId};
use aquatic_http::config::Config;
use aquatic_http::connection::ConnectionError;
use aquatic_http::files::{ScrapeFiles, ScrapeStatistics};
use aquatic_http::protocol::{InfoHash, ScrapeRequest};
use aquatic_http::response::{
    write_response_to_buffer, AnnounceResponse, FailureResponse, Response, ResponsePeerV4,
    ResponsePeerV6, ScrapeResponse,
};
use aquatic_http::scrape::{
    calculate_request_consumer_index, divide_scrape_request, PendingScrapeResponse, ScrapeEvent,
};

fn statistics(complete: usize) -> ScrapeStatistics {
    ScrapeStatistics {
        complete,
        incomplete: 2,
        downloaded: 9,
    }
}

fn files(entries: &[(u8, usize)]) -> ScrapeFiles {
    let mut files = ScrapeFiles::new();
    for (byte, complete) in entries {
        files.insert(InfoHash([*byte; 20]), statistics(*complete));
    }
    files
}

fn answer(entries: &[(u8, usize)]) -> ScrapeEvent {
    ScrapeEvent::Received(ChannelResponse::Scrape {
        request_id: RequestId(0),
        response: ScrapeResponse {
            files: files(entries),
        },
    })
}

#[test]
fn failure_is_written_with_its_length() {
    let mut buffer = b"left over".to_vec();
    let response = Response::Failure(FailureResponse::new("no \u{e9}"));

    let written = write_response_to_buffer(&mut buffer, &response).unwrap();

    assert_eq!(written, buffer.len());
    assert_eq!(
        buffer,
        "HTTP/1.1 200 OK\r\nContent-Length: 28      \r\n\r\nd14:failure reason5:no \u{e9}e\r\n"
            .as_bytes()
    );
}

#[test]
fn announce_is_written_in_compact_form() {
    let mut buffer = Vec::new();
    let response = Response::Announce(AnnounceResponse {
        announce_interval: 120,
        complete: 10,
        incomplete: 0,
        peers: vec![ResponsePeerV4 {
            octets: [1, 2, 3, 4],
            port: 0x4142,
        }],
        peers6: vec![ResponsePeerV6 {
            octets: [b'x'; 16],
            port: 0x4344,
        }],
        warning_message: Some("careful".to_string()),
    });

    assert!(response.write_bytes(&mut buffer).is_ok());
    assert_eq!(
        buffer,
        b"d8:completei10e10:incompletei0e8:intervali120e5:peers6:\x01\x02\x03\x04AB6:peers618:xxxxxxxxxxxxxxxxCD15:warning message7:carefule"
    );
}

#[test]
fn announce_without_peers_and_warning_is_written() {
    let mut buffer = b"before ".to_vec();
    let response = Response::Announce(AnnounceResponse {
        announce_interval: 1,
        complete: 2,
        incomplete: 3,
        peers: vec![],
        peers6: vec![],
        warning_message: None,
    });

    assert_eq!(response.write_bytes(&mut buffer), Ok(63));
    assert_eq!(
        buffer,
        b"before d8:completei2e10:incompletei3e8:intervali1e5:peers0:6:peers60:e"
    );
}

#[test]
fn scrape_is_written_in_the_order_of_its_torrents() {
    let mut buffer = Vec::new();
    let response = Response::Scrape(ScrapeResponse {
        files: files(&[(b'b', 5), (b'a', 1), (b'b', 7)]),
    });

    assert!(response.write_bytes(&mut buffer).is_ok());
    assert_eq!(
        buffer,
        b"d5:filesd20:aaaaaaaaaaaaaaaaaaaad8:completei1e10:downloadedi0e10:incompletei2ee20:bbbbbbbbbbbbbbbbbbbbd8:completei7e10:downloadedi0e10:incompletei2eeee"
    );
}

#[test]
fn content_wider_than_its_field_is_refused() {
    let mut buffer = Vec::new();
    let reason = "a".repeat(100_000_000);

    assert_eq!(
        write_response_to_buffer(&mut buffer, &Response::Failure(FailureResponse::new(&reason))),
        Err(ConnectionError::ResponseBufferFull)
    );

    // The widest content: eight nines, of which 30 bytes are not the reason.
    let reason = "a".repeat(99_999_999 - 30);

    assert_eq!(
        write_response_to_buffer(&mut buffer, &Response::Failure(FailureResponse::new(&reason))),
        Ok(45 + 99_999_999)
    );
    assert!(buffer.starts_with(b"HTTP/1.1 200 OK\r\nContent-Length: 99999999\r\n\r\n"));
}

#[test]
fn entries_are_kept_in_order() {
    let files = files(&[(3, 30), (1, 10), (2, 20), (1, 11)]);

    assert_eq!(files.len(), 3);
    assert_eq!(files.get(0), (InfoHash([1; 20]), statistics(11)));
    assert_eq!(files.get(1), (InfoHash([2; 20]), statistics(20)));
    assert_eq!(files.get(2), (InfoHash([3; 20]), statistics(30)));
    assert_eq!(files.entries().len(), 3);
}

#[test]
fn entries_are_ordered_by_their_first_difference() {
    let mut low = [5; 20];
    let mut high = [5; 20];
    low[18] = 1;
    low[19] = 255;
    high[18] = 2;
    high[19] = 0;

    let mut files = ScrapeFiles::new();
    files.insert(InfoHash(high), statistics(2));
    files.insert(InfoHash(low), statistics(1));

    assert_eq!(files.get(0).0, InfoHash(low));
    assert_eq!(files.get(1).0, InfoHash(high));
}

#[test]
fn consumer_index_is_the_first_byte_modulo_the_workers() {
    let mut config = Config::default();
    let mut hash = [0xff; 20];

    for (workers, first, expected) in [(1, 200, 0), (3, 200, 2), (256, 255, 255), (1000, 7, 7)] {
        config.swarm_workers = workers;
        hash[0] = first;

        assert_eq!(
            calculate_request_consumer_index(&config, InfoHash(hash)),
            expected
        );
    }
}

#[test]
fn each_torrent_is_asked_for_once() {
    let mut config = Config::default();
    let request = ScrapeRequest {
        info_hashes: (0..=255u8).map(|byte| InfoHash([byte; 20])).collect(),
    };

    for workers in [1, 2, 7, 256, 400] {
        config.swarm_workers = workers;

        let parts = divide_scrape_request(&config, &request);
        let mut asked: Vec<u8> = Vec::new();

        assert_eq!(parts.len(), workers.min(256));
        for (index, part) in parts.iter().enumerate() {
            assert_eq!(part.consumer_index, index);
            for hash in &part.request.info_hashes {
                assert_eq!(hash.0[0] as usize % workers, index);
                asked.push(hash.0[0]);
            }
        }
        asked.sort();
        assert_eq!(asked, (0..=255u8).collect::<Vec<u8>>());
    }
    config.swarm_workers = 0;
    assert!(divide_scrape_request(
        &config,
        &ScrapeRequest {
            info_hashes: vec![]
        }
    )
    .is_empty());
}

#[test]
fn answers_are_put_together_in_any_order() {
    let mut one = PendingScrapeResponse::new(2);
    let mut other = PendingScrapeResponse::new(2);

    assert_eq!(one.receive(answer(&[(1, 1), (4, 4)])).unwrap(), None);
    assert_eq!(other.receive(answer(&[(2, 2)])).unwrap(), None);

    let whole = one.receive(answer(&[(2, 2)])).unwrap();

    assert_eq!(
        whole,
        Some(Response::Scrape(ScrapeResponse {
            files: files(&[(1, 1), (2, 2), (4, 4)]),
        }))
    );
    assert_eq!(other.receive(answer(&[(1, 1), (4, 4)])).unwrap(), whole);
}

#[test]
fn missing_answers_are_errors() {
    let mut pending = PendingScrapeResponse::new(1);

    assert_eq!(
        pending.receive(ScrapeEvent::StreamEnded).unwrap_err(),
        ConnectionError::ScrapeChannelError(
            "stream ended before all partial scrape responses received"
        )
    );
    assert_eq!(
        pending.receive(ScrapeEvent::SenderClosed).unwrap_err(),
        ConnectionError::ScrapeChannelError("sender is closed")
    );
    assert_eq!(
        pending
            .receive(ScrapeEvent::Received(ChannelResponse::Announce {
                request_id: RequestId(0),
                response: AnnounceResponse {
                    announce_interval: 0,
                    complete: 0,
                    incomplete: 0,
                    peers: vec![],
                    peers6: vec![],
                    warning_message: None,
                },
            }))
            .unwrap_err(),
        ConnectionError::UnexpectedInternalResponse
    );
}
