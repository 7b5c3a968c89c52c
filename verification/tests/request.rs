use aquatic_http::address::IpAddr;
use aquatic_http::config::{Config, ReverseProxyPeerIpHeaderFormat};
use aquatic_http::error::ErrorChain;
use aquatic_http::http::{HttpHead, HttpHeader};
use aquatic_http::protocol::{AnnounceRequest, InfoHash, PeerId, Request, ScrapeRequest};
use aquatic_http::request::{
    configured_header_names, configured_single_header_name, finish_tracker_request,
    parse_forwarded_header, parse_forwarded_header_value, parse_named_forwarded_header,
    parse_request, parse_request_head, HttpMethod, HttpRequest, RequestParseError,
};

const REQUEST_START: &str = "GET /announce?info_hash=%04%0bkV%3f%5cr%14%a6%b7%98%adC%c3%c9.%40%24%00%b9&peer_id=-ABC940-5ert69muw5t8&port=12345&uploaded=1&downloaded=2&left=3&numwant=0&key=4ab4b877&compact=1&supportcrypto=1&event=started HTTP/1.1\r\nHost: example.com\r\n";

const LAST_ADDRESS: ReverseProxyPeerIpHeaderFormat = ReverseProxyPeerIpHeaderFormat::LastAddress;

fn header(name: &str, value: &[u8]) -> HttpHeader {
    HttpHeader {
        name: name.to_string(),
        value: value.to_vec(),
    }
}

#[test]
fn test_parse_peer_ip_header_multiple() {
    let mut config = Config::default();

    config.network.runs_behind_reverse_proxy = true;
    config.network.reverse_proxy_ip_header_name = "X-Forwarded-For".into();
    config.network.reverse_proxy_ip_header_format = ReverseProxyPeerIpHeaderFormat::LastAddress;

    let mut request = REQUEST_START.to_string();

    request.push_str("X-Forwarded-For: 200.0.0.1\r\n");
    request.push_str("X-Forwarded-For: 1.2.3.4, 5.6.7.8,9.10.11.12\r\n");
    request.push_str("\r\n");

    let expected_ip = IpAddr::V4([9, 10, 11, 12]);

    assert_eq!(
        parse_request(&config, request.as_bytes())
            .unwrap()
            .opt_peer_ip
            .unwrap(),
        expected_ip
    )
}

#[test]
fn test_parse_peer_ip_header_single() {
    let mut config = Config::default();

    config.network.runs_behind_reverse_proxy = true;
    config.network.reverse_proxy_ip_header_name = "X-Forwarded-For".into();
    config.network.reverse_proxy_ip_header_format = ReverseProxyPeerIpHeaderFormat::LastAddress;

    let mut request = REQUEST_START.to_string();

    request.push_str("X-Forwarded-For: 1.2.3.4, 5.6.7.8,9.10.11.12\r\n");
    request.push_str("X-Forwarded-For: 200.0.0.1\r\n");
    request.push_str("\r\n");

    let expected_ip = IpAddr::V4([200, 0, 0, 1]);

    assert_eq!(
        parse_request(&config, request.as_bytes())
            .unwrap()
            .opt_peer_ip
            .unwrap(),
        expected_ip
    )
}

#[test]
fn test_parse_peer_ip_header_fallback_name() {
    let mut config = Config::default();

    config.network.runs_behind_reverse_proxy = true;
    config.network.reverse_proxy_ip_header_name = "X-Forwarded-For, CF-Connecting-IP".into();
    config.network.reverse_proxy_ip_header_format = ReverseProxyPeerIpHeaderFormat::LastAddress;

    let mut request = REQUEST_START.to_string();

    request.push_str("CF-Connecting-IP: 203.0.113.7\r\n");
    request.push_str("\r\n");

    let expected_ip = IpAddr::V4([203, 0, 113, 7]);

    assert_eq!(
        parse_request(&config, request.as_bytes())
            .unwrap()
            .opt_peer_ip
            .unwrap(),
        expected_ip
    )
}

#[test]
fn test_parse_peer_ip_header_does_not_fallback_after_invalid_present_header() {
    let mut config = Config::default();

    config.network.runs_behind_reverse_proxy = true;
    config.network.reverse_proxy_ip_header_name = "X-Forwarded-For, CF-Connecting-IP".into();
    config.network.reverse_proxy_ip_header_format = ReverseProxyPeerIpHeaderFormat::LastAddress;

    let mut request = REQUEST_START.to_string();

    request.push_str("X-Forwarded-For: not-an-ip\r\n");
    request.push_str("CF-Connecting-IP: 203.0.113.7\r\n");
    request.push_str("\r\n");

    let res = parse_request(&config, request.as_bytes());

    assert!(matches!(
        res,
        Err(RequestParseError::RequiredPeerIpHeaderMissing(_))
    ));
}

#[test]
fn test_parse_peer_ip_header_case_insensitive_name() {
    let mut config = Config::default();

    config.network.runs_behind_reverse_proxy = true;
    config.network.reverse_proxy_ip_header_name = "X-Forwarded-For".into();
    config.network.reverse_proxy_ip_header_format = ReverseProxyPeerIpHeaderFormat::LastAddress;

    let mut request = REQUEST_START.to_string();

    request.push_str("x-forwarded-for: 198.51.100.9\r\n");
    request.push_str("\r\n");

    let expected_ip = IpAddr::V4([198, 51, 100, 9]);

    assert_eq!(
        parse_request(&config, request.as_bytes())
            .unwrap()
            .opt_peer_ip
            .unwrap(),
        expected_ip
    )
}

#[test]
fn test_parse_peer_ip_header_no_header() {
    let mut config = Config::default();

    config.network.runs_behind_reverse_proxy = true;

    let mut request = REQUEST_START.to_string();

    request.push_str("\r\n");

    let res = parse_request(&config, request.as_bytes());

    assert!(matches!(
        res,
        Err(RequestParseError::RequiredPeerIpHeaderMissing(_))
    ));
}

#[test]
fn test_parse_invalid_complete_request() {
    let config = Config::default();
    let res = parse_request(
        &config,
        b"GET /health HTTP/1.1\r\nHost: example.com\r\n\r\n",
    );

    assert!(matches!(res, Err(RequestParseError::InvalidRequest(_))));
}

#[test]
fn test_parse_static_index_request() {
    let config = Config::default();

    for path in ["/", "/index.html"] {
        let request = format!("GET {path} HTTP/1.1\r\nHost: example.com\r\n\r\n");
        let parsed = parse_request(&config, request.as_bytes()).unwrap();

        assert_eq!(parsed.request, HttpRequest::StaticIndex);
        assert_eq!(parsed.method, HttpMethod::Get);
        assert!(parsed.opt_peer_ip.is_none());
    }

    let mut request = String::from("GET / HTTP/1.1\r\n");

    for index in 0..32 {
        request.push_str(&format!("X-Test-{index}: value\r\n"));
    }

    request.push_str("\r\n");

    let parsed = parse_request(&config, request.as_bytes()).unwrap();

    assert_eq!(parsed.request, HttpRequest::StaticIndex);
    assert!(parsed.opt_peer_ip.is_none());
}

#[test]
fn test_parse_head_method_is_accepted() {
    let config = Config::default();
    let request = "HEAD / HTTP/1.1\r\nHost: example.com\r\n\r\n";

    let parsed = parse_request(&config, request.as_bytes()).unwrap();

    assert_eq!(parsed.request, HttpRequest::StaticIndex);
    assert_eq!(parsed.method, HttpMethod::Head);
}

#[test]
fn test_parse_unsupported_method_is_rejected() {
    let config = Config::default();

    for method in ["POST", "PUT", "DELETE", "OPTIONS", "get"] {
        let request = format!("{method} / HTTP/1.1\r\nHost: example.com\r\n\r\n");
        let res = parse_request(&config, request.as_bytes());

        assert!(
            matches!(res, Err(RequestParseError::MethodNotAllowed)),
            "{method} should be rejected"
        );
    }
}

#[test]
fn test_parse_reports_consumed_length_and_leaves_pipelined_request() {
    let config = Config::default();

    let first = "GET / HTTP/1.1\r\nHost: example.com\r\n\r\n";
    let second = "GET /index.html HTTP/1.1\r\nHost: example.com\r\n\r\n";
    let combined = format!("{first}{second}");

    let parsed = parse_request(&config, combined.as_bytes()).unwrap();

    assert_eq!(parsed.request, HttpRequest::StaticIndex);
    // Only the first request must be consumed, leaving the second intact.
    assert_eq!(parsed.consumed, first.len());
    assert_eq!(&combined.as_bytes()[parsed.consumed..], second.as_bytes());
}

#[test]
fn what_follows_a_request_does_not_change_how_it_is_read() {
    let mut config = Config::default();
    config.network.runs_behind_reverse_proxy = true;

    let request = format!("{REQUEST_START}X-Forwarded-For: 1.2.3.4\t\r\n\r\n");
    let alone = parse_request(&config, request.as_bytes()).unwrap();

    assert_eq!(alone.consumed, request.len());
    assert_eq!(alone.opt_peer_ip, Some(IpAddr::V4([1, 2, 3, 4])));

    for length in 0..request.len() {
        assert_eq!(
            parse_request(&config, &request.as_bytes()[..length]),
            Err(RequestParseError::MoreDataNeeded)
        );
    }

    for byte in [b' ', b'\r', b'\n', b'\t', b':', b'G', 0, 0x7f, 0xff] {
        for length in 1..70 {
            let mut bytes = request.clone().into_bytes();
            bytes.resize(request.len() + length, byte);

            assert_eq!(parse_request(&config, &bytes), Ok(alone.clone()));
        }
    }
}

#[test]
fn reasons_for_reading_no_request_have_texts() {
    let chain = ErrorChain::new("cause");

    assert_eq!(
        RequestParseError::RequiredPeerIpHeaderMissing(chain.clone()).report(),
        "required peer ip header missing or invalid"
    );
    assert_eq!(
        RequestParseError::InvalidRequest(chain).report(),
        "invalid request"
    );
    assert_eq!(
        RequestParseError::MethodNotAllowed.report(),
        "method not allowed"
    );
    assert_eq!(
        RequestParseError::MoreDataNeeded.report(),
        "more data needed"
    );
}

#[test]
fn announce_request_is_read_in_full() {
    let config = Config::default();
    let request = format!("{REQUEST_START}\r\n");

    let parsed = parse_request(&config, request.as_bytes()).unwrap();

    assert_eq!(parsed.consumed, request.len());
    assert_eq!(parsed.method, HttpMethod::Get);
    assert_eq!(parsed.opt_peer_ip, None);
    assert_eq!(
        parsed.request,
        HttpRequest::Tracker(Request::Announce(AnnounceRequest {
            info_hash: InfoHash([
                0x04, 0x0b, b'k', b'V', 0x3f, 0x5c, b'r', 0x14, 0xa6, 0xb7, 0x98, 0xad, b'C', 0xc3,
                0xc9, b'.', 0x40, 0x24, 0x00, 0xb9,
            ]),
            peer_id: PeerId(*b"-ABC940-5ert69muw5t8"),
            port: 12345,
            bytes_uploaded: 1,
            bytes_downloaded: 2,
            bytes_left: 3,
            event: Some("started".to_string()),
            numwant: Some(0),
            key: Some("4ab4b877".to_string()),
        }))
    );
}

#[test]
fn scrape_request_keeps_the_order_of_its_torrents() {
    let config = Config::default();
    let request = b"GET /scrape?info_hash=aaaaaaaaaaaaaaaaaaaa&info_hash=bbbbbbbbbbbbbbbbbbbb HTTP/1.1\r\n\r\n";

    let parsed = parse_request(&config, request).unwrap();

    assert_eq!(
        parsed.request,
        HttpRequest::Tracker(Request::Scrape(ScrapeRequest {
            info_hashes: vec![InfoHash([b'a'; 20]), InfoHash([b'b'; 20])],
        }))
    );
}

#[test]
fn incomplete_request_needs_more_data() {
    let config = Config::default();

    for bytes in [
        &b"G"[..],
        &b"GET / HTTP/1.1\r\n"[..],
        &b"GET / HTTP/1.1\r\nHost: example.com\r\n"[..],
    ] {
        assert_eq!(
            parse_request(&config, bytes),
            Err(RequestParseError::MoreDataNeeded)
        );
    }
}

#[test]
fn malformed_head_is_an_invalid_request() {
    let config = Config::default();

    match parse_request(&config, b"GET / HTTP/9.9\r\n\r\n") {
        Err(RequestParseError::InvalidRequest(chain)) => {
            assert_eq!(chain.summary(), "httparse");
            assert_eq!(chain.report(), "httparse: invalid HTTP version");
        }
        other => panic!("unexpected outcome: {other:?}"),
    }
}

#[test]
fn more_than_thirty_two_headers_are_too_many() {
    let config = Config::default();
    let mut request = String::from("GET / HTTP/1.1\r\n");

    for index in 0..33 {
        request.push_str(&format!("X-Test-{index}: value\r\n"));
    }

    request.push_str("\r\n");

    match parse_request(&config, request.as_bytes()) {
        Err(RequestParseError::InvalidRequest(chain)) => {
            assert_eq!(chain.report(), "httparse: too many headers");
        }
        other => panic!("unexpected outcome: {other:?}"),
    }
}

#[test]
fn refused_path_gives_the_messages_of_its_error() {
    let config = Config::default();

    match parse_request(&config, b"GET /health HTTP/1.1\r\n\r\n") {
        Err(RequestParseError::InvalidRequest(chain)) => {
            assert_eq!(chain, ErrorChain::new("no query string"));
        }
        other => panic!("unexpected outcome: {other:?}"),
    }
    match parse_request(&config, b"GET /health?a=b HTTP/1.1\r\n\r\n") {
        Err(RequestParseError::InvalidRequest(chain)) => {
            assert_eq!(chain, ErrorChain::new("Path must be /announce or /scrape"));
        }
        other => panic!("unexpected outcome: {other:?}"),
    }
}

#[test]
fn head_without_method_or_path_is_refused() {
    let config = Config::default();

    assert_eq!(
        parse_request_head(
            &config,
            Ok(HttpHead::Complete {
                consumed: 1,
                method: None,
                path: Some("/".to_string()),
                headers: vec![],
            })
        ),
        Err(RequestParseError::MethodNotAllowed)
    );
    assert_eq!(
        parse_request_head(
            &config,
            Ok(HttpHead::Complete {
                consumed: 1,
                method: Some("GET".to_string()),
                path: None,
                headers: vec![],
            })
        ),
        Err(RequestParseError::InvalidRequest(ErrorChain::new(
            "no http path"
        )))
    );
    assert_eq!(
        parse_request_head(&config, Ok(HttpHead::Partial)),
        Err(RequestParseError::MoreDataNeeded)
    );
}

#[test]
fn tracker_request_takes_its_address_from_the_header() {
    let mut config = Config::default();
    let scrape = Request::Scrape(ScrapeRequest {
        info_hashes: vec![InfoHash([1; 20])],
    });
    let headers = vec![header("X-Forwarded-For", b"10.0.0.1, 2001:db8::1")];

    let direct =
        finish_tracker_request(&config, HttpMethod::Head, 7, &headers, Ok(scrape.clone())).unwrap();
    assert_eq!(direct.opt_peer_ip, None);
    assert_eq!(direct.consumed, 7);
    assert_eq!(direct.method, HttpMethod::Head);

    config.network.runs_behind_reverse_proxy = true;

    let proxied =
        finish_tracker_request(&config, HttpMethod::Get, 7, &headers, Ok(scrape)).unwrap();
    assert_eq!(
        proxied.opt_peer_ip,
        Some(IpAddr::V6([0x2001, 0xdb8, 0, 0, 0, 0, 0, 1]))
    );
    assert_eq!(
        finish_tracker_request(
            &config,
            HttpMethod::Get,
            7,
            &headers,
            Err(vec!["outer".to_string(), "inner".to_string()])
        ),
        Err(RequestParseError::InvalidRequest(
            ErrorChain::new("inner").context("outer")
        ))
    );
}

#[test]
fn static_index_needs_no_header_behind_a_proxy() {
    let mut config = Config::default();

    config.network.runs_behind_reverse_proxy = true;

    let parsed = parse_request(&config, b"GET / HTTP/1.1\r\n\r\n").unwrap();

    assert_eq!(parsed.request, HttpRequest::StaticIndex);
    assert_eq!(parsed.opt_peer_ip, None);
}

#[test]
fn single_name_is_told_from_a_list() {
    assert_eq!(
        configured_single_header_name(" X-Forwarded-For\u{2003}"),
        Some("X-Forwarded-For")
    );
    assert_eq!(configured_single_header_name(" \t "), None);
    assert_eq!(configured_single_header_name("a,b"), None);
    assert_eq!(configured_single_header_name("a,"), None);
}

#[test]
fn names_are_trimmed_and_empty_ones_left_out() {
    assert_eq!(configured_header_names(" a , b,, c\t,"), vec!["a", "b", "c"]);
    assert_eq!(configured_header_names(" , ,"), Vec::<&str>::new());
    assert_eq!(configured_header_names(" a "), vec!["a"]);
}

#[test]
fn missing_header_is_told_from_missing_name() {
    let headers = vec![header("Host", b"example.com")];

    for names in ["X-Forwarded-For", "X-Forwarded-For, CF-Connecting-IP"] {
        assert_eq!(
            parse_forwarded_header(names, LAST_ADDRESS, &headers),
            Err(ErrorChain::new("header not present"))
        );
    }
    assert_eq!(
        parse_forwarded_header(" , ", LAST_ADDRESS, &headers),
        Err(ErrorChain::new("no header name configured"))
    );
}

#[test]
fn last_header_of_a_name_is_taken() {
    let headers = vec![
        header("x-real-ip", b"1.1.1.1"),
        header("X-REAL-IP", b"2.2.2.2"),
        header("Other", b"3.3.3.3"),
    ];

    assert_eq!(
        parse_named_forwarded_header("X-Real-Ip", LAST_ADDRESS, &headers),
        Ok(Some(IpAddr::V4([2, 2, 2, 2])))
    );
    assert_eq!(
        parse_named_forwarded_header("Missing", LAST_ADDRESS, &headers),
        Ok(None)
    );
}

#[test]
fn first_present_name_decides() {
    let headers = vec![header("B", b"2.2.2.2"), header("C", b"3.3.3.3")];

    assert_eq!(
        parse_forwarded_header("A, B, C", LAST_ADDRESS, &headers),
        Ok(IpAddr::V4([2, 2, 2, 2]))
    );
}

#[test]
fn header_value_errors_say_what_is_wrong() {
    let err = parse_forwarded_header_value("X-Ip", LAST_ADDRESS, b"1.2.3.4, nonsense").unwrap_err();

    assert_eq!(
        err.report(),
        "parse X-Ip header IP: invalid IP address syntax"
    );

    let err = parse_forwarded_header_value("X-Ip", LAST_ADDRESS, b"1.2.3.4\xff").unwrap_err();

    assert_eq!(
        err,
        ErrorChain::new("invalid utf-8 sequence of 1 bytes from index 7")
    );
}
