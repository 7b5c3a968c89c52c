use aquatic_http::address::{parse_ip, CanonicalSocketAddr, IpAddr, SocketAddr};
use aquatic_http::common::{ChannelRequest, ChannelResponse, ConsumerId, RequestId, ValidUntil};
use aquatic_http::config::Config;
use aquatic_http::error::ErrorChain;
use aquatic_http::files::ScrapeFiles;
use aquatic_http::protocol::{AnnounceRequest, InfoHash, PeerId, ScrapeRequest};
use aquatic_http::registry::{PendingResponseRegistry, SocketWorkerState};
use aquatic_http::response::ScrapeResponse;
use aquatic_http::table::{Cleaning, ConnectionTable};
use aquatic_http::text::{
    contains_char, eq_ignore_ascii_case, same_text, split, trim, white_space,
};
use aquatic_http::worker::{listener_options, plan_listeners};

#[test]
fn pending_response_guard_unregisters_on_drop() {
    let mut registry = PendingResponseRegistry::new();
    let guard = registry.register("sender");
    let request_id = guard.request_id();

    assert!(registry.sender(request_id).is_some());

    guard.unregister(&mut registry);
    drop(guard);

    assert!(registry.sender(request_id).is_none());
}

#[test]
fn request_ids_increment_per_socket_worker() {
    let mut registry = PendingResponseRegistry::<()>::new();

    assert_eq!(registry.next_request_id(), RequestId(0));
    assert_eq!(registry.next_request_id(), RequestId(1));
}

#[test]
fn socket_worker_state_keeps_response_consumer_id_separate() {
    let response_consumer_id = ConsumerId(0);
    let worker_index = response_consumer_id.0 + 1;
    let state = SocketWorkerState::<()>::new(worker_index, response_consumer_id);

    assert_eq!(state.worker_index(), worker_index);
    assert_eq!(state.response_consumer_id(), response_consumer_id);
}

#[test]
fn responses_reach_the_request_they_answer() {
    let mut state = SocketWorkerState::new(0, ConsumerId(5));
    let first = state.register_pending_response("first");
    let second = state.register_pending_response("second");
    let response = |request_id| ChannelResponse::Scrape {
        request_id,
        response: ScrapeResponse {
            files: ScrapeFiles::new(),
        },
    };

    assert_eq!(
        state.registry.route(&response(second.request_id())),
        Some(&"second")
    );
    assert_eq!(
        state.registry.route(&response(first.request_id())),
        Some(&"first")
    );

    first.unregister(&mut state.registry);

    assert_eq!(state.registry.route(&response(first.request_id())), None);
    assert_eq!(
        state.registry.route(&response(second.request_id())),
        Some(&"second")
    );
}

#[test]
fn request_is_reached_until_it_is_unregistered() {
    let mut registry = PendingResponseRegistry::new();
    let response = |request_id| ChannelResponse::Scrape {
        request_id,
        response: ScrapeResponse {
            files: ScrapeFiles::new(),
        },
    };

    let first = registry.register("first");
    let second = registry.register("second");
    registry.next_request_id();
    let third = registry.register("third");

    second.unregister(&mut registry);

    let arrivals = [&third, &second, &first, &second, &third];
    let passed_on = arrivals
        .iter()
        .filter_map(|guard| registry.route(&response(guard.request_id())).copied())
        .collect::<Vec<_>>();

    assert_eq!(passed_on, vec!["third", "first", "third"]);

    for _ in 0..100 {
        registry.register("other");
    }

    assert_eq!(registry.route(&response(first.request_id())), Some(&"first"));
    assert_eq!(registry.route(&response(second.request_id())), None);
}

#[test]
fn messages_say_who_waits_for_the_answer() {
    let mut state = SocketWorkerState::new(0, ConsumerId(5));
    let guard = state.register_pending_response(());
    let peer_addr = CanonicalSocketAddr::new(SocketAddr::new(IpAddr::V4([1, 2, 3, 4]), 5));
    let part = ScrapeRequest {
        info_hashes: vec![InfoHash([1; 20])],
    };

    match state.scrape_message(&guard, part.clone(), peer_addr) {
        ChannelRequest::Scrape {
            request_id,
            response_consumer_id,
            request,
            peer_addr: addr,
        } => {
            assert_eq!(request_id, RequestId(0));
            assert_eq!(response_consumer_id, ConsumerId(5));
            assert_eq!(request, part);
            assert_eq!(addr, peer_addr);
        }
        other => panic!("unexpected message: {other:?}"),
    }

    let announce = AnnounceRequest {
        info_hash: InfoHash([2; 20]),
        peer_id: PeerId([b'p'; 20]),
        port: 6881,
        bytes_uploaded: 1,
        bytes_downloaded: 2,
        bytes_left: 3,
        event: None,
        numwant: Some(50),
        key: None,
    };
    let guard = state.register_pending_response(());

    match state.announce_message(&guard, announce.clone(), peer_addr) {
        ChannelRequest::Announce {
            request_id,
            response_consumer_id,
            request,
            peer_addr: addr,
        } => {
            assert_eq!(request_id, RequestId(1));
            assert_eq!(response_consumer_id, ConsumerId(5));
            assert_eq!(request, announce);
            assert_eq!(addr, peer_addr);
        }
        other => panic!("unexpected message: {other:?}"),
    }
}

#[test]
fn idle_connections_are_cleaned() {
    let mut config = Config::default();
    config.cleaning.connection_cleaning_interval = 17;
    let cleaning = |closed| Cleaning {
        closed,
        seconds_until_next: 17,
    };
    let mut table = ConnectionTable::new();
    let early = table.accept(Some(ValidUntil(10))).unwrap();
    let late = table.accept(Some(ValidUntil(20))).unwrap();
    let busy = table.accept(Some(ValidUntil(10))).unwrap();

    assert_eq!(table.accept(None), None);
    assert_eq!(table.len(), 3);
    assert!(table.refresh(busy, Some(ValidUntil(30))));
    assert!(!table.refresh(late, None));
    assert_eq!(table.clean_connections(&config, None), cleaning(vec![]));
    assert_eq!(table.clean_connections(&config, Some(9)), cleaning(vec![]));
    assert_eq!(
        table.clean_connections(&config, Some(10)),
        cleaning(vec![early])
    );
    assert_eq!(table.len(), 2);
    assert_eq!(
        table.clean_connections(&config, Some(25)),
        cleaning(vec![late])
    );

    table.remove(busy);

    assert_eq!(table.len(), 0);
    assert!(table.refresh(busy, Some(ValidUntil(99))));
    assert_eq!(table.len(), 0);
}

#[test]
fn identifiers_of_open_connections_differ() {
    let mut table = ConnectionTable::new();
    let first = table.accept(Some(ValidUntil(1))).unwrap();

    table.remove(first);

    let second = table.accept(Some(ValidUntil(1))).unwrap();

    assert_ne!(first, second);
    table.remove(first);
    assert_eq!(table.len(), 1);
}

#[test]
fn listeners_take_up_one_privilege_dropper_each() {
    let mut config = Config::default();

    let both = plan_listeners(&config, 2);
    assert_eq!(both.error, None);
    assert_eq!(
        both.listeners,
        vec![
            listener_options(&config, config.network.address_ipv4),
            listener_options(&config, config.network.address_ipv6),
        ]
    );
    assert!(!both.listeners[0].only_ipv6);
    assert!(both.listeners[1].only_ipv6);
    assert_eq!(both.listeners[0].backlog, 1024);

    let one = plan_listeners(&config, 1);
    assert_eq!(one.error, Some(ErrorChain::new("no enough priv droppers")));
    assert_eq!(one.listeners.len(), 1);

    let none = plan_listeners(&config, 0);
    assert!(none.error.is_some());
    assert!(none.listeners.is_empty());

    config.network.use_ipv4 = false;
    config.network.set_only_ipv6 = false;

    let ipv6 = plan_listeners(&config, 1);
    assert_eq!(ipv6.error, None);
    assert_eq!(ipv6.listeners[0].address, config.network.address_ipv6);
    assert!(!ipv6.listeners[0].only_ipv6);
}

#[test]
fn ipv4_addresses_are_dotted_decimals() {
    for (text, expected) in [
        ("0.0.0.0", Some([0, 0, 0, 0])),
        ("255.255.255.255", Some([255, 255, 255, 255])),
        ("1.2.3.4", Some([1, 2, 3, 4])),
        ("256.1.1.1", None),
        ("01.1.1.1", None),
        ("00.1.1.1", None),
        ("1.1.1", None),
        ("1.1.1.1.1", None),
        ("1.1.1.", None),
        (" 1.1.1.1", None),
        ("1.1.1.1000", None),
        ("0x1.1.1.1", None),
        ("", None),
        ("1.1.1.1:80", None),
    ] {
        assert_eq!(parse_ip(text), expected.map(IpAddr::V4), "{text}");
    }
}

#[test]
fn ipv6_addresses_are_groups_of_hexadecimals() {
    for (text, expected) in [
        ("::", Some([0, 0, 0, 0, 0, 0, 0, 0])),
        ("::1", Some([0, 0, 0, 0, 0, 0, 0, 1])),
        ("1::", Some([1, 0, 0, 0, 0, 0, 0, 0])),
        ("2001:DB8::a", Some([0x2001, 0xdb8, 0, 0, 0, 0, 0, 0xa])),
        ("1:2:3:4:5:6:7:8", Some([1, 2, 3, 4, 5, 6, 7, 8])),
        ("1:2:3:4:5:6:7::", Some([1, 2, 3, 4, 5, 6, 7, 0])),
        ("::2:3:4:5:6:7:8", Some([0, 2, 3, 4, 5, 6, 7, 8])),
        ("::ffff:1.2.3.4", Some([0, 0, 0, 0, 0, 0xffff, 0x0102, 0x0304])),
        ("1:2:3:4:5:6:1.2.3.4", Some([1, 2, 3, 4, 5, 6, 0x0102, 0x0304])),
        ("0001::", Some([1, 0, 0, 0, 0, 0, 0, 0])),
        ("1:2:3:4:5:6:7:8::", None),
        ("1:2:3:4:5:6:7", None),
        ("1:2:3:4:5:6:7:8:9", None),
        ("1:2:3:4:5:6:7:1.2.3.4", None),
        ("1.2.3.4::", None),
        ("1::2::3", None),
        (":::", None),
        (":1", None),
        ("1:", None),
        ("00001::", None),
        ("g::", None),
        ("::1%1", None),
        ("[::1]", None),
    ] {
        assert_eq!(parse_ip(text), expected.map(IpAddr::V6), "{text}");
    }
}

#[test]
fn mapped_addresses_become_ipv4_addresses() {
    let mapped = SocketAddr::new(parse_ip("::ffff:1.2.3.4").unwrap(), 80);
    let plain = SocketAddr::V4 {
        octets: [1, 2, 3, 4],
        port: 80,
    };
    let other = SocketAddr::V6 {
        groups: [0, 0, 0, 0, 0, 0xfffe, 0x0102, 0x0304],
        port: 80,
        flowinfo: 3,
        scope_id: 4,
    };

    assert_eq!(CanonicalSocketAddr::new(mapped).get(), plain);
    assert_eq!(CanonicalSocketAddr::new(plain).get(), plain);
    assert_eq!(CanonicalSocketAddr::new(other).get(), other);
    assert!(CanonicalSocketAddr::new(mapped).is_ipv4());
    assert!(!CanonicalSocketAddr::new(other).is_ipv4());
}

#[test]
fn white_space_is_that_of_unicode() {
    for c in (0..=0x10ffffu32).filter_map(char::from_u32) {
        assert_eq!(white_space(c), c.is_whitespace(), "{c:?}");
    }
}

#[test]
fn text_is_handled_as_in_std() {
    for text in ["", " ", "a", " a b\u{3000}", "\u{85}\u{e9},\t,", ",", "x,,y"] {
        assert_eq!(trim(text), text.trim());
        assert_eq!(split(text, ','), text.split(',').collect::<Vec<&str>>());
        assert_eq!(contains_char(text, ','), text.contains(','));
        for other in ["A", "\u{c9}", "x,,y", " ", "X,,Y"] {
            assert_eq!(
                eq_ignore_ascii_case(text, other),
                text.eq_ignore_ascii_case(other)
            );
            assert_eq!(same_text(text, other), text == other);
        }
    }
}
