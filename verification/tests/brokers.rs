use caramell::address::{address_payload, zero_address};
use caramell::broker::{
    announcement_topic, broker_for_contract, broker_from_route, broker_topic, endpoint,
    extract_broker, first_broker, handle_publish, is_announcement_readable, is_publish_acceptable,
    search_by_address, select_broker, Broker, BrokerListing, BrokerParseError, PollOutcome,
    MAX_LIST_POLLS,
};

fn addr(last: u8) -> [u8; 20] {
    let mut a = [0u8; 20];
    a[19] = last;
    a
}

fn broker(ip: &str, port: u16, last: u8) -> Broker {
    Broker { ip: ip.to_string(), port, address: addr(last) }
}

#[test]
fn default_broker_is_empty() {
    let b = Broker::default();
    assert_eq!(b.ip, "");
    assert_eq!(b.port, 0);
    assert_eq!(b.address, [0u8; 20]);
}

#[test]
fn extract_broker_reads_announcement() {
    let payload = format!("0x{}", "ab".repeat(20));
    let b = extract_broker(b"srvList/10.0.0.2:1883", payload.as_bytes()).unwrap();
    assert_eq!(b.ip, "10.0.0.2");
    assert_eq!(b.port, 1883);
    assert_eq!(b.address, [0xab; 20]);
    let extra = extract_broker(b"srvList/h:80:rest", payload.as_bytes()).unwrap();
    assert_eq!(extra.ip, "h");
    let bare = extract_broker(b"h2:81", payload.as_bytes()).unwrap();
    assert_eq!(bare.ip, "h2");
    let twice = extract_broker(b"srvList/srvList/h:82", payload.as_bytes()).unwrap();
    assert_eq!(twice.ip, "srvList/h");
    let one = address_payload(&addr(1));
    let low = extract_broker(b"srvList/10.0.0.2:1883", one.as_bytes()).unwrap();
    assert_eq!((low.ip.as_str(), low.port, low.address), ("10.0.0.2", 1883, addr(1)));
    assert_eq!(extra.port, 80);
}

#[test]
fn extract_broker_errors() {
    let payload = format!("0x{}", "ab".repeat(20));
    assert_eq!(extract_broker(&[0xff, b':', b'1'], payload.as_bytes()).err(), Some(BrokerParseError::TopicNotUtf8));
    assert_eq!(extract_broker(b"srvList/h:port", payload.as_bytes()).err(), Some(BrokerParseError::InvalidPort));
    assert_eq!(extract_broker(b"srvList/h:70000", payload.as_bytes()).err(), Some(BrokerParseError::InvalidPort));
    assert_eq!(extract_broker(b"srvList/h:80", &[0xc3]).err(), Some(BrokerParseError::PayloadNotUtf8));
    assert_eq!(extract_broker(b"srvList/h:80", b"0x1234").err(), Some(BrokerParseError::InvalidAddress));
}

#[test]
fn announcement_readability() {
    assert!(is_announcement_readable(b"srvList/h:1"));
    assert!(!is_announcement_readable(b"srvList/noport"));
    assert!(is_announcement_readable(&[0xff]));
    assert!(is_publish_acceptable(b"other/topic", b"anything"));
    assert!(!is_publish_acceptable(b"srvList/noport", b"x"));
    assert!(!is_publish_acceptable(b"srvList/h:1", b"x"));
    let payload = address_payload(&addr(5));
    assert!(is_publish_acceptable(b"srvList/h:1", payload.as_bytes()));
}

#[test]
fn announcement_round_trip() {
    let a = [0x5a; 20];
    let topic = announcement_topic("192.168.1.7", 1883);
    assert_eq!(topic, "srvList/192.168.1.7:1883");
    let payload = address_payload(&a);
    let b = extract_broker(topic.as_bytes(), payload.as_bytes()).unwrap();
    assert_eq!(b.ip, "192.168.1.7");
    assert_eq!(b.port, 1883);
    assert_eq!(b.address, a);
}

#[test]
fn topics_and_routes() {
    assert_eq!(endpoint("1.2.3.4", 80), "1.2.3.4:80");
    assert_eq!(broker_topic(&broker("h", 1883, 1)), "h:1883");
    let b = broker_from_route("10.0.0.1".to_string(), "8080");
    assert_eq!(b.ip, "10.0.0.1");
    assert_eq!(b.port, 8080);
    assert_eq!(b.address, [0u8; 20]);
}

#[test]
fn handle_publish_collects_announcements() {
    let mut list = Vec::new();
    let payload = address_payload(&addr(9));
    handle_publish(b"srvList/h:1", payload.as_bytes(), &mut list);
    assert_eq!(list.len(), 1);
    assert_eq!(list[0].ip, "h");
    assert_eq!(list[0].address, addr(9));
    handle_publish(b"srv/to/me", b"hello", &mut list);
    assert_eq!(list.len(), 1);
}

#[test]
fn search_in_sorted_list() {
    let list = vec![broker("a", 1, 1), broker("b", 2, 3), broker("c", 3, 5), broker("d", 4, 7)];
    for (i, b) in list.iter().enumerate() {
        assert_eq!(search_by_address(&list, &b.address), Some(i));
    }
    assert_eq!(search_by_address(&list, &addr(4)), None);
    assert_eq!(search_by_address(&Vec::new(), &addr(4)), None);
    let found = select_broker(&list, &addr(5));
    assert_eq!(found.ip, "c");
    let missing = select_broker(&list, &addr(6));
    assert_eq!(missing.ip, "");
    assert_eq!(missing.address, zero_address());
    let by_text = broker_for_contract(&list, &address_payload(&addr(7)));
    assert_eq!(by_text.ip, "d");
    assert_eq!(first_broker(&list).ip, "a");
}

#[test]
fn search_finds_the_zero_address() {
    let list = vec![broker("zero", 5, 0), broker("b", 2, 3)];
    let found = select_broker(&list, &zero_address());
    assert_eq!(found.ip, "zero");
    assert_eq!(found.port, 5);
}

#[test]
fn listing_stops_at_timeout() {
    let mut l = BrokerListing::new();
    let payload = address_payload(&addr(2)).into_bytes();
    assert!(l.wants_poll());
    assert_eq!(l.record(PollOutcome::Publish { topic: b"srvList/h:1".to_vec(), payload: payload.clone() }), None);
    assert_eq!(
        l.record(PollOutcome::Publish { topic: b"srvList/h:x".to_vec(), payload: payload.clone() }),
        Some(BrokerParseError::InvalidPort)
    );
    assert_eq!(l.record(PollOutcome::Other), None);
    assert!(l.wants_poll());
    assert_eq!(l.record(PollOutcome::TimedOut), None);
    assert!(!l.wants_poll());
    assert_eq!(l.polls, 4);
    let brokers = l.into_brokers();
    assert_eq!(brokers.len(), 1);
    assert!(brokers.len() as u32 <= MAX_LIST_POLLS);
    assert_eq!(brokers[0].address, addr(2));
}

#[test]
fn listing_stops_after_budget() {
    let mut l = BrokerListing::new();
    let mut n = 0;
    while l.wants_poll() {
        l.record(PollOutcome::Other);
        n += 1;
    }
    assert_eq!(n, MAX_LIST_POLLS);
    assert_eq!(l.polls, 10);
}
