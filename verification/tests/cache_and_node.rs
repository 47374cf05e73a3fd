use caramell::cache::{
    check_mem, check_publish, insert_outcome, is_event_well_formed, is_mem_message,
    is_mem_message_well_formed, memcache_url, serve_action, ErrorBrokerMemcached, MqttEvent,
    ServeAction,
};
use caramell::chain::{
    create_data, data_or_default, needs_new_client, wants_all_data, ContractWatch, Data,
};
use caramell::config::{announcement_of, with_factory_address, Blockchain, Config, Params};
use caramell::server_cache;
use caramell::web::{all_options, index, read_request, Cors};

#[test]
fn mem_message_gives_insertion() {
    let ins = check_mem(b"MEM;user:1;hello world;60").unwrap();
    assert_eq!(ins.key, "user:1");
    assert_eq!(ins.value, "hello world");
    assert_eq!(ins.exp, 60);
    let ins = check_mem("MEMORY;clé;välue;+0;ignored".as_bytes()).unwrap();
    assert_eq!(ins.key, "clé");
    assert_eq!(ins.value, "välue");
    assert_eq!(ins.exp, 0);
    let empty = check_mem(b"MEM;;;4294967295").unwrap();
    assert_eq!(empty.key, "");
    assert_eq!(empty.exp, u32::MAX);
}

#[test]
fn mem_message_with_tail() {
    let msg = format!("{};{};{};{}{}", "MEMSET", "k1", "v 1", 42u32, ";more;fields");
    let ins = check_mem(msg.as_bytes()).unwrap();
    assert_eq!((ins.key.as_str(), ins.value.as_str(), ins.exp), ("k1", "v 1", 42));
    let stored = insert_outcome(ins.key, ins.value, Ok(())).unwrap();
    assert_eq!(stored, "k1:v 1");
}

#[test]
fn other_messages_are_refused() {
    assert!(matches!(check_mem(b"GET;key"), Err(ErrorBrokerMemcached::NotInsertion)));
    assert!(matches!(check_mem(b"ME"), Err(ErrorBrokerMemcached::NotInsertion)));
    assert!(matches!(check_mem(b"mem;k;v;1"), Err(ErrorBrokerMemcached::NotInsertion)));
    assert!(!is_mem_message(b"mem;k;v;1"));
}

#[test]
fn malformed_mem_messages_are_flagged() {
    assert!(is_mem_message_well_formed(b"MEM;k;v;10"));
    assert!(is_mem_message_well_formed(b"hello"));
    assert!(is_mem_message_well_formed(&[0xff, 0xfe]));
    assert!(!is_mem_message_well_formed(b"MEM;k;v"));
    assert!(!is_mem_message_well_formed(b"MEM;k;v;soon"));
    assert!(!is_mem_message_well_formed(b"MEM;k;v;4294967296"));
    assert!(!is_mem_message_well_formed(&[b'M', b'E', b'M', b';', 0xff, b';', b'v', b';', b'1']));
}

#[test]
fn publish_decisions() {
    assert!(matches!(check_publish(MqttEvent::Outgoing), Err(ErrorBrokerMemcached::Outgoing)));
    assert!(matches!(check_publish(MqttEvent::IncomingOther), Err(ErrorBrokerMemcached::NotPublished)));
    let ev = MqttEvent::IncomingPublish { topic: b"t".to_vec(), payload: b"MEM;a;b;5".to_vec() };
    assert!(is_event_well_formed(&ev));
    let ins = check_publish(ev).unwrap();
    assert_eq!((ins.key.as_str(), ins.value.as_str(), ins.exp), ("a", "b", 5));
    let plain = MqttEvent::IncomingPublish { topic: b"t".to_vec(), payload: b"hi".to_vec() };
    assert!(matches!(check_publish(plain), Err(ErrorBrokerMemcached::NotInsertion)));
    let bad = MqttEvent::IncomingPublish { topic: b"t".to_vec(), payload: b"MEM;a".to_vec() };
    assert!(!is_event_well_formed(&bad));
}

#[test]
fn server_handler_answers_other_packets_with_nothing() {
    let ins = server_cache::check_mem(b"MEM;k;v;7").unwrap();
    assert_eq!((ins.key.as_str(), ins.value.as_str(), ins.exp), ("k", "v", 7));
    assert!(server_cache::check_mem(b"PING").is_none());
    assert!(server_cache::check_publish(MqttEvent::Outgoing).is_none());
    assert!(server_cache::check_publish(MqttEvent::IncomingOther).is_none());
    let ev = MqttEvent::IncomingPublish { topic: vec![], payload: b"MEM;x;y;1".to_vec() };
    assert_eq!(server_cache::check_publish(ev).unwrap().key, "x");
}

#[test]
fn insertion_outcomes() {
    let ok = insert_outcome("k".to_string(), "v".to_string(), Ok(())).unwrap();
    assert_eq!(ok, "k:v");
    let err = insert_outcome(
        "k".to_string(),
        "v".to_string(),
        Err(memcache::MemcacheError::BadURL("no host".to_string())),
    );
    assert!(matches!(err, Err(ErrorBrokerMemcached::MemcacheError(memcache::MemcacheError::BadURL(_)))));
}

#[test]
fn serving_decisions() {
    assert!(matches!(serve_action(Ok("k:v".to_string())), ServeAction::Report(s) if s == "k:v"));
    assert!(matches!(serve_action(Err(ErrorBrokerMemcached::NotInsertion)), ServeAction::Skip));
    assert!(matches!(serve_action(Err(ErrorBrokerMemcached::Outgoing)), ServeAction::Skip));
    assert!(matches!(
        serve_action(Err(ErrorBrokerMemcached::MemcacheError(memcache::MemcacheError::BadURL(String::new())))),
        ServeAction::Halt(_)
    ));
}

#[test]
fn cache_urls() {
    assert_eq!(memcache_url("127.0.0.1", 11211, &vec!["".to_string()]), "memcache://127.0.0.1:11211?");
    assert_eq!(
        memcache_url("cache", 1, &vec!["timeout=2".to_string(), "tcp_nodelay=true".to_string()]),
        "memcache://cache:1?timeout=2&tcp_nodelay=true"
    );
    assert_eq!(memcache_url("h", 0, &vec![]), "memcache://h:0?");
}

#[test]
fn data_records() {
    let d = create_data("photo", [5, 0, 0, 0]);
    assert_eq!(d.name, "photo");
    assert_eq!(d.time_to_store, [5, 0, 0, 0]);
    assert_eq!(d.data, [0; 4]);
    assert_eq!(d.time_created, [0; 4]);
    let e = Data::default();
    assert_eq!(e.name, "");
    let v = data_or_default(None);
    assert_eq!(v.len(), 1);
    assert_eq!(v[0].name, "");
    let w = data_or_default(Some(vec![d.clone(), d]));
    assert_eq!(w.len(), 2);
    assert!(wants_all_data(&"all".to_string()));
    assert!(!wants_all_data(&"All".to_string()));
    assert!(!wants_all_data(&"alls".to_string()));
}

#[test]
fn contract_watch() {
    let me = [7u8; 20];
    let other = [8u8; 20];
    assert!(needs_new_client(&[0u8; 20]));
    assert!(!needs_new_client(&me));
    let mut w = ContractWatch::new();
    assert_eq!(w.address, [0u8; 20]);
    w.observe([1u8; 20], &other, &me);
    assert!(!w.found);
    assert_eq!(w.address, [1u8; 20]);
    w.observe([2u8; 20], &me, &me);
    assert!(w.found);
    assert_eq!(w.address, [2u8; 20]);
}

fn sample_config() -> Config {
    Config {
        params: Some(Params {
            broker_ip: "10.0.0.9".to_string(),
            broker_port: 1883,
            cache_ip: Some("127.0.0.1".to_string()),
            cache_port: Some(11211),
            cache_name: None,
            id: "node".to_string(),
            contract_addr: None,
            pub_key: None,
        }),
        blockchain: Some(Blockchain {
            rpc_url_http: "http://x".to_string(),
            rpc_url_ws: "ws://x".to_string(),
            wallet_key: "key".to_string(),
            contract_addr: [0x11; 20],
            contract_unowned_addr: None,
        }),
    }
}

#[test]
fn factory_address_override() {
    let c = with_factory_address(sample_config(), Some([0x22; 20]));
    let b = c.blockchain.unwrap();
    assert_eq!(b.contract_addr, [0x22; 20]);
    assert_eq!(b.wallet_key, "key");
    let same = with_factory_address(sample_config(), None);
    assert_eq!(same.blockchain.unwrap().contract_addr, [0x11; 20]);
}

#[test]
fn node_announcement() {
    let c = sample_config();
    let (topic, payload) = announcement_of(c.params.as_ref().unwrap(), c.blockchain.as_ref().unwrap());
    assert_eq!(topic, "srvList/10.0.0.9:1883");
    assert_eq!(payload, format!("0x{}", "11".repeat(20)));
}

#[test]
fn web_answers() {
    assert_eq!(index(), "Hello, world!");
    all_options();
    let cors = Cors;
    assert_eq!(cors.name(), "Cross-Origin-Resource-Sharing Fairing");
    let h = cors.headers();
    assert_eq!(h.len(), 4);
    assert_eq!(h[0], ("Access-Control-Allow-Origin", "*"));
    assert_eq!(h[3], ("Access-Control-Allow-Credentials", "true"));
    assert_eq!(read_request("photo", "10.0.0.3:8000"), "READphoto;SRC10.0.0.3:8000");
}
