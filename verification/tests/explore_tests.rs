use localpost::explore::{
    generate_subnet_ips, lan_networks, local_session_id, merge_servers, record_discovery,
    ExploreError, ServerTable,
};
use localpost::explore::discovery_answer;
use localpost::ipc::{FileTable, IPCResponse};
use localpost::tcp::TCPResponse;

fn ip(a: u8, b: u8, c: u8, d: u8) -> u32 {
    u32::from_be_bytes([a, b, c, d])
}

fn files(entries: &[(&str, &str, usize)]) -> FileTable {
    let mut t = FileTable::new();
    for (k, p, c) in entries {
        t.insert(k.to_string(), (p.to_string(), *c));
    }
    t
}

#[test]
fn subnet_of_24_bits() {
    let v = match generate_subnet_ips(ip(192, 168, 1, 77), 24) {
        Ok(v) => v,
        Err(_) => panic!("valid prefix"),
    };
    assert_eq!(v.len(), 254);
    assert_eq!(v[0], ip(192, 168, 1, 1));
    assert_eq!(v[253], ip(192, 168, 1, 254));
}

#[test]
fn subnet_small_prefixes() {
    match generate_subnet_ips(ip(10, 0, 0, 5), 30) {
        Ok(v) => assert_eq!(v, vec![ip(10, 0, 0, 5), ip(10, 0, 0, 6)]),
        Err(_) => panic!("valid prefix"),
    }
    match generate_subnet_ips(ip(10, 0, 0, 5), 31) {
        Ok(v) => assert!(v.is_empty()),
        Err(_) => panic!("valid prefix"),
    }
    match generate_subnet_ips(ip(10, 0, 0, 5), 32) {
        Ok(v) => assert!(v.is_empty()),
        Err(_) => panic!("valid prefix"),
    }
}

#[test]
fn subnet_invalid_prefix() {
    assert!(matches!(generate_subnet_ips(ip(10, 0, 0, 5), 33), Err(ExploreError::InvalidPrefixLength)));
}

#[test]
fn lan_networks_keep_24_bit_prefixes() {
    let ifaces = vec![
        (ip(127, 0, 0, 1), ip(255, 0, 0, 0)),
        (ip(192, 168, 1, 42), ip(255, 255, 255, 0)),
        (ip(10, 1, 2, 3), ip(255, 255, 0, 0)),
        (ip(172, 16, 9, 200), ip(255, 255, 255, 0)),
    ];
    match lan_networks(&ifaces) {
        Ok(v) => assert_eq!(v, vec![ip(192, 168, 1, 0), ip(172, 16, 9, 0)]),
        Err(_) => panic!("valid netmasks"),
    }
}

#[test]
fn lan_networks_reject_bad_netmask() {
    let ifaces = vec![(ip(192, 168, 1, 42), ip(255, 0, 255, 0))];
    assert!(matches!(lan_networks(&ifaces), Err(ExploreError::InvalidNetmask)));
}

#[test]
fn own_session_from_ping() {
    assert_eq!(local_session_id(Some(IPCResponse::Pong("a-b-c".to_string()))), Some("a-b-c".to_string()));
    assert_eq!(local_session_id(Some(IPCResponse::Success)), None);
    assert_eq!(local_session_id(None), None);
}

#[test]
fn discovery_skips_own_and_repeated_sessions() {
    let mut servers = ServerTable::new();
    let own = Some("mine".to_string());
    record_discovery(&mut servers, &own, ip(10, 0, 0, 1), "mine".to_string(), files(&[("x", "/x", 1)]));
    assert!(servers.is_empty());
    record_discovery(&mut servers, &own, ip(10, 0, 0, 2), "s1".to_string(), files(&[("a", "/a", 1)]));
    record_discovery(&mut servers, &own, ip(10, 0, 0, 3), "s1".to_string(), files(&[("b", "/b", 1)]));
    assert_eq!(servers.len(), 1);
    let e = servers.get("s1").unwrap();
    assert_eq!(e.0, ip(10, 0, 0, 2));
    assert!(e.1.contains_key("a"));
}

#[test]
fn merge_prefers_greatest_session() {
    let mut servers = ServerTable::new();
    let none: Option<String> = None;
    record_discovery(&mut servers, &none, ip(10, 0, 0, 9), "beta".to_string(), files(&[("k", "/beta/k", 2), ("b", "/b", 1)]));
    record_discovery(&mut servers, &none, ip(10, 0, 0, 7), "alpha".to_string(), files(&[("k", "/alpha/k", 5), ("a", "/a", 3)]));
    let results = merge_servers(&servers);
    assert_eq!(results.len(), 3);
    let k = results.get("k").unwrap();
    assert_eq!(k.0, "beta");
    assert_eq!(k.1, ip(10, 0, 0, 9));
    assert_eq!(k.2, ("/beta/k".to_string(), 2));
    let a = results.get("a").unwrap();
    assert_eq!(a.0, "alpha");
    assert_eq!(a.2, ("/a".to_string(), 3));
    assert_eq!(results.get("b").unwrap().0, "beta");
}

#[test]
fn discovery_answers() {
    let reply = TCPResponse::Discovery { session_id: "s".to_string(), files: files(&[("k", "/k", 1)]) };
    match discovery_answer(reply) {
        Some((s, f)) => {
            assert_eq!(s, "s");
            assert!(f.contains_key("k"));
        }
        None => panic!("expected an answer"),
    }
    assert!(discovery_answer(TCPResponse::Other).is_none());
    assert!(discovery_answer(TCPResponse::Error("e".to_string())).is_none());
}

#[test]
fn bad_prefix_and_bad_netmask_errors_differ() {
    assert!(matches!(generate_subnet_ips(ip(192, 168, 0, 1), 40), Err(ExploreError::InvalidPrefixLength)));
    let ifaces = vec![(ip(192, 168, 1, 42), ip(255, 255, 255, 0)), (ip(10, 0, 0, 1), ip(0, 255, 0, 0))];
    assert!(matches!(lan_networks(&ifaces), Err(ExploreError::InvalidNetmask)));
}
