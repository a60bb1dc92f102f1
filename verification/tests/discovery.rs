use warp_ipfs::discovery::{
    after_publish, answer_request, discovery_start, on_peer_confirmed, on_peer_disconnected, publish_start,
    DiscoveryConfig, DiscoveryPublish, DiscoveryRegistry, DiscoveryRequest, DiscoveryResponse, DiscoveryStart,
    DiscoveryType, PeerEvent, PeerTracker, PublishStart,
};
use warp_ipfs::error::Error;

fn s(x: &str) -> String {
    x.to_string()
}

#[test]
fn tracker_connects_pings_and_confirms() {
    let mut t = PeerTracker::new();
    assert!(!t.is_connected());
    assert_eq!(t.on_connection(1, &s("/ip4/1.2.3.4/tcp/1")), Some(PeerEvent::Connected));
    assert!(t.is_connected());
    assert!(t.pinging);
    assert_eq!(t.on_connection(2, &s("/ip4/1.2.3.4/tcp/2")), None);
    assert_eq!(t.connections.len(), 2);
    assert_eq!(t.addresses.len(), 2);
    // the same connection again replaces its address
    assert_eq!(t.on_connection(2, &s("/ip4/1.2.3.4/tcp/1")), None);
    assert_eq!(t.connections.len(), 2);
    assert_eq!(t.addresses.len(), 2);

    assert_eq!(t.on_ping(true), Some(PeerEvent::Confirmed));
    assert!(t.confirmed);
    assert!(!t.pinging);
    assert_eq!(t.ping_timer, Some(30));
    t.on_timer();
    assert!(t.pinging);
    assert_eq!(t.ping_timer, None);
    assert_eq!(t.on_ping(true), None);
    assert_eq!(t.on_ping(false), None);
    assert_eq!(t.ping_timer, Some(60));
}

#[test]
fn tracker_disconnects_when_last_connection_closes() {
    let mut t = PeerTracker::new();
    t.on_connection(1, &s("a"));
    t.on_connection(2, &s("b"));
    assert_eq!(t.on_closed(1), None);
    assert!(t.is_connected());
    assert_eq!(t.on_closed(2), Some(PeerEvent::Disconnected));
    assert!(!t.is_connected());
    assert!(!t.pinging);
    assert_eq!(t.ping_timer, None);
    // the addresses stay known
    assert_eq!(t.addresses, vec![s("a"), s("b")]);
}

#[test]
fn tracker_initial_check_and_dial() {
    let mut t = PeerTracker::new();
    assert_eq!(t.on_connected_check(false), PeerEvent::Disconnected);
    assert!(!t.pinging);
    assert!(t.dial());
    assert!(!t.dial());
    t.on_dial_done();
    assert!(!t.dialing);
    assert_eq!(t.on_connected_check(true), PeerEvent::Connected);
    assert!(t.pinging);

    let mut u = PeerTracker::new();
    u.set_connection(7, &s("x"));
    assert!(u.pinging);
    assert!(!u.connected);
    assert!(!u.dial());
}

#[test]
fn tracker_set_addresses_keeps_each_once() {
    let mut t = PeerTracker::new();
    t.set_addresses(&vec![s("r1"), s("r2"), s("r1")]);
    assert_eq!(t.addresses, vec![s("r1"), s("r2")]);
    t.set_addresses(&vec![s("r2"), s("r3")]);
    assert_eq!(t.addresses, vec![s("r1"), s("r2"), s("r3")]);
}

#[test]
fn registry_insert_get_remove() {
    let mut reg = DiscoveryRegistry::new();
    assert!(!reg.contains(&s("p1")));
    assert_eq!(reg.insert(&s("p1"), &vec![s("relay")]), Ok(()));
    assert_eq!(reg.insert(&s("p1"), &vec![]), Err(Error::IdentityExist));
    assert!(reg.contains(&s("p1")));
    let rec = reg.get(&s("p1")).unwrap();
    assert_eq!(rec.peer_id, s("p1"));
    assert_eq!(rec.addresses, vec![s("relay")]);
    assert_eq!(reg.insert(&s("p2"), &vec![]), Ok(()));
    assert_eq!(reg.get(&s("p2")).unwrap().addresses, Vec::<String>::new());
    assert_eq!(reg.list().len(), 2);
    assert_eq!(reg.remove(&s("p1")), Ok(()));
    assert_eq!(reg.remove(&s("p1")), Err(Error::IdentityDoesntExist));
    assert!(matches!(reg.get(&s("p1")), Err(Error::IdentityDoesntExist)));
    assert_eq!(reg.list().len(), 1);
}

#[test]
fn registry_discovered_and_connected_peers() {
    let mut reg = DiscoveryRegistry::new();
    reg.insert(&s("p1"), &vec![s("relay")]).unwrap();
    reg.add_discovered(&vec![s("p1"), s("p2"), s("p2")]);
    assert_eq!(reg.list().len(), 2);
    assert_eq!(reg.get(&s("p1")).unwrap().addresses, vec![s("relay")]);
    reg.add_connected(&s("p3"), 9, &s("addr3"));
    assert_eq!(reg.get(&s("p3")).unwrap().addresses, vec![s("addr3")]);
    reg.add_connected(&s("p3"), 10, &s("other"));
    assert_eq!(reg.get(&s("p3")).unwrap().addresses, vec![s("addr3")]);
}

#[test]
fn pending_announcements() {
    let mut pending: Vec<String> = Vec::new();
    on_peer_confirmed(&mut pending, &s("p1"), true);
    on_peer_confirmed(&mut pending, &s("p1"), true);
    on_peer_confirmed(&mut pending, &s("p2"), false);
    on_peer_confirmed(&mut pending, &s("p3"), true);
    assert_eq!(pending, vec![s("p1"), s("p3")]);
    on_peer_disconnected(&mut pending, &s("p3"));
    assert_eq!(pending, vec![s("p3")]);
}

#[test]
fn answering_requests() {
    let peer = s("peer");
    assert_eq!(answer_request(&peer, &None), DiscoveryResponse::InvalidRequest);
    assert_eq!(
        answer_request(&peer, &Some((s("other"), Some(DiscoveryRequest::Ping)))),
        DiscoveryResponse::InvalidRequest
    );
    assert_eq!(answer_request(&peer, &Some((s("peer"), None))), DiscoveryResponse::InvalidRequest);
    assert_eq!(answer_request(&peer, &Some((s("peer"), Some(DiscoveryRequest::Ping)))), DiscoveryResponse::Pong);
}

fn ns_config(namespace: Option<&str>, t: DiscoveryType) -> DiscoveryConfig {
    DiscoveryConfig::Namespace { namespace: namespace.map(|n| n.to_string()), discovery_type: t }
}

#[test]
fn choosing_what_to_discover() {
    let dht = ns_config(None, DiscoveryType::Dht);
    assert!(discovery_start(&dht, None, false, false).is_none());
    assert!(discovery_start(&dht, None, true, true).is_none());
    match discovery_start(&dht, None, false, true) {
        Some(DiscoveryStart::Dht { namespace }) => assert_eq!(namespace, "satellite-warp"),
        _ => panic!("a DHT round"),
    }
    match discovery_start(&dht, Some(s("given")), false, true) {
        Some(DiscoveryStart::Dht { namespace }) => assert_eq!(namespace, "given"),
        _ => panic!("a DHT round"),
    }
    let named = ns_config(Some("mine"), DiscoveryType::Dht);
    match discovery_start(&named, Some(s("given")), false, true) {
        Some(DiscoveryStart::Dht { namespace }) => assert_eq!(namespace, "mine"),
        _ => panic!("a DHT round"),
    }

    let rz = ns_config(None, DiscoveryType::RzPoint { addresses: vec![None, Some(s("rz1")), Some(s("rz2"))] });
    match discovery_start(&rz, None, false, true) {
        Some(DiscoveryStart::Rz { namespace, peer }) => {
            assert_eq!(namespace, "satellite-warp");
            assert_eq!(peer, "rz1");
        }
        _ => panic!("a rendezvous round"),
    }
    let no_peer = ns_config(None, DiscoveryType::RzPoint { addresses: vec![None] });
    assert!(discovery_start(&no_peer, None, false, true).is_none());
    assert!(discovery_start(&DiscoveryConfig::Shuttle, None, false, true).is_none());
    assert!(discovery_start(&DiscoveryConfig::Disabled, None, false, true).is_none());
}

#[test]
fn choosing_what_to_publish() {
    assert!(matches!(publish_start(&DiscoveryConfig::Shuttle), Some(PublishStart::Unpublished)));
    assert!(matches!(publish_start(&DiscoveryConfig::Disabled), Some(PublishStart::Unpublished)));
    match publish_start(&ns_config(Some("mine"), DiscoveryType::Dht)) {
        Some(PublishStart::Dht { namespace }) => assert_eq!(namespace, "mine"),
        _ => panic!("provide in the DHT"),
    }
    match publish_start(&ns_config(None, DiscoveryType::RzPoint { addresses: vec![Some(s("rz"))] })) {
        Some(PublishStart::Rz { namespace, peer }) => {
            assert_eq!(namespace, "satellite-warp");
            assert_eq!(peer, "rz");
        }
        _ => panic!("register at the rendezvous peer"),
    }
    assert!(publish_start(&ns_config(None, DiscoveryType::RzPoint { addresses: vec![] })).is_none());

    let dht = ns_config(None, DiscoveryType::Dht);
    let (confirmed, start) = after_publish(&dht, DiscoveryPublish::Dht, false);
    assert!(confirmed);
    assert!(matches!(start, Some(DiscoveryStart::Dht { .. })));
    let (confirmed, start) = after_publish(&dht, DiscoveryPublish::Unpublished, false);
    assert!(!confirmed);
    assert!(start.is_none());
}

#[test]
fn course_of_a_peer_met_through_one_connection() {
    let mut t = PeerTracker::new();
    assert_eq!(t.on_connection(7, &s("/ip4/1.2.3.4")), Some(PeerEvent::Connected));
    assert!(t.connected && t.pinging);
    assert_eq!(t.on_ping(true), Some(PeerEvent::Confirmed));
    assert!(t.confirmed && t.ping_timer == Some(30));
    t.on_timer();
    assert!(t.pinging && t.ping_timer.is_none());
    assert_eq!(t.on_ping(false), None);
    assert!(t.confirmed && t.ping_timer == Some(60));
    assert_eq!(t.on_closed(7), Some(PeerEvent::Disconnected));
    assert!(!t.connected && !t.pinging && t.ping_timer.is_none() && t.confirmed);
}
