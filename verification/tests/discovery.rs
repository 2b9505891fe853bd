use harddrive_party::announce_address::{AnnounceAddress, PeerConnectionDetails};
use harddrive_party::connections::config::{last_used_port, port_record, stored_certificate, ServerConnection};
use harddrive_party::connections::discovery::gossip_retry::{
    is_retryable_gossip_error, jittered, jittered_retry_delay, retry_delay, shifted_delay, GossipRetryManager,
};
use harddrive_party::connections::discovery::hole_punch::random_nonzero_port;
use harddrive_party::connections::discovery::mdns::{
    create_service_info, handle_mdns_peer, instance_name, parse_peer_info, MdnsAction, MdnsError, ResolvedService,
    ScopedIp, ServiceInfo, SERVICE_TYPE,
};
use harddrive_party::connections::discovery::peer_discovery::{bind_plan, is_private, PeerDiscovery};
use harddrive_party::connections::discovery::stun::{select_stun_servers, stun_test};
use harddrive_party::connections::discovery::traversal::{
    handle_peer_announcement, DiscoveryMethod, PeerStep,
};
use harddrive_party::connections::known_peers::{known_peer, record_key, startup_connections};
use harddrive_party::connections::reconnect::{
    choose_endpoint, connect_error, ConnectAttempts, ConnectStage, EndpointChoice,
};
use harddrive_party::connections::speedometer::Speedometer;
use harddrive_party::errors::UiServerErrorWrapper;
use harddrive_party::net::{IpAddr, SocketAddr};
use harddrive_party::peer_id::PeerId;
use harddrive_party::shared_state::PeerConnect;
use harddrive_party::time::Duration;
use harddrive_party::ui_messages::UiServerError;
use rand::{rngs::StdRng, SeedableRng};

fn v4(octets: [u8; 4], port: u16) -> SocketAddr {
    SocketAddr::V4 { ip: u32::from_be_bytes(octets), port }
}

fn v6(ip: u128, port: u16) -> SocketAddr {
    SocketAddr::V6 { ip, port, flowinfo: 0, scope_id: 0 }
}

fn announce(key: u8, addr: SocketAddr) -> AnnounceAddress {
    AnnounceAddress {
        connection_details: PeerConnectionDetails::Asymmetric(addr),
        public_key: PeerId::new([key; 32]),
    }
}

#[test]
fn classifies_retryable_gossip_errors() {
    assert!(is_retryable_gossip_error(&UiServerErrorWrapper(
        UiServerError::PeerDiscovery("Hole punching timed out".to_string()),
    )));
    assert!(is_retryable_gossip_error(&UiServerErrorWrapper(
        UiServerError::ConnectionError("transport closed".to_string()),
    )));
    assert!(!is_retryable_gossip_error(&UiServerErrorWrapper(
        UiServerError::PeerDiscovery("Already connected to this peer".to_string()),
    )));
    assert!(!is_retryable_gossip_error(&UiServerErrorWrapper(
        UiServerError::ConnectionError("InvalidCertificate(BadSignature)".to_string()),
    )));
}

#[test]
fn gossip_retry_uses_latest_announce_details() {
    let mut manager = GossipRetryManager::new();
    let err = UiServerErrorWrapper(UiServerError::ConnectionError("transport".to_string()));
    let carol = announce(7, v4([127, 0, 0, 1], 1111));
    let moved = announce(7, v4([127, 0, 0, 1], 2222));

    let first = manager
        .schedule_retry_if_needed(DiscoveryMethod::Gossip, carol, &err, false, 0)
        .unwrap();
    let second = manager
        .schedule_retry_if_needed(DiscoveryMethod::Gossip, moved, &err, false, 0)
        .unwrap();

    assert_eq!(manager.fire_retry(&first.peer, first.generation, false, 10_000), None);
    assert_eq!(
        manager.fire_retry(&second.peer, second.generation, false, 10_000),
        Some(moved)
    );
}

#[test]
fn clearing_retry_cancels_pending_send() {
    let mut manager = GossipRetryManager::new();
    let err = UiServerErrorWrapper(UiServerError::ConnectionError("transport".to_string()));
    let carol = announce(7, v4([127, 0, 0, 1], 1111));

    let retry = manager
        .schedule_retry_if_needed(DiscoveryMethod::Gossip, carol, &err, false, 0)
        .unwrap();
    manager.clear_retry(&carol.public_key);

    assert_eq!(manager.fire_retry(&retry.peer, retry.generation, false, 400_000), None);
}

#[test]
fn gossip_retry_budget_is_limited() {
    let mut manager = GossipRetryManager::new();
    let err = UiServerErrorWrapper(UiServerError::ConnectionError("transport".to_string()));
    let carol = announce(7, v4([127, 0, 0, 1], 1111));
    for _ in 0..10 {
        assert!(manager
            .schedule_retry_if_needed(DiscoveryMethod::Gossip, carol, &err, false, 0)
            .is_some());
    }
    assert!(manager
        .schedule_retry_if_needed(DiscoveryMethod::Gossip, carol, &err, false, 0)
        .is_none());
    assert!(manager
        .schedule_retry_if_needed(DiscoveryMethod::Direct, carol, &err, false, 0)
        .is_none());
}

#[test]
fn retry_delays_double_up_to_five_minutes() {
    assert_eq!(retry_delay(1), 1000);
    assert_eq!(retry_delay(2), 2000);
    assert_eq!(retry_delay(9), 256_000);
    assert_eq!(retry_delay(10), 300_000);
    for _ in 0..100 {
        let delay = jittered(1000);
        assert!((800..=1200).contains(&delay));
        let delay = jittered_retry_delay(3);
        assert!((3200..=4800).contains(&delay));
    }
    let delays: Vec<u64> = (0..100).map(|_| jittered(1_000_000)).collect();
    assert!(delays.iter().any(|delay| *delay != 1_000_000));
}

#[test]
fn delays_are_shifted() {
    assert_eq!(shifted_delay(1000, -200), 800);
    assert_eq!(shifted_delay(1000, 0), 1000);
    assert_eq!(shifted_delay(1000, 137), 1137);
    assert_eq!(shifted_delay(10, -11), 0);
}

#[test]
fn random_nonzero_port_never_returns_zero() {
    let mut rng = StdRng::seed_from_u64(1);

    for _ in 0..10_000 {
        assert_ne!(random_nonzero_port(&mut rng), 0);
    }
}

#[test]
fn random_ports_differ() {
    let mut rng = StdRng::seed_from_u64(1);
    let ports: Vec<u16> = (0..100).map(|_| random_nonzero_port(&mut rng)).collect();
    assert!(ports.iter().any(|port| *port != ports[0]));
}

/// A service as others find it.
fn resolved(service: &ServiceInfo) -> ResolvedService {
    let address = match service.ip {
        IpAddr::V4(ip) => ScopedIp::V4(ip),
        IpAddr::V6(ip) => ScopedIp::V6 { ip, scope_id: 0 },
    };
    ResolvedService {
        service_type: service.service_type.clone(),
        port: service.port,
        addresses: vec![address],
        announce_address: Some(service.property_value.clone()),
    }
}

fn beaver(socket_address: SocketAddr) -> AnnounceAddress {
    AnnounceAddress {
        connection_details: PeerConnectionDetails::NoNat(socket_address),
        public_key: PeerId::new([2; 32]),
    }
}

#[test]
fn names_are_cut_after_sixteen_bytes() {
    assert_eq!(instance_name("alice"), "alice");
    assert_eq!(instance_name("0123456789abcdef"), "0123456789abcdef");
    assert_eq!(instance_name("0123456789abcdefgh"), "0123456789abcdef");
    assert_eq!(instance_name("\u{e9}\u{e9}\u{e9}\u{e9}\u{e9}\u{e9}\u{e9}\u{e9}\u{e9}").chars().count(), 8);
    let address = v4([192, 168, 0, 2], 1234);
    let service_info = create_service_info("0123456789abcdefgh", &address, &beaver(address));
    assert_eq!(service_info.instance_name, "0123456789abcdef");
    assert_eq!(service_info.host_name, "0123456789abcdef.local.");
}

#[test]
fn parses_ipv6_service_info() {
    let socket_address = v6(0xfd00_0000_0000_0000_0000_0000_0000_0001, 1234);
    let announce = beaver(socket_address);

    let service_info = create_service_info("alice", &socket_address, &announce);
    let resolved_service = resolved(&service_info);
    let (discovered_addr, discovered_announce) =
        parse_peer_info(&resolved_service, &socket_address).unwrap();

    assert_eq!(discovered_addr, socket_address);
    assert_eq!(discovered_announce, announce);
}

#[test]
fn prefers_address_matching_our_family() {
    let their_v4 = v4([192, 168, 0, 2], 1234);
    let their_v6 = v6(0xfd00_0000_0000_0000_0000_0000_0000_0002, 1234);
    let announce = beaver(their_v4);

    let service_info = create_service_info("alice", &their_v4, &announce);
    let mut resolved_service = resolved(&service_info);
    resolved_service.addresses = vec![
        ScopedIp::V4(u32::from_be_bytes([192, 168, 0, 2])),
        ScopedIp::V6 { ip: 0xfd00_0000_0000_0000_0000_0000_0000_0002, scope_id: 0 },
    ];

    let our_v4 = v4([192, 168, 0, 1], 1234);
    let (chosen, _) = parse_peer_info(&resolved_service, &our_v4).unwrap();
    assert_eq!(chosen, their_v4);

    let our_v6 = v6(0xfd00_0000_0000_0000_0000_0000_0000_0001, 1234);
    let (chosen, _) = parse_peer_info(&resolved_service, &our_v6).unwrap();
    assert_eq!(chosen, their_v6);
}

#[test]
fn preserves_link_local_ipv6_scope_id() {
    let socket_address = v6(0xfe80_0000_0000_0000_0000_0000_0000_0001, 1234);
    let announce = beaver(socket_address);

    let service_info = create_service_info("alice", &socket_address, &announce);
    let mut resolved_service = resolved(&service_info);
    resolved_service.addresses = vec![ScopedIp::V6 {
        ip: 0xfe80_0000_0000_0000_0000_0000_0000_0001,
        scope_id: 7,
    }];

    let (discovered_addr, discovered_announce) =
        parse_peer_info(&resolved_service, &socket_address).unwrap();

    assert_eq!(discovered_addr.ip(), socket_address.ip());
    assert_eq!(discovered_addr.port(), socket_address.port());
    match discovered_addr {
        SocketAddr::V6 { scope_id, .. } => assert_eq!(scope_id, 7),
        SocketAddr::V4 { .. } => panic!("expected IPv6 address"),
    }
    assert_eq!(discovered_announce, announce);
}

#[test]
fn mdns_errors() {
    let socket_address = v4([192, 168, 0, 2], 1234);
    let service_info = create_service_info("alice", &socket_address, &beaver(socket_address));
    assert_eq!(service_info.service_type, SERVICE_TYPE);
    assert_eq!(service_info.host_name, "alice.local.");

    let mut wrong_type = resolved(&service_info);
    wrong_type.service_type = "_other._udp.local.".to_string();
    assert_eq!(parse_peer_info(&wrong_type, &socket_address), Err(MdnsError::ServiceType));

    let mut no_code = resolved(&service_info);
    no_code.announce_address = None;
    assert_eq!(parse_peer_info(&no_code, &socket_address), Err(MdnsError::NoAnnounceAddress));

    let mut bad_code = resolved(&service_info);
    bad_code.announce_address = Some("BubblingBeaver".to_string());
    match parse_peer_info(&bad_code, &socket_address) {
        Err(MdnsError::AnnounceAddress(_)) => {}
        other => panic!("unexpected {other:?}"),
    }

    let mut no_ip = resolved(&service_info);
    no_ip.addresses = vec![];
    assert_eq!(parse_peer_info(&no_ip, &socket_address), Err(MdnsError::NoIp));
}

#[test]
fn one_peer_of_two_on_the_local_network_connects() {
    let alice = v4([192, 168, 0, 2], 1234);
    let bob = v4([192, 168, 0, 2], 5678);
    let (alice_text, bob_text) = ("192.168.0.2:1234", "192.168.0.2:5678");
    assert_eq!(handle_mdns_peer(&bob, &alice, bob_text, alice_text), MdnsAction::Connect);
    assert_eq!(handle_mdns_peer(&alice, &bob, alice_text, bob_text), MdnsAction::Remember);
    assert_eq!(handle_mdns_peer(&bob, &bob, bob_text, bob_text), MdnsAction::Ignore);
}

#[test]
fn test_stun_no_nat_local_servers() {
    let local_addr = v4([127, 0, 0, 1], 40000);
    let details = stun_test(local_addr, local_addr, local_addr);
    assert_eq!(details, PeerConnectionDetails::NoNat(local_addr));
}

#[test]
fn test_stun_asymmetric_local_servers() {
    let public_addr = v4([203, 0, 113, 1], 45000);
    let details = stun_test(v4([127, 0, 0, 1], 40000), public_addr, public_addr);
    assert_eq!(details, PeerConnectionDetails::Asymmetric(public_addr));
}

#[test]
fn test_stun_symmetric_local_servers() {
    let public_addr_1 = v4([203, 0, 113, 1], 45000);
    let public_addr_2 = v4([203, 0, 113, 2], 45001);
    let details = stun_test(v4([127, 0, 0, 1], 40000), public_addr_1, public_addr_2);
    assert_eq!(details, PeerConnectionDetails::Symmetric(public_addr_2.ip()));
}

#[test]
fn stun_servers_are_given_or_picked() {
    let known = vec!["a:1".to_string(), "b:2".to_string(), "c:3".to_string()];
    assert_eq!(
        select_stun_servers(Some(vec!["x:9".to_string()]), known.clone()),
        Ok(vec!["x:9".to_string()])
    );
    assert_eq!(
        select_stun_servers(Some(vec![]), known.clone()),
        Err("No STUN servers provided".to_string())
    );
    let picked = select_stun_servers(None, known.clone()).unwrap();
    assert!(!picked.is_empty());
    assert!(picked.iter().all(|server| known.contains(server)));
    let many: Vec<String> = (0..200).map(|i| format!("server{i}:3478")).collect();
    let picked = select_stun_servers(None, many.clone()).unwrap();
    assert!(picked.len() < many.len() || picked != many);
}

#[test]
fn exactly_one_side_connects() {
    let alice = AnnounceAddress {
        connection_details: PeerConnectionDetails::NoNat(v4([10, 0, 0, 1], 1)),
        public_key: PeerId::new([1; 32]),
    };
    let bob = AnnounceAddress {
        connection_details: PeerConnectionDetails::NoNat(v4([10, 0, 0, 2], 1)),
        public_key: PeerId::new([2; 32]),
    };
    match handle_peer_announcement(true, &alice, bob, false, DiscoveryMethod::Direct) {
        PeerStep::Await(addr) => assert_eq!(addr, v4([10, 0, 0, 2], 1)),
        other => panic!("unexpected {other:?}"),
    }
    match handle_peer_announcement(true, &bob, alice, false, DiscoveryMethod::Direct) {
        PeerStep::Connect(peer) => assert_eq!(peer.socket_address, v4([10, 0, 0, 1], 1)),
        other => panic!("unexpected {other:?}"),
    }
    match handle_peer_announcement(true, &bob, alice, true, DiscoveryMethod::Direct) {
        PeerStep::Fail(error) => {
            assert_eq!(error.to_string(), "Peer discovery: Already connected to this peer")
        }
        other => panic!("unexpected {other:?}"),
    }
    match handle_peer_announcement(true, &bob, bob, false, DiscoveryMethod::Direct) {
        PeerStep::Fail(error) => {
            assert_eq!(error.to_string(), "Peer discovery: Cannot connect to ourself")
        }
        other => panic!("unexpected {other:?}"),
    }
}

#[test]
fn configured_address_has_to_be_had() {
    let local_ip = IpAddr::V4(u32::from_be_bytes([192, 168, 0, 5]));
    let held = v4([127, 0, 0, 1], 4433);
    let plan = bind_plan(Some(held), local_ip, Some(999));
    assert_eq!(plan.first, held);
    assert_eq!(plan.fallback, None);

    let plan = bind_plan(None, local_ip, Some(999));
    assert_eq!(plan.first, v4([192, 168, 0, 5], 999));
    assert_eq!(plan.fallback, Some(v4([192, 168, 0, 5], 0)));

    let plan = bind_plan(None, local_ip, None);
    assert_eq!(plan.first, v4([192, 168, 0, 5], 0));

    let plan = bind_plan(Some(v4([127, 0, 0, 1], 0)), local_ip, None);
    assert_eq!(plan.first, v4([127, 0, 0, 1], 0));
}

#[test]
fn private_addresses() {
    for private in [[10, 1, 2, 3], [172, 16, 0, 1], [172, 31, 255, 255], [192, 168, 5, 5]] {
        assert!(is_private(IpAddr::V4(u32::from_be_bytes(private))));
    }
    for public in [[11, 0, 0, 1], [172, 15, 0, 1], [172, 32, 0, 1], [192, 169, 0, 1], [127, 0, 0, 1]] {
        assert!(!is_private(IpAddr::V4(u32::from_be_bytes(public))));
    }
    assert!(!is_private(IpAddr::V6(1)));
}

#[test]
fn peer_discovery_follows_the_kind_of_nat() {
    let id = PeerId::new([0xab; 32]);
    let local = v4([192, 168, 0, 5], 4000);
    let mut discovery = PeerDiscovery::new(true, id, &local, PeerConnectionDetails::NoNat(local));
    assert_eq!(discovery.mdns_id, Some("ab".repeat(32)));
    assert!(discovery.has_hole_puncher);
    assert!(!discovery.use_client_verification());

    let hard = PeerDiscovery::new(true, id, &v4([8, 8, 8, 8], 1), PeerConnectionDetails::Symmetric(local.ip()));
    assert_eq!(hard.mdns_id, None);
    assert!(!hard.has_hole_puncher);
    assert!(hard.use_client_verification());

    let announced = PeerConnect {
        discovery_method: DiscoveryMethod::Gossip,
        announce_address: announce(7, v4([1, 2, 3, 4], 5)),
    };
    discovery.expect_peer(v4([1, 2, 3, 4], 5), &announced);
    assert_eq!(discovery.get_pending_peer(&v4([1, 2, 3, 4], 6)), None);
    assert_eq!(
        discovery.get_pending_peer(&v4([1, 2, 3, 4], 5)),
        Some((DiscoveryMethod::Gossip, announced.announce_address))
    );
    assert_eq!(discovery.get_pending_peer(&v4([1, 2, 3, 4], 5)), None);
}

#[test]
fn known_peers_are_stored_under_their_key() {
    let address = AnnounceAddress {
        public_key: PeerId::new([17; 32]),
        connection_details: PeerConnectionDetails::NoNat(v4([203, 0, 113, 17], 7017)),
    };
    let key = record_key(&address);
    assert_eq!(key, vec![17; 32]);
    assert_eq!(known_peer(&key, Some(address.connection_details)), Some(address));
    assert_eq!(known_peer(b"amberCloudYak", Some(address.connection_details)), None);
    assert_eq!(known_peer(&key, None), None);

    let hidden = announce(3, v4([203, 0, 113, 18], 7018));
    let peers = startup_connections(&vec![hidden, address]);
    assert_eq!(peers.len(), 1);
    assert_eq!(peers[0].announce_address, address);
    assert_eq!(peers[0].socket_address, v4([203, 0, 113, 17], 7017));
}

#[test]
fn connect_attempts_back_off_and_end() {
    let mut attempts = ConnectAttempts::new();
    let first = attempts.failed("timed out").unwrap();
    assert!((800..=1200).contains(&first));
    let second = attempts.failed("timed out").unwrap();
    assert!((1600..=2400).contains(&second));
    for _ in 0..17 {
        assert!(attempts.failed("timed out").is_ok());
    }
    assert_eq!(
        attempts.failed("timed out"),
        Err(UiServerError::ConnectionError(
            "After connecting (attempt 20/20): timed out".to_string()
        ))
    );
}

#[test]
fn endpoints_for_connecting() {
    assert_eq!(choose_endpoint(true, true), EndpointChoice::Existing);
    assert_eq!(choose_endpoint(false, true), EndpointChoice::PeerSocket);
    assert_eq!(choose_endpoint(false, false), EndpointChoice::NewSocket);
    assert_eq!(
        connect_error(ConnectStage::CreatingEndpoint, "no"),
        UiServerError::ConnectionError("When creating endpoint: no".to_string())
    );
    assert_eq!(
        connect_error(ConnectStage::Connecting, "no"),
        UiServerError::ConnectionError("When connecting: no".to_string())
    );
    assert_eq!(
        connect_error(ConnectStage::GettingCertificate, "no"),
        UiServerError::ConnectionError("When getting certificate: no".to_string())
    );
}

#[test]
fn stored_configuration() {
    assert_eq!(port_record(3030), vec![0x0b, 0xd6]);
    assert_eq!(last_used_port(&Some(port_record(3030))), Some(3030));
    assert_eq!(last_used_port(&Some(vec![1, 2, 3])), None);
    assert_eq!(last_used_port(&None), None);
    assert_eq!(stored_certificate(Some(vec![1]), Some(vec![2])), Some((vec![1], vec![2])));
    assert_eq!(stored_certificate(Some(vec![1]), None), None);
    assert_eq!(ServerConnection::Symmetric.to_string(), "Behind symmetric NAT");
    assert_eq!(ServerConnection::WithEndpoint(None).to_string(), "No local adddress");
    assert_eq!(
        ServerConnection::WithEndpoint(Some("127.0.0.1:1".to_string())).to_string(),
        "127.0.0.1:1"
    );
}

#[test]
fn measures_entries() {
    let mut meter = Speedometer::new(Duration { secs: 1, nanos: 0 });
    meter.entry(10);
    meter.entry(10);
    meter.entry(10);
    assert!(meter.measure() > 0, "bytes per second should be non-zero");
    let start = std::time::Instant::now();
    while start.elapsed() < std::time::Duration::from_millis(1001) {}
    assert_eq!(meter.measure(), 0);
}

#[test]
fn no_entries() {
    let mut meter = Speedometer::new(Duration { secs: 1, nanos: 0 });
    assert_eq!(meter.measure(), 0, "should not crash on empty queue");
}

#[test]
fn speed_is_the_average_of_recent_entries() {
    let mut meter = Speedometer::new(Duration { secs: 1, nanos: 0 });
    meter.entry_at(10, 0);
    meter.entry_at(20, 600_000_000);
    meter.entry_at(40, 900_000_000);
    assert_eq!(meter.measure_at(1_000_000_000), 23);
    assert_eq!(meter.measure_at(1_500_000_000), 30);
    assert_eq!(meter.measure_at(3_000_000_000), 0);
}

#[test]
fn records_are_raw_keyed_and_round_trip_connection_details() {
    let address = AnnounceAddress {
        public_key: PeerId::new([17; 32]),
        connection_details: PeerConnectionDetails::NoNat(v4([203, 0, 113, 17], 7017)),
    };
    let mut tree = std::collections::BTreeMap::new();
    tree.insert(record_key(&address), address.connection_details);
    assert!(tree.contains_key(address.public_key.as_bytes().as_slice()));
    let peers: Vec<AnnounceAddress> = tree
        .iter()
        .filter_map(|(key, details)| known_peer(key, Some(*details)))
        .collect();
    assert_eq!(peers, vec![address]);
}

#[test]
fn legacy_name_keyed_tree_is_untouched_and_ignored() {
    assert_ne!(
        harddrive_party::shared_state::KNOWN_PEERS_LEGACY.to_vec(),
        harddrive_party::shared_state::KNOWN_PEERS_V1.to_vec()
    );
    let details = PeerConnectionDetails::NoNat(v4([203, 0, 113, 17], 7017));
    assert_eq!(known_peer(b"amberCloudYak", Some(details)), None);
}

#[test]
fn local_address_requires_configured_address() {
    // There is nothing to fall back to where the configured address cannot be bound.
    let held_addr = v4([127, 0, 0, 1], 40123);
    let plan = bind_plan(Some(held_addr), held_addr.ip(), None);
    assert_eq!(plan.first, held_addr);
    assert_eq!(plan.fallback, None);
}
