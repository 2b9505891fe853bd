use harddrive_party::announce_address::{AnnounceAddress, PeerConnectionDetails};
use harddrive_party::discovery::capability;
use harddrive_party::discovery::handshake::{handshake_request, handshake_request_with, handshake_response};
use harddrive_party::discovery::mqtt::{
    channel_name, reconnect_step, MqttState, MqttTopic, Received, ReconnectStep,
};
use harddrive_party::discovery::mqtt_packets::{
    create_publish_packet, create_resubscribe_packet, create_subscribe_packet,
    create_unsubscribe_packet,
};
use harddrive_party::discovery::topic::{open_message, seal_message, Topic};
use harddrive_party::discovery::topic_mdns::{
    create_service_info, handle_found_peer, parse_peer_info, parse_port, try_topics, FoundPeer,
    MdnsPeerError, MdnsPeerInfo, ServiceStep, TopicMdnsState,
};
use harddrive_party::discovery::topics_db::TopicsDb;
use harddrive_party::discovery::waku::{
    content_topic, AnnouncePayload, WakuState, DEFAULT_PUBSUB_TOPIC,
};
use harddrive_party::net::SocketAddr;
use harddrive_party::peer_id::PeerId;
use harddrive_party::wire_messages::encode_announce_address;
use rand::Rng;

fn v4(octets: [u8; 4], port: u16) -> SocketAddr {
    SocketAddr::V4 { ip: u32::from_be_bytes(octets), port }
}

#[test]
fn handshake_basic_handshake() {
    let topic = Topic::new("boop".to_string());
    let (request, token) = handshake_request(&topic);
    let response = handshake_response(request, &topic).unwrap();
    assert_eq!(token, response);
}

#[test]
fn handshake_handshake_fails_with_bad_topic() {
    let topic = Topic::new("boop".to_string());
    let (request, _token) = handshake_request(&topic);
    let bad_topic = Topic::new("something else".to_string());
    assert!(handshake_response(request, &bad_topic).is_err());
}

#[test]
fn capability_basic_handshake() {
    let topic = Topic::new("boop".to_string());
    let addr = "127.0.0.1:1234";
    let mut rng = rand::thread_rng();
    let token: [u8; 32] = rng.gen();
    let request = capability::handshake_request(&topic, addr, &token);
    let response = capability::handshake_response(request, &topic, addr).unwrap();
    assert_eq!(token, response);
}

#[test]
fn capability_handshake_fails_with_bad_topic() {
    let topic = Topic::new("boop".to_string());
    let addr = "127.0.0.1:1234";
    let mut rng = rand::thread_rng();
    let token: [u8; 32] = rng.gen();
    let request = capability::handshake_request(&topic, addr, &token);
    let bad_topic = Topic::new("something else".to_string());
    assert!(capability::handshake_response(request, &bad_topic, addr).is_err());
    assert!(capability::handshake_response(request, &topic, "127.0.0.1:1235").is_err());
}

#[test]
fn encrypt_to_topic() {
    let topic = Topic::new("robot".to_string());

    let plain = b"beep boop".to_vec();
    let ciphertext = topic.encrypt(&plain);
    let decrypted = topic.decrypt(&ciphertext).unwrap();
    assert_eq!(plain, decrypted);
}

#[test]
fn tampered_messages_do_not_open() {
    let key = [7; 32];
    let sealed = seal_message(&key, &[1; 8], b"beep boop");
    assert_eq!(sealed.len(), 9 + 16 + 8);
    assert_eq!(open_message(&key, &sealed), Some(b"beep boop".to_vec()));
    assert_eq!(open_message(&[8; 32], &sealed), None);
    let mut forged = sealed.clone();
    forged[0] ^= 1;
    assert_eq!(open_message(&key, &forged), None);
    assert_eq!(open_message(&key, &sealed[..10]), None);
    assert_ne!(sealed, seal_message(&key, &[2; 8], b"beep boop"));
}

#[test]
fn random_parts_differ() {
    let topic = Topic::new("robot".to_string());
    assert_ne!(topic.encrypt(b"beep"), topic.encrypt(b"beep"));
    let (_, first) = handshake_request(&topic);
    let (_, second) = handshake_request(&topic);
    assert_ne!(first, second);
    let request = handshake_request_with(&topic.hash, &first, &[3; 8]);
    assert_eq!(handshake_response(request, &topic), Ok(first));
}

#[test]
fn topics_are_known_by_a_hash() {
    let topic = Topic::new("boop".to_string());
    let again = Topic::new("boop".to_string());
    let other = Topic::new("something else".to_string());
    assert_eq!(topic, again);
    assert_ne!(topic.hash, other.hash);
    assert_ne!(topic.public_id, other.public_id);
    assert_eq!(topic.as_hex(), hex::encode(topic.hash));
    assert_eq!(topic.as_hex().len(), 64);
    assert_eq!(topic.duplicate(), topic);
}

fn announced(key: u8) -> AnnounceAddress {
    AnnounceAddress {
        public_key: PeerId::new([key; 32]),
        connection_details: PeerConnectionDetails::NoNat(v4([10, 0, 0, key], 4000)),
    }
}

#[test]
fn announcements_over_mqtt() {
    let topic = Topic::new("boop".to_string());
    let mut state = MqttState::new();
    let id = state.next_packet_id();
    assert_eq!(id, 10);
    assert_eq!(state.join(topic.duplicate(), Some(vec![1, 2]), true), None);
    let subscribed = state.suback(id, true);
    assert_eq!(subscribed.reply, Some(true));
    assert_eq!(subscribed.publish, Some(vec![1, 2]));

    let channel = channel_name(&topic);
    let message = topic.encrypt(b"hello");
    match state.publish_received(&channel, &message) {
        Received::Announcement { topic, message } => {
            assert_eq!(topic, "boop");
            assert_eq!(message, b"hello".to_vec());
        }
        other => panic!("unexpected {other:?}"),
    }
    assert!(matches!(state.publish_received(&channel, &message), Received::AlreadySeen));
    assert!(matches!(
        state.publish_received("elsewhere", &topic.encrypt(b"hello")),
        Received::UnknownTopic
    ));
    assert!(matches!(
        state.publish_received(&channel, b"nonsense"),
        Received::Undecryptable
    ));

    // A peer that we hear of gets our own announcement.
    assert_eq!(
        state.peer_announced("boop", &announced(2), &announced(1)),
        Some(vec![1, 2])
    );
    assert_eq!(state.peer_announced("boop", &announced(1), &announced(1)), None);
    assert_eq!(state.reconnected(), vec![channel]);

    let id = state.next_packet_id();
    assert_eq!(state.leave(&topic, true), None);
    assert_eq!(state.unsuback(id), Some(true));
}

#[test]
fn packets_for_an_mqtt_server() {
    let topic = Topic::new("boop".to_string());
    let channel = channel_name(&topic);
    assert_eq!(channel.len(), 68);

    let subscribe = create_subscribe_packet(&topic, 0x0a0b);
    let mut expected = vec![0x82, 73, 0x0a, 0x0b, 0, 68];
    expected.extend_from_slice(channel.as_bytes());
    expected.push(0);
    assert_eq!(subscribe, expected);
    assert_eq!(create_resubscribe_packet(vec![channel.clone()])[2..4], [0, 2]);

    let unsubscribe = create_unsubscribe_packet(&topic, 7);
    let mut expected = vec![0xa2, 72, 0, 7, 0, 68];
    expected.extend_from_slice(channel.as_bytes());
    assert_eq!(unsubscribe, expected);

    let publish = match create_publish_packet(&topic, &announced(1)) {
        Ok(packet) => packet,
        Err(_) => panic!("cannot encode"),
    };
    // 70 bytes of the channel, 46 of the address, 16 of the tag and 8 of the nonce
    assert_eq!(publish[..5], [0x30, 128 + 12, 1, 0, 68]);
    assert_eq!(publish[5..73], *channel.as_bytes());
    let message = topic.decrypt(&publish[73..]).unwrap();
    match encode_announce_address(&announced(1)) {
        Ok(encoded) => assert_eq!(message, encoded),
        Err(_) => panic!("cannot encode"),
    }
    match MqttTopic::new(&topic, &announced(1)) {
        Ok(mqtt_topic) => assert_eq!(mqtt_topic.publish_packet.len(), publish.len()),
        Err(_) => panic!("cannot encode"),
    }
    match AnnouncePayload::new(topic.duplicate(), &announced(1)) {
        Ok(payload) => assert_eq!(topic.decrypt(&payload.payload), Some(message)),
        Err(_) => panic!("cannot encode"),
    }
}

#[test]
fn reconnecting_to_a_server() {
    assert_eq!(reconnect_step(true, true), ReconnectStep::Resubscribe);
    assert_eq!(reconnect_step(false, true), ReconnectStep::Retry);
    assert_eq!(reconnect_step(false, false), ReconnectStep::Stop);
}

#[test]
fn announcements_over_waku() {
    let topic = Topic::new("boop".to_string());
    let mut state = WakuState::new();
    assert!(state.join(topic.duplicate(), Some(vec![1, 2])));
    let content = content_topic(&topic);
    let messages = state.subscribed(DEFAULT_PUBSUB_TOPIC);
    assert_eq!(messages.len(), 1);
    assert_eq!(messages[0].content_topic, content);
    assert_eq!(messages[0].payload, vec![1, 2]);
    assert_eq!(state.hello(&content).unwrap().payload, vec![1, 2]);

    let message = topic.encrypt(b"hello");
    assert!(matches!(
        state.message_received(&content, &message),
        Received::Announcement { .. }
    ));
    assert!(matches!(state.message_received(&content, &message), Received::AlreadySeen));
    state.leave(&topic);
    assert!(state.hello(&content).is_none());
}

#[test]
fn topics_are_remembered() {
    let topic = Topic::new("boop".to_string());
    let other = Topic::new("something else".to_string());
    let mut db = TopicsDb::new();
    let joined = db.join(&topic, vec![1, 2]);
    let left = db.leave(&other);
    assert_eq!(joined.1, vec![1]);
    assert_eq!(left.1, vec![0]);
    let topics = db.get_topics(&vec![joined, left]);
    assert_eq!(topics.len(), 2);
    assert_eq!(topics[0].name, "boop");
    assert!(topics[0].connected);
    assert_eq!(topics[0].announce_payload, Some(vec![1, 2]));
    assert_eq!(topics[1].name, "something else");
    assert!(!topics[1].connected);
    assert_eq!(topics[1].announce_payload, None);
}

#[test]
fn mdns_test_mdns() {
    let alice_socket_address = v4([192, 168, 0, 2], 1234);
    let bob_socket_address = v4([192, 168, 0, 2], 5678);
    let (alice, bob) = ("192.168.0.2:1234", "192.168.0.2:5678");
    let topics = vec![Topic::new("foo".to_string())];
    let service =
        create_service_info(&topics, "alice", &alice_socket_address, alice, &[0; 32]).unwrap();
    let values: Vec<String> = service.properties.iter().map(|(_, value)| value.clone()).collect();
    let (found, capabilities) =
        parse_peer_info(&service.service_type, &values, &vec![service.ip], service.port).unwrap();
    let token = try_topics(&topics, &capabilities, alice);
    match handle_found_peer(&bob_socket_address, bob, found, alice, token) {
        FoundPeer::Connect { addr, token } => {
            assert_eq!(addr, alice_socket_address);
            assert_eq!(token, [0; 32]);
        }
        other => panic!("unexpected {other:?}"),
    }
    assert!(matches!(
        handle_found_peer(&alice_socket_address, alice, bob_socket_address, bob, Some([1; 32])),
        FoundPeer::Await { token: [1, ..] }
    ));
    assert!(matches!(
        handle_found_peer(&alice_socket_address, alice, found, alice, token),
        FoundPeer::Ourself
    ));
    assert_eq!(try_topics(&vec![Topic::new("bar".to_string())], &capabilities, alice), None);
    assert!(matches!(
        handle_found_peer(&bob_socket_address, bob, found, alice, None),
        FoundPeer::UnknownTopic
    ));
}

#[test]
fn peers_of_the_local_network() {
    assert_eq!(parse_port("1234"), Some(1234));
    assert_eq!(parse_port("+1234"), Some(1234));
    assert_eq!(parse_port("65536"), None);
    assert_eq!(parse_port(""), None);
    assert_eq!(parse_port("12a"), None);
    let address = Some(u32::from_be_bytes([192, 168, 0, 2]));
    let kind = "_hdp._udp.local.";
    let topic = Some("foo".to_string());
    let port = Some("1234".to_string());
    let info = MdnsPeerInfo::new(kind, topic.clone(), address, &port).unwrap();
    assert_eq!(info.addr, v4([192, 168, 0, 2], 1234));
    assert_eq!(
        MdnsPeerInfo::new("_x._udp.local.", topic.clone(), address, &port).unwrap_err(),
        MdnsPeerError::ServiceType
    );
    assert_eq!(
        MdnsPeerInfo::new(kind, None, address, &port).unwrap_err(),
        MdnsPeerError::NoTopic
    );
    assert_eq!(
        MdnsPeerInfo::new(kind, topic.clone(), None, &port).unwrap_err(),
        MdnsPeerError::NoIp
    );
    assert_eq!(
        MdnsPeerInfo::new(kind, topic.clone(), address, &None).unwrap_err(),
        MdnsPeerError::NoPort
    );
    assert_eq!(
        MdnsPeerInfo::new(kind, topic, address, &Some("x".to_string())).unwrap_err(),
        MdnsPeerError::BadPort
    );
    let ours = v4([192, 168, 0, 2], 5678);
    assert!(info.should_connect("foo", &ours, "192.168.0.2:5678", "192.168.0.2:1234"));
    assert!(!info.should_connect("bar", &ours, "192.168.0.2:5678", "192.168.0.2:1234"));
}

#[test]
fn services_follow_the_topics() {
    let mut state = TopicMdnsState::new();
    state.join(Topic::new("foo".to_string()));
    match state.service_created(Some("first".to_string())) {
        ServiceStep::Register { unregister } => assert_eq!(unregister, None),
        other => panic!("unexpected {other:?}"),
    }
    state.join(Topic::new("bar".to_string()));
    match state.service_created(Some("second".to_string())) {
        ServiceStep::Register { unregister } => assert_eq!(unregister, Some("first".to_string())),
        other => panic!("unexpected {other:?}"),
    }
    state.leave(&Topic::new("foo".to_string()));
    assert_eq!(state.topics.len(), 1);
}
