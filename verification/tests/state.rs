use ed25519_dalek::{Signer, SigningKey};
use harddrive_party::announce_address::{AnnounceAddress, PeerConnectionDetails};
use harddrive_party::connections::certificate::{
    certificate_owner, certificate_to_name, decide_certificate, generate_certificate,
    verify_certificate, Accepted, CertificateContents, CertificateError,
};
use harddrive_party::connections::discovery::traversal::{
    handle_peer_announcement, DiscoveryMethod, PeerStep,
};
use harddrive_party::errors::UiServerErrorWrapper;
use harddrive_party::hdp::{
    add_share_responses, command_outcome, download_response, read_response, remove_share_responses,
    requested_files_responses, requests_responses, shares_responses, CommandStep,
    HandleUiCommandError, Hdp, LsAnswer,
};
use harddrive_party::net::SocketAddr;
use harddrive_party::peer_id::PeerId;
use harddrive_party::shared_state::{
    Admission, AnnouncementOutcome, IdentityError, RequestError, SharedState,
};
use harddrive_party::shares::{EntryParseError, ScanDirError};
use harddrive_party::time::Duration;
use harddrive_party::ui_messages::{
    Command, DownloadStatus, PeerInfo, PeerPath, UiClientMessage, UiEvent, UiResponse, UiServerError,
    UiServerMessage,
};
use harddrive_party::wire_messages::{
    AnnouncePeer, Entry, IndexQuery, LsResponse, LsResponseError, ReadQuery,
};

fn signing_key(seed: u8) -> SigningKey {
    SigningKey::from_bytes(&[seed; 32])
}

fn id_of(seed: u8) -> PeerId {
    PeerId::new(signing_key(seed).verifying_key().to_bytes())
}

fn v4(octets: [u8; 4], port: u16) -> SocketAddr {
    SocketAddr::V4 { ip: u32::from_be_bytes(octets), port }
}

fn address_of(seed: u8) -> AnnounceAddress {
    AnnounceAddress {
        public_key: id_of(seed),
        connection_details: PeerConnectionDetails::NoNat(v4([127, 0, 0, seed], 4000)),
    }
}

fn announcement_of(seed: u8) -> AnnouncePeer {
    let announce_address = address_of(seed);
    let bytes = match AnnouncePeer::signing_bytes(&announce_address) {
        Ok(bytes) => bytes,
        Err(_) => panic!("cannot encode"),
    };
    AnnouncePeer {
        announce_address,
        signature: signing_key(seed).sign(&bytes).to_bytes(),
    }
}

fn state_of(seed: u8) -> SharedState {
    SharedState::new(id_of(seed), address_of(seed), announcement_of(seed), Some("/home/a".to_string()))
}

/// The state of a peer which has found another and heard its announcement.
fn connected(us: u8, them: u8, connection: u64) -> SharedState {
    let mut state = state_of(us);
    assert!(matches!(
        state.accept_connection(connection, id_of(them), Some(address_of(them)), false),
        Admission::Admitted { .. }
    ));
    assert!(matches!(
        state.handle_announcement(id_of(them), announcement_of(them)),
        AnnouncementOutcome::Relay(_)
    ));
    state
}

#[test]
fn both_connection_directions_exchange_signed_self_announcements() {
    let alice = connected(1, 2, 7);
    let bob = connected(2, 1, 8);
    let heard = alice.peers.get(&id_of(2)).unwrap().announcement.unwrap();
    assert_eq!(heard.peer_id(), id_of(2));
    assert!(heard.verify());
    assert_eq!(heard, bob.self_announcement);
    let heard = bob.peers.get(&id_of(1)).unwrap().announcement.unwrap();
    assert_eq!(heard, alice.self_announcement);
}

#[test]
fn our_own_announcement_is_signed() {
    let ours = generate_certificate().unwrap();
    let (_, id) = certificate_to_name(&ours.certificate).unwrap();
    let details = address_of(1).connection_details;
    let mut state = match SharedState::with_private_key(id, details, &ours.private_key, None) {
        Ok(state) => state,
        Err(error) => panic!("{}", error.to_string()),
    };
    for (connection, peer) in [(7, id_of(2)), (8, id_of(3))] {
        match state.accept_connection(connection, peer, None, false) {
            Admission::Admitted { own, .. } => {
                assert_eq!(own.peer_id(), id);
                assert_eq!(own.announce_address.connection_details, details);
                assert!(own.verify());
            }
            other => panic!("unexpected {other:?}"),
        }
    }
    assert_eq!(state.id, id);
    assert_eq!(state.announce_address, state.self_announcement.announce_address);

    let wrong = SharedState::with_private_key(id_of(2), details, &ours.private_key, None);
    assert_eq!(wrong.err(), Some(IdentityError::WrongKey));
    let unreadable = SharedState::with_private_key(id, details, b"no key", None);
    assert_eq!(unreadable.err(), Some(IdentityError::UnreadableKey));
    assert_eq!(IdentityError::WrongKey.to_string(), "Certificate is not for our key");
    assert_eq!(IdentityError::UnreadableKey.to_string(), "Cannot read our private key");
}

#[test]
fn invalid_third_party_gossip_is_dropped_without_closing_connection() {
    let mut alice = connected(1, 2, 7);
    let forged_id = PeerId::new([88; 32]);
    let forged = AnnouncePeer {
        announce_address: AnnounceAddress {
            public_key: forged_id,
            connection_details: PeerConnectionDetails::NoNat(v4([203, 0, 113, 88], 7088)),
        },
        signature: [0; 64],
    };
    assert!(!forged.verify());
    assert!(matches!(
        alice.handle_announcement(id_of(2), forged),
        AnnouncementOutcome::Dropped
    ));
    assert!(!alice.verified_announcements.contains_key(&forged_id));
    assert!(alice.peers.contains_key(&id_of(2)));
}

#[test]
fn first_announcement_has_to_be_the_senders_own() {
    let mut alice = state_of(1);
    assert!(matches!(
        alice.handle_announcement(id_of(2), announcement_of(2)),
        AnnouncementOutcome::Dropped
    ));
    alice.accept_connection(7, id_of(2), None, false);
    assert!(matches!(
        alice.handle_announcement(id_of(2), announcement_of(3)),
        AnnouncementOutcome::Close
    ));
    let mut forged = announcement_of(2);
    forged.signature[0] ^= 1;
    assert!(matches!(
        alice.handle_announcement(id_of(2), forged),
        AnnouncementOutcome::Close
    ));
}

#[test]
fn gossiped_peer_connection() {
    let mut bob = connected(2, 1, 7);
    let mut alice = connected(1, 2, 7);

    // Bob hears of Carol, and Alice is told.
    match bob.accept_connection(8, id_of(3), None, false) {
        Admission::Admitted { replaced, own, announcements, event } => {
            assert_eq!(replaced, None);
            assert_eq!(own, announcement_of(2));
            assert_eq!(announcements, vec![(id_of(1), announcement_of(1))]);
            assert_eq!(event, UiEvent::PeerConnected { peer: PeerInfo::from_id(id_of(3)) });
        }
        other => panic!("unexpected {other:?}"),
    }
    match bob.handle_announcement(id_of(3), announcement_of(3)) {
        AnnouncementOutcome::Relay(to) => assert_eq!(to, vec![(id_of(1), 7)]),
        other => panic!("unexpected {other:?}"),
    }
    let found = match alice.handle_announcement(id_of(2), announcement_of(3)) {
        AnnouncementOutcome::Discovered(found) => found,
        other => panic!("unexpected {other:?}"),
    };
    assert_eq!(found.discovery_method, DiscoveryMethod::Gossip);
    assert_eq!(found.announce_address, address_of(3));
}

#[test]
fn disconnect_peer_suppresses_reconnect_until_explicit_connect() {
    let mut bob = connected(2, 1, 7);
    assert_eq!(bob.disconnect_peer(&id_of(1)).unwrap(), 7);
    let lost = bob.connection_lost(&id_of(1), 7, "closed");
    assert_eq!(lost.reconnect, None);
    assert_eq!(
        lost.event,
        Some(UiEvent::PeerDisconnected {
            peer: PeerInfo::from_id(id_of(1)),
            error: "closed".to_string(),
        })
    );
    assert!(!bob.peers.contains_key(&id_of(1)), "Peer reconnected after intentional disconnect");
    match bob.accept_connection(8, id_of(1), None, false) {
        Admission::Refused(reason) => assert_eq!(reason, "manually disconnected"),
        other => panic!("unexpected {other:?}"),
    }

    let request_err = bob.request(&id_of(1)).unwrap_err();
    assert!(matches!(request_err, RequestError::PeerNotFound));
    assert!(bob.disconnect_peer(&id_of(1)).is_err());

    bob.connect_to_peer(address_of(1)).unwrap();
    bob.connect_requested(&id_of(1), Ok(())).unwrap();
    assert!(matches!(
        bob.accept_connection(8, id_of(1), Some(address_of(1)), false),
        Admission::Admitted { .. }
    ));
    assert_eq!(bob.request(&id_of(1)).unwrap(), 8);
}

#[test]
fn duplicate_outbound_connect_announcements_are_deduplicated_while_retrying() {
    let mut alice = state_of(1);
    let unreachable_peer = PeerId::new([43; 32]);
    assert!(alice.begin_outbound(&unreachable_peer));
    assert!(!alice.begin_outbound(&unreachable_peer));
    assert!(!alice.begin_outbound(&unreachable_peer));
    assert_eq!(
        alice.pending_outbound_connections.len(),
        1,
        "expected only one pending outbound connect task after duplicate announcements"
    );
    assert!(
        alice.pending_outbound_connections.contains_key(&unreachable_peer),
        "expected duplicate announcements to keep exactly one pending outbound connect"
    );
    let failure = UiServerErrorWrapper(UiServerError::ConnectionError("timed out".to_string()));
    match alice.end_outbound(&unreachable_peer, Some(failure)) {
        Some(UiEvent::PeerConnectionFailed { peer, error }) => {
            assert_eq!(peer.id, unreachable_peer);
            assert_eq!(error, "Cannot connect: timed out");
        }
        other => panic!("unexpected {other:?}"),
    }
    assert!(alice.begin_outbound(&unreachable_peer));
}

#[test]
fn incoming_connections_are_processed_while_outbound_connect_retries() {
    let mut alice = state_of(1);
    let unreachable_peer = PeerId::new([42; 32]);
    assert!(alice.begin_outbound(&unreachable_peer));
    alice.accept_connection(7, id_of(2), None, false);
    assert!(alice.peers.contains_key(&id_of(2)));
    assert!(alice.pending_outbound_connections.contains_key(&unreachable_peer));
}

#[test]
fn failed_explicit_connect_does_not_set_manual_reconnect_state() {
    let mut bob = connected(2, 1, 7);
    let announced = bob.connect_to_peer(address_of(1)).unwrap();
    let step = handle_peer_announcement(
        true,
        &address_of(2),
        announced.announce_address,
        bob.peers.contains_key(&id_of(1)),
        announced.discovery_method,
    );
    let error = match step {
        PeerStep::Fail(error) => error,
        other => panic!("unexpected {other:?}"),
    };
    assert!(error.to_string().contains("Already connected to this peer"));
    assert!(bob.connect_requested(&id_of(1), Err(error)).is_err());
    assert!(
        !bob.manually_disconnected_peers.contains_key(&id_of(1)),
        "failed explicit connect should not leave manual reconnect state behind"
    );
}

#[test]
fn failed_explicit_connect_does_not_block_future_auto_reconnect() {
    let mut bob = connected(2, 1, 7);
    let error = UiServerErrorWrapper(UiServerError::PeerDiscovery(
        "Already connected to this peer".to_string(),
    ));
    assert!(bob.connect_requested(&id_of(1), Err(error)).is_err());
    let lost = bob.connection_lost(&id_of(1), 7, "test disconnect");
    assert_eq!(lost.reconnect, Some(address_of(1)));
}

#[test]
fn a_replaced_connection_is_not_reported() {
    let mut bob = connected(2, 1, 7);
    match bob.accept_connection(8, id_of(1), None, true) {
        Admission::Refused(reason) => assert_eq!(reason, "duplicate connection"),
        other => panic!("unexpected {other:?}"),
    }
    match bob.accept_connection(8, id_of(1), None, false) {
        Admission::Admitted { replaced, .. } => assert_eq!(replaced, Some(7)),
        other => panic!("unexpected {other:?}"),
    }
    assert_eq!(bob.connection_lost(&id_of(1), 7, "closed").event, None);
    assert_eq!(bob.request(&id_of(1)).unwrap(), 8);
}

#[test]
fn an_unexpected_key_is_refused() {
    let mut bob = state_of(2);
    match bob.accept_connection(8, id_of(3), Some(address_of(1)), false) {
        Admission::Refused(reason) => assert_eq!(reason, "unexpected public key"),
        other => panic!("unexpected {other:?}"),
    }
    let error = UiServerErrorWrapper(UiServerError::ConnectionError("no".to_string()));
    assert_eq!(bob.incoming_failed(&None, &error), None);
    match bob.incoming_failed(&Some(address_of(1)), &error) {
        Some(UiEvent::PeerConnectionFailed { peer, .. }) => assert_eq!(peer.id, id_of(1)),
        other => panic!("unexpected {other:?}"),
    }
}

#[test]
fn no_connections_while_shutting_down() {
    let mut bob = connected(2, 1, 7);
    assert_eq!(bob.shut_down(), vec![(id_of(1), 7)]);
    let error = bob.connect_to_peer(address_of(3)).unwrap_err();
    assert_eq!(error.to_string(), "Cannot connect: Shutting down; not connecting to peer");
    assert_eq!(bob.connection_lost(&id_of(1), 7, "closed").reconnect, None);
}

#[test]
fn what_is_shown_of_us() {
    let alice = state_of(1);
    let info = alice.get_info();
    assert_eq!(info.id, id_of(1));
    assert_eq!(info.name, key_to_animal::key_to_name(id_of(1).as_bytes()));
    assert_eq!(info.os_home_dir, Some("/home/a".to_string()));
    assert_eq!(
        AnnounceAddress::from_string(alice.get_ui_announce_address()),
        Ok(address_of(1))
    );
}

fn entry(name: &str) -> Entry {
    Entry { name: name.to_string(), size: 5, is_dir: false }
}

fn all_files() -> IndexQuery {
    IndexQuery { path: None, searchterm: None, recursive: true }
}

fn is_end(message: &UiServerMessage) -> bool {
    matches!(message, UiServerMessage::Response { response: Ok(UiResponse::EndResponse), .. })
}

fn command(hdp: &mut Hdp, command: Command) -> CommandStep {
    hdp.handle_command(UiClientMessage { id: 9, command })
}

#[test]
fn files_query_single_peer() {
    let mut bob = Hdp::new(connected(2, 1, 7));
    match command(&mut bob, Command::Ls(all_files(), Some(id_of(1)))) {
        CommandStep::Ls { messages, requests, remaining, .. } => {
            assert!(messages.is_empty());
            assert_eq!(requests, vec![id_of(1)]);
            assert_eq!(remaining, 1);
        }
        other => panic!("unexpected {other:?}"),
    }

    let mut answer = LsAnswer::new(9, id_of(1), all_files());
    let sent = answer.receive(LsResponse::Success(vec![entry("test-data/somefile")]));
    assert_eq!(
        sent,
        UiServerMessage::Response {
            id: 9,
            response: Ok(UiResponse::Ls(
                LsResponse::Success(vec![entry("test-data/somefile")]),
                PeerInfo::from_id(id_of(1)),
            )),
        }
    );
    answer.receive(LsResponse::Error(LsResponseError::DbError));
    let (left, end) = bob.finish_ls(answer, 1);
    assert_eq!(left, 0);
    assert!(is_end(&end.unwrap()));

    // The same query is now answered from the cache.
    match command(&mut bob, Command::Ls(all_files(), None)) {
        CommandStep::Ls { messages, requests, remaining, .. } => {
            assert_eq!(remaining, 0);
            assert!(requests.is_empty());
            assert_eq!(messages.len(), 2);
            assert_eq!(messages[0], sent);
            assert!(is_end(&messages[1]));
        }
        other => panic!("unexpected {other:?}"),
    }
}

#[test]
fn unknown_peers_are_refused() {
    let mut bob = Hdp::new(connected(2, 1, 7));
    let refused = |message: &UiServerMessage| {
        matches!(
            message,
            UiServerMessage::Response { response: Err(UiServerError::RequestError(_)), .. }
        )
    };
    match command(&mut bob, Command::Ls(all_files(), Some(id_of(3)))) {
        CommandStep::Ls { messages, requests, .. } => {
            assert_eq!(messages.len(), 1);
            assert!(refused(&messages[0]));
            assert!(requests.is_empty());
        }
        other => panic!("unexpected {other:?}"),
    }
    let read = ReadQuery { path: "a".to_string(), start: None, end: None };
    match command(&mut bob, Command::Read(read.clone(), id_of(3))) {
        CommandStep::Respond(message) => assert!(refused(&message)),
        other => panic!("unexpected {other:?}"),
    }
    match command(&mut bob, Command::Read(read, id_of(1))) {
        CommandStep::Read { peer, connection, .. } => {
            assert_eq!(peer, id_of(1));
            assert_eq!(connection, 7);
        }
        other => panic!("unexpected {other:?}"),
    }
}

#[test]
fn commands_of_the_user_interface() {
    let mut bob = Hdp::new(connected(2, 1, 7));
    let code = address_of(3).to_string();
    match command(&mut bob, Command::Connect(code)) {
        CommandStep::Connect(connect) => assert_eq!(connect.announce_address, address_of(3)),
        other => panic!("unexpected {other:?}"),
    }
    match command(&mut bob, Command::Connect("nonsense".to_string())) {
        CommandStep::Respond(UiServerMessage::Response { id, response }) => {
            assert_eq!(id, 9);
            let reason = "Type value is invalid".to_string();
            assert_eq!(response, Err(UiServerError::ConnectionError(reason)));
        }
        other => panic!("unexpected {other:?}"),
    }
    let path = PeerPath { peer: PeerInfo::from_id(id_of(1)), path: "share".to_string() };
    match command(&mut bob, Command::Download(path)) {
        CommandStep::Download { peer, connection, request_id, .. } => {
            assert_eq!(peer, id_of(1));
            assert_eq!(connection, 7);
            let path = PeerPath { peer: PeerInfo::from_id(id_of(1)), path: "share".to_string() };
            match command(&mut bob, Command::Download(path)) {
                CommandStep::Download { request_id: other, .. } => assert_ne!(request_id, other),
                other => panic!("unexpected {other:?}"),
            }
        }
        other => panic!("unexpected {other:?}"),
    }
    let path = PeerPath { peer: PeerInfo::from_id(id_of(1)), path: "../share".to_string() };
    assert!(matches!(command(&mut bob, Command::Download(path)), CommandStep::Respond(_)));
    assert!(matches!(command(&mut bob, Command::Requests), CommandStep::Requests));
    assert!(matches!(
        command(&mut bob, Command::RequestedFiles(3)),
        CommandStep::RequestedFiles(3)
    ));
    let close = command(&mut bob, Command::Close);
    assert!(matches!(close, CommandStep::Close));
    assert_eq!(command_outcome(&close, false), Ok(()));
    assert_eq!(
        command_outcome(&CommandStep::Requests, false),
        Err(HandleUiCommandError::ChannelClosed)
    );
    assert_eq!(command_outcome(&CommandStep::Requests, true), Ok(()));
}

#[test]
fn responses_of_the_user_interface() {
    let found = shares_responses(9, Ok(vec![LsResponse::Success(vec![entry("a")])]));
    assert_eq!(found.len(), 2);
    assert!(is_end(&found[1]));
    let not_found = shares_responses(9, Err(EntryParseError::PathNotFound));
    assert_eq!(
        not_found,
        vec![UiServerMessage::Response {
            id: 9,
            response: Err(UiServerError::RequestError(EntryParseError::PathNotFound.to_string())),
        }]
    );
    assert_eq!(requests_responses(9, Ok(vec![])).len(), 1);
    assert_eq!(requested_files_responses(9, Ok(vec![vec![]])).len(), 2);
    let failed = vec![UiServerMessage::Response {
        id: 9,
        response: Err(UiServerError::RequestError("disk is gone".to_string())),
    }];
    assert_eq!(requests_responses(9, Err("disk is gone".to_string())), failed);
    assert_eq!(requested_files_responses(9, Err("disk is gone".to_string())), failed);
    let added = add_share_responses(9, Ok(3));
    assert_eq!(
        added[0],
        UiServerMessage::Response { id: 9, response: Ok(UiResponse::AddShare(3)) }
    );
    assert!(is_end(added.last().unwrap()));
    let removed = remove_share_responses(9, Err(ScanDirError::ShareDirNotFound));
    assert_eq!(
        removed[0],
        UiServerMessage::Response {
            id: 9,
            response: Err(UiServerError::ShareError("Share dir does not exist in DB".to_string())),
        }
    );
    assert_eq!(
        read_response(9, Some(vec![1, 2])),
        UiServerMessage::Response { id: 9, response: Ok(UiResponse::Read(vec![1, 2])) }
    );
    assert!(is_end(&read_response(9, None)));
    match download_response(9, "share".to_string(), id_of(1), Duration { secs: 1, nanos: 0 }) {
        UiServerMessage::Response {
            id: 9,
            response: Ok(UiResponse::Download(DownloadStatus::Requested { path, peer, timestamp })),
        } => {
            assert_eq!(path, "share");
            assert_eq!(peer, PeerInfo::from_id(id_of(1)));
            assert_eq!(timestamp, Duration { secs: 1, nanos: 0 });
        }
        other => panic!("unexpected {other:?}"),
    }
}

/// A certificate that a peer signs itself.
fn certificate() -> (Vec<u8>, PeerId) {
    let mut params = rcgen::CertificateParams::new(vec!["peer".to_string()]);
    params.alg = &rcgen::PKCS_ED25519;
    let certificate = rcgen::Certificate::from_params(params).unwrap();
    let raw = certificate.get_key_pair().public_key_raw().to_vec();
    let key: [u8; 32] = raw.try_into().unwrap();
    (certificate.serialize_der().unwrap(), PeerId::new(key))
}

#[test]
fn certificates_name_their_owner() {
    let (der, id) = certificate();
    let (name, owner) = certificate_to_name(&der).unwrap();
    assert_eq!(owner, id);
    assert_eq!(name, key_to_animal::key_to_name(id.as_bytes()));

    assert_eq!(verify_certificate(&Accepted::Anyone, &der), Ok(id));
    assert_eq!(verify_certificate(&Accepted::Exactly(id), &der), Ok(id));
    assert_eq!(verify_certificate(&Accepted::Known(vec![id_of(1), id]), &der), Ok(id));
    assert!(verify_certificate(&Accepted::Exactly(id_of(1)), &der).is_err());
    assert_eq!(
        verify_certificate(&Accepted::Known(vec![id_of(1)]), &der),
        Err(CertificateError::UnknownIssuer)
    );
    assert_eq!(
        verify_certificate(&Accepted::Anyone, b"no certificate"),
        Err(CertificateError::BadEncoding)
    );

    let mut forged = der.clone();
    let last = forged.len() - 1;
    forged[last] ^= 1;
    assert!(verify_certificate(&Accepted::Anyone, &forged).is_err());
}

#[test]
fn certificates_that_are_refused() {
    let contents = |signature_verifies: bool, algorithm: &str, length: usize| {
        Some(CertificateContents {
            signature_verifies,
            algorithm: algorithm.to_string(),
            public_key: vec![5; length],
        })
    };
    assert_eq!(
        certificate_owner(contents(true, "1.3.101.112", 32)),
        Ok(PeerId::new([5; 32]))
    );
    assert_eq!(certificate_owner(None), Err(CertificateError::BadEncoding));
    assert_eq!(
        certificate_owner(contents(false, "1.3.101.112", 32)),
        Err(CertificateError::BadSignature)
    );
    assert_eq!(
        certificate_owner(contents(true, "1.2.840.113549.1.1.1", 32)),
        Err(CertificateError::BadEncoding)
    );
    assert_eq!(
        certificate_owner(contents(true, "1.3.101.112", 31)),
        Err(CertificateError::BadEncoding)
    );
    assert!(decide_certificate(
        &Accepted::Exactly(PeerId::new([6; 32])),
        contents(true, "1.3.101.112", 32)
    )
    .is_err());
}
