use harddrive_party::cli::{
    display_peer, get_data_dir, get_home_dir, path_to_peer_path, resolve_peer_from,
    ui_socket_address, EnvVar,
};
use harddrive_party::frames::{
    check_fully_read, create_length_prefixed_message, process_length_prefix, LengthPrefixedStream,
    StreamInput, StreamOutput,
};
use harddrive_party::peer_id::PeerId;
use harddrive_party::protocol::{
    create_handshake, create_handshake_response, with_handshake, Content, Event, HandshakeError,
    IdleStep, PeerConnectionError, Protocol, RequestMessage, ResponseMessage,
};
use harddrive_party::run::{handle_event, ls, ls_entries, read_file, to_hex_string, RunStep};
use harddrive_party::ui_messages::PeerInfo;
use harddrive_party::wire_messages::{Entry, IndexQuery};

fn listing() -> RequestMessage {
    RequestMessage::Ls(IndexQuery { path: None, searchterm: None, recursive: true })
}

#[test]
fn basic_protocol() {
    let mut a = Protocol::new([1; 32], true);
    let mut b = Protocol::new([2; 32], false);

    let request = a.request(listing());
    let handshake = match a.idle() {
        IdleStep::Handshake(message) => message,
        other => panic!("unexpected {other:?}"),
    };
    assert!(matches!(b.idle(), IdleStep::Wait));

    let step = b.handle_message(handshake);
    assert!(matches!(step.event, Some(Ok(Event::HandshakeRequest))));
    let step = a.handle_message(step.reply.unwrap());
    assert!(matches!(step.event, Some(Ok(Event::HandshakeResponse))));
    assert_eq!(a.remote_pk, Some([2; 32]));
    assert_eq!(b.remote_pk, Some([1; 32]));
    assert!(matches!(a.idle(), IdleStep::WriteOutbound));

    let step = b.handle_message(request);
    let id = match step.event {
        Some(Ok(Event::Request(message, id))) => {
            assert_eq!(message, listing());
            id
        }
        other => panic!("unexpected {other:?}"),
    };
    let entry = Entry { name: "somefile".to_string(), size: 1000, is_dir: false };
    let response = b.respond(ResponseMessage::Ls(vec![entry.clone()]), id);
    let step = a.handle_message(response);
    assert!(matches!(step.event, Some(Ok(Event::Responded))));
    let (to, delivered) = step.deliver.unwrap();
    assert_eq!(to, id);
    assert_eq!(delivered.message, ResponseMessage::Ls(vec![entry]));
    assert_eq!(delivered.public_key, [2; 32]);

    let end = b.respond(ResponseMessage::EndResponse, id);
    assert_eq!(a.handle_message(end).close, Some(id));
}

#[test]
fn requests_before_the_handshake_end_the_connection() {
    let mut a = Protocol::new([1; 32], true);
    let mut b = Protocol::new([2; 32], false);
    let request = a.request(listing());
    let step = b.handle_message(request);
    assert!(matches!(step.event, Some(Err(_))));
}

#[test]
fn handshakes_carry_the_key() {
    match create_handshake([3; 32]) {
        RequestMessage::Handshake(handshake) => assert_eq!(handshake.token, vec![3; 32]),
        other => panic!("unexpected {other:?}"),
    }
    match create_handshake_response([4; 32]) {
        ResponseMessage::Handshake(handshake) => assert_eq!(handshake.token, vec![4; 32]),
        other => panic!("unexpected {other:?}"),
    }
    assert_eq!(with_handshake(&Some(Ok(Event::HandshakeRequest))), Ok(()));
    assert_eq!(with_handshake(&Some(Ok(Event::HandshakeResponse))), Ok(()));
    assert_eq!(
        with_handshake(&Some(Ok(Event::Responded))),
        Err(HandshakeError::BadHandshake)
    );
    assert_eq!(with_handshake(&None), Err(HandshakeError::BadHandshake));
}

#[test]
fn messages_without_content_are_refused() {
    let mut a = Protocol::new([1; 32], true);
    let mut b = Protocol::new([2; 32], false);
    let handshake = match a.idle() {
        IdleStep::Handshake(message) => message,
        other => panic!("unexpected {other:?}"),
    };
    let mut reply = b.handle_message(handshake).reply.unwrap();
    reply.content = Content::Nothing;
    assert!(matches!(a.handle_message(reply).event, Some(Err(_))));
    let mut c = Protocol::new([1; 32], true);
    assert_eq!(c.connection_failed(), PeerConnectionError::ConnectionError);
}

fn messages_of(chunks: Vec<Vec<u8>>) -> Vec<Vec<u8>> {
    let mut stream = LengthPrefixedStream::new();
    let mut found = Vec::new();
    for chunk in chunks {
        if let StreamOutput::Message(message) = stream.poll_next(StreamInput::Chunk(chunk)) {
            found.push(message);
        }
        while let Some(message) = stream.take_message() {
            found.push(message);
        }
    }
    found
}

#[test]
fn frames_come_back_whatever_the_chunks() {
    assert_eq!(create_length_prefixed_message(b"abc"), vec![0, 0, 0, 3, b'a', b'b', b'c']);
    let mut bytes = create_length_prefixed_message(b"abc");
    bytes.extend(create_length_prefixed_message(b""));
    bytes.extend(create_length_prefixed_message(b"hello"));
    let expected = vec![b"abc".to_vec(), vec![], b"hello".to_vec()];
    assert_eq!(messages_of(vec![bytes.clone()]), expected);
    assert_eq!(messages_of(bytes.iter().map(|byte| vec![*byte]).collect()), expected);
}

#[test]
fn streams_end_and_fail() {
    let mut stream = LengthPrefixedStream::new();
    assert!(matches!(stream.poll_next(StreamInput::Chunk(vec![1])), StreamOutput::Pending));
    assert!(matches!(
        stream.poll_next(StreamInput::Failure("broken".to_string())),
        StreamOutput::Failed(_)
    ));
    let mut stream = LengthPrefixedStream::new();
    assert!(matches!(stream.poll_next(StreamInput::End), StreamOutput::Finished));
}

#[test]
fn length_prefixes_are_limited() {
    assert_eq!(process_length_prefix(&1048576u32.to_be_bytes()), Ok(1048576));
    assert!(process_length_prefix(&1048577u32.to_be_bytes()).is_err());
    assert_eq!(check_fully_read(5, 5), Ok(()));
    assert!(check_fully_read(4, 5).is_err());
}

#[test]
fn selector_rejects_ambiguous_names_but_full_ids_work() {
    let first = PeerInfo {
        id: PeerId::new([1; 32]),
        name: "sameAnimal".to_string(),
    };
    let second = PeerInfo {
        id: PeerId::new([2; 32]),
        name: "sameAnimal".to_string(),
    };
    let peers = vec![first.clone(), second.clone()];

    let message = resolve_peer_from(peers.clone(), "sameAnimal").unwrap_err();
    assert!(message.contains("ambiguous"));
    assert!(message.contains(&first.id.to_string()));
    assert!(message.contains(&second.id.to_string()));

    assert_eq!(
        resolve_peer_from(peers, &second.id.to_string()).unwrap(),
        second
    );
}

#[test]
fn selector_names_are_exact_and_case_sensitive() {
    let peer = PeerInfo {
        id: PeerId::new([3; 32]),
        name: "CaseSensitiveCat".to_string(),
    };
    assert!(resolve_peer_from(vec![peer.clone()], "casesensitivecat").is_err());
    assert_eq!(
        resolve_peer_from(vec![peer.clone()], "CaseSensitiveCat").unwrap(),
        peer
    );
}

#[test]
fn unknown_selectors_are_quoted() {
    let message = resolve_peer_from(vec![], "a\"b").unwrap_err();
    assert!(message.contains("\"a\\\"b\""));
}

#[test]
fn peers_are_shown_by_name_and_id() {
    let peer = PeerInfo { id: PeerId::new([0; 32]), name: "cat".to_string() };
    let shown = display_peer(&peer);
    assert!(shown.contains("cat"));
    assert!(shown.contains("AAAAAAAA"));
}

#[test]
fn paths_name_peers() {
    assert_eq!(
        path_to_peer_path("cat/share/a"),
        (Some("cat".to_string()), "share/a".to_string())
    );
}

#[test]
fn directories_of_the_user() {
    let set = |text: &str| EnvVar::Text(text.to_string());
    assert_eq!(get_home_dir(&set("/home/a"), &EnvVar::Unset), Ok("/home/a".to_string()));
    assert_eq!(get_home_dir(&EnvVar::Unset, &set("a")), Ok("/home/a".to_string()));
    assert!(get_home_dir(&EnvVar::Unset, &EnvVar::Unset).is_err());
    assert!(get_home_dir(&EnvVar::NotUnicode, &EnvVar::Unset).is_err());
    assert_eq!(
        get_data_dir(&set("/data"), &set("/home/a"), &EnvVar::Unset),
        Ok("/data".to_string())
    );
    assert_eq!(
        get_data_dir(&EnvVar::Unset, &set("/home/a"), &EnvVar::Unset),
        Ok("/home/a/.local/share".to_string())
    );
    assert_eq!(ui_socket_address("http://127.0.0.1:3030"), "127.0.0.1:3030");
}

#[test]
fn run() {
    let key = [0xab; 32];
    let name = to_hex_string(&key);
    assert_eq!(name, "abab");

    // Top level recursive query
    let entries = vec![
        Entry { name: "".to_string(), size: 17, is_dir: true },
        Entry { name: "test-data".to_string(), size: 17, is_dir: true },
    ];
    let expected: Vec<Entry> = entries
        .iter()
        .map(|e| Entry { name: format!("{}/{}", name, e.name), size: e.size, is_dir: e.is_dir })
        .collect();
    assert_eq!(ls_entries(&key, &entries, false, true), expected);

    // Top level non-recursive query
    assert_eq!(
        ls_entries(&key, &entries, false, false),
        vec![Entry { name: format!("{}/", name), size: 17, is_dir: true }]
    );

    let (peer, query) = read_file(&format!("{}/test-data/somefile", name)).unwrap();
    assert_eq!(peer, name);
    assert_eq!(query.path, "test-data/somefile");

    let (peer, query) = ls(None, None, true);
    assert_eq!(peer, None);
    assert_eq!(query, IndexQuery { path: None, searchterm: None, recursive: true });
}

#[test]
fn events_of_a_peer() {
    match handle_event(Some(Ok(Event::Request(listing(), 5)))) {
        RunStep::HandleRequest(request) => {
            assert_eq!(request.id, 5);
            assert_eq!(request.message, listing());
        }
        other => panic!("unexpected {other:?}"),
    }
    assert!(matches!(handle_event(Some(Ok(Event::Responded))), RunStep::Continue));
    assert!(matches!(handle_event(None), RunStep::Continue));
    assert!(matches!(
        handle_event(Some(Err(PeerConnectionError::ConnectionError))),
        RunStep::Stop
    ));
}
