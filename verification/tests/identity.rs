use ed25519_dalek::{Signer, SigningKey};
use harddrive_party::announce_address::{AnnounceAddress, AnnounceAddressDecodeError, PeerConnectionDetails};
use harddrive_party::connections::certificate::{certificate_to_name, generate_certificate, new_certificate};
use harddrive_party::connections::config::our_certificate;
use harddrive_party::net::{IpAddr, SocketAddr};
use harddrive_party::peer_id::{PeerId, PeerIdParseError};
use harddrive_party::ui_messages::PeerInfo;
use harddrive_party::wire_messages::{encode_announce_address, AnnouncePeer};

fn v4(octets: [u8; 4]) -> u32 {
    u32::from_be_bytes(octets)
}

fn v4_socket(octets: [u8; 4], port: u16) -> SocketAddr {
    SocketAddr::V4 { ip: v4(octets), port }
}

/// 2001:db8:85a3::8a2e:370:7334
const V6: u128 = 0x2001_0db8_85a3_0000_0000_8a2e_0370_7334;

fn v6_socket(ip: u128, port: u16) -> SocketAddr {
    SocketAddr::V6 { ip, port, flowinfo: 0, scope_id: 0 }
}

#[test]
fn display_and_parse_round_trip() {
    let id = PeerId::new(std::array::from_fn(|i| i as u8));
    let encoded = id.to_string();
    assert_eq!(encoded.len(), PeerId::ENCODED_LENGTH);
    assert_eq!(encoded.parse(), Ok(id));
    assert!(!encoded.contains(['+', '/', '=']));
}

#[test]
fn rejects_bad_length_padding_and_alphabet() {
    assert_eq!("short".parse::<PeerId>(), Err(PeerIdParseError::BadLength));
    assert!(format!("{}=", PeerId::new([0; 32]).to_string())
        .parse::<PeerId>()
        .is_err());
    let mut invalid = PeerId::new([255; 32]).to_string();
    invalid.replace_range(..1, "+");
    assert!(invalid.parse::<PeerId>().is_err());
}

#[test]
fn identity_errors_say_what_is_wrong() {
    assert_eq!(
        PeerIdParseError::BadLength.to_string(),
        "peer ID must be exactly 43 base64url characters"
    );
    let mut invalid = PeerId::new([255; 32]).to_string();
    invalid.replace_range(..1, "+");
    match invalid.parse::<PeerId>() {
        Err(PeerIdParseError::Base64(error)) => assert!(!error.is_empty()),
        other => panic!("unexpected {other:?}"),
    }
}

#[test]
fn text_form_of_an_identity() {
    assert_eq!(PeerId::new([0; 32]).to_string(), "A".repeat(43));
    assert_eq!(PeerId::new([255; 32]).to_string(), format!("{}8", "_".repeat(42)));
    assert_eq!(PeerId::new([255; 32]).abbreviated(), "________");
}

#[test]
fn labels_are_derived_from_identities() {
    let zeros = PeerInfo::from_id(PeerId::new([0; 32]));
    let again = PeerInfo::from_id(PeerId::new([0; 32]));
    let ones = PeerInfo::from_id(PeerId::new([1; 32]));
    assert_eq!(zeros, again);
    assert_eq!(zeros.name, key_to_animal::key_to_name(&[0; 32]));
    assert_ne!(zeros.id, ones.id);
    assert!(!zeros.name.is_empty());
}

#[test]
fn announce_address_encoding() {
    let public_key = PeerId::new(std::array::from_fn(|i| i as u8));
    let announce_addresses = vec![
        // IPV4
        AnnounceAddress {
            connection_details: PeerConnectionDetails::NoNat(v4_socket([127, 0, 0, 1], 3000)),
            public_key,
        },
        AnnounceAddress {
            connection_details: PeerConnectionDetails::Symmetric(IpAddr::V4(v4([8, 8, 8, 8]))),
            public_key,
        },
        AnnounceAddress {
            connection_details: PeerConnectionDetails::Asymmetric(v4_socket([8, 8, 8, 8], 2000)),
            public_key,
        },
        // IPV6
        AnnounceAddress {
            connection_details: PeerConnectionDetails::NoNat(v6_socket(V6, 443)),
            public_key,
        },
        AnnounceAddress {
            connection_details: PeerConnectionDetails::Symmetric(IpAddr::V6(V6)),
            public_key,
        },
        AnnounceAddress {
            connection_details: PeerConnectionDetails::Asymmetric(v6_socket(V6, 443)),
            public_key,
        },
    ];

    for announce_address in announce_addresses {
        let string = announce_address.to_string();
        let announce_address_2 = AnnounceAddress::from_string(string).unwrap();
        assert_eq!(announce_address, announce_address_2);
    }
}

#[test]
fn malformed_and_legacy_codes_are_rejected_without_panicking() {
    let id = PeerId::new([7; 32]);
    let valid = AnnounceAddress {
        public_key: id,
        connection_details: PeerConnectionDetails::NoNat(v4_socket([127, 0, 0, 1], 3000)),
    }
    .to_string();
    for invalid in [
        String::new(),
        "amberCloudYakEJLLAHEK2".to_string(),
        format!("{}{}", &valid[..valid.len() - 1], "9"),
        format!("+{}", &valid[1..]),
        valid[..valid.len() - 1].to_string(),
        format!("{valid}x"),
    ] {
        assert!(AnnounceAddress::from_string(invalid).is_err());
    }
}

#[test]
fn announce_code_starts_with_the_identity() {
    let address = AnnounceAddress::from_string(
        "AAAAAAAAAAAAAAAAAAAAAAAAAAAAAAAAAAAAAAAAAAAG1/LAHFY0".to_string(),
    )
    .unwrap();
    assert_eq!(address.public_key, PeerId::new([0; 32]));
    assert_eq!(
        address.connection_details,
        PeerConnectionDetails::NoNat(v4_socket([203, 0, 113, 88], 7007))
    );
    assert_eq!(
        address.to_string(),
        "AAAAAAAAAAAAAAAAAAAAAAAAAAAAAAAAAAAAAAAAAAAG1/LAHFY0"
    );
}

#[test]
fn announce_code_errors() {
    let key = "A".repeat(43);
    assert_eq!(
        AnnounceAddress::from_string(String::new()),
        Err(AnnounceAddressDecodeError::BadLength)
    );
    assert_eq!(
        AnnounceAddress::from_string(format!("{key}G1/LAHFY9")),
        Err(AnnounceAddressDecodeError::UnrecognizedTypeValue)
    );
    assert_eq!(
        AnnounceAddress::from_string(format!("{key}G1/LAHFY!")),
        Err(AnnounceAddressDecodeError::ParseInt)
    );
    assert_eq!(
        AnnounceAddress::from_string(format!("{key}G1/LAHFY1")),
        Err(AnnounceAddressDecodeError::BadLength)
    );
    match AnnounceAddress::from_string(format!("{key}G1_LAHFY0")) {
        Err(AnnounceAddressDecodeError::Base64(_)) => {}
        other => panic!("unexpected {other:?}"),
    }
    match AnnounceAddress::from_string(format!("+{}G1/LAHFY0", "A".repeat(42))) {
        Err(AnnounceAddressDecodeError::PublicKey(_)) => {}
        other => panic!("unexpected {other:?}"),
    }
}

#[test]
fn connection_details_in_words() {
    let no_nat = PeerConnectionDetails::NoNat(v4_socket([127, 0, 0, 1], 3000));
    assert_eq!(no_nat.describe("127.0.0.1"), "127.0.0.1:3000 No NAT");
    let asymmetric = PeerConnectionDetails::Asymmetric(v4_socket([8, 8, 8, 8], 2000));
    assert_eq!(asymmetric.describe("8.8.8.8"), "8.8.8.8:2000 Asymmetric NAT");
    let symmetric = PeerConnectionDetails::Symmetric(IpAddr::V4(v4([8, 8, 8, 8])));
    assert_eq!(symmetric.describe("8.8.8.8"), "8.8.8.8 Symmetric NAT");
    assert_eq!(symmetric.port(), None);
}

fn signed(address: AnnounceAddress, key: &SigningKey) -> AnnouncePeer {
    let bytes = match AnnouncePeer::signing_bytes(&address) {
        Ok(bytes) => bytes,
        Err(_) => panic!("cannot encode"),
    };
    AnnouncePeer {
        announce_address: address,
        signature: key.sign(&bytes).to_bytes(),
    }
}

#[test]
fn verifies_and_rejects_tampering_wrong_key_and_missing_domain() {
    let key = SigningKey::from_bytes(&[3; 32]);
    let other_key = SigningKey::from_bytes(&[4; 32]);
    let address = AnnounceAddress {
        public_key: PeerId::new(key.verifying_key().to_bytes()),
        connection_details: PeerConnectionDetails::NoNat(v4_socket([127, 0, 0, 1], 4000)),
    };
    let announcement = signed(address, &key);
    assert!(announcement.verify());

    let mut changed_address = announcement;
    changed_address.announce_address.connection_details =
        PeerConnectionDetails::NoNat(v4_socket([127, 0, 0, 1], 4001));
    assert!(!changed_address.verify());

    let mut changed_signature = announcement;
    changed_signature.signature[0] ^= 1;
    assert!(!changed_signature.verify());

    let wrong_key_address = AnnounceAddress {
        public_key: PeerId::new(other_key.verifying_key().to_bytes()),
        ..address
    };
    assert!(!AnnouncePeer {
        announce_address: wrong_key_address,
        signature: announcement.signature,
    }
    .verify());

    let encoded = match encode_announce_address(&address) {
        Ok(encoded) => encoded,
        Err(_) => panic!("cannot encode"),
    };
    let no_domain_signature = key.sign(&encoded).to_bytes();
    assert!(!AnnouncePeer {
        announce_address: address,
        signature: no_domain_signature,
    }
    .verify());
}

#[test]
fn what_a_peer_signs_verifies() {
    let certificate = match generate_certificate() {
        Some(certificate) => certificate,
        None => panic!("no certificate"),
    };
    assert!(certificate.is_new);
    let (_, owner) = certificate_to_name(&certificate.certificate).unwrap();
    let details = PeerConnectionDetails::NoNat(v4_socket([127, 0, 0, 1], 4000));
    let announcement = AnnouncePeer::sign(details, &certificate.private_key).unwrap();
    assert_eq!(announcement.peer_id(), owner);
    assert_eq!(announcement.announce_address.connection_details, details);
    assert!(announcement.verify());
    let again = AnnouncePeer::sign(details, &certificate.private_key).unwrap();
    assert_eq!(announcement, again);
    assert!(AnnouncePeer::sign(details, b"no key").is_none());
}

#[test]
fn certificates_that_were_just_made_are_new() {
    let made = new_certificate(Some((vec![1], vec![2]))).unwrap();
    assert_eq!((made.certificate, made.private_key, made.is_new), (vec![1], vec![2], true));
    assert!(new_certificate(None).is_none());
}

#[test]
fn stored_certificates_are_used_again() {
    let stored = our_certificate(Some(vec![1]), Some(vec![2])).unwrap();
    assert_eq!((stored.certificate, stored.private_key, stored.is_new), (vec![1], vec![2], false));
    let first = our_certificate(Some(vec![1]), None).unwrap();
    let second = our_certificate(None, None).unwrap();
    assert!(first.is_new && second.is_new);
    assert_ne!(first.private_key, second.private_key);
}

#[test]
fn signed_bytes_start_with_the_domain() {
    let address = AnnounceAddress {
        public_key: PeerId::new([9; 32]),
        connection_details: PeerConnectionDetails::NoNat(v4_socket([127, 0, 0, 1], 4000)),
    };
    let bytes = match AnnouncePeer::signing_bytes(&address) {
        Ok(bytes) => bytes,
        Err(_) => panic!("cannot encode"),
    };
    let mut expected = b"harddrive-party-v1:announce-peer\0".to_vec();
    expected.extend_from_slice(&[0, 0, 0, 0, 0, 0, 0, 0, 127, 0, 0, 1, 0xa0, 0x0f]);
    expected.extend_from_slice(&[9; 32]);
    assert_eq!(bytes, expected);
}

#[test]
fn wire_forms_of_all_kinds_of_addresses() {
    let public_key = PeerId::new([1; 32]);
    let lengths: Vec<usize> = [
        PeerConnectionDetails::NoNat(v4_socket([1, 2, 3, 4], 5)),
        PeerConnectionDetails::Asymmetric(v6_socket(V6, 443)),
        PeerConnectionDetails::Symmetric(IpAddr::V4(v4([1, 2, 3, 4]))),
        PeerConnectionDetails::Symmetric(IpAddr::V6(V6)),
    ]
    .into_iter()
    .map(|connection_details| {
        let address = AnnounceAddress { public_key, connection_details };
        match encode_announce_address(&address) {
            Ok(encoded) => encoded.len(),
            Err(_) => panic!("cannot encode"),
        }
    })
    .collect();
    assert_eq!(lengths, vec![46, 58, 44, 56]);
}
