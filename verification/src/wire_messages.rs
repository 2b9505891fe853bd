//! Wire messages for communicating with other peers
use crate::announce_address;
use crate::announce_address::{AnnounceAddress, PeerConnectionDetails};
use crate::bytes;
use crate::bytes::{append_bytes, copy_range, to_be_bytes};
use crate::net::{IpAddr, SocketAddr};
use crate::peer_id::PeerId;
use crate::text::joined;
use bincode_next::error::EncodeError;
use ed25519_dalek::pkcs8::DecodePrivateKey;
use ed25519_dalek::{Signature, Signer, SigningKey, Verifier, VerifyingKey};
use vstd::prelude::*;

verus! {

/// The error of the bincode encoder.
#[verifier::external_type_specification]
#[verifier::external_body]
pub struct ExEncodeError(EncodeError);

/// A request to a remote peer
#[derive(PartialEq, Debug, Clone, Hash, Eq)]
pub enum Request {
    /// A request to read the remote peer's shared file index
    Ls(IndexQuery),
    /// A request to download a remote peer's file (or a portion of the file)
    Read(ReadQuery),
    /// Contact details of another peer
    AnnouncePeer(AnnouncePeer),
}

/// A request to read the remote peer's shared file index
#[derive(PartialEq, Debug, Clone, Eq, Hash)]
pub struct IndexQuery {
    /// Base directory to query - defaults to all shared directories
    pub path: Option<String>,
    /// Filter term to search with
    pub searchterm: Option<String>,
    /// Whether to expand directories
    pub recursive: bool,
}

/// A request to download a remote peers file (or a portion of the file)
#[derive(PartialEq, Debug, Clone, Eq, Hash)]
pub struct ReadQuery {
    /// Path of the requested file
    pub path: String,
    /// Offset to start reading
    pub start: Option<u64>,
    /// Offset to finish reading
    pub end: Option<u64>,
}

/// A response to a `Request::Ls(IndexQuery)`
#[derive(PartialEq, Debug, Clone)]
pub enum LsResponse {
    /// The found files or directories if the query was successful
    Success(Vec<Entry>),
    Error(LsResponseError),
}

/// A file or directory entry in a share query response
#[derive(PartialEq, Debug, Clone, Hash, Eq)]
pub struct Entry {
    /// Path and filename
    pub name: String,
    /// Size in bytes
    pub size: u64,
    /// Whether this is a directory or a file
    pub is_dir: bool,
}

/// Error from making a share index query
#[derive(PartialEq, Debug, Clone)]
pub enum LsResponseError {
    DbError,
    PathNotFound,
    InternalServer(String),
}

impl LsResponseError {
    /// What the error prints.
    pub open spec fn message(self) -> Seq<char> {
        match self {
            LsResponseError::DbError => "Database error"@,
            LsResponseError::PathNotFound => "Path not found"@,
            LsResponseError::InternalServer(error) => "Internal error: "@ + error@,
        }
    }

    /// The error as text.
    pub fn to_string(&self) -> (r: String)
        ensures
            r@ == self.message(),
    {
        match self {
            LsResponseError::DbError => "Database error".to_owned(),
            LsResponseError::PathNotFound => "Path not found".to_owned(),
            LsResponseError::InternalServer(error) => joined("Internal error: ", error.as_str()),
        }
    }
}

/// A signed announcement of how a peer can be reached.
#[derive(PartialEq, Eq, Debug, Clone, Copy, Hash)]
pub struct AnnouncePeer {
    pub announce_address: AnnounceAddress,
    pub signature: [u8; 64],
}

/// What a signature on an announcement covers starts with this, so that it cannot be taken for a
/// signature on something else.
pub const ANNOUNCE_PEER_DOMAIN: [u8; 33] = [
    104, 97, 114, 100, 100, 114, 105, 118, 101, 45, 112, 97, 114, 116, 121, 45, 118, 49, 58, 97,
    110, 110, 111, 117, 110, 99, 101, 45, 112, 101, 101, 114, 0,
];

/// The position of the kind of NAT among the variants, as the wire format numbers them.
pub open spec fn nat_index(details: PeerConnectionDetails) -> nat {
    match details {
        PeerConnectionDetails::NoNat(_) => 0,
        PeerConnectionDetails::Asymmetric(_) => 1,
        PeerConnectionDetails::Symmetric(_) => 2,
    }
}

/// The wire form of an announce address: the kind of NAT and the address family as four byte
/// numbers, the octets of the address, the port where there is one, and the public key. Numbers
/// stand with their least significant byte first.
pub open spec fn address_wire_bytes(address: AnnounceAddress) -> Seq<u8> {
    let ip = address.connection_details.spec_ip();
    let family: nat = if ip is V4 {
        0
    } else {
        1
    };
    let port = match address.connection_details.spec_port() {
        Some(port) => bytes::le_bytes(port as nat, 2),
        None => Seq::<u8>::empty(),
    };
    bytes::le_bytes(nat_index(address.connection_details), 4) + bytes::le_bytes(family, 4) + ip.spec_octets()
        + port + address.public_key@
}

/// What a signature on an announcement covers.
pub open spec fn signed_bytes(address: AnnounceAddress) -> Seq<u8> {
    ANNOUNCE_PEER_DOMAIN@ + address_wire_bytes(address)
}

/// Calls `bincode_next::serde::encode_to_vec` with the legacy configuration on a tuple, which
/// writes the parts one after the other, numbers with their least significant byte first.
#[verifier::external_body]
fn encode_v4_socket(kind: u32, family: u32, ip: [u8; 4], port: u16, key: [u8; 32]) -> (r: Result<
    Vec<u8>,
    EncodeError,
>)
    ensures
        r is Ok,
        r->Ok_0@ == bytes::le_bytes(kind as nat, 4) + bytes::le_bytes(family as nat, 4) + ip@
            + bytes::le_bytes(port as nat, 2) + key@,
{
    bincode_next::serde::encode_to_vec((kind, family, ip, port, key), bincode_next::config::legacy())
}

/// Calls `bincode_next::serde::encode_to_vec` with the legacy configuration on a tuple, which
/// writes the parts one after the other, numbers with their least significant byte first.
#[verifier::external_body]
fn encode_v6_socket(kind: u32, family: u32, ip: [u8; 16], port: u16, key: [u8; 32]) -> (r: Result<
    Vec<u8>,
    EncodeError,
>)
    ensures
        r is Ok,
        r->Ok_0@ == bytes::le_bytes(kind as nat, 4) + bytes::le_bytes(family as nat, 4) + ip@
            + bytes::le_bytes(port as nat, 2) + key@,
{
    bincode_next::serde::encode_to_vec((kind, family, ip, port, key), bincode_next::config::legacy())
}

/// Calls `bincode_next::serde::encode_to_vec` with the legacy configuration on a tuple, which
/// writes the parts one after the other, numbers with their least significant byte first.
#[verifier::external_body]
fn encode_v4_ip(kind: u32, family: u32, ip: [u8; 4], key: [u8; 32]) -> (r: Result<
    Vec<u8>,
    EncodeError,
>)
    ensures
        r is Ok,
        r->Ok_0@ == bytes::le_bytes(kind as nat, 4) + bytes::le_bytes(family as nat, 4) + ip@
            + key@,
{
    bincode_next::serde::encode_to_vec((kind, family, ip, key), bincode_next::config::legacy())
}

/// Calls `bincode_next::serde::encode_to_vec` with the legacy configuration on a tuple, which
/// writes the parts one after the other, numbers with their least significant byte first.
#[verifier::external_body]
fn encode_v6_ip(kind: u32, family: u32, ip: [u8; 16], key: [u8; 32]) -> (r: Result<
    Vec<u8>,
    EncodeError,
>)
    ensures
        r is Ok,
        r->Ok_0@ == bytes::le_bytes(kind as nat, 4) + bytes::le_bytes(family as nat, 4) + ip@
            + key@,
{
    bincode_next::serde::encode_to_vec((kind, family, ip, key), bincode_next::config::legacy())
}

/// Whether `VerifyingKey::verify` accepts a signature on a message. It accepts none where the key
/// bytes are no point on the curve.
pub uninterp spec fn ed25519_accepts(key: Seq<u8>, message: Seq<u8>, signature: Seq<u8>) -> bool;

/// Calls `VerifyingKey::from_bytes` and `VerifyingKey::verify`, and says whether both succeed.
#[verifier::external_body]
fn ed25519_verify(key: &[u8; 32], message: &[u8], signature: &[u8; 64]) -> (r: bool)
    ensures
        r == ed25519_accepts(key@, message@, signature@),
{
    match VerifyingKey::from_bytes(key) {
        Ok(key) => key.verify(message, &Signature::from_bytes(signature)).is_ok(),
        Err(_) => false,
    }
}

/// The secret bytes of the key that `SigningKey::from_pkcs8_der` reads. There are none where the
/// bytes are not the encoding of an Ed25519 key.
pub uninterp spec fn pkcs8_seed(der: Seq<u8>) -> Option<Seq<u8>>;

/// Calls `SigningKey::from_pkcs8_der` and hands out the secret bytes of the key.
#[verifier::external_body]
fn read_signing_key(der: &[u8]) -> (r: Option<[u8; 32]>)
    ensures
        r is Some == (pkcs8_seed(der@) is Some),
        r is Some ==> r->Some_0@ == pkcs8_seed(der@)->Some_0,
{
    SigningKey::from_pkcs8_der(der).ok().map(|key| key.to_bytes())
}

/// The public key that belongs to the secret bytes of a key, as `SigningKey::verifying_key` derives
/// it.
pub uninterp spec fn ed25519_public(seed: Seq<u8>) -> Seq<u8>;

/// Calls `SigningKey::verifying_key`.
#[verifier::external_body]
fn public_key_of(seed: &[u8; 32]) -> (r: [u8; 32])
    ensures
        r@ == ed25519_public(seed@),
{
    SigningKey::from_bytes(seed).verifying_key().to_bytes()
}

/// The signature that `SigningKey::sign` makes on a message.
pub uninterp spec fn ed25519_signature(seed: Seq<u8>, message: Seq<u8>) -> Seq<u8>;

/// Calls `SigningKey::sign`. `VerifyingKey::verify` accepts the signature under the public key that
/// belongs to the secret bytes.
#[verifier::external_body]
fn ed25519_sign(seed: &[u8; 32], message: &[u8]) -> (r: [u8; 64])
    ensures
        r@ == ed25519_signature(seed@, message@),
        ed25519_accepts(ed25519_public(seed@), message@, r@),
{
    SigningKey::from_bytes(seed).sign(message).to_bytes()
}

fn octets_4(bits: u32) -> (r: [u8; 4])
    ensures
        r@ == bytes::be_bytes(bits as nat, 4),
{
    let b = to_be_bytes(bits as u128, 4);
    proof {
        crate::bytes::lemma_be_bytes_len(bits as nat, 4);
    }
    let r = [b[0], b[1], b[2], b[3]];
    assert(r@ =~= b@);
    r
}

fn octets_16(bits: u128) -> (r: [u8; 16])
    ensures
        r@ == bytes::be_bytes(bits as nat, 16),
{
    let b = to_be_bytes(bits, 16);
    proof {
        crate::bytes::lemma_be_bytes_len(bits as nat, 16);
    }
    let mut r: [u8; 16] = [0u8; 16];
    let mut i: usize = 0;
    while i < 16
        invariant
            i <= 16,
            b@.len() == 16,
            forall|k: int| 0 <= k < i ==> r@[k] == b@[k],
        decreases 16 - i,
    {
        r[i] = b[i];
        i += 1;
    }
    assert(r@ =~= b@);
    r
}

/// The wire form of an announce address.
pub fn encode_announce_address(address: &AnnounceAddress) -> (r: Result<Vec<u8>, EncodeError>)
    ensures
        r matches Ok(bytes) && bytes@ == address_wire_bytes(*address),
{
    let key = address.public_key.into_bytes();
    let r = match address.connection_details {
        PeerConnectionDetails::NoNat(SocketAddr::V4 { ip, port }) => encode_v4_socket(
            0,
            0,
            octets_4(ip),
            port,
            key,
        ),
        PeerConnectionDetails::NoNat(SocketAddr::V6 { ip, port, .. }) => encode_v6_socket(
            0,
            1,
            octets_16(ip),
            port,
            key,
        ),
        PeerConnectionDetails::Asymmetric(SocketAddr::V4 { ip, port }) => encode_v4_socket(
            1,
            0,
            octets_4(ip),
            port,
            key,
        ),
        PeerConnectionDetails::Asymmetric(SocketAddr::V6 { ip, port, .. }) => encode_v6_socket(
            1,
            1,
            octets_16(ip),
            port,
            key,
        ),
        PeerConnectionDetails::Symmetric(IpAddr::V4(ip)) => encode_v4_ip(2, 0, octets_4(ip), key),
        PeerConnectionDetails::Symmetric(IpAddr::V6(ip)) => encode_v6_ip(2, 1, octets_16(ip), key),
    };
    assert(r matches Ok(bytes) && bytes@ =~= address_wire_bytes(*address));
    r
}

impl AnnouncePeer {
    /// What a signature on an announcement of this address covers.
    pub fn signing_bytes(announce_address: &AnnounceAddress) -> (r: Result<Vec<u8>, EncodeError>)
        ensures
            r matches Ok(bytes) && bytes@ == signed_bytes(*announce_address),
    {
        match encode_announce_address(announce_address) {
            Ok(encoded) => {
                let domain: [u8; 33] = ANNOUNCE_PEER_DOMAIN;
                let mut message = copy_range(domain.as_slice(), 0, 33);
                assert(message@ =~= ANNOUNCE_PEER_DOMAIN@);
                append_bytes(&mut message, encoded.as_slice());
                Ok(message)
            },
            Err(error) => Err(error),
        }
    }

    /// The announcement of a peer that can be reached like this, signed with its private key. There
    /// is none if the key cannot be read.
    pub fn sign(connection_details: PeerConnectionDetails, private_key: &[u8]) -> (r: Option<
        AnnouncePeer,
    >)
        ensures
            match r {
                Some(announcement) => {
                    &&& pkcs8_seed(private_key@) matches Some(seed)
                    &&& announcement.announce_address.connection_details == connection_details
                    &&& announcement.announce_address.public_key@ == ed25519_public(seed)
                    &&& announcement.signature@ == ed25519_signature(
                        seed,
                        signed_bytes(announcement.announce_address),
                    )
                    &&& announcement.is_authentic()
                },
                None => pkcs8_seed(private_key@) is None,
            },
    {
        match read_signing_key(private_key) {
            Some(seed) => {
                let public_key = PeerId::new(public_key_of(&seed));
                let announce_address = AnnounceAddress { connection_details, public_key };
                match AnnouncePeer::signing_bytes(&announce_address) {
                    Ok(message) => Some(
                        AnnouncePeer {
                            announce_address,
                            signature: ed25519_sign(&seed, message.as_slice()),
                        },
                    ),
                    Err(_) => {
                        assert(false);
                        None
                    },
                }
            },
            None => None,
        }
    }

    /// Whether the announced peer itself has signed the announced address.
    pub open spec fn is_authentic(self) -> bool {
        ed25519_accepts(
            self.announce_address.public_key@,
            signed_bytes(self.announce_address),
            self.signature@,
        )
    }

    /// Whether the announced peer itself has signed the announced address.
    pub fn verify(&self) -> (r: bool)
        ensures
            r == self.is_authentic(),
    {
        match AnnouncePeer::signing_bytes(&self.announce_address) {
            Ok(message) => ed25519_verify(
                self.announce_address.public_key.as_bytes(),
                message.as_slice(),
                &self.signature,
            ),
            Err(_) => false,
        }
    }

    /// The announced peer.
    pub fn peer_id(&self) -> (r: PeerId)
        ensures
            r == self.announce_address.public_key,
    {
        self.announce_address.public_key
    }
}

proof fn lemma_wire_parts(address: AnnounceAddress)
    ensures
        ({
            let details = address.connection_details;
            let b = address_wire_bytes(address);
            let w: int = if details.spec_ip() is V4 {
                4
            } else {
                16
            };
            let p: int = if details.spec_port() is Some {
                2
            } else {
                0
            };
            &&& b.len() == 8 + w + p + 32
            &&& bytes::le_value(b.subrange(0, 4)) == nat_index(details)
            &&& bytes::le_value(b.subrange(4, 8)) == if details.spec_ip() is V4 {
                0nat
            } else {
                1nat
            }
            &&& bytes::be_value(b.subrange(8, 8 + w)) == match details.spec_ip() {
                IpAddr::V4(bits) => bits as nat,
                IpAddr::V6(bits) => bits as nat,
            }
            &&& details.spec_port() matches Some(port) ==> bytes::le_value(
                b.subrange(8 + w, 10 + w),
            ) == port
            &&& b.subrange(8 + w + p, b.len() as int) == address.public_key@
        }),
{
    let details = address.connection_details;
    let b = address_wire_bytes(address);
    let family: nat = if details.spec_ip() is V4 {
        0
    } else {
        1
    };
    let octets = details.spec_ip().spec_octets();
    let port = match details.spec_port() {
        Some(port) => bytes::le_bytes(port as nat, 2),
        None => Seq::<u8>::empty(),
    };
    address.public_key.lemma_view(address.public_key);
    bytes::lemma_byte_ranges();
    bytes::lemma_be_bytes_len(nat_index(details), 4);
    bytes::lemma_be_bytes_len(family, 4);
    bytes::lemma_le_value_of_bytes(nat_index(details), 4);
    bytes::lemma_le_value_of_bytes(family, 4);
    match details.spec_ip() {
        IpAddr::V4(bits) => {
            bytes::lemma_be_bytes_len(bits as nat, 4);
            bytes::lemma_be_value_of_bytes(bits as nat, 4);
        },
        IpAddr::V6(bits) => {
            bytes::lemma_be_bytes_len(bits as nat, 16);
            bytes::lemma_be_value_of_bytes(bits as nat, 16);
        },
    }
    if details.spec_port() is Some {
        bytes::lemma_be_bytes_len(details.spec_port()->Some_0 as nat, 2);
        bytes::lemma_le_value_of_bytes(details.spec_port()->Some_0 as nat, 2);
    }
    let w = octets.len() as int;
    let p = port.len() as int;
    assert(b.subrange(0, 4) =~= bytes::le_bytes(nat_index(details), 4));
    assert(b.subrange(4, 8) =~= bytes::le_bytes(family, 4));
    assert(b.subrange(8, 8 + w) =~= octets);
    assert(b.subrange(8 + w, 8 + w + p) =~= port);
    assert(b.subrange(8 + w + p, b.len() as int) =~= address.public_key@);
}

/// The wire form of an announce address is short.
pub proof fn lemma_wire_length(address: AnnounceAddress)
    ensures
        address_wire_bytes(address).len() <= 58,
{
    let details = address.connection_details;
    bytes::lemma_be_bytes_len(nat_index(details), 4);
    bytes::lemma_be_bytes_len(0, 4);
    bytes::lemma_be_bytes_len(1, 4);
    match details.spec_ip() {
        IpAddr::V4(bits) => {
            bytes::lemma_be_bytes_len(bits as nat, 4);
        },
        IpAddr::V6(bits) => {
            bytes::lemma_be_bytes_len(bits as nat, 16);
        },
    }
    if details.spec_port() is Some {
        bytes::lemma_be_bytes_len(details.spec_port()->Some_0 as nat, 2);
    }
    address.public_key.lemma_view(address.public_key);
}

/// A signature is for one announcement only: what is signed tells who the peer is and how it can be
/// reached, up to the flow information and the scope of an IPv6 address.
pub proof fn law_signed_bytes_identify_the_address(a: AnnounceAddress, b: AnnounceAddress)
    requires
        signed_bytes(a) == signed_bytes(b),
    ensures
        a.public_key == b.public_key,
        announce_address::plain_details(a.connection_details) == announce_address::plain_details(
            b.connection_details,
        ),
{
    let wire_a = address_wire_bytes(a);
    let wire_b = address_wire_bytes(b);
    assert(wire_a =~= signed_bytes(a).skip(33));
    assert(wire_b =~= signed_bytes(b).skip(33));
    lemma_wire_parts(a);
    lemma_wire_parts(b);
    a.public_key.lemma_view(b.public_key);
}

/// The wire form of an address starts with the kind of NAT and ends with the key of the peer.
pub proof fn law_wire_form_starts_with_the_kind(address: AnnounceAddress)
    ensures
        ({
            let all = address_wire_bytes(address);
            let kind: nat = match address.connection_details {
                PeerConnectionDetails::NoNat(_) => 0,
                PeerConnectionDetails::Asymmetric(_) => 1,
                PeerConnectionDetails::Symmetric(_) => 2,
            };
            &&& all.len() >= 36
            &&& bytes::le_value(all.take(4)) == kind
            &&& all.skip(all.len() - 32) == address.public_key@
        }),
{
    let all = address_wire_bytes(address);
    let kind = nat_index(address.connection_details);
    bytes::lemma_byte_ranges();
    bytes::lemma_le_value_of_bytes(kind, 4);
    assert(all.take(4) =~= bytes::le_bytes(kind, 4));
    assert(address.public_key@.len() == 32) by {
        address.public_key.lemma_view(address.public_key);
    }
    assert(all.skip(all.len() - 32) =~= address.public_key@);
}

/// An announcement counts if the key that it announces has signed just that address, and only then.
pub proof fn law_announcements_are_signed_by_their_peer(announcement: AnnouncePeer)
    ensures
        announcement.is_authentic() <==> ed25519_accepts(
            announcement.announce_address.public_key@,
            ANNOUNCE_PEER_DOMAIN@ + address_wire_bytes(announcement.announce_address),
            announcement.signature@,
        ),
{
}

} // verus!
