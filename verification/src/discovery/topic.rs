//! Topic name for connecting peers
use crate::announce_address::AnnounceAddress;
use crate::bytes::{append_bytes, copy_range};
use crate::hex_text;
use crate::hex_text::hex_encode;
use crate::text::utf8_bytes;
use crate::wire_messages;
use crate::wire_messages::encode_announce_address;
use bincode_next::error::EncodeError;
use cryptoxide::blake2b::Blake2b;
use cryptoxide::chacha20poly1305::ChaCha20Poly1305;
use rand::Rng;
use vstd::prelude::*;
use vstd::utf8::*;

verus! {

/// This is the Blake2b hash of the string "harddrive-party"
/// it is hashed together with the topic name
pub const CONTEXT: [u8; 32] = [
    201, 150, 87, 104, 91, 62, 47, 60, 2, 5, 31, 221, 42, 53, 91, 14, 115, 133, 124, 79, 115, 180,
    210, 81, 113, 98, 32, 171, 11, 228, 240, 2,
];

/// The length of what makes a sealed message authentic.
pub const TAG_LENGTH: usize = 16;

/// The length of the number that a message is sealed with.
pub const NONCE_LENGTH: usize = 8;

/// The Blake2b hash of some bytes with 32 bytes of output, as `cryptoxide` computes it. The key
/// may be empty.
pub uninterp spec fn blake2b_256(key: Seq<u8>, input: Seq<u8>) -> Seq<u8>;

/// Calls `Blake2b::blake2b`, which takes keys of up to 64 bytes.
#[verifier::external_body]
pub(crate) fn blake2b(key: &[u8], input: &[u8]) -> (r: [u8; 32])
    requires
        key@.len() <= 64,
    ensures
        r@ == blake2b_256(key@, input@),
{
    let mut hash = [0u8; 32];
    Blake2b::blake2b(&mut hash, input, key);
    hash
}

/// What `ChaCha20Poly1305::encrypt` makes of some bytes without any associated data: the encrypted
/// bytes and the tag.
pub uninterp spec fn sealed(key: Seq<u8>, nonce: Seq<u8>, plain: Seq<u8>) -> (Seq<u8>, Seq<u8>);

/// Calls `ChaCha20Poly1305::encrypt` of a fresh cipher. There are as many encrypted bytes as plain
/// ones.
#[verifier::external_body]
pub(crate) fn seal(key: &[u8; 32], nonce: &[u8; 8], plain: &[u8]) -> (r: (Vec<u8>, [u8; 16]))
    ensures
        r.0@ == sealed(key@, nonce@, plain@).0,
        r.1@ == sealed(key@, nonce@, plain@).1,
        r.0@.len() == plain@.len(),
{
    let mut encrypted = vec![0u8; plain.len()];
    let mut tag = [0u8; 16];
    ChaCha20Poly1305::new(key, nonce, &[]).encrypt(plain, &mut encrypted, &mut tag);
    (encrypted, tag)
}

/// Calls `ChaCha20Poly1305::decrypt` of a fresh cipher. It gives back what was encrypted with the
/// same key and nonce, as many bytes as there are encrypted ones, and nothing where the encrypted
/// bytes and the tag do not come from there.
#[verifier::external_body]
pub(crate) fn unseal(key: &[u8; 32], nonce: &[u8], encrypted: &[u8], tag: &[u8]) -> (r: Option<
    Vec<u8>,
>)
    requires
        nonce@.len() == 8,
        tag@.len() == 16,
    ensures
        r is Some ==> sealed(key@, nonce@, r->Some_0@) == (encrypted@, tag@),
        r is Some ==> r->Some_0@.len() == encrypted@.len(),
        forall|plain: Seq<u8>| #[trigger]
            sealed(key@, nonce@, plain) == (encrypted@, tag@) ==> r is Some && r->Some_0@ == plain,
{
    let mut plain = vec![0u8; encrypted.len()];
    let authentic = ChaCha20Poly1305::new(key, nonce, &[]).decrypt(encrypted, &mut plain, tag);
    if authentic { Some(plain) } else { None }
}

/// Calls `Rng::gen` of the thread's generator. Nothing can be said of the bytes.
#[verifier::external_body]
pub(crate) fn random_nonce() -> (r: [u8; 8]) {
    rand::thread_rng().gen()
}

/// The hash of a topic.
pub open spec fn topic_hash(name: Seq<char>) -> Seq<u8> {
    blake2b_256(CONTEXT@, encode_utf8(name))
}

/// What a topic is known by to those who do not know its name.
pub open spec fn topic_id(name: Seq<char>) -> Seq<char> {
    hex_text::hex_text(blake2b_256(Seq::empty(), topic_hash(name)))
}

/// A message as it is sent: the encrypted bytes, the tag and the nonce.
pub open spec fn sealed_message(key: Seq<u8>, nonce: Seq<u8>, plain: Seq<u8>) -> Seq<u8> {
    sealed(key, nonce, plain).0 + sealed(key, nonce, plain).1 + nonce
}

/// Whether this is what comes of opening a message with a key.
pub open spec fn is_opening(key: Seq<u8>, message: Seq<u8>, opened: Option<Seq<u8>>) -> bool {
    if message.len() < TAG_LENGTH + NONCE_LENGTH {
        opened is None
    } else {
        let split = message.len() - TAG_LENGTH - NONCE_LENGTH;
        let encrypted = message.subrange(0, split);
        let tag = message.subrange(split, split + TAG_LENGTH);
        let nonce = message.subrange(split + TAG_LENGTH, message.len() as int);
        &&& opened matches Some(plain) ==> sealed(key, nonce, plain) == (encrypted, tag)
        &&& forall|plain: Seq<u8>| #[trigger]
            sealed(key, nonce, plain) == (encrypted, tag) ==> opened == Some(plain)
    }
}

/// Seals a message with a key and a nonce.
pub fn seal_message(key: &[u8; 32], nonce: &[u8; 8], plain: &[u8]) -> (r: Vec<u8>)
    ensures
        r@ == sealed_message(key@, nonce@, plain@),
        r@.len() == plain@.len() + TAG_LENGTH + NONCE_LENGTH,
{
    let (encrypted, tag) = seal(key, nonce, plain);
    let mut out = encrypted;
    append_bytes(&mut out, tag.as_slice());
    append_bytes(&mut out, nonce.as_slice());
    out
}

/// Opens a message with a key.
pub fn open_message(key: &[u8; 32], message: &[u8]) -> (r: Option<Vec<u8>>)
    ensures
        is_opening(
            key@,
            message@,
            match r {
                Some(plain) => Some(plain@),
                None => None,
            },
        ),
        r matches Some(plain) ==> plain@.len() + TAG_LENGTH + NONCE_LENGTH == message@.len(),
{
    let length: usize = message.len();
    if length < TAG_LENGTH + NONCE_LENGTH {
        return None;
    }
    let split: usize = length - TAG_LENGTH - NONCE_LENGTH;
    let encrypted = copy_range(message, 0, split);
    let tag = copy_range(message, split, split + TAG_LENGTH);
    let nonce = copy_range(message, split + TAG_LENGTH, length);
    unseal(key, nonce.as_slice(), encrypted.as_slice(), tag.as_slice())
}

/// Opening a message with the key that it was sealed with gives back what was sealed, whatever the
/// nonce.
pub proof fn law_sealed_message_opens(
    key: Seq<u8>,
    nonce: Seq<u8>,
    plain: Seq<u8>,
    encrypted: Seq<u8>,
    tag: Seq<u8>,
    opened: Option<Seq<u8>>,
)
    requires
        nonce.len() == NONCE_LENGTH,
        tag.len() == TAG_LENGTH,
        is_opening(key, encrypted + tag + nonce, opened),
    ensures
        sealed(key, nonce, plain) == (encrypted, tag) ==> opened == Some(plain),
{
    let message = encrypted + tag + nonce;
    let split = message.len() - TAG_LENGTH - NONCE_LENGTH;
    assert(message.subrange(0, split) =~= encrypted);
    assert(message.subrange(split, split + TAG_LENGTH) =~= tag);
    assert(message.subrange(split + TAG_LENGTH, message.len() as int) =~= nonce);
}

/// What peers that know its name meet at.
#[derive(Debug, Clone, PartialEq, Eq, Hash)]
pub struct Topic {
    pub name: String,
    pub hash: [u8; 32],
    /// A publically sharable ID made by hashing a second time
    /// and encoding as hex
    pub public_id: String,
}

impl Topic {
    /// The hash and the ID are those of the name.
    pub open spec fn wf(self) -> bool {
        &&& self.hash@ == topic_hash(self.name@)
        &&& self.public_id@ == topic_id(self.name@)
        &&& self.public_id@.len() == 64
    }

    pub fn new(name: String) -> (r: Topic)
        ensures
            r.wf(),
            r.name == name,
    {
        let hash = blake2b(CONTEXT.as_slice(), utf8_bytes(name.as_str()).as_slice());
        let no_key: Vec<u8> = Vec::new();
        assert(no_key@ =~= Seq::<u8>::empty());
        let id_hash = blake2b(no_key.as_slice(), hash.as_slice());
        let public_id = hex_encode(id_hash.as_slice());
        Topic { name, hash, public_id }
    }

    /// A copy of this.
    pub fn duplicate(&self) -> (r: Topic)
        ensures
            r == *self,
    {
        Topic { name: self.name.clone(), hash: self.hash, public_id: self.public_id.clone() }
    }

    /// Get the topic hash as hex
    pub fn as_hex(&self) -> (r: String)
        ensures
            r@ == hex_text::hex_text(self.hash@),
    {
        hex_encode(self.hash.as_slice())
    }

    /// Encrypt a message using this topic as the key
    pub fn encrypt(&self, payload: &[u8]) -> (r: Vec<u8>)
        ensures
            exists|nonce: Seq<u8>|
                nonce.len() == NONCE_LENGTH && r@ == #[trigger] sealed_message(
                    self.hash@,
                    nonce,
                    payload@,
                ),
            r@.len() == payload@.len() + TAG_LENGTH + NONCE_LENGTH,
    {
        let nonce = random_nonce();
        seal_message(&self.hash, &nonce, payload)
    }

    /// Whether a message announces an address on this topic: the address in its wire form, encrypted
    /// with the topic.
    pub open spec fn announces(self, message: Seq<u8>, address: AnnounceAddress) -> bool {
        exists|nonce: Seq<u8>|
            nonce.len() == NONCE_LENGTH && message == #[trigger] sealed_message(
                self.hash@,
                nonce,
                wire_messages::address_wire_bytes(address),
            )
    }

    /// A message that announces an address on this topic
    pub fn announce(&self, address: &AnnounceAddress) -> (r: Result<Vec<u8>, EncodeError>)
        ensures
            r is Ok,
            self.announces(r->Ok_0@, *address),
            r->Ok_0@.len() == wire_messages::address_wire_bytes(*address).len() + TAG_LENGTH
                + NONCE_LENGTH,
    {
        match encode_announce_address(address) {
            Ok(cleartext) => Ok(self.encrypt(cleartext.as_slice())),
            Err(error) => Err(error),
        }
    }

    /// Decrypt a message using this topic as the key
    pub fn decrypt(&self, encrypted: &[u8]) -> (r: Option<Vec<u8>>)
        ensures
            is_opening(
                self.hash@,
                encrypted@,
                match r {
                    Some(plain) => Some(plain@),
                    None => None,
                },
            ),
    {
        open_message(&self.hash, encrypted)
    }
}

/// A topic is known to others by the hash of its key, and not by the key: the key is the hash of
/// its name in the context of this use, and is what messages are sealed with.
pub proof fn law_topic_is_known_by_the_hash_of_its_key(topic: Topic)
    requires
        topic.wf(),
    ensures
        topic.hash@ == blake2b_256(CONTEXT@, encode_utf8(topic.name@)),
        topic.public_id@ == hex_text::hex_text(blake2b_256(Seq::empty(), topic.hash@)),
{
}

/// A message as it is sent is opened by whoever has the key, and gives back what was sealed.
pub proof fn law_sent_messages_open(
    key: Seq<u8>,
    nonce: Seq<u8>,
    plain: Seq<u8>,
    opened: Option<Seq<u8>>,
)
    requires
        nonce.len() == NONCE_LENGTH,
        sealed(key, nonce, plain).1.len() == TAG_LENGTH,
        is_opening(key, sealed_message(key, nonce, plain), opened),
    ensures
        opened == Some(plain),
{
    let (encrypted, tag) = sealed(key, nonce, plain);
    law_sealed_message_opens(key, nonce, plain, encrypted, tag, opened);
}

/// Who knows a topic reads the address from what announces it there.
pub proof fn law_announced_address_is_read(
    topic: Topic,
    message: Seq<u8>,
    address: AnnounceAddress,
    opened: Option<Seq<u8>>,
)
    requires
        forall|nonce: Seq<u8>, plain: Seq<u8>|
            (#[trigger] sealed(topic.hash@, nonce, plain)).1.len() == TAG_LENGTH,
        topic.announces(message, address),
        is_opening(topic.hash@, message, opened),
    ensures
        opened == Some(wire_messages::address_wire_bytes(address)),
{
    let plain = wire_messages::address_wire_bytes(address);
    let nonce = choose|nonce: Seq<u8>|
        nonce.len() == NONCE_LENGTH && message == #[trigger] sealed_message(
            topic.hash@,
            nonce,
            plain,
        );
    law_sent_messages_open(topic.hash@, nonce, plain, opened);
}

} // verus!
