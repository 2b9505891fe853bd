//! Proof of knowledge of topic name
use crate::discovery::handshake::{HandshakeRequest, answer_request, handshake_request_with};
use crate::discovery::topic::{Topic, blake2b, random_nonce};
use crate::discovery::{handshake, topic};
use crate::text::utf8_bytes;
use vstd::prelude::*;
use vstd::utf8::*;

verus! {

/// The key that goes with a topic for a peer at an address.
pub open spec fn capability_key(topic_hash: Seq<u8>, address: Seq<char>) -> Seq<u8> {
    topic::blake2b_256(topic_hash, encode_utf8(address))
}

/// Keyed blake2b hash
fn keyed_hash(input: &[u8], key: &[u8; 32]) -> (r: [u8; 32])
    ensures
        r@ == topic::blake2b_256(key@, input@),
{
    blake2b(key.as_slice(), input)
}

/// Shows that a peer at an address, given as text, knows a topic.
pub fn handshake_request(topic: &Topic, address: &str, public_key: &[u8; 32]) -> (r:
    HandshakeRequest)
    ensures
        handshake::is_request(capability_key(topic.hash@, address@), r@, public_key@),
{
    let key = keyed_hash(utf8_bytes(address).as_slice(), &topic.hash);
    let nonce = random_nonce();
    handshake_request_with(&key, public_key, &nonce)
}

/// The public key of a peer at an address that has shown that it knows a topic.
pub fn handshake_response(request: HandshakeRequest, topic: &Topic, address: &str) -> (r: Result<
    [u8; 32],
    String,
>)
    ensures
        handshake::is_answer(capability_key(topic.hash@, address@), request@, r),
{
    let key = keyed_hash(utf8_bytes(address).as_slice(), &topic.hash);
    answer_request(&request, &key)
}

/// A capability is bound to the topic and to the address it is used at.
pub proof fn law_capabilities_are_bound(topic_hash: Seq<u8>, address: Seq<char>)
    ensures
        capability_key(topic_hash, address) == topic::blake2b_256(topic_hash, encode_utf8(address)),
{
}

} // verus!
