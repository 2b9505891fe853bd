//! A handshake between peers that know a topic
use crate::bytes::to_array_32;
use crate::discovery::topic;
use crate::discovery::topic::{Topic, open_message, random_nonce, seal_message};
use rand::Rng;
use vstd::prelude::*;

verus! {

/// An encrypted token, its tag and the nonce.
pub type HandshakeRequest = [u8; 56];

pub type Token = [u8; 32];

/// Calls `Rng::gen` of the thread's generator. Nothing can be said of the bytes.
#[verifier::external_body]
fn random_token() -> (r: [u8; 32]) {
    rand::thread_rng().gen()
}

/// Fifty-six bytes as an array.
pub fn to_request(s: &[u8]) -> (r: HandshakeRequest)
    requires
        s@.len() == 56,
    ensures
        r@ == s@,
{
    let mut r: [u8; 56] = [0u8; 56];
    let mut i: usize = 0;
    while i < 56
        invariant
            i <= 56,
            s@.len() == 56,
            forall|k: int| 0 <= k < i ==> r@[k] == s@[k],
        decreases 56 - i,
    {
        r[i] = s[i];
        i += 1;
    }
    assert(r@ =~= s@);
    r
}

/// Whether a request holds a token, sealed with a key.
pub open spec fn is_request(key: Seq<u8>, request: Seq<u8>, token: Seq<u8>) -> bool {
    exists|nonce: Seq<u8>|
        nonce.len() == 8 && request == #[trigger] topic::sealed_message(key, nonce, token)
}

/// Asks a peer to show that it knows a topic, with a token and a nonce of one's own choice.
pub fn handshake_request_with(key: &[u8; 32], token: &Token, nonce: &[u8; 8]) -> (r:
    HandshakeRequest)
    ensures
        r@ == topic::sealed_message(key@, nonce@, token@),
        is_request(key@, r@, token@),
{
    let message = seal_message(key, nonce, token.as_slice());
    let request = to_request(message.as_slice());
    assert(nonce@.len() == 8);
    request
}

/// Asks a peer to show that it knows a topic. Gives the request, and the token that the peer has to
/// answer with.
pub fn handshake_request(topic: &Topic) -> (r: (HandshakeRequest, Token))
    ensures
        is_request(topic.hash@, r.0@, r.1@),
{
    let token = random_token();
    let nonce = random_nonce();
    (handshake_request_with(&topic.hash, &token, &nonce), token)
}

/// Whether this is the answer to a request, for someone who has a key.
pub open spec fn is_answer(key: Seq<u8>, request: Seq<u8>, answer: Result<Token, String>) -> bool {
    match answer {
        Ok(token) => topic::is_opening(key, request, Some(token@)),
        Err(error) => topic::is_opening(key, request, None) && error@ == "Cannot decrypt"@,
    }
}

/// Answers a request with a key.
pub fn answer_request(request: &HandshakeRequest, key: &[u8; 32]) -> (r: Result<Token, String>)
    ensures
        is_answer(key@, request@, r),
{
    match open_message(key, request.as_slice()) {
        Some(token) => Ok(to_array_32(token.as_slice())),
        None => Err("Cannot decrypt".to_owned()),
    }
}

/// Answers a request of a peer that knows a topic.
pub fn handshake_response(request: HandshakeRequest, topic: &Topic) -> (r: Result<Token, String>)
    ensures
        is_answer(topic.hash@, request@, r),
{
    answer_request(&request, &topic.hash)
}

/// Who has the key of a request answers with the token that was asked for.
pub proof fn law_handshake_succeeds(
    key: Seq<u8>,
    nonce: Seq<u8>,
    token: Token,
    encrypted: Seq<u8>,
    tag: Seq<u8>,
    answer: Result<Token, String>,
)
    requires
        nonce.len() == 8,
        tag.len() == 16,
        is_answer(key, encrypted + tag + nonce, answer),
    ensures
        topic::sealed(key, nonce, token@) == (encrypted, tag) ==> answer is Ok
            && answer->Ok_0@ == token@,
{
    match answer {
        Ok(answered) => {
            topic::law_sealed_message_opens(
                key,
                nonce,
                token@,
                encrypted,
                tag,
                Some(answered@),
            );
        },
        Err(_) => {
            topic::law_sealed_message_opens(key, nonce, token@, encrypted, tag, None);
        },
    }
}

/// A request is answered with the token that it was made with by whoever has its key.
pub proof fn law_requests_are_answered_with_their_token(
    key: Seq<u8>,
    request: Seq<u8>,
    token: Seq<u8>,
    answer: Result<Token, String>,
)
    requires
        forall|nonce: Seq<u8>, plain: Seq<u8>|
            (#[trigger] topic::sealed(key, nonce, plain)).1.len() == topic::TAG_LENGTH,
        is_request(key, request, token),
        is_answer(key, request, answer),
    ensures
        answer is Ok,
        answer->Ok_0@ == token,
{
    let nonce = choose|nonce: Seq<u8>|
        nonce.len() == 8 && request == #[trigger] topic::sealed_message(key, nonce, token);
    match answer {
        Ok(answered) => topic::law_sent_messages_open(key, nonce, token, Some(answered@)),
        Err(_) => topic::law_sent_messages_open(key, nonce, token, None),
    }
}

} // verus!
