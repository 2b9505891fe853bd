//! The identity of a peer.
use crate::base64_text;
use crate::base64_text::{url_safe_decode, url_safe_encode};
use crate::bytes::{same_bytes, to_array_32};
use crate::text::{joined, same_text, sub_text};
use vstd::prelude::*;
use vstd::utf8::*;

verus! {

/// The canonical identity of a peer: its Ed25519 public key.
#[derive(Clone, Copy, Debug, Hash, Eq, PartialOrd, Ord)]
pub struct PeerId([u8; 32]);

impl View for PeerId {
    type V = Seq<u8>;

    closed spec fn view(&self) -> Seq<u8> {
        self.0@
    }
}

impl PartialEq for PeerId {
    fn eq(&self, other: &PeerId) -> (r: bool) {
        same_bytes(self.0.as_slice(), other.0.as_slice())
    }
}

impl vstd::std_specs::cmp::PartialEqSpecImpl for PeerId {
    open spec fn obeys_eq_spec() -> bool {
        true
    }

    open spec fn eq_spec(&self, other: &PeerId) -> bool {
        self@ == other@
    }
}

impl From<[u8; 32]> for PeerId {
    fn from(value: [u8; 32]) -> (r: PeerId) {
        PeerId(value)
    }
}

impl vstd::std_specs::convert::FromSpecImpl<[u8; 32]> for PeerId {
    closed spec fn obeys_from_spec() -> bool {
        true
    }

    closed spec fn from_spec(value: [u8; 32]) -> PeerId {
        PeerId(value)
    }
}

/// Why a text is not a peer ID.
#[derive(PartialEq, Eq, Debug, Clone)]
pub enum PeerIdParseError {
    BadLength,
    Base64(String),
    NonCanonical,
}

impl PeerIdParseError {
    /// What the error prints.
    pub open spec fn message(self) -> Seq<char> {
        match self {
            PeerIdParseError::BadLength => "peer ID must be exactly 43 base64url characters"@,
            PeerIdParseError::Base64(error) => "invalid peer ID base64url: "@ + error@,
            PeerIdParseError::NonCanonical => "peer ID is not canonical unpadded base64url"@,
        }
    }

    /// The error as text.
    pub fn to_string(&self) -> (r: String)
        ensures
            r@ == self.message(),
    {
        match self {
            PeerIdParseError::BadLength => "peer ID must be exactly 43 base64url characters".to_owned(),
            PeerIdParseError::Base64(error) => joined("invalid peer ID base64url: ", error.as_str()),
            PeerIdParseError::NonCanonical => "peer ID is not canonical unpadded base64url".to_owned(),
        }
    }
}

/// The text form of an identity: unpadded URL-safe base64.
pub open spec fn id_text(id: Seq<u8>) -> Seq<char> {
    base64_text::base64_text(true, id)
}

/// The text form of an identity is 43 ASCII characters, so also 43 bytes, and only 32 bytes have a
/// text of that length.
pub proof fn lemma_id_text(b: Seq<u8>)
    ensures
        is_ascii_chars(base64_text::base64_text(true, b)),
        encode_utf8(base64_text::base64_text(true, b)).len() == base64_text::base64_len(b.len()),
        base64_text::base64_len(b.len()) == 43 <==> b.len() == 32,
{
    let text = base64_text::base64_text(true, b);
    assert forall|i: int| 0 <= i < text.len() implies (0 <= #[trigger] text[i] as nat) && (text[i] as nat) < 128 by {
        base64_text::lemma_base64_alphabet(true, b, i);
    }
    assert(is_ascii_chars(text));
    is_ascii_chars_encode_utf8(text);
}

/// Whether this is what comes of reading a text as an identity. A text is accepted exactly where it
/// is the text form of some identity.
pub open spec fn is_parsed(value: Seq<char>, r: Result<PeerId, PeerIdParseError>) -> bool {
    &&& r is Ok <==> exists|id: Seq<u8>| id.len() == 32 && #[trigger] id_text(id) == value
    &&& match r {
        Ok(id) => id_text(id@) == value,
        Err(PeerIdParseError::BadLength) => encode_utf8(value).len() != 43,
        Err(PeerIdParseError::Base64(error)) => encode_utf8(value).len() == 43 && error@
            == base64_text::base64_error(true, value),
        Err(PeerIdParseError::NonCanonical) => false,
    }
}

impl PeerId {
    /// The length of an identity in bytes.
    pub const LENGTH: usize = 32;

    /// The length of an identity in text form.
    pub const ENCODED_LENGTH: usize = 43;

    pub fn new(bytes: [u8; 32]) -> (r: PeerId)
        ensures
            r@ == bytes@,
    {
        PeerId(bytes)
    }

    pub fn as_bytes(&self) -> (r: &[u8; 32])
        ensures
            r@ == self@,
    {
        &self.0
    }

    pub fn into_bytes(self) -> (r: [u8; 32])
        ensures
            r@ == self@,
    {
        self.0
    }

    /// An identity has 32 bytes, and one with the same bytes is the same.
    pub proof fn lemma_view(self, other: PeerId)
        ensures
            self@.len() == 32,
            self@ == other@ ==> self == other,
    {
        if self@ == other@ {
            assert(self.0 =~= other.0);
        }
    }

    /// The text form of this identity.
    pub fn to_string(&self) -> (r: String)
        ensures
            r@ == id_text(self@),
            r@.len() == 43,
    {
        proof {
            self.lemma_view(*self);
            lemma_id_text(self@);
        }
        url_safe_encode(self.0.as_slice())
    }

    /// A compact label for logs and terminal output. Never use this as an identifier.
    pub fn abbreviated(&self) -> (r: String)
        ensures
            r@ == id_text(self@).take(8),
    {
        let text = self.to_string();
        sub_text(text.as_str(), 0, 8)
    }

    /// The identity whose text form `value` is. A text is accepted exactly where it is the text
    /// form of some identity, so there is only one text for each identity.
    pub fn from_str(value: &str) -> (r: Result<PeerId, PeerIdParseError>)
        ensures
            is_parsed(value@, r),
    {
        if value.as_bytes().len() != 43 {
            assert forall|id: Seq<u8>| id.len() == 32 implies #[trigger] id_text(id) != value@ by {
                lemma_id_text(id);
            }
            return Err(PeerIdParseError::BadLength);
        }
        match url_safe_decode(value) {
            Err(error) => {
                assert forall|id: Seq<u8>| #[trigger] id_text(id) != value@ by {
                    assert(base64_text::base64_text(true, id) != value@);
                }
                Err(PeerIdParseError::Base64(error))
            },
            Ok(decoded) => {
                proof {
                    lemma_id_text(decoded@);
                }
                if decoded.len() != 32 {
                    return Err(PeerIdParseError::BadLength);
                }
                let id = PeerId(to_array_32(decoded.as_slice()));
                let canonical = id.to_string();
                if !same_text(canonical.as_str(), value) {
                    return Err(PeerIdParseError::NonCanonical);
                }
                assert(id_text(id@) == value@);
                Ok(id)
            },
        }
    }
}

impl std::str::FromStr for PeerId {
    type Err = PeerIdParseError;

    fn from_str(value: &str) -> (r: Result<PeerId, PeerIdParseError>)
        ensures
            is_parsed(value@, r),
    {
        PeerId::from_str(value)
    }
}

/// Parsing the text form of an identity gives that identity and no other: whatever identity a text
/// is accepted for, the text is the text form of no other identity.
pub proof fn law_id_text_identifies(id: PeerId, other: PeerId)
    requires
        id_text(id@) == id_text(other@),
    ensures
        id == other,
{
    base64_text::lemma_base64_injective(true, id@, other@);
    id.lemma_view(other);
}

} // verus!
