//! Who a TLS certificate belongs to
use crate::bytes::to_array_32;
use crate::peer_id::PeerId;
use crate::text::same_text;
use crate::ui_messages;
use crate::ui_messages::PeerInfo;
use crate::wire_messages;
use x509_parser::prelude::{FromDer, X509Certificate};
use vstd::prelude::*;
use vstd::utf8::*;

verus! {

/// This makes it possible to add breaking protocol changes and provide backwards compatibility
pub const SUPPORTED_PROTOCOL_VERSION: &'static str = "harddrive-party-v1";

/// The object identifier of Ed25519.
pub const ED25519_OID: &'static str = "1.3.101.112";

/// Why a certificate is not accepted.
#[derive(Debug, Clone, Copy, PartialEq, Eq, Structural)]
pub enum CertificateError {
    BadEncoding,
    BadSignature,
    UnknownIssuer,
}

/// What a certificate says: whether its signature verifies under its own key, and the algorithm and
/// the bytes of that key.
pub struct CertificateContents {
    pub signature_verifies: bool,
    pub algorithm: String,
    pub public_key: Vec<u8>,
}

/// Calls `Certificate::from_params` of the `rcgen` crate, which makes a new Ed25519 key and a
/// certificate for a name, and serialises the certificate, which is signed with this key, and the
/// key. What is serialised reads back as what it was made from. Which key it is rests on chance, and
/// there is none where the system has no random bytes to give. The name has to be ASCII, which
/// `serialize_der` insists on, and no longer than a label of a DNS name.
#[verifier::external_body]
fn self_signed(name: &str) -> (r: Option<(Vec<u8>, Vec<u8>)>)
    requires
        is_ascii_chars(name@),
        0 < name@.len() <= 63,
    ensures
        r matches Some((certificate, private_key)) ==> is_key_pair(certificate@, private_key@),
{
    let mut params = rcgen::CertificateParams::new(vec![name.to_string()]);
    params.alg = &rcgen::PKCS_ED25519;
    let certificate = rcgen::Certificate::from_params(params).ok()?;
    let private_key = certificate.serialize_private_key_der();
    Some((certificate.serialize_der().ok()?, private_key))
}

/// Our TLS certificate with its private key.
#[derive(Debug)]
pub struct OurCertificate {
    pub certificate: Vec<u8>,
    pub private_key: Vec<u8>,
    /// Whether they were just made, and have to be stored.
    pub is_new: bool,
}

/// Our certificate, from a certificate and its private key that were just made, if they could be.
pub fn new_certificate(made: Option<(Vec<u8>, Vec<u8>)>) -> (r: Option<OurCertificate>)
    ensures
        r == match made {
            Some((certificate, private_key)) => Some(
                OurCertificate { certificate, private_key, is_new: true },
            ),
            None => None,
        },
{
    match made {
        Some((certificate, private_key)) => Some(
            OurCertificate { certificate, private_key, is_new: true },
        ),
        None => None,
    }
}

/// Generate a TLS certificate with Ed25519 keypair. Whether there is one rests on the random bytes
/// that the system gives.
pub fn generate_certificate() -> (r: Option<OurCertificate>)
    ensures
        r matches Some(ours) ==> {
            &&& ours.is_new
            &&& is_key_pair(ours.certificate@, ours.private_key@)
        },
{
    proof {
        reveal_strlit("peer");
    }
    new_certificate(self_signed("peer"))
}

/// What the `x509_parser` crate finds in the DER encoding of a certificate: whether the signature
/// on it verifies under its own key, the object identifier of the algorithm of that key, and the
/// bytes of that key. It is nothing where the bytes do not parse.
pub uninterp spec fn x509_contents(der: Seq<u8>) -> Option<(bool, Seq<char>, Seq<u8>)>;

/// Whether a certificate is signed with a private key, and says that it belongs to the public key
/// that goes with it.
pub open spec fn is_key_pair(certificate: Seq<u8>, private_key: Seq<u8>) -> bool {
    &&& wire_messages::pkcs8_seed(private_key) matches Some(seed)
    &&& wire_messages::ed25519_public(seed).len() == 32
    &&& x509_contents(certificate) == Some(
        (true, ED25519_OID@, wire_messages::ed25519_public(seed)),
    )
}

/// The view of what was found in a certificate.
pub open spec fn contents_view(contents: Option<CertificateContents>) -> Option<
    (bool, Seq<char>, Seq<u8>),
> {
    match contents {
        Some(contents) => Some(
            (contents.signature_verifies, contents.algorithm@, contents.public_key@),
        ),
        None => None,
    }
}

/// Calls `X509Certificate::from_der`, and on what it gives `verify_signature` with the key of the
/// certificate itself. Reads the algorithm and the bytes of that key.
#[verifier::external_body]
fn read_certificate(der: &[u8]) -> (r: Option<CertificateContents>)
    ensures
        contents_view(r) == x509_contents(der@),
{
    let (_, certificate) = X509Certificate::from_der(der).ok()?;
    let public_key = certificate.public_key();
    Some(CertificateContents {
        signature_verifies: certificate.verify_signature(None).is_ok(),
        algorithm: public_key.algorithm.algorithm.to_string(),
        public_key: public_key.subject_public_key.data.to_vec(),
    })
}

/// Whom a certificate with these contents belongs to.
pub open spec fn owner(contents: Option<(bool, Seq<char>, Seq<u8>)>) -> Result<
    Seq<u8>,
    CertificateError,
> {
    match contents {
        None => Err(CertificateError::BadEncoding),
        Some((signature_verifies, algorithm, public_key)) => {
            if !signature_verifies {
                Err(CertificateError::BadSignature)
            } else if algorithm != ED25519_OID@ || public_key.len() != 32 {
                Err(CertificateError::BadEncoding)
            } else {
                Ok(public_key)
            }
        },
    }
}

/// Whom a certificate with these contents belongs to.
pub fn certificate_owner(contents: Option<CertificateContents>) -> (r: Result<
    PeerId,
    CertificateError,
>)
    ensures
        match r {
            Ok(id) => owner(contents_view(contents)) == Ok::<Seq<u8>, CertificateError>(id@),
            Err(error) => owner(contents_view(contents)) == Err::<Seq<u8>, CertificateError>(error),
        },
{
    let contents = match contents {
        Some(contents) => contents,
        None => {
            return Err(CertificateError::BadEncoding);
        },
    };
    if !contents.signature_verifies {
        return Err(CertificateError::BadSignature);
    }
    // We only accept Ed25519
    if !same_text(contents.algorithm.as_str(), ED25519_OID) {
        return Err(CertificateError::BadEncoding);
    }
    if contents.public_key.len() != 32 {
        return Err(CertificateError::BadEncoding);
    }
    Ok(PeerId::new(to_array_32(contents.public_key.as_slice())))
}

/// Given a TLS certificate, get a 32 byte public key and a human-readable
/// name derived from it.
/// This internally verifies the signature, and only accepts Ed25519.
pub fn certificate_to_name(der: &[u8]) -> (r: Result<(String, PeerId), CertificateError>)
    ensures
        match r {
            Ok((name, id)) => {
                &&& owner(x509_contents(der@)) == Ok::<Seq<u8>, CertificateError>(id@)
                &&& name@ == ui_messages::peer_label(id@)
            },
            Err(error) => owner(x509_contents(der@)) == Err::<Seq<u8>, CertificateError>(error),
        },
{
    match certificate_owner(read_certificate(der)) {
        Ok(id) => {
            let info = PeerInfo::from_id(id);
            Ok((info.name, id))
        },
        Err(error) => Err(error),
    }
}

/// Which keys are accepted.
pub enum Accepted {
    /// Exactly this one, of a peer that we connect to.
    Exactly(PeerId),
    /// Those of peers that we know.
    Known(Vec<PeerId>),
    /// Any.
    Anyone,
}

/// Whether a key is accepted.
pub open spec fn is_accepted(accepted: Accepted, id: Seq<u8>) -> bool {
    match accepted {
        Accepted::Exactly(pinned) => pinned@ == id,
        Accepted::Known(known) => exists|i: int| 0 <= i < known@.len() && (#[trigger] known@[i])@
            == id,
        Accepted::Anyone => true,
    }
}

/// Decides on the certificate of a peer, given what it says.
pub fn decide_certificate(accepted: &Accepted, contents: Option<CertificateContents>) -> (r: Result<
    PeerId,
    CertificateError,
>)
    ensures
        match owner(contents_view(contents)) {
            Ok(id) => if is_accepted(*accepted, id) {
                r matches Ok(peer) && peer@ == id
            } else {
                r matches Err(error) && error == CertificateError::UnknownIssuer
            },
            Err(error) => r == Err::<PeerId, CertificateError>(error),
        },
{
    let id = match certificate_owner(contents) {
        Ok(id) => id,
        Err(error) => {
            return Err(error);
        },
    };
    let accept = match accepted {
        Accepted::Exactly(pinned) => {
            proof {
                pinned.lemma_view(id);
            }
            *pinned == id
        },
        Accepted::Known(known) => {
            let mut found = false;
            let mut i: usize = 0;
            while i < known.len()
                invariant
                    i <= known@.len(),
                    found == exists|k: int| 0 <= k < i && (#[trigger] known@[k])@ == id@,
                decreases known@.len() - i,
            {
                proof {
                    known@[i as int].lemma_view(id);
                }
                if known[i] == id {
                    assert(known@[i as int]@ == id@);
                    found = true;
                }
                i += 1;
            }
            found
        },
        Accepted::Anyone => true,
    };
    if accept {
        Ok(id)
    } else {
        Err(CertificateError::UnknownIssuer)
    }
}

/// Decides on the certificate of a peer.
pub fn verify_certificate(accepted: &Accepted, der: &[u8]) -> (r: Result<PeerId, CertificateError>)
    ensures
        match owner(x509_contents(der@)) {
            Ok(id) => if is_accepted(*accepted, id) {
                r matches Ok(peer) && peer@ == id
            } else {
                r matches Err(error) && error == CertificateError::UnknownIssuer
            },
            Err(error) => r == Err::<PeerId, CertificateError>(error),
        },
{
    decide_certificate(accepted, read_certificate(der))
}

/// A certificate passes for a pinned key only if it is that key, and only if it was signed with it.
pub proof fn law_pinned_key_is_exact(
    accepted: Accepted,
    pinned: PeerId,
    contents: Option<(bool, Seq<char>, Seq<u8>)>,
)
    requires
        accepted == Accepted::Exactly(pinned),
        owner(contents) matches Ok(id) && is_accepted(accepted, id),
    ensures
        contents matches Some((signature_verifies, algorithm, public_key)) && signature_verifies
            && public_key == pinned@,
{
}

/// A certificate names its owner if it is signed with the key that it names, and that is an Ed25519
/// key: one that is not signed like that counts as badly signed, whatever else is in it.
pub proof fn law_certificates_name_their_signer(
    signature_verifies: bool,
    algorithm: Seq<char>,
    public_key: Seq<u8>,
)
    requires
        public_key.len() == 32,
    ensures
        signature_verifies && algorithm == ED25519_OID@ ==> owner(
            Some((signature_verifies, algorithm, public_key)),
        ) == Ok::<Seq<u8>, CertificateError>(public_key),
        !signature_verifies ==> owner(Some((signature_verifies, algorithm, public_key))) == Err::<
            Seq<u8>,
            CertificateError,
        >(CertificateError::BadSignature),
        algorithm != ED25519_OID@ ==> owner(Some((signature_verifies, algorithm, public_key))) is Err,
        owner(None) is Err,
{
}

/// Who accepts known keys accepts each of them, and no other. Who pins a key accepts just that.
pub proof fn law_only_expected_keys_pass(known: Vec<PeerId>, pinned: PeerId, id: Seq<u8>)
    ensures
        is_accepted(Accepted::Known(known), id) <==> exists|one: PeerId| #[trigger]
            known@.contains(one) && one@ == id,
        is_accepted(Accepted::Exactly(pinned), id) <==> id == pinned@,
        is_accepted(Accepted::Anyone, id),
{
    if is_accepted(Accepted::Known(known), id) {
        let i = choose|i: int| 0 <= i < known@.len() && (#[trigger] known@[i])@ == id;
        let one = known@[i];
        assert(known@.contains(one) && one@ == id);
    }
    if exists|one: PeerId| #[trigger] known@.contains(one) && one@ == id {
        let one = choose|one: PeerId| #[trigger] known@.contains(one) && one@ == id;
        let i = choose|i: int| 0 <= i < known@.len() && known@[i] == one;
        let listed = Accepted::Known(known)->Known_0;
        assert(listed@[i]@ == id);
    }
}

} // verus!
