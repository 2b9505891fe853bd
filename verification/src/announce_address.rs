//! Announce codes: how a peer can be reached, as a short text to pass on by hand.
use crate::base64_text;
use crate::base64_text::{standard_decode, standard_encode};
use crate::bytes;
use crate::bytes::{append_bytes, copy_range, from_be_bytes, to_be_bytes};
use crate::net::{IpAddr, SocketAddr};
use crate::peer_id;
use crate::peer_id::PeerId;
use crate::text;
use crate::text::{append_text, chars_of, decimal_text, joined, sub_text};
use vstd::prelude::*;
use vstd::utf8::*;

verus! {

/// How a peer is connected to the internet, as far as others need to know to reach it.
#[derive(Clone, Copy, Debug, PartialEq, Eq, Structural, Hash)]
pub enum PeerConnectionDetails {
    NoNat(SocketAddr),
    Asymmetric(SocketAddr),
    Symmetric(IpAddr),
}

impl PeerConnectionDetails {
    pub open spec fn spec_ip(self) -> IpAddr {
        match self {
            PeerConnectionDetails::NoNat(addr) => addr.spec_ip(),
            PeerConnectionDetails::Asymmetric(addr) => addr.spec_ip(),
            PeerConnectionDetails::Symmetric(ip) => ip,
        }
    }

    /// Gets the IP address
    pub fn ip(&self) -> (r: IpAddr)
        ensures
            r == self.spec_ip(),
    {
        match self {
            PeerConnectionDetails::NoNat(addr) => addr.ip(),
            PeerConnectionDetails::Asymmetric(addr) => addr.ip(),
            PeerConnectionDetails::Symmetric(ip) => *ip,
        }
    }

    pub open spec fn spec_port(self) -> Option<u16> {
        match self {
            PeerConnectionDetails::NoNat(addr) => Some(addr.spec_port()),
            PeerConnectionDetails::Asymmetric(addr) => Some(addr.spec_port()),
            PeerConnectionDetails::Symmetric(_) => None,
        }
    }

    /// Gets the port, which a peer behind symmetric NAT does not have.
    pub fn port(&self) -> (r: Option<u16>)
        ensures
            r == self.spec_port(),
    {
        match self {
            PeerConnectionDetails::NoNat(addr) => Some(addr.port()),
            PeerConnectionDetails::Asymmetric(addr) => Some(addr.port()),
            PeerConnectionDetails::Symmetric(_) => None,
        }
    }

    /// The kind of NAT in words.
    pub open spec fn nat_type(self) -> Seq<char> {
        match self {
            PeerConnectionDetails::NoNat(_) => "No NAT"@,
            PeerConnectionDetails::Asymmetric(_) => "Asymmetric NAT"@,
            PeerConnectionDetails::Symmetric(_) => "Symmetric NAT"@,
        }
    }

    /// The details as text, given the IP address as text.
    pub fn describe(&self, ip: &str) -> (r: String)
        ensures
            r@ == match self.spec_port() {
                Some(port) => ip@ + ":"@ + text::decimal(port as nat) + " "@ + self.nat_type(),
                None => ip@ + " "@ + self.nat_type(),
            },
    {
        let mut r = ip.to_owned();
        match self.port() {
            Some(port) => {
                append_text(&mut r, ":");
                append_text(&mut r, decimal_text(port as u64).as_str());
            },
            None => {},
        }
        append_text(&mut r, " ");
        match self {
            PeerConnectionDetails::NoNat(_) => append_text(&mut r, "No NAT"),
            PeerConnectionDetails::Asymmetric(_) => append_text(&mut r, "Asymmetric NAT"),
            PeerConnectionDetails::Symmetric(_) => append_text(&mut r, "Symmetric NAT"),
        }
        r
    }
}

/// Details of an announced peer
#[derive(Clone, Copy, Debug, PartialEq, Eq, Hash)]
pub struct AnnounceAddress {
    pub connection_details: PeerConnectionDetails,
    pub public_key: PeerId,
}

/// Why a text is not an announce code.
#[derive(PartialEq, Debug, Clone)]
pub enum AnnounceAddressDecodeError {
    BadLength,
    UnrecognizedTypeValue,
    ParseInt,
    Base64(String),
    NoPort,
    PublicKey(String),
}

impl AnnounceAddressDecodeError {
    /// What the error prints.
    pub open spec fn message(self) -> Seq<char> {
        match self {
            AnnounceAddressDecodeError::BadLength => "Bad length"@,
            AnnounceAddressDecodeError::UnrecognizedTypeValue => "Type value is invalid"@,
            AnnounceAddressDecodeError::ParseInt => "Cannot parse integer"@,
            AnnounceAddressDecodeError::Base64(_) => "Bad base64"@,
            AnnounceAddressDecodeError::NoPort => "No port given when one was expected"@,
            AnnounceAddressDecodeError::PublicKey(error) => "Invalid public key: "@ + error@,
        }
    }

    /// The error as text.
    pub fn to_string(&self) -> (r: String)
        ensures
            r@ == self.message(),
    {
        match self {
            AnnounceAddressDecodeError::BadLength => "Bad length".to_owned(),
            AnnounceAddressDecodeError::UnrecognizedTypeValue => "Type value is invalid".to_owned(),
            AnnounceAddressDecodeError::ParseInt => "Cannot parse integer".to_owned(),
            AnnounceAddressDecodeError::Base64(_) => "Bad base64".to_owned(),
            AnnounceAddressDecodeError::NoPort => "No port given when one was expected".to_owned(),
            AnnounceAddressDecodeError::PublicKey(error) => joined(
                "Invalid public key: ",
                error.as_str(),
            ),
        }
    }
}

/// The number that tells the kind of NAT and of address.
pub open spec fn type_value(details: PeerConnectionDetails) -> nat {
    let kind: nat = match details {
        PeerConnectionDetails::NoNat(_) => 0,
        PeerConnectionDetails::Symmetric(_) => 1,
        PeerConnectionDetails::Asymmetric(_) => 2,
    };
    match details.spec_ip() {
        IpAddr::V4(_) => kind,
        IpAddr::V6(_) => kind + 3,
    }
}

/// The port, where there is one, and the IP address as bytes.
pub open spec fn contact_bytes(details: PeerConnectionDetails) -> Seq<u8> {
    let port = match details.spec_port() {
        Some(port) => bytes::be_bytes(port as nat, 2),
        None => Seq::<u8>::empty(),
    };
    port + details.spec_ip().spec_octets()
}

/// The number of bytes of port and address that a type value stands for.
pub open spec fn contact_len(type_value: int) -> nat {
    if type_value == 0 || type_value == 2 {
        6
    } else if type_value == 1 {
        4
    } else if type_value == 4 {
        16
    } else {
        18
    }
}

/// The announce code: the peer's identity, the port and address in base64, and the type value as
/// one digit.
pub open spec fn announce_code(address: AnnounceAddress) -> Seq<char> {
    (peer_id::id_text(address.public_key@) + base64_text::base64_text(
        false,
        contact_bytes(address.connection_details),
    )).push(crate::text::digit_char(type_value(address.connection_details)))
}

/// An address without what a code does not carry: the flow information and the scope of an IPv6
/// address.
pub open spec fn plain_socket(addr: SocketAddr) -> SocketAddr {
    SocketAddr::spec_new(addr.spec_ip(), addr.spec_port())
}

/// Connection details without what a code does not carry.
pub open spec fn plain_details(details: PeerConnectionDetails) -> PeerConnectionDetails {
    match details {
        PeerConnectionDetails::NoNat(addr) => PeerConnectionDetails::NoNat(plain_socket(addr)),
        PeerConnectionDetails::Asymmetric(addr) => PeerConnectionDetails::Asymmetric(
            plain_socket(addr),
        ),
        PeerConnectionDetails::Symmetric(ip) => PeerConnectionDetails::Symmetric(ip),
    }
}

/// The value of the last character over `'0'`.
pub open spec fn code_type(code: Seq<char>) -> int {
    code.last() as int - '0' as int
}

/// Whether a code ends in a type value that is known and has the length that goes with it.
pub open spec fn well_sized(code: Seq<char>) -> bool {
    &&& is_ascii_chars(code)
    &&& code.len() > 0
    &&& 0 <= code_type(code) <= 5
    &&& code.len() == 43 + base64_text::base64_len(contact_len(code_type(code))) + 1
}

proof fn lemma_contact_len(details: PeerConnectionDetails)
    ensures
        contact_bytes(details).len() == contact_len(type_value(details) as int),
        type_value(details) <= 5,
{
    match details.spec_ip() {
        IpAddr::V4(bits) => bytes::lemma_be_bytes_len(bits as nat, 4),
        IpAddr::V6(bits) => bytes::lemma_be_bytes_len(bits as nat, 16),
    }
    match details.spec_port() {
        Some(port) => bytes::lemma_be_bytes_len(port as nat, 2),
        None => {},
    }
}

/// The parts of an announce code.
proof fn lemma_code_shape(address: AnnounceAddress)
    ensures
        well_sized(announce_code(address)),
        code_type(announce_code(address)) == type_value(address.connection_details),
        announce_code(address).subrange(0, 43) == peer_id::id_text(address.public_key@),
        announce_code(address).subrange(43, announce_code(address).len() - 1) == base64_text::base64_text(
            false,
            contact_bytes(address.connection_details),
        ),
{
    let code = announce_code(address);
    let id = address.public_key@;
    let contact = contact_bytes(address.connection_details);
    address.public_key.lemma_view(address.public_key);
    peer_id::lemma_id_text(id);
    lemma_contact_len(address.connection_details);
    assert forall|i: int| 0 <= i < code.len() implies 0 <= (#[trigger] code[i] as nat) < 128 by {
        if i < 43 {
            base64_text::lemma_base64_alphabet(true, id, i);
        } else if i < code.len() - 1 {
            base64_text::lemma_base64_alphabet(false, contact, i - 43);
        }
    }
    assert(code.subrange(0, 43) =~= peer_id::id_text(id));
    assert(code.subrange(43, code.len() - 1) =~= base64_text::base64_text(false, contact));
}

/// A code that was decoded gives back the address that was encoded, but for the flow information
/// and the scope of an IPv6 address, which a code does not carry.
pub proof fn law_announce_code_round_trip(address: AnnounceAddress, decoded: AnnounceAddress)
    requires
        announce_code(decoded) == announce_code(address),
        decoded.connection_details == plain_details(decoded.connection_details),
    ensures
        decoded.public_key == address.public_key,
        decoded.connection_details == plain_details(address.connection_details),
{
    lemma_code_shape(address);
    lemma_code_shape(decoded);
    let a = address.connection_details;
    let d = decoded.connection_details;
    base64_text::lemma_base64_injective(true, address.public_key@, decoded.public_key@);
    address.public_key.lemma_view(decoded.public_key);
    base64_text::lemma_base64_injective(false, contact_bytes(a), contact_bytes(d));
    lemma_contact_split(a);
    lemma_contact_split(d);
}

/// Port and address can be read back from their bytes.
proof fn lemma_contact_split(details: PeerConnectionDetails)
    ensures
        ({
            let b = contact_bytes(details);
            let n = b.len() as int;
            let w = if details.spec_ip() is V4 {
                4int
            } else {
                16int
            };
            &&& details.spec_ip() matches IpAddr::V4(bits) ==> bytes::be_value(b.subrange(n - w, n))
                == bits
            &&& details.spec_ip() matches IpAddr::V6(bits) ==> bytes::be_value(b.subrange(n - w, n))
                == bits
            &&& details.spec_port() matches Some(port) ==> bytes::be_value(b.subrange(0, n - w)) == port
        }),
{
    bytes::lemma_byte_ranges();
    let b = contact_bytes(details);
    let n = b.len() as int;
    match details.spec_ip() {
        IpAddr::V4(bits) => {
            bytes::lemma_be_bytes_len(bits as nat, 4);
            bytes::lemma_be_value_of_bytes(bits as nat, 4);
            assert(b.subrange(n - 4, n) =~= bytes::be_bytes(bits as nat, 4));
        },
        IpAddr::V6(bits) => {
            bytes::lemma_be_bytes_len(bits as nat, 16);
            bytes::lemma_be_value_of_bytes(bits as nat, 16);
            assert(b.subrange(n - 16, n) =~= bytes::be_bytes(bits as nat, 16));
        },
    }
    match details.spec_port() {
        Some(port) => {
            bytes::lemma_be_bytes_len(port as nat, 2);
            bytes::lemma_be_value_of_bytes(port as nat, 2);
            let w = if details.spec_ip() is V4 {
                4int
            } else {
                16int
            };
            assert(b.subrange(0, n - w) =~= bytes::be_bytes(port as nat, 2));
        },
        None => {},
    }
}

/// Why a text is no announce code.
pub open spec fn is_decode_error(code: Seq<char>, error: AnnounceAddressDecodeError) -> bool {
    match error {
        AnnounceAddressDecodeError::BadLength => {
            ||| !is_ascii_chars(code)
            ||| code.len() == 0
            ||| 0 <= code_type(code) <= 5 && !well_sized(code)
        },
        AnnounceAddressDecodeError::ParseInt => is_ascii_chars(code)
            && code.len() > 0 && code_type(code) < 0,
        AnnounceAddressDecodeError::UnrecognizedTypeValue => is_ascii_chars(
            code,
        ) && code.len() > 0 && code_type(code) > 5,
        AnnounceAddressDecodeError::PublicKey(error) => {
            &&& well_sized(code)
            &&& forall|id: Seq<u8>|
                id.len() == 32 ==> #[trigger] peer_id::id_text(id) != code.subrange(0, 43)
            &&& error@ == "invalid peer ID base64url: "@ + base64_text::base64_error(
                true,
                code.subrange(0, 43),
            )
        },
        AnnounceAddressDecodeError::Base64(error) => {
            &&& well_sized(code)
            &&& exists|id: Seq<u8>|
                id.len() == 32 && #[trigger] peer_id::id_text(id) == code.subrange(0, 43)
            &&& forall|b: Seq<u8>| #[trigger]
                base64_text::base64_text(false, b) != code.subrange(
                    43,
                    code.len() - 1,
                )
            &&& error@ == base64_text::base64_error(
                false,
                code.subrange(43, code.len() - 1),
            )
        },
        AnnounceAddressDecodeError::NoPort => false,
    }
}

impl AnnounceAddress {
    /// Whether two addresses are the same.
    pub fn same_as(&self, other: &AnnounceAddress) -> (r: bool)
        ensures
            r == (*self == *other),
    {
        proof {
            self.public_key.lemma_view(other.public_key);
        }
        self.connection_details == other.connection_details && self.public_key == other.public_key
    }

    /// The announce code of this address.
    pub fn to_string(&self) -> (r: String)
        ensures
            r@ == announce_code(*self),
    {
        let mut number: u8 = match self.connection_details {
            PeerConnectionDetails::NoNat(_) => 0,
            PeerConnectionDetails::Symmetric(_) => 1,
            PeerConnectionDetails::Asymmetric(_) => 2,
        };
        let ip = self.connection_details.ip();
        if ip.is_ipv6() {
            number = number + 3;
        }
        let mut contact: Vec<u8> = match self.connection_details.port() {
            Some(port) => {
                proof {
                    bytes::lemma_be_bytes_len(port as nat, 2);
                }
                to_be_bytes(port as u128, 2)
            },
            None => Vec::new(),
        };
        append_bytes(&mut contact, ip.octets().as_slice());
        let mut code = self.public_key.to_string();
        let contact_text = standard_encode(contact.as_slice());
        append_text(&mut code, contact_text.as_str());
        code.push((48u8 + number) as char);
        code
    }

    /// Reads port and address from the bytes that a code carries.
    fn from_contact(kind: u8, contact: &[u8], public_key: PeerId) -> (r: AnnounceAddress)
        requires
            kind <= 5,
            contact@.len() == contact_len(kind as int),
        ensures
            r.public_key == public_key,
            type_value(r.connection_details) == kind,
            contact_bytes(r.connection_details) == contact@,
            r.connection_details == plain_details(r.connection_details),
    {
        proof {
            bytes::lemma_byte_ranges();
        }
        let n: usize = contact.len();
        let width: usize = if kind > 2 {
            16
        } else {
            4
        };
        let ip_bytes = copy_range(contact, n - width, n);
        let port_bytes = copy_range(contact, 0, n - width);
        proof {
            bytes::lemma_be_bytes_of_value(ip_bytes@);
            bytes::lemma_be_bytes_of_value(port_bytes@);
            assert(port_bytes@ + ip_bytes@ =~= contact@);
        }
        let ip_bits: u128 = from_be_bytes(ip_bytes.as_slice());
        let ip = if kind > 2 {
            IpAddr::V6(ip_bits)
        } else {
            IpAddr::V4(ip_bits as u32)
        };
        let family_free: u8 = if kind > 2 {
            kind - 3
        } else {
            kind
        };
        let connection_details = if family_free == 1 {
            assert(port_bytes@ =~= Seq::<u8>::empty());
            PeerConnectionDetails::Symmetric(ip)
        } else {
            let port: u16 = from_be_bytes(port_bytes.as_slice()) as u16;
            if family_free == 0 {
                PeerConnectionDetails::NoNat(SocketAddr::new(ip, port))
            } else {
                PeerConnectionDetails::Asymmetric(SocketAddr::new(ip, port))
            }
        };
        AnnounceAddress { connection_details, public_key }
    }

    /// Decodes an announce code. A text is accepted exactly where it is the code of some address.
    pub fn from_string(input_string: String) -> (r: Result<
        AnnounceAddress,
        AnnounceAddressDecodeError,
    >)
        ensures
            r is Ok <==> exists|address: AnnounceAddress| #[trigger]
                announce_code(address) == input_string@,
            match r {
                Ok(address) => announce_code(address) == input_string@
                    && address.connection_details == plain_details(address.connection_details),
                Err(error) => is_decode_error(input_string@, error),
            },
    {
        let ghost code = input_string@;
        assert forall|address: AnnounceAddress| announce_code(address) == code implies well_sized(
            code,
        ) by {
            lemma_code_shape(address);
        }
        if !input_string.as_str().is_ascii() {
            return Err(AnnounceAddressDecodeError::BadLength);
        }
        let chars = chars_of(input_string.as_str());
        if chars.len() == 0 {
            return Err(AnnounceAddressDecodeError::BadLength);
        }
        let last: u32 = chars[chars.len() - 1] as u32;
        if last < 48 {
            return Err(AnnounceAddressDecodeError::ParseInt);
        }
        let kind: u32 = last - 48;
        if kind > 5 {
            return Err(AnnounceAddressDecodeError::UnrecognizedTypeValue);
        }
        let contact_bytes_len: usize = if kind == 0 || kind == 2 {
            6
        } else if kind == 1 {
            4
        } else if kind == 4 {
            16
        } else {
            18
        };
        let contact_chars: usize = (contact_bytes_len * 8 + 5) / 6;
        if chars.len() != 43 + contact_chars + 1 {
            return Err(AnnounceAddressDecodeError::BadLength);
        }
        let id_part = sub_text(input_string.as_str(), 0, 43);
        proof {
            assert(is_ascii_chars(id_part@));
            is_ascii_chars_encode_utf8(id_part@);
        }
        let public_key = match PeerId::from_str(id_part.as_str()) {
            Ok(public_key) => public_key,
            Err(error) => {
                assert forall|address: AnnounceAddress| announce_code(address) != code by {
                    lemma_code_shape(address);
                    address.public_key.lemma_view(address.public_key);
                    assert(peer_id::id_text(address.public_key@).len() == 43);
                }
                return Err(AnnounceAddressDecodeError::PublicKey(error.to_string()));
            },
        };
        let contact_part = sub_text(input_string.as_str(), 43, 43 + contact_chars);
        match standard_decode(contact_part.as_str()) {
            Err(error) => {
                assert forall|address: AnnounceAddress| announce_code(address) != code by {
                    lemma_code_shape(address);
                    assert(base64_text::base64_text(false, contact_bytes(address.connection_details)).len() >= 0);
                }
                Err(AnnounceAddressDecodeError::Base64(error))
            },
            Ok(contact) => {
                assert(base64_text::base64_len(contact@.len()) == contact_part@.len());
                assert(contact@.len() == contact_len(kind as int));
                let address = AnnounceAddress::from_contact(
                    kind as u8,
                    contact.as_slice(),
                    public_key,
                );
                assert(announce_code(address) =~= code);
                Ok(address)
            },
        }
    }
}

/// The last character of a code tells the kind of NAT and of address, so that all peers read it
/// alike.
pub proof fn law_code_ends_in_the_kind(address: AnnounceAddress)
    ensures
        ({
            let details = address.connection_details;
            let is_v4 = details.spec_ip() is V4;
            announce_code(address).last() == match details {
                PeerConnectionDetails::NoNat(_) => if is_v4 {
                    '0'
                } else {
                    '3'
                },
                PeerConnectionDetails::Symmetric(_) => if is_v4 {
                    '1'
                } else {
                    '4'
                },
                PeerConnectionDetails::Asymmetric(_) => if is_v4 {
                    '2'
                } else {
                    '5'
                },
            }
        }),
{
}

/// A peer that has a port of its own is at the address that it announces. One behind a symmetric
/// NAT announces no port.
pub proof fn law_details_are_those_of_the_address(addr: SocketAddr, ip: IpAddr)
    ensures
        PeerConnectionDetails::NoNat(addr).spec_ip() == addr.spec_ip(),
        PeerConnectionDetails::NoNat(addr).spec_port() == Some(addr.spec_port()),
        PeerConnectionDetails::Asymmetric(addr).spec_ip() == addr.spec_ip(),
        PeerConnectionDetails::Asymmetric(addr).spec_port() == Some(addr.spec_port()),
        PeerConnectionDetails::Symmetric(ip).spec_ip() == ip,
        PeerConnectionDetails::Symmetric(ip).spec_port() is None,
{
}

/// No code of an address is refused, whatever the reason.
pub proof fn law_codes_are_not_refused(address: AnnounceAddress, error: AnnounceAddressDecodeError)
    ensures
        !is_decode_error(announce_code(address), error),
{
    lemma_code_shape(address);
    lemma_contact_len(address.connection_details);
    address.public_key.lemma_view(address.public_key);
}

/// A code is refused by its last character if that is no digit up to five: as an unknown kind if it
/// comes after these, and as no number if it comes before them.
pub proof fn law_unknown_kinds_are_refused(code: Seq<char>)
    requires
        is_ascii_chars(code),
        code.len() > 0,
    ensures
        is_decode_error(code, AnnounceAddressDecodeError::UnrecognizedTypeValue) <==> code.last() > '5',
        is_decode_error(code, AnnounceAddressDecodeError::ParseInt) <==> code.last() < '0',
        is_decode_error(code, AnnounceAddressDecodeError::BadLength) ==> '0' <= code.last() <= '5',
{
}

} // verus!
