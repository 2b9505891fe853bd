//! Peer discovery on local network using mDNS
use crate::announce_address;
use crate::announce_address::{AnnounceAddress, AnnounceAddressDecodeError};
use crate::bytes::copy_range;
use crate::net::{IpAddr, SocketAddr};
use crate::text;
use crate::text::{is_text_greater, joined, same_text, string_from_utf8};
use vstd::prelude::*;
use vstd::utf8::*;

verus! {

/// Name of the mDNS service
pub const SERVICE_TYPE: &'static str = "_hdp._udp.local.";

/// Used when giving the announce address as a property of a service
pub const ANNOUNCE_ADDRESS_PROPERTY_NAME: &'static str = "hdp-aa";

/// An address of a service, with the interface it is reached through.
#[allow(inconsistent_fields)]
#[derive(Clone, Copy, Debug, PartialEq, Eq, Structural)]
pub enum ScopedIp {
    V4(u32),
    V6 { ip: u128, scope_id: u32 },
}

/// The service under which we announce ourself.
#[derive(Debug)]
pub struct ServiceInfo {
    pub service_type: String,
    pub instance_name: String,
    pub host_name: String,
    pub ip: IpAddr,
    pub port: u16,
    pub property_name: String,
    pub property_value: String,
}

/// A service that was found.
#[derive(Debug)]
pub struct ResolvedService {
    pub service_type: String,
    pub port: u16,
    pub addresses: Vec<ScopedIp>,
    /// The value of the property that holds the announce address.
    pub announce_address: Option<String>,
}

/// Why a service is not that of a peer.
#[derive(Debug, PartialEq)]
pub enum MdnsError {
    ServiceType,
    NoAnnounceAddress,
    AnnounceAddress(AnnounceAddressDecodeError),
    NoIp,
}

impl MdnsError {
    /// What the error prints.
    pub open spec fn message(self) -> Seq<char> {
        match self {
            MdnsError::ServiceType => "Peer does not have expected service type"@,
            MdnsError::NoAnnounceAddress =>
                "Cannot get announce address property from mDNS service"@,
            MdnsError::AnnounceAddress(error) => error.message(),
            MdnsError::NoIp => "Cannot get IP from discovered mDNS service info"@,
        }
    }

    /// The error as text.
    pub fn to_string(&self) -> (r: String)
        ensures
            r@ == self.message(),
    {
        match self {
            MdnsError::ServiceType => "Peer does not have expected service type".to_owned(),
            MdnsError::NoAnnounceAddress => "Cannot get announce address property from mDNS service".to_owned(),
            MdnsError::AnnounceAddress(error) => error.to_string(),
            MdnsError::NoIp => "Cannot get IP from discovered mDNS service info".to_owned(),
        }
    }
}

/// The first bytes of an identifier, at most sixteen.
pub open spec fn instance_bytes(id: Seq<char>) -> Seq<u8> {
    let all = encode_utf8(id);
    if all.len() <= 16 {
        all
    } else {
        all.take(16)
    }
}

/// The start of an identifier, at most sixteen bytes long.
pub open spec fn instance_of(id: Seq<char>) -> Seq<char> {
    decode_utf8(instance_bytes(id))
}

/// The start of an identifier, at most sixteen bytes long, where that splits no character.
pub fn instance_name(id: &str) -> (r: String)
    requires
        valid_utf8(instance_bytes(id@)),
    ensures
        r@ == instance_of(id@),
{
    let all = id.as_bytes();
    let n: usize = if all.len() <= 16 {
        all.len()
    } else {
        16
    };
    let start = copy_range(all, 0, n);
    assert(start@ =~= instance_bytes(id@));
    match string_from_utf8(start) {
        Ok(name) => name,
        Err(_) => {
            assert(false);
            String::new()
        },
    }
}

/// Create an MDNS service that carries our announce code
pub fn create_service_info(id: &str, addr: &SocketAddr, announce_address: &AnnounceAddress) -> (r:
    ServiceInfo)
    requires
        valid_utf8(instance_bytes(id@)),
    ensures
        r.service_type@ == SERVICE_TYPE@,
        r.instance_name@ == instance_of(id@),
        r.host_name@ == instance_of(id@) + ".local."@,
        r.ip == addr.spec_ip(),
        r.port == addr.spec_port(),
        r.property_name@ == ANNOUNCE_ADDRESS_PROPERTY_NAME@,
        r.property_value@ == announce_address::announce_code(*announce_address),
{
    let instance_name = instance_name(id);
    // Both instance name and hostname are derived from the peer's public key,
    // so collisions are not possible.
    let host_name = joined(instance_name.as_str(), ".local.");
    ServiceInfo {
        service_type: SERVICE_TYPE.to_owned(),
        instance_name,
        host_name,
        ip: addr.ip(),
        port: addr.port(),
        property_name: ANNOUNCE_ADDRESS_PROPERTY_NAME.to_owned(),
        property_value: announce_address.to_string(),
    }
}

/// The first address of a family.
pub open spec fn first_of_family(addresses: Seq<ScopedIp>, v4: bool) -> Option<ScopedIp>
    decreases addresses.len(),
{
    if addresses.len() == 0 {
        None
    } else if (addresses[0] is V4) == v4 {
        Some(addresses[0])
    } else {
        first_of_family(addresses.drop_first(), v4)
    }
}

/// The address to use: the first of our own family, or else the first of all.
pub open spec fn preferred(addresses: Seq<ScopedIp>, v4: bool) -> Option<ScopedIp> {
    if first_of_family(addresses, v4) is Some {
        first_of_family(addresses, v4)
    } else if addresses.len() > 0 {
        Some(addresses[0])
    } else {
        None
    }
}

fn find_family(addresses: &Vec<ScopedIp>, v4: bool) -> (r: Option<ScopedIp>)
    ensures
        r == first_of_family(addresses@, v4),
{
    let mut i: usize = 0;
    assert(addresses@.skip(0) =~= addresses@);
    while i < addresses.len()
        invariant
            i <= addresses@.len(),
            first_of_family(addresses@, v4) == first_of_family(addresses@.skip(i as int), v4),
        decreases addresses@.len() - i,
    {
        let is_v4 = match addresses[i] {
            ScopedIp::V4(_) => true,
            ScopedIp::V6 { .. } => false,
        };
        if is_v4 == v4 {
            return Some(addresses[i]);
        }
        assert(addresses@.skip(i as int).drop_first() =~= addresses@.skip(i + 1));
        i += 1;
    }
    None
}

/// The socket address of a service, which keeps the scope of an IPv6 address.
pub open spec fn scoped_socket(ip: ScopedIp, port: u16) -> SocketAddr {
    match ip {
        ScopedIp::V4(ip) => SocketAddr::V4 { ip, port },
        ScopedIp::V6 { ip, scope_id } => SocketAddr::V6 { ip, port, flowinfo: 0, scope_id },
    }
}

/// The socket address of a service, which keeps the scope of an IPv6 address.
pub fn socket_addr_from_scoped_ip(ip: &ScopedIp, port: u16) -> (r: SocketAddr)
    ensures
        r == scoped_socket(*ip, port),
{
    match ip {
        ScopedIp::V4(ip) => SocketAddr::V4 { ip: *ip, port },
        ScopedIp::V6 { ip, scope_id } => SocketAddr::V6 {
            ip: *ip,
            port,
            flowinfo: 0,
            scope_id: *scope_id,
        },
    }
}

/// Handle a discovered [ResolvedService] from a remote peer
pub fn parse_peer_info(info: &ResolvedService, our_addr: &SocketAddr) -> (r: Result<
    (SocketAddr, AnnounceAddress),
    MdnsError,
>)
    ensures
        match r {
            Ok((addr, announce_address)) => {
                &&& info.service_type@ == SERVICE_TYPE@
                &&& info.announce_address matches Some(code) && code@ == announce_address::announce_code(
                    announce_address,
                )
                &&& announce_address.connection_details == announce_address::plain_details(
                    announce_address.connection_details,
                )
                &&& preferred(info.addresses@, *our_addr is V4) matches Some(ip) && addr
                    == scoped_socket(ip, info.port)
            },
            Err(MdnsError::ServiceType) => info.service_type@ != SERVICE_TYPE@,
            Err(MdnsError::NoAnnounceAddress) => info.service_type@ == SERVICE_TYPE@
                && info.announce_address is None,
            Err(MdnsError::AnnounceAddress(error)) => {
                &&& info.service_type@ == SERVICE_TYPE@
                &&& info.announce_address is Some
                &&& announce_address::is_decode_error(info.announce_address->Some_0@, error)
                &&& forall|address: AnnounceAddress| #[trigger]
                    announce_address::announce_code(address) != info.announce_address->Some_0@
            },
            Err(MdnsError::NoIp) => {
                &&& info.service_type@ == SERVICE_TYPE@
                &&& info.announce_address is Some
                &&& exists|address: AnnounceAddress| #[trigger]
                    announce_address::announce_code(address) == info.announce_address->Some_0@
                &&& info.addresses@.len() == 0
            },
        },
{
    if !same_text(info.service_type.as_str(), SERVICE_TYPE) {
        return Err(MdnsError::ServiceType);
    }
    let code = match &info.announce_address {
        Some(code) => code.clone(),
        None => {
            return Err(MdnsError::NoAnnounceAddress);
        },
    };
    let announce_address = match AnnounceAddress::from_string(code) {
        Ok(announce_address) => announce_address,
        Err(error) => {
            return Err(MdnsError::AnnounceAddress(error));
        },
    };
    let we_are_v4 = match our_addr {
        SocketAddr::V4 { .. } => true,
        SocketAddr::V6 { .. } => false,
    };
    let chosen = match find_family(&info.addresses, we_are_v4) {
        Some(ip) => ip,
        None => {
            if info.addresses.len() == 0 {
                return Err(MdnsError::NoIp);
            }
            info.addresses[0]
        },
    };
    Ok((socket_addr_from_scoped_ip(&chosen, info.port), announce_address))
}

/// What to do about a peer that was found on the local network.
#[derive(Clone, Copy, Debug, PartialEq, Eq, Structural)]
pub enum MdnsAction {
    /// It is ourself.
    Ignore,
    /// Remember the peer, and wait for it to connect.
    Remember,
    /// Remember the peer, and connect to it.
    Connect,
}

/// Only connect if our address is lexicographicaly greater than theirs - to prevent duplicate
/// connections. Takes both addresses also as text.
pub fn handle_mdns_peer(our_addr: &SocketAddr, their_addr: &SocketAddr, us: &str, them: &str) -> (r:
    MdnsAction)
    ensures
        r == if *our_addr == *their_addr {
            MdnsAction::Ignore
        } else if text::text_greater(us@, them@) {
            MdnsAction::Connect
        } else {
            MdnsAction::Remember
        },
{
    if *our_addr == *their_addr {
        MdnsAction::Ignore
    } else if is_text_greater(us, them) {
        MdnsAction::Connect
    } else {
        MdnsAction::Remember
    }
}

/// Of two peers on the local network whose addresses differ as text, exactly one connects.
pub proof fn law_one_side_connects_by_text(us: Seq<char>, them: Seq<char>)
    requires
        us != them,
    ensures
        text::text_greater(us, them) != text::text_greater(them, us),
{
    encode_utf8_decode_utf8(us);
    encode_utf8_decode_utf8(them);
    text::lemma_bytes_less_total(encode_utf8(us), encode_utf8(them));
}

/// The address of a peer that has several is one of them: of those of our own family the first, and
/// the first of all only where none is of our family.
pub proof fn law_own_family_is_preferred(addresses: Seq<ScopedIp>, v4: bool)
    ensures
        match preferred(addresses, v4) {
            Some(ip) => exists|i: int|
                0 <= i < addresses.len() && #[trigger] addresses[i] == ip && {
                    ||| (ip is V4) == v4 && forall|k: int|
                        0 <= k < i ==> ((#[trigger] addresses[k]) is V4) != v4
                    ||| i == 0 && forall|k: int|
                        0 <= k < addresses.len() ==> ((#[trigger] addresses[k]) is V4) != v4
                },
            None => addresses.len() == 0,
        },
{
    lemma_first_of_family(addresses, v4);
    match first_of_family(addresses, v4) {
        Some(ip) => {
            let i = choose|i: int|
                0 <= i < addresses.len() && #[trigger] addresses[i] == ip && (ip is V4) == v4
                    && forall|k: int| 0 <= k < i ==> ((#[trigger] addresses[k]) is V4) != v4;
            assert(addresses[i] == ip);
        },
        None => {
            if addresses.len() > 0 {
                assert(addresses[0] == addresses[0]);
            }
        },
    }
}

proof fn lemma_first_of_family(addresses: Seq<ScopedIp>, v4: bool)
    ensures
        match first_of_family(addresses, v4) {
            Some(ip) => exists|i: int|
                0 <= i < addresses.len() && #[trigger] addresses[i] == ip && (ip is V4) == v4
                    && forall|k: int| 0 <= k < i ==> ((#[trigger] addresses[k]) is V4) != v4,
            None => forall|k: int|
                0 <= k < addresses.len() ==> ((#[trigger] addresses[k]) is V4) != v4,
        },
    decreases addresses.len(),
{
    if addresses.len() > 0 {
        let rest = addresses.drop_first();
        if (addresses[0] is V4) == v4 {
            assert(addresses[0] == first_of_family(addresses, v4)->Some_0);
        } else {
            lemma_first_of_family(rest, v4);
            match first_of_family(rest, v4) {
                Some(ip) => {
                    let i = choose|i: int|
                        0 <= i < rest.len() && #[trigger] rest[i] == ip && (ip is V4) == v4
                            && forall|k: int| 0 <= k < i ==> ((#[trigger] rest[k]) is V4) != v4;
                    assert(addresses[i + 1] == ip);
                    assert forall|k: int| 0 <= k < i + 1 implies ((#[trigger] addresses[k]) is V4)
                        != v4 by {
                        if k > 0 {
                            assert(rest[k - 1] == addresses[k]);
                        }
                    }
                },
                None => {
                    assert forall|k: int| 0 <= k < addresses.len() implies ((
                    #[trigger] addresses[k]) is V4) != v4 by {
                        if k > 0 {
                            assert(rest[k - 1] == addresses[k]);
                        }
                    }
                },
            }
        }
    }
}

/// The socket address of a service has the IP, the port and, for IPv6, the scope that were found.
pub proof fn law_service_address_keeps_its_scope(ip: ScopedIp, port: u16)
    ensures
        scoped_socket(ip, port).spec_port() == port,
        match ip {
            ScopedIp::V4(bits) => scoped_socket(ip, port).spec_ip() == IpAddr::V4(bits),
            ScopedIp::V6 { ip: bits, scope_id } => {
                &&& scoped_socket(ip, port).spec_ip() == IpAddr::V6(bits)
                &&& scoped_socket(ip, port) matches SocketAddr::V6 { scope_id: kept, .. }
                &&& kept == scope_id
            },
        },
{
}

/// The name of an instance is the identifier, or where that is longer its first sixteen bytes.
pub proof fn law_instance_names_are_short(id: Seq<char>)
    ensures
        encode_utf8(id).len() <= 16 ==> instance_bytes(id) == encode_utf8(id) && instance_of(id) == id,
        encode_utf8(id).len() > 16 ==> instance_bytes(id).len() == 16 && instance_bytes(id)
            + encode_utf8(id).skip(16) == encode_utf8(id),
{
    broadcast use vstd::utf8::group_utf8_lib;

    let all = encode_utf8(id);
    if all.len() > 16 {
        assert(all.take(16) + all.skip(16) =~= all);
    }
}

} // verus!
