//! Peer discovery on local network using mDNS, for peers that know a topic
use crate::connections::discovery::mdns;
use crate::connections::discovery::mdns::{SERVICE_TYPE, instance_name};
use crate::discovery::capability::{handshake_request, handshake_response};
use crate::discovery::handshake::{HandshakeRequest, to_request};
use crate::discovery::topic::Topic;
use crate::discovery::{capability, handshake};
use crate::hex_text;
use crate::hex_text::{hex_decode, hex_encode};
use crate::net::{IpAddr, SocketAddr};
use crate::table::NameTable;
use crate::text;
use crate::text::{chars_of, decimal_text, is_text_greater, joined, same_text};
use vstd::prelude::*;
use vstd::utf8::*;

verus! {

/// Used in the naming of a topic when given as a property of a service
pub const TOPIC: &'static str = "topic";

/// The service under which we announce ourself, with a proof for each topic that we know it.
#[derive(Debug)]
pub struct TopicService {
    pub service_type: String,
    pub instance_name: String,
    pub host_name: String,
    pub ip: u32,
    pub port: u16,
    pub properties: Vec<(String, String)>,
}

/// Whether the property with an index proves that we know a topic.
pub open spec fn proves(
    property: (String, String),
    index: int,
    topic: Topic,
    address: Seq<char>,
    token: Seq<u8>,
) -> bool {
    &&& property.0@ == TOPIC@ + text::decimal(index as nat)
    &&& exists|request: HandshakeRequest|
        handshake::is_request(capability::capability_key(topic.hash@, address), #[trigger] request@, token)
            && property.1@ == hex_text::hex_text(request@)
}

/// Create an MDNS service with capabilities from the currently connected topics as properties.
/// Takes our address also as text.
pub fn create_service_info(
    topics: &Vec<Topic>,
    id: &str,
    addr: &SocketAddr,
    address: &str,
    token: &[u8; 32],
) -> (r: Result<TopicService, String>)
    requires
        valid_utf8(mdns::instance_bytes(id@)),
    ensures
        match addr.spec_ip() {
            IpAddr::V4(ip) => {
                &&& r matches Ok(service)
                &&& service.service_type@ == SERVICE_TYPE@
                &&& service.instance_name@ == mdns::instance_of(id@)
                &&& service.host_name@ == "localhost"@
                &&& service.ip == ip
                &&& service.port == addr.spec_port()
                &&& service.properties@.len() == topics@.len()
                &&& forall|i: int|
                    0 <= i < topics@.len() ==> proves(
                        #[trigger] service.properties@[i],
                        i,
                        topics@[i],
                        address@,
                        token@,
                    )
            },
            IpAddr::V6(_) => r matches Err(error) && error@
                == "ipv6 address cannot be used for MDNS"@,
        },
{
    let mut properties: Vec<(String, String)> = Vec::new();
    let n: usize = topics.len();
    let mut i: usize = 0;
    while i < n
        invariant
            i <= n,
            n == topics@.len(),
            properties@.len() == i,
            forall|k: int|
                0 <= k < i ==> proves(
                    #[trigger] properties@[k],
                    k,
                    topics@[k],
                    address@,
                    token@,
                ),
        decreases n - i,
    {
        let capability = handshake_request(&topics[i], address, token);
        let name = joined(TOPIC, decimal_text(i as u64).as_str());
        let value = hex_encode(capability.as_slice());
        proof {
            let property = (name, value);
            assert(capability@ == capability@);
            assert(proves(property, i as int, topics@[i as int], address@, token@));
        }
        properties.push((name, value));
        i += 1;
    }
    match addr.ip() {
        IpAddr::V4(ip) => {
            let instance_name = instance_name(id);
            Ok(
                TopicService {
                    service_type: SERVICE_TYPE.to_owned(),
                    instance_name,
                    host_name: "localhost".to_owned(),
                    ip,
                    port: addr.port(),
                    properties,
                },
            )
        },
        IpAddr::V6(_) => Err("ipv6 address cannot be used for MDNS".to_owned()),
    }
}

/// Whether a value of a property is a capability.
pub open spec fn is_capability(value: Seq<char>) -> bool {
    hex_text::is_hex(value) && value.len() == 112
}

/// The capabilities among the values of some properties.
pub open spec fn capabilities_in(values: Seq<String>) -> Seq<Seq<char>>
    decreases values.len(),
{
    if values.len() == 0 {
        Seq::empty()
    } else if is_capability(values.last()@) {
        capabilities_in(values.drop_last()).push(values.last()@)
    } else {
        capabilities_in(values.drop_last())
    }
}

/// Whether some bytes are what a text stands for.
pub open spec fn stands_for(text: Seq<char>, bytes: Seq<u8>) -> bool {
    &&& bytes.len() == text.len() / 2
    &&& forall|i: int| 0 <= i < bytes.len() ==> #[trigger] bytes[i] == hex_text::pair_value(text, i)
}

/// Handle a discovered service from a remote peer
pub fn parse_peer_info(
    service_type: &str,
    values: &Vec<String>,
    addresses: &Vec<u32>,
    port: u16,
) -> (r: Result<(SocketAddr, Vec<HandshakeRequest>), String>)
    ensures
        match r {
            Ok((addr, capabilities)) => {
                &&& service_type@ == SERVICE_TYPE@
                &&& addresses@.len() > 0
                &&& addr == SocketAddr::spec_new(IpAddr::V4(addresses@[0]), port)
                &&& capabilities@.len() == capabilities_in(values@).len()
                &&& forall|i: int|
                    0 <= i < capabilities@.len() ==> stands_for(
                        capabilities_in(values@)[i],
                        #[trigger] capabilities@[i]@,
                    )
            },
            Err(error) => {
                ||| service_type@ != SERVICE_TYPE@ && error@
                    == "Peer does not have expected service type"@
                ||| service_type@ == SERVICE_TYPE@ && addresses@.len() == 0 && error@
                    == "Cannot get IP from discovered mDNS service info"@
            },
        },
{
    if !same_text(service_type, SERVICE_TYPE) {
        return Err("Peer does not have expected service type".to_owned());
    }
    let mut capabilities: Vec<HandshakeRequest> = Vec::new();
    let mut i: usize = 0;
    assert(values@.take(0) =~= Seq::<String>::empty());
    while i < values.len()
        invariant
            i <= values@.len(),
            capabilities@.len() == capabilities_in(values@.take(i as int)).len(),
            forall|k: int|
                0 <= k < capabilities@.len() ==> stands_for(
                    capabilities_in(values@.take(i as int))[k],
                    #[trigger] capabilities@[k]@,
                ),
        decreases values@.len() - i,
    {
        assert(values@.take(i + 1).drop_last() =~= values@.take(i as int));
        assert(values@.take(i + 1).last() == values@[i as int]);
        match hex_decode(values[i].as_str()) {
            Some(bytes) => {
                if bytes.len() == 56 {
                    capabilities.push(to_request(bytes.as_slice()));
                }
            },
            None => {},
        }
        i += 1;
    }
    assert(values@.take(i as int) =~= values@);
    if addresses.len() == 0 {
        return Err("Cannot get IP from discovered mDNS service info".to_owned());
    }
    Ok((SocketAddr::new(IpAddr::V4(addresses[0]), port), capabilities))
}

/// Whether a capability does not show that its owner, at an address, knows a topic.
pub open spec fn is_bad(capability: HandshakeRequest, topic: Topic, address: Seq<char>) -> bool {
    exists|answer: Result<[u8; 32], String>|
        answer is Err && #[trigger] handshake::is_answer(
            capability::capability_key(topic.hash@, address),
            capability@,
            answer,
        )
}

/// Whether a capability shows that its owner, at an address, knows a topic, and holds this token.
pub open spec fn is_good(
    capability: HandshakeRequest,
    topic: Topic,
    address: Seq<char>,
    token: [u8; 32],
) -> bool {
    handshake::is_answer(
        capability::capability_key(topic.hash@, address),
        capability@,
        Ok::<[u8; 32], String>(token),
    )
}

/// Find a capability which matches one of our connected topics
pub fn try_topics(
    topics: &Vec<Topic>,
    capabilities: &Vec<HandshakeRequest>,
    their_address: &str,
) -> (r: Option<[u8; 32]>)
    ensures
        match r {
            Some(token) => exists|i: int, j: int|
                0 <= i < capabilities@.len() && 0 <= j < topics@.len() && #[trigger] is_good(
                    capabilities@[i],
                    topics@[j],
                    their_address@,
                    token,
                ) && forall|k: int, l: int|
                    (0 <= k < i && 0 <= l < topics@.len()) || (k == i && 0 <= l < j)
                        ==> #[trigger] is_bad(capabilities@[k], topics@[l], their_address@),
            None => forall|k: int, l: int|
                0 <= k < capabilities@.len() && 0 <= l < topics@.len() ==> #[trigger] is_bad(
                    capabilities@[k],
                    topics@[l],
                    their_address@,
                ),
        },
{
    let mut i: usize = 0;
    while i < capabilities.len()
        invariant
            i <= capabilities@.len(),
            forall|k: int, l: int|
                0 <= k < i && 0 <= l < topics@.len() ==> #[trigger] is_bad(
                    capabilities@[k],
                    topics@[l],
                    their_address@,
                ),
        decreases capabilities@.len() - i,
    {
        let mut j: usize = 0;
        while j < topics.len()
            invariant
                i < capabilities@.len(),
                j <= topics@.len(),
                forall|k: int, l: int|
                    0 <= k < i && 0 <= l < topics@.len() ==> #[trigger] is_bad(
                        capabilities@[k],
                        topics@[l],
                        their_address@,
                    ),
                forall|l: int|
                    0 <= l < j ==> #[trigger] is_bad(
                        capabilities@[i as int],
                        topics@[l],
                        their_address@,
                    ),
            decreases topics@.len() - j,
        {
            let answer = handshake_response(capabilities[i], &topics[j], their_address);
            match answer {
                Ok(their_token) => {
                    let r = Some(their_token);
                    proof {
                        let (a, b) = (i as int, j as int);
                        assert(is_good(capabilities@[a], topics@[b], their_address@, r->Some_0));
                        assert(forall|k: int, l: int|
                            (0 <= k < a && 0 <= l < topics@.len()) || (k == a && 0 <= l < b)
                                ==> #[trigger] is_bad(capabilities@[k], topics@[l], their_address@));
                    }
                    return r;
                },
                Err(_) => {
                    assert(is_bad(capabilities@[i as int], topics@[j as int], their_address@));
                },
            }
            j += 1;
        }
        i += 1;
    }
    None
}

/// What comes of a peer that was found.
#[derive(Debug)]
pub enum FoundPeer {
    /// It is ourself.
    Ourself,
    /// It does not know any of our topics.
    UnknownTopic,
    /// It knows one of our topics, and will connect to us.
    Await { token: [u8; 32] },
    /// It knows one of our topics, and we connect to it.
    Connect { addr: SocketAddr, token: [u8; 32] },
}

/// Decides on a peer that was found, given the token that it showed to know a topic with, if any.
pub fn handle_found_peer(
    addr: &SocketAddr,
    address: &str,
    their_addr: SocketAddr,
    their_address: &str,
    their_token: Option<[u8; 32]>,
) -> (r: FoundPeer)
    ensures
        if their_addr == *addr {
            r is Ourself
        } else {
            match their_token {
                None => r is UnknownTopic,
                // Only connect if our address is lexicographicaly greater than
                // theirs - to prevent duplicate connections
                Some(token) => r == if text::text_greater(address@, their_address@) {
                    FoundPeer::Connect { addr: their_addr, token }
                } else {
                    FoundPeer::Await { token }
                },
            }
        },
{
    if their_addr == *addr {
        return FoundPeer::Ourself;
    }
    match their_token {
        Some(token) => {
            if is_text_greater(address, their_address) {
                FoundPeer::Connect { addr: their_addr, token }
            } else {
                FoundPeer::Await { token }
            }
        },
        None => FoundPeer::UnknownTopic,
    }
}

/// Used in the naming of the port when given as a property of a service
pub const PORT: &'static str = "port";

/// The value of a decimal number.
pub open spec fn decimal_value(digits: Seq<char>) -> nat
    decreases digits.len(),
{
    if digits.len() == 0 {
        0
    } else {
        10 * decimal_value(digits.drop_last()) + (digits.last() as nat - 48) as nat
    }
}

/// Whether a text is a decimal number, perhaps with a sign.
pub open spec fn is_decimal(text: Seq<char>) -> bool {
    &&& unsigned(text).len() > 0
    &&& forall|i: int| 0 <= i < unsigned(text).len() ==> '0' <= #[trigger] unsigned(text)[i] <= '9'
}

/// A number without its sign.
pub open spec fn unsigned(text: Seq<char>) -> Seq<char> {
    if text.len() > 0 && text[0] == '+' {
        text.skip(1)
    } else {
        text
    }
}

/// A larger number has more digits or larger ones.
proof fn lemma_decimal_grows(digits: Seq<char>, n: int)
    requires
        0 <= n <= digits.len(),
    ensures
        decimal_value(digits.take(n)) <= decimal_value(digits),
    decreases digits.len() - n,
{
    if n < digits.len() {
        lemma_decimal_grows(digits, n + 1);
        assert(digits.take(n + 1).drop_last() =~= digits.take(n));
    } else {
        assert(digits.take(n) =~= digits);
    }
}

/// Reads a port.
pub fn parse_port(text: &str) -> (r: Option<u16>)
    ensures
        match r {
            Some(port) => is_decimal(text@) && decimal_value(unsigned(text@)) == port,
            None => !is_decimal(text@) || decimal_value(unsigned(text@)) > u16::MAX,
        },
{
    let chars = chars_of(text);
    let n: usize = chars.len();
    let start: usize = if n > 0 && chars[0] == '+' {
        1
    } else {
        0
    };
    let ghost digits = unsigned(text@);
    assert(digits =~= chars@.skip(start as int));
    if start == n {
        return None;
    }
    let mut value: u32 = 0;
    let mut i: usize = start;
    assert(digits.take(0) =~= Seq::<char>::empty());
    while i < n
        invariant
            start <= i <= n,
            n == chars@.len(),
            digits == unsigned(text@),
            digits == chars@.skip(start as int),
            value <= u16::MAX,
            value == decimal_value(digits.take(i - start)),
            forall|k: int| 0 <= k < i - start ==> '0' <= #[trigger] digits[k] <= '9',
        decreases n - i,
    {
        let c = chars[i];
        assert(digits[i - start] == c);
        if c < '0' || c > '9' {
            return None;
        }
        assert(digits.take(i + 1 - start).drop_last() =~= digits.take(i - start));
        value = 10 * value + (c as u32 - 48);
        if value > 65535 {
            proof {
                lemma_decimal_grows(digits, i + 1 - start);
            }
            return None;
        }
        i += 1;
    }
    assert(digits.take(n - start) =~= digits);
    Some(value as u16)
}

/// A peer discovered by mdns
#[derive(Debug)]
pub struct MdnsPeerInfo {
    pub addr: SocketAddr,
    pub topic: String,
}

/// Why a service is not that of a peer.
#[derive(Debug, Clone, Copy, PartialEq, Eq, Structural)]
pub enum MdnsPeerError {
    ServiceType,
    NoTopic,
    NoIp,
    NoPort,
    BadPort,
}

impl MdnsPeerInfo {
    /// Reads the properties of a service.
    pub fn new(
        service_type: &str,
        topic: Option<String>,
        address: Option<u32>,
        port: &Option<String>,
    ) -> (r: Result<MdnsPeerInfo, MdnsPeerError>)
        ensures
            if service_type@ != SERVICE_TYPE@ {
                r == Err::<MdnsPeerInfo, MdnsPeerError>(MdnsPeerError::ServiceType)
            } else if topic is None {
                r == Err::<MdnsPeerInfo, MdnsPeerError>(MdnsPeerError::NoTopic)
            } else if address is None {
                r == Err::<MdnsPeerInfo, MdnsPeerError>(MdnsPeerError::NoIp)
            } else if port is None {
                r == Err::<MdnsPeerInfo, MdnsPeerError>(MdnsPeerError::NoPort)
            } else {
                let text = port->Some_0@;
                match r {
                    Ok(info) => {
                        &&& is_decimal(text)
                        &&& Some(info.topic) == topic
                        &&& info.addr == SocketAddr::spec_new(
                            IpAddr::V4(address->Some_0),
                            info.addr.spec_port(),
                        )
                        &&& info.addr.spec_port() == decimal_value(unsigned(text))
                    },
                    Err(error) => {
                        &&& error == MdnsPeerError::BadPort
                        &&& !is_decimal(text) || decimal_value(unsigned(text)) > u16::MAX
                    },
                }
            },
    {
        if !same_text(service_type, SERVICE_TYPE) {
            return Err(MdnsPeerError::ServiceType);
        }
        match topic {
            Some(topic) => match address {
                Some(address) => match port {
                    Some(port) => match parse_port(port.as_str()) {
                        Some(port) => Ok(
                            MdnsPeerInfo { addr: SocketAddr::new(IpAddr::V4(address), port), topic },
                        ),
                        None => Err(MdnsPeerError::BadPort),
                    },
                    None => Err(MdnsPeerError::NoPort),
                },
                None => Err(MdnsPeerError::NoIp),
            },
            None => Err(MdnsPeerError::NoTopic),
        }
    }

    /// Whether to connect to the peer, whose address is also given as text: it has to have our
    /// topic and must not be ourself, and our address has to be the greater one.
    pub fn should_connect(
        &self,
        topic: &str,
        addr: &SocketAddr,
        address: &str,
        their_address: &str,
    ) -> (r: bool)
        ensures
            r == (self.topic@ == topic@ && self.addr != *addr && text::text_greater(
                address@,
                their_address@,
            )),
    {
        same_text(self.topic.as_str(), topic) && self.addr != *addr && is_text_greater(
            address,
            their_address,
        )
    }
}

/// What has to be done after topics were joined or left.
#[derive(Debug)]
pub enum ServiceStep {
    /// The service could not be made. This is what to tell whoever wanted to join or leave.
    Reply(bool),
    /// Register the service, once the one that was registered before is gone.
    Register { unregister: Option<String> },
}

/// What we announce on the local network.
pub struct TopicMdnsState {
    /// The topics, by their names.
    pub topics: NameTable<Topic>,
    /// The full name of the service that is registered.
    pub existing_service: Option<String>,
}

impl TopicMdnsState {
    pub fn new() -> (r: TopicMdnsState)
        ensures
            r.topics@ == Map::<Seq<char>, Topic>::empty(),
            r.existing_service is None,
    {
        TopicMdnsState { topics: NameTable::new(), existing_service: None }
    }

    /// A topic is joined.
    pub fn join(&mut self, topic: Topic)
        ensures
            final(self).topics@ == old(self).topics@.insert(topic.name@, topic),
            final(self).existing_service == old(self).existing_service,
    {
        self.topics.insert(topic.name.clone(), topic);
    }

    /// A topic is left.
    pub fn leave(&mut self, topic: &Topic)
        ensures
            final(self).topics@ == old(self).topics@.remove(topic.name@),
            final(self).existing_service == old(self).existing_service,
    {
        self.topics.remove(topic.name.as_str());
    }

    /// The service for the current topics was made, with this full name, or could not be made.
    pub fn service_created(&mut self, full_name: Option<String>) -> (r: ServiceStep)
        ensures
            final(self).topics == old(self).topics,
            match full_name {
                Some(name) => {
                    &&& r == (ServiceStep::Register { unregister: old(self).existing_service })
                    &&& final(self).existing_service == Some(name)
                },
                None => {
                    &&& r == ServiceStep::Reply(false)
                    &&& final(self).existing_service == old(self).existing_service
                },
            },
    {
        match full_name {
            Some(name) => {
                let mut existing_service = Some(name);
                std::mem::swap(&mut existing_service, &mut self.existing_service);
                ServiceStep::Register { unregister: existing_service }
            },
            None => ServiceStep::Reply(false),
        }
    }
}

/// A number that is written in decimal is read as that number.
pub proof fn law_decimal_round_trip(n: nat)
    ensures
        decimal_value(text::decimal(n)) == n,
        is_decimal(text::decimal(n)),
    decreases n,
{
    let digits = text::decimal(n);
    if n < 10 {
        let d = text::digit_char(n);
        assert(digits =~= seq![d]);
        assert(digits.drop_last() =~= Seq::<char>::empty());
        assert(decimal_value(digits.drop_last()) == 0);
        assert(digits.last() == d);
    } else {
        law_decimal_round_trip(n / 10);
        let before = text::decimal(n / 10);
        let d = text::digit_char(n % 10);
        assert(digits == before.push(d));
        assert(digits.drop_last() =~= before);
        assert(digits.last() == d);
        assert(before.len() > 0);
        assert(digits[0] == before[0]);
        assert(unsigned(before) == before) by {
            if before[0] == '+' {
                assert(before.len() > 0);
                lemma_decimal_starts_with_a_digit(n / 10);
            }
        }
        assert forall|i: int| 0 <= i < digits.len() implies '0' <= #[trigger] digits[i] <= '9' by {
            if i < before.len() {
                assert('0' <= unsigned(before)[i] <= '9');
            }
        }
    }
}

proof fn lemma_decimal_starts_with_a_digit(n: nat)
    ensures
        text::decimal(n).len() > 0,
        '0' <= text::decimal(n)[0] <= '9',
    decreases n,
{
    if n >= 10 {
        lemma_decimal_starts_with_a_digit(n / 10);
    }
}

/// The capabilities of a peer are the values that can be one, in their order.
pub proof fn law_values_that_can_be_capabilities(values: Seq<String>)
    ensures
        capabilities_in(values) == values.map_values(|value: String| value@).filter(
            |value: Seq<char>| hex_text::is_hex(value) && value.len() == 112,
        ),
    decreases values.len(),
{
    let texts = values.map_values(|value: String| value@);
    reveal(Seq::filter);
    if values.len() > 0 {
        law_values_that_can_be_capabilities(values.drop_last());
        assert(texts.drop_last() =~= values.drop_last().map_values(|value: String| value@));
        assert(texts.last() == values.last()@);
    } else {
        assert(texts =~= Seq::<Seq<char>>::empty());
    }
}

/// A text that was written for some bytes stands for these, and for no others.
pub proof fn law_written_bytes_are_read(written: Seq<u8>, read: Seq<u8>)
    ensures
        stands_for(hex_text::hex_text(written), read) <==> read == written,
{
    hex_text::law_hex_round_trip(written);
    let text = hex_text::hex_text(written);
    if stands_for(text, read) {
        assert forall|i: int| 0 <= i < read.len() implies read[i] == written[i] by {
            assert(read[i] == hex_text::pair_value(text, i));
        }
        assert(read =~= written);
    }
}

/// A capability that was made for a topic and an address shows that its owner knows the topic, with
/// the token that it was made with.
pub proof fn law_capabilities_are_recognized(
    capability: HandshakeRequest,
    topic: Topic,
    address: Seq<char>,
    made_with: Seq<u8>,
    token: [u8; 32],
)
    requires
        forall|key: Seq<u8>, nonce: Seq<u8>, plain: Seq<u8>|
            (#[trigger] crate::discovery::topic::sealed(key, nonce, plain)).1.len()
                == crate::discovery::topic::TAG_LENGTH,
        handshake::is_request(
            capability::capability_key(topic.hash@, address),
            capability@,
            made_with,
        ),
    ensures
        !is_bad(capability, topic, address),
        is_good(capability, topic, address, token) ==> token@ == made_with,
{
    let key = capability::capability_key(topic.hash@, address);
    if is_bad(capability, topic, address) {
        let answer = choose|answer: Result<[u8; 32], String>|
            answer is Err && #[trigger] handshake::is_answer(key, capability@, answer);
        handshake::law_requests_are_answered_with_their_token(
            key,
            capability@,
            made_with,
            answer,
        );
    }
    if is_good(capability, topic, address, token) {
        handshake::law_requests_are_answered_with_their_token(
            key,
            capability@,
            made_with,
            Ok::<[u8; 32], String>(token),
        );
    }
}

/// Each topic has a property of its own: two properties with different indices have different names.
pub proof fn law_topics_have_their_own_properties(
    a: (String, String),
    i: int,
    first: Topic,
    b: (String, String),
    j: int,
    second: Topic,
    address: Seq<char>,
    token: Seq<u8>,
)
    requires
        0 <= i < j,
        proves(a, i, first, address, token),
        proves(b, j, second, address, token),
    ensures
        a.0@ != b.0@,
{
    law_decimal_round_trip(i as nat);
    law_decimal_round_trip(j as nat);
    if a.0@ == b.0@ {
        let n = TOPIC@.len() as int;
        assert(a.0@.skip(n) =~= text::decimal(i as nat));
        assert(b.0@.skip(n) =~= text::decimal(j as nat));
    }
}

} // verus!
