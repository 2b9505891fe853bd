//! Network addresses.
use crate::bytes;
use crate::bytes::to_be_bytes;
use vstd::prelude::*;

verus! {

/// An IP address, as the number that its octets stand for.
#[derive(Clone, Copy, Debug, PartialEq, Eq, Structural, Hash)]
pub enum IpAddr {
    V4(u32),
    V6(u128),
}

/// An IP address with a port.
#[allow(inconsistent_fields)]
#[derive(Clone, Copy, Debug, PartialEq, Eq, Structural, Hash)]
pub enum SocketAddr {
    V4 { ip: u32, port: u16 },
    V6 { ip: u128, port: u16, flowinfo: u32, scope_id: u32 },
}

impl IpAddr {
    pub open spec fn spec_octets(self) -> Seq<u8> {
        match self {
            IpAddr::V4(bits) => bytes::be_bytes(bits as nat, 4),
            IpAddr::V6(bits) => bytes::be_bytes(bits as nat, 16),
        }
    }

    /// The address as bytes, most significant first.
    pub fn octets(&self) -> (r: Vec<u8>)
        ensures
            r@ == self.spec_octets(),
            r@.len() == if *self is V4 { 4nat } else { 16nat },
    {
        match self {
            IpAddr::V4(bits) => {
                proof {
                    bytes::lemma_be_bytes_len(*bits as nat, 4);
                }
                to_be_bytes(*bits as u128, 4)
            },
            IpAddr::V6(bits) => {
                proof {
                    bytes::lemma_be_bytes_len(*bits as nat, 16);
                }
                to_be_bytes(*bits, 16)
            },
        }
    }

    pub fn is_ipv6(&self) -> (r: bool)
        ensures
            r == (*self is V6),
    {
        match self {
            IpAddr::V4(_) => false,
            IpAddr::V6(_) => true,
        }
    }
}

impl SocketAddr {
    pub open spec fn spec_new(ip: IpAddr, port: u16) -> SocketAddr {
        match ip {
            IpAddr::V4(bits) => SocketAddr::V4 { ip: bits, port },
            IpAddr::V6(bits) => SocketAddr::V6 { ip: bits, port, flowinfo: 0, scope_id: 0 },
        }
    }

    /// An address with a port and, for IPv6, no flow information and no scope.
    pub fn new(ip: IpAddr, port: u16) -> (r: SocketAddr)
        ensures
            r == SocketAddr::spec_new(ip, port),
    {
        match ip {
            IpAddr::V4(bits) => SocketAddr::V4 { ip: bits, port },
            IpAddr::V6(bits) => SocketAddr::V6 { ip: bits, port, flowinfo: 0, scope_id: 0 },
        }
    }

    pub open spec fn spec_ip(self) -> IpAddr {
        match self {
            SocketAddr::V4 { ip, .. } => IpAddr::V4(ip),
            SocketAddr::V6 { ip, .. } => IpAddr::V6(ip),
        }
    }

    pub fn ip(&self) -> (r: IpAddr)
        ensures
            r == self.spec_ip(),
    {
        match self {
            SocketAddr::V4 { ip, .. } => IpAddr::V4(*ip),
            SocketAddr::V6 { ip, .. } => IpAddr::V6(*ip),
        }
    }

    pub open spec fn spec_port(self) -> u16 {
        match self {
            SocketAddr::V4 { port, .. } => port,
            SocketAddr::V6 { port, .. } => port,
        }
    }

    pub fn port(&self) -> (r: u16)
        ensures
            r == self.spec_port(),
    {
        match self {
            SocketAddr::V4 { port, .. } => *port,
            SocketAddr::V6 { port, .. } => *port,
        }
    }

    /// The order of socket addresses: IPv4 before IPv6, then by address, port, flow information
    /// and scope.
    pub open spec fn greater_than(self, other: SocketAddr) -> bool {
        match (self, other) {
            (SocketAddr::V4 { .. }, SocketAddr::V6 { .. }) => false,
            (SocketAddr::V6 { .. }, SocketAddr::V4 { .. }) => true,
            (
                SocketAddr::V4 { ip: ip1, port: port1 },
                SocketAddr::V4 { ip: ip2, port: port2 },
            ) => ip1 > ip2 || (ip1 == ip2 && port1 > port2),
            (
                SocketAddr::V6 { ip: ip1, port: port1, flowinfo: flow1, scope_id: scope1 },
                SocketAddr::V6 { ip: ip2, port: port2, flowinfo: flow2, scope_id: scope2 },
            ) => ip1 > ip2 || (ip1 == ip2 && (port1 > port2 || (port1 == port2 && (flow1 > flow2
                || (flow1 == flow2 && scope1 > scope2))))),
        }
    }

    /// Whether this address is greater than another.
    pub fn is_greater_than(&self, other: &SocketAddr) -> (r: bool)
        ensures
            r == self.greater_than(*other),
    {
        match (*self, *other) {
            (SocketAddr::V4 { .. }, SocketAddr::V6 { .. }) => false,
            (SocketAddr::V6 { .. }, SocketAddr::V4 { .. }) => true,
            (
                SocketAddr::V4 { ip: ip1, port: port1 },
                SocketAddr::V4 { ip: ip2, port: port2 },
            ) => ip1 > ip2 || (ip1 == ip2 && port1 > port2),
            (
                SocketAddr::V6 { ip: ip1, port: port1, flowinfo: flow1, scope_id: scope1 },
                SocketAddr::V6 { ip: ip2, port: port2, flowinfo: flow2, scope_id: scope2 },
            ) => ip1 > ip2 || (ip1 == ip2 && (port1 > port2 || (port1 == port2 && (flow1 > flow2
                || (flow1 == flow2 && scope1 > scope2))))),
        }
    }
}

/// Of two socket addresses that differ, exactly one is the greater one.
pub proof fn law_socket_order_total(a: SocketAddr, b: SocketAddr)
    ensures
        a == b ==> !a.greater_than(b),
        a != b ==> a.greater_than(b) != b.greater_than(a),
{
}

/// The order of socket addresses goes by the number of the IP first, whatever the ports, and by the
/// port where that is the same. All IPv6 addresses are greater than all IPv4 addresses.
pub proof fn law_socket_order(a: SocketAddr, b: SocketAddr)
    ensures
        match (a.spec_ip(), b.spec_ip()) {
            (IpAddr::V4(first), IpAddr::V4(second)) => {
                &&& first > second ==> a.greater_than(b)
                &&& first < second ==> !a.greater_than(b)
                &&& first == second ==> a.greater_than(b) == (a.spec_port() > b.spec_port())
            },
            (IpAddr::V6(first), IpAddr::V6(second)) => {
                &&& first > second ==> a.greater_than(b)
                &&& first < second ==> !a.greater_than(b)
                &&& first == second && a.spec_port() > b.spec_port() ==> a.greater_than(b)
                &&& first == second && a.spec_port() < b.spec_port() ==> !a.greater_than(b)
            },
            (IpAddr::V6(_), IpAddr::V4(_)) => a.greater_than(b),
            (IpAddr::V4(_), IpAddr::V6(_)) => !a.greater_than(b),
        },
{
}

/// The order of socket addresses is transitive.
pub proof fn law_socket_order_transitive(a: SocketAddr, b: SocketAddr, c: SocketAddr)
    requires
        a.greater_than(b),
        b.greater_than(c),
    ensures
        a.greater_than(c),
{
}

} // verus!
