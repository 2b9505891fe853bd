//! Handles the different peer discovery methods
use crate::announce_address::{AnnounceAddress, PeerConnectionDetails};
use crate::connections::discovery::gossip_retry::{
    GOSSIP_RETRY_BASE_DELAY, GOSSIP_RETRY_MAX_DELAY, GossipRetryManager, ScheduledRetry,
};
use crate::connections::discovery::traversal::{DiscoveryMethod, PeerStep, handle_peer_announcement};
use crate::connections::discovery::{gossip_retry, traversal};
use crate::errors::UiServerErrorWrapper;
use crate::hex_text;
use crate::hex_text::hex_encode;
use crate::net::{IpAddr, SocketAddr};
use crate::peer_id::PeerId;
use crate::shared_state::PeerConnect;
use crate::table::Table;
use vstd::prelude::*;

verus! {

/// Which addresses to try for the socket that peers connect to.
#[derive(Debug, Clone, Copy, PartialEq, Eq, Structural)]
pub struct BindPlan {
    pub first: SocketAddr,
    /// Where to bind to if the first address cannot be had.
    pub fallback: Option<SocketAddr>,
}

/// An address with another port.
pub open spec fn with_port(addr: SocketAddr, port: u16) -> SocketAddr {
    match addr {
        SocketAddr::V4 { ip, .. } => SocketAddr::V4 { ip, port },
        SocketAddr::V6 { ip, port: _, flowinfo, scope_id } => SocketAddr::V6 {
            ip,
            port,
            flowinfo,
            scope_id,
        },
    }
}

/// An address with another port.
fn set_port(addr: SocketAddr, port: u16) -> (r: SocketAddr)
    ensures
        r == with_port(addr, port),
{
    match addr {
        SocketAddr::V4 { ip, port: _ } => SocketAddr::V4 { ip, port },
        SocketAddr::V6 { ip, port: _, flowinfo, scope_id } => SocketAddr::V6 {
            ip,
            port,
            flowinfo,
            scope_id,
        },
    }
}

/// Which addresses to try: the given one, or our local one if none is given. A port that is not
/// specified is the one that was used last, if it can be had. A port that is specified has to be
/// had.
pub open spec fn bind_plan_for(
    given: Option<SocketAddr>,
    local_ip: IpAddr,
    last_used_port: Option<u16>,
) -> BindPlan {
    let addr = match given {
        Some(given) => given,
        None => SocketAddr::spec_new(local_ip, 0),
    };
    if addr.spec_port() != 0 {
        BindPlan { first: addr, fallback: None }
    } else {
        match last_used_port {
            Some(port) => BindPlan {
                first: with_port(addr, port),
                fallback: Some(SocketAddr::spec_new(addr.spec_ip(), 0)),
            },
            None => BindPlan {
                first: addr,
                fallback: Some(SocketAddr::spec_new(addr.spec_ip(), 0)),
            },
        }
    }
}

/// Which addresses to try for the socket that peers connect to.
pub fn bind_plan(given: Option<SocketAddr>, local_ip: IpAddr, last_used_port: Option<u16>) -> (r:
    BindPlan)
    ensures
        r == bind_plan_for(given, local_ip, last_used_port),
{
    let addr = match given {
        Some(given) => given,
        None => SocketAddr::new(local_ip, 0),
    };
    if addr.port() != 0 {
        return BindPlan { first: addr, fallback: None };
    }
    // If port is unspecified, use the same port as last time
    let first = match last_used_port {
        Some(port) => set_port(addr, port),
        None => addr,
    };
    // If we get an error with a given port try again with the port set to 0
    BindPlan { first, fallback: Some(SocketAddr::new(addr.ip(), 0)) }
}

/// Whether an IP appears to be private: it is in one of the IPv4 ranges that are not routed. In the
/// case of IPv6 we cannot be sure.
pub open spec fn appears_private(ip: IpAddr) -> bool {
    match ip {
        IpAddr::V4(bits) => {
            ||| bits / 0x100_0000 == 10
            ||| bits / 0x10_0000 == 172 * 16 + 1
            ||| bits / 0x1_0000 == 192 * 256 + 168
        },
        IpAddr::V6(_) => false,
    }
}

/// Check if an IP appears to be private
pub fn is_private(ip: IpAddr) -> (r: bool)
    ensures
        r == appears_private(ip),
{
    match ip {
        IpAddr::V4(bits) => {
            bits / 0x100_0000 == 10 || bits / 0x10_0000 == 172 * 16 + 1 || bits / 0x1_0000 == 192
                * 256 + 168
        },
        IpAddr::V6(_) => false,
    }
}

/// Handles the different peer discovery methods
pub struct PeerDiscovery {
    /// Our own connection details
    pub announce_address: AnnounceAddress,
    /// Whether holes can be punched from the socket that peers connect to.
    pub has_hole_puncher: bool,
    /// The name under which to announce ourself on the local network, if we do.
    pub mdns_id: Option<String>,
    /// Socket addresses we expect to see as incoming connections after a punch succeeds.
    pub pending_peer_connections: Table<SocketAddr, (DiscoveryMethod, AnnounceAddress)>,
    /// Retry coordinator for failed gossiped peer connections.
    pub gossip_retry: GossipRetryManager,
}

impl PeerDiscovery {
    /// Build peer discovery from our identity and what the STUN servers show of us.
    pub fn new(
        use_mdns: bool,
        public_key: PeerId,
        local_addr: &SocketAddr,
        local_connection_details: PeerConnectionDetails,
    ) -> (r: PeerDiscovery)
        ensures
            r.announce_address == (AnnounceAddress {
                public_key,
                connection_details: local_connection_details,
            }),
            // Only use the hole_puncher if we are not behind symmetric nat
            r.has_hole_puncher == !(local_connection_details is Symmetric),
            // Only use mdns if we are on a local network
            match r.mdns_id {
                Some(id) => use_mdns && appears_private(local_addr.spec_ip()) && id@ == hex_text::hex_text(
                    public_key@,
                ),
                None => !(use_mdns && appears_private(local_addr.spec_ip())),
            },
            r.pending_peer_connections@ == Map::<
                SocketAddr,
                (DiscoveryMethod, AnnounceAddress),
            >::empty(),
            r.gossip_retry@.within_budget(),
            r.gossip_retry@.state.dom() == Set::<PeerId>::empty(),
    {
        let has_hole_puncher = match local_connection_details {
            PeerConnectionDetails::Symmetric(_) => false,
            _ => true,
        };
        // Id is used as an identifier for mdns services
        let mdns_id = if use_mdns && is_private(local_addr.ip()) {
            Some(hex_encode(public_key.as_bytes().as_slice()))
        } else {
            None
        };
        let gossip_retry = GossipRetryManager::new();
        assert(gossip_retry@.state.dom() =~= Set::<PeerId>::empty());
        PeerDiscovery {
            announce_address: AnnounceAddress {
                public_key,
                connection_details: local_connection_details,
            },
            has_hole_puncher,
            mdns_id,
            pending_peer_connections: Table::new(),
            gossip_retry,
        }
    }

    /// A peer is announced. Gives what to do to get into contact with it.
    pub fn handle_announcement(&mut self, announced: &PeerConnect, already_connected: bool) -> (r:
        PeerStep)
        ensures
            final(self).announce_address == old(self).announce_address,
            final(self).has_hole_puncher == old(self).has_hole_puncher,
            final(self).mdns_id == old(self).mdns_id,
            final(self).pending_peer_connections == old(self).pending_peer_connections,
            // A fresh gossip announcement supersedes any previously queued retry.
            final(self).gossip_retry@ == if announced.discovery_method == DiscoveryMethod::Gossip {
                old(self).gossip_retry@.cleared(announced.announce_address.public_key)
            } else {
                old(self).gossip_retry@
            },
            if old(self).announce_address == announced.announce_address {
                traversal::discovery_failure(r, "Cannot connect to ourself"@)
            } else if already_connected {
                traversal::discovery_failure(r, "Already connected to this peer"@)
            } else {
                traversal::is_first_step(
                    r,
                    old(self).has_hole_puncher,
                    old(self).announce_address.connection_details,
                    announced.announce_address,
                    announced.discovery_method,
                )
            },
    {
        if announced.discovery_method == DiscoveryMethod::Gossip {
            self.gossip_retry.clear_retry(&announced.announce_address.public_key);
        }
        handle_peer_announcement(
            self.has_hole_puncher,
            &self.announce_address,
            announced.announce_address,
            already_connected,
            announced.discovery_method,
        )
    }

    /// We wait for a peer to connect to us from an address.
    pub fn expect_peer(&mut self, socket_address: SocketAddr, announced: &PeerConnect)
        ensures
            final(self).pending_peer_connections@ == old(self).pending_peer_connections@.insert(
                socket_address,
                (announced.discovery_method, announced.announce_address),
            ),
            final(self).announce_address == old(self).announce_address,
            final(self).has_hole_puncher == old(self).has_hole_puncher,
            final(self).mdns_id == old(self).mdns_id,
            final(self).gossip_retry == old(self).gossip_retry,
    {
        self.pending_peer_connections.insert(
            socket_address,
            (announced.discovery_method, announced.announce_address),
        );
    }

    /// Look up and consume a pending incoming connection expectation for a punched peer.
    pub fn get_pending_peer(&mut self, socket_address: &SocketAddr) -> (r: Option<
        (DiscoveryMethod, AnnounceAddress),
    >)
        ensures
            r == if old(self).pending_peer_connections@.dom().contains(*socket_address) {
                Some(old(self).pending_peer_connections@[*socket_address])
            } else {
                None
            },
            final(self).pending_peer_connections@ == old(self).pending_peer_connections@.remove(
                *socket_address,
            ),
            final(self).announce_address == old(self).announce_address,
            final(self).has_hole_puncher == old(self).has_hole_puncher,
            final(self).mdns_id == old(self).mdns_id,
            final(self).gossip_retry == old(self).gossip_retry,
    {
        self.pending_peer_connections.remove(socket_address)
    }

    /// Decide whether to use client verification based on our NAT type
    ///
    /// If we are not behind NAT we allow connections without needing to
    /// know their announce address (containing public key) up front
    pub fn use_client_verification(&self) -> (r: bool)
        ensures
            r == !(self.announce_address.connection_details is NoNat),
    {
        match self.announce_address.connection_details {
            PeerConnectionDetails::NoNat(_) => false,
            _ => true,
        }
    }

    /// Schedule a retry for a gossiped peer after a discovery-stage failure.
    pub fn schedule_gossip_retry_if_needed(
        &mut self,
        announce_address: AnnounceAddress,
        err: &UiServerErrorWrapper,
        connected: bool,
        now: u64,
    ) -> (r: Option<ScheduledRetry>)
        ensures
            old(self).gossip_retry@.within_budget() ==> final(self).gossip_retry@.within_budget(),
            r is Some <==> old(self).gossip_retry@.retries(
                DiscoveryMethod::Gossip,
                announce_address,
                err.0,
                connected,
            ),
            exists|delay: u64|
                gossip_retry::within_a_fifth(
                    delay as int,
                    gossip_retry::backoff(
                        GOSSIP_RETRY_BASE_DELAY as nat,
                        GOSSIP_RETRY_MAX_DELAY as nat,
                        old(self).gossip_retry@.next_attempt(announce_address.public_key),
                    ) as int,
                ) && final(self).gossip_retry@ == (#[trigger] old(self).gossip_retry@.after_failure(
                    DiscoveryMethod::Gossip,
                    announce_address,
                    err.0,
                    connected,
                    now,
                    delay,
                )) && (r matches Some(retry) ==> retry == (ScheduledRetry {
                    peer: announce_address.public_key,
                    delay,
                    generation: old(self).gossip_retry@.generation,
                })),
            final(self).announce_address == old(self).announce_address,
            final(self).has_hole_puncher == old(self).has_hole_puncher,
            final(self).mdns_id == old(self).mdns_id,
            final(self).pending_peer_connections == old(self).pending_peer_connections,
    {
        self.gossip_retry.schedule_retry_if_needed(
            DiscoveryMethod::Gossip,
            announce_address,
            err,
            connected,
            now,
        )
    }

    /// Cancel any queued gossip retry for a peer that has connected or been superseded.
    pub fn clear_gossip_retry(&mut self, peer: &PeerId)
        ensures
            final(self).gossip_retry@ == old(self).gossip_retry@.cleared(*peer),
            final(self).announce_address == old(self).announce_address,
            final(self).has_hole_puncher == old(self).has_hole_puncher,
            final(self).mdns_id == old(self).mdns_id,
            final(self).pending_peer_connections == old(self).pending_peer_connections,
    {
        self.gossip_retry.clear_retry(peer);
    }
}

/// An address with a port that the user gave is the only one that is tried. Without a port, the one
/// that was used last is tried first, and then any port, always of the IP that was given, or of our
/// own where none was.
pub proof fn law_given_address_is_kept(
    given: Option<SocketAddr>,
    local_ip: IpAddr,
    last_used_port: Option<u16>,
)
    ensures
        ({
            let plan = bind_plan_for(given, local_ip, last_used_port);
            let ip = match given {
                Some(addr) => addr.spec_ip(),
                None => local_ip,
            };
            &&& plan.first.spec_ip() == ip
            &&& given is Some && given->Some_0.spec_port() != 0 ==> plan.first == given->Some_0
                && plan.fallback is None
            &&& given is None || given->Some_0.spec_port() == 0 ==> {
                &&& plan.first.spec_port() == match last_used_port {
                    Some(port) => port,
                    None => 0,
                }
                &&& plan.fallback matches Some(any)
                &&& any.spec_ip() == ip
                &&& any.spec_port() == 0
            }
        }),
{
}

/// The private addresses are those that begin with 10, with 172 and 16 up to 31, or with 192 and 168.
pub proof fn law_private_ranges(first: u8, second: u8, third: u8, fourth: u8, bits: u32)
    requires
        bits == first * 0x100_0000 + second * 0x1_0000 + third * 0x100 + fourth,
    ensures
        appears_private(IpAddr::V4(bits)) == (first == 10 || first == 172 && 16 <= second <= 31
            || first == 192 && second == 168),
{
    assert(bits / 0x100_0000 == first);
    assert(bits / 0x1_0000 == first * 0x100 + second);
    assert(bits / 0x10_0000 == first * 16 + second / 16);
}

} // verus!
