//! Which of two peers connects to the other, and what it takes to get through their NATs
use crate::announce_address::{AnnounceAddress, PeerConnectionDetails};
use crate::errors::UiServerErrorWrapper;
use crate::net::{IpAddr, SocketAddr};
use crate::ui_messages::UiServerError;
use vstd::prelude::*;

verus! {

/// The way by which a peer was discovered
#[derive(Clone, Copy, Debug, PartialEq, Eq, Structural)]
pub enum DiscoveryMethod {
    /// User provided the announce address
    Direct,
    /// Another peer provided the announce address
    Gossip,
    /// Discovered over local network
    Mdns,
}

/// Details of a peer found through one of the discovery methods
#[derive(Clone, Copy, Debug)]
pub struct DiscoveredPeer {
    /// Socket address to connect to, or to expect an incoming connection from.
    pub socket_address: SocketAddr,
    /// Whether a socket of its own, bound for this peer alone, goes with it.
    pub own_socket: bool,
    /// Discovery source that produced this peer.
    pub discovery_method: DiscoveryMethod,
    /// The announced identity and connection details for the peer.
    pub announce_address: AnnounceAddress,
}

/// What has to be done next to get into contact with a peer.
#[derive(Debug)]
pub enum PeerStep {
    /// Connect to them.
    Connect(DiscoveredPeer),
    /// Wait for them to connect to us, from this address.
    Await(SocketAddr),
    /// Punch a hole for a peer with a known port.
    HolePunch(SocketAddr),
    /// Punch a hole for a peer whose port is not known.
    HolePunchWithoutPort(IpAddr),
    /// Try many local sockets until one gets through to this address.
    BirthdayHardSide(SocketAddr),
    /// Bind a socket for this peer alone.
    BindSocket,
    /// Give up.
    Fail(UiServerErrorWrapper),
}

/// How a step that needed the network has ended.
#[derive(Debug)]
pub enum PeerEvent {
    /// The hole is punched.
    Punched,
    /// A packet came from the peer, from this address.
    SenderFound(SocketAddr),
    /// A socket of its own is ready for this peer.
    SocketReady,
    /// The step failed, for this reason.
    Failed(String),
}

/// Whether a step says that discovery failed with this message.
pub open spec fn discovery_failure(step: PeerStep, message: Seq<char>) -> bool {
    step matches PeerStep::Fail(UiServerErrorWrapper(UiServerError::PeerDiscovery(text)))
        && text@ == message
}

/// Whether our side is the one that connects, if it gets through.
pub open spec fn our_side_connects(
    local: PeerConnectionDetails,
    remote: PeerConnectionDetails,
) -> bool {
    match (remote, local) {
        (
            PeerConnectionDetails::NoNat(theirs),
            PeerConnectionDetails::NoNat(ours),
        ) => ours.greater_than(theirs),
        (
            PeerConnectionDetails::Asymmetric(theirs),
            PeerConnectionDetails::Asymmetric(ours),
        ) => ours.greater_than(theirs),
        (PeerConnectionDetails::NoNat(_), _) => true,
        (PeerConnectionDetails::Asymmetric(_), PeerConnectionDetails::Symmetric(_)) => true,
        _ => false,
    }
}

/// The step where both have an address that the other side can reach: the greater one connects.
pub open spec fn settled(
    ours: SocketAddr,
    theirs: SocketAddr,
    announce_address: AnnounceAddress,
    discovery_method: DiscoveryMethod,
) -> PeerStep {
    if ours.greater_than(theirs) {
        PeerStep::Connect(
            DiscoveredPeer {
                socket_address: theirs,
                own_socket: false,
                discovery_method,
                announce_address,
            },
        )
    } else {
        PeerStep::Await(theirs)
    }
}

/// What is done first to get into contact with a peer, by the kinds of NAT on both sides.
pub open spec fn is_first_step(
    step: PeerStep,
    has_hole_puncher: bool,
    local: PeerConnectionDetails,
    announce_address: AnnounceAddress,
    discovery_method: DiscoveryMethod,
) -> bool {
    match (announce_address.connection_details, local) {
        (
            PeerConnectionDetails::Symmetric(_),
            PeerConnectionDetails::Symmetric(_),
        ) => discovery_failure(step, "Symmetric to symmetric not yet supported"@),
        (PeerConnectionDetails::Symmetric(ip), PeerConnectionDetails::Asymmetric(_)) => {
            if has_hole_puncher {
                step == PeerStep::HolePunchWithoutPort(ip)
            } else {
                discovery_failure(step, "We have asymmetric NAT but no local socket"@)
            }
        },
        (PeerConnectionDetails::Symmetric(_), PeerConnectionDetails::NoNat(ours)) => step
            == PeerStep::Await(ours),
        (PeerConnectionDetails::Asymmetric(theirs), PeerConnectionDetails::Asymmetric(ours)) => {
            if !has_hole_puncher {
                discovery_failure(step, "We have asymmetric nat but no local socket"@)
            } else if ours.spec_ip() != theirs.spec_ip() {
                step == PeerStep::HolePunch(theirs)
            } else {
                step == settled(ours, theirs, announce_address, discovery_method)
            }
        },
        (PeerConnectionDetails::Asymmetric(theirs), PeerConnectionDetails::Symmetric(_)) => step
            == PeerStep::BirthdayHardSide(theirs),
        (PeerConnectionDetails::Asymmetric(_), PeerConnectionDetails::NoNat(ours)) => step
            == PeerStep::Await(ours),
        (PeerConnectionDetails::NoNat(theirs), PeerConnectionDetails::NoNat(ours)) => step
            == settled(ours, theirs, announce_address, discovery_method),
        (PeerConnectionDetails::NoNat(_), PeerConnectionDetails::Symmetric(_)) => step
            == PeerStep::BindSocket,
        (PeerConnectionDetails::NoNat(theirs), PeerConnectionDetails::Asymmetric(_)) => step
            == PeerStep::Connect(
            DiscoveredPeer {
                socket_address: theirs,
                own_socket: false,
                discovery_method,
                announce_address,
            },
        ),
    }
}

/// Whether an event can end a step that is taken for a peer.
pub open spec fn is_expected(
    local: PeerConnectionDetails,
    remote: PeerConnectionDetails,
    event: PeerEvent,
) -> bool {
    match event {
        PeerEvent::Punched => local is Asymmetric && remote is Asymmetric,
        PeerEvent::SenderFound(_) => local is Asymmetric && remote is Symmetric,
        PeerEvent::SocketReady => local is Symmetric && !(remote is Symmetric),
        PeerEvent::Failed(_) => true,
    }
}

/// The address of a peer that has one with a port.
pub open spec fn contact_address(details: PeerConnectionDetails) -> Option<SocketAddr> {
    match details {
        PeerConnectionDetails::NoNat(addr) => Some(addr),
        PeerConnectionDetails::Asymmetric(addr) => Some(addr),
        PeerConnectionDetails::Symmetric(_) => None,
    }
}

/// What is done after a step that needed the network.
pub open spec fn is_next_step(
    step: PeerStep,
    local: PeerConnectionDetails,
    announce_address: AnnounceAddress,
    discovery_method: DiscoveryMethod,
    event: PeerEvent,
) -> bool {
    let remote = announce_address.connection_details;
    match event {
        PeerEvent::Failed(reason) => discovery_failure(step, reason@),
        PeerEvent::SenderFound(sender) => step == PeerStep::Await(sender),
        PeerEvent::Punched => step == settled(
            contact_address(local)->Some_0,
            contact_address(remote)->Some_0,
            announce_address,
            discovery_method,
        ),
        PeerEvent::SocketReady => step == PeerStep::Connect(
            DiscoveredPeer {
                socket_address: contact_address(remote)->Some_0,
                own_socket: true,
                discovery_method,
                announce_address,
            },
        ),
    }
}

/// Of two peers, exactly one connects to the other: not both, so that there are no two connections
/// between them, and not neither. The exceptions are two peers behind symmetric NAT, who cannot
/// reach each other, and two who announce the same address.
pub proof fn law_exactly_one_side_connects(a: PeerConnectionDetails, b: PeerConnectionDetails)
    requires
        !(a is Symmetric && b is Symmetric),
        a != b,
    ensures
        our_side_connects(a, b) != our_side_connects(b, a),
{
}

/// Whatever step is taken first or next, it connects only where our side is the one to connect,
/// and waits only where theirs is.
pub proof fn law_steps_agree_on_the_side(
    step: PeerStep,
    has_hole_puncher: bool,
    local: PeerConnectionDetails,
    announce_address: AnnounceAddress,
    discovery_method: DiscoveryMethod,
    event: PeerEvent,
)
    requires
        ({
            ||| is_first_step(step, has_hole_puncher, local, announce_address, discovery_method)
            ||| is_expected(local, announce_address.connection_details, event) && is_next_step(
                step,
                local,
                announce_address,
                discovery_method,
                event,
            )
        }),
    ensures
        step is Connect ==> our_side_connects(local, announce_address.connection_details),
        step is Await ==> !our_side_connects(local, announce_address.connection_details),
{
}

/// Where a connection is dialled or awaited without more, one side has no NAT or both are behind the
/// same one. Two peers behind different NATs punch a hole first, each to the address that the other
/// announces, and do not dial or wait before that is done.
pub proof fn law_different_nats_are_punched_first(
    step: PeerStep,
    has_hole_puncher: bool,
    local: PeerConnectionDetails,
    announce_address: AnnounceAddress,
    discovery_method: DiscoveryMethod,
)
    requires
        is_first_step(step, has_hole_puncher, local, announce_address, discovery_method),
    ensures
        ({
            let remote = announce_address.connection_details;
            let same_nat = local is Asymmetric && remote is Asymmetric && local.spec_ip()
                == remote.spec_ip();
            &&& step is Connect || step is Await ==> local is NoNat || remote is NoNat || same_nat
            &&& has_hole_puncher && same_nat ==> step is Connect || step is Await
            &&& local is Asymmetric && remote is Asymmetric && local.spec_ip() != remote.spec_ip()
                && has_hole_puncher ==> {
                &&& step matches PeerStep::HolePunch(addr)
                &&& remote == PeerConnectionDetails::Asymmetric(addr)
            }
            &&& step is HolePunch ==> local is Asymmetric && remote is Asymmetric
                && has_hole_puncher && local.spec_ip() != remote.spec_ip()
        }),
{
}

/// What is done for a peer where one side has no NAT or a symmetric one: a side behind NAT dials a
/// side without NAT, which waits, with a socket of its own where its NAT is symmetric. A symmetric NAT
/// meets an asymmetric one by many sockets on the one side and many ports on the other. Two symmetric
/// NATs do not meet.
pub proof fn law_first_step_by_nat(
    step: PeerStep,
    has_hole_puncher: bool,
    local: PeerConnectionDetails,
    announce_address: AnnounceAddress,
    discovery_method: DiscoveryMethod,
)
    requires
        is_first_step(step, has_hole_puncher, local, announce_address, discovery_method),
    ensures
        ({
            let remote = announce_address.connection_details;
            &&& local is NoNat && !(remote is NoNat) ==> {
                &&& step matches PeerStep::Await(addr)
                &&& PeerConnectionDetails::NoNat(addr) == local
            }
            &&& local is Asymmetric && remote is NoNat ==> {
                &&& step matches PeerStep::Connect(peer)
                &&& PeerConnectionDetails::NoNat(peer.socket_address) == remote
                &&& !peer.own_socket
                &&& peer.announce_address == announce_address
                &&& peer.discovery_method == discovery_method
            }
            &&& local is Symmetric && remote is NoNat ==> step is BindSocket
            &&& local is Symmetric && remote is Asymmetric ==> {
                &&& step matches PeerStep::BirthdayHardSide(addr)
                &&& PeerConnectionDetails::Asymmetric(addr) == remote
            }
            &&& local is Asymmetric && remote is Symmetric && has_hole_puncher ==> {
                &&& step matches PeerStep::HolePunchWithoutPort(ip)
                &&& PeerConnectionDetails::Symmetric(ip) == remote
            }
            &&& local is Symmetric && remote is Symmetric ==> discovery_failure(
                step,
                "Symmetric to symmetric not yet supported"@,
            )
            &&& step is Fail ==> local is Symmetric && remote is Symmetric || local is Asymmetric
                && !(remote is NoNat) && !has_hole_puncher
        }),
{
}

/// Both sides take steps that go together: where one dials at once the other waits, where one
/// punches a hole so does the other, and where one tries many sockets the other tries many ports.
/// This is of two peers that announce different addresses and can punch holes.
pub proof fn law_both_sides_take_matching_steps(
    ours: AnnounceAddress,
    theirs: AnnounceAddress,
    method: DiscoveryMethod,
    our_step: PeerStep,
    their_step: PeerStep,
)
    requires
        ours.connection_details != theirs.connection_details,
        is_first_step(our_step, true, ours.connection_details, theirs, method),
        is_first_step(their_step, true, theirs.connection_details, ours, method),
    ensures
        our_step is Connect || our_step is BindSocket ==> their_step is Await,
        our_step is Await ==> their_step is Connect || their_step is BindSocket,
        our_step is HolePunch == their_step is HolePunch,
        our_step is BirthdayHardSide == their_step is HolePunchWithoutPort,
        our_step is Fail == their_step is Fail,
{
}

/// Once the hole is punched one side dials the address that the other announces, and the other side
/// waits for it.
pub proof fn law_punched_holes_are_used(
    ours: AnnounceAddress,
    theirs: AnnounceAddress,
    method: DiscoveryMethod,
    our_step: PeerStep,
    their_step: PeerStep,
)
    requires
        ours.connection_details is Asymmetric,
        theirs.connection_details is Asymmetric,
        ours.connection_details != theirs.connection_details,
        is_next_step(our_step, ours.connection_details, theirs, method, PeerEvent::Punched),
        is_next_step(their_step, theirs.connection_details, ours, method, PeerEvent::Punched),
    ensures
        our_step is Connect != their_step is Connect,
        our_step matches PeerStep::Connect(peer) ==> {
            &&& PeerConnectionDetails::Asymmetric(peer.socket_address) == theirs.connection_details
            &&& !peer.own_socket
            &&& peer.announce_address == theirs
            &&& peer.discovery_method == method
            &&& their_step matches PeerStep::Await(from)
            &&& PeerConnectionDetails::Asymmetric(from) == ours.connection_details
        },
{
}

/// What follows the other steps: a peer that was found behind symmetric NAT is awaited from where its
/// packet came, and a socket of our own is used to dial the address that the peer announces.
pub proof fn law_found_peers_are_contacted(
    step: PeerStep,
    local: PeerConnectionDetails,
    announce_address: AnnounceAddress,
    method: DiscoveryMethod,
    event: PeerEvent,
)
    requires
        is_expected(local, announce_address.connection_details, event),
        is_next_step(step, local, announce_address, method, event),
    ensures
        event matches PeerEvent::SenderFound(sender) ==> step == PeerStep::Await(sender),
        event is SocketReady ==> {
            &&& step matches PeerStep::Connect(peer)
            &&& peer.own_socket
            &&& PeerConnectionDetails::NoNat(peer.socket_address)
                == announce_address.connection_details || PeerConnectionDetails::Asymmetric(
                peer.socket_address,
            ) == announce_address.connection_details
            &&& peer.announce_address == announce_address
            &&& peer.discovery_method == method
        },
        event matches PeerEvent::Failed(reason) ==> discovery_failure(step, reason@),
        event is Failed == step is Fail,
        // A hole is awaited only where it was punched for, and so on
        event is Punched ==> local is Asymmetric && announce_address.connection_details is Asymmetric,
        event is SenderFound ==> announce_address.connection_details is Symmetric,
        event is SocketReady ==> local is Symmetric,
{
}

fn failed(message: &str) -> (r: PeerStep)
    ensures
        discovery_failure(r, message@),
{
    PeerStep::Fail(UiServerErrorWrapper(UiServerError::PeerDiscovery(message.to_owned())))
}

fn settle(
    ours: SocketAddr,
    theirs: SocketAddr,
    announce_address: AnnounceAddress,
    discovery_method: DiscoveryMethod,
) -> (r: PeerStep)
    ensures
        r == settled(ours, theirs, announce_address, discovery_method),
{
    // Decide whether to connect or let them connect, by comparing socket addresses
    if ours.is_greater_than(&theirs) {
        PeerStep::Connect(
            DiscoveredPeer {
                socket_address: theirs,
                own_socket: false,
                discovery_method,
                announce_address,
            },
        )
    } else {
        PeerStep::Await(theirs)
    }
}

/// Handle a peer we have discovered - depending on NAT type
pub fn handle_peer(
    has_hole_puncher: bool,
    local: &PeerConnectionDetails,
    announce_address: AnnounceAddress,
    discovery_method: DiscoveryMethod,
) -> (r: PeerStep)
    ensures
        is_first_step(r, has_hole_puncher, *local, announce_address, discovery_method),
{
    match announce_address.connection_details {
        PeerConnectionDetails::Symmetric(remote_ip) => match local {
            PeerConnectionDetails::Symmetric(_) => failed(
                "Symmetric to symmetric not yet supported",
            ),
            PeerConnectionDetails::Asymmetric(_) => {
                if has_hole_puncher {
                    PeerStep::HolePunchWithoutPort(remote_ip)
                } else {
                    failed("We have asymmetric NAT but no local socket")
                }
            },
            // They are symmetric (hard), we have no nat - wait for them to connect
            PeerConnectionDetails::NoNat(ours) => PeerStep::Await(*ours),
        },
        PeerConnectionDetails::Asymmetric(theirs) => match local {
            PeerConnectionDetails::Asymmetric(ours) => {
                if !has_hole_puncher {
                    failed("We have asymmetric nat but no local socket")
                } else if ours.ip() != theirs.ip() {
                    PeerStep::HolePunch(theirs)
                } else {
                    settle(*ours, theirs, announce_address, discovery_method)
                }
            },
            PeerConnectionDetails::Symmetric(_) => PeerStep::BirthdayHardSide(theirs),
            // They are asymmetric (easy), we have no nat - just wait for them to connect
            PeerConnectionDetails::NoNat(ours) => PeerStep::Await(*ours),
        },
        // They have no nat - should be able to connect to them normally
        PeerConnectionDetails::NoNat(theirs) => match local {
            PeerConnectionDetails::NoNat(ours) => settle(
                *ours,
                theirs,
                announce_address,
                discovery_method,
            ),
            PeerConnectionDetails::Symmetric(_) => PeerStep::BindSocket,
            PeerConnectionDetails::Asymmetric(_) => PeerStep::Connect(
                DiscoveredPeer {
                    socket_address: theirs,
                    own_socket: false,
                    discovery_method,
                    announce_address,
                },
            ),
        },
    }
}

/// Goes on after a step that needed the network.
pub fn resume_peer(
    local: &PeerConnectionDetails,
    announce_address: AnnounceAddress,
    discovery_method: DiscoveryMethod,
    event: PeerEvent,
) -> (r: PeerStep)
    requires
        is_expected(*local, announce_address.connection_details, event),
    ensures
        is_next_step(r, *local, announce_address, discovery_method, event),
{
    match event {
        PeerEvent::Failed(reason) => PeerStep::Fail(
            UiServerErrorWrapper(UiServerError::PeerDiscovery(reason)),
        ),
        PeerEvent::SenderFound(sender) => PeerStep::Await(sender),
        PeerEvent::Punched => match (*local, announce_address.connection_details) {
            (PeerConnectionDetails::Asymmetric(ours), PeerConnectionDetails::Asymmetric(theirs)) => settle(
                ours,
                theirs,
                announce_address,
                discovery_method,
            ),
            _ => {
                assert(false);
                PeerStep::BindSocket
            },
        },
        PeerEvent::SocketReady => match announce_address.connection_details {
            PeerConnectionDetails::Asymmetric(theirs) | PeerConnectionDetails::NoNat(theirs) => PeerStep::Connect(
                DiscoveredPeer {
                    socket_address: theirs,
                    own_socket: true,
                    discovery_method,
                    announce_address,
                },
            ),
            PeerConnectionDetails::Symmetric(_) => {
                assert(false);
                PeerStep::BindSocket
            },
        },
    }
}

/// This is called when a peer is announced, either directly by the user or through a gossiped peer
/// announcement from another connected peer.
pub fn handle_peer_announcement(
    has_hole_puncher: bool,
    our_announce_address: &AnnounceAddress,
    their_announce_address: AnnounceAddress,
    already_connected: bool,
    discovery_method: DiscoveryMethod,
) -> (r: PeerStep)
    ensures
        if *our_announce_address == their_announce_address {
            discovery_failure(r, "Cannot connect to ourself"@)
        } else if already_connected {
            discovery_failure(r, "Already connected to this peer"@)
        } else {
            is_first_step(
                r,
                has_hole_puncher,
                our_announce_address.connection_details,
                their_announce_address,
                discovery_method,
            )
        },
{
    // Check it is not ourself
    if our_announce_address.same_as(&their_announce_address) {
        return failed("Cannot connect to ourself");
    }
    // Check that we are not already connected to this peer
    if already_connected {
        return failed("Already connected to this peer");
    }
    handle_peer(
        has_hole_puncher,
        &our_announce_address.connection_details,
        their_announce_address,
        discovery_method,
    )
}

/// Where both sides can be reached, with no NAT between them or behind the same one, the side with
/// the greater address dials the other one at the address that it announces. The other side waits
/// for whoever announced the greater address.
pub proof fn law_greater_address_dials(
    step: PeerStep,
    ours: SocketAddr,
    theirs: SocketAddr,
    announce_address: AnnounceAddress,
    method: DiscoveryMethod,
)
    requires
        ({
            ||| {
                &&& announce_address.connection_details == PeerConnectionDetails::NoNat(theirs)
                &&& is_first_step(
                    step,
                    true,
                    PeerConnectionDetails::NoNat(ours),
                    announce_address,
                    method,
                )
            }
            ||| {
                &&& announce_address.connection_details == PeerConnectionDetails::Asymmetric(theirs)
                &&& ours.spec_ip() == theirs.spec_ip()
                &&& is_first_step(
                    step,
                    true,
                    PeerConnectionDetails::Asymmetric(ours),
                    announce_address,
                    method,
                )
            }
            ||| {
                &&& announce_address.connection_details == PeerConnectionDetails::Asymmetric(theirs)
                &&& is_next_step(
                    step,
                    PeerConnectionDetails::Asymmetric(ours),
                    announce_address,
                    method,
                    PeerEvent::Punched,
                )
            }
        }),
    ensures
        ours.greater_than(theirs) ==> step == PeerStep::Connect(
            DiscoveredPeer {
                socket_address: theirs,
                own_socket: false,
                discovery_method: method,
                announce_address,
            },
        ),
        !ours.greater_than(theirs) ==> step == PeerStep::Await(theirs),
{
}

} // verus!
