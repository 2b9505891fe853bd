//! Shared state used by both the peer connections and user interface server
use crate::announce_address;
use crate::announce_address::{AnnounceAddress, PeerConnectionDetails};
use crate::connections::discovery::traversal::DiscoveryMethod;
use crate::errors::UiServerErrorWrapper;
use crate::peer_id::PeerId;
use crate::table;
use crate::table::Table;
use crate::ui_messages;
use crate::ui_messages::{Info, PeerInfo, UiEvent, UiServerError};
use crate::wire_messages;
use crate::wire_messages::AnnouncePeer;
use vstd::prelude::*;

verus! {

/// Where peers' requests, shares and the rest stand in the key-value store.
pub const CONFIG: [u8; 1] = [99];

pub const FILES: [u8; 1] = [102];

pub const DIRS: [u8; 1] = [100];

pub const SHARE_NAMES: [u8; 1] = [115];

pub const REQUESTS: [u8; 1] = [114];

pub const REQUESTS_BY_TIMESTAMP: [u8; 1] = [82];

pub const REQUESTS_PROGRESS: [u8; 1] = [80];

pub const REQUESTED_FILES_BY_PEER: [u8; 1] = [112];

pub const REQUESTED_FILES_BY_REQUEST_ID: [u8; 1] = [67];

/// Legacy, name-keyed peer records. Kept untouched and deliberately ignored.
pub const KNOWN_PEERS_LEGACY: [u8; 1] = [107];

pub const KNOWN_PEERS_V1: [u8; 2] = [107, 49];

/// The maximum number of bytes a request message may be
pub const MAX_REQUEST_SIZE: usize = 1024;

/// Error on making a request to a given remote peer
#[derive(Debug, PartialEq)]
pub enum RequestError {
    PeerNotFound,
    ConnectionError(String),
    SerializationError,
    WriteError(String),
    ClosedStream,
}

impl RequestError {
    /// What the error prints.
    pub open spec fn message(self) -> Seq<char> {
        match self {
            RequestError::PeerNotFound => "Peer not found"@,
            RequestError::ConnectionError(error) => error@,
            RequestError::SerializationError => "Cannot serialize message"@,
            RequestError::WriteError(error) => error@,
            RequestError::ClosedStream => "Attempted to close an already closed stream"@,
        }
    }

    /// The error as text.
    pub fn to_string(&self) -> (r: String)
        ensures
            r@ == self.message(),
    {
        match self {
            RequestError::PeerNotFound => "Peer not found".to_owned(),
            RequestError::ConnectionError(error) => error.clone(),
            RequestError::SerializationError => "Cannot serialize message".to_owned(),
            RequestError::WriteError(error) => error.clone(),
            RequestError::ClosedStream => "Attempted to close an already closed stream".to_owned(),
        }
    }
}

/// A peer to get into contact with.
#[derive(Debug, Clone, Copy)]
pub struct PeerConnect {
    /// How we learned of the peer.
    pub discovery_method: DiscoveryMethod,
    /// The announced identity and connection details for the peer.
    pub announce_address: AnnounceAddress,
}

/// A peer that we are connected to.
#[derive(Debug, Clone, Copy)]
pub struct Peer {
    /// Identifies the connection, for as long as this process runs.
    pub connection: u64,
    /// How the peer was found, which is where to reconnect to.
    pub found_at: Option<AnnounceAddress>,
    /// The peer's verified, gossip-authorized announcement, if received.
    pub announcement: Option<AnnouncePeer>,
}

/// Shared state used by both the peer connections and user interface server
pub struct SharedState {
    /// A map of canonical public-key IDs to active peer connections.
    pub peers: Table<PeerId, Peer>,
    /// A name derived from our public key
    pub name: String,
    /// Our canonical public-key identity.
    pub id: PeerId,
    /// Our own connection details
    pub announce_address: AnnounceAddress,
    /// Our signed, gossip-authorized self-announcement.
    pub self_announcement: AnnouncePeer,
    /// Signature-verified remote announcements retained for live gossip only.
    pub verified_announcements: Table<PeerId, AnnouncePeer>,
    /// Our OS home directory path
    pub os_home_dir: Option<String>,
    /// Whether graceful shutdown has started
    pub shutting_down: bool,
    /// Peers intentionally disconnected until an explicit future connect call.
    pub manually_disconnected_peers: Table<PeerId, ()>,
    /// Peers with an outbound connect task currently in progress.
    pub pending_outbound_connections: Table<PeerId, ()>,
}

/// What the state is about, for contracts.
#[verifier::ext_equal]
pub struct StateView {
    pub peers: Map<PeerId, Peer>,
    pub announcements: Map<PeerId, AnnouncePeer>,
    pub shutting_down: bool,
    pub manually_disconnected: Set<PeerId>,
    pub pending: Set<PeerId>,
    pub id: PeerId,
    pub name: Seq<char>,
    pub announce_address: AnnounceAddress,
    pub self_announcement: AnnouncePeer,
    pub os_home_dir: Option<String>,
}

impl View for SharedState {
    type V = StateView;

    open spec fn view(&self) -> StateView {
        StateView {
            peers: self.peers@,
            announcements: self.verified_announcements@,
            shutting_down: self.shutting_down,
            manually_disconnected: self.manually_disconnected_peers@.dom(),
            pending: self.pending_outbound_connections@.dom(),
            id: self.id,
            name: self.name@,
            announce_address: self.announce_address,
            self_announcement: self.self_announcement,
            os_home_dir: self.os_home_dir,
        }
    }
}

/// Whether an error says this.
pub open spec fn connection_error(error: UiServerErrorWrapper, message: Seq<char>) -> bool {
    error.0 matches UiServerError::ConnectionError(text) && text@ == message
}

/// The connections to all peers but one.
pub open spec fn connections_of_others(peers: Map<PeerId, Peer>, peer: PeerId) -> Map<PeerId, u64> {
    Map::new(
        |other: PeerId| peers.dom().contains(other) && other != peer,
        |other: PeerId| peers[other].connection,
    )
}

/// The announcements of all peers but one, as far as we have them.
pub open spec fn announcements_of_others(peers: Map<PeerId, Peer>, peer: PeerId) -> Map<
    PeerId,
    AnnouncePeer,
> {
    Map::new(
        |other: PeerId|
            peers.dom().contains(other) && other != peer && peers[other].announcement is Some,
        |other: PeerId| peers[other].announcement->Some_0,
    )
}

/// Whether a list holds what a map holds, each entry once.
pub open spec fn lists<V>(list: Seq<(PeerId, V)>, map: Map<PeerId, V>) -> bool {
    table::keys_distinct(list) && table::entries_map(list) == map
}

/// The keys of the first entries.
pub open spec fn keys_before<V>(list: Seq<(PeerId, V)>, i: int) -> Set<PeerId> {
    Set::new(|peer: PeerId| exists|k: int| 0 <= k < i && (#[trigger] list[k]).0 == peer)
}

proof fn lemma_keys_before<V>(list: Seq<(PeerId, V)>, i: int)
    requires
        table::keys_distinct(list),
        0 <= i < list.len(),
    ensures
        keys_before(list, i + 1) == keys_before(list, i).insert(list[i].0),
        !keys_before(list, i).contains(list[i].0),
{
    assert forall|peer: PeerId| keys_before(list, i + 1).contains(peer) == keys_before(
        list,
        i,
    ).insert(list[i].0).contains(peer) by {
        if keys_before(list, i).contains(peer) {
            let k = choose|k: int| 0 <= k < i && (#[trigger] list[k]).0 == peer;
            assert(list[k].0 == peer);
        }
        if list[i].0 == peer {
            assert(keys_before(list, i + 1).contains(peer));
        }
    }
    assert(keys_before(list, i + 1) =~= keys_before(list, i).insert(list[i].0));
}

impl StateView {
    /// The state of a peer with this identity at the start: there are no connections yet.
    pub open spec fn initial(
        id: PeerId,
        announce_address: AnnounceAddress,
        self_announcement: AnnouncePeer,
        os_home_dir: Option<String>,
    ) -> StateView {
        StateView {
            peers: Map::empty(),
            announcements: Map::empty(),
            shutting_down: false,
            manually_disconnected: Set::empty(),
            pending: Set::empty(),
            id,
            name: ui_messages::peer_label(id@),
            announce_address,
            self_announcement,
            os_home_dir,
        }
    }

    /// What we announce is our own address, and we have signed it.
    pub open spec fn announces_ourselves(self) -> bool {
        &&& self.announce_address.public_key == self.id
        &&& self.self_announcement.announce_address == self.announce_address
        &&& self.self_announcement.is_authentic()
    }

    /// All announcements that are sent are signed by those that they announce.
    pub open spec fn wf(self) -> bool {
        self.announces_ourselves() && self.only_verified()
    }

    /// Only announcements that the announced peer has signed are kept, each under its own key.
    pub open spec fn only_verified(self) -> bool {
        &&& forall|peer: PeerId| #[trigger]
            self.announcements.dom().contains(peer) ==> self.announcements[peer].is_authentic()
                && self.announcements[peer].announce_address.public_key == peer
        &&& forall|peer: PeerId| #[trigger]
            self.peers.dom().contains(peer) ==> match self.peers[peer].announcement {
                Some(announcement) => announcement.is_authentic()
                    && announcement.announce_address.public_key == peer,
                None => true,
            }
    }
}

/// Why a connection is refused, if it is.
pub open spec fn refusal(
    state: StateView,
    peer: PeerId,
    found_at: Option<AnnounceAddress>,
    existing_open: bool,
) -> Option<Seq<char>> {
    if found_at matches Some(address) && address.public_key != peer {
        Some("unexpected public key"@)
    } else if state.manually_disconnected.contains(peer) {
        Some("manually disconnected"@)
    } else if state.peers.dom().contains(peer) && existing_open {
        Some("duplicate connection"@)
    } else {
        None
    }
}

/// The kinds of announcements.
pub enum AnnouncementKind {
    /// From a peer that we are not connected to.
    NotConnected,
    /// The sender's own announcement.
    Own,
    /// What should be the sender's own announcement, and is not.
    BadSelf,
    /// An authentic announcement of another peer.
    Gossip,
    /// An announcement of another peer that this peer has not signed.
    BadGossip,
}

/// What kind of announcement this is.
pub open spec fn announcement_kind(
    state: StateView,
    sender: PeerId,
    announcement: AnnouncePeer,
) -> AnnouncementKind {
    let own = announcement.announce_address.public_key == sender;
    if !state.peers.dom().contains(sender) {
        AnnouncementKind::NotConnected
    } else if state.peers[sender].announcement is None || own {
        if own && announcement.is_authentic() {
            AnnouncementKind::Own
        } else {
            AnnouncementKind::BadSelf
        }
    } else if announcement.is_authentic() {
        AnnouncementKind::Gossip
    } else {
        AnnouncementKind::BadGossip
    }
}

/// Whether a connection is the one that we count a peer as connected by.
pub open spec fn is_authoritative(state: StateView, peer: PeerId, connection: u64) -> bool {
    state.peers.dom().contains(peer) && state.peers[peer].connection == connection
}

/// Where to reconnect to once a connection is lost, if at all.
pub open spec fn reconnects_to(state: StateView, peer: PeerId, connection: u64) -> Option<
    AnnounceAddress,
> {
    if state.shutting_down || state.manually_disconnected.contains(peer) {
        None
    } else if is_authoritative(state, peer, connection) {
        state.peers[peer].found_at
    } else {
        None
    }
}

/// Once the user has disconnected a peer, no connection with it is accepted and none is sought.
pub proof fn law_disconnect_suppresses_reconnect(
    state: StateView,
    peer: PeerId,
    found_at: Option<AnnounceAddress>,
    existing_open: bool,
    connection: u64,
)
    requires
        state.manually_disconnected.contains(peer),
    ensures
        refusal(state, peer, found_at, existing_open) is Some,
        reconnects_to(state, peer, connection) is None,
{
}

/// An explicit connect lifts that: the next connection with the peer is accepted, unless there is
/// one already or it is with another key.
pub proof fn law_explicit_connect_lifts_disconnect(
    state: StateView,
    peer: PeerId,
    found_at: Option<AnnounceAddress>,
)
    requires
        found_at matches Some(address) ==> address.public_key == peer,
    ensures
        refusal(
            StateView {
                manually_disconnected: state.manually_disconnected.remove(peer),
                ..state
            },
            peer,
            found_at,
            false,
        ) is None,
{
}

/// A connection that was replaced by another one changes nothing when it is lost: the peer stays
/// connected and is not connected to again.
pub proof fn law_replaced_connection_is_not_reported(
    state: StateView,
    peer: PeerId,
    connection: u64,
    replacement: Peer,
)
    requires
        replacement.connection != connection,
    ensures
        ({
            let after = StateView { peers: state.peers.insert(peer, replacement), ..state };
            &&& !is_authoritative(after, peer, connection)
            &&& reconnects_to(after, peer, connection) is None
        }),
{
}

/// Nobody can be announced without having signed it: what is taken as gossip, and what is passed
/// on, was signed by the announced peer.
pub proof fn law_only_signed_announcements_count(
    state: StateView,
    sender: PeerId,
    announcement: AnnouncePeer,
)
    requires
        announcement_kind(state, sender, announcement) is Own || announcement_kind(
            state,
            sender,
            announcement,
        ) is Gossip,
    ensures
        announcement.is_authentic(),
{
}

/// A peer that announces itself with what it has signed is heard, and its connection stays open.
pub proof fn law_honest_self_announcement_is_heard(
    state: StateView,
    sender: PeerId,
    announcement: AnnouncePeer,
)
    requires
        state.peers.dom().contains(sender),
        announcement.announce_address.public_key == sender,
        announcement.is_authentic(),
    ensures
        announcement_kind(state, sender, announcement) is Own,
{
}

/// What we send of ourselves on a new connection is heard by the peer at the other end, which
/// knows us by our key.
pub proof fn law_our_announcement_is_heard(state: StateView, at_the_peer: StateView)
    requires
        state.wf(),
        at_the_peer.peers.dom().contains(state.id),
    ensures
        announcement_kind(at_the_peer, state.id, state.self_announcement) is Own,
{
}

/// What a new peer is sent of the others was signed by them.
pub proof fn law_signed_announcements_are_passed_on(state: StateView, peer: PeerId, other: PeerId)
    requires
        state.only_verified(),
        announcements_of_others(state.peers, peer).dom().contains(other),
    ensures
        announcements_of_others(state.peers, peer)[other].is_authentic(),
        announcements_of_others(state.peers, peer)[other].announce_address.public_key == other,
{
}

/// Everyone that we are connected to hears of each other: a peer that is admitted is sent the
/// announcement of each peer that has announced itself, and its own announcement goes to each of
/// them.
pub proof fn law_peers_hear_of_each_other(
    state: StateView,
    newcomer: PeerId,
    entry: Peer,
    other: PeerId,
)
    requires
        other != newcomer,
        state.peers.dom().contains(other),
        state.peers[other].announcement is Some,
    ensures
        announcements_of_others(state.peers, newcomer).dom().contains(other),
        announcements_of_others(state.peers, newcomer)[other]
            == state.peers[other].announcement->Some_0,
        ({
            let after = state.peers.insert(newcomer, entry);
            &&& connections_of_others(after, newcomer).dom().contains(other)
            &&& connections_of_others(after, newcomer)[other] == state.peers[other].connection
        }),
{
}

/// Why a private key cannot be used.
#[derive(Debug, Clone, Copy, PartialEq, Eq, Structural)]
pub enum IdentityError {
    /// It is not the encoding of a key.
    UnreadableKey,
    /// It does not belong to our identity.
    WrongKey,
}

impl IdentityError {
    /// The error as text.
    pub fn to_string(&self) -> (r: String)
        ensures
            r@ == match *self {
                IdentityError::UnreadableKey => "Cannot read our private key"@,
                IdentityError::WrongKey => "Certificate is not for our key"@,
            },
    {
        match self {
            IdentityError::UnreadableKey => "Cannot read our private key".to_owned(),
            IdentityError::WrongKey => "Certificate is not for our key".to_owned(),
        }
    }
}

/// What comes of a connection to a peer.
#[derive(Debug)]
pub enum Admission {
    /// The connection has to be closed, for this reason.
    Refused(String),
    /// The peer is now connected.
    Admitted {
        /// An earlier connection that has to be closed.
        replaced: Option<u64>,
        /// Our own announcement, which is the first to send to the peer.
        own: AnnouncePeer,
        /// The announcements to send to the peer after that.
        announcements: Vec<(PeerId, AnnouncePeer)>,
        /// What the user interface is told.
        event: UiEvent,
    },
}

/// What comes of an announcement.
#[derive(Debug)]
pub enum AnnouncementOutcome {
    /// The sender did not announce itself as it should: its connection has to be closed.
    Close,
    /// The announcement is not authentic, and nothing comes of it.
    Dropped,
    /// The sender has announced itself. The announcement has to be passed on over these
    /// connections.
    Relay(Vec<(PeerId, u64)>),
    /// Another peer was announced, that we can connect to.
    Discovered(PeerConnect),
}

/// What comes of the loss of a connection.
#[derive(Debug)]
pub struct Disconnection {
    /// What the user interface is told, if anything.
    pub event: Option<UiEvent>,
    /// Where to reconnect to, if at all.
    pub reconnect: Option<AnnounceAddress>,
}

impl SharedState {
    /// The state at the start: there are no connections yet.
    pub fn new(
        id: PeerId,
        announce_address: AnnounceAddress,
        self_announcement: AnnouncePeer,
        os_home_dir: Option<String>,
    ) -> (r: SharedState)
        ensures
            r@ == StateView::initial(id, announce_address, self_announcement, os_home_dir),
            r@.wf() == r@.announces_ourselves(),
    {
        let info = PeerInfo::from_id(id);
        let r = SharedState {
            peers: Table::new(),
            name: info.name,
            id,
            announce_address,
            self_announcement,
            verified_announcements: Table::new(),
            os_home_dir,
            shutting_down: false,
            manually_disconnected_peers: Table::new(),
            pending_outbound_connections: Table::new(),
        };
        assert(r@ =~= StateView::initial(id, announce_address, self_announcement, os_home_dir));
        r
    }

    /// The state at the start of a peer with this private key, which signs what it announces of
    /// itself. It is an error where the key cannot be read, and where it is not the key of the
    /// identity that we show to others.
    pub fn with_private_key(
        id: PeerId,
        connection_details: PeerConnectionDetails,
        private_key: &[u8],
        os_home_dir: Option<String>,
    ) -> (r: Result<SharedState, IdentityError>)
        ensures
            match (wire_messages::pkcs8_seed(private_key@), r) {
                (Some(seed), Ok(state)) => {
                    &&& wire_messages::ed25519_public(seed) == id@
                    &&& state@.wf()
                    &&& state@ == StateView::initial(
                        id,
                        AnnounceAddress { connection_details, public_key: id },
                        state.self_announcement,
                        os_home_dir,
                    )
                    &&& state.self_announcement.signature@ == wire_messages::ed25519_signature(
                        seed,
                        wire_messages::signed_bytes(state.announce_address),
                    )
                },
                (Some(seed), Err(error)) => {
                    &&& wire_messages::ed25519_public(seed) != id@
                    &&& error == IdentityError::WrongKey
                },
                (None, _) => r == Err::<SharedState, IdentityError>(IdentityError::UnreadableKey),
            },
    {
        let self_announcement = match AnnouncePeer::sign(connection_details, private_key) {
            Some(announcement) => announcement,
            None => {
                return Err(IdentityError::UnreadableKey);
            },
        };
        let signer = self_announcement.peer_id();
        proof {
            signer.lemma_view(id);
        }
        if signer != id {
            return Err(IdentityError::WrongKey);
        }
        let announce_address = AnnounceAddress { connection_details, public_key: id };
        Ok(SharedState::new(id, announce_address, self_announcement, os_home_dir))
    }

    /// The connection over which to make a request to a peer.
    pub fn request(&self, id: &PeerId) -> (r: Result<u64, RequestError>)
        ensures
            match r {
                Ok(connection) => self@.peers.dom().contains(*id) && connection
                    == self@.peers[*id].connection,
                Err(error) => !self@.peers.dom().contains(*id) && error is PeerNotFound,
            },
    {
        match self.peers.get(id) {
            Some(peer) => Ok(peer.connection),
            None => Err(RequestError::PeerNotFound),
        }
    }

    /// Our announce address, as the user gives it to others.
    pub fn get_ui_announce_address(&self) -> (r: String)
        ensures
            r@ == announce_address::announce_code(self.announce_address),
    {
        self.announce_address.to_string()
    }

    /// What a user interface shows of us.
    pub fn get_info(&self) -> (r: Info)
        ensures
            r.id == self.id,
            r.name == self.name,
            r.os_home_dir == self.os_home_dir,
            r.announce_address@ == announce_address::announce_code(self.announce_address),
    {
        let os_home_dir = match &self.os_home_dir {
            Some(dir) => Some(dir.clone()),
            None => None,
        };
        Info {
            id: self.id,
            name: self.name.clone(),
            os_home_dir,
            announce_address: self.get_ui_announce_address(),
        }
    }

    /// The user wants to connect to a peer.
    pub fn connect_to_peer(&self, announce_address: AnnounceAddress) -> (r: Result<
        PeerConnect,
        UiServerErrorWrapper,
    >)
        ensures
            match r {
                Ok(connect) => !self@.shutting_down && connect == (PeerConnect {
                    discovery_method: DiscoveryMethod::Direct,
                    announce_address,
                }),
                Err(error) => self@.shutting_down && connection_error(
                    error,
                    "Shutting down; not connecting to peer"@,
                ),
            },
    {
        if self.shutting_down {
            return Err(
                UiServerErrorWrapper(
                    UiServerError::ConnectionError(
                        "Shutting down; not connecting to peer".to_owned(),
                    ),
                ),
            );
        }
        Ok(PeerConnect { discovery_method: DiscoveryMethod::Direct, announce_address })
    }

    /// A connection that the user asked for is under way, or discovery has failed. Only a
    /// connection that is under way lifts an earlier wish to be disconnected.
    pub fn connect_requested(
        &mut self,
        peer_id: &PeerId,
        outcome: Result<(), UiServerErrorWrapper>,
    ) -> (r: Result<(), UiServerErrorWrapper>)
        ensures
            r == outcome,
            final(self)@ == (StateView {
                manually_disconnected: if outcome is Ok {
                    old(self)@.manually_disconnected.remove(*peer_id)
                } else {
                    old(self)@.manually_disconnected
                },
                ..old(self)@
            }),
            old(self)@.wf() ==> final(self)@.wf(),
    {
        if outcome.is_ok() {
            self.manually_disconnected_peers.remove(peer_id);
        }
        assert(self@ =~= StateView {
            manually_disconnected: if outcome is Ok {
                old(self)@.manually_disconnected.remove(*peer_id)
            } else {
                old(self)@.manually_disconnected
            },
            ..old(self)@
        });
        outcome
    }

    /// Intentionally disconnect from a connected peer and suppress automatic reconnects until an
    /// explicit future connect call. Gives the connection to close.
    pub fn disconnect_peer(&mut self, peer_id: &PeerId) -> (r: Result<u64, UiServerErrorWrapper>)
        ensures
            match r {
                Ok(connection) => {
                    &&& old(self)@.peers.dom().contains(*peer_id)
                    &&& connection == old(self)@.peers[*peer_id].connection
                    &&& final(self)@ == (StateView {
                        manually_disconnected: old(self)@.manually_disconnected.insert(*peer_id),
                        ..old(self)@
                    })
                },
                Err(error) => {
                    &&& !old(self)@.peers.dom().contains(*peer_id)
                    &&& connection_error(error, "Peer not connected"@)
                    &&& final(self)@ == old(self)@
                },
            },
            old(self)@.wf() ==> final(self)@.wf(),
    {
        let connection: u64 = match self.peers.get(peer_id) {
            Some(peer) => peer.connection,
            None => {
                return Err(
                    UiServerErrorWrapper(
                        UiServerError::ConnectionError("Peer not connected".to_owned()),
                    ),
                );
            },
        };
        self.manually_disconnected_peers.insert(*peer_id, ());
        assert(self@ =~= StateView {
            manually_disconnected: old(self)@.manually_disconnected.insert(*peer_id),
            ..old(self)@
        });
        Ok(connection)
    }

    /// Whether to start connecting to a peer: not while there is an attempt already.
    pub fn begin_outbound(&mut self, peer_id: &PeerId) -> (r: bool)
        ensures
            r == !old(self)@.pending.contains(*peer_id),
            final(self)@ == (StateView {
                pending: old(self)@.pending.insert(*peer_id),
                ..old(self)@
            }),
            old(self)@.wf() ==> final(self)@.wf(),
    {
        let r = !self.pending_outbound_connections.contains_key(peer_id);
        self.pending_outbound_connections.insert(*peer_id, ());
        assert(self@ =~= StateView { pending: old(self)@.pending.insert(*peer_id), ..old(self)@ });
        r
    }

    /// An attempt to connect to a peer is over. Gives what the user interface is told of a
    /// failure.
    pub fn end_outbound(&mut self, peer_id: &PeerId, failure: Option<UiServerErrorWrapper>) -> (r:
        Option<UiEvent>)
        ensures
            final(self)@ == (StateView {
                pending: old(self)@.pending.remove(*peer_id),
                ..old(self)@
            }),
            old(self)@.wf() ==> final(self)@.wf(),
            match failure {
                Some(error) => {
                    &&& r matches Some(UiEvent::PeerConnectionFailed { peer, error: text })
                    &&& peer.id == *peer_id
                    &&& peer.name@ == ui_messages::peer_label(peer_id@)
                    &&& text@ == error.0.message()
                },
                None => r is None,
            },
    {
        self.pending_outbound_connections.remove(peer_id);
        assert(self@ =~= StateView { pending: old(self)@.pending.remove(*peer_id), ..old(self)@ });
        match failure {
            Some(error) => Some(
                UiEvent::PeerConnectionFailed {
                    peer: PeerInfo::from_id(*peer_id),
                    error: error.to_string(),
                },
            ),
            None => None,
        }
    }

    /// A connection to or from a peer has come about. The peer has shown that it holds the key
    /// `peer_id`. `existing_open` says whether the connection that we have to this peer, if any, is
    /// still open.
    pub fn accept_connection(
        &mut self,
        connection: u64,
        peer_id: PeerId,
        found_at: Option<AnnounceAddress>,
        existing_open: bool,
    ) -> (r: Admission)
        ensures
            match refusal(old(self)@, peer_id, found_at, existing_open) {
                Some(reason) => {
                    &&& r matches Admission::Refused(text) && text@ == reason
                    &&& final(self)@ == old(self)@
                },
                None => {
                    &&& r matches Admission::Admitted { replaced, own, announcements, event }
                    &&& own == old(self)@.self_announcement
                    &&& replaced == if old(self)@.peers.dom().contains(peer_id) {
                        Some(old(self)@.peers[peer_id].connection)
                    } else {
                        None
                    }
                    &&& lists(
                        announcements@,
                        announcements_of_others(old(self)@.peers, peer_id),
                    )
                    &&& event matches UiEvent::PeerConnected { peer }
                    &&& peer.id == peer_id
                    &&& peer.name@ == ui_messages::peer_label(peer_id@)
                    &&& final(self)@ == (StateView {
                        peers: old(self)@.peers.insert(
                            peer_id,
                            Peer { connection, found_at, announcement: None },
                        ),
                        ..old(self)@
                    })
                },
            },
            old(self)@.only_verified() ==> final(self)@.only_verified(),
            old(self)@.wf() ==> final(self)@.wf(),
    {
        match found_at {
            Some(address) => {
                proof {
                    address.public_key.lemma_view(peer_id);
                }
                if address.public_key != peer_id {
                    return Admission::Refused("unexpected public key".to_owned());
                }
            },
            None => {},
        }
        if self.manually_disconnected_peers.contains_key(&peer_id) {
            return Admission::Refused("manually disconnected".to_owned());
        }
        let replaced: Option<u64> = match self.peers.get(&peer_id) {
            Some(peer) => {
                if existing_open {
                    return Admission::Refused("duplicate connection".to_owned());
                }
                Some(peer.connection)
            },
            None => None,
        };
        let announcements = self.other_announcements(&peer_id);
        self.peers.insert(peer_id, Peer { connection, found_at, announcement: None });
        assert(self@ =~= StateView {
            peers: old(self)@.peers.insert(
                peer_id,
                Peer { connection, found_at, announcement: None },
            ),
            ..old(self)@
        });
        Admission::Admitted {
            replaced,
            own: self.self_announcement,
            announcements,
            event: UiEvent::PeerConnected { peer: PeerInfo::from_id(peer_id) },
        }
    }

    /// The announcements to send to a new peer: those of the others that we are connected to.
    fn other_announcements(&self, peer_id: &PeerId) -> (r: Vec<(PeerId, AnnouncePeer)>)
        ensures
            lists(r@, announcements_of_others(self@.peers, *peer_id)),
    {
        let mut r: Vec<(PeerId, AnnouncePeer)> = Vec::new();
        let n: usize = self.peers.len();
        let ghost listed = self.peers.listed();
        let ghost wanted = announcements_of_others(self.peers@, *peer_id);
        let mut i: usize = 0;
        assert(table::entries_map(r@) =~= Map::<PeerId, AnnouncePeer>::empty());
        while i < n
            invariant
                i <= n,
                n == listed.len(),
                listed == self.peers.listed(),
                self.peers@ == table::entries_map(listed),
                table::keys_distinct(listed),
                forall|k: int|
                    #![trigger listed[k]]
                    0 <= k < n ==> self.peers@.dom().contains(listed[k].0)
                        && self.peers@[listed[k].0] == listed[k].1,
                wanted == announcements_of_others(self.peers@, *peer_id),
                table::keys_distinct(r@),
                table::entries_map(r@) =~= wanted.restrict(keys_before(listed, i as int)),
            decreases n - i,
        {
            let (other, details) = self.peers.entry(i);
            proof {
                other.lemma_view(*peer_id);
            }
            let ghost before = keys_before(listed, i as int);
            let ghost after = keys_before(listed, i + 1);
            assert(after =~= before.insert(*other)) by {
                lemma_keys_before(listed, i as int);
            }
            assert(!before.contains(*other)) by {
                lemma_keys_before(listed, i as int);
            }
            if *other != *peer_id {
                match details.announcement {
                    Some(announcement) => {
                        proof {
                            table::lemma_entry_added(r@, *other, announcement);
                        }
                        r.push((*other, announcement));
                    },
                    None => {},
                }
            }
            i += 1;
        }
        assert(table::entries_map(r@) =~= wanted) by {
            assert forall|peer: PeerId| wanted.dom().contains(peer) implies keys_before(
                listed,
                n as int,
            ).contains(peer) by {
                let k = table::key_index(listed, peer);
                assert(listed[k].0 == peer);
            }
        }
        r
    }

    /// The connections to all peers but one.
    fn other_connections(&self, peer_id: &PeerId) -> (r: Vec<(PeerId, u64)>)
        ensures
            lists(r@, connections_of_others(self@.peers, *peer_id)),
    {
        let mut r: Vec<(PeerId, u64)> = Vec::new();
        let n: usize = self.peers.len();
        let ghost listed = self.peers.listed();
        let ghost wanted = connections_of_others(self.peers@, *peer_id);
        let mut i: usize = 0;
        assert(table::entries_map(r@) =~= Map::<PeerId, u64>::empty());
        while i < n
            invariant
                i <= n,
                n == listed.len(),
                listed == self.peers.listed(),
                self.peers@ == table::entries_map(listed),
                table::keys_distinct(listed),
                forall|k: int|
                    #![trigger listed[k]]
                    0 <= k < n ==> self.peers@.dom().contains(listed[k].0)
                        && self.peers@[listed[k].0] == listed[k].1,
                wanted == connections_of_others(self.peers@, *peer_id),
                table::keys_distinct(r@),
                table::entries_map(r@) =~= wanted.restrict(keys_before(listed, i as int)),
            decreases n - i,
        {
            let (other, details) = self.peers.entry(i);
            proof {
                other.lemma_view(*peer_id);
            }
            let ghost before = keys_before(listed, i as int);
            let ghost after = keys_before(listed, i + 1);
            assert(after =~= before.insert(*other)) by {
                lemma_keys_before(listed, i as int);
            }
            assert(!before.contains(*other)) by {
                lemma_keys_before(listed, i as int);
            }
            if *other != *peer_id {
                proof {
                    table::lemma_entry_added(r@, *other, details.connection);
                }
                r.push((*other, details.connection));
            }
            i += 1;
        }
        assert(table::entries_map(r@) =~= wanted) by {
            assert forall|peer: PeerId| wanted.dom().contains(peer) implies keys_before(
                listed,
                n as int,
            ).contains(peer) by {
                let k = table::key_index(listed, peer);
                assert(listed[k].0 == peer);
            }
        }
        r
    }

    /// A connected peer has sent an announcement. The first one has to be its own.
    pub fn handle_announcement(&mut self, sender: PeerId, announcement: AnnouncePeer) -> (r:
        AnnouncementOutcome)
        ensures
            match announcement_kind(old(self)@, sender, announcement) {
                AnnouncementKind::NotConnected => r is Dropped && final(self)@ == old(self)@,
                AnnouncementKind::BadSelf => r is Close && final(self)@ == old(self)@,
                AnnouncementKind::Own => {
                    &&& r matches AnnouncementOutcome::Relay(connections) && lists(
                        connections@,
                        connections_of_others(old(self)@.peers, sender),
                    )
                    &&& final(self)@ == (StateView {
                        peers: old(self)@.peers.insert(
                            sender,
                            Peer { announcement: Some(announcement), ..old(self)@.peers[sender] },
                        ),
                        announcements: old(self)@.announcements.insert(sender, announcement),
                        ..old(self)@
                    })
                },
                AnnouncementKind::BadGossip => r is Dropped && final(self)@ == old(self)@,
                AnnouncementKind::Gossip => {
                    &&& r matches AnnouncementOutcome::Discovered(connect)
                    &&& connect.discovery_method == DiscoveryMethod::Gossip
                    &&& connect.announce_address == announcement.announce_address
                    &&& final(self)@ == (StateView {
                        announcements: old(self)@.announcements.insert(
                            announcement.announce_address.public_key,
                            announcement,
                        ),
                        ..old(self)@
                    })
                },
            },
            old(self)@.only_verified() ==> final(self)@.only_verified(),
            old(self)@.wf() ==> final(self)@.wf(),
    {
        let peer = match self.peers.get(&sender) {
            Some(peer) => *peer,
            None => {
                return AnnouncementOutcome::Dropped;
            },
        };
        let announced = announcement.peer_id();
        proof {
            announced.lemma_view(sender);
        }
        if peer.announcement.is_none() || announced == sender {
            if announced != sender || !announcement.verify() {
                return AnnouncementOutcome::Close;
            }
            let connections = self.other_connections(&sender);
            self.peers.insert(
                sender,
                Peer {
                    connection: peer.connection,
                    found_at: peer.found_at,
                    announcement: Some(announcement),
                },
            );
            self.verified_announcements.insert(sender, announcement);
            assert(self@ =~= StateView {
                peers: old(self)@.peers.insert(
                    sender,
                    Peer { announcement: Some(announcement), ..old(self)@.peers[sender] },
                ),
                announcements: old(self)@.announcements.insert(sender, announcement),
                ..old(self)@
            });
            return AnnouncementOutcome::Relay(connections);
        }
        if !announcement.verify() {
            return AnnouncementOutcome::Dropped;
        }
        self.verified_announcements.insert(announced, announcement);
        assert(self@ =~= StateView {
            announcements: old(self)@.announcements.insert(announced, announcement),
            ..old(self)@
        });
        AnnouncementOutcome::Discovered(
            PeerConnect {
                discovery_method: DiscoveryMethod::Gossip,
                announce_address: announcement.announce_address,
            },
        )
    }

    /// A connection to a peer was lost. Only the authoritative connection should emit a disconnect
    /// event.
    pub fn connection_lost(&mut self, peer_id: &PeerId, connection: u64, error: &str) -> (r:
        Disconnection)
        ensures
            r.reconnect == reconnects_to(old(self)@, *peer_id, connection),
            if is_authoritative(old(self)@, *peer_id, connection) {
                &&& r.event matches Some(UiEvent::PeerDisconnected { peer, error: text })
                &&& peer.id == *peer_id
                &&& peer.name@ == ui_messages::peer_label(peer_id@)
                &&& text@ == error@
                &&& final(self)@ == (StateView {
                    peers: old(self)@.peers.remove(*peer_id),
                    ..old(self)@
                })
            } else {
                r.event is None && final(self)@ == old(self)@
            },
            old(self)@.only_verified() ==> final(self)@.only_verified(),
            old(self)@.wf() ==> final(self)@.wf(),
    {
        let found = match self.peers.get(peer_id) {
            Some(peer) => if peer.connection == connection {
                Some(*peer)
            } else {
                None
            },
            None => None,
        };
        let (event, found_at) = match found {
            Some(peer) => {
                self.peers.remove(peer_id);
                (
                    Some(
                        UiEvent::PeerDisconnected {
                            peer: PeerInfo::from_id(*peer_id),
                            error: error.to_owned(),
                        },
                    ),
                    peer.found_at,
                )
            },
            None => (None, None),
        };
        // Now try to reconnect
        let reconnect = if self.shutting_down || self.manually_disconnected_peers.contains_key(
            peer_id,
        ) {
            None
        } else {
            found_at
        };
        proof {
            if is_authoritative(old(self)@, *peer_id, connection) {
                assert(self@ =~= StateView {
                    peers: old(self)@.peers.remove(*peer_id),
                    ..old(self)@
                });
            } else {
                assert(self@ =~= old(self)@);
            }
        }
        Disconnection { event, reconnect }
    }

    /// An incoming connection has failed. The user interface is told if it was one that we waited
    /// for.
    pub fn incoming_failed(&self, expected: &Option<AnnounceAddress>, error: &UiServerErrorWrapper)
        -> (r: Option<UiEvent>)
        ensures
            match *expected {
                Some(address) => {
                    &&& r matches Some(UiEvent::PeerConnectionFailed { peer, error: text })
                    &&& peer.id == address.public_key
                    &&& peer.name@ == ui_messages::peer_label(address.public_key@)
                    &&& text@ == error.0.message()
                },
                None => r is None,
            },
    {
        match expected {
            Some(address) => Some(
                UiEvent::PeerConnectionFailed {
                    peer: PeerInfo::from_id(address.public_key),
                    error: error.to_string(),
                },
            ),
            None => None,
        }
    }

    /// Graceful shutdown has started. Gives the connections to close.
    pub fn shut_down(&mut self) -> (r: Vec<(PeerId, u64)>)
        ensures
            final(self)@ == (StateView { shutting_down: true, ..old(self)@ }),
            old(self)@.wf() ==> final(self)@.wf(),
            table::keys_distinct(r@),
            table::entries_map(r@) == Map::new(
                |peer: PeerId| old(self)@.peers.dom().contains(peer),
                |peer: PeerId| old(self)@.peers[peer].connection,
            ),
    {
        self.shutting_down = true;
        let mut r: Vec<(PeerId, u64)> = Vec::new();
        let n: usize = self.peers.len();
        let ghost listed = self.peers.listed();
        let mut i: usize = 0;
        assert(table::entries_map(r@) =~= Map::<PeerId, u64>::empty());
        while i < n
            invariant
                i <= n,
                n == listed.len(),
                listed == self.peers.listed(),
                table::keys_distinct(listed),
                table::keys_distinct(r@),
                r@.len() == i,
                forall|k: int| 0 <= k < i ==> #[trigger] r@[k] == (listed[k].0, listed[k].1.connection),
            decreases n - i,
        {
            let (peer, details) = self.peers.entry(i);
            r.push((*peer, details.connection));
            i += 1;
        }
        proof {
            let map = Map::new(
                |peer: PeerId| old(self)@.peers.dom().contains(peer),
                |peer: PeerId| old(self)@.peers[peer].connection,
            );
            assert forall|peer: PeerId|
                table::has_key(r@, peer) == crate::table::has_key(listed, peer) by {
                if table::has_key(listed, peer) {
                    let k = table::key_index(listed, peer);
                    assert(r@[k].0 == peer);
                }
                if table::has_key(r@, peer) {
                    let k = table::key_index(r@, peer);
                    assert(listed[k].0 == peer);
                }
            }
            assert forall|peer: PeerId| #[trigger]
                table::has_key(r@, peer) implies table::entries_map(r@)[peer]
                == self.peers@[peer].connection by {
                let k = table::key_index(r@, peer);
                assert(r@[k] == (listed[k].0, listed[k].1.connection));
            }
            assert(table::entries_map(r@) =~= map);
        }
        r
    }
}

/// A connection is taken unless one of three things stands against it: the peer is not the one
/// that was looked for, we have disconnected from it by hand, or it is already connected by a
/// connection that is open.
pub proof fn law_who_is_taken_in(
    state: StateView,
    peer: PeerId,
    found_at: Option<AnnounceAddress>,
    existing_open: bool,
)
    ensures
        found_at is None && !state.manually_disconnected.contains(peer) && !state.peers.dom().contains(
            peer,
        ) ==> refusal(state, peer, found_at, existing_open) is None,
        found_at is Some && found_at->Some_0.public_key == peer
            && !state.manually_disconnected.contains(peer) && !existing_open ==> refusal(
            state,
            peer,
            found_at,
            existing_open,
        ) is None,
        found_at is Some && found_at->Some_0.public_key != peer ==> refusal(
            state,
            peer,
            found_at,
            existing_open,
        ) is Some,
        state.manually_disconnected.contains(peer) ==> refusal(
            state,
            peer,
            found_at,
            existing_open,
        ) is Some,
        state.peers.dom().contains(peer) && existing_open ==> refusal(
            state,
            peer,
            found_at,
            existing_open,
        ) is Some,
        !state.manually_disconnected.contains(peer) && !(state.peers.dom().contains(peer)
            && existing_open) && refusal(state, peer, found_at, existing_open) is Some ==> found_at
            is Some && found_at->Some_0.public_key != peer,
{
}

/// A peer is heard once it is connected. It has to announce itself first: until it has, and
/// whenever it speaks of itself, only its own signed announcement counts. After that, it can pass
/// on what others have signed, and nothing else.
pub proof fn law_peers_announce_themselves_first(
    state: StateView,
    sender: PeerId,
    announcement: AnnouncePeer,
)
    ensures
        announcement_kind(state, sender, announcement) is NotConnected
            <==> !state.peers.dom().contains(sender),
        announcement_kind(state, sender, announcement) is Own <==> state.peers.dom().contains(sender)
            && announcement.announce_address.public_key == sender && announcement.is_authentic(),
        announcement_kind(state, sender, announcement) is Gossip
            <==> state.peers.dom().contains(sender) && state.peers[sender].announcement is Some
            && announcement.announce_address.public_key != sender && announcement.is_authentic(),
        announcement_kind(state, sender, announcement) is BadGossip
            <==> state.peers.dom().contains(sender) && state.peers[sender].announcement is Some
            && announcement.announce_address.public_key != sender && !announcement.is_authentic(),
{
}

/// Who was found somewhere is looked for there again when the connection is lost, unless it was
/// lost on purpose. Who has come to us is not looked for.
pub proof fn law_lost_peers_are_looked_for(state: StateView, peer: PeerId, connection: u64)
    requires
        !state.shutting_down,
        !state.manually_disconnected.contains(peer),
        state.peers.dom().contains(peer),
        state.peers[peer].connection == connection,
    ensures
        reconnects_to(state, peer, connection) == state.peers[peer].found_at,
{
}

/// A peer is told of all others, and not of itself: what is passed on is what each of them has
/// announced, and where each of them is connected.
pub proof fn law_peers_are_told_of_the_others(
    peers: Map<PeerId, Peer>,
    peer: PeerId,
    other: PeerId,
)
    requires
        peers.dom().contains(other),
    ensures
        other == peer ==> !announcements_of_others(peers, peer).dom().contains(other)
            && !connections_of_others(peers, peer).dom().contains(other),
        other != peer ==> connections_of_others(peers, peer).dom().contains(other)
            && connections_of_others(peers, peer)[other] == peers[other].connection,
        other != peer && peers[other].announcement is Some ==> announcements_of_others(
            peers,
            peer,
        ).dom().contains(other) && announcements_of_others(peers, peer)[other]
            == peers[other].announcement->Some_0,
        peers[other].announcement is None ==> !announcements_of_others(peers, peer).dom().contains(
            other,
        ),
{
}

} // verus!
