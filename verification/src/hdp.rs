//! Messages to and from the UI
use crate::announce_address;
use crate::announce_address::{AnnounceAddress, AnnounceAddressDecodeError};
use crate::connections::discovery::traversal::DiscoveryMethod;
use crate::downloads::{details_request, random_request_id};
use crate::errors::UiServerErrorWrapper;
use crate::index_cache;
use crate::index_cache::{IndexCache, QueryView, copy_entries};
use crate::paths;
use crate::paths::RelativePath;
use crate::peer_id::PeerId;
use crate::shared_state;
use crate::shared_state::{PeerConnect, RequestError, SharedState};
use crate::shares::{EntryParseError, ScanDirError};
use crate::table::Table;
use crate::time::Duration;
use crate::ui_messages;
use crate::ui_messages::{
    Command, DownloadStatus, PeerInfo, UiClientMessage, UiDownloadRequest, UiRequestedFile, UiResponse,
    UiServerError, UiServerMessage,
};
use crate::wire_messages::{Entry, IndexQuery, LsResponse, Request};
use vstd::prelude::*;

verus! {

/// The number of records which will be cached when doing index (`Ls`) queries to a remote peer
/// This saves making subsequent requests with a duplicate query
pub const CACHE_SIZE: usize = 256;

/// Error on handling a UI command
#[derive(Debug, Clone, Copy, PartialEq, Eq, Structural)]
pub enum HandleUiCommandError {
    ConnectionClosed,
    ChannelClosed,
    DbError,
}

impl HandleUiCommandError {
    /// What the error prints.
    pub open spec fn message(self) -> Seq<char> {
        match self {
            HandleUiCommandError::ConnectionClosed => "User closed connection"@,
            HandleUiCommandError::ChannelClosed => "Channel closed - could not send response"@,
            HandleUiCommandError::DbError => "Db error"@,
        }
    }

    /// The error as text.
    pub fn to_string(&self) -> (r: String)
        ensures
            r@ == self.message(),
    {
        match self {
            HandleUiCommandError::ConnectionClosed => "User closed connection".to_owned(),
            HandleUiCommandError::ChannelClosed => "Channel closed - could not send response".to_owned(),
            HandleUiCommandError::DbError => "Db error".to_owned(),
        }
    }
}

/// What is cached of the files of peers.
pub type Caches = Table<PeerId, IndexCache>;

/// Handles commands from the UI.
pub struct Hdp {
    /// Shared state between UI server and backend
    pub shared_state: SharedState,
    /// Cache for remote peer's file index
    pub ls_cache: Caches,
}

/// What has to be done about a command.
#[derive(Debug)]
pub enum CommandStep {
    /// Wait until there is nothing more to do.
    Close,
    /// Send the messages to the user interface and the query to the peers. So many answers are
    /// still to come.
    Ls {
        query: IndexQuery,
        messages: Vec<UiServerMessage>,
        requests: Vec<PeerId>,
        remaining: usize,
    },
    /// Query our own share index.
    Shares(IndexQuery),
    /// Ask a peer for the details of what is to be downloaded.
    Download {
        peer: PeerId,
        connection: u64,
        requested_path: RelativePath,
        request: Request,
        /// What the new request is known by.
        request_id: u32,
    },
    /// Ask a peer for a portion of a file.
    Read { peer: PeerId, connection: u64, request: Request },
    /// Add a directory to share.
    AddShare(String),
    /// Stop sharing a directory.
    RemoveShare(String),
    /// List the requests that were made.
    Requests,
    /// List the files of a request.
    RequestedFiles(u32),
    /// Get into contact with a peer.
    Connect(PeerConnect),
    /// Look for peers with a topic.
    Join(String),
    /// Stop looking for peers with a topic.
    Leave(String),
    /// Send a message to the user interface.
    Respond(UiServerMessage),
}

/// Whether a message ends the response to a command.
pub open spec fn is_end(message: UiServerMessage, id: u32) -> bool {
    message matches UiServerMessage::Response { id: about, response: Ok(UiResponse::EndResponse) }
        && about == id
}

/// Whether a message hands on what a peer listed.
pub open spec fn is_listing(
    message: UiServerMessage,
    id: u32,
    peer: PeerId,
    entries: Seq<Entry>,
) -> bool {
    &&& message matches UiServerMessage::Response {
        id: about,
        response: Ok(UiResponse::Ls(LsResponse::Success(listed), info)),
    }
    &&& about == id
    &&& listed@ == entries
    &&& info.id == peer
    &&& info.name@ == ui_messages::peer_label(peer@)
}

/// Whether a message says that the request to a peer has failed.
pub open spec fn is_request_error(message: UiServerMessage, id: u32, error: Seq<char>) -> bool {
    message matches UiServerMessage::Response {
        id: about,
        response: Err(UiServerError::RequestError(text)),
    } && about == id && text@ == error
}

/// The end of a response.
pub fn end_response(id: u32) -> (r: UiServerMessage)
    ensures
        is_end(r, id),
{
    UiServerMessage::Response { id, response: Ok(UiResponse::EndResponse) }
}

/// A response that says what went wrong.
pub fn error_response(id: u32, error: UiServerError) -> (r: UiServerMessage)
    ensures
        r == (UiServerMessage::Response { id, response: Err(error) }),
{
    UiServerMessage::Response { id, response: Err(error) }
}

/// What we have cached of an answer of a peer.
pub open spec fn cached_answer(
    caches: Map<PeerId, IndexCache>,
    peer: PeerId,
    query: QueryView,
) -> Option<Seq<Seq<Entry>>> {
    if caches.dom().contains(peer) {
        match index_cache::lookup(caches[peer]@, query) {
            Some(answer) => Some(index_cache::entry_lists(answer@)),
            None => None,
        }
    } else {
        None
    }
}

/// The cached answers of some peers, one list of entries after the other.
pub open spec fn cached_lists(
    caches: Map<PeerId, IndexCache>,
    peers: Seq<PeerId>,
    query: QueryView,
) -> Seq<(PeerId, Seq<Entry>)>
    decreases peers.len(),
{
    if peers.len() == 0 {
        Seq::empty()
    } else {
        let before = cached_lists(caches, peers.drop_last(), query);
        let peer = peers.last();
        match cached_answer(caches, peer, query) {
            Some(answer) => before + answer.map_values(|entries: Seq<Entry>| (peer, entries)),
            None => before,
        }
    }
}

/// The peers whose answer is not cached.
pub open spec fn uncached(
    caches: Map<PeerId, IndexCache>,
    peers: Seq<PeerId>,
    query: QueryView,
) -> Seq<PeerId>
    decreases peers.len(),
{
    if peers.len() == 0 {
        Seq::empty()
    } else {
        let before = uncached(caches, peers.drop_last(), query);
        let peer = peers.last();
        match cached_answer(caches, peer, query) {
            Some(_) => before,
            None => before.push(peer),
        }
    }
}

/// Whether all caches are in order.
pub open spec fn caches_wf(caches: Map<PeerId, IndexCache>) -> bool {
    forall|peer: PeerId| #[trigger] caches.dom().contains(peer) ==> caches[peer].wf()
}

/// Whether these are the caches once a query was looked up for some peers.
pub open spec fn looked_up(
    before: Map<PeerId, IndexCache>,
    after: Map<PeerId, IndexCache>,
    peers: Seq<PeerId>,
    query: QueryView,
) -> bool {
    &&& after.dom() == before.dom()
    &&& forall|peer: PeerId| #[trigger]
        before.dom().contains(peer) ==> after[peer].limit() == before[peer].limit()
            && after[peer]@ == if peers.contains(peer) {
            index_cache::used(before[peer]@, query)
        } else {
            before[peer]@
        }
}

/// Whether messages hand on lists of entries, in order.
pub open spec fn are_listings(
    messages: Seq<UiServerMessage>,
    id: u32,
    lists: Seq<(PeerId, Seq<Entry>)>,
) -> bool {
    &&& messages.len() == lists.len()
    &&& forall|i: int|
        0 <= i < messages.len() ==> #[trigger] is_listing(messages[i], id, lists[i].0, lists[i].1)
}

fn push_listings(
    messages: &mut Vec<UiServerMessage>,
    id: u32,
    peer: PeerId,
    answer: Vec<Vec<Entry>>,
    Ghost(lists): Ghost<Seq<(PeerId, Seq<Entry>)>>,
)
    requires
        are_listings(old(messages)@, id, lists),
    ensures
        are_listings(
            final(messages)@,
            id,
            lists + index_cache::entry_lists(answer@).map_values(|entries: Seq<Entry>| (peer, entries)),
        ),
{
    let ghost more = index_cache::entry_lists(answer@).map_values(|entries: Seq<Entry>| (peer, entries));
    let mut i: usize = 0;
    assert(lists + more.take(0) =~= lists);
    while i < answer.len()
        invariant
            i <= answer@.len(),
            more == index_cache::entry_lists(answer@).map_values(|entries: Seq<Entry>| (peer, entries)),
            are_listings(messages@, id, lists + more.take(i as int)),
        decreases answer@.len() - i,
    {
        let entries = copy_entries(&answer[i]);
        let ghost before = messages@;
        messages.push(
            UiServerMessage::Response {
                id,
                response: Ok(
                    UiResponse::Ls(LsResponse::Success(entries), PeerInfo::from_id(peer)),
                ),
            },
        );
        proof {
            let all = lists + more.take(i + 1);
            let earlier = lists + more.take(i as int);
            assert(more[i as int] == (peer, answer@[i as int]@));
            assert forall|k: int| 0 <= k < messages@.len() implies #[trigger] is_listing(
                messages@[k],
                id,
                all[k].0,
                all[k].1,
            ) by {
                if k < before.len() {
                    assert(is_listing(before[k], id, earlier[k].0, earlier[k].1));
                    assert(all[k] == earlier[k]);
                }
            }
        }
        i += 1;
    }
    assert(more.take(i as int) =~= more);
}

impl Hdp {
    /// All caches are in order.
    pub open spec fn wf(self) -> bool {
        caches_wf(self.ls_cache@)
    }

    pub fn new(shared_state: SharedState) -> (r: Hdp)
        ensures
            r.shared_state == shared_state,
            r.ls_cache@ == Map::<PeerId, IndexCache>::empty(),
            r.wf(),
    {
        Hdp { shared_state, ls_cache: Table::new() }
    }

    /// The peers that we are connected to.
    pub fn connected_peers(&self) -> (r: Vec<PeerId>)
        ensures
            r@.no_duplicates(),
            forall|peer: PeerId|
                r@.contains(peer) <==> self.shared_state.peers@.dom().contains(peer),
    {
        let mut r: Vec<PeerId> = Vec::new();
        let n: usize = self.shared_state.peers.len();
        let ghost listed = self.shared_state.peers.listed();
        let mut i: usize = 0;
        while i < n
            invariant
                i <= n,
                n == listed.len(),
                listed == self.shared_state.peers.listed(),
                r@.len() == i,
                forall|k: int| 0 <= k < i ==> r@[k] == (#[trigger] listed[k]).0,
            decreases n - i,
        {
            let (peer, _) = self.shared_state.peers.entry(i);
            r.push(*peer);
            i += 1;
        }
        proof {
            assert forall|a: int, b: int| 0 <= a < b < r@.len() implies r@[a] != r@[b] by {
                assert(listed[a].0 != listed[b].0);
            }
            assert forall|peer: PeerId| r@.contains(peer) implies self.shared_state.peers@.dom().contains(
                peer,
            ) by {
                let k = choose|k: int| 0 <= k < r@.len() && r@[k] == peer;
                assert(listed[k].0 == peer);
            }
            assert forall|peer: PeerId|
                self.shared_state.peers@.dom().contains(peer) implies r@.contains(peer) by {
                let k = crate::table::key_index(listed, peer);
                assert(listed[k].0 == peer);
                assert(r@[k] == peer);
            }
        }
        r
    }

    /// Looks up a query for some peers.
    fn look_up(&mut self, id: u32, query: &IndexQuery, peers: &Vec<PeerId>) -> (r: (
        Vec<UiServerMessage>,
        Vec<PeerId>,
    ))
        requires
            old(self).wf(),
            peers@.no_duplicates(),
        ensures
            final(self).wf(),
            final(self).shared_state == old(self).shared_state,
            looked_up(old(self).ls_cache@, final(self).ls_cache@, peers@, index_cache::query_view(*query)),
            are_listings(
                r.0@,
                id,
                cached_lists(old(self).ls_cache@, peers@, index_cache::query_view(*query)),
            ),
            r.1@ == uncached(old(self).ls_cache@, peers@, index_cache::query_view(*query)),
    {
        let mut messages: Vec<UiServerMessage> = Vec::new();
        let mut requests: Vec<PeerId> = Vec::new();
        let ghost asked = index_cache::query_view(*query);
        let ghost caches = self.ls_cache@;
        let mut i: usize = 0;
        assert(peers@.take(0) =~= Seq::<PeerId>::empty());
        while i < peers.len()
            invariant
                i <= peers@.len(),
                self.wf(),
                caches_wf(caches),
                caches == old(self).ls_cache@,
                asked == index_cache::query_view(*query),
                peers@.no_duplicates(),
                self.shared_state == old(self).shared_state,
                looked_up(caches, self.ls_cache@, peers@.take(i as int), asked),
                are_listings(messages@, id, cached_lists(caches, peers@.take(i as int), asked)),
                requests@ == uncached(caches, peers@.take(i as int), asked),
            decreases peers@.len() - i,
        {
            let peer = peers[i];
            let ghost before = self.ls_cache@;
            let ghost done = peers@.take(i as int);
            let ghost next = peers@.take(i + 1);
            proof {
                assert(next.drop_last() =~= done);
                assert(next.last() == peer);
                assert forall|other: PeerId| next.contains(other) == (done.contains(other)
                    || other == peer) by {
                    if done.contains(other) {
                        let k = choose|k: int| 0 <= k < done.len() && done[k] == other;
                        assert(next[k] == other);
                    }
                    if other == peer {
                        assert(next[i as int] == other);
                    }
                    if next.contains(other) && other != peer {
                        let k = choose|k: int| 0 <= k < next.len() && next[k] == other;
                        assert(done[k] == other);
                    }
                }
                assert(!done.contains(peer)) by {
                    if done.contains(peer) {
                        let k = choose|k: int| 0 <= k < done.len() && done[k] == peer;
                        assert(peers@[k] == peers@[i as int]);
                    }
                }
            }
            // First check the local cache for an existing response
            match self.ls_cache.remove(&peer) {
                Some(cache) => {
                    let mut cache = cache;
                    let answer = cache.get(query);
                    self.ls_cache.insert(peer, cache);
                    assert(self.ls_cache@.dom() =~= caches.dom());
                    match answer {
                        Some(answer) => {
                            push_listings(
                                &mut messages,
                                id,
                                peer,
                                answer,
                                Ghost(cached_lists(caches, done, asked)),
                            );
                        },
                        None => {
                            requests.push(peer);
                        },
                    }
                },
                None => {
                    assert(self.ls_cache@ =~= before);
                    requests.push(peer);
                },
            }
            i += 1;
        }
        assert(peers@.take(i as int) =~= peers@);
        (messages, requests)
    }

    /// Query peers' files. If no peer is given, the query goes to all connected peers.
    pub fn ls(&mut self, id: u32, query: IndexQuery, peer: Option<PeerId>) -> (r: CommandStep)
        requires
            old(self).wf(),
        ensures
            final(self).wf(),
            final(self).shared_state == old(self).shared_state,
            is_ls_step(*old(self), final(self).ls_cache@, r, id, query, peer),
    {
        let peers = match peer {
            Some(peer) => {
                let mut peers: Vec<PeerId> = Vec::new();
                peers.push(peer);
                peers
            },
            None => self.connected_peers(),
        };
        let (messages, requests) = self.look_up(id, &query, &peers);
        let mut messages = messages;
        let mut requests = requests;
        let remaining: usize = requests.len();
        let ghost caches = old(self).ls_cache@;
        let ghost asked = index_cache::query_view(query);
        let ghost listed = messages@;
        match peer {
            Some(named) => {
                assert(peers@ =~= seq![named]);
                assert(peers@.drop_last() =~= Seq::<PeerId>::empty());
                assert(uncached(caches, peers@.drop_last(), asked) =~= Seq::<PeerId>::empty());
                assert(cached_lists(caches, peers@.drop_last(), asked) =~= Seq::<
                    (PeerId, Seq<Entry>),
                >::empty());
                if requests.len() > 0 {
                    match self.shared_state.request(&named) {
                        Ok(_) => {},
                        Err(error) => {
                            messages.push(
                                error_response(id, UiServerErrorWrapper::from_request(&error).0),
                            );
                            requests = Vec::new();
                        },
                    }
                }
            },
            None => {},
        }
        // If there is no request to make, end the response
        if remaining == 0 {
            messages.push(end_response(id));
        }
        proof {
            assert(messages@.take(listed.len() as int) =~= listed);
        }
        CommandStep::Ls { query, messages, requests, remaining }
    }
}

/// Whether this is the step that a query of peers' files comes to.
pub open spec fn is_ls_step(
    before: Hdp,
    caches_after: Map<PeerId, IndexCache>,
    step: CommandStep,
    id: u32,
    query: IndexQuery,
    peer: Option<PeerId>,
) -> bool {
    let caches = before.ls_cache@;
    let connected = before.shared_state.peers@.dom();
    let asked = index_cache::query_view(query);
    exists|peers: Seq<PeerId>|
        #![trigger cached_lists(caches, peers, asked)]
        {
            let lists = cached_lists(caches, peers, asked);
            let to_ask = uncached(caches, peers, asked);
            // One peer, or all that are connected, each once
            &&& match peer {
                Some(named) => peers == seq![named],
                None => {
                    &&& peers.no_duplicates()
                    &&& forall|one: PeerId| peers.contains(one) <==> connected.contains(one)
                },
            }
            &&& looked_up(caches, caches_after, peers, asked)
            &&& step matches CommandStep::Ls { query: sent, messages, requests, remaining }
            &&& sent == query
            &&& remaining == to_ask.len()
            &&& messages@.len() >= lists.len()
            &&& are_listings(messages@.take(lists.len() as int), id, lists)
            &&& if to_ask.len() == 0 {
                // Everything was cached
                &&& requests@.len() == 0
                &&& messages@.len() == lists.len() + 1
                &&& is_end(messages@.last(), id)
            } else if peer matches Some(named) && !connected.contains(named) {
                &&& requests@.len() == 0
                &&& messages@.len() == lists.len() + 1
                &&& is_request_error(messages@.last(), id, "Peer not found"@)
            } else {
                &&& requests@ == to_ask
                &&& messages@.len() == lists.len()
            }
        }
}

/// The answer of a peer to a query of its files, while it comes in.
pub struct LsAnswer {
    /// The command that it answers.
    pub id: u32,
    pub peer: PeerId,
    pub query: IndexQuery,
    /// What has come in so far.
    pub lists: Vec<Vec<Entry>>,
}

impl LsAnswer {
    pub fn new(id: u32, peer: PeerId, query: IndexQuery) -> (r: LsAnswer)
        ensures
            r.id == id,
            r.peer == peer,
            r.query == query,
            r.lists@.len() == 0,
    {
        LsAnswer { id, peer, query, lists: Vec::new() }
    }

    /// Takes a part of the answer and hands it on to the user interface. If it is not an error, it
    /// will be added to the local cache.
    pub fn receive(&mut self, response: LsResponse) -> (r: UiServerMessage)
        ensures
            final(self).id == old(self).id,
            final(self).peer == old(self).peer,
            final(self).query == old(self).query,
            match response {
                LsResponse::Success(entries) => {
                    &&& final(self).lists@.len() == old(self).lists@.len() + 1
                    &&& final(self).lists@.drop_last() == old(self).lists@
                    &&& final(self).lists@.last()@ == entries@
                },
                LsResponse::Error(_) => final(self).lists@ == old(self).lists@,
            },
            r matches UiServerMessage::Response { id, response: Ok(UiResponse::Ls(sent, info)) }
                && id == old(self).id && sent == response && info.id == old(self).peer
                && info.name@ == ui_messages::peer_label(old(self).peer@),
    {
        match &response {
            LsResponse::Success(entries) => {
                self.lists.push(copy_entries(entries));
                assert(self.lists@.drop_last() =~= old(self).lists@);
            },
            LsResponse::Error(_) => {},
        }
        UiServerMessage::Response {
            id: self.id,
            response: Ok(UiResponse::Ls(response, PeerInfo::from_id(self.peer))),
        }
    }
}

/// Whether the answer that comes in is the last one, if so many were still to come.
pub open spec fn is_last(remaining: nat) -> bool {
    remaining == 1
}

/// How many times a query is ended, if so many peers are asked and so many of them have answered:
/// at the start, if there is none to ask, and with each answer that is the last one.
pub open spec fn ends_sent(requests: nat, finished: nat) -> nat
    decreases finished,
{
    if finished == 0 {
        if requests == 0 {
            1
        } else {
            0
        }
    } else {
        ends_sent(requests, (finished - 1) as nat) + if is_last((requests - (finished - 1)) as nat) {
            1nat
        } else {
            0nat
        }
    }
}

/// A query of peers' files is ended once: when the last of the peers has answered, and at once
/// where there is none to ask.
pub proof fn law_response_ends_once(requests: nat, finished: nat)
    requires
        finished <= requests,
    ensures
        ends_sent(requests, finished) == if finished == requests {
            1nat
        } else {
            0nat
        },
    decreases finished,
{
    if finished > 0 {
        law_response_ends_once(requests, (finished - 1) as nat);
    }
}

impl Hdp {
    /// The answer of a peer is complete: caches it, and ends the response if it was the last one.
    /// `remaining` is the number of answers that were still to come.
    pub fn finish_ls(&mut self, answer: LsAnswer, remaining: usize) -> (r: (
        usize,
        Option<UiServerMessage>,
    ))
        requires
            old(self).wf(),
            remaining > 0,
        ensures
            final(self).wf(),
            final(self).shared_state == old(self).shared_state,
            r.0 == remaining - 1,
            match r.1 {
                Some(message) => is_last(remaining as nat) && is_end(message, answer.id),
                None => !is_last(remaining as nat),
            },
            if answer.lists@.len() == 0 {
                final(self).ls_cache@ == old(self).ls_cache@
            } else {
                let caches = old(self).ls_cache@;
                let after = final(self).ls_cache@;
                let asked = index_cache::query_view(answer.query);
                &&& after == caches.insert(answer.peer, after[answer.peer])
                &&& if caches.dom().contains(answer.peer) {
                    let cache = caches[answer.peer];
                    &&& after[answer.peer].limit() == cache.limit()
                    &&& after[answer.peer]@ == index_cache::with_entry(
                        cache@,
                        asked,
                        answer.lists,
                        cache.limit(),
                    )
                } else {
                    &&& after[answer.peer].limit() == CACHE_SIZE
                    &&& after[answer.peer]@ == seq![(asked, answer.lists)]
                }
            },
    {
        let left: usize = remaining - 1;
        if answer.lists.len() > 0 {
            let mut cache = match self.ls_cache.remove(&answer.peer) {
                Some(cache) => cache,
                None => IndexCache::new(CACHE_SIZE),
            };
            let ghost before = cache@;
            cache.put(&answer.query, answer.lists);
            proof {
                if before.len() == 0 {
                    let asked = index_cache::query_view(answer.query);
                    assert(before =~= Seq::empty());
                    reveal(Seq::filter);
                    assert(index_cache::others(before, asked) =~= Seq::empty());
                    assert(cache@ =~= seq![(asked, answer.lists)]);
                }
            }
            self.ls_cache.insert(answer.peer, cache);
            assert(self.ls_cache@ =~= old(self).ls_cache@.insert(
                answer.peer,
                self.ls_cache@[answer.peer],
            ));
        }
        if left == 0 {
            (left, Some(end_response(answer.id)))
        } else {
            (left, None)
        }
    }

    /// Handle a command from the UI
    pub fn handle_command(&mut self, message: UiClientMessage) -> (r: CommandStep)
        requires
            old(self).wf(),
        ensures
            final(self).wf(),
            final(self).shared_state == old(self).shared_state,
            !(message.command is Ls) ==> final(self).ls_cache == old(self).ls_cache,
            match message.command {
                Command::Ls(query, peer) => is_ls_step(
                    *old(self),
                    final(self).ls_cache@,
                    r,
                    message.id,
                    query,
                    peer,
                ),
                command => is_step(old(self).shared_state, message.id, command, r),
            },
    {
        let id = message.id;
        match message.command {
            Command::Close => CommandStep::Close,
            Command::Ls(query, peer) => self.ls(id, query, peer),
            Command::Shares(query) => CommandStep::Shares(query),
            Command::Download(peer_path) => {
                match details_request(peer_path.path.as_str()) {
                    Ok((requested_path, request)) => {
                        match self.shared_state.request(&peer_path.peer.id) {
                            Ok(connection) => CommandStep::Download {
                                peer: peer_path.peer.id,
                                connection,
                                requested_path,
                                request,
                                request_id: random_request_id(),
                            },
                            Err(error) => CommandStep::Respond(
                                error_response(id, UiServerErrorWrapper::from_request(&error).0),
                            ),
                        }
                    },
                    Err(error) => CommandStep::Respond(error_response(id, error.0)),
                }
            },
            Command::Read(read_query, peer) => {
                match self.shared_state.request(&peer) {
                    Ok(connection) => CommandStep::Read {
                        peer,
                        connection,
                        request: Request::Read(read_query),
                    },
                    Err(error) => CommandStep::Respond(error_response(id, UiServerErrorWrapper::from_request(&error).0)),
                }
            },
            Command::AddShare(share_dir) => CommandStep::AddShare(share_dir),
            Command::RemoveShare(share_name) => CommandStep::RemoveShare(share_name),
            Command::RequestedFiles(request_id) => CommandStep::RequestedFiles(request_id),
            Command::Requests => CommandStep::Requests,
            Command::Connect(code) => {
                match AnnounceAddress::from_string(code) {
                    Ok(announce_address) => {
                        match self.shared_state.connect_to_peer(announce_address) {
                            // The response is ended when a connection is established
                            Ok(connect) => CommandStep::Connect(connect),
                            Err(error) => CommandStep::Respond(error_response(id, error.0)),
                        }
                    },
                    Err(error) => CommandStep::Respond(
                        error_response(id, UiServerError::ConnectionError(error.to_string())),
                    ),
                }
            },
            Command::Join(topic) => CommandStep::Join(topic),
            Command::Leave(topic) => CommandStep::Leave(topic),
        }
    }
}

/// Whether this is the step that a command comes to, other than a query of peers' files.
pub open spec fn is_step(
    state: SharedState,
    id: u32,
    command: Command,
    step: CommandStep,
) -> bool {
    let peers = state.peers@;
    match command {
        Command::Ls(_, _) => false,
        Command::Close => step is Close,
        Command::Shares(query) => step == CommandStep::Shares(query),
        Command::Download(peer_path) => {
            let path = peer_path.path@;
            let peer = peer_path.peer.id;
            if !paths::is_safe(path) {
                step matches CommandStep::Respond(message) && is_request_error(
                    message,
                    id,
                    "Invalid download path requested: "@ + (
                    "Remote path contains an unsafe component: "@ + path),
                )
            } else if !peers.dom().contains(peer) {
                step matches CommandStep::Respond(message) && is_request_error(
                    message,
                    id,
                    "Peer not found"@,
                )
            } else {
                &&& step matches CommandStep::Download {
                    peer: asked,
                    connection,
                    requested_path,
                    request,
                    ..
                }
                &&& asked == peer
                &&& connection == peers[peer].connection
                &&& requested_path@ == paths::components(path)
                &&& request matches Request::Ls(query)
                &&& query.path matches Some(asked_path)
                &&& asked_path@ == path
                &&& query.searchterm is None
                &&& query.recursive
            }
        },
        Command::Read(query, peer) => {
            if !peers.dom().contains(peer) {
                step matches CommandStep::Respond(message) && is_request_error(
                    message,
                    id,
                    "Peer not found"@,
                )
            } else {
                step == (CommandStep::Read {
                    peer,
                    connection: peers[peer].connection,
                    request: Request::Read(query),
                })
            }
        },
        Command::AddShare(dir) => step == CommandStep::AddShare(dir),
        Command::RemoveShare(name) => step == CommandStep::RemoveShare(name),
        Command::RequestedFiles(request_id) => step == CommandStep::RequestedFiles(request_id),
        Command::Requests => step is Requests,
        Command::Connect(code) => {
            if exists|address: AnnounceAddress| #[trigger]
                announce_address::announce_code(address) == code@ {
                if state.shutting_down {
                    step matches CommandStep::Respond(
                        UiServerMessage::Response { id: about, response: Err(error) },
                    ) && about == id && shared_state::connection_error(
                        UiServerErrorWrapper(error),
                        "Shutting down; not connecting to peer"@,
                    )
                } else {
                    step matches CommandStep::Connect(connect) && connect.discovery_method
                        == DiscoveryMethod::Direct && announce_address::announce_code(
                        connect.announce_address,
                    ) == code@
                }
            } else {
                step matches CommandStep::Respond(
                    UiServerMessage::Response { id: about, response: Err(error) },
                ) && about == id && exists|reason: AnnounceAddressDecodeError| #[trigger]
                    announce_address::is_decode_error(code@, reason)
                        && shared_state::connection_error(
                        UiServerErrorWrapper(error),
                        reason.message(),
                    )
            }
        },
        Command::Join(topic) => step == CommandStep::Join(topic),
        Command::Leave(topic) => step == CommandStep::Leave(topic),
    }
}

/// Whether the user interface has to get what is sent for a step. Commands fail for good where it
/// does not.
pub open spec fn must_be_delivered(step: CommandStep) -> bool {
    match step {
        CommandStep::Shares(_) => true,
        CommandStep::Requests => true,
        CommandStep::RequestedFiles(_) => true,
        CommandStep::Respond(_) => true,
        CommandStep::Ls { query, messages, requests, remaining } => remaining != requests@.len(),
        _ => false,
    }
}

/// How a command ends, given whether the messages that belong to it could be sent. This should only
/// return fatal errors - errors relating to handling the command are sent to the UI.
pub fn command_outcome(step: &CommandStep, delivered: bool) -> (r: Result<
    (),
    HandleUiCommandError,
>)
    ensures
        match r {
            Ok(()) => delivered || !must_be_delivered(*step),
            Err(error) => !delivered && must_be_delivered(*step) && error
                == HandleUiCommandError::ChannelClosed,
        },
{
    let fatal = match step {
        CommandStep::Shares(_) => true,
        CommandStep::Requests => true,
        CommandStep::RequestedFiles(_) => true,
        CommandStep::Respond(_) => true,
        CommandStep::Ls { query: _, messages: _, requests, remaining } => *remaining
            != requests.len(),
        _ => false,
    };
    if fatal && !delivered {
        Err(HandleUiCommandError::ChannelClosed)
    } else {
        Ok(())
    }
}

/// Whether a message carries a response.
pub open spec fn carries(message: UiServerMessage, id: u32, response: UiResponse) -> bool {
    message matches UiServerMessage::Response { id: about, response: Ok(sent) } && about == id
        && sent == response
}

/// Sends some responses and ends with that.
fn all_responses(id: u32, responses: Vec<UiResponse>) -> (r: Vec<UiServerMessage>)
    ensures
        r@.len() == responses@.len() + 1,
        forall|i: int|
            0 <= i < responses@.len() ==> #[trigger] carries(r@[i], id, responses@[i]),
        is_end(r@.last(), id),
{
    let mut r: Vec<UiServerMessage> = Vec::new();
    let ghost all = responses@;
    for response in iter: responses
        invariant
            iter.seq() == all,
            r@.len() == iter.index(),
            forall|i: int| 0 <= i < r@.len() ==> #[trigger] carries(r@[i], id, all[i]),
    {
        let ghost before = r@;
        r.push(UiServerMessage::Response { id, response: Ok(response) });
        assert forall|i: int| 0 <= i < r@.len() implies #[trigger] carries(r@[i], id, all[i]) by {
            if i < before.len() {
                assert(carries(before[i], id, all[i]));
            }
        }
    }
    let ghost before = r@;
    r.push(end_response(id));
    assert forall|i: int| 0 <= i < all.len() implies #[trigger] carries(r@[i], id, all[i]) by {
        assert(carries(before[i], id, all[i]));
    }
    r
}

/// The response to a query of our own shares.
pub fn shares_responses(id: u32, found: Result<Vec<LsResponse>, EntryParseError>) -> (r: Vec<
    UiServerMessage,
>)
    ensures
        match found {
            Ok(responses) => {
                &&& r@.len() == responses@.len() + 1
                &&& forall|i: int|
                    0 <= i < responses@.len() ==> #[trigger] carries(
                        r@[i],
                        id,
                        UiResponse::Shares(responses@[i]),
                    )
                &&& is_end(r@.last(), id)
            },
            Err(error) => r@.len() == 1 && is_request_error(r@[0], id, error.message()),
        },
{
    match found {
        Ok(found) => {
            let mut responses: Vec<UiResponse> = Vec::new();
            let ghost all = found@;
            for response in iter: found
                invariant
                    iter.seq() == all,
                    responses@.len() == iter.index(),
                    forall|i: int|
                        0 <= i < responses@.len() ==> #[trigger] responses@[i]
                            == UiResponse::Shares(all[i]),
            {
                responses.push(UiResponse::Shares(response));
            }
            let r = all_responses(id, responses);
            assert forall|i: int| 0 <= i < all.len() implies #[trigger] carries(
                r@[i],
                id,
                UiResponse::Shares(all[i]),
            ) by {
                assert(carries(r@[i], id, responses@[i]));
            }
            r
        },
        Err(error) => {
            let mut r: Vec<UiServerMessage> = Vec::new();
            r.push(error_response(id, UiServerError::RequestError(error.to_string())));
            r
        },
    }
}

/// The response to a listing of the requests that were made. Where they cannot be
/// looked up, for the reason given, it is an error.
pub fn requests_responses(id: u32, found: Result<Vec<Vec<UiDownloadRequest>>, String>) -> (r: Vec<
    UiServerMessage,
>)
    ensures
        match found {
            Ok(lists) => {
                &&& r@.len() == lists@.len() + 1
                &&& forall|i: int|
                    0 <= i < lists@.len() ==> #[trigger] carries(
                        r@[i],
                        id,
                        UiResponse::Requests(lists@[i]),
                    )
                &&& is_end(r@.last(), id)
            },
            Err(reason) => r@.len() == 1 && is_request_error(r@[0], id, reason@),
        },
{
    let lists = match found {
        Ok(lists) => lists,
        Err(reason) => {
            let mut r: Vec<UiServerMessage> = Vec::new();
            r.push(error_response(id, UiServerError::RequestError(reason)));
            return r;
        },
    };
    let mut responses: Vec<UiResponse> = Vec::new();
    let ghost all = lists@;
    for list in iter: lists
        invariant
            iter.seq() == all,
            responses@.len() == iter.index(),
            forall|i: int|
                0 <= i < responses@.len() ==> #[trigger] responses@[i] == UiResponse::Requests(
                    all[i],
                ),
    {
        responses.push(UiResponse::Requests(list));
    }
    let r = all_responses(id, responses);
    assert forall|i: int| 0 <= i < all.len() implies #[trigger] carries(
        r@[i],
        id,
        UiResponse::Requests(all[i]),
    ) by {
        assert(carries(r@[i], id, responses@[i]));
    }
    r
}

/// The response to a listing of the files of a request. Where they cannot be
/// looked up, for the reason given, it is an error.
pub fn requested_files_responses(id: u32, found: Result<Vec<Vec<UiRequestedFile>>, String>) -> (r: Vec<
    UiServerMessage,
>)
    ensures
        match found {
            Ok(lists) => {
                &&& r@.len() == lists@.len() + 1
                &&& forall|i: int|
                    0 <= i < lists@.len() ==> #[trigger] carries(
                        r@[i],
                        id,
                        UiResponse::RequestedFiles(lists@[i]),
                    )
                &&& is_end(r@.last(), id)
            },
            Err(reason) => r@.len() == 1 && is_request_error(r@[0], id, reason@),
        },
{
    let lists = match found {
        Ok(lists) => lists,
        Err(reason) => {
            let mut r: Vec<UiServerMessage> = Vec::new();
            r.push(error_response(id, UiServerError::RequestError(reason)));
            return r;
        },
    };
    let mut responses: Vec<UiResponse> = Vec::new();
    let ghost all = lists@;
    for list in iter: lists
        invariant
            iter.seq() == all,
            responses@.len() == iter.index(),
            forall|i: int|
                0 <= i < responses@.len() ==> #[trigger] responses@[i]
                    == UiResponse::RequestedFiles(all[i]),
    {
        responses.push(UiResponse::RequestedFiles(list));
    }
    let r = all_responses(id, responses);
    assert forall|i: int| 0 <= i < all.len() implies #[trigger] carries(
        r@[i],
        id,
        UiResponse::RequestedFiles(all[i]),
    ) by {
        assert(carries(r@[i], id, responses@[i]));
    }
    r
}

/// Whether the response is just this error.
pub open spec fn fails_to_share(messages: Seq<UiServerMessage>, id: u32, error: ScanDirError) -> bool {
    &&& messages.len() == 1
    &&& messages[0] matches UiServerMessage::Response {
        id: about,
        response: Err(UiServerError::ShareError(text)),
    }
    &&& about == id
    &&& text@ == error.message()
}

/// The response to adding a directory to share.
pub fn add_share_responses(id: u32, scanned: Result<u32, ScanDirError>) -> (r: Vec<UiServerMessage>)
    ensures
        match scanned {
            Ok(num_added) => {
                &&& r@.len() == 2
                &&& carries(r@[0], id, UiResponse::AddShare(num_added))
                &&& is_end(r@[1], id)
            },
            Err(error) => fails_to_share(r@, id, error),
        },
{
    let mut r: Vec<UiServerMessage> = Vec::new();
    match scanned {
        Ok(num_added) => {
            r.push(
                UiServerMessage::Response { id, response: Ok(UiResponse::AddShare(num_added)) },
            );
            r.push(end_response(id));
        },
        Err(error) => {
            r.push(error_response(id, UiServerError::ShareError(error.to_string())));
        },
    }
    r
}

/// The response to no longer sharing a directory.
pub fn remove_share_responses(id: u32, removed: Result<(), ScanDirError>) -> (r: Vec<
    UiServerMessage,
>)
    ensures
        match removed {
            Ok(()) => r@.len() == 1 && is_end(r@[0], id),
            Err(error) => fails_to_share(r@, id, error),
        },
{
    let mut r: Vec<UiServerMessage> = Vec::new();
    match removed {
        Ok(()) => {
            r.push(end_response(id));
        },
        Err(error) => {
            r.push(error_response(id, UiServerError::ShareError(error.to_string())));
        },
    }
    r
}

/// Hands on a block of a remote file, or the end of it.
pub fn read_response(id: u32, block: Option<Vec<u8>>) -> (r: UiServerMessage)
    ensures
        match block {
            Some(block) => carries(r, id, UiResponse::Read(block)),
            None => is_end(r, id),
        },
{
    match block {
        Some(block) => UiServerMessage::Response { id, response: Ok(UiResponse::Read(block)) },
        None => end_response(id),
    }
}

/// Inform the UI that a download was put on the wishlist.
pub fn download_response(id: u32, path: String, peer: PeerId, timestamp: Duration) -> (r:
    UiServerMessage)
    ensures
        r matches UiServerMessage::Response {
            id: about,
            response: Ok(
                UiResponse::Download(
                    DownloadStatus::Requested { path: asked, peer: info, timestamp: at },
                ),
            ),
        } && about == id && asked == path && info.id == peer && info.name@
            == ui_messages::peer_label(peer@) && at == timestamp,
{
    UiServerMessage::Response {
        id,
        response: Ok(
            UiResponse::Download(
                DownloadStatus::Requested { path, peer: PeerInfo::from_id(peer), timestamp },
            ),
        ),
    }
}

proof fn lemma_who_is_asked(caches: Map<PeerId, IndexCache>, peers: Seq<PeerId>, query: QueryView)
    ensures
        forall|peer: PeerId| #[trigger]
            uncached(caches, peers, query).contains(peer) <==> peers.contains(peer) && cached_answer(
                caches,
                peer,
                query,
            ) is None,
        peers.no_duplicates() ==> uncached(caches, peers, query).no_duplicates(),
    decreases peers.len(),
{
    let asked = uncached(caches, peers, query);
    if peers.len() > 0 {
        let before = peers.drop_last();
        let last = peers.last();
        lemma_who_is_asked(caches, before, query);
        let asked_before = uncached(caches, before, query);
        assert forall|peer: PeerId| peers.contains(peer) == (before.contains(peer) || peer == last) by {
            if peers.contains(peer) {
                let i = choose|i: int| 0 <= i < peers.len() && peers[i] == peer;
                assert(i < before.len() ==> before[i] == peer);
            }
            if before.contains(peer) {
                let i = choose|i: int| 0 <= i < before.len() && before[i] == peer;
                assert(peers[i] == peer);
            }
            assert(peers[peers.len() - 1] == last);
        }
        assert forall|peer: PeerId| #[trigger] asked.contains(peer) == (asked_before.contains(peer)
            || peer == last && cached_answer(caches, last, query) is None) by {
            if cached_answer(caches, last, query) is None {
                assert(asked == asked_before.push(last));
                if asked.contains(peer) {
                    let i = choose|i: int| 0 <= i < asked.len() && asked[i] == peer;
                    assert(i < asked_before.len() ==> asked_before[i] == peer);
                }
                if asked_before.contains(peer) {
                    let i = choose|i: int| 0 <= i < asked_before.len() && asked_before[i] == peer;
                    assert(asked[i] == peer);
                }
                assert(asked[asked.len() - 1] == last);
            }
        }
        if peers.no_duplicates() {
            assert(before.no_duplicates());
            assert(!before.contains(last));
            assert(!asked_before.contains(last));
            assert(asked.no_duplicates());
        }
    }
}

/// A query of the files of one peer is answered from the cache, if its answer is there: with all
/// that is cached, and the end. Otherwise the peer is asked, if it is connected.
pub proof fn law_cached_peer_is_not_asked(
    before: Hdp,
    caches_after: Map<PeerId, IndexCache>,
    step: CommandStep,
    id: u32,
    query: IndexQuery,
    peer: PeerId,
)
    requires
        is_ls_step(before, caches_after, step, id, query, Some(peer)),
    ensures
        ({
            let cached = cached_answer(before.ls_cache@, peer, index_cache::query_view(query));
            let connected = before.shared_state.peers@.dom().contains(peer);
            &&& step matches CommandStep::Ls { query: sent, messages, requests, remaining }
            &&& sent == query
            &&& cached is Some ==> {
                let lists = cached->Some_0;
                &&& requests@.len() == 0
                &&& remaining == 0
                &&& messages@.len() == lists.len() + 1
                &&& forall|i: int|
                    0 <= i < lists.len() ==> is_listing(#[trigger] messages@[i], id, peer, lists[i])
                &&& is_end(messages@.last(), id)
            }
            &&& cached is None && connected ==> {
                &&& requests@ == seq![peer]
                &&& remaining == 1
                &&& messages@.len() == 0
            }
            &&& cached is None && !connected ==> {
                &&& requests@.len() == 0
                &&& messages@.len() == 1
                &&& is_request_error(messages@[0], id, "Peer not found"@)
            }
        }),
{
    let caches = before.ls_cache@;
    let asked = index_cache::query_view(query);
    let peers = seq![peer];
    assert(peers.drop_last() =~= Seq::<PeerId>::empty());
    assert(uncached(caches, peers.drop_last(), asked) =~= Seq::<PeerId>::empty());
    assert(cached_lists(caches, peers.drop_last(), asked) =~= Seq::<(PeerId, Seq<Entry>)>::empty());
    assert(peers.last() == peer);
    let lists = cached_lists(caches, peers, asked);
    let to_ask = uncached(caches, peers, asked);
    match cached_answer(caches, peer, asked) {
        Some(answer) => {
            assert(lists =~= answer.map_values(|entries: Seq<Entry>| (peer, entries)));
            assert(to_ask.len() == 0);
            if step is Ls {
                let messages = step->messages;
                assert forall|i: int| 0 <= i < answer.len() implies is_listing(
                    #[trigger] messages@[i],
                    id,
                    peer,
                    answer[i],
                ) by {
                    let listed = messages@.take(lists.len() as int);
                    assert(is_listing(listed[i], id, lists[i].0, lists[i].1));
                }
            }
        },
        None => {
            assert(lists.len() == 0);
            assert(to_ask =~= seq![peer]);
        },
    }
}

/// A query of the files of all peers asks each connected peer whose answer is not cached, once, and
/// nobody else.
pub proof fn law_other_peers_are_asked_once(
    before: Hdp,
    caches_after: Map<PeerId, IndexCache>,
    step: CommandStep,
    id: u32,
    query: IndexQuery,
)
    requires
        is_ls_step(before, caches_after, step, id, query, None),
    ensures
        ({
            let asked = index_cache::query_view(query);
            &&& step matches CommandStep::Ls { requests, remaining, .. }
            &&& remaining == requests@.len()
            &&& requests@.no_duplicates()
            &&& forall|peer: PeerId| #[trigger]
                requests@.contains(peer) <==> before.shared_state.peers@.dom().contains(peer)
                    && cached_answer(before.ls_cache@, peer, asked) is None
        }),
{
    let caches = before.ls_cache@;
    let asked = index_cache::query_view(query);
    assert forall|peers: Seq<PeerId>|
        {
            &&& forall|peer: PeerId| #[trigger]
                uncached(caches, peers, asked).contains(peer) <==> peers.contains(peer)
                    && cached_answer(caches, peer, asked) is None
            &&& peers.no_duplicates() ==> (#[trigger] uncached(caches, peers, asked)).no_duplicates()
            &&& uncached(caches, peers, asked).len() == 0 ==> uncached(caches, peers, asked)
                == Seq::<PeerId>::empty()
        } by {
        lemma_who_is_asked(caches, peers, asked);
        if uncached(caches, peers, asked).len() == 0 {
            assert(uncached(caches, peers, asked) =~= Seq::<PeerId>::empty());
        }
    }
    if step is Ls && step->requests@.len() == 0 {
        assert(step->requests@ =~= Seq::<PeerId>::empty());
    }
}

/// A path that is not safe is never downloaded, whoever has it. One that is safe is asked for with
/// all that is below it, where its peer is connected.
pub proof fn law_safe_paths_are_downloaded(
    state: SharedState,
    id: u32,
    peer_path: ui_messages::PeerPath,
    step: CommandStep,
)
    requires
        is_step(state, id, Command::Download(peer_path), step),
    ensures
        step is Download <==> paths::is_safe(peer_path.path@) && state.peers@.dom().contains(
            peer_path.peer.id,
        ),
        step is Download || step is Respond,
        step matches CommandStep::Download { peer, connection, requested_path, request, .. } ==> {
            &&& peer == peer_path.peer.id
            &&& connection == state.peers@[peer].connection
            &&& requested_path@ == paths::components(peer_path.path@)
            &&& request matches Request::Ls(query)
            &&& query.recursive && query.searchterm is None
            &&& query.path matches Some(path) && path@ == peer_path.path@
        },
{
}

/// A file is read from the peer that was named, if it is connected.
pub proof fn law_reads_go_to_the_named_peer(
    state: SharedState,
    id: u32,
    query: crate::wire_messages::ReadQuery,
    peer: PeerId,
    step: CommandStep,
)
    requires
        is_step(state, id, Command::Read(query, peer), step),
    ensures
        step is Read <==> state.peers@.dom().contains(peer),
        step matches CommandStep::Read { peer: asked, connection, request } ==> asked == peer
            && connection == state.peers@[peer].connection && request == Request::Read(query),
        !(step is Read) ==> step is Respond,
{
}

/// The announce code of a peer leads to that peer, unless we are shutting down.
pub proof fn law_announce_codes_lead_to_their_peer(
    state: SharedState,
    id: u32,
    address: AnnounceAddress,
    code: String,
    step: CommandStep,
)
    requires
        code@ == announce_address::announce_code(address),
        is_step(state, id, Command::Connect(code), step),
    ensures
        step is Connect <==> !state.shutting_down,
        step matches CommandStep::Connect(connect) ==> connect.discovery_method
            == DiscoveryMethod::Direct && announce_address::announce_code(connect.announce_address)
            == announce_address::announce_code(address),
{
}

/// A message answers one command, and says one thing: it is the end, an error or what one peer
/// listed, and nothing else at the same time.
pub proof fn law_messages_say_one_thing(
    message: UiServerMessage,
    id: u32,
    other: u32,
    peer: PeerId,
    other_peer: PeerId,
    entries: Seq<Entry>,
    others: Seq<Entry>,
    error: Seq<char>,
    other_error: Seq<char>,
    response: UiResponse,
    other_response: UiResponse,
)
    ensures
        is_end(message, id) && is_end(message, other) ==> id == other,
        is_listing(message, id, peer, entries) && is_listing(message, other, other_peer, others) ==> id
            == other && peer == other_peer && entries == others,
        is_request_error(message, id, error) && is_request_error(message, other, other_error) ==> id
            == other && error == other_error,
        carries(message, id, response) && carries(message, other, other_response) ==> id == other
            && response == other_response,
        !(is_end(message, id) && is_listing(message, id, peer, entries)),
        !(is_end(message, id) && is_request_error(message, id, error)),
        !(is_listing(message, id, peer, entries) && is_request_error(message, id, error)),
{
}

/// A cached answer that was used becomes the one that was used last, and is still found.
pub proof fn law_looking_up_refreshes_the_answer(
    before: Map<PeerId, IndexCache>,
    after: Map<PeerId, IndexCache>,
    peers: Seq<PeerId>,
    query: QueryView,
    peer: PeerId,
)
    requires
        looked_up(before, after, peers, query),
        before.dom().contains(peer),
    ensures
        after.dom().contains(peer),
        after[peer].limit() == before[peer].limit(),
        !peers.contains(peer) ==> after[peer]@ == before[peer]@,
        peers.contains(peer) && cached_answer(before, peer, query) is Some ==> after[peer]@.len() > 0
            && after[peer]@[0].0 == query,
        peers.contains(peer) && cached_answer(before, peer, query) is None ==> after[peer]@
            == before[peer]@,
{
}

/// Where a command is answered at once, the answer has to reach the user interface. Where it only
/// starts something, it does not.
pub proof fn law_which_answers_must_arrive(step: CommandStep)
    ensures
        step is Respond || step is Shares || step is Requests || step is RequestedFiles
            ==> must_be_delivered(step),
        step is Close || step is Download || step is Read || step is AddShare || step is RemoveShare
            || step is Connect || step is Join || step is Leave ==> !must_be_delivered(step),
        step is Ls ==> (must_be_delivered(step) <==> step->remaining != step->requests@.len()),
{
}

} // verus!
