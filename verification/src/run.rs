//! Queries that name a peer by the first component of a path
use crate::bytes::copy_range;
use crate::cli;
use crate::cli::path_to_peer_path;
use crate::hex_text;
use crate::hex_text::hex_encode;
use crate::protocol::{Event, IncomingPeerRequest, PeerConnectionError};
use crate::text::{append_text, joined};
use crate::wire_messages::{Entry, IndexQuery, ReadQuery};
use vstd::prelude::*;

verus! {

/// The short name of a peer: the first two bytes of its key.
pub fn to_hex_string(bytes: &[u8; 32]) -> (r: String)
    ensures
        r@ == hex_text::hex_text(bytes@.take(2)),
{
    let start = copy_range(bytes.as_slice(), 0, 2);
    assert(start@ =~= bytes@.take(2));
    hex_encode(start.as_slice())
}

/// A query of the files of one peer, named by the first component of the path, or of all peers if
/// there is no path.
pub fn ls(path: Option<String>, searchterm: Option<String>, recursive: bool) -> (r: (
    Option<String>,
    IndexQuery,
))
    ensures
        r.1.searchterm == searchterm,
        r.1.recursive == recursive,
        if path matches Some(given) && given@.len() > 0 {
            &&& r.0 matches Some(peer) && peer@ == cli::first_component(path->Some_0@)
            &&& r.1.path matches Some(rest) && rest@ == cli::rest_of_path(path->Some_0@)
        } else {
            r.0 is None && r.1.path is None
        },
{
    match path {
        Some(given) => {
            let (peer, rest) = path_to_peer_path(given.as_str());
            match peer {
                Some(peer) => (
                    Some(peer),
                    IndexQuery { path: Some(rest), searchterm, recursive },
                ),
                None => (None, IndexQuery { path: None, searchterm, recursive }),
            }
        },
        None => (None, IndexQuery { path: None, searchterm, recursive }),
    }
}

/// Whether an entry of a peer is shown: if no path is given and the query is not recursive, only
/// the top level entry is.
pub open spec fn is_shown(entry: Entry, path_given: bool, recursive: bool) -> bool {
    path_given || recursive || entry.name@.len() == 0
}

/// Whether an entry is shown under the name of its peer.
pub open spec fn is_prefixed(shown: Entry, entry: Entry, public_key: Seq<u8>) -> bool {
    &&& shown.name@ == hex_text::hex_text(public_key.take(2)) + "/"@ + entry.name@
    &&& shown.size == entry.size
    &&& shown.is_dir == entry.is_dir
}

/// The entries that are shown.
pub open spec fn shown_entries(entries: Seq<Entry>, path_given: bool, recursive: bool) -> Seq<Entry>
    decreases entries.len(),
{
    if entries.len() == 0 {
        Seq::empty()
    } else if is_shown(entries.last(), path_given, recursive) {
        shown_entries(entries.drop_last(), path_given, recursive).push(entries.last())
    } else {
        shown_entries(entries.drop_last(), path_given, recursive)
    }
}

/// The entries of a peer that are shown, under the name of the peer.
pub fn ls_entries(
    public_key: &[u8; 32],
    entries: &Vec<Entry>,
    path_given: bool,
    recursive: bool,
) -> (r: Vec<Entry>)
    ensures
        r@.len() == shown_entries(entries@, path_given, recursive).len(),
        forall|i: int|
            0 <= i < r@.len() ==> is_prefixed(
                #[trigger] r@[i],
                shown_entries(entries@, path_given, recursive)[i],
                public_key@,
            ),
{
    let mut r: Vec<Entry> = Vec::new();
    let peer = to_hex_string(public_key);
    let mut i: usize = 0;
    assert(entries@.take(0) =~= Seq::<Entry>::empty());
    while i < entries.len()
        invariant
            i <= entries@.len(),
            peer@ == hex_text::hex_text(public_key@.take(2)),
            r@.len() == shown_entries(entries@.take(i as int), path_given, recursive).len(),
            forall|k: int|
                0 <= k < r@.len() ==> is_prefixed(
                    #[trigger] r@[k],
                    shown_entries(entries@.take(i as int), path_given, recursive)[k],
                    public_key@,
                ),
        decreases entries@.len() - i,
    {
        let entry = &entries[i];
        assert(entries@.take(i + 1).drop_last() =~= entries@.take(i as int));
        assert(entries@.take(i + 1).last() == *entry);
        if path_given || recursive || entry.name.as_str().unicode_len() == 0 {
            let mut name = joined(peer.as_str(), "/");
            append_text(&mut name, entry.name.as_str());
            r.push(Entry { name, size: entry.size, is_dir: entry.is_dir });
        }
        i += 1;
    }
    assert(entries@.take(i as int) =~= entries@);
    r
}

/// Asks for a whole file of the peer that is named by the first component of the path.
pub fn read_file(path: &str) -> (r: Option<(String, ReadQuery)>)
    ensures
        match r {
            Some((peer, query)) => {
                &&& path@.len() > 0
                &&& peer@ == cli::first_component(path@)
                &&& query.path@ == cli::rest_of_path(path@)
                &&& query.start is None
                &&& query.end is None
            },
            None => path@.len() == 0,
        },
{
    let (peer, rest) = path_to_peer_path(path);
    match peer {
        Some(peer) => Some((peer, ReadQuery { path: rest, start: None, end: None })),
        None => None,
    }
}

/// What follows an event of the protocol.
#[derive(Debug)]
pub enum RunStep {
    /// Handle a request of the peer.
    HandleRequest(IncomingPeerRequest),
    /// Nothing.
    Continue,
    /// The connection is closed.
    Stop,
}

/// Handles an event of the protocol with a peer.
pub fn handle_event(event: Option<Result<Event, PeerConnectionError>>) -> (r: RunStep)
    ensures
        match event {
            Some(Ok(Event::Request(message, id))) => r == RunStep::HandleRequest(
                IncomingPeerRequest { message, id },
            ),
            Some(Err(PeerConnectionError::ConnectionError)) => r is Stop,
            _ => r is Continue,
        },
{
    match event {
        Some(Ok(Event::Request(message, id))) => RunStep::HandleRequest(
            IncomingPeerRequest { message, id },
        ),
        Some(Err(PeerConnectionError::ConnectionError)) => RunStep::Stop,
        _ => RunStep::Continue,
    }
}

/// If a path is given or the query is recursive, all entries of a peer are shown. Otherwise those
/// without a name are, which is the top level, in their order.
pub proof fn law_which_entries_are_shown(entries: Seq<Entry>, path_given: bool, recursive: bool)
    ensures
        path_given || recursive ==> shown_entries(entries, path_given, recursive) == entries,
        !path_given && !recursive ==> shown_entries(entries, path_given, recursive)
            == entries.filter(|entry: Entry| entry.name@ == Seq::<char>::empty()),
    decreases entries.len(),
{
    let top = |entry: Entry| entry.name@ == Seq::<char>::empty();
    reveal(Seq::filter);
    if entries.len() > 0 {
        law_which_entries_are_shown(entries.drop_last(), path_given, recursive);
        assert(entries.drop_last().push(entries.last()) =~= entries);
        let name = entries.last().name@;
        assert(name.len() == 0 ==> name =~= Seq::<char>::empty());
    }
}

} // verus!
