//! What goes on the wishlist when a remote file or directory is to be downloaded
use crate::errors::UiServerErrorWrapper;
use crate::paths;
use crate::paths::{RelativePath, remote_path_is_within_request, safe_remote_relative_path};
use crate::text::{joined, same_text};
use crate::time::Duration;
use crate::ui_messages::UiServerError;
use crate::wire_messages::{Entry, IndexQuery, Request};
use crate::wishlist::{DownloadRequest, RequestedFile};
use rand::Rng;
use vstd::prelude::*;

verus! {

/// Calls `Rng::gen` of the operating system's generator. Nothing can be said of the number.
#[verifier::external_body]
pub(crate) fn random_request_id() -> (r: u32) {
    rand::rngs::OsRng.gen()
}

/// Something to put on the wishlist.
#[derive(Debug)]
pub enum Wanted {
    /// What was asked for.
    Request(DownloadRequest),
    /// A file that belongs to it.
    File(RequestedFile),
}

/// What is put on the wishlist, for contracts.
pub enum WantedView {
    Request { path: Seq<char>, size: u64, request_id: u32, peer: Seq<u8>, timestamp: Duration },
    File { path: Seq<char>, size: u64, request_id: u32, downloaded: bool },
}

impl View for Wanted {
    type V = WantedView;

    open spec fn view(&self) -> WantedView {
        match self {
            Wanted::Request(request) => WantedView::Request {
                path: request.path@,
                size: request.total_size,
                request_id: request.request_id,
                peer: request.peer_public_key@,
                timestamp: request.timestamp,
            },
            Wanted::File(file) => WantedView::File {
                path: file.path@,
                size: file.size,
                request_id: file.request_id,
                downloaded: file.downloaded,
            },
        }
    }
}

/// The texts that go with a list of wishes.
pub open spec fn wanted_views(wanted: Seq<Wanted>) -> Seq<WantedView> {
    wanted.map_values(|one: Wanted| one@)
}

/// Whether an entry that a peer lists has to do with a path that was asked for.
pub open spec fn belongs(path: Seq<char>, entry: Entry) -> bool {
    paths::is_safe(entry.name@) && paths::is_within(paths::components(path), paths::components(entry.name@))
}

/// What an entry puts on the wishlist.
pub open spec fn wanted_of(
    path: Seq<char>,
    entry: Entry,
    request_id: u32,
    peer: Seq<u8>,
    secs: u64,
) -> Seq<WantedView> {
    if !belongs(path, entry) {
        Seq::empty()
    } else {
        let request = if entry.name@ == path {
            seq![
                WantedView::Request {
                    path,
                    size: entry.size,
                    request_id,
                    peer,
                    timestamp: Duration { secs, nanos: 0 },
                },
            ]
        } else {
            Seq::empty()
        };
        let file = if entry.is_dir {
            Seq::empty()
        } else {
            seq![
                WantedView::File {
                    path: entry.name@,
                    size: entry.size,
                    request_id,
                    downloaded: false,
                },
            ]
        };
        request + file
    }
}

/// What the entries that a peer lists put on the wishlist.
pub open spec fn wanted_of_all(
    path: Seq<char>,
    entries: Seq<Entry>,
    request_id: u32,
    peer: Seq<u8>,
    secs: u64,
) -> Seq<WantedView>
    decreases entries.len(),
{
    if entries.len() == 0 {
        Seq::empty()
    } else {
        wanted_of_all(path, entries.drop_last(), request_id, peer, secs) + wanted_of(
            path,
            entries.last(),
            request_id,
            peer,
            secs,
        )
    }
}

/// The path of something that is wanted.
pub open spec fn wanted_path(wanted: WantedView) -> Seq<char> {
    match wanted {
        WantedView::Request { path, .. } => path,
        WantedView::File { path, .. } => path,
    }
}

/// Whatever a peer lists, only what was asked for goes on the wishlist, and nothing that could be
/// written outside the download directory.
pub proof fn law_peer_cannot_add_other_files(
    path: Seq<char>,
    entries: Seq<Entry>,
    request_id: u32,
    peer: Seq<u8>,
    secs: u64,
)
    ensures
        forall|i: int|
            0 <= i < wanted_of_all(path, entries, request_id, peer, secs).len() ==> {
                let wanted = #[trigger] wanted_of_all(path, entries, request_id, peer, secs)[i];
                paths::is_safe(wanted_path(wanted)) && paths::is_within(
                    paths::components(path),
                    paths::components(wanted_path(wanted)),
                )
            },
    decreases entries.len(),
{
    if entries.len() > 0 {
        let before = wanted_of_all(path, entries.drop_last(), request_id, peer, secs);
        let more = wanted_of(path, entries.last(), request_id, peer, secs);
        let all = wanted_of_all(path, entries, request_id, peer, secs);
        law_peer_cannot_add_other_files(path, entries.drop_last(), request_id, peer, secs);
        assert forall|i: int| 0 <= i < all.len() implies ({
            let wanted = #[trigger] all[i];
            paths::is_safe(wanted_path(wanted)) && paths::is_within(
                paths::components(path),
                paths::components(wanted_path(wanted)),
            )
        }) by {
            if i < before.len() {
                assert(all[i] == before[i]);
            } else {
                assert(all[i] == more[i - before.len()]);
                assert(belongs(path, entries.last()));
            }
        }
    }
}

/// Everything that was asked for goes on the wishlist: each file that a peer lists at or below the
/// path that was asked for is there under its own name and with its own size, and an entry of just
/// that path is there as the request.
pub proof fn law_everything_asked_for_is_wanted(
    path: Seq<char>,
    entries: Seq<Entry>,
    request_id: u32,
    peer: Seq<u8>,
    secs: u64,
    i: int,
)
    requires
        0 <= i < entries.len(),
        paths::is_safe(entries[i].name@),
        paths::is_within(paths::components(path), paths::components(entries[i].name@)),
    ensures
        !entries[i].is_dir ==> wanted_of_all(path, entries, request_id, peer, secs).contains(
            WantedView::File {
                path: entries[i].name@,
                size: entries[i].size,
                request_id,
                downloaded: false,
            },
        ),
        entries[i].name@ == path ==> wanted_of_all(path, entries, request_id, peer, secs).contains(
            WantedView::Request {
                path,
                size: entries[i].size,
                request_id,
                peer,
                timestamp: Duration { secs, nanos: 0 },
            },
        ),
    decreases entries.len(),
{
    let before = wanted_of_all(path, entries.drop_last(), request_id, peer, secs);
    let more = wanted_of(path, entries.last(), request_id, peer, secs);
    let all = wanted_of_all(path, entries, request_id, peer, secs);
    assert(all =~= before + more);
    if i < entries.len() - 1 {
        law_everything_asked_for_is_wanted(
            path,
            entries.drop_last(),
            request_id,
            peer,
            secs,
            i,
        );
        assert forall|wanted: WantedView| before.contains(wanted) implies all.contains(wanted) by {
            let k = choose|k: int| 0 <= k < before.len() && before[k] == wanted;
            assert(all[k] == wanted);
        }
    } else {
        let n = before.len() as int;
        let last = more.len() - 1;
        if !entries[i].is_dir {
            assert(all[n + last] == more[last]);
        }
        if entries[i].name@ == path {
            assert(all[n] == more[0]);
        }
    }
}

/// What some entries that a peer lists put on the wishlist does not depend on what else is listed,
/// and each entry is put on it once: as many things are wanted as there are files among the entries
/// that were asked for and entries of just the path.
pub proof fn law_each_entry_is_wanted_once(
    path: Seq<char>,
    first: Seq<Entry>,
    second: Seq<Entry>,
    entry: Entry,
    request_id: u32,
    peer: Seq<u8>,
    secs: u64,
)
    ensures
        wanted_of_all(path, first + second, request_id, peer, secs) == wanted_of_all(
            path,
            first,
            request_id,
            peer,
            secs,
        ) + wanted_of_all(path, second, request_id, peer, secs),
        ({
            let asked_for = paths::is_safe(entry.name@) && paths::is_within(
                paths::components(path),
                paths::components(entry.name@),
            );
            let files: nat = if asked_for && !entry.is_dir {
                1
            } else {
                0
            };
            let requests: nat = if asked_for && entry.name@ == path {
                1
            } else {
                0
            };
            wanted_of_all(path, seq![entry], request_id, peer, secs).len() == files + requests
        }),
    decreases second.len(),
{
    assert(seq![entry].drop_last() =~= Seq::<Entry>::empty());
    assert(seq![entry].last() == entry);
    assert(wanted_of_all(path, seq![entry].drop_last(), request_id, peer, secs).len() == 0);
    assert(wanted_of_all(path, seq![entry], request_id, peer, secs).len() == wanted_of(
        path,
        entry,
        request_id,
        peer,
        secs,
    ).len());
    if second.len() == 0 {
        assert(first + second =~= first);
        assert(wanted_of_all(path, second, request_id, peer, secs) =~= Seq::<WantedView>::empty());
    } else {
        law_each_entry_is_wanted_once(
            path,
            first,
            second.drop_last(),
            entry,
            request_id,
            peer,
            secs,
        );
        assert((first + second).drop_last() =~= first + second.drop_last());
        assert((first + second).last() == second.last());
    }
    assert(wanted_of_all(path, first + second, request_id, peer, secs) =~= wanted_of_all(
        path,
        first,
        request_id,
        peer,
        secs,
    ) + wanted_of_all(path, second, request_id, peer, secs));
}

/// Nothing is wanted that the peer does not list: a file is wanted only as a file that is listed, with
/// its size and under the id of the request, and a request is made only for an entry of just the path
/// that was asked for.
pub proof fn law_only_what_is_listed_is_wanted(
    path: Seq<char>,
    entries: Seq<Entry>,
    request_id: u32,
    peer: Seq<u8>,
    secs: u64,
    wanted: WantedView,
)
    requires
        wanted_of_all(path, entries, request_id, peer, secs).contains(wanted),
    ensures
        match wanted {
            WantedView::File { path: name, size, request_id: id, downloaded } => {
                &&& exists|i: int|
                    0 <= i < entries.len() && !(#[trigger] entries[i]).is_dir && entries[i].name@
                        == name && entries[i].size == size
                &&& id == request_id
                &&& !downloaded
            },
            WantedView::Request { path: name, size, request_id: id, peer: asked, timestamp } => {
                &&& exists|i: int|
                    0 <= i < entries.len() && (#[trigger] entries[i]).name@ == path
                        && entries[i].size == size
                &&& name == path
                &&& id == request_id
                &&& asked == peer
                &&& timestamp.secs == secs
            },
        },
    decreases entries.len(),
{
    if entries.len() > 0 {
        let before = wanted_of_all(path, entries.drop_last(), request_id, peer, secs);
        let more = wanted_of(path, entries.last(), request_id, peer, secs);
        let all = wanted_of_all(path, entries, request_id, peer, secs);
        let k = choose|k: int| 0 <= k < all.len() && all[k] == wanted;
        let last = entries.len() - 1;
        if k < before.len() {
            assert(before[k] == wanted);
            law_only_what_is_listed_is_wanted(
                path,
                entries.drop_last(),
                request_id,
                peer,
                secs,
                wanted,
            );
            assert forall|i: int| 0 <= i < last implies entries.drop_last()[i] == #[trigger] entries[i] by {}
            match wanted {
                WantedView::File { path: name, size, .. } => {
                    let i = choose|i: int|
                        0 <= i < last && !(#[trigger] entries.drop_last()[i]).is_dir
                            && entries.drop_last()[i].name@ == name && entries.drop_last()[i].size
                            == size;
                    assert(!entries[i].is_dir && entries[i].name@ == name);
                },
                WantedView::Request { size, .. } => {
                    let i = choose|i: int|
                        0 <= i < last && (#[trigger] entries.drop_last()[i]).name@ == path
                            && entries.drop_last()[i].size == size;
                    assert(entries[i].name@ == path);
                },
            }
        } else {
            assert(more[k - before.len()] == wanted);
            assert(entries[last] == entries.last());
        }
    }
}

/// Asks a peer for the details of a file or directory to download.
pub fn details_request(path: &str) -> (r: Result<(RelativePath, Request), UiServerErrorWrapper>)
    ensures
        match r {
            Ok((requested_path, request)) => {
                &&& paths::is_safe(path@)
                &&& requested_path@ == paths::components(path@)
                &&& request matches Request::Ls(query)
                &&& query.path matches Some(asked) && asked@ == path@
                &&& query.searchterm is None
                &&& query.recursive
            },
            Err(error) => {
                &&& !paths::is_safe(path@)
                &&& error.0 matches UiServerError::RequestError(text)
                &&& text@ == "Invalid download path requested: "@ + (
                "Remote path contains an unsafe component: "@ + path@)
            },
        },
{
    match safe_remote_relative_path(path) {
        Ok(requested_path) => {
            let request = Request::Ls(
                IndexQuery { path: Some(path.to_owned()), searchterm: None, recursive: true },
            );
            Ok((requested_path, request))
        },
        Err(error) => Err(
            UiServerErrorWrapper(
                UiServerError::RequestError(
                    joined("Invalid download path requested: ", error.as_str()),
                ),
            ),
        ),
    }
}

/// What some entries that a peer lists put on the wishlist.
pub fn wanted_entries(
    requested_path: &RelativePath,
    path: &str,
    entries: &Vec<Entry>,
    request_id: u32,
    peer_public_key: [u8; 32],
    now: Duration,
) -> (r: Vec<Wanted>)
    requires
        requested_path@ == paths::components(path@),
    ensures
        wanted_views(r@) == wanted_of_all(
            path@,
            entries@,
            request_id,
            peer_public_key@,
            now.secs,
        ),
{
    let mut r: Vec<Wanted> = Vec::new();
    let mut i: usize = 0;
    assert(entries@.take(0) =~= Seq::<Entry>::empty());
    assert(wanted_views(r@) =~= Seq::<WantedView>::empty());
    while i < entries.len()
        invariant
            i <= entries@.len(),
            requested_path@ == paths::components(path@),
            wanted_views(r@) == wanted_of_all(
                path@,
                entries@.take(i as int),
                request_id,
                peer_public_key@,
                now.secs,
            ),
        decreases entries@.len() - i,
    {
        let entry = &entries[i];
        let ghost before = wanted_views(r@);
        proof {
            assert(entries@.take(i + 1).drop_last() =~= entries@.take(i as int));
            assert(entries@.take(i + 1).last() == *entry);
        }
        match safe_remote_relative_path(entry.name.as_str()) {
            Ok(entry_path) => {
                if remote_path_is_within_request(requested_path, &entry_path) {
                    if same_text(entry.name.as_str(), path) {
                        r.push(
                            Wanted::Request(
                                DownloadRequest::new_at(
                                    entry.name.clone(),
                                    entry.size,
                                    request_id,
                                    peer_public_key,
                                    now,
                                ),
                            ),
                        );
                    }
                    if !entry.is_dir {
                        r.push(
                            Wanted::File(
                                RequestedFile {
                                    path: entry.name.clone(),
                                    size: entry.size,
                                    request_id,
                                    downloaded: false,
                                },
                            ),
                        );
                    }
                }
            },
            Err(_) => {},
        }
        assert(wanted_views(r@) =~= before + wanted_of(
            path@,
            *entry,
            request_id,
            peer_public_key@,
            now.secs,
        ));
        i += 1;
    }
    assert(entries@.take(i as int) =~= entries@);
    r
}

} // verus!
