//! What the tables of the wishlist hold after requests and files were added and files completed
use crate::bytes;
use crate::text;
use crate::ui_messages::UiDownloadRequest;
use crate::wishlist;
use crate::wishlist::{DownloadRequest, KeyValue, RequestRow, RequestedFile};
use vstd::prelude::*;
use vstd::utf8::*;

verus! {

/// Whether these are the rows of a table, in the order of their keys.
pub open spec fn is_walk(rows: Seq<(Seq<u8>, Seq<u8>)>, table: Map<Seq<u8>, Seq<u8>>) -> bool {
    &&& forall|i: int, j: int|
        0 <= i < j < rows.len() ==> text::bytes_less((#[trigger] rows[i]).0, (#[trigger] rows[j]).0)
    &&& forall|i: int|
        0 <= i < rows.len() ==> table.dom().contains((#[trigger] rows[i]).0) && table[rows[i].0]
            == rows[i].1
    &&& forall|key: Seq<u8>| #[trigger]
        table.dom().contains(key) ==> exists|i: int|
            0 <= i < rows.len() && (#[trigger] rows[i]).0 == key
}

/// The key of a request in the table of requests, which is also how the table of times refers to it.
pub open spec fn id_key(request_id: u32) -> Seq<u8> {
    bytes::be_bytes(request_id as nat, 4)
}

/// The key of a request in the table of times.
pub open spec fn time_key(request: DownloadRequest) -> Seq<u8> {
    bytes::be_bytes(request.timestamp.secs as nat, 8)
}

/// The tables of requests.
pub struct RequestTables {
    /// The records of the requests, by their ids.
    pub by_id: Map<Seq<u8>, Seq<u8>>,
    /// The ids of the requests, by their times.
    pub by_time: Map<Seq<u8>, Seq<u8>>,
}

/// The tables after some requests were added, one after the other.
pub open spec fn with_requests(requests: Seq<DownloadRequest>) -> RequestTables
    decreases requests.len(),
{
    if requests.len() == 0 {
        RequestTables { by_id: Map::empty(), by_time: Map::empty() }
    } else {
        let before = with_requests(requests.drop_last());
        let request = requests.last();
        RequestTables {
            by_id: before.by_id.insert(
                id_key(request.request_id),
                wishlist::request_value(request),
            ),
            by_time: before.by_time.insert(time_key(request), id_key(request.request_id)),
        }
    }
}

/// Whether a record that was looked up in a table is the one under a key.
pub open spec fn is_found(
    record: Option<Vec<u8>>,
    table: Map<Seq<u8>, Seq<u8>>,
    key: Seq<u8>,
) -> bool {
    match record {
        Some(value) => table.dom().contains(key) && value@ == table[key],
        None => !table.dom().contains(key),
    }
}

/// Whether a row is what is found for a request id.
pub open spec fn is_row_of(
    row: RequestRow,
    id: Seq<u8>,
    requests: Map<Seq<u8>, Seq<u8>>,
    progress: Map<Seq<u8>, Seq<u8>>,
) -> bool {
    &&& row.request_id@ == id
    &&& is_found(row.details, requests, id)
    &&& is_found(row.progress, progress, id)
}

/// The progress that is recorded for a request.
pub open spec fn progress_of_request(progress: Map<Seq<u8>, Seq<u8>>, request_id: u32) -> u64 {
    if progress.dom().contains(id_key(request_id)) {
        bytes::be_value(progress[id_key(request_id)]) as u64
    } else {
        0
    }
}

/// Whether requests can be told apart, by their ids and by the seconds in which they were made.
pub open spec fn are_distinct(requests: Seq<DownloadRequest>) -> bool {
    forall|i: int, j: int|
        0 <= i < j < requests.len() ==> (#[trigger] requests[i]).request_id != (
        #[trigger] requests[j]).request_id && requests[i].timestamp.secs
            != requests[j].timestamp.secs
}

proof fn lemma_keys_differ(a: DownloadRequest, b: DownloadRequest)
    ensures
        id_key(a.request_id) == id_key(b.request_id) ==> a.request_id == b.request_id,
        time_key(a) == time_key(b) ==> a.timestamp.secs == b.timestamp.secs,
{
    bytes::lemma_byte_ranges();
    bytes::lemma_be_value_of_bytes(a.request_id as nat, 4);
    bytes::lemma_be_value_of_bytes(b.request_id as nat, 4);
    bytes::lemma_be_value_of_bytes(a.timestamp.secs as nat, 8);
    bytes::lemma_be_value_of_bytes(b.timestamp.secs as nat, 8);
}

proof fn lemma_with_requests(requests: Seq<DownloadRequest>)
    requires
        are_distinct(requests),
    ensures
        forall|i: int|
            0 <= i < requests.len() ==> {
                let request = #[trigger] requests[i];
                let tables = with_requests(requests);
                &&& tables.by_id.dom().contains(id_key(request.request_id))
                &&& tables.by_id[id_key(request.request_id)] == wishlist::request_value(request)
                &&& tables.by_time.dom().contains(time_key(request))
                &&& tables.by_time[time_key(request)] == id_key(request.request_id)
            },
        forall|key: Seq<u8>| #[trigger]
            with_requests(requests).by_time.dom().contains(key) ==> exists|i: int|
                0 <= i < requests.len() && time_key(#[trigger] requests[i]) == key,
    decreases requests.len(),
{
    if requests.len() > 0 {
        let rest = requests.drop_last();
        let last = requests.last();
        assert(requests[requests.len() - 1] == last);
        assert forall|i: int, j: int| 0 <= i < j < rest.len() implies (#[trigger] rest[i]).request_id
            != (#[trigger] rest[j]).request_id && rest[i].timestamp.secs != rest[j].timestamp.secs by {
            assert(rest[i] == requests[i] && rest[j] == requests[j]);
        }
        lemma_with_requests(rest);
        assert forall|i: int| 0 <= i < requests.len() implies {
            let request = #[trigger] requests[i];
            let tables = with_requests(requests);
            &&& tables.by_id.dom().contains(id_key(request.request_id))
            &&& tables.by_id[id_key(request.request_id)] == wishlist::request_value(request)
            &&& tables.by_time.dom().contains(time_key(request))
            &&& tables.by_time[time_key(request)] == id_key(request.request_id)
        } by {
            if i < rest.len() {
                assert(rest[i] == requests[i]);
                lemma_keys_differ(requests[i], last);
            }
        }
        assert forall|key: Seq<u8>| #[trigger]
            with_requests(requests).by_time.dom().contains(key) implies exists|i: int|
            0 <= i < requests.len() && time_key(#[trigger] requests[i]) == key by {
            if with_requests(rest).by_time.dom().contains(key) {
                let i = choose|i: int| 0 <= i < rest.len() && time_key(#[trigger] rest[i]) == key;
                assert(time_key(requests[i]) == key);
            } else {
                assert(time_key(requests[requests.len() - 1]) == key);
            }
        }
    }
}

/// Two byte strings of one length, each with something behind it, are in the order of what stands
/// first, and in that of what stands behind where they are the same.
proof fn lemma_order_of_prefixed(a: Seq<u8>, b: Seq<u8>, x: Seq<u8>, y: Seq<u8>)
    requires
        a.len() == b.len(),
    ensures
        text::bytes_less(a + x, b + y) == if a == b {
            text::bytes_less(x, y)
        } else {
            text::bytes_less(a, b)
        },
    decreases a.len(),
{
    if a.len() == 0 {
        assert(a =~= b);
        assert(a + x =~= x);
        assert(b + y =~= y);
    } else {
        lemma_order_of_prefixed(a.drop_first(), b.drop_first(), x, y);
        assert((a + x).drop_first() =~= a.drop_first() + x);
        assert((b + y).drop_first() =~= b.drop_first() + y);
        assert(a =~= seq![a[0]] + a.drop_first());
        assert(b =~= seq![b[0]] + b.drop_first());
    }
}

/// Numbers of one width are in the order of their byte strings.
proof fn lemma_order_of_numbers(a: nat, b: nat, width: nat)
    requires
        a < bytes::byte_range(width),
        b < bytes::byte_range(width),
    ensures
        text::bytes_less(bytes::be_bytes(a, width), bytes::be_bytes(b, width)) == (a < b),
    decreases width,
{
    if width > 0 {
        let w = (width - 1) as nat;
        lemma_order_of_numbers(a / 256, b / 256, w);
        bytes::lemma_be_bytes_len(a / 256, w);
        bytes::lemma_be_bytes_len(b / 256, w);
        bytes::lemma_be_value_of_bytes(a / 256, w);
        bytes::lemma_be_value_of_bytes(b / 256, w);
        let x = seq![(a % 256) as u8];
        let y = seq![(b % 256) as u8];
        lemma_order_of_prefixed(bytes::be_bytes(a / 256, w), bytes::be_bytes(b / 256, w), x, y);
        assert(bytes::be_bytes(a, width) =~= bytes::be_bytes(a / 256, w) + x);
        assert(bytes::be_bytes(b, width) =~= bytes::be_bytes(b / 256, w) + y);
        assert(x.drop_first() =~= Seq::<u8>::empty());
        assert(y.drop_first() =~= Seq::<u8>::empty());
        reveal_with_fuel(text::bytes_less, 2);
    }
}

proof fn lemma_all_rows_shown(rows: Seq<RequestRow>, shown: Seq<UiDownloadRequest>)
    requires
        wishlist::rows_shown(rows, shown),
        forall|i: int| 0 <= i < rows.len() ==> (#[trigger] rows[i]).is_request(),
    ensures
        shown.len() == rows.len(),
        forall|i: int| 0 <= i < rows.len() ==> (#[trigger] rows[i]).shows(shown[i]),
    decreases rows.len(),
{
    if rows.len() > 0 {
        let rest = rows.drop_last();
        assert(rows[rows.len() - 1].is_request());
        assert forall|i: int| 0 <= i < rest.len() implies (#[trigger] rest[i]).is_request() by {
            assert(rest[i] == rows[i]);
        }
        lemma_all_rows_shown(rest, shown.drop_last());
        assert forall|i: int| 0 <= i < rows.len() implies (#[trigger] rows[i]).shows(shown[i]) by {
            if i < rest.len() {
                assert(rest[i].shows(shown.drop_last()[i]));
            }
        }
    }
}

proof fn lemma_row_of_request(
    row: RequestRow,
    request: DownloadRequest,
    requests: Map<Seq<u8>, Seq<u8>>,
    progress: Map<Seq<u8>, Seq<u8>>,
)
    requires
        is_row_of(row, id_key(request.request_id), requests, progress),
        requests.dom().contains(id_key(request.request_id)),
        requests[id_key(request.request_id)] == wishlist::request_value(request),
        request.timestamp.nanos == 0,
        forall|key: Seq<u8>| #[trigger] progress.dom().contains(key) ==> progress[key].len() == 8,
    ensures
        row.is_request(),
        forall|shown: UiDownloadRequest| #[trigger]
            row.shows(shown) ==> wishlist::is_shown_as(
                request,
                progress_of_request(progress, request.request_id),
                shown,
            ),
{
    let value = wishlist::request_value(request);
    bytes::lemma_be_bytes_len(request.request_id as nat, 4);
    bytes::lemma_be_bytes_len(request.timestamp.secs as nat, 8);
    bytes::lemma_be_bytes_len(request.total_size as nat, 8);
    assert(value.skip(48) =~= encode_utf8(request.path@));
    encode_utf8_valid_utf8(request.path@);
    assert forall|shown: UiDownloadRequest| #[trigger] row.shows(shown) implies wishlist::is_shown_as(
        request,
        progress_of_request(progress, request.request_id),
        shown,
    ) by {
        let read = choose|read: DownloadRequest| #[trigger]
            wishlist::request_value(read) == row.details->Some_0@ && row.request_id@
                == bytes::be_bytes(read.request_id as nat, 4) && read.timestamp.nanos == 0
                && wishlist::is_shown_as(
                read,
                wishlist::progress_of(row.progress)->Some_0 as u64,
                shown,
            );
        wishlist::law_request_record_round_trip(request, read);
    }
}

/// All requests that were added are listed, each once, in the order of the times at which they were
/// made and with the progress that is recorded for it. The times are kept in whole seconds, so this
/// is of requests that were made in different seconds.
pub proof fn law_every_request_is_listed(
    requests: Seq<DownloadRequest>,
    progress: Map<Seq<u8>, Seq<u8>>,
    times: Seq<(Seq<u8>, Seq<u8>)>,
    rows: Seq<RequestRow>,
    shown: Seq<UiDownloadRequest>,
)
    requires
        are_distinct(requests),
        forall|i: int| 0 <= i < requests.len() ==> (#[trigger] requests[i]).timestamp.nanos == 0,
        forall|key: Seq<u8>| #[trigger] progress.dom().contains(key) ==> progress[key].len() == 8,
        is_walk(times, with_requests(requests).by_time),
        rows.len() == times.len(),
        forall|i: int|
            0 <= i < rows.len() ==> is_row_of(
                #[trigger] rows[i],
                times[i].1,
                with_requests(requests).by_id,
                progress,
            ),
        wishlist::rows_shown(rows, shown),
    ensures
        shown.len() == requests.len(),
        forall|i: int, j: int|
            0 <= i < j < shown.len() ==> (#[trigger] shown[i]).timestamp.secs < (
            #[trigger] shown[j]).timestamp.secs,
        forall|k: int|
            0 <= k < requests.len() ==> exists|i: int|
                0 <= i < shown.len() && wishlist::is_shown_as(
                    #[trigger] requests[k],
                    progress_of_request(progress, requests[k].request_id),
                    #[trigger] shown[i],
                ),
{
    let tables = with_requests(requests);
    lemma_with_requests(requests);
    // Each row is that of the request which was made at its time
    assert forall|i: int| 0 <= i < rows.len() implies (#[trigger] rows[i]).is_request() by {
        let k = lemma_request_of_row(requests, times, i);
        lemma_row_of_request(rows[i], requests[k], tables.by_id, progress);
    }
    lemma_all_rows_shown(rows, shown);
    assert forall|i: int| 0 <= i < rows.len() implies bytes::be_bytes(
        (#[trigger] shown[i]).timestamp.secs as nat,
        8,
    ) == times[i].0 by {
        let k = lemma_request_of_row(requests, times, i);
        lemma_row_of_request(rows[i], requests[k], tables.by_id, progress);
        assert(rows[i].shows(shown[i]));
    }
    assert forall|i: int, j: int| 0 <= i < j < shown.len() implies (#[trigger] shown[i]).timestamp.secs
        < (#[trigger] shown[j]).timestamp.secs by {
        bytes::lemma_byte_ranges();
        lemma_order_of_numbers(
            shown[i].timestamp.secs as nat,
            shown[j].timestamp.secs as nat,
            8,
        );
        assert(text::bytes_less(times[i].0, times[j].0));
    }
    assert forall|k: int| 0 <= k < requests.len() implies exists|i: int|
        0 <= i < shown.len() && wishlist::is_shown_as(
            #[trigger] requests[k],
            progress_of_request(progress, requests[k].request_id),
            #[trigger] shown[i],
        ) by {
        assert(tables.by_time.dom().contains(time_key(requests[k])));
        let i = choose|i: int| 0 <= i < times.len() && (#[trigger] times[i]).0 == time_key(requests[k]);
        lemma_row_of_request(rows[i], requests[k], tables.by_id, progress);
        assert(rows[i].shows(shown[i]));
        assert(wishlist::is_shown_as(
            requests[k],
            progress_of_request(progress, requests[k].request_id),
            shown[i],
        ));
    }
    // As many rows as requests
    let walked = times.map_values(|row: (Seq<u8>, Seq<u8>)| row.0);
    let made = requests.map_values(|request: DownloadRequest| time_key(request));
    assert forall|i: int, j: int| 0 <= i < j < walked.len() implies walked[i] != walked[j] by {
        assert(text::bytes_less(times[i].0, times[j].0));
        text::lemma_bytes_less_total(times[i].0, times[j].0);
    }
    assert forall|i: int, j: int| 0 <= i < j < made.len() implies made[i] != made[j] by {
        lemma_keys_differ(requests[i], requests[j]);
        assert(requests[i].request_id != requests[j].request_id);
    }
    assert forall|key: Seq<u8>| walked.to_set().contains(key) == made.to_set().contains(key) by {
        if walked.contains(key) {
            let i = choose|i: int| 0 <= i < walked.len() && walked[i] == key;
            assert(tables.by_time.dom().contains(times[i].0));
            let k = choose|k: int| 0 <= k < requests.len() && time_key(#[trigger] requests[k]) == key;
            assert(made[k] == key);
        }
        if made.contains(key) {
            let k = choose|k: int| 0 <= k < made.len() && made[k] == key;
            assert(tables.by_time.dom().contains(time_key(requests[k])));
            let i = choose|i: int| 0 <= i < times.len() && (#[trigger] times[i]).0 == key;
            assert(walked[i] == key);
        }
    }
    assert(walked.to_set() =~= made.to_set());
    assert(walked.no_duplicates());
    assert(made.no_duplicates());
    walked.unique_seq_to_set();
    made.unique_seq_to_set();
}

proof fn lemma_request_of_row(
    requests: Seq<DownloadRequest>,
    times: Seq<(Seq<u8>, Seq<u8>)>,
    i: int,
) -> (k: int)
    requires
        are_distinct(requests),
        is_walk(times, with_requests(requests).by_time),
        0 <= i < times.len(),
    ensures
        0 <= k < requests.len(),
        times[i].0 == time_key(requests[k]),
        times[i].1 == id_key(requests[k].request_id),
        with_requests(requests).by_id.dom().contains(id_key(requests[k].request_id)),
        with_requests(requests).by_id[id_key(requests[k].request_id)] == wishlist::request_value(
            requests[k],
        ),
{
    lemma_with_requests(requests);
    assert(with_requests(requests).by_time.dom().contains(times[i].0));
    let k = choose|k: int| 0 <= k < requests.len() && time_key(#[trigger] requests[k]) == times[i].0;
    assert(requests[k] == requests[k]);
    k
}

/// A change to the files that are requested.
pub enum FileChange {
    /// A file was added to a request.
    Added { file: RequestedFile, request: DownloadRequest },
    /// A file of a request was completely downloaded.
    Completed { file: RequestedFile, request: DownloadRequest },
}

impl FileChange {
    /// The file that the change is about.
    pub open spec fn file(self) -> RequestedFile {
        match self {
            FileChange::Added { file, .. } => file,
            FileChange::Completed { file, .. } => file,
        }
    }

    /// The request that the file belongs to.
    pub open spec fn request(self) -> DownloadRequest {
        match self {
            FileChange::Added { request, .. } => request,
            FileChange::Completed { request, .. } => request,
        }
    }

    /// The key of the file among those of the peer.
    pub open spec fn key(self) -> Seq<u8> {
        wishlist::by_peer_key(
            self.file(),
            self.request().peer_public_key@,
            self.request().timestamp,
        )
    }
}

/// The table of files by peer after some changes, one after the other.
pub open spec fn with_changes(changes: Seq<FileChange>) -> Map<Seq<u8>, Seq<u8>>
    decreases changes.len(),
{
    if changes.len() == 0 {
        Map::empty()
    } else {
        let before = with_changes(changes.drop_last());
        let change = changes.last();
        match change {
            FileChange::Added { file, .. } => before.insert(
                change.key(),
                wishlist::by_peer_value(file),
            ),
            FileChange::Completed { .. } => before.remove(change.key()),
        }
    }
}

/// Whether a change has added a file that is still requested: it was not completed since.
pub open spec fn is_outstanding(changes: Seq<FileChange>, i: int) -> bool {
    &&& 0 <= i < changes.len()
    &&& changes[i] is Added
    &&& forall|j: int|
        i < j < changes.len() && (#[trigger] changes[j]) is Completed ==> changes[j].key()
            != changes[i].key()
}

/// Whether no file was added twice: files of one peer differ in the second of their request or in
/// their path.
pub open spec fn each_added_once(changes: Seq<FileChange>) -> bool {
    forall|i: int, j: int|
        0 <= i < j < changes.len() && (#[trigger] changes[i]) is Added && (
        #[trigger] changes[j]) is Added ==> changes[i].key() != changes[j].key()
}

proof fn lemma_with_changes(changes: Seq<FileChange>)
    requires
        each_added_once(changes),
    ensures
        forall|i: int| #[trigger]
            is_outstanding(changes, i) ==> with_changes(changes).dom().contains(changes[i].key())
                && with_changes(changes)[changes[i].key()] == wishlist::by_peer_value(
                changes[i].file(),
            ),
        forall|key: Seq<u8>| #[trigger]
            with_changes(changes).dom().contains(key) ==> exists|i: int| #[trigger]
                is_outstanding(changes, i) && changes[i].key() == key,
    decreases changes.len(),
{
    if changes.len() > 0 {
        let rest = changes.drop_last();
        let n = changes.len() - 1;
        assert(changes[n] == changes.last());
        assert forall|i: int, j: int|
            0 <= i < j < rest.len() && (#[trigger] rest[i]) is Added && (
            #[trigger] rest[j]) is Added implies rest[i].key() != rest[j].key() by {
            assert(rest[i] == changes[i] && rest[j] == changes[j]);
        }
        lemma_with_changes(rest);
        assert forall|i: int| #[trigger] is_outstanding(changes, i) implies with_changes(
            changes,
        ).dom().contains(changes[i].key()) && with_changes(changes)[changes[i].key()]
            == wishlist::by_peer_value(changes[i].file()) by {
            if i < n {
                assert(rest[i] == changes[i]);
                assert(is_outstanding(rest, i)) by {
                    assert forall|j: int|
                        i < j < rest.len() && (#[trigger] rest[j]) is Completed implies rest[j].key()
                        != rest[i].key() by {
                        assert(changes[j] == rest[j]);
                    }
                }
                assert(changes[n] is Added ==> changes[i].key() != changes[n].key());
            }
        }
        assert forall|key: Seq<u8>| #[trigger] with_changes(changes).dom().contains(key) implies exists|
            i: int,
        | #[trigger] is_outstanding(changes, i) && changes[i].key() == key by {
            if changes[n] is Added && changes[n].key() == key {
                assert(is_outstanding(changes, n));
            } else {
                assert(with_changes(rest).dom().contains(key));
                let i = choose|i: int| #[trigger] is_outstanding(rest, i) && rest[i].key() == key;
                assert(changes[i] == rest[i]);
                assert(is_outstanding(changes, i)) by {
                    assert forall|j: int|
                        i < j < changes.len() && (#[trigger] changes[j]) is Completed implies changes[j].key()
                        != changes[i].key() by {
                        if j < n {
                            assert(rest[j] == changes[j]);
                        }
                    }
                }
            }
        }
    }
}

/// The part of a table under keys that begin with a peer's.
pub open spec fn of_peer(table: Map<Seq<u8>, Seq<u8>>, peer: Seq<u8>) -> Map<Seq<u8>, Seq<u8>> {
    table.restrict(
        table.dom().filter(
            |key: Seq<u8>| peer.len() <= key.len() && key.take(peer.len() as int) == peer,
        ),
    )
}

/// Whether one file comes before another: its request was made in an earlier second, or in the same
/// one and the bytes of its path come first.
pub open spec fn comes_before(a: FileChange, b: FileChange) -> bool {
    ||| a.request().timestamp.secs < b.request().timestamp.secs
    ||| a.request().timestamp.secs == b.request().timestamp.secs && text::bytes_less(
        encode_utf8(a.file().path@),
        encode_utf8(b.file().path@),
    )
}

/// Whether a list has a file as it was added.
pub open spec fn is_as_added(file: RequestedFile, change: FileChange) -> bool {
    &&& file.path@ == change.file().path@
    &&& file.size == change.file().size
    &&& file.request_id == change.file().request_id
    &&& !file.downloaded
}

/// Whether each file in a list is one that is still requested from a peer, where `sources` says
/// which, in their order, and none of these is missing.
pub open spec fn are_outstanding_files(
    files: Seq<RequestedFile>,
    sources: Seq<int>,
    changes: Seq<FileChange>,
    peer: Seq<u8>,
) -> bool {
    &&& sources.len() == files.len()
    &&& forall|i: int|
        0 <= i < files.len() ==> is_outstanding(changes, #[trigger] sources[i])
            && changes[sources[i]].request().peer_public_key@ == peer && is_as_added(
            files[i],
            changes[sources[i]],
        )
    &&& forall|i: int, j: int|
        0 <= i < j < files.len() ==> comes_before(
            changes[#[trigger] sources[i]],
            changes[#[trigger] sources[j]],
        )
    &&& forall|k: int| #[trigger]
        is_outstanding(changes, k) && changes[k].request().peer_public_key@ == peer
            ==> sources.contains(k)
}

proof fn lemma_all_files_read(rows: Seq<KeyValue>, files: Seq<RequestedFile>)
    requires
        wishlist::files_read(rows, files),
        forall|i: int| 0 <= i < rows.len() ==> valid_utf8((#[trigger] rows[i]).0@.skip(40)),
    ensures
        files.len() == rows.len(),
        forall|i: int|
            0 <= i < rows.len() ==> {
                &&& encode_utf8((#[trigger] files[i]).path@) == rows[i].0@.skip(40)
                &&& wishlist::by_peer_value(files[i]) == rows[i].1@.take(12)
                &&& !files[i].downloaded
            },
    decreases rows.len(),
{
    if rows.len() > 0 {
        let rest = rows.drop_last();
        assert(valid_utf8(rows[rows.len() - 1].0@.skip(40)));
        assert forall|i: int| 0 <= i < rest.len() implies valid_utf8((#[trigger] rest[i]).0@.skip(40)) by {
            assert(rest[i] == rows[i]);
        }
        let before = files.drop_last();
        lemma_all_files_read(rest, before);
        assert forall|i: int| 0 <= i < rows.len() implies {
            &&& encode_utf8((#[trigger] files[i]).path@) == rows[i].0@.skip(40)
            &&& wishlist::by_peer_value(files[i]) == rows[i].1@.take(12)
            &&& !files[i].downloaded
        } by {
            if i < rest.len() {
                assert(before[i] == files[i] && rest[i] == rows[i]);
            }
        }
    }
}

proof fn lemma_key_parts(change: FileChange)
    ensures
        change.key().len() >= 40,
        change.key().take(32) == change.request().peer_public_key@,
        change.key().skip(40) == encode_utf8(change.file().path@),
        valid_utf8(change.key().skip(40)),
        wishlist::by_peer_value(change.file()).len() == 12,
{
    bytes::lemma_be_bytes_len(change.request().timestamp.secs as nat, 8);
    bytes::lemma_be_bytes_len(change.file().request_id as nat, 4);
    bytes::lemma_be_bytes_len(change.file().size as nat, 8);
    assert(change.key().take(32) =~= change.request().peer_public_key@);
    assert(change.key().skip(40) =~= encode_utf8(change.file().path@));
    encode_utf8_valid_utf8(change.file().path@);
}

proof fn lemma_order_of_keys(a: FileChange, b: FileChange)
    requires
        a.request().peer_public_key@ == b.request().peer_public_key@,
    ensures
        text::bytes_less(a.key(), b.key()) == comes_before(a, b),
{
    let peer = a.request().peer_public_key@;
    let first = bytes::be_bytes(a.request().timestamp.secs as nat, 8);
    let second = bytes::be_bytes(b.request().timestamp.secs as nat, 8);
    let x = encode_utf8(a.file().path@);
    let y = encode_utf8(b.file().path@);
    bytes::lemma_byte_ranges();
    bytes::lemma_be_bytes_len(a.request().timestamp.secs as nat, 8);
    bytes::lemma_be_bytes_len(b.request().timestamp.secs as nat, 8);
    bytes::lemma_be_value_of_bytes(a.request().timestamp.secs as nat, 8);
    bytes::lemma_be_value_of_bytes(b.request().timestamp.secs as nat, 8);
    assert(a.key() =~= peer + (first + x));
    assert(b.key() =~= peer + (second + y));
    lemma_order_of_prefixed(peer, peer, first + x, second + y);
    lemma_order_of_prefixed(first, second, x, y);
    lemma_order_of_numbers(
        a.request().timestamp.secs as nat,
        b.request().timestamp.secs as nat,
        8,
    );
}

/// The files that are requested from a peer are exactly those that were added for it and have not
/// been completed, each once, in the order of the seconds of their requests and of their paths. None
/// is a file that was requested from another peer.
pub proof fn law_outstanding_files_of_a_peer(
    changes: Seq<FileChange>,
    peer: Seq<u8>,
    walk: Seq<(Seq<u8>, Seq<u8>)>,
    rows: Seq<KeyValue>,
    files: Seq<RequestedFile>,
) -> (sources: Seq<int>)
    requires
        each_added_once(changes),
        peer.len() == 32,
        is_walk(walk, of_peer(with_changes(changes), peer)),
        rows.len() == walk.len(),
        forall|i: int|
            0 <= i < rows.len() ==> (#[trigger] rows[i]).0@ == walk[i].0 && rows[i].1@ == walk[i].1,
        wishlist::files_read(rows, files),
    ensures
        are_outstanding_files(files, sources, changes, peer),
{
    lemma_with_changes(changes);
    let table = with_changes(changes);
    let sources = Seq::new(
        walk.len(),
        |i: int| choose|k: int| #[trigger] is_outstanding(changes, k) && changes[k].key() == walk[i].0,
    );
    assert forall|i: int| 0 <= i < rows.len() implies is_outstanding(changes, #[trigger] sources[i])
        && changes[sources[i]].key() == walk[i].0 && changes[sources[i]].request().peer_public_key@
        == peer && valid_utf8(rows[i].0@.skip(40)) && rows[i].1@ == wishlist::by_peer_value(
        changes[sources[i]].file(),
    ) && rows[i].1@.len() == 12 by {
        assert(of_peer(table, peer).dom().contains(walk[i].0));
        assert(table.dom().contains(walk[i].0));
        let k = sources[i];
        assert(is_outstanding(changes, k) && changes[k].key() == walk[i].0);
        lemma_key_parts(changes[k]);
        assert(rows[i].0@ == walk[i].0);
    }
    assert forall|i: int| 0 <= i < rows.len() implies valid_utf8((#[trigger] rows[i]).0@.skip(40)) by {
        assert(is_outstanding(changes, sources[i]));
    }
    lemma_all_files_read(rows, files);
    assert forall|i: int| 0 <= i < files.len() implies is_as_added(
        files[i],
        changes[#[trigger] sources[i]],
    ) by {
        let change = changes[sources[i]];
        lemma_key_parts(change);
        assert(rows[i].0@ == walk[i].0);
        assert(rows[i].1@.take(12) =~= rows[i].1@);
        encode_utf8_decode_utf8(files[i].path@);
        encode_utf8_decode_utf8(change.file().path@);
        lemma_value_parts(files[i]);
        lemma_value_parts(change.file());
    }
    assert forall|i: int, j: int| 0 <= i < j < files.len() implies comes_before(
        changes[#[trigger] sources[i]],
        changes[#[trigger] sources[j]],
    ) by {
        assert(text::bytes_less(walk[i].0, walk[j].0));
        lemma_order_of_keys(changes[sources[i]], changes[sources[j]]);
    }
    assert forall|k: int| #[trigger]
        is_outstanding(changes, k) && changes[k].request().peer_public_key@ == peer implies sources.contains(
        k,
    ) by {
        lemma_key_parts(changes[k]);
        let key = changes[k].key();
        assert(table.dom().contains(key));
        assert(of_peer(table, peer).dom().contains(key));
        let i = choose|i: int| 0 <= i < walk.len() && (#[trigger] walk[i]).0 == key;
        let l = sources[i];
        assert(is_outstanding(changes, l) && changes[l].key() == key);
        if l != k {
            let (a, b) = if l < k {
                (l, k)
            } else {
                (k, l)
            };
            assert(changes[a] is Added && changes[b] is Added);
        }
        assert(sources[i] == k);
    }
    sources
}

proof fn lemma_value_parts(file: RequestedFile)
    ensures
        bytes::be_value(wishlist::by_peer_value(file).take(4)) == file.request_id,
        bytes::be_value(wishlist::by_peer_value(file).skip(4)) == file.size,
{
    bytes::lemma_byte_ranges();
    bytes::lemma_be_bytes_len(file.request_id as nat, 4);
    bytes::lemma_be_value_of_bytes(file.request_id as nat, 4);
    bytes::lemma_be_value_of_bytes(file.size as nat, 8);
    assert(wishlist::by_peer_value(file).take(4) =~= bytes::be_bytes(file.request_id as nat, 4));
    assert(wishlist::by_peer_value(file).skip(4) =~= bytes::be_bytes(file.size as nat, 8));
}

} // verus!
