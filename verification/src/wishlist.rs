//! Track requested and downloaded files
use crate::bytes;
use crate::bytes::{append_bytes, copy_of, copy_range, from_be_bytes, to_array_32, to_be_bytes};
use crate::chunker;
use crate::chunker::{Chunker, MAX_ENTRIES_PER_MESSAGE};
use crate::peer_id::PeerId;
use crate::text;
use crate::text::{string_from_utf8, utf8_bytes};
use crate::time::{Duration, get_timestamp};
use crate::ui_messages;
use crate::ui_messages::{PeerInfo, UiDownloadRequest, UiRequestedFile};
use vstd::prelude::*;
use vstd::utf8::*;

verus! {

/// A key of the database and its value.
pub type KeyValue = (Vec<u8>, Vec<u8>);

/// What is wrong with a record or a request.
#[derive(PartialEq, Debug, Clone)]
pub enum WishListError {
    KeyLength,
    ValueLength,
    Utf8(String),
    NotDownloaded,
    UnknownRequestId,
    BadProgress,
}

impl WishListError {
    /// What the error prints.
    pub open spec fn message(self) -> Seq<char> {
        match self {
            WishListError::KeyLength => "Unexpected key length (should be 4 bytes)"@,
            WishListError::ValueLength => "Unexpected value length (should be at least 48 bytes)"@,
            WishListError::Utf8(error) => error@,
            WishListError::NotDownloaded => "File not marked as downloaded"@,
            WishListError::UnknownRequestId => "Unknown request ID"@,
            WishListError::BadProgress => "Bad existing bytes entry"@,
        }
    }

    /// The error as text.
    pub fn to_string(&self) -> (r: String)
        ensures
            r@ == self.message(),
    {
        match self {
            WishListError::KeyLength => "Unexpected key length (should be 4 bytes)".to_owned(),
            WishListError::ValueLength => "Unexpected value length (should be at least 48 bytes)".to_owned(),
            WishListError::Utf8(error) => error.clone(),
            WishListError::NotDownloaded => "File not marked as downloaded".to_owned(),
            WishListError::UnknownRequestId => "Unknown request ID".to_owned(),
            WishListError::BadProgress => "Bad existing bytes entry".to_owned(),
        }
    }
}

/// A requested file or directory, with a unique request id
/// If this is a directory, it may be composed of more than one [RequestedFile]
#[derive(PartialEq, Debug, Clone)]
pub struct DownloadRequest {
    /// The path of the file or directory on the remote
    pub path: String,
    /// The total size in bytes
    pub total_size: u64,
    /// Identifier for this request
    pub request_id: u32,
    /// Time when request made relative to unix epoch
    pub timestamp: Duration,
    /// Public key of peer holding file
    pub peer_public_key: [u8; 32],
}

/// The value under which a request is stored:
/// `<timestamp><total_size><peer_public_key><requested_path>`
pub open spec fn request_value(request: DownloadRequest) -> Seq<u8> {
    bytes::be_bytes(request.timestamp.secs as nat, 8) + bytes::be_bytes(request.total_size as nat, 8)
        + request.peer_public_key@ + encode_utf8(request.path@)
}

/// The value of a completed request: `<timestamp><peer_public_key><total_size><path>`
pub open spec fn completed_request_value(request: DownloadRequest) -> Seq<u8> {
    bytes::be_bytes(request.timestamp.secs as nat, 8) + request.peer_public_key@ + bytes::be_bytes(
        request.total_size as nat,
        8,
    ) + encode_utf8(request.path@)
}

fn u64_at(bytes: &[u8], at: usize) -> (r: u64)
    requires
        at + 8 <= bytes@.len(),
    ensures
        bytes::be_bytes(r as nat, 8) == bytes@.subrange(at as int, at + 8),
{
    let length: usize = bytes.len();
    assert(at + 8 <= length);
    let part = copy_range(bytes, at, at + 8);
    proof {
        bytes::lemma_byte_ranges();
        bytes::lemma_be_bytes_of_value(part@);
    }
    from_be_bytes(part.as_slice()) as u64
}

fn u32_at(bytes: &[u8], at: usize) -> (r: u32)
    requires
        at + 4 <= bytes@.len(),
    ensures
        bytes::be_bytes(r as nat, 4) == bytes@.subrange(at as int, at + 4),
{
    let length: usize = bytes.len();
    assert(at + 4 <= length);
    let part = copy_range(bytes, at, at + 4);
    proof {
        bytes::lemma_byte_ranges();
        bytes::lemma_be_bytes_of_value(part@);
    }
    from_be_bytes(part.as_slice()) as u32
}

impl DownloadRequest {
    /// A request that is made at a time, which is kept in whole seconds.
    pub fn new_at(
        path: String,
        total_size: u64,
        request_id: u32,
        peer_public_key: [u8; 32],
        now: Duration,
    ) -> (r: DownloadRequest)
        ensures
            r.path == path,
            r.total_size == total_size,
            r.request_id == request_id,
            r.peer_public_key == peer_public_key,
            r.timestamp == (Duration { secs: now.secs, nanos: 0 }),
    {
        DownloadRequest {
            path,
            total_size,
            request_id,
            timestamp: Duration::from_secs(now.as_secs()),
            peer_public_key,
        }
    }

    /// A request that is made now.
    pub fn new(path: String, total_size: u64, request_id: u32, peer_public_key: [u8; 32]) -> (r:
        DownloadRequest)
        ensures
            r.path == path,
            r.total_size == total_size,
            r.request_id == request_id,
            r.peer_public_key == peer_public_key,
            r.timestamp.nanos == 0,
    {
        // Ignore nanoseconds
        let now = get_timestamp();
        DownloadRequest::new_at(path, total_size, request_id, peer_public_key, now)
    }

    /// Given a serialized db entry, make a DownloadRequest
    /// key: `<request_id>` value: `<timestamp><total_size><peer_public_key><requested_path>`
    pub fn from_db_key_value(key: Vec<u8>, value: Vec<u8>) -> (r: Result<
        DownloadRequest,
        WishListError,
    >)
        ensures
            match r {
                Ok(request) => {
                    &&& key@ == bytes::be_bytes(request.request_id as nat, 4)
                    &&& value@ == request_value(request)
                    &&& request.timestamp.nanos == 0
                },
                Err(WishListError::KeyLength) => key@.len() != 4,
                Err(WishListError::ValueLength) => key@.len() == 4 && value@.len() < 48,
                Err(WishListError::Utf8(error)) => key@.len() == 4 && value@.len() >= 48
                    && !valid_utf8(value@.skip(48)) && error@ == text::utf8_error(value@.skip(48)),
                Err(_) => false,
            },
    {
        if key.len() != 4 {
            return Err(WishListError::KeyLength);
        }
        if value.len() < 8 + 8 + 32 {
            return Err(WishListError::ValueLength);
        }
        let request_id = u32_at(key.as_slice(), 0);
        assert(key@.subrange(0, 4) =~= key@);
        let timestamp_secs = u64_at(value.as_slice(), 0);
        let total_size = u64_at(value.as_slice(), 8);
        let key_bytes = copy_range(value.as_slice(), 16, 48);
        let path_bytes = copy_range(value.as_slice(), 48, value.len());
        assert(path_bytes@ =~= value@.skip(48));
        match string_from_utf8(path_bytes) {
            Ok(path) => {
                let request = DownloadRequest {
                    path,
                    total_size,
                    request_id,
                    timestamp: Duration::from_secs(timestamp_secs),
                    peer_public_key: to_array_32(key_bytes.as_slice()),
                };
                proof {
                    decode_utf8_encode_utf8(path_bytes@);
                    assert(value@ =~= request_value(request));
                }
                Ok(request)
            },
            Err(error) => Err(WishListError::Utf8(error)),
        }
    }

    /// Convert to a db entry for both 'by request_id' and 'by timestamp'
    ///
    /// key: `<request_id>` value: `<timestamp><total_size><peer_public_key><requested_path>`
    /// key: `<timestamp>` value: `<request_id>`
    pub fn to_db_key_value(&self) -> (r: (KeyValue, KeyValue))
        ensures
            r.0.0@ == bytes::be_bytes(self.request_id as nat, 4),
            r.0.1@ == request_value(*self),
            r.1.0@ == bytes::be_bytes(self.timestamp.secs as nat, 8),
            r.1.1@ == bytes::be_bytes(self.request_id as nat, 4),
    {
        let mut value1 = to_be_bytes(self.timestamp.as_secs() as u128, 8);
        append_bytes(&mut value1, to_be_bytes(self.total_size as u128, 8).as_slice());
        append_bytes(&mut value1, self.peer_public_key.as_slice());
        append_bytes(&mut value1, utf8_bytes(self.path.as_str()).as_slice());
        let kv1 = (to_be_bytes(self.request_id as u128, 4), value1);
        let kv2 = (
            to_be_bytes(self.timestamp.as_secs() as u128, 8),
            to_be_bytes(self.request_id as u128, 4),
        );
        (kv1, kv2)
    }

    /// Given a completed requests db record, create a download request
    ///
    /// key: `<request_id>` value: `<timestamp><peer_public_key><total_size><path>`
    pub fn from_completed_requests_db_key_value(key: Vec<u8>, value: Vec<u8>) -> (r: Result<
        DownloadRequest,
        WishListError,
    >)
        requires
            key@.len() >= 4,
            value@.len() >= 48,
        ensures
            match r {
                Ok(request) => {
                    &&& key@.take(4) == bytes::be_bytes(request.request_id as nat, 4)
                    &&& value@ == completed_request_value(request)
                    &&& request.timestamp.nanos == 0
                },
                Err(WishListError::Utf8(error)) => !valid_utf8(value@.skip(48)) && error@
                    == text::utf8_error(value@.skip(48)),
                Err(_) => false,
            },
    {
        let request_id = u32_at(key.as_slice(), 0);
        assert(key@.subrange(0, 4) =~= key@.take(4));
        let timestamp_secs = u64_at(value.as_slice(), 0);
        let key_bytes = copy_range(value.as_slice(), 8, 40);
        let total_size = u64_at(value.as_slice(), 40);
        let path_bytes = copy_range(value.as_slice(), 48, value.len());
        assert(path_bytes@ =~= value@.skip(48));
        match string_from_utf8(path_bytes) {
            Ok(path) => {
                let request = DownloadRequest {
                    path,
                    total_size,
                    request_id,
                    timestamp: Duration::from_secs(timestamp_secs),
                    peer_public_key: to_array_32(key_bytes.as_slice()),
                };
                proof {
                    decode_utf8_encode_utf8(path_bytes@);
                    assert(value@ =~= completed_request_value(request));
                }
                Ok(request)
            },
            Err(error) => Err(WishListError::Utf8(error)),
        }
    }

    /// The request as a user interface shows it.
    pub fn into_ui_download_request(self, progress: u64) -> (r: UiDownloadRequest)
        ensures
            is_shown_as(self, progress, r),
    {
        let id = PeerId::new(self.peer_public_key);
        UiDownloadRequest {
            path: self.path,
            total_size: self.total_size,
            request_id: self.request_id,
            timestamp: self.timestamp,
            peer: PeerInfo::from_id(id),
            progress,
        }
    }
}

/// Whether a user interface shows a request like this.
pub open spec fn is_shown_as(
    request: DownloadRequest,
    progress: u64,
    shown: UiDownloadRequest,
) -> bool {
    &&& shown.path@ == request.path@
    &&& shown.total_size == request.total_size
    &&& shown.request_id == request.request_id
    &&& shown.timestamp == request.timestamp
    &&& shown.peer.id@ == request.peer_public_key@
    &&& shown.peer.name@ == ui_messages::peer_label(request.peer_public_key@)
    &&& shown.progress == progress
}

/// A request that is read back is the one that was stored, but for the part of its time below a
/// second, which is not stored.
pub proof fn law_request_record_round_trip(stored: DownloadRequest, read: DownloadRequest)
    requires
        bytes::be_bytes(read.request_id as nat, 4) == bytes::be_bytes(stored.request_id as nat, 4),
        request_value(read) == request_value(stored),
        read.timestamp.nanos == 0,
    ensures
        read.request_id == stored.request_id,
        read.path@ == stored.path@,
        read.total_size == stored.total_size,
        read.timestamp == (Duration { secs: stored.timestamp.secs, nanos: 0 }),
        read.peer_public_key == stored.peer_public_key,
{
    let v = request_value(stored);
    lemma_request_parts(stored);
    lemma_request_parts(read);
    bytes::lemma_byte_ranges();
    bytes::lemma_be_value_of_bytes(read.request_id as nat, 4);
    bytes::lemma_be_value_of_bytes(stored.request_id as nat, 4);
    assert(read.peer_public_key =~= stored.peer_public_key);
}

proof fn lemma_request_parts(request: DownloadRequest)
    ensures
        ({
            let v = request_value(request);
            &&& v.len() >= 48
            &&& bytes::be_value(v.subrange(0, 8)) == request.timestamp.secs
            &&& bytes::be_value(v.subrange(8, 16)) == request.total_size
            &&& v.subrange(16, 48) == request.peer_public_key@
            &&& decode_utf8(v.skip(48)) == request.path@
        }),
{
    let v = request_value(request);
    bytes::lemma_byte_ranges();
    bytes::lemma_be_bytes_len(request.timestamp.secs as nat, 8);
    bytes::lemma_be_bytes_len(request.total_size as nat, 8);
    bytes::lemma_be_value_of_bytes(request.timestamp.secs as nat, 8);
    bytes::lemma_be_value_of_bytes(request.total_size as nat, 8);
    assert(v.subrange(0, 8) =~= bytes::be_bytes(request.timestamp.secs as nat, 8));
    assert(v.subrange(8, 16) =~= bytes::be_bytes(request.total_size as nat, 8));
    assert(v.subrange(16, 48) =~= request.peer_public_key@);
    assert(v.skip(48) =~= encode_utf8(request.path@));
    encode_utf8_decode_utf8(request.path@);
}

/// A requested file
#[derive(PartialEq, Debug, Clone)]
pub struct RequestedFile {
    /// The path of the file on the remote
    pub path: String,
    /// The size in bytes
    pub size: u64,
    /// This id is not unique - it references which request this came from
    /// requesting a directory will be split into requests for each file
    pub request_id: u32,
    pub downloaded: bool,
}

/// The key of a file among those of a peer: `<peer_public_key><timestamp><path>`
pub open spec fn by_peer_key(file: RequestedFile, peer: Seq<u8>, timestamp: Duration) -> Seq<u8> {
    peer + bytes::be_bytes(timestamp.secs as nat, 8) + encode_utf8(file.path@)
}

/// The value of a file among those of a peer: `<request_id><size>`
pub open spec fn by_peer_value(file: RequestedFile) -> Seq<u8> {
    bytes::be_bytes(file.request_id as nat, 4) + bytes::be_bytes(file.size as nat, 8)
}

/// The key of a file among those of a request: `<requestid><path>`
pub open spec fn by_request_key(file: RequestedFile) -> Seq<u8> {
    bytes::be_bytes(file.request_id as nat, 4) + encode_utf8(file.path@)
}

/// The value of a file among those of a request: `<size><downloaded>`
pub open spec fn by_request_value(file: RequestedFile) -> Seq<u8> {
    bytes::be_bytes(file.size as nat, 8).push(if file.downloaded {
        1u8
    } else {
        0u8
    })
}

impl RequestedFile {
    /// Given a serialized wishlist db entry, make a [RequestedFile]
    /// key: `<peer_public_key><timestamp><path>` value: `<request_id><size>`
    pub fn from_db_key_value(key: Vec<u8>, value: Vec<u8>) -> (r: Result<
        RequestedFile,
        WishListError,
    >)
        requires
            key@.len() >= 40,
            value@.len() >= 12,
        ensures
            match r {
                Ok(file) => {
                    &&& key@.skip(40) == encode_utf8(file.path@)
                    &&& value@.take(12) == by_peer_value(file)
                    &&& !file.downloaded
                },
                Err(WishListError::Utf8(error)) => !valid_utf8(key@.skip(40)) && error@
                    == text::utf8_error(key@.skip(40)),
                Err(_) => false,
            },
    {
        let path_bytes = copy_range(key.as_slice(), 40, key.len());
        assert(path_bytes@ =~= key@.skip(40));
        match string_from_utf8(path_bytes) {
            Ok(path) => {
                let request_id = u32_at(value.as_slice(), 0);
                let size = u64_at(value.as_slice(), 4);
                let file = RequestedFile { path, size, request_id, downloaded: false };
                proof {
                    decode_utf8_encode_utf8(path_bytes@);
                    assert(value@.take(12) =~= by_peer_value(file));
                }
                Ok(file)
            },
            Err(error) => Err(WishListError::Utf8(error)),
        }
    }

    /// key2: `<requestid><path>` value2: `<size><downloaded>`
    pub fn from_db_by_request_id_key_value(key: Vec<u8>, value: Vec<u8>) -> (r: Result<
        RequestedFile,
        WishListError,
    >)
        requires
            key@.len() >= 4,
            value@.len() >= 9,
        ensures
            match r {
                Ok(file) => {
                    &&& key@ == by_request_key(file)
                    &&& value@.take(8) == bytes::be_bytes(file.size as nat, 8)
                    &&& file.downloaded == (value@[8] == 1)
                },
                Err(WishListError::Utf8(error)) => !valid_utf8(key@.skip(4)) && error@
                    == text::utf8_error(key@.skip(4)),
                Err(_) => false,
            },
    {
        let request_id = u32_at(key.as_slice(), 0);
        let path_bytes = copy_range(key.as_slice(), 4, key.len());
        assert(path_bytes@ =~= key@.skip(4));
        match string_from_utf8(path_bytes) {
            Ok(path) => {
                let size = u64_at(value.as_slice(), 0);
                assert(value@.subrange(0, 8) =~= value@.take(8));
                let downloaded = value[8] == 1;
                let file = RequestedFile { path, size, request_id, downloaded };
                proof {
                    decode_utf8_encode_utf8(path_bytes@);
                    assert(key@ =~= by_request_key(file));
                }
                Ok(file)
            },
            Err(error) => Err(WishListError::Utf8(error)),
        }
    }

    /// Convert to a db entry for both 'by peer' and 'by request id'
    ///
    /// key: `<peer_public_key><timestamp><path>` value: `<request_id><size>`
    /// key2: `<requestid><path>` value2: `<size><downloaded>`
    pub fn to_db_key_value(&self, peer_public_key: [u8; 32], timestamp: Duration) -> (r: (
        KeyValue,
        KeyValue,
    ))
        ensures
            r.0.0@ == by_peer_key(*self, peer_public_key@, timestamp),
            r.0.1@ == by_peer_value(*self),
            r.1.0@ == by_request_key(*self),
            r.1.1@ == by_request_value(*self),
    {
        let path_bytes = utf8_bytes(self.path.as_str());
        let mut key = copy_range(peer_public_key.as_slice(), 0, 32);
        assert(key@ =~= peer_public_key@);
        append_bytes(&mut key, to_be_bytes(timestamp.as_secs() as u128, 8).as_slice());
        append_bytes(&mut key, path_bytes.as_slice());
        let mut value = to_be_bytes(self.request_id as u128, 4);
        append_bytes(&mut value, to_be_bytes(self.size as u128, 8).as_slice());
        let mut key2 = to_be_bytes(self.request_id as u128, 4);
        append_bytes(&mut key2, path_bytes.as_slice());
        let mut value2 = to_be_bytes(self.size as u128, 8);
        value2.push(
            if self.downloaded {
                1
            } else {
                0
            },
        );
        ((key, value), (key2, value2))
    }

    /// The file as a user interface shows it.
    pub fn into_ui_requested_file(self) -> (r: UiRequestedFile)
        ensures
            r.path == self.path,
            r.size == self.size,
            r.request_id == self.request_id,
            r.downloaded == self.downloaded,
    {
        UiRequestedFile {
            path: self.path,
            size: self.size,
            request_id: self.request_id,
            downloaded: self.downloaded,
        }
    }
}

/// A file that is read back by its request is the one that was stored.
pub proof fn law_file_record_round_trip(stored: RequestedFile, read: RequestedFile)
    requires
        by_request_key(read) == by_request_key(stored),
        by_request_value(read) == by_request_value(stored),
    ensures
        read.path@ == stored.path@,
        read.size == stored.size,
        read.request_id == stored.request_id,
        read.downloaded == stored.downloaded,
{
    lemma_file_parts(stored);
    lemma_file_parts(read);
}

proof fn lemma_file_parts(file: RequestedFile)
    ensures
        bytes::be_value(by_request_key(file).subrange(0, 4)) == file.request_id,
        decode_utf8(by_request_key(file).skip(4)) == file.path@,
        bytes::be_value(by_request_value(file).subrange(0, 8)) == file.size,
        by_request_value(file).last() == if file.downloaded {
            1u8
        } else {
            0u8
        },
{
    bytes::lemma_byte_ranges();
    bytes::lemma_be_bytes_len(file.request_id as nat, 4);
    bytes::lemma_be_value_of_bytes(file.request_id as nat, 4);
    bytes::lemma_be_bytes_len(file.size as nat, 8);
    bytes::lemma_be_value_of_bytes(file.size as nat, 8);
    assert(by_request_key(file).subrange(0, 4) =~= bytes::be_bytes(file.request_id as nat, 4));
    assert(by_request_key(file).skip(4) =~= encode_utf8(file.path@));
    assert(by_request_value(file).subrange(0, 8) =~= bytes::be_bytes(file.size as nat, 8));
    encode_utf8_decode_utf8(file.path@);
}

/// The bytes downloaded so far that a progress record stands for. Without a record it is none.
pub open spec fn progress_of(record: Option<Vec<u8>>) -> Option<nat> {
    match record {
        Some(bytes) => if bytes@.len() == 8 {
            Some(bytes::be_value(bytes@))
        } else {
            None
        },
        None => Some(0),
    }
}

/// Whether a stored record is that of a request.
pub open spec fn is_request_record(key: Seq<u8>, value: Seq<u8>) -> bool {
    key.len() == 4 && value.len() >= 48 && valid_utf8(value.skip(48))
}

/// Given a progress record, return the number of bytes downloaded so far
pub fn get_download_progress_for_request(record: &Option<Vec<u8>>) -> (r: Result<
    u64,
    WishListError,
>)
    ensures
        match r {
            Ok(progress) => progress_of(*record) == Some(progress as nat),
            Err(error) => error == WishListError::BadProgress && progress_of(*record) is None,
        },
{
    match record {
        Some(existing) => {
            if existing.len() != 8 {
                return Err(WishListError::BadProgress);
            }
            proof {
                bytes::lemma_byte_ranges();
                bytes::lemma_be_bytes_of_value(existing@);
            }
            Ok(from_be_bytes(existing.as_slice()) as u64)
        },
        None => Ok(0),
    }
}

/// Given a request id and the record that is stored under it, return a request
pub fn get_request(request_id: u32, record: Option<Vec<u8>>) -> (r: Result<
    DownloadRequest,
    WishListError,
>)
    ensures
        match r {
            Ok(request) => {
                &&& record matches Some(value) && value@ == request_value(request)
                &&& request.request_id == request_id
                &&& request.timestamp.nanos == 0
            },
            Err(WishListError::UnknownRequestId) => record is None,
            Err(WishListError::ValueLength) => record is Some && record->Some_0@.len() < 48,
            Err(WishListError::Utf8(error)) => record is Some && record->Some_0@.len() >= 48
                && !valid_utf8(record->Some_0@.skip(48)) && error@ == text::utf8_error(
                record->Some_0@.skip(48),
            ),
            Err(_) => false,
        },
{
    match record {
        Some(value) => {
            let key = to_be_bytes(request_id as u128, 4);
            proof {
                bytes::lemma_byte_ranges();
                bytes::lemma_be_bytes_len(request_id as nat, 4);
                bytes::lemma_be_value_of_bytes(request_id as nat, 4);
            }
            let r = DownloadRequest::from_db_key_value(key, value);
            proof {
                if r is Ok {
                    bytes::lemma_be_value_of_bytes(r->Ok_0.request_id as nat, 4);
                }
            }
            r
        },
        None => Err(WishListError::UnknownRequestId),
    }
}

/// The records of a file that is added to a request. Takes the record of the request, so the
/// request has to be stored first.
pub fn add_requested_file(requested_file: &RequestedFile, request_record: Option<Vec<u8>>) -> (r:
    Result<(KeyValue, KeyValue), WishListError>)
    ensures
        match r {
            Ok(records) => exists|request: DownloadRequest| #[trigger]
                request_value(request) == request_record->Some_0@ && request_record is Some
                    && records.0.0@ == by_peer_key(
                    *requested_file,
                    request.peer_public_key@,
                    request.timestamp,
                ) && records.0.1@ == by_peer_value(*requested_file) && records.1.0@
                    == by_request_key(*requested_file) && records.1.1@ == by_request_value(
                    *requested_file,
                ),
            Err(WishListError::UnknownRequestId) => request_record is None,
            Err(WishListError::ValueLength) => request_record is Some
                && request_record->Some_0@.len() < 48,
            Err(WishListError::Utf8(error)) => request_record is Some
                && request_record->Some_0@.len() >= 48 && !valid_utf8(
                request_record->Some_0@.skip(48),
            ) && error@ == text::utf8_error(request_record->Some_0@.skip(48)),
            Err(_) => false,
        },
{
    match get_request(requested_file.request_id, request_record) {
        Ok(request) => {
            let r = requested_file.to_db_key_value(request.peer_public_key, request.timestamp);
            assert(request_value(request) == request_record->Some_0@);
            Ok(r)
        },
        Err(error) => Err(error),
    }
}

/// The changes that go with a file that is completely downloaded.
pub struct FileCompleted {
    /// The key to remove from the files of the peer.
    pub by_peer_key: Vec<u8>,
    /// The progress of the request.
    pub progress: KeyValue,
    /// The file among those of the request, marked as downloaded.
    pub by_request: KeyValue,
    /// Whether this was the last file of the request.
    pub request_complete: bool,
}

/// Whether a request is complete once a file of some size is downloaded.
pub open spec fn completes(progress: nat, size: u64, total_size: u64) -> bool {
    progress + size == total_size
}

/// The bytes in some files.
pub open spec fn sum_of_sizes(sizes: Seq<u64>) -> nat
    decreases sizes.len(),
{
    if sizes.len() == 0 {
        0
    } else {
        sum_of_sizes(sizes.drop_last()) + sizes.last() as nat
    }
}

proof fn lemma_sum_of_fewer(sizes: Seq<u64>, k: int)
    requires
        0 <= k <= sizes.len(),
    ensures
        sum_of_sizes(sizes.take(k)) <= sum_of_sizes(sizes),
        k < sizes.len() && sizes.last() > 0 ==> sum_of_sizes(sizes.take(k)) < sum_of_sizes(sizes),
    decreases sizes.len(),
{
    if k < sizes.len() {
        assert(sizes.take(k) =~= sizes.drop_last().take(k));
        lemma_sum_of_fewer(sizes.drop_last(), k);
    } else {
        assert(sizes.take(k) =~= sizes);
    }
}

/// A request is complete with the last of its files, and not before: the total size of the request
/// is that of its files, and the last of them is not empty.
pub proof fn law_request_completes_with_its_last_file(sizes: Seq<u64>, total_size: u64, k: int)
    requires
        sum_of_sizes(sizes) == total_size,
        sizes.len() > 0,
        sizes.last() > 0,
        0 <= k < sizes.len(),
    ensures
        completes(sum_of_sizes(sizes.take(k)), sizes[k], total_size) <==> k == sizes.len() - 1,
{
    let with_next = sizes.take(k + 1);
    assert(with_next.drop_last() =~= sizes.take(k));
    assert(sum_of_sizes(with_next) == sum_of_sizes(sizes.take(k)) + sizes[k]);
    if k == sizes.len() - 1 {
        assert(with_next =~= sizes);
    } else {
        lemma_sum_of_fewer(sizes, k + 1);
    }
}

/// A file that is downloaded is no longer requested: the key that goes is the one under which the
/// file was added, as long as the record of its request stays the same.
pub proof fn law_completing_takes_back_what_was_added(
    added: RequestedFile,
    added_for: DownloadRequest,
    completed: RequestedFile,
    completed_for: DownloadRequest,
)
    requires
        completed == (RequestedFile { downloaded: true, ..added }),
        request_value(added_for) == request_value(completed_for),
    ensures
        by_peer_key(completed, completed_for.peer_public_key@, completed_for.timestamp)
            == by_peer_key(added, added_for.peer_public_key@, added_for.timestamp),
        by_request_key(completed) == by_request_key(added),
{
    lemma_request_parts(added_for);
    lemma_request_parts(completed_for);
}

/// Progress that is stored is read back.
pub proof fn law_progress_round_trip(progress: u64, record: Vec<u8>)
    requires
        record@ == bytes::be_bytes(progress as nat, 8),
    ensures
        progress_of(Some(record)) == Some(progress as nat),
{
    bytes::lemma_byte_ranges();
    bytes::lemma_be_bytes_len(progress as nat, 8);
    bytes::lemma_be_value_of_bytes(progress as nat, 8);
}

/// Mark a particular requested file as completely downloaded. Takes the record of its request and
/// that of the progress of the request.
pub fn file_completed(
    requested_file: &RequestedFile,
    request_record: Option<Vec<u8>>,
    progress_record: &Option<Vec<u8>>,
) -> (r: Result<FileCompleted, WishListError>)
    requires
        progress_of(*progress_record) matches Some(progress) ==> progress + requested_file.size
            <= u64::MAX,
    ensures
        match r {
            Ok(changes) => exists|request: DownloadRequest| #[trigger]
                request_value(request) == request_record->Some_0@ && request_record is Some
                    && requested_file.downloaded && progress_of(*progress_record) is Some
                    && changes.by_peer_key@ == by_peer_key(
                    *requested_file,
                    request.peer_public_key@,
                    request.timestamp,
                ) && changes.progress.0@ == bytes::be_bytes(requested_file.request_id as nat, 4)
                    && changes.progress.1@ == bytes::be_bytes(
                    progress_of(*progress_record)->Some_0 + requested_file.size as nat,
                    8,
                ) && changes.by_request.0@ == by_request_key(*requested_file)
                    && changes.by_request.1@ == by_request_value(*requested_file)
                    && changes.request_complete == completes(
                    progress_of(*progress_record)->Some_0,
                    requested_file.size,
                    request.total_size,
                ),
            Err(WishListError::NotDownloaded) => !requested_file.downloaded,
            Err(WishListError::UnknownRequestId) => requested_file.downloaded && request_record
                is None,
            Err(WishListError::BadProgress) => {
                &&& requested_file.downloaded
                &&& request_record is Some
                &&& request_record->Some_0@.len() >= 48
                &&& valid_utf8(request_record->Some_0@.skip(48))
                &&& progress_of(*progress_record) is None
            },
            Err(WishListError::ValueLength) => {
                &&& requested_file.downloaded
                &&& request_record is Some
                &&& request_record->Some_0@.len() < 48
            },
            Err(WishListError::Utf8(error)) => {
                &&& requested_file.downloaded
                &&& request_record is Some
                &&& request_record->Some_0@.len() >= 48
                &&& !valid_utf8(request_record->Some_0@.skip(48))
                &&& error@ == text::utf8_error(request_record->Some_0@.skip(48))
            },
            Err(_) => false,
        },
{
    if !requested_file.downloaded {
        return Err(WishListError::NotDownloaded);
    }
    let ghost record = request_record;
    let request = match get_request(requested_file.request_id, request_record) {
        Ok(request) => request,
        Err(error) => {
            return Err(error);
        },
    };
    proof {
        lemma_request_parts(request);
        assert(record->Some_0@.skip(48) =~= encode_utf8(request.path@)) by {
            bytes::lemma_be_bytes_len(request.timestamp.secs as nat, 8);
            bytes::lemma_be_bytes_len(request.total_size as nat, 8);
        }
        encode_utf8_valid_utf8(request.path@);
    }
    let ((key, _value), by_request) = requested_file.to_db_key_value(
        request.peer_public_key,
        request.timestamp,
    );
    // Update download progress
    match get_download_progress_for_request(progress_record) {
        Ok(existing) => {
            let updated: u64 = existing + requested_file.size;
            let progress = (
                to_be_bytes(requested_file.request_id as u128, 4),
                to_be_bytes(updated as u128, 8),
            );
            let changes = FileCompleted {
                by_peer_key: key,
                progress,
                by_request,
                // Check if this was the last file associatd with this download request
                request_complete: updated == request.total_size,
            };
            assert(request_value(request) == record->Some_0@);
            Ok(changes)
        },
        Err(error) => Err(error),
    }
}

/// A request as it is found by its time: its id, its record and that of its progress.
pub struct RequestRow {
    pub request_id: Vec<u8>,
    pub details: Option<Vec<u8>>,
    pub progress: Option<Vec<u8>>,
}

impl RequestRow {
    /// Whether the row is that of a request.
    pub open spec fn is_request(self) -> bool {
        &&& self.details is Some
        &&& is_request_record(self.request_id@, self.details->Some_0@)
        &&& progress_of(self.progress) is Some
    }

    /// Whether a user interface shows the row like this.
    pub open spec fn shows(self, shown: UiDownloadRequest) -> bool {
        exists|request: DownloadRequest| #[trigger]
            request_value(request) == self.details->Some_0@ && self.request_id@ == bytes::be_bytes(
                request.request_id as nat,
                4,
            ) && request.timestamp.nanos == 0 && is_shown_as(
                request,
                progress_of(self.progress)->Some_0 as u64,
                shown,
            )
    }
}

/// Whether a list shows the rows that are those of requests, in their order.
pub open spec fn rows_shown(rows: Seq<RequestRow>, shown: Seq<UiDownloadRequest>) -> bool
    decreases rows.len(),
{
    if rows.len() == 0 {
        shown.len() == 0
    } else if rows.last().is_request() {
        shown.len() > 0 && rows.last().shows(shown.last()) && rows_shown(
            rows.drop_last(),
            shown.drop_last(),
        )
    } else {
        rows_shown(rows.drop_last(), shown)
    }
}

fn show_row(row: &RequestRow) -> (r: Option<UiDownloadRequest>)
    ensures
        match r {
            Some(shown) => row.is_request() && row.shows(shown),
            None => !row.is_request(),
        },
{
    match &row.details {
        Some(details) => {
            match DownloadRequest::from_db_key_value(
                copy_range(row.request_id.as_slice(), 0, row.request_id.len()),
                copy_range(details.as_slice(), 0, details.len()),
            ) {
                Ok(request) => {
                    proof {
                        assert(details@.subrange(0, details@.len() as int) =~= details@);
                        assert(row.request_id@.subrange(0, row.request_id@.len() as int)
                            =~= row.request_id@);
                        lemma_request_parts(request);
                        bytes::lemma_be_bytes_len(request.request_id as nat, 4);
                        assert(details@.skip(48) =~= encode_utf8(request.path@)) by {
                            bytes::lemma_be_bytes_len(request.timestamp.secs as nat, 8);
                            bytes::lemma_be_bytes_len(request.total_size as nat, 8);
                        }
                        encode_utf8_valid_utf8(request.path@);
                    }
                    match get_download_progress_for_request(&row.progress) {
                        Ok(progress) => {
                            let ghost kept = request;
                            let shown = request.into_ui_download_request(progress);
                            assert(request_value(kept) == details@);
                            Some(shown)
                        },
                        Err(_) => None,
                    }
                },
                Err(_) => {
                    assert(details@.subrange(0, details@.len() as int) =~= details@);
                    assert(row.request_id@.subrange(0, row.request_id@.len() as int)
                        =~= row.request_id@);
                    None
                },
            }
        },
        None => None,
    }
}

/// Get all requested items to send to UI
pub fn requested(rows: &Vec<RequestRow>) -> (r: Vec<Vec<UiDownloadRequest>>)
    ensures
        exists|shown: Seq<UiDownloadRequest>|
            rows_shown(rows@, shown) && r@.map_values(|chunk: Vec<UiDownloadRequest>| chunk@)
                == #[trigger] chunker::chunks(shown, MAX_ENTRIES_PER_MESSAGE as nat),
{
    let mut items: Vec<UiDownloadRequest> = Vec::new();
    let mut i: usize = 0;
    while i < rows.len()
        invariant
            i <= rows@.len(),
            rows_shown(rows@.take(i as int), items@),
        decreases rows@.len() - i,
    {
        assert(rows@.take(i + 1).drop_last() =~= rows@.take(i as int));
        match show_row(&rows[i]) {
            Some(shown) => {
                let ghost before = items@;
                items.push(shown);
                assert(items@.drop_last() =~= before);
            },
            None => {},
        }
        i += 1;
    }
    assert(rows@.take(i as int) =~= rows@);
    let ghost shown = items@;
    let r = Chunker { inner: items, chunk_size: MAX_ENTRIES_PER_MESSAGE }.all();
    r
}

/// Whether a list shows the files of a request whose records are readable, in their order.
pub open spec fn files_shown(rows: Seq<KeyValue>, shown: Seq<UiRequestedFile>) -> bool
    decreases rows.len(),
{
    if rows.len() == 0 {
        shown.len() == 0
    } else if valid_utf8(rows.last().0@.skip(4)) {
        &&& shown.len() > 0
        &&& shown.last().path@ == decode_utf8(rows.last().0@.skip(4))
        &&& bytes::be_bytes(shown.last().request_id as nat, 4) == rows.last().0@.take(4)
        &&& bytes::be_bytes(shown.last().size as nat, 8) == rows.last().1@.take(8)
        &&& shown.last().downloaded == (rows.last().1@[8] == 1)
        &&& files_shown(rows.drop_last(), shown.drop_last())
    } else {
        files_shown(rows.drop_last(), shown)
    }
}

/// Get files associated with a given request id
pub fn requested_files(rows: &Vec<KeyValue>) -> (r: Vec<Vec<UiRequestedFile>>)
    requires
        forall|i: int|
            0 <= i < rows@.len() ==> (#[trigger] rows@[i]).0@.len() >= 4 && rows@[i].1@.len() >= 9,
    ensures
        exists|shown: Seq<UiRequestedFile>|
            files_shown(rows@, shown) && r@.map_values(|chunk: Vec<UiRequestedFile>| chunk@)
                == #[trigger] chunker::chunks(shown, MAX_ENTRIES_PER_MESSAGE as nat),
{
    let mut items: Vec<UiRequestedFile> = Vec::new();
    let mut i: usize = 0;
    while i < rows.len()
        invariant
            i <= rows@.len(),
            files_shown(rows@.take(i as int), items@),
            forall|k: int|
                0 <= k < rows@.len() ==> (#[trigger] rows@[k]).0@.len() >= 4 && rows@[k].1@.len()
                    >= 9,
        decreases rows@.len() - i,
    {
        assert(rows@.take(i + 1).drop_last() =~= rows@.take(i as int));
        let key = copy_of(rows[i].0.as_slice());
        let value = copy_of(rows[i].1.as_slice());
        match RequestedFile::from_db_by_request_id_key_value(key, value) {
            Ok(file) => {
                proof {
                    bytes::lemma_be_bytes_len(file.request_id as nat, 4);
                    assert(key@.skip(4) =~= encode_utf8(file.path@));
                    assert(key@.take(4) =~= bytes::be_bytes(file.request_id as nat, 4));
                    encode_utf8_valid_utf8(file.path@);
                    encode_utf8_decode_utf8(file.path@);
                }
                let ghost before = items@;
                items.push(file.into_ui_requested_file());
                assert(items@.drop_last() =~= before);
            },
            Err(_) => {},
        }
        i += 1;
    }
    assert(rows@.take(i as int) =~= rows@);
    let ghost shown = items@;
    let r = Chunker { inner: items, chunk_size: MAX_ENTRIES_PER_MESSAGE }.all();
    r
}

/// Whether a list holds the files of a peer whose records are readable, in their order.
pub open spec fn files_read(rows: Seq<KeyValue>, files: Seq<RequestedFile>) -> bool
    decreases rows.len(),
{
    if rows.len() == 0 {
        files.len() == 0
    } else if valid_utf8(rows.last().0@.skip(40)) {
        &&& files.len() > 0
        &&& encode_utf8(files.last().path@) == rows.last().0@.skip(40)
        &&& by_peer_value(files.last()) == rows.last().1@.take(12)
        &&& !files.last().downloaded
        &&& files_read(rows.drop_last(), files.drop_last())
    } else {
        files_read(rows.drop_last(), files)
    }
}

/// The outstanding requests for files of a particular peer
pub fn requests_for_peer(rows: &Vec<KeyValue>) -> (r: Vec<RequestedFile>)
    requires
        forall|i: int|
            0 <= i < rows@.len() ==> (#[trigger] rows@[i]).0@.len() >= 40 && rows@[i].1@.len()
                >= 12,
    ensures
        files_read(rows@, r@),
{
    let mut files: Vec<RequestedFile> = Vec::new();
    let mut i: usize = 0;
    while i < rows.len()
        invariant
            i <= rows@.len(),
            files_read(rows@.take(i as int), files@),
            forall|k: int|
                0 <= k < rows@.len() ==> (#[trigger] rows@[k]).0@.len() >= 40 && rows@[k].1@.len()
                    >= 12,
        decreases rows@.len() - i,
    {
        assert(rows@.take(i + 1).drop_last() =~= rows@.take(i as int));
        let key = copy_of(rows[i].0.as_slice());
        let value = copy_of(rows[i].1.as_slice());
        match RequestedFile::from_db_key_value(key, value) {
            Ok(file) => {
                proof {
                    encode_utf8_valid_utf8(file.path@);
                }
                let ghost before = files@;
                files.push(file);
                assert(files@.drop_last() =~= before);
            },
            Err(_) => {},
        }
        i += 1;
    }
    assert(rows@.take(i as int) =~= rows@);
    files
}

/// The record of a completed request holds what is known of the request, each at its place.
pub proof fn law_completed_request_record(request: DownloadRequest)
    ensures
        ({
            let v = completed_request_value(request);
            &&& v.len() >= 48
            &&& bytes::be_value(v.subrange(0, 8)) == request.timestamp.secs
            &&& v.subrange(8, 40) == request.peer_public_key@
            &&& bytes::be_value(v.subrange(40, 48)) == request.total_size
            &&& decode_utf8(v.skip(48)) == request.path@
        }),
{
    broadcast use vstd::utf8::group_utf8_lib;

    let v = completed_request_value(request);
    bytes::lemma_byte_ranges();
    bytes::lemma_be_bytes_len(request.timestamp.secs as nat, 8);
    bytes::lemma_be_bytes_len(request.total_size as nat, 8);
    bytes::lemma_be_value_of_bytes(request.timestamp.secs as nat, 8);
    bytes::lemma_be_value_of_bytes(request.total_size as nat, 8);
    assert(v.subrange(0, 8) =~= bytes::be_bytes(request.timestamp.secs as nat, 8));
    assert(v.subrange(8, 40) =~= request.peer_public_key@);
    assert(v.subrange(40, 48) =~= bytes::be_bytes(request.total_size as nat, 8));
    assert(v.skip(48) =~= encode_utf8(request.path@));
}

/// A user interface sees a request with all that is known of it, and how far it has come.
pub proof fn law_requests_are_shown_in_full(
    request: DownloadRequest,
    progress: u64,
    shown: UiDownloadRequest,
)
    requires
        is_shown_as(request, progress, shown),
    ensures
        shown.path@ == request.path@,
        shown.progress == progress,
        shown.total_size == request.total_size,
        shown.request_id == request.request_id,
        shown.timestamp == request.timestamp,
        shown.peer.id@ == request.peer_public_key@,
{
}

/// A request is complete when the bytes of its files come to its size, neither before nor beyond.
pub proof fn law_requests_complete_exactly(progress: nat, size: u64, total_size: u64)
    ensures
        progress + size < total_size ==> !completes(progress, size, total_size),
        progress + size == total_size ==> completes(progress, size, total_size),
        progress + size > total_size ==> !completes(progress, size, total_size),
{
}

/// A request without a record of progress has none, and a record of another length is none.
pub proof fn law_which_progress_is_read(record: Vec<u8>)
    ensures
        progress_of(None) == Some(0nat),
        progress_of(Some(record)) is Some <==> record@.len() == 8,
{
}

/// The files of a request are shown as they were stored, in their order, and with whether they
/// were downloaded.
pub proof fn law_stored_files_are_shown(
    files: Seq<RequestedFile>,
    rows: Seq<KeyValue>,
    shown: Seq<UiRequestedFile>,
)
    requires
        rows.len() == files.len(),
        forall|i: int|
            0 <= i < rows.len() ==> (#[trigger] rows[i]).0@ == by_request_key(files[i])
                && rows[i].1@ == by_request_value(files[i]),
        files_shown(rows, shown),
    ensures
        shown.len() == files.len(),
        forall|i: int|
            0 <= i < shown.len() ==> (#[trigger] shown[i]).path@ == files[i].path@ && shown[i].size
                == files[i].size && shown[i].request_id == files[i].request_id
                && shown[i].downloaded == files[i].downloaded,
    decreases rows.len(),
{
    broadcast use vstd::utf8::group_utf8_lib;

    if rows.len() > 0 {
        let row = rows.last();
        let file = files.last();
        assert(rows[rows.len() - 1] == row);
        lemma_file_parts(file);
        bytes::lemma_byte_ranges();
        bytes::lemma_be_bytes_len(file.request_id as nat, 4);
        bytes::lemma_be_bytes_len(file.size as nat, 8);
        assert(row.0@.skip(4) =~= encode_utf8(file.path@));
        assert(row.0@.take(4) =~= row.0@.subrange(0, 4));
        assert(row.1@.take(8) =~= row.1@.subrange(0, 8));
        assert(row.1@[8] == row.1@.last());
        let last = shown.last();
        bytes::lemma_be_value_of_bytes(last.request_id as nat, 4);
        bytes::lemma_be_value_of_bytes(last.size as nat, 8);
        law_stored_files_are_shown(files.drop_last(), rows.drop_last(), shown.drop_last());
        assert forall|i: int| 0 <= i < shown.len() implies (#[trigger] shown[i]).path@
            == files[i].path@ && shown[i].size == files[i].size && shown[i].request_id
            == files[i].request_id && shown[i].downloaded == files[i].downloaded by {
            if i < shown.len() - 1 {
                assert(shown.drop_last()[i] == shown[i]);
            }
        }
    }
}

} // verus!
