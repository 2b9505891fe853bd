//! Remote procedure call for share index queries and file uploading
use crate::peer_id::PeerId;
use crate::shares::EntryParseError;
use crate::ui_messages::{PeerInfo, UiEvent, UploadInfo};
use crate::wire_messages::{AnnouncePeer, IndexQuery, ReadQuery, Request};
use vstd::prelude::*;

verus! {

/// Number of bytes uploaded at a time
pub const UPLOAD_BLOCK_SIZE: usize = 64 * 1024;

/// What is answered in place of a response where there was an error.
pub const ERROR_REPLY: [u8; 1] = [0];

/// Error to be sent as a wire message
#[derive(Debug, Clone, Copy, PartialEq, Eq, Structural)]
pub enum RpcError {
    DbError,
    PathNotFound,
    BadOffset,
    ReadError,
    WriteError,
    SerializeError,
    ChannelClosed,
    U64ConvertError,
}

impl RpcError {
    /// What the error prints.
    pub open spec fn message(self) -> Seq<char> {
        match self {
            RpcError::DbError => "Db error"@,
            RpcError::PathNotFound => "Path not found"@,
            RpcError::BadOffset => "Bad offset"@,
            RpcError::ReadError => "Read error"@,
            RpcError::WriteError => "Write error"@,
            RpcError::SerializeError => "serialize error"@,
            RpcError::ChannelClosed => "Channel closed"@,
            RpcError::U64ConvertError => "Cannot convert to u64"@,
        }
    }

    /// The error as text.
    pub fn to_string(&self) -> (r: String)
        ensures
            r@ == self.message(),
    {
        match self {
            RpcError::DbError => "Db error".to_owned(),
            RpcError::PathNotFound => "Path not found".to_owned(),
            RpcError::BadOffset => "Bad offset".to_owned(),
            RpcError::ReadError => "Read error".to_owned(),
            RpcError::WriteError => "Write error".to_owned(),
            RpcError::SerializeError => "serialize error".to_owned(),
            RpcError::ChannelClosed => "Channel closed".to_owned(),
            RpcError::U64ConvertError => "Cannot convert to u64".to_owned(),
        }
    }
}

/// A file, or a portion of it, that a peer wants.
#[derive(Debug)]
pub struct ReadRequest {
    pub path: String,
    pub start: Option<u64>,
    pub end: Option<u64>,
    pub requester: PeerId,
}

/// What a request from a peer asks of us.
#[derive(Debug)]
pub enum RpcStep {
    /// Query the filepath index.
    Ls(IndexQuery),
    /// Put the request in the queue of uploads.
    Read(ReadRequest),
    /// Handle the announcement of a peer.
    Announce(AnnouncePeer),
    /// The message could not be decoded. It is ignored.
    Nothing,
}

/// Handle a request
pub fn request(decoded: Option<Request>, peer: PeerId) -> (r: RpcStep)
    ensures
        match decoded {
            Some(Request::Ls(query)) => r == RpcStep::Ls(query),
            Some(Request::Read(query)) => r == RpcStep::Read(
                ReadRequest {
                    path: query.path,
                    start: query.start,
                    end: query.end,
                    requester: peer,
                },
            ),
            Some(Request::AnnouncePeer(announcement)) => r == RpcStep::Announce(announcement),
            None => r is Nothing,
        },
{
    match decoded {
        Some(Request::Ls(query)) => RpcStep::Ls(query),
        Some(Request::Read(ReadQuery { path, start, end })) => RpcStep::Read(
            ReadRequest { path, start, end, requester: peer },
        ),
        Some(Request::AnnouncePeer(announcement)) => RpcStep::Announce(announcement),
        None => RpcStep::Nothing,
    }
}

/// What the failure of an index query is reported as.
pub fn query_error(error: &EntryParseError) -> (r: RpcError)
    ensures
        r == if *error is PathNotFound {
            RpcError::PathNotFound
        } else {
            RpcError::DbError
        },
{
    match error {
        EntryParseError::PathNotFound => RpcError::PathNotFound,
        _ => RpcError::DbError,
    }
}

/// A portion of a file: from an offset on, and at most so many bytes.
#[derive(Debug, Clone, Copy, PartialEq, Eq, Structural)]
pub struct Portion {
    pub offset: u64,
    pub len: Option<u64>,
}

/// The smaller one.
pub open spec fn smaller(a: int, b: int) -> int {
    if a < b {
        a
    } else {
        b
    }
}

/// The bytes of a portion of a file.
pub open spec fn portion_of(contents: Seq<u8>, portion: Portion) -> Seq<u8> {
    let from = smaller(portion.offset as int, contents.len() as int);
    let to = match portion.len {
        Some(len) => smaller(from + len, contents.len() as int),
        None => contents.len() as int,
    };
    contents.subrange(from, to)
}

/// Get the portion of the file we want to upload
pub fn get_file_portion(start: Option<u64>, end: Option<u64>) -> (r: Result<Portion, RpcError>)
    ensures
        ({
            let from: u64 = match start {
                Some(start) => start,
                None => 0,
            };
            match end {
                Some(end) => if from > end {
                    r == Err::<Portion, RpcError>(RpcError::BadOffset)
                } else {
                    r == Ok::<Portion, RpcError>(
                        Portion { offset: from, len: Some((end - from) as u64) },
                    )
                },
                None => r == Ok::<Portion, RpcError>(Portion { offset: from, len: None }),
            }
        }),
{
    let offset: u64 = match start {
        Some(start) => start,
        None => 0,
    };
    match end {
        Some(end_offset) => {
            if offset > end_offset {
                return Err(RpcError::BadOffset);
            }
            Ok(Portion { offset, len: Some(end_offset - offset) })
        },
        None => Ok(Portion { offset, len: None }),
    }
}

/// Reading a range of a file gives exactly the bytes from its start up to its end.
pub proof fn law_ranged_read_is_exact(contents: Seq<u8>, start: u64, end: u64)
    requires
        start <= end <= contents.len(),
    ensures
        portion_of(contents, Portion { offset: start, len: Some((end - start) as u64) })
            == contents.subrange(start as int, end as int),
{
}

/// Two reads that meet give what one read of both ranges gives, which is how a download that was
/// broken off goes on.
pub proof fn law_reads_resume(contents: Seq<u8>, offset: u64)
    requires
        offset <= contents.len(),
        contents.len() <= u64::MAX,
    ensures
        portion_of(contents, Portion { offset: 0, len: Some(offset) }) + portion_of(
            contents,
            Portion { offset, len: None },
        ) == contents,
{
    assert(contents.subrange(0, offset as int) + contents.subrange(
        offset as int,
        contents.len() as int,
    ) =~= contents);
}

/// How far an upload has come.
pub struct Upload {
    pub path: String,
    /// The size of the file.
    pub size: u64,
    /// Where in the file the upload is.
    pub bytes_read: u64,
    pub requester: PeerInfo,
}

impl Upload {
    pub fn start(request: ReadRequest, size: u64) -> (r: Upload)
        ensures
            r.path == request.path,
            r.size == size,
            r.bytes_read == match request.start {
                Some(start) => start,
                None => 0,
            },
            r.requester.id == request.requester,
            r.requester.name@ == crate::ui_messages::peer_label(request.requester@),
    {
        Upload {
            path: request.path,
            size,
            bytes_read: match request.start {
                Some(start) => start,
                None => 0,
            },
            requester: PeerInfo::from_id(request.requester),
        }
    }

    /// Counts a block that is uploaded, and tells the user interface.
    pub fn add_block(&mut self, n: usize) -> (r: UiEvent)
        requires
            old(self).bytes_read + n <= u64::MAX,
        ensures
            final(self).bytes_read == old(self).bytes_read + n,
            final(self).path == old(self).path,
            final(self).size == old(self).size,
            final(self).requester == old(self).requester,
            r matches UiEvent::Uploaded(info) && info.path@ == old(self).path@ && info.bytes_read
                == old(self).bytes_read + n && info.total_size == old(self).size && info.speed == 0
                && info.peer == old(self).requester,
    {
        self.bytes_read = self.bytes_read + n as u64;
        UiEvent::Uploaded(
            UploadInfo {
                path: self.path.clone(),
                bytes_read: self.bytes_read,
                total_size: self.size,
                speed: 0,
                peer: self.requester.duplicate(),
            },
        )
    }
}

} // verus!
