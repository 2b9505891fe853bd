//! Messages for communicating with the user interface
use crate::announce_address::AnnounceAddressDecodeError;
use crate::peer_id::PeerId;
use crate::text;
use crate::text::{append_text, decimal_text, joined};
use crate::time::Duration;
use crate::wire_messages::{IndexQuery, LsResponse, ReadQuery};
use vstd::prelude::*;

verus! {

/// A query of the files of one peer, or of all connected peers.
#[derive(PartialEq, Debug, Clone)]
pub struct FilesQuery {
    pub peer_id: Option<PeerId>,
    pub query: IndexQuery,
}

/// Canonical peer identity plus its derived human-readable label.
#[derive(PartialEq, Eq, Debug, Clone, Hash)]
pub struct PeerInfo {
    pub id: PeerId,
    pub name: String,
}

/// What `key_to_animal::key_to_name` gives for a key on a machine whose words have `word_bits`
/// bits: it reads one word of the key for the adjective and one for the animal.
pub uninterp spec fn animal_name(key: Seq<u8>, word_bits: nat) -> Seq<char>;

/// Calls `key_to_animal::key_to_name`, which picks an adjective and an animal by the bytes of a
/// key.
#[verifier::external_body]
fn key_to_name(key: &[u8; 32]) -> (r: String)
    ensures
        r@ == animal_name(key@, usize::BITS as nat),
{
    key_to_animal::key_to_name(key)
}

/// The label of a peer.
pub open spec fn peer_label(id: Seq<u8>) -> Seq<char> {
    animal_name(id, usize::BITS as nat)
}

impl PeerInfo {
    /// The peer with the label that goes with its identity.
    pub fn from_id(id: PeerId) -> (r: PeerInfo)
        ensures
            r.id == id,
            r.name@ == peer_label(id@),
    {
        PeerInfo { id, name: key_to_name(id.as_bytes()) }
    }

    /// A copy of this.
    pub fn duplicate(&self) -> (r: PeerInfo)
        ensures
            r == *self,
    {
        PeerInfo { id: self.id, name: self.name.clone() }
    }
}

/// 'Events' are messages sent from the server which are not in response to a particular
/// request - eg: to inform the UI that a peer connected or disconnected
#[derive(PartialEq, Debug, Clone)]
pub enum UiEvent {
    /// A peer has connected
    PeerConnected { peer: PeerInfo },
    /// A peer has disconnected
    PeerDisconnected { peer: PeerInfo, error: String },
    /// A peer connection failed
    PeerConnectionFailed { peer: PeerInfo, error: String },
    /// Part of a file has been uploaded
    Uploaded(UploadInfo),
    /// Download
    Download(DownloadEvent),
}

/// What a user interface shows of the running instance.
#[derive(PartialEq, Debug, Clone)]
pub struct Info {
    pub id: PeerId,
    pub name: String,
    pub os_home_dir: Option<String>,
    pub announce_address: String,
}

/// A request to download a file from a particular peer
#[derive(PartialEq, Debug, Clone)]
pub struct UiDownloadRequest {
    /// The path of the file on the remote
    pub path: String,
    /// How much is already downloaded
    pub progress: u64,
    /// The total size in bytes
    pub total_size: u64,
    /// Identifier for the request
    pub request_id: u32,
    /// Time when request made relative to unix epoch
    pub timestamp: Duration,
    /// Peer who holds the file.
    pub peer: PeerInfo,
}

/// A file of a download request.
#[derive(PartialEq, Debug, Clone)]
pub struct UiRequestedFile {
    pub path: String,
    /// The size in bytes
    pub size: u64,
    /// This id is not unique - it references which request this came from
    /// requesting a directory will be split into requests for each file
    pub request_id: u32,
    pub downloaded: bool,
}

/// Information about a current running upload
#[derive(PartialEq, Debug, Clone)]
pub struct UploadInfo {
    pub path: String,
    pub bytes_read: u64,
    pub total_size: u64,
    pub speed: usize,
    pub peer: PeerInfo,
}

/// An error in response to a UI command
#[derive(PartialEq, Debug, Clone)]
pub enum UiServerError {
    ConnectionError(String),
    RequestError(String),
    ShareError(String),
    Serialization(String),
    PeerDiscovery(String),
    Poison,
    Db(String),
    AddShare(String),
    AnnounceAddressDecode(AnnounceAddressDecodeError),
}

impl UiServerError {
    /// What the error prints.
    pub open spec fn message(self) -> Seq<char> {
        match self {
            UiServerError::ConnectionError(error) => "Cannot connect: "@ + error@,
            UiServerError::RequestError(error) => "Request error: "@ + error@,
            UiServerError::ShareError(_) => "Error when updating shared directory"@,
            UiServerError::Serialization(error) => "Serialization: "@ + error@,
            UiServerError::PeerDiscovery(error) => "Peer discovery: "@ + error@,
            UiServerError::Poison => "Poisoned lock"@,
            UiServerError::Db(error) => "Database: "@ + error@,
            UiServerError::AddShare(error) => "Error adding directory to share: "@ + error@,
            UiServerError::AnnounceAddressDecode(error) => "Cannot decode announce address "@
                + error.message(),
        }
    }

    /// The error as text.
    pub fn to_string(&self) -> (r: String)
        ensures
            r@ == self.message(),
    {
        match self {
            UiServerError::ConnectionError(error) => joined("Cannot connect: ", error.as_str()),
            UiServerError::RequestError(error) => joined("Request error: ", error.as_str()),
            UiServerError::ShareError(_) => "Error when updating shared directory".to_owned(),
            UiServerError::Serialization(error) => joined("Serialization: ", error.as_str()),
            UiServerError::PeerDiscovery(error) => joined("Peer discovery: ", error.as_str()),
            UiServerError::Poison => "Poisoned lock".to_owned(),
            UiServerError::Db(error) => joined("Database: ", error.as_str()),
            UiServerError::AddShare(error) => joined(
                "Error adding directory to share: ",
                error.as_str(),
            ),
            UiServerError::AnnounceAddressDecode(error) => joined(
                "Cannot decode announce address ",
                error.to_string().as_str(),
            ),
        }
    }
}

/// How far a download has come.
#[derive(PartialEq, Debug, Clone)]
pub enum DownloadInfo {
    Downloading {
        /// File path of currently downloading file
        path: String,
        /// Number of bytes read for this file
        bytes_read: u64,
        /// Total number of bytes read from the associated download request
        total_bytes_read: u64,
        /// Current speed of download in bytes per second
        speed: u32,
    },
    Completed(Duration),
}

/// A response to a download request
#[derive(PartialEq, Debug, Clone)]
pub struct DownloadEvent {
    pub request_id: u32,
    /// File path of requested file of directory
    pub path: String,
    /// Peer who holds the file or directory.
    pub peer: PeerInfo,
    pub download_info: DownloadInfo,
}

impl DownloadEvent {
    /// What the event prints.
    pub open spec fn message(self) -> Seq<char> {
        match self.download_info {
            DownloadInfo::Downloading { path, bytes_read, total_bytes_read, speed } => {
                "Downloading "@ + self.peer.name@ + "/"@ + path@ + " "@ + text::decimal(
                    bytes_read as nat,
                ) + " bytes read, "@ + text::decimal(total_bytes_read as nat) + " total bytes read, "@
                    + text::decimal(speed as nat) + " bps"@
            },
            DownloadInfo::Completed(_) => "Completed "@ + self.peer.name@ + "/"@ + self.path@,
        }
    }

    /// The event as text.
    pub fn to_string(&self) -> (r: String)
        ensures
            r@ == self.message(),
    {
        match &self.download_info {
            DownloadInfo::Downloading { path, bytes_read, total_bytes_read, speed } => {
                let mut r = joined("Downloading ", self.peer.name.as_str());
                append_text(&mut r, "/");
                append_text(&mut r, path.as_str());
                append_text(&mut r, " ");
                append_text(&mut r, decimal_text(*bytes_read).as_str());
                append_text(&mut r, " bytes read, ");
                append_text(&mut r, decimal_text(*total_bytes_read).as_str());
                append_text(&mut r, " total bytes read, ");
                append_text(&mut r, decimal_text(*speed as u64).as_str());
                append_text(&mut r, " bps");
                r
            },
            DownloadInfo::Completed(_) => {
                let mut r = joined("Completed ", self.peer.name.as_str());
                append_text(&mut r, "/");
                append_text(&mut r, self.path.as_str());
                r
            },
        }
    }
}

/// A command from the Ui
#[derive(PartialEq, Debug, Clone)]
pub struct UiClientMessage {
    pub id: u32,
    pub command: Command,
}

/// A command from the UI
#[derive(PartialEq, Debug, Clone)]
pub enum Command {
    /// Join a given topic name
    Join(String),
    /// Leave a given topic name
    Leave(String),
    /// Connect to the peer with the given announce address
    Connect(String),
    /// Query peers' files: those of one peer, or of all
    Ls(IndexQuery, Option<PeerId>),
    /// Read a portion a of a file
    Read(ReadQuery, PeerId),
    /// Download a file or dir
    Download(PeerPath),
    /// Query our own shares
    Shares(IndexQuery),
    /// Add a directory to share
    AddShare(String),
    /// Stop sharing a directory
    RemoveShare(String),
    /// The requests that were made
    Requests,
    /// The files of a request
    RequestedFiles(u32),
    /// Shutdown gracefully
    Close,
}

/// A message to the UI
#[derive(PartialEq, Debug)]
pub enum UiServerMessage {
    Response { id: u32, response: Result<UiResponse, UiServerError> },
    Event(UiEvent),
}

/// An answer to a command.
#[derive(PartialEq, Debug, Clone)]
pub enum UiResponse {
    /// What has become of a download
    Download(DownloadStatus),
    /// A portion of a file
    Read(Vec<u8>),
    /// Some of the files of a peer
    Ls(LsResponse, PeerInfo),
    /// Some of our own files
    Shares(LsResponse),
    /// The number of files that were added
    AddShare(u32),
    /// Some of the requests that were made
    Requests(Vec<UiDownloadRequest>),
    /// Some of the files of a request
    RequestedFiles(Vec<UiRequestedFile>),
    /// A connection was made
    Connect,
    /// Nothing more will follow
    EndResponse,
}

/// What has become of a download.
#[derive(PartialEq, Debug, Clone)]
pub enum DownloadStatus {
    /// It was put on the wishlist, at this time
    Requested { path: String, peer: PeerInfo, timestamp: Duration },
    /// It has come this far
    Progress(DownloadResponse),
}

/// How far the download of a file has come.
#[derive(PartialEq, Debug, Clone)]
pub struct DownloadResponse {
    pub path: String,
    pub bytes_read: u64,
    pub total_bytes_read: u64,
    pub speed: usize,
}

impl DownloadResponse {
    /// The response as text.
    pub fn to_string(&self) -> (r: String)
        ensures
            r@ == self.path@ + " "@ + text::decimal(self.bytes_read as nat) + " bytes read, "@
                + text::decimal(self.speed as nat) + " bytes per second."@,
    {
        let mut r = joined(self.path.as_str(), " ");
        append_text(&mut r, decimal_text(self.bytes_read).as_str());
        append_text(&mut r, " bytes read, ");
        append_text(&mut r, decimal_text(self.speed as u64).as_str());
        append_text(&mut r, " bytes per second.");
        r
    }
}

/// Represents a remote file
#[derive(Clone, Debug, Hash, PartialEq, Eq)]
pub struct PeerPath {
    /// The peer who holds the file.
    pub peer: PeerInfo,
    /// The path to the remote file
    pub path: String,
}

} // verus!
