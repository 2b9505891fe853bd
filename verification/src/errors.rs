//! Errors on the way to the user interface.
use crate::connections::discovery::hole_punch::HolePunchError;
use crate::shared_state::RequestError;
use crate::shares::{EntryParseError, ScanDirError};
use crate::text::joined;
use crate::ui_messages::UiServerError;
use vstd::prelude::*;

verus! {

/// An error in response to a UI command
#[derive(PartialEq, Debug, Clone)]
pub struct UiServerErrorWrapper(pub UiServerError);

impl UiServerErrorWrapper {
    /// The error as text.
    pub fn to_string(&self) -> (r: String)
        ensures
            r@ == self.0.message(),
    {
        self.0.to_string()
    }
}

impl From<UiServerError> for UiServerErrorWrapper {
    fn from(error: UiServerError) -> (r: UiServerErrorWrapper) {
        UiServerErrorWrapper(error)
    }
}

impl vstd::std_specs::convert::FromSpecImpl<UiServerError> for UiServerErrorWrapper {
    open spec fn obeys_from_spec() -> bool {
        true
    }

    open spec fn from_spec(error: UiServerError) -> UiServerErrorWrapper {
        UiServerErrorWrapper(error)
    }
}

impl UiServerErrorWrapper {
    /// A failure to punch a hole.
    pub fn from_hole_punch(error: &HolePunchError) -> (r: UiServerErrorWrapper)
        ensures
            r.0 matches UiServerError::PeerDiscovery(text) && text@ == error.message(),
    {
        UiServerErrorWrapper(UiServerError::PeerDiscovery(error.to_string()))
    }

    /// A failure to read the share index.
    pub fn from_entry_parse(error: &EntryParseError) -> (r: UiServerErrorWrapper)
        ensures
            r.0 matches UiServerError::Db(text) && text@ == error.message(),
    {
        UiServerErrorWrapper(UiServerError::Db(error.to_string()))
    }

    /// A failure to add or remove a shared directory.
    pub fn from_scan_dir(error: &ScanDirError) -> (r: UiServerErrorWrapper)
        ensures
            r.0 matches UiServerError::AddShare(text) && text@ == error.message(),
    {
        UiServerErrorWrapper(UiServerError::AddShare(error.to_string()))
    }

    /// A failure to make a request.
    pub fn from_request(error: &RequestError) -> (r: UiServerErrorWrapper)
        ensures
            r.0 matches UiServerError::RequestError(text) && text@ == error.message(),
    {
        UiServerErrorWrapper(UiServerError::RequestError(error.to_string()))
    }
}

/// An error from the client
#[derive(PartialEq, Debug)]
pub enum ClientError {
    ConnectionError(String),
    InvalidUrl,
    UnexpectedMessageType,
    Serialization(String),
    HttpRequest(String),
    ParseInt(String),
    ServerError(UiServerError),
}

impl ClientError {
    /// What the error prints.
    pub open spec fn message(self) -> Seq<char> {
        match self {
            ClientError::ConnectionError(error) => "Cannot connect: "@ + error@,
            ClientError::InvalidUrl => "Invalid Url"@,
            ClientError::UnexpectedMessageType => "Unexpected message type on websocket"@,
            ClientError::Serialization(error) => "Serialization or deserialization: "@ + error@,
            ClientError::HttpRequest(error) => "HTTP client: "@ + error@,
            ClientError::ParseInt(error) => "Cannot parse integer: "@ + error@,
            ClientError::ServerError(error) => error.message(),
        }
    }

    /// The error as text.
    pub fn to_string(&self) -> (r: String)
        ensures
            r@ == self.message(),
    {
        match self {
            ClientError::ConnectionError(error) => joined("Cannot connect: ", error.as_str()),
            ClientError::InvalidUrl => "Invalid Url".to_owned(),
            ClientError::UnexpectedMessageType => "Unexpected message type on websocket".to_owned(),
            ClientError::Serialization(error) => joined(
                "Serialization or deserialization: ",
                error.as_str(),
            ),
            ClientError::HttpRequest(error) => joined("HTTP client: ", error.as_str()),
            ClientError::ParseInt(error) => joined("Cannot parse integer: ", error.as_str()),
            ClientError::ServerError(error) => error.to_string(),
        }
    }
}

} // verus!
