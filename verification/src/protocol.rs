//! Requests and responses over one connection with a peer
use crate::bytes::{copy_of, to_array_32};
use crate::text::same_text;
use crate::wire_messages::{Entry, IndexQuery, ReadQuery};
use std::collections::HashMap;
use vstd::prelude::*;

verus! {

broadcast use vstd::std_specs::hash::group_hash_axioms;

pub const READ_BUF_INITIAL_SIZE: usize = 1024 * 128;

pub const PROTOCOL_VERSION: &'static str = "0";

/// Tells the other side who we are.
#[derive(Debug, Clone, PartialEq)]
pub struct Handshake {
    pub token: Vec<u8>,
    pub version: String,
}

/// A request to the other side.
#[derive(Debug, Clone, PartialEq)]
pub enum RequestMessage {
    Handshake(Handshake),
    Ls(IndexQuery),
    Read(ReadQuery),
}

/// A response, or a part of it.
#[derive(Debug, Clone, PartialEq)]
pub enum ResponseMessage {
    Handshake(Handshake),
    Ls(Vec<Entry>),
    Read(Vec<u8>),
    /// There are no more parts.
    EndResponse,
    /// Success, without saying anything.
    Empty,
    Error(i32),
}

/// What a message says.
#[derive(Debug, Clone, PartialEq)]
pub enum Content {
    Request(RequestMessage),
    Response(ResponseMessage),
    Nothing,
}

/// A message. Responses have the id of the request that they answer.
#[derive(Debug, Clone, PartialEq)]
pub struct HdpMessage {
    pub id: u32,
    pub content: Content,
}

/// A protocol event.
#[non_exhaustive]
#[derive(PartialEq, Debug)]
pub enum Event {
    HandshakeRequest,
    HandshakeResponse,
    Request(RequestMessage, u32),
    Responded,
}

/// Error when handshaking
#[derive(Debug, Clone, Copy, PartialEq, Eq, Structural)]
pub enum HandshakeError {
    BadHandshake,
}

impl HandshakeError {
    /// The error as text.
    pub fn to_string(&self) -> (r: String)
        ensures
            r@ == "Error making handshake"@,
    {
        "Error making handshake".to_owned()
    }
}

/// Error when communicating with peer
#[derive(Debug, PartialEq)]
pub enum PeerConnectionError {
    IOError(String),
    ConnectionError,
    BadMessageError,
    DeserializationError(String),
    HandshakeError,
    VersionCompatibilityError,
}

impl PeerConnectionError {
    /// What the error prints.
    pub open spec fn message(self) -> Seq<char> {
        match self {
            PeerConnectionError::IOError(error) => error@,
            PeerConnectionError::ConnectionError => "Connection error"@,
            PeerConnectionError::BadMessageError => "Failed to handle message from peer"@,
            PeerConnectionError::DeserializationError(error) => error@,
            PeerConnectionError::HandshakeError => "Handshake error"@,
            PeerConnectionError::VersionCompatibilityError =>
                "Remote peer has incompatible protocol version"@,
        }
    }

    /// The error as text.
    pub fn to_string(&self) -> (r: String)
        ensures
            r@ == self.message(),
    {
        match self {
            PeerConnectionError::IOError(error) => error.clone(),
            PeerConnectionError::ConnectionError => "Connection error".to_owned(),
            PeerConnectionError::BadMessageError => "Failed to handle message from peer".to_owned(),
            PeerConnectionError::DeserializationError(error) => error.clone(),
            PeerConnectionError::HandshakeError => "Handshake error".to_owned(),
            PeerConnectionError::VersionCompatibilityError => "Remote peer has incompatible protocol version".to_owned(),
        }
    }
}

/// Error when making a request or response
#[derive(Debug, PartialEq)]
pub enum SendError {
    ChannelWriteError(String),
    WriteError,
}

impl SendError {
    /// The error as text.
    pub fn to_string(&self) -> (r: String)
        ensures
            r@ == match *self {
                SendError::ChannelWriteError(error) => error@,
                SendError::WriteError => "Error writing"@,
            },
    {
        match self {
            SendError::ChannelWriteError(error) => error.clone(),
            SendError::WriteError => "Error writing".to_owned(),
        }
    }
}

/// A response from a peer.
#[derive(Debug)]
pub struct IncomingPeerResponse {
    pub message: ResponseMessage,
    pub public_key: [u8; 32],
}

/// A request from a peer.
#[derive(Debug)]
pub struct IncomingPeerRequest {
    pub message: RequestMessage,
    pub id: u32,
}

/// A response to a peer.
#[derive(Debug)]
pub struct OutgoingPeerResponse {
    pub id: u32,
    pub message: ResponseMessage,
}

/// Whether a handshake gives this key, in our version of the protocol.
pub open spec fn is_handshake(handshake: Handshake, public_key: Seq<u8>) -> bool {
    handshake.token@ == public_key && handshake.version@ == PROTOCOL_VERSION@
}

fn handshake_of(token: [u8; 32]) -> (r: Handshake)
    ensures
        is_handshake(r, token@),
{
    Handshake { token: copy_of(token.as_slice()), version: PROTOCOL_VERSION.to_owned() }
}

/// Asks the other side who it is.
pub fn create_handshake(token: [u8; 32]) -> (r: RequestMessage)
    ensures
        r matches RequestMessage::Handshake(handshake) && is_handshake(handshake, token@),
{
    RequestMessage::Handshake(handshake_of(token))
}

/// Answers who we are.
pub fn create_handshake_response(token: [u8; 32]) -> (r: ResponseMessage)
    ensures
        r matches ResponseMessage::Handshake(handshake) && is_handshake(handshake, token@),
{
    ResponseMessage::Handshake(handshake_of(token))
}

/// Says whether a protocol instance came about, given its first event.
pub fn with_handshake(event: &Option<Result<Event, PeerConnectionError>>) -> (r: Result<
    (),
    HandshakeError,
>)
    ensures
        r is Ok <==> (event matches Some(Ok(Event::HandshakeRequest)) || event matches Some(
            Ok(Event::HandshakeResponse),
        )),
{
    match event {
        Some(Ok(Event::HandshakeRequest)) => Ok(()),
        Some(Ok(Event::HandshakeResponse)) => Ok(()),
        _ => Err(HandshakeError::BadHandshake),
    }
}

/// The protocol on one side of a connection.
pub struct Protocol {
    pub is_initiator: bool,
    pub public_key: [u8; 32],
    pub request_index: u32,
    /// The requests that were made, and whether parts of the response are still awaited.
    pub open_requests: HashMap<u32, bool>,
    /// The connection is broken.
    pub is_terminated: bool,
    /// The remote peer's public key. This is only present after handshaking
    pub remote_pk: Option<[u8; 32]>,
}

/// What comes of a message.
#[derive(Debug)]
pub struct ProtocolStep {
    pub event: Option<Result<Event, PeerConnectionError>>,
    /// A message to send back.
    pub reply: Option<HdpMessage>,
    /// A part of the response to the request with this id.
    pub deliver: Option<(u32, IncomingPeerResponse)>,
    /// The request with this id is answered to the end.
    pub close: Option<u32>,
}

/// What to do when there is no message.
#[derive(Debug)]
pub enum IdleStep {
    /// Ask the other side who it is.
    Handshake(HdpMessage),
    /// Send the messages that wait to be sent.
    WriteOutbound,
    /// Wait until the other side has asked who we are.
    Wait,
}

/// Nothing but an event.
fn only(event: Result<Event, PeerConnectionError>) -> (r: ProtocolStep)
    ensures
        r == (ProtocolStep { event: Some(event), reply: None, deliver: None, close: None }),
{
    ProtocolStep { event: Some(event), reply: None, deliver: None, close: None }
}

/// Whether a step is nothing but this error.
pub open spec fn is_failure(step: ProtocolStep, error: PeerConnectionError) -> bool {
    step == (ProtocolStep { event: Some(Err(error)), reply: None, deliver: None, close: None })
}

impl Protocol {
    /// The ids of requests are below that of the next one.
    pub open spec fn wf(self) -> bool {
        forall|id: u32| #[trigger] self.open_requests@.dom().contains(id) ==> id < self.request_index
    }

    /// Create a new protocol instance.
    pub fn new(public_key: [u8; 32], is_initiator: bool) -> (r: Protocol)
        ensures
            r.wf(),
            r.is_initiator == is_initiator,
            r.public_key == public_key,
            r.request_index == 0,
            r.open_requests@ == Map::<u32, bool>::empty(),
            !r.is_terminated,
            r.remote_pk is None,
    {
        Protocol {
            is_initiator,
            public_key,
            request_index: 0,
            open_requests: HashMap::new(),
            is_terminated: false,
            remote_pk: None,
        }
    }

    fn create_request(&mut self, message: RequestMessage) -> (r: HdpMessage)
        requires
            old(self).wf(),
            old(self).request_index < u32::MAX,
        ensures
            final(self).wf(),
            *final(self) == (Protocol {
                request_index: (old(self).request_index + 1) as u32,
                ..*old(self)
            }),
            r.id == old(self).request_index,
            r.content == Content::Request(message),
    {
        let id: u32 = self.request_index;
        self.request_index = self.request_index + 1;
        HdpMessage { id, content: Content::Request(message) }
    }

    /// Makes a request. Gives the message to send, by whose id the responses will be known.
    pub fn request(&mut self, message: RequestMessage) -> (r: HdpMessage)
        requires
            old(self).wf(),
            old(self).request_index < u32::MAX,
        ensures
            final(self).wf(),
            // No other request has this id
            !old(self).open_requests@.dom().contains(r.id),
            final(self).open_requests@ == old(self).open_requests@.insert(r.id, true),
            final(self).request_index == old(self).request_index + 1,
            final(self).is_initiator == old(self).is_initiator,
            final(self).public_key == old(self).public_key,
            final(self).is_terminated == old(self).is_terminated,
            final(self).remote_pk == old(self).remote_pk,
            r.id == old(self).request_index,
            r.content == Content::Request(message),
    {
        let message = self.create_request(message);
        self.open_requests.insert(message.id, true);
        message
    }

    /// The message for a part of a response to the request with the given id
    pub fn respond(&self, response: ResponseMessage, id: u32) -> (r: HdpMessage)
        ensures
            r == (HdpMessage { id, content: Content::Response(response) }),
    {
        HdpMessage { id, content: Content::Response(response) }
    }

    /// Takes over the key of the other side from a handshake.
    fn accept_handshake(&mut self, handshake: &Handshake) -> (r: Result<(), PeerConnectionError>)
        ensures
            final(self).is_initiator == old(self).is_initiator,
            final(self).public_key == old(self).public_key,
            final(self).request_index == old(self).request_index,
            final(self).open_requests == old(self).open_requests,
            final(self).is_terminated == old(self).is_terminated,
            match r {
                Ok(()) => {
                    &&& handshake.version@ == PROTOCOL_VERSION@
                    &&& final(self).remote_pk matches Some(key) && key@ == handshake.token@
                },
                Err(error) => {
                    &&& final(self).remote_pk == old(self).remote_pk
                    &&& error == if handshake.version@ != PROTOCOL_VERSION@ {
                        PeerConnectionError::VersionCompatibilityError
                    } else {
                        PeerConnectionError::HandshakeError
                    }
                    &&& handshake.version@ != PROTOCOL_VERSION@ || handshake.token@.len() != 32
                },
            },
    {
        // Check protocol version number
        if !same_text(handshake.version.as_str(), PROTOCOL_VERSION) {
            return Err(PeerConnectionError::VersionCompatibilityError);
        }
        if handshake.token.len() != 32 {
            return Err(PeerConnectionError::HandshakeError);
        }
        self.remote_pk = Some(to_array_32(handshake.token.as_slice()));
        Ok(())
    }

    /// Handles a message from the other side.
    pub fn handle_message(&mut self, message: HdpMessage) -> (r: ProtocolStep)
        requires
            old(self).wf(),
        ensures
            final(self).wf(),
            final(self).is_initiator == old(self).is_initiator,
            final(self).public_key == old(self).public_key,
            final(self).request_index == old(self).request_index,
            final(self).is_terminated == old(self).is_terminated,
            is_message_step(*old(self), *final(self), message, r),
    {
        let id = message.id;
        match message.content {
            Content::Request(RequestMessage::Handshake(handshake)) => {
                match self.accept_handshake(&handshake) {
                    Ok(()) => {
                        let response = create_handshake_response(self.public_key);
                        let reply = self.respond(response, id);
                        ProtocolStep {
                            event: Some(Ok(Event::HandshakeRequest)),
                            reply: Some(reply),
                            deliver: None,
                            close: None,
                        }
                    },
                    Err(error) => only(Err(error)),
                }
            },
            Content::Response(ResponseMessage::Handshake(handshake)) => {
                match self.accept_handshake(&handshake) {
                    Ok(()) => only(Ok(Event::HandshakeResponse)),
                    Err(error) => only(Err(error)),
                }
            },
            Content::Request(request) => {
                if self.remote_pk.is_some() {
                    only(Ok(Event::Request(request, id)))
                } else {
                    // Got a request before handshake completed
                    only(Err(PeerConnectionError::BadMessageError))
                }
            },
            Content::Response(response) => self.handle_response(id, response),
            Content::Nothing => only(Err(PeerConnectionError::BadMessageError)),
        }
    }

    /// Handles a response other than a handshake.
    fn handle_response(&mut self, id: u32, response: ResponseMessage) -> (r: ProtocolStep)
        requires
            old(self).wf(),
            !(response is Handshake),
        ensures
            final(self).wf(),
            final(self).is_initiator == old(self).is_initiator,
            final(self).public_key == old(self).public_key,
            final(self).request_index == old(self).request_index,
            final(self).is_terminated == old(self).is_terminated,
            final(self).remote_pk == old(self).remote_pk,
            is_response_step(*old(self), *final(self), id, response, r),
    {
        let public_key = match self.remote_pk {
            Some(public_key) => public_key,
            None => {
                // Got response message before handshake completed
                return only(Err(PeerConnectionError::BadMessageError));
            },
        };
        let is_open = match self.open_requests.get(&id) {
            Some(is_open) => *is_open,
            None => {
                // Cannot find associated request
                return only(Err(PeerConnectionError::BadMessageError));
            },
        };
        match response {
            ResponseMessage::EndResponse => {
                self.open_requests.insert(id, false);
                ProtocolStep { event: None, reply: None, deliver: None, close: Some(id) }
            },
            message => {
                if !is_open {
                    assert(self.open_requests@ =~= old(self).open_requests@);
                    return only(Ok(Event::Responded));
                }
                let close = match &message {
                    ResponseMessage::Error(_) => Some(id),
                    _ => None,
                };
                if close.is_some() {
                    self.open_requests.insert(id, false);
                }
                ProtocolStep {
                    event: Some(Ok(Event::Responded)),
                    reply: None,
                    deliver: Some((id, IncomingPeerResponse { message, public_key })),
                    close,
                }
            },
        }
    }

    /// The connection is broken.
    pub fn connection_failed(&mut self) -> (r: PeerConnectionError)
        ensures
            r == PeerConnectionError::ConnectionError,
            *final(self) == (Protocol { is_terminated: true, ..*old(self) }),
    {
        self.is_terminated = true;
        PeerConnectionError::ConnectionError
    }

    /// There is no message from the other side.
    pub fn idle(&mut self) -> (r: IdleStep)
        requires
            old(self).wf(),
            old(self).request_index < u32::MAX,
        ensures
            final(self).wf(),
            if old(self).remote_pk is Some {
                r is WriteOutbound && *final(self) == *old(self)
            } else if old(self).is_initiator {
                &&& r matches IdleStep::Handshake(message)
                &&& message.id == old(self).request_index
                &&& message.content matches Content::Request(RequestMessage::Handshake(handshake))
                &&& is_handshake(handshake, old(self).public_key@)
                &&& *final(self) == (Protocol {
                    request_index: (old(self).request_index + 1) as u32,
                    ..*old(self)
                })
            } else {
                r is Wait && *final(self) == *old(self)
            },
    {
        if self.remote_pk.is_some() {
            return IdleStep::WriteOutbound;
        }
        if self.is_initiator {
            let handshake = create_handshake(self.public_key);
            return IdleStep::Handshake(self.create_request(handshake));
        }
        IdleStep::Wait
    }
}

/// Whether this is what comes of a handshake from the other side.
pub open spec fn is_handshake_step(
    before: Protocol,
    after: Protocol,
    handshake: Handshake,
    step: ProtocolStep,
) -> bool {
    &&& after.open_requests == before.open_requests
    &&& if handshake.version@ != PROTOCOL_VERSION@ {
        &&& is_failure(step, PeerConnectionError::VersionCompatibilityError)
        &&& after.remote_pk == before.remote_pk
    } else if handshake.token@.len() != 32 {
        &&& is_failure(step, PeerConnectionError::HandshakeError)
        &&& after.remote_pk == before.remote_pk
    } else {
        &&& after.remote_pk matches Some(key) && key@ == handshake.token@
        &&& step.event is Some
        &&& step.event->Some_0 is Ok
        &&& step.deliver is None
        &&& step.close is None
    }
}

/// Whether this is what comes of a response other than a handshake.
pub open spec fn is_response_step(
    before: Protocol,
    after: Protocol,
    id: u32,
    response: ResponseMessage,
    step: ProtocolStep,
) -> bool {
    let open_requests = before.open_requests@;
    if before.remote_pk is None || !open_requests.dom().contains(id) {
        &&& is_failure(step, PeerConnectionError::BadMessageError)
        &&& after.open_requests@ == open_requests
    } else if response is EndResponse {
        &&& step == (ProtocolStep { event: None, reply: None, deliver: None, close: Some(id) })
        &&& after.open_requests@ == open_requests.insert(id, false)
    } else if open_requests[id] {
        let closes = response is Error;
        &&& step.event == Some(Ok::<Event, PeerConnectionError>(Event::Responded))
        &&& step.reply is None
        &&& step.deliver == Some(
            (
                id,
                IncomingPeerResponse {
                    message: response,
                    public_key: before.remote_pk->Some_0,
                },
            ),
        )
        &&& step.close == if closes {
            Some(id)
        } else {
            None
        }
        &&& after.open_requests@ == if closes {
            open_requests.insert(id, false)
        } else {
            open_requests
        }
    } else {
        // What comes after the end goes nowhere
        &&& step == (ProtocolStep {
            event: Some(Ok::<Event, PeerConnectionError>(Event::Responded)),
            reply: None,
            deliver: None,
            close: None,
        })
        &&& after.open_requests@ == open_requests
    }
}

/// Whether this is what comes of a message from the other side.
pub open spec fn is_message_step(
    before: Protocol,
    after: Protocol,
    message: HdpMessage,
    step: ProtocolStep,
) -> bool {
    match message.content {
        Content::Request(RequestMessage::Handshake(handshake)) => {
            &&& is_handshake_step(before, after, handshake, step)
            &&& step.event->Some_0 is Ok ==> {
                &&& step.event->Some_0->Ok_0 is HandshakeRequest
                &&& step.reply is Some
                &&& step.reply->Some_0.id == message.id
                &&& step.reply->Some_0.content matches Content::Response(
                    ResponseMessage::Handshake(ours),
                )
                &&& is_handshake(ours, before.public_key@)
            }
        },
        Content::Response(ResponseMessage::Handshake(handshake)) => {
            &&& is_handshake_step(before, after, handshake, step)
            &&& step.event->Some_0 is Ok ==> step.event->Some_0->Ok_0 is HandshakeResponse
                && step.reply is None
        },
        Content::Request(request) => {
            &&& after == before
            &&& if before.remote_pk is Some {
                step == (ProtocolStep {
                    event: Some(Ok(Event::Request(request, message.id))),
                    reply: None,
                    deliver: None,
                    close: None,
                })
            } else {
                is_failure(step, PeerConnectionError::BadMessageError)
            }
        },
        Content::Response(response) => {
            &&& after.remote_pk == before.remote_pk
            &&& is_response_step(before, after, message.id, response, step)
        },
        Content::Nothing => after == before && is_failure(
            step,
            PeerConnectionError::BadMessageError,
        ),
    }
}

/// A handshake introduces both sides to each other: the side that is asked learns the key of the
/// side that asks, and the side that asks learns the key of the other from the reply.
pub proof fn law_handshake_introduces_both_sides(
    asking: Protocol,
    asked: Protocol,
    asked_after: Protocol,
    asking_after: Protocol,
    id: u32,
    handshake: Handshake,
    asked_step: ProtocolStep,
    asking_step: ProtocolStep,
)
    requires
        is_handshake(handshake, asking.public_key@),
        is_message_step(
            asked,
            asked_after,
            (HdpMessage { id, content: Content::Request(RequestMessage::Handshake(handshake)) }),
            asked_step,
        ),
        asked_step.reply matches Some(reply) ==> is_message_step(
            asking,
            asking_after,
            reply,
            asking_step,
        ),
    ensures
        asked_after.remote_pk == Some(asking.public_key),
        asked_step.event == Some(Ok::<Event, PeerConnectionError>(Event::HandshakeRequest)),
        asking_after.remote_pk == Some(asked.public_key),
        asking_step.event == Some(Ok::<Event, PeerConnectionError>(Event::HandshakeResponse)),
{
    assert(asked_after.remote_pk->Some_0 =~= asking.public_key);
    assert(asking_after.remote_pk->Some_0 =~= asked.public_key);
}

/// Nothing gets through before the handshake: no request is handled and no response is delivered.
pub proof fn law_nothing_before_handshake(
    before: Protocol,
    after: Protocol,
    message: HdpMessage,
    step: ProtocolStep,
)
    requires
        before.remote_pk is None,
        is_message_step(before, after, message, step),
    ensures
        step.deliver is None,
        !(step.event matches Some(Ok(Event::Request(_, _)))),
{
}

/// Once a response has ended, nothing more is delivered for its request.
pub proof fn law_nothing_after_the_end(
    before: Protocol,
    after: Protocol,
    message: HdpMessage,
    step: ProtocolStep,
)
    requires
        before.open_requests@.dom().contains(message.id),
        !before.open_requests@[message.id],
        is_message_step(before, after, message, step),
    ensures
        step.deliver is None,
        after.open_requests@.dom().contains(message.id),
        !after.open_requests@[message.id],
{
}

/// After the handshake, every request of the other side is handed on, as it came in and under its
/// number, and nothing else comes of it.
pub proof fn law_requests_are_handed_on(
    before: Protocol,
    after: Protocol,
    id: u32,
    request: RequestMessage,
    step: ProtocolStep,
)
    requires
        before.remote_pk is Some,
        !(request is Handshake),
        is_message_step(before, after, (HdpMessage { id, content: Content::Request(request) }), step),
    ensures
        step.event == Some(Ok::<Event, PeerConnectionError>(Event::Request(request, id))),
        step.reply is None,
        step.deliver is None,
        step.close is None,
        after == before,
{
}

/// A response to a request that is still open reaches that request, and is known to come from the
/// peer of the handshake. The request stays open unless the response is an error.
pub proof fn law_responses_reach_their_request(
    before: Protocol,
    after: Protocol,
    id: u32,
    response: ResponseMessage,
    step: ProtocolStep,
)
    requires
        before.remote_pk is Some,
        before.open_requests@.dom().contains(id),
        before.open_requests@[id],
        !(response is Handshake),
        is_message_step(before, after, (HdpMessage { id, content: Content::Response(response) }), step),
    ensures
        !(response is EndResponse) ==> step.deliver is Some && step.deliver->Some_0.0 == id
            && step.deliver->Some_0.1.message == response && step.deliver->Some_0.1.public_key
            == before.remote_pk->Some_0,
        response is EndResponse ==> step.deliver is None,
        after.open_requests@.dom() == before.open_requests@.dom(),
        after.open_requests@[id] == !(response is EndResponse || response is Error),
        step.close == if response is EndResponse || response is Error {
            Some(id)
        } else {
            None
        },
        forall|other: u32|
            other != id && #[trigger] before.open_requests@.dom().contains(other)
                ==> after.open_requests@[other] == before.open_requests@[other],
        after.remote_pk == before.remote_pk,
{
    assert(after.open_requests@.dom() =~= before.open_requests@.dom());
}

/// A handshake in another version of the protocol introduces nobody, and neither does one with a
/// key of another length.
pub proof fn law_bad_handshakes_introduce_nobody(
    before: Protocol,
    after: Protocol,
    id: u32,
    handshake: Handshake,
    is_request: bool,
    step: ProtocolStep,
)
    requires
        handshake.version@ != PROTOCOL_VERSION@ || handshake.token@.len() != 32,
        is_message_step(
            before,
            after,
            (HdpMessage {
                id,
                content: if is_request {
                    Content::Request(RequestMessage::Handshake(handshake))
                } else {
                    Content::Response(ResponseMessage::Handshake(handshake))
                },
            }),
            step,
        ),
    ensures
        after.remote_pk == before.remote_pk,
        step.reply is None,
        step.event is Some && step.event->Some_0 is Err,
{
}

} // verus!
