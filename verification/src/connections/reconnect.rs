//! Connecting to a peer, attempting several times with a backoff delay
use crate::connections::discovery::gossip_retry;
use crate::connections::discovery::gossip_retry::jittered;
use crate::text;
use crate::text::{append_text, decimal_text, joined};
use crate::ui_messages::UiServerError;
use vstd::prelude::*;

verus! {

/// Number of times to attempt to reconnect to a peer following lost connection
pub const RECONNECT_MAX_ATTEMPTS: u32 = 20;

/// Initial delay for reconnection attempt (backs off exponentially), in milliseconds
pub const RECONNECT_INITIAL_DELAY: u64 = 1000;

/// Maximum backoff delay, in milliseconds
pub const RECONNECT_MAX_DELAY: u64 = 120_000;

/// The attempts to connect to a peer.
#[derive(Debug)]
pub struct ConnectAttempts {
    /// The number of the current attempt.
    attempt: u32,
    /// The delay after it, in milliseconds.
    delay: u64,
}

impl ConnectAttempts {
    /// The number of the current attempt.
    pub closed spec fn number(self) -> nat {
        self.attempt as nat
    }

    /// The delay doubles with every attempt up to the limit, and there are not too many attempts.
    pub closed spec fn wf(self) -> bool {
        &&& 1 <= self.attempt <= RECONNECT_MAX_ATTEMPTS
        &&& self.delay == gossip_retry::backoff(
            RECONNECT_INITIAL_DELAY as nat,
            RECONNECT_MAX_DELAY as nat,
            self.attempt as nat,
        )
    }

    /// The first attempt.
    pub fn new() -> (r: ConnectAttempts)
        ensures
            r.wf(),
            r.number() == 1,
    {
        ConnectAttempts { attempt: 1, delay: RECONNECT_INITIAL_DELAY }
    }

    /// The current attempt has failed. Gives how long to wait before the next one, in
    /// milliseconds, or the error if this was the last attempt.
    pub fn failed(&mut self, error: &str) -> (r: Result<u64, UiServerError>)
        requires
            old(self).wf(),
        ensures
            final(self).wf(),
            match r {
                Ok(wait) => {
                    &&& old(self).number() < RECONNECT_MAX_ATTEMPTS
                    &&& final(self).number() == old(self).number() + 1
                    &&& gossip_retry::within_a_fifth(
                        wait as int,
                        gossip_retry::backoff(
                            RECONNECT_INITIAL_DELAY as nat,
                            RECONNECT_MAX_DELAY as nat,
                            old(self).number(),
                        ) as int,
                    )
                },
                Err(ui_error) => {
                    &&& old(self).number() == RECONNECT_MAX_ATTEMPTS
                    &&& final(self).number() == old(self).number()
                    &&& ui_error matches UiServerError::ConnectionError(text)
                    &&& text@ == "After connecting (attempt "@ + text::decimal(old(self).number()) + "/"@
                        + text::decimal(RECONNECT_MAX_ATTEMPTS as nat) + "): "@ + error@
                },
            },
    {
        // If this was the last attempt, return the error
        if self.attempt >= RECONNECT_MAX_ATTEMPTS {
            let mut text = joined(
                "After connecting (attempt ",
                decimal_text(self.attempt as u64).as_str(),
            );
            append_text(&mut text, "/");
            append_text(&mut text, decimal_text(RECONNECT_MAX_ATTEMPTS as u64).as_str());
            append_text(&mut text, "): ");
            append_text(&mut text, error);
            return Err(UiServerError::ConnectionError(text));
        }
        proof {
            gossip_retry::law_backoff_grows_to_the_limit(
                RECONNECT_INITIAL_DELAY as nat,
                RECONNECT_MAX_DELAY as nat,
                self.attempt as nat,
            );
        }
        let wait = jittered(self.delay);
        // Exponential backoff with cap
        self.delay = if 2 * self.delay <= RECONNECT_MAX_DELAY {
            2 * self.delay
        } else {
            RECONNECT_MAX_DELAY
        };
        self.attempt = self.attempt + 1;
        Ok(wait)
    }
}

/// The endpoint from which to connect to a peer.
#[derive(Debug, Clone, Copy, PartialEq, Eq, Structural)]
pub enum EndpointChoice {
    /// The one that peers connect to.
    Existing,
    /// A new one, with the socket that was found for this peer.
    PeerSocket,
    /// A new one, with a new socket.
    NewSocket,
}

/// If we don't have a static endpoint, create one for this connection
pub fn choose_endpoint(has_endpoint: bool, has_peer_socket: bool) -> (r: EndpointChoice)
    ensures
        r == if has_endpoint {
            EndpointChoice::Existing
        } else if has_peer_socket {
            EndpointChoice::PeerSocket
        } else {
            EndpointChoice::NewSocket
        },
{
    if has_endpoint {
        EndpointChoice::Existing
    } else if has_peer_socket {
        EndpointChoice::PeerSocket
    } else {
        EndpointChoice::NewSocket
    }
}

/// What connecting to a peer failed at.
#[derive(Debug, Clone, Copy, PartialEq, Eq, Structural)]
pub enum ConnectStage {
    CreatingEndpoint,
    Connecting,
    GettingCertificate,
}

/// The error for a stage at which connecting to a peer failed.
pub fn connect_error(stage: ConnectStage, error: &str) -> (r: UiServerError)
    ensures
        r matches UiServerError::ConnectionError(text) && text@ == match stage {
            ConnectStage::CreatingEndpoint => "When creating endpoint: "@ + error@,
            ConnectStage::Connecting => "When connecting: "@ + error@,
            ConnectStage::GettingCertificate => "When getting certificate: "@ + error@,
        },
{
    let text = match stage {
        ConnectStage::CreatingEndpoint => joined("When creating endpoint: ", error),
        ConnectStage::Connecting => joined("When connecting: ", error),
        ConnectStage::GettingCertificate => joined("When getting certificate: ", error),
    };
    UiServerError::ConnectionError(text)
}

} // verus!
