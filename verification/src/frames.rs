//! Messages with a length prefix, one after the other in a stream of bytes
use crate::bytes;
use crate::bytes::{append_bytes, copy_range, from_be_bytes, to_be_bytes};
use crate::text;
use crate::text::{append_text, decimal_text, joined};
use crate::ui_messages::UiServerError;
use vstd::prelude::*;

verus! {

/// Maximum allowed payload size for a single length-prefixed peer message.
pub const MAX_LENGTH_PREFIX_MESSAGE_SIZE: u32 = 1024 * 1024;

/// A message behind its length as four bytes, most significant first.
pub open spec fn frame(message: Seq<u8>) -> Seq<u8> {
    bytes::be_bytes(message.len(), 4) + message
}

/// Messages framed one after the other.
pub open spec fn frames(messages: Seq<Seq<u8>>) -> Seq<u8>
    decreases messages.len(),
{
    if messages.len() == 0 {
        Seq::empty()
    } else {
        frame(messages[0]) + frames(messages.drop_first())
    }
}

/// The length that a stream announces for its next message.
pub open spec fn announced_len(stream: Seq<u8>) -> nat {
    bytes::be_value(stream.take(4))
}

/// The first message of a stream and what follows it, where the message is there as a whole.
pub open spec fn first_message(stream: Seq<u8>) -> Option<(Seq<u8>, Seq<u8>)> {
    if stream.len() >= 4 && stream.len() >= 4 + announced_len(stream) {
        let end = 4 + announced_len(stream) as int;
        Some((stream.subrange(4, end), stream.skip(end)))
    } else {
        None
    }
}

/// This is used for http responses for the files and shares routes
pub fn create_length_prefixed_message(message: &[u8]) -> (r: Vec<u8>)
    requires
        message@.len() <= u32::MAX,
    ensures
        r@ == frame(message@),
{
    let mut buf = to_be_bytes(message.len() as u128, 4);
    append_bytes(&mut buf, message);
    buf
}

/// Reading gives back what was written: the first message of a stream that starts with a framed
/// message is that message, and what follows it follows.
pub proof fn law_frame_round_trip(message: Seq<u8>, rest: Seq<u8>)
    requires
        message.len() <= u32::MAX,
    ensures
        first_message(frame(message) + rest) == Some((message, rest)),
{
    let stream = frame(message) + rest;
    bytes::lemma_byte_ranges();
    bytes::lemma_be_bytes_len(message.len(), 4);
    bytes::lemma_be_value_of_bytes(message.len(), 4);
    assert(stream.take(4) =~= bytes::be_bytes(message.len(), 4));
    let end = 4 + message.len() as int;
    assert(stream.subrange(4, end) =~= message);
    assert(stream.skip(end) =~= rest);
}

/// It does not matter in what pieces a stream comes in: once a message is there, what comes later
/// does not change it.
pub proof fn law_chunking_does_not_matter(stream: Seq<u8>, more: Seq<u8>)
    requires
        first_message(stream) is Some,
    ensures
        first_message(stream + more) == Some(
            (first_message(stream)->Some_0.0, first_message(stream)->Some_0.1 + more),
        ),
{
    assert((stream + more).take(4) =~= stream.take(4));
    let end = 4 + announced_len(stream) as int;
    assert((stream + more).subrange(4, end) =~= stream.subrange(4, end));
    assert((stream + more).skip(end) =~= stream.skip(end) + more);
}

/// All messages that are in a stream as a whole, and what is left.
pub open spec fn all_messages(stream: Seq<u8>) -> (Seq<Seq<u8>>, Seq<u8>)
    decreases stream.len(),
{
    match first_message(stream) {
        Some((message, rest)) => {
            if rest.len() < stream.len() {
                let (messages, left) = all_messages(rest);
                (seq![message] + messages, left)
            } else {
                (seq![], stream)
            }
        },
        None => (seq![], stream),
    }
}

/// A stream of framed messages is read back as those messages, with nothing left over.
pub proof fn law_frames_round_trip(messages: Seq<Seq<u8>>)
    requires
        forall|i: int| 0 <= i < messages.len() ==> (#[trigger] messages[i]).len() <= u32::MAX,
    ensures
        all_messages(frames(messages)) == (messages, Seq::<u8>::empty()),
    decreases messages.len(),
{
    if messages.len() == 0 {
        assert(messages =~= Seq::<Seq<u8>>::empty());
    } else {
        let rest = messages.drop_first();
        assert forall|i: int| 0 <= i < rest.len() implies (#[trigger] rest[i]).len() <= u32::MAX by {
            assert(rest[i] == messages[i + 1]);
        }
        law_frames_round_trip(rest);
        law_frame_round_trip(messages[0], frames(rest));
        bytes::lemma_be_bytes_len(messages[0].len(), 4);
        assert(seq![messages[0]] + rest =~= messages);
    }
}

/// For deserializing chunked byte HTTP responses
pub struct LengthPrefixedStream {
    /// What has come in and was not handed out yet.
    pub buffer: Vec<u8>,
}

/// What comes from the stream of bytes.
pub enum StreamInput {
    /// Some bytes.
    Chunk(Vec<u8>),
    /// A failure, with its text.
    Failure(String),
    /// The end.
    End,
}

/// What comes of it.
pub enum StreamOutput {
    /// A message to decode.
    Message(Vec<u8>),
    /// More bytes are needed.
    Pending,
    /// The stream is over.
    Finished,
    /// The stream is broken.
    Failed(UiServerError),
}

impl LengthPrefixedStream {
    pub fn new() -> (r: LengthPrefixedStream)
        ensures
            r.buffer@ == Seq::<u8>::empty(),
    {
        LengthPrefixedStream { buffer: Vec::new() }
    }

    /// Takes the first message off the buffer, where it is there as a whole.
    pub fn take_message(&mut self) -> (r: Option<Vec<u8>>)
        ensures
            match r {
                Some(message) => first_message(old(self).buffer@) == Some(
                    (message@, final(self).buffer@),
                ),
                None => first_message(old(self).buffer@) is None && final(self).buffer@ == old(
                    self,
                ).buffer@,
            },
    {
        let available: usize = self.buffer.len();
        if available < 4 {
            return None;
        }
        let prefix = copy_range(self.buffer.as_slice(), 0, 4);
        proof {
            bytes::lemma_byte_ranges();
            bytes::lemma_be_bytes_of_value(prefix@);
            assert(prefix@ =~= self.buffer@.take(4));
        }
        let length: u128 = from_be_bytes(prefix.as_slice());
        if (available as u128) < 4 + length {
            return None;
        }
        let end: usize = 4 + length as usize;
        let message = copy_range(self.buffer.as_slice(), 4, end);
        let rest = copy_range(self.buffer.as_slice(), end, available);
        assert(rest@ =~= self.buffer@.skip(end as int));
        self.buffer = rest;
        Some(message)
    }

    /// Takes the next message, or where there is none, what comes from the stream of bytes.
    pub fn poll_next(&mut self, input: StreamInput) -> (r: StreamOutput)
        ensures
            match first_message(old(self).buffer@) {
                Some((message, rest)) => {
                    // The input is left for later
                    &&& r matches StreamOutput::Message(got) && got@ == message
                    &&& final(self).buffer@ == rest
                },
                None => match input {
                    StreamInput::Chunk(chunk) => {
                        let all = old(self).buffer@ + chunk@;
                        match first_message(all) {
                            Some((message, rest)) => r matches StreamOutput::Message(got) && got@
                                == message && final(self).buffer@ == rest,
                            None => r is Pending && final(self).buffer@ == all,
                        }
                    },
                    StreamInput::Failure(text) => {
                        &&& r matches StreamOutput::Failed(UiServerError::RequestError(error))
                            && error@ == text@
                        &&& final(self).buffer@ == old(self).buffer@
                    },
                    StreamInput::End => {
                        &&& final(self).buffer@ == old(self).buffer@
                        &&& if old(self).buffer@.len() == 0 {
                            r is Finished
                        } else {
                            r matches StreamOutput::Failed(UiServerError::RequestError(error))
                                && error@ == "Incomlete message at end of stream"@
                        }
                    },
                },
            },
    {
        // Try to parse a complete message
        match self.take_message() {
            Some(message) => {
                return StreamOutput::Message(message);
            },
            None => {},
        }
        // Not enough data - take the next chunk
        match input {
            StreamInput::Chunk(chunk) => {
                append_bytes(&mut self.buffer, chunk.as_slice());
                match self.take_message() {
                    Some(message) => StreamOutput::Message(message),
                    None => StreamOutput::Pending,
                }
            },
            StreamInput::Failure(text) => StreamOutput::Failed(UiServerError::RequestError(text)),
            StreamInput::End => {
                if self.buffer.len() == 0 {
                    StreamOutput::Finished
                } else {
                    StreamOutput::Failed(
                        UiServerError::RequestError("Incomlete message at end of stream".to_owned()),
                    )
                }
            },
        }
    }
}

/// The length of the message behind a prefix from a remote peer, unless it is too large.
pub fn process_length_prefix(prefix: &[u8; 4]) -> (r: Result<usize, String>)
    ensures
        match r {
            Ok(length) => length == bytes::be_value(prefix@) && length <= MAX_LENGTH_PREFIX_MESSAGE_SIZE,
            Err(error) => {
                &&& bytes::be_value(prefix@) > MAX_LENGTH_PREFIX_MESSAGE_SIZE
                &&& error@ == "Message too large: "@ + text::decimal(bytes::be_value(prefix@)) + " > "@
                    + text::decimal(MAX_LENGTH_PREFIX_MESSAGE_SIZE as nat)
            },
        },
{
    proof {
        bytes::lemma_byte_ranges();
        bytes::lemma_be_bytes_of_value(prefix@);
    }
    let length: u32 = from_be_bytes(prefix.as_slice()) as u32;
    if length > MAX_LENGTH_PREFIX_MESSAGE_SIZE {
        let mut error = joined("Message too large: ", decimal_text(length as u64).as_str());
        append_text(&mut error, " > ");
        append_text(&mut error, decimal_text(MAX_LENGTH_PREFIX_MESSAGE_SIZE as u64).as_str());
        return Err(error);
    }
    Ok(length as usize)
}

/// Says that a message was not read to its end: `read` of `available` bytes were.
pub fn check_fully_read(read: usize, available: usize) -> (r: Result<(), String>)
    requires
        read <= available,
    ensures
        match r {
            Ok(()) => read == available,
            Err(error) => read < available && error@ == "trailing bytes after bincode message: "@
                + text::decimal((available - read) as nat),
        },
{
    if read != available {
        return Err(
            joined(
                "trailing bytes after bincode message: ",
                decimal_text((available - read) as u64).as_str(),
            ),
        );
    }
    Ok(())
}

} // verus!
