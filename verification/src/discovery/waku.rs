//! Peer discovery by announcing ourselves, encrypted with topic name, over the Waku relay network
use crate::announce_address::AnnounceAddress;
use crate::bytes::copy_of;
use crate::discovery::mqtt::Received;
use crate::discovery::topic;
use crate::discovery::topic::Topic;
use crate::table;
use crate::table::{ByteSet, NameTable};
use crate::text::{append_text, joined, same_text};
use bincode_next::error::EncodeError;
use vstd::prelude::*;

verus! {

pub const RELAY_PROTOCOL_ID: &'static str = "/vac/waku/relay/2.0.0";

pub const DEFAULT_PUBSUB_TOPIC: &'static str = "/waku/2/default-waku/proto";

/// The content topic that goes with a topic.
pub open spec fn content_topic_of(public_id: Seq<char>) -> Seq<char> {
    "/hdp/1/"@ + public_id + "/proto"@
}

/// The content topic that goes with a topic.
pub fn content_topic(topic: &Topic) -> (r: String)
    ensures
        r@ == content_topic_of(topic.public_id@),
{
    let mut r = joined("/hdp/1/", topic.public_id.as_str());
    append_text(&mut r, "/proto");
    r
}

/// What announces us on a topic.
pub struct AnnouncePayload {
    pub topic: Topic,
    pub payload: Vec<u8>,
}

impl AnnouncePayload {
    pub fn new(topic: Topic, announce_address: &AnnounceAddress) -> (r: Result<
        AnnouncePayload,
        EncodeError,
    >)
        ensures
            r is Ok,
            r->Ok_0.topic == topic,
            topic.announces(r->Ok_0.payload@, *announce_address),
    {
        match topic.announce(announce_address) {
            Ok(payload) => Ok(AnnouncePayload { topic, payload }),
            Err(error) => Err(error),
        }
    }
}

/// A message to publish: its content topic and its payload.
#[derive(Debug)]
pub struct OutgoingMessage {
    pub content_topic: String,
    pub payload: Vec<u8>,
}

/// What is going on with the relay network.
pub struct WakuState {
    /// What announces us, by content topic.
    topics: NameTable<AnnouncePayload>,
    already_seen_announcements: ByteSet,
}

/// The state, for contracts.
#[verifier::ext_equal]
pub struct WakuView {
    pub topics: Map<Seq<char>, AnnouncePayload>,
    pub seen: Set<Seq<u8>>,
}

impl View for WakuState {
    type V = WakuView;

    closed spec fn view(&self) -> WakuView {
        WakuView { topics: self.topics@, seen: self.already_seen_announcements@ }
    }
}

/// Whether a message is the one that announces us on a content topic.
pub open spec fn announces(
    message: OutgoingMessage,
    topics: Map<Seq<char>, AnnouncePayload>,
    content_topic: Seq<char>,
) -> bool {
    &&& topics.dom().contains(content_topic)
    &&& message.content_topic@ == content_topic
    &&& message.payload@ == topics[content_topic].payload@
}

impl WakuState {
    pub fn new() -> (r: WakuState)
        ensures
            r@ == (WakuView { topics: Map::empty(), seen: Set::empty() }),
    {
        let r = WakuState { topics: NameTable::new(), already_seen_announcements: ByteSet::new() };
        assert(r@ =~= WakuView { topics: Map::empty(), seen: Set::empty() });
        r
    }

    /// A topic is joined, with the payload that announces us, if it could be made. Says whether
    /// that has worked.
    pub fn join(&mut self, topic: Topic, payload: Option<Vec<u8>>) -> (r: bool)
        ensures
            match payload {
                Some(payload) => {
                    &&& r
                    &&& final(self)@ == (WakuView {
                        topics: old(self)@.topics.insert(
                            content_topic_of(topic.public_id@),
                            AnnouncePayload { topic, payload },
                        ),
                        ..old(self)@
                    })
                },
                None => !r && final(self)@ == old(self)@,
            },
    {
        match payload {
            Some(payload) => {
                let name = content_topic(&topic);
                self.topics.insert(name, AnnouncePayload { topic, payload });
                true
            },
            None => false,
        }
    }

    /// A topic is left, so that we stop announcing ourselves.
    pub fn leave(&mut self, topic: &Topic)
        ensures
            final(self)@ == (WakuView {
                topics: old(self)@.topics.remove(content_topic_of(topic.public_id@)),
                ..old(self)@
            }),
    {
        let name = content_topic(topic);
        self.topics.remove(name.as_str());
    }

    /// We have been subscribed to a topic of the network. When it is the one that we use, we send
    /// our topic messages.
    pub fn subscribed(&self, pubsub_topic: &str) -> (r: Vec<OutgoingMessage>)
        ensures
            if pubsub_topic@ == DEFAULT_PUBSUB_TOPIC@ {
                exists|names: Seq<Seq<char>>|
                    #![trigger names.no_duplicates()]
                    {
                        &&& names.no_duplicates()
                        &&& names.to_set() == self@.topics.dom()
                        &&& names.len() == r@.len()
                        &&& forall|i: int|
                            0 <= i < r@.len() ==> announces(
                                #[trigger] r@[i],
                                self@.topics,
                                names[i],
                            )
                    }
            } else {
                r@.len() == 0
            },
    {
        let mut r: Vec<OutgoingMessage> = Vec::new();
        if !same_text(pubsub_topic, DEFAULT_PUBSUB_TOPIC) {
            return r;
        }
        let n: usize = self.topics.len();
        let ghost listed = self.topics.listed();
        let mut i: usize = 0;
        while i < n
            invariant
                i <= n,
                n == listed.len(),
                listed == self.topics.listed(),
                r@.len() == i,
                forall|k: int|
                    0 <= k < i ==> (#[trigger] r@[k]).content_topic@ == listed[k].0
                        && r@[k].payload@ == listed[k].1.payload@,
            decreases n - i,
        {
            let (name, announce) = self.topics.entry(i);
            r.push(
                OutgoingMessage {
                    content_topic: name.to_owned(),
                    payload: copy_of(announce.payload.as_slice()),
                },
            );
            i += 1;
        }
        proof {
            let topics = self.topics@;
            let names = listed.map_values(|entry: (Seq<char>, AnnouncePayload)| entry.0);
            assert forall|a: int, b: int| 0 <= a < b < names.len() implies names[a] != names[b] by {
                assert(listed[a].0 != listed[b].0);
            }
            assert(names.no_duplicates());
            assert forall|name: Seq<char>|
                names.to_set().contains(name) == topics.dom().contains(name) by {
                if topics.dom().contains(name) {
                    let k = table::key_index(listed, name);
                    assert(listed[k].0 == name);
                    assert(names[k] == name);
                }
                if names.to_set().contains(name) {
                    let k = choose|k: int| 0 <= k < names.len() && names[k] == name;
                    assert(listed[k].0 == name);
                }
            }
            assert(names.to_set() =~= topics.dom());
            assert forall|k: int| 0 <= k < r@.len() implies announces(
                #[trigger] r@[k],
                topics,
                names[k],
            ) by {
                assert(listed[k].0 == names[k]);
            }
        }
        r
    }

    /// What announces us on a content topic.
    pub fn hello(&self, content_topic: &str) -> (r: Option<OutgoingMessage>)
        ensures
            match r {
                Some(message) => announces(message, self@.topics, content_topic@),
                None => !self@.topics.dom().contains(content_topic@),
            },
    {
        match self.topics.get(content_topic) {
            Some(announce) => {
                let payload = announce.payload.as_slice();
                Some(
                    OutgoingMessage {
                        content_topic: content_topic.to_owned(),
                        payload: copy_of(payload),
                    },
                )
            },
            None => None,
        }
    }

    /// A message has come in.
    pub fn message_received(&mut self, content_topic: &str, payload: &[u8]) -> (r: Received)
        ensures
            final(self)@ == (WakuView { seen: old(self)@.seen.insert(payload@), ..old(self)@ }),
            match r {
                Received::AlreadySeen => old(self)@.seen.contains(payload@),
                Received::UnknownTopic => !old(self)@.seen.contains(payload@) && !old(
                    self,
                )@.topics.dom().contains(content_topic@),
                Received::Undecryptable => {
                    &&& !old(self)@.seen.contains(payload@)
                    &&& old(self)@.topics.dom().contains(content_topic@)
                    &&& topic::is_opening(
                        old(self)@.topics[content_topic@].topic.hash@,
                        payload@,
                        None,
                    )
                },
                Received::Announcement { topic, message } => {
                    &&& !old(self)@.seen.contains(payload@)
                    &&& topic@ == content_topic@
                    &&& old(self)@.topics.dom().contains(content_topic@)
                    &&& topic::is_opening(
                        old(self)@.topics[content_topic@].topic.hash@,
                        payload@,
                        Some(message@),
                    )
                },
            },
    {
        let copy = copy_of(payload);
        if !self.already_seen_announcements.insert(copy) {
            return Received::AlreadySeen;
        }
        // Check if the content_topic matches one of ours
        match self.topics.get(content_topic) {
            Some(announce) => {
                match announce.topic.decrypt(payload) {
                    Some(message) => Received::Announcement {
                        topic: content_topic.to_owned(),
                        message,
                    },
                    None => Received::Undecryptable,
                }
            },
            None => Received::UnknownTopic,
        }
    }
}

/// What announces us on a content topic is what was made for that topic.
pub proof fn law_announcements_are_those_of_the_topic(
    message: OutgoingMessage,
    topics: Map<Seq<char>, AnnouncePayload>,
    content_topic: Seq<char>,
)
    requires
        announces(message, topics, content_topic),
    ensures
        topics.dom().contains(message.content_topic@),
        message.content_topic@ == content_topic,
        message.payload@ == topics[message.content_topic@].payload@,
{
}

} // verus!
