//! Peer discovery by publishing ip address (encrypted with topic name) to an MQTT server
use crate::announce_address::AnnounceAddress;
use crate::bytes::copy_of;
use crate::discovery::mqtt_packets;
use crate::discovery::mqtt_packets::create_publish_packet;
use crate::discovery::topic;
use crate::discovery::topic::Topic;
use crate::table;
use crate::table::{ByteSet, NameTable};
use crate::text;
use crate::text::{is_contained, joined};
use bincode_next::error::EncodeError;
use std::collections::HashMap;
use vstd::prelude::*;

verus! {

broadcast use vstd::std_specs::hash::group_hash_axioms;

/// Keep alive timeout in seconds
pub const KEEP_ALIVE: u16 = 30;

/// How long to wait for a connection to the server, in seconds.
pub const TCP_TIMEOUT: u64 = 120;

/// How long to wait before reconnecting, in seconds.
pub const RECONNECT_DELAY: u64 = 2;

/// How long to wait before trying again to reconnect, in seconds.
pub const RECONNECT_RETRY_DELAY: u64 = 10;

/// The packet id with which to subscribe again.
pub const RESUBSCRIBE_PACKET_ID: u16 = 2;

/// Start the packet id counter at 10 to account for initial connect messages
pub const FIRST_PACKET_ID: u16 = 10;

pub const DEFAULT_MQTT_SERVER: &'static str = "broker.hivemq.com:1883";

/// The channel of a topic.
pub open spec fn channel_of(public_id: Seq<char>) -> Seq<char> {
    "hdp/"@ + public_id
}

/// The channel of a topic.
pub fn channel_name(topic: &Topic) -> (r: String)
    ensures
        r@ == channel_of(topic.public_id@),
{
    joined("hdp/", topic.public_id.as_str())
}

/// A topic that we are subscribed to.
pub struct MqttTopic {
    pub topic: Topic,
    /// The packet that announces us on this topic.
    pub publish_packet: Vec<u8>,
}

impl MqttTopic {
    pub fn new(topic: &Topic, announce_address: &AnnounceAddress) -> (r: Result<
        MqttTopic,
        EncodeError,
    >)
        requires
            topic.wf(),
        ensures
            r is Ok,
            r->Ok_0.topic == *topic,
            mqtt_packets::publishes(r->Ok_0.publish_packet@, *topic, *announce_address),
    {
        match create_publish_packet(topic, announce_address) {
            Ok(publish_packet) => Ok(MqttTopic { topic: topic.duplicate(), publish_packet }),
            Err(error) => Err(error),
        }
    }
}

/// What is going on with an MQTT server.
pub struct MqttState {
    /// The topics, by their names.
    topics: NameTable<MqttTopic>,
    /// Pending subscribe requests by packet id, with the name of the topic.
    subscribe_results: HashMap<u16, String>,
    /// Pending unsubscribe requests by packet id.
    unsubscribe_results: HashMap<u16, ()>,
    /// The packet id of the next request.
    packet_id_count: u16,
    /// Announce messages we don't need to act on because we already did
    announcements_already_seen: ByteSet,
}

/// The state, for contracts.
#[verifier::ext_equal]
pub struct MqttView {
    pub topics: Map<Seq<char>, MqttTopic>,
    pub subscribing: Map<u16, String>,
    pub unsubscribing: Set<u16>,
    pub next_id: u16,
    pub seen: Set<Seq<u8>>,
}

impl View for MqttState {
    type V = MqttView;

    closed spec fn view(&self) -> MqttView {
        MqttView {
            topics: self.topics@,
            subscribing: self.subscribe_results@,
            unsubscribing: self.unsubscribe_results@.dom(),
            next_id: self.packet_id_count,
            seen: self.announcements_already_seen@,
        }
    }
}

impl MqttView {
    /// Requests that are pending have smaller packet ids than those to come, and topics stand under
    /// their names.
    pub open spec fn wf(self) -> bool {
        &&& forall|id: u16| #[trigger] self.subscribing.dom().contains(id) ==> id < self.next_id
        &&& forall|id: u16| #[trigger] self.unsubscribing.contains(id) ==> id < self.next_id
        &&& forall|name: Seq<char>| #[trigger]
            self.topics.dom().contains(name) ==> self.topics[name].topic.name@ == name
                && self.topics[name].topic.wf()
    }
}

/// What comes of a message on a channel.
#[derive(Debug)]
pub enum Received {
    /// Already processed.
    AlreadySeen,
    /// On a channel that is none of ours.
    UnknownTopic,
    /// Not encrypted with the topic.
    Undecryptable,
    /// An announcement on the topic with this name, to be decoded.
    Announcement { topic: String, message: Vec<u8> },
}

/// What follows the confirmation of a subscribe request.
#[derive(Debug)]
pub struct Subscribed {
    /// What to tell whoever wanted to join.
    pub reply: Option<bool>,
    /// The packet that announces us, if it has to be sent.
    pub publish: Option<Vec<u8>>,
}

impl MqttState {
    /// The state after connecting for the first time.
    pub fn new() -> (r: MqttState)
        ensures
            r@ == (MqttView {
                topics: Map::empty(),
                subscribing: Map::empty(),
                unsubscribing: Set::empty(),
                next_id: FIRST_PACKET_ID,
                seen: Set::empty(),
            }),
            r@.wf(),
    {
        let r = MqttState {
            topics: NameTable::new(),
            subscribe_results: HashMap::new(),
            unsubscribe_results: HashMap::new(),
            packet_id_count: FIRST_PACKET_ID,
            announcements_already_seen: ByteSet::new(),
        };
        assert(r@ =~= MqttView {
            topics: Map::empty(),
            subscribing: Map::empty(),
            unsubscribing: Set::empty(),
            next_id: FIRST_PACKET_ID,
            seen: Set::empty(),
        });
        r
    }

    /// The packet id to use for the next request.
    pub fn next_packet_id(&self) -> (r: u16)
        ensures
            r == self@.next_id,
    {
        self.packet_id_count
    }

    /// A topic is joined. `publish_packet` is the packet that announces us, if it could be made,
    /// and `written` says whether the subscribe request was sent. Gives what to tell whoever wanted
    /// to join, unless that has to wait for the answer of the server.
    pub fn join(&mut self, topic: Topic, publish_packet: Option<Vec<u8>>, written: bool) -> (r:
        Option<bool>)
        requires
            old(self)@.wf(),
            old(self)@.next_id < u16::MAX,
            topic.wf(),
        ensures
            final(self)@.wf(),
            match publish_packet {
                None => r == Some(false) && final(self)@ == old(self)@,
                Some(packet) => {
                    let topics = old(self)@.topics.insert(
                        topic.name@,
                        MqttTopic { topic, publish_packet: packet },
                    );
                    if written {
                        &&& r is None
                        &&& final(self)@ == (MqttView {
                            topics,
                            subscribing: old(self)@.subscribing.insert(
                                old(self)@.next_id,
                                topic.name,
                            ),
                            next_id: (old(self)@.next_id + 1) as u16,
                            ..old(self)@
                        })
                    } else {
                        &&& r == Some(false)
                        &&& final(self)@ == (MqttView { topics, ..old(self)@ })
                    }
                },
            },
    {
        match publish_packet {
            Some(publish_packet) => {
                let name = topic.name.clone();
                let reply = if written {
                    self.subscribe_results.insert(self.packet_id_count, topic.name.clone());
                    self.packet_id_count = self.packet_id_count + 1;
                    None
                } else {
                    Some(false)
                };
                // Add the topic to our map so we keep sending publish packets
                self.topics.insert(name, MqttTopic { topic, publish_packet });
                reply
            },
            None => Some(false),
        }
    }

    /// A topic is left. `written` says whether the unsubscribe request was sent.
    pub fn leave(&mut self, topic: &Topic, written: bool) -> (r: Option<bool>)
        requires
            old(self)@.wf(),
            old(self)@.next_id < u16::MAX,
        ensures
            final(self)@.wf(),
            // We stop announcing ourselves in any case
            if written {
                &&& r is None
                &&& final(self)@ == (MqttView {
                    topics: old(self)@.topics.remove(topic.name@),
                    unsubscribing: old(self)@.unsubscribing.insert(old(self)@.next_id),
                    next_id: (old(self)@.next_id + 1) as u16,
                    ..old(self)@
                })
            } else {
                &&& r == Some(false)
                &&& final(self)@ == (MqttView {
                    topics: old(self)@.topics.remove(topic.name@),
                    ..old(self)@
                })
            },
    {
        let reply = if written {
            self.unsubscribe_results.insert(self.packet_id_count, ());
            self.packet_id_count = self.packet_id_count + 1;
            None
        } else {
            Some(false)
        };
        self.topics.remove(topic.name.as_str());
        proof {
            if written {
                assert(self@ =~= MqttView {
                    topics: old(self)@.topics.remove(topic.name@),
                    unsubscribing: old(self)@.unsubscribing.insert(old(self)@.next_id),
                    next_id: (old(self)@.next_id + 1) as u16,
                    ..old(self)@
                });
            }
        }
        reply
    }

    /// The server has answered a subscribe request.
    pub fn suback(&mut self, packet_id: u16, success: bool) -> (r: Subscribed)
        requires
            old(self)@.wf(),
        ensures
            final(self)@.wf(),
            final(self)@ == (MqttView {
                subscribing: old(self)@.subscribing.remove(packet_id),
                ..old(self)@
            }),
            if old(self)@.subscribing.dom().contains(packet_id) {
                let name = old(self)@.subscribing[packet_id]@;
                &&& r.reply == Some(success)
                // Publish our details to this topic
                &&& if success && old(self)@.topics.dom().contains(name) {
                    r.publish matches Some(packet) && packet@
                        == old(self)@.topics[name].publish_packet@
                } else {
                    r.publish is None
                }
            } else {
                // Unexpected
                r.reply is None && r.publish is None
            },
    {
        let pending = self.subscribe_results.remove(&packet_id);
        assert(self@ =~= MqttView {
            subscribing: old(self)@.subscribing.remove(packet_id),
            ..old(self)@
        });
        match pending {
            Some(name) => {
                let publish = if success {
                    self.announcement(name.as_str())
                } else {
                    None
                };
                Subscribed { reply: Some(success), publish }
            },
            None => Subscribed { reply: None, publish: None },
        }
    }

    /// The packet that announces us on a topic.
    fn announcement(&self, name: &str) -> (r: Option<Vec<u8>>)
        ensures
            match r {
                Some(packet) => self@.topics.dom().contains(name@) && packet@
                    == self@.topics[name@].publish_packet@,
                None => !self@.topics.dom().contains(name@),
            },
    {
        match self.topics.get(name) {
            Some(mqtt_topic) => {
                let packet = mqtt_topic.publish_packet.as_slice();
                Some(copy_of(packet))
            },
            None => None,
        }
    }

    /// The server has answered an unsubscribe request.
    pub fn unsuback(&mut self, packet_id: u16) -> (r: Option<bool>)
        requires
            old(self)@.wf(),
        ensures
            final(self)@.wf(),
            final(self)@ == (MqttView {
                unsubscribing: old(self)@.unsubscribing.remove(packet_id),
                ..old(self)@
            }),
            r == if old(self)@.unsubscribing.contains(packet_id) {
                Some(true)
            } else {
                None
            },
    {
        let removed = self.unsubscribe_results.remove(&packet_id);
        assert(self@ =~= MqttView {
            unsubscribing: old(self)@.unsubscribing.remove(packet_id),
            ..old(self)@
        });
        match removed {
            Some(_) => Some(true),
            None => None,
        }
    }

    /// The position of a topic that a channel belongs to.
    fn find_topic(&self, channel: &str) -> (r: Option<usize>)
        ensures
            match r {
                Some(i) => {
                    &&& i < self.topics.listed().len()
                    &&& text::contains_text(channel@, self.topics.listed()[i as int].1.topic.public_id@)
                    &&& self@.topics.dom().contains(self.topics.listed()[i as int].0)
                    &&& self@.topics[self.topics.listed()[i as int].0]
                        == self.topics.listed()[i as int].1
                },
                None => forall|name: Seq<char>| #[trigger]
                    self@.topics.dom().contains(name) ==> !text::contains_text(
                        channel@,
                        self@.topics[name].topic.public_id@,
                    ),
            },
    {
        let n: usize = self.topics.len();
        let ghost listed = self.topics.listed();
        let mut i: usize = 0;
        while i < n
            invariant
                i <= n,
                n == listed.len(),
                listed == self.topics.listed(),
                forall|k: int|
                    #![trigger listed[k]]
                    0 <= k < listed.len() ==> self.topics@.dom().contains(listed[k].0)
                        && self.topics@[listed[k].0] == listed[k].1,
                forall|k: int|
                    0 <= k < i ==> !text::contains_text(
                        channel@,
                        (#[trigger] listed[k]).1.topic.public_id@,
                    ),
            decreases n - i,
        {
            let (_, mqtt_topic) = self.topics.entry(i);
            assert(self.topics@.dom().contains(listed[i as int].0));
            if is_contained(channel, mqtt_topic.topic.public_id.as_str()) {
                return Some(i);
            }
            i += 1;
        }
        proof {
            assert forall|name: Seq<char>| #[trigger]
                self@.topics.dom().contains(name) implies !text::contains_text(
                channel@,
                self@.topics[name].topic.public_id@,
            ) by {
                let k = table::key_index(listed, name);
                assert(listed[k].0 == name);
            }
        }
        None
    }

    /// A message was published on a channel.
    pub fn publish_received(&mut self, channel: &str, payload: &[u8]) -> (r: Received)
        requires
            old(self)@.wf(),
        ensures
            final(self)@.wf(),
            final(self)@ == (MqttView { seen: old(self)@.seen.insert(payload@), ..old(self)@ }),
            match r {
                Received::AlreadySeen => old(self)@.seen.contains(payload@),
                Received::UnknownTopic => {
                    &&& !old(self)@.seen.contains(payload@)
                    &&& forall|name: Seq<char>| #[trigger]
                        old(self)@.topics.dom().contains(name) ==> !text::contains_text(
                            channel@,
                            old(self)@.topics[name].topic.public_id@,
                        )
                },
                Received::Undecryptable => {
                    &&& !old(self)@.seen.contains(payload@)
                    &&& exists|name: Seq<char>| #[trigger]
                        old(self)@.topics.dom().contains(name) && text::contains_text(
                            channel@,
                            old(self)@.topics[name].topic.public_id@,
                        ) && topic::is_opening(old(self)@.topics[name].topic.hash@, payload@, None)
                },
                Received::Announcement { topic, message } => {
                    &&& !old(self)@.seen.contains(payload@)
                    &&& old(self)@.topics.dom().contains(topic@)
                    &&& text::contains_text(channel@, old(self)@.topics[topic@].topic.public_id@)
                    &&& topic::is_opening(
                        old(self)@.topics[topic@].topic.hash@,
                        payload@,
                        Some(message@),
                    )
                },
            },
    {
        let copy = copy_of(payload);
        let is_new = self.announcements_already_seen.insert(copy);
        assert(self@ =~= MqttView { seen: old(self)@.seen.insert(payload@), ..old(self)@ });
        if !is_new {
            return Received::AlreadySeen;
        }
        match self.find_topic(channel) {
            Some(i) => {
                let (name, mqtt_topic) = self.topics.entry(i);
                assert(old(self)@.topics.dom().contains(name@));
                assert(old(self)@.topics[name@] == *mqtt_topic);
                match mqtt_topic.topic.decrypt(payload) {
                    Some(message) => Received::Announcement { topic: name.to_owned(), message },
                    None => Received::Undecryptable,
                }
            },
            None => {
                assert forall|name: Seq<char>| #[trigger]
                    old(self)@.topics.dom().contains(name) implies !text::contains_text(
                    channel@,
                    old(self)@.topics[name].topic.public_id@,
                ) by {
                    assert(self@.topics.dom().contains(name));
                }
                Received::UnknownTopic
            },
        }
    }

    /// A peer was announced on a topic. Gives the packet to say 'hello' with, by re-publishing our
    /// own announce message to this topic, where we want to get into contact with the peer.
    pub fn peer_announced(
        &self,
        topic: &str,
        remote: &AnnounceAddress,
        ours: &AnnounceAddress,
    ) -> (r: Option<Vec<u8>>)
        ensures
            match r {
                Some(packet) => {
                    &&& greets(*remote, *ours)
                    &&& self@.topics.dom().contains(topic@)
                    &&& packet@ == self@.topics[topic@].publish_packet@
                },
                None => !greets(*remote, *ours) || !self@.topics.dom().contains(topic@),
            },
    {
        if remote.same_as(ours) {
            // Found our own announce message
            return None;
        }
        // Dont connect if we are both on the same IP - use mdns
        if remote.connection_details.ip() == ours.connection_details.ip() {
            return None;
        }
        self.announcement(topic)
    }

    /// The connection to the server was lost and is there again. Gives the channels to subscribe
    /// to.
    pub fn reconnected(&mut self) -> (r: Vec<String>)
        requires
            old(self)@.wf(),
        ensures
            final(self)@.wf(),
            final(self)@ == (MqttView {
                topics: old(self)@.topics,
                subscribing: Map::empty(),
                unsubscribing: Set::empty(),
                next_id: FIRST_PACKET_ID,
                seen: Set::empty(),
            }),
            exists|names: Seq<Seq<char>>|
                #![trigger names.no_duplicates()]
                {
                    &&& names.no_duplicates()
                    &&& names.to_set() == old(self)@.topics.dom()
                    &&& names.len() == r@.len()
                    &&& forall|i: int|
                        0 <= i < r@.len() ==> (#[trigger] r@[i])@ == channel_of(
                            old(self)@.topics[names[i]].topic.public_id@,
                        )
                },
            forall|i: int| 0 <= i < r@.len() ==> mqtt_packets::is_channel((#[trigger] r@[i])@),
    {
        self.subscribe_results = HashMap::new();
        self.unsubscribe_results = HashMap::new();
        self.packet_id_count = FIRST_PACKET_ID;
        self.announcements_already_seen = ByteSet::new();
        assert(self@ =~= MqttView {
            topics: old(self)@.topics,
            subscribing: Map::empty(),
            unsubscribing: Set::empty(),
            next_id: FIRST_PACKET_ID,
            seen: Set::empty(),
        });
        let mut r: Vec<String> = Vec::new();
        let n: usize = self.topics.len();
        let ghost listed = self.topics.listed();
        let ghost topics = self.topics@;
        let mut i: usize = 0;
        while i < n
            invariant
                i <= n,
                n == listed.len(),
                listed == self.topics.listed(),
                r@.len() == i,
                forall|k: int|
                    0 <= k < i ==> (#[trigger] r@[k])@ == channel_of(
                        listed[k].1.topic.public_id@,
                    ),
            decreases n - i,
        {
            let (_, mqtt_topic) = self.topics.entry(i);
            r.push(channel_name(&mqtt_topic.topic));
            i += 1;
        }
        proof {
            let names = listed.map_values(|entry: (Seq<char>, MqttTopic)| entry.0);
            assert forall|a: int, b: int| 0 <= a < b < names.len() implies names[a] != names[b] by {
                assert(listed[a].0 != listed[b].0);
            }
            assert(names.no_duplicates());
            assert forall|name: Seq<char>|
                names.to_set().contains(name) == topics.dom().contains(name) by {
                if topics.dom().contains(name) {
                    let k = table::key_index(listed, name);
                    assert(listed[k].0 == name);
                    assert(names[k] == name);
                }
                if names.to_set().contains(name) {
                    let k = choose|k: int| 0 <= k < names.len() && names[k] == name;
                    assert(listed[k].0 == name);
                }
            }
            assert(names.to_set() =~= topics.dom());
            assert forall|k: int| 0 <= k < r@.len() implies (#[trigger] r@[k])@ == channel_of(
                topics[names[k]].topic.public_id@,
            ) by {
                assert(listed[k].0 == names[k]);
            }
            assert forall|k: int| 0 <= k < r@.len() implies mqtt_packets::is_channel(
                (#[trigger] r@[k])@,
            ) by {
                assert(names.to_set().contains(names[k]));
                mqtt_packets::lemma_channel(topics[names[k]].topic);
            }
        }
        r
    }
}

/// Whether we want to get into contact with a peer that was announced on a topic: not with
/// ourself, and not with a peer at our own public address.
pub open spec fn greets(remote: AnnounceAddress, ours: AnnounceAddress) -> bool {
    remote != ours && remote.connection_details.spec_ip() != ours.connection_details.spec_ip()
}

/// What to do about a lost connection to the server.
#[derive(Debug, Clone, Copy, PartialEq, Eq, Structural)]
pub enum ReconnectStep {
    /// Subscribe again.
    Resubscribe,
    /// Try again.
    Retry,
    /// Give up.
    Stop,
}

/// An attempt to reconnect was made. Where it failed, the name of the server was looked up again.
pub fn reconnect_step(connected: bool, resolved: bool) -> (r: ReconnectStep)
    ensures
        r == if connected {
            ReconnectStep::Resubscribe
        } else if resolved {
            ReconnectStep::Retry
        } else {
            ReconnectStep::Stop
        },
{
    if connected {
        ReconnectStep::Resubscribe
    } else if resolved {
        ReconnectStep::Retry
    } else {
        ReconnectStep::Stop
    }
}

/// Two peers that are announced to each other both say 'hello', or neither does.
pub proof fn law_greeting_is_mutual(a: AnnounceAddress, b: AnnounceAddress)
    ensures
        greets(a, b) == greets(b, a),
{
}

/// We get into contact with every peer that is announced, unless it is at our own public address:
/// those are found on the local network.
pub proof fn law_peers_elsewhere_are_greeted(remote: AnnounceAddress, ours: AnnounceAddress)
    ensures
        greets(remote, ours) <==> remote.connection_details.spec_ip()
            != ours.connection_details.spec_ip(),
{
}

} // verus!
