//! The packets that are sent to an MQTT server
use crate::announce_address::AnnounceAddress;
use crate::bytes;
use crate::discovery::mqtt;
use crate::discovery::mqtt::{RESUBSCRIBE_PACKET_ID, channel_name};
use crate::discovery::topic::Topic;
use crate::wire_messages;
use ::mqtt::packet::{
    PublishPacket, QoSWithPacketIdentifier, SubscribePacket, UnsubscribePacket,
};
use ::mqtt::{Encodable, QualityOfService, TopicFilter, TopicName};
use bincode_next::error::EncodeError;
use vstd::prelude::*;
use vstd::utf8::*;

verus! {

/// The most bytes that can follow the fixed header of a packet.
pub const MAX_REMAINING_LENGTH: usize = 0x0fff_ffff;

/// How a packet tells its length: seven bits in each byte, the lowest ones first. Each byte but the
/// last one is marked.
pub open spec fn remaining_length(n: nat) -> Seq<u8>
    decreases n,
{
    if n < 128 {
        seq![n as u8]
    } else {
        seq![(n % 128 + 128) as u8] + remaining_length(n / 128)
    }
}

/// A packet: its kind, its length, and what is in it.
pub open spec fn packet(kind: u8, body: Seq<u8>) -> Seq<u8> {
    seq![kind] + remaining_length(body.len()) + body
}

/// A text in a packet: the number of its bytes, and these.
pub open spec fn packet_text(text: Seq<char>) -> Seq<u8> {
    bytes::be_bytes(encode_utf8(text).len(), 2) + encode_utf8(text)
}

/// Whether a text can name a channel, and no other channel matches it.
pub open spec fn is_channel(text: Seq<char>) -> bool {
    &&& 0 < text.len() <= 65535
    &&& is_ascii_chars(text)
    &&& !text.contains('#')
    &&& !text.contains('+')
}

/// The packet that publishes a message on a channel, at most once and without keeping it.
pub open spec fn publish_packet(channel: Seq<char>, payload: Seq<u8>) -> Seq<u8> {
    packet(0x30, packet_text(channel) + payload)
}

/// Channels to subscribe to, each at most once.
pub open spec fn subscriptions(channels: Seq<String>) -> Seq<u8>
    decreases channels.len(),
{
    if channels.len() == 0 {
        Seq::empty()
    } else {
        subscriptions(channels.drop_last()) + packet_text(channels.last()@).push(0)
    }
}

/// The packet that subscribes to some channels.
pub open spec fn subscribe_request(packet_id: u16, channels: Seq<String>) -> Seq<u8> {
    packet(0x82, bytes::be_bytes(packet_id as nat, 2) + subscriptions(channels))
}

/// The packet that unsubscribes from a channel.
pub open spec fn unsubscribe_request(packet_id: u16, channel: Seq<char>) -> Seq<u8> {
    packet(0xa2, bytes::be_bytes(packet_id as nat, 2) + packet_text(channel))
}

/// Calls `PublishPacket::new` with the lowest quality of service, and `Encodable::encode` on the
/// packet, which writes its header, the name of the channel and the payload.
#[verifier::external_body]
fn encode_publish(channel: &str, payload: Vec<u8>) -> (r: Vec<u8>)
    requires
        is_channel(channel@),
        packet_text(channel@).len() + payload@.len() <= MAX_REMAINING_LENGTH,
    ensures
        r@ == publish_packet(channel@, payload@),
{
    let name = TopicName::new(channel).unwrap();
    let mut packet = PublishPacket::new(name, QoSWithPacketIdentifier::Level0, payload);
    packet.set_retain(false);
    let mut encoded = Vec::new();
    packet.encode(&mut encoded).unwrap();
    encoded
}

/// Calls `SubscribePacket::new` with the lowest quality of service for each channel, and
/// `Encodable::encode` on the packet, which writes its header, its identifier and each channel with
/// its quality of service.
#[verifier::external_body]
fn encode_subscribe(packet_id: u16, channels: Vec<String>) -> (r: Vec<u8>)
    requires
        forall|i: int| 0 <= i < channels@.len() ==> is_channel((#[trigger] channels@[i])@),
        2 + subscriptions(channels@).len() <= MAX_REMAINING_LENGTH,
    ensures
        r@ == subscribe_request(packet_id, channels@),
{
    let filters = channels
        .into_iter()
        .map(|channel| (TopicFilter::new(channel).unwrap(), QualityOfService::Level0))
        .collect();
    let mut encoded = Vec::new();
    SubscribePacket::new(packet_id, filters).encode(&mut encoded).unwrap();
    encoded
}

/// Calls `UnsubscribePacket::new`, and `Encodable::encode` on the packet, which writes its header,
/// its identifier and the channel.
#[verifier::external_body]
fn encode_unsubscribe(packet_id: u16, channel: &str) -> (r: Vec<u8>)
    requires
        is_channel(channel@),
    ensures
        r@ == unsubscribe_request(packet_id, channel@),
{
    let filter = TopicFilter::new(channel).unwrap();
    let mut encoded = Vec::new();
    UnsubscribePacket::new(packet_id, vec![filter]).encode(&mut encoded).unwrap();
    encoded
}

/// Whether a packet announces an address on the channel of a topic.
pub open spec fn publishes(packet: Seq<u8>, topic: Topic, address: AnnounceAddress) -> bool {
    exists|payload: Seq<u8>|
        topic.announces(payload, address) && packet == #[trigger] publish_packet(
            mqtt::channel_of(topic.public_id@),
            payload,
        )
}

/// The ID of a topic can name a channel.
pub proof fn lemma_channel(topic: Topic)
    requires
        topic.wf(),
    ensures
        is_channel(mqtt::channel_of(topic.public_id@)),
        mqtt::channel_of(topic.public_id@).len() == 68,
        packet_text(mqtt::channel_of(topic.public_id@)).len() == 70,
{
    reveal_strlit("hdp/");
    let channel = mqtt::channel_of(topic.public_id@);
    assert forall|i: int| 0 <= i < channel.len() implies '\0' <= #[trigger] channel[i] <= '\u{7f}'
        && channel[i] != '#' && channel[i] != '+' by {
        if i >= 4 {
            assert(channel[i] == topic.public_id@[i - 4]);
        }
    }
    is_ascii_chars_encode_utf8(channel);
    bytes::lemma_be_bytes_len(encode_utf8(channel).len(), 2);
}

/// The packet that announces an address on the channel of a topic
pub fn create_publish_packet(topic: &Topic, announce_address: &AnnounceAddress) -> (r: Result<
    Vec<u8>,
    EncodeError,
>)
    requires
        topic.wf(),
    ensures
        r is Ok,
        publishes(r->Ok_0@, *topic, *announce_address),
{
    match topic.announce(announce_address) {
        Ok(payload) => {
            proof {
                lemma_channel(*topic);
                wire_messages::lemma_wire_length(*announce_address);
            }
            Ok(encode_publish(channel_name(topic).as_str(), payload))
        },
        Err(error) => Err(error),
    }
}

/// The packet that subscribes to the channel of a topic
pub fn create_subscribe_packet(topic: &Topic, packet_id: u16) -> (r: Vec<u8>)
    requires
        topic.wf(),
    ensures
        r@ == packet(
            0x82,
            bytes::be_bytes(packet_id as nat, 2) + packet_text(
                mqtt::channel_of(topic.public_id@),
            ).push(0),
        ),
{
    let mut channels: Vec<String> = Vec::new();
    channels.push(channel_name(topic));
    proof {
        lemma_channel(*topic);
        assert(channels@.drop_last() =~= Seq::empty());
        assert(subscriptions(channels@.drop_last()) =~= Seq::empty());
        assert(subscriptions(channels@) =~= packet_text(channels@.last()@).push(0));
    }
    encode_subscribe(packet_id, channels)
}

/// The packet that unsubscribes from the channel of a topic
pub fn create_unsubscribe_packet(topic: &Topic, packet_id: u16) -> (r: Vec<u8>)
    requires
        topic.wf(),
    ensures
        r@ == unsubscribe_request(packet_id, mqtt::channel_of(topic.public_id@)),
{
    proof {
        lemma_channel(*topic);
    }
    encode_unsubscribe(packet_id, channel_name(topic).as_str())
}

/// The packet that subscribes again to channels, once a lost connection is there again
pub fn create_resubscribe_packet(channels: Vec<String>) -> (r: Vec<u8>)
    requires
        forall|i: int| 0 <= i < channels@.len() ==> is_channel((#[trigger] channels@[i])@),
        2 + subscriptions(channels@).len() <= MAX_REMAINING_LENGTH,
    ensures
        r@ == subscribe_request(RESUBSCRIBE_PACKET_ID, channels@),
{
    encode_subscribe(RESUBSCRIBE_PACKET_ID, channels)
}

/// The number that some bytes tell: each byte has seven bits of it, the lowest ones first, and the
/// first byte that is not marked is the last one.
pub open spec fn told_length(bytes: Seq<u8>) -> nat
    decreases bytes.len(),
{
    if bytes.len() == 0 {
        0
    } else if bytes[0] < 128 {
        bytes[0] as nat
    } else {
        (bytes[0] - 128) as nat + 128 * told_length(bytes.skip(1))
    }
}

/// The length that a packet tells is read as that length, whatever follows it.
pub proof fn law_told_length_is_read(n: nat, rest: Seq<u8>)
    ensures
        told_length(remaining_length(n) + rest) == n,
    decreases n,
{
    let told = remaining_length(n) + rest;
    if n >= 128 {
        law_told_length_is_read(n / 128, rest);
        assert(told.skip(1) =~= remaining_length(n / 128) + rest);
        assert(told[0] == (n % 128 + 128) as u8);
    } else {
        assert(told[0] == n as u8);
    }
}

/// A packet starts with its kind, then tells how many bytes follow, and then has these.
pub proof fn law_packets_tell_their_length(kind: u8, body: Seq<u8>)
    ensures
        packet(kind, body)[0] == kind,
        told_length(packet(kind, body).skip(1)) == body.len(),
        packet(kind, body).len() == 1 + remaining_length(body.len()).len() + body.len(),
        packet(kind, body).skip(1 + remaining_length(body.len()).len() as int) == body,
{
    law_told_length_is_read(body.len(), body);
    assert(packet(kind, body).skip(1) =~= remaining_length(body.len()) + body);
    assert(packet(kind, body).skip(1 + remaining_length(body.len()).len() as int) =~= body);
}

/// Packets are told apart by their first byte: those that publish, subscribe and unsubscribe.
pub proof fn law_packets_are_told_apart(
    packet_id: u16,
    channels: Seq<String>,
    channel: Seq<char>,
    payload: Seq<u8>,
)
    ensures
        publish_packet(channel, payload)[0] == 0x30,
        subscribe_request(packet_id, channels)[0] == 0x82,
        unsubscribe_request(packet_id, channel)[0] == 0xa2,
{
}

/// A message that is published follows the name of its channel, to the end of the packet.
pub proof fn law_payload_ends_the_packet(channel: Seq<char>, payload: Seq<u8>)
    ensures
        ({
            let all = publish_packet(channel, payload);
            let name = packet_text(channel);
            &&& all.len() >= name.len() + payload.len()
            &&& all.skip(all.len() - payload.len()) == payload
            &&& all.subrange(
                all.len() - payload.len() - name.len(),
                all.len() - payload.len(),
            ) == name
        }),
{
    let all = publish_packet(channel, payload);
    let name = packet_text(channel);
    assert(all.skip(all.len() - payload.len()) =~= payload);
    assert(all.subrange(
        all.len() - payload.len() - name.len(),
        all.len() - payload.len(),
    ) =~= name);
}

/// A text in a packet can be read back: its first two bytes tell how many bytes it has.
pub proof fn law_packet_texts_are_read(text: Seq<char>, rest: Seq<u8>)
    requires
        encode_utf8(text).len() <= 65535,
    ensures
        ({
            let all = packet_text(text) + rest;
            let length = bytes::be_value(all.take(2)) as int;
            &&& 2 + length <= all.len()
            &&& decode_utf8(all.subrange(2, 2 + length)) == text
            &&& all.skip(2 + length) == rest
        }),
{
    broadcast use vstd::utf8::group_utf8_lib;

    let all = packet_text(text) + rest;
    let encoded = encode_utf8(text);
    bytes::lemma_byte_ranges();
    bytes::lemma_be_bytes_len(encoded.len(), 2);
    bytes::lemma_be_value_of_bytes(encoded.len(), 2);
    assert(all.take(2) =~= bytes::be_bytes(encoded.len(), 2));
    assert(all.subrange(2, 2 + encoded.len() as int) =~= encoded);
    assert(all.skip(2 + encoded.len() as int) =~= rest);
}

/// Each channel of a subscription is named once, and asked for at most once delivery.
pub proof fn law_channels_are_subscribed_one_by_one(channels: Seq<String>, another: String)
    ensures
        subscriptions(channels.push(another)) == subscriptions(channels) + packet_text(another@).push(0),
        subscriptions(Seq::empty()) == Seq::<u8>::empty(),
{
    assert(channels.push(another).drop_last() =~= channels);
}

/// The name of a channel matches no other channel.
pub proof fn law_channels_have_no_wildcards(text: Seq<char>, i: int)
    requires
        is_channel(text),
        0 <= i < text.len(),
    ensures
        text[i] != '#',
        text[i] != '+',
{
}

} // verus!
