//! The topics that were joined and left
use crate::bytes::copy_of;
use crate::discovery::topic::Topic;
use crate::table::NameTable;
use crate::text::{string_from_utf8, utf8_bytes};
use vstd::prelude::*;
use vstd::utf8::*;

verus! {

/// Database values for recording whether we are connected to a topic
pub const JOINED: [u8; 1] = [1];

pub const LEFT: [u8; 1] = [0];

/// A record of the database: a key and a value.
pub type Record = (Vec<u8>, Vec<u8>);

/// A topic as the user interface shows it.
#[derive(Debug, Clone, PartialEq, Eq)]
pub struct UiTopic {
    pub name: String,
    pub connected: bool,
    pub announce_payload: Option<Vec<u8>>,
}

/// How we were announced on the topics.
pub struct TopicsDb {
    pub announce_addresses: NameTable<Vec<u8>>,
}

/// Whether a record is that of a topic.
pub open spec fn is_topic_record(record: Record) -> bool {
    &&& valid_utf8(record.0@)
    &&& record.1@.len() > 0
    &&& record.1@[0] == 1 || record.1@[0] == 0
}

/// Whether a topic is shown as its record says.
pub open spec fn is_shown(
    record: Record,
    announce_addresses: Map<Seq<char>, Vec<u8>>,
    topic: UiTopic,
) -> bool {
    let name = decode_utf8(record.0@);
    &&& topic.name@ == name
    &&& topic.connected == (record.1@[0] == 1)
    &&& match topic.announce_payload {
        Some(payload) => announce_addresses.dom().contains(name) && payload@
            == announce_addresses[name]@,
        None => !announce_addresses.dom().contains(name),
    }
}

/// The records of topics among some records.
pub open spec fn topic_records(records: Seq<Record>) -> Seq<Record>
    decreases records.len(),
{
    if records.len() == 0 {
        Seq::empty()
    } else if is_topic_record(records.last()) {
        topic_records(records.drop_last()).push(records.last())
    } else {
        topic_records(records.drop_last())
    }
}

impl TopicsDb {
    pub fn new() -> (r: TopicsDb)
        ensures
            r.announce_addresses@ == Map::<Seq<char>, Vec<u8>>::empty(),
    {
        TopicsDb { announce_addresses: NameTable::new() }
    }

    /// A topic is joined. Gives the record to store.
    pub fn join(&mut self, topic: &Topic, announce_address: Vec<u8>) -> (r: Record)
        ensures
            r.0@ == encode_utf8(topic.name@),
            r.1@ == JOINED@,
            final(self).announce_addresses@ == old(self).announce_addresses@.insert(
                topic.name@,
                announce_address,
            ),
    {
        self.announce_addresses.insert(topic.name.clone(), announce_address);
        let mut value: Vec<u8> = Vec::new();
        value.push(JOINED[0]);
        assert(value@ =~= JOINED@);
        (utf8_bytes(topic.name.as_str()), value)
    }

    /// A topic is left. Gives the record to store.
    pub fn leave(&self, topic: &Topic) -> (r: Record)
        ensures
            r.0@ == encode_utf8(topic.name@),
            r.1@ == LEFT@,
    {
        let mut value: Vec<u8> = Vec::new();
        value.push(LEFT[0]);
        assert(value@ =~= LEFT@);
        (utf8_bytes(topic.name.as_str()), value)
    }

    /// The topics that were joined or left, as the records show them.
    pub fn get_topics(&self, records: &Vec<Record>) -> (r: Vec<UiTopic>)
        ensures
            r@.len() == topic_records(records@).len(),
            forall|i: int|
                0 <= i < r@.len() ==> is_shown(
                    topic_records(records@)[i],
                    self.announce_addresses@,
                    #[trigger] r@[i],
                ),
    {
        let mut r: Vec<UiTopic> = Vec::new();
        let mut i: usize = 0;
        assert(records@.take(0) =~= Seq::<Record>::empty());
        while i < records.len()
            invariant
                i <= records@.len(),
                r@.len() == topic_records(records@.take(i as int)).len(),
                forall|k: int|
                    0 <= k < r@.len() ==> is_shown(
                        topic_records(records@.take(i as int))[k],
                        self.announce_addresses@,
                        #[trigger] r@[k],
                    ),
            decreases records@.len() - i,
        {
            let record = &records[i];
            assert(records@.take(i + 1).drop_last() =~= records@.take(i as int));
            assert(records@.take(i + 1).last() == *record);
            let key = copy_of(record.0.as_slice());
            match string_from_utf8(key) {
                Ok(name) => {
                    if record.1.len() > 0 && (record.1[0] == 1 || record.1[0] == 0) {
                        let announce_payload = match self.announce_addresses.get(name.as_str()) {
                            Some(payload) => {
                                let payload = payload.as_slice();
                                Some(copy_of(payload))
                            },
                            None => None,
                        };
                        r.push(UiTopic { name, connected: record.1[0] == 1, announce_payload });
                    }
                },
                Err(_) => {},
            }
            i += 1;
        }
        assert(records@.take(i as int) =~= records@);
        r
    }
}

/// A topic that is joined is shown as connected, and one that is left as not connected.
pub proof fn law_topic_record_round_trip(
    joined: Record,
    left: Record,
    name: Seq<char>,
    addresses: Map<Seq<char>, Vec<u8>>,
    shown: UiTopic,
)
    requires
        joined.0@ == encode_utf8(name),
        joined.1@ == JOINED@,
        left.0@ == encode_utf8(name),
        left.1@ == LEFT@,
    ensures
        is_topic_record(joined) && is_topic_record(left),
        is_shown(joined, addresses, shown) ==> shown.name@ == name && shown.connected,
        is_shown(left, addresses, shown) ==> shown.name@ == name && !shown.connected,
{
    encode_utf8_valid_utf8(name);
    encode_utf8_decode_utf8(name);
}

/// The records that are those of topics are kept in their order: the name of such a record is a
/// text, and it says whether the topic is connected.
pub proof fn law_readable_topics_are_kept(records: Seq<Record>)
    ensures
        topic_records(records) == records.filter(
            |record: Record|
                valid_utf8(record.0@) && record.1@.len() > 0 && record.1@[0] <= 1,
        ),
    decreases records.len(),
{
    reveal(Seq::filter);
    if records.len() > 0 {
        law_readable_topics_are_kept(records.drop_last());
    }
}

/// A topic is shown with the address that is announced on it, if one is.
pub proof fn law_topics_are_shown_with_their_address(
    record: Record,
    announce_addresses: Map<Seq<char>, Vec<u8>>,
    topic: UiTopic,
)
    requires
        is_shown(record, announce_addresses, topic),
    ensures
        topic.name@ == decode_utf8(record.0@),
        topic.announce_payload is Some <==> announce_addresses.dom().contains(topic.name@),
        topic.announce_payload is Some ==> topic.announce_payload->Some_0@
            == announce_addresses[topic.name@]@,
{
}

} // verus!
