//! Redis Stream implementations of the messaging traits.
//!
//! There are two ways to publish a message to a Redis Stream:
//!
//! - [`Publisher::publish_request`](crate::Publisher::publish_request) serializes any
//!   [`Message`](crate::Message) into a single `"data"` field.
//! - [`RedisPublisher::publish_stream_request`] emits the field/value pairs of a [`StreamMessage`].
//!
//! Redis assigns stream entry identifiers itself, so a message key is not preserved. Retained
//! entries are materialized into payloads by normalizing their fields into a JSON object and
//! serializing that object into JSON bytes.
use vstd::prelude::*;
use vstd::string::*;
use vstd::utf8::{encode_utf8, encode_utf8_decode_utf8, encode_utf8_valid_utf8};

use crate::cache::{CacheKey, Source};
use crate::error::PubSubError;
use crate::message::{ByteMessage, Message, StringMessage, WireBytes, WireText};
use crate::queue::Queue;
use crate::text::utf8_lossy;
use crate::redis_impls::json::{
    flat_object, json_string_map, json_written, no_fields, writes, JsonTree,
};
use crate::redis_impls::value::{
    client_form, form_of, names_part, normalized, normalized_fields, redis_value_to_byte_message,
    refused_field, RedisScalar, RedisValue, ReplyForm,
};
use crate::transport::{
    all_typed, converted_from, Publisher, Snapshot, Subscriber, Target,
};

pub mod cache;
pub mod reply;
pub mod runtime;
pub mod stream_message;

pub use stream_message::{MapMessage, StreamMessage};

use reply::{
    entry_contents, has_form, lemma_single_rows, lists_rows, range_rows, read_range_reply,
    reads_range, single_rows, EntryForm,
};
use stream_message::{
    data_field, encoded_pairs, field_models, into_data_field, law_every_field_is_emitted_once,
    lists_fields, MapModel,
};

verus! {

/// The default value for the Redis stream length.
pub const STREAM_LEN_DEFAULT: usize = 100_000;

/// How many entries a stream is trimmed to when an entry is added.
#[derive(Clone, Copy, Debug, PartialEq, Eq, Structural)]
pub enum StreamMaxlen {
    /// Exactly this many entries (`MAXLEN =`).
    Equals(usize),
    /// Approximately this many entries (`MAXLEN ~`), which is cheaper.
    Approx(usize),
}

/// A request to add an entry to a stream, with an identifier that Redis assigns.
pub struct XaddRequest {
    /// The stream.
    pub topic: String,
    /// How many entries the stream is trimmed to.
    pub max_len: StreamMaxlen,
    /// The identifier of the entry: `*`, for Redis to assign one.
    pub id: String,
    /// The field/value pairs of the entry.
    pub fields: Vec<(String, Vec<u8>)>,
}

/// The model of an [`XaddRequest`].
#[verifier::ext_equal]
pub struct XaddModel {
    pub topic: Seq<char>,
    pub max_len: StreamMaxlen,
    pub id: Seq<char>,
    pub fields: Seq<(Seq<char>, Seq<u8>)>,
}

impl View for XaddRequest {
    type V = XaddModel;

    open spec fn view(&self) -> XaddModel {
        XaddModel {
            topic: self.topic@,
            max_len: self.max_len,
            id: self.id@,
            fields: field_models(self.fields@),
        }
    }
}

/// Redis-backed [`Publisher`] that writes to Redis Streams via `XADD`.
///
/// The message key is not preserved because Redis assigns its own stream entry identifier.
#[derive(Debug)]
pub struct RedisPublisher {
    host: String,
    stream_max_len: StreamMaxlen,
    topic: String,
}

impl RedisPublisher {
    /// How many entries the stream is trimmed to on each `XADD`.
    pub closed spec fn max_len(&self) -> StreamMaxlen {
        self.stream_max_len
    }

    /// The request that adds an entry with these fields.
    pub open spec fn adding(&self, fields: Seq<(Seq<char>, Seq<u8>)>) -> XaddModel {
        XaddModel { topic: self.target().topic, max_len: self.max_len(), id: "*"@, fields }
    }

    /// Returns how many entries the stream is trimmed to on each `XADD`.
    pub fn stream_max_len(&self) -> (max_len: StreamMaxlen)
        ensures
            max_len == self.max_len(),
    {
        self.stream_max_len
    }

    /// Configures the stream to be trimmed to approximately `new_max` entries on each `XADD`.
    ///
    /// Redis can trim in bulk at macro-node boundaries then, which is more efficient than exact
    /// trimming. The default is [`STREAM_LEN_DEFAULT`] entries, approximately.
    pub fn set_approx_stream_max_len(&mut self, new_max: usize)
        ensures
            final(self).max_len() == StreamMaxlen::Approx(new_max),
            final(self).target() == old(self).target(),
    {
        self.stream_max_len = StreamMaxlen::Approx(new_max);
    }

    /// Configures the stream to be trimmed to exactly `new_max` entries on each `XADD`.
    pub fn set_exact_stream_max_len(&mut self, new_max: usize)
        ensures
            final(self).max_len() == StreamMaxlen::Equals(new_max),
            final(self).target() == old(self).target(),
    {
        self.stream_max_len = StreamMaxlen::Equals(new_max);
    }

    /// Makes the request that adds an entry with these fields.
    fn xadd(&self, fields: Vec<(String, Vec<u8>)>) -> (request: XaddRequest)
        ensures
            request.fields == fields,
            request@ == self.adding(field_models(fields@)),
    {
        XaddRequest {
            topic: self.topic.clone(),
            max_len: self.stream_max_len,
            id: "*".to_string(),
            fields,
        }
    }

    /// Makes the request that publishes a message as native Redis Stream field/value pairs.
    ///
    /// Unlike [`Publisher::publish_request`], which always writes a single `"data"` field, this
    /// calls [`StreamMessage::into_stream_fields()`] to obtain the field/value pairs.
    pub fn publish_stream_request<M: StreamMessage>(&self, message: M) -> (request: XaddRequest)
        ensures
            call_ensures(M::into_stream_fields, (message,), request.fields),
            request@ == self.adding(field_models(request.fields@)),
    {
        self.xadd(message.into_stream_fields())
    }
}

impl Publisher for RedisPublisher {
    type Request = XaddRequest;

    closed spec fn target(&self) -> Target {
        Target { host: self.host@, topic: self.topic@ }
    }

    open spec fn sends(&self, bytes: WireBytes, request: XaddRequest) -> bool {
        request@ == self.adding(data_field(bytes.value))
    }

    fn new(host: String, topic: String) -> (publisher: Self)
        ensures
            publisher.max_len() == StreamMaxlen::Approx(STREAM_LEN_DEFAULT),
    {
        RedisPublisher { host, stream_max_len: StreamMaxlen::Approx(STREAM_LEN_DEFAULT), topic }
    }

    fn host(&self) -> (host: &str) {
        self.host.as_str()
    }

    /// Makes the request that publishes a message as a single `"data"` field.
    fn publish_request<M: Message>(&self, message: M) -> (request: XaddRequest) {
        self.xadd(into_data_field(message))
    }
}

/// An entry of a stream, as Redis returns it.
#[derive(Debug)]
pub struct StreamId {
    /// The identifier of the entry.
    pub id: String,
    /// The fields of the entry. Redis returns each name once.
    pub map: Vec<(String, RedisValue)>,
}

/// The reply value that holds the fields of an entry.
pub open spec fn entry_pairs(fields: Seq<(String, RedisValue)>) -> Seq<(RedisValue, RedisValue)> {
    fields.map_values(
        |field: (String, RedisValue)|
            (RedisValue::Scalar(RedisScalar::SimpleString(field.0)), field.1),
    )
}

/// Whether a reply value holds the fields of an entry.
pub open spec fn holds_entry(value: RedisValue, entry: StreamId) -> bool {
    value matches RedisValue::Dictionary(pairs) && pairs@ == entry_pairs(entry.map@)
}

/// Puts the fields of an entry into one reply value.
pub fn stream_entry_to_redis_value(entry: StreamId) -> (value: RedisValue)
    ensures
        holds_entry(value, entry),
{
    let ghost wanted = entry_pairs(entry.map@);
    let mut left = Queue::new(entry.map);
    let mut pairs: Vec<(RedisValue, RedisValue)> = Vec::new();
    let ghost mut done: int = 0;
    assert(entry.map@.skip(0) =~= entry.map@);
    while left.len() > 0
        invariant
            0 <= done <= entry.map@.len(),
            left@ == entry.map@.skip(done),
            wanted == entry_pairs(entry.map@),
            pairs@ =~= wanted.take(done),
        decreases left@.len(),
    {
        let (name, value) = left.take();
        assert((name, value) == entry.map@[done]);
        pairs.push((RedisValue::Scalar(RedisScalar::SimpleString(name)), value));
        proof {
            assert(wanted.take(done + 1) =~= wanted.take(done).push(wanted[done]));
            assert(left@ =~= entry.map@.skip(done + 1));
            done = done + 1;
        }
    }
    assert(pairs@ =~= wanted);
    RedisValue::Dictionary(pairs)
}

/// The JSON contents of the fields of an entry, if they can be normalized.
pub open spec fn entry_fields(entry: StreamId) -> Option<Map<Seq<char>, JsonTree>> {
    normalized_fields(entry_pairs(entry.map@))
}

/// Whether a message carries the fields of an entry; without a message, whether they cannot be
/// normalized.
pub open spec fn carries_entry(entry: StreamId, message: Option<WireBytes>) -> bool {
    match entry_fields(entry) {
        Some(fields) => message matches Some(bytes) && bytes.key is None && writes(
            JsonTree::Object(fields),
            bytes.value,
        ),
        None => message is None,
    }
}

/// Whether an error says why the fields of an entry cannot be normalized: it captures that the first
/// part without a text was refused.
pub open spec fn explains_entry(entry: StreamId, err: PubSubError) -> bool {
    &&& entry_fields(entry) is None
    &&& err.cause() is Some
    &&& exists|cause: redis::ParsingError|
        #[trigger] names_part(refused_field(entry_pairs(entry.map@)), cause) && err.captures(cause)
}

/// Materializes the fields of an entry into a message.
pub fn stream_entry_to_byte_message(entry: StreamId) -> (message: Result<ByteMessage, PubSubError>)
    ensures
        match message {
            Ok(message) => carries_entry(entry, Some(message@)),
            Err(err) => explains_entry(entry, err),
        },
{
    let value = stream_entry_to_redis_value(entry);
    match redis_value_to_byte_message(&value) {
        Ok(message) => Ok(message),
        Err(cause) => {
            assert(names_part(refused_field(entry_pairs(entry.map@)), cause));
            Err(PubSubError::from(cause))
        },
    }
}

/// Redis-backed [`Snapshot`] that reads the entries currently retained in a Redis Stream.
///
/// The reply is what `XRANGE` returns at read time. Entries trimmed before the read are not among
/// them.
pub struct RedisSnapshot;

/// Whether wire bytes carry the fields of entries, one by one and in order.
pub open spec fn carries_entries(entries: Seq<StreamId>, bytes: Seq<WireBytes>) -> bool {
    &&& bytes.len() == entries.len()
    &&& forall|i: int|
        0 <= i < entries.len() ==> carries_entry(#[trigger] entries[i], Some(bytes[i]))
}

/// The models of a sequence of byte messages.
pub open spec fn wire_models(messages: Seq<ByteMessage>) -> Seq<WireBytes> {
    messages.map_values(|message: ByteMessage| message@)
}

/// Whether an error says why the fields of the first entry that cannot be normalized cannot be.
pub open spec fn explains_entries(entries: Seq<StreamId>, err: PubSubError) -> bool {
    exists|i: int|
        {
            &&& 0 <= i < entries.len()
            &&& explains_entry(#[trigger] entries[i], err)
            &&& forall|j: int| 0 <= j < i ==> entry_fields(#[trigger] entries[j]) is Some
        }
}

/// Materializes the fields of entries into messages; fails at the first entry whose fields cannot be
/// normalized.
fn entry_payloads(entries: Vec<StreamId>) -> (payloads: Result<Vec<ByteMessage>, PubSubError>)
    ensures
        match payloads {
            Ok(payloads) => carries_entries(entries@, wire_models(payloads@)),
            Err(err) => explains_entries(entries@, err),
        },
{
    let mut left = Queue::new(entries);
    let mut payloads: Vec<ByteMessage> = Vec::new();
    assert(entries@.skip(0) =~= entries@);
    while left.len() > 0
        invariant
            payloads@.len() <= entries@.len(),
            left@ == entries@.skip(payloads@.len() as int),
            forall|i: int|
                0 <= i < payloads@.len() ==> carries_entry(
                    #[trigger] entries@[i],
                    Some(payloads@[i]@),
                ),
        decreases left@.len(),
    {
        let ghost done = payloads@.len() as int;
        let entry = left.take();
        assert(entry == entries@[done]);
        match stream_entry_to_byte_message(entry) {
            Ok(payload) => {
                payloads.push(payload);
            },
            Err(err) => {
                assert(explains_entry(entries@[done], err));
                return Err(err);
            },
        }
        assert(left@ =~= entries@.skip(done + 1));
    }
    Ok(payloads)
}

/// Converts byte messages into typed messages.
fn converted<M: Message>(payloads: Vec<ByteMessage>) -> (messages: Vec<M>)
    ensures
        messages@.len() == payloads@.len(),
        forall|i: int|
            0 <= i < payloads@.len() ==> call_ensures(
                <M as From<ByteMessage>>::from,
                (payloads@[i],),
                #[trigger] messages@[i],
            ),
{
    let mut left = Queue::new(payloads);
    let mut messages: Vec<M> = Vec::new();
    assert(payloads@.skip(0) =~= payloads@);
    while left.len() > 0
        invariant
            messages@.len() <= payloads@.len(),
            left@ == payloads@.skip(messages@.len() as int),
            forall|i: int|
                0 <= i < messages@.len() ==> call_ensures(
                    <M as From<ByteMessage>>::from,
                    (payloads@[i],),
                    #[trigger] messages@[i],
                ),
        decreases left@.len(),
    {
        let ghost done = messages@.len() as int;
        let payload = left.take();
        assert(payload == payloads@[done]);
        messages.push(M::from(payload));
        assert(left@ =~= payloads@.skip(done + 1));
    }
    messages
}

/// Whether making messages of entries comes to this: one message for each entry, in order, or an
/// error that explains the first entry that cannot be normalized.
pub open spec fn makes_messages<M: Message>(
    entries: Seq<StreamId>,
    messages: Result<Vec<M>, PubSubError>,
) -> bool {
    match messages {
        Ok(messages) => exists|bytes: Seq<WireBytes>|
            {
                &&& #[trigger] carries_entries(entries, bytes)
                &&& messages@.len() == bytes.len()
                &&& forall|i: int|
                    0 <= i < bytes.len() ==> converted_from(#[trigger] bytes[i], messages@[i])
            },
        Err(err) => explains_entries(entries, err),
    }
}

impl Snapshot for RedisSnapshot {
    type Reply = Vec<StreamId>;

    open spec fn holds(reply: Vec<StreamId>, bytes: Option<Seq<WireBytes>>) -> bool {
        match bytes {
            Some(bytes) => carries_entries(reply@, bytes),
            None => exists|i: int|
                0 <= i < reply@.len() && entry_fields(#[trigger] reply@[i]) is None,
        }
    }

    fn get<M: Message>(reply: Vec<StreamId>) -> (messages: Result<Vec<M>, PubSubError>)
        ensures
            makes_messages(reply@, messages),
    {
        let payloads = match entry_payloads(reply) {
            Ok(payloads) => payloads,
            Err(err) => {
                return Err(err);
            },
        };
        let ghost bytes = wire_models(payloads@);
        let messages: Vec<M> = converted(payloads);
        proof {
            assert forall|i: int| 0 <= i < bytes.len() implies converted_from(
                #[trigger] bytes[i],
                messages@[i],
            ) by {
                assert(payloads@[i]@ == bytes[i]);
                assert(call_ensures(
                    <M as From<ByteMessage>>::from,
                    (payloads@[i],),
                    messages@[i],
                ));
            }
            assert(Self::holds(reply, Some(bytes)));
            assert(all_typed(bytes, messages@));
        }
        Ok(messages)
    }
}

impl RedisSnapshot {
    /// Makes messages of an `XRANGE` reply.
    pub fn from_reply<M: Message>(reply: redis::Value) -> (messages: Result<Vec<M>, PubSubError>)
        ensures
            exists|read: Result<Vec<StreamId>, PubSubError>|
                {
                    &&& #[trigger] reads_range(reply, read)
                    &&& match read {
                        Ok(entries) => makes_messages(entries@, messages),
                        Err(err) => messages == Err::<Vec<M>, PubSubError>(err),
                    }
                },
    {
        let read = read_range_reply(reply);
        assert(reads_range(reply, read));
        match read {
            Ok(entries) => <RedisSnapshot as Snapshot>::get(entries),
            Err(err) => Err(err),
        }
    }
}

/// Redis-backed [`Subscriber`] for Redis Streams.
///
/// Subscribers for the same host/topic pair share a single background `XREAD` poller, which is
/// started by the first of them that asks for a stream.
#[derive(Debug)]
pub struct RedisSubscriber {
    host: String,
    topic: String,
}

impl Subscriber for RedisSubscriber {
    closed spec fn target(&self) -> Target {
        Target { host: self.host@, topic: self.topic@ }
    }

    open spec fn source() -> Source {
        Source::RedisStream
    }

    fn new(host: String, topic: String) -> (subscriber: Self) {
        RedisSubscriber { host, topic }
    }

    fn stream_key(&self) -> (key: CacheKey<'_>) {
        CacheKey::new(self.host.as_str(), self.topic.as_str(), Source::RedisStream)
    }
}

/// Whether a reply value is binary data with these bytes.
pub open spec fn is_binary(value: RedisValue, bytes: Seq<u8>) -> bool {
    value matches RedisValue::Scalar(RedisScalar::BulkString(data)) && data@ == bytes
}

/// Whether an entry that was added with these fields may come back as `entry`: each value as binary
/// data under its name.
pub open spec fn comes_back(fields: Seq<(Seq<char>, Seq<u8>)>, entry: StreamId) -> bool {
    &&& entry.map@.len() == fields.len()
    &&& forall|i: int|
        0 <= i < fields.len() ==> (#[trigger] entry.map@[i]).0@ == fields[i].0
            && is_binary(entry.map@[i].1, fields[i].1)
}

/// The JSON fields that pairs of texts make.
spec fn text_fields(pairs: Seq<(Seq<char>, Seq<char>)>) -> Map<Seq<char>, JsonTree>
    decreases pairs.len(),
{
    if pairs.len() == 0 {
        no_fields()
    } else {
        text_fields(pairs.drop_last()).insert(pairs.last().0, JsonTree::Text(pairs.last().1))
    }
}

proof fn lemma_texts_are_normalized(
    fields: Seq<(String, RedisValue)>,
    pairs: Seq<(Seq<char>, Seq<char>)>,
)
    requires
        fields.len() == pairs.len(),
        forall|i: int|
            0 <= i < fields.len() ==> (#[trigger] fields[i]).0@ == pairs[i].0
                && fields[i].1@ == ReplyForm::BulkString(encode_utf8(pairs[i].1)),
    ensures
        normalized_fields(entry_pairs(fields)) == Some(text_fields(pairs)),
    decreases fields.len(),
{
    let normal = entry_pairs(fields);
    if fields.len() > 0 {
        lemma_texts_are_normalized(fields.drop_last(), pairs.drop_last());
        assert(entry_pairs(fields.drop_last()) =~= normal.drop_last());
        let last = fields.len() - 1;
        assert(fields[last].0@ == pairs[last].0);
        encode_utf8_valid_utf8(pairs[last].1);
        encode_utf8_decode_utf8(pairs[last].1);
        assert(normal.last() == (
            RedisValue::Scalar(RedisScalar::SimpleString(fields[last].0)),
            fields[last].1,
        ));
        assert(form_of(fields[last].1) == ReplyForm::BulkString(encode_utf8(pairs[last].1)));
        assert(normalized(fields[last].1) == Some(JsonTree::Text(pairs[last].1)));
    }
}

proof fn lemma_text_fields(pairs: Seq<(Seq<char>, Seq<char>)>)
    requires
        forall|i: int, j: int|
            0 <= i < j < pairs.len() ==> (#[trigger] pairs[i]).0 != (#[trigger] pairs[j]).0,
    ensures
        forall|i: int|
            0 <= i < pairs.len() ==> text_fields(pairs).contains_key((#[trigger] pairs[i]).0)
                && text_fields(pairs)[pairs[i].0] == JsonTree::Text(pairs[i].1),
        forall|name: Seq<char>| #[trigger]
            text_fields(pairs).contains_key(name) ==> exists|i: int|
                0 <= i < pairs.len() && (#[trigger] pairs[i]).0 == name,
    decreases pairs.len(),
{
    if pairs.len() > 0 {
        let front = pairs.drop_last();
        let last = pairs.len() - 1;
        lemma_text_fields(front);
        assert forall|i: int| 0 <= i < pairs.len() implies text_fields(pairs).contains_key(
            (#[trigger] pairs[i]).0,
        ) && text_fields(pairs)[pairs[i].0] == JsonTree::Text(pairs[i].1) by {
            if i < last {
                assert(front[i] == pairs[i]);
                assert(pairs[i].0 != pairs[last].0);
            }
        }
        assert forall|name: Seq<char>| #[trigger]
            text_fields(pairs).contains_key(name) implies exists|i: int|
            0 <= i < pairs.len() && (#[trigger] pairs[i]).0 == name by {
            if name == pairs[last].0 {
                assert(pairs[last].0 == name);
            } else {
                let i = choose|i: int| 0 <= i < front.len() && (#[trigger] front[i]).0 == name;
                assert(pairs[i].0 == name);
            }
        }
    }
}

proof fn lemma_listed_fields_are_flat(
    pairs: Seq<(Seq<char>, Seq<char>)>,
    fields: Map<Seq<char>, Seq<char>>,
)
    requires
        lists_fields(pairs, fields),
    ensures
        JsonTree::Object(text_fields(pairs)) == flat_object(fields),
{
    lemma_text_fields(pairs);
    assert(text_fields(pairs) =~= fields.map_values(|text: Seq<char>| JsonTree::Text(text)));
}

/// Fields that were published as a native multi-field entry are read back as they were: a
/// [`MapMessage`] made of the entry holds the fields of the one that was sent, in whatever order
/// they were emitted or came back. Its key is gone.
pub proof fn law_published_fields_are_read_back(
    sent: MapMessage,
    returned: Seq<(Seq<char>, Seq<char>)>,
    entry: StreamId,
    bytes: WireBytes,
    received: MapMessage,
)
    requires
        lists_fields(returned, sent@.fields),
        comes_back(encoded_pairs(returned), entry),
        carries_entry(entry, Some(bytes)),
        received.decoded_from(bytes),
    ensures
        received@ == (MapModel { key: None, fields: sent@.fields }),
{
    assert forall|i: int| 0 <= i < entry.map@.len() implies (#[trigger] entry.map@[i]).0@
        == returned[i].0 && entry.map@[i].1@ == ReplyForm::BulkString(
        encode_utf8(returned[i].1),
    ) by {
        assert(encoded_pairs(returned)[i] == (returned[i].0, encode_utf8(returned[i].1)));
    }
    lemma_texts_are_normalized(entry.map@, returned);
    lemma_listed_fields_are_flat(returned, sent@.fields);
    assert(writes(flat_object(sent@.fields), bytes.value));
}

proof fn lemma_payload_is_data(payload: Seq<char>, entry: StreamId)
    requires
        comes_back(data_field(encode_utf8(payload)), entry),
    ensures
        entry_fields(entry) matches Some(fields) && JsonTree::Object(fields) == flat_object(
            map!["data"@ => payload],
        ),
{
    let pairs = seq![("data"@, payload)];
    let fields = map!["data"@ => payload];
    assert(entry.map@[0].0@ == data_field(encode_utf8(payload))[0].0);
    lemma_texts_are_normalized(entry.map@, pairs);
    assert(lists_fields(pairs, fields)) by {
        assert(pairs[0].0 == "data"@);
    }
    lemma_listed_fields_are_flat(pairs, fields);
}

/// A text payload that was published in a single `"data"` field is read back as that field.
pub proof fn law_published_payload_is_read_back_as_data(
    payload: Seq<char>,
    entry: StreamId,
    bytes: WireBytes,
    received: MapMessage,
)
    requires
        comes_back(data_field(encode_utf8(payload)), entry),
        carries_entry(entry, Some(bytes)),
        received.decoded_from(bytes),
    ensures
        received@ == (MapModel { key: None, fields: map!["data"@ => payload] }),
{
    lemma_payload_is_data(payload, entry);
    assert(writes(flat_object(map!["data"@ => payload]), bytes.value));
}

/// A text payload that was published in a single `"data"` field is read back as a
/// [`StringMessage`](crate::StringMessage) that shows the JSON object of that field.
pub proof fn law_published_payload_is_read_back_as_json(
    payload: Seq<char>,
    entry: StreamId,
    bytes: WireBytes,
    received: StringMessage,
)
    requires
        comes_back(data_field(encode_utf8(payload)), entry),
        carries_entry(entry, Some(bytes)),
        received.decoded_from(bytes),
    ensures
        received@ == (WireText {
            key: None,
            value: utf8_lossy(json_written(flat_object(map!["data"@ => payload]))),
        }),
{
    lemma_payload_is_data(payload, entry);
}

/// Whether an entry holds exactly these texts, each of them once and as UTF-8 binary data under its
/// name.
pub open spec fn holds_texts(entry: StreamId, fields: Map<Seq<char>, Seq<char>>) -> bool {
    &&& forall|k: int, l: int|
        0 <= k < l < entry.map@.len() ==> (#[trigger] entry.map@[k]).0@ != (
        #[trigger] entry.map@[l]).0@
    &&& forall|k: int|
        0 <= k < entry.map@.len() ==> fields.contains_key((#[trigger] entry.map@[k]).0@)
            && entry.map@[k].1@ == ReplyForm::BulkString(
            encode_utf8(fields[entry.map@[k].0@]),
        )
    &&& forall|name: Seq<char>| #[trigger]
        fields.contains_key(name) ==> exists|k: int|
            0 <= k < entry.map@.len() && (#[trigger] entry.map@[k]).0@ == name
}

pub(crate) proof fn lemma_entry_of_texts(entry: StreamId, fields: Map<Seq<char>, Seq<char>>)
    requires
        holds_texts(entry, fields),
    ensures
        entry_fields(entry) matches Some(trees) && JsonTree::Object(trees) == flat_object(fields),
{
    let pairs = Seq::new(
        entry.map@.len(),
        |k: int| (entry.map@[k].0@, fields[entry.map@[k].0@]),
    );
    assert forall|k: int| 0 <= k < entry.map@.len() implies (#[trigger] entry.map@[k]).0@
        == pairs[k].0 && entry.map@[k].1@ == ReplyForm::BulkString(encode_utf8(pairs[k].1)) by {}
    lemma_texts_are_normalized(entry.map@, pairs);
    assert(lists_fields(pairs, fields)) by {
        assert forall|i: int, j: int| 0 <= i < j < pairs.len() implies (#[trigger] pairs[i]).0 != (
        #[trigger] pairs[j]).0 by {
            assert(entry.map@[i].0@ != entry.map@[j].0@);
        }
        assert forall|i: int| 0 <= i < pairs.len() implies fields.contains_key(
            (#[trigger] pairs[i]).0,
        ) && fields[pairs[i].0] == pairs[i].1 by {
            assert(fields.contains_key(entry.map@[i].0@));
        }
        assert forall|name: Seq<char>| #[trigger] fields.contains_key(name) implies exists|i: int|
            0 <= i < pairs.len() && (#[trigger] pairs[i]).0 == name by {
            let k = choose|k: int|
                0 <= k < entry.map@.len() && (#[trigger] entry.map@[k]).0@ == name;
            assert(pairs[k].0 == name);
        }
    }
    lemma_listed_fields_are_flat(pairs, fields);
}

/// An entry of texts, however many there are, always makes a message: it has no key, its payload is
/// a JSON object of exactly these texts, and a [`MapMessage`] made of it holds them.
pub proof fn law_entry_of_texts_makes_a_message(
    entry: StreamId,
    fields: Map<Seq<char>, Seq<char>>,
    message: Result<ByteMessage, PubSubError>,
)
    requires
        holds_texts(entry, fields),
        call_ensures(stream_entry_to_byte_message, (entry,), message),
    ensures
        message matches Ok(message) && message@.key is None && json_string_map(message@.value)
            == Some(fields),
        forall|received: MapMessage|
            #![trigger received@]
            call_ensures(<MapMessage as From<ByteMessage>>::from, (message->Ok_0,), received)
                ==> received@ == (MapModel { key: None, fields }),
{
    lemma_entry_of_texts(entry, fields);
    if let Ok(message) = message {
        assert(writes(flat_object(fields), message@.value));
    }
}

/// What a [`MapMessage`] emits comes back as the message: where the emitted pairs return as the
/// fields of an entry, in whatever order, the entry makes a message, and the [`MapMessage`] made of
/// that holds the fields that were sent. Its key is gone.
pub proof fn law_emitted_fields_come_back(
    sent: MapMessage,
    emitted: Vec<(String, Vec<u8>)>,
    order: Seq<int>,
    entry: StreamId,
    message: Result<ByteMessage, PubSubError>,
    received: MapMessage,
)
    requires
        call_ensures(<MapMessage as StreamMessage>::into_stream_fields, (sent,), emitted),
        order.len() == emitted@.len(),
        forall|k: int| 0 <= k < order.len() ==> 0 <= #[trigger] order[k] < emitted@.len(),
        forall|k: int, l: int|
            0 <= k < l < order.len() ==> #[trigger] order[k] != #[trigger] order[l],
        forall|i: int| 0 <= i < emitted@.len() ==> #[trigger] order.contains(i),
        entry.map@.len() == order.len(),
        forall|k: int|
            0 <= k < order.len() ==> (#[trigger] entry.map@[k]).0@ == emitted@[order[k]].0@ && (
            entry.map@[k].1 matches RedisValue::Scalar(RedisScalar::BulkString(data)) && data@
                == emitted@[order[k]].1@),
        call_ensures(stream_entry_to_byte_message, (entry,), message),
        message matches Ok(carrier) ==> call_ensures(
            <MapMessage as From<ByteMessage>>::from,
            (carrier,),
            received,
        ),
    ensures
        message is Ok,
        received@ == (MapModel { key: None, fields: sent@.fields }),
{
    law_every_field_is_emitted_once(sent, emitted);
    assert forall|k: int, l: int| 0 <= k < l < entry.map@.len() implies (
    #[trigger] entry.map@[k]).0@ != (#[trigger] entry.map@[l]).0@ by {
        assert(order[k] != order[l]);
        assert(emitted@[order[k]].0@ != emitted@[order[l]].0@);
    }
    assert forall|name: Seq<char>| #[trigger]
        sent@.fields.contains_key(name) implies exists|k: int|
        0 <= k < entry.map@.len() && (#[trigger] entry.map@[k]).0@ == name by {
        let i = choose|i: int| 0 <= i < emitted@.len() && (#[trigger] emitted@[i]).0@ == name;
        assert(order.contains(i));
        let k = choose|k: int| 0 <= k < order.len() && order[k] == i;
        assert(entry.map@[k].0@ == name);
    }
    assert forall|k: int| 0 <= k < entry.map@.len() implies sent@.fields.contains_key(
        (#[trigger] entry.map@[k]).0@,
    ) && entry.map@[k].1@ == ReplyForm::BulkString(
        encode_utf8(sent@.fields[entry.map@[k].0@]),
    ) by {
        assert(emitted@[order[k]].0@ == entry.map@[k].0@);
    }
    lemma_entry_of_texts(entry, sent@.fields);
    if let Ok(carrier) = message {
        assert(writes(flat_object(sent@.fields), carrier@.value));
    }
}

/// Whatever is published, with or without a key, is added to the configured topic on the configured
/// host, under an identifier that Redis assigns and in exactly one field, which is named `"data"`
/// and holds the payload of the message. Unless something else was set, the stream is trimmed to
/// approximately a hundred thousand entries.
pub proof fn law_published_message_is_added_to_its_topic<M: Message>(
    host: String,
    topic: String,
    publisher: RedisPublisher,
    connected: &str,
    message: M,
    request: XaddRequest,
)
    requires
        call_ensures(<RedisPublisher as Publisher>::new, (host, topic), publisher),
        call_ensures(<RedisPublisher as Publisher>::host, (&publisher,), connected),
        call_ensures(
            <RedisPublisher as Publisher>::publish_request::<M>,
            (&publisher, message),
            request,
        ),
    ensures
        connected@ == host@,
        request.topic@ == topic@,
        request.id@ == "*"@,
        request.max_len == StreamMaxlen::Approx(100_000),
        request.fields@.len() == 1,
        request.fields@[0].0@ == "data"@,
        exists|bytes: WireBytes|
            #[trigger] message.encoded_as(bytes) && request.fields@[0].1@ == bytes.value,
{
    let bytes = choose|bytes: WireBytes|
        #[trigger] message.encoded_as(bytes) && publisher.sends(bytes, request);
    let models = request@.fields;
    assert(models == field_models(request.fields@));
    assert(models.len() == 1);
    assert(models[0] == (request.fields@[0].0@, request.fields@[0].1@));
}

/// Whatever is published with fields of its own is added to the configured topic under an identifier
/// that Redis assigns, with exactly the fields that the message emits, and the stream is trimmed as
/// the publisher was told.
pub proof fn law_published_fields_are_added_to_their_topic<M: StreamMessage>(
    publisher: RedisPublisher,
    max_len: StreamMaxlen,
    message: M,
    request: XaddRequest,
)
    requires
        call_ensures(RedisPublisher::stream_max_len, (&publisher,), max_len),
        call_ensures(
            RedisPublisher::publish_stream_request::<M>,
            (&publisher, message),
            request,
        ),
    ensures
        request.topic@ == publisher.target().topic,
        request.id@ == "*"@,
        request.max_len == max_len,
        call_ensures(M::into_stream_fields, (message,), request.fields),
{
}

/// Setting how a stream is trimmed, exactly or approximately, is what the requests after it ask for,
/// and changes neither the topic nor the host.
pub proof fn law_trimming_is_as_it_was_set(
    approx: &mut RedisPublisher,
    exact: &mut RedisPublisher,
    new_max: usize,
    approx_len: StreamMaxlen,
    exact_len: StreamMaxlen,
)
    requires
        call_ensures(RedisPublisher::set_approx_stream_max_len, (approx, new_max), ()),
        call_ensures(RedisPublisher::stream_max_len, (final(approx),), approx_len),
        call_ensures(RedisPublisher::set_exact_stream_max_len, (exact, new_max), ()),
        call_ensures(RedisPublisher::stream_max_len, (final(exact),), exact_len),
    ensures
        approx_len == StreamMaxlen::Approx(new_max),
        exact_len == StreamMaxlen::Equals(new_max),
        final(approx).target() == old(approx).target(),
        final(exact).target() == old(exact).target(),
{
}

/// A snapshot of entries of texts, however many entries and fields there are, succeeds: it has one
/// message for each entry, in order, and as [`MapMessage`]s they hold the texts of the entries.
pub proof fn law_snapshot_holds_every_entry(
    entries: Vec<StreamId>,
    fields: Seq<Map<Seq<char>, Seq<char>>>,
    bytes: Option<Seq<WireBytes>>,
    messages: Result<Vec<MapMessage>, PubSubError>,
)
    requires
        fields.len() == entries@.len(),
        forall|i: int|
            0 <= i < entries@.len() ==> holds_texts(#[trigger] entries@[i], fields[i]),
        RedisSnapshot::holds(entries, bytes),
        makes_messages(entries@, messages),
    ensures
        bytes matches Some(bytes) && bytes.len() == entries@.len() && forall|i: int|
            0 <= i < bytes.len() ==> (#[trigger] bytes[i]).key is None && json_string_map(
                bytes[i].value,
            ) == Some(fields[i]),
        messages matches Ok(messages) && messages@.len() == entries@.len() && forall|i: int|
            0 <= i < messages@.len() ==> (#[trigger] messages@[i])@ == (MapModel {
                key: None,
                fields: fields[i],
            }),
{
    assert forall|i: int| 0 <= i < entries@.len() implies entry_fields(
        #[trigger] entries@[i],
    ) matches Some(trees) && JsonTree::Object(trees) == flat_object(fields[i]) by {
        lemma_entry_of_texts(entries@[i], fields[i]);
    }
    assert forall|wires: Seq<WireBytes>, i: int|
        #[trigger] carries_entries(entries@, wires) && 0 <= i < wires.len() implies (
    #[trigger] wires[i]).key is None && json_string_map(wires[i].value) == Some(fields[i]) by {
        assert(carries_entry(entries@[i], Some(wires[i])));
        assert(writes(flat_object(fields[i]), wires[i].value));
    }
    lemma_snapshot_of_texts(entries@, fields, messages);
}

/// A subscriber is served by the runtime of its own host and topic among those of Redis Streams.
pub proof fn law_subscriber_streams_from_its_topic(
    host: String,
    topic: String,
    subscriber: RedisSubscriber,
    key: CacheKey<'_>,
)
    requires
        call_ensures(<RedisSubscriber as Subscriber>::new, (host, topic), subscriber),
        call_ensures(<RedisSubscriber as Subscriber>::stream_key, (&subscriber,), key),
    ensures
        key@.host == host@,
        key@.topic == topic@,
        key@.source == Source::RedisStream,
{
}

/// The fields of an entry are put into one reply value as they are: as many key/value pairs as fields,
/// in order, each with the name as a string and with the value itself.
pub proof fn law_fields_are_put_into_one_value(entry: StreamId, value: RedisValue)
    requires
        call_ensures(stream_entry_to_redis_value, (entry,), value),
    ensures
        value matches RedisValue::Dictionary(pairs) && pairs@.len() == entry.map@.len() && forall|
            i: int,
        |
            0 <= i < pairs@.len() ==> (#[trigger] pairs@[i]).0 == RedisValue::Scalar(
                RedisScalar::SimpleString(entry.map@[i].0),
            ) && pairs@[i].1 == entry.map@[i].1,
{
}

/// The message made of an entry is the one made of the reply value that holds its fields: it is there
/// exactly if that one is, and then it has the same payload and no key either.
pub proof fn law_entry_makes_the_message_of_its_fields(
    entry: StreamId,
    value: RedisValue,
    of_value: Result<ByteMessage, redis::ParsingError>,
    of_entry: Result<ByteMessage, PubSubError>,
)
    requires
        call_ensures(stream_entry_to_redis_value, (entry,), value),
        call_ensures(redis_value_to_byte_message, (&value,), of_value),
        call_ensures(stream_entry_to_byte_message, (entry,), of_entry),
    ensures
        of_entry is Ok <==> of_value is Ok,
        of_entry matches Ok(message) ==> message@ == of_value->Ok_0@,
        of_entry matches Err(err) ==> err.cause() is Some,
{
    if let RedisValue::Dictionary(pairs) = value {
        assert(normalized_fields(pairs@) == entry_fields(entry));
    }
}

/// A reply to an `XRANGE` whose rows have one entry of texts each is made into messages from end to
/// end: there is one message for each row, in order, and as [`MapMessage`]s they hold the texts of the
/// rows, whatever their names are and however many there are. A reply that cannot be read fails.
pub proof fn law_range_reply_makes_messages(
    reply: redis::Value,
    rows: Seq<EntryForm>,
    fields: Seq<Map<Seq<char>, Seq<char>>>,
    messages: Result<Vec<MapMessage>, PubSubError>,
)
    requires
        range_rows(client_form(reply)) == Some(single_rows(rows)) || range_rows(
            client_form(reply),
        ) is None,
        fields.len() == rows.len(),
        forall|i: int, name: Seq<char>|
            0 <= i < rows.len() ==> (#[trigger] rows[i].fields.contains_key(name)
                <==> fields[i].contains_key(name)),
        forall|i: int, name: Seq<char>|
            0 <= i < rows.len() && #[trigger] rows[i].fields.contains_key(name)
                ==> rows[i].fields[name] == ReplyForm::BulkString(encode_utf8(fields[i][name])),
        call_ensures(RedisSnapshot::from_reply::<MapMessage>, (reply,), messages),
    ensures
        range_rows(client_form(reply)) is None ==> messages is Err,
        range_rows(client_form(reply)) is Some ==> (messages matches Ok(messages)
            && messages@.len() == rows.len() && forall|i: int|
            0 <= i < messages@.len() ==> (#[trigger] messages@[i])@ == (MapModel {
                key: None,
                fields: fields[i],
            })),
{
    let read = choose|read: Result<Vec<StreamId>, PubSubError>|
        {
            &&& #[trigger] reads_range(reply, read)
            &&& match read {
                Ok(entries) => makes_messages(entries@, messages),
                Err(err) => messages == Err::<Vec<MapMessage>, PubSubError>(err),
            }
        };
    if range_rows(client_form(reply)) is Some {
        let entries = read->Ok_0;
        let forms = choose|forms: Seq<EntryForm>| #[trigger]
            lists_rows(single_rows(rows), forms) && reply::have_forms(entries@, forms);
        lemma_single_rows(rows, forms);
        assert forall|i: int| 0 <= i < entries@.len() implies holds_texts(
            #[trigger] entries@[i],
            fields[i],
        ) by {
            let entry = entries@[i];
            let pairs = entry_contents(entry);
            assert(has_form(entry, rows[i]));
            assert(forall|k: int|
                0 <= k < entry.map@.len() ==> #[trigger] pairs[k] == (
                    entry.map@[k].0@,
                    entry.map@[k].1@,
                ));
            assert forall|k: int, l: int| 0 <= k < l < entry.map@.len() implies (
            #[trigger] entry.map@[k]).0@ != (#[trigger] entry.map@[l]).0@ by {
                assert(pairs[k].0 != pairs[l].0);
            }
            assert forall|k: int| 0 <= k < entry.map@.len() implies fields[i].contains_key(
                (#[trigger] entry.map@[k]).0@,
            ) && entry.map@[k].1@ == ReplyForm::BulkString(
                encode_utf8(fields[i][entry.map@[k].0@]),
            ) by {
                assert(pairs[k].0 == entry.map@[k].0@);
                assert(rows[i].fields.contains_key(pairs[k].0));
            }
            assert forall|name: Seq<char>| #[trigger]
                fields[i].contains_key(name) implies exists|k: int|
                0 <= k < entry.map@.len() && (#[trigger] entry.map@[k]).0@ == name by {
                assert(rows[i].fields.contains_key(name));
                let k = choose|k: int| 0 <= k < pairs.len() && (#[trigger] pairs[k]).0 == name;
                assert(entry.map@[k].0@ == name);
            }
        }
        lemma_snapshot_of_texts(entries@, fields, messages);
    }
}

proof fn lemma_snapshot_of_texts(
    entries: Seq<StreamId>,
    fields: Seq<Map<Seq<char>, Seq<char>>>,
    messages: Result<Vec<MapMessage>, PubSubError>,
)
    requires
        fields.len() == entries.len(),
        forall|i: int| 0 <= i < entries.len() ==> holds_texts(#[trigger] entries[i], fields[i]),
        makes_messages(entries, messages),
    ensures
        messages matches Ok(messages) && messages@.len() == entries.len() && forall|i: int|
            0 <= i < messages@.len() ==> (#[trigger] messages@[i])@ == (MapModel {
                key: None,
                fields: fields[i],
            }),
{
    assert forall|i: int| 0 <= i < entries.len() implies entry_fields(
        #[trigger] entries[i],
    ) matches Some(trees) && JsonTree::Object(trees) == flat_object(fields[i]) by {
        lemma_entry_of_texts(entries[i], fields[i]);
    }
    if let Ok(messages) = messages {
        let wires = choose|wires: Seq<WireBytes>|
            {
                &&& #[trigger] carries_entries(entries, wires)
                &&& messages@.len() == wires.len()
                &&& forall|i: int|
                    0 <= i < wires.len() ==> converted_from(#[trigger] wires[i], messages@[i])
            };
        assert forall|i: int| 0 <= i < messages@.len() implies (#[trigger] messages@[i])@ == (
        MapModel { key: None, fields: fields[i] }) by {
            assert(carries_entry(entries[i], Some(wires[i])));
            assert(writes(flat_object(fields[i]), wires[i].value));
            assert(converted_from(wires[i], messages@[i]));
        }
    }
}

/// A snapshot is what is made of the entries one by one: it succeeds exactly if every entry makes a
/// message, and then has that message of each entry, in order, converted to its type. The bytes that
/// the reply holds are those of the messages.
pub proof fn law_snapshot_is_made_of_its_entries<M: Message>(
    entries: Vec<StreamId>,
    made: Seq<Result<ByteMessage, PubSubError>>,
    bytes: Option<Seq<WireBytes>>,
    messages: Result<Vec<M>, PubSubError>,
)
    requires
        made.len() == entries@.len(),
        forall|i: int|
            0 <= i < entries@.len() ==> call_ensures(
                stream_entry_to_byte_message,
                (#[trigger] entries@[i],),
                made[i],
            ),
        RedisSnapshot::holds(entries, bytes),
        makes_messages(entries@, messages),
    ensures
        messages is Ok <==> forall|i: int| 0 <= i < made.len() ==> (#[trigger] made[i]) is Ok,
        bytes is Some <==> messages is Ok,
        messages matches Ok(messages) ==> {
            &&& messages@.len() == entries@.len()
            &&& forall|i: int|
                0 <= i < entries@.len() ==> converted_from(
                    (#[trigger] made[i])->Ok_0@,
                    messages@[i],
                )
            &&& bytes->0.len() == entries@.len()
            &&& forall|i: int|
                0 <= i < entries@.len() ==> (#[trigger] made[i])->Ok_0@ == bytes->0[i]
        },
{
    assert forall|i: int| 0 <= i < made.len() implies ((#[trigger] made[i]) is Ok <==> entry_fields(
        entries@[i],
    ) is Some) by {
        assert(call_ensures(stream_entry_to_byte_message, (entries@[i],), made[i]));
    }
    assert forall|wires: Seq<WireBytes>, i: int|
        #[trigger] carries_entries(entries@, wires) && 0 <= i < entries@.len() implies (
    #[trigger] made[i]) is Ok && made[i]->Ok_0@ == wires[i] by {
        assert(carries_entry(entries@[i], Some(wires[i])));
        assert(call_ensures(stream_entry_to_byte_message, (entries@[i],), made[i]));
        assert(made[i]->Ok_0@ =~= wires[i]);
    }
    if let Ok(messages) = messages {
        let wires = choose|wires: Seq<WireBytes>|
            {
                &&& #[trigger] carries_entries(entries@, wires)
                &&& messages@.len() == wires.len()
                &&& forall|i: int|
                    0 <= i < wires.len() ==> converted_from(#[trigger] wires[i], messages@[i])
            };
        assert forall|i: int| 0 <= i < entries@.len() implies converted_from(
            (#[trigger] made[i])->Ok_0@,
            messages@[i],
        ) by {
            assert(converted_from(wires[i], messages@[i]));
            assert(made[i]->Ok_0@ == wires[i]);
        }
        if bytes is None {
            let i = choose|i: int|
                0 <= i < entries@.len() && entry_fields(#[trigger] entries@[i]) is None;
            assert(made[i] is Ok);
        }
        assert(carries_entries(entries@, bytes->0));
    } else {
        let i = choose|i: int|
            {
                &&& 0 <= i < entries@.len()
                &&& entry_fields(#[trigger] entries@[i]) is None
            };
        assert(made[i] is Err);
        if let Some(wires) = bytes {
            assert(carries_entries(entries@, wires));
        }
    }
}

} // verus!
