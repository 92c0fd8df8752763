//! Message types for the Redis Stream backend.
//!
//! - [`StreamMessage`] is a trait that knows how to convert a message into Redis Stream field/value
//!   pairs. The default implementation collapses the payload into a single `"data"` field.
//! - [`MapMessage`] is a [`Message`] backed by a `HashMap<String, String>`, each entry of which
//!   becomes a separate Redis Stream field.
use std::collections::HashMap;
use vstd::prelude::*;
use vstd::string::*;
use vstd::utf8::encode_utf8;

use crate::message::{ByteMessage, Message, StringMessage, WireBytes};
use crate::redis_impls::json::{json_string_map, read_json_map, text_map, write_json_map};
use crate::text::{
    law_lossy_decoding_keeps_text, map_opt, text_from_utf8_lossy, utf8_bytes, utf8_lossy, view_opt,
};

verus! {

/// The model of field/value pairs.
pub open spec fn field_models(fields: Seq<(String, Vec<u8>)>) -> Seq<(Seq<char>, Seq<u8>)> {
    fields.map_values(|field: (String, Vec<u8>)| (field.0@, field.1@))
}

/// The fields of an entry that carries a payload in a single `"data"` field.
pub open spec fn data_field(payload: Seq<u8>) -> Seq<(Seq<char>, Seq<u8>)> {
    seq![("data"@, payload)]
}

/// Whether field/value pairs carry the payload of a message in a single `"data"` field.
pub open spec fn carries_payload<M: Message>(message: M, fields: Seq<(Seq<char>, Seq<u8>)>) -> bool {
    exists|bytes: WireBytes|
        #[trigger] message.encoded_as(bytes) && fields == data_field(bytes.value)
}

/// Extension of [`Message`] that knows how to serialize itself as Redis Stream field/value pairs.
///
/// The default [`into_stream_fields()`](StreamMessage::into_stream_fields) collapses the payload
/// into a single `"data"` field. Types that want to emit real multi-field entries (e.g.
/// [`MapMessage`]) override that method. Each type opts in with an `impl` of its own, which is
/// empty where the default will do.
pub trait StreamMessage: Message {
    /// Consumes this message and returns it as a list of Redis Stream field/value pairs.
    fn into_stream_fields(self) -> (fields: Vec<(String, Vec<u8>)>) where Self: Sized
        default_ensures
            carries_payload(self, field_models(fields@)),
    {
        into_data_field(self)
    }
}

/// Puts the payload of a message into a single `"data"` field.
pub fn into_data_field<M: Message>(message: M) -> (fields: Vec<(String, Vec<u8>)>)
    ensures
        carries_payload(message, field_models(fields@)),
{
    let bytes = message.into_bytes();
    let ghost wire = bytes@;
    let payload = bytes.into_payload();
    let fields = vec![("data".to_string(), payload)];
    assert(message.encoded_as(wire));
    assert(field_models(fields@) =~= data_field(wire.value));
    fields
}

impl StreamMessage for ByteMessage {

}

impl StreamMessage for StringMessage {

}

/// A [`Message`] backed by a map of string field/value pairs.
///
/// When it is published as a stream message, each entry in the map becomes a separate Redis Stream
/// field rather than being collapsed into a single `"data"` blob.
#[derive(Debug, PartialEq)]
pub struct MapMessage {
    key: Option<String>,
    fields: HashMap<String, String>,
}

/// The model of a [`MapMessage`].
#[verifier::ext_equal]
pub struct MapModel {
    pub key: Option<Seq<char>>,
    pub fields: Map<Seq<char>, Seq<char>>,
}

impl View for MapMessage {
    type V = MapModel;

    closed spec fn view(&self) -> MapModel {
        MapModel { key: view_opt(self.key), fields: text_map(self.fields@) }
    }
}

impl Clone for MapMessage {
    fn clone(&self) -> (copy: Self)
        ensures
            copy@ == self@,
    {
        MapMessage { key: self.key.clone(), fields: self.fields.clone() }
    }
}

/// Gives a field a value. Trusts [`HashMap::insert`] to put the value in place of one that the field
/// already has, and to leave the other fields alone.
#[verifier::external_body]
fn insert_field(fields: &mut HashMap<String, String>, name: String, value: String)
    ensures
        text_map(final(fields)@) == text_map(old(fields)@).insert(name@, value@),
{
    fields.insert(name, value);
}

/// Whether pairs list the fields of a map, each of them once.
pub open spec fn lists_fields(
    pairs: Seq<(Seq<char>, Seq<char>)>,
    fields: Map<Seq<char>, Seq<char>>,
) -> bool {
    &&& forall|i: int, j: int|
        0 <= i < j < pairs.len() ==> (#[trigger] pairs[i]).0 != (#[trigger] pairs[j]).0
    &&& forall|i: int|
        0 <= i < pairs.len() ==> fields.contains_key((#[trigger] pairs[i]).0)
            && fields[pairs[i].0] == pairs[i].1
    &&& forall|name: Seq<char>| #[trigger]
        fields.contains_key(name) ==> exists|i: int|
            0 <= i < pairs.len() && (#[trigger] pairs[i]).0 == name
}

/// Lists the fields of a map. Trusts [`Vec::from_iter`] on a [`HashMap`] to visit every entry once,
/// in an order of which nothing is said.
#[verifier::external_body]
fn field_pairs(fields: HashMap<String, String>) -> (pairs: Vec<(String, String)>)
    ensures
        lists_fields(
            pairs@.map_values(|pair: (String, String)| (pair.0@, pair.1@)),
            text_map(fields@),
        ),
{
    Vec::from_iter(fields)
}

/// The fields that wire bytes decode to: those of a JSON object of strings, or else a single
/// `"data"` field with the text of the bytes.
pub open spec fn parsed_fields(bytes: Seq<u8>) -> Map<Seq<char>, Seq<char>> {
    match json_string_map(bytes) {
        Some(fields) => fields,
        None => map!["data"@ => utf8_lossy(bytes)],
    }
}

/// Parses bytes as a JSON object of strings, and falls back to a single `"data"` field that holds
/// their text.
fn parse_fields(bytes: &[u8]) -> (fields: HashMap<String, String>)
    ensures
        text_map(fields@) == parsed_fields(bytes@),
{
    match read_json_map(bytes) {
        Ok(fields) => fields,
        Err(_) => {
            let mut fields: HashMap<String, String> = HashMap::new();
            assert(text_map(fields@) =~= Map::empty());
            insert_field(&mut fields, "data".to_string(), text_from_utf8_lossy(bytes));
            assert(text_map(fields@) =~= map!["data"@ => utf8_lossy(bytes@)]);
            fields
        },
    }
}

/// The message that wire bytes decode to.
pub open spec fn decoded_fields(bytes: WireBytes) -> MapModel {
    MapModel {
        key: map_opt(bytes.key, |key: Seq<u8>| utf8_lossy(key)),
        fields: parsed_fields(bytes.value),
    }
}

impl MapMessage {
    /// Creates a [`MapMessage`] from a map of field/value pairs without a key.
    pub fn from_fields(fields: HashMap<String, String>) -> (message: Self)
        ensures
            message@ == (MapModel { key: None, fields: text_map(fields@) }),
    {
        MapMessage { key: None, fields }
    }
}

impl Message for MapMessage {
    type Key = String;

    type Value = HashMap<String, String>;

    type KeyRef<'a> = &'a str;

    type ValueRef<'a> = &'a HashMap<String, String>;

    closed spec fn held_key(&self) -> Option<String> {
        self.key
    }

    closed spec fn held_value(&self) -> HashMap<String, String> {
        self.fields
    }

    open spec fn shows_key<'a>(view: &'a str, key: String) -> bool {
        view@ == key@
    }

    open spec fn shows_value<'a>(
        view: &'a HashMap<String, String>,
        value: HashMap<String, String>,
    ) -> bool {
        *view == value
    }

    open spec fn decoded_from(&self, bytes: WireBytes) -> bool {
        self@ == decoded_fields(bytes)
    }

    open spec fn encoded_as(&self, bytes: WireBytes) -> bool {
        &&& bytes.key == map_opt(self@.key, |key: Seq<char>| encode_utf8(key))
        &&& json_string_map(bytes.value) == Some(self@.fields)
    }

    fn new(key: Option<String>, value: HashMap<String, String>) -> (message: Self)
        ensures
            message@ == (MapModel { key: view_opt(key), fields: text_map(value@) }),
    {
        MapMessage { key, fields: value }
    }

    fn from_value(value: HashMap<String, String>) -> (message: Self)
        ensures
            message@ == (MapModel { key: None, fields: text_map(value@) }),
    {
        MapMessage { key: None, fields: value }
    }

    fn from_bytes(key: Option<&[u8]>, value: &[u8]) -> (message: Self) {
        let text_key = match key {
            Some(bytes) => Some(text_from_utf8_lossy(bytes)),
            None => None,
        };
        MapMessage { key: text_key, fields: parse_fields(value) }
    }

    fn extract_key(self) -> (key: Option<String>)
        ensures
            view_opt(key) == self@.key,
    {
        self.key
    }

    fn extract_key_value(self) -> (pair: (Option<String>, HashMap<String, String>))
        ensures
            self@ == (MapModel { key: view_opt(pair.0), fields: text_map(pair.1@) }),
    {
        (self.key, self.fields)
    }

    fn extract_value(self) -> (value: HashMap<String, String>)
        ensures
            text_map(value@) == self@.fields,
    {
        self.fields
    }

    fn into_bytes(self) -> (bytes: ByteMessage) {
        let json = write_json_map(&self.fields).unwrap();
        let byte_key = match &self.key {
            Some(key) => Some(utf8_bytes(key.as_str())),
            None => None,
        };
        ByteMessage::new(byte_key, json)
    }

    fn key(&self) -> (key: Option<String>)
        ensures
            view_opt(key) == self@.key,
    {
        self.key.clone()
    }

    fn key_ref(&self) -> (view: Option<Self::KeyRef<'_>>)
        ensures
            view_opt(view) == self@.key,
    {
        match &self.key {
            Some(key) => Some(key.as_str()),
            None => None,
        }
    }

    fn value(&self) -> (value: HashMap<String, String>)
        ensures
            text_map(value@) == self@.fields,
    {
        self.fields.clone()
    }

    fn value_ref(&self) -> (view: Self::ValueRef<'_>)
        ensures
            text_map(view@) == self@.fields,
    {
        &self.fields
    }
}

impl From<ByteMessage> for MapMessage {
    fn from(bytes: ByteMessage) -> (message: Self)
        ensures
            message@ == decoded_fields(bytes@),
    {
        let (byte_key, byte_value) = bytes.extract_key_value();
        MapMessage::from_bytes(
            match &byte_key {
                Some(key) => Some(key.as_slice()),
                None => None,
            },
            byte_value.as_slice(),
        )
    }
}

impl vstd::std_specs::convert::FromSpecImpl<ByteMessage> for MapMessage {
    open spec fn obeys_from_spec() -> bool {
        false
    }

    open spec fn from_spec(bytes: ByteMessage) -> Self {
        arbitrary()
    }
}

/// Whether field/value pairs are the UTF-8 bytes of the fields of a map, each of them once.
pub open spec fn emits_fields(
    emitted: Seq<(Seq<char>, Seq<u8>)>,
    fields: Map<Seq<char>, Seq<char>>,
) -> bool {
    exists|pairs: Seq<(Seq<char>, Seq<char>)>|
        #[trigger] lists_fields(pairs, fields) && emitted == encoded_pairs(pairs)
}

/// Pairs of texts, with the second of each encoded as UTF-8.
pub open spec fn encoded_pairs(pairs: Seq<(Seq<char>, Seq<char>)>) -> Seq<(Seq<char>, Seq<u8>)> {
    pairs.map_values(|pair: (Seq<char>, Seq<char>)| (pair.0, encode_utf8(pair.1)))
}

impl StreamMessage for MapMessage {
    fn into_stream_fields(self) -> (fields: Vec<(String, Vec<u8>)>)
        ensures
            emits_fields(field_models(fields@), self@.fields),
    {
        let pairs = field_pairs(self.fields);
        let ghost models = pairs@.map_values(|pair: (String, String)| (pair.0@, pair.1@));
        let mut fields: Vec<(String, Vec<u8>)> = Vec::new();
        let mut at: usize = 0;
        while at < pairs.len()
            invariant
                at <= pairs.len(),
                models == pairs@.map_values(|pair: (String, String)| (pair.0@, pair.1@)),
                field_models(fields@) =~= encoded_pairs(models).take(at as int),
            decreases pairs.len() - at,
        {
            let ghost before = field_models(fields@);
            let field = (pairs[at].0.clone(), utf8_bytes(pairs[at].1.as_str()));
            fields.push(field);
            proof {
                let wanted = encoded_pairs(models);
                assert(field_models(fields@) =~= before.push((field.0@, field.1@)));
                assert(wanted.take(at + 1) =~= wanted.take(at as int).push(wanted[at as int]));
            }
            at = at + 1;
        }
        assert(field_models(fields@) =~= encoded_pairs(models));
        fields
    }
}

/// A [`MapMessage`] that is sent as bytes and decoded again is the same message.
pub proof fn law_map_message_round_trip(sent: MapMessage, bytes: WireBytes, received: MapMessage)
    requires
        sent.encoded_as(bytes),
        received.decoded_from(bytes),
    ensures
        received@ == sent@,
{
    if let Some(key) = sent@.key {
        law_lossy_decoding_keeps_text(key);
    }
}

/// Every field of a [`MapMessage`] is emitted once and under its own name, with the UTF-8 bytes of
/// its value, and nothing else is emitted: no name comes twice, each pair holds a field of the
/// message, and each field of the message has its pair.
pub proof fn law_every_field_is_emitted_once(sent: MapMessage, emitted: Vec<(String, Vec<u8>)>)
    requires
        call_ensures(<MapMessage as StreamMessage>::into_stream_fields, (sent,), emitted),
    ensures
        forall|i: int, j: int|
            0 <= i < j < emitted@.len() ==> (#[trigger] emitted@[i]).0@ != (
            #[trigger] emitted@[j]).0@,
        forall|i: int|
            0 <= i < emitted@.len() ==> sent@.fields.contains_key((#[trigger] emitted@[i]).0@)
                && emitted@[i].1@ == encode_utf8(sent@.fields[emitted@[i].0@]),
        forall|name: Seq<char>| #[trigger]
            sent@.fields.contains_key(name) ==> exists|i: int|
                0 <= i < emitted@.len() && (#[trigger] emitted@[i]).0@ == name,
{
    let models = field_models(emitted@);
    let pairs = choose|pairs: Seq<(Seq<char>, Seq<char>)>|
        #[trigger] lists_fields(pairs, sent@.fields) && models == encoded_pairs(pairs);
    assert(models.len() == pairs.len());
    assert forall|i: int| 0 <= i < emitted@.len() implies (#[trigger] emitted@[i]).0@ == pairs[i].0
        && emitted@[i].1@ == encode_utf8(pairs[i].1) by {
        assert(models[i] == (emitted@[i].0@, emitted@[i].1@));
        assert(encoded_pairs(pairs)[i] == (pairs[i].0, encode_utf8(pairs[i].1)));
    }
    assert forall|i: int, j: int| 0 <= i < j < emitted@.len() implies (#[trigger] emitted@[i]).0@
        != (#[trigger] emitted@[j]).0@ by {
        assert(pairs[i].0 != pairs[j].0);
    }
    assert forall|name: Seq<char>| #[trigger]
        sent@.fields.contains_key(name) implies exists|i: int|
        0 <= i < emitted@.len() && (#[trigger] emitted@[i]).0@ == name by {
        let i = choose|i: int| 0 <= i < pairs.len() && (#[trigger] pairs[i]).0 == name;
        assert(emitted@[i].0@ == name);
    }
}

/// A message that does not emit fields of its own travels in exactly one field, which is named
/// `"data"` and holds the payload: the bytes of a [`ByteMessage`] as they are, and the UTF-8 bytes
/// of the text of a [`StringMessage`]. A key is left out.
pub proof fn law_payload_is_emitted_as_data(
    bytes: ByteMessage,
    bytes_emitted: Vec<(String, Vec<u8>)>,
    text: StringMessage,
    text_emitted: Vec<(String, Vec<u8>)>,
)
    requires
        call_ensures(<ByteMessage as StreamMessage>::into_stream_fields, (bytes,), bytes_emitted),
        call_ensures(<StringMessage as StreamMessage>::into_stream_fields, (text,), text_emitted),
    ensures
        bytes_emitted@.len() == 1 && bytes_emitted@[0].0@ == "data"@ && bytes_emitted@[0].1@
            == bytes@.value,
        text_emitted@.len() == 1 && text_emitted@[0].0@ == "data"@ && text_emitted@[0].1@
            == encode_utf8(text@.value),
{
    let bytes_models = field_models(bytes_emitted@);
    let text_models = field_models(text_emitted@);
    assert(bytes_models.len() == 1 && text_models.len() == 1);
    assert(bytes_models[0] == (bytes_emitted@[0].0@, bytes_emitted@[0].1@));
    assert(text_models[0] == (text_emitted@[0].0@, text_emitted@[0].1@));
}

/// Whatever the message type, putting a message into a `"data"` field gives exactly one field of that
/// name, which holds the payload that the message travels as.
pub proof fn law_data_field_holds_the_payload<M: Message>(
    message: M,
    emitted: Vec<(String, Vec<u8>)>,
)
    requires
        call_ensures(into_data_field::<M>, (message,), emitted),
    ensures
        emitted@.len() == 1,
        emitted@[0].0@ == "data"@,
        exists|bytes: WireBytes|
            #[trigger] message.encoded_as(bytes) && emitted@[0].1@ == bytes.value,
{
    let models = field_models(emitted@);
    assert(models.len() == 1);
    assert(models[0] == (emitted@[0].0@, emitted@[0].1@));
}

/// What a [`MapMessage`] is made of: a JSON object of strings gives its fields, and any other bytes
/// give a single `"data"` field with their text; either way the key is the text of the key's bytes.
/// Decoding and conversion agree on it.
pub proof fn law_fields_are_parsed_or_kept_as_data(
    bytes: ByteMessage,
    converted: MapMessage,
    decoded: MapMessage,
)
    requires
        call_ensures(<MapMessage as From<ByteMessage>>::from, (bytes,), converted),
        decoded.decoded_from(bytes@),
    ensures
        converted@ == decoded@,
        match json_string_map(bytes@.value) {
            Some(fields) => converted@.fields == fields,
            None => converted@.fields == map!["data"@ => utf8_lossy(bytes@.value)],
        },
        match bytes@.key {
            Some(key) => converted@.key == Some(utf8_lossy(key)),
            None => converted@.key is None,
        },
{
}

/// A [`MapMessage`] that is turned into a [`ByteMessage`] and back is the same message, and the bytes
/// on the way are a JSON object of its fields, with the UTF-8 bytes of its key.
pub proof fn law_map_message_travels_as_json(
    sent: MapMessage,
    bytes: ByteMessage,
    received: MapMessage,
)
    requires
        call_ensures(<MapMessage as Message>::into_bytes, (sent,), bytes),
        call_ensures(<MapMessage as From<ByteMessage>>::from, (bytes,), received),
    ensures
        json_string_map(bytes@.value) == Some(sent@.fields),
        match sent@.key {
            Some(key) => bytes@.key == Some(encode_utf8(key)),
            None => bytes@.key is None,
        },
        received@ == sent@,
{
    law_map_message_round_trip(sent, bytes@, received);
}

/// A map message gives back the key and the fields that it was made of, in a copy too, and one that is
/// made of fields alone has no key.
pub proof fn law_map_message_gives_back_its_parts(
    key: Option<String>,
    fields: HashMap<String, String>,
    message: MapMessage,
    copy: MapMessage,
    owned_key: Option<String>,
    owned_fields: HashMap<String, String>,
    borrowed_key: Option<&str>,
    pair: (Option<String>, HashMap<String, String>),
    keyless: MapMessage,
    of_fields: MapMessage,
)
    requires
        call_ensures(<MapMessage as Message>::new, (key, fields), message),
        call_ensures(<MapMessage as Clone>::clone, (&message,), copy),
        call_ensures(<MapMessage as Message>::key, (&copy,), owned_key),
        call_ensures(<MapMessage as Message>::value, (&copy,), owned_fields),
        call_ensures(<MapMessage as Message>::key_ref, (&copy,), borrowed_key),
        call_ensures(<MapMessage as Message>::extract_key_value, (message,), pair),
        call_ensures(<MapMessage as Message>::from_value, (fields,), keyless),
        call_ensures(MapMessage::from_fields, (fields,), of_fields),
    ensures
        view_opt(owned_key) == view_opt(key),
        view_opt(borrowed_key) == view_opt(key),
        text_map(owned_fields@) == text_map(fields@),
        pair == (key, fields),
        keyless@ == (MapModel { key: None, fields: text_map(fields@) }),
        of_fields@ == keyless@,
{
}

} // verus!
