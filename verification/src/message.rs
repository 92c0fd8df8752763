//! The message abstraction and its two built-in implementations.
use std::fmt::Debug;
use vstd::prelude::*;
use vstd::utf8::{encode_utf8, valid_utf8};

use crate::text::{
    law_lossy_decoding_keeps_text, law_lossy_decoding_keeps_utf8, map_opt, text_from_utf8_lossy,
    utf8_bytes, utf8_lossy, view_opt,
};

verus! {

/// The bytes that a message travels as: an optional key and a value.
#[verifier::ext_equal]
pub struct WireBytes {
    pub key: Option<Seq<u8>>,
    pub value: Seq<u8>,
}

/// The texts that a [`StringMessage`] holds.
#[verifier::ext_equal]
pub struct WireText {
    pub key: Option<Seq<char>>,
    pub value: Seq<char>,
}

/// A trait describing a message from the pub/sub service.
///
/// Instances may be created with [`Message::new()`] when both key and value are available,
/// [`Message::from_value()`] when only the value is relevant, or [`Message::from_bytes()`] when a
/// backend is decoding raw transport bytes.
///
/// The trait defines four associated types: `Key` and `Value` for owned data, and `KeyRef<'a>` and
/// `ValueRef<'a>` for borrowed views. Both built-in types ([`ByteMessage`] and [`StringMessage`])
/// use the same type for key and value, but custom implementations may freely use different types.
///
/// The accessors come in three modes:
///
/// - [`Message::key()`] and [`Message::value()`] give owned clones of the stored data
/// - [`Message::key_ref()`] and [`Message::value_ref()`] give borrowed access
/// - [`Message::extract_key()`], [`Message::extract_key_value()`] and
///   [`Message::extract_value()`] consume the message and transfer ownership out of it
///
/// The contracts speak of what a message holds ([`Message::held_key`], [`Message::held_value`]) and
/// of how it relates to the bytes on the wire ([`Message::decoded_from`],
/// [`Message::encoded_as`]).
pub trait Message: Clone + Debug + PartialEq + From<ByteMessage> + Send + Sync {
    /// The type of the message's key, if one is present.
    type Key: Clone + Debug;

    /// The type of the message's value.
    type Value: Clone + Debug;

    /// Borrowed key view tied to the lifetime of `&self`.
    type KeyRef<'a> where Self: 'a;

    /// Borrowed value view tied to the lifetime of `&self`.
    type ValueRef<'a> where Self: 'a;

    /// The key that the message holds.
    spec fn held_key(&self) -> Option<Self::Key>;

    /// The value that the message holds.
    spec fn held_value(&self) -> Self::Value;

    /// Whether the borrowed view shows this key.
    spec fn shows_key<'a>(view: Self::KeyRef<'a>, key: Self::Key) -> bool;

    /// Whether the borrowed view shows this value.
    spec fn shows_value<'a>(view: Self::ValueRef<'a>, value: Self::Value) -> bool;

    /// Whether the message is what these wire bytes decode to.
    spec fn decoded_from(&self, bytes: WireBytes) -> bool;

    /// Whether the message may travel as these wire bytes.
    spec fn encoded_as(&self, bytes: WireBytes) -> bool;

    /// Creates a new message with the provided key and value.
    fn new(key: Option<Self::Key>, value: Self::Value) -> (message: Self)
        ensures
            message.held_key() == key,
            message.held_value() == value,
    ;

    /// Creates a new message with the provided value _without_ a key.
    fn from_value(value: Self::Value) -> (message: Self)
        ensures
            message.held_key() == None::<Self::Key>,
            message.held_value() == value,
    ;

    /// Creates a new message from the byte-encoded key and value pair.
    fn from_bytes(key: Option<&[u8]>, value: &[u8]) -> (message: Self)
        ensures
            message.decoded_from(WireBytes { key: view_opt(key), value: value@ }),
    ;

    /// Consumes this message and returns only the key, discarding the value.
    fn extract_key(self) -> (key: Option<Self::Key>)
        ensures
            key == self.held_key(),
    ;

    /// Consumes this message and returns the key and value as a tuple.
    fn extract_key_value(self) -> (pair: (Option<Self::Key>, Self::Value))
        ensures
            pair.0 == self.held_key(),
            pair.1 == self.held_value(),
    ;

    /// Consumes this message and returns only the value, discarding the key.
    fn extract_value(self) -> (value: Self::Value)
        ensures
            value == self.held_value(),
    ;

    /// Converts this message into a [`ByteMessage`], consuming this instance.
    fn into_bytes(self) -> (bytes: ByteMessage)
        ensures
            self.encoded_as(bytes@),
    ;

    /// Returns a clone of this message's key, if one is present.
    fn key(&self) -> (key: Option<Self::Key>)
        ensures
            key is Some <==> self.held_key() is Some,
            key matches Some(copy) ==> cloned(self.held_key()->0, copy),
    ;

    /// Returns a borrowed view of this message's key, if one is present.
    fn key_ref(&self) -> (view: Option<Self::KeyRef<'_>>)
        ensures
            view is Some <==> self.held_key() is Some,
            view matches Some(key) ==> Self::shows_key(key, self.held_key()->0),
    ;

    /// Returns a clone of this message's value.
    fn value(&self) -> (value: Self::Value)
        ensures
            cloned(self.held_value(), value),
    ;

    /// Returns a borrowed view of this message's value.
    fn value_ref(&self) -> (view: Self::ValueRef<'_>)
        ensures
            Self::shows_value(view, self.held_value()),
    ;
}

/// A [`Message`] containing already-serialized key and value bytes.
///
/// The key is optional because some brokers or calling patterns only care about a message payload.
#[derive(Debug, PartialEq)]
pub struct ByteMessage {
    key: Option<Vec<u8>>,
    value: Vec<u8>,
}

impl View for ByteMessage {
    type V = WireBytes;

    closed spec fn view(&self) -> WireBytes {
        WireBytes { key: view_opt(self.key), value: self.value@ }
    }
}

impl ByteMessage {
    /// Takes the value out of the message.
    pub(crate) fn into_payload(self) -> (payload: Vec<u8>)
        ensures
            payload@ == self@.value,
    {
        self.value
    }
}

impl Clone for ByteMessage {
    fn clone(&self) -> (copy: Self)
        ensures
            copy@ == self@,
    {
        let copy = ByteMessage { key: self.key.clone(), value: self.value.clone() };
        assert(copy.value@ =~= self.value@);
        assert(copy@ =~= self@);
        copy
    }
}

impl Message for ByteMessage {
    type Key = Vec<u8>;

    type Value = Vec<u8>;

    type KeyRef<'a> = &'a [u8];

    type ValueRef<'a> = &'a [u8];

    closed spec fn held_key(&self) -> Option<Vec<u8>> {
        self.key
    }

    closed spec fn held_value(&self) -> Vec<u8> {
        self.value
    }

    open spec fn shows_key<'a>(view: &'a [u8], key: Vec<u8>) -> bool {
        view@ == key@
    }

    open spec fn shows_value<'a>(view: &'a [u8], value: Vec<u8>) -> bool {
        view@ == value@
    }

    open spec fn decoded_from(&self, bytes: WireBytes) -> bool {
        self@ == bytes
    }

    open spec fn encoded_as(&self, bytes: WireBytes) -> bool {
        self@ == bytes
    }

    fn new(key: Option<Vec<u8>>, value: Vec<u8>) -> (message: Self)
        ensures
            message@ == (WireBytes { key: view_opt(key), value: value@ }),
    {
        ByteMessage { key, value }
    }

    fn from_value(value: Vec<u8>) -> (message: Self)
        ensures
            message@ == (WireBytes { key: None, value: value@ }),
    {
        ByteMessage { key: None, value }
    }

    fn from_bytes(key: Option<&[u8]>, value: &[u8]) -> (message: Self) {
        let owned_key = match key {
            Some(bytes) => Some(vstd::slice::slice_to_vec(bytes)),
            None => None,
        };
        ByteMessage { key: owned_key, value: vstd::slice::slice_to_vec(value) }
    }

    fn extract_key(self) -> (key: Option<Vec<u8>>)
        ensures
            view_opt(key) == self@.key,
    {
        self.key
    }

    fn extract_key_value(self) -> (pair: (Option<Vec<u8>>, Vec<u8>))
        ensures
            self@ == (WireBytes { key: view_opt(pair.0), value: pair.1@ }),
    {
        (self.key, self.value)
    }

    fn extract_value(self) -> (value: Vec<u8>)
        ensures
            value@ == self@.value,
    {
        self.value
    }

    fn into_bytes(self) -> (bytes: ByteMessage)
        ensures
            bytes == self,
    {
        self
    }

    fn key(&self) -> (key: Option<Vec<u8>>)
        ensures
            view_opt(key) == self@.key,
    {
        let key = self.key.clone();
        assert(key matches Some(copy) ==> copy@ =~= self.key->0@);
        key
    }

    fn key_ref(&self) -> (view: Option<Self::KeyRef<'_>>)
        ensures
            view_opt(view) == self@.key,
    {
        match &self.key {
            Some(key) => Some(key.as_slice()),
            None => None,
        }
    }

    fn value(&self) -> (value: Vec<u8>)
        ensures
            value@ == self@.value,
    {
        let value = self.value.clone();
        assert(value@ =~= self.value@);
        value
    }

    fn value_ref(&self) -> (view: Self::ValueRef<'_>)
        ensures
            view@ == self@.value,
    {
        self.value.as_slice()
    }
}

/// A [`Message`] represented as UTF-8-oriented strings.
///
/// The key remains optional to match brokers that do not require one. When converting from raw
/// bytes via [`StringMessage::from_bytes()`], invalid UTF-8 is decoded lossily with replacement
/// characters rather than returning an error.
#[derive(Debug, PartialEq)]
pub struct StringMessage {
    key: Option<String>,
    value: String,
}

impl View for StringMessage {
    type V = WireText;

    closed spec fn view(&self) -> WireText {
        WireText { key: view_opt(self.key), value: self.value@ }
    }
}

impl Clone for StringMessage {
    fn clone(&self) -> (copy: Self)
        ensures
            copy@ == self@,
    {
        StringMessage { key: self.key.clone(), value: self.value.clone() }
    }
}

/// The texts that lossy decoding makes of wire bytes.
pub open spec fn decoded_text(bytes: WireBytes) -> WireText {
    WireText {
        key: map_opt(bytes.key, |key: Seq<u8>| utf8_lossy(key)),
        value: utf8_lossy(bytes.value),
    }
}

/// The UTF-8 wire bytes of a pair of texts.
pub open spec fn encoded_text(text: WireText) -> WireBytes {
    WireBytes {
        key: map_opt(text.key, |key: Seq<char>| encode_utf8(key)),
        value: encode_utf8(text.value),
    }
}

impl Message for StringMessage {
    type Key = String;

    type Value = String;

    type KeyRef<'a> = &'a str;

    type ValueRef<'a> = &'a str;

    closed spec fn held_key(&self) -> Option<String> {
        self.key
    }

    closed spec fn held_value(&self) -> String {
        self.value
    }

    open spec fn shows_key<'a>(view: &'a str, key: String) -> bool {
        view@ == key@
    }

    open spec fn shows_value<'a>(view: &'a str, value: String) -> bool {
        view@ == value@
    }

    open spec fn decoded_from(&self, bytes: WireBytes) -> bool {
        self@ == decoded_text(bytes)
    }

    open spec fn encoded_as(&self, bytes: WireBytes) -> bool {
        bytes == encoded_text(self@)
    }

    fn new(key: Option<String>, value: String) -> (message: Self)
        ensures
            message@ == (WireText { key: view_opt(key), value: value@ }),
    {
        StringMessage { key, value }
    }

    fn from_value(value: String) -> (message: Self)
        ensures
            message@ == (WireText { key: None, value: value@ }),
    {
        StringMessage { key: None, value }
    }

    fn from_bytes(key: Option<&[u8]>, value: &[u8]) -> (message: Self) {
        let text_key = match key {
            Some(bytes) => Some(text_from_utf8_lossy(bytes)),
            None => None,
        };
        StringMessage { key: text_key, value: text_from_utf8_lossy(value) }
    }

    fn extract_key(self) -> (key: Option<String>)
        ensures
            view_opt(key) == self@.key,
    {
        self.key
    }

    fn extract_key_value(self) -> (pair: (Option<String>, String))
        ensures
            self@ == (WireText { key: view_opt(pair.0), value: pair.1@ }),
    {
        (self.key, self.value)
    }

    fn extract_value(self) -> (value: String)
        ensures
            value@ == self@.value,
    {
        self.value
    }

    fn into_bytes(self) -> (bytes: ByteMessage) {
        let byte_key = match &self.key {
            Some(key) => Some(utf8_bytes(key.as_str())),
            None => None,
        };
        ByteMessage { key: byte_key, value: utf8_bytes(self.value.as_str()) }
    }

    fn key(&self) -> (key: Option<String>)
        ensures
            view_opt(key) == self@.key,
    {
        self.key.clone()
    }

    fn key_ref(&self) -> (view: Option<Self::KeyRef<'_>>)
        ensures
            view_opt(view) == self@.key,
    {
        match &self.key {
            Some(key) => Some(key.as_str()),
            None => None,
        }
    }

    fn value(&self) -> (value: String)
        ensures
            value@ == self@.value,
    {
        self.value.clone()
    }

    fn value_ref(&self) -> (view: Self::ValueRef<'_>)
        ensures
            view@ == self@.value,
    {
        self.value.as_str()
    }
}

impl From<ByteMessage> for StringMessage {
    fn from(bytes: ByteMessage) -> (message: Self)
        ensures
            message@ == decoded_text(bytes@),
    {
        let (byte_key, byte_value) = bytes.extract_key_value();
        StringMessage::from_bytes(
            match &byte_key {
                Some(key) => Some(key.as_slice()),
                None => None,
            },
            byte_value.as_slice(),
        )
    }
}

impl vstd::std_specs::convert::FromSpecImpl<ByteMessage> for StringMessage {
    open spec fn obeys_from_spec() -> bool {
        false
    }

    open spec fn from_spec(bytes: ByteMessage) -> Self {
        arbitrary()
    }
}

/// A [`StringMessage`] that is sent as bytes and decoded again is the same message.
pub proof fn law_string_message_round_trip(
    sent: StringMessage,
    bytes: WireBytes,
    received: StringMessage,
)
    requires
        sent.encoded_as(bytes),
        received.decoded_from(bytes),
    ensures
        received@ == sent@,
{
    law_lossy_decoding_keeps_text(sent@.value);
    if let Some(key) = sent@.key {
        law_lossy_decoding_keeps_text(key);
    }
}

/// Bytes that are UTF-8 pass through a [`StringMessage`] unchanged.
pub proof fn law_string_message_keeps_utf8(
    bytes: WireBytes,
    message: StringMessage,
    resent: WireBytes,
)
    requires
        valid_utf8(bytes.value),
        bytes.key matches Some(key) ==> valid_utf8(key),
        message.decoded_from(bytes),
        message.encoded_as(resent),
    ensures
        resent == bytes,
{
    law_lossy_decoding_keeps_utf8(bytes.value);
    if let Some(key) = bytes.key {
        law_lossy_decoding_keeps_utf8(key);
    }
}

/// A [`ByteMessage`] that is sent as bytes and decoded again is the same message.
pub proof fn law_byte_message_round_trip(
    sent: ByteMessage,
    bytes: WireBytes,
    received: ByteMessage,
)
    requires
        sent.encoded_as(bytes),
        received.decoded_from(bytes),
    ensures
        received@ == sent@,
{
}

/// A text message travels as the UTF-8 bytes of its value and of its key, if it has one, and what is
/// converted from these bytes is the same message.
pub proof fn law_text_travels_as_utf8(
    sent: StringMessage,
    bytes: ByteMessage,
    received: StringMessage,
)
    requires
        call_ensures(<StringMessage as Message>::into_bytes, (sent,), bytes),
        call_ensures(<StringMessage as From<ByteMessage>>::from, (bytes,), received),
    ensures
        bytes@.value == encode_utf8(sent@.value),
        match sent@.key {
            Some(key) => bytes@.key == Some(encode_utf8(key)),
            None => bytes@.key is None,
        },
        received@ == sent@,
{
    law_string_message_round_trip(sent, bytes@, received);
}

/// A text message shows the text of the value's bytes and of the key's bytes, if there are any, be
/// they UTF-8 or not. Decoding and conversion agree on it.
pub proof fn law_bytes_are_shown_as_text(
    bytes: ByteMessage,
    converted: StringMessage,
    key: Option<&[u8]>,
    value: &[u8],
    decoded: StringMessage,
)
    requires
        call_ensures(<StringMessage as From<ByteMessage>>::from, (bytes,), converted),
        view_opt(key) == bytes@.key,
        value@ == bytes@.value,
        call_ensures(<StringMessage as Message>::from_bytes, (key, value), decoded),
    ensures
        converted@ == decoded@,
        converted@.value == utf8_lossy(bytes@.value),
        match bytes@.key {
            Some(key) => converted@.key == Some(utf8_lossy(key)),
            None => converted@.key is None,
        },
{
}

/// Bytes are never touched by a byte message: what it is made of is what it travels as, whatever the
/// bytes are.
pub proof fn law_bytes_travel_as_they_are(
    key: Option<&[u8]>,
    value: &[u8],
    message: ByteMessage,
    bytes: ByteMessage,
)
    requires
        call_ensures(<ByteMessage as Message>::from_bytes, (key, value), message),
        call_ensures(<ByteMessage as Message>::into_bytes, (message,), bytes),
    ensures
        bytes@.value == value@,
        bytes@.key == view_opt(key),
{
}

/// A text message gives back the key and the value that it was made of, owned and borrowed, and a
/// message that is made of a value alone has no key.
pub proof fn law_text_message_gives_back_its_parts(
    key: Option<String>,
    value: String,
    message: StringMessage,
    owned_key: Option<String>,
    owned_value: String,
    borrowed_key: Option<&str>,
    borrowed_value: &str,
    pair: (Option<String>, String),
    keyless: StringMessage,
)
    requires
        call_ensures(<StringMessage as Message>::new, (key, value), message),
        call_ensures(<StringMessage as Message>::key, (&message,), owned_key),
        call_ensures(<StringMessage as Message>::value, (&message,), owned_value),
        call_ensures(<StringMessage as Message>::key_ref, (&message,), borrowed_key),
        call_ensures(<StringMessage as Message>::value_ref, (&message,), borrowed_value),
        call_ensures(<StringMessage as Message>::extract_key_value, (message,), pair),
        call_ensures(<StringMessage as Message>::from_value, (value,), keyless),
    ensures
        view_opt(owned_key) == view_opt(key),
        view_opt(borrowed_key) == view_opt(key),
        owned_value@ == value@,
        borrowed_value@ == value@,
        pair == (key, value),
        keyless@ == (WireText { key: None, value: value@ }),
{
}

/// A byte message gives back the key and the value that it was made of, owned and borrowed, and a
/// message that is made of a value alone has no key.
pub proof fn law_byte_message_gives_back_its_parts(
    key: Option<Vec<u8>>,
    value: Vec<u8>,
    message: ByteMessage,
    owned_key: Option<Vec<u8>>,
    owned_value: Vec<u8>,
    borrowed_key: Option<&[u8]>,
    borrowed_value: &[u8],
    pair: (Option<Vec<u8>>, Vec<u8>),
    keyless: ByteMessage,
)
    requires
        call_ensures(<ByteMessage as Message>::new, (key, value), message),
        call_ensures(<ByteMessage as Message>::key, (&message,), owned_key),
        call_ensures(<ByteMessage as Message>::value, (&message,), owned_value),
        call_ensures(<ByteMessage as Message>::key_ref, (&message,), borrowed_key),
        call_ensures(<ByteMessage as Message>::value_ref, (&message,), borrowed_value),
        call_ensures(<ByteMessage as Message>::extract_key_value, (message,), pair),
        call_ensures(<ByteMessage as Message>::from_value, (value,), keyless),
    ensures
        view_opt(owned_key) == view_opt(key),
        view_opt(borrowed_key) == view_opt(key),
        owned_value@ == value@,
        borrowed_value@ == value@,
        pair == (key, value),
        keyless@ == (WireBytes { key: None, value: value@ }),
{
}

/// A copy of a message is the same message, and taking a part out of a message gives that part.
pub proof fn law_copies_and_parts_are_unchanged(
    text: StringMessage,
    text_copy: StringMessage,
    text_key: Option<String>,
    text_value: String,
    bytes: ByteMessage,
    bytes_copy: ByteMessage,
    bytes_key: Option<Vec<u8>>,
    bytes_value: Vec<u8>,
)
    requires
        call_ensures(<StringMessage as Clone>::clone, (&text,), text_copy),
        call_ensures(<StringMessage as Message>::extract_key, (text_copy,), text_key),
        call_ensures(<StringMessage as Message>::extract_value, (text_copy,), text_value),
        call_ensures(<ByteMessage as Clone>::clone, (&bytes,), bytes_copy),
        call_ensures(<ByteMessage as Message>::extract_key, (bytes_copy,), bytes_key),
        call_ensures(<ByteMessage as Message>::extract_value, (bytes_copy,), bytes_value),
    ensures
        text_copy@ == text@,
        view_opt(text_key) == text@.key,
        text_value@ == text@.value,
        bytes_copy@ == bytes@,
        view_opt(bytes_key) == bytes@.key,
        bytes_value@ == bytes@.value,
{
}

} // verus!
