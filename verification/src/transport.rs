//! The three messaging operations that every backend offers: publishing a message, reading a
//! snapshot of a topic, and subscribing to a stream of messages.
//!
//! The traits hold what each operation decides: what is handed to the broker's client, and what is
//! made of its answer. Connecting, sending and waiting are left to the caller.
use std::fmt::Debug;
use vstd::prelude::*;

use crate::cache::{CacheKey, CacheKeyModel, Source};
use crate::error::PubSubError;
use crate::message::{ByteMessage, Message, StringMessage, WireBytes};
use crate::text::utf8_lossy;

verus! {

/// A host and a topic on it.
pub struct Target {
    pub host: Seq<char>,
    pub topic: Seq<char>,
}

/// A trait for sending [`Message`]s to a configured topic.
pub trait Publisher: Debug {
    /// What is handed to the broker's client.
    type Request;

    /// The host and topic that the publisher is configured for.
    spec fn target(&self) -> Target;

    /// Whether a message with these wire bytes is sent by this request.
    spec fn sends(&self, bytes: WireBytes, request: Self::Request) -> bool;

    /// Configures a publisher for the provided host and topic.
    fn new(host: String, topic: String) -> (publisher: Self) where Self: Sized
        ensures
            publisher.target() == (Target { host: host@, topic: topic@ }),
    ;

    /// Returns the host to connect to.
    fn host(&self) -> (host: &str)
        ensures
            host@ == self.target().host,
    ;

    /// Makes the request that sends the provided [`Message`] to the configured topic.
    fn publish_request<M: Message>(&self, message: M) -> (request: Self::Request)
        ensures
            exists|bytes: WireBytes|
                #[trigger] message.encoded_as(bytes) && self.sends(bytes, request),
    ;
}

/// Whether a typed message is made of wire bytes, either decoded from them or converted from a
/// [`ByteMessage`] that holds them.
pub open spec fn typed_from<M: Message>(bytes: WireBytes, message: M) -> bool {
    ||| message.decoded_from(bytes)
    ||| converted_from(bytes, message)
}

/// Whether a typed message is converted from a [`ByteMessage`] that holds these bytes.
pub open spec fn converted_from<M: Message>(bytes: WireBytes, message: M) -> bool {
    exists|carrier: ByteMessage|
        carrier@ == bytes && #[trigger] call_ensures(
            <M as From<ByteMessage>>::from,
            (carrier,),
            message,
        )
}

/// Whether typed messages are made of wire bytes, one by one and in order.
pub open spec fn all_typed<M: Message>(bytes: Seq<WireBytes>, messages: Seq<M>) -> bool {
    &&& messages.len() == bytes.len()
    &&& forall|i: int| 0 <= i < bytes.len() ==> typed_from(#[trigger] bytes[i], messages[i])
}

/// A trait for retrieving a backend-defined point-in-time view of [`Message`]s on a topic.
///
/// The exact inclusion boundary is backend-specific: some implementations establish an upper bound
/// first and then read up to that bound, while others directly enumerate the entries retained at
/// read time.
pub trait Snapshot {
    /// What the broker's client has read.
    type Reply;

    /// Whether these are the wire bytes that the reply holds, message by message; without bytes,
    /// whether the reply cannot be read.
    spec fn holds(reply: Self::Reply, bytes: Option<Seq<WireBytes>>) -> bool;

    /// Makes messages of what was read.
    fn get<M: Message>(reply: Self::Reply) -> (messages: Result<Vec<M>, PubSubError>)
        ensures
            match messages {
                Ok(messages) => exists|bytes: Seq<WireBytes>|
                    #[trigger] Self::holds(reply, Some(bytes)) && all_typed(bytes, messages@),
                Err(_) => Self::holds(reply, None),
            },
    ;
}

/// A trait for subscribing to a message topic.
///
/// Subscribers of one backend to the same host and topic share a runtime, which the cache knows by
/// [`Subscriber::stream_key`]. Configuring a subscriber starts nothing.
pub trait Subscriber: Debug {
    /// The host and topic that the subscriber is configured for.
    spec fn target(&self) -> Target;

    /// The backend that the subscriber streams from.
    spec fn source() -> Source;

    /// Configures a subscriber for the provided host and topic.
    fn new(host: String, topic: String) -> (subscriber: Self) where Self: Sized
        ensures
            subscriber.target() == (Target { host: host@, topic: topic@ }),
    ;

    /// Returns the key of the runtime that serves the subscriber.
    fn stream_key(&self) -> (key: CacheKey<'_>)
        ensures
            key@ == (CacheKeyModel {
                host: self.target().host,
                topic: self.target().topic,
                source: Self::source(),
            }),
    ;
}

/// Typed messages show the bytes that they are made of, one by one and in order: as text messages,
/// there are as many of them as there are bytes, and each shows the text of its value and of its key,
/// if there is one.
pub proof fn law_typed_messages_show_their_bytes(
    bytes: Seq<WireBytes>,
    messages: Seq<StringMessage>,
)
    requires
        all_typed(bytes, messages),
    ensures
        messages.len() == bytes.len(),
        forall|i: int|
            0 <= i < messages.len() ==> (#[trigger] messages[i])@.value == utf8_lossy(
                bytes[i].value,
            ) && match bytes[i].key {
                Some(key) => messages[i]@.key == Some(utf8_lossy(key)),
                None => messages[i]@.key is None,
            },
{
    assert forall|i: int| 0 <= i < messages.len() implies (#[trigger] messages[i])@.value
        == utf8_lossy(bytes[i].value) && match bytes[i].key {
        Some(key) => messages[i]@.key == Some(utf8_lossy(key)),
        None => messages[i]@.key is None,
    } by {
        assert(typed_from(bytes[i], messages[i]));
    }
}

} // verus!
