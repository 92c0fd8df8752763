//! Redis pub/sub implementations of the messaging traits.
//!
//! - Redis pub/sub does not retain history, so there is no [`Snapshot`](crate::Snapshot) here.
//! - Payloads are forwarded as they are. They are not normalized into JSON.
//! - The key of a published message is ignored.
//! - Subscribers only observe messages published after subscription begins.
//! - A payload that cannot be decoded is skipped; the stream goes on.
use vstd::prelude::*;
use vstd::string::*;
use vstd::utf8::encode_utf8;

use crate::cache::{CacheKey, Source};
use crate::message::{ByteMessage, Message, StringMessage, WireBytes, WireText};
use crate::redis_impls::value::{RedisScalar, RedisValue};
use crate::text::law_lossy_decoding_keeps_text;
use crate::transport::{Publisher, Subscriber, Target};

pub mod runtime;

use runtime::{drain_messages, payload_bytes, DrainEvent, DrainStep};

verus! {

/// A request to publish a payload on a channel.
pub struct PublishRequest {
    /// The channel.
    pub topic: String,
    /// The payload.
    pub payload: Vec<u8>,
}

/// Redis-backed [`Publisher`] using native Redis pub/sub channels.
///
/// Redis pub/sub messages are delivered as payloads only, so any message key is ignored.
#[derive(Debug)]
pub struct RedisPublisher {
    host: String,
    topic: String,
}

impl Publisher for RedisPublisher {
    type Request = PublishRequest;

    closed spec fn target(&self) -> Target {
        Target { host: self.host@, topic: self.topic@ }
    }

    open spec fn sends(&self, bytes: WireBytes, request: PublishRequest) -> bool {
        &&& request.topic@ == self.target().topic
        &&& request.payload@ == bytes.value
    }

    fn new(host: String, topic: String) -> (publisher: Self) {
        RedisPublisher { host, topic }
    }

    fn host(&self) -> (host: &str) {
        self.host.as_str()
    }

    fn publish_request<M: Message>(&self, message: M) -> (request: PublishRequest) {
        let bytes = message.into_bytes();
        let ghost wire = bytes@;
        let request = PublishRequest { topic: self.topic.clone(), payload: bytes.extract_value() };
        assert(message.encoded_as(wire) && self.sends(wire, request));
        request
    }
}

/// Redis-backed [`Subscriber`] using native Redis pub/sub channels.
///
/// Subscribers to the same host and topic share one Redis connection process-wide.
#[derive(Debug)]
pub struct RedisSubscriber {
    host: String,
    topic: String,
}

impl Subscriber for RedisSubscriber {
    closed spec fn target(&self) -> Target {
        Target { host: self.host@, topic: self.topic@ }
    }

    open spec fn source() -> Source {
        Source::RedisPubSub
    }

    fn new(host: String, topic: String) -> (subscriber: Self) {
        RedisSubscriber { host, topic }
    }

    fn stream_key(&self) -> (key: CacheKey<'_>) {
        CacheKey::new(self.host.as_str(), self.topic.as_str(), Source::RedisPubSub)
    }
}

/// A [`StringMessage`] that is published on a channel, and whose payload arrives as it was sent, is
/// received with the same value and without its key.
pub proof fn law_published_text_is_received(
    publisher: RedisPublisher,
    sent: StringMessage,
    bytes: WireBytes,
    request: PublishRequest,
    arrived: RedisValue,
    received: StringMessage,
)
    requires
        sent.encoded_as(bytes),
        publisher.sends(bytes, request),
        arrived == RedisValue::Scalar(RedisScalar::BulkString(request.payload)),
        received.decoded_from(WireBytes { key: None, value: payload_bytes(arrived)->0 }),
    ensures
        payload_bytes(arrived) is Some,
        received@ == (WireText { key: None, value: sent@.value }),
{
    law_lossy_decoding_keeps_text(sent@.value);
}

/// Whatever is published, with or without a key, goes to the configured channel on the configured
/// host, with the payload that the message travels as.
pub proof fn law_payload_goes_to_its_channel<M: Message>(
    host: String,
    topic: String,
    publisher: RedisPublisher,
    connected: &str,
    message: M,
    request: PublishRequest,
)
    requires
        call_ensures(<RedisPublisher as Publisher>::new, (host, topic), publisher),
        call_ensures(<RedisPublisher as Publisher>::host, (&publisher,), connected),
        call_ensures(
            <RedisPublisher as Publisher>::publish_request::<M>,
            (&publisher, message),
            request,
        ),
    ensures
        connected@ == host@,
        request.topic@ == topic@,
        exists|bytes: WireBytes|
            #[trigger] message.encoded_as(bytes) && request.payload@ == bytes.value,
{
    let bytes = choose|bytes: WireBytes|
        #[trigger] message.encoded_as(bytes) && publisher.sends(bytes, request);
    assert(message.encoded_as(bytes));
}

/// A text message goes to the configured channel as the UTF-8 bytes of its value; and where that
/// payload arrives as it was sent, it is forwarded, and the text message made of what is forwarded
/// has the same value and no key.
pub proof fn law_text_travels_through_its_channel(
    host: String,
    topic: String,
    publisher: RedisPublisher,
    sent: StringMessage,
    request: PublishRequest,
    arrived: Vec<u8>,
    step: DrainStep,
    received: StringMessage,
)
    requires
        call_ensures(<RedisPublisher as Publisher>::new, (host, topic), publisher),
        call_ensures(
            <RedisPublisher as Publisher>::publish_request::<StringMessage>,
            (&publisher, sent),
            request,
        ),
        arrived@ == request.payload@,
        call_ensures(
            drain_messages,
            (DrainEvent::Payload(RedisValue::Scalar(RedisScalar::BulkString(arrived))),),
            step,
        ),
        step matches DrainStep::Forward(carrier) ==> call_ensures(
            <StringMessage as From<ByteMessage>>::from,
            (carrier,),
            received,
        ),
    ensures
        request.topic@ == topic@,
        request.payload@ == encode_utf8(sent@.value),
        step is Forward,
        received@ == (WireText { key: None, value: sent@.value }),
{
    let bytes = choose|bytes: WireBytes|
        #[trigger] sent.encoded_as(bytes) && publisher.sends(bytes, request);
    assert(sent.encoded_as(bytes));
    law_lossy_decoding_keeps_text(sent@.value);
}

/// A subscriber is served by the runtime of its own host and channel among those of Redis pub/sub.
pub proof fn law_subscriber_streams_from_its_channel(
    host: String,
    topic: String,
    subscriber: RedisSubscriber,
    key: CacheKey<'_>,
)
    requires
        call_ensures(<RedisSubscriber as Subscriber>::new, (host, topic), subscriber),
        call_ensures(<RedisSubscriber as Subscriber>::stream_key, (&subscriber,), key),
    ensures
        key@.host == host@,
        key@.topic == topic@,
        key@.source == Source::RedisPubSub,
{
}

} // verus!
