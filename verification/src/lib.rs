//! Abstractions for publishing to and subscribing from broker-backed topics.
//!
//! The library provides a backend-agnostic interface for three common messaging operations:
//! publishing a message, fetching an instantaneous snapshot of a topic, and subscribing to a stream
//! of messages over time. It holds what these operations decide, for three backends: Kafka
//! ([`kafka_impl`]), Redis pub/sub and Redis Streams ([`redis_impls`]). Sockets, clocks and tasks
//! belong to the caller, who hands in plain values and carries out what comes back.
//!
//! ## Choosing a message type
//!
//! Use [`ByteMessage`] when your application already works with serialized bytes. Use
//! [`StringMessage`] when it prefers string payloads and can tolerate lossy decoding for input that
//! is not UTF-8. [`MapMessage`] holds the fields of a Redis Stream entry.
//!
//! ```
//! use rust_pubsub_lib::{Message, StringMessage};
//!
//! let message = StringMessage::new(Some("key".to_string()), "value".to_string());
//! assert_eq!(message.key(), Some("key".to_string()));
//! assert_eq!(message.value(), "value".to_string());
//! ```
pub mod backoff;
pub mod cache;
pub mod error;
pub mod kafka_impl;
pub mod keyed_map;
pub mod message;
mod queue;
mod outside;
pub mod redis_impls;
pub mod text;
pub mod transport;

pub use error::PubSubError;
pub use kafka_impl::{KafkaPublisher, KafkaSnapshot, KafkaSubscriber};
pub use message::{ByteMessage, Message, StringMessage};
pub use redis_impls::pubsub::{
    RedisPublisher as RedisPubSubPublisher, RedisSubscriber as RedisPubSubSubscriber,
};
pub use redis_impls::stream::{
    MapMessage, RedisPublisher as RedisStreamPublisher, RedisSnapshot as RedisStreamSnapshot,
    RedisSubscriber as RedisStreamSubscriber, StreamMessage,
};
pub use transport::{Publisher, Snapshot, Subscriber};
