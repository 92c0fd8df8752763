//! Redis-backed implementations of the messaging traits.
//!
//! There are two backend styles: native pub/sub ([`pubsub`]) and Redis Streams ([`stream`]). Both
//! share the conversion of reply values ([`value`], [`json`]) and the connection cache
//! ([`connections`]).
pub mod connections;
pub mod json;
pub mod pubsub;
pub mod stream;
pub mod testing_utils;
pub mod value;
