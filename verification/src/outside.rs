//! Types of the broker and JSON crates that pass through the library unread.
use vstd::prelude::*;

verus! {

/// Declares [`rdkafka::error::KafkaError`], the error of every Kafka client call.
#[verifier::external_type_specification]
#[verifier::external_body]
pub struct ExKafkaError(rdkafka::error::KafkaError);

/// Declares [`redis::ParsingError`], the error of reading a Redis reply value.
#[verifier::external_type_specification]
#[verifier::external_body]
pub struct ExParsingError(redis::ParsingError);

/// Declares [`redis::RedisError`], the error of every Redis client call.
#[verifier::external_type_specification]
#[verifier::external_body]
pub struct ExRedisError(redis::RedisError);

/// Declares [`redis::Value`], a reply value as the Redis client holds it.
#[verifier::external_type_specification]
#[verifier::external_body]
pub struct ExClientReply(redis::Value);

/// Declares [`redis::VerbatimFormat`], the format that the server declared of a text.
#[verifier::external_type_specification]
#[verifier::external_body]
pub struct ExVerbatimFormat(redis::VerbatimFormat);

} // verus!
