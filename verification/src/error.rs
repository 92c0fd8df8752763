//! The library's error.
use std::fmt::Debug;
use vstd::prelude::*;

verus! {

/// What every error shows to users.
pub const CANNED_ERR_MESSAGE: &'static str = "The PubSub library encountered an error.";

/// An error returned when a pub/sub operation does not succeed.
///
/// What it shows to users ([`PubSubError::to_string`]) is stable and generic. Diagnostic context may
/// be captured and is exposed through [`PubSubError::cause_message`] and `Debug` output, for
/// logging and troubleshooting.
#[derive(Debug)]
pub struct PubSubError {
    cause: Option<String>,
}

impl PubSubError {
    /// The captured diagnostic cause, if there is one.
    pub closed spec fn cause(&self) -> Option<Seq<char>> {
        match self.cause {
            Some(text) => Some(text@),
            None => None,
        }
    }

    /// Whether the captured diagnostic cause is what [`debug_text`] makes of `value`.
    pub closed spec fn captures<E: Debug>(&self, value: E) -> bool {
        exists|text: String|
            #[trigger] call_ensures(debug_text::<E>, (&value,), text) && self.cause() == Some(text@)
    }

    /// Creates an error with a diagnostic cause.
    pub fn from_cause(text: String) -> (err: Self)
        ensures
            err.cause() == Some(text@),
    {
        PubSubError { cause: Some(text) }
    }

    /// Creates an error from a debuggable error value, whose `Debug` output is captured as the
    /// diagnostic cause, whole and unchanged. What that output says is up to the value's own `Debug`.
    pub fn from_debug<E: Debug>(err: E) -> (wrapped: Self)
        ensures
            wrapped.cause() is Some,
            wrapped.captures(err),
    {
        Self::from_cause(debug_text(&err))
    }

    /// Returns the captured diagnostic cause message, if one was stored.
    pub fn cause_message(&self) -> (message: Option<&str>)
        ensures
            message is Some <==> self.cause() is Some,
            message matches Some(text) ==> self.cause() == Some(text@),
    {
        match &self.cause {
            Some(text) => Some(text.as_str()),
            None => None,
        }
    }

    /// Returns the text shown to users, which is the same for every error.
    pub fn to_string(&self) -> (text: String)
        ensures
            text@ == CANNED_ERR_MESSAGE@,
    {
        CANNED_ERR_MESSAGE.to_string()
    }
}

impl Clone for PubSubError {
    fn clone(&self) -> (copy: Self)
        ensures
            copy.cause() == self.cause(),
    {
        PubSubError { cause: self.cause.clone() }
    }
}

impl Default for PubSubError {
    fn default() -> (err: Self)
        ensures
            err.cause() is None,
    {
        PubSubError { cause: None }
    }
}

/// Formats a value for debugging.
///
/// Calls [`format!`] with the value's own `Debug`, of whose output nothing is claimed.
#[verifier::external_body]
pub(crate) fn debug_text<E: Debug>(err: &E) -> (text: String)
{
    format!("{err:?}")
}

impl From<rdkafka::error::KafkaError> for PubSubError {
    fn from(value: rdkafka::error::KafkaError) -> (err: Self)
        ensures
            err.cause() is Some,
            err.captures(value),
    {
        PubSubError::from_debug(value)
    }
}

impl vstd::std_specs::convert::FromSpecImpl<rdkafka::error::KafkaError> for PubSubError {
    open spec fn obeys_from_spec() -> bool {
        false
    }

    open spec fn from_spec(value: rdkafka::error::KafkaError) -> Self {
        arbitrary()
    }
}

impl From<redis::ParsingError> for PubSubError {
    fn from(value: redis::ParsingError) -> (err: Self)
        ensures
            err.cause() is Some,
            err.captures(value),
    {
        PubSubError::from_debug(value)
    }
}

impl vstd::std_specs::convert::FromSpecImpl<redis::ParsingError> for PubSubError {
    open spec fn obeys_from_spec() -> bool {
        false
    }

    open spec fn from_spec(value: redis::ParsingError) -> Self {
        arbitrary()
    }
}

impl From<redis::RedisError> for PubSubError {
    fn from(value: redis::RedisError) -> (err: Self)
        ensures
            err.cause() is Some,
            err.captures(value),
    {
        PubSubError::from_debug(value)
    }
}

impl vstd::std_specs::convert::FromSpecImpl<redis::RedisError> for PubSubError {
    open spec fn obeys_from_spec() -> bool {
        false
    }

    open spec fn from_spec(value: redis::RedisError) -> Self {
        arbitrary()
    }
}

/// A captured cause is kept whole, in a copy too, and never shown to users: what an error shows is
/// one fixed text, whether there is a cause or not.
pub proof fn law_cause_is_kept_and_never_shown(
    text: String,
    err: PubSubError,
    copy: PubSubError,
    cause: Option<&str>,
    bare: PubSubError,
    bare_cause: Option<&str>,
    shown: String,
    bare_shown: String,
)
    requires
        call_ensures(PubSubError::from_cause, (text,), err),
        call_ensures(<PubSubError as Clone>::clone, (&err,), copy),
        call_ensures(PubSubError::cause_message, (&copy,), cause),
        call_ensures(<PubSubError as Default>::default, (), bare),
        call_ensures(PubSubError::cause_message, (&bare,), bare_cause),
        call_ensures(PubSubError::to_string, (&copy,), shown),
        call_ensures(PubSubError::to_string, (&bare,), bare_shown),
    ensures
        cause matches Some(kept) && kept@ == text@,
        bare_cause is None,
        shown@ == bare_shown@,
        shown@ == "The PubSub library encountered an error."@,
{
}

/// An error that wraps another always has a cause to show for logging, and it is what the other shows
/// for debugging, whichever library the other comes from.
pub proof fn law_wrapped_error_is_captured(
    kafka: rdkafka::error::KafkaError,
    from_kafka: PubSubError,
    kafka_cause: Option<&str>,
    parsing: redis::ParsingError,
    from_parsing: PubSubError,
    parsing_cause: Option<&str>,
    redis: redis::RedisError,
    from_redis: PubSubError,
    redis_cause: Option<&str>,
)
    requires
        call_ensures(
            <PubSubError as From<rdkafka::error::KafkaError>>::from,
            (kafka,),
            from_kafka,
        ),
        call_ensures(PubSubError::cause_message, (&from_kafka,), kafka_cause),
        call_ensures(<PubSubError as From<redis::ParsingError>>::from, (parsing,), from_parsing),
        call_ensures(PubSubError::cause_message, (&from_parsing,), parsing_cause),
        call_ensures(<PubSubError as From<redis::RedisError>>::from, (redis,), from_redis),
        call_ensures(PubSubError::cause_message, (&from_redis,), redis_cause),
    ensures
        kafka_cause is Some && from_kafka.captures(kafka),
        parsing_cause is Some && from_parsing.captures(parsing),
        redis_cause is Some && from_redis.captures(redis),
{
}

} // verus!
