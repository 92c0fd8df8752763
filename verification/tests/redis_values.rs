use redis::{FromRedisValue, ParsingError, PushKind, Value, VerbatimFormat};
use rust_pubsub_lib::redis_impls::connections::{
    evict_connection, get_connection, store_connection, ConnectionCache,
};
use rust_pubsub_lib::redis_impls::json::json_value_to_bytes;
use rust_pubsub_lib::redis_impls::value::{
    from_client, redis_map_to_json_value, redis_sequence_to_json_value, redis_value_to_byte_message,
    redis_value_to_json_bytes, redis_value_to_json_value, redis_value_to_text, to_client,
    RedisScalar, RedisValue,
};
use rust_pubsub_lib::{Message, PubSubError, StringMessage};

fn simple(text: &str) -> RedisValue {
    RedisValue::Scalar(RedisScalar::SimpleString(text.to_string()))
}

fn number(value: i64) -> RedisValue {
    RedisValue::Scalar(RedisScalar::Int(value))
}

fn dictionary(pairs: Vec<(RedisValue, RedisValue)>) -> RedisValue {
    RedisValue::Dictionary(pairs)
}

fn json(text: &str) -> serde_json::Value {
    serde_json::from_str(text).unwrap()
}

#[test]
fn redis_value_to_byte_message_handles_nested_map_and_array() {
    let message = StringMessage::from_value("{\"hello\":[{\"this-is\":\"42\"}]}".to_string());
    let redis_value = dictionary(vec![(
        simple("hello"),
        RedisValue::Array(vec![dictionary(vec![(simple("this-is"), number(42))])]),
    )]);
    let parsed_message = redis_value_to_byte_message(&redis_value).unwrap();
    assert_eq!(
        StringMessage::from_bytes(None, parsed_message.value_ref()),
        message
    );
}

#[test]
fn redis_value_to_json_value_handles_scalar_array_and_map_shapes() {
    assert_eq!(
        json("\"hello\""),
        redis_value_to_json_value(&simple("hello")).unwrap()
    );
    assert_eq!(
        json("[\"one\", \"2\"]"),
        redis_value_to_json_value(&RedisValue::Array(vec![simple("one"), number(2)])).unwrap()
    );
    assert_eq!(
        json("{\"outer\": {\"inner\": \"7\"}}"),
        redis_value_to_json_value(&dictionary(vec![(
            simple("outer"),
            dictionary(vec![(simple("inner"), number(7))]),
        )]))
        .unwrap()
    );
}

#[test]
fn redis_value_to_json_value_preserves_nested_map_inside_map() {
    let value = dictionary(vec![(
        simple("outer"),
        dictionary(vec![(simple("inner"), simple("leaf"))]),
    )]);
    assert_eq!(
        json("{\"outer\": {\"inner\": \"leaf\"}}"),
        redis_value_to_json_value(&value).unwrap()
    );
}

#[test]
fn redis_value_to_json_value_preserves_array_inside_map() {
    let value = dictionary(vec![(
        simple("outer"),
        RedisValue::Array(vec![simple("leaf"), number(42)]),
    )]);
    assert_eq!(
        json("{\"outer\": [\"leaf\", \"42\"]}"),
        redis_value_to_json_value(&value).unwrap()
    );
}

#[test]
fn redis_value_to_json_value_preserves_map_inside_array() {
    let value = RedisValue::Array(vec![dictionary(vec![(simple("outer"), simple("leaf"))])]);
    assert_eq!(
        json("[{\"outer\": \"leaf\"}]"),
        redis_value_to_json_value(&value).unwrap()
    );
}

#[test]
fn redis_value_to_json_value_stringifies_number_like_scalars() {
    assert_eq!(json("\"42\""), redis_value_to_json_value(&number(42)).unwrap());
    assert_eq!(
        json("\"3.14\""),
        redis_value_to_json_value(&from_client(Value::Double(3.14))).unwrap()
    );
}

#[test]
fn redis_map_and_sequence_to_json_value_handle_empty_collections() {
    assert_eq!(json("{}"), redis_map_to_json_value(&vec![]).unwrap());
    assert_eq!(json("[]"), redis_sequence_to_json_value(&vec![]).unwrap());
}

#[test]
fn redis_map_to_json_value_rejects_non_string_keys() {
    let err = redis_map_to_json_value(&vec![(RedisValue::Array(vec![]), simple("value"))])
        .unwrap_err();
    assert!(!format!("{err:?}").is_empty());
    let expected = String::from_redis_value_ref(&Value::Array(vec![])).unwrap_err();
    assert_eq!(err, expected);
}

#[test]
fn pubsub_error_from_parsing_error_uses_debug_formatting() {
    let parsing_error = ParsingError::from(String::from("bad parse"));

    let converted = PubSubError::from(parsing_error.clone());
    let expected = PubSubError::from_debug(parsing_error);

    assert_eq!(expected.to_string(), converted.to_string());
    assert_eq!(expected.cause_message(), converted.cause_message());
    assert!(converted.cause_message().unwrap().contains("bad parse"));
}

#[test]
fn scalars_are_read_as_their_texts() {
    let text = |scalar: RedisScalar| redis_value_to_text(&RedisValue::Scalar(scalar)).ok();
    assert_eq!(text(RedisScalar::Int(-7)).as_deref(), Some("-7"));
    assert_eq!(text(RedisScalar::Int(0)).as_deref(), Some("0"));
    assert_eq!(
        text(RedisScalar::Int(i64::MIN)).as_deref(),
        Some("-9223372036854775808")
    );
    assert_eq!(text(RedisScalar::Okay).as_deref(), Some("OK"));
    assert_eq!(
        text(RedisScalar::BulkString("é".as_bytes().to_vec())).as_deref(),
        Some("é")
    );
    assert_eq!(
        text(RedisScalar::VerbatimString {
            format: VerbatimFormat::Markdown,
            text: "v".to_string()
        })
        .as_deref(),
        Some("v")
    );
    assert_eq!(text(RedisScalar::BulkString(vec![0xff])), None);
    assert_eq!(text(RedisScalar::Nil), None);
    assert_eq!(text(RedisScalar::Boolean(true)), None);
}

fn client_values() -> Vec<Value> {
    let text = || Value::SimpleString("t".to_string());
    vec![
        Value::Nil,
        Value::Int(-3),
        Value::BulkString(vec![0xff, 1]),
        Value::BulkString(b"bytes".to_vec()),
        text(),
        Value::Okay,
        Value::Boolean(true),
        Value::VerbatimString {
            format: VerbatimFormat::Unknown("x".to_string()),
            text: "v".to_string(),
        },
        Value::Double(1.0),
        Value::Double(-0.5),
        Value::Array(vec![text(), Value::Double(2.0), Value::Nil]),
        Value::Map(vec![(text(), Value::Array(vec![])), (Value::Int(1), text())]),
        Value::Set(vec![text(), Value::Int(1)]),
        Value::Push {
            kind: PushKind::Message,
            data: vec![text()],
        },
        Value::Attribute {
            data: Box::new(Value::Set(vec![text()])),
            attributes: vec![(text(), Value::Double(0.5))],
        },
        Value::Array(vec![Value::Attribute {
            data: Box::new(Value::Nil),
            attributes: vec![(text(), Value::Int(4)), (Value::Nil, text())],
        }]),
    ]
}

#[test]
fn reply_values_are_handed_back_to_the_client_as_they_came() {
    for value in client_values() {
        assert_eq!(to_client(&from_client(value.clone())), value);
    }
}

#[test]
fn texts_and_refusals_are_those_of_the_client() {
    for value in client_values() {
        let expected = String::from_redis_value_ref(&value);
        assert_eq!(redis_value_to_text(&from_client(value)), expected);
    }
}

#[test]
fn refusal_names_the_first_part_without_a_text() {
    let set = || Value::Set(vec![Value::Int(1)]);
    let name = |text: &str| Value::SimpleString(text.to_string());
    let value = Value::Array(vec![
        name("fine"),
        Value::Map(vec![
            (name("a"), Value::Int(1)),
            (set(), Value::Nil),
            (name("b"), Value::Boolean(true)),
        ]),
        Value::Nil,
    ]);
    let err = redis_value_to_json_value(&from_client(value)).unwrap_err();
    assert_eq!(err, String::from_redis_value_ref(&set()).unwrap_err());
    let shown = format!("{err:?}");
    assert!(shown.contains("set([int(1)])"));
}

#[test]
fn attributes_are_looked_through_once() {
    let attribute = |data: RedisValue| RedisValue::Attribute {
        data: Box::new(data),
        attributes: vec![(simple("name"), number(1))],
    };
    let wrapped = attribute(simple("inner"));
    assert_eq!(redis_value_to_text(&wrapped).unwrap(), "inner");
    assert!(redis_value_to_text(&attribute(wrapped)).is_err());
    let listed = attribute(RedisValue::Array(vec![]));
    assert!(redis_value_to_json_value(&listed).is_err());
}

#[test]
fn last_value_of_a_repeated_key_counts() {
    let value = dictionary(vec![(simple("k"), number(1)), (simple("k"), number(2))]);
    assert_eq!(
        redis_value_to_json_bytes(&value).unwrap(),
        b"{\"k\":\"2\"}".to_vec()
    );
}

#[test]
fn one_unreadable_leaf_fails_the_whole_value() {
    let value = RedisValue::Array(vec![
        simple("fine"),
        dictionary(vec![(
            simple("deep"),
            RedisValue::Scalar(RedisScalar::Nil),
        )]),
    ]);
    assert!(redis_value_to_json_value(&value).is_err());
    assert!(redis_value_to_json_bytes(&value).is_err());
    assert!(redis_value_to_byte_message(&value).is_err());
}

#[test]
fn json_is_written_in_compact_form() {
    assert_eq!(
        json_value_to_bytes(&json("[ \"a\", { \"b\" : \"c\" } ]")).unwrap(),
        b"[\"a\",{\"b\":\"c\"}]".to_vec()
    );
}

#[test]
fn test_get_connection_reuses_cached_manager_for_same_host() {
    let mut cache: ConnectionCache<u8> = ConnectionCache::new();
    assert_eq!(get_connection(&cache, "redis://a"), None);
    assert_eq!(store_connection(&mut cache, "redis://a", Ok(7)).unwrap(), 7);
    assert_eq!(get_connection(&cache, "redis://a"), Some(7));
    assert_eq!(get_connection(&cache, "redis://b"), None);
    evict_connection(&mut cache, "redis://a");
    assert_eq!(get_connection(&cache, "redis://a"), None);
}

#[test]
fn connection_that_cannot_be_opened_is_not_kept() {
    let mut cache: ConnectionCache<u8> = ConnectionCache::new();
    let opened = redis::Client::open("not-a-valid-redis-uri").map(|_| 1);
    let cause = store_connection(&mut cache, "host", opened).unwrap_err();
    let shown = format!("{cause:?}");
    let err = PubSubError::from(cause);
    assert_eq!(err.to_string(), "The PubSub library encountered an error.");
    assert_eq!(err.cause_message(), Some(shown.as_str()));
    assert_eq!(get_connection(&cache, "host"), None);
}
