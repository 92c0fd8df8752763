use std::collections::HashMap;
use std::sync::Arc;

use redis::streams::StreamRangeReply;
use redis::FromRedisValue;
use rust_pubsub_lib::backoff::{Backoff, OutageState};
use rust_pubsub_lib::cache::NANOS_PER_SEC;
use rust_pubsub_lib::redis_impls::stream::cache::{
    get_redis_stream, reap_unused_streams, ConsumerCache, ConsumerCacheKey,
};
use rust_pubsub_lib::redis_impls::stream::reply::read_range_reply;
use rust_pubsub_lib::redis_impls::stream::runtime::{
    start_stream, ReadCursor, StreamAction, StreamEvent,
};
use rust_pubsub_lib::redis_impls::stream::{
    stream_entry_to_byte_message, stream_entry_to_redis_value, RedisPublisher, RedisSnapshot,
    RedisSubscriber, StreamId, StreamMaxlen, STREAM_LEN_DEFAULT,
};
use rust_pubsub_lib::redis_impls::testing_utils::command::Command;
use rust_pubsub_lib::redis_impls::value::{
    redis_value_to_byte_message, redis_value_to_json_bytes, RedisScalar, RedisValue,
};
use rust_pubsub_lib::{
    ByteMessage, MapMessage, Message, PubSubError, Publisher, Snapshot, StreamMessage,
    StringMessage, Subscriber,
};

fn simple(text: &str) -> RedisValue {
    RedisValue::Scalar(RedisScalar::SimpleString(text.to_string()))
}

fn binary(bytes: &[u8]) -> RedisValue {
    RedisValue::Scalar(RedisScalar::BulkString(bytes.to_vec()))
}

fn entry(id: &str, map: Vec<(&str, RedisValue)>) -> StreamId {
    StreamId {
        id: id.to_string(),
        map: map
            .into_iter()
            .map(|(name, value)| (name.to_string(), value))
            .collect(),
    }
}

fn fields(pairs: &[(&str, &str)]) -> HashMap<String, String> {
    pairs
        .iter()
        .map(|(name, value)| (name.to_string(), value.to_string()))
        .collect()
}

fn publisher() -> RedisPublisher {
    RedisPublisher::new("redis://127.0.0.1/".to_string(), "t".to_string())
}

#[test]
fn map_message_value_is_json_serialized_fields() {
    let fields = fields(&[("sensor_id", "abc123"), ("temperature", "22.5")]);
    let msg = MapMessage::from_fields(fields.clone());

    assert_eq!(msg.value(), fields);

    let bytes = msg.into_bytes();
    let decoded: serde_json::Value = serde_json::from_slice(bytes.value_ref()).unwrap();
    assert_eq!(decoded["sensor_id"], "abc123");
    assert_eq!(decoded["temperature"], "22.5");
}

#[test]
fn map_message_from_bytes_parses_json() {
    let json = br#"{"field1":"val1","field2":"val2"}"#;
    let msg = MapMessage::from_bytes(None, json);
    assert_eq!(msg.value()["field1"], "val1");
    assert_eq!(msg.value()["field2"], "val2");
}

#[test]
fn map_message_from_bytes_falls_back_to_data_key_for_non_json() {
    let raw = b"not-json-at-all";
    let msg = MapMessage::from_bytes(None, raw);
    assert_eq!(msg.value()["data"], "not-json-at-all");
}

#[test]
fn map_message_falls_back_where_a_field_is_no_string() {
    let msg = MapMessage::from_bytes(Some(b"k"), b"{\"n\":1}");
    assert_eq!(msg.key_ref(), Some("k"));
    assert_eq!(msg.value(), fields(&[("data", "{\"n\":1}")]));
}

#[test]
fn map_message_from_byte_message_round_trips() {
    let fields = fields(&[("k", "v")]);
    let sent = MapMessage::from_fields(fields.clone());
    let bytes = sent.into_bytes();
    let recovered = MapMessage::from(bytes);
    assert_eq!(recovered.value(), fields);
}

#[test]
fn map_message_round_trips_with_its_key() {
    let sent = MapMessage::new(
        Some("key".to_string()),
        fields(&[("quote \"", "line\n\u{1}é"), ("", "")]),
    );
    let received = MapMessage::from(sent.clone().into_bytes());
    assert_eq!(sent, received);
    assert_eq!(received.key(), Some("key".to_string()));
    assert_eq!(received.value_ref().len(), 2);
    assert_eq!(
        received.clone().extract_key_value(),
        (Some("key".to_string()), sent.value())
    );
    assert_eq!(received.clone().extract_key(), Some("key".to_string()));
    assert_eq!(received.extract_value(), sent.value());
    assert_eq!(MapMessage::from_value(sent.value()).key_ref(), None);
}

#[test]
fn map_message_into_stream_fields_emits_raw_pairs() {
    let msg = MapMessage::from_fields(fields(&[("alpha", "one"), ("beta", "two")]));

    let stream_fields = msg.into_stream_fields();
    let as_map: HashMap<String, String> = stream_fields
        .into_iter()
        .map(|(k, v)| (k, String::from_utf8(v).unwrap()))
        .collect();

    assert_eq!(as_map["alpha"], "one");
    assert_eq!(as_map["beta"], "two");
}

#[test]
fn other_messages_stream_a_single_data_field() {
    let expected = vec![("data".to_string(), b"payload".to_vec())];
    let text = StringMessage::new(Some("key".to_string()), "payload".to_string());
    assert_eq!(text.into_stream_fields(), expected);
    let bytes = ByteMessage::from_value(b"payload".to_vec());
    assert_eq!(bytes.into_stream_fields(), expected);
}

#[test]
fn map_message_publish_stream_snapshot_round_trip() {
    let sent = fields(&[("sensor_id", "abc123"), ("temperature", "22.5")]);
    let request = publisher().publish_stream_request(MapMessage::from_fields(sent.clone()));
    let returned = StreamId {
        id: "1-0".to_string(),
        map: request
            .fields
            .iter()
            .rev()
            .map(|(name, value)| (name.clone(), binary(value)))
            .collect(),
    };
    let snapshot = RedisSnapshot::get::<MapMessage>(vec![returned]).unwrap();
    assert_eq!(1, snapshot.len());
    assert_eq!(snapshot[0].value(), sent);
    assert_eq!(snapshot[0].key(), None);
}

#[test]
fn publish_via_trait_still_uses_data_field() {
    let request = publisher().publish_request(MapMessage::from_fields(fields(&[("key", "value")])));
    assert_eq!(1, request.fields.len());
    assert_eq!("data", request.fields[0].0);

    let returned = entry("1-0", vec![("data", binary(&request.fields[0].1))]);
    let snapshot = RedisSnapshot::get::<MapMessage>(vec![returned]).unwrap();
    let data_value = snapshot[0].value()["data"].clone();
    let inner: serde_json::Value = serde_json::from_str(&data_value).unwrap();
    assert_eq!(inner["key"], "value");
}

#[test]
fn publish_request_drops_the_key() {
    let message = StringMessage::new(Some("ignored-key".to_string()), "stream payload".to_string());
    let request = publisher().publish_request(message);
    assert_eq!("t", request.topic);
    assert_eq!("*", request.id);
    assert_eq!(StreamMaxlen::Approx(STREAM_LEN_DEFAULT), request.max_len);
    assert_eq!(
        vec![("data".to_string(), b"stream payload".to_vec())],
        request.fields
    );
    assert_eq!("redis://127.0.0.1/", publisher().host());
}

#[test]
fn published_entry_is_understood_by_the_mock_server() {
    let request = publisher().publish_request(StringMessage::from_value("payload".to_string()));
    let mut args = vec![
        request.topic,
        "MAXLEN".to_string(),
        "~".to_string(),
        STREAM_LEN_DEFAULT.to_string(),
        request.id,
    ];
    for (name, value) in request.fields {
        args.push(name);
        args.push(String::from_utf8(value).unwrap());
    }
    assert_eq!(
        Command::from_parts("XADD".to_string(), args),
        Command::Xadd {
            topic: "t".to_string(),
            fields: vec![("data".to_string(), "payload".to_string())],
        }
    );
}

#[test]
fn set_approx_stream_max_len_updates_the_limit() {
    let mut publisher = RedisPublisher::new("redis://127.0.0.1/".to_string(), "t".to_string());
    publisher.set_approx_stream_max_len(500);
    assert_eq!(publisher.stream_max_len(), StreamMaxlen::Approx(500));
}

#[test]
fn set_exact_stream_max_len_updates_the_limit() {
    let mut publisher = RedisPublisher::new("redis://127.0.0.1/".to_string(), "t".to_string());
    publisher.set_exact_stream_max_len(250);
    assert_eq!(publisher.stream_max_len(), StreamMaxlen::Equals(250));
}

#[test]
fn set_approx_stream_max_len_is_respected_on_publish() {
    let mut publisher = publisher();
    publisher.set_approx_stream_max_len(10);
    let request = publisher.publish_request(StringMessage::from_value("approx-payload".to_string()));
    assert_eq!(StreamMaxlen::Approx(10), request.max_len);
}

#[test]
fn set_exact_stream_max_len_is_respected_on_publish() {
    let mut publisher = publisher();
    publisher.set_exact_stream_max_len(10);
    let request = publisher.publish_request(StringMessage::from_value("exact-payload".to_string()));
    assert_eq!(StreamMaxlen::Equals(10), request.max_len);
}

fn stream_entry_to_json_bytes(entry: StreamId) -> Result<Vec<u8>, PubSubError> {
    let redis_value = stream_entry_to_redis_value(entry);
    redis_value_to_json_bytes(&redis_value).map_err(PubSubError::from)
}

#[test]
fn stream_entry_to_json_bytes_preserves_nested_shapes() {
    let entry = entry(
        "1-0",
        vec![(
            "outer",
            RedisValue::Dictionary(vec![(
                simple("inner"),
                RedisValue::Array(vec![
                    simple("leaf"),
                    RedisValue::Scalar(RedisScalar::Int(42)),
                ]),
            )]),
        )],
    );

    let payload = stream_entry_to_json_bytes(entry).unwrap();
    let decoded: serde_json::Value = serde_json::from_slice(&payload).unwrap();

    let expected: serde_json::Value =
        serde_json::from_str("{\"outer\": {\"inner\": [\"leaf\", \"42\"]}}").unwrap();
    assert_eq!(expected, decoded);
}

#[test]
fn stream_entry_to_byte_message_materializes_json_bytes() {
    let entry = entry("1-0", vec![("data", simple("payload"))]);

    let message = stream_entry_to_byte_message(entry).unwrap();
    let decoded: serde_json::Value = serde_json::from_slice(message.value_ref()).unwrap();

    let expected: serde_json::Value = serde_json::from_str("{\"data\": \"payload\"}").unwrap();
    assert_eq!(expected, decoded);
}

#[test]
fn redis_stream_snapshot_is_empty_for_unseen_stream() {
    assert!(RedisSnapshot::get::<StringMessage>(vec![])
        .unwrap()
        .is_empty());
}

#[test]
fn redis_stream_snapshot_returns_existing_entries() {
    let entries = vec![
        entry("1-0", vec![("data", binary(b"snapshot payload"))]),
        entry("2-0", vec![("data", binary(b"second"))]),
    ];
    let snapshot = RedisSnapshot::get::<StringMessage>(entries).unwrap();
    assert_eq!(2, snapshot.len());
    assert_eq!("{\"data\":\"snapshot payload\"}", snapshot[0].value_ref());
    assert_eq!("{\"data\":\"second\"}", snapshot[1].value_ref());
}

fn range_row(id: &str, value: redis::Value) -> redis::Value {
    let text = |text: &str| redis::Value::BulkString(text.as_bytes().to_vec());
    redis::Value::Array(vec![
        text(id),
        redis::Value::Array(vec![text("data"), value]),
    ])
}

#[test]
fn snapshot_reads_a_range_reply() {
    let bytes = |text: &str| redis::Value::BulkString(text.as_bytes().to_vec());
    let reply = redis::Value::Array(vec![
        range_row("1-0", bytes("first")),
        range_row("2-0", redis::Value::Int(2)),
    ]);
    let snapshot = RedisSnapshot::from_reply::<StringMessage>(reply.clone()).unwrap();
    assert_eq!("{\"data\":\"first\"}", snapshot[0].value_ref());
    assert_eq!("{\"data\":\"2\"}", snapshot[1].value_ref());
    assert_eq!(2, snapshot.len());
    let entries = read_range_reply(reply).unwrap();
    assert_eq!("1-0", entries[0].id);
    assert_eq!("2-0", entries[1].id);
    let empty = redis::Value::Array(vec![]);
    assert!(RedisSnapshot::from_reply::<StringMessage>(empty)
        .unwrap()
        .is_empty());
}

#[test]
fn snapshot_fails_where_a_range_reply_cannot_be_read() {
    let reply = redis::Value::Int(1);
    let cause = StreamRangeReply::from_redis_value(reply.clone()).unwrap_err();
    let err = RedisSnapshot::from_reply::<StringMessage>(reply).unwrap_err();
    assert_eq!(err.cause_message(), Some(format!("{cause:?}").as_str()));
}

#[test]
fn snapshot_fails_where_an_entry_cannot_be_normalized() {
    let entries = vec![
        entry("1-0", vec![("data", binary(b"fine"))]),
        entry("2-0", vec![("data", binary(&[0xff]))]),
    ];
    let err = RedisSnapshot::get::<StringMessage>(entries).unwrap_err();
    let value = stream_entry_to_redis_value(entry("2-0", vec![("data", binary(&[0xff]))]));
    let cause = redis_value_to_byte_message(&value).unwrap_err();
    assert_eq!(err.cause_message(), Some(format!("{cause:?}").as_str()));
}

#[test]
fn redis_stream_subscriber_receives_messages() {
    let mut cursor = ReadCursor::new();
    assert_eq!("$", cursor.latest_id());
    let messages = cursor.monitor_stream(vec![
        entry("1-0", vec![("data", binary(b"live payload"))]),
        entry("2-0", vec![("data", binary(&[0xff]))]),
        entry("3-0", vec![("data", binary(b"later"))]),
    ]);
    let texts: Vec<String> = messages
        .into_iter()
        .map(|message| StringMessage::from(message).extract_value())
        .collect();
    assert_eq!(
        vec![
            "{\"data\":\"live payload\"}".to_string(),
            "{\"data\":\"later\"}".to_string()
        ],
        texts
    );
    assert_eq!("3-0", cursor.latest_id());
    assert!(cursor.monitor_stream(vec![]).is_empty());
    assert_eq!("3-0", cursor.latest_id());
}

#[test]
fn poller_reconnects_until_it_is_cancelled() {
    let mut outage: OutageState<u8> = OutageState::default();
    let mut step = |event| start_stream(&mut outage, event);
    let cancelled = |cancelled| StreamEvent::LoopHead { cancelled };
    assert_eq!(StreamAction::Connect, step(cancelled(false)));
    assert_eq!(
        StreamAction::Wait(Backoff { report: true, wait_secs: 1 }),
        step(StreamEvent::ConnectFailed(1))
    );
    assert_eq!(
        StreamAction::Wait(Backoff { report: false, wait_secs: 2 }),
        step(StreamEvent::ConnectFailed(1))
    );
    assert_eq!(
        StreamAction::Poll { recovered: true },
        step(StreamEvent::Connected)
    );
    assert_eq!(
        StreamAction::EvictAndWait(Backoff { report: true, wait_secs: 1 }),
        step(StreamEvent::ReadFailed(1))
    );
    assert_eq!(
        StreamAction::Poll { recovered: true },
        step(StreamEvent::Connected)
    );
    assert_eq!(StreamAction::LoopAgain, step(StreamEvent::Interrupted));
    assert_eq!(
        StreamAction::Poll { recovered: false },
        step(StreamEvent::Connected)
    );
    assert_eq!(StreamAction::Stop, step(cancelled(true)));
}

fn listeners(runtime: &Arc<String>) -> usize {
    Arc::strong_count(runtime) - 1
}

#[test]
fn redis_stream_cached_runtime_starts_when_first_receiver_is_requested() {
    let mut cache: ConsumerCache<Arc<String>> = ConsumerCache::new();
    let start = |host: String, topic: String| Arc::new(format!("{host}|{topic}"));
    let first = get_redis_stream(
        &mut cache,
        "redis://lazy-runtime-host",
        "lazy-runtime-topic",
        start,
    )
    .clone();
    assert_eq!("redis://lazy-runtime-host|lazy-runtime-topic", *first);
    let key = ConsumerCacheKey::new("redis://lazy-runtime-host", "lazy-runtime-topic").into_owned();
    assert_eq!(1, listeners(&cache.get(&key).unwrap().runtime));
    let second = get_redis_stream(
        &mut cache,
        "redis://lazy-runtime-host",
        "lazy-runtime-topic",
        |_, _| panic!("the runtime is already there"),
    )
    .clone();
    assert!(Arc::ptr_eq(&first, &second));
    assert_eq!(None, cache.get(&key).unwrap().idle_since);
}

#[test]
fn redis_stream_runtime_is_evicted_two_seconds_after_it_is_found_without_listeners() {
    let mut cache: ConsumerCache<Arc<String>> = ConsumerCache::new();
    let listener =
        get_redis_stream(&mut cache, "host", "topic", |_, _| Arc::new(String::new())).clone();
    let key = ConsumerCacheKey::new("host", "topic").into_owned();
    reap_unused_streams(&mut cache, 10 * NANOS_PER_SEC, listeners);
    assert_eq!(None, cache.get(&key).unwrap().idle_since);
    drop(listener);
    reap_unused_streams(&mut cache, 11 * NANOS_PER_SEC, listeners);
    assert_eq!(Some(11 * NANOS_PER_SEC), cache.get(&key).unwrap().idle_since);
    reap_unused_streams(&mut cache, 13 * NANOS_PER_SEC - 1, listeners);
    assert!(cache.get(&key).is_some());
    reap_unused_streams(&mut cache, 13 * NANOS_PER_SEC, listeners);
    assert!(cache.get(&key).is_none());
}

#[test]
fn redis_stream_runtime_asked_for_just_before_a_pass_stays() {
    let mut cache: ConsumerCache<Arc<String>> = ConsumerCache::new();
    let start = |_: String, _: String| Arc::new(String::new());
    let key = ConsumerCacheKey::new("host", "topic").into_owned();
    get_redis_stream(&mut cache, "host", "topic", start);
    reap_unused_streams(&mut cache, NANOS_PER_SEC, listeners);
    get_redis_stream(&mut cache, "host", "topic", start);
    assert_eq!(None, cache.get(&key).unwrap().idle_since);
    reap_unused_streams(&mut cache, 3 * NANOS_PER_SEC, listeners);
    assert_eq!(Some(3 * NANOS_PER_SEC), cache.get(&key).unwrap().idle_since);
}

#[test]
fn redis_stream_subscriber_new_does_not_start_work_eagerly() {
    let subscriber = RedisSubscriber::new(
        "redis://lazy-host-never-started".to_string(),
        "lazy-topic-never-started".to_string(),
    );
    assert_eq!(
        "RedisSubscriber { host: \"redis://lazy-host-never-started\", topic: \"lazy-topic-never-started\" }",
        format!("{subscriber:?}")
    );
}
