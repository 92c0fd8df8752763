//! Requests packed by the Redis client, answered by the mock server, and read back by the client.
use std::collections::HashMap;

use redis::streams::{StreamMaxlen as ClientMaxlen, StreamRangeReply, StreamReadReply};
use redis::{FromRedisValue, Value};
use rust_pubsub_lib::redis_impls::pubsub::runtime::{drain_messages, DrainEvent, DrainStep};
use rust_pubsub_lib::redis_impls::stream::runtime::ReadCursor;
use rust_pubsub_lib::redis_impls::stream::{StreamId, StreamMaxlen, XaddRequest};
use rust_pubsub_lib::redis_impls::testing_utils::connection::Connection;
use rust_pubsub_lib::redis_impls::testing_utils::server::{Preloaded, StreamState};
use rust_pubsub_lib::redis_impls::value::{RedisScalar, RedisValue};
use rust_pubsub_lib::{
    MapMessage, Message, Publisher, RedisPubSubPublisher, RedisStreamPublisher,
    RedisStreamSnapshot, Snapshot, StringMessage,
};

struct Mock {
    connection: Connection,
    state: StreamState,
    preloaded: Preloaded,
    published: Vec<String>,
}

impl Mock {
    fn new(preloaded: Preloaded) -> Self {
        Mock {
            connection: Connection::new(),
            state: StreamState::new(),
            preloaded,
            published: Vec::new(),
        }
    }

    fn send(&mut self, command: &redis::Cmd) -> Vec<u8> {
        let packed = command.get_packed_command();
        let turn = self
            .connection
            .receive(&packed, &self.preloaded, &mut self.state)
            .unwrap();
        assert_eq!(1, turn.replies.len());
        let mut response = Vec::new();
        for reply in turn.replies {
            response.extend(reply.response.into_bytes());
            self.published.extend(reply.published);
        }
        response
    }

    fn ask(&mut self, command: &redis::Cmd) -> Value {
        redis::parse_redis_value(&self.send(command)).unwrap()
    }

    fn xadd(&mut self, request: XaddRequest) -> Value {
        let max_len = match request.max_len {
            StreamMaxlen::Equals(len) => ClientMaxlen::Equals(len),
            StreamMaxlen::Approx(len) => ClientMaxlen::Approx(len),
        };
        let mut command = redis::cmd("XADD");
        command.arg(&request.topic).arg(max_len).arg(&request.id);
        for (name, value) in &request.fields {
            command.arg(name).arg(value);
        }
        self.ask(&command)
    }

    fn xrange(&mut self, topic: &str) -> Vec<StreamId> {
        let mut command = redis::cmd("XRANGE");
        command.arg(topic).arg("-").arg("+");
        let reply = StreamRangeReply::from_redis_value(self.ask(&command)).unwrap();
        reply.ids.into_iter().map(to_stream_id).collect()
    }

    fn xread(&mut self, topic: &str, last_seen: &str) -> Vec<StreamId> {
        let mut command = redis::cmd("XREAD");
        command.arg("BLOCK").arg(250).arg("STREAMS").arg(topic).arg(last_seen);
        match self.ask(&command) {
            Value::Nil => Vec::new(),
            reply => StreamReadReply::from_redis_value(reply)
                .unwrap()
                .keys
                .into_iter()
                .flat_map(|stream| stream.ids)
                .map(to_stream_id)
                .collect(),
        }
    }
}

fn to_redis_value(value: Value) -> RedisValue {
    match value {
        Value::BulkString(bytes) => RedisValue::Scalar(RedisScalar::BulkString(bytes)),
        other => panic!("the mock server answers with binary data, not {other:?}"),
    }
}

fn to_stream_id(entry: redis::streams::StreamId) -> StreamId {
    StreamId {
        id: entry.id,
        map: entry
            .map
            .into_iter()
            .map(|(name, value)| (name, to_redis_value(value)))
            .collect(),
    }
}

fn stream_publisher(topic: &str) -> RedisStreamPublisher {
    RedisStreamPublisher::new("redis://mock".to_string(), topic.to_string())
}

#[test]
fn redis_stream_publish_records_payload_on_mock_server() {
    let mut mock = Mock::new(vec![]);
    let request = stream_publisher("stream-topic").publish_request(StringMessage::new(
        Some("ignored-key".to_string()),
        "stream payload".to_string(),
    ));
    assert_eq!(Value::BulkString(b"1-0".to_vec()), mock.xadd(request));
    assert_eq!(vec!["stream payload".to_string()], mock.published);
}

#[test]
fn published_fields_are_read_back_from_a_snapshot() {
    let mut mock = Mock::new(vec![]);
    let sent = HashMap::from([
        ("sensor_id".to_string(), "abc123".to_string()),
        ("temperature".to_string(), "22.5 \"°C\"".to_string()),
    ]);
    let message = MapMessage::new(Some("key".to_string()), sent.clone());
    let request = stream_publisher("topic").publish_stream_request(message);
    mock.xadd(request);
    assert!(mock.published[0].contains("abc123"));
    let snapshot = RedisStreamSnapshot::get::<MapMessage>(mock.xrange("topic")).unwrap();
    assert_eq!(vec![MapMessage::from_fields(sent)], snapshot);
}

#[test]
fn published_payload_is_read_back_as_data() {
    let mut mock = Mock::new(vec![]);
    let message = StringMessage::from_value("snapshot payload".to_string());
    mock.xadd(stream_publisher("topic").publish_request(message));
    let snapshot = RedisStreamSnapshot::get::<MapMessage>(mock.xrange("topic")).unwrap();
    assert_eq!(1, snapshot.len());
    assert_eq!("snapshot payload", snapshot[0].value()["data"]);
    assert!(mock.xrange("empty-stream-topic").is_empty());
}

#[test]
fn map_message_publish_stream_subscriber_round_trip() {
    let mut mock = Mock::new(vec![]);
    let mut cursor = ReadCursor::new();
    let publisher = stream_publisher("map-msg-subscriber-topic");
    let sent = HashMap::from([
        ("event".to_string(), "click".to_string()),
        ("user".to_string(), "u42".to_string()),
    ]);
    mock.xadd(publisher.publish_stream_request(MapMessage::from_fields(sent.clone())));

    let entries = mock.xread("map-msg-subscriber-topic", cursor.latest_id());
    let received: Vec<MapMessage> = cursor
        .monitor_stream(entries)
        .into_iter()
        .map(MapMessage::from)
        .collect();
    assert_eq!(vec![MapMessage::from_fields(sent)], received);
    assert_eq!("1-0", cursor.latest_id());
    let later = mock.xread("map-msg-subscriber-topic", cursor.latest_id());
    assert!(later.is_empty());
}

#[test]
fn published_payload_reaches_the_observers_of_the_server() {
    let mut mock = Mock::new(vec![]);
    let publisher = RedisPubSubPublisher::new("redis://mock".to_string(), "topic".to_string());
    let request = publisher.publish_request(StringMessage::from_value("hello".to_string()));
    let mut command = redis::cmd("PUBLISH");
    command.arg(&request.topic).arg(&request.payload);
    assert_eq!(Value::Int(1), mock.ask(&command));
    assert_eq!(vec!["hello".to_string()], mock.published);
}

fn delivered(messages: &[&str]) -> Vec<String> {
    let preloaded = vec![(
        "ordered-topic".to_string(),
        messages.iter().map(|message| message.to_string()).collect(),
    )];
    let mut mock = Mock::new(preloaded);
    let mut command = redis::cmd("SUBSCRIBE");
    command.arg("ordered-topic");
    let response = mock.send(&command);
    let mut input = response.as_slice();
    let mut parser = redis::Parser::new();
    let mut received = Vec::new();
    for at in 0..=messages.len() {
        let parts: Vec<Value> = Vec::from_redis_value(parser.parse_value(&mut input).unwrap()).unwrap();
        assert_eq!(Value::BulkString(b"ordered-topic".to_vec()), parts[1]);
        if at == 0 {
            assert_eq!(Value::BulkString(b"subscribe".to_vec()), parts[0]);
            assert_eq!(Value::Int(1), parts[2]);
        } else {
            assert_eq!(Value::BulkString(b"message".to_vec()), parts[0]);
            let payload = to_redis_value(parts[2].clone());
            match drain_messages(DrainEvent::Payload(payload)) {
                DrainStep::Forward(message) => {
                    received.push(StringMessage::from(message).extract_value())
                }
                _ => panic!("a payload is forwarded"),
            }
        }
    }
    received
}

#[test]
fn test_subscribe_plain_string_payload_round_trips() {
    assert_eq!(
        vec!["Hello, Redis PubSub!".to_string()],
        delivered(&["Hello, Redis PubSub!"])
    );
}

#[test]
fn test_subscribe_receives_multiple_messages_in_order() {
    assert_eq!(
        vec!["first", "second", "third"],
        delivered(&["first", "second", "third"])
    );
}
