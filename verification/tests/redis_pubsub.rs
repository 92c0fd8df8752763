use rust_pubsub_lib::backoff::{Backoff, OutageState};
use rust_pubsub_lib::redis_impls::pubsub::runtime::{
    drain_messages, start_stream, DrainEvent, DrainOutcome, DrainStep, SubscriptionAction,
    SubscriptionEvent,
};
use rust_pubsub_lib::redis_impls::pubsub::{RedisPublisher, RedisSubscriber};
use rust_pubsub_lib::redis_impls::value::{RedisScalar, RedisValue};
use rust_pubsub_lib::{Message, Publisher, StringMessage, Subscriber};

fn publisher() -> RedisPublisher {
    RedisPublisher::new("redis://host".to_string(), "test-topic".to_string())
}

fn received(payload: RedisValue) -> Option<StringMessage> {
    match drain_messages(DrainEvent::Payload(payload)) {
        DrainStep::Forward(message) => Some(StringMessage::from(message)),
        DrainStep::Skip => None,
        DrainStep::End(_) => panic!("a payload does not end the drain"),
    }
}

#[test]
fn test_publish() {
    let message = StringMessage::from_value("Hello, Redis PubSub!".to_string());
    let request = publisher().publish_request(message);
    assert_eq!("test-topic", request.topic);
    assert_eq!(b"Hello, Redis PubSub!".to_vec(), request.payload);
    assert_eq!("redis://host", publisher().host());
}

#[test]
fn test_publish_ignores_message_key() {
    let message = StringMessage::new(
        Some("ignored-key".to_string()),
        "Hello, Redis PubSub!".to_string(),
    );
    let request = publisher().publish_request(message);
    assert_eq!(b"Hello, Redis PubSub!".to_vec(), request.payload);
}

#[test]
fn published_text_is_received_without_its_key() {
    let message = StringMessage::new(Some("key".to_string()), "texte é".to_string());
    let request = publisher().publish_request(message);
    let arrived = RedisValue::Scalar(RedisScalar::BulkString(request.payload));
    assert_eq!(
        received(arrived),
        Some(StringMessage::from_value("texte é".to_string()))
    );
}

#[test]
fn test_subscribe_json_looking_payload_remains_plain_text() {
    let json_text = "{\"hello\":[1,2,3]}";
    let payload = RedisValue::Scalar(RedisScalar::BulkString(json_text.as_bytes().to_vec()));
    assert_eq!(json_text, received(payload).unwrap().extract_value());
}

#[test]
fn other_payloads_are_read_as_text_or_skipped() {
    let scalar = |scalar| received(RedisValue::Scalar(scalar)).map(|msg| msg.extract_value());
    assert_eq!(scalar(RedisScalar::Int(5)).as_deref(), Some("5"));
    assert_eq!(scalar(RedisScalar::Okay).as_deref(), Some("OK"));
    assert_eq!(scalar(RedisScalar::Nil), None);
    assert_eq!(received(RedisValue::Array(vec![])), None);
    match drain_messages(DrainEvent::Payload(RedisValue::Scalar(
        RedisScalar::BulkString(vec![0xff]),
    ))) {
        DrainStep::Forward(message) => assert_eq!(message.value_ref(), &[0xff]),
        _ => panic!("binary data is forwarded as it is"),
    }
}

#[test]
fn drain_ends_when_closed_or_cancelled() {
    assert!(matches!(
        drain_messages(DrainEvent::Closed),
        DrainStep::End(DrainOutcome::Reconnect)
    ));
    assert!(matches!(
        drain_messages(DrainEvent::Cancelled),
        DrainStep::End(DrainOutcome::Stop)
    ));
    assert!(matches!(
        drain_messages(DrainEvent::Unreadable),
        DrainStep::Skip
    ));
}

#[test]
fn subscription_treats_a_dropped_connection_as_an_outage() {
    let mut outage: OutageState<u8> = OutageState::default();
    let mut step = |event| start_stream(&mut outage, event);
    let drained = |outcome| SubscriptionEvent::Drained {
        outcome,
        drop_kind: 9,
    };
    assert_eq!(
        SubscriptionAction::Connect,
        step(SubscriptionEvent::LoopHead { cancelled: false })
    );
    assert_eq!(
        SubscriptionAction::Drain { recovered: false },
        step(SubscriptionEvent::Connected)
    );
    assert_eq!(
        SubscriptionAction::Wait(Backoff { report: true, wait_secs: 1 }),
        step(drained(DrainOutcome::Reconnect))
    );
    assert_eq!(
        SubscriptionAction::Wait(Backoff { report: false, wait_secs: 2 }),
        step(SubscriptionEvent::ConnectFailed(9))
    );
    assert_eq!(
        SubscriptionAction::Drain { recovered: true },
        step(SubscriptionEvent::Connected)
    );
    assert_eq!(SubscriptionAction::Stop, step(drained(DrainOutcome::Stop)));
    assert_eq!(
        SubscriptionAction::Stop,
        step(SubscriptionEvent::LoopHead { cancelled: true })
    );
}

#[test]
fn subscriber_is_configured_without_side_effects() {
    let subscriber = RedisSubscriber::new("redis://host".to_string(), "topic".to_string());
    assert_eq!(
        "RedisSubscriber { host: \"redis://host\", topic: \"topic\" }",
        format!("{subscriber:?}")
    );
}
