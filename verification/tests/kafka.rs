use rdkafka::error::{KafkaError, RDKafkaErrorCode};
use rdkafka::producer::Producer;
use rust_pubsub_lib::backoff::{Backoff, OutageState};
use rust_pubsub_lib::kafka_impl::config::{consumer_config, producer_config};
use rust_pubsub_lib::kafka_impl::kafka_cache::{
    cached_producer, get_kafka_producer, reap_unused_producers, store_producer, ProducerCache,
};
use rust_pubsub_lib::kafka_impl::runtime::{
    convert_to_message, monitor_stream, start_stream, ConsumerAction, ConsumerEvent, Consumption,
    IncomingRecord, MonitorStep,
};
use rust_pubsub_lib::kafka_impl::testing_utils::TopicRegistry;
use rust_pubsub_lib::kafka_impl::{get_kafka_timeout_val, SnapshotEvent, SnapshotRun};
use rust_pubsub_lib::{
    KafkaPublisher, KafkaSnapshot, KafkaSubscriber, Message, PubSubError, Publisher, Snapshot,
    StringMessage, Subscriber,
};

fn record(partition: i32, offset: i64, payload: &str) -> IncomingRecord {
    IncomingRecord {
        partition,
        offset,
        key: None,
        payload: Some(payload.as_bytes().to_vec()),
    }
}

#[test]
fn format_kafka_publisher() {
    let host = String::from("host");
    let topic = String::from("topic");
    let test_pub = KafkaPublisher::new(host.clone(), topic.clone());
    assert_eq!(
        "KafkaPublisher { host: \"host\", topic: \"topic\" }",
        format!("{test_pub:?}")
    );
}

#[test]
fn format_kafka_subscriber() {
    let topic = String::from("topic");
    let test_sub = KafkaSubscriber::new("host".to_string(), topic.clone());
    assert_eq!(
        "KafkaSubscriber { host: \"host\", topic: \"topic\" }",
        format!("{test_sub:?}")
    );
}

#[test]
fn from_kafka_error() {
    let expected = PubSubError::from_debug(KafkaError::Canceled);
    let result = PubSubError::from(KafkaError::Canceled);
    assert_eq!(expected.to_string(), result.to_string());
    assert_eq!(expected.cause_message(), result.cause_message());
    assert_eq!(result.cause_message(), Some("KafkaError (Client dropped)"));
}

#[test]
fn kafka_consumer_and_producer() {
    let message = StringMessage::new(Some("key".to_string()), "testing".to_string());
    let test_pub = KafkaPublisher::new("host".to_string(), "test_topic".to_string());
    let request = test_pub.publish_request(message.clone());
    assert_eq!("host", test_pub.host());
    assert_eq!("test_topic", request.topic);
    let arrived = IncomingRecord {
        partition: 0,
        offset: 0,
        key: request.key,
        payload: Some(request.payload),
    };
    let received = StringMessage::from(convert_to_message(&arrived).unwrap());
    assert_eq!(message, received);
}

#[test]
fn kafka_snapshot() {
    let bounds =
        KafkaSnapshot::determine_max_offsets(Some(vec![(0, 2), (1, 0), (2, 1)])).unwrap();
    let mut run = SnapshotRun::new(bounds);
    for (partition, offset) in [(0, 0), (2, 0), (0, 1)] {
        assert!(!run.is_done());
        run.observe(SnapshotEvent::Record(record(
            partition,
            offset,
            &format!("{partition}:{offset}"),
        )))
        .unwrap();
    }
    assert!(run.is_done());
    let messages = KafkaSnapshot::get::<StringMessage>(run).unwrap();
    let texts: Vec<&str> = messages.iter().map(|msg| msg.value_ref()).collect();
    assert_eq!(vec!["0:0", "2:0", "0:1"], texts);
}

#[test]
fn kafka_snapshot_empty_topic_returns_empty_without_hanging() {
    let bounds = KafkaSnapshot::determine_max_offsets(Some(vec![(0, 0), (1, 0)])).unwrap();
    let run = SnapshotRun::new(bounds);
    assert!(run.is_done());
    assert!(KafkaSnapshot::get::<StringMessage>(run).unwrap().is_empty());
}

#[test]
fn snapshot_is_done_behind_the_bound_too() {
    let bounds = KafkaSnapshot::determine_max_offsets(Some(vec![(3, 5)])).unwrap();
    let mut run = SnapshotRun::new(bounds);
    run.observe(SnapshotEvent::Record(record(3, 3, "before")))
        .unwrap();
    assert!(!run.is_done());
    run.observe(SnapshotEvent::Record(record(4, 9, "other")))
        .unwrap();
    assert!(!run.is_done());
    run.observe(SnapshotEvent::Record(record(3, 7, "behind")))
        .unwrap();
    assert!(run.is_done());
}

#[test]
fn snapshot_fails_on_anything_but_a_payload() {
    let bounds = || KafkaSnapshot::determine_max_offsets(Some(vec![(0, 1)])).unwrap();
    let observe = |event| SnapshotRun::new(bounds()).observe(event);
    let ended = observe(SnapshotEvent::Ended).unwrap_err();
    let end = KafkaError::MessageConsumption(RDKafkaErrorCode::PartitionEOF);
    assert_eq!(ended.cause_message(), Some(format!("{end:?}").as_str()));
    let failed = observe(SnapshotEvent::Failed(KafkaError::Canceled)).unwrap_err();
    assert_eq!(failed.cause_message(), Some("KafkaError (Client dropped)"));
    let late = PubSubError::from_cause("late".to_string());
    let timed_out = observe(SnapshotEvent::TimedOut(late)).unwrap_err();
    assert_eq!(timed_out.cause_message(), Some("late"));
    let mut empty = record(0, 0, "");
    empty.payload = None;
    let missing = observe(SnapshotEvent::Record(empty)).unwrap_err();
    assert_eq!(missing.cause_message(), None);
}

#[test]
fn topic_without_metadata_is_an_error() {
    match KafkaSnapshot::determine_max_offsets(None) {
        Err(err) => assert!(matches!(
            err,
            KafkaError::MetadataFetch(RDKafkaErrorCode::InvalidPartitions)
        )),
        Ok(_) => panic!("there is no metadata"),
    }
}

#[test]
fn timeout_defaults_to_one_second() {
    assert_eq!(1, get_kafka_timeout_val(None));
    assert_eq!(7, get_kafka_timeout_val(Some(7)));
}

#[test]
fn clients_are_configured() {
    let producer = producer_config("host:9092");
    assert_eq!(Some("host:9092"), producer.get("bootstrap.servers"));
    assert_eq!(None, producer.get("group.id"));
    let consumer = consumer_config("host:9092", "group", false);
    assert_eq!(Some("host:9092"), consumer.get("bootstrap.servers"));
    assert_eq!(Some("group"), consumer.get("group.id"));
    assert_eq!(None, consumer.get("auto.offset.reset"));
    let earliest = consumer_config("host:9092", "group", true);
    assert_eq!(Some("earliest"), earliest.get("auto.offset.reset"));
}

#[test]
fn every_consumption_has_a_group_of_its_own() {
    let first = Consumption::new("host".to_string(), "topic".to_string());
    let second = Consumption::new("host".to_string(), "topic".to_string());
    let group = |consumption: &Consumption| {
        let config = consumption.config(true);
        assert_eq!(Some("host"), config.get("bootstrap.servers"));
        config.get("group.id").unwrap().to_string()
    };
    assert_eq!("topic", first.topic());
    assert_eq!(group(&first), group(&first));
    assert_ne!(group(&first), group(&second));
    let id = group(&first);
    assert_eq!(36, id.len());
    assert_eq!("4", &id[14..15]);
    let snapshot = KafkaSnapshot::configure_consumer("host");
    assert_eq!(36, snapshot.get("group.id").unwrap().len());
    assert_eq!(Some("earliest"), snapshot.get("auto.offset.reset"));
}

#[test]
fn failed_round_is_reported_where_its_kind_changes() {
    let mut outage: OutageState<u8> = OutageState::default();
    let mut reported = |kind: u8| {
        let event = if kind == 1 {
            ConsumerEvent::CreateFailed(kind)
        } else {
            ConsumerEvent::SubscribeFailed(kind)
        };
        match start_stream(&mut outage, event) {
            ConsumerAction::Wait(backoff) => backoff.report,
            _ => panic!("a failed round waits"),
        }
    };
    assert_eq!([1, 1, 2, 1].map(&mut reported), [true, false, true, true]);
    start_stream(&mut outage, ConsumerEvent::Subscribed);
    match start_stream(&mut outage, ConsumerEvent::CreateFailed(1)) {
        ConsumerAction::Wait(backoff) => assert!(backoff.report),
        _ => panic!("a failed round waits"),
    }
}

#[test]
fn consumer_loop_reconnects_until_it_is_cancelled() {
    let mut outage: OutageState<u8> = OutageState::default();
    let mut step = |event| start_stream(&mut outage, event);
    assert_eq!(
        ConsumerAction::Create,
        step(ConsumerEvent::LoopHead { cancelled: false })
    );
    assert_eq!(
        ConsumerAction::Wait(Backoff { report: true, wait_secs: 1 }),
        step(ConsumerEvent::CreateFailed(1))
    );
    assert_eq!(ConsumerAction::Subscribe, step(ConsumerEvent::Created));
    assert_eq!(
        ConsumerAction::Wait(Backoff { report: true, wait_secs: 2 }),
        step(ConsumerEvent::SubscribeFailed(2))
    );
    assert_eq!(
        ConsumerAction::Monitor { recovered: true },
        step(ConsumerEvent::Subscribed)
    );
    assert_eq!(ConsumerAction::LoopAgain, step(ConsumerEvent::StreamEnded));
    assert_eq!(
        ConsumerAction::Stop,
        step(ConsumerEvent::LoopHead { cancelled: true })
    );
}

#[test]
fn stream_errors_do_not_stall_the_stream() {
    let mut outage: OutageState<u8> = OutageState::default();
    assert!(matches!(
        monitor_stream(&mut outage, Err(1)),
        MonitorStep::Failed { report: true }
    ));
    assert!(matches!(
        monitor_stream(&mut outage, Err(1)),
        MonitorStep::Failed { report: false }
    ));
    match monitor_stream(&mut outage, Ok(record(0, 0, "back"))) {
        MonitorStep::Forward { message, recovered } => {
            assert!(recovered);
            assert_eq!(message.value_ref(), b"back");
        }
        _ => panic!("a record with a payload is forwarded"),
    }
    let mut empty = record(0, 1, "");
    empty.payload = None;
    assert!(matches!(
        monitor_stream(&mut outage, Ok(empty)),
        MonitorStep::Skip { recovered: false }
    ));
}

#[test]
fn tests_kafka_producer_hot_path_does_not_insert_duplicate_entry() {
    let mut cache: ProducerCache = ProducerCache::new();
    let host = "127.0.0.1:1".to_string();
    let first = get_kafka_producer(&mut cache, &host, 3).unwrap();
    assert_eq!(
        3,
        cache
            .get(&host)
            .expect("entry must exist after first call")
            .last_used_epoch_secs
    );
    let second = get_kafka_producer(&mut cache, &host, 8).unwrap();
    assert!(std::ptr::eq(
        first.producer.client(),
        second.producer.client()
    ));
    let entry = cache
        .get(&host)
        .expect("entry must still exist after second call");
    assert_eq!(8, entry.last_used_epoch_secs);
    assert!(std::ptr::eq(
        first.producer.client(),
        entry.producer.producer.client()
    ));
}

#[test]
fn kafka_producer_of_another_host_is_another_producer() {
    let mut cache: ProducerCache = ProducerCache::new();
    let first = get_kafka_producer(&mut cache, "127.0.0.1:1", 0).unwrap();
    let second = get_kafka_producer(&mut cache, "127.0.0.1:2", 0).unwrap();
    assert!(!std::ptr::eq(
        first.producer.client(),
        second.producer.client()
    ));
}

#[test]
fn producer_that_cannot_be_created_is_not_kept() {
    let mut cache: ProducerCache = ProducerCache::new();
    let host = "bad\0host".to_string();
    match get_kafka_producer(&mut cache, &host, 0) {
        Err(err) => assert!(err.cause_message().is_some()),
        Ok(_) => panic!("a host with a nul byte cannot be configured"),
    }
    assert!(cache.get(&host).is_none());
    match store_producer(&mut cache, "host", 0, Err(KafkaError::Canceled)) {
        Err(err) => assert_eq!(err.cause_message(), Some("KafkaError (Client dropped)")),
        Ok(_) => panic!("there is no producer"),
    }
    assert!(cached_producer(&mut cache, "host", 0).is_none());
}

#[test]
fn idle_producer_is_evicted_after_a_minute() {
    let mut cache: ProducerCache = ProducerCache::new();
    let host = "127.0.0.1:1".to_string();
    get_kafka_producer(&mut cache, &host, 100).unwrap();
    reap_unused_producers(&mut cache, 159);
    assert!(cache.get(&host).is_some());
    reap_unused_producers(&mut cache, 50);
    assert!(cache.get(&host).is_some());
    reap_unused_producers(&mut cache, 160);
    assert!(cache.get(&host).is_none());
}

#[test]
fn producer_that_is_asked_for_within_a_minute_stays() {
    let mut cache: ProducerCache = ProducerCache::new();
    let host = "127.0.0.1:1".to_string();
    let first = get_kafka_producer(&mut cache, &host, 0).unwrap();
    for round in 1..10 {
        reap_unused_producers(&mut cache, round * 59 - 1);
        let again = get_kafka_producer(&mut cache, &host, round * 59).unwrap();
        assert!(std::ptr::eq(
            first.producer.client(),
            again.producer.client()
        ));
        reap_unused_producers(&mut cache, round * 59 + 1);
    }
    reap_unused_producers(&mut cache, 9 * 59 + 59);
    assert!(cache.get(&host).is_some());
    reap_unused_producers(&mut cache, 9 * 59 + 60);
    assert!(cache.get(&host).is_none());
}

#[test]
fn every_attempt_of_a_consumption_uses_the_same_settings() {
    let consumption = Consumption::new("host".to_string(), "topic".to_string());
    let (first, second) = (consumption.config(false), consumption.config(false));
    assert_eq!(first.config_map(), second.config_map());
    assert_eq!(first.get("bootstrap.servers"), Some("host"));
    assert_eq!("topic", consumption.topic());
}

#[test]
fn harness_new_topic_creates_distinct_topics() {
    let mut registry = TopicRegistry::new();
    let first = registry.new_topic("kafka-harness-topic");
    let second = registry.new_topic("kafka-harness-topic");
    assert_ne!(first.name, second.name);
    assert_eq!("kafka-harness-topic-1", first.name);
    assert_eq!("kafka-harness-topic-2", second.name);
    assert!(first.is_new && second.is_new);
}

#[test]
fn harness_with_new_topic_returns_handle_and_created_topic() {
    let mut registry = TopicRegistry::new();
    let topic = registry.new_topic("kafka-harness-single");
    assert!(!registry.create_topic(&topic.name));
}

#[test]
fn harness_with_new_topics_creates_each_requested_topic() {
    let mut registry = TopicRegistry::new();
    let first = registry.new_topic("kafka-batch-a");
    let second = registry.new_topic("kafka-batch-b");
    assert_ne!(first.name, second.name);
    assert!(!registry.create_topic(&first.name));
    assert!(!registry.create_topic(&second.name));
}

#[test]
fn mock_kafka_create_topic_deduplicates_requests() {
    let mut registry = TopicRegistry::new();
    assert!(registry.create_topic("kafka-harness-dedup-topic"));
    assert!(!registry.create_topic("kafka-harness-dedup-topic"));
    assert!(registry.create_topic("other"));
    assert!(registry.create_topic("p-1"));
    assert!(!registry.new_topic("p").is_new);
}
