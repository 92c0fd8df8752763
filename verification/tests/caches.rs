use std::sync::Arc;

use rust_pubsub_lib::cache::{
    get_stream, next_reaper_action, reap_unused_streams, typed_message, CacheKey, ReaperAction,
    ReaperEvent, RuntimeCache, Source, NANOS_PER_SEC, REAPER_INTERVAL,
};
use rust_pubsub_lib::keyed_map::{Key, KeyedMap};
use rust_pubsub_lib::{
    ByteMessage, KafkaSubscriber, Message, RedisPubSubSubscriber, RedisStreamSubscriber, StringMessage,
    Subscriber,
};

type Runtime = Arc<String>;

fn listeners(runtime: &Runtime) -> usize {
    Arc::strong_count(runtime) - 1
}

fn start(host: String, topic: String) -> Runtime {
    Arc::new(format!("{host}|{topic}"))
}

fn running<'c>(
    cache: &'c RuntimeCache<Runtime>,
    host: &str,
    topic: &str,
    source: Source,
) -> Option<&'c Runtime> {
    let slot = cache.position(&CacheKey::new(host, topic, source))?;
    Some(&cache.value_at(slot).runtime)
}

#[test]
fn cached_runtime_starts_when_first_receiver_is_requested() {
    let mut cache: RuntimeCache<Runtime> = RuntimeCache::new();
    let host = "lazy-runtime-host";
    let topic = "lazy-runtime-topic";
    assert!(running(&cache, host, topic, Source::Kafka).is_none());
    let _listener = get_stream(&mut cache, host, topic, Source::Kafka, start).clone();
    let runtime = running(&cache, host, topic, Source::Kafka).expect("missing cached runtime");
    assert_eq!(1, listeners(runtime));
    assert_eq!("lazy-runtime-host|lazy-runtime-topic", **runtime);
}

#[test]
fn same_host_topic_shares_one_cache_entry() {
    let mut cache: RuntimeCache<Runtime> = RuntimeCache::new();
    let host = "shared-runtime-host";
    let topic = "shared-runtime-topic";
    let source = Source::RedisPubSub;
    let _first = get_stream(&mut cache, host, topic, source, start).clone();
    let _second = get_stream(&mut cache, host, topic, source, |_, _| {
        panic!("the runtime is already there")
    })
    .clone();
    let runtime = running(&cache, host, topic, source)
        .expect("cache entry should exist for shared (host, topic, source)");
    assert_eq!(
        listeners(runtime),
        2,
        "both streams should share one runtime — receiver_count should be 2"
    );
}

#[test]
fn kafka_subscriber_shares_cached_stream_per_host_topic() {
    let mut cache: RuntimeCache<Runtime> = RuntimeCache::new();
    let subscriber = || KafkaSubscriber::new("host".to_string(), "shared_topic".to_string());
    let (first, second) = (subscriber(), subscriber());
    let mut listen = |key: CacheKey<'_>| {
        get_stream(&mut cache, key.host(), key.topic(), key.source(), start).clone()
    };
    let stream_a = listen(first.stream_key());
    let stream_b = listen(second.stream_key());
    assert!(Arc::ptr_eq(&stream_a, &stream_b));
    let runtime = running(&cache, "host", "shared_topic", Source::Kafka)
        .expect("missing shared stream cache entry");
    assert_eq!(2, listeners(runtime));
}

#[test]
fn backends_hosts_and_topics_do_not_share_runtimes() {
    let mut cache: RuntimeCache<Runtime> = RuntimeCache::new();
    let first = get_stream(&mut cache, "h", "t", Source::Kafka, start).clone();
    for (host, topic, source) in [
        ("h", "t", Source::RedisStream),
        ("h2", "t", Source::Kafka),
        ("h", "t2", Source::Kafka),
        ("ht", "", Source::Kafka),
    ] {
        let other = get_stream(&mut cache, host, topic, source, start).clone();
        assert!(!Arc::ptr_eq(&first, &other));
    }
    assert!(Arc::ptr_eq(
        &first,
        running(&cache, "h", "t", Source::Kafka).unwrap()
    ));
}

fn is_running(cache: &RuntimeCache<Runtime>, topic: &str) -> bool {
    running(cache, "h", topic, Source::Kafka).is_some()
}

#[test]
fn idle_runtime_is_evicted_a_minute_after_it_is_found_without_listeners() {
    let mut cache: RuntimeCache<Runtime> = RuntimeCache::new();
    let listener = get_stream(&mut cache, "h", "t", Source::Kafka, start).clone();
    get_stream(&mut cache, "h", "unused", Source::Kafka, start);
    reap_unused_streams(&mut cache, 100 * NANOS_PER_SEC, listeners);
    assert!(is_running(&cache, "t") && is_running(&cache, "unused"));
    reap_unused_streams(&mut cache, 160 * NANOS_PER_SEC - 1, listeners);
    assert!(is_running(&cache, "t") && is_running(&cache, "unused"));
    reap_unused_streams(&mut cache, 160 * NANOS_PER_SEC, listeners);
    assert!(is_running(&cache, "t") && !is_running(&cache, "unused"));
    drop(listener);
    reap_unused_streams(&mut cache, 170 * NANOS_PER_SEC, listeners);
    reap_unused_streams(&mut cache, 229 * NANOS_PER_SEC, listeners);
    assert!(is_running(&cache, "t"));
    reap_unused_streams(&mut cache, 230 * NANOS_PER_SEC, listeners);
    assert!(!is_running(&cache, "t"));
}

#[test]
fn runtime_asked_for_between_two_passes_is_not_idle() {
    let mut cache: RuntimeCache<Runtime> = RuntimeCache::new();
    let first = get_stream(&mut cache, "h", "t", Source::Kafka, start).clone();
    let earlier = Arc::downgrade(&first);
    drop(first);
    reap_unused_streams(&mut cache, 10 * NANOS_PER_SEC, listeners);
    reap_unused_streams(&mut cache, 60 * NANOS_PER_SEC, listeners);
    let second = get_stream(&mut cache, "h", "t", Source::Kafka, start).clone();
    assert!(Arc::ptr_eq(&earlier.upgrade().unwrap(), &second));
    drop(second);
    reap_unused_streams(&mut cache, 70 * NANOS_PER_SEC, listeners);
    assert!(is_running(&cache, "t"));
    reap_unused_streams(&mut cache, 130 * NANOS_PER_SEC - 1, listeners);
    assert!(is_running(&cache, "t"));
    reap_unused_streams(&mut cache, 130 * NANOS_PER_SEC, listeners);
    assert!(!is_running(&cache, "t"));
}

#[test]
fn listener_found_by_a_pass_starts_the_grace_period_anew() {
    let mut cache: RuntimeCache<Runtime> = RuntimeCache::new();
    get_stream(&mut cache, "h", "t", Source::Kafka, start);
    reap_unused_streams(&mut cache, 10 * NANOS_PER_SEC, listeners);
    let listener = running(&cache, "h", "t", Source::Kafka).unwrap().clone();
    reap_unused_streams(&mut cache, 65 * NANOS_PER_SEC, listeners);
    drop(listener);
    reap_unused_streams(&mut cache, 75 * NANOS_PER_SEC, listeners);
    reap_unused_streams(&mut cache, 134 * NANOS_PER_SEC, listeners);
    assert!(is_running(&cache, "t"));
    reap_unused_streams(&mut cache, 135 * NANOS_PER_SEC, listeners);
    assert!(!is_running(&cache, "t"));
}

#[test]
fn passes_come_ten_seconds_apart() {
    let mut event = ReaperEvent::Started;
    let mut passes = Vec::new();
    let mut now = 0;
    for _ in 0..6 {
        event = match next_reaper_action(event, REAPER_INTERVAL) {
            ReaperAction::Sleep { secs } => {
                now += secs;
                ReaperEvent::Slept
            }
            ReaperAction::Pass => {
                passes.push(now);
                ReaperEvent::Passed
            }
        };
    }
    assert_eq!(passes, vec![10, 20, 30]);
}

#[test]
fn cache_key_is_the_same_when_owned() {
    let owned = CacheKey::new("h", "t", Source::Kafka).into_owned();
    assert!(owned.same(&CacheKey::new("h", "t", Source::Kafka)));
    assert!(owned == CacheKey::new("h", "t", Source::Kafka));
    assert!(!owned.same(&CacheKey::new("h", "t", Source::RedisStream)));
    assert!(!owned.same(&CacheKey::new("t", "h", Source::Kafka)));
    assert_eq!(("h", "t"), (owned.host(), owned.topic()));
    assert_eq!(Source::Kafka, owned.source());
}

#[test]
fn lagged_items_are_dropped() {
    let bytes = ByteMessage::from_value(b"x".to_vec());
    let message: Option<StringMessage> = typed_message(Ok::<_, ()>(bytes));
    assert_eq!(message, Some(StringMessage::from_value("x".to_string())));
    let lagged: Option<StringMessage> = typed_message(Err(3));
    assert_eq!(lagged, None);
}

#[test]
fn keyed_map_has_one_value_per_key() {
    let mut map: KeyedMap<String, u8> = KeyedMap::new();
    assert_eq!(map.get(&"a".to_string()), None);
    map.insert("a".to_string(), 1);
    map.insert("b".to_string(), 2);
    map.insert("a".to_string(), 3);
    assert_eq!(map.get(&"a".to_string()), Some(&3));
    let slot = map.position(&"b".to_string()).unwrap();
    assert_eq!(map.value_at(slot), &2);
    map.update_at(slot, |value| value - 1);
    assert_eq!(map.get(&"b".to_string()), Some(&1));
    assert_eq!(map.position(&"c".to_string()), None);
    map.retain(|value| if value > 2 { Some(value + 1) } else { None });
    assert_eq!(map.get(&"a".to_string()), Some(&4));
    assert_eq!(map.get(&"b".to_string()), None);
    assert_eq!(map.remove(&"a".to_string()), Some(4));
    assert_eq!(map.remove(&"a".to_string()), None);
}

#[test]
fn subscribers_are_served_by_their_own_backend() {
    let names = || ("host".to_string(), "topic".to_string());
    let (host, topic) = names();
    let kafka = KafkaSubscriber::new(host, topic);
    let (host, topic) = names();
    let pubsub = RedisPubSubSubscriber::new(host, topic);
    let (host, topic) = names();
    let stream = RedisStreamSubscriber::new(host, topic);
    let keys = [kafka.stream_key(), pubsub.stream_key(), stream.stream_key()];
    let sources = [Source::Kafka, Source::RedisPubSub, Source::RedisStream];
    for (key, source) in keys.iter().zip(sources) {
        assert!(key.same(&CacheKey::new("host", "topic", source)));
    }
}
