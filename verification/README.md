# rust-pubsub-lib

Publishing to, snapshotting from, and subscribing to broker-backed topics, with the decisions
verified by Verus.

- `src/` is the library. It decides: what is handed to a broker's client, what is made of its
  answers, when to reconnect and how long to wait, which background runtime serves a subscriber and
  when an idle one is evicted. What each function promises is stated in its contract; what the
  library promises across functions is stated and proved in public proof functions named `law_...`.
- `app/` is the async front end. It opens connections, runs the background tasks, keeps the clock,
  and carries out what the library decides.
- `tests/` run the library.

## Modules

- `message`: the `Message` trait, `ByteMessage` and `StringMessage`.
- `transport`: the `Publisher`, `Snapshot` and `Subscriber` traits.
- `error`: `PubSubError`.
- `backoff`: error deduplication and exponential backoff for reconnect loops.
- `cache`: background runtimes shared by subscribers, and their eviction when idle.
- `kafka_impl`: Kafka publishers, snapshots and subscribers; the producer cache.
- `redis_impls`: Redis pub/sub and Redis Streams; reply values and JSON; a mock server for tests.
- `keyed_map`, `queue`, `text`: what the others are built from.

## What is trusted

Calls into the Kafka and Redis clients, the JSON and UUID crates, and a few functions of the standard
library stand behind small wrappers, whose doc comments say what is believed of each. A few of them
claim nothing of what comes back.

## Environment variables

- `KAFKA_CONNECTION_SECONDS`: timeout of Kafka operations in seconds, `1` if it is not set.
