//! Kafka-backed implementations of the messaging traits.
//!
//! Subscribers share a consumer per host/topic pair within the process, and publishers share a
//! producer per host. Idle ones are eventually cleaned up.
use std::collections::HashMap;

use rdkafka::error::KafkaError;
use rdkafka::types::RDKafkaErrorCode;
use rdkafka::ClientConfig;
use vstd::prelude::*;
use vstd::string::*;
use vstd::utf8::encode_utf8;

use crate::cache::{CacheKey, Source};
use crate::error::PubSubError;
use crate::message::{
    law_string_message_round_trip, ByteMessage, Message, StringMessage, WireBytes,
};
use crate::text::view_opt;
use crate::transport::{all_typed, typed_from, Publisher, Snapshot, Subscriber, Target};

pub mod config;
pub mod kafka_cache;
pub mod runtime;
pub mod testing_utils;

use config::{
    config_settings, consumer_config, consumer_settings, draw_group_id, is_fresh_group,
    is_random_uuid,
};
use runtime::{record_bytes, IncomingRecord};

verus! {

/// Longest wait, in seconds, for the next message of a snapshot.
pub const SNAPSHOT_MESSAGE_TIMEOUT: u64 = 5;

/// Timeout, in seconds, of Kafka operations that is used where none is configured.
pub const DEFAULT_CONNECTION_SECONDS: u64 = 1;

/// Returns the timeout, in seconds, of Kafka operations.
pub fn get_kafka_timeout_val(configured: Option<u64>) -> (secs: u64)
    ensures
        secs == match configured {
            Some(secs) => secs,
            None => DEFAULT_CONNECTION_SECONDS,
        },
{
    match configured {
        Some(secs) => secs,
        None => DEFAULT_CONNECTION_SECONDS,
    }
}

/// A record to send to a topic.
pub struct OutgoingRecord {
    /// The topic.
    pub topic: String,
    /// The key, if the message has one.
    pub key: Option<Vec<u8>>,
    /// The payload.
    pub payload: Vec<u8>,
}

/// Kafka implementation of [`Publisher`].
///
/// Producers are cached per Kafka bootstrap host so repeated publishes can reuse an existing
/// connection instead of constructing a fresh producer every time.
#[derive(Debug)]
pub struct KafkaPublisher {
    host: String,
    topic: String,
}

impl Publisher for KafkaPublisher {
    type Request = OutgoingRecord;

    closed spec fn target(&self) -> Target {
        Target { host: self.host@, topic: self.topic@ }
    }

    open spec fn sends(&self, bytes: WireBytes, request: OutgoingRecord) -> bool {
        &&& request.topic@ == self.target().topic
        &&& view_opt(request.key) == bytes.key
        &&& request.payload@ == bytes.value
    }

    fn new(host: String, topic: String) -> (publisher: Self) {
        KafkaPublisher { host, topic }
    }

    fn host(&self) -> (host: &str) {
        self.host.as_str()
    }

    fn publish_request<M: Message>(&self, message: M) -> (request: OutgoingRecord) {
        let bytes = message.into_bytes();
        let ghost wire = bytes@;
        let (key, payload) = bytes.extract_key_value();
        let request = OutgoingRecord { topic: self.topic.clone(), key, payload };
        assert(message.encoded_as(wire) && self.sends(wire, request));
        request
    }
}

/// Kafka implementation of [`Subscriber`].
///
/// Subscribers reuse a shared consumer per host/topic pair. Constructing a subscriber is side-effect
/// free; the shared consumer is started by the first request for a stream.
#[derive(Debug)]
pub struct KafkaSubscriber {
    host: String,
    topic: String,
}

impl Subscriber for KafkaSubscriber {
    closed spec fn target(&self) -> Target {
        Target { host: self.host@, topic: self.topic@ }
    }

    open spec fn source() -> Source {
        Source::Kafka
    }

    fn new(host: String, topic: String) -> (subscriber: Self) {
        KafkaSubscriber { host, topic }
    }

    fn stream_key(&self) -> (key: CacheKey<'_>) {
        CacheKey::new(self.host.as_str(), self.topic.as_str(), Source::Kafka)
    }
}

/// The last offset of each partition that a snapshot reads up to.
pub type Bounds = HashMap<i32, i64>;

/// A partition, and the offset that its next message will get.
pub type Watermark = (i32, i64);

/// The bounds that high watermarks set: the offset before the watermark, for each partition that has
/// messages.
pub open spec fn bounds_of(watermarks: Seq<Watermark>) -> Map<i32, i64>
    decreases watermarks.len(),
{
    if watermarks.len() == 0 {
        Map::empty()
    } else {
        let (partition, high) = watermarks.last();
        let before = bounds_of(watermarks.drop_last());
        if high > 0 {
            before.insert(partition, (high - 1) as i64)
        } else {
            before
        }
    }
}

/// Why a snapshot cannot be read, where the Kafka client itself reports no error.
#[derive(Clone, Copy, Debug, PartialEq, Eq, Structural)]
pub enum SnapshotFailure {
    /// There is no metadata of the topic.
    MissingMetadata,
    /// The message stream ended early.
    StreamEnded,
}

/// The error of the Kafka client that stands for a failure.
pub uninterp spec fn failure_error(failure: SnapshotFailure) -> KafkaError;

/// Makes the error of the Kafka client that stands for a failure: for each a variant of
/// [`KafkaError`] of its own, the failed fetch of metadata for invalid partitions or the failed
/// consumption of a message at the end of a partition. It is the same for the same failure.
#[verifier::external_body]
fn kafka_error(failure: SnapshotFailure) -> (err: KafkaError)
    ensures
        err == failure_error(failure),
{
    match failure {
        SnapshotFailure::MissingMetadata => {
            KafkaError::MetadataFetch(RDKafkaErrorCode::InvalidPartitions)
        },
        SnapshotFailure::StreamEnded => {
            KafkaError::MessageConsumption(RDKafkaErrorCode::PartitionEOF)
        },
    }
}

/// Kafka implementation of [`Snapshot`].
///
/// A snapshot records the current high watermark of each partition, and reads until those offsets
/// have been observed. Messages produced after that are not guaranteed to appear. The order of the
/// messages is that in which the partitions are consumed.
#[derive(Debug)]
pub struct KafkaSnapshot;

impl KafkaSnapshot {
    /// Configures the short-lived consumer of a snapshot, which has a group of its own and starts
    /// with the oldest message.
    pub fn configure_consumer(host: &str) -> (config: ClientConfig)
        ensures
            exists|group_id: Seq<char>|
                {
                    &&& #[trigger] is_fresh_group(group_id)
                    &&& is_random_uuid(group_id)
                    &&& config_settings(config) == consumer_settings(host@, group_id, true)
                },
    {
        let group_id = draw_group_id();
        let config = consumer_config(host, group_id.as_str(), true);
        assert(is_fresh_group(group_id@));
        config
    }

    /// Determines how far a snapshot reads from the high watermarks of the topic's partitions;
    /// without metadata of the topic it fails.
    pub fn determine_max_offsets(
        watermarks: Option<Vec<Watermark>>,
    ) -> (bounds: Result<Bounds, KafkaError>)
        ensures
            match watermarks {
                Some(watermarks) => bounds matches Ok(bounds) && bounds@ == bounds_of(watermarks@),
                None => bounds matches Err(err) && err == failure_error(
                    SnapshotFailure::MissingMetadata,
                ),
            },
    {
        let watermarks = match watermarks {
            Some(watermarks) => watermarks,
            None => {
                return Err(kafka_error(SnapshotFailure::MissingMetadata));
            },
        };
        let mut bounds: Bounds = HashMap::new();
        let mut at: usize = 0;
        while at < watermarks.len()
            invariant
                at <= watermarks.len(),
                bounds@ == bounds_of(watermarks@.take(at as int)),
            decreases watermarks.len() - at,
        {
            let (partition, high) = watermarks[at];
            proof {
                let upto = watermarks@.take(at + 1);
                assert(upto.drop_last() =~= watermarks@.take(at as int));
                assert(upto.last() == watermarks@[at as int]);
            }
            if high > 0 {
                bounds.insert(partition, high - 1);
            }
            at = at + 1;
        }
        assert(watermarks@.take(at as int) =~= watermarks@);
        Ok(bounds)
    }
}

/// What arrives while a snapshot is read.
pub enum SnapshotEvent {
    /// A record.
    Record(IncomingRecord),
    /// Reading failed.
    Failed(KafkaError),
    /// The message stream ended.
    Ended,
    /// Nothing arrived within [`SNAPSHOT_MESSAGE_TIMEOUT`].
    TimedOut(PubSubError),
}

/// A snapshot that is being read.
pub struct SnapshotRun {
    bounds: Bounds,
    records: Vec<ByteMessage>,
}

/// The bounds that are left after a record: a partition is done once a record at or behind its bound
/// has been read.
pub open spec fn bounds_after(bounds: Map<i32, i64>, partition: i32, offset: i64) -> Map<i32, i64> {
    if bounds.contains_key(partition) && bounds[partition] <= offset {
        bounds.remove(partition)
    } else {
        bounds
    }
}

impl SnapshotRun {
    /// The partitions that are not done, each with the offset to read up to.
    pub closed spec fn pending(&self) -> Map<i32, i64> {
        self.bounds@
    }

    /// What has been read.
    pub closed spec fn read(&self) -> Seq<WireBytes> {
        self.records@.map_values(|record: ByteMessage| record@)
    }

    /// Starts reading up to the bounds.
    pub fn new(bounds: Bounds) -> (run: Self)
        ensures
            run.pending() == bounds@,
            run.read() == Seq::<WireBytes>::empty(),
    {
        let run = SnapshotRun { bounds, records: Vec::new() };
        assert(run.read() =~= Seq::<WireBytes>::empty());
        run
    }

    /// Whether every partition is done.
    pub fn is_done(&self) -> (done: bool)
        ensures
            done == (self.pending() == Map::<i32, i64>::empty()),
    {
        let done = self.bounds.is_empty();
        assert(self.pending().is_empty() ==> self.pending() =~= Map::<i32, i64>::empty());
        done
    }

    /// Takes in what arrived. A record without a payload fails the snapshot, as anything but a
    /// record does.
    pub fn observe(&mut self, event: SnapshotEvent) -> (observed: Result<(), PubSubError>)
        ensures
            match event {
                SnapshotEvent::Record(record) => {
                    &&& final(self).pending() == bounds_after(
                        old(self).pending(),
                        record.partition,
                        record.offset,
                    )
                    &&& match record_bytes(record) {
                        Some(bytes) => {
                            &&& observed is Ok
                            &&& final(self).read() == old(self).read().push(bytes)
                        },
                        None => {
                            &&& observed matches Err(err) && err.cause() is None
                            &&& final(self).read() == old(self).read()
                        },
                    }
                },
                SnapshotEvent::TimedOut(err) => observed == Err::<(), PubSubError>(err)
                    && *final(self) == *old(self),
                SnapshotEvent::Failed(cause) => observed matches Err(err) && err.cause() is Some
                    && err.captures(cause) && *final(self) == *old(self),
                SnapshotEvent::Ended => {
                    &&& *final(self) == *old(self)
                    &&& observed matches Err(err)
                    &&& err.cause() is Some
                    &&& err.captures(failure_error(SnapshotFailure::StreamEnded))
                },
            },
    {
        match event {
            SnapshotEvent::Record(record) => {
                let reached = match self.bounds.get(&record.partition) {
                    Some(bound) => *bound <= record.offset,
                    None => false,
                };
                if reached {
                    self.bounds.remove(&record.partition);
                }
                match runtime::convert_to_message(&record) {
                    Some(message) => {
                        let ghost before = self.read();
                        self.records.push(message);
                        assert(self.read() =~= before.push(message@));
                        Ok(())
                    },
                    None => Err(PubSubError::default()),
                }
            },
            SnapshotEvent::Failed(err) => Err(PubSubError::from(err)),
            SnapshotEvent::Ended => Err(PubSubError::from(kafka_error(SnapshotFailure::StreamEnded))),
            SnapshotEvent::TimedOut(err) => Err(err),
        }
    }
}

impl Snapshot for KafkaSnapshot {
    type Reply = SnapshotRun;

    open spec fn holds(reply: SnapshotRun, bytes: Option<Seq<WireBytes>>) -> bool {
        bytes == Some(reply.read())
    }

    fn get<M: Message>(reply: SnapshotRun) -> (messages: Result<Vec<M>, PubSubError>)
        ensures
            messages matches Ok(messages) && messages@.len() == reply.read().len() && forall|i: int|
                0 <= i < messages@.len() ==> (#[trigger] messages@[i]).decoded_from(
                    reply.read()[i],
                ),
    {
        let mut messages: Vec<M> = Vec::new();
        let mut at: usize = 0;
        while at < reply.records.len()
            invariant
                at == messages@.len(),
                at <= reply.records@.len(),
                forall|i: int|
                    0 <= i < messages@.len() ==> (#[trigger] messages@[i]).decoded_from(
                        reply.read()[i],
                    ),
            decreases reply.records.len() - at,
        {
            let record = &reply.records[at];
            assert(reply.read()[at as int] == record@);
            messages.push(M::from_bytes(record.key_ref(), record.value_ref()));
            at = at + 1;
        }
        assert(Self::holds(reply, Some(reply.read())));
        assert(all_typed(reply.read(), messages@)) by {
            assert forall|i: int| 0 <= i < reply.read().len() implies typed_from(
                #[trigger] reply.read()[i],
                messages@[i],
            ) by {
                assert(messages@[i].decoded_from(reply.read()[i]));
            }
        }
        Ok(messages)
    }
}

/// Where records come from: a partition, and an offset in it.
pub type Position = (i32, i64);

/// The bounds that are left after records from these positions.
pub open spec fn bounds_after_all(bounds: Map<i32, i64>, positions: Seq<Position>) -> Map<i32, i64>
    decreases positions.len(),
{
    if positions.len() == 0 {
        bounds
    } else {
        let (partition, offset) = positions.last();
        bounds_after(bounds_after_all(bounds, positions.drop_last()), partition, offset)
    }
}

/// Whether a record at or behind the bound of a partition is among the positions.
pub open spec fn is_reached(positions: Seq<Position>, partition: i32, bound: i64) -> bool {
    exists|i: int|
        0 <= i < positions.len() && (#[trigger] positions[i]).0 == partition && positions[i].1
            >= bound
}

/// A snapshot is done exactly when every partition that had messages has been read up to its last
/// one: a partition is pending as long as no record at or behind its bound has been read, and a
/// pending partition keeps its bound.
pub proof fn law_snapshot_reads_up_to_its_bounds(
    bounds: Map<i32, i64>,
    positions: Seq<Position>,
    partition: i32,
)
    ensures
        bounds_after_all(bounds, positions).contains_key(partition) <==> bounds.contains_key(
            partition,
        ) && !is_reached(positions, partition, bounds[partition]),
        bounds_after_all(bounds, positions).contains_key(partition) ==> bounds_after_all(
            bounds,
            positions,
        )[partition] == bounds[partition],
    decreases positions.len(),
{
    if positions.len() > 0 {
        let earlier = positions.drop_last();
        law_snapshot_reads_up_to_its_bounds(bounds, earlier, partition);
        let bound = bounds[partition];
        if is_reached(earlier, partition, bound) {
            let i = choose|i: int|
                0 <= i < earlier.len() && (#[trigger] earlier[i]).0 == partition && earlier[i].1
                    >= bound;
            assert(positions[i] == earlier[i]);
        }
        if is_reached(positions, partition, bound) {
            let i = choose|i: int|
                0 <= i < positions.len() && (#[trigger] positions[i]).0 == partition
                    && positions[i].1 >= bound;
            if i < earlier.len() {
                assert(earlier[i] == positions[i]);
            }
        }
        let last = positions.len() - 1;
        assert(positions[last] == positions.last());
    }
}

/// A snapshot of a topic without messages is done before anything is read.
pub proof fn law_empty_topic_needs_no_reading(watermarks: Seq<Watermark>)
    requires
        forall|i: int| 0 <= i < watermarks.len() ==> (#[trigger] watermarks[i]).1 <= 0,
    ensures
        bounds_of(watermarks) == Map::<i32, i64>::empty(),
    decreases watermarks.len(),
{
    if watermarks.len() > 0 {
        let last = watermarks.len() - 1;
        assert(watermarks[last].1 <= 0);
        assert forall|i: int| 0 <= i < last implies (
        #[trigger] watermarks.drop_last()[i]).1 <= 0 by {
            assert(watermarks[i].1 <= 0);
        }
        law_empty_topic_needs_no_reading(watermarks.drop_last());
    }
}

/// A [`StringMessage`] that is published, and whose key and payload arrive as they were sent, is
/// received as it was, key included.
pub proof fn law_published_message_is_received(
    publisher: KafkaPublisher,
    sent: StringMessage,
    bytes: WireBytes,
    request: OutgoingRecord,
    arrived: IncomingRecord,
    received: StringMessage,
)
    requires
        sent.encoded_as(bytes),
        publisher.sends(bytes, request),
        view_opt(arrived.key) == view_opt(request.key),
        arrived.payload matches Some(payload) && payload@ == request.payload@,
        received.decoded_from(record_bytes(arrived)->0),
    ensures
        record_bytes(arrived) == Some(bytes),
        received@ == sent@,
{
    law_string_message_round_trip(sent, bytes, received);
}

/// The bounds that watermarks set, partition by partition.
proof fn lemma_bounds_by_partition(watermarks: Seq<Watermark>)
    ensures
        forall|partition: i32| #[trigger]
            bounds_of(watermarks).contains_key(partition) <==> exists|i: int|
                0 <= i < watermarks.len() && (#[trigger] watermarks[i]).0 == partition
                    && watermarks[i].1 > 0,
        forall|i: int|
            0 <= i < watermarks.len() && (#[trigger] watermarks[i]).1 > 0 && (forall|j: int|
                i < j < watermarks.len() && (#[trigger] watermarks[j]).0 == watermarks[i].0
                    ==> watermarks[j].1 <= 0) ==> bounds_of(watermarks)[watermarks[i].0]
                == watermarks[i].1 - 1,
    decreases watermarks.len(),
{
    if watermarks.len() > 0 {
        let front = watermarks.drop_last();
        let last = watermarks.len() - 1;
        let (partition, high) = watermarks.last();
        lemma_bounds_by_partition(front);
        assert(forall|i: int| 0 <= i < last ==> #[trigger] watermarks[i] == front[i]);
        assert(watermarks[last] == (partition, high));
        assert forall|other: i32| #[trigger]
            bounds_of(watermarks).contains_key(other) implies exists|i: int|
            0 <= i < watermarks.len() && (#[trigger] watermarks[i]).0 == other && watermarks[i].1
                > 0 by {
            if !(high > 0 && other == partition) {
                assert(bounds_of(front).contains_key(other));
                let i = choose|i: int|
                    0 <= i < front.len() && (#[trigger] front[i]).0 == other && front[i].1 > 0;
                assert(watermarks[i] == front[i]);
            }
        }
        assert forall|other: i32|
            (exists|i: int|
                0 <= i < watermarks.len() && (#[trigger] watermarks[i]).0 == other
                    && watermarks[i].1 > 0) implies #[trigger] bounds_of(watermarks).contains_key(
            other,
        ) by {
            let i = choose|i: int|
                0 <= i < watermarks.len() && (#[trigger] watermarks[i]).0 == other
                    && watermarks[i].1 > 0;
            if i < last {
                assert(front[i] == watermarks[i]);
                assert(bounds_of(front).contains_key(other));
            }
        }
        assert forall|i: int|
            0 <= i < watermarks.len() && (#[trigger] watermarks[i]).1 > 0 && (forall|j: int|
                i < j < watermarks.len() && (#[trigger] watermarks[j]).0 == watermarks[i].0
                    ==> watermarks[j].1 <= 0) implies bounds_of(watermarks)[watermarks[i].0]
            == watermarks[i].1 - 1 by {
            if i < last {
                assert(front[i] == watermarks[i]);
                assert(watermarks[last].0 == watermarks[i].0 ==> watermarks[last].1 <= 0);
                assert forall|j: int|
                    i < j < front.len() && (#[trigger] front[j]).0 == front[i].0 implies front[j].1
                    <= 0 by {
                    assert(watermarks[j] == front[j]);
                }
            }
        }
    }
}

/// A partition is bounded exactly if it has a high watermark above zero, and its bound is then the
/// offset just below that watermark; where watermarks above zero are given for one partition several
/// times, the last of them counts. Only missing metadata fails.
pub proof fn law_bounds_are_the_last_offsets(
    watermarks: Option<Vec<Watermark>>,
    bounds: Result<Bounds, KafkaError>,
)
    requires
        call_ensures(KafkaSnapshot::determine_max_offsets, (watermarks,), bounds),
    ensures
        bounds is Err <==> watermarks is None,
        bounds matches Ok(bounds) ==> {
            let highs = watermarks->0@;
            &&& forall|partition: i32| #[trigger]
                bounds@.contains_key(partition) <==> exists|i: int|
                    0 <= i < highs.len() && (#[trigger] highs[i]).0 == partition && highs[i].1 > 0
            &&& forall|i: int|
                0 <= i < highs.len() && (#[trigger] highs[i]).1 > 0 && (forall|j: int|
                    i < j < highs.len() && (#[trigger] highs[j]).0 == highs[i].0 ==> highs[j].1
                        <= 0) ==> bounds@[highs[i].0] == highs[i].1 - 1
        },
{
    if let Some(watermarks) = watermarks {
        lemma_bounds_by_partition(watermarks@);
    }
}

/// What a snapshot has left to read after records, and what it has read.
proof fn lemma_observed_records(
    runs: Seq<&mut SnapshotRun>,
    records: Seq<IncomingRecord>,
    observed: Seq<Result<(), PubSubError>>,
    n: int,
)
    requires
        runs.len() == records.len(),
        forall|i: int, j: int|
            0 <= i && j == i + 1 && j < runs.len() ==> *final(#[trigger] runs[i])
                == *#[trigger] runs[j],
        forall|i: int|
            0 <= i < runs.len() ==> call_ensures(
                SnapshotRun::observe,
                (#[trigger] runs[i], SnapshotEvent::Record(records[i])),
                observed[i],
            ),
        0 <= n < runs.len(),
    ensures
        final(runs[n]).pending() == bounds_after_all(
            runs[0].pending(),
            Seq::new((n + 1) as nat, |i: int| (records[i].partition, records[i].offset)),
        ),
        (forall|i: int| 0 <= i <= n ==> (#[trigger] records[i]).payload is Some) ==> {
            &&& final(runs[n]).read().len() == runs[0].read().len() + n + 1
            &&& forall|i: int|
                0 <= i < runs[0].read().len() ==> #[trigger] final(runs[n]).read()[i]
                    == runs[0].read()[i]
            &&& forall|i: int|
                0 <= i <= n ==> final(runs[n]).read()[runs[0].read().len() + i] == (WireBytes {
                    key: view_opt((#[trigger] records[i]).key),
                    value: records[i].payload->0@,
                })
        },
    decreases n,
{
    let positions = Seq::new((n + 1) as nat, |i: int| (records[i].partition, records[i].offset));
    assert(call_ensures(
        SnapshotRun::observe,
        (runs[n], SnapshotEvent::Record(records[n])),
        observed[n],
    ));
    let earlier = Seq::new(n as nat, |i: int| (records[i].partition, records[i].offset));
    assert(positions.drop_last() =~= earlier);
    assert(positions.last() == (records[n].partition, records[n].offset));
    if n > 0 {
        lemma_observed_records(runs, records, observed, n - 1);
        assert(*final(runs[n - 1]) == *runs[n]);
        assert(Seq::new((n - 1 + 1) as nat, |i: int| (records[i].partition, records[i].offset))
            =~= earlier);
    } else {
        assert(bounds_after_all(runs[0].pending(), earlier) == runs[0].pending());
    }
}

/// A snapshot reads every partition up to its end: with one watermark for each partition, a run over
/// the bounds that they set is done exactly once, of every partition with a high watermark above
/// zero, the record just below that watermark or a later one has been observed. Nothing else is
/// waited for.
#[verifier::rlimit(40)]
pub proof fn law_snapshot_reads_every_partition_to_its_end(
    watermarks: Vec<Watermark>,
    bounds: Bounds,
    start: SnapshotRun,
    runs: Seq<&mut SnapshotRun>,
    records: Seq<IncomingRecord>,
    observed: Seq<Result<(), PubSubError>>,
    end: SnapshotRun,
    done: bool,
)
    requires
        forall|i: int, j: int|
            0 <= i < j < watermarks@.len() ==> (#[trigger] watermarks@[i]).0 != (
            #[trigger] watermarks@[j]).0,
        call_ensures(KafkaSnapshot::determine_max_offsets, (Some(watermarks),), Ok(bounds)),
        call_ensures(SnapshotRun::new, (bounds,), start),
        runs.len() == records.len(),
        runs.len() > 0 ==> *runs[0] == start,
        forall|i: int, j: int|
            0 <= i && j == i + 1 && j < runs.len() ==> *final(#[trigger] runs[i])
                == *#[trigger] runs[j],
        forall|i: int|
            0 <= i < runs.len() ==> call_ensures(
                SnapshotRun::observe,
                (#[trigger] runs[i], SnapshotEvent::Record(records[i])),
                observed[i],
            ),
        runs.len() == 0 ==> end == start,
        runs.len() > 0 ==> end == *final(runs[runs.len() - 1]),
        call_ensures(SnapshotRun::is_done, (&end,), done),
    ensures
        done <==> forall|i: int|
            0 <= i < watermarks@.len() && (#[trigger] watermarks@[i]).1 > 0 ==> exists|k: int|
                0 <= k < records.len() && (#[trigger] records[k]).partition == watermarks@[i].0
                    && records[k].offset >= watermarks@[i].1 - 1,
{
    let highs = watermarks@;
    lemma_bounds_by_partition(highs);
    let positions = Seq::new(
        records.len(),
        |i: int| (records[i].partition, records[i].offset),
    );
    if runs.len() > 0 {
        lemma_observed_records(runs, records, observed, runs.len() - 1);
        assert(Seq::new(
            (runs.len() - 1 + 1) as nat,
            |i: int| (records[i].partition, records[i].offset),
        ) =~= positions);
    }
    assert(end.pending() == bounds_after_all(bounds@, positions));
    assert forall|i: int| 0 <= i < highs.len() && (#[trigger] highs[i]).1 > 0 implies (
    end.pending().contains_key(highs[i].0) <==> !exists|k: int|
        0 <= k < records.len() && (#[trigger] records[k]).partition == highs[i].0
            && records[k].offset >= highs[i].1 - 1) by {
        let partition = highs[i].0;
        assert(bounds@.contains_key(partition) && bounds@[partition] == highs[i].1 - 1);
        law_snapshot_reads_up_to_its_bounds(bounds@, positions, partition);
        if is_reached(positions, partition, bounds@[partition]) {
            let k = choose|k: int|
                0 <= k < positions.len() && (#[trigger] positions[k]).0 == partition
                    && positions[k].1 >= bounds@[partition];
            assert(records[k].partition == partition && records[k].offset >= highs[i].1 - 1);
        }
        if exists|k: int|
            0 <= k < records.len() && (#[trigger] records[k]).partition == partition
                && records[k].offset >= highs[i].1 - 1 {
            let k = choose|k: int|
                0 <= k < records.len() && (#[trigger] records[k]).partition == partition
                    && records[k].offset >= highs[i].1 - 1;
            assert(positions[k].0 == partition && positions[k].1 >= bounds@[partition]);
        }
    }
    if done {
        assert forall|i: int| 0 <= i < highs.len() && (#[trigger] highs[i]).1 > 0 implies exists|
            k: int,
        |
            0 <= k < records.len() && (#[trigger] records[k]).partition == highs[i].0
                && records[k].offset >= highs[i].1 - 1 by {
            assert(!end.pending().contains_key(highs[i].0));
        }
    } else {
        if forall|partition: i32| !end.pending().contains_key(partition) {
            assert(end.pending() =~= Map::<i32, i64>::empty());
        }
        let partition = choose|partition: i32| end.pending().contains_key(partition);
        law_snapshot_reads_up_to_its_bounds(bounds@, positions, partition);
        let i = choose|i: int|
            0 <= i < highs.len() && (#[trigger] highs[i]).0 == partition && highs[i].1 > 0;
        assert(end.pending().contains_key(highs[i].0));
    }
}

/// A snapshot keeps every record: where all the records have a payload, each is taken in, and what
/// has been read is one message for each record, in the order in which they arrived, with the key
/// and the payload of the record, whatever they are. That is also what the snapshot holds in the
/// end.
pub proof fn law_snapshot_keeps_every_record(
    bounds: Bounds,
    start: SnapshotRun,
    runs: Seq<&mut SnapshotRun>,
    records: Seq<IncomingRecord>,
    observed: Seq<Result<(), PubSubError>>,
    end: SnapshotRun,
    held: Option<Seq<WireBytes>>,
)
    requires
        call_ensures(SnapshotRun::new, (bounds,), start),
        runs.len() == records.len(),
        runs.len() > 0 ==> *runs[0] == start,
        forall|i: int, j: int|
            0 <= i && j == i + 1 && j < runs.len() ==> *final(#[trigger] runs[i])
                == *#[trigger] runs[j],
        forall|i: int|
            0 <= i < runs.len() ==> call_ensures(
                SnapshotRun::observe,
                (#[trigger] runs[i], SnapshotEvent::Record(records[i])),
                observed[i],
            ),
        runs.len() == 0 ==> end == start,
        runs.len() > 0 ==> end == *final(runs[runs.len() - 1]),
        forall|i: int| 0 <= i < records.len() ==> (#[trigger] records[i]).payload is Some,
        KafkaSnapshot::holds(end, held),
    ensures
        forall|i: int| 0 <= i < records.len() ==> (#[trigger] observed[i]) is Ok,
        held matches Some(held) && held.len() == records.len() && forall|i: int|
            0 <= i < held.len() ==> (#[trigger] held[i]).value == records[i].payload->0@
                && held[i].key == view_opt(records[i].key),
{
    if runs.len() > 0 {
        lemma_observed_records(runs, records, observed, runs.len() - 1);
        assert(runs[0].read().len() == 0);
        assert forall|i: int| 0 <= i < records.len() implies (#[trigger] held->0[i]).value
            == records[i].payload->0@ && held->0[i].key == view_opt(records[i].key) by {
            assert(records[i].payload is Some);
            assert(end.read()[runs[0].read().len() + i] == held->0[i]);
        }
    }
    assert forall|i: int| 0 <= i < records.len() implies (#[trigger] observed[i]) is Ok by {
        assert(records[i].payload is Some);
        assert(call_ensures(
            SnapshotRun::observe,
            (runs[i], SnapshotEvent::Record(records[i])),
            observed[i],
        ));
    }
}

/// Only records with a payload are taken in: a record without one, a failure, an early end and a
/// time-out each fail the snapshot and add nothing to what has been read.
pub proof fn law_snapshot_fails_on_anything_but_messages(
    run: &mut SnapshotRun,
    event: SnapshotEvent,
    observed: Result<(), PubSubError>,
)
    requires
        call_ensures(SnapshotRun::observe, (run, event), observed),
    ensures
        observed is Ok <==> (event matches SnapshotEvent::Record(record) && record.payload is Some),
        observed is Err ==> final(run).read() == old(run).read(),
        !(event is Record) ==> final(run).pending() == old(run).pending(),
        event matches SnapshotEvent::TimedOut(err) ==> observed == Err::<(), PubSubError>(err),
{
}

/// Whatever is published, with or without a key, goes to the configured topic on the configured
/// host, with the key and the payload that the message travels as.
pub proof fn law_record_goes_to_its_topic<M: Message>(
    host: String,
    topic: String,
    publisher: KafkaPublisher,
    connected: &str,
    message: M,
    request: OutgoingRecord,
)
    requires
        call_ensures(<KafkaPublisher as Publisher>::new, (host, topic), publisher),
        call_ensures(<KafkaPublisher as Publisher>::host, (&publisher,), connected),
        call_ensures(
            <KafkaPublisher as Publisher>::publish_request::<M>,
            (&publisher, message),
            request,
        ),
    ensures
        connected@ == host@,
        request.topic@ == topic@,
        exists|bytes: WireBytes|
            #[trigger] message.encoded_as(bytes) && request.payload@ == bytes.value && view_opt(
                request.key,
            ) == bytes.key,
{
    let bytes = choose|bytes: WireBytes|
        #[trigger] message.encoded_as(bytes) && publisher.sends(bytes, request);
    assert(message.encoded_as(bytes));
}

/// A text message is sent as its UTF-8 bytes, key and value, to the configured topic; and where a
/// record arrives with the key and the payload that were sent, it is converted into a message from
/// which the text message comes back as it was.
pub proof fn law_text_travels_through_its_topic(
    host: String,
    topic: String,
    publisher: KafkaPublisher,
    sent: StringMessage,
    request: OutgoingRecord,
    arrived: IncomingRecord,
    converted: Option<ByteMessage>,
    received: StringMessage,
)
    requires
        call_ensures(<KafkaPublisher as Publisher>::new, (host, topic), publisher),
        call_ensures(
            <KafkaPublisher as Publisher>::publish_request::<StringMessage>,
            (&publisher, sent),
            request,
        ),
        view_opt(arrived.key) == view_opt(request.key),
        arrived.payload matches Some(payload) && payload@ == request.payload@,
        call_ensures(runtime::convert_to_message, (&arrived,), converted),
        converted matches Some(carrier) ==> call_ensures(
            <StringMessage as From<ByteMessage>>::from,
            (carrier,),
            received,
        ),
    ensures
        request.topic@ == topic@,
        request.payload@ == encode_utf8(sent@.value),
        match sent@.key {
            Some(key) => request.key matches Some(bytes) && bytes@ == encode_utf8(key),
            None => request.key is None,
        },
        converted is Some,
        received@ == sent@,
{
    let bytes = choose|bytes: WireBytes|
        #[trigger] sent.encoded_as(bytes) && publisher.sends(bytes, request);
    assert(converted matches Some(carrier) && carrier@ == bytes);
    law_string_message_round_trip(sent, bytes, received);
}

/// The timeout of Kafka operations is what is configured, whatever it is, and one second where
/// nothing is.
pub proof fn law_timeout_is_what_is_configured(configured: Option<u64>, secs: u64)
    requires
        call_ensures(get_kafka_timeout_val, (configured,), secs),
    ensures
        configured matches Some(wanted) ==> secs == wanted,
        configured is None ==> secs == 1,
{
}

/// The short-lived consumer of a snapshot asks the given host from the oldest message on, in a
/// consumer group of its own.
pub proof fn law_snapshot_consumer_starts_at_the_oldest_message(host: &str, config: ClientConfig)
    requires
        call_ensures(KafkaSnapshot::configure_consumer, (host,), config),
    ensures
        forall|name: Seq<char>| #[trigger]
            config_settings(config).contains_key(name) <==> {
                ||| name == "bootstrap.servers"@
                ||| name == "group.id"@
                ||| name == "auto.offset.reset"@
            },
        config_settings(config).contains_key("bootstrap.servers"@)
            && config_settings(config)["bootstrap.servers"@] == host@,
        config_settings(config).contains_key("auto.offset.reset"@)
            && config_settings(config)["auto.offset.reset"@] == "earliest"@,
        config_settings(config).contains_key("group.id"@) && is_random_uuid(
            config_settings(config)["group.id"@],
        ),
{
    reveal_strlit("bootstrap.servers");
    reveal_strlit("group.id");
    reveal_strlit("auto.offset.reset");
    assert("bootstrap.servers"@.len() == 17 && "group.id"@.len() == 8);
    assert("bootstrap.servers"@[0] == 'b' && "auto.offset.reset"@[0] == 'a');
}

/// A subscriber is served by the runtime of its own host and topic among those of Kafka.
pub proof fn law_subscriber_streams_from_its_topic(
    host: String,
    topic: String,
    subscriber: KafkaSubscriber,
    key: CacheKey<'_>,
)
    requires
        call_ensures(<KafkaSubscriber as Subscriber>::new, (host, topic), subscriber),
        call_ensures(<KafkaSubscriber as Subscriber>::stream_key, (&subscriber,), key),
    ensures
        key@.host == host@,
        key@.topic == topic@,
        key@.source == Source::Kafka,
{
}

/// A snapshot that fails says why: missing metadata and an early end each by the error of the Kafka
/// client that stands for them, a failure of the client by that very failure, and a time-out by the
/// error it came with. Only a record without a payload has no cause to show.
pub proof fn law_snapshot_says_why_it_fails(
    bounds: Result<Bounds, KafkaError>,
    run: &mut SnapshotRun,
    event: SnapshotEvent,
    err: PubSubError,
    cause: Option<&str>,
)
    requires
        call_ensures(KafkaSnapshot::determine_max_offsets, (None,), bounds),
        call_ensures(SnapshotRun::observe, (run, event), Err(err)),
        call_ensures(PubSubError::cause_message, (&err,), cause),
    ensures
        bounds == Err::<Bounds, KafkaError>(failure_error(SnapshotFailure::MissingMetadata)),
        match event {
            SnapshotEvent::Record(record) => record.payload is None && cause is None,
            SnapshotEvent::Failed(failure) => cause is Some && err.captures(failure),
            SnapshotEvent::Ended => cause is Some && err.captures(
                failure_error(SnapshotFailure::StreamEnded),
            ),
            SnapshotEvent::TimedOut(given) => err == given,
        },
{
}

} // verus!
