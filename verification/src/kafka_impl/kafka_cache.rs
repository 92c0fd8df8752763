//! Shared Kafka producer cache.
//!
//! Producer instances are cached by bootstrap host so repeated publishes reuse an existing
//! connection rather than constructing a fresh producer every time. A background reaper removes
//! idle entries after a grace period. Moments are seconds on the caller's clock.
use rdkafka::error::KafkaError;
use rdkafka::producer::FutureProducer;
use rdkafka::ClientConfig;
use vstd::prelude::*;

use super::config::{config_settings, producer_config, producer_settings};
use crate::cache::EVICT_AFTER_IDLE;
use crate::error::PubSubError;
use crate::keyed_map::{lookup, KeyedMap};

verus! {

/// A handle on a Kafka producer, carried along unread.
///
/// The client's own handle, [`FutureProducer`], has type parameters bounded by the client's traits,
/// so it stays inside this struct.
#[verifier::external_body]
pub struct KafkaProducer {
    /// The client's own handle.
    pub producer: FutureProducer,
}

/// A producer, and when it was last asked for.
pub struct ProducerCacheEntry {
    /// The producer.
    pub producer: KafkaProducer,
    /// When it was last asked for, in seconds.
    pub last_used_epoch_secs: u64,
}

/// Kafka producers by bootstrap host.
pub type ProducerCache = KeyedMap<String, ProducerCacheEntry>;

/// The settings that a producer was created with.
pub uninterp spec fn made_with(producer: KafkaProducer) -> Map<Seq<char>, Seq<char>>;

/// Creates a producer.
///
/// Trusts [`ClientConfig::create`] to create it with the settings of the configuration. Whether it
/// succeeds is up to the Kafka client and the machine, so nothing is claimed of that.
#[verifier::external_body]
fn create_producer(config: &ClientConfig) -> (created: Result<KafkaProducer, KafkaError>)
    ensures
        created matches Ok(producer) ==> made_with(producer) == config_settings(*config),
{
    let producer: FutureProducer = config.create()?;
    Ok(KafkaProducer { producer })
}

/// Shares a producer. Trusts the `Clone` of [`FutureProducer`] to be another handle on the same
/// producer.
#[verifier::external_body]
fn share_producer(producer: &KafkaProducer) -> (shared: KafkaProducer)
    ensures
        shared == *producer,
{
    KafkaProducer { producer: producer.producer.clone() }
}

/// The cache in which a host has this producer, last asked for at `now`.
pub open spec fn with_producer(
    cache: Map<Seq<char>, ProducerCacheEntry>,
    host: Seq<char>,
    producer: KafkaProducer,
    now: u64,
) -> Map<Seq<char>, ProducerCacheEntry> {
    cache.insert(host, ProducerCacheEntry { producer, last_used_epoch_secs: now })
}

/// Whether creating a producer for a host may come to this.
pub closed spec fn creation(
    host: Seq<char>,
    created: Result<KafkaProducer, KafkaError>,
) -> bool {
    exists|config: ClientConfig|
        config_settings(config) == producer_settings(host) && #[trigger] call_ensures(
            create_producer,
            (&config,),
            created,
        )
}

/// Whether keeping what was created for a host gives `producer` and leaves `after`.
pub open spec fn stored(
    before: Map<Seq<char>, ProducerCacheEntry>,
    after: Map<Seq<char>, ProducerCacheEntry>,
    host: Seq<char>,
    now: u64,
    created: Result<KafkaProducer, KafkaError>,
    producer: Result<KafkaProducer, PubSubError>,
) -> bool {
    match (created, producer) {
        (Ok(fresh), Ok(producer)) => producer == fresh && after == with_producer(
            before,
            host,
            fresh,
            now,
        ),
        (Err(cause), Err(err)) => err.cause() is Some && err.captures(cause) && after == before,
        _ => false,
    }
}

/// Whether asking a cache for the producer of a host at `now` may be answered by `producer` and
/// leave `after`. A producer that is there is reused, and the cache notes that it was asked for; one
/// that is not is created with the settings for the host and kept, unless creating it fails, which
/// changes nothing.
pub open spec fn supplied(
    before: Map<Seq<char>, ProducerCacheEntry>,
    after: Map<Seq<char>, ProducerCacheEntry>,
    host: Seq<char>,
    now: u64,
    producer: Result<KafkaProducer, PubSubError>,
) -> bool {
    match lookup(before, host) {
        Some(entry) => producer == Ok::<KafkaProducer, PubSubError>(entry.producer) && after
            == with_producer(before, host, entry.producer, now),
        None => {
            &&& exists|created: Result<KafkaProducer, KafkaError>| #[trigger]
                creation(host, created) && stored(before, after, host, now, created, producer)
            &&& producer matches Ok(fresh) ==> made_with(fresh) == producer_settings(host)
        },
    }
}

/// Returns the cached producer for a host, if there is one, and notes that it was asked for.
pub fn cached_producer(
    cache: &mut ProducerCache,
    host: &str,
    now: u64,
) -> (producer: Option<KafkaProducer>)
    ensures
        match lookup(old(cache)@, host@) {
            Some(entry) => producer == Some(entry.producer) && final(cache)@ == with_producer(
                old(cache)@,
                host@,
                entry.producer,
                now,
            ),
            None => producer is None && final(cache)@ == old(cache)@,
        },
{
    let key = host.to_string();
    let producer = match cache.get(&key) {
        Some(entry) => share_producer(&entry.producer),
        None => {
            return None;
        },
    };
    let kept = share_producer(&producer);
    cache.insert(key, ProducerCacheEntry { producer: kept, last_used_epoch_secs: now });
    Some(producer)
}

/// Keeps a producer that was just created for a host, and returns it. One that could not be created
/// leaves the cache as it is.
pub fn store_producer(
    cache: &mut ProducerCache,
    host: &str,
    now: u64,
    created: Result<KafkaProducer, KafkaError>,
) -> (producer: Result<KafkaProducer, PubSubError>)
    ensures
        stored(old(cache)@, final(cache)@, host@, now, created, producer),
{
    match created {
        Ok(fresh) => {
            let kept = share_producer(&fresh);
            cache.insert(
                host.to_string(),
                ProducerCacheEntry { producer: kept, last_used_epoch_secs: now },
            );
            Ok(fresh)
        },
        Err(err) => Err(PubSubError::from(err)),
    }
}

/// Whether every producer was created for the host that has it.
pub open spec fn made_for_its_host(cache: Map<Seq<char>, ProducerCacheEntry>) -> bool {
    forall|host: Seq<char>| #[trigger]
        cache.contains_key(host) ==> made_with(cache[host].producer) == producer_settings(host)
}

/// Returns the cached Kafka producer for a bootstrap host, creating it on first use.
///
/// As long as every producer in the cache was created for the host that has it, so is the one that
/// is returned, and the cache stays that way.
pub fn get_kafka_producer(
    cache: &mut ProducerCache,
    host: &str,
    now: u64,
) -> (producer: Result<KafkaProducer, PubSubError>)
    ensures
        supplied(old(cache)@, final(cache)@, host@, now, producer),
        made_for_its_host(old(cache)@) ==> made_for_its_host(final(cache)@),
        made_for_its_host(old(cache)@) ==> (producer matches Ok(ready) ==> made_with(ready)
            == producer_settings(host@)),
{
    if let Some(producer) = cached_producer(cache, host, now) {
        return Ok(producer);
    }
    let config = producer_config(host);
    let created = create_producer(&config);
    assert(creation(host@, created));
    store_producer(cache, host, now, created)
}

/// Whether a producer last asked for at `last_used` is still wanted at `now`.
pub open spec fn is_recent(last_used: u64, now: u64) -> bool {
    now - last_used < EVICT_AFTER_IDLE
}

/// Whether a cleanup pass at `now` makes `after` of `before`.
pub open spec fn reaped(
    before: Map<Seq<char>, ProducerCacheEntry>,
    after: Map<Seq<char>, ProducerCacheEntry>,
    now: u64,
) -> bool {
    forall|host: Seq<char>| #[trigger]
        lookup(after, host) == match lookup(before, host) {
            Some(entry) if is_recent(entry.last_used_epoch_secs, now) => Some(entry),
            _ => None,
        }
}

/// Periodic cleanup: removes the producers that nobody has asked for within [`EVICT_AFTER_IDLE`].
pub fn reap_unused_producers(cache: &mut ProducerCache, now: u64)
    ensures
        reaped(old(cache)@, final(cache)@, now),
        made_for_its_host(old(cache)@) ==> made_for_its_host(final(cache)@),
{
    let keep = |entry: ProducerCacheEntry| -> (kept: Option<ProducerCacheEntry>)
        ensures
            kept == if is_recent(entry.last_used_epoch_secs, now) {
                Some(entry)
            } else {
                None
            },
        {
            if now.saturating_sub(entry.last_used_epoch_secs) < EVICT_AFTER_IDLE {
                Some(entry)
            } else {
                None
            }
        };
    let ghost before = cache@;
    cache.retain(keep);
    assert forall|host: Seq<char>| #[trigger] lookup(cache@, host) == match lookup(before, host) {
        Some(entry) if is_recent(entry.last_used_epoch_secs, now) => Some(entry),
        _ => None,
    } by {
        if before.contains_key(host) {
            assert(call_ensures(keep, (before[host],), lookup(cache@, host)));
        } else {
            assert(!cache@.contains_key(host));
        }
    }
    assert forall|host: Seq<char>| #[trigger] cache@.contains_key(host) implies before.contains_key(
        host,
    ) && cache@[host] == before[host] by {
        assert(lookup(cache@, host) is Some);
    }
}

/// Repeated requests for one host reuse one producer: once a request has been answered, the next one
/// is answered with the same producer, and no other host is affected.
pub proof fn law_producer_is_reused(
    before: Map<Seq<char>, ProducerCacheEntry>,
    between: Map<Seq<char>, ProducerCacheEntry>,
    after: Map<Seq<char>, ProducerCacheEntry>,
    host: Seq<char>,
    first_asked: u64,
    second_asked: u64,
    first: KafkaProducer,
    second: Result<KafkaProducer, PubSubError>,
    other: Seq<char>,
)
    requires
        supplied(before, between, host, first_asked, Ok(first)),
        supplied(between, after, host, second_asked, second),
    ensures
        second == Ok::<KafkaProducer, PubSubError>(first),
        after.dom() == between.dom(),
        other != host ==> lookup(after, other) == lookup(before, other),
{
    assert(after.dom() =~= between.dom());
}

/// A request that fails leaves nothing behind, so the next one for the host tries again.
pub proof fn law_failed_request_is_tried_again(
    before: Map<Seq<char>, ProducerCacheEntry>,
    after: Map<Seq<char>, ProducerCacheEntry>,
    host: Seq<char>,
    now: u64,
    err: PubSubError,
)
    requires
        supplied(before, after, host, now, Err(err)),
    ensures
        after == before,
        !after.contains_key(host),
{
}

/// What can happen to a producer cache: someone asks for a producer and gets an answer, or a cleanup
/// pass is made.
pub enum ProducerStep {
    Asked { at: u64, host: Seq<char>, answer: Result<KafkaProducer, PubSubError> },
    Passed { at: u64 },
}

impl ProducerStep {
    /// When the step happens.
    pub open spec fn moment(self) -> u64 {
        match self {
            ProducerStep::Asked { at, .. } => at,
            ProducerStep::Passed { at } => at,
        }
    }

    /// Whether the step makes `after` of `before`.
    pub open spec fn leads(
        self,
        before: Map<Seq<char>, ProducerCacheEntry>,
        after: Map<Seq<char>, ProducerCacheEntry>,
    ) -> bool {
        match self {
            ProducerStep::Asked { at, host, answer } => supplied(before, after, host, at, answer),
            ProducerStep::Passed { at } => reaped(before, after, at),
        }
    }

    /// Whether the step answers a request for a host with a producer.
    pub open spec fn supplies(self, host: Seq<char>) -> bool {
        match self {
            ProducerStep::Asked { host: asked, answer, .. } => asked == host && answer is Ok,
            ProducerStep::Passed { .. } => false,
        }
    }
}

/// Whether the steps, in the order of their moments, lead from each of these states to the next.
pub open spec fn producer_history(
    states: Seq<Map<Seq<char>, ProducerCacheEntry>>,
    steps: Seq<ProducerStep>,
) -> bool {
    &&& states.len() == steps.len() + 1
    &&& forall|i: int|
        0 <= i < steps.len() ==> (#[trigger] steps[i]).leads(states[i], states[i + 1])
    &&& forall|i: int, j: int|
        0 <= i <= j < steps.len() ==> (#[trigger] steps[i]).moment() <= (
        #[trigger] steps[j]).moment()
}

/// A producer was last used when it was last supplied.
proof fn lemma_last_supplied(
    states: Seq<Map<Seq<char>, ProducerCacheEntry>>,
    steps: Seq<ProducerStep>,
    host: Seq<char>,
    first: int,
    now: int,
) -> (last: int)
    requires
        producer_history(states, steps),
        0 <= first < now < states.len(),
        steps[first].supplies(host),
        states[now].contains_key(host),
    ensures
        first <= last < now,
        steps[last].supplies(host),
        states[now][host].last_used_epoch_secs == steps[last].moment(),
        forall|i: int| last < i < now ==> !(#[trigger] steps[i]).supplies(host),
    decreases now,
{
    let step = steps[now - 1];
    let before = states[now - 1];
    let after = states[now];
    assert(step.leads(before, after));
    if step.supplies(host) {
        now - 1
    } else {
        assert(lookup(after, host) == lookup(before, host)) by {
            assert(lookup(after, host) is Some);
        }
        lemma_last_supplied(states, steps, host, first, now - 1)
    }
}

/// A producer that is asked for again within the grace period is never let go: as long as every pass
/// comes within [`EVICT_AFTER_IDLE`] of a request for the host, the host keeps its producer.
pub proof fn law_wanted_producer_stays(
    states: Seq<Map<Seq<char>, ProducerCacheEntry>>,
    steps: Seq<ProducerStep>,
    host: Seq<char>,
    first: int,
    now: int,
)
    requires
        producer_history(states, steps),
        0 <= first < now < states.len(),
        steps[first].supplies(host),
        forall|pass: int|
            first < pass < now && (#[trigger] steps[pass]) is Passed ==> exists|request: int|
                first <= request < pass && (#[trigger] steps[request]).supplies(host)
                    && steps[pass].moment() - steps[request].moment() < EVICT_AFTER_IDLE,
    ensures
        states[now].contains_key(host),
        states[now][host].producer == states[first + 1][host].producer,
    decreases now,
{
    let step = steps[now - 1];
    let before = states[now - 1];
    let after = states[now];
    assert(step.leads(before, after));
    if now - 1 > first {
        law_wanted_producer_stays(states, steps, host, first, now - 1);
        if step is Passed {
            let last = lemma_last_supplied(states, steps, host, first, now - 1);
            let request = choose|request: int|
                first <= request < now - 1 && (#[trigger] steps[request]).supplies(host)
                    && step.moment() - steps[request].moment() < EVICT_AFTER_IDLE;
            assert(request <= last);
            assert(steps[request].moment() <= steps[last].moment());
            assert(lookup(after, host) == Some(before[host]));
        }
    }
}

/// A producer that nobody asks for any more is let go by the first pass that comes
/// [`EVICT_AFTER_IDLE`] after it was last supplied, or later.
pub proof fn law_unwanted_producer_is_let_go(
    states: Seq<Map<Seq<char>, ProducerCacheEntry>>,
    steps: Seq<ProducerStep>,
    host: Seq<char>,
    last: int,
    pass: int,
)
    requires
        producer_history(states, steps),
        0 <= last < pass < steps.len(),
        steps[last].supplies(host),
        forall|i: int| last < i < pass ==> !(#[trigger] steps[i]).supplies(host),
        steps[pass] is Passed,
        steps[pass].moment() - steps[last].moment() >= EVICT_AFTER_IDLE,
    ensures
        !states[pass + 1].contains_key(host),
{
    assert(steps[pass].leads(states[pass], states[pass + 1]));
    if states[pass].contains_key(host) {
        let used = lemma_last_supplied(states, steps, host, last, pass);
        assert(used == last);
    }
    assert(lookup(states[pass + 1], host) is None);
}

/// A producer that is created for a host is configured with that host as its bootstrap host and with
/// nothing else, and the next request for the host gets the same producer, whenever it comes.
pub proof fn law_created_producer_is_for_its_host(
    cache: &mut ProducerCache,
    host: &str,
    now: u64,
    producer: KafkaProducer,
    next: &mut ProducerCache,
    later: u64,
    reused: Result<KafkaProducer, PubSubError>,
)
    requires
        call_ensures(get_kafka_producer, (cache, host, now), Ok(producer)),
        *next == *final(cache),
        call_ensures(get_kafka_producer, (next, host, later), reused),
    ensures
        !old(cache)@.contains_key(host@) ==> {
            &&& forall|name: Seq<char>| #[trigger]
                made_with(producer).contains_key(name) <==> name == "bootstrap.servers"@
            &&& made_with(producer)["bootstrap.servers"@] == host@
        },
        reused == Ok::<KafkaProducer, PubSubError>(producer),
        final(next)@[host@].last_used_epoch_secs == later,
{
}

/// A producer that was asked for at some moment and not since is kept by a pass exactly if that comes
/// less than a minute later, and what is kept is unchanged.
pub proof fn law_producer_is_let_go_after_an_idle_minute(
    cache: &mut ProducerCache,
    host: &str,
    now: u64,
    producer: KafkaProducer,
    next: &mut ProducerCache,
    pass: u64,
    last: &mut ProducerCache,
    later: u64,
    found: Option<KafkaProducer>,
)
    requires
        call_ensures(get_kafka_producer, (cache, host, now), Ok(producer)),
        *next == *final(cache),
        call_ensures(reap_unused_producers, (next, pass), ()),
        *last == *final(next),
        call_ensures(cached_producer, (last, host, later), found),
    ensures
        found is Some <==> pass - now < 60,
        found is Some ==> found == Some(producer),
{
    assert(lookup(next@, host@) is Some);
    assert(lookup(last@, host@) == lookup(final(next)@, host@));
}

/// A producer that was stored for a host is found for that host and no other; a failure to create
/// one is passed on and stores nothing.
pub proof fn law_stored_producer_is_found(
    cache: &mut ProducerCache,
    host: &str,
    now: u64,
    created: Result<KafkaProducer, KafkaError>,
    stored: Result<KafkaProducer, PubSubError>,
    next: &mut ProducerCache,
    asked: &str,
    later: u64,
    found: Option<KafkaProducer>,
)
    requires
        call_ensures(store_producer, (cache, host, now, created), stored),
        *next == *final(cache),
        call_ensures(cached_producer, (next, asked, later), found),
    ensures
        created is Ok <==> stored is Ok,
        created matches Ok(producer) ==> stored == Ok::<KafkaProducer, PubSubError>(producer) && (
        asked@ == host@ ==> found == Some(producer)),
        created is Err || asked@ != host@ ==> {
            &&& found is Some <==> old(cache)@.contains_key(asked@)
            &&& found is Some ==> found == Some(old(cache)@[asked@].producer)
        },
{
}

} // verus!
