//! Cache of Redis Stream subscriber runtimes by host and topic alone.
//!
//! Each `(host, topic)` pair reuses one background polling runtime. Idle runtimes are evicted after
//! a short grace period once they no longer have listeners. What a runtime is (`R`) is left to the
//! caller, as in the shared [`cache`](crate::cache).
use std::borrow::Cow;
use vstd::prelude::*;

use crate::cache::{
    cleaned_up, cow_text, evict_idle, may_serve, served, share_runtime, start_runtime, CachedRuntime,
    NANOS_PER_SEC,
};
use crate::keyed_map::{Key, KeyedMap};
use crate::text::same_text;

verus! {

/// Seconds between idle-runtime cleanup passes.
pub const REAPER_INTERVAL: u64 = 1;

/// Idle seconds after which an unused runtime is evicted.
pub const EVICT_AFTER_IDLE: u64 = 2;

/// Cache key identifying a shared Redis Stream runtime by host and topic.
///
/// Utilizes [`Cow`] fields so lookups only require borrowing a value, while inserting a new runtime
/// converts to owned data.
#[derive(Hash, PartialEq, Eq)]
pub struct ConsumerCacheKey<'a> {
    host: Cow<'a, str>,
    topic: Cow<'a, str>,
}

/// The model of a [`ConsumerCacheKey`].
pub struct ConsumerKeyModel {
    pub host: Seq<char>,
    pub topic: Seq<char>,
}

impl<'a> View for ConsumerCacheKey<'a> {
    type V = ConsumerKeyModel;

    closed spec fn view(&self) -> ConsumerKeyModel {
        ConsumerKeyModel { host: self.host@, topic: self.topic@ }
    }
}

impl<'a> ConsumerCacheKey<'a> {
    /// Whether the key borrows its texts.
    pub closed spec fn borrows(&self) -> bool {
        self.host is Borrowed && self.topic is Borrowed
    }

    /// Whether the key has texts of its own.
    pub closed spec fn owns(&self) -> bool {
        self.host is Owned && self.topic is Owned
    }

    /// Makes a key that borrows its texts.
    pub fn new(host: &'a str, topic: &'a str) -> (key: Self)
        ensures
            key@ == (ConsumerKeyModel { host: host@, topic: topic@ }),
            key.borrows(),
    {
        ConsumerCacheKey { host: Cow::Borrowed(host), topic: Cow::Borrowed(topic) }
    }

    /// Makes the same key with texts of its own.
    pub fn into_owned(self) -> (key: ConsumerCacheKey<'static>)
        ensures
            key@ == self@,
            key.owns(),
    {
        ConsumerCacheKey {
            host: Cow::Owned(cow_text(&self.host).to_string()),
            topic: Cow::Owned(cow_text(&self.topic).to_string()),
        }
    }
}

impl<'a> Key for ConsumerCacheKey<'a> {
    fn same(&self, other: &Self) -> (same: bool) {
        same_text(cow_text(&self.host), cow_text(&other.host)) && same_text(
            cow_text(&self.topic),
            cow_text(&other.topic),
        )
    }
}

/// Redis Stream runtimes by key.
pub type ConsumerCache<R> = KeyedMap<ConsumerCacheKey<'static>, CachedRuntime<R>>;

/// Returns the shared Redis Stream runtime for a host/topic pair, starting it on first use, and only
/// then.
pub fn get_redis_stream<'c, R, F: FnOnce(String, String) -> R>(
    cache: &'c mut ConsumerCache<R>,
    host: &str,
    topic: &str,
    start: F,
) -> (runtime: &'c R)
    requires
        may_serve(
            old(cache)@,
            ConsumerKeyModel { host: host@, topic: topic@ },
            host@,
            topic@,
            start,
        ),
    ensures
        served(
            old(cache)@,
            final(cache)@,
            ConsumerKeyModel { host: host@, topic: topic@ },
            host@,
            topic@,
            *runtime,
            start,
        ),
{
    let key = ConsumerCacheKey::new(host, topic);
    match cache.position(&key) {
        Some(slot) => share_runtime(cache, slot),
        None => start_runtime(cache, key.into_owned(), host, topic, start),
    }
}

/// Periodic cleanup: removes the runtimes that have had no listeners for [`EVICT_AFTER_IDLE`],
/// counted from the first pass that found none.
pub fn reap_unused_streams<R, C: Copy + Fn(&R) -> usize>(
    cache: &mut ConsumerCache<R>,
    now: u128,
    receiver_count: C,
)
    requires
        forall|runtime: &R| call_requires(receiver_count, (runtime,)),
    ensures
        cleaned_up(
            old(cache)@,
            final(cache)@,
            now,
            (EVICT_AFTER_IDLE * NANOS_PER_SEC) as u128,
            receiver_count,
        ),
{
    evict_idle(cache, now, EVICT_AFTER_IDLE as u128 * NANOS_PER_SEC, receiver_count)
}

/// Two requests of one cache, one after the other, get the same runtime if they name the same host
/// and the same topic. A request for which the cache has no runtime gets one that was started for
/// its own host and topic. A request for anything else leaves a runtime where it is.
pub proof fn law_stream_is_found_by_host_and_topic<
    R,
    F: FnOnce(String, String) -> R,
    G: FnOnce(String, String) -> R,
>(
    first_cache: &mut ConsumerCache<R>,
    host: &str,
    topic: &str,
    start: F,
    first: &R,
    second_cache: &mut ConsumerCache<R>,
    other_host: &str,
    other_topic: &str,
    other_start: G,
    second: &R,
)
    requires
        call_ensures(get_redis_stream::<R, F>, (first_cache, host, topic, start), first),
        *second_cache == *final(first_cache),
        call_ensures(
            get_redis_stream::<R, G>,
            (second_cache, other_host, other_topic, other_start),
            second,
        ),
    ensures
        host@ == other_host@ && topic@ == other_topic@ ==> *second == *first,
        !old(first_cache)@.contains_key(
            ConsumerKeyModel { host: host@, topic: topic@ },
        ) ==> exists|h: String, t: String|
            h@ == host@ && t@ == topic@ && #[trigger] call_ensures(start, (h, t), *first),
        old(first_cache)@.contains_key(ConsumerKeyModel { host: host@, topic: topic@ }) ==> *first
            == old(first_cache)@[ConsumerKeyModel { host: host@, topic: topic@ }].runtime,
        host@ != other_host@ || topic@ != other_topic@ ==> {
            &&& !old(first_cache)@.contains_key(
                ConsumerKeyModel { host: other_host@, topic: other_topic@ },
            ) ==> exists|h: String, t: String|
                h@ == other_host@ && t@ == other_topic@ && #[trigger] call_ensures(
                    other_start,
                    (h, t),
                    *second,
                )
            &&& final(second_cache)@.contains_key(ConsumerKeyModel { host: host@, topic: topic@ })
            &&& final(second_cache)@[ConsumerKeyModel { host: host@, topic: topic@ }].runtime
                == *first
        },
{
}

/// A runtime that has just been asked for and that passes find without listeners stays until a pass
/// comes two seconds or more after the first of them, and is let go by that one. A runtime at which
/// a pass finds a listener stays.
pub proof fn law_stream_is_let_go_after_two_idle_seconds<
    R,
    F: FnOnce(String, String) -> R,
    C: Copy + Fn(&R) -> usize,
>(
    asked: &mut ConsumerCache<R>,
    host: &str,
    topic: &str,
    start: F,
    runtime: &R,
    first: &mut ConsumerCache<R>,
    first_pass: u128,
    second: &mut ConsumerCache<R>,
    second_pass: u128,
    count: C,
    listeners: usize,
)
    requires
        call_ensures(get_redis_stream::<R, F>, (asked, host, topic, start), runtime),
        *first == *final(asked),
        call_ensures(reap_unused_streams::<R, C>, (first, first_pass, count), ()),
        *second == *final(first),
        call_ensures(reap_unused_streams::<R, C>, (second, second_pass, count), ()),
        forall|found: usize| #[trigger] call_ensures(count, (runtime,), found) ==> found
            == listeners,
    ensures
        final(second)@.contains_key(ConsumerKeyModel { host: host@, topic: topic@ }) <==> {
            listeners > 0 || second_pass - first_pass < 2_000_000_000
        },
        final(second)@.contains_key(ConsumerKeyModel { host: host@, topic: topic@ })
            ==> final(second)@[ConsumerKeyModel { host: host@, topic: topic@ }].runtime
            == *runtime,
{
    let key = ConsumerKeyModel { host: host@, topic: topic@ };
    assert(first@.contains_key(key));
    assert(second@.contains_key(key));
    assert(EVICT_AFTER_IDLE * NANOS_PER_SEC == 2_000_000_000);
}

/// Two keys are the same exactly if they were made of the same host and the same topic, also where
/// one has texts of its own.
pub proof fn law_keys_are_told_apart(
    host: &str,
    topic: &str,
    key: ConsumerCacheKey<'_>,
    owned: ConsumerCacheKey<'static>,
    other_host: &str,
    other_topic: &str,
    other: ConsumerCacheKey<'_>,
    same: bool,
)
    requires
        call_ensures(ConsumerCacheKey::new, (host, topic), key),
        call_ensures(ConsumerCacheKey::into_owned, (key,), owned),
        call_ensures(ConsumerCacheKey::new, (other_host, other_topic), other),
        call_ensures(<ConsumerCacheKey<'_> as Key>::same, (&owned, &other), same),
    ensures
        same <==> host@ == other_host@ && topic@ == other_topic@,
{
}

} // verus!
