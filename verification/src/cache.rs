//! Shared cache for subscriber runtimes across all streaming backends.
//!
//! Each `(host, topic)` pair of a backend reuses one background streaming runtime within the
//! process. Idle runtimes are evicted after a grace period once they no longer have active
//! listeners.
//!
//! This module is backend-agnostic: it is used by the Kafka, Redis pub/sub and Redis Stream
//! subscribers. What a runtime is (`R`) is left to the caller, who starts it and who knows how many
//! listeners it has; moments are nanoseconds on the caller's clock.
use std::borrow::Cow;
use vstd::prelude::*;

use crate::keyed_map::{lookup, Key, KeyedMap};
use crate::message::{ByteMessage, Message, StringMessage};
use crate::text::{same_text, utf8_lossy};

verus! {

/// Seconds between idle-runtime cleanup passes.
pub const REAPER_INTERVAL: u64 = 10;

/// Idle seconds after which an unused runtime is evicted.
pub const EVICT_AFTER_IDLE: u64 = 60;

/// Default capacity for the message channels of each runtime.
///
/// A subscriber that falls behind by more than this many messages is lagged, and the oldest unread
/// messages are dropped.
pub const DEFAULT_CHANNEL_CAPACITY: usize = 100;

/// Nanoseconds in a second.
pub const NANOS_PER_SEC: u128 = 1_000_000_000;

/// The backend that a runtime streams from.
#[derive(Clone, Copy, Debug, Hash, PartialEq, Eq, Structural)]
pub enum Source {
    Kafka,
    RedisPubSub,
    RedisStream,
}

/// The text of a [`Cow`].
pub(crate) fn cow_text<'c>(cow: &'c Cow<'_, str>) -> (text: &'c str)
    ensures
        text@ == cow@,
{
    match cow {
        Cow::Borrowed(borrowed) => borrowed,
        Cow::Owned(owned) => owned.as_str(),
    }
}

/// Cache key identifying a shared streaming runtime by host, topic and backend.
///
/// Uses [`Cow`] fields so lookups only require borrowing, while inserting a new entry converts to
/// owned data via [`CacheKey::into_owned`].
#[derive(Hash, PartialEq, Eq)]
pub struct CacheKey<'a> {
    host: Cow<'a, str>,
    topic: Cow<'a, str>,
    source: Source,
}

/// The model of a [`CacheKey`].
pub struct CacheKeyModel {
    pub host: Seq<char>,
    pub topic: Seq<char>,
    pub source: Source,
}

impl<'a> View for CacheKey<'a> {
    type V = CacheKeyModel;

    closed spec fn view(&self) -> CacheKeyModel {
        CacheKeyModel { host: self.host@, topic: self.topic@, source: self.source }
    }
}

impl<'a> CacheKey<'a> {
    /// Whether the key borrows its texts.
    pub closed spec fn borrows(&self) -> bool {
        self.host is Borrowed && self.topic is Borrowed
    }

    /// Whether the key has texts of its own.
    pub closed spec fn owns(&self) -> bool {
        self.host is Owned && self.topic is Owned
    }

    /// Makes a key that borrows its texts.
    pub fn new(host: &'a str, topic: &'a str, source: Source) -> (key: Self)
        ensures
            key@ == (CacheKeyModel { host: host@, topic: topic@, source }),
            key.borrows(),
    {
        CacheKey { host: Cow::Borrowed(host), topic: Cow::Borrowed(topic), source }
    }

    /// Returns the host.
    pub fn host(&self) -> (host: &str)
        ensures
            host@ == self@.host,
    {
        cow_text(&self.host)
    }

    /// Returns the topic.
    pub fn topic(&self) -> (topic: &str)
        ensures
            topic@ == self@.topic,
    {
        cow_text(&self.topic)
    }

    /// Returns the backend.
    pub fn source(&self) -> (source: Source)
        ensures
            source == self@.source,
    {
        self.source
    }

    /// Makes the same key with texts of its own.
    pub fn into_owned(self) -> (key: CacheKey<'static>)
        ensures
            key@ == self@,
            key.owns(),
    {
        CacheKey {
            host: Cow::Owned(cow_text(&self.host).to_string()),
            topic: Cow::Owned(cow_text(&self.topic).to_string()),
            source: self.source,
        }
    }
}

impl<'a> Key for CacheKey<'a> {
    fn same(&self, other: &Self) -> (same: bool) {
        self.source == other.source && same_text(cow_text(&self.host), cow_text(&other.host))
            && same_text(cow_text(&self.topic), cow_text(&other.topic))
    }
}

/// A runtime, and since when it has been idle.
pub struct CachedRuntime<R> {
    /// The runtime.
    pub runtime: R,
    /// The first cleanup pass that found the runtime without listeners, if neither a listener was
    /// found nor the runtime asked for since.
    pub idle_since: Option<u128>,
}

/// Runtimes by key.
pub type RuntimeCache<R> = KeyedMap<CacheKey<'static>, CachedRuntime<R>>;

/// What a cleanup pass makes of a runtime: one with listeners is not idle, one found without
/// listeners is idle from then on, and one that has been idle for `limit` is let go.
pub open spec fn after_cleanup<R>(
    entry: CachedRuntime<R>,
    listeners: usize,
    now: u128,
    limit: u128,
) -> Option<CachedRuntime<R>> {
    if listeners > 0 {
        Some(CachedRuntime { runtime: entry.runtime, idle_since: None })
    } else {
        match entry.idle_since {
            None => Some(CachedRuntime { runtime: entry.runtime, idle_since: Some(now) }),
            Some(since) => if now - since < limit {
                Some(entry)
            } else {
                None
            },
        }
    }
}

/// Whether a cleanup pass that finds these listeners makes `after` of `before`.
pub open spec fn cleanup_pass<K, R>(
    before: Map<K, CachedRuntime<R>>,
    after: Map<K, CachedRuntime<R>>,
    now: u128,
    limit: u128,
    listeners: Map<K, usize>,
) -> bool {
    &&& forall|key: K| #[trigger] after.contains_key(key) ==> before.contains_key(key)
    &&& forall|key: K| #[trigger]
        before.contains_key(key) ==> lookup(after, key) == after_cleanup(
            before[key],
            listeners[key],
            now,
            limit,
        )
}

/// Whether these are listeners that `count` finds at the runtimes of `cache`.
pub open spec fn counted<K, R, C: Copy + Fn(&R) -> usize>(
    cache: Map<K, CachedRuntime<R>>,
    count: C,
    listeners: Map<K, usize>,
) -> bool {
    forall|key: K| #[trigger]
        cache.contains_key(key) ==> call_ensures(count, (&cache[key].runtime,), listeners[key])
}

/// Whether a cleanup pass that counts listeners by `count` may make `after` of `before`.
pub open spec fn cleaned_up<K, R, C: Copy + Fn(&R) -> usize>(
    before: Map<K, CachedRuntime<R>>,
    after: Map<K, CachedRuntime<R>>,
    now: u128,
    limit: u128,
    count: C,
) -> bool {
    exists|listeners: Map<K, usize>|
        {
            &&& counted(before, count, listeners)
            &&& #[trigger] cleanup_pass(before, after, now, limit, listeners)
        }
}

/// Whether `count` may find so many listeners at a runtime of which the pass makes `after`.
spec fn counted_to<R, C: Copy + Fn(&R) -> usize>(
    entry: CachedRuntime<R>,
    after: Option<CachedRuntime<R>>,
    listeners: usize,
    now: u128,
    limit: u128,
    count: C,
) -> bool {
    &&& call_ensures(count, (&entry.runtime,), listeners)
    &&& after == after_cleanup(entry, listeners, now, limit)
}

/// Removes the runtimes without listeners that have been idle for `limit`.
pub(crate) fn evict_idle<K: Key, R, C: Copy + Fn(&R) -> usize>(
    cache: &mut KeyedMap<K, CachedRuntime<R>>,
    now: u128,
    limit: u128,
    count: C,
)
    requires
        forall|runtime: &R| call_requires(count, (runtime,)),
    ensures
        cleaned_up(old(cache)@, final(cache)@, now, limit, count),
{
    let keep = |entry: CachedRuntime<R>| -> (kept: Option<CachedRuntime<R>>)
        ensures
            exists|listeners: usize| #[trigger]
                counted_to(entry, kept, listeners, now, limit, count),
        {
            let listeners: usize = count(&entry.runtime);
            let kept = if listeners > 0 {
                Some(CachedRuntime { runtime: entry.runtime, idle_since: None })
            } else {
                match entry.idle_since {
                    None => Some(CachedRuntime { runtime: entry.runtime, idle_since: Some(now) }),
                    Some(since) => if now < since || now - since < limit {
                        Some(entry)
                    } else {
                        None
                    },
                }
            };
            assert(counted_to(entry, kept, listeners, now, limit, count));
            kept
        };
    cache.retain(keep);
    proof {
        let before = old(cache)@;
        let after = cache@;
        let listeners = Map::new(
            |key: K::V| true,
            |key: K::V|
                choose|listeners: usize| #[trigger]
                    counted_to(before[key], lookup(after, key), listeners, now, limit, count),
        );
        assert forall|key: K::V| #[trigger] before.contains_key(key) implies counted_to(
            before[key],
            lookup(after, key),
            listeners[key],
            now,
            limit,
            count,
        ) by {
            assert(call_ensures(keep, (before[key],), lookup(after, key)));
        }
        assert(cleanup_pass(before, after, now, limit, listeners));
    }
}

/// Periodic cleanup of the shared cache: removes the runtimes that have had no active listeners for
/// [`EVICT_AFTER_IDLE`], counted from the first pass that found none.
pub fn reap_unused_streams<R, C: Copy + Fn(&R) -> usize>(
    cache: &mut RuntimeCache<R>,
    now: u128,
    receiver_count: C,
)
    requires
        forall|runtime: &R| call_requires(receiver_count, (runtime,)),
    ensures
        cleaned_up(
            old(cache)@,
            final(cache)@,
            now,
            (EVICT_AFTER_IDLE * NANOS_PER_SEC) as u128,
            receiver_count,
        ),
{
    evict_idle(cache, now, EVICT_AFTER_IDLE as u128 * NANOS_PER_SEC, receiver_count)
}

/// A cache with a runtime that is wanted, so not idle.
pub open spec fn with_runtime<K, R>(
    cache: Map<K, CachedRuntime<R>>,
    key: K,
    runtime: R,
) -> Map<K, CachedRuntime<R>> {
    cache.insert(key, CachedRuntime { runtime, idle_since: None })
}

/// Whether asking a cache for the runtime of `key` may give `runtime` and leave `after`: a runtime
/// that is there is shared, and one that is not is started by `stream_task` for the key's host and
/// topic. Either way the runtime is not idle.
pub open spec fn served<K, R, F: FnOnce(String, String) -> R>(
    before: Map<K, CachedRuntime<R>>,
    after: Map<K, CachedRuntime<R>>,
    key: K,
    host: Seq<char>,
    topic: Seq<char>,
    runtime: R,
    stream_task: F,
) -> bool {
    &&& after == with_runtime(before, key, runtime)
    &&& if before.contains_key(key) {
        runtime == before[key].runtime
    } else {
        exists|h: String, t: String|
            h@ == host && t@ == topic && #[trigger] call_ensures(stream_task, (h, t), runtime)
    }
}

/// Whether `stream_task` may be called to serve a request for `key`: it may where the cache does not
/// have the key, and then for this host and topic alone. A request that finds the key asks nothing of
/// the task, so it may be one that must never be called.
pub open spec fn may_serve<K, R, F: FnOnce(String, String) -> R>(
    cache: Map<K, CachedRuntime<R>>,
    key: K,
    host: Seq<char>,
    topic: Seq<char>,
    stream_task: F,
) -> bool {
    !cache.contains_key(key) ==> forall|h: String, t: String|
        h@ == host && t@ == topic ==> call_requires(stream_task, (h, t))
}

/// Starts a runtime for a key that the cache does not have, and returns it.
pub(crate) fn start_runtime<'c, K: Key, R, F: FnOnce(String, String) -> R>(
    cache: &'c mut KeyedMap<K, CachedRuntime<R>>,
    key: K,
    host: &str,
    topic: &str,
    stream_task: F,
) -> (runtime: &'c R)
    requires
        !old(cache)@.contains_key(key@),
        forall|h: String, t: String|
            h@ == host@ && t@ == topic@ ==> call_requires(stream_task, (h, t)),
    ensures
        served(old(cache)@, final(cache)@, key@, host@, topic@, *runtime, stream_task),
{
    let runtime = stream_task(host.to_string(), topic.to_string());
    let slot = cache.insert(key, CachedRuntime { runtime, idle_since: None });
    &cache.value_at(slot).runtime
}

/// Returns the runtime in a slot of the cache, which is not idle from then on.
pub(crate) fn share_runtime<'c, K: Key, R>(
    cache: &'c mut KeyedMap<K, CachedRuntime<R>>,
    slot: usize,
) -> (runtime: &'c R)
    requires
        old(cache).key_at(slot) is Some,
    ensures
        ({
            let key = old(cache).key_at(slot)->0;
            &&& *runtime == old(cache)@[key].runtime
            &&& final(cache)@ == with_runtime(old(cache)@, key, *runtime)
        }),
{
    let wake = |entry: CachedRuntime<R>| -> (woken: CachedRuntime<R>)
        ensures
            woken == (CachedRuntime { runtime: entry.runtime, idle_since: None }),
        {
            CachedRuntime { runtime: entry.runtime, idle_since: None }
        };
    cache.update_at(slot, wake);
    &cache.value_at(slot).runtime
}

/// Returns the shared runtime for a host/topic pair, starting it on first use, and only then.
pub fn get_stream<'c, R, F: FnOnce(String, String) -> R>(
    cache: &'c mut RuntimeCache<R>,
    host: &str,
    topic: &str,
    source: Source,
    stream_task: F,
) -> (runtime: &'c R)
    requires
        may_serve(
            old(cache)@,
            CacheKeyModel { host: host@, topic: topic@, source },
            host@,
            topic@,
            stream_task,
        ),
    ensures
        served(
            old(cache)@,
            final(cache)@,
            CacheKeyModel { host: host@, topic: topic@, source },
            host@,
            topic@,
            *runtime,
            stream_task,
        ),
{
    let key = CacheKey::new(host, topic, source);
    match cache.position(&key) {
        Some(slot) => share_runtime(cache, slot),
        None => start_runtime(cache, key.into_owned(), host, topic, stream_task),
    }
}

/// Makes a typed message of what arrives from a runtime's fan-out channel. Where the receiver has
/// lagged, there is no message.
pub fn typed_message<M: Message, L>(incoming: Result<ByteMessage, L>) -> (message: Option<M>)
    ensures
        match incoming {
            Ok(bytes) => message matches Some(typed) && call_ensures(
                <M as From<ByteMessage>>::from,
                (bytes,),
                typed,
            ),
            Err(_) => message is None,
        },
{
    match incoming {
        Ok(bytes) => Some(M::from(bytes)),
        Err(_) => None,
    }
}

/// What the task that evicts idle entries is told.
#[derive(Clone, Copy, Debug, PartialEq, Eq, Structural)]
pub enum ReaperEvent {
    /// It starts.
    Started,
    /// It has slept.
    Slept,
    /// It has made a cleanup pass.
    Passed,
}

/// What the task that evicts idle entries does next.
#[derive(Clone, Copy, Debug, PartialEq, Eq, Structural)]
pub enum ReaperAction {
    /// Sleep this many seconds.
    Sleep { secs: u64 },
    /// Make a cleanup pass.
    Pass,
}

/// What the task that evicts idle entries does when it is told this.
pub open spec fn reaper_action(event: ReaperEvent, interval: u64) -> ReaperAction {
    match event {
        ReaperEvent::Slept => ReaperAction::Pass,
        _ => ReaperAction::Sleep { secs: interval },
    }
}

/// Decides what the task that evicts idle entries does next. It never ends.
pub fn next_reaper_action(event: ReaperEvent, interval: u64) -> (action: ReaperAction)
    ensures
        action == reaper_action(event, interval),
{
    match event {
        ReaperEvent::Slept => ReaperAction::Pass,
        _ => ReaperAction::Sleep { secs: interval },
    }
}

/// What is told after an action is done.
pub open spec fn reaper_event(action: ReaperAction) -> ReaperEvent {
    match action {
        ReaperAction::Sleep { .. } => ReaperEvent::Slept,
        ReaperAction::Pass => ReaperEvent::Passed,
    }
}

/// The `n`th action of the task that evicts idle entries.
pub open spec fn nth_reaper_action(n: nat, interval: u64) -> ReaperAction
    decreases n,
{
    if n == 0 {
        reaper_action(ReaperEvent::Started, interval)
    } else {
        reaper_action(reaper_event(nth_reaper_action((n - 1) as nat, interval)), interval)
    }
}

/// The seconds that the task has slept in its first `n` actions.
pub open spec fn slept_before(n: nat, interval: u64) -> nat
    decreases n,
{
    if n == 0 {
        0
    } else {
        slept_before((n - 1) as nat, interval) + match nth_reaper_action((n - 1) as nat, interval) {
            ReaperAction::Sleep { secs } => secs as nat,
            ReaperAction::Pass => 0,
        }
    }
}

/// Cleanup passes go on forever, one interval of sleep apart: every second action is a pass, and the
/// `n`th pass, counted from zero, comes after `n + 1` intervals.
pub proof fn law_passes_come_one_interval_apart(n: nat, interval: u64)
    ensures
        nth_reaper_action(2 * n, interval) == (ReaperAction::Sleep { secs: interval }),
        nth_reaper_action(2 * n + 1, interval) == ReaperAction::Pass,
        slept_before(2 * n + 1, interval) == (n + 1) * interval,
    decreases n,
{
    reveal_with_fuel(nth_reaper_action, 3);
    reveal_with_fuel(slept_before, 3);
    if n > 0 {
        let before = (n - 1) as nat;
        law_passes_come_one_interval_apart(before, interval);
        assert(2 * before + 1 == 2 * n - 1);
        assert((n + 1) * interval == n * interval + interval) by (nonlinear_arith);
    } else {
        assert((n + 1) * interval == interval) by (nonlinear_arith)
            requires
                n == 0,
        ;
    }
}

/// Everyone who asks for the same key shares one runtime: once a request has been served, the next one
/// may come with a task that must never be called, so it starts nothing; it gets the same runtime and
/// leaves the cache as it is.
pub proof fn law_runtime_is_shared<K, R, F: FnOnce(String, String) -> R, G: FnOnce(
    String,
    String,
) -> R>(
    before: Map<K, CachedRuntime<R>>,
    between: Map<K, CachedRuntime<R>>,
    after: Map<K, CachedRuntime<R>>,
    key: K,
    host: Seq<char>,
    topic: Seq<char>,
    first: R,
    second: R,
    first_task: F,
    second_task: G,
)
    requires
        served(before, between, key, host, topic, first, first_task),
        served(between, after, key, host, topic, second, second_task),
    ensures
        forall|never_called: G| #[trigger] may_serve(between, key, host, topic, never_called),
        second == first,
        after == between,
{
    assert(after =~= between);
}

/// Asking for one key changes nothing about any other.
pub proof fn law_other_runtimes_stay<K, R, F: FnOnce(String, String) -> R>(
    before: Map<K, CachedRuntime<R>>,
    after: Map<K, CachedRuntime<R>>,
    key: K,
    host: Seq<char>,
    topic: Seq<char>,
    runtime: R,
    stream_task: F,
    other: K,
)
    requires
        served(before, after, key, host, topic, runtime, stream_task),
        other != key,
    ensures
        lookup(after, other) == lookup(before, other),
{
}

/// A runtime with listeners survives every cleanup pass, and is not idle after it.
pub proof fn law_runtime_with_listeners_survives<K, R, C: Copy + Fn(&R) -> usize>(
    before: Map<K, CachedRuntime<R>>,
    after: Map<K, CachedRuntime<R>>,
    now: u128,
    limit: u128,
    count: C,
    key: K,
)
    requires
        cleaned_up(before, after, now, limit, count),
        before.contains_key(key),
        forall|listeners: usize| #[trigger]
            call_ensures(count, (&before[key].runtime,), listeners) ==> listeners > 0,
    ensures
        lookup(after, key) == Some(
            CachedRuntime { runtime: before[key].runtime, idle_since: None },
        ),
{
    assert(before.contains_key(key));
}

/// A runtime that has just been asked for survives the next cleanup pass, whenever that comes.
pub proof fn law_requested_runtime_survives_the_next_pass<
    K,
    R,
    F: FnOnce(String, String) -> R,
    C: Copy + Fn(&R) -> usize,
>(
    before: Map<K, CachedRuntime<R>>,
    between: Map<K, CachedRuntime<R>>,
    after: Map<K, CachedRuntime<R>>,
    key: K,
    host: Seq<char>,
    topic: Seq<char>,
    runtime: R,
    stream_task: F,
    now: u128,
    limit: u128,
    count: C,
)
    requires
        served(before, between, key, host, topic, runtime, stream_task),
        cleaned_up(between, after, now, limit, count),
    ensures
        after.contains_key(key),
        after[key].runtime == runtime,
{
    assert(between.contains_key(key));
}

/// A runtime that two cleanup passes find without listeners, and that nobody asks for in between,
/// is let go by the second of them exactly if it has been idle for the limit by then.
pub proof fn law_runtime_without_listeners_is_evicted_when_idle<K, R, C: Copy + Fn(&R) -> usize>(
    before: Map<K, CachedRuntime<R>>,
    between: Map<K, CachedRuntime<R>>,
    after: Map<K, CachedRuntime<R>>,
    first: u128,
    second: u128,
    limit: u128,
    count: C,
    key: K,
)
    requires
        cleaned_up(before, between, first, limit, count),
        cleaned_up(between, after, second, limit, count),
        before.contains_key(key),
        before[key].idle_since is None,
        forall|listeners: usize| #[trigger]
            call_ensures(count, (&before[key].runtime,), listeners) ==> listeners == 0,
    ensures
        after.contains_key(key) <==> second - first < limit,
        after.contains_key(key) ==> after[key] == between[key],
{
    assert(before.contains_key(key));
    assert(between.contains_key(key));
}

/// What can happen to a cache: someone asks for a runtime, or a cleanup pass finds how many
/// listeners there are.
#[verifier::reject_recursive_types(K)]
pub enum CacheStep<K, R> {
    Asked { at: u128, key: K, runtime: R },
    Passed { at: u128, limit: u128, listeners: Map<K, usize> },
}

impl<K, R> CacheStep<K, R> {
    /// When the step happens.
    pub open spec fn moment(self) -> u128 {
        match self {
            CacheStep::Asked { at, .. } => at,
            CacheStep::Passed { at, .. } => at,
        }
    }

    /// Whether the step makes `after` of `before`, as [`served`] and [`cleaned_up`] say.
    pub open spec fn leads(
        self,
        before: Map<K, CachedRuntime<R>>,
        after: Map<K, CachedRuntime<R>>,
    ) -> bool {
        match self {
            CacheStep::Asked { key, runtime, .. } => after == with_runtime(before, key, runtime),
            CacheStep::Passed { at, limit, listeners } => cleanup_pass(
                before,
                after,
                at,
                limit,
                listeners,
            ),
        }
    }

    /// Whether the step shows that nobody is interested in `key`: it is neither a request for it
    /// nor a pass that finds a listener.
    pub open spec fn ignores(self, key: K) -> bool {
        match self {
            CacheStep::Asked { key: asked, .. } => asked != key,
            CacheStep::Passed { listeners, .. } => listeners[key] == 0,
        }
    }
}

/// Whether the steps, in the order of their moments, lead a cache that starts empty from each of
/// these states to the next.
pub open spec fn cache_history<K, R>(
    states: Seq<Map<K, CachedRuntime<R>>>,
    steps: Seq<CacheStep<K, R>>,
) -> bool {
    &&& states.len() == steps.len() + 1
    &&& states[0] == Map::<K, CachedRuntime<R>>::empty()
    &&& forall|i: int|
        0 <= i < steps.len() ==> (#[trigger] steps[i]).leads(states[i], states[i + 1])
    &&& forall|i: int, j: int|
        0 <= i <= j < steps.len() ==> (#[trigger] steps[i]).moment() <= (
        #[trigger] steps[j]).moment()
}

/// A runtime counts as idle since a pass after which every step ignores it.
proof fn lemma_idle_since<K, R>(
    states: Seq<Map<K, CachedRuntime<R>>>,
    steps: Seq<CacheStep<K, R>>,
    key: K,
    now: int,
) -> (first: int)
    requires
        cache_history(states, steps),
        0 <= now < states.len(),
        states[now].contains_key(key),
        states[now][key].idle_since is Some,
    ensures
        0 <= first < now,
        steps[first].moment() == states[now][key].idle_since->0,
        forall|i: int| first <= i < now ==> (#[trigger] steps[i]).ignores(key),
    decreases now,
{
    assert(now > 0);
    let step = steps[now - 1];
    let before = states[now - 1];
    let after = states[now];
    assert(step.leads(before, after));
    assert(before.contains_key(key)) by {
        assert(after.contains_key(key));
    }
    if before[key].idle_since is None {
        now - 1
    } else {
        assert(before[key].idle_since == after[key].idle_since);
        lemma_idle_since(states, steps, key, now - 1)
    }
}

/// A runtime is let go only after an idle grace period: when a pass evicts it, then for the whole
/// `limit` before that pass nobody asked for it, and no pass found a listener.
pub proof fn law_evicted_runtime_was_idle_for_the_limit<K, R>(
    states: Seq<Map<K, CachedRuntime<R>>>,
    steps: Seq<CacheStep<K, R>>,
    key: K,
    evicting: int,
)
    requires
        cache_history(states, steps),
        0 <= evicting < steps.len(),
        steps[evicting] is Passed,
        states[evicting].contains_key(key),
        !states[evicting + 1].contains_key(key),
    ensures
        forall|i: int|
            0 <= i <= evicting && steps[evicting].moment() - (#[trigger] steps[i]).moment()
                < steps[evicting]->limit ==> steps[i].ignores(key),
{
    let before = states[evicting];
    assert(steps[evicting].leads(before, states[evicting + 1]));
    assert(before.contains_key(key));
    let first = lemma_idle_since(states, steps, key, evicting);
    assert forall|i: int|
        0 <= i <= evicting && steps[evicting].moment() - (#[trigger] steps[i]).moment()
            < steps[evicting]->limit implies steps[i].ignores(key) by {
        if i < first {
            assert(steps[i].moment() <= steps[first].moment());
        }
    }
}

/// Two requests of one cache, one after the other, get the same runtime if they name the same host,
/// the same topic and the same backend. A request for which the cache has no runtime gets one that
/// was started for its own host and topic. A request for anything else leaves a runtime where it is.
pub proof fn law_stream_is_found_by_host_topic_and_source<
    R,
    F: FnOnce(String, String) -> R,
    G: FnOnce(String, String) -> R,
>(
    first_cache: &mut RuntimeCache<R>,
    host: &str,
    topic: &str,
    source: Source,
    task: F,
    first: &R,
    second_cache: &mut RuntimeCache<R>,
    other_host: &str,
    other_topic: &str,
    other_source: Source,
    other_task: G,
    second: &R,
)
    requires
        call_ensures(get_stream::<R, F>, (first_cache, host, topic, source, task), first),
        *second_cache == *final(first_cache),
        call_ensures(
            get_stream::<R, G>,
            (second_cache, other_host, other_topic, other_source, other_task),
            second,
        ),
    ensures
        host@ == other_host@ && topic@ == other_topic@ && source == other_source ==> *second
            == *first,
        !old(first_cache)@.contains_key(
            CacheKeyModel { host: host@, topic: topic@, source },
        ) ==> exists|h: String, t: String|
            h@ == host@ && t@ == topic@ && #[trigger] call_ensures(task, (h, t), *first),
        old(first_cache)@.contains_key(CacheKeyModel { host: host@, topic: topic@, source }) ==> *first
            == old(first_cache)@[CacheKeyModel { host: host@, topic: topic@, source }].runtime,
        host@ != other_host@ || topic@ != other_topic@ || source != other_source ==> {
            &&& !old(first_cache)@.contains_key(
                CacheKeyModel { host: other_host@, topic: other_topic@, source: other_source },
            ) ==> exists|h: String, t: String|
                h@ == other_host@ && t@ == other_topic@ && #[trigger] call_ensures(
                    other_task,
                    (h, t),
                    *second,
                )
            &&& final(second_cache)@.contains_key(
                CacheKeyModel { host: host@, topic: topic@, source },
            )
            &&& final(second_cache)@[CacheKeyModel { host: host@, topic: topic@, source }].runtime
                == *first
        },
{
}

/// A runtime that has just been asked for and that passes find without listeners stays until a pass
/// comes a minute or more after the first of them, and is let go by that one. A runtime at which a
/// pass finds a listener stays.
pub proof fn law_stream_is_let_go_after_an_idle_minute<
    R,
    F: FnOnce(String, String) -> R,
    C: Copy + Fn(&R) -> usize,
>(
    asked: &mut RuntimeCache<R>,
    host: &str,
    topic: &str,
    source: Source,
    task: F,
    runtime: &R,
    first: &mut RuntimeCache<R>,
    first_pass: u128,
    second: &mut RuntimeCache<R>,
    second_pass: u128,
    count: C,
    listeners: usize,
)
    requires
        call_ensures(get_stream::<R, F>, (asked, host, topic, source, task), runtime),
        *first == *final(asked),
        call_ensures(reap_unused_streams::<R, C>, (first, first_pass, count), ()),
        *second == *final(first),
        call_ensures(reap_unused_streams::<R, C>, (second, second_pass, count), ()),
        forall|found: usize| #[trigger] call_ensures(count, (runtime,), found) ==> found
            == listeners,
    ensures
        final(second)@.contains_key(CacheKeyModel { host: host@, topic: topic@, source }) <==> {
            listeners > 0 || second_pass - first_pass < 60_000_000_000
        },
        final(second)@.contains_key(CacheKeyModel { host: host@, topic: topic@, source })
            ==> final(second)@[CacheKeyModel { host: host@, topic: topic@, source }].runtime
            == *runtime,
{
    let key = CacheKeyModel { host: host@, topic: topic@, source };
    assert(first@.contains_key(key));
    assert(second@.contains_key(key));
    assert(EVICT_AFTER_IDLE * NANOS_PER_SEC == 60_000_000_000);
}

/// Every message that arrives is made into a typed one, whatever it holds, and a lag makes none: a
/// text message shows the text of the bytes that arrived.
pub proof fn law_arrived_message_is_typed<L>(
    incoming: Result<ByteMessage, L>,
    message: Option<StringMessage>,
)
    requires
        call_ensures(typed_message::<StringMessage, L>, (incoming,), message),
    ensures
        match incoming {
            Ok(bytes) => {
                &&& message matches Some(typed)
                &&& typed@.value == utf8_lossy(bytes@.value)
                &&& typed@.key is Some <==> bytes@.key is Some
                &&& bytes@.key matches Some(key) ==> typed@.key == Some(utf8_lossy(key))
            },
            Err(_) => message is None,
        },
{
}

/// The task that evicts idle entries makes a pass exactly after it has slept, and otherwise sleeps
/// the interval, whatever that is.
pub proof fn law_task_sleeps_before_every_pass(
    event: ReaperEvent,
    interval: u64,
    action: ReaperAction,
)
    requires
        call_ensures(next_reaper_action, (event, interval), action),
    ensures
        action == ReaperAction::Pass <==> event == ReaperEvent::Slept,
        event != ReaperEvent::Slept ==> action == (ReaperAction::Sleep { secs: interval }),
{
}

/// Keys show what they were made of, and so do keys with texts of their own; two keys are the same
/// exactly if they were made of the same host, the same topic and the same backend.
pub proof fn law_keys_are_told_apart(
    host: &str,
    topic: &str,
    source: Source,
    key: CacheKey<'_>,
    owned: CacheKey<'static>,
    shown_host: &str,
    shown_topic: &str,
    shown_source: Source,
    other_host: &str,
    other_topic: &str,
    other_source: Source,
    other: CacheKey<'_>,
    same: bool,
)
    requires
        call_ensures(CacheKey::new, (host, topic, source), key),
        call_ensures(CacheKey::into_owned, (key,), owned),
        call_ensures(CacheKey::host, (&owned,), shown_host),
        call_ensures(CacheKey::topic, (&owned,), shown_topic),
        call_ensures(CacheKey::source, (&owned,), shown_source),
        call_ensures(CacheKey::new, (other_host, other_topic, other_source), other),
        call_ensures(<CacheKey<'_> as Key>::same, (&owned, &other), same),
    ensures
        shown_host@ == host@,
        shown_topic@ == topic@,
        shown_source == source,
        same <==> host@ == other_host@ && topic@ == other_topic@ && source == other_source,
{
}

} // verus!
