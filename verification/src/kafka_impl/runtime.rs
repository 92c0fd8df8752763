//! What the background Kafka consumer decides.
//!
//! The consumer connects to Kafka, subscribes to a single topic and fans incoming messages out to
//! every listener of its host and topic. Connection errors and per-message failures are absorbed:
//! they are logged once per kind, and the consumer is created anew after a wait that doubles up to a
//! cap.
use rdkafka::ClientConfig;
use vstd::arithmetic::power2::pow2;
use vstd::prelude::*;
use vstd::std_specs::cmp::PartialEqSpec;
use vstd::string::*;

use super::config::{
    config_settings, consumer_config, consumer_settings, draw_group_id, is_fresh_group,
    is_random_uuid,
};
use crate::backoff::{
    after_error, backoff_after, is_calm, is_partial_equivalence, law_backoff_doubles_up_to_the_cap,
    recorded, Backoff, OutageState, INITIAL_BACKOFF, MAX_BACKOFF,
};
use crate::message::{ByteMessage, Message, WireBytes};
use crate::text::view_opt;

verus! {

/// What is asked of Kafka: the host, the topic, and the consumer group that asks.
pub struct Consumption {
    host: String,
    topic: String,
    group_id: String,
}

impl Consumption {
    /// The bootstrap host.
    pub closed spec fn host_text(&self) -> Seq<char> {
        self.host@
    }

    /// The topic.
    pub closed spec fn topic_text(&self) -> Seq<char> {
        self.topic@
    }

    /// The consumer group.
    pub closed spec fn group_text(&self) -> Seq<char> {
        self.group_id@
    }

    /// Asks for a topic on behalf of a consumer group of its own.
    pub fn new(host: String, topic: String) -> (consumption: Self)
        ensures
            consumption.host_text() == host@,
            consumption.topic_text() == topic@,
            is_fresh_group(consumption.group_text()),
            is_random_uuid(consumption.group_text()),
    {
        Consumption { host, topic, group_id: draw_group_id() }
    }

    /// Returns the topic.
    pub fn topic(&self) -> (topic: &str)
        ensures
            topic@ == self.topic_text(),
    {
        self.topic.as_str()
    }

    /// Configures the consumer. Every attempt uses the same group.
    pub fn config(&self, from_earliest: bool) -> (config: ClientConfig)
        ensures
            config_settings(config) == consumer_settings(
                self.host_text(),
                self.group_text(),
                from_earliest,
            ),
    {
        consumer_config(self.host.as_str(), self.group_id.as_str(), from_earliest)
    }
}

/// What the consumer loop is told.
pub enum ConsumerEvent<K> {
    /// The loop starts over, and has looked whether it is cancelled.
    LoopHead { cancelled: bool },
    /// The consumer is there.
    Created,
    /// Creating the consumer failed.
    CreateFailed(K),
    /// The consumer is subscribed to the topic.
    Subscribed,
    /// Subscribing failed.
    SubscribeFailed(K),
    /// The stream of messages ended, or was interrupted by cancellation.
    StreamEnded,
}

/// What the consumer loop does next.
#[derive(Clone, Copy, Debug, PartialEq, Eq, Structural)]
pub enum ConsumerAction {
    /// Start the loop over.
    LoopAgain,
    /// End the loop.
    Stop,
    /// Create a consumer.
    Create,
    /// Subscribe the consumer to the topic.
    Subscribe,
    /// Forward messages; log the recovery where there was an outage.
    Monitor { recovered: bool },
    /// Wait before the next attempt.
    Wait(Backoff),
}

/// Whether an event may take the consumer loop from one state to the other, with this action.
pub open spec fn consumer_step<K: PartialEq>(
    before: OutageState<K>,
    event: ConsumerEvent<K>,
    action: ConsumerAction,
    after: OutageState<K>,
) -> bool {
    match event {
        ConsumerEvent::LoopHead { cancelled } => after == before && action == if cancelled {
            ConsumerAction::Stop
        } else {
            ConsumerAction::Create
        },
        ConsumerEvent::Created => after == before && action == ConsumerAction::Subscribe,
        ConsumerEvent::CreateFailed(kind) => action matches ConsumerAction::Wait(backoff)
            && after_error(before, kind, backoff, after),
        ConsumerEvent::Subscribed => is_calm(after) && action == (ConsumerAction::Monitor {
            recovered: before.last_kind() is Some,
        }),
        ConsumerEvent::SubscribeFailed(kind) => action matches ConsumerAction::Wait(backoff)
            && after_error(before, kind, backoff, after),
        ConsumerEvent::StreamEnded => after == before && action == ConsumerAction::LoopAgain,
    }
}

/// Decides what the consumer loop does next.
pub fn start_stream<K: PartialEq>(
    outage: &mut OutageState<K>,
    event: ConsumerEvent<K>,
) -> (action: ConsumerAction)
    ensures
        consumer_step(*old(outage), event, action, *final(outage)),
        action matches ConsumerAction::Wait(backoff) ==> INITIAL_BACKOFF <= backoff.wait_secs
            <= MAX_BACKOFF,
{
    match event {
        ConsumerEvent::LoopHead { cancelled } => if cancelled {
            ConsumerAction::Stop
        } else {
            ConsumerAction::Create
        },
        ConsumerEvent::Created => ConsumerAction::Subscribe,
        ConsumerEvent::CreateFailed(kind) => ConsumerAction::Wait(outage.on_error(kind)),
        ConsumerEvent::Subscribed => ConsumerAction::Monitor { recovered: outage.on_recovery() },
        ConsumerEvent::SubscribeFailed(kind) => ConsumerAction::Wait(outage.on_error(kind)),
        ConsumerEvent::StreamEnded => ConsumerAction::LoopAgain,
    }
}

/// A message as Kafka delivers it.
pub struct IncomingRecord {
    /// The partition that it comes from.
    pub partition: i32,
    /// Its offset in the partition.
    pub offset: i64,
    /// Its key, if it has one.
    pub key: Option<Vec<u8>>,
    /// Its payload, if it has one.
    pub payload: Option<Vec<u8>>,
}

/// The wire bytes that a record carries, if it has a payload.
pub open spec fn record_bytes(record: IncomingRecord) -> Option<WireBytes> {
    match record.payload {
        Some(payload) => Some(WireBytes { key: view_opt(record.key), value: payload@ }),
        None => None,
    }
}

/// Borrows the bytes of an optional key.
pub(crate) fn key_slice(key: &Option<Vec<u8>>) -> (slice: Option<&[u8]>)
    ensures
        view_opt(slice) == view_opt(*key),
{
    match key {
        Some(bytes) => Some(bytes.as_slice()),
        None => None,
    }
}

/// Makes a message of a record. A record without a payload makes none.
pub fn convert_to_message(record: &IncomingRecord) -> (message: Option<ByteMessage>)
    ensures
        view_opt(message) == record_bytes(*record),
{
    match &record.payload {
        Some(payload) => Some(
            ByteMessage::from_bytes(key_slice(&record.key), payload.as_slice()),
        ),
        None => None,
    }
}

/// What is done about an item of the message stream.
pub enum MonitorStep {
    /// Broadcast a message; log the recovery where there was an outage.
    Forward { message: ByteMessage, recovered: bool },
    /// Warn of a record without a payload; log the recovery where there was an outage.
    Skip { recovered: bool },
    /// Log the error, unless one of its kind was logged last.
    Failed { report: bool },
}

/// Decides what is done about an item of the message stream. An error does not stall the stream:
/// nothing waits, and the next message ends the outage.
pub fn monitor_stream<K: PartialEq>(
    outage: &mut OutageState<K>,
    item: Result<IncomingRecord, K>,
) -> (step: MonitorStep)
    ensures
        match item {
            Ok(record) => {
                let recovers = old(outage).last_kind() is Some;
                &&& is_calm(*final(outage))
                &&& match record_bytes(record) {
                    Some(bytes) => step matches MonitorStep::Forward { message, recovered }
                        && message@ == bytes && recovered == recovers,
                    None => step == (MonitorStep::Skip { recovered: recovers }),
                }
            },
            Err(kind) => step matches MonitorStep::Failed { report } && recorded(
                *old(outage),
                kind,
                report,
                *final(outage),
            ) && final(outage).wait() == old(outage).wait(),
        },
{
    match item {
        Ok(record) => {
            let recovered = outage.on_recovery();
            match convert_to_message(&record) {
                Some(message) => MonitorStep::Forward { message, recovered },
                None => MonitorStep::Skip { recovered },
            }
        },
        Err(kind) => MonitorStep::Failed { report: outage.record_error(kind) },
    }
}

/// The consumer loop stops exactly when it is cancelled at its head; no error ends it.
pub proof fn law_only_cancellation_stops_the_consumer<K: PartialEq>(
    before: OutageState<K>,
    event: ConsumerEvent<K>,
    action: ConsumerAction,
    after: OutageState<K>,
)
    requires
        consumer_step(before, event, action, after),
    ensures
        action == ConsumerAction::Stop <==> event == (ConsumerEvent::<K>::LoopHead {
            cancelled: true,
        }),
{
}

/// A consumer forwards messages only once it has been created and subscribed: every round of the
/// loop creates a consumer first, then subscribes it, and then forwards what arrives.
pub proof fn law_every_round_creates_and_subscribes<K: PartialEq>(
    before: OutageState<K>,
    event: ConsumerEvent<K>,
    action: ConsumerAction,
    after: OutageState<K>,
)
    requires
        consumer_step(before, event, action, after),
    ensures
        action == ConsumerAction::Create <==> event == (ConsumerEvent::<K>::LoopHead {
            cancelled: false,
        }),
        action == ConsumerAction::Subscribe <==> event == ConsumerEvent::<K>::Created,
        action is Monitor <==> event == ConsumerEvent::<K>::Subscribed,
{
}

/// Every round of one consumption asks the same host on behalf of the same consumer group: any two
/// configurations of it have the same settings, and those name its host and its group.
pub proof fn law_every_round_joins_the_same_group(
    consumption: Consumption,
    from_earliest: bool,
    first: ClientConfig,
    second: ClientConfig,
)
    requires
        call_ensures(Consumption::config, (&consumption, from_earliest), first),
        call_ensures(Consumption::config, (&consumption, from_earliest), second),
    ensures
        config_settings(first) == config_settings(second),
        config_settings(first)["bootstrap.servers"@] == consumption.host_text(),
        config_settings(first)["group.id"@] == consumption.group_text(),
{
    reveal_strlit("bootstrap.servers");
    reveal_strlit("group.id");
    reveal_strlit("auto.offset.reset");
    assert("bootstrap.servers"@.len() == 17 && "group.id"@.len() == 8);
    assert("bootstrap.servers"@[0] == 'b' && "auto.offset.reset"@[0] == 'a');
}

/// The kind of the error with which a round of the loop fails, if this event is such a failure.
pub open spec fn round_failure<K>(event: ConsumerEvent<K>) -> Option<K> {
    match event {
        ConsumerEvent::CreateFailed(kind) => Some(kind),
        ConsumerEvent::SubscribeFailed(kind) => Some(kind),
        _ => None,
    }
}

/// The kind of the error with which the failed round just before the `n`th event failed, if there is
/// one since the start of the loop or its last successful subscription.
pub open spec fn failure_before<K>(events: Seq<ConsumerEvent<K>>, n: int) -> Option<K>
    decreases n,
{
    if n <= 0 {
        None
    } else if round_failure(events[n - 1]) is Some {
        round_failure(events[n - 1])
    } else if events[n - 1] is Subscribed {
        None
    } else {
        failure_before(events, n - 1)
    }
}

/// Whether the consumer loop, which starts without an outage, may go through these states when it is
/// told these events, with these actions.
pub open spec fn consumer_run<K: PartialEq>(
    states: Seq<OutageState<K>>,
    events: Seq<ConsumerEvent<K>>,
    actions: Seq<ConsumerAction>,
) -> bool {
    &&& states.len() == events.len() + 1
    &&& actions.len() == events.len()
    &&& is_calm(states[0])
    &&& forall|i: int|
        0 <= i < events.len() ==> consumer_step(
            states[i],
            #[trigger] events[i],
            actions[i],
            states[i + 1],
        )
}

/// The kind that is remembered is that of the failed round just before.
proof fn lemma_remembered_failure<K: PartialEq>(
    states: Seq<OutageState<K>>,
    events: Seq<ConsumerEvent<K>>,
    actions: Seq<ConsumerAction>,
    n: int,
)
    requires
        is_partial_equivalence::<K>(),
        consumer_run(states, events, actions),
        0 <= n < states.len(),
    ensures
        match failure_before(events, n) {
            Some(kind) => states[n].last_kind() matches Some(last) && (kind == last || kind.eq_spec(
                &last,
            )),
            None => states[n].last_kind() is None,
        },
    decreases n,
{
    if n > 0 {
        lemma_remembered_failure(states, events, actions, n - 1);
        assert(consumer_step(states[n - 1], events[n - 1], actions[n - 1], states[n]));
    }
}

/// A failed round is reported exactly where it is the first one since the start of the loop or its
/// last successful subscription, or where the kind of its error differs from that of the failed
/// round just before it.
pub proof fn law_round_is_reported_where_the_kind_changes<K: PartialEq>(
    states: Seq<OutageState<K>>,
    events: Seq<ConsumerEvent<K>>,
    actions: Seq<ConsumerAction>,
    n: int,
)
    requires
        is_partial_equivalence::<K>(),
        consumer_run(states, events, actions),
        0 <= n < events.len(),
        round_failure(events[n]) is Some,
    ensures
        actions[n] matches ConsumerAction::Wait(backoff) && backoff.report == match failure_before(
            events,
            n,
        ) {
            Some(earlier) => !(round_failure(events[n])->0).eq_spec(&earlier),
            None => true,
        },
{
    lemma_remembered_failure(states, events, actions, n);
    assert(consumer_step(states[n], events[n], actions[n], states[n + 1]));
    let kind = round_failure(events[n])->0;
    if let Some(earlier) = failure_before(events, n) {
        let last = states[n].last_kind()->0;
        assert(earlier == last || last.eq_spec(&earlier));
        if kind.eq_spec(&earlier) {
            assert(kind.eq_spec(&last));
        }
        if kind.eq_spec(&last) {
            assert(kind.eq_spec(&earlier));
        }
    }
}

/// A consumption asks for the topic and the host that it was made for, on behalf of a group with a
/// random identifier; whether it starts with the oldest message is as it is told.
pub proof fn law_consumption_asks_for_its_topic(
    host: String,
    topic: String,
    consumption: Consumption,
    asked: &str,
    from_earliest: bool,
    config: ClientConfig,
)
    requires
        call_ensures(Consumption::new, (host, topic), consumption),
        call_ensures(Consumption::topic, (&consumption,), asked),
        call_ensures(Consumption::config, (&consumption, from_earliest), config),
    ensures
        forall|name: Seq<char>| #[trigger]
            config_settings(config).contains_key(name) <==> {
                ||| name == "bootstrap.servers"@
                ||| name == "group.id"@
                ||| from_earliest && name == "auto.offset.reset"@
            },
        asked@ == topic@,
        config_settings(config)["bootstrap.servers"@] == host@,
        is_random_uuid(config_settings(config)["group.id"@]),
        from_earliest ==> config_settings(config)["auto.offset.reset"@] == "earliest"@,
{
    reveal_strlit("bootstrap.servers");
    reveal_strlit("group.id");
    reveal_strlit("auto.offset.reset");
    assert("bootstrap.servers"@.len() == 17 && "group.id"@.len() == 8);
    assert("bootstrap.servers"@[0] == 'b' && "auto.offset.reset"@[0] == 'a');
}

/// How many of the events before the `n`th one are failures, counted from the last successful
/// subscription.
pub open spec fn failures_before<K>(events: Seq<ConsumerEvent<K>>, n: int) -> nat
    decreases n,
{
    if n <= 0 || events[n - 1] is Subscribed {
        0
    } else if round_failure(events[n - 1]) is Some {
        failures_before(events, n - 1) + 1
    } else {
        failures_before(events, n - 1)
    }
}

/// The state before the `n`th event holds the wait that the failures before it have led to, and the
/// kind of the last one.
proof fn lemma_state_before_event<K: PartialEq>(
    start: OutageState<K>,
    states: Seq<&mut OutageState<K>>,
    events: Seq<ConsumerEvent<K>>,
    actions: Seq<ConsumerAction>,
    n: int,
)
    requires
        call_ensures(<OutageState<K> as Default>::default, (), start),
        states.len() == events.len(),
        states.len() > 0 ==> *states[0] == start,
        forall|i: int, j: int|
            0 <= i && j == i + 1 && j < states.len() ==> *final(#[trigger] states[i])
                == *#[trigger] states[j],
        forall|i: int|
            0 <= i < events.len() ==> call_ensures(
                start_stream::<K>,
                (#[trigger] states[i], events[i]),
                actions[i],
            ),
        0 <= n < events.len(),
    ensures
        states[n].wait() == backoff_after(failures_before(events, n)),
        states[n].last_kind() is Some <==> failure_before(events, n) is Some,
        failure_before(events, n) is Some <==> failures_before(events, n) > 0,
        is_partial_equivalence::<K>() ==> match failure_before(events, n) {
            Some(kind) => states[n].last_kind() matches Some(last) && (kind == last || kind.eq_spec(
                &last,
            )),
            None => true,
        },
    decreases n,
{
    if n > 0 {
        lemma_state_before_event(start, states, events, actions, n - 1);
        assert(*final(states[n - 1]) == *states[n]);
        assert(call_ensures(start_stream::<K>, (states[n - 1], events[n - 1]), actions[n - 1]));
    }
}

/// Whatever the consumer loop is told, from its start on: every failure to create or to subscribe a
/// consumer is answered by a wait, and nothing else is. The failure that has `e` failures before it
/// since the last successful subscription waits two to the power of `e` seconds, or half a minute
/// where that is less, and is reported exactly where the failure before it is not of the same kind.
pub proof fn law_every_failure_waits_for_its_turn<K: PartialEq>(
    start: OutageState<K>,
    states: Seq<&mut OutageState<K>>,
    events: Seq<ConsumerEvent<K>>,
    actions: Seq<ConsumerAction>,
    n: int,
)
    requires
        call_ensures(<OutageState<K> as Default>::default, (), start),
        states.len() == events.len(),
        states.len() > 0 ==> *states[0] == start,
        forall|i: int, j: int|
            0 <= i && j == i + 1 && j < states.len() ==> *final(#[trigger] states[i])
                == *#[trigger] states[j],
        forall|i: int|
            0 <= i < events.len() ==> call_ensures(
                start_stream::<K>,
                (#[trigger] states[i], events[i]),
                actions[i],
            ),
        0 <= n < events.len(),
    ensures
        actions[n] is Wait <==> events[n] is CreateFailed || events[n] is SubscribeFailed,
        actions[n] matches ConsumerAction::Wait(backoff) ==> {
            &&& backoff.wait_secs == if pow2(failures_before(events, n)) < 30 {
                pow2(failures_before(events, n)) as int
            } else {
                30
            }
            &&& is_partial_equivalence::<K>() ==> backoff.report == !(failure_before(
                events,
                n,
            ) matches Some(earlier) && (round_failure(events[n])->0).eq_spec(&earlier))
        },
{
    lemma_state_before_event(start, states, events, actions, n);
    law_backoff_doubles_up_to_the_cap(failures_before(events, n));
    assert(call_ensures(start_stream::<K>, (states[n], events[n]), actions[n]));
    if is_partial_equivalence::<K>() {
        if let Some(earlier) = failure_before(events, n) {
            let last = states[n].last_kind()->0;
            assert(earlier == last || last.eq_spec(&earlier));
            assert forall|kind: K| #[trigger] kind.eq_spec(&earlier) implies kind.eq_spec(&last) by {}
            assert forall|kind: K| #[trigger] kind.eq_spec(&last) implies kind.eq_spec(&earlier) by {}
        }
    }
}

/// Whatever the consumer loop is told, from its start on: it creates a consumer exactly at its head,
/// after it has looked whether it is cancelled, subscribes exactly the consumers that were created,
/// and forwards exactly from those that are subscribed, where it logs a recovery exactly if there
/// was a failure since the subscription before. The end of a stream leads back to the head of the
/// loop, and only there does it stop.
pub proof fn law_consumer_is_created_at_the_head<K: PartialEq>(
    start: OutageState<K>,
    states: Seq<&mut OutageState<K>>,
    events: Seq<ConsumerEvent<K>>,
    actions: Seq<ConsumerAction>,
    n: int,
)
    requires
        call_ensures(<OutageState<K> as Default>::default, (), start),
        states.len() == events.len(),
        states.len() > 0 ==> *states[0] == start,
        forall|i: int, j: int|
            0 <= i && j == i + 1 && j < states.len() ==> *final(#[trigger] states[i])
                == *#[trigger] states[j],
        forall|i: int|
            0 <= i < events.len() ==> call_ensures(
                start_stream::<K>,
                (#[trigger] states[i], events[i]),
                actions[i],
            ),
        0 <= n < events.len(),
    ensures
        actions[n] == ConsumerAction::Create <==> events[n] == (ConsumerEvent::<K>::LoopHead {
            cancelled: false,
        }),
        actions[n] == ConsumerAction::Stop <==> events[n] == (ConsumerEvent::<K>::LoopHead {
            cancelled: true,
        }),
        actions[n] == ConsumerAction::Subscribe <==> events[n] is Created,
        actions[n] is Monitor <==> events[n] is Subscribed,
        actions[n] matches ConsumerAction::Monitor { recovered } ==> recovered == (failures_before(
            events,
            n,
        ) > 0),
        actions[n] == ConsumerAction::LoopAgain <==> events[n] is StreamEnded,
{
    lemma_state_before_event(start, states, events, actions, n);
    assert(call_ensures(start_stream::<K>, (states[n], events[n]), actions[n]));
}

/// A record makes a message exactly if it has a payload, be it empty or not, and the message then
/// has the key and the payload of the record.
pub proof fn law_record_with_a_payload_makes_a_message(
    record: IncomingRecord,
    message: Option<ByteMessage>,
)
    requires
        call_ensures(convert_to_message, (&record,), message),
    ensures
        message is Some <==> record.payload is Some,
        message matches Some(message) ==> {
            &&& message@.value == record.payload->0@
            &&& match record.key {
                Some(key) => message@.key == Some(key@),
                None => message@.key is None,
            }
        },
{
}

/// Whatever a message stream delivers, from its start on: every record with a payload is forwarded
/// with its key and its payload, every record without one is skipped, and neither waits for
/// anything. A recovery is logged exactly for the records that come right after an error, and an
/// error is reported exactly where the item before it is not an error of the same kind. No item
/// changes what the next failed round of the loop waits, except that a record sets it back to the
/// start.
pub proof fn law_every_record_is_forwarded<K: PartialEq>(
    start: OutageState<K>,
    states: Seq<&mut OutageState<K>>,
    items: Seq<Result<IncomingRecord, K>>,
    steps: Seq<MonitorStep>,
    n: int,
)
    requires
        call_ensures(<OutageState<K> as Default>::default, (), start),
        states.len() == items.len(),
        states.len() > 0 ==> *states[0] == start,
        forall|i: int, j: int|
            0 <= i && j == i + 1 && j < states.len() ==> *final(#[trigger] states[i])
                == *#[trigger] states[j],
        forall|i: int|
            0 <= i < items.len() ==> call_ensures(
                monitor_stream::<K>,
                (#[trigger] states[i], items[i]),
                steps[i],
            ),
        0 <= n < items.len(),
    ensures
        match items[n] {
            Ok(record) => match record.payload {
                Some(payload) => {
                    &&& steps[n] matches MonitorStep::Forward { message, recovered }
                    &&& message@.value == payload@
                    &&& message@.key == view_opt(record.key)
                    &&& recovered == (n > 0 && items[n - 1] is Err)
                },
                None => steps[n] == (MonitorStep::Skip { recovered: n > 0 && items[n - 1] is Err }),
            },
            Err(kind) => {
                &&& steps[n] matches MonitorStep::Failed { report }
                &&& is_partial_equivalence::<K>() ==> report == (n == 0 || match items[n
                    - 1] {
                    Ok(_) => true,
                    Err(earlier) => !kind.eq_spec(&earlier),
                })
            },
        },
        states[n].wait() == 1,
        final(states[n]).wait() == 1,
    decreases n,
{
    assert(call_ensures(monitor_stream::<K>, (states[n], items[n]), steps[n]));
    if n > 0 {
        law_every_record_is_forwarded(start, states, items, steps, n - 1);
        assert(*final(states[n - 1]) == *states[n]);
        assert(call_ensures(monitor_stream::<K>, (states[n - 1], items[n - 1]), steps[n - 1]));
        if is_partial_equivalence::<K>() {
            if let Err(earlier) = items[n - 1] {
                let last = states[n].last_kind()->0;
                assert(earlier == last || earlier.eq_spec(&last));
                assert(earlier == last || last.eq_spec(&earlier));
                assert forall|kind: K| #[trigger] kind.eq_spec(&earlier) implies kind.eq_spec(
                    &last,
                ) by {}
                assert forall|kind: K| #[trigger] kind.eq_spec(&last) implies kind.eq_spec(
                    &earlier,
                ) by {}
            }
        }
    }
}

/// What happens to a consumer loop: it is told an event, or its message stream delivers an item.
pub enum ConsumerCall<K> {
    Told { event: ConsumerEvent<K>, action: ConsumerAction },
    Delivered { item: Result<IncomingRecord, K>, step: MonitorStep },
}

/// The kind of the error that this is, if it is one.
pub open spec fn call_kind<K>(call: ConsumerCall<K>) -> Option<K> {
    match call {
        ConsumerCall::Told { event: ConsumerEvent::CreateFailed(kind), .. } => Some(kind),
        ConsumerCall::Told { event: ConsumerEvent::SubscribeFailed(kind), .. } => Some(kind),
        ConsumerCall::Delivered { item: Err(kind), .. } => Some(kind),
        _ => None,
    }
}

/// Whether this shows that all is well: a subscription, or a record.
pub open spec fn is_success<K>(call: ConsumerCall<K>) -> bool {
    match call {
        ConsumerCall::Told { event: ConsumerEvent::Subscribed, .. } => true,
        ConsumerCall::Delivered { item: Ok(_), .. } => true,
        _ => false,
    }
}

/// How many of the failed rounds before the `n`th call come after the last success.
pub open spec fn rounds_failed_before<K>(calls: Seq<ConsumerCall<K>>, n: int) -> nat
    decreases n,
{
    if n <= 0 || is_success(calls[n - 1]) {
        0
    } else if calls[n - 1] is Told && call_kind(calls[n - 1]) is Some {
        rounds_failed_before(calls, n - 1) + 1
    } else {
        rounds_failed_before(calls, n - 1)
    }
}

/// The kind of the last error before the `n`th call, if there is one after the last success.
pub open spec fn error_before<K>(calls: Seq<ConsumerCall<K>>, n: int) -> Option<K>
    decreases n,
{
    if n <= 0 || is_success(calls[n - 1]) {
        None
    } else if call_kind(calls[n - 1]) is Some {
        call_kind(calls[n - 1])
    } else {
        error_before(calls, n - 1)
    }
}

proof fn lemma_state_before_consumer_call<K: PartialEq>(
    start: OutageState<K>,
    states: Seq<&mut OutageState<K>>,
    calls: Seq<ConsumerCall<K>>,
    n: int,
)
    requires
        call_ensures(<OutageState<K> as Default>::default, (), start),
        states.len() == calls.len(),
        states.len() > 0 ==> *states[0] == start,
        forall|i: int, j: int|
            0 <= i && j == i + 1 && j < states.len() ==> *final(#[trigger] states[i])
                == *#[trigger] states[j],
        forall|i: int|
            0 <= i < calls.len() ==> match #[trigger] calls[i] {
                ConsumerCall::Told { event, action } => call_ensures(
                    start_stream::<K>,
                    (states[i], event),
                    action,
                ),
                ConsumerCall::Delivered { item, step } => call_ensures(
                    monitor_stream::<K>,
                    (states[i], item),
                    step,
                ),
            },
        0 <= n < calls.len(),
    ensures
        states[n].wait() == backoff_after(rounds_failed_before(calls, n)),
        states[n].last_kind() is Some <==> error_before(calls, n) is Some,
        is_partial_equivalence::<K>() ==> match error_before(calls, n) {
            Some(kind) => states[n].last_kind() matches Some(last) && (kind == last || kind.eq_spec(
                &last,
            )),
            None => true,
        },
    decreases n,
{
    if n > 0 {
        lemma_state_before_consumer_call(start, states, calls, n - 1);
        assert(*final(states[n - 1]) == *states[n]);
        match calls[n - 1] {
            ConsumerCall::Told { event, action } => {
                assert(call_ensures(start_stream::<K>, (states[n - 1], event), action));
            },
            ConsumerCall::Delivered { item, step } => {
                assert(call_ensures(monitor_stream::<K>, (states[n - 1], item), step));
            },
        }
    }
}

/// Whatever a consumer loop is told and whatever its message streams deliver, in whatever order: a
/// failed round waits two to the power of the failed rounds since the last subscription or record, in
/// seconds, or half a minute where that is less; errors of the message stream do not count. An error,
/// of a round or of the stream, is reported exactly where the last one since that success is not of
/// the same kind, and a recovery is logged exactly where there was one.
pub proof fn law_outage_spans_rounds_and_streams<K: PartialEq>(
    start: OutageState<K>,
    states: Seq<&mut OutageState<K>>,
    calls: Seq<ConsumerCall<K>>,
    n: int,
)
    requires
        call_ensures(<OutageState<K> as Default>::default, (), start),
        states.len() == calls.len(),
        states.len() > 0 ==> *states[0] == start,
        forall|i: int, j: int|
            0 <= i && j == i + 1 && j < states.len() ==> *final(#[trigger] states[i])
                == *#[trigger] states[j],
        forall|i: int|
            0 <= i < calls.len() ==> match #[trigger] calls[i] {
                ConsumerCall::Told { event, action } => call_ensures(
                    start_stream::<K>,
                    (states[i], event),
                    action,
                ),
                ConsumerCall::Delivered { item, step } => call_ensures(
                    monitor_stream::<K>,
                    (states[i], item),
                    step,
                ),
            },
        0 <= n < calls.len(),
    ensures
        match calls[n] {
            ConsumerCall::Told { action: ConsumerAction::Wait(backoff), .. } => {
                &&& backoff.wait_secs == if pow2(rounds_failed_before(calls, n)) < 30 {
                    pow2(rounds_failed_before(calls, n)) as int
                } else {
                    30
                }
                &&& is_partial_equivalence::<K>() ==> backoff.report == !(error_before(
                    calls,
                    n,
                ) matches Some(earlier) && (call_kind(calls[n])->0).eq_spec(&earlier))
            },
            ConsumerCall::Told { action: ConsumerAction::Monitor { recovered }, .. } => recovered
                == (error_before(calls, n) is Some),
            ConsumerCall::Delivered { step: MonitorStep::Forward { recovered, .. }, .. } => recovered
                == (error_before(calls, n) is Some),
            ConsumerCall::Delivered { step: MonitorStep::Skip { recovered }, .. } => recovered == (
            error_before(calls, n) is Some),
            ConsumerCall::Delivered { step: MonitorStep::Failed { report }, .. } => {
                is_partial_equivalence::<K>() ==> report == !(error_before(
                    calls,
                    n,
                ) matches Some(earlier) && (call_kind(calls[n])->0).eq_spec(&earlier))
            },
            _ => true,
        },
{
    lemma_state_before_consumer_call(start, states, calls, n);
    law_backoff_doubles_up_to_the_cap(rounds_failed_before(calls, n));
    match calls[n] {
        ConsumerCall::Told { event, action } => {
            assert(call_ensures(start_stream::<K>, (states[n], event), action));
        },
        ConsumerCall::Delivered { item, step } => {
            assert(call_ensures(monitor_stream::<K>, (states[n], item), step));
        },
    }
    if is_partial_equivalence::<K>() {
        if let Some(earlier) = error_before(calls, n) {
            let last = states[n].last_kind()->0;
            assert(earlier == last || last.eq_spec(&earlier));
            assert forall|kind: K| #[trigger] kind.eq_spec(&earlier) implies kind.eq_spec(&last) by {}
            assert forall|kind: K| #[trigger] kind.eq_spec(&last) implies kind.eq_spec(&earlier) by {}
        }
    }
}

} // verus!
