//! What the background Redis pub/sub subscription decides.
//!
//! The subscription converts each incoming message into a [`ByteMessage`] and broadcasts it to
//! every listener of its host and topic. Connection errors are absorbed: they are logged once per
//! kind, and the subscription reconnects after a wait that doubles up to a cap.
use vstd::arithmetic::power2::pow2;
use vstd::prelude::*;
use vstd::std_specs::cmp::PartialEqSpec;
use vstd::string::*;
use vstd::utf8::encode_utf8;

use crate::backoff::{
    after_error, backoff_after, is_calm, is_partial_equivalence, law_backoff_doubles_up_to_the_cap,
    Backoff, OutageState, INITIAL_BACKOFF, MAX_BACKOFF,
};
use crate::message::{ByteMessage, Message, WireBytes};
use crate::redis_impls::value::{redis_value_to_text, value_text, RedisScalar, RedisValue};
use crate::text::utf8_bytes;

verus! {

/// How draining a connection ended.
#[derive(Clone, Copy, Debug, PartialEq, Eq, Structural)]
pub enum DrainOutcome {
    /// The connection closed unexpectedly.
    Reconnect,
    /// The subscription was cancelled.
    Stop,
}

/// What the subscription is told.
pub enum SubscriptionEvent<K> {
    /// The loop starts over, and has looked whether it is cancelled.
    LoopHead { cancelled: bool },
    /// The connection is there and subscribed.
    Connected,
    /// Connecting or subscribing failed.
    ConnectFailed(K),
    /// Draining the connection ended. An unexpected end is an outage of kind `drop_kind`.
    Drained { outcome: DrainOutcome, drop_kind: K },
}

/// What the subscription does next.
#[derive(Clone, Copy, Debug, PartialEq, Eq, Structural)]
pub enum SubscriptionAction {
    /// End the loop.
    Stop,
    /// Connect to the host and subscribe to the topic.
    Connect,
    /// Forward messages; log the recovery where there was an outage.
    Drain { recovered: bool },
    /// Wait before the next attempt.
    Wait(Backoff),
}

/// Whether an event may take the subscription from one state to the other, with this action.
pub open spec fn subscription_step<K: PartialEq>(
    before: OutageState<K>,
    event: SubscriptionEvent<K>,
    action: SubscriptionAction,
    after: OutageState<K>,
) -> bool {
    match event {
        SubscriptionEvent::LoopHead { cancelled } => after == before && action == if cancelled {
            SubscriptionAction::Stop
        } else {
            SubscriptionAction::Connect
        },
        SubscriptionEvent::Connected => is_calm(after) && action == (SubscriptionAction::Drain {
            recovered: before.last_kind() is Some,
        }),
        SubscriptionEvent::ConnectFailed(kind) => action matches SubscriptionAction::Wait(backoff)
            && after_error(before, kind, backoff, after),
        SubscriptionEvent::Drained { outcome: DrainOutcome::Stop, .. } => after == before && action
            == SubscriptionAction::Stop,
        SubscriptionEvent::Drained { outcome: DrainOutcome::Reconnect, drop_kind } => {
            action matches SubscriptionAction::Wait(backoff) && after_error(
                before,
                drop_kind,
                backoff,
                after,
            )
        },
    }
}

/// Decides what the subscription does next.
pub fn start_stream<K: PartialEq>(
    outage: &mut OutageState<K>,
    event: SubscriptionEvent<K>,
) -> (action: SubscriptionAction)
    ensures
        subscription_step(*old(outage), event, action, *final(outage)),
        action matches SubscriptionAction::Wait(backoff) ==> INITIAL_BACKOFF <= backoff.wait_secs
            <= MAX_BACKOFF,
{
    match event {
        SubscriptionEvent::LoopHead { cancelled } => if cancelled {
            SubscriptionAction::Stop
        } else {
            SubscriptionAction::Connect
        },
        SubscriptionEvent::Connected => SubscriptionAction::Drain {
            recovered: outage.on_recovery(),
        },
        SubscriptionEvent::ConnectFailed(kind) => SubscriptionAction::Wait(outage.on_error(kind)),
        SubscriptionEvent::Drained { outcome, drop_kind } => match outcome {
            DrainOutcome::Stop => SubscriptionAction::Stop,
            DrainOutcome::Reconnect => SubscriptionAction::Wait(outage.on_error(drop_kind)),
        },
    }
}

/// What arrives while a connection is drained.
pub enum DrainEvent {
    /// The connection closed.
    Closed,
    /// The subscription was cancelled.
    Cancelled,
    /// A message without a readable payload.
    Unreadable,
    /// A message with this payload.
    Payload(RedisValue),
}

/// What is done about what arrives.
pub enum DrainStep {
    /// Draining ends.
    End(DrainOutcome),
    /// There is nothing to forward.
    Skip,
    /// A message to broadcast.
    Forward(ByteMessage),
}

/// The bytes of a payload: binary data as it is, and the text of anything else that has one.
pub open spec fn payload_bytes(payload: RedisValue) -> Option<Seq<u8>> {
    match payload {
        RedisValue::Scalar(RedisScalar::BulkString(bytes)) => Some(bytes@),
        other => match value_text(other) {
            Some(text) => Some(encode_utf8(text)),
            None => None,
        },
    }
}

/// Decides what is done about what arrives while a connection is drained.
pub fn drain_messages(event: DrainEvent) -> (step: DrainStep)
    ensures
        match event {
            DrainEvent::Closed => step == DrainStep::End(DrainOutcome::Reconnect),
            DrainEvent::Cancelled => step == DrainStep::End(DrainOutcome::Stop),
            DrainEvent::Unreadable => step is Skip,
            DrainEvent::Payload(payload) => match payload_bytes(payload) {
                Some(bytes) => step matches DrainStep::Forward(message) && message@ == (WireBytes {
                    key: None,
                    value: bytes,
                }),
                None => step is Skip,
            },
        },
{
    match event {
        DrainEvent::Closed => DrainStep::End(DrainOutcome::Reconnect),
        DrainEvent::Cancelled => DrainStep::End(DrainOutcome::Stop),
        DrainEvent::Unreadable => DrainStep::Skip,
        DrainEvent::Payload(payload) => match payload {
            RedisValue::Scalar(RedisScalar::BulkString(bytes)) => DrainStep::Forward(
                ByteMessage::from_value(bytes),
            ),
            other => match redis_value_to_text(&other) {
                Ok(text) => DrainStep::Forward(
                    ByteMessage::from_value(utf8_bytes(text.as_str())),
                ),
                Err(_) => DrainStep::Skip,
            },
        },
    }
}

/// The subscription stops exactly when it is cancelled, at the head of its loop or while it drains;
/// a closed connection and a failed attempt only make it wait.
pub proof fn law_only_cancellation_stops_the_subscription<K: PartialEq>(
    before: OutageState<K>,
    event: SubscriptionEvent<K>,
    action: SubscriptionAction,
    after: OutageState<K>,
)
    requires
        subscription_step(before, event, action, after),
    ensures
        action == SubscriptionAction::Stop <==> match event {
            SubscriptionEvent::LoopHead { cancelled } => cancelled,
            SubscriptionEvent::Drained { outcome, .. } => outcome == DrainOutcome::Stop,
            _ => false,
        },
{
}

/// The kind of the error that an event of the subscription is, if it is one: a failed attempt to
/// connect, or a dropped connection.
pub open spec fn outage_kind<K>(event: SubscriptionEvent<K>) -> Option<K> {
    match event {
        SubscriptionEvent::ConnectFailed(kind) => Some(kind),
        SubscriptionEvent::Drained { outcome: DrainOutcome::Reconnect, drop_kind } => Some(
            drop_kind,
        ),
        _ => None,
    }
}

/// How many of the events before the `n`th one are failures, counted from the last successful
/// connection.
pub open spec fn failures_before<K>(events: Seq<SubscriptionEvent<K>>, n: int) -> nat
    decreases n,
{
    if n <= 0 || events[n - 1] is Connected {
        0
    } else if outage_kind(events[n - 1]) is Some {
        failures_before(events, n - 1) + 1
    } else {
        failures_before(events, n - 1)
    }
}

/// The kind of the last failure before the `n`th event, if there is one since the last successful
/// connection.
pub open spec fn failure_before<K>(events: Seq<SubscriptionEvent<K>>, n: int) -> Option<K>
    decreases n,
{
    if n <= 0 || events[n - 1] is Connected {
        None
    } else if outage_kind(events[n - 1]) is Some {
        outage_kind(events[n - 1])
    } else {
        failure_before(events, n - 1)
    }
}

/// The state before the `n`th event holds the wait that the failures before it have led to, and the
/// kind of the last one.
proof fn lemma_state_before_event<K: PartialEq>(
    start: OutageState<K>,
    states: Seq<&mut OutageState<K>>,
    events: Seq<SubscriptionEvent<K>>,
    actions: Seq<SubscriptionAction>,
    n: int,
)
    requires
        call_ensures(<OutageState<K> as Default>::default, (), start),
        states.len() == events.len(),
        states.len() > 0 ==> *states[0] == start,
        forall|i: int, j: int|
            0 <= i && j == i + 1 && j < states.len() ==> *final(#[trigger] states[i])
                == *#[trigger] states[j],
        forall|i: int|
            0 <= i < events.len() ==> call_ensures(
                start_stream::<K>,
                (#[trigger] states[i], events[i]),
                actions[i],
            ),
        0 <= n < events.len(),
    ensures
        states[n].wait() == backoff_after(failures_before(events, n)),
        states[n].last_kind() is Some <==> failure_before(events, n) is Some,
        failure_before(events, n) is Some <==> failures_before(events, n) > 0,
        is_partial_equivalence::<K>() ==> match failure_before(events, n) {
            Some(kind) => states[n].last_kind() matches Some(last) && (kind == last || kind.eq_spec(
                &last,
            )),
            None => true,
        },
    decreases n,
{
    if n > 0 {
        lemma_state_before_event(start, states, events, actions, n - 1);
        assert(*final(states[n - 1]) == *states[n]);
        assert(call_ensures(start_stream::<K>, (states[n - 1], events[n - 1]), actions[n - 1]));
    }
}

/// Whatever a subscription is told, from its start on: every failed attempt to connect and every
/// dropped connection is answered by a wait. The one that has `e` failures before it since the last
/// successful connection waits two to the power of `e` seconds, or half a minute where that is less,
/// and is reported exactly where the failure before it is not of the same kind. Nothing else is
/// waited for.
pub proof fn law_every_failure_waits_for_its_turn<K: PartialEq>(
    start: OutageState<K>,
    states: Seq<&mut OutageState<K>>,
    events: Seq<SubscriptionEvent<K>>,
    actions: Seq<SubscriptionAction>,
    n: int,
)
    requires
        call_ensures(<OutageState<K> as Default>::default, (), start),
        states.len() == events.len(),
        states.len() > 0 ==> *states[0] == start,
        forall|i: int, j: int|
            0 <= i && j == i + 1 && j < states.len() ==> *final(#[trigger] states[i])
                == *#[trigger] states[j],
        forall|i: int|
            0 <= i < events.len() ==> call_ensures(
                start_stream::<K>,
                (#[trigger] states[i], events[i]),
                actions[i],
            ),
        0 <= n < events.len(),
    ensures
        actions[n] is Wait <==> match events[n] {
            SubscriptionEvent::ConnectFailed(_) => true,
            SubscriptionEvent::Drained { outcome, .. } => outcome == DrainOutcome::Reconnect,
            _ => false,
        },
        actions[n] matches SubscriptionAction::Wait(backoff) ==> backoff.wait_secs == if pow2(
            failures_before(events, n),
        ) < 30 {
            pow2(failures_before(events, n)) as int
        } else {
            30
        },
        is_partial_equivalence::<K>() ==> (actions[n] matches SubscriptionAction::Wait(backoff)
            ==> backoff.report == !(failure_before(events, n) matches Some(earlier) && (
        outage_kind(events[n])->0).eq_spec(&earlier))),
{
    lemma_state_before_event(start, states, events, actions, n);
    law_backoff_doubles_up_to_the_cap(failures_before(events, n));
    assert(call_ensures(start_stream::<K>, (states[n], events[n]), actions[n]));
    if is_partial_equivalence::<K>() {
        if let Some(earlier) = failure_before(events, n) {
            let last = states[n].last_kind()->0;
            assert(earlier == last || last.eq_spec(&earlier));
            assert forall|kind: K| #[trigger] kind.eq_spec(&earlier) implies kind.eq_spec(&last) by {}
            assert forall|kind: K| #[trigger] kind.eq_spec(&last) implies kind.eq_spec(&earlier) by {}
        }
    }
}

/// Whatever a subscription is told, from its start on: it attempts to connect exactly at the head of
/// its loop, after it has looked whether it is cancelled; it drains exactly the connections that are
/// there, and logs a recovery exactly where there was a failure since the connection before; and it
/// stops exactly where it is cancelled.
pub proof fn law_subscription_connects_at_its_head<K: PartialEq>(
    start: OutageState<K>,
    states: Seq<&mut OutageState<K>>,
    events: Seq<SubscriptionEvent<K>>,
    actions: Seq<SubscriptionAction>,
    n: int,
)
    requires
        call_ensures(<OutageState<K> as Default>::default, (), start),
        states.len() == events.len(),
        states.len() > 0 ==> *states[0] == start,
        forall|i: int, j: int|
            0 <= i && j == i + 1 && j < states.len() ==> *final(#[trigger] states[i])
                == *#[trigger] states[j],
        forall|i: int|
            0 <= i < events.len() ==> call_ensures(
                start_stream::<K>,
                (#[trigger] states[i], events[i]),
                actions[i],
            ),
        0 <= n < events.len(),
    ensures
        actions[n] == SubscriptionAction::Connect <==> events[n] == (SubscriptionEvent::<
            K,
        >::LoopHead { cancelled: false }),
        actions[n] is Drain <==> events[n] is Connected,
        actions[n] matches SubscriptionAction::Drain { recovered } ==> recovered == (
        failures_before(events, n) > 0),
        actions[n] == SubscriptionAction::Stop <==> match events[n] {
            SubscriptionEvent::LoopHead { cancelled } => cancelled,
            SubscriptionEvent::Drained { outcome, .. } => outcome == DrainOutcome::Stop,
            _ => false,
        },
{
    lemma_state_before_event(start, states, events, actions, n);
    assert(call_ensures(start_stream::<K>, (states[n], events[n]), actions[n]));
}

/// While a connection is drained, nothing is lost and nothing is made up: binary data is forwarded
/// byte for byte, whatever the bytes are, and a message without a readable payload is skipped. Only
/// a closed connection is opened again, and only cancellation stops.
pub proof fn law_drained_bytes_are_forwarded(event: DrainEvent, step: DrainStep)
    requires
        call_ensures(drain_messages, (event,), step),
    ensures
        event matches DrainEvent::Payload(
            RedisValue::Scalar(RedisScalar::BulkString(bytes)),
        ) ==> (step matches DrainStep::Forward(message) && message@.value == bytes@
            && message@.key is None),
        event matches DrainEvent::Payload(
            RedisValue::Scalar(RedisScalar::SimpleString(text)),
        ) ==> (step matches DrainStep::Forward(message) && message@.value == encode_utf8(text@)
            && message@.key is None),
        event matches DrainEvent::Payload(RedisValue::Scalar(RedisScalar::Nil)) ==> step is Skip,
        event is Unreadable ==> step is Skip,
        step == DrainStep::End(DrainOutcome::Reconnect) <==> event is Closed,
        step == DrainStep::End(DrainOutcome::Stop) <==> event is Cancelled,
{
}

/// A payload that is not binary data is forwarded as the UTF-8 bytes of its text, without a key, and
/// skipped exactly if it has none.
pub proof fn law_drained_text_is_forwarded(
    payload: RedisValue,
    text: Result<String, redis::ParsingError>,
    step: DrainStep,
)
    requires
        !(payload matches RedisValue::Scalar(RedisScalar::BulkString(_))),
        call_ensures(redis_value_to_text, (&payload,), text),
        call_ensures(drain_messages, (DrainEvent::Payload(payload),), step),
    ensures
        match text {
            Ok(text) => step matches DrainStep::Forward(message) && message@.value == encode_utf8(
                text@,
            ) && message@.key is None,
            Err(_) => step is Skip,
        },
{
}

} // verus!
