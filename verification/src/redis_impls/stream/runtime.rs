//! What the background Redis Stream poller decides.
//!
//! The poller repeatedly issues `XREAD` calls, converts each returned entry into a
//! [`ByteMessage`] and broadcasts it to every listener of its host and topic. Connection errors and
//! `XREAD` failures are absorbed: they are logged once per kind, and the poller reconnects after a
//! wait that doubles up to a cap.
use vstd::arithmetic::power2::pow2;
use vstd::prelude::*;
use vstd::std_specs::cmp::PartialEqSpec;
use vstd::string::*;

use super::{
    carries_entry, entry_fields, holds_texts, lemma_entry_of_texts, stream_entry_to_byte_message,
    wire_models, StreamId,
};
use crate::backoff::{
    after_error, backoff_after, is_calm, is_partial_equivalence, law_backoff_doubles_up_to_the_cap,
    Backoff, OutageState, INITIAL_BACKOFF, MAX_BACKOFF,
};
use crate::error::PubSubError;
use crate::message::{ByteMessage, Message, WireBytes};
use crate::queue::Queue;
use crate::redis_impls::json::{flat_object, json_string_map, writes, JsonTree};

verus! {

/// Redis `XREAD BLOCK` duration, in milliseconds, of each poll request.
pub const READ_BLOCK_TIME_MS: usize = 250;

/// What the poller is told.
pub enum StreamEvent<K> {
    /// The loop starts over, and has looked whether it is cancelled.
    LoopHead { cancelled: bool },
    /// The connection is there.
    Connected,
    /// Connecting failed.
    ConnectFailed(K),
    /// Polling was interrupted by cancellation.
    Interrupted,
    /// An `XREAD` call failed.
    ReadFailed(K),
}

/// What the poller does next.
#[derive(Clone, Copy, Debug, PartialEq, Eq, Structural)]
pub enum StreamAction {
    /// Start the loop over.
    LoopAgain,
    /// End the loop.
    Stop,
    /// Get a connection to the host.
    Connect,
    /// Poll for entries; log the recovery where there was an outage.
    Poll { recovered: bool },
    /// Wait before the next attempt.
    Wait(Backoff),
    /// Drop the cached connection to the host, and wait before the next attempt.
    EvictAndWait(Backoff),
}

/// Whether an event may take the poller from one state to the other, with this action.
pub open spec fn stream_step<K: PartialEq>(
    before: OutageState<K>,
    event: StreamEvent<K>,
    action: StreamAction,
    after: OutageState<K>,
) -> bool {
    match event {
        StreamEvent::LoopHead { cancelled } => after == before && action == if cancelled {
            StreamAction::Stop
        } else {
            StreamAction::Connect
        },
        StreamEvent::Connected => is_calm(after) && action == (StreamAction::Poll {
            recovered: before.last_kind() is Some,
        }),
        StreamEvent::ConnectFailed(kind) => action matches StreamAction::Wait(backoff)
            && after_error(before, kind, backoff, after),
        StreamEvent::Interrupted => after == before && action == StreamAction::LoopAgain,
        StreamEvent::ReadFailed(kind) => action matches StreamAction::EvictAndWait(backoff)
            && after_error(before, kind, backoff, after),
    }
}

/// Decides what the poller does next.
pub fn start_stream<K: PartialEq>(
    outage: &mut OutageState<K>,
    event: StreamEvent<K>,
) -> (action: StreamAction)
    ensures
        stream_step(*old(outage), event, action, *final(outage)),
        action matches StreamAction::Wait(backoff) ==> INITIAL_BACKOFF <= backoff.wait_secs
            <= MAX_BACKOFF,
        action matches StreamAction::EvictAndWait(backoff) ==> INITIAL_BACKOFF
            <= backoff.wait_secs <= MAX_BACKOFF,
{
    match event {
        StreamEvent::LoopHead { cancelled } => if cancelled {
            StreamAction::Stop
        } else {
            StreamAction::Connect
        },
        StreamEvent::Connected => StreamAction::Poll { recovered: outage.on_recovery() },
        StreamEvent::ConnectFailed(kind) => StreamAction::Wait(outage.on_error(kind)),
        StreamEvent::Interrupted => StreamAction::LoopAgain,
        StreamEvent::ReadFailed(kind) => StreamAction::EvictAndWait(outage.on_error(kind)),
    }
}

/// Where the poller stands in a stream: behind the entry it has seen last.
pub struct ReadCursor {
    latest_id: String,
}

/// Whether messages carry those entries whose fields can be normalized, in order.
pub open spec fn forwards(entries: Seq<StreamId>, messages: Seq<WireBytes>) -> bool
    decreases entries.len(),
{
    if entries.len() == 0 {
        messages.len() == 0
    } else if entry_fields(entries.last()) is None {
        forwards(entries.drop_last(), messages)
    } else {
        &&& messages.len() > 0
        &&& carries_entry(entries.last(), Some(messages.last()))
        &&& forwards(entries.drop_last(), messages.drop_last())
    }
}

impl ReadCursor {
    /// The identifier of the entry seen last; `$` before the first.
    pub closed spec fn seen(&self) -> Seq<char> {
        self.latest_id@
    }

    /// Starts at the end of the stream, so that only new entries are read.
    pub fn new() -> (cursor: Self)
        ensures
            cursor.seen() == "$"@,
    {
        ReadCursor { latest_id: "$".to_string() }
    }

    /// Returns the identifier behind which to read.
    pub fn latest_id(&self) -> (id: &str)
        ensures
            id@ == self.seen(),
    {
        self.latest_id.as_str()
    }

    /// Takes in the entries of a reply, and returns the messages to broadcast. An entry that cannot
    /// be converted is skipped, and counts as seen.
    pub fn monitor_stream(&mut self, entries: Vec<StreamId>) -> (messages: Vec<ByteMessage>)
        ensures
            forwards(entries@, wire_models(messages@)),
            final(self).seen() == if entries@.len() == 0 {
                old(self).seen()
            } else {
                entries@.last().id@
            },
    {
        let mut left = Queue::new(entries);
        let mut messages: Vec<ByteMessage> = Vec::new();
        let ghost mut done: int = 0;
        proof {
            assert(entries@.skip(0) =~= entries@);
            assert(entries@.take(0) =~= seq![]);
        }
        while left.len() > 0
            invariant
                0 <= done <= entries@.len(),
                left@ == entries@.skip(done),
                forwards(entries@.take(done), wire_models(messages@)),
                self.seen() == if done == 0 {
                    old(self).seen()
                } else {
                    entries@[done - 1].id@
                },
            decreases left@.len(),
        {
            let ghost before = wire_models(messages@);
            let entry = left.take();
            assert(entry == entries@[done]);
            self.latest_id = entry.id.clone();
            proof {
                let upto = entries@.take(done + 1);
                assert(upto.drop_last() =~= entries@.take(done));
                assert(upto.last() == entry);
                assert(left@ =~= entries@.skip(done + 1));
                done = done + 1;
            }
            match stream_entry_to_byte_message(entry) {
                Ok(message) => {
                    messages.push(message);
                    assert(wire_models(messages@) =~= before.push(message@));
                    assert(wire_models(messages@).drop_last() =~= before);
                },
                Err(_) => {},
            }
        }
        assert(entries@.take(done) =~= entries@);
        messages
    }
}

/// How entries are split over replies makes no difference: what two replies forward, one behind the
/// other, is what a single reply with all their entries forwards. So every entry that can be
/// converted is forwarded once, in order.
pub proof fn law_replies_may_be_split(
    first: Seq<StreamId>,
    first_messages: Seq<WireBytes>,
    second: Seq<StreamId>,
    second_messages: Seq<WireBytes>,
)
    requires
        forwards(first, first_messages),
        forwards(second, second_messages),
    ensures
        forwards(first + second, first_messages + second_messages),
    decreases second.len(),
{
    let entries = first + second;
    let messages = first_messages + second_messages;
    if second.len() == 0 {
        assert(entries =~= first);
        assert(messages =~= first_messages);
    } else {
        assert(entries.last() == second.last());
        assert(entries.drop_last() =~= first + second.drop_last());
        if entry_fields(second.last()) is None {
            law_replies_may_be_split(first, first_messages, second.drop_last(), second_messages);
        } else {
            law_replies_may_be_split(
                first,
                first_messages,
                second.drop_last(),
                second_messages.drop_last(),
            );
            assert(messages.last() == second_messages.last());
            assert(messages.drop_last() =~= first_messages + second_messages.drop_last());
        }
    }
}

/// The poller stops exactly when it is cancelled at the head of its loop; nothing else ends it.
pub proof fn law_only_cancellation_stops_the_poller<K: PartialEq>(
    before: OutageState<K>,
    event: StreamEvent<K>,
    action: StreamAction,
    after: OutageState<K>,
)
    requires
        stream_step(before, event, action, after),
    ensures
        action == StreamAction::Stop <==> event == (StreamEvent::<K>::LoopHead { cancelled: true }),
{
}

/// The kind of the error that an event of the poller is, if it is one: a failed attempt to connect,
/// or a failed `XREAD` call.
pub open spec fn outage_kind<K>(event: StreamEvent<K>) -> Option<K> {
    match event {
        StreamEvent::ConnectFailed(kind) => Some(kind),
        StreamEvent::ReadFailed(kind) => Some(kind),
        _ => None,
    }
}

/// How many of the events before the `n`th one are failures, counted from the last successful
/// connection.
pub open spec fn failures_before<K>(events: Seq<StreamEvent<K>>, n: int) -> nat
    decreases n,
{
    if n <= 0 || events[n - 1] is Connected {
        0
    } else if outage_kind(events[n - 1]) is Some {
        failures_before(events, n - 1) + 1
    } else {
        failures_before(events, n - 1)
    }
}

/// The kind of the last failure before the `n`th event, if there is one since the last successful
/// connection.
pub open spec fn failure_before<K>(events: Seq<StreamEvent<K>>, n: int) -> Option<K>
    decreases n,
{
    if n <= 0 || events[n - 1] is Connected {
        None
    } else if outage_kind(events[n - 1]) is Some {
        outage_kind(events[n - 1])
    } else {
        failure_before(events, n - 1)
    }
}

/// The state before the `n`th event holds the wait that the failures before it have led to, and the
/// kind of the last one.
proof fn lemma_state_before_event<K: PartialEq>(
    start: OutageState<K>,
    states: Seq<&mut OutageState<K>>,
    events: Seq<StreamEvent<K>>,
    actions: Seq<StreamAction>,
    n: int,
)
    requires
        call_ensures(<OutageState<K> as Default>::default, (), start),
        states.len() == events.len(),
        states.len() > 0 ==> *states[0] == start,
        forall|i: int, j: int|
            0 <= i && j == i + 1 && j < states.len() ==> *final(#[trigger] states[i])
                == *#[trigger] states[j],
        forall|i: int|
            0 <= i < events.len() ==> call_ensures(
                start_stream::<K>,
                (#[trigger] states[i], events[i]),
                actions[i],
            ),
        0 <= n < events.len(),
    ensures
        states[n].wait() == backoff_after(failures_before(events, n)),
        states[n].last_kind() is Some <==> failure_before(events, n) is Some,
        failure_before(events, n) is Some <==> failures_before(events, n) > 0,
        is_partial_equivalence::<K>() ==> match failure_before(events, n) {
            Some(kind) => states[n].last_kind() matches Some(last) && (kind == last || kind.eq_spec(
                &last,
            )),
            None => true,
        },
    decreases n,
{
    if n > 0 {
        lemma_state_before_event(start, states, events, actions, n - 1);
        assert(*final(states[n - 1]) == *states[n]);
        assert(call_ensures(start_stream::<K>, (states[n - 1], events[n - 1]), actions[n - 1]));
    }
}

/// Whatever the poller is told, from its start on: every failed attempt to connect is answered by a
/// wait, and every failed `XREAD` call by dropping the connection and a wait. The failure that has
/// `e` failures before it since the last successful connection waits two to the power of `e`
/// seconds, or half a minute where that is less, and is reported exactly where the failure before it
/// is not of the same kind.
pub proof fn law_every_failure_waits_for_its_turn<K: PartialEq>(
    start: OutageState<K>,
    states: Seq<&mut OutageState<K>>,
    events: Seq<StreamEvent<K>>,
    actions: Seq<StreamAction>,
    n: int,
)
    requires
        call_ensures(<OutageState<K> as Default>::default, (), start),
        states.len() == events.len(),
        states.len() > 0 ==> *states[0] == start,
        forall|i: int, j: int|
            0 <= i && j == i + 1 && j < states.len() ==> *final(#[trigger] states[i])
                == *#[trigger] states[j],
        forall|i: int|
            0 <= i < events.len() ==> call_ensures(
                start_stream::<K>,
                (#[trigger] states[i], events[i]),
                actions[i],
            ),
        0 <= n < events.len(),
    ensures
        actions[n] is Wait <==> events[n] is ConnectFailed,
        actions[n] is EvictAndWait <==> events[n] is ReadFailed,
        match actions[n] {
            StreamAction::Wait(backoff) | StreamAction::EvictAndWait(backoff) => {
                &&& backoff.wait_secs == if pow2(failures_before(events, n)) < 30 {
                    pow2(failures_before(events, n)) as int
                } else {
                    30
                }
                &&& is_partial_equivalence::<K>() ==> backoff.report == !(failure_before(
                    events,
                    n,
                ) matches Some(earlier) && (outage_kind(events[n])->0).eq_spec(&earlier))
            },
            _ => true,
        },
{
    lemma_state_before_event(start, states, events, actions, n);
    law_backoff_doubles_up_to_the_cap(failures_before(events, n));
    assert(call_ensures(start_stream::<K>, (states[n], events[n]), actions[n]));
    if is_partial_equivalence::<K>() {
        if let Some(earlier) = failure_before(events, n) {
            let last = states[n].last_kind()->0;
            assert(earlier == last || last.eq_spec(&earlier));
            assert forall|kind: K| #[trigger] kind.eq_spec(&earlier) implies kind.eq_spec(&last) by {}
            assert forall|kind: K| #[trigger] kind.eq_spec(&last) implies kind.eq_spec(&earlier) by {}
        }
    }
}

/// Whatever the poller is told, from its start on: it asks for a connection exactly at the head of
/// its loop, after it has looked whether it is cancelled; it polls exactly the connections that are
/// there, and logs a recovery exactly where there was a failure since the connection before; an
/// interruption leads back to the head of the loop, and only there does it stop.
pub proof fn law_poller_connects_at_its_head<K: PartialEq>(
    start: OutageState<K>,
    states: Seq<&mut OutageState<K>>,
    events: Seq<StreamEvent<K>>,
    actions: Seq<StreamAction>,
    n: int,
)
    requires
        call_ensures(<OutageState<K> as Default>::default, (), start),
        states.len() == events.len(),
        states.len() > 0 ==> *states[0] == start,
        forall|i: int, j: int|
            0 <= i && j == i + 1 && j < states.len() ==> *final(#[trigger] states[i])
                == *#[trigger] states[j],
        forall|i: int|
            0 <= i < events.len() ==> call_ensures(
                start_stream::<K>,
                (#[trigger] states[i], events[i]),
                actions[i],
            ),
        0 <= n < events.len(),
    ensures
        actions[n] == StreamAction::Connect <==> events[n] == (StreamEvent::<K>::LoopHead {
            cancelled: false,
        }),
        actions[n] == StreamAction::Stop <==> events[n] == (StreamEvent::<K>::LoopHead {
            cancelled: true,
        }),
        actions[n] is Poll <==> events[n] is Connected,
        actions[n] matches StreamAction::Poll { recovered } ==> recovered == (failures_before(
            events,
            n,
        ) > 0),
        actions[n] == StreamAction::LoopAgain <==> events[n] is Interrupted,
{
    lemma_state_before_event(start, states, events, actions, n);
    assert(call_ensures(start_stream::<K>, (states[n], events[n]), actions[n]));
}

/// Among the entries that messages forward, each one stands at a place of its own.
proof fn lemma_forwarded_places(entries: Seq<StreamId>, messages: Seq<WireBytes>) -> (places: Seq<
    int,
>)
    requires
        forwards(entries, messages),
    ensures
        places.len() == messages.len(),
        forall|k: int| 0 <= k < places.len() ==> 0 <= #[trigger] places[k] < entries.len(),
        forall|k: int, l: int|
            0 <= k < l < places.len() ==> #[trigger] places[k] < #[trigger] places[l],
        forall|k: int|
            0 <= k < places.len() ==> entry_fields(entries[#[trigger] places[k]]) is Some
                && carries_entry(entries[places[k]], Some(messages[k])),
        forall|i: int|
            0 <= i < entries.len() && entry_fields(#[trigger] entries[i]) is Some
                ==> places.contains(i),
    decreases entries.len(),
{
    if entries.len() == 0 {
        Seq::empty()
    } else {
        let front = entries.drop_last();
        let last = entries.len() - 1;
        if entry_fields(entries.last()) is None {
            let places = lemma_forwarded_places(front, messages);
            assert forall|i: int| 0 <= i < entries.len() && entry_fields(
                #[trigger] entries[i],
            ) is Some implies places.contains(i) by {
                assert(front[i] == entries[i]);
            }
            assert forall|k: int| 0 <= k < places.len() implies entry_fields(
                entries[#[trigger] places[k]],
            ) is Some && carries_entry(entries[places[k]], Some(messages[k])) by {
                assert(front[places[k]] == entries[places[k]]);
            }
            places
        } else {
            let earlier = lemma_forwarded_places(front, messages.drop_last());
            let places = earlier.push(last);
            assert forall|i: int| 0 <= i < entries.len() && entry_fields(
                #[trigger] entries[i],
            ) is Some implies places.contains(i) by {
                if i < last {
                    assert(front[i] == entries[i]);
                    let k = choose|k: int| 0 <= k < earlier.len() && earlier[k] == i;
                    assert(places[k] == i);
                } else {
                    assert(places[places.len() - 1] == i);
                }
            }
            assert forall|k: int| 0 <= k < places.len() implies entry_fields(
                entries[#[trigger] places[k]],
            ) is Some && carries_entry(entries[places[k]], Some(messages[k])) by {
                if k < earlier.len() {
                    assert(earlier[k] == places[k]);
                    assert(front[places[k]] == entries[places[k]]);
                    assert(messages.drop_last()[k] == messages[k]);
                }
            }
            places
        }
    }
}

/// Every entry of a reply whose fields can be normalized is forwarded once, in order, and nothing
/// else is: the messages stand for the entries at some places, one for each and in their order; the
/// `k`th message carries the JSON object of the fields of the `k`th of these entries, without a key;
/// and those places are exactly the ones of the entries whose fields can be normalized.
pub proof fn law_every_readable_entry_is_forwarded(
    cursor: &mut ReadCursor,
    entries: Vec<StreamId>,
    messages: Vec<ByteMessage>,
)
    requires
        call_ensures(ReadCursor::monitor_stream, (cursor, entries), messages),
    ensures
        exists|places: Seq<int>|
            {
                &&& #[trigger] places.len() == messages@.len()
                &&& forall|k: int, l: int|
                    0 <= k < l < places.len() ==> #[trigger] places[k] < #[trigger] places[l]
                &&& forall|i: int| #[trigger]
                    places.contains(i) <==> 0 <= i < entries@.len() && entry_fields(
                        entries@[i],
                    ) is Some
                &&& forall|k: int|
                    0 <= k < places.len() ==> (#[trigger] messages@[k])@.key is None && writes(
                        JsonTree::Object(entry_fields(entries@[places[k]])->0),
                        messages@[k]@.value,
                    )
            },
        entries@.len() == 1 && entry_fields(entries@[0]) is Some ==> messages@.len() == 1 && writes(
            JsonTree::Object(entry_fields(entries@[0])->0),
            messages@[0]@.value,
        ),
{
    let wires = wire_models(messages@);
    let places = lemma_forwarded_places(entries@, wires);
    assert forall|i: int| #[trigger] places.contains(i) implies 0 <= i < entries@.len()
        && entry_fields(entries@[i]) is Some by {
        let k = choose|k: int| 0 <= k < places.len() && places[k] == i;
        assert(0 <= places[k] < entries@.len());
    }
    assert forall|k: int| 0 <= k < places.len() implies (#[trigger] messages@[k])@.key is None
        && writes(
        JsonTree::Object(entry_fields(entries@[places[k]])->0),
        messages@[k]@.value,
    ) by {
        assert(wires[k] == messages@[k]@);
        assert(carries_entry(entries@[places[k]], Some(wires[k])));
    }
    assert(places.len() == messages@.len());
    if entries@.len() == 1 && entry_fields(entries@[0]) is Some {
        assert(places.contains(0));
        if places.len() > 1 {
            assert(places[0] < places[1]);
            assert(places[1] < entries@.len());
        }
        assert(messages@[0]@.key is None);
    }
}

/// Entries of texts are all forwarded, however many fields they have: one message for each, in
/// order, without a key, and with a JSON object of exactly its texts as the payload. The cursor
/// stands behind the last of them then.
pub proof fn law_every_entry_of_texts_is_forwarded(
    cursor: &mut ReadCursor,
    entries: Vec<StreamId>,
    fields: Seq<Map<Seq<char>, Seq<char>>>,
    messages: Vec<ByteMessage>,
    seen: &str,
)
    requires
        call_ensures(ReadCursor::monitor_stream, (cursor, entries), messages),
        call_ensures(ReadCursor::latest_id, (final(cursor),), seen),
        fields.len() == entries@.len(),
        forall|i: int|
            0 <= i < entries@.len() ==> holds_texts(#[trigger] entries@[i], fields[i]),
    ensures
        messages@.len() == entries@.len(),
        forall|i: int|
            0 <= i < messages@.len() ==> (#[trigger] messages@[i])@.key is None
                && json_string_map(messages@[i]@.value) == Some(fields[i]),
        entries@.len() > 0 ==> seen@ == entries@.last().id@,
        entries@.len() == 0 ==> final(cursor).seen() == old(cursor).seen(),
{
    let wires = wire_models(messages@);
    lemma_texts_are_forwarded(entries@, fields, wires);
    assert forall|i: int| 0 <= i < messages@.len() implies (#[trigger] messages@[i])@.key is None
        && json_string_map(messages@[i]@.value) == Some(fields[i]) by {
        assert(wires[i] == messages@[i]@);
    }
}

proof fn lemma_texts_are_forwarded(
    entries: Seq<StreamId>,
    fields: Seq<Map<Seq<char>, Seq<char>>>,
    wires: Seq<WireBytes>,
)
    requires
        forwards(entries, wires),
        fields.len() == entries.len(),
        forall|i: int| 0 <= i < entries.len() ==> holds_texts(#[trigger] entries[i], fields[i]),
    ensures
        wires.len() == entries.len(),
        forall|i: int|
            0 <= i < wires.len() ==> (#[trigger] wires[i]).key is None && json_string_map(
                wires[i].value,
            ) == Some(fields[i]),
    decreases entries.len(),
{
    if entries.len() > 0 {
        let last = entries.len() - 1;
        assert(holds_texts(entries[last], fields[last]));
        lemma_entry_of_texts(entries[last], fields[last]);
        assert(entries.last() == entries[last]);
        let front = entries.drop_last();
        assert forall|i: int| 0 <= i < front.len() implies holds_texts(
            #[trigger] front[i],
            fields.drop_last()[i],
        ) by {
            assert(holds_texts(entries[i], fields[i]));
        }
        lemma_texts_are_forwarded(front, fields.drop_last(), wires.drop_last());
        assert(writes(flat_object(fields[last]), wires.last().value));
        assert forall|i: int| 0 <= i < wires.len() implies (#[trigger] wires[i]).key is None
            && json_string_map(wires[i].value) == Some(fields[i]) by {
            if i < last {
                assert(wires.drop_last()[i] == wires[i]);
            }
        }
    }
}

/// A new poller reads from the end of the stream on, and until an entry arrives it stays there.
pub proof fn law_poller_starts_at_the_end_of_the_stream(
    cursor: &mut ReadCursor,
    start: ReadCursor,
    first: &str,
    entries: Vec<StreamId>,
    messages: Vec<ByteMessage>,
    next: &str,
)
    requires
        call_ensures(ReadCursor::new, (), start),
        call_ensures(ReadCursor::latest_id, (&start,), first),
        *cursor == start,
        call_ensures(ReadCursor::monitor_stream, (cursor, entries), messages),
        call_ensures(ReadCursor::latest_id, (final(cursor),), next),
    ensures
        first@ == seq!['$'],
        entries@.len() == 0 ==> next@ == first@ && messages@.len() == 0,
        entries@.len() > 0 ==> next@ == entries@[entries@.len() - 1].id@,
{
    reveal_strlit("$");
    assert("$"@ =~= seq!['$']);
    assert(wire_models(messages@).len() == messages@.len());
}

/// What is forwarded is what is made of the entries one by one: the entries that make a message are
/// forwarded, once and in order, each as that very message, and the others are not.
pub proof fn law_forwarded_messages_are_those_of_the_entries(
    cursor: &mut ReadCursor,
    entries: Vec<StreamId>,
    made: Seq<Result<ByteMessage, PubSubError>>,
    messages: Vec<ByteMessage>,
)
    requires
        call_ensures(ReadCursor::monitor_stream, (cursor, entries), messages),
        made.len() == entries@.len(),
        forall|i: int|
            0 <= i < entries@.len() ==> call_ensures(
                stream_entry_to_byte_message,
                (#[trigger] entries@[i],),
                made[i],
            ),
    ensures
        exists|places: Seq<int>|
            {
                &&& #[trigger] places.len() == messages@.len()
                &&& forall|k: int, l: int|
                    0 <= k < l < places.len() ==> #[trigger] places[k] < #[trigger] places[l]
                &&& forall|i: int| #[trigger]
                    places.contains(i) <==> 0 <= i < entries@.len() && made[i] is Ok
                &&& forall|k: int|
                    0 <= k < places.len() ==> (#[trigger] messages@[k])@
                        == made[places[k]]->Ok_0@
            },
{
    let wires = wire_models(messages@);
    let places = lemma_forwarded_places(entries@, wires);
    assert forall|i: int| #[trigger] places.contains(i) <==> 0 <= i < entries@.len()
        && made[i] is Ok by {
        if places.contains(i) {
            let k = choose|k: int| 0 <= k < places.len() && places[k] == i;
            assert(0 <= places[k] < entries@.len());
        }
        if 0 <= i < entries@.len() {
            assert(call_ensures(stream_entry_to_byte_message, (entries@[i],), made[i]));
        }
    }
    assert forall|k: int| 0 <= k < places.len() implies (#[trigger] messages@[k])@
        == made[places[k]]->Ok_0@ by {
        let i = places[k];
        assert(wires[k] == messages@[k]@);
        assert(carries_entry(entries@[i], Some(wires[k])));
        assert(call_ensures(stream_entry_to_byte_message, (entries@[i],), made[i]));
    }
    assert(places.len() == messages@.len());
}

} // verus!
