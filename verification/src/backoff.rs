//! Shared exponential-backoff state for broker reconnect loops.
//!
//! Both the Redis and Kafka backends use the same backoff-and-log pattern: sleep for the current
//! wait, double it (capped at [`MAX_BACKOFF`]), and suppress repeated log lines for the same error
//! kind until the error changes or the connection recovers.
//!
//! Two error-reporting methods are provided:
//!
//! - [`OutageState::on_error`] says how long to sleep and advances the timer. It is for
//!   **reconnect loops**, where sleeping between attempts is correct.
//! - [`OutageState::record_error`] updates the state without touching the timer. It is for
//!   message-processing loops, where blocking the stream would be wrong.
//!
//! Neither logs nor sleeps by itself: each says whether the error is worth a log line, and the
//! caller that owns the clock does the waiting.
use vstd::arithmetic::power2::pow2;
use vstd::prelude::*;
use vstd::std_specs::cmp::PartialEqSpec;

verus! {

/// Longest wait, in seconds, applied after connection failures.
pub const MAX_BACKOFF: u64 = 30;

/// Wait, in seconds, applied after the first connection failure.
pub const INITIAL_BACKOFF: u64 = 1;

/// Tracks the error-deduplication and backoff state for a single reconnect loop.
///
/// `K` is the "error kind" key used for deduplication. Any `PartialEq` type works.
///
/// Call [`OutageState::on_error`] when an error occurs and [`OutageState::on_recovery`] when the
/// connection is restored.
pub struct OutageState<K: PartialEq> {
    last_error_kind: Option<K>,
    next_backoff: u64,
}

/// What a reconnect loop does about an error.
#[derive(Clone, Copy, Debug, PartialEq, Eq, Structural)]
pub struct Backoff {
    /// Whether the error is of a kind not reported yet, so that it should be logged.
    pub report: bool,
    /// Seconds to sleep before the next attempt.
    pub wait_secs: u64,
}

/// The wait that follows a wait of `secs` seconds.
pub open spec fn advanced(secs: int) -> int {
    if secs * 2 < MAX_BACKOFF {
        secs * 2
    } else {
        MAX_BACKOFF as int
    }
}

/// The wait in force after `errors` consecutive errors since the last recovery.
pub open spec fn backoff_after(errors: nat) -> int
    decreases errors,
{
    if errors == 0 {
        INITIAL_BACKOFF as int
    } else {
        advanced(backoff_after((errors - 1) as nat))
    }
}

/// Whether recording an error of this kind may turn one last kind into the other: the error is
/// reported, and remembered, unless its kind is the one reported last.
pub open spec fn recorded<K: PartialEq>(
    before: OutageState<K>,
    kind: K,
    report: bool,
    after: OutageState<K>,
) -> bool {
    &&& before.is_news(kind, report)
    &&& K::obeys_eq_spec() ==> report == !(before.last_kind() matches Some(last) && kind.eq_spec(
        &last,
    ))
    &&& after.last_kind() == if report {
        Some(kind)
    } else {
        before.last_kind()
    }
    &&& after.last_kind() is Some
}

/// Whether an error of this kind may turn one state into the other and be answered by `backoff`: it
/// is recorded, the wait in force is owed whether it is reported or not, and the next wait is the
/// advanced one.
pub open spec fn after_error<K: PartialEq>(
    before: OutageState<K>,
    kind: K,
    backoff: Backoff,
    after: OutageState<K>,
) -> bool {
    &&& recorded(before, kind, backoff.report, after)
    &&& backoff.wait_secs == before.wait()
    &&& after.wait() == advanced(before.wait())
}

/// Whether a state is one without an outage, with the wait at its start.
pub open spec fn is_calm<K: PartialEq>(state: OutageState<K>) -> bool {
    state.last_kind() is None && state.wait() == INITIAL_BACKOFF
}

impl<K: PartialEq> Default for OutageState<K> {
    fn default() -> (state: Self)
        ensures
            is_calm(state),
    {
        OutageState { last_error_kind: None, next_backoff: INITIAL_BACKOFF }
    }
}

impl<K: PartialEq> OutageState<K> {
    #[verifier::type_invariant]
    spec fn wait_in_range(self) -> bool {
        INITIAL_BACKOFF <= self.next_backoff <= MAX_BACKOFF
    }

    /// The kind of the error reported last, while an outage is in progress.
    pub closed spec fn last_kind(&self) -> Option<K> {
        self.last_error_kind
    }

    /// The seconds that the next failed attempt will wait.
    pub closed spec fn wait(&self) -> int {
        self.next_backoff as int
    }

    /// Whether an error of this kind is told apart from the one reported last, as the kind's own
    /// `==` decides.
    pub open spec fn is_news(&self, kind: K, news: bool) -> bool {
        match self.last_kind() {
            None => news,
            Some(last) => call_ensures(K::eq, (&kind, &last), !news),
        }
    }

    /// Returns `true` if an outage is currently in progress (i.e. at least one error has been
    /// seen since the last recovery).
    pub fn is_in_outage(&self) -> (outage: bool)
        ensures
            outage == (self.last_kind() is Some),
    {
        self.last_error_kind.is_some()
    }

    /// Returns the kind of the error reported last, if an outage is in progress.
    pub fn last_error_kind(&self) -> (kind: Option<&K>)
        ensures
            kind is Some <==> self.last_kind() is Some,
            kind matches Some(last) ==> self.last_kind() == Some(*last),
    {
        self.last_error_kind.as_ref()
    }

    /// Returns the seconds that the next failed attempt will wait.
    pub fn next_backoff(&self) -> (secs: u64)
        ensures
            secs == self.wait(),
            INITIAL_BACKOFF <= secs <= MAX_BACKOFF,
    {
        proof {
            use_type_invariant(self);
        }
        self.next_backoff
    }

    /// Updates the outage state (deduplicated by `K`) without touching the backoff timer.
    ///
    /// Returns `true` if this was a new error kind, which should be logged, `false` if the same
    /// kind was already recorded.
    pub fn record_error(&mut self, kind: K) -> (report: bool)
        ensures
            recorded(*old(self), kind, report, *final(self)),
            final(self).wait() == old(self).wait(),
    {
        proof {
            use_type_invariant(&*self);
        }
        let report = match &self.last_error_kind {
            Some(last) => !(kind == *last),
            None => true,
        };
        if report {
            self.last_error_kind = Some(kind);
        }
        report
    }

    /// Records the error, says how long to sleep, and advances the backoff timer.
    ///
    /// The wait is owed on every error, a repeated one too; only the log line is deduplicated.
    pub fn on_error(&mut self, kind: K) -> (backoff: Backoff)
        ensures
            after_error(*old(self), kind, backoff, *final(self)),
            INITIAL_BACKOFF <= backoff.wait_secs <= MAX_BACKOFF,
    {
        proof {
            use_type_invariant(&*self);
        }
        let report = self.record_error(kind);
        let wait_secs = self.next_backoff;
        let doubled: u64 = wait_secs * 2;
        self.next_backoff = if doubled < MAX_BACKOFF {
            doubled
        } else {
            MAX_BACKOFF
        };
        Backoff { report, wait_secs }
    }

    /// Resets the outage state after a successful connection.
    ///
    /// Returns `true` if the state was previously in an outage, so that the caller can log a
    /// recovery message.
    pub fn on_recovery(&mut self) -> (was_in_outage: bool)
        ensures
            was_in_outage == (old(self).last_kind() is Some),
            is_calm(*final(self)),
    {
        proof {
            use_type_invariant(&*self);
        }
        let was_in_outage = self.is_in_outage();
        self.last_error_kind = None;
        self.next_backoff = INITIAL_BACKOFF;
        was_in_outage
    }
}

/// The wait starts at one second and doubles with each consecutive error until it reaches the cap,
/// where it stays.
pub proof fn law_backoff_doubles_up_to_the_cap(errors: nat)
    ensures
        backoff_after(errors) == if pow2(errors) < MAX_BACKOFF {
            pow2(errors) as int
        } else {
            MAX_BACKOFF as int
        },
    decreases errors,
{
    if errors == 0 {
        vstd::arithmetic::power2::lemma2_to64();
    } else {
        law_backoff_doubles_up_to_the_cap((errors - 1) as nat);
        vstd::arithmetic::power2::lemma_pow2_unfold(errors);
    }
}

/// More consecutive errors never shorten the wait, and no wait leaves the range from the initial
/// wait to the cap.
pub proof fn law_backoff_never_shrinks_during_an_outage(fewer: nat, more: nat)
    requires
        fewer <= more,
    ensures
        INITIAL_BACKOFF <= backoff_after(fewer) <= backoff_after(more) <= MAX_BACKOFF,
    decreases more,
{
    if fewer < more {
        law_backoff_never_shrinks_during_an_outage(fewer, (more - 1) as nat);
    } else if more > 0 {
        law_backoff_never_shrinks_during_an_outage((fewer - 1) as nat, (more - 1) as nat);
    }
}

/// Whether errors of these kinds, one after the other, may take the state through `states` and be
/// answered by `backoffs`.
pub open spec fn outage_run<K: PartialEq>(
    states: Seq<OutageState<K>>,
    kinds: Seq<K>,
    backoffs: Seq<Backoff>,
) -> bool {
    &&& states.len() == kinds.len() + 1
    &&& backoffs.len() == kinds.len()
    &&& forall|i: int|
        0 <= i < kinds.len() ==> after_error(
            states[i],
            kinds[i],
            #[trigger] backoffs[i],
            states[i + 1],
        )
}

/// A recovery clears what came before it: the next error is reported whatever its kind, and waits
/// the initial wait.
pub proof fn law_outage_starts_over_after_a_recovery<K: PartialEq>(
    calm: OutageState<K>,
    kind: K,
    backoff: Backoff,
    after: OutageState<K>,
)
    requires
        is_calm(calm),
        after_error(calm, kind, backoff, after),
    ensures
        backoff.report,
        backoff.wait_secs == INITIAL_BACKOFF,
        after.last_kind() == Some(kind),
{
}

/// During an outage the first attempt waits the initial wait, and each further one twice as long as
/// the one before it, up to the cap, whatever the kinds of the errors.
pub proof fn law_nth_failure_waits_the_nth_backoff<K: PartialEq>(
    states: Seq<OutageState<K>>,
    kinds: Seq<K>,
    backoffs: Seq<Backoff>,
    n: int,
)
    requires
        outage_run(states, kinds, backoffs),
        is_calm(states[0]),
        0 <= n < kinds.len(),
    ensures
        backoffs[n].wait_secs == backoff_after(n as nat),
        states[n + 1].wait() == backoff_after((n + 1) as nat),
    decreases n,
{
    assert(after_error(states[n], kinds[n], backoffs[n], states[n + 1]));
    if n > 0 {
        law_nth_failure_waits_the_nth_backoff(states, kinds, backoffs, n - 1);
    }
}

/// An error that keeps coming back is reported once, not on every attempt.
pub proof fn law_repeated_kind_is_reported_once<K: PartialEq>(
    states: Seq<OutageState<K>>,
    kinds: Seq<K>,
    backoffs: Seq<Backoff>,
    kind: K,
    n: int,
)
    requires
        K::obeys_eq_spec(),
        kind.eq_spec(&kind),
        outage_run(states, kinds, backoffs),
        is_calm(states[0]),
        forall|i: int| 0 <= i < kinds.len() ==> kinds[i] == kind,
        0 <= n < kinds.len(),
    ensures
        backoffs[n].report <==> n == 0,
        states[n + 1].last_kind() == Some(kind),
    decreases n,
{
    assert(after_error(states[n], kinds[n], backoffs[n], states[n + 1]));
    if n > 0 {
        law_repeated_kind_is_reported_once(states, kinds, backoffs, kind, n - 1);
    }
}

/// Whether the `==` of a kind is what the standard library asks of every `PartialEq`: symmetric and
/// transitive.
pub open spec fn is_partial_equivalence<K: PartialEq>() -> bool {
    &&& K::obeys_eq_spec()
    &&& forall|a: K, b: K| #[trigger] a.eq_spec(&b) ==> b.eq_spec(&a)
    &&& forall|a: K, b: K, c: K| #[trigger] a.eq_spec(&b) && #[trigger] b.eq_spec(&c) ==> a.eq_spec(&c)
}

/// What can happen to an outage state: an error is recorded, and reported or not, or the connection
/// recovers.
pub enum OutageStep<K> {
    Failed { kind: K, report: bool },
    Recovered,
}

impl<K: PartialEq> OutageStep<K> {
    /// Whether the step makes `after` of `before`.
    pub open spec fn leads(self, before: OutageState<K>, after: OutageState<K>) -> bool {
        match self {
            OutageStep::Failed { kind, report } => recorded(before, kind, report, after),
            OutageStep::Recovered => is_calm(after),
        }
    }
}

/// Whether the steps lead a state that starts without an outage from each of these states to the
/// next.
pub open spec fn outage_history<K: PartialEq>(
    states: Seq<OutageState<K>>,
    steps: Seq<OutageStep<K>>,
) -> bool {
    &&& states.len() == steps.len() + 1
    &&& is_calm(states[0])
    &&& forall|i: int|
        0 <= i < steps.len() ==> (#[trigger] steps[i]).leads(states[i], states[i + 1])
}

/// The kind that is remembered is that of the error just before, unless there was a recovery.
proof fn lemma_remembered_kind<K: PartialEq>(
    states: Seq<OutageState<K>>,
    steps: Seq<OutageStep<K>>,
    n: int,
)
    requires
        is_partial_equivalence::<K>(),
        outage_history(states, steps),
        0 < n < states.len(),
    ensures
        match steps[n - 1] {
            OutageStep::Failed { kind, .. } => states[n].last_kind() matches Some(last) && (kind
                == last || kind.eq_spec(&last)),
            OutageStep::Recovered => states[n].last_kind() is None,
        },
{
    assert(steps[n - 1].leads(states[n - 1], states[n]));
}

/// An error is reported exactly where it is the first one since the start or the last recovery, or
/// where its kind differs from that of the error just before it.
pub proof fn law_error_is_reported_where_the_kind_changes<K: PartialEq>(
    states: Seq<OutageState<K>>,
    steps: Seq<OutageStep<K>>,
    n: int,
)
    requires
        is_partial_equivalence::<K>(),
        outage_history(states, steps),
        0 <= n < steps.len(),
        steps[n] is Failed,
    ensures
        steps[n]->report == (n == 0 || match steps[n - 1] {
            OutageStep::Failed { kind: earlier, .. } => !steps[n]->kind.eq_spec(&earlier),
            OutageStep::Recovered => true,
        }),
{
    assert(steps[n].leads(states[n], states[n + 1]));
    if n > 0 {
        lemma_remembered_kind(states, steps, n);
        if let OutageStep::Failed { kind: earlier, .. } = steps[n - 1] {
            let last = states[n].last_kind()->0;
            let kind = steps[n]->kind;
            assert(earlier == last || last.eq_spec(&earlier));
            if kind.eq_spec(&earlier) {
                assert(kind.eq_spec(&last));
            }
            if kind.eq_spec(&last) {
                assert(kind.eq_spec(&earlier));
            }
        }
    }
}

/// A call on an outage state, with what it returned.
pub enum OutageCall<K> {
    Failed { kind: K, backoff: Backoff },
    Noted { kind: K, report: bool },
    Recovered { was_in_outage: bool },
}

/// How many of the calls before the `n`th one are errors that wait, counted from the last recovery.
pub open spec fn waits_before<K>(calls: Seq<OutageCall<K>>, n: int) -> nat
    decreases n,
{
    if n <= 0 {
        0
    } else {
        match calls[n - 1] {
            OutageCall::Failed { .. } => waits_before(calls, n - 1) + 1,
            OutageCall::Noted { .. } => waits_before(calls, n - 1),
            OutageCall::Recovered { .. } => 0,
        }
    }
}

/// The kind of the error just before the `n`th call, if there is one since the last recovery.
pub open spec fn kind_before<K>(calls: Seq<OutageCall<K>>, n: int) -> Option<K> {
    if n <= 0 {
        None
    } else {
        match calls[n - 1] {
            OutageCall::Failed { kind, .. } => Some(kind),
            OutageCall::Noted { kind, .. } => Some(kind),
            OutageCall::Recovered { .. } => None,
        }
    }
}

/// The state before the `n`th call holds the wait that the errors before it have led to, and a kind
/// exactly where there was an error since the last recovery.
proof fn lemma_state_before_call<K: PartialEq>(
    start: OutageState<K>,
    states: Seq<&mut OutageState<K>>,
    calls: Seq<OutageCall<K>>,
    n: int,
)
    requires
        call_ensures(<OutageState<K> as Default>::default, (), start),
        states.len() == calls.len(),
        states.len() > 0 ==> *states[0] == start,
        forall|i: int, j: int|
            0 <= i && j == i + 1 && j < states.len() ==> *final(#[trigger] states[i])
                == *#[trigger] states[j],
        forall|i: int|
            0 <= i < calls.len() ==> match #[trigger] calls[i] {
                OutageCall::Failed { kind, backoff } => call_ensures(
                    OutageState::<K>::on_error,
                    (states[i], kind),
                    backoff,
                ),
                OutageCall::Noted { kind, report } => call_ensures(
                    OutageState::<K>::record_error,
                    (states[i], kind),
                    report,
                ),
                OutageCall::Recovered { was_in_outage } => call_ensures(
                    OutageState::<K>::on_recovery,
                    (states[i],),
                    was_in_outage,
                ),
            },
        0 <= n < calls.len(),
    ensures
        states[n].wait() == backoff_after(waits_before(calls, n)),
        states[n].last_kind() is Some <==> kind_before(calls, n) is Some,
        is_partial_equivalence::<K>() ==> match kind_before(calls, n) {
            Some(kind) => states[n].last_kind() matches Some(last) && (kind == last || kind.eq_spec(
                &last,
            )),
            None => true,
        },
    decreases n,
{
    if n > 0 {
        lemma_state_before_call(start, states, calls, n - 1);
        assert(*final(states[n - 1]) == *states[n]);
        match calls[n - 1] {
            OutageCall::Failed { kind, backoff } => {
                assert(call_ensures(OutageState::<K>::on_error, (states[n - 1], kind), backoff));
            },
            OutageCall::Noted { kind, report } => {
                assert(call_ensures(OutageState::<K>::record_error, (states[n - 1], kind), report));
            },
            OutageCall::Recovered { was_in_outage } => {
                assert(call_ensures(
                    OutageState::<K>::on_recovery,
                    (states[n - 1],),
                    was_in_outage,
                ));
            },
        }
    }
}

/// Whatever is called on an outage state and in whatever order, from its start on: the error that has
/// `e` waiting errors before it since the last recovery waits two to the power of `e` seconds, or
/// half a minute where that is less; errors that are only noted change no wait; an error is reported
/// exactly where the call before it is not an error of the same kind; and a recovery tells whether
/// there was an error since the one before it.
pub proof fn law_outage_answers_by_its_calls<K: PartialEq>(
    start: OutageState<K>,
    states: Seq<&mut OutageState<K>>,
    calls: Seq<OutageCall<K>>,
    n: int,
)
    requires
        call_ensures(<OutageState<K> as Default>::default, (), start),
        states.len() == calls.len(),
        states.len() > 0 ==> *states[0] == start,
        forall|i: int, j: int|
            0 <= i && j == i + 1 && j < states.len() ==> *final(#[trigger] states[i])
                == *#[trigger] states[j],
        forall|i: int|
            0 <= i < calls.len() ==> match #[trigger] calls[i] {
                OutageCall::Failed { kind, backoff } => call_ensures(
                    OutageState::<K>::on_error,
                    (states[i], kind),
                    backoff,
                ),
                OutageCall::Noted { kind, report } => call_ensures(
                    OutageState::<K>::record_error,
                    (states[i], kind),
                    report,
                ),
                OutageCall::Recovered { was_in_outage } => call_ensures(
                    OutageState::<K>::on_recovery,
                    (states[i],),
                    was_in_outage,
                ),
            },
        0 <= n < calls.len(),
    ensures
        calls[n] matches OutageCall::Failed { backoff, .. } ==> backoff.wait_secs == if pow2(
            waits_before(calls, n),
        ) < 30 {
            pow2(waits_before(calls, n)) as int
        } else {
            30
        },
        calls[n] matches OutageCall::Recovered { was_in_outage } ==> was_in_outage == (kind_before(
            calls,
            n,
        ) is Some),
        is_partial_equivalence::<K>() ==> match calls[n] {
            OutageCall::Failed { kind, backoff } => backoff.report == !(kind_before(
                calls,
                n,
            ) matches Some(earlier) && kind.eq_spec(&earlier)),
            OutageCall::Noted { kind, report } => report == !(kind_before(
                calls,
                n,
            ) matches Some(earlier) && kind.eq_spec(&earlier)),
            OutageCall::Recovered { .. } => true,
        },
{
    lemma_state_before_call(start, states, calls, n);
    law_backoff_doubles_up_to_the_cap(waits_before(calls, n));
    match calls[n] {
        OutageCall::Failed { kind, backoff } => {
            assert(call_ensures(OutageState::<K>::on_error, (states[n], kind), backoff));
        },
        OutageCall::Noted { kind, report } => {
            assert(call_ensures(OutageState::<K>::record_error, (states[n], kind), report));
        },
        OutageCall::Recovered { was_in_outage } => {
            assert(call_ensures(OutageState::<K>::on_recovery, (states[n],), was_in_outage));
        },
    }
    if is_partial_equivalence::<K>() {
        if let Some(earlier) = kind_before(calls, n) {
            let last = states[n].last_kind()->0;
            assert(earlier == last || last.eq_spec(&earlier));
            assert forall|kind: K| #[trigger] kind.eq_spec(&earlier) implies kind.eq_spec(&last) by {}
            assert forall|kind: K| #[trigger] kind.eq_spec(&last) implies kind.eq_spec(&earlier) by {}
        }
    }
}

/// Whatever was called on an outage state before, from its start on: it is in an outage, and knows the
/// kind of an error, exactly where there was an error since the last recovery; and the next failed
/// attempt waits two to the power of the waiting errors since then, in seconds, or half a minute where
/// that is less. The kind that it knows is that of the error just before, or equal to it.
pub proof fn law_outage_shows_what_was_called<K: PartialEq>(
    start: OutageState<K>,
    states: Seq<&mut OutageState<K>>,
    calls: Seq<OutageCall<K>>,
    n: int,
    in_outage: bool,
    kind: Option<&K>,
    secs: u64,
)
    requires
        call_ensures(<OutageState<K> as Default>::default, (), start),
        states.len() == calls.len(),
        states.len() > 0 ==> *states[0] == start,
        forall|i: int, j: int|
            0 <= i && j == i + 1 && j < states.len() ==> *final(#[trigger] states[i])
                == *#[trigger] states[j],
        forall|i: int|
            0 <= i < calls.len() ==> match #[trigger] calls[i] {
                OutageCall::Failed { kind, backoff } => call_ensures(
                    OutageState::<K>::on_error,
                    (states[i], kind),
                    backoff,
                ),
                OutageCall::Noted { kind, report } => call_ensures(
                    OutageState::<K>::record_error,
                    (states[i], kind),
                    report,
                ),
                OutageCall::Recovered { was_in_outage } => call_ensures(
                    OutageState::<K>::on_recovery,
                    (states[i],),
                    was_in_outage,
                ),
            },
        0 <= n < calls.len(),
        call_ensures(OutageState::<K>::is_in_outage, (states[n],), in_outage),
        call_ensures(OutageState::<K>::last_error_kind, (states[n],), kind),
        call_ensures(OutageState::<K>::next_backoff, (states[n],), secs),
    ensures
        in_outage == (kind_before(calls, n) is Some),
        kind is Some <==> kind_before(calls, n) is Some,
        is_partial_equivalence::<K>() ==> (kind matches Some(last) ==> *last == kind_before(
            calls,
            n,
        )->0 || kind_before(calls, n)->0.eq_spec(last)),
        secs == if pow2(waits_before(calls, n)) < 30 {
            pow2(waits_before(calls, n)) as int
        } else {
            30
        },
{
    lemma_state_before_call(start, states, calls, n);
    law_backoff_doubles_up_to_the_cap(waits_before(calls, n));
}

/// The kind that an outage shows is that of the error reported last: an error that is reported takes
/// the place of the one before it, and one that is not leaves it there, be it one that waits or one
/// that is only noted. The first error of an outage is always reported.
pub proof fn law_outage_shows_the_kind_reported_last<K: PartialEq>(
    failing: &mut OutageState<K>,
    kind: K,
    backoff: Backoff,
    before: Option<&K>,
    after: Option<&K>,
    noting: &mut OutageState<K>,
    noted: K,
    report: bool,
    noted_before: Option<&K>,
    noted_after: Option<&K>,
)
    requires
        call_ensures(OutageState::<K>::last_error_kind, (failing,), before),
        call_ensures(OutageState::<K>::on_error, (failing, kind), backoff),
        call_ensures(OutageState::<K>::last_error_kind, (final(failing),), after),
        call_ensures(OutageState::<K>::last_error_kind, (noting,), noted_before),
        call_ensures(OutageState::<K>::record_error, (noting, noted), report),
        call_ensures(OutageState::<K>::last_error_kind, (final(noting),), noted_after),
    ensures
        before is None ==> backoff.report,
        backoff.report ==> (after matches Some(shown) && *shown == kind),
        !backoff.report ==> (after matches Some(shown) && *shown == *before->0),
        noted_before is None ==> report,
        report ==> (noted_after matches Some(shown) && *shown == noted),
        !report ==> (noted_after matches Some(shown) && *shown == *noted_before->0),
        final(noting).wait() == old(noting).wait(),
{
}

} // verus!
