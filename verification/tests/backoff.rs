use rust_pubsub_lib::backoff::{Backoff, OutageState, INITIAL_BACKOFF, MAX_BACKOFF};

type TestState = OutageState<u8>;

fn make_state() -> TestState {
    OutageState::default()
}

#[test]
fn on_recovery_returns_false_when_no_outage() {
    let mut state = make_state();
    assert!(!state.on_recovery(), "no outage yet — should return false");
}

#[test]
fn on_recovery_returns_true_after_error_then_false_again() {
    let mut state = make_state();
    state.on_error(1);
    assert!(state.on_recovery(), "outage was active — should return true");
    assert!(!state.on_recovery(), "already recovered — should return false");
}

#[test]
fn is_in_outage_tracks_error_and_recovery() {
    let mut state = make_state();
    assert!(!state.is_in_outage());
    state.on_error(1);
    assert!(state.is_in_outage());
    state.on_recovery();
    assert!(!state.is_in_outage());
}

#[test]
fn backoff_starts_at_one_second_and_doubles() {
    let mut state = make_state();
    assert_eq!(state.on_error(1).wait_secs, 1);
    assert_eq!(state.next_backoff(), 2);
    assert_eq!(state.on_error(1).wait_secs, 2);
    assert_eq!(state.next_backoff(), 4);
}

#[test]
fn backoff_caps_at_max() {
    let mut state = make_state();
    for _ in 0..6 {
        state.on_error(1);
    }
    assert_eq!(state.next_backoff(), MAX_BACKOFF);
    state.on_error(1);
    assert_eq!(state.next_backoff(), MAX_BACKOFF);
}

#[test]
fn backoff_resets_to_one_second_after_recovery() {
    let mut state = make_state();
    state.on_error(1);
    assert_eq!(state.next_backoff(), 2);
    state.on_recovery();
    assert_eq!(
        state.next_backoff(),
        INITIAL_BACKOFF,
        "backoff should be cleared on recovery"
    );
}

#[test]
fn same_error_kind_is_not_logged_twice() {
    let mut state = make_state();
    assert!(state.on_error(1).report);
    assert_eq!(state.last_error_kind(), Some(&1));
    assert!(!state.on_error(1).report);
    assert_eq!(state.last_error_kind(), Some(&1));
}

#[test]
fn different_error_kind_updates_last_error_kind() {
    let mut state = make_state();
    state.on_error(1);
    assert_eq!(state.last_error_kind(), Some(&1));
    state.on_error(2);
    assert_eq!(state.last_error_kind(), Some(&2));
}

#[test]
fn record_error_returns_true_for_new_kind() {
    let mut state = make_state();
    assert!(
        state.record_error(1),
        "first occurrence of kind 1 should return true"
    );
}

#[test]
fn record_error_returns_false_for_same_kind() {
    let mut state = make_state();
    state.record_error(1);
    assert!(
        !state.record_error(1),
        "repeated kind 1 should return false (suppressed)"
    );
}

#[test]
fn record_error_returns_true_for_different_kind() {
    let mut state = make_state();
    state.record_error(1);
    assert!(state.record_error(2), "new kind 2 should return true");
    assert_eq!(state.last_error_kind(), Some(&2));
}

#[test]
fn record_error_does_not_advance_backoff_timer() {
    let mut state = make_state();
    state.record_error(1);
    assert_eq!(
        state.next_backoff(),
        INITIAL_BACKOFF,
        "record_error must not touch the backoff timer"
    );
}

#[test]
fn record_error_marks_outage_in_progress() {
    let mut state = make_state();
    assert!(!state.is_in_outage());
    state.record_error(1);
    assert!(state.is_in_outage());
}

#[test]
fn record_error_outage_cleared_by_on_recovery() {
    let mut state = make_state();
    state.record_error(1);
    assert!(state.on_recovery());
    assert!(!state.is_in_outage());
}

#[test]
fn on_error_delegates_deduplication_to_record_error() {
    let mut state = make_state();
    state.on_error(1);
    assert!(
        !state.record_error(1),
        "on_error should have already recorded kind 1"
    );
}

#[test]
fn waits_follow_the_powers_of_two_up_to_the_cap() {
    let mut state = make_state();
    let waits: Vec<u64> = (0..8).map(|_| state.on_error(1).wait_secs).collect();
    assert_eq!(vec![1, 2, 4, 8, 16, 30, 30, 30], waits);
}

#[test]
fn repeated_kind_is_reported_once() {
    let mut state = make_state();
    let backoffs: Vec<Backoff> = (0..3).map(|_| state.on_error(7)).collect();
    let reports: Vec<bool> = backoffs.iter().map(|backoff| backoff.report).collect();
    assert_eq!(vec![true, false, false], reports);
    assert!(state.on_error(8).report);
    assert!(state.on_error(7).report);
}
