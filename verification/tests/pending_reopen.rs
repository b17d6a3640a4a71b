use bridge_pool::connection_key::ConnectionKey;
use bridge_pool::pending_reopen::{PendingReopenRegistry, ReopenNews, REOPEN_WAIT_SECS};

fn wait(registry: &mut PendingReopenRegistry, key: &ConnectionKey, news: ReopenNews) -> bool {
    let ticket = registry.outstanding(key);
    registry.wait_for_reopen(key, ticket, news)
}

#[test]
fn claim_disarms_what_arm_set() {
    let mut registry = PendingReopenRegistry::default();
    let key = ConnectionKey::for_server("ruff");
    registry.arm(&key);

    assert!(registry.claim(&key).is_some());
    assert!(registry.claim(&key).is_none());
}

#[test]
fn a_connection_that_died_holding_nothing_still_arms() {
    let mut registry = PendingReopenRegistry::default();
    let key = ConnectionKey::for_server("ruff");
    registry.arm(&key);

    assert!(
        registry.claim(&key).is_some(),
        "a purge must arm its key regardless of what the dead connection held"
    );
}

#[test]
fn arming_twice_before_a_claim_owes_one_reopen() {
    let mut registry = PendingReopenRegistry::default();
    let key = ConnectionKey::for_server("ruff");
    registry.arm(&key);
    registry.arm(&key);

    assert!(registry.claim(&key).is_some());
    assert!(registry.claim(&key).is_none());
}

#[test]
fn rearm_puts_back_a_claim_that_could_not_be_handed_off() {
    let mut registry = PendingReopenRegistry::default();
    let key = ConnectionKey::for_server("ruff");
    registry.arm(&key);
    let done = registry.claim(&key).expect("armed");
    registry.rearm(&key, done);

    assert!(
        registry.claim(&key).is_some(),
        "the next replacement must still learn it owes a re-open"
    );
}

#[test]
fn rearm_retires_the_barrier_the_failed_claim_registered() {
    let mut registry = PendingReopenRegistry::default();
    let key = ConnectionKey::for_server("ruff");
    registry.arm(&key);
    let done = registry.claim(&key).expect("armed");
    registry.rearm(&key, done);

    assert!(registry.outstanding(&key).is_none());
    assert!(
        wait(&mut registry, &key, ReopenNews::TimedOut),
        "a re-armed key has no re-open in flight to wait for"
    );
}

#[test]
fn a_stale_rearm_does_not_retire_a_later_respawns_barrier() {
    let mut registry = PendingReopenRegistry::default();
    let key = ConnectionKey::for_server("ruff");

    registry.arm(&key);
    let stale = registry.claim(&key).expect("armed");
    registry.arm(&key);
    let live = registry.claim(&key).expect("re-armed");

    registry.rearm(&key, stale);

    assert_eq!(
        registry.outstanding(&key),
        Some(live),
        "the live respawn's barrier must survive a stale rearm"
    );
    assert!(wait(&mut registry, &key, ReopenNews::Repaired));
    assert!(registry.outstanding(&key).is_none());
}

#[test]
fn keys_are_armed_independently() {
    let mut registry = PendingReopenRegistry::default();
    let a = ConnectionKey::new("ruff", Some("file:///w/a".to_string()));
    let b = ConnectionKey::new("ruff", Some("file:///w/b".to_string()));
    registry.arm(&a);

    assert!(registry.claim(&a).is_some());
    assert!(
        registry.claim(&b).is_none(),
        "arming one root must not arm its sibling"
    );
}

#[test]
fn waiting_on_a_key_with_no_reopen_returns_at_once() {
    let mut registry = PendingReopenRegistry::default();
    let key = ConnectionKey::for_server("ruff");
    assert!(registry.outstanding(&key).is_none());
    assert!(
        wait(&mut registry, &key, ReopenNews::TimedOut),
        "nothing outstanding means the ordering requirement is vacuously met"
    );
}

#[test]
fn an_armed_but_unclaimed_key_registers_no_wait() {
    let mut registry = PendingReopenRegistry::default();
    let key = ConnectionKey::for_server("ruff");
    registry.arm(&key);

    assert!(registry.outstanding(&key).is_none());
    assert!(wait(&mut registry, &key, ReopenNews::TimedOut));
}

#[test]
fn a_request_waits_until_the_reopen_signals_completion() {
    let mut registry = PendingReopenRegistry::default();
    let key = ConnectionKey::for_server("ruff");
    registry.arm(&key);
    let ticket = registry.claim(&key).expect("a re-open is pending");

    assert_eq!(registry.outstanding(&key), Some(ticket));
    assert!(wait(&mut registry, &key, ReopenNews::Repaired));
    assert!(registry.outstanding(&key).is_none());
}

#[test]
fn dropping_the_sender_releases_waiters() {
    let mut registry = PendingReopenRegistry::default();
    let key = ConnectionKey::for_server("ruff");
    registry.arm(&key);
    registry.claim(&key).expect("a re-open is pending");

    assert!(
        !wait(&mut registry, &key, ReopenNews::Gone(false)),
        "a re-open that died without reporting success leaves the connection empty"
    );
    assert!(
        wait(&mut registry, &key, ReopenNews::TimedOut),
        "a settled-by-drop entry must be retired, not left blocking forever"
    );
}

#[test]
fn a_sender_that_goes_after_reporting_success_settles_the_wait() {
    let mut registry = PendingReopenRegistry::default();
    let key = ConnectionKey::for_server("ruff");
    registry.arm(&key);
    registry.claim(&key).expect("a re-open is pending");

    assert!(wait(&mut registry, &key, ReopenNews::Gone(true)));
    assert!(registry.outstanding(&key).is_none());
}

#[test]
fn a_reopen_that_reports_failure_does_not_release_the_caller() {
    let mut registry = PendingReopenRegistry::default();
    let key = ConnectionKey::for_server("ruff");
    registry.arm(&key);
    registry.claim(&key).expect("a re-open is pending");

    assert!(
        !wait(&mut registry, &key, ReopenNews::Gone(false)),
        "a re-open that reported failure must not release the caller"
    );
}

#[test]
fn a_timed_out_wait_leaves_the_reopen_registered() {
    let mut registry = PendingReopenRegistry::default();
    let key = ConnectionKey::for_server("ruff");
    registry.arm(&key);
    let ticket = registry.claim(&key).expect("a re-open is pending");

    assert!(
        !wait(&mut registry, &key, ReopenNews::TimedOut),
        "an unfinished re-open must report NOT settled"
    );
    assert_eq!(
        registry.outstanding(&key),
        Some(ticket),
        "a still-running re-open must keep blocking, not be forgotten"
    );
    assert!(
        wait(&mut registry, &key, ReopenNews::Repaired),
        "a completed re-open reports settled"
    );
}

#[test]
fn a_late_wait_does_not_retire_a_later_round() {
    let mut registry = PendingReopenRegistry::default();
    let key = ConnectionKey::for_server("ruff");
    registry.arm(&key);
    let first = registry.claim(&key).expect("armed");
    registry.arm(&key);
    let second = registry.claim(&key).expect("armed again");

    assert!(registry.wait_for_reopen(&key, Some(first), ReopenNews::Repaired));
    assert_eq!(registry.outstanding(&key), Some(second));
}

#[test]
fn commands_wait_for_two_seconds() {
    assert_eq!(REOPEN_WAIT_SECS, 2);
}
