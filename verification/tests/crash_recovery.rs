use bridge_pool::connection_key::ConnectionKey;
use bridge_pool::crash_recovery::{
    CrashRecoveryRegistry, FIRST_RETRY_DELAY_SECS, HEALTHY_PERIOD_SECS, MAX_CONSECUTIVE_ATTEMPTS,
    RecoveryDecision, Reservation,
};
use bridge_pool::liveness_timeout::LivenessTimeout;
use std::time::Duration;

const FIRST_RETRY_DELAY: Duration = Duration::from_secs(FIRST_RETRY_DELAY_SECS);

const HEALTHY_PERIOD: Duration = Duration::from_secs(HEALTHY_PERIOD_SECS);

fn key() -> ConnectionKey {
    ConnectionKey::for_server("crashy")
}

/// A replacement that died shortly after starting.
const SHORT_RUN: Duration = Duration::from_millis(100);

/// `(attempt, delay, reservation)` of a `Retry`, panicking otherwise.
fn retry(decision: RecoveryDecision) -> (u32, Duration, Reservation) {
    match decision {
        RecoveryDecision::Retry {
            attempt,
            delay,
            reservation,
        } => (attempt, delay, reservation),
        other => panic!("expected a retry, got {other:?}"),
    }
}

#[test]
fn first_crash_retries_after_the_first_delay() {
    let mut registry = CrashRecoveryRegistry::default();
    let (attempt, delay, _) = retry(registry.schedule(&key(), SHORT_RUN));
    assert_eq!((attempt, delay), (1, FIRST_RETRY_DELAY));
}

#[test]
fn a_second_crash_report_while_scheduled_is_absorbed() {
    let mut registry = CrashRecoveryRegistry::default();
    let _ = registry.schedule(&key(), SHORT_RUN);
    assert_eq!(
        registry.schedule(&key(), SHORT_RUN),
        RecoveryDecision::AlreadyScheduled
    );
}

#[test]
fn consecutive_crashes_back_off_then_give_up_once() {
    let mut registry = CrashRecoveryRegistry::default();
    for expected in 1..=MAX_CONSECUTIVE_ATTEMPTS {
        let (attempt, delay, reservation) = retry(registry.schedule(&key(), SHORT_RUN));
        assert_eq!(
            (attempt, delay),
            (expected, FIRST_RETRY_DELAY * 2u32.pow(expected - 1))
        );
        registry.begin_attempt(&key(), reservation);
    }
    assert_eq!(
        registry.schedule(&key(), SHORT_RUN),
        RecoveryDecision::GiveUp {
            attempts: MAX_CONSECUTIVE_ATTEMPTS
        }
    );
    assert_eq!(
        registry.schedule(&key(), SHORT_RUN),
        RecoveryDecision::Exhausted
    );
}

#[test]
fn a_crash_during_the_attempt_schedules_the_next_one() {
    let mut registry = CrashRecoveryRegistry::default();
    let (_, _, reservation) = retry(registry.schedule(&key(), SHORT_RUN));
    registry.begin_attempt(&key(), reservation);
    assert_eq!(retry(registry.schedule(&key(), SHORT_RUN)).0, 2);
}

fn exhaust(registry: &mut CrashRecoveryRegistry) {
    for _ in 0..MAX_CONSECUTIVE_ATTEMPTS {
        let (_, _, reservation) = retry(registry.schedule(&key(), SHORT_RUN));
        registry.begin_attempt(&key(), reservation);
    }
}

#[test]
fn a_crash_ending_a_healthy_run_starts_over_even_after_giving_up() {
    let mut registry = CrashRecoveryRegistry::default();
    exhaust(&mut registry);
    assert!(matches!(
        registry.schedule(&key(), SHORT_RUN),
        RecoveryDecision::GiveUp { .. }
    ));
    let (attempt, delay, _) = retry(registry.schedule(&key(), HEALTHY_PERIOD));
    assert_eq!((attempt, delay), (1, FIRST_RETRY_DELAY));
}

/// Time alone does not heal: after giving up, a server an edit restarts
/// that dies right away again is the same failure, not a new round.
#[test]
fn a_short_run_after_giving_up_stays_exhausted() {
    let mut registry = CrashRecoveryRegistry::default();
    exhaust(&mut registry);
    let _ = registry.schedule(&key(), SHORT_RUN);
    assert_eq!(
        registry.schedule(&key(), SHORT_RUN),
        RecoveryDecision::Exhausted
    );
}

#[test]
fn keys_back_off_independently() {
    let mut registry = CrashRecoveryRegistry::default();
    let (_, _, reservation) = retry(registry.schedule(&key(), SHORT_RUN));
    registry.begin_attempt(&key(), reservation);
    let _ = registry.schedule(&key(), SHORT_RUN);
    assert_eq!(
        retry(registry.schedule(&ConnectionKey::for_server("other"), SHORT_RUN)).0,
        1
    );
}

#[test]
fn a_recovery_that_stands_down_spends_no_attempt() {
    let mut registry = CrashRecoveryRegistry::default();
    for _ in 0..MAX_CONSECUTIVE_ATTEMPTS + 1 {
        let (attempt, _, reservation) = retry(registry.schedule(&key(), SHORT_RUN));
        assert_eq!(attempt, 1);
        assert_eq!(registry.stand_down(&key(), reservation), None);
    }
}

#[test]
fn a_crash_absorbed_while_scheduled_is_handed_on_by_a_stand_down() {
    let mut registry = CrashRecoveryRegistry::default();
    let (_, _, reservation) = retry(registry.schedule(&key(), SHORT_RUN));
    // A replacement crashed while the recovery waited.
    assert_eq!(
        registry.schedule(&key(), SHORT_RUN),
        RecoveryDecision::AlreadyScheduled
    );
    let handed_on = registry.stand_down(&key(), reservation);
    assert!(matches!(
        handed_on,
        Some(RecoveryDecision::Retry { attempt: 1, .. })
    ));
}

/// Once committed, a recovery gives nothing back: newer attempts may be
/// interleaved with it by then, and a refund could lift the cap.
#[test]
fn a_committed_recovery_refunds_nothing() {
    let mut registry = CrashRecoveryRegistry::default();
    let (_, _, older) = retry(registry.schedule(&key(), SHORT_RUN));
    registry.begin_attempt(&key(), older);
    let (_, _, newer) = retry(registry.schedule(&key(), SHORT_RUN));
    registry.begin_attempt(&key(), newer);
    assert_eq!(registry.stand_down(&key(), older), None);
    assert_eq!(retry(registry.schedule(&key(), SHORT_RUN)).0, 3);
}

/// A recovery that committed and then stood down must not release the
/// schedule of a newer recovery, or a third crash could be scheduled
/// beside it and skip the backoff.
#[test]
fn a_late_stand_down_leaves_a_newer_recovery_scheduled() {
    let mut registry = CrashRecoveryRegistry::default();
    let (_, _, older) = retry(registry.schedule(&key(), SHORT_RUN));
    registry.begin_attempt(&key(), older);
    let _newer = retry(registry.schedule(&key(), SHORT_RUN));
    assert_eq!(registry.stand_down(&key(), older), None);
    assert_eq!(
        registry.schedule(&key(), SHORT_RUN),
        RecoveryDecision::AlreadyScheduled
    );
}

#[test]
fn a_server_that_hangs_right_away_backs_off() {
    let mut registry = CrashRecoveryRegistry::default();
    let silence = LivenessTimeout::default().as_duration();
    let (_, _, reservation) = retry(registry.schedule(&key(), silence));
    registry.begin_attempt(&key(), reservation);
    assert_eq!(retry(registry.schedule(&key(), silence)).0, 2);
    assert!(HEALTHY_PERIOD >= 2 * silence);
}
