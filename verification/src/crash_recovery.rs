//! When to bring a crashed connection back without being asked.
//!
//! Attempts back off and stop after a few in a row. The count starts over only
//! when a connection that ran for a healthy period crashes.

use crate::connection_key::{ConnectionKey, KeyView};
use crate::liveness_timeout::DEFAULT_LIVENESS_SECS;
use crate::outside::nanos_of;
use crate::table::Table;
use std::time::Duration;
use vstd::arithmetic::power2::{lemma2_to64, lemma_pow2_unfold, pow2};
use vstd::prelude::*;

verus! {

/// The delay before the first attempt, in seconds. Each further attempt in a row
/// doubles it.
pub const FIRST_RETRY_DELAY_SECS: u64 = 2;

/// How many attempts in a row are made for one key.
pub const MAX_CONSECUTIVE_ATTEMPTS: u32 = 5;

/// How long a connection must have run, in seconds, for its crash to start the
/// count over.
pub const HEALTHY_PERIOD_SECS: u64 = 300;

/// The claim of one scheduled recovery on its key.
#[derive(Clone, Copy, Debug, PartialEq, Eq, Structural)]
pub struct Reservation(u64);

impl Reservation {
    /// The number of the reservation among those of its key.
    pub closed spec fn number(self) -> u64 {
        self.0
    }
}

/// What to do about a connection that just crashed.
#[derive(Debug, PartialEq, Eq)]
pub enum RecoveryDecision {
    /// Try again after `delay`. `attempt` counts from one.
    Retry { attempt: u32, delay: Duration, reservation: Reservation },
    /// A recovery of this key is waiting out its delay already.
    AlreadyScheduled,
    /// This crash used up the attempts. Said once.
    GiveUp { attempts: u32 },
    /// Still used up, and said before.
    Exhausted,
}

/// The mathematical content of a [`RecoveryDecision`].
pub enum DecisionView {
    Retry { attempt: u32, delay_nanos: int, reservation: u64 },
    AlreadyScheduled,
    GiveUp { attempts: u32 },
    Exhausted,
}

impl View for RecoveryDecision {
    type V = DecisionView;

    open spec fn view(&self) -> DecisionView {
        match *self {
            RecoveryDecision::Retry { attempt, delay, reservation } => DecisionView::Retry {
                attempt,
                delay_nanos: nanos_of(delay) as int,
                reservation: reservation.number(),
            },
            RecoveryDecision::AlreadyScheduled => DecisionView::AlreadyScheduled,
            RecoveryDecision::GiveUp { attempts } => DecisionView::GiveUp { attempts },
            RecoveryDecision::Exhausted => DecisionView::Exhausted,
        }
    }
}

/// What is kept for one key.
struct KeyState {
    attempts: u32,
    scheduled: Option<Reservation>,
    next_reservation: u64,
    gave_up: bool,
    missed: bool,
}

/// The mathematical content of what is kept for one key.
pub struct RecoveryView {
    /// The attempts in a row so far.
    pub attempts: u32,
    /// The recovery that is waiting out its delay.
    pub scheduled: Option<u64>,
    /// The number of the latest reservation.
    pub latest: u64,
    /// Whether it was said that the attempts are used up.
    pub gave_up: bool,
    /// Whether a crash was reported while a recovery was waiting.
    pub missed: bool,
}

impl View for KeyState {
    type V = RecoveryView;

    closed spec fn view(&self) -> RecoveryView {
        RecoveryView {
            attempts: self.attempts,
            scheduled: match self.scheduled {
                Some(reservation) => Some(reservation.0),
                None => None,
            },
            latest: self.next_reservation,
            gave_up: self.gave_up,
            missed: self.missed,
        }
    }
}

/// What is kept for a key that never crashed.
pub open spec fn no_crash() -> RecoveryView {
    RecoveryView { attempts: 0, scheduled: None, latest: 0, gave_up: false, missed: false }
}

/// What is kept for a key.
pub open spec fn kept_for(keys: Map<KeyView, RecoveryView>, key: KeyView) -> RecoveryView {
    if keys.contains_key(key) {
        keys[key]
    } else {
        no_crash()
    }
}

/// What always holds of what is kept for a key: the attempts stay within their
/// bound, a recovery that waits has taken an attempt and is the latest one, and
/// giving up comes only with all attempts used and nothing waiting.
pub open spec fn is_consistent(state: RecoveryView) -> bool {
    &&& state.attempts <= MAX_CONSECUTIVE_ATTEMPTS
    &&& state.scheduled is Some ==> state.attempts >= 1 && state.scheduled == Some(state.latest)
    &&& state.gave_up ==> state.attempts == MAX_CONSECUTIVE_ATTEMPTS && state.scheduled is None
    &&& state.missed ==> state.scheduled is Some
}

/// The number after a reservation number.
pub open spec fn number_after(number: u64) -> u64 {
    if number < u64::MAX {
        (number + 1) as u64
    } else {
        0
    }
}

/// Whether a run was long enough for its end to start the count over.
pub open spec fn is_healthy(uptime_nanos: int) -> bool {
    uptime_nanos >= HEALTHY_PERIOD_SECS * 1_000_000_000
}

/// The delay before an attempt: the first delay, doubled for each attempt before
/// it.
pub open spec fn delay_before(attempt: u32) -> int {
    FIRST_RETRY_DELAY_SECS * pow2((attempt - 1) as nat) * 1_000_000_000
}

/// The count that a crash builds on: nothing, if it ended a healthy run.
pub open spec fn counted_on(state: RecoveryView, healthy: bool) -> RecoveryView {
    if healthy {
        RecoveryView { attempts: 0, gave_up: false, missed: false, ..state }
    } else {
        state
    }
}

/// What a crash leads to, and what is kept then.
pub open spec fn crashed(state: RecoveryView, healthy: bool) -> (RecoveryView, DecisionView) {
    if state.scheduled is Some {
        (RecoveryView { missed: true, ..state }, DecisionView::AlreadyScheduled)
    } else {
        let base = counted_on(state, healthy);
        if base.attempts >= MAX_CONSECUTIVE_ATTEMPTS {
            if base.gave_up {
                (base, DecisionView::Exhausted)
            } else {
                (
                    RecoveryView { gave_up: true, ..base },
                    DecisionView::GiveUp { attempts: base.attempts },
                )
            }
        } else {
            let attempt = (base.attempts + 1) as u32;
            let reservation = number_after(base.latest);
            (
                RecoveryView {
                    attempts: attempt,
                    latest: reservation,
                    scheduled: Some(reservation),
                    ..base
                },
                DecisionView::Retry { attempt, delay_nanos: delay_before(attempt), reservation },
            )
        }
    }
}

/// What is kept once the recovery with this reservation goes ahead.
pub open spec fn begun(state: RecoveryView, reservation: u64) -> RecoveryView {
    if state.scheduled == Some(reservation) {
        RecoveryView { scheduled: None, missed: false, ..state }
    } else {
        state
    }
}

/// What is kept once the recovery with this reservation is called off, and the
/// decision on a crash that it owed.
pub open spec fn called_off(state: RecoveryView, reservation: u64) -> (
    RecoveryView,
    Option<DecisionView>,
) {
    if state.scheduled != Some(reservation) {
        (state, None)
    } else {
        let refunded = RecoveryView {
            scheduled: None,
            attempts: if state.attempts == 0 {
                0
            } else {
                (state.attempts - 1) as u32
            },
            missed: false,
            ..state
        };
        if state.missed {
            let (after, decision) = crashed(refunded, false);
            (after, Some(decision))
        } else {
            (refunded, None)
        }
    }
}

/// The recovery of all crashed connections.
pub struct CrashRecoveryRegistry {
    keys: Table<ConnectionKey, KeyState>,
}

impl View for CrashRecoveryRegistry {
    type V = Map<KeyView, RecoveryView>;

    closed spec fn view(&self) -> Map<KeyView, RecoveryView> {
        Map::new(
            |key: KeyView| self.keys@.contains_key(key),
            |key: KeyView| self.keys@[key]@,
        )
    }
}

impl Default for CrashRecoveryRegistry {
    fn default() -> (registry: Self)
        ensures
            registry.wf(),
            registry@ == Map::<KeyView, RecoveryView>::empty(),
    {
        let registry = CrashRecoveryRegistry { keys: Table::new() };
        assert(registry@ =~= Map::<KeyView, RecoveryView>::empty());
        registry
    }
}

impl CrashRecoveryRegistry {
    /// What is kept is consistent for every key.
    pub closed spec fn wf(self) -> bool {
        &&& self.keys.wf()
        &&& forall|key: KeyView| #[trigger]
            self.keys@.contains_key(key) ==> is_consistent(self.keys@[key]@)
    }

    /// What is kept is consistent for every key.
    pub proof fn lemma_consistent(self, key: KeyView)
        requires
            self.wf(),
        ensures
            is_consistent(kept_for(self@, key)),
    {
    }

    /// The delay before an attempt.
    fn delay(attempt: u32) -> (delay: Duration)
        requires
            1 <= attempt <= MAX_CONSECUTIVE_ATTEMPTS,
        ensures
            nanos_of(delay) == delay_before(attempt),
    {
        let mut secs: u64 = FIRST_RETRY_DELAY_SECS;
        let mut i: u32 = 1;
        proof {
            lemma2_to64();
        }
        while i < attempt
            invariant
                1 <= i <= attempt <= MAX_CONSECUTIVE_ATTEMPTS,
                secs == FIRST_RETRY_DELAY_SECS * pow2((i - 1) as nat),
                secs <= 32,
            decreases attempt - i,
        {
            proof {
                lemma2_to64();
                lemma_pow2_unfold(i as nat);
            }
            secs = secs * 2;
            i += 1;
        }
        Duration::from_secs(secs)
    }

    fn crash_of(state: &mut KeyState, uptime: Duration) -> (decision: RecoveryDecision)
        requires
            is_consistent(old(state)@),
        ensures
            is_consistent(final(state)@),
            (final(state)@, decision@) == crashed(
                old(state)@,
                is_healthy(nanos_of(uptime) as int),
            ),
    {
        if state.scheduled.is_some() {
            state.missed = true;
            return RecoveryDecision::AlreadyScheduled;
        }
        if uptime.as_nanos() >= 300_000_000_000 {
            state.attempts = 0;
            state.gave_up = false;
            state.missed = false;
        }
        if state.attempts >= MAX_CONSECUTIVE_ATTEMPTS {
            if state.gave_up {
                return RecoveryDecision::Exhausted;
            }
            state.gave_up = true;
            return RecoveryDecision::GiveUp { attempts: state.attempts };
        }
        state.attempts = state.attempts + 1;
        state.next_reservation = state.next_reservation.wrapping_add(1);
        let reservation = Reservation(state.next_reservation);
        state.scheduled = Some(reservation);
        RecoveryDecision::Retry {
            attempt: state.attempts,
            delay: Self::delay(state.attempts),
            reservation,
        }
    }

    /// Decides how to recover the connection of `key`, which crashed after it
    /// ran for `uptime`.
    pub fn schedule(&mut self, key: &ConnectionKey, uptime: Duration) -> (decision: RecoveryDecision)
        requires
            old(self).wf(),
        ensures
            final(self).wf(),
            ({
                let (after, decided) = crashed(
                    kept_for(old(self)@, key@),
                    is_healthy(nanos_of(uptime) as int),
                );
                final(self)@ == old(self)@.insert(key@, after) && decision@ == decided
            }),
    {
        if !self.keys.contains(key) {
            let fresh = KeyState {
                attempts: 0,
                scheduled: None,
                next_reservation: 0,
                gave_up: false,
                missed: false,
            };
            self.keys.insert(key.clone(), fresh);
        }
        let ghost before = self.keys@[key@]@;
        assert(before == kept_for(old(self)@, key@));
        let decision = match self.keys.get_mut(key) {
            Some(state) => Self::crash_of(state, uptime),
            None => RecoveryDecision::Exhausted,
        };
        assert(self@ =~= old(self)@.insert(
            key@,
            crashed(before, is_healthy(nanos_of(uptime) as int)).0,
        ));
        decision
    }

    /// Lets the scheduled recovery of `key` go ahead. Whatever crashed under the
    /// key until now is served by it.
    pub fn begin_attempt(&mut self, key: &ConnectionKey, reservation: Reservation)
        requires
            old(self).wf(),
        ensures
            final(self).wf(),
            final(self)@ == (if old(self)@.contains_key(key@) {
                old(self)@.insert(key@, begun(old(self)@[key@], reservation.number()))
            } else {
                old(self)@
            }),
    {
        match self.keys.get_mut(key) {
            Some(state) => {
                if state.scheduled == Some(reservation) {
                    state.scheduled = None;
                    state.missed = false;
                }
            },
            None => {},
        }
        proof {
            if old(self)@.contains_key(key@) {
                assert(self@ =~= old(self)@.insert(
                    key@,
                    begun(old(self)@[key@], reservation.number()),
                ));
            } else {
                assert(self@ =~= old(self)@);
            }
        }
    }

    /// Calls the scheduled recovery of `key` off and gives its attempt back.
    /// Gives the decision on a crash that was reported while it was waiting.
    ///
    /// A recovery that went ahead already gives nothing back.
    pub fn stand_down(&mut self, key: &ConnectionKey, reservation: Reservation) -> (owed: Option<
        RecoveryDecision,
    >)
        requires
            old(self).wf(),
        ensures
            final(self).wf(),
            !old(self)@.contains_key(key@) ==> final(self)@ == old(self)@ && owed is None,
            old(self)@.contains_key(key@) ==> ({
                let (after, decided) = called_off(old(self)@[key@], reservation.number());
                &&& final(self)@ == old(self)@.insert(key@, after)
                &&& match (owed, decided) {
                    (Some(owed), Some(decided)) => owed@ == decided,
                    (None, None) => true,
                    _ => false,
                }
            }),
    {
        let owes = match self.keys.get_mut(key) {
            Some(state) => {
                if state.scheduled == Some(reservation) {
                    state.scheduled = None;
                    state.attempts = state.attempts.saturating_sub(1);
                    let missed = state.missed;
                    state.missed = false;
                    missed
                } else {
                    false
                }
            },
            None => {
                assert(self@ =~= old(self)@);
                return None;
            },
        };
        if owes {
            let decision = self.schedule(key, Duration::from_secs(0));
            proof {
                assert(self@ =~= old(self)@.insert(
                    key@,
                    called_off(old(self)@[key@], reservation.number()).0,
                ));
            }
            Some(decision)
        } else {
            proof {
                assert(self@ =~= old(self)@.insert(
                    key@,
                    called_off(old(self)@[key@], reservation.number()).0,
                ));
            }
            None
        }
    }
}

/// What is kept for a key stays consistent.
pub proof fn recovery_stays_consistent(state: RecoveryView, healthy: bool, reservation: u64)
    requires
        is_consistent(state),
    ensures
        is_consistent(no_crash()),
        is_consistent(crashed(state, healthy).0),
        is_consistent(begun(state, reservation)),
        is_consistent(called_off(state, reservation).0),
{
}

/// At most so many attempts are made in a row, and every delay is between the
/// first delay and sixteen times the first delay.
pub proof fn attempts_are_bounded(state: RecoveryView, healthy: bool)
    requires
        is_consistent(state),
    ensures
        crashed(state, healthy).1 matches DecisionView::Retry { attempt, delay_nanos, .. } ==> 1
            <= attempt <= MAX_CONSECUTIVE_ATTEMPTS && FIRST_RETRY_DELAY_SECS * 1_000_000_000
            <= delay_nanos <= 16 * FIRST_RETRY_DELAY_SECS * 1_000_000_000,
{
    lemma2_to64();
    if let DecisionView::Retry { attempt, .. } = crashed(state, healthy).1 {
        assert(attempt == 1 || attempt == 2 || attempt == 3 || attempt == 4 || attempt == 5);
    }
}

/// Each further attempt in a row waits twice as long.
pub proof fn delays_double(attempt: u32)
    requires
        1 <= attempt < MAX_CONSECUTIVE_ATTEMPTS,
    ensures
        delay_before((attempt + 1) as u32) == 2 * delay_before(attempt),
{
    lemma_pow2_unfold(attempt as nat);
}

/// A crash that ends a healthy run starts over, even after giving up.
pub proof fn a_healthy_run_starts_over(state: RecoveryView)
    requires
        state.scheduled is None,
    ensures
        crashed(state, true).1 == (DecisionView::Retry {
            attempt: 1,
            delay_nanos: FIRST_RETRY_DELAY_SECS * 1_000_000_000,
            reservation: number_after(state.latest),
        }),
{
    lemma2_to64();
}

/// A server that fell silent early and was taken for dead after the default time
/// did not have a healthy run: its crash counts on.
pub proof fn hangs_do_not_start_over(state: RecoveryView, uptime_nanos: int)
    requires
        uptime_nanos < 2 * DEFAULT_LIVENESS_SECS * 1_000_000_000,
    ensures
        !is_healthy(uptime_nanos),
        counted_on(state, is_healthy(uptime_nanos)) == state,
{
}

/// Giving up is said once: after it, every crash of a short run is exhausted and
/// changes nothing.
pub proof fn giving_up_is_said_once(state: RecoveryView)
    requires
        crashed(state, false).1 is GiveUp,
    ensures
        ({
            let after = crashed(state, false).0;
            crashed(after, false) == (after, DecisionView::Exhausted)
        }),
{
}

/// A recovery that stands down spends no attempt: scheduling and standing down
/// leaves the count as it was.
pub proof fn standing_down_refunds_the_attempt(state: RecoveryView)
    requires
        is_consistent(state),
        crashed(state, false).1 is Retry,
    ensures
        ({
            let scheduled = crashed(state, false).0;
            let (after, owed) = called_off(scheduled, scheduled.latest);
            owed is None && after.attempts == state.attempts && after.scheduled is None
                && after.gave_up == state.gave_up
        }),
{
}

/// A crash that is absorbed while a recovery waits is handed on when that
/// recovery stands down.
pub proof fn an_absorbed_crash_is_handed_on(state: RecoveryView, healthy: bool)
    requires
        is_consistent(state),
        state.scheduled is Some,
    ensures
        crashed(state, healthy).1 is AlreadyScheduled,
        called_off(crashed(state, healthy).0, state.latest).1 matches Some(decision) && decision
            is Retry,
{
}

/// Only the recovery that holds the schedule can release it: any other
/// reservation changes nothing and gives nothing back.
pub proof fn only_the_holder_releases_the_schedule(state: RecoveryView, reservation: u64)
    requires
        state.scheduled != Some(reservation),
    ensures
        begun(state, reservation) == state,
        called_off(state, reservation) == (state, None::<DecisionView>),
{
}

/// A recovery that went ahead holds no schedule any more, so standing down
/// afterwards gives nothing back.
pub proof fn a_committed_recovery_refunds_nothing(state: RecoveryView, reservation: u64)
    requires
        state.scheduled == Some(reservation),
    ensures
        called_off(begun(state, reservation), reservation) == (
            begun(state, reservation),
            None::<DecisionView>,
        ),
        begun(state, reservation).attempts == state.attempts,
{
}

/// A new reservation differs from every older one of its key, until the numbers
/// run out.
pub proof fn reservations_are_new(state: RecoveryView, healthy: bool, older: u64)
    requires
        older <= state.latest < u64::MAX,
    ensures
        crashed(state, healthy).1 matches DecisionView::Retry { reservation, .. } ==> reservation
            != older && older < reservation == crashed(state, healthy).0.latest,
{
}

/// A crash after a short run counts on from the attempts before it: each of the
/// first five brings the next attempt, and the one after them ends it.
pub proof fn crashes_count_on(state: RecoveryView)
    requires
        state.scheduled is None,
    ensures
        state.attempts < 5 ==> (crashed(state, false).1 matches DecisionView::Retry {
            attempt,
            reservation,
            ..
        } && attempt == state.attempts + 1 && crashed(state, false).0.attempts == attempt
            && crashed(state, false).0.scheduled == Some(reservation)),
        state.attempts >= 5 && !state.gave_up ==> crashed(state, false).1 == (
        DecisionView::GiveUp { attempts: state.attempts }) && crashed(state, false).0.gave_up,
        state.attempts >= 5 && state.gave_up ==> crashed(state, false) == (
            state,
            DecisionView::Exhausted,
        ),
{
}

/// A run of five minutes or more is healthy, and no shorter one is.
pub proof fn five_minutes_are_healthy(uptime_nanos: int)
    ensures
        is_healthy(uptime_nanos) <==> uptime_nanos >= 300_000_000_000,
{
}

/// The first attempt waits two seconds, and each further one twice as long as the
/// one before it, up to 32 seconds.
pub proof fn delays_are_known()
    ensures
        delay_before(1) == 2_000_000_000,
        delay_before(2) == 4_000_000_000,
        delay_before(3) == 8_000_000_000,
        delay_before(4) == 16_000_000_000,
        delay_before(5) == 32_000_000_000,
{
    lemma2_to64();
}

/// A crash while a recovery waits changes nothing but that it is remembered, and a
/// recovery that goes ahead forgets it. Attempts and reservations stay.
pub proof fn waiting_recoveries_absorb_crashes(
    state: RecoveryView,
    healthy: bool,
    reservation: u64,
)
    requires
        state.scheduled == Some(reservation),
    ensures
        crashed(state, healthy) == (
            RecoveryView { missed: true, ..state },
            DecisionView::AlreadyScheduled,
        ),
        begun(state, reservation) == (RecoveryView { scheduled: None, missed: false, ..state }),
        !state.missed && state.attempts > 0 ==> called_off(state, reservation) == (
            RecoveryView { scheduled: None, attempts: (state.attempts - 1) as u32, ..state },
            None::<DecisionView>,
        ),
{
}

/// What is kept for one key says nothing about another one, and a key that never
/// crashed starts from nothing.
pub proof fn keys_crash_apart(
    keys: Map<KeyView, RecoveryView>,
    key: KeyView,
    other: KeyView,
    state: RecoveryView,
)
    ensures
        kept_for(keys.insert(key, state), key) == state,
        other != key ==> kept_for(keys.insert(key, state), other) == kept_for(keys, other),
        !keys.contains_key(key) ==> kept_for(keys, key).attempts == 0 && kept_for(
            keys,
            key,
        ).scheduled is None && !kept_for(keys, key).gave_up && !kept_for(keys, key).missed,
{
}

/// Reservations count up, and start from zero again when the numbers run out.
pub proof fn reservations_count_up(number: u64)
    ensures
        number < u64::MAX ==> number_after(number) == number + 1,
        number_after(u64::MAX) == 0,
{
}

/// A decision says what is to be done with every part of it.
pub proof fn decisions_say_every_part(
    attempt: u32,
    delay: Duration,
    reservation: Reservation,
    attempts: u32,
)
    ensures
        (RecoveryDecision::Retry { attempt, delay, reservation })@ == (DecisionView::Retry {
            attempt,
            delay_nanos: nanos_of(delay) as int,
            reservation: reservation.number(),
        }),
        RecoveryDecision::AlreadyScheduled@ is AlreadyScheduled,
        (RecoveryDecision::GiveUp { attempts })@ == (DecisionView::GiveUp { attempts }),
        RecoveryDecision::Exhausted@ is Exhausted,
{
}

} // verus!
