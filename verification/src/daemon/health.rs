//! Per-provider health tracking over a sliding window.

use crate::double::Ratio;
use std::collections::VecDeque;
use vstd::prelude::*;

verus! {

#[verifier::external_type_specification]
#[verifier::external_body]
pub struct ExInstant(std::time::Instant);

/// `std::time::Instant::now`: a reading of the monotonic clock.
pub assume_specification[ std::time::Instant::now ]() -> std::time::Instant;

/// `std::time::Instant::elapsed`, in nanoseconds: the time since `origin`. It is what
/// the clock says, so nothing is said of it.
#[verifier::external_body]
fn nanos_since(origin: &std::time::Instant) -> (r: u64)
{
    origin.elapsed().as_nanos() as u64
}

/// The length of the sliding window in nanoseconds: 5 minutes.
pub const HEALTH_WINDOW_NANOS: u64 = 300_000_000_000;

/// How many events there must be before a low score degrades a provider.
pub const MIN_EVENTS_FOR_DEGRADED: usize = 3;

/// A health event recorded for a provider.
#[derive(Debug, Clone, Copy, PartialEq, Eq, Structural)]
pub enum HealthEvent {
    /// A successful provider response.
    Success,
    /// A failed provider response.
    Failure,
}

/// The computed health status of a provider.
#[derive(Debug, Clone, Copy, PartialEq, Eq, Structural)]
pub enum HealthStatus {
    /// Provider is operating normally.
    Healthy,
    /// Provider error rate exceeds 50% in the sliding window.
    Degraded,
    /// Provider has exceeded the consecutive failure threshold.
    Unhealthy,
}

/// Sliding-window health state for a single provider.
///
/// Tracks per-provider success/failure events over a 5-minute window. Health
/// score is the success rate over that window. Consecutive failures beyond the
/// threshold trigger [`HealthStatus::Unhealthy`]. A successful health probe
/// can recover a previously-unhealthy provider.
#[derive(Debug)]
pub struct HealthState {
    origin: std::time::Instant,
    events: VecDeque<(u64, HealthEvent)>,
    consecutive_failures: u32,
    status: HealthStatus,
    consecutive_failure_threshold: u32,
    successes: u64,
    failures: u64,
    last_error: Option<String>,
}

/// What is known of a provider's health.
#[verifier::ext_equal]
pub struct HealthView {
    /// The events of the window with the time of each, oldest first.
    pub events: Seq<(u64, HealthEvent)>,
    /// Number of consecutive failures since the last success.
    pub consecutive_failures: u32,
    /// Current health status.
    pub status: HealthStatus,
    /// Consecutive failures that trigger unhealthy state.
    pub threshold: u32,
    /// Successes since the daemon started.
    pub successes: u64,
    /// Failures since the daemon started.
    pub failures: u64,
    /// The last error message, if any.
    pub last_error: Option<Seq<char>>,
}

/// The earliest time that is still in the window at `now`.
pub open spec fn cutoff(now: u64) -> u64 {
    if now >= HEALTH_WINDOW_NANOS {
        (now - HEALTH_WINDOW_NANOS) as u64
    } else {
        0
    }
}

/// The events without those at the front that have left the window.
pub open spec fn unexpired(events: Seq<(u64, HealthEvent)>, now: u64) -> Seq<(u64, HealthEvent)>
    decreases events.len(),
{
    if events.len() > 0 && events[0].0 < cutoff(now) {
        unexpired(events.drop_first(), now)
    } else {
        events
    }
}

/// How many events lie in the window at `now`.
pub open spec fn count_in_window(events: Seq<(u64, HealthEvent)>, now: u64) -> nat
    decreases events.len(),
{
    if events.len() == 0 {
        0
    } else {
        count_in_window(events.drop_last(), now) + if events.last().0 >= cutoff(now) {
            1nat
        } else {
            0nat
        }
    }
}

/// How many successes lie in the window at `now`.
pub open spec fn successes_in_window(events: Seq<(u64, HealthEvent)>, now: u64) -> nat
    decreases events.len(),
{
    if events.len() == 0 {
        0
    } else {
        successes_in_window(events.drop_last(), now) + if events.last().0 >= cutoff(now)
            && events.last().1 == HealthEvent::Success {
            1nat
        } else {
            0nat
        }
    }
}

/// One more, unless the counter is at its end.
pub open spec fn counted(n: u64) -> u64 {
    if n < u64::MAX {
        (n + 1) as u64
    } else {
        n
    }
}

/// What is known after a success at `now`.
pub open spec fn after_success(h: HealthView, now: u64) -> HealthView {
    HealthView {
        events: unexpired(h.events, now).push((now, HealthEvent::Success)),
        consecutive_failures: 0,
        status: HealthStatus::Healthy,
        successes: counted(h.successes),
        ..h
    }
}

/// The status after a failure, with the failure among the events.
pub open spec fn status_after_failure(
    h: HealthView,
    events: Seq<(u64, HealthEvent)>,
    failures_in_a_row: u32,
    now: u64,
) -> HealthStatus {
    if failures_in_a_row >= h.threshold {
        HealthStatus::Unhealthy
    } else if events.len() >= MIN_EVENTS_FOR_DEGRADED && 2 * successes_in_window(events, now)
        < count_in_window(events, now) {
        HealthStatus::Degraded
    } else {
        h.status
    }
}

/// What is known after a failure at `now`.
pub open spec fn after_failure(h: HealthView, now: u64) -> HealthView {
    let events = unexpired(h.events, now).push((now, HealthEvent::Failure));
    let in_a_row = if h.consecutive_failures < u32::MAX {
        (h.consecutive_failures + 1) as u32
    } else {
        h.consecutive_failures
    };
    HealthView {
        events,
        consecutive_failures: in_a_row,
        status: status_after_failure(h, events, in_a_row, now),
        failures: counted(h.failures),
        ..h
    }
}

/// Whether `after` is what is known after a success at some time.
pub open spec fn follows_success(before: HealthView, after: HealthView) -> bool {
    exists|now: u64| after == #[trigger] after_success(before, now)
}

/// Whether `after` is what is known after a failure at some time.
pub open spec fn follows_failure(before: HealthView, after: HealthView) -> bool {
    exists|now: u64| after == #[trigger] after_failure(before, now)
}

impl View for HealthState {
    type V = HealthView;

    closed spec fn view(&self) -> HealthView {
        HealthView {
            events: self.events@,
            consecutive_failures: self.consecutive_failures,
            status: self.status,
            threshold: self.consecutive_failure_threshold,
            successes: self.successes,
            failures: self.failures,
            last_error: match self.last_error {
                Some(message) => Some(message@),
                None => None,
            },
        }
    }
}

impl HealthState {
    /// Create a new `HealthState` with default values.
    ///
    /// A newly created state is [`HealthStatus::Healthy`] and has an empty
    /// event window.
    pub fn new(consecutive_failure_threshold: u32) -> (r: Self)
        ensures
            r@ == (HealthView {
                events: Seq::empty(),
                consecutive_failures: 0,
                status: HealthStatus::Healthy,
                threshold: consecutive_failure_threshold,
                successes: 0,
                failures: 0,
                last_error: None,
            }),
    {
        HealthState {
            origin: std::time::Instant::now(),
            events: VecDeque::new(),
            consecutive_failures: 0,
            status: HealthStatus::Healthy,
            consecutive_failure_threshold,
            successes: 0,
            failures: 0,
            last_error: None,
        }
    }

    /// Record a successful provider response.
    ///
    /// Resets the consecutive failure counter and can recover the provider
    /// from [`HealthStatus::Unhealthy`].
    pub fn record_success(&mut self)
        ensures
            follows_success(old(self)@, final(self)@),
    {
        let now: u64 = nanos_since(&self.origin);
        self.record_success_at(now);
    }

    /// Record a successful provider response at the given time.
    pub fn record_success_at(&mut self, now: u64)
        ensures
            final(self)@ == after_success(old(self)@, now),
    {
        self.prune_expired(now);
        self.events.push_back((now, HealthEvent::Success));
        self.consecutive_failures = 0;
        self.status = HealthStatus::Healthy;
        self.successes = self.successes.saturating_add(1);
    }

    /// Record a failed provider response.
    ///
    /// Increments the consecutive failure counter. If the counter reaches the
    /// threshold, the status transitions to [`HealthStatus::Unhealthy`].
    pub fn record_failure(&mut self)
        ensures
            follows_failure(old(self)@, final(self)@),
    {
        let now: u64 = nanos_since(&self.origin);
        self.record_failure_at(now);
    }

    /// Record a failed provider response at the given time.
    pub fn record_failure_at(&mut self, now: u64)
        ensures
            final(self)@ == after_failure(old(self)@, now),
    {
        self.prune_expired(now);
        self.events.push_back((now, HealthEvent::Failure));
        self.consecutive_failures = self.consecutive_failures.saturating_add(1);
        self.failures = self.failures.saturating_add(1);
        if self.consecutive_failures >= self.consecutive_failure_threshold {
            self.status = HealthStatus::Unhealthy;
        } else if self.events.len() >= MIN_EVENTS_FOR_DEGRADED {
            let (successes, total) = self.tally(now);
            if 2 * (successes as u128) < total as u128 {
                self.status = HealthStatus::Degraded;
            }
        }
    }

    /// Keep the message of an error for status reports.
    pub fn note_error(&mut self, message: String)
        ensures
            final(self)@ == (HealthView { last_error: Some(message@), ..old(self)@ }),
    {
        self.last_error = Some(message);
    }

    /// Returns `true` when the provider's status is [`HealthStatus::Healthy`].
    ///
    /// The status field is the single source of truth, updated by
    /// [`record_success`](Self::record_success) and
    /// [`record_failure`](Self::record_failure).
    pub fn is_healthy(&self) -> (r: bool)
        ensures
            r == (self@.status == HealthStatus::Healthy),
    {
        self.status == HealthStatus::Healthy
    }

    /// Return the current [`HealthStatus`].
    pub fn status(&self) -> (r: HealthStatus)
        ensures
            r == self@.status,
    {
        self.status
    }

    /// Compute the health score as the success rate over the sliding window.
    ///
    /// Only events of the window count, even when called independently of
    /// `record_success`/`record_failure`. The score is one when there are none.
    pub fn health_score(&self) -> (r: Ratio)
        ensures
            is_current_score(r, self@.events),
            r.part <= r.whole,
            r.whole > 0,
    {
        let now: u64 = nanos_since(&self.origin);
        self.health_score_at(now)
    }

    /// Compute the health score at the given time.
    pub fn health_score_at(&self, now: u64) -> (r: Ratio)
        ensures
            is_score(r, self@.events, now),
            r.part <= r.whole,
            r.whole > 0,
    {
        let (successes, total) = self.tally(now);
        if total == 0 {
            Ratio { part: 1, whole: 1 }
        } else {
            Ratio { part: successes, whole: total as u128 }
        }
    }

    /// Return the number of consecutive failures since the last success.
    pub fn consecutive_failures(&self) -> (r: u32)
        ensures
            r == self@.consecutive_failures,
    {
        self.consecutive_failures
    }

    /// Total successful requests since the daemon started.
    pub fn success_count(&self) -> (r: u64)
        ensures
            r == self@.successes,
    {
        self.successes
    }

    /// Total failed requests since the daemon started.
    pub fn failure_count(&self) -> (r: u64)
        ensures
            r == self@.failures,
    {
        self.failures
    }

    /// The last error message, if any.
    pub fn last_error(&self) -> (r: Option<String>)
        ensures
            self@.last_error == (match r {
                Some(message) => Some(message@),
                None => None,
            }),
    {
        crate::search::request::copy_option(&self.last_error)
    }

    /// How many successes and how many events lie in the window.
    fn tally(&self, now: u64) -> (r: (u64, u64))
        ensures
            r.0 == successes_in_window(self@.events, now),
            r.1 == count_in_window(self@.events, now),
            r.0 <= r.1,
    {
        let start: u64 = now.saturating_sub(HEALTH_WINDOW_NANOS);
        let mut successes: u64 = 0;
        let mut total: u64 = 0;
        let mut i: usize = 0;
        while i < self.events.len()
            invariant
                i <= self.events@.len(),
                start == cutoff(now),
                successes <= total <= i,
                successes == successes_in_window(self.events@.take(i as int), now),
                total == count_in_window(self.events@.take(i as int), now),
            decreases self.events@.len() - i,
        {
            let event = self.events[i];
            proof {
                assert(self.events@.take(i + 1).drop_last() =~= self.events@.take(i as int));
                assert(self.events@.take(i + 1).last() == event);
            }
            if event.0 >= start {
                total = total + 1;
                if event.1 == HealthEvent::Success {
                    successes = successes + 1;
                }
            }
            i = i + 1;
        }
        assert(self.events@.take(self.events@.len() as int) =~= self.events@);
        (successes, total)
    }

    /// Prune events that are older than the 5-minute window.
    fn prune_expired(&mut self, now: u64)
        ensures
            final(self)@ == (HealthView { events: unexpired(old(self)@.events, now), ..old(self)@ }),
    {
        let start: u64 = now.saturating_sub(HEALTH_WINDOW_NANOS);
        while self.events.len() > 0 && self.events[0].0 < start
            invariant
                start == cutoff(now),
                unexpired(self.events@, now) == unexpired(old(self).events@, now),
                self@ == (HealthView { events: self.events@, ..old(self)@ }),
            decreases self.events@.len(),
        {
            let ghost prior = self.events@;
            let _ = self.events.pop_front();
            assert(self.events@ =~= prior.drop_first());
        }
    }
}

/// Whether a ratio is the success rate over the window at `now`: one where the
/// window is empty.
pub open spec fn is_score(r: Ratio, events: Seq<(u64, HealthEvent)>, now: u64) -> bool {
    if count_in_window(events, now) == 0 {
        r == (Ratio { part: 1, whole: 1 })
    } else {
        r.part == successes_in_window(events, now) && r.whole == count_in_window(events, now)
    }
}

/// Whether a ratio is the success rate over the window at some time.
pub open spec fn is_current_score(r: Ratio, events: Seq<(u64, HealthEvent)>) -> bool {
    exists|now: u64| is_score(r, events, now)
}

/// A success heals: whatever came before it, the provider is healthy after it and
/// has no failures in a row.
pub proof fn success_recovers(h: HealthView, now: u64)
    ensures
        after_success(h, now).status == HealthStatus::Healthy,
        after_success(h, now).consecutive_failures == 0,
{
}

/// The health after failures at the given times.
pub open spec fn after_failures(h: HealthView, times: Seq<u64>) -> HealthView
    decreases times.len(),
{
    if times.len() == 0 {
        h
    } else {
        after_failure(after_failures(h, times.drop_last()), times.last())
    }
}

/// As many failures in a row as the threshold says, or more, make a provider
/// unhealthy, whatever its health was before and whenever they come.
pub proof fn failures_in_a_row_make_unhealthy(h: HealthView, times: Seq<u64>)
    requires
        times.len() >= h.threshold,
        times.len() > 0,
        h.consecutive_failures + times.len() <= u32::MAX,
    ensures
        after_failures(h, times).status == HealthStatus::Unhealthy,
{
    lemma_failures_count(h, times);
    lemma_failures_count(h, times.drop_last());
}

proof fn lemma_failures_count(h: HealthView, times: Seq<u64>)
    requires
        h.consecutive_failures + times.len() <= u32::MAX,
    ensures
        after_failures(h, times).consecutive_failures == h.consecutive_failures + times.len(),
        after_failures(h, times).threshold == h.threshold,
    decreases times.len(),
{
    if times.len() > 0 {
        lemma_failures_count(h, times.drop_last());
    }
}

/// What lies in the window is what happened in the last five minutes: the counts are those of
/// the events, and of the successes among them, that are no older than that.
pub proof fn the_window_is_five_minutes(events: Seq<(u64, HealthEvent)>, now: u64)
    ensures
        count_in_window(events, now) == events.filter(
            |e: (u64, HealthEvent)| e.0 + 5 * 60 * 1_000_000_000 >= now,
        ).len(),
        successes_in_window(events, now) == events.filter(
            |e: (u64, HealthEvent)|
                e.0 + 5 * 60 * 1_000_000_000 >= now && e.1 == HealthEvent::Success,
        ).len(),
    decreases events.len(),
{
    reveal(Seq::filter);
    if events.len() > 0 {
        the_window_is_five_minutes(events.drop_last(), now);
    }
}

/// Events leave from the front, and only those that are older than five minutes; where events
/// came in the order of their times, all of those leave.
pub proof fn only_old_events_leave(events: Seq<(u64, HealthEvent)>, now: u64)
    ensures
        exists|n: int|
            0 <= n <= events.len() && unexpired(events, now) == #[trigger] events.skip(n) && (forall|
                i: int,
            |
                0 <= i < n ==> (#[trigger] events[i]).0 + 5 * 60 * 1_000_000_000 < now) && (n
                < events.len() ==> events[n].0 + 5 * 60 * 1_000_000_000 >= now),
    decreases events.len(),
{
    if events.len() > 0 && events[0].0 < cutoff(now) {
        let rest = events.drop_first();
        only_old_events_leave(rest, now);
        let n = choose|n: int|
            0 <= n <= rest.len() && unexpired(rest, now) == #[trigger] rest.skip(n) && (forall|
                i: int,
            |
                0 <= i < n ==> (#[trigger] rest[i]).0 + 5 * 60 * 1_000_000_000 < now) && (n
                < rest.len() ==> rest[n].0 + 5 * 60 * 1_000_000_000 >= now);
        assert(rest.skip(n) =~= events.skip(n + 1));
        assert forall|i: int| 0 <= i < n + 1 implies (#[trigger] events[i]).0 + 5 * 60
            * 1_000_000_000 < now by {
            if i > 0 {
                assert(events[i] == rest[i - 1]);
            }
        }
        if n < rest.len() {
            assert(rest[n] == events[n + 1]);
        }
    } else {
        assert(events.skip(0) =~= events);
    }
}

/// A success is noted as the last event and counted, ends the row of failures and makes the
/// provider healthy; failures and the last error stay as they are.
pub proof fn a_success_is_noted(before: HealthView, now: u64)
    ensures
        ({
            let after = after_success(before, now);
            &&& after.events == unexpired(before.events, now) + seq![(now, HealthEvent::Success)]
            &&& after.status == HealthStatus::Healthy
            &&& after.consecutive_failures == 0
            &&& before.successes < u64::MAX ==> after.successes == before.successes + 1
            &&& after.failures == before.failures
            &&& after.threshold == before.threshold
            &&& after.last_error == before.last_error
        }),
{
    assert(unexpired(before.events, now).push((now, HealthEvent::Success)) =~= unexpired(
        before.events,
        now,
    ) + seq![(now, HealthEvent::Success)]);
}

/// A failure is noted as the last event and counted, and prolongs the row of failures. It makes
/// the provider unhealthy where the row is as long as the threshold; else degraded where fewer
/// than half of three or more recent events are successes; else it leaves the status.
pub proof fn a_failure_is_noted(before: HealthView, now: u64)
    ensures
        ({
            let after = after_failure(before, now);
            let recent = |e: (u64, HealthEvent)| e.0 + 5 * 60 * 1_000_000_000 >= now;
            let good = |e: (u64, HealthEvent)|
                e.0 + 5 * 60 * 1_000_000_000 >= now && e.1 == HealthEvent::Success;
            let mostly_bad = after.events.len() >= 3 && 2 * after.events.filter(good).len()
                < after.events.filter(recent).len();
            &&& after.events == unexpired(before.events, now) + seq![(now, HealthEvent::Failure)]
            &&& before.consecutive_failures < u32::MAX ==> after.consecutive_failures
                == before.consecutive_failures + 1
            &&& after.consecutive_failures >= before.threshold ==> after.status
                == HealthStatus::Unhealthy
            &&& after.consecutive_failures < before.threshold && mostly_bad ==> after.status
                == HealthStatus::Degraded
            &&& after.consecutive_failures < before.threshold && !mostly_bad ==> after.status
                == before.status
            &&& before.failures < u64::MAX ==> after.failures == before.failures + 1
            &&& after.successes == before.successes
            &&& after.threshold == before.threshold
            &&& after.last_error == before.last_error
        }),
{
    let events = unexpired(before.events, now).push((now, HealthEvent::Failure));
    the_window_is_five_minutes(events, now);
    assert(events =~= unexpired(before.events, now) + seq![(now, HealthEvent::Failure)]);
}

/// The score is the share of successes among the events of the last five minutes, and one where
/// there were none.
pub proof fn the_score_is_the_share_of_successes(
    r: Ratio,
    events: Seq<(u64, HealthEvent)>,
    now: u64,
)
    requires
        is_score(r, events, now),
    ensures
        ({
            let total = events.filter(
                |e: (u64, HealthEvent)| e.0 + 5 * 60 * 1_000_000_000 >= now,
            ).len();
            let good = events.filter(
                |e: (u64, HealthEvent)|
                    e.0 + 5 * 60 * 1_000_000_000 >= now && e.1 == HealthEvent::Success,
            ).len();
            &&& total == 0 ==> r.part == 1 && r.whole == 1
            &&& total > 0 ==> r.part == good && r.whole == total
        }),
{
    the_window_is_five_minutes(events, now);
}

/// Three failures in a row take a provider out of the running, and one success brings it back,
/// whatever lies between.
pub proof fn a_success_ends_the_row(h: HealthView, times: Seq<u64>, now: u64)
    ensures
        after_success(after_failures(h, times), now).status == HealthStatus::Healthy,
        after_success(after_failures(h, times), now).consecutive_failures == 0,
{
}

/// What is noted of an outcome is that some time has passed and the outcome came in, no more.
pub proof fn outcomes_are_noted_at_some_time(before: HealthView, after: HealthView)
    ensures
        follows_success(before, after) ==> after.status == HealthStatus::Healthy
            && after.consecutive_failures == 0 && after.events.len() > 0 && after.events.last().1
            == HealthEvent::Success && after.last_error == before.last_error && after.failures
            == before.failures,
        follows_failure(before, after) ==> after.events.len() > 0 && after.events.last().1
            == HealthEvent::Failure && after.last_error == before.last_error && after.successes
            == before.successes && (before.consecutive_failures < u32::MAX
            ==> after.consecutive_failures == before.consecutive_failures + 1) && (
        after.consecutive_failures >= before.threshold ==> after.status == HealthStatus::Unhealthy),
{
}

} // verus!
