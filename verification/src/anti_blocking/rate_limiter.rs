//! Sliding-window rate limiter for per-provider request throttling.
//!
//! The limiter works on readings of a monotonic clock in nanoseconds, which the
//! caller takes: [`RateLimiter::try_acquire`] either grants a slot or says how long
//! to sleep before asking again.

use crate::named::NamedList;
use std::collections::VecDeque;
use vstd::prelude::*;

verus! {

/// The length of the window in nanoseconds: 60 seconds.
pub const WINDOW_NANOS: u64 = 60_000_000_000;

/// The answer to a request for a slot.
#[derive(Debug, Clone, Copy, PartialEq, Eq, Structural)]
pub enum Slot {
    /// The slot is granted and counted.
    Granted,
    /// No slot is free for so many nanoseconds.
    Wait {
        /// The time until the oldest entry leaves the window.
        nanos: u64,
    },
}

/// The time that has passed since `then`: none where the clock has not reached it.
pub open spec fn age(now: u64, then: u64) -> int {
    if now >= then {
        now - then
    } else {
        0
    }
}

/// The entries without those at the front that are a full window old.
pub open spec fn pruned(entries: Seq<u64>, now: u64) -> Seq<u64>
    decreases entries.len(),
{
    if entries.len() > 0 && age(now, entries[0]) >= WINDOW_NANOS {
        pruned(entries.drop_first(), now)
    } else {
        entries
    }
}

/// The answer to a request at `now`, given the entries of the bucket.
pub open spec fn slot_for(entries: Seq<u64>, rpm: u32, now: u64) -> Slot {
    let live = pruned(entries, now);
    if live.len() < rpm {
        Slot::Granted
    } else {
        Slot::Wait { nanos: (WINDOW_NANOS - age(now, live[0])) as u64 }
    }
}

/// The entries of the bucket after a request at `now`.
pub open spec fn entries_after(entries: Seq<u64>, rpm: u32, now: u64) -> Seq<u64> {
    let live = pruned(entries, now);
    if live.len() < rpm {
        live.push(now)
    } else {
        live
    }
}

/// Sliding-window rate limiter keyed by a provider or resource name.
///
/// Each named bucket tracks timestamps of recent requests within a 60-second
/// window, oldest first.
#[derive(Debug)]
pub struct RateLimiter {
    windows: NamedList<VecDeque<u64>>,
}

impl RateLimiter {
    /// The entries of the named bucket, oldest first; none for a name not seen yet.
    pub closed spec fn entries(&self, name: Seq<char>) -> Seq<u64> {
        match self.windows.value_of(name) {
            Some(deque) => deque@,
            None => Seq::empty(),
        }
    }

    /// Create a new, empty rate limiter.
    pub fn new() -> (r: Self)
        ensures
            forall|name: Seq<char>| #[trigger] r.entries(name) == Seq::<u64>::empty(),
    {
        RateLimiter { windows: NamedList::new() }
    }

    /// Ask for a request slot of the named resource at time `now`.
    ///
    /// 1. Expired entries (60 s old or older) are pruned.
    /// 2. If the remaining count is below `rpm`, `now` is pushed and the slot granted.
    /// 3. Otherwise the answer is how long it takes until the oldest entry exits the
    ///    window.
    ///
    /// Buckets of other names are left as they are.
    pub fn try_acquire(&mut self, name: &str, rpm: u32, now: u64) -> (r: Slot)
        requires
            rpm > 0,
        ensures
            r == slot_for(old(self).entries(name@), rpm, now),
            final(self).entries(name@) == entries_after(old(self).entries(name@), rpm, now),
            forall|other: Seq<char>|
                other != name@ ==> #[trigger] final(self).entries(other) == old(self).entries(other),
    {
        match self.windows.get_mut(name) {
            Some(deque) => request_slot(deque, rpm, now),
            None => {
                let mut deque: VecDeque<u64> = VecDeque::new();
                let slot = request_slot(&mut deque, rpm, now);
                self.windows.set(name.to_owned(), deque);
                slot
            },
        }
    }
}

impl Default for RateLimiter {
    fn default() -> (r: Self)
        ensures
            forall|name: Seq<char>| #[trigger] r.entries(name) == Seq::<u64>::empty(),
    {
        RateLimiter::new()
    }
}

fn request_slot(deque: &mut VecDeque<u64>, rpm: u32, now: u64) -> (r: Slot)
    requires
        rpm > 0,
    ensures
        r == slot_for(old(deque)@, rpm, now),
        final(deque)@ == entries_after(old(deque)@, rpm, now),
{
    while deque.len() > 0 && now >= deque[0] && now - deque[0] >= WINDOW_NANOS
        invariant
            pruned(deque@, now) == pruned(old(deque)@, now),
        decreases deque@.len(),
    {
        let ghost prior = deque@;
        let _ = deque.pop_front();
        assert(deque@ =~= prior.drop_first());
    }
    assert(pruned(deque@, now) == deque@);
    if (deque.len() as u64) < rpm as u64 {
        deque.push_back(now);
        Slot::Granted
    } else {
        let oldest: u64 = deque[0];
        let age: u64 = if now >= oldest {
            now - oldest
        } else {
            0
        };
        Slot::Wait { nanos: WINDOW_NANOS - age }
    }
}

/// Whether no reading of the clock is earlier than one before it.
pub open spec fn nondecreasing(times: Seq<u64>) -> bool {
    forall|i: int, j: int| 0 <= i <= j < times.len() ==> times[i] <= times[j]
}

/// The entries of a bucket after requests at the given times, from an empty bucket on.
pub open spec fn entries_of_run(times: Seq<u64>, rpm: u32) -> Seq<u64>
    decreases times.len(),
{
    if times.len() == 0 {
        Seq::empty()
    } else {
        entries_after(entries_of_run(times.drop_last(), rpm), rpm, times.last())
    }
}

/// The times of those of the requests that were granted.
pub open spec fn grants_of_run(times: Seq<u64>, rpm: u32) -> Seq<u64>
    decreases times.len(),
{
    if times.len() == 0 {
        Seq::empty()
    } else {
        let init = times.drop_last();
        if slot_for(entries_of_run(init, rpm), rpm, times.last()) is Granted {
            grants_of_run(init, rpm).push(times.last())
        } else {
            grants_of_run(init, rpm)
        }
    }
}

/// Pruning drops a run of entries from the front, each of them a full window old.
proof fn lemma_pruned(entries: Seq<u64>, now: u64) -> (dropped: int)
    ensures
        0 <= dropped <= entries.len(),
        pruned(entries, now) == entries.skip(dropped),
        forall|j: int| 0 <= j < dropped ==> age(now, #[trigger] entries[j]) >= WINDOW_NANOS,
    decreases entries.len(),
{
    if entries.len() > 0 && age(now, entries[0]) >= WINDOW_NANOS {
        let rest = entries.drop_first();
        let k = lemma_pruned(rest, now);
        assert(rest.skip(k) =~= entries.skip(k + 1));
        assert forall|j: int| 0 <= j < k + 1 implies age(now, #[trigger] entries[j]) >= WINDOW_NANOS by {
            if j > 0 {
                assert(entries[j] == rest[j - 1]);
            }
        }
        k + 1
    } else {
        assert(entries.skip(0) =~= entries);
        0
    }
}

/// After any run the bucket holds the last grants, those before them are a full
/// window old, and grants `rpm` apart are a full window apart.
proof fn lemma_run(times: Seq<u64>, rpm: u32)
    requires
        nondecreasing(times),
        rpm > 0,
    ensures
        entries_of_run(times, rpm).len() <= grants_of_run(times, rpm).len(),
        ({
            let g = grants_of_run(times, rpm);
            let e = entries_of_run(times, rpm);
            let old_ones = g.len() - e.len();
            &&& e == g.skip(old_ones)
            &&& forall|k: int| 0 <= k < g.len() ==> #[trigger] g[k] <= times.last()
            &&& forall|k: int| 0 <= k < old_ones ==> times.last() - #[trigger] g[k] >= WINDOW_NANOS
            &&& forall|k: int|
                0 <= k && k + rpm < g.len() ==> (#[trigger] g[k + rpm]) - g[k] >= WINDOW_NANOS
        }),
    decreases times.len(),
{
    let g = grants_of_run(times, rpm);
    let e = entries_of_run(times, rpm);
    if times.len() == 0 {
        assert(e =~= g.skip(0));
    } else {
        let init = times.drop_last();
        let now = times.last();
        assert(nondecreasing(init));
        lemma_run(init, rpm);
        let g0 = grants_of_run(init, rpm);
        let e0 = entries_of_run(init, rpm);
        let cut = g0.len() - e0.len();
        if init.len() > 0 {
            assert(init.last() == times[times.len() - 2]);
            assert(init.last() <= now);
        }
        let k0 = lemma_pruned(e0, now);
        let live = pruned(e0, now);
        assert(live =~= g0.skip(cut + k0));
        assert forall|k: int| 0 <= k < cut + k0 implies now - #[trigger] g0[k] >= WINDOW_NANOS by {
            if k >= cut {
                assert(e0[k - cut] == g0[k]);
                assert(age(now, e0[k - cut]) >= WINDOW_NANOS);
            }
        }
        if live.len() < rpm {
            assert(g == g0.push(now));
            assert(e =~= g.skip(cut + k0));
            assert forall|k: int| 0 <= k && k + rpm < g.len() implies (#[trigger] g[k + rpm]) - g[k]
                >= WINDOW_NANOS by {
                if k + rpm == g0.len() {
                    assert(g0[k] == g[k]);
                } else {
                    assert(g0[k + rpm] == g[k + rpm]);
                }
            }
        } else {
            assert(g == g0);
        }
    }
}

/// The limit holds: however requests come, of any `rpm + 1` grants in a row the
/// last comes a full window or more after the first, so no 60 seconds see more than
/// `rpm` of them.
pub proof fn no_window_sees_more_than_rpm_grants(times: Seq<u64>, rpm: u32, i: int)
    requires
        nondecreasing(times),
        rpm > 0,
        0 <= i,
        i + rpm < grants_of_run(times, rpm).len(),
    ensures
        grants_of_run(times, rpm)[i + rpm] - grants_of_run(times, rpm)[i] >= WINDOW_NANOS,
{
    lemma_run(times, rpm);
}

/// Waiting helps: one who sleeps for as long as they were told, and finds no other
/// request in between, is granted a slot.
pub proof fn a_slot_is_free_after_the_wait(entries: Seq<u64>, rpm: u32, now: u64, nanos: u64)
    requires
        rpm > 0,
        entries.len() <= rpm,
        forall|k: int| 0 <= k < entries.len() ==> #[trigger] entries[k] <= now,
        slot_for(entries, rpm, now) == (Slot::Wait { nanos }),
        now + nanos <= u64::MAX,
    ensures
        nanos > 0,
        slot_for(entries_after(entries, rpm, now), rpm, (now + nanos) as u64) is Granted,
{
    let k = lemma_pruned(entries, now);
    let live = pruned(entries, now);
    assert(live[0] == entries[k]);
    let later = (now + nanos) as u64;
    let j = lemma_pruned(live, later);
    assert(age(now, live[0]) < WINDOW_NANOS) by {
        lemma_pruned_head(entries, now);
    }
    assert(age(later, live[0]) >= WINDOW_NANOS);
    lemma_pruned_head(live, later);
}

proof fn lemma_pruned_head(entries: Seq<u64>, now: u64)
    ensures
        pruned(entries, now).len() > 0 ==> age(now, pruned(entries, now)[0]) < WINDOW_NANOS,
    decreases entries.len(),
{
    if entries.len() > 0 && age(now, entries[0]) >= WINDOW_NANOS {
        lemma_pruned_head(entries.drop_first(), now);
    }
}

/// Of entries in the order of their times those are kept that are less than a minute old, which
/// is how long the window is.
pub proof fn a_minute_is_kept(entries: Seq<u64>, now: u64)
    requires
        nondecreasing(entries),
        forall|k: int| 0 <= k < entries.len() ==> #[trigger] entries[k] <= now,
    ensures
        pruned(entries, now) == entries.filter(|t: u64| now - t < 60 * 1_000_000_000),
    decreases entries.len(),
{
    let young = |t: u64| now - t < 60 * 1_000_000_000;
    if entries.len() > 0 && age(now, entries[0]) >= WINDOW_NANOS {
        let rest = entries.drop_first();
        assert forall|i: int, j: int| 0 <= i <= j < rest.len() implies rest[i] <= rest[j] by {
            assert(rest[i] == entries[i + 1] && rest[j] == entries[j + 1]);
        }
        assert forall|k: int| 0 <= k < rest.len() implies #[trigger] rest[k] <= now by {
            assert(rest[k] == entries[k + 1]);
        }
        a_minute_is_kept(rest, now);
        lemma_filter_first(entries, young);
    } else {
        assert forall|k: int| 0 <= k < entries.len() implies young(#[trigger] entries[k]) by {
            assert(entries[0] <= entries[k]);
        }
        lemma_filter_all(entries, young);
    }
}

proof fn lemma_filter_first(s: Seq<u64>, pred: spec_fn(u64) -> bool)
    requires
        s.len() > 0,
        !pred(s[0]),
    ensures
        s.filter(pred) == s.drop_first().filter(pred),
    decreases s.len(),
{
    reveal(Seq::filter);
    if s.len() > 1 {
        lemma_filter_first(s.drop_last(), pred);
        assert(s.drop_last().drop_first() =~= s.drop_first().drop_last());
    } else {
        assert(s.drop_last() =~= Seq::empty());
        assert(s.drop_first() =~= Seq::empty());
    }
}

proof fn lemma_filter_all(s: Seq<u64>, pred: spec_fn(u64) -> bool)
    requires
        forall|k: int| 0 <= k < s.len() ==> pred(#[trigger] s[k]),
    ensures
        s.filter(pred) == s,
    decreases s.len(),
{
    reveal(Seq::filter);
    if s.len() > 0 {
        let front = s.drop_last();
        assert forall|k: int| 0 <= k < front.len() implies pred(#[trigger] front[k]) by {
            assert(front[k] == s[k]);
        }
        lemma_filter_all(front, pred);
        assert(pred(s[s.len() - 1]));
        assert(front.push(s.last()) =~= s);
    } else {
        assert(s.filter(pred) =~= s);
    }
}

/// A slot is granted exactly where fewer than `rpm` requests were granted in the last minute, and
/// then noted as the last of these; one who has to wait is told when the oldest of them is a
/// minute old.
pub proof fn slots_are_granted_below_the_limit(entries: Seq<u64>, rpm: u32, now: u64)
    requires
        rpm > 0,
        nondecreasing(entries),
        forall|k: int| 0 <= k < entries.len() ==> #[trigger] entries[k] <= now,
    ensures
        ({
            let recent = entries.filter(|t: u64| now - t < 60 * 1_000_000_000);
            &&& slot_for(entries, rpm, now) is Granted <==> recent.len() < rpm
            &&& recent.len() < rpm ==> entries_after(entries, rpm, now) == recent.push(now)
            &&& recent.len() >= rpm ==> entries_after(entries, rpm, now) == recent && slot_for(
                entries,
                rpm,
                now,
            ) == (Slot::Wait { nanos: (recent[0] + 60 * 1_000_000_000 - now) as u64 })
        }),
{
    a_minute_is_kept(entries, now);
    lemma_pruned_head(entries, now);
    let k = lemma_pruned(entries, now);
}

} // verus!
