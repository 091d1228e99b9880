//! Page delays: the requests to one provider are a random time apart.
//!
//! Like the rate limiter, the pacer works on readings of a monotonic clock in
//! nanoseconds, which the caller takes: [`RequestPacer::reserve`] says how long to
//! sleep before a request is sent.

use crate::anti_blocking::retry::random_draw;
use crate::config::AntiBlockingConfig;
use crate::named::NamedList;
use vstd::prelude::*;

verus! {

/// Nanoseconds in a millisecond.
pub const NANOS_PER_MILLI: u64 = 1_000_000;

/// The bounds of the delay between two requests.
#[derive(Debug, Clone, Copy, PartialEq, Eq, Structural)]
pub struct PageDelay {
    /// The shortest delay in milliseconds.
    pub min_ms: u64,
    /// The longest delay in milliseconds.
    pub max_ms: u64,
}

impl PageDelay {
    /// The bounds that are configured.
    pub fn of(config: &AntiBlockingConfig) -> (r: PageDelay)
        ensures
            r.min_ms == config.page_delay_min_ms,
            r.max_ms == config.page_delay_max_ms,
    {
        PageDelay { min_ms: config.page_delay_min_ms, max_ms: config.page_delay_max_ms }
    }
}

/// The delay in milliseconds once `draw` of `2^53` equal parts of the range between the
/// bounds, both of them included, were drawn. Bounds in the wrong order leave the first.
pub open spec fn delay_drawn(delay: PageDelay, draw: u64) -> int {
    if delay.min_ms <= delay.max_ms {
        delay.min_ms + ((delay.max_ms - delay.min_ms + 1) * draw) / 0x20_0000_0000_0000
    } else {
        delay.min_ms as int
    }
}

/// Every drawn delay is within the bounds.
pub proof fn delays_are_within_the_bounds(delay: PageDelay, draw: u64)
    requires
        delay.min_ms <= delay.max_ms,
        draw < 0x20_0000_0000_0000,
    ensures
        delay.min_ms <= delay_drawn(delay, draw) <= delay.max_ms,
{
    let width = delay.max_ms - delay.min_ms + 1;
    let part = (width * draw) / 0x20_0000_0000_0000;
    assert(0 <= part < width) by (nonlinear_arith)
        requires
            0 < width,
            0 <= draw < 0x20_0000_0000_0000,
            part == (width * draw) / 0x20_0000_0000_0000,
    ;
}

/// The delay before the next request, in milliseconds. `draw` is the jitter, in parts of
/// `2^53`.
pub fn page_delay_ms(delay: &PageDelay, draw: u64) -> (r: u64)
    requires
        draw < 0x20_0000_0000_0000,
    ensures
        r == delay_drawn(*delay, draw),
        delay.min_ms <= delay.max_ms ==> delay.min_ms <= r <= delay.max_ms,
{
    if delay.min_ms > delay.max_ms {
        return delay.min_ms;
    }
    proof {
        delays_are_within_the_bounds(*delay, draw);
    }
    let width: u128 = (delay.max_ms - delay.min_ms) as u128 + 1;
    assert(0 <= width * draw <= 0x1_0000_0000_0000_0000 * 0x20_0000_0000_0000) by (nonlinear_arith)
        requires
            0 <= width <= 0x1_0000_0000_0000_0000,
            0 <= draw <= 0x20_0000_0000_0000,
    ;
    let part: u128 = width * draw as u128 / 0x20_0000_0000_0000;
    delay.min_ms + part as u64
}

/// The delay before the next request, in milliseconds, drawn at random.
pub fn next_page_delay_ms(delay: &PageDelay) -> (r: u64)
    ensures
        exists|draw: u64| draw < 0x20_0000_0000_0000 && r == #[trigger] delay_drawn(*delay, draw),
        delay.min_ms <= delay.max_ms ==> delay.min_ms <= r <= delay.max_ms,
{
    page_delay_ms(delay, random_draw())
}

/// When a request that is ready at `now` is sent, where none may be sent before `earliest`.
pub open spec fn sent_at(earliest: Option<u64>, now: u64) -> u64 {
    match earliest {
        Some(time) => if time > now {
            time
        } else {
            now
        },
        None => now,
    }
}

/// Before when no request may follow one that was sent at `sent`: the delay later, or at the
/// last instant that the clock can tell.
pub open spec fn earliest_after(sent: u64, delay_ms: u64) -> u64 {
    if sent + delay_ms * NANOS_PER_MILLI <= u64::MAX {
        (sent + delay_ms * NANOS_PER_MILLI) as u64
    } else {
        u64::MAX
    }
}

/// Keeps the requests to each provider apart.
#[derive(Debug)]
pub struct RequestPacer {
    next: NamedList<u64>,
}

impl RequestPacer {
    /// Before when no request to a provider may be sent; `None` before its first.
    pub closed spec fn earliest(&self, name: Seq<char>) -> Option<u64> {
        self.next.value_of(name)
    }

    /// A pacer that has seen no request.
    pub fn new() -> (r: Self)
        ensures
            forall|name: Seq<char>| #[trigger] r.earliest(name) is None,
    {
        RequestPacer { next: NamedList::new() }
    }

    /// Books a request to a provider that is ready at `now`, and says for how many nanoseconds
    /// it has to wait. The request after it comes no sooner than `delay_ms` later. The first
    /// request to a provider does not wait, and other providers are left as they are.
    pub fn reserve(&mut self, name: &str, now: u64, delay_ms: u64) -> (wait: u64)
        ensures
            now + wait == sent_at(old(self).earliest(name@), now),
            final(self).earliest(name@) == Some(
                earliest_after(sent_at(old(self).earliest(name@), now), delay_ms),
            ),
            forall|other: Seq<char>|
                other != name@ ==> #[trigger] final(self).earliest(other) == old(self).earliest(
                    other,
                ),
    {
        let sent: u64 = match self.next.get(name) {
            Some(time) => if *time > now {
                *time
            } else {
                now
            },
            None => now,
        };
        let gap: u128 = delay_ms as u128 * NANOS_PER_MILLI as u128;
        let earliest: u64 = if gap <= (u64::MAX - sent) as u128 {
            sent + gap as u64
        } else {
            u64::MAX
        };
        self.next.set(name.to_owned(), earliest);
        sent - now
    }
}

/// Two requests to one provider, one after the other, are at least the delay apart that was
/// drawn between them, and so at least the shortest delay, whenever the second was ready.
pub proof fn requests_are_kept_apart(delay: PageDelay, draw: u64, sent: u64, ready: u64)
    requires
        draw < 0x20_0000_0000_0000,
        sent + delay_drawn(delay, draw) * NANOS_PER_MILLI <= u64::MAX,
    ensures
        ({
            let next = sent_at(Some(earliest_after(sent, delay_drawn(delay, draw) as u64)), ready);
            &&& next >= ready
            &&& next >= sent + delay_drawn(delay, draw) * NANOS_PER_MILLI
            &&& next >= sent + delay.min_ms * NANOS_PER_MILLI
            &&& next == ready || next == sent + delay_drawn(delay, draw) * NANOS_PER_MILLI
        }),
{
    if delay.min_ms <= delay.max_ms {
        delays_are_within_the_bounds(delay, draw);
    }
}

/// The delay is the drawn share of the range, counted from its lower end, to the millisecond:
/// the whole range is drawn from.
pub proof fn delays_are_the_drawn_share(delay: PageDelay, draw: u64)
    requires
        delay.min_ms <= delay.max_ms,
        draw < 0x20_0000_0000_0000,
    ensures
        ({
            let above = delay_drawn(delay, draw) - delay.min_ms;
            let share = (delay.max_ms - delay.min_ms + 1) * draw;
            above * 0x20_0000_0000_0000 <= share < (above + 1) * 0x20_0000_0000_0000
        }),
{
}

/// The first request to a provider is sent as soon as it is ready, and so is one that comes when
/// the delay is over.
pub proof fn no_one_waits_without_need(earliest: u64, now: u64)
    ensures
        sent_at(None, now) == now,
        earliest <= now ==> sent_at(Some(earliest), now) == now,
        earliest > now ==> sent_at(Some(earliest), now) == earliest,
{
}

} // verus!
