use vstd::prelude::*;
use std::time::{Duration, Instant};

verus! {

#[verifier::external_type_specification]
#[verifier::external_body]
pub struct ExInstant(Instant);

/// Calls `Instant::now`. The reading depends on the clock; nothing is
/// stated of it.
#[verifier::external_body]
fn instant_now() -> Instant {
    Instant::now()
}

/// Calls `Instant::elapsed`. The reading depends on the clock; nothing is
/// stated of it.
#[verifier::external_body]
fn elapsed_since(origin: &Instant) -> Duration {
    origin.elapsed()
}

/// The total number of nanoseconds of a duration, as `Duration::as_nanos`
/// gives it.
pub uninterp spec fn duration_as_nanos(d: Duration) -> u128;

/// Calls `Duration::as_nanos`: the whole duration in nanoseconds, a value
/// that depends on the duration alone.
#[verifier::external_body]
fn duration_nanos(d: &Duration) -> (r: u128)
    ensures
        r == duration_as_nanos(*d),
{
    d.as_nanos()
}

/// Time from `last` to `now`, zero when `now` is earlier (as
/// `Instant::duration_since` saturates).
pub open spec fn elapsed_between(last: u128, now: u128) -> int {
    if now >= last { now - last } else { 0 }
}

/// Whether a message may be logged at `now`: always when nothing was
/// logged yet, otherwise once at least `interval` has passed since the last
/// logged message.
pub open spec fn may_log(last: Option<u128>, now: u128, interval: u128) -> bool {
    match last {
        None => true,
        Some(l) => elapsed_between(l, now) >= interval,
    }
}

/// Rate-limits log output to at most once per `interval`.
pub struct LogThrottle {
    origin: Instant,
    last: Option<u128>,
    interval: u128,
}

impl LogThrottle {
    /// Time (nanoseconds after the throttle's creation) of the last message
    /// let through; none before the first.
    pub closed spec fn last_logged(self) -> Option<u128> {
        self.last
    }

    /// The minimum gap between two messages, in nanoseconds.
    pub closed spec fn interval_nanos(self) -> u128 {
        self.interval
    }

    /// A throttle with a gap of `interval_nanos` nanoseconds whose first
    /// call always lets the message through.
    pub fn with_interval_nanos(interval_nanos: u128) -> (t: LogThrottle)
        ensures
            t.last_logged() is None,
            t.interval_nanos() == interval_nanos,
    {
        LogThrottle { origin: instant_now(), last: None, interval: interval_nanos }
    }

    /// A throttle with the given gap; the very first call always fires.
    pub fn new(interval: Duration) -> (t: LogThrottle)
        ensures
            t.last_logged() is None,
            t.interval_nanos() == duration_as_nanos(interval),
    {
        let n = duration_nanos(&interval);
        LogThrottle::with_interval_nanos(n)
    }

    /// A throttle that lets one message through per second.
    pub fn per_second() -> (t: LogThrottle)
        ensures
            t.last_logged() is None,
            t.interval_nanos() == 1_000_000_000,
    {
        LogThrottle::with_interval_nanos(1_000_000_000)
    }

    /// The decision at time `now` (nanoseconds after creation): `true` when
    /// the message may be logged, which then becomes the last one.
    pub fn should_log_at(&mut self, now: u128) -> (r: bool)
        ensures
            r == may_log(old(self).last_logged(), now, old(self).interval_nanos()),
            final(self).interval_nanos() == old(self).interval_nanos(),
            final(self).last_logged() == (if r { Some(now) } else { old(self).last_logged() }),
    {
        let fire = match self.last {
            None => true,
            Some(l) => {
                let elapsed = if now >= l { now - l } else { 0 };
                elapsed >= self.interval
            },
        };
        if fire {
            self.last = Some(now);
        }
        fire
    }

    /// Returns `true` at most once per interval, reading the clock.
    pub fn should_log(&mut self) -> (r: bool)
        ensures
            final(self).interval_nanos() == old(self).interval_nanos(),
            exists|d: Duration|
                r == may_log(old(self).last_logged(), #[trigger] duration_as_nanos(d), old(self).interval_nanos())
                    && final(self).last_logged() == (if r {
                    Some(duration_as_nanos(d))
                } else {
                    old(self).last_logged()
                }),
    {
        let elapsed = elapsed_since(&self.origin);
        let now = duration_nanos(&elapsed);
        let r = self.should_log_at(now);
        assert(now == duration_as_nanos(elapsed));
        r
    }
}

/// The first decision of a fresh throttle always lets the message through.
pub proof fn law_first_call_fires(now: u128, interval: u128)
    ensures
        may_log(None, now, interval),
{
}

/// At most one message per interval: once a message is let through at
/// `t1`, a message at any later time `t2` closer than the interval is held
/// back, and one that is let through is at least the interval later.
pub proof fn law_at_most_once_per_interval(t1: u128, t2: u128, interval: u128)
    requires
        t1 <= t2,
    ensures
        t2 - t1 < interval ==> !may_log(Some(t1), t2, interval),
        may_log(Some(t1), t2, interval) ==> t2 - t1 >= interval,
{
}

/// The last logged time after decisions at the times `nows`, in order,
/// starting from `last`: each decision that fires becomes the last one.
pub open spec fn last_after(last: Option<u128>, nows: Seq<u128>, interval: u128) -> Option<u128>
    decreases nows.len(),
{
    if nows.len() == 0 {
        last
    } else {
        let prev = last_after(last, nows.drop_last(), interval);
        if may_log(prev, nows.last(), interval) {
            Some(nows.last())
        } else {
            prev
        }
    }
}

/// Whether the decision at `nows[k]` fires, after those at the earlier
/// times of `nows`.
pub open spec fn fires_at(last: Option<u128>, nows: Seq<u128>, interval: u128, k: int) -> bool {
    may_log(last_after(last, nows.take(k), interval), nows[k], interval)
}

/// Clock readings that never go back.
pub open spec fn non_decreasing(nows: Seq<u128>) -> bool {
    forall|a: int, b: int| 0 <= a <= b < nows.len() ==> nows[a] <= nows[b]
}

/// After a decision fires at `nows[j]`, the last logged time of every
/// later prefix lies between `nows[j]` and the prefix's last reading.
proof fn lemma_last_after_firing(last: Option<u128>, nows: Seq<u128>, interval: u128, j: int, m: int)
    requires
        non_decreasing(nows),
        0 <= j < m <= nows.len(),
        fires_at(last, nows, interval, j),
    ensures
        last_after(last, nows.take(m), interval) matches Some(t) && nows[j] <= t <= nows[m - 1],
    decreases m,
{
    assert(nows.take(m).drop_last() =~= nows.take(m - 1));
    assert(nows.take(m).last() == nows[m - 1]);
    if m > j + 1 {
        lemma_last_after_firing(last, nows, interval, j, m - 1);
    }
}

/// At most one message per interval over any run of decisions: with clock
/// readings that never go back, two decisions that both fire are at least
/// the interval apart, whatever the throttle held before the run.
pub proof fn law_fired_messages_are_an_interval_apart(
    last: Option<u128>,
    nows: Seq<u128>,
    interval: u128,
    j: int,
    k: int,
)
    requires
        non_decreasing(nows),
        0 <= j < k < nows.len(),
        fires_at(last, nows, interval, j),
        fires_at(last, nows, interval, k),
    ensures
        nows[k] - nows[j] >= interval,
{
    lemma_last_after_firing(last, nows, interval, j, k);
}

/// No message is held back longer than the interval: once the interval
/// has passed since the last message let through, the next one is let
/// through, and the time it is let through becomes the last one.
pub proof fn law_fires_once_the_interval_has_passed(last: u128, now: u128, interval: u128)
    requires
        last <= now,
        now - last >= interval,
    ensures
        may_log(Some(last), now, interval),
{
}

} // verus!
