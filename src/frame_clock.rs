use vstd::prelude::*;

verus! {

/// Milliseconds between two rate-limited snapshots: twenty a second.
pub const FRAME_INTERVAL_MS: u64 = 50;

/// Decides when a snapshot may be published, given the time in milliseconds.
#[derive(PartialEq, Eq, Structural, Copy, Clone, Debug)]
pub struct FrameClock {
    pub interval_ms: u64,
    pub last_sent_ms: Option<u64>,
}

/// A rate-limited snapshot is due when none was sent yet, or when at least the
/// interval has passed since the last one.
pub open spec fn is_due_at(last: Option<u64>, interval: u64, now: u64) -> bool {
    match last {
        None => true,
        Some(l) => now >= l + interval,
    }
}

/// How many snapshots a clock last sent at `last` lets through when offered one
/// at each of `times` in turn.
pub open spec fn timed_sends(last: Option<u64>, interval: u64, times: Seq<u64>) -> nat
    decreases times.len(),
{
    if times.len() == 0 {
        0
    } else if is_due_at(last, interval, times[0]) {
        1 + timed_sends(Some(times[0]), interval, times.drop_first())
    } else {
        timed_sends(last, interval, times.drop_first())
    }
}

impl FrameClock {
    /// A clock that has sent nothing yet, so that the first offer goes out.
    pub fn new(interval_ms: u64) -> (r: Self)
        ensures
            r.interval_ms == interval_ms,
            r.last_sent_ms == None::<u64>,
    {
        FrameClock { interval_ms, last_sent_ms: None }
    }

    pub fn is_due(&self, now_ms: u64) -> (r: bool)
        ensures
            r == is_due_at(self.last_sent_ms, self.interval_ms, now_ms),
    {
        match self.last_sent_ms {
            None => true,
            Some(l) => now_ms >= l && now_ms - l >= self.interval_ms,
        }
    }

    /// Offers a rate-limited snapshot at `now_ms`: returns whether it is to be
    /// sent, and if so records the time.
    pub fn offer(&mut self, now_ms: u64) -> (r: bool)
        ensures
            r == is_due_at(old(self).last_sent_ms, old(self).interval_ms, now_ms),
            final(self).interval_ms == old(self).interval_ms,
            final(self).last_sent_ms == (if r {
                Some(now_ms)
            } else {
                old(self).last_sent_ms
            }),
    {
        let due = self.is_due(now_ms);
        if due {
            self.last_sent_ms = Some(now_ms);
        }
        due
    }

    /// Records a snapshot sent at `now_ms` regardless of the interval.
    pub fn force(&mut self, now_ms: u64)
        ensures
            final(self).interval_ms == old(self).interval_ms,
            final(self).last_sent_ms == Some(now_ms),
    {
        self.last_sent_ms = Some(now_ms);
    }
}

proof fn sends_after_bounded(l: u64, interval: u64, times: Seq<u64>, hi: int)
    requires
        interval > 0,
        l <= hi,
        forall|i: int| 0 <= i < times.len() ==> times[i] <= hi,
    ensures
        timed_sends(Some(l), interval, times) * interval <= hi - l,
    decreases times.len(),
{
    if times.len() > 0 {
        let rest = times.drop_first();
        assert forall|i: int| 0 <= i < rest.len() implies rest[i] <= hi by {
            assert(rest[i] == times[i + 1]);
        }
        if is_due_at(Some(l), interval, times[0]) {
            sends_after_bounded(times[0], interval, rest, hi);
            let k = timed_sends(Some(times[0]), interval, rest);
            assert(timed_sends(Some(l), interval, times) == 1 + k);
            assert((1 + k) * interval == k * interval + interval) by (nonlinear_arith);
            assert(times[0] >= l + interval);
        } else {
            sends_after_bounded(l, interval, rest, hi);
            assert(timed_sends(Some(l), interval, times) == timed_sends(Some(l), interval, rest));
        }
    } else {
        assert(timed_sends(Some(l), interval, times) == 0);
        assert(0 * (interval as int) == 0);
    }
}

/// A fresh clock offered snapshots at any times within a window of `span`
/// milliseconds lets at most `span / interval + 1` of them through: consecutive
/// sends lie at least one interval apart.
pub proof fn sends_within_window(interval: u64, times: Seq<u64>, start: int, span: int)
    requires
        interval > 0,
        span >= 0,
        forall|i: int| 0 <= i < times.len() ==> start <= #[trigger] times[i] && times[i] <= start + span,
    ensures
        timed_sends(None, interval, times) <= span / (interval as int) + 1,
    decreases times.len(),
{
    if times.len() > 0 {
        let rest = times.drop_first();
        assert forall|i: int| 0 <= i < rest.len() implies start <= rest[i] && rest[i] <= start + span by {
            assert(rest[i] == times[i + 1]);
        }
        sends_after_bounded(times[0], interval, rest, start + span);
        let k = timed_sends(Some(times[0]), interval, rest);
        let f = interval as int;
        assert(k * f <= span);
        assert(k <= span / f) by (nonlinear_arith)
            requires
                k * f <= span,
                f > 0,
                k >= 0,
        {
            vstd::arithmetic::div_mod::lemma_fundamental_div_mod(span, f);
            if k > span / f {
                assert(k >= span / f + 1);
                assert(k * f >= (span / f + 1) * f);
            }
        }
    }
}

} // verus!
