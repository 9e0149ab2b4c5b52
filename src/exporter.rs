use vstd::prelude::*;

verus! {

/// Whether a push is due at time `now`: at the first tick, and then once a full
/// interval has passed since the last push.
pub open spec fn push_due(last_push: Option<u64>, interval: u64, now: u64) -> bool {
    match last_push {
        None => true,
        Some(t) => now >= t && now - t >= interval,
    }
}

/// How many pushes a schedule makes over a run of ticks, in order.
pub open spec fn pushes_over(last_push: Option<u64>, interval: u64, ticks: Seq<u64>) -> nat
    decreases ticks.len(),
{
    if ticks.len() == 0 {
        0
    } else if push_due(last_push, interval, ticks[0]) {
        1 + pushes_over(Some(ticks[0]), interval, ticks.drop_first())
    } else {
        pushes_over(last_push, interval, ticks.drop_first())
    }
}

/// The state of the periodic exporter: its interval and when it last pushed, both in
/// milliseconds.
pub struct ExportSchedule {
    pub interval: u64,
    pub last_push: Option<u64>,
}

impl ExportSchedule {
    /// A schedule that has not pushed yet.
    pub fn new(interval: u64) -> (r: ExportSchedule)
        ensures
            r.interval == interval,
            r.last_push is None,
    {
        ExportSchedule { interval, last_push: None }
    }

    /// Decides at the tick `now` whether to take a snapshot and push it; a push is
    /// noted as the last one.
    pub fn poll(&mut self, now: u64) -> (r: bool)
        ensures
            r == push_due(old(self).last_push, old(self).interval, now),
            final(self).interval == old(self).interval,
            final(self).last_push == if r { Some(now) } else { old(self).last_push },
    {
        let due = match self.last_push {
            None => true,
            Some(t) => now >= t && now - t >= self.interval,
        };
        if due {
            self.last_push = Some(now);
        }
        due
    }

    /// How long to wait after the tick `now` until the next push is due.
    pub fn wait(&self, now: u64) -> (r: u64)
        ensures
            match self.last_push {
                None => r == 0,
                Some(t) => if now >= t && now - t < self.interval {
                    r == self.interval - (now - t)
                } else {
                    r == 0
                },
            },
    {
        match self.last_push {
            None => 0,
            Some(t) => if now >= t && now - t < self.interval {
                self.interval - (now - t)
            } else {
                0
            },
        }
    }
}

proof fn lemma_push_by_end(last: u64, interval: u64, ticks: Seq<u64>)
    requires
        ticks.len() > 0,
        forall|i: int| 0 <= i < ticks.len() ==> ticks[i] >= last,
        ticks.last() - last >= interval,
    ensures
        pushes_over(Some(last), interval, ticks) >= 1,
    decreases ticks.len(),
{
    if !push_due(Some(last), interval, ticks[0]) {
        if ticks.len() == 1 {
            assert(ticks[0] == ticks.last());
        } else {
            let rest = ticks.drop_first();
            assert(rest.last() == ticks.last());
            lemma_push_by_end(last, interval, rest);
        }
    }
}

/// Over ticks in time order that span at least one interval, a fresh schedule pushes
/// at least twice: at the first tick and once the interval has passed. Each push takes
/// its snapshot at the tick itself.
pub proof fn lemma_pushes_each_interval(interval: u64, ticks: Seq<u64>)
    requires
        interval > 0,
        ticks.len() > 0,
        forall|i: int, j: int| 0 <= i <= j < ticks.len() ==> ticks[i] <= ticks[j],
        ticks.last() - ticks[0] >= interval,
    ensures
        pushes_over(None, interval, ticks) >= 2,
{
    let rest = ticks.drop_first();
    if rest.len() == 0 {
        assert(ticks.last() == ticks[0]);
    }
    assert(rest.last() == ticks.last());
    assert(forall|i: int| 0 <= i < rest.len() ==> rest[i] == ticks[i + 1]);
    lemma_push_by_end(ticks[0], interval, rest);
    assert(pushes_over(None, interval, ticks) == 1 + pushes_over(Some(ticks[0]), interval, rest));
}

} // verus!
