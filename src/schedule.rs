//! The per-mapping interval scheduler: which mappings are due at a wake-up
//! and how long to sleep until the next one. Times are milliseconds on a
//! monotonic clock.

use vstd::prelude::*;

verus! {

/// A mapping is due when less than this remains of its interval.
pub const DUE_WITHIN_MS: u64 = 2000;

/// The clock of one mapping: its interval and when it last ran.
#[derive(Clone, Copy, Debug, PartialEq, Eq, Structural)]
pub struct Clock {
    pub interval: u64,
    pub last_run: u64,
}

/// The clocks of all mappings. On the first pass every mapping runs,
/// whatever its clock says.
#[derive(Clone, Debug, PartialEq, Eq)]
pub struct Scheduler {
    pub clocks: Vec<Clock>,
    pub initial: bool,
}

/// What remains of the interval at `now`: zero once it has passed.
pub open spec fn delta(c: Clock, now: u64) -> int {
    let elapsed: int = if now >= c.last_run {
        now - c.last_run
    } else {
        0
    };
    if c.interval > elapsed {
        c.interval - elapsed
    } else {
        0
    }
}

/// The mapping runs at `now`.
pub open spec fn is_due(c: Clock, now: u64, initial: bool) -> bool {
    initial || delta(c, now) < DUE_WITHIN_MS
}

/// The least remaining interval over the clocks.
pub open spec fn min_delta(cs: Seq<Clock>, now: u64) -> int
    decreases cs.len(),
{
    if cs.len() <= 1 {
        delta(cs[0], now)
    } else {
        let m = min_delta(cs.drop_last(), now);
        let d = delta(cs.last(), now);
        if d < m {
            d
        } else {
            m
        }
    }
}

/// What remains of `interval` at `now` after a run at `last_apply`.
pub fn compute_delta(interval: u64, last_apply: u64, now: u64) -> (r: u64)
    ensures
        r == delta(Clock { interval, last_run: last_apply }, now),
{
    let elapsed = if now >= last_apply {
        now - last_apply
    } else {
        0
    };
    if interval > elapsed {
        interval - elapsed
    } else {
        0
    }
}

impl Scheduler {
    /// Clocks for mappings with the given intervals (milliseconds), all
    /// started at `now`, before the first pass.
    pub fn new(intervals: &Vec<u64>, now: u64) -> (r: Scheduler)
        ensures
            r.initial,
            r.clocks@.len() == intervals@.len(),
            forall|i: int|
                0 <= i < intervals@.len() ==> #[trigger] r.clocks@[i] == (Clock {
                    interval: intervals@[i],
                    last_run: now,
                }),
    {
        let mut clocks: Vec<Clock> = Vec::new();
        let mut i: usize = 0;
        while i < intervals.len()
            invariant
                i <= intervals@.len(),
                clocks@.len() == i,
                forall|j: int|
                    0 <= j < i ==> #[trigger] clocks@[j] == (Clock {
                        interval: intervals@[j],
                        last_run: now,
                    }),
            decreases intervals@.len() - i,
        {
            clocks.push(Clock { interval: intervals[i], last_run: now });
            i = i + 1;
        }
        Scheduler { clocks, initial: true }
    }

    /// One wake-up at `now`: the due mappings in order, each with its last
    /// run set to `now` before it is dispatched; the others keep their
    /// clocks. After it the first pass is over.
    pub fn tick(&mut self, now: u64) -> (r: Vec<usize>)
        ensures
            !final(self).initial,
            final(self).clocks@.len() == old(self).clocks@.len(),
            forall|i: int|
                0 <= i < old(self).clocks@.len() ==> {
                    let c = #[trigger] old(self).clocks@[i];
                    if is_due(c, now, old(self).initial) {
                        final(self).clocks@[i] == Clock { interval: c.interval, last_run: now }
                    } else {
                        final(self).clocks@[i] == c
                    }
                },
            forall|k: int| 0 <= k < r@.len() ==> (#[trigger] r@[k]) < old(self).clocks@.len(),
            forall|k: int, l: int| 0 <= k < l < r@.len() ==> #[trigger] r@[k] < #[trigger] r@[l],
            forall|i: int|
                0 <= i < old(self).clocks@.len() ==> (r@.contains(i as usize) <==> is_due(
                    #[trigger] old(self).clocks@[i],
                    now,
                    old(self).initial,
                )),
    {
        let ghost before = self.clocks@;
        let initial = self.initial;
        let mut due: Vec<usize> = Vec::new();
        let mut i: usize = 0;
        while i < self.clocks.len()
            invariant
                i <= self.clocks@.len() == before.len(),
                initial == old(self).initial,
                before == old(self).clocks@,
                forall|j: int|
                    0 <= j < before.len() ==> {
                        let c = #[trigger] before[j];
                        if j < i && is_due(c, now, initial) {
                            self.clocks@[j] == Clock { interval: c.interval, last_run: now }
                        } else {
                            self.clocks@[j] == c
                        }
                    },
                forall|k: int| 0 <= k < due@.len() ==> (#[trigger] due@[k]) < i,
                forall|k: int, l: int| 0 <= k < l < due@.len() ==> #[trigger] due@[k] < #[trigger] due@[l],
                forall|j: int| 0 <= j < i ==> (due@.contains(j as usize) <==> is_due(#[trigger] before[j], now, initial)),
            decreases before.len() - i,
        {
            let c = self.clocks[i];
            let d = compute_delta(c.interval, c.last_run, now);
            if initial || d < DUE_WITHIN_MS {
                self.clocks.set(i, Clock { interval: c.interval, last_run: now });
                let ghost old_due = due@;
                due.push(i);
                proof {
                    assert forall|j: int| 0 <= j < i + 1 implies (due@.contains(j as usize) <==> is_due(#[trigger] before[j], now, initial)) by {
                        if j < i {
                            if old_due.contains(j as usize) {
                                let k = choose|k: int| 0 <= k < old_due.len() && old_due[k] == j as usize;
                                assert(due@[k] == j as usize);
                            }
                            if due@.contains(j as usize) {
                                let k = choose|k: int| 0 <= k < due@.len() && due@[k] == j as usize;
                                if k == old_due.len() {
                                } else {
                                    assert(old_due[k] == j as usize);
                                }
                            }
                        } else {
                            assert(due@[old_due.len() as int] == i);
                        }
                    }
                }
            } else {
                proof {
                    assert forall|j: int| 0 <= j < i + 1 implies (due@.contains(j as usize) <==> is_due(#[trigger] before[j], now, initial)) by {
                        if j == i {
                            if due@.contains(j as usize) {
                                let k = choose|k: int| 0 <= k < due@.len() && due@[k] == j as usize;
                            }
                        }
                    }
                }
            }
            i = i + 1;
        }
        self.initial = false;
        due
    }

    /// How long to sleep at `now`: the least remaining interval.
    pub fn next_sleep(&self, now: u64) -> (r: u64)
        requires
            self.clocks@.len() >= 1,
        ensures
            r == min_delta(self.clocks@, now),
    {
        let mut best = compute_delta(self.clocks[0].interval, self.clocks[0].last_run, now);
        let mut i: usize = 1;
        assert(self.clocks@.take(1).len() == 1);
        while i < self.clocks.len()
            invariant
                1 <= i <= self.clocks@.len(),
                best == min_delta(self.clocks@.take(i as int), now),
            decreases self.clocks@.len() - i,
        {
            assert(self.clocks@.take(i + 1).drop_last() =~= self.clocks@.take(i as int));
            let d = compute_delta(self.clocks[i].interval, self.clocks[i].last_run, now);
            if d < best {
                best = d;
            }
            i = i + 1;
        }
        assert(self.clocks@.take(i as int) =~= self.clocks@);
        best
    }
}

} // verus!
