//! Sleeping tasks: handlers kept in order of their wake-up time, relative to
//! a base time that advances as handlers fall due.
use vstd::prelude::*;
use crate::duration::Duration;
use crate::task::Runtime;
use crate::run_queue::{Schedulers, queues_empty};
use crate::scheduler::PreemptionPending;
use crate::prioritized_rr::{preemption_ticks, over_quantum};

verus! {

/// Handlers waiting for their time. Each entry holds its wake-up time as an
/// offset in nanoseconds from `base_time`; offsets never decrease along the
/// list.
pub struct SleepingTasks<H> {
    pub entries: Vec<(u64, H)>,
    pub base_time: u64,
}

/// Offsets of `entries`, in order.
pub open spec fn offsets<H>(entries: Seq<(u64, H)>) -> Seq<u64> {
    Seq::new(entries.len(), |i: int| entries[i].0)
}

/// Handlers of `entries`, in order.
pub open spec fn handlers<H>(entries: Seq<(u64, H)>) -> Seq<H> {
    Seq::new(entries.len(), |i: int| entries[i].1)
}

/// Never decreasing.
pub open spec fn nondecreasing(s: Seq<u64>) -> bool {
    forall|i: int, j: int| 0 <= i <= j < s.len() ==> s[i] <= s[j]
}

/// Offset of a new sleeper of `dur` at `now`: its duration in nanoseconds,
/// plus the time elapsed since `base` unless the list is empty, truncated to
/// 64 bits.
pub open spec fn sleep_offset(dur: Duration, empty: bool, now: u64, base: u64) -> u64 {
    (if empty { dur.total_nanos() as int } else { dur.total_nanos() + (now - base) }) as u64
}

impl<H> SleepingTasks<H> {
    pub open spec fn wf(&self) -> bool {
        nondecreasing(offsets(self.entries@))
    }

    /// Absolute wake-up times, in order.
    pub open spec fn deadlines(&self) -> Seq<int> {
        Seq::new(self.entries@.len(), |i: int| self.base_time + self.entries@[i].0)
    }

    pub fn new() -> (s: SleepingTasks<H>)
        ensures
            s.wf(),
            s.entries@.len() == 0,
            s.base_time == 0,
    {
        SleepingTasks { entries: Vec::new(), base_time: 0 }
    }

    /// Inserts `handler` at offset `key`, after every entry due no later.
    fn insert(&mut self, key: u64, handler: H)
        requires
            old(self).wf(),
        ensures
            final(self).wf(),
            final(self).base_time == old(self).base_time,
            exists|j: int| 0 <= j <= old(self).entries@.len()
                && final(self).entries@ == old(self).entries@.insert(j, (key, handler))
                && (forall|k: int| 0 <= k < j ==> #[trigger] old(self).entries@[k].0 <= key)
                && (forall|k: int| j <= k < old(self).entries@.len() ==> #[trigger] old(self).entries@[k].0 > key),
    {
        let mut j: usize = self.entries.len();
        while j > 0 && self.entries[j - 1].0 > key
            invariant
                j <= self.entries@.len(),
                self.entries@ == old(self).entries@,
                forall|k: int| j <= k < self.entries@.len() ==> #[trigger] self.entries@[k].0 > key,
            decreases j,
        {
            j -= 1;
        }
        proof {
            assert forall|k: int| 0 <= k < j implies #[trigger] old(self).entries@[k].0 <= key by {
                assert(offsets(old(self).entries@)[k] <= offsets(old(self).entries@)[j - 1]);
            }
        }
        let ghost before = self.entries@;
        self.entries.insert(j, (key, handler));
        proof {
            let after = self.entries@;
            assert forall|x: int, y: int| 0 <= x <= y < after.len() implies offsets(after)[x] <= offsets(after)[y] by {
                let xo = if x < j { x } else if x == j { -1 } else { x - 1 };
                let yo = if y < j { y } else if y == j { -1 } else { y - 1 };
                if xo >= 0 && yo >= 0 {
                    assert(offsets(before)[xo] <= offsets(before)[yo]);
                }
            }
        }
    }

    /// Puts `handler` to sleep for `dur` from `now`. On an empty list the base
    /// time becomes `now`; otherwise the time elapsed since the base is added
    /// to `dur`. The offset is the sum in nanoseconds, truncated to 64 bits.
    pub fn sleep_task(&mut self, handler: H, dur: Duration, now: u64)
        requires
            old(self).wf(),
            old(self).base_time <= now,
        ensures
            final(self).wf(),
            final(self).base_time == (if old(self).entries@.len() == 0 { now } else { old(self).base_time }),
            final(self).entries@.len() == old(self).entries@.len() + 1,
            ({
                let key = sleep_offset(dur, old(self).entries@.len() == 0, now, old(self).base_time);
                exists|j: int| 0 <= j <= old(self).entries@.len()
                    && final(self).entries@ == old(self).entries@.insert(j, (key, handler))
                    && (forall|k: int| 0 <= k < j ==> #[trigger] old(self).entries@[k].0 <= key)
                    && (forall|k: int| j <= k < old(self).entries@.len() ==> #[trigger] old(self).entries@[k].0 > key)
            }),
    {
        let ghost key = sleep_offset(dur, old(self).entries@.len() == 0, now, old(self).base_time);
        let nanos: u128 = dur.as_nanos();
        let total: u128 = if self.entries.len() == 0 {
            self.base_time = now;
            nanos
        } else {
            let diff = now - self.base_time;
            nanos + diff as u128
        };
        let offset = total as u64;
        assert(offset == key);
        let ghost mid = self.entries@;
        self.insert(offset, handler);
        proof {
            assert(mid == old(self).entries@);
        }
    }

    /// Takes out the handlers due by `now`, in order, moving the base time to
    /// the wake-up time of the last one taken.
    pub fn wake_task(&mut self, now: u64) -> (due: Vec<H>)
        requires
            old(self).wf(),
            old(self).base_time <= now,
        ensures
            final(self).wf(),
            final(self).base_time <= now,
            ({
                let k = due@.len() as int;
                &&& k <= old(self).entries@.len()
                &&& due@ == handlers(old(self).entries@).take(k)
                &&& handlers(final(self).entries@) == handlers(old(self).entries@).skip(k)
                &&& final(self).deadlines() == old(self).deadlines().skip(k)
                &&& forall|i: int| 0 <= i < k ==> old(self).deadlines()[i] <= now
                &&& k < old(self).entries@.len() ==> old(self).deadlines()[k] > now
            }),
    {
        let mut due: Vec<H> = Vec::new();
        let ghost orig = *self;
        loop
            invariant
                self.wf(),
                orig.wf(),
                self.base_time <= now,
                due@.len() <= orig.entries@.len(),
                due@ == handlers(orig.entries@).take(due@.len() as int),
                handlers(self.entries@) == handlers(orig.entries@).skip(due@.len() as int),
                self.deadlines() == orig.deadlines().skip(due@.len() as int),
                forall|i: int| 0 <= i < due@.len() ==> orig.deadlines()[i] <= now,
            ensures
                self.wf(),
                self.base_time <= now,
                due@.len() <= orig.entries@.len(),
                due@ == handlers(orig.entries@).take(due@.len() as int),
                handlers(self.entries@) == handlers(orig.entries@).skip(due@.len() as int),
                self.deadlines() == orig.deadlines().skip(due@.len() as int),
                forall|i: int| 0 <= i < due@.len() ==> orig.deadlines()[i] <= now,
                due@.len() < orig.entries@.len() ==> orig.deadlines()[due@.len() as int] > now,
            decreases self.entries@.len(),
        {
            if self.entries.len() == 0 {
                proof {
                    assert(handlers(self.entries@).len() == 0);
                    assert(handlers(orig.entries@).skip(due@.len() as int).len() == 0);
                }
                break;
            }
            let d = self.entries[0].0;
            let elapsed = now - self.base_time;
            proof {
                let k = due@.len() as int;
                assert(self.deadlines().len() == self.entries@.len());
                assert(orig.deadlines().skip(k).len() == self.entries@.len());
                assert(self.deadlines()[0] == orig.deadlines().skip(k)[0]);
                assert(self.deadlines()[0] == orig.deadlines()[k]);
                assert(handlers(self.entries@)[0] == handlers(orig.entries@).skip(k)[0]);
            }
            if d > elapsed {
                proof {
                    assert(self.deadlines()[0] == self.base_time + d);
                }
                break;
            }
            let ghost k = due@.len() as int;
            let ghost old_entries = self.entries@;
            let ghost old_base = self.base_time;
            let ghost old_dl = self.deadlines();
            let ghost old_hs = handlers(self.entries@);
            proof {
                assert(old_dl == orig.deadlines().skip(k));
                assert(old_hs == handlers(orig.entries@).skip(k));
            }
            let (_, handler) = self.entries.remove(0);
            due.push(handler);
            self.base_time = self.base_time + d;
            // Offsets are relative to the new base.
            let mut rest: Vec<(u64, H)> = Vec::new();
            let n = self.entries.len();
            let mut i: usize = 0;
            while i < n
                invariant
                    n == old_entries.len() - 1,
                    i <= n,
                    nondecreasing(offsets(old_entries)),
                    d == old_entries[0].0,
                    self.base_time == old_base + d,
                    old_base + d <= now,
                    self.entries@ == old_entries.subrange(i + 1, old_entries.len() as int),
                    rest@.len() == i,
                    forall|x: int| 0 <= x < i ==> (#[trigger] rest@[x]).0 == old_entries[x + 1].0 - d
                        && rest@[x].1 == old_entries[x + 1].1,
                decreases n - i,
            {
                let (o, h) = self.entries.remove(0);
                proof {
                    assert(offsets(old_entries)[0] <= offsets(old_entries)[i + 1]);
                    assert(self.entries@ =~= old_entries.subrange(i + 2, old_entries.len() as int));
                }
                rest.push((o - d, h));
                i += 1;
            }
            self.entries = rest;
            proof {
                let e = self.entries@;
                assert(e.len() == old_entries.len() - 1);
                assert forall|x: int, y: int| 0 <= x <= y < e.len() implies offsets(e)[x] <= offsets(e)[y] by {
                    assert(offsets(old_entries)[x + 1] <= offsets(old_entries)[y + 1]);
                }
                assert(due@ =~= handlers(orig.entries@).take(k + 1));
                assert(handlers(e) =~= handlers(orig.entries@).skip(k + 1)) by {
                    assert forall|x: int| 0 <= x < e.len() implies handlers(e)[x] == handlers(orig.entries@).skip(k + 1)[x] by {
                        assert(old_hs[x + 1] == old_entries[x + 1].1);
                        assert(old_hs[x + 1] == handlers(orig.entries@).skip(k)[x + 1]);
                    }
                }
                assert(self.deadlines() =~= orig.deadlines().skip(k + 1)) by {
                    assert forall|x: int| 0 <= x < e.len() implies self.deadlines()[x] == orig.deadlines().skip(k + 1)[x] by {
                        assert(old_dl[x + 1] == old_base + old_entries[x + 1].0);
                        assert(old_dl[x + 1] == orig.deadlines().skip(k)[x + 1]);
                    }
                }
            }
        }
        due
    }

    /// How long until the first handler is due (zero when it is due already);
    /// `None` when nothing sleeps.
    pub fn time_to_wait(&self, now: u64) -> (r: Option<Duration>)
        requires
            self.wf(),
            self.base_time <= now,
        ensures
            self.entries@.len() == 0 <==> r is None,
            r matches Some(d) ==> d.total_nanos() == (if self.deadlines()[0] <= now { 0 } else { self.deadlines()[0] - now }),
    {
        if self.entries.len() == 0 {
            return None;
        }
        let d = self.entries[0].0;
        let elapsed = now - self.base_time;
        if elapsed >= d {
            Some(Duration::from_nanos(0))
        } else {
            Some(Duration::from_nanos(d - elapsed))
        }
    }
}

/// Wakes what is due: each RR task that has used up its time slice on a CPU
/// other than the first is preempted, and the sleeping handlers due by `now`
/// are taken out. Returns how long until the next sleeper is due (`None` when
/// none sleeps), the handlers to invoke, and the `(cpu, task)` preemptions to
/// deliver.
pub fn wake_task<H>(
    rt: &mut Runtime,
    s: &mut Schedulers,
    p: &mut PreemptionPending,
    sleeping: &mut SleepingTasks<H>,
    now: u64,
) -> (r: (Option<Duration>, Vec<H>, Vec<(usize, u32)>))
    requires
        old(rt).wf(),
        old(p)@.len() == old(rt).running().len(),
        old(sleeping).wf(),
        old(sleeping).base_time <= now,
    ensures
        final(rt).wf(),
        final(sleeping).wf(),
        final(rt).running() == old(rt).running(),
        ({
            let k = r.1@.len() as int;
            &&& r.1@ == handlers(old(sleeping).entries@).take(k)
            &&& final(sleeping).deadlines() == old(sleeping).deadlines().skip(k)
            &&& forall|i: int| 0 <= i < k ==> old(sleeping).deadlines()[i] <= now
            &&& k < old(sleeping).entries@.len() ==> old(sleeping).deadlines()[k] > now
        }),
        final(sleeping).entries@.len() == 0 <==> r.0 is None,
        r.0 matches Some(d) ==> d.total_nanos() == (if final(sleeping).deadlines()[0] <= now { 0 } else { final(sleeping).deadlines()[0] - now }),
        forall|k: int| 0 <= k < r.2@.len() ==> 1 <= (#[trigger] r.2@[k]).0 < old(rt).cpus(),
        forall|k: int, l: int| 0 <= k < l < r.2@.len() ==> r.2@[k].0 < r.2@[l].0,
        forall|k: int| 0 <= k < r.2@.len() ==> old(rt).running()[(#[trigger] r.2@[k]).0 as int] != 0,
        forall|k: int| 0 <= k < r.2@.len() ==> over_quantum(*old(rt), old(s).prioritized_rr.interval, (#[trigger] r.2@[k]).0 as int, now),
        forall|c: int| 1 <= c < old(rt).cpus() && over_quantum(*old(rt), old(s).prioritized_rr.interval, c, now)
            ==> (exists|k: int| 0 <= k < r.2@.len() && (#[trigger] r.2@[k]).0 == c) || queues_empty(*final(s)),
{
    let preempted = preemption_ticks(rt, s, p, now);
    let due = sleeping.wake_task(now);
    let wait = sleeping.time_to_wait(now);
    (wait, due, preempted)
}


/// What the primary CPU does between two rounds of waking tasks.
#[derive(Debug, Clone, Copy, PartialEq, Eq)]
pub enum IdleAction {
    /// Sleep the CPU (interrupts wake it) for at most this span.
    Sleep(Duration),
    /// Wait this many microseconds with interrupts enabled.
    Spin(u64),
}

/// How the primary CPU idles until the next sleeper is due in `next_wake`
/// (one second when none sleeps): it sleeps when the timer is on and that is
/// more than a millisecond away, and otherwise waits 10 microseconds.
pub fn primary_idle(next_wake: Option<Duration>, timer_enabled: bool) -> (a: IdleAction)
    ensures
        match next_wake {
            Some(w) => a == (if timer_enabled && w.spec_micros() > 1000 { IdleAction::Sleep(w) } else { IdleAction::Spin(10) }),
            None => if timer_enabled {
                a matches IdleAction::Sleep(d) && d.total_nanos() == 1_000_000_000
            } else {
                a == IdleAction::Spin(10)
            },
        },
{
    let d = match next_wake {
        Some(w) => w,
        None => Duration::from_secs(1),
    };
    let us = d.as_micros();
    if timer_enabled && us > 1000 {
        IdleAction::Sleep(d)
    } else {
        IdleAction::Spin(10)
    }
}

} // verus!
