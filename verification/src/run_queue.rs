//! Run queues of the schedulers and the selection of the next task.
//!
//! Every scheduler keeps its queued tasks with a rank; the task with the
//! least rank is handed out first, the earliest queued among equal ranks.
//! - GEDF ranks by absolute deadline, then by wake time.
//! - The prioritized schedulers rank by priority, highest first.
//! - The panicked scheduler hands tasks out in FIFO order.
use vstd::prelude::*;
use crate::scheduler::{PreemptionPending, TaskKey, SchedulerType, get_priority, spec_get_priority};
use crate::task::{Runtime, claim_popped_task, spec_claim_skips, spec_claim, Task, State};

verus! {

/// A queued task and its rank (compared as the pair `(hi, lo)`).
#[derive(Debug, Clone, Copy, PartialEq, Eq, Structural)]
pub struct QueuedTask {
    pub task_id: u32,
    pub rank_hi: u64,
    pub rank_lo: u64,
}

/// `a` ranks strictly before `b`.
pub open spec fn rank_lt(a: QueuedTask, b: QueuedTask) -> bool {
    a.rank_hi < b.rank_hi || (a.rank_hi == b.rank_hi && a.rank_lo < b.rank_lo)
}

/// Index of the first entry of least rank of a nonempty queue.
pub open spec fn pick_index(s: Seq<QueuedTask>) -> int
    decreases s.len(),
{
    if s.len() <= 1 {
        0
    } else {
        let j = pick_index(s.drop_last());
        if rank_lt(s.last(), s[j]) { (s.len() - 1) as int } else { j }
    }
}

pub proof fn lemma_pick_index(s: Seq<QueuedTask>)
    requires
        s.len() > 0,
    ensures
        0 <= pick_index(s) < s.len(),
        forall|k: int| 0 <= k < s.len() ==> !rank_lt(#[trigger] s[k], s[pick_index(s)]),
        forall|k: int| 0 <= k < pick_index(s) ==> rank_lt(s[pick_index(s)], #[trigger] s[k]),
    decreases s.len(),
{
    if s.len() > 1 {
        lemma_pick_index(s.drop_last());
        let j = pick_index(s.drop_last());
        assert forall|k: int| 0 <= k < s.len() implies !rank_lt(#[trigger] s[k], s[pick_index(s)]) by {
            if k < s.len() - 1 {
                assert(s.drop_last()[k] == s[k]);
            }
        }
        assert forall|k: int| 0 <= k < pick_index(s) implies rank_lt(s[pick_index(s)], #[trigger] s[k]) by {
            if k < s.len() - 1 {
                assert(s.drop_last()[k] == s[k]);
            }
        }
    }
}

/// Result of draining a queue until a task that is not skipped: the task
/// handed out (if any) and what remains queued.
pub open spec fn spec_next(s: Seq<QueuedTask>, rt: &Runtime) -> (Option<u32>, Seq<QueuedTask>)
    decreases s.len(),
{
    if s.len() == 0 {
        (None, s)
    } else {
        proof { lemma_pick_index(s); }
        let i = pick_index(s);
        let rest = s.remove(i);
        if spec_claim_skips(rt, s[i].task_id) {
            spec_next(rest, rt)
        } else {
            (Some(s[i].task_id), rest)
        }
    }
}

/// The task IDs of queue entries, in order.
pub open spec fn task_ids(s: Seq<QueuedTask>) -> Seq<u32> {
    s.map_values(|e: QueuedTask| e.task_id)
}

/// `spec_next` sees a runtime only through the tasks it skips.
pub proof fn lemma_spec_next_same_skips(s: Seq<QueuedTask>, rt1: &Runtime, rt2: &Runtime)
    requires
        forall|id: u32| spec_claim_skips(rt1, id) == spec_claim_skips(rt2, id),
    ensures
        spec_next(s, rt1) == spec_next(s, rt2),
    decreases s.len(),
{
    if s.len() > 0 {
        lemma_pick_index(s);
        let i = pick_index(s);
        lemma_spec_next_same_skips(s.remove(i), rt1, rt2);
    }
}

/// Entry `j` of a queue comes before entry `k` in service order: it ranks
/// strictly before, or equally and was queued earlier.
pub open spec fn served_before(s: Seq<QueuedTask>, j: int, k: int) -> bool {
    rank_lt(s[j], s[k]) || (!rank_lt(s[k], s[j]) && j < k)
}

/// A queue hands out its least-ranked runnable task, the earliest queued
/// among equal ranks: every entry served before it is one that is skipped.
/// When it hands out nothing, every entry is skipped.
pub proof fn lemma_next_is_least(s: Seq<QueuedTask>, rt: &Runtime)
    ensures
        spec_next(s, rt).0 matches Some(id) ==> exists|k: int| {
            &&& 0 <= k < s.len()
            &&& s[k].task_id == id
            &&& !spec_claim_skips(rt, id)
            &&& forall|j: int| 0 <= j < s.len() && #[trigger] served_before(s, j, k) ==> spec_claim_skips(rt, s[j].task_id)
        },
        spec_next(s, rt).0 is None ==> forall|j: int| 0 <= j < s.len() ==> spec_claim_skips(rt, #[trigger] s[j].task_id),
    decreases s.len(),
{
    if s.len() > 0 {
        lemma_pick_index(s);
        let i = pick_index(s);
        let rest = s.remove(i);
        if spec_claim_skips(rt, s[i].task_id) {
            lemma_next_is_least(rest, rt);
            if let Some(id) = spec_next(s, rt).0 {
                let k2 = choose|k: int| {
                    &&& 0 <= k < rest.len()
                    &&& rest[k].task_id == id
                    &&& !spec_claim_skips(rt, id)
                    &&& forall|j: int| 0 <= j < rest.len() && #[trigger] served_before(rest, j, k) ==> spec_claim_skips(rt, rest[j].task_id)
                };
                let k = if k2 < i { k2 } else { k2 + 1 };
                assert(s[k] == rest[k2]);
                assert forall|j: int| 0 <= j < s.len() && #[trigger] served_before(s, j, k) implies spec_claim_skips(rt, s[j].task_id) by {
                    if j != i {
                        let j2 = if j < i { j } else { j - 1 };
                        assert(rest[j2] == s[j]);
                        assert(served_before(rest, j2, k2));
                    }
                }
            } else {
                assert forall|j: int| 0 <= j < s.len() implies spec_claim_skips(rt, #[trigger] s[j].task_id) by {
                    if j != i {
                        let j2 = if j < i { j } else { j - 1 };
                        assert(rest[j2] == s[j]);
                    }
                }
            }
        } else {
            assert forall|j: int| 0 <= j < s.len() && #[trigger] served_before(s, j, i) implies spec_claim_skips(rt, s[j].task_id) by {
                assert(!rank_lt(s[j], s[i]));
                if j < i {
                    assert(rank_lt(s[i], s[j]));
                }
            }
        }
    }
}

/// A queue never hands out a task that is gone, terminated or panicked: a
/// terminated or panicked entry is dropped and the next one is tried.
pub proof fn lemma_next_runnable(s: Seq<QueuedTask>, rt: &Runtime)
    ensures
        spec_next(s, rt).0 matches Some(id) ==> {
            &&& rt.tasks.used(id)
            &&& rt.tasks.lookup(id).info.state != State::Terminated
            &&& rt.tasks.lookup(id).info.state != State::Panicked
        },
{
    lemma_next_is_least(s, rt);
}

/// A queue that hands out nothing is left empty: every entry was skipped.
pub proof fn lemma_spec_next_none_drains(s: Seq<QueuedTask>, rt: &Runtime)
    ensures
        spec_next(s, rt).0 is None ==> spec_next(s, rt).1.len() == 0,
    decreases s.len(),
{
    if s.len() > 0 {
        lemma_pick_index(s);
        lemma_spec_next_none_drains(s.remove(pick_index(s)), rt);
    }
}

/// No scheduler has a queued task.
pub open spec fn queues_empty(s: Schedulers) -> bool {
    &&& s.gedf.queue@.len() == 0
    &&& s.prioritized_fifo@.len() == 0
    &&& s.prioritized_rr.queue@.len() == 0
    &&& s.panicked.queue@.len() == 0
}

/// The task the first queue in priority-list order that yields one hands
/// out: GEDF, then prioritized FIFO, then round robin, then panicked.
pub open spec fn spec_next_task(s: Schedulers, rt: &Runtime) -> Option<u32> {
    let a = spec_next(s.gedf.queue@, rt).0;
    let b = spec_next(s.prioritized_fifo@, rt).0;
    let c = spec_next(s.prioritized_rr.queue@, rt).0;
    let d = spec_next(s.panicked.queue@, rt).0;
    if a is Some { a } else if b is Some { b } else if c is Some { c } else { d }
}

/// A run queue.
pub struct RunQueue {
    pub entries: Vec<QueuedTask>,
}

impl RunQueue {
    pub open spec fn view(&self) -> Seq<QueuedTask> {
        self.entries@
    }

    pub fn new() -> (q: RunQueue)
        ensures
            q@ == Seq::<QueuedTask>::empty(),
    {
        RunQueue { entries: Vec::new() }
    }

    pub fn len(&self) -> (n: usize)
        ensures
            n == self@.len(),
    {
        self.entries.len()
    }

    /// Appends the IDs of the queued tasks, in queue order, to `out`.
    pub fn append_task_ids(&self, out: &mut Vec<u32>)
        ensures
            final(out)@ == old(out)@ + task_ids(self@),
    {
        let mut i: usize = 0;
        while i < self.entries.len()
            invariant
                i <= self@.len(),
                out@ == old(out)@ + task_ids(self@.take(i as int)),
            decreases self@.len() - i,
        {
            out.push(self.entries[i].task_id);
            i += 1;
            assert(task_ids(self@.take(i as int)) =~= task_ids(self@.take(i - 1)).push(self@[i - 1].task_id));
            assert(out@ =~= old(out)@ + task_ids(self@.take(i as int)));
        }
        assert(self@.take(i as int) =~= self@);
    }

    /// Queues a task with the given rank.
    pub fn push(&mut self, e: QueuedTask)
        ensures
            final(self)@ == old(self)@.push(e),
    {
        self.entries.push(e);
    }

    /// Removes and returns the first entry of least rank.
    pub fn pop(&mut self) -> (r: Option<QueuedTask>)
        ensures
            old(self)@.len() == 0 ==> r is None && final(self)@ == old(self)@,
            old(self)@.len() > 0 ==> r == Some(old(self)@[pick_index(old(self)@)])
                && final(self)@ == old(self)@.remove(pick_index(old(self)@))
                && final(self)@.len() == old(self)@.len() - 1,
    {
        if self.entries.len() == 0 {
            return None;
        }
        proof { lemma_pick_index(self@); }
        let mut best: usize = 0;
        let mut k: usize = 1;
        while k < self.entries.len()
            invariant
                1 <= k <= self.entries@.len(),
                best < k,
                best == pick_index(self.entries@.subrange(0, k as int)),
            decreases self.entries@.len() - k,
        {
            proof {
                let s = self.entries@.subrange(0, (k + 1) as int);
                assert(s.drop_last() =~= self.entries@.subrange(0, k as int));
                assert(s[best as int] == self.entries@[best as int]);
                assert(s.last() == self.entries@[k as int]);
            }
            let e = self.entries[k];
            let b = self.entries[best];
            if e.rank_hi < b.rank_hi || (e.rank_hi == b.rank_hi && e.rank_lo < b.rank_lo) {
                best = k;
            }
            k += 1;
        }
        assert(self.entries@.subrange(0, self.entries@.len() as int) =~= self.entries@);
        Some(self.entries.remove(best))
    }
}

/// Queues a task to GEDF, ranked by absolute deadline then wake time.
pub fn gedf_queue_entry(task_id: u32, absolute_deadline: u64, wake_time: u64) -> (e: QueuedTask)
    ensures
        e == (QueuedTask { task_id, rank_hi: absolute_deadline, rank_lo: wake_time }),
{
    QueuedTask { task_id, rank_hi: absolute_deadline, rank_lo: wake_time }
}

/// Queue entry of a prioritized scheduler: higher priorities rank first.
pub fn prioritized_queue_entry(task_id: u32, priority: u8) -> (e: QueuedTask)
    ensures
        e == (QueuedTask { task_id, rank_hi: (255 - priority) as u64, rank_lo: 0 }),
{
    QueuedTask { task_id, rank_hi: (255 - priority) as u64, rank_lo: 0 }
}

/// Queue entry of the panicked scheduler: all ranks are equal (FIFO).
pub fn panicked_queue_entry(task_id: u32) -> (e: QueuedTask)
    ensures
        e == (QueuedTask { task_id, rank_hi: 0, rank_lo: 0 }),
{
    QueuedTask { task_id, rank_hi: 0, rank_lo: 0 }
}

/// Pops tasks from `q` until one can be handed to `cpu_id` (see
/// `claim_popped_task`); gone, terminated and panicked tasks are dropped.
pub fn get_next(q: &mut RunQueue, rt: &mut Runtime, cpu_id: usize, execution_ensured: bool) -> (r: Option<u32>)
    requires
        old(rt).wf(),
        cpu_id < old(rt).running().len(),
    ensures
        final(rt).wf(),
        (r, final(q)@) == spec_next(old(q)@, old(rt)),
        final(rt).preemption_requests() == old(rt).preemption_requests(),
        final(rt).cpus() == old(rt).cpus(),
        final(rt).queued() == old(rt).queued(),
        final(rt).preemptions() == old(rt).preemptions(),
        forall|x: u32| final(rt).tasks.used(x) == old(rt).tasks.used(x),
        r is None ==> final(rt).tasks@ == old(rt).tasks@ && final(rt).running() == old(rt).running(),
        r matches Some(id) ==> {
            let i = old(rt).tasks.index_of(id);
            &&& !spec_claim_skips(old(rt), id)
            &&& old(rt).tasks.used(id)
            &&& old(rt).tasks.lookup(id).info.state != State::Terminated
            &&& old(rt).tasks.lookup(id).info.state != State::Panicked
            &&& final(rt).tasks@ == old(rt).tasks@.update(i, Task {
                    info: spec_claim(old(rt).tasks@[i].info, execution_ensured),
                    ..old(rt).tasks@[i]
                })
            &&& final(rt).running() == (if execution_ensured {
                    old(rt).running().update(cpu_id as int, id)
                } else {
                    old(rt).running()
                })
        },
{
    loop
        invariant
            rt.tasks@ == old(rt).tasks@,
            rt.running() == old(rt).running(),
            rt.preemption_requests() == old(rt).preemption_requests(),
            rt.cpus() == old(rt).cpus(),
            rt.queued() == old(rt).queued(),
            rt.preemptions() == old(rt).preemptions(),
            rt.wf(),
            cpu_id < rt.running().len(),
            spec_next(q@, old(rt)) == spec_next(old(q)@, old(rt)),
        decreases q@.len(),
    {
        let ghost q0 = q@;
        let e = match q.pop() {
            Some(e) => e,
            None => {
                return None;
            },
        };
        assert(spec_next(q0, old(rt)) == (if spec_claim_skips(old(rt), e.task_id) {
            spec_next(q@, old(rt))
        } else {
            (Some(e.task_id), q@)
        }));
        assert(spec_claim_skips(rt, e.task_id) == spec_claim_skips(old(rt), e.task_id));
        if claim_popped_task(rt, e.task_id, cpu_id, execution_ensured) {
            return Some(e.task_id);
        }
    }
}

/// The GEDF scheduler: its run queue, ranked by absolute deadline, then by
/// wake time.
pub struct GEDFScheduler {
    pub queue: RunQueue,
}

impl GEDFScheduler {
    /// A scheduler with an empty run queue.
    pub fn new() -> (s: GEDFScheduler)
        ensures
            s.queue@.len() == 0,
    {
        GEDFScheduler { queue: RunQueue::new() }
    }

    pub fn scheduler_name(&self) -> (t: SchedulerType)
        ensures
            t == SchedulerType::GEDF(0),
    {
        SchedulerType::GEDF(0)
    }

    /// The scheduler's place in the preemption priority list.
    pub fn priority(&self) -> (p: u8)
        ensures
            p == spec_get_priority(SchedulerType::GEDF(0)),
    {
        get_priority(SchedulerType::GEDF(0))
    }

    /// Appends the IDs of the queued tasks to `out`.
    pub fn append_runnable_tasks(&self, out: &mut Vec<u32>)
        ensures
            final(out)@ == old(out)@ + task_ids(self.queue@),
    {
        self.queue.append_task_ids(out);
    }

    /// Takes the queued task of earliest deadline that can run (see `get_next`).
    pub fn get_next(&mut self, rt: &mut Runtime, cpu_id: usize, execution_ensured: bool) -> (r: Option<u32>)
        requires
            old(rt).wf(),
            cpu_id < old(rt).running().len(),
        ensures
            final(rt).wf(),
            final(rt).preemption_requests() == old(rt).preemption_requests(),
            final(rt).cpus() == old(rt).cpus(),
            final(rt).queued() == old(rt).queued(),
            final(rt).preemptions() == old(rt).preemptions(),
            forall|x: u32| final(rt).tasks.used(x) == old(rt).tasks.used(x),
            r is None ==> final(rt).tasks@ == old(rt).tasks@ && final(rt).running() == old(rt).running(),
            r matches Some(id) ==> {
                let i = old(rt).tasks.index_of(id);
                &&& !spec_claim_skips(old(rt), id)
                &&& old(rt).tasks.used(id)
                &&& old(rt).tasks.lookup(id).info.state != State::Terminated
                &&& old(rt).tasks.lookup(id).info.state != State::Panicked
            &&& old(rt).tasks.used(id)
            &&& old(rt).tasks.lookup(id).info.state != State::Terminated
            &&& old(rt).tasks.lookup(id).info.state != State::Panicked
                &&& final(rt).tasks@ == old(rt).tasks@.update(i, Task {
                        info: spec_claim(old(rt).tasks@[i].info, execution_ensured),
                        ..old(rt).tasks@[i]
                    })
                &&& final(rt).running() == (if execution_ensured {
                        old(rt).running().update(cpu_id as int, id)
                    } else {
                        old(rt).running()
                    })
            },
            (r, final(self).queue@) == spec_next(old(self).queue@, old(rt)),
    {
        get_next(&mut self.queue, rt, cpu_id, execution_ensured)
    }
}

/// The round-robin scheduler: its run queue, ranked by priority, and its
/// time quantum in microseconds.
pub struct PrioritizedRRScheduler {
    pub interval: u64,
    pub queue: RunQueue,
}

impl PrioritizedRRScheduler {
    /// A scheduler with an empty run queue and a quantum of 4 ms.
    pub fn new() -> (s: PrioritizedRRScheduler)
        ensures
            s.queue@.len() == 0,
            s.interval == 4000,
    {
        PrioritizedRRScheduler { interval: 4000, queue: RunQueue::new() }
    }

    pub fn scheduler_name(&self) -> (t: SchedulerType)
        ensures
            t == SchedulerType::PrioritizedRR(0),
    {
        SchedulerType::PrioritizedRR(0)
    }

    /// The scheduler's place in the preemption priority list.
    pub fn priority(&self) -> (p: u8)
        ensures
            p == spec_get_priority(SchedulerType::PrioritizedRR(0)),
    {
        get_priority(SchedulerType::PrioritizedRR(0))
    }

    /// Appends the IDs of the queued tasks to `out`.
    pub fn append_runnable_tasks(&self, out: &mut Vec<u32>)
        ensures
            final(out)@ == old(out)@ + task_ids(self.queue@),
    {
        self.queue.append_task_ids(out);
    }

    /// Takes the queued task of highest priority that can run (see `get_next`).
    pub fn get_next(&mut self, rt: &mut Runtime, cpu_id: usize, execution_ensured: bool) -> (r: Option<u32>)
        requires
            old(rt).wf(),
            cpu_id < old(rt).running().len(),
        ensures
            final(rt).wf(),
            final(rt).preemption_requests() == old(rt).preemption_requests(),
            final(rt).cpus() == old(rt).cpus(),
            final(rt).queued() == old(rt).queued(),
            final(rt).preemptions() == old(rt).preemptions(),
            forall|x: u32| final(rt).tasks.used(x) == old(rt).tasks.used(x),
            r is None ==> final(rt).tasks@ == old(rt).tasks@ && final(rt).running() == old(rt).running(),
            r matches Some(id) ==> {
                let i = old(rt).tasks.index_of(id);
                &&& !spec_claim_skips(old(rt), id)
                &&& old(rt).tasks.used(id)
                &&& old(rt).tasks.lookup(id).info.state != State::Terminated
                &&& old(rt).tasks.lookup(id).info.state != State::Panicked
            &&& old(rt).tasks.used(id)
            &&& old(rt).tasks.lookup(id).info.state != State::Terminated
            &&& old(rt).tasks.lookup(id).info.state != State::Panicked
                &&& final(rt).tasks@ == old(rt).tasks@.update(i, Task {
                        info: spec_claim(old(rt).tasks@[i].info, execution_ensured),
                        ..old(rt).tasks@[i]
                    })
                &&& final(rt).running() == (if execution_ensured {
                        old(rt).running().update(cpu_id as int, id)
                    } else {
                        old(rt).running()
                    })
            },
            (r, final(self).queue@) == spec_next(old(self).queue@, old(rt)),
            final(self).interval == old(self).interval,
    {
        get_next(&mut self.queue, rt, cpu_id, execution_ensured)
    }
}

/// The scheduler of panicked tasks: a FIFO run queue.
pub struct PanickedScheduler {
    pub queue: RunQueue,
}

impl PanickedScheduler {
    /// A scheduler with an empty run queue.
    pub fn new() -> (s: PanickedScheduler)
        ensures
            s.queue@.len() == 0,
    {
        PanickedScheduler { queue: RunQueue::new() }
    }

    pub fn scheduler_name(&self) -> (t: SchedulerType)
        ensures
            t == SchedulerType::Panicked,
    {
        SchedulerType::Panicked
    }

    /// The scheduler's place in the preemption priority list.
    pub fn priority(&self) -> (p: u8)
        ensures
            p == spec_get_priority(SchedulerType::Panicked),
    {
        get_priority(SchedulerType::Panicked)
    }

    /// Appends the IDs of the queued tasks to `out`.
    pub fn append_runnable_tasks(&self, out: &mut Vec<u32>)
        ensures
            final(out)@ == old(out)@ + task_ids(self.queue@),
    {
        self.queue.append_task_ids(out);
    }

    /// Takes the earliest queued task that can run (see `get_next`).
    pub fn get_next(&mut self, rt: &mut Runtime, cpu_id: usize, execution_ensured: bool) -> (r: Option<u32>)
        requires
            old(rt).wf(),
            cpu_id < old(rt).running().len(),
        ensures
            final(rt).wf(),
            final(rt).preemption_requests() == old(rt).preemption_requests(),
            final(rt).cpus() == old(rt).cpus(),
            final(rt).queued() == old(rt).queued(),
            final(rt).preemptions() == old(rt).preemptions(),
            forall|x: u32| final(rt).tasks.used(x) == old(rt).tasks.used(x),
            r is None ==> final(rt).tasks@ == old(rt).tasks@ && final(rt).running() == old(rt).running(),
            r matches Some(id) ==> {
                let i = old(rt).tasks.index_of(id);
                &&& !spec_claim_skips(old(rt), id)
                &&& old(rt).tasks.used(id)
                &&& old(rt).tasks.lookup(id).info.state != State::Terminated
                &&& old(rt).tasks.lookup(id).info.state != State::Panicked
            &&& old(rt).tasks.used(id)
            &&& old(rt).tasks.lookup(id).info.state != State::Terminated
            &&& old(rt).tasks.lookup(id).info.state != State::Panicked
                &&& final(rt).tasks@ == old(rt).tasks@.update(i, Task {
                        info: spec_claim(old(rt).tasks@[i].info, execution_ensured),
                        ..old(rt).tasks@[i]
                    })
                &&& final(rt).running() == (if execution_ensured {
                        old(rt).running().update(cpu_id as int, id)
                    } else {
                        old(rt).running()
                    })
            },
            (r, final(self).queue@) == spec_next(old(self).queue@, old(rt)),
    {
        get_next(&mut self.queue, rt, cpu_id, execution_ensured)
    }
}

/// All schedulers, in the order of the preemption priority list.
pub struct Schedulers {
    pub gedf: GEDFScheduler,
    pub prioritized_fifo: RunQueue,
    pub prioritized_rr: PrioritizedRRScheduler,
    pub panicked: PanickedScheduler,
}

impl Schedulers {
    pub fn new() -> (s: Schedulers)
        ensures
            s.gedf.queue@.len() == 0,
            s.prioritized_fifo@.len() == 0,
            s.prioritized_rr.queue@.len() == 0,
            s.prioritized_rr.interval == 4000,
            s.panicked.queue@.len() == 0,
    {
        Schedulers {
            gedf: GEDFScheduler::new(),
            prioritized_fifo: RunQueue::new(),
            prioritized_rr: PrioritizedRRScheduler::new(),
            panicked: PanickedScheduler::new(),
        }
    }

}

/// The IDs of the tasks waiting for preemption, CPU by CPU.
pub open spec fn pending_ids(p: Seq<Seq<TaskKey>>) -> Seq<u32>
    decreases p.len(),
{
    if p.len() == 0 {
        Seq::empty()
    } else {
        pending_ids(p.drop_last()) + p.last().map_values(|k: TaskKey| k.id)
    }
}

/// The IDs of all queued tasks, scheduler by scheduler in the order of the
/// priority list, followed by the tasks waiting for preemption.
pub fn collect_runnable_tasks(s: &Schedulers, p: &PreemptionPending) -> (r: Vec<u32>)
    ensures
        r@ == task_ids(s.gedf.queue@) + task_ids(s.prioritized_fifo@) + task_ids(s.prioritized_rr.queue@)
            + task_ids(s.panicked.queue@) + pending_ids(p@),
{
    let mut tasks: Vec<u32> = Vec::new();
    s.gedf.append_runnable_tasks(&mut tasks);
    s.prioritized_fifo.append_task_ids(&mut tasks);
    s.prioritized_rr.append_runnable_tasks(&mut tasks);
    s.panicked.append_runnable_tasks(&mut tasks);
    let ghost head = tasks@;
    let mut c: usize = 0;
    while c < p.heaps.len()
        invariant
            c <= p@.len(),
            p@.len() == p.heaps@.len(),
            tasks@ == head + pending_ids(p@.take(c as int)),
        decreases p@.len() - c,
    {
        let heap = &p.heaps[c];
        let ghost before = tasks@;
        let mut k: usize = 0;
        while k < heap.len()
            invariant
                k <= heap@.len(),
                tasks@ == before + heap@.take(k as int).map_values(|x: TaskKey| x.id),
            decreases heap@.len() - k,
        {
            tasks.push(heap[k].id);
            k += 1;
            assert(tasks@ =~= before + heap@.take(k as int).map_values(|x: TaskKey| x.id));
        }
        proof {
            assert(heap@.take(k as int) =~= heap@);
            assert(p@.take(c + 1).drop_last() =~= p@.take(c as int));
            assert(p@[c as int] == heap@);
        }
        c += 1;
        assert(tasks@ =~= head + pending_ids(p@.take(c as int)));
    }
    assert(p@.take(c as int) =~= p@);
    assert(tasks@ =~= task_ids(s.gedf.queue@) + task_ids(s.prioritized_fifo@) + task_ids(s.prioritized_rr.queue@)
        + task_ids(s.panicked.queue@) + pending_ids(p@));
    tasks
}

/// Takes the next task from the first scheduler, in priority-list order,
/// that has one; the count of queued tasks drops by one when a task is found.
pub fn get_next_task(s: &mut Schedulers, rt: &mut Runtime, cpu_id: usize, execution_ensured: bool) -> (r: Option<u32>)
    requires
        old(rt).wf(),
        cpu_id < old(rt).running().len(),
    ensures
        final(rt).wf(),
        final(rt).preemption_requests() == old(rt).preemption_requests(),
        final(rt).cpus() == old(rt).cpus(),
        final(rt).preemptions() == old(rt).preemptions(),
        forall|x: u32| final(rt).tasks.used(x) == old(rt).tasks.used(x),
        r is None ==> final(rt).tasks@ == old(rt).tasks@ && final(rt).running() == old(rt).running()
            && final(rt).queued() == old(rt).queued(),
        r matches Some(id) ==> {
            let i = old(rt).tasks.index_of(id);
            &&& !spec_claim_skips(old(rt), id)
            &&& old(rt).tasks.used(id)
            &&& old(rt).tasks.lookup(id).info.state != State::Terminated
            &&& old(rt).tasks.lookup(id).info.state != State::Panicked
            &&& final(rt).tasks@ == old(rt).tasks@.update(i, Task {
                    info: spec_claim(old(rt).tasks@[i].info, execution_ensured),
                    ..old(rt).tasks@[i]
                })
            &&& final(rt).running() == (if execution_ensured {
                    old(rt).running().update(cpu_id as int, id)
                } else {
                    old(rt).running()
                })
            &&& final(rt).queued() == (if old(rt).queued() == 0 { u64::MAX } else { (old(rt).queued() - 1) as u64 })
        },
        r == spec_next_task(*old(s), old(rt)),
        final(s).gedf.queue@ == spec_next(old(s).gedf.queue@, old(rt)).1,
        spec_next(old(s).gedf.queue@, old(rt)).0 is Some ==> final(s).prioritized_fifo@ == old(s).prioritized_fifo@,
        spec_next(old(s).gedf.queue@, old(rt)).0 is None ==> final(s).prioritized_fifo@ == spec_next(old(s).prioritized_fifo@, old(rt)).1,
        final(s).prioritized_rr.interval == old(s).prioritized_rr.interval,
        r is None ==> queues_empty(*final(s)),
        queues_empty(*old(s)) ==> r is None,
{
    let mut r = get_next(&mut s.gedf.queue, rt, cpu_id, execution_ensured);
    if r.is_none() {
        assert(forall|id: u32| spec_claim_skips(rt, id) == spec_claim_skips(old(rt), id));
        proof { lemma_spec_next_same_skips(s.prioritized_fifo@, rt, old(rt)); }
        r = get_next(&mut s.prioritized_fifo, rt, cpu_id, execution_ensured);
    }
    if r.is_none() {
        assert(forall|id: u32| spec_claim_skips(rt, id) == spec_claim_skips(old(rt), id));
        proof { lemma_spec_next_same_skips(s.prioritized_rr.queue@, rt, old(rt)); }
        r = get_next(&mut s.prioritized_rr.queue, rt, cpu_id, execution_ensured);
    }
    if r.is_none() {
        assert(forall|id: u32| spec_claim_skips(rt, id) == spec_claim_skips(old(rt), id));
        proof { lemma_spec_next_same_skips(s.panicked.queue@, rt, old(rt)); }
        r = get_next(&mut s.panicked.queue, rt, cpu_id, execution_ensured);
    }
    proof {
        lemma_spec_next_none_drains(old(s).gedf.queue@, old(rt));
        lemma_spec_next_none_drains(old(s).prioritized_fifo@, old(rt));
        lemma_spec_next_none_drains(old(s).prioritized_rr.queue@, old(rt));
        lemma_spec_next_none_drains(old(s).panicked.queue@, old(rt));
    }
    match r {
        Some(id) => {
            rt.dequeued();
            Some(id)
        },
        None => None,
    }
}

} // verus!
