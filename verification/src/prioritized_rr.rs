//! The priority-based schedulers: waking a task with a priority, and the
//! round-robin time quantum check.
use vstd::prelude::*;
use crate::scheduler::{SchedulerType, PreemptionPending, invoke_preemption, invoked_preemption, preemption_target_known, TaskKey,
    push_preemption_pending};
use crate::task::{Runtime, Task, get_last_executed_by_task_id, get_current_task, get_scheduler_type_by_task_id,
    set_need_preemption, spec_claim_skips, State};
use crate::run_queue::{RunQueue, Schedulers, PrioritizedRRScheduler, PanickedScheduler, prioritized_queue_entry, panicked_queue_entry, QueuedTask, get_next_task,
    spec_next_task, queues_empty};

verus! {

/// Wakes a task of a prioritized scheduler with `priority`: it preempts a
/// running task when `invoke_preemption` decides so; otherwise it is queued
/// by its priority. Returns the preempted task and CPU, if any.
pub fn prioritized_wake_task(
    rt: &mut Runtime,
    p: &mut PreemptionPending,
    q: &mut RunQueue,
    task_id: u32,
    priority: u8,
) -> (r: Option<(u32, usize)>)
    requires
        old(rt).wf(),
        preemption_target_known(old(rt), task_id),
        old(p)@.len() == old(rt).running().len(),
        old(rt).tasks.used(task_id),
    ensures
        final(rt).wf(),
        final(rt).running() == old(rt).running(),
        forall|x: u32| final(rt).tasks.used(x) == old(rt).tasks.used(x),
        r is None ==> final(q)@ == old(q)@.push(QueuedTask { task_id, rank_hi: (255 - priority) as u64, rank_lo: 0 })
            && final(p)@ == old(p)@ && final(rt).tasks@ == old(rt).tasks@,
        invoked_preemption(*old(rt), *final(rt), old(p)@, final(p)@,
            TaskKey { priority: old(rt).tasks.lookup(task_id).priority.priority, id: task_id }, r),
        r matches Some((_, cpu)) ==> final(q)@ == old(q)@
            && final(p)@ == old(p)@.update(cpu as int, old(p)@[cpu as int].push(TaskKey {
                priority: old(rt).tasks.lookup(task_id).priority.priority, id: task_id })),
{
    let key = match rt.tasks.get(task_id) {
        Some(t) => t.key(),
        None => TaskKey { priority: 0, id: task_id },
    };
    let preempted = invoke_preemption(rt, p, key);
    if preempted.is_none() {
        q.push(prioritized_queue_entry(task_id, priority));
    }
    preempted
}

impl PrioritizedRRScheduler {
    /// Wakes a task of the round-robin scheduler by the priority of its type.
    pub fn wake_task(&mut self, rt: &mut Runtime, p: &mut PreemptionPending, task_id: u32) -> (r: Option<(u32, usize)>)
        requires
            old(rt).wf(),
            preemption_target_known(old(rt), task_id),
            old(p)@.len() == old(rt).running().len(),
            old(rt).tasks.used(task_id),
            old(rt).tasks.lookup(task_id).info.scheduler_type is PrioritizedRR,
        ensures
            final(rt).wf(),
            final(rt).running() == old(rt).running(),
            final(self).interval == old(self).interval,
            forall|x: u32| final(rt).tasks.used(x) == old(rt).tasks.used(x),
            invoked_preemption(*old(rt), *final(rt), old(p)@, final(p)@,
                TaskKey { priority: old(rt).tasks.lookup(task_id).priority.priority, id: task_id }, r),
            r is None ==> final(self).queue@ == old(self).queue@.push(QueuedTask {
                    task_id, rank_hi: (255 - old(rt).tasks.lookup(task_id).info.scheduler_type->PrioritizedRR_0) as u64, rank_lo: 0 })
                && final(p)@ == old(p)@,
            r matches Some((_, cpu)) ==> final(self).queue@ == old(self).queue@
                && final(p)@ == old(p)@.update(cpu as int, old(p)@[cpu as int].push(TaskKey {
                    priority: old(rt).tasks.lookup(task_id).priority.priority, id: task_id })),
    {
        let priority = match rt.tasks.get(task_id) {
            Some(t) => match t.info.scheduler_type {
                SchedulerType::PrioritizedRR(p) => p,
                _ => 0,
            },
            None => 0,
        };
        prioritized_wake_task(rt, p, &mut self.queue, task_id, priority)
    }

    /// Asks a running task of lower priority than `task` to give way to it
    /// (see `invoke_preemption`).
    pub fn invoke_preemption_wake(&self, rt: &mut Runtime, p: &mut PreemptionPending, task: TaskKey) -> (r: Option<(u32, usize)>)
        requires
            old(rt).wf(),
            preemption_target_known(old(rt), task.id),
            old(p)@.len() == old(rt).running().len(),
        ensures
            invoked_preemption(*old(rt), *final(rt), old(p)@, final(p)@, task, r),
    {
        invoke_preemption(rt, p, task)
    }
}

impl PanickedScheduler {
    /// Queues a panicked task in FIFO order.
    pub fn wake_task(&mut self, task_id: u32)
        ensures
            final(self).queue@ == old(self).queue@.push(QueuedTask { task_id, rank_hi: 0, rank_lo: 0 }),
    {
        self.queue.push(panicked_queue_entry(task_id));
    }
}

/// Time elapsed since `last_executed`, as seen at `now` (zero when `now` is earlier).
pub open spec fn elapsed_since(last_executed: u64, now: u64) -> u64 {
    if now >= last_executed { (now - last_executed) as u64 } else { 0 }
}

/// Both tables hold the same tasks in the same places, with the same fields
/// that the quantum check reads.
pub open spec fn same_quantum_fields(a: Seq<Task>, b: Seq<Task>) -> bool {
    &&& a.len() == b.len()
    &&& forall|i: int| 0 <= i < a.len() ==> {
        &&& (#[trigger] b[i]).id == a[i].id
        &&& b[i].info.last_executed_time == a[i].info.last_executed_time
        &&& b[i].info.scheduler_type == a[i].info.scheduler_type
        &&& b[i].info.panicked == a[i].info.panicked
    }
}

/// CPU `c` runs a known round-robin task that has used up the quantum
/// `interval` at `now`.
pub open spec fn over_quantum(rt: Runtime, interval: u64, c: int, now: u64) -> bool {
    let id = rt.running()[c];
    &&& id != 0
    &&& rt.tasks.used(id)
    &&& !rt.tasks.lookup(id).info.panicked
    &&& rt.tasks.lookup(id).info.scheduler_type is PrioritizedRR
    &&& elapsed_since(rt.tasks.lookup(id).info.last_executed_time, now) > interval
}

/// Tables with the same quantum fields answer the quantum check alike.
proof fn lemma_same_quantum_lookup(a: Runtime, b: Runtime, id: u32)
    requires
        a.wf(),
        b.wf(),
        same_quantum_fields(a.tasks@, b.tasks@),
    ensures
        a.tasks.used(id) == b.tasks.used(id),
        a.tasks.used(id) ==> {
            &&& b.tasks.lookup(id).info.last_executed_time == a.tasks.lookup(id).info.last_executed_time
            &&& b.tasks.lookup(id).info.scheduler_type == a.tasks.lookup(id).info.scheduler_type
            &&& b.tasks.lookup(id).info.panicked == a.tasks.lookup(id).info.panicked
        },
{
    if a.tasks.used(id) {
        let i = choose|i: int| 0 <= i < a.tasks@.len() && a.tasks@[i].id == id;
        assert(b.tasks@[i].id == id);
        a.tasks.lemma_find_index(id, i);
        b.tasks.lemma_find_index(id, i);
        assert(crate::task::task_ids(b.tasks@).contains(id));
    }
    if b.tasks.used(id) {
        let i = choose|i: int| 0 <= i < b.tasks@.len() && b.tasks@[i].id == id;
        assert(a.tasks@[i].id == id);
        assert(crate::task::task_ids(a.tasks@).contains(id));
    }
}

/// Round-robin time quantum check of `task_id` running on `cpu_id` at
/// `now`: when the task exceeded the quantum and another task is ready (taken
/// from the schedulers without running it), that task waits for `cpu_id`,
/// `task_id` is marked as needing preemption, and the ready task's ID is
/// returned (the caller sends the preemption IPI to `cpu_id`).
pub fn invoke_preemption_tick(
    rt: &mut Runtime,
    s: &mut Schedulers,
    p: &mut PreemptionPending,
    cpu_id: usize,
    task_id: u32,
    now: u64,
) -> (r: Option<u32>)
    requires
        old(rt).wf(),
        cpu_id < old(rt).running().len(),
        old(p)@.len() == old(rt).running().len(),
    ensures
        final(rt).wf(),
        final(rt).running() == old(rt).running(),
        final(rt).cpus() == old(rt).cpus(),
        forall|x: u32| final(rt).tasks.used(x) == old(rt).tasks.used(x),
        !(old(rt).tasks.used(task_id)
            && elapsed_since(old(rt).tasks.lookup(task_id).info.last_executed_time, now) > old(s).prioritized_rr.interval)
            ==> r is None && final(rt).tasks@ == old(rt).tasks@ && final(p)@ == old(p)@,
        old(rt).tasks.used(task_id)
            && elapsed_since(old(rt).tasks.lookup(task_id).info.last_executed_time, now) > old(s).prioritized_rr.interval
            ==> r == spec_next_task(*old(s), old(rt)),
        r matches Some(next) ==> {
            &&& old(rt).tasks.used(task_id)
            &&& elapsed_since(old(rt).tasks.lookup(task_id).info.last_executed_time, now) > old(s).prioritized_rr.interval
            &&& !spec_claim_skips(old(rt), next)
            &&& old(rt).tasks.used(next)
            &&& old(rt).tasks.lookup(next).info.state != State::Terminated
            &&& old(rt).tasks.lookup(next).info.state != State::Panicked
            &&& final(p)@ == old(p)@.update(cpu_id as int, old(p)@[cpu_id as int].push(TaskKey {
                    priority: old(rt).tasks.lookup(next).priority.priority, id: next }))
            &&& final(rt).preemption_requests() == old(rt).preemption_requests().update(cpu_id as int, true)
        },
        r is None ==> final(p)@ == old(p)@,
        same_quantum_fields(old(rt).tasks@, final(rt).tasks@),
        final(s).prioritized_rr.interval == old(s).prioritized_rr.interval,
        queues_empty(*old(s)) ==> queues_empty(*final(s)),
        old(rt).tasks.used(task_id)
            && elapsed_since(old(rt).tasks.lookup(task_id).info.last_executed_time, now) > old(s).prioritized_rr.interval
            && r is None ==> queues_empty(*final(s)),
{
    let last_executed = match get_last_executed_by_task_id(rt, task_id) {
        Some(t) => t,
        None => return None,
    };
    let elapsed = now.saturating_sub(last_executed);
    if elapsed > s.prioritized_rr.interval {
        match get_next_task(s, rt, cpu_id, false) {
            Some(next) => {
                let ghost mid = rt.tasks@;
                let key = match rt.tasks.get(next) {
                    Some(t) => t.key(),
                    None => TaskKey { priority: 0, id: next },
                };
                proof {
                    let i = old(rt).tasks.index_of(next);
                    assert(rt.tasks@[i].id == next);
                    rt.tasks.lemma_find_index(next, i);
                    assert(key.priority == old(rt).tasks.lookup(next).priority.priority);
                }
                push_preemption_pending(p, cpu_id, key);
                set_need_preemption(rt, task_id, cpu_id);
                Some(next)
            },
            None => None,
        }
    } else {
        None
    }
}

/// Checks the round-robin quantum of the task running on every worker CPU
/// (1 to `num_cpu - 1`) at `now`. Returns, for each CPU that must be
/// preempted, the CPU and the task that waits for it.
pub fn preemption_ticks(
    rt: &mut Runtime,
    s: &mut Schedulers,
    p: &mut PreemptionPending,
    now: u64,
) -> (v: Vec<(usize, u32)>)
    requires
        old(rt).wf(),
        old(p)@.len() == old(rt).running().len(),
    ensures
        final(rt).wf(),
        final(rt).running() == old(rt).running(),
        forall|x: u32| final(rt).tasks.used(x) == old(rt).tasks.used(x),
        forall|k: int| 0 <= k < v@.len() ==> 1 <= (#[trigger] v@[k]).0 < old(rt).cpus(),
        forall|k: int, l: int| 0 <= k < l < v@.len() ==> v@[k].0 < v@[l].0,
        forall|k: int| 0 <= k < v@.len() ==> old(rt).running()[(#[trigger] v@[k]).0 as int] != 0,
        forall|k: int| 0 <= k < v@.len() ==> over_quantum(*old(rt), old(s).prioritized_rr.interval, (#[trigger] v@[k]).0 as int, now),
        forall|c: int| 1 <= c < old(rt).cpus() && over_quantum(*old(rt), old(s).prioritized_rr.interval, c, now)
            ==> (exists|k: int| 0 <= k < v@.len() && (#[trigger] v@[k]).0 == c) || queues_empty(*final(s)),
{
    let mut v: Vec<(usize, u32)> = Vec::new();
    let n = rt.num_cpu();
    let mut cpu_id: usize = 1;
    while cpu_id < n
        invariant
            rt.wf(),
            p@.len() == rt.running().len(),
            n == rt.cpus(),
            n == old(rt).cpus(),
            1 <= cpu_id,
            rt.running() == old(rt).running(),
            forall|x: u32| rt.tasks.used(x) == old(rt).tasks.used(x),
            forall|k: int| 0 <= k < v@.len() ==> 1 <= (#[trigger] v@[k]).0 < n,
            forall|k: int| 0 <= k < v@.len() ==> (#[trigger] v@[k]).0 < cpu_id,
            forall|k: int, l: int| 0 <= k < l < v@.len() ==> v@[k].0 < v@[l].0,
            forall|k: int| 0 <= k < v@.len() ==> old(rt).running()[(#[trigger] v@[k]).0 as int] != 0,
            old(rt).wf(),
            same_quantum_fields(old(rt).tasks@, rt.tasks@),
            s.prioritized_rr.interval == old(s).prioritized_rr.interval,
            forall|k: int| 0 <= k < v@.len() ==> over_quantum(*old(rt), old(s).prioritized_rr.interval, (#[trigger] v@[k]).0 as int, now),
            forall|c: int| 1 <= c < cpu_id && over_quantum(*old(rt), old(s).prioritized_rr.interval, c, now)
                ==> (exists|k: int| 0 <= k < v@.len() && (#[trigger] v@[k]).0 == c) || queues_empty(*s),
        decreases n - cpu_id,
    {
        let ghost v0 = v@;
        let ghost rt0 = *rt;
        let ghost s0 = *s;
        match get_current_task(rt, cpu_id) {
            Some(task_id) => {
                proof { lemma_same_quantum_lookup(*old(rt), *rt, task_id); }
                match get_scheduler_type_by_task_id(rt, task_id) {
                    Some(SchedulerType::PrioritizedRR(_)) => {
                        match invoke_preemption_tick(rt, s, p, cpu_id, task_id, now) {
                            Some(next) => {
                                v.push((cpu_id, next));
                                proof {
                                    assert(v@[v0.len() as int] == (cpu_id, next));
                                    assert forall|c: int| 1 <= c < cpu_id + 1 && over_quantum(*old(rt), old(s).prioritized_rr.interval, c, now)
                                        implies (exists|k: int| 0 <= k < v@.len() && (#[trigger] v@[k]).0 == c) || queues_empty(*s) by {
                                        if c < cpu_id {
                                            if queues_empty(s0) {
                                            } else {
                                                let k = choose|k: int| 0 <= k < v0.len() && (#[trigger] v0[k]).0 == c;
                                                assert(v@[k] == v0[k]);
                                            }
                                        } else {
                                            assert(v@[v0.len() as int].0 == c);
                                        }
                                    }
                                }
                            },
                            None => {
                                proof {
                                    assert forall|c: int| 1 <= c < cpu_id + 1 && over_quantum(*old(rt), old(s).prioritized_rr.interval, c, now)
                                        implies (exists|k: int| 0 <= k < v@.len() && (#[trigger] v@[k]).0 == c) || queues_empty(*s) by {
                                        if c == cpu_id {
                                            assert(queues_empty(*s));
                                        }
                                    }
                                }
                            },
                        }
                    },
                    _ => {},
                }
            },
            None => {},
        }
        cpu_id += 1;
    }
    v
}

} // verus!
