//! What the runtime records in the baseline trace: snapshots of the
//! scheduler state built from the task table and the per-CPU tables, and the
//! records of wake-ups, dispatches, completions and stutters.
use vstd::prelude::*;
use crate::task::{Runtime, Task, State, DagInfo, SpawnedTask, spawn_with_ids, PollOutcome, PollFinish, finish_poll, poll_finished};
use crate::scheduler::SchedulerType;
use crate::sorting::{sort_by_key, lemma_insert_at};
use crate::baseline_trace::{
    BaselineTrace, BaselineTraceEvent, BaselineTraceSnapshot, SnapshotView, TaskTraceEvent,
    SchedAndTaskDispatchTraceRecord, record, recorded, record_task_trace, task_recorded, capture_sched_and_task_dispatch,
    next_trace_task_id, take_dump_on_complete,
};

verus! {

/// Trace ID of the task with runtime ID `id`, if there is one.
pub open spec fn spec_trace_id(rt: Runtime, id: u32) -> Option<u32> {
    if rt.tasks.used(id) { Some(rt.tasks.lookup(id).info.trace_task_id) } else { None }
}

/// Trace ID of the task with runtime ID `runtime_task_id`.
pub fn trace_task_id_of_runtime_task_id(rt: &Runtime, runtime_task_id: u32) -> (r: Option<u32>)
    requires
        rt.wf(),
    ensures
        r == spec_trace_id(*rt, runtime_task_id),
{
    match rt.tasks.get(runtime_task_id) {
        Some(t) => Some(t.info.trace_task_id),
        None => None,
    }
}

/// Trace ID of the task running on `cpu`, if any.
pub open spec fn spec_current_trace_id(rt: Runtime, cpu: int) -> Option<u32> {
    let id = rt.running()[cpu];
    if id == 0 { None } else { spec_trace_id(rt, id) }
}

/// Trace ID of the task running on `cpu_id`, if any.
pub fn baseline_current_task_id(rt: &Runtime, cpu_id: usize) -> (r: Option<u32>)
    requires
        rt.wf(),
        cpu_id < rt.running().len(),
    ensures
        r == spec_current_trace_id(*rt, cpu_id as int),
{
    let id = rt.running[cpu_id];
    if id == 0 {
        None
    } else {
        trace_task_id_of_runtime_task_id(rt, id)
    }
}

/// Trace IDs of the runnable tasks of `ts`, in table order.
pub open spec fn runnable_ids(ts: Seq<Task>) -> Seq<u32>
    decreases ts.len(),
{
    if ts.len() == 0 {
        Seq::empty()
    } else {
        let r = runnable_ids(ts.drop_last());
        if ts.last().info.state == State::Runnable { r.push(ts.last().info.trace_task_id) } else { r }
    }
}

/// A task ID as a sort key.
pub open spec fn id_key() -> spec_fn(u32) -> u64 {
    |x: u32| x as u64
}

/// The runnable IDs with `extra` added when it is missing, in increasing
/// order.
pub open spec fn spec_runnable_ids(ts: Seq<Task>, extra: Option<u32>) -> Seq<u32> {
    let base = runnable_ids(ts);
    let with = match extra {
        Some(id) => if base.contains(id) { base } else { base.push(id) },
        None => base,
    };
    sort_by_key(with, id_key())
}

/// Sorts IDs increasingly.
pub fn sort_ids(v: Vec<u32>) -> (r: Vec<u32>)
    ensures
        r@ == sort_by_key(v@, id_key()),
{
    let ghost orig = v@;
    let mut out: Vec<u32> = Vec::new();
    let n = v.len();
    let mut i: usize = 0;
    while i < n
        invariant
            n == orig.len(),
            v@ == orig,
            i <= n,
            out@ == sort_by_key(orig.take(i as int), id_key()),
        decreases n - i,
    {
        let x = v[i];
        proof {
            assert(orig.take(i + 1).drop_last() =~= orig.take(i as int));
        }
        let mut j = out.len();
        while j > 0 && out[j - 1] > x
            invariant
                j <= out@.len(),
                forall|k: int| j <= k < out@.len() ==> out@[k] > x,
            decreases j,
        {
            j -= 1;
        }
        proof {
            lemma_insert_at(out@, x, id_key(), j as int);
        }
        out.insert(j, x);
        i += 1;
    }
    proof {
        assert(orig.take(n as int) =~= orig);
    }
    out
}

/// Trace IDs of the runnable tasks, with `extra_runnable` added when it is
/// missing, in increasing order.
pub fn baseline_runnable_ids(rt: &Runtime, extra_runnable: Option<u32>) -> (r: Vec<u32>)
    requires
        rt.wf(),
    ensures
        r@ == spec_runnable_ids(rt.tasks@, extra_runnable),
{
    let n = rt.tasks.len();
    let mut ids: Vec<u32> = Vec::new();
    let mut i: usize = 0;
    while i < n
        invariant
            n == rt.tasks@.len(),
            i <= n,
            ids@ == runnable_ids(rt.tasks@.take(i as int)),
        decreases n - i,
    {
        let t = rt.tasks.at(i);
        proof {
            assert(rt.tasks@.take(i + 1).drop_last() =~= rt.tasks@.take(i as int));
            assert(rt.tasks@.take(i + 1).last() == rt.tasks@[i as int]);
        }
        if t.info.state == State::Runnable {
            ids.push(t.info.trace_task_id);
        }
        i += 1;
    }
    proof {
        assert(rt.tasks@.take(n as int) =~= rt.tasks@);
    }
    match extra_runnable {
        Some(id) => {
            let mut found = false;
            let mut k: usize = 0;
            while k < ids.len()
                invariant
                    k <= ids@.len(),
                    found == (exists|m: int| 0 <= m < k && ids@[m] == id),
                decreases ids@.len() - k,
            {
                if ids[k] == id {
                    found = true;
                }
                k += 1;
            }
            if !found {
                ids.push(id);
            }
        },
        None => {},
    }
    sort_ids(ids)
}

/// `s` without any occurrence of `x`.
pub open spec fn without(s: Seq<u32>, x: u32) -> Seq<u32>
    decreases s.len(),
{
    if s.len() == 0 {
        s
    } else {
        let r = without(s.drop_last(), x);
        if s.last() == x { r } else { r.push(s.last()) }
    }
}

/// Runnable IDs for a choice of `chosen`: the chosen task first, then the
/// other runnable tasks in increasing order.
pub fn baseline_choose_runnable_ids(rt: &Runtime, chosen_task_id: u32) -> (r: Vec<u32>)
    requires
        rt.wf(),
    ensures
        r@ == seq![chosen_task_id] + without(spec_runnable_ids(rt.tasks@, Some(chosen_task_id)), chosen_task_id),
{
    let all = baseline_runnable_ids(rt, Some(chosen_task_id));
    let mut r: Vec<u32> = Vec::new();
    r.push(chosen_task_id);
    let mut i: usize = 0;
    while i < all.len()
        invariant
            i <= all@.len(),
            r@ == seq![chosen_task_id] + without(all@.take(i as int), chosen_task_id),
        decreases all@.len() - i,
    {
        let ghost before = r@;
        proof {
            assert(all@.take(i + 1).drop_last() =~= all@.take(i as int));
            assert(all@.take(i + 1).last() == all@[i as int]);
        }
        if all[i] != chosen_task_id {
            r.push(all[i]);
            assert(r@ =~= seq![chosen_task_id] + without(all@.take(i + 1), chosen_task_id));
        }
        i += 1;
    }
    proof {
        assert(all@.take(all@.len() as int) =~= all@);
    }
    r
}

/// Per-worker view (CPUs 1 and up) of the snapshot taken on `cpu`: that CPU
/// shows the given values; the others show their current task, their
/// pending preemption request and no dispatch target.
pub open spec fn spec_workers(rt: Runtime, cpu: int, current: Option<u32>, need_resched: bool, dispatch_target: Option<u32>)
    -> (Seq<Option<u32>>, Seq<bool>, Seq<Option<u32>>)
{
    let n = if rt.cpus() >= 1 { rt.cpus() - 1 } else { 0 };
    (
        Seq::new(n as nat, |k: int| if k + 1 == cpu { current } else { spec_current_trace_id(rt, k + 1) }),
        Seq::new(n as nat, |k: int| if k + 1 == cpu { need_resched } else { rt.preemption_requests()[k + 1] }),
        Seq::new(n as nat, |k: int| if k + 1 == cpu { dispatch_target } else { None }),
    )
}

/// The snapshot of the scheduler state taken on `cpu`.
pub open spec fn spec_snapshot(rt: Runtime, cpu: usize, current: Option<u32>, extra_runnable: Option<u32>, need_resched: bool, dispatch_target: Option<u32>) -> SnapshotView {
    let w = spec_workers(rt, cpu as int, current, need_resched, dispatch_target);
    SnapshotView {
        cpu_id: cpu,
        current,
        runnable: spec_runnable_ids(rt.tasks@, extra_runnable),
        need_resched,
        dispatch_target,
        worker_current: w.0,
        worker_need_resched: w.1,
        worker_dispatch_target: w.2,
    }
}

/// Builds the per-worker lists of a snapshot taken on `cpu_id`.
fn worker_lists(rt: &Runtime, cpu_id: usize, current: Option<u32>, need_resched: bool, dispatch_target: Option<u32>)
    -> (r: (Vec<Option<u32>>, Vec<bool>, Vec<Option<u32>>))
    requires
        rt.wf(),
    ensures
        (r.0@, r.1@, r.2@) == spec_workers(*rt, cpu_id as int, current, need_resched, dispatch_target),
{
    let ghost w = spec_workers(*rt, cpu_id as int, current, need_resched, dispatch_target);
    let mut worker_current: Vec<Option<u32>> = Vec::new();
    let mut worker_need_resched: Vec<bool> = Vec::new();
    let mut worker_dispatch_target: Vec<Option<u32>> = Vec::new();
    let n = rt.num_cpu;
    let mut worker: usize = 1;
    while worker < n
        invariant
            rt.wf(),
            n == rt.cpus(),
            1 <= worker <= n,
            w == spec_workers(*rt, cpu_id as int, current, need_resched, dispatch_target),
            worker_current@ == w.0.take(worker - 1),
            worker_need_resched@ == w.1.take(worker - 1),
            worker_dispatch_target@ == w.2.take(worker - 1),
        decreases n - worker,
    {
        let c = if worker == cpu_id { current } else { baseline_current_task_id(rt, worker) };
        let nr = if worker == cpu_id { need_resched } else { rt.preemption_request[worker] };
        let dt = if worker == cpu_id { dispatch_target } else { None };
        worker_current.push(c);
        worker_need_resched.push(nr);
        worker_dispatch_target.push(dt);
        proof {
            assert(worker_current@ =~= w.0.take(worker as int));
            assert(worker_need_resched@ =~= w.1.take(worker as int));
            assert(worker_dispatch_target@ =~= w.2.take(worker as int));
        }
        worker += 1;
    }
    proof {
        assert(w.0.take(n - 1) =~= w.0);
        assert(w.1.take(n - 1) =~= w.1);
        assert(w.2.take(n - 1) =~= w.2);
    }
    (worker_current, worker_need_resched, worker_dispatch_target)
}

/// The snapshot of the scheduler state taken on `cpu_id`.
pub fn baseline_snapshot(
    rt: &Runtime,
    cpu_id: usize,
    current: Option<u32>,
    extra_runnable: Option<u32>,
    need_resched: bool,
    dispatch_target: Option<u32>,
) -> (s: BaselineTraceSnapshot)
    requires
        rt.wf(),
    ensures
        s@ == spec_snapshot(*rt, cpu_id, current, extra_runnable, need_resched, dispatch_target),
{
    let (worker_current, worker_need_resched, worker_dispatch_target) = worker_lists(rt, cpu_id, current, need_resched, dispatch_target);
    BaselineTraceSnapshot {
        cpu_id,
        current,
        runnable: baseline_runnable_ids(rt, extra_runnable),
        need_resched,
        dispatch_target,
        worker_current,
        worker_need_resched,
        worker_dispatch_target,
    }
}

/// The snapshot of the choice of `task_id` on `cpu_id`: nothing current, the
/// chosen task first among the runnable ones and as the dispatch target.
pub fn baseline_choose_snapshot(rt: &Runtime, cpu_id: usize, task_id: u32, need_resched: bool) -> (s: BaselineTraceSnapshot)
    requires
        rt.wf(),
    ensures
        s@ == (SnapshotView {
            runnable: seq![task_id] + without(spec_runnable_ids(rt.tasks@, Some(task_id)), task_id),
            ..spec_snapshot(*rt, cpu_id, None, Some(task_id), need_resched, Some(task_id))
        }),
{
    let (worker_current, worker_need_resched, worker_dispatch_target) = worker_lists(rt, cpu_id, None, need_resched, Some(task_id));
    BaselineTraceSnapshot {
        cpu_id,
        current: None,
        runnable: baseline_choose_runnable_ids(rt, task_id),
        need_resched,
        dispatch_target: Some(task_id),
        worker_current,
        worker_need_resched,
        worker_dispatch_target,
    }
}

/// Records that task `task_id` became runnable, as seen from CPU 0.
pub fn record_baseline_runnable_projection(t: &mut BaselineTrace, rt: &Runtime, task_id: u32, tsc: u64)
    requires
        rt.wf(),
        old(t).traces@.len() > 0,
    ensures
        recorded(*old(t), *final(t), BaselineTraceEvent::Wakeup { task_id },
            spec_snapshot(*rt, 0, spec_current_trace_id(*rt, 0), Some(task_id), false, None), tsc),
{
    let current = baseline_current_task_id(rt, 0);
    let snap = baseline_snapshot(rt, 0, current, Some(task_id), false, None);
    record(t, BaselineTraceEvent::Wakeup { task_id }, snap, tsc);
}

/// Captures the choice and dispatch of runtime task `runtime_task_id` on
/// `cpu_id` (by its trace ID, or its runtime ID when it has none), with the
/// CPU's pending preemption request.
pub fn capture_baseline_dispatch_projection(t: &mut BaselineTrace, rt: &Runtime, cpu_id: usize, runtime_task_id: u32, tsc: u64)
    -> (r: SchedAndTaskDispatchTraceRecord)
    requires
        rt.wf(),
        cpu_id < rt.running().len(),
    ensures
        ({
            let task_id = match spec_trace_id(*rt, runtime_task_id) { Some(x) => x, None => runtime_task_id };
            &&& r.sched_choose.event == BaselineTraceEvent::Choose { task_id }
            &&& r.sched_dispatch.event == BaselineTraceEvent::Dispatch { task_id }
            &&& r.sched_choose.event_id == old(t).trace_event_id
            &&& r.sched_dispatch.event_id == old(t).trace_event_id.wrapping_add(1)
            &&& r.sched_dispatch.snapshot@ == spec_snapshot(*rt, cpu_id, Some(task_id), None, false, None)
            &&& r.sched_choose.snapshot@.need_resched == rt.preemption_requests()[cpu_id as int]
        }),
        *final(t) == (BaselineTrace { trace_event_id: old(t).trace_event_id.wrapping_add(2), ..*old(t) }),
{
    let task_id = match trace_task_id_of_runtime_task_id(rt, runtime_task_id) {
        Some(x) => x,
        None => runtime_task_id,
    };
    let need_resched = rt.preemption_request[cpu_id];
    let choose = baseline_choose_snapshot(rt, cpu_id, task_id, need_resched);
    let dispatch = baseline_snapshot(rt, cpu_id, Some(task_id), None, false, None);
    capture_sched_and_task_dispatch(t, task_id, choose, dispatch, tsc)
}

/// Records the completion of task `task_id` on `cpu_id`.
pub fn record_baseline_complete(t: &mut BaselineTrace, rt: &Runtime, cpu_id: usize, task_id: u32, tsc: u64)
    requires
        rt.wf(),
        cpu_id < old(t).traces@.len(),
    ensures
        recorded(*old(t), *final(t), BaselineTraceEvent::Complete { task_id },
            spec_snapshot(*rt, cpu_id, None, None, true, None), tsc),
{
    let snap = baseline_snapshot(rt, cpu_id, None, None, true, None);
    record(t, BaselineTraceEvent::Complete { task_id }, snap, tsc);
}

/// Records a stutter (nothing to do) on `cpu_id`.
pub fn record_baseline_stutter(t: &mut BaselineTrace, rt: &Runtime, cpu_id: usize, tsc: u64)
    requires
        rt.wf(),
        cpu_id < rt.running().len(),
        cpu_id < old(t).traces@.len(),
    ensures
        recorded(*old(t), *final(t), BaselineTraceEvent::Stutter,
            spec_snapshot(*rt, cpu_id, spec_current_trace_id(*rt, cpu_id as int), None,
                rt.preemption_requests()[cpu_id as int], None), tsc),
{
    let current = baseline_current_task_id(rt, cpu_id);
    let snap = baseline_snapshot(rt, cpu_id, current, None, rt.preemption_request[cpu_id], None);
    record(t, BaselineTraceEvent::Stutter, snap, tsc);
}

/// Records, for the task running on `cpu_id`, that the task it joins is
/// ready, in the scheduler trace and the task trace. Nothing when no known
/// task runs there.
pub fn record_current_task_join_target_ready(t: &mut BaselineTrace, rt: &Runtime, cpu_id: usize, tsc: u64)
    requires
        rt.wf(),
        cpu_id < rt.running().len(),
        cpu_id < old(t).traces@.len(),
    ensures
        spec_current_trace_id(*rt, cpu_id as int) is None ==> *final(t) == *old(t),
        spec_current_trace_id(*rt, cpu_id as int) matches Some(id) ==> exists|mid: BaselineTrace| {
            &&& recorded(*old(t), mid, BaselineTraceEvent::JoinTargetReady { task_id: id },
                spec_snapshot(*rt, cpu_id, Some(id), None, rt.preemption_requests()[cpu_id as int], None), tsc)
            &&& task_recorded(mid, *final(t), TaskTraceEvent::JoinTargetReady { task_id: id })
        },
{
    let runtime_task_id = rt.running[cpu_id];
    if runtime_task_id == 0 {
        return;
    }
    let trace_task_id = match trace_task_id_of_runtime_task_id(rt, runtime_task_id) {
        Some(x) => x,
        None => return,
    };
    let snap = baseline_snapshot(rt, cpu_id, Some(trace_task_id), None, rt.preemption_request[cpu_id], None);
    record(t, BaselineTraceEvent::JoinTargetReady { task_id: trace_task_id }, snap, tsc);
    record_task_trace(t, TaskTraceEvent::JoinTargetReady { task_id: trace_task_id });
}


/// Spawns a task with tracing on: the task takes the next trace task ID, its
/// spawn is recorded in the task trace with the task running on `cpu_id` as
/// parent, and it is woken (see `spawn_with_ids`). `None`, with nothing
/// changed in the trace, when every nonzero task ID is in use.
pub fn spawn_traced(
    t: &mut BaselineTrace,
    rt: &mut Runtime,
    name: String,
    sched_type: SchedulerType,
    dag_info: Option<DagInfo>,
    now: u64,
    cpu_id: usize,
) -> (r: Option<SpawnedTask>)
    requires
        old(rt).wf(),
        cpu_id < old(rt).running().len(),
    ensures
        final(rt).wf(),
        final(rt).running() == old(rt).running(),
        final(rt).cpus() == old(rt).cpus(),
        r is None ==> *final(t) == *old(t) && final(rt).tasks@ == old(rt).tasks@,
        r is None <==> forall|x: u32| x != 0 ==> old(rt).tasks.used(x),
        r matches Some(sp) ==> {
            &&& sp.trace_task_id == old(t).trace_task_id
            &&& sp.runtime_task_id != 0
            &&& !old(rt).tasks.used(sp.runtime_task_id)
            &&& final(rt).tasks.used(sp.runtime_task_id)
            &&& final(rt).tasks@.len() == old(rt).tasks@.len() + 1
            &&& final(rt).tasks@.last().id == sp.runtime_task_id
            &&& final(rt).tasks@.last().info.trace_task_id == sp.trace_task_id
            &&& final(rt).tasks@.last().name@ == name@
            &&& final(rt).tasks@.last().scheduler == sched_type
            &&& final(rt).tasks@.last().info.state == State::Runnable
            &&& task_recorded(
                BaselineTrace { trace_task_id: old(t).trace_task_id.wrapping_add(1), ..*old(t) },
                *final(t),
                TaskTraceEvent::Spawn {
                    parent_task_id: spec_current_trace_id(*old(rt), cpu_id as int),
                    child_task_id: sp.trace_task_id,
                })
        },
{
    let parent_task_id = baseline_current_task_id(rt, cpu_id);
    let trace_task_id = t.trace_task_id;
    match spawn_with_ids(rt, name, sched_type, dag_info, now, trace_task_id) {
        Some((spawned, _)) => {
            let _ = next_trace_task_id(t);
            record_task_trace(t, TaskTraceEvent::Spawn { parent_task_id, child_task_id: spawned.trace_task_id });
            Some(spawned)
        },
        None => None,
    }
}


/// Finishes a poll of `task_id` on `cpu_id` (see `finish_poll`) with tracing
/// on. When the task terminated and its completion was not reported yet, the
/// completion is recorded in the scheduler trace of `cpu_id` (snapshot of the
/// runtime after the poll) and in the task trace. The second result is true
/// when a terminated task was the one the trace dump was armed for (the dump
/// is then disarmed and the caller dumps the trace).
pub fn finish_poll_traced(
    t: &mut BaselineTrace,
    rt: &mut Runtime,
    cpu_id: usize,
    task_id: u32,
    outcome: PollOutcome,
    tsc: u64,
) -> (r: (PollFinish, bool))
    requires
        old(rt).wf(),
        cpu_id < old(rt).running().len(),
        cpu_id < old(t).traces@.len(),
        old(rt).running()[cpu_id as int] == task_id,
        old(rt).tasks.used(task_id),
    ensures
        poll_finished(*old(rt), *final(rt), cpu_id, task_id, outcome, r.0),
        ({
            let info = old(rt).tasks@[old(rt).tasks.index_of(task_id)].info;
            let armed = old(t).dump_on_complete_task_id == task_id;
            let disarmed = |x: BaselineTrace| if armed { BaselineTrace { dump_on_complete_task_id: 0, ..x } } else { x };
            match outcome {
                PollOutcome::Ready => {
                    &&& r.1 == armed
                    &&& info.completion_trace_recorded ==> *final(t) == disarmed(*old(t))
                    &&& !info.completion_trace_recorded ==> exists|mid1: BaselineTrace, mid2: BaselineTrace| {
                        &&& recorded(*old(t), mid1, BaselineTraceEvent::Complete { task_id: info.trace_task_id },
                                spec_snapshot(*final(rt), cpu_id, None, None, true, None), tsc)
                        &&& #[trigger] task_recorded(mid1, mid2, TaskTraceEvent::Complete { task_id: info.trace_task_id })
                        &&& disarmed(mid2) == *final(t)
                    }
                },
                _ => !r.1 && *final(t) == *old(t),
            }
        }),
{
    let fin = finish_poll(rt, cpu_id, task_id, outcome);
    let mut dump = false;
    match fin {
        PollFinish::Terminated(trace) => {
            let ghost before = *t;
            match trace {
                Some(trace_task_id) => {
                    record_baseline_complete(t, rt, cpu_id, trace_task_id, tsc);
                    let ghost mid1 = *t;
                    record_task_trace(t, TaskTraceEvent::Complete { task_id: trace_task_id });
                    proof {
                        assert(t.dump_on_complete_task_id == before.dump_on_complete_task_id);
                    }
                },
                None => {},
            }
            dump = take_dump_on_complete(t, task_id);
        },
        _ => {},
    }
    (fin, dump)
}

} // verus!
