//! The GEDF scheduler: absolute deadlines of waking tasks (from a periodic
//! deadline hint, the deadline of the task's DAG, or the scheduler's relative
//! deadline), the derived task priority, and queueing or preemption.
use vstd::prelude::*;
use crate::scheduler::{SchedulerType, PreemptionPending, invoke_preemption, invoked_preemption, preemption_target_known, known, busy, spec_get_priority, get_priority, TaskKey};
use crate::task::{Runtime, DagInfo, GedfDeadlineHint, MAX_TASK_PRIORITY, spec_combine_priority, Task, TaskInfo, PriorityInfo};
use crate::run_queue::{GEDFScheduler, gedf_queue_entry, QueuedTask};

verus! {

/// Deadline bookkeeping of one DAG.
#[derive(Debug, Clone)]
pub struct DagDeadline {
    pub dag_id: u32,
    /// Absolute deadline of the DAG's current instance, once set.
    pub absolute_deadline: Option<u64>,
    /// Relative deadline of the sink node, in milliseconds, once set.
    pub sink_relative_deadline_ms: Option<u64>,
    /// Node IDs of the source nodes.
    pub source_nodes: Vec<u32>,
}

/// The DAGs known to the GEDF scheduler.
pub struct DagTable {
    pub dags: Vec<DagDeadline>,
}

impl DagTable {
    pub open spec fn has(&self, dag_id: u32) -> bool {
        exists|i: int| 0 <= i < self.dags@.len() && self.dags@[i].dag_id == dag_id
    }

    /// First position of the DAG `dag_id`.
    pub open spec fn pos(&self, dag_id: u32) -> int {
        choose|i: int| 0 <= i < self.dags@.len() && self.dags@[i].dag_id == dag_id
            && forall|j: int| 0 <= j < i ==> self.dags@[j].dag_id != dag_id
    }

    pub open spec fn entry(&self, dag_id: u32) -> DagDeadline {
        self.dags@[self.pos(dag_id)]
    }

    /// Position of the first DAG with ID `dag_id`.
    pub fn find(&self, dag_id: u32) -> (r: Option<usize>)
        ensures
            r is None <==> !self.has(dag_id),
            r matches Some(i) ==> i == self.pos(dag_id) && i < self.dags@.len(),
    {
        let mut i: usize = 0;
        while i < self.dags.len()
            invariant
                i <= self.dags@.len(),
                forall|j: int| 0 <= j < i ==> self.dags@[j].dag_id != dag_id,
            decreases self.dags@.len() - i,
        {
            if self.dags[i].dag_id == dag_id {
                proof {
                    let p = self.pos(dag_id);
                    assert(0 <= i < self.dags@.len() && self.dags@[i as int].dag_id == dag_id
                        && forall|j: int| 0 <= j < i ==> self.dags@[j].dag_id != dag_id);
                    if p != i as int {
                        if p < i as int {
                        } else {
                            assert(self.dags@[i as int].dag_id != dag_id);
                        }
                    }
                }
                return Some(i);
            }
            i += 1;
        }
        None
    }
}

/// The DAG `dag_id` is known and has a sink relative deadline.
pub open spec fn dag_ready(dags: &DagTable, dag_id: u32) -> bool {
    dags.has(dag_id) && dags.entry(dag_id).sink_relative_deadline_ms is Some
}

/// Relative deadline of the sink node of the DAG `dag_id`, in milliseconds.
pub fn get_dag_sink_relative_deadline_ms(dags: &DagTable, dag_id: u32) -> (r: u64)
    requires
        dag_ready(dags, dag_id),
    ensures
        r == dags.entry(dag_id).sink_relative_deadline_ms.unwrap(),
{
    let i = dags.find(dag_id).unwrap();
    dags.dags[i].sink_relative_deadline_ms.unwrap()
}

/// Sets the DAG's absolute deadline to `wake_time` plus its sink relative deadline.
pub fn calculate_and_set_dag_deadline(dags: &mut DagTable, dag_id: u32, wake_time: u64) -> (r: u64)
    requires
        dag_ready(old(dags), dag_id),
        wake_time + old(dags).entry(dag_id).sink_relative_deadline_ms.unwrap() <= u64::MAX,
    ensures
        r == wake_time + old(dags).entry(dag_id).sink_relative_deadline_ms.unwrap(),
        final(dags).dags@ == old(dags).dags@.update(old(dags).pos(dag_id),
            DagDeadline { absolute_deadline: Some(r), ..old(dags).entry(dag_id) }),
{
    let rel = get_dag_sink_relative_deadline_ms(dags, dag_id);
    let d = wake_time + rel;
    let i = dags.find(dag_id).unwrap();
    dags.dags[i].absolute_deadline = Some(d);
    proof {
        assert(dags.dags@ =~= old(dags).dags@.update(old(dags).pos(dag_id),
            DagDeadline { absolute_deadline: Some(d), ..old(dags).entry(dag_id) }));
    }
    d
}

/// Whether `node_id` is a source node of the DAG `dag_id`.
pub fn is_source_node(dags: &DagTable, dag_id: u32, node_id: u32) -> (b: bool)
    requires
        dags.has(dag_id),
    ensures
        b == dags.entry(dag_id).source_nodes@.contains(node_id),
{
    let i = dags.find(dag_id).unwrap();
    let nodes = &dags.dags[i].source_nodes;
    assert(dags.entry(dag_id).source_nodes@ == nodes@);
    let mut k: usize = 0;
    while k < nodes.len()
        invariant
            nodes@ == dags.entry(dag_id).source_nodes@,
            k <= nodes@.len(),
            forall|j: int| 0 <= j < k ==> nodes@[j] != node_id,
        decreases nodes@.len() - k,
    {
        if nodes[k] == node_id {
            assert(nodes@[k as int] == node_id);
            return true;
        }
        k += 1;
    }
    false
}

/// Deadline a DAG task waking at `wake_time` gets: the DAG's current
/// absolute deadline, unless there is none or the task is a source node, in
/// which case a new one is set from `wake_time`.
pub open spec fn spec_dag_deadline(dags: &DagTable, dag_info: DagInfo, wake_time: u64) -> u64 {
    let e = dags.entry(dag_info.dag_id);
    match e.absolute_deadline {
        Some(d) => if e.source_nodes@.contains(dag_info.node_id) {
            (wake_time + e.sink_relative_deadline_ms.unwrap()) as u64
        } else {
            d
        },
        None => (wake_time + e.sink_relative_deadline_ms.unwrap()) as u64,
    }
}

/// A DAG that already has an absolute deadline hands that same deadline to
/// every waking node that is not one of its source nodes; a source node, or
/// any node of a DAG without a deadline yet, gets its wake time plus the
/// DAG's sink relative deadline. In particular a non-source node never gets a
/// deadline computed from its own wake time while the DAG has one.
pub proof fn lemma_dag_deadline(dags: &DagTable, dag_info: DagInfo, wake_time: u64)
    requires
        dag_deadline_ok(dags, dag_info, wake_time),
    ensures
        dags.entry(dag_info.dag_id).absolute_deadline is Some
            && !dags.entry(dag_info.dag_id).source_nodes@.contains(dag_info.node_id)
            ==> spec_dag_deadline(dags, dag_info, wake_time)
                == dags.entry(dag_info.dag_id).absolute_deadline.unwrap(),
        dags.entry(dag_info.dag_id).absolute_deadline is None
            || dags.entry(dag_info.dag_id).source_nodes@.contains(dag_info.node_id)
            ==> spec_dag_deadline(dags, dag_info, wake_time)
                == wake_time + dags.entry(dag_info.dag_id).sink_relative_deadline_ms.unwrap(),
{
}

/// The DAG deadline may be computed without overflow.
pub open spec fn dag_deadline_ok(dags: &DagTable, dag_info: DagInfo, wake_time: u64) -> bool {
    &&& dag_ready(dags, dag_info.dag_id)
    &&& wake_time + dags.entry(dag_info.dag_id).sink_relative_deadline_ms.unwrap() <= u64::MAX
}

/// Absolute deadline of a DAG task waking at `wake_time` (see `spec_dag_deadline`).
pub fn calculate_and_update_dag_deadline(dags: &mut DagTable, dag_info: &DagInfo, wake_time: u64) -> (r: u64)
    requires
        dag_deadline_ok(old(dags), *dag_info, wake_time),
    ensures
        r == spec_dag_deadline(old(dags), *dag_info, wake_time),
        old(dags).entry(dag_info.dag_id).absolute_deadline is Some
            && !old(dags).entry(dag_info.dag_id).source_nodes@.contains(dag_info.node_id)
            ==> r == old(dags).entry(dag_info.dag_id).absolute_deadline.unwrap(),
        old(dags).entry(dag_info.dag_id).absolute_deadline is None
            || old(dags).entry(dag_info.dag_id).source_nodes@.contains(dag_info.node_id)
            ==> r == wake_time + old(dags).entry(dag_info.dag_id).sink_relative_deadline_ms.unwrap(),
        final(dags).dags@ == (if old(dags).entry(dag_info.dag_id).absolute_deadline is Some
            && !old(dags).entry(dag_info.dag_id).source_nodes@.contains(dag_info.node_id) {
            old(dags).dags@
        } else {
            old(dags).dags@.update(old(dags).pos(dag_info.dag_id),
                DagDeadline { absolute_deadline: Some(r), ..old(dags).entry(dag_info.dag_id) })
        }),
{
    let dag_id = dag_info.dag_id;
    let node_id = dag_info.node_id;
    let i = dags.find(dag_id).unwrap();
    match dags.dags[i].absolute_deadline {
        Some(absolute_deadline) => {
            if !is_source_node(dags, dag_id, node_id) {
                return absolute_deadline;
            }
            calculate_and_set_dag_deadline(dags, dag_id, wake_time)
        },
        None => calculate_and_set_dag_deadline(dags, dag_id, wake_time),
    }
}

/// Absolute deadline of a GEDF task: the hint's deadline (only for tasks
/// outside a DAG), else the DAG deadline, else `wake_time` plus the relative
/// deadline.
pub open spec fn spec_gedf_deadline(
    dags: &DagTable,
    dag_info: Option<DagInfo>,
    hint: Option<GedfDeadlineHint>,
    relative_deadline: u64,
    wake_time: u64,
) -> int {
    match dag_info {
        None => match hint {
            Some(h) => h.absolute_deadline as int,
            None => wake_time + relative_deadline,
        },
        Some(d) => spec_dag_deadline(dags, d, wake_time) as int,
    }
}

/// The deadline is computable and leaves a valid task priority.
pub open spec fn gedf_deadline_ok(
    dags: &DagTable,
    dag_info: Option<DagInfo>,
    hint: Option<GedfDeadlineHint>,
    relative_deadline: u64,
    wake_time: u64,
) -> bool {
    &&& (dag_info matches Some(d) ==> dag_deadline_ok(dags, d, wake_time))
    &&& spec_gedf_deadline(dags, dag_info, hint, relative_deadline, wake_time) <= MAX_TASK_PRIORITY
}

/// What waking a GEDF task did.
#[derive(Debug, Clone, Copy, PartialEq, Eq)]
pub struct GedfWake {
    /// Absolute deadline given to the task.
    pub absolute_deadline: u64,
    /// Wake time recorded (the hint's release time when a hint was used).
    pub wake_time: u64,
    /// `Some((task, cpu))` when the task preempts `task` on `cpu`; otherwise it was queued.
    pub preempted: Option<(u32, usize)>,
}

impl GEDFScheduler {
    /// Wakes the GEDF task `task_id` at `wake_time`: computes its absolute
    /// deadline (`spec_gedf_deadline`), sets its priority to the GEDF scheduler
    /// priority combined with `MAX_TASK_PRIORITY - deadline`, records the
    /// deadline, and either preempts a running task (`invoke_preemption`) or
    /// queues the task ranked by deadline and wake time.
    #[verifier::rlimit(40)]
    pub fn wake_task(
        &mut self,
        rt: &mut Runtime,
        p: &mut PreemptionPending,
        dags: &mut DagTable,
        task_id: u32,
        wake_time: u64,
        hint: Option<GedfDeadlineHint>,
    ) -> (r: GedfWake)
        requires
            old(rt).wf(),
            preemption_target_known(old(rt), task_id),
            old(p)@.len() == old(rt).running().len(),
            old(rt).tasks.used(task_id),
            old(rt).tasks.lookup(task_id).info.scheduler_type is GEDF,
            gedf_deadline_ok(old(dags), old(rt).tasks.lookup(task_id).info.dag_info,
                if old(rt).tasks.lookup(task_id).info.dag_info is None { hint } else { None },
                old(rt).tasks.lookup(task_id).info.scheduler_type->GEDF_0, wake_time),
        ensures
            final(rt).wf(),
            ({
                let t = old(rt).tasks.lookup(task_id);
                let h = if t.info.dag_info is None { hint } else { None };
                &&& r.absolute_deadline == spec_gedf_deadline(old(dags), t.info.dag_info, h, t.info.scheduler_type->GEDF_0, wake_time)
                &&& r.wake_time == (match h { Some(hh) => hh.logical_release_time, None => wake_time })
                &&& final(rt).tasks.lookup(task_id).priority.priority
                    == spec_combine_priority(spec_get_priority(SchedulerType::GEDF(0)), (MAX_TASK_PRIORITY - r.absolute_deadline) as u64)
                &&& final(rt).tasks.lookup(task_id).info.absolute_deadline == Some(r.absolute_deadline)
            }),
            final(rt).running() == old(rt).running(),
            forall|x: u32| final(rt).tasks.used(x) == old(rt).tasks.used(x),
            exists|mid: Runtime| {
                let i = old(rt).tasks.index_of(task_id);
                let t = old(rt).tasks@[i];
                &&& mid.wf()
                &&& mid.tasks@ == old(rt).tasks@.update(i, Task {
                        priority: PriorityInfo { priority: final(rt).tasks.lookup(task_id).priority.priority },
                        info: TaskInfo { absolute_deadline: Some(r.absolute_deadline), ..t.info },
                        ..t
                    })
                &&& mid.running() == old(rt).running()
                &&& mid.preemption_requests() == old(rt).preemption_requests()
                &&& mid.cpus() == old(rt).cpus()
                &&& #[trigger] invoked_preemption(mid, *final(rt), old(p)@, final(p)@,
                        TaskKey { priority: final(rt).tasks.lookup(task_id).priority.priority, id: task_id }, r.preempted)
            },
            r.preempted is None ==> final(self).queue@ == old(self).queue@.push(QueuedTask { task_id, rank_hi: r.absolute_deadline, rank_lo: r.wake_time })
                && final(p)@ == old(p)@,
            r.preempted matches Some((_, cpu)) ==> final(self).queue@ == old(self).queue@
                && final(p)@ == old(p)@.update(cpu as int, old(p)@[cpu as int].push(TaskKey {
                    priority: final(rt).tasks.lookup(task_id).priority.priority, id: task_id })),
    {
        let i = rt.tasks.find(task_id).unwrap();
        let ghost i0 = i as int;
        proof { rt.tasks.lemma_find_index(task_id, i as int); }
        let mut info = rt.tasks.at(i).info;
        let dag_info = info.get_dag_info();
        let relative_deadline = match info.scheduler_type {
            SchedulerType::GEDF(rd) => rd,
            _ => 0,
        };
        let hint = if dag_info.is_none() { hint } else { None };
        let absolute_deadline = match hint {
            Some(h) => h.absolute_deadline,
            None => match dag_info {
                Some(d) => calculate_and_update_dag_deadline(dags, &d, wake_time),
                None => wake_time + relative_deadline,
            },
        };
        let trace_wake_time = match hint {
            Some(h) => h.logical_release_time,
            None => wake_time,
        };
        let mut priority = rt.tasks.at(i).priority;
        priority.update_priority_info(get_priority(SchedulerType::GEDF(0)), MAX_TASK_PRIORITY - absolute_deadline);
        rt.tasks.set_priority(i, priority);
        info.update_absolute_deadline(absolute_deadline);
        rt.tasks.set_info(i, info);
        proof {
            rt.tasks.lemma_find_index(task_id, i0);
        }
        let key = TaskKey { priority: priority.priority, id: task_id };
        proof {
            if (exists|c: int| busy(rt, c)) && (forall|c: int| busy(rt, c) ==> rt.running()[c] != task_id) {
                let w = choose|c: int| busy(rt, c);
                assert(busy(old(rt), w));
                assert forall|c: int| busy(old(rt), c) implies old(rt).running()[c] != task_id by {
                    assert(busy(rt, c));
                }
                let c = choose|c: int| known(old(rt), c);
                assert(known(rt, c));
            }
        }
        let ghost mid = *rt;
        proof {
            assert(mid.tasks@ =~= old(rt).tasks@.update(i0, Task {
                priority: priority,
                info: TaskInfo { absolute_deadline: Some(absolute_deadline), ..old(rt).tasks@[i0].info },
                ..old(rt).tasks@[i0]
            }));
        }
        let preempted = invoke_preemption(rt, p, key);
        proof {
            assert(invoked_preemption(mid, *rt, old(p)@, p@, key, preempted));
            assert(rt.tasks.used(task_id));
            let k = rt.tasks.index_of(task_id);
            assert(rt.tasks@[k].id == task_id);
        }
        proof {
            assert(rt.tasks@[i0].id == task_id);
            rt.tasks.lemma_find_index(task_id, i0);
            assert(rt.tasks.lookup(task_id).priority == priority);
            assert(rt.tasks.lookup(task_id).info.absolute_deadline == Some(absolute_deadline));
        }
        if preempted.is_none() {
            self.queue.push(gedf_queue_entry(task_id, absolute_deadline, trace_wake_time));
        }
        GedfWake { absolute_deadline, wake_time: trace_wake_time, preempted }
    }

    /// Asks a running task of lower priority than `task` to give way to it (see
    /// `invoke_preemption`).
    pub fn invoke_preemption(&self, rt: &mut Runtime, p: &mut PreemptionPending, task: TaskKey) -> (r: Option<(u32, usize)>)
        requires
            old(rt).wf(),
            preemption_target_known(old(rt), task.id),
            old(p)@.len() == old(rt).running().len(),
        ensures
            invoked_preemption(*old(rt), *final(rt), old(p)@, final(p)@, task, r),
    {
        invoke_preemption(rt, p, task)
    }
}

} // verus!
