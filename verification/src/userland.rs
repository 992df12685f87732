//! Installing the traced workloads of the trace virtual machines: each one
//! restarts the trace, spawns the root task of its workload and arms the
//! dump of the trace for when that task completes.
use vstd::prelude::*;
use crate::baseline_trace::{BaselineTrace, reset, arm_dump_on_complete};
use crate::task::{Runtime, State};
use crate::scheduler::SchedulerType;
use crate::trace_hooks::spawn_traced;

verus! {

/// Priority of the root task of a traced workload (prioritized FIFO).
pub const TRACE_ROOT_PRIORITY: u8 = 31;

/// What installing the root task `name` leaves, with result `r`: a trace
/// restarted with workload artifacts off; when the root task was spawned,
/// it is the first traced task (trace ID 1), it runs on the prioritized FIFO
/// scheduler with priority 31 and the dump is armed for it; otherwise no
/// task was added and the dump stays as it was.
pub open spec fn installed(before_t: BaselineTrace, after_t: BaselineTrace, before: Runtime, after: Runtime, name: Seq<char>, r: Option<u32>) -> bool {
    &&& after.wf()
    &&& after.running() == before.running()
    &&& after_t.traces@.len() == before_t.traces@.len()
    &&& forall|i: int| 0 <= i < after_t.traces@.len() ==> (#[trigger] after_t.traces@[i])@.len() == 0 && !after_t.traces@[i].overflowed
    &&& after_t.task_trace@.len() == 0
    &&& !after_t.task_trace.overflowed
    &&& after_t.trace_event_id == 0
    &&& !after_t.workload_artifact_enabled
    &&& match r {
        Some(id) => {
            &&& id != 0
            &&& !before.tasks.used(id)
            &&& after.tasks@.len() == before.tasks@.len() + 1
            &&& after.tasks@.last().id == id
            &&& after.tasks@.last().name@ == name
            &&& after.tasks@.last().scheduler == SchedulerType::PrioritizedFIFO(TRACE_ROOT_PRIORITY)
            &&& after.tasks@.last().info.state == State::Runnable
            &&& after.tasks@.last().info.trace_task_id == 1
            &&& after_t.trace_task_id == 2
            &&& after_t.dump_on_complete_task_id == id
        },
        None => {
            &&& after.tasks@ == before.tasks@
            &&& after_t.trace_task_id == 1
            &&& after_t.dump_on_complete_task_id == before_t.dump_on_complete_task_id
        },
    }
}

/// Restarts the trace, spawns the root task `name` (its parent is whatever
/// runs on `cpu_id`) and arms the dump for its completion. `None` when every
/// task ID is in use.
fn install_trace_root(t: &mut BaselineTrace, rt: &mut Runtime, name: &str, now: u64, cpu_id: usize) -> (r: Option<u32>)
    requires
        old(rt).wf(),
        cpu_id < old(rt).running().len(),
    ensures
        installed(*old(t), *final(t), *old(rt), *final(rt), name@, r),
{
    reset(t);
    let ghost restarted = *t;
    let spawned = spawn_traced(t, rt, name.to_string(), SchedulerType::PrioritizedFIFO(TRACE_ROOT_PRIORITY), None, now, cpu_id);
    match spawned {
        Some(sp) => {
            let task_id = sp.runtime_task_id;
            arm_dump_on_complete(t, task_id);
            proof {
                assert(restarted.trace_task_id == 1);
                assert(t.traces@ == restarted.traces@);
            }
            Some(task_id)
        },
        None => None,
    }
}

/// Installs the baseline trace workload: a worker that returns at once.
pub fn install_baseline_trace_vm(t: &mut BaselineTrace, rt: &mut Runtime, now: u64, cpu_id: usize) -> (r: Option<u32>)
    requires
        old(rt).wf(),
        cpu_id < old(rt).running().len(),
    ensures
        installed(*old(t), *final(t), *old(rt), *final(rt), "[Awkernel] baseline trace worker"@, r),
{
    install_trace_root(t, rt, "[Awkernel] baseline trace worker", now, cpu_id)
}

/// Installs the hand-off trace workload: a worker that returns at once.
pub fn install_handoff_trace_vm(t: &mut BaselineTrace, rt: &mut Runtime, now: u64, cpu_id: usize) -> (r: Option<u32>)
    requires
        old(rt).wf(),
        cpu_id < old(rt).running().len(),
    ensures
        installed(*old(t), *final(t), *old(rt), *final(rt), "[Awkernel] handoff trace worker"@, r),
{
    install_trace_root(t, rt, "[Awkernel] handoff trace worker", now, cpu_id)
}

/// Installs the root task of the single-async workload.
pub fn install_single_async_trace_vm(t: &mut BaselineTrace, rt: &mut Runtime, now: u64, cpu_id: usize) -> (r: Option<u32>)
    requires
        old(rt).wf(),
        cpu_id < old(rt).running().len(),
    ensures
        installed(*old(t), *final(t), *old(rt), *final(rt), "[Awkernel] single_async trace root"@, r),
{
    install_trace_root(t, rt, "[Awkernel] single_async trace root", now, cpu_id)
}

/// Installs the root task of the nested-spawn workload.
pub fn install_nested_spawn_trace_vm(t: &mut BaselineTrace, rt: &mut Runtime, now: u64, cpu_id: usize) -> (r: Option<u32>)
    requires
        old(rt).wf(),
        cpu_id < old(rt).running().len(),
    ensures
        installed(*old(t), *final(t), *old(rt), *final(rt), "[Awkernel] nested_spawn trace root"@, r),
{
    install_trace_root(t, rt, "[Awkernel] nested_spawn trace root", now, cpu_id)
}

/// Installs the root task of the multi-async workload.
pub fn install_multi_async_trace_vm(t: &mut BaselineTrace, rt: &mut Runtime, now: u64, cpu_id: usize) -> (r: Option<u32>)
    requires
        old(rt).wf(),
        cpu_id < old(rt).running().len(),
    ensures
        installed(*old(t), *final(t), *old(rt), *final(rt), "[Awkernel] multi_async trace root"@, r),
{
    install_trace_root(t, rt, "[Awkernel] multi_async trace root", now, cpu_id)
}

/// Installs the root task of the sleep/wake-up workload.
pub fn install_sleep_wakeup_trace_vm(t: &mut BaselineTrace, rt: &mut Runtime, now: u64, cpu_id: usize) -> (r: Option<u32>)
    requires
        old(rt).wf(),
        cpu_id < old(rt).running().len(),
    ensures
        installed(*old(t), *final(t), *old(rt), *final(rt), "[Awkernel] sleep_wakeup trace root"@, r),
{
    install_trace_root(t, rt, "[Awkernel] sleep_wakeup trace root", now, cpu_id)
}

} // verus!
