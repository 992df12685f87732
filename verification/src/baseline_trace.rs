//! Baseline trace of scheduling events.
//!
//! Each CPU keeps a bounded buffer of scheduler trace records; a separate
//! bounded buffer keeps task lifecycle records, which are captured only while
//! workload artifacts are enabled. Every record carries an event ID drawn
//! from one counter, so records from all buffers can be merged in event
//! order. A buffer that is full drops further records and remembers that it
//! overflowed.
use vstd::prelude::*;
use crate::sorting::{sort_by_key, lemma_insert_at};
use crate::text::{dec, opt_text, bool_text, debug_opt, debug_list, join, dec_parts, opt_parts, bool_parts, push_dec, push_opt, push_bool, push_debug_opt, push_debug_list, push_dec_list, push_opt_list, push_bool_list};
use vstd::string::*;

verus! {

/// Capacity of each per-CPU scheduler trace buffer.
pub const TRACE_CAPACITY: usize = 4096;
/// Capacity of the task lifecycle trace buffer.
pub const LIFECYCLE_TRACE_CAPACITY: usize = 512;

#[derive(Debug, Clone, Copy, PartialEq, Eq, Structural)]
pub enum BaselineTraceEvent {
    Wakeup { task_id: u32 },
    RequestResched { cpu_id: usize },
    HandleResched { cpu_id: usize },
    Choose { task_id: u32 },
    Dispatch { task_id: u32 },
    Complete { task_id: u32 },
    JoinTargetReady { task_id: u32 },
    Stutter,
}

/// The scheduler state observed with an event.
#[derive(Debug, PartialEq, Eq)]
pub struct BaselineTraceSnapshot {
    pub cpu_id: usize,
    pub current: Option<u32>,
    pub runnable: Vec<u32>,
    pub need_resched: bool,
    pub dispatch_target: Option<u32>,
    pub worker_current: Vec<Option<u32>>,
    pub worker_need_resched: Vec<bool>,
    pub worker_dispatch_target: Vec<Option<u32>>,
}

/// Mathematical value of a snapshot.
pub struct SnapshotView {
    pub cpu_id: usize,
    pub current: Option<u32>,
    pub runnable: Seq<u32>,
    pub need_resched: bool,
    pub dispatch_target: Option<u32>,
    pub worker_current: Seq<Option<u32>>,
    pub worker_need_resched: Seq<bool>,
    pub worker_dispatch_target: Seq<Option<u32>>,
}

impl View for BaselineTraceSnapshot {
    type V = SnapshotView;

    open spec fn view(&self) -> SnapshotView {
        SnapshotView {
            cpu_id: self.cpu_id,
            current: self.current,
            runnable: self.runnable@,
            need_resched: self.need_resched,
            dispatch_target: self.dispatch_target,
            worker_current: self.worker_current@,
            worker_need_resched: self.worker_need_resched@,
            worker_dispatch_target: self.worker_dispatch_target@,
        }
    }
}

/// A copy of `v`.
pub fn copy_vec<T: Copy>(v: &Vec<T>) -> (c: Vec<T>)
    ensures
        c@ == v@,
{
    let mut c: Vec<T> = Vec::new();
    let mut i: usize = 0;
    while i < v.len()
        invariant
            i <= v@.len(),
            c@ == v@.subrange(0, i as int),
        decreases v@.len() - i,
    {
        c.push(v[i]);
        i += 1;
        assert(c@ =~= v@.subrange(0, i as int));
    }
    assert(v@.subrange(0, v@.len() as int) =~= v@);
    c
}

impl BaselineTraceSnapshot {
    /// A copy of the snapshot.
    pub fn duplicate(&self) -> (c: BaselineTraceSnapshot)
        ensures
            c@ == self@,
    {
        BaselineTraceSnapshot {
            cpu_id: self.cpu_id,
            current: self.current,
            runnable: copy_vec(&self.runnable),
            need_resched: self.need_resched,
            dispatch_target: self.dispatch_target,
            worker_current: copy_vec(&self.worker_current),
            worker_need_resched: copy_vec(&self.worker_need_resched),
            worker_dispatch_target: copy_vec(&self.worker_dispatch_target),
        }
    }
}

/// One scheduler trace record.
#[derive(Debug, PartialEq, Eq)]
pub struct BaselineTraceRecord {
    pub event_id: u64,
    pub tsc: u64,
    pub event: BaselineTraceEvent,
    pub snapshot: BaselineTraceSnapshot,
}

/// Mathematical value of a scheduler trace record.
pub struct RecordView {
    pub event_id: u64,
    pub tsc: u64,
    pub event: BaselineTraceEvent,
    pub snapshot: SnapshotView,
}

impl View for BaselineTraceRecord {
    type V = RecordView;

    open spec fn view(&self) -> RecordView {
        RecordView { event_id: self.event_id, tsc: self.tsc, event: self.event, snapshot: self.snapshot@ }
    }
}

impl BaselineTraceRecord {
    /// A copy of the record.
    pub fn duplicate(&self) -> (c: BaselineTraceRecord)
        ensures
            c@ == self@,
    {
        BaselineTraceRecord {
            event_id: self.event_id,
            tsc: self.tsc,
            event: self.event,
            snapshot: self.snapshot.duplicate(),
        }
    }
}

#[derive(Debug, Clone, Copy, PartialEq, Eq, Structural)]
pub enum TaskTraceEvent {
    Spawn { parent_task_id: Option<u32>, child_task_id: u32 },
    Runnable { task_id: u32 },
    Choose { task_id: u32 },
    Dispatch { task_id: u32 },
    Sleep { task_id: u32 },
    JoinWait { waiter_task_id: u32, child_task_id: u32 },
    JoinTargetReady { task_id: u32 },
    Complete { task_id: u32 },
}

/// One task lifecycle record.
#[derive(Debug, Clone, Copy, PartialEq, Eq, Structural)]
pub struct TaskTraceRecord {
    pub event_id: u64,
    pub event: TaskTraceEvent,
}

/// The scheduler and task records of one dispatch, captured together and
/// emitted later.
#[derive(Debug, PartialEq, Eq)]
pub struct SchedAndTaskDispatchTraceRecord {
    pub sched_choose: BaselineTraceRecord,
    pub sched_dispatch: BaselineTraceRecord,
    pub task_choose: Option<TaskTraceRecord>,
    pub task_dispatch: Option<TaskTraceRecord>,
}

/// A bounded buffer of scheduler trace records.
pub struct TraceBuffer {
    pub records: Vec<BaselineTraceRecord>,
    pub overflowed: bool,
}

/// Views of a sequence of records.
pub open spec fn record_views(s: Seq<BaselineTraceRecord>) -> Seq<RecordView> {
    Seq::new(s.len(), |i: int| s[i]@)
}

impl TraceBuffer {
    pub open spec fn view(&self) -> Seq<RecordView> {
        record_views(self.records@)
    }

    pub fn new() -> (b: TraceBuffer)
        ensures
            b@ == Seq::<RecordView>::empty(),
            !b.overflowed,
    {
        TraceBuffer { records: Vec::new(), overflowed: false }
    }

    /// Empties the buffer and clears the overflow mark.
    pub fn reset(&mut self)
        ensures
            final(self)@ == Seq::<RecordView>::empty(),
            !final(self).overflowed,
    {
        self.records.clear();
        self.overflowed = false;
        assert(self@ =~= Seq::<RecordView>::empty());
    }

    /// Appends `record`, or marks the buffer overflowed when it is full.
    pub fn push(&mut self, record: BaselineTraceRecord)
        ensures
            old(self)@.len() >= TRACE_CAPACITY ==> final(self)@ == old(self)@ && final(self).overflowed,
            old(self)@.len() < TRACE_CAPACITY ==> final(self)@ == old(self)@.push(record@)
                && final(self).overflowed == old(self).overflowed,
    {
        if self.records.len() >= TRACE_CAPACITY {
            self.overflowed = true;
            return;
        }
        let ghost rv = record@;
        self.records.push(record);
        assert(self@ =~= old(self)@.push(rv));
    }
}

/// A bounded buffer of task lifecycle records.
pub struct TaskTraceBuffer {
    pub records: Vec<TaskTraceRecord>,
    pub overflowed: bool,
}

impl TaskTraceBuffer {
    pub open spec fn view(&self) -> Seq<TaskTraceRecord> {
        self.records@
    }

    pub fn new() -> (b: TaskTraceBuffer)
        ensures
            b@ == Seq::<TaskTraceRecord>::empty(),
            !b.overflowed,
    {
        TaskTraceBuffer { records: Vec::new(), overflowed: false }
    }

    /// Empties the buffer and clears the overflow mark.
    pub fn reset(&mut self)
        ensures
            final(self)@ == Seq::<TaskTraceRecord>::empty(),
            !final(self).overflowed,
    {
        self.records.clear();
        self.overflowed = false;
    }

    /// Appends `record`, or marks the buffer overflowed when it is full.
    pub fn push(&mut self, record: TaskTraceRecord)
        ensures
            old(self)@.len() >= LIFECYCLE_TRACE_CAPACITY ==> final(self)@ == old(self)@ && final(self).overflowed,
            old(self)@.len() < LIFECYCLE_TRACE_CAPACITY ==> final(self)@ == old(self)@.push(record)
                && final(self).overflowed == old(self).overflowed,
    {
        if self.records.len() >= LIFECYCLE_TRACE_CAPACITY {
            self.overflowed = true;
            return;
        }
        self.records.push(record);
    }
}

/// The whole trace state: per-CPU scheduler buffers, the task lifecycle
/// buffer, the event and trace task ID counters, whether workload artifacts
/// are enabled, and the task whose completion triggers a dump (0 for none).
pub struct BaselineTrace {
    pub traces: Vec<TraceBuffer>,
    pub task_trace: TaskTraceBuffer,
    pub trace_event_id: u64,
    pub trace_task_id: u32,
    pub workload_artifact_enabled: bool,
    pub dump_on_complete_task_id: u32,
}

impl BaselineTrace {
    /// Scheduler records of each CPU.
    pub open spec fn cpu_records(&self) -> Seq<Seq<RecordView>> {
        Seq::new(self.traces@.len(), |i: int| self.traces@[i]@)
    }

    /// A trace for `num_cpu` CPUs, in the state `reset` leaves.
    pub fn new(num_cpu: usize) -> (t: BaselineTrace)
        ensures
            t.traces@.len() == num_cpu,
            forall|i: int| 0 <= i < num_cpu ==> (#[trigger] t.traces@[i])@.len() == 0 && !t.traces@[i].overflowed,
            t.task_trace@.len() == 0,
            !t.task_trace.overflowed,
            t.trace_event_id == 0,
            t.trace_task_id == 1,
            !t.workload_artifact_enabled,
            t.dump_on_complete_task_id == 0,
    {
        let mut traces: Vec<TraceBuffer> = Vec::new();
        let mut i: usize = 0;
        while i < num_cpu
            invariant
                i <= num_cpu,
                traces@.len() == i,
                forall|k: int| 0 <= k < i ==> (#[trigger] traces@[k])@.len() == 0 && !traces@[k].overflowed,
            decreases num_cpu - i,
        {
            traces.push(TraceBuffer::new());
            i += 1;
        }
        BaselineTrace {
            traces,
            task_trace: TaskTraceBuffer::new(),
            trace_event_id: 0,
            trace_task_id: 1,
            workload_artifact_enabled: false,
            dump_on_complete_task_id: 0,
        }
    }
}

/// Restarts the trace: counters back to their first values, workload
/// artifacts disabled, every buffer empty and not overflowed.
pub fn reset(t: &mut BaselineTrace)
    ensures
        final(t).traces@.len() == old(t).traces@.len(),
        forall|i: int| 0 <= i < final(t).traces@.len() ==> (#[trigger] final(t).traces@[i])@.len() == 0 && !final(t).traces@[i].overflowed,
        final(t).task_trace@.len() == 0,
        !final(t).task_trace.overflowed,
        final(t).trace_event_id == 0,
        final(t).trace_task_id == 1,
        !final(t).workload_artifact_enabled,
        final(t).dump_on_complete_task_id == old(t).dump_on_complete_task_id,
{
    let n = t.traces.len();
    let mut i: usize = 0;
    while i < n
        invariant
            i <= n,
            t.traces@.len() == n,
            t.dump_on_complete_task_id == old(t).dump_on_complete_task_id,
            forall|k: int| 0 <= k < i ==> (#[trigger] t.traces@[k])@.len() == 0 && !t.traces@[k].overflowed,
        decreases n - i,
    {
        t.traces[i].reset();
        i += 1;
    }
    t.trace_event_id = 0;
    t.trace_task_id = 1;
    t.workload_artifact_enabled = false;
    t.task_trace.reset();
}

pub fn set_workload_artifact_enabled(t: &mut BaselineTrace, enabled: bool)
    ensures
        *final(t) == (BaselineTrace { workload_artifact_enabled: enabled, ..*old(t) }),
{
    t.workload_artifact_enabled = enabled;
}

pub fn enable_workload_trace_artifacts(t: &mut BaselineTrace)
    ensures
        *final(t) == (BaselineTrace { workload_artifact_enabled: true, ..*old(t) }),
{
    set_workload_artifact_enabled(t, true);
}

pub fn workload_artifact_enabled(t: &BaselineTrace) -> (b: bool)
    ensures
        b == t.workload_artifact_enabled,
{
    t.workload_artifact_enabled
}

/// Hands out the next trace task ID (the counter wraps around).
pub fn next_trace_task_id(t: &mut BaselineTrace) -> (id: u32)
    ensures
        id == old(t).trace_task_id,
        *final(t) == (BaselineTrace { trace_task_id: old(t).trace_task_id.wrapping_add(1), ..*old(t) }),
{
    let id = t.trace_task_id;
    t.trace_task_id = t.trace_task_id.wrapping_add(1);
    id
}

/// Hands out the next event ID (the counter wraps around).
pub fn next_event_id(t: &mut BaselineTrace) -> (id: u64)
    ensures
        id == old(t).trace_event_id,
        *final(t) == (BaselineTrace { trace_event_id: old(t).trace_event_id.wrapping_add(1), ..*old(t) }),
{
    let id = t.trace_event_id;
    t.trace_event_id = t.trace_event_id.wrapping_add(1);
    id
}

/// Reserves `width` consecutive event IDs and returns the first.
pub fn next_event_id_block(t: &mut BaselineTrace, width: u64) -> (id: u64)
    ensures
        id == old(t).trace_event_id,
        *final(t) == (BaselineTrace { trace_event_id: old(t).trace_event_id.wrapping_add(width), ..*old(t) }),
{
    let id = t.trace_event_id;
    t.trace_event_id = t.trace_event_id.wrapping_add(width);
    id
}

/// A record of `event` with a new event ID, taken at cycle count `tsc`.
pub fn capture_record(t: &mut BaselineTrace, event: BaselineTraceEvent, snapshot: BaselineTraceSnapshot, tsc: u64) -> (r: BaselineTraceRecord)
    ensures
        r@ == (RecordView { event_id: old(t).trace_event_id, tsc, event, snapshot: snapshot@ }),
        *final(t) == (BaselineTrace { trace_event_id: old(t).trace_event_id.wrapping_add(1), ..*old(t) }),
{
    let event_id = next_event_id(t);
    BaselineTraceRecord { event_id, tsc, event, snapshot }
}

/// A record of `event` with the given event ID, taken at cycle count `tsc`.
pub fn capture_record_with_event_id(event_id: u64, event: BaselineTraceEvent, snapshot: BaselineTraceSnapshot, tsc: u64) -> (r: BaselineTraceRecord)
    ensures
        r@ == (RecordView { event_id, tsc, event, snapshot: snapshot@ }),
{
    BaselineTraceRecord { event_id, tsc, event, snapshot }
}

/// `after` is `before` with record `rv` added to the buffer of its
/// snapshot's CPU (dropped, with the buffer marked overflowed, when full);
/// nothing else changes.
pub open spec fn emitted(before: BaselineTrace, after: BaselineTrace, rv: RecordView) -> bool {
    let c = rv.snapshot.cpu_id as int;
    let b = before.traces@[c];
    &&& after.traces@.len() == before.traces@.len()
    &&& forall|i: int| 0 <= i < before.traces@.len() && i != c ==> after.traces@[i] == before.traces@[i]
    &&& b@.len() >= TRACE_CAPACITY ==> after.traces@[c]@ == b@ && after.traces@[c].overflowed
    &&& b@.len() < TRACE_CAPACITY ==> after.traces@[c]@ == b@.push(rv) && after.traces@[c].overflowed == b.overflowed
    &&& after.task_trace == before.task_trace
    &&& after.trace_event_id == before.trace_event_id
    &&& after.trace_task_id == before.trace_task_id
    &&& after.workload_artifact_enabled == before.workload_artifact_enabled
    &&& after.dump_on_complete_task_id == before.dump_on_complete_task_id
}

/// Adds `record` to the buffer of the CPU of its snapshot.
pub fn emit_record(t: &mut BaselineTrace, record: BaselineTraceRecord)
    requires
        record.snapshot.cpu_id < old(t).traces@.len(),
    ensures
        emitted(*old(t), *final(t), record@),
{
    let cpu_id = record.snapshot.cpu_id;
    t.traces[cpu_id].push(record);
}

/// `after` is `before` with one scheduler record of `event`, snapshot `snap`
/// and time `tsc` taken on the snapshot's CPU: appended to that CPU's buffer,
/// or dropped with the buffer marked overflowed when it is full; the next
/// event ID is one further and nothing else changes.
pub open spec fn recorded(before: BaselineTrace, after: BaselineTrace, event: BaselineTraceEvent, snap: SnapshotView, tsc: u64) -> bool {
    let c = snap.cpu_id as int;
    let b = before.traces@[c];
    let rv = RecordView { event_id: before.trace_event_id, tsc, event, snapshot: snap };
    &&& after.traces@.len() == before.traces@.len()
    &&& forall|i: int| 0 <= i < before.traces@.len() && i != c ==> after.traces@[i] == before.traces@[i]
    &&& b@.len() >= TRACE_CAPACITY ==> after.traces@[c]@ == b@ && after.traces@[c].overflowed
    &&& b@.len() < TRACE_CAPACITY ==> after.traces@[c]@ == b@.push(rv) && after.traces@[c].overflowed == b.overflowed
    &&& after.task_trace == before.task_trace
    &&& after.trace_event_id == before.trace_event_id.wrapping_add(1)
    &&& after.trace_task_id == before.trace_task_id
    &&& after.workload_artifact_enabled == before.workload_artifact_enabled
    &&& after.dump_on_complete_task_id == before.dump_on_complete_task_id
}

/// Records `event` with a new event ID in the buffer of the snapshot's CPU.
pub fn record(t: &mut BaselineTrace, event: BaselineTraceEvent, snapshot: BaselineTraceSnapshot, tsc: u64)
    requires
        snapshot.cpu_id < old(t).traces@.len(),
    ensures
        recorded(*old(t), *final(t), event, snapshot@, tsc),
{
    let r = capture_record(t, event, snapshot, tsc);
    emit_record(t, r);
}

/// A task record with the given event ID, when workload artifacts are enabled.
pub fn capture_task_record_with_event_id(t: &BaselineTrace, event_id: u64, event: TaskTraceEvent) -> (r: Option<TaskTraceRecord>)
    ensures
        r == (if t.workload_artifact_enabled { Some(TaskTraceRecord { event_id, event }) } else { None }),
{
    if workload_artifact_enabled(t) {
        Some(TaskTraceRecord { event_id, event })
    } else {
        None
    }
}

/// A task record with a new event ID, when workload artifacts are enabled
/// (no ID is consumed otherwise).
pub fn capture_task_record(t: &mut BaselineTrace, event: TaskTraceEvent) -> (r: Option<TaskTraceRecord>)
    ensures
        old(t).workload_artifact_enabled ==> r == Some(TaskTraceRecord { event_id: old(t).trace_event_id, event })
            && *final(t) == (BaselineTrace { trace_event_id: old(t).trace_event_id.wrapping_add(1), ..*old(t) }),
        !old(t).workload_artifact_enabled ==> r is None && *final(t) == *old(t),
{
    if workload_artifact_enabled(t) {
        let event_id = next_event_id(t);
        Some(TaskTraceRecord { event_id, event })
    } else {
        None
    }
}

/// Captures the Choose and Dispatch records of dispatching `task_id` with two
/// consecutive reserved event IDs, for both the scheduler trace and (when
/// enabled) the task trace; nothing is emitted yet.
pub fn capture_sched_and_task_dispatch(
    t: &mut BaselineTrace,
    task_id: u32,
    choose_snapshot: BaselineTraceSnapshot,
    dispatch_snapshot: BaselineTraceSnapshot,
    tsc: u64,
) -> (r: SchedAndTaskDispatchTraceRecord)
    ensures
        ({
            let choose_id = old(t).trace_event_id;
            let dispatch_id = choose_id.wrapping_add(1);
            &&& r.sched_choose@ == (RecordView { event_id: choose_id, tsc, event: BaselineTraceEvent::Choose { task_id }, snapshot: choose_snapshot@ })
            &&& r.sched_dispatch@ == (RecordView { event_id: dispatch_id, tsc, event: BaselineTraceEvent::Dispatch { task_id }, snapshot: dispatch_snapshot@ })
            &&& r.task_choose == (if old(t).workload_artifact_enabled { Some(TaskTraceRecord { event_id: choose_id, event: TaskTraceEvent::Choose { task_id } }) } else { None })
            &&& r.task_dispatch == (if old(t).workload_artifact_enabled { Some(TaskTraceRecord { event_id: dispatch_id, event: TaskTraceEvent::Dispatch { task_id } }) } else { None })
        }),
        *final(t) == (BaselineTrace { trace_event_id: old(t).trace_event_id.wrapping_add(2), ..*old(t) }),
{
    let choose_event_id = next_event_id_block(t, 2);
    let dispatch_event_id = choose_event_id.wrapping_add(1);
    let sched_choose = capture_record_with_event_id(choose_event_id, BaselineTraceEvent::Choose { task_id }, choose_snapshot, tsc);
    let sched_dispatch = capture_record_with_event_id(dispatch_event_id, BaselineTraceEvent::Dispatch { task_id }, dispatch_snapshot, tsc);
    let task_choose = capture_task_record_with_event_id(t, choose_event_id, TaskTraceEvent::Choose { task_id });
    let task_dispatch = capture_task_record_with_event_id(t, dispatch_event_id, TaskTraceEvent::Dispatch { task_id });
    SchedAndTaskDispatchTraceRecord { sched_choose, sched_dispatch, task_choose, task_dispatch }
}

/// `after` is `before` with lifecycle record `record`, if any, added (dropped,
/// with the buffer marked overflowed, when full); nothing else changes.
pub open spec fn task_emitted(before: BaselineTrace, after: BaselineTrace, record: Option<TaskTraceRecord>) -> bool {
    &&& after.traces == before.traces
    &&& after.trace_event_id == before.trace_event_id
    &&& after.trace_task_id == before.trace_task_id
    &&& after.workload_artifact_enabled == before.workload_artifact_enabled
    &&& after.dump_on_complete_task_id == before.dump_on_complete_task_id
    &&& match record {
        None => after.task_trace == before.task_trace,
        Some(rec) => {
            &&& before.task_trace@.len() >= LIFECYCLE_TRACE_CAPACITY ==> after.task_trace@ == before.task_trace@ && after.task_trace.overflowed
            &&& before.task_trace@.len() < LIFECYCLE_TRACE_CAPACITY ==> after.task_trace@ == before.task_trace@.push(rec)
                && after.task_trace.overflowed == before.task_trace.overflowed
        },
    }
}

/// Adds `record`, if any, to the task lifecycle buffer.
pub fn emit_task_record(t: &mut BaselineTrace, record: Option<TaskTraceRecord>)
    ensures
        task_emitted(*old(t), *final(t), record),
{
    if let Some(record) = record {
        t.task_trace.push(record);
    }
}

/// Emits the records captured by `capture_sched_and_task_dispatch`.
pub fn emit_sched_and_task_dispatch(t: &mut BaselineTrace, record: SchedAndTaskDispatchTraceRecord)
    requires
        record.sched_choose.snapshot.cpu_id < old(t).traces@.len(),
        record.sched_dispatch.snapshot.cpu_id < old(t).traces@.len(),
    ensures
        exists|m1: BaselineTrace, m2: BaselineTrace, m3: BaselineTrace| {
            &&& emitted(*old(t), m1, record.sched_choose@)
            &&& emitted(m1, m2, record.sched_dispatch@)
            &&& task_emitted(m2, m3, record.task_choose)
            &&& task_emitted(m3, *final(t), record.task_dispatch)
        },
{
    let ghost t0 = *t;
    let ghost (c, d, tc, td) = (record.sched_choose@, record.sched_dispatch@, record.task_choose, record.task_dispatch);
    emit_record(t, record.sched_choose);
    let ghost m1 = *t;
    emit_record(t, record.sched_dispatch);
    let ghost m2 = *t;
    emit_task_record(t, record.task_choose);
    let ghost m3 = *t;
    emit_task_record(t, record.task_dispatch);
    assert(emitted(t0, m1, c) && emitted(m1, m2, d) && task_emitted(m2, m3, tc) && task_emitted(m3, *t, td));
}

/// `after` is `before` with a lifecycle record of `event` when workload
/// artifacts are enabled (appended, or dropped with the buffer marked
/// overflowed when it is full, and the next event ID one further); with
/// artifacts disabled nothing changes.
pub open spec fn task_recorded(before: BaselineTrace, after: BaselineTrace, event: TaskTraceEvent) -> bool {
    &&& after.traces == before.traces
    &&& after.trace_task_id == before.trace_task_id
    &&& after.workload_artifact_enabled == before.workload_artifact_enabled
    &&& after.dump_on_complete_task_id == before.dump_on_complete_task_id
    &&& !before.workload_artifact_enabled ==> after == before
    &&& before.workload_artifact_enabled ==> {
        let rec = TaskTraceRecord { event_id: before.trace_event_id, event };
        &&& after.trace_event_id == before.trace_event_id.wrapping_add(1)
        &&& before.task_trace@.len() >= LIFECYCLE_TRACE_CAPACITY ==> after.task_trace@ == before.task_trace@ && after.task_trace.overflowed
        &&& before.task_trace@.len() < LIFECYCLE_TRACE_CAPACITY ==> after.task_trace@ == before.task_trace@.push(rec)
    }
}

/// Records a task lifecycle event, when workload artifacts are enabled.
pub fn record_task_trace(t: &mut BaselineTrace, event: TaskTraceEvent)
    ensures
        task_recorded(*old(t), *final(t), event),
{
    let r = capture_task_record(t, event);
    emit_task_record(t, r);
}

/// Arms a dump of the trace when the task `task_id` completes.
pub fn arm_dump_on_complete(t: &mut BaselineTrace, task_id: u32)
    ensures
        *final(t) == (BaselineTrace { dump_on_complete_task_id: task_id, ..*old(t) }),
{
    t.dump_on_complete_task_id = task_id;
}

/// True, and disarmed, when the dump is armed for `task_id`.
pub fn take_dump_on_complete(t: &mut BaselineTrace, task_id: u32) -> (b: bool)
    ensures
        b == (old(t).dump_on_complete_task_id == task_id),
        b ==> *final(t) == (BaselineTrace { dump_on_complete_task_id: 0, ..*old(t) }),
        !b ==> *final(t) == *old(t),
{
    if t.dump_on_complete_task_id == task_id {
        t.dump_on_complete_task_id = 0;
        true
    } else {
        false
    }
}


/// Event ID of a scheduler record.
pub open spec fn record_key() -> spec_fn(RecordView) -> u64 {
    |r: RecordView| r.event_id
}

/// Event ID of a task record.
pub open spec fn task_record_key() -> spec_fn(TaskTraceRecord) -> u64 {
    |r: TaskTraceRecord| r.event_id
}

/// Orders scheduler records by event ID (stable: records with equal IDs keep
/// their order).
pub fn merge_records(records: Vec<BaselineTraceRecord>) -> (r: Vec<BaselineTraceRecord>)
    ensures
        record_views(r@) == sort_by_key(record_views(records@), record_key()),
{
    let ghost orig = records@;
    let mut input = records;
    let mut out: Vec<BaselineTraceRecord> = Vec::new();
    let n = input.len();
    let mut i: usize = 0;
    while i < n
        invariant
            n == orig.len(),
            i <= n,
            input@ == orig.skip(i as int),
            record_views(out@) == sort_by_key(record_views(orig).take(i as int), record_key()),
        decreases n - i,
    {
        let x = input.remove(0);
        proof {
            assert(x == orig[i as int]);
            assert(input@ =~= orig.skip(i + 1));
            let v = record_views(orig).take(i + 1);
            assert(v.drop_last() =~= record_views(orig).take(i as int));
            assert(v.last() == x@);
        }
        let mut j = out.len();
        while j > 0 && out[j - 1].event_id > x.event_id
            invariant
                j <= out@.len(),
                forall|k: int| j <= k < out@.len() ==> out@[k].event_id > x.event_id,
            decreases j,
        {
            j -= 1;
        }
        let ghost before = record_views(out@);
        proof {
            assert forall|k: int| j <= k < before.len() implies (record_key())(#[trigger] before[k]) > (record_key())(x@) by {}
            lemma_insert_at(before, x@, record_key(), j as int);
        }
        let ghost xv = x@;
        out.insert(j, x);
        proof {
            assert(record_views(out@) =~= before.insert(j as int, xv));
        }
        i += 1;
    }
    proof {
        assert(record_views(orig).take(n as int) =~= record_views(orig));
    }
    out
}

/// Orders task records by event ID (stable).
pub fn merge_task_trace_records(records: Vec<TaskTraceRecord>) -> (r: Vec<TaskTraceRecord>)
    ensures
        r@ == sort_by_key(records@, task_record_key()),
{
    let ghost orig = records@;
    let mut out: Vec<TaskTraceRecord> = Vec::new();
    let n = records.len();
    let mut i: usize = 0;
    while i < n
        invariant
            n == orig.len(),
            records@ == orig,
            i <= n,
            out@ == sort_by_key(orig.take(i as int), task_record_key()),
        decreases n - i,
    {
        let x = records[i];
        proof {
            let v = orig.take(i + 1);
            assert(v.drop_last() =~= orig.take(i as int));
        }
        let mut j = out.len();
        while j > 0 && out[j - 1].event_id > x.event_id
            invariant
                j <= out@.len(),
                forall|k: int| j <= k < out@.len() ==> out@[k].event_id > x.event_id,
            decreases j,
        {
            j -= 1;
        }
        proof {
            lemma_insert_at(out@, x, task_record_key(), j as int);
        }
        out.insert(j, x);
        i += 1;
    }
    proof {
        assert(orig.take(n as int) =~= orig);
    }
    out
}

/// Records of all CPU buffers, concatenated in CPU order.
pub open spec fn flat_records(bufs: Seq<Seq<RecordView>>) -> Seq<RecordView>
    decreases bufs.len(),
{
    if bufs.len() == 0 {
        Seq::empty()
    } else {
        flat_records(bufs.drop_last()) + bufs.last()
    }
}

/// All scheduler records, ordered by event ID.
pub fn records(t: &BaselineTrace) -> (r: Vec<BaselineTraceRecord>)
    ensures
        record_views(r@) == sort_by_key(flat_records(t.cpu_records()), record_key()),
{
    let mut merged: Vec<BaselineTraceRecord> = Vec::new();
    let n = t.traces.len();
    let mut c: usize = 0;
    while c < n
        invariant
            n == t.traces@.len(),
            c <= n,
            record_views(merged@) == flat_records(t.cpu_records().take(c as int)),
        decreases n - c,
    {
        let buf = &t.traces[c];
        let m = buf.records.len();
        let ghost base = record_views(merged@);
        let mut k: usize = 0;
        while k < m
            invariant
                m == buf.records@.len(),
                k <= m,
                record_views(merged@) == base + record_views(buf.records@).take(k as int),
            decreases m - k,
        {
            let copy = buf.records[k].duplicate();
            let ghost before = record_views(merged@);
            merged.push(copy);
            proof {
                assert(record_views(merged@) =~= before.push(buf.records@[k as int]@));
                assert(record_views(buf.records@).take(k + 1) =~= record_views(buf.records@).take(k as int).push(buf.records@[k as int]@));
            }
            k += 1;
        }
        proof {
            assert(record_views(buf.records@).take(m as int) =~= buf@);
            let cr = t.cpu_records();
            assert(cr.take(c + 1).drop_last() =~= cr.take(c as int));
            assert(cr.take(c + 1).last() == buf@);
        }
        c += 1;
    }
    proof {
        assert(t.cpu_records().take(n as int) =~= t.cpu_records());
    }
    merge_records(merged)
}

/// Whether any buffer dropped a record.
pub fn overflowed(t: &BaselineTrace) -> (b: bool)
    ensures
        b == (t.task_trace.overflowed || exists|i: int| 0 <= i < t.traces@.len() && t.traces@[i].overflowed),
{
    let n = t.traces.len();
    let mut c: usize = 0;
    let mut row_overflow = false;
    while c < n
        invariant
            n == t.traces@.len(),
            c <= n,
            row_overflow == exists|i: int| 0 <= i < c && t.traces@[i].overflowed,
        decreases n - c,
    {
        if t.traces[c].overflowed {
            row_overflow = true;
        }
        proof {
            if exists|i: int| 0 <= i < c + 1 && t.traces@[i].overflowed {
                let i = choose|i: int| 0 <= i < c + 1 && t.traces@[i].overflowed;
                if i < c {
                    assert(exists|i: int| 0 <= i < c && t.traces@[i].overflowed);
                }
            }
        }
        c += 1;
    }
    row_overflow || t.task_trace.overflowed
}

/// All task records, ordered by event ID.
pub fn task_trace_records(t: &BaselineTrace) -> (r: Vec<TaskTraceRecord>)
    ensures
        r@ == sort_by_key(t.task_trace@, task_record_key()),
{
    merge_task_trace_records(copy_vec(&t.task_trace.records))
}


/// Scheduler records of all CPUs, ordered by event ID.
pub open spec fn sorted_records(t: BaselineTrace) -> Seq<RecordView> {
    sort_by_key(flat_records(t.cpu_records()), record_key())
}

/// Task records, ordered by event ID.
pub open spec fn sorted_task_records(t: BaselineTrace) -> Seq<TaskTraceRecord> {
    sort_by_key(t.task_trace@, task_record_key())
}

/// The text of each string.
pub open spec fn string_views(v: Seq<String>) -> Seq<Seq<char>> {
    Seq::new(v.len(), |i: int| v[i]@)
}

/// Tag and the two arguments of an event in a trace row.
pub open spec fn row_event(e: BaselineTraceEvent) -> (Seq<char>, Option<u32>, Option<u32>) {
    match e {
        BaselineTraceEvent::Wakeup { task_id } => ("Wakeup"@, Some(task_id), None),
        BaselineTraceEvent::RequestResched { cpu_id } => ("RequestResched"@, Some(cpu_id as u32), None),
        BaselineTraceEvent::HandleResched { cpu_id } => ("HandleResched"@, Some(cpu_id as u32), None),
        BaselineTraceEvent::Choose { task_id } => ("Choose"@, Some(1u32), Some(task_id)),
        BaselineTraceEvent::Dispatch { task_id } => ("Dispatch"@, Some(1u32), Some(task_id)),
        BaselineTraceEvent::Complete { task_id } => ("Complete"@, Some(task_id), None),
        BaselineTraceEvent::JoinTargetReady { task_id } => ("JoinTargetReady"@, Some(task_id), None),
        BaselineTraceEvent::Stutter => ("Stutter"@, None, None),
    }
}

/// Tag and arguments of an event in a trace row.
pub fn render_trace_rows_event(event: BaselineTraceEvent) -> (r: (&'static str, Option<u32>, Option<u32>))
    ensures
        r.0@ == row_event(event).0,
        r.1 == row_event(event).1,
        r.2 == row_event(event).2,
{
    match event {
        BaselineTraceEvent::Wakeup { task_id } => ("Wakeup", Some(task_id), None),
        BaselineTraceEvent::RequestResched { cpu_id } => ("RequestResched", Some(cpu_id as u32), None),
        BaselineTraceEvent::HandleResched { cpu_id } => ("HandleResched", Some(cpu_id as u32), None),
        BaselineTraceEvent::Choose { task_id } => ("Choose", Some(1), Some(task_id)),
        BaselineTraceEvent::Dispatch { task_id } => ("Dispatch", Some(1), Some(task_id)),
        BaselineTraceEvent::Complete { task_id } => ("Complete", Some(task_id), None),
        BaselineTraceEvent::JoinTargetReady { task_id } => ("JoinTargetReady", Some(task_id), None),
        BaselineTraceEvent::Stutter => ("Stutter", None, None),
    }
}

/// One tab-separated trace row: CPU, event tag, the two event arguments,
/// current task, runnable tasks, the reschedule flag, dispatch target, and
/// the per-worker current tasks, reschedule flags and dispatch targets.
pub open spec fn trace_row(r: RecordView) -> Seq<char> {
    let tab = seq!['\t'];
    let ev = row_event(r.event);
    dec(r.snapshot.cpu_id as nat) + tab + ev.0 + tab + opt_text(ev.1) + tab + opt_text(ev.2) + tab
        + opt_text(r.snapshot.current) + tab + join(dec_parts(r.snapshot.runnable), ","@) + tab
        + bool_text(r.snapshot.need_resched) + tab + opt_text(r.snapshot.dispatch_target) + tab
        + join(opt_parts(r.snapshot.worker_current), ","@) + tab
        + join(bool_parts(r.snapshot.worker_need_resched), ","@) + tab
        + join(opt_parts(r.snapshot.worker_dispatch_target), ","@)
}

/// The trace row of `record`.
pub fn render_trace_rows_record(record: &BaselineTraceRecord) -> (s: String)
    ensures
        s@ == trace_row(record@),
{
    let (tag, arg0, arg1) = render_trace_rows_event(record.event);
    let snap = &record.snapshot;
    let mut s = String::new();
    proof { reveal_strlit("\t"); }
    push_dec(&mut s, snap.cpu_id as u64);
    s.append("\t");
    s.append(tag);
    s.append("\t");
    push_opt(&mut s, arg0);
    s.append("\t");
    push_opt(&mut s, arg1);
    s.append("\t");
    push_opt(&mut s, snap.current);
    s.append("\t");
    push_dec_list(&mut s, &snap.runnable, ",");
    s.append("\t");
    push_bool(&mut s, snap.need_resched);
    s.append("\t");
    push_opt(&mut s, snap.dispatch_target);
    s.append("\t");
    push_opt_list(&mut s, &snap.worker_current);
    s.append("\t");
    push_bool_list(&mut s, &snap.worker_need_resched);
    s.append("\t");
    push_opt_list(&mut s, &snap.worker_dispatch_target);
    assert(s@ =~= trace_row(record@));
    s
}

/// Trace rows of all scheduler records, in event order.
pub fn render_trace_rows_artifact_lines(t: &BaselineTrace) -> (lines: Vec<String>)
    ensures
        string_views(lines@) == Seq::new(sorted_records(*t).len(), |i: int| trace_row(sorted_records(*t)[i])),
{
    let recs = records(t);
    let ghost sorted = sorted_records(*t);
    proof { assert(record_views(recs@) == sorted); }
    let mut lines: Vec<String> = Vec::new();
    let mut i: usize = 0;
    while i < recs.len()
        invariant
            i <= recs@.len(),
            record_views(recs@) == sorted,
            string_views(lines@) == Seq::new(i as nat, |k: int| trace_row(sorted[k])),
        decreases recs@.len() - i,
    {
        let line = render_trace_rows_record(&recs[i]);
        proof { assert(recs@[i as int]@ == sorted[i as int]); }
        let ghost prev = string_views(lines@);
        let ghost lv = line@;
        lines.push(line);
        proof {
            assert(string_views(lines@) =~= prev.push(lv));
        }
        i += 1;
        assert(string_views(lines@) =~= Seq::new(i as nat, |k: int| trace_row(sorted[k])));
    }
    lines
}

/// Name of an event in the line-oriented trace.
pub open spec fn event_name_text(e: BaselineTraceEvent) -> Seq<char> {
    match e {
        BaselineTraceEvent::Wakeup { .. } => "EvWakeup"@,
        BaselineTraceEvent::RequestResched { .. } => "EvRequestResched"@,
        BaselineTraceEvent::HandleResched { .. } => "EvHandleResched"@,
        BaselineTraceEvent::Choose { .. } => "EvChoose"@,
        BaselineTraceEvent::Dispatch { .. } => "EvDispatch"@,
        BaselineTraceEvent::Complete { .. } => "EvComplete"@,
        BaselineTraceEvent::JoinTargetReady { .. } => "EvJoinTargetReady"@,
        BaselineTraceEvent::Stutter => "EvStutter"@,
    }
}

/// Name of an event in the line-oriented trace.
pub fn event_name(event: BaselineTraceEvent) -> (s: &'static str)
    ensures
        s@ == event_name_text(event),
{
    match event {
        BaselineTraceEvent::Wakeup { .. } => "EvWakeup",
        BaselineTraceEvent::RequestResched { .. } => "EvRequestResched",
        BaselineTraceEvent::HandleResched { .. } => "EvHandleResched",
        BaselineTraceEvent::Choose { .. } => "EvChoose",
        BaselineTraceEvent::Dispatch { .. } => "EvDispatch",
        BaselineTraceEvent::Complete { .. } => "EvComplete",
        BaselineTraceEvent::JoinTargetReady { .. } => "EvJoinTargetReady",
        BaselineTraceEvent::Stutter => "EvStutter",
    }
}

/// One line of the line-oriented trace.
pub open spec fn trace_line(r: RecordView) -> Seq<char> {
    "cpu="@ + dec(r.snapshot.cpu_id as nat) + " event="@ + event_name_text(r.event) + " current="@
        + debug_opt(r.snapshot.current) + " runnable="@ + debug_list(r.snapshot.runnable)
        + " need_resched="@ + bool_text(r.snapshot.need_resched) + " dispatch_target="@
        + debug_opt(r.snapshot.dispatch_target)
}

/// The line of `record` in the line-oriented trace.
pub fn render_line(record: &BaselineTraceRecord) -> (s: String)
    ensures
        s@ == trace_line(record@),
{
    let snap = &record.snapshot;
    let mut s = String::new();
    s.append("cpu=");
    push_dec(&mut s, snap.cpu_id as u64);
    s.append(" event=");
    s.append(event_name(record.event));
    s.append(" current=");
    push_debug_opt(&mut s, snap.current);
    s.append(" runnable=");
    push_debug_list(&mut s, &snap.runnable);
    s.append(" need_resched=");
    push_bool(&mut s, snap.need_resched);
    s.append(" dispatch_target=");
    push_debug_opt(&mut s, snap.dispatch_target);
    assert(s@ =~= trace_line(record@));
    s
}

/// Lines of the line-oriented trace, one per scheduler record in event order.
pub fn render_lines(t: &BaselineTrace) -> (lines: Vec<String>)
    ensures
        string_views(lines@) == Seq::new(sorted_records(*t).len(), |i: int| trace_line(sorted_records(*t)[i])),
{
    let recs = records(t);
    let ghost sorted = sorted_records(*t);
    let mut lines: Vec<String> = Vec::new();
    let mut i: usize = 0;
    while i < recs.len()
        invariant
            i <= recs@.len(),
            record_views(recs@) == sorted,
            string_views(lines@) == Seq::new(i as nat, |k: int| trace_line(sorted[k])),
        decreases recs@.len() - i,
    {
        let line = render_line(&recs[i]);
        proof { assert(recs@[i as int]@ == sorted[i as int]); }
        let ghost prev = string_views(lines@);
        let ghost lv = line@;
        lines.push(line);
        proof {
            assert(string_views(lines@) =~= prev.push(lv));
        }
        i += 1;
        assert(string_views(lines@) =~= Seq::new(i as nat, |k: int| trace_line(sorted[k])));
    }
    lines
}

/// Kind, subject and related task of a task record.
pub open spec fn task_kind(e: TaskTraceEvent) -> (Seq<char>, u32, Option<u32>) {
    match e {
        TaskTraceEvent::Spawn { parent_task_id, child_task_id } => ("Spawn"@, child_task_id, parent_task_id),
        TaskTraceEvent::Runnable { task_id } => ("Runnable"@, task_id, None),
        TaskTraceEvent::Choose { task_id } => ("Choose"@, task_id, None),
        TaskTraceEvent::Dispatch { task_id } => ("Dispatch"@, task_id, None),
        TaskTraceEvent::Sleep { task_id } => ("Sleep"@, task_id, None),
        TaskTraceEvent::JoinWait { waiter_task_id, child_task_id } => ("JoinWait"@, waiter_task_id, Some(child_task_id)),
        TaskTraceEvent::JoinTargetReady { task_id } => ("JoinTargetReady"@, task_id, None),
        TaskTraceEvent::Complete { task_id } => ("Complete"@, task_id, None),
    }
}

/// Kind, subject and related task of a task record.
pub fn render_task_trace_kind(event: TaskTraceEvent) -> (r: (&'static str, u32, Option<u32>))
    ensures
        r.0@ == task_kind(event).0,
        r.1 == task_kind(event).1,
        r.2 == task_kind(event).2,
{
    match event {
        TaskTraceEvent::Spawn { parent_task_id, child_task_id } => ("Spawn", child_task_id, parent_task_id),
        TaskTraceEvent::Runnable { task_id } => ("Runnable", task_id, None),
        TaskTraceEvent::Choose { task_id } => ("Choose", task_id, None),
        TaskTraceEvent::Dispatch { task_id } => ("Dispatch", task_id, None),
        TaskTraceEvent::Sleep { task_id } => ("Sleep", task_id, None),
        TaskTraceEvent::JoinWait { waiter_task_id, child_task_id } => ("JoinWait", waiter_task_id, Some(child_task_id)),
        TaskTraceEvent::JoinTargetReady { task_id } => ("JoinTargetReady", task_id, None),
        TaskTraceEvent::Complete { task_id } => ("Complete", task_id, None),
    }
}

/// A tab-separated task row: kind, subject task, related task or `-`.
pub open spec fn task_row(r: TaskTraceRecord) -> Seq<char> {
    let k = task_kind(r.event);
    k.0 + seq!['\t'] + dec(k.1 as nat) + seq!['\t'] + opt_text(k.2)
}

/// The task row of `record`.
pub fn render_task_trace_record(record: TaskTraceRecord) -> (s: String)
    ensures
        s@ == task_row(record),
{
    let (kind, subject, related) = render_task_trace_kind(record.event);
    let mut s = String::new();
    proof { reveal_strlit("\t"); }
    s.append(kind);
    s.append("\t");
    push_dec(&mut s, subject as u64);
    s.append("\t");
    push_opt(&mut s, related);
    assert(s@ =~= task_row(record));
    s
}

/// Task rows of all task records, in event order.
pub fn render_task_trace_artifact_lines(t: &BaselineTrace) -> (lines: Vec<String>)
    ensures
        string_views(lines@) == Seq::new(sorted_task_records(*t).len(), |i: int| task_row(sorted_task_records(*t)[i])),
{
    let recs = task_trace_records(t);
    let ghost sorted = sorted_task_records(*t);
    let mut lines: Vec<String> = Vec::new();
    let mut i: usize = 0;
    while i < recs.len()
        invariant
            i <= recs@.len(),
            recs@ == sorted,
            string_views(lines@) == Seq::new(i as nat, |k: int| task_row(sorted[k])),
        decreases recs@.len() - i,
    {
        let line = render_task_trace_record(recs[i]);
        let ghost prev = string_views(lines@);
        let ghost lv = line@;
        lines.push(line);
        proof {
            assert(string_views(lines@) =~= prev.push(lv));
        }
        i += 1;
        assert(string_views(lines@) =~= Seq::new(i as nat, |k: int| task_row(sorted[k])));
    }
    lines
}


/// Whether any buffer of `t` dropped a record.
pub open spec fn any_overflowed(t: BaselineTrace) -> bool {
    t.task_trace.overflowed || exists|i: int| 0 <= i < t.traces@.len() && t.traces@[i].overflowed
}

/// `prefix` followed by each text of `lines`.
pub open spec fn prefixed(prefix: Seq<char>, lines: Seq<Seq<char>>) -> Seq<Seq<char>> {
    Seq::new(lines.len(), |i: int| prefix + lines[i])
}

/// The console dump of the trace: an overflow notice when a buffer dropped
/// records, the line-oriented trace with its prefix, the done marker, and,
/// while workload artifacts are enabled, the scheduler rows and the task rows,
/// each between its begin and end markers.
pub open spec fn dump_lines(t: BaselineTrace) -> Seq<Seq<char>> {
    let sched = sorted_records(t);
    let tasks = sorted_task_records(t);
    let lines = Seq::new(sched.len(), |i: int| trace_line(sched[i]));
    let rows = Seq::new(sched.len(), |i: int| trace_row(sched[i]));
    let task_rows = Seq::new(tasks.len(), |i: int| task_row(tasks[i]));
    (if any_overflowed(t) { seq!["BASELINE_TRACE_OVERFLOW"@] } else { Seq::empty() })
        + prefixed("BASELINE_TRACE: "@, lines) + seq!["BASELINE_TRACE_DONE"@]
        + (if t.workload_artifact_enabled {
            seq!["BEGIN_SCHED_TRACE"@] + rows + seq!["END_SCHED_TRACE"@, "BEGIN_TASK_TRACE"@]
                + task_rows + seq!["END_TASK_TRACE"@]
        } else {
            Seq::empty()
        })
}

/// Appends the strings of `src` to `out`.
fn push_all(out: &mut Vec<String>, src: Vec<String>)
    ensures
        string_views(final(out)@) == string_views(old(out)@) + string_views(src@),
{
    let ghost start = string_views(out@);
    let ghost all = string_views(src@);
    let mut src = src;
    let n = src.len();
    let mut i: usize = 0;
    while i < n
        invariant
            n == all.len(),
            i <= n,
            string_views(src@) == all.skip(i as int),
            src@.len() == n - i,
            string_views(out@) == start + all.take(i as int),
        decreases n - i,
    {
        let ghost before = string_views(out@);
        proof {
            assert(string_views(src@)[0] == src@[0]@);
        }
        let ghost old_src = src@;
        let line = src.remove(0);
        proof {
            assert(line@ == all[i as int]);
            assert forall|k: int| 0 <= k < src@.len() implies string_views(src@)[k] == all.skip(i + 1)[k] by {
                assert(src@[k] == old_src[k + 1]);
                assert(string_views(old_src)[k + 1] == old_src[k + 1]@);
            }
            assert(string_views(src@) =~= all.skip(i + 1));
        }
        let ghost lv = line@;
        out.push(line);
        proof {
            assert(string_views(out@) =~= before.push(lv));
            assert(all.take(i + 1) =~= all.take(i as int).push(lv));
        }
        i += 1;
    }
    assert(all.take(n as int) =~= all);
}

/// Pushes a marker line.
fn push_marker(out: &mut Vec<String>, marker: &str)
    ensures
        string_views(final(out)@) == string_views(old(out)@).push(marker@),
{
    let line = String::from_str(marker);
    let ghost lv = line@;
    out.push(line);
    assert(string_views(out@) =~= string_views(old(out)@).push(lv));
}

/// The lines of the console dump of the trace, without line terminators.
pub fn dump_to_console(t: &BaselineTrace) -> (out: Vec<String>)
    ensures
        string_views(out@) == dump_lines(*t),
{
    let ghost sched = sorted_records(*t);
    let ghost tasks = sorted_task_records(*t);
    let mut out: Vec<String> = Vec::new();
    if overflowed(t) {
        push_marker(&mut out, "BASELINE_TRACE_OVERFLOW");
    }
    let ghost head = string_views(out@);
    let lines = render_lines(t);
    let mut i: usize = 0;
    let ghost lv = string_views(lines@);
    while i < lines.len()
        invariant
            i <= lines@.len(),
            string_views(lines@) == lv,
            string_views(out@) == head + prefixed("BASELINE_TRACE: "@, lv.take(i as int)),
        decreases lines@.len() - i,
    {
        let mut line = String::from_str("BASELINE_TRACE: ");
        line.append(lines[i].as_str());
        let ghost before = string_views(out@);
        let ghost l = line@;
        out.push(line);
        proof {
            assert(string_views(out@) =~= before.push(l));
            assert(prefixed("BASELINE_TRACE: "@, lv.take(i + 1)) =~= prefixed("BASELINE_TRACE: "@, lv.take(i as int)).push(l));
        }
        i += 1;
    }
    proof { assert(lv.take(lines@.len() as int) =~= lv); }
    push_marker(&mut out, "BASELINE_TRACE_DONE");
    if workload_artifact_enabled(t) {
        push_marker(&mut out, "BEGIN_SCHED_TRACE");
        push_all(&mut out, render_trace_rows_artifact_lines(t));
        push_marker(&mut out, "END_SCHED_TRACE");
        push_marker(&mut out, "BEGIN_TASK_TRACE");
        push_all(&mut out, render_task_trace_artifact_lines(t));
        push_marker(&mut out, "END_TASK_TRACE");
    }
    assert(string_views(out@) =~= dump_lines(*t));
    out
}

} // verus!
