//! Tasks and the task table of the runtime.
//!
//! - `Task` holds the ID, name, information and priority of one task.
//! - `TaskInfo` holds the scheduling state of a task.
//! - `Tasks` is the set of live tasks, keyed by their unique nonzero IDs.
//! - `Runtime` adds the per-CPU running-task table and preemption requests.
use vstd::prelude::*;
use crate::scheduler::{SchedulerType, spec_get_priority, get_priority, priority_list_kind, TaskKey};
use crate::sorting::{sort_by_key, lemma_sort_by_key};
use crate::trace_hooks::{sort_ids, id_key};

verus! {

/// Maximum task priority (56 bits).
pub const MAX_TASK_PRIORITY: u64 = 72057594037927935;

/// Release time and absolute deadline installed for the next GEDF wakeup of
/// a periodic job.
#[derive(Debug, Clone, Copy, PartialEq, Eq)]
pub struct GedfDeadlineHint {
    pub logical_release_time: u64,
    pub absolute_deadline: u64,
    pub periodic_loop_index: Option<u64>,
}

/// State of task.
#[derive(Debug, Clone, Copy, PartialEq, Eq, Structural)]
pub enum State {
    Initialized,
    Running,
    Runnable,
    Waiting,
    Preempted,
    Terminated,
    Panicked,
}

/// Position of a task in a DAG.
#[derive(Debug, Clone, Copy, PartialEq, Eq, Structural)]
pub struct DagInfo {
    pub dag_id: u32,
    pub node_id: u32,
}

/// Information of task.
#[derive(Debug, Clone, Copy)]
pub struct TaskInfo {
    pub state: State,
    pub scheduler_type: SchedulerType,
    pub num_preempt: u64,
    pub last_executed_time: u64,
    pub absolute_deadline: Option<u64>,
    pub need_sched: bool,
    pub need_preemption: bool,
    pub panicked: bool,
    pub dag_info: Option<DagInfo>,
    pub trace_task_id: u32,
    pub completion_trace_recorded: bool,
    pub thread: Option<u64>,
}

impl TaskInfo {
    /// Information of a freshly spawned task, last executed at `now`.
    pub fn new(scheduler_type: SchedulerType, dag_info: Option<DagInfo>, now: u64, trace_task_id: u32) -> (info: TaskInfo)
        ensures
            info.state == State::Initialized,
            info.scheduler_type == scheduler_type,
            info.num_preempt == 0,
            info.last_executed_time == now,
            info.absolute_deadline is None,
            !info.need_sched,
            !info.need_preemption,
            !info.panicked,
            info.dag_info == dag_info,
            info.trace_task_id == trace_task_id,
            !info.completion_trace_recorded,
            info.thread is None,
    {
        TaskInfo {
            state: State::Initialized,
            scheduler_type,
            num_preempt: 0,
            last_executed_time: now,
            absolute_deadline: None,
            need_sched: false,
            need_preemption: false,
            panicked: false,
            dag_info,
            trace_task_id,
            completion_trace_recorded: false,
            thread: None,
        }
    }

    /// Takes the saved preemption context, leaving none.
    pub fn take_preempt_context(&mut self) -> (ctx: Option<u64>)
        ensures
            ctx == old(self).thread,
            final(self).thread is None,
            *final(self) == (TaskInfo { thread: None, ..*old(self) }),
    {
        let ctx = self.thread;
        self.thread = None;
        ctx
    }

    /// Saves a preemption context; there must be none saved.
    pub fn set_preempt_context(&mut self, ctx: u64)
        requires
            old(self).thread is None,
        ensures
            *final(self) == (TaskInfo { thread: Some(ctx), ..*old(self) }),
    {
        self.thread = Some(ctx);
    }

    pub fn get_state(&self) -> (s: State)
        ensures
            s == self.state,
    {
        self.state
    }

    /// The scheduler type, or `Panicked` once the task panicked.
    pub fn get_scheduler_type(&self) -> (t: SchedulerType)
        ensures
            t == (if self.panicked { SchedulerType::Panicked } else { self.scheduler_type }),
    {
        if self.panicked {
            SchedulerType::Panicked
        } else {
            self.scheduler_type
        }
    }

    /// Records `now` as the last execution time.
    pub fn update_last_executed(&mut self, now: u64)
        ensures
            *final(self) == (TaskInfo { last_executed_time: now, ..*old(self) }),
    {
        self.last_executed_time = now;
    }

    pub fn get_last_executed(&self) -> (t: u64)
        ensures
            t == self.last_executed_time,
    {
        self.last_executed_time
    }

    pub fn update_absolute_deadline(&mut self, deadline: u64)
        ensures
            *final(self) == (TaskInfo { absolute_deadline: Some(deadline), ..*old(self) }),
    {
        self.absolute_deadline = Some(deadline);
    }

    pub fn get_absolute_deadline(&self) -> (d: Option<u64>)
        ensures
            d == self.absolute_deadline,
    {
        self.absolute_deadline
    }

    pub fn get_num_preemption(&self) -> (n: u64)
        ensures
            n == self.num_preempt,
    {
        self.num_preempt
    }

    pub fn panicked(&self) -> (b: bool)
        ensures
            b == self.panicked,
    {
        self.panicked
    }

    pub fn get_dag_info(&self) -> (d: Option<DagInfo>)
        ensures
            d == self.dag_info,
    {
        self.dag_info
    }
}

/// Combined priority: the scheduler priority in the top 8 bits and the task
/// priority in the low 56 bits.
pub open spec fn spec_combine_priority(scheduler_priority: u8, task_priority: u64) -> u64 {
    (scheduler_priority as nat * 72057594037927936 + task_priority as nat) as u64
}

/// A task of a scheduler higher in the priority list outranks every task of
/// a lower one, whatever their task priorities; within one scheduler the
/// task priority decides.
pub proof fn lemma_scheduler_priority_dominates(sp1: u8, t1: u64, sp2: u8, t2: u64)
    requires
        t1 <= MAX_TASK_PRIORITY,
        t2 <= MAX_TASK_PRIORITY,
    ensures
        sp1 > sp2 ==> spec_combine_priority(sp1, t1) > spec_combine_priority(sp2, t2),
        sp1 == sp2 ==> (spec_combine_priority(sp1, t1) > spec_combine_priority(sp2, t2) <==> t1 > t2),
{
    assert(sp1 as nat * 72057594037927936 + t1 as nat <= 255 * 72057594037927936 + 72057594037927935) by (nonlinear_arith)
        requires sp1 <= 255, t1 <= 72057594037927935;
    assert(sp2 as nat * 72057594037927936 + t2 as nat <= 255 * 72057594037927936 + 72057594037927935) by (nonlinear_arith)
        requires sp2 <= 255, t2 <= 72057594037927935;
    if sp1 > sp2 {
        assert(sp1 as nat * 72057594037927936 >= sp2 as nat * 72057594037927936 + 72057594037927936) by (nonlinear_arith)
            requires sp1 >= sp2 + 1;
    }
}

/// Priority of a task, compared as a whole when tasks are ordered.
#[derive(Debug, Clone, Copy, PartialEq, Eq, Structural)]
pub struct PriorityInfo {
    pub priority: u64,
}

impl PriorityInfo {
    pub fn new(scheduler_priority: u8, task_priority: u64) -> (p: PriorityInfo)
        requires
            task_priority <= MAX_TASK_PRIORITY,
        ensures
            p.priority == spec_combine_priority(scheduler_priority, task_priority),
    {
        PriorityInfo { priority: Self::combine_priority(scheduler_priority, task_priority) }
    }

    /// Replaces the priority with the combination of the two parts.
    pub fn update_priority_info(&mut self, scheduler_priority: u8, task_priority: u64)
        requires
            task_priority <= MAX_TASK_PRIORITY,
        ensures
            final(self).priority == spec_combine_priority(scheduler_priority, task_priority),
    {
        self.priority = Self::combine_priority(scheduler_priority, task_priority);
    }

    /// Puts the scheduler priority above the 56 bits of the task priority.
    pub fn combine_priority(scheduler_priority: u8, task_priority: u64) -> (r: u64)
        requires
            task_priority <= MAX_TASK_PRIORITY,
        ensures
            r == spec_combine_priority(scheduler_priority, task_priority),
            r >> 56u64 == scheduler_priority as u64,
            r & 72057594037927935u64 == task_priority,
    {
        let sp = scheduler_priority as u64;
        let r = (sp << 56u64) | (task_priority & 72057594037927935u64);
        assert(r == sp * 72057594037927936u64 + task_priority
            && r >> 56u64 == sp && r & 72057594037927935u64 == task_priority) by (bit_vector)
            requires
                sp < 256,
                task_priority <= 72057594037927935u64,
                r == (sp << 56u64) | (task_priority & 72057594037927935u64),
        ;
        r
    }
}

/// The highest FIFO/RR priority; a higher one is addressed as this one.
pub const HIGHEST_PRIORITY: u8 = 31;

/// A FIFO/RR priority as it is addressed: capped at `HIGHEST_PRIORITY`.
pub open spec fn addressed_priority(p: u8) -> u64 {
    if p > HIGHEST_PRIORITY { HIGHEST_PRIORITY as u64 } else { p as u64 }
}

/// The priority of a new task: the FIFO/RR parameter as it is addressed,
/// otherwise the maximum.
pub open spec fn spec_task_priority(t: SchedulerType) -> u64 {
    match t {
        SchedulerType::PrioritizedFIFO(p) => addressed_priority(p),
        SchedulerType::PrioritizedRR(p) => addressed_priority(p),
        _ => MAX_TASK_PRIORITY,
    }
}

/// A task: ID, name, information, the scheduler serving it, and priority.
#[derive(Debug)]
pub struct Task {
    pub id: u32,
    pub name: String,
    pub info: TaskInfo,
    pub scheduler: SchedulerType,
    pub priority: PriorityInfo,
}

impl Task {
    /// The scheduler kind that runs the task.
    pub fn scheduler_name(&self) -> (t: SchedulerType)
        ensures
            t == priority_list_kind(self.scheduler),
    {
        self.scheduler.kind()
    }

    /// The priority and ID that order the task among others.
    pub fn key(&self) -> (k: TaskKey)
        ensures
            k == (TaskKey { priority: self.priority.priority, id: self.id }),
    {
        TaskKey { priority: self.priority.priority, id: self.id }
    }
}

/// What `wake` decided for a task.
#[derive(Debug, Clone, Copy, PartialEq, Eq, Structural)]
pub enum WakeAction {
    /// The task is running or queued; it was marked to be scheduled again.
    MarkedNeedSched,
    /// The task has terminated or panicked; nothing is done.
    Ignored,
    /// The task became runnable and must be queued to this scheduler.
    Enqueue(SchedulerType),
}

/// The information of a task after `wake`, and the action taken.
pub open spec fn spec_wake(info: TaskInfo, scheduler: SchedulerType) -> (TaskInfo, WakeAction) {
    match info.state {
        State::Running | State::Runnable | State::Preempted =>
            (TaskInfo { need_sched: true, ..info }, WakeAction::MarkedNeedSched),
        State::Terminated | State::Panicked => (info, WakeAction::Ignored),
        State::Initialized | State::Waiting =>
            (TaskInfo { state: State::Runnable, ..info },
             WakeAction::Enqueue(if info.panicked { SchedulerType::Panicked } else { scheduler })),
    }
}

impl Task {
    /// Wakes the task up: a running or queued task is marked to be scheduled
    /// again; an initialized or waiting task becomes runnable and is queued to
    /// its scheduler (the panicked scheduler once it panicked).
    pub fn wake(&mut self) -> (a: WakeAction)
        ensures
            (final(self).info, a) == spec_wake(old(self).info, old(self).scheduler),
            final(self).id == old(self).id,
            final(self).name == old(self).name,
            final(self).scheduler == old(self).scheduler,
            final(self).priority == old(self).priority,
    {
        match self.info.state {
            State::Running | State::Runnable | State::Preempted => {
                self.info.need_sched = true;
                WakeAction::MarkedNeedSched
            },
            State::Terminated | State::Panicked => WakeAction::Ignored,
            State::Initialized | State::Waiting => {
                self.info.state = State::Runnable;
                if self.info.panicked {
                    WakeAction::Enqueue(SchedulerType::Panicked)
                } else {
                    WakeAction::Enqueue(self.scheduler)
                }
            },
        }
    }
}


/// IDs of the tasks in `s`.
pub open spec fn task_ids(s: Seq<Task>) -> Set<u32> {
    Set::new(|id: u32| exists|i: int| 0 <= i < s.len() && s[i].id == id)
}

/// `x` comes before `id` when IDs are tried in cyclic order from `start`,
/// skipping zero.
pub open spec fn cyclic_before(start: u32, x: u32, id: u32) -> bool {
    if start <= id {
        start <= x < id
    } else {
        x >= start || (1 <= x < id)
    }
}

/// ID of a spawned task.
#[derive(Debug, Clone, Copy, PartialEq, Eq, Structural)]
pub struct SpawnedTask {
    pub runtime_task_id: u32,
    pub trace_task_id: u32,
}

/// The set of live tasks, keyed by unique nonzero IDs.
pub struct Tasks {
    candidate_id: u32,
    tasks: Vec<Task>,
}

impl Tasks {
    /// IDs are unique and nonzero.
    pub closed spec fn wf(&self) -> bool {
        &&& forall|i: int, j: int| 0 <= i < j < self.tasks@.len() ==> self.tasks@[i].id != self.tasks@[j].id
        &&& forall|i: int| 0 <= i < self.tasks@.len() ==> self.tasks@[i].id != 0
    }

    /// The tasks, in the order they are kept.
    pub closed spec fn view(&self) -> Seq<Task> {
        self.tasks@
    }

    /// The ID from which the next search for a free ID starts.
    pub closed spec fn candidate(&self) -> u32 {
        self.candidate_id
    }

    /// Some task has ID `id`.
    pub open spec fn used(&self, id: u32) -> bool {
        task_ids(self@).contains(id)
    }

    /// The task with ID `id` (meaningful when `used(id)`).
    pub open spec fn lookup(&self, id: u32) -> Task {
        self@[self.index_of(id)]
    }

    /// Position of the task with ID `id` (meaningful when `used(id)`).
    pub open spec fn index_of(&self, id: u32) -> int {
        choose|i: int| 0 <= i < self@.len() && self@[i].id == id
    }

    /// An empty table; the first ID tried is 1.
    pub fn new() -> (t: Tasks)
        ensures
            t.wf(),
            t@ == Seq::<Task>::empty(),
            t.candidate() == 1,
    {
        Tasks { candidate_id: 1, tasks: Vec::new() }
    }

    pub fn len(&self) -> (n: usize)
        ensures
            n == self@.len(),
    {
        self.tasks.len()
    }

    /// Position of the task with ID `id`, if any.
    pub fn find(&self, id: u32) -> (r: Option<usize>)
        ensures
            match r {
                Some(i) => i < self@.len() && self@[i as int].id == id,
                None => !self.used(id),
            },
            r is Some <==> self.used(id),
    {
        let mut i: usize = 0;
        while i < self.tasks.len()
            invariant
                i <= self.tasks@.len(),
                forall|j: int| 0 <= j < i ==> self.tasks@[j].id != id,
            decreases self.tasks@.len() - i,
        {
            if self.tasks[i].id == id {
                return Some(i);
            }
            i += 1;
        }
        assert(!self.used(id)) by {
            if task_ids(self@).contains(id) {
                let k = choose|k: int| 0 <= k < self@.len() && self@[k].id == id;
                assert(self.tasks@[k].id == id);
            }
        }
        None
    }

    /// The task with ID `id`.
    pub fn get(&self, id: u32) -> (r: Option<&Task>)
        requires
            self.wf(),
        ensures
            match r {
                Some(t) => self.used(id) && *t == self.lookup(id) && t.id == id,
                None => !self.used(id),
            },
    {
        match self.find(id) {
            Some(i) => {
                proof {
                    assert(self@[i as int].id == id);
                    let k = self.index_of(id);
                    assert(0 <= k < self@.len() && self@[k].id == id);
                    if k != i as int {
                        assert(self.tasks@[k].id == self.tasks@[i as int].id);
                    }
                }
                Some(&self.tasks[i])
            },
            None => None,
        }
    }

    /// The task at position `i`.
    pub fn at(&self, i: usize) -> (t: &Task)
        requires
            i < self@.len(),
        ensures
            *t == self@[i as int],
    {
        &self.tasks[i]
    }

    /// The first free nonzero ID in cyclic order from `start`, or `None` when
    /// every nonzero ID is in use.
    pub fn find_free_id(&self, start: u32) -> (r: Option<u32>)
        requires
            start >= 1,
        ensures
            match r {
                Some(id) => id != 0 && !self.used(id)
                    && forall|x: u32| cyclic_before(start, x, id) ==> self.used(x),
                None => forall|x: u32| x != 0 ==> self.used(x),
            },
    {
        let mut id: u64 = start as u64;
        while id <= u32::MAX as u64
            invariant
                1 <= start,
                start <= id <= u32::MAX as u64 + 1,
                forall|x: u32| start <= x < id ==> self.used(x),
            decreases u32::MAX as u64 + 1 - id,
        {
            let cand = id as u32;
            if self.find(cand).is_none() {
                assert(cand as u64 == id);
                assert forall|x: u32| cyclic_before(start, x, cand) implies self.used(x) by {
                    assert(start <= x < id);
                }
                return Some(cand);
            }
            id += 1;
        }
        let mut id2: u32 = 1;
        while id2 < start
            invariant
                1 <= id2 <= start,
                forall|x: u32| x >= start ==> self.used(x),
                forall|x: u32| 1 <= x < id2 ==> self.used(x),
            decreases start - id2,
        {
            if self.find(id2).is_none() {
                assert forall|x: u32| cyclic_before(start, x, id2) implies self.used(x) by {
                    if x >= start {
                    } else {
                        assert(1 <= x < id2);
                    }
                }
                return Some(id2);
            }
            id2 += 1;
        }
        None
    }

    /// Adds a task with the first free ID in cyclic order from the candidate
    /// ID (skipping zero), which becomes the new candidate. `None` when every
    /// nonzero ID is in use.
    pub fn spawn(
        &mut self,
        name: String,
        scheduler_type: SchedulerType,
        dag_info: Option<DagInfo>,
        now: u64,
        trace_task_id: u32,
    ) -> (r: Option<SpawnedTask>)
        requires
            old(self).wf(),
        ensures
            final(self).wf(),
            match r {
                Some(sp) => {
                    let id = sp.runtime_task_id;
                    let start = if old(self).candidate() == 0 { 1u32 } else { old(self).candidate() };
                    &&& id != 0
                    &&& !old(self).used(id)
                    &&& forall|x: u32| cyclic_before(start, x, id) ==> old(self).used(x)
                    &&& sp.trace_task_id == trace_task_id
                    &&& final(self).candidate() == id
                    &&& final(self)@ == old(self)@.push(Task {
                        id,
                        name,
                        info: TaskInfo {
                            state: State::Initialized,
                            scheduler_type,
                            num_preempt: 0,
                            last_executed_time: now,
                            absolute_deadline: None,
                            need_sched: false,
                            need_preemption: false,
                            panicked: false,
                            dag_info,
                            trace_task_id,
                            completion_trace_recorded: false,
                            thread: None,
                        },
                        scheduler: scheduler_type,
                        priority: PriorityInfo {
                            priority: spec_combine_priority(spec_get_priority(scheduler_type), spec_task_priority(scheduler_type)),
                        },
                    })
                },
                None => {
                    &&& forall|x: u32| x != 0 ==> old(self).used(x)
                    &&& final(self)@ == old(self)@
                    &&& final(self).candidate() == old(self).candidate()
                },
            },
    {
        let start = if self.candidate_id == 0 { 1 } else { self.candidate_id };
        let id = match self.find_free_id(start) {
            Some(id) => id,
            None => return None,
        };
        let info = TaskInfo::new(scheduler_type, dag_info, now, trace_task_id);
        let task_priority = match scheduler_type {
            SchedulerType::PrioritizedFIFO(p) | SchedulerType::PrioritizedRR(p) => {
                if p > HIGHEST_PRIORITY { HIGHEST_PRIORITY as u64 } else { p as u64 }
            },
            _ => MAX_TASK_PRIORITY,
        };
        let priority = PriorityInfo::new(get_priority(scheduler_type), task_priority);
        let task = Task { id, name, info, scheduler: scheduler_type, priority };
        proof {
            assert forall|i: int| 0 <= i < self.tasks@.len() implies self.tasks@[i].id != id by {
                if self.tasks@[i].id == id {
                    assert(task_ids(self@).contains(id));
                }
            }
        }
        self.tasks.push(task);
        self.candidate_id = id;
        Some(SpawnedTask { runtime_task_id: id, trace_task_id })
    }

    /// Removes the task with ID `id`, if any.
    pub fn remove(&mut self, id: u32)
        requires
            old(self).wf(),
        ensures
            final(self).wf(),
            match old(self).find_index(id) {
                Some(i) => final(self)@ == old(self)@.remove(i),
                None => final(self)@ == old(self)@,
            },
            final(self).candidate() == old(self).candidate(),
            !final(self).used(id),
    {
                match self.find(id) {
            Some(i) => {
                proof {
                    assert(old(self).find_index(id) == Some(i as int)) by {
                        assert(exists|k: int| 0 <= k < old(self)@.len() && old(self)@[k].id == id);
                        let k = choose|k: int| 0 <= k < old(self)@.len() && old(self)@[k].id == id;
                        if k != i as int {
                            assert(self.tasks@[k].id == self.tasks@[i as int].id);
                        }
                    }
                }
                self.tasks.remove(i);
                proof {
                    if task_ids(self@).contains(id) {
                        let k = choose|k: int| 0 <= k < self@.len() && self@[k].id == id;
                        if k < i {
                            assert(old(self)@[k].id == id);
                        } else {
                            assert(old(self)@[k + 1].id == id);
                        }
                    }
                }
            },
            None => {
                proof {
                    assert(old(self).find_index(id) is None);
                }
            },
        }
    }

    /// Replaces the information of the task at position `i`.
    pub fn set_info(&mut self, i: usize, info: TaskInfo)
        requires
            old(self).wf(),
            i < old(self)@.len(),
        ensures
            final(self).wf(),
            final(self).candidate() == old(self).candidate(),
            final(self)@.len() == old(self)@.len(),
            final(self)@[i as int].info == info,
            final(self)@[i as int].id == old(self)@[i as int].id,
            final(self)@[i as int].name == old(self)@[i as int].name,
            final(self)@[i as int].scheduler == old(self)@[i as int].scheduler,
            final(self)@[i as int].priority == old(self)@[i as int].priority,
            forall|j: int| 0 <= j < final(self)@.len() && j != i ==> final(self)@[j] == old(self)@[j],
            forall|x: u32| final(self).used(x) == old(self).used(x),
    {
        self.tasks[i].info = info;
        proof { self.lemma_same_ids(old(self)@); }
    }

    /// Replaces the priority of the task at position `i`.
    pub fn set_priority(&mut self, i: usize, priority: PriorityInfo)
        requires
            old(self).wf(),
            i < old(self)@.len(),
        ensures
            final(self).wf(),
            final(self).candidate() == old(self).candidate(),
            final(self)@.len() == old(self)@.len(),
            final(self)@[i as int].priority == priority,
            final(self)@[i as int].info == old(self)@[i as int].info,
            final(self)@[i as int].id == old(self)@[i as int].id,
            final(self)@[i as int].name == old(self)@[i as int].name,
            final(self)@[i as int].scheduler == old(self)@[i as int].scheduler,
            forall|j: int| 0 <= j < final(self)@.len() && j != i ==> final(self)@[j] == old(self)@[j],
            forall|x: u32| final(self).used(x) == old(self).used(x),
    {
        self.tasks[i].priority = priority;
        proof { self.lemma_same_ids(old(self)@); }
    }

    /// Wakes the task with ID `id` up (see `Task::wake`).
    pub fn wake(&mut self, id: u32) -> (r: Option<WakeAction>)
        requires
            old(self).wf(),
        ensures
            final(self).wf(),
            final(self).candidate() == old(self).candidate(),
            forall|x: u32| final(self).used(x) == old(self).used(x),
            match old(self).find_index(id) {
                Some(i) => {
                    let (info, a) = spec_wake(old(self)@[i].info, old(self)@[i].scheduler);
                    &&& r == Some(a)
                    &&& final(self)@ == old(self)@.update(i, Task { info, ..old(self)@[i] })
                },
                None => r is None && final(self)@ == old(self)@,
            },
    {
        match self.find(id) {
            Some(i) => {
                proof { self.lemma_find_index(id, i as int); }
                let a = self.tasks[i].wake();
                proof {
                    self.lemma_same_ids(old(self)@);
                    assert(self@ =~= old(self)@.update(i as int, Task { info: self@[i as int].info, ..old(self)@[i as int] }));
                }
                Some(a)
            },
            None => None,
        }
    }

    pub proof fn lemma_find_index(&self, id: u32, i: int)
        requires
            self.wf(),
            0 <= i < self@.len(),
            self@[i].id == id,
        ensures
            self.find_index(id) == Some(i),
    {
        assert(task_ids(self@).contains(id));
        let k = self.index_of(id);
        if k != i {
            assert(self.tasks@[k].id == self.tasks@[i].id);
        }
    }

    proof fn lemma_same_ids(&self, other: Seq<Task>)
        requires
            self@.len() == other.len(),
            forall|j: int| 0 <= j < other.len() ==> self@[j].id == #[trigger] other[j].id,
            forall|i: int, j: int| 0 <= i < j < other.len() ==> other[i].id != other[j].id,
            forall|i: int| 0 <= i < other.len() ==> other[i].id != 0,
        ensures
            self.wf(),
            forall|x: u32| task_ids(self@).contains(x) == task_ids(other).contains(x),
    {
        assert forall|i: int, j: int| 0 <= i < j < self@.len() implies self.tasks@[i].id != self.tasks@[j].id by {
            assert(self@[i].id == other[i].id);
            assert(self@[j].id == other[j].id);
        }
        assert forall|i: int| 0 <= i < self@.len() implies self.tasks@[i].id != 0 by {
            assert(self@[i].id == other[i].id);
        }
        assert forall|x: u32| task_ids(self@).contains(x) == task_ids(other).contains(x) by {
            if task_ids(self@).contains(x) {
                let k = choose|k: int| 0 <= k < self@.len() && self@[k].id == x;
                assert(other[k].id == x);
            }
            if task_ids(other).contains(x) {
                let k = choose|k: int| 0 <= k < other.len() && other[k].id == x;
                assert(self@[k].id == x);
            }
        }
    }

    /// Position of the task with ID `id`, if any.
    pub open spec fn find_index(&self, id: u32) -> Option<int> {
        if self.used(id) {
            Some(self.index_of(id))
        } else {
            None
        }
    }
}


/// A CPU and the ID of the task it runs (0 when idle).
#[derive(Debug, Clone, Copy, PartialEq, Eq, Structural)]
pub struct RunningTask {
    pub cpu_id: usize,
    pub task_id: u32,
}

/// The task table together with the per-CPU tables of the runtime: the task
/// running on each CPU (0 when idle) and the pending preemption requests.
pub struct Runtime {
    pub tasks: Tasks,
    pub running: Vec<u32>,
    pub preemption_request: Vec<bool>,
    pub num_cpu: usize,
    pub num_task_in_queue: u64,
    pub num_preemption: usize,
}

/// What `wake` did, with the task's ID when it must be queued.
pub open spec fn spec_queued_after(queued: u64, a: Option<WakeAction>) -> u64 {
    match a {
        Some(WakeAction::Enqueue(_)) => if queued == u64::MAX { 0 } else { (queued + 1) as u64 },
        _ => queued,
    }
}

impl Runtime {
    pub open spec fn wf(&self) -> bool {
        &&& self.tasks.wf()
        &&& self.running@.len() == self.preemption_request@.len()
        &&& 0 < self.num_cpu <= self.running@.len()
    }

    /// Task ID running on each CPU slot (0 when idle).
    pub open spec fn running(&self) -> Seq<u32> {
        self.running@
    }

    /// Pending preemption request of each CPU slot.
    pub open spec fn preemption_requests(&self) -> Seq<bool> {
        self.preemption_request@
    }

    /// Number of CPUs in use.
    pub open spec fn cpus(&self) -> nat {
        self.num_cpu as nat
    }

    /// Number of tasks queued to schedulers.
    pub open spec fn queued(&self) -> u64 {
        self.num_task_in_queue
    }

    /// Number of preemptions performed.
    pub open spec fn preemptions(&self) -> usize {
        self.num_preemption
    }

    /// A runtime with no tasks, `max_cpu` CPU slots of which `num_cpu` are used.
    pub fn new(max_cpu: usize, num_cpu: usize) -> (rt: Runtime)
        requires
            0 < num_cpu <= max_cpu,
        ensures
            rt.wf(),
            rt.tasks@ == Seq::<Task>::empty(),
            rt.running() == Seq::new(max_cpu as nat, |i: int| 0u32),
            rt.preemption_requests() == Seq::new(max_cpu as nat, |i: int| false),
            rt.cpus() == num_cpu,
            rt.queued() == 0,
            rt.preemptions() == 0,
    {
        let mut running: Vec<u32> = Vec::new();
        let mut preemption_request: Vec<bool> = Vec::new();
        let mut i: usize = 0;
        while i < max_cpu
            invariant
                i <= max_cpu,
                running@ == Seq::new(i as nat, |k: int| 0u32),
                preemption_request@ == Seq::new(i as nat, |k: int| false),
            decreases max_cpu - i,
        {
            running.push(0);
            preemption_request.push(false);
            i += 1;
        }
        Runtime {
            tasks: Tasks::new(),
            running,
            preemption_request,
            num_cpu,
            num_task_in_queue: 0,
            num_preemption: 0,
        }
    }

    /// Number of CPU slots.
    pub fn max_cpu(&self) -> (n: usize)
        ensures
            n == self.running().len(),
    {
        self.running.len()
    }

    /// Number of CPUs in use.
    pub fn num_cpu(&self) -> (n: usize)
        ensures
            n == self.cpus(),
    {
        self.num_cpu
    }

    /// Number of tasks queued to schedulers.
    pub fn num_task_in_queue(&self) -> (n: u64)
        ensures
            n == self.queued(),
    {
        self.num_task_in_queue
    }

    /// Records that a scheduler handed out one queued task (wrapping, as the atomic counter does).
    pub fn dequeued(&mut self)
        requires
            old(self).wf(),
        ensures
            final(self).wf(),
            final(self).queued() == (if old(self).queued() == 0 { u64::MAX } else { (old(self).queued() - 1) as u64 }),
            final(self).tasks@ == old(self).tasks@,
            final(self).running() == old(self).running(),
            final(self).preemption_requests() == old(self).preemption_requests(),
            final(self).cpus() == old(self).cpus(),
            final(self).preemptions() == old(self).preemptions(),
    {
        self.num_task_in_queue = self.num_task_in_queue.wrapping_sub(1);
    }

    /// Pending preemption request of `cpu_id`.
    pub fn preemption_requested(&self, cpu_id: usize) -> (b: bool)
        requires
            self.wf(),
            cpu_id < self.running().len(),
        ensures
            b == self.preemption_requests()[cpu_id as int],
    {
        self.preemption_request[cpu_id]
    }

    /// Sets or clears the preemption request of `cpu_id`.
    pub fn set_preemption_request(&mut self, cpu_id: usize, value: bool)
        requires
            old(self).wf(),
            cpu_id < old(self).running().len(),
        ensures
            final(self).wf(),
            final(self).preemption_requests() == old(self).preemption_requests().update(cpu_id as int, value),
            final(self).tasks@ == old(self).tasks@,
            final(self).running() == old(self).running(),
            final(self).cpus() == old(self).cpus(),
            final(self).queued() == old(self).queued(),
            final(self).preemptions() == old(self).preemptions(),
    {
        self.preemption_request.set(cpu_id, value);
    }
}

/// The task running on `cpu_id`, if any.
pub fn get_current_task(rt: &Runtime, cpu_id: usize) -> (r: Option<u32>)
    requires
        rt.wf(),
        cpu_id < rt.running().len(),
    ensures
        r == (if rt.running()[cpu_id as int] == 0 { None } else { Some(rt.running()[cpu_id as int]) }),
{
    let id = rt.running[cpu_id];
    if id == 0 {
        None
    } else {
        Some(id)
    }
}

/// Records `task_id` as running on `cpu_id` (0 for idle).
pub fn set_current_task(rt: &mut Runtime, cpu_id: usize, task_id: u32)
    requires
        old(rt).wf(),
        cpu_id < old(rt).running().len(),
    ensures
        final(rt).wf(),
        final(rt).running() == old(rt).running().update(cpu_id as int, task_id),
        final(rt).tasks@ == old(rt).tasks@,
        final(rt).preemption_requests() == old(rt).preemption_requests(),
        final(rt).cpus() == old(rt).cpus(),
        final(rt).queued() == old(rt).queued(),
        final(rt).preemptions() == old(rt).preemptions(),
{
    rt.running.set(cpu_id, task_id);
}

/// IDs of the tasks, in table order.
pub open spec fn table_ids(ts: Seq<Task>) -> Seq<u32> {
    Seq::new(ts.len(), |i: int| ts[i].id)
}

/// IDs of the tasks, in increasing order.
pub open spec fn sorted_task_ids(rt: Runtime) -> Seq<u32> {
    sort_by_key(table_ids(rt.tasks@), id_key())
}

/// The task list is in strictly increasing ID order and holds every task of
/// the table exactly once.
pub proof fn lemma_sorted_task_ids(rt: Runtime)
    requires
        rt.wf(),
    ensures
        sorted_task_ids(rt).len() == rt.tasks@.len(),
        forall|i: int, j: int| 0 <= i < j < sorted_task_ids(rt).len() ==> sorted_task_ids(rt)[i] < sorted_task_ids(rt)[j],
        forall|id: u32| rt.tasks.used(id) <==> sorted_task_ids(rt).contains(id),
{
    let all = table_ids(rt.tasks@);
    let sorted = sorted_task_ids(rt);
    lemma_sort_by_key(all, id_key());
    assert(all.no_duplicates()) by {
        assert forall|i: int, j: int| 0 <= i < all.len() && 0 <= j < all.len() && i != j implies all[i] != all[j] by {
            if i < j {
                assert(rt.tasks.tasks@[i].id != rt.tasks.tasks@[j].id);
            } else {
                assert(rt.tasks.tasks@[j].id != rt.tasks.tasks@[i].id);
            }
        }
    }
    all.lemma_multiset_has_no_duplicates();
    sorted.lemma_multiset_has_no_duplicates_conv();
    assert forall|i: int, j: int| 0 <= i < j < sorted.len() implies sorted[i] < sorted[j] by {
        assert(id_key()(sorted[i]) <= id_key()(sorted[j]));
        assert(sorted[i] != sorted[j]);
    }
    assert forall|id: u32| rt.tasks.used(id) <==> sorted.contains(id) by {
        vstd::seq_lib::to_multiset_contains(sorted, id);
        vstd::seq_lib::to_multiset_contains(all, id);
        if rt.tasks.used(id) {
            let i = choose|i: int| 0 <= i < rt.tasks@.len() && rt.tasks@[i].id == id;
            assert(all[i] == id);
            assert(all.contains(id));
        }
        if sorted.contains(id) {
            assert(all.contains(id));
            let i = choose|i: int| 0 <= i < all.len() && all[i] == id;
            assert(rt.tasks@[i].id == id);
        }
    }
}

/// The task with ID `task_id`, if it is in the table.
pub fn get_task(rt: &Runtime, task_id: u32) -> (r: Option<&Task>)
    requires
        rt.wf(),
    ensures
        match r {
            Some(t) => rt.tasks.used(task_id) && *t == rt.tasks.lookup(task_id) && t.id == task_id,
            None => !rt.tasks.used(task_id),
        },
{
    rt.tasks.get(task_id)
}

/// Every task of the table, in increasing ID order.
pub fn get_tasks(rt: &Runtime) -> (r: Vec<&Task>)
    requires
        rt.wf(),
    ensures
        r@.len() == sorted_task_ids(*rt).len(),
        forall|k: int| 0 <= k < r@.len() ==> rt.tasks.used(#[trigger] sorted_task_ids(*rt)[k])
            && *r@[k] == rt.tasks.lookup(sorted_task_ids(*rt)[k]),
        forall|i: int, j: int| 0 <= i < j < r@.len() ==> r@[i].id < r@[j].id,
        forall|id: u32| rt.tasks.used(id) ==> exists|k: int| 0 <= k < r@.len() && r@[k].id == id,
{
    let n = rt.tasks.len();
    let mut ids: Vec<u32> = Vec::new();
    let mut i: usize = 0;
    while i < n
        invariant
            n == rt.tasks@.len(),
            i <= n,
            ids@ == table_ids(rt.tasks@).take(i as int),
        decreases n - i,
    {
        ids.push(rt.tasks.at(i).id);
        i += 1;
        assert(ids@ =~= table_ids(rt.tasks@).take(i as int));
    }
    assert(table_ids(rt.tasks@).take(n as int) =~= table_ids(rt.tasks@));
    let sorted = sort_ids(ids);
    let ghost all = table_ids(rt.tasks@);
    proof {
        lemma_sort_by_key(all, id_key());
    }
    let mut result: Vec<&Task> = Vec::new();
    let mut k: usize = 0;
    while k < sorted.len()
        invariant
            rt.wf(),
            sorted@ == sorted_task_ids(*rt),
            all == table_ids(rt.tasks@),
            sorted@.to_multiset() == all.to_multiset(),
            k <= sorted@.len(),
            result@.len() == k,
            forall|j: int| 0 <= j < k ==> rt.tasks.used(#[trigger] sorted@[j]) && *result@[j] == rt.tasks.lookup(sorted@[j])
                && result@[j].id == sorted@[j],
        decreases sorted@.len() - k,
    {
        let id = sorted[k];
        proof {
            vstd::seq_lib::to_multiset_contains(sorted@, id);
            vstd::seq_lib::to_multiset_contains(all, id);
            assert(sorted@.contains(id));
            let j = choose|j: int| 0 <= j < all.len() && all[j] == id;
            assert(rt.tasks@[j].id == id);
            assert(task_ids(rt.tasks@).contains(id));
        }
        let t = rt.tasks.get(id).unwrap();
        result.push(t);
        k += 1;
    }
    proof {
        lemma_sorted_task_ids(*rt);
        assert forall|i: int, j: int| 0 <= i < j < result@.len() implies result@[i].id < result@[j].id by {
            assert(result@[i].id == sorted@[i]);
            assert(result@[j].id == sorted@[j]);
        }
        assert forall|id: u32| rt.tasks.used(id) implies exists|k: int| 0 <= k < result@.len() && result@[k].id == id by {
            let k = choose|k: int| 0 <= k < sorted@.len() && sorted@[k] == id;
            assert(result@[k].id == id);
        }
    }
    result
}

/// The task slot of each CPU in use, in CPU order.
pub fn get_tasks_running(rt: &Runtime) -> (v: Vec<RunningTask>)
    requires
        rt.wf(),
    ensures
        v@.len() == rt.cpus(),
        forall|i: int| 0 <= i < v@.len() ==> v@[i] == (RunningTask { cpu_id: i as usize, task_id: rt.running()[i] }),
{
    let mut tasks: Vec<RunningTask> = Vec::new();
    let mut cpu_id: usize = 0;
    while cpu_id < rt.num_cpu
        invariant
            rt.wf(),
            cpu_id <= rt.num_cpu,
            tasks@.len() == cpu_id,
            forall|i: int| 0 <= i < cpu_id ==> tasks@[i] == (RunningTask { cpu_id: i as usize, task_id: rt.running()[i] }),
        decreases rt.num_cpu - cpu_id,
    {
        let task_id = rt.running[cpu_id];
        tasks.push(RunningTask { cpu_id, task_id });
        cpu_id += 1;
    }
    tasks
}

/// Marks the task `task_id` (if it exists) as needing preemption and raises
/// the preemption request of `cpu_id`.
pub fn set_need_preemption(rt: &mut Runtime, task_id: u32, cpu_id: usize)
    requires
        old(rt).wf(),
        cpu_id < old(rt).running().len(),
    ensures
        final(rt).wf(),
        final(rt).preemption_requests() == old(rt).preemption_requests().update(cpu_id as int, true),
        final(rt).running() == old(rt).running(),
        final(rt).cpus() == old(rt).cpus(),
        final(rt).queued() == old(rt).queued(),
        final(rt).preemptions() == old(rt).preemptions(),
        forall|x: u32| final(rt).tasks.used(x) == old(rt).tasks.used(x),
        match old(rt).tasks.find_index(task_id) {
            Some(i) => final(rt).tasks@ == old(rt).tasks@.update(i, Task {
                info: TaskInfo { need_preemption: true, ..old(rt).tasks@[i].info },
                ..old(rt).tasks@[i]
            }),
            None => final(rt).tasks@ == old(rt).tasks@,
        },
{
    match rt.tasks.find(task_id) {
        Some(i) => {
            proof { rt.tasks.lemma_find_index(task_id, i as int); }
            let mut info = rt.tasks.at(i).info;
            info.need_preemption = true;
            rt.tasks.set_info(i, info);
            proof {
                assert(rt.tasks@ =~= old(rt).tasks@.update(i as int, Task {
                    info: TaskInfo { need_preemption: true, ..old(rt).tasks@[i as int].info },
                    ..old(rt).tasks@[i as int]
                }));
            }
        },
        None => {},
    }
    rt.preemption_request.set(cpu_id, true);
}

/// Last execution time of the task `task_id`, if it exists.
pub fn get_last_executed_by_task_id(rt: &Runtime, task_id: u32) -> (r: Option<u64>)
    requires
        rt.wf(),
    ensures
        r == (if rt.tasks.used(task_id) { Some(rt.tasks.lookup(task_id).info.last_executed_time) } else { None }),
{
    match rt.tasks.get(task_id) {
        Some(t) => Some(t.info.get_last_executed()),
        None => None,
    }
}

/// Scheduler type of the task `task_id` (`Panicked` once it panicked), if it exists.
pub fn get_scheduler_type_by_task_id(rt: &Runtime, task_id: u32) -> (r: Option<SchedulerType>)
    requires
        rt.wf(),
    ensures
        r == (if rt.tasks.used(task_id) {
            Some(if rt.tasks.lookup(task_id).info.panicked { SchedulerType::Panicked } else { rt.tasks.lookup(task_id).info.scheduler_type })
        } else {
            None
        }),
{
    match rt.tasks.get(task_id) {
        Some(t) => Some(t.info.get_scheduler_type()),
        None => None,
    }
}

/// Number of preemptions performed.
pub fn get_num_preemption(rt: &Runtime) -> (n: usize)
    ensures
        n == rt.preemptions(),
{
    rt.num_preemption
}

/// Wakes the task `task_id` up. When it becomes runnable, the count of queued
/// tasks grows by one and the caller queues it to the returned scheduler and
/// wakes the primary CPU.
pub fn wake(rt: &mut Runtime, task_id: u32) -> (r: Option<WakeAction>)
    requires
        old(rt).wf(),
    ensures
        final(rt).wf(),
        final(rt).running() == old(rt).running(),
        final(rt).preemption_requests() == old(rt).preemption_requests(),
        final(rt).cpus() == old(rt).cpus(),
        final(rt).preemptions() == old(rt).preemptions(),
        final(rt).queued() == spec_queued_after(old(rt).queued(), r),
        forall|x: u32| final(rt).tasks.used(x) == old(rt).tasks.used(x),
        match old(rt).tasks.find_index(task_id) {
            Some(i) => {
                let (info, a) = spec_wake(old(rt).tasks@[i].info, old(rt).tasks@[i].scheduler);
                &&& r == Some(a)
                &&& final(rt).tasks@ == old(rt).tasks@.update(i, Task { info, ..old(rt).tasks@[i] })
            },
            None => r is None && final(rt).tasks@ == old(rt).tasks@,
        },
{
    let r = rt.tasks.wake(task_id);
    match r {
        Some(WakeAction::Enqueue(_)) => {
            rt.num_task_in_queue = rt.num_task_in_queue.wrapping_add(1);
        },
        _ => {},
    }
    r
}

/// Progress of waking worker CPUs: at most `remaining` workers are woken,
/// trying CPUs 1, 2, ... below `num_cpu` in order.
#[derive(Debug, Clone, Copy, PartialEq, Eq, Structural)]
pub struct WakeWorkers {
    pub remaining: u64,
    pub next_cpu: usize,
    pub num_cpu: usize,
}

/// Starts waking workers for `num_tasks` queued tasks on `num_cpu` CPUs.
pub fn wake_workers(num_tasks: u64, num_cpu: usize) -> (w: WakeWorkers)
    ensures
        w == (WakeWorkers { remaining: num_tasks, next_cpu: 1, num_cpu }),
{
    WakeWorkers { remaining: num_tasks, next_cpu: 1, num_cpu }
}

impl WakeWorkers {
    /// The next CPU to try to wake, or `None` when done.
    pub fn next(&self) -> (r: Option<usize>)
        ensures
            r == (if self.next_cpu < self.num_cpu && self.remaining != 0 { Some(self.next_cpu) } else { None }),
    {
        if self.next_cpu < self.num_cpu && self.remaining != 0 {
            Some(self.next_cpu)
        } else {
            None
        }
    }

    /// Records whether the CPU returned by `next` was woken.
    pub fn record(&mut self, woken: bool)
        requires
            old(self).next_cpu < old(self).num_cpu,
            old(self).remaining != 0,
        ensures
            final(self).next_cpu == old(self).next_cpu + 1,
            final(self).num_cpu == old(self).num_cpu,
            final(self).remaining == (if woken { (old(self).remaining - 1) as u64 } else { old(self).remaining }),
    {
        if woken {
            self.remaining = self.remaining - 1;
        }
        self.next_cpu = self.next_cpu + 1;
    }
}


/// Information of a task handed out by a run queue: a preempted task no
/// longer needs preemption, and it runs when execution is ensured.
pub open spec fn spec_claim(info: TaskInfo, execution_ensured: bool) -> TaskInfo {
    let info1 = if info.state == State::Preempted { TaskInfo { need_preemption: false, ..info } } else { info };
    if execution_ensured { TaskInfo { state: State::Running, ..info1 } } else { info1 }
}

/// A task handed out runs (state `Running`) when execution is ensured and
/// otherwise keeps its state; a preempted task no longer needs preemption;
/// nothing else of its information changes.
pub proof fn lemma_claim(info: TaskInfo, execution_ensured: bool)
    ensures
        spec_claim(info, execution_ensured).state == (if execution_ensured { State::Running } else { info.state }),
        spec_claim(info, execution_ensured).need_preemption
            == (if info.state == State::Preempted { false } else { info.need_preemption }),
        (TaskInfo {
            state: info.state,
            need_preemption: info.need_preemption,
            ..spec_claim(info, execution_ensured)
        }) == info,
{
}

/// A task popped from a run queue is skipped when it is gone, terminated or panicked.
pub open spec fn spec_claim_skips(rt: &Runtime, task_id: u32) -> bool {
    !rt.tasks.used(task_id)
        || rt.tasks.lookup(task_id).info.state == State::Terminated
        || rt.tasks.lookup(task_id).info.state == State::Panicked
}

/// A task taken from a run queue is skipped exactly when it no longer
/// exists or has terminated or panicked: a task that exists and is neither
/// terminated nor panicked is always handed out.
pub proof fn lemma_claim_skips(rt: &Runtime, task_id: u32)
    ensures
        spec_claim_skips(rt, task_id) <==> (!rt.tasks.used(task_id)
            || rt.tasks.lookup(task_id).info.state == State::Terminated
            || rt.tasks.lookup(task_id).info.state == State::Panicked),
{
}

/// Hands the task `task_id`, just popped from a run queue, to `cpu_id`.
/// Returns false (and changes nothing) when the task is skipped; otherwise
/// its information is updated by `spec_claim` and, when execution is
/// ensured, it becomes the current task of `cpu_id`.
pub fn claim_popped_task(rt: &mut Runtime, task_id: u32, cpu_id: usize, execution_ensured: bool) -> (r: bool)
    requires
        old(rt).wf(),
        cpu_id < old(rt).running().len(),
    ensures
        final(rt).wf(),
        r == !spec_claim_skips(old(rt), task_id),
        r == (old(rt).tasks.used(task_id)
            && old(rt).tasks.lookup(task_id).info.state != State::Terminated
            && old(rt).tasks.lookup(task_id).info.state != State::Panicked),
        final(rt).preemption_requests() == old(rt).preemption_requests(),
        final(rt).cpus() == old(rt).cpus(),
        final(rt).queued() == old(rt).queued(),
        final(rt).preemptions() == old(rt).preemptions(),
        forall|x: u32| final(rt).tasks.used(x) == old(rt).tasks.used(x),
        !r ==> final(rt).tasks@ == old(rt).tasks@ && final(rt).running() == old(rt).running(),
        r ==> {
            let i = old(rt).tasks.index_of(task_id);
            &&& final(rt).tasks@ == old(rt).tasks@.update(i, Task {
                    info: spec_claim(old(rt).tasks@[i].info, execution_ensured),
                    ..old(rt).tasks@[i]
                })
            &&& final(rt).running() == (if execution_ensured {
                    old(rt).running().update(cpu_id as int, task_id)
                } else {
                    old(rt).running()
                })
        },
{
    let i = match rt.tasks.find(task_id) {
        Some(i) => i,
        None => return false,
    };
    proof { rt.tasks.lemma_find_index(task_id, i as int); }
    let mut info = rt.tasks.at(i).info;
    if info.state == State::Terminated || info.state == State::Panicked {
        return false;
    }
    if info.state == State::Preempted {
        info.need_preemption = false;
    }
    if execution_ensured {
        info.state = State::Running;
    }
    rt.tasks.set_info(i, info);
    if execution_ensured {
        rt.running.set(cpu_id, task_id);
    }
    proof {
        assert(rt.tasks@ =~= old(rt).tasks@.update(i as int, Task {
            info: spec_claim(old(rt).tasks@[i as int].info, execution_ensured),
            ..old(rt).tasks@[i as int]
        }));
    }
    true
}


/// Adds a task to the table and wakes it up (see `Tasks::spawn` and `wake`).
/// `None` when every nonzero ID is in use.
pub fn spawn_with_ids(
    rt: &mut Runtime,
    name: String,
    sched_type: SchedulerType,
    dag_info: Option<DagInfo>,
    now: u64,
    trace_task_id: u32,
) -> (r: Option<(SpawnedTask, WakeAction)>)
    requires
        old(rt).wf(),
    ensures
        final(rt).wf(),
        final(rt).running() == old(rt).running(),
        final(rt).preemption_requests() == old(rt).preemption_requests(),
        final(rt).cpus() == old(rt).cpus(),
        r is None ==> final(rt).tasks@ == old(rt).tasks@ && forall|x: u32| x != 0 ==> old(rt).tasks.used(x),
        r matches Some((sp, a)) ==> {
            &&& !old(rt).tasks.used(sp.runtime_task_id)
            &&& sp.runtime_task_id != 0
            &&& sp.trace_task_id == trace_task_id
            &&& final(rt).tasks.used(sp.runtime_task_id)
            &&& a == WakeAction::Enqueue(sched_type)
            &&& final(rt).tasks@.len() == old(rt).tasks@.len() + 1
            &&& final(rt).tasks@.last().id == sp.runtime_task_id
            &&& final(rt).tasks@.last().info.trace_task_id == trace_task_id
            &&& final(rt).tasks@.last().info.state == State::Runnable
            &&& final(rt).tasks@.last().name@ == name@
            &&& final(rt).tasks@.last().scheduler == sched_type
            &&& final(rt).tasks@.last().info.scheduler_type == sched_type
            &&& final(rt).tasks@.last().priority.priority
                == spec_combine_priority(spec_get_priority(sched_type), spec_task_priority(sched_type))
            &&& final(rt).queued() == spec_queued_after(old(rt).queued(), Some(a))
        },
{
    let ghost nv = name@;
    let spawned = match rt.tasks.spawn(name, sched_type, dag_info, now, trace_task_id) {
        Some(sp) => sp,
        None => return None,
    };
    let ghost mid = rt.tasks@;
    proof {
        rt.tasks.lemma_find_index(spawned.runtime_task_id, (mid.len() - 1) as int);
    }
    let a = wake(rt, spawned.runtime_task_id);
    match a {
        Some(a) => Some((spawned, a)),
        None => None,
    }
}

/// Marks the task running on `cpu_id` as panicked (its scheduler type
/// becomes `Panicked`). Returns true when there was such a task, in which case
/// the caller invokes a preemption.
pub fn panicking(rt: &mut Runtime, cpu_id: usize) -> (r: bool)
    requires
        old(rt).wf(),
        cpu_id < old(rt).running().len(),
    ensures
        final(rt).wf(),
        final(rt).running() == old(rt).running(),
        final(rt).preemption_requests() == old(rt).preemption_requests(),
        final(rt).cpus() == old(rt).cpus(),
        final(rt).queued() == old(rt).queued(),
        forall|x: u32| final(rt).tasks.used(x) == old(rt).tasks.used(x),
        r == (old(rt).running()[cpu_id as int] != 0 && old(rt).tasks.used(old(rt).running()[cpu_id as int])),
        r ==> {
            let i = old(rt).tasks.index_of(old(rt).running()[cpu_id as int]);
            final(rt).tasks@ == old(rt).tasks@.update(i, Task {
                info: TaskInfo { scheduler_type: SchedulerType::Panicked, panicked: true, ..old(rt).tasks@[i].info },
                ..old(rt).tasks@[i]
            })
        },
        !r ==> final(rt).tasks@ == old(rt).tasks@,
{
    let task_id = match get_current_task(rt, cpu_id) {
        Some(id) => id,
        None => return false,
    };
    match rt.tasks.find(task_id) {
        Some(i) => {
            proof { rt.tasks.lemma_find_index(task_id, i as int); }
            let mut info = rt.tasks.at(i).info;
            info.scheduler_type = SchedulerType::Panicked;
            info.panicked = true;
            rt.tasks.set_info(i, info);
            proof {
                assert(rt.tasks@ =~= old(rt).tasks@.update(i as int, Task {
                    info: TaskInfo { scheduler_type: SchedulerType::Panicked, panicked: true, ..old(rt).tasks@[i as int].info },
                    ..old(rt).tasks@[i as int]
                }));
            }
            true
        },
        None => false,
    }
}

/// Starts dispatching `task_id`, just chosen for `cpu_id` at `now`: the
/// preemption request of the CPU is cleared; when the task holds a saved
/// preemption context, the context is taken, the execution time updated, and
/// the context returned (the caller switches to it).
pub fn dispatch_preempted(rt: &mut Runtime, cpu_id: usize, task_id: u32, now: u64) -> (r: Option<u64>)
    requires
        old(rt).wf(),
        cpu_id < old(rt).running().len(),
    ensures
        final(rt).wf(),
        final(rt).running() == old(rt).running(),
        final(rt).preemption_requests() == old(rt).preemption_requests().update(cpu_id as int, false),
        final(rt).cpus() == old(rt).cpus(),
        final(rt).queued() == old(rt).queued(),
        forall|x: u32| final(rt).tasks.used(x) == old(rt).tasks.used(x),
        r == (if old(rt).tasks.used(task_id) { old(rt).tasks.lookup(task_id).info.thread } else { None }),
        r is None ==> final(rt).tasks@ == old(rt).tasks@,
        r is Some ==> {
            let i = old(rt).tasks.index_of(task_id);
            final(rt).tasks@ == old(rt).tasks@.update(i, Task {
                info: TaskInfo { thread: None, last_executed_time: now, ..old(rt).tasks@[i].info },
                ..old(rt).tasks@[i]
            })
        },
{
    rt.preemption_request.set(cpu_id, false);
    let i = match rt.tasks.find(task_id) {
        Some(i) => i,
        None => return None,
    };
    proof { rt.tasks.lemma_find_index(task_id, i as int); }
    let mut info = rt.tasks.at(i).info;
    match info.take_preempt_context() {
        Some(ctx) => {
            info.update_last_executed(now);
            rt.tasks.set_info(i, info);
            proof {
                assert(rt.tasks@ =~= old(rt).tasks@.update(i as int, Task {
                    info: TaskInfo { thread: None, last_executed_time: now, ..old(rt).tasks@[i as int].info },
                    ..old(rt).tasks@[i as int]
                }));
            }
            Some(ctx)
        },
        None => None,
    }
}

/// The future of `task_id` is held by another CPU: `cpu_id` becomes idle
/// and the task is woken again to avoid starvation.
pub fn dispatch_busy(rt: &mut Runtime, cpu_id: usize, task_id: u32) -> (r: Option<WakeAction>)
    requires
        old(rt).wf(),
        cpu_id < old(rt).running().len(),
    ensures
        final(rt).wf(),
        final(rt).running() == old(rt).running().update(cpu_id as int, 0),
        final(rt).preemption_requests() == old(rt).preemption_requests(),
        final(rt).cpus() == old(rt).cpus(),
        final(rt).queued() == spec_queued_after(old(rt).queued(), r),
        forall|x: u32| final(rt).tasks.used(x) == old(rt).tasks.used(x),
        match old(rt).tasks.find_index(task_id) {
            Some(i) => {
                let (info, a) = spec_wake(old(rt).tasks@[i].info, old(rt).tasks@[i].scheduler);
                &&& r == Some(a)
                &&& final(rt).tasks@ == old(rt).tasks@.update(i, Task { info, ..old(rt).tasks@[i] })
            },
            None => r is None && final(rt).tasks@ == old(rt).tasks@,
        },
{
    set_current_task(rt, cpu_id, 0);
    wake(rt, task_id)
}

/// Last check before polling `task_id` on `cpu_id` at `now`: a gone,
/// terminated or panicked task is not run and the CPU becomes idle (false);
/// otherwise its execution time is updated and it becomes the CPU's current
/// task (true).
pub fn dispatch_run(rt: &mut Runtime, cpu_id: usize, task_id: u32, now: u64) -> (r: bool)
    requires
        old(rt).wf(),
        cpu_id < old(rt).running().len(),
    ensures
        final(rt).wf(),
        final(rt).preemption_requests() == old(rt).preemption_requests(),
        final(rt).cpus() == old(rt).cpus(),
        final(rt).queued() == old(rt).queued(),
        forall|x: u32| final(rt).tasks.used(x) == old(rt).tasks.used(x),
        r == !spec_claim_skips(old(rt), task_id),
        r == (old(rt).tasks.used(task_id)
            && old(rt).tasks.lookup(task_id).info.state != State::Terminated
            && old(rt).tasks.lookup(task_id).info.state != State::Panicked),
        !r ==> final(rt).tasks@ == old(rt).tasks@ && final(rt).running() == old(rt).running().update(cpu_id as int, 0),
        r ==> {
            let i = old(rt).tasks.index_of(task_id);
            &&& final(rt).tasks@ == old(rt).tasks@.update(i, Task {
                info: TaskInfo { last_executed_time: now, ..old(rt).tasks@[i].info },
                ..old(rt).tasks@[i]
            })
            &&& final(rt).running() == old(rt).running().update(cpu_id as int, task_id)
        },
{
    let i = match rt.tasks.find(task_id) {
        Some(i) => i,
        None => {
            set_current_task(rt, cpu_id, 0);
            return false;
        },
    };
    proof { rt.tasks.lemma_find_index(task_id, i as int); }
    let mut info = rt.tasks.at(i).info;
    if info.state == State::Terminated || info.state == State::Panicked {
        set_current_task(rt, cpu_id, 0);
        return false;
    }
    info.update_last_executed(now);
    rt.tasks.set_info(i, info);
    proof {
        assert(rt.tasks@ =~= old(rt).tasks@.update(i as int, Task {
            info: TaskInfo { last_executed_time: now, ..old(rt).tasks@[i as int].info },
            ..old(rt).tasks@[i as int]
        }));
    }
    set_current_task(rt, cpu_id, task_id);
    true
}

/// Result of polling a task's future once.
#[derive(Debug, Clone, Copy, PartialEq, Eq, Structural)]
pub enum PollOutcome {
    /// The future is not finished.
    Pending,
    /// The future finished.
    Ready,
    /// The future panicked.
    Panicked,
}

/// What happens after a task was polled.
#[derive(Debug, Clone, Copy, PartialEq, Eq, Structural)]
pub enum PollFinish {
    /// The task waits; it was woken while running when `Some` (the action).
    Waiting(Option<WakeAction>),
    /// The task terminated and was removed; `Some(trace id)` the first time
    /// its completion is reported.
    Terminated(Option<u32>),
    /// The task panicked and was removed.
    Panicked,
}

/// What finishing a poll of `task_id` on `cpu_id` with `outcome` does to
/// the runtime, with result `r` (see `finish_poll`).
pub open spec fn poll_finished(before: Runtime, after: Runtime, cpu_id: usize, task_id: u32, outcome: PollOutcome, r: PollFinish) -> bool {
    &&& after.wf()
    &&& after.running() == before.running().update(cpu_id as int, 0)
    &&& after.preemption_requests() == before.preemption_requests()
    &&& after.cpus() == before.cpus()
    &&& ({
        let i = before.tasks.index_of(task_id);
        let info = before.tasks@[i].info;
        match outcome {
            PollOutcome::Pending => {
                let waiting = TaskInfo { state: State::Waiting, need_sched: false, ..info };
                if info.need_sched {
                    let (woken, a) = spec_wake(waiting, before.tasks@[i].scheduler);
                    &&& r == PollFinish::Waiting(Some(a))
                    &&& after.tasks@ == before.tasks@.update(i, Task { info: woken, ..before.tasks@[i] })
                    &&& after.queued() == spec_queued_after(before.queued(), Some(a))
                } else {
                    &&& r == PollFinish::Waiting(None)
                    &&& after.tasks@ == before.tasks@.update(i, Task { info: waiting, ..before.tasks@[i] })
                    &&& after.queued() == before.queued()
                }
            },
            PollOutcome::Ready => {
                &&& r == PollFinish::Terminated(if info.completion_trace_recorded { None } else { Some(info.trace_task_id) })
                &&& after.tasks@ == before.tasks@.remove(i)
                &&& after.queued() == before.queued()
            },
            PollOutcome::Panicked => {
                &&& r == PollFinish::Panicked
                &&& after.tasks@ == before.tasks@.remove(i)
                &&& after.queued() == before.queued()
            },
        }
    })
}

/// Finishes a poll of `task_id` on `cpu_id`: the CPU becomes idle; a pending
/// task waits (and is woken again if it was woken while running); a finished
/// task terminates and a panicked one is marked panicked, and both leave the
/// task table.
pub fn finish_poll(rt: &mut Runtime, cpu_id: usize, task_id: u32, outcome: PollOutcome) -> (r: PollFinish)
    requires
        old(rt).wf(),
        cpu_id < old(rt).running().len(),
        old(rt).running()[cpu_id as int] == task_id,
        old(rt).tasks.used(task_id),
    ensures
        poll_finished(*old(rt), *final(rt), cpu_id, task_id, outcome, r),
{
    set_current_task(rt, cpu_id, 0);
    let i = rt.tasks.find(task_id).unwrap();
    proof { rt.tasks.lemma_find_index(task_id, i as int); }
    let mut info = rt.tasks.at(i).info;
    match outcome {
        PollOutcome::Pending => {
            info.state = State::Waiting;
            if info.need_sched {
                info.need_sched = false;
                rt.tasks.set_info(i, info);
                proof { rt.tasks.lemma_find_index(task_id, i as int); }
                let a = wake(rt, task_id);
                proof {
                    let waiting = TaskInfo { state: State::Waiting, need_sched: false, ..old(rt).tasks@[i as int].info };
                    assert(info == waiting);
                    let (woken, _) = spec_wake(waiting, old(rt).tasks@[i as int].scheduler);
                    assert(rt.tasks@ =~= old(rt).tasks@.update(i as int, Task { info: woken, ..old(rt).tasks@[i as int] }));
                }
                PollFinish::Waiting(a)
            } else {
                rt.tasks.set_info(i, info);
                proof {
                    assert(rt.tasks@ =~= old(rt).tasks@.update(i as int, Task { info, ..old(rt).tasks@[i as int] }));
                }
                PollFinish::Waiting(None)
            }
        },
        PollOutcome::Ready => {
            let trace = if info.completion_trace_recorded { None } else { Some(info.trace_task_id) };
            rt.tasks.remove(task_id);
            PollFinish::Terminated(trace)
        },
        PollOutcome::Panicked => {
            rt.tasks.remove(task_id);
            PollFinish::Panicked
        },
    }
}

} // verus!
