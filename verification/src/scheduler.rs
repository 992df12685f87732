//! Scheduler kinds, their preemption priorities, and the decisions shared by
//! the priority-based schedulers: choosing the CPU to preempt and keeping the
//! tasks that wait for a preemption IPI.
use vstd::prelude::*;
use crate::task::{Runtime, set_need_preemption, Task, TaskInfo};

verus! {

/// Type of scheduler. `u8` is the priority of priority based schedulers
/// (0 is the lowest, 31 the highest); `u64` is GEDF's relative deadline.
#[derive(Debug, Clone, Copy, PartialEq, Eq, Structural)]
pub enum SchedulerType {
    GEDF(u64),
    PrioritizedFIFO(u8),
    PrioritizedRR(u8),
    Panicked,
}

/// Index of the kind of `t` in the preemption priority list
/// (GEDF, PrioritizedFIFO, PrioritizedRR, Panicked).
pub open spec fn priority_list_index(t: SchedulerType) -> nat {
    match t {
        SchedulerType::GEDF(_) => 0,
        SchedulerType::PrioritizedFIFO(_) => 1,
        SchedulerType::PrioritizedRR(_) => 2,
        SchedulerType::Panicked => 3,
    }
}

/// The two values are of the same scheduler kind, whatever their parameters.
pub open spec fn same_kind(a: SchedulerType, b: SchedulerType) -> bool {
    priority_list_index(a) == priority_list_index(b)
}

/// Number of registered scheduler kinds.
pub const NUM_SCHEDULER_KINDS: usize = 4;

/// The kind registered at position `index` of the preemption priority list.
pub fn priority_list(index: usize) -> (t: SchedulerType)
    requires
        index < NUM_SCHEDULER_KINDS,
    ensures
        priority_list_index(t) == index,
        t == SchedulerType::GEDF(0) || t == SchedulerType::PrioritizedFIFO(0)
            || t == SchedulerType::PrioritizedRR(0) || t == SchedulerType::Panicked,
{
    if index == 0 {
        SchedulerType::GEDF(0)
    } else if index == 1 {
        SchedulerType::PrioritizedFIFO(0)
    } else if index == 2 {
        SchedulerType::PrioritizedRR(0)
    } else {
        SchedulerType::Panicked
    }
}

impl SchedulerType {
    /// True when both values are of the same scheduler kind.
    pub fn equals(&self, other: &Self) -> (b: bool)
        ensures
            b == same_kind(*self, *other),
    {
        match (self, other) {
            (SchedulerType::GEDF(_), SchedulerType::GEDF(_)) => true,
            (SchedulerType::PrioritizedFIFO(_), SchedulerType::PrioritizedFIFO(_)) => true,
            (SchedulerType::PrioritizedRR(_), SchedulerType::PrioritizedRR(_)) => true,
            (SchedulerType::Panicked, SchedulerType::Panicked) => true,
            _ => false,
        }
    }

    /// Name of the scheduler object serving this kind: the kind with a zero parameter.
    pub fn kind(&self) -> (t: SchedulerType)
        ensures
            same_kind(t, *self),
            t == priority_list_kind(*self),
    {
        match self {
            SchedulerType::GEDF(_) => SchedulerType::GEDF(0),
            SchedulerType::PrioritizedFIFO(_) => SchedulerType::PrioritizedFIFO(0),
            SchedulerType::PrioritizedRR(_) => SchedulerType::PrioritizedRR(0),
            SchedulerType::Panicked => SchedulerType::Panicked,
        }
    }
}

/// The kind of `t` with its parameter set to zero.
pub open spec fn priority_list_kind(t: SchedulerType) -> SchedulerType {
    match t {
        SchedulerType::GEDF(_) => SchedulerType::GEDF(0),
        SchedulerType::PrioritizedFIFO(_) => SchedulerType::PrioritizedFIFO(0),
        SchedulerType::PrioritizedRR(_) => SchedulerType::PrioritizedRR(0),
        SchedulerType::Panicked => SchedulerType::Panicked,
    }
}

/// Preemption priority of a scheduler kind: GEDF is highest (3), then
/// PrioritizedFIFO (2), PrioritizedRR (1) and Panicked (0).
pub open spec fn spec_get_priority(t: SchedulerType) -> u8 {
    (3 - priority_list_index(t)) as u8
}

/// Preemption priority of the scheduler serving `sched_type`: its distance
/// from the end of the priority list.
pub fn get_priority(sched_type: SchedulerType) -> (p: u8)
    ensures
        p == spec_get_priority(sched_type),
{
    let mut index: usize = 0;
    while index < NUM_SCHEDULER_KINDS
        invariant
            index <= NUM_SCHEDULER_KINDS,
            index <= priority_list_index(sched_type),
        decreases NUM_SCHEDULER_KINDS - index,
    {
        if priority_list(index).equals(&sched_type) {
            return (NUM_SCHEDULER_KINDS - 1 - index) as u8;
        }
        index += 1;
    }
    proof {
        assert(priority_list_index(sched_type) < 4);
        assert(false);
    }
    0
}

/// Scheduling order of tasks: a task is greater when its combined priority is
/// higher, and among equal priorities when its ID is higher.
#[derive(Debug, Clone, Copy, PartialEq, Eq, Structural)]
pub struct TaskKey {
    pub priority: u64,
    pub id: u32,
}

/// `a` orders strictly before `b`.
pub open spec fn key_lt(a: TaskKey, b: TaskKey) -> bool {
    a.priority < b.priority || (a.priority == b.priority && a.id < b.id)
}

/// `a` orders before or equal to `b`.
pub open spec fn key_le(a: TaskKey, b: TaskKey) -> bool {
    key_lt(a, b) || a == b
}

/// Compares two task keys: true when `a` is strictly less than `b`.
pub fn key_less(a: TaskKey, b: TaskKey) -> (r: bool)
    ensures
        r == key_lt(a, b),
{
    a.priority < b.priority || (a.priority == b.priority && a.id < b.id)
}

/// The greater of two keys; the second one when they are equal.
pub fn key_max(a: TaskKey, b: TaskKey) -> (r: TaskKey)
    ensures
        r == (if key_lt(b, a) { a } else { b }),
        key_le(a, r) && key_le(b, r),
{
    if key_less(b, a) { a } else { b }
}


/// Every key of `s` orders at or before `k`.
pub open spec fn is_upper_bound(s: Seq<TaskKey>, k: TaskKey) -> bool {
    forall|j: int| 0 <= j < s.len() ==> key_le(#[trigger] s[j], k)
}

/// Index of the first greatest key of a nonempty sequence.
pub open spec fn first_max_index(s: Seq<TaskKey>) -> int
    decreases s.len(),
{
    if s.len() <= 1 {
        0
    } else {
        let j = first_max_index(s.drop_last());
        if key_lt(s[j], s.last()) { (s.len() - 1) as int } else { j }
    }
}

pub proof fn lemma_first_max_index(s: Seq<TaskKey>)
    requires
        s.len() > 0,
    ensures
        0 <= first_max_index(s) < s.len(),
        is_upper_bound(s, s[first_max_index(s)]),
    decreases s.len(),
{
    if s.len() > 1 {
        lemma_first_max_index(s.drop_last());
        let j = first_max_index(s.drop_last());
        assert forall|k: int| 0 <= k < s.len() implies key_le(#[trigger] s[k], s[first_max_index(s)]) by {
            if k < s.len() - 1 {
                assert(s.drop_last()[k] == s[k]);
            }
        }
    }
}

/// Index of the first greatest key of `v`.
pub fn max_key_index(v: &Vec<TaskKey>) -> (i: usize)
    requires
        v@.len() > 0,
    ensures
        i < v@.len(),
        i == first_max_index(v@),
        is_upper_bound(v@, v@[i as int]),
{
    proof { lemma_first_max_index(v@); }
    let mut best: usize = 0;
    let mut k: usize = 1;
    while k < v.len()
        invariant
            1 <= k <= v@.len(),
            best < k,
            best == first_max_index(v@.subrange(0, k as int)),
        decreases v@.len() - k,
    {
        proof {
            let s = v@.subrange(0, (k + 1) as int);
            assert(s.drop_last() =~= v@.subrange(0, k as int));
            assert(s[best as int] == v@[best as int]);
            assert(s.last() == v@[k as int]);
        }
        if key_less(v[best], v[k]) {
            best = k;
        }
        k += 1;
    }
    assert(v@.subrange(0, v@.len() as int) =~= v@);
    best
}

/// Tasks waiting, per destination CPU, for the preemption IPI they requested.
pub struct PreemptionPending {
    pub heaps: Vec<Vec<TaskKey>>,
}

impl PreemptionPending {
    pub open spec fn view(&self) -> Seq<Seq<TaskKey>> {
        Seq::new(self.heaps@.len(), |i: int| self.heaps@[i]@)
    }

    /// Empty waiting lists for `max_cpu` CPUs.
    pub fn new(max_cpu: usize) -> (p: PreemptionPending)
        ensures
            p@.len() == max_cpu,
            forall|i: int| 0 <= i < max_cpu ==> p@[i].len() == 0,
    {
        let mut heaps: Vec<Vec<TaskKey>> = Vec::new();
        let mut i: usize = 0;
        while i < max_cpu
            invariant
                i <= max_cpu,
                heaps@.len() == i,
                forall|j: int| 0 <= j < i ==> heaps@[j]@.len() == 0,
            decreases max_cpu - i,
        {
            heaps.push(Vec::new());
            i += 1;
        }
        PreemptionPending { heaps }
    }
}

/// Moves the waiting list of `cpu_id` out, leaving it empty.
fn take_heap(p: &mut PreemptionPending, cpu_id: usize) -> (h: Vec<TaskKey>)
    requires
        cpu_id < old(p)@.len(),
    ensures
        h@ == old(p)@[cpu_id as int],
        final(p)@ == old(p)@.update(cpu_id as int, Seq::<TaskKey>::empty()),
{
    assert(p.heaps@.len() == p@.len());
    let mut h: Vec<TaskKey> = Vec::new();
    std::mem::swap(&mut h, &mut p.heaps[cpu_id]);
    proof {
        assert(p@ =~= old(p)@.update(cpu_id as int, Seq::<TaskKey>::empty()));
    }
    h
}

/// Stores `h` as the waiting list of `cpu_id`.
fn put_heap(p: &mut PreemptionPending, cpu_id: usize, h: Vec<TaskKey>)
    requires
        cpu_id < old(p)@.len(),
    ensures
        final(p)@ == old(p)@.update(cpu_id as int, h@),
{
    assert(p.heaps@.len() == p@.len());
    let ghost hv = h@;
    p.heaps.set(cpu_id, h);
    proof {
        assert forall|j: int| 0 <= j < p@.len() implies #[trigger] p@[j] == old(p)@.update(cpu_id as int, hv)[j] by {
            if j != cpu_id as int {
                assert(p.heaps@[j] == old(p).heaps@[j]);
            }
        }
        assert(p@ =~= old(p)@.update(cpu_id as int, hv));
    }
}

/// The highest-priority task waiting for `cpu_id`, if any.
pub fn peek_preemption_pending(p: &PreemptionPending, cpu_id: usize) -> (r: Option<TaskKey>)
    requires
        cpu_id < p@.len(),
    ensures
        p@[cpu_id as int].len() == 0 ==> r is None,
        p@[cpu_id as int].len() > 0 ==> r == Some(p@[cpu_id as int][first_max_index(p@[cpu_id as int])]),
{
    let heap = &p.heaps[cpu_id];
    if heap.len() == 0 {
        None
    } else {
        let i = max_key_index(heap);
        Some(heap[i])
    }
}

/// Adds `task` to the tasks waiting for `cpu_id`.
pub fn push_preemption_pending(p: &mut PreemptionPending, cpu_id: usize, task: TaskKey)
    requires
        cpu_id < old(p)@.len(),
    ensures
        final(p)@ == old(p)@.update(cpu_id as int, old(p)@[cpu_id as int].push(task)),
{
    let mut heap = take_heap(p, cpu_id);
    heap.push(task);
    put_heap(p, cpu_id, heap);
    proof {
        assert(p@ =~= old(p)@.update(cpu_id as int, old(p)@[cpu_id as int].push(task)));
    }
}

/// Removes and returns the highest-priority task waiting for `cpu_id`.
pub fn pop_preemption_pending(p: &mut PreemptionPending, cpu_id: usize) -> (r: Option<TaskKey>)
    requires
        cpu_id < old(p)@.len(),
    ensures
        old(p)@[cpu_id as int].len() == 0 ==> r is None && final(p)@ == old(p)@,
        old(p)@[cpu_id as int].len() > 0 ==> {
            let s = old(p)@[cpu_id as int];
            let i = first_max_index(s);
            &&& r == Some(s[i])
            &&& final(p)@ == old(p)@.update(cpu_id as int, s.remove(i))
        },
{
    let mut heap = take_heap(p, cpu_id);
    assert(p.heaps@.len() == p@.len());
    if heap.len() == 0 {
        put_heap(p, cpu_id, heap);
        proof { assert(p@ =~= old(p)@); }
        return None;
    }
    let i = max_key_index(&heap);
    let k = heap.remove(i);
    put_heap(p, cpu_id, heap);
    proof {
        let s = old(p)@[cpu_id as int];
        assert(p@ =~= old(p)@.update(cpu_id as int, s.remove(i as int)));
    }
    Some(k)
}

/// Removes the task `task_id` from the tasks waiting for `cpu_id`.
pub fn remove_preemption_pending(p: &mut PreemptionPending, cpu_id: usize, task_id: u32)
    requires
        cpu_id < old(p)@.len(),
    ensures
        final(p)@ == old(p)@.update(cpu_id as int, old(p)@[cpu_id as int].filter(|k: TaskKey| k.id != task_id)),
{
    let heap = take_heap(p, cpu_id);
    assert(p.heaps@.len() == p@.len());
    let mut kept: Vec<TaskKey> = Vec::new();
    let mut i: usize = 0;
    while i < heap.len()
        invariant
            i <= heap@.len(),
            kept@ == heap@.subrange(0, i as int).filter(|k: TaskKey| k.id != task_id),
        decreases heap@.len() - i,
    {
        proof {
            let s = heap@.subrange(0, (i + 1) as int);
            assert(s.drop_last() =~= heap@.subrange(0, i as int));
            reveal(Seq::filter);
        }
        if heap[i].id != task_id {
            kept.push(heap[i]);
        }
        i += 1;
    }
    assert(heap@.subrange(0, heap@.len() as int) =~= heap@);
    put_heap(p, cpu_id, kept);
    proof {
        assert(p@ =~= old(p)@.update(cpu_id as int, old(p)@[cpu_id as int].filter(|k: TaskKey| k.id != task_id)));
    }
}

/// Takes all tasks waiting for `cpu_id`, leaving none.
pub fn move_preemption_pending(p: &mut PreemptionPending, cpu_id: usize) -> (r: Vec<TaskKey>)
    requires
        cpu_id < old(p)@.len(),
    ensures
        r@ == old(p)@[cpu_id as int],
        final(p)@ == old(p)@.update(cpu_id as int, Seq::<TaskKey>::empty()),
{
    let heap = take_heap(p, cpu_id);
    proof {
        assert(p@ =~= old(p)@.update(cpu_id as int, Seq::<TaskKey>::empty()));
    }
    heap
}


/// The highest-priority task waiting for `cpu`, if any.
pub open spec fn pending_top(p: Seq<Seq<TaskKey>>, cpu: int) -> Option<TaskKey> {
    if p[cpu].len() == 0 { None } else { Some(p[cpu][first_max_index(p[cpu])]) }
}

/// Key of the task running on `cpu`.
pub open spec fn running_key(rt: &Runtime, cpu: int) -> TaskKey {
    TaskKey { priority: rt.tasks.lookup(rt.running()[cpu]).priority.priority, id: rt.running()[cpu] }
}

/// The task a preemption of `cpu` is measured against: the greater of the
/// running task and the highest task already waiting for `cpu`.
pub open spec fn candidate_key(rt: &Runtime, p: Seq<Seq<TaskKey>>, cpu: int) -> TaskKey {
    let t = running_key(rt, cpu);
    match pending_top(p, cpu) {
        None => t,
        Some(h) => if key_lt(h, t) { t } else { h },
    }
}

/// CPU `cpu` is in use and runs a task.
pub open spec fn busy(rt: &Runtime, cpu: int) -> bool {
    0 <= cpu < rt.cpus() && rt.running()[cpu] != 0
}

/// `(a, ca)` orders strictly before `(b, cb)`: by key, then by CPU.
pub open spec fn pair_lt(a: TaskKey, ca: int, b: TaskKey, cb: int) -> bool {
    key_lt(a, b) || (a == b && ca < cb)
}

/// CPU `cpu` is busy and the task it runs is in the task table.
pub open spec fn known(rt: &Runtime, cpu: int) -> bool {
    busy(rt, cpu) && rt.tasks.used(rt.running()[cpu])
}

/// CPU `cpu` holds the least candidate among the busy CPUs whose running
/// task is in the task table.
pub open spec fn is_min_candidate(rt: &Runtime, p: Seq<Seq<TaskKey>>, cpu: int) -> bool {
    &&& known(rt, cpu)
    &&& forall|c: int| known(rt, c) && c != cpu ==> pair_lt(candidate_key(rt, p, cpu), cpu, candidate_key(rt, p, c), c)
}

/// When some CPU is busy and none of them runs `task_id`, the task table
/// holds at least one of the running tasks (else there is no task to
/// measure a preemption against).
pub open spec fn preemption_target_known(rt: &Runtime, task_id: u32) -> bool {
    (exists|c: int| busy(rt, c)) && (forall|c: int| busy(rt, c) ==> rt.running()[c] != task_id)
        ==> exists|c: int| known(rt, c)
}

/// What `invoke_preemption` does to the runtime and the pending preemptions
/// when asked to make room for `task`, with result `r`.
pub open spec fn invoked_preemption(before: Runtime, after: Runtime, before_p: Seq<Seq<TaskKey>>, after_p: Seq<Seq<TaskKey>>, task: TaskKey, r: Option<(u32, usize)>) -> bool {
    &&& after.wf()
    &&& after.running() == before.running()
    &&& after.cpus() == before.cpus()
    &&& after.queued() == before.queued()
    &&& after.preemptions() == before.preemptions()
    &&& forall|x: u32| after.tasks.used(x) == before.tasks.used(x)
    &&& (forall|c: int| !busy(&before, c)) ==> r is None
    &&& (exists|c: int| busy(&before, c) && before.running()[c] == task.id) ==> r is None
    &&& match r {
        None => after_p == before_p && after.tasks@ == before.tasks@
            && after.preemption_requests() == before.preemption_requests(),
        Some((id, cpu)) => {
            &&& is_min_candidate(&before, before_p, cpu as int)
            &&& id == candidate_key(&before, before_p, cpu as int).id
            &&& key_lt(candidate_key(&before, before_p, cpu as int), task)
            &&& forall|c: int| busy(&before, c) ==> before.running()[c] != task.id
            &&& after_p == before_p.update(cpu as int, before_p[cpu as int].push(task))
            &&& after.preemption_requests() == before.preemption_requests().update(cpu as int, true)
            &&& match before.tasks.find_index(id) {
                Some(i) => after.tasks@ == before.tasks@.update(i, Task {
                    info: TaskInfo { need_preemption: true, ..before.tasks@[i].info },
                    ..before.tasks@[i]
                }),
                None => after.tasks@ == before.tasks@,
            }
        }
    }
    &&& r is None && (exists|c: int| known(&before, c)) && (forall|c: int| busy(&before, c) ==> before.running()[c] != task.id)
        ==> exists|c: int| is_min_candidate(&before, before_p, c) && !key_lt(candidate_key(&before, before_p, c), task)
}

/// Decides whether waking `task` preempts a running task. Nothing happens
/// when no CPU is busy or `task` already runs. Otherwise the busy CPU with
/// the least candidate (see `candidate_key`) among those whose running task
/// is in the task table is the target; when `task` is
/// greater than that candidate, `task` waits for the target CPU, the
/// candidate is marked as needing preemption, and the candidate's ID and the
/// target CPU are returned (the caller sends the preemption IPI).
pub fn invoke_preemption(rt: &mut Runtime, p: &mut PreemptionPending, task: TaskKey) -> (r: Option<(u32, usize)>)
    requires
        old(rt).wf(),
        preemption_target_known(old(rt), task.id),
        old(p)@.len() == old(rt).running().len(),
    ensures
        invoked_preemption(*old(rt), *final(rt), old(p)@, final(p)@, task, r),
{
    let n = rt.num_cpu();
    // Is any CPU busy, and does the task already run?
    let mut any_busy = false;
    let mut c: usize = 0;
    while c < n
        invariant
            rt.wf(),
            n == rt.cpus(),
            c <= n,
            any_busy == exists|k: int| 0 <= k < c && busy(rt, k),
            forall|k: int| 0 <= k < c && busy(rt, k) ==> rt.running()[k] != task.id,
        decreases n - c,
    {
        let id = rt.running[c];
        if id != 0 {
            if id == task.id {
                assert(busy(rt, c as int));
                return None;
            }
            any_busy = true;
            assert(busy(rt, c as int));
        }
        assert((exists|k: int| 0 <= k < c + 1 && busy(rt, k)) == ((exists|k: int| 0 <= k < c && busy(rt, k)) || busy(rt, c as int))) by {
            if exists|k: int| 0 <= k < c + 1 && busy(rt, k) {
                let k = choose|k: int| 0 <= k < c + 1 && busy(rt, k);
                if k < c {
                    assert(exists|k: int| 0 <= k < c && busy(rt, k));
                }
            }
        }
        c += 1;
    }
    if !any_busy {
        return None;
    }
    // Find the least candidate.
    let mut best: Option<(TaskKey, usize)> = None;
    let mut c: usize = 0;
    while c < n
        invariant
            rt.wf(),
            p@.len() == rt.running().len(),
            n == rt.cpus(),
            c <= n,
            match best {
                None => forall|k: int| 0 <= k < c ==> !known(rt, k),
                Some((bk, bc)) => {
                    &&& bc < c
                    &&& known(rt, bc as int)
                    &&& bk == candidate_key(rt, p@, bc as int)
                    &&& forall|k: int| 0 <= k < c && known(rt, k) && k != bc ==> pair_lt(bk, bc as int, candidate_key(rt, p@, k), k)
                },
            },
        decreases n - c,
    {
        let id = rt.running[c];
        if id != 0 {
            assert(busy(rt, c as int));
            match rt.tasks.get(id) {
                Some(t) => {
                    let tk = t.key();
                    let top = peek_preemption_pending(p, c);
                    let cand = match top {
                        Some(h) => key_max(tk, h),
                        None => tk,
                    };
                    assert(cand == candidate_key(rt, p@, c as int));
                    match best {
                        None => {
                            best = Some((cand, c));
                        },
                        Some((bk, bc)) => {
                            if key_less(cand, bk) {
                                best = Some((cand, c));
                            }
                        },
                    }
                },
                None => {},
            }
        }
        c += 1;
    }
    let (target, target_cpu) = match best {
        Some(b) => b,
        None => {
            return None;
        },
    };
    if key_less(target, task) {
        push_preemption_pending(p, target_cpu, task);
        set_need_preemption(rt, target.id, target_cpu);
        Some((target.id, target_cpu))
    } else {
        assert(is_min_candidate(old(rt), old(p)@, target_cpu as int));
        None
    }
}

} // verus!
