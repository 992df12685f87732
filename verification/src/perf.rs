//! Per-CPU accounting of the time spent in each execution state.
//!
//! Every CPU is in one state (boot, kernel, task, context switch, interrupt
//! or idle). On each transition, the cycles spent since the previous
//! transition are added to the total of the state left, its count grows by
//! one and its worst case is updated; the cycles spent doing this accounting
//! are charged to the accounting itself. Sums wrap around on overflow.
use vstd::prelude::*;

verus! {

#[derive(Debug, Clone, Copy, PartialEq, Eq, Structural)]
pub enum PerfState {
    Boot,
    Kernel,
    Task,
    ContextSwitch,
    Interrupt,
    Idle,
}

/// Number of a state as stored per CPU.
pub open spec fn perf_state_code(s: PerfState) -> u8 {
    match s {
        PerfState::Boot => 0,
        PerfState::Kernel => 1,
        PerfState::Task => 2,
        PerfState::ContextSwitch => 3,
        PerfState::Interrupt => 4,
        PerfState::Idle => 5,
    }
}

impl PerfState {
    /// The state stored as `value`; `value` must be at most 5.
    pub fn from(value: u8) -> (s: PerfState)
        requires
            value <= 5,
        ensures
            perf_state_code(s) == value,
    {
        if value == 0 {
            PerfState::Boot
        } else if value == 1 {
            PerfState::Kernel
        } else if value == 2 {
            PerfState::Task
        } else if value == 3 {
            PerfState::ContextSwitch
        } else if value == 4 {
            PerfState::Interrupt
        } else {
            PerfState::Idle
        }
    }

    /// The number the state is stored as.
    pub fn code(&self) -> (v: u8)
        ensures
            v == perf_state_code(*self),
    {
        match self {
            PerfState::Boot => 0,
            PerfState::Kernel => 1,
            PerfState::Task => 2,
            PerfState::ContextSwitch => 3,
            PerfState::Interrupt => 4,
            PerfState::Idle => 5,
        }
    }
}

/// Total, count and worst case of the cycles spent in one state.
#[derive(Debug, Clone, Copy, PartialEq, Eq, Structural)]
pub struct PerfCounter {
    pub time: u64,
    pub count: u64,
    pub wcet: u64,
}

/// The counter after charging `diff` cycles to it.
pub open spec fn spec_charge(c: PerfCounter, diff: u64) -> PerfCounter {
    PerfCounter {
        time: c.time.wrapping_add(diff),
        count: c.count.wrapping_add(1),
        wcet: if c.wcet >= diff { c.wcet } else { diff },
    }
}

impl PerfCounter {
    pub fn new() -> (c: PerfCounter)
        ensures
            c == (PerfCounter { time: 0, count: 0, wcet: 0 }),
    {
        PerfCounter { time: 0, count: 0, wcet: 0 }
    }

    /// Charges `diff` cycles.
    pub fn charge(&mut self, diff: u64)
        ensures
            *final(self) == spec_charge(*old(self), diff),
    {
        self.time = self.time.wrapping_add(diff);
        self.count = self.count.wrapping_add(1);
        if self.wcet < diff {
            self.wcet = diff;
        }
    }
}

/// Accounting of one CPU.
#[derive(Debug, Clone, Copy, PartialEq, Eq, Structural)]
pub struct PerfCpu {
    pub state: PerfState,
    pub start_time: u64,
    pub kernel: PerfCounter,
    pub task: PerfCounter,
    pub interrupt: PerfCounter,
    pub context_switch: PerfCounter,
    pub idle: PerfCounter,
    pub perf: PerfCounter,
}

/// The accounting of one CPU after a transition to `next`, where `end` is
/// the cycle counter at the transition and `cnt` when the accounting is done.
pub open spec fn spec_update(c: PerfCpu, next: PerfState, end: u64, cnt: u64) -> PerfCpu {
    if c.state == next {
        c
    } else {
        let charged = if c.start_time > 0 && c.start_time <= end {
            spec_charge_state(c, (end - c.start_time) as u64)
        } else {
            c
        };
        let overhead = cnt.wrapping_sub(end);
        PerfCpu { perf: spec_charge(charged.perf, overhead), start_time: cnt, state: next, ..charged }
    }
}

/// Charges `diff` cycles to the current state of the CPU.
pub open spec fn spec_charge_state(c: PerfCpu, diff: u64) -> PerfCpu {
    match c.state {
        PerfState::Kernel => PerfCpu { kernel: spec_charge(c.kernel, diff), ..c },
        PerfState::Task => PerfCpu { task: spec_charge(c.task, diff), ..c },
        PerfState::Interrupt => PerfCpu { interrupt: spec_charge(c.interrupt, diff), ..c },
        PerfState::ContextSwitch => PerfCpu { context_switch: spec_charge(c.context_switch, diff), ..c },
        PerfState::Idle => PerfCpu { idle: spec_charge(c.idle, diff), ..c },
        PerfState::Boot => c,
    }
}

/// `after` is `before` with `diff` cycles charged to the counter of the state
/// `before` is in and to no other: the counters of the other states, the
/// accounting overhead, the state and its start time are unchanged (in the
/// boot state nothing is charged).
pub open spec fn charged_only_current(before: PerfCpu, after: PerfCpu, diff: u64) -> bool {
    &&& after.state == before.state
    &&& after.start_time == before.start_time
    &&& after.perf == before.perf
    &&& after.kernel == (if before.state == PerfState::Kernel { spec_charge(before.kernel, diff) } else { before.kernel })
    &&& after.task == (if before.state == PerfState::Task { spec_charge(before.task, diff) } else { before.task })
    &&& after.interrupt == (if before.state == PerfState::Interrupt { spec_charge(before.interrupt, diff) } else { before.interrupt })
    &&& after.context_switch == (if before.state == PerfState::ContextSwitch {
            spec_charge(before.context_switch, diff)
        } else {
            before.context_switch
        })
    &&& after.idle == (if before.state == PerfState::Idle { spec_charge(before.idle, diff) } else { before.idle })
}

/// Charging a CPU charges the counter of its current state and leaves every
/// other counter as it was.
pub proof fn lemma_charge_state_only_current(c: PerfCpu, diff: u64)
    ensures
        charged_only_current(c, spec_charge_state(c, diff), diff),
{
}

/// A transition away from the current state charges the cycles spent since
/// the state's start (`end` minus the start time, when the start time is set
/// and not after `end`) to the counter of the state being left and to no
/// other, charges the accounting overhead (`cnt` minus `end`) to the overhead
/// counter, and starts the new state at `cnt`. A transition to the current
/// state changes nothing.
pub proof fn lemma_update_charges_left_state(c: PerfCpu, next: PerfState, end: u64, cnt: u64)
    ensures
        c.state == next ==> spec_update(c, next, end, cnt) == c,
        c.state != next ==> ({
            let n = spec_update(c, next, end, cnt);
            let diff: u64 = if 0 < c.start_time <= end { (end - c.start_time) as u64 } else { 0 };
            let charged = PerfCpu { perf: c.perf, start_time: c.start_time, state: c.state, ..n };
            &&& n.state == next
            &&& n.start_time == cnt
            &&& n.perf == spec_charge(c.perf, cnt.wrapping_sub(end))
            &&& 0 < c.start_time <= end ==> charged_only_current(c, charged, diff)
            &&& !(0 < c.start_time <= end) ==> charged == c
        }),
{
    lemma_charge_state_only_current(c, if 0 < c.start_time <= end { (end - c.start_time) as u64 } else { 0 });
}

/// Charges `diff` cycles to the current state of the CPU.
fn charge_state(c: &mut PerfCpu, diff: u64)
    ensures
        *final(c) == spec_charge_state(*old(c), diff),
        charged_only_current(*old(c), *final(c), diff),
{
    match c.state {
        PerfState::Kernel => c.kernel.charge(diff),
        PerfState::Task => c.task.charge(diff),
        PerfState::Interrupt => c.interrupt.charge(diff),
        PerfState::ContextSwitch => c.context_switch.charge(diff),
        PerfState::Idle => c.idle.charge(diff),
        PerfState::Boot => {},
    }
}

impl PerfCpu {
    /// A CPU in the boot state with every counter at zero.
    pub open spec fn initial() -> PerfCpu {
        let z = PerfCounter { time: 0, count: 0, wcet: 0 };
        PerfCpu { state: PerfState::Boot, start_time: 0, kernel: z, task: z, interrupt: z, context_switch: z, idle: z, perf: z }
    }

    pub fn new() -> (c: PerfCpu)
        ensures
            c == PerfCpu::initial(),
    {
        PerfCpu {
            state: PerfState::Boot,
            start_time: 0,
            kernel: PerfCounter::new(),
            task: PerfCounter::new(),
            interrupt: PerfCounter::new(),
            context_switch: PerfCounter::new(),
            idle: PerfCounter::new(),
            perf: PerfCounter::new(),
        }
    }
}

/// Moves the CPU's accounting to `next_state` (see `spec_update`).
pub fn update_time_and_state(c: &mut PerfCpu, next_state: PerfState, end: u64, cnt: u64)
    ensures
        *final(c) == spec_update(*old(c), next_state, end, cnt),
{
    if c.state == next_state {
        return;
    }
    let start = c.start_time;
    if start > 0 && start <= end {
        let diff = end - start;
        charge_state(c, diff);
    }
    c.perf.charge(cnt.wrapping_sub(end));
    c.start_time = cnt;
    c.state = next_state;
}

/// Accounting of all CPUs.
pub struct PerfTable {
    pub cpus: Vec<PerfCpu>,
}

impl PerfTable {
    pub open spec fn view(&self) -> Seq<PerfCpu> {
        self.cpus@
    }

    /// Accounting for `num_cpu` CPUs, all in the boot state.
    pub fn new(num_cpu: usize) -> (t: PerfTable)
        ensures
            t@.len() == num_cpu,
            forall|i: int| 0 <= i < num_cpu ==> t@[i] == PerfCpu::initial(),
    {
        let mut cpus: Vec<PerfCpu> = Vec::new();
        let mut i: usize = 0;
        while i < num_cpu
            invariant
                i <= num_cpu,
                cpus@.len() == i,
                forall|k: int| 0 <= k < i ==> cpus@[k] == PerfCpu::initial(),
            decreases num_cpu - i,
        {
            cpus.push(PerfCpu::new());
            i += 1;
        }
        PerfTable { cpus }
    }
}

fn update_cpu(t: &mut PerfTable, cpu_id: usize, next: PerfState, end: u64, cnt: u64)
    requires
        cpu_id < old(t)@.len(),
    ensures
        final(t)@ == old(t)@.update(cpu_id as int, spec_update(old(t)@[cpu_id as int], next, end, cnt)),
{
    let mut c = t.cpus[cpu_id];
    update_time_and_state(&mut c, next, end, cnt);
    t.cpus.set(cpu_id, c);
}

/// `cpu_id` enters the kernel.
pub fn start_kernel(t: &mut PerfTable, cpu_id: usize, end: u64, cnt: u64)
    requires
        cpu_id < old(t)@.len(),
    ensures
        final(t)@ == old(t)@.update(cpu_id as int, spec_update(old(t)@[cpu_id as int], PerfState::Kernel, end, cnt)),
{
    update_cpu(t, cpu_id, PerfState::Kernel, end, cnt);
}

/// `cpu_id` starts running a task.
pub fn start_task(t: &mut PerfTable, cpu_id: usize, end: u64, cnt: u64)
    requires
        cpu_id < old(t)@.len(),
    ensures
        final(t)@ == old(t)@.update(cpu_id as int, spec_update(old(t)@[cpu_id as int], PerfState::Task, end, cnt)),
{
    update_cpu(t, cpu_id, PerfState::Task, end, cnt);
}

/// `cpu_id` enters an interrupt handler; returns the state it left.
pub fn start_interrupt(t: &mut PerfTable, cpu_id: usize, end: u64, cnt: u64) -> (prev: PerfState)
    requires
        cpu_id < old(t)@.len(),
    ensures
        prev == old(t)@[cpu_id as int].state,
        final(t)@ == old(t)@.update(cpu_id as int, spec_update(old(t)@[cpu_id as int], PerfState::Interrupt, end, cnt)),
{
    let prev = t.cpus[cpu_id].state;
    update_cpu(t, cpu_id, PerfState::Interrupt, end, cnt);
    prev
}

/// `cpu_id` switches contexts.
pub fn start_context_switch(t: &mut PerfTable, cpu_id: usize, end: u64, cnt: u64)
    requires
        cpu_id < old(t)@.len(),
    ensures
        final(t)@ == old(t)@.update(cpu_id as int, spec_update(old(t)@[cpu_id as int], PerfState::ContextSwitch, end, cnt)),
{
    update_cpu(t, cpu_id, PerfState::ContextSwitch, end, cnt);
}

/// `cpu_id` becomes idle.
pub fn start_idle(t: &mut PerfTable, cpu_id: usize, end: u64, cnt: u64)
    requires
        cpu_id < old(t)@.len(),
    ensures
        final(t)@ == old(t)@.update(cpu_id as int, spec_update(old(t)@[cpu_id as int], PerfState::Idle, end, cnt)),
{
    update_cpu(t, cpu_id, PerfState::Idle, end, cnt);
}

/// `cpu_id` moves to `next`, which cannot be the boot state.
pub fn transition_to(t: &mut PerfTable, cpu_id: usize, next: PerfState, end: u64, cnt: u64)
    requires
        cpu_id < old(t)@.len(),
        next != PerfState::Boot,
    ensures
        final(t)@ == old(t)@.update(cpu_id as int, spec_update(old(t)@[cpu_id as int], next, end, cnt)),
{
    match next {
        PerfState::Boot => {},
        PerfState::Kernel => start_kernel(t, cpu_id, end, cnt),
        PerfState::Task => start_task(t, cpu_id, end, cnt),
        PerfState::ContextSwitch => start_context_switch(t, cpu_id, end, cnt),
        PerfState::Interrupt => {
            start_interrupt(t, cpu_id, end, cnt);
        },
        PerfState::Idle => start_idle(t, cpu_id, end, cnt),
    }
}

/// Total cycles `cpu_id` spent in the kernel.
pub fn get_kernel_time(t: &PerfTable, cpu_id: usize) -> (v: u64)
    requires cpu_id < t@.len(),
    ensures v == t@[cpu_id as int].kernel.time,
{
    t.cpus[cpu_id].kernel.time
}

/// Total cycles `cpu_id` spent running tasks.
pub fn get_task_time(t: &PerfTable, cpu_id: usize) -> (v: u64)
    requires cpu_id < t@.len(),
    ensures v == t@[cpu_id as int].task.time,
{
    t.cpus[cpu_id].task.time
}

/// Total cycles `cpu_id` spent in interrupt handlers.
pub fn get_interrupt_time(t: &PerfTable, cpu_id: usize) -> (v: u64)
    requires cpu_id < t@.len(),
    ensures v == t@[cpu_id as int].interrupt.time,
{
    t.cpus[cpu_id].interrupt.time
}

/// Total cycles `cpu_id` spent switching contexts.
pub fn get_context_switch_time(t: &PerfTable, cpu_id: usize) -> (v: u64)
    requires cpu_id < t@.len(),
    ensures v == t@[cpu_id as int].context_switch.time,
{
    t.cpus[cpu_id].context_switch.time
}

/// Total cycles `cpu_id` spent idle.
pub fn get_idle_time(t: &PerfTable, cpu_id: usize) -> (v: u64)
    requires cpu_id < t@.len(),
    ensures v == t@[cpu_id as int].idle.time,
{
    t.cpus[cpu_id].idle.time
}

/// Total cycles `cpu_id` spent on this accounting.
pub fn get_perf_time(t: &PerfTable, cpu_id: usize) -> (v: u64)
    requires cpu_id < t@.len(),
    ensures v == t@[cpu_id as int].perf.time,
{
    t.cpus[cpu_id].perf.time
}

pub fn get_kernel_wcet(t: &PerfTable, cpu_id: usize) -> (v: u64)
    requires cpu_id < t@.len(),
    ensures v == t@[cpu_id as int].kernel.wcet,
{
    t.cpus[cpu_id].kernel.wcet
}

pub fn get_task_wcet(t: &PerfTable, cpu_id: usize) -> (v: u64)
    requires cpu_id < t@.len(),
    ensures v == t@[cpu_id as int].task.wcet,
{
    t.cpus[cpu_id].task.wcet
}

pub fn get_idle_wcet(t: &PerfTable, cpu_id: usize) -> (v: u64)
    requires cpu_id < t@.len(),
    ensures v == t@[cpu_id as int].idle.wcet,
{
    t.cpus[cpu_id].idle.wcet
}

pub fn get_interrupt_wcet(t: &PerfTable, cpu_id: usize) -> (v: u64)
    requires cpu_id < t@.len(),
    ensures v == t@[cpu_id as int].interrupt.wcet,
{
    t.cpus[cpu_id].interrupt.wcet
}

pub fn get_context_switch_wcet(t: &PerfTable, cpu_id: usize) -> (v: u64)
    requires cpu_id < t@.len(),
    ensures v == t@[cpu_id as int].context_switch.wcet,
{
    t.cpus[cpu_id].context_switch.wcet
}

pub fn get_perf_wcet(t: &PerfTable, cpu_id: usize) -> (v: u64)
    requires cpu_id < t@.len(),
    ensures v == t@[cpu_id as int].perf.wcet,
{
    t.cpus[cpu_id].perf.wcet
}

} // verus!
