//! The kernel shell: its service task, line editing of console input, and
//! the text of its built-in commands.
use vstd::prelude::*;
use vstd::string::*;
use vstd::utf8::{valid_utf8, decode_utf8};
use crate::task::{Runtime, SpawnedTask, WakeAction, State, RunningTask, Task, spawn_with_ids, get_tasks_running, get_num_preemption,
    get_tasks, sorted_task_ids};
use crate::scheduler::SchedulerType;
use crate::perf::PerfCpu;
use crate::net::{NetManager, NetDevice, NetManagerError, NetCall, debug_dump_interface, device_called};
use crate::text::{dec, pad_left, pad_right, push_dec, push_dec_padded, push_str_padded_left, push_str_padded_right};

verus! {

/// Name of the shell's service task.
pub const SERVICE_NAME: &'static str = "[Awkernel] shell";

/// Spawns the shell's service task under the first-in-first-out scheduler
/// at priority 0. `None` when no task ID is free.
pub fn init(rt: &mut Runtime, now: u64, trace_task_id: u32) -> (r: Option<(SpawnedTask, WakeAction)>)
    requires
        old(rt).wf(),
    ensures
        final(rt).wf(),
        r is None ==> final(rt).tasks@ == old(rt).tasks@ && forall|x: u32| x != 0 ==> old(rt).tasks.used(x),
        r matches Some((sp, a)) ==> {
            &&& !old(rt).tasks.used(sp.runtime_task_id)
            &&& sp.runtime_task_id != 0
            &&& final(rt).tasks.used(sp.runtime_task_id)
            &&& a == WakeAction::Enqueue(SchedulerType::PrioritizedFIFO(0))
            &&& final(rt).tasks@.last().name@ == SERVICE_NAME@
            &&& final(rt).tasks@.last().info.scheduler_type == SchedulerType::PrioritizedFIFO(0)
            &&& final(rt).tasks@.last().info.state == State::Runnable
        },
{
    let name = String::from_str(SERVICE_NAME);
    spawn_with_ids(rt, name, SchedulerType::PrioritizedFIFO(0), None, now, trace_task_id)
}

/// What the console does for one input byte.
#[derive(Debug, PartialEq, Eq)]
pub enum ConsoleAction {
    /// Nothing to show.
    Nothing,
    /// Erase the last character on screen (backspace, space, backspace)
    /// when `echo`.
    Erase { echo: bool },
    /// Echo the byte when `echo`.
    Echo { byte: u8, echo: bool },
    /// Show a fresh prompt.
    Prompt,
    /// Evaluate `line` (after a newline when `newline_first`), then show a
    /// fresh prompt.
    Eval { line: String, newline_first: bool },
    /// The line was not UTF-8.
    NotUtf8,
}

/// The line being typed.
pub struct LineEditor {
    pub line: Vec<u8>,
}

/// Whether `c` deletes the last character (backspace, delete, kill).
pub open spec fn is_erase(c: u8) -> bool {
    c == 0x08 || c == 0x7F || c == 0x15
}

/// Whether `c` ends the line.
pub open spec fn is_newline(c: u8) -> bool {
    c == 0x0D || c == 0x0A
}

/// The line after byte `c`.
pub open spec fn next_line(line: Seq<u8>, c: u8) -> Seq<u8> {
    if is_erase(c) {
        if line.len() == 0 { line } else { line.drop_last() }
    } else if is_newline(c) {
        Seq::empty()
    } else {
        line.push(c)
    }
}

/// Calls `std::str::from_utf8` (trusted, not proved): it succeeds exactly
/// when `bytes` are valid UTF-8, and then yields the text they encode.
#[verifier::external_body]
fn utf8_text(bytes: &[u8]) -> (r: Option<&str>)
    ensures
        r is Some <==> valid_utf8(bytes@),
        r matches Some(s) ==> s@ == decode_utf8(bytes@),
{
    std::str::from_utf8(bytes).ok()
}

impl LineEditor {
    pub fn new() -> (e: LineEditor)
        ensures
            e.line@ == Seq::<u8>::empty(),
    {
        LineEditor { line: Vec::new() }
    }

    /// Handles one input byte: deletion drops the last byte (shown as an
    /// erase unless running hosted); a newline on an empty line shows a new
    /// prompt, otherwise hands the line over for evaluation when it is UTF-8
    /// (reporting it when not) and starts a new line; any other byte is kept
    /// and echoed unless running hosted.
    pub fn on_char(&mut self, c: u8, is_std: bool) -> (a: ConsoleAction)
        ensures
            final(self).line@ == next_line(old(self).line@, c),
            is_erase(c) ==> a == (if old(self).line@.len() == 0 { ConsoleAction::Nothing } else { ConsoleAction::Erase { echo: !is_std } }),
            !is_erase(c) && is_newline(c) && old(self).line@.len() == 0 ==> a == ConsoleAction::Prompt,
            !is_erase(c) && is_newline(c) && old(self).line@.len() > 0 ==> {
                if valid_utf8(old(self).line@) {
                    a matches ConsoleAction::Eval { line, newline_first } && line@ == decode_utf8(old(self).line@)
                        && newline_first == !is_std
                } else {
                    a == ConsoleAction::NotUtf8
                }
            },
            !is_erase(c) && !is_newline(c) ==> a == (ConsoleAction::Echo { byte: c, echo: !is_std }),
    {
        if c == 0x08 || c == 0x7F || c == 0x15 {
            if self.line.len() > 0 {
                self.line.pop();
                ConsoleAction::Erase { echo: !is_std }
            } else {
                ConsoleAction::Nothing
            }
        } else if c == 0x0D || c == 0x0A {
            if self.line.len() == 0 {
                return ConsoleAction::Prompt;
            }
            let a = match utf8_text(self.line.as_slice()) {
                Some(text) => ConsoleAction::Eval { line: String::from_str(text), newline_first: !is_std },
                None => ConsoleAction::NotUtf8,
            };
            self.line.clear();
            a
        } else {
            self.line.push(c);
            ConsoleAction::Echo { byte: c, echo: !is_std }
        }
    }
}

/// The text of the `help` command; the `perf` line only when performance
/// counting is built in.
pub fn help_text(perf: bool) -> (s: String)
    ensures
        s@ == "Awkernel v202306\r\nBLisp grammer: https://ytakano.github.io/blisp/\r\n\r\nBLisp functions:\r\n"@
            + "(help)      ; print this message\r\n"@
            + "(task)      ; print tasks\r\n"@
            + "(interrupt) ; print interrupt information\r\n"@
            + "(ifconfig)  ; print network interfaces\r\n"@
            + "(netdump if); dump device registers\r\n"@
            + "(reboot)    ; reboot x86_64 systems\r\n"@
            + "(shutdown)  ; power off x86_64 systems\r\n"@
            + (if perf { "(perf)      ; print performance information\r\n"@ } else { Seq::<char>::empty() }),
{
    let mut s = String::from_str("Awkernel v202306\r\nBLisp grammer: https://ytakano.github.io/blisp/\r\n\r\nBLisp functions:\r\n");
    s.append("(help)      ; print this message\r\n");
    s.append("(task)      ; print tasks\r\n");
    s.append("(interrupt) ; print interrupt information\r\n");
    s.append("(ifconfig)  ; print network interfaces\r\n");
    s.append("(netdump if); dump device registers\r\n");
    s.append("(reboot)    ; reboot x86_64 systems\r\n");
    s.append("(shutdown)  ; power off x86_64 systems\r\n");
    if perf {
        s.append("(perf)      ; print performance information\r\n");
    }
    proof {
        if !perf {
            assert(s@ =~= s@ + Seq::<char>::empty());
        }
    }
    s
}

/// One line of the running-task list: the CPU right-aligned in 3 columns
/// and, unless the CPU is idle (task 0), the task right-aligned in 5.
pub open spec fn running_task_line(cpu_id: usize, task_id: u32) -> Seq<char> {
    if task_id != 0 {
        "  cpu: "@ + pad_left(dec(cpu_id as nat), 3) + ", task: "@ + pad_left(dec(task_id as nat), 5) + "\r\n"@
    } else {
        "  cpu: "@ + pad_left(dec(cpu_id as nat), 3) + ", task:\r\n"@
    }
}

pub fn format_running_task(t: RunningTask) -> (s: String)
    ensures
        s@ == running_task_line(t.cpu_id, t.task_id),
{
    let mut s = String::from_str("  cpu: ");
    push_dec_padded(&mut s, t.cpu_id as u64, 3);
    if t.task_id != 0 {
        s.append(", task: ");
        push_dec_padded(&mut s, t.task_id as u64, 5);
        s.append("\r\n");
    } else {
        s.append(", task:\r\n");
    }
    s
}

/// Debug name of a task state.
pub open spec fn state_name(st: State) -> Seq<char> {
    match st {
        State::Initialized => "Initialized"@,
        State::Running => "Running"@,
        State::Runnable => "Runnable"@,
        State::Waiting => "Waiting"@,
        State::Preempted => "Preempted"@,
        State::Terminated => "Terminated"@,
        State::Panicked => "Panicked"@,
    }
}

pub fn state_str(st: State) -> (s: &'static str)
    ensures
        s@ == state_name(st),
{
    match st {
        State::Initialized => "Initialized",
        State::Running => "Running",
        State::Runnable => "Runnable",
        State::Waiting => "Waiting",
        State::Preempted => "Preempted",
        State::Terminated => "Terminated",
        State::Panicked => "Panicked",
    }
}

/// Header of the task list.
pub open spec fn task_header() -> Seq<char> {
    pad_left("ID"@, 5) + "  "@ + pad_right("State"@, 10) + " "@ + pad_left("#Preemption"@, 14) + " "@
        + pad_left("Last Executed"@, 14) + " name\r\n"@
}

pub fn format_task_header() -> (s: String)
    ensures
        s@ == task_header(),
{
    let mut s = String::new();
    push_str_padded_left(&mut s, "ID", 5);
    s.append("  ");
    push_str_padded_right(&mut s, "State", 10);
    s.append(" ");
    push_str_padded_left(&mut s, "#Preemption", 14);
    s.append(" ");
    push_str_padded_left(&mut s, "Last Executed", 14);
    s.append(" name\r\n");
    assert(s@ =~= task_header());
    s
}

/// One line of the task list: ID (marked `*` when panicked), state, number
/// of preemptions, time of last execution in microseconds, and name.
pub open spec fn task_line(id: u32, panicked: bool, st: State, num_preempt: u64, last_us: u64, name: Seq<char>) -> Seq<char> {
    pad_left(dec(id as nat), 5) + (if panicked { "*"@ } else { " "@ }) + " "@ + pad_right(state_name(st), 10) + " "@
        + pad_left(dec(num_preempt as nat), 14) + " "@ + pad_left(dec(last_us as nat), 14) + " "@ + name + "\r\n"@
}

pub fn format_task_line(id: u32, panicked: bool, st: State, num_preempt: u64, last_us: u64, name: &str) -> (s: String)
    ensures
        s@ == task_line(id, panicked, st, num_preempt, last_us, name@),
{
    let mut s = String::new();
    push_dec_padded(&mut s, id as u64, 5);
    if panicked {
        s.append("*");
    } else {
        s.append(" ");
    }
    s.append(" ");
    push_str_padded_right(&mut s, state_str(st), 10);
    s.append(" ");
    push_dec_padded(&mut s, num_preempt, 14);
    s.append(" ");
    push_dec_padded(&mut s, last_us, 14);
    s.append(" ");
    s.append(name);
    s.append("\r\n");
    assert(s@ =~= task_line(id, panicked, st, num_preempt, last_us, name@));
    s
}

/// The parts of `parts` one after another.
pub open spec fn concat(parts: Seq<Seq<char>>) -> Seq<char>
    decreases parts.len(),
{
    if parts.len() == 0 { Seq::empty() } else { concat(parts.drop_last()) + parts.last() }
}

/// One line per task, in increasing ID order.
pub open spec fn task_lines(rt: Runtime) -> Seq<Seq<char>> {
    let ids = sorted_task_ids(rt);
    Seq::new(ids.len(), |k: int| {
        let t = rt.tasks.lookup(ids[k]);
        task_line(t.id, t.info.panicked, t.info.state, t.info.num_preempt, t.info.last_executed_time, t.name@)
    })
}

/// The task table of the `(task)` command.
pub open spec fn tasks_text(rt: Runtime) -> Seq<char> {
    "Tasks:\r\n"@ + task_header() + concat(task_lines(rt))
}

/// One line per CPU with the task it runs.
pub open spec fn running_lines(rt: Runtime) -> Seq<Seq<char>> {
    Seq::new(rt.cpus() as nat, |i: int| running_task_line(i as usize, rt.running()[i]))
}

/// The whole report of the `(task)` command at uptime `uptime`.
pub open spec fn task_report(rt: Runtime, uptime: u64) -> Seq<char> {
    "Uptime: "@ + dec(uptime as nat) + "\r\n"@ + tasks_text(rt) + "\r\n"@
        + "Total preemption: "@ + dec(rt.preemptions() as nat) + "\r\n"@
        + "Running Tasks:\r\n"@ + concat(running_lines(rt))
}

/// The task table: a title, the header and one line per task in increasing
/// ID order (a `*` marks a panicked task).
pub fn print_tasks(rt: &Runtime) -> (s: String)
    requires
        rt.wf(),
    ensures
        s@ == tasks_text(*rt),
{
    let tasks = get_tasks(rt);
    let ghost lines = task_lines(*rt);
    let mut s = String::from_str("Tasks:\r\n");
    let header = format_task_header();
    s.append(header.as_str());
    let ghost start = s@;
    let mut k: usize = 0;
    while k < tasks.len()
        invariant
            tasks@.len() == sorted_task_ids(*rt).len(),
            forall|j: int| 0 <= j < tasks@.len() ==> rt.tasks.used(#[trigger] sorted_task_ids(*rt)[j])
                && *tasks@[j] == rt.tasks.lookup(sorted_task_ids(*rt)[j]),
            lines == task_lines(*rt),
            lines.len() == tasks@.len(),
            k <= tasks@.len(),
            s@ == start + concat(lines.take(k as int)),
        decreases tasks@.len() - k,
    {
        let t = tasks[k];
        assert(rt.tasks.used(sorted_task_ids(*rt)[k as int]));
        let line = format_task_line(t.id, t.info.panicked, t.info.state, t.info.num_preempt, t.info.last_executed_time, t.name.as_str());
        s.append(line.as_str());
        proof {
            assert(lines.take(k + 1).drop_last() =~= lines.take(k as int));
        }
        k += 1;
    }
    assert(lines.take(lines.len() as int) =~= lines);
    s
}

/// The report of the `(task)` command: uptime, the task table, the total
/// number of preemptions and the task running on each CPU.
pub fn task_ffi(rt: &Runtime, uptime: u64) -> (s: String)
    requires
        rt.wf(),
    ensures
        s@ == task_report(*rt, uptime),
{
    let mut s = String::from_str("Uptime: ");
    push_dec(&mut s, uptime);
    s.append("\r\n");
    let tasks = print_tasks(rt);
    s.append(tasks.as_str());
    s.append("\r\n");
    s.append("Total preemption: ");
    push_dec(&mut s, get_num_preemption(rt) as u64);
    s.append("\r\n");
    s.append("Running Tasks:\r\n");
    let ghost start = s@;
    let ghost lines = running_lines(*rt);
    let running = get_tasks_running(rt);
    let mut i: usize = 0;
    while i < running.len()
        invariant
            running@.len() == rt.cpus(),
            forall|j: int| 0 <= j < running@.len() ==> running@[j] == (RunningTask { cpu_id: j as usize, task_id: rt.running()[j] }),
            lines == running_lines(*rt),
            i <= running@.len(),
            s@ == start + concat(lines.take(i as int)),
        decreases running@.len() - i,
    {
        let line = format_running_task(running[i]);
        s.append(line.as_str());
        proof {
            assert(lines.take(i + 1).drop_last() =~= lines.take(i as int));
        }
        i += 1;
    }
    assert(lines.take(lines.len() as int) =~= lines);
    assert(s@ =~= task_report(*rt, uptime));
    s
}

/// Debug name of a network manager error without payload.
pub open spec fn net_error_text(e: NetManagerError) -> Seq<char> {
    match e {
        NetManagerError::InvalidInterfaceID => "InvalidInterfaceID"@,
        NetManagerError::InvalidIPv4Address => "InvalidIPv4Address"@,
        NetManagerError::InvalidSocketAddress => "InvalidSocketAddress"@,
        NetManagerError::CannotFindInterface => "CannotFindInterface"@,
        NetManagerError::PortInUse => "PortInUse"@,
        NetManagerError::SendError => "SendError"@,
        NetManagerError::RecvError => "RecvError"@,
        NetManagerError::NotYetImplemented => "NotYetImplemented"@,
        NetManagerError::InvalidPort => "InvalidPort"@,
        NetManagerError::InvalidState => "InvalidState"@,
        NetManagerError::NoAvailablePort => "NoAvailablePort"@,
        NetManagerError::InterfaceIsNotReady => "InterfaceIsNotReady"@,
        NetManagerError::BindError => "BindError"@,
        NetManagerError::FailedToMakeNonblocking => "FailedToMakeNonblocking"@,
        NetManagerError::SocketError => "SocketError"@,
        NetManagerError::ConnectError => "ConnectError"@,
        NetManagerError::ListenError => "ListenError"@,
        NetManagerError::AcceptError => "AcceptError"@,
        NetManagerError::MulticastInvalidIpv4Address => "MulticastInvalidIpv4Address"@,
        NetManagerError::MulticastInvalidInterfaceAddress => "MulticastInvalidInterfaceAddress"@,
        NetManagerError::MulticastError => "MulticastError"@,
        NetManagerError::MulticastNotJoined => "MulticastNotJoined"@,
        NetManagerError::DeviceError(_) => "DeviceError"@,
    }
}

/// The name of a network error.
pub fn net_error_name(e: NetManagerError) -> (s: &'static str)
    ensures
        s@ == net_error_text(e),
{
    match e {
        NetManagerError::InvalidInterfaceID => "InvalidInterfaceID",
        NetManagerError::InvalidIPv4Address => "InvalidIPv4Address",
        NetManagerError::InvalidSocketAddress => "InvalidSocketAddress",
        NetManagerError::CannotFindInterface => "CannotFindInterface",
        NetManagerError::PortInUse => "PortInUse",
        NetManagerError::SendError => "SendError",
        NetManagerError::RecvError => "RecvError",
        NetManagerError::NotYetImplemented => "NotYetImplemented",
        NetManagerError::InvalidPort => "InvalidPort",
        NetManagerError::InvalidState => "InvalidState",
        NetManagerError::NoAvailablePort => "NoAvailablePort",
        NetManagerError::InterfaceIsNotReady => "InterfaceIsNotReady",
        NetManagerError::BindError => "BindError",
        NetManagerError::FailedToMakeNonblocking => "FailedToMakeNonblocking",
        NetManagerError::SocketError => "SocketError",
        NetManagerError::ConnectError => "ConnectError",
        NetManagerError::ListenError => "ListenError",
        NetManagerError::AcceptError => "AcceptError",
        NetManagerError::MulticastInvalidIpv4Address => "MulticastInvalidIpv4Address",
        NetManagerError::MulticastInvalidInterfaceAddress => "MulticastInvalidInterfaceAddress",
        NetManagerError::MulticastError => "MulticastError",
        NetManagerError::MulticastNotJoined => "MulticastNotJoined",
        NetManagerError::DeviceError(_) => "DeviceError",
    }
}

/// The `netdump` command: dumps the registers of interface `interface_id`
/// (given when the number fits in 64 bits). The message to show, if any.
pub fn netdump_ffi<D: NetDevice>(mgr: &mut NetManager<D>, interface_id: Option<u64>) -> (msg: Option<String>)
    requires
        old(mgr).wf(),
    ensures
        final(mgr).wf(),
        interface_id is None ==> (msg matches Some(m) && m@ == "netdump failed: interface_id must fit in u64\r\n"@)
            && *final(mgr) == *old(mgr),
        interface_id matches Some(id) ==> (msg is None <==> old(mgr).has_interface(id)),
        interface_id matches Some(id) ==> (old(mgr).has_interface(id) ==>
            device_called(old(mgr), final(mgr), id, seq![NetCall::DebugDump])),
        interface_id matches Some(id) && !old(mgr).has_interface(id) ==>
            (msg matches Some(m) && m@ == "netdump failed: InvalidInterfaceID\r\n"@) && *final(mgr) == *old(mgr),
{
    match interface_id {
        None => Some(String::from_str("netdump failed: interface_id must fit in u64\r\n")),
        Some(id) => match debug_dump_interface(mgr, id) {
            Ok(()) => None,
            Err(e) => {
                let mut m = String::from_str("netdump failed: ");
                m.append(net_error_name(e));
                m.append("\r\n");
                proof {
                    reveal_strlit("netdump failed: ");
                    reveal_strlit("InvalidInterfaceID");
                    reveal_strlit("\r\n");
                    reveal_strlit("netdump failed: InvalidInterfaceID\r\n");
                }
                assert(m@ =~= "netdump failed: InvalidInterfaceID\r\n"@);
                Some(m)
            },
        },
    }
}


/// Heading of the `(perf)` table.
pub open spec fn perf_header() -> Seq<char> {
    "Perform non-primary CPU [tsc]:\r\n"@
        + " cpu | Type           |   kernel_time  |    task_time   |    idle_time   | interrupt_time | context_switch |    perf_time   \r\n"@
        + "=====|================|================|================|================|================|================|================\r\n"@
}

pub fn format_perf_header() -> (s: String)
    ensures
        s@ == perf_header(),
{
    let mut s = String::from_str("Perform non-primary CPU [tsc]:\r\n");
    s.append(" cpu | Type           |   kernel_time  |    task_time   |    idle_time   | interrupt_time | context_switch |    perf_time   \r\n");
    s.append("=====|================|================|================|================|================|================|================\r\n");
    s
}

/// Row of the `(perf)` table with the total cycles of CPU `cpu_id` per
/// state: kernel, task, idle, interrupt, context switch, measurement.
pub open spec fn perf_total_line(cpu_id: usize, c: PerfCpu) -> Seq<char> {
    pad_left(dec(cpu_id as nat), 4) + " | Total          |"@
        + pad_left(dec(c.kernel.time as nat), 15) + " |"@
        + pad_left(dec(c.task.time as nat), 15) + " |"@
        + pad_left(dec(c.idle.time as nat), 15) + " |"@
        + pad_left(dec(c.interrupt.time as nat), 15) + " |"@
        + pad_left(dec(c.context_switch.time as nat), 15) + " |"@
        + pad_left(dec(c.perf.time as nat), 15) + "\r\n"@
}

pub fn format_perf_total_line(cpu_id: usize, c: &PerfCpu) -> (s: String)
    ensures
        s@ == perf_total_line(cpu_id, *c),
{
    let mut s = String::new();
    push_dec_padded(&mut s, cpu_id as u64, 4);
    s.append(" | Total          |");
    push_dec_padded(&mut s, c.kernel.time, 15);
    s.append(" |");
    push_dec_padded(&mut s, c.task.time, 15);
    s.append(" |");
    push_dec_padded(&mut s, c.idle.time, 15);
    s.append(" |");
    push_dec_padded(&mut s, c.interrupt.time, 15);
    s.append(" |");
    push_dec_padded(&mut s, c.context_switch.time, 15);
    s.append(" |");
    push_dec_padded(&mut s, c.perf.time, 15);
    s.append("\r\n");
    assert(s@ =~= perf_total_line(cpu_id, *c));
    s
}

/// Row of the `(perf)` table with the longest single stay of a CPU in each
/// state, in the order of `perf_total_line`.
pub open spec fn perf_worst_line(c: PerfCpu) -> Seq<char> {
    "     | Worst          | "@
        + pad_left(dec(c.kernel.wcet as nat), 14) + " | "@
        + pad_left(dec(c.task.wcet as nat), 14) + " |"@
        + pad_left(dec(c.idle.wcet as nat), 15) + " |"@
        + pad_left(dec(c.interrupt.wcet as nat), 15) + " |"@
        + pad_left(dec(c.context_switch.wcet as nat), 15) + " |"@
        + pad_left(dec(c.perf.wcet as nat), 15) + "\r\n"@
}

pub fn format_perf_worst_line(c: &PerfCpu) -> (s: String)
    ensures
        s@ == perf_worst_line(*c),
{
    let mut s = String::from_str("     | Worst          | ");
    push_dec_padded(&mut s, c.kernel.wcet, 14);
    s.append(" | ");
    push_dec_padded(&mut s, c.task.wcet, 14);
    s.append(" |");
    push_dec_padded(&mut s, c.idle.wcet, 15);
    s.append(" |");
    push_dec_padded(&mut s, c.interrupt.wcet, 15);
    s.append(" |");
    push_dec_padded(&mut s, c.context_switch.wcet, 15);
    s.append(" |");
    push_dec_padded(&mut s, c.perf.wcet, 15);
    s.append("\r\n");
    assert(s@ =~= perf_worst_line(*c));
    s
}

} // verus!
