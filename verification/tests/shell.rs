use awkernel::net::NetManagerError;
use awkernel::scheduler::SchedulerType;
use awkernel::shell::{
    format_perf_header, format_perf_total_line, format_perf_worst_line, format_running_task, format_task_header, format_task_line, help_text, net_error_name, print_tasks, state_str,
    task_ffi, ConsoleAction, LineEditor,
};
use awkernel::perf::{PerfCounter, PerfCpu};
use awkernel::task::{set_current_task, spawn_with_ids, RunningTask, Runtime, State};

#[test]
fn help_lists_commands() {
    let base = "Awkernel v202306\r\nBLisp grammer: https://ytakano.github.io/blisp/\r\n\r\nBLisp functions:\r\n\
(help)      ; print this message\r\n\
(task)      ; print tasks\r\n\
(interrupt) ; print interrupt information\r\n\
(ifconfig)  ; print network interfaces\r\n\
(netdump if); dump device registers\r\n\
(reboot)    ; reboot x86_64 systems\r\n\
(shutdown)  ; power off x86_64 systems\r\n";
    assert_eq!(help_text(false), base);
    assert_eq!(help_text(true), format!("{base}(perf)      ; print performance information\r\n"));
}

#[test]
fn running_task_lines_are_aligned() {
    assert_eq!(format_running_task(RunningTask { cpu_id: 1, task_id: 42 }), "  cpu:   1, task:    42\r\n");
    assert_eq!(format_running_task(RunningTask { cpu_id: 12, task_id: 0 }), "  cpu:  12, task:\r\n");
}

#[test]
fn task_table_matches_format() {
    assert_eq!(format_task_header(), format!("{:>5}  {:<10} {:>14} {:>14} name\r\n", "ID", "State", "#Preemption", "Last Executed"));
    assert_eq!(
        format_task_line(7, true, State::Running, 3, 1500, "foo"),
        format!("{:>5}{} {:<10} {:>14} {:>14} {}\r\n", 7, "*", "Running", 3, 1500, "foo")
    );
    assert_eq!(
        format_task_line(123456, false, State::Terminated, 0, 0, ""),
        "123456  Terminated              0              0 \r\n"
    );
}

#[test]
fn state_names_match_debug() {
    for st in [State::Initialized, State::Running, State::Runnable, State::Waiting, State::Preempted, State::Terminated, State::Panicked] {
        assert_eq!(state_str(st), format!("{:?}", st));
    }
}

#[test]
fn line_editor_echoes_erases_and_evaluates() {
    let mut e = LineEditor::new();
    assert_eq!(e.on_char(b'a', false), ConsoleAction::Echo { byte: b'a', echo: true });
    assert_eq!(e.on_char(b'b', false), ConsoleAction::Echo { byte: b'b', echo: true });
    assert_eq!(e.on_char(0x08, false), ConsoleAction::Erase { echo: true });
    assert_eq!(e.line, vec![b'a']);
    assert_eq!(e.on_char(b'\r', false), ConsoleAction::Eval { line: "a".to_string(), newline_first: true });
    assert!(e.line.is_empty());
    assert_eq!(e.on_char(b'\n', false), ConsoleAction::Prompt);
    assert_eq!(e.on_char(0x7F, true), ConsoleAction::Nothing);
}

#[test]
fn line_editor_hosted_does_not_echo() {
    let mut e = LineEditor::new();
    assert_eq!(e.on_char(b'x', true), ConsoleAction::Echo { byte: b'x', echo: false });
    assert_eq!(e.on_char(0x15, true), ConsoleAction::Erase { echo: false });
    assert_eq!(e.on_char(b'(', true), ConsoleAction::Echo { byte: b'(', echo: false });
    assert_eq!(e.on_char(b'\n', true), ConsoleAction::Eval { line: "(".to_string(), newline_first: false });
}

#[test]
fn line_editor_reports_invalid_utf8() {
    let mut e = LineEditor::new();
    e.on_char(0xFF, false);
    assert_eq!(e.on_char(b'\r', false), ConsoleAction::NotUtf8);
    assert!(e.line.is_empty());
}

#[test]
fn network_error_names() {
    assert_eq!(net_error_name(NetManagerError::InvalidInterfaceID), "InvalidInterfaceID");
    assert_eq!(net_error_name(NetManagerError::NoAvailablePort), "NoAvailablePort");
    assert_eq!(net_error_name(NetManagerError::MulticastNotJoined), "MulticastNotJoined");
}

#[test]
fn task_report_lists_tasks_by_id() {
    let mut rt = Runtime::new(2, 2);
    let (a, _) = spawn_with_ids(&mut rt, "alpha".to_string(), SchedulerType::PrioritizedFIFO(1), None, 0, 0).unwrap();
    let (b, _) = spawn_with_ids(&mut rt, "beta".to_string(), SchedulerType::PrioritizedRR(1), None, 0, 0).unwrap();
    set_current_task(&mut rt, 1, b.runtime_task_id);
    let header = format!("{:>5}  {:<10} {:>14} {:>14} name\r\n", "ID", "State", "#Preemption", "Last Executed");
    let line = |id: u32, name: &str| format!("{:>5}{} {:<10} {:>14} {:>14} {}\r\n", id, " ", "Runnable", 0, 0, name);
    let table = format!("Tasks:\r\n{header}{}{}", line(a.runtime_task_id, "alpha"), line(b.runtime_task_id, "beta"));
    assert_eq!(print_tasks(&rt), table);
    let expected = format!(
        "Uptime: 123\r\n{table}\r\nTotal preemption: 0\r\nRunning Tasks:\r\n  cpu:   0, task:\r\n  cpu:   1, task: {:>5}\r\n",
        b.runtime_task_id
    );
    assert_eq!(task_ffi(&rt, 123), expected);
}

#[test]
fn perf_rows_align_totals_and_worst_cases() {
    let mut c = PerfCpu::new();
    c.kernel = PerfCounter { time: 1200, count: 3, wcet: 700 };
    c.task = PerfCounter { time: 55, count: 1, wcet: 55 };
    c.perf = PerfCounter { time: 9, count: 9, wcet: 1 };
    let header = format_perf_header();
    assert!(header.starts_with("Perform non-primary CPU [tsc]:\r\n cpu | Type "));
    assert_eq!(header.lines().count(), 3);
    assert_eq!(
        format_perf_total_line(2, &c),
        "   2 | Total          |           1200 |             55 |              0 |              0 |              0 |              9\r\n"
    );
    assert_eq!(
        format_perf_worst_line(&c),
        "     | Worst          |            700 |             55 |              0 |              0 |              0 |              1\r\n"
    );
}
