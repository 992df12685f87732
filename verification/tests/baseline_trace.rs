use awkernel::baseline_trace::{
    capture_sched_and_task_dispatch, dump_to_console, emit_sched_and_task_dispatch, merge_records,
    overflowed, record, record_task_trace, records, render_lines, render_task_trace_artifact_lines,
    render_trace_rows_artifact_lines, reset, set_workload_artifact_enabled, task_trace_records,
    BaselineTrace, BaselineTraceEvent, BaselineTraceRecord, BaselineTraceSnapshot, TaskTraceEvent,
    TRACE_CAPACITY,
};

fn fresh() -> BaselineTrace {
    let mut t = BaselineTrace::new(4);
    reset(&mut t);
    t
}

fn test_snapshot(
    cpu_id: usize,
    current: Option<u32>,
    runnable: Vec<u32>,
    need_resched: bool,
    dispatch_target: Option<u32>,
) -> BaselineTraceSnapshot {
    BaselineTraceSnapshot {
        cpu_id,
        current,
        runnable,
        need_resched,
        dispatch_target,
        worker_current: vec![current],
        worker_need_resched: vec![need_resched],
        worker_dispatch_target: vec![dispatch_target],
    }
}

#[test]
fn records_multiple_cpus_in_baseline_trace() {
    let mut t = fresh();
    record(
        &mut t,
        BaselineTraceEvent::Wakeup { task_id: 1 },
        BaselineTraceSnapshot {
            cpu_id: 0,
            current: None,
            runnable: vec![1],
            need_resched: false,
            dispatch_target: None,
            worker_current: vec![None],
            worker_need_resched: vec![false],
            worker_dispatch_target: vec![None],
        },
        100,
    );
    record(
        &mut t,
        BaselineTraceEvent::Stutter,
        BaselineTraceSnapshot {
            cpu_id: 1,
            current: None,
            runnable: vec![],
            need_resched: false,
            dispatch_target: None,
            worker_current: vec![None],
            worker_need_resched: vec![false],
            worker_dispatch_target: vec![None],
        },
        101,
    );

    let records = records(&t);
    assert_eq!(records.len(), 2);
    assert_eq!(records[0].event, BaselineTraceEvent::Wakeup { task_id: 1 });
    assert_eq!(records[1].event, BaselineTraceEvent::Stutter);
}

#[test]
fn renders_line_oriented_trace() {
    let mut t = fresh();
    record(
        &mut t,
        BaselineTraceEvent::Dispatch { task_id: 7 },
        BaselineTraceSnapshot {
            cpu_id: 1,
            current: Some(7),
            runnable: vec![],
            need_resched: false,
            dispatch_target: None,
            worker_current: vec![Some(7)],
            worker_need_resched: vec![false],
            worker_dispatch_target: vec![None],
        },
        5,
    );

    let lines = render_lines(&t);
    assert_eq!(lines.len(), 1);
    assert!(lines[0].contains("cpu=1"));
    assert!(lines[0].contains("event=EvDispatch"));
    assert!(lines[0].contains("current=Some(7)"));
}

#[test]
fn renders_trace_rows_artifact() {
    let mut t = fresh();
    record(
        &mut t,
        BaselineTraceEvent::Choose { task_id: 1 },
        BaselineTraceSnapshot {
            cpu_id: 1,
            current: None,
            runnable: vec![1],
            need_resched: true,
            dispatch_target: Some(1),
            worker_current: vec![None],
            worker_need_resched: vec![true],
            worker_dispatch_target: vec![Some(1)],
        },
        1,
    );
    record(
        &mut t,
        BaselineTraceEvent::Dispatch { task_id: 1 },
        BaselineTraceSnapshot {
            cpu_id: 1,
            current: Some(1),
            runnable: vec![],
            need_resched: false,
            dispatch_target: None,
            worker_current: vec![Some(1)],
            worker_need_resched: vec![false],
            worker_dispatch_target: vec![None],
        },
        2,
    );

    let lines = render_trace_rows_artifact_lines(&t);
    assert_eq!(lines.len(), 2);
    assert_eq!(lines[0], "1\tChoose\t1\t1\t-\t1\ttrue\t1\t-\ttrue\t1");
    assert_eq!(lines[1], "1\tDispatch\t1\t1\t1\t\tfalse\t-\t1\tfalse\t-");
}

#[test]
fn dispatch_capture_reserves_contiguous_sched_event_ids() {
    let mut t = fresh();

    let pending = capture_sched_and_task_dispatch(
        &mut t,
        7,
        test_snapshot(0, None, vec![7], true, Some(7)),
        test_snapshot(0, Some(7), vec![], false, None),
        9,
    );

    assert_eq!(pending.sched_choose.event_id + 1, pending.sched_dispatch.event_id);
    assert_eq!(pending.sched_choose.event, BaselineTraceEvent::Choose { task_id: 7 });
    assert_eq!(pending.sched_dispatch.event, BaselineTraceEvent::Dispatch { task_id: 7 });
    assert!(records(&t).is_empty());

    emit_sched_and_task_dispatch(&mut t, pending);

    let records = records(&t);
    assert_eq!(records.len(), 2);
    assert_eq!(records[0].event_id, 0);
    assert_eq!(records[1].event_id, 1);

    assert!(task_trace_records(&t).is_empty());
}

#[test]
fn delayed_dispatch_emit_keeps_sched_trace_order_by_reserved_event_id() {
    let mut t = fresh();

    let pending = capture_sched_and_task_dispatch(
        &mut t,
        7,
        test_snapshot(0, None, vec![7], true, Some(7)),
        test_snapshot(0, Some(7), vec![], false, None),
        3,
    );
    record(
        &mut t,
        BaselineTraceEvent::Complete { task_id: 42 },
        test_snapshot(1, None, vec![], true, None),
        4,
    );
    emit_sched_and_task_dispatch(&mut t, pending);

    let lines = render_trace_rows_artifact_lines(&t);
    assert_eq!(lines.len(), 3);
    assert_eq!(lines[0], "0\tChoose\t1\t7\t-\t7\ttrue\t7\t-\ttrue\t7");
    assert_eq!(lines[1], "0\tDispatch\t1\t7\t7\t\tfalse\t-\t7\tfalse\t-");
    assert_eq!(lines[2], "1\tComplete\t42\t-\t-\t\ttrue\t-\t-\ttrue\t-");
}

#[test]
fn dispatch_capture_pairs_sched_and_task_event_ids() {
    let mut t = fresh();
    set_workload_artifact_enabled(&mut t, true);

    let pending = capture_sched_and_task_dispatch(
        &mut t,
        7,
        test_snapshot(0, None, vec![7], true, Some(7)),
        test_snapshot(0, Some(7), vec![], false, None),
        3,
    );
    let task_choose = pending
        .task_choose
        .as_ref()
        .expect("task Choose trace must be present");
    let task_dispatch = pending
        .task_dispatch
        .as_ref()
        .expect("task Dispatch trace must be present");

    assert_eq!(pending.sched_choose.event_id, task_choose.event_id);
    assert_eq!(pending.sched_dispatch.event_id, task_dispatch.event_id);
    assert_eq!(pending.sched_choose.event_id + 1, pending.sched_dispatch.event_id);
}

#[test]
fn delayed_dispatch_emit_keeps_task_trace_order_by_reserved_event_id() {
    let mut t = fresh();
    set_workload_artifact_enabled(&mut t, true);

    let pending = capture_sched_and_task_dispatch(
        &mut t,
        7,
        test_snapshot(0, None, vec![7], true, Some(7)),
        test_snapshot(0, Some(7), vec![], false, None),
        3,
    );
    record_task_trace(&mut t, TaskTraceEvent::Runnable { task_id: 42 });
    emit_sched_and_task_dispatch(&mut t, pending);

    let lines = render_task_trace_artifact_lines(&t);
    assert_eq!(lines, vec!["Choose\t7\t-", "Dispatch\t7\t-", "Runnable\t42\t-"]);
}

#[test]
fn join_target_ready_renders_task_trace_row() {
    let mut t = fresh();
    set_workload_artifact_enabled(&mut t, true);

    record_task_trace(&mut t, TaskTraceEvent::JoinTargetReady { task_id: 42 });

    let lines = render_task_trace_artifact_lines(&t);
    assert_eq!(lines, vec!["JoinTargetReady\t42\t-"]);
}

#[test]
fn merge_orders_by_event_id() {
    let merged = merge_records(vec![
        BaselineTraceRecord {
            event_id: 2,
            tsc: 12,
            event: BaselineTraceEvent::Dispatch { task_id: 2 },
            snapshot: BaselineTraceSnapshot {
                cpu_id: 1,
                current: Some(2),
                runnable: vec![],
                need_resched: false,
                dispatch_target: None,
                worker_current: vec![Some(2)],
                worker_need_resched: vec![false],
                worker_dispatch_target: vec![None],
            },
        },
        BaselineTraceRecord {
            event_id: 0,
            tsc: 10,
            event: BaselineTraceEvent::Wakeup { task_id: 1 },
            snapshot: BaselineTraceSnapshot {
                cpu_id: 0,
                current: None,
                runnable: vec![1],
                need_resched: false,
                dispatch_target: None,
                worker_current: vec![None],
                worker_need_resched: vec![false],
                worker_dispatch_target: vec![None],
            },
        },
        BaselineTraceRecord {
            event_id: 1,
            tsc: 10,
            event: BaselineTraceEvent::HandleResched { cpu_id: 1 },
            snapshot: BaselineTraceSnapshot {
                cpu_id: 1,
                current: None,
                runnable: vec![1],
                need_resched: true,
                dispatch_target: None,
                worker_current: vec![None],
                worker_need_resched: vec![true],
                worker_dispatch_target: vec![None],
            },
        },
    ]);

    assert_eq!(merged[0].event_id, 0);
    assert_eq!(merged[1].event_id, 1);
    assert_eq!(merged[2].event_id, 2);
    assert_eq!(merged[0].snapshot.cpu_id, 0);
    assert_eq!(merged[1].snapshot.cpu_id, 1);
    assert_eq!(merged[2].tsc, 12);
}

#[test]
fn marks_overflow_once_capacity_is_exceeded() {
    let mut t = fresh();

    for task_id in 0..TRACE_CAPACITY as u32 {
        record(
            &mut t,
            BaselineTraceEvent::Wakeup { task_id },
            BaselineTraceSnapshot {
                cpu_id: 0,
                current: None,
                runnable: vec![task_id],
                need_resched: false,
                dispatch_target: None,
                worker_current: vec![None],
                worker_need_resched: vec![false],
                worker_dispatch_target: vec![None],
            },
            task_id as u64,
        );
    }

    assert!(!overflowed(&t));

    record(
        &mut t,
        BaselineTraceEvent::Wakeup { task_id: TRACE_CAPACITY as u32 },
        BaselineTraceSnapshot {
            cpu_id: 0,
            current: None,
            runnable: vec![TRACE_CAPACITY as u32],
            need_resched: false,
            dispatch_target: None,
            worker_current: vec![None],
            worker_need_resched: vec![false],
            worker_dispatch_target: vec![None],
        },
        0,
    );

    assert!(overflowed(&t));
    assert_eq!(records(&t).len(), TRACE_CAPACITY);
}

#[test]
fn dump_lists_markers_and_rows() {
    let mut t = fresh();
    set_workload_artifact_enabled(&mut t, true);
    record(
        &mut t,
        BaselineTraceEvent::Wakeup { task_id: 3 },
        test_snapshot(2, None, vec![3, 4], false, None),
        1,
    );
    record_task_trace(&mut t, TaskTraceEvent::Spawn { parent_task_id: Some(1), child_task_id: 3 });
    let lines = dump_to_console(&t);
    assert_eq!(
        lines,
        vec![
            "BASELINE_TRACE: cpu=2 event=EvWakeup current=None runnable=[3, 4] need_resched=false dispatch_target=None",
            "BASELINE_TRACE_DONE",
            "BEGIN_SCHED_TRACE",
            "2\tWakeup\t3\t-\t-\t3,4\tfalse\t-\t-\tfalse\t-",
            "END_SCHED_TRACE",
            "BEGIN_TASK_TRACE",
            "Spawn\t3\t1",
            "END_TASK_TRACE",
        ]
    );
}

#[test]
fn dump_without_artifacts_stops_at_done_marker() {
    let mut t = fresh();
    record(&mut t, BaselineTraceEvent::Stutter, test_snapshot(0, Some(9), vec![], true, Some(9)), 1);
    let lines = dump_to_console(&t);
    assert_eq!(
        lines,
        vec![
            "BASELINE_TRACE: cpu=0 event=EvStutter current=Some(9) runnable=[] need_resched=true dispatch_target=Some(9)",
            "BASELINE_TRACE_DONE",
        ]
    );
}

#[test]
fn task_records_are_dropped_while_artifacts_are_disabled() {
    let mut t = fresh();
    record_task_trace(&mut t, TaskTraceEvent::Runnable { task_id: 1 });
    assert!(task_trace_records(&t).is_empty());
}
