use awkernel::perf::{
    get_context_switch_time, get_idle_wcet, get_kernel_time, get_kernel_wcet, get_perf_time, get_perf_wcet,
    get_task_time, start_idle, start_interrupt, start_kernel, start_task, transition_to, PerfState, PerfTable,
};
use awkernel::run_queue::{get_next_task, Schedulers};
use awkernel::scheduler::{move_preemption_pending, push_preemption_pending, remove_preemption_pending, PreemptionPending, SchedulerType, TaskKey};
use awkernel::task::{
    dispatch_busy, dispatch_preempted, dispatch_run, finish_poll, get_current_task, get_scheduler_type_by_task_id,
    panicking, spawn_with_ids, wake, wake_workers, PollFinish, PollOutcome, Runtime, State, WakeAction,
};
use awkernel::text::{
    render_dec, render_trace_rows_bool_list, render_trace_rows_option, render_trace_rows_option_list,
    render_trace_rows_runnable,
};

fn queue(s: &mut Schedulers, id: u32) {
    s.prioritized_fifo.push(awkernel::run_queue::prioritized_queue_entry(id, 1));
}

#[test]
fn a_task_waits_is_woken_and_terminates() {
    let mut rt = Runtime::new(2, 2);
    let mut s = Schedulers::new();
    let (sp, _) = spawn_with_ids(&mut rt, "job".to_string(), SchedulerType::PrioritizedFIFO(1), None, 0, 77).unwrap();
    let id = sp.runtime_task_id;
    queue(&mut s, id);
    assert_eq!(get_next_task(&mut s, &mut rt, 1, false), Some(id));
    assert!(dispatch_run(&mut rt, 1, id, 500));
    assert_eq!(get_current_task(&rt, 1), Some(id));
    assert_eq!(rt.tasks.get(id).unwrap().info.get_last_executed(), 500);

    assert_eq!(finish_poll(&mut rt, 1, id, PollOutcome::Pending), PollFinish::Waiting(None));
    assert_eq!(get_current_task(&rt, 1), None);
    assert_eq!(rt.tasks.get(id).unwrap().info.get_state(), State::Waiting);

    // Woken while waiting: it must be queued again.
    assert_eq!(wake(&mut rt, id), Some(WakeAction::Enqueue(SchedulerType::PrioritizedFIFO(1))));
    queue(&mut s, id);
    assert_eq!(get_next_task(&mut s, &mut rt, 1, true), Some(id));
    assert!(dispatch_run(&mut rt, 1, id, 600));
    // Woken while running: marked, and queued again once the poll ends.
    assert_eq!(wake(&mut rt, id), Some(WakeAction::MarkedNeedSched));
    assert_eq!(
        finish_poll(&mut rt, 1, id, PollOutcome::Pending),
        PollFinish::Waiting(Some(WakeAction::Enqueue(SchedulerType::PrioritizedFIFO(1))))
    );
    assert_eq!(rt.tasks.get(id).unwrap().info.get_state(), State::Runnable);

    queue(&mut s, id);
    assert_eq!(get_next_task(&mut s, &mut rt, 0, true), Some(id));
    assert!(dispatch_run(&mut rt, 0, id, 700));
    assert_eq!(finish_poll(&mut rt, 0, id, PollOutcome::Ready), PollFinish::Terminated(Some(77)));
    assert!(rt.tasks.get(id).is_none());
    assert_eq!(wake(&mut rt, id), None);
}

#[test]
fn a_panicking_task_is_marked_and_removed() {
    let mut rt = Runtime::new(2, 2);
    let (sp, _) = spawn_with_ids(&mut rt, "bad".to_string(), SchedulerType::PrioritizedRR(3), None, 0, 5).unwrap();
    let id = sp.runtime_task_id;
    assert!(!panicking(&mut rt, 1));
    assert!(dispatch_run(&mut rt, 1, id, 10));
    assert!(panicking(&mut rt, 1));
    assert_eq!(get_scheduler_type_by_task_id(&rt, id), Some(SchedulerType::Panicked));
    assert_eq!(finish_poll(&mut rt, 1, id, PollOutcome::Panicked), PollFinish::Panicked);
    assert!(rt.tasks.get(id).is_none());
}

#[test]
fn dispatching_a_finished_task_leaves_the_cpu_idle() {
    let mut rt = Runtime::new(2, 2);
    assert!(!dispatch_run(&mut rt, 1, 42, 0));
    assert_eq!(get_current_task(&rt, 1), None);
}

#[test]
fn busy_task_is_woken_and_cpu_released() {
    let mut rt = Runtime::new(2, 2);
    let (sp, _) = spawn_with_ids(&mut rt, "t".to_string(), SchedulerType::PrioritizedFIFO(1), None, 0, 0).unwrap();
    let id = sp.runtime_task_id;
    assert!(dispatch_run(&mut rt, 1, id, 0));
    assert_eq!(dispatch_busy(&mut rt, 1, id), Some(WakeAction::MarkedNeedSched));
    assert_eq!(get_current_task(&rt, 1), None);
    assert_eq!(dispatch_busy(&mut rt, 0, 999), None);
}

#[test]
fn preempted_dispatch_without_context_clears_the_request() {
    let mut rt = Runtime::new(2, 2);
    let (sp, _) = spawn_with_ids(&mut rt, "t".to_string(), SchedulerType::PrioritizedFIFO(1), None, 0, 0).unwrap();
    rt.set_preemption_request(1, true);
    assert_eq!(dispatch_preempted(&mut rt, 1, sp.runtime_task_id, 5), None);
    assert!(!rt.preemption_requested(1));
}

#[test]
fn workers_are_woken_until_tasks_run_out() {
    let mut w = wake_workers(2, 4);
    assert_eq!(w.next(), Some(1));
    w.record(false);
    assert_eq!(w.next(), Some(2));
    w.record(true);
    assert_eq!(w.next(), Some(3));
    w.record(true);
    assert_eq!(w.next(), None);
    assert_eq!(wake_workers(0, 4).next(), None);
    assert_eq!(wake_workers(5, 1).next(), None);
}

#[test]
fn pending_preemptions_can_be_removed_or_moved() {
    let mut p = PreemptionPending::new(2);
    push_preemption_pending(&mut p, 0, TaskKey { priority: 1, id: 1 });
    push_preemption_pending(&mut p, 0, TaskKey { priority: 2, id: 2 });
    push_preemption_pending(&mut p, 0, TaskKey { priority: 3, id: 1 });
    remove_preemption_pending(&mut p, 0, 1);
    assert_eq!(move_preemption_pending(&mut p, 0), vec![TaskKey { priority: 2, id: 2 }]);
    assert!(move_preemption_pending(&mut p, 0).is_empty());
}

#[test]
fn perf_charges_the_state_left() {
    let mut t = PerfTable::new(2);
    start_kernel(&mut t, 0, 100, 110);
    assert_eq!(get_kernel_time(&t, 0), 0);
    assert_eq!(get_perf_time(&t, 0), 10);
    start_task(&mut t, 0, 200, 205);
    assert_eq!(get_kernel_time(&t, 0), 90);
    assert_eq!(get_kernel_wcet(&t, 0), 90);
    assert_eq!(get_perf_time(&t, 0), 15);
    assert_eq!(get_perf_wcet(&t, 0), 10);
    // Staying in the same state changes nothing.
    start_task(&mut t, 0, 250, 260);
    assert_eq!(get_perf_time(&t, 0), 15);
    assert_eq!(start_interrupt(&mut t, 0, 300, 301), PerfState::Task);
    assert_eq!(get_task_time(&t, 0), 95);
    transition_to(&mut t, 0, PerfState::ContextSwitch, 401, 402);
    start_idle(&mut t, 0, 500, 500);
    assert_eq!(get_context_switch_time(&t, 0), 98);
    assert_eq!(get_idle_wcet(&t, 0), 0);
    assert_eq!(t.cpus[1].state, PerfState::Boot);
    assert_eq!(PerfState::from(4), PerfState::Interrupt);
    assert_eq!(PerfState::Idle.code(), 5);
}

#[test]
fn trace_row_texts() {
    assert_eq!(render_dec(0), "0");
    assert_eq!(render_dec(u64::MAX), u64::MAX.to_string());
    assert_eq!(render_trace_rows_option(None), "-");
    assert_eq!(render_trace_rows_option(Some(12)), "12");
    assert_eq!(render_trace_rows_option_list(&vec![Some(1), None, Some(30)]), "1,-,30");
    assert_eq!(render_trace_rows_bool_list(&vec![true, false]), "true,false");
    assert_eq!(render_trace_rows_runnable(&vec![3, 1, 2]), "3,1,2");
    assert_eq!(render_trace_rows_runnable(&vec![]), "");
}
