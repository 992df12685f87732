use awkernel::baseline_trace::{
    enable_workload_trace_artifacts, records, reset, take_dump_on_complete, task_trace_records, BaselineTrace,
    BaselineTraceEvent, TaskTraceEvent,
};
use awkernel::scheduler::SchedulerType;
use awkernel::task::{get_task, set_current_task, spawn_with_ids, PollFinish, PollOutcome, Runtime, State};
use awkernel::trace_hooks::{
    baseline_choose_runnable_ids, baseline_current_task_id, baseline_runnable_ids, baseline_snapshot,
    capture_baseline_dispatch_projection, record_baseline_complete, record_baseline_runnable_projection,
    finish_poll_traced, record_baseline_stutter, spawn_traced, trace_task_id_of_runtime_task_id,
};
use awkernel::userland::{install_baseline_trace_vm, install_sleep_wakeup_trace_vm};

fn runtime_with(trace_ids: &[u32]) -> (Runtime, Vec<u32>) {
    let mut rt = Runtime::new(3, 3);
    let mut ids = Vec::new();
    for &t in trace_ids {
        let (sp, _) = spawn_with_ids(&mut rt, format!("t{t}"), SchedulerType::PrioritizedFIFO(1), None, 0, t).unwrap();
        assert_eq!(sp.trace_task_id, t);
        ids.push(sp.runtime_task_id);
    }
    (rt, ids)
}

#[test]
fn trace_ids_follow_runtime_ids() {
    let (mut rt, ids) = runtime_with(&[30, 10]);
    assert_eq!(trace_task_id_of_runtime_task_id(&rt, ids[0]), Some(30));
    assert_eq!(trace_task_id_of_runtime_task_id(&rt, 777), None);
    assert_eq!(baseline_current_task_id(&rt, 1), None);
    set_current_task(&mut rt, 1, ids[1]);
    assert_eq!(baseline_current_task_id(&rt, 1), Some(10));
}

#[test]
fn runnable_ids_are_sorted_and_deduplicated() {
    let (rt, _) = runtime_with(&[30, 10, 20]);
    assert_eq!(baseline_runnable_ids(&rt, None), vec![10, 20, 30]);
    assert_eq!(baseline_runnable_ids(&rt, Some(20)), vec![10, 20, 30]);
    assert_eq!(baseline_runnable_ids(&rt, Some(5)), vec![5, 10, 20, 30]);
    assert_eq!(baseline_choose_runnable_ids(&rt, 20), vec![20, 10, 30]);
    assert_eq!(baseline_choose_runnable_ids(&rt, 99), vec![99, 10, 20, 30]);
}

#[test]
fn snapshots_show_every_worker() {
    let (mut rt, ids) = runtime_with(&[7, 8]);
    set_current_task(&mut rt, 2, ids[0]);
    rt.set_preemption_request(2, true);
    let s = baseline_snapshot(&rt, 1, Some(8), None, false, Some(8));
    assert_eq!(s.cpu_id, 1);
    assert_eq!(s.runnable, vec![7, 8]);
    assert_eq!(s.worker_current, vec![Some(8), Some(7)]);
    assert_eq!(s.worker_need_resched, vec![false, true]);
    assert_eq!(s.worker_dispatch_target, vec![Some(8), None]);
}

#[test]
fn hooks_record_on_the_right_cpu() {
    let (rt, ids) = runtime_with(&[4]);
    let mut t = BaselineTrace::new(3);
    reset(&mut t);
    record_baseline_runnable_projection(&mut t, &rt, 4, 100);
    record_baseline_stutter(&mut t, &rt, 2, 101);
    record_baseline_complete(&mut t, &rt, 1, 4, 102);
    let all = records(&t);
    assert_eq!(all.len(), 3);
    assert_eq!(all[0].event, BaselineTraceEvent::Wakeup { task_id: 4 });
    assert_eq!((all[0].event_id, all[0].snapshot.cpu_id, all[0].tsc), (0, 0, 100));
    assert_eq!(all[1].event, BaselineTraceEvent::Stutter);
    assert_eq!(all[1].snapshot.cpu_id, 2);
    assert_eq!(all[2].event, BaselineTraceEvent::Complete { task_id: 4 });
    assert_eq!((all[2].event_id, all[2].snapshot.cpu_id), (2, 1));
    assert!(all[2].snapshot.need_resched);
    assert_eq!(all[0].snapshot.runnable, vec![4]);

    let d = capture_baseline_dispatch_projection(&mut t, &rt, 1, ids[0], 103);
    assert_eq!(d.sched_choose.event, BaselineTraceEvent::Choose { task_id: 4 });
    assert_eq!(d.sched_dispatch.event, BaselineTraceEvent::Dispatch { task_id: 4 });
    assert_eq!(d.sched_choose.event_id + 1, d.sched_dispatch.event_id);
    assert_eq!(d.sched_choose.snapshot.runnable, vec![4]);
    assert_eq!(d.sched_dispatch.snapshot.current, Some(4));
}

#[test]
fn traced_spawn_records_parent_and_child() {
    let mut t = BaselineTrace::new(2);
    enable_workload_trace_artifacts(&mut t);
    let mut rt = Runtime::new(2, 2);
    let root = spawn_traced(&mut t, &mut rt, "root".to_string(), SchedulerType::PrioritizedFIFO(3), None, 0, 0).unwrap();
    assert_eq!(root.trace_task_id, 1);
    set_current_task(&mut rt, 0, root.runtime_task_id);
    let child = spawn_traced(&mut t, &mut rt, "child".to_string(), SchedulerType::PrioritizedRR(2), None, 5, 0).unwrap();
    assert_eq!(child.trace_task_id, 2);
    assert_eq!(t.trace_task_id, 3);
    let events: Vec<TaskTraceEvent> = task_trace_records(&t).iter().map(|r| r.event).collect();
    assert_eq!(
        events,
        vec![
            TaskTraceEvent::Spawn { parent_task_id: None, child_task_id: 1 },
            TaskTraceEvent::Spawn { parent_task_id: Some(1), child_task_id: 2 },
        ]
    );
    assert_eq!(get_task(&rt, child.runtime_task_id).unwrap().info.get_state(), State::Runnable);
}

#[test]
fn installed_trace_vm_arms_the_dump_for_its_root() {
    let mut t = BaselineTrace::new(1);
    let mut rt = Runtime::new(1, 1);
    t.trace_task_id = 40;
    let id = install_baseline_trace_vm(&mut t, &mut rt, 0, 0).unwrap();
    let root = get_task(&rt, id).unwrap();
    assert_eq!(root.name, "[Awkernel] baseline trace worker");
    assert_eq!(root.scheduler, SchedulerType::PrioritizedFIFO(31));
    assert_eq!(root.info.trace_task_id, 1);
    assert_eq!(t.trace_task_id, 2);
    assert!(!take_dump_on_complete(&mut t, id + 1));
    assert!(take_dump_on_complete(&mut t, id));
    assert!(!take_dump_on_complete(&mut t, id));

    let other = install_sleep_wakeup_trace_vm(&mut t, &mut rt, 0, 0).unwrap();
    assert_ne!(other, id);
    assert_eq!(get_task(&rt, other).unwrap().name, "[Awkernel] sleep_wakeup trace root");
    assert_eq!(t.dump_on_complete_task_id, other);
}

#[test]
fn traced_completion_records_and_requests_the_armed_dump() {
    let mut t = BaselineTrace::new(2);
    let mut rt = Runtime::new(2, 2);
    let id = install_baseline_trace_vm(&mut t, &mut rt, 0, 0).unwrap();
    enable_workload_trace_artifacts(&mut t);
    set_current_task(&mut rt, 1, id);
    let (fin, dump) = finish_poll_traced(&mut t, &mut rt, 1, id, PollOutcome::Ready, 900);
    assert_eq!(fin, PollFinish::Terminated(Some(1)));
    assert!(dump);
    assert_eq!(t.dump_on_complete_task_id, 0);
    let recs = records(&t);
    assert_eq!(recs.len(), 1);
    assert_eq!(recs[0].event, BaselineTraceEvent::Complete { task_id: 1 });
    assert_eq!(recs[0].tsc, 900);
    let events: Vec<TaskTraceEvent> = task_trace_records(&t).iter().map(|r| r.event).collect();
    assert_eq!(events, vec![TaskTraceEvent::Complete { task_id: 1 }]);
    assert!(get_task(&rt, id).is_none());
}

#[test]
fn a_pending_poll_leaves_the_trace_alone() {
    let mut t = BaselineTrace::new(1);
    let (mut rt, ids) = runtime_with(&[4]);
    set_current_task(&mut rt, 0, ids[0]);
    let (fin, dump) = finish_poll_traced(&mut t, &mut rt, 0, ids[0], PollOutcome::Pending, 3);
    assert_eq!(fin, PollFinish::Waiting(None));
    assert!(!dump);
    assert!(records(&t).is_empty());
}
