use awkernel::prioritized_rr::prioritized_wake_task;
use awkernel::run_queue::{collect_runnable_tasks, get_next_task, RunQueue, Schedulers};
use awkernel::scheduler::{
    get_priority, invoke_preemption, key_less, key_max, peek_preemption_pending, pop_preemption_pending,
    priority_list, push_preemption_pending, PreemptionPending, SchedulerType, TaskKey,
};
use awkernel::task::{
    get_current_task, get_task, get_tasks, get_tasks_running, set_current_task, spawn_with_ids, wake, PriorityInfo, Runtime, State,
    WakeAction,
};

fn spawn(rt: &mut Runtime, name: &str, t: SchedulerType) -> u32 {
    let (sp, action) = spawn_with_ids(rt, name.to_string(), t, None, 0, 0).unwrap();
    assert_eq!(action, WakeAction::Enqueue(t));
    sp.runtime_task_id
}

#[test]
fn priority_list_order() {
    assert_eq!(priority_list(0), SchedulerType::GEDF(0));
    assert_eq!(priority_list(3), SchedulerType::Panicked);
    assert_eq!(get_priority(SchedulerType::GEDF(77)), 3);
    assert_eq!(get_priority(SchedulerType::PrioritizedFIFO(1)), 2);
    assert_eq!(get_priority(SchedulerType::PrioritizedRR(1)), 1);
    assert_eq!(get_priority(SchedulerType::Panicked), 0);
}

#[test]
fn combined_priority_puts_scheduler_on_top() {
    assert_eq!(PriorityInfo::combine_priority(3, 5), (3u64 << 56) | 5);
    assert_eq!(PriorityInfo::new(0, 0).priority, 0);
    let mut p = PriorityInfo::new(1, 2);
    p.update_priority_info(2, 1);
    assert_eq!(p.priority, (2u64 << 56) | 1);
}

#[test]
fn task_keys_order_by_priority_then_id() {
    let a = TaskKey { priority: 5, id: 1 };
    let b = TaskKey { priority: 5, id: 2 };
    let c = TaskKey { priority: 6, id: 0 };
    assert!(key_less(a, b));
    assert!(key_less(b, c));
    assert!(!key_less(c, a));
    assert_eq!(key_max(a, b), b);
    assert_eq!(key_max(c, a), c);
    assert_eq!(key_max(a, a), a);
}

#[test]
fn pending_preemptions_pop_highest_first() {
    let mut p = PreemptionPending::new(2);
    assert_eq!(peek_preemption_pending(&p, 1), None);
    push_preemption_pending(&mut p, 1, TaskKey { priority: 1, id: 7 });
    push_preemption_pending(&mut p, 1, TaskKey { priority: 9, id: 3 });
    push_preemption_pending(&mut p, 1, TaskKey { priority: 4, id: 2 });
    assert_eq!(peek_preemption_pending(&p, 1), Some(TaskKey { priority: 9, id: 3 }));
    assert_eq!(pop_preemption_pending(&mut p, 1), Some(TaskKey { priority: 9, id: 3 }));
    assert_eq!(pop_preemption_pending(&mut p, 1), Some(TaskKey { priority: 4, id: 2 }));
    assert_eq!(pop_preemption_pending(&mut p, 1), Some(TaskKey { priority: 1, id: 7 }));
    assert_eq!(pop_preemption_pending(&mut p, 1), None);
    assert_eq!(pop_preemption_pending(&mut p, 0), None);
}

#[test]
fn spawned_tasks_get_fresh_ids_and_wake_once() {
    let mut rt = Runtime::new(2, 2);
    let a = spawn(&mut rt, "a", SchedulerType::PrioritizedFIFO(10));
    let b = spawn(&mut rt, "b", SchedulerType::PrioritizedRR(5));
    assert_ne!(a, 0);
    assert_ne!(a, b);
    // Already runnable: waking again only marks it.
    assert_eq!(wake(&mut rt, a), Some(WakeAction::MarkedNeedSched));
    assert_eq!(wake(&mut rt, 999), None);
}

#[test]
fn next_task_follows_priority_list() {
    let mut rt = Runtime::new(2, 2);
    let mut s = Schedulers::new();
    let mut p = PreemptionPending::new(2);
    let low = spawn(&mut rt, "low", SchedulerType::PrioritizedFIFO(1));
    let rr = spawn(&mut rt, "rr", SchedulerType::PrioritizedRR(5));
    let high = spawn(&mut rt, "high", SchedulerType::PrioritizedFIFO(20));
    assert_eq!(prioritized_wake_task(&mut rt, &mut p, &mut s.prioritized_fifo, low, 1), None);
    assert_eq!(s.prioritized_rr.wake_task(&mut rt, &mut p, rr), None);
    assert_eq!(prioritized_wake_task(&mut rt, &mut p, &mut s.prioritized_fifo, high, 20), None);
    s.panicked.wake_task(4242);
    assert_eq!(collect_runnable_tasks(&s, &p), vec![low, high, rr, 4242]);

    assert_eq!(get_next_task(&mut s, &mut rt, 1, true), Some(high));
    assert_eq!(get_current_task(&rt, 1), Some(high));
    assert_eq!(get_next_task(&mut s, &mut rt, 1, true), Some(low));
    assert_eq!(get_next_task(&mut s, &mut rt, 0, false), Some(rr));
    assert_eq!(get_current_task(&rt, 0), None);
    // The panicked queue held an unknown task: it is dropped.
    assert_eq!(get_next_task(&mut s, &mut rt, 0, true), None);
    assert_eq!(s.panicked.queue.len(), 0);
}

#[test]
fn waking_a_higher_priority_task_preempts_the_lowest_running() {
    let mut rt = Runtime::new(3, 3);
    let mut p = PreemptionPending::new(3);
    let mut q = RunQueue::new();
    let t1 = spawn(&mut rt, "t1", SchedulerType::PrioritizedFIFO(1));
    let t2 = spawn(&mut rt, "t2", SchedulerType::PrioritizedFIFO(2));
    let hi = spawn(&mut rt, "hi", SchedulerType::PrioritizedFIFO(30));
    set_current_task(&mut rt, 1, t2);
    set_current_task(&mut rt, 2, t1);
    let running = get_tasks_running(&rt);
    assert_eq!(running.len(), 3);
    assert_eq!(running[1].task_id, t2);

    let hi_key = TaskKey { priority: PriorityInfo::combine_priority(2, 30), id: hi };
    assert_eq!(invoke_preemption(&mut rt, &mut p, hi_key), Some((t1, 2)));
    assert!(rt.preemption_requested(2));
    assert_eq!(peek_preemption_pending(&p, 2), Some(hi_key));

    // A task that is already running needs no preemption.
    let t2_key = TaskKey { priority: PriorityInfo::combine_priority(2, 2), id: t2 };
    assert_eq!(invoke_preemption(&mut rt, &mut p, t2_key), None);

    // The lowest candidate now counts the pending task on CPU 2: CPU 1 is next.
    assert_eq!(prioritized_wake_task(&mut rt, &mut p, &mut q, hi, 30), Some((t2, 1)));
    assert_eq!(q.len(), 0);
}

#[test]
fn running_tasks_missing_from_the_table_are_not_targets() {
    let mut rt = Runtime::new(3, 3);
    let mut p = PreemptionPending::new(3);
    let low = spawn(&mut rt, "low", SchedulerType::PrioritizedFIFO(9));
    let hi = spawn(&mut rt, "hi", SchedulerType::PrioritizedFIFO(30));
    // CPU 1 runs a task that has left the table; CPU 2 runs `low`.
    set_current_task(&mut rt, 1, 777);
    set_current_task(&mut rt, 2, low);
    let hi_key = TaskKey { priority: PriorityInfo::combine_priority(2, 30), id: hi };
    assert_eq!(invoke_preemption(&mut rt, &mut p, hi_key), Some((low, 2)));
    assert_eq!(peek_preemption_pending(&p, 1), None);
}

#[test]
fn idle_runtime_never_preempts() {
    let mut rt = Runtime::new(2, 2);
    let mut p = PreemptionPending::new(2);
    let t = spawn(&mut rt, "t", SchedulerType::PrioritizedFIFO(3));
    let key = TaskKey { priority: u64::MAX, id: t };
    assert_eq!(invoke_preemption(&mut rt, &mut p, key), None);
    assert_eq!(rt.tasks.len(), 1);
    assert_eq!(rt.tasks.at(0).info.get_state(), State::Runnable);
}

#[test]
fn higher_scheduler_outranks_any_task_priority() {
    let max_task = (1u64 << 56) - 1;
    assert!(PriorityInfo::combine_priority(3, 0) > PriorityInfo::combine_priority(2, max_task));
    assert!(PriorityInfo::combine_priority(1, 7) > PriorityInfo::combine_priority(1, 6));
    assert_eq!(PriorityInfo::combine_priority(255, max_task), u64::MAX);
}

#[test]
fn tasks_are_listed_by_increasing_id() {
    let mut rt = Runtime::new(1, 1);
    let a = spawn(&mut rt, "a", SchedulerType::PrioritizedFIFO(1));
    let b = spawn(&mut rt, "b", SchedulerType::PrioritizedRR(2));
    let c = spawn(&mut rt, "c", SchedulerType::GEDF(5));
    rt.tasks.remove(b);
    let listed: Vec<u32> = get_tasks(&rt).iter().map(|t| t.id).collect();
    assert_eq!(listed, vec![a, c]);
    assert_eq!(get_task(&rt, c).map(|t| t.name.clone()), Some("c".to_string()));
    assert!(get_task(&rt, b).is_none());
}

#[test]
fn fifo_and_rr_priorities_above_highest_are_addressed_as_highest() {
    let mut rt = Runtime::new(2, 2);
    let a = spawn(&mut rt, "a", SchedulerType::PrioritizedFIFO(200));
    let b = spawn(&mut rt, "b", SchedulerType::PrioritizedRR(31));
    let c = spawn(&mut rt, "c", SchedulerType::PrioritizedRR(7));
    assert_eq!(get_task(&rt, a).unwrap().priority.priority, (2u64 << 56) | 31);
    assert_eq!(get_task(&rt, b).unwrap().priority.priority, (1u64 << 56) | 31);
    assert_eq!(get_task(&rt, c).unwrap().priority.priority, (1u64 << 56) | 7);
}
