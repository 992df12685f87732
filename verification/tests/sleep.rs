use awkernel::duration::Duration;
use awkernel::sleep_task::{Sleep, State};
use awkernel::sleeping::{primary_idle, IdleAction, SleepingTasks};
use awkernel::udp::Poll;

#[test]
fn durations_convert_exactly() {
    let d = Duration::from_millis(1500);
    assert_eq!(d.as_secs(), 1);
    assert_eq!(d.as_millis(), 1500);
    assert_eq!(d.as_micros(), 1_500_000);
    assert_eq!(d.as_nanos(), 1_500_000_000);
    assert_eq!(Duration::from_micros(2_000_001).as_nanos(), 2_000_001_000);
    assert_eq!(Duration::from_nanos(999).as_micros(), 0);
    assert_eq!(Duration::from_secs(3).as_millis(), 3000);
    assert!(Duration::zero().is_zero());
    assert!(!Duration::from_nanos(1).is_zero());
    assert_eq!(Duration::from_secs(u64::MAX).as_nanos(), u64::MAX as u128 * 1_000_000_000);
}

#[test]
fn sleep_arms_timer_once_then_finishes() {
    let mut s = Sleep::new(Duration::from_millis(3));
    assert!(s.trace_blocking);
    let (p, timer) = s.poll();
    assert_eq!(p, Poll::Pending);
    assert_eq!(timer, Some(Duration::from_millis(3)));
    assert_eq!(s.state, State::Wait);
    let (p, timer) = s.poll();
    assert_eq!(p, Poll::Pending);
    assert_eq!(timer, None);
    assert!(!s.is_terminated());
    assert!(s.timer_fired());
    assert!(s.is_terminated());
    assert_eq!(s.poll(), (Poll::Ready(State::Finished), None));
    assert!(!s.timer_fired());
}

#[test]
fn dropped_sleep_ignores_its_timer() {
    let mut s = Sleep::new_untraced(Duration::from_secs(1));
    assert!(!s.trace_blocking);
    s.poll();
    s.drop_sleep();
    assert_eq!(s.state, State::Canceled);
    assert!(!s.timer_fired());
    assert_eq!(s.poll(), (Poll::Ready(State::Canceled), None));
}

#[test]
fn unpolled_sleep_dropped_stays_ready() {
    let mut s = Sleep::new(Duration::zero());
    s.drop_sleep();
    assert_eq!(s.state, State::Ready);
    assert!(!s.is_terminated());
}

#[test]
fn sleepers_wake_in_deadline_order() {
    let mut q: SleepingTasks<&str> = SleepingTasks::new();
    assert_eq!(q.time_to_wait(0), None);
    q.sleep_task("b", Duration::from_nanos(300), 1000);
    assert_eq!(q.base_time, 1000);
    q.sleep_task("a", Duration::from_nanos(100), 1050);
    q.sleep_task("c", Duration::from_nanos(500), 1100);
    // Deadlines: a at 1150, b at 1300, c at 1600.
    assert_eq!(q.time_to_wait(1100), Some(Duration::from_nanos(50)));
    let due = q.wake_task(1299);
    assert_eq!(due, vec!["a"]);
    assert_eq!(q.time_to_wait(1299), Some(Duration::from_nanos(1)));
    let due = q.wake_task(1600);
    assert_eq!(due, vec!["b", "c"]);
    assert_eq!(q.time_to_wait(1600), None);
    assert!(q.wake_task(2000).is_empty());
}

#[test]
fn equal_deadlines_keep_arrival_order() {
    let mut q: SleepingTasks<u32> = SleepingTasks::new();
    q.sleep_task(1, Duration::from_nanos(10), 0);
    q.sleep_task(2, Duration::from_nanos(10), 0);
    q.sleep_task(3, Duration::from_nanos(5), 5);
    assert_eq!(q.time_to_wait(20), Some(Duration::zero()));
    assert_eq!(q.wake_task(10), vec![1, 2, 3]);
}

#[test]
fn primary_cpu_sleeps_only_for_long_waits_with_the_timer_on() {
    let long = Duration::from_millis(5);
    assert_eq!(primary_idle(Some(long), true), IdleAction::Sleep(long));
    assert_eq!(primary_idle(Some(long), false), IdleAction::Spin(10));
    assert_eq!(primary_idle(Some(Duration::from_micros(1000)), true), IdleAction::Spin(10));
    assert_eq!(primary_idle(None, true), IdleAction::Sleep(Duration::from_secs(1)));
    assert_eq!(primary_idle(None, false), IdleAction::Spin(10));
}
