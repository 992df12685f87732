use awkernel::duration::Duration;
use awkernel::periodic_task::{
    deadline_hint, periodic_advance, periodic_after_job, periodic_job_context, periodic_start, spawn_periodic_task_controlled,
    wait_duration_until, PeriodicJobDisposition, PeriodicStep, PeriodicTaskError, PeriodicTaskSpec,
};
use awkernel::scheduler::SchedulerType;
use awkernel::task::{get_task, Runtime};

#[test]
fn validates_periodic_task_spec() {
    assert_eq!(
        PeriodicTaskSpec::new(Duration::zero(), Duration::from_micros(1)),
        Err(PeriodicTaskError::ZeroPeriod)
    );
    assert_eq!(
        PeriodicTaskSpec::new(Duration::from_micros(1), Duration::zero()),
        Err(PeriodicTaskError::ZeroRelativeDeadline)
    );
    assert!(PeriodicTaskSpec::new(Duration::from_micros(10), Duration::from_micros(20)).is_ok());
}

#[test]
fn builds_deadline_hint_with_loop_index() {
    let hint = deadline_hint(10, 5, 3).unwrap();
    assert_eq!(hint.logical_release_time, 10);
    assert_eq!(hint.absolute_deadline, 15);
    assert_eq!(hint.periodic_loop_index, Some(3));
}

#[test]
fn periodic_job_disposition_values_are_distinct() {
    assert_ne!(PeriodicJobDisposition::Continue, PeriodicJobDisposition::Complete);
}

#[test]
fn deadline_hint_overflow_is_reported() {
    assert_eq!(deadline_hint(u64::MAX, 1, 0), Err(PeriodicTaskError::DurationOverflow));
}

#[test]
fn wait_duration_is_zero_after_release() {
    assert!(wait_duration_until(10, 20).is_zero());
    assert_eq!(wait_duration_until(30, 20).as_micros(), 10);
}

#[test]
fn periodic_releases_are_spaced_by_the_period() {
    let spec = PeriodicTaskSpec::new(Duration::from_micros(100), Duration::from_micros(40)).unwrap();
    let (state, hint) = periodic_start(spec, 1000).unwrap();
    assert_eq!(hint.logical_release_time, 1000);
    assert_eq!(hint.absolute_deadline, 1040);
    assert_eq!(hint.periodic_loop_index, Some(0));
    let ctx = periodic_job_context(&state).unwrap();
    assert_eq!(ctx.loop_index, 0);
    assert_eq!(ctx.logical_release_time_us, 1000);
    assert_eq!(ctx.absolute_deadline_us, 1040);
    match periodic_advance(&state, PeriodicJobDisposition::Continue) {
        PeriodicStep::Next { state: next, hint } => {
            assert_eq!(hint.logical_release_time, 1100);
            assert_eq!(hint.absolute_deadline, 1140);
            assert_eq!(hint.periodic_loop_index, Some(1));
            let ctx = periodic_job_context(&next).unwrap();
            assert_eq!(ctx.loop_index, 1);
        }
        _ => panic!("expected the next job"),
    }
    assert!(matches!(
        periodic_advance(&state, PeriodicJobDisposition::Complete),
        PeriodicStep::Complete
    ));
}

#[test]
fn job_error_stops_the_task_with_that_error() {
    let spec = PeriodicTaskSpec::new(Duration::from_micros(100), Duration::from_micros(40)).unwrap();
    let (state, _) = periodic_start(spec, 0).unwrap();
    assert_eq!(periodic_after_job::<&str>(&state, Err("sensor failed")), Err("sensor failed"));
    assert!(matches!(periodic_after_job::<&str>(&state, Ok(PeriodicJobDisposition::Complete)), Ok(PeriodicStep::Complete)));
    assert!(matches!(
        periodic_after_job::<&str>(&state, Ok(PeriodicJobDisposition::Continue)),
        Ok(PeriodicStep::Next { .. })
    ));
}

#[test]
fn kth_job_is_released_k_periods_after_the_first() {
    let spec = PeriodicTaskSpec::new(Duration::from_micros(250), Duration::from_micros(100)).unwrap();
    let (mut state, _) = periodic_start(spec, 5000).unwrap();
    for k in 0..5u64 {
        let ctx = periodic_job_context(&state).unwrap();
        assert_eq!(ctx.loop_index, k);
        assert_eq!(ctx.logical_release_time_us, 5000 + k * 250);
        assert_eq!(ctx.absolute_deadline_us, 5000 + k * 250 + 100);
        state = match periodic_advance(&state, PeriodicJobDisposition::Continue) {
            PeriodicStep::Next { state, .. } => state,
            _ => panic!("expected the next job"),
        };
    }
}

#[test]
fn periodic_task_is_spawned_under_gedf_with_its_relative_deadline() {
    let mut rt = Runtime::new(2, 2);
    let spec = PeriodicTaskSpec::new(Duration::from_micros(1000), Duration::from_micros(300)).unwrap();
    let (sp, st, hint) = spawn_periodic_task_controlled(&mut rt, "sampler".to_string(), spec, 42, 0).unwrap().unwrap();
    assert_eq!(get_task(&rt, sp.runtime_task_id).unwrap().scheduler, SchedulerType::GEDF(300));
    assert_eq!(st.loop_index, 0);
    assert_eq!(st.logical_release_time_us, 42);
    assert_eq!(hint.absolute_deadline, 342);
    let bad = PeriodicTaskSpec::new(Duration::from_micros(1000), Duration::from_micros(300)).unwrap();
    assert!(matches!(
        spawn_periodic_task_controlled(&mut rt, "late".to_string(), bad, u64::MAX, 0),
        Err(PeriodicTaskError::DurationOverflow)
    ));
}
