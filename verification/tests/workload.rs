use awkernel::scheduler::SchedulerType;
use awkernel::workload::{
    choose_child_count, generic_trace_seed, parse_generic_trace_seed, plan_children, root_state,
    run_local_actions, trace_scheduler, worker_rng, white_space, ChildPlan, GenericWorkloadState,
    WorkloadRng, DEFAULT_GENERIC_TRACE_SEED, MAX_TOTAL_TASKS,
};

#[test]
fn xorshift_steps_match_reference_values() {
    let mut rng = WorkloadRng::new(1);
    assert_eq!(rng.next_u64(), 1082269761);
    assert_eq!(rng.state, 1082269761);
    assert_eq!(rng.next_u64(), 1152992998833853505);
}

#[test]
fn below_of_one_does_not_advance() {
    let mut rng = WorkloadRng::new(99);
    assert_eq!(rng.below(1), 0);
    assert_eq!(rng.below(0), 0);
    assert_eq!(rng.state, 99);
    let v = rng.below(3);
    assert_eq!(v, (WorkloadRng::new(99).next_u64() % 3) as u8);
    assert!(v < 3);
}

#[test]
fn bool_is_parity_of_next_value() {
    let mut a = WorkloadRng::new(1);
    let b = a.bool();
    assert_eq!(b, 1082269761u64 & 1 == 0);
    assert!(!b);
}

#[test]
fn local_actions_forced_and_free() {
    let mut rng = WorkloadRng::new(12345);
    let a = run_local_actions(&mut rng, true);
    assert_eq!(a.yields, 0);
    assert_eq!(a.sleeps_ms, vec![1]);
    assert_eq!(rng.state, 11245129090807876197);

    let mut rng = WorkloadRng::new(12345);
    let a = run_local_actions(&mut rng, false);
    assert_eq!(a.yields, 0);
    assert!(a.sleeps_ms.is_empty());
    assert_eq!(rng.state, 11245129090807876197);

    let mut rng = WorkloadRng::new(7);
    let a = run_local_actions(&mut rng, false);
    assert_eq!(a.sleeps_ms, vec![1]);
    assert_eq!(rng.state, 13931920357059763743);
}

#[test]
fn root_worker_plan_from_default_seed() {
    let state = root_state(DEFAULT_GENERIC_TRACE_SEED);
    assert_eq!(state.remaining_descendants, MAX_TOTAL_TASKS - 1);
    let mut rng = worker_rng(state);
    assert_eq!(rng.state, 5573589315611734387);
    let local = run_local_actions(&mut rng, state.depth == 0);
    assert_eq!(local.yields, 2);
    assert_eq!(local.sleeps_ms, vec![1]);
    let children = plan_children(state, &mut rng);
    assert_eq!(
        children,
        vec![ChildPlan {
            state: GenericWorkloadState { seed: 10987867432355543499, depth: 1, remaining_descendants: 3 },
            yield_after: true,
        }]
    );
    assert_eq!(rng.state, 12855571588121423480);
}

#[test]
fn children_never_exceed_budget() {
    for seed in 0u64..200 {
        let state = GenericWorkloadState { seed, depth: 0, remaining_descendants: 7 };
        let mut rng = worker_rng(state);
        let children = plan_children(state, &mut rng);
        assert!(!children.is_empty());
        let used: u32 = children.iter().map(|c| 1 + c.state.remaining_descendants as u32).sum();
        assert!(used <= 7);
        assert!(children.iter().all(|c| c.state.depth == 1));
    }
}

#[test]
fn no_children_at_depth_limit_or_without_budget() {
    let mut rng = WorkloadRng::new(5);
    let deep = GenericWorkloadState { seed: 1, depth: 3, remaining_descendants: 4 };
    assert_eq!(choose_child_count(deep, &mut rng), 0);
    assert_eq!(rng.state, 5);
    let empty = GenericWorkloadState { seed: 1, depth: 1, remaining_descendants: 0 };
    assert!(plan_children(empty, &mut rng).is_empty());
    assert_eq!(rng.state, 5);
}

#[test]
fn parses_trace_seeds() {
    assert_eq!(parse_generic_trace_seed("42"), Some(42));
    assert_eq!(parse_generic_trace_seed("  42 \t"), Some(42));
    assert_eq!(parse_generic_trace_seed("0x10"), Some(16));
    assert_eq!(parse_generic_trace_seed("0XfF"), Some(255));
    assert_eq!(parse_generic_trace_seed("+7"), Some(7));
    assert_eq!(parse_generic_trace_seed(""), None);
    assert_eq!(parse_generic_trace_seed("   "), None);
    assert_eq!(parse_generic_trace_seed("0x"), None);
    assert_eq!(parse_generic_trace_seed("-1"), None);
    assert_eq!(parse_generic_trace_seed("12a"), None);
    assert_eq!(parse_generic_trace_seed("18446744073709551615"), Some(u64::MAX));
    assert_eq!(parse_generic_trace_seed("18446744073709551616"), None);
    assert_eq!(parse_generic_trace_seed("0xffffffffffffffff"), Some(u64::MAX));
    assert_eq!(parse_generic_trace_seed("0x10000000000000000"), None);
}

#[test]
fn configured_seed_falls_back_to_default() {
    assert_eq!(generic_trace_seed(None), DEFAULT_GENERIC_TRACE_SEED);
    assert_eq!(generic_trace_seed(Some("oops")), DEFAULT_GENERIC_TRACE_SEED);
    assert_eq!(generic_trace_seed(Some("0x2a")), 42);
}

#[test]
fn white_space_matches_std() {
    for c in [' ', '\t', '\n', '\r', '\u{85}', '\u{a0}', '\u{2003}', '\u{3000}', 'a', '0', '_'] {
        assert_eq!(white_space(c), c.is_whitespace());
    }
}

#[test]
fn trace_workers_use_prioritized_fifo() {
    assert_eq!(trace_scheduler(), SchedulerType::PrioritizedFIFO(31));
}
