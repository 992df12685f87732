//! Planning of logical periodic jobs that reuse one runtime task.
//!
//! Each iteration of a periodic job body is a logical job identified by a
//! monotonically increasing `loop_index`. The functions here compute the
//! release time, absolute deadline and GEDF deadline hint of every job; the
//! runtime that spawns the task and sleeps between jobs drives them.
use vstd::prelude::*;
use crate::duration::Duration;
use crate::task::{GedfDeadlineHint, Runtime, SpawnedTask, spawn_with_ids};
use crate::scheduler::SchedulerType;

verus! {

/// Period and relative deadline parameters for a periodic GEDF task.
#[derive(Debug, Clone, Copy, PartialEq, Eq)]
pub struct PeriodicTaskSpec {
    /// Logical spacing between consecutive releases.
    pub period: Duration,
    /// Deadline relative to each logical release time.
    pub relative_deadline: Duration,
}

/// Context passed to one invocation of a periodic task body.
#[derive(Debug, Clone, Copy, PartialEq, Eq)]
pub struct PeriodicJobContext {
    pub loop_index: u64,
    pub logical_release_time_us: u64,
    pub absolute_deadline_us: u64,
    pub period: Duration,
    pub relative_deadline: Duration,
}

/// Errors returned while creating or advancing a periodic task.
#[derive(Debug, Clone, Copy, PartialEq, Eq)]
pub enum PeriodicTaskError {
    /// The configured period was zero.
    ZeroPeriod,
    /// The configured relative deadline was zero.
    ZeroRelativeDeadline,
    /// A duration, release time, deadline, or loop index did not fit in `u64`.
    DurationOverflow,
}

/// Decision returned by a controlled periodic job body.
#[derive(Debug, Clone, Copy, PartialEq, Eq)]
pub enum PeriodicJobDisposition {
    /// Continue with the next logical periodic job.
    Continue,
    /// Complete the periodic runtime task after the current logical job.
    Complete,
}

/// Whole microseconds of `d`, when they fit in `u64`.
pub open spec fn spec_duration_to_us(d: Duration) -> Result<u64, PeriodicTaskError> {
    if d.spec_micros() <= u64::MAX {
        Ok(d.spec_micros() as u64)
    } else {
        Err(PeriodicTaskError::DurationOverflow)
    }
}

/// The result `PeriodicTaskSpec::new` gives for the two durations.
pub open spec fn spec_new_periodic(period: Duration, relative_deadline: Duration) -> Result<PeriodicTaskSpec, PeriodicTaskError> {
    if period.total_nanos() == 0 {
        Err(PeriodicTaskError::ZeroPeriod)
    } else if relative_deadline.total_nanos() == 0 {
        Err(PeriodicTaskError::ZeroRelativeDeadline)
    } else if spec_duration_to_us(period) is Err || spec_duration_to_us(relative_deadline) is Err {
        Err(PeriodicTaskError::DurationOverflow)
    } else {
        Ok(PeriodicTaskSpec { period, relative_deadline })
    }
}

impl PeriodicTaskSpec {
    /// Builds a validated periodic task specification.
    ///
    /// Both durations must be non-zero and representable in whole microseconds
    /// as `u64`; `relative_deadline` may exceed `period`.
    pub fn new(period: Duration, relative_deadline: Duration) -> (r: Result<Self, PeriodicTaskError>)
        ensures
            r == spec_new_periodic(period, relative_deadline),
    {
        if period.is_zero() {
            return Err(PeriodicTaskError::ZeroPeriod);
        }
        if relative_deadline.is_zero() {
            return Err(PeriodicTaskError::ZeroRelativeDeadline);
        }
        duration_to_us(period)?;
        duration_to_us(relative_deadline)?;
        Ok(Self { period, relative_deadline })
    }

    pub fn period_us(self) -> (r: Result<u64, PeriodicTaskError>)
        ensures
            r == spec_duration_to_us(self.period),
    {
        duration_to_us(self.period)
    }

    pub fn relative_deadline_us(self) -> (r: Result<u64, PeriodicTaskError>)
        ensures
            r == spec_duration_to_us(self.relative_deadline),
    {
        duration_to_us(self.relative_deadline)
    }
}

/// Converts a duration to whole microseconds, failing when they do not fit in `u64`.
pub fn duration_to_us(duration: Duration) -> (r: Result<u64, PeriodicTaskError>)
    ensures
        r == spec_duration_to_us(duration),
{
    let m = duration.as_micros();
    if m <= u64::MAX as u128 {
        Ok(m as u64)
    } else {
        Err(PeriodicTaskError::DurationOverflow)
    }
}

/// Builds the GEDF deadline hint of the job with `loop_index` released at
/// `logical_release_time_us`.
pub fn deadline_hint(
    logical_release_time_us: u64,
    relative_deadline_us: u64,
    loop_index: u64,
) -> (r: Result<GedfDeadlineHint, PeriodicTaskError>)
    ensures
        logical_release_time_us + relative_deadline_us <= u64::MAX ==> r == Ok::<GedfDeadlineHint, PeriodicTaskError>(GedfDeadlineHint {
            logical_release_time: logical_release_time_us,
            absolute_deadline: (logical_release_time_us + relative_deadline_us) as u64,
            periodic_loop_index: Some(loop_index),
        }),
        logical_release_time_us + relative_deadline_us > u64::MAX ==> r == Err::<GedfDeadlineHint, PeriodicTaskError>(PeriodicTaskError::DurationOverflow),
{
    let absolute_deadline = match logical_release_time_us.checked_add(relative_deadline_us) {
        Some(d) => d,
        None => return Err(PeriodicTaskError::DurationOverflow),
    };
    Ok(GedfDeadlineHint {
        logical_release_time: logical_release_time_us,
        absolute_deadline,
        periodic_loop_index: Some(loop_index),
    })
}

/// Time left from `now_us` until the release at `logical_release_time_us`
/// (zero when the release is already due).
pub fn wait_duration_until(logical_release_time_us: u64, now_us: u64) -> (d: Duration)
    ensures
        logical_release_time_us >= now_us ==> d.total_nanos() == (logical_release_time_us - now_us) * 1000,
        logical_release_time_us < now_us ==> d.total_nanos() == 0,
{
    Duration::from_micros(logical_release_time_us.saturating_sub(now_us))
}

/// Why a running periodic loop stopped with an error.
#[derive(Debug, Clone, Copy, PartialEq, Eq)]
pub enum PeriodicLoopError {
    DeadlineOverflow,
    LoopIndexOverflow,
    ReleaseTimeOverflow,
}

/// Progress of a periodic task: the job about to run and the fixed parameters.
#[derive(Debug, Clone, Copy, PartialEq, Eq)]
pub struct PeriodicJobState {
    pub spec: PeriodicTaskSpec,
    pub period_us: u64,
    pub relative_deadline_us: u64,
    pub first_release_time_us: u64,
    pub loop_index: u64,
    pub logical_release_time_us: u64,
}

impl PeriodicJobState {
    /// The release of job `loop_index` is `loop_index` periods after the first one.
    pub open spec fn wf(self) -> bool {
        self.logical_release_time_us == self.first_release_time_us + self.loop_index * self.period_us
    }
}

/// Step taken after a job body finished.
#[derive(Debug, Clone, Copy, PartialEq, Eq)]
pub enum PeriodicStep {
    /// The task completes.
    Complete,
    /// Sleep until `state.logical_release_time_us`, with `hint` installed, and run the next job.
    Next { state: PeriodicJobState, hint: GedfDeadlineHint },
    /// The loop stops with an error.
    Fail(PeriodicLoopError),
}

/// Starts a periodic task whose first release is `now_us`: converts the
/// parameters and builds the first deadline hint.
pub fn periodic_start(spec: PeriodicTaskSpec, now_us: u64) -> (r: Result<(PeriodicJobState, GedfDeadlineHint), PeriodicTaskError>)
    ensures
        match (spec_duration_to_us(spec.period), spec_duration_to_us(spec.relative_deadline)) {
            (Err(e), _) => r == Err::<(PeriodicJobState, GedfDeadlineHint), PeriodicTaskError>(e),
            (Ok(_), Err(e)) => r == Err::<(PeriodicJobState, GedfDeadlineHint), PeriodicTaskError>(e),
            (Ok(p), Ok(rd)) => if now_us + rd > u64::MAX {
                r == Err::<(PeriodicJobState, GedfDeadlineHint), PeriodicTaskError>(PeriodicTaskError::DurationOverflow)
            } else {
                r matches Ok((st, hint)) && {
                    &&& st.period_us == p
                    &&& st.relative_deadline_us == rd
                    &&& st.spec == spec
                    &&& st.loop_index == 0
                    &&& st.first_release_time_us == now_us
                    &&& st.logical_release_time_us == now_us
                    &&& st.wf()
                    &&& hint.logical_release_time == now_us
                    &&& hint.absolute_deadline == now_us + rd
                    &&& hint.periodic_loop_index == Some(0u64)
                }
            },
        },
{
    let period_us = spec.period_us()?;
    let relative_deadline_us = spec.relative_deadline_us()?;
    let first_hint = deadline_hint(now_us, relative_deadline_us, 0)?;
    let st = PeriodicJobState {
        spec,
        period_us,
        relative_deadline_us,
        first_release_time_us: now_us,
        loop_index: 0,
        logical_release_time_us: now_us,
    };
    Ok((st, first_hint))
}

/// Builds the context handed to the job body of the current job.
pub fn periodic_job_context(st: &PeriodicJobState) -> (r: Result<PeriodicJobContext, PeriodicLoopError>)
    ensures
        st.logical_release_time_us + st.relative_deadline_us <= u64::MAX ==> r == Ok::<PeriodicJobContext, PeriodicLoopError>(PeriodicJobContext {
            loop_index: st.loop_index,
            logical_release_time_us: st.logical_release_time_us,
            absolute_deadline_us: (st.logical_release_time_us + st.relative_deadline_us) as u64,
            period: st.spec.period,
            relative_deadline: st.spec.relative_deadline,
        }),
        st.logical_release_time_us + st.relative_deadline_us > u64::MAX ==> r == Err::<PeriodicJobContext, PeriodicLoopError>(PeriodicLoopError::DeadlineOverflow),
{
    match deadline_hint(st.logical_release_time_us, st.relative_deadline_us, st.loop_index) {
        Ok(hint) => Ok(PeriodicJobContext {
            loop_index: st.loop_index,
            logical_release_time_us: st.logical_release_time_us,
            absolute_deadline_us: hint.absolute_deadline,
            period: st.spec.period,
            relative_deadline: st.spec.relative_deadline,
        }),
        Err(_) => Err(PeriodicLoopError::DeadlineOverflow),
    }
}

/// What follows the job of `st` when its body answered `disposition`:
/// completion, the next job one period later (with its deadline hint), or an
/// overflow error.
pub open spec fn advance_post(st: PeriodicJobState, disposition: PeriodicJobDisposition, r: PeriodicStep) -> bool {
    &&& disposition == PeriodicJobDisposition::Complete ==> r == PeriodicStep::Complete
    &&& disposition == PeriodicJobDisposition::Continue ==> {
        if st.loop_index + 1 > u64::MAX {
            r == PeriodicStep::Fail(PeriodicLoopError::LoopIndexOverflow)
        } else if st.logical_release_time_us + st.period_us > u64::MAX {
            r == PeriodicStep::Fail(PeriodicLoopError::ReleaseTimeOverflow)
        } else if st.logical_release_time_us + st.period_us + st.relative_deadline_us > u64::MAX {
            r == PeriodicStep::Fail(PeriodicLoopError::DeadlineOverflow)
        } else {
            r matches PeriodicStep::Next { state, hint } && {
                &&& state.wf()
                &&& state.spec == st.spec
                &&& state.period_us == st.period_us
                &&& state.relative_deadline_us == st.relative_deadline_us
                &&& state.first_release_time_us == st.first_release_time_us
                &&& state.loop_index == st.loop_index + 1
                &&& state.logical_release_time_us == st.logical_release_time_us + st.period_us
                &&& hint.logical_release_time == state.logical_release_time_us
                &&& hint.absolute_deadline == state.logical_release_time_us + st.relative_deadline_us
                &&& hint.periodic_loop_index == Some(state.loop_index)
            }
        }
    }
}

/// Decides what follows a finished job body: completion, the next job one
/// period later (with its deadline hint), or an overflow error.
pub fn periodic_advance(st: &PeriodicJobState, disposition: PeriodicJobDisposition) -> (r: PeriodicStep)
    requires
        st.wf(),
    ensures
        advance_post(*st, disposition, r),
{
    match disposition {
        PeriodicJobDisposition::Complete => return PeriodicStep::Complete,
        PeriodicJobDisposition::Continue => {},
    }
    let loop_index = match st.loop_index.checked_add(1) {
        Some(i) => i,
        None => return PeriodicStep::Fail(PeriodicLoopError::LoopIndexOverflow),
    };
    let release = match st.logical_release_time_us.checked_add(st.period_us) {
        Some(t) => t,
        None => return PeriodicStep::Fail(PeriodicLoopError::ReleaseTimeOverflow),
    };
    let hint = match deadline_hint(release, st.relative_deadline_us, loop_index) {
        Ok(h) => h,
        Err(_) => return PeriodicStep::Fail(PeriodicLoopError::DeadlineOverflow),
    };
    let state = PeriodicJobState {
        spec: st.spec,
        period_us: st.period_us,
        relative_deadline_us: st.relative_deadline_us,
        first_release_time_us: st.first_release_time_us,
        loop_index,
        logical_release_time_us: release,
    };
    assert(state.wf()) by (nonlinear_arith)
        requires
            st.logical_release_time_us == st.first_release_time_us + st.loop_index * st.period_us,
            state.loop_index == st.loop_index + 1,
            state.logical_release_time_us == st.logical_release_time_us + st.period_us,
            state.first_release_time_us == st.first_release_time_us,
            state.period_us == st.period_us,
    ;
    PeriodicStep::Next { state, hint }
}


/// What follows a finished job body that answered `outcome`: its error stops
/// the task with that error (the job is not called again); otherwise as
/// `periodic_advance` decides.
pub fn periodic_after_job<E>(st: &PeriodicJobState, outcome: Result<PeriodicJobDisposition, E>) -> (r: Result<PeriodicStep, E>)
    requires
        st.wf(),
    ensures
        match outcome {
            Ok(d) => r matches Ok(step) && advance_post(*st, d, step),
            Err(e) => r == Err::<PeriodicStep, E>(e),
        },
{
    match outcome {
        Ok(d) => Ok(periodic_advance(st, d)),
        Err(e) => Err(e),
    }
}

/// Job `b` is the one that follows job `a` when the body of `a` asks to
/// continue.
pub open spec fn continues_to(a: PeriodicJobState, b: PeriodicJobState) -> bool {
    exists|h: GedfDeadlineHint| advance_post(a, PeriodicJobDisposition::Continue, PeriodicStep::Next { state: b, hint: h })
}

/// Along a run of jobs that each asked to continue, starting from the first
/// job, job `k` has loop index `k`, is released `k` periods after the first
/// release, and keeps the task's parameters.
pub proof fn lemma_periodic_run(states: Seq<PeriodicJobState>)
    requires
        states.len() >= 1,
        states[0].wf(),
        states[0].loop_index == 0,
        forall|i: int| 0 <= i < states.len() - 1 ==> continues_to(#[trigger] states[i], states[i + 1]),
    ensures
        forall|k: int| 0 <= k < states.len() ==> {
            &&& (#[trigger] states[k]).loop_index == k
            &&& states[k].logical_release_time_us == states[0].first_release_time_us + k * states[0].period_us
            &&& states[k].first_release_time_us == states[0].first_release_time_us
            &&& states[k].period_us == states[0].period_us
            &&& states[k].relative_deadline_us == states[0].relative_deadline_us
            &&& states[k].spec == states[0].spec
        },
    decreases states.len(),
{
    if states.len() > 1 {
        let prefix = states.drop_last();
        assert forall|i: int| 0 <= i < prefix.len() - 1 implies continues_to(#[trigger] prefix[i], prefix[i + 1]) by {
            assert(continues_to(states[i], states[i + 1]));
        }
        lemma_periodic_run(prefix);
        let n = states.len() - 1;
        assert(continues_to(states[n - 1], states[n]));
        assert(prefix[n - 1] == states[n - 1]);
        assert forall|k: int| 0 <= k < states.len() implies {
            &&& (#[trigger] states[k]).loop_index == k
            &&& states[k].logical_release_time_us == states[0].first_release_time_us + k * states[0].period_us
            &&& states[k].first_release_time_us == states[0].first_release_time_us
            &&& states[k].period_us == states[0].period_us
            &&& states[k].relative_deadline_us == states[0].relative_deadline_us
            &&& states[k].spec == states[0].spec
        } by {
            if k < n {
                assert(prefix[k] == states[k]);
            } else {
                let a = states[n - 1];
                let b = states[n];
                assert(b.logical_release_time_us == a.logical_release_time_us + a.period_us);
                assert(k * states[0].period_us == (n - 1) * states[0].period_us + states[0].period_us) by (nonlinear_arith)
                    requires k == n;
            }
        }
    }
}

/// Spawns the runtime task of a periodic GEDF job sequence whose first
/// release is `now_us`: the task is scheduled as GEDF with the relative
/// deadline in microseconds. An invalid or overflowing specification is
/// refused before anything is spawned; `None` when every task ID is in use.
/// Also the state of the first job and its deadline hint.
pub fn spawn_periodic_task_controlled(
    rt: &mut Runtime,
    name: String,
    spec: PeriodicTaskSpec,
    now_us: u64,
    trace_task_id: u32,
) -> (r: Result<Option<(SpawnedTask, PeriodicJobState, GedfDeadlineHint)>, PeriodicTaskError>)
    requires
        old(rt).wf(),
    ensures
        final(rt).wf(),
        match (spec_duration_to_us(spec.period), spec_duration_to_us(spec.relative_deadline)) {
            (Err(e), _) => r == Err::<Option<(SpawnedTask, PeriodicJobState, GedfDeadlineHint)>, PeriodicTaskError>(e)
                && final(rt).tasks@ == old(rt).tasks@,
            (Ok(_), Err(e)) => r == Err::<Option<(SpawnedTask, PeriodicJobState, GedfDeadlineHint)>, PeriodicTaskError>(e)
                && final(rt).tasks@ == old(rt).tasks@,
            (Ok(p), Ok(rd)) => if now_us + rd > u64::MAX {
                r == Err::<Option<(SpawnedTask, PeriodicJobState, GedfDeadlineHint)>, PeriodicTaskError>(PeriodicTaskError::DurationOverflow)
                    && final(rt).tasks@ == old(rt).tasks@
            } else {
                match r {
                    Ok(None) => final(rt).tasks@ == old(rt).tasks@ && forall|x: u32| x != 0 ==> old(rt).tasks.used(x),
                    Ok(Some((sp, st, hint))) => {
                        &&& !old(rt).tasks.used(sp.runtime_task_id)
                        &&& sp.runtime_task_id != 0
                        &&& final(rt).tasks.used(sp.runtime_task_id)
                        &&& final(rt).tasks@.last().id == sp.runtime_task_id
                        &&& final(rt).tasks@.last().name@ == name@
                        &&& final(rt).tasks@.last().scheduler == SchedulerType::GEDF(rd)
                        &&& st.period_us == p
                        &&& st.relative_deadline_us == rd
                        &&& st.spec == spec
                        &&& st.loop_index == 0
                        &&& st.first_release_time_us == now_us
                        &&& st.logical_release_time_us == now_us
                        &&& st.wf()
                        &&& hint.logical_release_time == now_us
                        &&& hint.absolute_deadline == now_us + rd
                        &&& hint.periodic_loop_index == Some(0u64)
                    },
                    Err(_) => false,
                }
            },
        },
{
    let (st, hint) = periodic_start(spec, now_us)?;
    match spawn_with_ids(rt, name, SchedulerType::GEDF(st.relative_deadline_us), None, now_us, trace_task_id) {
        Some((sp, _)) => Ok(Some((sp, st, hint))),
        None => Ok(None),
    }
}

} // verus!
