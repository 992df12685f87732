//! Sleeping: the state machine of a sleep future, shared between the task
//! that awaits it and the timer that ends it.
use vstd::prelude::*;
use crate::duration::Duration;
use crate::udp::Poll;

verus! {

/// Where a sleep is: not started, waiting for its timer, canceled, or done.
#[derive(Debug, Clone, Copy, PartialEq, Eq, Structural)]
pub enum State {
    Ready,
    Wait,
    Canceled,
    Finished,
}

/// A future that can be canceled in place.
pub trait Cancel {
    fn cancel_unpin(&mut self);
}

/// A sleep of `dur`.
pub struct Sleep {
    pub state: State,
    pub dur: Duration,
    /// Whether the sleeping task is recorded as blocked in the trace.
    pub trace_blocking: bool,
}

/// What one poll of a sleep yields: the poll result, and the duration of the
/// timer to arm (on the first poll only).
pub open spec fn sleep_poll(s: State, dur: Duration) -> (Poll<State>, Option<Duration>, State) {
    match s {
        State::Wait => (Poll::Pending, None, State::Wait),
        State::Canceled => (Poll::Ready(State::Canceled), None, State::Canceled),
        State::Finished => (Poll::Ready(State::Finished), None, State::Finished),
        State::Ready => (Poll::Pending, Some(dur), State::Wait),
    }
}

/// The state after cancellation: a sleep not yet over is canceled.
pub open spec fn canceled(s: State) -> State {
    match s {
        State::Ready | State::Wait => State::Canceled,
        _ => s,
    }
}

impl Sleep {
    /// A sleep of `dur` that records the sleeping task as blocked.
    pub fn new(dur: Duration) -> (s: Sleep)
        ensures
            s.state == State::Ready,
            s.dur == dur,
            s.trace_blocking,
    {
        Sleep { state: State::Ready, dur, trace_blocking: true }
    }

    /// A sleep of `dur` that is not recorded in the trace.
    pub fn new_untraced(dur: Duration) -> (s: Sleep)
        ensures
            s.state == State::Ready,
            s.dur == dur,
            !s.trace_blocking,
    {
        Sleep { state: State::Ready, dur, trace_blocking: false }
    }

    /// Polls the sleep. The first poll starts the wait and asks for a timer of
    /// the sleep's duration; later polls are pending until the sleep is over,
    /// then yield how it ended.
    pub fn poll(&mut self) -> (r: (Poll<State>, Option<Duration>))
        ensures
            r.0 == sleep_poll(old(self).state, old(self).dur).0,
            r.1 == sleep_poll(old(self).state, old(self).dur).1,
            final(self).state == sleep_poll(old(self).state, old(self).dur).2,
            final(self).dur == old(self).dur,
            final(self).trace_blocking == old(self).trace_blocking,
    {
        match self.state {
            State::Wait => (Poll::Pending, None),
            State::Canceled => (Poll::Ready(State::Canceled), None),
            State::Finished => (Poll::Ready(State::Finished), None),
            State::Ready => {
                self.state = State::Wait;
                (Poll::Pending, Some(self.dur))
            },
        }
    }

    /// The timer of the sleep fired: a waiting sleep is finished and its task
    /// is to be woken (true); otherwise nothing changes.
    pub fn timer_fired(&mut self) -> (wake: bool)
        ensures
            wake == (old(self).state == State::Wait),
            final(self).state == (if old(self).state == State::Wait { State::Finished } else { old(self).state }),
            final(self).dur == old(self).dur,
            final(self).trace_blocking == old(self).trace_blocking,
    {
        match self.state {
            State::Wait => {
                self.state = State::Finished;
                true
            },
            _ => false,
        }
    }

    /// Whether the sleep is over: finished or canceled.
    pub fn is_terminated(&self) -> (b: bool)
        ensures
            b == (self.state == State::Finished || self.state == State::Canceled),
    {
        match self.state {
            State::Finished | State::Canceled => true,
            _ => false,
        }
    }

    /// The sleep is dropped: a waiting sleep is canceled so its timer does
    /// nothing.
    pub fn drop_sleep(&mut self)
        ensures
            final(self).state == (if old(self).state == State::Wait { State::Canceled } else { old(self).state }),
            final(self).dur == old(self).dur,
    {
        match self.state {
            State::Wait => {
                self.state = State::Canceled;
            },
            _ => {},
        }
    }
}

impl Cancel for Sleep {
    /// Cancels the sleep unless it is over.
    fn cancel_unpin(&mut self)
        ensures
            final(self).state == canceled(old(self).state),
            final(self).dur == old(self).dur,
            final(self).trace_blocking == old(self).trace_blocking,
    {
        match self.state {
            State::Ready | State::Wait => {
                self.state = State::Canceled;
            },
            _ => {},
        }
    }
}

/// Once over, a sleep stays over: a canceled or finished sleep polls as
/// ready with how it ended, arms no timer, and ignores its timer and a
/// cancellation.
pub proof fn lemma_terminated_is_stable(s: State, dur: Duration)
    requires
        s == State::Canceled || s == State::Finished,
    ensures
        sleep_poll(s, dur).0 == Poll::Ready(s),
        sleep_poll(s, dur).1 is None,
        sleep_poll(s, dur).2 == s,
        canceled(s) == s,
{
}

/// A canceled sleep ends canceled even if its timer fires later: after
/// cancellation of a sleep that was not over, the state is canceled and
/// polling yields `Canceled`.
pub proof fn lemma_cancel_wins(s: State, dur: Duration)
    requires
        s == State::Ready || s == State::Wait,
    ensures
        canceled(s) == State::Canceled,
        sleep_poll(canceled(s), dur).0 == Poll::Ready(State::Canceled),
{
}

} // verus!
