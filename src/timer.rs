//! The decisions of a one-shot hardware timer awaited as a delay: when to arm
//! the alarm, when a wait resolves, and what the alarm's callback does.
//!
//! The owner of the hardware alarm asks [`EspTimer::poll`] on every poll of
//! the delay and arms the alarm when told to; the alarm's callback calls
//! [`EspTimer::alarm_fired`] and wakes the captured waker when told to.

use vstd::prelude::*;

verus! {

/// Where a timer stands in its single outstanding wait.
#[derive(Clone, Copy, PartialEq, Eq, Structural, Debug)]
pub enum TimerPhase {
    /// No wait is outstanding.
    Idle,
    /// A wait of the given microseconds was started and not yet polled.
    Started(u64),
    /// The alarm is armed for the given microseconds; the wait is suspended.
    Armed(u64),
    /// The alarm fired; the next poll resolves the wait.
    Fired,
}

/// What the owner of the alarm does after a poll.
#[derive(Clone, Copy, PartialEq, Eq, Structural, Debug)]
pub enum TimerPoll {
    /// Capture the waker, arm the alarm for the given microseconds, and
    /// report the wait as pending.
    Arm(u64),
    /// Report the wait as pending.
    Pending,
    /// Report the wait as resolved.
    Ready,
}

/// Misuse of a timer.
#[derive(Clone, Copy, PartialEq, Eq, Structural, Debug)]
pub enum TimerError {
    /// A wait was started while another one was outstanding.
    Busy,
}

pub open spec fn after_spec(p: TimerPhase, duration_us: u64) -> (TimerPhase, Result<(), TimerError>) {
    match p {
        TimerPhase::Idle => (TimerPhase::Started(duration_us), Ok(())),
        _ => (p, Err(TimerError::Busy)),
    }
}

pub open spec fn poll_spec(p: TimerPhase) -> (TimerPhase, TimerPoll) {
    match p {
        TimerPhase::Idle => (TimerPhase::Idle, TimerPoll::Ready),
        TimerPhase::Started(d) => (TimerPhase::Armed(d), TimerPoll::Arm(d)),
        TimerPhase::Armed(d) => (TimerPhase::Armed(d), TimerPoll::Pending),
        TimerPhase::Fired => (TimerPhase::Idle, TimerPoll::Ready),
    }
}

pub open spec fn alarm_spec(p: TimerPhase) -> (TimerPhase, bool) {
    match p {
        TimerPhase::Armed(_) => (TimerPhase::Fired, true),
        _ => (p, false),
    }
}

/// A one-shot timer that supports one outstanding wait at a time.
pub struct EspTimer {
    phase: TimerPhase,
}

impl View for EspTimer {
    type V = TimerPhase;

    closed spec fn view(&self) -> TimerPhase {
        self.phase
    }
}

impl EspTimer {
    /// A timer with no wait outstanding.
    pub fn new() -> (r: EspTimer)
        ensures
            r@ == TimerPhase::Idle,
    {
        EspTimer { phase: TimerPhase::Idle }
    }

    /// Starts a wait of `duration_us` microseconds. The alarm is armed on the
    /// first poll. Fails with `Busy` while another wait is outstanding.
    pub fn after(&mut self, duration_us: u64) -> (r: Result<(), TimerError>)
        ensures
            (final(self)@, r) == after_spec(old(self)@, duration_us),
    {
        match self.phase {
            TimerPhase::Idle => {
                self.phase = TimerPhase::Started(duration_us);
                Ok(())
            },
            _ => Err(TimerError::Busy),
        }
    }

    /// One poll of the outstanding wait: the first arms the alarm, later ones
    /// stay pending until the alarm has fired, and the one after that resolves
    /// the wait and frees the timer for the next one.
    pub fn poll(&mut self) -> (r: TimerPoll)
        ensures
            (final(self)@, r) == poll_spec(old(self)@),
    {
        match self.phase {
            TimerPhase::Idle => TimerPoll::Ready,
            TimerPhase::Started(d) => {
                self.phase = TimerPhase::Armed(d);
                TimerPoll::Arm(d)
            },
            TimerPhase::Armed(_) => TimerPoll::Pending,
            TimerPhase::Fired => {
                self.phase = TimerPhase::Idle;
                TimerPoll::Ready
            },
        }
    }

    /// The alarm's callback. Returns `true` when the captured waker must be
    /// woken, which is when an armed wait is suspended on it.
    pub fn alarm_fired(&mut self) -> (wake: bool)
        ensures
            (final(self)@, wake) == alarm_spec(old(self)@),
    {
        match self.phase {
            TimerPhase::Armed(_) => {
                self.phase = TimerPhase::Fired;
                true
            },
            _ => false,
        }
    }

    /// Whether no wait is outstanding.
    pub fn is_idle(&self) -> (r: bool)
        ensures
            r == (self@ == TimerPhase::Idle),
    {
        match self.phase {
            TimerPhase::Idle => true,
            _ => false,
        }
    }
}

/// A wait never resolves before its alarm has fired: while it is started or
/// armed, a poll does not report it resolved.
pub proof fn lemma_no_early_resolve(p: TimerPhase)
    requires
        p matches TimerPhase::Started(_) || p matches TimerPhase::Armed(_),
    ensures
        poll_spec(p).1 != TimerPoll::Ready,
        poll_spec(p).0 matches TimerPhase::Armed(_),
{
}

/// One full wait from an idle timer: starting it succeeds, the first poll arms
/// the alarm for the given duration and suspends, polls before the alarm stay
/// pending, the alarm asks for one wake, and the next poll resolves and leaves
/// the timer idle, so that the same sequence runs again for the next wait.
pub proof fn lemma_wait_cycle(d: u64)
    ensures
        ({
            let (s1, started) = after_spec(TimerPhase::Idle, d);
            let (s2, first) = poll_spec(s1);
            let (s3, early) = poll_spec(s2);
            let (s4, wake) = alarm_spec(s3);
            let (s5, last) = poll_spec(s4);
            &&& started is Ok
            &&& first == TimerPoll::Arm(d)
            &&& early == TimerPoll::Pending
            &&& wake
            &&& last == TimerPoll::Ready
            &&& s5 == TimerPhase::Idle
            &&& alarm_spec(s5) == (TimerPhase::Idle, false)
        }),
{
}

} // verus!
