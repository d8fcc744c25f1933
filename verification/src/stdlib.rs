//! Conveniences over the portable primitives: a one-shot deadline, and a barrier between
//! monotone revisions and derived state.
//!
//! Nothing here reads a clock, sleeps or holds a lock. Instants and durations are
//! nanoseconds on the host's monotone clock. What a blocked waiter does next is decided
//! step by step: the host performs each step and comes back with what it saw.

use vstd::prelude::*;

verus! {

/// The observed state of a timer.
#[derive(Debug, Clone, Copy, PartialEq, Eq, Structural)]
pub enum TimerPoll {
    /// The deadline has not arrived.
    Pending {
        /// Time remaining at the instant used for this poll.
        remaining: u64,
    },
    /// The timer has reached its terminal state.
    Fired {
        /// Whether this poll is the one that crossed the fire edge.
        newly_fired: bool,
    },
}

/// A pollable one-shot deadline.
#[derive(Debug)]
pub struct Timer {
    deadline: u64,
    fired: bool,
}

/// A timer, over views.
pub struct TimerState {
    /// The deadline.
    pub deadline: u64,
    /// Whether the fire was observed.
    pub fired: bool,
}

impl TimerState {
    /// What a poll at an instant observes, and the timer after it. A fired timer stays
    /// so, whatever the instant.
    pub open spec fn polled(self, now: u64) -> (Self, TimerPoll) {
        if self.fired {
            (self, TimerPoll::Fired { newly_fired: false })
        } else if now < self.deadline {
            (self, TimerPoll::Pending { remaining: (self.deadline - now) as u64 })
        } else {
            (TimerState { fired: true, ..self }, TimerPoll::Fired { newly_fired: true })
        }
    }
}

impl View for Timer {
    type V = TimerState;

    closed spec fn view(&self) -> TimerState {
        TimerState { deadline: self.deadline, fired: self.fired }
    }
}

impl Timer {
    /// A timer that fires some time after an instant.
    pub fn after(now: u64, delay: u64) -> (timer: Self)
        requires
            now + delay <= u64::MAX,
        ensures
            timer@ == (TimerState { deadline: (now + delay) as u64, fired: false }),
    {
        Self::at(now + delay)
    }

    /// A timer for an absolute deadline.
    pub fn at(deadline: u64) -> (timer: Self)
        ensures
            timer@ == (TimerState { deadline, fired: false }),
    {
        Timer { deadline, fired: false }
    }

    /// The absolute deadline.
    pub fn deadline(&self) -> (deadline: u64)
        ensures
            deadline == self@.deadline,
    {
        self.deadline
    }

    /// Whether the fire was observed.
    pub fn has_fired(&self) -> (answer: bool)
        ensures
            answer == self@.fired,
    {
        self.fired
    }

    /// Polls at an instant.
    pub fn poll_at(&mut self, now: u64) -> (poll: TimerPoll)
        ensures
            (final(self)@, poll) == old(self)@.polled(now),
    {
        if self.fired {
            return TimerPoll::Fired { newly_fired: false };
        }
        if now < self.deadline {
            return TimerPoll::Pending { remaining: self.deadline - now };
        }
        self.fired = true;
        TimerPoll::Fired { newly_fired: true }
    }
}

/// A timer fires once: after a poll that saw it fired, every poll at any instant sees it
/// fired, and not newly.
pub proof fn a_timer_fires_once(timer: TimerState, now: u64, later: u64)
    requires
        timer.polled(now).1 is Fired,
    ensures
        timer.polled(now).0.polled(later).1 == (TimerPoll::Fired { newly_fired: false }),
        timer.polled(now).0.polled(later).0 == timer.polled(now).0,
{
}

/// Sleeping for what a pending poll leaves brings a timer to its deadline and not past it.
pub proof fn sleeping_the_remainder_reaches_the_deadline(timer: TimerState, now: u64)
    requires
        timer.polled(now).1 is Pending,
    ensures
        now + timer.polled(now).1->remaining == timer.deadline,
        timer.polled(now).1->remaining > 0,
        timer.polled(timer.deadline).1 == (TimerPoll::Fired { newly_fired: true }),
{
}

/// The result of evaluating a barrier's predicate.
#[derive(Debug, Clone, Copy, PartialEq, Eq, Structural)]
pub enum RevisionCheck {
    /// The observed state does not satisfy the predicate yet.
    Pending,
    /// The observed state satisfies the predicate.
    Satisfied,
    /// The state required to evaluate the predicate is unavailable.
    Unavailable,
}

/// The terminal outcome of a wait.
#[derive(Debug, Clone, Copy, PartialEq, Eq, Structural)]
pub enum RevisionWaitOutcome {
    /// A newer revision satisfied the predicate.
    Satisfied {
        /// That revision.
        revision: u64,
    },
    /// The deadline elapsed first.
    TimedOut {
        /// The latest revision.
        revision: u64,
    },
    /// The barrier's cancellation input was triggered.
    Cancelled {
        /// The latest revision.
        revision: u64,
    },
    /// The barrier was disposed.
    Disposed {
        /// The latest revision.
        revision: u64,
    },
    /// The predicate's state or the cancellation input was unavailable.
    Unavailable {
        /// The latest revision.
        revision: u64,
    },
}

/// What a waiter does next.
#[derive(Debug, Clone, Copy, PartialEq, Eq, Structural)]
pub enum WaitStep {
    /// Evaluate the predicate at a revision, outside the lock, and come back with the
    /// generation that was current.
    Check {
        /// The revision to evaluate at.
        revision: u64,
        /// The generation that the evaluation belongs to.
        generation: u64,
    },
    /// Look at the deadline.
    Rest,
    /// Start over: something changed meanwhile.
    Again,
    /// Sleep until something changes, for at most some time where there is a deadline.
    Sleep {
        /// The time left.
        remaining: Option<u64>,
    },
    /// The wait is over.
    Done(RevisionWaitOutcome),
}

/// A barrier, over views.
pub struct BarrierState {
    /// Which barrier this is.
    pub identity: u64,
    /// The latest published revision.
    pub revision: u64,
    /// How often something changed, up to wrapping.
    pub generation: u64,
    /// Whether it was disposed.
    pub disposed: bool,
}

/// A cancellation input, over views.
pub struct CancellationState {
    /// The barrier that it belongs to.
    pub owner: u64,
    /// Whether it was triggered.
    pub cancelled: bool,
}

/// The generation after a change.
pub open spec fn next_generation(generation: u64) -> u64 {
    if generation == u64::MAX {
        0
    } else {
        (generation + 1) as u64
    }
}

impl BarrierState {
    /// With waiters woken.
    pub open spec fn woken(self) -> Self {
        BarrierState { generation: next_generation(self.generation), ..self }
    }

    /// With a revision published, where it is newer and the barrier is not disposed.
    pub open spec fn advanced(self, revision: u64) -> Self {
        if self.disposed || revision <= self.revision {
            self
        } else {
            BarrierState { revision, ..self.woken() }
        }
    }

    /// After a change of derived state at the current revision.
    pub open spec fn notified(self) -> Self {
        if self.disposed {
            self
        } else {
            self.woken()
        }
    }

    /// Disposed.
    pub open spec fn retired(self) -> Self {
        if self.disposed {
            self
        } else {
            BarrierState { disposed: true, ..self.woken() }
        }
    }

    /// How a round of a wait for a revision newer than one starts.
    pub open spec fn round(
        self,
        after_revision: u64,
        token: Option<CancellationState>,
    ) -> WaitStep {
        let foreign = token is Some && token->0.owner != self.identity;
        let cancelled = token is Some && token->0.cancelled;
        if foreign {
            WaitStep::Done(RevisionWaitOutcome::Unavailable { revision: self.revision })
        } else if self.disposed {
            WaitStep::Done(RevisionWaitOutcome::Disposed { revision: self.revision })
        } else if cancelled {
            WaitStep::Done(RevisionWaitOutcome::Cancelled { revision: self.revision })
        } else if self.revision > after_revision {
            WaitStep::Check { revision: self.revision, generation: self.generation }
        } else {
            WaitStep::Rest
        }
    }

    /// How a round goes on once the predicate was evaluated at a revision, in a
    /// generation.
    pub open spec fn judged(
        self,
        revision: u64,
        generation: u64,
        checked: RevisionCheck,
    ) -> WaitStep {
        if self.generation != generation {
            WaitStep::Again
        } else {
            match checked {
                RevisionCheck::Satisfied => WaitStep::Done(
                    RevisionWaitOutcome::Satisfied { revision },
                ),
                RevisionCheck::Unavailable => WaitStep::Done(
                    RevisionWaitOutcome::Unavailable { revision },
                ),
                RevisionCheck::Pending => WaitStep::Rest,
            }
        }
    }

    /// How a round ends, by what the deadline's timer showed.
    pub open spec fn rested(self, deadline: Option<TimerPoll>) -> WaitStep {
        match deadline {
            Some(TimerPoll::Fired { .. }) => WaitStep::Done(
                RevisionWaitOutcome::TimedOut { revision: self.revision },
            ),
            Some(TimerPoll::Pending { remaining }) => WaitStep::Sleep {
                remaining: Some(remaining),
            },
            None => WaitStep::Sleep { remaining: None },
        }
    }
}

/// A cancellation input bound to one barrier. Cancellation is latched.
#[derive(Debug)]
pub struct BarrierCancellation {
    owner: u64,
    cancelled: bool,
}

impl View for BarrierCancellation {
    type V = CancellationState;

    closed spec fn view(&self) -> CancellationState {
        CancellationState { owner: self.owner, cancelled: self.cancelled }
    }
}

/// A cancellation input that may be absent, over views.
pub open spec fn token_view(token: Option<&BarrierCancellation>) -> Option<CancellationState> {
    match token {
        Some(token) => Some(token@),
        None => None,
    }
}

impl BarrierCancellation {
    /// Triggers cancellation where the barrier is gone. Returns whether this call is the
    /// first.
    pub fn latch(&mut self) -> (first: bool)
        ensures
            first == !old(self)@.cancelled,
            final(self)@ == (CancellationState { cancelled: true, ..old(self)@ }),
    {
        let first = !self.cancelled;
        self.cancelled = true;
        first
    }

    /// Triggers cancellation and wakes every waiter on the owning barrier. Returns whether
    /// this call is the first.
    pub fn cancel(&mut self, barrier: &mut RevisionBarrier) -> (first: bool)
        requires
            old(self)@.owner == old(barrier)@.identity,
        ensures
            first == !old(self)@.cancelled,
            final(self)@ == (CancellationState { cancelled: true, ..old(self)@ }),
            final(barrier)@ == if first {
                old(barrier)@.woken()
            } else {
                old(barrier)@
            },
    {
        if !self.latch() {
            return false;
        }
        barrier.wake();
        true
    }

    /// Whether cancellation was triggered.
    pub fn is_cancelled(&self) -> (answer: bool)
        ensures
            answer == self@.cancelled,
    {
        self.cancelled
    }
}

/// A bridge between monotone revisions and derived state.
///
/// Producers publish revisions and notify of derived changes; waiters want a revision
/// newer than one they captured, with a satisfied predicate. The generation moves with
/// every change, so a predicate evaluated meanwhile is evaluated again.
#[derive(Debug)]
pub struct RevisionBarrier {
    identity: u64,
    revision: u64,
    generation: u64,
    disposed: bool,
}

impl View for RevisionBarrier {
    type V = BarrierState;

    closed spec fn view(&self) -> BarrierState {
        BarrierState {
            identity: self.identity,
            revision: self.revision,
            generation: self.generation,
            disposed: self.disposed,
        }
    }
}

impl RevisionBarrier {
    /// A barrier at a revision. Its identity tells it apart from the host's others.
    pub fn new(identity: u64, initial_revision: u64) -> (barrier: Self)
        ensures
            barrier@ == (BarrierState {
                identity,
                revision: initial_revision,
                generation: 0,
                disposed: false,
            }),
    {
        RevisionBarrier { identity, revision: initial_revision, generation: 0, disposed: false }
    }

    /// The latest published revision.
    pub fn revision(&self) -> (revision: u64)
        ensures
            revision == self@.revision,
    {
        self.revision
    }

    /// Moves the generation.
    fn wake(&mut self)
        ensures
            final(self)@ == old(self)@.woken(),
    {
        self.generation = if self.generation == u64::MAX {
            0
        } else {
            self.generation + 1
        };
    }

    /// Publishes a strictly newer revision and wakes waiters. A stale or duplicate
    /// revision, or one after disposal, is refused.
    pub fn advance(&mut self, revision: u64) -> (published: bool)
        ensures
            published == (!old(self)@.disposed && revision > old(self)@.revision),
            final(self)@ == old(self)@.advanced(revision),
    {
        if self.disposed || revision <= self.revision {
            return false;
        }
        self.revision = revision;
        self.wake();
        true
    }

    /// Wakes waiters after derived state changed at the current revision.
    pub fn notify(&mut self)
        ensures
            final(self)@ == old(self)@.notified(),
    {
        if self.disposed {
            return;
        }
        self.wake();
    }

    /// A cancellation input owned by this barrier.
    pub fn cancellation(&self) -> (token: BarrierCancellation)
        ensures
            token@ == (CancellationState { owner: self@.identity, cancelled: false }),
    {
        BarrierCancellation { owner: self.identity, cancelled: false }
    }

    /// Disposes the barrier and wakes all waiters. Returns whether this call did it.
    pub fn dispose(&mut self) -> (disposed: bool)
        ensures
            disposed == !old(self)@.disposed,
            final(self)@ == old(self)@.retired(),
    {
        if self.disposed {
            return false;
        }
        self.disposed = true;
        self.wake();
        true
    }

    /// Whether this barrier was disposed.
    pub fn is_disposed(&self) -> (answer: bool)
        ensures
            answer == self@.disposed,
    {
        self.disposed
    }

    /// Starts a round of a wait for a revision newer than one. A token of another barrier
    /// makes the wait unavailable.
    pub fn wait_after(
        &self,
        after_revision: u64,
        cancellation: Option<&BarrierCancellation>,
    ) -> (step: WaitStep)
        ensures
            step == self@.round(after_revision, token_view(cancellation)),
    {
        let (foreign, cancelled) = match cancellation {
            Some(token) => (token.owner != self.identity, token.cancelled),
            None => (false, false),
        };
        if foreign {
            return WaitStep::Done(RevisionWaitOutcome::Unavailable { revision: self.revision });
        }
        if self.disposed {
            return WaitStep::Done(RevisionWaitOutcome::Disposed { revision: self.revision });
        }
        if cancelled {
            return WaitStep::Done(RevisionWaitOutcome::Cancelled { revision: self.revision });
        }
        if self.revision > after_revision {
            return WaitStep::Check { revision: self.revision, generation: self.generation };
        }
        WaitStep::Rest
    }

    /// Goes on once the predicate was evaluated: what changed meanwhile starts the round
    /// over.
    pub fn wait_checked(&self, revision: u64, generation: u64, checked: RevisionCheck) -> (step:
        WaitStep)
        ensures
            step == self@.judged(revision, generation, checked),
    {
        if self.generation != generation {
            return WaitStep::Again;
        }
        match checked {
            RevisionCheck::Satisfied => WaitStep::Done(RevisionWaitOutcome::Satisfied { revision }),
            RevisionCheck::Unavailable => WaitStep::Done(
                RevisionWaitOutcome::Unavailable { revision },
            ),
            RevisionCheck::Pending => WaitStep::Rest,
        }
    }

    /// Ends a round by what the deadline's timer showed.
    pub fn wait_rest(&self, deadline: Option<TimerPoll>) -> (step: WaitStep)
        ensures
            step == self@.rested(deadline),
    {
        match deadline {
            Some(TimerPoll::Fired { .. }) => WaitStep::Done(
                RevisionWaitOutcome::TimedOut { revision: self.revision },
            ),
            Some(TimerPoll::Pending { remaining }) => WaitStep::Sleep {
                remaining: Some(remaining),
            },
            None => WaitStep::Sleep { remaining: None },
        }
    }
}

/// Published revisions only grow, whatever happens to the barrier, and disposal is for
/// good.
pub proof fn revisions_only_grow(barrier: BarrierState, revision: u64)
    ensures
        barrier.advanced(revision).revision >= barrier.revision,
        barrier.advanced(revision).disposed == barrier.disposed,
        barrier.notified().revision == barrier.revision,
        barrier.woken().revision == barrier.revision,
        barrier.retired().revision == barrier.revision,
        barrier.retired().disposed,
        barrier.disposed ==> barrier.advanced(revision) == barrier && barrier.notified() == barrier
            && barrier.retired() == barrier,
{
}

/// A change between the evaluation of the predicate and the decision is never lost: the
/// round starts over, whatever the evaluation gave.
pub proof fn a_change_during_the_check_starts_over(
    barrier: BarrierState,
    after_revision: u64,
    token: Option<CancellationState>,
    checked: RevisionCheck,
    published: u64,
)
    requires
        barrier.round(after_revision, token) is Check,
    ensures
        ({
            let step = barrier.round(after_revision, token);
            let revision = step->revision;
            let generation = step->generation;
            &&& published > barrier.revision ==> barrier.advanced(published).judged(
                revision,
                generation,
                checked,
            ) == WaitStep::Again
            &&& barrier.notified().judged(revision, generation, checked) == WaitStep::Again
            &&& barrier.woken().judged(revision, generation, checked) == WaitStep::Again
            &&& barrier.retired().judged(revision, generation, checked) == WaitStep::Again
        }),
{
}

/// A satisfied wait names a revision newer than the one that was captured, on a barrier
/// that was not disposed, with a token that was not cancelled, when the check began.
pub proof fn satisfaction_is_newer(
    barrier: BarrierState,
    after_revision: u64,
    token: Option<CancellationState>,
    later: BarrierState,
)
    requires
        barrier.round(after_revision, token) is Check,
        later.judged(
            barrier.round(after_revision, token)->revision,
            barrier.round(after_revision, token)->generation,
            RevisionCheck::Satisfied,
        ) is Done,
    ensures
        later.judged(
            barrier.round(after_revision, token)->revision,
            barrier.round(after_revision, token)->generation,
            RevisionCheck::Satisfied,
        ) == WaitStep::Done(RevisionWaitOutcome::Satisfied { revision: barrier.revision }),
        barrier.revision > after_revision,
        !barrier.disposed,
        token is Some ==> !token->0.cancelled && token->0.owner == barrier.identity,
{
}

} // verus!
