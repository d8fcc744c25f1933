//! Laws of the revision barrier and the timer: when a waiter evaluates its predicate, when
//! it rests, and when a wait is over.

use vstd::prelude::*;

use crate::stdlib::{
    BarrierState, CancellationState, RevisionCheck, RevisionWaitOutcome, TimerPoll, TimerState,
    WaitStep,
};

verus! {

/// Whether nothing ends a wait on a barrier: it is not disposed, and there is no token or
/// one of its own that was not cancelled.
pub open spec fn waitable(barrier: BarrierState, token: Option<CancellationState>) -> bool {
    &&& !barrier.disposed
    &&& token is Some ==> token->0.owner == barrier.identity && !token->0.cancelled
}

/// A waiter evaluates its predicate exactly where the barrier is at a revision newer than
/// the one that it captured, by however much, and at that very revision; otherwise it rests.
pub proof fn a_newer_revision_is_checked(
    barrier: BarrierState,
    after_revision: u64,
    token: Option<CancellationState>,
)
    requires
        waitable(barrier, token),
    ensures
        barrier.round(after_revision, token) is Check <==> after_revision < barrier.revision,
        barrier.round(after_revision, token) is Rest <==> barrier.revision <= after_revision,
        barrier.round(after_revision, token) matches WaitStep::Check { revision, generation }
            ==> revision == barrier.revision && generation == barrier.generation,
{
}

/// A revision that is published on a barrier is checked by every waiter that captured an
/// older one, and by no other; publishing it in one step or over another revision is the
/// same to them.
pub proof fn a_published_revision_wakes_older_waiters(
    barrier: BarrierState,
    between: u64,
    published: u64,
    after_revision: u64,
    token: Option<CancellationState>,
)
    requires
        waitable(barrier, token),
        barrier.revision < between < published,
    ensures
        ({
            let once = barrier.advanced(published);
            let twice = barrier.advanced(between).advanced(published);
            &&& once.revision == published
            &&& twice.revision == published
            &&& waitable(once, token)
            &&& waitable(twice, token)
            &&& once.round(after_revision, token) is Check <==> after_revision < published
            &&& twice.round(after_revision, token) is Check <==> after_revision < published
            &&& once.round(after_revision, token) is Check ==> once.round(
                after_revision,
                token,
            )->revision == published
            &&& twice.round(after_revision, token) is Check ==> twice.round(
                after_revision,
                token,
            )->revision == published
        }),
{
}

/// A round ends at once exactly where something ends the wait: a token of another barrier
/// before disposal, disposal before cancellation, and each names the latest revision.
pub proof fn a_round_ends_where_the_wait_is_over(
    barrier: BarrierState,
    after_revision: u64,
    token: Option<CancellationState>,
)
    ensures
        barrier.round(after_revision, token) is Done <==> !waitable(barrier, token),
        !(barrier.round(after_revision, token) is Again),
        !(barrier.round(after_revision, token) is Sleep),
        token is Some && token->0.owner != barrier.identity ==> barrier.round(
            after_revision,
            token,
        ) == WaitStep::Done(RevisionWaitOutcome::Unavailable { revision: barrier.revision }),
        barrier.disposed && (token is Some ==> token->0.owner == barrier.identity)
            ==> barrier.round(after_revision, token) == WaitStep::Done(
            RevisionWaitOutcome::Disposed { revision: barrier.revision },
        ),
        !barrier.disposed && token is Some && token->0.owner == barrier.identity
            && token->0.cancelled ==> barrier.round(after_revision, token) == WaitStep::Done(
            RevisionWaitOutcome::Cancelled { revision: barrier.revision },
        ),
{
}

/// An evaluation counts exactly where nothing changed since it began: it then ends the wait
/// unless it is still pending, at the revision that was evaluated.
pub proof fn an_evaluation_counts_in_its_generation(
    barrier: BarrierState,
    revision: u64,
    generation: u64,
    checked: RevisionCheck,
)
    ensures
        barrier.judged(revision, generation, checked) is Again <==> generation
            != barrier.generation,
        generation == barrier.generation ==> {
            let step = barrier.judged(revision, generation, checked);
            &&& step is Rest <==> checked is Pending
            &&& step is Done <==> !(checked is Pending)
            &&& checked is Satisfied ==> step->Done_0 == (RevisionWaitOutcome::Satisfied {
                revision,
            })
            &&& checked is Unavailable ==> step->Done_0 == (RevisionWaitOutcome::Unavailable {
                revision,
            })
        },
{
}

/// A waiter that rests times out exactly where its deadline's timer has fired, and sleeps
/// otherwise, for as long as the timer leaves it.
pub proof fn a_resting_waiter_sleeps_until_its_deadline(
    barrier: BarrierState,
    timer: TimerState,
    now: u64,
)
    requires
        !timer.fired,
    ensures
        ({
            let step = barrier.rested(Some(timer.polled(now).1));
            &&& step is Done <==> timer.deadline <= now
            &&& step is Done ==> step->Done_0 == (RevisionWaitOutcome::TimedOut {
                revision: barrier.revision,
            })
            &&& step is Sleep <==> now < timer.deadline
            &&& step matches WaitStep::Sleep { remaining } ==> remaining is Some && now
                + remaining->0 == timer.deadline
        }),
        barrier.rested(Some(TimerPoll::Fired { newly_fired: false })) == WaitStep::Done(
            RevisionWaitOutcome::TimedOut { revision: barrier.revision },
        ),
        barrier.rested(None) == (WaitStep::Sleep { remaining: None }),
{
}

/// Only a strictly newer revision on a barrier that is not disposed is published; whatever
/// is published, notified or disposed moves the generation by one, and nothing else does.
pub proof fn every_change_moves_the_generation(barrier: BarrierState, revision: u64)
    ensures
        !barrier.disposed && barrier.revision < revision ==> {
            let after = barrier.advanced(revision);
            &&& after.revision == revision
            &&& after.generation == barrier.generation.wrapping_add(1)
            &&& after.identity == barrier.identity
            &&& !after.disposed
        },
        barrier.disposed || revision <= barrier.revision ==> barrier.advanced(revision) == barrier,
        !barrier.disposed ==> {
            &&& barrier.notified().generation == barrier.generation.wrapping_add(1)
            &&& barrier.notified().identity == barrier.identity
            &&& !barrier.notified().disposed
            &&& barrier.retired().generation == barrier.generation.wrapping_add(1)
            &&& barrier.retired().identity == barrier.identity
            &&& barrier.retired().disposed
        },
        barrier.disposed ==> barrier.notified() == barrier && barrier.retired() == barrier,
        barrier.notified().revision == barrier.revision,
        barrier.retired().revision == barrier.revision,
        barrier.woken().revision == barrier.revision,
        barrier.woken().generation == barrier.generation.wrapping_add(1),
        barrier.woken().generation != barrier.generation,
        barrier.woken().identity == barrier.identity,
        barrier.woken().disposed == barrier.disposed,
{
}

/// A timer that was not seen fired fires exactly from its deadline on, and keeps its
/// deadline; before it, polling changes nothing and says how long is left.
pub proof fn a_timer_fires_from_its_deadline_on(timer: TimerState, now: u64)
    requires
        !timer.fired,
    ensures
        timer.polled(now).1 is Fired <==> timer.deadline <= now,
        timer.deadline <= now ==> timer.polled(now).1 == (TimerPoll::Fired { newly_fired: true }),
        timer.polled(now).0.fired <==> timer.deadline <= now,
        timer.polled(now).0.deadline == timer.deadline,
        now < timer.deadline ==> timer.polled(now).1 == (TimerPoll::Pending {
            remaining: (timer.deadline - now) as u64,
        }),
{
}

/// A timer that was seen fired stays as it is, whatever the instant, and says that its fire is
/// no news: over any number of polls the fire is new exactly once.
pub proof fn a_fire_is_new_once(timer: TimerState, now: u64, later: u64)
    ensures
        timer.fired ==> timer.polled(now) == (timer, TimerPoll::Fired { newly_fired: false }),
        timer.polled(now).1 is Fired ==> timer.polled(now).0.polled(later).1 == (
        TimerPoll::Fired { newly_fired: false }),
        timer.polled(now).1 is Pending ==> timer.polled(now).0 == timer,
{
}

} // verus!
