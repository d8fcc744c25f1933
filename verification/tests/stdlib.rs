//! Timers and revision barriers.

use lazily::stdlib::{
    RevisionBarrier, RevisionCheck, RevisionWaitOutcome, Timer, TimerPoll, WaitStep,
};

#[test]
fn a_timer_fires_at_its_deadline_and_once() {
    let mut timer = Timer::after(100, 50);
    assert_eq!(timer.deadline(), 150);
    assert_eq!(timer.poll_at(120), TimerPoll::Pending { remaining: 30 });
    assert!(!timer.has_fired());
    assert_eq!(timer.poll_at(150), TimerPoll::Fired { newly_fired: true });
    assert!(timer.has_fired());
    // Terminal, even for an earlier instant.
    assert_eq!(timer.poll_at(0), TimerPoll::Fired { newly_fired: false });
    assert_eq!(Timer::at(7).deadline(), 7);
}

#[test]
fn revisions_are_published_in_order() {
    let mut barrier = RevisionBarrier::new(1, 5);
    assert!(!barrier.advance(5));
    assert!(!barrier.advance(4));
    assert!(barrier.advance(6));
    assert_eq!(barrier.revision(), 6);
    assert!(barrier.dispose());
    assert!(!barrier.dispose());
    assert!(!barrier.advance(7));
    assert!(barrier.is_disposed());
}

#[test]
fn a_wait_wants_a_newer_revision_and_a_satisfied_predicate() {
    let mut barrier = RevisionBarrier::new(1, 5);
    assert_eq!(barrier.wait_after(5, None), WaitStep::Rest);
    assert_eq!(barrier.wait_rest(None), WaitStep::Sleep { remaining: None });
    barrier.advance(6);
    let WaitStep::Check {
        revision,
        generation,
    } = barrier.wait_after(5, None)
    else {
        panic!("a newer revision is checked");
    };
    assert_eq!(revision, 6);
    assert_eq!(
        barrier.wait_checked(revision, generation, RevisionCheck::Pending),
        WaitStep::Rest
    );
    assert_eq!(
        barrier.wait_checked(revision, generation, RevisionCheck::Satisfied),
        WaitStep::Done(RevisionWaitOutcome::Satisfied { revision: 6 })
    );
    assert_eq!(
        barrier.wait_checked(revision, generation, RevisionCheck::Unavailable),
        WaitStep::Done(RevisionWaitOutcome::Unavailable { revision: 6 })
    );
    // Something changed between the check and the decision.
    barrier.notify();
    assert_eq!(
        barrier.wait_checked(revision, generation, RevisionCheck::Satisfied),
        WaitStep::Again
    );
}

#[test]
fn a_deadline_ends_a_wait() {
    let barrier = RevisionBarrier::new(1, 5);
    let mut deadline = Timer::at(10);
    let poll = deadline.poll_at(4);
    assert_eq!(
        barrier.wait_rest(Some(poll)),
        WaitStep::Sleep { remaining: Some(6) }
    );
    let poll = deadline.poll_at(10);
    assert_eq!(
        barrier.wait_rest(Some(poll)),
        WaitStep::Done(RevisionWaitOutcome::TimedOut { revision: 5 })
    );
}

#[test]
fn cancellation_is_latched_and_bound_to_its_barrier() {
    let mut barrier = RevisionBarrier::new(1, 5);
    let stranger = RevisionBarrier::new(2, 9);
    let mut token = barrier.cancellation();
    assert!(!token.is_cancelled());
    assert_eq!(
        stranger.wait_after(0, Some(&token)),
        WaitStep::Done(RevisionWaitOutcome::Unavailable { revision: 9 })
    );
    assert!(token.cancel(&mut barrier));
    assert!(!token.cancel(&mut barrier));
    assert!(token.is_cancelled());
    assert_eq!(
        barrier.wait_after(0, Some(&token)),
        WaitStep::Done(RevisionWaitOutcome::Cancelled { revision: 5 })
    );
    // Disposal comes before cancellation.
    barrier.dispose();
    assert_eq!(
        barrier.wait_after(0, Some(&token)),
        WaitStep::Done(RevisionWaitOutcome::Disposed { revision: 5 })
    );
    let mut alone = stranger.cancellation();
    assert!(alone.latch());
    assert!(!alone.latch());
}
