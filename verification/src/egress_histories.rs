//! Laws of the egress authority over histories of calls.

use vstd::prelude::*;

use crate::egress_core::{
    EgressChange, EgressRetryAction, EgressState, acked_is_wf, reconnected_is_wf, released_is_wf,
    slot_for, slot_in_range,
};

verus! {

/// One call on an egress authority.
pub enum EgressStep<P> {
    /// A payload is enqueued.
    Enqueue(P),
    /// An attachment claims.
    Claim {
        /// The attachment's generation.
        generation: u64,
    },
    /// An attachment acknowledges.
    Ack {
        /// The attachment's generation.
        generation: u64,
        /// The watermark.
        through: u64,
    },
    /// An attachment reports a failure.
    Fail {
        /// The attachment's generation.
        generation: u64,
        /// The record.
        sequence: u64,
    },
    /// A parked record is released.
    RetryNow {
        /// The attachment's generation.
        generation: u64,
        /// The record.
        sequence: u64,
    },
    /// An attachment is fenced.
    Reconnect {
        /// The new generation.
        generation: u64,
    },
}

/// The authority after one call.
pub open spec fn stepped<P>(state: EgressState<P>, step: EgressStep<P>) -> EgressState<P> {
    match step {
        EgressStep::Enqueue(payload) => state.enqueued(payload).0,
        EgressStep::Claim { generation } => state.claimed(generation).0,
        EgressStep::Ack { generation, through } => state.acked(generation, through).0,
        EgressStep::Fail { generation, sequence } => state.failing(generation, sequence).0,
        EgressStep::RetryNow { generation, sequence } => state.released(generation, sequence).0,
        EgressStep::Reconnect { generation } => state.reconnected(generation).0,
    }
}

/// The authority after some calls, one after the other.
pub open spec fn ran<P>(state: EgressState<P>, steps: Seq<EgressStep<P>>) -> EgressState<P>
    decreases steps.len(),
{
    if steps.len() == 0 {
        state
    } else {
        stepped(ran(state, steps.drop_last()), steps.last())
    }
}

/// Whether a call leaves a parked record of a sequence where it is, under a current
/// generation: it does not release it, does not acknowledge through it and does not fence.
pub open spec fn leaves_parked<P>(step: EgressStep<P>, current: u64, sequence: u64) -> bool {
    match step {
        EgressStep::Ack { generation, through } => generation != current || through < sequence,
        EgressStep::RetryNow { generation, sequence: released } => generation != current || released
            != sequence,
        EgressStep::Reconnect { generation } => generation <= current,
        _ => true,
    }
}

/// Every call leaves the authority in order.
pub proof fn calls_keep_the_authority_in_order<P>(state: EgressState<P>, step: EgressStep<P>)
    requires
        state.wf(),
    ensures
        stepped(state, step).wf(),
{
    match step {
        EgressStep::Ack { generation, through } => {
            acked_is_wf(state, generation, through);
        },
        EgressStep::RetryNow { generation, sequence } => {
            released_is_wf(state, generation, sequence);
        },
        EgressStep::Reconnect { generation } => {
            reconnected_is_wf(state, generation);
        },
        _ => {},
    }
}

/// A parked record stays parked, as it is, over calls that leave it.
proof fn parked_records_stay<P>(
    state: EgressState<P>,
    steps: Seq<EgressStep<P>>,
    sequence: u64,
)
    requires
        state.wf(),
        state.failed.contains_key(sequence),
        forall|i: int|
            0 <= i < steps.len() ==> leaves_parked(
                #[trigger] steps[i],
                state.generation,
                sequence,
            ),
        ran(state, steps).next_sequence < u64::MAX,
    ensures
        ({
            let after = ran(state, steps);
            &&& after.wf()
            &&& after.generation == state.generation
            &&& after.failed.contains_key(sequence)
            &&& after.failed[sequence] == state.failed[sequence]
        }),
    decreases steps.len(),
{
    if steps.len() > 0 {
        let fewer = steps.drop_last();
        let before = ran(state, fewer);
        assert(before.next_sequence <= stepped(before, steps.last()).next_sequence);
        assert forall|i: int| 0 <= i < fewer.len() implies leaves_parked(
            #[trigger] fewer[i],
            state.generation,
            sequence,
        ) by {
            assert(fewer[i] == steps[i]);
        }
        parked_records_stay(state, fewer, sequence);
        assert(leaves_parked(steps[steps.len() - 1], state.generation, sequence));
        calls_keep_the_authority_in_order(before, steps.last());
    }
}

/// A record whose failure was retryable is rescheduled by exactly one release, whatever
/// other calls came in between: it is pending again as it failed, in its place, and a second
/// release finds nothing. Neither the window nor the watermark moves.
pub proof fn a_retryable_record_is_rescheduled_once<P>(
    state: EgressState<P>,
    generation: u64,
    sequence: u64,
    steps: Seq<EgressStep<P>>,
)
    requires
        state.wf(),
        state.failing(generation, sequence).2 is Retrying,
        forall|i: int|
            0 <= i < steps.len() ==> leaves_parked(#[trigger] steps[i], generation, sequence),
        ran(state.failing(generation, sequence).0, steps).next_sequence < u64::MAX,
    ensures
        ({
            let record = state.inflight[sequence];
            let before = ran(state.failing(generation, sequence).0, steps);
            let (after, _, outcome) = before.released(generation, sequence);
            &&& state.failing(generation, sequence).2->Retrying_0.attempt == record.attempt
            &&& outcome == EgressRetryAction::Scheduled { sequence }
            &&& after.pending == before.pending.insert(
                slot_for(before.pending, sequence),
                record,
            )
            &&& 0 <= slot_for(before.pending, sequence) <= before.pending.len()
            &&& forall|i: int, j: int|
                0 <= i < j < after.pending.len() ==> (#[trigger] after.pending[i]).sequence < (
                #[trigger] after.pending[j]).sequence
            &&& after.inflight == before.inflight
            &&& after.acked_through == before.acked_through
            &&& after.retry == if before.retries(sequence) {
                None
            } else {
                before.retry
            }
            &&& after.released(generation, sequence) == (
                after,
                EgressChange::nothing(),
                EgressRetryAction::UnknownSequence,
            )
        }),
{
    let parked = state.failing(generation, sequence).0;
    calls_keep_the_authority_in_order(state, EgressStep::Fail { generation, sequence });
    parked_records_stay(parked, steps, sequence);
    let before = ran(parked, steps);
    slot_in_range(before.pending, sequence);
    released_is_wf(before, generation, sequence);
    assert(before.failed[sequence].sequence == sequence);
}

} // verus!
