//! Laws of the egress authority: what relates its transitions to each other.

use vstd::prelude::*;

use crate::egress_core::{
    EgressAck, EgressChange, EgressClaim, EgressEnvelope, EgressFailure, EgressRetryAction,
    EgressState, by_sequence, by_sequence_facts, slot_for, slot_in_range, slotted, slotted_all,
};
use crate::filtering::{filter_keeps_what_matches, full_filter, kept_was_there};

verus! {

/// Whether a sequence is still to be delivered: pending, in flight or parked.
pub open spec fn owed<P>(state: EgressState<P>, sequence: u64) -> bool {
    ||| exists|i: int|
        0 <= i < state.pending.len() && (#[trigger] state.pending[i]).sequence == sequence
    ||| state.inflight.contains_key(sequence)
    ||| state.failed.contains_key(sequence)
}

/// Whether a sequence is among some records.
pub open spec fn listed<P>(records: Seq<EgressEnvelope<P>>, sequence: u64) -> bool {
    exists|i: int| 0 <= i < records.len() && (#[trigger] records[i]).sequence == sequence
}

/// Placing a record adds its sequence and nothing else.
proof fn slotted_lists<P>(pending: Seq<EgressEnvelope<P>>, record: EgressEnvelope<P>, sequence: u64)
    ensures
        listed(slotted(pending, record), sequence) <==> listed(pending, sequence) || sequence
            == record.sequence,
{
    slot_in_range(pending, record.sequence);
    let slot = slot_for(pending, record.sequence);
    let after = slotted(pending, record);
    assert(after[slot] == record);
    if listed(pending, sequence) {
        let at = choose|i: int|
            0 <= i < pending.len() && (#[trigger] pending[i]).sequence == sequence;
        let now = if at < slot {
            at
        } else {
            at + 1
        };
        assert(after[now] == pending[at]);
    }
    if listed(after, sequence) {
        let at = choose|i: int| 0 <= i < after.len() && (#[trigger] after[i]).sequence == sequence;
        if at < slot {
            assert(after[at] == pending[at]);
        } else if at > slot {
            assert(after[at] == pending[at - 1]);
        }
    }
}

/// Placing records adds their sequences and nothing else.
proof fn slotted_all_lists<P>(
    pending: Seq<EgressEnvelope<P>>,
    records: Seq<EgressEnvelope<P>>,
    sequence: u64,
)
    ensures
        listed(slotted_all(pending, records), sequence) <==> listed(pending, sequence) || listed(
            records,
            sequence,
        ),
    decreases records.len(),
{
    if records.len() > 0 {
        let fewer = records.drop_last();
        slotted_all_lists(pending, fewer, sequence);
        slotted_lists(slotted_all(pending, fewer), records.last(), sequence);
        if listed(fewer, sequence) {
            let at = choose|i: int|
                0 <= i < fewer.len() && (#[trigger] fewer[i]).sequence == sequence;
            assert(records[at] == fewer[at]);
        }
        if listed(records, sequence) {
            let at = choose|i: int|
                0 <= i < records.len() && (#[trigger] records[i]).sequence == sequence;
            if at < fewer.len() {
                assert(fewer[at] == records[at]);
            }
        }
        assert(records[records.len() - 1] == records.last());
    }
}

/// A claim loses nothing: what was owed is owed.
pub proof fn claiming_loses_nothing<P>(state: EgressState<P>, generation: u64, sequence: u64)
    requires
        state.wf(),
    ensures
        owed(state.claimed(generation).0, sequence) == owed(state, sequence),
{
    let after = state.claimed(generation).0;
    if after.pending.len() < state.pending.len() {
        assert forall|i: int| 0 <= i < after.pending.len() implies #[trigger] after.pending[i]
            == state.pending[i + 1] by {}
        if listed(state.pending, sequence) {
            let at = choose|i: int|
                0 <= i < state.pending.len() && (#[trigger] state.pending[i]).sequence == sequence;
            if at > 0 {
                assert(after.pending[at - 1] == state.pending[at]);
            }
        }
        if listed(after.pending, sequence) {
            let at = choose|i: int|
                0 <= i < after.pending.len() && (#[trigger] after.pending[i]).sequence == sequence;
            assert(state.pending[at + 1].sequence == sequence);
        }
    }
}

/// Releasing a parked record loses nothing.
pub proof fn releasing_loses_nothing<P>(
    state: EgressState<P>,
    generation: u64,
    released: u64,
    sequence: u64,
)
    requires
        state.wf(),
    ensures
        owed(state.released(generation, released).0, sequence) == owed(state, sequence),
{
    if state.failed.contains_key(released) {
        slotted_lists(state.pending, state.failed[released], sequence);
        let after = state.released(generation, released).0;
        assert(listed(state.pending, sequence) ==> owed(state, sequence));
        assert(owed(after, sequence) == (listed(after.pending, sequence)
            || after.inflight.contains_key(sequence) || after.failed.contains_key(sequence)));
        assert(owed(state, sequence) == (listed(state.pending, sequence)
            || state.inflight.contains_key(sequence) || state.failed.contains_key(sequence)));
    }
}

/// A failure gives up exactly the record whose retry budget is spent.
pub proof fn only_spent_budgets_lose_records<P>(
    state: EgressState<P>,
    generation: u64,
    failing: u64,
    sequence: u64,
)
    requires
        state.wf(),
        state.next_sequence < u64::MAX,
    ensures
        ({
            let (after, _, outcome) = state.failing(generation, failing);
            &&& sequence != failing || !(outcome is Exhausted) ==> owed(after, sequence) == owed(
                state,
                sequence,
            )
            &&& outcome is Exhausted ==> !owed(after, failing)
                && state.inflight[failing].attempt > state.policy.retry_budget
            &&& outcome is Retrying ==> state.inflight[failing].attempt
                <= state.policy.retry_budget
        }),
{
    let (after, _, outcome) = state.failing(generation, failing);
    assert(after.pending == state.pending);
    assert(owed(state, sequence) == (listed(state.pending, sequence)
        || state.inflight.contains_key(sequence) || state.failed.contains_key(sequence)));
    assert(owed(after, sequence) == (listed(state.pending, sequence)
        || after.inflight.contains_key(sequence) || after.failed.contains_key(sequence)));
    if outcome is Exhausted {
        assert(state.inflight.contains_key(failing));
        assert(!listed(state.pending, failing));
        assert(owed(after, failing) == (listed(state.pending, failing)
            || after.inflight.contains_key(failing) || after.failed.contains_key(failing)));
    }
}

/// A reconnect loses nothing: every record that was owed is pending under the new
/// generation, and the watermark and the sequence space survive.
pub proof fn reconnecting_replays_everything<P>(
    state: EgressState<P>,
    generation: u64,
    sequence: u64,
)
    requires
        state.wf(),
        generation > state.generation,
    ensures
        ({
            let after = state.reconnected(generation).0;
            &&& owed(after, sequence) == owed(state, sequence)
            &&& owed(state, sequence) ==> listed(after.pending, sequence)
            &&& after.inflight.len() == 0
            &&& after.acked_through == state.acked_through
            &&& after.next_sequence == state.next_sequence
            &&& forall|i: int|
                0 <= i < after.pending.len() ==> (#[trigger] after.pending[i]).generation
                    == generation
        }),
{
    let flying = by_sequence(state.inflight);
    let parked = by_sequence(state.failed);
    by_sequence_facts(state.inflight);
    by_sequence_facts(state.failed);
    let some = slotted_all(state.pending, flying);
    let all = slotted_all(some, parked);
    slotted_all_lists(state.pending, flying, sequence);
    slotted_all_lists(some, parked, sequence);
    assert(listed(flying, sequence) <==> state.inflight.contains_key(sequence)) by {
        if state.inflight.contains_key(sequence) {
            let at = flying.index_of(state.inflight[sequence]);
            assert(flying[at] == state.inflight[sequence]);
        }
    }
    assert(listed(parked, sequence) <==> state.failed.contains_key(sequence)) by {
        if state.failed.contains_key(sequence) {
            let at = parked.index_of(state.failed[sequence]);
            assert(parked[at] == state.failed[sequence]);
        }
    }
    let after = state.reconnected(generation).0;
    assert(listed(after.pending, sequence) <==> listed(all, sequence)) by {
        if listed(all, sequence) {
            let at = choose|i: int| 0 <= i < all.len() && (#[trigger] all[i]).sequence == sequence;
            assert(after.pending[at].sequence == sequence);
        }
        if listed(after.pending, sequence) {
            let at = choose|i: int|
                0 <= i < after.pending.len() && (#[trigger] after.pending[i]).sequence == sequence;
            assert(all[at].sequence == sequence);
        }
    }
    assert(owed(state, sequence) == (listed(state.pending, sequence)
        || state.inflight.contains_key(sequence) || state.failed.contains_key(sequence)));
    assert(owed(after, sequence) == (listed(after.pending, sequence) || after.inflight.contains_key(
        sequence,
    ) || after.failed.contains_key(sequence)));
}

/// An acknowledgement settles exactly what its watermark covers.
pub proof fn acknowledging_settles_what_it_covers<P>(
    state: EgressState<P>,
    generation: u64,
    through: u64,
    sequence: u64,
)
    requires
        state.wf(),
    ensures
        ({
            let (after, _, outcome) = state.acked(generation, through);
            if outcome is Advanced {
                owed(after, sequence) <==> owed(state, sequence) && sequence > through
            } else {
                after == state
            }
        }),
{
    let (after, _, outcome) = state.acked(generation, through);
    if outcome is Advanced {
        let keep = |record: EgressEnvelope<P>| record.sequence > through;
        filter_keeps_what_matches(state.pending, keep);
        if listed(state.pending, sequence) && sequence > through {
            let at = choose|i: int|
                0 <= i < state.pending.len() && (#[trigger] state.pending[i]).sequence == sequence;
            assert(keep(state.pending[at]));
            assert(after.pending.contains(state.pending[at]));
            let now = after.pending.index_of(state.pending[at]);
            assert(after.pending[now].sequence == sequence);
        }
        if listed(after.pending, sequence) {
            let at = choose|i: int|
                0 <= i < after.pending.len() && (#[trigger] after.pending[i]).sequence == sequence;
            assert(keep(after.pending[at]));
            kept_was_there(state.pending, keep, at);
            let before = state.pending.index_of(after.pending[at]);
            assert(state.pending[before].sequence == sequence);
        }
        assert(owed(state, sequence) == (listed(state.pending, sequence)
            || state.inflight.contains_key(sequence) || state.failed.contains_key(sequence)));
        assert(owed(after, sequence) == (listed(after.pending, sequence)
            || after.inflight.contains_key(sequence) || after.failed.contains_key(sequence)));
    }
}

/// The watermark never moves down, whatever the operation.
pub proof fn watermark_is_monotone<P>(
    state: EgressState<P>,
    payload: P,
    generation: u64,
    sequence: u64,
)
    requires
        state.wf(),
    ensures
        state.enqueued(payload).0.acked_through == state.acked_through,
        state.claimed(generation).0.acked_through == state.acked_through,
        state.failing(generation, sequence).0.acked_through == state.acked_through,
        state.released(generation, sequence).0.acked_through == state.acked_through,
        state.reconnected(generation).0.acked_through == state.acked_through,
        state.acked_through is Some ==> {
            &&& state.acked(generation, sequence).0.acked_through is Some
            &&& state.acked(generation, sequence).0.acked_through->0 >= state.acked_through->0
        },
{
}

/// An attachment of a superseded generation is inert: it can neither claim nor
/// acknowledge nor fail nor release anything.
pub proof fn superseded_attachments_are_inert<P>(
    state: EgressState<P>,
    generation: u64,
    sequence: u64,
)
    requires
        state.wf(),
        generation != state.generation,
    ensures
        state.claimed(generation) == (
            state,
            EgressChange::nothing(),
            EgressClaim::<P>::StaleGeneration { current: state.generation },
        ),
        state.acked(generation, sequence) == (
            state,
            EgressChange::nothing(),
            EgressAck::StaleGeneration { current: state.generation },
        ),
        state.failing(generation, sequence) == (
            state,
            EgressChange::nothing(),
            EgressFailure::StaleGeneration { current: state.generation },
        ),
        state.released(generation, sequence) == (
            state,
            EgressChange::nothing(),
            EgressRetryAction::StaleGeneration { current: state.generation },
        ),
        generation < state.generation ==> state.reconnected(generation).0 == state,
{
}

/// Every reader kind that a transition left unmarked reads as before.
pub open spec fn unmarked_egress_holds<P>(
    before: EgressState<P>,
    after: EgressState<P>,
    change: EgressChange,
) -> bool {
    &&& !change.pending ==> after.pending == before.pending
    &&& !change.inflight ==> by_sequence(after.inflight) == by_sequence(before.inflight)
    &&& !change.acked_through ==> after.acked_through == before.acked_through
    &&& !change.retry ==> after.retry == before.retry
}

/// Every transition marks the readers that it moves.
pub proof fn egress_marks_what_moves<P>(
    state: EgressState<P>,
    payload: P,
    generation: u64,
    sequence: u64,
)
    requires
        state.wf(),
    ensures
        ({
            let (after, change, _) = state.enqueued(payload);
            unmarked_egress_holds(state, after, change)
        }),
        ({
            let (after, change, _) = state.claimed(generation);
            unmarked_egress_holds(state, after, change)
        }),
        ({
            let (after, change, _) = state.acked(generation, sequence);
            unmarked_egress_holds(state, after, change)
        }),
        ({
            let (after, change, _) = state.failing(generation, sequence);
            unmarked_egress_holds(state, after, change)
        }),
        ({
            let (after, change, _) = state.released(generation, sequence);
            unmarked_egress_holds(state, after, change)
        }),
        ({
            let (after, change, _) = state.reconnected(generation);
            unmarked_egress_holds(state, after, change)
        }),
{
    let (acked, change, outcome) = state.acked(generation, sequence);
    if outcome is Advanced {
        if !change.pending {
            full_filter(
                state.pending,
                |record: EgressEnvelope<P>| record.sequence > sequence,
            );
        }
        if !change.inflight {
            assert(acked.inflight.dom().subset_of(state.inflight.dom()));
            vstd::set_lib::lemma_subset_equality(acked.inflight.dom(), state.inflight.dom());
            assert(acked.inflight =~= state.inflight);
        }
    }
    let after = state.reconnected(generation).0;
    if generation > state.generation && state.inflight.len() + state.failed.len() == 0 {
        by_sequence_facts(state.inflight);
        by_sequence_facts(state.failed);
        by_sequence_facts(after.inflight);
        assert(by_sequence(state.inflight) =~= Seq::empty());
        assert(by_sequence(state.failed) =~= Seq::empty());
        assert(by_sequence(after.inflight) =~= Seq::empty());
        if state.pending.len() == 0 {
            assert(after.pending =~= state.pending);
        }
    }
}

} // verus!
