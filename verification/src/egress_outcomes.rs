//! Laws of the egress authority's operations: what each gives, when, and what it leaves.

use vstd::arithmetic::power2::pow2;
use vstd::prelude::*;

use crate::egress_core::{
    EgressAck, EgressChange, EgressClaim, EgressEnvelope, EgressFailure, EgressPolicy,
    EgressReconnect, EgressRetryAction, EgressState, by_sequence, by_sequence_facts,
    reconnected_is_wf, released_is_wf, slot_for, slot_in_range, slotted, slotted_all,
};
use crate::filtering::{all_kept, filter_keeps_what_matches, full_filter};

verus! {

/// A policy can be used exactly where something may be in flight and the backoff starts above
/// zero and within its ceiling.
pub proof fn a_usable_policy_lets_something_fly<P>(policy: EgressPolicy)
    ensures
        EgressState::<P>::accepts(policy) <==> 0 < policy.inflight_limit && 0 < policy.retry_base
            && policy.retry_base <= policy.retry_ceiling,
{
}

/// A new authority has nothing to send and starts its sequence space at zero.
pub proof fn a_new_authority_has_nothing_to_send<P>(generation: u64, policy: EgressPolicy)
    ensures
        ({
            let state = EgressState::<P>::initial(generation, policy);
            &&& state.policy == policy
            &&& state.generation == generation
            &&& state.next_sequence == 0
            &&& state.acked_through is None
            &&& state.pending.len() == 0
            &&& state.inflight == Map::<u64, EgressEnvelope<P>>::empty()
            &&& state.failed == Map::<u64, EgressEnvelope<P>>::empty()
            &&& state.retry is None
        }),
{
}

/// An enqueued payload gets the next sequence, waits behind everything that is pending without
/// an attempt, and moves nothing else.
pub proof fn an_enqueued_payload_waits_last<P>(state: EgressState<P>, payload: P)
    ensures
        ({
            let (after, change, sequence) = state.enqueued(payload);
            &&& sequence == state.next_sequence
            &&& after.pending == state.pending.push(
                EgressEnvelope { generation: state.generation, sequence, attempt: 0, payload },
            )
            &&& state.next_sequence < u64::MAX ==> after.next_sequence == state.next_sequence + 1
            &&& state.next_sequence == u64::MAX ==> after.next_sequence == u64::MAX
            &&& after.policy == state.policy
            &&& after.generation == state.generation
            &&& after.acked_through == state.acked_through
            &&& after.inflight == state.inflight
            &&& after.failed == state.failed
            &&& after.retry == state.retry
            &&& change == (EgressChange {
                pending: true,
                inflight: false,
                acked_through: false,
                retry: false,
            })
        }),
{
}

/// A claim takes the oldest pending record into the window, as one more attempt, exactly for
/// the current generation while the window has room and something is pending. It settles the
/// retry of that record and moves nothing else; a claim that gives nothing moves nothing.
pub proof fn a_claim_takes_the_oldest_record<P>(state: EgressState<P>, generation: u64)
    requires
        state.wf(),
    ensures
        ({
            let (after, change, claim) = state.claimed(generation);
            let current = generation == state.generation;
            let full = state.policy.inflight_limit <= state.inflight.len();
            let head = state.pending[0];
            let settles = state.retry is Some && state.retry->0.sequence == head.sequence;
            &&& claim is StaleGeneration <==> !current
            &&& claim is StaleGeneration ==> claim == (EgressClaim::<P>::StaleGeneration {
                current: state.generation,
            })
            &&& claim is WindowFull <==> current && full
            &&& claim is Empty <==> current && !full && state.pending.len() == 0
            &&& claim is Claimed <==> current && !full && state.pending.len() > 0
            &&& !(claim is Claimed) ==> after == state && change == (EgressChange {
                pending: false,
                inflight: false,
                acked_through: false,
                retry: false,
            })
            &&& claim matches EgressClaim::Claimed(record) ==> {
                &&& record.generation == state.generation
                &&& record.sequence == head.sequence
                &&& record.payload == head.payload
                &&& head.attempt < u32::MAX ==> record.attempt == head.attempt + 1
                &&& head.attempt == u32::MAX ==> record.attempt == u32::MAX
                &&& after.inflight == state.inflight.insert(head.sequence, record)
                &&& after.pending.len() + 1 == state.pending.len()
                &&& forall|i: int|
                    0 <= i < after.pending.len() ==> #[trigger] after.pending[i]
                        == state.pending[i + 1]
                &&& after.retry == if settles {
                    None
                } else {
                    state.retry
                }
                &&& after.failed == state.failed
                &&& after.policy == state.policy
                &&& after.generation == state.generation
                &&& after.next_sequence == state.next_sequence
                &&& after.acked_through == state.acked_through
                &&& change == (EgressChange {
                    pending: true,
                    inflight: true,
                    acked_through: false,
                    retry: settles,
                })
            }
        }),
{
}

/// An acknowledgement of the current generation moves the watermark exactly where it is above
/// it. What it covers is gone from everywhere, what it does not cover stays where it was, and
/// it marks what it moved.
pub proof fn an_acknowledgement_covers_up_to_its_sequence<P>(
    state: EgressState<P>,
    generation: u64,
    through: u64,
)
    requires
        state.wf(),
    ensures
        ({
            let (after, change, ack) = state.acked(generation, through);
            let current = generation == state.generation;
            let news = state.acked_through is Some ==> state.acked_through->0 < through;
            let settles = state.retry is Some && state.retry->0.sequence <= through;
            &&& ack is StaleGeneration <==> !current
            &&& ack is StaleGeneration ==> ack == (EgressAck::StaleGeneration {
                current: state.generation,
            })
            &&& ack is Unchanged <==> current && !news
            &&& ack is Unchanged ==> ack == (EgressAck::Unchanged { through: state.acked_through })
            &&& ack is Advanced <==> current && news
            &&& ack is Advanced ==> ack == (EgressAck::Advanced { through })
            &&& !(ack is Advanced) ==> after == state && change == (EgressChange {
                pending: false,
                inflight: false,
                acked_through: false,
                retry: false,
            })
            &&& ack is Advanced ==> {
                &&& after.acked_through == Some(through)
                &&& after.pending == state.pending.filter(
                    |record: EgressEnvelope<P>| record.sequence > through,
                )
                &&& forall|s: u64| #[trigger]
                    after.inflight.contains_key(s) <==> state.inflight.contains_key(s) && s
                        > through
                &&& forall|s: u64| #[trigger]
                    after.inflight.contains_key(s) ==> after.inflight[s] == state.inflight[s]
                &&& forall|s: u64| #[trigger]
                    after.failed.contains_key(s) <==> state.failed.contains_key(s) && s > through
                &&& forall|s: u64| #[trigger]
                    after.failed.contains_key(s) ==> after.failed[s] == state.failed[s]
                &&& after.retry == if settles {
                    None
                } else {
                    state.retry
                }
                &&& after.policy == state.policy
                &&& after.generation == state.generation
                &&& after.next_sequence == state.next_sequence
                &&& change.acked_through
                &&& change.retry == settles
                &&& change.pending <==> exists|i: int|
                    0 <= i < state.pending.len() && (#[trigger] state.pending[i]).sequence
                        <= through
                &&& change.inflight <==> exists|s: u64| #[trigger]
                    state.inflight.contains_key(s) && s <= through
            }
        }),
{
    let (after, change, ack) = state.acked(generation, through);
    if ack is Advanced {
        let keep = |record: EgressEnvelope<P>| record.sequence > through;
        filter_keeps_what_matches(state.pending, keep);
        let covered = exists|i: int|
            0 <= i < state.pending.len() && (#[trigger] state.pending[i]).sequence <= through;
        if !change.pending {
            full_filter(state.pending, keep);
            if covered {
                let at = choose|i: int|
                    0 <= i < state.pending.len() && (#[trigger] state.pending[i]).sequence
                        <= through;
                assert(state.pending.filter(keep)[at] == state.pending[at]);
                assert(keep(state.pending.filter(keep)[at]));
            }
        } else if !covered {
            all_kept(state.pending, keep);
        }
        let rest = after.inflight.dom();
        assert(rest.subset_of(state.inflight.dom()));
        if forall|s: u64| #[trigger] state.inflight.contains_key(s) ==> s > through {
            assert(rest =~= state.inflight.dom());
        } else {
            let s = choose|s: u64| #[trigger] state.inflight.contains_key(s) && s <= through;
            assert(rest.subset_of(state.inflight.dom().remove(s)));
            vstd::set_lib::lemma_len_subset(rest, state.inflight.dom().remove(s));
        }
    }
}

/// A failure counts exactly for a record of the window, in the current generation. The record
/// leaves the window; it is parked while it has retries left and given up otherwise, and the
/// outstanding retry says which record, which attempt and for how long: the base, doubled per
/// attempt after the first, up to the ceiling.
pub proof fn a_failed_record_is_parked_while_it_has_retries<P>(
    state: EgressState<P>,
    generation: u64,
    sequence: u64,
)
    requires
        state.wf(),
    ensures
        ({
            let (after, change, failure) = state.failing(generation, sequence);
            let current = generation == state.generation;
            let flies = state.inflight.contains_key(sequence);
            let record = state.inflight[sequence];
            let spent = state.policy.retry_budget < record.attempt;
            let retry = after.retry->0;
            &&& failure is StaleGeneration <==> !current
            &&& failure is StaleGeneration ==> failure == (EgressFailure::StaleGeneration {
                current: state.generation,
            })
            &&& failure is UnknownSequence <==> current && !flies
            &&& failure is Exhausted <==> current && flies && spent
            &&& failure is Retrying <==> current && flies && !spent
            &&& !(current && flies) ==> after == state && change == (EgressChange {
                pending: false,
                inflight: false,
                acked_through: false,
                retry: false,
            })
            &&& current && flies ==> {
                &&& after.inflight == state.inflight.remove(sequence)
                &&& spent ==> after.failed == state.failed
                &&& !spent ==> after.failed == state.failed.insert(sequence, record)
                &&& after.retry is Some
                &&& retry.sequence == sequence
                &&& retry.attempt == record.attempt
                &&& retry.exhausted == spent
                &&& 1 <= record.attempt <= 64 ==> retry.backoff == if state.policy.retry_base
                    * pow2((record.attempt - 1) as nat) <= state.policy.retry_ceiling {
                    state.policy.retry_base * pow2((record.attempt - 1) as nat)
                } else {
                    state.policy.retry_ceiling as int
                }
                &&& retry.backoff <= state.policy.retry_ceiling
                &&& spent ==> failure == EgressFailure::Exhausted(retry)
                &&& !spent ==> failure == EgressFailure::Retrying(retry)
                &&& after.pending == state.pending
                &&& after.policy == state.policy
                &&& after.generation == state.generation
                &&& after.next_sequence == state.next_sequence
                &&& after.acked_through == state.acked_through
                &&& change == (EgressChange {
                    pending: false,
                    inflight: true,
                    acked_through: false,
                    retry: true,
                })
            }
        }),
{
}

/// Placing a record among others takes none away and adds it alone.
proof fn placing_adds_one<P>(pending: Seq<EgressEnvelope<P>>, record: EgressEnvelope<P>)
    ensures
        slotted(pending, record).len() == pending.len() + 1,
        forall|other: EgressEnvelope<P>| #[trigger]
            slotted(pending, record).contains(other) <==> pending.contains(other) || other
                == record,
{
    slot_in_range(pending, record.sequence);
    let at = slot_for(pending, record.sequence);
    let after = slotted(pending, record);
    assert forall|other: EgressEnvelope<P>| #[trigger] after.contains(other) <==> pending.contains(
        other,
    ) || other == record by {
        if after.contains(other) {
            let i = after.index_of(other);
            if i < at {
                assert(pending[i] == other);
            } else if i > at {
                assert(pending[i - 1] == other);
            }
        }
        if pending.contains(other) {
            let i = pending.index_of(other);
            if i < at {
                assert(after[i] == other);
            } else {
                assert(after[i + 1] == other);
            }
        }
        assert(after[at] == record);
    }
}

/// Placing some records among others takes none away and adds them alone.
proof fn placing_adds_all<P>(pending: Seq<EgressEnvelope<P>>, records: Seq<EgressEnvelope<P>>)
    ensures
        slotted_all(pending, records).len() == pending.len() + records.len(),
        forall|other: EgressEnvelope<P>| #[trigger]
            slotted_all(pending, records).contains(other) <==> pending.contains(other)
                || records.contains(other),
    decreases records.len(),
{
    if records.len() > 0 {
        let fewer = records.drop_last();
        placing_adds_all(pending, fewer);
        placing_adds_one(slotted_all(pending, fewer), records.last());
        assert forall|other: EgressEnvelope<P>| #[trigger]
            slotted_all(pending, records).contains(other) <==> pending.contains(other)
                || records.contains(other) by {
            if records.contains(other) {
                let i = records.index_of(other);
                if i < fewer.len() {
                    assert(fewer[i] == other);
                }
            }
            if fewer.contains(other) {
                let i = fewer.index_of(other);
                assert(records[i] == other);
            }
            assert(records[records.len() - 1] == records.last());
        }
    }
}

/// A record's place is right before the first one with a later sequence, or last where there
/// is none: behind every record of its own sequence that stands among earlier ones.
pub proof fn a_records_place_is_before_the_first_later_one<P>(
    pending: Seq<EgressEnvelope<P>>,
    sequence: u64,
)
    ensures
        0 <= slot_for(pending, sequence) <= pending.len(),
        forall|i: int|
            0 <= i < slot_for(pending, sequence) ==> (#[trigger] pending[i]).sequence <= sequence,
        slot_for(pending, sequence) < pending.len() ==> sequence < pending[slot_for(
            pending,
            sequence,
        )].sequence,
    decreases pending.len(),
{
    if pending.len() > 0 && pending[0].sequence <= sequence {
        let rest = pending.skip(1);
        a_records_place_is_before_the_first_later_one(rest, sequence);
        assert forall|i: int| 0 <= i < slot_for(pending, sequence) implies (
        #[trigger] pending[i]).sequence <= sequence by {
            if i > 0 {
                assert(rest[i - 1] == pending[i]);
            }
        }
    }
}

/// A parked record of the current generation is pending again as it was, in its place by
/// sequence, and its retry is settled; nothing else moves. Any other release does nothing.
pub proof fn a_released_record_waits_in_its_place<P>(
    state: EgressState<P>,
    generation: u64,
    sequence: u64,
)
    requires
        state.wf(),
    ensures
        ({
            let (after, change, action) = state.released(generation, sequence);
            let current = generation == state.generation;
            let parked = state.failed.contains_key(sequence);
            let settles = state.retry is Some && state.retry->0.sequence == sequence;
            &&& action is StaleGeneration <==> !current
            &&& action is StaleGeneration ==> action == (EgressRetryAction::StaleGeneration {
                current: state.generation,
            })
            &&& action is UnknownSequence <==> current && !parked
            &&& action is Scheduled <==> current && parked
            &&& action is Scheduled ==> action == (EgressRetryAction::Scheduled { sequence })
            &&& !(current && parked) ==> after == state && change == (EgressChange {
                pending: false,
                inflight: false,
                acked_through: false,
                retry: false,
            })
            &&& current && parked ==> {
                &&& after.pending.len() == state.pending.len() + 1
                &&& forall|record: EgressEnvelope<P>| #[trigger]
                    after.pending.contains(record) <==> state.pending.contains(record) || record
                        == state.failed[sequence]
                &&& state.next_sequence < u64::MAX ==> forall|i: int, j: int|
                    0 <= i < j < after.pending.len() ==> (#[trigger] after.pending[i]).sequence < (
                    #[trigger] after.pending[j]).sequence
                &&& after.failed == state.failed.remove(sequence)
                &&& after.retry == if settles {
                    None
                } else {
                    state.retry
                }
                &&& after.inflight == state.inflight
                &&& after.policy == state.policy
                &&& after.generation == state.generation
                &&& after.next_sequence == state.next_sequence
                &&& after.acked_through == state.acked_through
                &&& change == (EgressChange {
                    pending: true,
                    inflight: false,
                    acked_through: false,
                    retry: settles,
                })
            }
        }),
{
    released_is_wf(state, generation, sequence);
    if state.failed.contains_key(sequence) {
        placing_adds_one(state.pending, state.failed[sequence]);
    }
}

/// A reconnect to a newer generation makes everything that is unacknowledged pending again, by
/// sequence, each record with its payload and its attempts under the new generation, and
/// settles the retry. It tells how many came back. Any other changes nothing.
pub proof fn a_reconnect_sends_everything_again<P>(state: EgressState<P>, generation: u64)
    requires
        state.wf(),
        state.inflight.len() + state.failed.len() <= usize::MAX,
    ensures
        ({
            let (after, change, outcome) = state.reconnected(generation);
            let replayed = state.inflight.len() + state.failed.len();
            &&& outcome is StaleGeneration <==> generation < state.generation
            &&& outcome is StaleGeneration ==> outcome == (EgressReconnect::StaleGeneration {
                current: state.generation,
            })
            &&& outcome is Unchanged <==> generation == state.generation
            &&& outcome is Unchanged ==> outcome == (EgressReconnect::Unchanged { generation })
            &&& outcome is Advanced <==> state.generation < generation
            &&& !(outcome is Advanced) ==> after == state && change == (EgressChange {
                pending: false,
                inflight: false,
                acked_through: false,
                retry: false,
            })
            &&& outcome matches EgressReconnect::Advanced { generation: fence, replayed: count }
                ==> {
                &&& fence == generation
                &&& count == replayed
                &&& after.generation == generation
                &&& after.pending.len() == state.pending.len() + replayed
                &&& forall|i: int|
                    0 <= i < state.pending.len() ==> after.pending.contains(
                        (EgressEnvelope { generation, ..#[trigger] state.pending[i] }),
                    )
                &&& forall|s: u64| #[trigger]
                    state.inflight.contains_key(s) ==> after.pending.contains(
                        (EgressEnvelope { generation, ..state.inflight[s] }),
                    )
                &&& forall|s: u64| #[trigger]
                    state.failed.contains_key(s) ==> after.pending.contains(
                        (EgressEnvelope { generation, ..state.failed[s] }),
                    )
                &&& state.next_sequence < u64::MAX ==> forall|i: int, j: int|
                    0 <= i < j < after.pending.len() ==> (#[trigger] after.pending[i]).sequence < (
                    #[trigger] after.pending[j]).sequence
                &&& after.inflight == Map::<u64, EgressEnvelope<P>>::empty()
                &&& after.failed == Map::<u64, EgressEnvelope<P>>::empty()
                &&& after.retry is None
                &&& after.policy == state.policy
                &&& after.next_sequence == state.next_sequence
                &&& after.acked_through == state.acked_through
                &&& change == (EgressChange {
                    pending: state.pending.len() > 0 || replayed > 0,
                    inflight: replayed > 0,
                    acked_through: false,
                    retry: state.retry is Some,
                })
            }
        }),
{
    reconnected_is_wf(state, generation);
    if state.generation < generation {
        let flying = by_sequence(state.inflight);
        let parked = by_sequence(state.failed);
        by_sequence_facts(state.inflight);
        by_sequence_facts(state.failed);
        let some = slotted_all(state.pending, flying);
        let all = slotted_all(some, parked);
        placing_adds_all(state.pending, flying);
        placing_adds_all(some, parked);
        let after = state.reconnected(generation).0;
        assert forall|record: EgressEnvelope<P>| #[trigger]
            all.contains(record) implies after.pending.contains(
            (EgressEnvelope { generation, ..record }),
        ) by {
            let at = all.index_of(record);
            assert(after.pending[at] == (EgressEnvelope { generation, ..record }));
        }
        assert forall|i: int| 0 <= i < state.pending.len() implies after.pending.contains(
            (EgressEnvelope { generation, ..#[trigger] state.pending[i] }),
        ) by {
            assert(state.pending.contains(state.pending[i]));
            assert(some.contains(state.pending[i]));
            assert(all.contains(state.pending[i]));
        }
        assert forall|s: u64| #[trigger]
            state.inflight.contains_key(s) implies after.pending.contains(
            (EgressEnvelope { generation, ..state.inflight[s] }),
        ) by {
            assert(some.contains(state.inflight[s]));
            assert(all.contains(state.inflight[s]));
        }
        assert forall|s: u64| #[trigger]
            state.failed.contains_key(s) implies after.pending.contains(
            (EgressEnvelope { generation, ..state.failed[s] }),
        ) by {
            assert(all.contains(state.failed[s]));
        }
    }
}

/// A window is shown with every record once, by sequence.
pub proof fn a_window_is_shown_by_sequence<P>(records: Map<u64, EgressEnvelope<P>>)
    requires
        records.dom().finite(),
        forall|sequence: u64| #[trigger]
            records.contains_key(sequence) ==> records[sequence].sequence == sequence,
    ensures
        by_sequence(records).len() == records.len(),
        forall|sequence: u64| #[trigger]
            records.contains_key(sequence) ==> by_sequence(records).contains(records[sequence]),
        forall|i: int, j: int|
            0 <= i < j < by_sequence(records).len() ==> (#[trigger] by_sequence(
                records,
            )[i]).sequence < (#[trigger] by_sequence(records)[j]).sequence,
{
    by_sequence_facts(records);
}

} // verus!
