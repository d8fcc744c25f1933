//! Laws of what an envelope does: when it is delivered, parked or refused, and what a
//! delivery leaves for every reader of its key.

use vstd::prelude::*;

use crate::ingress_model::{
    IngressState, ScopeState, absorbed, admitted, countable, flushed, has_room,
};
use crate::ingress_types::{
    IngressAdmission, IngressDropReason, IngressEnvelope, IngressLifecycle, IngressMarks,
    IngressReadiness, IngressReceipt, IngressReceiptOutcome, IngressScopeChange,
};
use crate::merge::MergePolicy;

verus! {

/// Whether an envelope meets no baseline: its key is unknown, or it comes from a newer
/// producer than the one that is fenced.
pub open spec fn starts_over<Id, P>(
    state: IngressState<Id, P>,
    envelope: IngressEnvelope<Id, P>,
) -> bool {
    state.scopes.contains_key(envelope.key) ==> state.scopes[envelope.key].generation
        < envelope.generation
}

/// The envelopes that wait for a gap to close when an envelope comes in.
pub open spec fn waiting<Id, P>(
    state: IngressState<Id, P>,
    envelope: IngressEnvelope<Id, P>,
) -> Map<u64, (P, u64)> {
    if starts_over(state, envelope) {
        Map::empty()
    } else {
        state.scopes[envelope.key].pending
    }
}

/// The sequence that is due when an envelope comes in.
pub open spec fn due<Id, P>(state: IngressState<Id, P>, envelope: IngressEnvelope<Id, P>) -> int {
    if starts_over(state, envelope) {
        0
    } else {
        match state.scopes[envelope.key].delivered_through {
            Some(sequence) => sequence + 1,
            None => 0,
        }
    }
}

/// Whether what is held when an envelope comes in is at its bound.
pub open spec fn at_bound<Id, P>(
    state: IngressState<Id, P>,
    envelope: IngressEnvelope<Id, P>,
) -> bool {
    if starts_over(state, envelope) {
        state.policy.high_water == 0
    } else {
        state.policy.high_water <= state.scopes[envelope.key].window_depth
    }
}

/// What a delivered envelope is folded into: what is held, unless the envelope starts over
/// or what is held makes way.
pub open spec fn folded_into<Id, P>(
    state: IngressState<Id, P>,
    envelope: IngressEnvelope<Id, P>,
) -> Option<P> {
    if starts_over(state, envelope) || (at_bound(state, envelope) && state.policy.overflow
        is DropOldest) {
        None
    } else {
        state.scopes[envelope.key].window
    }
}

/// A value with the waiting payloads behind a sequence folded in, in sequence order.
pub open spec fn gathered<T: View, M: MergePolicy<T>>(
    value: T::V,
    parked: Map<u64, (T::V, u64)>,
    sequence: int,
    count: nat,
) -> T::V
    decreases count,
{
    if count == 0 {
        value
    } else {
        M::merged(
            gathered::<T, M>(value, parked, sequence, (count - 1) as nat),
            parked[(sequence + count) as u64].0,
        )
    }
}

/// Folding from the front is folding from the back.
proof fn gathering_from_the_front<T: View, M: MergePolicy<T>>(
    value: T::V,
    parked: Map<u64, (T::V, u64)>,
    fewer: Map<u64, (T::V, u64)>,
    sequence: int,
    count: nat,
)
    requires
        0 <= sequence,
        sequence + 1 + count <= u64::MAX,
        forall|s: u64| sequence + 1 < s ==> #[trigger] fewer[s] == parked[s],
    ensures
        gathered::<T, M>(
            M::merged(value, parked[(sequence + 1) as u64].0),
            fewer,
            sequence + 1,
            count,
        ) == gathered::<T, M>(value, parked, sequence, count + 1),
    decreases count,
{
    reveal_with_fuel(gathered, 2);
    if count > 0 {
        gathering_from_the_front::<T, M>(value, parked, fewer, sequence, (count - 1) as nat);
        assert(fewer[(sequence + 1 + count) as u64] == parked[(sequence + 1 + count) as u64]);
    } else {
        assert(gathered::<T, M>(value, parked, sequence, 0) == value);
    }
}

/// What releasing the waiting envelopes behind a watermark does.
proof fn a_flush_takes_the_run<T: View, M: MergePolicy<T>>(scope: ScopeState<T::V>)
    requires
        scope.delivered_through is Some,
        scope.delivered_through != Some(u64::MAX),
        scope.window is Some,
        scope.pending.dom().finite(),
        scope.window_depth + scope.pending.len() <= u64::MAX,
        forall|s: u64| #[trigger] scope.pending.contains_key(s) ==> s < u64::MAX,
    ensures
        ({
            let after = flushed::<T, M>(scope);
            let from = scope.delivered_through->0;
            let to = after.delivered_through->0;
            &&& after.delivered_through is Some
            &&& from <= to < u64::MAX
            &&& forall|s: u64| from < s <= to ==> #[trigger] scope.pending.contains_key(s)
            &&& !scope.pending.contains_key((to + 1) as u64)
            &&& forall|s: u64| #[trigger]
                after.pending.contains_key(s) <==> scope.pending.contains_key(s) && !(from < s
                    <= to)
            &&& forall|s: u64| #[trigger]
                after.pending.contains_key(s) ==> after.pending[s] == scope.pending[s]
            &&& after.window == Some(
                gathered::<T, M>(scope.window->0, scope.pending, from as int, (to - from) as nat),
            )
            &&& after.window_depth == scope.window_depth + (to - from)
            &&& scope.stamped_at <= after.stamped_at
            &&& forall|s: u64|
                from < s <= to ==> (#[trigger] scope.pending[s]).1 <= after.stamped_at
            &&& after.stamped_at == scope.stamped_at || exists|s: u64|
                from < s <= to && (#[trigger] scope.pending[s]).1 == after.stamped_at
            &&& after.generation == scope.generation
            &&& after.lifecycle == scope.lifecycle
            &&& after.consecutive_errors == scope.consecutive_errors
        }),
    decreases u64::MAX - scope.delivered_through->0,
{
    let from = scope.delivered_through->0;
    let next = (from + 1) as u64;
    if scope.pending.contains_key(next) {
        let (payload, stamp) = scope.pending[next];
        let taken = ScopeState { pending: scope.pending.remove(next), ..scope };
        let first = ScopeState {
            delivered_through: Some(next),
            ..absorbed::<T, M>(taken, payload, stamp)
        };
        a_flush_takes_the_run::<T, M>(first);
        let after = flushed::<T, M>(scope);
        assert(after == flushed::<T, M>(first));
        let to = after.delivered_through->0;
        assert forall|s: u64| from < s <= to implies #[trigger] scope.pending.contains_key(s) by {
            if s != next {
                assert(first.pending.contains_key(s));
            }
        }
        assert(!first.pending.contains_key((to + 1) as u64));
        gathering_from_the_front::<T, M>(
            scope.window->0,
            scope.pending,
            first.pending,
            from as int,
            (to - next) as nat,
        );
        assert forall|s: u64| from < s <= to implies (#[trigger] scope.pending[s]).1
            <= after.stamped_at by {
            if s != next {
                assert(first.pending[s] == scope.pending[s]);
            }
        }
        if after.stamped_at != scope.stamped_at {
            if after.stamped_at == first.stamped_at {
                assert(scope.pending[next].1 == after.stamped_at);
            } else {
                let s = choose|s: u64|
                    next < s <= to && (#[trigger] first.pending[s]).1 == after.stamped_at;
                assert(scope.pending[s].1 == after.stamped_at);
            }
        }
    }
}

/// Every outcome, with the envelopes that get it: a closed key refuses everything, then the
/// fence, then the horizon decide; an envelope ahead of what is due is parked while there is
/// room, one behind is a duplicate, and the one that is due is delivered unless what is held
/// is at a bound that refuses.
pub proof fn every_envelope_gets_its_outcome<Id, T: View, M: MergePolicy<T>>(
    state: IngressState<Id, T::V>,
    envelope: IngressEnvelope<Id, T::V>,
)
    requires
        state.wf(),
    ensures
        ({
            let outcome = admitted::<Id, T, M>(state, envelope).2;
            let known = state.scopes.contains_key(envelope.key);
            let closed = known && state.scopes[envelope.key].lifecycle is Closed;
            let stale = known && envelope.generation < state.scopes[envelope.key].generation;
            let expired = state.observed_now - envelope.stamped_at
                > state.policy.freshness_horizon;
            let passes = !closed && !stale && !expired;
            let ahead = due(state, envelope) < envelope.sequence;
            let parked = waiting(state, envelope);
            let twice = parked.contains_key(envelope.sequence);
            let crowded = parked.len() >= state.policy.reorder_window;
            let full = at_bound(state, envelope);
            let in_turn = passes && envelope.sequence == due(state, envelope);
            &&& outcome == IngressAdmission::Dropped(IngressDropReason::ScopeClosed) <==> closed
            &&& outcome == IngressAdmission::Dropped(IngressDropReason::StaleGeneration) <==> !closed
                && stale
            &&& outcome == IngressAdmission::Dropped(IngressDropReason::Expired) <==> !closed
                && !stale && expired
            &&& outcome == IngressAdmission::Dropped(IngressDropReason::DuplicateSequence) <==> passes
                && envelope.sequence < due(state, envelope)
            &&& outcome == IngressAdmission::Dropped(IngressDropReason::DuplicateBuffered) <==> passes
                && ahead && twice
            &&& outcome == IngressAdmission::Dropped(
                IngressDropReason::ReorderWindowOverflow,
            ) <==> passes && ahead && !twice && crowded
            &&& outcome is Buffered <==> passes && ahead && !twice && !crowded
            &&& outcome matches IngressAdmission::Buffered { gap_from } ==> gap_from == due(
                state,
                envelope,
            )
            &&& outcome is Blocked <==> in_turn && full && state.policy.overflow is Block
            &&& outcome == IngressAdmission::Dropped(IngressDropReason::Backpressure) <==> in_turn
                && full && state.policy.overflow is DropNewest
            &&& outcome.delivered() <==> in_turn && !(full && (state.policy.overflow is Block
                || state.policy.overflow is DropNewest))
        }),
{
}

/// What a delivery leaves: the watermark is behind the run of waiting envelopes that it
/// closed, exactly that run is released, and its payloads are folded in sequence order into
/// what was held. The stamp is the newest of the one before, the envelope's own and those of
/// the run, whether or not a value was held.
pub proof fn a_delivery_releases_the_run_it_closes<Id, T: View, M: MergePolicy<T>>(
    state: IngressState<Id, T::V>,
    envelope: IngressEnvelope<Id, T::V>,
)
    requires
        state.wf(),
        countable::<Id, T, M>(state, envelope),
        has_room(state, envelope.key),
        admitted::<Id, T, M>(state, envelope).2.delivered(),
    ensures
        ({
            let after = admitted::<Id, T, M>(state, envelope).0.scopes[envelope.key];
            let parked = waiting(state, envelope);
            let held = folded_into(state, envelope);
            let depth: int = if held is Some {
                state.scopes[envelope.key].window_depth as int
            } else {
                0
            };
            let stamp: u64 = if state.scopes.contains_key(envelope.key) {
                state.scopes[envelope.key].stamped_at
            } else {
                0
            };
            let from = envelope.sequence;
            let to = after.delivered_through->0;
            let first = match held {
                Some(value) => M::merged(value, envelope.payload),
                None => envelope.payload,
            };
            &&& admitted::<Id, T, M>(state, envelope).0.scopes == state.scopes.insert(
                envelope.key,
                after,
            )
            &&& after.delivered_through is Some
            &&& from <= to < u64::MAX
            &&& forall|s: u64| from < s <= to ==> #[trigger] parked.contains_key(s)
            &&& !parked.contains_key((to + 1) as u64)
            &&& forall|s: u64| #[trigger]
                after.pending.contains_key(s) <==> parked.contains_key(s) && to < s
            &&& forall|s: u64| #[trigger]
                after.pending.contains_key(s) ==> after.pending[s] == parked[s]
            &&& after.window == Some(
                gathered::<T, M>(first, parked, from as int, (to - from) as nat),
            )
            &&& after.window_depth == depth + 1 + (to - from)
            &&& stamp <= after.stamped_at
            &&& envelope.stamped_at <= after.stamped_at
            &&& forall|s: u64| from < s <= to ==> (#[trigger] parked[s]).1 <= after.stamped_at
            &&& after.stamped_at == stamp || after.stamped_at == envelope.stamped_at
                || exists|s: u64|
                from < s <= to && (#[trigger] parked[s]).1 == after.stamped_at
            &&& after.generation == envelope.generation
            &&& after.lifecycle is Live
            &&& after.consecutive_errors == 0
        }),
{
    let known = state.scopes.contains_key(envelope.key);
    let before = if known {
        state.scopes[envelope.key]
    } else {
        ScopeState::opening(envelope.generation)
    };
    let base = if envelope.generation > before.generation {
        before.handed_to(envelope.generation)
    } else {
        before
    };
    let room = if base.window_depth >= state.policy.high_water
        && state.policy.overflow is DropOldest {
        base.drained()
    } else {
        base
    };
    assert(Map::<u64, (T::V, u64)>::empty().dom() =~= Set::empty());
    assert(base.pending == waiting(state, envelope));
    assert(room.window == folded_into(state, envelope));
    let first = ScopeState {
        delivered_through: Some(envelope.sequence),
        lifecycle: IngressLifecycle::Live,
        consecutive_errors: 0,
        ..absorbed::<T, M>(room, envelope.payload, envelope.stamped_at)
    };
    assert forall|s: u64| #[trigger] first.pending.contains_key(s) implies s < u64::MAX by {
        assert(base.pending.contains_key(s));
    }
    a_flush_takes_the_run::<T, M>(first);
    let after = flushed::<T, M>(first);
    assert(admitted::<Id, T, M>(state, envelope).0.scopes[envelope.key] == after);
    assert forall|s: u64| #[trigger] after.pending.contains_key(s) <==> waiting(
        state,
        envelope,
    ).contains_key(s) && after.delivered_through->0 < s by {
        if base.pending.contains_key(s) {
            assert(base.next_expected() < s);
        }
    }
}

/// A delivery tells what it did: a newer producer took over from one generation to another;
/// otherwise it coalesced, where something was held or a run was released with it, or was
/// accepted alone. The receipt says the same.
pub proof fn a_delivery_is_told_by_what_it_did<Id, T: View, M: MergePolicy<T>>(
    state: IngressState<Id, T::V>,
    envelope: IngressEnvelope<Id, T::V>,
)
    requires
        state.wf(),
        countable::<Id, T, M>(state, envelope),
        has_room(state, envelope.key),
        admitted::<Id, T, M>(state, envelope).2.delivered(),
    ensures
        ({
            let (plane, _, outcome) = admitted::<Id, T, M>(state, envelope);
            let known = state.scopes.contains_key(envelope.key);
            let takes_over = known && state.scopes[envelope.key].generation < envelope.generation;
            let through = plane.scopes[envelope.key].delivered_through->0;
            let alone = folded_into(state, envelope) is None && through == envelope.sequence;
            &&& outcome is GenerationHandoff <==> takes_over
            &&& outcome is GenerationHandoff ==> outcome == (IngressAdmission::GenerationHandoff {
                from: state.scopes[envelope.key].generation,
                to: envelope.generation,
            })
            &&& outcome is Accepted <==> !takes_over && alone
            &&& outcome is Accepted ==> outcome == (IngressAdmission::Accepted {
                delivered_through: through,
            })
            &&& outcome is Conflated <==> !takes_over && !alone
            &&& outcome is Conflated ==> outcome == (IngressAdmission::Conflated {
                delivered_through: through,
            })
            &&& plane.receipts.len() > 0
            &&& plane.receipts.last() == (IngressReceipt {
                offset: state.next_receipt_offset,
                key: envelope.key,
                generation: envelope.generation,
                sequence: Some(envelope.sequence),
                outcome: IngressReceiptOutcome::Accepted {
                    delivered_through: through,
                    conflated: !alone,
                },
            })
        }),
{
    a_delivery_releases_the_run_it_closes::<Id, T, M>(state, envelope);
}

/// A key that something was delivered for is ready: its readers see a value, the envelope's
/// generation with the watermark and a stamp that is no older than the envelope's, and
/// nothing to retry. It stays ready for exactly as long as that stamp is within the horizon.
pub proof fn a_delivered_key_is_ready<Id, T: View, M: MergePolicy<T>>(
    state: IngressState<Id, T::V>,
    envelope: IngressEnvelope<Id, T::V>,
    now: u64,
)
    requires
        state.wf(),
        countable::<Id, T, M>(state, envelope),
        has_room(state, envelope.key),
        admitted::<Id, T, M>(state, envelope).2.delivered(),
    ensures
        ({
            let plane = admitted::<Id, T, M>(state, envelope).0;
            let id = envelope.key;
            let authority = plane.authority_of(id);
            &&& plane.readiness_of(id) is Ready
            &&& plane.value_of(id) is Some
            &&& plane.retry_of(id) is None
            &&& authority is Some
            &&& authority->0.generation == envelope.generation
            &&& authority->0.delivered_through is Some
            &&& envelope.sequence <= authority->0.delivered_through->0
            &&& envelope.stamped_at <= authority->0.stamped_at
            &&& plane.ticked(now).0.readiness_of(id) == if now - authority->0.stamped_at
                <= state.policy.freshness_horizon {
                IngressReadiness::Ready
            } else {
                IngressReadiness::Stale
            }
            &&& now - envelope.stamped_at <= state.policy.freshness_horizon ==> plane.ticked(
                now,
            ).0.readiness_of(id) is Ready
        }),
{
    a_delivery_releases_the_run_it_closes::<Id, T, M>(state, envelope);
}

/// An envelope that is parked waits under its sequence, and an envelope that is not
/// delivered moves nothing else of its key, but that a newer producer that passes the
/// horizon takes the fence and starts over without a watermark, a value or waiting
/// envelopes.
pub proof fn what_is_not_delivered_moves_only_the_fence<Id, T: View, M: MergePolicy<T>>(
    state: IngressState<Id, T::V>,
    envelope: IngressEnvelope<Id, T::V>,
)
    requires
        state.wf(),
        !admitted::<Id, T, M>(state, envelope).2.delivered(),
    ensures
        ({
            let (plane, _, outcome) = admitted::<Id, T, M>(state, envelope);
            let id = envelope.key;
            let known = state.scopes.contains_key(id);
            let before = state.scopes[id];
            let after = plane.scopes[id];
            let expired = state.observed_now - envelope.stamped_at
                > state.policy.freshness_horizon;
            let takes_over = known && before.generation < envelope.generation && !(
            before.lifecycle is Closed) && !expired;
            let parked = waiting(state, envelope).insert(
                envelope.sequence,
                (envelope.payload, envelope.stamped_at),
            );
            &&& forall|other: Id| #![trigger plane.scopes.contains_key(other)]
                other != id ==> plane.scopes.contains_key(other) == state.scopes.contains_key(other)
            &&& forall|other: Id| #![trigger plane.scopes[other]]
                other != id ==> plane.scopes[other] == state.scopes[other]
            &&& plane.scopes.contains_key(id) <==> known || outcome is Buffered
            &&& outcome is Buffered ==> after.pending == parked
            &&& known ==> {
                &&& after.lifecycle == before.lifecycle
                &&& after.stamped_at == before.stamped_at
                &&& after.consecutive_errors == before.consecutive_errors
            }
            &&& known && takes_over ==> {
                &&& after.generation == envelope.generation
                &&& after.delivered_through is None
                &&& after.window is None
                &&& after.window_depth == 0
                &&& !(outcome is Buffered) ==> after.pending == Map::<u64, (T::V, u64)>::empty()
            }
            &&& known && !takes_over ==> {
                &&& after.generation == before.generation
                &&& after.delivered_through == before.delivered_through
                &&& after.window == before.window
                &&& after.window_depth == before.window_depth
                &&& !(outcome is Buffered) ==> after.pending == before.pending
            }
            &&& !known && outcome is Buffered ==> {
                &&& after.generation == envelope.generation
                &&& after.delivered_through is None
                &&& after.window is None
                &&& after.window_depth == 0
                &&& after.stamped_at == 0
                &&& after.consecutive_errors == 0
                &&& after.lifecycle is Opening
            }
        }),
{
}

/// A refused envelope leaves a receipt that names it and the reason, at the fence; a parked
/// one leaves none.
pub proof fn refusals_are_receipted<Id, T: View, M: MergePolicy<T>>(
    state: IngressState<Id, T::V>,
    envelope: IngressEnvelope<Id, T::V>,
)
    requires
        state.wf(),
        !admitted::<Id, T, M>(state, envelope).2.delivered(),
    ensures
        ({
            let (plane, _, outcome) = admitted::<Id, T, M>(state, envelope);
            let id = envelope.key;
            let reason = match outcome {
                IngressAdmission::Dropped(reason) => reason,
                _ => IngressDropReason::Backpressure,
            };
            &&& outcome is Buffered ==> plane.receipts == state.receipts
                && plane.next_receipt_offset == state.next_receipt_offset
            &&& !(outcome is Buffered) ==> {
                &&& plane.receipts.len() > 0
                &&& plane.receipts.last() == (IngressReceipt {
                    offset: state.next_receipt_offset,
                    key: id,
                    generation: if state.scopes.contains_key(id) {
                        plane.scopes[id].generation
                    } else {
                        envelope.generation
                    },
                    sequence: Some(envelope.sequence),
                    outcome: IngressReceiptOutcome::Dropped(reason),
                })
            }
        }),
{
}

/// A receipt is the newest of a log that keeps the newest ones in order: the oldest makes
/// way only where the log is full.
pub proof fn the_log_keeps_the_newest_receipts<Id, P>(
    state: IngressState<Id, P>,
    id: Id,
    generation: u64,
    sequence: Option<u64>,
    outcome: IngressReceiptOutcome,
)
    requires
        state.wf(),
        state.next_receipt_offset < u64::MAX,
    ensures
        ({
            let after = state.with_receipt(id, generation, sequence, outcome);
            let full = state.receipts.len() == state.policy.receipt_capacity;
            let gone: int = if full {
                1
            } else {
                0
            };
            &&& after.receipts.len() == state.receipts.len() + 1 - gone
            &&& after.receipts.last() == (IngressReceipt {
                offset: state.next_receipt_offset,
                key: id,
                generation,
                sequence,
                outcome,
            })
            &&& forall|i: int|
                0 <= i < after.receipts.len() - 1 ==> #[trigger] after.receipts[i]
                    == state.receipts[i + gone]
            &&& after.next_receipt_offset == state.next_receipt_offset + 1
            &&& after.scopes == state.scopes
            &&& after.keys == state.keys
            &&& after.policy == state.policy
            &&& after.observed_now == state.observed_now
        }),
{
}

/// An envelope changes the log, the known keys, the policy and the clock in no other way: a
/// key that appears is known behind the others, the policy and the clock stay.
pub proof fn an_envelope_moves_its_own_key<Id, T: View, M: MergePolicy<T>>(
    state: IngressState<Id, T::V>,
    envelope: IngressEnvelope<Id, T::V>,
)
    requires
        state.wf(),
    ensures
        ({
            let (plane, _, outcome) = admitted::<Id, T, M>(state, envelope);
            let id = envelope.key;
            &&& plane.policy == state.policy
            &&& plane.observed_now == state.observed_now
            &&& plane.keys == if state.scopes.contains_key(id) || !(outcome.delivered() || outcome
                is Buffered) {
                state.keys
            } else {
                state.keys.push(id)
            }
        }),
{
}

/// An envelope marks no more than what can have moved: every reader of its key where it was
/// delivered, nothing of it where it was refused or parked without moving the fence of a
/// known key, and no reader of another key.
pub proof fn an_envelope_marks_its_own_key<Id, T: View, M: MergePolicy<T>>(
    state: IngressState<Id, T::V>,
    envelope: IngressEnvelope<Id, T::V>,
)
    requires
        state.wf(),
    ensures
        ({
            let (plane, marks, outcome) = admitted::<Id, T, M>(state, envelope);
            let id = envelope.key;
            let known = state.scopes.contains_key(id);
            let everything = IngressScopeChange {
                value: true,
                readiness: true,
                authority: true,
                retry: true,
            };
            let first = IngressScopeChange {
                value: false,
                readiness: true,
                authority: true,
                retry: false,
            };
            &&& forall|i: int| 0 <= i < marks.scopes.len() ==> (#[trigger] marks.scopes[i]).0 == id
            &&& marks.scopes.len() <= 1
            &&& outcome.delivered() ==> marks.scopes == seq![(id, everything)]
            &&& !outcome.delivered() && known && plane.scopes[id].generation
                == state.scopes[id].generation ==> marks.scopes.len() == 0
            &&& !known && outcome is Buffered ==> marks.scopes == seq![(id, first)]
            &&& !known && !outcome.delivered() && !(outcome is Buffered) ==> marks.scopes.len() == 0
            &&& outcome is Buffered ==> !marks.accepted_receipts && !marks.dropped_receipts
                && !marks.error_receipts
            &&& outcome.delivered() ==> marks.accepted_receipts
            &&& !outcome.delivered() && !(outcome is Buffered) ==> marks.dropped_receipts
            &&& state.receipts.len() < state.policy.receipt_capacity ==> {
                &&& marks.accepted_receipts <==> outcome.delivered()
                &&& marks.dropped_receipts <==> !outcome.delivered() && !(outcome is Buffered)
                &&& !marks.error_receipts
            }
        }),
{
    let (plane, marks, outcome) = admitted::<Id, T, M>(state, envelope);
    let none = IngressMarks::<Id>::none();
    assert(none.scopes.push(
        (
            envelope.key,
            IngressScopeChange { value: true, readiness: true, authority: true, retry: true },
        ),
    ) =~= seq![
        (
            envelope.key,
            IngressScopeChange { value: true, readiness: true, authority: true, retry: true },
        ),
    ]);
    assert(none.scopes.push((envelope.key, IngressScopeChange::appearance())) =~= seq![
        (envelope.key, IngressScopeChange::appearance()),
    ]);
}

/// An envelope that is not delivered marks of a known key what its producer's handoff reset:
/// the value where it was let go, the readiness where the life of the key or whether anything
/// was delivered changed, the authority where the fence or the watermark moved, and the retry
/// where one is outstanding and the watermark moved.
pub proof fn what_a_handoff_resets_is_marked<Id, T: View, M: MergePolicy<T>>(
    state: IngressState<Id, T::V>,
    envelope: IngressEnvelope<Id, T::V>,
)
    requires
        state.wf(),
        state.scopes.contains_key(envelope.key),
        !admitted::<Id, T, M>(state, envelope).2.delivered(),
    ensures
        ({
            let (plane, marks, _) = admitted::<Id, T, M>(state, envelope);
            let id = envelope.key;
            let before = state.scopes[id];
            let after = plane.scopes[id];
            &&& marks.marks_value(id) <==> (before.window is Some) != (after.window is Some)
            &&& marks.marks_readiness(id) <==> before.lifecycle != after.lifecycle || (
            before.delivered_through is None) != (after.delivered_through is None)
            &&& marks.marks_authority(id) <==> before.generation != after.generation
                || before.delivered_through != after.delivered_through
            &&& marks.marks_retry(id) <==> after.consecutive_errors > 0 && before.delivered_through
                != after.delivered_through
        }),
{
    let (plane, marks, _) = admitted::<Id, T, M>(state, envelope);
    if marks.scopes.len() > 0 {
        assert(marks.scopes[0].0 == envelope.key);
    }
}

} // verus!
