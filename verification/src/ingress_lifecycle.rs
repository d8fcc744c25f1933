//! Laws of a key's life at the ingress: what opening, suspending, reconnecting, closing,
//! time, failures and drains do to it, and what its readers make of that.

use vstd::arithmetic::power2::{lemma_pow2_unfold, lemma2_to64, pow2};
use vstd::prelude::*;

use crate::backoff::clamped_backoff;
use crate::ingress_model::{IngressState, ScopeState};
use crate::ingress_types::{
    IngressAuthority, IngressError, IngressLifecycle, IngressMarks, IngressPolicy, IngressReceipt,
    IngressReceiptOutcome, IngressSchedule, IngressScopeChange, IngressTransportKind,
    ReplayRequest,
};
use crate::merge::{KeepLatest, MergePolicy, RawFifo, Sum};
use crate::value::Datum;

verus! {

/// The first sequence that a scope has not delivered in order.
pub open spec fn missing<P>(scope: ScopeState<P>) -> int {
    match scope.delivered_through {
        Some(sequence) => sequence + 1,
        None => 0,
    }
}

/// A scope of which nothing came in yet.
pub open spec fn untouched<P>(scope: ScopeState<P>, generation: u64) -> bool {
    &&& scope.lifecycle is Opening
    &&& scope.generation == generation
    &&& scope.delivered_through is None
    &&& scope.stamped_at == 0
    &&& scope.pending == Map::<u64, (P, u64)>::empty()
    &&& scope.window is None
    &&& scope.window_depth == 0
    &&& scope.consecutive_errors == 0
}

/// What an operation on one key leaves of the plane: everything but that key, and a key that
/// was unknown is known behind the others.
pub open spec fn only_key_moved<Id, P>(
    before: IngressState<Id, P>,
    after: IngressState<Id, P>,
    id: Id,
) -> bool {
    &&& after.scopes.contains_key(id)
    &&& after.scopes == before.scopes.insert(id, after.scopes[id])
    &&& after.keys == if before.scopes.contains_key(id) {
        before.keys
    } else {
        before.keys.push(id)
    }
    &&& after.policy == before.policy
    &&& after.observed_now == before.observed_now
}

/// Marks of one kind of change of one key alone.
pub open spec fn marks_only<Id>(
    marks: IngressMarks<Id>,
    id: Id,
    change: IngressScopeChange,
) -> bool {
    &&& marks.scopes == if change.value || change.readiness || change.authority || change.retry {
        seq![(id, change)]
    } else {
        Seq::empty()
    }
    &&& !marks.accepted_receipts
    &&& !marks.dropped_receipts
    &&& !marks.error_receipts
}

/// A new plane knows no key, holds no receipt and starts its clock and its offsets at zero.
pub proof fn a_new_plane_knows_nothing<Id, P>(policy: IngressPolicy)
    ensures
        ({
            let plane = IngressState::<Id, P>::initial(policy);
            &&& plane.keys.len() == 0
            &&& forall|id: Id| !(#[trigger] plane.scopes.contains_key(id))
            &&& plane.receipts.len() == 0
            &&& plane.next_receipt_offset == 0
            &&& plane.observed_now == 0
            &&& plane.policy == policy
        }),
{
}

/// Readers see of a key what is known of it: its value as it is held; whether it is ready,
/// by its life, by whether anything was delivered and by the age of the newest stamp; its
/// authority unless it is closed; and a retry exactly while errors are outstanding.
pub proof fn readers_see_what_is_known<Id, P>(state: IngressState<Id, P>, id: Id)
    requires
        state.wf(),
    ensures
        !state.scopes.contains_key(id) ==> {
            &&& state.value_of(id) is None
            &&& state.readiness_of(id) is Unknown
            &&& state.authority_of(id) is None
            &&& state.retry_of(id) is None
        },
        state.scopes.contains_key(id) ==> {
            let scope = state.scopes[id];
            let delivering = scope.lifecycle is Live && scope.delivered_through is Some;
            let fresh = state.observed_now - scope.stamped_at <= state.policy.freshness_horizon;
            let readiness = state.readiness_of(id);
            let retry = state.retry_of(id);
            &&& state.value_of(id) == scope.window
            &&& readiness is Closed <==> scope.lifecycle is Closed
            &&& readiness is Suspended <==> scope.lifecycle is Suspended
            &&& readiness is Ready <==> delivering && fresh
            &&& readiness is Stale <==> delivering && !fresh
            &&& readiness is Warming <==> !(scope.lifecycle is Closed) && !(scope.lifecycle
                is Suspended) && !delivering
            &&& state.authority_of(id) is None <==> scope.lifecycle is Closed
            &&& !(scope.lifecycle is Closed) ==> state.authority_of(id) == Some(
                IngressAuthority {
                    generation: scope.generation,
                    delivered_through: scope.delivered_through,
                    stamped_at: scope.stamped_at,
                },
            )
            &&& retry is Some <==> scope.consecutive_errors > 0
            &&& retry is Some ==> retry->0.attempt == scope.consecutive_errors
                && retry->0.resume_from == missing(scope)
        },
{
}

/// Opening a key makes it known, and a closed one start over. One that is open keeps what it
/// holds and is connected again; a newer producer takes the fence and starts without a
/// watermark and without waiting envelopes.
pub proof fn opening_connects_a_key<Id, P>(state: IngressState<Id, P>, id: Id, generation: u64)
    requires
        state.wf(),
    ensures
        ({
            let after = state.opened(id, generation).0;
            let scope = after.scopes[id];
            let before = state.scopes[id];
            let fresh = !state.scopes.contains_key(id) || before.lifecycle is Closed;
            &&& only_key_moved(state, after, id)
            &&& after.receipts == state.receipts
            &&& after.next_receipt_offset == state.next_receipt_offset
            &&& fresh ==> untouched(scope, generation)
            &&& !fresh ==> {
                &&& scope.lifecycle is Live <==> before.delivered_through is Some
                &&& scope.lifecycle is Opening <==> before.delivered_through is None
                &&& scope.stamped_at == before.stamped_at
                &&& scope.window == before.window
                &&& scope.window_depth == before.window_depth
                &&& scope.consecutive_errors == before.consecutive_errors
            }
            &&& !fresh && before.generation < generation ==> {
                &&& scope.generation == generation
                &&& scope.delivered_through is None
                &&& scope.pending == Map::<u64, (P, u64)>::empty()
            }
            &&& !fresh && generation <= before.generation ==> {
                &&& scope.generation == before.generation
                &&& scope.delivered_through == before.delivered_through
                &&& scope.pending == before.pending
            }
        }),
{
}

/// Suspending a key that is neither suspended nor closed changes its life alone, and asks
/// for a replay from what is missing. Otherwise nothing happens.
pub proof fn suspending_changes_a_keys_life_alone<Id, P>(state: IngressState<Id, P>, id: Id)
    requires
        state.wf(),
    ensures
        ({
            let (after, marks, request) = state.suspended(id);
            let applies = state.scopes.contains_key(id) && !(state.scopes[id].lifecycle
                is Suspended) && !(state.scopes[id].lifecycle is Closed);
            &&& !applies ==> after == state && request is None && marks
                == IngressMarks::<Id>::none()
            &&& applies ==> {
                &&& only_key_moved(state, after, id)
                &&& after.receipts == state.receipts
                &&& after.next_receipt_offset == state.next_receipt_offset
                &&& after.scopes[id] == (ScopeState {
                    lifecycle: IngressLifecycle::Suspended,
                    ..state.scopes[id]
                })
                &&& request == Some(
                    ReplayRequest {
                        generation: state.scopes[id].generation,
                        from_sequence: missing(state.scopes[id]) as u64,
                    },
                )
                &&& marks_only(
                    marks,
                    id,
                    IngressScopeChange {
                        value: false,
                        readiness: true,
                        authority: false,
                        retry: false,
                    },
                )
            }
        }),
{
    assert(IngressMarks::<Id>::none().scopes.push(
        (id, IngressScopeChange { readiness: true, ..IngressScopeChange::nothing() }),
    ) =~= seq![(id, IngressScopeChange { readiness: true, ..IngressScopeChange::nothing() })]);
}

/// Reconnecting ends a key's error streak and connects it, known or not; a newer producer
/// takes the fence and starts without a watermark, a value or waiting envelopes. It asks for
/// a replay from what is missing then.
pub proof fn reconnecting_ends_the_error_streak<Id, P>(
    state: IngressState<Id, P>,
    id: Id,
    generation: u64,
)
    requires
        state.wf(),
    ensures
        ({
            let (after, _, request) = state.reconnected(id, generation);
            let scope = after.scopes[id];
            let before = state.scopes[id];
            let known = state.scopes.contains_key(id);
            &&& only_key_moved(state, after, id)
            &&& after.receipts == state.receipts
            &&& after.next_receipt_offset == state.next_receipt_offset
            &&& request == (ReplayRequest {
                generation: scope.generation,
                from_sequence: missing(scope) as u64,
            })
            &&& !known ==> untouched(scope, generation)
            &&& scope.consecutive_errors == 0
            &&& scope.lifecycle is Live <==> scope.delivered_through is Some
            &&& scope.lifecycle is Opening <==> scope.delivered_through is None
            &&& known ==> scope.stamped_at == before.stamped_at
            &&& known && before.generation < generation ==> {
                &&& scope.generation == generation
                &&& scope.delivered_through is None
                &&& scope.pending == Map::<u64, (P, u64)>::empty()
                &&& scope.window is None
                &&& scope.window_depth == 0
            }
            &&& known && generation <= before.generation ==> {
                &&& scope.generation == before.generation
                &&& scope.delivered_through == before.delivered_through
                &&& scope.pending == before.pending
                &&& scope.window == before.window
                &&& scope.window_depth == before.window_depth
            }
        }),
{
}

/// Closing lets go of everything that a key holds and keeps its fence, its watermark and its
/// stamp. A key that is unknown or closed already stays as it is.
pub proof fn closing_lets_go_of_what_is_held<Id, P>(state: IngressState<Id, P>, id: Id)
    requires
        state.wf(),
    ensures
        ({
            let (after, marks) = state.closed(id);
            let applies = state.scopes.contains_key(id) && !(state.scopes[id].lifecycle is Closed);
            let before = state.scopes[id];
            let scope = after.scopes[id];
            &&& !applies ==> after == state && marks == IngressMarks::<Id>::none()
            &&& applies ==> {
                &&& only_key_moved(state, after, id)
                &&& after.receipts == state.receipts
                &&& after.next_receipt_offset == state.next_receipt_offset
                &&& scope.lifecycle is Closed
                &&& scope.pending == Map::<u64, (P, u64)>::empty()
                &&& scope.window is None
                &&& scope.window_depth == 0
                &&& scope.consecutive_errors == 0
                &&& scope.generation == before.generation
                &&& scope.delivered_through == before.delivered_through
                &&& scope.stamped_at == before.stamped_at
                &&& marks_only(
                    marks,
                    id,
                    IngressScopeChange {
                        value: before.window is Some,
                        readiness: true,
                        authority: true,
                        retry: before.consecutive_errors > 0,
                    },
                )
            }
        }),
{
    let change = IngressScopeChange {
        value: state.scopes[id].window is Some,
        readiness: true,
        authority: true,
        retry: state.scopes[id].consecutive_errors > 0,
    };
    assert(IngressMarks::<Id>::none().scopes.push((id, change)) =~= seq![(id, change)]);
}

/// Time moves the clock and nothing else, and marks readiness alone.
pub proof fn time_moves_the_clock_alone<Id, P>(state: IngressState<Id, P>, now: u64)
    ensures
        ({
            let (after, marks) = state.ticked(now);
            &&& after == (IngressState { observed_now: now, ..state })
            &&& forall|i: int|
                0 <= i < marks.scopes.len() ==> (#[trigger] marks.scopes[i]).1
                    == (IngressScopeChange {
                    value: false,
                    readiness: true,
                    authority: false,
                    retry: false,
                })
            &&& !marks.accepted_receipts
            &&& !marks.dropped_receipts
            &&& !marks.error_receipts
        }),
{
}

/// A failure makes a key's error streak one longer, leaves a receipt of it without a
/// sequence and touches nothing else; a key that was unknown is opened for it.
pub proof fn a_failure_lengthens_the_error_streak<Id, P>(
    state: IngressState<Id, P>,
    id: Id,
    error: IngressError,
)
    requires
        state.wf(),
    ensures
        ({
            let after = state.failed(id, error).0;
            let before = state.scopes[id];
            let scope = after.scopes[id];
            let known = state.scopes.contains_key(id);
            &&& only_key_moved(state, after, id)
            &&& known && before.consecutive_errors < u32::MAX ==> scope == (ScopeState {
                consecutive_errors: (before.consecutive_errors + 1) as u32,
                ..before
            })
            &&& known && before.consecutive_errors == u32::MAX ==> scope == before
            &&& !known ==> untouched(ScopeState { consecutive_errors: 0, ..scope }, 0)
                && scope.consecutive_errors == 1
            &&& after.receipts.len() > 0
            &&& after.receipts.last() == (IngressReceipt {
                offset: state.next_receipt_offset,
                key: id,
                generation: scope.generation,
                sequence: None,
                outcome: IngressReceiptOutcome::Error(error),
            })
        }),
{
}

/// A drain hands out what a key holds, all of it, and leaves nothing held; it moves nothing
/// else, and nothing at all where nothing is held.
pub proof fn a_drain_hands_out_what_is_held<Id, P>(state: IngressState<Id, P>, id: Id)
    requires
        state.wf(),
    ensures
        ({
            let (after, marks, value) = state.drained(id);
            let holds = state.scopes.contains_key(id) && state.scopes[id].window is Some;
            &&& value is Some <==> holds
            &&& holds ==> {
                &&& value == state.scopes[id].window
                &&& only_key_moved(state, after, id)
                &&& after.receipts == state.receipts
                &&& after.next_receipt_offset == state.next_receipt_offset
                &&& after.scopes[id] == (ScopeState {
                    window: None,
                    window_depth: 0,
                    ..state.scopes[id]
                })
                &&& after.drained(id).2 is None
                &&& marks_only(
                    marks,
                    id,
                    IngressScopeChange {
                        value: true,
                        readiness: false,
                        authority: false,
                        retry: false,
                    },
                )
            }
            &&& !holds ==> after == state && marks == IngressMarks::<Id>::none()
        }),
{
    assert(IngressMarks::<Id>::none().scopes.push(
        (id, IngressScopeChange { value: true, ..IngressScopeChange::nothing() }),
    ) =~= seq![(id, IngressScopeChange { value: true, ..IngressScopeChange::nothing() })]);
}

/// Opening, reconnecting and failing mark no reader of another key and no more of their own
/// than can have moved: opening a known key marks its readiness and its retry exactly where
/// they moved and never its value, reconnecting one its value exactly where it was let go,
/// and a failure of one its retry alone and the channel of its receipt.
pub proof fn marks_stay_within_a_key<Id, P>(
    state: IngressState<Id, P>,
    id: Id,
    generation: u64,
    error: IngressError,
)
    requires
        state.wf(),
    ensures
        ({
            let (after, marks) = state.opened(id, generation);
            &&& forall|i: int| 0 <= i < marks.scopes.len() ==> (#[trigger] marks.scopes[i]).0 == id
            &&& !marks.accepted_receipts && !marks.dropped_receipts && !marks.error_receipts
            &&& forall|i: int| 0 <= i < marks.scopes.len() ==> !(#[trigger] marks.scopes[i]).1.value
            &&& state.scopes.contains_key(id) ==> forall|i: int|
                0 <= i < marks.scopes.len() ==> {
                    &&& (#[trigger] marks.scopes[i]).1.readiness <==> after.readiness_of(id)
                        != state.readiness_of(id)
                    &&& marks.scopes[i].1.retry <==> after.retry_of(id) != state.retry_of(id)
                }
            &&& after.scopes.contains_key(id) && state.scopes.contains_key(id)
                && after.scopes[id].lifecycle == state.scopes[id].lifecycle
                && after.scopes[id].generation == state.scopes[id].generation
                && after.scopes[id].delivered_through == state.scopes[id].delivered_through
                ==> marks.scopes.len() == 0
        }),
        ({
            let (after, marks, _) = state.reconnected(id, generation);
            &&& forall|i: int| 0 <= i < marks.scopes.len() ==> (#[trigger] marks.scopes[i]).0 == id
            &&& !marks.accepted_receipts && !marks.dropped_receipts && !marks.error_receipts
            &&& state.scopes.contains_key(id) ==> forall|i: int|
                0 <= i < marks.scopes.len() ==> {
                    &&& (#[trigger] marks.scopes[i]).1.value <==> state.value_of(id) is Some
                        && after.value_of(id) is None
                    &&& marks.scopes[i].1.readiness <==> after.scopes[id].lifecycle
                        != state.scopes[id].lifecycle
                    &&& marks.scopes[i].1.retry <==> state.retry_of(id) is Some
                }
        }),
        ({
            let marks = state.failed(id, error).1;
            &&& forall|i: int| 0 <= i < marks.scopes.len() ==> (#[trigger] marks.scopes[i]).0 == id
            &&& forall|i: int| 0 <= i < marks.scopes.len() ==> (#[trigger] marks.scopes[i]).1.retry
            &&& state.scopes.contains_key(id) ==> forall|i: int|
                0 <= i < marks.scopes.len() ==> !(#[trigger] marks.scopes[i]).1.value
                    && !marks.scopes[i].1.readiness && !marks.scopes[i].1.authority
            &&& marks.error_receipts
            &&& state.receipts.len() < state.policy.receipt_capacity ==> !marks.accepted_receipts
                && !marks.dropped_receipts
        }),
{
}

/// The first error is retried after the base, and every further one after twice as long, both
/// up to the ceiling; from some length of the streak on it stays as it is.
pub proof fn every_error_doubles_the_backoff<Id, P>(
    state: IngressState<Id, P>,
    id: Id,
    error: IngressError,
)
    requires
        state.wf(),
        state.scopes.contains_key(id),
        state.scopes[id].consecutive_errors < u32::MAX,
    ensures
        ({
            let before = state.retry_of(id);
            let after = state.failed(id, error).0.retry_of(id);
            let ceiling = state.policy.retry_ceiling;
            let base = state.policy.retry_base;
            &&& after is Some
            &&& after->0.attempt == state.scopes[id].consecutive_errors + 1
            &&& before is None ==> after->0.backoff == if base <= ceiling {
                base
            } else {
                ceiling
            }
            &&& before is Some && before->0.attempt < 32 ==> after->0.backoff == if 2
                * before->0.backoff <= ceiling {
                2 * before->0.backoff
            } else {
                ceiling as int
            }
            &&& before is Some && before->0.attempt >= 32 ==> after->0.backoff
                == before->0.backoff
        }),
{
    let errors = state.scopes[id].consecutive_errors;
    let base = state.policy.retry_base;
    let ceiling = state.policy.retry_ceiling;
    lemma2_to64();
    if errors == 0 {
        assert(pow2(0) == 1);
        assert(base * pow2(0) == base) by (nonlinear_arith)
            requires
                pow2(0) == 1,
        ;
    } else if errors < 32 {
        doubling_the_backoff(base, (errors - 1) as nat, ceiling);
    }
}

/// One more step doubles a backoff, up to the ceiling.
pub proof fn doubling_the_backoff(base: u64, steps: nat, ceiling: u64)
    ensures
        clamped_backoff(base, steps + 1, ceiling) == if 2 * clamped_backoff(base, steps, ceiling)
            <= ceiling {
            2 * clamped_backoff(base, steps, ceiling)
        } else {
            ceiling as int
        },
        clamped_backoff(base, 0, ceiling) == if base <= ceiling {
            base as int
        } else {
            ceiling as int
        },
{
    lemma_pow2_unfold(steps + 1);
    lemma2_to64();
    let power = pow2(steps) as int;
    assert(base * (2 * power) == 2 * (base * power)) by (nonlinear_arith);
    assert(base * pow2(0) == base) by (nonlinear_arith)
        requires
            pow2(0) == 1,
    ;
}

/// Only bounded polling has an interval to poll at, and that is never zero.
pub proof fn only_polling_has_an_interval(kind: IngressTransportKind, poll_interval: u64)
    ensures
        ({
            let schedule = IngressSchedule::of_kind(kind, poll_interval);
            &&& schedule.kind == kind
            &&& schedule.poll_interval is Some <==> kind is BoundedPolling
            &&& kind is BoundedPolling && poll_interval > 0 ==> schedule.poll_interval == Some(
                poll_interval,
            )
            &&& kind is BoundedPolling && poll_interval == 0 ==> schedule.poll_interval == Some(
                1u64,
            )
        }),
{
}

/// What the merge algebras make of two payloads: the newer one; their sum; both, in order of
/// arrival. The first two hold no more however much comes in.
pub proof fn merges_do_what_they_say<T: Datum, E: Copy>(
    older: T::V,
    newer: T::V,
    a: u64,
    b: u64,
    one: Seq<E>,
    other: Seq<E>,
)
    ensures
        <KeepLatest as MergePolicy<T>>::merged(older, newer) == newer,
        <KeepLatest as MergePolicy<T>>::conflates(),
        <Sum as MergePolicy<u64>>::merged(a, b) == a.wrapping_add(b),
        a + b <= u64::MAX ==> <Sum as MergePolicy<u64>>::merged(a, b) == a + b,
        <Sum as MergePolicy<u64>>::conflates(),
        <RawFifo as MergePolicy<Vec<E>>>::merged(one, other).len() == one.len() + other.len(),
        forall|i: int|
            0 <= i < one.len() ==> #[trigger] <RawFifo as MergePolicy<Vec<E>>>::merged(
                one,
                other,
            )[i] == one[i],
        forall|i: int|
            0 <= i < other.len() ==> <RawFifo as MergePolicy<Vec<E>>>::merged(one, other)[one.len()
                + i] == #[trigger] other[i],
        !<RawFifo as MergePolicy<Vec<E>>>::conflates(),
{
}

} // verus!
