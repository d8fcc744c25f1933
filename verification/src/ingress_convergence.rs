//! Arrival order does not matter: any order within the reorder window converges
//! to the in-order fold.

use vstd::prelude::*;

use crate::ingress_model::{IngressState, ScopeState, absorbed, admitted, decided, flushed};
use crate::ingress_types::{IngressEnvelope, IngressPolicy, within_horizon};
use crate::merge::MergePolicy;

verus! {

/// The in-order fold of the first `count` payloads.
pub open spec fn folded<T: View, M: MergePolicy<T>>(payloads: Seq<T::V>, count: int) -> T::V
    decreases count,
{
    if count <= 1 {
        payloads[0]
    } else {
        M::merged(folded::<T, M>(payloads, count - 1), payloads[count - 1])
    }
}

/// A freshly opened scope after the messages of one generation arrived in the
/// given order of sequence numbers.
pub open spec fn arrived<T: View, M: MergePolicy<T>>(
    policy: IngressPolicy,
    now: u64,
    generation: u64,
    payloads: Seq<T::V>,
    stamps: Seq<u64>,
    order: Seq<int>,
) -> ScopeState<T::V>
    decreases order.len(),
{
    if order.len() == 0 {
        ScopeState::opening(generation)
    } else {
        let sequence = order.last();
        decided::<T, M>(
            arrived::<T, M>(policy, now, generation, payloads, stamps, order.drop_last()),
            policy,
            now,
            generation,
            sequence as u64,
            stamps[sequence],
            payloads[sequence],
        ).0
    }
}

/// A scope that has delivered the first `count` payloads and parked exactly the
/// others that have come in.
spec fn holds<T: View, M: MergePolicy<T>>(
    scope: ScopeState<T::V>,
    generation: u64,
    payloads: Seq<T::V>,
    stamps: Seq<u64>,
    came: Seq<int>,
    count: int,
) -> bool {
    &&& 0 <= count <= payloads.len()
    &&& !(scope.lifecycle is Closed)
    &&& scope.generation == generation
    &&& scope.next_expected() == count
    &&& scope.window_depth == count
    &&& scope.window == if count == 0 {
        None
    } else {
        Some(folded::<T, M>(payloads, count))
    }
    &&& scope.pending.dom().finite()
    &&& scope.pending.len() + count == came.len()
    &&& forall|value: int| 0 <= value < count ==> came.contains(value)
    &&& forall|sequence: u64| #[trigger]
        scope.pending.contains_key(sequence) <==> count <= sequence && came.contains(
            sequence as int,
        )
    &&& forall|sequence: u64| #[trigger]
        scope.pending.contains_key(sequence) ==> scope.pending[sequence] == (
            payloads[sequence as int],
            stamps[sequence as int],
        )
}

/// A flush delivers up to the first sequence that has not come in.
proof fn flush_settles<T: View, M: MergePolicy<T>>(
    scope: ScopeState<T::V>,
    generation: u64,
    payloads: Seq<T::V>,
    stamps: Seq<u64>,
    came: Seq<int>,
    count: int,
) -> (settled: int)
    requires
        holds::<T, M>(scope, generation, payloads, stamps, came, count),
        1 <= count,
        payloads.len() < u64::MAX,
        forall|i: int| 0 <= i < came.len() ==> 0 <= #[trigger] came[i] < payloads.len(),
    ensures
        count <= settled,
        holds::<T, M>(flushed::<T, M>(scope), generation, payloads, stamps, came, settled),
        !came.contains(settled),
    decreases u64::MAX + 1 - count,
{
    if scope.pending.contains_key(count as u64) {
        let at = came.index_of(count);
        assert(came[at] == count);
        let (payload, stamp) = scope.pending[count as u64];
        let taken = ScopeState { pending: scope.pending.remove(count as u64), ..scope };
        let next = ScopeState {
            delivered_through: Some(count as u64),
            ..absorbed::<T, M>(taken, payload, stamp)
        };
        assert(next.next_expected() == count + 1);
        flush_settles::<T, M>(next, generation, payloads, stamps, came, count + 1)
    } else {
        assert(!came.contains(count)) by {
            if came.contains(count) {
                let at = came.index_of(count);
                assert(came[at] == count);
                assert(scope.pending.contains_key(count as u64));
            }
        }
        count
    }
}

/// What a prefix of a complete arrival order leaves behind.
proof fn arrivals_settle<T: View, M: MergePolicy<T>>(
    policy: IngressPolicy,
    now: u64,
    generation: u64,
    payloads: Seq<T::V>,
    stamps: Seq<u64>,
    order: Seq<int>,
    taken: int,
) -> (settled: int)
    requires
        0 <= taken <= order.len(),
        order.len() == payloads.len(),
        order.len() == stamps.len(),
        order.no_duplicates(),
        forall|i: int| 0 <= i < order.len() ==> 0 <= #[trigger] order[i] < order.len(),
        forall|value: int| 0 <= value < order.len() ==> order.contains(value),
        order.len() < u64::MAX,
        order.len() <= policy.reorder_window + 1,
        policy.overflow is Conflate || policy.overflow is Spill || order.len() <= policy.high_water,
        forall|i: int|
            0 <= i < stamps.len() ==> within_horizon(
                now,
                #[trigger] stamps[i],
                policy.freshness_horizon,
            ),
    ensures
        holds::<T, M>(
            arrived::<T, M>(policy, now, generation, payloads, stamps, order.take(taken)),
            generation,
            payloads,
            stamps,
            order.take(taken),
            settled,
        ),
        !order.take(taken).contains(settled),
    decreases taken,
{
    let came = order.take(taken);
    if taken == 0 {
        assert(came =~= Seq::empty());
        0
    } else {
        let earlier = order.take(taken - 1);
        assert(came.drop_last() =~= earlier);
        assert(came =~= earlier.push(order[taken - 1]));
        let count = arrivals_settle::<T, M>(
            policy,
            now,
            generation,
            payloads,
            stamps,
            order,
            taken - 1,
        );
        let scope = arrived::<T, M>(policy, now, generation, payloads, stamps, earlier);
        let sequence = order[taken - 1];
        assert(came.last() == sequence);
        assert(!earlier.contains(sequence)) by {
            if earlier.contains(sequence) {
                let at = earlier.index_of(sequence);
                assert(earlier[at] == sequence && order[at] == sequence);
            }
        }
        assert forall|value: int| came.contains(value) <==> (earlier.contains(value) || value
            == sequence) by {
            if came.contains(value) {
                let at = came.index_of(value);
                assert(came[at] == value);
                if at < taken - 1 {
                    assert(earlier[at] == value);
                }
            }
            if earlier.contains(value) {
                let at = earlier.index_of(value);
                assert(earlier[at] == value && came[at] == value);
            }
            if value == sequence {
                assert(came[taken - 1] == value);
            }
        }
        assert forall|i: int| 0 <= i < came.len() implies 0 <= #[trigger] came[i]
            < payloads.len() by {
            assert(came[i] == order[i]);
        }
        // A sequence that was already delivered has come in before.
        assert(sequence >= count);
        if sequence == count {
            let next = ScopeState {
                delivered_through: Some(sequence as u64),
                lifecycle: crate::ingress_types::IngressLifecycle::Live,
                consecutive_errors: 0,
                ..absorbed::<T, M>(scope, payloads[sequence], stamps[sequence])
            };
            assert(next.next_expected() == count + 1);
            assert(holds::<T, M>(next, generation, payloads, stamps, came, count + 1));
            let settled = flush_settles::<T, M>(
                next,
                generation,
                payloads,
                stamps,
                came,
                count + 1,
            );
            settled
        } else {
            // The gap itself is still to come, so the buffer has a slot left.
            assert(order.contains(count)) by {
                assert(0 <= count < order.len());
            }
            let gap = order.index_of(count);
            assert(order[gap] == count);
            if gap < taken - 1 {
                assert(earlier[gap] == count);
            }
            assert(gap > taken - 1);
            assert(scope.pending.len() < policy.reorder_window);
            assert(!scope.pending.contains_key(sequence as u64));
            let after = arrived::<T, M>(policy, now, generation, payloads, stamps, came);
            assert(after == ScopeState {
                pending: scope.pending.insert(
                    sequence as u64,
                    (payloads[sequence], stamps[sequence]),
                ),
                ..scope
            });
            assert(holds::<T, M>(after, generation, payloads, stamps, came, count));
            count
        }
    }
}

/// Any arrival order of the messages `0..n` of one generation, as long as the
/// reorder window can hold all but the one that closes the gap, leaves exactly
/// the in-order fold: everything delivered, nothing parked.
pub proof fn arrival_order_does_not_matter<T: View, M: MergePolicy<T>>(
    policy: IngressPolicy,
    now: u64,
    generation: u64,
    payloads: Seq<T::V>,
    stamps: Seq<u64>,
    order: Seq<int>,
)
    requires
        order.len() > 0,
        order.len() == payloads.len(),
        order.len() == stamps.len(),
        order.no_duplicates(),
        forall|i: int| 0 <= i < order.len() ==> 0 <= #[trigger] order[i] < order.len(),
        forall|value: int| 0 <= value < order.len() ==> order.contains(value),
        order.len() < u64::MAX,
        order.len() <= policy.reorder_window + 1,
        policy.overflow is Conflate || policy.overflow is Spill || order.len() <= policy.high_water,
        forall|i: int|
            0 <= i < stamps.len() ==> within_horizon(
                now,
                #[trigger] stamps[i],
                policy.freshness_horizon,
            ),
    ensures
        ({
            let scope = arrived::<T, M>(policy, now, generation, payloads, stamps, order);
            &&& scope.window == Some(folded::<T, M>(payloads, order.len() as int))
            &&& scope.delivered_through == Some((order.len() - 1) as u64)
            &&& scope.window_depth == order.len()
            &&& scope.pending.len() == 0
            &&& scope.generation == generation
        }),
{
    let all = order.take(order.len() as int);
    assert(all =~= order);
    let settled = arrivals_settle::<T, M>(
        policy,
        now,
        generation,
        payloads,
        stamps,
        order,
        order.len() as int,
    );
    if settled < order.len() {
        assert(order.contains(settled));
    }
    let scope = arrived::<T, M>(policy, now, generation, payloads, stamps, order);
    assert(scope.next_expected() == order.len());
}

/// A plane after some envelopes were admitted, one after the other.
pub open spec fn admitted_all<Id, T: View, M: MergePolicy<T>>(
    state: IngressState<Id, T::V>,
    batch: Seq<IngressEnvelope<Id, T::V>>,
) -> IngressState<Id, T::V>
    decreases batch.len(),
{
    if batch.len() == 0 {
        state
    } else {
        admitted::<Id, T, M>(
            admitted_all::<Id, T, M>(state, batch.drop_last()),
            batch.last(),
        ).0
    }
}

/// The envelopes of one key and generation, in an order of their sequence numbers.
pub open spec fn envelopes_in<Id, P>(
    id: Id,
    generation: u64,
    payloads: Seq<P>,
    stamps: Seq<u64>,
    order: Seq<int>,
) -> Seq<IngressEnvelope<Id, P>> {
    order.map_values(
        |sequence: int|
            IngressEnvelope {
                key: id,
                generation,
                sequence: sequence as u64,
                stamped_at: stamps[sequence],
                payload: payloads[sequence],
            },
    )
}

/// Admitting a prefix of the envelopes leaves the scope that the decisions on it leave.
proof fn admissions_leave_what_arrived<Id, T: View, M: MergePolicy<T>>(
    state: IngressState<Id, T::V>,
    id: Id,
    generation: u64,
    payloads: Seq<T::V>,
    stamps: Seq<u64>,
    order: Seq<int>,
    taken: int,
)
    requires
        0 <= taken <= order.len(),
        !state.scopes.contains_key(id),
        order.len() == payloads.len(),
        order.len() == stamps.len(),
        forall|i: int| 0 <= i < order.len() ==> 0 <= #[trigger] order[i] < order.len(),
        order.len() < u64::MAX,
        order.len() <= state.policy.reorder_window + 1,
        state.policy.overflow is Conflate || state.policy.overflow is Spill || order.len()
            <= state.policy.high_water,
        forall|i: int|
            0 <= i < stamps.len() ==> within_horizon(
                state.observed_now,
                #[trigger] stamps[i],
                state.policy.freshness_horizon,
            ),
    ensures
        ({
            let batch = envelopes_in(id, generation, payloads, stamps, order.take(taken));
            let after = admitted_all::<Id, T, M>(state, batch);
            &&& after.policy == state.policy
            &&& after.observed_now == state.observed_now
            &&& taken == 0 ==> after == state
            &&& taken > 0 ==> after.scopes.contains_key(id) && after.scopes[id] == arrived::<T, M>(
                state.policy,
                state.observed_now,
                generation,
                payloads,
                stamps,
                order.take(taken),
            )
        }),
    decreases taken,
{
    let came = order.take(taken);
    let batch = envelopes_in(id, generation, payloads, stamps, came);
    if taken > 0 {
        let earlier = order.take(taken - 1);
        admissions_leave_what_arrived::<Id, T, M>(
            state,
            id,
            generation,
            payloads,
            stamps,
            order,
            taken - 1,
        );
        assert(came.drop_last() =~= earlier);
        assert(batch.drop_last() =~= envelopes_in(id, generation, payloads, stamps, earlier));
        let sequence = order[taken - 1];
        assert(came.last() == sequence);
        assert(within_horizon(
            state.observed_now,
            stamps[sequence],
            state.policy.freshness_horizon,
        ));
        if taken == 1 {
            assert(earlier =~= Seq::empty());
            assert(Map::<u64, (T::V, u64)>::empty().len() == 0);
        }
    } else {
        assert(batch =~= Seq::empty());
    }
}

/// On a plane that does not know a key, any order in which the envelopes `0..n` of one
/// generation of the key are admitted, as long as the reorder window can hold all but the
/// one that closes the gap, leaves the in-order fold: the value reader shows it, everything
/// is delivered and nothing is parked.
pub proof fn admission_order_does_not_matter<Id, T: View, M: MergePolicy<T>>(
    state: IngressState<Id, T::V>,
    id: Id,
    generation: u64,
    payloads: Seq<T::V>,
    stamps: Seq<u64>,
    order: Seq<int>,
)
    requires
        !state.scopes.contains_key(id),
        order.len() > 0,
        order.len() == payloads.len(),
        order.len() == stamps.len(),
        order.no_duplicates(),
        forall|i: int| 0 <= i < order.len() ==> 0 <= #[trigger] order[i] < order.len(),
        forall|value: int| 0 <= value < order.len() ==> order.contains(value),
        order.len() < u64::MAX,
        order.len() <= state.policy.reorder_window + 1,
        state.policy.overflow is Conflate || state.policy.overflow is Spill || order.len()
            <= state.policy.high_water,
        forall|i: int|
            0 <= i < stamps.len() ==> within_horizon(
                state.observed_now,
                #[trigger] stamps[i],
                state.policy.freshness_horizon,
            ),
    ensures
        ({
            let batch = envelopes_in(id, generation, payloads, stamps, order);
            let after = admitted_all::<Id, T, M>(state, batch);
            &&& after.value_of(id) == Some(folded::<T, M>(payloads, order.len() as int))
            &&& after.view_of(id) matches Some(view) && {
                &&& view.generation == generation
                &&& view.delivered_through == Some((order.len() - 1) as u64)
                &&& view.buffered == 0
                &&& view.window_depth == order.len()
            }
        }),
{
    assert(order.take(order.len() as int) =~= order);
    admissions_leave_what_arrived::<Id, T, M>(
        state,
        id,
        generation,
        payloads,
        stamps,
        order,
        order.len() as int,
    );
    arrival_order_does_not_matter::<T, M>(
        state.policy,
        state.observed_now,
        generation,
        payloads,
        stamps,
        order,
    );
}

} // verus!
