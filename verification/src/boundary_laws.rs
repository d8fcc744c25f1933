//! Laws of the boundary ingress: what relates its transitions to each other.

use vstd::prelude::*;

use crate::boundary_model::{
    BoundaryState, contiguous_phase, install_actions, installed, payload_actions, projected,
    replaced,
};
use crate::boundary_types::{BoundaryIngressAction, BoundaryIngressEvent, SnapshotFacts};
use crate::value::OrderedKey;

verus! {

/// No captured frontier shrinks, no acknowledgement is lost, and a frontier that
/// was captured with members stays as it was captured.
pub open spec fn receipts_kept<Id, P>(
    before: BoundaryState<Id, P>,
    after: BoundaryState<Id, P>,
) -> bool {
    forall|id: Seq<char>| #[trigger]
        before.deliveries.contains_key(id) ==> {
            &&& after.deliveries.contains_key(id)
            &&& before.deliveries[id].targets.subset_of(after.deliveries[id].targets)
            &&& before.deliveries[id].acknowledged.subset_of(after.deliveries[id].acknowledged)
            &&& before.deliveries[id].targets != Set::<Seq<char>>::empty()
                ==> after.deliveries[id].targets == before.deliveries[id].targets
        }
}

/// Draining touches neither receipts nor membership nor the fence, and moves the
/// cursor only up.
proof fn draining_frame<Id, P>(state: BoundaryState<Id, P>)
    requires
        state.cursor is Some,
    ensures
        state.drained().0.deliveries == state.deliveries,
        state.drained().0.active_delivery == state.active_delivery,
        state.drained().0.members == state.members,
        state.drained().0.generation == state.generation,
        state.drained().0.stale_events == state.stale_events,
        state.drained().0.revision == state.revision,
        state.drained().0.config == state.config,
        state.drained().0.cursor is Some,
        state.drained().0.cursor->0 >= state.cursor->0,
    decreases u64::MAX - state.cursor->0,
{
    let cursor = state.cursor->0;
    if cursor < u64::MAX && state.buffered.contains_key((cursor + 1) as u64)
        && state.buffered[(cursor + 1) as u64].cursor == cursor + 1 {
        let event = state.buffered[(cursor + 1) as u64];
        let taken = BoundaryState {
            buffered: state.buffered.remove((cursor + 1) as u64),
            ..state
        };
        draining_frame(taken.applied(event));
    }
}

/// Membership churn, new deliveries, acknowledgements, frames and snapshots: none
/// of them shrinks a captured frontier or forgets an acknowledgement.
pub proof fn receipts_are_durable<K: OrderedKey, P>(
    state: BoundaryState<K::V, P>,
    member: Seq<char>,
    receipt_id: Seq<char>,
    generation: u64,
    event: BoundaryIngressEvent<K::V, P>,
    snapshot: SnapshotFacts<K::V, P>,
    now: u64,
)
    requires
        state.wf(),
    ensures
        receipts_kept(state, state.joined(member).0),
        receipts_kept(state, state.left(member).0),
        receipts_kept(state, state.delivering(receipt_id).0),
        receipts_kept(state, state.acknowledged(receipt_id, member).0),
        receipts_kept(state, state.subscribed(generation).0),
        receipts_kept(state, state.ticked(now).0),
        receipts_kept(state, state.received(event).0),
        receipts_kept(state, installed::<K, P>(state, snapshot).0),
{
    draining_frame(replaced(state, snapshot).beyond(snapshot.cursor));
    draining_frame(state.applied(event));
    let after = state.joined(member).0;
    assert forall|id: Seq<char>| #[trigger] state.deliveries.contains_key(id) implies {
        &&& after.deliveries.contains_key(id)
        &&& state.deliveries[id].targets.subset_of(after.deliveries[id].targets)
        &&& state.deliveries[id].acknowledged.subset_of(after.deliveries[id].acknowledged)
        &&& state.deliveries[id].targets != Set::<Seq<char>>::empty()
            ==> after.deliveries[id].targets == state.deliveries[id].targets
    } by {}
}

/// A delivery that converged stays converged, whatever happens to membership.
pub proof fn convergence_is_stable<Id, P>(
    before: BoundaryState<Id, P>,
    after: BoundaryState<Id, P>,
    id: Seq<char>,
)
    requires
        receipts_kept(before, after),
        before.deliveries.contains_key(id),
        before.deliveries[id].done(),
    ensures
        after.deliveries.contains_key(id),
        after.deliveries[id].done(),
{
}

/// A delivery without captured members is pending, never vacuously converged.
pub proof fn empty_membership_never_converges<Id, P>(state: BoundaryState<Id, P>, id: Seq<char>)
    requires
        state.deliveries.contains_key(id),
        state.deliveries[id].targets == Set::<Seq<char>>::empty(),
    ensures
        !state.deliveries[id].done(),
{
}

/// Acknowledging twice is acknowledging once.
pub proof fn acknowledging_is_idempotent<Id, P>(
    state: BoundaryState<Id, P>,
    receipt_id: Seq<char>,
    member: Seq<char>,
)
    requires
        state.wf(),
    ensures
        ({
            let once = state.acknowledged(receipt_id, member).0;
            once.acknowledged(receipt_id, member) == (once, false)
        }),
{
}

/// A frame or a snapshot below the fence is counted and does nothing else.
pub proof fn stale_producers_are_inert<K: OrderedKey, P>(
    state: BoundaryState<K::V, P>,
    event: BoundaryIngressEvent<K::V, P>,
    snapshot: SnapshotFacts<K::V, P>,
)
    requires
        state.wf(),
        event.generation < state.generation,
        snapshot.generation < state.generation,
    ensures
        state.received(event).0 == state.outdated(),
        state.received(event).1.actions.len() == 0,
        installed::<K, P>(state, snapshot).0 == state.outdated(),
        installed::<K, P>(state, snapshot).1.actions.len() == 0,
        state.outdated().phase == state.phase,
        state.outdated().cursor == state.cursor,
        state.outdated().buffered == state.buffered,
        state.outdated().source_keys == state.source_keys,
        state.outdated().members == state.members,
{
}

/// The fence never moves down, and within a generation the cursor never does, but
/// for a new subscription or an older snapshot.
pub proof fn fence_and_cursor_are_monotone<K: OrderedKey, P>(
    state: BoundaryState<K::V, P>,
    event: BoundaryIngressEvent<K::V, P>,
    snapshot: SnapshotFacts<K::V, P>,
    generation: u64,
)
    requires
        state.wf(),
    ensures
        state.received(event).0.generation >= state.generation,
        state.received(event).0.generation == state.generation && state.cursor is Some
            ==> state.received(event).0.cursor is Some && state.received(event).0.cursor->0
            >= state.cursor->0,
        state.subscribed(generation).0.generation >= state.generation,
        installed::<K, P>(state, snapshot).0.generation >= state.generation,
        snapshot.generation >= state.generation ==> installed::<K, P>(state, snapshot).0.cursor
            is Some && installed::<K, P>(state, snapshot).0.cursor->0 >= snapshot.cursor,
{
    draining_frame(replaced(state, snapshot).beyond(snapshot.cursor));
    if state.cursor is Some && event.cursor == state.cursor->0 + 1 {
        draining_frame(state.applied(event));
    }
}

/// Draining leaves no frame right behind the cursor.
proof fn draining_closes_the_gap<Id, P>(state: BoundaryState<Id, P>)
    requires
        state.cursor is Some,
        forall|at: u64| #[trigger]
            state.buffered.contains_key(at) ==> at < u64::MAX && state.buffered[at].cursor == at,
        state.cursor->0 < u64::MAX,
    ensures
        state.drained().0.cursor->0 < u64::MAX,
        !state.drained().0.buffered.contains_key((state.drained().0.cursor->0 + 1) as u64),
    decreases u64::MAX - state.cursor->0,
{
    let cursor = state.cursor->0;
    if state.buffered.contains_key((cursor + 1) as u64) {
        let event = state.buffered[(cursor + 1) as u64];
        let taken = BoundaryState {
            buffered: state.buffered.remove((cursor + 1) as u64),
            ..state
        };
        draining_closes_the_gap(taken.applied(event));
    }
}

/// After a snapshot the projection is never torn: every frame that follows it
/// without a gap is in, the next one is missing, and the phase says exactly whether
/// later frames are waiting.
pub proof fn snapshots_are_never_torn<K: OrderedKey, P>(
    state: BoundaryState<K::V, P>,
    snapshot: SnapshotFacts<K::V, P>,
)
    requires
        state.wf(),
        snapshot.generation >= state.generation,
        snapshot.cursor < u64::MAX,
    ensures
        ({
            let after = installed::<K, P>(state, snapshot).0;
            &&& after.cursor is Some
            &&& !after.buffered.contains_key((after.cursor->0 + 1) as u64)
            &&& if after.buffered.len() == 0 {
                after.phase == contiguous_phase(after.validation) && after.replay_from is None
            } else {
                after.phase is ReplayRequired && after.replay_from == Some(
                    (after.cursor->0 + 1) as u64,
                )
            }
            &&& after.revision == state.revision.wrapping_add(1)
        }),
{
    let base = replaced(state, snapshot).beyond(snapshot.cursor);
    draining_frame(base);
    draining_closes_the_gap(base);
}

/// A frame that came in before its covering snapshot ends up as if it had come in
/// right after it.
pub proof fn hot_frames_wait_for_their_snapshot<K: OrderedKey, P>(
    state: BoundaryState<K::V, P>,
    snapshot: SnapshotFacts<K::V, P>,
    event: BoundaryIngressEvent<K::V, P>,
)
    requires
        state.wf(),
        state.cursor is None,
        state.buffered == Map::<u64, BoundaryIngressEvent<K::V, P>>::empty(),
        state.replay_from is None,
        state.config.max_buffered > 0,
        snapshot.generation == state.generation,
        event.generation == state.generation,
        snapshot.cursor + 1 == event.cursor,
        event.cursor < u64::MAX,
    ensures
        ({
            let early = installed::<K, P>(state.received(event).0, snapshot);
            let covered = installed::<K, P>(state, snapshot);
            let late = covered.0.received(event);
            &&& early.0 == late.0
            &&& early.1.actions == covered.1.actions + late.1.actions
        }),
{
    let parked = state.received(event).0;
    assert(parked.buffered =~= state.buffered.insert(event.cursor, event));
    let hot = replaced(parked, snapshot).beyond(snapshot.cursor);
    assert(hot.buffered =~= state.buffered.insert(event.cursor, event));
    let cold = replaced(state, snapshot).beyond(snapshot.cursor);
    assert(cold.buffered =~= Map::empty());
    assert(cold.drained() == (cold, Seq::<BoundaryIngressAction<K::V, P>>::empty()));
    let taken = BoundaryState { buffered: hot.buffered.remove(event.cursor), ..hot };
    assert(taken.buffered =~= Map::empty());
    let applied = taken.applied(event);
    assert(applied.drained() == (applied, Seq::<BoundaryIngressAction<K::V, P>>::empty()));
    assert(hot.drained() == (applied, payload_actions(event.payload) + Seq::empty()));
    let covered = installed::<K, P>(state, snapshot);
    let installs = install_actions::<K, P>(state.source_keys, snapshot.entries);
    assert(covered.0.buffered == Map::<u64, BoundaryIngressEvent<K::V, P>>::empty());
    let follow = covered.0.applied(event);
    assert(follow.drained() == (follow, Seq::<BoundaryIngressAction<K::V, P>>::empty()));
    let early = installed::<K, P>(parked, snapshot);
    let late = covered.0.received(event);
    assert(early.0 =~= late.0);
    assert(early.1.actions =~= covered.1.actions + late.1.actions);
}

/// A transition that reports no change leaves the published projection as it was;
/// one that reports a change advances the revision by one.
pub proof fn unchanged_means_unchanged<K: OrderedKey, P>(
    state: BoundaryState<K::V, P>,
    member: Seq<char>,
    receipt_id: Seq<char>,
    generation: u64,
    event: BoundaryIngressEvent<K::V, P>,
    now: u64,
)
    requires
        state.wf(),
    ensures
        ({
            let (after, changed) = state.joined(member);
            if changed {
                after.revision == state.revision.wrapping_add(1)
            } else {
                projected::<K, P>(after) == projected::<K, P>(state)
            }
        }),
        ({
            let (after, changed) = state.left(member);
            if changed {
                after.revision == state.revision.wrapping_add(1)
            } else {
                projected::<K, P>(after) == projected::<K, P>(state)
            }
        }),
        ({
            let (after, changed) = state.delivering(receipt_id);
            if changed {
                after.revision == state.revision.wrapping_add(1)
            } else {
                projected::<K, P>(after) == projected::<K, P>(state)
            }
        }),
        ({
            let (after, changed) = state.acknowledged(receipt_id, member);
            if changed {
                after.revision == state.revision.wrapping_add(1)
            } else {
                projected::<K, P>(after) == projected::<K, P>(state)
            }
        }),
        ({
            let (after, changed) = state.subscribed(generation);
            if changed {
                after.revision == state.revision.wrapping_add(1)
            } else {
                projected::<K, P>(after) == projected::<K, P>(state)
            }
        }),
        ({
            let (after, changed) = state.ticked(now);
            if changed {
                after.revision == state.revision.wrapping_add(1)
            } else {
                projected::<K, P>(after) == projected::<K, P>(state)
            }
        }),
        ({
            let (after, transition) = state.received(event);
            if transition.changed {
                after.revision == state.revision.wrapping_add(1)
            } else {
                projected::<K, P>(after) == projected::<K, P>(state)
            }
        }),
{
    if state.cursor is Some && event.cursor == state.cursor->0 + 1 {
        draining_frame(state.applied(event));
    }
    let (after, transition) = state.received(event);
    if !transition.changed {
        assert(after.buffered.dom() =~= state.buffered.dom());
    }
}

} // verus!
