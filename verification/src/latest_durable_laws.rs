//! Laws of the latest-durable projection: what relates its transitions.

use vstd::prelude::*;

use crate::latest_durable_projection_core::{
    LatestDurableAck, LatestDurableKeyState, LatestDurableState, listing, refenced,
};
use crate::sorted::{in_order, in_order_exists};
use crate::value::OrderedKey;

verus! {

/// In every reachable state a snapshot shows, for each key, epochs that ascend from durable
/// over in flight to desired, and an attempt in flight that is the key's own and of the
/// current generation.
pub proof fn snapshots_show_ascending_epochs<K: OrderedKey, P>(
    state: LatestDurableState<K::V, P>,
    place: int,
)
    requires
        state.wf(),
        0 <= place < listing::<K, P>(state).keys.len(),
    ensures
        ({
            let (id, entry) = listing::<K, P>(state).keys[place];
            &&& entry.desired is Some && entry.inflight is Some ==> entry.inflight->0.epoch
                < entry.desired->0.epoch
            &&& entry.desired is Some && entry.durable_through is Some
                ==> entry.durable_through->0 < entry.desired->0.epoch
            &&& entry.inflight is Some && entry.durable_through is Some
                ==> entry.durable_through->0 < entry.inflight->0.epoch
            &&& entry.inflight is Some ==> entry.inflight->0.key == id
                && entry.inflight->0.generation == listing::<K, P>(state).generation
        }),
{
    in_order_exists::<K>(state.keys.dom());
    let order = in_order::<K>(state.keys.dom());
    assert(order.to_set().contains(order[place]));
    assert(state.keys.contains_key(order[place]));
}

/// A key whose state differs shows in the snapshot.
proof fn a_changed_key_shows<K: OrderedKey, P>(
    state: LatestDurableState<K::V, P>,
    id: K::V,
    entry: LatestDurableKeyState<K::V, P>,
)
    requires
        state.keys.dom().finite(),
        entry != state.entry(id),
    ensures
        listing::<K, P>(state.with(id, entry)) != listing::<K, P>(state),
{
    let after = state.with(id, entry);
    in_order_exists::<K>(after.keys.dom());
    in_order_exists::<K>(state.keys.dom());
    let order = in_order::<K>(state.keys.dom());
    let now = in_order::<K>(after.keys.dom());
    assert(now.to_set().contains(id));
    let place = now.index_of(id);
    assert(now[place] == id);
    if listing::<K, P>(after) == listing::<K, P>(state) {
        assert(listing::<K, P>(after).keys.len() == now.len());
        assert(listing::<K, P>(state).keys.len() == order.len());
        assert(place < order.len());
        assert(listing::<K, P>(after).keys[place] == (id, entry));
        assert(listing::<K, P>(state).keys[place] == (order[place], state.keys[order[place]]));
        assert(order.to_set().contains(order[place]));
    }
}

/// A mutator reports a change exactly where the snapshot changed.
pub proof fn the_change_flag_is_exact<K: OrderedKey, P>(
    state: LatestDurableState<K::V, P>,
    id: K::V,
    generation: u64,
    epoch: u64,
    value: P,
)
    requires
        state.wf(),
    ensures
        ({
            let (after, outcome) = state.upserted(id, epoch, value);
            (outcome is Accepted) == (listing::<K, P>(after) != listing::<K, P>(state))
        }),
        ({
            let (after, outcome) = state.claimed(id, generation);
            (outcome is Claimed) == (listing::<K, P>(after) != listing::<K, P>(state))
        }),
        ({
            let after = state.acked(id, generation, epoch).0;
            (generation == state.generation && state.flies(id, epoch)) == (listing::<K, P>(after)
                != listing::<K, P>(state))
        }),
        ({
            let (after, outcome) = state.failed(id, generation, epoch);
            (outcome is Pending || outcome is Superseded) == (listing::<K, P>(after) != listing::<
                K,
                P,
            >(state))
        }),
        ({
            let (after, outcome) = refenced::<K, P>(state, generation);
            (outcome is Advanced) == (listing::<K, P>(after) != listing::<K, P>(state))
        }),
{
    let entry = state.entry(id);
    let (upserted, upsert) = state.upserted(id, epoch, value);
    if upsert is Accepted {
        a_changed_key_shows::<K, P>(state, id, upserted.keys[id]);
    }
    let (claimed, claim) = state.claimed(id, generation);
    if claim is Claimed {
        a_changed_key_shows::<K, P>(state, id, claimed.keys[id]);
    }
    if generation == state.generation && state.flies(id, epoch) {
        let acked = state.acked(id, generation, epoch).0;
        assert(acked.keys[id].inflight is None);
        a_changed_key_shows::<K, P>(state, id, acked.keys[id]);
        let failed = state.failed(id, generation, epoch).0;
        assert(failed.keys[id].inflight is None);
        a_changed_key_shows::<K, P>(state, id, failed.keys[id]);
    }
}

/// An acknowledgement never clears a desire, whatever the epoch: an older success
/// may advance durability and that is all.
pub proof fn success_never_clears_a_desire<Id, P>(
    state: LatestDurableState<Id, P>,
    id: Id,
    generation: u64,
    epoch: u64,
)
    requires
        state.wf(),
    ensures
        state.acked(id, generation, epoch).0.entry(id).desired == state.entry(id).desired,
{
}

/// Durability never moves down: not under desires, claims, successes, failures or
/// reconnects.
pub proof fn durability_is_monotone<K: OrderedKey, P>(
    state: LatestDurableState<K::V, P>,
    id: K::V,
    other: K::V,
    generation: u64,
    epoch: u64,
    value: P,
)
    requires
        state.wf(),
        state.entry(other).durable_through is Some,
    ensures
        state.upserted(id, epoch, value).0.entry(other).durable_through == state.entry(
            other,
        ).durable_through,
        state.claimed(id, generation).0.entry(other).durable_through == state.entry(
            other,
        ).durable_through,
        state.failed(id, generation, epoch).0.entry(other).durable_through == state.entry(
            other,
        ).durable_through,
        refenced::<K, P>(state, generation).0.entry(other).durable_through == state.entry(
            other,
        ).durable_through,
        state.acked(id, generation, epoch).0.entry(other).durable_through is Some,
        state.acked(id, generation, epoch).0.entry(other).durable_through->0 >= state.entry(
            other,
        ).durable_through->0,
{
}

/// Keys have independent lanes: an operation on one key leaves every other as it is.
pub proof fn lanes_are_independent<Id, P>(
    state: LatestDurableState<Id, P>,
    id: Id,
    other: Id,
    generation: u64,
    epoch: u64,
    value: P,
)
    requires
        state.wf(),
        other != id,
    ensures
        state.upserted(id, epoch, value).0.entry(other) == state.entry(other),
        state.claimed(id, generation).0.entry(other) == state.entry(other),
        state.acked(id, generation, epoch).0.entry(other) == state.entry(other),
        state.failed(id, generation, epoch).0.entry(other) == state.entry(other),
{
}

/// A key has one attempt in flight at most: while there is one, no claim succeeds.
pub proof fn lanes_are_single_flight<Id, P>(
    state: LatestDurableState<Id, P>,
    id: Id,
    generation: u64,
)
    requires
        state.wf(),
        state.entry(id).inflight is Some,
    ensures
        !(state.claimed(id, generation).1 is Claimed),
        state.claimed(id, generation).0 == state,
{
}

/// A fenced attachment is inert.
pub proof fn fenced_sinks_are_inert<K: OrderedKey, P>(
    state: LatestDurableState<K::V, P>,
    id: K::V,
    generation: u64,
    epoch: u64,
)
    requires
        state.wf(),
        generation != state.generation,
    ensures
        state.claimed(id, generation).0 == state,
        state.claimed(id, generation).1 is StaleGeneration,
        state.acked(id, generation, epoch).0 == state,
        state.acked(id, generation, epoch).1 is StaleGeneration,
        state.failed(id, generation, epoch).0 == state,
        state.failed(id, generation, epoch).1 is StaleGeneration,
        generation < state.generation ==> refenced::<K, P>(state, generation).0 == state,
{
}

/// The newest revision of a key is never lost: claiming, failing and fencing keep
/// it, and a success removes it only by making its epoch durable.
pub proof fn newest_revision_is_never_lost<K: OrderedKey, P>(
    state: LatestDurableState<K::V, P>,
    id: K::V,
    generation: u64,
    epoch: u64,
)
    requires
        state.wf(),
    ensures
        state.claimed(id, generation).0.entry(id).newest() == state.entry(id).newest(),
        state.failed(id, generation, epoch).0.entry(id).newest() == state.entry(id).newest(),
        refenced::<K, P>(state, generation).0.entry(id).newest() == state.entry(id).newest(),
        ({
            let after = state.acked(id, generation, epoch).0.entry(id);
            after.newest() == state.entry(id).newest() || (after.newest() is None
                && state.entry(id).newest() is Some && after.durable_through == Some(
                state.entry(id).newest()->0.epoch,
            ))
        }),
{
}

/// Once a desire is accepted, claimed and applied without a newer one, it is
/// durable and the lane is at rest.
pub proof fn desires_become_durable<Id, P>(
    state: LatestDurableState<Id, P>,
    id: Id,
    epoch: u64,
    value: P,
)
    requires
        state.wf(),
        state.entry(id).inflight is None,
        state.upserted(id, epoch, value).1 is Accepted,
    ensures
        ({
            let desired = state.upserted(id, epoch, value).0;
            let (flying, claim) = desired.claimed(id, state.generation);
            let (done, ack) = flying.acked(id, state.generation, epoch);
            &&& claim is Claimed
            &&& claim->Claimed_0.epoch == epoch
            &&& claim->Claimed_0.value == value
            &&& ack == LatestDurableAck::Advanced { durable_through: epoch }
            &&& done.entry(id) == LatestDurableKeyState::<Id, P> {
                desired: None,
                inflight: None,
                durable_through: Some(epoch),
            }
        }),
{
}

/// A refused desire changes nothing.
pub proof fn refused_desires_change_nothing<Id, P>(
    state: LatestDurableState<Id, P>,
    id: Id,
    epoch: u64,
    value: P,
)
    requires
        state.wf(),
        !(state.upserted(id, epoch, value).1 is Accepted),
    ensures
        state.upserted(id, epoch, value).0 == state,
{
}

} // verus!
