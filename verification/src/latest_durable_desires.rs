//! Laws of the latest-durable projection: which desires are taken, what a claim hands out,
//! and what becomes of an attempt.

use vstd::prelude::*;

use crate::filtering::{filter_keeps_what_matches, kept_was_there};
use crate::latest_durable_projection_core::{
    LatestDurableAck, LatestDurableClaim, LatestDurableEnvelope, LatestDurableFailure,
    LatestDurableKeyState, LatestDurableReconnect, LatestDurableRevision, LatestDurableState,
    LatestDurableUpsert, listing, refenced, waiting_keys,
};
use crate::sorted::{in_order, in_order_exists};
use crate::value::OrderedKey;

verus! {

/// Whether an epoch is above everything that is durable, in flight or desired for a key.
pub open spec fn is_news<Id, P>(entry: LatestDurableKeyState<Id, P>, epoch: u64) -> bool {
    &&& entry.durable_through is Some ==> entry.durable_through->0 < epoch
    &&& entry.inflight is Some ==> entry.inflight->0.epoch < epoch
    &&& entry.desired is Some ==> entry.desired->0.epoch < epoch
}

/// A desire is accepted exactly where its epoch is above everything known of its key, no
/// matter what is desired or in flight. It then is what is desired and the newest revision
/// of the key, and neither the attempt in flight nor what is durable moves.
pub proof fn a_newer_desire_is_always_accepted<Id, P>(
    state: LatestDurableState<Id, P>,
    id: Id,
    epoch: u64,
    value: P,
)
    requires
        state.wf(),
    ensures
        ({
            let (after, outcome) = state.upserted(id, epoch, value);
            &&& outcome is Accepted <==> is_news(state.entry(id), epoch)
            &&& outcome is Accepted ==> {
                &&& after.keys.contains_key(id)
                &&& after.keys[id].desired == Some(LatestDurableRevision { epoch, value })
                &&& after.keys[id].newest() == Some(LatestDurableRevision { epoch, value })
                &&& after.keys[id].inflight == state.entry(id).inflight
                &&& after.keys[id].durable_through == state.entry(id).durable_through
                &&& after.keys == state.keys.insert(id, after.keys[id])
                &&& after.generation == state.generation
            }
        }),
{
}

/// A desire that is not accepted says why: its epoch is durable already; or a newer one is
/// known, the newest of which is named; or the same one is, with this value or with another.
pub proof fn a_refused_desire_says_why<Id, P>(
    state: LatestDurableState<Id, P>,
    id: Id,
    epoch: u64,
    value: P,
)
    requires
        state.wf(),
    ensures
        ({
            let entry = state.entry(id);
            let outcome = state.upserted(id, epoch, value).1;
            let durable = entry.durable_through is Some && epoch <= entry.durable_through->0;
            let behind = (entry.desired is Some && epoch < entry.desired->0.epoch) || (
            entry.inflight is Some && epoch < entry.inflight->0.epoch);
            let same = (entry.desired is Some && epoch == entry.desired->0.epoch && value
                == entry.desired->0.value) || (entry.desired is None && entry.inflight is Some
                && epoch == entry.inflight->0.epoch && value == entry.inflight->0.value);
            &&& outcome is AlreadyDurable <==> durable
            &&& outcome is AlreadyDurable ==> outcome == (LatestDurableUpsert::AlreadyDurable {
                durable_through: entry.durable_through->0,
            })
            &&& outcome is StaleEpoch <==> !durable && behind
            &&& outcome matches LatestDurableUpsert::StaleEpoch { current } ==> {
                &&& entry.desired is Some ==> entry.desired->0.epoch <= current
                &&& entry.inflight is Some ==> entry.inflight->0.epoch <= current
                &&& (entry.desired is Some && current == entry.desired->0.epoch) || (
                entry.inflight is Some && current == entry.inflight->0.epoch)
            }
            &&& outcome is Unchanged <==> same
            &&& outcome is EpochConflict <==> !durable && !behind && !same && !is_news(
                entry,
                epoch,
            )
        }),
{
}

/// The newest revision of a key is the one with the highest epoch among what is desired and
/// what is in flight.
pub proof fn the_newest_revision_has_the_highest_epoch<Id, P>(
    entry: LatestDurableKeyState<Id, P>,
)
    ensures
        entry.newest() is None <==> entry.desired is None && entry.inflight is None,
        entry.newest() matches Some(newest) ==> {
            &&& entry.desired is Some ==> entry.desired->0.epoch <= newest.epoch
            &&& entry.inflight is Some ==> entry.inflight->0.epoch <= newest.epoch
            &&& (entry.desired is Some && newest == entry.desired->0) || (entry.inflight is Some
                && newest.epoch == entry.inflight->0.epoch && newest.value
                == entry.inflight->0.value)
        },
{
}

/// A claim hands out exactly what is desired, where nothing of the key is in flight, to the
/// current attachment alone; what it handed out is in flight and no longer desired.
pub proof fn a_claim_hands_out_what_is_desired<Id, P>(
    state: LatestDurableState<Id, P>,
    id: Id,
    generation: u64,
)
    requires
        state.wf(),
    ensures
        ({
            let entry = state.entry(id);
            let (after, outcome) = state.claimed(id, generation);
            &&& outcome is StaleGeneration <==> generation != state.generation
            &&& outcome is StaleGeneration ==> outcome
                == (LatestDurableClaim::<Id, P>::StaleGeneration { current: state.generation })
            &&& outcome is Busy <==> generation == state.generation && entry.inflight is Some
            &&& outcome is Empty <==> generation == state.generation && entry.inflight is None
                && entry.desired is None
            &&& outcome is Claimed <==> generation == state.generation && entry.inflight is None
                && entry.desired is Some
            &&& outcome matches LatestDurableClaim::Claimed(envelope) ==> {
                &&& envelope == (LatestDurableEnvelope {
                    generation: state.generation,
                    key: id,
                    epoch: entry.desired->0.epoch,
                    value: entry.desired->0.value,
                })
                &&& after.keys.contains_key(id)
                &&& after.keys[id].inflight == Some(envelope)
                &&& after.keys[id].desired is None
                &&& after.keys[id].durable_through == entry.durable_through
                &&& after.keys == state.keys.insert(id, after.keys[id])
                &&& after.generation == state.generation
            }
            &&& !(outcome is Claimed) ==> after == state
        }),
{
}

/// A success counts exactly for the attempt that is in flight, from the current attachment:
/// its epoch is durable then and the lane is free, while what is desired stays. Any other
/// changes nothing, and is told apart by whether its epoch is durable.
pub proof fn a_success_makes_its_epoch_durable<Id, P>(
    state: LatestDurableState<Id, P>,
    id: Id,
    generation: u64,
    epoch: u64,
)
    requires
        state.wf(),
    ensures
        ({
            let entry = state.entry(id);
            let (after, outcome) = state.acked(id, generation, epoch);
            let counts = generation == state.generation && entry.inflight is Some
                && entry.inflight->0.epoch == epoch;
            let durable = entry.durable_through is Some && epoch <= entry.durable_through->0;
            &&& outcome is Advanced <==> counts
            &&& counts ==> {
                &&& outcome == (LatestDurableAck::Advanced { durable_through: epoch })
                &&& after.keys.contains_key(id)
                &&& after.keys[id].durable_through == Some(epoch)
                &&& after.keys[id].inflight is None
                &&& after.keys[id].desired == entry.desired
                &&& after.keys == state.keys.insert(id, after.keys[id])
                &&& after.generation == state.generation
            }
            &&& !counts ==> after == state
            &&& outcome is StaleGeneration <==> generation != state.generation
            &&& outcome is StaleGeneration ==> outcome == (LatestDurableAck::StaleGeneration {
                current: state.generation,
            })
            &&& outcome is Unchanged <==> generation == state.generation && durable
            &&& outcome is Unchanged ==> outcome == (LatestDurableAck::Unchanged {
                durable_through: entry.durable_through->0,
            })
            &&& outcome is UnknownEpoch <==> generation == state.generation && !counts && !durable
            &&& state.flies(id, epoch) <==> entry.inflight is Some && entry.inflight->0.epoch
                == epoch
        }),
{
}

/// A failed attempt frees the lane and loses nothing: where a newer desire waits, that one
/// stays and the attempt is superseded; otherwise what was attempted is desired again.
pub proof fn a_failure_gives_the_attempt_back<Id, P>(
    state: LatestDurableState<Id, P>,
    id: Id,
    generation: u64,
    epoch: u64,
)
    requires
        state.wf(),
    ensures
        ({
            let entry = state.entry(id);
            let (after, outcome) = state.failed(id, generation, epoch);
            let counts = generation == state.generation && entry.inflight is Some
                && entry.inflight->0.epoch == epoch;
            &&& outcome is Superseded <==> counts && entry.desired is Some
            &&& outcome is Pending <==> counts && entry.desired is None
            &&& counts ==> {
                &&& after.keys.contains_key(id)
                &&& after.keys[id].inflight is None
                &&& after.keys[id].durable_through == entry.durable_through
                &&& after.keys[id].desired == if entry.desired is Some {
                    entry.desired
                } else {
                    Some(LatestDurableRevision { epoch, value: entry.inflight->0.value })
                }
                &&& after.keys == state.keys.insert(id, after.keys[id])
                &&& after.generation == state.generation
            }
            &&& !counts ==> after == state
            &&& outcome is StaleGeneration <==> generation != state.generation
            &&& outcome is StaleGeneration ==> outcome == (LatestDurableFailure::StaleGeneration {
                current: state.generation,
            })
            &&& outcome is UnknownEpoch <==> generation == state.generation && !counts
        }),
{
}

/// A newer attachment takes over with nothing in flight: on every key the newest revision is
/// what is desired and what is durable stays. Of the attempts that were in flight, those
/// that a newer desire had overtaken count as superseded, the others as desired again. An
/// attachment that is not newer changes nothing.
pub proof fn a_newer_attachment_starts_with_free_lanes<K: OrderedKey, P>(
    state: LatestDurableState<K::V, P>,
    generation: u64,
)
    requires
        state.wf(),
    ensures
        ({
            let (after, outcome) = refenced::<K, P>(state, generation);
            let keys = in_order::<K>(state.keys.dom());
            let overtaken = |id: K::V|
                state.keys[id].inflight is Some && state.keys[id].desired is Some;
            let wanted = |id: K::V|
                state.keys[id].inflight is Some && state.keys[id].desired is None;
            &&& generation < state.generation ==> after == state && outcome
                == (LatestDurableReconnect::StaleGeneration { current: state.generation })
            &&& generation == state.generation ==> after == state && outcome
                == (LatestDurableReconnect::Unchanged { generation })
            &&& state.generation < generation ==> {
                &&& after.generation == generation
                &&& after.keys.dom() == state.keys.dom()
                &&& forall|id: K::V| #[trigger]
                    state.keys.contains_key(id) ==> {
                        let entry = state.keys[id];
                        &&& after.keys[id].inflight is None
                        &&& after.keys[id].durable_through == entry.durable_through
                        &&& entry.desired is Some ==> after.keys[id].desired == entry.desired
                        &&& entry.desired is None && entry.inflight is Some
                            ==> after.keys[id].desired == Some(
                            LatestDurableRevision {
                                epoch: entry.inflight->0.epoch,
                                value: entry.inflight->0.value,
                            },
                        )
                        &&& entry.desired is None && entry.inflight is None
                            ==> after.keys[id].desired is None
                    }
                &&& outcome == (LatestDurableReconnect::Advanced {
                    generation,
                    requeued: keys.filter(wanted).len() as usize,
                    superseded: keys.filter(overtaken).len() as usize,
                })
            }
        }),
{
    let keys = in_order::<K>(state.keys.dom());
    in_order_exists::<K>(state.keys.dom());
    let overtaken = |id: K::V| state.keys[id].inflight is Some && state.keys[id].desired is Some;
    let wanted = |id: K::V| state.keys[id].inflight is Some && state.keys[id].desired is None;
    assert forall|i: int| 0 <= i < keys.len() implies state.keys.contains_key(
        #[trigger] keys[i],
    ) by {
        assert(keys.to_set().contains(keys[i]));
    }
    filters_agree(keys, wanted, |id: K::V| state.keys[id].wanted());
    filters_agree(keys, overtaken, |id: K::V| state.keys[id].overtaken());
    if state.generation < generation {
        let after = refenced::<K, P>(state, generation).0;
        assert(after.keys.dom() =~= state.keys.dom());
    }
}

/// Tests that agree on every item keep the same ones.
proof fn filters_agree<A>(items: Seq<A>, one: spec_fn(A) -> bool, other: spec_fn(A) -> bool)
    requires
        forall|i: int| 0 <= i < items.len() ==> one(#[trigger] items[i]) == other(items[i]),
    ensures
        items.filter(one) == items.filter(other),
    decreases items.len(),
{
    reveal(Seq::filter);
    if items.len() > 0 {
        let fewer = items.drop_last();
        assert forall|i: int| 0 <= i < fewer.len() implies one(#[trigger] fewer[i]) == other(
            fewer[i],
        ) by {
            assert(fewer[i] == items[i]);
        }
        filters_agree(fewer, one, other);
        assert(items[items.len() - 1] == items.last());
    }
}

/// The keys that wait are exactly those with a desire and nothing in flight, each of which
/// the current attachment can claim, and a snapshot shows every key with what is known of it.
pub proof fn waiting_keys_can_be_claimed<K: OrderedKey, P>(
    state: LatestDurableState<K::V, P>,
    id: K::V,
)
    requires
        state.wf(),
    ensures
        waiting_keys::<K, P>(state).contains(id) <==> state.claimed(id, state.generation).1
            is Claimed,
        state.keys.contains_key(id) <==> listing::<K, P>(state).keys.contains(
            (id, state.entry(id)),
        ),
        listing::<K, P>(state).generation == state.generation,
{
    let keys = in_order::<K>(state.keys.dom());
    in_order_exists::<K>(state.keys.dom());
    let waits = |id: K::V| state.keys[id].inflight is None && state.keys[id].desired is Some;
    filter_keeps_what_matches(keys, waits);
    let waiting = waiting_keys::<K, P>(state);
    if waiting.contains(id) {
        let place = waiting.index_of(id);
        kept_was_there(keys, waits, place);
        assert(waits(waiting[place]));
        assert(keys.to_set().contains(id));
    }
    let shown = listing::<K, P>(state).keys;
    if state.keys.contains_key(id) {
        assert(keys.to_set().contains(id));
        let at = keys.index_of(id);
        assert(keys[at] == id);
        if waits(id) {
            assert(waiting.contains(keys[at]));
        }
        assert(shown[at] == (id, state.entry(id)));
    }
    if shown.contains((id, state.entry(id))) {
        let at = shown.index_of((id, state.entry(id)));
        assert(shown[at] == (keys[at], state.keys[keys[at]]));
        assert(keys.to_set().contains(keys[at]));
    }
}

/// Whatever happened before, the value that a sink is handed next is the newest that was
/// accepted: a desire that is accepted while an attempt is in flight is what the next claim
/// hands out once that attempt succeeded or failed.
pub proof fn the_next_claim_hands_out_the_newest_desire<Id, P>(
    state: LatestDurableState<Id, P>,
    id: Id,
    epoch: u64,
    value: P,
)
    requires
        state.wf(),
        state.entry(id).inflight is Some,
        is_news(state.entry(id), epoch),
    ensures
        ({
            let wanting = state.upserted(id, epoch, value).0;
            let flying = state.entry(id).inflight->0.epoch;
            let done = wanting.acked(id, state.generation, flying).0;
            let failed = wanting.failed(id, state.generation, flying).0;
            let handed = LatestDurableClaim::Claimed(
                LatestDurableEnvelope { generation: state.generation, key: id, epoch, value },
            );
            &&& done.claimed(id, state.generation).1 == handed
            &&& failed.claimed(id, state.generation).1 == handed
        }),
{
}

} // verus!
