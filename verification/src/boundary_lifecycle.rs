//! Laws of the boundary's subscription, membership and deliveries, and of what it publishes.

use vstd::prelude::*;

use crate::boundary_model::{BoundaryState, projected};
use crate::boundary_types::{
    BoundaryIngressAuthority, BoundaryIngressConfig, BoundaryIngressEffectIntent,
    BoundaryIngressEvent, DeliveryFacts, ProjectionFacts,
};
use crate::sorted::{ascending, in_order_exists};
use crate::value::OrderedKey;

verus! {

/// A new boundary is detached: it knows of no producer, no member and no delivery.
pub proof fn a_new_boundary_is_detached<Id, P>(config: BoundaryIngressConfig)
    ensures
        ({
            let state = BoundaryState::<Id, P>::detached(config);
            &&& state.config == config
            &&& state.phase is Detached
            &&& state.generation == 0
            &&& state.cursor is None
            &&& state.buffered == Map::<u64, BoundaryIngressEvent<Id, P>>::empty()
            &&& state.source_keys == Set::<Id>::empty()
            &&& state.members == Set::<Seq<char>>::empty()
            &&& state.validation is Valid
            &&& state.replay_from is None
            &&& state.stale_events == 0
            &&& state.deliveries == Map::<Seq<char>, DeliveryFacts>::empty()
            &&& state.active_delivery is None
            &&& state.last_stamped_at is None
            &&& state.now == 0
            &&& state.revision == 0
        }),
{
}

/// A subscription to a generation that is not below the fence starts over with its producer:
/// nothing of it is known, whether or not it is a new one. Deliveries, the stamp and the
/// clock are not the producer's and stay. One below the fence is refused.
pub proof fn a_subscription_starts_over<Id, P>(state: BoundaryState<Id, P>, generation: u64)
    ensures
        ({
            let (after, subscribed) = state.subscribed(generation);
            &&& subscribed <==> state.generation <= generation
            &&& !subscribed ==> after == state
            &&& subscribed ==> {
                &&& after.generation == generation
                &&& after.phase is Bootstrapping
                &&& after.cursor is None
                &&& after.buffered == Map::<u64, BoundaryIngressEvent<Id, P>>::empty()
                &&& after.source_keys == Set::<Id>::empty()
                &&& after.members == Set::<Seq<char>>::empty()
                &&& after.validation is Valid
                &&& after.replay_from is None
                &&& after.stale_events == state.stale_events
                &&& after.deliveries == state.deliveries
                &&& after.active_delivery == state.active_delivery
                &&& after.last_stamped_at == state.last_stamped_at
                &&& after.now == state.now
                &&& after.config == state.config
                &&& after.revision == state.revision.wrapping_add(1)
            }
        }),
{
}

/// What a change of membership or of deliveries leaves as it was.
pub open spec fn source_holds<Id, P>(
    before: BoundaryState<Id, P>,
    after: BoundaryState<Id, P>,
) -> bool {
    &&& after.config == before.config
    &&& after.phase == before.phase
    &&& after.generation == before.generation
    &&& after.cursor == before.cursor
    &&& after.buffered == before.buffered
    &&& after.source_keys == before.source_keys
    &&& after.validation == before.validation
    &&& after.replay_from == before.replay_from
    &&& after.stale_events == before.stale_events
    &&& after.last_stamped_at == before.last_stamped_at
    &&& after.now == before.now
}

/// A member joins once: it is a member then, next to the others. The active delivery, where it
/// was opened without members, is for the first one that joins; no other delivery moves.
pub proof fn a_member_joins_once<Id, P>(state: BoundaryState<Id, P>, member: Seq<char>)
    requires
        state.wf(),
    ensures
        ({
            let (after, joined) = state.joined(member);
            &&& joined <==> !state.members.contains(member)
            &&& !joined ==> after == state
            &&& source_holds(state, after)
            &&& after.active_delivery == state.active_delivery
            &&& after.members == state.members.insert(member)
            &&& after.revision == if joined {
                state.revision.wrapping_add(1)
            } else {
                state.revision
            }
            &&& after.deliveries.dom() == state.deliveries.dom()
            &&& forall|id: Seq<char>| #[trigger]
                state.deliveries.contains_key(id) ==> {
                    let opens = joined && state.active_delivery == Some(id)
                        && state.deliveries[id].targets == Set::<Seq<char>>::empty();
                    &&& opens ==> after.deliveries[id] == (DeliveryFacts {
                        targets: Set::<Seq<char>>::empty().insert(member),
                        ..state.deliveries[id]
                    })
                    &&& !opens ==> after.deliveries[id] == state.deliveries[id]
                }
        }),
{
    let after = state.joined(member).0;
    assert(after.deliveries.dom() =~= state.deliveries.dom());
    assert(state.members.contains(member) ==> state.members.insert(member) =~= state.members);
}

/// A member leaves once, and no delivery moves with it.
pub proof fn a_member_leaves_once<Id, P>(state: BoundaryState<Id, P>, member: Seq<char>)
    ensures
        ({
            let (after, left) = state.left(member);
            &&& left <==> state.members.contains(member)
            &&& !left ==> after == state
            &&& source_holds(state, after)
            &&& after.members == state.members.remove(member)
            &&& after.deliveries == state.deliveries
            &&& after.active_delivery == state.active_delivery
            &&& after.revision == if left {
                state.revision.wrapping_add(1)
            } else {
                state.revision
            }
        }),
{
    assert(!state.members.contains(member) ==> state.members.remove(member) =~= state.members);
}

/// A delivery that is opened is active and for the members of that moment, with nobody's
/// acknowledgement; one that was opened before is active again as it was. The one that is
/// active already stays so, and nothing moves.
pub proof fn a_delivery_captures_its_members<Id, P>(
    state: BoundaryState<Id, P>,
    receipt_id: Seq<char>,
)
    requires
        state.wf(),
    ensures
        ({
            let (after, opened) = state.delivering(receipt_id);
            &&& opened <==> state.active_delivery != Some(receipt_id)
            &&& !opened ==> after == state
            &&& source_holds(state, after)
            &&& after.members == state.members
            &&& after.active_delivery == Some(receipt_id)
            &&& after.revision == if opened {
                state.revision.wrapping_add(1)
            } else {
                state.revision
            }
            &&& state.deliveries.contains_key(receipt_id) ==> after.deliveries == state.deliveries
            &&& !state.deliveries.contains_key(receipt_id) ==> after.deliveries
                == state.deliveries.insert(
                receipt_id,
                DeliveryFacts {
                    receipt_id,
                    targets: state.members,
                    acknowledged: Set::<Seq<char>>::empty(),
                },
            )
            &&& after.active() == Some(after.deliveries[receipt_id])
        }),
{
}

/// An acknowledgement counts once, for a member that the delivery captured, and moves that
/// delivery alone.
pub proof fn an_acknowledgement_counts_once<Id, P>(
    state: BoundaryState<Id, P>,
    receipt_id: Seq<char>,
    member: Seq<char>,
)
    ensures
        ({
            let (after, counted) = state.acknowledged(receipt_id, member);
            let receipt = state.deliveries[receipt_id];
            &&& counted <==> state.deliveries.contains_key(receipt_id) && receipt.targets.contains(
                member,
            ) && !receipt.acknowledged.contains(member)
            &&& !counted ==> after == state
            &&& counted ==> {
                &&& source_holds(state, after)
                &&& after.members == state.members
                &&& after.active_delivery == state.active_delivery
                &&& after.revision == state.revision.wrapping_add(1)
                &&& after.deliveries == state.deliveries.insert(
                    receipt_id,
                    DeliveryFacts {
                        receipt_id: receipt.receipt_id,
                        targets: receipt.targets,
                        acknowledged: receipt.acknowledged.insert(member),
                    },
                )
            }
        }),
{
}

/// A delivery has converged exactly where it captured somebody and everybody that it captured
/// has acknowledged.
pub proof fn a_delivery_converges_with_its_last_member(receipt: DeliveryFacts)
    ensures
        receipt.done() <==> (exists|member: Seq<char>| #[trigger] receipt.targets.contains(member))
            && forall|member: Seq<char>| #[trigger]
            receipt.targets.contains(member) ==> receipt.acknowledged.contains(member),
{
    if receipt.targets != Set::<Seq<char>>::empty() {
        assert(exists|member: Seq<char>| #[trigger] receipt.targets.contains(member)) by {
            if forall|member: Seq<char>| !(#[trigger] receipt.targets.contains(member)) {
                assert(receipt.targets =~= Set::<Seq<char>>::empty());
            }
        }
    }
}

/// Time moves the clock and, only where freshness crosses its horizon, the revision with it.
pub proof fn time_moves_the_boundarys_clock<Id, P>(state: BoundaryState<Id, P>, now: u64)
    ensures
        ({
            let (after, crossed) = state.ticked(now);
            &&& crossed <==> after.freshness_of() != state.freshness_of()
            &&& after == (BoundaryState {
                now,
                revision: if crossed {
                    state.revision.wrapping_add(1)
                } else {
                    state.revision
                },
                ..state
            })
        }),
{
}

/// What is published is what is known: every fact under its name, the keys, the members and
/// the waiting cursors each once in ascending order, and the active delivery.
pub proof fn what_is_published_is_what_is_known<K: OrderedKey, P>(state: BoundaryState<K::V, P>)
    requires
        state.wf(),
        state.source_keys.finite(),
        state.members.finite(),
    ensures
        ({
            let facts = projected::<K, P>(state);
            &&& facts.phase == state.phase
            &&& facts.generation == state.generation
            &&& facts.cursor == state.cursor
            &&& facts.validation == state.validation
            &&& facts.freshness == state.freshness_of()
            &&& facts.replay_from == state.replay_from
            &&& facts.stale_events == state.stale_events
            &&& facts.revision == state.revision
            &&& facts.active_delivery is Some <==> state.active_delivery is Some
            &&& state.active_delivery is Some ==> facts.active_delivery == Some(
                state.deliveries[state.active_delivery->0],
            )
            &&& facts.buffered_cursors.to_set() == state.buffered.dom()
            &&& ascending::<u64>(facts.buffered_cursors)
            &&& facts.source_keys.to_set() == state.source_keys
            &&& ascending::<K>(facts.source_keys)
            &&& facts.members.to_set() == state.members
            &&& ascending::<String>(facts.members)
        }),
{
    in_order_exists::<u64>(state.buffered.dom());
    in_order_exists::<K>(state.source_keys);
    in_order_exists::<String>(state.members);
}

/// What readers derive: readiness names the phase, authority is claimed unless the boundary is
/// detached, the active delivery decides convergence, and the boundary wants a subscription
/// while it bootstraps, a replay from what is missing while it lacks frames, and nothing
/// otherwise.
pub proof fn readers_derive_from_what_is_published<Id>(facts: ProjectionFacts<Id>)
    ensures
        facts.ready() is Ready <==> facts.phase is Live,
        facts.ready() is Warming <==> facts.phase is Bootstrapping,
        facts.ready() is Detached <==> facts.phase is Detached,
        facts.ready() is ReplayRequired <==> facts.phase is ReplayRequired,
        facts.ready() is Backpressured <==> facts.phase is Backpressured,
        facts.ready() is Invalid <==> facts.phase is Invalid,
        facts.claims() is None <==> facts.phase is Detached,
        !(facts.phase is Detached) ==> facts.claims() == Some(
            BoundaryIngressAuthority { generation: facts.generation, cursor: facts.cursor },
        ),
        facts.settled() <==> facts.active_delivery is Some && facts.active_delivery->0.done(),
        facts.intends() is Subscribe <==> facts.phase is Bootstrapping,
        facts.intends() is Subscribe ==> facts.intends()
            == (BoundaryIngressEffectIntent::Subscribe { generation: facts.generation }),
        facts.intends() is ColdReplay <==> facts.phase is ReplayRequired || facts.phase
            is Backpressured,
        facts.intends() is ColdReplay ==> facts.intends()
            == (BoundaryIngressEffectIntent::ColdReplay {
            generation: facts.generation,
            from_cursor: if facts.replay_from is Some {
                facts.replay_from->0
            } else {
                0
            },
        }),
        facts.intends() is Idle <==> facts.phase is Detached || facts.phase is Live || facts.phase
            is Invalid,
{
}

} // verus!
