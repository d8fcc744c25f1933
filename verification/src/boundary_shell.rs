//! The reactive shell of the boundary ingress: one published observation, the members
//! in order of appearance, and seven derived readers, on one context.
//!
//! Every boundary observation updates the value plane, the members and the published
//! observation in one batch, so no consumer sees a torn snapshot.

use vstd::prelude::*;

use crate::boundary_ingress_core::BoundaryIngressCore;
use crate::boundary_model::{BoundaryState, installed, projected};
use crate::boundary_types::{
    BoundaryFreshness, BoundaryIngressAction, BoundaryIngressAuthority, BoundaryIngressConfig,
    BoundaryIngressEffectIntent, BoundaryIngressEvent, BoundaryIngressPhase,
    BoundaryIngressProjection, BoundaryIngressReadiness, BoundaryIngressSnapshot,
    BoundaryValidation, ProjectionFacts,
};
use crate::filtering::filter_keeps_what_matches;
use crate::graph::{Ledger, SlotId, with_root};
use crate::ingress_model::{admitted, countable, has_room};
use crate::ingress_shell::{IngressCellState, IngressShell, a_cell_stays_on_its_ledger};
use crate::ingress_types::{IngressMarks, IngressScopeChange};
use crate::merge::MergePolicy;
use crate::reactive::{Listing, Memo, MemoState, ReactiveGraph, clear_marked};
use crate::value::{OrderedKey, Datum, copies, holds};

verus! {

/// Some value-plane actions carried out in order.
pub open spec fn acted<Id, T: View, M: MergePolicy<T>>(
    ingress: IngressCellState<Id, T::V>,
    ledger: Ledger,
    actions: Seq<BoundaryIngressAction<Id, T::V>>,
) -> (IngressCellState<Id, T::V>, Ledger)
    decreases actions.len(),
{
    if actions.len() == 0 {
        (ingress, ledger)
    } else {
        let (plane, here) = acted::<Id, T, M>(ingress, ledger, actions.drop_last());
        match actions.last() {
            BoundaryIngressAction::Admit(envelope) => {
                let (core, marks, _) = admitted::<Id, T, M>(plane.core, envelope);
                plane.over(core).applied(here, marks)
            },
            BoundaryIngressAction::Close(key) => {
                let (core, marks) = plane.core.closed(key);
                plane.over(core).applied(here, marks)
            },
        }
    }
}

/// Whether the machine's counters have room for every envelope that some actions hand
/// over.
pub open spec fn actions_fit<Id, T: View, M: MergePolicy<T>>(
    ingress: IngressCellState<Id, T::V>,
    ledger: Ledger,
    actions: Seq<BoundaryIngressAction<Id, T::V>>,
) -> bool {
    forall|i: int|
        0 <= i < actions.len() ==> (#[trigger] actions[i] matches BoundaryIngressAction::Admit(
            envelope,
        ) ==> {
            let core = acted::<Id, T, M>(ingress, ledger, actions.take(i)).0.core;
            countable::<Id, T, M>(core, envelope) && has_room(core, envelope.key)
        })
}

/// The members in order of appearance after a change of the member set: those that
/// stayed, in their order, then the new ones in ascending order.
pub open spec fn rostered(roster: Seq<Seq<char>>, members: Seq<Seq<char>>) -> Seq<Seq<char>> {
    roster.filter(|member: Seq<char>| members.contains(member)) + members.filter(
        |member: Seq<char>| !roster.contains(member),
    )
}

/// A boundary cell and its readers, over views.
#[verifier::ext_equal]
#[verifier::reject_recursive_types(Id)]
#[verifier::reject_recursive_types(P)]
pub struct BoundaryCellState<Id, P> {
    /// The boundary's facts.
    pub core: BoundaryState<Id, P>,
    /// The published observation.
    pub projection: ProjectionFacts<Id>,
    /// The source of the observation.
    pub projection_slot: SlotId,
    /// The members, in order of appearance.
    pub members: Seq<Seq<char>>,
    /// The source of the members.
    pub members_slot: SlotId,
    /// Derived readiness.
    pub readiness: MemoState<BoundaryIngressReadiness>,
    /// Derived authority.
    pub authority: MemoState<Option<BoundaryIngressAuthority>>,
    /// Derived freshness.
    pub freshness: MemoState<BoundaryFreshness>,
    /// The members.
    pub membership: MemoState<Seq<Seq<char>>>,
    /// Whether the active delivery has converged.
    pub delivery_converged: MemoState<bool>,
    /// Structural validation.
    pub validation: MemoState<BoundaryValidation>,
    /// Derived effect intent.
    pub effect_intent: MemoState<BoundaryIngressEffectIntent>,
}

/// Whether a slot exists and depends on one other alone.
pub open spec fn depends_on(ledger: Ledger, slot: SlotId, source: SlotId) -> bool {
    ledger.has(slot) && ledger.slots[slot.index as int].deps == seq![source.index as int]
}

/// A ledger with the nine slots of a boundary cell.
pub open spec fn framed(ledger: Ledger) -> Ledger {
    let first = ledger.slots.len() as int;
    ledger.allocated(Seq::empty()).allocated(Seq::empty()).allocated(seq![first]).allocated(
        seq![first],
    ).allocated(seq![first]).allocated(seq![first + 1]).allocated(seq![first]).allocated(
        seq![first],
    ).allocated(seq![first])
}

impl<Id, P> BoundaryCellState<Id, P> {
    /// The cell's nine slots are consecutive. Six readers depend on the observation, one
    /// on the members.
    pub open spec fn on(self, ledger: Ledger) -> bool {
        &&& self.members_slot.index == self.projection_slot.index + 1
        &&& self.readiness.slot.index == self.projection_slot.index + 2
        &&& self.authority.slot.index == self.projection_slot.index + 3
        &&& self.freshness.slot.index == self.projection_slot.index + 4
        &&& self.membership.slot.index == self.projection_slot.index + 5
        &&& self.delivery_converged.slot.index == self.projection_slot.index + 6
        &&& self.validation.slot.index == self.projection_slot.index + 7
        &&& self.effect_intent.slot.index == self.projection_slot.index + 8
        &&& ledger.leaf(self.projection_slot)
        &&& ledger.leaf(self.members_slot)
        &&& depends_on(ledger, self.readiness.slot, self.projection_slot)
        &&& depends_on(ledger, self.authority.slot, self.projection_slot)
        &&& depends_on(ledger, self.freshness.slot, self.projection_slot)
        &&& depends_on(ledger, self.membership.slot, self.members_slot)
        &&& depends_on(ledger, self.delivery_converged.slot, self.projection_slot)
        &&& depends_on(ledger, self.validation.slot, self.projection_slot)
        &&& depends_on(ledger, self.effect_intent.slot, self.projection_slot)
    }

    /// A cell stays on a ledger that only grows.
    pub proof fn stays_on(self, ledger: Ledger, later: Ledger)
        requires
            self.on(ledger),
            later.extends(ledger),
        ensures
            self.on(later),
    {
    }

    /// A cell with other facts behind the same readers.
    pub open spec fn over(self, core: BoundaryState<Id, P>) -> Self {
        BoundaryCellState { core, ..self }
    }
}

/// One transition settled: nothing where nothing moved; otherwise the value plane acts,
/// the members are brought in line and the new observation is published, all in one
/// batch.
pub open spec fn settled<K: OrderedKey, T: View, M: MergePolicy<T>>(
    cell: BoundaryCellState<K::V, T::V>,
    ingress: IngressCellState<K::V, T::V>,
    ledger: Ledger,
    core: BoundaryState<K::V, T::V>,
    actions: Seq<BoundaryIngressAction<K::V, T::V>>,
    changed: bool,
) -> (BoundaryCellState<K::V, T::V>, IngressCellState<K::V, T::V>, Ledger) {
    if !changed && actions.len() == 0 {
        (cell.over(core), ingress, ledger)
    } else {
        let (plane, here) = acted::<K::V, T, M>(ingress, ledger.begun(), actions);
        let projection = projected::<K, T::V>(core);
        let members = rostered(cell.members, projection.members);
        (
            BoundaryCellState { core, projection, members, ..cell },
            plane,
            here.cleared(
                with_root(Set::empty(), members != cell.members, cell.members_slot),
            ).cleared(Set::<int>::empty().insert(cell.projection_slot.index as int)).finished(),
        )
    }
}

/// A boundary adapter with its readers, on any context. The value plane stands beside it.
pub struct BoundaryShell<K, T> {
    core: BoundaryIngressCore<K, T>,
    projection: BoundaryIngressProjection<K>,
    projection_slot: SlotId,
    members: Vec<String>,
    members_slot: SlotId,
    readiness: Memo<BoundaryIngressReadiness>,
    authority: Memo<Option<BoundaryIngressAuthority>>,
    freshness: Memo<BoundaryFreshness>,
    membership: Memo<Listing<String>>,
    delivery_converged: Memo<bool>,
    validation: Memo<BoundaryValidation>,
    effect_intent: Memo<BoundaryIngressEffectIntent>,
}

/// Brings members in line with a member set. Returns whether anything moved.
fn bring_in_line(roster: &mut Vec<String>, members: &Vec<String>) -> (moved: bool)
    ensures
        final(roster)@.map_values(|member: String| member@) == rostered(
            old(roster)@.map_values(|member: String| member@),
            members@.map_values(|member: String| member@),
        ),
        moved == (final(roster)@.map_values(|member: String| member@) != old(roster)@.map_values(
            |member: String| member@,
        )),
{
    let ghost before = roster@.map_values(|member: String| member@);
    let ghost wanted = members@.map_values(|member: String| member@);
    let ghost stays = |member: Seq<char>| wanted.contains(member);
    let ghost arrives = |member: Seq<char>| !before.contains(member);
    let mut next: Vec<String> = Vec::new();
    let mut moved = false;
    let mut index: usize = 0;
    proof {
        reveal(Seq::filter);
        assert(next@.map_values(|member: String| member@) =~= before.take(0).filter(stays));
    }
    while index < roster.len()
        invariant
            *roster == *old(roster),
            before == roster@.map_values(|member: String| member@),
            wanted == members@.map_values(|member: String| member@),
            stays == (|member: Seq<char>| wanted.contains(member)),
            index <= roster@.len(),
            next@.map_values(|member: String| member@) == before.take(index as int).filter(stays),
            !moved ==> before.take(index as int).filter(stays) == before.take(index as int),
            moved ==> before.take(index as int).filter(stays).len() < index,
            before.take(index as int).filter(stays).len() <= index,
        decreases roster@.len() - index,
    {
        let ghost so_far = next@;
        let ghost member = before[index as int];
        let here = holds(members, &roster[index]);
        if here {
            next.push(roster[index].clone());
        } else {
            moved = true;
        }
        proof {
            reveal(Seq::filter);
            let longer = before.take(index + 1);
            assert(longer.drop_last() =~= before.take(index as int));
            assert(longer.last() == member);
            assert(before.take(index + 1) =~= before.take(index as int).push(member));
            if here {
                assert(next@.map_values(|member: String| member@) =~= so_far.map_values(
                    |member: String| member@,
                ).push(member));
            }
        }
        index = index + 1;
    }
    let ghost kept = before.filter(stays);
    proof {
        assert(before.take(index as int) =~= before);
        assert(wanted.take(0) =~= Seq::empty());
        reveal(Seq::filter);
        assert(kept + wanted.take(0).filter(arrives) =~= kept);
    }
    let ghost dropped = moved;
    let mut place: usize = 0;
    while place < members.len()
        invariant
            *roster == *old(roster),
            before == roster@.map_values(|member: String| member@),
            wanted == members@.map_values(|member: String| member@),
            arrives == (|member: Seq<char>| !before.contains(member)),
            place <= members@.len(),
            next@.map_values(|member: String| member@) == kept + wanted.take(place as int).filter(
                arrives,
            ),
            moved == (dropped || wanted.take(place as int).filter(arrives).len() > 0),
        decreases members@.len() - place,
    {
        let ghost so_far = next@;
        let ghost member = wanted[place as int];
        let known = holds(roster, &members[place]);
        if !known {
            next.push(members[place].clone());
            moved = true;
        }
        proof {
            reveal(Seq::filter);
            let longer = wanted.take(place + 1);
            assert(longer.drop_last() =~= wanted.take(place as int));
            assert(longer.last() == member);
            if !known {
                assert(next@.map_values(|member: String| member@) =~= so_far.map_values(
                    |member: String| member@,
                ).push(member));
                assert((kept + wanted.take(place as int).filter(arrives)).push(member) =~= kept
                    + wanted.take(place as int).filter(arrives).push(member));
            }
        }
        place = place + 1;
    }
    proof {
        assert(wanted.take(place as int) =~= wanted);
        let arrived = wanted.filter(arrives);
        assert(before.filter(|member: Seq<char>| wanted.contains(member)) == kept);
        if !moved {
            assert(kept + arrived =~= before);
        } else if arrived.len() > 0 {
            // A new member was not there before.
            let at = kept.len() as int;
            assert((kept + arrived)[at] == arrived[0]);
            filter_keeps_what_matches(wanted, arrives);
            assert(arrives(arrived[0]));
            if kept + arrived == before {
                assert(before[at] == arrived[0]);
                assert(before.contains(arrived[0]));
            }
        } else {
            assert(kept + arrived =~= kept);
        }
    }
    *roster = next;
    moved
}

impl<K: OrderedKey, T: Datum> BoundaryShell<K, T> {
    /// The cell, over key and payload views.
    pub closed spec fn state(&self) -> BoundaryCellState<K::V, T::V> {
        BoundaryCellState {
            core: self.core@,
            projection: self.projection@,
            projection_slot: self.projection_slot,
            members: self.members@.map_values(|member: String| member@),
            members_slot: self.members_slot,
            readiness: self.readiness@,
            authority: self.authority@,
            freshness: self.freshness@,
            membership: self.membership@,
            delivery_converged: self.delivery_converged@,
            validation: self.validation@,
            effect_intent: self.effect_intent@,
        }
    }

    /// The cell is one that the operations can reach: what is published is what the
    /// boundary knows.
    pub closed spec fn wf(&self) -> bool {
        &&& self.core.wf()
        &&& self.projection.wf()
        &&& self.projection@ == projected::<K, T::V>(self.core@)
    }

    /// What well-formedness says to a caller.
    pub proof fn wf_facts(&self)
        requires
            self.wf(),
        ensures
            self.state().core.wf(),
            self.state().projection == projected::<K, T::V>(self.state().core),
    {
        self.core.wf_facts();
    }

    /// A detached boundary.
    pub fn new<G: ReactiveGraph>(ctx: &mut G, boundary: BoundaryIngressConfig) -> (cell: Self)
        requires
            old(ctx).wf(),
        ensures
            final(ctx).wf(),
            cell.wf(),
            cell.state().on(final(ctx).ledger()),
            final(ctx).ledger() == framed(old(ctx).ledger()),
            cell.state().core == BoundaryState::<K::V, T::V>::detached(boundary),
            cell.state().projection == projected::<K, T::V>(
                BoundaryState::<K::V, T::V>::detached(boundary),
            ),
            cell.state().projection_slot.index == old(ctx).ledger().slots.len(),
            cell.state().members == Seq::<Seq<char>>::empty(),
            cell.state().readiness.cached is None,
            cell.state().authority.cached is None,
            cell.state().freshness.cached is None,
            cell.state().membership.cached is None,
            cell.state().delivery_converged.cached is None,
            cell.state().validation.cached is None,
            cell.state().effect_intent.cached is None,
    {
        let core = BoundaryIngressCore::<K, T>::new(boundary);
        let projection = core.projection();
        let ghost first = ctx.ledger().slots.len() as int;
        proof {
            assert(Seq::<SlotId>::empty().map_values(|slot: SlotId| slot.index as int)
                =~= Seq::<int>::empty());
        }
        let projection_slot = ctx.allocate(Vec::new());
        let members_slot = ctx.allocate(Vec::new());
        let cell = BoundaryShell {
            core,
            projection,
            projection_slot,
            members: Vec::new(),
            members_slot,
            readiness: Memo::new(ctx, one_slot(projection_slot)),
            authority: Memo::new(ctx, one_slot(projection_slot)),
            freshness: Memo::new(ctx, one_slot(projection_slot)),
            membership: Memo::new(ctx, one_slot(members_slot)),
            delivery_converged: Memo::new(ctx, one_slot(projection_slot)),
            validation: Memo::new(ctx, one_slot(projection_slot)),
            effect_intent: Memo::new(ctx, one_slot(projection_slot)),
        };
        proof {
            assert(cell.state().members =~= Seq::<Seq<char>>::empty());
        }
        cell
    }

    /// Carries out some value-plane actions in order.
    fn act<G: ReactiveGraph, M: MergePolicy<T>>(
        ctx: &mut G,
        ingress: &mut IngressShell<K, T, M>,
        actions: Vec<BoundaryIngressAction<K, T>>,
    )
        requires
            old(ctx).wf(),
            old(ingress).wf(),
            old(ingress).state().on(old(ctx).ledger()),
            actions_fit::<K::V, T, M>(
                old(ingress).state(),
                old(ctx).ledger(),
                actions@.map_values(|action: BoundaryIngressAction<K, T>| action@),
            ),
        ensures
            final(ctx).wf(),
            final(ingress).wf(),
            final(ingress).state().on(final(ctx).ledger()),
            (final(ingress).state(), final(ctx).ledger()) == acted::<K::V, T, M>(
                old(ingress).state(),
                old(ctx).ledger(),
                actions@.map_values(|action: BoundaryIngressAction<K, T>| action@),
            ),
    {
        let ghost items = actions@;
        let ghost all = items.map_values(|action: BoundaryIngressAction<K, T>| action@);
        let ghost start = ingress.state();
        let ghost ledger = ctx.ledger();
        proof {
            assert(all.take(0) =~= Seq::empty());
        }
        for action in iter: actions
            invariant
                iter.seq() == items,
                all == items.map_values(|action: BoundaryIngressAction<K, T>| action@),
                ctx.wf(),
                ingress.wf(),
                ingress.state().on(ctx.ledger()),
                actions_fit::<K::V, T, M>(start, ledger, all),
                (ingress.state(), ctx.ledger()) == acted::<K::V, T, M>(
                    start,
                    ledger,
                    all.take(iter.index() as int),
                ),
        {
            let ghost at = iter.index() as int;
            proof {
                assert(all[at] == action@);
                let longer = all.take(at + 1);
                assert(longer.drop_last() =~= all.take(at));
                assert(longer.last() == all[at]);
            }
            match action {
                BoundaryIngressAction::Admit(envelope) => {
                    let _outcome = ingress.admit_envelope(ctx, envelope);
                },
                BoundaryIngressAction::Close(key) => {
                    ingress.close(ctx, &key);
                },
            }
        }
        proof {
            assert(all.take(items.len() as int) =~= all);
        }
    }

    /// Brings the members in line, publishes an observation and closes the batch.
    fn publish<G: ReactiveGraph>(&mut self, ctx: &mut G, projection: BoundaryIngressProjection<K>)
        requires
            old(ctx).wf(),
            old(self).state().on(old(ctx).ledger()),
            old(ctx).ledger().depth > 0,
        ensures
            final(ctx).wf(),
            final(self).core == old(self).core,
            final(self).projection == projection,
            final(self).state() == (BoundaryCellState {
                projection: projection@,
                members: rostered(old(self).state().members, projection@.members),
                ..old(self).state()
            }),
            final(ctx).ledger() == old(ctx).ledger().cleared(
                with_root(
                    Set::empty(),
                    final(self).state().members != old(self).state().members,
                    old(self).state().members_slot,
                ),
            ).cleared(
                Set::<int>::empty().insert(old(self).state().projection_slot.index as int),
            ).finished(),
            final(ctx).ledger().extends(old(ctx).ledger()),
    {
        let ghost facts = projection@;
        let moved = bring_in_line(&mut self.members, &projection.members);
        clear_marked(ctx, moved, self.members_slot);
        // Every published observation has a revision of its own, so this is a write.
        self.projection = projection;
        clear_marked(ctx, true, self.projection_slot);
        let ghost held = ctx.ledger();
        ctx.finish_batch();
        proof {
            assert(self.state() =~= BoundaryCellState {
                projection: facts,
                members: rostered(old(self).state().members, facts.members),
                ..old(self).state()
            });
            finishing_extends(held);
        }
    }

    /// Publishes one transition, all in one batch.
    fn settle<G: ReactiveGraph, M: MergePolicy<T>>(
        &mut self,
        ctx: &mut G,
        ingress: &mut IngressShell<K, T, M>,
        actions: Vec<BoundaryIngressAction<K, T>>,
        changed: bool,
    )
        requires
            old(ctx).wf(),
            old(self).core.wf(),
            old(self).projection.wf(),
            !changed && actions@.len() == 0 ==> old(self).projection@ == projected::<K, T::V>(
                old(self).core@,
            ),
            old(ingress).wf(),
            old(self).state().on(old(ctx).ledger()),
            old(ingress).state().on(old(ctx).ledger()),
            old(ctx).ledger().depth < usize::MAX,
            actions_fit::<K::V, T, M>(
                old(ingress).state(),
                old(ctx).ledger().begun(),
                actions@.map_values(|action: BoundaryIngressAction<K, T>| action@),
            ),
        ensures
            final(ctx).wf(),
            final(self).wf(),
            final(ingress).wf(),
            final(self).state().on(final(ctx).ledger()),
            final(ingress).state().on(final(ctx).ledger()),
            (final(self).state(), final(ingress).state(), final(ctx).ledger()) == settled::<K, T, M>(
                old(self).state(),
                old(ingress).state(),
                old(ctx).ledger(),
                old(self).state().core,
                actions@.map_values(|action: BoundaryIngressAction<K, T>| action@),
                changed,
            ),
    {
        let ghost ledger = ctx.ledger();
        let ghost cell = self.state();
        let ghost todo = actions@.map_values(|action: BoundaryIngressAction<K, T>| action@);
        if !changed && actions.len() == 0 {
            proof {
                assert(self.state() =~= cell.over(cell.core));
            }
            return;
        }
        let projection = self.core.projection();
        ctx.begin_batch();
        proof {
            a_cell_stays_on_its_ledger(ingress.state(), ledger, ctx.ledger());
        }
        Self::act(ctx, ingress, actions);
        let ghost here = ctx.ledger();
        proof {
            acting_extends::<K::V, T, M>(old(ingress).state(), ledger.begun(), todo);
            cell.stays_on(ledger, here);
        }
        self.publish(ctx, projection);
        proof {
            let after = ctx.ledger();
            a_cell_stays_on_its_ledger(ingress.state(), here, after);
            cell.stays_on(here, after);
        }
    }

    /// Starts or hot-restarts the subscription generation.
    pub fn subscribe<G: ReactiveGraph, M: MergePolicy<T>>(
        &mut self,
        ctx: &mut G,
        ingress: &mut IngressShell<K, T, M>,
        generation: u64,
    )
        requires
            old(ctx).wf(),
            old(self).wf(),
            old(ingress).wf(),
            old(self).state().on(old(ctx).ledger()),
            old(ingress).state().on(old(ctx).ledger()),
            old(ctx).ledger().depth < usize::MAX,
        ensures
            final(ctx).wf(),
            final(self).wf(),
            final(ingress).wf(),
            final(self).state().on(final(ctx).ledger()),
            final(ingress).state().on(final(ctx).ledger()),
            (final(self).state(), final(ingress).state(), final(ctx).ledger()) == settled::<K, T, M>(
                old(self).state(),
                old(ingress).state(),
                old(ctx).ledger(),
                old(self).state().core.subscribed(generation).0,
                Seq::empty(),
                old(self).state().core.subscribed(generation).1,
            ),
    {
        let transition = self.core.subscribe(generation);
        proof {
            assert(self.state() =~= old(self).state().over(self.core@));
        }
        self.settle(ctx, ingress, transition.actions, transition.changed);
    }

    /// Atomically installs a covering snapshot and buffered successors.
    pub fn apply_snapshot<G: ReactiveGraph, M: MergePolicy<T>>(
        &mut self,
        ctx: &mut G,
        ingress: &mut IngressShell<K, T, M>,
        snapshot: BoundaryIngressSnapshot<K, T>,
    )
        requires
            old(ctx).wf(),
            old(self).wf(),
            old(ingress).wf(),
            old(self).state().on(old(ctx).ledger()),
            old(ingress).state().on(old(ctx).ledger()),
            old(ctx).ledger().depth < usize::MAX,
            snapshot.cursor < u64::MAX || snapshot.generation
                < old(self).state().core.generation,
            actions_fit::<K::V, T, M>(
                old(ingress).state(),
                old(ctx).ledger().begun(),
                installed::<K, T::V>(old(self).state().core, snapshot@).1.actions,
            ),
        ensures
            final(ctx).wf(),
            final(self).wf(),
            final(ingress).wf(),
            final(self).state().on(final(ctx).ledger()),
            final(ingress).state().on(final(ctx).ledger()),
            (final(self).state(), final(ingress).state(), final(ctx).ledger()) == settled::<K, T, M>(
                old(self).state(),
                old(ingress).state(),
                old(ctx).ledger(),
                installed::<K, T::V>(old(self).state().core, snapshot@).0,
                installed::<K, T::V>(old(self).state().core, snapshot@).1.actions,
                installed::<K, T::V>(old(self).state().core, snapshot@).1.changed,
            ),
    {
        let transition = self.core.apply_snapshot(snapshot);
        proof {
            assert(self.state() =~= old(self).state().over(self.core@));
        }
        self.settle(ctx, ingress, transition.actions, transition.changed);
    }

    /// Publishes one event-channel frame.
    pub fn apply_event<G: ReactiveGraph, M: MergePolicy<T>>(
        &mut self,
        ctx: &mut G,
        ingress: &mut IngressShell<K, T, M>,
        event: BoundaryIngressEvent<K, T>,
    )
        requires
            old(ctx).wf(),
            old(self).wf(),
            old(ingress).wf(),
            old(self).state().on(old(ctx).ledger()),
            old(ingress).state().on(old(ctx).ledger()),
            old(ctx).ledger().depth < usize::MAX,
            event.cursor < u64::MAX || event.generation < old(self).state().core.generation,
            actions_fit::<K::V, T, M>(
                old(ingress).state(),
                old(ctx).ledger().begun(),
                old(self).state().core.received(event@).1.actions,
            ),
        ensures
            final(ctx).wf(),
            final(self).wf(),
            final(ingress).wf(),
            final(self).state().on(final(ctx).ledger()),
            final(ingress).state().on(final(ctx).ledger()),
            (final(self).state(), final(ingress).state(), final(ctx).ledger()) == settled::<K, T, M>(
                old(self).state(),
                old(ingress).state(),
                old(ctx).ledger(),
                old(self).state().core.received(event@).0,
                old(self).state().core.received(event@).1.actions,
                old(self).state().core.received(event@).1.changed,
            ),
    {
        let transition = self.core.apply_event(event);
        proof {
            if !transition.changed {
                assert(self.core@.buffered.dom() =~= old(self).core@.buffered.dom());
            }
            assert(self.state() =~= old(self).state().over(self.core@));
        }
        self.settle(ctx, ingress, transition.actions, transition.changed);
    }

    /// Publishes a member-join fact.
    pub fn member_join<G: ReactiveGraph, M: MergePolicy<T>>(
        &mut self,
        ctx: &mut G,
        ingress: &mut IngressShell<K, T, M>,
        member: String,
    )
        requires
            old(ctx).wf(),
            old(self).wf(),
            old(ingress).wf(),
            old(self).state().on(old(ctx).ledger()),
            old(ingress).state().on(old(ctx).ledger()),
            old(ctx).ledger().depth < usize::MAX,
        ensures
            final(ctx).wf(),
            final(self).wf(),
            final(ingress).wf(),
            final(self).state().on(final(ctx).ledger()),
            final(ingress).state().on(final(ctx).ledger()),
            (final(self).state(), final(ingress).state(), final(ctx).ledger()) == settled::<K, T, M>(
                old(self).state(),
                old(ingress).state(),
                old(ctx).ledger(),
                old(self).state().core.joined(member@).0,
                Seq::empty(),
                old(self).state().core.joined(member@).1,
            ),
    {
        let changed = self.core.member_join(member);
        proof {
            assert(self.state() =~= old(self).state().over(self.core@));
        }
        let actions: Vec<BoundaryIngressAction<K, T>> = Vec::new();
        proof {
            assert(actions@.map_values(|action: BoundaryIngressAction<K, T>| action@)
                =~= Seq::<BoundaryIngressAction<K::V, T::V>>::empty());
        }
        self.settle(ctx, ingress, actions, changed);
    }

    /// Publishes a member-leave fact.
    pub fn member_leave<G: ReactiveGraph, M: MergePolicy<T>>(
        &mut self,
        ctx: &mut G,
        ingress: &mut IngressShell<K, T, M>,
        member: &str,
    )
        requires
            old(ctx).wf(),
            old(self).wf(),
            old(ingress).wf(),
            old(self).state().on(old(ctx).ledger()),
            old(ingress).state().on(old(ctx).ledger()),
            old(ctx).ledger().depth < usize::MAX,
        ensures
            final(ctx).wf(),
            final(self).wf(),
            final(ingress).wf(),
            final(self).state().on(final(ctx).ledger()),
            final(ingress).state().on(final(ctx).ledger()),
            (final(self).state(), final(ingress).state(), final(ctx).ledger()) == settled::<K, T, M>(
                old(self).state(),
                old(ingress).state(),
                old(ctx).ledger(),
                old(self).state().core.left(member@).0,
                Seq::empty(),
                old(self).state().core.left(member@).1,
            ),
    {
        let changed = self.core.member_leave(member);
        proof {
            assert(self.state() =~= old(self).state().over(self.core@));
        }
        let actions: Vec<BoundaryIngressAction<K, T>> = Vec::new();
        proof {
            assert(actions@.map_values(|action: BoundaryIngressAction<K, T>| action@)
                =~= Seq::<BoundaryIngressAction<K::V, T::V>>::empty());
        }
        self.settle(ctx, ingress, actions, changed);
    }

    /// Opens one durable delivery receipt.
    pub fn open_delivery<G: ReactiveGraph, M: MergePolicy<T>>(
        &mut self,
        ctx: &mut G,
        ingress: &mut IngressShell<K, T, M>,
        receipt_id: String,
    )
        requires
            old(ctx).wf(),
            old(self).wf(),
            old(ingress).wf(),
            old(self).state().on(old(ctx).ledger()),
            old(ingress).state().on(old(ctx).ledger()),
            old(ctx).ledger().depth < usize::MAX,
        ensures
            final(ctx).wf(),
            final(self).wf(),
            final(ingress).wf(),
            final(self).state().on(final(ctx).ledger()),
            final(ingress).state().on(final(ctx).ledger()),
            (final(self).state(), final(ingress).state(), final(ctx).ledger()) == settled::<K, T, M>(
                old(self).state(),
                old(ingress).state(),
                old(ctx).ledger(),
                old(self).state().core.delivering(receipt_id@).0,
                Seq::empty(),
                old(self).state().core.delivering(receipt_id@).1,
            ),
    {
        let changed = self.core.open_delivery(receipt_id);
        proof {
            assert(self.state() =~= old(self).state().over(self.core@));
        }
        let actions: Vec<BoundaryIngressAction<K, T>> = Vec::new();
        proof {
            assert(actions@.map_values(|action: BoundaryIngressAction<K, T>| action@)
                =~= Seq::<BoundaryIngressAction<K::V, T::V>>::empty());
        }
        self.settle(ctx, ingress, actions, changed);
    }

    /// Folds in one idempotent acknowledgement receipt.
    pub fn acknowledge<G: ReactiveGraph, M: MergePolicy<T>>(
        &mut self,
        ctx: &mut G,
        ingress: &mut IngressShell<K, T, M>,
        receipt_id: &str,
        member: &str,
    )
        requires
            old(ctx).wf(),
            old(self).wf(),
            old(ingress).wf(),
            old(self).state().on(old(ctx).ledger()),
            old(ingress).state().on(old(ctx).ledger()),
            old(ctx).ledger().depth < usize::MAX,
        ensures
            final(ctx).wf(),
            final(self).wf(),
            final(ingress).wf(),
            final(self).state().on(final(ctx).ledger()),
            final(ingress).state().on(final(ctx).ledger()),
            (final(self).state(), final(ingress).state(), final(ctx).ledger()) == settled::<K, T, M>(
                old(self).state(),
                old(ingress).state(),
                old(ctx).ledger(),
                old(self).state().core.acknowledged(receipt_id@, member@).0,
                Seq::empty(),
                old(self).state().core.acknowledged(receipt_id@, member@).1,
            ),
    {
        let changed = self.core.acknowledge(receipt_id, member);
        proof {
            assert(self.state() =~= old(self).state().over(self.core@));
        }
        let actions: Vec<BoundaryIngressAction<K, T>> = Vec::new();
        proof {
            assert(actions@.map_values(|action: BoundaryIngressAction<K, T>| action@)
                =~= Seq::<BoundaryIngressAction<K::V, T::V>>::empty());
        }
        self.settle(ctx, ingress, actions, changed);
    }

    /// Advances logical time.
    pub fn tick<G: ReactiveGraph, M: MergePolicy<T>>(
        &mut self,
        ctx: &mut G,
        ingress: &mut IngressShell<K, T, M>,
        now: u64,
    )
        requires
            old(ctx).wf(),
            old(self).wf(),
            old(ingress).wf(),
            old(self).state().on(old(ctx).ledger()),
            old(ingress).state().on(old(ctx).ledger()),
            old(ctx).ledger().depth < usize::MAX,
        ensures
            final(ctx).wf(),
            final(self).wf(),
            final(ingress).wf(),
            final(self).state().on(final(ctx).ledger()),
            final(ingress).state().on(final(ctx).ledger()),
            (final(self).state(), final(ingress).state(), final(ctx).ledger()) == settled::<K, T, M>(
                old(self).state(),
                old(ingress).state(),
                old(ctx).ledger(),
                old(self).state().core.ticked(now).0,
                Seq::empty(),
                old(self).state().core.ticked(now).1,
            ),
    {
        let changed = self.core.tick(now);
        proof {
            assert(self.state() =~= old(self).state().over(self.core@));
        }
        let actions: Vec<BoundaryIngressAction<K, T>> = Vec::new();
        proof {
            assert(actions@.map_values(|action: BoundaryIngressAction<K, T>| action@)
                =~= Seq::<BoundaryIngressAction<K::V, T::V>>::empty());
        }
        self.settle(ctx, ingress, actions, changed);
    }

    /// Reads the published observation.
    pub fn projection(&self) -> (projection: BoundaryIngressProjection<K>)
        requires
            self.wf(),
        ensures
            projection.wf(),
            projection@ == self.state().projection,
    {
        self.projection.duplicate()
    }

    /// Reads the phase of the published observation.
    pub fn phase(&self) -> (phase: BoundaryIngressPhase)
        ensures
            phase == self.state().projection.phase,
    {
        self.projection.phase
    }

    /// The slot of the published observation.
    pub fn projection_slot(&self) -> (slot: SlotId)
        ensures
            slot == self.state().projection_slot,
    {
        self.projection_slot
    }

    /// Reads derived readiness.
    pub fn readiness<G: ReactiveGraph>(
        &mut self,
        ctx: &mut G,
    ) -> (readiness: BoundaryIngressReadiness)
        requires
            old(ctx).wf(),
            old(self).wf(),
            old(self).state().on(old(ctx).ledger()),
        ensures
            final(ctx).wf(),
            final(self).wf(),
            final(self).state().on(final(ctx).ledger()),
            ({
                let shown = old(self).state().readiness.shows(
                    old(ctx).ledger(),
                    old(self).state().projection.ready(),
                );
                &&& readiness == shown
                &&& final(self).state() == (BoundaryCellState {
                    readiness: old(self).state().readiness.showing(shown),
                    ..old(self).state()
                })
                &&& final(ctx).ledger() == old(ctx).ledger().settled(
                    old(self).state().readiness.slot,
                )
            }),
    {
        let ghost start = self.state();
        let ghost ledger = ctx.ledger();
        match self.readiness.cached(ctx) {
            Some(shown) => {
                proof {
                    assert(shown@ == start.readiness.shows(ledger, start.projection.ready()));
                    assert(start =~= BoundaryCellState {
                        readiness: start.readiness.showing(shown@),
                        ..start
                    });
                }
                shown
            },
            None => {
                let derived = self.projection.readiness();
                let shown = self.readiness.store(ctx, derived);
                proof {
                    assert(self.state() =~= BoundaryCellState {
                        readiness: start.readiness.showing(shown@),
                        ..start
                    });
                    start.stays_on(ledger, ledger.settled(start.readiness.slot));
                }
                shown
            },
        }
    }

    /// The slot of the `readiness` reader.
    pub fn readiness_slot(&self) -> (slot: SlotId)
        ensures
            slot == self.state().readiness.slot,
    {
        self.readiness.id()
    }

    /// Reads derived authority.
    pub fn authority<G: ReactiveGraph>(
        &mut self,
        ctx: &mut G,
    ) -> (authority: Option<BoundaryIngressAuthority>)
        requires
            old(ctx).wf(),
            old(self).wf(),
            old(self).state().on(old(ctx).ledger()),
        ensures
            final(ctx).wf(),
            final(self).wf(),
            final(self).state().on(final(ctx).ledger()),
            ({
                let shown = old(self).state().authority.shows(
                    old(ctx).ledger(),
                    old(self).state().projection.claims(),
                );
                &&& authority == shown
                &&& final(self).state() == (BoundaryCellState {
                    authority: old(self).state().authority.showing(shown),
                    ..old(self).state()
                })
                &&& final(ctx).ledger() == old(ctx).ledger().settled(
                    old(self).state().authority.slot,
                )
            }),
    {
        let ghost start = self.state();
        let ghost ledger = ctx.ledger();
        match self.authority.cached(ctx) {
            Some(shown) => {
                proof {
                    assert(shown@ == start.authority.shows(ledger, start.projection.claims()));
                    assert(start =~= BoundaryCellState {
                        authority: start.authority.showing(shown@),
                        ..start
                    });
                }
                shown
            },
            None => {
                let derived = self.projection.authority();
                let shown = self.authority.store(ctx, derived);
                proof {
                    assert(self.state() =~= BoundaryCellState {
                        authority: start.authority.showing(shown@),
                        ..start
                    });
                    start.stays_on(ledger, ledger.settled(start.authority.slot));
                }
                shown
            },
        }
    }

    /// The slot of the `authority` reader.
    pub fn authority_slot(&self) -> (slot: SlotId)
        ensures
            slot == self.state().authority.slot,
    {
        self.authority.id()
    }

    /// Reads derived freshness.
    pub fn freshness<G: ReactiveGraph>(&mut self, ctx: &mut G) -> (freshness: BoundaryFreshness)
        requires
            old(ctx).wf(),
            old(self).wf(),
            old(self).state().on(old(ctx).ledger()),
        ensures
            final(ctx).wf(),
            final(self).wf(),
            final(self).state().on(final(ctx).ledger()),
            ({
                let shown = old(self).state().freshness.shows(
                    old(ctx).ledger(),
                    old(self).state().projection.freshness,
                );
                &&& freshness == shown
                &&& final(self).state() == (BoundaryCellState {
                    freshness: old(self).state().freshness.showing(shown),
                    ..old(self).state()
                })
                &&& final(ctx).ledger() == old(ctx).ledger().settled(
                    old(self).state().freshness.slot,
                )
            }),
    {
        let ghost start = self.state();
        let ghost ledger = ctx.ledger();
        match self.freshness.cached(ctx) {
            Some(shown) => {
                proof {
                    assert(shown@ == start.freshness.shows(ledger, start.projection.freshness));
                    assert(start =~= BoundaryCellState {
                        freshness: start.freshness.showing(shown@),
                        ..start
                    });
                }
                shown
            },
            None => {
                let derived = self.projection.freshness;
                let shown = self.freshness.store(ctx, derived);
                proof {
                    assert(self.state() =~= BoundaryCellState {
                        freshness: start.freshness.showing(shown@),
                        ..start
                    });
                    start.stays_on(ledger, ledger.settled(start.freshness.slot));
                }
                shown
            },
        }
    }

    /// The slot of the `freshness` reader.
    pub fn freshness_slot(&self) -> (slot: SlotId)
        ensures
            slot == self.state().freshness.slot,
    {
        self.freshness.id()
    }

    /// Reads the members, in order of appearance.
    pub fn membership<G: ReactiveGraph>(&mut self, ctx: &mut G) -> (members: Vec<String>)
        requires
            old(ctx).wf(),
            old(self).wf(),
            old(self).state().on(old(ctx).ledger()),
        ensures
            final(ctx).wf(),
            final(self).wf(),
            final(self).state().on(final(ctx).ledger()),
            ({
                let shown = old(self).state().membership.shows(
                    old(ctx).ledger(),
                    old(self).state().members,
                );
                &&& members@.map_values(|member: String| member@) == shown
                &&& final(self).state() == (BoundaryCellState {
                    membership: old(self).state().membership.showing(shown),
                    ..old(self).state()
                })
                &&& final(ctx).ledger() == old(ctx).ledger().settled(
                    old(self).state().membership.slot,
                )
            }),
    {
        let ghost start = self.state();
        let ghost ledger = ctx.ledger();
        match self.membership.cached(ctx) {
            Some(shown) => {
                proof {
                    assert(shown@ == start.membership.shows(ledger, start.members));
                    assert(start =~= BoundaryCellState {
                        membership: start.membership.showing(shown@),
                        ..start
                    });
                }
                shown.items
            },
            None => {
                let derived = Listing { items: copies(&self.members) };
                let shown = self.membership.store(ctx, derived);
                proof {
                    assert(self.state() =~= BoundaryCellState {
                        membership: start.membership.showing(shown@),
                        ..start
                    });
                    start.stays_on(ledger, ledger.settled(start.membership.slot));
                }
                shown.items
            },
        }
    }

    /// The slot of the `membership` reader.
    pub fn membership_slot(&self) -> (slot: SlotId)
        ensures
            slot == self.state().membership.slot,
    {
        self.membership.id()
    }

    /// Reads whether the active delivery has converged.
    pub fn delivery_converged<G: ReactiveGraph>(&mut self, ctx: &mut G) -> (answer: bool)
        requires
            old(ctx).wf(),
            old(self).wf(),
            old(self).state().on(old(ctx).ledger()),
        ensures
            final(ctx).wf(),
            final(self).wf(),
            final(self).state().on(final(ctx).ledger()),
            ({
                let shown = old(self).state().delivery_converged.shows(
                    old(ctx).ledger(),
                    old(self).state().projection.settled(),
                );
                &&& answer == shown
                &&& final(self).state() == (BoundaryCellState {
                    delivery_converged: old(self).state().delivery_converged.showing(shown),
                    ..old(self).state()
                })
                &&& final(ctx).ledger() == old(ctx).ledger().settled(
                    old(self).state().delivery_converged.slot,
                )
            }),
    {
        let ghost start = self.state();
        let ghost ledger = ctx.ledger();
        match self.delivery_converged.cached(ctx) {
            Some(shown) => {
                proof {
                    assert(shown@ == start.delivery_converged.shows(ledger, start.projection.settled()));
                    assert(start =~= BoundaryCellState {
                        delivery_converged: start.delivery_converged.showing(shown@),
                        ..start
                    });
                }
                shown
            },
            None => {
                let derived = self.projection.delivery_converged();
                let shown = self.delivery_converged.store(ctx, derived);
                proof {
                    assert(self.state() =~= BoundaryCellState {
                        delivery_converged: start.delivery_converged.showing(shown@),
                        ..start
                    });
                    start.stays_on(ledger, ledger.settled(start.delivery_converged.slot));
                }
                shown
            },
        }
    }

    /// The slot of the `delivery_converged` reader.
    pub fn delivery_converged_slot(&self) -> (slot: SlotId)
        ensures
            slot == self.state().delivery_converged.slot,
    {
        self.delivery_converged.id()
    }

    /// Reads structural validation.
    pub fn validation<G: ReactiveGraph>(&mut self, ctx: &mut G) -> (validation: BoundaryValidation)
        requires
            old(ctx).wf(),
            old(self).wf(),
            old(self).state().on(old(ctx).ledger()),
        ensures
            final(ctx).wf(),
            final(self).wf(),
            final(self).state().on(final(ctx).ledger()),
            ({
                let shown = old(self).state().validation.shows(
                    old(ctx).ledger(),
                    old(self).state().projection.validation,
                );
                &&& validation == shown
                &&& final(self).state() == (BoundaryCellState {
                    validation: old(self).state().validation.showing(shown),
                    ..old(self).state()
                })
                &&& final(ctx).ledger() == old(ctx).ledger().settled(
                    old(self).state().validation.slot,
                )
            }),
    {
        let ghost start = self.state();
        let ghost ledger = ctx.ledger();
        match self.validation.cached(ctx) {
            Some(shown) => {
                proof {
                    assert(shown@ == start.validation.shows(ledger, start.projection.validation));
                    assert(start =~= BoundaryCellState {
                        validation: start.validation.showing(shown@),
                        ..start
                    });
                }
                shown
            },
            None => {
                let derived = self.projection.validation;
                let shown = self.validation.store(ctx, derived);
                proof {
                    assert(self.state() =~= BoundaryCellState {
                        validation: start.validation.showing(shown@),
                        ..start
                    });
                    start.stays_on(ledger, ledger.settled(start.validation.slot));
                }
                shown
            },
        }
    }

    /// The slot of the `validation` reader.
    pub fn validation_slot(&self) -> (slot: SlotId)
        ensures
            slot == self.state().validation.slot,
    {
        self.validation.id()
    }

    /// Reads the derived effect intent.
    pub fn effect_intent<G: ReactiveGraph>(
        &mut self,
        ctx: &mut G,
    ) -> (intent: BoundaryIngressEffectIntent)
        requires
            old(ctx).wf(),
            old(self).wf(),
            old(self).state().on(old(ctx).ledger()),
        ensures
            final(ctx).wf(),
            final(self).wf(),
            final(self).state().on(final(ctx).ledger()),
            ({
                let shown = old(self).state().effect_intent.shows(
                    old(ctx).ledger(),
                    old(self).state().projection.intends(),
                );
                &&& intent == shown
                &&& final(self).state() == (BoundaryCellState {
                    effect_intent: old(self).state().effect_intent.showing(shown),
                    ..old(self).state()
                })
                &&& final(ctx).ledger() == old(ctx).ledger().settled(
                    old(self).state().effect_intent.slot,
                )
            }),
    {
        let ghost start = self.state();
        let ghost ledger = ctx.ledger();
        match self.effect_intent.cached(ctx) {
            Some(shown) => {
                proof {
                    assert(shown@ == start.effect_intent.shows(ledger, start.projection.intends()));
                    assert(start =~= BoundaryCellState {
                        effect_intent: start.effect_intent.showing(shown@),
                        ..start
                    });
                }
                shown
            },
            None => {
                let derived = self.projection.effect_intent();
                let shown = self.effect_intent.store(ctx, derived);
                proof {
                    assert(self.state() =~= BoundaryCellState {
                        effect_intent: start.effect_intent.showing(shown@),
                        ..start
                    });
                    start.stays_on(ledger, ledger.settled(start.effect_intent.slot));
                }
                shown
            },
        }
    }

    /// The slot of the `effect_intent` reader.
    pub fn effect_intent_slot(&self) -> (slot: SlotId)
        ensures
            slot == self.state().effect_intent.slot,
    {
        self.effect_intent.id()
    }
}

/// Closing a batch takes no slot away.
pub proof fn finishing_extends(ledger: Ledger)
    ensures
        ledger.finished().extends(ledger),
{
}

/// The one slot.
fn one_slot(slot: SlotId) -> (slots: Vec<SlotId>)
    ensures
        slots@ == seq![slot],
        slots@.map_values(|slot: SlotId| slot.index as int) == seq![slot.index as int],
{
    let mut slots: Vec<SlotId> = Vec::new();
    slots.push(slot);
    proof {
        assert(slots@ =~= seq![slot]);
        assert(slots@.map_values(|slot: SlotId| slot.index as int) =~= seq![slot.index as int]);
    }
    slots
}

/// Applying a change only adds slots.
pub proof fn applying_extends<Id, P>(
    cell: IngressCellState<Id, P>,
    ledger: Ledger,
    marks: IngressMarks<Id>,
)
    ensures
        cell.applied(ledger, marks).1.extends(ledger),
        cell.applied(ledger, marks).1.depth == ledger.depth,
{
    minting_extends(cell, ledger, marks.scopes);
    let grown = cell.with_marked(ledger, marks.scopes).1;
    let after = cell.applied(ledger, marks).1;
    assert(after.slots.len() == grown.slots.len());
    assert forall|at: int| 0 <= at < ledger.slots.len() implies (#[trigger] after.slots[at]).deps
        == ledger.slots[at].deps by {
        assert(grown.slots[at].deps == ledger.slots[at].deps);
        assert(after.slots[at].deps == grown.slots[at].deps);
    }
}

/// Minting readers only adds slots.
proof fn minting_extends<Id, P>(
    cell: IngressCellState<Id, P>,
    ledger: Ledger,
    marks: Seq<(Id, IngressScopeChange)>,
)
    ensures
        cell.with_marked(ledger, marks).1.extends(ledger),
        cell.with_marked(ledger, marks).1.depth == ledger.depth,
    decreases marks.len(),
{
    if marks.len() > 0 {
        minting_extends(cell, ledger, marks.drop_last());
        let here = cell.with_marked(ledger, marks.drop_last()).1;
        let after = cell.with_marked(ledger, marks).1;
        reveal_with_fuel(Ledger::grown, 5);
        assert forall|at: int| 0 <= at < ledger.slots.len() implies (
        #[trigger] after.slots[at]).deps == ledger.slots[at].deps by {
            assert(here.slots[at].deps == ledger.slots[at].deps);
        }
    }
}

/// Acting only adds slots.
pub proof fn acting_extends<Id, T: View, M: MergePolicy<T>>(
    ingress: IngressCellState<Id, T::V>,
    ledger: Ledger,
    actions: Seq<BoundaryIngressAction<Id, T::V>>,
)
    ensures
        acted::<Id, T, M>(ingress, ledger, actions).1.extends(ledger),
        acted::<Id, T, M>(ingress, ledger, actions).1.depth == ledger.depth,
    decreases actions.len(),
{
    if actions.len() > 0 {
        acting_extends::<Id, T, M>(ingress, ledger, actions.drop_last());
        let (plane, here) = acted::<Id, T, M>(ingress, ledger, actions.drop_last());
        let after = acted::<Id, T, M>(ingress, ledger, actions).1;
        match actions.last() {
            BoundaryIngressAction::Admit(envelope) => {
                let (core, marks, _) = admitted::<Id, T, M>(plane.core, envelope);
                applying_extends(plane.over(core), here, marks);
            },
            BoundaryIngressAction::Close(key) => {
                let (core, marks) = plane.core.closed(key);
                applying_extends(plane.over(core), here, marks);
            },
        }
        assert forall|at: int| 0 <= at < ledger.slots.len() implies (
        #[trigger] after.slots[at]).deps == ledger.slots[at].deps by {
            assert(here.slots[at].deps == ledger.slots[at].deps);
            assert(after.slots[at].deps == here.slots[at].deps);
        }
    }
}

} // verus!
