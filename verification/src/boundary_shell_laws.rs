//! Laws of the boundary cell: transitions are atomic, what is published is what the
//! boundary knows, and derived readers follow it.

use vstd::prelude::*;

use crate::boundary_model::{BoundaryState, projected};
use crate::boundary_shell::{
    BoundaryCellState, acted, actions_fit, depends_on, rostered, settled,
};
use crate::boundary_types::BoundaryIngressAction;
use crate::filtering::{filter_keeps_what_matches, kept_was_there};
use crate::graph::{
    Ledger, SlotId, a_dependent_is_reached_from_its_source, beginning_moves_none,
    clearing_unseats_what_it_reaches, finishing_moves_none, with_root,
};
use crate::ingress_laws::{
    admitting_keeps_the_plane_in_order, closing_keeps_the_plane_in_order,
};
use crate::ingress_model::admitted;
use crate::ingress_shell::{IngressCellState, a_cell_stays_on_its_ledger};
use crate::ingress_shell_laws::{
    admitting_keeps_the_cell_fresh, applying_keeps_earlier_slots, closing_keeps_the_cell_fresh,
    ingress_is_fresh,
};
use crate::merge::MergePolicy;
use crate::value::OrderedKey;

verus! {

/// Every derived reader whose cache stands has in it what the published observation
/// gives.
pub open spec fn boundary_is_fresh<Id, P>(cell: BoundaryCellState<Id, P>, ledger: Ledger) -> bool {
    &&& cell.readiness.fresh(ledger, cell.projection.ready())
    &&& cell.authority.fresh(ledger, cell.projection.claims())
    &&& cell.freshness.fresh(ledger, cell.projection.freshness)
    &&& cell.membership.fresh(ledger, cell.members)
    &&& cell.delivery_converged.fresh(ledger, cell.projection.settled())
    &&& cell.validation.fresh(ledger, cell.projection.validation)
    &&& cell.effect_intent.fresh(ledger, cell.projection.intends())
}

/// The value plane's actions unseat no slot before its own.
proof fn acting_keeps_earlier_slots<Id, T: View, M: MergePolicy<T>>(
    ingress: IngressCellState<Id, T::V>,
    ledger: Ledger,
    actions: Seq<BoundaryIngressAction<Id, T::V>>,
    slot: SlotId,
)
    requires
        ingress.on(ledger),
        ledger.sound(),
        slot.index < ingress.first(),
        ledger.slots.len() + 4 * actions.len() <= usize::MAX,
    ensures
        ({
            let (plane, here) = acted::<Id, T, M>(ingress, ledger, actions);
            &&& plane.on(here)
            &&& plane.first() == ingress.first()
            &&& here.sound()
            &&& here.extends(ledger)
            &&& here.depth == ledger.depth
            &&& here.slots.len() <= ledger.slots.len() + 4 * actions.len()
            &&& here.stands(slot) == ledger.stands(slot)
            &&& here.walks <= ledger.walks + actions.len()
            &&& ledger.depth > 0 ==> here.walks == ledger.walks
        }),
    decreases actions.len(),
{
    if actions.len() > 0 {
        acting_keeps_earlier_slots::<Id, T, M>(ingress, ledger, actions.drop_last(), slot);
        let (plane, here) = acted::<Id, T, M>(ingress, ledger, actions.drop_last());
        match actions.last() {
            BoundaryIngressAction::Admit(envelope) => {
                let (core, marks, _) = admitted::<Id, T, M>(plane.core, envelope);
                assert(marks.scopes.len() <= 1);
                applying_keeps_earlier_slots(plane.over(core), here, marks, slot);
            },
            BoundaryIngressAction::Close(key) => {
                let (core, marks) = plane.core.closed(key);
                assert(marks.scopes.len() <= 1);
                applying_keeps_earlier_slots(plane.over(core), here, marks, slot);
            },
        }
        let after = acted::<Id, T, M>(ingress, ledger, actions).1;
        assert forall|at: int| 0 <= at < ledger.slots.len() implies (
        #[trigger] after.slots[at]).deps == ledger.slots[at].deps by {
            assert(here.slots[at].deps == ledger.slots[at].deps);
            assert(after.slots[at].deps == here.slots[at].deps);
        }
    }
}

/// A reader that depends on one source falls in a settling exactly when that source is
/// written.
proof fn a_reader_falls_with_its_source<K: OrderedKey, T: View, M: MergePolicy<T>>(
    cell: BoundaryCellState<K::V, T::V>,
    ingress: IngressCellState<K::V, T::V>,
    ledger: Ledger,
    core: BoundaryState<K::V, T::V>,
    actions: Seq<BoundaryIngressAction<K::V, T::V>>,
    slot: SlotId,
    source: SlotId,
)
    requires
        cell.on(ledger),
        ingress.on(ledger),
        cell.effect_intent.slot.index < ingress.first(),
        ledger.sound(),
        ledger.slots.len() + 4 * actions.len() <= usize::MAX,
        source == cell.projection_slot || source == cell.members_slot,
        depends_on(ledger, slot, source),
        cell.members_slot.index < slot.index <= cell.effect_intent.slot.index,
    ensures
        ({
            let (after, plane, walked) = settled::<K, T, M>(
                cell,
                ingress,
                ledger,
                core,
                actions,
                true,
            );
            &&& walked.sound()
            &&& walked.stands(slot) == (ledger.stands(slot) && source != cell.projection_slot
                && !(source == cell.members_slot && after.members != cell.members))
            &&& ledger.depth == 0 ==> walked.walks == ledger.walks + 1
            &&& ledger.depth > 0 ==> walked.walks == ledger.walks
            &&& walked.depth == ledger.depth
        }),
{
    let begun = ledger.begun();
    beginning_moves_none(ledger, slot);
    a_cell_stays_on_its_ledger(ingress, ledger, begun);
    acting_keeps_earlier_slots::<K::V, T, M>(ingress, begun, actions, slot);
    let (plane, here) = acted::<K::V, T, M>(ingress, begun, actions);
    cell.stays_on(begun, here);
    let members = rostered(cell.members, projected::<K, T::V>(core).members);
    let first = with_root(Set::<int>::empty(), members != cell.members, cell.members_slot);
    let second = Set::<int>::empty().insert(cell.projection_slot.index as int);
    assert(here.slots[slot.index as int].deps == seq![source.index as int]);
    clearing_unseats_what_it_reaches(here, first, slot);
    a_dependent_is_reached_from_its_source(here, first, slot, source);
    let middle = here.cleared(first);
    assert(middle.slots[slot.index as int].deps == seq![source.index as int]);
    assert(middle.leaf(source));
    clearing_unseats_what_it_reaches(middle, second, slot);
    a_dependent_is_reached_from_its_source(middle, second, slot, source);
    let last = middle.cleared(second);
    finishing_moves_none(last, slot);
    assert(last.held.contains(cell.projection_slot.index as int));
    assert(last.held != Set::<int>::empty());
}

/// A transition that moves anything publishes exactly what the boundary now knows, in
/// exactly one walk: no consumer sees a torn snapshot. Every derived reader stays fresh.
pub proof fn transitions_are_atomic<K: OrderedKey, T: View, M: MergePolicy<T>>(
    cell: BoundaryCellState<K::V, T::V>,
    ingress: IngressCellState<K::V, T::V>,
    ledger: Ledger,
    core: BoundaryState<K::V, T::V>,
    actions: Seq<BoundaryIngressAction<K::V, T::V>>,
)
    requires
        cell.on(ledger),
        ingress.on(ledger),
        cell.effect_intent.slot.index < ingress.first(),
        ledger.sound(),
        ledger.slots.len() + 4 * actions.len() <= usize::MAX,
        boundary_is_fresh(cell, ledger),
    ensures
        ({
            let (after, plane, walked) = settled::<K, T, M>(
                cell,
                ingress,
                ledger,
                core,
                actions,
                true,
            );
            &&& after.projection == projected::<K, T::V>(after.core)
            &&& ledger.depth == 0 ==> walked.walks == ledger.walks + 1
            &&& ledger.depth > 0 ==> walked.walks == ledger.walks
            &&& walked.depth == ledger.depth
            &&& boundary_is_fresh(after, walked)
        }),
{
    let source = cell.projection_slot;
    a_reader_falls_with_its_source::<K, T, M>(
        cell,
        ingress,
        ledger,
        core,
        actions,
        cell.readiness.slot,
        source,
    );
    a_reader_falls_with_its_source::<K, T, M>(
        cell,
        ingress,
        ledger,
        core,
        actions,
        cell.authority.slot,
        source,
    );
    a_reader_falls_with_its_source::<K, T, M>(
        cell,
        ingress,
        ledger,
        core,
        actions,
        cell.freshness.slot,
        source,
    );
    a_reader_falls_with_its_source::<K, T, M>(
        cell,
        ingress,
        ledger,
        core,
        actions,
        cell.membership.slot,
        cell.members_slot,
    );
    a_reader_falls_with_its_source::<K, T, M>(
        cell,
        ingress,
        ledger,
        core,
        actions,
        cell.delivery_converged.slot,
        source,
    );
    a_reader_falls_with_its_source::<K, T, M>(
        cell,
        ingress,
        ledger,
        core,
        actions,
        cell.validation.slot,
        source,
    );
    a_reader_falls_with_its_source::<K, T, M>(
        cell,
        ingress,
        ledger,
        core,
        actions,
        cell.effect_intent.slot,
        source,
    );
}

/// The value plane's actions leave its plane in order and its readers fresh.
proof fn acting_keeps_the_plane_fresh<Id, T: View, M: MergePolicy<T>>(
    ingress: IngressCellState<Id, T::V>,
    ledger: Ledger,
    actions: Seq<BoundaryIngressAction<Id, T::V>>,
    slot: SlotId,
)
    requires
        ingress.core.wf(),
        ingress.on(ledger),
        ledger.sound(),
        slot.index < ingress.first(),
        ledger.slots.len() + 4 * actions.len() <= usize::MAX,
        actions_fit::<Id, T, M>(ingress, ledger, actions),
        ingress_is_fresh(ingress, ledger),
    ensures
        ({
            let (plane, here) = acted::<Id, T, M>(ingress, ledger, actions);
            plane.core.wf() && ingress_is_fresh(plane, here)
        }),
    decreases actions.len(),
{
    if actions.len() > 0 {
        let fewer = actions.drop_last();
        let last = actions.len() - 1;
        assert(actions.take(last) =~= fewer);
        assert(actions_fit::<Id, T, M>(ingress, ledger, fewer)) by {
            assert forall|i: int| 0 <= i < fewer.len() implies fewer.take(i) == actions.take(i) by {
                assert(fewer.take(i) =~= actions.take(i));
            }
            assert forall|i: int| 0 <= i < fewer.len() implies #[trigger] fewer[i] == actions[i] by {}
        }
        acting_keeps_the_plane_fresh::<Id, T, M>(ingress, ledger, fewer, slot);
        acting_keeps_earlier_slots::<Id, T, M>(ingress, ledger, fewer, slot);
        let (plane, here) = acted::<Id, T, M>(ingress, ledger, fewer);
        match actions.last() {
            BoundaryIngressAction::Admit(envelope) => {
                assert(actions[last] == actions.last());
                admitting_keeps_the_plane_in_order::<Id, T, M>(plane.core, envelope);
                admitting_keeps_the_cell_fresh::<Id, T, M>(plane, here, envelope);
            },
            BoundaryIngressAction::Close(key) => {
                closing_keeps_the_plane_in_order(plane.core, key);
                closing_keeps_the_cell_fresh(plane, here, key);
            },
        }
    }
}

/// Where every slot of a cell that stands stood before, the cell stays fresh.
proof fn fresh_while_nothing_rises<Id, P>(
    cell: IngressCellState<Id, P>,
    before: Ledger,
    after: Ledger,
)
    requires
        cell.on(before),
        ingress_is_fresh(cell, before),
        forall|slot: SlotId|
            slot.index >= cell.first() && before.has(slot) && #[trigger] after.stands(slot)
                ==> before.stands(slot),
    ensures
        ingress_is_fresh(cell, after),
{
    assert forall|id: Id| #[trigger] cell.readers.contains_key(id) implies {
        let readers = cell.readers[id];
        &&& readers.value.fresh(after, cell.core.value_of(id))
        &&& readers.readiness.fresh(after, cell.core.readiness_of(id))
        &&& readers.authority.fresh(after, cell.core.authority_of(id))
        &&& readers.retry.fresh(after, cell.core.retry_of(id))
    } by {
        assert(cell.readers[id].on(before));
    }
}

/// A transition leaves the value plane's readers fresh too: with
/// `scope_reads_show_the_plane` and `receipt_reads_show_the_log` they show what the plane
/// derives after it.
pub proof fn transitions_keep_the_value_plane_fresh<K: OrderedKey, T: View, M: MergePolicy<T>>(
    cell: BoundaryCellState<K::V, T::V>,
    ingress: IngressCellState<K::V, T::V>,
    ledger: Ledger,
    core: BoundaryState<K::V, T::V>,
    actions: Seq<BoundaryIngressAction<K::V, T::V>>,
)
    requires
        cell.on(ledger),
        ingress.core.wf(),
        ingress.on(ledger),
        cell.effect_intent.slot.index < ingress.first(),
        ledger.sound(),
        ledger.slots.len() + 4 * actions.len() <= usize::MAX,
        actions_fit::<K::V, T, M>(ingress, ledger.begun(), actions),
        ingress_is_fresh(ingress, ledger),
    ensures
        ({
            let (after, plane, walked) = settled::<K, T, M>(
                cell,
                ingress,
                ledger,
                core,
                actions,
                true,
            );
            &&& plane.core.wf()
            &&& ingress_is_fresh(plane, walked)
        }),
{
    let slot = cell.projection_slot;
    let begun = ledger.begun();
    a_cell_stays_on_its_ledger(ingress, ledger, begun);
    assert forall|slot: SlotId|
        slot.index >= ingress.first() && ledger.has(slot) && #[trigger] begun.stands(
            slot,
        ) implies ledger.stands(slot) by {
        beginning_moves_none(ledger, slot);
    }
    beginning_moves_none(ledger, slot);
    fresh_while_nothing_rises(ingress, ledger, begun);
    acting_keeps_the_plane_fresh::<K::V, T, M>(ingress, begun, actions, slot);
    acting_keeps_earlier_slots::<K::V, T, M>(ingress, begun, actions, slot);
    let (plane, here) = acted::<K::V, T, M>(ingress, begun, actions);
    let members = rostered(cell.members, projected::<K, T::V>(core).members);
    let first = with_root(Set::<int>::empty(), members != cell.members, cell.members_slot);
    let second = Set::<int>::empty().insert(cell.projection_slot.index as int);
    let middle = here.cleared(first);
    let last = middle.cleared(second);
    assert forall|slot: SlotId|
        slot.index >= plane.first() && here.has(slot) && #[trigger] last.finished().stands(
            slot,
        ) implies here.stands(slot) by {
        clearing_unseats_what_it_reaches(here, first, slot);
        clearing_unseats_what_it_reaches(middle, second, slot);
        finishing_moves_none(last, slot);
    }
    fresh_while_nothing_rises(plane, here, last.finished());
}

/// A transition that moves nothing observable costs no walk and unseats no reader.
pub proof fn quiet_transitions_cost_nothing<K: OrderedKey, T: View, M: MergePolicy<T>>(
    cell: BoundaryCellState<K::V, T::V>,
    ingress: IngressCellState<K::V, T::V>,
    ledger: Ledger,
    core: BoundaryState<K::V, T::V>,
)
    ensures
        settled::<K, T, M>(cell, ingress, ledger, core, Seq::empty(), false) == (
            cell.over(core),
            ingress,
            ledger,
        ),
        cell.over(core).projection == cell.projection,
{
}

/// Outside a batch every fresh reader shows what the published observation gives.
pub proof fn boundary_reads_show_the_observation<Id, P>(
    cell: BoundaryCellState<Id, P>,
    ledger: Ledger,
)
    requires
        cell.on(ledger),
        ledger.sound(),
        ledger.depth == 0,
        boundary_is_fresh(cell, ledger),
    ensures
        cell.readiness.shows(ledger, cell.projection.ready()) == cell.projection.ready(),
        cell.authority.shows(ledger, cell.projection.claims()) == cell.projection.claims(),
        cell.freshness.shows(ledger, cell.projection.freshness) == cell.projection.freshness,
        cell.membership.shows(ledger, cell.members) == cell.members,
        cell.delivery_converged.shows(ledger, cell.projection.settled())
            == cell.projection.settled(),
        cell.validation.shows(ledger, cell.projection.validation) == cell.projection.validation,
        cell.effect_intent.shows(ledger, cell.projection.intends()) == cell.projection.intends(),
{
    cell.readiness.fresh_shows(ledger, cell.projection.ready());
    cell.authority.fresh_shows(ledger, cell.projection.claims());
    cell.freshness.fresh_shows(ledger, cell.projection.freshness);
    cell.membership.fresh_shows(ledger, cell.members);
    cell.delivery_converged.fresh_shows(ledger, cell.projection.settled());
    cell.validation.fresh_shows(ledger, cell.projection.validation);
    cell.effect_intent.fresh_shows(ledger, cell.projection.intends());
}

/// The members in order of appearance are exactly the member set.
pub proof fn the_roster_is_the_member_set(
    roster: Seq<Seq<char>>,
    members: Seq<Seq<char>>,
    member: Seq<char>,
)
    ensures
        rostered(roster, members).contains(member) <==> members.contains(member),
{
    let stays = |m: Seq<char>| members.contains(m);
    let arrives = |m: Seq<char>| !roster.contains(m);
    let kept = roster.filter(stays);
    let new = members.filter(arrives);
    let all = rostered(roster, members);
    assert(all == kept + new);
    filter_keeps_what_matches(roster, stays);
    filter_keeps_what_matches(members, arrives);
    if all.contains(member) {
        let at = all.index_of(member);
        if at < kept.len() {
            assert(kept[at] == member);
            assert(stays(kept[at]));
        } else {
            assert(new[at - kept.len()] == member);
            kept_was_there(members, arrives, at - kept.len());
        }
    }
    if members.contains(member) {
        let at = members.index_of(member);
        if roster.contains(member) {
            let place = roster.index_of(member);
            assert(stays(roster[place]));
            assert(kept.contains(member));
            let here = kept.index_of(member);
            assert(all[here] == member);
        } else {
            assert(arrives(members[at]));
            assert(new.contains(member));
            let here = new.index_of(member);
            assert(all[kept.len() + here] == member);
        }
    }
}

} // verus!
