//! Laws of the keyed reactive collection's operations: what each leaves present, in which
//! order and with which value, and what it clears.

use vstd::prelude::*;

use crate::graph::{
    Ledger, SlotId, allocating_moves_none, clearing_unseats_what_it_reaches, reaches,
    reaching_goes_by_deps,
};
use crate::keyed_order::{after_anchor, before_anchor, clamped, moving_keeps_the_others, shifted};
use crate::reactive_family::{EntryState, FamilyState, MapHandle};

verus! {

/// A move to an index ends there, or at the last place where the index is beyond it. Moving
/// a key next to itself leaves it where it is.
pub proof fn moves_end_within_the_order(index: int, len: int, from: int)
    requires
        0 <= index,
        0 < len,
        0 <= from < len,
    ensures
        index < len ==> clamped(index, len) == index,
        len <= index ==> clamped(index, len) + 1 == len,
        before_anchor(from, from) == from,
        after_anchor(from, from) == from,
{
}

/// The one position of a slot.
pub open spec fn at_slot(slot: SlotId) -> Set<int> {
    Set::new(|at: int| at == slot.index)
}

/// Clearing some roots and then others unseats what either reaches.
proof fn clearing_twice(ledger: Ledger, one: Set<int>, other: Set<int>, slot: SlotId)
    requires
        ledger.sound(),
        ledger.has(slot),
    ensures
        ({
            let after = ledger.cleared(one).cleared(other);
            &&& after.sound()
            &&& after.has(slot)
            &&& after.slots.len() == ledger.slots.len()
            &&& after.extends(ledger)
            &&& after.stands(slot) <==> ledger.stands(slot) && !reaches(
                ledger.slots,
                one,
                slot.index as int,
            ) && !reaches(ledger.slots, other, slot.index as int)
        }),
{
    let middle = ledger.cleared(one);
    clearing_unseats_what_it_reaches(ledger, one, slot);
    clearing_unseats_what_it_reaches(middle, other, slot);
    reaching_goes_by_deps(middle.slots, ledger.slots, other, slot.index as int);
}

/// A new collection has no keys, and its signals stand on two slots of their own.
pub proof fn a_new_collection_is_empty<Id, P, H: MapHandle>(first: int)
    requires
        0 <= first,
        first + 1 <= usize::MAX,
    ensures
        ({
            let map = FamilyState::<Id, P, H>::initial(first);
            &&& map.ids.len() == 0
            &&& map.handles == Map::<Id, H>::empty()
            &&& map.entries == Map::<Id, EntryState<P>>::empty()
            &&& map.membership.index == first
            &&& map.order.index == first + 1
        }),
{
}

/// An absent key is minted behind the others, on a slot of its own behind every other, with
/// the entry it was given; every reader of either signal falls, and no other. A present key
/// is left alone. No other key moves either way.
pub proof fn an_absent_key_is_minted_last<Id, P, H: MapHandle>(
    map: FamilyState<Id, P, H>,
    ledger: Ledger,
    id: Id,
    entry: EntryState<P>,
    deps: Seq<int>,
    slot: SlotId,
)
    requires
        map.wf(),
        map.on(ledger),
        ledger.sound(),
        ledger.has(slot),
        ledger.slots.len() <= usize::MAX,
        forall|i: int| 0 <= i < deps.len() ==> 0 <= #[trigger] deps[i] < ledger.slots.len(),
    ensures
        ({
            let (after, later) = map.minted_over(ledger, id, entry, deps);
            let present = map.ids.contains(id);
            &&& present ==> after == map && later == ledger
            &&& !present ==> {
                &&& after.ids == map.ids.push(id)
                &&& after.handles.contains_key(id)
                &&& after.handles[id].at().index == ledger.slots.len()
                &&& after.entries.contains_key(id)
                &&& after.entries[id] == entry
                &&& later.slots.len() == ledger.slots.len() + 1
                &&& later.slots[ledger.slots.len() as int].deps == deps
                &&& !later.slots[ledger.slots.len() as int].clean
                &&& later.stands(slot) <==> ledger.stands(slot) && !reaches(
                    ledger.slots,
                    at_slot(map.membership),
                    slot.index as int,
                ) && !reaches(ledger.slots, at_slot(map.order), slot.index as int)
            }
            &&& after.membership == map.membership
            &&& after.order == map.order
            &&& forall|other: Id|
                other != id ==> (#[trigger] after.handles.contains_key(other)
                    <==> map.handles.contains_key(other))
            &&& forall|other: Id|
                other != id && #[trigger] map.handles.contains_key(other)
                    ==> after.handles[other] == map.handles[other] && after.entries[other]
                    == map.entries[other]
        }),
{
    if !map.ids.contains(id) {
        let new = SlotId { index: ledger.slots.len() as usize };
        H::bound_at(new);
        let here = ledger.allocated(deps);
        allocating_moves_none(ledger, deps, slot);
        let one = Set::<int>::empty().insert(map.membership.index as int);
        let other = Set::<int>::empty().insert(map.order.index as int);
        assert(one =~= at_slot(map.membership));
        assert(other =~= at_slot(map.order));
        clearing_twice(here, one, other, slot);
        clearing_twice(here, one, other, new);
        reaching_goes_by_deps(here.slots, ledger.slots, one, slot.index as int);
        reaching_goes_by_deps(here.slots, ledger.slots, other, slot.index as int);
        let later = map.minted_over(ledger, id, entry, deps).1;
        let last = ledger.slots.len() as int;
        assert(later.slots[last].deps == here.slots[last].deps);
    }
}

/// An input is minted with its value, a derived entry without one and for one factory.
pub proof fn inputs_have_values_and_derived_entries_wait<Id, P, H: MapHandle>(
    map: FamilyState<Id, P, H>,
    ledger: Ledger,
    id: Id,
    value: P,
    maker: nat,
    deps: Seq<int>,
)
    requires
        map.wf(),
        !map.ids.contains(id),
    ensures
        map.minted(ledger, id, value).0.entries[id].value == Some(value),
        map.minted(ledger, id, value).0.ids == map.ids.push(id),
        map.deferred(ledger, id, maker, deps).0.entries[id].value is None,
        map.deferred(ledger, id, maker, deps).0.entries[id].maker == maker,
        map.deferred(ledger, id, maker, deps).0.ids == map.ids.push(id),
{
}

/// Writing a present key gives it the value, and exactly what follows its node falls; the
/// same value again clears nothing. An absent key is minted with the value. No other entry
/// moves either way.
pub proof fn a_write_clears_the_readers_of_its_key<Id, P, H: MapHandle>(
    map: FamilyState<Id, P, H>,
    ledger: Ledger,
    id: Id,
    value: P,
    slot: SlotId,
)
    requires
        map.wf(),
        map.on(ledger),
        ledger.sound(),
        ledger.has(slot),
    ensures
        ({
            let (after, later) = map.written(ledger, id, value);
            let present = map.ids.contains(id);
            &&& after.entries.contains_key(id)
            &&& after.entries[id].value == Some(value)
            &&& present ==> {
                &&& after.ids == map.ids
                &&& after.handles == map.handles
                &&& after.entries[id].maker == map.entries[id].maker
                &&& map.entries[id].value == Some(value) ==> later == ledger
                &&& map.entries[id].value != Some(value) ==> {
                    &&& later.slots.len() == ledger.slots.len()
                    &&& later.stands(slot) <==> ledger.stands(slot) && !reaches(
                        ledger.slots,
                        at_slot(map.handles[id].at()),
                        slot.index as int,
                    )
                }
            }
            &&& !present ==> after.ids == map.ids.push(id)
            &&& after.membership == map.membership
            &&& after.order == map.order
            &&& forall|other: Id|
                other != id && #[trigger] map.handles.contains_key(other)
                    ==> after.handles[other] == map.handles[other] && after.entries[other]
                    == map.entries[other]
            &&& forall|other: Id|
                other != id ==> (#[trigger] after.handles.contains_key(other)
                    <==> map.handles.contains_key(other))
        }),
{
    if map.ids.contains(id) {
        assert(map.handles.contains_key(id));
        let node = map.handles[id].at();
        assert(Set::<int>::empty().insert(node.index as int) =~= at_slot(node));
        clearing_unseats_what_it_reaches(ledger, at_slot(node), slot);
    }
}

/// A removed key is gone from its place; what follows its node and what follows either
/// signal falls, and no other. Removing an absent key is nothing. No other entry moves.
pub proof fn a_removal_clears_the_node_and_both_signals<Id, P, H: MapHandle>(
    map: FamilyState<Id, P, H>,
    ledger: Ledger,
    id: Id,
    slot: SlotId,
)
    requires
        map.wf(),
        map.on(ledger),
        ledger.sound(),
        ledger.has(slot),
    ensures
        ({
            let (after, later) = map.removed(ledger, id);
            let present = map.ids.contains(id);
            &&& !present ==> after == map && later == ledger
            &&& present ==> {
                &&& exists|at: int|
                    0 <= at < map.ids.len() && #[trigger] map.ids[at] == id && after.ids
                        == map.ids.take(at) + map.ids.skip(at + 1)
                &&& !after.handles.contains_key(id)
                &&& !after.entries.contains_key(id)
                &&& later.slots.len() == ledger.slots.len()
                &&& later.stands(slot) <==> ledger.stands(slot) && !reaches(
                    ledger.slots,
                    at_slot(map.handles[id].at()),
                    slot.index as int,
                ) && !reaches(ledger.slots, at_slot(map.membership), slot.index as int)
                    && !reaches(ledger.slots, at_slot(map.order), slot.index as int)
            }
            &&& after.membership == map.membership
            &&& after.order == map.order
            &&& forall|other: Id|
                other != id ==> (#[trigger] after.handles.contains_key(other)
                    <==> map.handles.contains_key(other))
            &&& forall|other: Id|
                other != id && #[trigger] map.handles.contains_key(other)
                    ==> after.handles[other] == map.handles[other] && after.entries[other]
                    == map.entries[other]
        }),
{
    if map.ids.contains(id) {
        assert(map.handles.contains_key(id));
        let after = map.removed(ledger, id).0;
        let at = map.ids.index_of(id);
        assert(map.ids[at] == id);
        assert(after.ids =~= map.ids.take(at) + map.ids.skip(at + 1));
        let node = map.handles[id].at();
        let one = Set::<int>::empty().insert(map.membership.index as int);
        let other = Set::<int>::empty().insert(map.order.index as int);
        assert(Set::<int>::empty().insert(node.index as int) =~= at_slot(node));
        assert(one =~= at_slot(map.membership));
        assert(other =~= at_slot(map.order));
        let middle = ledger.cleared(at_slot(node));
        clearing_unseats_what_it_reaches(ledger, at_slot(node), slot);
        clearing_twice(middle, one, other, slot);
        reaching_goes_by_deps(middle.slots, ledger.slots, one, slot.index as int);
        reaching_goes_by_deps(middle.slots, ledger.slots, other, slot.index as int);
    }
}

/// A moved key stands at its new place and the others keep their order among themselves.
/// Exactly what follows the order signal falls, and only where the order changed.
pub proof fn a_move_clears_the_order_alone<Id, P, H: MapHandle>(
    map: FamilyState<Id, P, H>,
    ledger: Ledger,
    from: int,
    to: int,
    slot: SlotId,
)
    requires
        map.wf(),
        map.on(ledger),
        ledger.sound(),
        ledger.has(slot),
        0 <= from < map.ids.len(),
        0 <= to < map.ids.len(),
    ensures
        ({
            let (after, later) = map.reordered(ledger, from, to);
            &&& after.ids.len() == map.ids.len()
            &&& after.ids[to] == map.ids[from]
            &&& after.ids.remove(to) == map.ids.remove(from)
            &&& after.handles == map.handles
            &&& after.entries == map.entries
            &&& after.membership == map.membership
            &&& after.order == map.order
            &&& from == to ==> after.ids == map.ids && later == ledger
            &&& from != to ==> (later.stands(slot) <==> ledger.stands(slot) && !reaches(
                ledger.slots,
                at_slot(map.order),
                slot.index as int,
            ))
        }),
{
    moving_keeps_the_others(map.ids, from, to);
    assert(Set::<int>::empty().insert(map.order.index as int) =~= at_slot(map.order));
    clearing_unseats_what_it_reaches(ledger, at_slot(map.order), slot);
    if from == to {
        assert(shifted(map.ids, from, to) =~= map.ids);
    }
}

/// A reader sees the value of a present input, and of a present derived entry that has one
/// and whose node is clean. Of anything else it sees nothing.
pub proof fn readers_see_present_and_clean_entries<Id, P, H: MapHandle>(
    map: FamilyState<Id, P, H>,
    ledger: Ledger,
    id: Id,
)
    requires
        map.wf(),
    ensures
        map.observed(ledger, id) is Some <==> map.ids.contains(id) && map.entries[id].value is Some
            && (H::entry_kind() is Computed ==> ledger.clean(map.handles[id].at())),
        map.observed(ledger, id) is Some ==> map.observed(ledger, id) == map.entries[id].value,
        map.ids.contains(id) && H::entry_kind() is Source ==> map.observed(ledger, id) is Some,
{
}

/// Making an entry's value gives it that value and its node's cleanness, and moves nothing
/// else.
pub proof fn making_a_value_moves_one_entry<Id, P, H: MapHandle>(
    map: FamilyState<Id, P, H>,
    ledger: Ledger,
    id: Id,
    value: P,
)
    requires
        map.wf(),
        map.on(ledger),
        map.ids.contains(id),
    ensures
        ({
            let (after, later) = map.resolved(ledger, id, value);
            &&& after.entries[id].value == Some(value)
            &&& after.entries[id].maker == map.entries[id].maker
            &&& after.ids == map.ids
            &&& after.handles == map.handles
            &&& after.membership == map.membership
            &&& after.order == map.order
            &&& forall|other: Id|
                other != id && #[trigger] map.handles.contains_key(other)
                    ==> after.entries[other] == map.entries[other]
            &&& later.slots.len() == ledger.slots.len()
            &&& forall|at: int|
                0 <= at < ledger.slots.len() ==> {
                    &&& (#[trigger] later.slots[at]).deps == ledger.slots[at].deps
                    &&& later.slots[at].clean <==> ledger.slots[at].clean || at
                        == map.handles[id].at().index
                }
            &&& later.held == ledger.held
            &&& later.walks == ledger.walks
            &&& later.depth == ledger.depth
        }),
{
    assert(map.handles.contains_key(id));
}

} // verus!
