//! Laws of the keyed reactive collection.

use vstd::prelude::*;

use crate::graph::{
    Ledger, SlotId, a_leaf_falls_as_a_root, allocating_moves_none, reaches, settling_moves_one,
};
use crate::reactive_family::{EntryState, FamilyState, MapHandle, only};

verus! {

/// The present set only grows under minting and writing: keys keep their order, their
/// handles and, unless they are written, their values.
pub proof fn minting_and_writing_take_nothing_away<Id, P, H: MapHandle>(
    map: FamilyState<Id, P, H>,
    ledger: Ledger,
    id: Id,
    entry: EntryState<P>,
    deps: Seq<int>,
    value: P,
    other: Id,
)
    requires
        map.wf(),
        map.handles.contains_key(other),
    ensures
        ({
            let minted = map.minted_over(ledger, id, entry, deps).0;
            &&& minted.handles.contains_key(other)
            &&& minted.handles[other] == map.handles[other]
            &&& minted.entries[other] == map.entries[other]
            &&& minted.ids.take(map.ids.len() as int) == map.ids
        }),
        ({
            let written = map.written(ledger, id, value).0;
            &&& written.handles.contains_key(other)
            &&& written.handles[other] == map.handles[other]
            &&& other != id ==> written.entries[other] == map.entries[other]
            &&& written.ids.take(map.ids.len() as int) == map.ids
        }),
{
    let minted = map.minted_over(ledger, id, entry, deps).0;
    let written = map.written(ledger, id, value).0;
    assert(minted.ids.take(map.ids.len() as int) =~= map.ids);
    assert(written.ids.take(map.ids.len() as int) =~= map.ids);
}

/// An input shows the value that was made for its key first, however often it is minted
/// again.
pub proof fn first_value_wins<Id, P, H: MapHandle>(
    map: FamilyState<Id, P, H>,
    ledger: Ledger,
    id: Id,
    first: P,
    again: P,
)
    requires
        map.wf(),
        !map.handles.contains_key(id),
        H::entry_kind() is Source,
    ensures
        ({
            let (minted, here) = map.minted(ledger, id, first);
            &&& minted.observed(here, id) == Some(first)
            &&& minted.minted(here, id, again) == (minted, here)
        }),
{
}

/// A derived entry has no value before it is read, keeps the factory that it was minted
/// with first, and shows what that factory made once it was read.
pub proof fn first_factory_wins<Id, P, H: MapHandle>(
    map: FamilyState<Id, P, H>,
    ledger: Ledger,
    id: Id,
    maker: nat,
    deps: Seq<int>,
    again: nat,
    value: P,
)
    requires
        map.wf(),
        map.on(ledger),
        ledger.sound(),
        ledger.slots.len() < usize::MAX,
        !map.handles.contains_key(id),
        H::entry_kind() is Computed,
        forall|i: int| 0 <= i < deps.len() ==> 0 <= #[trigger] deps[i] < ledger.slots.len(),
    ensures
        ({
            let (minted, here) = map.deferred(ledger, id, maker, deps);
            let (read, later) = minted.resolved(here, id, value);
            &&& minted.observed(here, id) is None
            &&& minted.entries[id] == (EntryState { value: None::<P>, maker })
            &&& minted.deferred(here, id, again, deps) == (minted, here)
            &&& read.observed(later, id) == Some(value)
            &&& read.entries[id].maker == maker
            &&& read.deferred(later, id, again, deps) == (read, later)
        }),
{
    let (minted, here) = map.deferred(ledger, id, maker, deps);
    let slot = SlotId { index: ledger.slots.len() as usize };
    H::bound_at(slot);
    assert(minted.handles[id].at() == slot);
    assert(here.has(slot));
}

/// Pre-minting some keys runs no factory: each of them is present, those that were keep
/// their handles and entries, and the new ones wait for the one factory that they were
/// minted with. What a read of one gives is therefore what it gives of an entry that is
/// minted on access.
pub proof fn pre_minting_makes_no_value<Id, P, H: MapHandle>(
    map: FamilyState<Id, P, H>,
    ledger: Ledger,
    ids: Seq<Id>,
    maker: nat,
)
    requires
        map.wf(),
    ensures
        ({
            let after = map.deferred_all(ledger, ids, maker).0;
            &&& forall|id: Id| #[trigger]
                after.handles.contains_key(id) <==> map.handles.contains_key(id) || ids.contains(id)
            &&& forall|id: Id| #[trigger]
                map.handles.contains_key(id) ==> after.handles[id] == map.handles[id]
                    && after.entries[id] == map.entries[id]
            &&& forall|id: Id| #[trigger]
                after.handles.contains_key(id) && !map.handles.contains_key(id)
                    ==> after.entries[id] == (EntryState { value: None::<P>, maker })
            &&& map.ids.len() <= after.ids.len()
            &&& after.ids.take(map.ids.len() as int) == map.ids
        }),
    decreases ids.len(),
{
    if ids.len() > 0 {
        let fewer = ids.drop_last();
        pre_minting_makes_no_value(map, ledger, fewer, maker);
        let (before, here) = map.deferred_all(ledger, fewer, maker);
        let after = map.deferred_all(ledger, ids, maker).0;
        assert(after == before.deferred(here, ids.last(), maker, Seq::empty()).0);
        assert forall|id: Id| ids.contains(id) <==> fewer.contains(id) || id == ids.last() by {
            if ids.contains(id) && id != ids.last() {
                let at = ids.index_of(id);
                assert(fewer[at] == id);
            }
            if fewer.contains(id) {
                let at = fewer.index_of(id);
                assert(ids[at] == id);
            }
        }
        assert(after.ids.take(map.ids.len() as int) =~= before.ids.take(map.ids.len() as int));
    } else {
        assert(map.ids.take(map.ids.len() as int) =~= map.ids);
    }
}

/// Writing the value of a present key moves neither signal.
pub proof fn values_move_no_signal<Id, P, H: MapHandle>(
    map: FamilyState<Id, P, H>,
    ledger: Ledger,
    id: Id,
    value: P,
)
    requires
        map.wf(),
        map.on(ledger),
        ledger.sound(),
        map.handles.contains_key(id),
    ensures
        ({
            let (written, after) = map.written(ledger, id, value);
            &&& written.ids == map.ids
            &&& after.stands(map.membership) == ledger.stands(map.membership)
            &&& after.stands(map.order) == ledger.stands(map.order)
            &&& written.entries[id].value == Some(value)
        }),
{
    let roots = only(map.handles[id].at());
    a_leaf_falls_as_a_root(ledger, roots, map.membership);
    a_leaf_falls_as_a_root(ledger, roots, map.order);
}

/// Minting an absent key moves both signals.
pub proof fn new_keys_move_both_signals<Id, P, H: MapHandle>(
    map: FamilyState<Id, P, H>,
    ledger: Ledger,
    id: Id,
    entry: EntryState<P>,
    deps: Seq<int>,
)
    requires
        map.wf(),
        map.on(ledger),
        ledger.sound(),
        !map.handles.contains_key(id),
        ledger.slots.len() <= usize::MAX,
        forall|i: int| 0 <= i < deps.len() ==> 0 <= #[trigger] deps[i] < ledger.slots.len(),
    ensures
        !map.minted_over(ledger, id, entry, deps).1.stands(map.membership),
        !map.minted_over(ledger, id, entry, deps).1.stands(map.order),
{
    let here = ledger.allocated(deps);
    allocating_moves_none(ledger, deps, map.membership);
    allocating_moves_none(ledger, deps, map.order);
    a_leaf_falls_as_a_root(here, only(map.membership), map.membership);
    a_leaf_falls_as_a_root(here, only(map.membership), map.order);
    let middle = here.cleared(only(map.membership));
    a_leaf_falls_as_a_root(middle, only(map.order), map.membership);
    a_leaf_falls_as_a_root(middle, only(map.order), map.order);
}

/// A derived entry is pending again once something that it follows is
/// cleared outside a batch, and so is every reader that follows the entry.
pub proof fn a_derived_entry_falls_with_its_upstream<Id, P, H: MapHandle>(
    map: FamilyState<Id, P, H>,
    ledger: Ledger,
    id: Id,
    upstream: SlotId,
)
    requires
        map.on(ledger),
        ledger.sound(),
        ledger.depth == 0,
        map.handles.contains_key(id),
        H::entry_kind() is Computed,
        ledger.slots[map.handles[id].at().index as int].deps.contains(upstream.index as int),
    ensures
        map.observed(ledger.cleared(only(upstream)), id) is None,
        forall|reader: SlotId| #[trigger]
            ledger.has(reader) && ledger.slots[reader.index as int].deps.contains(
                map.handles[id].at().index as int,
            ) ==> !ledger.cleared(only(upstream)).clean(reader),
{
    let slot = map.handles[id].at();
    let at = slot.index as int;
    let deps = ledger.slots[at].deps;
    let i = deps.index_of(upstream.index as int);
    assert(ledger.has(slot));
    assert(ledger.slots[at].deps[i] == upstream.index as int);
    assert(reaches(ledger.slots, only(upstream), upstream.index as int));
    assert(reaches(ledger.slots, only(upstream), at));
    assert(only(upstream).contains(upstream.index as int));
    assert(only(upstream) != Set::<int>::empty());
    assert forall|reader: SlotId| #[trigger]
        ledger.has(reader) && ledger.slots[reader.index as int].deps.contains(
            at,
        ) implies !ledger.cleared(only(upstream)).clean(reader) by {
        let follows = ledger.slots[reader.index as int].deps;
        let j = follows.index_of(at);
        assert(follows[j] == at);
        assert(reaches(ledger.slots, only(upstream), reader.index as int));
    }
}

/// An entry that was driven to resolution shows its value, and being driven again changes
/// nothing.
pub proof fn a_resolved_entry_shows_its_value<Id, P, H: MapHandle>(
    map: FamilyState<Id, P, H>,
    ledger: Ledger,
    id: Id,
    value: P,
)
    requires
        map.wf(),
        map.on(ledger),
        ledger.sound(),
        map.handles.contains_key(id),
    ensures
        ({
            let (after, later) = map.resolved(ledger, id, value);
            &&& after.observed(later, id) == Some(value)
            &&& later.clean(after.handles[id].at())
            &&& after.resolved(later, id, value) == (after, later)
        }),
{
    let (after, later) = map.resolved(ledger, id, value);
    let slot = map.handles[id].at();
    assert(ledger.has(slot));
    settling_moves_one(ledger, slot, slot);
    settling_moves_one(later, slot, slot);
    assert(after.resolved(later, id, value).0.entries =~= after.entries);
}

/// A move keeps every handle and value, never moves the membership signal, and moves the
/// order signal exactly where the order changes.
pub proof fn moves_keep_nodes_and_membership<Id, P, H: MapHandle>(
    map: FamilyState<Id, P, H>,
    ledger: Ledger,
    from: int,
    to: int,
)
    requires
        map.wf(),
        map.on(ledger),
        ledger.sound(),
        0 <= from < map.ids.len(),
        0 <= to < map.ids.len(),
    ensures
        ({
            let (moved, after) = map.reordered(ledger, from, to);
            &&& moved.handles == map.handles
            &&& moved.entries == map.entries
            &&& moved.ids[to] == map.ids[from]
            &&& after.stands(map.membership) == ledger.stands(map.membership)
            &&& after.stands(map.order) == (ledger.stands(map.order) && from == to)
        }),
{
    a_leaf_falls_as_a_root(ledger, only(map.order), map.membership);
    a_leaf_falls_as_a_root(ledger, only(map.order), map.order);
}

} // verus!
