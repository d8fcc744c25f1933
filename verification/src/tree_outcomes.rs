//! Laws of the ordered tree and of what is derived over it: what an edit leaves of a node,
//! where a path leads, and which derived node stands for which source node.

use vstd::prelude::*;

use crate::graph::{Ledger, SlotId, reaches};
use crate::reactive_family_outcomes::{
    a_move_clears_the_order_alone, a_removal_clears_the_node_and_both_signals,
    an_absent_key_is_minted_last, at_slot,
};
use crate::reactive_family::EntryState;
use crate::thread_safe_sem_tree::{
    SemNodeState, bounded, derived_at, deriving, deriving_kids, present,
};
use crate::thread_safe_source_tree::{NodeState, resolved, rooted};

verus! {

/// A new node has its identity and its value, no children, and three slots of its own.
pub proof fn a_new_node_has_no_children<Id, P>(key: Id, held: P, first: int)
    requires
        0 <= first,
        first + 2 <= usize::MAX,
    ensures
        ({
            let node = NodeState::leaf(key, held, first);
            &&& node.key == key
            &&& node.held == held
            &&& node.cell.index == first
            &&& node.membership.membership.index == first + 1
            &&& node.membership.order.index == first + 2
            &&& node.membership.ids.len() == 0
            &&& node.kids == Map::<Id, usize>::empty()
        }),
{
}

/// An adopted child comes behind the others and stands where it is said to; the node keeps
/// its identity, its value and its other children. Exactly what follows the membership or the
/// order of its children falls.
pub proof fn an_adopted_child_comes_last<Id, P>(
    node: NodeState<Id, P>,
    ledger: Ledger,
    id: Id,
    kid: usize,
    slot: SlotId,
)
    requires
        node.wf(),
        node.on(ledger),
        ledger.sound(),
        ledger.has(slot),
        ledger.slots.len() <= usize::MAX,
        !node.kids.contains_key(id),
    ensures
        ({
            let (after, later) = node.adopting(ledger, id, kid);
            &&& after.key == node.key
            &&& after.held == node.held
            &&& after.cell == node.cell
            &&& after.kids == node.kids.insert(id, kid)
            &&& after.membership.ids == node.membership.ids.push(id)
            &&& later.stands(slot) <==> ledger.stands(slot) && !reaches(
                ledger.slots,
                at_slot(node.membership.membership),
                slot.index as int,
            ) && !reaches(ledger.slots, at_slot(node.membership.order), slot.index as int)
        }),
{
    assert(node.kids.contains_key(id) <==> node.membership.handles.contains_key(id));
    assert(!node.membership.ids.contains(id));
    an_absent_key_is_minted_last(
        node.membership,
        ledger,
        id,
        EntryState { value: Some(()), maker: 0 },
        Seq::empty(),
        slot,
    );
}

/// A dropped child is gone from its place and the others keep theirs; the node keeps its
/// identity and its value.
pub proof fn a_dropped_child_leaves_its_place<Id, P>(
    node: NodeState<Id, P>,
    ledger: Ledger,
    id: Id,
    slot: SlotId,
)
    requires
        node.wf(),
        node.on(ledger),
        ledger.sound(),
        ledger.has(slot),
        node.kids.contains_key(id),
    ensures
        ({
            let (after, later) = node.dropping(ledger, id);
            &&& after.key == node.key
            &&& after.held == node.held
            &&& after.cell == node.cell
            &&& after.kids == node.kids.remove(id)
            &&& exists|at: int|
                0 <= at < node.membership.ids.len() && #[trigger] node.membership.ids[at] == id
                    && after.membership.ids == node.membership.ids.take(at)
                    + node.membership.ids.skip(at + 1)
            &&& later.stands(slot) ==> ledger.stands(slot)
            &&& !later.stands(node.membership.membership)
            &&& !later.stands(node.membership.order)
        }),
{
    assert(node.kids.contains_key(id) <==> node.membership.handles.contains_key(id));
    assert(node.membership.ids.contains(id));
    a_removal_clears_the_node_and_both_signals(node.membership, ledger, id, slot);
    a_removal_clears_the_node_and_both_signals(
        node.membership,
        ledger,
        id,
        node.membership.membership,
    );
    a_removal_clears_the_node_and_both_signals(
        node.membership,
        ledger,
        id,
        node.membership.order,
    );
    assert(at_slot(node.membership.membership).contains(
        node.membership.membership.index as int,
    ));
    assert(at_slot(node.membership.order).contains(node.membership.order.index as int));
}

/// A moved child stands at its new place and the others keep their order; every child stays
/// the node that it is. Exactly what follows the order falls, and only where it changed.
pub proof fn a_moved_child_keeps_its_node<Id, P>(
    node: NodeState<Id, P>,
    ledger: Ledger,
    from: int,
    to: int,
    slot: SlotId,
)
    requires
        node.wf(),
        node.on(ledger),
        ledger.sound(),
        ledger.has(slot),
        0 <= from < node.membership.ids.len(),
        0 <= to < node.membership.ids.len(),
    ensures
        ({
            let (after, later) = node.moving(ledger, from, to);
            &&& after.key == node.key
            &&& after.held == node.held
            &&& after.cell == node.cell
            &&& after.kids == node.kids
            &&& after.membership.ids[to] == node.membership.ids[from]
            &&& after.membership.ids.remove(to) == node.membership.ids.remove(from)
            &&& from == to ==> later == ledger
            &&& from != to ==> (later.stands(slot) <==> ledger.stands(slot) && !reaches(
                ledger.slots,
                at_slot(node.membership.order),
                slot.index as int,
            ))
        }),
{
    a_move_clears_the_order_alone(node.membership, ledger, from, to, slot);
}

/// The empty path leads to the node itself, and one step more leads to the child of that
/// identity of the node that the path leads to, where there is one.
pub proof fn a_path_leads_one_child_further<Id, P>(
    nodes: Seq<NodeState<Id, P>>,
    at: int,
    path: Seq<Id>,
    id: Id,
)
    ensures
        resolved(nodes, at, Seq::empty()) == Some(at),
        resolved(nodes, at, path) is None ==> resolved(nodes, at, path.push(id)) is None,
        resolved(nodes, at, path) matches Some(end) ==> {
            &&& nodes[end].kids.contains_key(id) ==> resolved(nodes, at, path.push(id)) == Some(
                nodes[end].kids[id] as int,
            )
            &&& !nodes[end].kids.contains_key(id) ==> resolved(nodes, at, path.push(id)) is None
        },
    decreases path.len(),
{
    reveal_with_fuel(resolved, 3);
    if path.len() == 0 {
        assert(path.push(id).skip(1) =~= Seq::empty());
        assert(path =~= Seq::empty());
    } else {
        assert(path.push(id)[0] == path[0]);
        assert(path.push(id).skip(1) =~= path.skip(1).push(id));
        if nodes[at].kids.contains_key(path[0]) {
            a_path_leads_one_child_further(
                nodes,
                nodes[at].kids[path[0]] as int,
                path.skip(1),
                id,
            );
        }
    }
}

/// What stands for the present children is one derived node for each that has one, in the
/// order of the children.
pub proof fn present_children_keep_their_order<Id>(ids: Seq<Id>, children: Map<Id, usize>)
    ensures
        present(ids, children) == ids.filter(
            |id: Id| children.contains_key(id),
        ).map_values(|id: Id| children[id]),
    decreases ids.len(),
{
    reveal(Seq::filter);
    let known = |id: Id| children.contains_key(id);
    let place = |id: Id| children[id];
    if ids.len() > 0 {
        present_children_keep_their_order(ids.drop_last(), children);
        let fewer = ids.drop_last().filter(known);
        assert(fewer.push(ids.last()).map_values(place) =~= fewer.map_values(place).push(
            place(ids.last()),
        ));
    }
    assert(present(ids, children) =~= ids.filter(known).map_values(place));
}

/// An identity is found exactly where a derived node has it: the last one that does.
pub proof fn the_last_derived_node_of_an_identity_is_found<Id, D>(
    derived: Seq<SemNodeState<Id, D>>,
    id: Id,
)
    ensures
        derived_at(derived, id) is Some <==> exists|i: int|
            0 <= i < derived.len() && (#[trigger] derived[i]).id == id,
        derived_at(derived, id) matches Some(at) ==> {
            &&& 0 <= at < derived.len()
            &&& derived[at].id == id
            &&& forall|i: int| at < i < derived.len() ==> (#[trigger] derived[i]).id != id
        },
    decreases derived.len(),
{
    if derived.len() > 0 {
        let fewer = derived.drop_last();
        let last = derived.len() - 1;
        the_last_derived_node_of_an_identity_is_found(fewer, id);
        assert(derived[last] == derived.last());
        if exists|i: int| 0 <= i < fewer.len() && (#[trigger] fewer[i]).id == id {
            let i = choose|i: int| 0 <= i < fewer.len() && (#[trigger] fewer[i]).id == id;
            assert(derived[i].id == id);
        }
        if derived.last().id != id {
            if exists|i: int| 0 <= i < derived.len() && (#[trigger] derived[i]).id == id {
                let i = choose|i: int| 0 <= i < derived.len() && (#[trigger] derived[i]).id == id;
                assert(fewer[i].id == id);
            }
            if let Some(at) = derived_at(fewer, id) {
                assert(derived[at] == fewer[at]);
                assert forall|i: int| at < i < derived.len() implies (#[trigger] derived[i]).id
                    != id by {
                    if i < last {
                        assert(fewer[i].id != id);
                    }
                }
            }
        }
    }
}

/// Deriving a node leaves the derived nodes that were there alone and ends with the node's
/// own: it reads the node, has the node's identity, nothing in its cache, and a derived node
/// for exactly the children of the node, each of which reads that child. Its reader has the
/// last slot and follows the node's value, the order of its children, and their readers.
pub proof fn every_node_is_derived_from_its_source<Id, P, D>(
    nodes: Seq<NodeState<Id, P>>,
    at: int,
    depth: nat,
    derived: Seq<SemNodeState<Id, D>>,
    ledger: Ledger,
)
    requires
        rooted(nodes),
        0 <= at < nodes.len(),
        nodes.len() <= usize::MAX,
        depth > 0,
        bounded(nodes, at, depth),
        deriving(nodes, at, depth, derived, ledger).0.len() <= usize::MAX,
        deriving(nodes, at, depth, derived, ledger).1.slots.len() <= usize::MAX,
    ensures
        ({
            let (after, later) = deriving(nodes, at, depth, derived, ledger);
            let node = after.last();
            let ids = nodes[at].membership.ids;
            &&& derived.len() < after.len()
            &&& after.take(derived.len() as int) == derived
            &&& node.id == nodes[at].key
            &&& node.source == at
            &&& node.first == derived.len()
            &&& node.memo.cached is None
            &&& node.memo.slot.index == later.slots.len() - 1
            &&& ledger.slots.len() < later.slots.len()
            &&& forall|i: int|
                0 <= i < ledger.slots.len() ==> #[trigger] later.slots[i] == ledger.slots[i]
            &&& forall|id: Id| #[trigger]
                node.children.contains_key(id) <==> nodes[at].kids.contains_key(id)
            &&& forall|id: Id| #[trigger]
                node.children.contains_key(id) ==> {
                    &&& derived.len() <= node.children[id] < after.len() - 1
                    &&& after[node.children[id] as int].source == nodes[at].kids[id]
                    &&& after[node.children[id] as int].id == id
                }
            &&& ({
                let deps = later.slots[later.slots.len() - 1].deps;
                &&& deps.len() == ids.len() + 2
                &&& deps[0] == nodes[at].cell.index
                &&& deps[1] == nodes[at].membership.order.index
                &&& forall|i: int|
                    0 <= i < ids.len() ==> deps[i + 2]
                        == after[node.children[#[trigger] ids[i]] as int].memo.slot.index
            })
        }),
    decreases depth, 0nat,
{
    let ids = nodes[at].membership.ids;
    let count = ids.len();
    let (below, here, kids, children) = deriving_kids(
        nodes,
        at,
        (depth - 1) as nat,
        derived,
        ledger,
        count,
    );
    let (after, later) = deriving(nodes, at, depth, derived, ledger);
    assert(nodes[at].wf());
    children_are_derived_in_order(nodes, at, (depth - 1) as nat, derived, ledger, count);
    assert(ids.take(count as int) =~= ids);
    assert(after.take(derived.len() as int) =~= below.take(derived.len() as int));
    assert forall|id: Id| #[trigger]
        children.contains_key(id) <==> nodes[at].kids.contains_key(id) by {
        assert(nodes[at].kids.contains_key(id) <==> nodes[at].membership.handles.contains_key(id));
        assert(ids.contains(id) <==> nodes[at].membership.handles.contains_key(id));
    }
    let deps = later.slots[later.slots.len() - 1].deps;
    assert forall|i: int| 0 <= i < ids.len() implies deps[i + 2]
        == after[children[#[trigger] ids[i]] as int].memo.slot.index by {
        assert(ids.contains(ids[i]));
        assert(children.contains_key(ids[i]));
        assert(kids[i] == children[ids[i]]);
        assert(deps[i + 2] == below[kids[i] as int].memo.slot.index);
    }
}

/// The first children of a node are derived in order, each behind the others.
proof fn children_are_derived_in_order<Id, P, D>(
    nodes: Seq<NodeState<Id, P>>,
    at: int,
    depth: nat,
    derived: Seq<SemNodeState<Id, D>>,
    ledger: Ledger,
    count: nat,
)
    requires
        rooted(nodes),
        0 <= at < nodes.len(),
        nodes.len() <= usize::MAX,
        count <= nodes[at].membership.ids.len(),
        bounded(nodes, at, (depth + 1) as nat),
        deriving_kids(nodes, at, depth, derived, ledger, count).0.len() <= usize::MAX,
        deriving_kids(nodes, at, depth, derived, ledger, count).1.slots.len() <= usize::MAX,
    ensures
        ({
            let (after, later, kids, children) = deriving_kids(
                nodes,
                at,
                depth,
                derived,
                ledger,
                count,
            );
            let ids = nodes[at].membership.ids;
            &&& derived.len() <= after.len()
            &&& after.take(derived.len() as int) == derived
            &&& ledger.slots.len() <= later.slots.len()
            &&& forall|i: int|
                0 <= i < ledger.slots.len() ==> #[trigger] later.slots[i] == ledger.slots[i]
            &&& kids.len() == count
            &&& forall|id: Id| #[trigger]
                children.contains_key(id) <==> ids.take(count as int).contains(id)
            &&& forall|i: int|
                0 <= i < count ==> #[trigger] kids[i] == children[ids[i]]
            &&& forall|id: Id| #[trigger]
                children.contains_key(id) ==> {
                    &&& derived.len() <= children[id] < after.len()
                    &&& after[children[id] as int].source == nodes[at].kids[id]
                    &&& after[children[id] as int].id == id
                }
        }),
    decreases depth, count,
{
    let ids = nodes[at].membership.ids;
    let (after, later, kids, children) = deriving_kids(nodes, at, depth, derived, ledger, count);
    if count > 0 {
        let less = (count - 1) as nat;
        let (before, here, fewer, some) = deriving_kids(nodes, at, depth, derived, ledger, less);
        let id = ids[count - 1];
        let kid = nodes[at].kids[id] as int;
        assert(nodes[at].wf());
        assert(ids.contains(id));
        assert(nodes[at].membership.handles.contains_key(id));
        assert(nodes[at].kids.contains_key(id));
        assert(bounded(nodes, kid, depth));
        assert(kid < nodes.len() && nodes[kid].key == id);
        deriving_only_grows(nodes, kid, depth, before, here);
        children_are_derived_in_order(nodes, at, depth, derived, ledger, less);
        every_node_is_derived_from_its_source(nodes, kid, depth, before, here);
        assert(after.take(derived.len() as int) =~= derived) by {
            assert(after.take(before.len() as int) == before);
            assert forall|i: int| 0 <= i < derived.len() implies after[i] == #[trigger] derived[i] by {
                assert(after.take(before.len() as int)[i] == before[i]);
                assert(before.take(derived.len() as int)[i] == derived[i]);
            }
        }
        assert(ids.take(count as int) =~= ids.take(less as int).push(id));
        assert forall|other: Id| #[trigger]
            children.contains_key(other) <==> ids.take(count as int).contains(other) by {
            if ids.take(less as int).contains(other) {
                let i = ids.take(less as int).index_of(other);
                assert(ids.take(count as int)[i] == other);
            }
            assert(ids.take(count as int)[less as int] == id);
            if ids.take(count as int).contains(other) && other != id {
                let i = ids.take(count as int).index_of(other);
                assert(ids.take(less as int)[i] == other);
            }
        }
        assert(!some.contains_key(id)) by {
            if ids.take(less as int).contains(id) {
                let i = ids.take(less as int).index_of(id);
                assert(ids[i] == ids[count - 1]);
            }
        }
        assert forall|other: Id| #[trigger] children.contains_key(other) implies {
            &&& derived.len() <= children[other] < after.len()
            &&& after[children[other] as int].source == nodes[at].kids[other]
            &&& after[children[other] as int].id == other
        } by {
            if other != id {
                assert(some.contains_key(other));
                let place = some[other] as int;
                assert(after.take(before.len() as int)[place] == before[place]);
            }
        }
        assert forall|i: int| 0 <= i < count implies #[trigger] kids[i] == children[ids[i]] by {
            if i < less {
                assert(kids[i] == fewer[i]);
                assert(ids[i] != ids[count - 1]);
            }
        }
        assert forall|i: int| 0 <= i < ledger.slots.len() implies #[trigger] later.slots[i]
            == ledger.slots[i] by {
            assert(here.slots[i] == ledger.slots[i]);
        }
    } else {
        assert(after.take(derived.len() as int) =~= derived);
        assert(ids.take(0) =~= Seq::empty());
    }
}

/// Deriving takes neither derived nodes nor slots away.
proof fn deriving_only_grows<Id, P, D>(
    nodes: Seq<NodeState<Id, P>>,
    at: int,
    depth: nat,
    derived: Seq<SemNodeState<Id, D>>,
    ledger: Ledger,
)
    ensures
        derived.len() <= deriving(nodes, at, depth, derived, ledger).0.len(),
        ledger.slots.len() <= deriving(nodes, at, depth, derived, ledger).1.slots.len(),
    decreases depth, 0nat,
{
    if depth > 0 {
        deriving_kids_only_grows(
            nodes,
            at,
            (depth - 1) as nat,
            derived,
            ledger,
            nodes[at].membership.ids.len(),
        );
    }
}

/// Deriving children takes neither derived nodes nor slots away.
proof fn deriving_kids_only_grows<Id, P, D>(
    nodes: Seq<NodeState<Id, P>>,
    at: int,
    depth: nat,
    derived: Seq<SemNodeState<Id, D>>,
    ledger: Ledger,
    count: nat,
)
    ensures
        derived.len() <= deriving_kids(nodes, at, depth, derived, ledger, count).0.len(),
        ledger.slots.len() <= deriving_kids(
            nodes,
            at,
            depth,
            derived,
            ledger,
            count,
        ).1.slots.len(),
    decreases depth, count,
{
    if count > 0 {
        let less = (count - 1) as nat;
        deriving_kids_only_grows(nodes, at, depth, derived, ledger, less);
        let (before, here, _, _) = deriving_kids(nodes, at, depth, derived, ledger, less);
        let id = nodes[at].membership.ids[count - 1];
        deriving_only_grows(nodes, nodes[at].kids[id] as int, depth, before, here);
    }
}

} // verus!
