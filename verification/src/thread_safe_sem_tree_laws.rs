//! Laws of the semantic tree: an edit unseats the readers above it and no other, and
//! what reads show is what deriving everything anew would give.

use vstd::prelude::*;

use crate::graph::{
    Ledger, SlotId, a_leaf_is_reached_from_itself, clearing_unseats_what_it_reaches,
    nothing_reaches, reaches,
};
use crate::reactive_family::only;
use crate::thread_safe_sem_tree::{
    FoldRelation, SemNodeState, caught_up, follows, kept, linked, may_show, present,
    present_are_children, same_node, stacked, stored,
};
use crate::thread_safe_source_tree::NodeState;

verus! {

/// Whether a slot is the value's or the order's of a node or of one below it, among those
/// that were there at build time.
pub open spec fn covers<Id, P, D>(
    nodes: Seq<NodeState<Id, P>>,
    derived: Seq<SemNodeState<Id, D>>,
    at: int,
    slot: int,
) -> bool
    decreases at,
{
    let node = derived[at];
    ||| slot == nodes[node.source as int].cell.index
    ||| slot == nodes[node.source as int].membership.order.index
    ||| exists|id: Id| #[trigger]
        node.children.contains_key(id) && 0 <= node.children[id] < at && covers(
            nodes,
            derived,
            node.children[id] as int,
            slot,
        )
}

/// What deriving a node anew may give: a fold of its value with what deriving its present
/// children anew may give.
pub open spec fn derives<Id, P, D>(
    nodes: Seq<NodeState<Id, P>>,
    derived: Seq<SemNodeState<Id, D>>,
    fold: FoldRelation<P, D>,
    at: int,
    shown: D,
) -> bool
    decreases at,
{
    let node = derived[at];
    let kids = present(nodes[node.source as int].membership.ids, node.children);
    exists|parts: Seq<D>|
        {
            &&& parts.len() == kids.len()
            &&& #[trigger] fold(nodes[node.source as int].held, parts, shown)
            &&& forall|i: int|
                0 <= i < kids.len() && 0 <= kids[i] < at ==> derives(
                    nodes,
                    derived,
                    fold,
                    kids[i] as int,
                    #[trigger] parts[i],
                )
        }
}

/// Whether every cache that stands holds what deriving its node anew may give.
pub open spec fn fresh<Id, P, D>(
    nodes: Seq<NodeState<Id, P>>,
    derived: Seq<SemNodeState<Id, D>>,
    fold: FoldRelation<P, D>,
    ledger: Ledger,
) -> bool {
    forall|at: int|
        0 <= at < derived.len() && ledger.stands((#[trigger] derived[at]).memo.slot)
            && derived[at].memo.cached is Some ==> derives(
            nodes,
            derived,
            fold,
            at,
            derived[at].memo.cached->0,
        )
}

/// Clearing a value or an order reaches the readers of its node and of the nodes above
/// it, and no other reader.
proof fn a_reader_is_reached_from_what_it_covers<Id, P, D>(
    nodes: Seq<NodeState<Id, P>>,
    derived: Seq<SemNodeState<Id, D>>,
    ledger: Ledger,
    slot: SlotId,
    at: int,
)
    requires
        ledger.sound(),
        stacked(derived),
        linked(nodes, derived, ledger),
        forall|i: int| 0 <= i < nodes.len() ==> (#[trigger] nodes[i]).on(ledger),
        ledger.leaf(slot),
        0 <= at < derived.len(),
    ensures
        reaches(ledger.slots, only(slot), derived[at].memo.slot.index as int) == covers(
            nodes,
            derived,
            at,
            slot.index as int,
        ),
    decreases at,
{
    let node = derived[at];
    let reader = node.memo.slot.index as int;
    let deps = ledger.slots[reader].deps;
    let source = nodes[node.source as int];
    assert(source.on(ledger));
    assert(ledger.has(node.memo.slot));
    assert(follows(nodes, derived, at, source.cell.index as int));
    assert(ledger.slots[derived[at].memo.slot.index as int].deps.contains(source.cell.index as int));
    assert(reader != slot.index);
    assert forall|id: Id| #[trigger] node.children.contains_key(id) implies reaches(
        ledger.slots,
        only(slot),
        derived[node.children[id] as int].memo.slot.index as int,
    ) == covers(nodes, derived, node.children[id] as int, slot.index as int) by {
        a_reader_is_reached_from_what_it_covers(
            nodes,
            derived,
            ledger,
            slot,
            node.children[id] as int,
        );
    }
    a_leaf_is_reached_from_itself(ledger, only(slot), source.cell);
    a_leaf_is_reached_from_itself(ledger, only(slot), source.membership.order);
    if reaches(ledger.slots, only(slot), reader) {
        let i = choose|i: int|
            #![trigger deps[i]]
            0 <= i < deps.len() && 0 <= deps[i] < reader && reaches(
                ledger.slots,
                only(slot),
                deps[i],
            );
        let dep = deps[i];
        assert(ledger.slots[derived[at].memo.slot.index as int].deps.contains(dep));
        assert(follows(nodes, derived, at, dep));
        if dep != source.cell.index && dep != source.membership.order.index {
            let id = choose|id: Id| #[trigger]
                node.children.contains_key(id) && derived[node.children[id] as int].memo.slot.index
                    == dep;
            assert(node.children.contains_key(id));
            assert(node.children[id] < at);
            assert(covers(nodes, derived, node.children[id] as int, slot.index as int));
        }
    }
    if covers(nodes, derived, at, slot.index as int) {
        let dep = if slot.index == source.cell.index {
            source.cell.index as int
        } else if slot.index == source.membership.order.index {
            source.membership.order.index as int
        } else {
            let id = choose|id: Id| #[trigger]
                node.children.contains_key(id) && 0 <= node.children[id] < at && covers(
                    nodes,
                    derived,
                    node.children[id] as int,
                    slot.index as int,
                );
            derived[node.children[id] as int].memo.slot.index as int
        };
        assert(follows(nodes, derived, at, dep));
        assert(ledger.slots[derived[at].memo.slot.index as int].deps.contains(dep));
        let i = deps.index_of(dep);
        assert(ledger.slots[reader].deps[i] == dep);
    }
}

/// An edit of a node's value or of its order unseats its own derived reader and those of
/// the nodes above it, and no other.
pub proof fn edits_unseat_the_ancestor_chain_alone<Id, P, D>(
    nodes: Seq<NodeState<Id, P>>,
    derived: Seq<SemNodeState<Id, D>>,
    ledger: Ledger,
    slot: SlotId,
    at: int,
)
    requires
        ledger.sound(),
        stacked(derived),
        linked(nodes, derived, ledger),
        forall|i: int| 0 <= i < nodes.len() ==> (#[trigger] nodes[i]).on(ledger),
        ledger.leaf(slot),
        0 <= at < derived.len(),
    ensures
        ledger.cleared(only(slot)).stands(derived[at].memo.slot) == (ledger.stands(
            derived[at].memo.slot,
        ) && !covers(nodes, derived, at, slot.index as int)),
{
    assert(ledger.has(derived[at].memo.slot));
    clearing_unseats_what_it_reaches(ledger, only(slot), derived[at].memo.slot);
    a_reader_is_reached_from_what_it_covers(nodes, derived, ledger, slot, at);
}

/// Outside a batch, with every cache fresh, a read shows what deriving anew may give.
pub proof fn reads_show_the_derivation<Id, P, D>(
    nodes: Seq<NodeState<Id, P>>,
    derived: Seq<SemNodeState<Id, D>>,
    fold: FoldRelation<P, D>,
    ledger: Ledger,
    at: int,
    shown: D,
)
    requires
        ledger.sound(),
        ledger.depth == 0,
        stacked(derived),
        fresh(nodes, derived, fold, ledger),
        0 <= at < derived.len(),
        may_show(nodes, derived, ledger, fold, at, shown),
    ensures
        derives(nodes, derived, fold, at, shown),
    decreases at,
{
    let node = derived[at];
    let kids = present(nodes[node.source as int].membership.ids, node.children);
    nothing_reaches(ledger.slots, node.memo.slot.index as int);
    if node.memo.cached is Some && ledger.clean(node.memo.slot) {
        assert(ledger.stands(derived[at].memo.slot));
    } else {
        let parts = choose|parts: Seq<D>|
            {
                &&& parts.len() == kids.len()
                &&& #[trigger] fold(nodes[node.source as int].held, parts, shown)
                &&& forall|i: int|
                    0 <= i < kids.len() && 0 <= kids[i] < at ==> may_show(
                        nodes,
                        derived,
                        ledger,
                        fold,
                        kids[i] as int,
                        #[trigger] parts[i],
                    )
            };
        assert(fold(nodes[node.source as int].held, parts, shown));
        assert forall|i: int| 0 <= i < kids.len() && 0 <= kids[i] < at implies derives(
            nodes,
            derived,
            fold,
            kids[i] as int,
            #[trigger] parts[i],
        ) by {
            reads_show_the_derivation(nodes, derived, fold, ledger, kids[i] as int, parts[i]);
        }
    }
}

/// What deriving anew may give rests on everything but the caches.
proof fn deriving_ignores_caches<Id, P, D>(
    nodes: Seq<NodeState<Id, P>>,
    before: Seq<SemNodeState<Id, D>>,
    after: Seq<SemNodeState<Id, D>>,
    fold: FoldRelation<P, D>,
    at: int,
    shown: D,
)
    requires
        before.len() == after.len(),
        forall|k: int| 0 <= k < before.len() ==> same_node(before[k], #[trigger] after[k]),
        0 <= at < before.len(),
        derives(nodes, before, fold, at, shown),
    ensures
        derives(nodes, after, fold, at, shown),
    decreases at,
{
    let node = before[at];
    let kids = present(nodes[node.source as int].membership.ids, node.children);
    assert(same_node(before[at], after[at]));
    let parts = choose|parts: Seq<D>|
        {
            &&& parts.len() == kids.len()
            &&& #[trigger] fold(nodes[node.source as int].held, parts, shown)
            &&& forall|i: int|
                0 <= i < kids.len() && 0 <= kids[i] < at ==> derives(
                    nodes,
                    before,
                    fold,
                    kids[i] as int,
                    #[trigger] parts[i],
                )
        };
    assert(fold(nodes[node.source as int].held, parts, shown));
    assert forall|i: int| 0 <= i < kids.len() && 0 <= kids[i] < at implies derives(
        nodes,
        after,
        fold,
        kids[i] as int,
        #[trigger] parts[i],
    ) by {
        deriving_ignores_caches(nodes, before, after, fold, kids[i] as int, parts[i]);
    }
}

/// A read outside a batch leaves every cache fresh.
pub proof fn reads_keep_the_caches_fresh<Id, P, D>(
    nodes: Seq<NodeState<Id, P>>,
    fold: FoldRelation<P, D>,
    before: Seq<SemNodeState<Id, D>>,
    ledger: Ledger,
    after: Seq<SemNodeState<Id, D>>,
    later: Ledger,
    first: int,
    last: int,
)
    requires
        ledger.sound(),
        ledger.depth == 0,
        stacked(before),
        linked(nodes, before, ledger),
        fresh(nodes, before, fold, ledger),
        caught_up(nodes, fold, before, ledger, after, later, first, last),
    ensures
        fresh(nodes, after, fold, later),
{
    assert forall|at: int|
        0 <= at < after.len() && later.stands((#[trigger] after[at]).memo.slot)
            && after[at].memo.cached is Some implies derives(
        nodes,
        after,
        fold,
        at,
        after[at].memo.cached->0,
    ) by {
        let shown = after[at].memo.cached->0;
        assert(same_node(before[at], after[at]));
        nothing_reaches(ledger.slots, before[at].memo.slot.index as int);
        if kept(before, ledger, after, later, at) {
            assert(ledger.stands(before[at].memo.slot));
        } else {
            assert(stored(nodes, fold, before, ledger, after[at], later, at));
            reads_show_the_derivation(nodes, before, fold, ledger, at, shown);
        }
        deriving_ignores_caches(nodes, before, after, fold, at, shown);
    }
}

/// A reader that a clearing does not reach derives what it derived.
proof fn what_is_not_reached_derives_the_same<Id, P, D>(
    nodes: Seq<NodeState<Id, P>>,
    edited: Seq<NodeState<Id, P>>,
    derived: Seq<SemNodeState<Id, D>>,
    fold: FoldRelation<P, D>,
    ledger: Ledger,
    roots: Set<int>,
    at: int,
    shown: D,
)
    requires
        ledger.sound(),
        stacked(derived),
        linked(nodes, derived, ledger),
        forall|i: int|
            0 <= i < nodes.len() ==> (#[trigger] edited[i]).held == nodes[i].held
                && edited[i].membership.ids == nodes[i].membership.ids || roots.contains(
                nodes[i].cell.index as int,
            ) || roots.contains(nodes[i].membership.order.index as int),
        0 <= at < derived.len(),
        !reaches(ledger.slots, roots, derived[at].memo.slot.index as int),
        derives(nodes, derived, fold, at, shown),
    ensures
        derives(edited, derived, fold, at, shown),
    decreases at,
{
    let node = derived[at];
    let reader = node.memo.slot.index as int;
    let deps = ledger.slots[reader].deps;
    let source = nodes[node.source as int];
    assert(ledger.has(node.memo.slot));
    assert forall|dep: int| #[trigger]
        follows(nodes, derived, at, dep) implies !reaches(ledger.slots, roots, dep) by {
        assert(ledger.slots[derived[at].memo.slot.index as int].deps.contains(dep));
        let i = deps.index_of(dep);
        assert(ledger.slots[reader].deps[i] == dep);
    }
    assert(follows(nodes, derived, at, source.cell.index as int));
    assert(follows(nodes, derived, at, source.membership.order.index as int));
    assert(edited[node.source as int].held == source.held);
    let kids = present(source.membership.ids, node.children);
    let parts = choose|parts: Seq<D>|
        {
            &&& parts.len() == kids.len()
            &&& #[trigger] fold(source.held, parts, shown)
            &&& forall|i: int|
                0 <= i < kids.len() && 0 <= kids[i] < at ==> derives(
                    nodes,
                    derived,
                    fold,
                    kids[i] as int,
                    #[trigger] parts[i],
                )
        };
    assert(fold(source.held, parts, shown));
    assert forall|i: int| 0 <= i < kids.len() && 0 <= kids[i] < at implies derives(
        edited,
        derived,
        fold,
        kids[i] as int,
        #[trigger] parts[i],
    ) by {
        present_are_children(source.membership.ids, node.children, i);
        let id = choose|id: Id| #[trigger]
            node.children.contains_key(id) && source.membership.ids.contains(id) && kids[i]
                == node.children[id];
        assert(node.children.contains_key(id));
        assert(follows(nodes, derived, at, derived[kids[i] as int].memo.slot.index as int));
        what_is_not_reached_derives_the_same(
            nodes,
            edited,
            derived,
            fold,
            ledger,
            roots,
            kids[i] as int,
            parts[i],
        );
    }
}

/// An edit that clears the value or the order of every node that it changes leaves every
/// cache fresh: what would derive something else does not stand.
pub proof fn edits_keep_the_caches_fresh<Id, P, D>(
    nodes: Seq<NodeState<Id, P>>,
    edited: Seq<NodeState<Id, P>>,
    derived: Seq<SemNodeState<Id, D>>,
    fold: FoldRelation<P, D>,
    ledger: Ledger,
    roots: Set<int>,
)
    requires
        ledger.sound(),
        stacked(derived),
        linked(nodes, derived, ledger),
        fresh(nodes, derived, fold, ledger),
        forall|i: int|
            0 <= i < nodes.len() ==> (#[trigger] edited[i]).held == nodes[i].held
                && edited[i].membership.ids == nodes[i].membership.ids || roots.contains(
                nodes[i].cell.index as int,
            ) || roots.contains(nodes[i].membership.order.index as int),
    ensures
        fresh(edited, derived, fold, ledger.cleared(roots)),
{
    let later = ledger.cleared(roots);
    assert forall|at: int|
        0 <= at < derived.len() && later.stands((#[trigger] derived[at]).memo.slot)
            && derived[at].memo.cached is Some implies derives(
        edited,
        derived,
        fold,
        at,
        derived[at].memo.cached->0,
    ) by {
        assert(ledger.has(derived[at].memo.slot));
        clearing_unseats_what_it_reaches(ledger, roots, derived[at].memo.slot);
        what_is_not_reached_derives_the_same(
            nodes,
            edited,
            derived,
            fold,
            ledger,
            roots,
            at,
            derived[at].memo.cached->0,
        );
    }
}

} // verus!
