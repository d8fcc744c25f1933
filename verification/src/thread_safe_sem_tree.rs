//! A memoized semantic tree over a source tree: one derived reader per node.
//!
//! Each node folds its value with what is derived at its children. The nodes are kept
//! in the order in which they were derived, children before their parents, so what is
//! below a node is a stretch of nodes that ends with it.

use vstd::prelude::*;

use crate::graph::{Ledger, SlotId};
use crate::reactive::{Computed, Memo, MemoState, ReactiveGraph, ThreadSafeContext};
use crate::table::KeyedTable;
use crate::thread_safe_source_tree::{NodeState, SourceForest, ThreadSafeSourceTree, rooted};
use crate::value::{Key, Datum, views};

verus! {

/// A derived node, over views.
#[verifier::ext_equal]
#[verifier::reject_recursive_types(Id)]
pub struct SemNodeState<Id, D> {
    /// The identity of its source node.
    pub id: Id,
    /// Where its source node stands.
    pub source: usize,
    /// Where the first node below it stands; itself where there is none.
    pub first: usize,
    /// Its reader.
    pub memo: MemoState<D>,
    /// Where the derived node of each child that was there at build time stands.
    pub children: Map<Id, usize>,
}

/// How a node's value and what is derived at its children may fold.
pub type FoldRelation<P, D> = spec_fn(P, Seq<D>, D) -> bool;

/// Whether everything below a node is within some number of steps: no node is below
/// itself.
pub open spec fn bounded<Id, P>(nodes: Seq<NodeState<Id, P>>, at: int, depth: nat) -> bool
    decreases depth,
{
    depth > 0 && forall|id: Id| #[trigger]
        nodes[at].kids.contains_key(id) ==> bounded(
            nodes,
            nodes[at].kids[id] as int,
            (depth - 1) as nat,
        )
}

/// A number of steps within which everything below a node is.
pub open spec fn height<Id, P>(nodes: Seq<NodeState<Id, P>>, at: int) -> nat {
    choose|depth: nat| bounded(nodes, at, depth)
}

/// The slots that a derived node's reader follows: its value's, its order's and those of
/// the children's readers.
pub open spec fn followed<Id, P, D>(
    node: NodeState<Id, P>,
    derived: Seq<SemNodeState<Id, D>>,
    kids: Seq<usize>,
) -> Seq<int> {
    seq![node.cell.index as int, node.membership.order.index as int] + kids.map_values(
        |kid: usize| derived[kid as int].memo.slot.index as int,
    )
}

/// The derived nodes with those of a source node and everything below it behind them.
pub open spec fn deriving<Id, P, D>(
    nodes: Seq<NodeState<Id, P>>,
    at: int,
    depth: nat,
    derived: Seq<SemNodeState<Id, D>>,
    ledger: Ledger,
) -> (Seq<SemNodeState<Id, D>>, Ledger)
    decreases depth, 0nat,
{
    if depth == 0 {
        (derived, ledger)
    } else {
        let count = nodes[at].membership.ids.len();
        let (below, here, kids, children) = deriving_kids(
            nodes,
            at,
            (depth - 1) as nat,
            derived,
            ledger,
            count,
        );
        (
            below.push(
                SemNodeState {
                    id: nodes[at].key,
                    source: at as usize,
                    first: derived.len() as usize,
                    memo: MemoState::at(here.slots.len() as int),
                    children,
                },
            ),
            here.allocated(followed(nodes[at], below, kids)),
        )
    }
}

/// The derived nodes with those of a node's first children behind them.
pub open spec fn deriving_kids<Id, P, D>(
    nodes: Seq<NodeState<Id, P>>,
    at: int,
    depth: nat,
    derived: Seq<SemNodeState<Id, D>>,
    ledger: Ledger,
    count: nat,
) -> (Seq<SemNodeState<Id, D>>, Ledger, Seq<usize>, Map<Id, usize>)
    decreases depth, count,
{
    if count == 0 {
        (derived, ledger, Seq::empty(), Map::empty())
    } else {
        let (before, here, kids, children) = deriving_kids(
            nodes,
            at,
            depth,
            derived,
            ledger,
            (count - 1) as nat,
        );
        let id = nodes[at].membership.ids[count - 1];
        let (after, there) = deriving(nodes, nodes[at].kids[id] as int, depth, before, here);
        let kid = (after.len() - 1) as usize;
        (after, there, kids.push(kid), children.insert(id, kid))
    }
}

/// Where the derived nodes of some children stand, for those that have one.
pub open spec fn present<Id>(ids: Seq<Id>, children: Map<Id, usize>) -> Seq<usize>
    decreases ids.len(),
{
    if ids.len() == 0 {
        Seq::empty()
    } else {
        let rest = present(ids.drop_last(), children);
        if children.contains_key(ids.last()) {
            rest.push(children[ids.last()])
        } else {
            rest
        }
    }
}

/// Whether children stand below their parents, in stretches that do not meet.
pub open spec fn stacked<Id, D>(derived: Seq<SemNodeState<Id, D>>) -> bool {
    &&& forall|i: int| 0 <= i < derived.len() ==> (#[trigger] derived[i]).first <= i
    &&& forall|i: int, k: int|
        0 <= i < derived.len() && (#[trigger] derived[i]).first <= k <= i ==> derived[i].first <= (
        #[trigger] derived[k]).first
    &&& forall|i: int, id: Id|
        0 <= i < derived.len() && #[trigger] derived[i].children.contains_key(id) ==> {
            let kid = derived[i].children[id] as int;
            kid < i && derived[i].first <= derived[kid].first
        }
    &&& forall|i: int, id: Id, other: Id|
        0 <= i < derived.len() && #[trigger] derived[i].children.contains_key(id)
            && #[trigger] derived[i].children.contains_key(other) && id != other ==> {
            let kid = derived[i].children[id] as int;
            let sibling = derived[i].children[other] as int;
            kid < derived[sibling].first || sibling < derived[kid].first
        }
}

/// What a read at a derived node may show: the cache while its slot is clean, a fold of
/// the value with what reads at the present children may show otherwise.
pub open spec fn may_show<Id, P, D>(
    nodes: Seq<NodeState<Id, P>>,
    derived: Seq<SemNodeState<Id, D>>,
    ledger: Ledger,
    fold: FoldRelation<P, D>,
    at: int,
    shown: D,
) -> bool
    decreases at,
{
    let node = derived[at];
    match node.memo.cached {
        Some(cached) if ledger.clean(node.memo.slot) => shown == cached,
        _ => {
            let kids = present(nodes[node.source as int].membership.ids, node.children);
            exists|parts: Seq<D>|
                {
                    &&& parts.len() == kids.len()
                    &&& #[trigger] fold(nodes[node.source as int].held, parts, shown)
                    &&& forall|i: int|
                        0 <= i < kids.len() && 0 <= kids[i] < at ==> may_show(
                            nodes,
                            derived,
                            ledger,
                            fold,
                            kids[i] as int,
                            #[trigger] parts[i],
                        )
                }
        },
    }
}

/// Whether reads at a derived node's present children may show some parts.
pub open spec fn parts_may_show<Id, P, D>(
    nodes: Seq<NodeState<Id, P>>,
    derived: Seq<SemNodeState<Id, D>>,
    ledger: Ledger,
    fold: FoldRelation<P, D>,
    at: int,
    parts: Seq<D>,
) -> bool {
    let kids = present(nodes[derived[at].source as int].membership.ids, derived[at].children);
    &&& parts.len() == kids.len()
    &&& forall|i: int|
        0 <= i < kids.len() ==> may_show(
            nodes,
            derived,
            ledger,
            fold,
            kids[i] as int,
            #[trigger] parts[i],
        )
}

/// Whether the derived nodes read nodes of a forest and stand on slots of a ledger, in
/// their order, that follow what the nodes read.
pub open spec fn linked<Id, P, D>(
    nodes: Seq<NodeState<Id, P>>,
    derived: Seq<SemNodeState<Id, D>>,
    ledger: Ledger,
) -> bool {
    &&& forall|i: int|
        0 <= i < derived.len() ==> (#[trigger] derived[i]).source < nodes.len() && ledger.has(
            derived[i].memo.slot,
        )
    &&& forall|i: int, k: int|
        0 <= i < k < derived.len() ==> (#[trigger] derived[i]).memo.slot.index < (
        #[trigger] derived[k]).memo.slot.index
    &&& forall|i: int, slot: int|
        0 <= i < derived.len() ==> (#[trigger] ledger.slots[derived[i].memo.slot.index as int].deps.contains(
            slot,
        ) <==> follows(nodes, derived, i, slot))
}

/// Whether a derived node's reader follows a slot.
pub open spec fn follows<Id, P, D>(
    nodes: Seq<NodeState<Id, P>>,
    derived: Seq<SemNodeState<Id, D>>,
    at: int,
    slot: int,
) -> bool {
    let node = derived[at];
    ||| slot == nodes[node.source as int].cell.index
    ||| slot == nodes[node.source as int].membership.order.index
    ||| exists|id: Id| #[trigger]
        node.children.contains_key(id) && derived[node.children[id] as int].memo.slot.index == slot
}

/// Whether two states of the derived nodes agree over a stretch.
pub open spec fn agree<Id, D>(
    one: Seq<SemNodeState<Id, D>>,
    here: Ledger,
    other: Seq<SemNodeState<Id, D>>,
    there: Ledger,
    first: int,
    last: int,
) -> bool {
    forall|k: int|
        first <= k <= last ==> (#[trigger] one[k]) == other[k] && here.clean(one[k].memo.slot)
            == there.clean(one[k].memo.slot)
}

/// What a read at a derived node may show rests on the stretch below it alone.
pub proof fn showing_is_local<Id, P, D>(
    nodes: Seq<NodeState<Id, P>>,
    one: Seq<SemNodeState<Id, D>>,
    here: Ledger,
    other: Seq<SemNodeState<Id, D>>,
    there: Ledger,
    fold: FoldRelation<P, D>,
    at: int,
    shown: D,
)
    requires
        stacked(one),
        0 <= at < one.len(),
        agree(one, here, other, there, one[at].first as int, at),
    ensures
        may_show(nodes, one, here, fold, at, shown) == may_show(
            nodes,
            other,
            there,
            fold,
            at,
            shown,
        ),
    decreases at,
{
    let node = one[at];
    let kids = present(nodes[node.source as int].membership.ids, node.children);
    assert(one[at] == other[at]);
    assert forall|i: int, part: D| 0 <= i < kids.len() && 0 <= kids[i] < at implies #[trigger] may_show(
        nodes,
        one,
        here,
        fold,
        kids[i] as int,
        part,
    ) == may_show(nodes, other, there, fold, kids[i] as int, part) by {
        present_are_children(nodes[node.source as int].membership.ids, node.children, i);
        let kid = kids[i] as int;
        assert(agree(one, here, other, there, one[kid].first as int, kid));
        showing_is_local(nodes, one, here, other, there, fold, kid, part);
    }
    if may_show(nodes, one, here, fold, at, shown) && !(node.memo.cached is Some && here.clean(
        node.memo.slot,
    )) {
        let parts = choose|parts: Seq<D>|
            {
                &&& parts.len() == kids.len()
                &&& #[trigger] fold(nodes[node.source as int].held, parts, shown)
                &&& forall|i: int|
                    0 <= i < kids.len() && 0 <= kids[i] < at ==> may_show(
                        nodes,
                        one,
                        here,
                        fold,
                        kids[i] as int,
                        #[trigger] parts[i],
                    )
            };
        assert(fold(nodes[node.source as int].held, parts, shown));
        assert forall|i: int| 0 <= i < kids.len() && 0 <= kids[i] < at implies may_show(
            nodes,
            other,
            there,
            fold,
            kids[i] as int,
            #[trigger] parts[i],
        ) by {
            assert(may_show(nodes, one, here, fold, kids[i] as int, parts[i]));
        }
        assert(may_show(nodes, other, there, fold, at, shown));
    }
    if may_show(nodes, other, there, fold, at, shown) && !(node.memo.cached is Some && here.clean(
        node.memo.slot,
    )) {
        let parts = choose|parts: Seq<D>|
            {
                &&& parts.len() == kids.len()
                &&& #[trigger] fold(nodes[node.source as int].held, parts, shown)
                &&& forall|i: int|
                    0 <= i < kids.len() && 0 <= kids[i] < at ==> may_show(
                        nodes,
                        other,
                        there,
                        fold,
                        kids[i] as int,
                        #[trigger] parts[i],
                    )
            };
        assert(fold(nodes[node.source as int].held, parts, shown));
        assert forall|i: int| 0 <= i < kids.len() && 0 <= kids[i] < at implies may_show(
            nodes,
            one,
            here,
            fold,
            kids[i] as int,
            #[trigger] parts[i],
        ) by {
            assert(may_show(nodes, one, here, fold, kids[i] as int, parts[i]) == may_show(
                nodes,
                other,
                there,
                fold,
                kids[i] as int,
                parts[i],
            ));
        }
        assert(may_show(nodes, one, here, fold, at, shown));
    }
}

/// What stands for a present child is the derived node of one of the children.
pub proof fn present_are_children<Id>(ids: Seq<Id>, children: Map<Id, usize>, i: int)
    requires
        0 <= i < present(ids, children).len(),
    ensures
        exists|id: Id| #[trigger]
            children.contains_key(id) && ids.contains(id) && present(ids, children)[i]
                == children[id],
    decreases ids.len(),
{
    let last = ids.last();
    let rest = ids.drop_last();
    if children.contains_key(last) && i == present(ids, children).len() - 1 {
        assert(ids[ids.len() - 1] == last);
        assert(children.contains_key(last) && ids.contains(last));
    } else {
        present_are_children(rest, children, i);
        let id = choose|id: Id| #[trigger]
            children.contains_key(id) && rest.contains(id) && present(rest, children)[i]
                == children[id];
        let at = rest.index_of(id);
        assert(ids[at] == id);
        assert(children.contains_key(id) && ids.contains(id));
    }
}

/// Whether a ledger differs from an earlier one in nothing but readers of a stretch that
/// were settled.
pub open spec fn settled_within<Id, D>(
    ledger: Ledger,
    later: Ledger,
    derived: Seq<SemNodeState<Id, D>>,
    first: int,
    last: int,
) -> bool {
    &&& later.depth == ledger.depth
    &&& later.held == ledger.held
    &&& later.walks == ledger.walks
    &&& later.slots.len() == ledger.slots.len()
    &&& forall|at: int|
        0 <= at < ledger.slots.len() ==> {
            &&& (#[trigger] later.slots[at]).deps == ledger.slots[at].deps
            &&& ledger.slots[at].clean ==> later.slots[at].clean
            &&& later.slots[at].clean != ledger.slots[at].clean ==> within(derived, first, last, at)
        }
}

/// Whether a slot is that of a reader in a stretch.
pub open spec fn within<Id, D>(
    derived: Seq<SemNodeState<Id, D>>,
    first: int,
    last: int,
    slot: int,
) -> bool {
    exists|k: int| first <= k <= last && (#[trigger] derived[k]).memo.slot.index == slot
}

/// Whether the derived nodes differ from an earlier state in nothing but caches of a
/// stretch, each of which holds what a read of its node might have shown before.
pub open spec fn caught_up<Id, P, D>(
    nodes: Seq<NodeState<Id, P>>,
    fold: FoldRelation<P, D>,
    before: Seq<SemNodeState<Id, D>>,
    ledger: Ledger,
    after: Seq<SemNodeState<Id, D>>,
    later: Ledger,
    first: int,
    last: int,
) -> bool {
    &&& after.len() == before.len()
    &&& settled_within(ledger, later, before, first, last)
    &&& forall|k: int| 0 <= k < before.len() ==> same_node(before[k], #[trigger] after[k])
    &&& forall|k: int|
        0 <= k < before.len() && !(first <= k <= last) ==> #[trigger] after[k] == before[k]
    &&& forall|k: int|
        0 <= k < before.len() ==> kept(before, ledger, after, later, k) || stored(
            nodes,
            fold,
            before,
            ledger,
            #[trigger] after[k],
            later,
            k,
        )
}

/// Whether a derived node is one with nothing but another cache.
pub open spec fn same_node<Id, D>(before: SemNodeState<Id, D>, after: SemNodeState<Id, D>) -> bool {
    &&& after.id == before.id
    &&& after.source == before.source
    &&& after.first == before.first
    &&& after.children == before.children
    &&& after.memo.slot == before.memo.slot
}

/// Whether a derived node is as it was.
pub open spec fn kept<Id, D>(
    before: Seq<SemNodeState<Id, D>>,
    ledger: Ledger,
    after: Seq<SemNodeState<Id, D>>,
    later: Ledger,
    k: int,
) -> bool {
    after[k] == before[k] && later.clean(before[k].memo.slot) == ledger.clean(before[k].memo.slot)
}

/// Whether a derived node's cache holds what a read of it might have shown before.
pub open spec fn stored<Id, P, D>(
    nodes: Seq<NodeState<Id, P>>,
    fold: FoldRelation<P, D>,
    before: Seq<SemNodeState<Id, D>>,
    ledger: Ledger,
    after: SemNodeState<Id, D>,
    later: Ledger,
    k: int,
) -> bool {
    &&& later.clean(after.memo.slot)
    &&& after.memo.cached is Some
    &&& may_show(nodes, before, ledger, fold, k, after.memo.cached->0)
}

/// Whether derived nodes are linked rests on everything but their caches.
proof fn linking_outlives_caches<Id, P, D>(
    nodes: Seq<NodeState<Id, P>>,
    before: Seq<SemNodeState<Id, D>>,
    ledger: Ledger,
    after: Seq<SemNodeState<Id, D>>,
    later: Ledger,
)
    requires
        linked(nodes, before, ledger),
        stacked(before),
        after.len() == before.len(),
        forall|k: int| 0 <= k < before.len() ==> same_node(before[k], #[trigger] after[k]),
        later.slots.len() == ledger.slots.len(),
        forall|at: int|
            0 <= at < ledger.slots.len() ==> (#[trigger] later.slots[at]).deps
                == ledger.slots[at].deps,
    ensures
        linked(nodes, after, later),
        stacked(after),
{
    assert forall|i: int|
        0 <= i < after.len() implies (#[trigger] after[i]).source < nodes.len() && later.has(
        after[i].memo.slot,
    ) && after[i].first <= i by {
        assert(same_node(before[i], after[i]));
        assert(before[i].source < nodes.len());
    }
    assert forall|i: int, k: int| 0 <= i < k < after.len() implies (
    #[trigger] after[i]).memo.slot.index < (#[trigger] after[k]).memo.slot.index by {
        assert(same_node(before[i], after[i]) && same_node(before[k], after[k]));
        assert(before[i].memo.slot.index < before[k].memo.slot.index);
    }
    assert forall|i: int, slot: int| 0 <= i < after.len() implies (
    #[trigger] later.slots[after[i].memo.slot.index as int].deps.contains(slot) <==> follows(
        nodes,
        after,
        i,
        slot,
    )) by {
        assert(same_node(before[i], after[i]));
        assert(ledger.has(before[i].memo.slot));
        assert(ledger.slots[before[i].memo.slot.index as int].deps.contains(slot) <==> follows(
            nodes,
            before,
            i,
            slot,
        ));
        assert forall|id: Id| #[trigger] before[i].children.contains_key(id) implies after[before[i].children[id] as int].memo.slot
            == before[before[i].children[id] as int].memo.slot by {
            assert(before[i].children[id] < i);
            assert(same_node(
                before[before[i].children[id] as int],
                after[before[i].children[id] as int],
            ));
        }
    }
    assert forall|i: int, k: int|
        0 <= i < after.len() && (#[trigger] after[i]).first <= k <= i implies after[i].first <= (
    #[trigger] after[k]).first by {
        assert(same_node(before[i], after[i]) && same_node(before[k], after[k]));
    }
    assert forall|i: int, id: Id|
        0 <= i < after.len() && #[trigger] after[i].children.contains_key(id) implies {
        let kid = after[i].children[id] as int;
        kid < i && after[i].first <= after[kid].first
    } by {
        let kid = after[i].children[id] as int;
        assert(same_node(before[i], after[i]));
        assert(before[i].children.contains_key(id));
        assert(same_node(before[kid], after[kid]));
    }
    assert forall|i: int, id: Id, other: Id|
        0 <= i < after.len() && #[trigger] after[i].children.contains_key(id)
            && #[trigger] after[i].children.contains_key(other) && id != other implies {
        let kid = after[i].children[id] as int;
        let sibling = after[i].children[other] as int;
        kid < after[sibling].first || sibling < after[kid].first
    } by {
        let kid = after[i].children[id] as int;
        let sibling = after[i].children[other] as int;
        assert(same_node(before[i], after[i]));
        assert(before[i].children.contains_key(id) && before[i].children.contains_key(other));
        assert(same_node(before[kid], after[kid]) && same_node(before[sibling], after[sibling]));
    }
}

/// Reading one more child catches up its stretch and no other.
proof fn another_child_is_caught_up<Id, P, D>(
    nodes: Seq<NodeState<Id, P>>,
    fold: FoldRelation<P, D>,
    start: Seq<SemNodeState<Id, D>>,
    ledger: Ledger,
    before: Seq<SemNodeState<Id, D>>,
    mid: Ledger,
    after: Seq<SemNodeState<Id, D>>,
    later: Ledger,
    at: int,
    name: Id,
    seen: Seq<Id>,
)
    requires
        stacked(start),
        linked(nodes, start, ledger),
        0 <= at < start.len(),
        start[at].children.contains_key(name),
        !seen.contains(name),
        caught_up(nodes, fold, start, ledger, before, mid, start[at].first as int, at - 1),
        forall|id: Id| #[trigger]
            start[at].children.contains_key(id) && !seen.contains(id) ==> agree(
                start,
                ledger,
                before,
                mid,
                start[start[at].children[id] as int].first as int,
                start[at].children[id] as int,
            ),
        caught_up(
            nodes,
            fold,
            before,
            mid,
            after,
            later,
            before[start[at].children[name] as int].first as int,
            start[at].children[name] as int,
        ),
    ensures
        caught_up(nodes, fold, start, ledger, after, later, start[at].first as int, at - 1),
        after[at] == before[at],
        later.clean(start[at].memo.slot) == mid.clean(start[at].memo.slot),
        forall|id: Id| #[trigger]
            start[at].children.contains_key(id) && !seen.contains(id) && id != name ==> agree(
                start,
                ledger,
                after,
                later,
                start[start[at].children[id] as int].first as int,
                start[at].children[id] as int,
            ),
{
    let kid = start[at].children[name] as int;
    let first = start[kid].first as int;
    assert(same_node(start[kid], before[kid]));
    assert(agree(start, ledger, before, mid, first, kid));
    assert forall|k: int| 0 <= k < start.len() implies same_node(start[k], #[trigger] after[k]) by {
        assert(same_node(start[k], before[k]) && same_node(before[k], after[k]));
    }
    // Slots outside the child's stretch keep whether they are clean.
    assert forall|k: int| 0 <= k < start.len() && !(first <= k <= kid) implies later.clean(
        (#[trigger] start[k]).memo.slot,
    ) == mid.clean(start[k].memo.slot) by {
        let slot = start[k].memo.slot.index as int;
        assert(later.slots[slot].deps == mid.slots[slot].deps);
        if within(before, first, kid, slot) {
            let other = choose|other: int|
                first <= other <= kid && (#[trigger] before[other]).memo.slot.index == slot;
            assert(same_node(start[other], before[other]));
            assert(start[other].memo.slot.index == start[k].memo.slot.index);
            if other < k {
                assert(start[other].memo.slot.index < start[k].memo.slot.index);
            } else {
                assert(start[k].memo.slot.index < start[other].memo.slot.index);
            }
        }
    }
    assert(settled_within(ledger, later, start, start[at].first as int, at - 1)) by {
        assert forall|slot: int| 0 <= slot < ledger.slots.len() implies {
            &&& (#[trigger] later.slots[slot]).deps == ledger.slots[slot].deps
            &&& ledger.slots[slot].clean ==> later.slots[slot].clean
            &&& later.slots[slot].clean != ledger.slots[slot].clean ==> within(
                start,
                start[at].first as int,
                at - 1,
                slot,
            )
        } by {
            assert(mid.slots[slot].deps == ledger.slots[slot].deps);
            if later.slots[slot].clean != mid.slots[slot].clean {
                let other = choose|other: int|
                    first <= other <= kid && (#[trigger] before[other]).memo.slot.index == slot;
                assert(same_node(start[other], before[other]));
                assert(start[other].memo.slot.index == slot);
                assert(within(start, start[at].first as int, at - 1, slot));
            }
        }
    }
    assert forall|k: int| 0 <= k < start.len() implies kept(start, ledger, after, later, k)
        || stored(nodes, fold, start, ledger, #[trigger] after[k], later, k) by {
        assert(kept(start, ledger, before, mid, k) || stored(
            nodes,
            fold,
            start,
            ledger,
            before[k],
            mid,
            k,
        ));
        assert(kept(before, mid, after, later, k) || stored(
            nodes,
            fold,
            before,
            mid,
            after[k],
            later,
            k,
        ));
        assert(start[k] == start[k]);
        if first <= k <= kid {
            assert(start[k] == before[k]);
            assert(start[kid].first <= start[k].first);
            assert(agree(start, ledger, before, mid, start[k].first as int, k));
            if !kept(before, mid, after, later, k) {
                showing_is_local(
                    nodes,
                    start,
                    ledger,
                    before,
                    mid,
                    fold,
                    k,
                    after[k].memo.cached->0,
                );
            }
        } else {
            assert(after[k] == before[k]);
        }
    }
    assert forall|k: int| 0 <= k < start.len() && !(start[at].first <= k <= at - 1) implies
        #[trigger] after[k] == start[k] by {
        assert(before[k] == start[k]);
    }
    assert(start[at] == start[at]);
    assert forall|id: Id| #[trigger]
        start[at].children.contains_key(id) && !seen.contains(id) && id != name implies agree(
        start,
        ledger,
        after,
        later,
        start[start[at].children[id] as int].first as int,
        start[at].children[id] as int,
    ) by {
        let sibling = start[at].children[id] as int;
        assert(agree(start, ledger, before, mid, start[sibling].first as int, sibling));
        assert forall|k: int| start[sibling].first <= k <= sibling implies (#[trigger] start[k])
            == after[k] && ledger.clean(start[k].memo.slot) == later.clean(start[k].memo.slot) by {
            assert(start[k] == before[k]);
            assert(!(first <= k <= kid)) by {
                assert(start[sibling].first <= start[k].first);
                if first <= k <= kid {
                    assert(start[kid].first <= start[k].first);
                }
            }
            assert(after[k] == before[k]);
        }
    }
}

/// Storing what was derived catches up the whole stretch of a node.
proof fn a_stored_node_is_caught_up<Id, P, D>(
    nodes: Seq<NodeState<Id, P>>,
    fold: FoldRelation<P, D>,
    start: Seq<SemNodeState<Id, D>>,
    ledger: Ledger,
    before: Seq<SemNodeState<Id, D>>,
    mid: Ledger,
    after: Seq<SemNodeState<Id, D>>,
    later: Ledger,
    at: int,
    shown: D,
)
    requires
        stacked(start),
        linked(nodes, start, ledger),
        0 <= at < start.len(),
        caught_up(nodes, fold, start, ledger, before, mid, start[at].first as int, at - 1),
        before[at] == start[at],
        may_show(nodes, start, ledger, fold, at, shown),
        after == before.update(
            at,
            (SemNodeState { memo: before[at].memo.showing(shown), ..before[at] }),
        ),
        later == mid.settled(start[at].memo.slot),
    ensures
        caught_up(nodes, fold, start, ledger, after, later, start[at].first as int, at),
        linked(nodes, after, later),
        stacked(after),
{
    let slot = start[at].memo.slot.index as int;
    assert(ledger.has(start[at].memo.slot));
    assert forall|k: int| 0 <= k < start.len() implies same_node(start[k], #[trigger] after[k]) by {
        assert(same_node(start[k], before[k]));
    }
    assert(settled_within(ledger, later, start, start[at].first as int, at)) by {
        assert forall|s: int| 0 <= s < ledger.slots.len() implies {
            &&& (#[trigger] later.slots[s]).deps == ledger.slots[s].deps
            &&& ledger.slots[s].clean ==> later.slots[s].clean
            &&& later.slots[s].clean != ledger.slots[s].clean ==> within(
                start,
                start[at].first as int,
                at,
                s,
            )
        } by {
            assert(mid.slots[s].deps == ledger.slots[s].deps);
            if s == slot {
                assert(start[at].memo.slot.index == s);
                assert(within(start, start[at].first as int, at, s));
            } else if mid.slots[s].clean != ledger.slots[s].clean {
                let other = choose|other: int|
                    start[at].first <= other <= at - 1 && (#[trigger] start[other]).memo.slot.index
                        == s;
                assert(start[other].memo.slot.index == s);
                assert(within(start, start[at].first as int, at, s));
            }
        }
    }
    assert forall|k: int| 0 <= k < start.len() implies kept(start, ledger, after, later, k)
        || stored(nodes, fold, start, ledger, #[trigger] after[k], later, k) by {
        assert(kept(start, ledger, before, mid, k) || stored(
            nodes,
            fold,
            start,
            ledger,
            before[k],
            mid,
            k,
        ));
        assert(same_node(start[k], before[k]));
        if k < at {
            assert(start[k].memo.slot.index < start[at].memo.slot.index);
        } else if k > at {
            assert(start[at].memo.slot.index < start[k].memo.slot.index);
        }
        assert(ledger.has(start[k].memo.slot));
    }
    linking_outlives_caches(nodes, start, ledger, after, later);
}

/// How a function folds, by views.
pub open spec fn relation<V: View, D: View, F: Fn(&V, &[D]) -> D>(
    fold: F,
) -> FoldRelation<V::V, D::V> {
    |held: V::V, parts: Seq<D::V>, shown: D::V|
        exists|value: &V, items: &[D], result: D|
            {
                &&& #[trigger] call_ensures(fold, (value, items), result)
                &&& value@ == held
                &&& views(items@) == parts
                &&& result@ == shown
            }
}

/// A derived node.
struct SemNode<Id, D> {
    id: Id,
    source: usize,
    first: usize,
    memo: Memo<D>,
    children: KeyedTable<Id, usize>,
}

impl<Id: Key, D: Datum> View for SemNode<Id, D> {
    type V = SemNodeState<Id::V, D::V>;

    closed spec fn view(&self) -> SemNodeState<Id::V, D::V> {
        SemNodeState {
            id: self.id@,
            source: self.source,
            first: self.first,
            memo: self.memo@,
            children: self.children.map(),
        }
    }
}

/// A semantic derivation with one derived reader per source node.
pub struct ThreadSafeSemTree<Id, D, F> {
    nodes: Vec<SemNode<Id, D>>,
    fold: F,
}

impl<Id: Key, D: Datum, F> View for ThreadSafeSemTree<Id, D, F> {
    type V = Seq<SemNodeState<Id::V, D::V>>;

    closed spec fn view(&self) -> Seq<SemNodeState<Id::V, D::V>> {
        self.nodes@.map_values(|node: SemNode<Id, D>| node@)
    }
}

impl<Id: Key, D: Datum, F> ThreadSafeSemTree<Id, D, F> {
    /// The function that derives.
    pub closed spec fn folding(&self) -> F {
        self.fold
    }

    /// Every node's children stand below it, and there is a root.
    pub closed spec fn wf(&self) -> bool {
        &&& forall|i: int| 0 <= i < self.nodes@.len() ==> (#[trigger] self.nodes@[i]).children.wf()
        &&& stacked(self@)
        &&& self@.len() > 0
    }

    /// Whether the function that derives takes, at every node of a stretch, the value held
    /// there with whatever may be derived at its children.
    pub open spec fn folds_within<V: Key>(
        &self,
        nodes: Seq<NodeState<Id::V, V::V>>,
        ledger: Ledger,
        first: int,
        last: int,
    ) -> bool where F: Fn(&V, &[D]) -> D {
        forall|at: int, value: &V, items: &[D]|
            #![trigger self@[at], call_requires(self.folding(), (value, items))]
            {
                &&& first <= at <= last
                &&& value@ == nodes[self@[at].source as int].held
                &&& parts_may_show(
                    nodes,
                    self@,
                    ledger,
                    relation::<V, D, F>(self.folding()),
                    at,
                    views(items@),
                )
            } ==> call_requires(self.folding(), (value, items))
    }

    /// Whether the function that derives takes, at every node, the value held there with
    /// whatever may be derived at its children.
    pub open spec fn folds<V: Key>(
        &self,
        nodes: Seq<NodeState<Id::V, V::V>>,
        ledger: Ledger,
    ) -> bool where F: Fn(&V, &[D]) -> D {
        self.folds_within::<V>(nodes, ledger, 0, self@.len() - 1)
    }

    /// What the function that derives must take below a node rests on the stretch below it
    /// alone.
    proof fn folding_is_local<V: Key>(
        &self,
        other: Self,
        nodes: Seq<NodeState<Id::V, V::V>>,
        here: Ledger,
        there: Ledger,
        last: int,
    ) where F: Fn(&V, &[D]) -> D
        requires
            self.wf(),
            0 <= last < self@.len(),
            other.folding() == self.folding(),
            agree(self@, here, other@, there, self@[last].first as int, last),
            self.folds_within::<V>(nodes, here, self@[last].first as int, last),
        ensures
            other.folds_within::<V>(nodes, there, self@[last].first as int, last),
    {
        let fold = relation::<V, D, F>(self.folding());
        let first = self@[last].first as int;
        assert forall|at: int, value: &V, items: &[D]|
            #![trigger other@[at], call_requires(other.folding(), (value, items))]
            {
                &&& first <= at <= last
                &&& value@ == nodes[other@[at].source as int].held
                &&& parts_may_show(nodes, other@, there, fold, at, views(items@))
            } implies call_requires(other.folding(), (value, items)) by {
            assert(self@[at] == other@[at]);
            let names = nodes[self@[at].source as int].membership.ids;
            let kids = present(names, self@[at].children);
            let parts = views(items@);
            assert forall|i: int| 0 <= i < kids.len() implies may_show(
                nodes,
                self@,
                here,
                fold,
                kids[i] as int,
                #[trigger] parts[i],
            ) by {
                present_are_children(names, self@[at].children, i);
                let kid = kids[i] as int;
                assert(agree(self@, here, other@, there, self@[kid].first as int, kid));
                showing_is_local(nodes, self@, here, other@, there, fold, kid, parts[i]);
            }
            assert(parts_may_show(nodes, self@, here, fold, at, parts));
        }
    }

    /// What storing at one node leaves of the tree's soundness.
    proof fn storing_keeps(&self, before: Self, at: int)
        requires
            before.wf(),
            0 <= at < before.nodes@.len(),
            self.nodes@ == before.nodes@.update(at, self.nodes@[at]),
            self.nodes@[at].id == before.nodes@[at].id,
            self.nodes@[at].source == before.nodes@[at].source,
            self.nodes@[at].first == before.nodes@[at].first,
            self.nodes@[at].children == before.nodes@[at].children,
            stacked(self@),
        ensures
            self.wf(),
    {
        assert forall|i: int| 0 <= i < self.nodes@.len() implies (
        #[trigger] self.nodes@[i]).children.wf() by {
            assert(before.nodes@[i].children.wf());
        }
    }

    /// Reads the derived value at a position.
    fn read<V: Key>(
        &mut self,
        ctx: &mut ThreadSafeContext,
        forest: &SourceForest<Id, V>,
        at: usize,
    ) -> (shown: D) where F: Fn(&V, &[D]) -> D
        requires
            old(ctx).wf(),
            forest.wf(),
            old(self).wf(),
            linked(forest@, old(self)@, old(ctx).ledger()),
            old(self).folds_within::<V>(
                forest@,
                old(ctx).ledger(),
                old(self)@[at as int].first as int,
                at as int,
            ),
            at < old(self)@.len(),
        ensures
            final(ctx).wf(),
            final(self).wf(),
            final(self).folding() == old(self).folding(),
            linked(forest@, final(self)@, final(ctx).ledger()),
            may_show(
                forest@,
                old(self)@,
                old(ctx).ledger(),
                relation::<V, D, F>(old(self).folding()),
                at as int,
                shown@,
            ),
            final(ctx).ledger().clean(final(self)@[at as int].memo.slot),
            final(self)@[at as int].memo.cached == Some(shown@),
            caught_up(
                forest@,
                relation::<V, D, F>(old(self).folding()),
                old(self)@,
                old(ctx).ledger(),
                final(self)@,
                final(ctx).ledger(),
                old(self)@[at as int].first as int,
                at as int,
            ),
        decreases at,
    {
        let ghost start = *self;
        let ghost ledger = ctx.ledger();
        let ghost fold = relation::<V, D, F>(self.fold);
        let ghost node = self@[at as int];
        let ghost nodes = forest@;
        proof {
            forest.wf_facts();
            assert(self.nodes@[at as int]@ == node);
        }
        match self.nodes[at].memo.cached(ctx) {
            Some(shown) => {
                proof {
                    assert(node.memo.shows(ledger, shown@) == shown@);
                }
                return shown;
            },
            None => {},
        }
        let source = self.nodes[at].source;
        let ids = forest.child_ids_at(ctx, source);
        let ghost names = nodes[source as int].membership.ids;
        let mut parts: Vec<D> = Vec::new();
        let mut index: usize = 0;
        proof {
            assert(nodes[source as int].wf());
            assert(views(parts@) =~= Seq::empty());
            assert(names.take(0) =~= Seq::empty());
        }
        while index < ids.len()
            invariant
                ctx.wf(),
                forest.wf(),
                nodes == forest@,
                self.wf(),
                start.wf(),
                self.fold == start.fold,
                start.folds_within::<V>(nodes, ledger, node.first as int, at as int),
                fold == relation::<V, D, F>(start.fold),
                linked(nodes, start@, ledger),
                linked(nodes, self@, ctx.ledger()),
                at < start@.len(),
                node == start@[at as int],
                self@[at as int] == node,
                names == views(ids@),
                names.no_duplicates(),
                index <= ids@.len(),
                caught_up(
                    nodes,
                    fold,
                    start@,
                    ledger,
                    self@,
                    ctx.ledger(),
                    node.first as int,
                    at - 1,
                ),
                ctx.ledger().clean(node.memo.slot) == ledger.clean(node.memo.slot),
                forall|id: Id::V| #[trigger]
                    node.children.contains_key(id) && !names.take(index as int).contains(id)
                        ==> agree(
                        start@,
                        ledger,
                        self@,
                        ctx.ledger(),
                        start@[node.children[id] as int].first as int,
                        node.children[id] as int,
                    ),
                parts@.len() == present(names.take(index as int), node.children).len(),
                forall|i: int|
                    0 <= i < parts@.len() ==> may_show(
                        nodes,
                        start@,
                        ledger,
                        fold,
                        present(names.take(index as int), node.children)[i] as int,
                        (#[trigger] parts@[i])@,
                    ),
            decreases ids@.len() - index,
        {
            let ghost here = *self;
            let ghost mid = ctx.ledger();
            let ghost name = names[index as int];
            proof {
                assert(name == ids@[index as int]@);
                assert(names.take(index + 1).drop_last() =~= names.take(index as int));
                assert(names.take(index + 1).last() == name);
                assert(!names.take(index as int).contains(name)) by {
                    if names.take(index as int).contains(name) {
                        let earlier = names.take(index as int).index_of(name);
                        assert(names[earlier] == name);
                    }
                }
                assert(self.nodes@[at as int]@ == node);
                assert(self.nodes@[at as int].children.wf());
            }
            let child = match self.nodes[at].children.get(&ids[index]) {
                Some(child) => Some(*child),
                None => None,
            };
            match child {
                Some(kid) => {
                    proof {
                        assert(node.children.contains_key(name));
                    }
                    proof {
                        start.folding_is_local::<V>(here, nodes, ledger, mid, kid as int);
                    }
                    let part = self.read(ctx, forest, kid);
                    proof {
                        another_child_is_caught_up(
                            nodes,
                            fold,
                            start@,
                            ledger,
                            here@,
                            mid,
                            self@,
                            ctx.ledger(),
                            at as int,
                            name,
                            names.take(index as int),
                        );
                        assert forall|id: Id::V| #[trigger]
                            node.children.contains_key(id) && !names.take(index + 1).contains(
                                id,
                            ) implies agree(
                            start@,
                            ledger,
                            self@,
                            ctx.ledger(),
                            start@[node.children[id] as int].first as int,
                            node.children[id] as int,
                        ) by {
                            assert(names.take(index + 1)[index as int] == name);
                            assert(id != name);
                            if names.take(index as int).contains(id) {
                                let earlier = names.take(index as int).index_of(id);
                                assert(names.take(index + 1)[earlier] == id);
                            }
                        }
                        showing_is_local(
                            nodes,
                            start@,
                            ledger,
                            here@,
                            mid,
                            fold,
                            kid as int,
                            part@,
                        );
                    }
                    parts.push(part);
                },
                None => {
                    proof {
                        assert forall|id: Id::V| #[trigger]
                            node.children.contains_key(id) && !names.take(index + 1).contains(
                                id,
                            ) implies !names.take(index as int).contains(id) by {
                            if names.take(index as int).contains(id) {
                                let earlier = names.take(index as int).index_of(id);
                                assert(names.take(index + 1)[earlier] == id);
                            }
                        }
                    }
                },
            }
            index = index + 1;
        }
        let value = forest.held_at(source);
        let items = parts.as_slice();
        proof {
            let shown = views(items@);
            assert(names.take(index as int) =~= names);
            assert forall|i: int| 0 <= i < shown.len() implies may_show(
                nodes,
                start@,
                ledger,
                fold,
                present(names, node.children)[i] as int,
                #[trigger] shown[i],
            ) by {
                assert(shown[i] == parts@[i]@);
            }
            assert(parts_may_show(nodes, start@, ledger, fold, at as int, shown));
            assert(start@[at as int].first <= at);
            assert(start@[at as int].source == source);
            assert(value@ == nodes[source as int].held);
            assert(call_requires(start.folding(), (value, items)));
        }
        let derived = (self.fold)(value, items);
        let ghost folded = derived@;
        let ghost here = *self;
        let ghost mid = ctx.ledger();
        proof {
            let shown = views(parts@);
            assert(names.take(index as int) =~= names);
            assert(call_ensures(self.fold, (value, items), derived));
            assert(views(items@) == shown);
            assert(fold(nodes[source as int].held, shown, folded));
            assert forall|i: int|
                0 <= i < shown.len() implies may_show(
                nodes,
                start@,
                ledger,
                fold,
                present(names, node.children)[i] as int,
                #[trigger] shown[i],
            ) by {
                assert(shown[i] == parts@[i]@);
            }
            assert(may_show(nodes, start@, ledger, fold, at as int, folded));
            assert(self.nodes@[at as int]@ == node);
        }
        let slot = &mut self.nodes[at];
        let shown = slot.memo.store(ctx, derived);
        proof {
            assert(self@ =~= here@.update(
                at as int,
                (SemNodeState { memo: node.memo.showing(folded), ..node }),
            ));
            a_stored_node_is_caught_up(
                nodes,
                fold,
                start@,
                ledger,
                here@,
                mid,
                self@,
                ctx.ledger(),
                at as int,
                folded,
            );
            self.storing_keeps(here, at as int);
        }
        shown
    }

    /// Builds a semantic tree whose nodes fold their value with what is derived at their
    /// children. A node that joins the tree later gets its derived reader when the tree
    /// is built again.
    pub fn build<V: Key>(
        ctx: &mut ThreadSafeContext,
        forest: &SourceForest<Id, V>,
        root: &ThreadSafeSourceTree<Id, V>,
        fold: F,
    ) -> (tree: Self) where F: Fn(&V, &[D]) -> D
        requires
            old(ctx).wf(),
            forest.wf(),
            forest.on(old(ctx).ledger()),
            root.stands_in(forest@),
            exists|depth: nat| bounded(forest@, root.place(), depth),
        ensures
            final(ctx).wf(),
            tree.wf(),
            tree.folding() == fold,
            linked(forest@, tree@, final(ctx).ledger()),
            (tree@, final(ctx).ledger()) == deriving(
                forest@,
                root.place(),
                height(forest@, root.place()),
                Seq::<SemNodeState<Id::V, D::V>>::empty(),
                old(ctx).ledger(),
            ),
            final(ctx).ledger().extends(old(ctx).ledger()),
    {
        let mut nodes: Vec<SemNode<Id, D>> = Vec::new();
        proof {
            assert(sem_views(nodes@) =~= Seq::empty());
        }
        let _root = derive(ctx, forest, root.position(), &mut nodes, Ghost(
            height(forest@, root.place()),
        ));
        ThreadSafeSemTree { nodes, fold }
    }

    /// The handle of the root's derived reader.
    pub fn root(&self) -> (handle: Computed<D>)
        requires
            self.wf(),
        ensures
            handle == Computed::<D>::of(self@.last().memo.slot),
    {
        Computed::new(self.nodes[self.nodes.len() - 1].memo.id())
    }

    /// Reads the derived value of the root.
    pub fn value<V: Key>(
        &mut self,
        ctx: &mut ThreadSafeContext,
        forest: &SourceForest<Id, V>,
    ) -> (shown: D) where F: Fn(&V, &[D]) -> D
        requires
            old(ctx).wf(),
            forest.wf(),
            old(self).wf(),
            linked(forest@, old(self)@, old(ctx).ledger()),
            old(self).folds::<V>(forest@, old(ctx).ledger()),
        ensures
            final(ctx).wf(),
            final(self).wf(),
            final(self).folding() == old(self).folding(),
            linked(forest@, final(self)@, final(ctx).ledger()),
            may_show(
                forest@,
                old(self)@,
                old(ctx).ledger(),
                relation::<V, D, F>(old(self).folding()),
                old(self)@.len() - 1,
                shown@,
            ),
            final(ctx).ledger().clean(final(self)@.last().memo.slot),
            final(self)@.last().memo.cached == Some(shown@),
            caught_up(
                forest@,
                relation::<V, D, F>(old(self).folding()),
                old(self)@,
                old(ctx).ledger(),
                final(self)@,
                final(ctx).ledger(),
                old(self)@.last().first as int,
                old(self)@.len() - 1,
            ),
    {
        self.read(ctx, forest, self.nodes.len() - 1)
    }

    /// Where the derived node of a source node stands: the last one where several source
    /// nodes share an identity.
    fn find(&self, id: &Id) -> (found: Option<usize>)
        ensures
            match found {
                Some(at) => derived_at(self@, id@) == Some(at as int),
                None => derived_at(self@, id@) is None,
            },
            found matches Some(at) ==> at < self@.len(),
    {
        let mut rest: usize = self.nodes.len();
        proof {
            assert(self@.take(rest as int) =~= self@);
        }
        while rest > 0
            invariant
                rest <= self@.len(),
                self@.len() == self.nodes@.len(),
                derived_at(self@, id@) == derived_at(self@.take(rest as int), id@),
            decreases rest,
        {
            rest = rest - 1;
            proof {
                assert(self@.take(rest + 1).drop_last() =~= self@.take(rest as int));
                assert(self@[rest as int] == self.nodes@[rest as int]@);
            }
            if self.nodes[rest].id.same(id) {
                return Some(rest);
            }
        }
        None
    }

    /// The handle of the derived reader of a node that was there at build time.
    pub fn node(&self, id: &Id) -> (handle: Option<Computed<D>>)
        ensures
            handle == match derived_at(self@, id@) {
                Some(at) => Some(Computed::<D>::of(self@[at].memo.slot)),
                None => None,
            },
    {
        match self.find(id) {
            Some(at) => Some(Computed::new(self.nodes[at].memo.id())),
            None => None,
        }
    }

    /// Reads the derived value of a node that was there at build time.
    pub fn node_value<V: Key>(
        &mut self,
        ctx: &mut ThreadSafeContext,
        forest: &SourceForest<Id, V>,
        id: &Id,
    ) -> (shown: Option<D>) where F: Fn(&V, &[D]) -> D
        requires
            old(ctx).wf(),
            forest.wf(),
            old(self).wf(),
            linked(forest@, old(self)@, old(ctx).ledger()),
            old(self).folds::<V>(forest@, old(ctx).ledger()),
        ensures
            final(ctx).wf(),
            final(self).wf(),
            final(self).folding() == old(self).folding(),
            linked(forest@, final(self)@, final(ctx).ledger()),
            match (derived_at(old(self)@, id@), shown) {
                (Some(at), Some(value)) => {
                    &&& may_show(
                        forest@,
                        old(self)@,
                        old(ctx).ledger(),
                        relation::<V, D, F>(old(self).folding()),
                        at,
                        value@,
                    )
                    &&& final(ctx).ledger().clean(final(self)@[at].memo.slot)
                    &&& final(self)@[at].memo.cached == Some(value@)
                    &&& caught_up(
                        forest@,
                        relation::<V, D, F>(old(self).folding()),
                        old(self)@,
                        old(ctx).ledger(),
                        final(self)@,
                        final(ctx).ledger(),
                        old(self)@[at].first as int,
                        at,
                    )
                },
                (None, None) => final(self)@ == old(self)@ && final(ctx).ledger()
                    == old(ctx).ledger(),
                _ => false,
            },
    {
        match self.find(id) {
            Some(at) => Some(self.read(ctx, forest, at)),
            None => None,
        }
    }
}

/// Where the derived node of a source node stands: the last one where several source
/// nodes share an identity.
pub open spec fn derived_at<Id, D>(derived: Seq<SemNodeState<Id, D>>, id: Id) -> Option<int>
    decreases derived.len(),
{
    if derived.len() == 0 {
        None
    } else if derived.last().id == id {
        Some(derived.len() - 1)
    } else {
        derived_at(derived.drop_last(), id)
    }
}

/// Some derived nodes, over views.
spec fn sem_views<Id: Key, D: Datum>(nodes: Seq<SemNode<Id, D>>) -> Seq<SemNodeState<Id::V, D::V>> {
    nodes.map_values(|node: SemNode<Id, D>| node@)
}

/// Whether derived nodes are linked outlives new slots.
pub proof fn linking_outlives_growth<Id, P, D>(
    nodes: Seq<NodeState<Id, P>>,
    derived: Seq<SemNodeState<Id, D>>,
    ledger: Ledger,
    later: Ledger,
)
    requires
        linked(nodes, derived, ledger),
        later.extends(ledger),
    ensures
        linked(nodes, derived, later),
{
    assert forall|i: int, slot: int| 0 <= i < derived.len() implies (
    #[trigger] later.slots[derived[i].memo.slot.index as int].deps.contains(slot) <==> follows(
        nodes,
        derived,
        i,
        slot,
    )) by {
        assert(ledger.has(derived[i].memo.slot));
        assert(ledger.slots[derived[i].memo.slot.index as int].deps.contains(slot) <==> follows(
            nodes,
            derived,
            i,
            slot,
        ));
    }
}

/// Whether derived nodes are linked outlives edits of the forest, which keep every node's
/// slots.
pub proof fn linking_outlives_edits<Id, P, D>(
    nodes: Seq<NodeState<Id, P>>,
    edited: Seq<NodeState<Id, P>>,
    derived: Seq<SemNodeState<Id, D>>,
    ledger: Ledger,
    later: Ledger,
)
    requires
        linked(nodes, derived, ledger),
        later.extends(ledger),
        nodes.len() <= edited.len(),
        forall|i: int|
            0 <= i < nodes.len() ==> (#[trigger] edited[i]).cell == nodes[i].cell
                && edited[i].membership.order == nodes[i].membership.order,
    ensures
        linked(edited, derived, later),
{
    linking_outlives_growth(nodes, derived, ledger, later);
    assert forall|i: int, slot: int| 0 <= i < derived.len() implies (
    #[trigger] later.slots[derived[i].memo.slot.index as int].deps.contains(slot) <==> follows(
        edited,
        derived,
        i,
        slot,
    )) by {
        assert(derived[i].source < nodes.len());
        assert(edited[derived[i].source as int].cell == nodes[derived[i].source as int].cell);
        assert(follows(nodes, derived, i, slot) == follows(edited, derived, i, slot));
    }
}

/// Whether a state of the derived nodes is an earlier one with more nodes behind it, each
/// of which has nothing earlier below it.
spec fn grows_from<Id, D>(
    derived: Seq<SemNodeState<Id, D>>,
    earlier: Seq<SemNodeState<Id, D>>,
) -> bool {
    &&& earlier.len() <= derived.len()
    &&& forall|k: int| 0 <= k < earlier.len() ==> #[trigger] derived[k] == earlier[k]
    &&& forall|k: int|
        earlier.len() <= k < derived.len() ==> earlier.len() <= (#[trigger] derived[k]).first
}

/// Derives the nodes of a source node and of everything below it.
fn derive<Id: Key, V: Key, D: Datum>(
    ctx: &mut ThreadSafeContext,
    forest: &SourceForest<Id, V>,
    at: usize,
    nodes: &mut Vec<SemNode<Id, D>>,
    Ghost(depth): Ghost<nat>,
) -> (index: usize)
    requires
        old(ctx).wf(),
        forest.wf(),
        forest.on(old(ctx).ledger()),
        at < forest@.len(),
        bounded(forest@, at as int, depth),
        forall|i: int| 0 <= i < old(nodes)@.len() ==> (#[trigger] old(nodes)@[i]).children.wf(),
        stacked(sem_views(old(nodes)@)),
        linked(forest@, sem_views(old(nodes)@), old(ctx).ledger()),
    ensures
        final(ctx).wf(),
        final(ctx).ledger().extends(old(ctx).ledger()),
        forall|i: int| 0 <= i < final(nodes)@.len() ==> (#[trigger] final(nodes)@[i]).children.wf(),
        stacked(sem_views(final(nodes)@)),
        linked(forest@, sem_views(final(nodes)@), final(ctx).ledger()),
        grows_from(sem_views(final(nodes)@), sem_views(old(nodes)@)),
        final(nodes)@.len() > old(nodes)@.len(),
        sem_views(final(nodes)@).last().first == old(nodes)@.len(),
        index == final(nodes)@.len() - 1,
        (sem_views(final(nodes)@), final(ctx).ledger()) == deriving(
            forest@,
            at as int,
            depth,
            sem_views(old(nodes)@),
            old(ctx).ledger(),
        ),
    decreases depth,
{
    let ghost start = sem_views(nodes@);
    let ghost ledger = ctx.ledger();
    let ghost source = forest@[at as int];
    let ghost names = source.membership.ids;
    let ghost below = (depth - 1) as nat;
    let first = nodes.len();
    let ids = forest.child_ids_at(ctx, at);
    let mut kids: Vec<usize> = Vec::new();
    let mut children: KeyedTable<Id, usize> = KeyedTable::new();
    let mut index: usize = 0;
    proof {
        forest.wf_facts();
        assert(source.wf());
    }
    while index < ids.len()
        invariant
            ctx.wf(),
            ctx.ledger().extends(ledger),
            forest.wf(),
            rooted(forest@),
            forest.on(ctx.ledger()),
            at < forest@.len(),
            source == forest@[at as int],
            source.wf(),
            bounded(forest@, at as int, depth),
            below == (depth - 1) as nat,
            depth > 0,
            names == source.membership.ids,
            names == views(ids@),
            index <= ids@.len(),
            first == start.len(),
            forall|i: int| 0 <= i < nodes@.len() ==> (#[trigger] nodes@[i]).children.wf(),
            stacked(sem_views(nodes@)),
            linked(forest@, sem_views(nodes@), ctx.ledger()),
            grows_from(sem_views(nodes@), start),
            children.wf(),
            kids@.len() == index,
            forall|j: int|
                0 <= j < index ==> start.len() <= sem_views(nodes@)[(#[trigger] kids@[j]) as int].first
                    && kids@[j] < nodes@.len() && children.map().contains_key(names[j])
                    && children.map()[names[j]] == kids@[j],
            forall|j: int, l: int|
                0 <= j < l < index ==> (#[trigger] kids@[j]) < sem_views(nodes@)[(
                #[trigger] kids@[l]) as int].first,
            forall|id: Id::V| #[trigger]
                children.map().contains_key(id) ==> exists|j: int|
                    0 <= j < index && names[j] == id && children.map()[id] == #[trigger] kids@[j],
            deriving_kids(forest@, at as int, below, start, ledger, index as nat) == (
                sem_views(nodes@),
                ctx.ledger(),
                kids@,
                children.map(),
            ),
        decreases ids@.len() - index,
    {
        let ghost name = names[index as int];
        let ghost before = sem_views(nodes@);
        let ghost here = ctx.ledger();
        let ghost kids_before = kids@;
        let ghost map_before = children.map();
        proof {
            assert(name == ids@[index as int]@);
            assert(names.contains(name));
            assert(source.membership.handles.contains_key(name));
            assert(source.kids.contains_key(name));
            assert(bounded(forest@, source.kids[name] as int, below));
        }
        match forest.kid_at(at, &ids[index]) {
            Some(kid) => {
                let derived = derive(ctx, forest, kid, nodes, Ghost(below));
                kids.push(derived);
                children.put(ids[index].duplicate(), derived);
                proof {
                    let after = sem_views(nodes@);
                    forest.stays_on(here, ctx.ledger());
                    assert(derived == (after.len() - 1) as usize);
                    assert(grows_from(after, start)) by {
                        assert forall|k: int| 0 <= k < start.len() implies #[trigger] after[k]
                            == start[k] by {
                            assert(before[k] == start[k]);
                        }
                        assert forall|k: int| start.len() <= k < after.len() implies start.len()
                            <= (#[trigger] after[k]).first by {
                            if k < before.len() {
                                assert(after[k] == before[k]);
                            }
                        }
                    }
                    assert forall|j: int| 0 <= j < index + 1 implies start.len() <= after[(
                    #[trigger] kids@[j]) as int].first && kids@[j] < nodes@.len()
                        && children.map().contains_key(names[j]) && children.map()[names[j]]
                        == kids@[j] by {
                        if j < index {
                            assert(kids@[j] == kids_before[j]);
                            assert(after[kids@[j] as int] == before[kids@[j] as int]);
                            assert(names[j] != name);
                        }
                    }
                    assert forall|j: int, l: int| 0 <= j < l < index + 1 implies (
                    #[trigger] kids@[j]) < after[(#[trigger] kids@[l]) as int].first by {
                        assert(kids@[j] == kids_before[j]);
                        if l < index {
                            assert(kids@[l] == kids_before[l]);
                            assert(after[kids@[l] as int] == before[kids@[l] as int]);
                        } else {
                            assert(kids_before[j] < before.len());
                        }
                    }
                    assert forall|id: Id::V| #[trigger]
                        children.map().contains_key(id) implies exists|j: int|
                        0 <= j < index + 1 && names[j] == id && children.map()[id]
                            == #[trigger] kids@[j] by {
                        if id == name {
                            assert(kids@[index as int] == derived);
                        } else {
                            assert(map_before.contains_key(id));
                            let j = choose|j: int|
                                0 <= j < index && names[j] == id && map_before[id]
                                    == #[trigger] kids_before[j];
                            assert(kids@[j] == kids_before[j]);
                        }
                    }
                }
            },
            None => {},
        }
        index = index + 1;
    }
    let (cell, order) = forest.slots_at(at);
    let mut deps: Vec<SlotId> = Vec::new();
    deps.push(cell);
    deps.push(order);
    let ghost derived = sem_views(nodes@);
    let ghost here = ctx.ledger();
    let mut next: usize = 0;
    proof {
        assert(source.on(here));
    }
    while next < kids.len()
        invariant
            derived == sem_views(nodes@),
            here == ctx.ledger(),
            linked(forest@, derived, here),
            next <= kids@.len(),
            here.leaf(cell),
            here.leaf(order),
            forall|j: int| 0 <= j < kids@.len() ==> (#[trigger] kids@[j]) < derived.len(),
            deps@.len() == next + 2,
            deps@[0] == cell,
            deps@[1] == order,
            forall|j: int|
                0 <= j < next ==> (#[trigger] deps@[j + 2]) == derived[kids@[j] as int].memo.slot,
            forall|j: int| 0 <= j < deps@.len() ==> here.has(#[trigger] deps@[j]),
        decreases kids@.len() - next,
    {
        let kid = kids[next];
        proof {
            assert(derived[kid as int] == nodes@[kid as int]@);
            assert(here.has(derived[kid as int].memo.slot));
        }
        deps.push(nodes[kid].memo.id());
        next = next + 1;
    }
    let ghost positions = deps@.map_values(|slot: SlotId| slot.index as int);
    proof {
        let expected = followed(source, derived, kids@);
        assert(positions.len() == expected.len());
        assert forall|j: int| 0 <= j < positions.len() implies positions[j] == expected[j] by {
            if j >= 2 {
                assert(deps@[(j - 2) + 2] == derived[kids@[j - 2] as int].memo.slot);
            }
        }
        assert(positions =~= expected);
    }
    let memo = Memo::new(ctx, deps);
    let node = SemNode {
        id: forest.key_at(at).duplicate(),
        source: at,
        first,
        memo,
        children,
    };
    let ghost added = node@;
    nodes.push(node);
    proof {
        let after = sem_views(nodes@);
        assert(after =~= derived.push(added));
        a_parent_is_stacked(derived, added, start.len() as int, names, kids@);
        assert(ctx.ledger().extends(here));
        a_parent_is_linked(forest@, derived, here, added, source, names, kids@, ctx.ledger());
        assert forall|k: int| start.len() <= k < after.len() implies start.len() <= (
        #[trigger] after[k]).first by {
            if k < derived.len() {
                assert(after[k] == derived[k]);
            }
        }
        assert forall|k: int| 0 <= k < start.len() implies #[trigger] after[k] == start[k] by {
            assert(derived[k] == start[k]);
        }
        assert(added.memo =~= MemoState::<D::V>::at(here.slots.len() as int));
    }
    nodes.len() - 1
}

/// A parent behind its children's stretches leaves the nodes stacked.
proof fn a_parent_is_stacked<Id, D>(
    derived: Seq<SemNodeState<Id, D>>,
    added: SemNodeState<Id, D>,
    first: int,
    names: Seq<Id>,
    kids: Seq<usize>,
)
    requires
        stacked(derived),
        added.first == first,
        0 <= first <= derived.len(),
        kids.len() == names.len(),
        forall|k: int| first <= k < derived.len() ==> first <= (#[trigger] derived[k]).first,
        forall|j: int|
            0 <= j < kids.len() ==> first <= derived[(#[trigger] kids[j]) as int].first && kids[j]
                < derived.len(),
        forall|j: int, l: int|
            0 <= j < l < kids.len() ==> (#[trigger] kids[j]) < derived[(
            #[trigger] kids[l]) as int].first,
        forall|id: Id| #[trigger]
            added.children.contains_key(id) ==> exists|j: int|
                0 <= j < kids.len() && names[j] == id && added.children[id] == #[trigger] kids[j],
    ensures
        stacked(derived.push(added)),
{
    let after = derived.push(added);
    let at = derived.len() as int;
    assert forall|i: int, id: Id|
        0 <= i < after.len() && #[trigger] after[i].children.contains_key(id) implies {
        let kid = after[i].children[id] as int;
        kid < i && after[i].first <= after[kid].first
    } by {
        if i < at {
            assert(derived[i].children.contains_key(id));
        } else {
            let j = choose|j: int|
                0 <= j < kids.len() && names[j] == id && added.children[id] == #[trigger] kids[j];
            assert(first <= derived[kids[j] as int].first);
        }
    }
    assert forall|i: int, id: Id, other: Id|
        0 <= i < after.len() && #[trigger] after[i].children.contains_key(id)
            && #[trigger] after[i].children.contains_key(other) && id != other implies {
        let kid = after[i].children[id] as int;
        let sibling = after[i].children[other] as int;
        kid < after[sibling].first || sibling < after[kid].first
    } by {
        if i < at {
            assert(derived[i].children.contains_key(id) && derived[i].children.contains_key(other));
        } else {
            let j = choose|j: int|
                0 <= j < kids.len() && names[j] == id && added.children[id] == #[trigger] kids[j];
            let l = choose|l: int|
                0 <= l < kids.len() && names[l] == other && added.children[other]
                    == #[trigger] kids[l];
            assert(j != l);
            if j < l {
                assert(kids[j] < derived[kids[l] as int].first);
            } else {
                assert(kids[l] < derived[kids[j] as int].first);
            }
        }
    }
    assert forall|i: int, k: int|
        0 <= i < after.len() && (#[trigger] after[i]).first <= k <= i implies after[i].first <= (
    #[trigger] after[k]).first by {
        if i == at && k < at {
            assert(first <= derived[k].first);
        } else if i < at {
            assert(derived[i].first <= derived[k].first);
        }
    }
}

/// A parent whose reader follows its own slots and its children's leaves the nodes
/// linked.
proof fn a_parent_is_linked<Id, P, D>(
    nodes: Seq<NodeState<Id, P>>,
    derived: Seq<SemNodeState<Id, D>>,
    ledger: Ledger,
    added: SemNodeState<Id, D>,
    source: NodeState<Id, P>,
    names: Seq<Id>,
    kids: Seq<usize>,
    later: Ledger,
)
    requires
        linked(nodes, derived, ledger),
        stacked(derived),
        added.source < nodes.len(),
        nodes[added.source as int] == source,
        kids.len() == names.len(),
        added.memo.slot.index == ledger.slots.len(),
        later == ledger.allocated(followed(source, derived, kids)),
        forall|j: int|
            0 <= j < kids.len() ==> (#[trigger] kids[j]) < derived.len()
                && added.children.contains_key(names[j]) && added.children[names[j]] == kids[j],
        forall|id: Id| #[trigger]
            added.children.contains_key(id) ==> exists|j: int|
                0 <= j < kids.len() && names[j] == id && added.children[id] == #[trigger] kids[j],
    ensures
        linked(nodes, derived.push(added), later),
{
    let after = derived.push(added);
    let at = derived.len() as int;
    let deps = followed(source, derived, kids);
    linking_outlives_growth(nodes, derived, ledger, later);
    assert forall|i: int|
        0 <= i < after.len() implies (#[trigger] after[i]).source < nodes.len() && later.has(
        after[i].memo.slot,
    ) by {
        if i < at {
            assert(derived[i].source < nodes.len());
        }
    }
    assert forall|i: int, k: int| 0 <= i < k < after.len() implies (
    #[trigger] after[i]).memo.slot.index < (#[trigger] after[k]).memo.slot.index by {
        if k < at {
            assert(derived[i].memo.slot.index < derived[k].memo.slot.index);
        } else {
            assert(ledger.has(derived[i].memo.slot));
        }
    }
    assert forall|i: int, slot: int| 0 <= i < after.len() implies (
    #[trigger] later.slots[after[i].memo.slot.index as int].deps.contains(slot) <==> follows(
        nodes,
        after,
        i,
        slot,
    )) by {
        if i < at {
            assert(later.slots[derived[i].memo.slot.index as int].deps.contains(slot) <==> follows(
                nodes,
                derived,
                i,
                slot,
            ));
            assert forall|id: Id| #[trigger] derived[i].children.contains_key(id) implies after[derived[i].children[id] as int]
                == derived[derived[i].children[id] as int] by {
                assert(derived[i].children[id] < i);
            }
        } else {
            assert(later.slots[added.memo.slot.index as int].deps == deps);
            if deps.contains(slot) {
                let j = deps.index_of(slot);
                if j >= 2 {
                    let kid = kids[j - 2];
                    assert(added.children.contains_key(names[j - 2]));
                    assert(after[kid as int] == derived[kid as int]);
                }
            }
            if follows(nodes, after, i, slot) {
                if slot == source.cell.index {
                    assert(deps[0] == slot);
                } else if slot == source.membership.order.index {
                    assert(deps[1] == slot);
                } else {
                    let id = choose|id: Id| #[trigger]
                        added.children.contains_key(id)
                            && after[added.children[id] as int].memo.slot.index == slot;
                    let j = choose|j: int|
                        0 <= j < kids.len() && names[j] == id && added.children[id]
                            == #[trigger] kids[j];
                    assert(after[kids[j] as int] == derived[kids[j] as int]);
                    assert(deps[j + 2] == slot);
                }
            }
        }
    }
}

} // verus!
