//! An ordered, stably keyed reactive tree on a context that threads share.
//!
//! Each node owns one reactive value and one ordered map for the membership of its
//! children. The nodes live together in a forest, and a tree is a handle to one of
//! them: handles to the same node see the same edits, and a removed child lives on for
//! those who hold it.

use vstd::prelude::*;

use crate::graph::{
    Ledger, SlotId, a_leaf_falls_as_a_root, clearing_unseats_what_it_reaches, growing_moves_none,
};
use crate::keyed_order::{after_anchor, before_anchor, clamped};
use crate::reactive::{ReactiveGraph, Source, SourceCell, ThreadSafeContext};
use crate::reactive_family::{FamilyState, only};
use crate::table::KeyedTable;
use crate::thread_safe_reactive_family::ThreadSafeSourceMap;
use crate::value::{Key, Datum};

verus! {

/// A node, over views.
#[verifier::ext_equal]
#[verifier::reject_recursive_types(Id)]
pub struct NodeState<Id, P> {
    /// Its identity.
    pub key: Id,
    /// Its value.
    pub held: P,
    /// The slot of its value.
    pub cell: SlotId,
    /// The ordered membership of its direct children.
    pub membership: FamilyState<Id, (), Source<()>>,
    /// Where each direct child stands.
    pub kids: Map<Id, usize>,
}

impl<Id, P> NodeState<Id, P> {
    /// A node without children, its slots from a position on.
    pub open spec fn leaf(key: Id, held: P, first: int) -> Self {
        NodeState {
            key,
            held,
            cell: SlotId { index: first as usize },
            membership: FamilyState::initial(first + 1),
            kids: Map::empty(),
        }
    }

    /// Children and membership are in lockstep.
    pub open spec fn wf(self) -> bool {
        &&& self.membership.wf()
        &&& forall|id: Id| #[trigger]
            self.kids.contains_key(id) <==> self.membership.handles.contains_key(id)
    }

    /// The node's slots are on a ledger.
    pub open spec fn on(self, ledger: Ledger) -> bool {
        &&& ledger.leaf(self.cell)
        &&& self.membership.on(ledger)
    }

    /// A node stays on a ledger that only grows.
    pub proof fn stays_on(self, ledger: Ledger, later: Ledger)
        requires
            self.on(ledger),
            later.extends(ledger),
        ensures
            self.on(later),
    {
        self.membership.stays_on(ledger, later);
    }

    /// With a child behind the others, and the ledger after both signals moved.
    pub open spec fn adopting(self, ledger: Ledger, id: Id, kid: usize) -> (Self, Ledger) {
        let (membership, after) = self.membership.written(ledger, id, ());
        (NodeState { membership, kids: self.kids.insert(id, kid), ..self }, after)
    }

    /// Without a child, and the ledger after both signals moved.
    pub open spec fn dropping(self, ledger: Ledger, id: Id) -> (Self, Ledger) {
        let (membership, after) = self.membership.removed(ledger, id);
        (NodeState { membership, kids: self.kids.remove(id), ..self }, after)
    }

    /// With a child moved from one position to another.
    pub open spec fn moving(self, ledger: Ledger, from: int, to: int) -> (Self, Ledger) {
        let (membership, after) = self.membership.reordered(ledger, from, to);
        (NodeState { membership, ..self }, after)
    }
}

/// Every node is sound, and every child stands in the forest under its identity.
pub open spec fn rooted<Id, P>(nodes: Seq<NodeState<Id, P>>) -> bool {
    &&& forall|at: int| 0 <= at < nodes.len() ==> (#[trigger] nodes[at]).wf()
    &&& forall|at: int, id: Id|
        0 <= at < nodes.len() && #[trigger] nodes[at].kids.contains_key(id) ==> nodes[at].kids[id]
            < nodes.len() && nodes[nodes[at].kids[id] as int].key == id
}

/// The node at the end of a path of identities.
pub open spec fn resolved<Id, P>(nodes: Seq<NodeState<Id, P>>, at: int, path: Seq<Id>) -> Option<
    int,
>
    decreases path.len(),
{
    if path.len() == 0 {
        Some(at)
    } else if nodes[at].kids.contains_key(path[0]) {
        resolved(nodes, nodes[at].kids[path[0]] as int, path.skip(1))
    } else {
        None
    }
}

/// One node.
struct Node<Id, V> {
    id: Id,
    value: SourceCell<V>,
    order: ThreadSafeSourceMap<Id, ()>,
    kids: KeyedTable<Id, usize>,
}

impl<Id: Key, V: Key> View for Node<Id, V> {
    type V = NodeState<Id::V, V::V>;

    closed spec fn view(&self) -> NodeState<Id::V, V::V> {
        NodeState {
            key: self.id@,
            held: self.value.value()@,
            cell: self.value.slot(),
            membership: self.order@,
            kids: self.kids.map(),
        }
    }
}

impl<Id: Key, V: Key> Node<Id, V> {
    spec fn wf(&self) -> bool {
        &&& self.order.wf()
        &&& self.kids.wf()
    }
}

/// The nodes of some trees.
pub struct SourceForest<Id, V> {
    nodes: Vec<Node<Id, V>>,
}

impl<Id: Key, V: Key> View for SourceForest<Id, V> {
    type V = Seq<NodeState<Id::V, V::V>>;

    closed spec fn view(&self) -> Seq<NodeState<Id::V, V::V>> {
        self.nodes@.map_values(|node: Node<Id, V>| node@)
    }
}

impl<Id: Key, V: Key> SourceForest<Id, V> {
    /// The forest is one that its operations can reach.
    pub closed spec fn wf(&self) -> bool {
        &&& forall|at: int| 0 <= at < self.nodes@.len() ==> (#[trigger] self.nodes@[at]).wf()
        &&& rooted(self@)
    }

    /// Every node's slots are on a ledger.
    pub open spec fn on(&self, ledger: Ledger) -> bool {
        forall|at: int| 0 <= at < self@.len() ==> (#[trigger] self@[at]).on(ledger)
    }

    /// What well-formedness says to a caller.
    pub proof fn wf_facts(&self)
        requires
            self.wf(),
        ensures
            rooted(self@),
    {
    }

    /// A forest stays on a ledger that only grows.
    pub proof fn stays_on(&self, ledger: Ledger, later: Ledger)
        requires
            self.on(ledger),
            later.extends(ledger),
        ensures
            self.on(later),
    {
        assert forall|at: int| 0 <= at < self@.len() implies (#[trigger] self@[at]).on(later) by {
            self@[at].stays_on(ledger, later);
        }
    }

    /// What one changed node leaves of the forest's soundness.
    proof fn changing_one_keeps(&self, before: Self, at: int, ledger: Ledger, later: Ledger)
        requires
            before.wf(),
            before.on(ledger),
            later.extends(ledger),
            0 <= at < before.nodes@.len(),
            self.nodes@ == before.nodes@.update(at, self.nodes@[at]),
            self.nodes@[at].wf(),
            self.nodes@[at]@.wf(),
            self.nodes@[at]@.on(later),
            self.nodes@[at]@.key == before@[at].key,
            forall|id: Id::V| #[trigger]
                self.nodes@[at]@.kids.contains_key(id) ==> self.nodes@[at]@.kids[id]
                    < before@.len() && before@[self.nodes@[at]@.kids[id] as int].key == id,
        ensures
            self.wf(),
            self.on(later),
            self@ == before@.update(at, self.nodes@[at]@),
    {
        assert(self@ =~= before@.update(at, self.nodes@[at]@));
        assert forall|i: int| 0 <= i < self.nodes@.len() implies (#[trigger] self.nodes@[i]).wf() by {
            if i != at {
                assert(before.nodes@[i].wf());
            }
        }
        assert forall|i: int| 0 <= i < self@.len() implies (#[trigger] self@[i]).wf()
            && self@[i].on(later) by {
            if i != at {
                assert(self@[i] == before@[i]);
                before@[i].stays_on(ledger, later);
            }
        }
        assert forall|i: int, id: Id::V|
            0 <= i < self@.len() && #[trigger] self@[i].kids.contains_key(id) implies self@[i].kids[id]
            < self@.len() && self@[self@[i].kids[id] as int].key == id by {
            if i != at {
                assert(before@[i].kids.contains_key(id));
            }
        }
    }

    /// What reordering the children of one node leaves of the forest's soundness.
    proof fn reordering_keeps(&self, before: Self, at: int, ledger: Ledger, later: Ledger)
        requires
            before.wf(),
            before.on(ledger),
            later.extends(ledger),
            0 <= at < before.nodes@.len(),
            self.nodes@ == before.nodes@.update(at, self.nodes@[at]),
            self.nodes@[at].wf(),
            self.nodes@[at].id == before.nodes@[at].id,
            self.nodes@[at].value == before.nodes@[at].value,
            self.nodes@[at].kids == before.nodes@[at].kids,
            self.nodes@[at].order@.on(later),
            self.nodes@[at].order@.handles == before.nodes@[at].order@.handles,
        ensures
            self.wf(),
            self.on(later),
            self@ == before@.update(
                at,
                (NodeState { membership: self.nodes@[at].order@, ..before@[at] }),
            ),
    {
        let now = self.nodes@[at];
        let was = before.nodes@[at];
        assert(before@[at] == was@);
        assert(before@[at].on(ledger));
        assert(was@.wf());
        now.order.wf_facts();
        assert(now@ =~= (NodeState { membership: now.order@, ..was@ }));
        assert forall|other: Id::V| #[trigger] now@.kids.contains_key(other)
            <==> now@.membership.handles.contains_key(other) by {
            assert(was@.kids.contains_key(other) <==> was@.membership.handles.contains_key(other));
        }
        assert forall|other: Id::V| #[trigger] now@.kids.contains_key(other) implies now@.kids[other]
            < before@.len() && before@[now@.kids[other] as int].key == other by {
            assert(before@[at].kids.contains_key(other));
        }
        self.changing_one_keeps(before, at, ledger, later);
    }

    /// An empty forest.
    pub fn new() -> (forest: Self)
        ensures
            forest.wf(),
            forest@ == Seq::<NodeState<Id::V, V::V>>::empty(),
    {
        let forest = SourceForest { nodes: Vec::new() };
        proof {
            assert(forest@ =~= Seq::<NodeState<Id::V, V::V>>::empty());
        }
        forest
    }

    /// How many nodes there are.
    pub fn size(&self) -> (count: usize)
        ensures
            count == self@.len(),
    {
        self.nodes.len()
    }

    /// The value of the node at a position.
    pub fn held_at(&self, at: usize) -> (value: &V)
        requires
            at < self@.len(),
        ensures
            value@ == self@[at as int].held,
    {
        self.nodes[at].value.get()
    }

    /// The identity of the node at a position.
    pub fn key_at(&self, at: usize) -> (id: &Id)
        requires
            at < self@.len(),
        ensures
            id@ == self@[at as int].key,
    {
        &self.nodes[at].id
    }

    /// The slots of a node's value and of its order.
    pub fn slots_at(&self, at: usize) -> (slots: (SlotId, SlotId))
        requires
            at < self@.len(),
        ensures
            slots.0 == self@[at as int].cell,
            slots.1 == self@[at as int].membership.order,
    {
        (self.nodes[at].value.id(), self.nodes[at].order.order_slot())
    }

    /// The identities of a node's direct children, in order.
    pub fn child_ids_at(&self, ctx: &ThreadSafeContext, at: usize) -> (ids: Vec<Id>)
        requires
            at < self@.len(),
        ensures
            ids@.map_values(|id: Id| id@) == self@[at as int].membership.ids,
    {
        self.nodes[at].order.keys(ctx)
    }

    /// Where a direct child of a node stands.
    pub fn kid_at(&self, at: usize, id: &Id) -> (found: Option<usize>)
        requires
            self.wf(),
            at < self@.len(),
        ensures
            match found {
                Some(kid) => self@[at as int].kids.contains_key(id@) && kid
                    == self@[at as int].kids[id@] && kid < self@.len(),
                None => !self@[at as int].kids.contains_key(id@),
            },
    {
        proof {
            assert(self.nodes@[at as int].wf());
            assert(self@[at as int] == self.nodes@[at as int]@);
        }
        match self.nodes[at].kids.get(id) {
            Some(kid) => Some(*kid),
            None => None,
        }
    }

    /// A new node without children.
    fn plant(&mut self, ctx: &mut ThreadSafeContext, id: Id, value: V) -> (at: usize)
        requires
            old(ctx).wf(),
            old(self).wf(),
            old(self).on(old(ctx).ledger()),
        ensures
            final(ctx).wf(),
            final(self).wf(),
            final(self).on(final(ctx).ledger()),
            at == old(self)@.len(),
            at < final(self)@.len(),
            final(self)@ == old(self)@.push(
                NodeState::leaf(id@, value@, old(ctx).ledger().slots.len() as int),
            ),
            final(ctx).ledger() == old(ctx).ledger().grown(3),
            final(ctx).ledger().extends(old(ctx).ledger()),
    {
        let ghost start = ctx.ledger();
        proof {
            reveal_with_fuel(Ledger::grown, 4);
            ctx.wf_facts();
            growing_moves_none(start, 3, SlotId { index: 0 });
        }
        let ghost leaf = NodeState::leaf(id@, value@, start.slots.len() as int);
        let value = SourceCell::new(ctx, value);
        let order = ThreadSafeSourceMap::new(ctx);
        let node = Node { id, value, order, kids: KeyedTable::new() };
        let at = self.nodes.len();
        self.nodes.push(node);
        proof {
            let before = *old(self);
            node.order.wf_facts();
            assert(node@ =~= leaf);
            assert(self@ =~= before@.push(leaf));
            assert forall|i: int| 0 <= i < self.nodes@.len() implies (
            #[trigger] self.nodes@[i]).wf() by {
                if i < at {
                    assert(before.nodes@[i].wf());
                }
            }
            assert forall|i: int| 0 <= i < self@.len() implies (#[trigger] self@[i]).wf()
                && self@[i].on(ctx.ledger()) by {
                if i < at {
                    assert(self@[i] == before@[i]);
                    before@[i].stays_on(start, ctx.ledger());
                }
            }
            assert forall|i: int, other: Id::V|
                0 <= i < self@.len() && #[trigger] self@[i].kids.contains_key(other) implies
                self@[i].kids[other] < self@.len() && self@[self@[i].kids[other] as int].key
                == other by {
                if i < at {
                    assert(before@[i].kids.contains_key(other));
                }
            }
        }
        at
    }

    /// Puts a node behind the other children of another. Its identity must be new there.
    fn adopt(&mut self, ctx: &mut ThreadSafeContext, at: usize, id: Id, kid: usize)
        requires
            old(ctx).wf(),
            old(self).wf(),
            old(self).on(old(ctx).ledger()),
            at < old(self)@.len(),
            kid < old(self)@.len(),
            old(self)@[kid as int].key == id@,
            !old(self)@[at as int].kids.contains_key(id@),
        ensures
            final(ctx).wf(),
            final(self).wf(),
            final(self).on(final(ctx).ledger()),
            ({
                let (node, ledger) = old(self)@[at as int].adopting(old(ctx).ledger(), id@, kid);
                final(self)@ == old(self)@.update(at as int, node) && final(ctx).ledger() == ledger
            }),
    {
        let ghost ledger = ctx.ledger();
        let ghost before = *self;
        let ghost name = id@;
        let ghost was = self.nodes@[at as int];
        proof {
            assert(before@[at as int] == was@);
            assert(was.wf());
            assert(before@[at as int].on(ledger));
            was.order.wf_facts();
            assert(was@.wf());
        }
        let node = &mut self.nodes[at];
        node.order.set(ctx, id.duplicate(), ());
        node.kids.put(id, kid);
        proof {
            let (next, after) = was@.adopting(ledger, name, kid);
            let now = self.nodes@[at as int];
            now.order.wf_facts();
            assert(now@ =~= next);
            assert forall|other: Id::V| #[trigger] now@.kids.contains_key(other)
                <==> now@.membership.handles.contains_key(other) by {
                assert(was@.kids.contains_key(other)
                    <==> was@.membership.handles.contains_key(other));
            }
            assert forall|other: Id::V| #[trigger]
                now@.kids.contains_key(other) implies now@.kids[other] < before@.len()
                && before@[now@.kids[other] as int].key == other by {
                if other != name {
                    assert(before@[at as int].kids.contains_key(other));
                }
            }
            self.changing_one_keeps(before, at as int, ledger, ctx.ledger());
        }
    }
}

/// A handle to a node in an ordered, stably keyed reactive tree.
pub struct ThreadSafeSourceTree<Id, V> {
    id: Id,
    value: Source<V>,
    at: usize,
}

impl<Id: Key, V: Key> ThreadSafeSourceTree<Id, V> {
    /// The node's identity.
    pub closed spec fn key(&self) -> Id::V {
        self.id@
    }

    /// The slot of the node's value.
    pub closed spec fn cell(&self) -> SlotId {
        self.value.slot()
    }

    /// Where the node stands in its forest.
    pub closed spec fn place(&self) -> int {
        self.at as int
    }

    /// Whether this is a handle to a node of a forest.
    pub open spec fn stands_in(&self, nodes: Seq<NodeState<Id::V, V::V>>) -> bool {
        &&& 0 <= self.place() < nodes.len()
        &&& nodes[self.place()].key == self.key()
        &&& nodes[self.place()].cell == self.cell()
    }

    /// The node that this is a handle to.
    pub open spec fn node(&self, nodes: Seq<NodeState<Id::V, V::V>>) -> NodeState<Id::V, V::V> {
        nodes[self.place()]
    }

    /// A handle to the node at a position.
    fn handle(forest: &SourceForest<Id, V>, at: usize) -> (tree: Self)
        requires
            at < forest@.len(),
        ensures
            tree.place() == at,
            tree.stands_in(forest@),
    {
        ThreadSafeSourceTree {
            id: forest.nodes[at].id.duplicate(),
            value: Source::new(forest.nodes[at].value.id()),
            at,
        }
    }

    /// Another handle to the same node.
    pub fn share(&self) -> (tree: Self)
        ensures
            tree.place() == self.place(),
            tree.key() == self.key(),
            tree.cell() == self.cell(),
    {
        ThreadSafeSourceTree { id: self.id.duplicate(), value: self.value, at: self.at }
    }

    /// Where the node stands in its forest.
    pub fn position(&self) -> (at: usize)
        ensures
            at == self.place(),
    {
        self.at
    }

    /// A leaf with a stable identity and an initial value.
    pub fn leaf(
        ctx: &mut ThreadSafeContext,
        forest: &mut SourceForest<Id, V>,
        id: Id,
        value: V,
    ) -> (tree: Self)
        requires
            old(ctx).wf(),
            old(forest).wf(),
            old(forest).on(old(ctx).ledger()),
        ensures
            final(ctx).wf(),
            final(forest).wf(),
            final(forest).on(final(ctx).ledger()),
            tree.stands_in(final(forest)@),
            tree.place() == old(forest)@.len(),
            final(forest)@ == old(forest)@.push(
                NodeState::leaf(id@, value@, old(ctx).ledger().slots.len() as int),
            ),
            final(ctx).ledger() == old(ctx).ledger().grown(3),
    {
        let at = forest.plant(ctx, id, value);
        Self::handle(forest, at)
    }

    /// This node's identity.
    pub fn id(&self) -> (id: &Id)
        ensures
            id@ == self.key(),
    {
        &self.id
    }

    /// The handle of this node's value.
    pub fn value(&self) -> (handle: Source<V>)
        ensures
            handle == Source::<V>::of(self.cell()),
            handle.slot() == self.cell(),
    {
        Source::new(self.value.id())
    }

    /// Reads this node's value.
    pub fn get(&self, _ctx: &ThreadSafeContext, forest: &SourceForest<Id, V>) -> (value: V)
        requires
            self.stands_in(forest@),
        ensures
            value@ == self.node(forest@).held,
    {
        forest.held_at(self.at).duplicate()
    }

    /// Sets this node's value. The same value again is no write.
    pub fn set(
        &self,
        ctx: &mut ThreadSafeContext,
        forest: &mut SourceForest<Id, V>,
        value: V,
    )
        requires
            old(ctx).wf(),
            old(forest).wf(),
            old(forest).on(old(ctx).ledger()),
            self.stands_in(old(forest)@),
        ensures
            final(ctx).wf(),
            final(forest).wf(),
            final(forest).on(final(ctx).ledger()),
            final(forest)@ == old(forest)@.update(
                self.place(),
                (NodeState { held: value@, ..self.node(old(forest)@) }),
            ),
            final(ctx).ledger() == if value@ == self.node(old(forest)@).held {
                old(ctx).ledger()
            } else {
                old(ctx).ledger().cleared(only(self.cell()))
            },
    {
        let ghost ledger = ctx.ledger();
        let ghost before = *forest;
        let ghost at = self.at as int;
        let ghost was = forest.nodes@[at];
        let ghost written = value@;
        proof {
            assert(before@[at] == was@);
            assert(was.wf());
            assert(before@[at].on(ledger));
            assert(was@.wf());
            ctx.wf_facts();
            clearing_unseats_what_it_reaches(ledger, only(self.cell()), self.cell());
        }
        let node = &mut forest.nodes[self.at];
        node.value.set(ctx, value);
        proof {
            let now = forest.nodes@[at];
            assert(now@ =~= (NodeState { held: written, ..was@ }));
            was@.stays_on(ledger, ctx.ledger());
            assert forall|id: Id::V| #[trigger] now@.kids.contains_key(id) implies now@.kids[id]
                < before@.len() && before@[now@.kids[id] as int].key == id by {
                assert(before@[at].kids.contains_key(id));
            }
            forest.changing_one_keeps(before, at, ledger, ctx.ledger());
        }
    }

    /// Inserts a leaf child at the end, returning an existing child unchanged when `id`
    /// is present.
    pub fn insert_child(
        &self,
        ctx: &mut ThreadSafeContext,
        forest: &mut SourceForest<Id, V>,
        id: Id,
        value: V,
    ) -> (child: ThreadSafeSourceTree<Id, V>)
        requires
            old(ctx).wf(),
            old(forest).wf(),
            old(forest).on(old(ctx).ledger()),
            self.stands_in(old(forest)@),
        ensures
            final(ctx).wf(),
            final(forest).wf(),
            final(forest).on(final(ctx).ledger()),
            child.stands_in(final(forest)@),
            child.key() == id@,
            if self.node(old(forest)@).kids.contains_key(id@) {
                &&& child.place() == self.node(old(forest)@).kids[id@]
                &&& final(forest)@ == old(forest)@
                &&& final(ctx).ledger() == old(ctx).ledger()
            } else {
                let ledger = old(ctx).ledger();
                let leaf = NodeState::leaf(id@, value@, ledger.slots.len() as int);
                let (node, after) = self.node(old(forest)@).adopting(
                    ledger.grown(3),
                    id@,
                    old(forest)@.len() as usize,
                );
                &&& child.place() == old(forest)@.len()
                &&& final(forest)@ == old(forest)@.push(leaf).update(self.place(), node)
                &&& final(ctx).ledger() == after
            },
    {
        proof {
            forest.wf_facts();
        }
        match forest.kid_at(self.at, &id) {
            Some(kid) => Self::handle(forest, kid),
            None => {
                let ghost before = forest@;
                let name = id.duplicate();
                let kid = forest.plant(ctx, id, value);
                proof {
                    assert(forest@[self.at as int] == before[self.at as int]);
                }
                forest.adopt(ctx, self.at, name, kid);
                Self::handle(forest, kid)
            },
        }
    }

    /// Attaches an already built subtree at the end, preserving its node. An existing
    /// child is returned unchanged.
    pub fn attach_child(
        &self,
        ctx: &mut ThreadSafeContext,
        forest: &mut SourceForest<Id, V>,
        child: ThreadSafeSourceTree<Id, V>,
    ) -> (attached: ThreadSafeSourceTree<Id, V>)
        requires
            old(ctx).wf(),
            old(forest).wf(),
            old(forest).on(old(ctx).ledger()),
            self.stands_in(old(forest)@),
            child.stands_in(old(forest)@),
        ensures
            final(ctx).wf(),
            final(forest).wf(),
            final(forest).on(final(ctx).ledger()),
            attached.stands_in(final(forest)@),
            attached.key() == child.key(),
            if self.node(old(forest)@).kids.contains_key(child.key()) {
                &&& attached.place() == self.node(old(forest)@).kids[child.key()]
                &&& final(forest)@ == old(forest)@
                &&& final(ctx).ledger() == old(ctx).ledger()
            } else {
                let (node, after) = self.node(old(forest)@).adopting(
                    old(ctx).ledger(),
                    child.key(),
                    child.place() as usize,
                );
                &&& attached.place() == child.place()
                &&& final(forest)@ == old(forest)@.update(self.place(), node)
                &&& final(ctx).ledger() == after
            },
    {
        proof {
            forest.wf_facts();
        }
        match forest.kid_at(self.at, &child.id) {
            Some(kid) => Self::handle(forest, kid),
            None => {
                forest.adopt(ctx, self.at, child.id.duplicate(), child.at);
                child
            },
        }
    }

    /// The direct child with an identity. Follows no signal.
    pub fn child(&self, forest: &SourceForest<Id, V>, id: &Id) -> (child: Option<
        ThreadSafeSourceTree<Id, V>,
    >)
        requires
            forest.wf(),
            self.stands_in(forest@),
        ensures
            match child {
                Some(kid) => self.node(forest@).kids.contains_key(id@) && kid.stands_in(forest@)
                    && kid.place() == self.node(forest@).kids[id@] && kid.key() == id@,
                None => !self.node(forest@).kids.contains_key(id@),
            },
    {
        proof {
            forest.wf_facts();
        }
        match forest.kid_at(self.at, id) {
            Some(kid) => Some(Self::handle(forest, kid)),
            None => None,
        }
    }

    /// Removes a child. Returns whether it was there.
    pub fn remove_child(
        &self,
        ctx: &mut ThreadSafeContext,
        forest: &mut SourceForest<Id, V>,
        id: &Id,
    ) -> (removed: bool)
        requires
            old(ctx).wf(),
            old(forest).wf(),
            old(forest).on(old(ctx).ledger()),
            self.stands_in(old(forest)@),
        ensures
            final(ctx).wf(),
            final(forest).wf(),
            final(forest).on(final(ctx).ledger()),
            removed == self.node(old(forest)@).kids.contains_key(id@),
            ({
                let (node, ledger) = self.node(old(forest)@).dropping(old(ctx).ledger(), id@);
                &&& final(forest)@ == if removed {
                    old(forest)@.update(self.place(), node)
                } else {
                    old(forest)@
                }
                &&& final(ctx).ledger() == if removed {
                    ledger
                } else {
                    old(ctx).ledger()
                }
            }),
    {
        let ghost ledger = ctx.ledger();
        let ghost before = *forest;
        let ghost at = self.at as int;
        let ghost was = forest.nodes@[at];
        let ghost name = id@;
        proof {
            assert(before@[at] == was@);
            assert(was.wf());
            assert(before@[at].on(ledger));
            was.order.wf_facts();
            assert(was@.wf());
        }
        let index = match forest.nodes[self.at].kids.find(id) {
            Some(index) => index,
            None => {
                return false;
            },
        };
        let node = &mut forest.nodes[self.at];
        let _kid = node.kids.remove_at(index);
        let _removed = node.order.remove(ctx, id);
        proof {
            let (next, after) = was@.dropping(ledger, name);
            let now = forest.nodes@[at];
            now.order.wf_facts();
            assert(now@ =~= next);
            was@.stays_on(ledger, ctx.ledger());
            assert forall|other: Id::V| #[trigger] now@.kids.contains_key(other)
                <==> now@.membership.handles.contains_key(other) by {
                assert(was@.kids.contains_key(other)
                    <==> was@.membership.handles.contains_key(other));
            }
            assert forall|other: Id::V| #[trigger]
                now@.kids.contains_key(other) implies now@.kids[other] < before@.len()
                && before@[now@.kids[other] as int].key == other by {
                assert(before@[at].kids.contains_key(other));
            }
            forest.changing_one_keeps(before, at, ledger, ctx.ledger());
        }
        true
    }

    /// Moves child `id` to `index`, clamped to the last position, keeping its node. Returns
    /// whether all that it names is there.
    pub fn move_child(
        &self,
        ctx: &mut ThreadSafeContext,
        forest: &mut SourceForest<Id, V>,
        id: &Id,
        index: usize,
    ) -> (present: bool)
        requires
            old(ctx).wf(),
            old(forest).wf(),
            old(forest).on(old(ctx).ledger()),
            self.stands_in(old(forest)@),
        ensures
            final(ctx).wf(),
            final(forest).wf(),
            final(forest).on(final(ctx).ledger()),
            present == (self.node(old(forest)@).kids.contains_key(id@)),
            ({
                let from = self.node(old(forest)@).membership.ids.index_of(id@);
                let (node, ledger) = self.node(old(forest)@).moving(
                    old(ctx).ledger(),
                    from,
                    clamped(index as int, self.node(old(forest)@).membership.ids.len() as int),
                );
                &&& final(forest)@ == if present {
                    old(forest)@.update(self.place(), node)
                } else {
                    old(forest)@
                }
                &&& final(ctx).ledger() == if present {
                    ledger
                } else {
                    old(ctx).ledger()
                }
            }),
    {
        let ghost ledger = ctx.ledger();
        let ghost before = *forest;
        let ghost at = self.at as int;
        let ghost was = forest.nodes@[at];
        proof {
            assert(before@[at] == was@);
            assert(was.wf());
            assert(before@[at].on(ledger));
            was.order.wf_facts();
            assert(was@.wf());
            ctx.wf_facts();
            clearing_unseats_what_it_reaches(ledger, only(was@.membership.order), was@.cell);
        }
        let node = &mut forest.nodes[self.at];
        let present = node.order.move_to(ctx, id, index);
        proof {
            forest.reordering_keeps(before, at, ledger, ctx.ledger());
        }
        present
    }

    /// Moves child `id` immediately before `anchor`. Returns
    /// whether all that it names is there.
    pub fn move_child_before(
        &self,
        ctx: &mut ThreadSafeContext,
        forest: &mut SourceForest<Id, V>,
        id: &Id,
        anchor: &Id,
    ) -> (present: bool)
        requires
            old(ctx).wf(),
            old(forest).wf(),
            old(forest).on(old(ctx).ledger()),
            self.stands_in(old(forest)@),
        ensures
            final(ctx).wf(),
            final(forest).wf(),
            final(forest).on(final(ctx).ledger()),
            present == (self.node(old(forest)@).kids.contains_key(id@) && self.node(
                old(forest)@,
            ).kids.contains_key(anchor@)),
            ({
                let from = self.node(old(forest)@).membership.ids.index_of(id@);
                let (node, ledger) = self.node(old(forest)@).moving(
                    old(ctx).ledger(),
                    from,
                    before_anchor(from, self.node(old(forest)@).membership.ids.index_of(anchor@)),
                );
                &&& final(forest)@ == if present {
                    old(forest)@.update(self.place(), node)
                } else {
                    old(forest)@
                }
                &&& final(ctx).ledger() == if present {
                    ledger
                } else {
                    old(ctx).ledger()
                }
            }),
    {
        let ghost ledger = ctx.ledger();
        let ghost before = *forest;
        let ghost at = self.at as int;
        let ghost was = forest.nodes@[at];
        proof {
            assert(before@[at] == was@);
            assert(was.wf());
            assert(before@[at].on(ledger));
            was.order.wf_facts();
            assert(was@.wf());
            ctx.wf_facts();
            clearing_unseats_what_it_reaches(ledger, only(was@.membership.order), was@.cell);
        }
        let node = &mut forest.nodes[self.at];
        let present = node.order.move_before(ctx, id, anchor);
        proof {
            forest.reordering_keeps(before, at, ledger, ctx.ledger());
        }
        present
    }

    /// Moves child `id` immediately after `anchor`. Returns
    /// whether all that it names is there.
    pub fn move_child_after(
        &self,
        ctx: &mut ThreadSafeContext,
        forest: &mut SourceForest<Id, V>,
        id: &Id,
        anchor: &Id,
    ) -> (present: bool)
        requires
            old(ctx).wf(),
            old(forest).wf(),
            old(forest).on(old(ctx).ledger()),
            self.stands_in(old(forest)@),
        ensures
            final(ctx).wf(),
            final(forest).wf(),
            final(forest).on(final(ctx).ledger()),
            present == (self.node(old(forest)@).kids.contains_key(id@) && self.node(
                old(forest)@,
            ).kids.contains_key(anchor@)),
            ({
                let from = self.node(old(forest)@).membership.ids.index_of(id@);
                let (node, ledger) = self.node(old(forest)@).moving(
                    old(ctx).ledger(),
                    from,
                    after_anchor(from, self.node(old(forest)@).membership.ids.index_of(anchor@)),
                );
                &&& final(forest)@ == if present {
                    old(forest)@.update(self.place(), node)
                } else {
                    old(forest)@
                }
                &&& final(ctx).ledger() == if present {
                    ledger
                } else {
                    old(ctx).ledger()
                }
            }),
    {
        let ghost ledger = ctx.ledger();
        let ghost before = *forest;
        let ghost at = self.at as int;
        let ghost was = forest.nodes@[at];
        proof {
            assert(before@[at] == was@);
            assert(was.wf());
            assert(before@[at].on(ledger));
            was.order.wf_facts();
            assert(was@.wf());
            ctx.wf_facts();
            clearing_unseats_what_it_reaches(ledger, only(was@.membership.order), was@.cell);
        }
        let node = &mut forest.nodes[self.at];
        let present = node.order.move_after(ctx, id, anchor);
        proof {
            forest.reordering_keeps(before, at, ledger, ctx.ledger());
        }
        present
    }

    /// The ordered identities of the direct children. Follows the order signal.
    pub fn child_ids(&self, ctx: &ThreadSafeContext, forest: &SourceForest<Id, V>) -> (ids: Vec<Id>)
        requires
            self.stands_in(forest@),
        ensures
            ids@.map_values(|id: Id| id@) == self.node(forest@).membership.ids,
    {
        forest.child_ids_at(ctx, self.at)
    }

    /// Handles to the direct children, in order. Follows the order signal.
    pub fn children(&self, ctx: &ThreadSafeContext, forest: &SourceForest<Id, V>) -> (children: Vec<
        ThreadSafeSourceTree<Id, V>,
    >)
        requires
            forest.wf(),
            self.stands_in(forest@),
        ensures
            children@.len() == self.node(forest@).membership.ids.len(),
            forall|i: int|
                0 <= i < children@.len() ==> (#[trigger] children@[i]).stands_in(forest@)
                    && children@[i].key() == self.node(forest@).membership.ids[i]
                    && children@[i].place() == self.node(forest@).kids[self.node(
                    forest@,
                ).membership.ids[i]],
    {
        let ids = forest.child_ids_at(ctx, self.at);
        let ghost node = self.node(forest@);
        let ghost names = node.membership.ids;
        let mut children: Vec<ThreadSafeSourceTree<Id, V>> = Vec::new();
        let mut index: usize = 0;
        proof {
            forest.wf_facts();
        }
        while index < ids.len()
            invariant
                forest.wf(),
                rooted(forest@),
                self.stands_in(forest@),
                node == self.node(forest@),
                names == node.membership.ids,
                names == ids@.map_values(|id: Id| id@),
                index <= ids@.len(),
                children@.len() == index,
                forall|i: int|
                    0 <= i < index ==> (#[trigger] children@[i]).stands_in(forest@)
                        && children@[i].key() == names[i] && children@[i].place()
                        == node.kids[names[i]],
            decreases ids@.len() - index,
        {
            proof {
                assert(node.wf());
                assert(names[index as int] == ids@[index as int]@);
                assert(names.contains(names[index as int]));
                assert(node.membership.handles.contains_key(names[index as int]));
                assert(node.kids.contains_key(names[index as int]));
            }
            match forest.kid_at(self.at, &ids[index]) {
                Some(kid) => {
                    children.push(Self::handle(forest, kid));
                },
                None => {},
            }
            index = index + 1;
        }
        children
    }

    /// The number of direct children. Follows the membership signal.
    pub fn len(&self, ctx: &ThreadSafeContext, forest: &SourceForest<Id, V>) -> (count: usize)
        requires
            self.stands_in(forest@),
        ensures
            count == self.node(forest@).membership.ids.len(),
    {
        forest.nodes[self.at].order.len(ctx)
    }

    /// Whether there are no direct children. Follows the membership signal.
    pub fn is_empty(&self, ctx: &ThreadSafeContext, forest: &SourceForest<Id, V>) -> (answer: bool)
        requires
            self.stands_in(forest@),
        ensures
            answer == (self.node(forest@).membership.ids.len() == 0),
    {
        forest.nodes[self.at].order.is_empty(ctx)
    }

    /// Whether an identity is that of a direct child. Follows the membership signal.
    pub fn contains_child(
        &self,
        ctx: &ThreadSafeContext,
        forest: &SourceForest<Id, V>,
        id: &Id,
    ) -> (answer: bool)
        requires
            forest.wf(),
            self.stands_in(forest@),
        ensures
            answer == self.node(forest@).kids.contains_key(id@),
    {
        proof {
            forest.wf_facts();
            assert(self.node(forest@).wf());
            assert(forest@[self.at as int] == forest.nodes@[self.at as int]@);
            assert(forest.nodes@[self.at as int].wf());
        }
        forest.nodes[self.at].order.contains_key(ctx, id)
    }

    /// The node at the end of a path of identities. Follows no signal.
    pub fn resolve_path(&self, forest: &SourceForest<Id, V>, path: &[Id]) -> (node: Option<
        ThreadSafeSourceTree<Id, V>,
    >)
        requires
            forest.wf(),
            self.stands_in(forest@),
        ensures
            match node {
                Some(found) => found.stands_in(forest@) && resolved(
                    forest@,
                    self.place(),
                    path@.map_values(|id: Id| id@),
                ) == Some(found.place()),
                None => resolved(forest@, self.place(), path@.map_values(|id: Id| id@)) is None,
            },
    {
        let ghost names = path@.map_values(|id: Id| id@);
        let mut at: usize = self.at;
        let mut index: usize = 0;
        proof {
            assert(names.skip(0) =~= names);
        }
        while index < path.len()
            invariant
                forest.wf(),
                names == path@.map_values(|id: Id| id@),
                index <= path@.len(),
                at < forest@.len(),
                resolved(forest@, self.place(), names) == resolved(
                    forest@,
                    at as int,
                    names.skip(index as int),
                ),
            decreases path@.len() - index,
        {
            proof {
                let rest = names.skip(index as int);
                assert(rest[0] == path@[index as int]@);
                assert(rest.skip(1) =~= names.skip(index + 1));
            }
            match forest.kid_at(at, &path[index]) {
                Some(kid) => {
                    at = kid;
                },
                None => {
                    return None;
                },
            }
            index = index + 1;
        }
        proof {
            assert(names.skip(index as int) =~= Seq::empty());
        }
        Some(Self::handle(forest, at))
    }
}

/// Writing one node unseats the readers of its own value and no signal of any node.
pub proof fn a_write_moves_one_cell<Id, P>(
    nodes: Seq<NodeState<Id, P>>,
    ledger: Ledger,
    at: int,
    slot: SlotId,
)
    requires
        ledger.sound(),
        0 <= at < nodes.len(),
        nodes[at].on(ledger),
        ledger.leaf(slot),
    ensures
        ledger.cleared(only(nodes[at].cell)).stands(slot) == (ledger.stands(slot) && slot
            != nodes[at].cell),
{
    a_leaf_falls_as_a_root(ledger, only(nodes[at].cell), slot);
}

} // verus!
