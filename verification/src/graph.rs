//! The reactive graph: slots, their dependencies, and invalidation in one walk.
//!
//! A slot is a node of the graph. It is clean while what was read through it still
//! stands. Clearing some slots walks the frontier once: they and everything that
//! depends on them stop being clean together, so no reader sees a partial change.
//! Inside a batch the roots are held back and walked together at its end.

use vstd::prelude::*;

verus! {

/// A node of the graph.
#[derive(Debug, Clone, Copy, PartialEq, Eq, Structural)]
pub struct SlotId {
    /// Position in the graph.
    pub index: usize,
}

/// A slot, over views.
#[verifier::ext_equal]
pub struct SlotFacts {
    /// Positions of the slots it depends on.
    pub deps: Seq<int>,
    /// Whether what was read through it still stands.
    pub clean: bool,
}

/// The graph's bookkeeping, over views.
#[verifier::ext_equal]
pub struct Ledger {
    /// The slots, in order of allocation.
    pub slots: Seq<SlotFacts>,
    /// How many frontier walks there were.
    pub walks: nat,
    /// How many batches are open.
    pub depth: nat,
    /// The roots that an open batch holds back.
    pub held: Set<int>,
}

/// Whether clearing some roots reaches a slot: it is a root, or a slot that it
/// depends on is reached.
pub open spec fn reaches(slots: Seq<SlotFacts>, roots: Set<int>, at: int) -> bool
    decreases at,
{
    roots.contains(at) || exists|i: int| #![trigger slots[at].deps[i]]
        0 <= i < slots[at].deps.len() && 0 <= slots[at].deps[i] < at && reaches(
            slots,
            roots,
            slots[at].deps[i],
        )
}

impl Ledger {
    /// A graph without slots.
    pub open spec fn empty() -> Self {
        Ledger { slots: Seq::empty(), walks: 0, depth: 0, held: Set::empty() }
    }

    /// Every slot depends on earlier ones only.
    pub open spec fn wf(self) -> bool {
        forall|at: int, i: int|
            #![trigger self.slots[at].deps[i]]
            0 <= at < self.slots.len() && 0 <= i < self.slots[at].deps.len() ==> 0
                <= self.slots[at].deps[i] < at
    }

    /// Whether a slot exists.
    pub open spec fn has(self, slot: SlotId) -> bool {
        slot.index < self.slots.len()
    }

    /// Whether what was read through a slot still stands.
    pub open spec fn clean(self, slot: SlotId) -> bool {
        self.slots[slot.index as int].clean
    }

    /// With one more slot, not clean yet.
    pub open spec fn allocated(self, deps: Seq<int>) -> Self {
        Ledger { slots: self.slots.push(SlotFacts { deps, clean: false }), ..self }
    }

    /// With some more slots that depend on nothing, not clean yet.
    pub open spec fn grown(self, count: nat) -> Self
        decreases count,
    {
        if count == 0 {
            self
        } else {
            self.grown((count - 1) as nat).allocated(Seq::empty())
        }
    }

    /// Whether what was read through a slot still stands once every open batch is
    /// closed.
    pub open spec fn stands(self, slot: SlotId) -> bool {
        self.clean(slot) && !reaches(self.slots, self.held, slot.index as int)
    }

    /// Whether a slot exists and depends on nothing.
    pub open spec fn leaf(self, slot: SlotId) -> bool {
        self.has(slot) && self.slots[slot.index as int].deps == Seq::<int>::empty()
    }

    /// Every slot depends on earlier ones only, and only an open batch holds roots.
    pub open spec fn sound(self) -> bool {
        self.wf() && (self.depth == 0 ==> self.held == Set::<int>::empty())
    }

    /// With one slot clean.
    pub open spec fn settled(self, slot: SlotId) -> Self {
        Ledger {
            slots: self.slots.update(
                slot.index as int,
                SlotFacts { clean: true, ..self.slots[slot.index as int] },
            ),
            ..self
        }
    }

    /// With everything that some roots reach not clean, in one walk.
    pub open spec fn walked(self, roots: Set<int>) -> Self {
        Ledger {
            slots: Seq::new(
                self.slots.len(),
                |at: int|
                    SlotFacts {
                        clean: self.slots[at].clean && !reaches(self.slots, roots, at),
                        ..self.slots[at]
                    },
            ),
            walks: self.walks + 1,
            ..self
        }
    }

    /// With some roots cleared: in one walk, or held back by an open batch. No roots
    /// are no walk.
    pub open spec fn cleared(self, roots: Set<int>) -> Self {
        if roots == Set::<int>::empty() {
            self
        } else if self.depth > 0 {
            Ledger { held: self.held.union(roots), ..self }
        } else {
            self.walked(roots)
        }
    }

    /// With one more batch open.
    pub open spec fn begun(self) -> Self {
        Ledger { depth: self.depth + 1, ..self }
    }

    /// With one batch fewer open; the last one walks what was held back.
    pub open spec fn finished(self) -> Self {
        if self.depth > 1 {
            Ledger { depth: (self.depth - 1) as nat, ..self }
        } else {
            Ledger { depth: 0, held: Set::empty(), ..self }.cleared(self.held)
        }
    }

    /// Whether this is an earlier ledger with nothing but more slots: old slots keep
    /// their dependencies.
    pub open spec fn extends(self, earlier: Ledger) -> bool {
        &&& earlier.slots.len() <= self.slots.len()
        &&& forall|at: int|
            0 <= at < earlier.slots.len() ==> (#[trigger] self.slots[at]).deps
                == earlier.slots[at].deps
    }
}

/// The positions of some slots.
pub open spec fn positions(slots: Seq<SlotId>) -> Set<int> {
    slots.map_values(|slot: SlotId| slot.index as int).to_set()
}

/// The positions of some slots with one more.
pub proof fn positions_push(slots: Seq<SlotId>, slot: SlotId)
    ensures
        positions(slots.push(slot)) == positions(slots).insert(slot.index as int),
{
    let at = |slot: SlotId| slot.index as int;
    assert(slots.push(slot).map_values(at) =~= slots.map_values(at).push(at(slot)));
    let all = slots.map_values(at);
    assert(all.push(at(slot)).to_set() =~= all.to_set().insert(at(slot))) by {
        broadcast use vstd::seq_lib::group_seq_properties;
    }
}

/// No slots have no positions.
pub proof fn positions_empty(slots: Seq<SlotId>)
    ensures
        slots.len() == 0 <==> positions(slots) == Set::<int>::empty(),
{
    let at = |slot: SlotId| slot.index as int;
    let all = slots.map_values(at);
    if slots.len() == 0 {
        assert(all.to_set() =~= Set::<int>::empty());
    } else {
        assert(all.contains(all[0]));
        assert(all.to_set().contains(all[0]));
    }
}

/// A slot is among the positions exactly when it is among the slots.
pub proof fn positions_contain(slots: Seq<SlotId>, slot: SlotId)
    ensures
        positions(slots).contains(slot.index as int) <==> slots.contains(slot),
{
    let at = |slot: SlotId| slot.index as int;
    let all = slots.map_values(at);
    if slots.contains(slot) {
        let i = slots.index_of(slot);
        assert(all[i] == slot.index as int);
        assert(all.contains(slot.index as int));
    }
    if all.contains(slot.index as int) {
        let i = all.index_of(slot.index as int);
        assert(slots[i] == slot);
    }
}

/// Some roots, and one more where it is marked.
pub open spec fn with_root(roots: Set<int>, marked: bool, slot: SlotId) -> Set<int> {
    if marked {
        roots.insert(slot.index as int)
    } else {
        roots
    }
}

/// Adds a root where it is marked.
pub fn push_root(roots: &mut Vec<SlotId>, marked: bool, slot: SlotId)
    ensures
        final(roots)@ == if marked {
            old(roots)@.push(slot)
        } else {
            old(roots)@
        },
        positions(final(roots)@) == with_root(positions(old(roots)@), marked, slot),
{
    proof {
        positions_push(roots@, slot);
    }
    if marked {
        roots.push(slot);
    }
}

/// Nothing is reached from no roots.
pub proof fn nothing_reaches(slots: Seq<SlotFacts>, at: int)
    ensures
        !reaches(slots, Set::<int>::empty(), at),
    decreases at,
{
    assert forall|i: int| #![trigger slots[at].deps[i]]
        0 <= i < slots[at].deps.len() && 0 <= slots[at].deps[i] < at implies !reaches(
        slots,
        Set::<int>::empty(),
        slots[at].deps[i],
    ) by {
        nothing_reaches(slots, slots[at].deps[i]);
    }
}

/// What two sets of roots reach together is what either reaches.
pub proof fn reaching_unites(slots: Seq<SlotFacts>, one: Set<int>, other: Set<int>, at: int)
    ensures
        reaches(slots, one.union(other), at) == (reaches(slots, one, at) || reaches(
            slots,
            other,
            at,
        )),
    decreases at,
{
    assert forall|i: int| #![trigger slots[at].deps[i]]
        0 <= i < slots[at].deps.len() && 0 <= slots[at].deps[i] < at implies reaches(
        slots,
        one.union(other),
        slots[at].deps[i],
    ) == (reaches(slots, one, slots[at].deps[i]) || reaches(slots, other, slots[at].deps[i])) by {
        reaching_unites(slots, one, other, slots[at].deps[i]);
    }
}

/// What is reached depends on the dependencies alone, up to the slot asked about.
pub proof fn reaching_goes_by_deps(
    slots: Seq<SlotFacts>,
    other: Seq<SlotFacts>,
    roots: Set<int>,
    at: int,
)
    requires
        0 <= at,
        forall|i: int| 0 <= i <= at ==> (#[trigger] slots[i]).deps == other[i].deps,
    ensures
        reaches(slots, roots, at) == reaches(other, roots, at),
    decreases at,
{
    assert(slots[at].deps == other[at].deps);
    assert forall|i: int| #![trigger slots[at].deps[i]]
        0 <= i < slots[at].deps.len() && 0 <= slots[at].deps[i] < at implies reaches(
        slots,
        roots,
        slots[at].deps[i],
    ) == reaches(other, roots, slots[at].deps[i]) by {
        reaching_goes_by_deps(slots, other, roots, slots[at].deps[i]);
    }
    assert forall|i: int| #![trigger other[at].deps[i]]
        0 <= i < other[at].deps.len() && 0 <= other[at].deps[i] < at implies reaches(
        slots,
        roots,
        slots[at].deps[i],
    ) == reaches(other, roots, other[at].deps[i]) by {
        reaching_goes_by_deps(slots, other, roots, slots[at].deps[i]);
    }
}

/// Clearing some roots unseats exactly what they reach, whether a batch holds them
/// back or not.
pub proof fn clearing_unseats_what_it_reaches(ledger: Ledger, roots: Set<int>, slot: SlotId)
    requires
        ledger.sound(),
        ledger.has(slot),
    ensures
        ledger.cleared(roots).sound(),
        ledger.cleared(roots).extends(ledger),
        ledger.cleared(roots).has(slot),
        ledger.cleared(roots).slots.len() == ledger.slots.len(),
        ledger.cleared(roots).stands(slot) == (ledger.stands(slot) && !reaches(
            ledger.slots,
            roots,
            slot.index as int,
        )),
{
    let at = slot.index as int;
    let after = ledger.cleared(roots);
    assert forall|a: int, i: int|
        #![trigger after.slots[a].deps[i]]
        0 <= a < after.slots.len() && 0 <= i < after.slots[a].deps.len() implies 0
        <= after.slots[a].deps[i] < a by {
        assert(after.slots[a].deps == ledger.slots[a].deps);
        assert(ledger.slots[a].deps[i] < a);
    }
    nothing_reaches(ledger.slots, at);
    if roots == Set::<int>::empty() {
    } else if ledger.depth > 0 {
        reaching_unites(ledger.slots, ledger.held, roots, at);
    } else {
        reaching_goes_by_deps(ledger.slots, after.slots, Set::empty(), at);
    }
}

/// A slot that depends on nothing is reached from itself alone.
pub proof fn a_leaf_is_reached_from_itself(ledger: Ledger, roots: Set<int>, slot: SlotId)
    requires
        ledger.leaf(slot),
    ensures
        reaches(ledger.slots, roots, slot.index as int) == roots.contains(slot.index as int),
{
}

/// A slot that depends on nothing stands after a clearing exactly when it stood before
/// and is no root.
pub proof fn a_leaf_falls_as_a_root(ledger: Ledger, roots: Set<int>, slot: SlotId)
    requires
        ledger.sound(),
        ledger.leaf(slot),
    ensures
        ledger.cleared(roots).sound(),
        ledger.cleared(roots).leaf(slot),
        ledger.cleared(roots).stands(slot) == (ledger.stands(slot) && !roots.contains(
            slot.index as int,
        )),
{
    clearing_unseats_what_it_reaches(ledger, roots, slot);
    a_leaf_is_reached_from_itself(ledger, roots, slot);
}

/// A slot that depends on one other alone, which depends on nothing, is reached from
/// itself and from that one.
pub proof fn a_dependent_is_reached_from_its_source(
    ledger: Ledger,
    roots: Set<int>,
    slot: SlotId,
    source: SlotId,
)
    requires
        ledger.leaf(source),
        ledger.has(slot),
        source.index < slot.index,
        ledger.slots[slot.index as int].deps == seq![source.index as int],
    ensures
        reaches(ledger.slots, roots, slot.index as int) == (roots.contains(slot.index as int)
            || roots.contains(source.index as int)),
{
    let at = slot.index as int;
    a_leaf_is_reached_from_itself(ledger, roots, source);
    assert(ledger.slots[at].deps[0] == source.index as int);
}

/// Roots ahead of a bound reach nothing before it.
pub proof fn roots_reach_nothing_before_them(
    slots: Seq<SlotFacts>,
    roots: Set<int>,
    bound: int,
    at: int,
)
    requires
        forall|root: int| #[trigger] roots.contains(root) ==> root >= bound,
        at < bound,
    ensures
        !reaches(slots, roots, at),
    decreases at,
{
    assert forall|i: int| #![trigger slots[at].deps[i]]
        0 <= i < slots[at].deps.len() && 0 <= slots[at].deps[i] < at implies !reaches(
        slots,
        roots,
        slots[at].deps[i],
    ) by {
        roots_reach_nothing_before_them(slots, roots, bound, slots[at].deps[i]);
    }
}

/// Opening a batch moves no slot.
pub proof fn beginning_moves_none(ledger: Ledger, slot: SlotId)
    requires
        ledger.sound(),
    ensures
        ledger.begun().sound(),
        ledger.begun().stands(slot) == ledger.stands(slot),
{
    let after = ledger.begun();
    assert(after.wf()) by {
        assert forall|a: int, i: int|
            #![trigger after.slots[a].deps[i]]
            0 <= a < after.slots.len() && 0 <= i < after.slots[a].deps.len() implies 0
            <= after.slots[a].deps[i] < a by {
            assert(ledger.slots[a].deps[i] < a);
        }
    }
}

/// Closing a batch unseats exactly what it held back, which did not stand any more.
pub proof fn finishing_moves_none(ledger: Ledger, slot: SlotId)
    requires
        ledger.sound(),
        ledger.depth > 0,
        ledger.has(slot),
    ensures
        ledger.finished().sound(),
        ledger.finished().stands(slot) == ledger.stands(slot),
{
    let at = slot.index as int;
    let after = ledger.finished();
    assert forall|a: int, i: int|
        #![trigger after.slots[a].deps[i]]
        0 <= a < after.slots.len() && 0 <= i < after.slots[a].deps.len() implies 0
        <= after.slots[a].deps[i] < a by {
        assert(after.slots[a].deps == ledger.slots[a].deps);
        assert(ledger.slots[a].deps[i] < a);
    }
    nothing_reaches(after.slots, at);
    nothing_reaches(ledger.slots, at);
}

/// Settling a slot seats it, unless a batch holds it back, and moves no other.
pub proof fn settling_moves_one(ledger: Ledger, slot: SlotId, other: SlotId)
    requires
        ledger.sound(),
        ledger.has(slot),
        ledger.has(other),
    ensures
        ledger.settled(slot).sound(),
        ledger.settled(slot).extends(ledger),
        ledger.settled(slot).slots.len() == ledger.slots.len(),
        other != slot ==> ledger.settled(slot).stands(other) == ledger.stands(other),
        ledger.settled(slot).clean(slot),
        ledger.clean(slot) ==> ledger.settled(slot) == ledger,
{
    let after = ledger.settled(slot);
    assert forall|a: int, i: int|
        #![trigger after.slots[a].deps[i]]
        0 <= a < after.slots.len() && 0 <= i < after.slots[a].deps.len() implies 0
        <= after.slots[a].deps[i] < a by {
        assert(after.slots[a].deps == ledger.slots[a].deps);
        assert(ledger.slots[a].deps[i] < a);
    }
    reaching_goes_by_deps(ledger.slots, after.slots, ledger.held, other.index as int);
    if ledger.clean(slot) {
        assert(after.slots =~= ledger.slots);
    }
}

/// A new slot stands nowhere yet, and every other stands as before.
pub proof fn allocating_moves_none(ledger: Ledger, deps: Seq<int>, slot: SlotId)
    requires
        ledger.sound(),
        ledger.has(slot),
        forall|i: int| 0 <= i < deps.len() ==> 0 <= #[trigger] deps[i] < ledger.slots.len(),
    ensures
        ledger.allocated(deps).sound(),
        ledger.allocated(deps).extends(ledger),
        ledger.allocated(deps).stands(slot) == ledger.stands(slot),
        ledger.allocated(deps).clean(slot) == ledger.clean(slot),
{
    let after = ledger.allocated(deps);
    assert forall|a: int, i: int|
        #![trigger after.slots[a].deps[i]]
        0 <= a < after.slots.len() && 0 <= i < after.slots[a].deps.len() implies 0
        <= after.slots[a].deps[i] < a by {
        if a < ledger.slots.len() {
            assert(ledger.slots[a].deps[i] < a);
        }
    }
    reaching_goes_by_deps(ledger.slots, after.slots, ledger.held, slot.index as int);
}

/// Growing adds slots that depend on nothing and stand nowhere yet, and every other
/// stands as before.
pub proof fn growing_moves_none(ledger: Ledger, count: nat, slot: SlotId)
    requires
        ledger.sound(),
    ensures
        ledger.grown(count).sound(),
        ledger.grown(count).extends(ledger),
        ledger.grown(count).depth == ledger.depth,
        ledger.grown(count).held == ledger.held,
        ledger.grown(count).walks == ledger.walks,
        ledger.grown(count).slots.len() == ledger.slots.len() + count,
        ledger.has(slot) ==> ledger.grown(count).stands(slot) == ledger.stands(slot)
            && ledger.grown(count).clean(slot) == ledger.clean(slot),
        forall|at: int|
            ledger.slots.len() <= at < ledger.slots.len() + count ==> (
            #[trigger] ledger.grown(count).slots[at]) == (SlotFacts {
                deps: Seq::empty(),
                clean: false,
            }),
    decreases count,
{
    if count > 0 {
        let shorter = ledger.grown((count - 1) as nat);
        growing_moves_none(ledger, (count - 1) as nat, slot);
        let after = shorter.allocated(Seq::empty());
        assert forall|a: int, i: int|
            #![trigger after.slots[a].deps[i]]
            0 <= a < after.slots.len() && 0 <= i < after.slots[a].deps.len() implies 0
            <= after.slots[a].deps[i] < a by {
            if a < shorter.slots.len() {
                assert(shorter.slots[a].deps[i] < a);
            }
        }
        if ledger.has(slot) {
            allocating_moves_none(shorter, Seq::empty(), slot);
        }
    }
}

/// One node of the graph.
struct Slot {
    deps: Vec<SlotId>,
    clean: bool,
}

impl View for Slot {
    type V = SlotFacts;

    closed spec fn view(&self) -> SlotFacts {
        SlotFacts {
            deps: self.deps@.map_values(|slot: SlotId| slot.index as int),
            clean: self.clean,
        }
    }
}

/// The slots and their dependencies.
pub struct Graph {
    slots: Vec<Slot>,
    depth: usize,
    held: Vec<SlotId>,
    walks: Ghost<nat>,
}

impl View for Graph {
    type V = Ledger;

    closed spec fn view(&self) -> Ledger {
        Ledger {
            slots: self.slots@.map_values(|slot: Slot| slot@),
            walks: self.walks@,
            depth: self.depth as nat,
            held: positions(self.held@),
        }
    }
}

impl Graph {
    /// Every slot depends on earlier ones only, and held roots exist.
    pub closed spec fn wf(&self) -> bool {
        &&& self@.wf()
        &&& forall|i: int|
            0 <= i < self.held@.len() ==> (#[trigger] self.held@[i]).index < self.slots@.len()
        &&& self.depth == 0 ==> self.held@.len() == 0
    }

    /// What well-formedness says to a caller.
    pub proof fn wf_facts(&self)
        requires
            self.wf(),
        ensures
            self@.wf(),
            self@.depth == 0 ==> self@.held == Set::<int>::empty(),
    {
        positions_empty(self.held@);
    }

    /// A graph without slots.
    pub fn new() -> (graph: Self)
        ensures
            graph.wf(),
            graph@ == Ledger::empty(),
    {
        let graph = Graph { slots: Vec::new(), depth: 0, held: Vec::new(), walks: Ghost(0nat) };
        proof {
            positions_empty(graph.held@);
            assert(graph@ =~= Ledger::empty());
        }
        graph
    }

    /// Adds a slot that depends on some others. It is not clean yet.
    pub fn allocate(&mut self, deps: Vec<SlotId>) -> (slot: SlotId)
        requires
            old(self).wf(),
            forall|i: int| 0 <= i < deps@.len() ==> old(self)@.has(#[trigger] deps@[i]),
        ensures
            final(self).wf(),
            slot.index == old(self)@.slots.len(),
            final(self)@ == old(self)@.allocated(
                deps@.map_values(|slot: SlotId| slot.index as int),
            ),
    {
        let slot = SlotId { index: self.slots.len() };
        let ghost facts = deps@.map_values(|slot: SlotId| slot.index as int);
        self.slots.push(Slot { deps, clean: false });
        proof {
            assert(self@.slots =~= old(self)@.slots.push(SlotFacts { deps: facts, clean: false }));
            assert(self@ =~= old(self)@.allocated(facts));
            assert forall|at: int, i: int|
                #![trigger self@.slots[at].deps[i]]
                0 <= at < self@.slots.len() && 0 <= i < self@.slots[at].deps.len() implies 0
                <= self@.slots[at].deps[i] < at by {
                if at == old(self)@.slots.len() {
                    assert(self@.slots[at].deps == facts);
                    assert(facts[i] == deps@[i].index as int);
                } else {
                    assert(self@.slots[at] == old(self)@.slots[at]);
                    assert(old(self)@.slots[at].deps[i] < at);
                }
            }
        }
        slot
    }

    /// Whether what was read through a slot still stands.
    pub fn is_clean(&self, slot: SlotId) -> (clean: bool)
        requires
            self.wf(),
            self@.has(slot),
        ensures
            clean == self@.clean(slot),
    {
        self.slots[slot.index].clean
    }

    /// Marks a slot clean.
    pub fn settle(&mut self, slot: SlotId)
        requires
            old(self).wf(),
            old(self)@.has(slot),
        ensures
            final(self).wf(),
            final(self)@ == old(self)@.settled(slot),
    {
        let node = &mut self.slots[slot.index];
        node.clean = true;
        proof {
            assert(self@.slots =~= old(self)@.settled(slot).slots);
            assert(self@ =~= old(self)@.settled(slot));
            assert forall|at: int, i: int|
                #![trigger self@.slots[at].deps[i]]
                0 <= at < self@.slots.len() && 0 <= i < self@.slots[at].deps.len() implies 0
                <= self@.slots[at].deps[i] < at by {
                assert(self@.slots[at].deps == old(self)@.slots[at].deps);
                assert(old(self)@.slots[at].deps[i] < at);
            }
        }
    }

    /// Walks the frontier of some roots once.
    fn walk(&mut self, roots: &Vec<SlotId>)
        requires
            old(self).wf(),
        ensures
            final(self).wf(),
            final(self)@ == old(self)@.walked(positions(roots@)),
    {
        let ghost start = self@;
        let ghost targets = positions(roots@);
        let mut hit: Vec<bool> = Vec::new();
        let mut at: usize = 0;
        while at < self.slots.len()
            invariant
                start.wf(),
                targets == positions(roots@),
                self.depth == old(self).depth,
                self.held == old(self).held,
                self.walks == old(self).walks,
                self.slots@.len() == start.slots.len(),
                at <= self.slots@.len(),
                hit@.len() == at,
                forall|i: int|
                    0 <= i < at ==> #[trigger] hit@[i] == reaches(start.slots, targets, i),
                forall|i: int|
                    0 <= i < at ==> (#[trigger] self.slots@[i])@ == start.walked(targets).slots[i],
                forall|i: int|
                    at <= i < self.slots@.len() ==> (#[trigger] self.slots@[i])@ == start.slots[i],
            decreases self.slots@.len() - at,
        {
            let mut reached = false;
            let mut index: usize = 0;
            while index < roots.len()
                invariant
                    index <= roots@.len(),
                    reached <==> exists|i: int|
                        0 <= i < index && (#[trigger] roots@[i]).index == at,
                decreases roots@.len() - index,
            {
                if roots[index].index == at {
                    reached = true;
                }
                index = index + 1;
            }
            proof {
                let id = SlotId { index: at };
                positions_contain(roots@, id);
                if reached {
                    let i = choose|i: int| 0 <= i < roots@.len() && (#[trigger] roots@[i]).index
                        == at;
                    assert(roots@[i] == id);
                    assert(roots@.contains(id));
                }
                if roots@.contains(id) {
                    let i = roots@.index_of(id);
                    assert(roots@[i].index == at);
                }
                assert(reached == targets.contains(at as int));
                assert(self.slots@[at as int]@ == start.slots[at as int]);
            }
            let ghost direct = reached;
            let ghost deps = start.slots[at as int].deps;
            let mut place: usize = 0;
            while place < self.slots[at].deps.len()
                invariant
                    start.wf(),
                    at < self.slots@.len(),
                    self.slots@.len() == start.slots.len(),
                    self.slots@[at as int]@ == start.slots[at as int],
                    deps == start.slots[at as int].deps,
                    place <= deps.len(),
                    hit@.len() == at,
                    forall|i: int|
                        0 <= i < at ==> #[trigger] hit@[i] == reaches(start.slots, targets, i),
                    reached <==> direct || exists|i: int|
                        #![trigger deps[i]]
                        0 <= i < place && reaches(start.slots, targets, deps[i]),
                decreases deps.len() - place,
            {
                let dep = self.slots[at].deps[place];
                proof {
                    assert(deps[place as int] == dep.index as int);
                    assert(start.slots[at as int].deps[place as int] < at);
                }
                if hit[dep.index] {
                    reached = true;
                }
                place = place + 1;
            }
            proof {
                assert(reached == reaches(start.slots, targets, at as int)) by {
                    if reached && !direct {
                        let i = choose|i: int|
                            #![trigger deps[i]]
                            0 <= i < deps.len() && reaches(start.slots, targets, deps[i]);
                        assert(start.slots[at as int].deps[i] < at);
                    }
                }
            }
            if reached {
                let node = &mut self.slots[at];
                node.clean = false;
            }
            hit.push(reached);
            at = at + 1;
        }
        proof {
            self.walks = Ghost((self.walks@ + 1) as nat);
            assert(self@.slots =~= start.walked(targets).slots);
            assert(self@ =~= start.walked(targets));
            assert forall|at: int, i: int|
                #![trigger self@.slots[at].deps[i]]
                0 <= at < self@.slots.len() && 0 <= i < self@.slots[at].deps.len() implies 0
                <= self@.slots[at].deps[i] < at by {
                assert(self@.slots[at].deps == start.slots[at].deps);
                assert(start.slots[at].deps[i] < at);
            }
        }
    }

    /// Clears some slots: in one walk, or held back by an open batch.
    pub fn clear_slots(&mut self, roots: &Vec<SlotId>)
        requires
            old(self).wf(),
            forall|i: int| 0 <= i < roots@.len() ==> old(self)@.has(#[trigger] roots@[i]),
        ensures
            final(self).wf(),
            final(self)@ == old(self)@.cleared(positions(roots@)),
    {
        proof {
            positions_empty(roots@);
        }
        if roots.len() == 0 {
            return;
        }
        if self.depth == 0 {
            self.walk(roots);
            return;
        }
        let mut index: usize = 0;
        let ghost start = self@;
        proof {
            positions_empty(roots@.take(0));
            assert(start.held.union(positions(roots@.take(0))) =~= start.held);
        }
        while index < roots.len()
            invariant
                self.wf(),
                index <= roots@.len(),
                forall|i: int|
                    0 <= i < roots@.len() ==> (#[trigger] roots@[i]).index < self.slots@.len(),
                self.depth > 0,
                self@ == (Ledger {
                    held: start.held.union(positions(roots@.take(index as int))),
                    ..start
                }),
            decreases roots@.len() - index,
        {
            let root = roots[index];
            proof {
                positions_push(self.held@, root);
                positions_push(roots@.take(index as int), root);
                assert(roots@.take(index + 1) =~= roots@.take(index as int).push(root));
            }
            let ghost here = self@;
            self.held.push(root);
            proof {
                assert(self@.held =~= start.held.union(positions(roots@.take(index + 1))));
                assert(self@ =~= Ledger {
                    held: start.held.union(positions(roots@.take(index + 1))),
                    ..start
                });
                assert(self@.slots == here.slots);
                assert forall|at: int, i: int|
                    #![trigger self@.slots[at].deps[i]]
                    0 <= at < self@.slots.len() && 0 <= i < self@.slots[at].deps.len() implies 0
                    <= self@.slots[at].deps[i] < at by {
                    assert(here.slots[at].deps[i] < at);
                }
                assert(self@.wf());
            }
            index = index + 1;
        }
        proof {
            assert(roots@.take(index as int) =~= roots@);
        }
    }

    /// Opens a batch.
    pub fn begin_batch(&mut self)
        requires
            old(self).wf(),
            old(self)@.depth < usize::MAX,
        ensures
            final(self).wf(),
            final(self)@ == old(self)@.begun(),
    {
        self.depth = self.depth + 1;
        proof {
            assert(self@ =~= old(self)@.begun());
        }
    }

    /// Closes a batch. The last one walks everything that was held back at once.
    pub fn finish_batch(&mut self)
        requires
            old(self).wf(),
            old(self)@.depth > 0,
        ensures
            final(self).wf(),
            final(self)@ == old(self)@.finished(),
    {
        if self.depth > 1 {
            self.depth = self.depth - 1;
            proof {
                assert(self@ =~= old(self)@.finished());
            }
            return;
        }
        let mut roots: Vec<SlotId> = Vec::new();
        roots.append(&mut self.held);
        self.depth = 0;
        proof {
            assert(roots@ =~= old(self).held@);
            positions_empty(self.held@);
            assert(self@ =~= Ledger { depth: 0, held: Set::empty(), ..old(self)@ });
        }
        self.clear_slots(&roots);
    }
}

} // verus!
