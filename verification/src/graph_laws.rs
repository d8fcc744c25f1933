//! Laws of the reactive graph: what a clearing unseats, when a batch walks, and what a
//! memoized reader shows.

use vstd::prelude::*;

use crate::graph::{Ledger, SlotFacts, SlotId, reaches};
use crate::reactive::MemoState;

verus! {

/// Whether a set of slots holds some roots and, with every slot, what depends on it.
pub open spec fn closed_under_dependents(
    slots: Seq<SlotFacts>,
    roots: Set<int>,
    closed: Set<int>,
) -> bool {
    &&& forall|at: int| #[trigger] roots.contains(at) ==> closed.contains(at)
    &&& forall|at: int, i: int|
        #![trigger slots[at].deps[i]]
        0 <= at < slots.len() && 0 <= i < slots[at].deps.len() && closed.contains(
            slots[at].deps[i],
        ) ==> closed.contains(at)
}

/// What a clearing reaches is the roots and, with every slot, what depends on it, and
/// nothing that such a set could do without.
pub proof fn a_clearing_reaches_dependents_alone(
    ledger: Ledger,
    roots: Set<int>,
    closed: Set<int>,
    at: int,
)
    requires
        ledger.wf(),
        closed_under_dependents(ledger.slots, roots, closed),
        0 <= at < ledger.slots.len(),
    ensures
        roots.contains(at) ==> reaches(ledger.slots, roots, at),
        forall|i: int|
            0 <= i < ledger.slots[at].deps.len() && reaches(
                ledger.slots,
                roots,
                #[trigger] ledger.slots[at].deps[i],
            ) ==> reaches(ledger.slots, roots, at),
        reaches(ledger.slots, roots, at) ==> closed.contains(at),
    decreases at,
{
    let deps = ledger.slots[at].deps;
    assert forall|i: int|
        0 <= i < deps.len() && reaches(
            ledger.slots,
            roots,
            #[trigger] ledger.slots[at].deps[i],
        ) implies reaches(ledger.slots, roots, at) by {
        assert(0 <= ledger.slots[at].deps[i] < at);
    }
    if reaches(ledger.slots, roots, at) && !roots.contains(at) {
        let i = choose|i: int|
            #![trigger ledger.slots[at].deps[i]]
            0 <= i < ledger.slots[at].deps.len() && 0 <= ledger.slots[at].deps[i] < at && reaches(
                ledger.slots,
                roots,
                ledger.slots[at].deps[i],
            );
        a_clearing_reaches_dependents_alone(ledger, roots, closed, ledger.slots[at].deps[i]);
    }
}

/// Clearing no roots is nothing. Outside a batch everything that the roots reach stops being
/// clean in one walk, and nothing else moves; inside one the roots wait and nothing moves.
pub proof fn a_clearing_is_one_walk(ledger: Ledger, roots: Set<int>)
    ensures
        ({
            let after = ledger.cleared(roots);
            &&& after.depth == ledger.depth
            &&& after.slots.len() == ledger.slots.len()
            &&& forall|at: int|
                0 <= at < ledger.slots.len() ==> (#[trigger] after.slots[at]).deps
                    == ledger.slots[at].deps
            &&& roots == Set::<int>::empty() ==> after == ledger
            &&& roots != Set::<int>::empty() && ledger.depth == 0 ==> {
                &&& after.walks == ledger.walks + 1
                &&& after.held == ledger.held
                &&& forall|at: int|
                    0 <= at < ledger.slots.len() ==> ((#[trigger] after.slots[at]).clean
                        <==> ledger.slots[at].clean && !reaches(ledger.slots, roots, at))
            }
            &&& roots != Set::<int>::empty() && ledger.depth > 0 ==> {
                &&& after.walks == ledger.walks
                &&& after.slots == ledger.slots
                &&& forall|at: int| #[trigger]
                    after.held.contains(at) <==> ledger.held.contains(at) || roots.contains(at)
            }
        }),
{
}

/// Batches nest: opening one and closing an inner one move no slot. The last to close walks
/// everything that was held back, at most once, and holds nothing any more.
pub proof fn the_last_batch_walks_what_was_held(ledger: Ledger)
    requires
        ledger.depth > 0,
    ensures
        ledger.begun().depth == ledger.depth + 1,
        ledger.begun().slots == ledger.slots,
        ledger.begun().held == ledger.held,
        ledger.begun().walks == ledger.walks,
        ({
            let after = ledger.finished();
            &&& after.depth + 1 == ledger.depth
            &&& after.slots.len() == ledger.slots.len()
            &&& ledger.depth > 1 ==> after.slots == ledger.slots && after.held == ledger.held
                && after.walks == ledger.walks
            &&& ledger.depth == 1 ==> {
                &&& after.held == Set::<int>::empty()
                &&& after.walks == if ledger.held == Set::<int>::empty() {
                    ledger.walks
                } else {
                    ledger.walks + 1
                }
                &&& ledger.held == Set::<int>::empty() ==> after.slots == ledger.slots
                &&& ledger.held != Set::<int>::empty() ==> forall|at: int|
                    0 <= at < ledger.slots.len() ==> {
                        &&& (#[trigger] after.slots[at]).deps == ledger.slots[at].deps
                        &&& after.slots[at].clean <==> ledger.slots[at].clean && !reaches(
                            ledger.slots,
                            ledger.held,
                            at,
                        )
                    }
            }
        }),
{
}

/// A batch costs one walk however often it clears: clearing two sets of roots inside it is
/// clearing them together at its end.
pub proof fn a_batch_clears_together(ledger: Ledger, one: Set<int>, other: Set<int>)
    requires
        ledger.sound(),
        ledger.depth == 0,
    ensures
        ledger.begun().cleared(one).cleared(other).finished() == ledger.cleared(one.union(other)),
{
    let inside = ledger.begun().cleared(one).cleared(other);
    assert(inside.held =~= one.union(other));
    assert(inside.slots == ledger.slots);
    assert(inside.finished() =~= ledger.cleared(one.union(other)));
}

/// Settling makes one slot clean and moves nothing else.
pub proof fn settling_cleans_one_slot(ledger: Ledger, slot: SlotId)
    requires
        ledger.has(slot),
    ensures
        ({
            let after = ledger.settled(slot);
            &&& after.slots.len() == ledger.slots.len()
            &&& forall|at: int|
                0 <= at < ledger.slots.len() ==> {
                    &&& (#[trigger] after.slots[at]).deps == ledger.slots[at].deps
                    &&& after.slots[at].clean <==> at == slot.index || ledger.slots[at].clean
                }
            &&& after.walks == ledger.walks
            &&& after.depth == ledger.depth
            &&& after.held == ledger.held
        }),
{
}

/// A new slot comes behind the others, with its dependencies, and is not clean yet.
pub proof fn a_new_slot_is_not_clean(ledger: Ledger, deps: Seq<int>)
    ensures
        ({
            let after = ledger.allocated(deps);
            &&& after.slots == ledger.slots.push(SlotFacts { deps, clean: false })
            &&& after.walks == ledger.walks
            &&& after.depth == ledger.depth
            &&& after.held == ledger.held
        }),
        Ledger::empty().slots.len() == 0,
        Ledger::empty().walks == 0,
        Ledger::empty().depth == 0,
        Ledger::empty().held == Set::<int>::empty(),
{
}

/// A reader shows what it showed last while its slot is clean, whatever would be derived
/// now, and what is derived now from then on.
pub proof fn a_reader_keeps_what_it_showed<P>(
    memo: MemoState<P>,
    ledger: Ledger,
    shown: P,
    derived: P,
)
    requires
        ledger.has(memo.slot),
    ensures
        memo.showing(shown).slot == memo.slot,
        memo.showing(shown).shows(ledger.settled(memo.slot), derived) == shown,
        !ledger.clean(memo.slot) ==> memo.showing(shown).shows(ledger, derived) == derived,
        memo.cached is None ==> memo.shows(ledger, derived) == derived,
        ledger.clean(memo.slot) && memo.cached is Some ==> memo.cached == Some(
            memo.shows(ledger, derived),
        ),
{
}

} // verus!
