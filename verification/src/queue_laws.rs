//! Laws of the queue cell's operations: what each gives, when, and which readers it clears.

use vstd::prelude::*;

use crate::graph::{Ledger, a_leaf_falls_as_a_root};
use crate::queue::{QueuePushError, push_outcome};
use crate::queue_shell::{QueueCellState, reaches_bound};

verus! {

/// A push is refused exactly where the queue is closed, or else is bounded and full.
pub proof fn a_push_is_refused_when_closed_or_full(len: nat, ended: bool, bound: Option<usize>)
    ensures
        push_outcome(len, ended, bound) == Err::<(), QueuePushError>(QueuePushError::Closed)
            <==> ended,
        push_outcome(len, ended, bound) == Err::<(), QueuePushError>(QueuePushError::Full)
            <==> !ended && bound is Some && bound->0 <= len,
        push_outcome(len, ended, bound) is Ok <==> !ended && (bound is Some ==> len < bound->0),
{
}

/// A new cell holds what its storage holds, and its readers have computed nothing yet.
pub proof fn a_new_cell_has_read_nothing<P>(
    queued: Seq<P>,
    ended: bool,
    bound: Option<usize>,
    first: int,
)
    requires
        0 <= first,
        first + 4 <= usize::MAX,
    ensures
        ({
            let cell = QueueCellState::initial(queued, ended, bound, first);
            &&& cell.queued == queued
            &&& cell.ended == ended
            &&& cell.bound == bound
            &&& cell.head.slot.index == first && cell.head.cached is None
            &&& cell.len.slot.index == first + 1 && cell.len.cached is None
            &&& cell.is_empty.slot.index == first + 2 && cell.is_empty.cached is None
            &&& cell.is_full.slot.index == first + 3 && cell.is_full.cached is None
            &&& cell.closed_slot.index == first + 4
        }),
{
}

/// A push puts its value behind the others and leaves everything else as it was. The length
/// is always read anew; the head and the emptiness only from empty, the fullness only where
/// the value takes the last place, the closed flag never.
pub proof fn a_push_clears_what_it_changes<P>(
    cell: QueueCellState<P>,
    ledger: Ledger,
    value: P,
)
    requires
        cell.on(ledger),
        ledger.sound(),
    ensures
        ({
            let (after, later) = cell.pushed(ledger, value);
            let before = cell.queued.len();
            &&& after.queued == cell.queued.push(value)
            &&& after.ended == cell.ended
            &&& after.bound == cell.bound
            &&& after.head == cell.head
            &&& after.len == cell.len
            &&& after.is_empty == cell.is_empty
            &&& after.is_full == cell.is_full
            &&& after.closed_slot == cell.closed_slot
            &&& !later.stands(cell.len.slot)
            &&& later.stands(cell.head.slot) <==> ledger.stands(cell.head.slot) && before > 0
            &&& later.stands(cell.is_empty.slot) <==> ledger.stands(cell.is_empty.slot) && before
                > 0
            &&& later.stands(cell.is_full.slot) <==> ledger.stands(cell.is_full.slot) && !(
            cell.bound is Some && before + 1 == cell.bound->0)
            &&& later.stands(cell.closed_slot) <==> ledger.stands(cell.closed_slot)
        }),
{
    let before = cell.queued.len();
    let roots = cell.roots(before, before + 1, before == 0);
    a_leaf_falls_as_a_root(ledger, roots, cell.head.slot);
    a_leaf_falls_as_a_root(ledger, roots, cell.len.slot);
    a_leaf_falls_as_a_root(ledger, roots, cell.is_empty.slot);
    a_leaf_falls_as_a_root(ledger, roots, cell.is_full.slot);
    a_leaf_falls_as_a_root(ledger, roots, cell.closed_slot);
}

/// A pop takes the head away and leaves everything else as it was. The length and the head
/// are always read anew; the emptiness only where nothing is left, the fullness only where
/// the queue was exactly full, the closed flag never.
pub proof fn a_pop_clears_what_it_changes<P>(cell: QueueCellState<P>, ledger: Ledger)
    requires
        cell.on(ledger),
        ledger.sound(),
        cell.queued.len() > 0,
    ensures
        ({
            let (after, later) = cell.popped(ledger);
            let before = cell.queued.len();
            &&& after.queued.len() + 1 == before
            &&& forall|i: int|
                0 <= i < after.queued.len() ==> #[trigger] after.queued[i] == cell.queued[i + 1]
            &&& after.ended == cell.ended
            &&& after.bound == cell.bound
            &&& after.head == cell.head
            &&& after.len == cell.len
            &&& after.is_empty == cell.is_empty
            &&& after.is_full == cell.is_full
            &&& after.closed_slot == cell.closed_slot
            &&& !later.stands(cell.len.slot)
            &&& !later.stands(cell.head.slot)
            &&& later.stands(cell.is_empty.slot) <==> ledger.stands(cell.is_empty.slot) && before
                > 1
            &&& later.stands(cell.is_full.slot) <==> ledger.stands(cell.is_full.slot) && !(
            cell.bound is Some && before == cell.bound->0)
            &&& later.stands(cell.closed_slot) <==> ledger.stands(cell.closed_slot)
        }),
{
    let before = cell.queued.len();
    let roots = cell.roots(before, (before - 1) as nat, true);
    a_leaf_falls_as_a_root(ledger, roots, cell.head.slot);
    a_leaf_falls_as_a_root(ledger, roots, cell.len.slot);
    a_leaf_falls_as_a_root(ledger, roots, cell.is_empty.slot);
    a_leaf_falls_as_a_root(ledger, roots, cell.is_full.slot);
    a_leaf_falls_as_a_root(ledger, roots, cell.closed_slot);
}

/// What the readers derive is the queue's own: the head is the oldest value, and the queue
/// is full exactly where a push is refused as full.
pub proof fn readers_derive_what_is_queued<P>(cell: QueueCellState<P>)
    ensures
        cell.first() is Some <==> cell.queued.len() > 0,
        cell.first() is Some ==> cell.first() == Some(cell.queued[0]),
        reaches_bound(cell.queued.len(), cell.bound) <==> cell.bound is Some && cell.bound->0
            <= cell.queued.len(),
        !cell.ended ==> (reaches_bound(cell.queued.len(), cell.bound) <==> push_outcome(
            cell.queued.len(),
            cell.ended,
            cell.bound,
        ) is Err),
{
}

} // verus!
