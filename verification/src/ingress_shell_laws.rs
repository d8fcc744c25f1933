//! Laws of the ingress cell: which readers a change moves, and what reads show.

use vstd::prelude::*;

use crate::graph::{
    Ledger, SlotId, a_leaf_falls_as_a_root, a_leaf_is_reached_from_itself,
    clearing_unseats_what_it_reaches, growing_moves_none, nothing_reaches, reaches,
    roots_reach_nothing_before_them, settling_moves_one,
};
use crate::ingress_laws::{
    a_failure_marks_its_channels, admission_marks_what_moves, closing_marks_what_moves,
    draining_marks_what_moves, failing_marks_what_moves, marks_channel, opening_marks_what_moves,
    reconnecting_marks_what_moves, suspending_marks_what_moves, ticking_marks_what_moves,
    unmarked_channels_hold, unmarked_readers_hold,
};
use crate::ingress_model::{IngressState, admitted};
use crate::ingress_shell::{
    IngressCellState, ReaderSet, a_cell_stays_on_its_ledger, scope_roots,
};
use crate::ingress_types::{
    IngressEnvelope, IngressError, IngressMarks, IngressReceiptChannel, IngressSchedule,
    IngressScopeChange,
};
use crate::merge::MergePolicy;

verus! {

/// Every scope reader whose cache stands has in it what the plane derives now.
pub open spec fn scopes_are_fresh<Id, P>(cell: IngressCellState<Id, P>, ledger: Ledger) -> bool {
    forall|id: Id| #[trigger]
        cell.readers.contains_key(id) ==> {
            let readers = cell.readers[id];
            &&& readers.value.fresh(ledger, cell.core.value_of(id))
            &&& readers.readiness.fresh(ledger, cell.core.readiness_of(id))
            &&& readers.authority.fresh(ledger, cell.core.authority_of(id))
            &&& readers.retry.fresh(ledger, cell.core.retry_of(id))
        }
}

/// Every receipt reader whose cache stands has in it what the log holds now.
pub open spec fn receipts_are_fresh<Id, P>(cell: IngressCellState<Id, P>, ledger: Ledger) -> bool {
    &&& cell.accepted.fresh(ledger, cell.core.receipts_on(IngressReceiptChannel::Accepted))
    &&& cell.dropped.fresh(ledger, cell.core.receipts_on(IngressReceiptChannel::Dropped))
    &&& cell.errors.fresh(ledger, cell.core.receipts_on(IngressReceiptChannel::Error))
}

/// The schedule, where its cache stands, is the one of the kind and bound in force.
pub open spec fn schedule_is_fresh<Id, P>(cell: IngressCellState<Id, P>, ledger: Ledger) -> bool {
    cell.schedule.fresh(ledger, IngressSchedule::of_kind(cell.kind, cell.poll_interval))
}

/// Whether one reader kind of a key is among the first marks.
spec fn marks_kind<Id>(marks: Seq<(Id, IngressScopeChange)>, id: Id, kind: int) -> bool {
    exists|i: int|
        0 <= i < marks.len() && (#[trigger] marks[i]).0 == id && ((kind == 0 && marks[i].1.value)
            || (kind == 1 && marks[i].1.readiness) || (kind == 2 && marks[i].1.authority) || (kind
            == 3 && marks[i].1.retry))
}

/// A scope reader's slot is a root exactly when the reader is marked, and no other
/// slot is.
proof fn roots_are_the_marked<Id, P>(
    cell: IngressCellState<Id, P>,
    ledger: Ledger,
    marks: Seq<(Id, IngressScopeChange)>,
)
    requires
        cell.on(ledger),
        forall|i: int|
            0 <= i < marks.len() ==> cell.readers.contains_key((#[trigger] marks[i]).0),
    ensures
        forall|at: int| at <= cell.schedule.slot.index ==> !scope_roots(
            cell.readers,
            marks,
        ).contains(at),
        forall|id: Id, kind: int|
            cell.readers.contains_key(id) && 0 <= kind < 4 ==> scope_roots(
                cell.readers,
                marks,
            ).contains(cell.readers[id].base() + kind) == #[trigger] marks_kind(marks, id, kind),
    decreases marks.len(),
{
    if marks.len() > 0 {
        let shorter = marks.drop_last();
        let last = marks[marks.len() - 1];
        assert forall|i: int| 0 <= i < shorter.len() implies cell.readers.contains_key(
            (#[trigger] shorter[i]).0,
        ) by {
            assert(shorter[i] == marks[i]);
        }
        roots_are_the_marked(cell, ledger, shorter);
        let before = scope_roots(cell.readers, shorter);
        let roots = scope_roots(cell.readers, marks);
        assert(cell.readers.contains_key(last.0));
        let readers = cell.readers[last.0];
        assert(roots == readers.roots(before, last.1));
        assert forall|id: Id, kind: int| cell.readers.contains_key(id) && 0 <= kind < 4 implies roots.contains(
            cell.readers[id].base() + kind,
        ) == #[trigger] marks_kind(marks, id, kind) by {
            let at = cell.readers[id].base() + kind;
            assert(marks_kind(shorter, id, kind) == before.contains(at));
            assert(cell.readers[id].on(ledger));
            assert(readers.on(ledger));
            if marks_kind(shorter, id, kind) {
                let i = choose|i: int|
                    0 <= i < shorter.len() && (#[trigger] shorter[i]).0 == id && ((kind == 0
                        && shorter[i].1.value) || (kind == 1 && shorter[i].1.readiness) || (kind
                        == 2 && shorter[i].1.authority) || (kind == 3 && shorter[i].1.retry));
                assert(marks[i] == shorter[i]);
            }
            if marks_kind(marks, id, kind) && !marks_kind(shorter, id, kind) {
                let i = choose|i: int|
                    0 <= i < marks.len() && (#[trigger] marks[i]).0 == id && ((kind == 0
                        && marks[i].1.value) || (kind == 1 && marks[i].1.readiness) || (kind == 2
                        && marks[i].1.authority) || (kind == 3 && marks[i].1.retry));
                if i < shorter.len() {
                    assert(shorter[i] == marks[i]);
                }
            }
            if id == last.0 {
            } else {
                assert(readers.base() + 4 <= cell.readers[id].base() || cell.readers[id].base() + 4
                    <= readers.base());
            }
        }
        assert(readers.base() > cell.schedule.slot.index);
    }
}

/// What minting the readers of marked keys leaves as it was.
proof fn minting_keeps_the_rest<Id, P>(
    cell: IngressCellState<Id, P>,
    ledger: Ledger,
    marks: Seq<(Id, IngressScopeChange)>,
    slot: SlotId,
)
    requires
        cell.on(ledger),
        ledger.sound(),
        ledger.slots.len() + 4 * marks.len() <= usize::MAX,
    ensures
        ({
            let (minted, grown) = cell.with_marked(ledger, marks);
            &&& minted.on(grown)
            &&& grown.sound()
            &&& grown.extends(ledger)
            &&& grown.depth == ledger.depth
            &&& grown.walks == ledger.walks
            &&& grown.slots.len() <= ledger.slots.len() + 4 * marks.len()
            &&& ledger.has(slot) ==> grown.stands(slot) == ledger.stands(slot)
            &&& minted == IngressCellState { readers: minted.readers, ..cell }
            &&& forall|id: Id| #[trigger]
                cell.readers.contains_key(id) ==> minted.readers.contains_key(id)
                    && minted.readers[id] == cell.readers[id]
            &&& forall|id: Id| #[trigger]
                minted.readers.contains_key(id) && !cell.readers.contains_key(id) ==> {
                    &&& minted.readers[id].value.cached is None
                    &&& minted.readers[id].readiness.cached is None
                    &&& minted.readers[id].authority.cached is None
                    &&& minted.readers[id].retry.cached is None
                }
            &&& forall|i: int|
                0 <= i < marks.len() ==> minted.readers.contains_key((#[trigger] marks[i]).0)
        }),
    decreases marks.len(),
{
    if marks.len() > 0 {
        minting_keeps_the_rest(cell, ledger, marks.drop_last(), slot);
        let (shorter, here) = cell.with_marked(ledger, marks.drop_last());
        let id = marks.last().0;
        let (minted, grown) = shorter.with_readers(here, id);
        growing_moves_none(here, 4, slot);
        if !shorter.readers.contains_key(id) {
            a_cell_stays_on_its_ledger(shorter, here, grown);
            let base = here.slots.len() as int;
            assert(ReaderSet::<P>::at(base).on(grown)) by {
                assert(grown.slots[base].deps == Seq::<int>::empty());
                assert(grown.slots[base + 1].deps == Seq::<int>::empty());
                assert(grown.slots[base + 2].deps == Seq::<int>::empty());
                assert(grown.slots[base + 3].deps == Seq::<int>::empty());
            }
            assert forall|other: Id| #[trigger] minted.readers.contains_key(other) implies minted.readers[other].on(
                grown,
            ) && minted.readers[other].base() > minted.schedule.slot.index by {
                if other != id {
                    assert(shorter.readers.contains_key(other));
                }
            }
            assert forall|one: Id, other: Id| #[trigger]
                minted.readers.contains_key(one) && #[trigger] minted.readers.contains_key(other)
                    && one != other implies minted.readers[one].base() + 4
                <= minted.readers[other].base() || minted.readers[other].base() + 4
                <= minted.readers[one].base() by {
                if one != id {
                    assert(shorter.readers.contains_key(one));
                    assert(shorter.readers[one].on(here));
                }
                if other != id {
                    assert(shorter.readers.contains_key(other));
                    assert(shorter.readers[other].on(here));
                }
            }
        }
        assert forall|i: int| 0 <= i < marks.len() implies minted.readers.contains_key(
            (#[trigger] marks[i]).0,
        ) by {
            if i < marks.len() - 1 {
                assert(marks.drop_last()[i] == marks[i]);
            }
        }
        assert forall|other: Id| #[trigger]
            minted.readers.contains_key(other) && !cell.readers.contains_key(other) implies {
            &&& minted.readers[other].value.cached is None
            &&& minted.readers[other].readiness.cached is None
            &&& minted.readers[other].authority.cached is None
            &&& minted.readers[other].retry.cached is None
        } by {
            if other != id {
                assert(shorter.readers.contains_key(other));
            }
        }
    }
}

/// A change unseats exactly the scope readers that it marks: every other reader of
/// every key stands as it stood, and no cache is touched.
pub proof fn exactly_the_marked_scope_readers_fall<Id, P>(
    cell: IngressCellState<Id, P>,
    ledger: Ledger,
    marks: IngressMarks<Id>,
    id: Id,
)
    requires
        cell.on(ledger),
        ledger.sound(),
        ledger.slots.len() + 4 * marks.scopes.len() <= usize::MAX,
        cell.readers.contains_key(id),
    ensures
        ({
            let (after, walked) = cell.applied(ledger, marks);
            let readers = cell.readers[id];
            &&& after.readers.contains_key(id)
            &&& after.readers[id] == readers
            &&& walked.stands(readers.value.slot) == (ledger.stands(readers.value.slot)
                && !marks.marks_value(id))
            &&& walked.stands(readers.readiness.slot) == (ledger.stands(readers.readiness.slot)
                && !marks.marks_readiness(id))
            &&& walked.stands(readers.authority.slot) == (ledger.stands(readers.authority.slot)
                && !marks.marks_authority(id))
            &&& walked.stands(readers.retry.slot) == (ledger.stands(readers.retry.slot)
                && !marks.marks_retry(id))
        }),
{
    let (minted, grown) = cell.with_marked(ledger, marks.scopes);
    let readers = cell.readers[id];
    let roots = minted.roots(marks);
    assert(readers.on(ledger));
    minting_keeps_the_rest(cell, ledger, marks.scopes, readers.value.slot);
    minting_keeps_the_rest(cell, ledger, marks.scopes, readers.readiness.slot);
    minting_keeps_the_rest(cell, ledger, marks.scopes, readers.authority.slot);
    minting_keeps_the_rest(cell, ledger, marks.scopes, readers.retry.slot);
    roots_are_the_marked(minted, grown, marks.scopes);
    assert(minted.readers.contains_key(id));
    assert(minted.readers[id].on(grown));
    a_leaf_falls_as_a_root(grown, roots, readers.value.slot);
    a_leaf_falls_as_a_root(grown, roots, readers.readiness.slot);
    a_leaf_falls_as_a_root(grown, roots, readers.authority.slot);
    a_leaf_falls_as_a_root(grown, roots, readers.retry.slot);
    let base = readers.base();
    assert(base > minted.schedule.slot.index);
    assert(marks_kind(marks.scopes, id, 0) == marks.marks_value(id));
    assert(marks_kind(marks.scopes, id, 1) == marks.marks_readiness(id));
    assert(marks_kind(marks.scopes, id, 2) == marks.marks_authority(id));
    assert(marks_kind(marks.scopes, id, 3) == marks.marks_retry(id));
    let inner = scope_roots(minted.readers, marks.scopes);
    assert(inner.contains(base + 0) == marks_kind(marks.scopes, id, 0));
    assert(inner.contains(base + 1) == marks_kind(marks.scopes, id, 1));
    assert(inner.contains(base + 2) == marks_kind(marks.scopes, id, 2));
    assert(inner.contains(base + 3) == marks_kind(marks.scopes, id, 3));
}

/// A change unseats exactly the receipt readers that it marks, and never the schedule.
pub proof fn exactly_the_marked_receipt_readers_fall<Id, P>(
    cell: IngressCellState<Id, P>,
    ledger: Ledger,
    marks: IngressMarks<Id>,
)
    requires
        cell.on(ledger),
        ledger.sound(),
        ledger.slots.len() + 4 * marks.scopes.len() <= usize::MAX,
    ensures
        ({
            let (after, walked) = cell.applied(ledger, marks);
            &&& walked.stands(cell.accepted.slot) == (ledger.stands(cell.accepted.slot)
                && !marks.accepted_receipts)
            &&& walked.stands(cell.dropped.slot) == (ledger.stands(cell.dropped.slot)
                && !marks.dropped_receipts)
            &&& walked.stands(cell.errors.slot) == (ledger.stands(cell.errors.slot)
                && !marks.error_receipts)
            &&& walked.stands(cell.schedule.slot) == ledger.stands(cell.schedule.slot)
        }),
{
    let (minted, grown) = cell.with_marked(ledger, marks.scopes);
    let roots = minted.roots(marks);
    minting_keeps_the_rest(cell, ledger, marks.scopes, cell.accepted.slot);
    minting_keeps_the_rest(cell, ledger, marks.scopes, cell.dropped.slot);
    minting_keeps_the_rest(cell, ledger, marks.scopes, cell.errors.slot);
    minting_keeps_the_rest(cell, ledger, marks.scopes, cell.schedule.slot);
    roots_are_the_marked(minted, grown, marks.scopes);
    a_leaf_falls_as_a_root(grown, roots, cell.accepted.slot);
    a_leaf_falls_as_a_root(grown, roots, cell.dropped.slot);
    a_leaf_falls_as_a_root(grown, roots, cell.errors.slot);
    clearing_unseats_what_it_reaches(grown, roots, cell.schedule.slot);
    let at = cell.schedule.slot.index as int;
    a_leaf_is_reached_from_itself(grown, roots, cell.kind_slot);
    a_leaf_is_reached_from_itself(grown, roots, cell.interval_slot);
    assert(grown.slots[at].deps == seq![
        cell.kind_slot.index as int,
        cell.interval_slot.index as int,
    ]);
    assert(!reaches(grown.slots, roots, at)) by {
        assert forall|i: int| #![trigger grown.slots[at].deps[i]]
            0 <= i < grown.slots[at].deps.len() && 0 <= grown.slots[at].deps[i]
                < at implies !reaches(grown.slots, roots, grown.slots[at].deps[i]) by {
            assert(i == 0 || i == 1);
        }
    }
}

/// A cell over another plane stands on the same slots.
proof fn a_plane_moves_no_slot<Id, P>(
    cell: IngressCellState<Id, P>,
    ledger: Ledger,
    core: IngressState<Id, P>,
)
    requires
        cell.on(ledger),
    ensures
        cell.over(core).on(ledger),
{
    let over = cell.over(core);
    assert forall|id: Id| #[trigger] over.readers.contains_key(id) implies over.readers[id].on(
        ledger,
    ) && over.readers[id].base() > over.schedule.slot.index by {
        assert(cell.readers.contains_key(id));
    }
    assert forall|id: Id, other: Id| #[trigger]
        over.readers.contains_key(id) && #[trigger] over.readers.contains_key(other) && id
            != other implies over.readers[id].base() + 4 <= over.readers[other].base()
        || over.readers[other].base() + 4 <= over.readers[id].base() by {
        assert(cell.readers.contains_key(id) && cell.readers.contains_key(other));
    }
}

/// A transition that marks every reader it moves leaves every scope reader fresh:
/// no consumer can see a value next to another transition's authority.
pub proof fn marking_what_moves_keeps_scopes_fresh<Id, P>(
    cell: IngressCellState<Id, P>,
    ledger: Ledger,
    core: IngressState<Id, P>,
    marks: IngressMarks<Id>,
)
    requires
        cell.on(ledger),
        ledger.sound(),
        ledger.slots.len() + 4 * marks.scopes.len() <= usize::MAX,
        scopes_are_fresh(cell, ledger),
        unmarked_readers_hold(cell.core, core, marks),
    ensures
        scopes_are_fresh(
            cell.over(core).applied(ledger, marks).0,
            cell.over(core).applied(ledger, marks).1,
        ),
{
    let over = cell.over(core);
    let (after, walked) = over.applied(ledger, marks);
    a_plane_moves_no_slot(cell, ledger, core);
    minting_keeps_the_rest(over, ledger, marks.scopes, cell.accepted.slot);
    assert forall|id: Id| #[trigger] after.readers.contains_key(id) implies {
        let readers = after.readers[id];
        &&& readers.value.fresh(walked, after.core.value_of(id))
        &&& readers.readiness.fresh(walked, after.core.readiness_of(id))
        &&& readers.authority.fresh(walked, after.core.authority_of(id))
        &&& readers.retry.fresh(walked, after.core.retry_of(id))
    } by {
        if over.readers.contains_key(id) {
            exactly_the_marked_scope_readers_fall(over, ledger, marks, id);
            assert(cell.readers.contains_key(id));
            assert(after.core == core);
        }
    }
}

/// A transition that marks every receipt channel it moves leaves every receipt reader
/// fresh.
pub proof fn marking_what_moves_keeps_receipts_fresh<Id, P>(
    cell: IngressCellState<Id, P>,
    ledger: Ledger,
    core: IngressState<Id, P>,
    marks: IngressMarks<Id>,
)
    requires
        cell.on(ledger),
        ledger.sound(),
        ledger.slots.len() + 4 * marks.scopes.len() <= usize::MAX,
        receipts_are_fresh(cell, ledger),
        marks.accepted_receipts || core.receipts_on(IngressReceiptChannel::Accepted)
            == cell.core.receipts_on(IngressReceiptChannel::Accepted),
        marks.dropped_receipts || core.receipts_on(IngressReceiptChannel::Dropped)
            == cell.core.receipts_on(IngressReceiptChannel::Dropped),
        marks.error_receipts || core.receipts_on(IngressReceiptChannel::Error)
            == cell.core.receipts_on(IngressReceiptChannel::Error),
    ensures
        receipts_are_fresh(
            cell.over(core).applied(ledger, marks).0,
            cell.over(core).applied(ledger, marks).1,
        ),
{
    let over = cell.over(core);
    a_plane_moves_no_slot(cell, ledger, core);
    minting_keeps_the_rest(over, ledger, marks.scopes, cell.accepted.slot);
    exactly_the_marked_receipt_readers_fall(over, ledger, marks);
}

/// While every cache that stands is fresh and no batch is open, the receipt readers show
/// what the log holds, and the schedule is the one of the kind and bound in force.
pub proof fn receipt_reads_show_the_log<Id, P>(cell: IngressCellState<Id, P>, ledger: Ledger)
    requires
        cell.on(ledger),
        ledger.sound(),
        ledger.depth == 0,
        receipts_are_fresh(cell, ledger),
        schedule_is_fresh(cell, ledger),
    ensures
        cell.accepted_shown(ledger) == cell.core.receipts_on(IngressReceiptChannel::Accepted),
        cell.dropped_shown(ledger) == cell.core.receipts_on(IngressReceiptChannel::Dropped),
        cell.errors_shown(ledger) == cell.core.receipts_on(IngressReceiptChannel::Error),
        cell.schedule_shown(ledger) == IngressSchedule::of_kind(cell.kind, cell.poll_interval),
{
    cell.accepted.fresh_shows(ledger, cell.core.receipts_on(IngressReceiptChannel::Accepted));
    cell.dropped.fresh_shows(ledger, cell.core.receipts_on(IngressReceiptChannel::Dropped));
    cell.errors.fresh_shows(ledger, cell.core.receipts_on(IngressReceiptChannel::Error));
    cell.schedule.fresh_shows(
        ledger,
        IngressSchedule::of_kind(cell.kind, cell.poll_interval),
    );
}

/// While every cache that stands is fresh and no batch is open, a scope read shows
/// what the plane derives, and leaves every scope reader fresh.
pub proof fn scope_reads_show_the_plane<Id, P>(
    cell: IngressCellState<Id, P>,
    ledger: Ledger,
    id: Id,
)
    requires
        cell.on(ledger),
        ledger.sound(),
        ledger.depth == 0,
        ledger.slots.len() + 4 <= usize::MAX,
        scopes_are_fresh(cell, ledger),
    ensures
        cell.value_read(ledger, id).2 == cell.core.value_of(id),
        cell.readiness_read(ledger, id).2 == cell.core.readiness_of(id),
        cell.authority_read(ledger, id).2 == cell.core.authority_of(id),
        cell.retry_read(ledger, id).2 == cell.core.retry_of(id),
        scopes_are_fresh(cell.value_read(ledger, id).0, cell.value_read(ledger, id).1),
        scopes_are_fresh(cell.readiness_read(ledger, id).0, cell.readiness_read(ledger, id).1),
        scopes_are_fresh(cell.authority_read(ledger, id).0, cell.authority_read(ledger, id).1),
        scopes_are_fresh(cell.retry_read(ledger, id).0, cell.retry_read(ledger, id).1),
{
    let (minted, grown) = cell.with_readers(ledger, id);
    let one = seq![(id, IngressScopeChange::nothing())];
    assert(one.drop_last() =~= Seq::empty());
    reveal_with_fuel(IngressCellState::with_marked, 2);
    assert(cell.with_marked(ledger, one) == (minted, grown));
    minting_keeps_the_rest(cell, ledger, one, cell.accepted.slot);
    assert(one[0].0 == id);
    assert(minted.readers.contains_key(id));
    assert forall|other: Id| #[trigger] minted.readers.contains_key(other) implies {
        let readers = minted.readers[other];
        &&& readers.value.fresh(grown, minted.core.value_of(other))
        &&& readers.readiness.fresh(grown, minted.core.readiness_of(other))
        &&& readers.authority.fresh(grown, minted.core.authority_of(other))
        &&& readers.retry.fresh(grown, minted.core.retry_of(other))
    } by {
        if cell.readers.contains_key(other) {
            let readers = cell.readers[other];
            assert(readers.on(ledger));
            minting_keeps_the_rest(cell, ledger, one, readers.value.slot);
            minting_keeps_the_rest(cell, ledger, one, readers.readiness.slot);
            minting_keeps_the_rest(cell, ledger, one, readers.authority.slot);
            minting_keeps_the_rest(cell, ledger, one, readers.retry.slot);
        }
    }
    let mine = minted.readers[id];
    assert(mine.on(grown));
    nothing_reaches(grown.slots, mine.value.slot.index as int);
    nothing_reaches(grown.slots, mine.readiness.slot.index as int);
    nothing_reaches(grown.slots, mine.authority.slot.index as int);
    nothing_reaches(grown.slots, mine.retry.slot.index as int);
    settling_keeps_scopes_fresh(minted, grown, id);
}

/// Settling a reader that shows what the plane derives leaves every reader fresh.
proof fn settling_keeps_scopes_fresh<Id, P>(
    cell: IngressCellState<Id, P>,
    ledger: Ledger,
    id: Id,
)
    requires
        cell.on(ledger),
        ledger.sound(),
        scopes_are_fresh(cell, ledger),
        cell.readers.contains_key(id),
        cell.readers[id].value.shows(ledger, cell.core.value_of(id)) == cell.core.value_of(id),
        cell.readers[id].readiness.shows(ledger, cell.core.readiness_of(id))
            == cell.core.readiness_of(id),
        cell.readers[id].authority.shows(ledger, cell.core.authority_of(id))
            == cell.core.authority_of(id),
        cell.readers[id].retry.shows(ledger, cell.core.retry_of(id)) == cell.core.retry_of(id),
    ensures
        scopes_are_fresh(cell.value_read(ledger, id).0, cell.value_read(ledger, id).1),
        scopes_are_fresh(cell.readiness_read(ledger, id).0, cell.readiness_read(ledger, id).1),
        scopes_are_fresh(cell.authority_read(ledger, id).0, cell.authority_read(ledger, id).1),
        scopes_are_fresh(cell.retry_read(ledger, id).0, cell.retry_read(ledger, id).1),
{
    let mine = cell.readers[id];
    assert(mine.on(ledger));
    let slots = seq![mine.value.slot, mine.readiness.slot, mine.authority.slot, mine.retry.slot];
    assert forall|other: Id, at: int|
        #![trigger cell.readers.contains_key(other), slots[at]]
        cell.readers.contains_key(other) && 0 <= at < 4 implies {
        let readers = cell.readers[other];
        let settled = ledger.settled(slots[at]);
        &&& (other != id || at != 0) ==> settled.stands(readers.value.slot) == ledger.stands(
            readers.value.slot,
        )
        &&& (other != id || at != 1) ==> settled.stands(readers.readiness.slot) == ledger.stands(
            readers.readiness.slot,
        )
        &&& (other != id || at != 2) ==> settled.stands(readers.authority.slot) == ledger.stands(
            readers.authority.slot,
        )
        &&& (other != id || at != 3) ==> settled.stands(readers.retry.slot) == ledger.stands(
            readers.retry.slot,
        )
    } by {
        let readers = cell.readers[other];
        assert(readers.on(ledger));
        settling_moves_one(ledger, slots[at], readers.value.slot);
        settling_moves_one(ledger, slots[at], readers.readiness.slot);
        settling_moves_one(ledger, slots[at], readers.authority.slot);
        settling_moves_one(ledger, slots[at], readers.retry.slot);
        if other != id {
            assert(readers.base() + 4 <= mine.base() || mine.base() + 4 <= readers.base());
        }
    }
    assert(slots[0] == mine.value.slot);
    assert(slots[1] == mine.readiness.slot);
    assert(slots[2] == mine.authority.slot);
    assert(slots[3] == mine.retry.slot);
    let (value, _, _) = cell.value_read(ledger, id);
    assert forall|other: Id| #[trigger] value.readers.contains_key(other) implies {
        let readers = value.readers[other];
        let settled = ledger.settled(slots[0]);
        &&& readers.value.fresh(settled, cell.core.value_of(other))
        &&& readers.readiness.fresh(settled, cell.core.readiness_of(other))
        &&& readers.authority.fresh(settled, cell.core.authority_of(other))
        &&& readers.retry.fresh(settled, cell.core.retry_of(other))
    } by {
        assert(cell.readers.contains_key(other));
    }
    let (readiness, _, _) = cell.readiness_read(ledger, id);
    assert forall|other: Id| #[trigger] readiness.readers.contains_key(other) implies {
        let readers = readiness.readers[other];
        let settled = ledger.settled(slots[1]);
        &&& readers.value.fresh(settled, cell.core.value_of(other))
        &&& readers.readiness.fresh(settled, cell.core.readiness_of(other))
        &&& readers.authority.fresh(settled, cell.core.authority_of(other))
        &&& readers.retry.fresh(settled, cell.core.retry_of(other))
    } by {
        assert(cell.readers.contains_key(other));
    }
    let (authority, _, _) = cell.authority_read(ledger, id);
    assert forall|other: Id| #[trigger] authority.readers.contains_key(other) implies {
        let readers = authority.readers[other];
        let settled = ledger.settled(slots[2]);
        &&& readers.value.fresh(settled, cell.core.value_of(other))
        &&& readers.readiness.fresh(settled, cell.core.readiness_of(other))
        &&& readers.authority.fresh(settled, cell.core.authority_of(other))
        &&& readers.retry.fresh(settled, cell.core.retry_of(other))
    } by {
        assert(cell.readers.contains_key(other));
    }
    let (retry, _, _) = cell.retry_read(ledger, id);
    assert forall|other: Id| #[trigger] retry.readers.contains_key(other) implies {
        let readers = retry.readers[other];
        let settled = ledger.settled(slots[3]);
        &&& readers.value.fresh(settled, cell.core.value_of(other))
        &&& readers.readiness.fresh(settled, cell.core.readiness_of(other))
        &&& readers.authority.fresh(settled, cell.core.authority_of(other))
        &&& readers.retry.fresh(settled, cell.core.retry_of(other))
    } by {
        assert(cell.readers.contains_key(other));
    }
}

/// Every reader of a cell whose cache stands has in it what would be derived now.
pub open spec fn ingress_is_fresh<Id, P>(cell: IngressCellState<Id, P>, ledger: Ledger) -> bool {
    &&& scopes_are_fresh(cell, ledger)
    &&& receipts_are_fresh(cell, ledger)
    &&& schedule_is_fresh(cell, ledger)
}

/// A transition that marks every reader and channel it moves leaves the whole cell fresh.
proof fn marking_what_moves_keeps_the_cell_fresh<Id, P>(
    cell: IngressCellState<Id, P>,
    ledger: Ledger,
    core: IngressState<Id, P>,
    marks: IngressMarks<Id>,
)
    requires
        cell.on(ledger),
        ledger.sound(),
        ledger.slots.len() + 4 * marks.scopes.len() <= usize::MAX,
        ingress_is_fresh(cell, ledger),
        unmarked_readers_hold(cell.core, core, marks),
        forall|channel: IngressReceiptChannel| !#[trigger] marks_channel(marks, channel)
            ==> core.receipts_on(channel) == cell.core.receipts_on(channel),
    ensures
        cell.over(core).applied(ledger, marks).0.core == core,
        ingress_is_fresh(
            cell.over(core).applied(ledger, marks).0,
            cell.over(core).applied(ledger, marks).1,
        ),
{
    let over = cell.over(core);
    assert(marks_channel(marks, IngressReceiptChannel::Accepted) == marks.accepted_receipts);
    assert(marks_channel(marks, IngressReceiptChannel::Dropped) == marks.dropped_receipts);
    assert(marks_channel(marks, IngressReceiptChannel::Error) == marks.error_receipts);
    marking_what_moves_keeps_scopes_fresh(cell, ledger, core, marks);
    marking_what_moves_keeps_receipts_fresh(cell, ledger, core, marks);
    a_plane_moves_no_slot(cell, ledger, core);
    exactly_the_marked_receipt_readers_fall(over, ledger, marks);
    minting_keeps_the_rest(over, ledger, marks.scopes, cell.schedule.slot);
}

/// An admission leaves every reader of the cell fresh.
pub proof fn admitting_keeps_the_cell_fresh<Id, T: View, M: MergePolicy<T>>(
    cell: IngressCellState<Id, T::V>,
    ledger: Ledger,
    envelope: IngressEnvelope<Id, T::V>,
)
    requires
        cell.core.wf(),
        cell.on(ledger),
        ledger.sound(),
        ledger.slots.len() + 4 <= usize::MAX,
        ingress_is_fresh(cell, ledger),
    ensures
        ({
            let (core, marks, _) = admitted::<Id, T, M>(cell.core, envelope);
            let (after, walked) = cell.over(core).applied(ledger, marks);
            after.core == core && ingress_is_fresh(after, walked)
        }),
{
    let (core, marks, _) = admitted::<Id, T, M>(cell.core, envelope);
    admission_marks_what_moves::<Id, T, M>(cell.core, envelope);
    assert forall|channel: IngressReceiptChannel| !#[trigger] marks_channel(
        marks,
        channel,
    ) implies core.receipts_on(channel) == cell.core.receipts_on(channel) by {
        unmarked_channels_hold::<Id, T, M>(cell.core, envelope, channel);
    }
    assert(marks.scopes.len() <= 1);
    marking_what_moves_keeps_the_cell_fresh(cell, ledger, core, marks);
}

/// A close leaves every reader of the cell fresh.
pub proof fn closing_keeps_the_cell_fresh<Id, P>(
    cell: IngressCellState<Id, P>,
    ledger: Ledger,
    id: Id,
)
    requires
        cell.core.wf(),
        cell.on(ledger),
        ledger.sound(),
        ledger.slots.len() + 4 <= usize::MAX,
        ingress_is_fresh(cell, ledger),
    ensures
        ({
            let (core, marks) = cell.core.closed(id);
            let (after, walked) = cell.over(core).applied(ledger, marks);
            after.core == core && ingress_is_fresh(after, walked)
        }),
{
    let (core, marks) = cell.core.closed(id);
    closing_marks_what_moves(cell.core, id);
    assert(marks.scopes.len() <= 1);
    marking_what_moves_keeps_the_cell_fresh(cell, ledger, core, marks);
}

/// Opening, suspending, reconnecting, failing and draining leave every reader of the cell
/// fresh.
pub proof fn transitions_keep_the_cell_fresh<Id, P>(
    cell: IngressCellState<Id, P>,
    ledger: Ledger,
    id: Id,
    generation: u64,
    error: IngressError,
)
    requires
        cell.core.wf(),
        cell.on(ledger),
        ledger.sound(),
        ledger.slots.len() + 4 <= usize::MAX,
        ingress_is_fresh(cell, ledger),
    ensures
        ({
            let (core, marks) = cell.core.opened(id, generation);
            let (after, walked) = cell.over(core).applied(ledger, marks);
            ingress_is_fresh(after, walked)
        }),
        ({
            let (core, marks, _) = cell.core.suspended(id);
            let (after, walked) = cell.over(core).applied(ledger, marks);
            ingress_is_fresh(after, walked)
        }),
        ({
            let (core, marks, _) = cell.core.reconnected(id, generation);
            let (after, walked) = cell.over(core).applied(ledger, marks);
            ingress_is_fresh(after, walked)
        }),
        ({
            let (core, marks) = cell.core.failed(id, error);
            let (after, walked) = cell.over(core).applied(ledger, marks);
            ingress_is_fresh(after, walked)
        }),
        ({
            let (core, marks, _) = cell.core.drained(id);
            let (after, walked) = cell.over(core).applied(ledger, marks);
            ingress_is_fresh(after, walked)
        }),
{
    let state = cell.core;
    let (opened, opening) = state.opened(id, generation);
    opening_marks_what_moves(state, id, generation);
    marking_what_moves_keeps_the_cell_fresh(cell, ledger, opened, opening);
    let (suspended, suspending, _) = state.suspended(id);
    suspending_marks_what_moves(state, id);
    marking_what_moves_keeps_the_cell_fresh(cell, ledger, suspended, suspending);
    let (reconnected, reconnecting, _) = state.reconnected(id, generation);
    reconnecting_marks_what_moves(state, id, generation);
    marking_what_moves_keeps_the_cell_fresh(cell, ledger, reconnected, reconnecting);
    let (failed, failing) = state.failed(id, error);
    failing_marks_what_moves(state, id, error);
    assert forall|channel: IngressReceiptChannel| !#[trigger] marks_channel(
        failing,
        channel,
    ) implies failed.receipts_on(channel) == state.receipts_on(channel) by {
        a_failure_marks_its_channels(state, id, error, channel);
    }
    marking_what_moves_keeps_the_cell_fresh(cell, ledger, failed, failing);
    let (drained, draining, _) = state.drained(id);
    draining_marks_what_moves(state, id);
    marking_what_moves_keeps_the_cell_fresh(cell, ledger, drained, draining);
}

/// A tick leaves every reader of the cell fresh.
pub proof fn ticking_keeps_the_cell_fresh<Id, P>(
    cell: IngressCellState<Id, P>,
    ledger: Ledger,
    now: u64,
)
    requires
        cell.core.wf(),
        cell.on(ledger),
        ledger.sound(),
        ledger.slots.len() + 4 * cell.core.ticked(now).1.scopes.len() <= usize::MAX,
        ingress_is_fresh(cell, ledger),
    ensures
        ({
            let (core, marks) = cell.core.ticked(now);
            let (after, walked) = cell.over(core).applied(ledger, marks);
            ingress_is_fresh(after, walked)
        }),
{
    let (core, marks) = cell.core.ticked(now);
    ticking_marks_what_moves(cell.core, now);
    marking_what_moves_keeps_the_cell_fresh(cell, ledger, core, marks);
}

/// A change costs at most one walk outside a batch and none inside, and none where
/// nothing is dirty.
pub proof fn a_change_is_one_walk<Id, P>(
    cell: IngressCellState<Id, P>,
    ledger: Ledger,
    marks: IngressMarks<Id>,
)
    requires
        cell.on(ledger),
        ledger.sound(),
        ledger.slots.len() + 4 * marks.scopes.len() <= usize::MAX,
    ensures
        cell.applied(ledger, marks).1.walks <= ledger.walks + 1,
        ledger.depth > 0 ==> cell.applied(ledger, marks).1.walks == ledger.walks,
        !marks.some() ==> cell.applied(ledger, marks) == (cell, ledger),
{
    minting_keeps_the_rest(cell, ledger, marks.scopes, cell.accepted.slot);
}

/// A change leaves every slot before the cell's own as it was, whatever it marks.
pub proof fn applying_keeps_earlier_slots<Id, P>(
    cell: IngressCellState<Id, P>,
    ledger: Ledger,
    marks: IngressMarks<Id>,
    slot: SlotId,
)
    requires
        cell.on(ledger),
        ledger.sound(),
        slot.index < cell.first(),
        ledger.slots.len() + 4 * marks.scopes.len() <= usize::MAX,
    ensures
        ({
            let (after, walked) = cell.applied(ledger, marks);
            &&& after.on(walked)
            &&& after.first() == cell.first()
            &&& walked.sound()
            &&& walked.extends(ledger)
            &&& walked.depth == ledger.depth
            &&& walked.slots.len() <= ledger.slots.len() + 4 * marks.scopes.len()
            &&& walked.stands(slot) == ledger.stands(slot)
            &&& walked.walks <= ledger.walks + 1
            &&& ledger.depth > 0 ==> walked.walks == ledger.walks
        }),
{
    let (minted, grown) = cell.with_marked(ledger, marks.scopes);
    let roots = minted.roots(marks);
    minting_keeps_the_rest(cell, ledger, marks.scopes, slot);
    roots_are_the_marked(minted, grown, marks.scopes);
    clearing_unseats_what_it_reaches(grown, roots, slot);
    assert forall|root: int| #[trigger] roots.contains(root) implies root >= cell.first() by {
        if root <= minted.schedule.slot.index {
            assert(!scope_roots(minted.readers, marks.scopes).contains(root));
        }
    }
    roots_reach_nothing_before_them(grown.slots, roots, cell.first(), slot.index as int);
    let walked = grown.cleared(roots);
    a_cell_stays_on_its_ledger(minted, grown, walked);
    assert forall|at: int| 0 <= at < ledger.slots.len() implies (#[trigger] walked.slots[at]).deps
        == ledger.slots[at].deps by {
        assert(grown.slots[at].deps == ledger.slots[at].deps);
        assert(walked.slots[at].deps == grown.slots[at].deps);
    }
}

/// Rewriting the transport kind or the poll bound unseats the schedule, unless it is the
/// same value again.
pub proof fn retuning_keeps_the_schedule_fresh<Id, P>(
    cell: IngressCellState<Id, P>,
    ledger: Ledger,
    after: IngressCellState<Id, P>,
)
    requires
        cell.on(ledger),
        ledger.sound(),
        schedule_is_fresh(cell, ledger),
        after.schedule == cell.schedule,
    ensures
        after.kind != cell.kind || after.poll_interval != cell.poll_interval ==> schedule_is_fresh(
            after,
            ledger.cleared(Set::<int>::empty().insert(cell.kind_slot.index as int)),
        ) && schedule_is_fresh(
            after,
            ledger.cleared(Set::<int>::empty().insert(cell.interval_slot.index as int)),
        ),
        after.kind == cell.kind && after.poll_interval == cell.poll_interval ==> schedule_is_fresh(
            after,
            ledger,
        ),
{
    let at = cell.schedule.slot.index as int;
    let kind = Set::<int>::empty().insert(cell.kind_slot.index as int);
    let interval = Set::<int>::empty().insert(cell.interval_slot.index as int);
    clearing_unseats_what_it_reaches(ledger, kind, cell.schedule.slot);
    clearing_unseats_what_it_reaches(ledger, interval, cell.schedule.slot);
    a_leaf_is_reached_from_itself(ledger, kind, cell.kind_slot);
    a_leaf_is_reached_from_itself(ledger, interval, cell.interval_slot);
    assert(ledger.slots[at].deps[0] == cell.kind_slot.index as int);
    assert(ledger.slots[at].deps[1] == cell.interval_slot.index as int);
    assert(reaches(ledger.slots, kind, at));
    assert(reaches(ledger.slots, interval, at));
}

} // verus!
