//! Laws of the work queue, topic and latest-durable cells: what an operation leaves behind
//! its readers, and which readers it clears.

use vstd::prelude::*;

use crate::filtering::filter_keeps_what_matches;
use crate::graph::{
    Ledger, SlotId, a_leaf_falls_as_a_root, allocating_moves_none, clearing_unseats_what_it_reaches,
    with_root,
};
use crate::latest_durable_projection_core::LatestDurableState;
use crate::latest_durable_shell::LatestDurableCellState;
use crate::queue::TopicDurability;
use crate::topic_core::TopicState;
use crate::topic_shell::{TopicCellState, reader_roots, roots_name_their_subscribers};
use crate::work_queue_core::{Transition, WorkState};
use crate::work_queue_shell::WorkCellState;

verus! {

/// A work queue transition clears exactly the readers of the counts that it moved: how many
/// items are pending, whether any is, how many leases are live and how many items are dead.
/// It leaves the readers themselves alone.
pub proof fn a_work_queue_clears_the_counts_that_moved<P, W>(
    cell: WorkCellState<P, W>,
    ledger: Ledger,
    core: WorkState<P, W>,
)
    requires
        cell.on(ledger),
        ledger.sound(),
        cell.core.pending.len() <= usize::MAX,
        cell.core.in_flight.len() <= usize::MAX,
        cell.core.dead_letters.len() <= usize::MAX,
        core.pending.len() <= usize::MAX,
        core.in_flight.len() <= usize::MAX,
        core.dead_letters.len() <= usize::MAX,
    ensures
        ({
            let after = cell.over(core);
            let later = cell.moved(ledger, core);
            &&& after.core == core
            &&& after.pending_len == cell.pending_len
            &&& after.is_empty == cell.is_empty
            &&& after.in_flight_len == cell.in_flight_len
            &&& after.dead_letter_len == cell.dead_letter_len
            &&& later.stands(cell.pending_len.slot) <==> ledger.stands(cell.pending_len.slot)
                && core.pending.len() == cell.core.pending.len()
            &&& later.stands(cell.is_empty.slot) <==> ledger.stands(cell.is_empty.slot) && (
            core.pending.len() == 0 <==> cell.core.pending.len() == 0)
            &&& later.stands(cell.in_flight_len.slot) <==> ledger.stands(cell.in_flight_len.slot)
                && core.in_flight.len() == cell.core.in_flight.len()
            &&& later.stands(cell.dead_letter_len.slot) <==> ledger.stands(
                cell.dead_letter_len.slot,
            ) && core.dead_letters.len() == cell.core.dead_letters.len()
        }),
        cell.core.counts().pending == cell.core.pending.len(),
        cell.core.counts().in_flight == cell.core.in_flight.len(),
        cell.core.counts().dead_letters == cell.core.dead_letters.len(),
{
    let change = Transition {
        before: cell.core.counts(),
        after: core.counts(),
    };
    let roots = cell.roots(change.moved());
    a_leaf_falls_as_a_root(ledger, roots, cell.pending_len.slot);
    a_leaf_falls_as_a_root(ledger, roots, cell.is_empty.slot);
    a_leaf_falls_as_a_root(ledger, roots, cell.in_flight_len.slot);
    a_leaf_falls_as_a_root(ledger, roots, cell.dead_letter_len.slot);
}

/// A new work queue cell is empty and its readers have computed nothing yet.
pub proof fn a_new_work_queue_cell_has_read_nothing<P, W>(
    visibility_timeout: u64,
    max_deliveries: u32,
    first: int,
)
    requires
        0 <= first,
        first + 3 <= usize::MAX,
    ensures
        ({
            let cell = WorkCellState::<P, W>::initial(visibility_timeout, max_deliveries, first);
            &&& cell.core == WorkState::<P, W>::initial(visibility_timeout, max_deliveries)
            &&& cell.pending_len.slot.index == first && cell.pending_len.cached is None
            &&& cell.is_empty.slot.index == first + 1 && cell.is_empty.cached is None
            &&& cell.in_flight_len.slot.index == first + 2 && cell.in_flight_len.cached is None
            &&& cell.dead_letter_len.slot.index == first + 3
            &&& cell.dead_letter_len.cached is None
        }),
{
}

/// A latest-durable transition clears the snapshot exactly where it is marked, and leaves
/// the reader itself alone.
pub proof fn a_latest_durable_cell_clears_its_snapshot_where_marked<Id, P>(
    cell: LatestDurableCellState<Id, P>,
    ledger: Ledger,
    core: LatestDurableState<Id, P>,
    moved: bool,
)
    requires
        cell.on(ledger),
        ledger.sound(),
    ensures
        cell.over(core).core == core,
        cell.over(core).snapshot == cell.snapshot,
        ledger.cleared(cell.roots(moved)).stands(cell.snapshot.slot) <==> ledger.stands(
            cell.snapshot.slot,
        ) && !moved,
        !moved ==> ledger.cleared(cell.roots(moved)) == ledger,
{
    a_leaf_falls_as_a_root(ledger, cell.roots(moved), cell.snapshot.slot);
}

/// Subscribing gives a subscriber without a reader one on a slot of its own that has computed
/// nothing yet; one that is known keeps its reader, which falls exactly where the subscriber
/// came back. No other reader moves.
pub proof fn subscribing_clears_a_subscriber_that_came_back<P, Id>(
    cell: TopicCellState<P, Id>,
    ledger: Ledger,
    id: Id,
    durability: TopicDurability,
    other: Id,
)
    requires
        cell.in_step(),
        cell.on(ledger),
        ledger.sound(),
        ledger.slots.len() <= usize::MAX,
        cell.readers.contains_key(other),
    ensures
        ({
            let (after, later, outcome) = cell.subscribed(ledger, id, durability);
            let known = cell.core.subscriptions.contains_key(id);
            let slot = cell.readers[other].slot;
            &&& after.core == cell.core.subscribed(id, durability).0
            &&& outcome == cell.core.subscribed(id, durability).1
            &&& after.readers.contains_key(id)
            &&& !known ==> {
                &&& after.readers[id].slot.index == ledger.slots.len()
                &&& after.readers[id].cached is None
                &&& later.slots.len() == ledger.slots.len() + 1
            }
            &&& known ==> after.readers[id] == cell.readers[id] && later.slots.len()
                == ledger.slots.len()
            &&& after.readers.contains_key(other)
            &&& after.readers[other] == cell.readers[other]
            &&& later.stands(slot) <==> ledger.stands(slot) && !(other == id
                && !cell.core.subscriptions[id].connected)
        }),
{
    let (core, outcome, clears) = cell.core.subscribed(id, durability);
    let (minted, here) = cell.over(core).with_reader(ledger, id);
    let slot = cell.readers[other].slot;
    assert(cell.readers.contains_key(id) <==> cell.core.subscriptions.contains_key(id));
    assert(cell.readers.contains_key(other) <==> cell.core.subscriptions.contains_key(other));
    if !cell.readers.contains_key(id) {
        allocating_moves_none(ledger, Seq::empty(), slot);
    }
    let roots = with_root(Set::empty(), clears, minted.readers[id].slot);
    a_leaf_falls_as_a_root(here, roots, slot);
    clearing_unseats_what_it_reaches(here, roots, slot);
    if other != id && cell.readers.contains_key(id) {
        assert(cell.readers[other].slot != cell.readers[id].slot);
    }
}

/// A disconnect that changes something clears the subscriber's reader, which is gone with an
/// ephemeral subscriber. No other reader moves.
pub proof fn disconnecting_clears_one_reader<P, Id>(
    cell: TopicCellState<P, Id>,
    ledger: Ledger,
    id: Id,
    other: Id,
)
    requires
        cell.in_step(),
        cell.on(ledger),
        ledger.sound(),
        cell.readers.contains_key(other),
    ensures
        ({
            let (after, later, changed) = cell.disconnected(ledger, id);
            let record = cell.core.subscriptions[id];
            let connected = cell.core.subscriptions.contains_key(id) && record.connected;
            let slot = cell.readers[other].slot;
            &&& changed <==> connected
            &&& !changed ==> after == cell && later == ledger
            &&& changed ==> after.core == cell.core.disconnected(id).0
            &&& after.readers.contains_key(other) <==> !(changed && other == id
                && record.durability is Ephemeral)
            &&& after.readers.contains_key(other) ==> after.readers[other] == cell.readers[other]
            &&& later.stands(slot) <==> ledger.stands(slot) && !(changed && other == id)
        }),
{
    let slot = cell.readers[other].slot;
    let roots = reader_roots(cell.readers, seq![id]);
    roots_name_their_subscribers(cell, ledger, seq![id], other);
    a_leaf_falls_as_a_root(ledger, roots, slot);
    assert(seq![id].contains(other) <==> other == id) by {
        assert(seq![id][0] == id);
    }
}

/// A published element clears exactly the readers of connected subscribers.
pub proof fn publishing_clears_the_connected<P, Id>(
    cell: TopicCellState<P, Id>,
    ledger: Ledger,
    value: P,
    other: Id,
)
    requires
        cell.core.wf(),
        cell.in_step(),
        cell.on(ledger),
        ledger.sound(),
        cell.readers.contains_key(other),
    ensures
        ({
            let (after, later) = cell.published(ledger, value);
            let slot = cell.readers[other].slot;
            &&& after.core == cell.core.published(value)
            &&& after.readers == cell.readers
            &&& later.stands(slot) <==> ledger.stands(slot)
                && !cell.core.subscriptions[other].connected
        }),
{
    let slot = cell.readers[other].slot;
    let ids = cell.core.listening(cell.core.end());
    let roots = reader_roots(cell.readers, ids);
    roots_name_their_subscribers(cell, ledger, ids, other);
    a_leaf_falls_as_a_root(ledger, roots, slot);
    assert(cell.readers.contains_key(other) <==> cell.core.subscriptions.contains_key(other));
    assert(cell.core.ids.contains(other));
    let listens = |id: Id|
        cell.core.subscriptions[id].connected && cell.core.subscriptions[id].cursor
            <= cell.core.end();
    filter_keeps_what_matches(cell.core.ids, listens);
    let at = cell.core.ids.index_of(other);
    assert(cell.core.ids[at] == other);
    if ids.contains(other) {
        let place = ids.index_of(other);
        assert(ids[place] == other);
        assert(listens(ids[place]));
    }
}

/// An advance that passes an element clears the subscriber's own reader, and any other
/// advance clears nothing.
pub proof fn advancing_clears_one_reader<P, Id>(
    cell: TopicCellState<P, Id>,
    ledger: Ledger,
    id: Id,
    other: Id,
)
    requires
        cell.in_step(),
        cell.on(ledger),
        ledger.sound(),
        cell.readers.contains_key(other),
    ensures
        ({
            let (after, later, passed) = cell.advanced(ledger, id);
            let slot = cell.readers[other].slot;
            &&& after.core == cell.core.advanced(id).0
            &&& after.readers == cell.readers
            &&& passed == cell.core.advanced(id).1
            &&& passed is None ==> later == ledger
            &&& later.stands(slot) <==> ledger.stands(slot) && !(passed is Some && other == id)
        }),
{
    let slot = cell.readers[other].slot;
    let roots = reader_roots(cell.readers, seq![id]);
    roots_name_their_subscribers(cell, ledger, seq![id], other);
    a_leaf_falls_as_a_root(ledger, roots, slot);
    assert(seq![id].contains(other) <==> other == id) by {
        assert(seq![id][0] == id);
    }
}

/// A read shows what is kept while the reader's slot is clean and the unread suffix
/// otherwise, keeps what it showed, and moves no other reader. Without a reader it shows
/// nothing.
pub proof fn streaming_keeps_what_it_showed<P, Id>(
    cell: TopicCellState<P, Id>,
    ledger: Ledger,
    id: Id,
)
    requires
        cell.on(ledger),
    ensures
        ({
            let (after, later, shown) = cell.streamed(ledger, id);
            let known = cell.readers.contains_key(id);
            let reader = cell.readers[id];
            let kept = ledger.clean(reader.slot) && reader.cached is Some;
            &&& after.core == cell.core
            &&& !known ==> after == cell && later == ledger && shown.len() == 0
            &&& known ==> {
                &&& kept ==> reader.cached == Some(shown)
                &&& !kept ==> shown == cell.core.suffix(id)
                &&& after.readers.contains_key(id)
                &&& after.readers[id].slot == reader.slot
                &&& after.readers[id].cached == Some(shown)
                &&& later.clean(reader.slot)
                &&& forall|slot: SlotId|
                    slot != reader.slot && #[trigger] ledger.has(slot) ==> later.clean(slot)
                        == ledger.clean(slot)
            }
            &&& forall|other: Id|
                other != id && #[trigger] cell.readers.contains_key(other)
                    ==> after.readers.contains_key(other) && after.readers[other]
                    == cell.readers[other]
        }),
{
    if cell.readers.contains_key(id) {
        assert(ledger.leaf(cell.readers[id].slot));
    }
}

/// Restoring gives each of some subscribers a reader on a slot of its own that has computed
/// nothing yet.
pub proof fn restoring_gives_every_subscriber_a_reader<P, Id>(
    core: TopicState<P, Id>,
    ledger: Ledger,
    ids: Seq<Id>,
)
    requires
        ids.no_duplicates(),
        ledger.slots.len() + ids.len() <= usize::MAX,
    ensures
        ({
            let cell = TopicCellState { core, readers: Map::empty() };
            let (after, later) = cell.with_all(ledger, ids);
            &&& after.core == core
            &&& later.slots.len() == ledger.slots.len() + ids.len()
            &&& forall|id: Id| #[trigger] after.readers.contains_key(id) <==> ids.contains(id)
            &&& forall|i: int|
                0 <= i < ids.len() ==> {
                    &&& after.readers[#[trigger] ids[i]].slot.index == ledger.slots.len() + i
                    &&& after.readers[ids[i]].cached is None
                }
        }),
    decreases ids.len(),
{
    if ids.len() > 0 {
        let fewer = ids.drop_last();
        let cell = TopicCellState { core, readers: Map::<Id, _>::empty() };
        restoring_gives_every_subscriber_a_reader(core, ledger, fewer);
        let (before, here) = cell.with_all(ledger, fewer);
        let after = cell.with_all(ledger, ids).0;
        let last = ids.len() - 1;
        assert(!fewer.contains(ids.last())) by {
            if fewer.contains(ids.last()) {
                let at = fewer.index_of(ids.last());
                assert(ids[at] == ids[last]);
            }
        }
        assert(!before.readers.contains_key(ids.last()));
        assert forall|id: Id| #[trigger] after.readers.contains_key(id) <==> ids.contains(id) by {
            if ids.contains(id) && id != ids.last() {
                let at = ids.index_of(id);
                assert(fewer[at] == id);
            }
            if fewer.contains(id) {
                let at = fewer.index_of(id);
                assert(ids[at] == id);
            }
            assert(ids[last] == ids.last());
        }
        assert forall|i: int| 0 <= i < ids.len() implies {
            &&& after.readers[#[trigger] ids[i]].slot.index == ledger.slots.len() + i
            &&& after.readers[ids[i]].cached is None
        } by {
            if i < last {
                assert(fewer[i] == ids[i]);
                assert(ids[i] != ids[last]);
            }
        }
    }
}

} // verus!
