//! Laws of the topic cell: which readers an operation moves, and what reads show.

use vstd::prelude::*;

use crate::graph::{Ledger, a_leaf_falls_as_a_root, allocating_moves_none, with_root};
use crate::queue::TopicDurability;
use crate::topic_laws::{collecting_changes_no_safe_reader, publishing_reaches_every_listener};
use crate::topic_shell::{TopicCellState, reader_roots, roots_name_their_subscribers};

verus! {

/// Publishing leaves every reader fresh, and unseats exactly the readers of listeners.
pub proof fn publishing_keeps_readers_fresh<P, Id>(
    cell: TopicCellState<P, Id>,
    ledger: Ledger,
    value: P,
)
    requires
        cell.core.wf(),
        cell.core.end() < u64::MAX,
        cell.on(ledger),
        ledger.sound(),
        cell.is_fresh(ledger),
    ensures
        cell.published(ledger, value).0.is_fresh(cell.published(ledger, value).1),
        forall|id: Id| #[trigger]
            cell.readers.contains_key(id) ==> cell.published(ledger, value).1.stands(
                cell.readers[id].slot,
            ) == (ledger.stands(cell.readers[id].slot) && !cell.core.listening(
                cell.core.end(),
            ).contains(id)),
{
    let listeners = cell.core.listening(cell.core.end());
    let roots = reader_roots(cell.readers, listeners);
    assert forall|id: Id| #[trigger] cell.readers.contains_key(id) implies cell.readers[id].fresh(
        ledger.cleared(roots),
        cell.core.published(value).suffix(id),
    ) && ledger.cleared(roots).stands(cell.readers[id].slot) == (ledger.stands(
        cell.readers[id].slot,
    ) && !listeners.contains(id)) by {
        roots_name_their_subscribers(cell, ledger, listeners, id);
        publishing_reaches_every_listener(cell.core, value, id);
        a_leaf_falls_as_a_root(ledger, roots, cell.readers[id].slot);
    }
}

/// Advancing one subscriber never unseats another's reader, and leaves every reader
/// fresh.
pub proof fn advancing_keeps_readers_fresh<P, Id>(
    cell: TopicCellState<P, Id>,
    ledger: Ledger,
    id: Id,
)
    requires
        cell.core.wf(),
        cell.on(ledger),
        ledger.sound(),
        cell.is_fresh(ledger),
    ensures
        cell.advanced(ledger, id).0.is_fresh(cell.advanced(ledger, id).1),
        forall|other: Id| #[trigger]
            cell.readers.contains_key(other) && other != id ==> cell.advanced(ledger, id).1.stands(
                cell.readers[other].slot,
            ) == ledger.stands(cell.readers[other].slot),
{
    let roots = reader_roots(cell.readers, seq![id]);
    let after = cell.core.advanced(id).0;
    assert forall|other: Id| #[trigger] cell.readers.contains_key(
        other,
    ) && cell.core.advanced(id).1 is Some implies cell.readers[other].fresh(
        ledger.cleared(roots),
        after.suffix(other),
    ) && (other != id ==> ledger.cleared(roots).stands(cell.readers[other].slot)
        == ledger.stands(cell.readers[other].slot)) by {
        roots_name_their_subscribers(cell, ledger, seq![id], other);
        assert(seq![id].contains(other) ==> other == id);
        if other == id {
            assert(seq![id][0] == id);
            assert(seq![id].contains(id));
        }
        a_leaf_falls_as_a_root(ledger, roots, cell.readers[other].slot);
    }
}

/// Disconnecting leaves every reader fresh.
pub proof fn disconnecting_keeps_readers_fresh<P, Id>(
    cell: TopicCellState<P, Id>,
    ledger: Ledger,
    id: Id,
)
    requires
        cell.core.wf(),
        cell.on(ledger),
        ledger.sound(),
        cell.is_fresh(ledger),
    ensures
        cell.disconnected(ledger, id).0.is_fresh(cell.disconnected(ledger, id).1),
{
    let roots = reader_roots(cell.readers, seq![id]);
    let (after, cleared, changed) = cell.disconnected(ledger, id);
    assert forall|other: Id| #[trigger]
        after.readers.contains_key(other) && changed implies after.readers[other].fresh(
        cleared,
        after.core.suffix(other),
    ) by {
        assert(cell.readers.contains_key(other));
        roots_name_their_subscribers(cell, ledger, seq![id], other);
        assert(seq![id].contains(other) ==> other == id);
        if other == id {
            assert(seq![id][0] == id);
            assert(seq![id].contains(id));
        }
        a_leaf_falls_as_a_root(ledger, roots, cell.readers[other].slot);
    }
}

/// Subscribing leaves every reader fresh.
pub proof fn subscribing_keeps_readers_fresh<P, Id>(
    cell: TopicCellState<P, Id>,
    ledger: Ledger,
    id: Id,
    durability: TopicDurability,
)
    requires
        cell.core.wf(),
        cell.in_step(),
        cell.on(ledger),
        ledger.sound(),
        ledger.slots.len() < usize::MAX,
        cell.is_fresh(ledger),
    ensures
        cell.subscribed(ledger, id, durability).0.is_fresh(
            cell.subscribed(ledger, id, durability).1,
        ),
{
    let (core, outcome, clears) = cell.core.subscribed(id, durability);
    let (minted, here) = cell.over(core).with_reader(ledger, id);
    let roots = with_root(Set::<int>::empty(), clears, minted.readers[id].slot);
    let after = here.cleared(roots);
    assert(cell.readers.contains_key(id) <==> cell.core.subscriptions.contains_key(id));
    assert forall|other: Id| #[trigger] minted.readers.contains_key(other) implies minted.readers[other].fresh(
        after,
        core.suffix(other),
    ) by {
        if cell.readers.contains_key(other) {
            let slot = cell.readers[other].slot;
            if !cell.readers.contains_key(id) {
                allocating_moves_none(ledger, Seq::empty(), slot);
            }
            a_leaf_falls_as_a_root(here, roots, slot);
            if other != id {
                if cell.readers.contains_key(id) {
                    assert(cell.readers[other].slot != cell.readers[id].slot);
                }
                assert(core.suffix(other) == cell.core.suffix(other));
            }
        }
    }
}

/// Collecting unseats no reader, and leaves fresh every reader of a subscriber that is
/// durable or not behind the frontier.
pub proof fn collecting_keeps_safe_readers_fresh<P, Id>(
    cell: TopicCellState<P, Id>,
    ledger: Ledger,
    id: Id,
)
    requires
        cell.core.wf(),
        cell.readers.contains_key(id),
        cell.core.subscriptions.contains_key(id),
        cell.core.subscriptions[id].durability is Durable || cell.core.frontier()
            <= cell.core.subscriptions[id].cursor,
        cell.is_fresh(ledger),
    ensures
        cell.readers[id].fresh(ledger, cell.core.collected().suffix(id)),
{
    collecting_changes_no_safe_reader(cell.core, id);
}

/// Outside a batch a fresh reader shows the subscriber's unread suffix, and every reader
/// stays fresh.
pub proof fn streams_show_the_unread_suffix<P, Id>(
    cell: TopicCellState<P, Id>,
    ledger: Ledger,
    id: Id,
)
    requires
        cell.in_step(),
        cell.on(ledger),
        ledger.sound(),
        ledger.depth == 0,
        cell.is_fresh(ledger),
    ensures
        cell.streamed(ledger, id).2 == cell.core.suffix(id),
        cell.streamed(ledger, id).0.is_fresh(cell.streamed(ledger, id).1),
{
    assert(cell.readers.contains_key(id) <==> cell.core.subscriptions.contains_key(id));
    if cell.readers.contains_key(id) {
        let reader = cell.readers[id];
        assert(ledger.leaf(reader.slot));
        reader.fresh_shows(ledger, cell.core.suffix(id));
        let after = cell.streamed(ledger, id).0;
        assert forall|other: Id| #[trigger] after.readers.contains_key(
            other,
        ) implies after.readers[other].fresh(ledger.settled(reader.slot), cell.core.suffix(other)) by {
            if other != id {
                assert(cell.readers.contains_key(other));
                assert(ledger.leaf(cell.readers[other].slot));
                assert(cell.readers[other].slot != reader.slot);
                cell.readers[other].settling_keeps_fresh(
                    ledger,
                    reader.slot,
                    cell.core.suffix(other),
                );
            }
        }
    }
}

} // verus!
