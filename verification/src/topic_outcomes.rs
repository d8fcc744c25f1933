//! Laws of the broadcast log's operations: what each gives, when, and what it leaves.

use vstd::prelude::*;

use crate::filtering::agreeing_filters;
use crate::queue::{TopicDurability, TopicSubscriptionSnapshot};
use crate::topic_core::{TopicState, frontier_bounds, frontier_of};

verus! {

/// A new topic holds nothing, knows no one and starts at absolute offset zero.
pub proof fn a_new_topic_is_empty<P, Id>()
    ensures
        TopicState::<P, Id>::initial().base_offset == 0,
        TopicState::<P, Id>::initial().elements.len() == 0,
        TopicState::<P, Id>::initial().ids.len() == 0,
        TopicState::<P, Id>::initial().subscriptions
            == Map::<Id, TopicSubscriptionSnapshot>::empty(),
{
}

/// A subscriber that is not known starts connected at the tail, behind the others, with the
/// durability it asked for. One that is known keeps its cursor and its durability and is
/// connected; only one that comes back must be read anew. Nothing else moves.
pub proof fn a_subscriber_starts_at_the_tail_or_where_it_was<P, Id>(
    state: TopicState<P, Id>,
    id: Id,
    durability: TopicDurability,
)
    requires
        state.wf(),
    ensures
        ({
            let (after, outcome, clears) = state.subscribed(id, durability);
            let known = state.subscriptions.contains_key(id);
            &&& outcome is Created <==> !known
            &&& outcome is Reconnected <==> known && !state.subscriptions[id].connected
            &&& outcome is AlreadyConnected <==> known && state.subscriptions[id].connected
            &&& clears <==> outcome is Reconnected
            &&& after.base_offset == state.base_offset
            &&& after.elements == state.elements
            &&& after.ids == if known {
                state.ids
            } else {
                state.ids.push(id)
            }
            &&& after.subscriptions.contains_key(id)
            &&& after.subscriptions[id].connected
            &&& !known ==> after.subscriptions[id].cursor == state.base_offset
                + state.elements.len() && after.subscriptions[id].durability == durability
            &&& known ==> after.subscriptions[id].cursor == state.subscriptions[id].cursor
                && after.subscriptions[id].durability == state.subscriptions[id].durability
            &&& forall|other: Id|
                other != id ==> (#[trigger] after.subscriptions.contains_key(other)
                    <==> state.subscriptions.contains_key(other))
            &&& forall|other: Id|
                other != id && #[trigger] state.subscriptions.contains_key(other)
                    ==> after.subscriptions[other] == state.subscriptions[other]
        }),
{
}

/// A disconnect changes something exactly for a connected subscriber. A durable one stays
/// known, offline at its cursor; an ephemeral one is gone. Nothing else moves.
pub proof fn a_disconnect_ends_ephemeral_subscribers<P, Id>(state: TopicState<P, Id>, id: Id)
    requires
        state.wf(),
    ensures
        ({
            let (after, gone) = state.disconnected(id);
            let record = state.subscriptions[id];
            let connected = state.subscriptions.contains_key(id) && record.connected;
            &&& gone is Some <==> connected
            &&& !connected ==> after == state
            &&& connected ==> gone == Some(record.durability is Ephemeral)
            &&& after.base_offset == state.base_offset
            &&& after.elements == state.elements
            &&& connected && record.durability is Ephemeral ==> {
                &&& !after.subscriptions.contains_key(id)
                &&& after.ids.len() + 1 == state.ids.len()
                &&& exists|at: int|
                    0 <= at < state.ids.len() && #[trigger] state.ids[at] == id && after.ids
                        == state.ids.take(at) + state.ids.skip(at + 1)
            }
            &&& connected && record.durability is Durable ==> {
                &&& after.ids == state.ids
                &&& after.subscriptions.contains_key(id)
                &&& !after.subscriptions[id].connected
                &&& after.subscriptions[id].cursor == record.cursor
                &&& after.subscriptions[id].durability is Durable
            }
            &&& forall|other: Id|
                other != id ==> (#[trigger] after.subscriptions.contains_key(other)
                    <==> state.subscriptions.contains_key(other))
            &&& forall|other: Id|
                other != id && #[trigger] state.subscriptions.contains_key(other)
                    ==> after.subscriptions[other] == state.subscriptions[other]
        }),
{
    let (after, gone) = state.disconnected(id);
    let record = state.subscriptions[id];
    if state.subscriptions.contains_key(id) && record.connected {
        assert(state.ids.contains(id));
        let at = state.ids.index_of(id);
        assert(state.ids[at] == id);
        if record.durability is Ephemeral {
            assert(after.ids =~= state.ids.take(at) + state.ids.skip(at + 1));
        }
    }
}

/// A published element comes behind the others and moves nothing else. It concerns exactly
/// the connected subscribers, in their order.
pub proof fn a_published_element_concerns_the_connected<P, Id>(
    state: TopicState<P, Id>,
    value: P,
)
    requires
        state.wf(),
    ensures
        state.published(value).elements == state.elements.push(value),
        state.published(value).base_offset == state.base_offset,
        state.published(value).ids == state.ids,
        state.published(value).subscriptions == state.subscriptions,
        state.listening(state.end()) == state.ids.filter(
            |id: Id| state.subscriptions[id].connected,
        ),
        state.end() == state.base_offset + state.elements.len(),
{
    let listens = |id: Id|
        state.subscriptions[id].connected && state.subscriptions[id].cursor <= state.end();
    let connected = |id: Id| state.subscriptions[id].connected;
    assert forall|i: int| 0 <= i < state.ids.len() implies listens(#[trigger] state.ids[i])
        == connected(state.ids[i]) by {
        assert(state.ids.contains(state.ids[i]));
        assert(state.subscriptions.contains_key(state.ids[i]));
    }
    agreeing_filters(state.ids, listens, connected);
}

/// A connected subscriber that is not at the tail passes exactly the element at its cursor,
/// or the first retained one where its cursor has fallen behind; its cursor moves by one, and
/// nothing else moves. Any other advance does nothing.
pub proof fn an_advance_passes_the_element_at_the_cursor<P, Id>(
    state: TopicState<P, Id>,
    id: Id,
)
    requires
        state.wf(),
    ensures
        ({
            let (after, passed) = state.advanced(id);
            let record = state.subscriptions[id];
            let reads = state.subscriptions.contains_key(id) && record.connected
                && state.elements.len() > 0 && record.cursor < state.base_offset
                + state.elements.len();
            &&& passed is Some <==> reads
            &&& !reads ==> after == state
            &&& reads ==> {
                &&& state.base_offset <= record.cursor ==> passed == Some(
                    state.elements[record.cursor - state.base_offset],
                )
                &&& record.cursor < state.base_offset ==> passed == Some(state.elements[0])
                &&& after.subscriptions[id].cursor == record.cursor + 1
                &&& after.subscriptions[id].durability == record.durability
                &&& after.subscriptions[id].connected
            }
            &&& after.base_offset == state.base_offset
            &&& after.elements == state.elements
            &&& after.ids == state.ids
            &&& forall|other: Id| #[trigger]
                after.subscriptions.contains_key(other) <==> state.subscriptions.contains_key(other)
            &&& forall|other: Id|
                other != id && #[trigger] state.subscriptions.contains_key(other)
                    ==> after.subscriptions[other] == state.subscriptions[other]
        }),
{
    if state.subscriptions.contains_key(id) {
        assert(state.ids.contains(id));
    }
}

/// The frontier of some subscribers is the end, or the cursor of a durable one of them.
proof fn the_frontier_is_someones<Id>(
    ids: Seq<Id>,
    subscriptions: Map<Id, TopicSubscriptionSnapshot>,
    end: int,
)
    ensures
        ({
            let frontier = frontier_of(ids, subscriptions, end);
            frontier == end || exists|i: int|
                0 <= i < ids.len() && subscriptions[#[trigger] ids[i]].durability is Durable
                    && subscriptions[ids[i]].cursor == frontier
        }),
    decreases ids.len(),
{
    if ids.len() > 0 {
        let fewer = ids.drop_last();
        the_frontier_is_someones(fewer, subscriptions, end);
        let frontier = frontier_of(fewer, subscriptions, end);
        assert(ids[ids.len() - 1] == ids.last());
        if frontier != end {
            let i = choose|i: int|
                0 <= i < fewer.len() && subscriptions[#[trigger] fewer[i]].durability is Durable
                    && subscriptions[fewer[i]].cursor == frontier;
            assert(ids[i] == fewer[i]);
        }
    }
}

/// A collection drops everything below the lowest durable cursor, or everything where there
/// is no durable subscriber, and moves nothing else.
pub proof fn a_collection_drops_what_every_durable_reader_passed<P, Id>(
    state: TopicState<P, Id>,
)
    requires
        state.wf(),
    ensures
        ({
            let after = state.collected();
            let base = after.base_offset;
            let gone = base - state.base_offset;
            &&& base == state.frontier()
            &&& 0 <= gone <= state.elements.len()
            &&& forall|id: Id| #[trigger]
                state.subscriptions.contains_key(id) && state.subscriptions[id].durability
                    is Durable ==> base <= state.subscriptions[id].cursor
            &&& base == state.base_offset + state.elements.len() || exists|id: Id| #[trigger]
                state.subscriptions.contains_key(id) && state.subscriptions[id].durability
                    is Durable && state.subscriptions[id].cursor == base
            &&& after.elements.len() == state.elements.len() - gone
            &&& forall|i: int|
                0 <= i < after.elements.len() ==> #[trigger] after.elements[i] == state.elements[i
                    + gone]
            &&& after.ids == state.ids
            &&& after.subscriptions == state.subscriptions
        }),
{
    assert forall|i: int| 0 <= i < state.ids.len() implies state.subscriptions.contains_key(
        #[trigger] state.ids[i],
    ) by {
        assert(state.ids.contains(state.ids[i]));
    }
    frontier_bounds(state, state.ids);
    the_frontier_is_someones(state.ids, state.subscriptions, state.end());
    assert forall|id: Id| #[trigger] state.subscriptions.contains_key(id)
        && state.subscriptions[id].durability is Durable implies state.frontier()
        <= state.subscriptions[id].cursor by {
        assert(state.ids.contains(id));
        let at = state.ids.index_of(id);
        assert(state.ids[at] == id);
    }
    if state.frontier() != state.end() {
        let i = choose|i: int|
            0 <= i < state.ids.len() && state.subscriptions[#[trigger] state.ids[i]].durability
                is Durable && state.subscriptions[state.ids[i]].cursor == state.frontier();
        assert(state.subscriptions.contains_key(state.ids[i]));
    }
}

/// A connected subscriber reads everything from its cursor on that is still retained; any
/// other reads nothing.
pub proof fn a_suffix_starts_at_the_cursor<P, Id>(state: TopicState<P, Id>, id: Id)
    requires
        state.wf(),
    ensures
        ({
            let suffix = state.suffix(id);
            let record = state.subscriptions[id];
            let reads = state.subscriptions.contains_key(id) && record.connected;
            let from = if record.cursor < state.base_offset {
                state.base_offset as int
            } else {
                record.cursor as int
            };
            &&& !reads ==> suffix.len() == 0
            &&& reads ==> {
                &&& suffix.len() == state.base_offset + state.elements.len() - from
                &&& forall|i: int|
                    0 <= i < suffix.len() ==> #[trigger] suffix[i] == state.elements[from
                        - state.base_offset + i]
            }
        }),
{
}

} // verus!
