//! Laws of the broadcast log: what relates its transitions to each other.

use vstd::prelude::*;

use crate::filtering::{filter_keeps_what_matches, filtered_stays_distinct};
use crate::queue::TopicDurability;
use crate::topic_core::{TopicState, frontier_bounds};

verus! {

/// Publishing extends the unread suffix of every connected subscriber by exactly
/// the element, moves no cursor, and leaves everyone else's suffix as it was.
pub proof fn publishing_reaches_every_listener<P, Id>(
    state: TopicState<P, Id>,
    value: P,
    id: Id,
)
    requires
        state.wf(),
        state.end() < u64::MAX,
    ensures
        ({
            let after = state.published(value);
            &&& after.subscriptions == state.subscriptions
            &&& state.listening(state.end()).contains(id) ==> after.suffix(id) == state.suffix(
                id,
            ).push(value)
            &&& !state.listening(state.end()).contains(id) ==> after.suffix(id) == state.suffix(id)
            &&& state.subscriptions.contains_key(id) && state.subscriptions[id].connected
                ==> state.listening(state.end()).contains(id)
        }),
{
    let after = state.published(value);
    let listens = |id: Id|
        state.subscriptions[id].connected && state.subscriptions[id].cursor <= state.end();
    filter_keeps_what_matches(state.ids, listens);
    if state.subscriptions.contains_key(id) && state.subscriptions[id].connected {
        assert(state.ids.contains(id));
        let at = state.ids.index_of(id);
        assert(state.ids[at] == id);
        assert(listens(state.ids[at]));
        assert(state.listening(state.end()).contains(id));
        let skip = state.passed(state.subscriptions[id].cursor);
        assert(after.elements.skip(skip) =~= state.elements.skip(skip).push(value));
    } else if state.listening(state.end()).contains(id) {
        let at = state.listening(state.end()).index_of(id);
        assert(state.listening(state.end())[at] == id);
        filtered_stays_distinct(state.ids, listens);
        assert(state.ids.contains(id));
        assert(state.subscriptions.contains_key(id));
    }
}

/// Advancing one subscriber takes the first element off its own suffix and moves
/// no one else's, while its cursor is within the retained log.
pub proof fn advancing_moves_one_cursor<P, Id>(state: TopicState<P, Id>, id: Id, other: Id)
    requires
        state.wf(),
        state.can_advance(id),
        state.base_offset <= state.subscriptions[id].cursor,
    ensures
        state.suffix(id).len() > 0,
        state.advanced(id).1 == Some(state.suffix(id)[0]),
        state.advanced(id).0.suffix(id) == state.suffix(id).skip(1),
        other != id ==> state.advanced(id).0.suffix(other) == state.suffix(other),
        state.advanced(id).0.elements == state.elements,
{
    let after = state.advanced(id).0;
    let skip = state.passed(state.subscriptions[id].cursor);
    assert(after.elements.skip(skip + 1) =~= state.elements.skip(skip).skip(1));
}

/// Collecting moves no cursor and not the end, and changes no suffix of a
/// subscriber at or past the frontier; every durable subscriber is one.
pub proof fn collecting_changes_no_safe_reader<P, Id>(state: TopicState<P, Id>, id: Id)
    requires
        state.wf(),
        state.subscriptions.contains_key(id),
        state.subscriptions[id].durability is Durable || state.frontier()
            <= state.subscriptions[id].cursor,
    ensures
        state.collected().suffix(id) == state.suffix(id),
        state.collected().subscriptions == state.subscriptions,
        state.collected().end() == state.end(),
        state.frontier() <= state.subscriptions[id].cursor,
{
    assert forall|i: int| 0 <= i < state.ids.len() implies state.subscriptions.contains_key(
        #[trigger] state.ids[i],
    ) by {
        assert(state.ids.contains(state.ids[i]));
    }
    frontier_bounds(state, state.ids);
    assert(state.ids.contains(id));
    let at = state.ids.index_of(id);
    assert(state.ids[at] == id);
    let cursor = state.subscriptions[id].cursor;
    let gone = state.frontier() - state.base_offset;
    assert(state.elements.skip(gone).skip(cursor - state.frontier()) =~= state.elements.skip(
        cursor - state.base_offset,
    ));
}

/// Collecting twice is collecting once.
pub proof fn collecting_is_idempotent<P, Id>(state: TopicState<P, Id>)
    requires
        state.wf(),
    ensures
        state.collected().collected() == state.collected(),
{
    assert forall|i: int| 0 <= i < state.ids.len() implies state.subscriptions.contains_key(
        #[trigger] state.ids[i],
    ) by {
        assert(state.ids.contains(state.ids[i]));
    }
    frontier_bounds(state, state.ids);
    let once = state.collected();
    assert(once.end() == state.end());
    assert(once.frontier() == state.frontier());
    assert(once.elements.skip(0) =~= once.elements);
}

/// A durable subscriber that disconnects and reconnects finds everything as it was:
/// the same cursor and the same suffix.
pub proof fn durable_cursors_survive_a_disconnect<P, Id>(
    state: TopicState<P, Id>,
    id: Id,
    durability: TopicDurability,
)
    requires
        state.wf(),
        state.subscriptions.contains_key(id),
        state.subscriptions[id].durability is Durable,
        state.subscriptions[id].connected,
    ensures
        ({
            let offline = state.disconnected(id).0;
            let (back, outcome, _) = offline.subscribed(id, durability);
            &&& offline.suffix(id).len() == 0
            &&& offline.subscriptions[id].cursor == state.subscriptions[id].cursor
            &&& outcome is Reconnected
            &&& back == state
        }),
{
    let offline = state.disconnected(id).0;
    let back = offline.subscribed(id, durability).0;
    assert(state.ids.contains(id));
    assert(back.subscriptions =~= state.subscriptions);
}

/// An ephemeral subscriber that disconnects is gone, and comes back as a new one at
/// the tail.
pub proof fn ephemeral_cursors_end_with_a_disconnect<P, Id>(
    state: TopicState<P, Id>,
    id: Id,
    durability: TopicDurability,
)
    requires
        state.wf(),
        state.subscriptions.contains_key(id),
        state.subscriptions[id].durability is Ephemeral,
    ensures
        ({
            let gone = state.disconnected(id).0;
            let (back, outcome, _) = gone.subscribed(id, durability);
            &&& !gone.subscriptions.contains_key(id)
            &&& outcome is Created
            &&& back.subscriptions[id].cursor == state.end()
            &&& back.suffix(id).len() == 0
        }),
{
}

/// A new subscriber starts at the tail, and from there on sees every element.
pub proof fn new_subscribers_see_what_follows<P, Id>(
    state: TopicState<P, Id>,
    id: Id,
    durability: TopicDurability,
    value: P,
)
    requires
        state.wf(),
        state.end() < u64::MAX,
        !state.subscriptions.contains_key(id),
    ensures
        ({
            let joined = state.subscribed(id, durability).0;
            &&& joined.suffix(id) == Seq::<P>::empty()
            &&& joined.published(value).suffix(id) == seq![value]
        }),
{
    let joined = state.subscribed(id, durability).0;
    assert(joined.suffix(id) =~= Seq::<P>::empty());
    assert(joined.published(value).suffix(id) =~= seq![value]);
}

/// A topic that can be rebuilt from its snapshot stays so under everything but a
/// collection: an empty topic is one, and subscribing, disconnecting, publishing and
/// advancing lead from such a topic to such a topic.
pub proof fn a_restorable_topic_stays_restorable<P, Id>(
    state: TopicState<P, Id>,
    id: Id,
    durability: TopicDurability,
    value: P,
)
    requires
        state.wf(),
        state.restorable(),
    ensures
        TopicState::<P, Id>::initial().restorable(),
        state.subscribed(id, durability).0.restorable(),
        state.disconnected(id).0.restorable(),
        state.published(value).restorable(),
        state.advanced(id).0.restorable(),
{
}

/// A collected topic can be rebuilt from its snapshot exactly where no ephemeral reader
/// lags behind the lowest durable cursor. Where one does, the prefix that it has yet to
/// read is gone, and what it reads next starts at the retained log.
pub proof fn a_collected_topic_is_restorable_where_no_reader_lags<P, Id>(state: TopicState<P, Id>)
    requires
        state.wf(),
    ensures
        state.collected().restorable() <==> forall|id: Id| #[trigger]
            state.subscriptions.contains_key(id) && state.subscriptions[id].durability
                is Ephemeral ==> state.frontier() <= state.subscriptions[id].cursor,
        forall|id: Id| #[trigger]
            state.subscriptions.contains_key(id) && state.subscriptions[id].cursor
                < state.frontier() ==> state.collected().suffix(id)
                == state.collected().elements,
{
    assert forall|i: int| 0 <= i < state.ids.len() implies state.subscriptions.contains_key(
        #[trigger] state.ids[i],
    ) by {
        assert(state.ids.contains(state.ids[i]));
    }
    frontier_bounds(state, state.ids);
    let after = state.collected();
    assert forall|id: Id| #[trigger] state.subscriptions.contains_key(id)
        && state.subscriptions[id].durability is Durable implies state.frontier()
        <= state.subscriptions[id].cursor by {
        assert(state.ids.contains(id));
        let at = state.ids.index_of(id);
        assert(state.ids[at] == id);
    }
    assert forall|id: Id| #[trigger] state.subscriptions.contains_key(id)
        && state.subscriptions[id].cursor < state.frontier() implies after.suffix(id)
        == after.elements by {
        assert(after.suffix(id) =~= after.elements);
    }
    if after.restorable() {
        assert forall|id: Id| #[trigger] state.subscriptions.contains_key(id)
            && state.subscriptions[id].durability is Ephemeral implies state.frontier()
            <= state.subscriptions[id].cursor by {
            assert(after.subscriptions.contains_key(id));
        }
    }
}

} // verus!
