//! Laws of the work queue: what relates its transitions to each other.

use vstd::prelude::*;

use crate::filtering::{filter_keeps_what_matches, filtered_stays_distinct};
use crate::work_queue_core::{
    Counts, Transition, WorkQueueDeadLetterReason, WorkState, failing_keeps_order,
};
use crate::sorted::{in_order, in_order_exists};

verus! {

/// Whether an item is in the queue's care: pending, leased or dead.
pub open spec fn in_care<P, W>(state: WorkState<P, W>, item: u64) -> bool {
    ||| waits(state, item)
    ||| leased(state, item)
    ||| dead(state, item)
}

/// Whether an item is pending.
pub open spec fn waits<P, W>(state: WorkState<P, W>, item: u64) -> bool {
    exists|i: int| 0 <= i < state.pending.len() && (#[trigger] state.pending[i]).item_id == item
}

/// Whether an item is leased.
pub open spec fn leased<P, W>(state: WorkState<P, W>, item: u64) -> bool {
    exists|id: u64| #[trigger]
        state.in_flight.contains_key(id) && state.in_flight[id].item_id == item
}

/// Whether an item is a dead letter.
pub open spec fn dead<P, W>(state: WorkState<P, W>, item: u64) -> bool {
    exists|i: int|
        0 <= i < state.dead_letters.len() && (#[trigger] state.dead_letters[i]).item_id == item
}

/// Delivery is exclusive: an item is in one place only, and leased to one worker
/// only.
pub proof fn delivery_is_exclusive<P, W>(state: WorkState<P, W>, item: u64, a: u64, b: u64)
    requires
        state.wf(),
    ensures
        !(waits(state, item) && leased(state, item)),
        !(waits(state, item) && dead(state, item)),
        !(leased(state, item) && dead(state, item)),
        state.in_flight.contains_key(a) && state.in_flight.contains_key(b)
            && state.in_flight[a].item_id == state.in_flight[b].item_id ==> a == b,
{
}

/// A claim moves the oldest item from pending to leased and nothing else.
pub proof fn claiming_keeps_items<P, W>(state: WorkState<P, W>, worker: W, now: u64, item: u64)
    requires
        state.wf(),
        state.pending.len() > 0,
        state.next_delivery_id < u64::MAX,
    ensures
        in_care(state.claimed(worker, now), item) == in_care(state, item),
        leased(state.claimed(worker, now), state.pending[0].item_id),
        !waits(state.claimed(worker, now), state.pending[0].item_id),
{
    let after = state.claimed(worker, now);
    let fresh = state.next_delivery_id;
    assert(after.in_flight.contains_key(fresh));
    assert forall|i: int| 0 <= i < after.pending.len() implies #[trigger] after.pending[i]
        == state.pending[i + 1] by {}
    if waits(state, item) {
        let at = choose|i: int|
            0 <= i < state.pending.len() && (#[trigger] state.pending[i]).item_id == item;
        if at > 0 {
            assert(after.pending[at - 1] == state.pending[at]);
        } else {
            assert(after.in_flight[fresh].item_id == item);
        }
    }
    if leased(state, item) {
        let id = choose|id: u64| #[trigger]
            state.in_flight.contains_key(id) && state.in_flight[id].item_id == item;
        assert(after.in_flight.contains_key(id));
    }
    if waits(after, item) {
        let at = choose|i: int|
            0 <= i < after.pending.len() && (#[trigger] after.pending[i]).item_id == item;
        assert(state.pending[at + 1].item_id == item);
    }
    if leased(after, item) {
        let id = choose|id: u64| #[trigger]
            after.in_flight.contains_key(id) && after.in_flight[id].item_id == item;
        if id == fresh {
            assert(state.pending[0].item_id == item);
        } else {
            assert(state.in_flight.contains_key(id));
        }
    }
}

/// A failure keeps every item: the failed one goes back to the tail or to the dead
/// letters.
pub proof fn failing_keeps_items<P, W>(
    state: WorkState<P, W>,
    delivery_id: u64,
    reason: WorkQueueDeadLetterReason,
    item: u64,
)
    requires
        state.wf(),
        state.in_flight.contains_key(delivery_id),
    ensures
        in_care(state.failed(delivery_id, reason), item) == in_care(state, item),
        !leased(state.failed(delivery_id, reason), state.in_flight[delivery_id].item_id),
        state.in_flight[delivery_id].attempt < state.max_deliveries ==> waits(
            state.failed(delivery_id, reason),
            state.in_flight[delivery_id].item_id,
        ),
        state.in_flight[delivery_id].attempt == state.max_deliveries ==> dead(
            state.failed(delivery_id, reason),
            state.in_flight[delivery_id].item_id,
        ),
{
    let after = state.failed(delivery_id, reason);
    let delivery = state.in_flight[delivery_id];
    if delivery.attempt < state.max_deliveries {
        assert(after.pending[state.pending.len() as int].item_id == delivery.item_id);
    } else {
        assert(after.dead_letters[state.dead_letters.len() as int].item_id == delivery.item_id);
    }
    if waits(state, item) {
        let at = choose|i: int|
            0 <= i < state.pending.len() && (#[trigger] state.pending[i]).item_id == item;
        assert(after.pending[at] == state.pending[at]);
    }
    if dead(state, item) {
        let at = choose|i: int|
            0 <= i < state.dead_letters.len() && (#[trigger] state.dead_letters[i]).item_id
                == item;
        assert(after.dead_letters[at] == state.dead_letters[at]);
    }
    if leased(state, item) {
        let id = choose|id: u64| #[trigger]
            state.in_flight.contains_key(id) && state.in_flight[id].item_id == item;
        if id != delivery_id {
            assert(after.in_flight.contains_key(id));
        }
    }
    if leased(after, item) {
        let id = choose|id: u64| #[trigger]
            after.in_flight.contains_key(id) && after.in_flight[id].item_id == item;
        assert(state.in_flight.contains_key(id));
    }
    if waits(after, item) {
        let at = choose|i: int|
            0 <= i < after.pending.len() && (#[trigger] after.pending[i]).item_id == item;
        if at < state.pending.len() {
            assert(after.pending[at] == state.pending[at]);
        }
    }
    if dead(after, item) {
        let at = choose|i: int|
            0 <= i < after.dead_letters.len() && (#[trigger] after.dead_letters[i]).item_id
                == item;
        if at < state.dead_letters.len() {
            assert(after.dead_letters[at] == state.dead_letters[at]);
        }
    }
}

/// Reaping keeps every item.
pub proof fn reaping_keeps_items<P, W>(state: WorkState<P, W>, ids: Seq<u64>, item: u64)
    requires
        state.wf(),
        ids.no_duplicates(),
        forall|i: int| 0 <= i < ids.len() ==> state.in_flight.contains_key(#[trigger] ids[i]),
    ensures
        state.reaped(ids).wf(),
        in_care(state.reaped(ids), item) == in_care(state, item),
        forall|id: u64| #[trigger]
            state.reaped(ids).in_flight.contains_key(id) <==> state.in_flight.contains_key(id)
                && !ids.contains(id),
    decreases ids.len(),
{
    if ids.len() > 0 {
        let fewer = ids.drop_last();
        let last = ids.last();
        assert(ids[ids.len() - 1] == last);
        assert forall|i: int| 0 <= i < fewer.len() implies state.in_flight.contains_key(
            #[trigger] fewer[i],
        ) by {
            assert(fewer[i] == ids[i]);
        }
        assert forall|i: int, j: int| 0 <= i < fewer.len() && 0 <= j < fewer.len() && i
            != j implies fewer[i] != fewer[j] by {
            assert(fewer[i] == ids[i] && fewer[j] == ids[j]);
        }
        reaping_keeps_items(state, fewer, item);
        let before = state.reaped(fewer);
        assert(!fewer.contains(last)) by {
            if fewer.contains(last) {
                let at = fewer.index_of(last);
                assert(fewer[at] == last && ids[at] == last);
            }
        }
        assert(before.in_flight.contains_key(last));
        failing_keeps_order(before, last, WorkQueueDeadLetterReason::Expired);
        failing_keeps_items(before, last, WorkQueueDeadLetterReason::Expired, item);
        assert forall|id: u64| #[trigger]
            state.reaped(ids).in_flight.contains_key(id) <==> state.in_flight.contains_key(id)
                && !ids.contains(id) by {
            if ids.contains(id) && id != last {
                let at = ids.index_of(id);
                assert(ids[at] == id && fewer[at] == id);
            }
            if fewer.contains(id) {
                let at = fewer.index_of(id);
                assert(fewer[at] == id && ids[at] == id);
            }
        }
    }
}

/// After a reap no lease that ended before `now` is live, every other one still is,
/// and no item is lost.
pub proof fn reaping_ends_exactly_what_expired<P, W>(
    state: WorkState<P, W>,
    now: u64,
    id: u64,
    item: u64,
)
    requires
        state.wf(),
    ensures
        state.reaped(state.expired(now)).in_flight.contains_key(id) <==> (
        state.in_flight.contains_key(id) && state.in_flight[id].deadline >= now),
        in_care(state.reaped(state.expired(now)), item) == in_care(state, item),
{
    let order = in_order::<u64>(state.in_flight.dom());
    let over = |id: u64| state.in_flight[id].deadline < now;
    in_order_exists::<u64>(state.in_flight.dom());
    assert(order.no_duplicates()) by {
        assert forall|i: int, j: int| 0 <= i < order.len() && 0 <= j < order.len() && i
            != j implies order[i] != order[j] by {
            crate::value::lex_less_irreflexive(
                <u64 as crate::value::OrderedKey>::code(order[i]),
            );
        }
    }
    let ids = state.expired(now);
    filtered_stays_distinct(order, over);
    filter_keeps_what_matches(order, over);
    assert forall|i: int| 0 <= i < ids.len() implies state.in_flight.contains_key(
        #[trigger] ids[i],
    ) by {
        assert(order.contains(ids[i]));
        assert(order.to_set().contains(ids[i]));
    }
    reaping_keeps_items(state, ids, item);
    if state.in_flight.contains_key(id) {
        assert(order.to_set().contains(id));
        assert(order.contains(id));
        let at = order.index_of(id);
        assert(order[at] == id);
        if over(id) {
            assert(ids.contains(order[at]));
        }
        if ids.contains(id) {
            let place = ids.index_of(id);
            assert(over(ids[place]));
        }
    }
}

/// An acknowledgement takes exactly its item out of the queue's care.
pub proof fn settling_releases_its_item<P, W>(state: WorkState<P, W>, delivery_id: u64, item: u64)
    requires
        state.wf(),
        state.in_flight.contains_key(delivery_id),
    ensures
        in_care(state.settled(delivery_id), item) <==> in_care(state, item) && item
            != state.in_flight[delivery_id].item_id,
{
    let after = state.settled(delivery_id);
    if leased(state, item) {
        let id = choose|id: u64| #[trigger]
            state.in_flight.contains_key(id) && state.in_flight[id].item_id == item;
        if id != delivery_id {
            assert(after.in_flight.contains_key(id));
        }
    }
    if leased(after, item) {
        let id = choose|id: u64| #[trigger]
            after.in_flight.contains_key(id) && after.in_flight[id].item_id == item;
        assert(state.in_flight.contains_key(id));
    }
    assert(after.pending == state.pending);
    assert(after.dead_letters == state.dead_letters);
    assert(waits(after, item) == waits(state, item));
    assert(dead(after, item) == dead(state, item));
}

/// A retired lease stays retired: a redelivered item cannot be settled with a stale
/// delivery id.
pub proof fn stale_leases_settle_nothing<P, W>(
    state: WorkState<P, W>,
    stale: u64,
    worker: W,
    now: u64,
    other: u64,
    reason: WorkQueueDeadLetterReason,
    value: P,
)
    requires
        state.wf(),
        stale < state.next_delivery_id,
        !state.in_flight.contains_key(stale),
        state.next_delivery_id < u64::MAX,
        state.in_flight.contains_key(other),
    ensures
        !state.held_by(worker, stale),
        !state.claimed(worker, now).in_flight.contains_key(stale),
        !state.failed(other, reason).in_flight.contains_key(stale),
        !state.settled(other).in_flight.contains_key(stale),
        !state.pushed(value).in_flight.contains_key(stale),
        stale < state.claimed(worker, now).next_delivery_id,
{
}

/// A reader kind is marked exactly when what it projects moved.
pub proof fn marks_are_exact(before: Counts, after: Counts)
    ensures
        ({
            let change = (Transition { before, after }).moved();
            &&& change.pending_len <==> before.pending != after.pending
            &&& change.is_empty <==> (before.pending == 0) != (after.pending == 0)
            &&& change.in_flight_len <==> before.in_flight != after.in_flight
            &&& change.dead_letter_len <==> before.dead_letters != after.dead_letters
        }),
{
}

} // verus!
