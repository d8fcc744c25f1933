//! Laws of the work queue's leases: what a worker gets, for how long, and where an item goes
//! when its lease ends.

use vstd::prelude::*;

use crate::filtering::{filter_keeps_what_matches, kept_was_there};
use crate::sorted::{ascending, in_order, in_order_exists};
use crate::value::{OrderedKey, lex_less};
use crate::work_queue_core::{
    WorkQueueDeadLetter, WorkQueueDeadLetterReason, WorkQueueItem, WorkState,
};

verus! {

/// Numbers ascend as their codes do.
proof fn numbers_ascend(ids: Seq<u64>)
    requires
        ascending::<u64>(ids),
    ensures
        forall|i: int, j: int|
            0 <= i < j < ids.len() ==> (#[trigger] ids[i]) < (#[trigger] ids[j]),
        ids.no_duplicates(),
{
    assert forall|i: int, j: int| 0 <= i < j < ids.len() implies (#[trigger] ids[i]) < (
    #[trigger] ids[j]) by {
        let a = <u64 as OrderedKey>::code(ids[i]);
        let b = <u64 as OrderedKey>::code(ids[j]);
        assert(lex_less(a, b));
        reveal_with_fuel(lex_less, 2);
        assert(a[0] == ids[i] && b[0] == ids[j]);
    }
}

/// What is kept of ascending numbers ascends.
proof fn kept_numbers_ascend(ids: Seq<u64>, keep: spec_fn(u64) -> bool)
    requires
        forall|i: int, j: int|
            0 <= i < j < ids.len() ==> (#[trigger] ids[i]) < (#[trigger] ids[j]),
    ensures
        forall|i: int, j: int|
            0 <= i < j < ids.filter(keep).len() ==> (#[trigger] ids.filter(keep)[i]) < (
            #[trigger] ids.filter(keep)[j]),
    decreases ids.len(),
{
    reveal(Seq::filter);
    if ids.len() > 0 {
        let fewer = ids.drop_last();
        assert forall|i: int, j: int| 0 <= i < j < fewer.len() implies (#[trigger] fewer[i]) < (
        #[trigger] fewer[j]) by {
            assert(fewer[i] == ids[i] && fewer[j] == ids[j]);
        }
        kept_numbers_ascend(fewer, keep);
        let kept = fewer.filter(keep);
        assert forall|i: int, j: int| 0 <= i < j < ids.filter(keep).len() implies (
        #[trigger] ids.filter(keep)[i]) < (#[trigger] ids.filter(keep)[j]) by {
            if j == kept.len() {
                kept_was_there(fewer, keep, i);
                let at = fewer.index_of(kept[i]);
                assert(fewer[at] == kept[i] && ids[at] == kept[i]);
                assert(ids[ids.len() - 1] == ids.last());
            }
        }
    }
}

/// The leases that are over at an instant are exactly the live ones whose last instant is
/// before it, each once, in the order in which they were claimed.
pub proof fn what_is_over_is_what_ended_before<P, W>(state: WorkState<P, W>, now: u64)
    requires
        state.wf(),
    ensures
        forall|id: u64| #[trigger]
            state.expired(now).contains(id) <==> state.in_flight.contains_key(id)
                && state.in_flight[id].deadline < now,
        forall|i: int, j: int|
            0 <= i < j < state.expired(now).len() ==> (#[trigger] state.expired(now)[i]) < (
            #[trigger] state.expired(now)[j]),
{
    let order = in_order::<u64>(state.in_flight.dom());
    let over = |id: u64| state.in_flight[id].deadline < now;
    in_order_exists::<u64>(state.in_flight.dom());
    numbers_ascend(order);
    kept_numbers_ascend(order, over);
    filter_keeps_what_matches(order, over);
    let ids = state.expired(now);
    assert forall|id: u64| #[trigger] ids.contains(id) <==> state.in_flight.contains_key(id)
        && state.in_flight[id].deadline < now by {
        if ids.contains(id) {
            let place = ids.index_of(id);
            assert(over(ids[place]));
            kept_was_there(order, over, place);
            assert(order.to_set().contains(id));
        }
        if state.in_flight.contains_key(id) && state.in_flight[id].deadline < now {
            assert(order.to_set().contains(id));
            let at = order.index_of(id);
            assert(over(order[at]));
        }
    }
}

/// A lease that is claimed at an instant lasts for the visibility timeout: at any instant it
/// is over exactly where more than the timeout has passed since.
pub proof fn a_lease_lasts_for_the_visibility_timeout<P, W>(
    state: WorkState<P, W>,
    worker: W,
    now: u64,
    at: u64,
)
    requires
        state.wf(),
        state.pending.len() > 0,
        state.next_delivery_id < u64::MAX,
    ensures
        state.claimed(worker, now).expired(at).contains(state.next_delivery_id) <==> at - now
            > state.visibility_timeout,
        !state.claimed(worker, now).expired(now).contains(state.next_delivery_id),
{
    assert(state.claimed(worker, now).wf());
    what_is_over_is_what_ended_before(state.claimed(worker, now), at);
    what_is_over_is_what_ended_before(state.claimed(worker, now), now);
}

/// A worker gets the oldest pending item, as its next attempt, under an identity that no
/// lease has had, and what it is handed is what the queue holds for it. Everything else
/// stays as it was, in its order.
pub proof fn a_claim_leases_the_oldest_item<P, W>(state: WorkState<P, W>, worker: W, now: u64)
    requires
        state.wf(),
        state.pending.len() > 0,
        state.next_delivery_id < u64::MAX,
    ensures
        ({
            let after = state.claimed(worker, now);
            let lease = state.lease(worker, now);
            let fresh = state.next_delivery_id;
            &&& lease.item_id == state.pending[0].item_id
            &&& lease.value == state.pending[0].value
            &&& lease.attempt == state.pending[0].attempts + 1
            &&& lease.worker == worker
            &&& lease.delivery_id == fresh
            &&& !state.in_flight.contains_key(fresh)
            &&& after.in_flight.contains_key(fresh)
            &&& after.in_flight[fresh] == lease
            &&& after.held_by(worker, fresh)
            &&& forall|id: u64| id != fresh ==> (#[trigger] after.in_flight.contains_key(id)
                <==> state.in_flight.contains_key(id))
            &&& forall|id: u64| #[trigger]
                state.in_flight.contains_key(id) ==> after.in_flight[id] == state.in_flight[id]
            &&& after.pending.len() + 1 == state.pending.len()
            &&& forall|i: int|
                0 <= i < after.pending.len() ==> #[trigger] after.pending[i] == state.pending[i + 1]
            &&& after.dead_letters == state.dead_letters
            &&& after.next_delivery_id == fresh + 1
            &&& after.next_item_id == state.next_item_id
            &&& after.visibility_timeout == state.visibility_timeout
            &&& after.max_deliveries == state.max_deliveries
        }),
{
}

/// A new queue holds nothing and keeps the bounds that it was made with.
pub proof fn a_new_queue_holds_nothing<P, W>(visibility_timeout: u64, max_deliveries: u32)
    ensures
        ({
            let queue = WorkState::<P, W>::initial(visibility_timeout, max_deliveries);
            &&& queue.pending.len() == 0
            &&& queue.dead_letters.len() == 0
            &&& forall|id: u64| !(#[trigger] queue.in_flight.contains_key(id))
            &&& queue.next_item_id == 0
            &&& queue.next_delivery_id == 0
            &&& queue.visibility_timeout == visibility_timeout
            &&& queue.max_deliveries == max_deliveries
        }),
{
}

/// A pushed item joins behind all others, under an identity that no item has had, with no
/// attempt made. Everything else stays as it was.
pub proof fn a_pushed_item_waits_behind_the_others<P, W>(state: WorkState<P, W>, value: P)
    requires
        state.wf(),
        state.next_item_id < u64::MAX,
    ensures
        ({
            let after = state.pushed(value);
            &&& after.pending.len() == state.pending.len() + 1
            &&& after.pending.last().item_id == state.next_item_id
            &&& after.pending.last().value == value
            &&& after.pending.last().attempts == 0
            &&& forall|i: int|
                0 <= i < state.pending.len() ==> #[trigger] after.pending[i] == state.pending[i]
            &&& after.in_flight == state.in_flight
            &&& after.dead_letters == state.dead_letters
            &&& after.next_item_id == state.next_item_id + 1
            &&& after.next_delivery_id == state.next_delivery_id
            &&& after.visibility_timeout == state.visibility_timeout
            &&& after.max_deliveries == state.max_deliveries
        }),
{
}

/// A worker settles exactly the live leases that it was handed itself.
pub proof fn a_lease_is_its_workers_alone<P, W>(state: WorkState<P, W>, worker: W, id: u64)
    ensures
        state.held_by(worker, id) <==> state.in_flight.contains_key(id)
            && state.in_flight[id].worker == worker,
{
}

/// An acknowledgement ends one lease and changes nothing else.
pub proof fn an_acknowledgement_ends_one_lease<P, W>(state: WorkState<P, W>, delivery_id: u64)
    ensures
        ({
            let after = state.settled(delivery_id);
            &&& !after.in_flight.contains_key(delivery_id)
            &&& forall|id: u64| id != delivery_id ==> (#[trigger] after.in_flight.contains_key(id)
                <==> state.in_flight.contains_key(id))
            &&& forall|id: u64| #[trigger]
                after.in_flight.contains_key(id) ==> after.in_flight[id] == state.in_flight[id]
            &&& after.pending == state.pending
            &&& after.dead_letters == state.dead_letters
            &&& after.next_item_id == state.next_item_id
            &&& after.next_delivery_id == state.next_delivery_id
            &&& after.visibility_timeout == state.visibility_timeout
            &&& after.max_deliveries == state.max_deliveries
        }),
{
}

/// A lease that fails ends. While its item has attempts left it waits again behind all
/// others, with the attempts that were made; otherwise it is the newest dead letter, with
/// the reason of the last failure.
pub proof fn a_failed_item_waits_again_until_its_attempts_are_spent<P, W>(
    state: WorkState<P, W>,
    delivery_id: u64,
    reason: WorkQueueDeadLetterReason,
)
    requires
        state.wf(),
        state.in_flight.contains_key(delivery_id),
    ensures
        ({
            let after = state.failed(delivery_id, reason);
            let lease = state.in_flight[delivery_id];
            &&& after.in_flight == state.in_flight.remove(delivery_id)
            &&& lease.attempt < state.max_deliveries ==> {
                &&& after.pending == state.pending.push(
                    WorkQueueItem {
                        item_id: lease.item_id,
                        value: lease.value,
                        attempts: lease.attempt,
                    },
                )
                &&& after.dead_letters == state.dead_letters
            }
            &&& lease.attempt >= state.max_deliveries ==> {
                &&& after.pending == state.pending
                &&& after.dead_letters == state.dead_letters.push(
                    WorkQueueDeadLetter {
                        item_id: lease.item_id,
                        value: lease.value,
                        attempts: lease.attempt,
                        reason,
                    },
                )
            }
            &&& after.next_item_id == state.next_item_id
            &&& after.next_delivery_id == state.next_delivery_id
            &&& after.visibility_timeout == state.visibility_timeout
            &&& after.max_deliveries == state.max_deliveries
        }),
{
}

/// What reaping some leases leaves: the items with attempts left wait behind all others in
/// the order of the leases, the others are dead letters in that order.
proof fn reaping_goes_in_order<P, W>(state: WorkState<P, W>, ids: Seq<u64>)
    requires
        ids.no_duplicates(),
        forall|i: int| 0 <= i < ids.len() ==> state.in_flight.contains_key(#[trigger] ids[i]),
    ensures
        ({
            let after = state.reaped(ids);
            let again = |id: u64| state.in_flight[id].attempt < state.max_deliveries;
            let spent = |id: u64| state.in_flight[id].attempt >= state.max_deliveries;
            &&& after.pending == state.pending + ids.filter(again).map_values(
                |id: u64|
                    WorkQueueItem {
                        item_id: state.in_flight[id].item_id,
                        value: state.in_flight[id].value,
                        attempts: state.in_flight[id].attempt,
                    },
            )
            &&& after.dead_letters == state.dead_letters + ids.filter(spent).map_values(
                |id: u64|
                    WorkQueueDeadLetter {
                        item_id: state.in_flight[id].item_id,
                        value: state.in_flight[id].value,
                        attempts: state.in_flight[id].attempt,
                        reason: WorkQueueDeadLetterReason::Expired,
                    },
            )
            &&& after.max_deliveries == state.max_deliveries
            &&& forall|id: u64| #[trigger]
                after.in_flight.contains_key(id) <==> state.in_flight.contains_key(id)
                    && !ids.contains(id)
            &&& forall|id: u64| #[trigger]
                after.in_flight.contains_key(id) ==> after.in_flight[id] == state.in_flight[id]
        }),
    decreases ids.len(),
{
    reveal(Seq::filter);
    let after = state.reaped(ids);
    let again = |id: u64| state.in_flight[id].attempt < state.max_deliveries;
    let spent = |id: u64| state.in_flight[id].attempt >= state.max_deliveries;
    let item = |id: u64|
        WorkQueueItem {
            item_id: state.in_flight[id].item_id,
            value: state.in_flight[id].value,
            attempts: state.in_flight[id].attempt,
        };
    let letter = |id: u64|
        WorkQueueDeadLetter {
            item_id: state.in_flight[id].item_id,
            value: state.in_flight[id].value,
            attempts: state.in_flight[id].attempt,
            reason: WorkQueueDeadLetterReason::Expired,
        };
    if ids.len() == 0 {
        assert(after.pending =~= state.pending + ids.filter(again).map_values(item));
        assert(after.dead_letters =~= state.dead_letters + ids.filter(spent).map_values(letter));
    } else {
        let fewer = ids.drop_last();
        let last = ids.last();
        assert(ids[ids.len() - 1] == last);
        assert forall|i: int| 0 <= i < fewer.len() implies state.in_flight.contains_key(
            #[trigger] fewer[i],
        ) by {
            assert(fewer[i] == ids[i]);
        }
        assert forall|i: int, j: int| 0 <= i < fewer.len() && 0 <= j < fewer.len() && i
            != j implies fewer[i] != fewer[j] by {
            assert(fewer[i] == ids[i] && fewer[j] == ids[j]);
        }
        reaping_goes_in_order(state, fewer);
        assert(!fewer.contains(last)) by {
            if fewer.contains(last) {
                let at = fewer.index_of(last);
                assert(fewer[at] == last && ids[at] == last);
            }
        }
        let before = state.reaped(fewer);
        assert(before.in_flight.contains_key(last));
        assert(before.in_flight[last] == state.in_flight[last]);
        assert(after.pending =~= state.pending + ids.filter(again).map_values(item));
        assert(after.dead_letters =~= state.dead_letters + ids.filter(spent).map_values(letter));
        assert forall|id: u64| #[trigger]
            after.in_flight.contains_key(id) <==> state.in_flight.contains_key(id)
                && !ids.contains(id) by {
            if ids.contains(id) && id != last {
                let at = ids.index_of(id);
                assert(ids[at] == id && fewer[at] == id);
            }
            if fewer.contains(id) {
                let at = fewer.index_of(id);
                assert(fewer[at] == id && ids[at] == id);
            }
        }
        assert forall|id: u64| #[trigger]
            after.in_flight.contains_key(id) implies after.in_flight[id]
            == state.in_flight[id] by {
            assert(before.in_flight.contains_key(id));
        }
    }
}

/// Reaping at an instant ends the leases that are over, in the order in which they were
/// claimed: items with attempts left wait again behind all others, with the attempts that
/// were made, and the others are dead letters that expired. Every other lease stays as it
/// was.
pub proof fn reaping_sends_expired_items_back_in_order<P, W>(state: WorkState<P, W>, now: u64)
    requires
        state.wf(),
    ensures
        ({
            let ids = state.expired(now);
            let after = state.reaped(ids);
            let again = |id: u64| state.in_flight[id].attempt < state.max_deliveries;
            let spent = |id: u64| state.in_flight[id].attempt >= state.max_deliveries;
            &&& after.pending == state.pending + ids.filter(again).map_values(
                |id: u64|
                    WorkQueueItem {
                        item_id: state.in_flight[id].item_id,
                        value: state.in_flight[id].value,
                        attempts: state.in_flight[id].attempt,
                    },
            )
            &&& after.dead_letters == state.dead_letters + ids.filter(spent).map_values(
                |id: u64|
                    WorkQueueDeadLetter {
                        item_id: state.in_flight[id].item_id,
                        value: state.in_flight[id].value,
                        attempts: state.in_flight[id].attempt,
                        reason: WorkQueueDeadLetterReason::Expired,
                    },
            )
            &&& forall|id: u64| #[trigger]
                after.in_flight.contains_key(id) <==> state.in_flight.contains_key(id)
                    && state.in_flight[id].deadline >= now
            &&& forall|id: u64| #[trigger]
                after.in_flight.contains_key(id) ==> after.in_flight[id] == state.in_flight[id]
        }),
{
    let ids = state.expired(now);
    what_is_over_is_what_ended_before(state, now);
    assert forall|i: int| 0 <= i < ids.len() implies state.in_flight.contains_key(
        #[trigger] ids[i],
    ) by {
        assert(ids.contains(ids[i]));
    }
    reaping_goes_in_order(state, ids);
}

/// The listing of leases shows every live one once, in the order in which they were claimed,
/// and the observed sizes are those of the three places an item can be in.
pub proof fn what_is_observed_is_what_is_held<P, W>(state: WorkState<P, W>)
    requires
        state.wf(),
        state.pending.len() <= usize::MAX,
        state.in_flight.len() <= usize::MAX,
        state.dead_letters.len() <= usize::MAX,
    ensures
        forall|i: int|
            0 <= i < state.leases().len() ==> {
                let lease = #[trigger] state.leases()[i];
                state.in_flight.contains_key(lease.delivery_id)
                    && state.in_flight[lease.delivery_id] == lease
            },
        forall|i: int, j: int|
            0 <= i < j < state.leases().len() ==> (#[trigger] state.leases()[i]).delivery_id < (
            #[trigger] state.leases()[j]).delivery_id,
        forall|id: u64| #[trigger]
            state.in_flight.contains_key(id) ==> state.leases().contains(state.in_flight[id]),
        state.counts().pending == state.pending.len(),
        state.counts().in_flight == state.in_flight.len(),
        state.counts().dead_letters == state.dead_letters.len(),
{
    let order = in_order::<u64>(state.in_flight.dom());
    in_order_exists::<u64>(state.in_flight.dom());
    numbers_ascend(order);
    let leases = state.leases();
    assert forall|i: int| 0 <= i < leases.len() implies {
        let lease = #[trigger] leases[i];
        state.in_flight.contains_key(lease.delivery_id) && state.in_flight[lease.delivery_id]
            == lease && lease.delivery_id == order[i]
    } by {
        assert(order.to_set().contains(order[i]));
        assert(state.in_flight.contains_key(order[i]));
    }
    assert forall|id: u64| #[trigger] state.in_flight.contains_key(id) implies leases.contains(
        state.in_flight[id],
    ) by {
        assert(order.to_set().contains(id));
        let at = order.index_of(id);
        assert(leases[at] == state.in_flight[id]);
    }
}

} // verus!
