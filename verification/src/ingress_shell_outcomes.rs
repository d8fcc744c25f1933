//! Laws of the ingress cell's operations: what a batch admits, which replays are asked for,
//! and what a read shows and keeps.

use vstd::prelude::*;

use crate::filtering::agreeing_filters;
use crate::graph::Ledger;
use crate::ingress_model::{IngressState, admitted};
use crate::ingress_shell::{
    IngressCellState, ReaderSet, asks, batch_admitted, first_seen, gap_of, replays_for,
    requests_in,
};
use crate::ingress_types::{
    IngressEnvelope, IngressPolicy, IngressReceipt, IngressReceiptChannel, IngressScopeChange,
    IngressTransportKind, ReplayRequest,
};
use crate::merge::MergePolicy;
use crate::reactive::MemoState;

verus! {

/// A key's gap asks for a replay exactly where envelopes wait behind one, and then for the
/// current producer's sequences from the one behind the watermark on.
pub proof fn a_gap_asks_from_behind_the_watermark<Id, P>(state: IngressState<Id, P>, id: Id)
    requires
        state.wf(),
    ensures
        ({
            let scope = state.scopes[id];
            let request = gap_of(state, id);
            &&& request is Some <==> state.scopes.contains_key(id) && exists|sequence: u64|
                #[trigger] scope.pending.contains_key(sequence)
            &&& request is Some ==> {
                &&& request->0.generation == scope.generation
                &&& scope.delivered_through is None ==> request->0.from_sequence == 0
                &&& scope.delivered_through is Some ==> request->0.from_sequence
                    == scope.delivered_through->0 + 1
            }
        }),
{
    if state.scopes.contains_key(id) {
        let scope = state.scopes[id];
        assert(scope.wf(state.policy));
        if exists|sequence: u64| #[trigger] scope.pending.contains_key(sequence) {
            let sequence = choose|sequence: u64| #[trigger] scope.pending.contains_key(sequence);
            assert(scope.pending.dom().contains(sequence));
            assert(scope.pending.len() > 0);
        } else {
            assert(scope.pending.dom() =~= Set::<u64>::empty());
        }
    }
}

/// Each key that has a gap is asked for once per mention, in order, and no other.
pub proof fn replays_are_asked_for_keys_with_gaps<Id, P>(
    state: IngressState<Id, P>,
    keys: Seq<Id>,
)
    ensures
        replays_for(state, keys) == keys.filter(
            |id: Id| gap_of(state, id) is Some,
        ).map_values(|id: Id| (id, gap_of(state, id)->0)),
    decreases keys.len(),
{
    reveal(Seq::filter);
    let gapped = |id: Id| gap_of(state, id) is Some;
    let asked = |id: Id| (id, gap_of(state, id)->0);
    if keys.len() > 0 {
        replays_are_asked_for_keys_with_gaps(state, keys.drop_last());
        let fewer = keys.drop_last().filter(gapped);
        assert(fewer.push(keys.last()).map_values(asked) =~= fewer.map_values(asked).push(
            asked(keys.last()),
        ));
    }
    assert(replays_for(state, keys) =~= keys.filter(gapped).map_values(asked));
}

/// The keys of some envelopes in the order in which they first occur: each once, and each
/// behind those that occur before it.
pub proof fn keys_are_seen_once_in_order<Id>(keys: Seq<Id>)
    ensures
        first_seen(keys).no_duplicates(),
        forall|id: Id| #[trigger] first_seen(keys).contains(id) <==> keys.contains(id),
        keys.len() > 0 ==> {
            let fewer = keys.drop_last();
            &&& fewer.contains(keys.last()) ==> first_seen(keys) == first_seen(fewer)
            &&& !fewer.contains(keys.last()) ==> first_seen(keys) == first_seen(fewer).push(
                keys.last(),
            )
        },
    decreases keys.len(),
{
    if keys.len() > 0 {
        let fewer = keys.drop_last();
        keys_are_seen_once_in_order(fewer);
        let last = keys.len() - 1;
        assert(keys[last] == keys.last());
        let seen = first_seen(keys);
        let earlier = first_seen(fewer);
        assert forall|id: Id| #[trigger] seen.contains(id) implies keys.contains(id) by {
            let place = seen.index_of(id);
            assert(seen[place] == id);
            if place < earlier.len() {
                assert(earlier[place] == id);
                assert(earlier.contains(id));
                let at = fewer.index_of(id);
                assert(keys[at] == id);
            }
        }
        assert forall|id: Id| keys.contains(id) implies #[trigger] seen.contains(id) by {
            let at = keys.index_of(id);
            assert(keys[at] == id);
            if at < last {
                assert(fewer[at] == id);
                assert(fewer.contains(id));
            }
            if earlier.contains(id) {
                let place = earlier.index_of(id);
                assert(seen[place] == id);
            } else {
                assert(at == last);
                assert(seen[earlier.len() as int] == id);
            }
        }
    } else {
        assert(first_seen(keys) =~= Seq::empty());
    }
}

/// A log of asked replays that was continued with some requests keeps what it had, and has
/// behind it one entry for each request, in order.
pub proof fn asking_appends_to_the_log<Id>(
    before: Seq<(Id, ReplayRequest, bool)>,
    after: Seq<(Id, ReplayRequest, bool)>,
    requests: Seq<(Id, ReplayRequest)>,
)
    ensures
        asks(before, after, requests) <==> {
            &&& after.len() == before.len() + requests.len()
            &&& forall|i: int| 0 <= i < before.len() ==> #[trigger] after[i] == before[i]
            &&& forall|i: int|
                0 <= i < requests.len() ==> after[before.len() + i].0 == (#[trigger] requests[i]).0
                    && after[before.len() + i].1 == requests[i].1
        },
{
    let taken = after.skip(before.len() as int);
    if asks(before, after, requests) {
        assert(requests_in(taken).len() == taken.len());
        assert forall|i: int| 0 <= i < before.len() implies #[trigger] after[i] == before[i] by {
            assert(after.take(before.len() as int)[i] == after[i]);
        }
        assert forall|i: int| 0 <= i < requests.len() implies after[before.len() + i].0 == (
        #[trigger] requests[i]).0 && after[before.len() + i].1 == requests[i].1 by {
            assert(requests_in(taken)[i] == (taken[i].0, taken[i].1));
        }
    }
    if after.len() == before.len() + requests.len() && (forall|i: int|
        0 <= i < before.len() ==> #[trigger] after[i] == before[i]) && (forall|i: int|
        0 <= i < requests.len() ==> after[before.len() + i].0 == (#[trigger] requests[i]).0
            && after[before.len() + i].1 == requests[i].1) {
        assert(after.take(before.len() as int) =~= before);
        assert forall|i: int| 0 <= i < requests.len() implies requests_in(taken)[i]
            == #[trigger] requests[i] by {
            assert(taken[i] == after[before.len() + i]);
        }
        assert(requests_in(taken) =~= requests);
    }
}

/// A batch admits its envelopes one after the other: an empty one does nothing, and one more
/// envelope is admitted by what the others left, with its own marks cleared, and its outcome
/// comes last.
pub proof fn a_batch_admits_in_order<Id, T: View, M: MergePolicy<T>>(
    cell: IngressCellState<Id, T::V>,
    ledger: Ledger,
    batch: Seq<IngressEnvelope<Id, T::V>>,
    envelope: IngressEnvelope<Id, T::V>,
)
    ensures
        batch_admitted::<Id, T, M>(cell, ledger, Seq::empty()).0 == cell,
        batch_admitted::<Id, T, M>(cell, ledger, Seq::empty()).1 == ledger,
        batch_admitted::<Id, T, M>(cell, ledger, batch).2.len() == batch.len(),
        ({
            let (before, here, outcomes) = batch_admitted::<Id, T, M>(cell, ledger, batch);
            let (after, later, all) = batch_admitted::<Id, T, M>(
                cell,
                ledger,
                batch.push(envelope),
            );
            let (core, marks, outcome) = admitted::<Id, T, M>(before.core, envelope);
            &&& after.core == core
            &&& (after, later) == before.over(core).applied(here, marks)
            &&& all == outcomes.push(outcome)
        }),
    decreases batch.len(),
{
    assert(batch.push(envelope).drop_last() =~= batch);
    marking_keeps_the_plane(
        batch_admitted::<Id, T, M>(cell, ledger, batch).0.over(
            admitted::<Id, T, M>(
                batch_admitted::<Id, T, M>(cell, ledger, batch).0.core,
                envelope,
            ).0,
        ),
        batch_admitted::<Id, T, M>(cell, ledger, batch).1,
        admitted::<Id, T, M>(
            batch_admitted::<Id, T, M>(cell, ledger, batch).0.core,
            envelope,
        ).1.scopes,
    );
    if batch.len() > 0 {
        a_batch_admits_in_order::<Id, T, M>(cell, ledger, batch.drop_last(), batch.last());
        assert(batch.drop_last().push(batch.last()) =~= batch);
    }
}

/// Minting readers leaves the plane, and everything but the readers, as it was.
pub proof fn marking_keeps_the_plane<Id, P>(
    cell: IngressCellState<Id, P>,
    ledger: Ledger,
    marks: Seq<(Id, IngressScopeChange)>,
)
    ensures
        ({
            let after = cell.with_marked(ledger, marks).0;
            &&& after.core == cell.core
            &&& after.accepted == cell.accepted
            &&& after.dropped == cell.dropped
            &&& after.errors == cell.errors
            &&& after.kind == cell.kind
            &&& after.kind_slot == cell.kind_slot
            &&& after.poll_interval == cell.poll_interval
            &&& after.interval_slot == cell.interval_slot
            &&& after.schedule == cell.schedule
            &&& forall|id: Id| #[trigger]
                after.readers.contains_key(id) <==> cell.readers.contains_key(id) || exists|i: int|
                    0 <= i < marks.len() && (#[trigger] marks[i]).0 == id
            &&& forall|id: Id| #[trigger]
                cell.readers.contains_key(id) ==> after.readers[id] == cell.readers[id]
        }),
    decreases marks.len(),
{
    if marks.len() > 0 {
        let fewer = marks.drop_last();
        marking_keeps_the_plane(cell, ledger, fewer);
        let after = cell.with_marked(ledger, marks).0;
        let before = cell.with_marked(ledger, fewer).0;
        let last = marks.len() - 1;
        assert(marks[last] == marks.last());
        assert forall|id: Id| #[trigger]
            after.readers.contains_key(id) <==> cell.readers.contains_key(id) || exists|i: int|
                0 <= i < marks.len() && (#[trigger] marks[i]).0 == id by {
            assert(after.readers.contains_key(id) <==> before.readers.contains_key(id) || id
                == marks.last().0);
            if exists|i: int| 0 <= i < fewer.len() && (#[trigger] fewer[i]).0 == id {
                let i = choose|i: int| 0 <= i < fewer.len() && (#[trigger] fewer[i]).0 == id;
                assert(marks[i].0 == id);
            }
            if exists|i: int| 0 <= i < marks.len() && (#[trigger] marks[i]).0 == id {
                let i = choose|i: int| 0 <= i < marks.len() && (#[trigger] marks[i]).0 == id;
                if i < last {
                    assert(fewer[i].0 == id);
                }
            }
        }
    }
}

/// A key without readers gets four on slots of their own that have computed nothing yet; one
/// with readers keeps them.
pub proof fn a_key_gets_its_readers_once<Id, P>(
    cell: IngressCellState<Id, P>,
    ledger: Ledger,
    id: Id,
)
    requires
        ledger.slots.len() + 4 <= usize::MAX,
    ensures
        ({
            let (after, later) = cell.with_readers(ledger, id);
            let known = cell.readers.contains_key(id);
            let readers = after.readers[id];
            &&& known ==> after == cell && later == ledger
            &&& !known ==> {
                &&& after.readers == cell.readers.insert(id, readers)
                &&& readers.value.slot.index == ledger.slots.len()
                &&& readers.readiness.slot.index == ledger.slots.len() + 1
                &&& readers.authority.slot.index == ledger.slots.len() + 2
                &&& readers.retry.slot.index == ledger.slots.len() + 3
                &&& readers.value.cached is None
                &&& readers.readiness.cached is None
                &&& readers.authority.cached is None
                &&& readers.retry.cached is None
                &&& later.slots.len() == ledger.slots.len() + 4
            }
            &&& after.core == cell.core
        }),
{
    reveal_with_fuel(Ledger::grown, 5);
}

/// Whether a read kept its reader on its slot, with what it showed: what was kept, while the
/// slot is clean, or else what is derived.
pub open spec fn read_shows<Q>(
    reader: MemoState<Q>,
    after: MemoState<Q>,
    ledger: Ledger,
    later: Ledger,
    derived: Q,
    shown: Q,
) -> bool {
    let kept = ledger.clean(reader.slot) && reader.cached is Some;
    &&& kept ==> reader.cached == Some(shown)
    &&& !kept ==> shown == derived
    &&& after.slot == reader.slot
    &&& after.cached == Some(shown)
    &&& later.clean(reader.slot)
    &&& later.slots.len() == ledger.slots.len()
    &&& forall|at: int|
        0 <= at < ledger.slots.len() && at != reader.slot.index ==> (#[trigger] later.slots[at])
            == ledger.slots[at]
}

/// Each read of a key shows what its own reader keeps, or what the plane derives for it, and
/// moves neither the plane nor another reader.
pub proof fn reads_show_their_own_reader<Id, P>(
    cell: IngressCellState<Id, P>,
    ledger: Ledger,
    id: Id,
)
    requires
        cell.readers.contains_key(id),
        cell.on(ledger),
    ensures
        ({
            let before = cell.readers[id];
            let (after, later, shown) = cell.value_read(ledger, id);
            let readers = after.readers[id];
            &&& after.core == cell.core
            &&& read_shows(
                before.value,
                readers.value,
                ledger,
                later,
                cell.core.value_of(id),
                shown,
            )
            &&& after.readers == cell.readers.insert(
                id,
                ReaderSet { value: readers.value, ..before },
            )
        }),
        ({
            let before = cell.readers[id];
            let (after, later, shown) = cell.readiness_read(ledger, id);
            let readers = after.readers[id];
            &&& after.core == cell.core
            &&& read_shows(
                before.readiness,
                readers.readiness,
                ledger,
                later,
                cell.core.readiness_of(id),
                shown,
            )
            &&& after.readers == cell.readers.insert(
                id,
                ReaderSet { readiness: readers.readiness, ..before },
            )
        }),
        ({
            let before = cell.readers[id];
            let (after, later, shown) = cell.authority_read(ledger, id);
            let readers = after.readers[id];
            &&& after.core == cell.core
            &&& read_shows(
                before.authority,
                readers.authority,
                ledger,
                later,
                cell.core.authority_of(id),
                shown,
            )
            &&& after.readers == cell.readers.insert(
                id,
                ReaderSet { authority: readers.authority, ..before },
            )
        }),
        ({
            let before = cell.readers[id];
            let (after, later, shown) = cell.retry_read(ledger, id);
            let readers = after.readers[id];
            &&& after.core == cell.core
            &&& read_shows(
                before.retry,
                readers.retry,
                ledger,
                later,
                cell.core.retry_of(id),
                shown,
            )
            &&& after.readers == cell.readers.insert(
                id,
                ReaderSet { retry: readers.retry, ..before },
            )
        }),
{
    assert(cell.readers[id].on(ledger));
}

/// Each receipt is read from the channel of its outcome: a channel shows the receipts of the
/// log with that outcome, in order.
pub proof fn channels_show_their_outcomes<Id, P>(state: IngressState<Id, P>)
    ensures
        state.receipts_on(IngressReceiptChannel::Accepted) == state.receipts.filter(
            |receipt: IngressReceipt<Id>| receipt.outcome is Accepted,
        ),
        state.receipts_on(IngressReceiptChannel::Dropped) == state.receipts.filter(
            |receipt: IngressReceipt<Id>| receipt.outcome is Dropped,
        ),
        state.receipts_on(IngressReceiptChannel::Error) == state.receipts.filter(
            |receipt: IngressReceipt<Id>| receipt.outcome is Error,
        ),
{
    agreeing_filters(
        state.receipts,
        |receipt: IngressReceipt<Id>| receipt.on() == IngressReceiptChannel::Accepted,
        |receipt: IngressReceipt<Id>| receipt.outcome is Accepted,
    );
    agreeing_filters(
        state.receipts,
        |receipt: IngressReceipt<Id>| receipt.on() == IngressReceiptChannel::Dropped,
        |receipt: IngressReceipt<Id>| receipt.outcome is Dropped,
    );
    agreeing_filters(
        state.receipts,
        |receipt: IngressReceipt<Id>| receipt.on() == IngressReceiptChannel::Error,
        |receipt: IngressReceipt<Id>| receipt.outcome is Error,
    );
}

/// A receipt reader that keeps nothing shows the receipts of its own channel, and one that
/// does shows those while its slot is clean.
pub proof fn receipt_reads_show_their_channel<Id, P>(
    cell: IngressCellState<Id, P>,
    ledger: Ledger,
)
    ensures
        !(ledger.clean(cell.accepted.slot) && cell.accepted.cached is Some) ==> cell.accepted_shown(
            ledger,
        ) == cell.core.receipts_on(IngressReceiptChannel::Accepted),
        !(ledger.clean(cell.dropped.slot) && cell.dropped.cached is Some) ==> cell.dropped_shown(
            ledger,
        ) == cell.core.receipts_on(IngressReceiptChannel::Dropped),
        !(ledger.clean(cell.errors.slot) && cell.errors.cached is Some) ==> cell.errors_shown(
            ledger,
        ) == cell.core.receipts_on(IngressReceiptChannel::Error),
        ledger.clean(cell.accepted.slot) && cell.accepted.cached is Some ==> cell.accepted.cached
            == Some(cell.accepted_shown(ledger)),
        ledger.clean(cell.dropped.slot) && cell.dropped.cached is Some ==> cell.dropped.cached
            == Some(cell.dropped_shown(ledger)),
        ledger.clean(cell.errors.slot) && cell.errors.cached is Some ==> cell.errors.cached == Some(
            cell.errors_shown(ledger),
        ),
{
}

/// A new cell knows no key and has the kind and the bound that it was made with; its readers
/// have computed nothing yet.
pub proof fn a_new_ingress_cell_has_read_nothing<Id, P>(
    policy: IngressPolicy,
    kind: IngressTransportKind,
    poll_interval: u64,
    first: int,
)
    requires
        0 <= first,
        first + 5 <= usize::MAX,
    ensures
        ({
            let cell = IngressCellState::<Id, P>::initial(policy, kind, poll_interval, first);
            &&& cell.core == IngressState::<Id, P>::initial(policy)
            &&& cell.readers == Map::<Id, ReaderSet<P>>::empty()
            &&& cell.accepted.slot.index == first && cell.accepted.cached is None
            &&& cell.dropped.slot.index == first + 1 && cell.dropped.cached is None
            &&& cell.errors.slot.index == first + 2 && cell.errors.cached is None
            &&& cell.kind == kind && cell.kind_slot.index == first + 3
            &&& cell.poll_interval == poll_interval && cell.interval_slot.index == first + 4
            &&& cell.schedule.slot.index == first + 5 && cell.schedule.cached is None
        }),
{
}

} // verus!
