//! Laws of the ingress plane: what relates its transitions to each other.

use vstd::prelude::*;

use crate::filtering::{a_miss_leaves_nothing, filter_keeps_what_matches, kept_was_there};
use crate::ingress_core::flush_room;
use crate::ingress_model::{
    IngressState, ScopeState, absorbed, admitted, countable, delivered, flushed, has_room, met,
    parked_change, reset_change, ruling,
};
use crate::ingress_types::{
    IngressAdmission, IngressDropReason, IngressEnvelope, IngressError, IngressLifecycle,
    IngressMarks, IngressReceipt, IngressReceiptChannel, IngressReceiptOutcome, IngressScopeChange,
    within_horizon,
};
use crate::merge::MergePolicy;

verus! {

/// Every reader kind that a transition left unmarked reads as before.
pub open spec fn unmarked_readers_hold<Id, P>(
    before: IngressState<Id, P>,
    after: IngressState<Id, P>,
    marks: IngressMarks<Id>,
) -> bool {
    &&& forall|id: Id|
        !marks.marks_value(id) ==> #[trigger] after.value_of(id) == before.value_of(id)
    &&& forall|id: Id|
        !marks.marks_readiness(id) ==> #[trigger] after.readiness_of(id) == before.readiness_of(id)
    &&& forall|id: Id|
        !marks.marks_authority(id) ==> #[trigger] after.authority_of(id) == before.authority_of(id)
    &&& forall|id: Id|
        !marks.marks_retry(id) ==> #[trigger] after.retry_of(id) == before.retry_of(id)
}

/// A mark is found under its key.
proof fn marked_is_found<Id>(id: Id, change: IngressScopeChange)
    ensures
        IngressMarks::<Id>::none().marked(id, change).marks_value(id) == change.value,
        IngressMarks::<Id>::none().marked(id, change).marks_readiness(id) == change.readiness,
        IngressMarks::<Id>::none().marked(id, change).marks_authority(id) == change.authority,
        IngressMarks::<Id>::none().marked(id, change).marks_retry(id) == change.retry,
{
    let marks = IngressMarks::<Id>::none().marked(id, change);
    if change.some() {
        assert(marks.scopes[0] == (id, change));
    }
}

/// Opening marks every reader that it moves.
pub proof fn opening_marks_what_moves<Id, P>(state: IngressState<Id, P>, id: Id, generation: u64)
    requires
        state.wf(),
    ensures
        unmarked_readers_hold(
            state,
            state.opened(id, generation).0,
            state.opened(id, generation).1,
        ),
{
    let (after, marks) = state.opened(id, generation);
    if !state.scopes.contains_key(id) {
        marked_is_found(id, IngressScopeChange::appearance());
    } else {
        let before = state.scopes[id];
        let scope = before.reopened(generation);
        marked_is_found(
            id,
            IngressScopeChange {
                value: false,
                readiness: state.would_be_ready(before) != state.would_be_ready(scope),
                authority: true,
                retry: state.would_retry(before) != state.would_retry(scope),
            },
        );
    }
}

/// Suspending marks every reader that it moves.
pub proof fn suspending_marks_what_moves<Id, P>(state: IngressState<Id, P>, id: Id)
    requires
        state.wf(),
    ensures
        unmarked_readers_hold(state, state.suspended(id).0, state.suspended(id).1),
{
    marked_is_found(id, IngressScopeChange { readiness: true, ..IngressScopeChange::nothing() });
}

/// Reconnecting marks every reader that it moves.
pub proof fn reconnecting_marks_what_moves<Id, P>(
    state: IngressState<Id, P>,
    id: Id,
    generation: u64,
)
    requires
        state.wf(),
    ensures
        unmarked_readers_hold(
            state,
            state.reconnected(id, generation).0,
            state.reconnected(id, generation).1,
        ),
{
    let known = state.scopes.contains_key(id);
    let before = if known {
        state.scopes[id]
    } else {
        ScopeState::opening(generation)
    };
    let after = before.reconnected(generation);
    let newer = generation > before.generation;
    let change = IngressScopeChange {
        value: newer && before.window is Some,
        readiness: before.lifecycle != after.lifecycle,
        authority: newer || before.lifecycle is Closed,
        retry: before.consecutive_errors > 0,
    };
    marked_is_found(
        id,
        if known {
            change
        } else {
            change.joined(IngressScopeChange::appearance())
        },
    );
}

/// Closing marks every reader that it moves.
pub proof fn closing_marks_what_moves<Id, P>(state: IngressState<Id, P>, id: Id)
    requires
        state.wf(),
    ensures
        unmarked_readers_hold(state, state.closed(id).0, state.closed(id).1),
{
    if state.scopes.contains_key(id) {
        let before = state.scopes[id];
        marked_is_found(
            id,
            IngressScopeChange {
                value: before.window is Some,
                readiness: true,
                authority: true,
                retry: before.consecutive_errors > 0,
            },
        );
    }
}

/// A tick marks exactly the scopes whose readiness it moves, and moves no other
/// reader.
pub proof fn ticking_marks_what_moves<Id, P>(state: IngressState<Id, P>, now: u64)
    requires
        state.wf(),
    ensures
        unmarked_readers_hold(state, state.ticked(now).0, state.ticked(now).1),
        forall|id: Id| #[trigger]
            state.ticked(now).1.marks_readiness(id) ==> state.ticked(now).0.readiness_of(id)
                != state.readiness_of(id),
{
    let (after, marks) = state.ticked(now);
    let crossing = |id: Id| state.crosses(id, now);
    let crossed = state.keys.filter(crossing);
    filter_keeps_what_matches(state.keys, crossing);
    assert forall|id: Id| !marks.marks_readiness(id) implies #[trigger] after.readiness_of(id)
        == state.readiness_of(id) by {
        if state.scopes.contains_key(id) && state.crosses(id, now) {
            assert(state.keys.contains(id));
            let at = state.keys.index_of(id);
            assert(state.keys[at] == id);
            assert(crossing(state.keys[at]));
            assert(crossed.contains(id));
            let place = crossed.index_of(id);
            assert(crossed[place] == id);
            assert(marks.scopes[place].0 == id);
        }
    }
    assert forall|id: Id| #[trigger] marks.marks_readiness(id) implies after.readiness_of(id)
        != state.readiness_of(id) by {
        let place = choose|i: int|
            0 <= i < marks.scopes.len() && (#[trigger] marks.scopes[i]).0 == id
                && marks.scopes[i].1.readiness;
        assert(crossed[place] == id);
        assert(crossing(crossed[place]));
        kept_was_there(state.keys, crossing, place);
        assert(state.keys.contains(id));
    }
}

/// A failure marks every reader that it moves.
pub proof fn failing_marks_what_moves<Id, P>(
    state: IngressState<Id, P>,
    id: Id,
    error: IngressError,
)
    requires
        state.wf(),
    ensures
        unmarked_readers_hold(state, state.failed(id, error).0, state.failed(id, error).1),
{
    let change = IngressScopeChange { retry: true, ..IngressScopeChange::nothing() };
    let marked = if state.scopes.contains_key(id) {
        change
    } else {
        change.joined(IngressScopeChange::appearance())
    };
    marked_is_found(id, marked);
    let marks = state.failed(id, error).1;
    assert(marks.scopes == IngressMarks::<Id>::none().marked(id, marked).scopes);
    assert(marks.scopes[0] == (id, marked));
}

/// A drain marks every reader that it moves.
pub proof fn draining_marks_what_moves<Id, P>(state: IngressState<Id, P>, id: Id)
    requires
        state.wf(),
    ensures
        unmarked_readers_hold(state, state.drained(id).0, state.drained(id).1),
{
    marked_is_found(id, IngressScopeChange { value: true, ..IngressScopeChange::nothing() });
}

/// An admission marks every reader that it moves.
pub proof fn admission_marks_what_moves<Id, T: View, M: MergePolicy<T>>(
    state: IngressState<Id, T::V>,
    envelope: IngressEnvelope<Id, T::V>,
)
    requires
        state.wf(),
    ensures
        unmarked_readers_hold(
            state,
            admitted::<Id, T, M>(state, envelope).0,
            admitted::<Id, T, M>(state, envelope).1,
        ),
{
    let id = envelope.key;
    let known = state.scopes.contains_key(id);
    let before = met(state, envelope);
    let (scope, decision) = ruling::<Id, T, M>(state, envelope);
    let (after, marks, _) = admitted::<Id, T, M>(state, envelope);
    let everything = IngressScopeChange {
        value: true,
        readiness: true,
        authority: true,
        retry: true,
    };
    marked_is_found(id, everything);
    marked_is_found(id, parked_change(known, before, scope));
    marked_is_found(id, reset_change(before, scope));
    if decision is Delivered {
        assert(marks.scopes == IngressMarks::<Id>::none().marked(id, everything).scopes);
        assert(marks.scopes[0] == (id, everything));
    } else if decision is Buffered {
        assert(scope.window == before.window || scope.window is None);
    } else if known {
        assert(marks.scopes == IngressMarks::<Id>::none().marked(
            id,
            reset_change(before, scope),
        ).scopes);
    } else {
        assert(after.scopes == state.scopes);
    }
}

/// Whether a receipt channel is marked.
pub open spec fn marks_channel<Id>(marks: IngressMarks<Id>, channel: IngressReceiptChannel) -> bool {
    match channel {
        IngressReceiptChannel::Accepted => marks.accepted_receipts,
        IngressReceiptChannel::Dropped => marks.dropped_receipts,
        IngressReceiptChannel::Error => marks.error_receipts,
    }
}

/// A receipt moves no channel but those that logging it marks: its own, and in a full log
/// that of the receipt which makes way for it.
pub proof fn a_receipt_marks_what_it_moves<Id, P>(
    state: IngressState<Id, P>,
    id: Id,
    generation: u64,
    sequence: Option<u64>,
    outcome: IngressReceiptOutcome,
    marks: IngressMarks<Id>,
    channel: IngressReceiptChannel,
)
    requires
        state.wf(),
    ensures
        ({
            let after = state.with_receipt(id, generation, sequence, outcome);
            let marked = state.logging(marks, after.receipts.last().on());
            !marks_channel(marked, channel) ==> after.receipts_on(channel) == state.receipts_on(
                channel,
            )
        }),
{
    reveal(Seq::filter);
    let after = state.with_receipt(id, generation, sequence, outcome);
    let marked = state.logging(marks, after.receipts.last().on());
    let keeps = |receipt: IngressReceipt<Id>| receipt.on() == channel;
    if !marks_channel(marked, channel) {
        if state.receipts.len() < state.policy.receipt_capacity {
            assert(after.receipts.drop_last() =~= state.receipts);
        } else {
            a_miss_leaves_nothing(state.receipts, keeps);
            assert(after.receipts.drop_last() =~= state.receipts.skip(1));
        }
    }
}

/// A receipt channel that an admission left unmarked reads as before.
pub proof fn unmarked_channels_hold<Id, T: View, M: MergePolicy<T>>(
    state: IngressState<Id, T::V>,
    envelope: IngressEnvelope<Id, T::V>,
    channel: IngressReceiptChannel,
)
    requires
        state.wf(),
    ensures
        ({
            let (after, marks, _) = admitted::<Id, T, M>(state, envelope);
            !marks_channel(marks, channel) ==> after.receipts_on(channel) == state.receipts_on(
                channel,
            )
        }),
{
    let after = admitted::<Id, T, M>(state, envelope).0;
    if !(ruling::<Id, T, M>(state, envelope).1 is Buffered) {
        let receipt = after.receipts.last();
        a_receipt_marks_what_it_moves(
            state,
            receipt.key,
            receipt.generation,
            receipt.sequence,
            receipt.outcome,
            IngressMarks::<Id>::none(),
            channel,
        );
    }
}

/// A receipt channel that a failure left unmarked reads as before.
pub proof fn a_failure_marks_its_channels<Id, P>(
    state: IngressState<Id, P>,
    id: Id,
    error: IngressError,
    channel: IngressReceiptChannel,
)
    requires
        state.wf(),
    ensures
        !marks_channel(state.failed(id, error).1, channel) ==> state.failed(id, error).0.receipts_on(
            channel,
        ) == state.receipts_on(channel),
{
    let receipt = state.failed(id, error).0.receipts.last();
    a_receipt_marks_what_it_moves(
        state,
        receipt.key,
        receipt.generation,
        receipt.sequence,
        receipt.outcome,
        IngressMarks::<Id>::none(),
        channel,
    );
}

/// A scope in place of what was known of its key leaves a plane in order.
proof fn a_scope_keeps_the_plane_in_order<Id, P>(
    state: IngressState<Id, P>,
    id: Id,
    scope: ScopeState<P>,
)
    requires
        state.wf(),
        scope.wf(state.policy),
    ensures
        state.with_scope(id, scope).wf(),
{
    let after = state.with_scope(id, scope);
    assert forall|other: Id| after.keys.contains(other) <==> #[trigger] after.scopes.contains_key(
        other,
    ) by {
        if !state.keys.contains(id) {
            if after.keys.contains(other) {
                let at = after.keys.index_of(other);
                assert(at < state.keys.len() ==> state.keys[at] == other);
            }
            if state.keys.contains(other) {
                let at = state.keys.index_of(other);
                assert(after.keys[at] == other);
            }
            assert(after.keys[state.keys.len() as int] == id);
        }
    }
    assert forall|other: Id| #[trigger] after.scopes.contains_key(other) implies after.scopes[other].wf(
        after.policy,
    ) by {
        if other != id {
            assert(state.scopes.contains_key(other));
        }
    }
}

/// What an envelope leaves of its scope is in order.
proof fn a_decision_keeps_the_scope_in_order<Id, T: View, M: MergePolicy<T>>(
    state: IngressState<Id, T::V>,
    envelope: IngressEnvelope<Id, T::V>,
)
    requires
        state.wf(),
        countable::<Id, T, M>(state, envelope),
        has_room(state, envelope.key),
    ensures
        ruling::<Id, T, M>(state, envelope).0.wf(state.policy),
{
    let scope = met(state, envelope);
    let (after, decision) = ruling::<Id, T, M>(state, envelope);
    assert(scope.wf(state.policy)) by {
        assert(Map::<u64, (T::V, u64)>::empty().dom() =~= Set::empty());
    }
    let base = if envelope.generation > scope.generation {
        scope.handed_to(envelope.generation)
    } else {
        scope
    };
    assert(base.wf(state.policy));
    if decision is Delivered {
        let room = if base.window_depth >= state.policy.high_water
            && state.policy.overflow is DropOldest {
            base.drained()
        } else {
            base
        };
        let first = ScopeState {
            delivered_through: Some(envelope.sequence),
            lifecycle: IngressLifecycle::Live,
            consecutive_errors: 0,
            ..absorbed::<T, M>(room, envelope.payload, envelope.stamped_at)
        };
        flush_room::<T, M>(first, state.policy);
    }
}

/// An admission leaves a plane in order.
pub proof fn admitting_keeps_the_plane_in_order<Id, T: View, M: MergePolicy<T>>(
    state: IngressState<Id, T::V>,
    envelope: IngressEnvelope<Id, T::V>,
)
    requires
        state.wf(),
        countable::<Id, T, M>(state, envelope),
        has_room(state, envelope.key),
    ensures
        admitted::<Id, T, M>(state, envelope).0.wf(),
{
    let scope = ruling::<Id, T, M>(state, envelope).0;
    a_decision_keeps_the_scope_in_order::<Id, T, M>(state, envelope);
    a_scope_keeps_the_plane_in_order(state, envelope.key, scope);
}

/// A close leaves a plane in order.
pub proof fn closing_keeps_the_plane_in_order<Id, P>(state: IngressState<Id, P>, id: Id)
    requires
        state.wf(),
    ensures
        state.closed(id).0.wf(),
{
    if state.scopes.contains_key(id) {
        assert(Map::<u64, (P, u64)>::empty().dom() =~= Set::empty());
        a_scope_keeps_the_plane_in_order(state, id, state.scopes[id].closed());
    }
}

/// The receipt log never exceeds its capacity, its offsets are consecutive, and
/// the newest is the last one minted.
pub proof fn receipts_are_bounded_and_consecutive<Id, P>(state: IngressState<Id, P>)
    requires
        state.wf(),
    ensures
        state.receipts.len() <= state.policy.receipt_capacity,
        forall|i: int, j: int|
            0 <= i < j < state.receipts.len() ==> (#[trigger] state.receipts[j]).offset - (
            #[trigger] state.receipts[i]).offset == j - i,
        state.receipts.len() > 0 ==> state.receipts.last().offset + 1 == state.next_receipt_offset,
{
}

/// What each operation leaves alone: the readers of every other key.
pub open spec fn other_keys_hold<Id, P>(
    before: IngressState<Id, P>,
    after: IngressState<Id, P>,
    id: Id,
) -> bool {
    forall|other: Id| #![trigger after.view_of(other)]
        other != id ==> after.view_of(other) == before.view_of(other) && after.value_of(other)
            == before.value_of(other)
}

/// Scopes are independent: an operation on one key moves no reader of another.
pub proof fn scopes_are_independent<Id, T: View, M: MergePolicy<T>>(
    state: IngressState<Id, T::V>,
    id: Id,
    generation: u64,
    error: IngressError,
    envelope: IngressEnvelope<Id, T::V>,
)
    requires
        state.wf(),
    ensures
        other_keys_hold(state, state.opened(id, generation).0, id),
        other_keys_hold(state, state.suspended(id).0, id),
        other_keys_hold(state, state.reconnected(id, generation).0, id),
        other_keys_hold(state, state.closed(id).0, id),
        other_keys_hold(state, state.failed(id, error).0, id),
        other_keys_hold(state, state.drained(id).0, id),
        other_keys_hold(state, admitted::<Id, T, M>(state, envelope).0, envelope.key),
{
}

/// A drain is not an acknowledgement: it moves neither the watermark nor the
/// fence, so a replay after it resumes from the same sequence.
pub proof fn draining_keeps_the_watermark<Id, P>(state: IngressState<Id, P>, id: Id)
    requires
        state.wf(),
        state.scopes.contains_key(id),
    ensures
        state.drained(id).0.scopes[id].replay() == state.scopes[id].replay(),
        state.drained(id).0.authority_of(id) == state.authority_of(id),
        state.drained(id).0.value_of(id) is None,
{
}

/// A zombie producer is inert: below the fence nothing is delivered, parked or
/// moved, whatever the sequence.
pub proof fn stale_generations_are_inert<Id, T: View, M: MergePolicy<T>>(
    state: IngressState<Id, T::V>,
    envelope: IngressEnvelope<Id, T::V>,
)
    requires
        state.wf(),
        state.scopes.contains_key(envelope.key),
        !(state.scopes[envelope.key].lifecycle is Closed),
        envelope.generation < state.scopes[envelope.key].generation,
    ensures
        admitted::<Id, T, M>(state, envelope).2 == IngressAdmission::Dropped(
            IngressDropReason::StaleGeneration,
        ),
        admitted::<Id, T, M>(state, envelope).0.scopes == state.scopes,
        admitted::<Id, T, M>(state, envelope).1.scopes.len() == 0,
{
    assert(admitted::<Id, T, M>(state, envelope).0.scopes =~= state.scopes);
}

/// An expired envelope never occupies a reorder slot and never moves the fence.
pub proof fn expired_envelopes_are_inert<Id, T: View, M: MergePolicy<T>>(
    state: IngressState<Id, T::V>,
    envelope: IngressEnvelope<Id, T::V>,
)
    requires
        state.wf(),
        !within_horizon(state.observed_now, envelope.stamped_at, state.policy.freshness_horizon),
    ensures
        admitted::<Id, T, M>(state, envelope).2 is Dropped,
        admitted::<Id, T, M>(state, envelope).0.scopes == state.scopes,
        admitted::<Id, T, M>(state, envelope).0.keys == state.keys,
        admitted::<Id, T, M>(state, envelope).1.scopes.len() == 0,
{
    assert(admitted::<Id, T, M>(state, envelope).0.scopes =~= state.scopes);
}

/// A closed scope admits nothing, claims no authority and holds nothing.
pub proof fn closed_scopes_admit_nothing<Id, T: View, M: MergePolicy<T>>(
    state: IngressState<Id, T::V>,
    envelope: IngressEnvelope<Id, T::V>,
)
    requires
        state.wf(),
        state.scopes.contains_key(envelope.key),
        state.scopes[envelope.key].lifecycle is Closed,
    ensures
        admitted::<Id, T, M>(state, envelope).2 == IngressAdmission::Dropped(
            IngressDropReason::ScopeClosed,
        ),
        admitted::<Id, T, M>(state, envelope).0.scopes == state.scopes,
        state.authority_of(envelope.key) is None,
        state.value_of(envelope.key) is None,
{
    assert(admitted::<Id, T, M>(state, envelope).0.scopes =~= state.scopes);
}

/// A refused envelope leaves no scope behind for a key that was unknown.
pub proof fn refusals_open_no_scope<Id, T: View, M: MergePolicy<T>>(
    state: IngressState<Id, T::V>,
    envelope: IngressEnvelope<Id, T::V>,
)
    requires
        state.wf(),
        !state.scopes.contains_key(envelope.key),
        admitted::<Id, T, M>(state, envelope).2 is Dropped || admitted::<Id, T, M>(
            state,
            envelope,
        ).2 is Blocked,
    ensures
        admitted::<Id, T, M>(state, envelope).0.scopes == state.scopes,
        admitted::<Id, T, M>(state, envelope).0.keys == state.keys,
{
}

/// A flush keeps the generation and only ever moves the watermark up.
proof fn flush_moves_up<T: View, M: MergePolicy<T>>(scope: ScopeState<T::V>)
    ensures
        flushed::<T, M>(scope).generation == scope.generation,
        flushed::<T, M>(scope).lifecycle == scope.lifecycle,
        flushed::<T, M>(scope).consecutive_errors == scope.consecutive_errors,
        flushed::<T, M>(scope).stamped_at >= scope.stamped_at,
        flushed::<T, M>(scope).next_expected() >= scope.next_expected(),
        scope.window is Some ==> flushed::<T, M>(scope).window is Some,
    decreases u64::MAX + 1 - scope.next_expected(),
{
    let next = scope.next_expected();
    if next <= u64::MAX && scope.pending.contains_key(next as u64) {
        let (payload, stamp) = scope.pending[next as u64];
        let taken = ScopeState { pending: scope.pending.remove(next as u64), ..scope };
        flush_moves_up::<T, M>(
            ScopeState {
                delivered_through: Some(next as u64),
                ..absorbed::<T, M>(taken, payload, stamp)
            },
        );
    }
}

/// The fence never moves down under admission, and within a generation neither
/// does the watermark.
pub proof fn fence_and_watermark_are_monotone<Id, T: View, M: MergePolicy<T>>(
    state: IngressState<Id, T::V>,
    envelope: IngressEnvelope<Id, T::V>,
)
    requires
        state.wf(),
        state.scopes.contains_key(envelope.key),
    ensures
        ({
            let before = state.scopes[envelope.key];
            let after = admitted::<Id, T, M>(state, envelope).0.scopes[envelope.key];
            &&& after.generation >= before.generation
            &&& after.generation == before.generation ==> after.next_expected()
                >= before.next_expected()
        }),
{
    let before = state.scopes[envelope.key];
    let base = if envelope.generation > before.generation {
        before.handed_to(envelope.generation)
    } else {
        before
    };
    let room = if base.window_depth >= state.policy.high_water
        && state.policy.overflow is DropOldest {
        base.drained()
    } else {
        base
    };
    flush_moves_up::<T, M>(
        ScopeState {
            delivered_through: Some(envelope.sequence),
            lifecycle: IngressLifecycle::Live,
            consecutive_errors: 0,
            ..absorbed::<T, M>(room, envelope.payload, envelope.stamped_at)
        },
    );
}

/// A delivery makes the scope live with a value and ends its error streak.
pub proof fn delivery_clears_the_error_streak<Id, T: View, M: MergePolicy<T>>(
    state: IngressState<Id, T::V>,
    envelope: IngressEnvelope<Id, T::V>,
)
    requires
        state.wf(),
        admitted::<Id, T, M>(state, envelope).2.delivered(),
    ensures
        admitted::<Id, T, M>(state, envelope).0.retry_of(envelope.key) is None,
        admitted::<Id, T, M>(state, envelope).0.value_of(envelope.key) is Some,
        admitted::<Id, T, M>(state, envelope).0.scopes[envelope.key].lifecycle is Live,
        admitted::<Id, T, M>(state, envelope).0.scopes[envelope.key].generation
            == envelope.generation,
{
    let before = met(state, envelope);
    let base = if envelope.generation > before.generation {
        before.handed_to(envelope.generation)
    } else {
        before
    };
    let room = if base.window_depth >= state.policy.high_water
        && state.policy.overflow is DropOldest {
        base.drained()
    } else {
        base
    };
    flush_moves_up::<T, M>(
        ScopeState {
            delivered_through: Some(envelope.sequence),
            lifecycle: IngressLifecycle::Live,
            consecutive_errors: 0,
            ..absorbed::<T, M>(room, envelope.payload, envelope.stamped_at)
        },
    );
}

/// Suspending and reconnecting at the same generation asks for the same replay
/// both times, keeps the value and ends the error streak.
pub proof fn suspend_then_reconnect_resumes<Id, P>(state: IngressState<Id, P>, id: Id)
    requires
        state.wf(),
        state.scopes.contains_key(id),
        !(state.scopes[id].lifecycle is Suspended),
        !(state.scopes[id].lifecycle is Closed),
    ensures
        ({
            let (suspended, _, request) = state.suspended(id);
            let (back, _, again) = suspended.reconnected(id, state.scopes[id].generation);
            &&& request == Some(again)
            &&& again == state.scopes[id].replay()
            &&& back.value_of(id) == state.value_of(id)
            &&& back.authority_of(id) == state.authority_of(id)
            &&& back.retry_of(id) is None
            &&& suspended.readiness_of(id) is Suspended
        }),
{
}

/// The backoff never exceeds the ceiling, and one more error never shortens it.
pub proof fn backoff_deepens_up_to_the_ceiling<Id, P>(
    state: IngressState<Id, P>,
    id: Id,
    error: IngressError,
)
    requires
        state.wf(),
        state.scopes.contains_key(id),
    ensures
        ({
            let after = state.failed(id, error).0.retry_of(id);
            &&& after is Some
            &&& after->0.backoff <= state.policy.retry_ceiling
            &&& state.retry_of(id) is Some ==> state.retry_of(id)->0.backoff <= after->0.backoff
        }),
{
    let before = state.scopes[id].consecutive_errors;
    if before > 0 && before < 32 {
        let low = crate::ingress_types::retry_steps(before);
        let high = crate::ingress_types::retry_steps((before + 1) as u32);
        if low < high {
            vstd::arithmetic::power2::lemma_pow2_strictly_increases(low, high);
        }
        let a = vstd::arithmetic::power2::pow2(low) as int;
        let b = vstd::arithmetic::power2::pow2(high) as int;
        let base = state.policy.retry_base as int;
        assert(base * a <= base * b) by (nonlinear_arith)
            requires
                a <= b,
                0 <= base,
        ;
    }
}

} // verus!
