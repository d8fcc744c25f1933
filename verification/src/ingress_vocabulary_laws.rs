//! Laws of the small values that the ingress speaks in: changes, marks and outcomes.

use vstd::prelude::*;

use crate::ingress_types::{
    IngressAdmission, IngressMarks, IngressReceiptChannel, IngressScopeChange, ReplayRequest,
    after_watermark, replay_views,
};

verus! {

/// An envelope became visible exactly where it was neither parked, nor dropped, nor blocked.
pub proof fn what_is_delivered_became_visible(outcome: IngressAdmission)
    ensures
        outcome.delivered() <==> !(outcome is Buffered) && !(outcome is Dropped) && !(outcome
            is Blocked),
{
}

/// Joined changes mark what either marks; joining nothing changes nothing, and the order does
/// not matter.
pub proof fn joined_changes_mark_what_either_marks(
    one: IngressScopeChange,
    other: IngressScopeChange,
)
    ensures
        one.joined(other) == other.joined(one),
        one.joined(IngressScopeChange::nothing()) == one,
        one.joined(one) == one,
        one.joined(other).value <==> one.value || other.value,
        one.joined(other).readiness <==> one.readiness || other.readiness,
        one.joined(other).authority <==> one.authority || other.authority,
        one.joined(other).retry <==> one.retry || other.retry,
        one.joined(other).some() <==> one.some() || other.some(),
        one.some() <==> one != IngressScopeChange::nothing(),
{
}

/// The first appearance of a key moves its readiness and its authority, and nothing else.
pub proof fn appearing_moves_readiness_and_authority()
    ensures
        IngressScopeChange::appearance().readiness,
        IngressScopeChange::appearance().authority,
        !IngressScopeChange::appearance().value,
        !IngressScopeChange::appearance().retry,
        !IngressScopeChange::nothing().value,
        !IngressScopeChange::nothing().readiness,
        !IngressScopeChange::nothing().authority,
        !IngressScopeChange::nothing().retry,
{
}

/// Marking a key marks the readers that its change names, on top of what was marked; an empty
/// change marks nothing. Marking a channel marks that channel alone.
pub proof fn marks_add_up<Id>(
    marks: IngressMarks<Id>,
    id: Id,
    change: IngressScopeChange,
    other: Id,
    channel: IngressReceiptChannel,
)
    ensures
        ({
            let after = marks.marked(id, change);
            &&& after.marks_value(other) <==> marks.marks_value(other) || other == id
                && change.value
            &&& after.marks_readiness(other) <==> marks.marks_readiness(other) || other == id
                && change.readiness
            &&& after.marks_authority(other) <==> marks.marks_authority(other) || other == id
                && change.authority
            &&& after.marks_retry(other) <==> marks.marks_retry(other) || other == id
                && change.retry
            &&& after.some() <==> marks.some() || change.some()
            &&& after.accepted_receipts == marks.accepted_receipts
            &&& after.dropped_receipts == marks.dropped_receipts
            &&& after.error_receipts == marks.error_receipts
        }),
        ({
            let after = marks.on_channel(channel);
            &&& after.scopes == marks.scopes
            &&& after.some()
            &&& after.accepted_receipts <==> marks.accepted_receipts || channel
                == IngressReceiptChannel::Accepted
            &&& after.dropped_receipts <==> marks.dropped_receipts || channel
                == IngressReceiptChannel::Dropped
            &&& after.error_receipts <==> marks.error_receipts || channel
                == IngressReceiptChannel::Error
        }),
        !IngressMarks::<Id>::none().some(),
        !IngressMarks::<Id>::none().marks_value(id),
        !IngressMarks::<Id>::none().marks_readiness(id),
        !IngressMarks::<Id>::none().marks_authority(id),
        !IngressMarks::<Id>::none().marks_retry(id),
{
    let after = marks.marked(id, change);
    let last = marks.scopes.len() as int;
    if change.some() {
        assert(after.scopes[last] == (id, change));
        assert forall|i: int| 0 <= i < last implies #[trigger] after.scopes[i]
            == marks.scopes[i] by {}
        if marks.marks_value(other) {
            let i = choose|i: int|
                0 <= i < last && (#[trigger] marks.scopes[i]).0 == other && marks.scopes[i].1.value;
            assert(after.scopes[i].0 == other);
        }
        if marks.marks_readiness(other) {
            let i = choose|i: int|
                0 <= i < last && (#[trigger] marks.scopes[i]).0 == other
                    && marks.scopes[i].1.readiness;
            assert(after.scopes[i].0 == other);
        }
        if marks.marks_authority(other) {
            let i = choose|i: int|
                0 <= i < last && (#[trigger] marks.scopes[i]).0 == other
                    && marks.scopes[i].1.authority;
            assert(after.scopes[i].0 == other);
        }
        if marks.marks_retry(other) {
            let i = choose|i: int|
                0 <= i < last && (#[trigger] marks.scopes[i]).0 == other && marks.scopes[i].1.retry;
            assert(after.scopes[i].0 == other);
        }
    }
}

/// The next sequence is zero before anything was delivered, and the watermark's successor from
/// then on.
pub proof fn the_next_sequence_follows_the_watermark(through: u64)
    ensures
        after_watermark(None) == 0,
        after_watermark(Some(through)) == through + 1,
{
}

/// Replay requests are seen by their keys, in order and as they are.
pub proof fn replays_are_seen_in_order<K: View>(replays: Seq<(K, ReplayRequest)>)
    ensures
        replay_views(replays).len() == replays.len(),
        forall|i: int|
            0 <= i < replays.len() ==> (#[trigger] replay_views(replays)[i]).0 == replays[i].0@
                && replay_views(replays)[i].1 == replays[i].1,
{
}

} // verus!
