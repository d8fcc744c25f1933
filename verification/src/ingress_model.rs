//! The mathematical model of the ingress plane: what each transition does to the
//! scopes, the receipt log and the invalidation set.

use vstd::prelude::*;

use crate::ingress_types::{
    IngressAdmission, IngressAuthority, IngressDropReason, IngressEnvelope, IngressError,
    IngressLifecycle, IngressMarks, IngressPolicy, IngressReadiness, IngressReceipt,
    IngressReceiptChannel, IngressReceiptOutcome, IngressRetry, IngressScopeChange, ReplayRequest,
    ScopeView, after_watermark, within_horizon,
};
use crate::merge::MergePolicy;

verus! {

/// One keyed scope, over payload views.
#[verifier::ext_equal]
pub struct ScopeState<P> {
    /// Lifecycle position.
    pub lifecycle: IngressLifecycle,
    /// Generation fence.
    pub generation: u64,
    /// In-order watermark.
    pub delivered_through: Option<u64>,
    /// Producer stamp of the newest delivered envelope.
    pub stamped_at: u64,
    /// Out-of-order envelopes by sequence: payload and stamp.
    pub pending: Map<u64, (P, u64)>,
    /// The coalesced window awaiting drain.
    pub window: Option<P>,
    /// Merged ops in the window.
    pub window_depth: u64,
    /// Consecutive errors since the last delivery.
    pub consecutive_errors: u32,
}

/// What the admission algebra decided for one envelope.
pub enum Decision {
    /// Refused for a reason.
    Refuse(IngressDropReason),
    /// Refused until a drain.
    Block,
    /// Parked behind a gap.
    Buffered {
        /// The first sequence still missing.
        gap_from: u64,
    },
    /// Delivered.
    Delivered {
        /// The watermark after the delivery.
        delivered_through: u64,
        /// Whether more than one op is in the window.
        conflated: bool,
        /// The fence before and after, where it moved.
        handoff: Option<(u64, u64)>,
    },
}

impl<P> ScopeState<P> {
    /// A scope that was just opened.
    pub open spec fn opening(generation: u64) -> Self {
        ScopeState {
            lifecycle: IngressLifecycle::Opening,
            generation,
            delivered_through: None,
            stamped_at: 0,
            pending: Map::empty(),
            window: None,
            window_depth: 0,
            consecutive_errors: 0,
        }
    }

    /// The next sequence in order.
    pub open spec fn next_expected(self) -> int {
        after_watermark(self.delivered_through)
    }

    /// The lifecycle of a scope that is connected.
    pub open spec fn connected(self) -> IngressLifecycle {
        if self.delivered_through is Some {
            IngressLifecycle::Live
        } else {
            IngressLifecycle::Opening
        }
    }

    /// The projection that readers derive from.
    pub open spec fn projected(self, now: u64, policy: IngressPolicy) -> ScopeView {
        ScopeView {
            lifecycle: self.lifecycle,
            generation: self.generation,
            delivered_through: self.delivered_through,
            stamped_at: self.stamped_at,
            buffered: self.pending.len() as usize,
            window_depth: self.window_depth,
            consecutive_errors: self.consecutive_errors,
            observed_now: now,
            policy,
        }
    }

    /// What every reachable scope satisfies under a policy: the reorder buffer is
    /// within its bound and holds only what is beyond the next sequence, every
    /// sequence has a successor, and the depth counts an existing window.
    pub open spec fn wf(self, policy: IngressPolicy) -> bool {
        &&& self.delivered_through != Some(u64::MAX)
        &&& self.pending.dom().finite()
        &&& self.pending.len() <= policy.reorder_window
        &&& forall|sequence: u64| #[trigger]
            self.pending.contains_key(sequence) ==> self.next_expected() < sequence < u64::MAX
        &&& self.window is Some <==> self.window_depth > 0
        &&& self.lifecycle is Closed ==> self.window is None && self.pending.len() == 0
    }

    /// A baseline reset for a new producer incarnation.
    pub open spec fn handed_to(self, generation: u64) -> Self {
        ScopeState {
            generation,
            delivered_through: None,
            pending: Map::empty(),
            window: None,
            window_depth: 0,
            ..self
        }
    }

    /// Reopened at `generation`: a closed scope starts over, another keeps its
    /// watermark unless the generation is newer.
    pub open spec fn reopened(self, generation: u64) -> Self {
        if self.lifecycle is Closed {
            Self::opening(generation)
        } else if generation > self.generation {
            ScopeState {
                lifecycle: self.connected(),
                generation,
                delivered_through: None,
                pending: Map::empty(),
                ..self
            }
        } else {
            ScopeState { lifecycle: self.connected(), ..self }
        }
    }

    /// Reconnected at `generation`, with the error streak cleared.
    pub open spec fn reconnected(self, generation: u64) -> Self {
        let base = if generation > self.generation {
            self.handed_to(generation)
        } else {
            self
        };
        ScopeState { lifecycle: base.connected(), consecutive_errors: 0, ..base }
    }

    /// Closed: nothing is held any more, the watermark stays.
    pub open spec fn closed(self) -> Self {
        ScopeState {
            lifecycle: IngressLifecycle::Closed,
            pending: Map::empty(),
            window: None,
            window_depth: 0,
            consecutive_errors: 0,
            ..self
        }
    }

    /// With one more error in the streak.
    pub open spec fn failed(self) -> Self {
        ScopeState {
            consecutive_errors: if self.consecutive_errors == u32::MAX {
                u32::MAX
            } else {
                (self.consecutive_errors + 1) as u32
            },
            ..self
        }
    }

    /// With the window taken.
    pub open spec fn drained(self) -> Self {
        ScopeState { window: None, window_depth: 0, ..self }
    }

    /// The replay that would close this scope's gap.
    pub open spec fn replay(self) -> ReplayRequest {
        ReplayRequest { generation: self.generation, from_sequence: self.next_expected() as u64 }
    }
}

/// One payload folded into the window.
pub open spec fn absorbed<T: View, M: MergePolicy<T>>(
    scope: ScopeState<T::V>,
    payload: T::V,
    stamped_at: u64,
) -> ScopeState<T::V> {
    ScopeState {
        window: Some(
            match scope.window {
                Some(current) => M::merged(current, payload),
                None => payload,
            },
        ),
        window_depth: (scope.window_depth + 1) as u64,
        stamped_at: if stamped_at > scope.stamped_at {
            stamped_at
        } else {
            scope.stamped_at
        },
        ..scope
    }
}

/// The buffered successors of the watermark, delivered in order until one is
/// missing.
pub open spec fn flushed<T: View, M: MergePolicy<T>>(scope: ScopeState<T::V>) -> ScopeState<T::V>
    decreases u64::MAX + 1 - scope.next_expected(),
{
    let next = scope.next_expected();
    if next <= u64::MAX && scope.pending.contains_key(next as u64) {
        let (payload, stamp) = scope.pending[next as u64];
        let taken = ScopeState { pending: scope.pending.remove(next as u64), ..scope };
        flushed::<T, M>(
            ScopeState {
                delivered_through: Some(next as u64),
                ..absorbed::<T, M>(taken, payload, stamp)
            },
        )
    } else {
        scope
    }
}

/// The scope after an in-order payload and everything it unblocked.
pub open spec fn delivered<T: View, M: MergePolicy<T>>(
    scope: ScopeState<T::V>,
    sequence: u64,
    stamped_at: u64,
    payload: T::V,
) -> ScopeState<T::V> {
    flushed::<T, M>(
        ScopeState {
            delivered_through: Some(sequence),
            lifecycle: IngressLifecycle::Live,
            consecutive_errors: 0,
            ..absorbed::<T, M>(scope, payload, stamped_at)
        },
    )
}

/// The admission of one envelope into one scope. The order of the cases is the
/// contract: lifecycle, generation fence, freshness, dedupe, ordering and last
/// backpressure.
pub open spec fn decided<T: View, M: MergePolicy<T>>(
    scope: ScopeState<T::V>,
    policy: IngressPolicy,
    now: u64,
    generation: u64,
    sequence: u64,
    stamped_at: u64,
    payload: T::V,
) -> (ScopeState<T::V>, Decision) {
    let newer = generation > scope.generation;
    let base = if newer {
        scope.handed_to(generation)
    } else {
        scope
    };
    let expected = base.next_expected();
    let full = base.window_depth >= policy.high_water;
    let room = if full && policy.overflow is DropOldest {
        base.drained()
    } else {
        base
    };
    let after = delivered::<T, M>(room, sequence, stamped_at, payload);
    if scope.lifecycle is Closed {
        (scope, Decision::Refuse(IngressDropReason::ScopeClosed))
    } else if generation < scope.generation {
        (scope, Decision::Refuse(IngressDropReason::StaleGeneration))
    } else if !within_horizon(now, stamped_at, policy.freshness_horizon) {
        (scope, Decision::Refuse(IngressDropReason::Expired))
    } else if sequence < expected {
        (base, Decision::Refuse(IngressDropReason::DuplicateSequence))
    } else if sequence > expected {
        if base.pending.contains_key(sequence) {
            (base, Decision::Refuse(IngressDropReason::DuplicateBuffered))
        } else if base.pending.len() >= policy.reorder_window {
            (base, Decision::Refuse(IngressDropReason::ReorderWindowOverflow))
        } else {
            (
                ScopeState { pending: base.pending.insert(sequence, (payload, stamped_at)), ..base },
                Decision::Buffered { gap_from: expected as u64 },
            )
        }
    } else if full && policy.overflow is Block {
        (base, Decision::Block)
    } else if full && policy.overflow is DropNewest {
        (base, Decision::Refuse(IngressDropReason::Backpressure))
    } else {
        (
            after,
            Decision::Delivered {
                delivered_through: after.delivered_through->0,
                conflated: room.window is Some || after.delivered_through != Some(sequence),
                handoff: if newer {
                    Some((scope.generation, generation))
                } else {
                    None
                },
            },
        )
    }
}

/// The whole plane, over key and payload views.
#[verifier::ext_equal]
#[verifier::reject_recursive_types(Id)]
pub struct IngressState<Id, P> {
    /// Bounds in force.
    pub policy: IngressPolicy,
    /// Known keys, in order of appearance.
    pub keys: Seq<Id>,
    /// What is known of each.
    pub scopes: Map<Id, ScopeState<P>>,
    /// Retained receipts, oldest first.
    pub receipts: Seq<IngressReceipt<Id>>,
    /// The offset of the next receipt.
    pub next_receipt_offset: u64,
    /// Logical now.
    pub observed_now: u64,
}

/// The receipt log with one more entry, its oldest evicted beyond the capacity.
pub open spec fn logged<Id>(
    receipts: Seq<IngressReceipt<Id>>,
    receipt: IngressReceipt<Id>,
    capacity: usize,
) -> Seq<IngressReceipt<Id>> {
    let all = receipts.push(receipt);
    if all.len() > capacity {
        all.skip(all.len() - capacity)
    } else {
        all
    }
}

impl<Id, P> IngressState<Id, P> {
    /// A plane without scopes.
    pub open spec fn initial(policy: IngressPolicy) -> Self {
        IngressState {
            policy,
            keys: Seq::empty(),
            scopes: Map::empty(),
            receipts: Seq::empty(),
            next_receipt_offset: 0,
            observed_now: 0,
        }
    }

    /// What every reachable plane satisfies.
    pub open spec fn wf(self) -> bool {
        &&& self.keys.no_duplicates()
        &&& forall|id: Id| self.keys.contains(id) <==> #[trigger] self.scopes.contains_key(id)
        &&& forall|id: Id| #[trigger]
            self.scopes.contains_key(id) ==> self.scopes[id].wf(self.policy)
        &&& 0 < self.policy.receipt_capacity
        &&& self.receipts.len() <= self.policy.receipt_capacity
        &&& self.receipts.len() <= self.next_receipt_offset
        &&& forall|i: int|
            0 <= i < self.receipts.len() ==> (#[trigger] self.receipts[i]).offset
                == self.next_receipt_offset - self.receipts.len() + i
    }

    /// The projection of a scope, if it is known.
    pub open spec fn view_of(self, id: Id) -> Option<ScopeView> {
        if self.scopes.contains_key(id) {
            Some(self.scopes[id].projected(self.observed_now, self.policy))
        } else {
            None
        }
    }

    /// The value reader of a key.
    pub open spec fn value_of(self, id: Id) -> Option<P> {
        if self.scopes.contains_key(id) {
            self.scopes[id].window
        } else {
            None
        }
    }

    /// The readiness reader of a key.
    pub open spec fn readiness_of(self, id: Id) -> IngressReadiness {
        match self.view_of(id) {
            Some(view) => view.ready(),
            None => IngressReadiness::Unknown,
        }
    }

    /// The authority reader of a key.
    pub open spec fn authority_of(self, id: Id) -> Option<IngressAuthority> {
        match self.view_of(id) {
            Some(view) => view.claims(),
            None => None,
        }
    }

    /// The retry reader of a key.
    pub open spec fn retry_of(self, id: Id) -> Option<IngressRetry> {
        match self.view_of(id) {
            Some(view) => view.retries(),
            None => None,
        }
    }

    /// The receipts on one channel, oldest first.
    pub open spec fn receipts_on(self, channel: IngressReceiptChannel) -> Seq<IngressReceipt<Id>> {
        self.receipts.filter(|receipt: IngressReceipt<Id>| receipt.on() == channel)
    }

    /// With a scope in place of what was known of its key.
    pub open spec fn with_scope(self, id: Id, scope: ScopeState<P>) -> Self {
        IngressState {
            keys: if self.keys.contains(id) {
                self.keys
            } else {
                self.keys.push(id)
            },
            scopes: self.scopes.insert(id, scope),
            ..self
        }
    }

    /// With one more receipt in the log.
    pub open spec fn with_receipt(
        self,
        id: Id,
        generation: u64,
        sequence: Option<u64>,
        outcome: IngressReceiptOutcome,
    ) -> Self {
        IngressState {
            receipts: logged(
                self.receipts,
                IngressReceipt {
                    offset: self.next_receipt_offset,
                    key: id,
                    generation,
                    sequence,
                    outcome,
                },
                self.policy.receipt_capacity,
            ),
            next_receipt_offset: (self.next_receipt_offset + 1) as u64,
            ..self
        }
    }

    /// The readiness of a scope under this plane's policy and time.
    pub open spec fn would_be_ready(self, scope: ScopeState<P>) -> IngressReadiness {
        scope.projected(self.observed_now, self.policy).ready()
    }

    /// The retry of a scope under this plane's policy.
    pub open spec fn would_retry(self, scope: ScopeState<P>) -> Option<IngressRetry> {
        scope.projected(self.observed_now, self.policy).retries()
    }

    /// With the channel of a new receipt marked, and that of the receipt which makes way
    /// for it in a full log.
    pub open spec fn logging(
        self,
        marks: IngressMarks<Id>,
        channel: IngressReceiptChannel,
    ) -> IngressMarks<Id> {
        let grown = marks.on_channel(channel);
        if self.receipts.len() == self.policy.receipt_capacity {
            grown.on_channel(self.receipts[0].on())
        } else {
            grown
        }
    }

    /// Opening (or reopening) a key.
    pub open spec fn opened(self, id: Id, generation: u64) -> (Self, IngressMarks<Id>) {
        if !self.scopes.contains_key(id) {
            (
                self.with_scope(id, ScopeState::opening(generation)),
                IngressMarks::none().marked(id, IngressScopeChange::appearance()),
            )
        } else {
            let before = self.scopes[id];
            let after = before.reopened(generation);
            (
                self.with_scope(id, after),
                if before.lifecycle == after.lifecycle && before.generation == after.generation
                    && before.delivered_through == after.delivered_through {
                    IngressMarks::none()
                } else {
                    IngressMarks::none().marked(
                        id,
                        IngressScopeChange {
                            value: false,
                            readiness: self.would_be_ready(before) != self.would_be_ready(after),
                            authority: true,
                            retry: self.would_retry(before) != self.would_retry(after),
                        },
                    )
                },
            )
        }
    }

    /// Suspending a key that is neither suspended nor closed.
    pub open spec fn suspended(self, id: Id) -> (Self, IngressMarks<Id>, Option<ReplayRequest>) {
        if self.scopes.contains_key(id) && !(self.scopes[id].lifecycle is Suspended)
            && !(self.scopes[id].lifecycle is Closed) {
            let scope = self.scopes[id];
            (
                self.with_scope(
                    id,
                    ScopeState { lifecycle: IngressLifecycle::Suspended, ..scope },
                ),
                IngressMarks::none().marked(
                    id,
                    IngressScopeChange { readiness: true, ..IngressScopeChange::nothing() },
                ),
                Some(scope.replay()),
            )
        } else {
            (self, IngressMarks::none(), None)
        }
    }

    /// Reconnecting a key, known or not.
    pub open spec fn reconnected(self, id: Id, generation: u64) -> (
        Self,
        IngressMarks<Id>,
        ReplayRequest,
    ) {
        let known = self.scopes.contains_key(id);
        let before = if known {
            self.scopes[id]
        } else {
            ScopeState::opening(generation)
        };
        let after = before.reconnected(generation);
        let newer = generation > before.generation;
        let change = IngressScopeChange {
            value: newer && before.window is Some,
            readiness: before.lifecycle != after.lifecycle,
            authority: newer || before.lifecycle is Closed,
            retry: before.consecutive_errors > 0,
        };
        (
            self.with_scope(id, after),
            IngressMarks::none().marked(
                id,
                if known {
                    change
                } else {
                    change.joined(IngressScopeChange::appearance())
                },
            ),
            after.replay(),
        )
    }

    /// Closing a key that is not closed yet.
    pub open spec fn closed(self, id: Id) -> (Self, IngressMarks<Id>) {
        if self.scopes.contains_key(id) && !(self.scopes[id].lifecycle is Closed) {
            let before = self.scopes[id];
            (
                self.with_scope(id, before.closed()),
                IngressMarks::none().marked(
                    id,
                    IngressScopeChange {
                        value: before.window is Some,
                        readiness: true,
                        authority: true,
                        retry: before.consecutive_errors > 0,
                    },
                ),
            )
        } else {
            (self, IngressMarks::none())
        }
    }

    /// Whether a key's readiness differs between two times.
    pub open spec fn crosses(self, id: Id, now: u64) -> bool {
        self.scopes[id].projected(self.observed_now, self.policy).ready()
            != self.scopes[id].projected(now, self.policy).ready()
    }

    /// Advancing logical time.
    pub open spec fn ticked(self, now: u64) -> (Self, IngressMarks<Id>) {
        (
            IngressState { observed_now: now, ..self },
            IngressMarks {
                scopes: self.keys.filter(|id: Id| self.crosses(id, now)).map_values(
                    |id: Id|
                        (
                            id,
                            IngressScopeChange { readiness: true, ..IngressScopeChange::nothing() },
                        ),
                ),
                ..IngressMarks::none()
            },
        )
    }

    /// Recording a failure against a key, known or not.
    pub open spec fn failed(self, id: Id, error: IngressError) -> (Self, IngressMarks<Id>) {
        let known = self.scopes.contains_key(id);
        let before = if known {
            self.scopes[id]
        } else {
            ScopeState::opening(0)
        };
        let change = IngressScopeChange { retry: true, ..IngressScopeChange::nothing() };
        (
            self.with_scope(id, before.failed()).with_receipt(
                id,
                before.generation,
                None,
                IngressReceiptOutcome::Error(error),
            ),
            self.logging(
                IngressMarks::none().marked(
                    id,
                    if known {
                        change
                    } else {
                        change.joined(IngressScopeChange::appearance())
                    },
                ),
                IngressReceiptChannel::Error,
            ),
        )
    }

    /// Draining a key's window.
    pub open spec fn drained(self, id: Id) -> (Self, IngressMarks<Id>, Option<P>) {
        if self.value_of(id) is Some {
            (
                self.with_scope(id, self.scopes[id].drained()),
                IngressMarks::none().marked(
                    id,
                    IngressScopeChange { value: true, ..IngressScopeChange::nothing() },
                ),
                self.value_of(id),
            )
        } else {
            (self, IngressMarks::none(), None)
        }
    }
}

/// The scope that an envelope meets: the known one, or a fresh one at the
/// envelope's generation.
pub open spec fn met<Id, P>(
    state: IngressState<Id, P>,
    envelope: IngressEnvelope<Id, P>,
) -> ScopeState<P> {
    if state.scopes.contains_key(envelope.key) {
        state.scopes[envelope.key]
    } else {
        ScopeState::opening(envelope.generation)
    }
}

/// What the plane decides for an envelope, and the scope it leaves.
pub open spec fn ruling<Id, T: View, M: MergePolicy<T>>(
    state: IngressState<Id, T::V>,
    envelope: IngressEnvelope<Id, T::V>,
) -> (ScopeState<T::V>, Decision) {
    decided::<T, M>(
        met(state, envelope),
        state.policy,
        state.observed_now,
        envelope.generation,
        envelope.sequence,
        envelope.stamped_at,
        envelope.payload,
    )
}

/// Which readers an envelope moves that is not delivered: those that a handoff reset
/// before the envelope was parked or refused.
pub open spec fn reset_change<P>(before: ScopeState<P>, after: ScopeState<P>) -> IngressScopeChange {
    IngressScopeChange {
        value: before.window is Some != after.window is Some,
        readiness: before.lifecycle != after.lifecycle || before.delivered_through is None
            != after.delivered_through is None,
        authority: before.generation != after.generation || before.delivered_through
            != after.delivered_through,
        retry: after.consecutive_errors > 0 && before.delivered_through != after.delivered_through,
    }
}

/// Which readers a parked envelope moves: those of a first appearance, or those that a
/// handoff reset.
pub open spec fn parked_change<P>(
    known: bool,
    before: ScopeState<P>,
    after: ScopeState<P>,
) -> IngressScopeChange {
    if known {
        reset_change(before, after)
    } else {
        IngressScopeChange::appearance()
    }
}

/// The admission of one envelope into the plane. A refused envelope leaves no
/// scope behind for a key that was unknown.
pub open spec fn admitted<Id, T: View, M: MergePolicy<T>>(
    state: IngressState<Id, T::V>,
    envelope: IngressEnvelope<Id, T::V>,
) -> (IngressState<Id, T::V>, IngressMarks<Id>, IngressAdmission) {
    let id = envelope.key;
    let known = state.scopes.contains_key(id);
    let before = met(state, envelope);
    let (after, decision) = ruling::<Id, T, M>(state, envelope);
    let kept = if known {
        state.with_scope(id, after)
    } else {
        state
    };
    let fence = if known {
        after.generation
    } else {
        envelope.generation
    };
    let reset = if known {
        IngressMarks::none().marked(id, reset_change(before, after))
    } else {
        IngressMarks::none()
    };
    match decision {
        Decision::Refuse(reason) => (
            kept.with_receipt(
                id,
                fence,
                Some(envelope.sequence),
                IngressReceiptOutcome::Dropped(reason),
            ),
            state.logging(reset, IngressReceiptChannel::Dropped),
            IngressAdmission::Dropped(reason),
        ),
        Decision::Block => (
            kept.with_receipt(
                id,
                fence,
                Some(envelope.sequence),
                IngressReceiptOutcome::Dropped(IngressDropReason::Backpressure),
            ),
            state.logging(reset, IngressReceiptChannel::Dropped),
            IngressAdmission::Blocked,
        ),
        Decision::Buffered { gap_from } => (
            state.with_scope(id, after),
            IngressMarks::none().marked(id, parked_change(known, before, after)),
            IngressAdmission::Buffered { gap_from },
        ),
        Decision::Delivered { delivered_through, conflated, handoff } => (
            state.with_scope(id, after).with_receipt(
                id,
                after.generation,
                Some(envelope.sequence),
                IngressReceiptOutcome::Accepted { delivered_through, conflated },
            ),
            state.logging(
                IngressMarks::none().marked(
                    id,
                    IngressScopeChange {
                        value: true,
                        readiness: true,
                        authority: true,
                        retry: true,
                    },
                ),
                IngressReceiptChannel::Accepted,
            ),
            match handoff {
                Some((from, to)) => IngressAdmission::GenerationHandoff { from, to },
                None => if conflated {
                    IngressAdmission::Conflated { delivered_through }
                } else {
                    IngressAdmission::Accepted { delivered_through }
                },
            },
        ),
    }
}

/// Whether an envelope has a sequence that a watermark can follow, or is turned away.
pub open spec fn countable<Id, T: View, M: MergePolicy<T>>(
    state: IngressState<Id, T::V>,
    envelope: IngressEnvelope<Id, T::V>,
) -> bool {
    let decision = ruling::<Id, T, M>(state, envelope).1;
    envelope.sequence < u64::MAX || decision is Refuse || decision is Block
}

/// Whether the machine's counters have room for one more admission into a scope.
pub open spec fn scope_has_room<P>(scope: ScopeState<P>) -> bool {
    scope.window_depth + scope.pending.len() < u64::MAX
}

/// Whether the machine's counters have room for one more admission under a key.
pub open spec fn has_room<Id, P>(state: IngressState<Id, P>, id: Id) -> bool {
    &&& state.next_receipt_offset < u64::MAX
    &&& state.scopes.contains_key(id) ==> scope_has_room(state.scopes[id])
}

} // verus!
