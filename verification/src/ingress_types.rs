//! The vocabulary of the ingress plane: envelopes, outcomes, policies, receipts
//! and the derived views that readers see.

use vstd::prelude::*;

use crate::backoff::{backoff, clamped_backoff};
use crate::relay::Overflow;
use crate::value::{Key, Datum};

verus! {

/// How envelopes reach a scope.
#[derive(Debug, Clone, Copy, PartialEq, Eq, Structural)]
pub enum IngressTransportKind {
    /// Server-initiated delivery. Preferred.
    EventChannel,
    /// Client-initiated, triggered by an event rather than a timer.
    RpcTriggered,
    /// Client-initiated on a bounded interval. The fallback of last resort.
    BoundedPolling,
}

impl View for IngressTransportKind {
    type V = IngressTransportKind;

    open spec fn view(&self) -> IngressTransportKind {
        *self
    }
}

impl Datum for IngressTransportKind {
    fn duplicate(&self) -> (copy: Self) {
        *self
    }
}

impl Key for IngressTransportKind {
    fn same(&self, other: &Self) -> (answer: bool) {
        *self == *other
    }
}

/// When, if ever, a scope should ask the transport for more data.
#[derive(Debug, Clone, Copy, PartialEq, Eq, Structural)]
pub struct IngressSchedule {
    /// The transport this schedule was derived from.
    pub kind: IngressTransportKind,
    /// Bounded poll period, or `None` when delivery is event-driven.
    pub poll_interval: Option<u64>,
}

impl View for IngressSchedule {
    type V = IngressSchedule;

    open spec fn view(&self) -> IngressSchedule {
        *self
    }
}

impl Datum for IngressSchedule {
    fn duplicate(&self) -> (copy: Self) {
        *self
    }
}

impl IngressSchedule {
    /// The schedule of a transport kind: a poll interval only where there is no
    /// event delivery, and never zero.
    pub open spec fn of_kind(kind: IngressTransportKind, poll_interval: u64) -> Self {
        IngressSchedule {
            kind,
            poll_interval: if kind is BoundedPolling {
                Some(if poll_interval < 1 { 1 } else { poll_interval })
            } else {
                None
            },
        }
    }

    /// Derives the schedule for `kind`.
    pub fn for_kind(kind: IngressTransportKind, poll_interval: u64) -> (schedule: Self)
        ensures
            schedule == Self::of_kind(kind, poll_interval),
    {
        IngressSchedule {
            kind,
            poll_interval: match kind {
                IngressTransportKind::BoundedPolling => Some(
                    if poll_interval < 1 {
                        1
                    } else {
                        poll_interval
                    },
                ),
                IngressTransportKind::EventChannel | IngressTransportKind::RpcTriggered => None,
            },
        }
    }
}

/// A decoded source of envelopes. Implementations decode; they do not decide.
pub trait IngressTransport<K: View, T> {
    /// Everything decoded since the last drain, oldest first.
    open spec fn decoded(&self) -> Seq<IngressEnvelope<K, T>> {
        arbitrary()
    }

    /// Every replay that was asked for so far, oldest first, with whether the transport
    /// could carry the request.
    open spec fn asked(&self) -> Seq<(K::V, ReplayRequest, bool)> {
        arbitrary()
    }

    /// How this transport delivers.
    fn kind(&self) -> IngressTransportKind;

    /// Takes everything decoded since the last call. Never blocks.
    fn drain(&mut self) -> (batch: Vec<IngressEnvelope<K, T>>)
        ensures
            batch@ == old(self).decoded(),
            final(self).asked() == old(self).asked(),
    ;

    /// Asks the producer to resend from `request.from_sequence`. Returns whether
    /// the transport could carry the request.
    fn request_replay(&mut self, key: &K, request: ReplayRequest) -> (carried: bool)
        ensures
            final(self).asked() == old(self).asked().push((key@, request, carried)),
    ;
}

/// Replay requests, over key views.
pub open spec fn replay_views<K: View>(replays: Seq<(K, ReplayRequest)>) -> Seq<
    (K::V, ReplayRequest),
> {
    replays.map_values(|replay: (K, ReplayRequest)| (replay.0@, replay.1))
}

/// An in-process event channel: the reference transport.
pub struct InProcIngress<K, T> {
    kind: IngressTransportKind,
    inbound: Vec<IngressEnvelope<K, T>>,
    replays: Vec<(K, ReplayRequest)>,
    asked: Ghost<Seq<(K, ReplayRequest, bool)>>,
}

impl<K, T> InProcIngress<K, T> {
    /// How this channel delivers.
    pub closed spec fn delivers_as(&self) -> IngressTransportKind {
        self.kind
    }

    /// What is queued for the next drain, oldest first.
    pub closed spec fn queued(&self) -> Seq<IngressEnvelope<K, T>> {
        self.inbound@
    }

    /// The replay requests that were observed, oldest first.
    pub closed spec fn observed(&self) -> Seq<(K, ReplayRequest)> {
        self.replays@
    }

    /// Every replay that was asked for, oldest first, with whether it was observed.
    pub closed spec fn requests(&self) -> Seq<(K, ReplayRequest, bool)> {
        self.asked@
    }

    /// An empty channel delivering as `kind`.
    pub fn new(kind: IngressTransportKind) -> (channel: Self)
        ensures
            channel.delivers_as() == kind,
            channel.queued() == Seq::<IngressEnvelope<K, T>>::empty(),
            channel.observed() == Seq::<(K, ReplayRequest)>::empty(),
            channel.requests() == Seq::<(K, ReplayRequest, bool)>::empty(),
    {
        InProcIngress {
            kind,
            inbound: Vec::new(),
            replays: Vec::new(),
            asked: Ghost(Seq::empty()),
        }
    }

    /// Queues one envelope for the next drain.
    pub fn push(&mut self, envelope: IngressEnvelope<K, T>)
        ensures
            final(self).delivers_as() == old(self).delivers_as(),
            final(self).queued() == old(self).queued().push(envelope),
            final(self).observed() == old(self).observed(),
            final(self).requests() == old(self).requests(),
    {
        self.inbound.push(envelope);
    }

    /// Replay requests observed so far, oldest first.
    pub fn replays(&self) -> (requests: &[(K, ReplayRequest)])
        ensures
            requests@ == self.observed(),
    {
        self.replays.as_slice()
    }
}

impl<K: Datum, T> IngressTransport<K, T> for InProcIngress<K, T> {
    open spec fn decoded(&self) -> Seq<IngressEnvelope<K, T>> {
        self.queued()
    }

    open spec fn asked(&self) -> Seq<(K::V, ReplayRequest, bool)> {
        self.requests().map_values(
            |request: (K, ReplayRequest, bool)| (request.0@, request.1, request.2),
        )
    }

    fn kind(&self) -> (kind: IngressTransportKind)
        ensures
            kind == self.delivers_as(),
    {
        self.kind
    }

    fn drain(&mut self) -> (batch: Vec<IngressEnvelope<K, T>>)
        ensures
            final(self).queued() == Seq::<IngressEnvelope<K, T>>::empty(),
            final(self).delivers_as() == old(self).delivers_as(),
            final(self).observed() == old(self).observed(),
    {
        let mut batch: Vec<IngressEnvelope<K, T>> = Vec::new();
        batch.append(&mut self.inbound);
        proof {
            assert(batch@ =~= old(self).queued());
        }
        batch
    }

    fn request_replay(&mut self, key: &K, request: ReplayRequest) -> (carried: bool)
        ensures
            final(self).delivers_as() == old(self).delivers_as(),
            final(self).queued() == old(self).queued(),
            carried == !(old(self).delivers_as() is BoundedPolling),
            replay_views(final(self).observed()) == if carried {
                replay_views(old(self).observed()).push((key@, request))
            } else {
                replay_views(old(self).observed())
            },
    {
        let carried = self.kind != IngressTransportKind::BoundedPolling;
        proof {
            self.asked@ = self.asked@.push((*key, request, carried));
            assert(self.asked() =~= old(self).asked().push((key@, request, carried)));
        }
        // A bounded poll has no addressable history, so it cannot honour a replay.
        if !carried {
            return false;
        }
        self.replays.push((key.duplicate(), request));
        proof {
            assert(replay_views(self.observed()) =~= replay_views(old(self).observed()).push(
                (key@, request),
            ));
        }
        true
    }
}

/// One decoded inbound message, with the provenance that admission needs.
#[derive(Debug, Clone, PartialEq, Eq)]
pub struct IngressEnvelope<K, T> {
    /// Scope this envelope belongs to.
    pub key: K,
    /// Producer incarnation. A higher value fences lower ones.
    pub generation: u64,
    /// Position within `generation`, starting at 0.
    pub sequence: u64,
    /// Producer's logical timestamp.
    pub stamped_at: u64,
    /// The decoded payload.
    pub payload: T,
}

impl<K: View, T: View> View for IngressEnvelope<K, T> {
    type V = IngressEnvelope<K::V, T::V>;

    open spec fn view(&self) -> IngressEnvelope<K::V, T::V> {
        IngressEnvelope {
            key: self.key@,
            generation: self.generation,
            sequence: self.sequence,
            stamped_at: self.stamped_at,
            payload: self.payload@,
        }
    }
}

impl<K, T> IngressEnvelope<K, T> {
    /// An envelope at `generation`/`sequence` stamped `stamped_at`.
    pub fn new(key: K, generation: u64, sequence: u64, stamped_at: u64, payload: T) -> (envelope:
        Self)
        ensures
            envelope == (IngressEnvelope { key, generation, sequence, stamped_at, payload }),
    {
        IngressEnvelope { key, generation, sequence, stamped_at, payload }
    }
}

/// Why an envelope was refused. Every variant is a decision, not a failure.
#[derive(Debug, Clone, Copy, PartialEq, Eq, Structural)]
pub enum IngressDropReason {
    /// `generation` is below the scope's fence.
    StaleGeneration,
    /// `sequence` was already delivered in this generation.
    DuplicateSequence,
    /// `sequence` is already in the reorder buffer.
    DuplicateBuffered,
    /// The reorder buffer is full and this envelope does not fill the gap.
    ReorderWindowOverflow,
    /// The envelope is older than the freshness horizon.
    Expired,
    /// The hot window is at its high-water mark under a bounding policy.
    Backpressure,
    /// The scope is closed.
    ScopeClosed,
}

/// A transport- or decode-level failure attributed to a scope.
#[derive(Debug, Clone, Copy, PartialEq, Eq, Structural)]
pub enum IngressError {
    /// The transport closed or reset.
    TransportClosed,
    /// The frame could not be decoded.
    DecodeFailed,
    /// The producer reported that our generation is no longer authoritative.
    AuthorityLost,
}

/// The outcome of admitting one envelope.
#[derive(Debug, Clone, Copy, PartialEq, Eq, Structural)]
pub enum IngressAdmission {
    /// Delivered in order, and the window holds exactly this one op.
    Accepted {
        /// Highest in-order sequence now delivered.
        delivered_through: u64,
    },
    /// Delivered in order and coalesced with at least one other op.
    Conflated {
        /// Highest in-order sequence now delivered.
        delivered_through: u64,
    },
    /// Held pending an earlier sequence. Nothing is visible yet.
    Buffered {
        /// The first sequence still missing.
        gap_from: u64,
    },
    /// A newer producer incarnation took over and the envelope was delivered.
    GenerationHandoff {
        /// The fence that was held.
        from: u64,
        /// The fence that is held now.
        to: u64,
    },
    /// Refused, with the reason receipted.
    Dropped(IngressDropReason),
    /// Refused by [`Overflow::Block`]; the producer must retry after a drain.
    Blocked,
}

impl IngressAdmission {
    /// Whether the envelope became visible to readers.
    pub open spec fn delivered(self) -> bool {
        self is Accepted || self is Conflated || self is GenerationHandoff
    }

    /// Whether the envelope became visible to readers.
    pub fn is_delivered(&self) -> (answer: bool)
        ensures
            answer == self.delivered(),
    {
        matches!(
            self,
            IngressAdmission::Accepted { .. } | IngressAdmission::Conflated { .. }
                | IngressAdmission::GenerationHandoff { .. }
        )
    }
}

/// Where a scope is in its lifecycle.
#[derive(Debug, Clone, Copy, PartialEq, Eq, Structural)]
pub enum IngressLifecycle {
    /// Opened, nothing delivered yet.
    Opening,
    /// Delivering.
    Live,
    /// Disconnected but retained: state and cursors survive for replay.
    Suspended,
    /// Terminal until reopened. Admits nothing.
    Closed,
}

/// The derived answer to "can a consumer trust this scope right now?".
#[derive(Debug, Clone, Copy, PartialEq, Eq, Structural)]
pub enum IngressReadiness {
    /// No such scope.
    Unknown,
    /// Open, nothing delivered yet.
    Warming,
    /// Delivered and inside the freshness horizon.
    Ready,
    /// Delivered, but the newest accepted stamp is older than the horizon.
    Stale,
    /// Disconnected; retained state may be replayed.
    Suspended,
    /// Terminal.
    Closed,
}

impl View for IngressReadiness {
    type V = IngressReadiness;

    open spec fn view(&self) -> IngressReadiness {
        *self
    }
}

impl Datum for IngressReadiness {
    fn duplicate(&self) -> (copy: Self) {
        *self
    }
}

/// The fence and the in-order watermark that a replay must resume from.
#[derive(Debug, Clone, Copy, PartialEq, Eq, Structural)]
pub struct IngressAuthority {
    /// The generation fence currently held.
    pub generation: u64,
    /// Highest in-order sequence delivered, or `None` before first delivery.
    pub delivered_through: Option<u64>,
    /// Producer stamp of the newest delivered envelope.
    pub stamped_at: u64,
}

/// The derived retry decision for a scope that has errored.
#[derive(Debug, Clone, Copy, PartialEq, Eq, Structural)]
pub struct IngressRetry {
    /// Consecutive errors since the last delivery.
    pub attempt: u32,
    /// Exponential backoff, clamped to the policy ceiling.
    pub backoff: u64,
    /// Sequence a replay should resume from.
    pub resume_from: u64,
}

/// What a reconnect needs from the transport to close its gap.
#[derive(Debug, Clone, Copy, PartialEq, Eq, Structural)]
pub struct ReplayRequest {
    /// The generation being resumed.
    pub generation: u64,
    /// First sequence the consumer has not delivered.
    pub from_sequence: u64,
}

/// Bounds and taxes.
#[derive(Debug, Clone, Copy, PartialEq, Eq, Structural)]
pub struct IngressPolicy {
    /// How many out-of-order envelopes may be held per scope.
    pub reorder_window: usize,
    /// Age above which a scope is stale and an arriving envelope is expired.
    pub freshness_horizon: u64,
    /// Merged-op count at which `overflow` engages.
    pub high_water: u64,
    /// What to do at `high_water`.
    pub overflow: Overflow,
    /// Retained receipts, oldest evicted first.
    pub receipt_capacity: usize,
    /// First retry backoff; doubles per consecutive error.
    pub retry_base: u64,
    /// Backoff clamp.
    pub retry_ceiling: u64,
}

impl Default for IngressPolicy {
    fn default() -> (policy: Self)
        ensures
            policy == (IngressPolicy {
                reorder_window: 8,
                freshness_horizon: 1_000,
                high_water: 64,
                overflow: Overflow::Conflate,
                receipt_capacity: 256,
                retry_base: 10,
                retry_ceiling: 10_000,
            }),
    {
        IngressPolicy {
            reorder_window: 8,
            freshness_horizon: 1_000,
            high_water: 64,
            overflow: Overflow::Conflate,
            receipt_capacity: 256,
            retry_base: 10,
            retry_ceiling: 10_000,
        }
    }
}

/// Why a policy was refused at construction time.
#[derive(Debug, Clone, Copy, PartialEq, Eq, Structural)]
pub enum IngressConfigError {
    /// [`Overflow::Conflate`] chosen for a non-conflating merge policy.
    ConflateNotBounding,
    /// A zero receipt capacity would discard every receipt it just minted.
    ZeroReceiptCapacity,
}

/// Which receipt channel a receipt belongs to.
#[derive(Debug, Clone, Copy, PartialEq, Eq, Structural)]
pub enum IngressReceiptChannel {
    /// Delivered.
    Accepted,
    /// Refused by a decision.
    Dropped,
    /// Could not be decided.
    Error,
}

/// The decision a receipt records.
#[derive(Debug, Clone, Copy, PartialEq, Eq, Structural)]
pub enum IngressReceiptOutcome {
    /// Delivered, with the resulting watermark.
    Accepted {
        /// Highest in-order sequence delivered after this envelope.
        delivered_through: u64,
        /// Whether the payload coalesced into a non-empty window.
        conflated: bool,
    },
    /// Refused by a decision.
    Dropped(IngressDropReason),
    /// Could not be decided.
    Error(IngressError),
}

/// One durable record of an admission decision.
#[derive(Debug, Clone, PartialEq, Eq)]
pub struct IngressReceipt<K> {
    /// Monotone receipt offset, stable across eviction.
    pub offset: u64,
    /// Scope the decision was made for.
    pub key: K,
    /// Generation the decision was made under.
    pub generation: u64,
    /// Sequence the decision was made for, when there was one.
    pub sequence: Option<u64>,
    /// The decision.
    pub outcome: IngressReceiptOutcome,
}

impl<K: View> View for IngressReceipt<K> {
    type V = IngressReceipt<K::V>;

    open spec fn view(&self) -> IngressReceipt<K::V> {
        IngressReceipt {
            offset: self.offset,
            key: self.key@,
            generation: self.generation,
            sequence: self.sequence,
            outcome: self.outcome,
        }
    }
}

impl<K: Datum> Datum for IngressReceipt<K> {
    fn duplicate(&self) -> (copy: Self) {
        IngressReceipt {
            offset: self.offset,
            key: self.key.duplicate(),
            generation: self.generation,
            sequence: self.sequence,
            outcome: self.outcome,
        }
    }
}

impl<K> IngressReceipt<K> {
    /// The channel this receipt is read from.
    pub open spec fn on(&self) -> IngressReceiptChannel {
        match self.outcome {
            IngressReceiptOutcome::Accepted { .. } => IngressReceiptChannel::Accepted,
            IngressReceiptOutcome::Dropped(_) => IngressReceiptChannel::Dropped,
            IngressReceiptOutcome::Error(_) => IngressReceiptChannel::Error,
        }
    }

    /// The channel this receipt is read from.
    pub fn channel(&self) -> (channel: IngressReceiptChannel)
        ensures
            channel == self.on(),
    {
        match self.outcome {
            IngressReceiptOutcome::Accepted { .. } => IngressReceiptChannel::Accepted,
            IngressReceiptOutcome::Dropped(_) => IngressReceiptChannel::Dropped,
            IngressReceiptOutcome::Error(_) => IngressReceiptChannel::Error,
        }
    }
}

/// Which of a scope's reader kinds a transition dirtied.
#[derive(Debug, Clone, Copy, PartialEq, Eq, Structural)]
pub struct IngressScopeChange {
    /// The coalesced window changed.
    pub value: bool,
    /// [`IngressReadiness`] changed.
    pub readiness: bool,
    /// [`IngressAuthority`] changed.
    pub authority: bool,
    /// [`IngressRetry`] changed.
    pub retry: bool,
}

impl Default for IngressScopeChange {
    fn default() -> (change: Self)
        ensures
            change == Self::nothing(),
    {
        IngressScopeChange { value: false, readiness: false, authority: false, retry: false }
    }
}

impl IngressScopeChange {
    /// No reader kind.
    pub open spec fn nothing() -> Self {
        IngressScopeChange { value: false, readiness: false, authority: false, retry: false }
    }

    /// Whether some reader kind is dirty.
    pub open spec fn some(self) -> bool {
        self.value || self.readiness || self.authority || self.retry
    }

    /// What the first appearance of a scope moves.
    pub open spec fn appearance() -> Self {
        IngressScopeChange { value: false, readiness: true, authority: true, retry: false }
    }

    /// Every reader kind that either marks.
    pub open spec fn joined(self, other: Self) -> Self {
        IngressScopeChange {
            value: self.value || other.value,
            readiness: self.readiness || other.readiness,
            authority: self.authority || other.authority,
            retry: self.retry || other.retry,
        }
    }

    /// Nothing changed.
    pub fn is_empty(&self) -> (answer: bool)
        ensures
            answer == !self.some(),
    {
        !(self.value || self.readiness || self.authority || self.retry)
    }

    /// Every reader kind.
    pub fn all() -> (change: Self)
        ensures
            change == (IngressScopeChange {
                value: true,
                readiness: true,
                authority: true,
                retry: true,
            }),
    {
        IngressScopeChange { value: true, readiness: true, authority: true, retry: true }
    }

    /// Readiness alone.
    pub fn readiness_only() -> (change: Self)
        ensures
            change == (IngressScopeChange {
                value: false,
                readiness: true,
                authority: false,
                retry: false,
            }),
    {
        IngressScopeChange { value: false, readiness: true, authority: false, retry: false }
    }

    /// The value alone.
    pub fn value_only() -> (change: Self)
        ensures
            change == (IngressScopeChange {
                value: true,
                readiness: false,
                authority: false,
                retry: false,
            }),
    {
        IngressScopeChange { value: true, readiness: false, authority: false, retry: false }
    }

    /// Retry alone.
    pub fn retry_only() -> (change: Self)
        ensures
            change == (IngressScopeChange {
                value: false,
                readiness: false,
                authority: false,
                retry: true,
            }),
    {
        IngressScopeChange { value: false, readiness: false, authority: false, retry: true }
    }

    /// What the first appearance of a scope moves: readiness and authority.
    pub fn creation() -> (change: Self)
        ensures
            change == Self::appearance(),
    {
        IngressScopeChange { value: false, readiness: true, authority: true, retry: false }
    }

    /// Every reader kind that either marks.
    pub fn union(self, other: Self) -> (change: Self)
        ensures
            change == self.joined(other),
    {
        IngressScopeChange {
            value: self.value || other.value,
            readiness: self.readiness || other.readiness,
            authority: self.authority || other.authority,
            retry: self.retry || other.retry,
        }
    }
}

/// The invalidation set of one transition, over views.
#[verifier::ext_equal]
pub struct IngressMarks<Id> {
    /// Per-scope dirty reader kinds, in transition order.
    pub scopes: Seq<(Id, IngressScopeChange)>,
    /// The accepted-receipt reader moved.
    pub accepted_receipts: bool,
    /// The dropped-receipt reader moved.
    pub dropped_receipts: bool,
    /// The error-receipt reader moved.
    pub error_receipts: bool,
}

impl<Id> IngressMarks<Id> {
    /// Nothing is dirty.
    pub open spec fn none() -> Self {
        IngressMarks {
            scopes: Seq::empty(),
            accepted_receipts: false,
            dropped_receipts: false,
            error_receipts: false,
        }
    }

    /// With one more scope marked, if the change is not empty.
    pub open spec fn marked(self, id: Id, change: IngressScopeChange) -> Self {
        if change.some() {
            IngressMarks { scopes: self.scopes.push((id, change)), ..self }
        } else {
            self
        }
    }

    /// With one receipt channel marked.
    pub open spec fn on_channel(self, channel: IngressReceiptChannel) -> Self {
        match channel {
            IngressReceiptChannel::Accepted => IngressMarks { accepted_receipts: true, ..self },
            IngressReceiptChannel::Dropped => IngressMarks { dropped_receipts: true, ..self },
            IngressReceiptChannel::Error => IngressMarks { error_receipts: true, ..self },
        }
    }

    /// Whether a scope's value reader is dirty.
    pub open spec fn marks_value(self, id: Id) -> bool {
        exists|i: int|
            0 <= i < self.scopes.len() && (#[trigger] self.scopes[i]).0 == id
                && self.scopes[i].1.value
    }

    /// Whether a scope's readiness reader is dirty.
    pub open spec fn marks_readiness(self, id: Id) -> bool {
        exists|i: int|
            0 <= i < self.scopes.len() && (#[trigger] self.scopes[i]).0 == id
                && self.scopes[i].1.readiness
    }

    /// Whether a scope's authority reader is dirty.
    pub open spec fn marks_authority(self, id: Id) -> bool {
        exists|i: int|
            0 <= i < self.scopes.len() && (#[trigger] self.scopes[i]).0 == id
                && self.scopes[i].1.authority
    }

    /// Whether a scope's retry reader is dirty.
    pub open spec fn marks_retry(self, id: Id) -> bool {
        exists|i: int|
            0 <= i < self.scopes.len() && (#[trigger] self.scopes[i]).0 == id
                && self.scopes[i].1.retry
    }

    /// Whether anything is dirty.
    pub open spec fn some(self) -> bool {
        self.scopes.len() > 0 || self.accepted_receipts || self.dropped_receipts
            || self.error_receipts
    }
}

/// The invalidation set of one transition.
#[derive(Debug, Clone, PartialEq, Eq)]
pub struct IngressChange<K> {
    /// Per-scope dirty reader kinds, in transition order.
    pub scopes: Vec<(K, IngressScopeChange)>,
    /// The accepted-receipt reader moved.
    pub accepted_receipts: bool,
    /// The dropped-receipt reader moved.
    pub dropped_receipts: bool,
    /// The error-receipt reader moved.
    pub error_receipts: bool,
}

impl<K: View> View for IngressChange<K> {
    type V = IngressMarks<K::V>;

    open spec fn view(&self) -> IngressMarks<K::V> {
        IngressMarks {
            scopes: self.scopes@.map_values(|mark: (K, IngressScopeChange)| (mark.0@, mark.1)),
            accepted_receipts: self.accepted_receipts,
            dropped_receipts: self.dropped_receipts,
            error_receipts: self.error_receipts,
        }
    }
}

impl<K: View> Default for IngressChange<K> {
    fn default() -> (change: Self)
        ensures
            change@ == IngressMarks::<K::V>::none(),
    {
        let change = IngressChange {
            scopes: Vec::new(),
            accepted_receipts: false,
            dropped_receipts: false,
            error_receipts: false,
        };
        proof {
            assert(change@ =~= IngressMarks::<K::V>::none());
        }
        change
    }
}

impl<K: View> IngressChange<K> {
    /// Whether this transition dirtied nothing at all.
    pub fn is_empty(&self) -> (answer: bool)
        ensures
            answer == !self@.some(),
    {
        self.scopes.is_empty() && !self.accepted_receipts && !self.dropped_receipts
            && !self.error_receipts
    }

    /// Marks a scope, unless the change is empty.
    pub fn mark(&mut self, key: K, change: IngressScopeChange)
        ensures
            final(self)@ == old(self)@.marked(key@, change),
    {
        if !change.is_empty() {
            self.scopes.push((key, change));
        }
        proof {
            assert(self@ =~= old(self)@.marked(key@, change));
        }
    }

    /// Marks a receipt channel.
    pub fn mark_channel(&mut self, channel: IngressReceiptChannel)
        ensures
            final(self)@ == old(self)@.on_channel(channel),
    {
        match channel {
            IngressReceiptChannel::Accepted => {
                self.accepted_receipts = true;
            },
            IngressReceiptChannel::Dropped => {
                self.dropped_receipts = true;
            },
            IngressReceiptChannel::Error => {
                self.error_receipts = true;
            },
        }
    }
}

/// Read-only projection of one scope, from which every derive is computed.
#[derive(Debug, Clone, Copy, PartialEq, Eq, Structural)]
pub struct ScopeView {
    /// Lifecycle position.
    pub lifecycle: IngressLifecycle,
    /// Generation fence.
    pub generation: u64,
    /// In-order watermark.
    pub delivered_through: Option<u64>,
    /// Producer stamp of the newest delivered envelope.
    pub stamped_at: u64,
    /// Buffered out-of-order envelopes.
    pub buffered: usize,
    /// Merged ops in the hot window.
    pub window_depth: u64,
    /// Consecutive errors since the last delivery.
    pub consecutive_errors: u32,
    /// Logical now, as of the last tick.
    pub observed_now: u64,
    /// Bounds in force.
    pub policy: IngressPolicy,
}

/// The first sequence that follows a watermark.
pub open spec fn after_watermark(delivered_through: Option<u64>) -> int {
    match delivered_through {
        Some(sequence) => sequence + 1,
        None => 0,
    }
}

/// Whether `stamped_at` is within `horizon` of `now`.
pub open spec fn within_horizon(now: u64, stamped_at: u64, horizon: u64) -> bool {
    now - stamped_at <= horizon
}

/// How many doublings an error streak has earned.
pub open spec fn retry_steps(errors: u32) -> nat {
    if errors >= 32 {
        31
    } else {
        (errors - 1) as nat
    }
}

impl ScopeView {
    /// Whether the newest delivered stamp is inside the freshness horizon.
    pub open spec fn fresh(self) -> bool {
        within_horizon(self.observed_now, self.stamped_at, self.policy.freshness_horizon)
    }

    /// Derived readiness.
    pub open spec fn ready(self) -> IngressReadiness {
        match self.lifecycle {
            IngressLifecycle::Closed => IngressReadiness::Closed,
            IngressLifecycle::Suspended => IngressReadiness::Suspended,
            IngressLifecycle::Opening => IngressReadiness::Warming,
            IngressLifecycle::Live => if self.delivered_through is None {
                IngressReadiness::Warming
            } else if self.fresh() {
                IngressReadiness::Ready
            } else {
                IngressReadiness::Stale
            },
        }
    }

    /// Derived authority: a closed scope claims none.
    pub open spec fn claims(self) -> Option<IngressAuthority> {
        if self.lifecycle is Closed {
            None
        } else {
            Some(
                IngressAuthority {
                    generation: self.generation,
                    delivered_through: self.delivered_through,
                    stamped_at: self.stamped_at,
                },
            )
        }
    }

    /// Derived retry: nothing while no error is outstanding.
    pub open spec fn retries(self) -> Option<IngressRetry> {
        if self.consecutive_errors == 0 {
            None
        } else {
            Some(
                IngressRetry {
                    attempt: self.consecutive_errors,
                    backoff: clamped_backoff(
                        self.policy.retry_base,
                        retry_steps(self.consecutive_errors),
                        self.policy.retry_ceiling,
                    ) as u64,
                    resume_from: after_watermark(self.delivered_through) as u64,
                },
            )
        }
    }

    /// Whether the newest delivered stamp is inside the freshness horizon.
    pub fn is_fresh(&self) -> (answer: bool)
        ensures
            answer == self.fresh(),
    {
        self.observed_now.saturating_sub(self.stamped_at) <= self.policy.freshness_horizon
    }

    /// Derived readiness. A scope that has never delivered is warming, not stale:
    /// there is no stamp to be old.
    pub fn readiness(&self) -> (readiness: IngressReadiness)
        ensures
            readiness == self.ready(),
    {
        match self.lifecycle {
            IngressLifecycle::Closed => IngressReadiness::Closed,
            IngressLifecycle::Suspended => IngressReadiness::Suspended,
            IngressLifecycle::Opening => IngressReadiness::Warming,
            IngressLifecycle::Live => {
                if self.delivered_through.is_none() {
                    IngressReadiness::Warming
                } else if self.is_fresh() {
                    IngressReadiness::Ready
                } else {
                    IngressReadiness::Stale
                }
            },
        }
    }

    /// Derived authority. A closed scope claims none.
    pub fn authority(&self) -> (authority: Option<IngressAuthority>)
        ensures
            authority == self.claims(),
    {
        if self.lifecycle == IngressLifecycle::Closed {
            return None;
        }
        Some(
            IngressAuthority {
                generation: self.generation,
                delivered_through: self.delivered_through,
                stamped_at: self.stamped_at,
            },
        )
    }

    /// The first sequence not yet delivered in order.
    pub fn resume_from(&self) -> (sequence: u64)
        requires
            self.delivered_through != Some(u64::MAX),
        ensures
            sequence == after_watermark(self.delivered_through),
    {
        match self.delivered_through {
            Some(sequence) => sequence + 1,
            None => 0,
        }
    }

    /// Whether the scope is holding a gap open.
    pub fn has_gap(&self) -> (answer: bool)
        ensures
            answer == (self.buffered > 0),
    {
        self.buffered > 0
    }

    /// Derived retry. `None` while no error is outstanding.
    pub fn retry(&self) -> (retry: Option<IngressRetry>)
        requires
            self.delivered_through != Some(u64::MAX),
        ensures
            retry == self.retries(),
    {
        if self.consecutive_errors == 0 {
            return None;
        }
        let streak: u32 = self.consecutive_errors - 1;
        let steps: u32 = if streak < 31 {
            streak
        } else {
            31
        };
        Some(
            IngressRetry {
                attempt: self.consecutive_errors,
                backoff: backoff(self.policy.retry_base, steps, self.policy.retry_ceiling),
                resume_from: self.resume_from(),
            },
        )
    }
}

} // verus!
