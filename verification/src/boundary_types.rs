//! The vocabulary of the boundary ingress: frames, snapshots, receipts and the
//! projection that a reactive cell publishes.

use vstd::prelude::*;

use crate::ingress_types::IngressEnvelope;
use crate::sorted_set::SortedSet;
use crate::value::{Datum, copies};

verus! {

/// Bounds for snapshot-plus-event bootstrap.
#[derive(Debug, Clone, Copy, PartialEq, Eq, Structural)]
pub struct BoundaryIngressConfig {
    /// Maximum future events retained while a snapshot or a missing cursor is in
    /// flight.
    pub max_buffered: usize,
    /// Inclusive logical-clock freshness horizon.
    pub freshness_horizon: u64,
}

impl Default for BoundaryIngressConfig {
    fn default() -> (config: Self)
        ensures
            config == (BoundaryIngressConfig { max_buffered: 64, freshness_horizon: 1_000 }),
    {
        BoundaryIngressConfig { max_buffered: 64, freshness_horizon: 1_000 }
    }
}

/// Subscription/bootstrap phase.
#[derive(Debug, Clone, Copy, PartialEq, Eq, Structural)]
pub enum BoundaryIngressPhase {
    /// No producer is attached.
    Detached,
    /// The event subscription is hot and its covering snapshot is in flight.
    Bootstrapping,
    /// Snapshot plus every contiguous successor has been applied.
    Live,
    /// A channel cursor is missing; a cold snapshot or replay is required.
    ReplayRequired,
    /// The bounded future-event buffer filled before the gap closed.
    Backpressured,
    /// The current projection is structurally invalid.
    Invalid,
}

/// Structural validation projected from source facts.
#[derive(Debug, Clone, Copy, PartialEq, Eq, Structural)]
pub enum BoundaryValidation {
    /// The current projection is structurally valid.
    Valid,
    /// The current projection is structurally invalid.
    Invalid,
}

impl View for BoundaryValidation {
    type V = BoundaryValidation;

    open spec fn view(&self) -> BoundaryValidation {
        *self
    }
}

impl Datum for BoundaryValidation {
    fn duplicate(&self) -> (copy: Self) {
        *self
    }
}

/// Derived readiness.
#[derive(Debug, Clone, Copy, PartialEq, Eq, Structural)]
pub enum BoundaryIngressReadiness {
    /// No subscription exists.
    Detached,
    /// Waiting for a covering snapshot.
    Warming,
    /// Snapshot and event cursor are contiguous and validation is green.
    Ready,
    /// A cold replay is required.
    ReplayRequired,
    /// The future-event buffer is full.
    Backpressured,
    /// Validation rejected the current projection.
    Invalid,
}

impl View for BoundaryIngressReadiness {
    type V = BoundaryIngressReadiness;

    open spec fn view(&self) -> BoundaryIngressReadiness {
        *self
    }
}

impl Datum for BoundaryIngressReadiness {
    fn duplicate(&self) -> (copy: Self) {
        *self
    }
}

/// Derived freshness.
#[derive(Debug, Clone, Copy, PartialEq, Eq, Structural)]
pub enum BoundaryFreshness {
    /// No stamped snapshot or event has been accepted.
    Unknown,
    /// Latest accepted stamp remains inside the inclusive horizon.
    Fresh,
    /// Latest accepted stamp crossed the horizon.
    Stale,
}

impl View for BoundaryFreshness {
    type V = BoundaryFreshness;

    open spec fn view(&self) -> BoundaryFreshness {
        *self
    }
}

impl Datum for BoundaryFreshness {
    fn duplicate(&self) -> (copy: Self) {
        *self
    }
}

/// Cursor authority inside one producer generation.
#[derive(Debug, Clone, Copy, PartialEq, Eq, Structural)]
pub struct BoundaryIngressAuthority {
    /// Producer incarnation.
    pub generation: u64,
    /// Latest contiguous channel cursor, absent before bootstrap.
    pub cursor: Option<u64>,
}

/// The effect intent derived from source facts. No I/O is performed here.
#[derive(Debug, Clone, Copy, PartialEq, Eq, Structural)]
pub enum BoundaryIngressEffectIntent {
    /// No subscription or replay work is currently required.
    Idle,
    /// Attach or reattach the event channel and obtain a covering snapshot.
    Subscribe {
        /// The generation to attach to.
        generation: u64,
    },
    /// Fetch a cold snapshot or replay covering `from_cursor`.
    ColdReplay {
        /// The generation to replay.
        generation: u64,
        /// The first cursor that is missing.
        from_cursor: u64,
    },
}

impl View for BoundaryIngressEffectIntent {
    type V = BoundaryIngressEffectIntent;

    open spec fn view(&self) -> BoundaryIngressEffectIntent {
        *self
    }
}

impl Datum for BoundaryIngressEffectIntent {
    fn duplicate(&self) -> (copy: Self) {
        *self
    }
}

/// One event-channel payload.
#[derive(Debug, Clone, PartialEq, Eq)]
pub enum BoundaryIngressPayload<K, T> {
    /// Feed one decoded envelope to the value plane.
    Upsert(IngressEnvelope<K, T>),
    /// Close and remove one source key.
    Remove(K),
    /// Publish a new structural-validation fact.
    Validate(BoundaryValidation),
}

impl<K: View, T: View> View for BoundaryIngressPayload<K, T> {
    type V = BoundaryIngressPayload<K::V, T::V>;

    open spec fn view(&self) -> BoundaryIngressPayload<K::V, T::V> {
        match self {
            BoundaryIngressPayload::Upsert(envelope) => BoundaryIngressPayload::Upsert(envelope@),
            BoundaryIngressPayload::Remove(key) => BoundaryIngressPayload::Remove(key@),
            BoundaryIngressPayload::Validate(validation) => BoundaryIngressPayload::Validate(
                *validation,
            ),
        }
    }
}

/// One generation-fenced event-channel frame.
#[derive(Debug, Clone, PartialEq, Eq)]
pub struct BoundaryIngressEvent<K, T> {
    /// Producer incarnation.
    pub generation: u64,
    /// Monotone channel position inside `generation`.
    pub cursor: u64,
    /// Producer logical timestamp.
    pub stamped_at: u64,
    /// Decoded payload.
    pub payload: BoundaryIngressPayload<K, T>,
}

impl<K: View, T: View> View for BoundaryIngressEvent<K, T> {
    type V = BoundaryIngressEvent<K::V, T::V>;

    open spec fn view(&self) -> BoundaryIngressEvent<K::V, T::V> {
        BoundaryIngressEvent {
            generation: self.generation,
            cursor: self.cursor,
            stamped_at: self.stamped_at,
            payload: self.payload@,
        }
    }
}

/// Covering bootstrap snapshot.
#[derive(Debug, Clone, PartialEq, Eq)]
pub struct BoundaryIngressSnapshot<K, T> {
    /// Producer incarnation.
    pub generation: u64,
    /// Last event included in the snapshot.
    pub cursor: u64,
    /// Producer logical timestamp.
    pub stamped_at: u64,
    /// Current source values, as ordinary envelopes.
    pub entries: Vec<IngressEnvelope<K, T>>,
    /// Current subscriber frontier.
    pub members: Vec<String>,
    /// Structural validation of this exact snapshot.
    pub validation: BoundaryValidation,
}

/// A covering snapshot, over views.
pub struct SnapshotFacts<Id, P> {
    /// Producer incarnation.
    pub generation: u64,
    /// Last event included in the snapshot.
    pub cursor: u64,
    /// Producer logical timestamp.
    pub stamped_at: u64,
    /// Current source values.
    pub entries: Seq<IngressEnvelope<Id, P>>,
    /// Current subscriber frontier.
    pub members: Seq<Seq<char>>,
    /// Structural validation of this exact snapshot.
    pub validation: BoundaryValidation,
}

impl<K: View, T: View> View for BoundaryIngressSnapshot<K, T> {
    type V = SnapshotFacts<K::V, T::V>;

    open spec fn view(&self) -> SnapshotFacts<K::V, T::V> {
        SnapshotFacts {
            generation: self.generation,
            cursor: self.cursor,
            stamped_at: self.stamped_at,
            entries: self.entries@.map_values(|entry: IngressEnvelope<K, T>| entry@),
            members: self.members@.map_values(|member: String| member@),
            validation: self.validation,
        }
    }
}

/// One durable, one-shot delivery frontier.
#[derive(Debug, Clone, PartialEq, Eq)]
pub struct BoundaryDeliveryReceipt {
    /// Stable idempotency key.
    pub receipt_id: String,
    /// Members captured for this delivery. Never shrinks on membership churn.
    pub targets: SortedSet<String>,
    /// Target members that projected the delivery.
    pub acknowledged: SortedSet<String>,
}

/// A delivery frontier, over views.
#[verifier::ext_equal]
pub struct DeliveryFacts {
    /// Stable idempotency key.
    pub receipt_id: Seq<char>,
    /// Members captured for this delivery.
    pub targets: Set<Seq<char>>,
    /// Target members that projected the delivery.
    pub acknowledged: Set<Seq<char>>,
}

impl DeliveryFacts {
    /// Every captured member has acknowledged, and there is at least one: empty
    /// membership is pending, never vacuously converged.
    pub open spec fn done(self) -> bool {
        self.targets != Set::<Seq<char>>::empty() && self.targets.subset_of(self.acknowledged)
    }
}

impl View for BoundaryDeliveryReceipt {
    type V = DeliveryFacts;

    open spec fn view(&self) -> DeliveryFacts {
        DeliveryFacts {
            receipt_id: self.receipt_id@,
            targets: self.targets@,
            acknowledged: self.acknowledged@,
        }
    }
}

impl BoundaryDeliveryReceipt {
    /// Both member sets are in order.
    pub open spec fn wf(&self) -> bool {
        self.targets.wf() && self.acknowledged.wf()
    }

    /// Empty membership is pending, never vacuously converged.
    pub fn converged(&self) -> (answer: bool)
        requires
            self.wf(),
        ensures
            answer == self@.done(),
    {
        !self.targets.is_empty() && self.targets.is_subset(&self.acknowledged)
    }

    /// A receipt with the same facts.
    pub fn duplicate(&self) -> (copy: Self)
        requires
            self.wf(),
        ensures
            copy.wf(),
            copy@ == self@,
    {
        BoundaryDeliveryReceipt {
            receipt_id: self.receipt_id.clone(),
            targets: self.targets.duplicate(),
            acknowledged: self.acknowledged.duplicate(),
        }
    }
}

/// Atomic observation published by a reactive cell.
#[derive(Debug, Clone, PartialEq, Eq)]
pub struct BoundaryIngressProjection<K> {
    /// Subscription phase.
    pub phase: BoundaryIngressPhase,
    /// Producer incarnation.
    pub generation: u64,
    /// Latest contiguous cursor.
    pub cursor: Option<u64>,
    /// Cursors that wait for a gap to close, ascending.
    pub buffered_cursors: Vec<u64>,
    /// Current source keys, ascending.
    pub source_keys: Vec<K>,
    /// Current members, ascending.
    pub members: Vec<String>,
    /// Structural validation.
    pub validation: BoundaryValidation,
    /// Derived freshness.
    pub freshness: BoundaryFreshness,
    /// First missing cursor, while one is missing.
    pub replay_from: Option<u64>,
    /// Frames and snapshots below the fence.
    pub stale_events: u64,
    /// The active one-shot receipt.
    pub active_delivery: Option<BoundaryDeliveryReceipt>,
    /// Advances once per observable source transaction.
    pub revision: u64,
}

/// An observation, over views.
#[verifier::ext_equal]
pub struct ProjectionFacts<Id> {
    /// Subscription phase.
    pub phase: BoundaryIngressPhase,
    /// Producer incarnation.
    pub generation: u64,
    /// Latest contiguous cursor.
    pub cursor: Option<u64>,
    /// Cursors that wait for a gap to close, ascending.
    pub buffered_cursors: Seq<u64>,
    /// Current source keys, ascending.
    pub source_keys: Seq<Id>,
    /// Current members, ascending.
    pub members: Seq<Seq<char>>,
    /// Structural validation.
    pub validation: BoundaryValidation,
    /// Derived freshness.
    pub freshness: BoundaryFreshness,
    /// First missing cursor, while one is missing.
    pub replay_from: Option<u64>,
    /// Frames and snapshots below the fence.
    pub stale_events: u64,
    /// The active one-shot receipt.
    pub active_delivery: Option<DeliveryFacts>,
    /// Advances once per observable source transaction.
    pub revision: u64,
}

impl<Id> ProjectionFacts<Id> {
    /// Derived readiness.
    pub open spec fn ready(self) -> BoundaryIngressReadiness {
        match self.phase {
            BoundaryIngressPhase::Detached => BoundaryIngressReadiness::Detached,
            BoundaryIngressPhase::Bootstrapping => BoundaryIngressReadiness::Warming,
            BoundaryIngressPhase::Live => BoundaryIngressReadiness::Ready,
            BoundaryIngressPhase::ReplayRequired => BoundaryIngressReadiness::ReplayRequired,
            BoundaryIngressPhase::Backpressured => BoundaryIngressReadiness::Backpressured,
            BoundaryIngressPhase::Invalid => BoundaryIngressReadiness::Invalid,
        }
    }

    /// Derived cursor authority: none while detached.
    pub open spec fn claims(self) -> Option<BoundaryIngressAuthority> {
        if self.phase is Detached {
            None
        } else {
            Some(BoundaryIngressAuthority { generation: self.generation, cursor: self.cursor })
        }
    }

    /// Whether the active delivery has converged.
    pub open spec fn settled(self) -> bool {
        match self.active_delivery {
            Some(receipt) => receipt.done(),
            None => false,
        }
    }

    /// Derived subscription or replay intent.
    pub open spec fn intends(self) -> BoundaryIngressEffectIntent {
        if self.phase is Bootstrapping {
            BoundaryIngressEffectIntent::Subscribe { generation: self.generation }
        } else if self.phase is ReplayRequired || self.phase is Backpressured {
            BoundaryIngressEffectIntent::ColdReplay {
                generation: self.generation,
                from_cursor: match self.replay_from {
                    Some(cursor) => cursor,
                    None => 0,
                },
            }
        } else {
            BoundaryIngressEffectIntent::Idle
        }
    }
}

impl<K: View> View for BoundaryIngressProjection<K> {
    type V = ProjectionFacts<K::V>;

    open spec fn view(&self) -> ProjectionFacts<K::V> {
        ProjectionFacts {
            phase: self.phase,
            generation: self.generation,
            cursor: self.cursor,
            buffered_cursors: self.buffered_cursors@,
            source_keys: self.source_keys@.map_values(|key: K| key@),
            members: self.members@.map_values(|member: String| member@),
            validation: self.validation,
            freshness: self.freshness,
            replay_from: self.replay_from,
            stale_events: self.stale_events,
            active_delivery: match self.active_delivery {
                Some(receipt) => Some(receipt@),
                None => None,
            },
            revision: self.revision,
        }
    }
}

impl<K: View> BoundaryIngressProjection<K> {
    /// The active receipt's member sets are in order.
    pub open spec fn wf(&self) -> bool {
        self.active_delivery matches Some(receipt) ==> receipt.wf()
    }

    /// Derived readiness.
    pub fn readiness(&self) -> (readiness: BoundaryIngressReadiness)
        ensures
            readiness == self@.ready(),
    {
        match self.phase {
            BoundaryIngressPhase::Detached => BoundaryIngressReadiness::Detached,
            BoundaryIngressPhase::Bootstrapping => BoundaryIngressReadiness::Warming,
            BoundaryIngressPhase::Live => BoundaryIngressReadiness::Ready,
            BoundaryIngressPhase::ReplayRequired => BoundaryIngressReadiness::ReplayRequired,
            BoundaryIngressPhase::Backpressured => BoundaryIngressReadiness::Backpressured,
            BoundaryIngressPhase::Invalid => BoundaryIngressReadiness::Invalid,
        }
    }

    /// Derived cursor authority.
    pub fn authority(&self) -> (authority: Option<BoundaryIngressAuthority>)
        ensures
            authority == self@.claims(),
    {
        if self.phase == BoundaryIngressPhase::Detached {
            None
        } else {
            Some(BoundaryIngressAuthority { generation: self.generation, cursor: self.cursor })
        }
    }

    /// Derived delivery convergence for the active one-shot receipt.
    pub fn delivery_converged(&self) -> (answer: bool)
        requires
            self.wf(),
        ensures
            answer == self@.settled(),
    {
        match &self.active_delivery {
            Some(receipt) => receipt.converged(),
            None => false,
        }
    }

    /// Derived subscription or replay effect intent.
    pub fn effect_intent(&self) -> (intent: BoundaryIngressEffectIntent)
        ensures
            intent == self@.intends(),
    {
        match self.phase {
            BoundaryIngressPhase::Bootstrapping => BoundaryIngressEffectIntent::Subscribe {
                generation: self.generation,
            },
            BoundaryIngressPhase::ReplayRequired | BoundaryIngressPhase::Backpressured => {
                BoundaryIngressEffectIntent::ColdReplay {
                    generation: self.generation,
                    from_cursor: match self.replay_from {
                        Some(cursor) => cursor,
                        None => 0,
                    },
                }
            },
            BoundaryIngressPhase::Detached | BoundaryIngressPhase::Live
            | BoundaryIngressPhase::Invalid => BoundaryIngressEffectIntent::Idle,
        }
    }
}

impl<K: Datum> BoundaryIngressProjection<K> {
    /// An observation with the same facts.
    pub fn duplicate(&self) -> (copy: Self)
        requires
            self.wf(),
        ensures
            copy.wf(),
            copy@ == self@,
    {
        let active = match &self.active_delivery {
            Some(receipt) => Some(receipt.duplicate()),
            None => None,
        };
        BoundaryIngressProjection {
            phase: self.phase,
            generation: self.generation,
            cursor: self.cursor,
            buffered_cursors: self.buffered_cursors.duplicate(),
            source_keys: copies(&self.source_keys),
            members: copies(&self.members),
            validation: self.validation,
            freshness: self.freshness,
            replay_from: self.replay_from,
            stale_events: self.stale_events,
            active_delivery: active,
            revision: self.revision,
        }
    }
}

/// Value-plane actions that a cell applies to its ingress.
#[derive(Debug, Clone, PartialEq, Eq)]
pub enum BoundaryIngressAction<K, T> {
    /// Hand one envelope to the value plane.
    Admit(IngressEnvelope<K, T>),
    /// Close one source key.
    Close(K),
}

impl<K: View, T: View> View for BoundaryIngressAction<K, T> {
    type V = BoundaryIngressAction<K::V, T::V>;

    open spec fn view(&self) -> BoundaryIngressAction<K::V, T::V> {
        match self {
            BoundaryIngressAction::Admit(envelope) => BoundaryIngressAction::Admit(envelope@),
            BoundaryIngressAction::Close(key) => BoundaryIngressAction::Close(key@),
        }
    }
}

/// One atomic core transition.
#[derive(Debug, Clone, PartialEq, Eq)]
pub struct BoundaryIngressTransition<K, T> {
    /// Value-plane actions, in order.
    pub actions: Vec<BoundaryIngressAction<K, T>>,
    /// Whether anything observable moved.
    pub changed: bool,
}

/// A transition, over views.
pub struct TransitionFacts<Id, P> {
    /// Value-plane actions, in order.
    pub actions: Seq<BoundaryIngressAction<Id, P>>,
    /// Whether anything observable moved.
    pub changed: bool,
}

impl<K: View, T: View> View for BoundaryIngressTransition<K, T> {
    type V = TransitionFacts<K::V, T::V>;

    open spec fn view(&self) -> TransitionFacts<K::V, T::V> {
        TransitionFacts {
            actions: self.actions@.map_values(|action: BoundaryIngressAction<K, T>| action@),
            changed: self.changed,
        }
    }
}

impl<K: View, T: View> BoundaryIngressTransition<K, T> {
    /// A transition without actions.
    pub fn quiet(changed: bool) -> (transition: Self)
        ensures
            transition@.actions == Seq::<BoundaryIngressAction<K::V, T::V>>::empty(),
            transition@.changed == changed,
    {
        let transition = BoundaryIngressTransition { actions: Vec::new(), changed };
        proof {
            assert(transition@.actions =~= Seq::<BoundaryIngressAction<K::V, T::V>>::empty());
        }
        transition
    }
}

} // verus!
