//! The mathematical model of the boundary ingress: subscription, snapshot-plus-event
//! bootstrap, membership and delivery receipts.

use vstd::prelude::*;

use crate::boundary_types::{
    BoundaryFreshness, BoundaryIngressAction, BoundaryIngressConfig, BoundaryIngressEvent,
    BoundaryIngressPayload, BoundaryIngressPhase, BoundaryValidation, DeliveryFacts,
    ProjectionFacts, SnapshotFacts, TransitionFacts,
};
use crate::ingress_types::IngressEnvelope;
use crate::sorted::in_order;
use crate::value::OrderedKey;

verus! {

/// The boundary's facts, over views.
#[verifier::ext_equal]
#[verifier::reject_recursive_types(Id)]
#[verifier::reject_recursive_types(P)]
pub struct BoundaryState<Id, P> {
    /// Bounds in force.
    pub config: BoundaryIngressConfig,
    /// Subscription phase.
    pub phase: BoundaryIngressPhase,
    /// Producer incarnation.
    pub generation: u64,
    /// Latest contiguous cursor.
    pub cursor: Option<u64>,
    /// Frames that wait for a gap to close, by cursor.
    pub buffered: Map<u64, BoundaryIngressEvent<Id, P>>,
    /// Current source keys.
    pub source_keys: Set<Id>,
    /// Current members.
    pub members: Set<Seq<char>>,
    /// Structural validation.
    pub validation: BoundaryValidation,
    /// First missing cursor, while one is missing.
    pub replay_from: Option<u64>,
    /// Frames and snapshots below the fence.
    pub stale_events: u64,
    /// Every receipt that was opened.
    pub deliveries: Map<Seq<char>, DeliveryFacts>,
    /// The receipt that is active.
    pub active_delivery: Option<Seq<char>>,
    /// Stamp of the latest accepted snapshot or frame.
    pub last_stamped_at: Option<u64>,
    /// Logical now.
    pub now: u64,
    /// Advances once per observable source transaction.
    pub revision: u64,
}

/// The phase of a projection without gaps.
pub open spec fn contiguous_phase(validation: BoundaryValidation) -> BoundaryIngressPhase {
    if validation is Valid {
        BoundaryIngressPhase::Live
    } else {
        BoundaryIngressPhase::Invalid
    }
}

impl<Id, P> BoundaryState<Id, P> {
    /// A detached boundary.
    pub open spec fn detached(config: BoundaryIngressConfig) -> Self {
        BoundaryState {
            config,
            phase: BoundaryIngressPhase::Detached,
            generation: 0,
            cursor: None,
            buffered: Map::empty(),
            source_keys: Set::empty(),
            members: Set::empty(),
            validation: BoundaryValidation::Valid,
            replay_from: None,
            stale_events: 0,
            deliveries: Map::empty(),
            active_delivery: None,
            last_stamped_at: None,
            now: 0,
            revision: 0,
        }
    }

    /// What every reachable boundary satisfies: cursors have successors, frames are
    /// filed under their own cursor, belong to the current generation and lie beyond
    /// the next cursor, no more of them wait than may, the phase says what it means, and
    /// the active receipt exists.
    pub open spec fn wf(self) -> bool {
        &&& self.cursor != Some(u64::MAX)
        &&& self.buffered.dom().finite()
        &&& self.buffered.len() <= self.config.max_buffered
        &&& self.phased()
        &&& forall|cursor: u64| #[trigger]
            self.buffered.contains_key(cursor) ==> {
                &&& cursor < u64::MAX
                &&& self.buffered[cursor].cursor == cursor
                &&& self.buffered[cursor].generation == self.generation
                &&& self.cursor matches Some(latest) ==> latest + 1 < cursor
            }
        &&& forall|id: Seq<char>| #[trigger]
            self.deliveries.contains_key(id) ==> self.deliveries[id].receipt_id == id
        &&& self.active_delivery matches Some(id) ==> self.deliveries.contains_key(id)
    }

    /// What the phase says: a live boundary is contiguous and valid, and one that needs a
    /// replay needs it from the cursor's successor.
    pub open spec fn phased(self) -> bool {
        &&& self.phase is Live ==> {
            &&& self.cursor is Some
            &&& self.buffered == Map::<u64, BoundaryIngressEvent<Id, P>>::empty()
            &&& self.replay_from is None
            &&& self.validation is Valid
        }
        &&& self.phase is ReplayRequired ==> {
            &&& self.cursor is Some
            &&& self.replay_from == Some((self.cursor->0 + 1) as u64)
            &&& !self.buffered.contains_key((self.cursor->0 + 1) as u64)
        }
    }

    /// With the revision advanced.
    pub open spec fn bumped(self) -> Self {
        BoundaryState { revision: self.revision.wrapping_add(1), ..self }
    }

    /// Subscribed to a generation that is not below the fence.
    pub open spec fn subscribed(self, generation: u64) -> (Self, bool) {
        if generation < self.generation {
            (self, false)
        } else {
            (
                BoundaryState {
                    generation,
                    cursor: None,
                    buffered: Map::empty(),
                    source_keys: Set::empty(),
                    members: Set::empty(),
                    validation: BoundaryValidation::Valid,
                    replay_from: None,
                    phase: BoundaryIngressPhase::Bootstrapping,
                    ..self
                }.bumped(),
                true,
            )
        }
    }

    /// With one more stale frame or snapshot counted.
    pub open spec fn outdated(self) -> Self {
        BoundaryState { stale_events: self.stale_events.wrapping_add(1), ..self }.bumped()
    }

    /// With one frame's payload applied.
    pub open spec fn applied(self, event: BoundaryIngressEvent<Id, P>) -> Self {
        let moved = BoundaryState {
            cursor: Some(event.cursor),
            last_stamped_at: Some(event.stamped_at),
            ..self
        };
        match event.payload {
            BoundaryIngressPayload::Upsert(envelope) => BoundaryState {
                source_keys: self.source_keys.insert(envelope.key),
                ..moved
            },
            BoundaryIngressPayload::Remove(key) => BoundaryState {
                source_keys: self.source_keys.remove(key),
                ..moved
            },
            BoundaryIngressPayload::Validate(validation) => BoundaryState { validation, ..moved },
        }
    }

    /// Derived freshness.
    pub open spec fn freshness_of(self) -> BoundaryFreshness {
        match self.last_stamped_at {
            None => BoundaryFreshness::Unknown,
            Some(stamped_at) => if self.now - stamped_at <= self.config.freshness_horizon {
                BoundaryFreshness::Fresh
            } else {
                BoundaryFreshness::Stale
            },
        }
    }

    /// Every frame that follows the cursor without a gap, applied in order.
    pub open spec fn drained(self) -> (Self, Seq<BoundaryIngressAction<Id, P>>)
        decreases
            match self.cursor {
                Some(cursor) => u64::MAX - cursor,
                None => 0,
            },
    {
        match self.cursor {
            Some(cursor) => if cursor < u64::MAX && self.buffered.contains_key((cursor + 1) as u64)
                && self.buffered[(cursor + 1) as u64].cursor == cursor + 1 {
                let event = self.buffered[(cursor + 1) as u64];
                let taken = BoundaryState {
                    buffered: self.buffered.remove((cursor + 1) as u64),
                    ..self
                };
                let (rest, actions) = taken.applied(event).drained();
                (rest, payload_actions(event.payload) + actions)
            } else {
                (self, Seq::empty())
            },
            None => (self, Seq::empty()),
        }
    }

    /// With phase and replay derived from whether frames are still waiting.
    pub open spec fn rephased(self) -> Self {
        if self.buffered.len() == 0 {
            BoundaryState {
                replay_from: None,
                phase: contiguous_phase(self.validation),
                ..self
            }
        } else {
            BoundaryState {
                replay_from: Some((self.cursor->0 + 1) as u64),
                phase: BoundaryIngressPhase::ReplayRequired,
                ..self
            }
        }
    }

    /// With frames at or below a cursor dropped.
    pub open spec fn beyond(self, cursor: u64) -> Self {
        BoundaryState {
            buffered: Map::new(
                |at: u64| self.buffered.contains_key(at) && at > cursor,
                |at: u64| self.buffered[at],
            ),
            ..self
        }
    }

    /// A member joined. A receipt that was opened without members captures the
    /// first to come.
    pub open spec fn joined(self, member: Seq<char>) -> (Self, bool) {
        if self.members.contains(member) {
            (self, false)
        } else {
            let deliveries = match self.active_delivery {
                Some(id) => if self.deliveries[id].targets == Set::<Seq<char>>::empty() {
                    self.deliveries.insert(
                        id,
                        DeliveryFacts {
                            targets: Set::<Seq<char>>::empty().insert(member),
                            ..self.deliveries[id]
                        },
                    )
                } else {
                    self.deliveries
                },
                None => self.deliveries,
            };
            (
                BoundaryState {
                    members: self.members.insert(member),
                    deliveries,
                    ..self
                }.bumped(),
                true,
            )
        }
    }

    /// A member left. No captured frontier shrinks.
    pub open spec fn left(self, member: Seq<char>) -> (Self, bool) {
        if self.members.contains(member) {
            (BoundaryState { members: self.members.remove(member), ..self }.bumped(), true)
        } else {
            (self, false)
        }
    }

    /// A delivery was opened, capturing the members of the moment, or activated
    /// again. What is active already stays so.
    pub open spec fn delivering(self, receipt_id: Seq<char>) -> (Self, bool) {
        if self.active_delivery == Some(receipt_id) {
            (self, false)
        } else if self.deliveries.contains_key(receipt_id) {
            (BoundaryState { active_delivery: Some(receipt_id), ..self }.bumped(), true)
        } else {
            (
                BoundaryState {
                    deliveries: self.deliveries.insert(
                        receipt_id,
                        DeliveryFacts {
                            receipt_id,
                            targets: self.members,
                            acknowledged: Set::empty(),
                        },
                    ),
                    active_delivery: Some(receipt_id),
                    ..self
                }.bumped(),
                true,
            )
        }
    }

    /// An acknowledgement was folded in, if the member is captured and has not
    /// acknowledged before.
    pub open spec fn acknowledged(self, receipt_id: Seq<char>, member: Seq<char>) -> (Self, bool) {
        if self.deliveries.contains_key(receipt_id) && self.deliveries[receipt_id].targets.contains(
            member,
        ) && !self.deliveries[receipt_id].acknowledged.contains(member) {
            let receipt = self.deliveries[receipt_id];
            (
                BoundaryState {
                    deliveries: self.deliveries.insert(
                        receipt_id,
                        DeliveryFacts {
                            acknowledged: receipt.acknowledged.insert(member),
                            ..receipt
                        },
                    ),
                    ..self
                }.bumped(),
                true,
            )
        } else {
            (self, false)
        }
    }

    /// Logical time advanced. Only a freshness edge advances the revision.
    pub open spec fn ticked(self, now: u64) -> (Self, bool) {
        let later = BoundaryState { now, ..self };
        if later.freshness_of() == self.freshness_of() {
            (later, false)
        } else {
            (later.bumped(), true)
        }
    }

    /// The active receipt.
    pub open spec fn active(self) -> Option<DeliveryFacts> {
        match self.active_delivery {
            Some(id) => if self.deliveries.contains_key(id) {
                Some(self.deliveries[id])
            } else {
                None
            },
            None => None,
        }
    }

    /// One frame of the current or a newer generation.
    pub open spec fn received(self, event: BoundaryIngressEvent<Id, P>) -> (
        Self,
        TransitionFacts<Id, P>,
    ) {
        let base = if event.generation > self.generation {
            BoundaryState {
                generation: event.generation,
                cursor: None,
                buffered: Map::empty(),
                source_keys: Set::empty(),
                members: Set::empty(),
                phase: BoundaryIngressPhase::Bootstrapping,
                replay_from: None,
                ..self
            }
        } else {
            self
        };
        let quiet = TransitionFacts { actions: Seq::empty(), changed: false };
        let moved = TransitionFacts { actions: Seq::empty(), changed: true };
        let full = base.buffered.len() >= base.config.max_buffered;
        let parked = BoundaryState { buffered: base.buffered.insert(event.cursor, event), ..base };
        if event.generation < self.generation {
            (self.outdated(), moved)
        } else {
            match base.cursor {
                None => if base.buffered.contains_key(event.cursor) {
                    (parked, quiet)
                } else if full {
                    (
                        BoundaryState {
                            phase: BoundaryIngressPhase::Backpressured,
                            replay_from: Some(0),
                            ..base
                        }.bumped(),
                        moved,
                    )
                } else {
                    (parked.bumped(), moved)
                },
                Some(cursor) => if event.cursor <= cursor || base.buffered.contains_key(
                    event.cursor,
                ) {
                    (base, quiet)
                } else if event.cursor == cursor + 1 {
                    let (drained, actions) = base.applied(event).drained();
                    (
                        drained.rephased().bumped(),
                        TransitionFacts {
                            actions: payload_actions(event.payload) + actions,
                            changed: true,
                        },
                    )
                } else if full {
                    (
                        BoundaryState {
                            phase: BoundaryIngressPhase::Backpressured,
                            replay_from: Some((cursor + 1) as u64),
                            ..base
                        }.bumped(),
                        moved,
                    )
                } else {
                    (
                        BoundaryState {
                            phase: BoundaryIngressPhase::ReplayRequired,
                            replay_from: Some((cursor + 1) as u64),
                            ..parked
                        }.bumped(),
                        moved,
                    )
                },
            }
        }
    }
}

/// What a payload asks of the value plane.
pub open spec fn payload_actions<Id, P>(payload: BoundaryIngressPayload<Id, P>) -> Seq<
    BoundaryIngressAction<Id, P>,
> {
    match payload {
        BoundaryIngressPayload::Upsert(envelope) => seq![BoundaryIngressAction::Admit(envelope)],
        BoundaryIngressPayload::Remove(key) => seq![BoundaryIngressAction::Close(key)],
        BoundaryIngressPayload::Validate(_) => Seq::empty(),
    }
}

/// The keys of a snapshot's entries.
pub open spec fn entry_keys<Id, P>(entries: Seq<IngressEnvelope<Id, P>>) -> Set<Id> {
    entries.map_values(|entry: IngressEnvelope<Id, P>| entry.key).to_set()
}

/// What installing a snapshot asks of the value plane: the keys that are gone are
/// closed in ascending order, then every entry is handed over.
pub open spec fn install_actions<K: OrderedKey, P>(
    source_keys: Set<K::V>,
    entries: Seq<IngressEnvelope<K::V, P>>,
) -> Seq<BoundaryIngressAction<K::V, P>> {
    in_order::<K>(source_keys.difference(entry_keys(entries))).map_values(
        |key: K::V| BoundaryIngressAction::<K::V, P>::Close(key),
    ) + entries.map_values(
        |entry: IngressEnvelope<K::V, P>| BoundaryIngressAction::<K::V, P>::Admit(entry),
    )
}

/// The snapshot's facts in place of the old ones, before buffered successors.
pub open spec fn replaced<Id, P>(
    state: BoundaryState<Id, P>,
    snapshot: SnapshotFacts<Id, P>,
) -> BoundaryState<Id, P> {
    BoundaryState {
        generation: snapshot.generation,
        buffered: if snapshot.generation > state.generation {
            Map::empty()
        } else {
            state.buffered
        },
        source_keys: entry_keys(snapshot.entries),
        members: snapshot.members.to_set(),
        validation: snapshot.validation,
        cursor: Some(snapshot.cursor),
        last_stamped_at: Some(snapshot.stamped_at),
        ..state
    }
}

/// A covering snapshot and every contiguous buffered successor, installed at once.
pub open spec fn installed<K: OrderedKey, P>(
    state: BoundaryState<K::V, P>,
    snapshot: SnapshotFacts<K::V, P>,
) -> (BoundaryState<K::V, P>, TransitionFacts<K::V, P>) {
    if snapshot.generation < state.generation {
        (state.outdated(), TransitionFacts { actions: Seq::empty(), changed: true })
    } else {
        let (drained, actions) = replaced(state, snapshot).beyond(snapshot.cursor).drained();
        (
            drained.rephased().bumped(),
            TransitionFacts {
                actions: install_actions::<K, P>(state.source_keys, snapshot.entries) + actions,
                changed: true,
            },
        )
    }
}

/// The observation that a reactive cell publishes.
pub open spec fn projected<K: OrderedKey, P>(state: BoundaryState<K::V, P>) -> ProjectionFacts<
    K::V,
> {
    ProjectionFacts {
        phase: state.phase,
        generation: state.generation,
        cursor: state.cursor,
        buffered_cursors: in_order::<u64>(state.buffered.dom()),
        source_keys: in_order::<K>(state.source_keys),
        members: in_order::<String>(state.members),
        validation: state.validation,
        freshness: state.freshness_of(),
        replay_from: state.replay_from,
        stale_events: state.stale_events,
        active_delivery: state.active(),
        revision: state.revision,
    }
}

} // verus!
