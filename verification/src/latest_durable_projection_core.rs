//! Keyed latest-value durable projection authority.
//!
//! A durable sink whose contract is convergence to the latest desired value, not
//! delivery of every intermediate command. Each key has at most one projection in
//! flight; newer desires supersede pending work, and an acknowledgement of an older
//! epoch never clears a newer desire.

use vstd::prelude::*;

use crate::sorted::{SortedTable, ascending_is_in_order, in_order};
use crate::value::{Key, OrderedKey, Datum};

verus! {

/// A desired projection revision.
#[derive(Debug, Clone, PartialEq, Eq)]
pub struct LatestDurableRevision<V> {
    /// The epoch of the desire.
    pub epoch: u64,
    /// The desired value.
    pub value: V,
}

impl<V: View> View for LatestDurableRevision<V> {
    type V = LatestDurableRevision<V::V>;

    open spec fn view(&self) -> LatestDurableRevision<V::V> {
        LatestDurableRevision { epoch: self.epoch, value: self.value@ }
    }
}

/// The exact projection attempt handed to a sink.
#[derive(Debug, Clone, PartialEq, Eq)]
pub struct LatestDurableEnvelope<K, V> {
    /// Sink incarnation.
    pub generation: u64,
    /// The key.
    pub key: K,
    /// The epoch of the desire.
    pub epoch: u64,
    /// The desired value.
    pub value: V,
}

impl<K: View, V: View> View for LatestDurableEnvelope<K, V> {
    type V = LatestDurableEnvelope<K::V, V::V>;

    open spec fn view(&self) -> LatestDurableEnvelope<K::V, V::V> {
        LatestDurableEnvelope {
            generation: self.generation,
            key: self.key@,
            epoch: self.epoch,
            value: self.value@,
        }
    }
}

impl<K: Datum, V: Datum> Datum for LatestDurableEnvelope<K, V> {
    fn duplicate(&self) -> (copy: Self) {
        LatestDurableEnvelope {
            generation: self.generation,
            key: self.key.duplicate(),
            epoch: self.epoch,
            value: self.value.duplicate(),
        }
    }
}

/// Observable state for one key.
#[derive(Debug, Clone, PartialEq, Eq)]
pub struct LatestDurableKeyState<K, V> {
    /// The newest desire that no attempt has taken up.
    pub desired: Option<LatestDurableRevision<V>>,
    /// The attempt that is with the sink.
    pub inflight: Option<LatestDurableEnvelope<K, V>>,
    /// The newest epoch that the sink has applied.
    pub durable_through: Option<u64>,
}

impl<K: View, V: View> View for LatestDurableKeyState<K, V> {
    type V = LatestDurableKeyState<K::V, V::V>;

    open spec fn view(&self) -> LatestDurableKeyState<K::V, V::V> {
        LatestDurableKeyState {
            desired: match self.desired {
                Some(revision) => Some(revision@),
                None => None,
            },
            inflight: match self.inflight {
                Some(envelope) => Some(envelope@),
                None => None,
            },
            durable_through: self.durable_through,
        }
    }
}

impl<K: Datum, V: Datum> Datum for LatestDurableKeyState<K, V> {
    fn duplicate(&self) -> (copy: Self) {
        LatestDurableKeyState {
            desired: match &self.desired {
                Some(revision) => Some(
                    LatestDurableRevision {
                        epoch: revision.epoch,
                        value: revision.value.duplicate(),
                    },
                ),
                None => None,
            },
            inflight: match &self.inflight {
                Some(envelope) => Some(envelope.duplicate()),
                None => None,
            },
            durable_through: self.durable_through,
        }
    }
}

impl<Id, P> LatestDurableKeyState<Id, P> {
    /// A key of which nothing is known.
    pub open spec fn blank() -> Self {
        LatestDurableKeyState { desired: None, inflight: None, durable_through: None }
    }

    /// The newest revision that is desired or in flight.
    pub open spec fn newest(self) -> Option<LatestDurableRevision<P>> {
        match (self.desired, self.inflight) {
            (Some(desired), Some(inflight)) => if inflight.epoch >= desired.epoch {
                Some(LatestDurableRevision { epoch: inflight.epoch, value: inflight.value })
            } else {
                Some(desired)
            },
            (Some(desired), None) => Some(desired),
            (None, Some(inflight)) => Some(
                LatestDurableRevision { epoch: inflight.epoch, value: inflight.value },
            ),
            (None, None) => None,
        }
    }

    /// Whether an attempt is in flight that a newer desire has overtaken.
    pub open spec fn overtaken(self) -> bool {
        self.inflight matches Some(inflight) && self.desired matches Some(desired)
            && desired.epoch > inflight.epoch
    }

    /// Whether an attempt is in flight that is still what is wanted.
    pub open spec fn wanted(self) -> bool {
        self.inflight is Some && !self.overtaken()
    }

    /// The key with its attempt given back: an overtaken one is dropped, another
    /// is desired again.
    pub open spec fn returned(self) -> Self {
        match self.inflight {
            None => self,
            Some(inflight) => if self.overtaken() {
                LatestDurableKeyState { inflight: None, ..self }
            } else {
                LatestDurableKeyState {
                    desired: Some(
                        LatestDurableRevision { epoch: inflight.epoch, value: inflight.value },
                    ),
                    inflight: None,
                    ..self
                }
            },
        }
    }

    /// What every reachable key satisfies: epochs ascend from durable to in flight
    /// to desired.
    pub open spec fn wf(self, id: Id, generation: u64) -> bool {
        &&& self.inflight matches Some(inflight) ==> {
            &&& inflight.generation == generation
            &&& inflight.key == id
            &&& self.durable_through matches Some(durable) ==> durable < inflight.epoch
        }
        &&& self.desired matches Some(desired) ==> {
            &&& self.durable_through matches Some(durable) ==> durable < desired.epoch
            &&& self.inflight matches Some(inflight) ==> inflight.epoch < desired.epoch
        }
    }
}

/// Complete observable state.
#[derive(Debug, Clone, PartialEq, Eq)]
pub struct LatestDurableSnapshot<K, V> {
    /// Sink incarnation.
    pub generation: u64,
    /// What is known of each key, in ascending key order.
    pub keys: Vec<(K, LatestDurableKeyState<K, V>)>,
}

/// A snapshot, over views.
#[verifier::ext_equal]
pub struct LatestDurableListing<Id, P> {
    /// Sink incarnation.
    pub generation: u64,
    /// What is known of each key, in ascending key order.
    pub keys: Seq<(Id, LatestDurableKeyState<Id, P>)>,
}

impl<K: View, V: View> View for LatestDurableSnapshot<K, V> {
    type V = LatestDurableListing<K::V, V::V>;

    open spec fn view(&self) -> LatestDurableListing<K::V, V::V> {
        LatestDurableListing {
            generation: self.generation,
            keys: self.keys@.map_values(
                |entry: (K, LatestDurableKeyState<K, V>)| (entry.0@, entry.1@),
            ),
        }
    }
}

impl<K: Datum, V: Datum> Datum for LatestDurableSnapshot<K, V> {
    fn duplicate(&self) -> (copy: Self) {
        let mut keys: Vec<(K, LatestDurableKeyState<K, V>)> = Vec::new();
        let mut index: usize = 0;
        let ghost all = self@.keys;
        let ghost seen = |entry: (K, LatestDurableKeyState<K, V>)| (entry.0@, entry.1@);
        proof {
            assert(keys@.map_values(seen) =~= all.take(0));
        }
        while index < self.keys.len()
            invariant
                seen == (|entry: (K, LatestDurableKeyState<K, V>)| (entry.0@, entry.1@)),
                all == self.keys@.map_values(seen),
                index <= self.keys@.len(),
                keys@.map_values(seen) == all.take(index as int),
            decreases self.keys@.len() - index,
        {
            let ghost before = keys@;
            keys.push((self.keys[index].0.duplicate(), self.keys[index].1.duplicate()));
            proof {
                let entry = all[index as int];
                assert(entry == seen(self.keys@[index as int]));
                assert(keys@.map_values(seen) =~= before.map_values(seen).push(entry));
                assert(all.take(index + 1) =~= all.take(index as int).push(entry));
            }
            index = index + 1;
        }
        proof {
            assert(all.take(index as int) =~= all);
        }
        LatestDurableSnapshot { generation: self.generation, keys }
    }
}

/// The outcome of a desire.
#[derive(Debug, Clone, Copy, PartialEq, Eq, Structural)]
pub enum LatestDurableUpsert {
    /// The desire is the newest now.
    Accepted,
    /// The same desire is known already.
    Unchanged,
    /// The sink has applied this epoch or a newer one.
    AlreadyDurable {
        /// The newest applied epoch.
        durable_through: u64,
    },
    /// A newer desire is known.
    StaleEpoch {
        /// Its epoch.
        current: u64,
    },
    /// Another value is known under this epoch.
    EpochConflict,
}

/// The outcome of a claim.
#[derive(Debug, Clone, PartialEq, Eq)]
pub enum LatestDurableClaim<K, V> {
    /// The desire is in flight now.
    Claimed(LatestDurableEnvelope<K, V>),
    /// Nothing is desired.
    Empty,
    /// An attempt is in flight already.
    Busy,
    /// The attachment is not the current one.
    StaleGeneration {
        /// The fence.
        current: u64,
    },
}

impl<K: View, V: View> View for LatestDurableClaim<K, V> {
    type V = LatestDurableClaim<K::V, V::V>;

    open spec fn view(&self) -> LatestDurableClaim<K::V, V::V> {
        match self {
            LatestDurableClaim::Claimed(envelope) => LatestDurableClaim::Claimed(envelope@),
            LatestDurableClaim::Empty => LatestDurableClaim::Empty,
            LatestDurableClaim::Busy => LatestDurableClaim::Busy,
            LatestDurableClaim::StaleGeneration { current } => {
                LatestDurableClaim::StaleGeneration { current: *current }
            },
        }
    }
}

/// The outcome of an acknowledgement.
#[derive(Debug, Clone, Copy, PartialEq, Eq, Structural)]
pub enum LatestDurableAck {
    /// Durability moved up.
    Advanced {
        /// The newest applied epoch.
        durable_through: u64,
    },
    /// This epoch was durable already.
    Unchanged {
        /// The newest applied epoch.
        durable_through: u64,
    },
    /// No such attempt is in flight.
    UnknownEpoch,
    /// The attachment is not the current one.
    StaleGeneration {
        /// The fence.
        current: u64,
    },
}

/// The outcome of a retryable failure.
#[derive(Debug, Clone, Copy, PartialEq, Eq, Structural)]
pub enum LatestDurableFailure {
    /// The revision is desired again.
    Pending,
    /// A newer desire had overtaken it.
    Superseded,
    /// No such attempt is in flight.
    UnknownEpoch,
    /// The attachment is not the current one.
    StaleGeneration {
        /// The fence.
        current: u64,
    },
}

/// The outcome of a reconnect.
#[derive(Debug, Clone, Copy, PartialEq, Eq, Structural)]
pub enum LatestDurableReconnect {
    /// The fence moved and attempts were given back.
    Advanced {
        /// The new fence.
        generation: u64,
        /// Attempts that are desired again.
        requeued: usize,
        /// Attempts that newer desires had overtaken.
        superseded: usize,
    },
    /// This is the current generation already.
    Unchanged {
        /// The fence.
        generation: u64,
    },
    /// The attachment is older than the fence.
    StaleGeneration {
        /// The fence.
        current: u64,
    },
}

/// Whether a transition changed the observable snapshot.
#[derive(Debug, Clone, Copy, PartialEq, Eq, Structural)]
pub struct LatestDurableChange {
    /// The snapshot reader moved.
    pub state: bool,
}

impl Default for LatestDurableChange {
    fn default() -> (change: Self)
        ensures
            change == (LatestDurableChange { state: false }),
    {
        LatestDurableChange { state: false }
    }
}

/// The projection authority, over views.
#[verifier::ext_equal]
#[verifier::reject_recursive_types(Id)]
pub struct LatestDurableState<Id, P> {
    /// The generation fence.
    pub generation: u64,
    /// What is known of each key.
    pub keys: Map<Id, LatestDurableKeyState<Id, P>>,
}

/// A table of key states, over views.
pub open spec fn key_states<K: OrderedKey, V: View>(
    table: SortedTable<K, LatestDurableKeyState<K, V>>,
) -> Map<K::V, LatestDurableKeyState<K::V, V::V>> {
    table.map().map_values(|entry: LatestDurableKeyState<K, V>| entry@)
}

/// A table and its view have the same keys.
proof fn key_states_facts<K: OrderedKey, V: View>(
    table: SortedTable<K, LatestDurableKeyState<K, V>>,
)
    requires
        table.wf(),
    ensures
        key_states(table).dom() == table.map().dom(),
        table.ids() == in_order::<K>(key_states(table).dom()),
        key_states(table).dom().finite(),
        key_states(table).len() == table.ids().len(),
{
    table.wf_facts();
    assert(key_states(table).dom() =~= table.map().dom());
    ascending_is_in_order::<K>(table.ids());
}

impl<Id, P> LatestDurableState<Id, P> {
    /// What every reachable authority satisfies.
    pub open spec fn wf(self) -> bool {
        &&& self.keys.dom().finite()
        &&& forall|id: Id| #[trigger]
            self.keys.contains_key(id) ==> self.keys[id].wf(id, self.generation)
    }

    /// What is known of a key.
    pub open spec fn entry(self, id: Id) -> LatestDurableKeyState<Id, P> {
        if self.keys.contains_key(id) {
            self.keys[id]
        } else {
            LatestDurableKeyState::blank()
        }
    }

    /// With a key's state replaced.
    pub open spec fn with(self, id: Id, entry: LatestDurableKeyState<Id, P>) -> Self {
        LatestDurableState { keys: self.keys.insert(id, entry), ..self }
    }

    /// A desire for a key.
    pub open spec fn upserted(self, id: Id, epoch: u64, value: P) -> (Self, LatestDurableUpsert) {
        let entry = self.entry(id);
        if entry.durable_through matches Some(durable) && epoch <= durable {
            (
                self,
                LatestDurableUpsert::AlreadyDurable { durable_through: entry.durable_through->0 },
            )
        } else if entry.newest() matches Some(newest) && epoch < newest.epoch {
            (self, LatestDurableUpsert::StaleEpoch { current: entry.newest()->0.epoch })
        } else if entry.newest() matches Some(newest) && epoch == newest.epoch {
            (
                self,
                if value == entry.newest()->0.value {
                    LatestDurableUpsert::Unchanged
                } else {
                    LatestDurableUpsert::EpochConflict
                },
            )
        } else {
            (
                self.with(
                    id,
                    LatestDurableKeyState {
                        desired: Some(LatestDurableRevision { epoch, value }),
                        ..entry
                    },
                ),
                LatestDurableUpsert::Accepted,
            )
        }
    }

    /// The desire of a key put in flight, for the current attachment.
    pub open spec fn claimed(self, id: Id, generation: u64) -> (Self, LatestDurableClaim<Id, P>) {
        let entry = self.entry(id);
        if generation != self.generation {
            (self, LatestDurableClaim::StaleGeneration { current: self.generation })
        } else if entry.inflight is Some {
            (self, LatestDurableClaim::Busy)
        } else {
            match entry.desired {
                None => (self, LatestDurableClaim::Empty),
                Some(desired) => {
                    let envelope = LatestDurableEnvelope {
                        generation,
                        key: id,
                        epoch: desired.epoch,
                        value: desired.value,
                    };
                    (
                        self.with(
                            id,
                            LatestDurableKeyState {
                                desired: None,
                                inflight: Some(envelope),
                                ..entry
                            },
                        ),
                        LatestDurableClaim::Claimed(envelope),
                    )
                },
            }
        }
    }

    /// Whether exactly this epoch of a key is in flight.
    pub open spec fn flies(self, id: Id, epoch: u64) -> bool {
        self.entry(id).inflight matches Some(inflight) && inflight.epoch == epoch
    }

    /// Exact sink success for the attempt in flight.
    pub open spec fn acked(self, id: Id, generation: u64, epoch: u64) -> (Self, LatestDurableAck) {
        let entry = self.entry(id);
        let through = match entry.durable_through {
            Some(durable) => if durable > epoch {
                durable
            } else {
                epoch
            },
            None => epoch,
        };
        if generation != self.generation {
            (self, LatestDurableAck::StaleGeneration { current: self.generation })
        } else if !self.flies(id, epoch) {
            (
                self,
                if entry.durable_through matches Some(durable) && epoch <= durable {
                    LatestDurableAck::Unchanged { durable_through: entry.durable_through->0 }
                } else {
                    LatestDurableAck::UnknownEpoch
                },
            )
        } else {
            (
                self.with(
                    id,
                    LatestDurableKeyState {
                        inflight: None,
                        durable_through: Some(through),
                        ..entry
                    },
                ),
                if entry.durable_through matches Some(durable) && durable >= epoch {
                    LatestDurableAck::Unchanged { durable_through: through }
                } else {
                    LatestDurableAck::Advanced { durable_through: through }
                },
            )
        }
    }

    /// A retryable failure of the attempt in flight.
    pub open spec fn failed(self, id: Id, generation: u64, epoch: u64) -> (
        Self,
        LatestDurableFailure,
    ) {
        let entry = self.entry(id);
        if generation != self.generation {
            (self, LatestDurableFailure::StaleGeneration { current: self.generation })
        } else if !self.flies(id, epoch) {
            (self, LatestDurableFailure::UnknownEpoch)
        } else {
            (
                self.with(id, entry.returned()),
                if entry.overtaken() {
                    LatestDurableFailure::Superseded
                } else {
                    LatestDurableFailure::Pending
                },
            )
        }
    }
}

/// Everything that is known, in ascending key order.
pub open spec fn listing<K: OrderedKey, P>(
    state: LatestDurableState<K::V, P>,
) -> LatestDurableListing<
    K::V,
    P,
> {
    LatestDurableListing {
        generation: state.generation,
        keys: in_order::<K>(state.keys.dom()).map_values(|id: K::V| (id, state.keys[id])),
    }
}

/// Keys that have a desire and no attempt in flight, ascending.
pub open spec fn waiting_keys<K: OrderedKey, P>(state: LatestDurableState<K::V, P>) -> Seq<K::V> {
    in_order::<K>(state.keys.dom()).filter(
        |id: K::V| state.keys[id].inflight is None && state.keys[id].desired is Some,
    )
}

/// The sink was fenced: every attempt in flight is given back under a newer
/// generation.
pub open spec fn refenced<K: OrderedKey, P>(
    state: LatestDurableState<K::V, P>,
    generation: u64,
) -> (LatestDurableState<K::V, P>, LatestDurableReconnect) {
    if generation < state.generation {
        (state, LatestDurableReconnect::StaleGeneration { current: state.generation })
    } else if generation == state.generation {
        (state, LatestDurableReconnect::Unchanged { generation })
    } else {
        let order = in_order::<K>(state.keys.dom());
        (
            LatestDurableState {
                generation,
                keys: state.keys.map_values(
                    |entry: LatestDurableKeyState<K::V, P>| entry.returned(),
                ),
            },
            LatestDurableReconnect::Advanced {
                generation,
                requeued: order.filter(|id: K::V| state.keys[id].wanted()).len() as usize,
                superseded: order.filter(|id: K::V| state.keys[id].overtaken()).len() as usize,
            },
        )
    }
}

/// Keyed latest-durable projection authority.
pub struct LatestDurableProjectionCore<K, V> {
    generation: u64,
    keys: SortedTable<K, LatestDurableKeyState<K, V>>,
}

impl<K: OrderedKey, V: Key> View for LatestDurableProjectionCore<K, V> {
    type V = LatestDurableState<K::V, V::V>;

    closed spec fn view(&self) -> LatestDurableState<K::V, V::V> {
        LatestDurableState { generation: self.generation, keys: key_states(self.keys) }
    }
}

impl<K: OrderedKey, V: Key> LatestDurableProjectionCore<K, V> {
    /// The authority is one that the operations can reach.
    pub closed spec fn wf(&self) -> bool {
        self.keys.wf() && self@.wf()
    }

    /// What well-formedness says to a caller: among others that the epochs of each key
    /// ascend from durable over in flight to desired.
    pub proof fn wf_facts(&self)
        requires
            self.wf(),
        ensures
            self@.wf(),
    {
    }

    /// An authority without desires.
    pub fn new(generation: u64) -> (core: Self)
        ensures
            core.wf(),
            core@ == (LatestDurableState::<K::V, V::V> { generation, keys: Map::empty() }),
    {
        let core = LatestDurableProjectionCore { generation, keys: SortedTable::new() };
        proof {
            assert(core@.keys =~= Map::empty());
        }
        core
    }

    /// The generation fence.
    pub fn generation(&self) -> (generation: u64)
        ensures
            generation == self@.generation,
    {
        self.generation
    }

    /// Complete observable state.
    pub fn snapshot(&self) -> (snapshot: LatestDurableSnapshot<K, V>)
        requires
            self.wf(),
        ensures
            snapshot@ == listing::<K, V::V>(self@),
    {
        let mut keys: Vec<(K, LatestDurableKeyState<K, V>)> = Vec::new();
        let mut index: usize = 0;
        let ghost all = listing::<K, V::V>(self@).keys;
        let ghost seen = |entry: (K, LatestDurableKeyState<K, V>)| (entry.0@, entry.1@);
        proof {
            key_states_facts(self.keys);
            assert(keys@.map_values(seen) =~= all.take(0));
        }
        while index < self.keys.len()
            invariant
                self.keys.wf(),
                seen == (|entry: (K, LatestDurableKeyState<K, V>)| (entry.0@, entry.1@)),
                all == listing::<K, V::V>(self@).keys,
                self.keys.ids() == in_order::<K>(self@.keys.dom()),
                index <= self.keys.ids().len(),
                keys@.map_values(seen) == all.take(index as int),
            decreases self.keys.ids().len() - index,
        {
            let ghost before = keys@;
            keys.push(
                (self.keys.key_at(index).duplicate(), self.keys.value_at(index).duplicate()),
            );
            proof {
                self.keys.wf_facts();
                let id = self.keys.ids()[index as int];
                assert(self.keys.ids().contains(id));
                assert(all[index as int] == (id, self.keys.map()[id]@));
                assert(keys@.map_values(seen) =~= before.map_values(seen).push(all[index as int]));
                assert(all.take(index + 1) =~= all.take(index as int).push(all[index as int]));
            }
            index = index + 1;
        }
        let snapshot = LatestDurableSnapshot { generation: self.generation, keys };
        proof {
            assert(all.take(index as int) =~= all);
            assert(snapshot@ =~= listing::<K, V::V>(self@));
        }
        snapshot
    }

    /// Observable state of one key, or `None` when nothing was ever desired of it.
    pub fn state(&self, key: &K) -> (state: Option<LatestDurableKeyState<K, V>>)
        requires
            self.wf(),
        ensures
            match state {
                Some(entry) => self@.keys.contains_key(key@) && entry@ == self@.keys[key@],
                None => !self@.keys.contains_key(key@),
            },
    {
        match self.keys.get(key) {
            Some(entry) => Some(entry.duplicate()),
            None => None,
        }
    }

    /// The newest epoch of a key that the sink has applied.
    pub fn durable_through(&self, key: &K) -> (through: Option<u64>)
        requires
            self.wf(),
        ensures
            through == self@.entry(key@).durable_through,
    {
        match self.keys.get(key) {
            Some(entry) => entry.durable_through,
            None => None,
        }
    }

    /// Keys that have a desire and no attempt in flight, ascending.
    pub fn pending_keys(&self) -> (keys: Vec<K>)
        requires
            self.wf(),
        ensures
            keys@.map_values(|key: K| key@) == waiting_keys::<K, V::V>(self@),
    {
        let mut keys: Vec<K> = Vec::new();
        let mut index: usize = 0;
        let ghost state = self@;
        let ghost ids = in_order::<K>(state.keys.dom());
        let ghost waits = |id: K::V|
            state.keys[id].inflight is None && state.keys[id].desired is Some;
        proof {
            key_states_facts(self.keys);
            reveal(Seq::filter);
            assert(keys@.map_values(|key: K| key@) =~= ids.take(0).filter(waits));
        }
        while index < self.keys.len()
            invariant
                self.wf(),
                state == self@,
                ids == self.keys.ids(),
                waits == (|id: K::V|
                    state.keys[id].inflight is None && state.keys[id].desired is Some),
                index <= ids.len(),
                keys@.map_values(|key: K| key@) == ids.take(index as int).filter(waits),
            decreases ids.len() - index,
        {
            let ghost before = keys@;
            let ghost id = ids[index as int];
            let entry = self.keys.value_at(index);
            let waiting = entry.inflight.is_none() && entry.desired.is_some();
            if waiting {
                keys.push(self.keys.key_at(index).duplicate());
            }
            proof {
                self.keys.wf_facts();
                assert(ids.contains(id));
                assert(state.keys[id] == entry@);
                reveal(Seq::filter);
                let longer = ids.take(index + 1);
                assert(longer.drop_last() =~= ids.take(index as int));
                assert(longer.last() == id);
                if waiting {
                    assert(keys@.map_values(|key: K| key@) =~= before.map_values(
                        |key: K| key@,
                    ).push(id));
                }
            }
            index = index + 1;
        }
        proof {
            assert(ids.take(index as int) =~= ids);
            key_states_facts(self.keys);
        }
        keys
    }

    /// Replaces the pending desire for `key` when `epoch` advances.
    pub fn upsert_desired(&mut self, key: K, epoch: u64, value: V) -> (outcome: (
        LatestDurableChange,
        LatestDurableUpsert,
    ))
        requires
            old(self).wf(),
        ensures
            final(self).wf(),
            final(self)@ == old(self)@.upserted(key@, epoch, value@).0,
            outcome.1 == old(self)@.upserted(key@, epoch, value@).1,
            outcome.0.state == (outcome.1 is Accepted),
    {
        let ghost id = key@;
        let ghost wanted = value@;
        let ghost before = self@;
        match self.keys.find(&key) {
            None => {
                let entry = LatestDurableKeyState {
                    desired: Some(LatestDurableRevision { epoch, value }),
                    inflight: None,
                    durable_through: None,
                };
                let ghost placed = entry@;
                self.keys.put(key, entry);
                proof {
                    assert(self@.keys =~= before.keys.insert(id, placed));
                }
                (LatestDurableChange { state: true }, LatestDurableUpsert::Accepted)
            },
            Some(index) => {
                proof {
                    assert(before.keys[id] == self.keys.map()[id]@);
                    assert(before.keys.contains_key(id));
                }
                let entry = self.keys.value_at(index);
                if let Some(durable) = entry.durable_through {
                    if epoch <= durable {
                        return (
                            LatestDurableChange::default(),
                            LatestDurableUpsert::AlreadyDurable { durable_through: durable },
                        );
                    }
                }
                let newest: Option<(u64, &V)> = match (&entry.desired, &entry.inflight) {
                    (Some(desired), Some(inflight)) => if inflight.epoch >= desired.epoch {
                        Some((inflight.epoch, &inflight.value))
                    } else {
                        Some((desired.epoch, &desired.value))
                    },
                    (Some(desired), None) => Some((desired.epoch, &desired.value)),
                    (None, Some(inflight)) => Some((inflight.epoch, &inflight.value)),
                    (None, None) => None,
                };
                if let Some((current, known)) = newest {
                    if epoch < current {
                        return (
                            LatestDurableChange::default(),
                            LatestDurableUpsert::StaleEpoch { current },
                        );
                    }
                    if epoch == current {
                        let outcome = if value.same(known) {
                            LatestDurableUpsert::Unchanged
                        } else {
                            LatestDurableUpsert::EpochConflict
                        };
                        return (LatestDurableChange::default(), outcome);
                    }
                }
                let entry = self.keys.value_at_mut(index);
                entry.desired = Some(LatestDurableRevision { epoch, value });
                let ghost placed = *entry;
                proof {
                    assert(self@.keys =~= before.keys.insert(id, placed@));
                }
                (LatestDurableChange { state: true }, LatestDurableUpsert::Accepted)
            },
        }
    }

    /// Moves the latest pending revision into the sole in-flight slot of one key.
    pub fn claim(&mut self, key: &K, generation: u64) -> (outcome: (
        LatestDurableChange,
        LatestDurableClaim<K, V>,
    ))
        requires
            old(self).wf(),
        ensures
            final(self).wf(),
            final(self)@ == old(self)@.claimed(key@, generation).0,
            outcome.1@ == old(self)@.claimed(key@, generation).1,
            outcome.0.state == (outcome.1 is Claimed),
    {
        let ghost id = key@;
        let ghost before = self@;
        if generation != self.generation {
            return (
                LatestDurableChange::default(),
                LatestDurableClaim::StaleGeneration { current: self.generation },
            );
        }
        let index = match self.keys.find(key) {
            Some(index) => index,
            None => {
                return (LatestDurableChange::default(), LatestDurableClaim::Empty);
            },
        };
        proof {
            assert(before.keys[id] == self.keys.map()[id]@);
            assert(before.keys.contains_key(id));
        }
        if self.keys.value_at(index).inflight.is_some() {
            return (LatestDurableChange::default(), LatestDurableClaim::Busy);
        }
        if self.keys.value_at(index).desired.is_none() {
            return (LatestDurableChange::default(), LatestDurableClaim::Empty);
        }
        let entry = self.keys.value_at_mut(index);
        match entry.desired.take() {
            Some(desired) => {
                let envelope = LatestDurableEnvelope {
                    generation,
                    key: key.duplicate(),
                    epoch: desired.epoch,
                    value: desired.value,
                };
                entry.inflight = Some(envelope.duplicate());
                let ghost placed = *entry;
                proof {
                    assert(self@.keys =~= before.keys.insert(id, placed@));
                }
                (LatestDurableChange { state: true }, LatestDurableClaim::Claimed(envelope))
            },
            None => (LatestDurableChange::default(), LatestDurableClaim::Empty),
        }
    }

    /// Records exact sink success for the sole in-flight revision of `key`.
    pub fn ack_applied(&mut self, key: &K, generation: u64, epoch: u64) -> (outcome: (
        LatestDurableChange,
        LatestDurableAck,
    ))
        requires
            old(self).wf(),
        ensures
            final(self).wf(),
            final(self)@ == old(self)@.acked(key@, generation, epoch).0,
            outcome.1 == old(self)@.acked(key@, generation, epoch).1,
            outcome.0.state == (generation == old(self)@.generation && old(self)@.flies(
                key@,
                epoch,
            )),
    {
        let ghost id = key@;
        let ghost before = self@;
        if generation != self.generation {
            return (
                LatestDurableChange::default(),
                LatestDurableAck::StaleGeneration { current: self.generation },
            );
        }
        let index = match self.keys.find(key) {
            Some(index) => index,
            None => {
                return (LatestDurableChange::default(), LatestDurableAck::UnknownEpoch);
            },
        };
        proof {
            assert(before.keys[id] == self.keys.map()[id]@);
            assert(before.keys.contains_key(id));
        }
        let previous = self.keys.value_at(index).durable_through;
        let flies = match &self.keys.value_at(index).inflight {
            Some(inflight) => inflight.epoch == epoch,
            None => false,
        };
        if !flies {
            if let Some(durable_through) = previous {
                if epoch <= durable_through {
                    return (
                        LatestDurableChange::default(),
                        LatestDurableAck::Unchanged { durable_through },
                    );
                }
            }
            return (LatestDurableChange::default(), LatestDurableAck::UnknownEpoch);
        }
        let durable_through: u64 = match previous {
            Some(durable) => if durable > epoch {
                durable
            } else {
                epoch
            },
            None => epoch,
        };
        let entry = self.keys.value_at_mut(index);
        entry.inflight = None;
        entry.durable_through = Some(durable_through);
        let ghost placed = *entry;
        proof {
            assert(self@.keys =~= before.keys.insert(id, placed@));
        }
        let already = match previous {
            Some(durable) => durable >= epoch,
            None => false,
        };
        (
            LatestDurableChange { state: true },
            if already {
                LatestDurableAck::Unchanged { durable_through }
            } else {
                LatestDurableAck::Advanced { durable_through }
            },
        )
    }

    /// Gives an entry's attempt back. Returns whether a newer desire had overtaken
    /// it.
    fn give_back(entry: &mut LatestDurableKeyState<K, V>) -> (overtaken: bool)
        requires
            old(entry)@.inflight is Some,
        ensures
            final(entry)@ == old(entry)@.returned(),
            overtaken == old(entry)@.overtaken(),
    {
        match entry.inflight.take() {
            Some(inflight) => {
                let overtaken = match &entry.desired {
                    Some(desired) => desired.epoch > inflight.epoch,
                    None => false,
                };
                if !overtaken {
                    entry.desired = Some(
                        LatestDurableRevision { epoch: inflight.epoch, value: inflight.value },
                    );
                }
                overtaken
            },
            None => false,
        }
    }

    /// Returns a retryable failure to the latest-value pending state.
    pub fn fail_retryable(&mut self, key: &K, generation: u64, epoch: u64) -> (outcome: (
        LatestDurableChange,
        LatestDurableFailure,
    ))
        requires
            old(self).wf(),
        ensures
            final(self).wf(),
            final(self)@ == old(self)@.failed(key@, generation, epoch).0,
            outcome.1 == old(self)@.failed(key@, generation, epoch).1,
            outcome.0.state == (outcome.1 is Pending || outcome.1 is Superseded),
    {
        let ghost id = key@;
        let ghost before = self@;
        if generation != self.generation {
            return (
                LatestDurableChange::default(),
                LatestDurableFailure::StaleGeneration { current: self.generation },
            );
        }
        let index = match self.keys.find(key) {
            Some(index) => index,
            None => {
                return (LatestDurableChange::default(), LatestDurableFailure::UnknownEpoch);
            },
        };
        proof {
            assert(before.keys[id] == self.keys.map()[id]@);
            assert(before.keys.contains_key(id));
        }
        let flies = match &self.keys.value_at(index).inflight {
            Some(inflight) => inflight.epoch == epoch,
            None => false,
        };
        if !flies {
            return (LatestDurableChange::default(), LatestDurableFailure::UnknownEpoch);
        }
        let entry = self.keys.value_at_mut(index);
        let overtaken = Self::give_back(entry);
        let ghost placed = *entry;
        proof {
            assert(self@.keys =~= before.keys.insert(id, placed@));
        }
        (
            LatestDurableChange { state: true },
            if overtaken {
                LatestDurableFailure::Superseded
            } else {
                LatestDurableFailure::Pending
            },
        )
    }

    /// Fences the previous sink incarnation and requeues its in-flight work.
    pub fn reconnect(&mut self, new_generation: u64) -> (outcome: (
        LatestDurableChange,
        LatestDurableReconnect,
    ))
        requires
            old(self).wf(),
        ensures
            final(self).wf(),
            final(self)@ == refenced::<K, V::V>(old(self)@, new_generation).0,
            outcome.1 == refenced::<K, V::V>(old(self)@, new_generation).1,
            outcome.0.state == (outcome.1 is Advanced),
    {
        if new_generation < self.generation {
            return (
                LatestDurableChange::default(),
                LatestDurableReconnect::StaleGeneration { current: self.generation },
            );
        }
        if new_generation == self.generation {
            return (
                LatestDurableChange::default(),
                LatestDurableReconnect::Unchanged { generation: self.generation },
            );
        }
        let ghost before = self@;
        let ghost ids = self.keys.ids();
        let ghost wanted = |id: K::V| before.keys[id].wanted();
        let ghost overtaken = |id: K::V| before.keys[id].overtaken();
        self.generation = new_generation;
        let mut requeued: usize = 0;
        let mut superseded: usize = 0;
        let mut index: usize = 0;
        let total: usize = self.keys.len();
        proof {
            self.keys.wf_facts();
            reveal(Seq::filter);
            assert(ids.take(0).filter(wanted) =~= Seq::empty());
            assert(ids.take(0).filter(overtaken) =~= Seq::empty());
        }
        while index < total
            invariant
                self.keys.wf(),
                self.generation == new_generation,
                ids == self.keys.ids(),
                ids.no_duplicates(),
                total == ids.len(),
                wanted == (|id: K::V| before.keys[id].wanted()),
                overtaken == (|id: K::V| before.keys[id].overtaken()),
                index <= ids.len(),
                requeued <= index,
                superseded <= index,
                requeued == ids.take(index as int).filter(wanted).len(),
                superseded == ids.take(index as int).filter(overtaken).len(),
                forall|id: K::V| #[trigger]
                    before.keys.contains_key(id) <==> self.keys.map().contains_key(id),
                forall|i: int|
                    0 <= i < index ==> self.keys.map()[#[trigger] ids[i]]@
                        == before.keys[ids[i]].returned(),
                forall|i: int|
                    index <= i < ids.len() ==> self.keys.map()[#[trigger] ids[i]]@
                        == before.keys[ids[i]],
            decreases ids.len() - index,
        {
            let ghost id = ids[index as int];
            let ghost here = self.keys.map();
            proof {
                reveal(Seq::filter);
                let longer = ids.take(index + 1);
                assert(longer.drop_last() =~= ids.take(index as int));
                assert(longer.last() == id);
                assert(here[id]@ == before.keys[id]);
                self.keys.wf_facts();
                assert(ids.contains(id));
                assert(here.contains_key(id));
            }
            if self.keys.value_at(index).inflight.is_some() {
                let entry = self.keys.value_at_mut(index);
                if Self::give_back(entry) {
                    superseded = superseded + 1;
                } else {
                    requeued = requeued + 1;
                }
            }
            proof {
                assert(self.keys.map()[id]@ == before.keys[id].returned());
                assert forall|i: int| 0 <= i < ids.len() && i != index implies self.keys.map()[
                    #[trigger] ids[i]] == here[ids[i]] by {
                    assert(ids[i] != id);
                }
            }
            index = index + 1;
        }
        proof {
            assert(ids.take(index as int) =~= ids);
            self.keys.wf_facts();
            assert(before.keys.dom() =~= self.keys.map().dom());
            ascending_is_in_order::<K>(ids);
            let after = refenced::<K, V::V>(before, new_generation).0;
            assert forall|id: K::V| #[trigger] self@.keys.contains_key(id) implies self@.keys[id]
                == after.keys[id] by {
                assert(ids.contains(id));
                let at = ids.index_of(id);
                assert(ids[at] == id);
            }
            assert(self@.keys =~= after.keys);
        }
        (
            LatestDurableChange { state: true },
            LatestDurableReconnect::Advanced {
                generation: new_generation,
                requeued,
                superseded,
            },
        )
    }
}

} // verus!
