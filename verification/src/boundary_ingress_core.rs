//! The graph-agnostic snapshot/event bootstrap owner.
//!
//! The value plane stays with the ingress core; this module owns the outer facts
//! that a transport must publish before envelopes can reach it: producer
//! generation, channel cursor, membership, validation, freshness and durable
//! delivery receipts. Accepted payloads leave as actions.

use vstd::prelude::*;

use crate::boundary_model::{
    BoundaryState, entry_keys, install_actions, installed, payload_actions, projected, replaced,
};
use crate::boundary_types::{
    BoundaryDeliveryReceipt, BoundaryFreshness, BoundaryIngressAction, BoundaryIngressConfig,
    BoundaryIngressEvent, BoundaryIngressPayload, BoundaryIngressPhase, BoundaryIngressProjection,
    BoundaryIngressSnapshot, BoundaryIngressTransition, BoundaryValidation,
};
use crate::ingress_types::IngressEnvelope;
use crate::sorted::{SortedTable, ascending_is_in_order, in_order};
use crate::sorted_set::SortedSet;
use crate::value::{Key, OrderedKey, Datum};

verus! {

/// Subscription facts of one boundary.
pub struct BoundaryIngressCore<K, T> {
    config: BoundaryIngressConfig,
    phase: BoundaryIngressPhase,
    generation: u64,
    cursor: Option<u64>,
    buffered: SortedTable<u64, BoundaryIngressEvent<K, T>>,
    source_keys: SortedSet<K>,
    members: SortedSet<String>,
    validation: BoundaryValidation,
    replay_from: Option<u64>,
    stale_events: u64,
    deliveries: SortedTable<String, BoundaryDeliveryReceipt>,
    active_delivery: Option<String>,
    last_stamped_at: Option<u64>,
    now: u64,
    revision: u64,
}

/// The views of a sequence of actions.
pub open spec fn action_views<K: View, T: View>(
    actions: Seq<BoundaryIngressAction<K, T>>,
) -> Seq<BoundaryIngressAction<K::V, T::V>> {
    actions.map_values(|action: BoundaryIngressAction<K, T>| action@)
}

impl<K: OrderedKey, T: View> View for BoundaryIngressCore<K, T> {
    type V = BoundaryState<K::V, T::V>;

    closed spec fn view(&self) -> BoundaryState<K::V, T::V> {
        BoundaryState {
            config: self.config,
            phase: self.phase,
            generation: self.generation,
            cursor: self.cursor,
            buffered: self.buffered.map().map_values(|event: BoundaryIngressEvent<K, T>| event@),
            source_keys: self.source_keys@,
            members: self.members@,
            validation: self.validation,
            replay_from: self.replay_from,
            stale_events: self.stale_events,
            deliveries: self.deliveries.map().map_values(
                |receipt: BoundaryDeliveryReceipt| receipt@,
            ),
            active_delivery: match self.active_delivery {
                Some(id) => Some(id@),
                None => None,
            },
            last_stamped_at: self.last_stamped_at,
            now: self.now,
            revision: self.revision,
        }
    }
}

impl<K: OrderedKey, T: View> BoundaryIngressCore<K, T> {
    /// The collections are in order.
    spec fn tidy(&self) -> bool {
        &&& self.buffered.wf()
        &&& self.source_keys.wf()
        &&& self.members.wf()
        &&& self.deliveries.wf()
        &&& forall|id: Seq<char>| #[trigger]
            self.deliveries.map().contains_key(id) ==> self.deliveries.map()[id].wf()
    }

    /// The facts are ones that the operations can reach.
    pub closed spec fn wf(&self) -> bool {
        &&& self.tidy()
        &&& self@.wf()
    }

    /// What well-formedness says to a caller.
    pub proof fn wf_facts(&self)
        requires
            self.wf(),
        ensures
            self@.wf(),
    {
    }

    /// The buffer's model has the buffer's domain.
    proof fn buffer_facts(&self)
        requires
            self.buffered.wf(),
        ensures
            self@.buffered.dom() == self.buffered.map().dom(),
            self@.buffered.dom().finite(),
            self@.buffered.len() == self.buffered.ids().len(),
            self.buffered.ids() == in_order::<u64>(self@.buffered.dom()),
    {
        self.buffered.wf_facts();
        assert(self@.buffered.dom() =~= self.buffered.map().dom());
        ascending_is_in_order::<u64>(self.buffered.ids());
    }

    /// Creates a detached boundary.
    pub fn new(config: BoundaryIngressConfig) -> (core: Self)
        ensures
            core.wf(),
            core@ == BoundaryState::<K::V, T::V>::detached(config),
    {
        let core = BoundaryIngressCore {
            config,
            phase: BoundaryIngressPhase::Detached,
            generation: 0,
            cursor: None,
            buffered: SortedTable::new(),
            source_keys: SortedSet::new(),
            members: SortedSet::new(),
            validation: BoundaryValidation::Valid,
            replay_from: None,
            stale_events: 0,
            deliveries: SortedTable::new(),
            active_delivery: None,
            last_stamped_at: None,
            now: 0,
            revision: 0,
        };
        proof {
            assert(core@ =~= BoundaryState::<K::V, T::V>::detached(config));
        }
        core
    }

    fn bump(&mut self)
        ensures
            old(self).tidy() ==> final(self).tidy(),
            final(self)@ == old(self)@.bumped(),
    {
        self.revision = self.revision.wrapping_add(1);
    }

    /// Hot-subscribes to `generation`. A newer call fences and discards every
    /// buffered event of the previous generation.
    pub fn subscribe(&mut self, generation: u64) -> (transition: BoundaryIngressTransition<K, T>)
        requires
            old(self).wf(),
        ensures
            final(self).wf(),
            final(self)@ == old(self)@.subscribed(generation).0,
            transition@.changed == old(self)@.subscribed(generation).1,
            transition@.actions == Seq::<BoundaryIngressAction<K::V, T::V>>::empty(),
    {
        if generation < self.generation {
            return BoundaryIngressTransition::quiet(false);
        }
        self.generation = generation;
        self.cursor = None;
        self.buffered.clear();
        self.source_keys.clear();
        self.members.clear();
        self.validation = BoundaryValidation::Valid;
        self.replay_from = None;
        self.phase = BoundaryIngressPhase::Bootstrapping;
        self.bump();
        proof {
            assert(self@ =~= old(self)@.subscribed(generation).0);
        }
        BoundaryIngressTransition::quiet(true)
    }

    /// Applies one frame's payload.
    fn apply_payload(
        &mut self,
        event: BoundaryIngressEvent<K, T>,
        actions: &mut Vec<BoundaryIngressAction<K, T>>,
    )
        requires
            old(self).tidy(),
        ensures
            final(self).tidy(),
            final(self)@ == old(self)@.applied(event@),
            action_views(final(actions)@) == action_views(old(actions)@) + payload_actions(
                event@.payload,
            ),
    {
        let ghost model = event@;
        let ghost before = action_views(actions@);
        let BoundaryIngressEvent { generation: _, cursor, stamped_at, payload } = event;
        self.cursor = Some(cursor);
        self.last_stamped_at = Some(stamped_at);
        match payload {
            BoundaryIngressPayload::Upsert(envelope) => {
                self.source_keys.insert(envelope.key.duplicate());
                actions.push(BoundaryIngressAction::Admit(envelope));
            },
            BoundaryIngressPayload::Remove(key) => {
                self.source_keys.remove(&key);
                actions.push(BoundaryIngressAction::Close(key));
            },
            BoundaryIngressPayload::Validate(validation) => {
                self.validation = validation;
            },
        }
        proof {
            assert(action_views(actions@) =~= before + payload_actions(model.payload));
            assert(self@ =~= old(self)@.applied(model));
        }
    }

    /// Applies every frame that follows the cursor without a gap, then derives
    /// phase and replay.
    fn drain_contiguous(&mut self, actions: &mut Vec<BoundaryIngressAction<K, T>>)
        requires
            old(self).tidy(),
            old(self)@.cursor matches Some(cursor) && cursor < u64::MAX,
            forall|at: u64| #[trigger]
                old(self)@.buffered.contains_key(at) ==> {
                    &&& at < u64::MAX
                    &&& old(self)@.buffered[at].cursor == at
                    &&& old(self)@.buffered[at].generation == old(self)@.generation
                    &&& old(self)@.cursor->0 < at
                },
        ensures
            final(self).tidy(),
            final(self)@ == old(self)@.drained().0.rephased(),
            action_views(final(actions)@) == action_views(old(actions)@) + old(self)@.drained().1,
            final(self)@.cursor matches Some(cursor) && cursor < u64::MAX,
            final(self)@.generation == old(self)@.generation,
            final(self)@.deliveries == old(self)@.deliveries,
            final(self)@.active_delivery == old(self)@.active_delivery,
            final(self)@.config == old(self)@.config,
            final(self)@.phased(),
            final(self)@.buffered.dom().finite(),
            final(self)@.buffered.len() <= old(self)@.buffered.len(),
            forall|at: u64| #[trigger]
                final(self)@.buffered.contains_key(at) ==> {
                    &&& at < u64::MAX
                    &&& final(self)@.buffered[at].cursor == at
                    &&& final(self)@.buffered[at].generation == final(self)@.generation
                    &&& final(self)@.cursor->0 + 1 < at
                },
    {
        let mut cursor: u64 = match self.cursor {
            Some(cursor) => cursor,
            None => 0,
        };
        let ghost start = self@;
        let ghost first = action_views(actions@);
        proof {
            assert(first =~= first + Seq::<BoundaryIngressAction<K::V, T::V>>::empty());
            assert(first + start.drained().1 =~= action_views(actions@) + self@.drained().1);
        }
        while self.buffered.contains(&(cursor + 1))
            invariant
                self.tidy(),
                self@.cursor == Some(cursor),
                cursor < u64::MAX,
                self@.drained().0 == start.drained().0,
                first + start.drained().1 == action_views(actions@) + self@.drained().1,
                self@.generation == start.generation,
                self@.deliveries == start.deliveries,
                self@.active_delivery == start.active_delivery,
                self@.config == start.config,
                self@.buffered.len() <= start.buffered.len(),
                forall|at: u64| #[trigger]
                    self@.buffered.contains_key(at) ==> {
                        &&& at < u64::MAX
                        &&& self@.buffered[at].cursor == at
                        &&& self@.buffered[at].generation == self@.generation
                        &&& cursor < at
                    },
            decreases u64::MAX - cursor,
        {
            let next: u64 = cursor + 1;
            let ghost here = self@;
            let ghost so_far = action_views(actions@);
            proof {
                self.buffer_facts();
                assert(here.buffered.contains_key(next));
            }
            match self.buffered.remove(&next) {
                Some(event) => {
                    let ghost model = event@;
                    let ghost taken = BoundaryState {
                        buffered: here.buffered.remove(next),
                        ..here
                    };
                    proof {
                        assert(model == here.buffered[next]);
                        assert(self@.buffered =~= taken.buffered);
                        assert(self@ =~= taken);
                    }
                    self.apply_payload(event, actions);
                    proof {
                        let (rest, tail) = taken.applied(model).drained();
                        assert(here.drained().0 == rest);
                        assert(here.drained().1 == payload_actions(model.payload) + tail);
                        assert(so_far + (payload_actions(model.payload) + tail) =~= action_views(
                            actions@,
                        ) + tail);
                    }
                    cursor = next;
                },
                None => {},
            }
        }
        proof {
            self.buffer_facts();
            assert(self@.drained() == (self@, Seq::<BoundaryIngressAction<K::V, T::V>>::empty()));
            assert(action_views(actions@) =~= first + start.drained().1);
        }
        let ghost settled = self@;
        if self.buffered.len() == 0 {
            self.replay_from = None;
            self.phase = if self.validation == BoundaryValidation::Valid {
                BoundaryIngressPhase::Live
            } else {
                BoundaryIngressPhase::Invalid
            };
        } else {
            self.replay_from = Some(cursor + 1);
            self.phase = BoundaryIngressPhase::ReplayRequired;
        }
        proof {
            assert(self@ =~= settled.rephased());
            if self@.buffered.len() == 0 {
                assert(self@.buffered.dom() =~= Set::empty());
                assert(self@.buffered =~= Map::empty());
            }
            assert forall|at: u64| #[trigger] self@.buffered.contains_key(at) implies cursor + 1
                < at by {
                assert(settled.buffered.contains_key(at));
            }
        }
    }

    /// Drops buffered frames at or below a cursor.
    fn forget_through(&mut self, cursor: u64)
        requires
            old(self).tidy(),
        ensures
            final(self).tidy(),
            final(self)@ == old(self)@.beyond(cursor),
            final(self)@.buffered.len() <= old(self)@.buffered.len(),
    {
        let ghost start = self@;
        proof {
            assert(self@.beyond(cursor).buffered =~= start.beyond(cursor).buffered);
        }
        while self.buffered.len() > 0 && *self.buffered.key_at(0) <= cursor
            invariant
                self.tidy(),
                self@.beyond(cursor) == start.beyond(cursor),
                self@.buffered.len() <= start.buffered.len(),
            decreases self.buffered.ids().len(),
        {
            let ghost before = self@;
            let ghost first = self.buffered.ids()[0];
            proof {
                self.buffer_facts();
            }
            let _dropped = self.buffered.remove_at(0);
            proof {
                self.buffer_facts();
                assert(self@.buffered =~= before.buffered.remove(first));
                assert(self@.beyond(cursor).buffered =~= before.beyond(cursor).buffered);
                assert(self@.beyond(cursor) =~= before.beyond(cursor));
            }
        }
        proof {
            self.buffered.wf_facts();
            assert forall|at: u64| self@.buffered.contains_key(at) implies at > cursor by {
                assert(self.buffered.ids().contains(at));
                let place = self.buffered.ids().index_of(at);
                assert(self.buffered.ids()[place] == at);
                if place > 0 {
                    reveal_with_fuel(crate::value::lex_less, 2);
                    assert(crate::value::lex_less(
                        u64::code(self.buffered.ids()[0]),
                        u64::code(self.buffered.ids()[place]),
                    ));
                }
            }
            assert(self@.buffered =~= self@.beyond(cursor).buffered);
            assert(self@ =~= start.beyond(cursor));
        }
    }

    /// Atomically installs a covering snapshot and every contiguous buffered
    /// successor.
    pub fn apply_snapshot(&mut self, snapshot: BoundaryIngressSnapshot<K, T>) -> (transition:
        BoundaryIngressTransition<K, T>)
        requires
            old(self).wf(),
            snapshot.cursor < u64::MAX || snapshot.generation < old(self)@.generation,
        ensures
            final(self).wf(),
            final(self)@ == installed::<K, T::V>(old(self)@, snapshot@).0,
            transition@ == installed::<K, T::V>(old(self)@, snapshot@).1,
    {
        let ghost model = snapshot@;
        if snapshot.generation < self.generation {
            self.stale_events = self.stale_events.wrapping_add(1);
            self.bump();
            return BoundaryIngressTransition::quiet(true);
        }
        let BoundaryIngressSnapshot {
            generation,
            cursor,
            stamped_at,
            entries,
            members,
            validation,
        } = snapshot;
        if generation > self.generation {
            self.generation = generation;
            self.buffered.clear();
        }
        let mut next_keys: SortedSet<K> = SortedSet::new();
        let mut index: usize = 0;
        let ghost keys = model.entries.map_values(|entry: IngressEnvelope<K::V, T::V>| entry.key);
        proof {
            assert(keys.take(0).to_set() =~= Set::<K::V>::empty());
        }
        while index < entries.len()
            invariant
                index <= entries@.len(),
                keys == model.entries.map_values(
                    |entry: IngressEnvelope<K::V, T::V>| entry.key,
                ),
                model.entries == entries@.map_values(|entry: IngressEnvelope<K, T>| entry@),
                next_keys.wf(),
                next_keys@ == keys.take(index as int).to_set(),
            decreases entries@.len() - index,
        {
            next_keys.insert(entries[index].key.duplicate());
            proof {
                assert(keys[index as int] == entries@[index as int]@.key);
                assert(keys.take(index + 1) =~= keys.take(index as int).push(keys[index as int]));
                assert(keys.take(index + 1).to_set() =~= keys.take(index as int).to_set().insert(
                    keys[index as int],
                )) by {
                    broadcast use vstd::seq_lib::group_seq_properties;
                }
            }
            index = index + 1;
        }
        proof {
            assert(keys.take(index as int) =~= keys);
        }
        let gone = self.source_keys.difference(&next_keys);
        let mut actions: Vec<BoundaryIngressAction<K, T>> = Vec::new();
        let mut place: usize = 0;
        let ghost close = |key: K::V| BoundaryIngressAction::<K::V, T::V>::Close(key);
        let ghost gone_ids = in_order::<K>(
            old(self)@.source_keys.difference(entry_keys(model.entries)),
        );
        proof {
            assert(action_views(actions@) =~= gone_ids.take(0).map_values(close));
        }
        while place < gone.len()
            invariant
                place <= gone@.len(),
                close == (|key: K::V| BoundaryIngressAction::<K::V, T::V>::Close(key)),
                gone@.map_values(|key: K| key@) == gone_ids,
                action_views(actions@) == gone_ids.take(place as int).map_values(close),
            decreases gone@.len() - place,
        {
            let ghost before = actions@;
            actions.push(BoundaryIngressAction::Close(gone[place].duplicate()));
            proof {
                assert(gone_ids[place as int] == gone@[place as int]@);
                assert(action_views(actions@) =~= action_views(before).push(
                    close(gone_ids[place as int]),
                ));
                assert(gone_ids.take(place + 1).map_values(close) =~= gone_ids.take(
                    place as int,
                ).map_values(close).push(close(gone_ids[place as int])));
            }
            place = place + 1;
        }
        proof {
            assert(gone_ids.take(place as int) =~= gone_ids);
        }
        let ghost closes = gone_ids.map_values(close);
        let ghost hand = |entry: IngressEnvelope<K::V, T::V>|
            BoundaryIngressAction::<K::V, T::V>::Admit(entry);
        let ghost all_handed = model.entries.map_values(hand);
        proof {
            assert(action_views(actions@) =~= closes + all_handed.take(0));
        }
        for entry in iter: entries
            invariant
                hand == (|entry: IngressEnvelope<K::V, T::V>|
                    BoundaryIngressAction::<K::V, T::V>::Admit(entry)),
                all_handed == model.entries.map_values(hand),
                model.entries == entries@.map_values(|entry: IngressEnvelope<K, T>| entry@),
                iter.seq() == entries@,
                action_views(actions@) == closes + all_handed.take(iter.index() as int),
        {
            let ghost before = actions@;
            let ghost index = iter.index() as int;
            let ghost id = entry@;
            actions.push(BoundaryIngressAction::Admit(entry));
            proof {
                assert(id == model.entries[index]);
                assert(action_views(actions@) =~= action_views(before).push(hand(id)));
                assert(all_handed.take(index + 1) =~= all_handed.take(index).push(hand(id)));
                assert(action_views(actions@) =~= closes + all_handed.take(index + 1));
            }
        }
        proof {
            assert(all_handed.take(all_handed.len() as int) =~= all_handed);
            assert(action_views(actions@) == install_actions::<K, T::V>(
                old(self)@.source_keys,
                model.entries,
            ));
        }
        let mut frontier: SortedSet<String> = SortedSet::new();
        let mut at: usize = 0;
        proof {
            assert(model.members.take(0).to_set() =~= Set::<Seq<char>>::empty());
        }
        while at < members.len()
            invariant
                at <= members@.len(),
                model.members == members@.map_values(|member: String| member@),
                frontier.wf(),
                frontier@ == model.members.take(at as int).to_set(),
            decreases members@.len() - at,
        {
            frontier.insert(members[at].duplicate());
            proof {
                let id = model.members[at as int];
                assert(id == members@[at as int]@);
                assert(model.members.take(at + 1) =~= model.members.take(at as int).push(id));
                assert(model.members.take(at + 1).to_set() =~= model.members.take(
                    at as int,
                ).to_set().insert(id)) by {
                    broadcast use vstd::seq_lib::group_seq_properties;
                }
            }
            at = at + 1;
        }
        proof {
            assert(model.members.take(at as int) =~= model.members);
        }
        self.source_keys = next_keys;
        self.members = frontier;
        self.validation = validation;
        self.cursor = Some(cursor);
        self.last_stamped_at = Some(stamped_at);
        proof {
            assert(self@ =~= replaced(old(self)@, model));
        }
        self.forget_through(cursor);
        self.drain_contiguous(&mut actions);
        self.bump();
        BoundaryIngressTransition { actions, changed: true }
    }

    /// Publishes one event-channel frame.
    pub fn apply_event(&mut self, event: BoundaryIngressEvent<K, T>) -> (transition:
        BoundaryIngressTransition<K, T>)
        requires
            old(self).wf(),
            event.cursor < u64::MAX || event.generation < old(self)@.generation,
        ensures
            final(self).wf(),
            final(self)@ == old(self)@.received(event@).0,
            transition@ == old(self)@.received(event@).1,
    {
        let ghost model = event@;
        if event.generation < self.generation {
            self.stale_events = self.stale_events.wrapping_add(1);
            self.bump();
            return BoundaryIngressTransition::quiet(true);
        }
        if event.generation > self.generation {
            self.generation = event.generation;
            self.cursor = None;
            self.buffered.clear();
            self.source_keys.clear();
            self.members.clear();
            self.phase = BoundaryIngressPhase::Bootstrapping;
            self.replay_from = None;
            proof {
                assert(self@.buffered =~= Map::empty());
            }
        }
        let ghost base = self@;
        proof {
            self.buffer_facts();
            assert(base.wf());
        }
        let at: u64 = event.cursor;
        let cursor: u64 = match self.cursor {
            Some(cursor) => cursor,
            None => {
                let known = self.buffered.contains(&at);
                if self.buffered.len() >= self.config.max_buffered && !known {
                    self.phase = BoundaryIngressPhase::Backpressured;
                    self.replay_from = Some(0);
                    self.bump();
                    return BoundaryIngressTransition::quiet(true);
                }
                self.buffered.put(at, event);
                proof {
                    assert(self@.buffered =~= base.buffered.insert(at, model));
                }
                if !known {
                    self.bump();
                }
                return BoundaryIngressTransition::quiet(!known);
            },
        };
        if at <= cursor || self.buffered.contains(&at) {
            return BoundaryIngressTransition::quiet(false);
        }
        if at == cursor + 1 {
            let mut actions: Vec<BoundaryIngressAction<K, T>> = Vec::new();
            self.apply_payload(event, &mut actions);
            proof {
                assert(self@.buffered == base.buffered);
            }
            self.drain_contiguous(&mut actions);
            self.bump();
            proof {
                let tail = base.applied(model).drained().1;
                assert(action_views(actions@) =~= payload_actions(model.payload) + tail);
            }
            return BoundaryIngressTransition { actions, changed: true };
        }
        if self.buffered.len() >= self.config.max_buffered {
            self.phase = BoundaryIngressPhase::Backpressured;
            self.replay_from = Some(cursor + 1);
            self.bump();
            return BoundaryIngressTransition::quiet(true);
        }
        self.buffered.put(at, event);
        proof {
            assert(self@.buffered =~= base.buffered.insert(at, model));
        }
        self.phase = BoundaryIngressPhase::ReplayRequired;
        self.replay_from = Some(cursor + 1);
        self.bump();
        BoundaryIngressTransition::quiet(true)
    }

    /// Publishes current subscriber membership.
    pub fn member_join(&mut self, member: String) -> (changed: bool)
        requires
            old(self).wf(),
        ensures
            final(self).wf(),
            final(self)@ == old(self)@.joined(member@).0,
            changed == old(self)@.joined(member@).1,
    {
        let ghost id = member@;
        if !self.members.insert(member.duplicate()) {
            proof {
                assert(self@.members =~= old(self)@.members);
                assert(self@ =~= old(self)@);
            }
            return false;
        }
        match &self.active_delivery {
            Some(receipt_id) => {
                match self.deliveries.find(receipt_id) {
                    Some(index) => {
                        let ghost before = self@.deliveries;
                        let receipt = self.deliveries.value_at_mut(index);
                        if receipt.targets.is_empty() {
                            receipt.targets.insert(member);
                        }
                        let ghost placed = *receipt;
                        proof {
                            assert(self@.deliveries =~= before.insert(receipt_id@, placed@));
                            assert(placed@ =~= old(self)@.joined(id).0.deliveries[receipt_id@]);
                        }
                    },
                    None => {},
                }
            },
            None => {},
        }
        self.bump();
        proof {
            assert(self@.deliveries =~= old(self)@.joined(id).0.deliveries);
            assert(self@ =~= old(self)@.joined(id).0);
        }
        true
    }

    /// Removes live membership without shrinking any captured receipt frontier.
    pub fn member_leave(&mut self, member: &str) -> (changed: bool)
        requires
            old(self).wf(),
        ensures
            final(self).wf(),
            final(self)@ == old(self)@.left(member@).0,
            changed == old(self)@.left(member@).1,
    {
        if !self.members.remove(&member.to_owned()) {
            proof {
                assert(self@.members =~= old(self)@.members);
                assert(self@ =~= old(self)@);
            }
            return false;
        }
        proof {
            assert(self@ =~= BoundaryState { members: old(self)@.members.remove(member@), ..old(self)@ });
        }
        self.bump();
        true
    }

    /// Opens or returns one durable delivery receipt. Returns whether another receipt is
    /// active now.
    pub fn open_delivery(&mut self, receipt_id: String) -> (changed: bool)
        requires
            old(self).wf(),
        ensures
            final(self).wf(),
            final(self)@ == old(self)@.delivering(receipt_id@).0,
            changed == old(self)@.delivering(receipt_id@).1,
    {
        let ghost id = receipt_id@;
        let active = match &self.active_delivery {
            Some(active) => active.same(&receipt_id),
            None => false,
        };
        if active {
            return false;
        }
        if self.deliveries.contains(&receipt_id) {
            self.active_delivery = Some(receipt_id);
            self.bump();
            proof {
                assert(self@ =~= old(self)@.delivering(id).0);
            }
            return true;
        }
        let receipt = BoundaryDeliveryReceipt {
            receipt_id: receipt_id.duplicate(),
            targets: self.members.duplicate(),
            acknowledged: SortedSet::new(),
        };
        let ghost facts = receipt@;
        self.deliveries.put(receipt_id.duplicate(), receipt);
        self.active_delivery = Some(receipt_id);
        self.bump();
        proof {
            assert(self@.deliveries =~= old(self)@.deliveries.insert(id, facts));
            assert(self@ =~= old(self)@.delivering(id).0);
        }
        true
    }

    /// Folds one idempotent acknowledgement fact.
    pub fn acknowledge(&mut self, receipt_id: &str, member: &str) -> (changed: bool)
        requires
            old(self).wf(),
        ensures
            final(self).wf(),
            final(self)@ == old(self)@.acknowledged(receipt_id@, member@).0,
            changed == old(self)@.acknowledged(receipt_id@, member@).1,
    {
        let wanted = receipt_id.to_owned();
        let who = member.to_owned();
        let index = match self.deliveries.find(&wanted) {
            Some(index) => index,
            None => {
                return false;
            },
        };
        let ghost before = self@;
        proof {
            assert(before.deliveries[wanted@] == self.deliveries.map()[wanted@]@);
        }
        if !self.deliveries.value_at(index).targets.contains(&who)
            || self.deliveries.value_at(index).acknowledged.contains(&who) {
            return false;
        }
        let receipt = self.deliveries.value_at_mut(index);
        receipt.acknowledged.insert(who);
        let ghost placed = *receipt;
        proof {
            assert(self@.deliveries =~= before.deliveries.insert(receipt_id@, placed@));
        }
        self.bump();
        proof {
            assert(self@ =~= old(self)@.acknowledged(receipt_id@, member@).0);
        }
        true
    }

    /// Derived freshness.
    pub fn freshness(&self) -> (freshness: BoundaryFreshness)
        ensures
            freshness == self@.freshness_of(),
    {
        match self.last_stamped_at {
            None => BoundaryFreshness::Unknown,
            Some(stamped_at) => {
                if self.now.saturating_sub(stamped_at) <= self.config.freshness_horizon {
                    BoundaryFreshness::Fresh
                } else {
                    BoundaryFreshness::Stale
                }
            },
        }
    }

    /// Advances logical time. Only a freshness edge advances the revision.
    pub fn tick(&mut self, now: u64) -> (changed: bool)
        requires
            old(self).wf(),
        ensures
            final(self).wf(),
            final(self)@ == old(self)@.ticked(now).0,
            changed == old(self)@.ticked(now).1,
    {
        let before = self.freshness();
        self.now = now;
        proof {
            assert(self@ =~= BoundaryState { now, ..old(self)@ });
        }
        if self.freshness() == before {
            return false;
        }
        self.bump();
        true
    }

    /// Atomic read model for a reactive source.
    pub fn projection(&self) -> (projection: BoundaryIngressProjection<K>)
        requires
            self.wf(),
        ensures
            projection.wf(),
            projection@ == projected::<K, T::V>(self@),
    {
        proof {
            self.buffer_facts();
            self.deliveries.wf_facts();
        }
        let active = match &self.active_delivery {
            Some(id) => match self.deliveries.get(id) {
                Some(receipt) => Some(receipt.duplicate()),
                None => None,
            },
            None => None,
        };
        let cursors = self.buffered.keys();
        proof {
            assert(cursors@ =~= cursors@.map_values(|key: u64| key@));
        }
        BoundaryIngressProjection {
            phase: self.phase,
            generation: self.generation,
            cursor: self.cursor,
            buffered_cursors: cursors,
            source_keys: self.source_keys.to_vec(),
            members: self.members.to_vec(),
            validation: self.validation,
            freshness: self.freshness(),
            replay_from: self.replay_from,
            stale_events: self.stale_events,
            active_delivery: active,
            revision: self.revision,
        }
    }
}

impl<K: OrderedKey, T: View> Default for BoundaryIngressCore<K, T> {
    fn default() -> (core: Self)
        ensures
            core.wf(),
            core@ == BoundaryState::<K::V, T::V>::detached(
                BoundaryIngressConfig { max_buffered: 64, freshness_horizon: 1_000 },
            ),
    {
        BoundaryIngressCore::new(BoundaryIngressConfig::default())
    }
}

} // verus!
