//! The graph-agnostic broadcast log: a retained append log and a table of absolute
//! cursors.
//!
//! Every mutator returns which subscribers changed; clearing their readers is the
//! work of the cell.

use vstd::prelude::*;

use crate::queue::{
    TopicDurability, TopicSnapshot, TopicSubscribeOutcome, TopicSubscriptionSnapshot,
};
use crate::table::KeyedTable;
use crate::value::{Key, Datum, copies};

verus! {

/// A topic, over views.
#[verifier::ext_equal]
#[verifier::reject_recursive_types(Id)]
pub struct TopicState<P, Id> {
    /// Absolute offset of the first retained element.
    pub base_offset: u64,
    /// Retained elements, oldest first.
    pub elements: Seq<P>,
    /// Subscribers, in order of appearance.
    pub ids: Seq<Id>,
    /// Their records.
    pub subscriptions: Map<Id, TopicSubscriptionSnapshot>,
}

/// The lowest durable cursor of some subscribers, or `end` where there is none.
pub open spec fn frontier_of<Id>(
    ids: Seq<Id>,
    subscriptions: Map<Id, TopicSubscriptionSnapshot>,
    end: int,
) -> int
    decreases ids.len(),
{
    if ids.len() == 0 {
        end
    } else {
        let rest = frontier_of(ids.drop_last(), subscriptions, end);
        let last = subscriptions[ids.last()];
        if last.durability is Durable && last.cursor < rest {
            last.cursor as int
        } else {
            rest
        }
    }
}

impl<P, Id> TopicState<P, Id> {
    /// An empty topic at absolute offset zero.
    pub open spec fn initial() -> Self {
        TopicState {
            base_offset: 0,
            elements: Seq::empty(),
            ids: Seq::empty(),
            subscriptions: Map::empty(),
        }
    }

    /// Absolute offset behind the last element.
    pub open spec fn end(self) -> int {
        self.base_offset + self.elements.len()
    }

    /// What every reachable topic satisfies: offsets fit the machine, no cursor is
    /// beyond the end, no durable cursor is before the retained log, and an ephemeral
    /// subscriber is connected for as long as it is known.
    pub open spec fn wf(self) -> bool {
        &&& self.end() <= u64::MAX
        &&& self.ids.no_duplicates()
        &&& forall|id: Id| self.ids.contains(id) <==> #[trigger] self.subscriptions.contains_key(id)
        &&& forall|id: Id| #[trigger]
            self.subscriptions.contains_key(id) ==> {
                &&& self.subscriptions[id].cursor <= self.end()
                &&& self.subscriptions[id].durability is Durable ==> self.base_offset
                    <= self.subscriptions[id].cursor
                &&& self.subscriptions[id].durability is Ephemeral
                    ==> self.subscriptions[id].connected
            }
    }

    /// Whether every cursor lies within the retained log, as a snapshot that can be
    /// restored requires.
    pub open spec fn restorable(self) -> bool {
        forall|id: Id| #[trigger]
            self.subscriptions.contains_key(id) ==> self.base_offset
                <= self.subscriptions[id].cursor
    }

    /// With one record replaced or added.
    pub open spec fn with(self, id: Id, record: TopicSubscriptionSnapshot) -> Self {
        TopicState {
            ids: if self.ids.contains(id) {
                self.ids
            } else {
                self.ids.push(id)
            },
            subscriptions: self.subscriptions.insert(id, record),
            ..self
        }
    }

    /// A subscription, and whether its reader must be cleared.
    pub open spec fn subscribed(self, id: Id, durability: TopicDurability) -> (
        Self,
        TopicSubscribeOutcome,
        bool,
    ) {
        if self.subscriptions.contains_key(id) {
            let record = self.subscriptions[id];
            if record.connected {
                (self, TopicSubscribeOutcome::AlreadyConnected, false)
            } else {
                (
                    self.with(id, TopicSubscriptionSnapshot { connected: true, ..record }),
                    TopicSubscribeOutcome::Reconnected,
                    true,
                )
            }
        } else {
            (
                self.with(
                    id,
                    TopicSubscriptionSnapshot {
                        cursor: self.end() as u64,
                        durability,
                        connected: true,
                    },
                ),
                TopicSubscribeOutcome::Created,
                false,
            )
        }
    }

    /// A disconnect, and whether the record is gone. `None` where nothing changed.
    pub open spec fn disconnected(self, id: Id) -> (Self, Option<bool>) {
        if !self.subscriptions.contains_key(id) || !self.subscriptions[id].connected {
            (self, None)
        } else if self.subscriptions[id].durability is Ephemeral {
            (
                TopicState {
                    ids: self.ids.remove(self.ids.index_of(id)),
                    subscriptions: self.subscriptions.remove(id),
                    ..self
                },
                Some(true),
            )
        } else {
            (
                self.with(
                    id,
                    TopicSubscriptionSnapshot { connected: false, ..self.subscriptions[id] },
                ),
                Some(false),
            )
        }
    }

    /// Subscribers whose unread suffix grows with an element at `offset`.
    pub open spec fn listening(self, offset: int) -> Seq<Id> {
        self.ids.filter(
            |id: Id| self.subscriptions[id].connected && self.subscriptions[id].cursor <= offset,
        )
    }

    /// An element appended.
    pub open spec fn published(self, value: P) -> Self {
        TopicState { elements: self.elements.push(value), ..self }
    }

    /// How many retained elements a cursor has passed.
    pub open spec fn passed(self, cursor: u64) -> int {
        if cursor > self.base_offset {
            cursor - self.base_offset
        } else {
            0
        }
    }

    /// Whether a subscriber can advance.
    pub open spec fn can_advance(self, id: Id) -> bool {
        self.subscriptions.contains_key(id) && self.subscriptions[id].connected
            && self.subscriptions[id].cursor < self.end() && self.elements.len() > 0
    }

    /// A cursor advanced by one, and the element it passed.
    pub open spec fn advanced(self, id: Id) -> (Self, Option<P>) {
        if self.can_advance(id) {
            let record = self.subscriptions[id];
            (
                self.with(
                    id,
                    TopicSubscriptionSnapshot { cursor: (record.cursor + 1) as u64, ..record },
                ),
                Some(self.elements[self.passed(record.cursor)]),
            )
        } else {
            (self, None)
        }
    }

    /// The lowest durable cursor, or the end where there is none.
    pub open spec fn frontier(self) -> int {
        frontier_of(self.ids, self.subscriptions, self.end())
    }

    /// The prefix below the frontier dropped.
    pub open spec fn collected(self) -> Self {
        TopicState {
            base_offset: self.frontier() as u64,
            elements: self.elements.skip(self.frontier() - self.base_offset),
            ..self
        }
    }

    /// A subscriber's unread suffix.
    pub open spec fn suffix(self, id: Id) -> Seq<P> {
        if self.subscriptions.contains_key(id) && self.subscriptions[id].connected {
            self.elements.skip(self.passed(self.subscriptions[id].cursor))
        } else {
            Seq::empty()
        }
    }
}

/// The frontier is at most every durable cursor, at most the end, and not before
/// the retained log.
pub proof fn frontier_bounds<P, Id>(state: TopicState<P, Id>, ids: Seq<Id>)
    requires
        state.wf(),
        forall|i: int| 0 <= i < ids.len() ==> state.subscriptions.contains_key(#[trigger] ids[i]),
    ensures
        state.base_offset <= frontier_of(ids, state.subscriptions, state.end()) <= state.end(),
        forall|i: int|
            0 <= i < ids.len() && state.subscriptions[#[trigger] ids[i]].durability is Durable
                ==> frontier_of(ids, state.subscriptions, state.end())
                <= state.subscriptions[ids[i]].cursor,
    decreases ids.len(),
{
    if ids.len() > 0 {
        let fewer = ids.drop_last();
        assert forall|i: int| 0 <= i < fewer.len() implies state.subscriptions.contains_key(
            #[trigger] fewer[i],
        ) by {
            assert(fewer[i] == ids[i]);
        }
        frontier_bounds(state, fewer);
        assert(ids[ids.len() - 1] == ids.last());
        assert forall|i: int|
            0 <= i < ids.len() && state.subscriptions[#[trigger] ids[i]].durability
                is Durable implies frontier_of(ids, state.subscriptions, state.end())
            <= state.subscriptions[ids[i]].cursor by {
            if i < fewer.len() {
                assert(fewer[i] == ids[i]);
            }
        }
    }
}

/// Retained append log plus the table of cursors.
pub struct TopicCore<T, I> {
    base_offset: u64,
    elements: Vec<T>,
    subscriptions: KeyedTable<I, TopicSubscriptionSnapshot>,
}

impl<T: Datum, I: Key> View for TopicSnapshot<T, I> {
    type V = TopicState<T::V, I::V>;

    open spec fn view(&self) -> TopicState<T::V, I::V> {
        TopicState {
            base_offset: self.base_offset,
            elements: self.elements@.map_values(|element: T| element@),
            ids: self.subscriptions.ids(),
            subscriptions: self.subscriptions.map(),
        }
    }
}

impl<T: Datum, I: Key> View for TopicCore<T, I> {
    type V = TopicState<T::V, I::V>;

    closed spec fn view(&self) -> TopicState<T::V, I::V> {
        TopicState {
            base_offset: self.base_offset,
            elements: self.elements@.map_values(|element: T| element@),
            ids: self.subscriptions.ids(),
            subscriptions: self.subscriptions.map(),
        }
    }
}

impl<T: Datum, I: Key> TopicCore<T, I> {
    /// The topic is one that the operations can reach.
    pub closed spec fn wf(&self) -> bool {
        self.subscriptions.wf() && self@.wf()
    }

    /// What well-formedness says to a caller.
    pub proof fn wf_facts(&self)
        requires
            self.wf(),
        ensures
            self@.wf(),
    {
    }

    /// An empty topic at absolute offset zero.
    pub fn new() -> (core: Self)
        ensures
            core.wf(),
            core@ == TopicState::<T::V, I::V>::initial(),
    {
        let core = TopicCore {
            base_offset: 0,
            elements: Vec::new(),
            subscriptions: KeyedTable::new(),
        };
        proof {
            assert(core@ =~= TopicState::<T::V, I::V>::initial());
        }
        core
    }

    /// Rebuilds from a durable snapshot without moving any cursor.
    pub fn from_snapshot(snapshot: TopicSnapshot<T, I>) -> (core: Self)
        requires
            snapshot.subscriptions.wf(),
            snapshot@.wf(),
            snapshot@.restorable(),
        ensures
            core.wf(),
            core@ == snapshot@,
    {
        TopicCore {
            base_offset: snapshot.base_offset,
            elements: snapshot.elements,
            subscriptions: snapshot.subscriptions,
        }
    }

    /// Creates a cursor at the current tail, or reconnects a known identity without
    /// moving its cursor. The stored durability wins over the argument. The flag
    /// says whether that subscriber's reader must be cleared.
    pub fn subscribe(&mut self, id: I, durability: TopicDurability) -> (outcome: (
        TopicSubscribeOutcome,
        bool,
    ))
        requires
            old(self).wf(),
        ensures
            final(self).wf(),
            final(self)@ == old(self)@.subscribed(id@, durability).0,
            outcome.0 == old(self)@.subscribed(id@, durability).1,
            outcome.1 == old(self)@.subscribed(id@, durability).2,
    {
        let ghost who = id@;
        match self.subscriptions.find(&id) {
            Some(index) => {
                proof {
                    assert(old(self)@.subscriptions.contains_key(who));
                }
                if self.subscriptions.value_at(index).connected {
                    return (TopicSubscribeOutcome::AlreadyConnected, false);
                }
                let record = self.subscriptions.value_at_mut(index);
                record.connected = true;
                proof {
                    assert(self@ =~= old(self)@.subscribed(who, durability).0);
                }
                (TopicSubscribeOutcome::Reconnected, true)
            },
            None => {
                let cursor = self.end_offset();
                self.subscriptions.push(
                    id,
                    TopicSubscriptionSnapshot { cursor, durability, connected: true },
                );
                proof {
                    assert(self@ =~= old(self)@.subscribed(who, durability).0);
                    assert(self@.ids =~= old(self)@.ids.push(who));
                }
                (TopicSubscribeOutcome::Created, false)
            },
        }
    }

    /// Disconnects a subscriber. Durable records stay offline at the same cursor;
    /// ephemeral records are removed. `None` means nothing changed; otherwise the
    /// flag says whether the record is gone.
    pub fn disconnect(&mut self, id: &I) -> (outcome: Option<bool>)
        requires
            old(self).wf(),
        ensures
            final(self).wf(),
            final(self)@ == old(self)@.disconnected(id@).0,
            outcome == old(self)@.disconnected(id@).1,
    {
        let index = match self.subscriptions.find(id) {
            Some(index) => index,
            None => {
                return None;
            },
        };
        proof {
            assert(old(self)@.subscriptions.contains_key(id@));
        }
        let record = *self.subscriptions.value_at(index);
        if !record.connected {
            return None;
        }
        if record.durability == TopicDurability::Ephemeral {
            let _gone = self.subscriptions.remove_at(index);
            proof {
                assert(self@ =~= old(self)@.disconnected(id@).0);
                assert forall|other: I::V| self@.ids.contains(other) <==> #[trigger]
                    self@.subscriptions.contains_key(other) by {
                    assert(self.subscriptions.map().contains_key(other)
                        <==> self.subscriptions.ids().contains(other));
                }
            }
            Some(true)
        } else {
            let slot = self.subscriptions.value_at_mut(index);
            slot.connected = false;
            proof {
                assert(self@ =~= old(self)@.disconnected(id@).0);
            }
            Some(false)
        }
    }

    /// Appends exactly one element, leaving every cursor unchanged. Returns its
    /// absolute offset and the connected subscribers whose unread suffix grew.
    pub fn publish(&mut self, value: T) -> (outcome: (u64, Vec<I>))
        requires
            old(self).wf(),
            old(self)@.end() < u64::MAX,
            old(self)@.elements.len() < usize::MAX,
        ensures
            final(self).wf(),
            final(self)@ == old(self)@.published(value@),
            outcome.0 == old(self)@.end(),
            outcome.1@.map_values(|id: I| id@) == old(self)@.listening(old(self)@.end()),
    {
        let ghost model = value@;
        let ghost state = self@;
        let offset = self.end_offset();
        self.elements.push(value);
        proof {
            assert(self@.elements =~= state.elements.push(model));
            assert(self@ =~= state.published(model));
        }
        let mut connected: Vec<I> = Vec::new();
        let ghost listens = |id: I::V|
            state.subscriptions[id].connected && state.subscriptions[id].cursor <= offset;
        let mut index: usize = 0;
        proof {
            reveal(Seq::filter);
            assert(connected@.map_values(|id: I| id@) =~= state.ids.take(0).filter(listens));
        }
        while index < self.subscriptions.len()
            invariant
                self.subscriptions.wf(),
                self.subscriptions.ids() == state.ids,
                self.subscriptions.map() == state.subscriptions,
                listens == (|id: I::V|
                    state.subscriptions[id].connected && state.subscriptions[id].cursor <= offset),
                index <= state.ids.len(),
                connected@.map_values(|id: I| id@) == state.ids.take(index as int).filter(listens),
            decreases state.ids.len() - index,
        {
            let ghost before = connected@;
            let ghost id = state.ids[index as int];
            let record = *self.subscriptions.value_at(index);
            let grows = record.connected && record.cursor <= offset;
            if grows {
                connected.push(self.subscriptions.key_at(index).duplicate());
            }
            proof {
                reveal(Seq::filter);
                let longer = state.ids.take(index + 1);
                assert(longer.drop_last() =~= state.ids.take(index as int));
                assert(longer.last() == id);
                if grows {
                    assert(connected@.map_values(|id: I| id@) =~= before.map_values(
                        |id: I| id@,
                    ).push(id));
                }
            }
            index = index + 1;
        }
        proof {
            assert(state.ids.take(index as int) =~= state.ids);
            let wanted = |id: I::V|
                state.subscriptions[id].connected && state.subscriptions[id].cursor <= state.end();
            assert(listens =~= wanted);
        }
        (offset, connected)
    }

    /// Advances only the named connected cursor by one, returning the element it
    /// passed. At the tail, for an offline subscriber, or for an unknown id this is
    /// a no-op.
    pub fn advance(&mut self, id: &I) -> (passed: Option<T>)
        requires
            old(self).wf(),
        ensures
            final(self).wf(),
            final(self)@ == old(self)@.advanced(id@).0,
            match passed {
                Some(value) => old(self)@.advanced(id@).1 == Some(value@),
                None => old(self)@.advanced(id@).1 is None,
            },
    {
        let index = match self.subscriptions.find(id) {
            Some(index) => index,
            None => {
                return None;
            },
        };
        proof {
            assert(old(self)@.subscriptions.contains_key(id@));
        }
        let record = *self.subscriptions.value_at(index);
        if !record.connected || record.cursor >= self.end_offset() || self.elements.len() == 0 {
            return None;
        }
        let retained: usize = self.elements.len();
        let skip: u64 = record.cursor.saturating_sub(self.base_offset);
        proof {
            assert(skip < retained);
        }
        let value = self.elements[skip as usize].duplicate();
        let slot = self.subscriptions.value_at_mut(index);
        slot.cursor = slot.cursor + 1;
        proof {
            assert(self@ =~= old(self)@.advanced(id@).0);
        }
        Some(value)
    }

    /// Drops the prefix below the minimum durable cursor, or the whole retained log
    /// when no durable subscription exists. Returns how many elements went.
    pub fn gc(&mut self) -> (removed: usize)
        requires
            old(self).wf(),
        ensures
            final(self).wf(),
            final(self)@ == old(self)@.collected(),
            removed == old(self)@.frontier() - old(self)@.base_offset,
    {
        let ghost state = self@;
        let mut frontier: u64 = self.end_offset();
        let mut index: usize = 0;
        proof {
            assert(state.ids.take(0) =~= Seq::empty());
        }
        while index < self.subscriptions.len()
            invariant
                *self == *old(self),
                self.wf(),
                state == self@,
                index <= state.ids.len(),
                frontier == frontier_of(
                    state.ids.take(index as int),
                    state.subscriptions,
                    state.end(),
                ),
            decreases state.ids.len() - index,
        {
            proof {
                let longer = state.ids.take(index + 1);
                assert(longer.drop_last() =~= state.ids.take(index as int));
                assert(longer.last() == state.ids[index as int]);
            }
            let record = *self.subscriptions.value_at(index);
            if record.durability == TopicDurability::Durable && record.cursor < frontier {
                frontier = record.cursor;
            }
            index = index + 1;
        }
        proof {
            assert(state.ids.take(index as int) =~= state.ids);
            assert forall|i: int| 0 <= i < state.ids.len() implies
                state.subscriptions.contains_key(#[trigger] state.ids[i]) by {
                assert(state.ids.contains(state.ids[i]));
            }
            frontier_bounds(state, state.ids);
        }
        let retained: usize = self.elements.len();
        let removed: usize = (frontier - self.base_offset) as usize;
        proof {
            assert(removed <= retained);
            assert(removed == state.frontier() - state.base_offset);
        }
        let kept = self.elements.split_off(removed);
        self.elements = kept;
        self.base_offset = frontier;
        proof {
            assert(self@.elements =~= state.collected().elements);
            assert(self@ =~= state.collected());
            assert forall|id: I::V| #[trigger] self@.subscriptions.contains_key(id) implies {
                &&& self@.subscriptions[id].cursor <= self@.end()
                &&& self@.subscriptions[id].durability is Durable ==> self@.base_offset
                    <= self@.subscriptions[id].cursor
            } by {
                assert(state.ids.contains(id));
                let at = state.ids.index_of(id);
                assert(state.ids[at] == id);
            }
        }
        removed
    }

    /// One subscriber's unread suffix. Unknown and offline subscribers observe an
    /// empty stream.
    pub fn read_suffix(&self, id: &I) -> (suffix: Vec<T>)
        requires
            self.wf(),
        ensures
            suffix@.map_values(|element: T| element@) == self@.suffix(id@),
    {
        let mut suffix: Vec<T> = Vec::new();
        proof {
            assert(suffix@.map_values(|element: T| element@) =~= Seq::empty());
        }
        let record = match self.subscriptions.get(id) {
            Some(record) => *record,
            None => {
                return suffix;
            },
        };
        proof {
            assert(self@.subscriptions.contains_key(id@));
        }
        if !record.connected {
            return suffix;
        }
        let retained: usize = self.elements.len();
        let passed: u64 = record.cursor.saturating_sub(self.base_offset);
        proof {
            assert(passed <= retained);
        }
        let skip: usize = passed as usize;
        let ghost all = self@.suffix(id@);
        let mut index: usize = skip;
        proof {
            assert(suffix@.map_values(|element: T| element@) =~= all.take(0));
        }
        while index < self.elements.len()
            invariant
                skip <= index <= self.elements@.len(),
                self@.elements == self.elements@.map_values(|element: T| element@),
                all == self@.elements.skip(skip as int),
                suffix@.map_values(|element: T| element@) == all.take(index - skip),
            decreases self.elements@.len() - index,
        {
            let ghost before = suffix@;
            suffix.push(self.elements[index].duplicate());
            proof {
                let element = all[index - skip];
                assert(element == self.elements@[index as int]@);
                assert(suffix@.map_values(|element: T| element@) =~= before.map_values(
                    |element: T| element@,
                ).push(element));
                assert(all.take(index - skip + 1) =~= all.take(index - skip).push(element));
            }
            index = index + 1;
        }
        proof {
            assert(all.take(index - skip) =~= all);
        }
        suffix
    }

    /// Absolute offset of the first retained element.
    pub fn base_offset(&self) -> (offset: u64)
        ensures
            offset == self@.base_offset,
    {
        self.base_offset
    }

    /// Absolute offset behind the last element.
    pub fn end_offset(&self) -> (offset: u64)
        requires
            self.wf(),
        ensures
            offset == self@.end(),
    {
        self.base_offset + self.elements.len() as u64
    }

    /// Retained elements, oldest first.
    pub fn elements(&self) -> (elements: Vec<T>)
        ensures
            elements@.map_values(|element: T| element@) == self@.elements,
    {
        copies(&self.elements)
    }

    /// One subscription record.
    pub fn subscription(&self, id: &I) -> (record: Option<TopicSubscriptionSnapshot>)
        requires
            self.wf(),
        ensures
            match record {
                Some(found) => self@.subscriptions.contains_key(id@) && found
                    == self@.subscriptions[id@],
                None => !self@.subscriptions.contains_key(id@),
            },
    {
        match self.subscriptions.get(id) {
            Some(record) => Some(*record),
            None => None,
        }
    }

    /// Every subscriber, in order of appearance.
    pub fn subscription_ids(&self) -> (ids: Vec<I>)
        ensures
            ids@.map_values(|id: I| id@) == self@.ids,
    {
        self.subscriptions.keys()
    }

    /// An atomic snapshot.
    pub fn snapshot(&self) -> (snapshot: TopicSnapshot<T, I>)
        requires
            self.wf(),
        ensures
            snapshot.subscriptions.wf(),
            snapshot@ == self@,
    {
        let mut subscriptions: KeyedTable<I, TopicSubscriptionSnapshot> = KeyedTable::new();
        let mut index: usize = 0;
        let ghost ids = self.subscriptions.ids();
        proof {
            assert(subscriptions.ids() =~= ids.take(0));
        }
        while index < self.subscriptions.len()
            invariant
                self.subscriptions.wf(),
                subscriptions.wf(),
                ids == self.subscriptions.ids(),
                index <= ids.len(),
                subscriptions.ids() == ids.take(index as int),
                forall|id: I::V| #[trigger]
                    subscriptions.map().contains_key(id) ==> subscriptions.map()[id]
                        == self.subscriptions.map()[id],
            decreases ids.len() - index,
        {
            proof {
                let id = ids[index as int];
                assert(!ids.take(index as int).contains(id)) by {
                    if ids.take(index as int).contains(id) {
                        let at = ids.take(index as int).index_of(id);
                        assert(ids.take(index as int)[at] == id);
                        assert(ids[at] == id);
                    }
                }
                assert(ids.take(index + 1) =~= ids.take(index as int).push(id));
            }
            subscriptions.push(
                self.subscriptions.key_at(index).duplicate(),
                *self.subscriptions.value_at(index),
            );
            index = index + 1;
        }
        let snapshot = TopicSnapshot {
            base_offset: self.base_offset,
            elements: copies(&self.elements),
            subscriptions,
        };
        proof {
            assert(ids.take(index as int) =~= ids);
            assert forall|id: I::V| #[trigger]
                snapshot.subscriptions.map().contains_key(id)
                    <==> self.subscriptions.map().contains_key(id) by {
                assert(snapshot.subscriptions.ids().contains(id) <==> self.subscriptions.ids().contains(id));
            }
            assert(snapshot@.subscriptions =~= self@.subscriptions);
            assert(snapshot@ =~= self@);
        }
        snapshot
    }
}

} // verus!
