//! The reactive shell of the broadcast topic: one memoized unread suffix per
//! subscriber, on one context.
//!
//! Advancing one subscriber never invalidates another. A publish clears every
//! subscriber whose suffix grew in one walk, so no reader sees a partial fan-out.

use vstd::prelude::*;

use crate::graph::{Ledger, SlotId, positions, positions_empty, push_root, with_root};
use crate::ingress_core::option_view;
use crate::queue::{
    TopicDurability, TopicSnapshot, TopicSubscribeOutcome, TopicSubscriptionSnapshot,
};
use crate::reactive::{Listing, Memo, MemoState, ReactiveGraph};
use crate::table::KeyedTable;
use crate::topic_core::{TopicCore, TopicState};
use crate::value::{Key, Datum};

verus! {

/// The slots of some subscribers' readers.
pub open spec fn reader_roots<P, Id>(readers: Map<Id, MemoState<Seq<P>>>, ids: Seq<Id>) -> Set<int>
    decreases ids.len(),
{
    if ids.len() == 0 {
        Set::empty()
    } else {
        let last = ids.last();
        with_root(
            reader_roots(readers, ids.drop_last()),
            readers.contains_key(last),
            readers[last].slot,
        )
    }
}

/// A topic cell and its readers, over views.
#[verifier::ext_equal]
#[verifier::reject_recursive_types(Id)]
pub struct TopicCellState<P, Id> {
    /// The log and its cursors.
    pub core: TopicState<P, Id>,
    /// The reader of each subscriber.
    pub readers: Map<Id, MemoState<Seq<P>>>,
}

impl<P, Id> TopicCellState<P, Id> {
    /// The readers stand on slots that depend on nothing, and no two share one.
    pub open spec fn on(self, ledger: Ledger) -> bool {
        &&& forall|id: Id| #[trigger]
            self.readers.contains_key(id) ==> ledger.leaf(self.readers[id].slot)
        &&& forall|id: Id, other: Id| #[trigger]
            self.readers.contains_key(id) && #[trigger] self.readers.contains_key(other) && id
                != other ==> self.readers[id].slot != self.readers[other].slot
    }

    /// Exactly the subscribers have readers.
    pub open spec fn in_step(self) -> bool {
        forall|id: Id|
            self.readers.contains_key(id) <==> #[trigger] self.core.subscriptions.contains_key(id)
    }

    /// A cell stays on a ledger that only grows.
    pub proof fn stays_on(self, ledger: Ledger, later: Ledger)
        requires
            self.on(ledger),
            later.extends(ledger),
        ensures
            self.on(later),
    {
        assert forall|id: Id| #[trigger] self.readers.contains_key(id) implies later.leaf(
            self.readers[id].slot,
        ) by {
            assert(ledger.leaf(self.readers[id].slot));
        }
    }

    /// A cell stays on its ledger whatever log is behind its readers.
    pub proof fn over_stays_on(self, before: Self, ledger: Ledger)
        requires
            before.on(ledger),
            self.readers == before.readers,
        ensures
            self.on(ledger),
    {
    }

    /// With another log behind the same readers.
    pub open spec fn over(self, core: TopicState<P, Id>) -> Self {
        TopicCellState { core, ..self }
    }

    /// With a subscriber's reader minted, where it was not.
    pub open spec fn with_reader(self, ledger: Ledger, id: Id) -> (Self, Ledger) {
        if self.readers.contains_key(id) {
            (self, ledger)
        } else {
            (
                TopicCellState {
                    readers: self.readers.insert(id, MemoState::at(ledger.slots.len() as int)),
                    ..self
                },
                ledger.allocated(Seq::empty()),
            )
        }
    }

    /// With the readers of some subscribers minted, in order.
    pub open spec fn with_all(self, ledger: Ledger, ids: Seq<Id>) -> (Self, Ledger)
        decreases ids.len(),
    {
        if ids.len() == 0 {
            (self, ledger)
        } else {
            let (fewer, here) = self.with_all(ledger, ids.drop_last());
            fewer.with_reader(here, ids.last())
        }
    }

    /// A subscription: its reader exists, and is cleared where the subscriber came back.
    pub open spec fn subscribed(self, ledger: Ledger, id: Id, durability: TopicDurability) -> (
        Self,
        Ledger,
        TopicSubscribeOutcome,
    ) {
        let (core, outcome, clears) = self.core.subscribed(id, durability);
        let (minted, here) = self.over(core).with_reader(ledger, id);
        (
            minted,
            here.cleared(with_root(Set::empty(), clears, minted.readers[id].slot)),
            outcome,
        )
    }

    /// A disconnect: the reader is cleared, and gone with an ephemeral record.
    pub open spec fn disconnected(self, ledger: Ledger, id: Id) -> (Self, Ledger, bool) {
        let (core, outcome) = self.core.disconnected(id);
        match outcome {
            None => (self, ledger, false),
            Some(gone) => (
                TopicCellState {
                    core,
                    readers: if gone {
                        self.readers.remove(id)
                    } else {
                        self.readers
                    },
                },
                ledger.cleared(reader_roots(self.readers, seq![id])),
                true,
            ),
        }
    }

    /// An element appended: every listener's reader is cleared, in one walk.
    pub open spec fn published(self, ledger: Ledger, value: P) -> (Self, Ledger) {
        (
            self.over(self.core.published(value)),
            ledger.cleared(
                reader_roots(self.readers, self.core.listening(self.core.end())),
            ),
        )
    }

    /// A cursor advanced: only its own reader is cleared.
    pub open spec fn advanced(self, ledger: Ledger, id: Id) -> (Self, Ledger, Option<P>) {
        let (core, passed) = self.core.advanced(id);
        (
            self.over(core),
            if passed is Some {
                ledger.cleared(reader_roots(self.readers, seq![id]))
            } else {
                ledger
            },
            passed,
        )
    }

    /// A read of a subscriber's suffix. One without a reader sees an empty stream.
    pub open spec fn streamed(self, ledger: Ledger, id: Id) -> (Self, Ledger, Seq<P>) {
        if self.readers.contains_key(id) {
            let shown = self.readers[id].shows(ledger, self.core.suffix(id));
            (
                TopicCellState {
                    readers: self.readers.insert(id, self.readers[id].showing(shown)),
                    ..self
                },
                ledger.settled(self.readers[id].slot),
                shown,
            )
        } else {
            (self, ledger, Seq::empty())
        }
    }

    /// Every reader whose cache stands has in it the subscriber's unread suffix.
    pub open spec fn is_fresh(self, ledger: Ledger) -> bool {
        forall|id: Id| #[trigger]
            self.readers.contains_key(id) ==> self.readers[id].fresh(ledger, self.core.suffix(id))
    }
}

/// A reader's slot is a root exactly when its subscriber is among those named.
pub proof fn roots_name_their_subscribers<P, Id>(
    cell: TopicCellState<P, Id>,
    ledger: Ledger,
    ids: Seq<Id>,
    id: Id,
)
    requires
        cell.on(ledger),
        cell.readers.contains_key(id),
    ensures
        reader_roots(cell.readers, ids).contains(cell.readers[id].slot.index as int)
            == ids.contains(id),
    decreases ids.len(),
{
    if ids.len() > 0 {
        let fewer = ids.drop_last();
        let last = ids.last();
        roots_name_their_subscribers(cell, ledger, fewer, id);
        if fewer.contains(id) {
            let at = fewer.index_of(id);
            assert(ids[at] == id);
        }
        if ids.contains(id) && id != last {
            let at = ids.index_of(id);
            assert(fewer[at] == id);
        }
        if id == last {
            assert(ids[ids.len() - 1] == id);
        } else if cell.readers.contains_key(last) {
            assert(cell.readers[id].slot != cell.readers[last].slot);
        }
    }
}

/// A broadcast topic with its readers, on any context.
pub struct TopicShell<T, I> {
    core: TopicCore<T, I>,
    readers: KeyedTable<I, Memo<Listing<T>>>,
}

impl<T: Datum, I: Key> View for TopicShell<T, I> {
    type V = TopicCellState<T::V, I::V>;

    closed spec fn view(&self) -> TopicCellState<T::V, I::V> {
        TopicCellState {
            core: self.core@,
            readers: self.readers.map().map_values(|reader: Memo<Listing<T>>| reader@),
        }
    }
}

impl<T: Datum, I: Key> TopicShell<T, I> {
    /// The cell is one that the operations can reach.
    pub closed spec fn wf(&self) -> bool {
        self.core.wf() && self.readers.wf() && self@.in_step()
    }

    /// What well-formedness says to a caller.
    pub proof fn wf_facts(&self)
        requires
            self.wf(),
        ensures
            self@.core.wf(),
            self@.in_step(),
    {
        self.core.wf_facts();
    }

    /// An empty topic at absolute offset zero.
    pub fn new() -> (cell: Self)
        ensures
            cell.wf(),
            cell@.core == TopicState::<T::V, I::V>::initial(),
            cell@.readers == Map::<I::V, MemoState<Seq<T::V>>>::empty(),
    {
        let cell = TopicShell { core: TopicCore::new(), readers: KeyedTable::new() };
        proof {
            assert(cell@.readers =~= Map::<I::V, MemoState<Seq<T::V>>>::empty());
        }
        cell
    }

    /// Restores an atomic topic snapshot, preserving durable cursors exactly.
    pub fn from_snapshot<G: ReactiveGraph>(
        ctx: &mut G,
        snapshot: TopicSnapshot<T, I>,
    ) -> (cell: Self)
        requires
            old(ctx).wf(),
            snapshot.subscriptions.wf(),
            snapshot@.wf(),
            snapshot@.restorable(),
        ensures
            final(ctx).wf(),
            cell.wf(),
            cell@.on(final(ctx).ledger()),
            (cell@, final(ctx).ledger()) == (TopicCellState {
                core: snapshot@,
                readers: Map::<I::V, MemoState<Seq<T::V>>>::empty(),
            }).with_all(old(ctx).ledger(), snapshot@.ids),
    {
        let mut cell = TopicShell {
            core: TopicCore::from_snapshot(snapshot),
            readers: KeyedTable::new(),
        };
        let ghost start = cell@;
        let ghost ledger = ctx.ledger();
        let ids = cell.core.subscription_ids();
        let ghost names = start.core.ids;
        let mut index: usize = 0;
        proof {
            assert(start.readers =~= Map::<I::V, MemoState<Seq<T::V>>>::empty());
            assert(names.take(0) =~= Seq::empty());
            cell.core.wf_facts();
        }
        while index < ids.len()
            invariant
                ctx.wf(),
                cell.core.wf(),
                cell.core@ == start.core,
                cell.readers.wf(),
                cell@.on(ctx.ledger()),
                names == start.core.ids,
                names == ids@.map_values(|id: I| id@),
                index <= ids@.len(),
                (cell@, ctx.ledger()) == start.with_all(ledger, names.take(index as int)),
                forall|id: I::V| #[trigger]
                    cell@.readers.contains_key(id) <==> names.take(index as int).contains(id),
            decreases ids@.len() - index,
        {
            let ghost before = cell@;
            proof {
                let longer = names.take(index + 1);
                assert(longer.drop_last() =~= names.take(index as int));
                assert(longer.last() == ids@[index as int]@);
                assert forall|id: I::V| longer.contains(id) implies names.take(index as int).contains(
                    id,
                ) || id == longer.last() by {
                    let at = longer.index_of(id);
                    if at < index {
                        assert(names.take(index as int)[at] == id);
                    }
                }
                assert forall|id: I::V| names.take(index as int).contains(id) implies longer.contains(
                    id,
                ) by {
                    let at = names.take(index as int).index_of(id);
                    assert(longer[at] == id);
                }
                assert(longer[index as int] == longer.last());
                assert(longer.contains(longer.last()));
            }
            let _slot = cell.ensure_reader(ctx, &ids[index]);
            index = index + 1;
        }
        proof {
            assert(names.take(index as int) =~= names);
            cell.core.wf_facts();
            assert(cell@.in_step());
        }
        cell
    }

    /// The slot of a subscriber's reader, minted where it was not.
    fn ensure_reader<G: ReactiveGraph>(&mut self, ctx: &mut G, id: &I) -> (slot: SlotId)
        requires
            old(ctx).wf(),
            old(self).core.wf(),
            old(self).readers.wf(),
            old(self)@.on(old(ctx).ledger()),
        ensures
            final(ctx).wf(),
            final(self).core == old(self).core,
            final(self).readers.wf(),
            final(self)@.on(final(ctx).ledger()),
            (final(self)@, final(ctx).ledger()) == old(self)@.with_reader(old(ctx).ledger(), id@),
            final(self)@.readers.contains_key(id@),
            slot == final(self)@.readers[id@].slot,
    {
        match self.readers.find(id) {
            Some(index) => {
                proof {
                    assert(self.readers.map().contains_key(id@));
                }
                self.readers.value_at(index).id()
            },
            None => {
                let ghost start = ctx.ledger();
                proof {
                    ctx.wf_facts();
                    assert(Seq::<SlotId>::empty().map_values(|slot: SlotId| slot.index as int)
                        =~= Seq::<int>::empty());
                }
                let reader: Memo<Listing<T>> = Memo::new(ctx, Vec::new());
                let slot = reader.id();
                let ghost minted = reader@;
                self.readers.push(id.duplicate(), reader);
                proof {
                    assert(minted =~= MemoState::<Seq<T::V>>::at(start.slots.len() as int));
                    assert(self@.readers =~= old(self)@.readers.insert(id@, minted));
                    assert(self@ =~= old(self)@.with_reader(start, id@).0);
                    let after = ctx.ledger();
                    assert forall|other: I::V| #[trigger] self@.readers.contains_key(
                        other,
                    ) implies after.leaf(self@.readers[other].slot) by {
                        if other != id@ {
                            assert(old(self)@.readers.contains_key(other));
                        }
                    }
                    assert forall|one: I::V, other: I::V| #[trigger]
                        self@.readers.contains_key(one) && #[trigger] self@.readers.contains_key(
                            other,
                        ) && one != other implies self@.readers[one].slot
                        != self@.readers[other].slot by {
                        if one != id@ {
                            assert(old(self)@.readers.contains_key(one));
                            assert(start.leaf(old(self)@.readers[one].slot));
                        }
                        if other != id@ {
                            assert(old(self)@.readers.contains_key(other));
                            assert(start.leaf(old(self)@.readers[other].slot));
                        }
                    }
                }
                slot
            },
        }
    }

    /// Creates a cursor at the current tail, or reconnects an existing identity without
    /// moving its cursor. Once an identity exists its stored durability wins over the
    /// argument.
    pub fn subscribe<G: ReactiveGraph>(
        &mut self,
        ctx: &mut G,
        id: I,
        durability: TopicDurability,
    ) -> (outcome: TopicSubscribeOutcome)
        requires
            old(ctx).wf(),
            old(self).wf(),
            old(self)@.on(old(ctx).ledger()),
        ensures
            final(ctx).wf(),
            final(self).wf(),
            final(self)@.on(final(ctx).ledger()),
            (final(self)@, final(ctx).ledger(), outcome) == old(self)@.subscribed(
                old(ctx).ledger(),
                id@,
                durability,
            ),
    {
        let ghost who = id@;
        let (outcome, clears) = self.core.subscribe(id.duplicate(), durability);
        proof {
            assert(self@ =~= old(self)@.over(self.core@));
            self@.over_stays_on(old(self)@, ctx.ledger());
        }
        let slot = self.ensure_reader(ctx, &id);
        let mut roots: Vec<SlotId> = Vec::new();
        proof {
            positions_empty(roots@);
        }
        push_root(&mut roots, clears, slot);
        let ghost ledger = ctx.ledger();
        ctx.clear_slots(&roots);
        proof {
            self@.stays_on(ledger, ctx.ledger());
            assert forall|other: I::V|
                self@.readers.contains_key(other) <==> #[trigger] self@.core.subscriptions.contains_key(
                    other,
                ) by {
                assert(old(self)@.readers.contains_key(other)
                    <==> old(self)@.core.subscriptions.contains_key(other));
            }
        }
        outcome
    }

    /// Reconnects a durable identity, preserving its cursor. Unknown identities are
    /// created as durable subscriptions at the current tail.
    pub fn reconnect<G: ReactiveGraph>(&mut self, ctx: &mut G, id: I) -> (outcome:
        TopicSubscribeOutcome)
        requires
            old(ctx).wf(),
            old(self).wf(),
            old(self)@.on(old(ctx).ledger()),
        ensures
            final(ctx).wf(),
            final(self).wf(),
            final(self)@.on(final(ctx).ledger()),
            (final(self)@, final(ctx).ledger(), outcome) == old(self)@.subscribed(
                old(ctx).ledger(),
                id@,
                TopicDurability::Durable,
            ),
    {
        self.subscribe(ctx, id, TopicDurability::Durable)
    }

    /// Clears the readers of some subscribers, where they have one, in one walk.
    fn clear_readers<G: ReactiveGraph>(&mut self, ctx: &mut G, ids: &Vec<I>)
        requires
            old(ctx).wf(),
            old(self).readers.wf(),
            old(self)@.on(old(ctx).ledger()),
        ensures
            final(ctx).wf(),
            *final(self) == *old(self),
            final(self)@.on(final(ctx).ledger()),
            final(ctx).ledger() == old(ctx).ledger().cleared(
                reader_roots(old(self)@.readers, ids@.map_values(|id: I| id@)),
            ),
    {
        let ghost names = ids@.map_values(|id: I| id@);
        let mut roots: Vec<SlotId> = Vec::new();
        let mut index: usize = 0;
        proof {
            positions_empty(roots@);
            assert(names.take(0) =~= Seq::empty());
        }
        while index < ids.len()
            invariant
                *self == *old(self),
                self.readers.wf(),
                self@.on(ctx.ledger()),
                names == ids@.map_values(|id: I| id@),
                index <= ids@.len(),
                positions(roots@) == reader_roots(self@.readers, names.take(index as int)),
                forall|i: int| 0 <= i < roots@.len() ==> ctx.ledger().has(#[trigger] roots@[i]),
            decreases ids@.len() - index,
        {
            proof {
                let longer = names.take(index + 1);
                assert(longer.drop_last() =~= names.take(index as int));
                assert(longer.last() == ids@[index as int]@);
            }
            match self.readers.get(&ids[index]) {
                Some(reader) => {
                    proof {
                        let who = ids@[index as int]@;
                        assert(self@.readers.contains_key(who));
                        assert(self@.readers[who] == reader@);
                        assert(ctx.ledger().leaf(self@.readers[who].slot));
                    }
                    push_root(&mut roots, true, reader.id());
                },
                None => {
                    proof {
                        assert(!self@.readers.contains_key(ids@[index as int]@));
                    }
                },
            }
            index = index + 1;
        }
        proof {
            assert(names.take(index as int) =~= names);
        }
        let ghost ledger = ctx.ledger();
        ctx.clear_slots(&roots);
        proof {
            self@.stays_on(ledger, ctx.ledger());
        }
    }

    /// Disconnects a subscriber. Durable records remain offline at the same cursor;
    /// ephemeral records are removed. Returns whether anything changed.
    pub fn disconnect<G: ReactiveGraph>(&mut self, ctx: &mut G, id: &I) -> (changed: bool)
        requires
            old(ctx).wf(),
            old(self).wf(),
            old(self)@.on(old(ctx).ledger()),
        ensures
            final(ctx).wf(),
            final(self).wf(),
            final(self)@.on(final(ctx).ledger()),
            (final(self)@, final(ctx).ledger(), changed) == old(self)@.disconnected(
                old(ctx).ledger(),
                id@,
            ),
    {
        proof {
            self.core.wf_facts();
        }
        let gone = match self.core.disconnect(id) {
            Some(gone) => gone,
            None => {
                proof {
                    assert(self@ =~= old(self)@);
                }
                return false;
            },
        };
        proof {
            assert(self@ =~= old(self)@.over(self.core@));
            self@.over_stays_on(old(self)@, ctx.ledger());
        }
        let mut ids: Vec<I> = Vec::new();
        ids.push(id.duplicate());
        proof {
            assert(ids@.map_values(|id: I| id@) =~= seq![id@]);
        }
        self.clear_readers(ctx, &ids);
        let ghost cleared = self@;
        if gone {
            match self.readers.find(id) {
                Some(index) => {
                    let _reader = self.readers.remove_at(index);
                },
                None => {},
            }
        }
        proof {
            assert(self@.readers =~= if gone {
                old(self)@.readers.remove(id@)
            } else {
                old(self)@.readers
            });
            assert(self@ =~= old(self)@.disconnected(old(ctx).ledger(), id@).0);
            assert(self@.on(ctx.ledger())) by {
                assert forall|other: I::V| #[trigger] self@.readers.contains_key(
                    other,
                ) implies ctx.ledger().leaf(self@.readers[other].slot) by {
                    assert(cleared.readers.contains_key(other));
                }
                assert forall|one: I::V, other: I::V| #[trigger]
                    self@.readers.contains_key(one) && #[trigger] self@.readers.contains_key(other)
                        && one != other implies self@.readers[one].slot
                    != self@.readers[other].slot by {
                    assert(cleared.readers.contains_key(one));
                    assert(cleared.readers.contains_key(other));
                }
            }
            assert forall|other: I::V|
                self@.readers.contains_key(other) <==> #[trigger] self@.core.subscriptions.contains_key(
                    other,
                ) by {
                assert(old(self)@.readers.contains_key(other)
                    <==> old(self)@.core.subscriptions.contains_key(other));
            }
        }
        true
    }

    /// Appends exactly one element, leaving every cursor unchanged. Returns its absolute
    /// offset and invalidates every connected subscriber whose unread suffix grew.
    pub fn publish<G: ReactiveGraph>(&mut self, ctx: &mut G, value: T) -> (offset: u64)
        requires
            old(ctx).wf(),
            old(self).wf(),
            old(self)@.on(old(ctx).ledger()),
            old(self)@.core.end() < u64::MAX,
            old(self)@.core.elements.len() < usize::MAX,
        ensures
            final(ctx).wf(),
            final(self).wf(),
            final(self)@.on(final(ctx).ledger()),
            (final(self)@, final(ctx).ledger()) == old(self)@.published(old(ctx).ledger(), value@),
            offset == old(self)@.core.end(),
    {
        let (offset, listening) = self.core.publish(value);
        proof {
            assert(self@ =~= old(self)@.over(self.core@));
            self@.over_stays_on(old(self)@, ctx.ledger());
        }
        self.clear_readers(ctx, &listening);
        proof {
            assert(self@.in_step()) by {
                assert forall|other: I::V|
                    self@.readers.contains_key(other)
                        <==> #[trigger] self@.core.subscriptions.contains_key(other) by {
                    assert(old(self)@.readers.contains_key(other)
                        <==> old(self)@.core.subscriptions.contains_key(other));
                }
            }
        }
        offset
    }

    /// Reads the unread suffix of one connected subscriber. Unknown and offline
    /// subscribers observe an empty stream.
    pub fn read_stream<G: ReactiveGraph>(&mut self, ctx: &mut G, id: &I) -> (suffix: Vec<T>)
        requires
            old(ctx).wf(),
            old(self).wf(),
            old(self)@.on(old(ctx).ledger()),
        ensures
            final(ctx).wf(),
            final(self).wf(),
            final(self)@.on(final(ctx).ledger()),
            (
                final(self)@,
                final(ctx).ledger(),
                suffix@.map_values(|element: T| element@),
            ) == old(self)@.streamed(old(ctx).ledger(), id@),
    {
        let ghost start = self@;
        let ghost ledger = ctx.ledger();
        let index = match self.readers.find(id) {
            Some(index) => index,
            None => {
                let suffix: Vec<T> = Vec::new();
                proof {
                    assert(!self@.readers.contains_key(id@));
                    assert(suffix@.map_values(|element: T| element@) =~= Seq::empty());
                }
                return suffix;
            },
        };
        proof {
            assert(self@.readers.contains_key(id@));
        }
        match self.readers.value_at(index).cached(ctx) {
            Some(shown) => {
                proof {
                    assert(shown@ == start.readers[id@].shows(ledger, start.core.suffix(id@)));
                    assert(start.readers.insert(id@, start.readers[id@].showing(shown@))
                        =~= start.readers);
                }
                shown.items
            },
            None => {
                let derived = Listing { items: self.core.read_suffix(id) };
                let shown = self.readers.value_at_mut(index).store(ctx, derived);
                proof {
                    assert(self@.readers =~= start.readers.insert(
                        id@,
                        start.readers[id@].showing(shown@),
                    ));
                    start.stays_on(ledger, ctx.ledger());
                    assert(self@.on(ctx.ledger())) by {
                        assert forall|other: I::V| #[trigger] self@.readers.contains_key(
                            other,
                        ) implies ctx.ledger().leaf(self@.readers[other].slot) by {
                            assert(start.readers.contains_key(other));
                        }
                        assert forall|one: I::V, other: I::V| #[trigger]
                            self@.readers.contains_key(one)
                                && #[trigger] self@.readers.contains_key(other) && one
                                != other implies self@.readers[one].slot
                            != self@.readers[other].slot by {
                            assert(start.readers.contains_key(one));
                            assert(start.readers.contains_key(other));
                        }
                    }
                    assert forall|other: I::V|
                        self@.readers.contains_key(other)
                            <==> #[trigger] self@.core.subscriptions.contains_key(other) by {
                        assert(start.readers.contains_key(other)
                            <==> start.core.subscriptions.contains_key(other));
                    }
                }
                shown.items
            },
        }
    }

    /// Reads the element at a subscriber's cursor.
    pub fn read<G: ReactiveGraph>(&mut self, ctx: &mut G, id: &I) -> (element: Option<T>)
        requires
            old(ctx).wf(),
            old(self).wf(),
            old(self)@.on(old(ctx).ledger()),
        ensures
            final(ctx).wf(),
            final(self).wf(),
            final(self)@.on(final(ctx).ledger()),
            ({
                let (cell, ledger, shown) = old(self)@.streamed(old(ctx).ledger(), id@);
                &&& final(self)@ == cell
                &&& final(ctx).ledger() == ledger
                &&& option_view(element) == if shown.len() > 0 {
                    Some(shown[0])
                } else {
                    None
                }
            }),
    {
        let mut suffix = self.read_stream(ctx, id);
        if suffix.len() == 0 {
            return None;
        }
        let ghost seen = suffix@.map_values(|element: T| element@);
        let element = suffix.remove(0);
        proof {
            assert(seen[0] == element@);
        }
        Some(element)
    }

    /// Advances only the named connected cursor by one, returning the element it
    /// passed. At the tail, for an offline subscriber, or for an unknown id this is a
    /// no-op that invalidates nothing.
    pub fn advance<G: ReactiveGraph>(&mut self, ctx: &mut G, id: &I) -> (passed: Option<T>)
        requires
            old(ctx).wf(),
            old(self).wf(),
            old(self)@.on(old(ctx).ledger()),
        ensures
            final(ctx).wf(),
            final(self).wf(),
            final(self)@.on(final(ctx).ledger()),
            (final(self)@, final(ctx).ledger(), option_view(passed)) == old(self)@.advanced(
                old(ctx).ledger(),
                id@,
            ),
    {
        let passed = self.core.advance(id);
        proof {
            assert(self@ =~= old(self)@.over(self.core@));
            self@.over_stays_on(old(self)@, ctx.ledger());
            assert forall|other: I::V|
                self@.readers.contains_key(other) <==> #[trigger] self@.core.subscriptions.contains_key(
                    other,
                ) by {
                assert(old(self)@.readers.contains_key(other)
                    <==> old(self)@.core.subscriptions.contains_key(other));
            }
        }
        if passed.is_some() {
            let mut ids: Vec<I> = Vec::new();
            ids.push(id.duplicate());
            proof {
                assert(ids@.map_values(|id: I| id@) =~= seq![id@]);
            }
            self.clear_readers(ctx, &ids);
        }
        passed
    }

    /// Removes the prefix below the minimum durable cursor and returns how many elements
    /// that were. Cursors are absolute, so this invalidates no reader and needs no
    /// context.
    pub fn gc(&mut self) -> (removed: usize)
        requires
            old(self).wf(),
        ensures
            final(self).wf(),
            final(self)@ == old(self)@.over(old(self)@.core.collected()),
            removed == old(self)@.core.frontier() - old(self)@.core.base_offset,
    {
        let removed = self.core.gc();
        proof {
            assert(self@ =~= old(self)@.over(self.core@));
            assert forall|other: I::V|
                self@.readers.contains_key(other) <==> #[trigger] self@.core.subscriptions.contains_key(
                    other,
                ) by {
                assert(old(self)@.readers.contains_key(other)
                    <==> old(self)@.core.subscriptions.contains_key(other));
            }
        }
        removed
    }

    /// Absolute offset of the first retained element.
    pub fn base_offset(&self) -> (offset: u64)
        ensures
            offset == self@.core.base_offset,
    {
        self.core.base_offset()
    }

    /// Absolute offset behind the last element.
    pub fn end_offset(&self) -> (offset: u64)
        requires
            self.wf(),
        ensures
            offset == self@.core.end(),
    {
        self.core.end_offset()
    }

    /// Retained elements, oldest first. Reads no reader.
    pub fn elements(&self) -> (elements: Vec<T>)
        ensures
            elements@.map_values(|element: T| element@) == self@.core.elements,
    {
        self.core.elements()
    }

    /// One subscription record.
    pub fn subscription(&self, id: &I) -> (record: Option<TopicSubscriptionSnapshot>)
        requires
            self.wf(),
        ensures
            match record {
                Some(found) => self@.core.subscriptions.contains_key(id@) && found
                    == self@.core.subscriptions[id@],
                None => !self@.core.subscriptions.contains_key(id@),
            },
    {
        self.core.subscription(id)
    }

    /// The slot of the named subscriber's reader.
    pub fn reader_slot(&self, id: &I) -> (slot: Option<SlotId>)
        requires
            self.wf(),
        ensures
            match slot {
                Some(found) => self@.readers.contains_key(id@) && found == self@.readers[id@].slot,
                None => !self@.readers.contains_key(id@),
            },
    {
        match self.readers.get(id) {
            Some(reader) => {
                proof {
                    assert(self@.readers.contains_key(id@));
                }
                Some(reader.id())
            },
            None => None,
        }
    }

    /// Atomic durable and live state, suitable for a restart.
    pub fn snapshot(&self) -> (snapshot: TopicSnapshot<T, I>)
        requires
            self.wf(),
        ensures
            snapshot.subscriptions.wf(),
            snapshot@ == self@.core,
    {
        self.core.snapshot()
    }
}

} // verus!
