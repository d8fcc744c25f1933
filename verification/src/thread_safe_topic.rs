//! `ThreadSafeTopicCell`: the broadcast topic on a context that threads share.

use vstd::prelude::*;

use crate::ingress_core::option_view;
use crate::queue::{
    TopicDurability, TopicSnapshot, TopicSubscribeOutcome, TopicSubscriptionSnapshot,
};
use crate::reactive::{Computed, MemoState, ReactiveGraph, ThreadSafeContext};
use crate::topic_core::TopicState;
use crate::topic_shell::{TopicCellState, TopicShell};
use crate::value::{Key, Datum};

verus! {

/// A broadcast topic: every subscriber receives every published element through an
/// independent, non-destructive cursor.
///
/// Elements are retained until every durable cursor has passed them. Ephemeral
/// subscriptions start at the current tail, disappear on disconnect, and never hold the
/// collection frontier. Advancing one subscriber never invalidates another.
pub struct ThreadSafeTopicCell<T, I = String> {
    shell: TopicShell<T, I>,
}

impl<T: Datum, I: Key> View for ThreadSafeTopicCell<T, I> {
    type V = TopicCellState<T::V, I::V>;

    closed spec fn view(&self) -> TopicCellState<T::V, I::V> {
        self.shell@
    }
}

impl<T: Datum, I: Key> ThreadSafeTopicCell<T, I> {
    /// The cell is one that the operations can reach.
    pub closed spec fn wf(&self) -> bool {
        self.shell.wf()
    }

    /// What well-formedness says to a caller.
    pub proof fn wf_facts(&self)
        requires
            self.wf(),
        ensures
            self@.core.wf(),
            self@.in_step(),
    {
        self.shell.wf_facts();
    }

    /// An empty topic at absolute offset zero. It has no reader yet.
    pub fn new(_ctx: &ThreadSafeContext) -> (cell: Self)
        ensures
            cell.wf(),
            cell@.core == TopicState::<T::V, I::V>::initial(),
            cell@.readers == Map::<I::V, MemoState<Seq<T::V>>>::empty(),
    {
        ThreadSafeTopicCell { shell: TopicShell::new() }
    }

    /// Restores an atomic topic snapshot, preserving durable cursors exactly.
    pub fn from_snapshot(ctx: &mut ThreadSafeContext, snapshot: TopicSnapshot<T, I>) -> (cell: Self)
        requires
            old(ctx).wf(),
            snapshot.subscriptions.wf(),
            snapshot@.wf(),
            snapshot@.restorable(),
        ensures
            final(ctx).wf(),
            cell.wf(),
            cell@.on(final(ctx).ledger()),
            (cell@, final(ctx).ledger()) == (TopicCellState {
                core: snapshot@,
                readers: Map::<I::V, MemoState<Seq<T::V>>>::empty(),
            }).with_all(old(ctx).ledger(), snapshot@.ids),
    {
        ThreadSafeTopicCell { shell: TopicShell::from_snapshot(ctx, snapshot) }
    }

    /// Creates a cursor at the current tail, or reconnects an existing identity without
    /// moving its cursor. Once an identity exists its stored durability wins over the
    /// argument.
    pub fn subscribe(
        &mut self,
        ctx: &mut ThreadSafeContext,
        id: I,
        durability: TopicDurability,
    ) -> (outcome: TopicSubscribeOutcome)
        requires
            old(ctx).wf(),
            old(self).wf(),
            old(self)@.on(old(ctx).ledger()),
        ensures
            final(ctx).wf(),
            final(self).wf(),
            final(self)@.on(final(ctx).ledger()),
            (final(self)@, final(ctx).ledger(), outcome) == old(self)@.subscribed(
                old(ctx).ledger(),
                id@,
                durability,
            ),
    {
        self.shell.subscribe(ctx, id, durability)
    }

    /// Reconnects a durable identity, preserving its cursor. Unknown identities are
    /// created as durable subscriptions at the current tail.
    pub fn reconnect(&mut self, ctx: &mut ThreadSafeContext, id: I) -> (outcome:
        TopicSubscribeOutcome)
        requires
            old(ctx).wf(),
            old(self).wf(),
            old(self)@.on(old(ctx).ledger()),
        ensures
            final(ctx).wf(),
            final(self).wf(),
            final(self)@.on(final(ctx).ledger()),
            (final(self)@, final(ctx).ledger(), outcome) == old(self)@.subscribed(
                old(ctx).ledger(),
                id@,
                TopicDurability::Durable,
            ),
    {
        self.shell.reconnect(ctx, id)
    }

    /// Disconnects a subscriber. Durable records remain offline at the same cursor;
    /// ephemeral records are removed. Returns whether anything changed.
    pub fn disconnect(&mut self, ctx: &mut ThreadSafeContext, id: &I) -> (changed: bool)
        requires
            old(ctx).wf(),
            old(self).wf(),
            old(self)@.on(old(ctx).ledger()),
        ensures
            final(ctx).wf(),
            final(self).wf(),
            final(self)@.on(final(ctx).ledger()),
            (final(self)@, final(ctx).ledger(), changed) == old(self)@.disconnected(
                old(ctx).ledger(),
                id@,
            ),
    {
        self.shell.disconnect(ctx, id)
    }

    /// Appends exactly one element, leaving every cursor unchanged. Returns its absolute
    /// offset and invalidates every connected subscriber whose unread suffix grew.
    pub fn publish(&mut self, ctx: &mut ThreadSafeContext, value: T) -> (offset: u64)
        requires
            old(ctx).wf(),
            old(self).wf(),
            old(self)@.on(old(ctx).ledger()),
            old(self)@.core.end() < u64::MAX,
            old(self)@.core.elements.len() < usize::MAX,
        ensures
            final(ctx).wf(),
            final(self).wf(),
            final(self)@.on(final(ctx).ledger()),
            (final(self)@, final(ctx).ledger()) == old(self)@.published(old(ctx).ledger(), value@),
            offset == old(self)@.core.end(),
    {
        self.shell.publish(ctx, value)
    }

    /// Reads the unread suffix of one connected subscriber. Unknown and offline
    /// subscribers observe an empty stream.
    pub fn read_stream(&mut self, ctx: &mut ThreadSafeContext, id: &I) -> (suffix: Vec<T>)
        requires
            old(ctx).wf(),
            old(self).wf(),
            old(self)@.on(old(ctx).ledger()),
        ensures
            final(ctx).wf(),
            final(self).wf(),
            final(self)@.on(final(ctx).ledger()),
            (
                final(self)@,
                final(ctx).ledger(),
                suffix@.map_values(|element: T| element@),
            ) == old(self)@.streamed(old(ctx).ledger(), id@),
    {
        self.shell.read_stream(ctx, id)
    }

    /// Reads the element at a subscriber's cursor.
    pub fn read(&mut self, ctx: &mut ThreadSafeContext, id: &I) -> (element: Option<T>)
        requires
            old(ctx).wf(),
            old(self).wf(),
            old(self)@.on(old(ctx).ledger()),
        ensures
            final(ctx).wf(),
            final(self).wf(),
            final(self)@.on(final(ctx).ledger()),
            ({
                let (cell, ledger, shown) = old(self)@.streamed(old(ctx).ledger(), id@);
                &&& final(self)@ == cell
                &&& final(ctx).ledger() == ledger
                &&& option_view(element) == if shown.len() > 0 {
                    Some(shown[0])
                } else {
                    None
                }
            }),
    {
        self.shell.read(ctx, id)
    }

    /// Advances only the named connected cursor by one, returning the element it
    /// passed. At the tail, for an offline subscriber, or for an unknown id this is a
    /// no-op that invalidates nothing.
    pub fn advance(&mut self, ctx: &mut ThreadSafeContext, id: &I) -> (passed: Option<T>)
        requires
            old(ctx).wf(),
            old(self).wf(),
            old(self)@.on(old(ctx).ledger()),
        ensures
            final(ctx).wf(),
            final(self).wf(),
            final(self)@.on(final(ctx).ledger()),
            (final(self)@, final(ctx).ledger(), option_view(passed)) == old(self)@.advanced(
                old(ctx).ledger(),
                id@,
            ),
    {
        self.shell.advance(ctx, id)
    }

    /// Removes the prefix below the minimum durable cursor and returns how many elements
    /// that were. Cursors are absolute, so this invalidates no reader and needs no
    /// context.
    pub fn gc(&mut self) -> (removed: usize)
        requires
            old(self).wf(),
        ensures
            final(self).wf(),
            final(self)@ == old(self)@.over(old(self)@.core.collected()),
            removed == old(self)@.core.frontier() - old(self)@.core.base_offset,
    {
        self.shell.gc()
    }

    /// Absolute offset of the first retained element.
    pub fn base_offset(&self) -> (offset: u64)
        ensures
            offset == self@.core.base_offset,
    {
        self.shell.base_offset()
    }

    /// Absolute offset behind the last element.
    pub fn end_offset(&self) -> (offset: u64)
        requires
            self.wf(),
        ensures
            offset == self@.core.end(),
    {
        self.shell.end_offset()
    }

    /// Retained elements, oldest first. Reads no reader.
    pub fn elements(&self) -> (elements: Vec<T>)
        ensures
            elements@.map_values(|element: T| element@) == self@.core.elements,
    {
        self.shell.elements()
    }

    /// One subscription record.
    pub fn subscription(&self, id: &I) -> (record: Option<TopicSubscriptionSnapshot>)
        requires
            self.wf(),
        ensures
            match record {
                Some(found) => self@.core.subscriptions.contains_key(id@) && found
                    == self@.core.subscriptions[id@],
                None => !self@.core.subscriptions.contains_key(id@),
            },
    {
        self.shell.subscription(id)
    }

    /// Atomic durable and live state, suitable for a restart.
    pub fn snapshot(&self) -> (snapshot: TopicSnapshot<T, I>)
        requires
            self.wf(),
        ensures
            snapshot.subscriptions.wf(),
            snapshot@ == self@.core,
    {
        self.shell.snapshot()
    }

    /// Handle to the named subscriber's unread suffix.
    pub fn reader_handle(&self, id: &I) -> (handle: Option<Computed<Vec<T>>>)
        requires
            self.wf(),
        ensures
            match handle {
                Some(found) => self@.readers.contains_key(id@) && found.slot()
                    == self@.readers[id@].slot,
                None => !self@.readers.contains_key(id@),
            },
    {
        match self.shell.reader_slot(id) {
            Some(slot) => Some(Computed::new(slot)),
            None => None,
        }
    }
}

} // verus!
