//! `ThreadSafeLatestDurableProjection`: the latest-durable projection on a context
//! that threads share.

use vstd::prelude::*;

use crate::latest_durable_projection_core::{
    LatestDurableAck, LatestDurableClaim, LatestDurableFailure, LatestDurableKeyState,
    LatestDurableListing, LatestDurableReconnect, LatestDurableSnapshot, LatestDurableState,
    LatestDurableUpsert, listing, refenced, waiting_keys,
};
use crate::latest_durable_shell::{LatestDurableCellState, LatestDurableShell};
use crate::reactive::{Computed, MemoState, ReactiveGraph, ThreadSafeContext};
use crate::value::{Key, OrderedKey};

verus! {

/// A keyed latest-durable projection with one memoized snapshot.
pub struct ThreadSafeLatestDurableProjection<K, V> {
    shell: LatestDurableShell<K, V>,
}

impl<K: OrderedKey, V: Key> View for ThreadSafeLatestDurableProjection<K, V> {
    type V = LatestDurableCellState<K::V, V::V>;

    closed spec fn view(&self) -> LatestDurableCellState<K::V, V::V> {
        self.shell@
    }
}

impl<K: OrderedKey, V: Key> ThreadSafeLatestDurableProjection<K, V> {
    /// The cell is one that the operations can reach.
    pub closed spec fn wf(&self) -> bool {
        self.shell.wf()
    }

    /// What well-formedness says to a caller.
    pub proof fn wf_facts(&self)
        requires
            self.wf(),
        ensures
            self@.core.wf(),
    {
        self.shell.wf_facts();
    }

    /// A projection without keys, at `generation`.
    pub fn new(ctx: &mut ThreadSafeContext, generation: u64) -> (cell: Self)
        requires
            old(ctx).wf(),
        ensures
            final(ctx).wf(),
            cell.wf(),
            cell@.core == (LatestDurableState::<K::V, V::V> { generation, keys: Map::empty() }),
            cell@.snapshot == MemoState::<LatestDurableListing<K::V, V::V>>::at(
                old(ctx).ledger().slots.len() as int,
            ),
            cell@.on(final(ctx).ledger()),
            final(ctx).ledger() == old(ctx).ledger().grown(1),
    {
        ThreadSafeLatestDurableProjection { shell: LatestDurableShell::new(ctx, generation) }
    }

    /// The generation fence.
    pub fn generation(&self) -> (generation: u64)
        ensures
            generation == self@.core.generation,
    {
        self.shell.generation()
    }

    /// Reads the complete observable state.
    pub fn snapshot(
        &mut self,
        ctx: &mut ThreadSafeContext,
    ) -> (snapshot: LatestDurableSnapshot<K, V>)
        requires
            old(ctx).wf(),
            old(self).wf(),
            old(self)@.on(old(ctx).ledger()),
        ensures
            final(ctx).wf(),
            final(self).wf(),
            final(self)@.on(final(ctx).ledger()),
            ({
                let shown = old(self)@.snapshot.shows(
                    old(ctx).ledger(),
                    listing::<K, V::V>(old(self)@.core),
                );
                &&& snapshot@ == shown
                &&& final(self)@ == (LatestDurableCellState {
                    snapshot: old(self)@.snapshot.showing(shown),
                    ..old(self)@
                })
                &&& final(ctx).ledger() == old(ctx).ledger().settled(old(self)@.snapshot.slot)
            }),
    {
        self.shell.snapshot(ctx)
    }

    /// Observable state of one key, or `None` when it is unknown. Reads no reader.
    pub fn state(&self, key: &K) -> (state: Option<LatestDurableKeyState<K, V>>)
        requires
            self.wf(),
        ensures
            match state {
                Some(entry) => self@.core.keys.contains_key(key@) && entry@
                    == self@.core.keys[key@],
                None => !self@.core.keys.contains_key(key@),
            },
    {
        self.shell.state(key)
    }

    /// The newest epoch of a key that the sink has applied.
    pub fn durable_through(&self, key: &K) -> (through: Option<u64>)
        requires
            self.wf(),
        ensures
            through == self@.core.entry(key@).durable_through,
    {
        self.shell.durable_through(key)
    }

    /// Keys that have a desire and no attempt in flight, ascending.
    pub fn pending_keys(&self) -> (keys: Vec<K>)
        requires
            self.wf(),
        ensures
            keys@.map_values(|key: K| key@) == waiting_keys::<K, V::V>(self@.core),
    {
        self.shell.pending_keys()
    }

    /// States the revision that a key should have.
    pub fn upsert_desired(
        &mut self,
        ctx: &mut ThreadSafeContext,
        key: K,
        epoch: u64,
        value: V,
    ) -> (outcome: LatestDurableUpsert)
        requires
            old(ctx).wf(),
            old(self).wf(),
            old(self)@.on(old(ctx).ledger()),
        ensures
            final(ctx).wf(),
            final(self).wf(),
            final(self)@.on(final(ctx).ledger()),
            ({
                let (core, expected) = old(self)@.core.upserted(key@, epoch, value@);
                &&& final(self)@ == old(self)@.over(core)
                &&& outcome == expected
            }),
            final(ctx).ledger() == old(ctx).ledger().cleared(old(self)@.roots(outcome is Accepted)),
    {
        self.shell.upsert_desired(ctx, key, epoch, value)
    }

    /// Takes a key's desired revision for an attempt of the sink that captured
    /// `generation`.
    pub fn claim(
        &mut self,
        ctx: &mut ThreadSafeContext,
        key: &K,
        generation: u64,
    ) -> (outcome: LatestDurableClaim<K, V>)
        requires
            old(ctx).wf(),
            old(self).wf(),
            old(self)@.on(old(ctx).ledger()),
        ensures
            final(ctx).wf(),
            final(self).wf(),
            final(self)@.on(final(ctx).ledger()),
            ({
                let (core, expected) = old(self)@.core.claimed(key@, generation);
                &&& final(self)@ == old(self)@.over(core)
                &&& outcome@ == expected
            }),
            final(ctx).ledger() == old(ctx).ledger().cleared(old(self)@.roots(outcome is Claimed)),
    {
        self.shell.claim(ctx, key, generation)
    }

    /// Reports that the sink has applied an attempt.
    pub fn ack_applied(
        &mut self,
        ctx: &mut ThreadSafeContext,
        key: &K,
        generation: u64,
        epoch: u64,
    ) -> (outcome: LatestDurableAck)
        requires
            old(ctx).wf(),
            old(self).wf(),
            old(self)@.on(old(ctx).ledger()),
        ensures
            final(ctx).wf(),
            final(self).wf(),
            final(self)@.on(final(ctx).ledger()),
            ({
                let (core, expected) = old(self)@.core.acked(key@, generation, epoch);
                &&& final(self)@ == old(self)@.over(core)
                &&& outcome == expected
            }),
            final(ctx).ledger() == old(ctx).ledger().cleared(
                old(self)@.roots(
                    generation == old(self)@.core.generation && old(self)@.core.flies(key@, epoch),
                ),
            ),
    {
        self.shell.ack_applied(ctx, key, generation, epoch)
    }

    /// Reports that an attempt failed and may be tried again.
    pub fn fail_retryable(
        &mut self,
        ctx: &mut ThreadSafeContext,
        key: &K,
        generation: u64,
        epoch: u64,
    ) -> (outcome: LatestDurableFailure)
        requires
            old(ctx).wf(),
            old(self).wf(),
            old(self)@.on(old(ctx).ledger()),
        ensures
            final(ctx).wf(),
            final(self).wf(),
            final(self)@.on(final(ctx).ledger()),
            ({
                let (core, expected) = old(self)@.core.failed(key@, generation, epoch);
                &&& final(self)@ == old(self)@.over(core)
                &&& outcome == expected
            }),
            final(ctx).ledger() == old(ctx).ledger().cleared(
                old(self)@.roots(outcome is Pending || outcome is Superseded),
            ),
    {
        self.shell.fail_retryable(ctx, key, generation, epoch)
    }

    /// Moves the generation fence; every attempt in flight is pending again.
    pub fn reconnect(
        &mut self,
        ctx: &mut ThreadSafeContext,
        generation: u64,
    ) -> (outcome: LatestDurableReconnect)
        requires
            old(ctx).wf(),
            old(self).wf(),
            old(self)@.on(old(ctx).ledger()),
        ensures
            final(ctx).wf(),
            final(self).wf(),
            final(self)@.on(final(ctx).ledger()),
            ({
                let (core, expected) = refenced::<K, V::V>(old(self)@.core, generation);
                &&& final(self)@ == old(self)@.over(core)
                &&& outcome == expected
            }),
            final(ctx).ledger() == old(ctx).ledger().cleared(old(self)@.roots(outcome is Advanced)),
    {
        self.shell.reconnect(ctx, generation)
    }

    /// Handle for the snapshot reader.
    pub fn state_handle(&self) -> (handle: Computed<LatestDurableSnapshot<K, V>>)
        ensures
            handle.slot() == self@.snapshot.slot,
    {
        Computed::new(self.shell.snapshot_slot())
    }
}

} // verus!
