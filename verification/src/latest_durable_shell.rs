//! The reactive shell of the latest-durable projection: one memoized snapshot of every
//! key, on one context.

use vstd::prelude::*;

use crate::graph::{Ledger, SlotId, positions_empty, push_root, with_root};
use crate::latest_durable_projection_core::{
    LatestDurableAck, LatestDurableChange, LatestDurableClaim, LatestDurableFailure,
    LatestDurableKeyState, LatestDurableListing, LatestDurableProjectionCore,
    LatestDurableReconnect, LatestDurableSnapshot, LatestDurableState, LatestDurableUpsert,
    listing, refenced, waiting_keys,
};
use crate::reactive::{Memo, MemoState, ReactiveGraph};
use crate::value::{Key, OrderedKey};

verus! {

/// A projection cell and its reader, over views.
#[verifier::ext_equal]
#[verifier::reject_recursive_types(Id)]
pub struct LatestDurableCellState<Id, P> {
    /// What is known of each key.
    pub core: LatestDurableState<Id, P>,
    /// The snapshot reader.
    pub snapshot: MemoState<LatestDurableListing<Id, P>>,
}

impl<Id, P> LatestDurableCellState<Id, P> {
    /// The reader stands on a slot that depends on nothing.
    pub open spec fn on(self, ledger: Ledger) -> bool {
        ledger.leaf(self.snapshot.slot)
    }

    /// A cell stays on a ledger that only grows.
    pub proof fn stays_on(self, ledger: Ledger, later: Ledger)
        requires
            self.on(ledger),
            later.extends(ledger),
        ensures
            self.on(later),
    {
    }

    /// With other knowledge behind the same reader.
    pub open spec fn over(self, core: LatestDurableState<Id, P>) -> Self {
        LatestDurableCellState { core, ..self }
    }

    /// The slot that a change marks dirty.
    pub open spec fn roots(self, moved: bool) -> Set<int> {
        with_root(Set::empty(), moved, self.snapshot.slot)
    }
}

/// A keyed latest-durable projection with its reader, on any context.
pub struct LatestDurableShell<K, V> {
    core: LatestDurableProjectionCore<K, V>,
    snapshot: Memo<LatestDurableSnapshot<K, V>>,
}

impl<K: OrderedKey, V: Key> View for LatestDurableShell<K, V> {
    type V = LatestDurableCellState<K::V, V::V>;

    closed spec fn view(&self) -> LatestDurableCellState<K::V, V::V> {
        LatestDurableCellState { core: self.core@, snapshot: self.snapshot@ }
    }
}

impl<K: OrderedKey, V: Key> LatestDurableShell<K, V> {
    /// The cell is one that the operations can reach.
    pub closed spec fn wf(&self) -> bool {
        self.core.wf()
    }

    /// What well-formedness says to a caller.
    pub proof fn wf_facts(&self)
        requires
            self.wf(),
        ensures
            self@.core.wf(),
    {
        self.core.wf_facts();
    }

    /// A projection without keys, at `generation`.
    pub fn new<G: ReactiveGraph>(ctx: &mut G, generation: u64) -> (cell: Self)
        requires
            old(ctx).wf(),
        ensures
            final(ctx).wf(),
            cell.wf(),
            cell@.core == (LatestDurableState::<K::V, V::V> { generation, keys: Map::empty() }),
            cell@.snapshot == MemoState::<LatestDurableListing<K::V, V::V>>::at(
                old(ctx).ledger().slots.len() as int,
            ),
            cell@.on(final(ctx).ledger()),
            final(ctx).ledger() == old(ctx).ledger().grown(1),
    {
        proof {
            reveal_with_fuel(Ledger::grown, 2);
            assert(Seq::<SlotId>::empty().map_values(|slot: SlotId| slot.index as int)
                =~= Seq::<int>::empty());
        }
        let cell = LatestDurableShell {
            core: LatestDurableProjectionCore::new(generation),
            snapshot: Memo::new(ctx, Vec::new()),
        };
        proof {
            assert(cell@.snapshot =~= MemoState::<LatestDurableListing<K::V, V::V>>::at(
                old(ctx).ledger().slots.len() as int,
            ));
        }
        cell
    }

    /// Clears the reader where a change says that it moved.
    fn apply<G: ReactiveGraph>(&mut self, ctx: &mut G, change: LatestDurableChange)
        requires
            old(ctx).wf(),
            old(self).wf(),
            old(self)@.on(old(ctx).ledger()),
        ensures
            final(ctx).wf(),
            final(self).wf(),
            final(self)@.on(final(ctx).ledger()),
            final(self)@ == old(self)@,
            final(ctx).ledger() == old(ctx).ledger().cleared(old(self)@.roots(change.state)),
    {
        let mut roots: Vec<SlotId> = Vec::new();
        proof {
            positions_empty(roots@);
        }
        push_root(&mut roots, change.state, self.snapshot.id());
        let ghost ledger = ctx.ledger();
        ctx.clear_slots(&roots);
        proof {
            self@.stays_on(ledger, ctx.ledger());
        }
    }

    /// The generation fence.
    pub fn generation(&self) -> (generation: u64)
        ensures
            generation == self@.core.generation,
    {
        self.core.generation()
    }

    /// Observable state of one key, or `None` when it is unknown. Reads no reader.
    pub fn state(&self, key: &K) -> (state: Option<LatestDurableKeyState<K, V>>)
        requires
            self.wf(),
        ensures
            match state {
                Some(entry) => self@.core.keys.contains_key(key@) && entry@
                    == self@.core.keys[key@],
                None => !self@.core.keys.contains_key(key@),
            },
    {
        self.core.state(key)
    }

    /// The newest epoch of a key that the sink has applied.
    pub fn durable_through(&self, key: &K) -> (through: Option<u64>)
        requires
            self.wf(),
        ensures
            through == self@.core.entry(key@).durable_through,
    {
        self.core.durable_through(key)
    }

    /// Keys that have a desire and no attempt in flight, ascending.
    pub fn pending_keys(&self) -> (keys: Vec<K>)
        requires
            self.wf(),
        ensures
            keys@.map_values(|key: K| key@) == waiting_keys::<K, V::V>(self@.core),
    {
        self.core.pending_keys()
    }

    /// States the revision that a key should have.
    pub fn upsert_desired<G: ReactiveGraph>(
        &mut self,
        ctx: &mut G,
        key: K,
        epoch: u64,
        value: V,
    ) -> (outcome: LatestDurableUpsert)
        requires
            old(ctx).wf(),
            old(self).wf(),
            old(self)@.on(old(ctx).ledger()),
        ensures
            final(ctx).wf(),
            final(self).wf(),
            final(self)@.on(final(ctx).ledger()),
            ({
                let (core, expected) = old(self)@.core.upserted(key@, epoch, value@);
                &&& final(self)@ == old(self)@.over(core)
                &&& outcome == expected
            }),
            final(ctx).ledger() == old(ctx).ledger().cleared(old(self)@.roots(outcome is Accepted)),
    {
        let (change, outcome) = self.core.upsert_desired(key, epoch, value);
        proof {
            assert(self@ =~= old(self)@.over(self.core@));
        }
        self.apply(ctx, change);
        outcome
    }

    /// Takes a key's desired revision for an attempt of the sink that captured
    /// `generation`.
    pub fn claim<G: ReactiveGraph>(
        &mut self,
        ctx: &mut G,
        key: &K,
        generation: u64,
    ) -> (outcome: LatestDurableClaim<K, V>)
        requires
            old(ctx).wf(),
            old(self).wf(),
            old(self)@.on(old(ctx).ledger()),
        ensures
            final(ctx).wf(),
            final(self).wf(),
            final(self)@.on(final(ctx).ledger()),
            ({
                let (core, expected) = old(self)@.core.claimed(key@, generation);
                &&& final(self)@ == old(self)@.over(core)
                &&& outcome@ == expected
            }),
            final(ctx).ledger() == old(ctx).ledger().cleared(old(self)@.roots(outcome is Claimed)),
    {
        let (change, outcome) = self.core.claim(key, generation);
        proof {
            assert(self@ =~= old(self)@.over(self.core@));
        }
        self.apply(ctx, change);
        outcome
    }

    /// Reports that the sink has applied an attempt.
    pub fn ack_applied<G: ReactiveGraph>(
        &mut self,
        ctx: &mut G,
        key: &K,
        generation: u64,
        epoch: u64,
    ) -> (outcome: LatestDurableAck)
        requires
            old(ctx).wf(),
            old(self).wf(),
            old(self)@.on(old(ctx).ledger()),
        ensures
            final(ctx).wf(),
            final(self).wf(),
            final(self)@.on(final(ctx).ledger()),
            ({
                let (core, expected) = old(self)@.core.acked(key@, generation, epoch);
                &&& final(self)@ == old(self)@.over(core)
                &&& outcome == expected
            }),
            final(ctx).ledger() == old(ctx).ledger().cleared(
                old(self)@.roots(
                    generation == old(self)@.core.generation && old(self)@.core.flies(key@, epoch),
                ),
            ),
    {
        let (change, outcome) = self.core.ack_applied(key, generation, epoch);
        proof {
            assert(self@ =~= old(self)@.over(self.core@));
        }
        self.apply(ctx, change);
        outcome
    }

    /// Reports that an attempt failed and may be tried again.
    pub fn fail_retryable<G: ReactiveGraph>(
        &mut self,
        ctx: &mut G,
        key: &K,
        generation: u64,
        epoch: u64,
    ) -> (outcome: LatestDurableFailure)
        requires
            old(ctx).wf(),
            old(self).wf(),
            old(self)@.on(old(ctx).ledger()),
        ensures
            final(ctx).wf(),
            final(self).wf(),
            final(self)@.on(final(ctx).ledger()),
            ({
                let (core, expected) = old(self)@.core.failed(key@, generation, epoch);
                &&& final(self)@ == old(self)@.over(core)
                &&& outcome == expected
            }),
            final(ctx).ledger() == old(ctx).ledger().cleared(
                old(self)@.roots(outcome is Pending || outcome is Superseded),
            ),
    {
        let (change, outcome) = self.core.fail_retryable(key, generation, epoch);
        proof {
            assert(self@ =~= old(self)@.over(self.core@));
        }
        self.apply(ctx, change);
        outcome
    }

    /// Moves the generation fence; every attempt in flight is pending again.
    pub fn reconnect<G: ReactiveGraph>(
        &mut self,
        ctx: &mut G,
        generation: u64,
    ) -> (outcome: LatestDurableReconnect)
        requires
            old(ctx).wf(),
            old(self).wf(),
            old(self)@.on(old(ctx).ledger()),
        ensures
            final(ctx).wf(),
            final(self).wf(),
            final(self)@.on(final(ctx).ledger()),
            ({
                let (core, expected) = refenced::<K, V::V>(old(self)@.core, generation);
                &&& final(self)@ == old(self)@.over(core)
                &&& outcome == expected
            }),
            final(ctx).ledger() == old(ctx).ledger().cleared(old(self)@.roots(outcome is Advanced)),
    {
        let (change, outcome) = self.core.reconnect(generation);
        proof {
            assert(self@ =~= old(self)@.over(self.core@));
        }
        self.apply(ctx, change);
        outcome
    }

    /// Reads the complete observable state.
    pub fn snapshot<G: ReactiveGraph>(
        &mut self,
        ctx: &mut G,
    ) -> (snapshot: LatestDurableSnapshot<K, V>)
        requires
            old(ctx).wf(),
            old(self).wf(),
            old(self)@.on(old(ctx).ledger()),
        ensures
            final(ctx).wf(),
            final(self).wf(),
            final(self)@.on(final(ctx).ledger()),
            ({
                let shown = old(self)@.snapshot.shows(
                    old(ctx).ledger(),
                    listing::<K, V::V>(old(self)@.core),
                );
                &&& snapshot@ == shown
                &&& final(self)@ == (LatestDurableCellState {
                    snapshot: old(self)@.snapshot.showing(shown),
                    ..old(self)@
                })
                &&& final(ctx).ledger() == old(ctx).ledger().settled(old(self)@.snapshot.slot)
            }),
    {
        let ghost start = self@;
        let ghost ledger = ctx.ledger();
        match self.snapshot.cached(ctx) {
            Some(shown) => {
                proof {
                    assert(shown@ == start.snapshot.shows(ledger, listing::<K, V::V>(start.core)));
                    assert(start =~= LatestDurableCellState {
                        snapshot: start.snapshot.showing(shown@),
                        ..start
                    });
                }
                shown
            },
            None => {
                let derived = self.core.snapshot();
                let shown = self.snapshot.store(ctx, derived);
                proof {
                    assert(self@ =~= LatestDurableCellState {
                        snapshot: start.snapshot.showing(shown@),
                        ..start
                    });
                    start.stays_on(ledger, ledger.settled(start.snapshot.slot));
                }
                shown
            },
        }
    }

    /// The slot of the `snapshot` reader.
    pub fn snapshot_slot(&self) -> (slot: SlotId)
        ensures
            slot == self@.snapshot.slot,
    {
        self.snapshot.id()
    }
}

/// The snapshot, where its cache stands, is the one of what is known now.
pub open spec fn latest_durable_is_fresh<K: OrderedKey, P>(
    cell: LatestDurableCellState<K::V, P>,
    ledger: Ledger,
) -> bool {
    cell.snapshot.fresh(ledger, listing::<K, P>(cell.core))
}

/// Every transition that moves anything unseats the snapshot, so it stays fresh; a
/// transition that moves nothing leaves it standing.
pub proof fn transitions_keep_the_snapshot_fresh<K: OrderedKey, P>(
    cell: LatestDurableCellState<K::V, P>,
    ledger: Ledger,
    id: K::V,
    generation: u64,
    epoch: u64,
    value: P,
)
    requires
        cell.on(ledger),
        ledger.sound(),
        latest_durable_is_fresh::<K, P>(cell, ledger),
    ensures
        ({
            let (core, outcome) = cell.core.upserted(id, epoch, value);
            latest_durable_is_fresh::<K, P>(
                cell.over(core),
                ledger.cleared(cell.roots(outcome is Accepted)),
            )
        }),
        ({
            let (core, outcome) = cell.core.claimed(id, generation);
            latest_durable_is_fresh::<K, P>(
                cell.over(core),
                ledger.cleared(cell.roots(outcome is Claimed)),
            )
        }),
        ({
            let (core, outcome) = cell.core.acked(id, generation, epoch);
            latest_durable_is_fresh::<K, P>(
                cell.over(core),
                ledger.cleared(
                    cell.roots(generation == cell.core.generation && cell.core.flies(id, epoch)),
                ),
            )
        }),
        ({
            let (core, outcome) = cell.core.failed(id, generation, epoch);
            latest_durable_is_fresh::<K, P>(
                cell.over(core),
                ledger.cleared(cell.roots(outcome is Pending || outcome is Superseded)),
            )
        }),
        ({
            let (core, outcome) = refenced::<K, P>(cell.core, generation);
            latest_durable_is_fresh::<K, P>(
                cell.over(core),
                ledger.cleared(cell.roots(outcome is Advanced)),
            )
        }),
        ledger.cleared(cell.roots(false)) == ledger,
{
    let slot = cell.snapshot.slot;
    let before = listing::<K, P>(cell.core);
    cell.snapshot.clearing_keeps_fresh(
        ledger,
        cell.roots(true),
        before,
        listing::<K, P>(cell.core.upserted(id, epoch, value).0),
    );
    cell.snapshot.clearing_keeps_fresh(
        ledger,
        cell.roots(true),
        before,
        listing::<K, P>(cell.core.claimed(id, generation).0),
    );
    cell.snapshot.clearing_keeps_fresh(
        ledger,
        cell.roots(true),
        before,
        listing::<K, P>(cell.core.acked(id, generation, epoch).0),
    );
    cell.snapshot.clearing_keeps_fresh(
        ledger,
        cell.roots(true),
        before,
        listing::<K, P>(cell.core.failed(id, generation, epoch).0),
    );
    cell.snapshot.clearing_keeps_fresh(
        ledger,
        cell.roots(true),
        before,
        listing::<K, P>(refenced::<K, P>(cell.core, generation).0),
    );
}

} // verus!
