//! The reactive shell of the work queue: four memoized reader kinds on one context.
//!
//! Exactly the reader kinds that a transition moved are cleared, in one walk, so no
//! subscriber sees the pending length move while emptiness still reads stale.

use vstd::prelude::*;

use crate::graph::{Ledger, SlotId, positions_empty, push_root, with_root};
use crate::reactive::{Memo, MemoState, ReactiveGraph};
use crate::value::{Key, Datum};
use crate::work_queue_core::{
    ReaderChange, Transition, WorkQueueCore, WorkQueueDeadLetter, WorkQueueDeadLetterReason,
    WorkQueueDelivery, WorkQueueItem, WorkState,
};

verus! {

/// A work queue cell and its readers, over views.
#[verifier::ext_equal]
pub struct WorkCellState<P, W> {
    /// The lifecycle.
    pub core: WorkState<P, W>,
    /// How many items are pending.
    pub pending_len: MemoState<usize>,
    /// Whether nothing is pending.
    pub is_empty: MemoState<bool>,
    /// How many leases are live.
    pub in_flight_len: MemoState<usize>,
    /// How many items are dead.
    pub dead_letter_len: MemoState<usize>,
}

impl<P, W> WorkCellState<P, W> {
    /// A queue without items, its readers on four consecutive slots.
    pub open spec fn initial(visibility_timeout: u64, max_deliveries: u32, first: int) -> Self {
        WorkCellState {
            core: WorkState::initial(visibility_timeout, max_deliveries),
            pending_len: MemoState::at(first),
            is_empty: MemoState::at(first + 1),
            in_flight_len: MemoState::at(first + 2),
            dead_letter_len: MemoState::at(first + 3),
        }
    }

    /// The four readers stand on consecutive slots that depend on nothing.
    pub open spec fn on(self, ledger: Ledger) -> bool {
        &&& self.is_empty.slot.index == self.pending_len.slot.index + 1
        &&& self.in_flight_len.slot.index == self.pending_len.slot.index + 2
        &&& self.dead_letter_len.slot.index == self.pending_len.slot.index + 3
        &&& ledger.leaf(self.pending_len.slot)
        &&& ledger.leaf(self.is_empty.slot)
        &&& ledger.leaf(self.in_flight_len.slot)
        &&& ledger.leaf(self.dead_letter_len.slot)
    }

    /// A cell stays on a ledger that only grows.
    pub proof fn stays_on(self, ledger: Ledger, later: Ledger)
        requires
            self.on(ledger),
            later.extends(ledger),
        ensures
            self.on(later),
    {
    }

    /// With another lifecycle behind the same readers.
    pub open spec fn over(self, core: WorkState<P, W>) -> Self {
        WorkCellState { core, ..self }
    }

    /// Every slot that a change marks dirty.
    pub open spec fn roots(self, change: ReaderChange) -> Set<int> {
        with_root(
            with_root(
                with_root(
                    with_root(Set::empty(), change.pending_len, self.pending_len.slot),
                    change.is_empty,
                    self.is_empty.slot,
                ),
                change.in_flight_len,
                self.in_flight_len.slot,
            ),
            change.dead_letter_len,
            self.dead_letter_len.slot,
        )
    }

    /// The ledger after a transition to another lifecycle: exactly the reader kinds
    /// whose projection of the counts differs are cleared, in one walk.
    pub open spec fn moved(self, ledger: Ledger, core: WorkState<P, W>) -> Ledger {
        let transition = Transition { before: self.core.counts(), after: core.counts() };
        ledger.cleared(self.roots(transition.moved()))
    }

    /// Every reader whose cache stands has in it what the lifecycle counts now.
    pub open spec fn is_fresh(self, ledger: Ledger) -> bool {
        &&& self.pending_len.fresh(ledger, self.core.counts().pending)
        &&& self.is_empty.fresh(ledger, self.core.counts().pending == 0)
        &&& self.in_flight_len.fresh(ledger, self.core.counts().in_flight)
        &&& self.dead_letter_len.fresh(ledger, self.core.counts().dead_letters)
    }
}

/// Whatever a transition does, it leaves every reader fresh; outside a batch a fresh
/// reader shows what the lifecycle counts.
pub proof fn transitions_keep_the_readers_fresh<P, W>(
    cell: WorkCellState<P, W>,
    ledger: Ledger,
    core: WorkState<P, W>,
)
    requires
        cell.on(ledger),
        ledger.sound(),
        cell.is_fresh(ledger),
    ensures
        cell.over(core).is_fresh(cell.moved(ledger, core)),
        core.counts() == cell.core.counts() ==> cell.moved(ledger, core) == ledger,
        ledger.depth == 0 ==> {
            &&& cell.pending_len.shows(ledger, cell.core.counts().pending)
                == cell.core.counts().pending
            &&& cell.is_empty.shows(ledger, cell.core.counts().pending == 0) == (
            cell.core.counts().pending == 0)
            &&& cell.in_flight_len.shows(ledger, cell.core.counts().in_flight)
                == cell.core.counts().in_flight
            &&& cell.dead_letter_len.shows(ledger, cell.core.counts().dead_letters)
                == cell.core.counts().dead_letters
        },
{
    let before = cell.core.counts();
    let after = core.counts();
    let roots = cell.roots((Transition { before, after }).moved());
    cell.pending_len.clearing_keeps_fresh(ledger, roots, before.pending, after.pending);
    cell.is_empty.clearing_keeps_fresh(ledger, roots, before.pending == 0, after.pending == 0);
    cell.in_flight_len.clearing_keeps_fresh(ledger, roots, before.in_flight, after.in_flight);
    cell.dead_letter_len.clearing_keeps_fresh(
        ledger,
        roots,
        before.dead_letters,
        after.dead_letters,
    );
    if ledger.depth == 0 {
        cell.pending_len.fresh_shows(ledger, before.pending);
        cell.is_empty.fresh_shows(ledger, before.pending == 0);
        cell.in_flight_len.fresh_shows(ledger, before.in_flight);
        cell.dead_letter_len.fresh_shows(ledger, before.dead_letters);
    }
}

/// A competing-consumer work queue with its readers, on any context.
pub struct WorkQueueShell<T, I> {
    core: WorkQueueCore<T, I>,
    pending_len: Memo<usize>,
    is_empty: Memo<bool>,
    in_flight_len: Memo<usize>,
    dead_letter_len: Memo<usize>,
}

impl<T: Datum, I: Key> View for WorkQueueShell<T, I> {
    type V = WorkCellState<T::V, I::V>;

    closed spec fn view(&self) -> WorkCellState<T::V, I::V> {
        WorkCellState {
            core: self.core@,
            pending_len: self.pending_len@,
            is_empty: self.is_empty@,
            in_flight_len: self.in_flight_len@,
            dead_letter_len: self.dead_letter_len@,
        }
    }
}

impl<T: Datum, I: Key> WorkQueueShell<T, I> {
    /// The cell is one that the operations can reach.
    pub closed spec fn wf(&self) -> bool {
        self.core.wf()
    }

    /// What well-formedness says to a caller.
    pub proof fn wf_facts(&self)
        requires
            self.wf(),
        ensures
            self@.core.wf(),
    {
        self.core.wf_facts();
    }

    /// An empty local-authority work queue.
    pub fn new<G: ReactiveGraph>(
        ctx: &mut G,
        visibility_timeout: u64,
        max_deliveries: u32,
    ) -> (cell: Self)
        requires
            old(ctx).wf(),
            visibility_timeout > 0,
            max_deliveries >= 1,
        ensures
            final(ctx).wf(),
            cell.wf(),
            cell@ == WorkCellState::<T::V, I::V>::initial(
                visibility_timeout,
                max_deliveries,
                old(ctx).ledger().slots.len() as int,
            ),
            cell@.on(final(ctx).ledger()),
            final(ctx).ledger() == old(ctx).ledger().grown(4),
    {
        proof {
            reveal_with_fuel(Ledger::grown, 5);
            assert(Seq::<SlotId>::empty().map_values(|slot: SlotId| slot.index as int)
                =~= Seq::<int>::empty());
        }
        let cell = WorkQueueShell {
            core: WorkQueueCore::new(visibility_timeout, max_deliveries),
            pending_len: Memo::new(ctx, Vec::new()),
            is_empty: Memo::new(ctx, Vec::new()),
            in_flight_len: Memo::new(ctx, Vec::new()),
            dead_letter_len: Memo::new(ctx, Vec::new()),
        };
        proof {
            assert(cell@ =~= WorkCellState::<T::V, I::V>::initial(
                visibility_timeout,
                max_deliveries,
                old(ctx).ledger().slots.len() as int,
            ));
        }
        cell
    }

    /// Clears exactly the reader kinds that a transition moved, in one walk.
    fn invalidate<G: ReactiveGraph>(&mut self, ctx: &mut G, transition: Transition)
        requires
            old(ctx).wf(),
            old(self).wf(),
            old(self)@.on(old(ctx).ledger()),
        ensures
            final(ctx).wf(),
            final(self).wf(),
            final(self)@.on(final(ctx).ledger()),
            final(self)@ == old(self)@,
            final(ctx).ledger() == old(ctx).ledger().cleared(
                old(self)@.roots(transition.moved()),
            ),
    {
        let change = transition.changed();
        let mut roots: Vec<SlotId> = Vec::new();
        proof {
            positions_empty(roots@);
        }
        push_root(&mut roots, change.pending_len, self.pending_len.id());
        push_root(&mut roots, change.is_empty, self.is_empty.id());
        push_root(&mut roots, change.in_flight_len, self.in_flight_len.id());
        push_root(&mut roots, change.dead_letter_len, self.dead_letter_len.id());
        let ghost ledger = ctx.ledger();
        ctx.clear_slots(&roots);
        proof {
            self@.stays_on(ledger, ctx.ledger());
        }
    }

    /// Appends one item to the pending FIFO and returns its stable identity.
    pub fn push<G: ReactiveGraph>(&mut self, ctx: &mut G, value: T) -> (item_id: u64)
        requires
            old(ctx).wf(),
            old(self).wf(),
            old(self)@.on(old(ctx).ledger()),
            old(self)@.core.next_item_id < u64::MAX,
        ensures
            final(ctx).wf(),
            final(self).wf(),
            final(self)@.on(final(ctx).ledger()),
            ({
                let core = old(self)@.core.pushed(value@);
                &&& final(self)@ == old(self)@.over(core)
                &&& final(ctx).ledger() == old(self)@.moved(old(ctx).ledger(), core)
                &&& item_id == old(self)@.core.next_item_id
            }),
    {
        let (item_id, transition) = self.core.push(value);
        proof {
            assert(self@ =~= old(self)@.over(self.core@));
        }
        self.invalidate(ctx, transition);
        item_id
    }

    /// Claims the oldest pending item for `worker`, or `None` when empty.
    pub fn claim<G: ReactiveGraph>(&mut self, ctx: &mut G, worker: I, now: u64) -> (claimed: Option<
        WorkQueueDelivery<T, I>,
    >)
        requires
            old(ctx).wf(),
            old(self).wf(),
            old(self)@.on(old(ctx).ledger()),
            old(self)@.core.pending.len() > 0 ==> old(self)@.core.next_delivery_id < u64::MAX,
        ensures
            final(ctx).wf(),
            final(self).wf(),
            final(self)@.on(final(ctx).ledger()),
            claimed is Some <==> old(self)@.core.pending.len() > 0,
            claimed is None ==> final(self)@ == old(self)@ && final(ctx).ledger()
                == old(ctx).ledger(),
            claimed matches Some(delivery) ==> {
                let core = old(self)@.core.claimed(worker@, now);
                &&& final(self)@ == old(self)@.over(core)
                &&& final(ctx).ledger() == old(self)@.moved(old(ctx).ledger(), core)
                &&& delivery@ == old(self)@.core.lease(worker@, now)
            },
    {
        match self.core.claim(worker, now) {
            Some((delivery, transition)) => {
                proof {
                    assert(self@ =~= old(self)@.over(self.core@));
                }
                self.invalidate(ctx, transition);
                Some(delivery)
            },
            None => {
                proof {
                    assert(self@ =~= old(self)@);
                }
                None
            },
        }
    }

    /// Settles a matching live delivery. Wrong-worker, stale and duplicate
    /// acknowledgements are no-ops.
    pub fn ack<G: ReactiveGraph>(&mut self, ctx: &mut G, worker: &I, delivery_id: u64) -> (done:
        bool)
        requires
            old(ctx).wf(),
            old(self).wf(),
            old(self)@.on(old(ctx).ledger()),
        ensures
            final(ctx).wf(),
            final(self).wf(),
            final(self)@.on(final(ctx).ledger()),
            done == old(self)@.core.held_by(worker@, delivery_id),
            !done ==> final(self)@ == old(self)@ && final(ctx).ledger() == old(ctx).ledger(),
            done ==> {
                let core = old(self)@.core.settled(delivery_id);
                &&& final(self)@ == old(self)@.over(core)
                &&& final(ctx).ledger() == old(self)@.moved(old(ctx).ledger(), core)
            },
    {
        match self.core.ack(worker, delivery_id) {
            Some(transition) => {
                proof {
                    assert(self@ =~= old(self)@.over(self.core@));
                }
                self.invalidate(ctx, transition);
                true
            },
            None => {
                proof {
                    assert(self@ =~= old(self)@);
                }
                false
            },
        }
    }

    /// Rejects a matching delivery, requeueing at the tail or dead-lettering at the
    /// limit.
    pub fn nack<G: ReactiveGraph>(&mut self, ctx: &mut G, worker: &I, delivery_id: u64) -> (done:
        bool)
        requires
            old(ctx).wf(),
            old(self).wf(),
            old(self)@.on(old(ctx).ledger()),
        ensures
            final(ctx).wf(),
            final(self).wf(),
            final(self)@.on(final(ctx).ledger()),
            done == old(self)@.core.held_by(worker@, delivery_id),
            !done ==> final(self)@ == old(self)@ && final(ctx).ledger() == old(ctx).ledger(),
            done ==> {
                let core = old(self)@.core.failed(
                    delivery_id,
                    WorkQueueDeadLetterReason::Nack,
                );
                &&& final(self)@ == old(self)@.over(core)
                &&& final(ctx).ledger() == old(self)@.moved(old(ctx).ledger(), core)
            },
    {
        match self.core.nack(worker, delivery_id) {
            Some(transition) => {
                proof {
                    assert(self@ =~= old(self)@.over(self.core@));
                }
                self.invalidate(ctx, transition);
                true
            },
            None => {
                proof {
                    assert(self@ =~= old(self)@);
                }
                false
            },
        }
    }

    /// Requeues or dead-letters every lease with `deadline < now`, in delivery-id order.
    /// Returns how many there were.
    pub fn reap_expired<G: ReactiveGraph>(&mut self, ctx: &mut G, now: u64) -> (count: usize)
        requires
            old(ctx).wf(),
            old(self).wf(),
            old(self)@.on(old(ctx).ledger()),
        ensures
            final(ctx).wf(),
            final(self).wf(),
            final(self)@.on(final(ctx).ledger()),
            ({
                let core = old(self)@.core.reaped(old(self)@.core.expired(now));
                &&& final(self)@ == old(self)@.over(core)
                &&& final(ctx).ledger() == old(self)@.moved(old(ctx).ledger(), core)
                &&& count == old(self)@.core.expired(now).len()
            }),
    {
        match self.core.reap_expired(now) {
            Some((count, transition)) => {
                proof {
                    assert(self@ =~= old(self)@.over(self.core@));
                }
                self.invalidate(ctx, transition);
                count
            },
            None => {
                proof {
                    reveal_with_fuel(WorkState::reaped, 1);
                    assert(self@ =~= old(self)@.over(self.core@));
                    assert(self.core@ == old(self)@.core);
                    assert(old(self)@.roots(
                        (Transition {
                            before: self.core@.counts(),
                            after: self.core@.counts(),
                        }).moved(),
                    ) == Set::<int>::empty());
                }
                0
            },
        }
    }

    /// Reads how many items are pending.
    pub fn pending_len<G: ReactiveGraph>(&mut self, ctx: &mut G) -> (count: usize)
        requires
            old(ctx).wf(),
            old(self).wf(),
            old(self)@.on(old(ctx).ledger()),
        ensures
            final(ctx).wf(),
            final(self).wf(),
            final(self)@.on(final(ctx).ledger()),
            ({
                let shown = old(self)@.pending_len.shows(
                    old(ctx).ledger(),
                    old(self)@.core.counts().pending,
                );
                &&& count == shown
                &&& final(self)@ == (WorkCellState {
                    pending_len: old(self)@.pending_len.showing(shown),
                    ..old(self)@
                })
                &&& final(ctx).ledger() == old(ctx).ledger().settled(old(self)@.pending_len.slot)
            }),
    {
        let ghost start = self@;
        let ghost ledger = ctx.ledger();
        match self.pending_len.cached(ctx) {
            Some(shown) => {
                proof {
                    assert(shown@ == start.pending_len.shows(ledger, start.core.counts().pending));
                    assert(start =~= WorkCellState {
                        pending_len: start.pending_len.showing(shown@),
                        ..start
                    });
                }
                shown
            },
            None => {
                let derived = self.core.pending_len();
                let shown = self.pending_len.store(ctx, derived);
                proof {
                    assert(self@ =~= WorkCellState {
                        pending_len: start.pending_len.showing(shown@),
                        ..start
                    });
                    start.stays_on(ledger, ledger.settled(start.pending_len.slot));
                }
                shown
            },
        }
    }

    /// The slot of the `pending_len` reader.
    pub fn pending_len_slot(&self) -> (slot: SlotId)
        ensures
            slot == self@.pending_len.slot,
    {
        self.pending_len.id()
    }

    /// Reads whether nothing is pending.
    pub fn is_empty<G: ReactiveGraph>(&mut self, ctx: &mut G) -> (answer: bool)
        requires
            old(ctx).wf(),
            old(self).wf(),
            old(self)@.on(old(ctx).ledger()),
        ensures
            final(ctx).wf(),
            final(self).wf(),
            final(self)@.on(final(ctx).ledger()),
            ({
                let shown = old(self)@.is_empty.shows(
                    old(ctx).ledger(),
                    old(self)@.core.counts().pending == 0,
                );
                &&& answer == shown
                &&& final(self)@ == (WorkCellState {
                    is_empty: old(self)@.is_empty.showing(shown),
                    ..old(self)@
                })
                &&& final(ctx).ledger() == old(ctx).ledger().settled(old(self)@.is_empty.slot)
            }),
    {
        let ghost start = self@;
        let ghost ledger = ctx.ledger();
        match self.is_empty.cached(ctx) {
            Some(shown) => {
                proof {
                    assert(shown@ == start.is_empty.shows(ledger, start.core.counts().pending == 0));
                    assert(start =~= WorkCellState {
                        is_empty: start.is_empty.showing(shown@),
                        ..start
                    });
                }
                shown
            },
            None => {
                let derived = self.core.pending_len() == 0;
                let shown = self.is_empty.store(ctx, derived);
                proof {
                    assert(self@ =~= WorkCellState {
                        is_empty: start.is_empty.showing(shown@),
                        ..start
                    });
                    start.stays_on(ledger, ledger.settled(start.is_empty.slot));
                }
                shown
            },
        }
    }

    /// The slot of the `is_empty` reader.
    pub fn is_empty_slot(&self) -> (slot: SlotId)
        ensures
            slot == self@.is_empty.slot,
    {
        self.is_empty.id()
    }

    /// Reads how many leases are live.
    pub fn in_flight_len<G: ReactiveGraph>(&mut self, ctx: &mut G) -> (count: usize)
        requires
            old(ctx).wf(),
            old(self).wf(),
            old(self)@.on(old(ctx).ledger()),
        ensures
            final(ctx).wf(),
            final(self).wf(),
            final(self)@.on(final(ctx).ledger()),
            ({
                let shown = old(self)@.in_flight_len.shows(
                    old(ctx).ledger(),
                    old(self)@.core.counts().in_flight,
                );
                &&& count == shown
                &&& final(self)@ == (WorkCellState {
                    in_flight_len: old(self)@.in_flight_len.showing(shown),
                    ..old(self)@
                })
                &&& final(ctx).ledger() == old(ctx).ledger().settled(old(self)@.in_flight_len.slot)
            }),
    {
        let ghost start = self@;
        let ghost ledger = ctx.ledger();
        match self.in_flight_len.cached(ctx) {
            Some(shown) => {
                proof {
                    assert(shown@ == start.in_flight_len.shows(ledger, start.core.counts().in_flight));
                    assert(start =~= WorkCellState {
                        in_flight_len: start.in_flight_len.showing(shown@),
                        ..start
                    });
                }
                shown
            },
            None => {
                let derived = self.core.in_flight_len();
                let shown = self.in_flight_len.store(ctx, derived);
                proof {
                    assert(self@ =~= WorkCellState {
                        in_flight_len: start.in_flight_len.showing(shown@),
                        ..start
                    });
                    start.stays_on(ledger, ledger.settled(start.in_flight_len.slot));
                }
                shown
            },
        }
    }

    /// The slot of the `in_flight_len` reader.
    pub fn in_flight_len_slot(&self) -> (slot: SlotId)
        ensures
            slot == self@.in_flight_len.slot,
    {
        self.in_flight_len.id()
    }

    /// Reads how many items are dead.
    pub fn dead_letter_len<G: ReactiveGraph>(&mut self, ctx: &mut G) -> (count: usize)
        requires
            old(ctx).wf(),
            old(self).wf(),
            old(self)@.on(old(ctx).ledger()),
        ensures
            final(ctx).wf(),
            final(self).wf(),
            final(self)@.on(final(ctx).ledger()),
            ({
                let shown = old(self)@.dead_letter_len.shows(
                    old(ctx).ledger(),
                    old(self)@.core.counts().dead_letters,
                );
                &&& count == shown
                &&& final(self)@ == (WorkCellState {
                    dead_letter_len: old(self)@.dead_letter_len.showing(shown),
                    ..old(self)@
                })
                &&& final(ctx).ledger() == old(ctx).ledger().settled(
                    old(self)@.dead_letter_len.slot,
                )
            }),
    {
        let ghost start = self@;
        let ghost ledger = ctx.ledger();
        match self.dead_letter_len.cached(ctx) {
            Some(shown) => {
                proof {
                    assert(shown@ == start.dead_letter_len.shows(ledger, start.core.counts().dead_letters));
                    assert(start =~= WorkCellState {
                        dead_letter_len: start.dead_letter_len.showing(shown@),
                        ..start
                    });
                }
                shown
            },
            None => {
                let derived = self.core.dead_letter_len();
                let shown = self.dead_letter_len.store(ctx, derived);
                proof {
                    assert(self@ =~= WorkCellState {
                        dead_letter_len: start.dead_letter_len.showing(shown@),
                        ..start
                    });
                    start.stays_on(ledger, ledger.settled(start.dead_letter_len.slot));
                }
                shown
            },
        }
    }

    /// The slot of the `dead_letter_len` reader.
    pub fn dead_letter_len_slot(&self) -> (slot: SlotId)
        ensures
            slot == self@.dead_letter_len.slot,
    {
        self.dead_letter_len.id()
    }

    /// Pending items, oldest first. Reads no reader.
    pub fn pending(&self) -> (items: Vec<WorkQueueItem<T>>)
        ensures
            items@.map_values(|item: WorkQueueItem<T>| item@) == self@.core.pending,
    {
        self.core.pending_items()
    }

    /// Live leases sorted by delivery id. Reads no reader.
    pub fn in_flight(&self) -> (deliveries: Vec<WorkQueueDelivery<T, I>>)
        requires
            self.wf(),
        ensures
            deliveries@.map_values(|delivery: WorkQueueDelivery<T, I>| delivery@)
                == self@.core.leases(),
    {
        self.core.in_flight_deliveries()
    }

    /// Dead letters in failure order. Reads no reader.
    pub fn dead_letters(&self) -> (letters: Vec<WorkQueueDeadLetter<T>>)
        ensures
            letters@.map_values(|letter: WorkQueueDeadLetter<T>| letter@)
                == self@.core.dead_letters,
    {
        self.core.dead_letters()
    }
}

} // verus!
