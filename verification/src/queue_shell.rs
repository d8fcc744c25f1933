//! The reactive shell of a FIFO: four memoized reader kinds and a closed flag on one
//! context, over any storage backend.
//!
//! Reader kinds invalidate independently: a push onto a queue that is not empty never
//! touches the head, a pop always does.

use vstd::prelude::*;

use crate::graph::{Ledger, SlotId, a_leaf_falls_as_a_root, positions_empty, push_root, with_root};
use crate::ingress_core::option_view;
use crate::queue::{QueuePopError, QueuePushError, QueueStorage, push_outcome};
use crate::reactive::{Maybe, Memo, MemoState, ReactiveGraph, SourceCell};
use crate::value::Datum;

verus! {

/// Whether a length reaches a bound.
pub open spec fn reaches_bound(len: nat, bound: Option<usize>) -> bool {
    bound matches Some(capacity) && len >= capacity
}

/// A queue cell and its readers, over views.
#[verifier::ext_equal]
pub struct QueueCellState<P> {
    /// What is queued, head first.
    pub queued: Seq<P>,
    /// Whether the queue is closed.
    pub ended: bool,
    /// The declared capacity.
    pub bound: Option<usize>,
    /// The head.
    pub head: MemoState<Option<P>>,
    /// The length.
    pub len: MemoState<usize>,
    /// Whether nothing is queued.
    pub is_empty: MemoState<bool>,
    /// Whether a bounded queue is at capacity.
    pub is_full: MemoState<bool>,
    /// The source of the closed flag.
    pub closed_slot: SlotId,
}

impl<P> QueueCellState<P> {
    /// A queue over some content, its readers on five consecutive slots.
    pub open spec fn initial(
        queued: Seq<P>,
        ended: bool,
        bound: Option<usize>,
        first: int,
    ) -> Self {
        QueueCellState {
            queued,
            ended,
            bound,
            head: MemoState::at(first),
            len: MemoState::at(first + 1),
            is_empty: MemoState::at(first + 2),
            is_full: MemoState::at(first + 3),
            closed_slot: SlotId { index: (first + 4) as usize },
        }
    }

    /// The readers and the flag stand on consecutive slots that depend on nothing.
    pub open spec fn on(self, ledger: Ledger) -> bool {
        &&& self.len.slot.index == self.head.slot.index + 1
        &&& self.is_empty.slot.index == self.head.slot.index + 2
        &&& self.is_full.slot.index == self.head.slot.index + 3
        &&& self.closed_slot.index == self.head.slot.index + 4
        &&& ledger.leaf(self.head.slot)
        &&& ledger.leaf(self.len.slot)
        &&& ledger.leaf(self.is_empty.slot)
        &&& ledger.leaf(self.is_full.slot)
        &&& ledger.leaf(self.closed_slot)
    }

    /// A cell stays on a ledger that only grows.
    pub proof fn stays_on(self, ledger: Ledger, later: Ledger)
        requires
            self.on(ledger),
            later.extends(ledger),
        ensures
            self.on(later),
    {
    }

    /// The head, if there is one.
    pub open spec fn first(self) -> Option<P> {
        if self.queued.len() > 0 {
            Some(self.queued[0])
        } else {
            None
        }
    }

    /// Every slot that a change of length marks dirty. The length always moves.
    pub open spec fn roots(self, before: nat, after: nat, head_changed: bool) -> Set<int> {
        with_root(
            with_root(
                with_root(
                    with_root(Set::empty(), true, self.len.slot),
                    (before == 0) != (after == 0),
                    self.is_empty.slot,
                ),
                reaches_bound(before, self.bound) != reaches_bound(after, self.bound),
                self.is_full.slot,
            ),
            head_changed,
            self.head.slot,
        )
    }

    /// A value appended, and the walk that it costs.
    pub open spec fn pushed(self, ledger: Ledger, value: P) -> (Self, Ledger) {
        let before = self.queued.len();
        (
            QueueCellState { queued: self.queued.push(value), ..self },
            ledger.cleared(self.roots(before, before + 1, before == 0)),
        )
    }

    /// The head taken, and the walk that it costs.
    pub open spec fn popped(self, ledger: Ledger) -> (Self, Ledger) {
        let before = self.queued.len();
        (
            QueueCellState { queued: self.queued.skip(1), ..self },
            ledger.cleared(self.roots(before, (before - 1) as nat, true)),
        )
    }

    /// Every reader whose cache stands has in it what the queue holds now.
    pub open spec fn is_fresh(self, ledger: Ledger) -> bool {
        &&& self.head.fresh(ledger, self.first())
        &&& self.len.fresh(ledger, self.queued.len() as usize)
        &&& self.is_empty.fresh(ledger, self.queued.len() == 0)
        &&& self.is_full.fresh(ledger, reaches_bound(self.queued.len(), self.bound))
    }
}

/// Pushes and pops leave every reader fresh, and a push onto a queue that is not empty
/// leaves the head reader standing.
pub proof fn queue_operations_keep_the_readers_fresh<P>(
    cell: QueueCellState<P>,
    ledger: Ledger,
    value: P,
)
    requires
        cell.on(ledger),
        ledger.sound(),
        cell.is_fresh(ledger),
    ensures
        cell.pushed(ledger, value).0.is_fresh(cell.pushed(ledger, value).1),
        cell.queued.len() > 0 ==> cell.popped(ledger).0.is_fresh(cell.popped(ledger).1),
        cell.queued.len() > 0 ==> cell.pushed(ledger, value).1.stands(cell.head.slot)
            == ledger.stands(cell.head.slot),
        ledger.depth == 0 ==> {
            &&& cell.head.shows(ledger, cell.first()) == cell.first()
            &&& cell.len.shows(ledger, cell.queued.len() as usize) == cell.queued.len() as usize
            &&& cell.is_empty.shows(ledger, cell.queued.len() == 0) == (cell.queued.len() == 0)
            &&& cell.is_full.shows(ledger, reaches_bound(cell.queued.len(), cell.bound))
                == reaches_bound(cell.queued.len(), cell.bound)
        },
{
    let before = cell.queued.len();
    let longer = cell.pushed(ledger, value).0;
    let roots = cell.roots(before, before + 1, before == 0);
    cell.head.clearing_keeps_fresh(ledger, roots, cell.first(), longer.first());
    cell.len.clearing_keeps_fresh(ledger, roots, before as usize, (before + 1) as usize);
    cell.is_empty.clearing_keeps_fresh(ledger, roots, before == 0, false);
    cell.is_full.clearing_keeps_fresh(
        ledger,
        roots,
        reaches_bound(before, cell.bound),
        reaches_bound(before + 1, cell.bound),
    );
    a_leaf_falls_as_a_root(ledger, roots, cell.head.slot);
    if before > 0 {
        let fewer = (before - 1) as nat;
        let shorter = cell.popped(ledger).0;
        let taken = cell.roots(before, fewer, true);
        cell.head.clearing_keeps_fresh(ledger, taken, cell.first(), shorter.first());
        cell.len.clearing_keeps_fresh(ledger, taken, before as usize, fewer as usize);
        cell.is_empty.clearing_keeps_fresh(ledger, taken, false, fewer == 0);
        cell.is_full.clearing_keeps_fresh(
            ledger,
            taken,
            reaches_bound(before, cell.bound),
            reaches_bound(fewer, cell.bound),
        );
    }
    if ledger.depth == 0 {
        cell.head.fresh_shows(ledger, cell.first());
        cell.len.fresh_shows(ledger, before as usize);
        cell.is_empty.fresh_shows(ledger, before == 0);
        cell.is_full.fresh_shows(ledger, reaches_bound(before, cell.bound));
    }
}

/// What is pushed comes out in order: popping after pushing onto an empty queue gives the
/// value back.
pub proof fn a_queue_is_first_in_first_out<P>(cell: QueueCellState<P>, ledger: Ledger, value: P)
    ensures
        cell.pushed(ledger, value).0.queued.last() == value,
        cell.queued.len() > 0 ==> cell.pushed(ledger, value).0.first() == cell.first(),
        cell.queued.len() == 0 ==> cell.pushed(ledger, value).0.first() == Some(value),
        cell.queued.len() > 0 ==> cell.popped(ledger).0.queued.push(value) == cell.pushed(
            ledger,
            value,
        ).0.queued.skip(1),
{
    if cell.queued.len() > 0 {
        assert(cell.queued.skip(1).push(value) =~= cell.queued.push(value).skip(1));
    }
}

/// A FIFO with its readers, on any context and over any storage.
pub struct QueueShell<T, S> {
    storage: S,
    capacity: Option<usize>,
    head: Memo<Maybe<T>>,
    len: Memo<usize>,
    is_empty: Memo<bool>,
    is_full: Memo<bool>,
    closed: SourceCell<bool>,
}

impl<T: Datum, S: QueueStorage<T>> View for QueueShell<T, S> {
    type V = QueueCellState<T::V>;

    closed spec fn view(&self) -> QueueCellState<T::V> {
        QueueCellState {
            queued: self.storage.queued(),
            ended: self.storage.ended(),
            bound: self.storage.bound(),
            head: self.head@,
            len: self.len@,
            is_empty: self.is_empty@,
            is_full: self.is_full@,
            closed_slot: self.closed.slot(),
        }
    }
}

impl<T: Datum, S: QueueStorage<T>> QueueShell<T, S> {
    /// The cell is one that the operations can reach.
    pub closed spec fn wf(&self) -> bool {
        self.storage.wf() && self.capacity == self.storage.bound() && self.closed.value()
            == self.storage.ended()
    }

    /// A queue over an arbitrary storage backend.
    pub fn with_storage<G: ReactiveGraph>(ctx: &mut G, storage: S) -> (cell: Self)
        requires
            old(ctx).wf(),
            storage.wf(),
        ensures
            final(ctx).wf(),
            cell.wf(),
            cell@ == QueueCellState::<T::V>::initial(
                storage.queued(),
                storage.ended(),
                storage.bound(),
                old(ctx).ledger().slots.len() as int,
            ),
            cell@.on(final(ctx).ledger()),
            final(ctx).ledger() == old(ctx).ledger().grown(5),
    {
        proof {
            reveal_with_fuel(Ledger::grown, 6);
            assert(Seq::<SlotId>::empty().map_values(|slot: SlotId| slot.index as int)
                =~= Seq::<int>::empty());
        }
        let closed = storage.is_closed();
        let capacity = storage.capacity();
        let cell = QueueShell {
            storage,
            capacity,
            head: Memo::new(ctx, Vec::new()),
            len: Memo::new(ctx, Vec::new()),
            is_empty: Memo::new(ctx, Vec::new()),
            is_full: Memo::new(ctx, Vec::new()),
            closed: SourceCell::new(ctx, closed),
        };
        proof {
            assert(cell@ =~= QueueCellState::<T::V>::initial(
                cell.storage.queued(),
                cell.storage.ended(),
                cell.storage.bound(),
                old(ctx).ledger().slots.len() as int,
            ));
        }
        cell
    }

    /// Clears exactly the reader kinds whose derived value changed, in one walk, so no
    /// subscriber sees the length move while fullness is still stale.
    ///
    /// Whether the head changed is an argument, not a function of the lengths: a pop
    /// always changes it, a push only from empty. The closed flag is never touched.
    fn invalidate_readers<G: ReactiveGraph>(
        &mut self,
        ctx: &mut G,
        len_before: usize,
        len_after: usize,
        head_changed: bool,
    )
        requires
            old(ctx).wf(),
            old(self).wf(),
            old(self)@.on(old(ctx).ledger()),
        ensures
            final(ctx).wf(),
            final(self).wf(),
            final(self)@.on(final(ctx).ledger()),
            final(self)@ == old(self)@,
            final(ctx).ledger() == old(ctx).ledger().cleared(
                old(self)@.roots(len_before as nat, len_after as nat, head_changed),
            ),
    {
        let is_empty_changed = (len_before == 0) != (len_after == 0);
        let is_full_changed = match self.capacity {
            Some(capacity) => (len_before >= capacity) != (len_after >= capacity),
            None => false,
        };
        let mut roots: Vec<SlotId> = Vec::new();
        proof {
            positions_empty(roots@);
        }
        push_root(&mut roots, true, self.len.id());
        push_root(&mut roots, is_empty_changed, self.is_empty.id());
        push_root(&mut roots, is_full_changed, self.is_full.id());
        push_root(&mut roots, head_changed, self.head.id());
        let ghost ledger = ctx.ledger();
        ctx.clear_slots(&roots);
        proof {
            self@.stays_on(ledger, ctx.ledger());
        }
    }

    /// Appends to the tail. `Full` if bounded and at capacity, `Closed` if closed; on
    /// either error the queue is unchanged and nothing is invalidated.
    pub fn try_push<G: ReactiveGraph>(&mut self, ctx: &mut G, value: T) -> (outcome: Result<
        (),
        QueuePushError,
    >)
        requires
            old(ctx).wf(),
            old(self).wf(),
            old(self)@.on(old(ctx).ledger()),
            old(self)@.queued.len() < usize::MAX,
        ensures
            final(ctx).wf(),
            final(self).wf(),
            final(self)@.on(final(ctx).ledger()),
            outcome == push_outcome(
                old(self)@.queued.len(),
                old(self)@.ended,
                old(self)@.bound,
            ),
            outcome is Ok ==> (final(self)@, final(ctx).ledger()) == old(self)@.pushed(
                old(ctx).ledger(),
                value@,
            ),
            outcome is Err ==> final(self)@ == old(self)@ && final(ctx).ledger()
                == old(ctx).ledger(),
    {
        let len_before = self.storage.len();
        let ghost id = value@;
        let outcome = self.storage.try_push(value);
        if outcome.is_ok() {
            proof {
                assert(self@ =~= old(self)@.pushed(ctx.ledger(), id).0);
            }
            self.invalidate_readers(ctx, len_before, len_before + 1, len_before == 0);
        } else {
            proof {
                assert(self@ =~= old(self)@);
            }
        }
        outcome
    }

    /// Removes and returns the head. `Empty` if open and empty, `Closed` if closed and
    /// empty. A pop on a closed queue that is not empty drains.
    pub fn try_pop<G: ReactiveGraph>(&mut self, ctx: &mut G) -> (outcome: Result<T, QueuePopError>)
        requires
            old(ctx).wf(),
            old(self).wf(),
            old(self)@.on(old(ctx).ledger()),
        ensures
            final(ctx).wf(),
            final(self).wf(),
            final(self)@.on(final(ctx).ledger()),
            match outcome {
                Ok(value) => old(self)@.queued.len() > 0 && value@ == old(self)@.queued[0] && (
                    final(self)@,
                    final(ctx).ledger(),
                ) == old(self)@.popped(old(ctx).ledger()),
                Err(error) => {
                    &&& old(self)@.queued.len() == 0
                    &&& final(self)@ == old(self)@
                    &&& final(ctx).ledger() == old(ctx).ledger()
                    &&& error == if old(self)@.ended {
                        QueuePopError::Closed
                    } else {
                        QueuePopError::Empty
                    }
                },
            },
    {
        let len_before = self.storage.len();
        let outcome = self.storage.try_pop();
        if outcome.is_ok() {
            proof {
                assert(self@ =~= old(self)@.popped(ctx.ledger()).0);
            }
            self.invalidate_readers(ctx, len_before, len_before - 1, true);
        } else {
            proof {
                assert(self@ =~= old(self)@);
            }
        }
        outcome
    }

    /// Idempotent and terminal. The first close flips the flag; later ones invalidate
    /// nothing.
    pub fn close<G: ReactiveGraph>(&mut self, ctx: &mut G)
        requires
            old(ctx).wf(),
            old(self).wf(),
            old(self)@.on(old(ctx).ledger()),
        ensures
            final(ctx).wf(),
            final(self).wf(),
            final(self)@.on(final(ctx).ledger()),
            final(self)@ == (QueueCellState { ended: true, ..old(self)@ }),
            final(ctx).ledger() == if old(self)@.ended {
                old(ctx).ledger()
            } else {
                old(ctx).ledger().cleared(
                    Set::<int>::empty().insert(old(self)@.closed_slot.index as int),
                )
            },
    {
        let was = self.storage.is_closed();
        self.storage.close();
        let ghost ledger = ctx.ledger();
        if !was {
            self.closed.set(ctx, true);
        }
        proof {
            assert(self@ =~= QueueCellState { ended: true, ..old(self)@ });
            self@.stays_on(ledger, ctx.ledger());
        }
    }

    /// Reads the head: after a pop, the next element.
    pub fn head<G: ReactiveGraph>(&mut self, ctx: &mut G) -> (head: Option<T>)
        requires
            old(ctx).wf(),
            old(self).wf(),
            old(self)@.on(old(ctx).ledger()),
        ensures
            final(ctx).wf(),
            final(self).wf(),
            final(self)@.on(final(ctx).ledger()),
            ({
                let shown = old(self)@.head.shows(
                    old(ctx).ledger(),
                    old(self)@.first(),
                );
                &&& option_view(head) == shown
                &&& final(self)@ == (QueueCellState {
                    head: old(self)@.head.showing(shown),
                    ..old(self)@
                })
                &&& final(ctx).ledger() == old(ctx).ledger().settled(old(self)@.head.slot)
            }),
    {
        let ghost start = self@;
        let ghost ledger = ctx.ledger();
        match self.head.cached(ctx) {
            Some(shown) => {
                proof {
                    assert(shown@ == start.head.shows(ledger, start.first()));
                    assert(start =~= QueueCellState { head: start.head.showing(shown@), ..start });
                }
                shown.inner
            },
            None => {
                let derived = Maybe { inner: self.peeked() };
                let shown = self.head.store(ctx, derived);
                proof {
                    assert(self@ =~= QueueCellState { head: start.head.showing(shown@), ..start });
                    start.stays_on(ledger, ledger.settled(start.head.slot));
                }
                shown.inner
            },
        }
    }

    /// The slot of the `head` reader.
    pub fn head_slot(&self) -> (slot: SlotId)
        ensures
            slot == self@.head.slot,
    {
        self.head.id()
    }

    /// Reads the length.
    pub fn len<G: ReactiveGraph>(&mut self, ctx: &mut G) -> (count: usize)
        requires
            old(ctx).wf(),
            old(self).wf(),
            old(self)@.on(old(ctx).ledger()),
        ensures
            final(ctx).wf(),
            final(self).wf(),
            final(self)@.on(final(ctx).ledger()),
            ({
                let shown = old(self)@.len.shows(
                    old(ctx).ledger(),
                    old(self)@.queued.len() as usize,
                );
                &&& count == shown
                &&& final(self)@ == (QueueCellState {
                    len: old(self)@.len.showing(shown),
                    ..old(self)@
                })
                &&& final(ctx).ledger() == old(ctx).ledger().settled(old(self)@.len.slot)
            }),
    {
        let ghost start = self@;
        let ghost ledger = ctx.ledger();
        match self.len.cached(ctx) {
            Some(shown) => {
                proof {
                    assert(shown@ == start.len.shows(ledger, start.queued.len() as usize));
                    assert(start =~= QueueCellState { len: start.len.showing(shown@), ..start });
                }
                shown
            },
            None => {
                let derived = self.storage.len();
                let shown = self.len.store(ctx, derived);
                proof {
                    assert(self@ =~= QueueCellState { len: start.len.showing(shown@), ..start });
                    start.stays_on(ledger, ledger.settled(start.len.slot));
                }
                shown
            },
        }
    }

    /// The slot of the `len` reader.
    pub fn len_slot(&self) -> (slot: SlotId)
        ensures
            slot == self@.len.slot,
    {
        self.len.id()
    }

    /// Reads whether nothing is queued.
    pub fn is_empty<G: ReactiveGraph>(&mut self, ctx: &mut G) -> (answer: bool)
        requires
            old(ctx).wf(),
            old(self).wf(),
            old(self)@.on(old(ctx).ledger()),
        ensures
            final(ctx).wf(),
            final(self).wf(),
            final(self)@.on(final(ctx).ledger()),
            ({
                let shown = old(self)@.is_empty.shows(
                    old(ctx).ledger(),
                    old(self)@.queued.len() == 0,
                );
                &&& answer == shown
                &&& final(self)@ == (QueueCellState {
                    is_empty: old(self)@.is_empty.showing(shown),
                    ..old(self)@
                })
                &&& final(ctx).ledger() == old(ctx).ledger().settled(old(self)@.is_empty.slot)
            }),
    {
        let ghost start = self@;
        let ghost ledger = ctx.ledger();
        match self.is_empty.cached(ctx) {
            Some(shown) => {
                proof {
                    assert(shown@ == start.is_empty.shows(ledger, start.queued.len() == 0));
                    assert(start =~= QueueCellState {
                        is_empty: start.is_empty.showing(shown@),
                        ..start
                    });
                }
                shown
            },
            None => {
                let derived = self.storage.len() == 0;
                let shown = self.is_empty.store(ctx, derived);
                proof {
                    assert(self@ =~= QueueCellState {
                        is_empty: start.is_empty.showing(shown@),
                        ..start
                    });
                    start.stays_on(ledger, ledger.settled(start.is_empty.slot));
                }
                shown
            },
        }
    }

    /// The slot of the `is_empty` reader.
    pub fn is_empty_slot(&self) -> (slot: SlotId)
        ensures
            slot == self@.is_empty.slot,
    {
        self.is_empty.id()
    }

    /// Reads the backpressure: false again after a pop that leaves capacity.
    pub fn is_full<G: ReactiveGraph>(&mut self, ctx: &mut G) -> (answer: bool)
        requires
            old(ctx).wf(),
            old(self).wf(),
            old(self)@.on(old(ctx).ledger()),
        ensures
            final(ctx).wf(),
            final(self).wf(),
            final(self)@.on(final(ctx).ledger()),
            ({
                let shown = old(self)@.is_full.shows(
                    old(ctx).ledger(),
                    reaches_bound(old(self)@.queued.len(), old(self)@.bound),
                );
                &&& answer == shown
                &&& final(self)@ == (QueueCellState {
                    is_full: old(self)@.is_full.showing(shown),
                    ..old(self)@
                })
                &&& final(ctx).ledger() == old(ctx).ledger().settled(old(self)@.is_full.slot)
            }),
    {
        let ghost start = self@;
        let ghost ledger = ctx.ledger();
        match self.is_full.cached(ctx) {
            Some(shown) => {
                proof {
                    assert(shown@ == start.is_full.shows(ledger, reaches_bound(start.queued.len(), start.bound)));
                    assert(start =~= QueueCellState {
                        is_full: start.is_full.showing(shown@),
                        ..start
                    });
                }
                shown
            },
            None => {
                let derived = self.at_capacity();
                let shown = self.is_full.store(ctx, derived);
                proof {
                    assert(self@ =~= QueueCellState {
                        is_full: start.is_full.showing(shown@),
                        ..start
                    });
                    start.stays_on(ledger, ledger.settled(start.is_full.slot));
                }
                shown
            },
        }
    }

    /// The slot of the `is_full` reader.
    pub fn is_full_slot(&self) -> (slot: SlotId)
        ensures
            slot == self@.is_full.slot,
    {
        self.is_full.id()
    }

    /// A copy of the head.
    fn peeked(&self) -> (head: Option<T>)
        requires
            self.wf(),
        ensures
            option_view(head) == self@.first(),
    {
        match self.storage.peek() {
            Some(value) => Some(value.duplicate()),
            None => None,
        }
    }

    /// Whether a bounded queue is at capacity.
    fn at_capacity(&self) -> (answer: bool)
        requires
            self.wf(),
        ensures
            answer == reaches_bound(self@.queued.len(), self@.bound),
    {
        match self.storage.capacity() {
            Some(capacity) => self.storage.len() >= capacity,
            None => false,
        }
    }

    /// Reads whether the queue is closed.
    pub fn closed(&self) -> (closed: bool)
        requires
            self.wf(),
        ensures
            closed == self@.ended,
    {
        *self.closed.get()
    }

    /// The slot of the closed flag.
    pub fn closed_slot(&self) -> (slot: SlotId)
        ensures
            slot == self@.closed_slot,
    {
        self.closed.id()
    }

    /// Declared capacity, or `None` when unbounded. It never changes.
    pub fn capacity(&self) -> (capacity: Option<usize>)
        requires
            self.wf(),
        ensures
            capacity == self@.bound,
    {
        self.capacity
    }
}

} // verus!
