//! `ThreadSafeQueueCell`: the reactive FIFO on a context that threads share.

use vstd::prelude::*;

use crate::ingress_core::option_view;
use crate::queue::{
    QueuePopError, QueuePushError, QueueStorage, VecDequeStorage, push_outcome,
};
use crate::queue_shell::{QueueCellState, QueueShell, reaches_bound};
use crate::reactive::{Computed, ReactiveGraph, ThreadSafeContext};
use crate::value::Datum;

verus! {

/// A reactive FIFO. Reader kinds invalidate independently: a push onto a queue that is
/// not empty never touches the head, a pop always does.
pub struct ThreadSafeQueueCell<T, S = VecDequeStorage<T>> {
    shell: QueueShell<T, S>,
}

impl<T: Datum, S: QueueStorage<T>> View for ThreadSafeQueueCell<T, S> {
    type V = QueueCellState<T::V>;

    closed spec fn view(&self) -> QueueCellState<T::V> {
        self.shell@
    }
}

impl<T: Datum> ThreadSafeQueueCell<T, VecDequeStorage<T>> {
    /// An unbounded queue over the reference backend.
    pub fn new(ctx: &mut ThreadSafeContext) -> (cell: Self)
        requires
            old(ctx).wf(),
        ensures
            final(ctx).wf(),
            cell.wf(),
            cell@ == QueueCellState::<T::V>::initial(
                Seq::empty(),
                false,
                None,
                old(ctx).ledger().slots.len() as int,
            ),
            cell@.on(final(ctx).ledger()),
            final(ctx).ledger() == old(ctx).ledger().grown(5),
    {
        Self::with_storage(ctx, VecDequeStorage::unbounded())
    }

    /// A bounded queue with reactive backpressure.
    pub fn with_capacity(ctx: &mut ThreadSafeContext, capacity: usize) -> (cell: Self)
        requires
            old(ctx).wf(),
            capacity > 0,
        ensures
            final(ctx).wf(),
            cell.wf(),
            cell@ == QueueCellState::<T::V>::initial(
                Seq::empty(),
                false,
                Some(capacity),
                old(ctx).ledger().slots.len() as int,
            ),
            cell@.on(final(ctx).ledger()),
            final(ctx).ledger() == old(ctx).ledger().grown(5),
    {
        Self::with_storage(ctx, VecDequeStorage::with_capacity(capacity))
    }
}

impl<T: Datum, S: QueueStorage<T>> ThreadSafeQueueCell<T, S> {
    /// The cell is one that the operations can reach.
    pub closed spec fn wf(&self) -> bool {
        self.shell.wf()
    }

    /// A queue over an arbitrary storage backend.
    pub fn with_storage(ctx: &mut ThreadSafeContext, storage: S) -> (cell: Self)
        requires
            old(ctx).wf(),
            storage.wf(),
        ensures
            final(ctx).wf(),
            cell.wf(),
            cell@ == QueueCellState::<T::V>::initial(
                storage.queued(),
                storage.ended(),
                storage.bound(),
                old(ctx).ledger().slots.len() as int,
            ),
            cell@.on(final(ctx).ledger()),
            final(ctx).ledger() == old(ctx).ledger().grown(5),
    {
        ThreadSafeQueueCell { shell: QueueShell::with_storage(ctx, storage) }
    }

    /// Appends to the tail. `Full` if bounded and at capacity, `Closed` if closed; on
    /// either error the queue is unchanged and nothing is invalidated.
    pub fn try_push(&mut self, ctx: &mut ThreadSafeContext, value: T) -> (outcome: Result<
        (),
        QueuePushError,
    >)
        requires
            old(ctx).wf(),
            old(self).wf(),
            old(self)@.on(old(ctx).ledger()),
            old(self)@.queued.len() < usize::MAX,
        ensures
            final(ctx).wf(),
            final(self).wf(),
            final(self)@.on(final(ctx).ledger()),
            outcome == push_outcome(
                old(self)@.queued.len(),
                old(self)@.ended,
                old(self)@.bound,
            ),
            outcome is Ok ==> (final(self)@, final(ctx).ledger()) == old(self)@.pushed(
                old(ctx).ledger(),
                value@,
            ),
            outcome is Err ==> final(self)@ == old(self)@ && final(ctx).ledger()
                == old(ctx).ledger(),
    {
        self.shell.try_push(ctx, value)
    }

    /// Removes and returns the head. `Empty` if open and empty, `Closed` if closed and
    /// empty. A pop on a closed queue that is not empty drains.
    pub fn try_pop(&mut self, ctx: &mut ThreadSafeContext) -> (outcome: Result<T, QueuePopError>)
        requires
            old(ctx).wf(),
            old(self).wf(),
            old(self)@.on(old(ctx).ledger()),
        ensures
            final(ctx).wf(),
            final(self).wf(),
            final(self)@.on(final(ctx).ledger()),
            match outcome {
                Ok(value) => old(self)@.queued.len() > 0 && value@ == old(self)@.queued[0] && (
                    final(self)@,
                    final(ctx).ledger(),
                ) == old(self)@.popped(old(ctx).ledger()),
                Err(error) => {
                    &&& old(self)@.queued.len() == 0
                    &&& final(self)@ == old(self)@
                    &&& final(ctx).ledger() == old(ctx).ledger()
                    &&& error == if old(self)@.ended {
                        QueuePopError::Closed
                    } else {
                        QueuePopError::Empty
                    }
                },
            },
    {
        self.shell.try_pop(ctx)
    }

    /// Idempotent and terminal. The first close flips the flag; later ones invalidate
    /// nothing.
    pub fn close(&mut self, ctx: &mut ThreadSafeContext)
        requires
            old(ctx).wf(),
            old(self).wf(),
            old(self)@.on(old(ctx).ledger()),
        ensures
            final(ctx).wf(),
            final(self).wf(),
            final(self)@.on(final(ctx).ledger()),
            final(self)@ == (QueueCellState { ended: true, ..old(self)@ }),
            final(ctx).ledger() == if old(self)@.ended {
                old(ctx).ledger()
            } else {
                old(ctx).ledger().cleared(
                    Set::<int>::empty().insert(old(self)@.closed_slot.index as int),
                )
            },
    {
        self.shell.close(ctx);
    }

    /// Reads the head: after a pop, the next element.
    pub fn head(&mut self, ctx: &mut ThreadSafeContext) -> (head: Option<T>)
        requires
            old(ctx).wf(),
            old(self).wf(),
            old(self)@.on(old(ctx).ledger()),
        ensures
            final(ctx).wf(),
            final(self).wf(),
            final(self)@.on(final(ctx).ledger()),
            ({
                let shown = old(self)@.head.shows(
                    old(ctx).ledger(),
                    old(self)@.first(),
                );
                &&& option_view(head) == shown
                &&& final(self)@ == (QueueCellState {
                    head: old(self)@.head.showing(shown),
                    ..old(self)@
                })
                &&& final(ctx).ledger() == old(ctx).ledger().settled(old(self)@.head.slot)
            }),
    {
        self.shell.head(ctx)
    }

    /// Reads the length.
    pub fn len(&mut self, ctx: &mut ThreadSafeContext) -> (count: usize)
        requires
            old(ctx).wf(),
            old(self).wf(),
            old(self)@.on(old(ctx).ledger()),
        ensures
            final(ctx).wf(),
            final(self).wf(),
            final(self)@.on(final(ctx).ledger()),
            ({
                let shown = old(self)@.len.shows(
                    old(ctx).ledger(),
                    old(self)@.queued.len() as usize,
                );
                &&& count == shown
                &&& final(self)@ == (QueueCellState {
                    len: old(self)@.len.showing(shown),
                    ..old(self)@
                })
                &&& final(ctx).ledger() == old(ctx).ledger().settled(old(self)@.len.slot)
            }),
    {
        self.shell.len(ctx)
    }

    /// Reads whether nothing is queued.
    pub fn is_empty(&mut self, ctx: &mut ThreadSafeContext) -> (answer: bool)
        requires
            old(ctx).wf(),
            old(self).wf(),
            old(self)@.on(old(ctx).ledger()),
        ensures
            final(ctx).wf(),
            final(self).wf(),
            final(self)@.on(final(ctx).ledger()),
            ({
                let shown = old(self)@.is_empty.shows(
                    old(ctx).ledger(),
                    old(self)@.queued.len() == 0,
                );
                &&& answer == shown
                &&& final(self)@ == (QueueCellState {
                    is_empty: old(self)@.is_empty.showing(shown),
                    ..old(self)@
                })
                &&& final(ctx).ledger() == old(ctx).ledger().settled(old(self)@.is_empty.slot)
            }),
    {
        self.shell.is_empty(ctx)
    }

    /// Reads the backpressure: false again after a pop that leaves capacity.
    pub fn is_full(&mut self, ctx: &mut ThreadSafeContext) -> (answer: bool)
        requires
            old(ctx).wf(),
            old(self).wf(),
            old(self)@.on(old(ctx).ledger()),
        ensures
            final(ctx).wf(),
            final(self).wf(),
            final(self)@.on(final(ctx).ledger()),
            ({
                let shown = old(self)@.is_full.shows(
                    old(ctx).ledger(),
                    reaches_bound(old(self)@.queued.len(), old(self)@.bound),
                );
                &&& answer == shown
                &&& final(self)@ == (QueueCellState {
                    is_full: old(self)@.is_full.showing(shown),
                    ..old(self)@
                })
                &&& final(ctx).ledger() == old(ctx).ledger().settled(old(self)@.is_full.slot)
            }),
    {
        self.shell.is_full(ctx)
    }

    /// Reads whether the queue is closed.
    pub fn closed(&self) -> (closed: bool)
        requires
            self.wf(),
        ensures
            closed == self@.ended,
    {
        self.shell.closed()
    }

    /// Declared capacity, or `None` when unbounded. It never changes.
    pub fn capacity(&self) -> (capacity: Option<usize>)
        requires
            self.wf(),
        ensures
            capacity == self@.bound,
    {
        self.shell.capacity()
    }

    /// Handle for the `head` reader.
    pub fn head_handle(&self) -> (handle: Computed<Option<T>>)
        ensures
            handle.slot() == self@.head.slot,
    {
        Computed::new(self.shell.head_slot())
    }

    /// Handle for the `len` reader.
    pub fn len_handle(&self) -> (handle: Computed<usize>)
        ensures
            handle.slot() == self@.len.slot,
    {
        Computed::new(self.shell.len_slot())
    }

    /// Handle for the `is_empty` reader.
    pub fn is_empty_handle(&self) -> (handle: Computed<bool>)
        ensures
            handle.slot() == self@.is_empty.slot,
    {
        Computed::new(self.shell.is_empty_slot())
    }

    /// Handle for the `is_full` reader.
    pub fn is_full_handle(&self) -> (handle: Computed<bool>)
        ensures
            handle.slot() == self@.is_full.slot,
    {
        Computed::new(self.shell.is_full_slot())
    }

    /// Handle for the closed flag.
    pub fn closed_handle(&self) -> (handle: Computed<bool>)
        ensures
            handle.slot() == self@.closed_slot,
    {
        Computed::new(self.shell.closed_slot())
    }
}

} // verus!
