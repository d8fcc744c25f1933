//! `WorkQueueCell`: the single-threaded competing-consumer work queue.
//!
//! The owning instance serializes claims.

use vstd::prelude::*;

use crate::reactive::{Computed, Context, ReactiveGraph};
use crate::value::{Key, Datum};
use crate::work_queue_core::{
    WorkQueueDeadLetter, WorkQueueDeadLetterReason, WorkQueueDelivery, WorkQueueItem,
};
use crate::work_queue_shell::{WorkCellState, WorkQueueShell};

verus! {

/// Independent reader kinds of the queue's lifecycle.
pub struct WorkQueueReaderHandles {
    /// How many items are pending.
    pub pending_len: Computed<usize>,
    /// Whether nothing is pending.
    pub is_empty: Computed<bool>,
    /// How many leases are live.
    pub in_flight_len: Computed<usize>,
    /// How many items are dead.
    pub dead_letter_len: Computed<usize>,
}

/// A pull-based work queue where consumers compete for exclusive delivery.
pub struct WorkQueueCell<T, I = String> {
    shell: WorkQueueShell<T, I>,
}

impl<T: Datum, I: Key> View for WorkQueueCell<T, I> {
    type V = WorkCellState<T::V, I::V>;

    closed spec fn view(&self) -> WorkCellState<T::V, I::V> {
        self.shell@
    }
}

impl<T: Datum, I: Key> WorkQueueCell<T, I> {
    /// The cell is one that the operations can reach.
    pub closed spec fn wf(&self) -> bool {
        self.shell.wf()
    }

    /// What well-formedness says to a caller.
    pub proof fn wf_facts(&self)
        requires
            self.wf(),
        ensures
            self@.core.wf(),
    {
        self.shell.wf_facts();
    }

    /// An empty local-authority work queue.
    pub fn new(
        ctx: &mut Context,
        visibility_timeout: u64,
        max_deliveries: u32,
    ) -> (cell: Self)
        requires
            old(ctx).wf(),
            visibility_timeout > 0,
            max_deliveries >= 1,
        ensures
            final(ctx).wf(),
            cell.wf(),
            cell@ == WorkCellState::<T::V, I::V>::initial(
                visibility_timeout,
                max_deliveries,
                old(ctx).ledger().slots.len() as int,
            ),
            cell@.on(final(ctx).ledger()),
            final(ctx).ledger() == old(ctx).ledger().grown(4),
    {
        WorkQueueCell { shell: WorkQueueShell::new(ctx, visibility_timeout, max_deliveries) }
    }

    /// Appends one item to the pending FIFO and returns its stable identity.
    pub fn push(&mut self, ctx: &mut Context, value: T) -> (item_id: u64)
        requires
            old(ctx).wf(),
            old(self).wf(),
            old(self)@.on(old(ctx).ledger()),
            old(self)@.core.next_item_id < u64::MAX,
        ensures
            final(ctx).wf(),
            final(self).wf(),
            final(self)@.on(final(ctx).ledger()),
            ({
                let core = old(self)@.core.pushed(value@);
                &&& final(self)@ == old(self)@.over(core)
                &&& final(ctx).ledger() == old(self)@.moved(old(ctx).ledger(), core)
                &&& item_id == old(self)@.core.next_item_id
            }),
    {
        self.shell.push(ctx, value)
    }

    /// Claims the oldest pending item for `worker`, or `None` when empty.
    pub fn claim(&mut self, ctx: &mut Context, worker: I, now: u64) -> (claimed: Option<
        WorkQueueDelivery<T, I>,
    >)
        requires
            old(ctx).wf(),
            old(self).wf(),
            old(self)@.on(old(ctx).ledger()),
            old(self)@.core.pending.len() > 0 ==> old(self)@.core.next_delivery_id < u64::MAX,
        ensures
            final(ctx).wf(),
            final(self).wf(),
            final(self)@.on(final(ctx).ledger()),
            claimed is Some <==> old(self)@.core.pending.len() > 0,
            claimed is None ==> final(self)@ == old(self)@ && final(ctx).ledger()
                == old(ctx).ledger(),
            claimed matches Some(delivery) ==> {
                let core = old(self)@.core.claimed(worker@, now);
                &&& final(self)@ == old(self)@.over(core)
                &&& final(ctx).ledger() == old(self)@.moved(old(ctx).ledger(), core)
                &&& delivery@ == old(self)@.core.lease(worker@, now)
            },
    {
        self.shell.claim(ctx, worker, now)
    }

    /// Settles a matching live delivery. Wrong-worker, stale and duplicate
    /// acknowledgements are no-ops.
    pub fn ack(&mut self, ctx: &mut Context, worker: &I, delivery_id: u64) -> (done: bool)
        requires
            old(ctx).wf(),
            old(self).wf(),
            old(self)@.on(old(ctx).ledger()),
        ensures
            final(ctx).wf(),
            final(self).wf(),
            final(self)@.on(final(ctx).ledger()),
            done == old(self)@.core.held_by(worker@, delivery_id),
            !done ==> final(self)@ == old(self)@ && final(ctx).ledger() == old(ctx).ledger(),
            done ==> {
                let core = old(self)@.core.settled(delivery_id);
                &&& final(self)@ == old(self)@.over(core)
                &&& final(ctx).ledger() == old(self)@.moved(old(ctx).ledger(), core)
            },
    {
        self.shell.ack(ctx, worker, delivery_id)
    }

    /// Rejects a matching delivery, requeueing at the tail or dead-lettering at the
    /// limit.
    pub fn nack(&mut self, ctx: &mut Context, worker: &I, delivery_id: u64) -> (done: bool)
        requires
            old(ctx).wf(),
            old(self).wf(),
            old(self)@.on(old(ctx).ledger()),
        ensures
            final(ctx).wf(),
            final(self).wf(),
            final(self)@.on(final(ctx).ledger()),
            done == old(self)@.core.held_by(worker@, delivery_id),
            !done ==> final(self)@ == old(self)@ && final(ctx).ledger() == old(ctx).ledger(),
            done ==> {
                let core = old(self)@.core.failed(
                    delivery_id,
                    WorkQueueDeadLetterReason::Nack,
                );
                &&& final(self)@ == old(self)@.over(core)
                &&& final(ctx).ledger() == old(self)@.moved(old(ctx).ledger(), core)
            },
    {
        self.shell.nack(ctx, worker, delivery_id)
    }

    /// Requeues or dead-letters every lease with `deadline < now`, in delivery-id order.
    /// Returns how many there were.
    pub fn reap_expired(&mut self, ctx: &mut Context, now: u64) -> (count: usize)
        requires
            old(ctx).wf(),
            old(self).wf(),
            old(self)@.on(old(ctx).ledger()),
        ensures
            final(ctx).wf(),
            final(self).wf(),
            final(self)@.on(final(ctx).ledger()),
            ({
                let core = old(self)@.core.reaped(old(self)@.core.expired(now));
                &&& final(self)@ == old(self)@.over(core)
                &&& final(ctx).ledger() == old(self)@.moved(old(ctx).ledger(), core)
                &&& count == old(self)@.core.expired(now).len()
            }),
    {
        self.shell.reap_expired(ctx, now)
    }

    /// Reads how many items are pending.
    pub fn pending_len(&mut self, ctx: &mut Context) -> (count: usize)
        requires
            old(ctx).wf(),
            old(self).wf(),
            old(self)@.on(old(ctx).ledger()),
        ensures
            final(ctx).wf(),
            final(self).wf(),
            final(self)@.on(final(ctx).ledger()),
            ({
                let shown = old(self)@.pending_len.shows(
                    old(ctx).ledger(),
                    old(self)@.core.counts().pending,
                );
                &&& count == shown
                &&& final(self)@ == (WorkCellState {
                    pending_len: old(self)@.pending_len.showing(shown),
                    ..old(self)@
                })
                &&& final(ctx).ledger() == old(ctx).ledger().settled(old(self)@.pending_len.slot)
            }),
    {
        self.shell.pending_len(ctx)
    }

    /// Reads whether nothing is pending.
    pub fn is_empty(&mut self, ctx: &mut Context) -> (answer: bool)
        requires
            old(ctx).wf(),
            old(self).wf(),
            old(self)@.on(old(ctx).ledger()),
        ensures
            final(ctx).wf(),
            final(self).wf(),
            final(self)@.on(final(ctx).ledger()),
            ({
                let shown = old(self)@.is_empty.shows(
                    old(ctx).ledger(),
                    old(self)@.core.counts().pending == 0,
                );
                &&& answer == shown
                &&& final(self)@ == (WorkCellState {
                    is_empty: old(self)@.is_empty.showing(shown),
                    ..old(self)@
                })
                &&& final(ctx).ledger() == old(ctx).ledger().settled(old(self)@.is_empty.slot)
            }),
    {
        self.shell.is_empty(ctx)
    }

    /// Reads how many leases are live.
    pub fn in_flight_len(&mut self, ctx: &mut Context) -> (count: usize)
        requires
            old(ctx).wf(),
            old(self).wf(),
            old(self)@.on(old(ctx).ledger()),
        ensures
            final(ctx).wf(),
            final(self).wf(),
            final(self)@.on(final(ctx).ledger()),
            ({
                let shown = old(self)@.in_flight_len.shows(
                    old(ctx).ledger(),
                    old(self)@.core.counts().in_flight,
                );
                &&& count == shown
                &&& final(self)@ == (WorkCellState {
                    in_flight_len: old(self)@.in_flight_len.showing(shown),
                    ..old(self)@
                })
                &&& final(ctx).ledger() == old(ctx).ledger().settled(old(self)@.in_flight_len.slot)
            }),
    {
        self.shell.in_flight_len(ctx)
    }

    /// Reads how many items are dead.
    pub fn dead_letter_len(&mut self, ctx: &mut Context) -> (count: usize)
        requires
            old(ctx).wf(),
            old(self).wf(),
            old(self)@.on(old(ctx).ledger()),
        ensures
            final(ctx).wf(),
            final(self).wf(),
            final(self)@.on(final(ctx).ledger()),
            ({
                let shown = old(self)@.dead_letter_len.shows(
                    old(ctx).ledger(),
                    old(self)@.core.counts().dead_letters,
                );
                &&& count == shown
                &&& final(self)@ == (WorkCellState {
                    dead_letter_len: old(self)@.dead_letter_len.showing(shown),
                    ..old(self)@
                })
                &&& final(ctx).ledger() == old(ctx).ledger().settled(
                    old(self)@.dead_letter_len.slot,
                )
            }),
    {
        self.shell.dead_letter_len(ctx)
    }

    /// Pending items, oldest first. Reads no reader.
    pub fn pending(&self) -> (items: Vec<WorkQueueItem<T>>)
        ensures
            items@.map_values(|item: WorkQueueItem<T>| item@) == self@.core.pending,
    {
        self.shell.pending()
    }

    /// Live leases sorted by delivery id. Reads no reader.
    pub fn in_flight(&self) -> (deliveries: Vec<WorkQueueDelivery<T, I>>)
        requires
            self.wf(),
        ensures
            deliveries@.map_values(|delivery: WorkQueueDelivery<T, I>| delivery@)
                == self@.core.leases(),
    {
        self.shell.in_flight()
    }

    /// Dead letters in failure order. Reads no reader.
    pub fn dead_letters(&self) -> (letters: Vec<WorkQueueDeadLetter<T>>)
        ensures
            letters@.map_values(|letter: WorkQueueDeadLetter<T>| letter@)
                == self@.core.dead_letters,
    {
        self.shell.dead_letters()
    }

    /// Handles for the four reader kinds.
    pub fn reader_handles(&self) -> (handles: WorkQueueReaderHandles)
        ensures
            handles.pending_len.slot() == self@.pending_len.slot,
            handles.is_empty.slot() == self@.is_empty.slot,
            handles.in_flight_len.slot() == self@.in_flight_len.slot,
            handles.dead_letter_len.slot() == self@.dead_letter_len.slot,
    {
        WorkQueueReaderHandles {
            pending_len: Computed::new(self.shell.pending_len_slot()),
            is_empty: Computed::new(self.shell.is_empty_slot()),
            in_flight_len: Computed::new(self.shell.in_flight_len_slot()),
            dead_letter_len: Computed::new(self.shell.dead_letter_len_slot()),
        }
    }
}

} // verus!
