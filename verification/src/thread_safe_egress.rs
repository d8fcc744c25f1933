//! `ThreadSafeEgressCell`: the reactive egress on a context that threads share.
//!
//! Owners put the cell and its context behind one lock.

use vstd::prelude::*;

use crate::egress_core::{
    EgressAck, EgressClaim, EgressConfigError, EgressEnvelope, EgressFailure, EgressPolicy,
    EgressReconnect, EgressRetry, EgressRetryAction, EgressState, by_sequence, record_views,
};
use crate::egress_line::{EgressLine, EgressLineState};
use crate::egress_shell::{EgressAttachment, EgressCellState, EgressTransport};
use crate::reactive::{Computed, ReactiveGraph, ThreadSafeContext};
use crate::value::Datum;

verus! {

/// Delivery authority with four memoized projections and the transports that are attached
/// to it.
pub struct ThreadSafeEgressCell<T, Tr> {
    line: EgressLine<T, Tr>,
}

impl<T: Datum, Tr: EgressTransport<T>> ThreadSafeEgressCell<T, Tr> {
    /// The cell with its attachments, over payload views.
    pub closed spec fn line(&self) -> EgressLineState<T::V> {
        self.line.line()
    }

    /// The cell is one that the operations can reach.
    pub closed spec fn wf(&self) -> bool {
        self.line.wf()
    }

    /// What well-formedness says to a caller.
    pub proof fn wf_facts(&self)
        requires
            self.wf(),
        ensures
            self.line().cell.core.wf(),
    {
        self.line.wf_facts();
    }

    /// Builds a cell over `policy`.
    pub fn new(ctx: &mut ThreadSafeContext, generation: u64, policy: EgressPolicy) -> (built:
        Result<Self, EgressConfigError>)
        requires
            old(ctx).wf(),
        ensures
            final(ctx).wf(),
            built is Ok <==> EgressState::<T::V>::accepts(policy),
            built matches Ok(cell) ==> {
                &&& cell.wf()
                &&& cell.line() == EgressLineState::bare(
                    EgressCellState::<T::V>::initial(
                        generation,
                        policy,
                        old(ctx).ledger().slots.len() as int,
                    ),
                )
                &&& cell.line().on(final(ctx).ledger())
                &&& final(ctx).ledger() == old(ctx).ledger().grown(4)
            },
            built matches Err(error) ==> final(ctx).ledger() == old(ctx).ledger() && error
                == if policy.inflight_limit == 0 {
                EgressConfigError::ZeroInflightLimit
            } else if policy.retry_base == 0 {
                EgressConfigError::ZeroRetryBase
            } else {
                EgressConfigError::RetryCeilingBelowBase
            },
    {
        match EgressLine::new(ctx, generation, policy) {
            Ok(line) => Ok(ThreadSafeEgressCell { line }),
            Err(error) => Err(error),
        }
    }

    /// The generation fence.
    pub fn generation(&self) -> (generation: u64)
        ensures
            generation == self.line().cell.core.generation,
    {
        self.line.generation()
    }

    /// The next sequence to assign.
    pub fn next_sequence(&self) -> (sequence: u64)
        ensures
            sequence == self.line().cell.core.next_sequence,
    {
        self.line.next_sequence()
    }

    /// Assigns the next sequence and places the value in the pending projection.
    pub fn enqueue(&mut self, ctx: &mut ThreadSafeContext, payload: T) -> (sequence: u64)
        requires
            old(ctx).wf(),
            old(self).wf(),
            old(self).line().on(old(ctx).ledger()),
        ensures
            final(ctx).wf(),
            final(self).wf(),
            final(self).line().on(final(ctx).ledger()),
            ({
                let (core, change, outcome) = old(self).line().cell.core.enqueued(payload@);
                &&& old(self).line().over(core).settles(
                    old(ctx).ledger().cleared(old(self).line().cell.roots(change)),
                    final(self).line(),
                    final(ctx).ledger(),
                )
                &&& sequence == outcome
            }),
    {
        self.line.enqueue(ctx, payload)
    }

    /// Moves one pending value into the unacknowledged window, for the attachment that
    /// captured `generation`.
    pub fn claim(
        &mut self,
        ctx: &mut ThreadSafeContext,
        generation: u64,
    ) -> (claim: EgressClaim<T>)
        requires
            old(ctx).wf(),
            old(self).wf(),
            old(self).line().on(old(ctx).ledger()),
        ensures
            final(ctx).wf(),
            final(self).wf(),
            final(self).line().on(final(ctx).ledger()),
            ({
                let (core, change, outcome) = old(self).line().cell.core.claimed(generation);
                &&& old(self).line().over(core).settles(
                    old(ctx).ledger().cleared(old(self).line().cell.roots(change)),
                    final(self).line(),
                    final(ctx).ledger(),
                )
                &&& claim@ == outcome
            }),
    {
        self.line.claim(ctx, generation)
    }

    /// Moves the acknowledgement watermark up, which reopens the window for every transport
    /// that is attached.
    pub fn ack(
        &mut self,
        ctx: &mut ThreadSafeContext,
        generation: u64,
        through: u64,
    ) -> (ack: EgressAck)
        requires
            old(ctx).wf(),
            old(self).wf(),
            old(self).line().on(old(ctx).ledger()),
        ensures
            final(ctx).wf(),
            final(self).wf(),
            final(self).line().on(final(ctx).ledger()),
            ({
                let (core, change, outcome) = old(self).line().cell.core.acked(generation, through);
                &&& old(self).line().over(core).settles(
                    old(ctx).ledger().cleared(old(self).line().cell.roots(change)),
                    final(self).line(),
                    final(ctx).ledger(),
                )
                &&& ack == outcome
            }),
    {
        self.line.ack(ctx, generation, through)
    }

    /// Reports a failed send.
    pub fn fail(
        &mut self,
        ctx: &mut ThreadSafeContext,
        generation: u64,
        sequence: u64,
    ) -> (failure: EgressFailure)
        requires
            old(ctx).wf(),
            old(self).wf(),
            old(self).line().on(old(ctx).ledger()),
        ensures
            final(ctx).wf(),
            final(self).wf(),
            final(self).line().on(final(ctx).ledger()),
            ({
                let (core, change, outcome) = old(self).line().cell.core.failing(generation, sequence);
                &&& old(self).line().over(core).settles(
                    old(ctx).ledger().cleared(old(self).line().cell.roots(change)),
                    final(self).line(),
                    final(ctx).ledger(),
                )
                &&& failure == outcome
            }),
    {
        self.line.fail(ctx, generation, sequence)
    }

    /// Releases a parked record.
    pub fn retry_now(
        &mut self,
        ctx: &mut ThreadSafeContext,
        generation: u64,
        sequence: u64,
    ) -> (action: EgressRetryAction)
        requires
            old(ctx).wf(),
            old(self).wf(),
            old(self).line().on(old(ctx).ledger()),
        ensures
            final(ctx).wf(),
            final(self).wf(),
            final(self).line().on(final(ctx).ledger()),
            ({
                let (core, change, outcome) = old(self).line().cell.core.released(generation, sequence);
                &&& old(self).line().over(core).settles(
                    old(ctx).ledger().cleared(old(self).line().cell.roots(change)),
                    final(self).line(),
                    final(ctx).ledger(),
                )
                &&& action == outcome
            }),
    {
        self.line.retry_now(ctx, generation, sequence)
    }

    /// Moves the generation fence; every unacknowledged record is pending again. The
    /// attachments keep the generation that they captured.
    pub fn reconnect(
        &mut self,
        ctx: &mut ThreadSafeContext,
        generation: u64,
    ) -> (outcome: EgressReconnect)
        requires
            old(ctx).wf(),
            old(self).wf(),
            old(self).line().on(old(ctx).ledger()),
            old(self).line().cell.core.inflight.len() + old(self).line().cell.core.failed.len()
                <= usize::MAX,
        ensures
            final(ctx).wf(),
            final(self).wf(),
            final(self).line().on(final(ctx).ledger()),
            ({
                let (core, change, expected) = old(self).line().cell.core.reconnected(generation);
                &&& old(self).line().over(core).settles(
                    old(ctx).ledger().cleared(old(self).line().cell.roots(change)),
                    final(self).line(),
                    final(ctx).ledger(),
                )
                &&& outcome == expected
            }),
    {
        self.line.reconnect(ctx, generation)
    }

    /// Reads the records to send, in order.
    pub fn pending(&mut self, ctx: &mut ThreadSafeContext) -> (records: Vec<EgressEnvelope<T>>)
        requires
            old(ctx).wf(),
            old(self).wf(),
            old(self).line().on(old(ctx).ledger()),
        ensures
            final(ctx).wf(),
            final(self).wf(),
            final(self).line().on(final(ctx).ledger()),
            ({
                let shown = old(self).line().cell.pending.shows(
                    old(ctx).ledger(),
                    old(self).line().cell.core.pending,
                );
                &&& record_views(records@) == shown
                &&& final(self).line() == (EgressLineState {
                    cell: EgressCellState {
                        pending: old(self).line().cell.pending.showing(shown),
                        ..old(self).line().cell
                    },
                    ..old(self).line()
                })
                &&& final(ctx).ledger() == old(ctx).ledger().settled(
                    old(self).line().cell.pending.slot,
                )
            }),
    {
        self.line.pending(ctx)
    }

    /// Reads the unacknowledged records, in ascending sequence.
    pub fn inflight(&mut self, ctx: &mut ThreadSafeContext) -> (records: Vec<EgressEnvelope<T>>)
        requires
            old(ctx).wf(),
            old(self).wf(),
            old(self).line().on(old(ctx).ledger()),
        ensures
            final(ctx).wf(),
            final(self).wf(),
            final(self).line().on(final(ctx).ledger()),
            ({
                let shown = old(self).line().cell.inflight.shows(
                    old(ctx).ledger(),
                    by_sequence(old(self).line().cell.core.inflight),
                );
                &&& record_views(records@) == shown
                &&& final(self).line() == (EgressLineState {
                    cell: EgressCellState {
                        inflight: old(self).line().cell.inflight.showing(shown),
                        ..old(self).line().cell
                    },
                    ..old(self).line()
                })
                &&& final(ctx).ledger() == old(ctx).ledger().settled(
                    old(self).line().cell.inflight.slot,
                )
            }),
    {
        self.line.inflight(ctx)
    }

    /// Reads the acknowledgement watermark.
    pub fn acked_through(&mut self, ctx: &mut ThreadSafeContext) -> (through: Option<u64>)
        requires
            old(ctx).wf(),
            old(self).wf(),
            old(self).line().on(old(ctx).ledger()),
        ensures
            final(ctx).wf(),
            final(self).wf(),
            final(self).line().on(final(ctx).ledger()),
            ({
                let shown = old(self).line().cell.acked_through.shows(
                    old(ctx).ledger(),
                    old(self).line().cell.core.acked_through,
                );
                &&& through == shown
                &&& final(self).line() == (EgressLineState {
                    cell: EgressCellState {
                        acked_through: old(self).line().cell.acked_through.showing(shown),
                        ..old(self).line().cell
                    },
                    ..old(self).line()
                })
                &&& final(ctx).ledger() == old(ctx).ledger().settled(
                    old(self).line().cell.acked_through.slot,
                )
            }),
    {
        self.line.acked_through(ctx)
    }

    /// Reads the outstanding retry decision.
    pub fn retry(&mut self, ctx: &mut ThreadSafeContext) -> (retry: Option<EgressRetry>)
        requires
            old(ctx).wf(),
            old(self).wf(),
            old(self).line().on(old(ctx).ledger()),
        ensures
            final(ctx).wf(),
            final(self).wf(),
            final(self).line().on(final(ctx).ledger()),
            ({
                let shown = old(self).line().cell.retry.shows(
                    old(ctx).ledger(),
                    old(self).line().cell.core.retry,
                );
                &&& retry == shown
                &&& final(self).line() == (EgressLineState {
                    cell: EgressCellState {
                        retry: old(self).line().cell.retry.showing(shown),
                        ..old(self).line().cell
                    },
                    ..old(self).line()
                })
                &&& final(ctx).ledger() == old(ctx).ledger().settled(
                    old(self).line().cell.retry.slot,
                )
            }),
    {
        self.line.retry(ctx)
    }

    /// Attaches one transport at the current producer generation, and sends what is
    /// pending through it.
    ///
    /// A reconnect does not move the captured generation: the old attachment becomes inert
    /// at the fence, and callers attach a replacement for the new incarnation.
    pub fn attach_transport(
        &mut self,
        ctx: &mut ThreadSafeContext,
        transport: Tr,
    ) -> (attachment: EgressAttachment)
        requires
            old(ctx).wf(),
            old(self).wf(),
            old(self).line().on(old(ctx).ledger()),
        ensures
            final(ctx).wf(),
            final(self).wf(),
            final(self).line().on(final(ctx).ledger()),
            attachment.generation == old(self).line().cell.core.generation,
            attachment.effect.id().index == old(ctx).ledger().slots.len(),
            old(self).line().attached(attachment, transport.attempts()).settles(
                old(ctx).ledger().allocated(old(self).line().cell.driving()),
                final(self).line(),
                final(ctx).ledger(),
            ),
    {
        self.line.attach_transport(ctx, transport)
    }

    /// The transport of an attachment, counted in the order of attachment.
    pub fn transport(&self, index: usize) -> (transport: &Tr)
        requires
            self.wf(),
            index < self.line().attachments.len(),
        ensures
            transport.attempts() == self.line().logs[index as int],
    {
        self.line.transport(index)
    }

    /// Runs every transport effect that is due, until none is. What an open batch held back
    /// is due once the batch closes.
    pub fn run_due(&mut self, ctx: &mut ThreadSafeContext)
        requires
            old(ctx).wf(),
            old(self).wf(),
            old(self).line().on(old(ctx).ledger()),
        ensures
            final(ctx).wf(),
            final(self).wf(),
            final(self).line().on(final(ctx).ledger()),
            old(self).line().settles(old(ctx).ledger(), final(self).line(), final(ctx).ledger()),
    {
        self.line.run_due(ctx)
    }

    /// Handle for the `pending` reader.
    pub fn pending_handle(&self) -> (handle: Computed<Vec<EgressEnvelope<T>>>)
        ensures
            handle.slot() == self.line().cell.pending.slot,
    {
        Computed::new(self.line.pending_slot())
    }

    /// Handle for the `inflight` reader.
    pub fn inflight_handle(&self) -> (handle: Computed<Vec<EgressEnvelope<T>>>)
        ensures
            handle.slot() == self.line().cell.inflight.slot,
    {
        Computed::new(self.line.inflight_slot())
    }

    /// Handle for the `acked_through` reader.
    pub fn acked_through_handle(&self) -> (handle: Computed<Option<u64>>)
        ensures
            handle.slot() == self.line().cell.acked_through.slot,
    {
        Computed::new(self.line.acked_through_slot())
    }

    /// Handle for the `retry` reader.
    pub fn retry_handle(&self) -> (handle: Computed<Option<EgressRetry>>)
        ensures
            handle.slot() == self.line().cell.retry.slot,
    {
        Computed::new(self.line.retry_slot())
    }
}

} // verus!
