//! An egress cell with the transports that are attached to it.
//!
//! A transition makes the transport effects due whose projections it moved. They run
//! before the transition returns: the first one that is due, again and again, until none
//! is. Inside a batch nothing becomes due before the batch closes.

use vstd::prelude::*;

use crate::egress_core::{
    EgressAck, EgressClaim, EgressConfigError, EgressEnvelope, EgressFailure, EgressPolicy,
    EgressReconnect, EgressRetry, EgressRetryAction, EgressState, by_sequence, record_views,
};
use crate::egress_shell::{EgressAttachment, EgressCellState, EgressShell, EgressTransport};
use crate::graph::{Ledger, SlotId};
use crate::reactive::ReactiveGraph;
use crate::value::Datum;

verus! {

/// One run of a transport effect.
#[verifier::ext_equal]
pub struct EgressRun<P> {
    /// Which attachment ran.
    pub at: int,
    /// The send attempts that it made, and what the transport answered.
    pub made: Seq<(EgressEnvelope<P>, bool)>,
}

/// Whether no transport effect is due.
pub open spec fn quiet(ledger: Ledger, attachments: Seq<EgressAttachment>) -> bool {
    forall|i: int|
        0 <= i < attachments.len() ==> ledger.clean((#[trigger] attachments[i]).effect.id())
}

/// Whether a transport effect is the first one that is due.
pub open spec fn is_next(ledger: Ledger, attachments: Seq<EgressAttachment>, at: int) -> bool {
    &&& 0 <= at < attachments.len()
    &&& !ledger.clean(attachments[at].effect.id())
    &&& forall|i: int| 0 <= i < at ==> ledger.clean((#[trigger] attachments[i]).effect.id())
}

/// How many transport effects are due.
pub open spec fn due(ledger: Ledger, attachments: Seq<EgressAttachment>) -> nat
    decreases attachments.len(),
{
    if attachments.len() == 0 {
        0
    } else {
        due(ledger, attachments.drop_last()) + if ledger.clean(attachments.last().effect.id()) {
            0nat
        } else {
            1nat
        }
    }
}

/// An egress cell with its attachments, over payload views.
#[verifier::ext_equal]
pub struct EgressLineState<P> {
    /// The cell.
    pub cell: EgressCellState<P>,
    /// The attachments, oldest first.
    pub attachments: Seq<EgressAttachment>,
    /// The send attempts that each transport has seen.
    pub logs: Seq<Seq<(EgressEnvelope<P>, bool)>>,
}

impl<P> EgressLineState<P> {
    /// A cell without attachments.
    pub open spec fn bare(cell: EgressCellState<P>) -> Self {
        EgressLineState { cell, attachments: Seq::empty(), logs: Seq::empty() }
    }

    /// The cell's readers stand on a ledger, and so do the transport effects, in their order,
    /// on slots that follow the pending and the in-flight reader.
    pub open spec fn on(self, ledger: Ledger) -> bool {
        &&& self.cell.on(ledger)
        &&& self.logs.len() == self.attachments.len()
        &&& forall|i: int|
            0 <= i < self.attachments.len() ==> {
                let slot = (#[trigger] self.attachments[i]).effect.id();
                &&& ledger.has(slot)
                &&& self.cell.retry.slot.index < slot.index
                &&& ledger.slots[slot.index as int].deps == self.cell.driving()
            }
        &&& forall|i: int, k: int|
            0 <= i < k < self.attachments.len() ==> (
            #[trigger] self.attachments[i]).effect.id().index < (
            #[trigger] self.attachments[k]).effect.id().index
    }

    /// A cell with its attachments stays on a ledger that only grows.
    pub proof fn stays_on(self, ledger: Ledger, later: Ledger)
        requires
            self.on(ledger),
            later.extends(ledger),
        ensures
            self.on(later),
    {
    }

    /// With another authority behind the same readers and attachments.
    pub open spec fn over(self, core: EgressState<P>) -> Self {
        EgressLineState { cell: self.cell.over(core), ..self }
    }

    /// With one more attachment, its transport new to this cell.
    pub open spec fn attached(
        self,
        attachment: EgressAttachment,
        log: Seq<(EgressEnvelope<P>, bool)>,
    ) -> Self {
        EgressLineState {
            attachments: self.attachments.push(attachment),
            logs: self.logs.push(log),
            ..self
        }
    }

    /// What one run leaves.
    pub open spec fn after_run(self, ledger: Ledger, run: EgressRun<P>) -> (Self, Ledger) {
        let attachment = self.attachments[run.at];
        let (cell, later) = self.cell.ran(
            ledger.settled(attachment.effect.id()),
            attachment.generation,
            run.made,
        );
        (
            EgressLineState {
                cell,
                logs: self.logs.update(run.at, self.logs[run.at] + run.made),
                ..self
            },
            later,
        )
    }

    /// Whether a run is one of the first effect that is due.
    pub open spec fn may_run(self, ledger: Ledger, run: EgressRun<P>) -> bool {
        let attachment = self.attachments[run.at];
        let here = ledger.settled(attachment.effect.id());
        &&& is_next(ledger, self.attachments, run.at)
        &&& self.cell.runs(
            here,
            attachment.generation,
            run.made,
            self.cell.ran(here, attachment.generation, run.made),
        )
    }

    /// What some runs leave.
    pub open spec fn after_runs(self, ledger: Ledger, runs: Seq<EgressRun<P>>) -> (Self, Ledger)
        decreases runs.len(),
    {
        if runs.len() == 0 {
            (self, ledger)
        } else {
            let (line, here) = self.after_runs(ledger, runs.drop_last());
            line.after_run(here, runs.last())
        }
    }

    /// Whether some runs are what becomes of the effects that are due, one after the other.
    pub open spec fn may_follow(self, ledger: Ledger, runs: Seq<EgressRun<P>>) -> bool
        decreases runs.len(),
    {
        runs.len() > 0 ==> {
            let (line, here) = self.after_runs(ledger, runs.drop_last());
            &&& self.may_follow(ledger, runs.drop_last())
            &&& line.may_run(here, runs.last())
        }
    }

    /// Whether the effects that are due lead to a cell and a ledger: the first one runs,
    /// again and again, until none is due.
    pub open spec fn settles(self, ledger: Ledger, after: Self, later: Ledger) -> bool {
        exists|runs: Seq<EgressRun<P>>| #[trigger]
            self.may_follow(ledger, runs) && self.after_runs(ledger, runs) == (after, later)
                && quiet(later, after.attachments)
    }

    /// One run keeps the attachments, and where it sends nothing it leaves one effect fewer
    /// due and the authority as it was; otherwise fewer records are pending.
    pub proof fn a_run_leads_towards_quiet(self, ledger: Ledger, run: EgressRun<P>)
        requires
            self.on(ledger),
            self.may_run(ledger, run),
        ensures
            ({
                let (line, later) = self.after_run(ledger, run);
                &&& line.attachments == self.attachments
                &&& line.cell.seated_as(self.cell)
                &&& line.cell.core.pending.len() + run.made.len() == self.cell.core.pending.len()
                &&& run.made.len() == 0 ==> {
                    &&& line.cell.core == self.cell.core
                    &&& due(later, self.attachments) < due(ledger, self.attachments)
                }
            }),
    {
        let attachment = self.attachments[run.at];
        let here = ledger.settled(attachment.effect.id());
        let (seen, settled, pending) = self.cell.looked(here);
        if pending.len() > 0 {
            sending_takes_from_pending(seen, settled, attachment.generation, run.made);
            sending_moves_no_reader(seen, settled, attachment.generation, run.made);
        }
        if run.made.len() == 0 {
            assert(self.after_run(ledger, run).1 == settled);
            assert(self.attachments.take(self.attachments.len() as int) =~= self.attachments);
            settling_leaves_fewer_due(ledger, settled, self.attachments, run.at);
        }
    }
}

/// Every attempt takes one record from what is pending.
pub proof fn sending_takes_from_pending<P>(
    cell: EgressCellState<P>,
    ledger: Ledger,
    generation: u64,
    attempts: Seq<(EgressEnvelope<P>, bool)>,
)
    requires
        cell.makes(ledger, generation, attempts),
    ensures
        cell.sent(ledger, generation, attempts).0.core.pending.len() + attempts.len()
            == cell.core.pending.len(),
    decreases attempts.len(),
{
    if attempts.len() > 0 {
        sending_takes_from_pending(cell, ledger, generation, attempts.drop_last());
    }
}

/// Sending leaves every reader on its slot.
pub proof fn sending_moves_no_reader<P>(
    cell: EgressCellState<P>,
    ledger: Ledger,
    generation: u64,
    attempts: Seq<(EgressEnvelope<P>, bool)>,
)
    ensures
        cell.sent(ledger, generation, attempts).0.seated_as(cell),
    decreases attempts.len(),
{
    if attempts.len() > 0 {
        sending_moves_no_reader(cell, ledger, generation, attempts.drop_last());
    }
}

/// Where slots only become clean, and that of one attachment does, fewer are due.
proof fn settling_leaves_fewer_due(
    ledger: Ledger,
    later: Ledger,
    attachments: Seq<EgressAttachment>,
    at: int,
)
    requires
        at < attachments.len(),
        forall|i: int|
            0 <= i < attachments.len() && ledger.clean((#[trigger] attachments[i]).effect.id())
                ==> later.clean(attachments[i].effect.id()),
        0 <= at ==> !ledger.clean(attachments[at].effect.id()) && later.clean(
            attachments[at].effect.id(),
        ),
    ensures
        due(later, attachments) <= due(ledger, attachments),
        0 <= at ==> due(later, attachments) < due(ledger, attachments),
    decreases attachments.len(),
{
    if attachments.len() > 0 {
        let fewer = attachments.drop_last();
        assert forall|i: int|
            0 <= i < fewer.len() && ledger.clean((#[trigger] fewer[i]).effect.id()) implies
            later.clean(fewer[i].effect.id()) by {
            assert(fewer[i] == attachments[i]);
        }
        assert(attachments.last() == attachments[attachments.len() - 1]);
        if at == attachments.len() - 1 {
            settling_leaves_fewer_due(ledger, later, fewer, -1);
        } else {
            settling_leaves_fewer_due(ledger, later, fewer, at);
        }
    }
}

/// An egress cell with the transports that are attached to it, on any context.
pub struct EgressLine<T, Tr> {
    shell: EgressShell<T>,
    attachments: Vec<EgressAttachment>,
    transports: Vec<Tr>,
}

impl<T: Datum, Tr: EgressTransport<T>> EgressLine<T, Tr> {
    /// The cell with its attachments, over payload views.
    pub closed spec fn line(&self) -> EgressLineState<T::V> {
        EgressLineState {
            cell: self.shell.state(),
            attachments: self.attachments@,
            logs: self.transports@.map_values(|transport: Tr| transport.attempts()),
        }
    }

    /// The cell is one that the operations can reach.
    pub closed spec fn wf(&self) -> bool {
        self.shell.wf() && self.transports@.len() == self.attachments@.len()
    }

    /// What well-formedness says to a caller.
    pub proof fn wf_facts(&self)
        requires
            self.wf(),
        ensures
            self.line().cell.core.wf(),
    {
        self.shell.wf_facts();
    }

    /// Builds a cell over `policy`.
    pub fn new<G: ReactiveGraph>(ctx: &mut G, generation: u64, policy: EgressPolicy) -> (built:
        Result<Self, EgressConfigError>)
        requires
            old(ctx).wf(),
        ensures
            final(ctx).wf(),
            built is Ok <==> EgressState::<T::V>::accepts(policy),
            built matches Ok(cell) ==> {
                &&& cell.wf()
                &&& cell.line() == EgressLineState::bare(
                    EgressCellState::<T::V>::initial(
                        generation,
                        policy,
                        old(ctx).ledger().slots.len() as int,
                    ),
                )
                &&& cell.line().on(final(ctx).ledger())
                &&& final(ctx).ledger() == old(ctx).ledger().grown(4)
            },
            built matches Err(error) ==> final(ctx).ledger() == old(ctx).ledger() && error
                == if policy.inflight_limit == 0 {
                EgressConfigError::ZeroInflightLimit
            } else if policy.retry_base == 0 {
                EgressConfigError::ZeroRetryBase
            } else {
                EgressConfigError::RetryCeilingBelowBase
            },
    {
        match EgressShell::new(ctx, generation, policy) {
            Ok(shell) => {
                let cell = EgressLine {
                    shell,
                    attachments: Vec::new(),
                    transports: Vec::<Tr>::new(),
                };
                proof {
                    assert(cell.line() =~= EgressLineState::bare(shell.state()));
                }
                Ok(cell)
            },
            Err(error) => Err(error),
        }
    }

    /// The generation fence.
    pub fn generation(&self) -> (generation: u64)
        ensures
            generation == self.line().cell.core.generation,
    {
        self.shell.generation()
    }

    /// The next sequence to assign.
    pub fn next_sequence(&self) -> (sequence: u64)
        ensures
            sequence == self.line().cell.core.next_sequence,
    {
        self.shell.next_sequence()
    }

    /// Assigns the next sequence and places the value in the pending projection.
    pub fn enqueue<G: ReactiveGraph>(&mut self, ctx: &mut G, payload: T) -> (sequence: u64)
        requires
            old(ctx).wf(),
            old(self).wf(),
            old(self).line().on(old(ctx).ledger()),
        ensures
            final(ctx).wf(),
            final(self).wf(),
            final(self).line().on(final(ctx).ledger()),
            ({
                let (core, change, outcome) = old(self).line().cell.core.enqueued(payload@);
                &&& old(self).line().over(core).settles(
                    old(ctx).ledger().cleared(old(self).line().cell.roots(change)),
                    final(self).line(),
                    final(ctx).ledger(),
                )
                &&& sequence == outcome
            }),
    {
        let ghost start = self.line();
        let sequence = self.shell.enqueue(ctx, payload);
        proof {
            assert(self.line() =~= start.over(self.shell.state().core));
        }
        self.run_due(ctx);
        sequence
    }

    /// Moves one pending value into the unacknowledged window, for the attachment that
    /// captured `generation`.
    pub fn claim<G: ReactiveGraph>(
        &mut self,
        ctx: &mut G,
        generation: u64,
    ) -> (claim: EgressClaim<T>)
        requires
            old(ctx).wf(),
            old(self).wf(),
            old(self).line().on(old(ctx).ledger()),
        ensures
            final(ctx).wf(),
            final(self).wf(),
            final(self).line().on(final(ctx).ledger()),
            ({
                let (core, change, outcome) = old(self).line().cell.core.claimed(generation);
                &&& old(self).line().over(core).settles(
                    old(ctx).ledger().cleared(old(self).line().cell.roots(change)),
                    final(self).line(),
                    final(ctx).ledger(),
                )
                &&& claim@ == outcome
            }),
    {
        let ghost start = self.line();
        let claim = self.shell.claim(ctx, generation);
        proof {
            assert(self.line() =~= start.over(self.shell.state().core));
        }
        self.run_due(ctx);
        claim
    }

    /// Moves the acknowledgement watermark up, which reopens the window for every transport
    /// that is attached.
    pub fn ack<G: ReactiveGraph>(
        &mut self,
        ctx: &mut G,
        generation: u64,
        through: u64,
    ) -> (ack: EgressAck)
        requires
            old(ctx).wf(),
            old(self).wf(),
            old(self).line().on(old(ctx).ledger()),
        ensures
            final(ctx).wf(),
            final(self).wf(),
            final(self).line().on(final(ctx).ledger()),
            ({
                let (core, change, outcome) = old(self).line().cell.core.acked(generation, through);
                &&& old(self).line().over(core).settles(
                    old(ctx).ledger().cleared(old(self).line().cell.roots(change)),
                    final(self).line(),
                    final(ctx).ledger(),
                )
                &&& ack == outcome
            }),
    {
        let ghost start = self.line();
        let ack = self.shell.ack(ctx, generation, through);
        proof {
            assert(self.line() =~= start.over(self.shell.state().core));
        }
        self.run_due(ctx);
        ack
    }

    /// Reports a failed send.
    pub fn fail<G: ReactiveGraph>(
        &mut self,
        ctx: &mut G,
        generation: u64,
        sequence: u64,
    ) -> (failure: EgressFailure)
        requires
            old(ctx).wf(),
            old(self).wf(),
            old(self).line().on(old(ctx).ledger()),
        ensures
            final(ctx).wf(),
            final(self).wf(),
            final(self).line().on(final(ctx).ledger()),
            ({
                let (core, change, outcome) = old(self).line().cell.core.failing(generation, sequence);
                &&& old(self).line().over(core).settles(
                    old(ctx).ledger().cleared(old(self).line().cell.roots(change)),
                    final(self).line(),
                    final(ctx).ledger(),
                )
                &&& failure == outcome
            }),
    {
        let ghost start = self.line();
        let failure = self.shell.fail(ctx, generation, sequence);
        proof {
            assert(self.line() =~= start.over(self.shell.state().core));
        }
        self.run_due(ctx);
        failure
    }

    /// Releases a parked record.
    pub fn retry_now<G: ReactiveGraph>(
        &mut self,
        ctx: &mut G,
        generation: u64,
        sequence: u64,
    ) -> (action: EgressRetryAction)
        requires
            old(ctx).wf(),
            old(self).wf(),
            old(self).line().on(old(ctx).ledger()),
        ensures
            final(ctx).wf(),
            final(self).wf(),
            final(self).line().on(final(ctx).ledger()),
            ({
                let (core, change, outcome) = old(self).line().cell.core.released(generation, sequence);
                &&& old(self).line().over(core).settles(
                    old(ctx).ledger().cleared(old(self).line().cell.roots(change)),
                    final(self).line(),
                    final(ctx).ledger(),
                )
                &&& action == outcome
            }),
    {
        let ghost start = self.line();
        let action = self.shell.retry_now(ctx, generation, sequence);
        proof {
            assert(self.line() =~= start.over(self.shell.state().core));
        }
        self.run_due(ctx);
        action
    }

    /// Moves the generation fence; every unacknowledged record is pending again. The
    /// attachments keep the generation that they captured.
    pub fn reconnect<G: ReactiveGraph>(
        &mut self,
        ctx: &mut G,
        generation: u64,
    ) -> (outcome: EgressReconnect)
        requires
            old(ctx).wf(),
            old(self).wf(),
            old(self).line().on(old(ctx).ledger()),
            old(self).line().cell.core.inflight.len() + old(self).line().cell.core.failed.len()
                <= usize::MAX,
        ensures
            final(ctx).wf(),
            final(self).wf(),
            final(self).line().on(final(ctx).ledger()),
            ({
                let (core, change, expected) = old(self).line().cell.core.reconnected(generation);
                &&& old(self).line().over(core).settles(
                    old(ctx).ledger().cleared(old(self).line().cell.roots(change)),
                    final(self).line(),
                    final(ctx).ledger(),
                )
                &&& outcome == expected
            }),
    {
        let ghost start = self.line();
        let outcome = self.shell.reconnect(ctx, generation);
        proof {
            assert(self.line() =~= start.over(self.shell.state().core));
        }
        self.run_due(ctx);
        outcome
    }

    /// Reads the records to send, in order.
    pub fn pending<G: ReactiveGraph>(&mut self, ctx: &mut G) -> (records: Vec<EgressEnvelope<T>>)
        requires
            old(ctx).wf(),
            old(self).wf(),
            old(self).line().on(old(ctx).ledger()),
        ensures
            final(ctx).wf(),
            final(self).wf(),
            final(self).line().on(final(ctx).ledger()),
            ({
                let shown = old(self).line().cell.pending.shows(
                    old(ctx).ledger(),
                    old(self).line().cell.core.pending,
                );
                &&& record_views(records@) == shown
                &&& final(self).line() == (EgressLineState {
                    cell: EgressCellState {
                        pending: old(self).line().cell.pending.showing(shown),
                        ..old(self).line().cell
                    },
                    ..old(self).line()
                })
                &&& final(ctx).ledger() == old(ctx).ledger().settled(
                    old(self).line().cell.pending.slot,
                )
            }),
    {
        self.shell.pending(ctx)
    }

    /// The slot of the `pending` reader.
    pub fn pending_slot(&self) -> (slot: SlotId)
        ensures
            slot == self.line().cell.pending.slot,
    {
        self.shell.pending_slot()
    }

    /// Reads the unacknowledged records, in ascending sequence.
    pub fn inflight<G: ReactiveGraph>(&mut self, ctx: &mut G) -> (records: Vec<EgressEnvelope<T>>)
        requires
            old(ctx).wf(),
            old(self).wf(),
            old(self).line().on(old(ctx).ledger()),
        ensures
            final(ctx).wf(),
            final(self).wf(),
            final(self).line().on(final(ctx).ledger()),
            ({
                let shown = old(self).line().cell.inflight.shows(
                    old(ctx).ledger(),
                    by_sequence(old(self).line().cell.core.inflight),
                );
                &&& record_views(records@) == shown
                &&& final(self).line() == (EgressLineState {
                    cell: EgressCellState {
                        inflight: old(self).line().cell.inflight.showing(shown),
                        ..old(self).line().cell
                    },
                    ..old(self).line()
                })
                &&& final(ctx).ledger() == old(ctx).ledger().settled(
                    old(self).line().cell.inflight.slot,
                )
            }),
    {
        self.shell.inflight(ctx)
    }

    /// The slot of the `inflight` reader.
    pub fn inflight_slot(&self) -> (slot: SlotId)
        ensures
            slot == self.line().cell.inflight.slot,
    {
        self.shell.inflight_slot()
    }

    /// Reads the acknowledgement watermark.
    pub fn acked_through<G: ReactiveGraph>(&mut self, ctx: &mut G) -> (through: Option<u64>)
        requires
            old(ctx).wf(),
            old(self).wf(),
            old(self).line().on(old(ctx).ledger()),
        ensures
            final(ctx).wf(),
            final(self).wf(),
            final(self).line().on(final(ctx).ledger()),
            ({
                let shown = old(self).line().cell.acked_through.shows(
                    old(ctx).ledger(),
                    old(self).line().cell.core.acked_through,
                );
                &&& through == shown
                &&& final(self).line() == (EgressLineState {
                    cell: EgressCellState {
                        acked_through: old(self).line().cell.acked_through.showing(shown),
                        ..old(self).line().cell
                    },
                    ..old(self).line()
                })
                &&& final(ctx).ledger() == old(ctx).ledger().settled(
                    old(self).line().cell.acked_through.slot,
                )
            }),
    {
        self.shell.acked_through(ctx)
    }

    /// The slot of the `acked_through` reader.
    pub fn acked_through_slot(&self) -> (slot: SlotId)
        ensures
            slot == self.line().cell.acked_through.slot,
    {
        self.shell.acked_through_slot()
    }

    /// Reads the outstanding retry decision.
    pub fn retry<G: ReactiveGraph>(&mut self, ctx: &mut G) -> (retry: Option<EgressRetry>)
        requires
            old(ctx).wf(),
            old(self).wf(),
            old(self).line().on(old(ctx).ledger()),
        ensures
            final(ctx).wf(),
            final(self).wf(),
            final(self).line().on(final(ctx).ledger()),
            ({
                let shown = old(self).line().cell.retry.shows(
                    old(ctx).ledger(),
                    old(self).line().cell.core.retry,
                );
                &&& retry == shown
                &&& final(self).line() == (EgressLineState {
                    cell: EgressCellState {
                        retry: old(self).line().cell.retry.showing(shown),
                        ..old(self).line().cell
                    },
                    ..old(self).line()
                })
                &&& final(ctx).ledger() == old(ctx).ledger().settled(
                    old(self).line().cell.retry.slot,
                )
            }),
    {
        self.shell.retry(ctx)
    }

    /// The slot of the `retry` reader.
    pub fn retry_slot(&self) -> (slot: SlotId)
        ensures
            slot == self.line().cell.retry.slot,
    {
        self.shell.retry_slot()
    }

    /// Attaches one transport at the current producer generation, and sends what is
    /// pending through it.
    ///
    /// A reconnect does not move the captured generation: the old attachment becomes inert
    /// at the fence, and callers attach a replacement for the new incarnation.
    pub fn attach_transport<G: ReactiveGraph>(
        &mut self,
        ctx: &mut G,
        transport: Tr,
    ) -> (attachment: EgressAttachment)
        requires
            old(ctx).wf(),
            old(self).wf(),
            old(self).line().on(old(ctx).ledger()),
        ensures
            final(ctx).wf(),
            final(self).wf(),
            final(self).line().on(final(ctx).ledger()),
            attachment.generation == old(self).line().cell.core.generation,
            attachment.effect.id().index == old(ctx).ledger().slots.len(),
            old(self).line().attached(attachment, transport.attempts()).settles(
                old(ctx).ledger().allocated(old(self).line().cell.driving()),
                final(self).line(),
                final(ctx).ledger(),
            ),
    {
        let ghost start = self.line();
        let ghost log = transport.attempts();
        let attachment = self.shell.open_attachment(ctx);
        self.attachments.push(attachment);
        self.transports.push(transport);
        proof {
            assert(self.line().logs =~= start.logs.push(log));
            assert(self.line() =~= start.attached(attachment, log));
        }
        self.run_due(ctx);
        attachment
    }

    /// The transport of an attachment, counted in the order of attachment.
    pub fn transport(&self, index: usize) -> (transport: &Tr)
        requires
            self.wf(),
            index < self.line().attachments.len(),
        ensures
            transport.attempts() == self.line().logs[index as int],
    {
        &self.transports[index]
    }

    /// Runs every transport effect that is due, until none is.
    pub fn run_due<G: ReactiveGraph>(&mut self, ctx: &mut G)
        requires
            old(ctx).wf(),
            old(self).wf(),
            old(self).line().on(old(ctx).ledger()),
        ensures
            final(ctx).wf(),
            final(self).wf(),
            final(self).line().on(final(ctx).ledger()),
            old(self).line().settles(old(ctx).ledger(), final(self).line(), final(ctx).ledger()),
    {
        let ghost start = self.line();
        let ghost first = ctx.ledger();
        let ghost mut runs: Seq<EgressRun<T::V>> = Seq::empty();
        let mut index: usize = 0;
        while index < self.attachments.len()
            invariant
                ctx.wf(),
                self.wf(),
                self.line().on(ctx.ledger()),
                start.may_follow(first, runs),
                start.after_runs(first, runs) == (self.line(), ctx.ledger()),
                index <= self.attachments@.len(),
                forall|i: int|
                    0 <= i < index ==> ctx.ledger().clean(
                        (#[trigger] self.attachments@[i]).effect.id(),
                    ),
            decreases
                    self.line().cell.core.pending.len(),
                    due(ctx.ledger(), self.attachments@),
                    self.attachments@.len() - index,
        {
            let attachment = self.attachments[index];
            let ghost before = self.line();
            let ghost ledger = ctx.ledger();
            let ghost transports = self.transports@;
            proof {
                assert(self.line().attachments[index as int] == attachment);
            }
            let ran = self.shell.drive(ctx, attachment, &mut self.transports[index]);
            if ran {
                proof {
                    let made = self.transports@[index as int].attempts().skip(
                        transports[index as int].attempts().len() as int,
                    );
                    let run = EgressRun { at: index as int, made };
                    assert(before.may_run(ledger, run));
                    assert(self.line().logs =~= before.logs.update(
                        index as int,
                        before.logs[index as int] + made,
                    ));
                    assert(before.after_run(ledger, run) == (self.line(), ctx.ledger()));
                    before.a_run_leads_towards_quiet(ledger, run);
                    before.stays_on(ledger, ctx.ledger());
                    let longer = runs.push(run);
                    assert(longer.drop_last() =~= runs);
                    assert(start.may_follow(first, longer));
                    runs = longer;
                }
                index = 0;
            } else {
                proof {
                    assert(self.line().logs =~= before.logs);
                }
                index = index + 1;
            }
        }
    }
}

} // verus!
