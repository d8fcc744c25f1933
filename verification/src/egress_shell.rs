//! The reactive shell of the egress authority: four memoized projections on one
//! context, and the attachment that drives a transport.
//!
//! Transport I/O lives in exactly one effect per attachment. The effect claims what is
//! pending and hands it to the transport; delivery is proven later by an
//! acknowledgement.

use vstd::prelude::*;

use crate::egress_core::{
    EgressAck, EgressChange, EgressClaim, EgressConfigError, EgressCore, EgressEnvelope,
    EgressFailure, EgressPolicy, EgressReconnect, EgressRetry, EgressRetryAction, EgressState,
    by_sequence, record_views,
};
use crate::graph::{Ledger, SlotId, positions_empty, push_root, with_root};
use crate::reactive::{Effect, Listing, Memo, MemoState, ReactiveGraph};
use crate::value::Datum;

verus! {

/// The only transport seam that egress owns. Durability and framing remain separate
/// adapters around the envelope.
pub trait EgressTransport<T: View> {
    /// The send attempts so far and what the transport answered, oldest first.
    open spec fn attempts(&self) -> Seq<(EgressEnvelope<T::V>, bool)> {
        arbitrary()
    }

    /// `true` means that the transport accepted the send attempt. Domain delivery is
    /// proven later by an acknowledgement.
    fn send(&mut self, envelope: &EgressEnvelope<T>) -> (accepted: bool)
        ensures
            final(self).attempts() == old(self).attempts().push((envelope@, accepted)),
    ;
}

/// An egress cell and its readers, over payload views.
#[verifier::ext_equal]
pub struct EgressCellState<P> {
    /// Delivery authority.
    pub core: EgressState<P>,
    /// Records to send.
    pub pending: MemoState<Seq<EgressEnvelope<P>>>,
    /// Unacknowledged records.
    pub inflight: MemoState<Seq<EgressEnvelope<P>>>,
    /// The acknowledgement watermark.
    pub acked_through: MemoState<Option<u64>>,
    /// The outstanding retry decision.
    pub retry: MemoState<Option<EgressRetry>>,
}

impl<P> EgressCellState<P> {
    /// A cell with nothing to send, its readers on four consecutive slots.
    pub open spec fn initial(generation: u64, policy: EgressPolicy, first: int) -> Self {
        EgressCellState {
            core: EgressState::initial(generation, policy),
            pending: MemoState::at(first),
            inflight: MemoState::at(first + 1),
            acked_through: MemoState::at(first + 2),
            retry: MemoState::at(first + 3),
        }
    }

    /// The four readers stand on consecutive slots that depend on nothing.
    pub open spec fn on(self, ledger: Ledger) -> bool {
        &&& self.inflight.slot.index == self.pending.slot.index + 1
        &&& self.acked_through.slot.index == self.pending.slot.index + 2
        &&& self.retry.slot.index == self.pending.slot.index + 3
        &&& ledger.leaf(self.pending.slot)
        &&& ledger.leaf(self.inflight.slot)
        &&& ledger.leaf(self.acked_through.slot)
        &&& ledger.leaf(self.retry.slot)
    }

    /// A cell stays on a ledger that only grows.
    pub proof fn stays_on(self, ledger: Ledger, later: Ledger)
        requires
            self.on(ledger),
            later.extends(ledger),
        ensures
            self.on(later),
    {
    }

    /// Whether every reader stands on the slot of another cell's.
    pub open spec fn seated_as(self, other: Self) -> bool {
        &&& self.pending.slot == other.pending.slot
        &&& self.inflight.slot == other.inflight.slot
        &&& self.acked_through.slot == other.acked_through.slot
        &&& self.retry.slot == other.retry.slot
    }

    /// With another authority behind the same readers.
    pub open spec fn over(self, core: EgressState<P>) -> Self {
        EgressCellState { core, ..self }
    }

    /// Every slot that a change marks dirty.
    pub open spec fn roots(self, change: EgressChange) -> Set<int> {
        with_root(
            with_root(
                with_root(
                    with_root(Set::empty(), change.pending, self.pending.slot),
                    change.inflight,
                    self.inflight.slot,
                ),
                change.acked_through,
                self.acked_through.slot,
            ),
            change.retry,
            self.retry.slot,
        )
    }

    /// The slots that a transport effect follows.
    pub open spec fn driving(self) -> Seq<int> {
        seq![self.pending.slot.index as int, self.inflight.slot.index as int]
    }

    /// A claim, and the walk that it costs.
    pub open spec fn claimed(self, ledger: Ledger, generation: u64) -> (
        Self,
        Ledger,
        EgressClaim<P>,
    ) {
        let (core, change, claim) = self.core.claimed(generation);
        (self.over(core), ledger.cleared(self.roots(change)), claim)
    }

    /// A failure report, and the walk that it costs.
    pub open spec fn failing(self, ledger: Ledger, generation: u64, sequence: u64) -> (
        Self,
        Ledger,
        EgressFailure,
    ) {
        let (core, change, failure) = self.core.failing(generation, sequence);
        (self.over(core), ledger.cleared(self.roots(change)), failure)
    }

    /// Whether some attempts are what an attachment makes, one after the other: each
    /// offers what it just claimed, and only the last may be refused.
    pub open spec fn makes(
        self,
        ledger: Ledger,
        generation: u64,
        attempts: Seq<(EgressEnvelope<P>, bool)>,
    ) -> bool
        decreases attempts.len(),
    {
        attempts.len() > 0 ==> {
            let earlier = attempts.drop_last();
            let (cell, here) = self.sent(ledger, generation, earlier);
            &&& self.makes(ledger, generation, earlier)
            &&& earlier.len() > 0 ==> earlier.last().1
            &&& cell.claimed(here, generation).2 == EgressClaim::Claimed(attempts.last().0)
        }
    }

    /// What some attempts leave: every offered record is claimed, and one that was
    /// refused has failed.
    pub open spec fn sent(
        self,
        ledger: Ledger,
        generation: u64,
        attempts: Seq<(EgressEnvelope<P>, bool)>,
    ) -> (Self, Ledger)
        decreases attempts.len(),
    {
        if attempts.len() == 0 {
            (self, ledger)
        } else {
            let (cell, here) = self.sent(ledger, generation, attempts.drop_last());
            let (claimed, walked, _) = cell.claimed(here, generation);
            if attempts.last().1 {
                (claimed, walked)
            } else {
                let (failed, last, _) = claimed.failing(
                    walked,
                    generation,
                    attempts.last().0.sequence,
                );
                (failed, last)
            }
        }
    }

    /// What one run of an attachment does before it sends: it reads both projections.
    pub open spec fn looked(self, ledger: Ledger) -> (Self, Ledger, Seq<EgressEnvelope<P>>) {
        let inflight = self.inflight.shows(ledger, by_sequence(self.core.inflight));
        let settled = ledger.settled(self.inflight.slot);
        let pending = self.pending.shows(settled, self.core.pending);
        (
            EgressCellState {
                inflight: self.inflight.showing(inflight),
                pending: self.pending.showing(pending),
                ..self
            },
            settled.settled(self.pending.slot),
            pending,
        )
    }

    /// What one run of an attachment that captured `generation` leaves, given the attempts
    /// it made.
    pub open spec fn ran(
        self,
        ledger: Ledger,
        generation: u64,
        attempts: Seq<(EgressEnvelope<P>, bool)>,
    ) -> (Self, Ledger) {
        let (seen, here, pending) = self.looked(ledger);
        if pending.len() == 0 {
            (seen, here)
        } else {
            seen.sent(here, generation, attempts)
        }
    }

    /// One run of an attachment that captured `generation`, given the attempts it
    /// made: nothing where the pending projection shows nothing; otherwise it sends
    /// until a claim gives nothing or the transport refuses.
    pub open spec fn runs(
        self,
        ledger: Ledger,
        generation: u64,
        attempts: Seq<(EgressEnvelope<P>, bool)>,
        after: (Self, Ledger),
    ) -> bool {
        let (seen, here, pending) = self.looked(ledger);
        &&& after == self.ran(ledger, generation, attempts)
        &&& if pending.len() == 0 {
            attempts.len() == 0
        } else {
            &&& seen.makes(here, generation, attempts)
            &&& (attempts.len() > 0 && !attempts.last().1) || !(after.0.claimed(
                after.1,
                generation,
            ).2 is Claimed)
        }
    }
}

/// One transport effect at the producer generation it captured.
///
/// A reconnect does not move the captured generation. The old attachment becomes inert
/// at the core's fence; callers attach a replacement for the new incarnation.
#[derive(Debug, Clone, Copy, PartialEq, Eq, Structural)]
pub struct EgressAttachment {
    /// The generation that was captured.
    pub generation: u64,
    /// The effect that is due whenever the pending or in-flight projection moved.
    pub effect: Effect,
}

/// An egress authority with its readers, on any context.
pub struct EgressShell<T> {
    core: EgressCore<T>,
    pending: Memo<Listing<EgressEnvelope<T>>>,
    inflight: Memo<Listing<EgressEnvelope<T>>>,
    acked_through: Memo<Option<u64>>,
    retry: Memo<Option<EgressRetry>>,
}

impl<T: Datum> EgressShell<T> {
    /// The cell, over payload views.
    pub closed spec fn state(&self) -> EgressCellState<T::V> {
        EgressCellState {
            core: self.core@,
            pending: self.pending@,
            inflight: self.inflight@,
            acked_through: self.acked_through@,
            retry: self.retry@,
        }
    }

    /// The cell is one that the operations can reach.
    pub closed spec fn wf(&self) -> bool {
        self.core.wf()
    }

    /// What well-formedness says to a caller.
    pub proof fn wf_facts(&self)
        requires
            self.wf(),
        ensures
            self.state().core.wf(),
    {
        self.core.wf_facts();
    }

    /// Builds a cell over `policy`.
    pub fn new<G: ReactiveGraph>(ctx: &mut G, generation: u64, policy: EgressPolicy) -> (built:
        Result<Self, EgressConfigError>)
        requires
            old(ctx).wf(),
        ensures
            final(ctx).wf(),
            built is Ok <==> EgressState::<T::V>::accepts(policy),
            built matches Ok(cell) ==> {
                &&& cell.wf()
                &&& cell.state() == EgressCellState::<T::V>::initial(
                    generation,
                    policy,
                    old(ctx).ledger().slots.len() as int,
                )
                &&& cell.state().on(final(ctx).ledger())
                &&& final(ctx).ledger() == old(ctx).ledger().grown(4)
            },
            built matches Err(error) ==> final(ctx).ledger() == old(ctx).ledger() && error
                == if policy.inflight_limit == 0 {
                EgressConfigError::ZeroInflightLimit
            } else if policy.retry_base == 0 {
                EgressConfigError::ZeroRetryBase
            } else {
                EgressConfigError::RetryCeilingBelowBase
            },
    {
        let core = match EgressCore::new(generation, policy) {
            Ok(core) => core,
            Err(error) => {
                return Err(error);
            },
        };
        let ghost first = ctx.ledger().slots.len() as int;
        proof {
            reveal_with_fuel(Ledger::grown, 5);
            assert(Seq::<SlotId>::empty().map_values(|slot: SlotId| slot.index as int)
                =~= Seq::<int>::empty());
        }
        let cell = EgressShell {
            core,
            pending: Memo::new(ctx, Vec::new()),
            inflight: Memo::new(ctx, Vec::new()),
            acked_through: Memo::new(ctx, Vec::new()),
            retry: Memo::new(ctx, Vec::new()),
        };
        proof {
            assert(cell.state() =~= EgressCellState::<T::V>::initial(generation, policy, first));
        }
        Ok(cell)
    }

    /// Clears exactly the readers that a change marks, in one walk.
    fn apply<G: ReactiveGraph>(&mut self, ctx: &mut G, change: EgressChange)
        requires
            old(ctx).wf(),
            old(self).wf(),
            old(self).state().on(old(ctx).ledger()),
        ensures
            final(ctx).wf(),
            final(self).wf(),
            final(self).state().on(final(ctx).ledger()),
            final(self).state() == old(self).state(),
            final(ctx).ledger() == old(ctx).ledger().cleared(old(self).state().roots(change)),
    {
        let mut roots: Vec<SlotId> = Vec::new();
        proof {
            positions_empty(roots@);
        }
        push_root(&mut roots, change.pending, self.pending.id());
        push_root(&mut roots, change.inflight, self.inflight.id());
        push_root(&mut roots, change.acked_through, self.acked_through.id());
        push_root(&mut roots, change.retry, self.retry.id());
        let ghost ledger = ctx.ledger();
        ctx.clear_slots(&roots);
        proof {
            self.state().stays_on(ledger, ctx.ledger());
        }
    }

    /// The generation fence.
    pub fn generation(&self) -> (generation: u64)
        ensures
            generation == self.state().core.generation,
    {
        self.core.generation()
    }

    /// The next sequence to assign.
    pub fn next_sequence(&self) -> (sequence: u64)
        ensures
            sequence == self.state().core.next_sequence,
    {
        self.core.next_sequence()
    }

    /// Assigns the next sequence and places the value in the pending projection.
    pub fn enqueue<G: ReactiveGraph>(&mut self, ctx: &mut G, payload: T) -> (sequence: u64)
        requires
            old(ctx).wf(),
            old(self).wf(),
            old(self).state().on(old(ctx).ledger()),
        ensures
            final(ctx).wf(),
            final(self).wf(),
            final(self).state().on(final(ctx).ledger()),
            ({
                let (core, change, outcome) = old(self).state().core.enqueued(payload@);
                &&& final(self).state() == old(self).state().over(core)
                &&& final(ctx).ledger() == old(ctx).ledger().cleared(
                    old(self).state().roots(change),
                )
                &&& sequence == outcome
            }),
    {
        let (change, sequence) = self.core.enqueue(payload);
        proof {
            assert(self.state() =~= old(self).state().over(self.core@));
        }
        self.apply(ctx, change);
        sequence
    }

    /// Moves one pending value into the unacknowledged window, for the attachment that
    /// captured `generation`.
    pub fn claim<G: ReactiveGraph>(
        &mut self,
        ctx: &mut G,
        generation: u64,
    ) -> (claim: EgressClaim<T>)
        requires
            old(ctx).wf(),
            old(self).wf(),
            old(self).state().on(old(ctx).ledger()),
        ensures
            final(ctx).wf(),
            final(self).wf(),
            final(self).state().on(final(ctx).ledger()),
            ({
                let (core, change, outcome) = old(self).state().core.claimed(generation);
                &&& final(self).state() == old(self).state().over(core)
                &&& final(ctx).ledger() == old(ctx).ledger().cleared(
                    old(self).state().roots(change),
                )
                &&& claim@ == outcome
            }),
    {
        let (change, claim) = self.core.claim(generation);
        proof {
            assert(self.state() =~= old(self).state().over(self.core@));
        }
        self.apply(ctx, change);
        claim
    }

    /// Moves the acknowledgement watermark up.
    pub fn ack<G: ReactiveGraph>(
        &mut self,
        ctx: &mut G,
        generation: u64,
        through: u64,
    ) -> (ack: EgressAck)
        requires
            old(ctx).wf(),
            old(self).wf(),
            old(self).state().on(old(ctx).ledger()),
        ensures
            final(ctx).wf(),
            final(self).wf(),
            final(self).state().on(final(ctx).ledger()),
            ({
                let (core, change, outcome) = old(self).state().core.acked(generation, through);
                &&& final(self).state() == old(self).state().over(core)
                &&& final(ctx).ledger() == old(ctx).ledger().cleared(
                    old(self).state().roots(change),
                )
                &&& ack == outcome
            }),
    {
        let (change, ack) = self.core.ack(generation, through);
        proof {
            assert(self.state() =~= old(self).state().over(self.core@));
        }
        self.apply(ctx, change);
        ack
    }

    /// Reports a failed send.
    pub fn fail<G: ReactiveGraph>(
        &mut self,
        ctx: &mut G,
        generation: u64,
        sequence: u64,
    ) -> (failure: EgressFailure)
        requires
            old(ctx).wf(),
            old(self).wf(),
            old(self).state().on(old(ctx).ledger()),
        ensures
            final(ctx).wf(),
            final(self).wf(),
            final(self).state().on(final(ctx).ledger()),
            ({
                let (core, change, outcome) = old(self).state().core.failing(generation, sequence);
                &&& final(self).state() == old(self).state().over(core)
                &&& final(ctx).ledger() == old(ctx).ledger().cleared(
                    old(self).state().roots(change),
                )
                &&& failure == outcome
            }),
    {
        let (change, failure) = self.core.fail(generation, sequence);
        proof {
            assert(self.state() =~= old(self).state().over(self.core@));
        }
        self.apply(ctx, change);
        failure
    }

    /// Releases a parked record.
    pub fn retry_now<G: ReactiveGraph>(
        &mut self,
        ctx: &mut G,
        generation: u64,
        sequence: u64,
    ) -> (action: EgressRetryAction)
        requires
            old(ctx).wf(),
            old(self).wf(),
            old(self).state().on(old(ctx).ledger()),
        ensures
            final(ctx).wf(),
            final(self).wf(),
            final(self).state().on(final(ctx).ledger()),
            ({
                let (core, change, outcome) = old(self).state().core.released(generation, sequence);
                &&& final(self).state() == old(self).state().over(core)
                &&& final(ctx).ledger() == old(ctx).ledger().cleared(
                    old(self).state().roots(change),
                )
                &&& action == outcome
            }),
    {
        let (change, action) = self.core.retry_now(generation, sequence);
        proof {
            assert(self.state() =~= old(self).state().over(self.core@));
        }
        self.apply(ctx, change);
        action
    }

    /// Moves the generation fence; every unacknowledged record is pending again.
    pub fn reconnect<G: ReactiveGraph>(
        &mut self,
        ctx: &mut G,
        generation: u64,
    ) -> (outcome: EgressReconnect)
        requires
            old(ctx).wf(),
            old(self).wf(),
            old(self).state().on(old(ctx).ledger()),
            old(self).state().core.inflight.len() + old(self).state().core.failed.len() <= usize::MAX,
        ensures
            final(ctx).wf(),
            final(self).wf(),
            final(self).state().on(final(ctx).ledger()),
            ({
                let (core, change, expected) = old(self).state().core.reconnected(generation);
                &&& final(self).state() == old(self).state().over(core)
                &&& final(ctx).ledger() == old(ctx).ledger().cleared(
                    old(self).state().roots(change),
                )
                &&& outcome == expected
            }),
    {
        let (change, outcome) = self.core.reconnect(generation);
        proof {
            assert(self.state() =~= old(self).state().over(self.core@));
        }
        self.apply(ctx, change);
        outcome
    }

    /// Reads the records to send, in order.
    pub fn pending<G: ReactiveGraph>(&mut self, ctx: &mut G) -> (records: Vec<EgressEnvelope<T>>)
        requires
            old(ctx).wf(),
            old(self).wf(),
            old(self).state().on(old(ctx).ledger()),
        ensures
            final(ctx).wf(),
            final(self).wf(),
            final(self).state().on(final(ctx).ledger()),
            ({
                let shown = old(self).state().pending.shows(
                    old(ctx).ledger(),
                    old(self).state().core.pending,
                );
                &&& record_views(records@) == shown
                &&& final(self).state() == (EgressCellState {
                    pending: old(self).state().pending.showing(shown),
                    ..old(self).state()
                })
                &&& final(ctx).ledger() == old(ctx).ledger().settled(old(self).state().pending.slot)
            }),
    {
        let ghost start = self.state();
        let ghost ledger = ctx.ledger();
        match self.pending.cached(ctx) {
            Some(shown) => {
                proof {
                    assert(shown@ == start.pending.shows(ledger, start.core.pending));
                    assert(start =~= EgressCellState {
                        pending: start.pending.showing(shown@),
                        ..start
                    });
                }
                shown.items
            },
            None => {
                let derived = Listing { items: self.core.pending() };
                let shown = self.pending.store(ctx, derived);
                proof {
                    assert(self.state() =~= EgressCellState {
                        pending: start.pending.showing(shown@),
                        ..start
                    });
                    start.stays_on(ledger, ledger.settled(start.pending.slot));
                }
                shown.items
            },
        }
    }

    /// The slot of the `pending` reader.
    pub fn pending_slot(&self) -> (slot: SlotId)
        ensures
            slot == self.state().pending.slot,
    {
        self.pending.id()
    }

    /// Reads the unacknowledged records, in ascending sequence.
    pub fn inflight<G: ReactiveGraph>(&mut self, ctx: &mut G) -> (records: Vec<EgressEnvelope<T>>)
        requires
            old(ctx).wf(),
            old(self).wf(),
            old(self).state().on(old(ctx).ledger()),
        ensures
            final(ctx).wf(),
            final(self).wf(),
            final(self).state().on(final(ctx).ledger()),
            ({
                let shown = old(self).state().inflight.shows(
                    old(ctx).ledger(),
                    by_sequence(old(self).state().core.inflight),
                );
                &&& record_views(records@) == shown
                &&& final(self).state() == (EgressCellState {
                    inflight: old(self).state().inflight.showing(shown),
                    ..old(self).state()
                })
                &&& final(ctx).ledger() == old(ctx).ledger().settled(
                    old(self).state().inflight.slot,
                )
            }),
    {
        let ghost start = self.state();
        let ghost ledger = ctx.ledger();
        match self.inflight.cached(ctx) {
            Some(shown) => {
                proof {
                    assert(shown@ == start.inflight.shows(ledger, by_sequence(start.core.inflight)));
                    assert(start =~= EgressCellState {
                        inflight: start.inflight.showing(shown@),
                        ..start
                    });
                }
                shown.items
            },
            None => {
                let derived = Listing { items: self.core.inflight() };
                let shown = self.inflight.store(ctx, derived);
                proof {
                    assert(self.state() =~= EgressCellState {
                        inflight: start.inflight.showing(shown@),
                        ..start
                    });
                    start.stays_on(ledger, ledger.settled(start.inflight.slot));
                }
                shown.items
            },
        }
    }

    /// The slot of the `inflight` reader.
    pub fn inflight_slot(&self) -> (slot: SlotId)
        ensures
            slot == self.state().inflight.slot,
    {
        self.inflight.id()
    }

    /// Reads the acknowledgement watermark.
    pub fn acked_through<G: ReactiveGraph>(&mut self, ctx: &mut G) -> (through: Option<u64>)
        requires
            old(ctx).wf(),
            old(self).wf(),
            old(self).state().on(old(ctx).ledger()),
        ensures
            final(ctx).wf(),
            final(self).wf(),
            final(self).state().on(final(ctx).ledger()),
            ({
                let shown = old(self).state().acked_through.shows(
                    old(ctx).ledger(),
                    old(self).state().core.acked_through,
                );
                &&& through == shown
                &&& final(self).state() == (EgressCellState {
                    acked_through: old(self).state().acked_through.showing(shown),
                    ..old(self).state()
                })
                &&& final(ctx).ledger() == old(ctx).ledger().settled(
                    old(self).state().acked_through.slot,
                )
            }),
    {
        let ghost start = self.state();
        let ghost ledger = ctx.ledger();
        match self.acked_through.cached(ctx) {
            Some(shown) => {
                proof {
                    assert(shown@ == start.acked_through.shows(ledger, start.core.acked_through));
                    assert(start =~= EgressCellState {
                        acked_through: start.acked_through.showing(shown@),
                        ..start
                    });
                }
                shown
            },
            None => {
                let derived = self.core.acked_through();
                let shown = self.acked_through.store(ctx, derived);
                proof {
                    assert(self.state() =~= EgressCellState {
                        acked_through: start.acked_through.showing(shown@),
                        ..start
                    });
                    start.stays_on(ledger, ledger.settled(start.acked_through.slot));
                }
                shown
            },
        }
    }

    /// The slot of the `acked_through` reader.
    pub fn acked_through_slot(&self) -> (slot: SlotId)
        ensures
            slot == self.state().acked_through.slot,
    {
        self.acked_through.id()
    }

    /// Reads the outstanding retry decision.
    pub fn retry<G: ReactiveGraph>(&mut self, ctx: &mut G) -> (retry: Option<EgressRetry>)
        requires
            old(ctx).wf(),
            old(self).wf(),
            old(self).state().on(old(ctx).ledger()),
        ensures
            final(ctx).wf(),
            final(self).wf(),
            final(self).state().on(final(ctx).ledger()),
            ({
                let shown = old(self).state().retry.shows(
                    old(ctx).ledger(),
                    old(self).state().core.retry,
                );
                &&& retry == shown
                &&& final(self).state() == (EgressCellState {
                    retry: old(self).state().retry.showing(shown),
                    ..old(self).state()
                })
                &&& final(ctx).ledger() == old(ctx).ledger().settled(old(self).state().retry.slot)
            }),
    {
        let ghost start = self.state();
        let ghost ledger = ctx.ledger();
        match self.retry.cached(ctx) {
            Some(shown) => {
                proof {
                    assert(shown@ == start.retry.shows(ledger, start.core.retry));
                    assert(start =~= EgressCellState {
                        retry: start.retry.showing(shown@),
                        ..start
                    });
                }
                shown
            },
            None => {
                let derived = self.core.retry();
                let shown = self.retry.store(ctx, derived);
                proof {
                    assert(self.state() =~= EgressCellState {
                        retry: start.retry.showing(shown@),
                        ..start
                    });
                    start.stays_on(ledger, ledger.settled(start.retry.slot));
                }
                shown
            },
        }
    }

    /// The slot of the `retry` reader.
    pub fn retry_slot(&self) -> (slot: SlotId)
        ensures
            slot == self.state().retry.slot,
    {
        self.retry.id()
    }

    /// One more transport effect at the current producer generation, due at once.
    pub fn open_attachment<G: ReactiveGraph>(&mut self, ctx: &mut G) -> (attachment:
        EgressAttachment)
        requires
            old(ctx).wf(),
            old(self).wf(),
            old(self).state().on(old(ctx).ledger()),
        ensures
            final(ctx).wf(),
            final(self).wf(),
            final(self).state() == old(self).state(),
            final(self).state().on(final(ctx).ledger()),
            attachment.generation == old(self).state().core.generation,
            attachment.effect.id().index == old(ctx).ledger().slots.len(),
            final(ctx).ledger() == old(ctx).ledger().allocated(old(self).state().driving()),
    {
        let ghost ledger = ctx.ledger();
        let mut deps: Vec<SlotId> = Vec::new();
        deps.push(self.pending.id());
        deps.push(self.inflight.id());
        proof {
            assert(deps@.map_values(|slot: SlotId| slot.index as int) =~= self.state().driving());
        }
        let attachment = EgressAttachment {
            generation: self.core.generation(),
            effect: Effect::new(ctx, deps),
        };
        proof {
            self.state().stays_on(ledger, ctx.ledger());
        }
        attachment
    }

    /// Runs an attachment's effect where it is due. Returns whether it ran.
    ///
    /// `inflight` is a dependency although the core remains the authority: an
    /// acknowledgement reopens the send window and makes the same effect due.
    pub fn drive<G: ReactiveGraph, Tr: EgressTransport<T>>(
        &mut self,
        ctx: &mut G,
        attachment: EgressAttachment,
        transport: &mut Tr,
    ) -> (ran: bool)
        requires
            old(ctx).wf(),
            old(self).wf(),
            old(self).state().on(old(ctx).ledger()),
            old(ctx).ledger().has(attachment.effect.id()),
        ensures
            final(ctx).wf(),
            final(self).wf(),
            final(self).state().on(final(ctx).ledger()),
            final(ctx).ledger().slots.len() == old(ctx).ledger().slots.len(),
            final(ctx).ledger().extends(old(ctx).ledger()),
            ran == !old(ctx).ledger().clean(attachment.effect.id()),
            !ran ==> final(self).state() == old(self).state() && final(ctx).ledger()
                == old(ctx).ledger() && final(transport).attempts() == old(transport).attempts(),
            ran ==> {
                let made = final(transport).attempts().skip(
                    old(transport).attempts().len() as int,
                );
                &&& final(transport).attempts() == old(transport).attempts() + made
                &&& old(self).state().runs(
                    old(ctx).ledger().settled(attachment.effect.id()),
                    attachment.generation,
                    made,
                    (final(self).state(), final(ctx).ledger()),
                )
            },
    {
        let ghost start = ctx.ledger();
        let due = attachment.effect.take_due(ctx);
        proof {
            self.state().stays_on(start, ctx.ledger());
            if !due {
                assert(ctx.ledger().slots =~= start.slots);
                assert(ctx.ledger() =~= start);
            }
        }
        if !due {
            return false;
        }
        let _inflight = self.inflight(ctx);
        let pending = self.pending(ctx);
        let ghost seen = self.state();
        let ghost here = ctx.ledger();
        let generation = attachment.generation;
        let ghost before = transport.attempts();
        let ghost mut made: Seq<(EgressEnvelope<T::V>, bool)> = Seq::empty();
        proof {
            let (expected, settled, shown) = old(self).state().looked(
                start.settled(attachment.effect.id()),
            );
            assert(seen =~= expected);
            assert(here == settled);
            assert(record_views(pending@).len() == pending@.len());
            assert(before.skip(before.len() as int) =~= Seq::empty());
            assert(before =~= before + Seq::empty());
        }
        if pending.is_empty() {
            return true;
        }
        let mut sending = true;
        while sending
            invariant
                ctx.wf(),
                self.wf(),
                self.state().on(ctx.ledger()),
                ctx.ledger().slots.len() == here.slots.len(),
                ctx.ledger().extends(start),
                generation == attachment.generation,
                transport.attempts() == before + made,
                seen.makes(here, generation, made),
                (self.state(), ctx.ledger()) == seen.sent(here, generation, made),
                sending ==> made.len() > 0 ==> made.last().1,
                !sending ==> (made.len() > 0 && !made.last().1) || !(self.state().claimed(
                    ctx.ledger(),
                    generation,
                ).2 is Claimed),
            decreases (if sending {
                1int
            } else {
                0int
            }), self.state().core.pending.len(),
        {
            let ghost cell = self.state();
            let ghost ledger = ctx.ledger();
            match self.claim(ctx, generation) {
                EgressClaim::Claimed(envelope) => {
                    let ghost offered = envelope@;
                    let accepted = transport.send(&envelope);
                    let ghost longer = made.push((offered, accepted));
                    proof {
                        assert(longer.drop_last() =~= made);
                        assert(cell.claimed(ledger, generation).2 == EgressClaim::Claimed(offered));
                        assert(seen.makes(here, generation, longer));
                        assert(transport.attempts() =~= before + longer);
                        made = longer;
                    }
                    if !accepted {
                        let _failure = self.fail(ctx, generation, envelope.sequence);
                        sending = false;
                    }
                },
                _ => {
                    proof {
                        assert(cell.claimed(ledger, generation).0 =~= cell);
                        assert(cell.roots(EgressChange::nothing()) == Set::<int>::empty());
                    }
                    sending = false;
                },
            }
        }
        proof {
            assert(transport.attempts().skip(before.len() as int) =~= made);
        }
        true
    }
}

} // verus!
