//! `ThreadSafeIngressCell`: the reactive ingress on a context that threads share.
//!
//! Owners put the cell and its context behind one lock. One admission can dirty a
//! scope's value, readiness, authority and retry plus a receipt channel; they fall in
//! one walk, so no reader can see the new value with the old authority.

use vstd::prelude::*;

use crate::ingress_core::option_view;
use crate::ingress_model::{admitted, countable, has_room};
use crate::ingress_shell::{
    IngressCellState, IngressShell, asks, batch_admitted, batch_fits, first_seen,
    replays_for,
};
use crate::ingress_types::{
    IngressAdmission, IngressAuthority, IngressConfigError, IngressEnvelope, IngressError,
    IngressPolicy, IngressReadiness, IngressReceipt, IngressRetry, IngressSchedule,
    IngressTransport, IngressTransportKind, ReplayRequest, ScopeView,
};
use crate::merge::MergePolicy;
use crate::reactive::{Computed, ReactiveGraph, ThreadSafeContext};
use crate::value::{Key, Datum};

verus! {

/// A keyed, lifecycle-scoped reactive ingress: one admission plane per key, with
/// readiness, authority, and retry as derives rather than calls.
pub struct ThreadSafeIngressCell<K, T, M> {
    shell: IngressShell<K, T, M>,
}

impl<K: Key, T: Datum, M: MergePolicy<T>> ThreadSafeIngressCell<K, T, M> {
    /// The cell, over key and payload views.
    pub closed spec fn state(&self) -> IngressCellState<K::V, T::V> {
        self.shell.state()
    }

    /// The cell is one that the operations can reach.
    pub closed spec fn wf(&self) -> bool {
        self.shell.wf()
    }

    /// What well-formedness says to a caller.
    pub proof fn wf_facts(&self)
        requires
            self.wf(),
        ensures
            self.state().core.wf(),
    {
        self.shell.wf_facts();
    }

    /// The plane behind the cell.
    pub(crate) fn plane(&mut self) -> (shell: &mut IngressShell<K, T, M>)
        ensures
            shell.state() == old(self).state(),
            shell.wf() == old(self).wf(),
            final(self).state() == final(shell).state(),
            final(self).wf() == final(shell).wf(),
    {
        &mut self.shell
    }

    /// Builds an ingress over `policy`, delivering as `kind`. The poll bound is kept
    /// even for an event channel, so that a later fallback has one.
    pub fn new(
        ctx: &mut ThreadSafeContext,
        policy: IngressPolicy,
        kind: IngressTransportKind,
        poll_interval: u64,
    ) -> (built: Result<Self, IngressConfigError>)
        requires
            old(ctx).wf(),
        ensures
            final(ctx).wf(),
            built matches Err(error) ==> final(ctx).ledger() == old(ctx).ledger()
                && if policy.overflow is Conflate && !M::conflates() {
                error == IngressConfigError::ConflateNotBounding
            } else {
                error == IngressConfigError::ZeroReceiptCapacity
            },
            built is Err <==> (policy.overflow is Conflate && !M::conflates())
                || policy.receipt_capacity == 0,
            built matches Ok(cell) ==> {
                let first = old(ctx).ledger().slots.len() as int;
                &&& cell.wf()
                &&& cell.state() == IngressCellState::<K::V, T::V>::initial(
                    policy,
                    kind,
                    poll_interval,
                    first,
                )
                &&& cell.state().on(final(ctx).ledger())
                &&& final(ctx).ledger() == old(ctx).ledger().grown(5).allocated(
                    seq![first + 3, first + 4],
                )
            },
    {
        match IngressShell::new(ctx, policy, kind, poll_interval) {
            Ok(shell) => Ok(ThreadSafeIngressCell { shell }),
            Err(error) => Err(error),
        }
    }

    /// Opens (or reopens) a keyed scope at `generation`.
    pub fn open(&mut self, ctx: &mut ThreadSafeContext, key: K, generation: u64)
        requires
            old(ctx).wf(),
            old(self).wf(),
            old(self).state().on(old(ctx).ledger()),
        ensures
            final(ctx).wf(),
            final(self).wf(),
            final(self).state().on(final(ctx).ledger()),
            ({
                let (core, marks) = old(self).state().core.opened(key@, generation);
                (final(self).state(), final(ctx).ledger()) == old(self).state().over(core).applied(
                    old(ctx).ledger(),
                    marks,
                )
            }),
    {
        self.shell.open(ctx, key, generation);
    }

    /// Admits one decoded envelope.
    pub fn admit_envelope(
        &mut self,
        ctx: &mut ThreadSafeContext,
        envelope: IngressEnvelope<K, T>,
    ) -> (admission: IngressAdmission)
        requires
            old(ctx).wf(),
            old(self).wf(),
            old(self).state().on(old(ctx).ledger()),
            countable::<K::V, T, M>(old(self).state().core, envelope@),
            has_room(old(self).state().core, envelope.key@),
        ensures
            final(ctx).wf(),
            final(self).wf(),
            final(self).state().on(final(ctx).ledger()),
            ({
                let (core, marks, outcome) = admitted::<K::V, T, M>(
                    old(self).state().core,
                    envelope@,
                );
                &&& (final(self).state(), final(ctx).ledger()) == old(self).state().over(
                    core,
                ).applied(old(ctx).ledger(), marks)
                &&& admission == outcome
            }),
    {
        self.shell.admit_envelope(ctx, envelope)
    }

    /// Suspends a scope, keeping its watermark. Returns the replay request that a
    /// reconnect will need.
    pub fn suspend(&mut self, ctx: &mut ThreadSafeContext, key: &K) -> (request: Option<
        ReplayRequest,
    >)
        requires
            old(ctx).wf(),
            old(self).wf(),
            old(self).state().on(old(ctx).ledger()),
        ensures
            final(ctx).wf(),
            final(self).wf(),
            final(self).state().on(final(ctx).ledger()),
            ({
                let (core, marks, owed) = old(self).state().core.suspended(key@);
                &&& (final(self).state(), final(ctx).ledger()) == old(self).state().over(
                    core,
                ).applied(old(ctx).ledger(), marks)
                &&& request == owed
            }),
    {
        self.shell.suspend(ctx, key)
    }

    /// Reconnects a scope at `generation`, clearing its error streak.
    pub fn reconnect(&mut self, ctx: &mut ThreadSafeContext, key: &K, generation: u64) -> (request:
        ReplayRequest)
        requires
            old(ctx).wf(),
            old(self).wf(),
            old(self).state().on(old(ctx).ledger()),
        ensures
            final(ctx).wf(),
            final(self).wf(),
            final(self).state().on(final(ctx).ledger()),
            ({
                let (core, marks, owed) = old(self).state().core.reconnected(key@, generation);
                &&& (final(self).state(), final(ctx).ledger()) == old(self).state().over(
                    core,
                ).applied(old(ctx).ledger(), marks)
                &&& request == owed
            }),
    {
        self.shell.reconnect(ctx, key, generation)
    }

    /// Closes a scope. It admits nothing and claims no authority until reopened.
    pub fn close(&mut self, ctx: &mut ThreadSafeContext, key: &K)
        requires
            old(ctx).wf(),
            old(self).wf(),
            old(self).state().on(old(ctx).ledger()),
        ensures
            final(ctx).wf(),
            final(self).wf(),
            final(self).state().on(final(ctx).ledger()),
            ({
                let (core, marks) = old(self).state().core.closed(key@);
                (final(self).state(), final(ctx).ledger()) == old(self).state().over(core).applied(
                    old(ctx).ledger(),
                    marks,
                )
            }),
    {
        self.shell.close(ctx, key);
    }

    /// Records a transport or decode failure, deepening the scope's backoff.
    pub fn fail(&mut self, ctx: &mut ThreadSafeContext, key: &K, error: IngressError)
        requires
            old(ctx).wf(),
            old(self).wf(),
            old(self).state().on(old(ctx).ledger()),
            old(self).state().core.next_receipt_offset < u64::MAX,
        ensures
            final(ctx).wf(),
            final(self).wf(),
            final(self).state().on(final(ctx).ledger()),
            ({
                let (core, marks) = old(self).state().core.failed(key@, error);
                (final(self).state(), final(ctx).ledger()) == old(self).state().over(core).applied(
                    old(ctx).ledger(),
                    marks,
                )
            }),
    {
        self.shell.fail(ctx, key, error);
    }

    /// Advances logical time. Only scopes that crossed the freshness horizon are
    /// invalidated.
    pub fn tick(&mut self, ctx: &mut ThreadSafeContext, now: u64)
        requires
            old(ctx).wf(),
            old(self).wf(),
            old(self).state().on(old(ctx).ledger()),
        ensures
            final(ctx).wf(),
            final(self).wf(),
            final(self).state().on(final(ctx).ledger()),
            ({
                let (core, marks) = old(self).state().core.ticked(now);
                (final(self).state(), final(ctx).ledger()) == old(self).state().over(core).applied(
                    old(ctx).ledger(),
                    marks,
                )
            }),
    {
        self.shell.tick(ctx, now);
    }

    /// Drains a scope's coalesced window.
    pub fn drain(&mut self, ctx: &mut ThreadSafeContext, key: &K) -> (value: Option<T>)
        requires
            old(ctx).wf(),
            old(self).wf(),
            old(self).state().on(old(ctx).ledger()),
        ensures
            final(ctx).wf(),
            final(self).wf(),
            final(self).state().on(final(ctx).ledger()),
            ({
                let (core, marks, window) = old(self).state().core.drained(key@);
                &&& (final(self).state(), final(ctx).ledger()) == old(self).state().over(
                    core,
                ).applied(old(ctx).ledger(), marks)
                &&& option_view(value) == window
            }),
    {
        self.shell.drain(ctx, key)
    }

    /// Admits a batch in arrival order. Returns the outcomes, and the batch's keys in
    /// the order in which they first occur.
    pub fn admit_batch(
        &mut self,
        ctx: &mut ThreadSafeContext,
        batch: Vec<IngressEnvelope<K, T>>,
    ) -> (admitted: (Vec<IngressAdmission>, Vec<K>))
        requires
            old(ctx).wf(),
            old(self).wf(),
            old(self).state().on(old(ctx).ledger()),
            batch_fits::<K::V, T, M>(
                old(self).state(),
                old(ctx).ledger(),
                batch@.map_values(|envelope: IngressEnvelope<K, T>| envelope@),
            ),
        ensures
            final(ctx).wf(),
            final(self).wf(),
            final(self).state().on(final(ctx).ledger()),
            (final(self).state(), final(ctx).ledger(), admitted.0@) == batch_admitted::<K::V, T, M>(
                old(self).state(),
                old(ctx).ledger(),
                batch@.map_values(|envelope: IngressEnvelope<K, T>| envelope@),
            ),
            admitted.1@.map_values(|key: K| key@) == first_seen(
                batch@.map_values(|envelope: IngressEnvelope<K, T>| envelope.key@),
            ),
    {
        self.shell.admit_batch(ctx, batch)
    }

    /// Admits everything that `transport` has decoded, then asks it to replay any gap
    /// still open. Returns the admission outcomes in arrival order.
    ///
    /// This is the only method that touches a transport, and it makes no decision of
    /// its own: the gap it replays is the one that the plane reports.
    pub fn pump<Tr: IngressTransport<K, T>>(
        &mut self,
        ctx: &mut ThreadSafeContext,
        transport: &mut Tr,
    ) -> (outcomes: Vec<IngressAdmission>)
        requires
            old(ctx).wf(),
            old(self).wf(),
            old(self).state().on(old(ctx).ledger()),
            batch_fits::<K::V, T, M>(
                old(self).state(),
                old(ctx).ledger(),
                old(transport).decoded().map_values(
                    |envelope: IngressEnvelope<K, T>| envelope@,
                ),
            ),
        ensures
            final(ctx).wf(),
            final(self).wf(),
            final(self).state().on(final(ctx).ledger()),
            (final(self).state(), final(ctx).ledger(), outcomes@) == batch_admitted::<K::V, T, M>(
                old(self).state(),
                old(ctx).ledger(),
                old(transport).decoded().map_values(
                    |envelope: IngressEnvelope<K, T>| envelope@,
                ),
            ),
            asks(
                old(transport).asked(),
                final(transport).asked(),
                replays_for(
                    final(self).state().core,
                    first_seen(
                        old(transport).decoded().map_values(
                            |envelope: IngressEnvelope<K, T>| envelope.key@,
                        ),
                    ),
                ),
            ),
    {
        self.shell.pump(ctx, transport)
    }

    /// Reads the coalesced window awaiting drain.
    pub fn value(&mut self, ctx: &mut ThreadSafeContext, key: &K) -> (value: Option<T>)
        requires
            old(ctx).wf(),
            old(self).wf(),
            old(self).state().on(old(ctx).ledger()),
        ensures
            final(ctx).wf(),
            final(self).wf(),
            final(self).state().on(final(ctx).ledger()),
            (final(self).state(), final(ctx).ledger(), option_view(value))
                == old(self).state().value_read(old(ctx).ledger(), key@),
    {
        self.shell.value(ctx, key)
    }

    /// Reads derived readiness.
    pub fn readiness(
        &mut self,
        ctx: &mut ThreadSafeContext,
        key: &K,
    ) -> (readiness: IngressReadiness)
        requires
            old(ctx).wf(),
            old(self).wf(),
            old(self).state().on(old(ctx).ledger()),
        ensures
            final(ctx).wf(),
            final(self).wf(),
            final(self).state().on(final(ctx).ledger()),
            (final(self).state(), final(ctx).ledger(), readiness)
                == old(self).state().readiness_read(old(ctx).ledger(), key@),
    {
        self.shell.readiness(ctx, key)
    }

    /// Reads derived authority.
    pub fn authority(
        &mut self,
        ctx: &mut ThreadSafeContext,
        key: &K,
    ) -> (authority: Option<IngressAuthority>)
        requires
            old(ctx).wf(),
            old(self).wf(),
            old(self).state().on(old(ctx).ledger()),
        ensures
            final(ctx).wf(),
            final(self).wf(),
            final(self).state().on(final(ctx).ledger()),
            (final(self).state(), final(ctx).ledger(), authority)
                == old(self).state().authority_read(old(ctx).ledger(), key@),
    {
        self.shell.authority(ctx, key)
    }

    /// Reads the derived retry decision.
    pub fn retry(&mut self, ctx: &mut ThreadSafeContext, key: &K) -> (retry: Option<IngressRetry>)
        requires
            old(ctx).wf(),
            old(self).wf(),
            old(self).state().on(old(ctx).ledger()),
        ensures
            final(ctx).wf(),
            final(self).wf(),
            final(self).state().on(final(ctx).ledger()),
            (final(self).state(), final(ctx).ledger(), retry)
                == old(self).state().retry_read(old(ctx).ledger(), key@),
    {
        self.shell.retry(ctx, key)
    }

    /// Reads the accepted receipts, oldest first.
    pub fn accepted(&mut self, ctx: &mut ThreadSafeContext) -> (receipts: Vec<IngressReceipt<K>>)
        requires
            old(ctx).wf(),
            old(self).wf(),
            old(self).state().on(old(ctx).ledger()),
        ensures
            final(ctx).wf(),
            final(self).wf(),
            final(self).state().on(final(ctx).ledger()),
            ({
                let shown = old(self).state().accepted_shown(old(ctx).ledger());
                &&& receipts@.map_values(|receipt: IngressReceipt<K>| receipt@) == shown
                &&& final(self).state() == (IngressCellState {
                    accepted: old(self).state().accepted.showing(shown),
                    ..old(self).state()
                })
                &&& final(ctx).ledger() == old(ctx).ledger().settled(
                    old(self).state().accepted.slot,
                )
            }),
    {
        self.shell.accepted(ctx)
    }

    /// Reads the dropped receipts, oldest first.
    pub fn dropped(&mut self, ctx: &mut ThreadSafeContext) -> (receipts: Vec<IngressReceipt<K>>)
        requires
            old(ctx).wf(),
            old(self).wf(),
            old(self).state().on(old(ctx).ledger()),
        ensures
            final(ctx).wf(),
            final(self).wf(),
            final(self).state().on(final(ctx).ledger()),
            ({
                let shown = old(self).state().dropped_shown(old(ctx).ledger());
                &&& receipts@.map_values(|receipt: IngressReceipt<K>| receipt@) == shown
                &&& final(self).state() == (IngressCellState {
                    dropped: old(self).state().dropped.showing(shown),
                    ..old(self).state()
                })
                &&& final(ctx).ledger() == old(ctx).ledger().settled(old(self).state().dropped.slot)
            }),
    {
        self.shell.dropped(ctx)
    }

    /// Reads the error receipts, oldest first.
    pub fn errors(&mut self, ctx: &mut ThreadSafeContext) -> (receipts: Vec<IngressReceipt<K>>)
        requires
            old(ctx).wf(),
            old(self).wf(),
            old(self).state().on(old(ctx).ledger()),
        ensures
            final(ctx).wf(),
            final(self).wf(),
            final(self).state().on(final(ctx).ledger()),
            ({
                let shown = old(self).state().errors_shown(old(ctx).ledger());
                &&& receipts@.map_values(|receipt: IngressReceipt<K>| receipt@) == shown
                &&& final(self).state() == (IngressCellState {
                    errors: old(self).state().errors.showing(shown),
                    ..old(self).state()
                })
                &&& final(ctx).ledger() == old(ctx).ledger().settled(old(self).state().errors.slot)
            }),
    {
        self.shell.errors(ctx)
    }

    /// Reads the derived delivery schedule.
    pub fn schedule(&mut self, ctx: &mut ThreadSafeContext) -> (schedule: IngressSchedule)
        requires
            old(ctx).wf(),
            old(self).wf(),
            old(self).state().on(old(ctx).ledger()),
        ensures
            final(ctx).wf(),
            final(self).wf(),
            final(self).state().on(final(ctx).ledger()),
            schedule == old(self).state().schedule_shown(old(ctx).ledger()),
            final(self).state() == (IngressCellState {
                schedule: old(self).state().schedule.showing(schedule),
                ..old(self).state()
            }),
            final(ctx).ledger() == old(ctx).ledger().settled(old(self).state().schedule.slot),
    {
        self.shell.schedule(ctx)
    }

    /// Retunes the transport live: falling back from an event channel to bounded polling
    /// is a write, so every dependent of the schedule reacts.
    pub fn set_transport(&mut self, ctx: &mut ThreadSafeContext, kind: IngressTransportKind)
        requires
            old(ctx).wf(),
            old(self).wf(),
            old(self).state().on(old(ctx).ledger()),
        ensures
            final(ctx).wf(),
            final(self).wf(),
            final(self).state().on(final(ctx).ledger()),
            final(self).state() == (IngressCellState { kind, ..old(self).state() }),
            final(ctx).ledger() == if kind == old(self).state().kind {
                old(ctx).ledger()
            } else {
                old(ctx).ledger().cleared(
                    Set::<int>::empty().insert(old(self).state().kind_slot.index as int),
                )
            },
    {
        self.shell.set_transport(ctx, kind);
    }

    /// Retunes the poll bound live.
    pub fn set_poll_interval(&mut self, ctx: &mut ThreadSafeContext, interval: u64)
        requires
            old(ctx).wf(),
            old(self).wf(),
            old(self).state().on(old(ctx).ledger()),
        ensures
            final(ctx).wf(),
            final(self).wf(),
            final(self).state().on(final(ctx).ledger()),
            final(self).state() == (IngressCellState { poll_interval: interval, ..old(self).state() }),
            final(ctx).ledger() == if interval == old(self).state().poll_interval {
                old(ctx).ledger()
            } else {
                old(ctx).ledger().cleared(
                    Set::<int>::empty().insert(old(self).state().interval_slot.index as int),
                )
            },
    {
        self.shell.set_poll_interval(ctx, interval);
    }

    /// Projection of a scope, for assertions and diagnostics. Reads no reader.
    pub fn view(&self, key: &K) -> (view: Option<ScopeView>)
        requires
            self.wf(),
        ensures
            view == self.state().core.view_of(key@),
    {
        self.shell.view(key)
    }

    /// The bounds in force.
    pub fn policy(&self) -> (policy: IngressPolicy)
        ensures
            policy == self.state().core.policy,
    {
        self.shell.policy()
    }

    /// Every known scope key.
    pub fn scope_keys(&self) -> (keys: Vec<K>)
        ensures
            keys@.map_values(|key: K| key@) == self.state().core.keys,
    {
        self.shell.scope_keys()
    }

    /// Handle for the scope's value reader, for composing further derives.
    pub fn value_handle(
        &mut self,
        ctx: &mut ThreadSafeContext,
        key: &K,
    ) -> (handle: Computed<Option<T>>)
        requires
            old(ctx).wf(),
            old(self).wf(),
            old(self).state().on(old(ctx).ledger()),
        ensures
            final(ctx).wf(),
            final(self).wf(),
            final(self).state().on(final(ctx).ledger()),
            (final(self).state(), final(ctx).ledger()) == old(self).state().with_readers(
                old(ctx).ledger(),
                key@,
            ),
            handle.slot() == final(self).state().readers[key@].value.slot,
    {
        Computed::new(self.shell.ensure_readers(ctx, key).value)
    }

    /// Handle for the scope's readiness reader.
    pub fn readiness_handle(
        &mut self,
        ctx: &mut ThreadSafeContext,
        key: &K,
    ) -> (handle: Computed<IngressReadiness>)
        requires
            old(ctx).wf(),
            old(self).wf(),
            old(self).state().on(old(ctx).ledger()),
        ensures
            final(ctx).wf(),
            final(self).wf(),
            final(self).state().on(final(ctx).ledger()),
            (final(self).state(), final(ctx).ledger()) == old(self).state().with_readers(
                old(ctx).ledger(),
                key@,
            ),
            handle.slot() == final(self).state().readers[key@].readiness.slot,
    {
        Computed::new(self.shell.ensure_readers(ctx, key).readiness)
    }

    /// Handle for the scope's authority reader.
    pub fn authority_handle(
        &mut self,
        ctx: &mut ThreadSafeContext,
        key: &K,
    ) -> (handle: Computed<Option<IngressAuthority>>)
        requires
            old(ctx).wf(),
            old(self).wf(),
            old(self).state().on(old(ctx).ledger()),
        ensures
            final(ctx).wf(),
            final(self).wf(),
            final(self).state().on(final(ctx).ledger()),
            (final(self).state(), final(ctx).ledger()) == old(self).state().with_readers(
                old(ctx).ledger(),
                key@,
            ),
            handle.slot() == final(self).state().readers[key@].authority.slot,
    {
        Computed::new(self.shell.ensure_readers(ctx, key).authority)
    }

    /// Handle for the scope's retry reader.
    pub fn retry_handle(
        &mut self,
        ctx: &mut ThreadSafeContext,
        key: &K,
    ) -> (handle: Computed<Option<IngressRetry>>)
        requires
            old(ctx).wf(),
            old(self).wf(),
            old(self).state().on(old(ctx).ledger()),
        ensures
            final(ctx).wf(),
            final(self).wf(),
            final(self).state().on(final(ctx).ledger()),
            (final(self).state(), final(ctx).ledger()) == old(self).state().with_readers(
                old(ctx).ledger(),
                key@,
            ),
            handle.slot() == final(self).state().readers[key@].retry.slot,
    {
        Computed::new(self.shell.ensure_readers(ctx, key).retry)
    }

    /// Handle for the accepted-receipt reader.
    pub fn accepted_handle(&self) -> (handle: Computed<Vec<IngressReceipt<K>>>)
        ensures
            handle.slot() == self.state().accepted.slot,
    {
        Computed::new(self.shell.accepted_slot())
    }

    /// Handle for the dropped-receipt reader.
    pub fn dropped_handle(&self) -> (handle: Computed<Vec<IngressReceipt<K>>>)
        ensures
            handle.slot() == self.state().dropped.slot,
    {
        Computed::new(self.shell.dropped_slot())
    }

    /// Handle for the error-receipt reader.
    pub fn errors_handle(&self) -> (handle: Computed<Vec<IngressReceipt<K>>>)
        ensures
            handle.slot() == self.state().errors.slot,
    {
        Computed::new(self.shell.errors_slot())
    }

    /// Handle for the schedule reader.
    pub fn schedule_handle(&self) -> (handle: Computed<IngressSchedule>)
        ensures
            handle.slot() == self.state().schedule.slot,
    {
        Computed::new(self.shell.schedule_slot())
    }
}

} // verus!
