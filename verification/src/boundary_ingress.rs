//! `BoundaryIngressCell`: the single-threaded boundary adapter.
//!
//! Every boundary observation updates sources in one batch. Derives own all derived
//! reads; callers attach effects to the effect intent and publish the resulting receipt
//! facts back through this adapter.

use vstd::prelude::*;

use crate::ingress::IngressCell;
use crate::boundary_model::{BoundaryState, installed, projected};
use crate::boundary_shell::{BoundaryCellState, BoundaryShell, actions_fit, framed, settled};
use crate::boundary_types::{
    BoundaryFreshness, BoundaryIngressAuthority, BoundaryIngressConfig,
    BoundaryIngressEffectIntent, BoundaryIngressEvent, BoundaryIngressPhase,
    BoundaryIngressProjection, BoundaryIngressReadiness, BoundaryIngressSnapshot,
    BoundaryValidation,
};
use crate::graph::growing_moves_none;
use crate::ingress_shell::IngressCellState;
use crate::ingress_types::{IngressConfigError, IngressPolicy, IngressTransportKind};
use crate::merge::MergePolicy;
use crate::reactive::{Computed, Context, ReactiveGraph};
use crate::value::{OrderedKey, Datum};

verus! {

/// Event-channel-first adapter around the keyed ingress.
pub struct BoundaryIngressCell<K, T, M> {
    shell: BoundaryShell<K, T>,
    ingress: IngressCell<K, T, M>,
}

impl<K: OrderedKey, T: Datum, M: MergePolicy<T>> BoundaryIngressCell<K, T, M> {
    /// The adapter, over key and payload views.
    pub closed spec fn state(&self) -> BoundaryCellState<K::V, T::V> {
        self.shell.state()
    }

    /// The value plane, over key and payload views.
    pub closed spec fn ingress_state(&self) -> IngressCellState<K::V, T::V> {
        self.ingress.state()
    }

    /// The cell is one that the operations can reach.
    pub closed spec fn wf(&self) -> bool {
        self.shell.wf() && self.ingress.wf()
    }

    /// What well-formedness says to a caller.
    pub proof fn wf_facts(&self)
        requires
            self.wf(),
        ensures
            self.state().core.wf(),
            self.state().projection == projected::<K, T::V>(self.state().core),
            self.ingress_state().core.wf(),
    {
        self.shell.wf_facts();
        self.ingress.wf_facts();
    }

    /// Builds a boundary adapter and its value plane.
    pub fn new(
        ctx: &mut Context,
        boundary: BoundaryIngressConfig,
        ingress: IngressPolicy,
    ) -> (built: Result<Self, IngressConfigError>)
        requires
            old(ctx).wf(),
        ensures
            final(ctx).wf(),
            built is Err <==> (ingress.overflow is Conflate && !M::conflates())
                || ingress.receipt_capacity == 0,
            built matches Err(error) ==> final(ctx).ledger() == framed(old(ctx).ledger())
                && error == if ingress.overflow is Conflate && !M::conflates() {
                IngressConfigError::ConflateNotBounding
            } else {
                IngressConfigError::ZeroReceiptCapacity
            },
            built matches Ok(cell) ==> {
                let first = old(ctx).ledger().slots.len() as int;
                &&& cell.wf()
                &&& cell.state().on(final(ctx).ledger())
                &&& cell.ingress_state().on(final(ctx).ledger())
                &&& cell.state().core == BoundaryState::<K::V, T::V>::detached(boundary)
                &&& cell.state().projection == projected::<K, T::V>(
                    BoundaryState::<K::V, T::V>::detached(boundary),
                )
                &&& cell.state().projection_slot.index == first
                &&& cell.state().members == Seq::<Seq<char>>::empty()
                &&& cell.ingress_state() == IngressCellState::<K::V, T::V>::initial(
                    ingress,
                    IngressTransportKind::EventChannel,
                    1,
                    first + 9,
                )
                &&& final(ctx).ledger() == framed(old(ctx).ledger()).grown(5).allocated(
                    seq![first + 12, first + 13],
                )
            },
    {
        let shell = BoundaryShell::new(ctx, boundary);
        let ghost ledger = ctx.ledger();
        proof {
            ctx.wf_facts();
        }
        match IngressCell::new(ctx, ingress, IngressTransportKind::EventChannel, 1) {
            Ok(plane) => {
                proof {
                    growing_moves_none(ledger, 5, shell.state().projection_slot);
                    shell.state().stays_on(ledger, ctx.ledger());
                }
                Ok(BoundaryIngressCell { shell, ingress: plane })
            },
            Err(error) => Err(error),
        }
    }

    /// Starts or hot-restarts the subscription generation.
    pub fn subscribe(
        &mut self,
        ctx: &mut Context,
        generation: u64,
    )
        requires
            old(ctx).wf(),
            old(self).wf(),
            old(self).state().on(old(ctx).ledger()),
            old(self).ingress_state().on(old(ctx).ledger()),
            old(ctx).ledger().depth < usize::MAX,
        ensures
            final(ctx).wf(),
            final(self).wf(),
            final(self).state().on(final(ctx).ledger()),
            final(self).ingress_state().on(final(ctx).ledger()),
            (final(self).state(), final(self).ingress_state(), final(ctx).ledger()) == settled::<K, T, M>(
                old(self).state(),
                old(self).ingress_state(),
                old(ctx).ledger(),
                old(self).state().core.subscribed(generation).0,
                Seq::empty(),
                old(self).state().core.subscribed(generation).1,
            ),
    {
        self.shell.subscribe(ctx, self.ingress.plane(), generation);
    }

    /// Atomically installs a covering snapshot and buffered successors.
    pub fn apply_snapshot(
        &mut self,
        ctx: &mut Context,
        snapshot: BoundaryIngressSnapshot<K, T>,
    )
        requires
            old(ctx).wf(),
            old(self).wf(),
            old(self).state().on(old(ctx).ledger()),
            old(self).ingress_state().on(old(ctx).ledger()),
            old(ctx).ledger().depth < usize::MAX,
            snapshot.cursor < u64::MAX || snapshot.generation
                < old(self).state().core.generation,
            actions_fit::<K::V, T, M>(
                old(self).ingress_state(),
                old(ctx).ledger().begun(),
                installed::<K, T::V>(old(self).state().core, snapshot@).1.actions,
            ),
        ensures
            final(ctx).wf(),
            final(self).wf(),
            final(self).state().on(final(ctx).ledger()),
            final(self).ingress_state().on(final(ctx).ledger()),
            (final(self).state(), final(self).ingress_state(), final(ctx).ledger()) == settled::<K, T, M>(
                old(self).state(),
                old(self).ingress_state(),
                old(ctx).ledger(),
                installed::<K, T::V>(old(self).state().core, snapshot@).0,
                installed::<K, T::V>(old(self).state().core, snapshot@).1.actions,
                installed::<K, T::V>(old(self).state().core, snapshot@).1.changed,
            ),
    {
        self.shell.apply_snapshot(ctx, self.ingress.plane(), snapshot);
    }

    /// Publishes one event-channel frame.
    pub fn apply_event(
        &mut self,
        ctx: &mut Context,
        event: BoundaryIngressEvent<K, T>,
    )
        requires
            old(ctx).wf(),
            old(self).wf(),
            old(self).state().on(old(ctx).ledger()),
            old(self).ingress_state().on(old(ctx).ledger()),
            old(ctx).ledger().depth < usize::MAX,
            event.cursor < u64::MAX || event.generation < old(self).state().core.generation,
            actions_fit::<K::V, T, M>(
                old(self).ingress_state(),
                old(ctx).ledger().begun(),
                old(self).state().core.received(event@).1.actions,
            ),
        ensures
            final(ctx).wf(),
            final(self).wf(),
            final(self).state().on(final(ctx).ledger()),
            final(self).ingress_state().on(final(ctx).ledger()),
            (final(self).state(), final(self).ingress_state(), final(ctx).ledger()) == settled::<K, T, M>(
                old(self).state(),
                old(self).ingress_state(),
                old(ctx).ledger(),
                old(self).state().core.received(event@).0,
                old(self).state().core.received(event@).1.actions,
                old(self).state().core.received(event@).1.changed,
            ),
    {
        self.shell.apply_event(ctx, self.ingress.plane(), event);
    }

    /// Publishes a member-join fact.
    pub fn member_join(
        &mut self,
        ctx: &mut Context,
        member: String,
    )
        requires
            old(ctx).wf(),
            old(self).wf(),
            old(self).state().on(old(ctx).ledger()),
            old(self).ingress_state().on(old(ctx).ledger()),
            old(ctx).ledger().depth < usize::MAX,
        ensures
            final(ctx).wf(),
            final(self).wf(),
            final(self).state().on(final(ctx).ledger()),
            final(self).ingress_state().on(final(ctx).ledger()),
            (final(self).state(), final(self).ingress_state(), final(ctx).ledger()) == settled::<K, T, M>(
                old(self).state(),
                old(self).ingress_state(),
                old(ctx).ledger(),
                old(self).state().core.joined(member@).0,
                Seq::empty(),
                old(self).state().core.joined(member@).1,
            ),
    {
        self.shell.member_join(ctx, self.ingress.plane(), member);
    }

    /// Publishes a member-leave fact.
    pub fn member_leave(
        &mut self,
        ctx: &mut Context,
        member: &str,
    )
        requires
            old(ctx).wf(),
            old(self).wf(),
            old(self).state().on(old(ctx).ledger()),
            old(self).ingress_state().on(old(ctx).ledger()),
            old(ctx).ledger().depth < usize::MAX,
        ensures
            final(ctx).wf(),
            final(self).wf(),
            final(self).state().on(final(ctx).ledger()),
            final(self).ingress_state().on(final(ctx).ledger()),
            (final(self).state(), final(self).ingress_state(), final(ctx).ledger()) == settled::<K, T, M>(
                old(self).state(),
                old(self).ingress_state(),
                old(ctx).ledger(),
                old(self).state().core.left(member@).0,
                Seq::empty(),
                old(self).state().core.left(member@).1,
            ),
    {
        self.shell.member_leave(ctx, self.ingress.plane(), member);
    }

    /// Opens one durable delivery receipt.
    pub fn open_delivery(
        &mut self,
        ctx: &mut Context,
        receipt_id: String,
    )
        requires
            old(ctx).wf(),
            old(self).wf(),
            old(self).state().on(old(ctx).ledger()),
            old(self).ingress_state().on(old(ctx).ledger()),
            old(ctx).ledger().depth < usize::MAX,
        ensures
            final(ctx).wf(),
            final(self).wf(),
            final(self).state().on(final(ctx).ledger()),
            final(self).ingress_state().on(final(ctx).ledger()),
            (final(self).state(), final(self).ingress_state(), final(ctx).ledger()) == settled::<K, T, M>(
                old(self).state(),
                old(self).ingress_state(),
                old(ctx).ledger(),
                old(self).state().core.delivering(receipt_id@).0,
                Seq::empty(),
                old(self).state().core.delivering(receipt_id@).1,
            ),
    {
        self.shell.open_delivery(ctx, self.ingress.plane(), receipt_id);
    }

    /// Folds in one idempotent acknowledgement receipt.
    pub fn acknowledge(
        &mut self,
        ctx: &mut Context,
        receipt_id: &str,
        member: &str,
    )
        requires
            old(ctx).wf(),
            old(self).wf(),
            old(self).state().on(old(ctx).ledger()),
            old(self).ingress_state().on(old(ctx).ledger()),
            old(ctx).ledger().depth < usize::MAX,
        ensures
            final(ctx).wf(),
            final(self).wf(),
            final(self).state().on(final(ctx).ledger()),
            final(self).ingress_state().on(final(ctx).ledger()),
            (final(self).state(), final(self).ingress_state(), final(ctx).ledger()) == settled::<K, T, M>(
                old(self).state(),
                old(self).ingress_state(),
                old(ctx).ledger(),
                old(self).state().core.acknowledged(receipt_id@, member@).0,
                Seq::empty(),
                old(self).state().core.acknowledged(receipt_id@, member@).1,
            ),
    {
        self.shell.acknowledge(ctx, self.ingress.plane(), receipt_id, member);
    }

    /// Advances logical time.
    pub fn tick(
        &mut self,
        ctx: &mut Context,
        now: u64,
    )
        requires
            old(ctx).wf(),
            old(self).wf(),
            old(self).state().on(old(ctx).ledger()),
            old(self).ingress_state().on(old(ctx).ledger()),
            old(ctx).ledger().depth < usize::MAX,
        ensures
            final(ctx).wf(),
            final(self).wf(),
            final(self).state().on(final(ctx).ledger()),
            final(self).ingress_state().on(final(ctx).ledger()),
            (final(self).state(), final(self).ingress_state(), final(ctx).ledger()) == settled::<K, T, M>(
                old(self).state(),
                old(self).ingress_state(),
                old(ctx).ledger(),
                old(self).state().core.ticked(now).0,
                Seq::empty(),
                old(self).state().core.ticked(now).1,
            ),
    {
        self.shell.tick(ctx, self.ingress.plane(), now);
    }

    /// The value plane.
    pub fn ingress(&self) -> (plane: &IngressCell<K, T, M>)
        ensures
            plane.state() == self.ingress_state(),
            self.wf() ==> plane.wf(),
    {
        &self.ingress
    }

    /// Access to the value plane, for reads that memoize.
    pub fn ingress_mut(&mut self) -> (plane: &mut IngressCell<K, T, M>)
        ensures
            plane.state() == old(self).ingress_state(),
            old(self).wf() ==> plane.wf(),
            final(self).state() == old(self).state(),
            final(self).ingress_state() == final(plane).state(),
            old(self).wf() && final(plane).wf() ==> final(self).wf(),
    {
        &mut self.ingress
    }

    /// Reads the published observation.
    pub fn projection(&self, _ctx: &Context) -> (projection: BoundaryIngressProjection<K>)
        requires
            self.wf(),
        ensures
            projection.wf(),
            projection@ == self.state().projection,
    {
        self.shell.projection()
    }

    /// Handle for the published observation.
    pub fn projection_handle(&self) -> (handle: Computed<BoundaryIngressProjection<K>>)
        ensures
            handle.slot() == self.state().projection_slot,
    {
        Computed::new(self.shell.projection_slot())
    }

    /// Reads the phase of the published observation.
    pub fn phase(&self, _ctx: &Context) -> (phase: BoundaryIngressPhase)
        ensures
            phase == self.state().projection.phase,
    {
        self.shell.phase()
    }

    /// Reads derived readiness.
    pub fn readiness(&mut self, ctx: &mut Context) -> (readiness: BoundaryIngressReadiness)
        requires
            old(ctx).wf(),
            old(self).wf(),
            old(self).state().on(old(ctx).ledger()),
        ensures
            final(ctx).wf(),
            final(self).wf(),
            final(self).ingress_state() == old(self).ingress_state(),
            final(self).state().on(final(ctx).ledger()),
            ({
                let shown = old(self).state().readiness.shows(
                    old(ctx).ledger(),
                    old(self).state().projection.ready(),
                );
                &&& readiness == shown
                &&& final(self).state() == (BoundaryCellState {
                    readiness: old(self).state().readiness.showing(shown),
                    ..old(self).state()
                })
                &&& final(ctx).ledger() == old(ctx).ledger().settled(
                    old(self).state().readiness.slot,
                )
            }),
    {
        self.shell.readiness(ctx)
    }

    /// Reads derived authority.
    pub fn authority(&mut self, ctx: &mut Context) -> (authority: Option<BoundaryIngressAuthority>)
        requires
            old(ctx).wf(),
            old(self).wf(),
            old(self).state().on(old(ctx).ledger()),
        ensures
            final(ctx).wf(),
            final(self).wf(),
            final(self).ingress_state() == old(self).ingress_state(),
            final(self).state().on(final(ctx).ledger()),
            ({
                let shown = old(self).state().authority.shows(
                    old(ctx).ledger(),
                    old(self).state().projection.claims(),
                );
                &&& authority == shown
                &&& final(self).state() == (BoundaryCellState {
                    authority: old(self).state().authority.showing(shown),
                    ..old(self).state()
                })
                &&& final(ctx).ledger() == old(ctx).ledger().settled(
                    old(self).state().authority.slot,
                )
            }),
    {
        self.shell.authority(ctx)
    }

    /// Reads derived freshness.
    pub fn freshness(&mut self, ctx: &mut Context) -> (freshness: BoundaryFreshness)
        requires
            old(ctx).wf(),
            old(self).wf(),
            old(self).state().on(old(ctx).ledger()),
        ensures
            final(ctx).wf(),
            final(self).wf(),
            final(self).ingress_state() == old(self).ingress_state(),
            final(self).state().on(final(ctx).ledger()),
            ({
                let shown = old(self).state().freshness.shows(
                    old(ctx).ledger(),
                    old(self).state().projection.freshness,
                );
                &&& freshness == shown
                &&& final(self).state() == (BoundaryCellState {
                    freshness: old(self).state().freshness.showing(shown),
                    ..old(self).state()
                })
                &&& final(ctx).ledger() == old(ctx).ledger().settled(
                    old(self).state().freshness.slot,
                )
            }),
    {
        self.shell.freshness(ctx)
    }

    /// Reads the members, in order of appearance.
    pub fn membership(&mut self, ctx: &mut Context) -> (members: Vec<String>)
        requires
            old(ctx).wf(),
            old(self).wf(),
            old(self).state().on(old(ctx).ledger()),
        ensures
            final(ctx).wf(),
            final(self).wf(),
            final(self).ingress_state() == old(self).ingress_state(),
            final(self).state().on(final(ctx).ledger()),
            ({
                let shown = old(self).state().membership.shows(
                    old(ctx).ledger(),
                    old(self).state().members,
                );
                &&& members@.map_values(|member: String| member@) == shown
                &&& final(self).state() == (BoundaryCellState {
                    membership: old(self).state().membership.showing(shown),
                    ..old(self).state()
                })
                &&& final(ctx).ledger() == old(ctx).ledger().settled(
                    old(self).state().membership.slot,
                )
            }),
    {
        self.shell.membership(ctx)
    }

    /// Reads whether the active delivery has converged.
    pub fn delivery_converged(&mut self, ctx: &mut Context) -> (answer: bool)
        requires
            old(ctx).wf(),
            old(self).wf(),
            old(self).state().on(old(ctx).ledger()),
        ensures
            final(ctx).wf(),
            final(self).wf(),
            final(self).ingress_state() == old(self).ingress_state(),
            final(self).state().on(final(ctx).ledger()),
            ({
                let shown = old(self).state().delivery_converged.shows(
                    old(ctx).ledger(),
                    old(self).state().projection.settled(),
                );
                &&& answer == shown
                &&& final(self).state() == (BoundaryCellState {
                    delivery_converged: old(self).state().delivery_converged.showing(shown),
                    ..old(self).state()
                })
                &&& final(ctx).ledger() == old(ctx).ledger().settled(
                    old(self).state().delivery_converged.slot,
                )
            }),
    {
        self.shell.delivery_converged(ctx)
    }

    /// Reads structural validation.
    pub fn validation(&mut self, ctx: &mut Context) -> (validation: BoundaryValidation)
        requires
            old(ctx).wf(),
            old(self).wf(),
            old(self).state().on(old(ctx).ledger()),
        ensures
            final(ctx).wf(),
            final(self).wf(),
            final(self).ingress_state() == old(self).ingress_state(),
            final(self).state().on(final(ctx).ledger()),
            ({
                let shown = old(self).state().validation.shows(
                    old(ctx).ledger(),
                    old(self).state().projection.validation,
                );
                &&& validation == shown
                &&& final(self).state() == (BoundaryCellState {
                    validation: old(self).state().validation.showing(shown),
                    ..old(self).state()
                })
                &&& final(ctx).ledger() == old(ctx).ledger().settled(
                    old(self).state().validation.slot,
                )
            }),
    {
        self.shell.validation(ctx)
    }

    /// Reads the derived effect intent.
    pub fn effect_intent(&mut self, ctx: &mut Context) -> (intent: BoundaryIngressEffectIntent)
        requires
            old(ctx).wf(),
            old(self).wf(),
            old(self).state().on(old(ctx).ledger()),
        ensures
            final(ctx).wf(),
            final(self).wf(),
            final(self).ingress_state() == old(self).ingress_state(),
            final(self).state().on(final(ctx).ledger()),
            ({
                let shown = old(self).state().effect_intent.shows(
                    old(ctx).ledger(),
                    old(self).state().projection.intends(),
                );
                &&& intent == shown
                &&& final(self).state() == (BoundaryCellState {
                    effect_intent: old(self).state().effect_intent.showing(shown),
                    ..old(self).state()
                })
                &&& final(ctx).ledger() == old(ctx).ledger().settled(
                    old(self).state().effect_intent.slot,
                )
            }),
    {
        self.shell.effect_intent(ctx)
    }

    /// Handle for the `readiness` reader.
    pub fn readiness_handle(&self) -> (handle: Computed<BoundaryIngressReadiness>)
        ensures
            handle.slot() == self.state().readiness.slot,
    {
        Computed::new(self.shell.readiness_slot())
    }

    /// Handle for the `authority` reader.
    pub fn authority_handle(&self) -> (handle: Computed<Option<BoundaryIngressAuthority>>)
        ensures
            handle.slot() == self.state().authority.slot,
    {
        Computed::new(self.shell.authority_slot())
    }

    /// Handle for the `freshness` reader.
    pub fn freshness_handle(&self) -> (handle: Computed<BoundaryFreshness>)
        ensures
            handle.slot() == self.state().freshness.slot,
    {
        Computed::new(self.shell.freshness_slot())
    }

    /// Handle for the `membership` reader.
    pub fn membership_handle(&self) -> (handle: Computed<Vec<String>>)
        ensures
            handle.slot() == self.state().membership.slot,
    {
        Computed::new(self.shell.membership_slot())
    }

    /// Handle for the `delivery_converged` reader.
    pub fn delivery_converged_handle(&self) -> (handle: Computed<bool>)
        ensures
            handle.slot() == self.state().delivery_converged.slot,
    {
        Computed::new(self.shell.delivery_converged_slot())
    }

    /// Handle for the `validation` reader.
    pub fn validation_handle(&self) -> (handle: Computed<BoundaryValidation>)
        ensures
            handle.slot() == self.state().validation.slot,
    {
        Computed::new(self.shell.validation_slot())
    }

    /// Handle for the `effect_intent` reader.
    pub fn effect_intent_handle(&self) -> (handle: Computed<BoundaryIngressEffectIntent>)
        ensures
            handle.slot() == self.state().effect_intent.slot,
    {
        Computed::new(self.shell.effect_intent_slot())
    }
}

} // verus!
