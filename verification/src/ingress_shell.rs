//! The reactive shell of the ingress plane: four memoized readers per keyed scope,
//! three receipt readers and the derived delivery schedule, minted on one context.
//!
//! Nothing polls a connection to find out whether it is healthy: readiness, authority
//! and retry are derives over scope state. The core reports which readers each
//! transition moves, and the shell clears precisely those, in one frontier walk.

use vstd::prelude::*;

use crate::graph::{
    Ledger, SlotId, growing_moves_none, positions, positions_empty, push_root, with_root,
};
use crate::ingress_core::{IngressCore, option_view};
use crate::ingress_model::{IngressState, admitted, countable, has_room};
use crate::ingress_types::{
    IngressAdmission, IngressAuthority, IngressChange, IngressConfigError, IngressEnvelope,
    IngressError, IngressMarks, IngressPolicy, IngressReadiness, IngressReceipt,
    IngressReceiptChannel, IngressRetry, IngressSchedule, IngressScopeChange, IngressTransport,
    IngressTransportKind, ReplayRequest, ScopeView, after_watermark,
};
use crate::merge::MergePolicy;
use crate::reactive::{Listing, Maybe, Memo, MemoState, ReactiveGraph, SourceCell};
use crate::table::KeyedTable;
use crate::value::{Key, Datum, holds};

verus! {

/// The four readers of one keyed scope, over views.
#[verifier::ext_equal]
pub struct ReaderSet<P> {
    /// The coalesced window awaiting drain.
    pub value: MemoState<Option<P>>,
    /// Derived readiness.
    pub readiness: MemoState<IngressReadiness>,
    /// Derived authority.
    pub authority: MemoState<Option<IngressAuthority>>,
    /// Derived retry decision.
    pub retry: MemoState<Option<IngressRetry>>,
}

impl<P> ReaderSet<P> {
    /// Readers on four consecutive slots, with nothing in their caches.
    pub open spec fn at(base: int) -> Self {
        ReaderSet {
            value: MemoState::at(base),
            readiness: MemoState::at(base + 1),
            authority: MemoState::at(base + 2),
            retry: MemoState::at(base + 3),
        }
    }

    /// The first of the four slots.
    pub open spec fn base(self) -> int {
        self.value.slot.index as int
    }

    /// The readers stand on four consecutive slots that depend on nothing.
    pub open spec fn on(self, ledger: Ledger) -> bool {
        &&& self.readiness.slot.index == self.base() + 1
        &&& self.authority.slot.index == self.base() + 2
        &&& self.retry.slot.index == self.base() + 3
        &&& ledger.leaf(self.value.slot)
        &&& ledger.leaf(self.readiness.slot)
        &&& ledger.leaf(self.authority.slot)
        &&& ledger.leaf(self.retry.slot)
    }

    /// Some roots, and those of these readers that a change marks.
    pub open spec fn roots(self, roots: Set<int>, change: IngressScopeChange) -> Set<int> {
        with_root(
            with_root(
                with_root(
                    with_root(roots, change.value, self.value.slot),
                    change.readiness,
                    self.readiness.slot,
                ),
                change.authority,
                self.authority.slot,
            ),
            change.retry,
            self.retry.slot,
        )
    }
}

/// The reader slots that some scope marks dirty.
pub open spec fn scope_roots<Id, P>(
    readers: Map<Id, ReaderSet<P>>,
    marks: Seq<(Id, IngressScopeChange)>,
) -> Set<int>
    decreases marks.len(),
{
    if marks.len() == 0 {
        Set::empty()
    } else {
        readers[marks.last().0].roots(scope_roots(readers, marks.drop_last()), marks.last().1)
    }
}

/// An ingress cell and its readers, over views.
#[verifier::ext_equal]
#[verifier::reject_recursive_types(Id)]
pub struct IngressCellState<Id, P> {
    /// The admission plane.
    pub core: IngressState<Id, P>,
    /// The readers minted so far.
    pub readers: Map<Id, ReaderSet<P>>,
    /// Accepted receipts.
    pub accepted: MemoState<Seq<IngressReceipt<Id>>>,
    /// Dropped receipts.
    pub dropped: MemoState<Seq<IngressReceipt<Id>>>,
    /// Error receipts.
    pub errors: MemoState<Seq<IngressReceipt<Id>>>,
    /// The transport kind in force.
    pub kind: IngressTransportKind,
    /// The source of the transport kind.
    pub kind_slot: SlotId,
    /// The poll bound in force.
    pub poll_interval: u64,
    /// The source of the poll bound.
    pub interval_slot: SlotId,
    /// The derived delivery schedule.
    pub schedule: MemoState<IngressSchedule>,
}

impl<Id, P> IngressCellState<Id, P> {
    /// A cell without scopes on its first six slots.
    pub open spec fn initial(
        policy: IngressPolicy,
        kind: IngressTransportKind,
        poll_interval: u64,
        first: int,
    ) -> Self {
        IngressCellState {
            core: IngressState::initial(policy),
            readers: Map::empty(),
            accepted: MemoState::at(first),
            dropped: MemoState::at(first + 1),
            errors: MemoState::at(first + 2),
            kind,
            kind_slot: SlotId { index: (first + 3) as usize },
            poll_interval,
            interval_slot: SlotId { index: (first + 4) as usize },
            schedule: MemoState::at(first + 5),
        }
    }

    /// The first of the cell's slots.
    pub open spec fn first(self) -> int {
        self.accepted.slot.index as int
    }

    /// The six slots that every cell has are consecutive, and the schedule alone
    /// depends on anything: on the two sources.
    pub open spec fn frame_on(self, ledger: Ledger) -> bool {
        &&& self.dropped.slot.index == self.first() + 1
        &&& self.errors.slot.index == self.first() + 2
        &&& self.kind_slot.index == self.first() + 3
        &&& self.interval_slot.index == self.first() + 4
        &&& self.schedule.slot.index == self.first() + 5
        &&& ledger.leaf(self.accepted.slot)
        &&& ledger.leaf(self.dropped.slot)
        &&& ledger.leaf(self.errors.slot)
        &&& ledger.leaf(self.kind_slot)
        &&& ledger.leaf(self.interval_slot)
        &&& ledger.has(self.schedule.slot)
        &&& ledger.slots[self.schedule.slot.index as int].deps == seq![
            self.kind_slot.index as int,
            self.interval_slot.index as int,
        ]
    }

    /// The cell's slots are on a ledger, and no two readers share one.
    pub open spec fn on(self, ledger: Ledger) -> bool {
        &&& self.frame_on(ledger)
        &&& forall|id: Id| #[trigger]
            self.readers.contains_key(id) ==> self.readers[id].on(ledger)
                && self.readers[id].base() > self.schedule.slot.index
        &&& forall|id: Id, other: Id| #[trigger]
            self.readers.contains_key(id) && #[trigger] self.readers.contains_key(other) && id
                != other ==> self.readers[id].base() + 4 <= self.readers[other].base()
                || self.readers[other].base() + 4 <= self.readers[id].base()
    }

    /// With another plane behind the same readers.
    pub open spec fn over(self, core: IngressState<Id, P>) -> Self {
        IngressCellState { core, ..self }
    }

    /// With the readers of a key minted, where they were not.
    pub open spec fn with_readers(self, ledger: Ledger, id: Id) -> (Self, Ledger) {
        if self.readers.contains_key(id) {
            (self, ledger)
        } else {
            (
                IngressCellState {
                    readers: self.readers.insert(id, ReaderSet::at(ledger.slots.len() as int)),
                    ..self
                },
                ledger.grown(4),
            )
        }
    }

    /// With the readers of every marked key minted, in the order of the marks.
    pub open spec fn with_marked(
        self,
        ledger: Ledger,
        marks: Seq<(Id, IngressScopeChange)>,
    ) -> (Self, Ledger)
        decreases marks.len(),
    {
        if marks.len() == 0 {
            (self, ledger)
        } else {
            let (shorter, grown) = self.with_marked(ledger, marks.drop_last());
            shorter.with_readers(grown, marks.last().0)
        }
    }

    /// Every slot that a change marks dirty.
    pub open spec fn roots(self, marks: IngressMarks<Id>) -> Set<int> {
        with_root(
            with_root(
                with_root(
                    scope_roots(self.readers, marks.scopes),
                    marks.accepted_receipts,
                    self.accepted.slot,
                ),
                marks.dropped_receipts,
                self.dropped.slot,
            ),
            marks.error_receipts,
            self.errors.slot,
        )
    }

    /// One invalidation set applied: the readers of every marked key exist, and
    /// exactly the marked slots are cleared, in one walk.
    pub open spec fn applied(self, ledger: Ledger, marks: IngressMarks<Id>) -> (Self, Ledger) {
        let (minted, grown) = self.with_marked(ledger, marks.scopes);
        (minted, grown.cleared(minted.roots(marks)))
    }

    /// A read of a key's value.
    pub open spec fn value_read(self, ledger: Ledger, id: Id) -> (Self, Ledger, Option<P>) {
        let (minted, grown) = self.with_readers(ledger, id);
        let readers = minted.readers[id];
        let shown = readers.value.shows(grown, minted.core.value_of(id));
        (
            IngressCellState {
                readers: minted.readers.insert(
                    id,
                    ReaderSet { value: readers.value.showing(shown), ..readers },
                ),
                ..minted
            },
            grown.settled(readers.value.slot),
            shown,
        )
    }

    /// A read of a key's readiness.
    pub open spec fn readiness_read(self, ledger: Ledger, id: Id) -> (
        Self,
        Ledger,
        IngressReadiness,
    ) {
        let (minted, grown) = self.with_readers(ledger, id);
        let readers = minted.readers[id];
        let shown = readers.readiness.shows(grown, minted.core.readiness_of(id));
        (
            IngressCellState {
                readers: minted.readers.insert(
                    id,
                    ReaderSet { readiness: readers.readiness.showing(shown), ..readers },
                ),
                ..minted
            },
            grown.settled(readers.readiness.slot),
            shown,
        )
    }

    /// A read of a key's authority.
    pub open spec fn authority_read(self, ledger: Ledger, id: Id) -> (
        Self,
        Ledger,
        Option<IngressAuthority>,
    ) {
        let (minted, grown) = self.with_readers(ledger, id);
        let readers = minted.readers[id];
        let shown = readers.authority.shows(grown, minted.core.authority_of(id));
        (
            IngressCellState {
                readers: minted.readers.insert(
                    id,
                    ReaderSet { authority: readers.authority.showing(shown), ..readers },
                ),
                ..minted
            },
            grown.settled(readers.authority.slot),
            shown,
        )
    }

    /// A read of a key's retry decision.
    pub open spec fn retry_read(self, ledger: Ledger, id: Id) -> (
        Self,
        Ledger,
        Option<IngressRetry>,
    ) {
        let (minted, grown) = self.with_readers(ledger, id);
        let readers = minted.readers[id];
        let shown = readers.retry.shows(grown, minted.core.retry_of(id));
        (
            IngressCellState {
                readers: minted.readers.insert(
                    id,
                    ReaderSet { retry: readers.retry.showing(shown), ..readers },
                ),
                ..minted
            },
            grown.settled(readers.retry.slot),
            shown,
        )
    }

    /// What a read of the accepted receipts shows.
    pub open spec fn accepted_shown(self, ledger: Ledger) -> Seq<IngressReceipt<Id>> {
        self.accepted.shows(ledger, self.core.receipts_on(IngressReceiptChannel::Accepted))
    }

    /// What a read of the dropped receipts shows.
    pub open spec fn dropped_shown(self, ledger: Ledger) -> Seq<IngressReceipt<Id>> {
        self.dropped.shows(ledger, self.core.receipts_on(IngressReceiptChannel::Dropped))
    }

    /// What a read of the error receipts shows.
    pub open spec fn errors_shown(self, ledger: Ledger) -> Seq<IngressReceipt<Id>> {
        self.errors.shows(ledger, self.core.receipts_on(IngressReceiptChannel::Error))
    }

    /// What a read of the schedule shows.
    pub open spec fn schedule_shown(self, ledger: Ledger) -> IngressSchedule {
        self.schedule.shows(ledger, IngressSchedule::of_kind(self.kind, self.poll_interval))
    }
}

/// A batch of envelopes admitted in arrival order, each with its own walk.
pub open spec fn batch_admitted<Id, T: View, M: MergePolicy<T>>(
    cell: IngressCellState<Id, T::V>,
    ledger: Ledger,
    batch: Seq<IngressEnvelope<Id, T::V>>,
) -> (IngressCellState<Id, T::V>, Ledger, Seq<IngressAdmission>)
    decreases batch.len(),
{
    if batch.len() == 0 {
        (cell, ledger, Seq::empty())
    } else {
        let (before, here, outcomes) = batch_admitted::<Id, T, M>(cell, ledger, batch.drop_last());
        let (core, marks, outcome) = admitted::<Id, T, M>(before.core, batch.last());
        let (after, walked) = before.over(core).applied(here, marks);
        (after, walked, outcomes.push(outcome))
    }
}

/// Whether the machine's counters have room for every envelope of a batch.
pub open spec fn batch_fits<Id, T: View, M: MergePolicy<T>>(
    cell: IngressCellState<Id, T::V>,
    ledger: Ledger,
    batch: Seq<IngressEnvelope<Id, T::V>>,
) -> bool {
    forall|i: int|
        0 <= i < batch.len() ==> {
            let core = batch_admitted::<Id, T, M>(cell, ledger, batch.take(i)).0.core;
            countable::<Id, T, M>(core, #[trigger] batch[i]) && has_room(core, batch[i].key)
        }
}

/// Keys in the order in which they first occur.
pub open spec fn first_seen<Id>(keys: Seq<Id>) -> Seq<Id>
    decreases keys.len(),
{
    if keys.len() == 0 {
        Seq::empty()
    } else {
        let shorter = first_seen(keys.drop_last());
        if shorter.contains(keys.last()) {
            shorter
        } else {
            shorter.push(keys.last())
        }
    }
}

/// The replay that a key's open gap asks for.
pub open spec fn gap_of<Id, P>(core: IngressState<Id, P>, id: Id) -> Option<ReplayRequest> {
    match core.view_of(id) {
        Some(view) => if view.buffered > 0 {
            Some(
                ReplayRequest {
                    generation: view.generation,
                    from_sequence: after_watermark(view.delivered_through) as u64,
                },
            )
        } else {
            None
        },
        None => None,
    }
}

/// The replays that some keys' gaps ask for, in order.
pub open spec fn replays_for<Id, P>(core: IngressState<Id, P>, keys: Seq<Id>) -> Seq<
    (Id, ReplayRequest),
>
    decreases keys.len(),
{
    if keys.len() == 0 {
        Seq::empty()
    } else {
        let shorter = replays_for(core, keys.drop_last());
        match gap_of(core, keys.last()) {
            Some(request) => shorter.push((keys.last(), request)),
            None => shorter,
        }
    }
}

/// What some asked replays asked for, whatever the answers.
pub open spec fn requests_in<Id>(log: Seq<(Id, ReplayRequest, bool)>) -> Seq<(Id, ReplayRequest)> {
    log.map_values(|asked: (Id, ReplayRequest, bool)| (asked.0, asked.1))
}

/// Whether a log of asked replays was continued with exactly some requests, in order and
/// once each.
pub open spec fn asks<Id>(
    before: Seq<(Id, ReplayRequest, bool)>,
    after: Seq<(Id, ReplayRequest, bool)>,
    requests: Seq<(Id, ReplayRequest)>,
) -> bool {
    &&& before.len() <= after.len()
    &&& after.take(before.len() as int) == before
    &&& requests_in(after.skip(before.len() as int)) == requests
}

/// Minting the readers of one more key leaves the roots of known keys as they were.
proof fn minting_moves_no_roots<Id, P>(
    cell: IngressCellState<Id, P>,
    ledger: Ledger,
    marks: Seq<(Id, IngressScopeChange)>,
    id: Id,
)
    requires
        forall|i: int|
            0 <= i < marks.len() ==> cell.readers.contains_key((#[trigger] marks[i]).0),
    ensures
        scope_roots(cell.with_readers(ledger, id).0.readers, marks) == scope_roots(
            cell.readers,
            marks,
        ),
    decreases marks.len(),
{
    if marks.len() > 0 {
        let last = marks[marks.len() - 1];
        assert(cell.readers.contains_key(last.0));
        assert forall|i: int| 0 <= i < marks.drop_last().len() implies cell.readers.contains_key(
            (#[trigger] marks.drop_last()[i]).0,
        ) by {
            assert(marks.drop_last()[i] == marks[i]);
        }
        minting_moves_no_roots(cell, ledger, marks.drop_last(), id);
    }
}

/// A cell stays on a ledger that only grows.
pub proof fn a_cell_stays_on_its_ledger<Id, P>(
    cell: IngressCellState<Id, P>,
    ledger: Ledger,
    later: Ledger,
)
    requires
        cell.on(ledger),
        later.extends(ledger),
    ensures
        cell.on(later),
{
    assert forall|id: Id| #[trigger] cell.readers.contains_key(id) implies cell.readers[id].on(
        later,
    ) && cell.readers[id].base() > cell.schedule.slot.index by {
        assert(cell.readers[id].on(ledger));
    }
}

/// Clearing takes no slot from a cell.
proof fn clearing_keeps_the_slots<Id, P>(
    cell: IngressCellState<Id, P>,
    ledger: Ledger,
    roots: Set<int>,
)
    requires
        cell.on(ledger),
    ensures
        cell.on(ledger.cleared(roots)),
{
    a_cell_stays_on_its_ledger(cell, ledger, ledger.cleared(roots));
}

/// Reading takes no slot from a cell.
proof fn reading_keeps_the_slots<Id, P>(
    cell: IngressCellState<Id, P>,
    after: IngressCellState<Id, P>,
    ledger: Ledger,
    slot: SlotId,
)
    requires
        cell.on(ledger),
        ledger.has(slot),
        after.accepted.slot == cell.accepted.slot,
        after.dropped.slot == cell.dropped.slot,
        after.errors.slot == cell.errors.slot,
        after.kind_slot == cell.kind_slot,
        after.interval_slot == cell.interval_slot,
        after.schedule.slot == cell.schedule.slot,
        after.readers.dom() == cell.readers.dom(),
        forall|id: Id| #[trigger]
            cell.readers.contains_key(id) ==> {
                &&& after.readers[id].value.slot == cell.readers[id].value.slot
                &&& after.readers[id].readiness.slot == cell.readers[id].readiness.slot
                &&& after.readers[id].authority.slot == cell.readers[id].authority.slot
                &&& after.readers[id].retry.slot == cell.readers[id].retry.slot
            },
    ensures
        after.on(ledger.settled(slot)),
{
    a_cell_stays_on_its_ledger(cell, ledger, ledger.settled(slot));
    assert forall|id: Id| #[trigger] after.readers.contains_key(id) implies after.readers[id].on(
        ledger.settled(slot),
    ) && after.readers[id].base() > after.schedule.slot.index by {
        assert(cell.readers.contains_key(id));
        assert(cell.readers[id].on(ledger.settled(slot)));
    }
    assert forall|id: Id, other: Id| #[trigger]
        after.readers.contains_key(id) && #[trigger] after.readers.contains_key(other) && id
            != other implies after.readers[id].base() + 4 <= after.readers[other].base()
        || after.readers[other].base() + 4 <= after.readers[id].base() by {
        assert(cell.readers.contains_key(id) && cell.readers.contains_key(other));
    }
}

/// The four memoized readers of one keyed scope.
struct ScopeReaders<T> {
    value: Memo<Maybe<T>>,
    readiness: Memo<IngressReadiness>,
    authority: Memo<Option<IngressAuthority>>,
    retry: Memo<Option<IngressRetry>>,
}

impl<T: View> View for ScopeReaders<T> {
    type V = ReaderSet<T::V>;

    closed spec fn view(&self) -> ReaderSet<T::V> {
        ReaderSet {
            value: self.value@,
            readiness: self.readiness@,
            authority: self.authority@,
            retry: self.retry@,
        }
    }
}

/// The slots of one keyed scope's readers.
#[derive(Clone, Copy)]
pub struct ScopeSlots {
    /// The value reader's slot.
    pub value: SlotId,
    /// The readiness reader's slot.
    pub readiness: SlotId,
    /// The authority reader's slot.
    pub authority: SlotId,
    /// The retry reader's slot.
    pub retry: SlotId,
}

/// A keyed, lifecycle-scoped ingress with its readers, on any context.
pub struct IngressShell<K, T, M> {
    core: IngressCore<K, T, M>,
    scopes: KeyedTable<K, ScopeReaders<T>>,
    accepted: Memo<Listing<IngressReceipt<K>>>,
    dropped: Memo<Listing<IngressReceipt<K>>>,
    errors: Memo<Listing<IngressReceipt<K>>>,
    transport_kind: SourceCell<IngressTransportKind>,
    poll_interval: SourceCell<u64>,
    schedule: Memo<IngressSchedule>,
}

impl<K: Key, T: Datum, M: MergePolicy<T>> IngressShell<K, T, M> {
    /// The cell, over key and payload views.
    pub closed spec fn state(&self) -> IngressCellState<K::V, T::V> {
        IngressCellState {
            core: self.core.state(),
            readers: self.scopes.map().map_values(|readers: ScopeReaders<T>| readers@),
            accepted: self.accepted@,
            dropped: self.dropped@,
            errors: self.errors@,
            kind: self.transport_kind.value(),
            kind_slot: self.transport_kind.slot(),
            poll_interval: self.poll_interval.value(),
            interval_slot: self.poll_interval.slot(),
            schedule: self.schedule@,
        }
    }

    /// The cell is one that the operations can reach.
    pub closed spec fn wf(&self) -> bool {
        self.core.wf() && self.scopes.wf()
    }

    /// What well-formedness says to a caller.
    pub proof fn wf_facts(&self)
        requires
            self.wf(),
        ensures
            self.state().core.wf(),
    {
        self.core.wf_facts();
    }

    /// Builds an ingress over `policy`, delivering as `kind`. The poll bound is kept
    /// even for an event channel, so that a later fallback has one.
    pub fn new<G: ReactiveGraph>(
        ctx: &mut G,
        policy: IngressPolicy,
        kind: IngressTransportKind,
        poll_interval: u64,
    ) -> (built: Result<Self, IngressConfigError>)
        requires
            old(ctx).wf(),
        ensures
            final(ctx).wf(),
            built matches Err(error) ==> final(ctx).ledger() == old(ctx).ledger()
                && if policy.overflow is Conflate && !M::conflates() {
                error == IngressConfigError::ConflateNotBounding
            } else {
                error == IngressConfigError::ZeroReceiptCapacity
            },
            built is Err <==> (policy.overflow is Conflate && !M::conflates())
                || policy.receipt_capacity == 0,
            built matches Ok(cell) ==> {
                let first = old(ctx).ledger().slots.len() as int;
                &&& cell.wf()
                &&& cell.state() == IngressCellState::<K::V, T::V>::initial(
                    policy,
                    kind,
                    poll_interval,
                    first,
                )
                &&& cell.state().on(final(ctx).ledger())
                &&& final(ctx).ledger() == old(ctx).ledger().grown(5).allocated(
                    seq![first + 3, first + 4],
                )
            },
    {
        let core = match IngressCore::<K, T, M>::new(policy) {
            Ok(core) => core,
            Err(error) => {
                return Err(error);
            },
        };
        let ghost start = ctx.ledger();
        let ghost first = start.slots.len() as int;
        proof {
            reveal_with_fuel(Ledger::grown, 6);
            assert(Seq::<SlotId>::empty().map_values(|slot: SlotId| slot.index as int)
                =~= Seq::<int>::empty());
        }
        let accepted: Memo<Listing<IngressReceipt<K>>> = Memo::new(ctx, Vec::new());
        let dropped: Memo<Listing<IngressReceipt<K>>> = Memo::new(ctx, Vec::new());
        let errors: Memo<Listing<IngressReceipt<K>>> = Memo::new(ctx, Vec::new());
        let transport_kind = SourceCell::new(ctx, kind);
        let poll_interval = SourceCell::new(ctx, poll_interval);
        let mut deps: Vec<SlotId> = Vec::new();
        deps.push(transport_kind.id());
        deps.push(poll_interval.id());
        proof {
            assert(deps@.map_values(|slot: SlotId| slot.index as int) =~= seq![
                first + 3,
                first + 4,
            ]);
            assert(ctx.ledger() == start.grown(5));
        }
        let schedule: Memo<IngressSchedule> = Memo::new(ctx, deps);
        let cell = IngressShell {
            core,
            scopes: KeyedTable::new(),
            accepted,
            dropped,
            errors,
            transport_kind,
            poll_interval,
            schedule,
        };
        proof {
            assert(cell.state().readers =~= Map::empty());
            assert(cell.state() =~= IngressCellState::<K::V, T::V>::initial(
                policy,
                kind,
                cell.poll_interval.value(),
                first,
            ));
        }
        Ok(cell)
    }

    /// The slots of a key's readers, minted where they were not. A consumer may so
    /// hold a handle for a key that has not opened yet.
    pub fn ensure_readers<G: ReactiveGraph>(&mut self, ctx: &mut G, key: &K) -> (slots: ScopeSlots)
        requires
            old(ctx).wf(),
            old(self).wf(),
            old(self).state().on(old(ctx).ledger()),
        ensures
            final(ctx).wf(),
            final(self).wf(),
            final(self).state().on(final(ctx).ledger()),
            (final(self).state(), final(ctx).ledger()) == old(self).state().with_readers(
                old(ctx).ledger(),
                key@,
            ),
            slots.value == final(self).state().readers[key@].value.slot,
            slots.readiness == final(self).state().readers[key@].readiness.slot,
            slots.authority == final(self).state().readers[key@].authority.slot,
            slots.retry == final(self).state().readers[key@].retry.slot,
    {
        match self.scopes.find(key) {
            Some(index) => {
                let readers = self.scopes.value_at(index);
                proof {
                    assert(self.state().readers[key@] == readers@);
                }
                ScopeSlots {
                    value: readers.value.id(),
                    readiness: readers.readiness.id(),
                    authority: readers.authority.id(),
                    retry: readers.retry.id(),
                }
            },
            None => {
                let ghost start = ctx.ledger();
                proof {
                    ctx.wf_facts();
                    reveal_with_fuel(Ledger::grown, 5);
                    assert(Seq::<SlotId>::empty().map_values(|slot: SlotId| slot.index as int)
                        =~= Seq::<int>::empty());
                    growing_moves_none(start, 4, self.accepted@.slot);
                }
                let readers = ScopeReaders {
                    value: Memo::new(ctx, Vec::new()),
                    readiness: Memo::new(ctx, Vec::new()),
                    authority: Memo::new(ctx, Vec::new()),
                    retry: Memo::new(ctx, Vec::new()),
                };
                let slots = ScopeSlots {
                    value: readers.value.id(),
                    readiness: readers.readiness.id(),
                    authority: readers.authority.id(),
                    retry: readers.retry.id(),
                };
                let ghost minted = readers@;
                self.scopes.push(key.duplicate(), readers);
                proof {
                    assert(minted =~= ReaderSet::<T::V>::at(start.slots.len() as int));
                    assert(ctx.ledger() == start.grown(4));
                    assert(self.state().readers =~= old(self).state().readers.insert(key@, minted));
                    assert(self.state() =~= old(self).state().with_readers(start, key@).0);
                    let after = ctx.ledger();
                    assert(after.slots.len() == start.slots.len() + 4);
                    assert(minted.on(after));
                    assert forall|id: K::V| #[trigger]
                        self.state().readers.contains_key(id) implies self.state().readers[id].on(after)
                        && self.state().readers[id].base() > self.state().schedule.slot.index by {
                        if id != key@ {
                            assert(old(self).state().readers.contains_key(id));
                        }
                    }
                    assert forall|id: K::V, other: K::V| #[trigger]
                        self.state().readers.contains_key(id)
                            && #[trigger] self.state().readers.contains_key(other) && id
                            != other implies self.state().readers[id].base() + 4
                        <= self.state().readers[other].base() || self.state().readers[other].base() + 4
                        <= self.state().readers[id].base() by {
                        if id != key@ {
                            assert(old(self).state().readers.contains_key(id));
                        }
                        if other != key@ {
                            assert(old(self).state().readers.contains_key(other));
                        }
                    }
                }
                slots
            },
        }
    }

    /// Applies one invalidation set. Every marked slot is cleared in a single walk, so
    /// no reader observes a partial fan-out.
    fn apply<G: ReactiveGraph>(&mut self, ctx: &mut G, change: IngressChange<K>)
        requires
            old(ctx).wf(),
            old(self).wf(),
            old(self).state().on(old(ctx).ledger()),
        ensures
            final(ctx).wf(),
            final(self).wf(),
            final(self).state().on(final(ctx).ledger()),
            (final(self).state(), final(ctx).ledger()) == old(self).state().applied(
                old(ctx).ledger(),
                change@,
            ),
    {
        let ghost start = self.state();
        let ghost ledger = ctx.ledger();
        let ghost marks = change@.scopes;
        let mut roots: Vec<SlotId> = Vec::new();
        let mut index: usize = 0;
        proof {
            positions_empty(roots@);
            assert(marks.take(0) =~= Seq::empty());
        }
        while index < change.scopes.len()
            invariant
                ctx.wf(),
                self.wf(),
                self.state().on(ctx.ledger()),
                marks == change@.scopes,
                index <= change.scopes@.len(),
                (self.state(), ctx.ledger()) == start.with_marked(ledger, marks.take(index as int)),
                forall|i: int|
                    0 <= i < index ==> self.state().readers.contains_key((#[trigger] marks[i]).0),
                positions(roots@) == scope_roots(self.state().readers, marks.take(index as int)),
                forall|i: int| 0 <= i < roots@.len() ==> ctx.ledger().has(#[trigger] roots@[i]),
            decreases change.scopes@.len() - index,
        {
            let ghost before = self.state();
            let ghost here = ctx.ledger();
            let mark = change.scopes[index].1;
            let slots = self.ensure_readers(ctx, &change.scopes[index].0);
            proof {
                let shorter = marks.take(index as int);
                let longer = marks.take(index + 1);
                assert(longer.drop_last() =~= shorter);
                assert(longer.last() == marks[index as int]);
                assert(marks[index as int] == (change.scopes@[index as int].0@, mark));
                assert forall|i: int| 0 <= i < shorter.len() implies before.readers.contains_key(
                    (#[trigger] shorter[i]).0,
                ) by {
                    assert(shorter[i] == marks[i]);
                }
                minting_moves_no_roots(before, here, shorter, marks[index as int].0);
                let id = marks[index as int].0;
                assert(self.state().readers.contains_key(id));
                assert(self.state().readers[id].on(ctx.ledger()));
                assert forall|i: int| 0 <= i < roots@.len() implies ctx.ledger().has(
                    #[trigger] roots@[i],
                ) by {
                    assert(here.has(roots@[i]));
                    ctx.wf_facts();
                    assert(ctx.ledger().slots.len() >= here.slots.len()) by {
                        reveal_with_fuel(Ledger::grown, 5);
                    }
                }
            }
            push_root(&mut roots, mark.value, slots.value);
            push_root(&mut roots, mark.readiness, slots.readiness);
            push_root(&mut roots, mark.authority, slots.authority);
            push_root(&mut roots, mark.retry, slots.retry);
            index = index + 1;
        }
        proof {
            assert(marks.take(index as int) =~= marks);
        }
        push_root(&mut roots, change.accepted_receipts, self.accepted.id());
        push_root(&mut roots, change.dropped_receipts, self.dropped.id());
        push_root(&mut roots, change.error_receipts, self.errors.id());
        let ghost grown = ctx.ledger();
        ctx.clear_slots(&roots);
        proof {
            clearing_keeps_the_slots(self.state(), grown, positions(roots@));
        }
    }

    /// Opens (or reopens) a keyed scope at `generation`.
    pub fn open<G: ReactiveGraph>(&mut self, ctx: &mut G, key: K, generation: u64)
        requires
            old(ctx).wf(),
            old(self).wf(),
            old(self).state().on(old(ctx).ledger()),
        ensures
            final(ctx).wf(),
            final(self).wf(),
            final(self).state().on(final(ctx).ledger()),
            ({
                let (core, marks) = old(self).state().core.opened(key@, generation);
                (final(self).state(), final(ctx).ledger()) == old(self).state().over(core).applied(
                    old(ctx).ledger(),
                    marks,
                )
            }),
    {
        let change = self.core.open(key, generation);
        proof {
            assert(self.state() =~= old(self).state().over(self.core.state()));
        }
        self.apply(ctx, change);
    }

    /// Admits one decoded envelope.
    pub fn admit_envelope<G: ReactiveGraph>(
        &mut self,
        ctx: &mut G,
        envelope: IngressEnvelope<K, T>,
    ) -> (admission: IngressAdmission)
        requires
            old(ctx).wf(),
            old(self).wf(),
            old(self).state().on(old(ctx).ledger()),
            countable::<K::V, T, M>(old(self).state().core, envelope@),
            has_room(old(self).state().core, envelope.key@),
        ensures
            final(ctx).wf(),
            final(self).wf(),
            final(self).state().on(final(ctx).ledger()),
            ({
                let (core, marks, outcome) = admitted::<K::V, T, M>(
                    old(self).state().core,
                    envelope@,
                );
                &&& (final(self).state(), final(ctx).ledger()) == old(self).state().over(
                    core,
                ).applied(old(ctx).ledger(), marks)
                &&& admission == outcome
            }),
    {
        let (change, admission) = self.core.admit_envelope(envelope);
        proof {
            assert(self.state() =~= old(self).state().over(self.core.state()));
        }
        self.apply(ctx, change);
        admission
    }

    /// Suspends a scope, keeping its watermark. Returns the replay request that a
    /// reconnect will need.
    pub fn suspend<G: ReactiveGraph>(&mut self, ctx: &mut G, key: &K) -> (request: Option<
        ReplayRequest,
    >)
        requires
            old(ctx).wf(),
            old(self).wf(),
            old(self).state().on(old(ctx).ledger()),
        ensures
            final(ctx).wf(),
            final(self).wf(),
            final(self).state().on(final(ctx).ledger()),
            ({
                let (core, marks, owed) = old(self).state().core.suspended(key@);
                &&& (final(self).state(), final(ctx).ledger()) == old(self).state().over(
                    core,
                ).applied(old(ctx).ledger(), marks)
                &&& request == owed
            }),
    {
        let (change, request) = self.core.suspend(key);
        proof {
            assert(self.state() =~= old(self).state().over(self.core.state()));
        }
        self.apply(ctx, change);
        request
    }

    /// Reconnects a scope at `generation`, clearing its error streak.
    pub fn reconnect<G: ReactiveGraph>(
        &mut self,
        ctx: &mut G,
        key: &K,
        generation: u64,
    ) -> (request: ReplayRequest)
        requires
            old(ctx).wf(),
            old(self).wf(),
            old(self).state().on(old(ctx).ledger()),
        ensures
            final(ctx).wf(),
            final(self).wf(),
            final(self).state().on(final(ctx).ledger()),
            ({
                let (core, marks, owed) = old(self).state().core.reconnected(key@, generation);
                &&& (final(self).state(), final(ctx).ledger()) == old(self).state().over(
                    core,
                ).applied(old(ctx).ledger(), marks)
                &&& request == owed
            }),
    {
        let (change, request) = self.core.reconnect(key, generation);
        proof {
            assert(self.state() =~= old(self).state().over(self.core.state()));
        }
        self.apply(ctx, change);
        request
    }

    /// Closes a scope. It admits nothing and claims no authority until reopened.
    pub fn close<G: ReactiveGraph>(&mut self, ctx: &mut G, key: &K)
        requires
            old(ctx).wf(),
            old(self).wf(),
            old(self).state().on(old(ctx).ledger()),
        ensures
            final(ctx).wf(),
            final(self).wf(),
            final(self).state().on(final(ctx).ledger()),
            ({
                let (core, marks) = old(self).state().core.closed(key@);
                (final(self).state(), final(ctx).ledger()) == old(self).state().over(core).applied(
                    old(ctx).ledger(),
                    marks,
                )
            }),
    {
        let change = self.core.close(key);
        proof {
            assert(self.state() =~= old(self).state().over(self.core.state()));
        }
        self.apply(ctx, change);
    }

    /// Records a transport or decode failure, deepening the scope's backoff.
    pub fn fail<G: ReactiveGraph>(&mut self, ctx: &mut G, key: &K, error: IngressError)
        requires
            old(ctx).wf(),
            old(self).wf(),
            old(self).state().on(old(ctx).ledger()),
            old(self).state().core.next_receipt_offset < u64::MAX,
        ensures
            final(ctx).wf(),
            final(self).wf(),
            final(self).state().on(final(ctx).ledger()),
            ({
                let (core, marks) = old(self).state().core.failed(key@, error);
                (final(self).state(), final(ctx).ledger()) == old(self).state().over(core).applied(
                    old(ctx).ledger(),
                    marks,
                )
            }),
    {
        let change = self.core.fail(key, error);
        proof {
            assert(self.state() =~= old(self).state().over(self.core.state()));
        }
        self.apply(ctx, change);
    }

    /// Advances logical time. Only scopes that crossed the freshness horizon are
    /// invalidated.
    pub fn tick<G: ReactiveGraph>(&mut self, ctx: &mut G, now: u64)
        requires
            old(ctx).wf(),
            old(self).wf(),
            old(self).state().on(old(ctx).ledger()),
        ensures
            final(ctx).wf(),
            final(self).wf(),
            final(self).state().on(final(ctx).ledger()),
            ({
                let (core, marks) = old(self).state().core.ticked(now);
                (final(self).state(), final(ctx).ledger()) == old(self).state().over(core).applied(
                    old(ctx).ledger(),
                    marks,
                )
            }),
    {
        let change = self.core.tick(now);
        proof {
            assert(self.state() =~= old(self).state().over(self.core.state()));
        }
        self.apply(ctx, change);
    }

    /// Drains a scope's coalesced window.
    pub fn drain<G: ReactiveGraph>(&mut self, ctx: &mut G, key: &K) -> (value: Option<T>)
        requires
            old(ctx).wf(),
            old(self).wf(),
            old(self).state().on(old(ctx).ledger()),
        ensures
            final(ctx).wf(),
            final(self).wf(),
            final(self).state().on(final(ctx).ledger()),
            ({
                let (core, marks, window) = old(self).state().core.drained(key@);
                &&& (final(self).state(), final(ctx).ledger()) == old(self).state().over(
                    core,
                ).applied(old(ctx).ledger(), marks)
                &&& option_view(value) == window
            }),
    {
        let (change, value) = self.core.drain(key);
        proof {
            assert(self.state() =~= old(self).state().over(self.core.state()));
        }
        self.apply(ctx, change);
        value
    }

    /// Admits a batch in arrival order. Returns the outcomes, and the batch's keys in
    /// the order in which they first occur.
    pub fn admit_batch<G: ReactiveGraph>(
        &mut self,
        ctx: &mut G,
        batch: Vec<IngressEnvelope<K, T>>,
    ) -> (admitted: (Vec<IngressAdmission>, Vec<K>))
        requires
            old(ctx).wf(),
            old(self).wf(),
            old(self).state().on(old(ctx).ledger()),
            batch_fits::<K::V, T, M>(
                old(self).state(),
                old(ctx).ledger(),
                batch@.map_values(|envelope: IngressEnvelope<K, T>| envelope@),
            ),
        ensures
            final(ctx).wf(),
            final(self).wf(),
            final(self).state().on(final(ctx).ledger()),
            (final(self).state(), final(ctx).ledger(), admitted.0@) == batch_admitted::<K::V, T, M>(
                old(self).state(),
                old(ctx).ledger(),
                batch@.map_values(|envelope: IngressEnvelope<K, T>| envelope@),
            ),
            admitted.1@.map_values(|key: K| key@) == first_seen(
                batch@.map_values(|envelope: IngressEnvelope<K, T>| envelope.key@),
            ),
    {
        let ghost arrived = batch@.map_values(|envelope: IngressEnvelope<K, T>| envelope@);
        let ghost keys = batch@.map_values(|envelope: IngressEnvelope<K, T>| envelope.key@);
        let ghost start = self.state();
        let ghost ledger = ctx.ledger();
        let mut outcomes: Vec<IngressAdmission> = Vec::new();
        let mut touched: Vec<K> = Vec::new();
        proof {
            assert(arrived.take(0) =~= Seq::empty());
            assert(keys.take(0) =~= Seq::empty());
            assert(touched@.map_values(|key: K| key@) =~= Seq::empty());
            assert(outcomes@ =~= Seq::empty());
        }
        let ghost items = batch@;
        for envelope in iter: batch
            invariant
                iter.seq() == items,
                arrived == items.map_values(|envelope: IngressEnvelope<K, T>| envelope@),
                keys == items.map_values(|envelope: IngressEnvelope<K, T>| envelope.key@),
                ctx.wf(),
                self.wf(),
                self.state().on(ctx.ledger()),
                batch_fits::<K::V, T, M>(start, ledger, arrived),
                (self.state(), ctx.ledger(), outcomes@) == batch_admitted::<K::V, T, M>(
                    start,
                    ledger,
                    arrived.take(iter.index() as int),
                ),
                touched@.map_values(|key: K| key@) == first_seen(keys.take(iter.index() as int)),
        {
            let ghost at = iter.index() as int;
            proof {
                assert(arrived[at] == envelope@);
                assert(keys[at] == envelope.key@);
                let longer = arrived.take(at + 1);
                assert(longer.drop_last() =~= arrived.take(at));
                assert(longer.last() == arrived[at]);
                let names = keys.take(at + 1);
                assert(names.drop_last() =~= keys.take(at));
                assert(names.last() == keys[at]);
            }
            let key = envelope.key.duplicate();
            outcomes.push(self.admit_envelope(ctx, envelope));
            let known = holds(&touched, &key);
            if !known {
                let ghost before = touched@;
                touched.push(key);
                proof {
                    assert(touched@.map_values(|key: K| key@) =~= before.map_values(
                        |key: K| key@,
                    ).push(key@));
                }
            }
        }
        proof {
            assert(arrived.take(items.len() as int) =~= arrived);
            assert(keys.take(items.len() as int) =~= keys);
        }
        (outcomes, touched)
    }

    /// The replay that a scope's open gap asks for.
    fn gap(&self, key: &K) -> (request: Option<ReplayRequest>)
        requires
            self.wf(),
        ensures
            request == gap_of(self.state().core, key@),
    {
        proof {
            self.core.wf_facts();
            let known = self.core.state();
            assert(known.scopes.contains_key(key@) ==> known.scopes[key@].wf(known.policy));
        }
        match self.core.view(key) {
            Some(view) => {
                if view.has_gap() {
                    Some(
                        ReplayRequest {
                            generation: view.generation,
                            from_sequence: view.resume_from(),
                        },
                    )
                } else {
                    None
                }
            },
            None => None,
        }
    }

    /// Admits everything that `transport` has decoded, then asks it to replay any gap
    /// still open. Returns the admission outcomes in arrival order.
    ///
    /// This is the only method that touches a transport, and it makes no decision of
    /// its own: the gap it replays is the one that the plane reports.
    pub fn pump<G: ReactiveGraph, Tr: IngressTransport<K, T>>(
        &mut self,
        ctx: &mut G,
        transport: &mut Tr,
    ) -> (outcomes: Vec<IngressAdmission>)
        requires
            old(ctx).wf(),
            old(self).wf(),
            old(self).state().on(old(ctx).ledger()),
            batch_fits::<K::V, T, M>(
                old(self).state(),
                old(ctx).ledger(),
                old(transport).decoded().map_values(
                    |envelope: IngressEnvelope<K, T>| envelope@,
                ),
            ),
        ensures
            final(ctx).wf(),
            final(self).wf(),
            final(self).state().on(final(ctx).ledger()),
            (final(self).state(), final(ctx).ledger(), outcomes@) == batch_admitted::<K::V, T, M>(
                old(self).state(),
                old(ctx).ledger(),
                old(transport).decoded().map_values(
                    |envelope: IngressEnvelope<K, T>| envelope@,
                ),
            ),
            asks(
                old(transport).asked(),
                final(transport).asked(),
                replays_for(
                    final(self).state().core,
                    first_seen(
                        old(transport).decoded().map_values(
                            |envelope: IngressEnvelope<K, T>| envelope.key@,
                        ),
                    ),
                ),
            ),
    {
        let batch = transport.drain();
        let (outcomes, touched) = self.admit_batch(ctx, batch);
        let ghost core = self.state().core;
        let ghost keys = touched@.map_values(|key: K| key@);
        let ghost start = transport.asked();
        let mut index: usize = 0;
        proof {
            assert(keys.take(0) =~= Seq::empty());
            assert(start.take(start.len() as int) =~= start);
            assert(requests_in(start.skip(start.len() as int)) =~= Seq::empty());
        }
        while index < touched.len()
            invariant
                self.wf(),
                core == self.state().core,
                keys == touched@.map_values(|key: K| key@),
                index <= touched@.len(),
                asks(start, transport.asked(), replays_for(core, keys.take(index as int))),
            decreases touched@.len() - index,
        {
            let ghost so_far = transport.asked();
            proof {
                let longer = keys.take(index + 1);
                assert(longer.drop_last() =~= keys.take(index as int));
                assert(longer.last() == touched@[index as int]@);
            }
            match self.gap(&touched[index]) {
                Some(request) => {
                    let carried = transport.request_replay(&touched[index], request);
                    proof {
                        let entry = (touched@[index as int]@, request, carried);
                        let tail = so_far.skip(start.len() as int);
                        assert(so_far.push(entry).take(start.len() as int) =~= so_far.take(
                            start.len() as int,
                        ));
                        assert(so_far.push(entry).skip(start.len() as int) =~= tail.push(entry));
                        assert(requests_in(tail.push(entry)) =~= requests_in(tail).push(
                            (entry.0, entry.1),
                        ));
                    }
                },
                None => {},
            }
            index = index + 1;
        }
        proof {
            assert(keys.take(index as int) =~= keys);
        }
        outcomes
    }

    /// Reads the coalesced window awaiting drain.
    pub fn value<G: ReactiveGraph>(&mut self, ctx: &mut G, key: &K) -> (value: Option<T>)
        requires
            old(ctx).wf(),
            old(self).wf(),
            old(self).state().on(old(ctx).ledger()),
        ensures
            final(ctx).wf(),
            final(self).wf(),
            final(self).state().on(final(ctx).ledger()),
            (final(self).state(), final(ctx).ledger(), option_view(value))
                == old(self).state().value_read(old(ctx).ledger(), key@),
    {
        let _slots = self.ensure_readers(ctx, key);
        let ghost minted = self.state();
        let ghost grown = ctx.ledger();
        let index = self.position(key);
        let ghost id = key@;
        proof {
            assert(minted.readers.contains_key(id));
        }
        match self.scopes.value_at(index).value.cached(ctx) {
            Some(shown) => {
                proof {
                    let readers = minted.readers[id];
                    assert(shown@ == readers.value.shows(grown, minted.core.value_of(id)));
                    assert(minted.readers.insert(
                        id,
                        ReaderSet { value: readers.value.showing(shown@), ..readers },
                    ) =~= minted.readers);
                    assert(self.state() =~= minted.value_read(grown, id).0);
                }
                shown.inner
            },
            None => {
                let derived = Maybe { inner: self.core.peek(key) };
                let shown = self.scopes.value_at_mut(index).value.store(ctx, derived);
                proof {
                    let readers = minted.readers[id];
                    assert(self.state().readers =~= minted.readers.insert(
                        id,
                        ReaderSet { value: readers.value.showing(shown@), ..readers },
                    ));
                    assert(self.state() =~= minted.value_read(grown, id).0);
                    reading_keeps_the_slots(minted, self.state(), grown, readers.value.slot);
                }
                shown.inner
            },
        }
    }
    /// Reads derived readiness.
    pub fn readiness<G: ReactiveGraph>(
        &mut self,
        ctx: &mut G,
        key: &K,
    ) -> (readiness: IngressReadiness)
        requires
            old(ctx).wf(),
            old(self).wf(),
            old(self).state().on(old(ctx).ledger()),
        ensures
            final(ctx).wf(),
            final(self).wf(),
            final(self).state().on(final(ctx).ledger()),
            (final(self).state(), final(ctx).ledger(), readiness)
                == old(self).state().readiness_read(old(ctx).ledger(), key@),
    {
        let _slots = self.ensure_readers(ctx, key);
        let ghost minted = self.state();
        let ghost grown = ctx.ledger();
        let index = self.position(key);
        let ghost id = key@;
        proof {
            assert(minted.readers.contains_key(id));
        }
        match self.scopes.value_at(index).readiness.cached(ctx) {
            Some(shown) => {
                proof {
                    let readers = minted.readers[id];
                    assert(shown == readers.readiness.shows(grown, minted.core.readiness_of(id)));
                    assert(minted.readers.insert(
                        id,
                        ReaderSet { readiness: readers.readiness.showing(shown), ..readers },
                    ) =~= minted.readers);
                    assert(self.state() =~= minted.readiness_read(grown, id).0);
                }
                shown
            },
            None => {
                let derived = self.core.readiness(key);
                let shown = self.scopes.value_at_mut(index).readiness.store(ctx, derived);
                proof {
                    let readers = minted.readers[id];
                    assert(self.state().readers =~= minted.readers.insert(
                        id,
                        ReaderSet { readiness: readers.readiness.showing(shown), ..readers },
                    ));
                    assert(self.state() =~= minted.readiness_read(grown, id).0);
                    reading_keeps_the_slots(minted, self.state(), grown, readers.readiness.slot);
                }
                shown
            },
        }
    }
    /// Reads derived authority.
    pub fn authority<G: ReactiveGraph>(
        &mut self,
        ctx: &mut G,
        key: &K,
    ) -> (authority: Option<IngressAuthority>)
        requires
            old(ctx).wf(),
            old(self).wf(),
            old(self).state().on(old(ctx).ledger()),
        ensures
            final(ctx).wf(),
            final(self).wf(),
            final(self).state().on(final(ctx).ledger()),
            (final(self).state(), final(ctx).ledger(), authority)
                == old(self).state().authority_read(old(ctx).ledger(), key@),
    {
        let _slots = self.ensure_readers(ctx, key);
        let ghost minted = self.state();
        let ghost grown = ctx.ledger();
        let index = self.position(key);
        let ghost id = key@;
        proof {
            assert(minted.readers.contains_key(id));
        }
        match self.scopes.value_at(index).authority.cached(ctx) {
            Some(shown) => {
                proof {
                    let readers = minted.readers[id];
                    assert(shown == readers.authority.shows(grown, minted.core.authority_of(id)));
                    assert(minted.readers.insert(
                        id,
                        ReaderSet { authority: readers.authority.showing(shown), ..readers },
                    ) =~= minted.readers);
                    assert(self.state() =~= minted.authority_read(grown, id).0);
                }
                shown
            },
            None => {
                let derived = self.core.authority(key);
                let shown = self.scopes.value_at_mut(index).authority.store(ctx, derived);
                proof {
                    let readers = minted.readers[id];
                    assert(self.state().readers =~= minted.readers.insert(
                        id,
                        ReaderSet { authority: readers.authority.showing(shown), ..readers },
                    ));
                    assert(self.state() =~= minted.authority_read(grown, id).0);
                    reading_keeps_the_slots(minted, self.state(), grown, readers.authority.slot);
                }
                shown
            },
        }
    }
    /// Reads the derived retry decision.
    pub fn retry<G: ReactiveGraph>(&mut self, ctx: &mut G, key: &K) -> (retry: Option<IngressRetry>)
        requires
            old(ctx).wf(),
            old(self).wf(),
            old(self).state().on(old(ctx).ledger()),
        ensures
            final(ctx).wf(),
            final(self).wf(),
            final(self).state().on(final(ctx).ledger()),
            (final(self).state(), final(ctx).ledger(), retry)
                == old(self).state().retry_read(old(ctx).ledger(), key@),
    {
        let _slots = self.ensure_readers(ctx, key);
        let ghost minted = self.state();
        let ghost grown = ctx.ledger();
        let index = self.position(key);
        let ghost id = key@;
        proof {
            assert(minted.readers.contains_key(id));
        }
        match self.scopes.value_at(index).retry.cached(ctx) {
            Some(shown) => {
                proof {
                    let readers = minted.readers[id];
                    assert(shown == readers.retry.shows(grown, minted.core.retry_of(id)));
                    assert(minted.readers.insert(
                        id,
                        ReaderSet { retry: readers.retry.showing(shown), ..readers },
                    ) =~= minted.readers);
                    assert(self.state() =~= minted.retry_read(grown, id).0);
                }
                shown
            },
            None => {
                let derived = self.core.retry(key);
                let shown = self.scopes.value_at_mut(index).retry.store(ctx, derived);
                proof {
                    let readers = minted.readers[id];
                    assert(self.state().readers =~= minted.readers.insert(
                        id,
                        ReaderSet { retry: readers.retry.showing(shown), ..readers },
                    ));
                    assert(self.state() =~= minted.retry_read(grown, id).0);
                    reading_keeps_the_slots(minted, self.state(), grown, readers.retry.slot);
                }
                shown
            },
        }
    }

    /// Where a key's readers stand.
    fn position(&self, key: &K) -> (index: usize)
        requires
            self.wf(),
            self.state().readers.contains_key(key@),
        ensures
            index < self.scopes.ids().len(),
            self.scopes.ids()[index as int] == key@,
            self.scopes.map().contains_key(key@),
            self.scopes.map()[key@]@ == self.state().readers[key@],
    {
        match self.scopes.find(key) {
            Some(index) => index,
            None => {
                proof {
                    assert(self.scopes.map().contains_key(key@));
                }
                0
            },
        }
    }

    /// Reads the accepted receipts, oldest first.
    pub fn accepted<G: ReactiveGraph>(&mut self, ctx: &mut G) -> (receipts: Vec<IngressReceipt<K>>)
        requires
            old(ctx).wf(),
            old(self).wf(),
            old(self).state().on(old(ctx).ledger()),
        ensures
            final(ctx).wf(),
            final(self).wf(),
            final(self).state().on(final(ctx).ledger()),
            ({
                let shown = old(self).state().accepted_shown(old(ctx).ledger());
                &&& receipts@.map_values(|receipt: IngressReceipt<K>| receipt@) == shown
                &&& final(self).state() == (IngressCellState {
                    accepted: old(self).state().accepted.showing(shown),
                    ..old(self).state()
                })
                &&& final(ctx).ledger() == old(ctx).ledger().settled(
                    old(self).state().accepted.slot,
                )
            }),
    {
        let ghost start = self.state();
        let ghost ledger = ctx.ledger();
        match self.accepted.cached(ctx) {
            Some(shown) => {
                proof {
                    assert(shown@ == start.accepted.shows(
                        ledger,
                        start.core.receipts_on(IngressReceiptChannel::Accepted),
                    ));
                    assert(start =~= IngressCellState {
                        accepted: start.accepted.showing(shown@),
                        ..start
                    });
                }
                shown.items
            },
            None => {
                let derived = Listing { items: self.core.receipts(IngressReceiptChannel::Accepted) };
                let shown = self.accepted.store(ctx, derived);
                proof {
                    assert(self.state() =~= IngressCellState {
                        accepted: start.accepted.showing(shown@),
                        ..start
                    });
                    reading_keeps_the_slots(start, self.state(), ledger, start.accepted.slot);
                }
                shown.items
            },
        }
    }

    /// The slot of the reader of the accepted receipts.
    pub fn accepted_slot(&self) -> (slot: SlotId)
        ensures
            slot == self.state().accepted.slot,
    {
        self.accepted.id()
    }

    /// Reads the dropped receipts, oldest first.
    pub fn dropped<G: ReactiveGraph>(&mut self, ctx: &mut G) -> (receipts: Vec<IngressReceipt<K>>)
        requires
            old(ctx).wf(),
            old(self).wf(),
            old(self).state().on(old(ctx).ledger()),
        ensures
            final(ctx).wf(),
            final(self).wf(),
            final(self).state().on(final(ctx).ledger()),
            ({
                let shown = old(self).state().dropped_shown(old(ctx).ledger());
                &&& receipts@.map_values(|receipt: IngressReceipt<K>| receipt@) == shown
                &&& final(self).state() == (IngressCellState {
                    dropped: old(self).state().dropped.showing(shown),
                    ..old(self).state()
                })
                &&& final(ctx).ledger() == old(ctx).ledger().settled(old(self).state().dropped.slot)
            }),
    {
        let ghost start = self.state();
        let ghost ledger = ctx.ledger();
        match self.dropped.cached(ctx) {
            Some(shown) => {
                proof {
                    assert(shown@ == start.dropped.shows(
                        ledger,
                        start.core.receipts_on(IngressReceiptChannel::Dropped),
                    ));
                    assert(start =~= IngressCellState {
                        dropped: start.dropped.showing(shown@),
                        ..start
                    });
                }
                shown.items
            },
            None => {
                let derived = Listing { items: self.core.receipts(IngressReceiptChannel::Dropped) };
                let shown = self.dropped.store(ctx, derived);
                proof {
                    assert(self.state() =~= IngressCellState {
                        dropped: start.dropped.showing(shown@),
                        ..start
                    });
                    reading_keeps_the_slots(start, self.state(), ledger, start.dropped.slot);
                }
                shown.items
            },
        }
    }

    /// The slot of the reader of the dropped receipts.
    pub fn dropped_slot(&self) -> (slot: SlotId)
        ensures
            slot == self.state().dropped.slot,
    {
        self.dropped.id()
    }

    /// Reads the error receipts, oldest first.
    pub fn errors<G: ReactiveGraph>(&mut self, ctx: &mut G) -> (receipts: Vec<IngressReceipt<K>>)
        requires
            old(ctx).wf(),
            old(self).wf(),
            old(self).state().on(old(ctx).ledger()),
        ensures
            final(ctx).wf(),
            final(self).wf(),
            final(self).state().on(final(ctx).ledger()),
            ({
                let shown = old(self).state().errors_shown(old(ctx).ledger());
                &&& receipts@.map_values(|receipt: IngressReceipt<K>| receipt@) == shown
                &&& final(self).state() == (IngressCellState {
                    errors: old(self).state().errors.showing(shown),
                    ..old(self).state()
                })
                &&& final(ctx).ledger() == old(ctx).ledger().settled(old(self).state().errors.slot)
            }),
    {
        let ghost start = self.state();
        let ghost ledger = ctx.ledger();
        match self.errors.cached(ctx) {
            Some(shown) => {
                proof {
                    assert(shown@ == start.errors.shows(
                        ledger,
                        start.core.receipts_on(IngressReceiptChannel::Error),
                    ));
                    assert(start =~= IngressCellState {
                        errors: start.errors.showing(shown@),
                        ..start
                    });
                }
                shown.items
            },
            None => {
                let derived = Listing { items: self.core.receipts(IngressReceiptChannel::Error) };
                let shown = self.errors.store(ctx, derived);
                proof {
                    assert(self.state() =~= IngressCellState {
                        errors: start.errors.showing(shown@),
                        ..start
                    });
                    reading_keeps_the_slots(start, self.state(), ledger, start.errors.slot);
                }
                shown.items
            },
        }
    }

    /// The slot of the reader of the error receipts.
    pub fn errors_slot(&self) -> (slot: SlotId)
        ensures
            slot == self.state().errors.slot,
    {
        self.errors.id()
    }

    /// Reads the derived delivery schedule.
    pub fn schedule<G: ReactiveGraph>(&mut self, ctx: &mut G) -> (schedule: IngressSchedule)
        requires
            old(ctx).wf(),
            old(self).wf(),
            old(self).state().on(old(ctx).ledger()),
        ensures
            final(ctx).wf(),
            final(self).wf(),
            final(self).state().on(final(ctx).ledger()),
            schedule == old(self).state().schedule_shown(old(ctx).ledger()),
            final(self).state() == (IngressCellState {
                schedule: old(self).state().schedule.showing(schedule),
                ..old(self).state()
            }),
            final(ctx).ledger() == old(ctx).ledger().settled(old(self).state().schedule.slot),
    {
        let ghost start = self.state();
        let ghost ledger = ctx.ledger();
        match self.schedule.cached(ctx) {
            Some(shown) => {
                proof {
                    assert(shown == start.schedule.shows(
                        ledger,
                        IngressSchedule::of_kind(start.kind, start.poll_interval),
                    ));
                    assert(start =~= IngressCellState {
                        schedule: start.schedule.showing(shown),
                        ..start
                    });
                }
                shown
            },
            None => {
                let derived = IngressSchedule::for_kind(
                    *self.transport_kind.get(),
                    *self.poll_interval.get(),
                );
                let shown = self.schedule.store(ctx, derived);
                proof {
                    assert(self.state() =~= IngressCellState {
                        schedule: start.schedule.showing(shown),
                        ..start
                    });
                    reading_keeps_the_slots(start, self.state(), ledger, start.schedule.slot);
                }
                shown
            },
        }
    }

    /// The slot of the schedule reader.
    pub fn schedule_slot(&self) -> (slot: SlotId)
        ensures
            slot == self.state().schedule.slot,
    {
        self.schedule.id()
    }

    /// Retunes the transport live: falling back from an event channel to bounded polling
    /// is a write, so every dependent of the schedule reacts.
    pub fn set_transport<G: ReactiveGraph>(&mut self, ctx: &mut G, kind: IngressTransportKind)
        requires
            old(ctx).wf(),
            old(self).wf(),
            old(self).state().on(old(ctx).ledger()),
        ensures
            final(ctx).wf(),
            final(self).wf(),
            final(self).state().on(final(ctx).ledger()),
            final(self).state() == (IngressCellState { kind, ..old(self).state() }),
            final(ctx).ledger() == if kind == old(self).state().kind {
                old(ctx).ledger()
            } else {
                old(ctx).ledger().cleared(
                    Set::<int>::empty().insert(old(self).state().kind_slot.index as int),
                )
            },
    {
        let ghost roots = Set::<int>::empty().insert(self.transport_kind.slot().index as int);
        let ghost ledger = ctx.ledger();
        self.transport_kind.set(ctx, kind);
        proof {
            assert(self.state() =~= IngressCellState { kind, ..old(self).state() });
            clearing_keeps_the_slots(self.state(), ledger, roots);
        }
    }

    /// Retunes the poll bound live.
    pub fn set_poll_interval<G: ReactiveGraph>(&mut self, ctx: &mut G, interval: u64)
        requires
            old(ctx).wf(),
            old(self).wf(),
            old(self).state().on(old(ctx).ledger()),
        ensures
            final(ctx).wf(),
            final(self).wf(),
            final(self).state().on(final(ctx).ledger()),
            final(self).state() == (IngressCellState { poll_interval: interval, ..old(self).state() }),
            final(ctx).ledger() == if interval == old(self).state().poll_interval {
                old(ctx).ledger()
            } else {
                old(ctx).ledger().cleared(
                    Set::<int>::empty().insert(old(self).state().interval_slot.index as int),
                )
            },
    {
        let ghost roots = Set::<int>::empty().insert(self.poll_interval.slot().index as int);
        let ghost ledger = ctx.ledger();
        self.poll_interval.set(ctx, interval);
        proof {
            assert(self.state() =~= IngressCellState { poll_interval: interval, ..old(self).state() });
            clearing_keeps_the_slots(self.state(), ledger, roots);
        }
    }

    /// Projection of a scope, for assertions and diagnostics. Reads no reader.
    pub fn view(&self, key: &K) -> (view: Option<ScopeView>)
        requires
            self.wf(),
        ensures
            view == self.state().core.view_of(key@),
    {
        self.core.view(key)
    }

    /// The bounds in force.
    pub fn policy(&self) -> (policy: IngressPolicy)
        ensures
            policy == self.state().core.policy,
    {
        self.core.policy()
    }

    /// Every known scope key.
    pub fn scope_keys(&self) -> (keys: Vec<K>)
        ensures
            keys@.map_values(|key: K| key@) == self.state().core.keys,
    {
        self.core.scope_keys()
    }
}

} // verus!
