//! The graph-agnostic admission algebra behind every ingress cell.
//!
//! Keyed lifecycle scopes, an admission algebra and a bounded receipt log. Every
//! mutator returns the reader kinds that the transition dirtied; clearing them is
//! the work of the cell.

use std::marker::PhantomData;

use vstd::prelude::*;

use crate::ingress_model::{
    Decision, IngressState, ScopeState, absorbed, admitted, countable, decided, delivered, flushed,
    has_room, met, reset_change, ruling, scope_has_room,
};
use crate::ingress_types::{
    IngressAdmission, IngressAuthority, IngressChange, IngressConfigError, IngressDropReason,
    IngressEnvelope, IngressError, IngressLifecycle, IngressMarks, IngressPolicy, IngressReadiness,
    IngressReceipt, IngressReceiptChannel, IngressReceiptOutcome, IngressRetry, IngressScopeChange,
    ReplayRequest, ScopeView, after_watermark,
};
use crate::merge::MergePolicy;
use crate::relay::Overflow;
use crate::sorted::SortedTable;
use crate::table::KeyedTable;
use crate::value::{Key, Datum};

verus! {

/// One keyed scope.
struct Scope<T> {
    lifecycle: IngressLifecycle,
    generation: u64,
    delivered_through: Option<u64>,
    stamped_at: u64,
    pending: SortedTable<u64, (T, u64)>,
    window: Option<T>,
    window_depth: u64,
    consecutive_errors: u32,
}

/// An optional payload, over views.
pub open spec fn option_view<T: View>(value: Option<T>) -> Option<T::V> {
    match value {
        Some(inner) => Some(inner@),
        None => None,
    }
}

impl<T: View> View for Scope<T> {
    type V = ScopeState<T::V>;

    closed spec fn view(&self) -> ScopeState<T::V> {
        ScopeState {
            lifecycle: self.lifecycle,
            generation: self.generation,
            delivered_through: self.delivered_through,
            stamped_at: self.stamped_at,
            pending: self.pending.map().map_values(|entry: (T, u64)| (entry.0@, entry.1)),
            window: option_view(self.window),
            window_depth: self.window_depth,
            consecutive_errors: self.consecutive_errors,
        }
    }
}

impl<T: Datum> Scope<T> {
    closed spec fn wf(&self, policy: IngressPolicy) -> bool {
        &&& self.pending.wf()
        &&& self@.wf(policy)
    }

    /// The buffer's model has the buffer's domain.
    proof fn pending_facts(&self)
        requires
            self.pending.wf(),
        ensures
            self@.pending.dom() == self.pending.map().dom(),
            self@.pending.dom().finite(),
            self@.pending.len() == self.pending.ids().len(),
    {
        self.pending.wf_facts();
        assert(self@.pending.dom() =~= self.pending.map().dom());
    }

    fn new(generation: u64) -> (scope: Self)
        ensures
            scope.pending.wf(),
            scope@ == ScopeState::<T::V>::opening(generation),
    {
        let scope = Scope {
            lifecycle: IngressLifecycle::Opening,
            generation,
            delivered_through: None,
            stamped_at: 0,
            pending: SortedTable::new(),
            window: None,
            window_depth: 0,
            consecutive_errors: 0,
        };
        proof {
            assert(scope@.pending =~= Map::empty());
        }
        scope
    }

    fn project(&self, observed_now: u64, policy: IngressPolicy) -> (view: ScopeView)
        requires
            self.pending.wf(),
        ensures
            view == self@.projected(observed_now, policy),
    {
        proof {
            self.pending_facts();
        }
        ScopeView {
            lifecycle: self.lifecycle,
            generation: self.generation,
            delivered_through: self.delivered_through,
            stamped_at: self.stamped_at,
            buffered: self.pending.len(),
            window_depth: self.window_depth,
            consecutive_errors: self.consecutive_errors,
            observed_now,
            policy,
        }
    }

    fn next_expected(&self) -> (next: u64)
        requires
            self@.delivered_through != Some(u64::MAX),
        ensures
            next == self@.next_expected(),
    {
        match self.delivered_through {
            Some(sequence) => sequence + 1,
            None => 0,
        }
    }

    fn live_or_opening(&self) -> (lifecycle: IngressLifecycle)
        ensures
            lifecycle == self@.connected(),
    {
        if self.delivered_through.is_some() {
            IngressLifecycle::Live
        } else {
            IngressLifecycle::Opening
        }
    }

    /// Discards what belongs to an older producer incarnation.
    fn hand_to(&mut self, generation: u64)
        requires
            old(self).pending.wf(),
        ensures
            final(self).pending.wf(),
            final(self)@ == old(self)@.handed_to(generation),
    {
        self.generation = generation;
        self.delivered_through = None;
        self.pending.clear();
        self.window = None;
        self.window_depth = 0;
        proof {
            assert(self@ =~= old(self)@.handed_to(generation));
        }
    }

    /// Merges one payload into the hot window. Returns whether it coalesced.
    fn merge_into<M: MergePolicy<T>>(&mut self, payload: T, stamped_at: u64) -> (conflated: bool)
        requires
            old(self).pending.wf(),
            old(self)@.window_depth < u64::MAX,
        ensures
            final(self).pending.wf(),
            final(self)@ == absorbed::<T, M>(old(self)@, payload@, stamped_at),
            conflated == old(self)@.window is Some,
    {
        let (merged, conflated) = match &self.window {
            None => (payload, false),
            Some(current) => (M::merge(current, payload), true),
        };
        self.window = Some(merged);
        self.window_depth = self.window_depth + 1;
        if stamped_at > self.stamped_at {
            self.stamped_at = stamped_at;
        }
        conflated
    }
}

/// How a flush grows the depth: one per buffered successor, no more than there are.
pub proof fn flush_room<T: View, M: MergePolicy<T>>(scope: ScopeState<T::V>, policy: IngressPolicy)
    requires
        scope.pending.dom().finite(),
        scope.delivered_through is Some,
        scope.delivered_through != Some(u64::MAX),
        scope.window is Some,
        scope.window_depth > 0,
        scope.window_depth + scope.pending.len() <= u64::MAX,
        scope.pending.len() <= policy.reorder_window,
        !(scope.lifecycle is Closed),
        forall|sequence: u64| #[trigger]
            scope.pending.contains_key(sequence) ==> scope.next_expected() <= sequence < u64::MAX,
    ensures
        flushed::<T, M>(scope).wf(policy),
        flushed::<T, M>(scope).delivered_through is Some,
        flushed::<T, M>(scope).delivered_through->0 >= scope.delivered_through->0,
        flushed::<T, M>(scope).generation == scope.generation,
        flushed::<T, M>(scope).window is Some,
        !flushed::<T, M>(scope).pending.contains_key(
            flushed::<T, M>(scope).next_expected() as u64,
        ),
    decreases u64::MAX + 1 - scope.next_expected(),
{
    let next = scope.next_expected();
    if scope.pending.contains_key(next as u64) {
        let (payload, stamp) = scope.pending[next as u64];
        let taken = ScopeState { pending: scope.pending.remove(next as u64), ..scope };
        let after = ScopeState {
            delivered_through: Some(next as u64),
            ..absorbed::<T, M>(taken, payload, stamp)
        };
        flush_room::<T, M>(after, policy);
    }
}

/// Keyed lifecycle scopes, an admission algebra, and a bounded receipt log.
pub struct IngressCore<K, T, M> {
    policy: IngressPolicy,
    scopes: KeyedTable<K, Scope<T>>,
    receipts: Vec<IngressReceipt<K>>,
    next_receipt_offset: u64,
    observed_now: u64,
    _merge: PhantomData<M>,
}

impl<K: Key, T: Datum, M: MergePolicy<T>> IngressCore<K, T, M> {
    /// The plane, over key and payload views.
    pub closed spec fn state(&self) -> IngressState<K::V, T::V> {
        IngressState {
            policy: self.policy,
            keys: self.scopes.ids(),
            scopes: self.scopes.map().map_values(|scope: Scope<T>| scope@),
            receipts: self.receipts@.map_values(|receipt: IngressReceipt<K>| receipt@),
            next_receipt_offset: self.next_receipt_offset,
            observed_now: self.observed_now,
        }
    }

    /// The plane is one that the operations can reach.
    pub closed spec fn wf(&self) -> bool {
        &&& self.scopes.wf()
        &&& forall|id: K::V| #[trigger]
            self.scopes.map().contains_key(id) ==> self.scopes.map()[id].pending.wf()
        &&& self.state().wf()
    }

    /// What well-formedness says to a caller.
    pub proof fn wf_facts(&self)
        requires
            self.wf(),
        ensures
            self.state().wf(),
    {
    }

    /// Builds a core over `policy`. `Conflate` bounds nothing for a merge algebra
    /// that does not conflate.
    pub fn new(policy: IngressPolicy) -> (built: Result<Self, IngressConfigError>)
        ensures
            built matches Err(error) ==> if policy.overflow is Conflate && !M::conflates() {
                error == IngressConfigError::ConflateNotBounding
            } else {
                error == IngressConfigError::ZeroReceiptCapacity
            },
            built is Err <==> (policy.overflow is Conflate && !M::conflates())
                || policy.receipt_capacity == 0,
            built matches Ok(core) ==> core.wf() && core.state() == IngressState::<K::V, T::V>::initial(
                policy,
            ),
    {
        if policy.overflow == Overflow::Conflate && !M::is_conflating() {
            return Err(IngressConfigError::ConflateNotBounding);
        }
        if policy.receipt_capacity == 0 {
            return Err(IngressConfigError::ZeroReceiptCapacity);
        }
        let core = IngressCore {
            policy,
            scopes: KeyedTable::new(),
            receipts: Vec::new(),
            next_receipt_offset: 0,
            observed_now: 0,
            _merge: PhantomData,
        };
        proof {
            assert(core.state() =~= IngressState::<K::V, T::V>::initial(policy));
        }
        Ok(core)
    }

    /// The bounds in force.
    pub fn policy(&self) -> (policy: IngressPolicy)
        ensures
            policy == self.state().policy,
    {
        self.policy
    }

    /// Every known scope key, in order of appearance.
    pub fn scope_keys(&self) -> (keys: Vec<K>)
        ensures
            keys@.map_values(|key: K| key@) == self.state().keys,
    {
        self.scopes.keys()
    }

    /// Read-only projection of one scope, or `None` when unknown.
    pub fn view(&self, key: &K) -> (view: Option<ScopeView>)
        requires
            self.wf(),
        ensures
            view == self.state().view_of(key@),
    {
        match self.scopes.get(key) {
            Some(scope) => Some(scope.project(self.observed_now, self.policy)),
            None => None,
        }
    }

    /// Readiness of a scope.
    pub fn readiness(&self, key: &K) -> (readiness: IngressReadiness)
        requires
            self.wf(),
        ensures
            readiness == self.state().readiness_of(key@),
    {
        match self.view(key) {
            Some(view) => view.readiness(),
            None => IngressReadiness::Unknown,
        }
    }

    /// Authority claimed by a scope.
    pub fn authority(&self, key: &K) -> (authority: Option<IngressAuthority>)
        requires
            self.wf(),
        ensures
            authority == self.state().authority_of(key@),
    {
        match self.view(key) {
            Some(view) => view.authority(),
            None => None,
        }
    }

    /// Retry decision for a scope.
    pub fn retry(&self, key: &K) -> (retry: Option<IngressRetry>)
        requires
            self.wf(),
        ensures
            retry == self.state().retry_of(key@),
    {
        match self.view(key) {
            Some(view) => view.retry(),
            None => None,
        }
    }

    /// The coalesced window awaiting drain.
    pub fn peek(&self, key: &K) -> (value: Option<T>)
        requires
            self.wf(),
        ensures
            option_view(value) == self.state().value_of(key@),
    {
        match self.scopes.get(key) {
            Some(scope) => match &scope.window {
                Some(value) => Some(value.duplicate()),
                None => None,
            },
            None => None,
        }
    }

    /// Receipts on one channel, oldest first.
    pub fn receipts(&self, channel: IngressReceiptChannel) -> (receipts: Vec<IngressReceipt<K>>)
        ensures
            receipts@.map_values(|receipt: IngressReceipt<K>| receipt@) == self.state().receipts_on(
                channel,
            ),
    {
        let mut found: Vec<IngressReceipt<K>> = Vec::new();
        let ghost wanted = |receipt: IngressReceipt<K::V>| receipt.on() == channel;
        let mut index: usize = 0;
        proof {
            reveal(Seq::filter);
            assert(self.state().receipts.take(0) =~= Seq::empty());
            assert(found@.map_values(|receipt: IngressReceipt<K>| receipt@) =~= Seq::empty());
        }
        while index < self.receipts.len()
            invariant
                index <= self.receipts@.len(),
                self.state().receipts.len() == self.receipts@.len(),
                wanted == (|receipt: IngressReceipt<K::V>| receipt.on() == channel),
                found@.map_values(|receipt: IngressReceipt<K>| receipt@) == self.state().receipts.take(
                    index as int,
                ).filter(wanted),
            decreases self.receipts@.len() - index,
        {
            let ghost before = found@;
            let ghost receipt = self.state().receipts[index as int];
            let here = self.receipts[index].channel() == channel;
            if here {
                found.push(self.receipts[index].duplicate());
            }
            proof {
                reveal(Seq::filter);
                let longer = self.state().receipts.take(index + 1);
                assert(longer.drop_last() =~= self.state().receipts.take(index as int));
                assert(longer.last() == receipt);
                assert(receipt == self.receipts@[index as int]@);
                if here {
                    assert(found@.map_values(|receipt: IngressReceipt<K>| receipt@)
                        =~= before.map_values(|receipt: IngressReceipt<K>| receipt@).push(receipt));
                }
            }
            index = index + 1;
        }
        proof {
            assert(self.state().receipts.take(index as int) =~= self.state().receipts);
        }
        found
    }

    /// Puts a scope back under a key that is known: the plane is as the model has it.
    proof fn scope_replaced(before: Self, after: Self, id: K::V, scope: Scope<T>)
        requires
            before.wf(),
            before.state().keys.contains(id),
            scope.pending.wf(),
            scope@.wf(before.policy),
            after.scopes.wf(),
            after.scopes.ids() == before.scopes.ids(),
            after.scopes.map() == before.scopes.map().insert(id, scope),
            after.policy == before.policy,
            after.receipts == before.receipts,
            after.next_receipt_offset == before.next_receipt_offset,
            after.observed_now == before.observed_now,
        ensures
            after.wf(),
            after.state() == before.state().with_scope(id, scope@),
    {
        assert(after.state().scopes =~= before.state().scopes.insert(id, scope@));
        assert(after.state() =~= before.state().with_scope(id, scope@));
    }

    /// Finds a key's scope, opening one at `generation` where there is none.
    fn ensure_scope(&mut self, key: &K, generation: u64) -> (place: (usize, bool))
        requires
            old(self).wf(),
        ensures
            final(self).wf(),
            place.1 == !old(self).state().scopes.contains_key(key@),
            place.0 < final(self).state().keys.len(),
            final(self).state().keys[place.0 as int] == key@,
            final(self).state() == if place.1 {
                old(self).state().with_scope(key@, ScopeState::opening(generation))
            } else {
                old(self).state()
            },
            place.1 ==> place.0 == old(self).state().keys.len(),
    {
        match self.scopes.find(key) {
            Some(index) => (index, false),
            None => {
                let index = self.scopes.len();
                let scope = Scope::new(generation);
                let ghost state = scope@;
                self.scopes.push(key.duplicate(), scope);
                proof {
                    assert(self.state().scopes =~= old(self).state().scopes.insert(key@, state));
                    assert(self.state() =~= old(self).state().with_scope(key@, state));
                    assert(self.state().keys =~= old(self).state().keys.push(key@));
                    assert forall|id: K::V| self.state().keys.contains(id) implies
                        #[trigger] self.state().scopes.contains_key(id) by {}
                }
                (index, true)
            },
        }
    }

    /// Opens (or reopens) a scope at `generation`.
    ///
    /// Reopening a suspended scope keeps its watermark so that a replay can resume
    /// from the gap; reopening a closed scope resets it.
    pub fn open(&mut self, key: K, generation: u64) -> (change: IngressChange<K>)
        requires
            old(self).wf(),
        ensures
            final(self).wf(),
            final(self).state() == old(self).state().opened(key@, generation).0,
            change@ == old(self).state().opened(key@, generation).1,
    {
        let mut change: IngressChange<K> = IngressChange::default();
        let (index, created) = self.ensure_scope(&key, generation);
        if created {
            change.mark(key, IngressScopeChange::creation());
            return change;
        }
        let ghost id = key@;
        let ghost entry = *self;
        let now = self.observed_now;
        let policy = self.policy;
        proof {
            assert(entry.state().keys.contains(id));
            assert(entry.state().scopes.contains_key(id));
            assert(entry.state().scopes[id].wf(entry.policy));
        }
        let scope = self.scopes.value_at_mut(index);
        let ghost before = scope@;
        let shown = scope.project(now, policy);
        if scope.lifecycle == IngressLifecycle::Closed {
            *scope = Scope::new(generation);
        } else {
            scope.lifecycle = scope.live_or_opening();
            if generation > scope.generation {
                scope.generation = generation;
                scope.delivered_through = None;
                scope.pending.clear();
            }
        }
        let shows = scope.project(now, policy);
        let ghost placed = *scope;
        proof {
            assert(placed@ =~= before.reopened(generation));
            assert(entry.state().scopes[id] == before);
            Self::scope_replaced(entry, *self, id, placed);
        }
        if shown.lifecycle != shows.lifecycle || shown.generation != shows.generation
            || shown.delivered_through != shows.delivered_through {
            change.mark(
                key,
                IngressScopeChange {
                    value: false,
                    readiness: shown.readiness() != shows.readiness(),
                    authority: true,
                    retry: shown.retry() != shows.retry(),
                },
            );
        }
        change
    }

    /// Suspends a scope: state and cursors stay, delivery stops. Returns the replay
    /// request that a reconnect will need, or `None` when there was nothing to
    /// suspend.
    pub fn suspend(&mut self, key: &K) -> (outcome: (IngressChange<K>, Option<ReplayRequest>))
        requires
            old(self).wf(),
        ensures
            final(self).wf(),
            final(self).state() == old(self).state().suspended(key@).0,
            outcome.0@ == old(self).state().suspended(key@).1,
            outcome.1 == old(self).state().suspended(key@).2,
    {
        let mut change: IngressChange<K> = IngressChange::default();
        let index = match self.scopes.find(key) {
            Some(index) => index,
            None => {
                return (change, None);
            },
        };
        let ghost entry = *self;
        let ghost id = key@;
        proof {
            assert(entry.state().scopes.contains_key(id));
            assert(entry.state().scopes[id].wf(entry.policy));
        }
        let lifecycle = self.scopes.value_at(index).lifecycle;
        if lifecycle == IngressLifecycle::Suspended || lifecycle == IngressLifecycle::Closed {
            return (change, None);
        }
        let scope = self.scopes.value_at_mut(index);
        let ghost before = scope@;
        scope.lifecycle = IngressLifecycle::Suspended;
        let request = ReplayRequest {
            generation: scope.generation,
            from_sequence: scope.next_expected(),
        };
        let ghost placed = *scope;
        proof {
            assert(placed@ =~= ScopeState { lifecycle: IngressLifecycle::Suspended, ..before });
            Self::scope_replaced(entry, *self, id, placed);
        }
        change.mark(key.duplicate(), IngressScopeChange::readiness_only());
        (change, Some(request))
    }

    /// Reconnects a scope at `generation`, clearing the error streak.
    ///
    /// A higher generation is a producer handoff: the sequence space restarts, so
    /// the reorder buffer and the coalesced value are discarded.
    pub fn reconnect(&mut self, key: &K, generation: u64) -> (outcome: (
        IngressChange<K>,
        ReplayRequest,
    ))
        requires
            old(self).wf(),
        ensures
            final(self).wf(),
            final(self).state() == old(self).state().reconnected(key@, generation).0,
            outcome.0@ == old(self).state().reconnected(key@, generation).1,
            outcome.1 == old(self).state().reconnected(key@, generation).2,
    {
        let mut change: IngressChange<K> = IngressChange::default();
        let ghost id = key@;
        let (index, created) = self.ensure_scope(key, generation);
        let ghost entry = *self;
        proof {
            assert(entry.state().keys.contains(id));
            assert(entry.state().scopes.contains_key(id));
            assert(entry.state().scopes[id].wf(entry.policy));
        }
        let scope = self.scopes.value_at_mut(index);
        let ghost before = scope@;
        let handoff = generation > scope.generation;
        let had_window = scope.window.is_some();
        let revived = scope.lifecycle == IngressLifecycle::Closed;
        if handoff {
            scope.hand_to(generation);
        }
        let before_lifecycle = scope.lifecycle;
        scope.lifecycle = scope.live_or_opening();
        let had_errors = scope.consecutive_errors > 0;
        scope.consecutive_errors = 0;
        let request = ReplayRequest {
            generation: scope.generation,
            from_sequence: scope.next_expected(),
        };
        let after_lifecycle = scope.lifecycle;
        let ghost placed = *scope;
        proof {
            assert(placed@ =~= before.reconnected(generation));
            Self::scope_replaced(entry, *self, id, placed);
            assert(self.state() =~= old(self).state().with_scope(id, placed@));
        }
        let base = IngressScopeChange {
            value: handoff && had_window,
            readiness: before_lifecycle != after_lifecycle,
            authority: handoff || revived,
            retry: had_errors,
        };
        change.mark(
            key.duplicate(),
            if created {
                base.union(IngressScopeChange::creation())
            } else {
                base
            },
        );
        (change, request)
    }

    /// Closes a scope. It admits nothing and claims no authority until reopened.
    pub fn close(&mut self, key: &K) -> (change: IngressChange<K>)
        requires
            old(self).wf(),
        ensures
            final(self).wf(),
            final(self).state() == old(self).state().closed(key@).0,
            change@ == old(self).state().closed(key@).1,
    {
        let mut change: IngressChange<K> = IngressChange::default();
        let index = match self.scopes.find(key) {
            Some(index) => index,
            None => {
                return change;
            },
        };
        let ghost entry = *self;
        let ghost id = key@;
        proof {
            assert(entry.state().scopes.contains_key(id));
            assert(entry.state().scopes[id].wf(entry.policy));
        }
        if self.scopes.value_at(index).lifecycle == IngressLifecycle::Closed {
            return change;
        }
        let scope = self.scopes.value_at_mut(index);
        let ghost before = scope@;
        let had_window = scope.window.is_some();
        let had_errors = scope.consecutive_errors > 0;
        scope.lifecycle = IngressLifecycle::Closed;
        scope.pending.clear();
        scope.window = None;
        scope.window_depth = 0;
        scope.consecutive_errors = 0;
        let ghost placed = *scope;
        proof {
            assert(placed@ =~= before.closed());
            Self::scope_replaced(entry, *self, id, placed);
        }
        change.mark(
            key.duplicate(),
            IngressScopeChange {
                value: had_window,
                readiness: true,
                authority: true,
                retry: had_errors,
            },
        );
        change
    }

    /// Advances logical time. Only scopes that crossed the freshness horizon are
    /// dirtied.
    pub fn tick(&mut self, now: u64) -> (change: IngressChange<K>)
        requires
            old(self).wf(),
        ensures
            final(self).wf(),
            final(self).state() == old(self).state().ticked(now).0,
            change@ == old(self).state().ticked(now).1,
    {
        let mut change: IngressChange<K> = IngressChange::default();
        let before = self.observed_now;
        let policy = self.policy;
        let ghost entry = self.state();
        let ghost crossing = |id: K::V| entry.crosses(id, now);
        let ghost mark = |id: K::V|
            (id, IngressScopeChange { readiness: true, ..IngressScopeChange::nothing() });
        let mut index: usize = 0;
        proof {
            reveal(Seq::filter);
            assert(entry.keys.take(0) =~= Seq::empty());
            assert(entry.keys.take(0).filter(crossing).map_values(mark) =~= Seq::empty());
        }
        while index < self.scopes.len()
            invariant
                *self == *old(self),
                self.wf(),
                entry == self.state(),
                before == self.observed_now,
                policy == self.policy,
                crossing == (|id: K::V| entry.crosses(id, now)),
                mark == (|id: K::V|
                    (id, IngressScopeChange { readiness: true, ..IngressScopeChange::nothing() })),
                index <= entry.keys.len(),
                change@ == (IngressMarks {
                    scopes: entry.keys.take(index as int).filter(crossing).map_values(mark),
                    ..IngressMarks::none()
                }),
            decreases entry.keys.len() - index,
        {
            let ghost id = entry.keys[index as int];
            let ghost so_far = entry.keys.take(index as int).filter(crossing);
            proof {
                assert(entry.keys.contains(id));
                assert(self.scopes.map().contains_key(id));
            }
            let scope = self.scopes.value_at(index);
            if scope.project(before, policy).readiness() != scope.project(now, policy).readiness() {
                change.mark(
                    self.scopes.key_at(index).duplicate(),
                    IngressScopeChange::readiness_only(),
                );
            }
            proof {
                reveal(Seq::filter);
                let longer = entry.keys.take(index + 1);
                assert(longer.drop_last() =~= entry.keys.take(index as int));
                assert(longer.last() == id);
                assert(so_far.push(id).map_values(mark) =~= so_far.map_values(mark).push(mark(id)));
            }
            index = index + 1;
        }
        proof {
            assert(entry.keys.take(index as int) =~= entry.keys);
        }
        self.observed_now = now;
        proof {
            assert(self.state() =~= entry.ticked(now).0);
        }
        change
    }

    /// Logs one decision and marks its channel; the oldest receipt goes beyond the
    /// capacity, and marks its own.
    fn push_receipt(
        &mut self,
        key: K,
        generation: u64,
        sequence: Option<u64>,
        outcome: IngressReceiptOutcome,
        change: &mut IngressChange<K>,
    )
        requires
            old(self).wf(),
            old(self).state().next_receipt_offset < u64::MAX,
        ensures
            final(self).wf(),
            final(self).state() == old(self).state().with_receipt(
                key@,
                generation,
                sequence,
                outcome,
            ),
            final(change)@ == old(self).state().logging(
                old(change)@,
                (IngressReceipt { offset: 0, key: key@, generation, sequence, outcome }).on(),
            ),
    {
        let receipt = IngressReceipt {
            offset: self.next_receipt_offset,
            key,
            generation,
            sequence,
            outcome,
        };
        let ghost model = receipt@;
        let ghost capacity = self.policy.receipt_capacity;
        change.mark_channel(receipt.channel());
        self.next_receipt_offset = self.next_receipt_offset + 1;
        self.receipts.push(receipt);
        let ghost all = old(self).state().receipts.push(model);
        proof {
            assert(self.receipts@.map_values(|receipt: IngressReceipt<K>| receipt@) =~= all);
        }
        if self.receipts.len() > self.policy.receipt_capacity {
            let evicted = self.receipts.remove(0);
            proof {
                assert(all[0] == old(self).state().receipts[0]);
                assert(evicted@ == all[0]);
            }
            change.mark_channel(evicted.channel());
            proof {
                assert(all.len() == capacity + 1);
                assert(self.receipts@.map_values(|receipt: IngressReceipt<K>| receipt@)
                    =~= all.skip(1));
            }
        }
        proof {
            assert(self.state() =~= old(self).state().with_receipt(
                key@,
                generation,
                sequence,
                outcome,
            ));
        }
    }

    /// Records a transport or decode failure against a scope, deepening its
    /// backoff.
    pub fn fail(&mut self, key: &K, error: IngressError) -> (change: IngressChange<K>)
        requires
            old(self).wf(),
            old(self).state().next_receipt_offset < u64::MAX,
        ensures
            final(self).wf(),
            final(self).state() == old(self).state().failed(key@, error).0,
            change@ == old(self).state().failed(key@, error).1,
    {
        let mut change: IngressChange<K> = IngressChange::default();
        let ghost id = key@;
        let (index, created) = self.ensure_scope(key, 0);
        let ghost entry = *self;
        proof {
            assert(entry.state().keys.contains(id));
            assert(entry.state().scopes.contains_key(id));
            assert(entry.state().scopes[id].wf(entry.policy));
        }
        let scope = self.scopes.value_at_mut(index);
        let ghost before = scope@;
        scope.consecutive_errors = scope.consecutive_errors.saturating_add(1);
        let generation = scope.generation;
        let ghost placed = *scope;
        proof {
            assert(placed@ =~= before.failed());
            Self::scope_replaced(entry, *self, id, placed);
            assert(self.state() =~= old(self).state().with_scope(id, placed@));
        }
        let base = IngressScopeChange::retry_only();
        change.mark(
            key.duplicate(),
            if created {
                base.union(IngressScopeChange::creation())
            } else {
                base
            },
        );
        self.push_receipt(
            key.duplicate(),
            generation,
            None,
            IngressReceiptOutcome::Error(error),
            &mut change,
        );
        change
    }

    /// Drains a scope's coalesced window, resetting its depth. Returns `None` for
    /// an empty window and dirties nothing.
    ///
    /// A drain is an egress, not an acknowledgement: it never moves the watermark.
    pub fn drain(&mut self, key: &K) -> (outcome: (IngressChange<K>, Option<T>))
        requires
            old(self).wf(),
        ensures
            final(self).wf(),
            final(self).state() == old(self).state().drained(key@).0,
            outcome.0@ == old(self).state().drained(key@).1,
            option_view(outcome.1) == old(self).state().drained(key@).2,
    {
        let mut change: IngressChange<K> = IngressChange::default();
        let index = match self.scopes.find(key) {
            Some(index) => index,
            None => {
                return (change, None);
            },
        };
        let ghost entry = *self;
        let ghost id = key@;
        proof {
            assert(entry.state().scopes.contains_key(id));
            assert(entry.state().scopes[id].wf(entry.policy));
        }
        if self.scopes.value_at(index).window.is_none() {
            return (change, None);
        }
        let scope = self.scopes.value_at_mut(index);
        let ghost before = scope@;
        let value = scope.window.take();
        scope.window_depth = 0;
        let ghost placed = *scope;
        proof {
            assert(placed@ =~= before.drained());
            Self::scope_replaced(entry, *self, id, placed);
        }
        change.mark(key.duplicate(), IngressScopeChange::value_only());
        (change, value)
    }

    /// The admission algebra proper: pure over one scope, mutating only that
    /// scope, minting nothing.
    fn decide(
        scope: &mut Scope<T>,
        policy: IngressPolicy,
        observed_now: u64,
        generation: u64,
        sequence: u64,
        stamped_at: u64,
        payload: T,
    ) -> (decision: Decision)
        requires
            old(scope).wf(policy),
            scope_has_room(old(scope)@),
            ({
                let decision = decided::<T, M>(
                    old(scope)@,
                    policy,
                    observed_now,
                    generation,
                    sequence,
                    stamped_at,
                    payload@,
                ).1;
                sequence < u64::MAX || decision is Refuse || decision is Block
            }),
        ensures
            final(scope).wf(policy),
            final(scope)@ == decided::<T, M>(
                old(scope)@,
                policy,
                observed_now,
                generation,
                sequence,
                stamped_at,
                payload@,
            ).0,
            decision == decided::<T, M>(
                old(scope)@,
                policy,
                observed_now,
                generation,
                sequence,
                stamped_at,
                payload@,
            ).1,
    {
        if scope.lifecycle == IngressLifecycle::Closed {
            return Decision::Refuse(IngressDropReason::ScopeClosed);
        }
        if generation < scope.generation {
            return Decision::Refuse(IngressDropReason::StaleGeneration);
        }
        if observed_now.saturating_sub(stamped_at) > policy.freshness_horizon {
            return Decision::Refuse(IngressDropReason::Expired);
        }
        let mut handoff: Option<(u64, u64)> = None;
        if generation > scope.generation {
            handoff = Some((scope.generation, generation));
            scope.hand_to(generation);
        }
        let ghost base = scope@;
        proof {
            scope.pending_facts();
        }
        let expected = scope.next_expected();
        if sequence < expected {
            return Decision::Refuse(IngressDropReason::DuplicateSequence);
        }
        if sequence > expected {
            if scope.pending.contains(&sequence) {
                return Decision::Refuse(IngressDropReason::DuplicateBuffered);
            }
            if scope.pending.len() >= policy.reorder_window {
                return Decision::Refuse(IngressDropReason::ReorderWindowOverflow);
            }
            let ghost parked = payload@;
            scope.pending.put(sequence, (payload, stamped_at));
            proof {
                assert(scope@.pending =~= base.pending.insert(sequence, (parked, stamped_at)));
                assert(scope@ =~= ScopeState {
                    pending: base.pending.insert(sequence, (parked, stamped_at)),
                    ..base
                });
            }
            return Decision::Buffered { gap_from: expected };
        }
        if scope.window_depth >= policy.high_water {
            match policy.overflow {
                Overflow::Block => {
                    return Decision::Block;
                },
                Overflow::DropNewest => {
                    return Decision::Refuse(IngressDropReason::Backpressure);
                },
                Overflow::DropOldest => {
                    scope.window = None;
                    scope.window_depth = 0;
                },
                // Conflation is the bound; spilling degrades to it until a durable
                // tail is wired.
                Overflow::Conflate | Overflow::Spill => {},
            }
        }
        let ghost room = scope@;
        let ghost incoming = payload@;
        let mut conflated = scope.merge_into::<M>(payload, stamped_at);
        scope.delivered_through = Some(sequence);
        scope.lifecycle = IngressLifecycle::Live;
        scope.consecutive_errors = 0;
        let mut delivered_through: u64 = sequence;
        let ghost first = scope@;
        proof {
            assert(first.pending =~= base.pending);
            assert(flushed::<T, M>(first) == delivered::<T, M>(room, sequence, stamped_at, incoming));
            flush_room::<T, M>(first, policy);
        }
        // Flush every buffered successor that this delivery unblocked.
        while scope.pending.contains(&(delivered_through + 1))
            invariant
                scope.pending.wf(),
                sequence < u64::MAX,
                flushed::<T, M>(scope@) == flushed::<T, M>(first),
                flushed::<T, M>(first).wf(policy),
                scope@.delivered_through == Some(delivered_through),
                sequence <= delivered_through < u64::MAX,
                scope@.window is Some,
                scope@.window_depth + scope@.pending.len() <= u64::MAX,
                scope@.pending.dom().finite(),
                forall|at: u64| #[trigger]
                    scope@.pending.contains_key(at) ==> scope@.next_expected() <= at < u64::MAX,
                conflated == (room.window is Some || delivered_through != sequence),
            decreases u64::MAX - delivered_through,
        {
            let next = delivered_through + 1;
            let ghost here = scope@;
            proof {
                scope.pending_facts();
                assert(here.pending.contains_key(next));
            }
            match scope.pending.remove(&next) {
                Some((buffered, buffered_stamp)) => {
                    let ghost taken = ScopeState { pending: here.pending.remove(next), ..here };
                    proof {
                        scope.pending_facts();
                        assert(scope@.pending =~= taken.pending);
                        assert(scope@ =~= taken);
                        assert(here.pending[next] == (buffered@, buffered_stamp));
                    }
                    let _coalesced = scope.merge_into::<M>(buffered, buffered_stamp);
                    scope.delivered_through = Some(next);
                    delivered_through = next;
                    conflated = true;
                },
                None => {},
            }
        }
        proof {
            scope.pending_facts();
            assert(!scope@.pending.contains_key(scope@.next_expected() as u64));
        }
        Decision::Delivered { delivered_through, conflated, handoff }
    }

    /// Admits one envelope, applying in this order scope lifecycle, the generation
    /// fence, freshness, dedupe, ordering, and backpressure.
    pub fn admit_envelope(&mut self, envelope: IngressEnvelope<K, T>) -> (outcome: (
        IngressChange<K>,
        IngressAdmission,
    ))
        requires
            old(self).wf(),
            countable::<K::V, T, M>(old(self).state(), envelope@),
            has_room(old(self).state(), envelope.key@),
        ensures
            final(self).wf(),
            final(self).state() == admitted::<K::V, T, M>(old(self).state(), envelope@).0,
            outcome.0@ == admitted::<K::V, T, M>(old(self).state(), envelope@).1,
            outcome.1 == admitted::<K::V, T, M>(old(self).state(), envelope@).2,
    {
        let policy = self.policy;
        let observed_now = self.observed_now;
        let ghost model = envelope@;
        let IngressEnvelope { key, generation, sequence, stamped_at, payload } = envelope;
        let ghost id = key@;
        let (index, created) = self.ensure_scope(&key, generation);
        let ghost entry = *self;
        proof {
            assert(entry.state().keys.contains(id));
            assert(entry.state().scopes.contains_key(id));
            assert(entry.state().scopes[id] == met(old(self).state(), model));
            assert(entry.state().scopes[id].wf(entry.policy));
        }
        let scope = self.scopes.value_at_mut(index);
        let ghost before = scope@;
        let before_lifecycle = scope.lifecycle;
        let before_generation = scope.generation;
        let before_watermark = scope.delivered_through;
        let before_window = scope.window.is_some();
        let decision = Self::decide(
            scope,
            policy,
            observed_now,
            generation,
            sequence,
            stamped_at,
            payload,
        );
        let after_lifecycle = scope.lifecycle;
        let after_generation = scope.generation;
        let after_watermark = scope.delivered_through;
        let after_window = scope.window.is_some();
        let after_errors = scope.consecutive_errors;
        let ghost placed = *scope;
        proof {
            assert((placed@, decision) == ruling::<K::V, T, M>(old(self).state(), model));
            Self::scope_replaced(entry, *self, id, placed);
            assert(self.state() =~= old(self).state().with_scope(id, placed@));
        }
        // A refused envelope must not leave a scope behind for an unknown key.
        let refused = matches!(decision, Decision::Refuse(_) | Decision::Block);
        if created && refused {
            let ghost longer = *self;
            let _entry = self.scopes.remove_at(index);
            proof {
                assert(longer.state().keys.remove(index as int) =~= old(self).state().keys);
                assert(longer.scopes.ids()[index as int] == id);
                assert(self.state().scopes =~= longer.state().scopes.remove(id));
                assert(!old(self).state().scopes.contains_key(id));
                assert(longer.state().scopes == old(self).state().scopes.insert(id, placed@));
                assert(self.state().scopes =~= old(self).state().scopes);
                assert(self.state() =~= old(self).state());
            }
        }
        let mut change: IngressChange<K> = IngressChange::default();
        let fence = if created && refused {
            generation
        } else {
            after_generation
        };
        let reset = IngressScopeChange {
            value: before_window != after_window,
            readiness: before_lifecycle != after_lifecycle || before_watermark.is_none()
                != after_watermark.is_none(),
            authority: before_generation != after_generation || before_watermark
                != after_watermark,
            retry: after_errors > 0 && before_watermark != after_watermark,
        };
        proof {
            assert(reset == reset_change(before, placed@));
        }
        if refused && !created {
            change.mark(key.duplicate(), reset);
        }
        match decision {
            Decision::Refuse(reason) => {
                self.push_receipt(
                    key,
                    fence,
                    Some(sequence),
                    IngressReceiptOutcome::Dropped(reason),
                    &mut change,
                );
                (change, IngressAdmission::Dropped(reason))
            },
            Decision::Block => {
                self.push_receipt(
                    key,
                    fence,
                    Some(sequence),
                    IngressReceiptOutcome::Dropped(IngressDropReason::Backpressure),
                    &mut change,
                );
                (change, IngressAdmission::Blocked)
            },
            Decision::Buffered { gap_from } => {
                change.mark(
                    key,
                    if created {
                        IngressScopeChange::creation()
                    } else {
                        reset
                    },
                );
                (change, IngressAdmission::Buffered { gap_from })
            },
            Decision::Delivered { delivered_through, conflated, handoff } => {
                change.mark(key.duplicate(), IngressScopeChange::all());
                self.push_receipt(
                    key,
                    fence,
                    Some(sequence),
                    IngressReceiptOutcome::Accepted { delivered_through, conflated },
                    &mut change,
                );
                let admission = match handoff {
                    Some((from, to)) => IngressAdmission::GenerationHandoff { from, to },
                    None => if conflated {
                        IngressAdmission::Conflated { delivered_through }
                    } else {
                        IngressAdmission::Accepted { delivered_through }
                    },
                };
                (change, admission)
            },
        }
    }
}

} // verus!
