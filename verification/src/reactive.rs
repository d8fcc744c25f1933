//! Contexts, handles and memoized readers on the reactive graph.
//!
//! The three contexts differ in how their owners share them; what they record is the
//! same ledger. A memoized reader keeps what it last computed for as long as its slot
//! is clean. An effect is a slot whose owner runs the effect's body when it is due.

use std::marker::PhantomData;

use vstd::prelude::*;

use crate::graph::{
    Graph, Ledger, SlotId, a_leaf_falls_as_a_root, nothing_reaches, positions, positions_empty,
    positions_push, push_root, settling_moves_one, with_root,
};
use crate::value::{Key, Datum, copies};

verus! {

/// A context: a graph that cells allocate their slots on.
pub trait ReactiveGraph: Sized {
    /// What the context has recorded.
    spec fn ledger(&self) -> Ledger;

    /// The context is one that its operations can reach.
    spec fn wf(&self) -> bool;

    /// What well-formedness says to a caller.
    proof fn wf_facts(&self)
        requires
            self.wf(),
        ensures
            self.ledger().sound(),
    ;

    /// Adds a slot that depends on some others. It is not clean yet.
    fn allocate(&mut self, deps: Vec<SlotId>) -> (slot: SlotId)
        requires
            old(self).wf(),
            forall|i: int| 0 <= i < deps@.len() ==> old(self).ledger().has(#[trigger] deps@[i]),
        ensures
            final(self).wf(),
            slot.index == old(self).ledger().slots.len(),
            final(self).ledger() == old(self).ledger().allocated(
                deps@.map_values(|slot: SlotId| slot.index as int),
            ),
    ;

    /// Whether what was read through a slot still stands.
    fn is_clean(&self, slot: SlotId) -> (clean: bool)
        requires
            self.wf(),
            self.ledger().has(slot),
        ensures
            clean == self.ledger().clean(slot),
    ;

    /// Marks a slot clean.
    fn settle(&mut self, slot: SlotId)
        requires
            old(self).wf(),
            old(self).ledger().has(slot),
        ensures
            final(self).wf(),
            final(self).ledger() == old(self).ledger().settled(slot),
    ;

    /// Clears some slots in one walk, or holds them back inside a batch.
    fn clear_slots(&mut self, roots: &Vec<SlotId>)
        requires
            old(self).wf(),
            forall|i: int| 0 <= i < roots@.len() ==> old(self).ledger().has(#[trigger] roots@[i]),
        ensures
            final(self).wf(),
            final(self).ledger() == old(self).ledger().cleared(positions(roots@)),
    ;

    /// Opens a batch.
    fn begin_batch(&mut self)
        requires
            old(self).wf(),
            old(self).ledger().depth < usize::MAX,
        ensures
            final(self).wf(),
            final(self).ledger() == old(self).ledger().begun(),
    ;

    /// Closes a batch. The last one walks everything that was held back at once.
    fn finish_batch(&mut self)
        requires
            old(self).wf(),
            old(self).ledger().depth > 0,
        ensures
            final(self).wf(),
            final(self).ledger() == old(self).ledger().finished(),
    ;
}

/// Clears one slot where it is marked.
pub fn clear_marked<G: ReactiveGraph>(ctx: &mut G, marked: bool, slot: SlotId)
    requires
        old(ctx).wf(),
        old(ctx).ledger().has(slot),
    ensures
        final(ctx).wf(),
        final(ctx).ledger() == old(ctx).ledger().cleared(with_root(Set::empty(), marked, slot)),
        final(ctx).ledger().extends(old(ctx).ledger()),
        final(ctx).ledger().slots.len() == old(ctx).ledger().slots.len(),
        final(ctx).ledger().depth == old(ctx).ledger().depth,
{
    let mut roots: Vec<SlotId> = Vec::new();
    proof {
        positions_empty(roots@);
    }
    push_root(&mut roots, marked, slot);
    ctx.clear_slots(&roots);
}

/// The single-threaded context.
pub struct Context {
    graph: Graph,
}

impl Context {
    /// A context without slots.
    pub fn new() -> (ctx: Self)
        ensures
            ctx.wf(),
            ctx.ledger() == Ledger::empty(),
    {
        Context { graph: Graph::new() }
    }
}

impl ReactiveGraph for Context {
    closed spec fn ledger(&self) -> Ledger {
        self.graph@
    }

    closed spec fn wf(&self) -> bool {
        self.graph.wf()
    }

    proof fn wf_facts(&self) {
        self.graph.wf_facts();
    }

    fn allocate(&mut self, deps: Vec<SlotId>) -> (slot: SlotId) {
        self.graph.allocate(deps)
    }

    fn is_clean(&self, slot: SlotId) -> (clean: bool) {
        self.graph.is_clean(slot)
    }

    fn settle(&mut self, slot: SlotId) {
        self.graph.settle(slot);
    }

    fn clear_slots(&mut self, roots: &Vec<SlotId>) {
        self.graph.clear_slots(roots);
    }

    fn begin_batch(&mut self) {
        self.graph.begin_batch();
    }

    fn finish_batch(&mut self) {
        self.graph.finish_batch();
    }
}

/// The context that owners share between threads behind a lock.
pub struct ThreadSafeContext {
    graph: Graph,
}

impl ThreadSafeContext {
    /// A context without slots.
    pub fn new() -> (ctx: Self)
        ensures
            ctx.wf(),
            ctx.ledger() == Ledger::empty(),
    {
        ThreadSafeContext { graph: Graph::new() }
    }
}

impl ReactiveGraph for ThreadSafeContext {
    closed spec fn ledger(&self) -> Ledger {
        self.graph@
    }

    closed spec fn wf(&self) -> bool {
        self.graph.wf()
    }

    proof fn wf_facts(&self) {
        self.graph.wf_facts();
    }

    fn allocate(&mut self, deps: Vec<SlotId>) -> (slot: SlotId) {
        self.graph.allocate(deps)
    }

    fn is_clean(&self, slot: SlotId) -> (clean: bool) {
        self.graph.is_clean(slot)
    }

    fn settle(&mut self, slot: SlotId) {
        self.graph.settle(slot);
    }

    fn clear_slots(&mut self, roots: &Vec<SlotId>) {
        self.graph.clear_slots(roots);
    }

    fn begin_batch(&mut self) {
        self.graph.begin_batch();
    }

    fn finish_batch(&mut self) {
        self.graph.finish_batch();
    }
}

/// The context of the asynchronous flavor. Its synchronous readers resolve inline.
pub struct AsyncContext {
    graph: Graph,
}

impl AsyncContext {
    /// A context without slots.
    pub fn new() -> (ctx: Self)
        ensures
            ctx.wf(),
            ctx.ledger() == Ledger::empty(),
    {
        AsyncContext { graph: Graph::new() }
    }
}

impl ReactiveGraph for AsyncContext {
    closed spec fn ledger(&self) -> Ledger {
        self.graph@
    }

    closed spec fn wf(&self) -> bool {
        self.graph.wf()
    }

    proof fn wf_facts(&self) {
        self.graph.wf_facts();
    }

    fn allocate(&mut self, deps: Vec<SlotId>) -> (slot: SlotId) {
        self.graph.allocate(deps)
    }

    fn is_clean(&self, slot: SlotId) -> (clean: bool) {
        self.graph.is_clean(slot)
    }

    fn settle(&mut self, slot: SlotId) {
        self.graph.settle(slot);
    }

    fn clear_slots(&mut self, roots: &Vec<SlotId>) {
        self.graph.clear_slots(roots);
    }

    fn begin_batch(&mut self) {
        self.graph.begin_batch();
    }

    fn finish_batch(&mut self) {
        self.graph.finish_batch();
    }
}

/// A handle to a derived reader, for composing further derives.
pub struct Computed<V> {
    id: SlotId,
    _value: PhantomData<V>,
}

impl<V> Clone for Computed<V> {
    fn clone(&self) -> (copy: Self)
        ensures
            copy == *self,
    {
        *self
    }
}

impl<V> Copy for Computed<V> {

}

impl<V> Computed<V> {
    /// The reader's slot.
    pub closed spec fn slot(&self) -> SlotId {
        self.id
    }

    /// The handle to a slot.
    pub closed spec fn of(slot: SlotId) -> Self {
        Computed { id: slot, _value: PhantomData }
    }

    /// A handle to its slot.
    pub proof fn of_slot(slot: SlotId)
        ensures
            Self::of(slot).slot() == slot,
    {
    }

    /// A handle to a slot.
    pub fn new(id: SlotId) -> (handle: Self)
        ensures
            handle == Self::of(id),
            handle.slot() == id,
    {
        Computed { id, _value: PhantomData }
    }

    /// The reader's slot.
    pub fn id(&self) -> (id: SlotId)
        ensures
            id == self.slot(),
    {
        self.id
    }
}

/// A handle to a derived reader of the asynchronous flavor.
pub struct AsyncComputed<V> {
    id: SlotId,
    _value: PhantomData<V>,
}

impl<V> Clone for AsyncComputed<V> {
    fn clone(&self) -> (copy: Self)
        ensures
            copy == *self,
    {
        *self
    }
}

impl<V> Copy for AsyncComputed<V> {

}

impl<V> AsyncComputed<V> {
    /// The reader's slot.
    pub closed spec fn slot(&self) -> SlotId {
        self.id
    }

    /// The handle to a slot.
    pub closed spec fn of(slot: SlotId) -> Self {
        AsyncComputed { id: slot, _value: PhantomData }
    }

    /// A handle to its slot.
    pub proof fn of_slot(slot: SlotId)
        ensures
            Self::of(slot).slot() == slot,
    {
    }

    /// A handle to a slot.
    pub fn new(id: SlotId) -> (handle: Self)
        ensures
            handle == Self::of(id),
            handle.slot() == id,
    {
        AsyncComputed { id, _value: PhantomData }
    }

    /// The reader's slot.
    pub fn id(&self) -> (id: SlotId)
        ensures
            id == self.slot(),
    {
        self.id
    }
}

/// A handle to a source.
pub struct Source<V> {
    id: SlotId,
    _value: PhantomData<V>,
}

impl<V> Clone for Source<V> {
    fn clone(&self) -> (copy: Self)
        ensures
            copy == *self,
    {
        *self
    }
}

impl<V> Copy for Source<V> {

}

impl<V> Source<V> {
    /// The source's slot.
    pub closed spec fn slot(&self) -> SlotId {
        self.id
    }

    /// The handle to a slot.
    pub closed spec fn of(slot: SlotId) -> Self {
        Source { id: slot, _value: PhantomData }
    }

    /// A handle to its slot.
    pub proof fn of_slot(slot: SlotId)
        ensures
            Self::of(slot).slot() == slot,
    {
    }

    /// A handle to a slot.
    pub fn new(id: SlotId) -> (handle: Self)
        ensures
            handle == Self::of(id),
            handle.slot() == id,
    {
        Source { id, _value: PhantomData }
    }

    /// The source's slot.
    pub fn id(&self) -> (id: SlotId)
        ensures
            id == self.slot(),
    {
        self.id
    }
}

/// A handle to a source of the asynchronous flavor.
pub struct AsyncSource<V> {
    id: SlotId,
    _value: PhantomData<V>,
}

impl<V> Clone for AsyncSource<V> {
    fn clone(&self) -> (copy: Self)
        ensures
            copy == *self,
    {
        *self
    }
}

impl<V> Copy for AsyncSource<V> {

}

impl<V> AsyncSource<V> {
    /// The source's slot.
    pub closed spec fn slot(&self) -> SlotId {
        self.id
    }

    /// The handle to a slot.
    pub closed spec fn of(slot: SlotId) -> Self {
        AsyncSource { id: slot, _value: PhantomData }
    }

    /// A handle to its slot.
    pub proof fn of_slot(slot: SlotId)
        ensures
            Self::of(slot).slot() == slot,
    {
    }

    /// A handle to a slot.
    pub fn new(id: SlotId) -> (handle: Self)
        ensures
            handle == Self::of(id),
            handle.slot() == id,
    {
        AsyncSource { id, _value: PhantomData }
    }

    /// The source's slot.
    pub fn id(&self) -> (id: SlotId)
        ensures
            id == self.slot(),
    {
        self.id
    }
}

/// A slot whose owner runs a body whenever something it depends on was cleared, and
/// once at the start.
#[derive(Debug, Clone, Copy, PartialEq, Eq, Structural)]
pub struct Effect {
    slot: SlotId,
}

impl Effect {
    /// The effect's slot.
    pub closed spec fn id(&self) -> SlotId {
        self.slot
    }

    /// An effect that depends on some slots. It is due.
    pub fn new<G: ReactiveGraph>(ctx: &mut G, deps: Vec<SlotId>) -> (effect: Self)
        requires
            old(ctx).wf(),
            forall|i: int| 0 <= i < deps@.len() ==> old(ctx).ledger().has(#[trigger] deps@[i]),
        ensures
            final(ctx).wf(),
            effect.id().index == old(ctx).ledger().slots.len(),
            final(ctx).ledger() == old(ctx).ledger().allocated(
                deps@.map_values(|slot: SlotId| slot.index as int),
            ),
    {
        Effect { slot: ctx.allocate(deps) }
    }

    /// Whether the body is to run now. Asking counts as running it: until something
    /// is cleared again it is not due.
    pub fn take_due<G: ReactiveGraph>(&self, ctx: &mut G) -> (due: bool)
        requires
            old(ctx).wf(),
            old(ctx).ledger().has(self.id()),
        ensures
            final(ctx).wf(),
            due == !old(ctx).ledger().clean(self.id()),
            final(ctx).ledger() == old(ctx).ledger().settled(self.id()),
    {
        let due = !ctx.is_clean(self.slot);
        ctx.settle(self.slot);
        due
    }
}

/// A value that may be absent, by the view of what is present.
pub struct Maybe<T> {
    /// The value.
    pub inner: Option<T>,
}

impl<T: View> View for Maybe<T> {
    type V = Option<T::V>;

    open spec fn view(&self) -> Option<T::V> {
        match self.inner {
            Some(value) => Some(value@),
            None => None,
        }
    }
}

impl<T: Datum> Datum for Maybe<T> {
    fn duplicate(&self) -> (copy: Self) {
        Maybe {
            inner: match &self.inner {
                Some(value) => Some(value.duplicate()),
                None => None,
            },
        }
    }
}

/// A list of values, by the views of its elements.
pub struct Listing<T> {
    /// The elements.
    pub items: Vec<T>,
}

impl<T: View> View for Listing<T> {
    type V = Seq<T::V>;

    open spec fn view(&self) -> Seq<T::V> {
        self.items@.map_values(|item: T| item@)
    }
}

impl<T: Datum> Datum for Listing<T> {
    fn duplicate(&self) -> (copy: Self) {
        Listing { items: copies(&self.items) }
    }
}

/// A memoized reader, over views.
#[verifier::ext_equal]
pub struct MemoState<P> {
    /// The reader's slot.
    pub slot: SlotId,
    /// What was computed last.
    pub cached: Option<P>,
}

impl<P> MemoState<P> {
    /// What a read shows: the cache while the slot is clean, what is derived now
    /// otherwise.
    pub open spec fn shows(self, ledger: Ledger, derived: P) -> P {
        match self.cached {
            Some(cached) => if ledger.clean(self.slot) {
                cached
            } else {
                derived
            },
            None => derived,
        }
    }

    /// Whether the cache holds what would be derived now, where it still stands.
    pub open spec fn fresh(self, ledger: Ledger, derived: P) -> bool {
        ledger.stands(self.slot) && self.cached is Some ==> self.cached == Some(derived)
    }

    /// A cache that stands stays fresh over a clearing, where a reader that is no root
    /// would derive what it derived.
    pub proof fn clearing_keeps_fresh(
        self,
        ledger: Ledger,
        roots: Set<int>,
        before: P,
        after: P,
    )
        requires
            ledger.sound(),
            ledger.leaf(self.slot),
            self.fresh(ledger, before),
            roots.contains(self.slot.index as int) || before == after,
        ensures
            self.fresh(ledger.cleared(roots), after),
    {
        a_leaf_falls_as_a_root(ledger, roots, self.slot);
    }

    /// A fresh reader shows what would be derived, outside a batch, and stays fresh.
    pub proof fn fresh_shows(self, ledger: Ledger, derived: P)
        requires
            ledger.sound(),
            ledger.depth == 0,
            ledger.has(self.slot),
            self.fresh(ledger, derived),
        ensures
            self.shows(ledger, derived) == derived,
            self.showing(derived).fresh(ledger.settled(self.slot), derived),
    {
        nothing_reaches(ledger.slots, self.slot.index as int);
    }

    /// Settling another slot leaves a fresh reader fresh.
    pub proof fn settling_keeps_fresh(self, ledger: Ledger, slot: SlotId, derived: P)
        requires
            ledger.sound(),
            ledger.has(self.slot),
            ledger.has(slot),
            slot != self.slot,
            self.fresh(ledger, derived),
        ensures
            self.fresh(ledger.settled(slot), derived),
    {
        settling_moves_one(ledger, slot, self.slot);
    }

    /// A reader on a slot, with nothing in its cache.
    pub open spec fn at(index: int) -> Self {
        MemoState { slot: SlotId { index: index as usize }, cached: None }
    }

    /// With what a read has shown in the cache.
    pub open spec fn showing(self, shown: P) -> Self {
        MemoState { cached: Some(shown), ..self }
    }
}

/// A memoized reader: what it computed last, for as long as its slot is clean.
pub struct Memo<V> {
    slot: SlotId,
    cached: Option<V>,
}

impl<V: View> View for Memo<V> {
    type V = MemoState<V::V>;

    closed spec fn view(&self) -> MemoState<V::V> {
        MemoState {
            slot: self.slot,
            cached: match self.cached {
                Some(value) => Some(value@),
                None => None,
            },
        }
    }
}

impl<V: Datum> Memo<V> {
    /// A reader on a new slot that depends on some others.
    pub fn new<G: ReactiveGraph>(ctx: &mut G, deps: Vec<SlotId>) -> (memo: Self)
        requires
            old(ctx).wf(),
            forall|i: int| 0 <= i < deps@.len() ==> old(ctx).ledger().has(#[trigger] deps@[i]),
        ensures
            final(ctx).wf(),
            memo@.slot.index == old(ctx).ledger().slots.len(),
            memo@.cached is None,
            final(ctx).ledger() == old(ctx).ledger().allocated(
                deps@.map_values(|slot: SlotId| slot.index as int),
            ),
    {
        Memo { slot: ctx.allocate(deps), cached: None }
    }

    /// The reader's slot.
    pub fn id(&self) -> (slot: SlotId)
        ensures
            slot == self@.slot,
    {
        self.slot
    }

    /// The cache, while the slot is clean.
    pub fn cached<G: ReactiveGraph>(&self, ctx: &G) -> (hit: Option<V>)
        requires
            ctx.wf(),
            ctx.ledger().has(self@.slot),
        ensures
            hit is Some <==> ctx.ledger().clean(self@.slot) && self@.cached is Some,
            hit matches Some(shown) ==> forall|derived: V::V|
                {
                    &&& shown@ == #[trigger] self@.shows(ctx.ledger(), derived)
                    &&& self@ == self@.showing(shown@)
                    &&& ctx.ledger() == ctx.ledger().settled(self@.slot)
                },
    {
        if !ctx.is_clean(self.slot) {
            return None;
        }
        proof {
            ctx.wf_facts();
            settling_moves_one(ctx.ledger(), self.slot, self.slot);
        }
        match &self.cached {
            Some(cached) => Some(cached.duplicate()),
            None => None,
        }
    }

    /// Caches what was derived, for as long as the slot stays clean.
    pub fn store<G: ReactiveGraph>(&mut self, ctx: &mut G, derived: V) -> (shown: V)
        requires
            old(ctx).wf(),
            old(ctx).ledger().has(old(self)@.slot),
        ensures
            final(ctx).wf(),
            shown@ == derived@,
            final(self)@ == old(self)@.showing(derived@),
            final(ctx).ledger() == old(ctx).ledger().settled(old(self)@.slot),
    {
        ctx.settle(self.slot);
        let shown = derived.duplicate();
        self.cached = Some(derived);
        shown
    }
}

/// A plain value that readers depend on.
pub struct SourceCell<V> {
    slot: SlotId,
    value: V,
}

impl<V: Key> SourceCell<V> {
    /// The source's slot.
    pub closed spec fn slot(&self) -> SlotId {
        self.slot
    }

    /// The current value.
    pub closed spec fn value(&self) -> V {
        self.value
    }

    /// A source on a new slot.
    pub fn new<G: ReactiveGraph>(ctx: &mut G, value: V) -> (source: Self)
        requires
            old(ctx).wf(),
        ensures
            final(ctx).wf(),
            source.slot().index == old(ctx).ledger().slots.len(),
            source.value() == value,
            final(ctx).ledger() == old(ctx).ledger().allocated(Seq::empty()),
    {
        let deps: Vec<SlotId> = Vec::new();
        proof {
            assert(deps@.map_values(|slot: SlotId| slot.index as int) =~= Seq::<int>::empty());
        }
        SourceCell { slot: ctx.allocate(deps), value }
    }

    /// The source's slot.
    pub fn id(&self) -> (slot: SlotId)
        ensures
            slot == self.slot(),
    {
        self.slot
    }

    /// The current value.
    pub fn get(&self) -> (value: &V)
        ensures
            *value == self.value(),
    {
        &self.value
    }

    /// Writes. The same value again is no write: nothing is cleared.
    pub fn set<G: ReactiveGraph>(&mut self, ctx: &mut G, value: V)
        requires
            old(ctx).wf(),
            old(ctx).ledger().has(old(self).slot()),
        ensures
            final(ctx).wf(),
            final(self).slot() == old(self).slot(),
            if value@ == old(self).value()@ {
                &&& final(self).value() == old(self).value()
                &&& final(ctx).ledger() == old(ctx).ledger()
            } else {
                &&& final(self).value() == value
                &&& final(ctx).ledger() == old(ctx).ledger().cleared(
                    Set::<int>::empty().insert(old(self).slot().index as int),
                )
            },
    {
        if value.same(&self.value) {
            return;
        }
        self.value = value;
        let mut roots: Vec<SlotId> = Vec::new();
        proof {
            positions_empty(roots@);
            positions_push(roots@, self.slot);
        }
        roots.push(self.slot);
        ctx.clear_slots(&roots);
    }
}

} // verus!
