//! `ThreadSafeReactiveMap`: the keyed reactive collection on a context that threads share.
//!
//! An input has its value at once. A derived entry keeps the factory that it was minted
//! with, which runs at the first read. Pre-minting every declared entry and minting on
//! first access are observationally the same. Neither minting nor writing ever takes an
//! entry away.

use vstd::prelude::*;

use crate::graph::SlotId;
use crate::ingress_core::option_view;
use crate::keyed_order::{after_anchor, before_anchor, clamped};
use crate::reactive::{Computed, ReactiveGraph, Source, ThreadSafeContext};
use crate::reactive_family::{
    EntryKind, FamilyShell, FamilyState, MapHandle, Standing, no_slots_at_none,
};
use crate::value::{Key, views};

verus! {

/// Closes the set of node kinds.
pub trait Sealed {

}

impl<V> Sealed for Source<V> {

}

impl<V> Sealed for Computed<V> {

}

/// The node kinds that an entry can take: inputs and derived nodes. Sealed.
pub trait ThreadSafeMapHandle<V>: Sealed + MapHandle {

}

impl<V> ThreadSafeMapHandle<V> for Source<V> {

}

impl<V> ThreadSafeMapHandle<V> for Computed<V> {

}

/// A keyed reactive collection, generic over the node kind of its entries and over the
/// factories that derived entries keep.
pub struct ThreadSafeReactiveMap<K, V, H, F = ()> {
    shell: FamilyShell<K, V, H>,
    factories: Vec<F>,
}

/// A map of inputs.
pub type ThreadSafeSourceMap<K, V> = ThreadSafeReactiveMap<K, V, Source<V>>;

/// A map of derived nodes, minted on access or up front.
pub type ThreadSafeComputedMap<K, V, F> = ThreadSafeReactiveMap<K, V, Computed<V>, F>;

impl<K: Key, V: Key, H: ThreadSafeMapHandle<V>, F> View for ThreadSafeReactiveMap<K, V, H, F> {
    type V = FamilyState<K::V, V::V, H>;

    closed spec fn view(&self) -> FamilyState<K::V, V::V, H> {
        self.shell@
    }
}

impl<K: Key, V: Key, H: ThreadSafeMapHandle<V>, F> ThreadSafeReactiveMap<K, V, H, F> {
    /// The factories that derived entries were minted with, oldest first.
    pub closed spec fn factories(&self) -> Seq<F> {
        self.factories@
    }

    /// The factory that makes the value of a derived entry.
    pub open spec fn maker(&self, id: K::V) -> F {
        self.factories()[self@.entries[id].maker as int]
    }

    /// The map is one that the operations can reach.
    pub closed spec fn wf(&self) -> bool {
        &&& self.shell.wf()
        &&& H::entry_kind() is Computed ==> forall|id: K::V| #[trigger]
            self@.handles.contains_key(id) ==> self@.entries[id].maker < self.factories@.len()
    }

    /// What well-formedness says to a caller.
    pub proof fn wf_facts(&self)
        requires
            self.wf(),
        ensures
            self@.wf(),
            H::entry_kind() is Computed ==> forall|id: K::V| #[trigger]
                self@.handles.contains_key(id) ==> self@.entries[id].maker
                    < self.factories().len(),
    {
        self.shell.wf_facts();
    }

    /// An empty collection.
    pub fn new(ctx: &mut ThreadSafeContext) -> (map: Self)
        requires
            old(ctx).wf(),
        ensures
            final(ctx).wf(),
            map.wf(),
            map@ == FamilyState::<K::V, V::V, H>::initial(old(ctx).ledger().slots.len() as int),
            map@.on(final(ctx).ledger()),
            map.factories() == Seq::<F>::empty(),
            final(ctx).ledger() == old(ctx).ledger().grown(2),
    {
        ThreadSafeReactiveMap { shell: FamilyShell::new(ctx), factories: Vec::new() }
    }

    /// The keys in their current order. Follows the order signal.
    pub fn keys(&self, _ctx: &ThreadSafeContext) -> (keys: Vec<K>)
        ensures
            keys@.map_values(|key: K| key@) == self@.ids,
    {
        self.shell.keys()
    }

    /// The number of entries. Follows the membership signal.
    pub fn len(&self, _ctx: &ThreadSafeContext) -> (count: usize)
        ensures
            count == self@.ids.len(),
    {
        self.shell.len()
    }

    /// Whether there is no entry. Follows the membership signal.
    pub fn is_empty(&self, _ctx: &ThreadSafeContext) -> (answer: bool)
        ensures
            answer == (self@.ids.len() == 0),
    {
        self.shell.len() == 0
    }

    /// Whether `key` is present. Follows the membership signal.
    pub fn contains_key(&self, _ctx: &ThreadSafeContext, key: &K) -> (answer: bool)
        requires
            self.wf(),
        ensures
            answer == self@.ids.contains(key@),
    {
        self.shell.contains_key(key)
    }

    /// The handle for `key`, or `None`. Mints nothing.
    pub fn handle(&self, key: &K) -> (handle: Option<H>)
        requires
            self.wf(),
        ensures
            match handle {
                Some(found) => self@.handles.contains_key(key@) && found == self@.handles[key@],
                None => !self@.handles.contains_key(key@),
            },
    {
        self.shell.handle(key)
    }

    /// Whether `key` is present. Follows no signal.
    pub fn is_present(&self, key: &K) -> (answer: bool)
        requires
            self.wf(),
        ensures
            answer == self@.ids.contains(key@),
    {
        self.shell.contains_key(key)
    }

    /// The present keys. Follows no signal.
    pub fn present_keys(&self) -> (keys: Vec<K>)
        ensures
            keys@.map_values(|key: K| key@) == self@.ids,
    {
        self.shell.keys()
    }

    /// The number of present entries. Follows no signal.
    pub fn present_count(&self) -> (count: usize)
        ensures
            count == self@.ids.len(),
    {
        self.shell.len()
    }

    /// This map's entry kind.
    pub fn entry_kind(&self) -> (kind: EntryKind)
        ensures
            kind == H::entry_kind(),
    {
        H::kind()
    }

    /// Removes an entry. Returns whether the key was present.
    pub fn remove(&mut self, ctx: &mut ThreadSafeContext, key: &K) -> (present: bool)
        requires
            old(ctx).wf(),
            old(self).wf(),
            old(self)@.on(old(ctx).ledger()),
        ensures
            final(ctx).wf(),
            final(self).wf(),
            final(self)@.on(final(ctx).ledger()),
            final(self).factories() == old(self).factories(),
            present == old(self)@.handles.contains_key(key@),
            (final(self)@, final(ctx).ledger()) == old(self)@.removed(old(ctx).ledger(), key@),
    {
        self.shell.remove(ctx, key)
    }

    /// The position of `key` in the order, or `None` if absent.
    pub fn position(&self, key: &K) -> (position: Option<usize>)
        requires
            self.wf(),
        ensures
            match position {
                Some(index) => index < self@.ids.len() && self@.ids[index as int] == key@
                    && self@.ids.index_of(key@) == index,
                None => !self@.ids.contains(key@),
            },
    {
        self.shell.position(key)
    }

    /// Atomically moves `key` to `index`, clamped to the last position. The entry keeps
    /// its node. Returns whether `key` was present.
    pub fn move_to(&mut self, ctx: &mut ThreadSafeContext, key: &K, index: usize) -> (present: bool)
        requires
            old(ctx).wf(),
            old(self).wf(),
            old(self)@.on(old(ctx).ledger()),
        ensures
            final(ctx).wf(),
            final(self).wf(),
            final(self)@.on(final(ctx).ledger()),
            final(self).factories() == old(self).factories(),
            present == old(self)@.ids.contains(key@),
            (final(self)@, final(ctx).ledger()) == if present {
                old(self)@.reordered(
                    old(ctx).ledger(),
                    old(self)@.ids.index_of(key@),
                    clamped(index as int, old(self)@.ids.len() as int),
                )
            } else {
                (old(self)@, old(ctx).ledger())
            },
    {
        self.shell.move_to(ctx, key, index)
    }

    /// Atomically moves `key` to just before `anchor`. Returns `false` if either key is
    /// absent.
    pub fn move_before(&mut self, ctx: &mut ThreadSafeContext, key: &K, anchor: &K) -> (present:
        bool)
        requires
            old(ctx).wf(),
            old(self).wf(),
            old(self)@.on(old(ctx).ledger()),
        ensures
            final(ctx).wf(),
            final(self).wf(),
            final(self)@.on(final(ctx).ledger()),
            final(self).factories() == old(self).factories(),
            present == (old(self)@.ids.contains(key@) && old(self)@.ids.contains(anchor@)),
            (final(self)@, final(ctx).ledger()) == if present {
                let from = old(self)@.ids.index_of(key@);
                old(self)@.reordered(
                    old(ctx).ledger(),
                    from,
                    before_anchor(from, old(self)@.ids.index_of(anchor@)),
                )
            } else {
                (old(self)@, old(ctx).ledger())
            },
    {
        self.shell.move_before(ctx, key, anchor)
    }

    /// Atomically moves `key` to just after `anchor`. Returns `false` if either key is
    /// absent.
    pub fn move_after(&mut self, ctx: &mut ThreadSafeContext, key: &K, anchor: &K) -> (present:
        bool)
        requires
            old(ctx).wf(),
            old(self).wf(),
            old(self)@.on(old(ctx).ledger()),
        ensures
            final(ctx).wf(),
            final(self).wf(),
            final(self)@.on(final(ctx).ledger()),
            final(self).factories() == old(self).factories(),
            present == (old(self)@.ids.contains(key@) && old(self)@.ids.contains(anchor@)),
            (final(self)@, final(ctx).ledger()) == if present {
                let from = old(self)@.ids.index_of(key@);
                old(self)@.reordered(
                    old(ctx).ledger(),
                    from,
                    after_anchor(from, old(self)@.ids.index_of(anchor@)),
                )
            } else {
                (old(self)@, old(ctx).ledger())
            },
    {
        self.shell.move_after(ctx, key, anchor)
    }

    /// The slot of the membership signal.
    pub fn membership_slot(&self) -> (slot: SlotId)
        ensures
            slot == self@.membership,
    {
        self.shell.membership_slot()
    }

    /// The slot of the order signal.
    pub fn order_slot(&self) -> (slot: SlotId)
        ensures
            slot == self@.order,
    {
        self.shell.order_slot()
    }
}

impl<K: Key, V: Key> ThreadSafeReactiveMap<K, V, Source<V>> {
    /// The handle for `key`, an input with the value `factory(&key)` where it was absent. A
    /// repeat gives the same handle and does not call the factory.
    pub fn get_or_insert_handle<G: Fn(&K) -> V>(
        &mut self,
        ctx: &mut ThreadSafeContext,
        key: K,
        factory: G,
    ) -> (handle: Source<V>)
        requires
            old(ctx).wf(),
            old(self).wf(),
            old(self)@.on(old(ctx).ledger()),
            !old(self)@.handles.contains_key(key@) ==> call_requires(factory, (&key,)),
        ensures
            final(ctx).wf(),
            final(self).wf(),
            final(self)@.on(final(ctx).ledger()),
            handle == final(self)@.handles[key@],
            old(self)@.handles.contains_key(key@) ==> final(self)@ == old(self)@
                && final(ctx).ledger() == old(ctx).ledger(),
            !old(self)@.handles.contains_key(key@) ==> exists|value: V|
                {
                    &&& #[trigger] call_ensures(factory, (&key,), value)
                    &&& (final(self)@, final(ctx).ledger()) == old(self)@.minted(
                        old(ctx).ledger(),
                        key@,
                        value@,
                    )
                },
    {
        self.shell.get_or_insert_handle(ctx, key, factory)
    }

    /// The value at `key`, an input with the value `factory(&key)` where it was absent.
    pub fn get_or_insert_with<G: Fn(&K) -> V>(
        &mut self,
        ctx: &mut ThreadSafeContext,
        key: K,
        factory: G,
    ) -> (value: V)
        requires
            old(ctx).wf(),
            old(self).wf(),
            old(self)@.on(old(ctx).ledger()),
            !old(self)@.handles.contains_key(key@) ==> call_requires(factory, (&key,)),
        ensures
            final(ctx).wf(),
            final(self).wf(),
            final(self)@.on(final(ctx).ledger()),
            old(self)@.handles.contains_key(key@) ==> {
                &&& final(self)@ == old(self)@
                &&& final(ctx).ledger() == old(ctx).ledger()
                &&& Some(value@) == old(self)@.entries[key@].value
            },
            !old(self)@.handles.contains_key(key@) ==> exists|made: V|
                {
                    &&& #[trigger] call_ensures(factory, (&key,), made)
                    &&& value@ == made@
                    &&& (final(self)@, final(ctx).ledger()) == old(self)@.minted(
                        old(ctx).ledger(),
                        key@,
                        made@,
                    )
                },
    {
        match self.shell.observe(ctx, &key) {
            Some(value) => value,
            None => {
                proof {
                    self.shell.wf_facts();
                }
                let value = factory(&key);
                self.shell.set(ctx, key, value.duplicate());
                value
            },
        }
    }

    /// What a reader of `key` sees, or `None` where it is absent. Mints nothing.
    pub fn observe(&self, ctx: &ThreadSafeContext, key: &K) -> (value: Option<V>)
        requires
            ctx.wf(),
            self.wf(),
            self@.on(ctx.ledger()),
        ensures
            option_view(value) == self@.observed(ctx.ledger(), key@),
    {
        self.shell.observe(ctx, key)
    }

    /// Sets the value at `key`, inserting a new input where it is absent.
    pub fn set(&mut self, ctx: &mut ThreadSafeContext, key: K, value: V)
        requires
            old(ctx).wf(),
            old(self).wf(),
            old(self)@.on(old(ctx).ledger()),
        ensures
            final(ctx).wf(),
            final(self).wf(),
            final(self)@.on(final(ctx).ledger()),
            (final(self)@, final(ctx).ledger()) == old(self)@.written(
                old(ctx).ledger(),
                key@,
                value@,
            ),
    {
        self.shell.set(ctx, key, value);
    }
}

impl<K: Key, V: Key, F: Fn(&K) -> V> ThreadSafeReactiveMap<K, V, Computed<V>, F> {
    /// The handle for `key`, a derived node that keeps `factory` where it was absent. The
    /// factory does not run before the first read. A repeat gives the same handle and keeps
    /// the factory that was there.
    pub fn get_or_insert_handle(
        &mut self,
        ctx: &mut ThreadSafeContext,
        key: K,
        factory: F,
    ) -> (handle: Computed<V>)
        requires
            old(ctx).wf(),
            old(self).wf(),
            old(self)@.on(old(ctx).ledger()),
        ensures
            final(ctx).wf(),
            final(self).wf(),
            final(self)@.on(final(ctx).ledger()),
            handle == final(self)@.handles[key@],
            old(self)@.handles.contains_key(key@) ==> {
                &&& final(self)@ == old(self)@
                &&& final(self).factories() == old(self).factories()
                &&& final(ctx).ledger() == old(ctx).ledger()
            },
            !old(self)@.handles.contains_key(key@) ==> {
                &&& (final(self)@, final(ctx).ledger()) == old(self)@.deferred(
                    old(ctx).ledger(),
                    key@,
                    old(self).factories().len(),
                    Seq::empty(),
                )
                &&& final(self).factories() == old(self).factories().push(factory)
            },
    {
        match self.shell.handle(&key) {
            Some(handle) => handle,
            None => {
                let ghost id = key@;
                let ghost start = *self;
                let maker: usize = self.factories.len();
                let handle = self.shell.defer(ctx, key, maker, Vec::new());
                self.factories.push(factory);
                proof {
                    no_slots_at_none();
                    start.deferring_keeps_makers(*self, id);
                }
                handle
            },
        }
    }

    /// A further entry with a further factory leaves every entry with a factory.
    proof fn deferring_keeps_makers(self, after: Self, id: K::V)
        requires
            self.wf(),
            after.shell.wf(),
            after.factories@.len() == self.factories@.len() + 1,
            after@.handles == self@.handles.insert(id, after@.handles[id]),
            after@.entries.contains_key(id),
            after@.entries[id].maker == self.factories@.len(),
            forall|other: K::V| #[trigger]
                self@.handles.contains_key(other) && other != id ==> after@.entries[other]
                    == self@.entries[other],
        ensures
            after.wf(),
    {
        assert forall|other: K::V| #[trigger]
            after@.handles.contains_key(other) implies after@.entries[other].maker
            < after.factories@.len() by {
            if other != id {
                assert(self@.handles.contains_key(other));
            }
        }
    }

    /// The value at `key`: what a read of the entry gives, which is minted with `factory`
    /// first where it was absent.
    pub fn get_or_insert_with(
        &mut self,
        ctx: &mut ThreadSafeContext,
        key: K,
        factory: F,
    ) -> (value: V)
        requires
            old(ctx).wf(),
            old(self).wf(),
            old(self)@.on(old(ctx).ledger()),
            old(self)@.handles.contains_key(key@) && !old(self)@.shows(
                old(ctx).ledger(),
                key@,
            ) ==> call_requires(old(self).maker(key@), (&key,)),
            !old(self)@.handles.contains_key(key@) ==> call_requires(factory, (&key,)),
        ensures
            final(ctx).wf(),
            final(self).wf(),
            final(self)@.on(final(ctx).ledger()),
            old(self)@.handles.contains_key(key@) ==> {
                &&& final(self).factories() == old(self).factories()
                &&& if old(self)@.shows(old(ctx).ledger(), key@) {
                    &&& Some(value@) == old(self)@.entries[key@].value
                    &&& final(self)@ == old(self)@
                    &&& final(ctx).ledger() == old(ctx).ledger()
                } else {
                    &&& exists|made: V| #[trigger]
                        call_ensures(old(self).maker(key@), (&key,), made) && made@ == value@
                    &&& (final(self)@, final(ctx).ledger()) == old(self)@.resolved(
                        old(ctx).ledger(),
                        key@,
                        value@,
                    )
                }
            },
            !old(self)@.handles.contains_key(key@) ==> {
                let (minted, ledger) = old(self)@.deferred(
                    old(ctx).ledger(),
                    key@,
                    old(self).factories().len(),
                    Seq::empty(),
                );
                &&& final(self).factories() == old(self).factories().push(factory)
                &&& exists|made: V| #[trigger]
                    call_ensures(factory, (&key,), made) && made@ == value@
                &&& (final(self)@, final(ctx).ledger()) == minted.resolved(ledger, key@, value@)
            },
    {
        match self.shell.standing(ctx, &key) {
            Standing::Shown(value) => value,
            Standing::Due(maker) => self.make(ctx, &key, maker),
            Standing::Absent => {
                let maker: usize = self.factories.len();
                let _handle = self.get_or_insert_handle(ctx, key.duplicate(), factory);
                self.make(ctx, &key, maker)
            },
        }
    }

    /// Runs the factory that an entry keeps, and gives the entry what it made.
    fn make(&mut self, ctx: &mut ThreadSafeContext, key: &K, maker: usize) -> (value: V)
        requires
            old(ctx).wf(),
            old(self).wf(),
            old(self)@.on(old(ctx).ledger()),
            old(self)@.handles.contains_key(key@),
            old(self)@.entries[key@].maker == maker,
            call_requires(old(self).maker(key@), (key,)),
        ensures
            final(ctx).wf(),
            final(self).wf(),
            final(self)@.on(final(ctx).ledger()),
            final(self).factories() == old(self).factories(),
            exists|made: V| #[trigger]
                call_ensures(old(self).maker(key@), (key,), made) && made@ == value@,
            (final(self)@, final(ctx).ledger()) == old(self)@.resolved(
                old(ctx).ledger(),
                key@,
                value@,
            ),
    {
        let ghost start = *self;
        let value = (self.factories[maker])(key);
        self.shell.settle_entry(ctx, key, value.duplicate());
        proof {
            assert forall|id: K::V| #[trigger] self@.handles.contains_key(id) implies
                self@.entries[id].maker < self.factories@.len() by {
                assert(start@.handles.contains_key(id));
            }
        }
        value
    }

    /// What a reader of `key` sees, or `None` where it is absent. Mints nothing. The first
    /// read runs the factory that the entry keeps; later ones give the value that it made.
    pub fn observe(&mut self, ctx: &mut ThreadSafeContext, key: &K) -> (value: Option<V>)
        requires
            old(ctx).wf(),
            old(self).wf(),
            old(self)@.on(old(ctx).ledger()),
            old(self)@.handles.contains_key(key@) && !old(self)@.shows(
                old(ctx).ledger(),
                key@,
            ) ==> call_requires(old(self).maker(key@), (key,)),
        ensures
            final(ctx).wf(),
            final(self).wf(),
            final(self)@.on(final(ctx).ledger()),
            final(self).factories() == old(self).factories(),
            match value {
                None => {
                    &&& !old(self)@.handles.contains_key(key@)
                    &&& final(self)@ == old(self)@
                    &&& final(ctx).ledger() == old(ctx).ledger()
                },
                Some(shown) => {
                    &&& old(self)@.handles.contains_key(key@)
                    &&& if old(self)@.shows(old(ctx).ledger(), key@) {
                        &&& old(self)@.entries[key@].value == Some(shown@)
                        &&& final(self)@ == old(self)@
                        &&& final(ctx).ledger() == old(ctx).ledger()
                    } else {
                        &&& exists|made: V| #[trigger]
                            call_ensures(old(self).maker(key@), (key,), made) && made@ == shown@
                        &&& (final(self)@, final(ctx).ledger()) == old(self)@.resolved(
                            old(ctx).ledger(),
                            key@,
                            shown@,
                        )
                    }
                },
            },
    {
        match self.shell.standing(ctx, key) {
            Standing::Absent => None,
            Standing::Shown(value) => Some(value),
            Standing::Due(maker) => Some(self.make(ctx, key, maker)),
        }
    }

    /// Pre-mints a derived node for every key, all with the same factory, which runs for
    /// none of them before it is read. Observationally identical to minting each on first
    /// access.
    pub fn materialize_all(&mut self, ctx: &mut ThreadSafeContext, keys: Vec<K>, factory: F)
        requires
            old(ctx).wf(),
            old(self).wf(),
            old(self)@.on(old(ctx).ledger()),
        ensures
            final(ctx).wf(),
            final(self).wf(),
            final(self)@.on(final(ctx).ledger()),
            final(self).factories() == old(self).factories().push(factory),
            (final(self)@, final(ctx).ledger()) == old(self)@.deferred_all(
                old(ctx).ledger(),
                views(keys@),
                old(self).factories().len(),
            ),
    {
        let ghost start = self@;
        let ghost ledger = ctx.ledger();
        let maker: usize = self.factories.len();
        self.factories.push(factory);
        let ghost ids = views(keys@);
        proof {
            self.shell.wf_facts();
        }
        self.shell.defer_all(ctx, keys, maker);
        proof {
            start.deferring_all_keeps_makers(ledger, ids, maker as nat);
        }
    }
}

} // verus!
