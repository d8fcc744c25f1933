//! The keyed reactive collection behind the map flavors: a present set with an
//! authoritative order, one node per entry, and two signals.
//!
//! The membership signal moves when the set of keys changes, the order signal when the
//! order does. Neither moves when an entry's value does.

use vstd::prelude::*;

use crate::graph::{Ledger, SlotId, settling_moves_one};
use crate::ingress_core::option_view;
use crate::keyed_order::{KeyedOrder, Move, after_anchor, before_anchor, clamped, shifted};
use crate::reactive::{
    AsyncComputed, AsyncSource, Computed, ReactiveGraph, Source, SourceCell, clear_marked,
};
use crate::table::KeyedTable;
use crate::value::{Key, Datum, views};

verus! {

/// What kind of node an entry is.
#[derive(Debug, Clone, Copy, PartialEq, Eq, Structural)]
pub enum EntryKind {
    /// An input that can be set.
    Source,
    /// A derived node.
    Computed,
}

/// The node kinds that an entry of any flavor can take.
pub trait MapHandle: Copy {
    /// The handle to a slot.
    spec fn bound(slot: SlotId) -> Self;

    /// The slot that a handle points to.
    spec fn at(self) -> SlotId;

    /// This handle's entry kind.
    spec fn entry_kind() -> EntryKind;

    /// A handle points to its slot.
    proof fn bound_at(slot: SlotId)
        ensures
            Self::bound(slot).at() == slot,
    ;

    /// The handle to a slot.
    fn bind(slot: SlotId) -> (handle: Self)
        ensures
            handle == Self::bound(slot),
    ;

    /// The slot that this handle points to.
    fn node(&self) -> (slot: SlotId)
        ensures
            slot == self.at(),
    ;

    /// This handle's entry kind.
    fn kind() -> (kind: EntryKind)
        ensures
            kind == Self::entry_kind(),
    ;
}

impl<V> MapHandle for Source<V> {
    open spec fn bound(slot: SlotId) -> Self {
        Source::of(slot)
    }

    open spec fn at(self) -> SlotId {
        self.slot()
    }

    open spec fn entry_kind() -> EntryKind {
        EntryKind::Source
    }

    proof fn bound_at(slot: SlotId) {
        Source::<V>::of_slot(slot);
    }

    fn bind(slot: SlotId) -> (handle: Self) {
        Source::new(slot)
    }

    fn node(&self) -> (slot: SlotId) {
        self.id()
    }

    fn kind() -> (kind: EntryKind) {
        EntryKind::Source
    }
}

impl<V> MapHandle for Computed<V> {
    open spec fn bound(slot: SlotId) -> Self {
        Computed::of(slot)
    }

    open spec fn at(self) -> SlotId {
        self.slot()
    }

    open spec fn entry_kind() -> EntryKind {
        EntryKind::Computed
    }

    proof fn bound_at(slot: SlotId) {
        Computed::<V>::of_slot(slot);
    }

    fn bind(slot: SlotId) -> (handle: Self) {
        Computed::new(slot)
    }

    fn node(&self) -> (slot: SlotId) {
        self.id()
    }

    fn kind() -> (kind: EntryKind) {
        EntryKind::Computed
    }
}

impl<V> MapHandle for AsyncSource<V> {
    open spec fn bound(slot: SlotId) -> Self {
        AsyncSource::of(slot)
    }

    open spec fn at(self) -> SlotId {
        self.slot()
    }

    open spec fn entry_kind() -> EntryKind {
        EntryKind::Source
    }

    proof fn bound_at(slot: SlotId) {
        AsyncSource::<V>::of_slot(slot);
    }

    fn bind(slot: SlotId) -> (handle: Self) {
        AsyncSource::new(slot)
    }

    fn node(&self) -> (slot: SlotId) {
        self.id()
    }

    fn kind() -> (kind: EntryKind) {
        EntryKind::Source
    }
}

impl<V> MapHandle for AsyncComputed<V> {
    open spec fn bound(slot: SlotId) -> Self {
        AsyncComputed::of(slot)
    }

    open spec fn at(self) -> SlotId {
        self.slot()
    }

    open spec fn entry_kind() -> EntryKind {
        EntryKind::Computed
    }

    proof fn bound_at(slot: SlotId) {
        AsyncComputed::<V>::of_slot(slot);
    }

    fn bind(slot: SlotId) -> (handle: Self) {
        AsyncComputed::new(slot)
    }

    fn node(&self) -> (slot: SlotId) {
        self.id()
    }

    fn kind() -> (kind: EntryKind) {
        EntryKind::Computed
    }
}

/// One entry, over views.
#[verifier::ext_equal]
pub struct EntryState<P> {
    /// Its value, once there is one.
    pub value: Option<P>,
    /// Which of the map's factories makes it.
    pub maker: nat,
}

/// A keyed reactive collection, over views.
#[verifier::ext_equal]
#[verifier::reject_recursive_types(Id)]
pub struct FamilyState<Id, P, H> {
    /// The keys, in their current order.
    pub ids: Seq<Id>,
    /// The handle of each key.
    pub handles: Map<Id, H>,
    /// The entry of each key.
    pub entries: Map<Id, EntryState<P>>,
    /// The slot of the membership signal.
    pub membership: SlotId,
    /// The slot of the order signal.
    pub order: SlotId,
}

/// The positions of some slots, in order.
pub open spec fn slots_at(slots: Seq<SlotId>) -> Seq<int> {
    slots.map_values(|slot: SlotId| slot.index as int)
}

/// No slots have no positions.
pub proof fn no_slots_at_none()
    ensures
        slots_at(Seq::empty()) == Seq::<int>::empty(),
{
    assert(slots_at(Seq::empty()) =~= Seq::<int>::empty());
}

/// The one root.
pub open spec fn only(slot: SlotId) -> Set<int> {
    Set::<int>::empty().insert(slot.index as int)
}

impl<Id, P, H: MapHandle> FamilyState<Id, P, H> {
    /// An empty collection, its signals on two consecutive slots.
    pub open spec fn initial(first: int) -> Self {
        FamilyState {
            ids: Seq::empty(),
            handles: Map::empty(),
            entries: Map::empty(),
            membership: SlotId { index: first as usize },
            order: SlotId { index: (first + 1) as usize },
        }
    }

    /// Keys, handles and entries are in lockstep, no key occurs twice, and every input has
    /// a value.
    pub open spec fn wf(self) -> bool {
        &&& self.ids.no_duplicates()
        &&& forall|id: Id| self.ids.contains(id) <==> #[trigger] self.handles.contains_key(id)
        &&& self.entries.dom() == self.handles.dom()
        &&& H::entry_kind() is Source ==> forall|id: Id| #[trigger]
            self.handles.contains_key(id) ==> self.entries[id].value is Some
    }

    /// Signals stand on slots that depend on nothing, and no two nodes share a slot.
    pub open spec fn on(self, ledger: Ledger) -> bool {
        &&& self.order.index == self.membership.index + 1
        &&& ledger.leaf(self.membership)
        &&& ledger.leaf(self.order)
        &&& forall|id: Id| #[trigger]
            self.handles.contains_key(id) ==> ledger.has(self.handles[id].at())
                && self.handles[id].at().index > self.order.index
        &&& forall|id: Id, other: Id| #[trigger]
            self.handles.contains_key(id) && #[trigger] self.handles.contains_key(other) && id
                != other ==> self.handles[id].at() != self.handles[other].at()
    }

    /// A collection stays on a ledger that only grows.
    pub proof fn stays_on(self, ledger: Ledger, later: Ledger)
        requires
            self.on(ledger),
            later.extends(ledger),
        ensures
            self.on(later),
    {
        assert forall|id: Id| #[trigger] self.handles.contains_key(id) implies later.has(
            self.handles[id].at(),
        ) && self.handles[id].at().index > self.order.index by {
            assert(ledger.has(self.handles[id].at()));
        }
    }

    /// The ledger after a change of the key set: both signals move.
    pub open spec fn bumped(self, ledger: Ledger) -> Ledger {
        ledger.cleared(only(self.membership)).cleared(only(self.order))
    }

    /// An entry whose node follows some slots, minted where there was none. A present key
    /// keeps its handle and its entry.
    pub open spec fn minted_over(
        self,
        ledger: Ledger,
        id: Id,
        entry: EntryState<P>,
        deps: Seq<int>,
    ) -> (Self, Ledger) {
        if self.handles.contains_key(id) {
            (self, ledger)
        } else {
            let slot = SlotId { index: ledger.slots.len() as usize };
            (
                FamilyState {
                    ids: self.ids.push(id),
                    handles: self.handles.insert(id, H::bound(slot)),
                    entries: self.entries.insert(id, entry),
                    ..self
                },
                self.bumped(ledger.allocated(deps)),
            )
        }
    }

    /// An input minted with its value where there was none.
    pub open spec fn minted(self, ledger: Ledger, id: Id, value: P) -> (Self, Ledger) {
        self.minted_over(
            ledger,
            id,
            EntryState { value: Some(value), maker: 0 },
            Seq::empty(),
        )
    }

    /// A derived node minted where there was none, its value still to be made by one of the
    /// factories.
    pub open spec fn deferred(self, ledger: Ledger, id: Id, maker: nat, deps: Seq<int>) -> (
        Self,
        Ledger,
    ) {
        self.minted_over(ledger, id, EntryState { value: None, maker }, deps)
    }

    /// Derived nodes minted for some keys, in order.
    pub open spec fn deferred_all(self, ledger: Ledger, ids: Seq<Id>, maker: nat) -> (
        Self,
        Ledger,
    )
        decreases ids.len(),
    {
        if ids.len() == 0 {
            (self, ledger)
        } else {
            let (fewer, here) = self.deferred_all(ledger, ids.drop_last(), maker);
            fewer.deferred(here, ids.last(), maker, Seq::empty())
        }
    }

    /// Nodes minted with one factory keep the others with theirs.
    pub proof fn deferring_all_keeps_makers(self, ledger: Ledger, ids: Seq<Id>, maker: nat)
        requires
            self.wf(),
            forall|id: Id| #[trigger]
                self.handles.contains_key(id) ==> self.entries[id].maker <= maker,
        ensures
            forall|id: Id| #[trigger]
                self.deferred_all(ledger, ids, maker).0.handles.contains_key(id)
                    ==> self.deferred_all(ledger, ids, maker).0.entries[id].maker <= maker,
        decreases ids.len(),
    {
        if ids.len() > 0 {
            self.deferring_all_keeps_makers(ledger, ids.drop_last(), maker);
        }
    }

    /// A value written: in place where the key is present, minted where it is not. The
    /// same value again is no write.
    pub open spec fn written(self, ledger: Ledger, id: Id, value: P) -> (Self, Ledger) {
        if self.handles.contains_key(id) {
            if self.entries[id].value == Some(value) {
                (self, ledger)
            } else {
                (
                    FamilyState {
                        entries: self.entries.insert(
                            id,
                            EntryState { value: Some(value), ..self.entries[id] },
                        ),
                        ..self
                    },
                    ledger.cleared(only(self.handles[id].at())),
                )
            }
        } else {
            self.minted(ledger, id, value)
        }
    }

    /// An entry taken out: its node's dependents fall, and both signals move.
    pub open spec fn removed(self, ledger: Ledger, id: Id) -> (Self, Ledger) {
        if self.handles.contains_key(id) {
            (
                FamilyState {
                    ids: self.ids.remove(self.ids.index_of(id)),
                    handles: self.handles.remove(id),
                    entries: self.entries.remove(id),
                    ..self
                },
                self.bumped(ledger.cleared(only(self.handles[id].at()))),
            )
        } else {
            (self, ledger)
        }
    }

    /// An entry moved from one position to another: only the order signal moves, and
    /// only where the order does.
    pub open spec fn reordered(self, ledger: Ledger, from: int, to: int) -> (Self, Ledger) {
        (
            FamilyState { ids: shifted(self.ids, from, to), ..self },
            if from == to {
                ledger
            } else {
                ledger.cleared(only(self.order))
            },
        )
    }

    /// Whether an entry shows a value: an input always does, a derived node once its value
    /// was made and for as long as what it follows stands.
    pub open spec fn shows(self, ledger: Ledger, id: Id) -> bool {
        self.entries[id].value is Some && (H::entry_kind() is Source || ledger.clean(
            self.handles[id].at(),
        ))
    }

    /// What a reader of an entry sees: nothing while it is absent or pending.
    pub open spec fn observed(self, ledger: Ledger, id: Id) -> Option<P> {
        if self.handles.contains_key(id) && self.shows(ledger, id) {
            self.entries[id].value
        } else {
            None
        }
    }

    /// With an entry's value made, and its node clean.
    pub open spec fn resolved(self, ledger: Ledger, id: Id, value: P) -> (Self, Ledger) {
        (
            FamilyState {
                entries: self.entries.insert(
                    id,
                    EntryState { value: Some(value), ..self.entries[id] },
                ),
                ..self
            },
            ledger.settled(self.handles[id].at()),
        )
    }
}

/// How a derived entry stands before it is read.
pub enum Standing<V> {
    /// There is none.
    Absent,
    /// It shows a value.
    Shown(V),
    /// Its value is still to be made, by one of the map's factories.
    Due(usize),
}

/// One entry.
struct Entry<V> {
    value: Option<V>,
    maker: usize,
}

impl<V: View> View for Entry<V> {
    type V = EntryState<V::V>;

    closed spec fn view(&self) -> EntryState<V::V> {
        EntryState { value: option_view(self.value), maker: self.maker as nat }
    }
}

/// A keyed reactive collection on any context.
pub struct FamilyShell<K, V, H> {
    order: KeyedOrder<K, H>,
    entries: KeyedTable<K, Entry<V>>,
    membership: SourceCell<u64>,
    order_signal: SourceCell<u64>,
}

impl<K: Key, V: Key, H: MapHandle> View for FamilyShell<K, V, H> {
    type V = FamilyState<K::V, V::V, H>;

    closed spec fn view(&self) -> FamilyState<K::V, V::V, H> {
        FamilyState {
            ids: self.order.ids(),
            handles: self.order.handles(),
            entries: self.entries.map().map_values(|entry: Entry<V>| entry@),
            membership: self.membership.slot(),
            order: self.order_signal.slot(),
        }
    }
}

impl<K: Key, V: Key, H: MapHandle> FamilyShell<K, V, H> {
    /// The collection is one that the operations can reach.
    pub closed spec fn wf(&self) -> bool {
        self.order.wf() && self.entries.wf() && self@.wf()
    }

    /// What well-formedness says to a caller.
    pub proof fn wf_facts(&self)
        requires
            self.wf(),
        ensures
            self@.wf(),
    {
    }

    /// An empty collection.
    pub fn new<G: ReactiveGraph>(ctx: &mut G) -> (map: Self)
        requires
            old(ctx).wf(),
        ensures
            final(ctx).wf(),
            map.wf(),
            map@ == FamilyState::<K::V, V::V, H>::initial(old(ctx).ledger().slots.len() as int),
            map@.on(final(ctx).ledger()),
            final(ctx).ledger() == old(ctx).ledger().grown(2),
    {
        proof {
            reveal_with_fuel(Ledger::grown, 3);
        }
        let map = FamilyShell {
            order: KeyedOrder::new(),
            entries: KeyedTable::new(),
            membership: SourceCell::new(ctx, 0u64),
            order_signal: SourceCell::new(ctx, 0u64),
        };
        proof {
            assert(map@ =~= FamilyState::<K::V, V::V, H>::initial(
                old(ctx).ledger().slots.len() as int,
            ));
        }
        map
    }

    /// Moves the order signal.
    fn bump_order<G: ReactiveGraph>(&mut self, ctx: &mut G)
        requires
            old(ctx).wf(),
            old(self)@.on(old(ctx).ledger()),
        ensures
            final(ctx).wf(),
            final(self).order == old(self).order,
            final(self).entries == old(self).entries,
            final(self)@ == old(self)@,
            final(self)@.on(final(ctx).ledger()),
            final(ctx).ledger() == old(ctx).ledger().cleared(only(old(self)@.order)),
    {
        let version = *self.order_signal.get();
        let ghost ledger = ctx.ledger();
        proof {
            assert(version.wrapping_add(1) != version);
        }
        self.order_signal.set(ctx, version.wrapping_add(1));
        proof {
            assert(self@ =~= old(self)@);
            self@.stays_on(ledger, ctx.ledger());
        }
    }

    /// Moves the membership signal, and the order signal with it.
    fn bump_membership<G: ReactiveGraph>(&mut self, ctx: &mut G)
        requires
            old(ctx).wf(),
            old(self)@.on(old(ctx).ledger()),
        ensures
            final(ctx).wf(),
            final(self).order == old(self).order,
            final(self).entries == old(self).entries,
            final(self)@ == old(self)@,
            final(self)@.on(final(ctx).ledger()),
            final(ctx).ledger() == old(self)@.bumped(old(ctx).ledger()),
    {
        let version = *self.membership.get();
        let ghost ledger = ctx.ledger();
        proof {
            assert(version.wrapping_add(1) != version);
        }
        self.membership.set(ctx, version.wrapping_add(1));
        proof {
            assert(self@ =~= old(self)@);
            self@.stays_on(ledger, ctx.ledger());
        }
        self.bump_order(ctx);
    }

    /// Mints an entry, its node over some slots. The key must be absent.
    fn mint<G: ReactiveGraph>(
        &mut self,
        ctx: &mut G,
        key: K,
        entry: Entry<V>,
        upstream: Vec<SlotId>,
    ) -> (handle: H)
        requires
            old(ctx).wf(),
            old(self).wf(),
            old(self)@.on(old(ctx).ledger()),
            !old(self)@.handles.contains_key(key@),
            H::entry_kind() is Source ==> entry.value is Some,
            forall|i: int|
                0 <= i < upstream@.len() ==> old(ctx).ledger().has(#[trigger] upstream@[i]),
        ensures
            final(ctx).wf(),
            final(self).wf(),
            final(self)@.on(final(ctx).ledger()),
            (final(self)@, final(ctx).ledger()) == old(self)@.minted_over(
                old(ctx).ledger(),
                key@,
                entry@,
                slots_at(upstream@),
            ),
            handle == final(self)@.handles[key@],
    {
        let ghost start = self@;
        let ghost ledger = ctx.ledger();
        let ghost id = key@;
        let ghost made = entry@;
        proof {
            self.order.lockstep();
        }
        let slot = ctx.allocate(upstream);
        let handle = H::bind(slot);
        let _bound = self.order.insert(key.duplicate(), handle);
        self.entries.put(key, entry);
        proof {
            let here = ctx.ledger();
            H::bound_at(slot);
            assert(self@.entries =~= start.entries.insert(id, made));
            assert(self@ =~= FamilyState {
                ids: start.ids.push(id),
                handles: start.handles.insert(id, H::bound(slot)),
                entries: self@.entries,
                ..start
            });
            assert forall|other: K::V| #[trigger] self@.handles.contains_key(other) implies here.has(
                self@.handles[other].at(),
            ) && self@.handles[other].at().index > self@.order.index by {
                if other != id {
                    assert(start.handles.contains_key(other));
                }
            }
            assert forall|one: K::V, other: K::V| #[trigger]
                self@.handles.contains_key(one) && #[trigger] self@.handles.contains_key(other)
                    && one != other implies self@.handles[one].at()
                != self@.handles[other].at() by {
                if one != id {
                    assert(start.handles.contains_key(one));
                    assert(ledger.has(start.handles[one].at()));
                }
                if other != id {
                    assert(start.handles.contains_key(other));
                    assert(ledger.has(start.handles[other].at()));
                }
            }
            self.order.lockstep();
            assert(self@.entries.dom() =~= self@.handles.dom());
            assert forall|other: K::V| H::entry_kind() is Source && #[trigger]
                self@.handles.contains_key(other) implies self@.entries[other].value is Some by {
                if other != id {
                    assert(start.handles.contains_key(other));
                }
            }
        }
        self.bump_membership(ctx);
        handle
    }

    /// The handle for `key`, minted with the value `factory(&key)` on first access. A repeat
    /// gives the same handle and does not call the factory.
    pub fn get_or_insert_handle<G: ReactiveGraph, F: Fn(&K) -> V>(
        &mut self,
        ctx: &mut G,
        key: K,
        factory: F,
    ) -> (handle: H)
        requires
            old(ctx).wf(),
            old(self).wf(),
            old(self)@.on(old(ctx).ledger()),
            !old(self)@.handles.contains_key(key@) ==> call_requires(factory, (&key,)),
        ensures
            final(ctx).wf(),
            final(self).wf(),
            final(self)@.on(final(ctx).ledger()),
            handle == final(self)@.handles[key@],
            old(self)@.handles.contains_key(key@) ==> final(self)@ == old(self)@
                && final(ctx).ledger() == old(ctx).ledger(),
            !old(self)@.handles.contains_key(key@) ==> exists|value: V|
                {
                    &&& #[trigger] call_ensures(factory, (&key,), value)
                    &&& (final(self)@, final(ctx).ledger()) == old(self)@.minted(
                        old(ctx).ledger(),
                        key@,
                        value@,
                    )
                },
    {
        match self.order.get(&key) {
            Some(handle) => handle,
            None => {
                let value = factory(&key);
                proof {
                    no_slots_at_none();
                }
                self.mint(ctx, key, Entry { value: Some(value), maker: 0 }, Vec::new())
            },
        }
    }

    /// Mints a derived node over some slots, its value to be made by one of the factories.
    /// The key must be absent.
    pub fn defer<G: ReactiveGraph>(
        &mut self,
        ctx: &mut G,
        key: K,
        maker: usize,
        upstream: Vec<SlotId>,
    ) -> (handle: H)
        requires
            old(ctx).wf(),
            old(self).wf(),
            old(self)@.on(old(ctx).ledger()),
            !old(self)@.handles.contains_key(key@),
            H::entry_kind() is Computed,
            forall|i: int|
                0 <= i < upstream@.len() ==> old(ctx).ledger().has(#[trigger] upstream@[i]),
        ensures
            final(ctx).wf(),
            final(self).wf(),
            final(self)@.on(final(ctx).ledger()),
            handle == final(self)@.handles[key@],
            (final(self)@, final(ctx).ledger()) == old(self)@.deferred(
                old(ctx).ledger(),
                key@,
                maker as nat,
                slots_at(upstream@),
            ),
    {
        self.mint(ctx, key, Entry { value: None, maker }, upstream)
    }

    /// Writes a value: in place where the key is present, minted where it is not.
    pub fn set<G: ReactiveGraph>(&mut self, ctx: &mut G, key: K, value: V)
        requires
            old(ctx).wf(),
            old(self).wf(),
            old(self)@.on(old(ctx).ledger()),
        ensures
            final(ctx).wf(),
            final(self).wf(),
            final(self)@.on(final(ctx).ledger()),
            (final(self)@, final(ctx).ledger()) == old(self)@.written(
                old(ctx).ledger(),
                key@,
                value@,
            ),
    {
        let ghost start = self@;
        let ghost ledger = ctx.ledger();
        let ghost id = key@;
        let ghost written = value@;
        let slot = match self.order.get(&key) {
            Some(handle) => handle.node(),
            None => {
                proof {
                    no_slots_at_none();
                }
                let _handle = self.mint(
                    ctx,
                    key,
                    Entry { value: Some(value), maker: 0 },
                    Vec::new(),
                );
                return;
            },
        };
        proof {
            assert(self@.entries.contains_key(id));
            assert(self.entries.map().contains_key(id));
            assert(ledger.has(start.handles[id].at()));
        }
        let index = self.index_of(&key);
        let same = match &self.entries.value_at(index).value {
            Some(current) => current.same(&value),
            None => false,
        };
        if same {
            return;
        }
        let entry = self.entries.value_at_mut(index);
        entry.value = Some(value);
        proof {
            assert(self@.entries =~= start.entries.insert(
                id,
                EntryState { value: Some(written), ..start.entries[id] },
            ));
            assert(self@ =~= start.written(ledger, id, written).0);
            assert(self@.entries.dom() =~= self@.handles.dom());
        }
        clear_marked(ctx, true, slot);
        proof {
            start.stays_on(ledger, ctx.ledger());
            assert(self@.on(ctx.ledger())) by {
                assert(self@.handles == start.handles);
            }
        }
    }

    /// Where a present key's entry stands.
    fn index_of(&self, key: &K) -> (index: usize)
        requires
            self.wf(),
            self@.entries.contains_key(key@),
        ensures
            index < self.entries.ids().len(),
            self.entries.ids()[index as int] == key@,
            self.entries.map().contains_key(key@),
            self.entries.map()[key@]@ == self@.entries[key@],
    {
        match self.entries.find(key) {
            Some(index) => index,
            None => {
                proof {
                    assert(self.entries.map().contains_key(key@));
                }
                0
            },
        }
    }

    /// Removes an entry. Returns whether the key was present.
    pub fn remove<G: ReactiveGraph>(&mut self, ctx: &mut G, key: &K) -> (present: bool)
        requires
            old(ctx).wf(),
            old(self).wf(),
            old(self)@.on(old(ctx).ledger()),
        ensures
            final(ctx).wf(),
            final(self).wf(),
            final(self)@.on(final(ctx).ledger()),
            present == old(self)@.handles.contains_key(key@),
            (final(self)@, final(ctx).ledger()) == old(self)@.removed(old(ctx).ledger(), key@),
    {
        let ghost start = self@;
        let ghost ledger = ctx.ledger();
        let ghost id = key@;
        proof {
            self.order.lockstep();
        }
        let (removed, _mutation) = self.order.remove(key);
        let handle = match removed {
            Some(handle) => handle,
            None => {
                proof {
                    assert(self@ =~= start);
                }
                return false;
            },
        };
        proof {
            assert(start.handles.contains_key(id));
            assert(start.entries.contains_key(id));
            assert(self.entries.map().contains_key(id));
            assert(ledger.has(start.handles[id].at()));
        }
        match self.entries.find(key) {
            Some(index) => {
                let _entry = self.entries.remove_at(index);
            },
            None => {},
        }
        proof {
            assert(self@.entries =~= start.entries.remove(id));
            assert(self@ =~= start.removed(ledger, id).0);
            self.order.lockstep();
            assert(self@.entries.dom() =~= self@.handles.dom());
            assert(self@.on(ledger)) by {
                assert forall|other: K::V| #[trigger] self@.handles.contains_key(
                    other,
                ) implies ledger.has(self@.handles[other].at()) && self@.handles[other].at().index
                    > self@.order.index by {
                    assert(start.handles.contains_key(other));
                }
                assert forall|one: K::V, other: K::V| #[trigger]
                    self@.handles.contains_key(one) && #[trigger] self@.handles.contains_key(other)
                        && one != other implies self@.handles[one].at()
                    != self@.handles[other].at() by {
                    assert(start.handles.contains_key(one));
                    assert(start.handles.contains_key(other));
                }
            }
        }
        clear_marked(ctx, true, handle.node());
        proof {
            self@.stays_on(ledger, ctx.ledger());
        }
        self.bump_membership(ctx);
        true
    }

    /// Settles a move: the order signal moves exactly where the order did. Returns
    /// whether the move could be expressed.
    fn settle_move<G: ReactiveGraph>(&mut self, ctx: &mut G, outcome: Move) -> (present: bool)
        requires
            old(ctx).wf(),
            old(self)@.on(old(ctx).ledger()),
        ensures
            final(ctx).wf(),
            final(self).order == old(self).order,
            final(self).entries == old(self).entries,
            final(self)@ == old(self)@,
            final(self)@.on(final(ctx).ledger()),
            present == !(outcome is Absent),
            final(ctx).ledger() == if outcome is Reordered {
                old(ctx).ledger().cleared(only(old(self)@.order))
            } else {
                old(ctx).ledger()
            },
    {
        if outcome.changed() {
            self.bump_order(ctx);
        }
        outcome.is_present()
    }

    /// What a move of the order leaves in place.
    proof fn order_moved(before: Self, after: Self, ledger: Ledger)
        requires
            before.wf(),
            before@.on(ledger),
            after.order.wf(),
            after.order.handles() == before.order.handles(),
            after.entries == before.entries,
            after.membership == before.membership,
            after.order_signal == before.order_signal,
        ensures
            after.wf(),
            after@.on(ledger),
            after@ == (FamilyState { ids: after@.ids, ..before@ }),
    {
        after.order.lockstep();
        assert(after@ =~= FamilyState { ids: after@.ids, ..before@ });
    }

    /// Atomically moves `key` to `index`, clamped to the last position. The entry keeps
    /// its node. Returns whether `key` was present.
    pub fn move_to<G: ReactiveGraph>(
        &mut self,
        ctx: &mut G,
        key: &K,
        index: usize,
    ) -> (present: bool)
        requires
            old(ctx).wf(),
            old(self).wf(),
            old(self)@.on(old(ctx).ledger()),
        ensures
            final(ctx).wf(),
            final(self).wf(),
            final(self)@.on(final(ctx).ledger()),
            present == old(self)@.ids.contains(key@),
            (final(self)@, final(ctx).ledger()) == if present {
                old(self)@.reordered(
                    old(ctx).ledger(),
                    old(self)@.ids.index_of(key@),
                    clamped(index as int, old(self)@.ids.len() as int),
                )
            } else {
                (old(self)@, old(ctx).ledger())
            },
    {
        let outcome = self.order.move_to(key, index);
        proof {
            Self::order_moved(*old(self), *self, ctx.ledger());
        }
        self.settle_move(ctx, outcome)
    }

    /// Atomically moves `key` to just before `anchor`. Returns `false` if either key is
    /// absent.
    pub fn move_before<G: ReactiveGraph>(&mut self, ctx: &mut G, key: &K, anchor: &K) -> (present:
        bool)
        requires
            old(ctx).wf(),
            old(self).wf(),
            old(self)@.on(old(ctx).ledger()),
        ensures
            final(ctx).wf(),
            final(self).wf(),
            final(self)@.on(final(ctx).ledger()),
            present == (old(self)@.ids.contains(key@) && old(self)@.ids.contains(anchor@)),
            (final(self)@, final(ctx).ledger()) == if present {
                let from = old(self)@.ids.index_of(key@);
                old(self)@.reordered(
                    old(ctx).ledger(),
                    from,
                    before_anchor(from, old(self)@.ids.index_of(anchor@)),
                )
            } else {
                (old(self)@, old(ctx).ledger())
            },
    {
        let outcome = self.order.move_before(key, anchor);
        proof {
            Self::order_moved(*old(self), *self, ctx.ledger());
        }
        self.settle_move(ctx, outcome)
    }

    /// Atomically moves `key` to just after `anchor`. Returns `false` if either key is
    /// absent.
    pub fn move_after<G: ReactiveGraph>(&mut self, ctx: &mut G, key: &K, anchor: &K) -> (present:
        bool)
        requires
            old(ctx).wf(),
            old(self).wf(),
            old(self)@.on(old(ctx).ledger()),
        ensures
            final(ctx).wf(),
            final(self).wf(),
            final(self)@.on(final(ctx).ledger()),
            present == (old(self)@.ids.contains(key@) && old(self)@.ids.contains(anchor@)),
            (final(self)@, final(ctx).ledger()) == if present {
                let from = old(self)@.ids.index_of(key@);
                old(self)@.reordered(
                    old(ctx).ledger(),
                    from,
                    after_anchor(from, old(self)@.ids.index_of(anchor@)),
                )
            } else {
                (old(self)@, old(ctx).ledger())
            },
    {
        let outcome = self.order.move_after(key, anchor);
        proof {
            Self::order_moved(*old(self), *self, ctx.ledger());
        }
        self.settle_move(ctx, outcome)
    }

    /// Mints a derived node for every key that is absent, in order, their values to be made
    /// by one of the factories.
    pub fn defer_all<G: ReactiveGraph>(&mut self, ctx: &mut G, keys: Vec<K>, maker: usize)
        requires
            old(ctx).wf(),
            old(self).wf(),
            old(self)@.on(old(ctx).ledger()),
            H::entry_kind() is Computed,
        ensures
            final(ctx).wf(),
            final(self).wf(),
            final(self)@.on(final(ctx).ledger()),
            (final(self)@, final(ctx).ledger()) == old(self)@.deferred_all(
                old(ctx).ledger(),
                views(keys@),
                maker as nat,
            ),
    {
        let ghost items = keys@;
        let ghost start = self@;
        let ghost ledger = ctx.ledger();
        let ghost ids = views(items);
        proof {
            assert(ids.take(0) =~= Seq::empty());
        }
        for key in iter: keys
            invariant
                iter.seq() == items,
                ids == views(items),
                ctx.wf(),
                self.wf(),
                self@.on(ctx.ledger()),
                H::entry_kind() is Computed,
                (self@, ctx.ledger()) == start.deferred_all(
                    ledger,
                    ids.take(iter.index() as int),
                    maker as nat,
                ),
        {
            proof {
                let at = iter.index() as int;
                let longer = ids.take(at + 1);
                assert(longer.drop_last() =~= ids.take(at));
                assert(longer.last() == key@);
                no_slots_at_none();
            }
            match self.order.get(&key) {
                Some(_handle) => {},
                None => {
                    let _handle = self.defer(ctx, key, maker, Vec::new());
                },
            }
        }
        proof {
            assert(ids.take(items.len() as int) =~= ids);
        }
    }

    /// How the entry of a key stands.
    pub fn standing<G: ReactiveGraph>(&self, ctx: &G, key: &K) -> (standing: Standing<V>)
        requires
            ctx.wf(),
            self.wf(),
            self@.on(ctx.ledger()),
        ensures
            match standing {
                Standing::Absent => !self@.handles.contains_key(key@),
                Standing::Shown(value) => self@.observed(ctx.ledger(), key@) == Some(value@),
                Standing::Due(maker) => {
                    &&& self@.handles.contains_key(key@)
                    &&& !self@.shows(ctx.ledger(), key@)
                    &&& maker == self@.entries[key@].maker
                },
            },
    {
        match self.order.get(key) {
            Some(handle) => {
                proof {
                    assert(self@.entries.contains_key(key@));
                    assert(ctx.ledger().has(self@.handles[key@].at()));
                }
                let entry = self.entries.value_at(self.index_of(key));
                let stands = H::kind() == EntryKind::Source || ctx.is_clean(handle.node());
                match &entry.value {
                    Some(value) => if stands {
                        Standing::Shown(value.duplicate())
                    } else {
                        Standing::Due(entry.maker)
                    },
                    None => Standing::Due(entry.maker),
                }
            },
            None => Standing::Absent,
        }
    }

    /// Gives a present entry the value that was made for it.
    pub fn settle_entry<G: ReactiveGraph>(&mut self, ctx: &mut G, key: &K, value: V)
        requires
            old(ctx).wf(),
            old(self).wf(),
            old(self)@.on(old(ctx).ledger()),
            old(self)@.handles.contains_key(key@),
        ensures
            final(ctx).wf(),
            final(self).wf(),
            final(self)@.on(final(ctx).ledger()),
            (final(self)@, final(ctx).ledger()) == old(self)@.resolved(
                old(ctx).ledger(),
                key@,
                value@,
            ),
    {
        let ghost start = self@;
        let ghost ledger = ctx.ledger();
        let ghost id = key@;
        let ghost made = value@;
        let slot = match self.order.get(key) {
            Some(handle) => handle.node(),
            None => {
                return;
            },
        };
        proof {
            ctx.wf_facts();
            assert(self@.entries.contains_key(id));
            assert(ledger.has(start.handles[id].at()));
            settling_moves_one(ledger, slot, slot);
        }
        let index = self.index_of(key);
        ctx.settle(slot);
        let entry = self.entries.value_at_mut(index);
        entry.value = Some(value);
        proof {
            assert(self@.entries =~= start.entries.insert(
                id,
                EntryState { value: Some(made), ..start.entries[id] },
            ));
            assert(self@ =~= start.resolved(ledger, id, made).0);
            assert(self@.entries.dom() =~= self@.handles.dom());
            start.stays_on(ledger, ctx.ledger());
            assert(self@.on(ctx.ledger())) by {
                assert(self@.handles == start.handles);
            }
        }
    }

    /// The keys, in their current order.
    pub fn keys(&self) -> (keys: Vec<K>)
        ensures
            keys@.map_values(|key: K| key@) == self@.ids,
    {
        self.order.keys()
    }

    /// The number of entries.
    pub fn len(&self) -> (count: usize)
        ensures
            count == self@.ids.len(),
    {
        self.order.len()
    }

    /// Whether `key` is present.
    pub fn contains_key(&self, key: &K) -> (answer: bool)
        requires
            self.wf(),
        ensures
            answer == self@.ids.contains(key@),
            answer == self@.handles.contains_key(key@),
    {
        proof {
            self.order.lockstep();
        }
        self.order.contains(key)
    }

    /// The position of `key` in the order, or `None` if absent.
    pub fn position(&self, key: &K) -> (position: Option<usize>)
        requires
            self.wf(),
        ensures
            match position {
                Some(index) => index < self@.ids.len() && self@.ids[index as int] == key@
                    && self@.ids.index_of(key@) == index,
                None => !self@.ids.contains(key@),
            },
    {
        self.order.position(key)
    }

    /// The handle for `key`, or `None`. Mints nothing.
    pub fn handle(&self, key: &K) -> (handle: Option<H>)
        requires
            self.wf(),
        ensures
            match handle {
                Some(found) => self@.handles.contains_key(key@) && found == self@.handles[key@],
                None => !self@.handles.contains_key(key@),
            },
    {
        self.order.get(key)
    }

    /// What a reader of an entry sees: nothing while it is absent or pending.
    pub fn observe<G: ReactiveGraph>(&self, ctx: &G, key: &K) -> (value: Option<V>)
        requires
            ctx.wf(),
            self.wf(),
            self@.on(ctx.ledger()),
        ensures
            option_view(value) == self@.observed(ctx.ledger(), key@),
    {
        match self.standing(ctx, key) {
            Standing::Shown(value) => Some(value),
            _ => None,
        }
    }

    /// The slot of the membership signal.
    pub fn membership_slot(&self) -> (slot: SlotId)
        ensures
            slot == self@.membership,
    {
        self.membership.id()
    }

    /// The slot of the order signal.
    pub fn order_slot(&self) -> (slot: SlotId)
        ensures
            slot == self@.order,
    {
        self.order_signal.id()
    }
}

} // verus!
