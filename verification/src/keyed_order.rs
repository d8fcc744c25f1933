//! Graph-agnostic keyed bookkeeping for the reactive map family: the present set,
//! its authoritative key order and the atomic-move algebra.
//!
//! Mutators report what changed and let the map decide which signals to bump.

use vstd::prelude::*;

use crate::table::KeyedTable;
use crate::value::Key;

verus! {

/// What an insert or remove did to the key set.
#[derive(Debug, Clone, Copy, PartialEq, Eq, Structural)]
pub enum Mutation {
    /// A key was added or removed: membership and order moved.
    Changed,
    /// Nothing changed.
    Unchanged,
}

/// The outcome of an atomic ordered move.
#[derive(Debug, Clone, Copy, PartialEq, Eq, Structural)]
pub enum Move {
    /// The key (or the anchor) is not in the order.
    Absent,
    /// The key is already at the requested position.
    Unchanged,
    /// The key changed position. Membership is untouched.
    Reordered,
}

impl Move {
    /// Whether the move could be expressed at all.
    pub fn is_present(self) -> (answer: bool)
        ensures
            answer == !(self is Absent),
    {
        !matches!(self, Move::Absent)
    }

    /// Whether the order actually changed.
    pub fn changed(self) -> (answer: bool)
        ensures
            answer == (self is Reordered),
    {
        matches!(self, Move::Reordered)
    }
}

/// A sequence with the item at one position put at another.
pub open spec fn shifted<A>(items: Seq<A>, from: int, to: int) -> Seq<A> {
    items.remove(from).insert(to, items[from])
}

/// Where a clamped move ends.
pub open spec fn clamped(index: int, len: int) -> int {
    if index < len {
        index
    } else {
        len - 1
    }
}

/// Where a key must go to stand right before an anchor.
pub open spec fn before_anchor(from: int, anchor: int) -> int {
    if from < anchor {
        anchor - 1
    } else {
        anchor
    }
}

/// Where a key must go to stand right behind an anchor.
pub open spec fn after_anchor(from: int, anchor: int) -> int {
    if from <= anchor {
        anchor
    } else {
        anchor + 1
    }
}

/// The present set plus its authoritative key order.
pub struct KeyedOrder<K, H> {
    entries: KeyedTable<K, H>,
}

impl<K: Key, H: Copy> Default for KeyedOrder<K, H> {
    fn default() -> (order: Self)
        ensures
            order.wf(),
            order.ids() == Seq::<K::V>::empty(),
            order.handles() == Map::<K::V, H>::empty(),
    {
        KeyedOrder { entries: KeyedTable::new() }
    }
}

impl<K: Key, H: Copy> KeyedOrder<K, H> {
    /// The keys, in their current order.
    pub closed spec fn ids(&self) -> Seq<K::V> {
        self.entries.ids()
    }

    /// The handle of each key.
    pub closed spec fn handles(&self) -> Map<K::V, H> {
        self.entries.map()
    }

    /// No key occurs twice.
    pub closed spec fn wf(&self) -> bool {
        self.entries.wf()
    }

    /// Set and order are in lockstep: a key has a handle exactly when it stands in
    /// the order, and it stands there once.
    pub proof fn lockstep(&self)
        requires
            self.wf(),
        ensures
            self.ids().no_duplicates(),
            forall|id: K::V| self.ids().contains(id) <==> #[trigger] self.handles().contains_key(
                id,
            ),
    {
    }

    /// An empty core.
    pub fn new() -> (order: Self)
        ensures
            order.wf(),
            order.ids() == Seq::<K::V>::empty(),
            order.handles() == Map::<K::V, H>::empty(),
    {
        KeyedOrder::default()
    }

    /// The handle for `key`, if present.
    pub fn get(&self, key: &K) -> (handle: Option<H>)
        requires
            self.wf(),
        ensures
            match handle {
                Some(found) => self.handles().contains_key(key@) && found == self.handles()[key@],
                None => !self.handles().contains_key(key@),
            },
    {
        match self.entries.get(key) {
            Some(handle) => Some(*handle),
            None => None,
        }
    }

    /// Whether `key` is in the present set.
    pub fn contains(&self, key: &K) -> (answer: bool)
        requires
            self.wf(),
        ensures
            answer == self.ids().contains(key@),
    {
        self.entries.contains(key)
    }

    /// Inserts `handle` at `key`, appending to the order. A present key keeps its
    /// handle. Returns the handle now bound and whether the key set grew.
    pub fn insert(&mut self, key: K, handle: H) -> (outcome: (H, Mutation))
        requires
            old(self).wf(),
        ensures
            final(self).wf(),
            if old(self).ids().contains(key@) {
                &&& outcome == (old(self).handles()[key@], Mutation::Unchanged)
                &&& final(self).ids() == old(self).ids()
                &&& final(self).handles() == old(self).handles()
            } else {
                &&& outcome == (handle, Mutation::Changed)
                &&& final(self).ids() == old(self).ids().push(key@)
                &&& final(self).handles() == old(self).handles().insert(key@, handle)
            },
    {
        match self.entries.find(&key) {
            Some(index) => {
                let existing = *self.entries.value_at(index);
                (existing, Mutation::Unchanged)
            },
            None => {
                self.entries.push(key, handle);
                (handle, Mutation::Changed)
            },
        }
    }

    /// Removes `key` from both planes, returning its handle if it was present.
    pub fn remove(&mut self, key: &K) -> (outcome: (Option<H>, Mutation))
        requires
            old(self).wf(),
        ensures
            final(self).wf(),
            if old(self).ids().contains(key@) {
                &&& outcome == (Some(old(self).handles()[key@]), Mutation::Changed)
                &&& final(self).ids() == old(self).ids().remove(old(self).ids().index_of(key@))
                &&& final(self).handles() == old(self).handles().remove(key@)
            } else {
                &&& outcome == (None::<H>, Mutation::Unchanged)
                &&& final(self).ids() == old(self).ids()
                &&& final(self).handles() == old(self).handles()
            },
    {
        match self.entries.find(key) {
            Some(index) => {
                let entry = self.entries.remove_at(index);
                (Some(entry.1), Mutation::Changed)
            },
            None => (None, Mutation::Unchanged),
        }
    }

    /// Snapshot of the keys in their current order.
    pub fn keys(&self) -> (keys: Vec<K>)
        ensures
            keys@.map_values(|key: K| key@) == self.ids(),
    {
        self.entries.keys()
    }

    /// Number of present entries.
    pub fn len(&self) -> (count: usize)
        ensures
            count == self.ids().len(),
    {
        self.entries.len()
    }

    /// Current position of `key` in the order, or `None` if absent.
    pub fn position(&self, key: &K) -> (position: Option<usize>)
        requires
            self.wf(),
        ensures
            match position {
                Some(index) => index < self.ids().len() && self.ids()[index as int] == key@
                    && self.ids().index_of(key@) == index,
                None => !self.ids().contains(key@),
            },
    {
        self.entries.find(key)
    }

    /// Atomically moves `key` to `index`, clamped to the last position. The entry
    /// keeps its handle.
    pub fn move_to(&mut self, key: &K, index: usize) -> (outcome: Move)
        requires
            old(self).wf(),
        ensures
            final(self).wf(),
            final(self).handles() == old(self).handles(),
            if !old(self).ids().contains(key@) {
                outcome is Absent && final(self).ids() == old(self).ids()
            } else {
                let from = old(self).ids().index_of(key@);
                let to = clamped(index as int, old(self).ids().len() as int);
                &&& outcome == if from == to {
                    Move::Unchanged
                } else {
                    Move::Reordered
                }
                &&& final(self).ids() == shifted(old(self).ids(), from, to)
            },
    {
        let from = match self.position(key) {
            Some(from) => from,
            None => {
                return Move::Absent;
            },
        };
        let ghost ids = self.ids();
        let last: usize = self.entries.len() - 1;
        let to: usize = if index < last {
            index
        } else {
            last
        };
        if from == to {
            proof {
                assert(shifted(ids, from as int, to as int) =~= ids);
            }
            return Move::Unchanged;
        }
        let ghost handles = self.handles();
        let ghost id = ids[from as int];
        let (moved, handle) = self.entries.remove_at(from);
        proof {
            assert(!self.ids().contains(id)) by {
                if self.ids().contains(id) {
                    let at = self.ids().index_of(id);
                    assert(self.ids()[at] == id);
                    let was = if at < from {
                        at
                    } else {
                        at + 1
                    };
                    assert(ids[was] == id);
                }
            }
        }
        self.entries.insert_at(to, moved, handle);
        proof {
            assert(self.handles() =~= handles);
        }
        Move::Reordered
    }

    /// Atomically moves `key` to just before `anchor`. `Absent` if either is
    /// missing.
    pub fn move_before(&mut self, key: &K, anchor: &K) -> (outcome: Move)
        requires
            old(self).wf(),
        ensures
            final(self).wf(),
            final(self).handles() == old(self).handles(),
            if !old(self).ids().contains(key@) || !old(self).ids().contains(anchor@) {
                outcome is Absent && final(self).ids() == old(self).ids()
            } else {
                let from = old(self).ids().index_of(key@);
                let to = before_anchor(from, old(self).ids().index_of(anchor@));
                &&& outcome == if from == to {
                    Move::Unchanged
                } else {
                    Move::Reordered
                }
                &&& final(self).ids() == shifted(old(self).ids(), from, to)
            },
    {
        let (anchor_index, from) = match (self.position(anchor), self.position(key)) {
            (Some(anchor_index), Some(from)) => (anchor_index, from),
            _ => {
                return Move::Absent;
            },
        };
        // Taking the key out first shifts an anchor behind it left by one.
        let target: usize = if from < anchor_index {
            anchor_index - 1
        } else {
            anchor_index
        };
        self.move_to(key, target)
    }

    /// Atomically moves `key` to just after `anchor`. `Absent` if either is
    /// missing.
    pub fn move_after(&mut self, key: &K, anchor: &K) -> (outcome: Move)
        requires
            old(self).wf(),
        ensures
            final(self).wf(),
            final(self).handles() == old(self).handles(),
            if !old(self).ids().contains(key@) || !old(self).ids().contains(anchor@) {
                outcome is Absent && final(self).ids() == old(self).ids()
            } else {
                let from = old(self).ids().index_of(key@);
                let to = after_anchor(from, old(self).ids().index_of(anchor@));
                &&& outcome == if from == to {
                    Move::Unchanged
                } else {
                    Move::Reordered
                }
                &&& final(self).ids() == shifted(old(self).ids(), from, to)
            },
    {
        let (anchor_index, from) = match (self.position(anchor), self.position(key)) {
            (Some(anchor_index), Some(from)) => (anchor_index, from),
            _ => {
                return Move::Absent;
            },
        };
        let target: usize = if from <= anchor_index {
            anchor_index
        } else {
            anchor_index + 1
        };
        self.move_to(key, target)
    }
}

/// A move neither adds nor drops a key, and the others keep their order.
pub proof fn moving_keeps_the_others<A>(items: Seq<A>, from: int, to: int)
    requires
        0 <= from < items.len(),
        0 <= to < items.len(),
    ensures
        shifted(items, from, to).len() == items.len(),
        shifted(items, from, to)[to] == items[from],
        shifted(items, from, to).remove(to) == items.remove(from),
        forall|item: A| items.contains(item) <==> #[trigger] shifted(
            items,
            from,
            to,
        ).contains(item),
{
    let after = shifted(items, from, to);
    let rest = items.remove(from);
    assert(after.remove(to) =~= rest);
    assert forall|item: A| items.contains(item) <==> #[trigger] after.contains(item) by {
        if items.contains(item) {
            let at = items.index_of(item);
            assert(items[at] == item);
            if at == from {
                assert(after[to] == item);
            } else {
                let mid = if at < from {
                    at
                } else {
                    at - 1
                };
                assert(rest[mid] == item);
                let now = if mid < to {
                    mid
                } else {
                    mid + 1
                };
                assert(after[now] == item);
            }
        }
        if after.contains(item) {
            let now = after.index_of(item);
            assert(after[now] == item);
            if now == to {
                assert(items[from] == item);
            } else {
                let mid = if now < to {
                    now
                } else {
                    now - 1
                };
                assert(rest[mid] == item);
                let at = if mid < from {
                    mid
                } else {
                    mid + 1
                };
                assert(items[at] == item);
            }
        }
    }
}

/// Moving before an anchor lands immediately ahead of it, from either side.
pub proof fn moving_before_lands_ahead<A>(items: Seq<A>, from: int, anchor: int)
    requires
        0 <= from < items.len(),
        0 <= anchor < items.len(),
        from != anchor,
    ensures
        ({
            let to = before_anchor(from, anchor);
            let after = shifted(items, from, to);
            &&& 0 <= to
            &&& to + 1 < after.len()
            &&& after[to] == items[from]
            &&& after[to + 1] == items[anchor]
        }),
{
}

/// Moving behind an anchor lands immediately behind it, from either side.
pub proof fn moving_after_lands_behind<A>(items: Seq<A>, from: int, anchor: int)
    requires
        0 <= from < items.len(),
        0 <= anchor < items.len(),
        from != anchor,
    ensures
        ({
            let to = after_anchor(from, anchor);
            let after = shifted(items, from, to);
            &&& 1 <= to
            &&& to < after.len()
            &&& after[to] == items[from]
            &&& after[to - 1] == items[anchor]
        }),
{
}

} // verus!
