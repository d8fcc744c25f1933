//! An association table in insertion order: each identity at most once.

use vstd::prelude::*;

use crate::value::Key;

verus! {

/// Entries in the order in which their keys first came in.
#[derive(Debug, Clone, PartialEq, Eq)]
pub struct KeyedTable<K, V> {
    entries: Vec<(K, V)>,
}

impl<K: Key, V> KeyedTable<K, V> {
    /// The entries, oldest first.
    pub closed spec fn entries(&self) -> Seq<(K, V)> {
        self.entries@
    }

    /// The identities, oldest first.
    pub open spec fn ids(&self) -> Seq<K::V> {
        self.entries().map_values(|entry: (K, V)| entry.0@)
    }

    /// No identity occurs twice.
    pub open spec fn wf(&self) -> bool {
        self.ids().no_duplicates()
    }

    /// What each identity maps to.
    pub open spec fn map(&self) -> Map<K::V, V> {
        Map::new(
            |id: K::V| self.ids().contains(id),
            |id: K::V| self.entries()[self.ids().index_of(id)].1,
        )
    }

    /// The entry at a position is what its identity maps to.
    pub proof fn entry_is_mapped(&self, index: int)
        requires
            self.wf(),
            0 <= index < self.entries().len(),
        ensures
            self.ids().len() == self.entries().len(),
            self.ids()[index] == self.entries()[index].0@,
            self.ids().contains(self.ids()[index]),
            self.ids().index_of(self.ids()[index]) == index,
            self.map().contains_key(self.ids()[index]),
            self.map()[self.ids()[index]] == self.entries()[index].1,
    {
        let id = self.ids()[index];
        assert(self.ids().contains(id));
        let found = self.ids().index_of(id);
        assert(self.ids()[found] == id);
    }

    /// Replacing the payload of one entry changes what its identity maps to and
    /// nothing else.
    proof fn update_is_insert(before: Self, after: Self, index: int, value: V)
        requires
            before.wf(),
            0 <= index < before.entries().len(),
            after.entries() == before.entries().update(index, (before.entries()[index].0, value)),
        ensures
            after.wf(),
            after.ids() == before.ids(),
            after.map() == before.map().insert(before.ids()[index], value),
    {
        assert(after.ids() =~= before.ids());
        let id = before.ids()[index];
        before.entry_is_mapped(index);
        after.entry_is_mapped(index);
        assert forall|other: K::V| before.ids().contains(other) && other != id implies
            after.map()[other] == before.map()[other] by {
            let at = before.ids().index_of(other);
            assert(before.ids()[at] == other);
        }
        assert(after.map() =~= before.map().insert(id, value));
    }

    /// An empty table.
    pub fn new() -> (table: Self)
        ensures
            table.wf(),
            table.entries() == Seq::<(K, V)>::empty(),
            table.ids() == Seq::<K::V>::empty(),
            table.map() == Map::<K::V, V>::empty(),
    {
        let table = KeyedTable { entries: Vec::new() };
        proof {
            assert(table.ids() =~= Seq::<K::V>::empty());
            assert(table.map() =~= Map::<K::V, V>::empty());
        }
        table
    }

    /// How many entries there are.
    pub fn len(&self) -> (count: usize)
        ensures
            count == self.ids().len(),
            count == self.entries().len(),
    {
        self.entries.len()
    }

    /// Where an identity stands, if it is here.
    pub fn find(&self, key: &K) -> (found: Option<usize>)
        requires
            self.wf(),
        ensures
            match found {
                Some(index) => index < self.entries().len() && self.ids()[index as int] == key@
                    && self.ids().index_of(key@) == index && self.map().contains_key(key@)
                    && self.map()[key@] == self.entries()[index as int].1,
                None => !self.map().contains_key(key@),
            },
    {
        let mut index: usize = 0;
        while index < self.entries.len()
            invariant
                self.wf(),
                index <= self.entries@.len(),
                forall|i: int| 0 <= i < index ==> self.ids()[i] != key@,
            decreases self.entries@.len() - index,
        {
            if self.entries[index].0.same(key) {
                proof {
                    self.entry_is_mapped(index as int);
                }
                return Some(index);
            }
            index = index + 1;
        }
        None
    }

    /// Whether an identity is here.
    pub fn contains(&self, key: &K) -> (answer: bool)
        requires
            self.wf(),
        ensures
            answer == self.map().contains_key(key@),
            answer == self.ids().contains(key@),
    {
        self.find(key).is_some()
    }

    /// What an identity maps to.
    pub fn get(&self, key: &K) -> (found: Option<&V>)
        requires
            self.wf(),
        ensures
            match found {
                Some(value) => self.map().contains_key(key@) && *value == self.map()[key@],
                None => !self.map().contains_key(key@),
            },
    {
        match self.find(key) {
            Some(index) => Some(&self.entries[index].1),
            None => None,
        }
    }

    /// The key at a position.
    pub fn key_at(&self, index: usize) -> (key: &K)
        requires
            index < self.ids().len(),
        ensures
            key@ == self.ids()[index as int],
    {
        &self.entries[index].0
    }

    /// The payload at a position.
    pub fn value_at(&self, index: usize) -> (value: &V)
        requires
            self.wf(),
            index < self.ids().len(),
        ensures
            *value == self.entries()[index as int].1,
            *value == self.map()[self.ids()[index as int]],
    {
        proof {
            self.entry_is_mapped(index as int);
        }
        &self.entries[index].1
    }

    /// Access to the payload at a position.
    pub fn value_at_mut(&mut self, index: usize) -> (value: &mut V)
        requires
            old(self).wf(),
            index < old(self).ids().len(),
        ensures
            *value == old(self).map()[old(self).ids()[index as int]],
            final(self).wf(),
            final(self).ids() == old(self).ids(),
            final(self).map() == old(self).map().insert(
                old(self).ids()[index as int],
                *final(value),
            ),
    {
        proof {
            self.entry_is_mapped(index as int);
            let before = *self;
            assert forall|after: Self|
                #[trigger] after.entries() == before.entries().update(
                    index as int,
                    (before.entries()[index as int].0, after.entries()[index as int].1),
                ) implies after.wf() && after.ids() == before.ids() && after.map()
                == before.map().insert(
                before.ids()[index as int],
                after.entries()[index as int].1,
            ) by {
                Self::update_is_insert(
                    before,
                    after,
                    index as int,
                    after.entries()[index as int].1,
                );
            }
        }
        &mut self.entries[index].1
    }

    /// Adds an entry at a position. The identity must be new.
    pub fn insert_at(&mut self, index: usize, key: K, value: V)
        requires
            old(self).wf(),
            index <= old(self).ids().len(),
            !old(self).ids().contains(key@),
        ensures
            final(self).wf(),
            final(self).ids() == old(self).ids().insert(index as int, key@),
            final(self).map() == old(self).map().insert(key@, value),
    {
        let ghost before = *self;
        let ghost id = key@;
        self.entries.insert(index, (key, value));
        proof {
            assert(self.ids() =~= before.ids().insert(index as int, id));
            assert forall|i: int, j: int|
                0 <= i < self.ids().len() && 0 <= j < self.ids().len() && i != j implies
                self.ids()[i] != self.ids()[j] by {
                let oi = if i < index { i } else { i - 1 };
                let oj = if j < index { j } else { j - 1 };
                if i == index {
                    assert(before.ids().contains(before.ids()[oj]));
                } else if j == index {
                    assert(before.ids().contains(before.ids()[oi]));
                } else {
                    assert(before.ids()[oi] == self.ids()[i]);
                    assert(before.ids()[oj] == self.ids()[j]);
                }
            }
            assert(self.wf());
            self.entry_is_mapped(index as int);
            assert forall|other: K::V| self.ids().contains(other) && other != id implies
                before.ids().contains(other) && self.map()[other] == before.map()[other] by {
                let at = self.ids().index_of(other);
                assert(self.ids()[at] == other);
                let oat = if at < index { at } else { at - 1 };
                assert(before.ids()[oat] == other);
                before.entry_is_mapped(oat);
                self.entry_is_mapped(at);
            }
            assert forall|other: K::V| before.ids().contains(other) implies self.ids().contains(
                other,
            ) by {
                let at = before.ids().index_of(other);
                assert(before.ids()[at] == other);
                let now = if at < index { at } else { at + 1 };
                assert(self.ids()[now] == other);
            }
            assert(self.map() =~= before.map().insert(id, value));
        }
    }

    /// Adds an entry behind the others. The identity must be new.
    pub fn push(&mut self, key: K, value: V)
        requires
            old(self).wf(),
            !old(self).ids().contains(key@),
        ensures
            final(self).wf(),
            final(self).ids() == old(self).ids().push(key@),
            final(self).map() == old(self).map().insert(key@, value),
    {
        let end = self.len();
        let ghost ids = self.ids();
        let ghost id = key@;
        self.insert_at(end, key, value);
        proof {
            assert(ids.insert(ids.len() as int, id) =~= ids.push(id));
        }
    }

    /// Maps an identity to a payload: in place where it is here, behind the others
    /// where it is new.
    pub fn put(&mut self, key: K, value: V)
        requires
            old(self).wf(),
        ensures
            final(self).wf(),
            final(self).ids() == if old(self).ids().contains(key@) {
                old(self).ids()
            } else {
                old(self).ids().push(key@)
            },
            final(self).map() == old(self).map().insert(key@, value),
    {
        match self.find(&key) {
            Some(index) => {
                let slot = self.value_at_mut(index);
                *slot = value;
            },
            None => {
                self.push(key, value);
            },
        }
    }

    /// Takes the entry at a position out; the others keep their order.
    pub fn remove_at(&mut self, index: usize) -> (entry: (K, V))
        requires
            old(self).wf(),
            index < old(self).ids().len(),
        ensures
            final(self).wf(),
            entry.0@ == old(self).ids()[index as int],
            entry.1 == old(self).map()[old(self).ids()[index as int]],
            final(self).ids() == old(self).ids().remove(index as int),
            final(self).map() == old(self).map().remove(old(self).ids()[index as int]),
    {
        let ghost before = *self;
        let ghost id = self.ids()[index as int];
        proof {
            self.entry_is_mapped(index as int);
        }
        let entry = self.entries.remove(index);
        proof {
            assert(self.ids() =~= before.ids().remove(index as int));
            assert forall|i: int, j: int|
                0 <= i < self.ids().len() && 0 <= j < self.ids().len() && i != j implies
                self.ids()[i] != self.ids()[j] by {
                let oi = if i < index { i } else { i + 1 };
                let oj = if j < index { j } else { j + 1 };
                assert(before.ids()[oi] == self.ids()[i]);
                assert(before.ids()[oj] == self.ids()[j]);
            }
            assert(self.wf());
            assert forall|other: K::V| self.ids().contains(other) implies other != id
                && before.ids().contains(other) && self.map()[other] == before.map()[other] by {
                let at = self.ids().index_of(other);
                assert(self.ids()[at] == other);
                let oat = if at < index { at } else { at + 1 };
                assert(before.ids()[oat] == other);
                before.entry_is_mapped(oat);
                self.entry_is_mapped(at);
            }
            assert forall|other: K::V| before.ids().contains(other) && other != id implies
                self.ids().contains(other) by {
                let at = before.ids().index_of(other);
                assert(before.ids()[at] == other);
                let now = if at < index { at } else { at - 1 };
                assert(self.ids()[now] == other);
            }
            assert(self.map() =~= before.map().remove(id));
        }
        entry
    }

    /// Every key, oldest first.
    pub fn keys(&self) -> (keys: Vec<K>)
        ensures
            keys@.map_values(|key: K| key@) == self.ids(),
    {
        let mut keys: Vec<K> = Vec::new();
        let mut index: usize = 0;
        while index < self.entries.len()
            invariant
                index <= self.entries@.len(),
                keys@.map_values(|key: K| key@) == self.ids().take(index as int),
            decreases self.entries@.len() - index,
        {
            let ghost before = keys@;
            keys.push(self.entries[index].0.duplicate());
            proof {
                assert(self.ids().take(index + 1) =~= self.ids().take(index as int).push(
                    self.ids()[index as int],
                ));
                assert(keys@.map_values(|key: K| key@) =~= before.map_values(|key: K| key@).push(
                    self.ids()[index as int],
                ));
            }
            index = index + 1;
        }
        proof {
            assert(self.ids().take(index as int) =~= self.ids());
        }
        keys
    }
}

} // verus!
