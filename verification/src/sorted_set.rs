//! A set of identities, kept in ascending order.

use vstd::prelude::*;

use crate::sorted::{SortedTable, ascending, ascending_is_in_order, in_order};
use crate::value::{OrderedKey, lex_less};

verus! {

/// Identities in ascending order, each at most once.
#[derive(Debug, Clone, PartialEq, Eq)]
pub struct SortedSet<K> {
    table: SortedTable<K, ()>,
}

impl<K: OrderedKey> View for SortedSet<K> {
    type V = Set<K::V>;

    closed spec fn view(&self) -> Set<K::V> {
        self.table.ids().to_set()
    }
}

impl<K: OrderedKey> SortedSet<K> {
    /// The identities ascend.
    pub closed spec fn wf(&self) -> bool {
        self.table.wf()
    }

    /// The identities, ascending.
    pub closed spec fn ids(&self) -> Seq<K::V> {
        self.table.ids()
    }

    /// What well-formedness says to a caller.
    pub proof fn wf_facts(&self)
        requires
            self.wf(),
        ensures
            ascending::<K>(self.ids()),
            self.ids().no_duplicates(),
            self.ids() == in_order::<K>(self@),
            self.ids().to_set() == self@,
            self@.finite(),
            self@.len() == self.ids().len(),
            forall|id: K::V| self.ids().contains(id) <==> self@.contains(id),
    {
        self.table.wf_facts();
        ascending_is_in_order::<K>(self.ids());
        self.ids().unique_seq_to_set();
    }

    /// The empty set.
    pub fn new() -> (set: Self)
        ensures
            set.wf(),
            set@ == Set::<K::V>::empty(),
    {
        let set = SortedSet { table: SortedTable::new() };
        proof {
            assert(set@ =~= Set::<K::V>::empty());
        }
        set
    }

    /// How many identities there are.
    pub fn len(&self) -> (count: usize)
        requires
            self.wf(),
        ensures
            count == self@.len(),
            count == self.ids().len(),
    {
        proof {
            self.wf_facts();
        }
        self.table.len()
    }

    /// Whether there are none.
    pub fn is_empty(&self) -> (answer: bool)
        requires
            self.wf(),
        ensures
            answer == (self@ == Set::<K::V>::empty()),
    {
        proof {
            self.wf_facts();
            if self@.len() == 0 {
                assert(self.ids() =~= Seq::empty());
                assert(self@ =~= Set::<K::V>::empty());
            }
        }
        self.len() == 0
    }

    /// The identity at a position of the ascending order.
    pub fn at(&self, index: usize) -> (key: &K)
        requires
            index < self.ids().len(),
        ensures
            key@ == self.ids()[index as int],
    {
        self.table.key_at(index)
    }

    /// Whether an identity is a member.
    pub fn contains(&self, key: &K) -> (answer: bool)
        requires
            self.wf(),
        ensures
            answer == self@.contains(key@),
    {
        self.table.contains(key)
    }

    /// Adds an identity. Returns whether it is new.
    pub fn insert(&mut self, key: K) -> (is_new: bool)
        requires
            old(self).wf(),
        ensures
            final(self).wf(),
            is_new == !old(self)@.contains(key@),
            final(self)@ == old(self)@.insert(key@),
    {
        proof {
            self.wf_facts();
            self.table.wf_facts();
        }
        let ghost before = self@;
        let ghost id = key@;
        if self.table.contains(&key) {
            proof {
                assert(before.insert(id) =~= before);
            }
            return false;
        }
        self.table.put(key, ());
        proof {
            self.wf_facts();
            self.table.wf_facts();
            assert(self@ =~= before.insert(id));
        }
        true
    }

    /// Takes an identity out. Returns whether it was there.
    pub fn remove(&mut self, key: &K) -> (was_there: bool)
        requires
            old(self).wf(),
        ensures
            final(self).wf(),
            was_there == old(self)@.contains(key@),
            final(self)@ == old(self)@.remove(key@),
    {
        proof {
            self.wf_facts();
            self.table.wf_facts();
        }
        let ghost before = self@;
        let taken = self.table.remove(key);
        proof {
            self.wf_facts();
            self.table.wf_facts();
            assert(self@ =~= before.remove(key@));
        }
        taken.is_some()
    }

    /// Empties the set.
    pub fn clear(&mut self)
        ensures
            final(self).wf(),
            final(self)@ == Set::<K::V>::empty(),
    {
        self.table.clear();
        proof {
            assert(self@ =~= Set::<K::V>::empty());
        }
    }

    /// The members, ascending.
    pub fn to_vec(&self) -> (keys: Vec<K>)
        requires
            self.wf(),
        ensures
            keys@.map_values(|key: K| key@) == in_order::<K>(self@),
    {
        proof {
            self.wf_facts();
        }
        self.table.keys()
    }

    /// A set with the same members.
    pub fn duplicate(&self) -> (copy: Self)
        requires
            self.wf(),
        ensures
            copy.wf(),
            copy@ == self@,
    {
        let mut copy: SortedSet<K> = SortedSet::new();
        let mut index: usize = 0;
        proof {
            self.wf_facts();
            assert(self.ids().take(0).to_set() =~= Set::<K::V>::empty());
        }
        while index < self.len()
            invariant
                self.wf(),
                copy.wf(),
                index <= self.ids().len(),
                copy@ == self.ids().take(index as int).to_set(),
            decreases self.ids().len() - index,
        {
            copy.insert(self.at(index).duplicate());
            proof {
                let shorter = self.ids().take(index as int);
                let longer = self.ids().take(index + 1);
                assert(longer =~= shorter.push(self.ids()[index as int]));
                assert(longer.to_set() =~= shorter.to_set().insert(self.ids()[index as int])) by {
                    broadcast use vstd::seq_lib::group_seq_properties;
                }
            }
            index = index + 1;
        }
        proof {
            assert(self.ids().take(index as int) =~= self.ids());
            self.wf_facts();
        }
        copy
    }

    /// Whether every member is one of `other`.
    pub fn is_subset(&self, other: &Self) -> (answer: bool)
        requires
            self.wf(),
            other.wf(),
        ensures
            answer == self@.subset_of(other@),
    {
        let mut index: usize = 0;
        proof {
            self.wf_facts();
        }
        while index < self.len()
            invariant
                self.wf(),
                other.wf(),
                index <= self.ids().len(),
                forall|i: int| 0 <= i < index ==> other@.contains(#[trigger] self.ids()[i]),
            decreases self.ids().len() - index,
        {
            if !other.contains(self.at(index)) {
                proof {
                    self.wf_facts();
                    assert(self.ids().contains(self.ids()[index as int]));
                }
                return false;
            }
            index = index + 1;
        }
        proof {
            self.wf_facts();
            assert forall|id: K::V| self@.contains(id) implies other@.contains(id) by {
                assert(self.ids().contains(id));
                let at = self.ids().index_of(id);
                assert(self.ids()[at] == id);
            }
        }
        true
    }

    /// The members that are not in `other`, ascending.
    pub fn difference(&self, other: &Self) -> (keys: Vec<K>)
        requires
            self.wf(),
            other.wf(),
        ensures
            keys@.map_values(|key: K| key@) == in_order::<K>(self@.difference(other@)),
    {
        let mut keys: Vec<K> = Vec::new();
        let mut index: usize = 0;
        let ghost mut found: Seq<K::V> = Seq::empty();
        proof {
            self.wf_facts();
            assert(keys@.map_values(|key: K| key@) =~= found);
        }
        while index < self.len()
            invariant
                self.wf(),
                other.wf(),
                index <= self.ids().len(),
                ascending::<K>(self.ids()),
                keys@.map_values(|key: K| key@) == found,
                ascending::<K>(found),
                forall|i: int|
                    0 <= i < found.len() ==> exists|j: int|
                        0 <= j < index && #[trigger] self.ids()[j] == #[trigger] found[i]
                            && !other@.contains(found[i]),
                forall|j: int|
                    0 <= j < index && !other@.contains(#[trigger] self.ids()[j])
                        ==> found.contains(self.ids()[j]),
            decreases self.ids().len() - index,
        {
            let ghost id = self.ids()[index as int];
            if !other.contains(self.at(index)) {
                let ghost before = keys@;
                let ghost earlier = found;
                keys.push(self.at(index).duplicate());
                proof {
                    found = found.push(id);
                    assert(keys@.map_values(|key: K| key@) =~= before.map_values(
                        |key: K| key@,
                    ).push(id));
                    assert forall|i: int, j: int| 0 <= i < j < found.len() implies lex_less(
                        K::code(#[trigger] found[i]),
                        K::code(#[trigger] found[j]),
                    ) by {
                        if j == earlier.len() {
                            assert(found[i] == earlier[i]);
                            let at = choose|at: int|
                                0 <= at < index && #[trigger] self.ids()[at] == earlier[i];
                            assert(self.ids()[at] == found[i]);
                        } else {
                            assert(found[i] == earlier[i] && found[j] == earlier[j]);
                        }
                    }
                    assert forall|i: int| 0 <= i < found.len() implies exists|j: int|
                        0 <= j < index + 1 && #[trigger] self.ids()[j] == #[trigger] found[i]
                            && !other@.contains(found[i]) by {
                        if i < earlier.len() {
                            assert(found[i] == earlier[i]);
                            let at = choose|at: int|
                                0 <= at < index && #[trigger] self.ids()[at] == earlier[i]
                                    && !other@.contains(earlier[i]);
                            assert(self.ids()[at] == found[i]);
                        } else {
                            assert(self.ids()[index as int] == found[i]);
                        }
                    }
                    assert forall|j: int|
                        0 <= j < index + 1 && !other@.contains(
                            #[trigger] self.ids()[j],
                        ) implies found.contains(self.ids()[j]) by {
                        if j < index {
                            let at = earlier.index_of(self.ids()[j]);
                            assert(earlier[at] == self.ids()[j]);
                            assert(found[at] == self.ids()[j]);
                        } else {
                            assert(found[earlier.len() as int] == id);
                        }
                    }
                }
            }
            index = index + 1;
        }
        proof {
            self.wf_facts();
            assert forall|id: K::V| found.contains(id) <==> self@.difference(other@).contains(
                id,
            ) by {
                if found.contains(id) {
                    let at = found.index_of(id);
                    assert(found[at] == id);
                    let j = choose|j: int|
                        0 <= j < self.ids().len() && #[trigger] self.ids()[j] == found[at]
                            && !other@.contains(found[at]);
                    assert(self.ids().contains(self.ids()[j]));
                }
                if self@.contains(id) && !other@.contains(id) {
                    let at = self.ids().index_of(id);
                    assert(self.ids()[at] == id);
                }
            }
            assert(found.to_set() =~= self@.difference(other@));
            ascending_is_in_order::<K>(found);
        }
        keys
    }
}

} // verus!
