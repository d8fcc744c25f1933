//! An association table in key order.

use vstd::prelude::*;

use crate::table::KeyedTable;
use crate::value::{OrderedKey, lex_less, lex_less_irreflexive, lex_less_total, lex_less_transitive};

verus! {

/// Whether the identities stand in strictly ascending order.
pub open spec fn ascending<K: OrderedKey>(ids: Seq<K::V>) -> bool {
    forall|i: int, j: int|
        0 <= i < j < ids.len() ==> lex_less(K::code(#[trigger] ids[i]), K::code(#[trigger] ids[j]))
}

/// Two ascending sequences with the same members are the same sequence.
pub proof fn ascending_is_unique<K: OrderedKey>(a: Seq<K::V>, b: Seq<K::V>)
    requires
        ascending::<K>(a),
        ascending::<K>(b),
        forall|id: K::V| a.contains(id) <==> b.contains(id),
    ensures
        a == b,
    decreases a.len(),
{
    if a.len() == 0 {
        if b.len() > 0 {
            assert(b.contains(b[0]));
            assert(a.contains(b[0]));
        }
        assert(a =~= b);
    } else {
        assert(a.contains(a[0]));
        assert(b.contains(a[0]));
        let at = b.index_of(a[0]);
        assert(b[at] == a[0]);
        assert(b.contains(b[0]));
        assert(a.contains(b[0]));
        let back = a.index_of(b[0]);
        assert(a[back] == b[0]);
        if at > 0 {
            assert(lex_less(K::code(b[0]), K::code(b[at])));
            if back > 0 {
                assert(lex_less(K::code(a[0]), K::code(a[back])));
                lex_less_transitive(K::code(a[0]), K::code(b[0]), K::code(a[0]));
            }
            lex_less_irreflexive(K::code(a[0]));
        }
        let ta = a.skip(1);
        let tb = b.skip(1);
        assert(a[0] == b[0]);
        assert(ascending::<K>(ta)) by {
            assert forall|i: int, j: int| 0 <= i < j < ta.len() implies lex_less(
                K::code(#[trigger] ta[i]),
                K::code(#[trigger] ta[j]),
            ) by {
                assert(ta[i] == a[i + 1] && ta[j] == a[j + 1]);
            }
        }
        assert(ascending::<K>(tb)) by {
            assert forall|i: int, j: int| 0 <= i < j < tb.len() implies lex_less(
                K::code(#[trigger] tb[i]),
                K::code(#[trigger] tb[j]),
            ) by {
                assert(tb[i] == b[i + 1] && tb[j] == b[j + 1]);
            }
        }
        assert forall|id: K::V| ta.contains(id) implies tb.contains(id) by {
            let i = ta.index_of(id);
            assert(ta[i] == id && a[i + 1] == id);
            assert(lex_less(K::code(a[0]), K::code(a[i + 1])));
            lex_less_irreflexive(K::code(a[0]));
            assert(a.contains(id));
            let k = b.index_of(id);
            assert(b[k] == id);
            assert(tb[k - 1] == id);
        }
        assert forall|id: K::V| tb.contains(id) implies ta.contains(id) by {
            let i = tb.index_of(id);
            assert(tb[i] == id && b[i + 1] == id);
            assert(lex_less(K::code(b[0]), K::code(b[i + 1])));
            lex_less_irreflexive(K::code(b[0]));
            assert(b.contains(id));
            let k = a.index_of(id);
            assert(a[k] == id);
            assert(ta[k - 1] == id);
        }
        ascending_is_unique::<K>(ta, tb);
        assert(a =~= seq![a[0]] + ta);
        assert(b =~= seq![b[0]] + tb);
    }
}

/// The members of a set, ascending.
pub open spec fn in_order<K: OrderedKey>(ids: Set<K::V>) -> Seq<K::V> {
    choose|s: Seq<K::V>| ascending::<K>(s) && s.to_set() == ids
}

/// An ascending sequence is the ascending order of its members.
pub proof fn ascending_is_in_order<K: OrderedKey>(ids: Seq<K::V>)
    requires
        ascending::<K>(ids),
    ensures
        in_order::<K>(ids.to_set()) == ids,
{
    let chosen = in_order::<K>(ids.to_set());
    assert(ascending::<K>(chosen) && chosen.to_set() == ids.to_set());
    assert forall|id: K::V| chosen.contains(id) <==> ids.contains(id) by {
        assert(chosen.to_set().contains(id) <==> ids.to_set().contains(id));
    }
    ascending_is_unique::<K>(chosen, ids);
}

/// Every finite set has an ascending order.
pub proof fn in_order_exists<K: OrderedKey>(ids: Set<K::V>)
    requires
        ids.finite(),
    ensures
        ascending::<K>(in_order::<K>(ids)),
        in_order::<K>(ids).to_set() == ids,
{
    let order = order_of::<K>(ids);
    ascending_is_in_order::<K>(order);
}

/// The member that comes last.
proof fn last_of<K: OrderedKey>(ids: Set<K::V>) -> (top: K::V)
    requires
        ids.finite(),
        ids.len() > 0,
    ensures
        ids.contains(top),
        forall|id: K::V|
            ids.contains(id) && id != top ==> lex_less(#[trigger] K::code(id), K::code(top)),
    decreases ids.len(),
{
    let one = ids.choose();
    let rest = ids.remove(one);
    if rest.len() == 0 {
        assert forall|id: K::V| ids.contains(id) && id != one implies lex_less(
            #[trigger] K::code(id),
            K::code(one),
        ) by {
            assert(rest.contains(id));
        }
        one
    } else {
        let other = last_of::<K>(rest);
        lex_less_total(K::code(one), K::code(other));
        K::code_is_injective(one, other);
        let top = if lex_less(K::code(one), K::code(other)) {
            other
        } else {
            one
        };
        assert forall|id: K::V| ids.contains(id) && id != top implies lex_less(
            #[trigger] K::code(id),
            K::code(top),
        ) by {
            if id != one && id != other {
                assert(rest.contains(id));
                if top == one {
                    lex_less_transitive(K::code(id), K::code(other), K::code(one));
                }
            }
        }
        top
    }
}

/// The ascending order of a finite set.
proof fn order_of<K: OrderedKey>(ids: Set<K::V>) -> (order: Seq<K::V>)
    requires
        ids.finite(),
    ensures
        ascending::<K>(order),
        order.to_set() == ids,
    decreases ids.len(),
{
    if ids.len() == 0 {
        let order = Seq::<K::V>::empty();
        assert(order.to_set() =~= ids);
        order
    } else {
        let top = last_of::<K>(ids);
        let rest = order_of::<K>(ids.remove(top));
        let order = rest.push(top);
        assert forall|i: int, j: int| 0 <= i < j < order.len() implies lex_less(
            K::code(#[trigger] order[i]),
            K::code(#[trigger] order[j]),
        ) by {
            if j == rest.len() {
                assert(order[i] == rest[i]);
                assert(rest.to_set().contains(rest[i]));
                assert(ids.remove(top).contains(rest[i]));
            } else {
                assert(order[i] == rest[i] && order[j] == rest[j]);
            }
        }
        assert forall|id: K::V| order.to_set().contains(id) <==> ids.contains(id) by {
            if order.contains(id) {
                let at = order.index_of(id);
                assert(order[at] == id);
                if at < rest.len() {
                    assert(rest[at] == id);
                    assert(rest.to_set().contains(id));
                }
            }
            if ids.contains(id) {
                if id == top {
                    assert(order[rest.len() as int] == id);
                } else {
                    assert(rest.to_set().contains(id));
                    let at = rest.index_of(id);
                    assert(order[at] == id);
                }
            }
        }
        assert(order.to_set() =~= ids);
        order
    }
}

/// Entries in ascending key order, each identity at most once.
#[derive(Debug, Clone, PartialEq, Eq)]
pub struct SortedTable<K, V> {
    table: KeyedTable<K, V>,
}

impl<K: OrderedKey, V> SortedTable<K, V> {
    /// The identities, ascending.
    pub closed spec fn ids(&self) -> Seq<K::V> {
        self.table.ids()
    }

    /// What each identity maps to.
    pub closed spec fn map(&self) -> Map<K::V, V> {
        self.table.map()
    }

    /// The identities ascend, and they are exactly what the map is defined on.
    pub closed spec fn wf(&self) -> bool {
        &&& self.table.wf()
        &&& ascending::<K>(self.ids())
    }

    /// What well-formedness says to a caller.
    pub broadcast proof fn wf_facts(&self)
        requires
            #[trigger] self.wf(),
        ensures
            ascending::<K>(self.ids()),
            self.ids().no_duplicates(),
            forall|id: K::V| self.ids().contains(id) <==> #[trigger] self.map().contains_key(id),
            self.map().dom().finite(),
            self.map().dom() == self.ids().to_set(),
            self.map().len() == self.ids().len(),
    {
        assert(self.map().dom() =~= self.ids().to_set());
        self.ids().unique_seq_to_set();
    }

    /// An empty table.
    pub fn new() -> (table: Self)
        ensures
            table.wf(),
            table.ids() == Seq::<K::V>::empty(),
            table.map() == Map::<K::V, V>::empty(),
    {
        SortedTable { table: KeyedTable::new() }
    }

    /// How many entries there are.
    pub fn len(&self) -> (count: usize)
        requires
            self.wf(),
        ensures
            count == self.ids().len(),
            count == self.map().len(),
    {
        proof {
            self.wf_facts();
        }
        self.table.len()
    }

    /// Whether an identity is here.
    pub fn contains(&self, key: &K) -> (answer: bool)
        requires
            self.wf(),
        ensures
            answer == self.map().contains_key(key@),
            answer == self.ids().contains(key@),
    {
        self.table.contains(key)
    }

    /// What an identity maps to.
    pub fn get(&self, key: &K) -> (found: Option<&V>)
        requires
            self.wf(),
        ensures
            match found {
                Some(value) => self.map().contains_key(key@) && *value == self.map()[key@],
                None => !self.map().contains_key(key@),
            },
    {
        self.table.get(key)
    }

    /// Where an identity stands, if it is here.
    pub fn find(&self, key: &K) -> (found: Option<usize>)
        requires
            self.wf(),
        ensures
            match found {
                Some(index) => index < self.ids().len() && self.ids()[index as int] == key@
                    && self.map().contains_key(key@),
                None => !self.map().contains_key(key@),
            },
    {
        self.table.find(key)
    }

    /// The key at a position.
    pub fn key_at(&self, index: usize) -> (key: &K)
        requires
            index < self.ids().len(),
        ensures
            key@ == self.ids()[index as int],
    {
        self.table.key_at(index)
    }

    /// The payload at a position.
    pub fn value_at(&self, index: usize) -> (value: &V)
        requires
            self.wf(),
            index < self.ids().len(),
        ensures
            *value == self.map()[self.ids()[index as int]],
    {
        self.table.value_at(index)
    }

    /// Access to the payload at a position.
    pub fn value_at_mut(&mut self, index: usize) -> (value: &mut V)
        requires
            old(self).wf(),
            index < old(self).ids().len(),
        ensures
            *value == old(self).map()[old(self).ids()[index as int]],
            final(self).wf(),
            final(self).ids() == old(self).ids(),
            final(self).map() == old(self).map().insert(
                old(self).ids()[index as int],
                *final(value),
            ),
    {
        self.table.value_at_mut(index)
    }

    /// Maps an identity to a payload, whether it was here or not.
    pub fn put(&mut self, key: K, value: V)
        requires
            old(self).wf(),
        ensures
            final(self).wf(),
            final(self).map() == old(self).map().insert(key@, value),
            old(self).map().contains_key(key@) ==> final(self).ids() == old(self).ids(),
    {
        let ghost before = self.ids();
        let ghost id = key@;
        let mut index: usize = 0;
        while index < self.table.len()
            invariant
                self.wf(),
                id == key@,
                before == self.ids(),
                *self == *old(self),
                index <= before.len(),
                forall|i: int| 0 <= i < index ==> lex_less(
                    K::code(#[trigger] before[i]),
                    K::code(id),
                ),
            ensures
                index < before.len() ==> lex_less(K::code(id), K::code(before[index as int])),
            decreases before.len() - index,
        {
            if self.table.key_at(index).same(&key) {
                let slot = self.table.value_at_mut(index);
                *slot = value;
                proof {
                    self.table.entry_is_mapped(index as int);
                }
                return;
            }
            if key.precedes(self.table.key_at(index)) {
                break;
            }
            proof {
                K::code_is_injective(before[index as int], id);
                lex_less_total(K::code(before[index as int]), K::code(id));
            }
            index = index + 1;
        }
        proof {
            assert forall|i: int| index <= i < before.len() implies lex_less(
                K::code(id),
                K::code(#[trigger] before[i]),
            ) by {
                if i > index {
                    lex_less_transitive(
                        K::code(id),
                        K::code(before[index as int]),
                        K::code(before[i]),
                    );
                }
            }
            assert forall|i: int| 0 <= i < before.len() implies before[i] != id by {
                lex_less_irreflexive(K::code(id));
            }
            assert(!before.contains(id));
        }
        self.table.insert_at(index, key, value);
        proof {
            let after = self.ids();
            assert(after == before.insert(index as int, id));
            assert forall|i: int, j: int| 0 <= i < j < after.len() implies lex_less(
                K::code(#[trigger] after[i]),
                K::code(#[trigger] after[j]),
            ) by {
                let oi = if i < index { i } else { i - 1 };
                let oj = if j < index { j } else { j - 1 };
                if i != index {
                    assert(after[i] == before[oi]);
                }
                if j != index {
                    assert(after[j] == before[oj]);
                }
            }
        }
    }

    /// Takes the entry at a position out.
    pub fn remove_at(&mut self, index: usize) -> (entry: (K, V))
        requires
            old(self).wf(),
            index < old(self).ids().len(),
        ensures
            final(self).wf(),
            entry.0@ == old(self).ids()[index as int],
            entry.1 == old(self).map()[old(self).ids()[index as int]],
            final(self).ids() == old(self).ids().remove(index as int),
            final(self).map() == old(self).map().remove(old(self).ids()[index as int]),
    {
        let ghost before = self.ids();
        let entry = self.table.remove_at(index);
        proof {
            let after = self.ids();
            assert forall|i: int, j: int| 0 <= i < j < after.len() implies lex_less(
                K::code(#[trigger] after[i]),
                K::code(#[trigger] after[j]),
            ) by {
                let oi = if i < index { i } else { i + 1 };
                let oj = if j < index { j } else { j + 1 };
                assert(after[i] == before[oi] && after[j] == before[oj]);
            }
        }
        entry
    }

    /// Takes an identity out, if it is here.
    pub fn remove(&mut self, key: &K) -> (taken: Option<V>)
        requires
            old(self).wf(),
        ensures
            final(self).wf(),
            final(self).map() == old(self).map().remove(key@),
            match taken {
                Some(value) => old(self).map().contains_key(key@) && value == old(self).map()[key@],
                None => !old(self).map().contains_key(key@) && *final(self) == *old(self),
            },
    {
        match self.find(key) {
            Some(index) => Some(self.remove_at(index).1),
            None => {
                proof {
                    assert(self.map().remove(key@) =~= self.map());
                }
                None
            },
        }
    }

    /// Empties the table.
    pub fn clear(&mut self)
        ensures
            final(self).wf(),
            final(self).ids() == Seq::<K::V>::empty(),
            final(self).map() == Map::<K::V, V>::empty(),
    {
        self.table = KeyedTable::new();
    }

    /// Every key, ascending.
    pub fn keys(&self) -> (keys: Vec<K>)
        ensures
            keys@.map_values(|key: K| key@) == self.ids(),
    {
        self.table.keys()
    }
}

} // verus!
