//! A hash table from 32-bit words to values of any type.
//!
//! The values stand densely in a vector, in the order in which their keys came in; a [`WordIndex`]
//! finds the position of a key. Walking the table walks the vector.
use vstd::prelude::*;

use crate::index::WordIndex;
#[allow(unused_imports)]
use crate::index::index_entries;

verus! {

/// A map from words to values.
pub struct Table<V> {
    index: WordIndex,
    order: Vec<u32>,
    values: Vec<V>,
}

impl<V> View for Table<V> {
    type V = Map<u32, V>;

    closed spec fn view(&self) -> Map<u32, V> {
        Map::new(
            |key: u32| index_entries(self.index).contains_key(key),
            |key: u32| self.values@[index_entries(self.index)[key] as int],
        )
    }
}

impl<V> Table<V> {
    #[verifier::type_invariant]
    spec fn indexed(&self) -> bool {
        &&& self.order@.len() == self.values@.len()
        &&& forall|key: u32| #[trigger] index_entries(self.index).contains_key(key) ==> {
            &&& index_entries(self.index)[key] < self.order@.len()
            &&& self.order@[index_entries(self.index)[key] as int] == key
        }
        &&& forall|i: int| 0 <= i < self.order@.len() ==> {
            &&& index_entries(self.index).contains_key(#[trigger] self.order@[i])
            &&& index_entries(self.index)[self.order@[i]] == i
        }
    }

    /// The keys in the order in which [`Table::entry_at`] gives them.
    pub closed spec fn keys(&self) -> Seq<u32> {
        self.order@
    }

    /// The keys are the domain, each once.
    pub open spec fn keys_are_domain(&self) -> bool {
        &&& self.keys().no_duplicates()
        &&& forall|i: int|
            0 <= i < self.keys().len() ==> self@.contains_key(#[trigger] self.keys()[i])
        &&& forall|key: u32| #[trigger] self@.contains_key(key) ==> self.keys().contains(key)
    }

    proof fn lemma_keys(&self)
        requires
            self.indexed(),
        ensures
            self.keys_are_domain(),
    {
        assert forall|key: u32| #[trigger] self@.contains_key(key) implies self.keys().contains(
            key,
        ) by {
            let i = index_entries(self.index)[key] as int;
            assert(self.keys()[i] == key);
        }
        assert forall|i: int, j: int|
            0 <= i < self.keys().len() && 0 <= j < self.keys().len() && i != j implies self.keys()[i]
            != self.keys()[j] by {
            assert(index_entries(self.index)[self.order@[i]] == i);
            assert(index_entries(self.index)[self.order@[j]] == j);
        }
    }

    /// An empty table.
    pub fn new() -> (table: Table<V>)
        ensures
            table@ == Map::<u32, V>::empty(),
    {
        let table = Table { index: WordIndex::new(), order: Vec::new(), values: Vec::new() };
        assert(table@ =~= Map::<u32, V>::empty());
        table
    }

    /// The number of keys.
    pub fn len(&self) -> (count: usize)
        ensures
            count == self.keys().len(),
            self.keys_are_domain(),
    {
        proof {
            use_type_invariant(self);
            self.lemma_keys();
        }
        self.order.len()
    }

    /// The key and the value at a position of the walk.
    pub fn entry_at(&self, position: usize) -> (entry: (u32, &V))
        requires
            position < self.keys().len(),
        ensures
            entry.0 == self.keys()[position as int],
            self@.contains_key(entry.0),
            *entry.1 == self@[entry.0],
    {
        proof {
            use_type_invariant(self);
        }
        (self.order[position], &self.values[position])
    }

    /// Whether `key` has a value.
    pub fn contains(&self, key: u32) -> (found: bool)
        ensures
            found == self@.contains_key(key),
    {
        self.index.get(key).is_some()
    }

    /// The value under `key`.
    pub fn get(&self, key: u32) -> (value: Option<&V>)
        ensures
            match value {
                Some(v) => self@.contains_key(key) && *v == self@[key],
                None => !self@.contains_key(key),
            },
    {
        proof {
            use_type_invariant(self);
        }
        match self.index.get(key) {
            Some(i) => Some(&self.values[i]),
            None => None,
        }
    }

    /// The value under `key`, to be changed in place.
    pub fn get_mut(&mut self, key: u32) -> (value: Option<&mut V>)
        ensures
            match value {
                Some(v) => {
                    &&& old(self)@.contains_key(key)
                    &&& *v == old(self)@[key]
                    &&& final(self)@ == old(self)@.insert(key, *final(v))
                },
                None => !old(self)@.contains_key(key) && final(self)@ == old(self)@,
            },
    {
        proof {
            use_type_invariant(&*self);
        }
        match self.index.get(key) {
            Some(i) => Some(&mut self.values[i]),
            None => None,
        }
    }

    /// Stores `value` under `key`, in place of whatever was there.
    pub fn insert(&mut self, key: u32, value: V)
        ensures
            final(self)@ == old(self)@.insert(key, value),
    {
        proof {
            use_type_invariant(&*self);
        }
        match self.index.get(key) {
            Some(i) => {
                self.values[i] = value;
                assert(self@ =~= old(self)@.insert(key, value));
            },
            None => {
                let mut whole = Table { index: WordIndex::new(), order: Vec::new(), values: Vec::new() };
                std::mem::swap(self, &mut whole);
                let Table { mut index, mut order, mut values } = whole;
                index.insert(key, order.len());
                order.push(key);
                values.push(value);
                *self = Table { index, order, values };
                assert(self@ =~= old(self)@.insert(key, value));
            },
        }
    }

    /// Stores `value` under `key` unless the key has a value already.
    pub fn insert_if_absent(&mut self, key: u32, value: V)
        ensures
            final(self)@ == if old(self)@.contains_key(key) {
                old(self)@
            } else {
                old(self)@.insert(key, value)
            },
    {
        if !self.contains(key) {
            self.insert(key, value);
        }
    }

    /// Takes the value under `key` out. The last value of the walk takes its position.
    pub fn remove(&mut self, key: u32) -> (value: Option<V>)
        ensures
            final(self)@ == old(self)@.remove(key),
            match value {
                Some(v) => old(self)@.contains_key(key) && v == old(self)@[key],
                None => !old(self)@.contains_key(key),
            },
    {
        proof {
            use_type_invariant(&*self);
        }
        match self.index.get(key) {
            Some(i) => {
                let mut whole = Table { index: WordIndex::new(), order: Vec::new(), values: Vec::new() };
                std::mem::swap(self, &mut whole);
                let Table { mut index, mut order, mut values } = whole;
                let ghost before = order@;
                order.swap_remove(i);
                let removed = values.swap_remove(i);
                index.remove(key);
                if i < order.len() {
                    index.insert(order[i], i);
                    assert(order@[i as int] == before.last());
                }
                *self = Table { index, order, values };
                assert(self@ =~= old(self)@.remove(key));
                Some(removed)
            },
            None => {
                assert(self@ =~= old(self)@.remove(key));
                None
            },
        }
    }

    /// Takes all values out.
    pub fn clear(&mut self)
        ensures
            final(self)@ == Map::<u32, V>::empty(),
    {
        let mut whole = Table { index: WordIndex::new(), order: Vec::new(), values: Vec::new() };
        std::mem::swap(self, &mut whole);
        let Table { mut index, mut order, mut values } = whole;
        index.clear();
        order.clear();
        values.clear();
        *self = Table { index, order, values };
        assert(self@ =~= Map::<u32, V>::empty());
    }
}

impl<V: Copy> Table<V> {
    /// A table with the same entries.
    pub fn duplicate(&self) -> (table: Table<V>)
        ensures
            table@ == self@,
    {
        let mut table = Table::new();
        let count: usize = self.len();
        let mut i: usize = 0;
        while i < count
            invariant
                i <= count,
                count == self.keys().len(),
                self.keys_are_domain(),
                forall|key: u32| #[trigger]
                    table@.contains_key(key) <==> exists|j: int|
                        0 <= j < i && #[trigger] self.keys()[j] == key,
                forall|key: u32| #[trigger] table@.contains_key(key) ==> table@[key] == self@[key],
            decreases count - i,
        {
            let (key, value) = self.entry_at(i);
            let ghost before = table@;
            table.insert(key, *value);
            i = i + 1;
            assert forall|k: u32| #[trigger] table@.contains_key(k) implies exists|j: int|
                0 <= j < i && #[trigger] self.keys()[j] == k by {
                if before.contains_key(k) {
                    let j = choose|j: int| 0 <= j < i - 1 && #[trigger] self.keys()[j] == k;
                    assert(0 <= j < i && self.keys()[j] == k);
                } else {
                    assert(self.keys()[i - 1] == k);
                }
            }
            assert forall|k: u32|
                (exists|j: int| 0 <= j < i && #[trigger] self.keys()[j] == k) implies #[trigger]
            table@.contains_key(k) by {
                let j = choose|j: int| 0 <= j < i && #[trigger] self.keys()[j] == k;
                if j < i - 1 {
                    assert(before.contains_key(k));
                }
            }
        }
        assert(table@ =~= self@) by {
            assert forall|key: u32| self@.contains_key(key) implies table@.contains_key(key) by {
                let j = choose|j: int| 0 <= j < self.keys().len() && self.keys()[j] == key;
                assert(0 <= j < i && self.keys()[j] == key);
            }
        }
        table
    }
}

} // verus!
