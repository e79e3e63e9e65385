//! A small map that keeps its entries in a list.
use vstd::prelude::*;

verus! {

/// What can be looked up in a [`Table`].
pub trait Key: Copy {
    fn same(&self, other: &Self) -> (same: bool)
        ensures
            same == (*self == *other),
    ;
}

impl Key for u32 {
    fn same(&self, other: &Self) -> (same: bool) {
        *self == *other
    }
}

/// A map from keys to values. Entries stay in the order in which their keys came in.
pub struct Table<K, V> {
    entries: Vec<(K, V)>,
}

impl<K, V> View for Table<K, V> {
    type V = Map<K, V>;

    closed spec fn view(&self) -> Map<K, V> {
        Map::new(
            |key: K| has_key(self.entries@, key),
            |key: K| self.entries@[position(self.entries@, key)].1,
        )
    }
}

/// Whether one of the entries has the key.
pub open spec fn has_key<K, V>(entries: Seq<(K, V)>, key: K) -> bool {
    exists|i: int| 0 <= i < entries.len() && #[trigger] entries[i].0 == key
}

/// Which keys the first entries have, with one more of them.
pub proof fn lemma_has_key_prefix<K, V>(entries: Seq<(K, V)>, n: int)
    requires
        0 <= n < entries.len(),
    ensures
        forall|key: K| #[trigger]
            has_key(entries.take(n + 1), key) <==> (has_key(entries.take(n), key) || key
                == entries[n].0),
{
    let shorter = entries.take(n);
    let longer = entries.take(n + 1);
    assert forall|key: K| #[trigger]
        has_key(longer, key) <==> (has_key(shorter, key) || key == entries[n].0) by {
        if has_key(shorter, key) {
            let i = position(shorter, key);
            assert(longer[i].0 == key);
        }
        if has_key(longer, key) {
            let i = position(longer, key);
            if i < n {
                assert(shorter[i].0 == key);
            }
        }
        assert(longer[n].0 == entries[n].0);
    }
}

spec fn position<K, V>(entries: Seq<(K, V)>, key: K) -> int {
    choose|i: int| 0 <= i < entries.len() && #[trigger] entries[i].0 == key
}

impl<K, V> Table<K, V> {
    /// The entries, in the order in which their keys came in.
    pub closed spec fn entries(&self) -> Seq<(K, V)> {
        self.entries@
    }

    /// No key occurs twice.
    pub closed spec fn well_formed(&self) -> bool {
        forall|i: int, j: int|
            0 <= i < j < self.entries@.len() ==> (#[trigger] self.entries@[i]).0
                != (#[trigger] self.entries@[j]).0
    }

    /// How the entries and the map belong together.
    pub proof fn lemma_entries(&self)
        requires
            self.well_formed(),
        ensures
            forall|i: int|
                0 <= i < self.entries().len() ==> {
                    let entry = #[trigger] self.entries()[i];
                    self@.contains_key(entry.0) && self@[entry.0] == entry.1
                },
            forall|key: K| #[trigger] self@.contains_key(key) <==> has_key(self.entries(), key),
            forall|i: int, j: int|
                0 <= i < j < self.entries().len() ==> (#[trigger] self.entries()[i]).0 != (
                #[trigger] self.entries()[j]).0,
    {
        assert forall|i: int| 0 <= i < self.entries().len() implies {
            let entry = #[trigger] self.entries()[i];
            self@.contains_key(entry.0) && self@[entry.0] == entry.1
        } by {
            let entry = self.entries()[i];
            let at = position(self.entries@, entry.0);
            assert(self.entries@[i].0 == entry.0);
            assert(has_key(self.entries@, entry.0));
            assert(at == i) by {
                if at < i {
                    assert(self.entries@[at].0 != self.entries@[i].0);
                } else if i < at {
                    assert(self.entries@[i].0 != self.entries@[at].0);
                }
            }
        }
    }

    /// There are as many entries as keys.
    pub proof fn lemma_len(&self)
        requires
            self.well_formed(),
        ensures
            self@.dom().len() == self.entries().len(),
    {
        let keys = self.entries().map_values(|entry: (K, V)| entry.0);
        self.lemma_entries();
        assert(keys.no_duplicates()) by {
            assert forall|i: int, j: int| 0 <= i < keys.len() && 0 <= j < keys.len() && i
                != j implies keys[i] != keys[j] by {
                if i < j {
                    assert(self.entries()[i].0 != self.entries()[j].0);
                } else {
                    assert(self.entries()[j].0 != self.entries()[i].0);
                }
            }
        }
        keys.unique_seq_to_set();
        assert forall|key: K| self@.dom().contains(key) <==> keys.to_set().contains(key) by {
            if self@.contains_key(key) {
                let i = position(self.entries@, key);
                assert(keys[i] == key);
            }
            if keys.to_set().contains(key) {
                let i = choose|i: int| 0 <= i < keys.len() && keys[i] == key;
                assert(self.entries()[i].0 == key);
            }
        }
        assert(self@.dom() =~= keys.to_set());
    }

    pub fn new() -> (table: Self)
        ensures
            table.well_formed(),
            table@ == Map::<K, V>::empty(),
            table.entries() == Seq::<(K, V)>::empty(),
    {
        let table = Table { entries: Vec::new() };
        assert(table@ =~= Map::<K, V>::empty());
        table
    }

    pub fn len(&self) -> (len: usize)
        ensures
            len == self.entries().len(),
    {
        self.entries.len()
    }

    pub fn entry(&self, index: usize) -> (entry: &(K, V))
        requires
            index < self.entries().len(),
        ensures
            *entry == self.entries()[index as int],
    {
        &self.entries[index]
    }
}

impl<K: Key, V> Table<K, V> {
    fn index_of(&self, key: &K) -> (index: Option<usize>)
        ensures
            match index {
                Some(at) => at < self.entries@.len() && self.entries@[at as int].0 == *key,
                None => !has_key(self.entries@, *key),
            },
    {
        for index in 0..self.entries.len()
            invariant
                forall|i: int| 0 <= i < index ==> (#[trigger] self.entries@[i]).0 != *key,
        {
            if self.entries[index].0.same(key) {
                return Some(index);
            }
        }
        None
    }

    pub fn contains_key(&self, key: &K) -> (found: bool)
        ensures
            found == self@.contains_key(*key),
    {
        match self.index_of(key) {
            Some(index) => {
                assert(self.entries@[index as int].0 == *key);
                true
            },
            None => false,
        }
    }

    pub fn get(&self, key: &K) -> (value: Option<&V>)
        requires
            self.well_formed(),
        ensures
            match value {
                Some(value) => self@.contains_key(*key) && *value == self@[*key],
                None => !self@.contains_key(*key),
            },
    {
        proof {
            self.lemma_entries();
        }
        match self.index_of(key) {
            Some(index) => {
                assert(self.entries()[index as int].0 == *key);
                Some(&self.entries[index].1)
            },
            None => None,
        }
    }

    /// Gives `key` the value `value`. A key that was there keeps its place.
    pub fn insert(&mut self, key: K, value: V)
        requires
            old(self).well_formed(),
        ensures
            final(self).well_formed(),
            final(self)@ == old(self)@.insert(key, value),
            old(self)@.contains_key(key) ==> final(self).entries().len()
                == old(self).entries().len(),
            !old(self)@.contains_key(key) ==> final(self).entries() == old(self).entries().push(
                (key, value),
            ),
    {
        let ghost before = *self;
        proof {
            before.lemma_entries();
        }
        match self.index_of(&key) {
            Some(index) => {
                self.entries.set(index, (key, value));
                proof {
                    assert forall|i: int, j: int|
                        0 <= i < j < self.entries@.len() implies (#[trigger] self.entries@[i]).0
                        != (#[trigger] self.entries@[j]).0 by {
                        assert(before.entries@[i].0 == self.entries@[i].0);
                        assert(before.entries@[j].0 == self.entries@[j].0);
                    }
                    assert(before.entries()[index as int].0 == key);
                    self.lemma_replaced(before, index as int);
                }
            },
            None => {
                self.entries.push((key, value));
                proof {
                    assert forall|i: int, j: int|
                        0 <= i < j < self.entries@.len() implies (#[trigger] self.entries@[i]).0
                        != (#[trigger] self.entries@[j]).0 by {
                        assert(before.entries@[i].0 == self.entries@[i].0);
                        if j < before.entries@.len() {
                            assert(before.entries@[j].0 == self.entries@[j].0);
                        }
                    }
                    self.lemma_appended(before, key, value);
                }
            },
        }
    }

    proof fn lemma_replaced(&self, before: Table<K, V>, at: int)
        requires
            before.well_formed(),
            self.well_formed(),
            0 <= at < before.entries@.len(),
            self.entries@ == before.entries@.update(at, self.entries@[at]),
            self.entries@[at].0 == before.entries@[at].0,
        ensures
            self@ == before@.insert(self.entries@[at].0, self.entries@[at].1),
    {
        self.lemma_entries();
        before.lemma_entries();
        let target = before@.insert(self.entries@[at].0, self.entries@[at].1);
        assert forall|k: K| self@.contains_key(k) == target.contains_key(k) by {
            if has_key(self.entries@, k) {
                let i = position(self.entries@, k);
                assert(before.entries@[i].0 == k);
            }
            if has_key(before.entries@, k) {
                let i = position(before.entries@, k);
                assert(self.entries@[i].0 == k);
            }
            assert(self.entries()[at].0 == self.entries@[at].0);
        }
        assert forall|k: K| self@.contains_key(k) implies #[trigger] self@[k] == target[k] by {
            let i = position(self.entries@, k);
            assert(self.entries()[i].0 == k);
            assert(before.entries()[i].0 == k);
        }
        assert(self@ =~= target);
    }

    proof fn lemma_appended(&self, before: Table<K, V>, key: K, value: V)
        requires
            before.well_formed(),
            self.well_formed(),
            self.entries@ == before.entries@.push((key, value)),
        ensures
            self@ == before@.insert(key, value),
    {
        self.lemma_entries();
        before.lemma_entries();
        let n = before.entries@.len() as int;
        let target = before@.insert(key, value);
        assert(self.entries()[n] == (key, value));
        assert forall|k: K| self@.contains_key(k) == target.contains_key(k) by {
            if has_key(self.entries@, k) {
                let i = position(self.entries@, k);
                if i < n {
                    assert(before.entries@[i].0 == k);
                }
            }
            if has_key(before.entries@, k) {
                let i = position(before.entries@, k);
                assert(self.entries@[i].0 == k);
            }
            assert(self.entries@[n].0 == key);
        }
        assert forall|k: K| self@.contains_key(k) implies #[trigger] self@[k] == target[k] by {
            let i = position(self.entries@, k);
            assert(self.entries()[i].0 == k);
            if i < n {
                assert(before.entries()[i].0 == k);
            }
        }
        assert(self@ =~= target);
    }

    /// Takes `key` out, where it is there.
    pub fn remove(&mut self, key: &K) -> (removed: Option<V>)
        requires
            old(self).well_formed(),
        ensures
            final(self).well_formed(),
            final(self)@ == old(self)@.remove(*key),
            match removed {
                Some(value) => old(self)@.contains_key(*key) && value == old(self)@[*key],
                None => !old(self)@.contains_key(*key),
            },
    {
        let ghost before = *self;
        proof {
            before.lemma_entries();
        }
        match self.index_of(key) {
            None => {
                assert(self@ =~= before@.remove(*key));
                None
            },
            Some(index) => {
                assert(before.entries()[index as int].0 == *key);
                let (_, value) = self.entries.remove(index);
                proof {
                    let at = index as int;
                    assert forall|i: int, j: int|
                        0 <= i < j < self.entries@.len() implies (#[trigger] self.entries@[i]).0
                        != (#[trigger] self.entries@[j]).0 by {
                        let a = if i < at { i } else { i + 1 };
                        let b = if j < at { j } else { j + 1 };
                        assert(before.entries@[a] == self.entries@[i]);
                        assert(before.entries@[b] == self.entries@[j]);
                    }
                    self.lemma_entries();
                    let target = before@.remove(*key);
                    assert forall|k: K| self@.contains_key(k) == target.contains_key(k) by {
                        if has_key(self.entries@, k) {
                            let i = position(self.entries@, k);
                            let a = if i < at { i } else { i + 1 };
                            assert(before.entries@[a].0 == k);
                            assert(a != at);
                        }
                        if k != *key && has_key(before.entries@, k) {
                            let a = position(before.entries@, k);
                            let i = if a < at { a } else { a - 1 };
                            assert(self.entries@[i].0 == k);
                        }
                    }
                    assert forall|k: K| self@.contains_key(k) implies #[trigger] self@[k]
                        == target[k] by {
                        let i = position(self.entries@, k);
                        let a = if i < at { i } else { i + 1 };
                        assert(self.entries()[i].0 == k);
                        assert(before.entries()[a].0 == k);
                    }
                    assert(self@ =~= target);
                }
                Some(value)
            },
        }
    }

    /// Whether the key is in a list.
    fn is_listed(key: &K, list: &Vec<K>) -> (listed: bool)
        ensures
            listed == list@.contains(*key),
    {
        for index in 0..list.len()
            invariant
                forall|i: int| 0 <= i < index ==> list@[i] != *key,
        {
            if list[index].same(key) {
                return true;
            }
        }
        false
    }

    /// Keeps the entries whose keys are in a list.
    pub fn retain_listed(&mut self, list: &Vec<K>)
        requires
            old(self).well_formed(),
        ensures
            final(self).well_formed(),
            final(self)@ == old(self)@.restrict(list@.to_set()),
    {
        let ghost before = *self;
        let ghost given = before.entries();
        let mut kept: Table<K, V> = Table::new();
        let count: usize = self.entries.len();
        proof {
            before.lemma_entries();
        }
        for index in 0..count
            invariant
                before.well_formed(),
                given == before.entries(),
                count == given.len(),
                self.entries@ == given.skip(index as int),
                kept.well_formed(),
                forall|key: K| #[trigger]
                    kept@.contains_key(key) <==> list@.contains(key) && has_key(
                        given.take(index as int),
                        key,
                    ),
                forall|key: K| #[trigger]
                    kept@.contains_key(key) ==> before@.contains_key(key) && kept@[key]
                        == before@[key],
        {
            proof {
                before.lemma_entries();
                lemma_has_key_prefix(given, index as int);
            }
            let (key, value) = self.entries.remove(0);
            assert(self.entries@ =~= given.skip(index + 1));
            assert((key, value) == given[index as int]);
            if Self::is_listed(&key, list) {
                kept.insert(key, value);
            }
        }
        proof {
            assert(given.take(count as int) =~= given);
            before.lemma_entries();
            assert(kept@ =~= before@.restrict(list@.to_set()));
        }
        *self = kept;
    }
}

} // verus!
