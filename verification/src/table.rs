//! A map from keys made of text to values, kept as a list of entries.

use vstd::prelude::*;

verus! {

/// A key of a [`Table`]: two keys are the same key where their texts are equal.
pub trait Key: DeepView + Sized {
    /// Whether `self` and `other` are the same key.
    fn same(&self, other: &Self) -> (r: bool)
        ensures
            r == (self.deep_view() == other.deep_view()),
    ;
}

impl Key for String {
    fn same(&self, other: &Self) -> (r: bool) {
        self.as_str().eq(other.as_str())
    }
}

impl Key for (String, String) {
    fn same(&self, other: &Self) -> (r: bool) {
        self.0.as_str().eq(other.0.as_str()) && self.1.as_str().eq(other.1.as_str())
    }
}

/// A map in which each key stands once; the keys keep the order in which they came.
pub struct Table<K: Key, V: DeepView> {
    entries: Vec<(K, V)>,
}

/// Whether no key stands in two of the entries.
spec fn distinct<K: DeepView, V>(entries: Seq<(K, V)>) -> bool {
    forall|i: int, j: int|
        0 <= i < j < entries.len() ==> #[trigger] entries[i].0.deep_view()
            != #[trigger] entries[j].0.deep_view()
}

/// The keys of the entries, in order.
spec fn keys_of<K: DeepView, V>(entries: Seq<(K, V)>) -> Seq<<K as DeepView>::V> {
    entries.map_values(|e: (K, V)| e.0.deep_view())
}

impl<K: Key, V: DeepView> View for Table<K, V> {
    type V = Map<<K as DeepView>::V, <V as DeepView>::V>;

    closed spec fn view(&self) -> Map<<K as DeepView>::V, <V as DeepView>::V> {
        let keys = keys_of(self.entries@);
        Map::new(
            |k: <K as DeepView>::V| keys.contains(k),
            |k: <K as DeepView>::V| self.entries@[keys.index_of(k)].1.deep_view(),
        )
    }
}

impl<K: Key, V: DeepView> Table<K, V> {
    #[verifier::type_invariant]
    spec fn well_formed(self) -> bool {
        distinct(self.entries@)
    }

    /// The keys, each once, in the order in which they came.
    pub closed spec fn keys(&self) -> Seq<<K as DeepView>::V> {
        keys_of(self.entries@)
    }

    /// A table without entries.
    pub fn new() -> (table: Self)
        ensures
            table@ == Map::<<K as DeepView>::V, <V as DeepView>::V>::empty(),
            table.keys() == Seq::<<K as DeepView>::V>::empty(),
    {
        let table = Table { entries: Vec::new() };
        assert(table@ =~= Map::<<K as DeepView>::V, <V as DeepView>::V>::empty());
        assert(table.keys() =~= Seq::<<K as DeepView>::V>::empty());
        table
    }

    proof fn lemma_entry(entries: Seq<(K, V)>, i: int)
        requires
            distinct(entries),
            0 <= i < entries.len(),
        ensures
            keys_of(entries).contains(entries[i].0.deep_view()),
            keys_of(entries).index_of(entries[i].0.deep_view()) == i,
    {
        let keys = keys_of(entries);
        let k = entries[i].0.deep_view();
        assert(keys[i] == k);
        let j = keys.index_of(k);
        assert(keys[j] == k);
        if j < i {
            assert(entries[j].0.deep_view() != entries[i].0.deep_view());
        } else if i < j {
            assert(entries[i].0.deep_view() != entries[j].0.deep_view());
        }
    }

    /// The position of the entry with the given key.
    fn position(entries: &Vec<(K, V)>, key: &K) -> (r: Option<usize>)
        requires
            distinct(entries@),
        ensures
            match r {
                Some(i) => i < entries.len() && entries@[i as int].0.deep_view() == key.deep_view(),
                None => !keys_of(entries@).contains(key.deep_view()),
            },
    {
        let mut i: usize = 0;
        while i < entries.len()
            invariant
                i <= entries.len(),
                forall|j: int|
                    0 <= j < i ==> #[trigger] entries@[j].0.deep_view() != key.deep_view(),
            decreases entries.len() - i,
        {
            if entries[i].0.same(key) {
                return Some(i);
            }
            i += 1;
        }
        assert(forall|j: int|
            0 <= j < entries@.len() ==> #[trigger] keys_of(entries@)[j] != key.deep_view());
        None
    }

    /// The value under `key`, if there is one.
    pub fn find(&self, key: &K) -> (r: Option<&V>)
        ensures
            match r {
                Some(v) => self@.contains_key(key.deep_view()) && v.deep_view()
                    == self@[key.deep_view()],
                None => !self@.contains_key(key.deep_view()),
            },
    {
        proof {
            use_type_invariant(self);
        }
        match Self::position(&self.entries, key) {
            Some(i) => {
                proof {
                    Self::lemma_entry(self.entries@, i as int);
                }
                Some(&self.entries[i].1)
            },
            None => None,
        }
    }

    /// Puts `value` under `key`, in place of the value that was there.
    pub fn insert(&mut self, key: K, value: V)
        ensures
            final(self)@ == old(self)@.insert(key.deep_view(), value.deep_view()),
            final(self).keys() == if old(self)@.contains_key(key.deep_view()) {
                old(self).keys()
            } else {
                old(self).keys().push(key.deep_view())
            },
    {
        proof {
            use_type_invariant(&*self);
        }
        let mut entries: Vec<(K, V)> = Vec::new();
        std::mem::swap(&mut entries, &mut self.entries);
        let ghost before = entries@;
        let ghost k = key.deep_view();
        match Self::position(&entries, &key) {
            Some(i) => {
                proof {
                    Self::lemma_entry(before, i as int);
                }
                entries.set(i, (key, value));
                assert(keys_of(entries@) =~= keys_of(before));
                assert(distinct(entries@)) by {
                    assert forall|a: int, b: int| 0 <= a < b < entries@.len() implies
                        #[trigger] entries@[a].0.deep_view()
                        != #[trigger] entries@[b].0.deep_view() by {
                        assert(before[a].0.deep_view() != before[b].0.deep_view());
                    }
                }
            },
            None => {
                entries.push((key, value));
                assert(keys_of(entries@) =~= keys_of(before).push(k));
                assert(distinct(entries@)) by {
                    assert forall|a: int, b: int| 0 <= a < b < entries@.len() implies
                        #[trigger] entries@[a].0.deep_view()
                        != #[trigger] entries@[b].0.deep_view() by {
                        if b == before.len() {
                            assert(keys_of(before)[a] == before[a].0.deep_view());
                        } else {
                            assert(before[a].0.deep_view() != before[b].0.deep_view());
                        }
                    }
                }
            },
        }
        self.entries = entries;
        proof {
            let m = old(self)@.insert(k, value.deep_view());
            let now = self.entries@;
            assert forall|x: <K as DeepView>::V| #[trigger]
                self@.dom().contains(x) == m.dom().contains(x) by {
                if keys_of(before).contains(x) {
                    let j = keys_of(before).index_of(x);
                    assert(keys_of(now)[j] == x);
                } else if x == k {
                    assert(keys_of(now)[before.len() as int] == x);
                } else if keys_of(now).contains(x) {
                    let j = keys_of(now).index_of(x);
                    assert(keys_of(before)[j] == x);
                }
            }
            assert(self@.dom() =~= m.dom());
            assert forall|x: <K as DeepView>::V| self@.dom().contains(x) implies #[trigger] self@[x]
                == m[x] by {
                if keys_of(before).contains(x) {
                    let j = keys_of(before).index_of(x);
                    assert(before[j].0.deep_view() == x);
                    Self::lemma_entry(before, j);
                    assert(now[j].0.deep_view() == x);
                    Self::lemma_entry(now, j);
                } else {
                    assert(now[before.len() as int].0.deep_view() == x);
                    Self::lemma_entry(now, before.len() as int);
                }
            }
            assert(self@ =~= m);
        }
    }

    /// The number of keys. Each key of the map is listed once among [`Table::keys`].
    pub fn len(&self) -> (n: usize)
        ensures
            n == self.keys().len(),
            self.keys().no_duplicates(),
            forall|k: <K as DeepView>::V| #[trigger]
                self.keys().contains(k) == self@.contains_key(k),
    {
        proof {
            use_type_invariant(self);
            assert forall|i: int, j: int|
                0 <= i < self.keys().len() && 0 <= j < self.keys().len() && i
                    != j implies self.keys()[i] != self.keys()[j] by {
                if i < j {
                    assert(self.entries@[i].0.deep_view() != self.entries@[j].0.deep_view());
                } else {
                    assert(self.entries@[j].0.deep_view() != self.entries@[i].0.deep_view());
                }
            }
        }
        self.entries.len()
    }

    /// The key at position `i`.
    pub fn key(&self, i: usize) -> (r: &K)
        requires
            i < self.keys().len(),
        ensures
            r.deep_view() == self.keys()[i as int],
    {
        &self.entries[i].0
    }
}

impl<V: DeepView> Table<String, V> {
    /// The value under the text `key`, if there is one.
    pub fn get(&self, key: &str) -> (r: Option<&V>)
        ensures
            match r {
                Some(v) => self@.contains_key(key@) && v.deep_view() == self@[key@],
                None => !self@.contains_key(key@),
            },
    {
        self.find(&key.to_owned())
    }
}

} // verus!
