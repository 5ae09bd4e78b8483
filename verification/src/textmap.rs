//! A map from texts to values that keeps its keys in the order of texts, so
//! that what it holds decides how it is laid out and written.

use vstd::prelude::*;
use crate::text::{
    lemma_precedes_irreflexive, lemma_precedes_total, lemma_precedes_transitive, precedes,
    text_precedes,
};

verus! {

/// Every key stands before the keys behind it.
pub open spec fn strictly_ascending(keys: Seq<Seq<char>>) -> bool {
    forall|i: int, j: int| 0 <= i < j < keys.len() ==> precedes(keys[i], keys[j])
}

proof fn lemma_same_front(x: Seq<Seq<char>>, y: Seq<Seq<char>>, i: int)
    requires
        strictly_ascending(x),
        strictly_ascending(y),
        forall|k: Seq<char>| x.contains(k) <==> y.contains(k),
        0 <= i <= x.len(),
    ensures
        i <= y.len(),
        forall|j: int| 0 <= j < i ==> x[j] == y[j],
    decreases i,
{
    if i > 0 {
        lemma_same_front(x, y, i - 1);
        let a = x[i - 1];
        assert(x.contains(a));
        let j = y.index_of(a);
        assert(y.contains(a) && 0 <= j < y.len() && y[j] == a);
        lemma_precedes_irreflexive(a);
        if j < i - 1 {
            assert(x[j] == y[j]);
            assert(precedes(x[j], x[i - 1]));
        } else if j > i - 1 {
            let b = y[i - 1];
            assert(y.contains(b));
            let m = x.index_of(b);
            assert(x.contains(b) && 0 <= m < x.len() && x[m] == b);
            assert(precedes(b, a));
            if m < i - 1 {
                assert(x[m] == y[m]);
                assert(precedes(y[m], y[i - 1]));
                lemma_precedes_irreflexive(b);
            } else if m > i - 1 {
                assert(precedes(x[i - 1], x[m]));
                lemma_precedes_transitive(a, b, a);
            }
        }
    }
}

/// What a strictly ascending sequence of texts holds decides the sequence:
/// two such sequences of the same texts are the same sequence.
pub proof fn lemma_ascending_decided(x: Seq<Seq<char>>, y: Seq<Seq<char>>)
    requires
        strictly_ascending(x),
        strictly_ascending(y),
        forall|k: Seq<char>| x.contains(k) <==> y.contains(k),
    ensures
        x == y,
{
    lemma_same_front(x, y, x.len() as int);
    lemma_same_front(y, x, y.len() as int);
    assert(x =~= y);
}

/// A map from texts to values, laid out in the order of its keys.
#[derive(Debug)]
pub struct TextMap<V> {
    entries: Vec<(String, V)>,
}

impl<V> View for TextMap<V> {
    type V = Map<Seq<char>, V>;

    /// The map from each key to the value that stands with it.
    open spec fn view(&self) -> Map<Seq<char>, V> {
        Map::new(
            |k: Seq<char>| self.keys().contains(k),
            |k: Seq<char>| self.values()[self.keys().index_of(k)],
        )
    }
}

impl<V> TextMap<V> {
    /// The keys in the order in which the map is laid out.
    pub closed spec fn keys(&self) -> Seq<Seq<char>> {
        self.entries@.map_values(|e: (String, V)| e.0@)
    }

    /// The values, each at the place of its key.
    pub closed spec fn values(&self) -> Seq<V> {
        self.entries@.map_values(|e: (String, V)| e.1)
    }

    /// The keys ascend strictly, so none occurs twice.
    pub open spec fn wf(&self) -> bool {
        &&& strictly_ascending(self.keys())
        &&& self.keys().len() == self.values().len()
    }

    /// In a well-formed map each key is found at its own place only.
    pub proof fn lemma_place(&self, i: int)
        requires
            self.wf(),
            0 <= i < self.keys().len(),
        ensures
            self.keys().contains(self.keys()[i]),
            self.keys().index_of(self.keys()[i]) == i,
            self@.dom().contains(self.keys()[i]),
            self@[self.keys()[i]] == self.values()[i],
    {
        let keys = self.keys();
        let j = keys.index_of(keys[i]);
        assert(keys.contains(keys[i]));
        lemma_precedes_irreflexive(keys[i]);
        if j < i {
            assert(precedes(keys[j], keys[i]));
        } else if i < j {
            assert(precedes(keys[i], keys[j]));
        }
    }

    /// What a well-formed map holds decides its layout: two such maps with
    /// the same view have the same keys and values at the same places.
    pub proof fn lemma_layout_decided(&self, other: &Self)
        requires
            self.wf(),
            other.wf(),
            self@ == other@,
        ensures
            self.keys() == other.keys(),
            self.values() == other.values(),
    {
        assert forall|k: Seq<char>| #[trigger]
            self.keys().contains(k) <==> other.keys().contains(k) by {
            assert(self@.dom().contains(k) == self.keys().contains(k));
            assert(other@.dom().contains(k) == other.keys().contains(k));
        }
        lemma_ascending_decided(self.keys(), other.keys());
        assert forall|i: int| 0 <= i < self.values().len() implies self.values()[i]
            == other.values()[i] by {
            self.lemma_place(i);
            other.lemma_place(i);
        }
        assert(self.values() =~= other.values());
    }

    /// The empty map.
    pub fn new() -> (m: Self)
        ensures
            m.wf(),
            m@ == Map::<Seq<char>, V>::empty(),
            m.keys().len() == 0,
    {
        let m = TextMap { entries: Vec::new() };
        proof {
            assert(m.keys() =~= Seq::<Seq<char>>::empty());
            assert(m@ =~= Map::<Seq<char>, V>::empty());
        }
        m
    }

    /// The number of keys.
    pub fn len(&self) -> (n: usize)
        ensures
            n == self.keys().len(),
    {
        self.entries.len()
    }

    /// The key at place `i` of the layout.
    pub fn key_at(&self, i: usize) -> (k: &str)
        requires
            i < self.keys().len(),
        ensures
            k@ == self.keys()[i as int],
    {
        self.entries[i].0.as_str()
    }

    /// The value at place `i` of the layout.
    pub fn value_at(&self, i: usize) -> (v: &V)
        requires
            i < self.keys().len(),
        ensures
            *v == self.values()[i as int],
    {
        &self.entries[i].1
    }

    /// The first place whose key does not stand before `key`.
    fn place_of(&self, key: &str) -> (i: usize)
        requires
            self.wf(),
        ensures
            i <= self.keys().len(),
            forall|j: int| 0 <= j < i ==> precedes(self.keys()[j], key@),
            i < self.keys().len() ==> !precedes(self.keys()[i as int], key@),
    {
        let mut i: usize = 0;
        while i < self.entries.len()
            invariant
                i <= self.entries.len(),
                forall|j: int| 0 <= j < i ==> precedes(self.keys()[j], key@),
            decreases self.entries.len() - i,
        {
            if !text_precedes(self.entries[i].0.as_str(), key) {
                return i;
            }
            i += 1;
        }
        i
    }

    /// The value that stands with `key`.
    pub fn get(&self, key: &str) -> (r: Option<&V>)
        requires
            self.wf(),
        ensures
            match r {
                Some(v) => self@.dom().contains(key@) && self@[key@] == *v,
                None => !self@.dom().contains(key@),
            },
    {
        let i = self.place_of(key);
        if i < self.entries.len() && !text_precedes(key, self.entries[i].0.as_str()) {
            proof {
                lemma_precedes_total(key@, self.keys()[i as int]);
                self.lemma_place(i as int);
            }
            Some(&self.entries[i].1)
        } else {
            proof {
                self.lemma_absent(key@, i as int);
            }
            None
        }
    }

    /// A key that belongs between two neighbouring places is not in the map.
    proof fn lemma_absent(&self, key: Seq<char>, i: int)
        requires
            self.wf(),
            0 <= i <= self.keys().len(),
            forall|j: int| 0 <= j < i ==> precedes(self.keys()[j], key),
            i < self.keys().len() ==> precedes(key, self.keys()[i]),
        ensures
            !self.keys().contains(key),
            !self@.dom().contains(key),
    {
        let keys = self.keys();
        if keys.contains(key) {
            let j = keys.index_of(key);
            lemma_precedes_irreflexive(key);
            if j >= i {
                if j > i {
                    assert(precedes(keys[i], keys[j]));
                    lemma_precedes_transitive(key, keys[i], keys[j]);
                }
            }
        }
    }

    /// Puts `value` under `key`; a value that stood there before is replaced.
    pub fn insert(&mut self, key: String, value: V)
        requires
            old(self).wf(),
        ensures
            final(self).wf(),
            final(self)@ == old(self)@.insert(key@, value),
    {
        let i = self.place_of(key.as_str());
        let ghost before = *self;
        let ghost keys = self.keys();
        let ghost values = self.values();
        if i < self.entries.len() && !text_precedes(key.as_str(), self.entries[i].0.as_str()) {
            proof {
                lemma_precedes_total(key@, keys[i as int]);
            }
            self.entries.set(i, (key, value));
            proof {
                assert(self.keys() =~= keys);
                assert(self.values() =~= values.update(i as int, value));
                assert forall|k: Seq<char>| self@.dom().contains(k) implies #[trigger] self@[k]
                    == before@.insert(key@, value)[k] by {
                    let j = keys.index_of(k);
                    before.lemma_place(j);
                    if k == key@ {
                        before.lemma_place(i as int);
                    }
                }
                assert(self@ =~= before@.insert(key@, value));
            }
        } else {
            proof {
                if i < keys.len() {
                    lemma_precedes_total(key@, keys[i as int]);
                }
                before.lemma_absent(key@, i as int);
            }
            self.entries.insert(i, (key, value));
            proof {
                let after = self.keys();
                assert(after =~= keys.insert(i as int, key@));
                assert(self.values() =~= values.insert(i as int, value));
                assert forall|a: int, b: int| 0 <= a < b < after.len() implies precedes(
                    after[a],
                    after[b],
                ) by {
                    if b < i {
                        assert(precedes(keys[a], keys[b]));
                    } else if b == i {
                        assert(precedes(keys[a], key@));
                    } else if a > i {
                        assert(precedes(keys[a - 1], keys[b - 1]));
                    } else if a == i {
                        if b - 1 > i {
                            assert(precedes(keys[i as int], keys[b - 1]));
                            lemma_precedes_transitive(key@, keys[i as int], keys[b - 1]);
                        }
                    } else {
                        assert(precedes(keys[a], key@));
                        if b - 1 > i {
                            assert(precedes(keys[i as int], keys[b - 1]));
                            lemma_precedes_transitive(key@, keys[i as int], keys[b - 1]);
                        }
                        lemma_precedes_transitive(keys[a], key@, keys[b - 1]);
                    }
                }
                assert forall|k: Seq<char>| self@.dom().contains(k) <==> before@.insert(
                    key@,
                    value,
                ).dom().contains(k) by {
                    if after.contains(k) {
                        let j = after.index_of(k);
                        if j < i {
                            assert(keys[j] == k);
                        } else if j > i {
                            assert(keys[j - 1] == k);
                        }
                    }
                    if keys.contains(k) {
                        let j = keys.index_of(k);
                        if j < i {
                            assert(after[j] == k);
                        } else {
                            assert(after[j + 1] == k);
                        }
                    }
                    if k == key@ {
                        assert(after[i as int] == k);
                    }
                }
                assert forall|k: Seq<char>| self@.dom().contains(k) implies #[trigger] self@[k]
                    == before@.insert(key@, value)[k] by {
                    let j = after.index_of(k);
                    self.lemma_place(j);
                    if j < i {
                        before.lemma_place(j);
                    } else if j > i {
                        before.lemma_place(j - 1);
                    }
                }
                assert(self@ =~= before@.insert(key@, value));
            }
        }
    }
}

/// A set of texts, laid out in the order of texts.
#[derive(Debug)]
pub struct TextSet {
    items: TextMap<()>,
}

impl View for TextSet {
    type V = Set<Seq<char>>;

    /// The texts in the set.
    closed spec fn view(&self) -> Set<Seq<char>> {
        self.items@.dom()
    }
}

impl TextSet {
    /// The texts in the order in which the set is laid out.
    pub closed spec fn items(&self) -> Seq<Seq<char>> {
        self.items.keys()
    }

    /// The texts ascend strictly, so none occurs twice.
    pub closed spec fn wf(&self) -> bool {
        self.items.wf()
    }

    /// The set holds the texts of its layout, and these ascend strictly.
    pub proof fn lemma_layout(&self)
        requires
            self.wf(),
        ensures
            strictly_ascending(self.items()),
            forall|t: Seq<char>| self@.contains(t) <==> self.items().contains(t),
    {
    }

    /// What a well-formed set holds decides its layout.
    pub proof fn lemma_layout_decided(&self, other: &Self)
        requires
            self.wf(),
            other.wf(),
            self@ == other@,
        ensures
            self.items() == other.items(),
    {
        assert forall|k: Seq<char>| #[trigger]
            self.items().contains(k) <==> other.items().contains(k) by {
            assert(self@.contains(k) == self.items().contains(k));
            assert(other@.contains(k) == other.items().contains(k));
        }
        lemma_ascending_decided(self.items(), other.items());
    }

    /// The empty set.
    pub fn new() -> (s: Self)
        ensures
            s.wf(),
            s@ == Set::<Seq<char>>::empty(),
            s.items().len() == 0,
    {
        let s = TextSet { items: TextMap::new() };
        proof {
            assert(s@ =~= Set::<Seq<char>>::empty());
        }
        s
    }

    /// The number of texts.
    pub fn len(&self) -> (n: usize)
        ensures
            n == self.items().len(),
    {
        self.items.len()
    }

    /// The text at place `i` of the layout.
    pub fn item_at(&self, i: usize) -> (t: &str)
        requires
            i < self.items().len(),
        ensures
            t@ == self.items()[i as int],
    {
        self.items.key_at(i)
    }

    /// Whether the set holds `text`.
    pub fn contains(&self, text: &str) -> (r: bool)
        requires
            self.wf(),
        ensures
            r == self@.contains(text@),
    {
        self.items.get(text).is_some()
    }

    /// Adds `text` to the set.
    pub fn insert(&mut self, text: String)
        requires
            old(self).wf(),
        ensures
            final(self).wf(),
            final(self)@ == old(self)@.insert(text@),
    {
        self.items.insert(text, ());
        proof {
            assert(self.items@.dom() =~= old(self).items@.dom().insert(text@));
        }
    }

    /// A set of the same texts.
    pub fn copy(&self) -> (s: Self)
        requires
            self.wf(),
        ensures
            s.wf(),
            s@ == self@,
            s.items() == self.items(),
    {
        let mut entries: Vec<(String, ())> = Vec::new();
        let mut i: usize = 0;
        while i < self.items.entries.len()
            invariant
                i <= self.items.entries.len(),
                entries@.len() == i,
                forall|k: int| 0 <= k < i ==> (#[trigger] entries@[k]).0@ == self.items.entries@[k].0@,
            decreases self.items.entries.len() - i,
        {
            entries.push((self.items.entries[i].0.clone(), ()));
            i += 1;
        }
        let s = TextSet { items: TextMap { entries } };
        proof {
            assert(s.items.keys() =~= self.items.keys());
            assert(s.items.values().len() == s.items.keys().len());
            assert(s@ =~= self@);
        }
        s
    }
}

} // verus!
