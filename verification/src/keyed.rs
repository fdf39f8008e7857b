//! A map from text to values that keeps its entries in the order in which the
//! keys came in.

#![verifier::loop_isolation(false)]

use crate::text::same;
use vstd::prelude::*;

verus! {

/// A map whose keys are texts. No key occurs twice.
pub struct KeyedList<V> {
    entries: Vec<(String, V)>,
}

/// Taking one of several different keys out leaves the others, each one place
/// earlier where it stood behind.
proof fn lemma_removed(keys: Seq<Seq<char>>, i: int)
    requires
        0 <= i < keys.len(),
        forall|a: int, b: int|
            0 <= a < b < keys.len() ==> #[trigger] keys[a] != #[trigger] keys[b],
    ensures
        !keys.remove(i).contains(keys[i]),
        forall|a: int, b: int|
            0 <= a < b < keys.len() - 1 ==> #[trigger] keys.remove(i)[a] != #[trigger] keys.remove(
                i,
            )[b],
        forall|k: Seq<char>|
            k != keys[i] ==> #[trigger] keys.remove(i).contains(k) == keys.contains(k),
        forall|k: Seq<char>|
            #![trigger keys.remove(i).index_of(k)]
            k != keys[i] && keys.contains(k) ==> keys.remove(i).index_of(k) == keys.index_of(k) - (
            if keys.index_of(k) < i {
                0int
            } else {
                1int
            }),
{
    let after = keys.remove(i);
    assert forall|a: int, b: int| 0 <= a < b < keys.len() - 1 implies #[trigger] after[a]
        != #[trigger] after[b] by {
        let x = if a < i { a } else { a + 1 };
        let y = if b < i { b } else { b + 1 };
        assert(after[a] == keys[x]);
        assert(after[b] == keys[y]);
    }
    if after.contains(keys[i]) {
        let a = after.index_of(keys[i]);
        assert(after[a] == keys[i]);
        let x = if a < i { a } else { a + 1 };
        assert(after[a] == keys[x]);
    }
    assert forall|k: Seq<char>| k != keys[i] implies #[trigger] after.contains(k) == keys.contains(
        k,
    ) by {
        if keys.contains(k) {
            let x = keys.index_of(k);
            assert(keys[x] == k);
            let a = if x < i { x } else { x - 1 };
            assert(after[a] == k);
        }
        if after.contains(k) {
            let a = after.index_of(k);
            assert(after[a] == k);
            let x = if a < i { a } else { a + 1 };
            assert(keys[x] == k);
        }
    }
    assert forall|k: Seq<char>|
        #![trigger after.index_of(k)]
        k != keys[i] && keys.contains(k) implies after.index_of(k) == keys.index_of(k) - (
    if keys.index_of(k) < i {
        0int
    } else {
        1int
    }) by {
        let x = keys.index_of(k);
        assert(keys[x] == k);
        let a = if x < i { x } else { x - 1 };
        assert(after[a] == k);
        let c = after.index_of(k);
        assert(after[c] == k);
        assert(a == c);
    }
}

impl<V> KeyedList<V> {
    /// The keys in the order in which they came in.
    pub closed spec fn keys(self) -> Seq<Seq<char>> {
        Seq::new(self.entries@.len(), |i: int| self.entries@[i].0@)
    }

    /// The values, each at the place of its key.
    pub closed spec fn values(self) -> Seq<V> {
        Seq::new(self.entries@.len(), |i: int| self.entries@[i].1)
    }

    /// No key occurs twice, and each has its value.
    pub open spec fn wf(self) -> bool {
        &&& self.keys().len() == self.values().len()
        &&& forall|i: int, j: int|
            0 <= i < j < self.keys().len() ==> #[trigger] self.keys()[i] != #[trigger] self.keys()[j]
    }

    /// The place of `key`, or `None` where it is not there.
    pub open spec fn position(self, key: Seq<char>) -> Option<int> {
        if self.keys().contains(key) {
            Some(self.keys().index_of(key))
        } else {
            None
        }
    }

    /// Whether `key` is in the map.
    pub open spec fn has(self, key: Seq<char>) -> bool {
        self.keys().contains(key)
    }

    /// The value of `key`.
    pub open spec fn value(self, key: Seq<char>) -> V
        recommends
            self.has(key),
    {
        self.values()[self.keys().index_of(key)]
    }

    /// A map without entries.
    pub fn new() -> (r: Self)
        ensures
            r.wf(),
            r.keys() == Seq::<Seq<char>>::empty(),
            r.values() == Seq::<V>::empty(),
    {
        let r = KeyedList { entries: Vec::new() };
        assert(r.keys() =~= Seq::empty());
        assert(r.values() =~= Seq::empty());
        r
    }

    /// The number of entries.
    pub fn len(&self) -> (r: usize)
        ensures
            r == self.keys().len(),
            r == self.values().len(),
    {
        self.entries.len()
    }

    /// The key at place `i`.
    pub fn key_at(&self, i: usize) -> (r: &String)
        requires
            i < self.keys().len(),
        ensures
            r@ == self.keys()[i as int],
    {
        &self.entries[i].0
    }

    /// The value at place `i`.
    pub fn value_at(&self, i: usize) -> (r: &V)
        requires
            i < self.values().len(),
        ensures
            *r == self.values()[i as int],
    {
        &self.entries[i].1
    }

    /// The place of `key`.
    pub fn find(&self, key: &str) -> (r: Option<usize>)
        requires
            self.wf(),
        ensures
            match r {
                Some(i) => self.position(key@) == Some(i as int) && i < self.keys().len()
                    && self.keys()[i as int] == key@,
                None => !self.has(key@),
            },
    {
        let mut i: usize = 0;
        while i < self.entries.len()
            invariant
                i <= self.entries@.len(),
                forall|j: int| 0 <= j < i ==> self.keys()[j] != key@,
            decreases self.entries@.len() - i,
        {
            if same(self.entries[i].0.as_str(), key) {
                proof {
                    assert(self.keys()[i as int] == key@);
                    let w = self.keys().index_of(key@);
                    assert(self.keys()[w] == key@);
                    assert(w == i);
                }
                return Some(i);
            }
            i = i + 1;
        }
        None
    }

    /// The value of `key`.
    pub fn get(&self, key: &str) -> (r: Option<&V>)
        requires
            self.wf(),
        ensures
            match r {
                Some(v) => self.has(key@) && *v == self.value(key@),
                None => !self.has(key@),
            },
    {
        match self.find(key) {
            Some(i) => Some(&self.entries[i].1),
            None => None,
        }
    }

    /// Replaces the value at place `i`.
    pub fn set_at(&mut self, i: usize, value: V)
        requires
            old(self).wf(),
            i < old(self).keys().len(),
        ensures
            final(self).wf(),
            final(self).keys() == old(self).keys(),
            final(self).values() == old(self).values().update(i as int, value),
    {
        let entry = self.entries.remove(i);
        self.entries.insert(i, (entry.0, value));
        assert(self.keys() =~= old(self).keys());
        assert(self.values() =~= old(self).values().update(i as int, value));
    }

    /// Gives `key` the value `value`, in its place where it is there and at the
    /// end where it is new.
    pub fn insert(&mut self, key: String, value: V)
        requires
            old(self).wf(),
        ensures
            final(self).wf(),
            match old(self).position(key@) {
                Some(i) => final(self).keys() == old(self).keys() && final(self).values() == old(
                    self,
                ).values().update(i, value),
                None => final(self).keys() == old(self).keys().push(key@) && final(self).values()
                    == old(self).values().push(value),
            },
            final(self).has(key@),
            final(self).value(key@) == value,
            forall|k: Seq<char>|
                k != key@ ==> #[trigger] final(self).has(k) == old(self).has(k) && (old(self).has(k)
                    ==> final(self).value(k) == old(self).value(k)),
    {
        match self.find(key.as_str()) {
            Some(i) => {
                self.set_at(i, value);
                proof {
                    assert(self.keys()[i as int] == key@);
                    assert forall|k: Seq<char>| k != key@ && old(self).has(k) implies self.value(k)
                        == old(self).value(k) by {
                        let w = self.keys().index_of(k);
                        assert(self.keys()[w] == k);
                        assert(w != i);
                    }
                }
            },
            None => {
                let ghost before = self.keys();
                let ghost word = key@;
                self.entries.push((key, value));
                proof {
                    assert(self.keys() =~= before.push(word));
                    assert(self.values() =~= old(self).values().push(value));
                    let n = before.len() as int;
                    assert(self.keys()[n] == word);
                    assert(!before.contains(word));
                    assert forall|i: int, j: int| 0 <= i < j < self.keys().len() implies
                        #[trigger] self.keys()[i] != #[trigger] self.keys()[j] by {
                        if j == n {
                            assert(before[i] == self.keys()[i]);
                        }
                    }
                    let at = self.keys().index_of(word);
                    assert(self.keys()[at] == word);
                    assert(at == n);
                    assert forall|k: Seq<char>| k != word implies #[trigger] self.has(k) == old(
                        self,
                    ).has(k) && (old(self).has(k) ==> self.value(k) == old(self).value(k)) by {
                        if old(self).has(k) {
                            let w = before.index_of(k);
                            assert(before[w] == k);
                            assert(self.keys()[w] == k);
                            let v = self.keys().index_of(k);
                            assert(self.keys()[v] == k);
                            assert(v == w);
                        } else if self.has(k) {
                            let v = self.keys().index_of(k);
                            assert(self.keys()[v] == k);
                            assert(before[v] == k);
                        }
                    }
                }
            },
        }
    }

    /// Takes the entry at place `i` out.
    pub fn remove_at(&mut self, i: usize) -> (r: (String, V))
        requires
            old(self).wf(),
            i < old(self).keys().len(),
        ensures
            final(self).wf(),
            r.0@ == old(self).keys()[i as int],
            r.1 == old(self).values()[i as int],
            final(self).keys() == old(self).keys().remove(i as int),
            final(self).values() == old(self).values().remove(i as int),
            !final(self).has(r.0@),
            forall|k: Seq<char>|
                k != r.0@ ==> #[trigger] final(self).has(k) == old(self).has(k) && (old(self).has(k)
                    ==> final(self).value(k) == old(self).value(k)),
    {
        let r = self.entries.remove(i);
        proof {
            assert(self.keys() =~= old(self).keys().remove(i as int));
            assert(self.values() =~= old(self).values().remove(i as int));
            lemma_removed(old(self).keys(), i as int);
            assert(!self.has(r.0@));
            assert forall|k: Seq<char>| k != r.0@ implies #[trigger] self.has(k) == old(self).has(k)
                && (old(self).has(k) ==> self.value(k) == old(self).value(k)) by {
                if old(self).has(k) {
                    let x = old(self).keys().index_of(k);
                    assert(old(self).keys()[x] == k);
                    let a = self.keys().index_of(k);
                    assert(self.keys()[a] == k);
                }
            }
        }
        r
    }

    /// Takes `key` and its value out.
    pub fn remove(&mut self, key: &str) -> (r: Option<V>)
        requires
            old(self).wf(),
        ensures
            final(self).wf(),
            match r {
                Some(v) => old(self).has(key@) && v == old(self).value(key@)
                    && old(self).position(key@) is Some
                    && final(self).keys() == old(self).keys().remove(old(self).position(key@)->0)
                    && final(self).values() == old(self).values().remove(
                    old(self).position(key@)->0,
                ),
                None => !old(self).has(key@) && *final(self) == *old(self),
            },
            !final(self).has(key@),
            forall|k: Seq<char>|
                k != key@ ==> #[trigger] final(self).has(k) == old(self).has(k) && (old(self).has(k)
                    ==> final(self).value(k) == old(self).value(k)),
    {
        match self.find(key) {
            Some(i) => {
                let entry = self.remove_at(i);
                Some(entry.1)
            },
            None => None,
        }
    }

    /// Takes every entry out.
    pub fn clear(&mut self)
        ensures
            final(self).wf(),
            final(self).keys() == Seq::<Seq<char>>::empty(),
            final(self).values() == Seq::<V>::empty(),
    {
        self.entries.clear();
        assert(self.keys() =~= Seq::empty());
        assert(self.values() =~= Seq::empty());
    }
}

impl<V: DeepView> KeyedList<V> {
    /// What the values say, each under its key.
    pub open spec fn contents(self) -> Map<Seq<char>, V::V> {
        Map::new(|k: Seq<char>| self.has(k), |k: Seq<char>| self.value(k).deep_view())
    }

    /// Gives `key` the value `value`.
    pub fn put(&mut self, key: String, value: V)
        requires
            old(self).wf(),
        ensures
            final(self).wf(),
            final(self).contents() == old(self).contents().insert(key@, value.deep_view()),
    {
        let ghost word = key@;
        let ghost view = value.deep_view();
        self.insert(key, value);
        proof {
            let before = old(self).contents();
            assert forall|k: Seq<char>| #[trigger] self.contents().contains_key(k) == before.insert(
                word,
                view,
            ).contains_key(k) by {
                assert(self.has(k) == (k == word || old(self).has(k)));
            }
            assert(self.contents() =~= before.insert(word, view));
        }
    }

    /// Takes `key` and its value out.
    pub fn take(&mut self, key: &str) -> (r: Option<V>)
        requires
            old(self).wf(),
        ensures
            final(self).wf(),
            final(self).contents() == old(self).contents().remove(key@),
            match r {
                Some(value) => old(self).contents().contains_key(key@) && value.deep_view() == old(
                    self,
                ).contents()[key@],
                None => !old(self).contents().contains_key(key@),
            },
    {
        let r = self.remove(key);
        proof {
            let before = old(self).contents();
            assert forall|k: Seq<char>| #[trigger] self.contents().contains_key(k)
                == before.remove(key@).contains_key(k) by {
                assert(self.has(k) == (k != key@ && old(self).has(k)));
            }
            assert(self.contents() =~= before.remove(key@));
        }
        r
    }

    /// The place of `key`.
    pub fn place(&self, key: &str) -> (r: Option<usize>)
        requires
            self.wf(),
        ensures
            match r {
                Some(i) => i < self.keys().len() && self.keys()[i as int] == key@
                    && self.contents().contains_key(key@) && self.values()[i as int].deep_view()
                    == self.contents()[key@],
                None => !self.contents().contains_key(key@),
            },
    {
        self.find(key)
    }

    /// Replaces the value at place `i`.
    pub fn replace(&mut self, i: usize, value: V)
        requires
            old(self).wf(),
            i < old(self).keys().len(),
        ensures
            final(self).wf(),
            final(self).keys() == old(self).keys(),
            final(self).values() == old(self).values().update(i as int, value),
            final(self).contents() == old(self).contents().insert(
                old(self).keys()[i as int],
                value.deep_view(),
            ),
    {
        let ghost word = self.keys()[i as int];
        let ghost view = value.deep_view();
        self.set_at(i, value);
        proof {
            let before = old(self).contents();
            assert(self.has(word));
            assert(self.keys().index_of(word) == i) by {
                let w = self.keys().index_of(word);
                assert(self.keys()[w] == word);
            }
            assert forall|k: Seq<char>|
                self.contents().contains_key(k) implies #[trigger] self.contents()[k]
                == before.insert(word, view)[k] by {
                if k != word {
                    let w = self.keys().index_of(k);
                    assert(self.keys()[w] == k);
                    assert(w != i);
                }
            }
            assert(self.contents() =~= before.insert(word, view));
        }
    }

    /// The map has as many entries as the list.
    pub proof fn lemma_len(self)
        requires
            self.wf(),
        ensures
            self.contents().dom().finite(),
            self.contents().dom().len() == self.keys().len(),
    {
        let keys = self.keys();
        assert(keys.no_duplicates());
        keys.unique_seq_to_set();
        assert(self.contents().dom() =~= keys.to_set()) by {
            assert forall|k: Seq<char>| self.contents().dom().contains(k) == keys.to_set().contains(
                k,
            ) by {
                assert(self.has(k) == keys.contains(k));
            }
        }
    }

    /// What stands at a place is what its key holds.
    pub proof fn lemma_at(self, i: int)
        requires
            self.wf(),
            0 <= i < self.keys().len(),
        ensures
            self.contents().contains_key(self.keys()[i]),
            self.contents()[self.keys()[i]] == self.values()[i].deep_view(),
    {
        let key = self.keys()[i];
        assert(self.has(key));
        let w = self.keys().index_of(key);
        assert(self.keys()[w] == key);
        assert(w == i);
    }
}

impl KeyedList<String> {
    /// The text under `key`.
    pub fn text(&self, key: &str) -> (r: Option<String>)
        requires
            self.wf(),
        ensures
            match r {
                Some(text) => self.contents().contains_key(key@) && text@ == self.contents()[key@],
                None => !self.contents().contains_key(key@),
            },
    {
        match self.get(key) {
            Some(text) => Some(text.clone()),
            None => None,
        }
    }
}

} // verus!
