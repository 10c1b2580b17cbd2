//! A map from text keys to values that keeps its keys in the order of
//! texts, as a JSON object of `config.json` does.

use vstd::prelude::*;
use crate::text::{
    chars_of, compare_texts, lemma_text_less_asymmetric, lemma_text_less_irreflexive,
    lemma_text_less_transitive, text_less, TextOrder,
};

verus! {

/// Values that can be copied with their view kept.
pub trait Duplicate: View + Sized {
    /// A copy of `self`.
    fn duplicate(&self) -> (r: Self)
        ensures
            r@ == self@,
    ;
}

/// The keys in `keys` strictly increase in the order of texts.
pub open spec fn strictly_sorted(keys: Seq<Seq<char>>) -> bool {
    forall|i: int, j: int| 0 <= i < j < keys.len() ==> text_less(#[trigger] keys[i], #[trigger] keys[j])
}

/// The keys of `m` in increasing order of texts.
pub open spec fn sorted_keys<W>(m: Map<Seq<char>, W>) -> Seq<Seq<char>> {
    choose|ks: Seq<Seq<char>>|
        strictly_sorted(ks) && forall|k: Seq<char>| #[trigger] ks.contains(k) <==> m.contains_key(k)
}

/// Two strictly increasing sequences of texts that hold the same texts are
/// equal.
pub proof fn lemma_sorted_unique(a: Seq<Seq<char>>, b: Seq<Seq<char>>)
    requires
        strictly_sorted(a),
        strictly_sorted(b),
        forall|k: Seq<char>| #[trigger] a.contains(k) <==> b.contains(k),
    ensures
        a == b,
    decreases a.len(),
{
    if a.len() == 0 {
        if b.len() > 0 {
            assert(b.contains(b[0]));
            assert(a.contains(b[0]));
        }
        assert(a =~= b);
    } else {
        assert(a.contains(a[0]));
        assert(b.len() > 0);
        assert(b.contains(b[0]));
        assert(b.contains(a[0]));
        assert(a.contains(b[0]));
        let j = choose|j: int| 0 <= j < b.len() && b[j] == a[0];
        let i = choose|i: int| 0 <= i < a.len() && a[i] == b[0];
        if j > 0 {
            assert(text_less(b[0], b[j]));
            if i == 0 {
                lemma_text_less_irreflexive(b[0]);
            } else {
                assert(text_less(a[0], a[i]));
                lemma_text_less_transitive(a[0], b[0], a[0]);
                lemma_text_less_irreflexive(a[0]);
            }
        }
        assert(a[0] == b[0]);
        let a1 = a.drop_first();
        let b1 = b.drop_first();
        assert forall|k: Seq<char>| #[trigger] a1.contains(k) <==> b1.contains(k) by {
            if a1.contains(k) {
                let x = choose|x: int| 0 <= x < a1.len() && a1[x] == k;
                assert(text_less(a[0], a[x + 1]));
                lemma_text_less_asymmetric(a[0], k);
                assert(a.contains(k));
                assert(b.contains(k));
                assert(k != b[0]);
                let y = choose|y: int| 0 <= y < b.len() && b[y] == k;
                assert(y != 0);
                assert(b1[y - 1] == k);
            }
            if b1.contains(k) {
                let x = choose|x: int| 0 <= x < b1.len() && b1[x] == k;
                assert(text_less(b[0], b[x + 1]));
                lemma_text_less_asymmetric(b[0], k);
                assert(b.contains(k));
                assert(a.contains(k));
                assert(k != a[0]);
                let y = choose|y: int| 0 <= y < a.len() && a[y] == k;
                assert(y != 0);
                assert(a1[y - 1] == k);
            }
        }
        assert(strictly_sorted(a1)) by {
            assert forall|x: int, y: int| 0 <= x < y < a1.len() implies text_less(#[trigger] a1[x], #[trigger] a1[y]) by {
                assert(a1[x] == a[x + 1] && a1[y] == a[y + 1]);
            }
        }
        assert(strictly_sorted(b1)) by {
            assert forall|x: int, y: int| 0 <= x < y < b1.len() implies text_less(#[trigger] b1[x], #[trigger] b1[y]) by {
                assert(b1[x] == b[x + 1] && b1[y] == b[y + 1]);
            }
        }
        lemma_sorted_unique(a1, b1);
        assert(a =~= b) by {
            assert forall|x: int| 0 <= x < a.len() implies a[x] == b[x] by {
                if x > 0 {
                    assert(a[x] == a1[x - 1]);
                    assert(b[x] == b1[x - 1]);
                }
            }
        }
    }
}

/// A map from text keys to values, its entries kept in key order.
#[derive(Debug)]
pub struct KeyedMap<V: View> {
    entries: Vec<(String, V)>,
}

impl<V: View> View for KeyedMap<V> {
    type V = Map<Seq<char>, V::V>;

    closed spec fn view(&self) -> Map<Seq<char>, V::V> {
        Map::new(
            |k: Seq<char>| self.key_seq().contains(k),
            |k: Seq<char>| self.value_seq()[self.key_seq().index_of(k)],
        )
    }
}

impl<V: View> KeyedMap<V> {
    /// The keys, in their order.
    pub closed spec fn key_seq(&self) -> Seq<Seq<char>> {
        Seq::new(self.entries@.len(), |i: int| self.entries@[i].0@)
    }

    /// The values, in the order of their keys.
    pub closed spec fn value_seq(&self) -> Seq<V::V> {
        Seq::new(self.entries@.len(), |i: int| self.entries@[i].1@)
    }

    /// The map is well formed: its keys strictly increase.
    pub open spec fn wf(&self) -> bool {
        strictly_sorted(self.key_seq())
    }

    /// Keys listed in order: strictly increasing, each a key of the map,
    /// and every key of the map listed.
    pub proof fn lemma_key_seq(&self)
        requires
            self.wf(),
        ensures
            strictly_sorted(self.key_seq()),
            forall|k: Seq<char>| self@.contains_key(k) <==> self.key_seq().contains(k),
            forall|i: int|
                0 <= i < self.key_seq().len() ==> #[trigger] self@[self.key_seq()[i]]
                    == self.value_seq()[i],
            self.key_seq().len() == self.value_seq().len(),
            self.key_seq() == sorted_keys(self@),
    {
        let ks = self.key_seq();
        assert(strictly_sorted(ks) && forall|k: Seq<char>| #[trigger] ks.contains(k) <==> self@.contains_key(k));
        let c = sorted_keys(self@);
        lemma_sorted_unique(ks, c);
        assert forall|i: int| 0 <= i < self.key_seq().len() implies #[trigger] self@[self.key_seq()[i]]
            == self.value_seq()[i] by {
            self.lemma_index_of(i);
        }
    }

    proof fn lemma_index_of(&self, i: int)
        requires
            strictly_sorted(self.key_seq()),
            0 <= i < self.key_seq().len(),
        ensures
            self.key_seq().index_of(self.key_seq()[i]) == i,
            self@.contains_key(self.key_seq()[i]),
            self@[self.key_seq()[i]] == self.value_seq()[i],
    {
        let ks = self.key_seq();
        assert(ks.contains(ks[i]));
        let j = ks.index_of(ks[i]);
        if j < i {
            lemma_text_less_asymmetric(ks[j], ks[i]);
        } else if j > i {
            lemma_text_less_asymmetric(ks[i], ks[j]);
        }
    }

    /// The number of entries.
    pub fn len(&self) -> (n: usize)
        ensures
            n == self.key_seq().len(),
    {
        self.entries.len()
    }

    /// An empty map.
    pub fn new() -> (m: Self)
        ensures
            m.wf(),
            m@ == Map::<Seq<char>, V::V>::empty(),
            m.key_seq().len() == 0,
    {
        let m = KeyedMap { entries: Vec::new() };
        assert(m@ =~= Map::<Seq<char>, V::V>::empty());
        m
    }

    /// The index at which `key` stands or would stand, and whether it
    /// stands there.
    fn position(&self, key: &Vec<char>) -> (r: (usize, bool))
        requires
            self.wf(),
        ensures
            r.0 <= self.key_seq().len(),
            forall|j: int| 0 <= j < r.0 ==> text_less(#[trigger] self.key_seq()[j], key@),
            r.1 ==> r.0 < self.key_seq().len() && self.key_seq()[r.0 as int] == key@,
            !r.1 ==> r.0 == self.key_seq().len() || text_less(key@, self.key_seq()[r.0 as int]),
    {
        let mut i: usize = 0;
        while i < self.entries.len()
            invariant
                i <= self.entries.len(),
                forall|j: int| 0 <= j < i ==> text_less(#[trigger] self.key_seq()[j], key@),
            decreases self.entries.len() - i,
        {
            let k = chars_of(self.entries[i].0.as_str());
            match compare_texts(&k, key) {
                TextOrder::Less => {},
                TextOrder::Equal => {
                    return (i, true);
                },
                TextOrder::Greater => {
                    return (i, false);
                },
            }
            i += 1;
        }
        (i, false)
    }

    /// Whether `key` is a key of the map.
    pub fn contains_key(&self, key: &str) -> (b: bool)
        requires
            self.wf(),
        ensures
            b == self@.contains_key(key@),
    {
        proof {
            self.lemma_key_seq();
        }
        let k = chars_of(key);
        let (i, found) = self.position(&k);
        proof {
            if !found && self.key_seq().contains(key@) {
                let j = self.key_seq().index_of(key@);
                if j < i {
                    lemma_text_less_irreflexive(key@);
                } else if j > i {
                    lemma_text_less_transitive(key@, self.key_seq()[i as int], key@);
                    lemma_text_less_irreflexive(key@);
                } else {
                    lemma_text_less_irreflexive(key@);
                }
            }
        }
        found
    }

    /// The value under `key`, if there is one.
    pub fn get(&self, key: &str) -> (r: Option<&V>)
        requires
            self.wf(),
        ensures
            r is Some <==> self@.contains_key(key@),
            r matches Some(v) ==> v@ == self@[key@],
    {
        proof {
            self.lemma_key_seq();
        }
        let k = chars_of(key);
        let (i, found) = self.position(&k);
        if found {
            proof {
                self.lemma_index_of(i as int);
            }
            Some(&self.entries[i].1)
        } else {
            proof {
                if self.key_seq().contains(key@) {
                    let j = self.key_seq().index_of(key@);
                    if j < i {
                        lemma_text_less_irreflexive(key@);
                    } else if j > i {
                        lemma_text_less_transitive(key@, self.key_seq()[i as int], key@);
                        lemma_text_less_irreflexive(key@);
                    } else {
                        lemma_text_less_irreflexive(key@);
                    }
                }
            }
            None
        }
    }

    /// The key and value of the `i`-th entry in key order.
    pub fn entry(&self, i: usize) -> (r: (&String, &V))
        requires
            self.wf(),
            i < self.key_seq().len(),
        ensures
            r.0@ == self.key_seq()[i as int],
            r.1@ == self.value_seq()[i as int],
            r.1@ == self@[r.0@],
    {
        proof {
            self.lemma_index_of(i as int);
        }
        (&self.entries[i].0, &self.entries[i].1)
    }
}

impl<V: View> KeyedMap<V> {
    /// Every key is at its own index.
    proof fn lemma_all_indices(&self)
        requires
            self.wf(),
        ensures
            forall|i: int|
                0 <= i < self.key_seq().len() ==> self.key_seq().index_of(#[trigger] self.key_seq()[i])
                    == i,
            forall|k: Seq<char>|
                self.key_seq().contains(k) ==> {
                    let j = self.key_seq().index_of(k);
                    &&& 0 <= j < self.key_seq().len()
                    &&& self.key_seq()[j] == k
                },
    {
        assert forall|i: int| 0 <= i < self.key_seq().len() implies self.key_seq().index_of(
            #[trigger] self.key_seq()[i],
        ) == i by {
            self.lemma_index_of(i);
        }
    }

    /// Sets the value under `key`, adding the key if it is new.
    pub fn insert(&mut self, key: String, value: V)
        requires
            old(self).wf(),
        ensures
            final(self).wf(),
            final(self)@ == old(self)@.insert(key@, value@),
    {
        let ghost old_ks = self.key_seq();
        let ghost old_vs = self.value_seq();
        let ghost old_view = self@;
        proof {
            self.lemma_all_indices();
        }
        let k = chars_of(key.as_str());
        let (i, found) = self.position(&k);
        let ghost v = value@;
        if found {
            self.entries.set(i, (key, value));
            assert(self.key_seq() =~= old_ks);
            assert(self.value_seq() =~= old_vs.update(i as int, v));
            proof {
                self.lemma_all_indices();
                assert forall|k2: Seq<char>| #[trigger] self@.contains_key(k2) == old_view.insert(k@, v).contains_key(k2) by {
                    if k2 == k@ {
                        assert(old_ks[i as int] == k2);
                    }
                }
                assert forall|k2: Seq<char>| self@.contains_key(k2) implies #[trigger] self@[k2] == old_view.insert(k@, v)[k2] by {
                    let j = old_ks.index_of(k2);
                    assert(old_ks[j] == k2);
                }
                assert(self@ =~= old_view.insert(k@, v));
            }
        } else {
            self.entries.insert(i, (key, value));
            assert(self.key_seq() =~= old_ks.insert(i as int, k@));
            assert(self.value_seq() =~= old_vs.insert(i as int, v));
            proof {
                let ks = self.key_seq();
                assert forall|a: int, b: int| 0 <= a < b < ks.len() implies text_less(#[trigger] ks[a], #[trigger] ks[b]) by {
                    if b < i {
                    } else if b == i {
                    } else if a < i {
                        if i < old_ks.len() {
                            lemma_text_less_transitive(ks[a], k@, old_ks[i as int]);
                            if b - 1 > i {
                                lemma_text_less_transitive(ks[a], old_ks[i as int], old_ks[b - 1]);
                            }
                        }
                    } else if a == i {
                        if b - 1 > i {
                            lemma_text_less_transitive(k@, old_ks[i as int], old_ks[b - 1]);
                        }
                    } else {
                        assert(ks[a] == old_ks[a - 1]);
                        assert(ks[b] == old_ks[b - 1]);
                    }
                }
                assert(self.wf());
                self.lemma_all_indices();
                assert forall|k2: Seq<char>| #[trigger] self@.contains_key(k2) == old_view.insert(k@, v).contains_key(k2) by {
                    if k2 == k@ {
                        assert(ks[i as int] == k2);
                    } else if old_ks.contains(k2) {
                        let j = old_ks.index_of(k2);
                        if j < i {
                            assert(ks[j] == k2);
                        } else {
                            assert(ks[j + 1] == k2);
                        }
                    } else if ks.contains(k2) {
                        let j = ks.index_of(k2);
                        if j < i {
                            assert(old_ks[j] == k2);
                        } else if j > i {
                            assert(old_ks[j - 1] == k2);
                        }
                    }
                }
                assert forall|k2: Seq<char>| self@.contains_key(k2) implies #[trigger] self@[k2] == old_view.insert(k@, v)[k2] by {
                    let j = ks.index_of(k2);
                    assert(self@[k2] == self.value_seq()[j]);
                    if j < i {
                        assert(old_ks[j] == k2);
                        assert(old_ks.index_of(k2) == j);
                        assert(k2 != k@);
                        assert(old_view[k2] == old_vs[j]);
                    } else if j > i {
                        assert(old_ks[j - 1] == k2);
                        assert(old_ks.index_of(k2) == j - 1);
                        assert(k2 != k@) by {
                            lemma_text_less_asymmetric(ks[i as int], ks[j]);
                        }
                        assert(old_view[k2] == old_vs[j - 1]);
                    } else {
                        assert(k2 == k@);
                    }
                }
                assert(self@ =~= old_view.insert(k@, v));
            }
        }
    }

    /// Takes the entry under `key` out of the map, if there is one.
    pub fn remove(&mut self, key: &str) -> (r: Option<V>)
        requires
            old(self).wf(),
        ensures
            final(self).wf(),
            final(self)@ == old(self)@.remove(key@),
            r is Some <==> old(self)@.contains_key(key@),
            r matches Some(v) ==> v@ == old(self)@[key@],
    {
        let ghost old_ks = self.key_seq();
        let ghost old_vs = self.value_seq();
        let ghost old_view = self@;
        proof {
            self.lemma_all_indices();
        }
        let present = self.contains_key(key);
        if !present {
            assert(old_view.remove(key@) =~= old_view);
            return None;
        }
        let k = chars_of(key);
        let (i, found) = self.position(&k);
        assert(found) by {
            if !found {
                let j = old_ks.index_of(key@);
                if j < i {
                    lemma_text_less_irreflexive(key@);
                } else if j > i {
                    lemma_text_less_transitive(key@, old_ks[i as int], key@);
                    lemma_text_less_irreflexive(key@);
                } else {
                    lemma_text_less_irreflexive(key@);
                }
            }
        }
        let (_, v) = self.entries.remove(i);
        assert(self.key_seq() =~= old_ks.remove(i as int));
        assert(self.value_seq() =~= old_vs.remove(i as int));
        proof {
            let ks = self.key_seq();
            assert forall|a: int, b: int| 0 <= a < b < ks.len() implies text_less(#[trigger] ks[a], #[trigger] ks[b]) by {
                if a < i {
                    if b >= i {
                        assert(ks[b] == old_ks[b + 1]);
                    }
                } else {
                    assert(ks[a] == old_ks[a + 1]);
                    assert(ks[b] == old_ks[b + 1]);
                }
            }
            assert(self.wf());
            self.lemma_all_indices();
            assert forall|k2: Seq<char>| #[trigger] self@.contains_key(k2) == old_view.remove(k@).contains_key(k2) by {
                if ks.contains(k2) {
                    let j = ks.index_of(k2);
                    if j < i {
                        assert(old_ks[j] == k2);
                        assert(old_ks.index_of(k2) == j);
                    } else {
                        assert(old_ks[j + 1] == k2);
                        assert(old_ks.index_of(k2) == j + 1);
                    }
                } else if old_ks.contains(k2) && k2 != k@ {
                    let j = old_ks.index_of(k2);
                    if j < i {
                        assert(ks[j] == k2);
                    } else {
                        assert(ks[j - 1] == k2);
                    }
                }
            }
            assert forall|k2: Seq<char>| self@.contains_key(k2) implies #[trigger] self@[k2] == old_view.remove(k@)[k2] by {
                let j = ks.index_of(k2);
                if j < i {
                    assert(old_ks[j] == k2);
                    assert(old_ks.index_of(k2) == j);
                } else {
                    assert(old_ks[j + 1] == k2);
                    assert(old_ks.index_of(k2) == j + 1);
                }
            }
            assert(self@ =~= old_view.remove(k@));
            assert(old_ks[i as int] == key@);
            assert(old_ks.index_of(key@) == i);
        }
        Some(v)
    }

    /// Removes every entry.
    pub fn clear(&mut self)
        ensures
            final(self).wf(),
            final(self)@ == Map::<Seq<char>, V::V>::empty(),
            final(self).key_seq().len() == 0,
    {
        self.entries.clear();
        assert(self.key_seq() =~= Seq::<Seq<char>>::empty());
        assert(self@ =~= Map::<Seq<char>, V::V>::empty());
    }
}

impl<V: Duplicate> KeyedMap<V> {
    /// A copy of the map, with the same entries in the same order.
    pub fn duplicate(&self) -> (r: Self)
        ensures
            r.wf() == self.wf(),
            r@ == self@,
            r.key_seq() == self.key_seq(),
            r.value_seq() == self.value_seq(),
    {
        let mut entries: Vec<(String, V)> = Vec::new();
        let mut i: usize = 0;
        while i < self.entries.len()
            invariant
                i <= self.entries.len(),
                entries@.len() == i,
                forall|j: int| 0 <= j < i ==> (#[trigger] entries@[j]).0@ == self.entries@[j].0@,
                forall|j: int| 0 <= j < i ==> (#[trigger] entries@[j]).1@ == self.entries@[j].1@,
            decreases self.entries.len() - i,
        {
            let k = self.entries[i].0.clone();
            let v = self.entries[i].1.duplicate();
            entries.push((k, v));
            i += 1;
        }
        let r = KeyedMap { entries };
        assert(r.key_seq() =~= self.key_seq());
        assert(r.value_seq() =~= self.value_seq());
        assert(r@ =~= self@);
        r
    }
}

} // verus!
