//! An ordered map keyed by strings.
//!
//! Entries are kept sorted by key (in `String`'s order), so iteration order is deterministic and
//! every listing the library produces ("ordered by identifier") is a plain walk over the entries.
use vstd::prelude::*;

use crate::text::{compare_str, lemma_seq_lt_asymmetric, lemma_seq_lt_irreflexive, lemma_seq_lt_transitive, seq_lt, Order};

verus! {

/// Keys strictly increasing in `seq_lt` order.
pub open spec fn strictly_sorted(keys: Seq<Seq<char>>) -> bool {
    forall|i: int, j: int| 0 <= i < j < keys.len() ==> seq_lt(#[trigger] keys[i], #[trigger] keys[j])
}

/// In a strictly sorted sequence, the position of an element is unique.
pub proof fn lemma_sorted_index_of(keys: Seq<Seq<char>>, i: int)
    requires
        strictly_sorted(keys),
        0 <= i < keys.len(),
    ensures
        keys.index_of(keys[i]) == i,
{
    assert(keys.contains(keys[i]));
    let j = keys.index_of(keys[i]);
    assert(0 <= j < keys.len() && keys[j] == keys[i]);
    if j < i {
        assert(seq_lt(keys[j], keys[i]));
        lemma_seq_lt_irreflexive(keys[i]);
    } else if j > i {
        assert(seq_lt(keys[i], keys[j]));
        lemma_seq_lt_irreflexive(keys[i]);
    }
}

/// An ordered map from strings to values.
pub struct StringMap<V> {
    entries: Vec<(String, V)>,
}

impl<V> StringMap<V> {
    /// Keys in ascending order.
    pub closed spec fn key_seq(&self) -> Seq<Seq<char>> {
        Seq::new(self.entries@.len(), |i: int| self.entries@[i].0@)
    }

    /// Values, in the order of `key_seq`.
    pub closed spec fn value_seq(&self) -> Seq<V> {
        Seq::new(self.entries@.len(), |i: int| self.entries@[i].1)
    }

    #[verifier::type_invariant]
    closed spec fn keys_sorted(self) -> bool {
        strictly_sorted(self.key_seq())
    }

    /// The map from keys to values.
    pub closed spec fn view(&self) -> Map<Seq<char>, V> {
        Map::new(
            |k: Seq<char>| self.key_seq().contains(k),
            |k: Seq<char>| self.value_seq()[self.key_seq().index_of(k)],
        )
    }

    /// Number of entries.
    pub closed spec fn spec_len(&self) -> nat {
        self.entries@.len()
    }

    /// Creates an empty map.
    pub fn new() -> (m: Self)
        ensures
            m@ == Map::<Seq<char>, V>::empty(),
            m.key_seq() == Seq::<Seq<char>>::empty(),
    {
        let m = StringMap { entries: Vec::new() };
        assert(m.key_seq() =~= Seq::<Seq<char>>::empty());
        assert(m@ =~= Map::<Seq<char>, V>::empty());
        m
    }

    /// Facts that hold of every map: keys are sorted, and the view agrees with the sequences.
    pub fn facts(&self)
        ensures
            strictly_sorted(self.key_seq()),
            self.key_seq().no_duplicates(),
            self.key_seq().len() == self.value_seq().len() == self.spec_len(),
            self@.dom() == self.key_seq().to_set(),
            self@.dom().finite(),
            self@.dom().len() == self.spec_len(),
            forall|i: int|
                0 <= i < self.key_seq().len() ==> #[trigger] self@[self.key_seq()[i]]
                    == self.value_seq()[i],
    {
        proof {
            use_type_invariant(self);
            self.lemma_view_facts();
        }
    }

    proof fn lemma_view_facts(&self)
        requires
            strictly_sorted(self.key_seq()),
        ensures
            self.key_seq().no_duplicates(),
            self.key_seq().len() == self.value_seq().len() == self.spec_len(),
            self@.dom() == self.key_seq().to_set(),
            self@.dom().finite(),
            self@.dom().len() == self.spec_len(),
            forall|i: int|
                0 <= i < self.key_seq().len() ==> #[trigger] self@[self.key_seq()[i]]
                    == self.value_seq()[i],
    {
        let ks = self.key_seq();
        assert(self@.dom() =~= ks.to_set());
        assert forall|i: int| 0 <= i < ks.len() implies #[trigger] self@[ks[i]]
            == self.value_seq()[i] by {
            lemma_sorted_index_of(ks, i);
            assert(ks.contains(ks[i]));
        }
        assert(ks.no_duplicates()) by {
            assert forall|i: int, j: int|
                0 <= i < ks.len() && 0 <= j < ks.len() && i != j implies ks[i] != ks[j] by {
                if i < j {
                    assert(seq_lt(ks[i], ks[j]));
                    if ks[i] == ks[j] {
                        lemma_seq_lt_irreflexive(ks[i]);
                    }
                } else {
                    assert(seq_lt(ks[j], ks[i]));
                    if ks[i] == ks[j] {
                        lemma_seq_lt_irreflexive(ks[i]);
                    }
                }
            }
        }
        ks.unique_seq_to_set();
    }

    /// Number of entries.
    pub fn len(&self) -> (r: usize)
        ensures
            r == self.spec_len(),
            r == self@.dom().len(),
    {
        self.facts();
        self.entries.len()
    }

    /// Locates `k`: `(true, i)` when it is the `i`-th key, `(false, i)` when it would be
    /// inserted at position `i`.
    fn find(&self, k: &str) -> (r: (bool, usize))
        ensures
            r.1 <= self.key_seq().len(),
            r.0 ==> r.1 < self.key_seq().len() && self.key_seq()[r.1 as int] == k@,
            !r.0 ==> forall|i: int|
                0 <= i < r.1 ==> seq_lt(#[trigger] self.key_seq()[i], k@),
            !r.0 ==> forall|i: int|
                r.1 <= i < self.key_seq().len() ==> seq_lt(k@, #[trigger] self.key_seq()[i]),
            !r.0 ==> !self.key_seq().contains(k@),
    {
        proof {
            use_type_invariant(self);
        }
        let n = self.entries.len();
        let mut i: usize = 0;
        while i < n
            invariant
                n == self.key_seq().len(),
                strictly_sorted(self.key_seq()),
                i <= n,
                forall|j: int| 0 <= j < i ==> seq_lt(#[trigger] self.key_seq()[j], k@),
            decreases n - i,
        {
            let o = compare_str(self.entries[i].0.as_str(), k);
            assert(self.key_seq()[i as int] == self.entries@[i as int].0@);
            match o {
                Order::Less => {},
                Order::Equal => {
                    return (true, i);
                },
                Order::Greater => {
                    proof {
                        let ks = self.key_seq();
                        assert forall|j: int| i <= j < n implies seq_lt(k@, #[trigger] ks[j]) by {
                            if j > i {
                                lemma_seq_lt_transitive(k@, ks[i as int], ks[j]);
                            }
                        }
                        assert(!ks.contains(k@)) by {
                            if ks.contains(k@) {
                                let j = ks.index_of(k@);
                                if j < i {
                                    lemma_seq_lt_irreflexive(k@);
                                } else {
                                    lemma_seq_lt_irreflexive(k@);
                                }
                            }
                        }
                    }
                    return (false, i);
                },
            }
            i = i + 1;
        }
        proof {
            let ks = self.key_seq();
            if ks.contains(k@) {
                let j = ks.index_of(k@);
                lemma_seq_lt_irreflexive(k@);
            }
        }
        (false, i)
    }

    /// Whether `k` is a key.
    pub fn contains_key(&self, k: &str) -> (r: bool)
        ensures
            r == self@.dom().contains(k@),
    {
        let (found, i) = self.find(k);
        proof {
            if found {
                assert(self.key_seq().contains(k@));
            }
        }
        found
    }

    /// The value stored under `k`.
    pub fn get(&self, k: &str) -> (r: Option<&V>)
        ensures
            r matches Some(v) ==> self@.dom().contains(k@) && self@[k@] == *v,
            r is None ==> !self@.dom().contains(k@),
    {
        let (found, i) = self.find(k);
        self.facts();
        if found {
            proof {
                assert(self.key_seq().contains(k@));
                assert(self.value_seq()[i as int] == self.entries@[i as int].1);
            }
            Some(&self.entries[i].1)
        } else {
            None
        }
    }

    /// The `i`-th key in ascending order.
    pub fn key_at(&self, i: usize) -> (r: &String)
        requires
            i < self.key_seq().len(),
        ensures
            r@ == self.key_seq()[i as int],
    {
        &self.entries[i].0
    }

    /// The value of the `i`-th key in ascending order.
    pub fn value_at(&self, i: usize) -> (r: &V)
        requires
            i < self.key_seq().len(),
        ensures
            *r == self.value_seq()[i as int],
            *r == self@[self.key_seq()[i as int]],
    {
        self.facts();
        &self.entries[i].1
    }

    /// Stores `v` under `k`, returning the value it replaces.
    pub fn insert(&mut self, k: String, v: V) -> (r: Option<V>)
        ensures
            final(self)@ == old(self)@.insert(k@, v),
            r matches Some(o) ==> old(self)@.dom().contains(k@) && old(self)@[k@] == o,
            r is None ==> !old(self)@.dom().contains(k@),
    {
        let (found, i) = self.find(k.as_str());
        proof {
            use_type_invariant(&*self);
            self.lemma_view_facts();
        }
        let ghost old_keys = self.key_seq();
        let ghost old_vals = self.value_seq();
        let ghost old_view = self@;
        let ghost key = k@;
        let mut entries: Vec<(String, V)> = Vec::new();
        std::mem::swap(&mut entries, &mut self.entries);
        let r = if found {
            let (_, old_v) = entries.remove(i);
            entries.insert(i, (k, v));
            Some(old_v)
        } else {
            entries.insert(i, (k, v));
            None
        };
        let ghost new_keys = Seq::new(entries@.len(), |j: int| entries@[j].0@);
        let ghost new_vals = Seq::new(entries@.len(), |j: int| entries@[j].1);
        proof {
            if found {
                assert(new_keys =~= old_keys);
                assert(new_vals =~= old_vals.update(i as int, v));
            } else {
                assert(new_keys =~= old_keys.insert(i as int, key));
                assert(new_vals =~= old_vals.insert(i as int, v));
                assert(strictly_sorted(new_keys)) by {
                    assert forall|a: int, b: int| 0 <= a < b < new_keys.len() implies seq_lt(
                        #[trigger] new_keys[a],
                        #[trigger] new_keys[b],
                    ) by {
                        if a < i && b == i {
                        } else if a < i && b > i {
                            assert(new_keys[b] == old_keys[b - 1]);
                            lemma_seq_lt_transitive(old_keys[a], key, old_keys[b - 1]);
                        } else if a == i {
                            assert(new_keys[b] == old_keys[b - 1]);
                        } else if a > i {
                            assert(new_keys[a] == old_keys[a - 1]);
                            assert(new_keys[b] == old_keys[b - 1]);
                        }
                    }
                }
            }
        }
        self.entries = entries;
        proof {
            assert(self.key_seq() =~= new_keys);
            assert(self.value_seq() =~= new_vals);
            self.lemma_view_facts();
            let nk = self.key_seq();
            assert forall|q: Seq<char>| #[trigger] self@.dom().contains(q) == old_view.insert(
                key,
                v,
            ).dom().contains(q) by {
                if q != key && old_keys.contains(q) {
                    let j = old_keys.index_of(q);
                    if found {
                        assert(nk[j] == q);
                    } else if j < i {
                        assert(nk[j] == q);
                    } else {
                        assert(nk[j + 1] == q);
                    }
                }
                if q == key {
                    if found {
                        assert(nk[i as int] == key);
                    } else {
                        assert(nk[i as int] == key);
                    }
                }
                if q != key && nk.contains(q) {
                    let j = nk.index_of(q);
                    if found {
                        assert(old_keys[j] == q);
                    } else if j < i {
                        assert(old_keys[j] == q);
                    } else if j > i {
                        assert(old_keys[j - 1] == q);
                    }
                }
            }
            assert forall|q: Seq<char>| #[trigger] self@.dom().contains(q) implies self@[q]
                == old_view.insert(key, v)[q] by {
                let j = nk.index_of(q);
                lemma_sorted_index_of(nk, j);
                assert(self@[nk[j]] == self.value_seq()[j]);
                if q == key {
                    assert(j == i) by {
                        lemma_sorted_index_of(nk, i as int);
                    }
                } else {
                    if found {
                        lemma_sorted_index_of(old_keys, j);
                        assert(old_view[old_keys[j]] == old_vals[j]);
                    } else if j < i {
                        lemma_sorted_index_of(old_keys, j);
                        assert(old_view[old_keys[j]] == old_vals[j]);
                    } else {
                        lemma_sorted_index_of(old_keys, j - 1);
                        assert(old_view[old_keys[j - 1]] == old_vals[j - 1]);
                    }
                }
            }
            assert(self@ =~= old_view.insert(key, v));
            if found {
                assert(old_keys.contains(key));
                lemma_sorted_index_of(old_keys, i as int);
            }
        }
        r
    }

    /// Removes `k`, returning its value when it was present.
    pub fn remove(&mut self, k: &str) -> (r: Option<V>)
        ensures
            final(self)@ == old(self)@.remove(k@),
            r matches Some(o) ==> old(self)@.dom().contains(k@) && old(self)@[k@] == o,
            r is None ==> !old(self)@.dom().contains(k@),
    {
        let (found, i) = self.find(k);
        proof {
            use_type_invariant(&*self);
            self.lemma_view_facts();
        }
        if !found {
            assert(self@ =~= old(self)@.remove(k@));
            return None;
        }
        let ghost old_keys = self.key_seq();
        let ghost old_vals = self.value_seq();
        let ghost old_view = self@;
        let ghost key = k@;
        let mut entries: Vec<(String, V)> = Vec::new();
        std::mem::swap(&mut entries, &mut self.entries);
        let (_, old_v) = entries.remove(i);
        let ghost new_keys = Seq::new(entries@.len(), |j: int| entries@[j].0@);
        let ghost new_vals = Seq::new(entries@.len(), |j: int| entries@[j].1);
        proof {
            assert(new_keys =~= old_keys.remove(i as int));
            assert(new_vals =~= old_vals.remove(i as int));
            assert(strictly_sorted(new_keys)) by {
                assert forall|a: int, b: int| 0 <= a < b < new_keys.len() implies seq_lt(
                    #[trigger] new_keys[a],
                    #[trigger] new_keys[b],
                ) by {
                    if a < i && b < i {
                    } else if a < i {
                        assert(new_keys[b] == old_keys[b + 1]);
                    } else {
                        assert(new_keys[a] == old_keys[a + 1]);
                        assert(new_keys[b] == old_keys[b + 1]);
                    }
                }
            }
        }
        self.entries = entries;
        proof {
            assert(self.key_seq() =~= new_keys);
            assert(self.value_seq() =~= new_vals);
            self.lemma_view_facts();
            let nk = self.key_seq();
            lemma_sorted_index_of(old_keys, i as int);
            assert forall|q: Seq<char>| #[trigger] self@.dom().contains(q) == old_view.remove(
                key,
            ).dom().contains(q) by {
                if q != key && old_keys.contains(q) {
                    let j = old_keys.index_of(q);
                    if j < i {
                        assert(nk[j] == q);
                    } else {
                        assert(j != i);
                        assert(nk[j - 1] == q);
                    }
                }
                if nk.contains(q) {
                    let j = nk.index_of(q);
                    if j < i {
                        assert(old_keys[j] == q);
                        if q == key {
                            lemma_sorted_index_of(old_keys, j);
                        }
                    } else {
                        assert(old_keys[j + 1] == q);
                        if q == key {
                            lemma_sorted_index_of(old_keys, j + 1);
                        }
                    }
                }
            }
            assert forall|q: Seq<char>| #[trigger] self@.dom().contains(q) implies self@[q]
                == old_view.remove(key)[q] by {
                let j = nk.index_of(q);
                lemma_sorted_index_of(nk, j);
                assert(self@[nk[j]] == self.value_seq()[j]);
                if j < i {
                    lemma_sorted_index_of(old_keys, j);
                    assert(old_view[old_keys[j]] == old_vals[j]);
                } else {
                    lemma_sorted_index_of(old_keys, j + 1);
                    assert(old_view[old_keys[j + 1]] == old_vals[j + 1]);
                }
            }
            assert(self@ =~= old_view.remove(key));
            assert(old_keys.contains(key));
        }
        Some(old_v)
    }
}

impl<V> Default for StringMap<V> {
    fn default() -> (m: Self)
        ensures
            m@ == Map::<Seq<char>, V>::empty(),
    {
        StringMap::new()
    }
}

impl<V: Copy> StringMap<V> {
    /// A copy of the map.
    pub fn copied(&self) -> (r: Self)
        ensures
            r@ == self@,
            r.key_seq() == self.key_seq(),
            r.value_seq() == self.value_seq(),
    {
        proof {
            use_type_invariant(self);
        }
        let mut out: Vec<(String, V)> = Vec::new();
        let n = self.entries.len();
        for i in 0..n
            invariant
                n == self.entries@.len(),
                strictly_sorted(self.key_seq()),
                out@.len() == i,
                forall|j: int| 0 <= j < i ==> (#[trigger] out@[j]).0@ == self.entries@[j].0@,
                forall|j: int| 0 <= j < i ==> (#[trigger] out@[j]).1 == self.entries@[j].1,
        {
            let k = self.entries[i].0.clone();
            let v: V = self.entries[i].1;
            out.push((k, v));
        }
        let ghost ks = Seq::new(out@.len(), |j: int| out@[j].0@);
        assert(ks =~= self.key_seq());
        let r = StringMap { entries: out };
        assert(r.key_seq() =~= self.key_seq());
        assert(r.value_seq() =~= self.value_seq());
        assert(r@ =~= self@);
        r
    }
}

impl<V: Clone> Clone for StringMap<V> {
    fn clone(&self) -> (r: Self)
        ensures
            r.key_seq() == self.key_seq(),
            forall|i: int|
                0 <= i < self.key_seq().len() ==> cloned::<V>(
                    #[trigger] self.value_seq()[i],
                    r.value_seq()[i],
                ),
    {
        proof {
            use_type_invariant(self);
        }
        let mut out: Vec<(String, V)> = Vec::new();
        let n = self.entries.len();
        for i in 0..n
            invariant
                n == self.entries@.len(),
                strictly_sorted(self.key_seq()),
                out@.len() == i,
                forall|j: int| 0 <= j < i ==> (#[trigger] out@[j]).0@ == self.key_seq()[j],
                forall|j: int|
                    0 <= j < i ==> cloned::<V>(self.value_seq()[j], #[trigger] out@[j].1),
        {
            let k = self.entries[i].0.clone();
            let v = self.entries[i].1.clone();
            out.push((k, v));
        }
        let r = StringMap { entries: out };
        assert(r.key_seq() =~= self.key_seq());
        r
    }
}

} // verus!
