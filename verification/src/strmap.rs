//! A small string-keyed map, kept as an association list with distinct keys.
//! It backs the metadata tables; contracts are stated over the mathematical
//! `Map` view, so callers never see the list.

use vstd::prelude::*;

verus! {

/// A map from strings to values of type `V`, with each key present at most
/// once.
#[derive(Debug)]
pub struct StrMap<V> {
    entries: Vec<(String, V)>,
}

impl<V> StrMap<V> {
    /// Well-formed: no key appears twice.
    pub closed spec fn wf(&self) -> bool {
        forall|i: int, j: int|
            0 <= i < j < self.entries@.len() ==> self.entries@[i].0@ != self.entries@[j].0@
    }

    spec fn has_key(&self, k: Seq<char>) -> bool {
        exists|i: int| 0 <= i < self.entries@.len() && self.entries@[i].0@ == k
    }

    spec fn key_index(&self, k: Seq<char>) -> int {
        choose|i: int| 0 <= i < self.entries@.len() && self.entries@[i].0@ == k
    }

    /// The contents as a mathematical map.
    pub closed spec fn view(&self) -> Map<Seq<char>, V> {
        Map::new(|k: Seq<char>| self.has_key(k), |k: Seq<char>| self.entries@[self.key_index(k)].1)
    }

    /// The number of entries.
    pub closed spec fn spec_len(&self) -> nat {
        self.entries@.len()
    }

    pub fn new() -> (m: StrMap<V>)
        ensures
            m.wf(),
            m@ == Map::<Seq<char>, V>::empty(),
            m.spec_len() == 0,
    {
        let m = StrMap { entries: Vec::new() };
        proof {
            assert(m@ =~= Map::<Seq<char>, V>::empty());
        }
        m
    }

    /// Index of the entry for `k`, if one exists.
    fn find_key(&self, k: &String) -> (r: Option<usize>)
        requires
            self.wf(),
        ensures
            r is Some <==> self.has_key(k@),
            r matches Some(i) ==> i < self.entries@.len() && self.entries@[i as int].0@ == k@
                && self.key_index(k@) == i as int,
    {
        let n = self.entries.len();
        let mut i: usize = 0;
        while i < n
            invariant
                n == self.entries@.len(),
                i <= n,
                self.wf(),
                forall|j: int| 0 <= j < i ==> self.entries@[j].0@ != k@,
            decreases n - i,
        {
            if self.entries[i].0 == *k {
                proof {
                    let w = self.key_index(k@);
                    assert(0 <= w < self.entries@.len() && self.entries@[w].0@ == k@);
                    assert(w == i as int);
                }
                return Some(i);
            }
            i += 1;
        }
        None
    }

    /// True when `k` has an entry.
    pub fn contains_key(&self, k: &String) -> (r: bool)
        requires
            self.wf(),
        ensures
            r == self@.dom().contains(k@),
    {
        self.find_key(k).is_some()
    }

    /// The value stored under `k`, if any.
    pub fn get(&self, k: &String) -> (r: Option<&V>)
        requires
            self.wf(),
        ensures
            self@.dom().contains(k@) ==> (r matches Some(v) && *v == self@[k@]),
            !self@.dom().contains(k@) ==> r is None,
    {
        match self.find_key(k) {
            Some(i) => Some(&self.entries[i].1),
            None => None,
        }
    }

    /// Stores `v` under `k`, replacing any earlier value.
    pub fn insert(&mut self, k: &String, v: V)
        requires
            old(self).wf(),
        ensures
            final(self).wf(),
            final(self)@ == old(self)@.insert(k@, v),
    {
        let ghost old_self = *self;
        let ghost vg = v;
        match self.find_key(k) {
            Some(i) => {
                let (key, _) = self.entries.remove(i);
                self.entries.insert(i, (key, v));
                proof {
                    assert(self.entries@ =~= old_self.entries@.update(
                        i as int,
                        (old_self.entries@[i as int].0, vg),
                    ));
                    assert(self.wf());
                    self.lemma_put_view(old_self, i as int, k@, vg);
                }
            }
            None => {
                self.entries.push((k.clone(), v));
                proof {
                    let n = self.entries@.len() - 1;
                    assert(forall|j: int| 0 <= j < n ==> self.entries@[j]
                        == old_self.entries@[j]);
                    assert(self.wf());
                    self.lemma_put_view(old_self, n, k@, vg);
                }
            }
        }
    }

    /// Common view argument for `insert`: after placing `(k, v)` at index
    /// `i` of an otherwise unchanged entry list, the view is the old view
    /// with `k` mapped to `v`.
    proof fn lemma_put_view(&self, old_self: StrMap<V>, i: int, k: Seq<char>, v: V)
        requires
            self.wf(),
            old_self.wf(),
            0 <= i < self.entries@.len(),
            self.entries@[i].0@ == k,
            self.entries@[i].1 == v,
            forall|j: int|
                0 <= j < self.entries@.len() && j != i ==> #[trigger] self.entries@[j]
                    == old_self.entries@[j],
            self.entries@.len() == old_self.entries@.len() || (self.entries@.len()
                == old_self.entries@.len() + 1 && i == old_self.entries@.len()),
            self.entries@.len() == old_self.entries@.len() ==> old_self.entries@[i].0@ == k,
        ensures
            self@ == old_self@.insert(k, v),
    {
        let es = self.entries@;
        let n0 = old_self.entries@.len() as int;
        assert forall|x: Seq<char>| self.has_key(x) implies old_self.has_key(x) || x == k by {
            let w = choose|w: int| 0 <= w < es.len() && es[w].0@ == x;
            if w != i {
                assert(old_self.entries@[w].0@ == x);
            }
        }
        assert forall|x: Seq<char>| old_self.has_key(x) && x != k implies self.has_key(x) by {
            let w = choose|w: int| 0 <= w < n0 && old_self.entries@[w].0@ == x;
            assert(w != i);
            assert(es[w].0@ == x);
        }
        assert forall|x: Seq<char>| self.has_key(x) implies es[self.key_index(x)].1 == (if x == k {
            v
        } else {
            old_self@[x]
        }) by {
            let w = self.key_index(x);
            assert(0 <= w < es.len() && es[w].0@ == x);
            if x == k {
                assert(w == i);
            } else {
                assert(w != i);
                let w0 = old_self.key_index(x);
                assert(0 <= w0 < n0 && old_self.entries@[w0].0@ == x);
                assert(w0 != i);
                assert(w == w0);
            }
        }
        assert(self@ =~= old_self@.insert(k, v));
    }

    /// Removes and returns the value stored under `k`, if any.
    pub fn remove(&mut self, k: &String) -> (r: Option<V>)
        requires
            old(self).wf(),
        ensures
            final(self).wf(),
            old(self)@.dom().contains(k@) ==> r == Some(old(self)@[k@]) && final(self)@
                == old(self)@.remove(k@),
            !old(self)@.dom().contains(k@) ==> r is None && final(self)@ == old(self)@,
    {
        let ghost old_self = *self;
        match self.find_key(k) {
            None => None,
            Some(i) => {
                let (_, v) = self.entries.remove(i);
                proof {
                    let es = self.entries@;
                    assert(forall|j: int| 0 <= j < i ==> es[j] == old_self.entries@[j]);
                    assert(forall|j: int| i <= j < es.len() ==> es[j]
                        == old_self.entries@[j + 1]);
                    assert(self.wf());
                    assert forall|x: Seq<char>| self.has_key(x) implies old_self.has_key(x) && x
                        != k@ by {
                        let w = choose|w: int| 0 <= w < es.len() && es[w].0@ == x;
                        if w < i {
                            assert(old_self.entries@[w].0@ == x);
                        } else {
                            assert(old_self.entries@[w + 1].0@ == x);
                        }
                    }
                    assert forall|x: Seq<char>| old_self.has_key(x) && x != k@ implies
                        self.has_key(x) by {
                        let w = choose|w: int|
                            0 <= w < old_self.entries@.len() && old_self.entries@[w].0@ == x;
                        assert(w != i as int);
                        if w < i {
                            assert(es[w].0@ == x);
                        } else {
                            assert(es[w - 1].0@ == x);
                        }
                    }
                    assert forall|x: Seq<char>| self.has_key(x) implies es[self.key_index(x)].1
                        == old_self@[x] by {
                        let w = self.key_index(x);
                        assert(0 <= w < es.len() && es[w].0@ == x);
                        let w0 = old_self.key_index(x);
                        assert(0 <= w0 < old_self.entries@.len() && old_self.entries@[w0].0@
                            == x);
                        if w < i {
                            assert(w0 == w);
                        } else {
                            assert(w0 == w + 1);
                        }
                    }
                    assert(self@ =~= old_self@.remove(k@));
                }
                Some(v)
            }
        }
    }
}

impl<V: Clone> StrMap<V> {
    /// The keys, each exactly once, in insertion order.
    pub fn keys(&self) -> (r: Vec<String>)
        requires
            self.wf(),
        ensures
            forall|i: int, j: int| 0 <= i < j < r@.len() ==> r@[i]@ != r@[j]@,
            forall|i: int| 0 <= i < r@.len() ==> self@.dom().contains(#[trigger] r@[i]@),
            forall|k: Seq<char>|
                self@.dom().contains(k) ==> exists|i: int| 0 <= i < r@.len() && #[trigger] r@[i]@
                    == k,
    {
        let n = self.entries.len();
        let mut r: Vec<String> = Vec::new();
        let mut i: usize = 0;
        while i < n
            invariant
                n == self.entries@.len(),
                i <= n,
                self.wf(),
                r@.len() == i,
                forall|j: int| 0 <= j < i ==> r@[j]@ == self.entries@[j].0@,
            decreases n - i,
        {
            r.push(self.entries[i].0.clone());
            i += 1;
        }
        proof {
            assert forall|k: Seq<char>| self.has_key(k) implies exists|j: int|
                0 <= j < r@.len() && #[trigger] r@[j]@ == k by {
                let w = choose|w: int| 0 <= w < self.entries@.len() && self.entries@[w].0@ == k;
                assert(r@[w]@ == k);
            }
        }
        r
    }
}

impl StrMap<String> {
    /// Copies every entry of `other` into `self`; on a shared key, `other`'s
    /// value wins, as extending one environment table with another does.
    pub fn extend_from(&mut self, other: &StrMap<String>)
        requires
            old(self).wf(),
            other.wf(),
        ensures
            final(self).wf(),
            final(self)@ == old(self)@.union_prefer_right(other@),
    {
        let ghost old_self = *self;
        let n = other.entries.len();
        let mut i: usize = 0;
        while i < n
            invariant
                n == other.entries@.len(),
                i <= n,
                self.wf(),
                other.wf(),
                self@ == old_self@.union_prefer_right(other.prefix_view(i as int)),
            decreases n - i,
        {
            let (k, v) = (&other.entries[i].0, &other.entries[i].1);
            self.insert(k, v.clone());
            proof {
                other.lemma_prefix_view_step(i as int);
                assert(self@ =~= old_self@.union_prefer_right(
                    other.prefix_view(i + 1 as int),
                ));
            }
            i += 1;
        }
        proof {
            other.lemma_prefix_view_full();
            assert(self@ =~= old_self@.union_prefer_right(other@));
        }
    }
}

impl<V> StrMap<V> {
    /// The map holding only the first `p` entries.
    spec fn prefix_view(&self, p: int) -> Map<Seq<char>, V> {
        Map::new(
            |k: Seq<char>| exists|i: int| 0 <= i < p && i < self.entries@.len()
                && self.entries@[i].0@ == k,
            |k: Seq<char>| self.entries@[self.key_index(k)].1,
        )
    }

    /// Taking one more entry into the prefix inserts exactly that entry.
    proof fn lemma_prefix_view_step(&self, p: int)
        requires
            self.wf(),
            0 <= p < self.entries@.len(),
        ensures
            self.prefix_view(p + 1) == self.prefix_view(p).insert(
                self.entries@[p].0@,
                self.entries@[p].1,
            ),
    {
        assert forall|k: Seq<char>| self.prefix_view(p + 1).dom().contains(k) implies
            self.prefix_view(p).dom().contains(k) || k == self.entries@[p].0@ by {
            let i = choose|i: int|
                0 <= i < p + 1 && i < self.entries@.len() && self.entries@[i].0@ == k;
            if i < p {
                assert(self.prefix_view(p).dom().contains(k));
            }
        }
        assert forall|k: Seq<char>| self.prefix_view(p + 1).dom().contains(k) implies
            self.prefix_view(p + 1)[k] == self.prefix_view(p).insert(
            self.entries@[p].0@,
            self.entries@[p].1,
        )[k] by {
            let w = self.key_index(k);
            let i = choose|i: int|
                0 <= i < p + 1 && i < self.entries@.len() && self.entries@[i].0@ == k;
            assert(0 <= w < self.entries@.len() && self.entries@[w].0@ == k);
            assert(w == i);
        }
        assert(self.prefix_view(p + 1) =~= self.prefix_view(p).insert(
            self.entries@[p].0@,
            self.entries@[p].1,
        ));
    }

    /// The prefix covering every entry is the whole map.
    proof fn lemma_prefix_view_full(&self)
        requires
            self.wf(),
        ensures
            self.prefix_view(self.entries@.len() as int) == self@,
    {
        assert(self.prefix_view(self.entries@.len() as int) =~= self@);
    }
}

} // verus!
