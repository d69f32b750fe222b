use vstd::prelude::*;

verus! {

/// A keyed store over 64-bit ids whose entries keep their order of insertion.
///
/// The world tick and the session managers walk their stores, and every walk here visits
/// the entries in insertion order, so what a tick produces does not depend on a hasher's
/// seed; a `HashMap` would give the same map view but no order that a contract could
/// speak of.
pub struct IdMap<V> {
    entries: Vec<(u64, V)>,
}

/// The index of the entry for `k` in `s`, if any.
pub open spec fn index_of<V>(s: Seq<(u64, V)>, k: u64) -> int {
    choose|i: int| 0 <= i < s.len() && s[i].0 == k
}

pub open spec fn keys_unique<V>(s: Seq<(u64, V)>) -> bool {
    forall|i: int, j: int| 0 <= i < s.len() && 0 <= j < s.len() && i != j ==> s[i].0 != s[j].0
}

pub open spec fn has_key<V>(s: Seq<(u64, V)>, k: u64) -> bool {
    exists|i: int| 0 <= i < s.len() && s[i].0 == k
}

impl<V> View for IdMap<V> {
    type V = Map<u64, V>;

    closed spec fn view(&self) -> Map<u64, V> {
        Map::new(|k: u64| has_key(self.entries@, k), |k: u64| self.entries@[index_of(self.entries@, k)].1)
    }
}

proof fn lemma_index_of<V>(s: Seq<(u64, V)>, i: int)
    requires
        keys_unique(s),
        0 <= i < s.len(),
    ensures
        index_of(s, s[i].0) == i,
{
    assert(has_key(s, s[i].0));
}

impl<V> IdMap<V> {
    pub closed spec fn wf(&self) -> bool {
        keys_unique(self.entries@)
    }

    pub fn new() -> (r: Self)
        ensures
            r.wf(),
            r@ == Map::<u64, V>::empty(),
    {
        let r = IdMap { entries: Vec::new() };
        assert(r@ =~= Map::<u64, V>::empty());
        r
    }

    fn find(&self, k: u64) -> (r: Option<usize>)
        requires
            self.wf(),
        ensures
            match r {
                Some(i) => i < self.entries@.len() && self.entries@[i as int].0 == k,
                None => !has_key(self.entries@, k),
            },
    {
        let mut i: usize = 0;
        while i < self.entries.len()
            invariant
                i <= self.entries@.len(),
                forall|j: int| 0 <= j < i ==> self.entries@[j].0 != k,
            decreases self.entries@.len() - i,
        {
            if self.entries[i].0 == k {
                return Some(i);
            }
            i = i + 1;
        }
        None
    }

    pub fn contains(&self, k: u64) -> (r: bool)
        requires
            self.wf(),
        ensures
            r == self@.contains_key(k),
    {
        self.find(k).is_some()
    }

    pub fn len(&self) -> (r: usize)
        requires
            self.wf(),
        ensures
            r == self@.len(),
            self@.dom().finite(),
    {
        proof { self.lemma_len(); }
        self.entries.len()
    }

    proof fn lemma_len(&self)
        requires
            self.wf(),
        ensures
            self@.dom().finite(),
            self@.len() == self.entries@.len(),
        decreases self.entries@.len(),
    {
        let s = self.entries@;
        let ks = s.map_values(|e: (u64, V)| e.0);
        assert(self@.dom() =~= ks.to_set()) by {
            assert forall|k: u64| self@.dom().contains(k) implies ks.to_set().contains(k) by {
                let i = choose|i: int| 0 <= i < s.len() && s[i].0 == k;
                assert(ks[i] == k);
            }
            assert forall|k: u64| ks.to_set().contains(k) implies self@.dom().contains(k) by {
                let i = choose|i: int| 0 <= i < ks.len() && ks[i] == k;
                assert(s[i].0 == k);
            }
        }
        assert(ks.no_duplicates());
        ks.unique_seq_to_set();
    }

    pub fn get(&self, k: u64) -> (r: Option<&V>)
        requires
            self.wf(),
        ensures
            match r {
                Some(v) => self@.contains_key(k) && *v == self@[k],
                None => !self@.contains_key(k),
            },
    {
        match self.find(k) {
            Some(i) => {
                proof { lemma_index_of(self.entries@, i as int); }
                Some(&self.entries[i].1)
            },
            None => None,
        }
    }

    /// Inserts or replaces the value for `k`, keeping its position when present.
    pub fn insert(&mut self, k: u64, v: V)
        requires
            old(self).wf(),
        ensures
            final(self).wf(),
            final(self)@ == old(self)@.insert(k, v),
    {
        match self.find(k) {
            Some(i) => {
                let ghost s0 = self.entries@;
                self.entries.set(i, (k, v));
                let ghost s1 = self.entries@;
                assert forall|a: int, b: int| 0 <= a < s1.len() && 0 <= b < s1.len() && a != b implies s1[a].0 != s1[b].0 by {
                    assert(s1[a].0 == s0[a].0 && s1[b].0 == s0[b].0);
                }
                assert forall|q: u64| #[trigger] self@.contains_key(q) == old(self)@.insert(k, v).contains_key(q) by {
                    if q == k {
                        assert(s1[i as int].0 == q);
                    } else if has_key(s1, q) {
                        let j = choose|j: int| 0 <= j < s1.len() && s1[j].0 == q;
                        assert(s0[j].0 == q);
                    } else if has_key(s0, q) {
                        let j = choose|j: int| 0 <= j < s0.len() && s0[j].0 == q;
                        assert(s1[j].0 == q);
                    }
                }
                assert forall|q: u64| #[trigger] self@.contains_key(q) implies self@[q] == old(self)@.insert(k, v)[q] by {
                    let j = choose|j: int| 0 <= j < s1.len() && s1[j].0 == q;
                    lemma_index_of(s1, j);
                    if q != k {
                        assert(s0[j].0 == q);
                        lemma_index_of(s0, j);
                    } else {
                        lemma_index_of(s1, i as int);
                    }
                }
                assert(self@ =~= old(self)@.insert(k, v));
            },
            None => {
                let ghost s0 = self.entries@;
                self.entries.push((k, v));
                let ghost s1 = self.entries@;
                assert forall|q: u64| #[trigger] self@.contains_key(q) == old(self)@.insert(k, v).contains_key(q) by {
                    if q == k {
                        assert(s1[s0.len() as int].0 == k);
                    } else if has_key(s1, q) {
                        let j = choose|j: int| 0 <= j < s1.len() && s1[j].0 == q;
                        assert(s0[j].0 == q);
                    } else if has_key(s0, q) {
                        let j = choose|j: int| 0 <= j < s0.len() && s0[j].0 == q;
                        assert(s1[j].0 == q);
                    }
                }
                assert forall|q: u64| #[trigger] self@.contains_key(q) implies self@[q] == old(self)@.insert(k, v)[q] by {
                    let j = choose|j: int| 0 <= j < s1.len() && s1[j].0 == q;
                    lemma_index_of(s1, j);
                    if q != k {
                        assert(s0[j].0 == q);
                        lemma_index_of(s0, j);
                    }
                }
                assert(self@ =~= old(self)@.insert(k, v));
            },
        }
    }

    /// Removes the entry for `k` and hands back its value.
    pub fn remove(&mut self, k: u64) -> (r: Option<V>)
        requires
            old(self).wf(),
        ensures
            final(self).wf(),
            final(self)@ == old(self)@.remove(k),
            match r {
                Some(v) => old(self)@.contains_key(k) && v == old(self)@[k],
                None => !old(self)@.contains_key(k),
            },
    {
        match self.find(k) {
            Some(i) => {
                let ghost s0 = self.entries@;
                proof { lemma_index_of(s0, i as int); }
                let e = self.entries.remove(i);
                let ghost s1 = self.entries@;
                assert forall|a: int| 0 <= a < s1.len() implies #[trigger] s1[a] == (if a < i { s0[a] } else { s0[a + 1] }) by {}
                assert forall|q: u64| #[trigger] self@.contains_key(q) == old(self)@.remove(k).contains_key(q) by {
                    if has_key(s1, q) {
                        let j = choose|j: int| 0 <= j < s1.len() && s1[j].0 == q;
                        if j < i { assert(s0[j].0 == q); } else { assert(s0[j + 1].0 == q); }
                    } else if has_key(s0, q) && q != k {
                        let j = choose|j: int| 0 <= j < s0.len() && s0[j].0 == q;
                        if j < i { assert(s1[j].0 == q); } else { assert(s1[j - 1].0 == q); }
                    }
                }
                assert forall|q: u64| #[trigger] self@.contains_key(q) implies self@[q] == old(self)@.remove(k)[q] by {
                    let j = choose|j: int| 0 <= j < s1.len() && s1[j].0 == q;
                    lemma_index_of(s1, j);
                    if j < i { lemma_index_of(s0, j); } else { lemma_index_of(s0, j + 1); }
                }
                assert(self@ =~= old(self)@.remove(k));
                Some(e.1)
            },
            None => {
                assert(self@ =~= old(self)@.remove(k));
                None
            },
        }
    }

    /// The keys, each once, in order of insertion.
    pub fn keys(&self) -> (r: Vec<u64>)
        requires
            self.wf(),
        ensures
            r@.no_duplicates(),
            forall|k: u64| r@.contains(k) <==> self@.contains_key(k),
    {
        let mut r: Vec<u64> = Vec::new();
        let mut i: usize = 0;
        while i < self.entries.len()
            invariant
                i <= self.entries@.len(),
                self.wf(),
                r@.len() == i,
                forall|j: int| 0 <= j < i ==> r@[j] == self.entries@[j].0,
            decreases self.entries@.len() - i,
        {
            r.push(self.entries[i].0);
            i = i + 1;
        }
        assert forall|k: u64| r@.contains(k) <==> self@.contains_key(k) by {
            if r@.contains(k) {
                let j = choose|j: int| 0 <= j < r@.len() && r@[j] == k;
                assert(self.entries@[j].0 == k);
            }
            if self@.contains_key(k) {
                let j = choose|j: int| 0 <= j < self.entries@.len() && self.entries@[j].0 == k;
                assert(r@[j] == k);
            }
        }
        r
    }
}

} // verus!
