//! A table keyed by name: at most one entry per name, in insertion order.
use vstd::prelude::*;
use crate::text::str_eq;

verus! {

#[derive(Debug)]
pub struct Table<V> {
    entries: Vec<(String, V)>,
}

/// Index of the entry whose key is `k`, if any.
pub open spec fn index_of<V>(es: Seq<(String, V)>, k: Seq<char>) -> Option<int> {
    if exists|i: int| 0 <= i < es.len() && (#[trigger] es[i]).0@ == k {
        Some(choose|i: int| 0 <= i < es.len() && (#[trigger] es[i]).0@ == k)
    } else {
        None
    }
}

/// Some entry of `es` has key `k`.
pub open spec fn has_of<V>(es: Seq<(String, V)>, k: Seq<char>) -> bool {
    exists|i: int| 0 <= i < es.len() && (#[trigger] es[i]).0@ == k
}

/// The value of the entry of `es` whose key is `k`.
pub open spec fn spec_get_of<V>(es: Seq<(String, V)>, k: Seq<char>) -> Option<V> {
    match index_of(es, k) {
        Some(i) => Some(es[i].1),
        None => None,
    }
}

/// The keys of `es`, in order.
pub open spec fn keys_of<V>(es: Seq<(String, V)>) -> Seq<Seq<char>> {
    es.map_values(|e: (String, V)| e.0@)
}

/// Distinct names that are all keys of `es` are no more than its entries.
pub proof fn lemma_distinct_keys_bounded<V>(es: Seq<(String, V)>, names: Seq<Seq<char>>)
    requires
        names.no_duplicates(),
        forall|i: int| 0 <= i < names.len() ==> #[trigger] has_of(es, names[i]),
    ensures
        names.len() <= es.len(),
{
    let ks = keys_of(es);
    names.unique_seq_to_set();
    ks.lemma_cardinality_of_set();
    assert forall|x: Seq<char>| names.to_set().contains(x) implies ks.to_set().contains(x) by {
        let i = choose|i: int| 0 <= i < names.len() && names[i] == x;
        assert(has_of(es, names[i]));
        let j = choose|j: int| 0 <= j < es.len() && (#[trigger] es[j]).0@ == x;
        assert(ks[j] == x);
    }
    vstd::set_lib::lemma_len_subset(names.to_set(), ks.to_set());
}

impl<V> Table<V> {
    pub closed spec fn entries(&self) -> Seq<(String, V)> {
        self.entries@
    }

    #[verifier::type_invariant]
    spec fn inv(&self) -> bool {
        forall|i: int, j: int|
            0 <= i < j < self.entries@.len() ==> (#[trigger] self.entries@[i]).0@ != (#[trigger] self.entries@[j]).0@
    }

    /// No two entries share a key.
    pub open spec fn keys_unique(&self) -> bool {
        forall|i: int, j: int|
            0 <= i < j < self.entries().len() ==> (#[trigger] self.entries()[i]).0@ != (#[trigger] self.entries()[j]).0@
    }

    pub open spec fn has(&self, k: Seq<char>) -> bool {
        has_of(self.entries(), k)
    }

    /// The value under key `k`.
    pub open spec fn spec_get(&self, k: Seq<char>) -> Option<V> {
        spec_get_of(self.entries(), k)
    }

    pub fn new() -> (t: Self)
        ensures
            t.entries().len() == 0,
            t.keys_unique(),
    {
        Table { entries: Vec::new() }
    }

    pub fn len(&self) -> (n: usize)
        ensures
            n == self.entries().len(),
    {
        self.entries.len()
    }

    /// Position of key `k`.
    pub fn find(&self, k: &str) -> (r: Option<usize>)
        ensures
            match r {
                Some(i) => i < self.entries().len() && self.entries()[i as int].0@ == k@ && index_of(
                    self.entries(),
                    k@,
                ) == Some(i as int),
                None => !self.has(k@) && index_of(self.entries(), k@) is None,
            },
    {
        proof {
            use_type_invariant(self);
        }
        let mut i: usize = 0;
        while i < self.entries.len()
            invariant
                self.keys_unique(),
                i <= self.entries@.len(),
                forall|j: int| 0 <= j < i ==> (#[trigger] self.entries@[j]).0@ != k@,
            decreases self.entries.len() - i,
        {
            if str_eq(self.entries[i].0.as_str(), k) {
                proof {
                    let c = choose|j: int| 0 <= j < self.entries@.len() && (#[trigger] self.entries@[j]).0@ == k@;
                    assert(c == i);
                }
                return Some(i);
            }
            i += 1;
        }
        None
    }

    pub fn contains_key(&self, k: &str) -> (r: bool)
        ensures
            r == self.has(k@),
            r == (self.spec_get(k@) is Some),
    {
        match self.find(k) {
            Some(_) => true,
            None => false,
        }
    }

    pub fn get(&self, k: &str) -> (r: Option<&V>)
        ensures
            match r {
                Some(v) => self.spec_get(k@) == Some(*v),
                None => self.spec_get(k@) is None,
            },
    {
        match self.find(k) {
            Some(i) => Some(&self.entries[i].1),
            None => None,
        }
    }

    /// The key and value at position `i`.
    pub fn entry(&self, i: usize) -> (r: (&String, &V))
        requires
            i < self.entries().len(),
        ensures
            *r.0 == self.entries()[i as int].0,
            *r.1 == self.entries()[i as int].1,
            self.has(r.0@),
            self.spec_get(r.0@) == Some(*r.1),
    {
        proof {
            use_type_invariant(self);
            let c = choose|j: int| 0 <= j < self.entries@.len() && (#[trigger] self.entries@[j]).0@ == self.entries@[i as int].0@;
            assert(c == i);
        }
        (&self.entries[i].0, &self.entries[i].1)
    }

    /// Puts `v` in place of the value under `k`, if there is one, and hands that back.
    pub fn replace(&mut self, k: &str, v: V) -> (r: Option<V>)
        ensures
            r == old(self).spec_get(k@),
            forall|q: Seq<char>| #[trigger] final(self).has(q) == old(self).has(q),
            old(self).has(k@) ==> final(self).spec_get(k@) == Some(v),
            forall|q: Seq<char>| q != k@ ==> #[trigger] final(self).spec_get(q) == old(self).spec_get(q),
            final(self).entries().len() == old(self).entries().len(),
            keys_of(final(self).entries()) == keys_of(old(self).entries()),
    {
        proof {
            use_type_invariant(&*self);
        }
        match self.find(k) {
            None => {
                proof {
                    assert(keys_of(self.entries()) =~= keys_of(old(self).entries()));
                }
                None
            },
            Some(i) => {
                let mut es: Vec<(String, V)> = Vec::new();
                std::mem::swap(&mut es, &mut self.entries);
                let ghost before = es@;
                let (key, old_v) = es.remove(i);
                es.insert(i, (key, v));
                proof {
                    assert(es@ =~= before.update(i as int, (key, v)));
                    assert forall|a: int, b: int| 0 <= a < b < es@.len() implies (#[trigger] es@[a]).0@
                        != (#[trigger] es@[b]).0@ by {
                        assert(es@[a].0 == before[a].0);
                        assert(es@[b].0 == before[b].0);
                    }
                    assert(keys_of(es@) =~= keys_of(before));
                    assert forall|q: Seq<char>| #[trigger] has_of(es@, q) == has_of(before, q) by {
                        if has_of(es@, q) {
                            let j = choose|j: int| 0 <= j < es@.len() && (#[trigger] es@[j]).0@ == q;
                            assert(before[j].0@ == q);
                        }
                        if has_of(before, q) {
                            let j = choose|j: int| 0 <= j < before.len() && (#[trigger] before[j]).0@ == q;
                            assert(es@[j].0@ == q);
                        }
                    }
                    assert forall|q: Seq<char>| q != k@ implies #[trigger] spec_get_of(es@, q) == spec_get_of(before, q) by {
                        if has_of(before, q) {
                            let a = index_of(es@, q)->Some_0;
                            let b = index_of(before, q)->Some_0;
                            assert(es@[b].0@ == q);
                            assert(before[a].0@ == q);
                            assert(a == b);
                            assert(a != i);
                        }
                    }
                    let c = index_of(es@, k@)->Some_0;
                    assert(es@[i as int].0@ == k@);
                    assert(c == i);
                }
                self.entries = es;
                Some(old_v)
            },
        }
    }

    /// Sets the value under `k`, replacing any earlier one in place.
    pub fn insert(&mut self, k: String, v: V)
        ensures
            final(self).keys_unique(),
            final(self).spec_get(k@) == Some(v),
            forall|q: Seq<char>| q != k@ ==> final(self).spec_get(q) == old(self).spec_get(q),
            forall|q: Seq<char>| #[trigger] final(self).has(q) == (old(self).has(q) || q == k@),
            old(self).has(k@) ==> final(self).entries().len() == old(self).entries().len(),
            !old(self).has(k@) ==> final(self).entries() == old(self).entries().push((k, v)),
    {
        proof {
            use_type_invariant(&*self);
        }
        let found = self.find(k.as_str());
        let mut es: Vec<(String, V)> = Vec::new();
        std::mem::swap(&mut es, &mut self.entries);
        let ghost before = es@;
        let ghost kv = k@;
        match found {
            Some(i) => {
                es.set(i, (k, v));
                proof {
                    assert forall|a: int, b: int| 0 <= a < b < es@.len() implies (#[trigger] es@[a]).0@
                        != (#[trigger] es@[b]).0@ by {
                        if a != i && b != i {
                            assert(es@[a] == before[a]);
                            assert(es@[b] == before[b]);
                        } else if a == i {
                            assert(es@[b] == before[b]);
                        } else {
                            assert(es@[a] == before[a]);
                        }
                    }
                    
                    assert(es@[i as int].0@ == kv);
                    let c = index_of(es@, kv)->Some_0;
                    assert(c == i);
                    assert forall|q: Seq<char>| q != k@ implies spec_get_of(es@, q) == old(self).spec_get(q) by {
                        if old(self).has(q) {
                            let j = choose|j: int| 0 <= j < before.len() && (#[trigger] before[j]).0@ == q;
                            assert(es@[j].0@ == q);
                            assert(index_of(es@, q) is Some);
                            let a = index_of(es@, q)->Some_0;
                            let b = index_of(before, q)->Some_0;
                            assert(a == b);
                        } else {
                            assert(!has_of(es@, q)) by {
                                if has_of(es@, q) {
                                    let j = choose|j: int| 0 <= j < es@.len() && (#[trigger] es@[j]).0@ == q;
                                    assert(before[j].0@ == q);
                                }
                            }
                        }
                    }
                    assert forall|q: Seq<char>| #[trigger] has_of(es@, q) == (old(self).has(q) || q == k@) by {
                        if has_of(es@, q) {
                            let j = choose|j: int| 0 <= j < es@.len() && (#[trigger] es@[j]).0@ == q;
                            if j != i {
                                assert(before[j].0@ == q);
                            }
                        }
                        if old(self).has(q) {
                            let j = choose|j: int| 0 <= j < before.len() && (#[trigger] before[j]).0@ == q;
                            assert(es@[j].0@ == q);
                        }
                    }
                }
            },
            None => {
                es.push((k, v));
                proof {
                    let n = before.len() as int;
                    assert(es@[n].0@ == kv);
                    assert forall|a: int, b: int| 0 <= a < b < es@.len() implies (#[trigger] es@[a]).0@
                        != (#[trigger] es@[b]).0@ by {
                        assert(es@[a] == before[a]);
                        if b < n {
                            assert(es@[b] == before[b]);
                        }
                    }
                    
                    let c = index_of(es@, kv)->Some_0;
                    assert(c == n);
                    assert forall|q: Seq<char>| q != k@ implies spec_get_of(es@, q) == old(self).spec_get(q) by {
                        if old(self).has(q) {
                            let j = choose|j: int| 0 <= j < before.len() && (#[trigger] before[j]).0@ == q;
                            assert(es@[j].0@ == q);
                            let a = index_of(es@, q)->Some_0;
                            let b = index_of(before, q)->Some_0;
                            assert(a < n);
                        } else {
                            assert(!has_of(es@, q)) by {
                                if has_of(es@, q) {
                                    let j = choose|j: int| 0 <= j < es@.len() && (#[trigger] es@[j]).0@ == q;
                                    assert(before[j].0@ == q);
                                }
                            }
                        }
                    }
                    assert forall|q: Seq<char>| #[trigger] has_of(es@, q) == (old(self).has(q) || q == k@) by {
                        if has_of(es@, q) {
                            let j = choose|j: int| 0 <= j < es@.len() && (#[trigger] es@[j]).0@ == q;
                            if j != n {
                                assert(before[j].0@ == q);
                            }
                        }
                        if old(self).has(q) {
                            let j = choose|j: int| 0 <= j < before.len() && (#[trigger] before[j]).0@ == q;
                            assert(es@[j].0@ == q);
                        }
                    }
                }
            },
        }
        self.entries = es;
    }
}

} // verus!
