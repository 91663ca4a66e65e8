//! Lexically scoped environments: a stack of scopes, each a list of
//! bindings; lookups go from the innermost scope outwards, and within a
//! scope the latest binding of a name wins.
use vstd::prelude::*;
use crate::text::str_eq;
use crate::sema::table::Table;

verus! {

/// The latest binding of `k` in one scope.
pub open spec fn scope_get<V>(s: Seq<(String, V)>, k: Seq<char>) -> Option<V>
    decreases s.len(),
{
    if s.len() == 0 {
        None
    } else if s.last().0@ == k {
        Some(s.last().1)
    } else {
        scope_get(s.drop_last(), k)
    }
}

/// The binding of `k` seen from the innermost scope.
pub open spec fn env_get<V>(frames: Seq<Seq<(String, V)>>, k: Seq<char>) -> Option<V>
    decreases frames.len(),
{
    if frames.len() == 0 {
        None
    } else {
        match scope_get(frames.last(), k) {
            Some(v) => Some(v),
            None => env_get(frames.drop_last(), k),
        }
    }
}

/// A new innermost scope with no bindings hides nothing.
pub proof fn law_empty_scope_transparent<V>(frames: Seq<Seq<(String, V)>>, k: Seq<char>)
    ensures
        env_get(frames.push(Seq::empty()), k) == env_get(frames, k),
{
    assert(frames.push(Seq::empty()).drop_last() =~= frames);
}

/// A binding in the innermost scope shadows the outer ones; a name it does
/// not bind is looked up outside.
pub proof fn law_inner_scope_first<V>(frames: Seq<Seq<(String, V)>>, s: Seq<(String, V)>, k: Seq<char>)
    ensures
        scope_get(s, k) is Some ==> env_get(frames.push(s), k) == scope_get(s, k),
        scope_get(s, k) is None ==> env_get(frames.push(s), k) == env_get(frames, k),
{
    assert(frames.push(s).drop_last() =~= frames);
}

/// Within a scope the latest binding of a name is the one seen.
pub proof fn law_latest_binding_wins<V>(s: Seq<(String, V)>, b: (String, V), k: Seq<char>)
    ensures
        b.0@ == k ==> scope_get(s.push(b), k) == Some(b.1),
        b.0@ != k ==> scope_get(s.push(b), k) == scope_get(s, k),
{
    assert(s.push(b).drop_last() =~= s);
}

/// A name no scope from `i` on binds is looked up in the scopes before `i`.
proof fn lemma_env_get_suffix_none<V>(f: Seq<Seq<(String, V)>>, i: int, k: Seq<char>)
    requires
        0 <= i <= f.len(),
        forall|j: int| i <= j < f.len() ==> scope_get(#[trigger] f[j], k) is None,
    ensures
        env_get(f, k) == env_get(f.take(i), k),
    decreases f.len(),
{
    if i < f.len() {
        let d = f.drop_last();
        assert(scope_get(f[f.len() - 1], k) is None);
        assert forall|j: int| i <= j < d.len() implies scope_get(#[trigger] d[j], k) is None by {
            assert(d[j] == f[j]);
        }
        lemma_env_get_suffix_none(d, i, k);
        assert(d.take(i) =~= f.take(i));
    } else {
        assert(f.take(i) =~= f);
    }
}

/// Replacing scope `k` changes only the names it binds differently.
proof fn lemma_env_get_update<V>(f: Seq<Seq<(String, V)>>, k: int, s: Seq<(String, V)>, q: Seq<char>)
    requires
        0 <= k < f.len(),
        scope_get(s, q) == scope_get(f[k], q),
    ensures
        env_get(f.update(k, s), q) == env_get(f, q),
    decreases f.len(),
{
    let g = f.update(k, s);
    if k == f.len() - 1 {
        assert(g.drop_last() =~= f.drop_last());
    } else {
        assert(g.drop_last() =~= f.drop_last().update(k, s));
        lemma_env_get_update(f.drop_last(), k, s, q);
    }
}

/// Index of the innermost scope that binds `k`; -1 when none does.
pub open spec fn innermost_with<V>(frames: Seq<Seq<(String, V)>>, k: Seq<char>) -> int
    decreases frames.len(),
{
    if frames.len() == 0 {
        -1
    } else if scope_get(frames.last(), k) is Some {
        frames.len() - 1
    } else {
        innermost_with(frames.drop_last(), k)
    }
}

/// The scope at `i` binds `k` and no later scope does, so it is the
/// innermost one that binds `k`.
proof fn lemma_innermost_with<V>(f: Seq<Seq<(String, V)>>, i: int, k: Seq<char>)
    requires
        0 <= i < f.len(),
        scope_get(f[i], k) is Some,
        forall|j: int| i < j < f.len() ==> scope_get(#[trigger] f[j], k) is None,
    ensures
        innermost_with(f, k) == i,
    decreases f.len(),
{
    if i < f.len() - 1 {
        let d = f.drop_last();
        assert(scope_get(f[f.len() - 1], k) is None);
        assert forall|j: int| i < j < d.len() implies scope_get(#[trigger] d[j], k) is None by {
            assert(d[j] == f[j]);
        }
        assert(d[i] == f[i]);
        lemma_innermost_with(d, i, k);
    }
}

/// Whether scope `s` binds `name`.
fn scope_binds<V>(s: &Vec<(String, V)>, name: &str) -> (r: bool)
    ensures
        r == scope_get(s@, name@) is Some,
{
    let mut j = s.len();
    proof {
        assert(s@.take(j as int) =~= s@);
    }
    while j > 0
        invariant
            j <= s@.len(),
            scope_get(s@, name@) == scope_get(s@.take(j as int), name@),
        decreases j,
    {
        if str_eq(s[j - 1].0.as_str(), name) {
            proof {
                assert(s@.take(j as int).last() == s@[j - 1]);
            }
            return true;
        }
        proof {
            assert(s@.take(j as int).drop_last() =~= s@.take(j - 1));
        }
        j -= 1;
    }
    proof {
        assert(s@.take(0) =~= Seq::<(String, V)>::empty());
    }
    false
}

pub struct Env<V> {
    scopes: Vec<Vec<(String, V)>>,
}

impl<V> Env<V> {
    /// The scopes, outermost first.
    pub closed spec fn frames(&self) -> Seq<Seq<(String, V)>> {
        self.scopes@.map_values(|s: Vec<(String, V)>| s@)
    }

    pub open spec fn spec_lookup(&self, k: Seq<char>) -> Option<V> {
        env_get(self.frames(), k)
    }

    /// One empty scope.
    pub fn new() -> (e: Self)
        ensures
            e.frames() == seq![Seq::<(String, V)>::empty()],
    {
        let mut scopes: Vec<Vec<(String, V)>> = Vec::new();
        scopes.push(Vec::new());
        let e = Env { scopes };
        proof {
            assert(e.frames() =~= seq![Seq::<(String, V)>::empty()]);
        }
        e
    }

    /// Opens a new innermost scope.
    pub fn push(&mut self)
        ensures
            final(self).frames() == old(self).frames().push(Seq::empty()),
    {
        self.scopes.push(Vec::new());
        proof {
            assert(self.frames() =~= old(self).frames().push(Seq::empty()));
        }
    }

    /// Closes the innermost scope, if any.
    pub fn pop(&mut self)
        ensures
            old(self).frames().len() > 0 ==> final(self).frames() == old(self).frames().drop_last(),
            old(self).frames().len() == 0 ==> final(self).frames() == old(self).frames(),
    {
        if self.scopes.len() > 0 {
            self.scopes.pop();
            proof {
                assert(self.frames() =~= old(self).frames().drop_last());
            }
        }
    }

    /// Number of open scopes.
    pub fn depth(&self) -> (n: usize)
        ensures
            n == self.frames().len(),
    {
        self.scopes.len()
    }

    /// Binds `name` to `val` in the innermost scope.
    pub fn define(&mut self, name: &str, val: V)
        requires
            old(self).frames().len() > 0,
        ensures
            final(self).frames().len() == old(self).frames().len(),
            final(self).frames().drop_last() == old(self).frames().drop_last(),
            final(self).frames().last().len() == old(self).frames().last().len() + 1,
            final(self).frames().last().drop_last() == old(self).frames().last(),
            final(self).frames().last().last().0@ == name@,
            final(self).frames().last().last().1 == val,
            final(self).spec_lookup(name@) == Some(val),
            forall|q: Seq<char>| q != name@ ==> #[trigger] final(self).spec_lookup(q) == old(self).spec_lookup(q),
    {
        let n = self.scopes.len();
        let mut last = self.scopes.pop().unwrap();
        let key = name.to_owned();
        last.push((key, val));
        self.scopes.push(last);
        proof {
            let f0 = old(self).frames();
            let f1 = self.frames();
            assert(f1 =~= f0.update(f0.len() - 1, f0.last().push((key, val))));
            assert(f1.last() == f0.last().push((key, val)));
            assert(f1.drop_last() =~= f0.drop_last());
            assert(scope_get(f1.last(), name@) == Some(val));
            assert forall|q: Seq<char>| q != name@ implies #[trigger] env_get(f1, q) == env_get(f0, q) by {
                assert(f1.last().drop_last() =~= f0.last());
            }
        }
    }

    /// Gives the nearest binding of `name` the value `val`; false, with nothing
    /// changed, when `name` is bound nowhere.
    pub fn assign(&mut self, name: &str, val: V) -> (r: bool)
        ensures
            r == old(self).spec_lookup(name@) is Some,
            r ==> final(self).spec_lookup(name@) == Some(val),
            forall|q: Seq<char>| q != name@ ==> #[trigger] final(self).spec_lookup(q) == old(self).spec_lookup(q),
            final(self).frames().len() == old(self).frames().len(),
            !r ==> final(self).frames() == old(self).frames(),
            r ==> {
                let j = innermost_with(old(self).frames(), name@);
                &&& 0 <= j < old(self).frames().len()
                &&& forall|i: int|
                    0 <= i < old(self).frames().len() && i != j ==> #[trigger] final(self).frames()[i] == old(
                        self,
                    ).frames()[i]
                &&& final(self).frames()[j].drop_last() == old(self).frames()[j]
                &&& final(self).frames()[j].last().0@ == name@
                &&& final(self).frames()[j].last().1 == val
                &&& scope_get(final(self).frames()[j], name@) == Some(val)
                &&& forall|q: Seq<char>|
                    q != name@ ==> #[trigger] scope_get(final(self).frames()[j], q) == scope_get(
                        old(self).frames()[j],
                        q,
                    )
            },
    {
        let mut i = self.scopes.len();
        proof {
            assert(self.frames().take(i as int) =~= self.frames());
        }
        while i > 0
            invariant
                i <= self.scopes@.len(),
                *self == *old(self),
                self.frames().len() == self.scopes@.len(),
                env_get(self.frames(), name@) == env_get(self.frames().take(i as int), name@),
                forall|j: int| i <= j < self.scopes@.len() ==> scope_get(#[trigger] self.frames()[j], name@) is None,
            decreases i,
        {
            let found = scope_binds(&self.scopes[i - 1], name);
            proof {
                assert(self.frames()[i - 1] == self.scopes@[i - 1]@);
            }
            if found {
                let ghost f0 = self.frames();
                let mut scope = self.scopes.remove(i - 1);
                let key = name.to_owned();
                let ghost entry = (key, val);
                scope.push((key, val));
                self.scopes.insert(i - 1, scope);
                proof {
                    let k = i - 1;
                    let f1 = self.frames();
                    assert(f1 =~= f0.update(k, f0[k].push(entry)));
                    law_latest_binding_wins(f0[k], entry, name@);
                    assert forall|q: Seq<char>| q != name@ implies #[trigger] scope_get(f1[k], q) == scope_get(f0[k], q) by {
                        law_latest_binding_wins(f0[k], entry, q);
                    }
                    assert(f1[k].drop_last() =~= f0[k]);
                    lemma_innermost_with(f0, k as int, name@);
                    assert(f0.take(i as int).last() == f0[k]);
                    assert(f0.take(i as int).drop_last() =~= f0.take(k));
                    assert(f1.take(i as int).drop_last() =~= f0.take(k));
                    assert(f1.take(i as int).last() == f1[k]);
                    lemma_env_get_suffix_none(f1, i as int, name@);
                    assert forall|q: Seq<char>| q != name@ implies #[trigger] env_get(f1, q) == env_get(f0, q) by {
                        law_latest_binding_wins(f0[k], entry, q);
                        lemma_env_get_update(f0, k, f0[k].push(entry), q);
                    }
                }
                return true;
            }
            proof {
                let f = self.frames();
                assert(f.take(i as int).last() == f[i - 1]);
                assert(f.take(i as int).drop_last() =~= f.take(i - 1));
                assert(scope_get(f[i - 1], name@) is None);
            }
            i -= 1;
        }
        proof {
            assert(self.frames().take(0) =~= Seq::<Seq<(String, V)>>::empty());
        }
        false
    }

    /// Every visible binding, as one table: a name has the value its nearest
    /// binding gives (a clone of it).
    pub fn snapshot(&self) -> (t: Table<V>)
        where
            V: Clone,
        ensures
            forall|k: Seq<char>| #[trigger] t.has(k) == (self.spec_lookup(k) is Some),
            forall|k: Seq<char>|
                self.spec_lookup(k) is Some ==> cloned(self.spec_lookup(k)->Some_0, #[trigger] t.spec_get(k)->Some_0),
    {
        let mut t: Table<V> = Table::new();
        let mut i: usize = 0;
        proof {
            assert(self.frames().take(0) =~= Seq::<Seq<(String, V)>>::empty());
        }
        while i < self.scopes.len()
            invariant
                i <= self.scopes@.len(),
                self.frames().len() == self.scopes@.len(),
                forall|k: Seq<char>| #[trigger] t.has(k) == (env_get(self.frames().take(i as int), k) is Some),
                forall|k: Seq<char>|
                    t.has(k) ==> cloned(env_get(self.frames().take(i as int), k)->Some_0, #[trigger] t.spec_get(k)->Some_0),
            decreases self.scopes.len() - i,
        {
            let scope = &self.scopes[i];
            let ghost fi = self.frames().take(i as int);
            proof {
                assert(self.frames()[i as int] == scope@);
                assert(fi.push(scope@.take(0)).drop_last() =~= fi);
                assert(scope@.take(0) =~= Seq::<(String, V)>::empty());
            }
            let mut j: usize = 0;
            while j < scope.len()
                invariant
                    j <= scope@.len(),
                    forall|k: Seq<char>| #[trigger] t.has(k) == (env_get(fi.push(scope@.take(j as int)), k) is Some),
                    forall|k: Seq<char>|
                        t.has(k) ==> cloned(env_get(fi.push(scope@.take(j as int)), k)->Some_0, #[trigger] t.spec_get(k)->Some_0),
                decreases scope.len() - j,
            {
                let v = scope[j].1.clone();
                let ghost tb = t;
                t.insert(scope[j].0.clone(), v);
                proof {
                    let key = scope@[j as int].0@;
                    assert(scope@.take(j + 1) =~= scope@.take(j as int).push(scope@[j as int]));
                    assert forall|k: Seq<char>| #[trigger] t.has(k) == (env_get(fi.push(scope@.take(j + 1)), k) is Some) by {
                        law_latest_binding_wins(scope@.take(j as int), scope@[j as int], k);
                        assert(fi.push(scope@.take(j + 1)).drop_last() =~= fi);
                        assert(fi.push(scope@.take(j as int)).drop_last() =~= fi);
                    }
                    assert forall|k: Seq<char>|
                        t.has(k) implies cloned(env_get(fi.push(scope@.take(j + 1)), k)->Some_0, #[trigger] t.spec_get(k)->Some_0) by {
                        law_latest_binding_wins(scope@.take(j as int), scope@[j as int], k);
                        assert(fi.push(scope@.take(j + 1)).drop_last() =~= fi);
                        assert(fi.push(scope@.take(j as int)).drop_last() =~= fi);
                        if k != key {
                            assert(tb.has(k));
                        }
                    }
                }
                j += 1;
            }
            proof {
                assert(scope@.take(j as int) =~= scope@);
                assert(fi.push(scope@) =~= self.frames().take(i + 1));
            }
            i += 1;
        }
        proof {
            assert(self.frames().take(i as int) =~= self.frames());
            assert forall|k: Seq<char>| self.spec_lookup(k) is Some implies cloned(
                self.spec_lookup(k)->Some_0,
                #[trigger] t.spec_get(k)->Some_0,
            ) by {
                assert(t.has(k));
            }
        }
        t
    }

    /// The binding of `name`, from the innermost scope outwards.
    pub fn lookup(&self, name: &str) -> (r: Option<&V>)
        ensures
            match r {
                Some(v) => self.spec_lookup(name@) == Some(*v),
                None => self.spec_lookup(name@) is None,
            },
    {
        let mut i = self.scopes.len();
        proof {
            assert(self.frames().take(i as int) =~= self.frames());
        }
        while i > 0
            invariant
                i <= self.scopes@.len(),
                self.frames().len() == self.scopes@.len(),
                env_get(self.frames(), name@) == env_get(self.frames().take(i as int), name@),
            decreases i,
        {
            let scope = &self.scopes[i - 1];
            let mut j = scope.len();
            proof {
                assert(scope@.take(j as int) =~= scope@);
                assert(self.frames()[i - 1] == scope@);
            }
            while j > 0
                invariant
                    0 < i <= self.scopes@.len(),
                    self.frames().len() == self.scopes@.len(),
                    self.frames()[i - 1] == scope@,
                    env_get(self.frames(), name@) == env_get(self.frames().take(i as int), name@),
                    j <= scope@.len(),
                    scope_get(scope@, name@) == scope_get(scope@.take(j as int), name@),
                decreases j,
            {
                if str_eq(scope[j - 1].0.as_str(), name) {
                    proof {
                        assert(scope@.take(j as int).last() == scope@[j - 1]);
                        let fi = self.frames().take(i as int);
                        assert(fi.last() == scope@);
                    }
                    return Some(&scope[j - 1].1);
                }
                proof {
                    assert(scope@.take(j as int).drop_last() =~= scope@.take(j - 1));
                }
                j -= 1;
            }
            proof {
                assert(scope@.take(0) =~= Seq::<(String, V)>::empty());
                let fi = self.frames().take(i as int);
                assert(fi.last() == scope@);
                assert(fi.drop_last() =~= self.frames().take(i - 1));
            }
            i -= 1;
        }
        proof {
            assert(self.frames().take(0) =~= Seq::<Seq<(String, V)>>::empty());
        }
        None
    }
}

} // verus!
