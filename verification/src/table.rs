//! An association table from feed names to values, the aggregate's mapping
//! type. Lookups are specified through the recursive `tget` function and the
//! well-formedness predicate `twf` (no name occurs twice).

use vstd::prelude::*;

use crate::text::str_eql;

verus! {

/// First value paired with the key `k`, scanning from the front.
pub open spec fn tget<T>(s: Seq<(String, T)>, k: Seq<char>) -> Option<T>
    decreases s.len(),
{
    if s.len() == 0 {
        None
    } else if s[0].0@ == k {
        Some(s[0].1)
    } else {
        tget(s.drop_first(), k)
    }
}

/// No key occurs twice.
pub open spec fn twf<T>(s: Seq<(String, T)>) -> bool {
    forall|i: int, j: int| 0 <= i < j < s.len() ==> s[i].0@ != s[j].0@
}

/// First whole pair whose key is `k`, scanning from the front.
pub open spec fn tgetp<T>(s: Seq<(String, T)>, k: Seq<char>) -> Option<(String, T)>
    decreases s.len(),
{
    if s.len() == 0 {
        None
    } else if s[0].0@ == k {
        Some(s[0])
    } else {
        tgetp(s.drop_first(), k)
    }
}

/// The pair lookup and the value lookup agree.
pub proof fn lemma_tgetp_agrees<T>(s: Seq<(String, T)>, k: Seq<char>)
    ensures
        match tgetp(s, k) {
            Some(p) => p.0@ == k && tget(s, k) == Some(p.1),
            None => tget(s, k) is None,
        },
    decreases s.len(),
{
    if s.len() > 0 && s[0].0@ != k {
        lemma_tgetp_agrees(s.drop_first(), k);
    }
}

/// A pair scan that finds `k` first at position `i` yields `s[i]`.
pub proof fn lemma_tgetp_found<T>(s: Seq<(String, T)>, k: Seq<char>, i: int)
    requires
        0 <= i < s.len(),
        s[i].0@ == k,
        forall|j: int| 0 <= j < i ==> s[j].0@ != k,
    ensures
        tgetp(s, k) == Some(s[i]),
    decreases s.len(),
{
    if i > 0 {
        lemma_tgetp_found(s.drop_first(), k, i - 1);
    }
}

/// Removing the pair at position `i` unbinds exactly its key.
pub proof fn lemma_tget_remove<T>(s: Seq<(String, T)>, i: int, k: Seq<char>)
    requires
        twf(s),
        0 <= i < s.len(),
    ensures
        tget(s.remove(i), k) == if s[i].0@ == k {
            None::<T>
        } else {
            tget(s, k)
        },
    decreases s.len(),
{
    let t = s.remove(i);
    if i == 0 {
        assert(t =~= s.drop_first());
        if s[0].0@ == k {
            assert forall|j: int| 0 <= j < t.len() implies t[j].0@ != k by {
                assert(t[j] == s[j + 1]);
            }
            lemma_tget_absent(t, k);
        }
    } else {
        assert(t[0] == s[0]);
        assert(t.drop_first() =~= s.drop_first().remove(i - 1));
        lemma_tget_remove(s.drop_first(), i - 1, k);
        if s[0].0@ == k {
            assert(s[i].0@ != k);
        }
    }
}

/// Appending a pair binds its key only where the key was absent before.
pub proof fn lemma_tgetp_push<T>(s: Seq<(String, T)>, p: (String, T), k: Seq<char>)
    ensures
        tgetp(s.push(p), k) == if tgetp(s, k) is Some {
            tgetp(s, k)
        } else if p.0@ == k {
            Some(p)
        } else {
            None::<(String, T)>
        },
    decreases s.len(),
{
    let t = s.push(p);
    if s.len() == 0 {
        assert(t[0] == p);
        assert(t.drop_first() =~= Seq::<(String, T)>::empty());
    } else {
        assert(t[0] == s[0]);
        assert(t.drop_first() =~= s.drop_first().push(p));
        lemma_tgetp_push(s.drop_first(), p, k);
    }
}

/// A key that occurs nowhere has no pair.
pub proof fn lemma_tgetp_absent<T>(s: Seq<(String, T)>, k: Seq<char>)
    requires
        forall|j: int| 0 <= j < s.len() ==> s[j].0@ != k,
    ensures
        tgetp(s, k) is None,
    decreases s.len(),
{
    if s.len() > 0 {
        lemma_tgetp_absent(s.drop_first(), k);
    }
}

/// A scan that finds `k` first at position `i` yields `s[i].1`.
pub proof fn lemma_tget_found<T>(s: Seq<(String, T)>, k: Seq<char>, i: int)
    requires
        0 <= i < s.len(),
        s[i].0@ == k,
        forall|j: int| 0 <= j < i ==> s[j].0@ != k,
    ensures
        tget(s, k) == Some(s[i].1),
    decreases s.len(),
{
    if i > 0 {
        lemma_tget_found(s.drop_first(), k, i - 1);
    }
}

/// A key that occurs nowhere is not found.
pub proof fn lemma_tget_absent<T>(s: Seq<(String, T)>, k: Seq<char>)
    requires
        forall|j: int| 0 <= j < s.len() ==> s[j].0@ != k,
    ensures
        tget(s, k) is None,
    decreases s.len(),
{
    if s.len() > 0 {
        lemma_tget_absent(s.drop_first(), k);
    }
}

/// A found key occurs somewhere; an absent key occurs nowhere.
pub proof fn lemma_tget_occurs<T>(s: Seq<(String, T)>, k: Seq<char>)
    ensures
        tget(s, k) is Some <==> exists|i: int| 0 <= i < s.len() && s[i].0@ == k,
        tget(s, k) matches Some(v) ==> exists|i: int|
            0 <= i < s.len() && s[i].0@ == k && s[i].1 == v,
    decreases s.len(),
{
    if s.len() > 0 {
        lemma_tget_occurs(s.drop_first(), k);
        if s[0].0@ != k {
            if exists|i: int| 0 <= i < s.len() && s[i].0@ == k {
                let i = choose|i: int| 0 <= i < s.len() && s[i].0@ == k;
                assert(s.drop_first()[i - 1].0@ == k);
            }
        }
    }
}

/// Replacing the value at position `i` changes exactly the binding of that key.
pub proof fn lemma_tget_update<T>(s: Seq<(String, T)>, i: int, v: T, k: Seq<char>)
    requires
        twf(s),
        0 <= i < s.len(),
    ensures
        tget(s.update(i, (s[i].0, v)), k) == if s[i].0@ == k {
            Some(v)
        } else {
            tget(s, k)
        },
    decreases s.len(),
{
    let t = s.update(i, (s[i].0, v));
    assert(t.len() == s.len());
    if i == 0 {
        if s[0].0@ != k {
            assert(t.drop_first() =~= s.drop_first());
        }
    } else {
        assert(t[0] == s[0]);
        assert(t.drop_first() =~= s.drop_first().update(i - 1, (s.drop_first()[i - 1].0, v)));
        lemma_tget_update(s.drop_first(), i - 1, v, k);
        if s[0].0@ == k {
            assert(s[i].0@ != k);
        }
    }
}

/// Appending a pair binds its key only where the key was absent before.
pub proof fn lemma_tget_push<T>(s: Seq<(String, T)>, p: (String, T), k: Seq<char>)
    ensures
        tget(s.push(p), k) == if tget(s, k) is Some {
            tget(s, k)
        } else if p.0@ == k {
            Some(p.1)
        } else {
            None::<T>
        },
    decreases s.len(),
{
    let t = s.push(p);
    if s.len() == 0 {
        assert(t[0] == p);
        assert(t.drop_first() =~= Seq::<(String, T)>::empty());
    } else {
        assert(t[0] == s[0]);
        assert(t.drop_first() =~= s.drop_first().push(p));
        lemma_tget_push(s.drop_first(), p, k);
    }
}

/// Mapping from feed names to values of type `T`, with each name bound at
/// most once.
pub struct Table<T> {
    pairs: Vec<(String, T)>,
}

impl<T> View for Table<T> {
    type V = Seq<(String, T)>;

    closed spec fn view(&self) -> Seq<(String, T)> {
        self.pairs@
    }
}

impl<T> Table<T> {
    /// No name is bound twice.
    pub open spec fn wf(self) -> bool {
        twf(self@)
    }

    /// Binding of the name `k`, if any.
    pub open spec fn spec_get(self, k: Seq<char>) -> Option<T> {
        tget(self@, k)
    }

    /// The empty table.
    pub fn new() -> (r: Table<T>)
        ensures
            r@ == Seq::<(String, T)>::empty(),
            r.wf(),
    {
        Table { pairs: Vec::new() }
    }

    pub fn len(&self) -> (r: usize)
        ensures
            r == self@.len(),
    {
        self.pairs.len()
    }

    pub fn is_empty(&self) -> (r: bool)
        ensures
            r == (self@.len() == 0),
    {
        self.pairs.is_empty()
    }

    pub fn key_at(&self, i: usize) -> (r: &String)
        requires
            i < self@.len(),
        ensures
            *r == self@[i as int].0,
    {
        &self.pairs[i].0
    }

    pub fn value_at(&self, i: usize) -> (r: &T)
        requires
            i < self@.len(),
        ensures
            *r == self@[i as int].1,
    {
        &self.pairs[i].1
    }

    /// Mutable access to the value at position `i`; the name there stays.
    pub fn value_at_mut(&mut self, i: usize) -> (r: &mut T)
        requires
            i < old(self)@.len(),
        ensures
            *r == old(self)@[i as int].1,
            final(self)@ == old(self)@.update(i as int, (old(self)@[i as int].0, *final(r))),
    {
        &mut self.pairs[i].1
    }

    /// Looks the name up, scanning for its first occurrence.
    #[verifier::loop_isolation(false)]
    pub fn get(&self, k: &str) -> (r: Option<&T>)
        ensures
            match r {
                Some(v) => tget(self@, k@) == Some(*v),
                None => tget(self@, k@) is None,
            },
    {
        let n = self.pairs.len();
        for i in 0..n
            invariant
                n == self@.len(),
                forall|j: int| 0 <= j < i ==> self@[j].0@ != k@,
        {
            if str_eql(self.pairs[i].0.as_str(), k) {
                proof {
                    lemma_tget_found(self@, k@, i as int);
                }
                return Some(&self.pairs[i].1);
            }
        }
        proof {
            lemma_tget_absent(self@, k@);
        }
        None
    }

    pub fn contains_key(&self, k: &str) -> (r: bool)
        ensures
            r == (tget(self@, k@) is Some),
    {
        match self.get(k) {
            Some(_) => true,
            None => false,
        }
    }

    /// Binds `k` to `v`, replacing any previous binding of the same name.
    #[verifier::loop_isolation(false)]
    pub fn insert(&mut self, k: String, v: T)
        requires
            old(self).wf(),
        ensures
            final(self).wf(),
            tget(final(self)@, k@) == Some(v),
            forall|k2: Seq<char>| k2 != k@ ==> tget(final(self)@, k2) == tget(old(self)@, k2),
            final(self)@.len() <= old(self)@.len() + 1,
    {
        let ghost s0 = self@;
        let n = self.pairs.len();
        for i in 0..n
            invariant
                self@ == s0,
                n == s0.len(),
                twf(s0),
                forall|j: int| 0 <= j < i ==> s0[j].0@ != k@,
        {
            if str_eql(self.pairs[i].0.as_str(), k.as_str()) {
                let slot = &mut self.pairs[i].1;
                *slot = v;
                proof {
                    let ghost ki = s0[i as int].0@;
                    assert(self@ =~= s0.update(i as int, (s0[i as int].0, v)));
                    assert forall|k2: Seq<char>| true implies tget(self@, k2) == (if ki == k2 {
                        Some(v)
                    } else {
                        tget(s0, k2)
                    }) by {
                        lemma_tget_update(s0, i as int, v, k2);
                    }
                    assert forall|a: int, b: int| 0 <= a < b < self@.len() implies self@[a].0@
                        != self@[b].0@ by {
                        assert(self@[a].0 == s0[a].0);
                        assert(self@[b].0 == s0[b].0);
                    }
                }
                return ;
            }
        }
        self.pairs.push((k, v));
        proof {
            assert forall|k2: Seq<char>| true implies tget(self@, k2) == (if k@ == k2 {
                Some(v)
            } else {
                tget(s0, k2)
            }) by {
                lemma_tget_push(s0, (k, v), k2);
                if k@ == k2 {
                    lemma_tget_absent(s0, k2);
                }
            }
            assert forall|a: int, b: int| 0 <= a < b < self@.len() implies self@[a].0@
                != self@[b].0@ by {
                if b < s0.len() {
                } else {
                    assert(self@[b].0@ == k@);
                    assert(self@[a].0 == s0[a].0);
                }
            }
        }
    }

    /// Removes the binding of `k`, returning its value if there was one.
    #[verifier::loop_isolation(false)]
    pub fn remove(&mut self, k: &str) -> (r: Option<T>)
        requires
            old(self).wf(),
        ensures
            final(self).wf(),
            r == tget(old(self)@, k@),
            tget(final(self)@, k@) is None,
            forall|k2: Seq<char>| k2 != k@ ==> tget(final(self)@, k2) == tget(old(self)@, k2),
            r is None ==> final(self)@ == old(self)@,
    {
        let ghost s0 = self@;
        let n = self.pairs.len();
        for i in 0..n
            invariant
                self@ == s0,
                n == s0.len(),
                twf(s0),
                forall|j: int| 0 <= j < i ==> s0[j].0@ != k@,
        {
            if str_eql(self.pairs[i].0.as_str(), k) {
                let pair = self.pairs.remove(i);
                proof {
                    lemma_tget_found(s0, k@, i as int);
                    assert forall|k2: Seq<char>| true implies tget(self@, k2) == (if s0[
                        i as int].0@ == k2 {
                        None::<T>
                    } else {
                        tget(s0, k2)
                    }) by {
                        lemma_tget_remove(s0, i as int, k2);
                    }
                    assert forall|a: int, b: int| 0 <= a < b < self@.len() implies self@[a].0@
                        != self@[b].0@ by {
                        let a0 = if a < i { a } else { a + 1 };
                        let b0 = if b < i { b } else { b + 1 };
                        assert(self@[a].0 == s0[a0].0);
                        assert(self@[b].0 == s0[b0].0);
                    }
                }
                return Some(pair.1);
            }
        }
        proof {
            lemma_tget_absent(s0, k@);
        }
        None
    }

    /// Removes and returns the last binding.
    pub fn pop(&mut self) -> (r: Option<(String, T)>)
        ensures
            old(self)@.len() == 0 ==> r is None && final(self)@ == old(self)@,
            old(self)@.len() > 0 ==> r == Some(old(self)@.last()) && final(self)@ == old(
                self,
            )@.drop_last(),
    {
        self.pairs.pop()
    }
}

} // verus!
