//! Path-keyed asset tables. Every asset of the renderer (bitmap, shader,
//! sky, level) lives in one of these; keys are logical path strings and are
//! unique within a table.

use vstd::prelude::*;

verus! {

/// First value stored under key `k`, scanning `s` front to back.
pub open spec fn seq_get<T>(s: Seq<(String, T)>, k: Seq<char>) -> Option<T>
    decreases s.len(),
{
    if s.len() == 0 {
        None
    } else if s[0].0@ == k {
        Some(s[0].1)
    } else {
        seq_get(s.drop_first(), k)
    }
}

/// When `seq_get` finds nothing, no entry has the key.
pub proof fn lemma_seq_get_none<T>(s: Seq<(String, T)>, k: Seq<char>)
    requires
        seq_get(s, k) is None,
    ensures
        forall|i: int| 0 <= i < s.len() ==> s[i].0@ != k,
    decreases s.len(),
{
    if s.len() > 0 {
        lemma_seq_get_none(s.drop_first(), k);
        assert(s[0].0@ != k);
        assert forall|i: int| 0 <= i < s.len() implies s[i].0@ != k by {
            if i > 0 {
                assert(s.drop_first()[i - 1] == s[i]);
            }
        }
    }
}

/// Appending a fresh entry: lookups of its key now find it, others are
/// unchanged.
pub proof fn lemma_seq_get_push<T>(s: Seq<(String, T)>, e: (String, T), k: Seq<char>)
    requires
        seq_get(s, e.0@) is None,
    ensures
        seq_get(s.push(e), k) == if k == e.0@ { Some(e.1) } else { seq_get(s, k) },
    decreases s.len(),
{
    if s.len() == 0 {
        assert(s.push(e)[0] == e);
        assert(s.push(e).len() == 1);
        assert(s.push(e).drop_first() =~= Seq::<(String, T)>::empty());
        if k == e.0@ {
            assert(seq_get(s.push(e), k) == Some(e.1));
        } else {
            assert(seq_get(s.push(e).drop_first(), k) == None::<T>);
            assert(seq_get(s.push(e), k) == None::<T>);
            assert(seq_get(s, k) == None::<T>);
        }
    } else {
        lemma_seq_get_push(s.drop_first(), e, k);
        assert(s.push(e)[0] == s[0]);
        assert(s.push(e).drop_first() =~= s.drop_first().push(e));
        if s[0].0@ == k {
            assert(seq_get(s, k) == Some(s[0].1));
            assert(k != e.0@);
            assert(seq_get(s.push(e), k) == Some(s[0].1));
        } else {
            assert(seq_get(s.push(e), k) == seq_get(s.drop_first().push(e), k));
            assert(seq_get(s, k) == seq_get(s.drop_first(), k));
            if k == e.0@ {
                assert(seq_get(s.push(e), k) == Some(e.1));
            } else {
                assert(seq_get(s.push(e), k) == seq_get(s, k));
            }
        }
    }
}

/// A table of values keyed by unique path strings.
pub struct Table<T> {
    entries: Vec<(String, T)>,
}

impl<T> View for Table<T> {
    type V = Seq<(String, T)>;

    closed spec fn view(&self) -> Seq<(String, T)> {
        self.entries@
    }
}

impl<T> Table<T> {
    /// Keys are pairwise distinct.
    pub open spec fn wf(&self) -> bool {
        forall|i: int, j: int|
            0 <= i < j < self@.len() ==> self@[i].0@ != self@[j].0@
    }

    /// What lookups of `k` find.
    pub open spec fn spec_get(&self, k: Seq<char>) -> Option<T> {
        seq_get(self@, k)
    }

    pub fn new() -> (r: Self)
        ensures
            r@ == Seq::<(String, T)>::empty(),
            r.wf(),
    {
        Table { entries: Vec::new() }
    }

    pub fn len(&self) -> (r: usize)
        ensures
            r == self@.len(),
    {
        self.entries.len()
    }

    pub fn clear(&mut self)
        ensures
            final(self)@ == Seq::<(String, T)>::empty(),
            final(self).wf(),
    {
        self.entries.clear();
    }

    pub fn get(&self, path: &str) -> (r: Option<&T>)
        ensures
            match r {
                Some(t) => self.spec_get(path@) == Some(*t),
                None => self.spec_get(path@) is None,
            },
    {
        let key: String = path.to_owned();
        let n = self.entries.len();
        let mut i: usize = 0;
        proof {
            assert(self@.skip(0) =~= self@);
        }
        while i < n
            invariant
                0 <= i <= n,
                n == self@.len(),
                key@ == path@,
                seq_get(self@.skip(i as int), path@) == seq_get(self@, path@),
            decreases n - i,
        {
            proof {
                assert(self@.skip(i as int)[0] == self@[i as int]);
                assert(self@.skip(i as int).drop_first() =~= self@.skip(i as int + 1));
            }
            if self.entries[i].0 == key {
                return Some(&self.entries[i].1);
            }
            i = i + 1;
        }
        proof {
            assert(self@.skip(n as int) =~= Seq::<(String, T)>::empty());
        }
        None
    }

    pub fn contains_key(&self, path: &str) -> (r: bool)
        ensures
            r == (self.spec_get(path@) is Some),
    {
        self.get(path).is_some()
    }

    /// Insert under a key not yet present.
    pub fn insert(&mut self, path: String, value: T)
        requires
            old(self).spec_get(path@) is None,
            old(self).wf(),
        ensures
            final(self)@ == old(self)@.push((path, value)),
            final(self).wf(),
    {
        proof {
            lemma_seq_get_none(self@, path@);
        }
        self.entries.push((path, value));
    }
}

} // verus!
