//! Tables from names to values, as the checker keeps them: a later entry
//! for a name hides the earlier ones, and a table can be cut back to an
//! earlier length to leave a scope.
use vstd::prelude::*;

use crate::text::same_text;

verus! {

/// The value that the last entry for `k` among `entries` gives it.
pub open spec fn lookup<V>(entries: Seq<(String, V)>, k: Seq<char>) -> Option<V>
    decreases entries.len(),
{
    if entries.len() == 0 {
        None
    } else if entries.last().0@ == k {
        Some(entries.last().1)
    } else {
        lookup(entries.drop_last(), k)
    }
}

/// A table from names to values.
pub struct Names<V> {
    pub entries: Vec<(String, V)>,
}

impl<V> Names<V> {
    /// The value that the table gives the name `k`.
    pub open spec fn value_of(&self, k: Seq<char>) -> Option<V> {
        lookup(self.entries@, k)
    }

    /// An empty table.
    pub fn new() -> (res: Self)
        ensures
            res.entries@.len() == 0,
            forall|k: Seq<char>| #[trigger] res.value_of(k) is None,
    {
        Names { entries: Vec::new() }
    }

    /// The value of the name `k`, if the table gives it one.
    pub fn get(&self, k: &str) -> (res: Option<&V>)
        ensures
            res matches Some(v) ==> self.value_of(k@) == Some(*v),
            res is None <==> self.value_of(k@) is None,
    {
        let mut i = self.entries.len();
        assert(self.entries@.subrange(0, i as int) =~= self.entries@);
        while i > 0
            invariant
                i <= self.entries@.len(),
                lookup(self.entries@, k@) == lookup(self.entries@.subrange(0, i as int), k@),
            decreases i,
        {
            assert(self.entries@.subrange(0, i as int).drop_last() =~= self.entries@.subrange(
                0,
                i - 1,
            ));
            i = i - 1;
            if same_text(self.entries[i].0.as_str(), k) {
                return Some(&self.entries[i].1);
            }
        }
        None
    }

    /// Whether the table gives the name `k` a value.
    pub fn contains_key(&self, k: &str) -> (res: bool)
        ensures
            res == self.value_of(k@) is Some,
    {
        self.get(k).is_some()
    }

    /// Gives the name `k` the value `v`, hiding any value it had.
    pub fn insert(&mut self, k: String, v: V)
        ensures
            final(self).entries@ == old(self).entries@.push((k, v)),
            final(self).value_of(k@) == Some(v),
            forall|j: Seq<char>|
                j != k@ ==> #[trigger] final(self).value_of(j) == old(self).value_of(j),
    {
        self.entries.push((k, v));
        assert(self.entries@.drop_last() =~= old(self).entries@);
    }

    /// The number of entries of the table.
    pub fn len(&self) -> (res: usize)
        ensures
            res == self.entries@.len(),
    {
        self.entries.len()
    }

    /// Drops the entries after the first `n`: the table is as it was when it
    /// had `n` entries.
    pub fn truncate(&mut self, n: usize)
        requires
            n <= old(self).entries@.len(),
        ensures
            final(self).entries@ == old(self).entries@.subrange(0, n as int),
    {
        self.entries.truncate(n);
    }
}

/// A name that has a value keeps one when entries are appended.
pub proof fn lemma_lookup_append<V>(s: Seq<(String, V)>, t: Seq<(String, V)>, k: Seq<char>)
    requires
        lookup(s, k) is Some,
    ensures
        lookup(s + t, k) is Some,
    decreases t.len(),
{
    if t.len() == 0 {
        assert(s + t =~= s);
    } else {
        lemma_lookup_append(s, t.drop_last(), k);
        assert((s + t).drop_last() =~= s + t.drop_last());
    }
}

/// A name that has a value has an entry.
pub proof fn lemma_lookup_entry<V>(s: Seq<(String, V)>, k: Seq<char>) -> (e: int)
    requires
        lookup(s, k) is Some,
    ensures
        0 <= e < s.len(),
        s[e].0@ == k,
    decreases s.len(),
{
    if s.last().0@ == k {
        s.len() - 1
    } else {
        lemma_lookup_entry(s.drop_last(), k)
    }
}

} // verus!
