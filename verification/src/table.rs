//! Insertion-ordered tables: the executable counterpart of the association
//! lists in `assoc`.

use crate::assoc;
use vstd::prelude::*;

verus! {

/// A key that can be compared at run time, with the comparison agreeing
/// with mathematical equality.
pub trait Key: Copy {
    fn same(&self, other: &Self) -> (b: bool)
        ensures
            b == (*self == *other),
    ;
}

impl Key for u32 {
    fn same(&self, other: &Self) -> (b: bool) {
        *self == *other
    }
}

impl Key for u64 {
    fn same(&self, other: &Self) -> (b: bool) {
        *self == *other
    }
}

impl Key for u128 {
    fn same(&self, other: &Self) -> (b: bool) {
        *self == *other
    }
}

/// A list of entries as a table shows it: each value by its own view.
pub open spec fn entries_view<K, V: View>(entries: Seq<(K, V)>) -> Seq<(K, V::V)> {
    entries.map_values(|e: (K, V)| (e.0, e.1@))
}

/// A table of entries kept in the order in which their keys were first
/// inserted. Its view is the list of its entries, each value by its own view.
pub struct Table<K: Key, V: View> {
    entries: Vec<(K, V)>,
}

impl<K: Key, V: View> Table<K, V> {
    pub closed spec fn view(&self) -> Seq<(K, V::V)> {
        entries_view(self.entries@)
    }

    /// The table that holds the given entries, in their order. It is up to
    /// the caller to see that no key occurs twice.
    pub fn from_entries(entries: Vec<(K, V)>) -> (t: Self)
        ensures
            t@ == entries_view(entries@),
    {
        Table { entries }
    }

    /// The entries of the table, in their order.
    pub fn into_entries(self) -> (entries: Vec<(K, V)>)
        ensures
            entries_view(entries@) == self@,
    {
        self.entries
    }

    pub fn new() -> (t: Self)
        ensures
            t@ == Seq::<(K, V::V)>::empty(),
    {
        let t = Table { entries: Vec::new() };
        assert(t@ =~= Seq::<(K, V::V)>::empty());
        t
    }

    pub fn len(&self) -> (n: usize)
        ensures
            n == self@.len(),
    {
        self.entries.len()
    }

    /// The key of the `i`-th entry.
    pub fn key(&self, i: usize) -> (k: K)
        requires
            i < self@.len(),
        ensures
            k == self@[i as int].0,
    {
        self.entries[i].0
    }

    /// The value of the `i`-th entry.
    pub fn value(&self, i: usize) -> (v: &V)
        requires
            i < self@.len(),
        ensures
            v@ == self@[i as int].1,
    {
        &self.entries[i].1
    }

    /// Where `k` is stored, if it is.
    pub fn position(&self, k: &K) -> (r: Option<usize>)
        ensures
            match r {
                Some(i) => i < self@.len() && self@[i as int].0 == *k,
                None => !assoc::contains_key(self@, *k),
            },
    {
        let mut i: usize = 0;
        while i < self.entries.len()
            invariant
                i <= self.entries.len(),
                forall|j: int| 0 <= j < i ==> (#[trigger] self@[j]).0 != *k,
            decreases self.entries.len() - i,
        {
            if self.entries[i].0.same(k) {
                return Some(i);
            }
            i += 1;
        }
        None
    }

    pub fn contains_key(&self, k: &K) -> (b: bool)
        ensures
            b == assoc::contains_key(self@, *k),
    {
        self.position(k).is_some()
    }

    pub fn get(&self, k: &K) -> (r: Option<&V>)
        requires
            assoc::distinct(self@),
        ensures
            match r {
                Some(v) => assoc::get(self@, *k) == Some(v@),
                None => assoc::get(self@, *k) is None,
            },
    {
        match self.position(k) {
            Some(i) => {
                proof {
                    assoc::lemma_found(self@, *k, i as int);
                }
                Some(&self.entries[i].1)
            },
            None => None,
        }
    }

    pub fn insert(&mut self, k: K, v: V)
        requires
            assoc::distinct(old(self)@),
        ensures
            final(self)@ == assoc::insert(old(self)@, k, v@),
            assoc::distinct(final(self)@),
    {
        proof {
            assoc::lemma_insert(self@, k, v@);
        }
        match self.position(&k) {
            Some(i) => {
                proof {
                    assoc::lemma_found(self@, k, i as int);
                }
                self.entries[i] = (k, v);
                assert(self@ =~= assoc::insert(old(self)@, k, v@));
            },
            None => {
                self.entries.push((k, v));
                assert(self@ =~= assoc::insert(old(self)@, k, v@));
            },
        }
    }

    /// Takes the entry of `k` out, and says whether there was one.
    pub fn remove(&mut self, k: &K) -> (r: bool)
        requires
            assoc::distinct(old(self)@),
        ensures
            final(self)@ == assoc::remove(old(self)@, *k),
            assoc::distinct(final(self)@),
            r == assoc::contains_key(old(self)@, *k),
    {
        proof {
            assoc::lemma_remove(self@, *k);
        }
        match self.position(k) {
            Some(i) => {
                proof {
                    assoc::lemma_found(self@, *k, i as int);
                }
                let _ = self.entries.remove(i);
                assert(self@ =~= assoc::remove(old(self)@, *k));
                true
            },
            None => false,
        }
    }
}

impl<K: Key, V: View> Table<K, V> {
    /// Whether no key occurs twice.
    pub fn has_distinct_keys(&self) -> (b: bool)
        ensures
            b == assoc::distinct(self@),
    {
        let mut j: usize = 0;
        while j < self.entries.len()
            invariant
                j <= self.entries.len(),
                forall|a: int, b: int|
                    0 <= a < b < j ==> (#[trigger] self@[a]).0 != (#[trigger] self@[b]).0,
            decreases self.entries.len() - j,
        {
            let mut i: usize = 0;
            while i < j
                invariant
                    i <= j < self.entries.len(),
                    forall|a: int| 0 <= a < i ==> (#[trigger] self@[a]).0 != self@[j as int].0,
                decreases j - i,
            {
                if self.entries[i].0.same(&self.entries[j].0) {
                    assert(self@[i as int].0 == self@[j as int].0);
                    return false;
                }
                i += 1;
            }
            j += 1;
        }
        true
    }

    /// Takes the `i`-th entry out and hands it over.
    pub fn remove_at(&mut self, i: usize) -> (entry: (K, V))
        requires
            assoc::distinct(old(self)@),
            i < old(self)@.len(),
        ensures
            final(self)@ == old(self)@.remove(i as int),
            assoc::distinct(final(self)@),
            entry.0 == old(self)@[i as int].0,
            entry.1@ == old(self)@[i as int].1,
    {
        proof {
            assoc::lemma_remove_at(self@, i as int);
        }
        let entry = self.entries.remove(i);
        assert(self@ =~= old(self)@.remove(i as int));
        entry
    }

    /// Takes every entry out.
    pub fn clear(&mut self)
        ensures
            final(self)@ == Seq::<(K, V::V)>::empty(),
    {
        self.entries.clear();
        assert(self@ =~= Seq::<(K, V::V)>::empty());
    }
}

impl<K: Key, V: View + Copy> Table<K, V> {
    /// A second table with the same entries.
    pub fn duplicate(&self) -> (t: Self)
        ensures
            t@ == self@,
    {
        let mut entries: Vec<(K, V)> = Vec::new();
        let mut i: usize = 0;
        while i < self.entries.len()
            invariant
                i <= self.entries.len(),
                entries@ == self.entries@.take(i as int),
            decreases self.entries.len() - i,
        {
            let k: K = self.entries[i].0;
            let v: V = self.entries[i].1;
            entries.push((k, v));
            assert(entries@ =~= self.entries@.take(i + 1));
            i += 1;
        }
        assert(self.entries@.take(i as int) =~= self.entries@);
        Table { entries }
    }
}

} // verus!
