//! Association lists as a mathematical model: a sequence of key/value pairs in
//! which every key occurs at most once, read as a finite map that remembers
//! the order in which its keys arrived.

use vstd::prelude::*;

verus! {

/// No key occurs twice in `s`.
pub open spec fn distinct<K, V>(s: Seq<(K, V)>) -> bool {
    forall|i: int, j: int| 0 <= i < j < s.len() ==> (#[trigger] s[i]).0 != (#[trigger] s[j]).0
}

/// Some entry of `s` has the key `k`.
pub open spec fn contains_key<K, V>(s: Seq<(K, V)>, k: K) -> bool {
    exists|i: int| 0 <= i < s.len() && (#[trigger] s[i]).0 == k
}

/// The place of `k` in `s`; meaningful only where `s` holds `k`.
pub open spec fn index_of<K, V>(s: Seq<(K, V)>, k: K) -> int {
    choose|i: int| 0 <= i < s.len() && (#[trigger] s[i]).0 == k
}

/// The value stored under `k`, if there is one.
pub open spec fn get<K, V>(s: Seq<(K, V)>, k: K) -> Option<V> {
    if contains_key(s, k) {
        Some(s[index_of(s, k)].1)
    } else {
        None
    }
}

/// `s` with `v` stored under `k`: an entry that is already there keeps its
/// place and takes the new value, a new one goes to the end.
pub open spec fn insert<K, V>(s: Seq<(K, V)>, k: K, v: V) -> Seq<(K, V)> {
    if contains_key(s, k) {
        s.update(index_of(s, k), (k, v))
    } else {
        s.push((k, v))
    }
}

/// `s` without the entry of `k`; the other entries keep their order.
pub open spec fn remove<K, V>(s: Seq<(K, V)>, k: K) -> Seq<(K, V)> {
    if contains_key(s, k) {
        s.remove(index_of(s, k))
    } else {
        s
    }
}

/// In a list without repeated keys, an entry found at `i` is the entry of its key.
pub proof fn lemma_found<K, V>(s: Seq<(K, V)>, k: K, i: int)
    requires
        distinct(s),
        0 <= i < s.len(),
        s[i].0 == k,
    ensures
        contains_key(s, k),
        index_of(s, k) == i,
        get(s, k) == Some(s[i].1),
{
    let j = index_of(s, k);
    assert(0 <= j < s.len() && s[j].0 == k);
    if j < i {
        assert(s[j].0 != s[i].0);
    } else if i < j {
        assert(s[i].0 != s[j].0);
    }
}

/// What `insert` does, read as a map: the key is bound to the new value and
/// every other key keeps what it had.
pub proof fn lemma_insert<K, V>(s: Seq<(K, V)>, k: K, v: V)
    requires
        distinct(s),
    ensures
        distinct(insert(s, k, v)),
        get(insert(s, k, v), k) == Some(v),
        forall|other: K| other != k ==> #[trigger] get(insert(s, k, v), other) == get(s, other),
        forall|other: K| #[trigger]
            contains_key(insert(s, k, v), other) == (other == k || contains_key(s, other)),
{
    let t = insert(s, k, v);
    if contains_key(s, k) {
        let p = index_of(s, k);
        assert(0 <= p < s.len() && s[p].0 == k);
        assert forall|i: int, j: int| 0 <= i < j < t.len() implies (#[trigger] t[i]).0 != (
        #[trigger] t[j]).0 by {
            assert(t[i].0 == s[i].0 && t[j].0 == s[j].0);
            assert(s[i].0 != s[j].0);
        }
        lemma_found(t, k, p);
        assert forall|other: K| #[trigger]
            contains_key(t, other) == (other == k || contains_key(s, other)) by {
            if contains_key(t, other) {
                let i = index_of(t, other);
                assert(t[i].0 == s[i].0);
            }
            if contains_key(s, other) {
                let i = index_of(s, other);
                assert(t[i].0 == s[i].0);
            }
        }
        assert forall|other: K| other != k implies #[trigger] get(t, other) == get(
            s,
            other,
        ) by {
            if contains_key(s, other) {
                let i = index_of(s, other);
                assert(t[i] == s[i]);
                lemma_found(t, other, i);
            }
        }
    } else {
        let p = s.len() as int;
        assert forall|i: int, j: int| 0 <= i < j < t.len() implies (#[trigger] t[i]).0 != (
        #[trigger] t[j]).0 by {
            if j < p {
                assert(t[i] == s[i] && t[j] == s[j]);
                assert(s[i].0 != s[j].0);
            } else {
                assert(t[i] == s[i]);
                assert(s[i].0 != k);
            }
        }
        assert(t[p].0 == k);
        lemma_found(t, k, p);
        assert forall|other: K| #[trigger]
            contains_key(t, other) == (other == k || contains_key(s, other)) by {
            if contains_key(t, other) {
                let i = index_of(t, other);
                if i < p {
                    assert(t[i] == s[i]);
                }
            }
            if contains_key(s, other) {
                let i = index_of(s, other);
                assert(t[i] == s[i]);
            }
        }
        assert forall|other: K| other != k implies #[trigger] get(t, other) == get(
            s,
            other,
        ) by {
            if contains_key(s, other) {
                let i = index_of(s, other);
                assert(t[i] == s[i]);
                lemma_found(t, other, i);
            }
        }
    }
}

/// A list without repeated keys is its beginning with its last entry
/// inserted.
pub proof fn lemma_last_inserted<K, V>(s: Seq<(K, V)>)
    requires
        distinct(s),
        s.len() > 0,
    ensures
        distinct(s.drop_last()),
        !contains_key(s.drop_last(), s.last().0),
        s == insert(s.drop_last(), s.last().0, s.last().1),
{
    let earlier = s.drop_last();
    assert forall|i: int, j: int| 0 <= i < j < earlier.len() implies (#[trigger] earlier[i]).0 != (
    #[trigger] earlier[j]).0 by {
        assert(earlier[i] == s[i] && earlier[j] == s[j]);
    }
    if contains_key(earlier, s.last().0) {
        let i = index_of(earlier, s.last().0);
        assert(s[i].0 == s[s.len() - 1].0);
    }
    assert(s =~= earlier.push(s.last()));
}

/// Taking any one entry out of a list without repeated keys leaves a list
/// without repeated keys that no longer holds that entry's key.
pub proof fn lemma_remove_at<K, V>(s: Seq<(K, V)>, i: int)
    requires
        distinct(s),
        0 <= i < s.len(),
    ensures
        distinct(s.remove(i)),
        s.remove(i) == remove(s, s[i].0),
{
    lemma_found(s, s[i].0, i);
    lemma_remove(s, s[i].0);
}

/// What `remove` does, read as a map: the key is unbound and every other key
/// keeps what it had.
pub proof fn lemma_remove<K, V>(s: Seq<(K, V)>, k: K)
    requires
        distinct(s),
    ensures
        distinct(remove(s, k)),
        !contains_key(remove(s, k), k),
        get(remove(s, k), k) is None,
        forall|other: K| other != k ==> #[trigger] get(remove(s, k), other) == get(s, other),
        forall|other: K| #[trigger]
            contains_key(remove(s, k), other) == (other != k && contains_key(s, other)),
        forall|i: int| 0 <= i < remove(s, k).len() ==> s.contains(#[trigger] remove(s, k)[i]),
{
    let t = remove(s, k);
    if contains_key(s, k) {
        let p = index_of(s, k);
        assert(0 <= p < s.len() && s[p].0 == k);
        assert forall|i: int, j: int| 0 <= i < j < t.len() implies (#[trigger] t[i]).0 != (
        #[trigger] t[j]).0 by {
            let si = if i < p {
                i
            } else {
                i + 1
            };
            let sj = if j < p {
                j
            } else {
                j + 1
            };
            assert(t[i] == s[si] && t[j] == s[sj]);
            assert(s[si].0 != s[sj].0);
        }
        assert forall|other: K| #[trigger]
            contains_key(t, other) == (other != k && contains_key(s, other)) by {
            if contains_key(t, other) {
                let i = index_of(t, other);
                let si = if i < p {
                    i
                } else {
                    i + 1
                };
                assert(t[i] == s[si]);
                if si < p {
                    assert(s[si].0 != s[p].0);
                } else {
                    assert(s[p].0 != s[si].0);
                }
            }
            if other != k && contains_key(s, other) {
                let i = index_of(s, other);
                let ti = if i < p {
                    i
                } else {
                    i - 1
                };
                assert(t[ti] == s[i]);
            }
        }
        assert forall|other: K| other != k implies #[trigger] get(t, other) == get(
            s,
            other,
        ) by {
            if contains_key(s, other) {
                let i = index_of(s, other);
                let ti = if i < p {
                    i
                } else {
                    i - 1
                };
                assert(t[ti] == s[i]);
                lemma_found(t, other, ti);
            }
        }
    }
}

} // verus!
