//! Association sequences: the mathematical model shared by the caches.
//!
//! Each cache is a vector of key/value entries with pairwise distinct keys.
//! These spec functions describe lookup, eviction, retention and upsert over
//! the entry sequence; the lemmas relate lookup to each transformation and
//! are what the stage contracts and the pipeline laws are proved from.

use vstd::prelude::*;

verus! {

/// Value of the first entry in `s` whose key is `k`, if any.
pub open spec fn assoc_find<K, V>(s: Seq<(K, V)>, k: K) -> Option<V>
    decreases s.len(),
{
    if s.len() == 0 {
        None
    } else if s[0].0 == k {
        Some(s[0].1)
    } else {
        assoc_find(s.skip(1), k)
    }
}

/// Whether `s` holds an entry for key `k`.
pub open spec fn has_key<K, V>(s: Seq<(K, V)>, k: K) -> bool {
    assoc_find(s, k) is Some
}

/// The keys of `s`, in entry order.
pub open spec fn keys<K, V>(s: Seq<(K, V)>) -> Seq<K> {
    s.map_values(|p: (K, V)| p.0)
}

/// `s` is a well-formed association: no key occurs twice.
pub open spec fn distinct_keys<K, V>(s: Seq<(K, V)>) -> bool {
    keys(s).no_duplicates()
}

/// Drops every entry whose key is listed in `dead`; order is kept.
pub open spec fn evict<K, V>(s: Seq<(K, V)>, dead: Seq<K>) -> Seq<(K, V)>
    decreases s.len(),
{
    if s.len() == 0 {
        Seq::empty()
    } else {
        let r = evict(s.drop_last(), dead);
        if dead.contains(s.last().0) {
            r
        } else {
            r.push(s.last())
        }
    }
}

/// Drops every entry whose key is not listed in `keep`; order is kept.
pub open spec fn retain_keys<K, V>(s: Seq<(K, V)>, keep: Seq<K>) -> Seq<(K, V)>
    decreases s.len(),
{
    if s.len() == 0 {
        Seq::empty()
    } else {
        let r = retain_keys(s.drop_last(), keep);
        if keep.contains(s.last().0) {
            r.push(s.last())
        } else {
            r
        }
    }
}

/// Replaces the entry for `k` by `(k, v)`, or appends it if absent.
/// The replaced entry moves to the end; no stage reads cache order.
pub open spec fn upsert<K, V>(s: Seq<(K, V)>, k: K, v: V) -> Seq<(K, V)> {
    evict(s, seq![k]).push((k, v))
}

/// Lookup lands on the first matching entry.
pub proof fn lemma_find_at<K, V>(s: Seq<(K, V)>, k: K, i: int)
    requires
        0 <= i < s.len(),
        s[i].0 == k,
        forall|j: int| 0 <= j < i ==> s[j].0 != k,
    ensures
        assoc_find(s, k) == Some(s[i].1),
    decreases i,
{
    if i > 0 {
        lemma_find_at(s.skip(1), k, i - 1);
    }
}

/// Lookup misses when no entry has the key.
pub proof fn lemma_find_none<K, V>(s: Seq<(K, V)>, k: K)
    requires
        forall|j: int| 0 <= j < s.len() ==> s[j].0 != k,
    ensures
        assoc_find(s, k) is None,
    decreases s.len(),
{
    if s.len() > 0 {
        lemma_find_none(s.skip(1), k);
    }
}

/// Lookup after appending one entry.
pub proof fn lemma_find_push<K, V>(s: Seq<(K, V)>, p: (K, V), k: K)
    ensures
        assoc_find(s.push(p), k) == (if has_key(s, k) {
            assoc_find(s, k)
        } else if p.0 == k {
            Some(p.1)
        } else {
            None::<V>
        }),
    decreases s.len(),
{
    if s.len() == 0 {
        assert(s.push(p)[0] == p);
        assert(s.push(p).skip(1) =~= Seq::<(K, V)>::empty());
        assert(assoc_find(Seq::<(K, V)>::empty(), k) is None);
        assert(assoc_find(s, k) is None);
    } else {
        assert(s.push(p)[0] == s[0]);
        assert(s.push(p).skip(1) =~= s.skip(1).push(p));
        lemma_find_push(s.skip(1), p, k);
    }
}

/// A key is held exactly when it occurs in the key sequence.
pub proof fn lemma_has_key_keys<K, V>(s: Seq<(K, V)>, k: K)
    ensures
        has_key(s, k) == keys(s).contains(k),
    decreases s.len(),
{
    if s.len() == 0 {
    } else {
        assert(keys(s)[0] == s[0].0);
        assert(keys(s).skip(1) =~= keys(s.skip(1)));
        lemma_has_key_keys(s.skip(1), k);
        if s[0].0 == k {
            assert(keys(s).contains(k));
        } else {
            assert(keys(s).contains(k) == keys(s).skip(1).contains(k)) by {
                if keys(s).contains(k) {
                    let i = choose|i: int| 0 <= i < keys(s).len() && keys(s)[i] == k;
                    assert(keys(s).skip(1)[i - 1] == k);
                }
                if keys(s).skip(1).contains(k) {
                    let i = choose|i: int|
                        0 <= i < keys(s).skip(1).len() && keys(s).skip(1)[i] == k;
                    assert(keys(s)[i + 1] == k);
                }
            }
        }
    }
}

/// Lookup after eviction: evicted keys miss, all others are unchanged.
pub proof fn lemma_evict_find<K, V>(s: Seq<(K, V)>, dead: Seq<K>, k: K)
    ensures
        assoc_find(evict(s, dead), k) == (if dead.contains(k) {
            None::<V>
        } else {
            assoc_find(s, k)
        }),
    decreases s.len(),
{
    if s.len() > 0 {
        lemma_evict_find(s.drop_last(), dead, k);
        assert(s =~= s.drop_last().push(s.last()));
        lemma_find_push(s.drop_last(), s.last(), k);
        if !dead.contains(s.last().0) {
            lemma_find_push(evict(s.drop_last(), dead), s.last(), k);
        }
    }
}

/// Lookup after retention: kept keys are unchanged, all others miss.
pub proof fn lemma_retain_find<K, V>(s: Seq<(K, V)>, keep: Seq<K>, k: K)
    ensures
        assoc_find(retain_keys(s, keep), k) == (if keep.contains(k) {
            assoc_find(s, k)
        } else {
            None::<V>
        }),
    decreases s.len(),
{
    if s.len() > 0 {
        lemma_retain_find(s.drop_last(), keep, k);
        assert(s =~= s.drop_last().push(s.last()));
        lemma_find_push(s.drop_last(), s.last(), k);
        if keep.contains(s.last().0) {
            lemma_find_push(retain_keys(s.drop_last(), keep), s.last(), k);
        }
    }
}

/// Lookup after upsert: `k` now maps to `v`, all other keys are unchanged.
pub proof fn lemma_upsert_find<K, V>(s: Seq<(K, V)>, k: K, v: V, k2: K)
    ensures
        assoc_find(upsert(s, k, v), k2) == (if k2 == k {
            Some(v)
        } else {
            assoc_find(s, k2)
        }),
{
    assert(seq![k][0] == k);
    lemma_evict_find(s, seq![k], k2);
    lemma_evict_find(s, seq![k], k);
    lemma_find_push(evict(s, seq![k]), (k, v), k2);
}

/// Membership in a sequence extended by one element.
pub proof fn lemma_contains_push<A>(s: Seq<A>, v: A, x: A)
    ensures
        s.push(v).contains(x) == (s.contains(x) || x == v),
{
    if s.push(v).contains(x) {
        let i = choose|i: int| 0 <= i < s.push(v).len() && s.push(v)[i] == x;
        if i < s.len() {
            assert(s[i] == x);
        }
    }
    if s.contains(x) {
        let i = choose|i: int| 0 <= i < s.len() && s[i] == x;
        assert(s.push(v)[i] == x);
    }
    if x == v {
        assert(s.push(v)[s.len() as int] == x);
    }
}

/// Removing an entry with a different key leaves lookup of `k` unchanged.
pub proof fn lemma_remove_entry_find<K, V>(s: Seq<(K, V)>, ix: int, k: K)
    requires
        0 <= ix < s.len(),
        s[ix].0 != k,
    ensures
        assoc_find(s.remove(ix), k) == assoc_find(s, k),
    decreases ix,
{
    if ix == 0 {
        assert(s.remove(0) =~= s.skip(1));
    } else {
        assert(s.remove(ix)[0] == s[0]);
        assert(s.remove(ix).skip(1) =~= s.skip(1).remove(ix - 1));
        lemma_remove_entry_find(s.skip(1), ix - 1, k);
    }
}

/// Appending a fresh key preserves key distinctness.
pub proof fn lemma_push_distinct<K, V>(s: Seq<(K, V)>, p: (K, V))
    requires
        distinct_keys(s),
        !has_key(s, p.0),
    ensures
        distinct_keys(s.push(p)),
{
    lemma_has_key_keys(s, p.0);
    assert(keys(s.push(p)) =~= keys(s).push(p.0));
}

/// Eviction preserves key distinctness and introduces no key.
pub proof fn lemma_evict_distinct<K, V>(s: Seq<(K, V)>, dead: Seq<K>)
    requires
        distinct_keys(s),
    ensures
        distinct_keys(evict(s, dead)),
    decreases s.len(),
{
    if s.len() > 0 {
        assert(keys(s).drop_last() =~= keys(s.drop_last()));
        assert(keys(s.drop_last()).no_duplicates()) by {
            assert(forall|i: int, j: int|
                0 <= i < j < keys(s.drop_last()).len() ==> keys(s)[i] == keys(s.drop_last())[i]
                    && keys(s)[j] == keys(s.drop_last())[j]);
        }
        lemma_evict_distinct(s.drop_last(), dead);
        if !dead.contains(s.last().0) {
            assert(!has_key(evict(s.drop_last(), dead), s.last().0)) by {
                lemma_evict_find(s.drop_last(), dead, s.last().0);
                lemma_has_key_keys(s.drop_last(), s.last().0);
                assert(!keys(s.drop_last()).contains(s.last().0)) by {
                    assert(keys(s)[s.len() - 1] == s.last().0);
                    if keys(s.drop_last()).contains(s.last().0) {
                        let i = choose|i: int|
                            0 <= i < keys(s.drop_last()).len() && keys(s.drop_last())[i]
                                == s.last().0;
                        assert(keys(s)[i] == s.last().0);
                    }
                }
            }
            lemma_push_distinct(evict(s.drop_last(), dead), s.last());
        }
    }
}

/// Retention preserves key distinctness.
pub proof fn lemma_retain_distinct<K, V>(s: Seq<(K, V)>, keep: Seq<K>)
    requires
        distinct_keys(s),
    ensures
        distinct_keys(retain_keys(s, keep)),
    decreases s.len(),
{
    if s.len() > 0 {
        assert(keys(s).drop_last() =~= keys(s.drop_last()));
        assert(keys(s.drop_last()).no_duplicates()) by {
            assert(forall|i: int, j: int|
                0 <= i < j < keys(s.drop_last()).len() ==> keys(s)[i] == keys(s.drop_last())[i]
                    && keys(s)[j] == keys(s.drop_last())[j]);
        }
        lemma_retain_distinct(s.drop_last(), keep);
        if keep.contains(s.last().0) {
            assert(!has_key(retain_keys(s.drop_last(), keep), s.last().0)) by {
                lemma_retain_find(s.drop_last(), keep, s.last().0);
                lemma_has_key_keys(s.drop_last(), s.last().0);
                assert(!keys(s.drop_last()).contains(s.last().0)) by {
                    assert(keys(s)[s.len() - 1] == s.last().0);
                    if keys(s.drop_last()).contains(s.last().0) {
                        let i = choose|i: int|
                            0 <= i < keys(s.drop_last()).len() && keys(s.drop_last())[i]
                                == s.last().0;
                        assert(keys(s)[i] == s.last().0);
                    }
                }
            }
            lemma_push_distinct(retain_keys(s.drop_last(), keep), s.last());
        }
    }
}

/// Upsert preserves key distinctness.
pub proof fn lemma_upsert_distinct<K, V>(s: Seq<(K, V)>, k: K, v: V)
    requires
        distinct_keys(s),
    ensures
        distinct_keys(upsert(s, k, v)),
{
    assert(seq![k][0] == k);
    lemma_evict_distinct(s, seq![k]);
    lemma_evict_find(s, seq![k], k);
    lemma_push_distinct(evict(s, seq![k]), (k, v));
}

} // verus!
