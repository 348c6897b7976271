//! Association lists of summaries: a sequence of key and summary pairs with
//! unique keys, read as a map.
use vstd::prelude::*;

use crate::summary::{Summary, combine, merge_maps};

verus! {

/// No key occurs twice.
pub open spec fn unique_keys<K>(s: Seq<(K, Summary)>) -> bool {
    forall|i: int, j: int| 0 <= i < s.len() && 0 <= j < s.len() && i != j ==> s[i].0 != s[j].0
}

/// Whether some pair of `s` has key `k`.
pub open spec fn has_key<K>(s: Seq<(K, Summary)>, k: K) -> bool {
    exists|i: int| 0 <= i < s.len() && #[trigger] s[i].0 == k
}

/// The map that an association list stands for.
pub open spec fn assoc_view<K>(s: Seq<(K, Summary)>) -> Map<K, Summary> {
    Map::new(
        |k: K| has_key(s, k),
        |k: K| s[choose|i: int| 0 <= i < s.len() && #[trigger] s[i].0 == k].1,
    )
}

/// The pair at index `i` is what the map holds for its key.
pub proof fn lemma_assoc_index<K>(s: Seq<(K, Summary)>, i: int)
    requires
        unique_keys(s),
        0 <= i < s.len(),
    ensures
        assoc_view(s).contains_key(s[i].0),
        assoc_view(s)[s[i].0] == s[i].1,
{
    assert(has_key(s, s[i].0));
    let j = choose|j: int| 0 <= j < s.len() && #[trigger] s[j].0 == s[i].0;
    assert(j == i);
}

/// Appending a pair with a new key inserts it into the map.
pub proof fn lemma_assoc_push<K>(s: Seq<(K, Summary)>, k: K, v: Summary)
    requires
        unique_keys(s),
        !has_key(s, k),
    ensures
        unique_keys(s.push((k, v))),
        assoc_view(s.push((k, v))) == assoc_view(s).insert(k, v),
{
    let t = s.push((k, v));
    assert forall|i: int, j: int| 0 <= i < t.len() && 0 <= j < t.len() && i != j implies t[i].0
        != t[j].0 by {
        if i < s.len() && j < s.len() {
            assert(t[i] == s[i] && t[j] == s[j]);
        } else if i < s.len() {
            assert(t[i] == s[i]);
        } else {
            assert(t[j] == s[j]);
        }
    }
    assert forall|q: K| #[trigger] has_key(t, q) == (has_key(s, q) || q == k) by {
        if has_key(s, q) {
            let i = choose|i: int| 0 <= i < s.len() && #[trigger] s[i].0 == q;
            assert(t[i] == s[i]);
        }
        if q == k {
            assert(t[s.len() as int].0 == k);
        }
        if has_key(t, q) && q != k {
            let i = choose|i: int| 0 <= i < t.len() && #[trigger] t[i].0 == q;
            assert(s[i] == t[i]);
        }
    }
    assert forall|q: K| #[trigger] assoc_view(t).contains_key(q) implies assoc_view(t)[q]
        == assoc_view(s).insert(k, v)[q] by {
        if q == k {
            lemma_assoc_index(t, s.len() as int);
        } else {
            let i = choose|i: int| 0 <= i < s.len() && #[trigger] s[i].0 == q;
            lemma_assoc_index(s, i);
            assert(t[i] == s[i]);
            lemma_assoc_index(t, i);
        }
    }
    assert(assoc_view(t) =~= assoc_view(s).insert(k, v));
}

/// Replacing the summary at index `i` updates the map at that key.
pub proof fn lemma_assoc_update<K>(s: Seq<(K, Summary)>, i: int, v: Summary)
    requires
        unique_keys(s),
        0 <= i < s.len(),
    ensures
        unique_keys(s.update(i, (s[i].0, v))),
        assoc_view(s.update(i, (s[i].0, v))) == assoc_view(s).insert(s[i].0, v),
{
    let k = s[i].0;
    let t = s.update(i, (k, v));
    assert forall|q: K| #[trigger] has_key(t, q) == has_key(s, q) by {
        if has_key(s, q) {
            let j = choose|j: int| 0 <= j < s.len() && #[trigger] s[j].0 == q;
            assert(t[j].0 == q);
        }
        if has_key(t, q) {
            let j = choose|j: int| 0 <= j < t.len() && #[trigger] t[j].0 == q;
            assert(s[j].0 == q);
        }
    }
    assert forall|q: K| #[trigger] assoc_view(t).contains_key(q) implies assoc_view(t)[q]
        == assoc_view(s).insert(k, v)[q] by {
        let j = choose|j: int| 0 <= j < s.len() && #[trigger] s[j].0 == q;
        lemma_assoc_index(s, j);
        lemma_assoc_index(t, j);
    }
    assert(assoc_view(t) =~= assoc_view(s).insert(k, v));
}

/// A prefix of an association list stands for part of its map.
pub proof fn lemma_assoc_take<K>(s: Seq<(K, Summary)>, j: int)
    requires
        unique_keys(s),
        0 <= j < s.len(),
    ensures
        unique_keys(s.take(j)),
        !has_key(s.take(j), s[j].0),
        s.take(j + 1) == s.take(j).push(s[j]),
        assoc_view(s.take(j)).submap_of(assoc_view(s)),
{
    let p = s.take(j);
    assert(s.take(j + 1) =~= p.push(s[j]));
    if has_key(p, s[j].0) {
        let i = choose|i: int| 0 <= i < p.len() && #[trigger] p[i].0 == s[j].0;
        assert(s[i].0 == s[j].0);
    }
    assert forall|q: K| #[trigger] assoc_view(p).contains_key(q) implies assoc_view(s).contains_key(q)
        && assoc_view(s)[q] == assoc_view(p)[q] by {
        let i = choose|i: int| 0 <= i < p.len() && #[trigger] p[i].0 == q;
        lemma_assoc_index(p, i);
        lemma_assoc_index(s, i);
    }
}

/// Merging with one more new key of the right side changes the merge at that
/// key alone.
pub proof fn lemma_merge_maps_insert<K>(r: Map<K, Summary>, p: Map<K, Summary>, k: K, v: Summary)
    requires
        !p.contains_key(k),
    ensures
        merge_maps(r, p.insert(k, v)) == merge_maps(r, p).insert(
            k,
            if r.contains_key(k) {
                combine(r[k], v)
            } else {
                v
            },
        ),
{
    assert(merge_maps(r, p.insert(k, v)) =~= merge_maps(r, p).insert(
        k,
        if r.contains_key(k) {
            combine(r[k], v)
        } else {
            v
        },
    ));
}

} // verus!
