//! The mathematical model of a column summary and of maps of them, and the
//! algebra of merging such maps.
use vstd::prelude::*;

use crate::value::{
    ValueModel,
    lemma_value_le_total,
    lemma_value_le_transitive,
    lemma_max_value_algebra,
    lemma_min_value_algebra,
    max_value,
    min_value,
    value_le,
};

verus! {

/// What a column summary says, as mathematical values: the smallest and the
/// largest non-null value observed, the count of absent entries (nulls, or
/// unset bits of a nested element), and the uncompressed size in bytes.
pub struct Summary {
    pub min: ValueModel,
    pub max: ValueModel,
    pub count: int,
    pub size: int,
}

/// Two summaries of one column combined: extremes over the non-null values,
/// counts and sizes added.
pub open spec fn combine(a: Summary, b: Summary) -> Summary {
    Summary {
        min: min_value(a.min, b.min),
        max: max_value(a.max, b.max),
        count: a.count + b.count,
        size: a.size + b.size,
    }
}

/// Two maps of summaries merged: the union of their keys, where a key present
/// on both sides gets the combination of its two summaries.
pub open spec fn merge_maps<K>(a: Map<K, Summary>, b: Map<K, Summary>) -> Map<K, Summary> {
    Map::new(
        |k: K| a.contains_key(k) || b.contains_key(k),
        |k: K|
            if a.contains_key(k) && b.contains_key(k) {
                combine(a[k], b[k])
            } else if a.contains_key(k) {
                a[k]
            } else {
                b[k]
            },
    )
}

/// A sequence of maps of summaries reduced into one, from the empty map.
pub open spec fn reduce_maps<K>(s: Seq<Map<K, Summary>>) -> Map<K, Summary>
    decreases s.len(),
{
    if s.len() == 0 {
        Map::empty()
    } else {
        merge_maps(reduce_maps(s.drop_last()), s.last())
    }
}

/// Sum of the counts that the maps of `s` hold for key `k`.
pub open spec fn count_sum<K>(s: Seq<Map<K, Summary>>, k: K) -> int
    decreases s.len(),
{
    if s.len() == 0 {
        0
    } else {
        count_sum(s.drop_last(), k) + if s.last().contains_key(k) {
            s.last()[k].count
        } else {
            0
        }
    }
}

/// Sum of the sizes that the maps of `s` hold for key `k`.
pub open spec fn size_sum<K>(s: Seq<Map<K, Summary>>, k: K) -> int
    decreases s.len(),
{
    if s.len() == 0 {
        0
    } else {
        size_sum(s.drop_last(), k) + if s.last().contains_key(k) {
            s.last()[k].size
        } else {
            0
        }
    }
}

/// Every count and size in the map is non-negative.
pub open spec fn nonneg_map<K>(m: Map<K, Summary>) -> bool {
    forall|k: K| #[trigger] m.contains_key(k) ==> m[k].count >= 0 && m[k].size >= 0
}

/// Every count and size in the map fits in a `u64`.
pub open spec fn fits_map<K>(m: Map<K, Summary>) -> bool {
    forall|k: K|
        #[trigger] m.contains_key(k) ==> m[k].count <= u64::MAX && m[k].size <= u64::MAX
}

/// Every key of `a` is in `b`, with a count and a size no larger.
pub open spec fn dominated<K>(a: Map<K, Summary>, b: Map<K, Summary>) -> bool {
    forall|k: K|
        #[trigger] a.contains_key(k) ==> b.contains_key(k) && a[k].count <= b[k].count
            && a[k].size <= b[k].size
}

/// Combining summaries is commutative and associative.
pub proof fn lemma_combine_algebra(a: Summary, b: Summary, c: Summary)
    ensures
        combine(a, b) == combine(b, a),
        combine(combine(a, b), c) == combine(a, combine(b, c)),
{
    lemma_min_value_algebra(a.min, b.min, c.min);
    lemma_max_value_algebra(a.max, b.max, c.max);
}

/// Merging maps is commutative.
pub proof fn lemma_merge_maps_commutative<K>(a: Map<K, Summary>, b: Map<K, Summary>)
    ensures
        merge_maps(a, b) == merge_maps(b, a),
{
    assert forall|k: K| #[trigger] a.contains_key(k) && b.contains_key(k) implies combine(a[k], b[k])
        == combine(b[k], a[k]) by {
        lemma_combine_algebra(a[k], b[k], b[k]);
    }
    assert(merge_maps(a, b) =~= merge_maps(b, a));
}

/// Merging maps is associative.
pub proof fn lemma_merge_maps_associative<K>(
    a: Map<K, Summary>,
    b: Map<K, Summary>,
    c: Map<K, Summary>,
)
    ensures
        merge_maps(merge_maps(a, b), c) == merge_maps(a, merge_maps(b, c)),
{
    assert forall|k: K|
        #[trigger] a.contains_key(k) && b.contains_key(k) && c.contains_key(k) implies combine(
        combine(a[k], b[k]),
        c[k],
    ) == combine(a[k], combine(b[k], c[k])) by {
        lemma_combine_algebra(a[k], b[k], c[k]);
    }
    assert(merge_maps(merge_maps(a, b), c) =~= merge_maps(a, merge_maps(b, c)));
}

/// The empty map is the identity of merging.
pub proof fn lemma_merge_maps_identity<K>(a: Map<K, Summary>)
    ensures
        merge_maps(Map::empty(), a) == a,
        merge_maps(a, Map::empty()) == a,
{
    assert(merge_maps(Map::empty(), a) =~= a);
    assert(merge_maps(a, Map::empty()) =~= a);
}

/// Reducing a concatenation is merging the reductions of its two parts.
pub proof fn lemma_reduce_maps_append<K>(s: Seq<Map<K, Summary>>, t: Seq<Map<K, Summary>>)
    ensures
        reduce_maps(s + t) == merge_maps(reduce_maps(s), reduce_maps(t)),
    decreases t.len(),
{
    if t.len() == 0 {
        assert(s + t =~= s);
        lemma_merge_maps_identity(reduce_maps(s));
    } else {
        assert((s + t).drop_last() =~= s + t.drop_last());
        assert((s + t).last() == t.last());
        lemma_reduce_maps_append(s, t.drop_last());
        lemma_merge_maps_associative(reduce_maps(s), reduce_maps(t.drop_last()), t.last());
    }
}

/// Reducing two maps is merging them.
pub proof fn lemma_reduce_maps_pair<K>(a: Map<K, Summary>, b: Map<K, Summary>)
    ensures
        reduce_maps(seq![a, b]) == merge_maps(a, b),
{
    let s = seq![a, b];
    assert(s.drop_last() =~= seq![a]);
    assert(seq![a].drop_last() =~= Seq::<Map<K, Summary>>::empty());
    lemma_merge_maps_identity(a);
    assert(reduce_maps(Seq::<Map<K, Summary>>::empty()) == Map::<K, Summary>::empty());
    assert(reduce_maps(seq![a]) == merge_maps(Map::<K, Summary>::empty(), a));
    assert(reduce_maps(s) == merge_maps(reduce_maps(seq![a]), b));
}

/// A merge keeps every key of both sides, with counts and sizes no smaller.
pub proof fn lemma_merge_maps_dominates<K>(a: Map<K, Summary>, b: Map<K, Summary>)
    requires
        nonneg_map(a),
        nonneg_map(b),
    ensures
        dominated(a, merge_maps(a, b)),
        dominated(b, merge_maps(a, b)),
        nonneg_map(merge_maps(a, b)),
{
}

/// A reduction of non-negative maps is non-negative.
pub proof fn lemma_reduce_maps_nonneg<K>(s: Seq<Map<K, Summary>>)
    requires
        forall|i: int| 0 <= i < s.len() ==> nonneg_map(#[trigger] s[i]),
    ensures
        nonneg_map(reduce_maps(s)),
    decreases s.len(),
{
    if s.len() > 0 {
        lemma_reduce_maps_nonneg(s.drop_last());
        lemma_merge_maps_dominates(reduce_maps(s.drop_last()), s.last());
    }
}

/// The reduction of a prefix is dominated by the reduction of the whole.
pub proof fn lemma_reduce_maps_prefix<K>(s: Seq<Map<K, Summary>>, i: int)
    requires
        0 <= i <= s.len(),
        forall|j: int| 0 <= j < s.len() ==> nonneg_map(#[trigger] s[j]),
    ensures
        dominated(reduce_maps(s.take(i)), reduce_maps(s)),
{
    assert(s.take(i) + s.skip(i) =~= s);
    lemma_reduce_maps_append(s.take(i), s.skip(i));
    lemma_reduce_maps_nonneg(s.take(i));
    lemma_reduce_maps_nonneg(s.skip(i));
    lemma_merge_maps_dominates(reduce_maps(s.take(i)), reduce_maps(s.skip(i)));
}

/// A key is in the reduction exactly when some map holds it; its count and
/// size are then the sums over the maps that hold it, and where each of those
/// maps has `Null` extremes for it, so does the reduction.
pub proof fn lemma_reduce_maps_key<K>(s: Seq<Map<K, Summary>>, k: K)
    ensures
        reduce_maps(s).contains_key(k) <==> exists|i: int|
            0 <= i < s.len() && #[trigger] s[i].contains_key(k),
        reduce_maps(s).contains_key(k) ==> reduce_maps(s)[k].count == count_sum(s, k)
            && reduce_maps(s)[k].size == size_sum(s, k),
        !reduce_maps(s).contains_key(k) ==> count_sum(s, k) == 0 && size_sum(s, k) == 0,
        reduce_maps(s).contains_key(k) && (forall|i: int|
            0 <= i < s.len() && #[trigger] s[i].contains_key(k) ==> s[i][k].min is Null
                && s[i][k].max is Null) ==> reduce_maps(s)[k].min is Null && reduce_maps(
            s,
        )[k].max is Null,
    decreases s.len(),
{
    if s.len() > 0 {
        let p = s.drop_last();
        lemma_reduce_maps_key(p, k);
        assert forall|i: int| 0 <= i < p.len() implies p[i] == s[i] by {}
        if reduce_maps(p).contains_key(k) {
            let i = choose|i: int| 0 <= i < p.len() && #[trigger] p[i].contains_key(k);
            assert(s[i].contains_key(k));
        }
        if s.last().contains_key(k) {
            assert(s[s.len() - 1].contains_key(k));
        }
        if exists|i: int| 0 <= i < s.len() && #[trigger] s[i].contains_key(k) {
            let i = choose|i: int| 0 <= i < s.len() && #[trigger] s[i].contains_key(k);
            if i < s.len() - 1 {
                assert(p[i].contains_key(k));
            }
        }
        if reduce_maps(s).contains_key(k) && (forall|i: int|
            0 <= i < s.len() && #[trigger] s[i].contains_key(k) ==> s[i][k].min is Null
                && s[i][k].max is Null) {
            assert forall|i: int| 0 <= i < p.len() && #[trigger] p[i].contains_key(k) implies p[i][k].min is Null
                && p[i][k].max is Null by {
                assert(s[i] == p[i]);
            }
            if s.last().contains_key(k) {
                assert(s[s.len() - 1] == s.last());
            }
        }
    }
}

/// Whether `v` is the least of the non-null minimums held for key `k`, or
/// `Null` where all of them are `Null`.
pub open spec fn least_min<K>(s: Seq<Map<K, Summary>>, k: K, v: ValueModel) -> bool {
    if forall|i: int| 0 <= i < s.len() && #[trigger] s[i].contains_key(k) ==> s[i][k].min is Null {
        v is Null
    } else {
        (exists|i: int| 0 <= i < s.len() && #[trigger] s[i].contains_key(k) && s[i][k].min == v)
            && !(v is Null) && forall|i: int|
            0 <= i < s.len() && #[trigger] s[i].contains_key(k) && !(s[i][k].min is Null)
                ==> value_le(v, s[i][k].min)
    }
}

/// Whether `v` is the greatest of the non-null maximums held for key `k`, or
/// `Null` where all of them are `Null`.
pub open spec fn greatest_max<K>(s: Seq<Map<K, Summary>>, k: K, v: ValueModel) -> bool {
    if forall|i: int| 0 <= i < s.len() && #[trigger] s[i].contains_key(k) ==> s[i][k].max is Null {
        v is Null
    } else {
        (exists|i: int| 0 <= i < s.len() && #[trigger] s[i].contains_key(k) && s[i][k].max == v)
            && !(v is Null) && forall|i: int|
            0 <= i < s.len() && #[trigger] s[i].contains_key(k) && !(s[i][k].max is Null)
                ==> value_le(s[i][k].max, v)
    }
}

/// The extremes that a reduction holds for a key are the least non-null
/// minimum and the greatest non-null maximum held for it, `Null` where none is.
pub proof fn lemma_reduce_maps_extremes<K>(s: Seq<Map<K, Summary>>, k: K)
    requires
        reduce_maps(s).contains_key(k),
    ensures
        least_min(s, k, reduce_maps(s)[k].min),
        greatest_max(s, k, reduce_maps(s)[k].max),
    decreases s.len(),
{
    let p = s.drop_last();
    let l = s.last();
    let n = s.len() - 1;
    assert(s[n] == l);
    assert forall|i: int| 0 <= i < p.len() implies #[trigger] p[i] == s[i] by {}
    lemma_reduce_maps_key(p, k);
    if !reduce_maps(p).contains_key(k) {
        assert(l.contains_key(k));
        assert(reduce_maps(s)[k] == l[k]);
        assert forall|i: int| 0 <= i < s.len() && #[trigger] s[i].contains_key(k) implies i == n by {
            if i < n {
                assert(p[i].contains_key(k));
            }
        }
        lemma_value_le_total(l[k].min, l[k].min);
        lemma_value_le_total(l[k].max, l[k].max);
        if !(l[k].min is Null) {
            assert(s[n].contains_key(k) && s[n][k].min == l[k].min);
        }
        if !(l[k].max is Null) {
            assert(s[n].contains_key(k) && s[n][k].max == l[k].max);
        }
    } else {
        lemma_reduce_maps_extremes(p, k);
        let r = reduce_maps(p)[k];
        let m = reduce_maps(s)[k];
        if l.contains_key(k) {
            assert(m == combine(r, l[k]));
            lemma_value_le_total(r.min, l[k].min);
            lemma_value_le_total(r.max, l[k].max);
        } else {
            assert(m == r);
        }
        assert forall|i: int|
            0 <= i < s.len() && #[trigger] s[i].contains_key(k) && !(s[i][k].min is Null) implies
            value_le(m.min, s[i][k].min) by {
            if i < n {
                assert(p[i] == s[i]);
                assert(p[i].contains_key(k) && !(p[i][k].min is Null));
                assert(value_le(r.min, s[i][k].min));
                if !(m.min == r.min) {
                    lemma_value_le_transitive(m.min, r.min, s[i][k].min);
                }
            } else {
                lemma_value_le_total(l[k].min, l[k].min);
            }
        }
        assert forall|i: int|
            0 <= i < s.len() && #[trigger] s[i].contains_key(k) && !(s[i][k].max is Null) implies
            value_le(s[i][k].max, m.max) by {
            if i < n {
                assert(p[i] == s[i]);
                assert(p[i].contains_key(k) && !(p[i][k].max is Null));
                assert(value_le(s[i][k].max, r.max));
                if !(m.max == r.max) {
                    lemma_value_le_transitive(s[i][k].max, r.max, m.max);
                }
            } else {
                lemma_value_le_total(l[k].max, l[k].max);
            }
        }
        assert forall|i: int| 0 <= i < p.len() && #[trigger] p[i].contains_key(k) implies s[i].contains_key(k) && s[i][k] == p[i][k] by {}
        if forall|i: int| 0 <= i < s.len() && #[trigger] s[i].contains_key(k) ==> s[i][k].min is Null {
            assert forall|i: int| 0 <= i < p.len() && #[trigger] p[i].contains_key(k) implies p[i][k].min is Null by {
                assert(s[i].contains_key(k));
            }
            assert(r.min is Null);
            assert(m.min is Null);
        } else {
            let i = choose|i: int| 0 <= i < s.len() && #[trigger] s[i].contains_key(k) && !(s[i][k].min is Null);
            if i < n {
                assert(p[i].contains_key(k) && !(p[i][k].min is Null));
                assert(!(r.min is Null));
            } else {
                assert(!(l[k].min is Null));
            }
            assert(!(m.min is Null));
            if m.min == r.min {
                let j = choose|j: int| 0 <= j < p.len() && #[trigger] p[j].contains_key(k) && p[j][k].min == r.min;
                assert(s[j].contains_key(k) && s[j][k].min == m.min);
            } else {
                assert(s[n].contains_key(k) && s[n][k].min == m.min);
            }
        }
        if forall|i: int| 0 <= i < s.len() && #[trigger] s[i].contains_key(k) ==> s[i][k].max is Null {
            assert forall|i: int| 0 <= i < p.len() && #[trigger] p[i].contains_key(k) implies p[i][k].max is Null by {
                assert(s[i].contains_key(k));
            }
            assert(r.max is Null);
            assert(m.max is Null);
        } else {
            let i = choose|i: int| 0 <= i < s.len() && #[trigger] s[i].contains_key(k) && !(s[i][k].max is Null);
            if i < n {
                assert(p[i].contains_key(k) && !(p[i][k].max is Null));
                assert(!(r.max is Null));
            } else {
                assert(!(l[k].max is Null));
            }
            assert(!(m.max is Null));
            if m.max == r.max {
                let j = choose|j: int| 0 <= j < p.len() && #[trigger] p[j].contains_key(k) && p[j][k].max == r.max;
                assert(s[j].contains_key(k) && s[j][k].max == m.max);
            } else {
                assert(s[n].contains_key(k) && s[n][k].max == m.max);
            }
        }
    }
}

} // verus!
