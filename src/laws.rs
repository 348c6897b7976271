//! Laws of the merge algebra, stated over the models that the functions'
//! contracts use.
use vstd::prelude::*;

use crate::column_stats::ColumnId;
use crate::statistics::{
    BlockMeta,
    StatisticsModel,
    block_metas_model,
    present_sub_views,
    total,
    fold_model,
    identity_model,
    lemma_fold_model_append,
    lemma_merge_model_associative,
    lemma_merge_model_identity,
    merge_model,
};
use crate::summary::{
    Summary,
    count_sum,
    greatest_max,
    least_min,
    lemma_reduce_maps_extremes,
    lemma_merge_maps_commutative,
    lemma_reduce_maps_append,
    lemma_reduce_maps_key,
    reduce_maps,
};

verus! {

/// Merging aggregate records is associative: `(a + b) + c == a + (b + c)`.
pub proof fn merge_is_associative(a: StatisticsModel, b: StatisticsModel, c: StatisticsModel)
    ensures
        merge_model(merge_model(a, b), c) == merge_model(a, merge_model(b, c)),
{
    lemma_merge_model_associative(a, b, c);
}

/// Merging aggregate records is commutative: `a + b == b + a`.
pub proof fn merge_is_commutative(a: StatisticsModel, b: StatisticsModel)
    ensures
        merge_model(a, b) == merge_model(b, a),
{
    lemma_merge_maps_commutative(a.col_stats, b.col_stats);
    if let (Some(x), Some(y)) = (a.sub_col_stats, b.sub_col_stats) {
        lemma_merge_maps_commutative(x, y);
    }
}

/// The identity record changes nothing it is merged with, and folding no
/// records gives the identity record.
pub proof fn merge_identity(x: StatisticsModel)
    ensures
        merge_model(identity_model(), x) == x,
        merge_model(x, identity_model()) == x,
        fold_model(Seq::<StatisticsModel>::empty()) == identity_model(),
{
    lemma_merge_model_identity(x);
}

/// Folding a sequence split in two anywhere equals merging the folds of the
/// two parts, so any tree of merges over the sequence gives the fold.
pub proof fn fold_of_concatenation(s: Seq<StatisticsModel>, t: Seq<StatisticsModel>)
    ensures
        fold_model(s + t) == merge_model(fold_model(s), fold_model(t)),
{
    lemma_fold_model_append(s, t);
}

/// Folding three records equals merging the first into the identity record
/// and merging that with the merge of the other two.
pub proof fn fold_of_three(a: StatisticsModel, b: StatisticsModel, c: StatisticsModel)
    ensures
        fold_model(seq![a, b, c]) == merge_model(
            merge_model(identity_model(), a),
            merge_model(b, c),
        ),
{
    let s = seq![a, b, c];
    assert(s =~= seq![a] + seq![b, c]);
    lemma_fold_model_append(seq![a], seq![b, c]);
    assert(seq![a].drop_last() =~= Seq::<StatisticsModel>::empty());
    assert(fold_model(Seq::<StatisticsModel>::empty()) == identity_model());
    assert(seq![a].last() == a);
    assert(fold_model(seq![a]) == merge_model(identity_model(), a));
    let t = seq![b, c];
    assert(t.drop_last() =~= seq![b]);
    assert(seq![b].drop_last() =~= Seq::<StatisticsModel>::empty());
    lemma_merge_model_identity(b);
    assert(seq![b].last() == b);
    assert(fold_model(seq![b]) == b);
    assert(t.last() == c);
    assert(fold_model(t) == merge_model(b, c));
}

/// Where every map that holds column `k` has `Null` extremes for it, the
/// reduction has `Null` extremes for it too, and its count is the sum of the
/// counts held for it.
pub proof fn null_extremes_stay_null(s: Seq<Map<ColumnId, Summary>>, k: ColumnId)
    requires
        forall|i: int|
            0 <= i < s.len() && #[trigger] s[i].contains_key(k) ==> s[i][k].min is Null
                && s[i][k].max is Null,
        exists|i: int| 0 <= i < s.len() && #[trigger] s[i].contains_key(k),
    ensures
        reduce_maps(s).contains_key(k),
        reduce_maps(s)[k].min is Null,
        reduce_maps(s)[k].max is Null,
        reduce_maps(s)[k].count == count_sum(s, k),
{
    lemma_reduce_maps_key(s, k);
}

/// For a column held by some of the maps, the reduction holds the least of
/// their non-null minimums and the greatest of their non-null maximums, each
/// `Null` where every one held is `Null`.
pub proof fn reduced_extremes(s: Seq<Map<ColumnId, Summary>>, k: ColumnId)
    requires
        exists|i: int| 0 <= i < s.len() && #[trigger] s[i].contains_key(k),
    ensures
        reduce_maps(s).contains_key(k),
        least_min(s, k, reduce_maps(s)[k].min),
        greatest_max(s, k, reduce_maps(s)[k].max),
{
    lemma_reduce_maps_key(s, k);
    lemma_reduce_maps_extremes(s, k);
}

/// The merge has no nested element statistics exactly when neither side has
/// them, and where only one side has them the merge has them unchanged.
pub proof fn sub_stats_absence(a: StatisticsModel, b: StatisticsModel)
    ensures
        merge_model(a, b).sub_col_stats is None <==> (a.sub_col_stats is None
            && b.sub_col_stats is None),
        a.sub_col_stats is Some && b.sub_col_stats is None ==> merge_model(a, b).sub_col_stats
            == a.sub_col_stats,
        a.sub_col_stats is None && b.sub_col_stats is Some ==> merge_model(a, b).sub_col_stats
            == b.sub_col_stats,
{
}

proof fn lemma_total_append(s: Seq<int>, t: Seq<int>)
    ensures
        total(s + t) == total(s) + total(t),
    decreases t.len(),
{
    if t.len() == 0 {
        assert(s + t =~= s);
    } else {
        assert((s + t).drop_last() =~= s + t.drop_last());
        lemma_total_append(s, t.drop_last());
    }
}

proof fn lemma_present_sub_views_append(s: Seq<BlockMeta>, t: Seq<BlockMeta>)
    ensures
        present_sub_views(s + t) == present_sub_views(s) + present_sub_views(t),
    decreases t.len(),
{
    if t.len() == 0 {
        assert(s + t =~= s);
        assert(present_sub_views(s) + present_sub_views(t) =~= present_sub_views(s));
    } else {
        assert((s + t).drop_last() =~= s + t.drop_last());
        lemma_present_sub_views_append(s, t.drop_last());
        match t.last().sub_col_stats {
            Some(x) => {
                assert(present_sub_views(s) + present_sub_views(t.drop_last()).push(x@)
                    =~= (present_sub_views(s) + present_sub_views(t.drop_last())).push(x@));
            },
            None => {},
        }
    }
}

/// Reducing the blocks of two batches at once equals reducing each batch and
/// merging the two records: the reduction does not depend on how blocks are
/// grouped.
pub proof fn block_metas_reduce_by_parts(s: Seq<BlockMeta>, t: Seq<BlockMeta>)
    ensures
        block_metas_model(s + t) == merge_model(block_metas_model(s), block_metas_model(t)),
{
    let rows = |b: BlockMeta| b.row_count as int;
    let sizes = |b: BlockMeta| b.block_size as int;
    let files = |b: BlockMeta| b.file_size as int;
    let cols = |b: BlockMeta| b.col_stats@;
    assert((s + t).map_values(rows) =~= s.map_values(rows) + t.map_values(rows));
    assert((s + t).map_values(sizes) =~= s.map_values(sizes) + t.map_values(sizes));
    assert((s + t).map_values(files) =~= s.map_values(files) + t.map_values(files));
    assert((s + t).map_values(cols) =~= s.map_values(cols) + t.map_values(cols));
    lemma_total_append(s.map_values(rows), t.map_values(rows));
    lemma_total_append(s.map_values(sizes), t.map_values(sizes));
    lemma_total_append(s.map_values(files), t.map_values(files));
    lemma_reduce_maps_append(s.map_values(cols), t.map_values(cols));
    lemma_present_sub_views_append(s, t);
    let ps = present_sub_views(s);
    let pt = present_sub_views(t);
    lemma_reduce_maps_append(ps, pt);
    if ps.len() == 0 {
        assert(ps + pt =~= pt);
    }
    if pt.len() == 0 {
        assert(ps + pt =~= ps);
    }
}

/// Reducing no blocks gives the identity record.
pub proof fn block_metas_of_nothing()
    ensures
        block_metas_model(Seq::<BlockMeta>::empty()) == identity_model(),
{
    let e = Seq::<BlockMeta>::empty();
    assert(e.map_values(|b: BlockMeta| b.row_count as int) =~= Seq::<int>::empty());
    assert(e.map_values(|b: BlockMeta| b.block_size as int) =~= Seq::<int>::empty());
    assert(e.map_values(|b: BlockMeta| b.file_size as int) =~= Seq::<int>::empty());
    assert(e.map_values(|b: BlockMeta| b.col_stats@) =~= Seq::<Map<ColumnId, Summary>>::empty());
}

} // verus!
