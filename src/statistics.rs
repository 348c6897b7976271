//! Block and aggregate statistics records, and the functions that merge them.
use vstd::prelude::*;

use crate::column_stats::{
    ColumnId,
    StatisticsOfColumns,
    column_views,
    reduce_block_statistics,
};
use crate::error::StatisticsError;
use crate::sub_column_stats::{
    StatisticsOfSubColumns,
    reduce_block_sub_statistics,
    sub_column_views,
};
use crate::summary::{
    Summary,
    dominated,
    fits_map,
    lemma_merge_maps_associative,
    lemma_merge_maps_dominates,
    lemma_merge_maps_identity,
    lemma_reduce_maps_pair,
    merge_maps,
    nonneg_map,
    reduce_maps,
};

verus! {

/// What an aggregate statistics record says, as mathematical values.
pub struct StatisticsModel {
    pub row_count: int,
    pub block_count: int,
    pub uncompressed_byte_size: int,
    pub compressed_byte_size: int,
    pub col_stats: Map<ColumnId, Summary>,
    pub sub_col_stats: Option<Map<Seq<char>, Summary>>,
}

/// The record of no blocks: zero counts, no column statistics, and no nested
/// element statistics.
pub open spec fn identity_model() -> StatisticsModel {
    StatisticsModel {
        row_count: 0,
        block_count: 0,
        uncompressed_byte_size: 0,
        compressed_byte_size: 0,
        col_stats: Map::empty(),
        sub_col_stats: None,
    }
}

/// Optional nested element statistics merged: absent where both sides are
/// absent, the present side where only one is, and merged where both are.
pub open spec fn merge_sub_model(
    l: Option<Map<Seq<char>, Summary>>,
    r: Option<Map<Seq<char>, Summary>>,
) -> Option<Map<Seq<char>, Summary>> {
    match (l, r) {
        (None, None) => None,
        (Some(a), None) => Some(a),
        (None, Some(b)) => Some(b),
        (Some(a), Some(b)) => Some(merge_maps(a, b)),
    }
}

/// Two aggregate records merged: counts and sizes added, column statistics
/// merged, nested element statistics merged as `merge_sub_model` says.
pub open spec fn merge_model(l: StatisticsModel, r: StatisticsModel) -> StatisticsModel {
    StatisticsModel {
        row_count: l.row_count + r.row_count,
        block_count: l.block_count + r.block_count,
        uncompressed_byte_size: l.uncompressed_byte_size + r.uncompressed_byte_size,
        compressed_byte_size: l.compressed_byte_size + r.compressed_byte_size,
        col_stats: merge_maps(l.col_stats, r.col_stats),
        sub_col_stats: merge_sub_model(l.sub_col_stats, r.sub_col_stats),
    }
}

/// A sequence of records folded from the left with `merge_model`, starting
/// from `identity_model`.
pub open spec fn fold_model(s: Seq<StatisticsModel>) -> StatisticsModel
    decreases s.len(),
{
    if s.len() == 0 {
        identity_model()
    } else {
        merge_model(fold_model(s.drop_last()), s.last())
    }
}

/// Every count and size of the record fits in a `u64`.
pub open spec fn fits_model(m: StatisticsModel) -> bool {
    m.row_count <= u64::MAX && m.block_count <= u64::MAX && m.uncompressed_byte_size <= u64::MAX
        && m.compressed_byte_size <= u64::MAX && fits_map(m.col_stats) && match m.sub_col_stats {
        Some(s) => fits_map(s),
        None => true,
    }
}

/// Every count and size of the record is non-negative.
pub open spec fn nonneg_model(m: StatisticsModel) -> bool {
    m.row_count >= 0 && m.block_count >= 0 && m.uncompressed_byte_size >= 0
        && m.compressed_byte_size >= 0 && nonneg_map(m.col_stats) && match m.sub_col_stats {
        Some(s) => nonneg_map(s),
        None => true,
    }
}

/// Each count, size and summary of `a` is bounded by that of `b`.
pub open spec fn model_dominated(a: StatisticsModel, b: StatisticsModel) -> bool {
    a.row_count <= b.row_count && a.block_count <= b.block_count && a.uncompressed_byte_size
        <= b.uncompressed_byte_size && a.compressed_byte_size <= b.compressed_byte_size
        && dominated(a.col_stats, b.col_stats) && match a.sub_col_stats {
        Some(x) => b.sub_col_stats matches Some(y) && dominated(x, y),
        None => true,
    }
}

/// Statistics of one committed block.
pub struct BlockMeta {
    pub row_count: u64,
    /// Uncompressed size in bytes.
    pub block_size: u64,
    /// Stored size in bytes.
    pub file_size: u64,
    pub col_stats: StatisticsOfColumns,
    pub sub_col_stats: Option<StatisticsOfSubColumns>,
}

impl BlockMeta {
    /// Its statistics maps are well formed.
    pub open spec fn wf(&self) -> bool {
        self.col_stats.wf() && match self.sub_col_stats {
            Some(s) => s.wf(),
            None => true,
        }
    }
}

/// Statistics aggregated over the blocks of a segment or a snapshot.
pub struct Statistics {
    pub row_count: u64,
    pub block_count: u64,
    pub uncompressed_byte_size: u64,
    pub compressed_byte_size: u64,
    pub col_stats: StatisticsOfColumns,
    pub sub_col_stats: Option<StatisticsOfSubColumns>,
}

impl View for Statistics {
    type V = StatisticsModel;

    open spec fn view(&self) -> StatisticsModel {
        StatisticsModel {
            row_count: self.row_count as int,
            block_count: self.block_count as int,
            uncompressed_byte_size: self.uncompressed_byte_size as int,
            compressed_byte_size: self.compressed_byte_size as int,
            col_stats: self.col_stats@,
            sub_col_stats: match self.sub_col_stats {
                Some(s) => Some(s@),
                None => None,
            },
        }
    }
}

impl Statistics {
    /// Its statistics maps are well formed.
    pub open spec fn wf(&self) -> bool {
        self.col_stats.wf() && match self.sub_col_stats {
            Some(s) => s.wf(),
            None => true,
        }
    }

    /// What a record holds fits in `u64` and is non-negative.
    pub proof fn lemma_fits(&self)
        ensures
            fits_model(self@),
            nonneg_model(self@),
    {
        self.col_stats.lemma_fits();
        if let Some(s) = self.sub_col_stats {
            s.lemma_fits();
        }
    }
}

impl Default for Statistics {
    /// The identity record: zero counts and no statistics.
    fn default() -> (r: Statistics)
        ensures
            r.wf(),
            r@ == identity_model(),
    {
        Statistics {
            row_count: 0,
            block_count: 0,
            uncompressed_byte_size: 0,
            compressed_byte_size: 0,
            col_stats: StatisticsOfColumns::new(),
            sub_col_stats: None,
        }
    }
}

/// Merging a non-negative record into another bounds it from above.
pub proof fn lemma_merge_model_dominates(a: StatisticsModel, b: StatisticsModel)
    requires
        nonneg_model(a),
        nonneg_model(b),
    ensures
        model_dominated(a, merge_model(a, b)),
        model_dominated(b, merge_model(a, b)),
        nonneg_model(merge_model(a, b)),
{
    lemma_merge_maps_dominates(a.col_stats, b.col_stats);
    match (a.sub_col_stats, b.sub_col_stats) {
        (Some(x), Some(y)) => lemma_merge_maps_dominates(x, y),
        _ => {},
    }
}

/// Merging records is associative.
pub proof fn lemma_merge_model_associative(a: StatisticsModel, b: StatisticsModel, c: StatisticsModel)
    ensures
        merge_model(merge_model(a, b), c) == merge_model(a, merge_model(b, c)),
{
    lemma_merge_maps_associative(a.col_stats, b.col_stats, c.col_stats);
    match (a.sub_col_stats, b.sub_col_stats, c.sub_col_stats) {
        (Some(x), Some(y), Some(z)) => lemma_merge_maps_associative(x, y, z),
        _ => {},
    }
}

/// The identity record is a left and a right identity of merging.
pub proof fn lemma_merge_model_identity(x: StatisticsModel)
    ensures
        merge_model(identity_model(), x) == x,
        merge_model(x, identity_model()) == x,
{
    lemma_merge_maps_identity(x.col_stats);
}

/// Folding a concatenation is merging the folds of its two parts.
pub proof fn lemma_fold_model_append(s: Seq<StatisticsModel>, t: Seq<StatisticsModel>)
    ensures
        fold_model(s + t) == merge_model(fold_model(s), fold_model(t)),
    decreases t.len(),
{
    if t.len() == 0 {
        assert(s + t =~= s);
        lemma_merge_model_identity(fold_model(s));
    } else {
        assert((s + t).drop_last() =~= s + t.drop_last());
        assert((s + t).last() == t.last());
        lemma_fold_model_append(s, t.drop_last());
        lemma_merge_model_associative(fold_model(s), fold_model(t.drop_last()), t.last());
    }
}

/// A fold of non-negative records is non-negative.
pub proof fn lemma_fold_model_nonneg(s: Seq<StatisticsModel>)
    requires
        forall|i: int| 0 <= i < s.len() ==> nonneg_model(#[trigger] s[i]),
    ensures
        nonneg_model(fold_model(s)),
    decreases s.len(),
{
    if s.len() > 0 {
        lemma_fold_model_nonneg(s.drop_last());
        lemma_merge_model_dominates(fold_model(s.drop_last()), s.last());
    }
}

/// Where the fold of a sequence fits in `u64`, so does the fold of a prefix.
pub proof fn lemma_fold_model_prefix_fits(s: Seq<StatisticsModel>, i: int)
    requires
        0 <= i <= s.len(),
        forall|j: int| 0 <= j < s.len() ==> nonneg_model(#[trigger] s[j]),
        fits_model(fold_model(s)),
    ensures
        fits_model(fold_model(s.take(i))),
{
    assert(s.take(i) + s.skip(i) =~= s);
    lemma_fold_model_append(s.take(i), s.skip(i));
    lemma_fold_model_nonneg(s.take(i));
    lemma_fold_model_nonneg(s.skip(i));
    lemma_merge_model_dominates(fold_model(s.take(i)), fold_model(s.skip(i)));
    let a = fold_model(s.take(i));
    let b = fold_model(s);
    assert forall|k: ColumnId| #[trigger] a.col_stats.contains_key(k) implies a.col_stats[k].count
        <= u64::MAX && a.col_stats[k].size <= u64::MAX by {
        assert(b.col_stats.contains_key(k));
    }
    if let Some(x) = a.sub_col_stats {
        let y = b.sub_col_stats.unwrap();
        assert forall|k: Seq<char>| #[trigger] x.contains_key(k) implies x[k].count <= u64::MAX
            && x[k].size <= u64::MAX by {
            assert(y.contains_key(k));
        }
    }
}

/// Merges two aggregate records: counts and sizes are added, column statistics
/// are merged, and nested element statistics are kept absent where both sides
/// lack them, taken unchanged from the one side that has them, or merged.
/// Fails exactly when a count or a size of the result exceeds `u64::MAX`.
pub fn merge_statistics(l: &Statistics, r: &Statistics) -> (res: Result<
    Statistics,
    StatisticsError,
>)
    requires
        l.wf(),
        r.wf(),
    ensures
        res is Ok <==> fits_model(merge_model(l@, r@)),
        res matches Ok(s) ==> s.wf() && s@ == merge_model(l@, r@),
{
    let ghost want = merge_model(l@, r@);
    let sub_col_stats: Option<StatisticsOfSubColumns> = match (&l.sub_col_stats, &r.sub_col_stats) {
        (None, None) => None,
        (Some(a), None) => Some(a.duplicate()),
        (None, Some(b)) => Some(b.duplicate()),
        (Some(a), Some(b)) => {
            let both: Vec<&StatisticsOfSubColumns> = vec![a, b];
            proof {
                assert(sub_column_views(both@) =~= seq![a@, b@]);
                lemma_reduce_maps_pair(a@, b@);
            }
            match reduce_block_sub_statistics(both.as_slice()) {
                Ok(m) => Some(m),
                Err(e) => {
                    return Err(e);
                },
            }
        },
    };
    proof {
        l.lemma_fits();
        r.lemma_fits();
    }
    let row_count = l.row_count.checked_add(r.row_count);
    let block_count = l.block_count.checked_add(r.block_count);
    let uncompressed = l.uncompressed_byte_size.checked_add(r.uncompressed_byte_size);
    let compressed = l.compressed_byte_size.checked_add(r.compressed_byte_size);
    if row_count.is_none() || block_count.is_none() || uncompressed.is_none()
        || compressed.is_none() {
        return Err(StatisticsError::Overflow);
    }
    let cols: Vec<&StatisticsOfColumns> = vec![&l.col_stats, &r.col_stats];
    proof {
        assert(column_views(cols@) =~= seq![l.col_stats@, r.col_stats@]);
        lemma_reduce_maps_pair(l.col_stats@, r.col_stats@);
    }
    let col_stats = match reduce_block_statistics(cols.as_slice()) {
        Ok(m) => m,
        Err(e) => {
            return Err(e);
        },
    };
    Ok(
        Statistics {
            row_count: row_count.unwrap(),
            block_count: block_count.unwrap(),
            uncompressed_byte_size: uncompressed.unwrap(),
            compressed_byte_size: compressed.unwrap(),
            col_stats,
            sub_col_stats,
        },
    )
}

/// The models of a sequence of records.
pub open spec fn statistics_views(s: Seq<Statistics>) -> Seq<StatisticsModel> {
    Seq::new(s.len(), |i: int| s[i]@)
}

/// Folds a sequence of aggregate records into one with `merge_statistics`,
/// starting from the identity record. Fails exactly when a count or a size of
/// the result exceeds `u64::MAX`.
pub fn reduce_statistics(stats: &[Statistics]) -> (res: Result<Statistics, StatisticsError>)
    requires
        forall|i: int| 0 <= i < stats@.len() ==> (#[trigger] stats@[i]).wf(),
    ensures
        res is Ok <==> fits_model(fold_model(statistics_views(stats@))),
        res matches Ok(s) ==> s.wf() && s@ == fold_model(statistics_views(stats@)),
{
    let ghost views = statistics_views(stats@);
    proof {
        assert forall|x: int| 0 <= x < views.len() implies nonneg_model(#[trigger] views[x]) by {
            stats@[x].lemma_fits();
        }
        assert(views.take(0) =~= Seq::<StatisticsModel>::empty());
    }
    let mut statistics = Statistics::default();
    let mut i: usize = 0;
    while i < stats.len()
        invariant
            i <= stats@.len(),
            views == statistics_views(stats@),
            forall|x: int| 0 <= x < stats@.len() ==> (#[trigger] stats@[x]).wf(),
            forall|x: int| 0 <= x < views.len() ==> nonneg_model(#[trigger] views[x]),
            statistics.wf(),
            statistics@ == fold_model(views.take(i as int)),
        decreases stats@.len() - i,
    {
        proof {
            assert(views.take(i as int + 1).drop_last() =~= views.take(i as int));
        }
        match merge_statistics(&statistics, &stats[i]) {
            Ok(s) => {
                statistics = s;
            },
            Err(e) => {
                proof {
                    if fits_model(fold_model(views)) {
                        lemma_fold_model_prefix_fits(views, i as int + 1);
                    }
                }
                return Err(e);
            },
        }
        i += 1;
    }
    proof {
        assert(views.take(i as int) =~= views);
        statistics.lemma_fits();
    }
    Ok(statistics)
}

/// Sum of a sequence of integers.
pub open spec fn total(s: Seq<int>) -> int
    decreases s.len(),
{
    if s.len() == 0 {
        0
    } else {
        total(s.drop_last()) + s.last()
    }
}

/// A prefix of non-negative integers sums to no more than the whole.
pub proof fn lemma_total_prefix(s: Seq<int>, i: int)
    requires
        0 <= i <= s.len(),
        forall|j: int| 0 <= j < s.len() ==> #[trigger] s[j] >= 0,
    ensures
        total(s.take(i)) <= total(s),
        total(s.take(i)) >= 0,
    decreases s.len(),
{
    if i == s.len() {
        assert(s.take(i) =~= s);
        if s.len() > 0 {
            lemma_total_prefix(s.drop_last(), i - 1);
            assert(s.drop_last().take(i - 1) =~= s.drop_last());
        }
    } else {
        assert(s.drop_last().take(i) =~= s.take(i));
        lemma_total_prefix(s.drop_last(), i);
    }
}

/// The nested element statistics that the blocks of `s` have, in order,
/// skipping the blocks that have none.
pub open spec fn present_sub_views(s: Seq<BlockMeta>) -> Seq<Map<Seq<char>, Summary>>
    decreases s.len(),
{
    if s.len() == 0 {
        Seq::empty()
    } else {
        match s.last().sub_col_stats {
            Some(x) => present_sub_views(s.drop_last()).push(x@),
            None => present_sub_views(s.drop_last()),
        }
    }
}

/// The aggregate record of a sequence of blocks: the sums of their row counts
/// and sizes, their number, their column statistics reduced, and the nested
/// element statistics of the blocks that have them reduced, or none where no
/// block has them.
pub open spec fn block_metas_model(s: Seq<BlockMeta>) -> StatisticsModel {
    StatisticsModel {
        row_count: total(s.map_values(|b: BlockMeta| b.row_count as int)),
        block_count: s.len() as int,
        uncompressed_byte_size: total(s.map_values(|b: BlockMeta| b.block_size as int)),
        compressed_byte_size: total(s.map_values(|b: BlockMeta| b.file_size as int)),
        col_stats: reduce_maps(s.map_values(|b: BlockMeta| b.col_stats@)),
        sub_col_stats: if present_sub_views(s).len() == 0 {
            None
        } else {
            Some(reduce_maps(present_sub_views(s)))
        },
    }
}

/// Adds one block's count to a running sum, failing where the sum over all
/// blocks cannot fit.
fn add_block_count(sum: u64, x: u64, Ghost(s): Ghost<Seq<int>>, Ghost(i): Ghost<int>) -> (r: Option<u64>)
    requires
        0 <= i < s.len(),
        forall|j: int| 0 <= j < s.len() ==> #[trigger] s[j] >= 0,
        sum as int == total(s.take(i)),
        x as int == s[i],
    ensures
        match r {
            Some(v) => v as int == total(s.take(i + 1)),
            None => total(s) > u64::MAX,
        },
{
    proof {
        assert(s.take(i + 1).drop_last() =~= s.take(i));
        lemma_total_prefix(s, i + 1);
    }
    sum.checked_add(x)
}

/// Builds the aggregate record of a sequence of blocks: row counts and sizes
/// are summed, the block count is the number of blocks, column statistics are
/// reduced over all blocks, and nested element statistics are reduced over
/// the blocks that have them (absent where none has). Fails exactly when a
/// count or a size of the result exceeds `u64::MAX`.
pub fn reduce_block_metas(block_metas: &[BlockMeta]) -> (res: Result<Statistics, StatisticsError>)
    requires
        forall|i: int| 0 <= i < block_metas@.len() ==> (#[trigger] block_metas@[i]).wf(),
    ensures
        res is Ok <==> fits_model(block_metas_model(block_metas@)),
        res matches Ok(s) ==> s.wf() && s@ == block_metas_model(block_metas@),
{
    let ghost metas = block_metas@;
    let ghost rows = metas.map_values(|b: BlockMeta| b.row_count as int);
    let ghost sizes = metas.map_values(|b: BlockMeta| b.block_size as int);
    let ghost files = metas.map_values(|b: BlockMeta| b.file_size as int);
    let ghost col_seq = metas.map_values(|b: BlockMeta| b.col_stats@);
    let mut row_count: u64 = 0;
    let mut uncompressed: u64 = 0;
    let mut compressed: u64 = 0;
    let mut cols: Vec<&StatisticsOfColumns> = Vec::new();
    let mut subs: Vec<&StatisticsOfSubColumns> = Vec::new();
    proof {
        assert(rows.take(0) =~= Seq::<int>::empty());
        assert(sizes.take(0) =~= Seq::<int>::empty());
        assert(files.take(0) =~= Seq::<int>::empty());
        assert(column_views(cols@) =~= col_seq.take(0));
        assert(metas.take(0) =~= Seq::<BlockMeta>::empty());
        assert(sub_column_views(subs@) =~= present_sub_views(metas.take(0)));
    }
    let mut i: usize = 0;
    while i < block_metas.len()
        invariant
            i <= metas.len(),
            metas == block_metas@,
            rows == metas.map_values(|b: BlockMeta| b.row_count as int),
            sizes == metas.map_values(|b: BlockMeta| b.block_size as int),
            files == metas.map_values(|b: BlockMeta| b.file_size as int),
            col_seq == metas.map_values(|b: BlockMeta| b.col_stats@),
            forall|x: int| 0 <= x < metas.len() ==> (#[trigger] metas[x]).wf(),
            row_count as int == total(rows.take(i as int)),
            uncompressed as int == total(sizes.take(i as int)),
            compressed as int == total(files.take(i as int)),
            column_views(cols@) == col_seq.take(i as int),
            forall|x: int| 0 <= x < cols@.len() ==> (#[trigger] cols@[x]).wf(),
            sub_column_views(subs@) == present_sub_views(metas.take(i as int)),
            forall|x: int| 0 <= x < subs@.len() ==> (#[trigger] subs@[x]).wf(),
        decreases metas.len() - i,
    {
        let b: &BlockMeta = &block_metas[i];
        let r = add_block_count(row_count, b.row_count, Ghost(rows), Ghost(i as int));
        let u = add_block_count(uncompressed, b.block_size, Ghost(sizes), Ghost(i as int));
        let c = add_block_count(compressed, b.file_size, Ghost(files), Ghost(i as int));
        if r.is_none() || u.is_none() || c.is_none() {
            return Err(StatisticsError::Overflow);
        }
        row_count = r.unwrap();
        uncompressed = u.unwrap();
        compressed = c.unwrap();
        let ghost cols_before = cols@;
        cols.push(&b.col_stats);
        proof {
            assert(column_views(cols@) =~= column_views(cols_before).push(col_seq[i as int]));
            assert(col_seq.take(i as int + 1) =~= col_seq.take(i as int).push(col_seq[i as int]));
            assert(metas.take(i as int + 1).drop_last() =~= metas.take(i as int));
        }
        let ghost subs_before = subs@;
        match &b.sub_col_stats {
            Some(s) => {
                subs.push(s);
                proof {
                    assert(sub_column_views(subs@) =~= sub_column_views(subs_before).push(s@));
                }
            },
            None => {},
        }
        i += 1;
    }
    proof {
        assert(col_seq.take(i as int) =~= col_seq);
        assert(metas.take(i as int) =~= metas);
        assert(rows.take(i as int) =~= rows);
        assert(sizes.take(i as int) =~= sizes);
        assert(files.take(i as int) =~= files);
    }
    let col_stats = match reduce_block_statistics(cols.as_slice()) {
        Ok(m) => m,
        Err(e) => {
            return Err(e);
        },
    };
    let sub_col_stats = if subs.len() == 0 {
        None
    } else {
        match reduce_block_sub_statistics(subs.as_slice()) {
            Ok(m) => Some(m),
            Err(e) => {
                return Err(e);
            },
        }
    };
    let out = Statistics {
        row_count,
        block_count: block_metas.len() as u64,
        uncompressed_byte_size: uncompressed,
        compressed_byte_size: compressed,
        col_stats,
        sub_col_stats,
    };
    proof {
        out.lemma_fits();
    }
    Ok(out)
}

} // verus!
