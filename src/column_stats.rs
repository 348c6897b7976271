//! Statistics of top-level columns, keyed by column id, and their reducer.
use vstd::prelude::*;

use crate::assoc::{
    assoc_view,
    has_key,
    lemma_assoc_index,
    lemma_assoc_push,
    lemma_assoc_take,
    lemma_assoc_update,
    lemma_merge_maps_insert,
    unique_keys,
};
use crate::error::StatisticsError;
use crate::summary::{
    Summary,
    combine,
    fits_map,
    lemma_reduce_maps_prefix,
    merge_maps,
    nonneg_map,
    reduce_maps,
};
use crate::value::{DataValue, pick_max, pick_min};

verus! {

/// Stable identifier of a top-level column.
pub type ColumnId = u32;

/// Summary of one top-level column over some rows.
#[derive(Clone, Debug, PartialEq, Eq)]
pub struct ColumnStatistics {
    pub min: DataValue,
    pub max: DataValue,
    pub null_count: u64,
    pub in_memory_size: u64,
}

impl ColumnStatistics {
    /// What the statistics say, with `null_count` as the count.
    pub open spec fn summary(self) -> Summary {
        Summary {
            min: self.min@,
            max: self.max@,
            count: self.null_count as int,
            size: self.in_memory_size as int,
        }
    }
    /// A copy of the statistics.
    pub fn duplicate(&self) -> (r: ColumnStatistics)
        ensures
            r.summary() == self.summary(),
    {
        ColumnStatistics {
            min: self.min.duplicate(),
            max: self.max.duplicate(),
            null_count: self.null_count,
            in_memory_size: self.in_memory_size,
        }
    }
}

/// Column statistics by column id.
pub struct StatisticsOfColumns {
    entries: Vec<(ColumnId, ColumnStatistics)>,
}

/// The pairs of an association list, with each summary's model.
pub open spec fn column_pairs(s: Seq<(ColumnId, ColumnStatistics)>) -> Seq<(ColumnId, Summary)> {
    s.map_values(|e: (ColumnId, ColumnStatistics)| (e.0, e.1.summary()))
}

impl View for StatisticsOfColumns {
    type V = Map<ColumnId, Summary>;

    closed spec fn view(&self) -> Map<ColumnId, Summary> {
        assoc_view(column_pairs(self.entries@))
    }
}

/// The maps that a sequence of column statistics stands for.
pub open spec fn column_views(s: Seq<&StatisticsOfColumns>) -> Seq<Map<ColumnId, Summary>> {
    Seq::new(s.len(), |i: int| s[i]@)
}

proof fn lemma_pairs_fit(s: Seq<(ColumnId, ColumnStatistics)>)
    ensures
        nonneg_map(assoc_view(column_pairs(s))),
        fits_map(assoc_view(column_pairs(s))),
{
    let p = column_pairs(s);
    assert forall|k: ColumnId| #[trigger] assoc_view(p).contains_key(k) implies assoc_view(p)[k].count
        >= 0 && assoc_view(p)[k].size >= 0 && assoc_view(p)[k].count <= u64::MAX && assoc_view(
        p,
    )[k].size <= u64::MAX by {
        let i = choose|i: int| 0 <= i < p.len() && #[trigger] p[i].0 == k;
        assert(p[i] == (s[i].0, s[i].1.summary()));
    }
}

fn find_column(entries: &Vec<(ColumnId, ColumnStatistics)>, id: ColumnId) -> (r: Option<usize>)
    ensures
        match r {
            Some(i) => i < entries@.len() && entries@[i as int].0 == id,
            None => !has_key(column_pairs(entries@), id),
        },
{
    let mut i: usize = 0;
    while i < entries.len()
        invariant
            i <= entries@.len(),
            forall|j: int| 0 <= j < i ==> entries@[j].0 != id,
        decreases entries@.len() - i,
    {
        if entries[i].0 == id {
            return Some(i);
        }
        i += 1;
    }
    proof {
        let p = column_pairs(entries@);
        if has_key(p, id) {
            let j = choose|j: int| 0 <= j < p.len() && #[trigger] p[j].0 == id;
            assert(p[j].0 == entries@[j].0);
        }
    }
    None
}

impl StatisticsOfColumns {
    /// Keys are unique.
    pub closed spec fn wf(&self) -> bool {
        unique_keys(column_pairs(self.entries@))
    }

    /// No statistics.
    pub fn new() -> (r: StatisticsOfColumns)
        ensures
            r.wf(),
            r@ == Map::<ColumnId, Summary>::empty(),
    {
        let r = StatisticsOfColumns { entries: Vec::new() };
        assert(r@ =~= Map::<ColumnId, Summary>::empty());
        r
    }

    /// Counts and sizes held are those of `u64` values.
    pub proof fn lemma_fits(&self)
        ensures
            nonneg_map(self@),
            fits_map(self@),
    {
        lemma_pairs_fit(self.entries@);
    }

    /// Sets the statistics of column `id`, replacing any earlier ones.
    pub fn insert(&mut self, id: ColumnId, stats: ColumnStatistics)
        requires
            old(self).wf(),
        ensures
            final(self).wf(),
            final(self)@ == old(self)@.insert(id, stats.summary()),
    {
        let ghost before = column_pairs(self.entries@);
        match find_column(&self.entries, id) {
            Some(i) => {
                self.entries.set(i, (id, stats));
                proof {
                    lemma_assoc_update(before, i as int, stats.summary());
                    assert(column_pairs(self.entries@) =~= before.update(
                        i as int,
                        (id, stats.summary()),
                    ));
                }
            },
            None => {
                self.entries.push((id, stats));
                proof {
                    lemma_assoc_push(before, id, stats.summary());
                    assert(column_pairs(self.entries@) =~= before.push((id, stats.summary())));
                }
            },
        }
    }

    /// The statistics of column `id`, if any.
    pub fn get(&self, id: ColumnId) -> (r: Option<ColumnStatistics>)
        requires
            self.wf(),
        ensures
            match r {
                Some(c) => self@.contains_key(id) && self@[id] == c.summary(),
                None => !self@.contains_key(id),
            },
    {
        match find_column(&self.entries, id) {
            Some(i) => {
                proof {
                    lemma_assoc_index(column_pairs(self.entries@), i as int);
                }
                Some(self.entries[i].1.duplicate())
            },
            None => None,
        }
    }

    /// Whether no column has statistics.
    pub fn is_empty(&self) -> (r: bool)
        ensures
            r == (self@ == Map::<ColumnId, Summary>::empty()),
    {
        proof {
            let p = column_pairs(self.entries@);
            if p.len() > 0 {
                assert(has_key(p, p[0].0));
                assert(self@.contains_key(p[0].0));
            } else {
                assert(self@ =~= Map::<ColumnId, Summary>::empty());
            }
        }
        self.entries.len() == 0
    }
}

/// Merges the column statistics of many blocks or aggregates into one map:
/// the union of their column ids, each with the smallest and the largest
/// non-null value seen for it (`Null` if there was none), and the sums of its
/// null counts and sizes. Fails exactly when such a sum exceeds `u64::MAX`.
pub fn reduce_block_statistics(stats: &[&StatisticsOfColumns]) -> (r: Result<
    StatisticsOfColumns,
    StatisticsError,
>)
    requires
        forall|i: int| 0 <= i < stats@.len() ==> (#[trigger] stats@[i]).wf(),
    ensures
        r is Ok <==> fits_map(reduce_maps(column_views(stats@))),
        r matches Ok(m) ==> m.wf() && m@ == reduce_maps(column_views(stats@)),
{
    let ghost views = column_views(stats@);
    proof {
        assert forall|x: int| 0 <= x < views.len() implies nonneg_map(#[trigger] views[x]) by {
            stats@[x].lemma_fits();
        }
    }
    let mut acc: Vec<(ColumnId, ColumnStatistics)> = Vec::new();
    proof {
        assert(views.take(0) =~= Seq::<Map<ColumnId, Summary>>::empty());
        assert(assoc_view(column_pairs(acc@)) =~= Map::<ColumnId, Summary>::empty());
    }
    let mut i: usize = 0;
    while i < stats.len()
        invariant
            i <= stats@.len(),
            views == column_views(stats@),
            forall|x: int| 0 <= x < stats@.len() ==> (#[trigger] stats@[x]).wf(),
            forall|x: int| 0 <= x < views.len() ==> nonneg_map(#[trigger] views[x]),
            unique_keys(column_pairs(acc@)),
            assoc_view(column_pairs(acc@)) == reduce_maps(views.take(i as int)),
        decreases stats@.len() - i,
    {
        let m: &StatisticsOfColumns = stats[i];
        let ghost done = reduce_maps(views.take(i as int));
        let ghost mp = column_pairs(m.entries@);
        proof {
            assert(assoc_view(mp.take(0)) =~= Map::<ColumnId, Summary>::empty());
            assert(merge_maps(done, Map::<ColumnId, Summary>::empty()) =~= done);
        }
        let mut j: usize = 0;
        while j < m.entries.len()
            invariant
                j <= m.entries@.len(),
                i < stats@.len(),
                m == stats@[i as int],
                views == column_views(stats@),
                forall|x: int| 0 <= x < views.len() ==> nonneg_map(#[trigger] views[x]),
                done == reduce_maps(views.take(i as int)),
                mp == column_pairs(m.entries@),
                unique_keys(mp),
                unique_keys(column_pairs(acc@)),
                assoc_view(column_pairs(acc@)) == merge_maps(done, assoc_view(mp.take(j as int))),
            decreases m.entries@.len() - j,
        {
            let id: ColumnId = m.entries[j].0;
            let c: ColumnStatistics = m.entries[j].1.duplicate();
            let ghost part = assoc_view(mp.take(j as int));
            let ghost cur = column_pairs(acc@);
            proof {
                assert(mp[j as int] == (id, c.summary()));
                lemma_assoc_take(mp, j as int);
                lemma_assoc_push(mp.take(j as int), id, c.summary());
                lemma_merge_maps_insert(done, part, id, c.summary());
            }
            match find_column(&acc, id) {
                Some(x) => {
                    let old_c: &ColumnStatistics = &acc[x].1;
                    proof {
                        lemma_assoc_index(cur, x as int);
                        assert(cur[x as int] == (id, old_c.summary()));
                        assert(!part.contains_key(id));
                        assert(done.contains_key(id));
                    }
                    let nulls = old_c.null_count.checked_add(c.null_count);
                    let size = old_c.in_memory_size.checked_add(c.in_memory_size);
                    if nulls.is_none() || size.is_none() {
                        proof {
                            assert(old_c.null_count + c.null_count > u64::MAX
                                || old_c.in_memory_size + c.in_memory_size > u64::MAX);
                            let next = merge_maps(done, assoc_view(mp.take(j as int + 1)));
                            assert(next[id] == combine(done[id], c.summary()));
                            lemma_assoc_take(mp, j as int);
                            lemma_assoc_index(mp, j as int);
                            lemma_assoc_index(mp.take(j as int + 1), j as int);
                            assert(mp.take(j as int + 1)[j as int] == mp[j as int]);
                            let whole = merge_maps(done, assoc_view(mp));
                            assert(whole[id] == next[id]);
                            assert(views.take(i as int + 1).drop_last() =~= views.take(i as int));
                            assert(views[i as int] == assoc_view(mp));
                            assert(reduce_maps(views.take(i as int + 1)) == whole);
                            lemma_reduce_maps_prefix(views, i as int + 1);
                            assert(views.take(i as int + 1).len() == i + 1);
                            assert(done[id] == old_c.summary());
                            let w = whole[id];
                            assert(w == combine(old_c.summary(), c.summary()));
                            assert(w.count == old_c.null_count + c.null_count);
                            assert(w.size == old_c.in_memory_size + c.in_memory_size);
                            assert(w.count > u64::MAX || w.size > u64::MAX);
                            assert(whole.contains_key(id));
                            assert(reduce_maps(views.take(i as int + 1)).contains_key(id));
                            let all = reduce_maps(views);
                            assert(all.contains_key(id));
                            assert(all[id].count > u64::MAX || all[id].size > u64::MAX);
                        }
                        return Err(StatisticsError::Overflow);
                    }
                    let merged = ColumnStatistics {
                        min: pick_min(&old_c.min, &c.min),
                        max: pick_max(&old_c.max, &c.max),
                        null_count: nulls.unwrap(),
                        in_memory_size: size.unwrap(),
                    };
                    acc.set(x, (id, merged));
                    proof {
                        lemma_assoc_update(cur, x as int, merged.summary());
                        assert(column_pairs(acc@) =~= cur.update(x as int, (id, merged.summary())));
                    }
                },
                None => {
                    acc.push((id, c));
                    proof {
                        assert(!assoc_view(cur).contains_key(id));
                        assert(!done.contains_key(id));
                        lemma_assoc_push(cur, id, c.summary());
                        assert(column_pairs(acc@) =~= cur.push((id, c.summary())));
                    }
                },
            }
            j += 1;
        }
        proof {
            assert(mp.take(j as int) =~= mp);
            assert(views.take(i as int + 1).drop_last() =~= views.take(i as int));
            assert(views[i as int] == assoc_view(mp));
        }
        i += 1;
    }
    proof {
        assert(views.take(i as int) =~= views);
        lemma_pairs_fit(acc@);
    }
    Ok(StatisticsOfColumns { entries: acc })
}

} // verus!
