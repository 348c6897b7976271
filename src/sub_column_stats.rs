//! Statistics of nested elements, keyed by their path, and their reducer.
use vstd::prelude::*;

use crate::assoc::{
    assoc_view,
    has_key,
    lemma_assoc_index,
    lemma_assoc_push,
    lemma_assoc_take,
    lemma_assoc_update,
    lemma_merge_maps_insert,
    unique_keys,
};
use crate::error::StatisticsError;
use crate::summary::{
    Summary,
    combine,
    fits_map,
    lemma_reduce_maps_prefix,
    merge_maps,
    nonneg_map,
    reduce_maps,
};
use crate::value::{DataValue, pick_max, pick_min};

verus! {

/// Summary of one nested element path over some rows. `unset_bits` counts
/// the positions where the element is absent.
#[derive(Clone, Debug, PartialEq, Eq)]
pub struct SubColumnStatistics {
    pub min: DataValue,
    pub max: DataValue,
    pub unset_bits: u64,
    pub in_memory_size: u64,
}

impl SubColumnStatistics {
    /// What the statistics say, with `unset_bits` as the count.
    pub open spec fn summary(self) -> Summary {
        Summary {
            min: self.min@,
            max: self.max@,
            count: self.unset_bits as int,
            size: self.in_memory_size as int,
        }
    }
    /// A copy of the statistics.
    pub fn duplicate(&self) -> (r: SubColumnStatistics)
        ensures
            r.summary() == self.summary(),
    {
        SubColumnStatistics {
            min: self.min.duplicate(),
            max: self.max.duplicate(),
            unset_bits: self.unset_bits,
            in_memory_size: self.in_memory_size,
        }
    }
}

/// Nested element statistics by path.
pub struct StatisticsOfSubColumns {
    entries: Vec<(String, SubColumnStatistics)>,
}

/// The pairs of an association list, keyed by the path's characters, with
/// each summary's model.
pub open spec fn sub_column_pairs(s: Seq<(String, SubColumnStatistics)>) -> Seq<(Seq<char>, Summary)> {
    s.map_values(|e: (String, SubColumnStatistics)| (e.0@, e.1.summary()))
}

impl View for StatisticsOfSubColumns {
    type V = Map<Seq<char>, Summary>;

    closed spec fn view(&self) -> Map<Seq<char>, Summary> {
        assoc_view(sub_column_pairs(self.entries@))
    }
}

/// The maps that a sequence of column statistics stands for.
pub open spec fn sub_column_views(s: Seq<&StatisticsOfSubColumns>) -> Seq<Map<Seq<char>, Summary>> {
    Seq::new(s.len(), |i: int| s[i]@)
}

proof fn lemma_sub_pairs_fit(s: Seq<(String, SubColumnStatistics)>)
    ensures
        nonneg_map(assoc_view(sub_column_pairs(s))),
        fits_map(assoc_view(sub_column_pairs(s))),
{
    let p = sub_column_pairs(s);
    assert forall|k: Seq<char>| #[trigger] assoc_view(p).contains_key(k) implies assoc_view(p)[k].count
        >= 0 && assoc_view(p)[k].size >= 0 && assoc_view(p)[k].count <= u64::MAX && assoc_view(
        p,
    )[k].size <= u64::MAX by {
        let i = choose|i: int| 0 <= i < p.len() && #[trigger] p[i].0 == k;
        assert(p[i] == (s[i].0@, s[i].1.summary()));
    }
}

fn find_sub_column(entries: &Vec<(String, SubColumnStatistics)>, key: &String) -> (r: Option<
    usize,
>)
    ensures
        match r {
            Some(i) => i < entries@.len() && entries@[i as int].0@ == key@,
            None => !has_key(sub_column_pairs(entries@), key@),
        },
{
    let mut i: usize = 0;
    while i < entries.len()
        invariant
            i <= entries@.len(),
            forall|j: int| 0 <= j < i ==> entries@[j].0@ != key@,
        decreases entries@.len() - i,
    {
        if entries[i].0 == *key {
            return Some(i);
        }
        i += 1;
    }
    proof {
        let p = sub_column_pairs(entries@);
        if has_key(p, key@) {
            let j = choose|j: int| 0 <= j < p.len() && #[trigger] p[j].0 == key@;
            assert(p[j].0 == entries@[j].0@);
        }
    }
    None
}

impl StatisticsOfSubColumns {
    /// Keys are unique.
    pub closed spec fn wf(&self) -> bool {
        unique_keys(sub_column_pairs(self.entries@))
    }

    /// No statistics.
    pub fn new() -> (r: StatisticsOfSubColumns)
        ensures
            r.wf(),
            r@ == Map::<Seq<char>, Summary>::empty(),
    {
        let r = StatisticsOfSubColumns { entries: Vec::new() };
        assert(r@ =~= Map::<Seq<char>, Summary>::empty());
        r
    }

    /// Counts and sizes held are those of `u64` values.
    pub proof fn lemma_fits(&self)
        ensures
            nonneg_map(self@),
            fits_map(self@),
    {
        lemma_sub_pairs_fit(self.entries@);
    }

    /// Sets the statistics of path `key`, replacing any earlier ones.
    pub fn insert(&mut self, key: String, stats: SubColumnStatistics)
        requires
            old(self).wf(),
        ensures
            final(self).wf(),
            final(self)@ == old(self)@.insert(key@, stats.summary()),
    {
        let ghost before = sub_column_pairs(self.entries@);
        let ghost id = key@;
        match find_sub_column(&self.entries, &key) {
            Some(i) => {
                self.entries.set(i, (key, stats));
                proof {
                    lemma_assoc_update(before, i as int, stats.summary());
                    assert(sub_column_pairs(self.entries@) =~= before.update(
                        i as int,
                        (id, stats.summary()),
                    ));
                }
            },
            None => {
                self.entries.push((key, stats));
                proof {
                    lemma_assoc_push(before, id, stats.summary());
                    assert(sub_column_pairs(self.entries@) =~= before.push((id, stats.summary())));
                }
            },
        }
    }

    /// The statistics of path `key`, if any.
    pub fn get(&self, key: &String) -> (r: Option<SubColumnStatistics>)
        requires
            self.wf(),
        ensures
            match r {
                Some(c) => self@.contains_key(key@) && self@[key@] == c.summary(),
                None => !self@.contains_key(key@),
            },
    {
        match find_sub_column(&self.entries, key) {
            Some(i) => {
                proof {
                    lemma_assoc_index(sub_column_pairs(self.entries@), i as int);
                }
                Some(self.entries[i].1.duplicate())
            },
            None => None,
        }
    }

    /// A copy holding the same statistics.
    pub fn duplicate(&self) -> (r: StatisticsOfSubColumns)
        requires
            self.wf(),
        ensures
            r.wf(),
            r@ == self@,
    {
        let mut out: Vec<(String, SubColumnStatistics)> = Vec::new();
        let mut i: usize = 0;
        while i < self.entries.len()
            invariant
                i <= self.entries@.len(),
                sub_column_pairs(out@) == sub_column_pairs(self.entries@).take(i as int),
            decreases self.entries@.len() - i,
        {
            let key: String = self.entries[i].0.clone();
            let ghost before = out@;
            let c = self.entries[i].1.duplicate();
            out.push((key, c));
            proof {
                assert(out@ == before.push((key, c)));
                assert(sub_column_pairs(out@) =~= sub_column_pairs(before).push(
                    sub_column_pairs(self.entries@)[i as int],
                ));
                assert(sub_column_pairs(out@) =~= sub_column_pairs(self.entries@).take(i as int + 1));
            }
            i += 1;
        }
        proof {
            assert(sub_column_pairs(out@) =~= sub_column_pairs(self.entries@));
        }
        StatisticsOfSubColumns { entries: out }
    }

    /// Whether no path has statistics.
    pub fn is_empty(&self) -> (r: bool)
        ensures
            r == (self@ == Map::<Seq<char>, Summary>::empty()),
    {
        proof {
            let p = sub_column_pairs(self.entries@);
            if p.len() > 0 {
                assert(has_key(p, p[0].0));
                assert(self@.contains_key(p[0].0));
            } else {
                assert(self@ =~= Map::<Seq<char>, Summary>::empty());
            }
        }
        self.entries.len() == 0
    }
}

/// Merges the nested element statistics of many blocks or aggregates into one
/// map: the union of their paths, each with the smallest and the largest
/// non-null value seen for it (`Null` if there was none), and the sums of its
/// unset bits and sizes. Fails exactly when such a sum exceeds `u64::MAX`.
pub fn reduce_block_sub_statistics(stats: &[&StatisticsOfSubColumns]) -> (r: Result<
    StatisticsOfSubColumns,
    StatisticsError,
>)
    requires
        forall|i: int| 0 <= i < stats@.len() ==> (#[trigger] stats@[i]).wf(),
    ensures
        r is Ok <==> fits_map(reduce_maps(sub_column_views(stats@))),
        r matches Ok(m) ==> m.wf() && m@ == reduce_maps(sub_column_views(stats@)),
{
    let ghost views = sub_column_views(stats@);
    proof {
        assert forall|x: int| 0 <= x < views.len() implies nonneg_map(#[trigger] views[x]) by {
            stats@[x].lemma_fits();
        }
    }
    let mut acc: Vec<(String, SubColumnStatistics)> = Vec::new();
    proof {
        assert(views.take(0) =~= Seq::<Map<Seq<char>, Summary>>::empty());
        assert(assoc_view(sub_column_pairs(acc@)) =~= Map::<Seq<char>, Summary>::empty());
    }
    let mut i: usize = 0;
    while i < stats.len()
        invariant
            i <= stats@.len(),
            views == sub_column_views(stats@),
            forall|x: int| 0 <= x < stats@.len() ==> (#[trigger] stats@[x]).wf(),
            forall|x: int| 0 <= x < views.len() ==> nonneg_map(#[trigger] views[x]),
            unique_keys(sub_column_pairs(acc@)),
            assoc_view(sub_column_pairs(acc@)) == reduce_maps(views.take(i as int)),
        decreases stats@.len() - i,
    {
        let m: &StatisticsOfSubColumns = stats[i];
        let ghost done = reduce_maps(views.take(i as int));
        let ghost mp = sub_column_pairs(m.entries@);
        proof {
            assert(assoc_view(mp.take(0)) =~= Map::<Seq<char>, Summary>::empty());
            assert(merge_maps(done, Map::<Seq<char>, Summary>::empty()) =~= done);
        }
        let mut j: usize = 0;
        while j < m.entries.len()
            invariant
                j <= m.entries@.len(),
                i < stats@.len(),
                m == stats@[i as int],
                views == sub_column_views(stats@),
                forall|x: int| 0 <= x < views.len() ==> nonneg_map(#[trigger] views[x]),
                done == reduce_maps(views.take(i as int)),
                mp == sub_column_pairs(m.entries@),
                unique_keys(mp),
                unique_keys(sub_column_pairs(acc@)),
                assoc_view(sub_column_pairs(acc@)) == merge_maps(done, assoc_view(mp.take(j as int))),
            decreases m.entries@.len() - j,
        {
            let key: &String = &m.entries[j].0;
            let ghost id = key@;
            let c: SubColumnStatistics = m.entries[j].1.duplicate();
            let ghost part = assoc_view(mp.take(j as int));
            let ghost cur = sub_column_pairs(acc@);
            proof {
                assert(mp[j as int] == (id, c.summary()));
                lemma_assoc_take(mp, j as int);
                lemma_assoc_push(mp.take(j as int), id, c.summary());
                lemma_merge_maps_insert(done, part, id, c.summary());
            }
            match find_sub_column(&acc, key) {
                Some(x) => {
                    let old_c: &SubColumnStatistics = &acc[x].1;
                    proof {
                        lemma_assoc_index(cur, x as int);
                        assert(cur[x as int] == (id, old_c.summary()));
                        assert(!part.contains_key(id));
                        assert(done.contains_key(id));
                    }
                    let unset = old_c.unset_bits.checked_add(c.unset_bits);
                    let size = old_c.in_memory_size.checked_add(c.in_memory_size);
                    if unset.is_none() || size.is_none() {
                        proof {
                            assert(old_c.unset_bits + c.unset_bits > u64::MAX
                                || old_c.in_memory_size + c.in_memory_size > u64::MAX);
                            let next = merge_maps(done, assoc_view(mp.take(j as int + 1)));
                            assert(next[id] == combine(done[id], c.summary()));
                            lemma_assoc_take(mp, j as int);
                            lemma_assoc_index(mp, j as int);
                            lemma_assoc_index(mp.take(j as int + 1), j as int);
                            assert(mp.take(j as int + 1)[j as int] == mp[j as int]);
                            let whole = merge_maps(done, assoc_view(mp));
                            assert(whole[id] == next[id]);
                            assert(views.take(i as int + 1).drop_last() =~= views.take(i as int));
                            assert(views[i as int] == assoc_view(mp));
                            assert(reduce_maps(views.take(i as int + 1)) == whole);
                            lemma_reduce_maps_prefix(views, i as int + 1);
                            assert(views.take(i as int + 1).len() == i + 1);
                            assert(done[id] == old_c.summary());
                            let w = whole[id];
                            assert(w == combine(old_c.summary(), c.summary()));
                            assert(w.count == old_c.unset_bits + c.unset_bits);
                            assert(w.size == old_c.in_memory_size + c.in_memory_size);
                            assert(w.count > u64::MAX || w.size > u64::MAX);
                            assert(whole.contains_key(id));
                            assert(reduce_maps(views.take(i as int + 1)).contains_key(id));
                            let all = reduce_maps(views);
                            assert(all.contains_key(id));
                            assert(all[id].count > u64::MAX || all[id].size > u64::MAX);
                        }
                        return Err(StatisticsError::Overflow);
                    }
                    let merged = SubColumnStatistics {
                        min: pick_min(&old_c.min, &c.min),
                        max: pick_max(&old_c.max, &c.max),
                        unset_bits: unset.unwrap(),
                        in_memory_size: size.unwrap(),
                    };
                    acc.set(x, (key.clone(), merged));
                    proof {
                        lemma_assoc_update(cur, x as int, merged.summary());
                        assert(sub_column_pairs(acc@) =~= cur.update(x as int, (id, merged.summary())));
                    }
                },
                None => {
                    acc.push((key.clone(), c));
                    proof {
                        assert(!assoc_view(cur).contains_key(id));
                        assert(!done.contains_key(id));
                        lemma_assoc_push(cur, id, c.summary());
                        assert(sub_column_pairs(acc@) =~= cur.push((id, c.summary())));
                    }
                },
            }
            j += 1;
        }
        proof {
            assert(mp.take(j as int) =~= mp);
            assert(views.take(i as int + 1).drop_last() =~= views.take(i as int));
            assert(views[i as int] == assoc_view(mp));
        }
        i += 1;
    }
    proof {
        assert(views.take(i as int) =~= views);
        lemma_sub_pairs_fit(acc@);
    }
    Ok(StatisticsOfSubColumns { entries: acc })
}

} // verus!
