use fuse_statistics::column_stats::{reduce_block_statistics, ColumnStatistics, StatisticsOfColumns};
use fuse_statistics::error::StatisticsError;
use fuse_statistics::statistics::{
    merge_statistics, reduce_block_metas, reduce_statistics, BlockMeta, Statistics,
};
use fuse_statistics::sub_column_stats::{
    reduce_block_sub_statistics, StatisticsOfSubColumns, SubColumnStatistics,
};
use fuse_statistics::value::DataValue;

fn col(min: DataValue, max: DataValue, null_count: u64, in_memory_size: u64) -> ColumnStatistics {
    ColumnStatistics { min, max, null_count, in_memory_size }
}

fn sub(min: DataValue, max: DataValue, unset_bits: u64, in_memory_size: u64) -> SubColumnStatistics {
    SubColumnStatistics { min, max, unset_bits, in_memory_size }
}

fn cols(entries: &[(u32, ColumnStatistics)]) -> StatisticsOfColumns {
    let mut m = StatisticsOfColumns::new();
    for (id, c) in entries {
        m.insert(*id, c.clone());
    }
    m
}

fn subs(entries: &[(&str, SubColumnStatistics)]) -> StatisticsOfSubColumns {
    let mut m = StatisticsOfSubColumns::new();
    for (k, c) in entries {
        m.insert(k.to_string(), c.clone());
    }
    m
}

fn stats(
    row_count: u64,
    block_count: u64,
    uncompressed_byte_size: u64,
    compressed_byte_size: u64,
    col_stats: StatisticsOfColumns,
    sub_col_stats: Option<StatisticsOfSubColumns>,
) -> Statistics {
    Statistics {
        row_count,
        block_count,
        uncompressed_byte_size,
        compressed_byte_size,
        col_stats,
        sub_col_stats,
    }
}

fn cols_equal(a: &StatisticsOfColumns, b: &StatisticsOfColumns, ids: &[u32]) -> bool {
    ids.iter().all(|id| a.get(*id) == b.get(*id))
}

fn subs_equal(a: &StatisticsOfSubColumns, b: &StatisticsOfSubColumns, keys: &[&str]) -> bool {
    keys.iter().all(|k| a.get(&k.to_string()) == b.get(&k.to_string()))
}

fn same_stats(a: &Statistics, b: &Statistics, ids: &[u32], keys: &[&str]) -> bool {
    a.row_count == b.row_count
        && a.block_count == b.block_count
        && a.uncompressed_byte_size == b.uncompressed_byte_size
        && a.compressed_byte_size == b.compressed_byte_size
        && cols_equal(&a.col_stats, &b.col_stats, ids)
        && match (&a.sub_col_stats, &b.sub_col_stats) {
            (None, None) => true,
            (Some(x), Some(y)) => subs_equal(x, y, keys),
            _ => false,
        }
}

fn sample_a() -> Statistics {
    stats(
        10,
        1,
        1000,
        400,
        cols(&[
            (1, col(DataValue::Int64(1), DataValue::Int64(5), 0, 100)),
            (2, col(DataValue::Null, DataValue::Null, 10, 8)),
        ]),
        None,
    )
}

fn sample_b() -> Statistics {
    stats(
        20,
        2,
        3000,
        900,
        cols(&[
            (1, col(DataValue::Int64(-4), DataValue::Int64(3), 2, 150)),
            (3, col(DataValue::Boolean(false), DataValue::Boolean(true), 1, 5)),
        ]),
        Some(subs(&[("a.b", sub(DataValue::UInt64(7), DataValue::UInt64(9), 3, 12))])),
    )
}

fn sample_c() -> Statistics {
    stats(
        5,
        1,
        700,
        200,
        cols(&[
            (1, col(DataValue::Int64(0), DataValue::Int64(42), 1, 60)),
            (2, col(DataValue::Int64(8), DataValue::Int64(8), 0, 16)),
        ]),
        Some(subs(&[
            ("a.b", sub(DataValue::UInt64(2), DataValue::UInt64(4), 1, 6)),
            ("c", sub(DataValue::Null, DataValue::Null, 4, 0)),
        ])),
    )
}

const IDS: [u32; 4] = [1, 2, 3, 4];
const KEYS: [&str; 3] = ["a.b", "c", "d"];

#[test]
fn merging_two_blocks_of_one_column() {
    let a = cols(&[(7, col(DataValue::Int64(1), DataValue::Int64(5), 0, 100))]);
    let b = cols(&[(7, col(DataValue::Int64(3), DataValue::Int64(10), 2, 150))]);
    let r = reduce_block_statistics(&[&a, &b]).unwrap();
    assert_eq!(r.get(7), Some(col(DataValue::Int64(1), DataValue::Int64(10), 2, 250)));
}

#[test]
fn block_metas_with_disjoint_columns() {
    let c1 = col(DataValue::Int64(1), DataValue::Int64(2), 0, 10);
    let c2 = col(DataValue::UInt64(3), DataValue::UInt64(30), 1, 20);
    let metas = vec![
        BlockMeta { row_count: 5, block_size: 100, file_size: 40, col_stats: cols(&[(1, c1.clone())]), sub_col_stats: None },
        BlockMeta { row_count: 7, block_size: 200, file_size: 60, col_stats: cols(&[(2, c2.clone())]), sub_col_stats: None },
    ];
    let s = reduce_block_metas(&metas).unwrap();
    assert_eq!(s.row_count, 12);
    assert_eq!(s.block_count, 2);
    assert_eq!(s.uncompressed_byte_size, 300);
    assert_eq!(s.compressed_byte_size, 100);
    assert_eq!(s.col_stats.get(1), Some(c1));
    assert_eq!(s.col_stats.get(2), Some(c2));
    assert_eq!(s.col_stats.get(3), None);
    assert!(s.sub_col_stats.is_none());
}

#[test]
fn reduce_statistics_of_nothing_is_identity() {
    let s = reduce_statistics(&[]).unwrap();
    assert_eq!(s.row_count, 0);
    assert_eq!(s.block_count, 0);
    assert_eq!(s.uncompressed_byte_size, 0);
    assert_eq!(s.compressed_byte_size, 0);
    assert!(s.col_stats.is_empty());
    assert!(s.sub_col_stats.is_none());
}

#[test]
fn merge_passes_present_sub_stats_through() {
    let l = stats(1, 1, 1, 1, cols(&[]), None);
    let entry = sub(DataValue::Int64(1), DataValue::Int64(2), 3, 4);
    let r = stats(2, 1, 2, 2, cols(&[]), Some(subs(&[("a.b", entry.clone())])));
    let m = merge_statistics(&l, &r).unwrap();
    let s = m.sub_col_stats.unwrap();
    assert_eq!(s.get(&"a.b".to_string()), Some(entry.clone()));
    assert_eq!(s.get(&"a".to_string()), None);
    let m2 = merge_statistics(&r, &l).unwrap();
    assert_eq!(m2.sub_col_stats.unwrap().get(&"a.b".to_string()), Some(entry));
}

#[test]
fn all_null_extremes_stay_null() {
    let a = cols(&[(1, col(DataValue::Null, DataValue::Null, 4, 10))]);
    let b = cols(&[(1, col(DataValue::Null, DataValue::Null, 6, 20))]);
    let c = cols(&[(2, col(DataValue::Int64(1), DataValue::Int64(1), 0, 1))]);
    let r = reduce_block_statistics(&[&a, &b, &c]).unwrap();
    assert_eq!(r.get(1), Some(col(DataValue::Null, DataValue::Null, 10, 30)));
}

#[test]
fn null_extremes_are_skipped() {
    let a = cols(&[(1, col(DataValue::Null, DataValue::Null, 4, 10))]);
    let b = cols(&[(1, col(DataValue::Int64(-3), DataValue::Int64(9), 0, 20))]);
    let r = reduce_block_statistics(&[&a, &b]).unwrap();
    assert_eq!(r.get(1), Some(col(DataValue::Int64(-3), DataValue::Int64(9), 4, 30)));
    let r2 = reduce_block_statistics(&[&b, &a]).unwrap();
    assert_eq!(r2.get(1), r.get(1));
}

#[test]
fn reduce_block_statistics_of_nothing_is_empty() {
    let r = reduce_block_statistics(&[]).unwrap();
    assert!(r.is_empty());
}

#[test]
fn sub_statistics_reduce_by_path() {
    let a = subs(&[("x", sub(DataValue::UInt64(5), DataValue::UInt64(6), 1, 10))]);
    let b = subs(&[
        ("x", sub(DataValue::UInt64(2), DataValue::UInt64(3), 2, 20)),
        ("y", sub(DataValue::Null, DataValue::Null, 7, 0)),
    ]);
    let r = reduce_block_sub_statistics(&[&a, &b]).unwrap();
    assert_eq!(r.get(&"x".to_string()), Some(sub(DataValue::UInt64(2), DataValue::UInt64(6), 3, 30)));
    assert_eq!(r.get(&"y".to_string()), Some(sub(DataValue::Null, DataValue::Null, 7, 0)));
    assert_eq!(r.get(&"z".to_string()), None);
}

#[test]
fn values_order_by_kind_then_payload() {
    let a = cols(&[(1, col(DataValue::UInt64(1), DataValue::Boolean(true), 0, 0))]);
    let b = cols(&[(1, col(DataValue::Int64(100), DataValue::Int64(-100), 0, 0))]);
    let r = reduce_block_statistics(&[&a, &b]).unwrap();
    assert_eq!(r.get(1), Some(col(DataValue::Int64(100), DataValue::Int64(-100), 0, 0)));
    let c = cols(&[(1, col(DataValue::Boolean(false), DataValue::UInt64(0), 0, 0))]);
    let r2 = reduce_block_statistics(&[&a, &b, &c]).unwrap();
    assert_eq!(r2.get(1), Some(col(DataValue::Boolean(false), DataValue::UInt64(0), 0, 0)));
}

#[test]
fn merge_is_associative_and_commutative_on_samples() {
    let (a, b, c) = (sample_a(), sample_b(), sample_c());
    let ab = merge_statistics(&a, &b).unwrap();
    let ab_c = merge_statistics(&ab, &c).unwrap();
    let bc = merge_statistics(&b, &c).unwrap();
    let a_bc = merge_statistics(&a, &bc).unwrap();
    assert!(same_stats(&ab_c, &a_bc, &IDS, &KEYS));
    let ba = merge_statistics(&b, &a).unwrap();
    assert!(same_stats(&ab, &ba, &IDS, &KEYS));
    assert_eq!(ab_c.row_count, 35);
    assert_eq!(ab_c.block_count, 4);
    assert_eq!(
        ab_c.col_stats.get(1),
        Some(col(DataValue::Int64(-4), DataValue::Int64(42), 3, 310))
    );
    assert_eq!(
        ab_c.col_stats.get(2),
        Some(col(DataValue::Int64(8), DataValue::Int64(8), 10, 24))
    );
    let s = ab_c.sub_col_stats.unwrap();
    assert_eq!(s.get(&"a.b".to_string()), Some(sub(DataValue::UInt64(2), DataValue::UInt64(9), 4, 18)));
}

#[test]
fn merge_with_identity_changes_nothing() {
    let b = sample_b();
    let m = merge_statistics(&Statistics::default(), &b).unwrap();
    assert!(same_stats(&m, &b, &IDS, &KEYS));
    let m2 = merge_statistics(&b, &Statistics::default()).unwrap();
    assert!(same_stats(&m2, &b, &IDS, &KEYS));
}

#[test]
fn fold_equals_grouped_merges() {
    let (a, b, c) = (sample_a(), sample_b(), sample_c());
    let folded = reduce_statistics(&[sample_a(), sample_b(), sample_c()]).unwrap();
    let left = merge_statistics(&Statistics::default(), &a).unwrap();
    let right = merge_statistics(&b, &c).unwrap();
    let grouped = merge_statistics(&left, &right).unwrap();
    assert!(same_stats(&folded, &grouped, &IDS, &KEYS));
    let reordered = reduce_statistics(&[sample_c(), sample_a(), sample_b()]).unwrap();
    assert!(same_stats(&folded, &reordered, &IDS, &KEYS));
}

#[test]
fn sub_stats_absent_only_when_both_absent() {
    let a = sample_a();
    let m = merge_statistics(&a, &sample_a()).unwrap();
    assert!(m.sub_col_stats.is_none());
    let m2 = merge_statistics(&sample_b(), &sample_c()).unwrap();
    assert!(m2.sub_col_stats.is_some());
}

#[test]
fn present_but_empty_sub_stats_stay_present() {
    let l = stats(1, 1, 1, 1, cols(&[]), Some(subs(&[])));
    let r = stats(1, 1, 1, 1, cols(&[]), None);
    let m = merge_statistics(&l, &r).unwrap();
    assert!(m.sub_col_stats.unwrap().is_empty());
}

#[test]
fn block_metas_reduce_present_sub_stats_only() {
    let metas = vec![
        BlockMeta {
            row_count: 1,
            block_size: 1,
            file_size: 1,
            col_stats: cols(&[]),
            sub_col_stats: Some(subs(&[("p", sub(DataValue::Int64(4), DataValue::Int64(4), 0, 3))])),
        },
        BlockMeta { row_count: 2, block_size: 2, file_size: 2, col_stats: cols(&[]), sub_col_stats: None },
        BlockMeta {
            row_count: 3,
            block_size: 3,
            file_size: 3,
            col_stats: cols(&[]),
            sub_col_stats: Some(subs(&[("p", sub(DataValue::Int64(-1), DataValue::Null, 2, 5))])),
        },
    ];
    let s = reduce_block_metas(&metas).unwrap();
    assert_eq!(s.block_count, 3);
    assert_eq!(s.row_count, 6);
    assert_eq!(
        s.sub_col_stats.unwrap().get(&"p".to_string()),
        Some(sub(DataValue::Int64(-1), DataValue::Int64(4), 2, 8))
    );
}

#[test]
fn block_metas_of_nothing() {
    let s = reduce_block_metas(&[]).unwrap();
    assert_eq!(s.row_count, 0);
    assert_eq!(s.block_count, 0);
    assert!(s.col_stats.is_empty());
    assert!(s.sub_col_stats.is_none());
}

#[test]
fn count_overflow_is_an_error() {
    let l = stats(u64::MAX, 1, 1, 1, cols(&[]), None);
    let r = stats(1, 1, 1, 1, cols(&[]), None);
    assert_eq!(merge_statistics(&l, &r).err(), Some(StatisticsError::Overflow));
    let a = cols(&[(1, col(DataValue::Null, DataValue::Null, u64::MAX, 0))]);
    let b = cols(&[(1, col(DataValue::Null, DataValue::Null, 1, 0))]);
    assert_eq!(reduce_block_statistics(&[&a, &b]).err(), Some(StatisticsError::Overflow));
    let metas = vec![
        BlockMeta { row_count: 1, block_size: u64::MAX, file_size: 1, col_stats: cols(&[]), sub_col_stats: None },
        BlockMeta { row_count: 1, block_size: 1, file_size: 1, col_stats: cols(&[]), sub_col_stats: None },
    ];
    assert_eq!(reduce_block_metas(&metas).err(), Some(StatisticsError::Overflow));
    let x = subs(&[("k", sub(DataValue::Null, DataValue::Null, 0, u64::MAX))]);
    let y = subs(&[("k", sub(DataValue::Null, DataValue::Null, 0, 1))]);
    assert_eq!(reduce_block_sub_statistics(&[&x, &y]).err(), Some(StatisticsError::Overflow));
}

#[test]
fn insert_replaces_earlier_statistics() {
    let mut m = StatisticsOfColumns::new();
    m.insert(3, col(DataValue::Int64(1), DataValue::Int64(1), 0, 1));
    m.insert(3, col(DataValue::Int64(2), DataValue::Int64(2), 0, 2));
    assert_eq!(m.get(3), Some(col(DataValue::Int64(2), DataValue::Int64(2), 0, 2)));
    assert!(!m.is_empty());
}

fn text(s: &str) -> DataValue {
    DataValue::String(s.as_bytes().to_vec())
}

#[test]
fn strings_order_lexicographically() {
    let a = cols(&[(1, col(text("banana"), text("cherry"), 0, 10))]);
    let b = cols(&[(1, col(text("apple"), text("cherry pie"), 1, 20))]);
    let c = cols(&[(1, col(text("app"), text("b"), 0, 5))]);
    let r = reduce_block_statistics(&[&a, &b, &c]).unwrap();
    assert_eq!(r.get(1), Some(col(text("app"), text("cherry pie"), 1, 35)));
}

#[test]
fn strings_order_after_numbers() {
    let a = cols(&[(1, col(text(""), text(""), 0, 0))]);
    let b = cols(&[(1, col(DataValue::UInt64(u64::MAX), DataValue::Int64(i64::MIN), 0, 0))]);
    let r = reduce_block_statistics(&[&a, &b]).unwrap();
    assert_eq!(r.get(1), Some(col(DataValue::UInt64(u64::MAX), text(""), 0, 0)));
}
