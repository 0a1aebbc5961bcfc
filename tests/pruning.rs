use parquet::bloom_filter::Sbbf;

use swh_provenance::columnar::RowRange;
use swh_provenance::ef_index::{build_ef_index, dedup_consecutive, IndexBuildError};
use swh_provenance::keys::{statistics_mask, IndexKey, Sha1Git, StatisticsError, ValueRange};
use swh_provenance::scan::{
    keys_in_file, page_row_ranges, plan_file_scan, select_row_groups, FileLayout, PageInfo,
    RowGroupInfo, ScanError, ScanInitMetrics,
};

fn range(min: u64, max: u64) -> Option<ValueRange> {
    Some(ValueRange { min, max })
}

fn group(num_rows: u64, stats: Option<ValueRange>, pages: Vec<(u64, Option<ValueRange>)>) -> RowGroupInfo {
    RowGroupInfo {
        num_rows,
        stats,
        pages: pages
            .into_iter()
            .map(|(first_row_index, stats)| PageInfo { first_row_index, stats })
            .collect(),
    }
}

/// Two row groups of 10 rows, two pages each: ids 0..=9 and 20..=29.
fn two_group_layout() -> FileLayout {
    FileLayout {
        row_groups: vec![
            group(10, range(0, 9), vec![(0, range(0, 4)), (5, range(5, 9))]),
            group(10, range(20, 29), vec![(0, range(20, 24)), (5, range(25, 29))]),
        ],
        has_page_index: true,
    }
}

#[test]
fn statistics_mask_keeps_overlapping_blocks() {
    let stats = vec![range(0, 9), range(10, 19), None, range(30, 39)];
    let mask = statistics_mask(&vec![12, 15], &stats).unwrap();
    assert_eq!(mask, vec![false, true, true, false]);
}

#[test]
fn statistics_mask_refuses_empty_keys() {
    assert_eq!(statistics_mask(&vec![], &vec![range(0, 1)]), Err(StatisticsError::EmptyKeys));
}

#[test]
fn boundary_keys_select_row_groups() {
    let stats = vec![range(10, 20), range(21, 30)];
    assert_eq!(u64::check_column_chunk(&vec![10], &stats), Ok(Some(vec![true, false])));
    assert_eq!(u64::check_column_chunk(&vec![20], &stats), Ok(Some(vec![true, false])));
    assert_eq!(u64::check_column_chunk(&vec![30], &stats), Ok(Some(vec![false, true])));
}

#[test]
fn single_value_page_is_selected_and_disjoint_peers_pruned() {
    let pages = vec![range(1, 4), range(7, 7), range(8, 12)];
    assert_eq!(u64::check_page_index(&vec![7], &pages), Ok(Some(vec![false, true, false])));
}

#[test]
fn hashes_cannot_prune_by_statistics() {
    let keys = vec![Sha1Git([1; 20])];
    assert_eq!(Sha1Git::check_column_chunk(&keys, &vec![range(0, 1)]), Ok(None));
    assert_eq!(Sha1Git::check_page_index(&keys, &vec![range(0, 1)]), Ok(None));
    assert_eq!(keys[0].as_ef_key(), None);
    assert_eq!(7u64.as_ef_key(), Some(7));
}

#[test]
fn dedup_drops_repeats() {
    assert_eq!(dedup_consecutive(&vec![1, 1, 2, 2, 2, 3, 1]), vec![1, 2, 3, 1]);
    assert_eq!(dedup_consecutive(&vec![]), Vec::<usize>::new());
}

#[test]
fn index_holds_distinct_values_in_order() {
    let index = build_ef_index(&vec![vec![9, 3, 3, 5], vec![7, 1, 9]]).unwrap();
    for v in [1usize, 3, 5, 7, 9] {
        assert!(index.contains(v), "{v} missing");
    }
    for v in [0usize, 2, 4, 6, 8, 10] {
        assert!(!index.contains(v), "{v} present");
    }
    assert_eq!(index.index_of(1), Some(0));
    assert_eq!(index.index_of(5), Some(2));
    assert_eq!(index.index_of(9), Some(4));
    assert_eq!(index.index_of(4), None);
}

#[test]
fn index_of_empty_column_is_empty() {
    let index = build_ef_index(&vec![]).unwrap();
    assert!(!index.contains(0));
    assert_eq!(index.index_of(0), None);
}

#[test]
fn index_build_error_variants_compare() {
    assert_ne!(IndexBuildError::ValueOverflow, IndexBuildError::TooManyValues);
}

#[test]
fn file_index_filters_keys() {
    let index = build_ef_index(&vec![vec![2, 4, 6]]).unwrap();
    assert_eq!(keys_in_file(&vec![1u64, 2, 3, 6], Some(&index)), vec![2, 6]);
    assert_eq!(keys_in_file(&vec![1u64, 3], Some(&index)), Vec::<u64>::new());
}

#[test]
fn missing_file_index_keeps_every_key() {
    assert_eq!(keys_in_file(&vec![1u64, 3], None), vec![1, 3]);
    let layout = two_group_layout();
    let plan = plan_file_scan(&vec![3u64], None, &layout, &vec![]).unwrap();
    assert_eq!(plan.keys, vec![3]);
    assert_eq!(plan.row_groups, vec![0]);
    assert_eq!(plan.metrics.files_pruned_by_ef_index, 0);
    assert_eq!(plan.metrics.files_selected_by_ef_index, 0);
}

#[test]
fn file_pruned_by_index_reads_nothing() {
    let index = build_ef_index(&vec![vec![2, 4, 6]]).unwrap();
    let layout = two_group_layout();
    let plan = plan_file_scan(&vec![3u64], Some(&index), &layout, &vec![]).unwrap();
    assert!(plan.keys.is_empty());
    assert!(plan.row_groups.is_empty());
    assert!(plan.selection.is_none());
    assert_eq!(plan.metrics.files_pruned_by_ef_index, 1);
}

#[test]
fn empty_keys_read_nothing() {
    let layout = two_group_layout();
    let plan = plan_file_scan(&Vec::<u64>::new(), None, &layout, &vec![]).unwrap();
    assert!(plan.row_groups.is_empty());
    assert!(plan.selection.is_none());
}

#[test]
fn bloom_filters_prune_row_groups() {
    let mut filter = Sbbf::new_with_ndv_fpp(16, 0.0001).unwrap();
    filter.insert(&3u64);
    let layout = FileLayout {
        row_groups: vec![group(10, range(0, 9), vec![]), group(10, range(0, 9), vec![])],
        has_page_index: false,
    };
    let blooms = vec![Some(filter), None];
    let (groups, metrics) = select_row_groups(&vec![5u64], &layout, &blooms).unwrap();
    assert_eq!(groups, vec![1]);
    assert_eq!(metrics.row_groups_pruned_by_bloom_filters, 1);
    assert_eq!(metrics.row_groups_selected_by_statistics, 2);
    let (groups, metrics) = select_row_groups(&vec![3u64], &layout, &blooms).unwrap();
    assert_eq!(groups, vec![0, 1]);
    assert_eq!(metrics.row_groups_selected_by_bloom_filters, 1);
}

#[test]
fn bloom_filters_prune_hash_keys() {
    let mut filter = Sbbf::new_with_ndv_fpp(16, 0.0001).unwrap();
    filter.insert(&[7u8; 20][..]);
    let layout = FileLayout {
        row_groups: vec![group(4, None, vec![]), group(4, None, vec![])],
        has_page_index: false,
    };
    let blooms = vec![None, Some(filter)];
    let (groups, _) = select_row_groups(&vec![Sha1Git([9; 20])], &layout, &blooms).unwrap();
    assert_eq!(groups, vec![0]);
    let (groups, _) = select_row_groups(&vec![Sha1Git([7; 20])], &layout, &blooms).unwrap();
    assert_eq!(groups, vec![0, 1]);
}

#[test]
fn selected_pages_become_row_ranges() {
    let layout = two_group_layout();
    let (ranges, total) = page_row_ranges(&vec![3u64, 27], &layout, &vec![0, 1]).unwrap();
    assert_eq!(total, 20);
    assert_eq!(
        ranges,
        vec![
            RowRange { start: 0, end: 5 },
            RowRange { start: 5, end: 10 },
            RowRange { start: 10, end: 15 },
            RowRange { start: 15, end: 20 },
        ]
    );
    let (ranges, _) = page_row_ranges(&vec![3u64, 5], &layout, &vec![0, 1]).unwrap();
    assert_eq!(ranges, vec![RowRange { start: 0, end: 5 }, RowRange { start: 5, end: 10 }]);
    let (ranges, total) = page_row_ranges(&vec![27u64], &layout, &vec![1]).unwrap();
    assert_eq!(total, 10);
    assert_eq!(ranges, vec![RowRange { start: 5, end: 10 }]);
}

#[test]
fn missing_page_index_reads_whole_row_groups() {
    let mut layout = two_group_layout();
    layout.has_page_index = false;
    let (ranges, total) = page_row_ranges(&vec![3u64], &layout, &vec![0, 1]).unwrap();
    assert_eq!(total, 20);
    assert_eq!(ranges, vec![RowRange { start: 0, end: 20 }]);
}

#[test]
fn unordered_pages_are_refused() {
    let layout = FileLayout {
        row_groups: vec![group(10, range(0, 9), vec![(5, range(0, 4)), (2, range(5, 9))])],
        has_page_index: true,
    };
    assert_eq!(page_row_ranges(&vec![3u64], &layout, &vec![0]), Err(ScanError::InvalidPageIndex));
}

#[test]
fn overflowing_row_counts_are_refused() {
    let layout = FileLayout {
        row_groups: vec![group(u64::MAX, None, vec![]), group(u64::MAX, None, vec![])],
        has_page_index: false,
    };
    assert_eq!(page_row_ranges(&vec![3u64], &layout, &vec![0, 1]), Err(ScanError::RowCountOverflow));
}

#[test]
fn statistics_errors_surface_in_scan_errors() {
    assert_eq!(
        ScanError::Statistics(StatisticsError::EmptyKeys),
        ScanError::Statistics(StatisticsError::EmptyKeys)
    );
}

#[test]
fn plan_counts_rows_by_page_index() {
    let layout = two_group_layout();
    let plan = plan_file_scan(&vec![27u64, 28], None, &layout, &vec![]).unwrap();
    assert_eq!(plan.row_groups, vec![1]);
    assert_eq!(plan.metrics.row_groups_pruned_by_statistics, 1);
    assert_eq!(plan.metrics.row_groups_selected_by_statistics, 1);
    assert_eq!(plan.metrics.rows_selected_by_page_index, 5);
    assert_eq!(plan.metrics.rows_pruned_by_page_index, 5);
    let selection = plan.selection.unwrap();
    assert_eq!(selection.row_count(), 5);
    assert_eq!(selection.skipped_row_count(), 5);
}

#[test]
fn plan_with_index_counts_selected_file() {
    let index = build_ef_index(&vec![vec![0, 3, 27]]).unwrap();
    let layout = two_group_layout();
    let plan = plan_file_scan(&vec![3u64, 40], Some(&index), &layout, &vec![]).unwrap();
    assert_eq!(plan.keys, vec![3]);
    assert_eq!(plan.metrics.files_selected_by_ef_index, 1);
    assert_eq!(plan.metrics.rows_selected_by_page_index, 5);
    assert_eq!(plan.metrics.rows_pruned_by_page_index, 5);
}

#[test]
fn metrics_add_up_and_saturate() {
    let mut a = ScanInitMetrics::new();
    a.files_pruned_by_ef_index = 2;
    a.rows_selected_by_page_index = u64::MAX - 1;
    let mut b = ScanInitMetrics::new();
    b.files_pruned_by_ef_index = 3;
    b.rows_selected_by_page_index = 5;
    let c = a.sum(&b);
    assert_eq!(c.files_pruned_by_ef_index, 5);
    assert_eq!(c.rows_selected_by_page_index, u64::MAX);
    assert_eq!(c.rows_pruned_by_page_index, 0);
}

#[test]
fn filter_without_blocks_counts_as_none() {
    let empty = Sbbf::new(&[]);
    assert_eq!(empty.num_blocks(), 0);
    let layout = FileLayout {
        row_groups: vec![group(10, range(0, 9), vec![]), group(10, range(0, 9), vec![])],
        has_page_index: false,
    };
    let blooms = vec![Some(empty), None];
    let (groups, metrics) = select_row_groups(&vec![5u64], &layout, &blooms).unwrap();
    assert_eq!(groups, vec![0, 1]);
    assert_eq!(metrics.row_groups_selected_by_bloom_filters, 0);
    assert_eq!(metrics.row_groups_pruned_by_bloom_filters, 0);
}

#[test]
fn plan_counts_row_groups_by_stage() {
    let mut filter = Sbbf::new_with_ndv_fpp(16, 0.0001).unwrap();
    filter.insert(&40u64);
    let layout = FileLayout {
        row_groups: vec![
            group(10, range(0, 9), vec![]),
            group(10, range(20, 29), vec![]),
            group(10, range(3, 30), vec![]),
        ],
        has_page_index: false,
    };
    let plan = plan_file_scan(&vec![5u64, 25], None, &layout, &vec![None, None, Some(filter)]).unwrap();
    assert_eq!(plan.row_groups, vec![0, 1]);
    assert_eq!(plan.metrics.row_groups_selected_by_statistics, 3);
    assert_eq!(plan.metrics.row_groups_pruned_by_statistics, 0);
    assert_eq!(plan.metrics.row_groups_pruned_by_bloom_filters, 1);
    assert_eq!(plan.metrics.row_groups_selected_by_bloom_filters, 0);
    assert_eq!(plan.metrics.rows_selected_by_page_index, 20);
    assert_eq!(plan.metrics.rows_pruned_by_page_index, 0);
}

#[test]
fn plan_reading_nothing_counts_no_rows() {
    let layout = two_group_layout();
    let plan = plan_file_scan(&vec![15u64], None, &layout, &vec![]).unwrap();
    assert!(plan.selection.is_none());
    assert_eq!(plan.metrics.row_groups_pruned_by_statistics, 2);
    assert_eq!(plan.metrics.rows_selected_by_page_index, 0);
    assert_eq!(plan.metrics.rows_pruned_by_page_index, 0);
}
