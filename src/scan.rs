//! Planning a keyed scan of one file: which keys may be in it, which row
//! groups and which rows of them to read.

use vstd::prelude::*;

use parquet::arrow::arrow_reader::RowSelection;
use parquet::bloom_filter::Sbbf;

use crate::columnar::{
    bloom_block_count, bloom_blocks, bloom_ids, in_ranges, lemma_count_split, ranges_mask, ranges_ordered, selected_row_count,
    selection_from_ranges, selection_mask, skipped_row_count, RowRange,
};
use crate::ef_index::{ef_values, EfIndexValues};
use crate::keys::{
    law_statistics_keep_blocks_holding_keys, overlap_mask, IndexKey, StatisticsError, ValueRange,
};

verus! {

/// A page of the key column: the index of its first row within its row
/// group, and its `[min, max]` statistics when the page index has them.
#[derive(Clone, Copy, Debug, PartialEq, Eq, Structural)]
pub struct PageInfo {
    pub first_row_index: u64,
    pub stats: Option<ValueRange>,
}

/// A row group: its number of rows, the `[min, max]` statistics of its key
/// column when the file has them, and the pages of the key column.
#[derive(Clone, Debug)]
pub struct RowGroupInfo {
    pub num_rows: u64,
    pub stats: Option<ValueRange>,
    pub pages: Vec<PageInfo>,
}

/// What the pruning stages read of a file's metadata.
#[derive(Clone, Debug)]
pub struct FileLayout {
    pub row_groups: Vec<RowGroupInfo>,
    /// Whether the file has a page index for the key column.
    pub has_page_index: bool,
}

/// Counters of the pruning stages, for one file or summed over files.
#[derive(Clone, Copy, Debug, PartialEq, Eq, Structural)]
pub struct ScanInitMetrics {
    pub files_pruned_by_ef_index: u64,
    pub files_selected_by_ef_index: u64,
    pub row_groups_pruned_by_statistics: u64,
    pub row_groups_selected_by_statistics: u64,
    pub row_groups_pruned_by_bloom_filters: u64,
    pub row_groups_selected_by_bloom_filters: u64,
    pub rows_pruned_by_page_index: u64,
    pub rows_selected_by_page_index: u64,
}

/// Why a scan could not be planned.
#[derive(Clone, Copy, Debug, PartialEq, Eq, Structural)]
pub enum ScanError {
    /// The statistics check was given no keys.
    Statistics(StatisticsError),
    /// The pages of a selected row group do not start at increasing rows
    /// within the row group.
    InvalidPageIndex,
    /// The selected row groups hold more rows than `usize` can count.
    RowCountOverflow,
}

impl ScanInitMetrics {
    /// All counters at zero.
    pub fn new() -> (r: ScanInitMetrics)
        ensures
            r == ScanInitMetrics::zero(),
    {
        ScanInitMetrics {
            files_pruned_by_ef_index: 0,
            files_selected_by_ef_index: 0,
            row_groups_pruned_by_statistics: 0,
            row_groups_selected_by_statistics: 0,
            row_groups_pruned_by_bloom_filters: 0,
            row_groups_selected_by_bloom_filters: 0,
            rows_pruned_by_page_index: 0,
            rows_selected_by_page_index: 0,
        }
    }

    pub open spec fn zero() -> ScanInitMetrics {
        ScanInitMetrics {
            files_pruned_by_ef_index: 0,
            files_selected_by_ef_index: 0,
            row_groups_pruned_by_statistics: 0,
            row_groups_selected_by_statistics: 0,
            row_groups_pruned_by_bloom_filters: 0,
            row_groups_selected_by_bloom_filters: 0,
            rows_pruned_by_page_index: 0,
            rows_selected_by_page_index: 0,
        }
    }

    /// The counters of two scans added up, each saturating at `u64::MAX`.
    pub open spec fn sum_spec(self, o: ScanInitMetrics) -> ScanInitMetrics {
        ScanInitMetrics {
            files_pruned_by_ef_index: sat_add(self.files_pruned_by_ef_index, o.files_pruned_by_ef_index),
            files_selected_by_ef_index: sat_add(self.files_selected_by_ef_index, o.files_selected_by_ef_index),
            row_groups_pruned_by_statistics: sat_add(self.row_groups_pruned_by_statistics, o.row_groups_pruned_by_statistics),
            row_groups_selected_by_statistics: sat_add(self.row_groups_selected_by_statistics, o.row_groups_selected_by_statistics),
            row_groups_pruned_by_bloom_filters: sat_add(self.row_groups_pruned_by_bloom_filters, o.row_groups_pruned_by_bloom_filters),
            row_groups_selected_by_bloom_filters: sat_add(self.row_groups_selected_by_bloom_filters, o.row_groups_selected_by_bloom_filters),
            rows_pruned_by_page_index: sat_add(self.rows_pruned_by_page_index, o.rows_pruned_by_page_index),
            rows_selected_by_page_index: sat_add(self.rows_selected_by_page_index, o.rows_selected_by_page_index),
        }
    }

    /// Adds up the counters of two scans.
    pub fn sum(&self, o: &ScanInitMetrics) -> (r: ScanInitMetrics)
        ensures
            r == self.sum_spec(*o),
    {
        ScanInitMetrics {
            files_pruned_by_ef_index: self.files_pruned_by_ef_index.saturating_add(o.files_pruned_by_ef_index),
            files_selected_by_ef_index: self.files_selected_by_ef_index.saturating_add(o.files_selected_by_ef_index),
            row_groups_pruned_by_statistics: self.row_groups_pruned_by_statistics.saturating_add(o.row_groups_pruned_by_statistics),
            row_groups_selected_by_statistics: self.row_groups_selected_by_statistics.saturating_add(o.row_groups_selected_by_statistics),
            row_groups_pruned_by_bloom_filters: self.row_groups_pruned_by_bloom_filters.saturating_add(o.row_groups_pruned_by_bloom_filters),
            row_groups_selected_by_bloom_filters: self.row_groups_selected_by_bloom_filters.saturating_add(o.row_groups_selected_by_bloom_filters),
            rows_pruned_by_page_index: self.rows_pruned_by_page_index.saturating_add(o.rows_pruned_by_page_index),
            rows_selected_by_page_index: self.rows_selected_by_page_index.saturating_add(o.rows_selected_by_page_index),
        }
    }
}

/// `a + b`, or `u64::MAX` when that overflows.
pub open spec fn sat_add(a: u64, b: u64) -> u64 {
    if a + b > u64::MAX { u64::MAX } else { (a + b) as u64 }
}

/// Whether the file-level index lets `key` through: keys that the index
/// cannot hold always pass.
pub open spec fn ef_keeps<K: IndexKey>(values: Seq<usize>, key: K) -> bool {
    match key.ef_key_spec() {
        None => true,
        Some(v) => values.contains(v),
    }
}

/// The keys, in order, that the file-level index lets through.
pub open spec fn ef_filter<K: IndexKey>(values: Seq<usize>, keys: Seq<K>) -> Seq<K>
    decreases keys.len(),
{
    if keys.len() == 0 {
        Seq::empty()
    } else if ef_keeps(values, keys.last()) {
        ef_filter(values, keys.drop_last()).push(keys.last())
    } else {
        ef_filter(values, keys.drop_last())
    }
}

/// The keys that may be in a file: all of them when the file has no
/// file-level index, else those that the index lets through.
pub open spec fn keys_in_file_spec<K: IndexKey>(keys: Seq<K>, index: Option<Seq<usize>>) -> Seq<K> {
    match index {
        None => keys,
        Some(values) => ef_filter(values, keys),
    }
}

/// The values of a file's index, if it has one.
pub open spec fn index_values(index: Option<&EfIndexValues>) -> Option<Seq<usize>> {
    match index {
        None => None,
        Some(ix) => Some(ef_values(*ix)),
    }
}

/// Filters `keys` through the file-level index of a file, if it has one.
pub fn keys_in_file<K: IndexKey>(keys: &Vec<K>, index: Option<&EfIndexValues>) -> (r: Vec<K>)
    ensures
        r@ == keys_in_file_spec(keys@, index_values(index)),
{
    let mut out: Vec<K> = Vec::new();
    let mut i: usize = 0;
    while i < keys.len()
        invariant
            i <= keys@.len(),
            out@ == keys_in_file_spec(keys@.subrange(0, i as int), index_values(index)),
        decreases keys@.len() - i,
    {
        let key = keys[i];
        assert(keys@.subrange(0, i + 1).drop_last() =~= keys@.subrange(0, i as int));
        assert(keys@.subrange(0, i + 1).last() == key);
        let keep = match index {
            None => true,
            Some(ix) => match key.as_ef_key() {
                None => true,
                Some(v) => ix.contains(v),
            },
        };
        if keep {
            out.push(key);
        }
        i = i + 1;
    }
    assert(keys@.subrange(0, keys@.len() as int) =~= keys@);
    out
}


/// The row-group statistics of a file's key column.
pub open spec fn row_group_stats(layout: FileLayout) -> Seq<Option<ValueRange>> {
    Seq::new(layout.row_groups@.len(), |g: int| layout.row_groups@[g].stats)
}

/// Whether some key may be in a Bloom filter, or there is no filter.
pub open spec fn bloom_passes<K: IndexKey>(keys: Seq<K>, filter: Option<Sbbf>) -> bool {
    filter is None || exists|i: int| 0 <= i < keys.len() && #[trigger] keys[i].bloom_spec(filter->0)
}

/// The Bloom filter of row group `g`, if it has one.
pub open spec fn filter_at(blooms: Seq<Option<Sbbf>>, g: int) -> Option<Sbbf> {
    if 0 <= g < blooms.len() {
        blooms[g]
    } else {
        None
    }
}

/// The Bloom filter of row group `g`, if it has one with at least one
/// block; a filter without blocks cannot answer, and counts as none.
pub open spec fn usable_filter(blooms: Seq<Option<Sbbf>>, g: int) -> Option<Sbbf> {
    match filter_at(blooms, g) {
        Some(f) => if bloom_blocks(f) > 0 {
            Some(f)
        } else {
            None
        },
        None => None,
    }
}

/// Whether row group `g` passes the statistics: always, when they cannot
/// prune.
pub open spec fn passes_statistics(mask: Option<Seq<bool>>, g: int) -> bool {
    match mask {
        None => true,
        Some(m) => m[g],
    }
}

/// Whether row group `g` survives the statistics (when they can prune) and
/// its Bloom filter (when it has a usable one).
pub open spec fn group_kept<K: IndexKey>(
    keys: Seq<K>,
    mask: Option<Seq<bool>>,
    blooms: Seq<Option<Sbbf>>,
    g: int,
) -> bool {
    &&& passes_statistics(mask, g)
    &&& bloom_passes(keys, usable_filter(blooms, g))
}

/// Among the first `n` row groups, those that statistics which can prune
/// do prune.
pub open spec fn statistics_pruned_count(mask: Option<Seq<bool>>, n: int) -> nat
    decreases n,
{
    if n <= 0 {
        0
    } else {
        statistics_pruned_count(mask, n - 1) + if mask is Some && !passes_statistics(mask, n - 1) {
            1nat
        } else {
            0nat
        }
    }
}

/// Among the first `n` row groups, those that statistics which can prune
/// let through.
pub open spec fn statistics_selected_count(mask: Option<Seq<bool>>, n: int) -> nat
    decreases n,
{
    if n <= 0 {
        0
    } else {
        statistics_selected_count(mask, n - 1) + if mask is Some && passes_statistics(mask, n - 1) {
            1nat
        } else {
            0nat
        }
    }
}

/// Among the first `n` row groups, those past the statistics whose usable
/// Bloom filter lets them through.
pub open spec fn bloom_selected_count<K: IndexKey>(
    keys: Seq<K>,
    mask: Option<Seq<bool>>,
    blooms: Seq<Option<Sbbf>>,
    n: int,
) -> nat
    decreases n,
{
    if n <= 0 {
        0
    } else {
        bloom_selected_count(keys, mask, blooms, n - 1) + if passes_statistics(mask, n - 1)
            && usable_filter(blooms, n - 1) is Some && bloom_passes(keys, usable_filter(blooms, n - 1)) {
            1nat
        } else {
            0nat
        }
    }
}

/// Among the first `n` row groups, those past the statistics whose usable
/// Bloom filter prunes them.
pub open spec fn bloom_pruned_count<K: IndexKey>(
    keys: Seq<K>,
    mask: Option<Seq<bool>>,
    blooms: Seq<Option<Sbbf>>,
    n: int,
) -> nat
    decreases n,
{
    if n <= 0 {
        0
    } else {
        bloom_pruned_count(keys, mask, blooms, n - 1) + if passes_statistics(mask, n - 1)
            && usable_filter(blooms, n - 1) is Some && !bloom_passes(keys, usable_filter(blooms, n - 1)) {
            1nat
        } else {
            0nat
        }
    }
}

/// The row-group counters of a scan are those of its first `n` row groups.
pub open spec fn row_group_counters<K: IndexKey>(
    m: ScanInitMetrics,
    keys: Seq<K>,
    mask: Option<Seq<bool>>,
    blooms: Seq<Option<Sbbf>>,
    n: int,
) -> bool {
    &&& m.row_groups_pruned_by_statistics == statistics_pruned_count(mask, n)
    &&& m.row_groups_selected_by_statistics == statistics_selected_count(mask, n)
    &&& m.row_groups_selected_by_bloom_filters == bloom_selected_count(keys, mask, blooms, n)
    &&& m.row_groups_pruned_by_bloom_filters == bloom_pruned_count(keys, mask, blooms, n)
}

/// The row groups among the first `n`, in increasing order, that survive.
pub open spec fn kept_groups<K: IndexKey>(
    keys: Seq<K>,
    mask: Option<Seq<bool>>,
    blooms: Seq<Option<Sbbf>>,
    n: int,
) -> Seq<usize>
    decreases n,
{
    if n <= 0 {
        Seq::empty()
    } else if group_kept(keys, mask, blooms, n - 1) {
        kept_groups(keys, mask, blooms, n - 1).push((n - 1) as usize)
    } else {
        kept_groups(keys, mask, blooms, n - 1)
    }
}

/// Asks a Bloom filter about each key, stopping at the first that may be
/// present.
fn any_key_in_bloom<K: IndexKey>(keys: &Vec<K>, filter: &Sbbf) -> (r: bool)
    requires
        bloom_blocks(*filter) > 0,
    ensures
        r == bloom_passes(keys@, Some(*filter)),
{
    let mut i: usize = 0;
    while i < keys.len()
        invariant
            i <= keys@.len(),
            bloom_blocks(*filter) > 0,
            forall|j: int| 0 <= j < i ==> !(#[trigger] keys@[j].bloom_spec(*filter)),
        decreases keys@.len() - i,
    {
        if keys[i].in_bloom_filter(filter) {
            assert(keys@[i as int].bloom_spec(*filter));
            let ghost some_filter = Some(*filter);
            assert(some_filter->0 == *filter);
            assert(bloom_passes::<K>(keys@, some_filter));
            return true;
        }
        i = i + 1;
    }
    false
}

/// Selects the row groups of a file that may hold one of `keys`: first by
/// the row groups' statistics, then by their Bloom filters. Returns them in
/// increasing order, with the counters of both stages.
pub fn select_row_groups<K: IndexKey>(
    keys: &Vec<K>,
    layout: &FileLayout,
    blooms: &Vec<Option<Sbbf>>,
) -> (r: Result<(Vec<usize>, ScanInitMetrics), ScanError>)
    ensures
        match K::statistics_spec(keys@, row_group_stats(*layout)) {
            Err(e) => r == Err::<(Vec<usize>, ScanInitMetrics), ScanError>(ScanError::Statistics(e)),
            Ok(mask) => r matches Ok(sel) && sel.0@ == kept_groups(
                keys@,
                mask,
                blooms@,
                layout.row_groups@.len() as int,
            ) && row_group_counters(sel.1, keys@, mask, blooms@, layout.row_groups@.len() as int)
                && sel.1.files_pruned_by_ef_index == 0 && sel.1.files_selected_by_ef_index == 0
                && sel.1.rows_pruned_by_page_index == 0 && sel.1.rows_selected_by_page_index == 0,
        },
{
    let n = layout.row_groups.len();
    let mut stats: Vec<Option<ValueRange>> = Vec::new();
    let mut g: usize = 0;
    while g < n
        invariant
            n == layout.row_groups@.len(),
            g <= n,
            stats@ =~= row_group_stats(*layout).subrange(0, g as int),
        decreases n - g,
    {
        stats.push(layout.row_groups[g].stats);
        g = g + 1;
    }
    assert(stats@ =~= row_group_stats(*layout));
    let mask = match K::check_column_chunk(keys, &stats) {
        Ok(m) => m,
        Err(e) => {
            return Err(ScanError::Statistics(e));
        },
    };
    let ghost mask_spec = match K::statistics_spec(keys@, row_group_stats(*layout)) {
        Ok(m) => m,
        Err(_) => None,
    };
    let mut metrics = ScanInitMetrics::new();
    let mut selected: Vec<usize> = Vec::new();
    let mut g: usize = 0;
    while g < n
        invariant
            n == layout.row_groups@.len(),
            g <= n,
            mask matches Some(m) ==> m@.len() == n && mask_spec == Some(m@),
            mask is None ==> mask_spec is None,
            selected@ == kept_groups(keys@, mask_spec, blooms@, g as int),
            row_group_counters(metrics, keys@, mask_spec, blooms@, g as int),
            metrics.row_groups_pruned_by_statistics <= g,
            metrics.row_groups_selected_by_statistics <= g,
            metrics.row_groups_pruned_by_bloom_filters <= g,
            metrics.row_groups_selected_by_bloom_filters <= g,
            metrics.files_pruned_by_ef_index == 0,
            metrics.files_selected_by_ef_index == 0,
            metrics.rows_pruned_by_page_index == 0,
            metrics.rows_selected_by_page_index == 0,
        decreases n - g,
    {
        let passes_statistics = match &mask {
            None => true,
            Some(m) => m[g],
        };
        if mask.is_some() {
            if passes_statistics {
                metrics.row_groups_selected_by_statistics = metrics.row_groups_selected_by_statistics + 1;
            } else {
                metrics.row_groups_pruned_by_statistics = metrics.row_groups_pruned_by_statistics + 1;
            }
        }
        if passes_statistics {
            let passes_bloom = if g < blooms.len() {
                match &blooms[g] {
                    None => true,
                    Some(f) if bloom_block_count(f) == 0 => true,
                    Some(f) => {
                        let hit = any_key_in_bloom(keys, f);
                        if hit {
                            metrics.row_groups_selected_by_bloom_filters = metrics.row_groups_selected_by_bloom_filters + 1;
                        } else {
                            metrics.row_groups_pruned_by_bloom_filters = metrics.row_groups_pruned_by_bloom_filters + 1;
                        }
                        hit
                    },
                }
            } else {
                true
            };
            if passes_bloom {
                selected.push(g);
            }
        }
        g = g + 1;
    }
    Ok((selected, metrics))
}


/// The row group at position `j` of the selection.
pub open spec fn group_of(layout: FileLayout, sel: Seq<usize>, j: int) -> RowGroupInfo {
    layout.row_groups@[sel[j] as int]
}

/// The number of rows of the selected row groups before position `j`.
pub open spec fn rows_before(layout: FileLayout, sel: Seq<usize>, j: int) -> int
    decreases j,
{
    if j <= 0 {
        0
    } else {
        rows_before(layout, sel, j - 1) + group_of(layout, sel, j - 1).num_rows
    }
}

/// The number of pages of the selected row groups before position `j`.
pub open spec fn pages_before(layout: FileLayout, sel: Seq<usize>, j: int) -> int
    decreases j,
{
    if j <= 0 {
        0
    } else {
        pages_before(layout, sel, j - 1) + group_of(layout, sel, j - 1).pages@.len()
    }
}

/// The page statistics of the selected row groups before position `j`, one
/// after the other.
pub open spec fn selected_page_stats(layout: FileLayout, sel: Seq<usize>, j: int) -> Seq<
    Option<ValueRange>,
>
    decreases j,
{
    if j <= 0 {
        Seq::empty()
    } else {
        let rg = group_of(layout, sel, j - 1);
        selected_page_stats(layout, sel, j - 1) + Seq::new(
            rg.pages@.len(),
            |p: int| rg.pages@[p].stats,
        )
    }
}

/// The row, within its row group, where page `p` ends.
pub open spec fn page_end(rg: RowGroupInfo, p: int) -> int {
    if p + 1 < rg.pages@.len() {
        rg.pages@[p + 1].first_row_index as int
    } else {
        rg.num_rows as int
    }
}

/// Pages start at strictly increasing rows inside their row group.
pub open spec fn pages_valid(rg: RowGroupInfo) -> bool {
    &&& forall|p: int| 0 <= p < rg.pages@.len() ==> #[trigger] rg.pages@[p].first_row_index < rg.num_rows
    &&& forall|p: int, q: int|
        0 <= p < q < rg.pages@.len() ==> #[trigger] rg.pages@[p].first_row_index
            < #[trigger] rg.pages@[q].first_row_index
}

/// The pages of every selected row group are valid.
pub open spec fn selection_pages_valid(layout: FileLayout, sel: Seq<usize>) -> bool {
    forall|j: int| 0 <= j < sel.len() ==> pages_valid(#[trigger] group_of(layout, sel, j))
}

/// The ranges of the first `p` pages of a row group that `mask` keeps,
/// shifted by `offset` rows; the row group's flags start at `base`.
pub open spec fn group_ranges(rg: RowGroupInfo, offset: int, mask: Seq<bool>, base: int, p: int) -> Seq<
    RowRange,
>
    decreases p,
{
    if p <= 0 {
        Seq::empty()
    } else if mask[base + p - 1] {
        group_ranges(rg, offset, mask, base, p - 1).push(
            RowRange {
                start: (offset + rg.pages@[p - 1].first_row_index) as usize,
                end: (offset + page_end(rg, p - 1)) as usize,
            },
        )
    } else {
        group_ranges(rg, offset, mask, base, p - 1)
    }
}

/// The ranges of rows that the kept pages of the selected row groups before
/// position `j` cover, counted from the first row of the first selected row
/// group.
pub open spec fn selected_page_ranges(layout: FileLayout, sel: Seq<usize>, mask: Seq<bool>, j: int) -> Seq<
    RowRange,
>
    decreases j,
{
    if j <= 0 {
        Seq::empty()
    } else {
        let rg = group_of(layout, sel, j - 1);
        selected_page_ranges(layout, sel, mask, j - 1) + group_ranges(
            rg,
            rows_before(layout, sel, j - 1),
            mask,
            pages_before(layout, sel, j - 1),
            rg.pages@.len() as int,
        )
    }
}

/// Row and page counts only grow along the selection.
pub proof fn lemma_before_monotonic(layout: FileLayout, sel: Seq<usize>, i: int, j: int)
    requires
        0 <= i <= j,
    ensures
        rows_before(layout, sel, i) <= rows_before(layout, sel, j),
        pages_before(layout, sel, i) <= pages_before(layout, sel, j),
    decreases j - i,
{
    if i < j {
        lemma_before_monotonic(layout, sel, i, j - 1);
    }
}

/// The page statistics of the selection are as many as its pages.
proof fn lemma_page_stats_len(layout: FileLayout, sel: Seq<usize>, j: int)
    requires
        0 <= j,
    ensures
        selected_page_stats(layout, sel, j).len() == pages_before(layout, sel, j),
    decreases j,
{
    if j > 0 {
        lemma_page_stats_len(layout, sel, j - 1);
    }
}

/// The number of rows of the selected row groups, if it fits in `usize`.
fn selected_rows_total(layout: &FileLayout, sel: &Vec<usize>) -> (r: Option<usize>)
    requires
        forall|j: int| 0 <= j < sel@.len() ==> #[trigger] sel@[j] < layout.row_groups@.len(),
    ensures
        r is None <==> rows_before(*layout, sel@, sel@.len() as int) > usize::MAX,
        r matches Some(t) ==> t == rows_before(*layout, sel@, sel@.len() as int),
{
    let mut total: usize = 0;
    let mut j: usize = 0;
    while j < sel.len()
        invariant
            j <= sel@.len(),
            forall|k: int| 0 <= k < sel@.len() ==> #[trigger] sel@[k] < layout.row_groups@.len(),
            total == rows_before(*layout, sel@, j as int),
        decreases sel@.len() - j,
    {
        let n = layout.row_groups[sel[j]].num_rows;
        if n > (usize::MAX - total) as u64 {
            proof {
                lemma_before_monotonic(*layout, sel@, j + 1, sel@.len() as int);
            }
            return None;
        }
        total = total + n as usize;
        j = j + 1;
    }
    Some(total)
}

/// Checks that the pages of a row group start at strictly increasing rows
/// within it.
fn check_pages(rg: &RowGroupInfo) -> (r: bool)
    ensures
        r == pages_valid(*rg),
{
    let n = rg.pages.len();
    let mut p: usize = 0;
    while p < n
        invariant
            n == rg.pages@.len(),
            p <= n,
            forall|q: int| 0 <= q < p ==> #[trigger] rg.pages@[q].first_row_index < rg.num_rows,
            forall|q: int, s: int|
                0 <= q < s < p ==> #[trigger] rg.pages@[q].first_row_index
                    < #[trigger] rg.pages@[s].first_row_index,
        decreases n - p,
    {
        if rg.pages[p].first_row_index >= rg.num_rows {
            return false;
        }
        if p > 0 && rg.pages[p - 1].first_row_index >= rg.pages[p].first_row_index {
            return false;
        }
        proof {
            assert forall|q: int, s: int|
                0 <= q < s < p + 1 implies #[trigger] rg.pages@[q].first_row_index
                    < #[trigger] rg.pages@[s].first_row_index by {
                if s == p && q < p - 1 {
                    assert(rg.pages@[q].first_row_index < rg.pages@[p - 1].first_row_index);
                }
            }
        }
        p = p + 1;
    }
    true
}


/// Gathers the page statistics of the selected row groups, one after the
/// other.
fn collect_page_stats(layout: &FileLayout, sel: &Vec<usize>) -> (r: Vec<Option<ValueRange>>)
    requires
        forall|j: int| 0 <= j < sel@.len() ==> #[trigger] sel@[j] < layout.row_groups@.len(),
    ensures
        r@ == selected_page_stats(*layout, sel@, sel@.len() as int),
{
    let mut out: Vec<Option<ValueRange>> = Vec::new();
    let mut j: usize = 0;
    while j < sel.len()
        invariant
            j <= sel@.len(),
            forall|k: int| 0 <= k < sel@.len() ==> #[trigger] sel@[k] < layout.row_groups@.len(),
            out@ == selected_page_stats(*layout, sel@, j as int),
        decreases sel@.len() - j,
    {
        let rg = &layout.row_groups[sel[j]];
        let ghost before = out@;
        let mut p: usize = 0;
        while p < rg.pages.len()
            invariant
                p <= rg.pages@.len(),
                out@ =~= before + Seq::new(p as nat, |q: int| rg.pages@[q].stats),
            decreases rg.pages@.len() - p,
        {
            out.push(rg.pages[p].stats);
            p = p + 1;
        }
        j = j + 1;
    }
    out
}

/// A single range over all `total` rows.
pub open spec fn all_rows(total: int) -> Seq<RowRange> {
    seq![RowRange { start: 0, end: total as usize }]
}

/// The ranges of rows to read from the selected row groups (counted from
/// the first row of the first of them), or why they cannot be computed.
pub open spec fn page_ranges_spec<K: IndexKey>(keys: Seq<K>, layout: FileLayout, sel: Seq<usize>) -> Result<
    Seq<RowRange>,
    ScanError,
> {
    let total = rows_before(layout, sel, sel.len() as int);
    if total > usize::MAX {
        Err(ScanError::RowCountOverflow)
    } else if !layout.has_page_index {
        Ok(all_rows(total))
    } else if !selection_pages_valid(layout, sel) {
        Err(ScanError::InvalidPageIndex)
    } else {
        match K::statistics_spec(keys, selected_page_stats(layout, sel, sel.len() as int)) {
            Err(e) => Err(ScanError::Statistics(e)),
            Ok(None) => Ok(all_rows(total)),
            Ok(Some(mask)) => Ok(selected_page_ranges(layout, sel, mask, sel.len() as int)),
        }
    }
}

/// Computes, from the page index, the ranges of rows of the selected row
/// groups that may hold one of `keys`, with the number of rows of those row
/// groups. Rows are counted from the first row of the first selected row
/// group, as if the selected row groups were one after the other.
pub fn page_row_ranges<K: IndexKey>(keys: &Vec<K>, layout: &FileLayout, sel: &Vec<usize>) -> (r:
    Result<(Vec<RowRange>, usize), ScanError>)
    requires
        forall|j: int| 0 <= j < sel@.len() ==> #[trigger] sel@[j] < layout.row_groups@.len(),
    ensures
        r matches Ok(v) ==> page_ranges_spec(keys@, *layout, sel@) == Ok::<Seq<RowRange>, ScanError>(
            v.0@,
        ) && v.1 == rows_before(*layout, sel@, sel@.len() as int) && ranges_ordered(
            v.0@,
            v.1 as int,
        ),
        r matches Err(e) ==> page_ranges_spec(keys@, *layout, sel@) == Err::<Seq<RowRange>, ScanError>(
            e,
        ),
{
    let total = match selected_rows_total(layout, sel) {
        None => {
            return Err(ScanError::RowCountOverflow);
        },
        Some(t) => t,
    };
    let whole = vec![RowRange { start: 0, end: total }];
    assert(whole@ =~= all_rows(total as int));
    if !layout.has_page_index {
        return Ok((whole, total));
    }
    let mut j: usize = 0;
    while j < sel.len()
        invariant
            j <= sel@.len(),
            forall|k: int| 0 <= k < sel@.len() ==> #[trigger] sel@[k] < layout.row_groups@.len(),
            forall|k: int| 0 <= k < j ==> pages_valid(#[trigger] group_of(*layout, sel@, k)),
            total == rows_before(*layout, sel@, sel@.len() as int),
            layout.has_page_index,
        decreases sel@.len() - j,
    {
        if !check_pages(&layout.row_groups[sel[j]]) {
            assert(!pages_valid(group_of(*layout, sel@, j as int)));
            return Err(ScanError::InvalidPageIndex);
        }
        j = j + 1;
    }
    let stats = collect_page_stats(layout, sel);
    let mask = match K::check_page_index(keys, &stats) {
        Err(e) => {
            return Err(ScanError::Statistics(e));
        },
        Ok(None) => {
            return Ok((whole, total));
        },
        Ok(Some(m)) => m,
    };
    let n = sel.len();
    let mask_len = mask.len();
    proof {
        lemma_page_stats_len(*layout, sel@, n as int);
    }
    let mut ranges: Vec<RowRange> = Vec::new();
    let mut offset: usize = 0;
    let mut base: usize = 0;
    let mut j: usize = 0;
    while j < n
        invariant
            n == sel@.len(),
            j <= n,
            forall|k: int| 0 <= k < sel@.len() ==> #[trigger] sel@[k] < layout.row_groups@.len(),
            selection_pages_valid(*layout, sel@),
            total == rows_before(*layout, sel@, n as int),
            mask@.len() == pages_before(*layout, sel@, n as int),
            mask_len == mask@.len(),
            offset == rows_before(*layout, sel@, j as int),
            base == pages_before(*layout, sel@, j as int),
            ranges@ == selected_page_ranges(*layout, sel@, mask@, j as int),
            forall|k: int| 0 <= k < ranges@.len() ==> #[trigger] ranges@[k].start <= ranges@[k].end,
            forall|k: int| 0 <= k < ranges@.len() ==> #[trigger] ranges@[k].end <= offset,
            forall|a: int, b: int|
                0 <= a < b < ranges@.len() ==> #[trigger] ranges@[a].end <= #[trigger] ranges@[b].start,
        decreases n - j,
    {
        let rg = &layout.row_groups[sel[j]];
        proof {
            lemma_before_monotonic(*layout, sel@, j + 1, n as int);
            assert(pages_valid(group_of(*layout, sel@, j as int)));
        }
        let rows = rg.num_rows as usize;
        let np = rg.pages.len();
        let ghost prior = ranges@;
        let mut p: usize = 0;
        while p < np
            invariant
                np == rg.pages@.len(),
                p <= np,
                pages_valid(*rg),
                offset + rg.num_rows <= total,
                rows == rg.num_rows,
                base + np <= mask@.len(),
                mask_len == mask@.len(),
                ranges@ == prior + group_ranges(*rg, offset as int, mask@, base as int, p as int),
                forall|k: int| 0 <= k < ranges@.len() ==> #[trigger] ranges@[k].start <= ranges@[k].end,
                forall|k: int|
                    0 <= k < ranges@.len() ==> #[trigger] ranges@[k].end <= offset + (if p < np {
                        rg.pages@[p as int].first_row_index as int
                    } else {
                        rg.num_rows as int
                    }),
                forall|a: int, b: int|
                    0 <= a < b < ranges@.len() ==> #[trigger] ranges@[a].end
                        <= #[trigger] ranges@[b].start,
            decreases np - p,
        {
            let first = rg.pages[p].first_row_index as usize;
            let end = if p + 1 < np {
                rg.pages[p + 1].first_row_index as usize
            } else {
                rows
            };
            proof {
                if p + 1 < np {
                    assert(rg.pages@[p as int].first_row_index < rg.pages@[p + 1].first_row_index);
                    assert(rg.pages@[p + 1].first_row_index < rg.num_rows);
                }
            }
            if mask[base + p] {
                let range = RowRange { start: offset + first, end: offset + end };
                let ghost old_ranges = ranges@;
                ranges.push(range);
                proof {
                    assert(ranges@ =~= prior + group_ranges(
                        *rg,
                        offset as int,
                        mask@,
                        base as int,
                        p + 1,
                    ));
                    assert forall|a: int, b: int|
                        0 <= a < b < ranges@.len() implies #[trigger] ranges@[a].end
                            <= #[trigger] ranges@[b].start by {
                        if b == ranges@.len() - 1 {
                            assert(old_ranges[a].end <= offset + first);
                        }
                    }
                }
            } else {
                assert(ranges@ =~= prior + group_ranges(*rg, offset as int, mask@, base as int, p + 1));
            }
            p = p + 1;
        }
        assert(ranges@ =~= selected_page_ranges(*layout, sel@, mask@, j + 1));
        offset = offset + rows;
        base = base + np;
        j = j + 1;
    }
    Ok((ranges, total))
}


/// The surviving row groups are row groups of the file, in increasing order.
pub proof fn lemma_kept_groups_bounded<K: IndexKey>(
    keys: Seq<K>,
    mask: Option<Seq<bool>>,
    blooms: Seq<Option<Sbbf>>,
    n: int,
)
    ensures
        forall|j: int|
            0 <= j < kept_groups(keys, mask, blooms, n).len() ==> 0 <= #[trigger] kept_groups(
                keys,
                mask,
                blooms,
                n,
            )[j] < n,
    decreases n,
{
    if n > 0 {
        lemma_kept_groups_bounded(keys, mask, blooms, n - 1);
        let prev = kept_groups(keys, mask, blooms, n - 1);
        let cur = kept_groups(keys, mask, blooms, n);
        assert forall|j: int| 0 <= j < cur.len() implies 0 <= #[trigger] cur[j] < n by {
            if j < prev.len() {
                assert(cur[j] == prev[j]);
            }
        }
    }
}

/// What to read of one file for a keyed scan.
pub struct FileScanPlan<K> {
    /// The keys that may be in the file.
    pub keys: Vec<K>,
    /// The row groups to read, in increasing order.
    pub row_groups: Vec<usize>,
    /// The rows to read within those row groups; `None` when nothing is read.
    pub selection: Option<RowSelection>,
    /// The counters of the pruning stages for this file.
    pub metrics: ScanInitMetrics,
}

/// The keys that may be in a file, the row groups to read, and the ranges of
/// rows to read within them (none when no row group is read); or why the
/// plan cannot be made.
pub open spec fn scan_plan_spec<K: IndexKey>(
    keys: Seq<K>,
    index: Option<Seq<usize>>,
    layout: FileLayout,
    blooms: Seq<Option<Sbbf>>,
) -> Result<(Seq<K>, Seq<usize>, Option<Seq<RowRange>>), ScanError> {
    let file_keys = keys_in_file_spec(keys, index);
    if file_keys.len() == 0 {
        Ok((file_keys, Seq::empty(), None))
    } else {
        match K::statistics_spec(file_keys, row_group_stats(layout)) {
            Err(e) => Err(ScanError::Statistics(e)),
            Ok(mask) => {
                let groups = kept_groups(file_keys, mask, blooms, layout.row_groups@.len() as int);
                if groups.len() == 0 {
                    Ok((file_keys, groups, None))
                } else {
                    match page_ranges_spec(file_keys, layout, groups) {
                        Err(e) => Err(e),
                        Ok(ranges) => Ok((file_keys, groups, Some(ranges))),
                    }
                }
            },
        }
    }
}

/// Plans the scan of one file for the rows whose key column holds one of
/// `keys`: the file-level index (if the file has one), then row-group
/// statistics, Bloom filters and the page index narrow down what to read.
pub fn plan_file_scan<K: IndexKey>(
    keys: &Vec<K>,
    index: Option<&EfIndexValues>,
    layout: &FileLayout,
    blooms: &Vec<Option<Sbbf>>,
) -> (r: Result<FileScanPlan<K>, ScanError>)
    ensures
        r matches Ok(plan) ==> {
            &&& scan_plan_spec(keys@, index_values(index), *layout, blooms@) matches Ok(t)
            &&& plan.keys@ == t.0
            &&& plan.row_groups@ == t.1
            &&& (plan.selection is None <==> t.2 is None)
            &&& plan.selection matches Some(s) ==> {
                &&& t.2 matches Some(ranges)
                &&& selection_mask(s) == ranges_mask(
                    ranges,
                    rows_before(*layout, t.1, t.1.len() as int) as nat,
                )
                &&& plan.metrics.rows_selected_by_page_index
                    + plan.metrics.rows_pruned_by_page_index == rows_before(
                    *layout,
                    t.1,
                    t.1.len() as int,
                )
            }
            &&& t.0.len() == 0 ==> plan.metrics.row_groups_pruned_by_statistics == 0
                && plan.metrics.row_groups_selected_by_statistics == 0
                && plan.metrics.row_groups_pruned_by_bloom_filters == 0
                && plan.metrics.row_groups_selected_by_bloom_filters == 0
            &&& t.0.len() > 0 ==> (K::statistics_spec(t.0, row_group_stats(*layout)) matches Ok(mask)
                ==> row_group_counters(plan.metrics, t.0, mask, blooms@, layout.row_groups@.len() as int))
            &&& plan.selection is None ==> plan.metrics.rows_selected_by_page_index == 0
                && plan.metrics.rows_pruned_by_page_index == 0
            &&& plan.metrics.files_pruned_by_ef_index == (if index is Some && t.0.len() == 0 {
                1int
            } else {
                0int
            })
            &&& plan.metrics.files_selected_by_ef_index == (if index is Some && t.0.len() > 0 {
                1int
            } else {
                0int
            })
        },
        r matches Err(e) ==> scan_plan_spec(keys@, index_values(index), *layout, blooms@) == Err::<
            (Seq<K>, Seq<usize>, Option<Seq<RowRange>>),
            ScanError,
        >(e),
{
    let file_keys = keys_in_file(keys, index);
    let mut metrics = ScanInitMetrics::new();
    if file_keys.len() == 0 {
        if index.is_some() {
            metrics.files_pruned_by_ef_index = 1;
        }
        return Ok(FileScanPlan { keys: file_keys, row_groups: Vec::new(), selection: None, metrics });
    }
    let (row_groups, group_metrics) = match select_row_groups(&file_keys, layout, blooms) {
        Ok(sel) => sel,
        Err(e) => {
            return Err(e);
        },
    };
    metrics = group_metrics;
    if index.is_some() {
        metrics.files_selected_by_ef_index = 1;
    }
    if row_groups.len() == 0 {
        return Ok(FileScanPlan { keys: file_keys, row_groups, selection: None, metrics });
    }
    proof {
        let mask = match K::statistics_spec(file_keys@, row_group_stats(*layout)) {
            Ok(m) => m,
            Err(_) => None,
        };
        lemma_kept_groups_bounded(file_keys@, mask, blooms@, layout.row_groups@.len() as int);
    }
    let (ranges, total) = match page_row_ranges(&file_keys, layout, &row_groups) {
        Ok(v) => v,
        Err(e) => {
            return Err(e);
        },
    };
    let selection = selection_from_ranges(&ranges, total);
    let selected = selected_row_count(&selection);
    let skipped = skipped_row_count(&selection);
    proof {
        lemma_count_split(selection_mask(selection));
    }
    metrics.rows_selected_by_page_index = selected as u64;
    metrics.rows_pruned_by_page_index = skipped as u64;
    Ok(FileScanPlan { keys: file_keys, row_groups, selection: Some(selection), metrics })
}


/// With no keys, the plan reads no row group of any file.
pub proof fn law_empty_keys_read_nothing<K: IndexKey>(
    index: Option<Seq<usize>>,
    layout: FileLayout,
    blooms: Seq<Option<Sbbf>>,
)
    ensures
        scan_plan_spec(Seq::<K>::empty(), index, layout, blooms) == Ok::<
            (Seq<K>, Seq<usize>, Option<Seq<RowRange>>),
            ScanError,
        >((Seq::empty(), Seq::empty(), None)),
{
    assert(keys_in_file_spec(Seq::<K>::empty(), index) =~= Seq::<K>::empty());
}

/// A file without a file-level index is not pruned by it: every key goes on
/// to the next stages.
pub proof fn law_missing_index_keeps_every_key<K: IndexKey>(
    keys: Seq<K>,
    layout: FileLayout,
    blooms: Seq<Option<Sbbf>>,
)
    ensures
        keys_in_file_spec(keys, None) == keys,
        scan_plan_spec(keys, None, layout, blooms) matches Ok(t) ==> t.0 == keys,
{
}

/// A file-level index holding every value of the file's key column lets
/// through every key that is in the file.
pub proof fn law_index_keeps_keys_in_file(values: Seq<usize>, keys: Seq<u64>, k: u64)
    requires
        keys.contains(k),
        k <= usize::MAX ==> values.contains(k as usize),
    ensures
        ef_filter(values, keys).contains(k),
    decreases keys.len(),
{
    if keys.last() == k {
        assert(ef_filter(values, keys).last() == k);
        assert(ef_filter(values, keys).len() > 0);
        assert(ef_filter(values, keys)[ef_filter(values, keys).len() - 1] == k);
    } else {
        let i = choose|i: int| 0 <= i < keys.len() && keys[i] == k;
        assert(keys.drop_last()[i] == k);
        law_index_keeps_keys_in_file(values, keys.drop_last(), k);
        let f = ef_filter(values, keys.drop_last());
        let j = choose|j: int| 0 <= j < f.len() && f[j] == k;
        if ef_keeps(values, keys.last()) {
            assert(ef_filter(values, keys)[j] == k);
        }
    }
}

/// A Bloom filter that answers "may be present" for a key lets its row
/// group through.
pub proof fn law_bloom_keeps_keys_it_holds(keys: Seq<u64>, filter: Sbbf, k: u64)
    requires
        keys.contains(k),
        bloom_ids(filter).contains(k),
    ensures
        bloom_passes(keys, Some(filter)),
{
    let i = choose|i: int| 0 <= i < keys.len() && keys[i] == k;
    assert(keys[i].bloom_spec(filter));
    let some_filter = Some(filter);
    assert(some_filter->0 == filter);
    assert(bloom_passes::<u64>(keys, some_filter));
}


/// The range of a kept page is among the ranges of its row group.
proof fn lemma_group_ranges_hold_page(
    rg: RowGroupInfo,
    offset: int,
    mask: Seq<bool>,
    base: int,
    n: int,
    p: int,
)
    requires
        0 <= p < n,
        mask[base + p],
    ensures
        group_ranges(rg, offset, mask, base, n).contains(
            RowRange {
                start: (offset + rg.pages@[p].first_row_index) as usize,
                end: (offset + page_end(rg, p)) as usize,
            },
        ),
    decreases n,
{
    let r = RowRange {
        start: (offset + rg.pages@[p].first_row_index) as usize,
        end: (offset + page_end(rg, p)) as usize,
    };
    let cur = group_ranges(rg, offset, mask, base, n);
    if p == n - 1 {
        assert(cur.last() == r);
        assert(cur[cur.len() - 1] == r);
    } else {
        lemma_group_ranges_hold_page(rg, offset, mask, base, n - 1, p);
        let prev = group_ranges(rg, offset, mask, base, n - 1);
        let i = choose|i: int| 0 <= i < prev.len() && prev[i] == r;
        assert(cur[i] == prev[i]);
    }
}

/// The ranges of the first row groups of a selection stay as they are when
/// more row groups follow.
proof fn lemma_selected_ranges_grow(
    layout: FileLayout,
    sel: Seq<usize>,
    mask: Seq<bool>,
    j: int,
    n: int,
    r: RowRange,
)
    requires
        0 <= j <= n,
        selected_page_ranges(layout, sel, mask, j).contains(r),
    ensures
        selected_page_ranges(layout, sel, mask, n).contains(r),
    decreases n - j,
{
    if j < n {
        lemma_selected_ranges_grow(layout, sel, mask, j, n - 1, r);
        let prev = selected_page_ranges(layout, sel, mask, n - 1);
        let i = choose|i: int| 0 <= i < prev.len() && prev[i] == r;
        assert(selected_page_ranges(layout, sel, mask, n)[i] == prev[i]);
    }
}

/// Every row of a kept page of a selected row group lies in the ranges of
/// rows that the plan reads (rows counted from the first selected row group).
pub proof fn law_rows_of_kept_pages_are_read(
    layout: FileLayout,
    sel: Seq<usize>,
    mask: Seq<bool>,
    j: int,
    p: int,
    row: int,
)
    requires
        0 <= j < sel.len(),
        0 <= p < group_of(layout, sel, j).pages@.len(),
        mask[pages_before(layout, sel, j) + p],
        group_of(layout, sel, j).pages@[p].first_row_index <= row < page_end(group_of(layout, sel, j), p),
        rows_before(layout, sel, sel.len() as int) <= usize::MAX,
        pages_valid(group_of(layout, sel, j)),
    ensures
        in_ranges(
            selected_page_ranges(layout, sel, mask, sel.len() as int),
            rows_before(layout, sel, j) + row,
        ),
{
    let rg = group_of(layout, sel, j);
    let offset = rows_before(layout, sel, j);
    let base = pages_before(layout, sel, j);
    lemma_before_monotonic(layout, sel, j + 1, sel.len() as int);
    lemma_before_monotonic(layout, sel, 0, j);
    assert(rows_before(layout, sel, j + 1) == offset + rg.num_rows);
    assert(page_end(rg, p) <= rg.num_rows) by {
        if p + 1 < rg.pages@.len() {
            assert(rg.pages@[p + 1].first_row_index < rg.num_rows);
        }
    }
    let r = RowRange {
        start: (offset + rg.pages@[p].first_row_index) as usize,
        end: (offset + page_end(rg, p)) as usize,
    };
    lemma_group_ranges_hold_page(rg, offset, mask, base, rg.pages@.len() as int, p);
    let g = group_ranges(rg, offset, mask, base, rg.pages@.len() as int);
    let before = selected_page_ranges(layout, sel, mask, j);
    let i = choose|i: int| 0 <= i < g.len() && g[i] == r;
    assert(selected_page_ranges(layout, sel, mask, j + 1) == before + g);
    assert((before + g)[before.len() + i] == r);
    lemma_selected_ranges_grow(layout, sel, mask, j + 1, sel.len() as int, r);
    let all = selected_page_ranges(layout, sel, mask, sel.len() as int);
    let k = choose|k: int| 0 <= k < all.len() && all[k] == r;
    assert(all[k].start <= offset + row < all[k].end);
}


/// A row group that survives is among the surviving row groups.
proof fn lemma_kept_groups_hold<K: IndexKey>(
    keys: Seq<K>,
    mask: Option<Seq<bool>>,
    blooms: Seq<Option<Sbbf>>,
    n: int,
    g: int,
)
    requires
        0 <= g < n,
        group_kept(keys, mask, blooms, g),
    ensures
        kept_groups(keys, mask, blooms, n).contains(g as usize),
    decreases n,
{
    let cur = kept_groups(keys, mask, blooms, n);
    if g == n - 1 {
        assert(cur[cur.len() - 1] == g as usize);
    } else {
        lemma_kept_groups_hold(keys, mask, blooms, n - 1, g);
        let prev = kept_groups(keys, mask, blooms, n - 1);
        let i = choose|i: int| 0 <= i < prev.len() && prev[i] == g as usize;
        assert(cur[i] == prev[i]);
    }
}

/// The statistics of page `p` of the row group at position `j` of the
/// selection, among the page statistics of the selection.
proof fn lemma_page_stats_at(layout: FileLayout, sel: Seq<usize>, j: int, p: int, n: int)
    requires
        0 <= j < n,
        0 <= p < group_of(layout, sel, j).pages@.len(),
    ensures
        pages_before(layout, sel, j) + p < selected_page_stats(layout, sel, n).len(),
        selected_page_stats(layout, sel, n)[pages_before(layout, sel, j) + p] == group_of(
            layout,
            sel,
            j,
        ).pages@[p].stats,
    decreases n,
{
    lemma_page_stats_len(layout, sel, n - 1);
    lemma_page_stats_len(layout, sel, n);
    lemma_before_monotonic(layout, sel, 0, j);
    let rg = group_of(layout, sel, n - 1);
    let before = selected_page_stats(layout, sel, n - 1);
    let added = Seq::new(rg.pages@.len(), |q: int| rg.pages@[q].stats);
    assert(selected_page_stats(layout, sel, n) == before + added);
    if n > j + 1 {
        lemma_page_stats_at(layout, sel, j, p, n - 1);
        lemma_before_monotonic(layout, sel, j + 1, n - 1);
        assert(pages_before(layout, sel, j + 1) == pages_before(layout, sel, j) + group_of(
            layout,
            sel,
            j,
        ).pages@.len());
        let i = pages_before(layout, sel, j) + p;
        assert(0 <= i);
        assert(i < before.len());
        assert((before + added)[i] == before[i]);
    } else {
        assert((before + added)[before.len() + p] == added[p]);
    }
}

/// Whether the plan for `keys` reads row group `g` and, within it, `row`.
pub open spec fn row_is_read<K: IndexKey>(
    keys: Seq<K>,
    index: Option<Seq<usize>>,
    layout: FileLayout,
    blooms: Seq<Option<Sbbf>>,
    g: int,
    row: int,
) -> bool {
    scan_plan_spec(keys, index, layout, blooms) matches Ok(t) && exists|j: int|
        0 <= j < t.1.len() && #[trigger] t.1[j] == g && t.2 is Some && in_ranges(
            t.2->0,
            rows_before(layout, t.1, j) + row,
        )
}

/// No false negatives, for integer keys: when the file-level index holds
/// the key of a row, and the statistics and Bloom filter of its row group
/// and the statistics of its page bound and hold that key, the plan reads
/// the row group and, within it, the row.
pub proof fn law_rows_holding_keys_are_read(
    keys: Seq<u64>,
    index: Option<Seq<usize>>,
    layout: FileLayout,
    blooms: Seq<Option<Sbbf>>,
    g: int,
    p: int,
    row: int,
    v: u64,
)
    requires
        keys.contains(v),
        index matches Some(values) ==> v <= usize::MAX && values.contains(v as usize),
        layout.row_groups@.len() <= usize::MAX,
        0 <= g < layout.row_groups@.len(),
        layout.row_groups@[g].stats matches Some(r) ==> r.min <= v <= r.max,
        filter_at(blooms, g) matches Some(f) ==> bloom_ids(f).contains(v),
        0 <= row < layout.row_groups@[g].num_rows,
        layout.has_page_index ==> 0 <= p < layout.row_groups@[g].pages@.len()
            && layout.row_groups@[g].pages@[p].first_row_index <= row < page_end(
            layout.row_groups@[g],
            p,
        ) && (layout.row_groups@[g].pages@[p].stats matches Some(r) ==> r.min <= v <= r.max),
        scan_plan_spec(keys, index, layout, blooms) is Ok,
    ensures
        row_is_read(keys, index, layout, blooms, g, row),
{
    let file_keys = keys_in_file_spec(keys, index);
    if let Some(values) = index {
        law_index_keeps_keys_in_file(values, keys, v);
    }
    assert(file_keys.contains(v));
    let n = layout.row_groups@.len() as int;
    let stats = row_group_stats(layout);
    law_statistics_keep_blocks_holding_keys(file_keys, stats, g, v);
    let mask = Some(overlap_mask(file_keys, stats));
    if let Some(f) = filter_at(blooms, g) {
        law_bloom_keeps_keys_it_holds(file_keys, f, v);
    }
    assert(group_kept(file_keys, mask, blooms, g));
    lemma_kept_groups_hold(file_keys, mask, blooms, n, g);
    lemma_kept_groups_bounded(file_keys, mask, blooms, n);
    let groups = kept_groups(file_keys, mask, blooms, n);
    let j = choose|j: int| 0 <= j < groups.len() && groups[j] == g as usize;
    let t = scan_plan_spec(keys, index, layout, blooms)->Ok_0;
    assert(t.1 == groups);
    assert(groups[j] as int == g);
    assert(group_of(layout, groups, j) == layout.row_groups@[g]);
    let total = rows_before(layout, groups, groups.len() as int);
    lemma_before_monotonic(layout, groups, j + 1, groups.len() as int);
    lemma_before_monotonic(layout, groups, 0, j);
    assert(rows_before(layout, groups, j + 1) == rows_before(layout, groups, j) + layout.row_groups@[g].num_rows);
    if !layout.has_page_index {
        let ranges = all_rows(total);
        assert(t.2 == Some(ranges));
        assert(ranges[0].start <= rows_before(layout, groups, j) + row < ranges[0].end);
    } else {
        assert(pages_valid(group_of(layout, groups, j)));
        let page_stats = selected_page_stats(layout, groups, groups.len() as int);
        lemma_page_stats_at(layout, groups, j, p, groups.len() as int);
        let page_mask = overlap_mask(file_keys, page_stats);
        law_statistics_keep_blocks_holding_keys(file_keys, page_stats, pages_before(layout, groups, j) + p, v);
        law_rows_of_kept_pages_are_read(layout, groups, page_mask, j, p, row);
    }
}


/// An absent file-level index changes what is pruned, not which rows holding
/// keys are read: such a row is read with a faithful index and without one.
pub proof fn law_absent_index_reads_same_rows(
    keys: Seq<u64>,
    values: Seq<usize>,
    layout: FileLayout,
    blooms: Seq<Option<Sbbf>>,
    g: int,
    p: int,
    row: int,
    v: u64,
)
    requires
        keys.contains(v),
        v <= usize::MAX && values.contains(v as usize),
        layout.row_groups@.len() <= usize::MAX,
        0 <= g < layout.row_groups@.len(),
        layout.row_groups@[g].stats matches Some(r) ==> r.min <= v <= r.max,
        filter_at(blooms, g) matches Some(f) ==> bloom_ids(f).contains(v),
        0 <= row < layout.row_groups@[g].num_rows,
        layout.has_page_index ==> 0 <= p < layout.row_groups@[g].pages@.len()
            && layout.row_groups@[g].pages@[p].first_row_index <= row < page_end(
            layout.row_groups@[g],
            p,
        ) && (layout.row_groups@[g].pages@[p].stats matches Some(r) ==> r.min <= v <= r.max),
        scan_plan_spec(keys, Some(values), layout, blooms) is Ok,
        scan_plan_spec(keys, None, layout, blooms) is Ok,
    ensures
        row_is_read(keys, Some(values), layout, blooms, g, row),
        row_is_read(keys, None, layout, blooms, g, row),
{
    law_rows_holding_keys_are_read(keys, Some(values), layout, blooms, g, p, row, v);
    law_rows_holding_keys_are_read(keys, None, layout, blooms, g, p, row, v);
}

} // verus!
