//! The last pruning stage: a predicate on the key column that keeps exactly
//! the rows holding one of the keys, before the other columns are decoded.

use vstd::prelude::*;

use crate::columnar::{count_false, count_true, lemma_count_split};

verus! {

/// Counters of the row filter over a scan.
#[derive(Clone, Copy, Debug, PartialEq, Eq, Structural)]
pub struct TableScanMetrics {
    pub rows_pruned_by_row_filter: u64,
    pub rows_selected_by_row_filter: u64,
}

impl TableScanMetrics {
    /// Both counters at zero.
    pub fn new() -> (r: TableScanMetrics)
        ensures
            r.rows_pruned_by_row_filter == 0,
            r.rows_selected_by_row_filter == 0,
    {
        TableScanMetrics { rows_pruned_by_row_filter: 0, rows_selected_by_row_filter: 0 }
    }
}

/// Non-decreasing.
pub open spec fn sorted_keys(keys: Seq<u64>) -> bool {
    forall|i: int, j: int| 0 <= i < j < keys.len() ==> keys[i] <= keys[j]
}

/// One flag per candidate: whether it equals one of the keys.
pub open spec fn row_filter_mask(keys: Seq<u64>, candidates: Seq<u64>) -> Seq<bool> {
    Seq::new(candidates.len(), |i: int| keys.contains(candidates[i]))
}

/// Up to this many keys, candidates are compared with each key in turn;
/// beyond, they are looked up by binary search.
pub const LINEAR_SCAN_MAX_KEYS: usize = 4;

/// Whether `x` is one of `keys`, comparing with each.
pub(crate) fn contains_linear(keys: &Vec<u64>, x: u64) -> (r: bool)
    ensures
        r == keys@.contains(x),
{
    let mut i: usize = 0;
    while i < keys.len()
        invariant
            i <= keys@.len(),
            forall|j: int| 0 <= j < i ==> keys@[j] != x,
        decreases keys@.len() - i,
    {
        if keys[i] == x {
            assert(keys@[i as int] == x);
            return true;
        }
        i = i + 1;
    }
    false
}

/// Whether `x` is one of the sorted `keys`, by binary search.
fn contains_sorted(keys: &Vec<u64>, x: u64) -> (r: bool)
    requires
        sorted_keys(keys@),
    ensures
        r == keys@.contains(x),
{
    let mut lo: usize = 0;
    let mut hi: usize = keys.len();
    while lo < hi
        invariant
            lo <= hi <= keys@.len(),
            sorted_keys(keys@),
            forall|j: int| 0 <= j < lo ==> keys@[j] < x,
            forall|j: int| hi <= j < keys@.len() ==> keys@[j] > x,
        decreases hi - lo,
    {
        let mid = lo + (hi - lo) / 2;
        let k = keys[mid];
        if k == x {
            assert(keys@[mid as int] == x);
            return true;
        } else if k < x {
            lo = mid + 1;
        } else {
            hi = mid;
        }
    }
    false
}

/// Evaluates the row filter on a batch of the key column: flags the rows
/// whose key is one of `keys`, and counts them as selected, the others as
/// pruned.
pub fn evaluate_row_filter(keys: &Vec<u64>, candidates: &Vec<u64>, metrics: &mut TableScanMetrics) -> (r: Vec<bool>)
    requires
        sorted_keys(keys@),
        old(metrics).rows_selected_by_row_filter + old(metrics).rows_pruned_by_row_filter
            + candidates@.len() <= u64::MAX,
    ensures
        r@ == row_filter_mask(keys@, candidates@),
        final(metrics).rows_selected_by_row_filter == old(metrics).rows_selected_by_row_filter
            + count_true(r@),
        final(metrics).rows_pruned_by_row_filter == old(metrics).rows_pruned_by_row_filter
            + count_false(r@),
        final(metrics).rows_selected_by_row_filter + final(metrics).rows_pruned_by_row_filter
            == old(metrics).rows_selected_by_row_filter + old(metrics).rows_pruned_by_row_filter
            + candidates@.len(),
{
    let mut matches: Vec<bool> = Vec::new();
    let mut selected: u64 = 0;
    let mut i: usize = 0;
    let linear = keys.len() <= LINEAR_SCAN_MAX_KEYS;
    while i < candidates.len()
        invariant
            i <= candidates@.len(),
            sorted_keys(keys@),
            matches@ =~= row_filter_mask(keys@, candidates@.subrange(0, i as int)),
            selected == count_true(matches@),
            count_true(matches@) + count_false(matches@) == i,
        decreases candidates@.len() - i,
    {
        let candidate = candidates[i];
        let is_match = if linear {
            contains_linear(keys, candidate)
        } else {
            contains_sorted(keys, candidate)
        };
        let ghost before = matches@;
        matches.push(is_match);
        assert(matches@.drop_last() =~= before);
        if is_match {
            selected = selected + 1;
        }
        i = i + 1;
    }
    assert(candidates@.subrange(0, candidates@.len() as int) =~= candidates@);
    proof {
        lemma_count_split(matches@);
    }
    let pruned = candidates.len() as u64 - selected;
    metrics.rows_selected_by_row_filter = metrics.rows_selected_by_row_filter + selected;
    metrics.rows_pruned_by_row_filter = metrics.rows_pruned_by_row_filter + pruned;
    matches
}


/// The row filter depends on the set of keys only: repeating a key neither
/// adds rows nor repeats one, each row being flagged once.
pub proof fn law_duplicate_keys_same_rows(keys: Seq<u64>, deduped: Seq<u64>, candidates: Seq<u64>)
    requires
        forall|x: u64| keys.contains(x) <==> deduped.contains(x),
    ensures
        row_filter_mask(keys, candidates) == row_filter_mask(deduped, candidates),
        row_filter_mask(keys, candidates).len() == candidates.len(),
        count_true(row_filter_mask(keys, candidates)) <= candidates.len(),
{
    assert(row_filter_mask(keys, candidates) =~= row_filter_mask(deduped, candidates));
    lemma_count_split(row_filter_mask(keys, candidates));
}

/// With no keys, the row filter keeps no row.
pub proof fn law_no_keys_no_rows(candidates: Seq<u64>)
    ensures
        forall|i: int| 0 <= i < candidates.len() ==> !#[trigger] row_filter_mask(Seq::empty(), candidates)[i],
{
}

} // verus!
