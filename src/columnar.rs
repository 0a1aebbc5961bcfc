//! The parts of the columnar file format's library that the pruning stages
//! call: split-block Bloom filters and row selections.

use vstd::prelude::*;

use parquet::arrow::arrow_reader::RowSelection;
use parquet::bloom_filter::Sbbf;

verus! {

#[verifier::external_type_specification]
#[verifier::external_body]
pub struct ExSbbf(parquet::bloom_filter::Sbbf);

#[verifier::external_type_specification]
#[verifier::external_body]
pub struct ExRowSelection(parquet::arrow::arrow_reader::RowSelection);

/// The integers for which a Bloom filter answers "may be present".
pub uninterp spec fn bloom_ids(filter: Sbbf) -> Set<u64>;

/// The byte strings for which a Bloom filter answers "may be present".
pub uninterp spec fn bloom_byte_strings(filter: Sbbf) -> Set<Seq<u8>>;

/// The number of blocks of a Bloom filter.
pub uninterp spec fn bloom_blocks(filter: Sbbf) -> nat;

/// Relies on `Sbbf::num_blocks`: the number of blocks of the filter.
#[verifier::external_body]
pub(crate) fn bloom_block_count(filter: &Sbbf) -> (r: usize)
    ensures
        r == bloom_blocks(*filter),
{
    filter.num_blocks()
}

/// Relies on `Sbbf::check` on a `u64`: the answer depends on the filter and
/// the value alone. It indexes the filter's blocks, so a filter without
/// blocks is left out.
#[verifier::external_body]
pub(crate) fn bloom_check_id(filter: &Sbbf, value: u64) -> (r: bool)
    requires
        bloom_blocks(*filter) > 0,
    ensures
        r == bloom_ids(*filter).contains(value),
{
    filter.check(&value)
}

/// Relies on `Sbbf::check` on a byte slice: the answer depends on the filter
/// and the bytes alone. It indexes the filter's blocks, so a filter without
/// blocks is left out.
#[verifier::external_body]
pub(crate) fn bloom_check_bytes(filter: &Sbbf, value: &[u8; 20]) -> (r: bool)
    requires
        bloom_blocks(*filter) > 0,
    ensures
        r == bloom_byte_strings(*filter).contains(value@),
{
    filter.check(&value[..])
}

/// A half-open range `[start, end)` of row indices.
#[derive(Clone, Copy, Debug, PartialEq, Eq, Structural)]
pub struct RowRange {
    pub start: usize,
    pub end: usize,
}

/// Each range is non-empty or empty, ranges come in increasing order without
/// overlapping, and all of them end within `total` rows.
pub open spec fn ranges_ordered(ranges: Seq<RowRange>, total: int) -> bool {
    &&& forall|j: int| 0 <= j < ranges.len() ==> #[trigger] ranges[j].start <= ranges[j].end
    &&& forall|j: int| 0 <= j < ranges.len() ==> #[trigger] ranges[j].end <= total
    &&& forall|j: int, k: int|
        0 <= j < k < ranges.len() ==> #[trigger] ranges[j].end <= #[trigger] ranges[k].start
}

/// Whether row `i` lies in one of `ranges`.
pub open spec fn in_ranges(ranges: Seq<RowRange>, i: int) -> bool {
    exists|j: int| 0 <= j < ranges.len() && #[trigger] ranges[j].start <= i < ranges[j].end
}

/// One flag per row of `[0, total)`: whether it lies in one of `ranges`.
pub open spec fn ranges_mask(ranges: Seq<RowRange>, total: nat) -> Seq<bool> {
    Seq::new(total, |i: int| in_ranges(ranges, i))
}

/// The number of `true` flags.
pub open spec fn count_true(s: Seq<bool>) -> nat
    decreases s.len(),
{
    if s.len() == 0 {
        0
    } else {
        count_true(s.drop_last()) + if s.last() { 1nat } else { 0nat }
    }
}

/// The number of `false` flags.
pub open spec fn count_false(s: Seq<bool>) -> nat
    decreases s.len(),
{
    if s.len() == 0 {
        0
    } else {
        count_false(s.drop_last()) + if s.last() { 0nat } else { 1nat }
    }
}

/// Every flag is counted once, as selected or as skipped.
pub proof fn lemma_count_split(s: Seq<bool>)
    ensures
        count_true(s) + count_false(s) == s.len(),
    decreases s.len(),
{
    if s.len() > 0 {
        lemma_count_split(s.drop_last());
    }
}

/// The rows that a selection keeps, one flag per row of the rows it spans.
pub uninterp spec fn selection_mask(selection: RowSelection) -> Seq<bool>;

/// Relies on `RowSelection::from_consecutive_ranges`: it selects exactly the
/// rows of the ranges, out of `total` rows. It panics on ranges out of order
/// or past `total`, which `requires` leaves out.
#[verifier::external_body]
pub(crate) fn selection_from_ranges(ranges: &Vec<RowRange>, total: usize) -> (r: RowSelection)
    requires
        ranges_ordered(ranges@, total as int),
    ensures
        selection_mask(r) == ranges_mask(ranges@, total as nat),
{
    RowSelection::from_consecutive_ranges(ranges.iter().map(|r| r.start..r.end), total)
}

/// Relies on `RowSelection::row_count`: the number of selected rows.
#[verifier::external_body]
pub(crate) fn selected_row_count(selection: &RowSelection) -> (r: usize)
    ensures
        r == count_true(selection_mask(*selection)),
{
    selection.row_count()
}

/// Relies on `RowSelection::skipped_row_count`: the number of skipped rows.
#[verifier::external_body]
pub(crate) fn skipped_row_count(selection: &RowSelection) -> (r: usize)
    ensures
        r == count_false(selection_mask(*selection)),
{
    selection.skipped_row_count()
}

} // verus!
