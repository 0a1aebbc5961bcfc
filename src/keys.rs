//! Key types of keyed scans, and pruning by column statistics.

use vstd::prelude::*;

use parquet::bloom_filter::Sbbf;

use crate::columnar::{bloom_blocks, bloom_byte_strings, bloom_check_bytes, bloom_check_id, bloom_ids};

verus! {

/// The `[min, max]` statistics of a key column over a row group or a page.
#[derive(Clone, Copy, Debug, PartialEq, Eq, Structural)]
pub struct ValueRange {
    pub min: u64,
    pub max: u64,
}

/// Why statistics could not be evaluated.
#[derive(Clone, Copy, Debug, PartialEq, Eq, Structural)]
pub enum StatisticsError {
    /// Pruning was asked for with an empty set of keys.
    EmptyKeys,
}

/// Whether a block whose statistics are `stats` may hold a value of `[lo, hi]`.
/// Missing statistics never prune.
pub open spec fn may_overlap(stats: Option<ValueRange>, lo: int, hi: int) -> bool {
    match stats {
        None => true,
        Some(r) => r.min <= hi && lo <= r.max,
    }
}

/// The smallest value of a non-empty sequence.
pub open spec fn seq_min(s: Seq<u64>) -> int
    decreases s.len(),
{
    if s.len() <= 1 {
        s[0] as int
    } else {
        let m = seq_min(s.drop_last());
        if (s.last() as int) < m { s.last() as int } else { m }
    }
}

/// The largest value of a non-empty sequence.
pub open spec fn seq_max(s: Seq<u64>) -> int
    decreases s.len(),
{
    if s.len() <= 1 {
        s[0] as int
    } else {
        let m = seq_max(s.drop_last());
        if (s.last() as int) > m { s.last() as int } else { m }
    }
}

/// One flag per block: whether the block may hold one of `keys`.
pub open spec fn overlap_mask(keys: Seq<u64>, stats: Seq<Option<ValueRange>>) -> Seq<bool> {
    Seq::new(stats.len(), |i: int| may_overlap(stats[i], seq_min(keys), seq_max(keys)))
}

/// `seq_min` and `seq_max` bound every element, and are elements.
pub proof fn lemma_min_max(s: Seq<u64>)
    requires
        s.len() > 0,
    ensures
        forall|i: int| 0 <= i < s.len() ==> seq_min(s) <= #[trigger] s[i] <= seq_max(s),
        s.contains(seq_min(s) as u64),
        s.contains(seq_max(s) as u64),
    decreases s.len(),
{
    if s.len() > 1 {
        lemma_min_max(s.drop_last());
        assert(forall|i: int| 0 <= i < s.len() - 1 ==> s.drop_last()[i] == s[i]);
        let m = seq_min(s.drop_last());
        let w = choose|j: int| 0 <= j < s.drop_last().len() && s.drop_last()[j] == m as u64;
        assert(s[w] == m as u64);
        let mx = seq_max(s.drop_last());
        let wx = choose|j: int| 0 <= j < s.drop_last().len() && s.drop_last()[j] == mx as u64;
        assert(s[wx] == mx as u64);
        assert(s[s.len() - 1] == s.last());
    }
}

/// Smallest and largest of a non-empty list of keys.
fn key_bounds(keys: &Vec<u64>) -> (r: (u64, u64))
    requires
        keys@.len() > 0,
    ensures
        r.0 == seq_min(keys@),
        r.1 == seq_max(keys@),
{
    let mut lo: u64 = keys[0];
    let mut hi: u64 = keys[0];
    let mut i: usize = 1;
    while i < keys.len()
        invariant
            1 <= i <= keys@.len(),
            lo == seq_min(keys@.subrange(0, i as int)),
            hi == seq_max(keys@.subrange(0, i as int)),
        decreases keys@.len() - i,
    {
        assert(keys@.subrange(0, i as int + 1).drop_last() =~= keys@.subrange(0, i as int));
        if keys[i] < lo {
            lo = keys[i];
        }
        if keys[i] > hi {
            hi = keys[i];
        }
        i = i + 1;
    }
    assert(keys@.subrange(0, keys@.len() as int) =~= keys@);
    (lo, hi)
}

/// Flags the blocks whose statistics intersect `[min(keys), max(keys)]`.
pub fn statistics_mask(keys: &Vec<u64>, stats: &Vec<Option<ValueRange>>) -> (r: Result<
    Vec<bool>,
    StatisticsError,
>)
    ensures
        keys@.len() == 0 <==> r is Err,
        r matches Err(e) ==> e == StatisticsError::EmptyKeys,
        r matches Ok(m) ==> m@ == overlap_mask(keys@, stats@),
{
    if keys.len() == 0 {
        return Err(StatisticsError::EmptyKeys);
    }
    let (lo, hi) = key_bounds(keys);
    let mut mask: Vec<bool> = Vec::new();
    let mut i: usize = 0;
    while i < stats.len()
        invariant
            i <= stats@.len(),
            lo == seq_min(keys@),
            hi == seq_max(keys@),
            mask@ =~= overlap_mask(keys@, stats@.subrange(0, i as int)),
        decreases stats@.len() - i,
    {
        let keep = match stats[i] {
            None => true,
            Some(range) => range.min <= hi && lo <= range.max,
        };
        mask.push(keep);
        i = i + 1;
    }
    assert(stats@.subrange(0, stats@.len() as int) =~= stats@);
    Ok(mask)
}


/// Statistics that bound the values of a block never prune it while one of
/// its values is a key.
pub proof fn law_statistics_keep_blocks_holding_keys(
    keys: Seq<u64>,
    stats: Seq<Option<ValueRange>>,
    g: int,
    v: u64,
)
    requires
        0 <= g < stats.len(),
        keys.contains(v),
        stats[g] matches Some(r) ==> r.min <= v <= r.max,
    ensures
        overlap_mask(keys, stats)[g],
{
    lemma_min_max(keys);
    let k = choose|k: int| 0 <= k < keys.len() && keys[k] == v;
    assert(seq_min(keys) <= keys[k] <= seq_max(keys));
}

/// A key equal to the minimum or the maximum of a block's statistics keeps
/// the block.
pub proof fn law_boundary_key_selects_block(
    keys: Seq<u64>,
    stats: Seq<Option<ValueRange>>,
    g: int,
    k: u64,
)
    requires
        0 <= g < stats.len(),
        keys.contains(k),
        stats[g] matches Some(r) && r.min <= r.max && (r.min == k || r.max == k),
    ensures
        overlap_mask(keys, stats)[g],
{
    law_statistics_keep_blocks_holding_keys(keys, stats, g, k);
}

/// A page whose statistics are `[k, k]`, for a key `k`, is kept; a page whose
/// statistics lie wholly outside `[min(keys), max(keys)]` is pruned.
pub proof fn law_single_value_page_kept_disjoint_page_pruned(
    keys: Seq<u64>,
    stats: Seq<Option<ValueRange>>,
    p: int,
    q: int,
    k: u64,
)
    requires
        0 <= p < stats.len(),
        0 <= q < stats.len(),
        keys.contains(k),
        stats[p] == Some(ValueRange { min: k, max: k }),
        stats[q] matches Some(r) && (r.max < seq_min(keys) || r.min > seq_max(keys)),
    ensures
        overlap_mask(keys, stats)[p],
        !overlap_mask(keys, stats)[q],
{
    law_boundary_key_selects_block(keys, stats, p, k);
}

/// What a statistics check answers, as plain values: an error, "cannot
/// prune" (`None`), or one flag per block.
pub open spec fn mask_view(r: Result<Option<Vec<bool>>, StatisticsError>) -> Result<
    Option<Seq<bool>>,
    StatisticsError,
> {
    match r {
        Ok(Some(m)) => Ok(Some(m@)),
        Ok(None) => Ok(None),
        Err(e) => Err(e),
    }
}

/// A type of key that a table can be scanned by.
pub trait IndexKey: Sized + Copy {
    /// The key as a value of the file-level Elias–Fano index, if that index
    /// can hold it.
    spec fn ef_key_spec(&self) -> Option<usize>;

    /// Whether a Bloom filter answers that the key may be present.
    spec fn bloom_spec(&self, filter: Sbbf) -> bool;

    /// What pruning blocks by their statistics answers for `keys`.
    spec fn statistics_spec(keys: Seq<Self>, stats: Seq<Option<ValueRange>>) -> Result<
        Option<Seq<bool>>,
        StatisticsError,
    >;

    /// Returns this key as a value of the file-level Elias–Fano index, if
    /// that index supports the key type.
    fn as_ef_key(&self) -> (r: Option<usize>)
        ensures
            r == self.ef_key_spec(),
    ;

    /// Asks a Bloom filter, which has at least one block, whether the key may
    /// be present.
    fn in_bloom_filter(&self, filter: &Sbbf) -> (r: bool)
        requires
            bloom_blocks(*filter) > 0,
        ensures
            r == self.bloom_spec(*filter),
    ;

    /// Returns, for each row group, whether it may hold one of `keys`,
    /// judging by the row groups' statistics; `None` when the statistics
    /// cannot prune (every row group is then selected).
    fn check_column_chunk(keys: &Vec<Self>, stats: &Vec<Option<ValueRange>>) -> (r: Result<
        Option<Vec<bool>>,
        StatisticsError,
    >)
        ensures
            mask_view(r) == Self::statistics_spec(keys@, stats@),
            r matches Ok(Some(m)) ==> m@.len() == stats@.len(),
    ;

    /// Returns, for each page of the selected row groups, whether it may hold
    /// one of `keys`, judging by the page index; `None` when the page index
    /// cannot prune (every page is then selected).
    fn check_page_index(keys: &Vec<Self>, stats: &Vec<Option<ValueRange>>) -> (r: Result<
        Option<Vec<bool>>,
        StatisticsError,
    >)
        ensures
            mask_view(r) == Self::statistics_spec(keys@, stats@),
            r matches Ok(Some(m)) ==> m@.len() == stats@.len(),
    ;
}

/// What statistics pruning answers for integer keys.
pub open spec fn u64_statistics(keys: Seq<u64>, stats: Seq<Option<ValueRange>>) -> Result<
    Option<Seq<bool>>,
    StatisticsError,
> {
    if keys.len() == 0 {
        Err(StatisticsError::EmptyKeys)
    } else {
        Ok(Some(overlap_mask(keys, stats)))
    }
}

fn u64_check(keys: &Vec<u64>, stats: &Vec<Option<ValueRange>>) -> (r: Result<
    Option<Vec<bool>>,
    StatisticsError,
>)
    ensures
        mask_view(r) == u64_statistics(keys@, stats@),
        r matches Ok(Some(m)) ==> m@.len() == stats@.len(),
{
    match statistics_mask(keys, stats) {
        Ok(m) => Ok(Some(m)),
        Err(e) => Err(e),
    }
}

impl IndexKey for u64 {
    open spec fn ef_key_spec(&self) -> Option<usize> {
        if *self <= usize::MAX {
            Some(*self as usize)
        } else {
            None
        }
    }

    open spec fn bloom_spec(&self, filter: Sbbf) -> bool {
        bloom_ids(filter).contains(*self)
    }

    open spec fn statistics_spec(keys: Seq<u64>, stats: Seq<Option<ValueRange>>) -> Result<
        Option<Seq<bool>>,
        StatisticsError,
    > {
        u64_statistics(keys, stats)
    }

    fn as_ef_key(&self) -> (r: Option<usize>) {
        if *self <= usize::MAX as u64 {
            Some(*self as usize)
        } else {
            None
        }
    }

    fn in_bloom_filter(&self, filter: &Sbbf) -> (r: bool) {
        bloom_check_id(filter, *self)
    }

    fn check_column_chunk(keys: &Vec<u64>, stats: &Vec<Option<ValueRange>>) -> (r: Result<
        Option<Vec<bool>>,
        StatisticsError,
    >) {
        u64_check(keys, stats)
    }

    fn check_page_index(keys: &Vec<u64>, stats: &Vec<Option<ValueRange>>) -> (r: Result<
        Option<Vec<bool>>,
        StatisticsError,
    >) {
        u64_check(keys, stats)
    }
}

/// A `sha1_git` hash: the 20 bytes that identify an object of the graph.
#[derive(Clone, Copy, Debug, PartialEq, Eq, Hash, PartialOrd, Ord)]
pub struct Sha1Git(pub [u8; 20]);

impl Sha1Git {
    /// The hash's bytes.
    pub fn as_bytes(&self) -> (r: &[u8; 20])
        ensures
            r@ == self.0@,
    {
        &self.0
    }
}

impl IndexKey for Sha1Git {
    /// Hashes are spread too thinly for a dense Elias–Fano index.
    open spec fn ef_key_spec(&self) -> Option<usize> {
        None
    }

    open spec fn bloom_spec(&self, filter: Sbbf) -> bool {
        bloom_byte_strings(filter).contains(self.0@)
    }

    /// Hashes are spread at random over row groups and pages: their
    /// statistics cannot prune.
    open spec fn statistics_spec(keys: Seq<Sha1Git>, stats: Seq<Option<ValueRange>>) -> Result<
        Option<Seq<bool>>,
        StatisticsError,
    > {
        Ok(None)
    }

    fn as_ef_key(&self) -> (r: Option<usize>) {
        None
    }

    fn in_bloom_filter(&self, filter: &Sbbf) -> (r: bool) {
        bloom_check_bytes(filter, &self.0)
    }

    fn check_column_chunk(keys: &Vec<Sha1Git>, stats: &Vec<Option<ValueRange>>) -> (r: Result<
        Option<Vec<bool>>,
        StatisticsError,
    >) {
        Ok(None)
    }

    fn check_page_index(keys: &Vec<Sha1Git>, stats: &Vec<Option<ValueRange>>) -> (r: Result<
        Option<Vec<bool>>,
        StatisticsError,
    >) {
        Ok(None)
    }
}

} // verus!
