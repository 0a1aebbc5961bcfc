//! File-level indexes: the distinct values of a key column of one file, as an
//! Elias–Fano encoded strictly increasing sequence.

use vstd::prelude::*;

use itertools::Itertools;
use rdst::RadixSort;
use sux::dict::elias_fano::{EfDict, EliasFanoBuilder};
use sux::traits::IndexedDict;

verus! {

broadcast use vstd::seq_lib::group_to_multiset_ensures;

/// Non-decreasing.
pub open spec fn sorted(s: Seq<usize>) -> bool {
    forall|i: int, j: int| 0 <= i < j < s.len() ==> s[i] <= s[j]
}

/// Strictly increasing: sorted, without repetitions.
pub open spec fn strictly_increasing(s: Seq<usize>) -> bool {
    forall|i: int, j: int| 0 <= i < j < s.len() ==> s[i] < s[j]
}

/// The values of a file-level index, as stored in memory.
///
/// The field is public so that an index stored on disk can be wrapped once it
/// is loaded.
#[verifier::external_body]
pub struct EfIndexValues {
    pub dict: EfDict,
}

/// The sequence of values that an index holds.
pub uninterp spec fn ef_values(index: EfIndexValues) -> Seq<usize>;

/// An index under construction, with room for a fixed number of values.
#[verifier::external_body]
pub struct EfIndexBuilder {
    builder: EliasFanoBuilder<usize>,
}

/// The values pushed so far.
pub uninterp spec fn builder_values(builder: EfIndexBuilder) -> Seq<usize>;

/// The number of values the builder was made for.
pub uninterp spec fn builder_capacity(builder: EfIndexBuilder) -> nat;

/// The upper bound on values the builder was made for.
pub uninterp spec fn builder_bound(builder: EfIndexBuilder) -> usize;

impl EfIndexBuilder {
    /// Relies on `EliasFanoBuilder::new`: an empty builder for `n` values of
    /// at most `u`. It panics when its bit arrays would exceed `usize`, which
    /// the bound on `n` leaves out.
    #[verifier::external_body]
    pub fn new(n: usize, u: usize) -> (r: EfIndexBuilder)
        requires
            3 * (n as int) < usize::MAX,
        ensures
            builder_values(r) == Seq::<usize>::empty(),
            builder_capacity(r) == n,
            builder_bound(r) == u,
    {
        EfIndexBuilder { builder: EliasFanoBuilder::new(n, u) }
    }

    /// Relies on `EliasFanoBuilder::push`: appends a value. It panics past
    /// the capacity, above the bound or on a decreasing value, which
    /// `requires` leaves out.
    #[verifier::external_body]
    pub fn push(&mut self, value: usize)
        requires
            builder_values(*old(self)).len() < builder_capacity(*old(self)),
            value <= builder_bound(*old(self)),
            builder_values(*old(self)).len() > 0 ==> builder_values(*old(self)).last() <= value,
        ensures
            builder_values(*final(self)) == builder_values(*old(self)).push(value),
            builder_capacity(*final(self)) == builder_capacity(*old(self)),
            builder_bound(*final(self)) == builder_bound(*old(self)),
    {
        self.builder.push(value)
    }

    /// Relies on `EliasFanoBuilder::build_with_dict`: an index of the pushed
    /// values. It panics unless exactly the capacity was pushed.
    #[verifier::external_body]
    pub fn build(self) -> (r: EfIndexValues)
        requires
            builder_values(self).len() == builder_capacity(self),
        ensures
            ef_values(r) == builder_values(self),
    {
        EfIndexValues { dict: self.builder.build_with_dict() }
    }
}

impl EfIndexValues {
    /// Relies on `IndexedDict::contains` of the Elias–Fano dictionary.
    #[verifier::external_body]
    pub fn contains(&self, value: usize) -> (r: bool)
        ensures
            r == ef_values(*self).contains(value),
    {
        self.dict.contains(value)
    }

    /// Relies on `IndexedDict::index_of` of the Elias–Fano dictionary: the
    /// position of the first occurrence of `value`, if any.
    #[verifier::external_body]
    pub fn index_of(&self, value: usize) -> (r: Option<usize>)
        ensures
            r is None <==> !ef_values(*self).contains(value),
            r matches Some(i) ==> i < ef_values(*self).len() && ef_values(*self)[i as int] == value
                && forall|j: int| 0 <= j < i ==> ef_values(*self)[j] != value,
    {
        self.dict.index_of(value)
    }
}

/// Relies on `RadixSort::radix_sort_unstable`: sorts in place.
#[verifier::external_body]
fn radix_sort(values: &mut Vec<usize>)
    ensures
        sorted(final(values)@),
        final(values)@.to_multiset() == old(values)@.to_multiset(),
{
    values.radix_sort_unstable()
}

/// The runs one after the other.
pub open spec fn concat_runs(runs: Seq<Vec<usize>>) -> Seq<usize> {
    runs.map_values(|run: Vec<usize>| run@).flatten()
}

/// Whether one of the runs holds `v`.
pub open spec fn in_some_run(runs: Seq<Vec<usize>>, v: usize) -> bool {
    exists|i: int| 0 <= i < runs.len() && #[trigger] runs[i]@.contains(v)
}

/// Relies on `itertools::kmerge`: merges sorted runs into one sorted sequence
/// holding every element of every run.
#[verifier::external_body]
fn kmerge_runs(runs: &Vec<Vec<usize>>) -> (r: Vec<usize>)
    requires
        forall|i: int| 0 <= i < runs@.len() ==> sorted(#[trigger] runs@[i]@),
    ensures
        sorted(r@),
        r@.to_multiset() == concat_runs(runs@).to_multiset(),
        forall|v: usize| r@.contains(v) <==> in_some_run(runs@, v),
{
    runs.iter().map(|run| run.iter().copied()).kmerge().collect()
}

/// `s` in order, without each value equal to the one just before it.
pub open spec fn dedup_spec(s: Seq<usize>) -> Seq<usize>
    decreases s.len(),
{
    if s.len() == 0 {
        Seq::empty()
    } else if s.len() >= 2 && s[s.len() - 1] == s[s.len() - 2] {
        dedup_spec(s.drop_last())
    } else {
        dedup_spec(s.drop_last()).push(s.last())
    }
}

/// Drops every value equal to the one just before it, keeping the order.
/// The same values remain; a sorted input comes out strictly increasing.
pub fn dedup_consecutive(values: &Vec<usize>) -> (r: Vec<usize>)
    ensures
        r@ == dedup_spec(values@),
        forall|v: usize| r@.contains(v) <==> values@.contains(v),
        sorted(values@) ==> strictly_increasing(r@),
        r@.len() <= values@.len(),
{
    let mut out: Vec<usize> = Vec::new();
    let mut i: usize = 0;
    while i < values.len()
        invariant
            i <= values@.len(),
            out@.len() <= i,
            forall|v: usize| out@.contains(v) <==> values@.subrange(0, i as int).contains(v),
            i > 0 ==> out@.len() > 0 && out@.last() == values@[i - 1],
            sorted(values@) ==> strictly_increasing(out@),
            out@ == dedup_spec(values@.subrange(0, i as int)),
        decreases values@.len() - i,
    {
        let v = values[i];
        let ghost prefix = values@.subrange(0, i as int);
        assert(values@.subrange(0, i + 1) =~= prefix.push(v));
        assert(values@.subrange(0, i + 1).drop_last() =~= prefix);
        assert(i > 0 ==> values@.subrange(0, i + 1)[i - 1] == values@[i - 1]);
        if out.len() == 0 || out[out.len() - 1] != v {
            proof {
                if sorted(values@) && i > 0 {
                    assert(values@[i - 1] <= v);
                }
            }
            let ghost before = out@;
            out.push(v);
            proof {
                let ext = values@.subrange(0, i + 1);
                assert(ext[i as int] == v);
                assert forall|x: usize| out@.contains(x) <==> ext.contains(x) by {
                    if out@.contains(x) {
                        let k = choose|k: int| 0 <= k < out@.len() && #[trigger] out@[k] == x;
                        if k < out@.len() - 1 {
                            assert(before[k] == x);
                            assert(before.contains(x));
                            assert(prefix.contains(x));
                            let k2 = choose|k2: int| 0 <= k2 < prefix.len() && #[trigger] prefix[k2] == x;
                            assert(ext[k2] == x);
                        } else {
                            assert(ext[i as int] == x);
                        }
                    }
                    if ext.contains(x) {
                        if x == v {
                            assert(out@[out@.len() - 1] == x);
                        } else {
                            let k = choose|k: int| 0 <= k < i + 1 && #[trigger] ext[k] == x;
                            assert(prefix[k] == x);
                            assert(prefix.contains(x));
                            assert(before.contains(x));
                            let k2 = choose|k2: int| 0 <= k2 < before.len() && #[trigger] before[k2] == x;
                            assert(out@[k2] == x);
                        }
                    }
                }
            }
        } else {
            proof {
                assert forall|x: usize| out@.contains(x) <==> values@.subrange(0, i + 1).contains(x) by {
                    if values@.subrange(0, i + 1).contains(x) && x != v {
                        let k = choose|k: int| 0 <= k < i + 1 && #[trigger] values@.subrange(0, i + 1)[k] == x;
                        assert(prefix[k] == x);
                    }
                    if x == v {
                        assert(out@[out@.len() - 1] == x);
                    }
                }
            }
        }
        i = i + 1;
    }
    assert(values@.subrange(0, values@.len() as int) =~= values@);
    out
}


/// Why a file-level index could not be built.
#[derive(Clone, Copy, Debug, PartialEq, Eq, Structural)]
pub enum IndexBuildError {
    /// A value of the column does not fit in `usize`.
    ValueOverflow,
    /// The index would be too large for this machine.
    TooManyValues,
}

/// Whether some batch holds `value`.
pub open spec fn in_batches(batches: Seq<Vec<u64>>, value: u64) -> bool {
    exists|b: int| 0 <= b < batches.len() && #[trigger] batches[b]@.contains(value)
}

/// Whether some value of some batch does not fit in `usize`.
pub open spec fn has_oversized(batches: Seq<Vec<u64>>) -> bool {
    exists|b: int, i: int|
        0 <= b < batches.len() && 0 <= i < batches[b]@.len() && #[trigger] batches[b]@[i]
            > usize::MAX
}

/// The distinct values of one batch, in increasing order.
fn batch_run(batch: &Vec<u64>) -> (r: Result<Vec<usize>, IndexBuildError>)
    ensures
        r is Err <==> exists|i: int| 0 <= i < batch@.len() && #[trigger] batch@[i] > usize::MAX,
        r matches Err(e) ==> e == IndexBuildError::ValueOverflow,
        r matches Ok(run) ==> strictly_increasing(run@) && forall|v: usize|
            run@.contains(v) <==> batch@.contains(v as u64),
{
    let mut values: Vec<usize> = Vec::new();
    let mut i: usize = 0;
    while i < batch.len()
        invariant
            i <= batch@.len(),
            values@.len() == i,
            forall|k: int| 0 <= k < i ==> #[trigger] batch@[k] <= usize::MAX,
            forall|k: int| 0 <= k < i ==> #[trigger] values@[k] as u64 == batch@[k],
        decreases batch@.len() - i,
    {
        let x = batch[i];
        if x > usize::MAX as u64 {
            return Err(IndexBuildError::ValueOverflow);
        }
        values.push(x as usize);
        assert(values@[i as int] as u64 == batch@[i as int]);
        i = i + 1;
    }
    assert(!exists|i: int| 0 <= i < batch@.len() && #[trigger] batch@[i] > usize::MAX);
    proof {
        assert forall|v: usize| values@.contains(v) <==> batch@.contains(v as u64) by {
            if values@.contains(v) {
                let k = choose|k: int| 0 <= k < values@.len() && #[trigger] values@[k] == v;
                assert(batch@[k] == v as u64);
            }
            if batch@.contains(v as u64) {
                let k = choose|k: int| 0 <= k < batch@.len() && #[trigger] batch@[k] == v as u64;
                assert(values@[k] as u64 == v as u64);
                assert(values@[k] == v);
            }
        }
    }
    // an early pass over runs of equal values makes the sort cheaper
    let ghost converted = values@;
    let mut values = dedup_consecutive(&values);
    let ghost unsorted = values@;
    radix_sort(&mut values);
    proof {
        assert forall|v: usize| values@.contains(v) <==> unsorted.contains(v) by {
            assert(values@.contains(v) <==> values@.to_multiset().count(v) > 0);
            assert(unsorted.contains(v) <==> unsorted.to_multiset().count(v) > 0);
        }
    }
    let run = dedup_consecutive(&values);
    assert(strictly_increasing(run@));
    assert forall|v: usize| run@.contains(v) <==> batch@.contains(v as u64) by {
        assert(run@.contains(v) <==> values@.contains(v));
        assert(values@.contains(v) <==> unsorted.contains(v));
        assert(unsorted.contains(v) <==> converted.contains(v));
    }
    Ok(run)
}

/// The distinct values of a column, read in batches.
pub open spec fn column_values(batches: Seq<Vec<u64>>) -> Set<usize> {
    Set::new(|v: usize| in_batches(batches, v as u64))
}

/// The largest number of distinct values an index can be built for on this
/// machine: beyond, the index's bit arrays would not be addressable.
pub open spec fn max_index_values() -> int {
    (usize::MAX - 1) / 3
}

/// Builds the file-level index of a key column from the column's values,
/// read in batches: the distinct values, in increasing order.
pub fn build_ef_index(batches: &Vec<Vec<u64>>) -> (r: Result<EfIndexValues, IndexBuildError>)
    ensures
        has_oversized(batches@) ==> r == Err::<EfIndexValues, IndexBuildError>(
            IndexBuildError::ValueOverflow,
        ),
        !has_oversized(batches@) && column_values(batches@).len() <= max_index_values() ==> r is Ok,
        r == Err::<EfIndexValues, IndexBuildError>(IndexBuildError::TooManyValues) <==> (!has_oversized(
            batches@,
        ) && column_values(batches@).len() > max_index_values()),
        r matches Ok(index) ==> strictly_increasing(ef_values(index)) && ef_values(index).len()
            == column_values(batches@).len() && forall|v: usize|
            ef_values(index).contains(v) <==> in_batches(batches@, v as u64),
{
    let mut runs: Vec<Vec<usize>> = Vec::new();
    let mut b: usize = 0;
    while b < batches.len()
        invariant
            b <= batches@.len(),
            runs@.len() == b,
            forall|k: int| 0 <= k < b ==> strictly_increasing(#[trigger] runs@[k]@),
            forall|k: int, v: usize|
                0 <= k < b ==> (#[trigger] runs@[k]@.contains(v) <==> batches@[k]@.contains(
                    v as u64,
                )),
            forall|k: int, i: int|
                0 <= k < b && 0 <= i < batches@[k]@.len() ==> #[trigger] batches@[k]@[i]
                    <= usize::MAX,
        decreases batches@.len() - b,
    {
        match batch_run(&batches[b]) {
            Ok(run) => {
                runs.push(run);
            },
            Err(e) => {
                return Err(e);
            },
        }
        b = b + 1;
    }
    let merged = kmerge_runs(&runs);
    let values = dedup_consecutive(&merged);
    let n = values.len();
    proof {
        assert forall|v: usize| values@.contains(v) <==> in_batches(batches@, v as u64) by {
            if in_batches(batches@, v as u64) {
                let k = choose|k: int| 0 <= k < batches@.len() && #[trigger] batches@[k]@.contains(v as u64);
                assert(runs@[k]@.contains(v));
                assert(in_some_run(runs@, v));
            }
            if values@.contains(v) {
                assert(merged@.contains(v));
                let k = choose|k: int| 0 <= k < runs@.len() && #[trigger] runs@[k]@.contains(v);
                assert(batches@[k]@.contains(v as u64));
            }
        }
        assert(values@.no_duplicates()) by {
            assert forall|a: int, b: int| 0 <= a < values@.len() && 0 <= b < values@.len() && a != b implies values@[a] != values@[b] by {
                if a < b {
                    assert(values@[a] < values@[b]);
                } else {
                    assert(values@[b] < values@[a]);
                }
            }
        }
        values@.unique_seq_to_set();
        assert(values@.to_set() =~= column_values(batches@));
        assert(!has_oversized(batches@));
    }
    if n > (usize::MAX - 1) / 3 {
        return Err(IndexBuildError::TooManyValues);
    }
    let max_value: usize = if n == 0 {
        0
    } else {
        values[n - 1]
    };
    let mut builder = EfIndexBuilder::new(n, max_value);
    let mut i: usize = 0;
    while i < n
        invariant
            n == values@.len(),
            i <= n,
            strictly_increasing(values@),
            n > 0 ==> max_value == values@[n - 1],
            builder_values(builder) == values@.subrange(0, i as int),
            builder_capacity(builder) == n,
            builder_bound(builder) == max_value,
        decreases n - i,
    {
        assert(values@.subrange(0, i + 1) =~= values@.subrange(0, i as int).push(values@[i as int]));
        builder.push(values[i]);
        i = i + 1;
    }
    assert(values@.subrange(0, n as int) =~= values@);
    let index = builder.build();
    proof {
        assert forall|v: usize| ef_values(index).contains(v) <==> in_batches(batches@, v as u64) by {
            if in_batches(batches@, v as u64) {
                let k = choose|k: int| 0 <= k < batches@.len() && #[trigger] batches@[k]@.contains(v as u64);
                assert(runs@[k]@.contains(v));
                assert(in_some_run(runs@, v));
            }
            if values@.contains(v) {
                assert(merged@.contains(v));
                let k = choose|k: int| 0 <= k < runs@.len() && #[trigger] runs@[k]@.contains(v);
                assert(batches@[k]@.contains(v as u64));
            }
        }
    }
    Ok(index)
}


/// A value that the file-level index built from a file's key column lacks
/// is in no row of the file.
pub proof fn law_absent_from_index_absent_from_file(batches: Seq<Vec<u64>>, index: EfIndexValues, k: u64)
    requires
        forall|v: usize| ef_values(index).contains(v) <==> in_batches(batches, v as u64),
        !has_oversized(batches),
        !(k <= usize::MAX && ef_values(index).contains(k as usize)),
    ensures
        !in_batches(batches, k),
{
    if in_batches(batches, k) {
        let b = choose|b: int| 0 <= b < batches.len() && #[trigger] batches[b]@.contains(k);
        let i = choose|i: int| 0 <= i < batches[b]@.len() && batches[b]@[i] == k;
        assert(batches[b]@[i] <= usize::MAX);
        assert(ef_values(index).contains(k as usize));
    }
}

} // verus!
