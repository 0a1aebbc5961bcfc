//! Provenance queries: resolving SWHIDs to node ids and back through the
//! node table, and finding a revision or release that holds an object.

use vstd::prelude::*;
use vstd::string::StringSliceAdditionalSpecFns;

use crate::keys::Sha1Git;
use crate::row_filter::contains_linear;
use crate::swhid::{is_swhid_text, parse_swhid, reads_as, swhid_text, NodeType, Swhid};

verus! {

/// A row of the node table.
#[derive(Clone, Copy, Debug)]
pub struct NodeRow {
    pub id: u64,
    pub node_type: NodeType,
    pub sha1_git: Sha1Git,
}

/// Why a query failed.
#[derive(Clone, Debug)]
pub enum QueryError {
    /// The text is not a SWHID.
    InvalidArgument,
    /// These SWHIDs are not in the node table.
    NotFound(Vec<Swhid>),
    /// The same SWHID was asked for twice in one request.
    DuplicateSwhids,
    /// A node id found in a relation is not in the node table.
    UnknownNodeId(u64),
    /// An answer came that the query was not waiting for.
    UnexpectedEvent,
}

/// Whether two SWHIDs name the same object.
pub open spec fn same_object(a: Swhid, b: Swhid) -> bool {
    a.node_type == b.node_type && a.hash.0@ == b.hash.0@
}

/// Whether a row of the node table describes the object of `s`.
pub open spec fn row_is(row: NodeRow, s: Swhid) -> bool {
    row.node_type == s.node_type && row.sha1_git.0@ == s.hash.0@
}

/// The SWHID that a row of the node table describes.
pub open spec fn row_swhid(row: NodeRow) -> Swhid {
    Swhid { namespace_version: 1, node_type: row.node_type, hash: row.sha1_git }
}

/// The id of the object of `s` in the node table, if it is there (the last
/// row that describes it).
pub open spec fn node_id_in(rows: Seq<NodeRow>, s: Swhid) -> Option<u64>
    decreases rows.len(),
{
    if rows.len() == 0 {
        None
    } else if row_is(rows.last(), s) {
        Some(rows.last().id)
    } else {
        node_id_in(rows.drop_last(), s)
    }
}

/// The SWHID of the node `id` in the node table, if it is there (the last
/// row with that id).
pub open spec fn swhid_in(rows: Seq<NodeRow>, id: u64) -> Option<Swhid>
    decreases rows.len(),
{
    if rows.len() == 0 {
        None
    } else if rows.last().id == id {
        Some(row_swhid(rows.last()))
    } else {
        swhid_in(rows.drop_last(), id)
    }
}

/// A node table is a bijection: each id, and each object, on one row only.
pub open spec fn node_table_wf(rows: Seq<NodeRow>) -> bool {
    &&& forall|i: int, j: int| 0 <= i < j < rows.len() ==> #[trigger] rows[i].id != #[trigger] rows[j].id
    &&& forall|i: int, j: int|
        0 <= i < j < rows.len() ==> !row_is(#[trigger] rows[i], row_swhid(#[trigger] rows[j]))
}

/// Whether two SWHIDs of the list name the same object.
pub open spec fn has_duplicate(swhids: Seq<Swhid>) -> bool {
    exists|i: int, j: int|
        0 <= i < j < swhids.len() && same_object(#[trigger] swhids[i], #[trigger] swhids[j])
}

/// The SWHIDs of the list that the node table does not hold, in order.
pub open spec fn unknown_swhids(rows: Seq<NodeRow>, swhids: Seq<Swhid>) -> Seq<Swhid>
    decreases swhids.len(),
{
    if swhids.len() == 0 {
        Seq::empty()
    } else if node_id_in(rows, swhids.last()) is None {
        unknown_swhids(rows, swhids.drop_last()).push(swhids.last())
    } else {
        unknown_swhids(rows, swhids.drop_last())
    }
}

/// Whether two hashes are equal.
pub fn same_hash(a: &Sha1Git, b: &Sha1Git) -> (r: bool)
    ensures
        r == (a.0@ == b.0@),
{
    let mut i: usize = 0;
    while i < 20
        invariant
            i <= 20,
            forall|k: int| 0 <= k < i ==> a.0@[k] == b.0@[k],
        decreases 20 - i,
    {
        if a.0[i] != b.0[i] {
            return false;
        }
        i = i + 1;
    }
    assert(a.0@ =~= b.0@);
    true
}

/// The id of the object of `s` in the node table, if it is there.
pub fn node_id_of(rows: &Vec<NodeRow>, s: &Swhid) -> (r: Option<u64>)
    ensures
        r == node_id_in(rows@, *s),
{
    let mut found: Option<u64> = None;
    let mut i: usize = 0;
    while i < rows.len()
        invariant
            i <= rows@.len(),
            found == node_id_in(rows@.subrange(0, i as int), *s),
        decreases rows@.len() - i,
    {
        assert(rows@.subrange(0, i + 1).drop_last() =~= rows@.subrange(0, i as int));
        let row = &rows[i];
        if row.node_type == s.node_type && same_hash(&row.sha1_git, &s.hash) {
            found = Some(row.id);
        }
        i = i + 1;
    }
    assert(rows@.subrange(0, rows@.len() as int) =~= rows@);
    found
}

/// The SWHID of the node `id` in the node table, if it is there.
pub fn swhid_of(rows: &Vec<NodeRow>, id: u64) -> (r: Option<Swhid>)
    ensures
        r == swhid_in(rows@, id),
{
    let mut found: Option<Swhid> = None;
    let mut i: usize = 0;
    while i < rows.len()
        invariant
            i <= rows@.len(),
            found == swhid_in(rows@.subrange(0, i as int), id),
        decreases rows@.len() - i,
    {
        assert(rows@.subrange(0, i + 1).drop_last() =~= rows@.subrange(0, i as int));
        let row = &rows[i];
        if row.id == id {
            found = Some(Swhid { namespace_version: 1, node_type: row.node_type, hash: row.sha1_git });
        }
        i = i + 1;
    }
    assert(rows@.subrange(0, rows@.len() as int) =~= rows@);
    found
}


/// Whether some SWHID among the first `n` names the same object as `s`.
fn seen_before(swhids: &Vec<Swhid>, n: usize, s: &Swhid) -> (r: bool)
    requires
        n <= swhids@.len(),
    ensures
        r == exists|i: int| 0 <= i < n && same_object(#[trigger] swhids@[i], *s),
{
    let mut i: usize = 0;
    while i < n
        invariant
            n <= swhids@.len(),
            i <= n,
            forall|k: int| 0 <= k < i ==> !same_object(#[trigger] swhids@[k], *s),
        decreases n - i,
    {
        if swhids[i].node_type == s.node_type && same_hash(&swhids[i].hash, &s.hash) {
            assert(same_object(swhids@[i as int], *s));
            return true;
        }
        i = i + 1;
    }
    false
}

/// Resolves SWHIDs to node ids through the node table, in the order asked.
/// Fails on a SWHID asked for twice, then on SWHIDs the table does not hold
/// (listing them all).
pub fn node_ids_of(rows: &Vec<NodeRow>, swhids: &Vec<Swhid>) -> (r: Result<Vec<u64>, QueryError>)
    ensures
        has_duplicate(swhids@) <==> r matches Err(QueryError::DuplicateSwhids),
        !has_duplicate(swhids@) && unknown_swhids(rows@, swhids@).len() > 0 ==> (r matches Err(
            QueryError::NotFound(missing),
        ) && missing@ == unknown_swhids(rows@, swhids@)),
        r is Ok <==> !has_duplicate(swhids@) && unknown_swhids(rows@, swhids@).len() == 0,
        r matches Ok(ids) ==> ids@.len() == swhids@.len() && forall|i: int|
            0 <= i < swhids@.len() ==> node_id_in(rows@, #[trigger] swhids@[i]) == Some(ids@[i]),
{
    let n = swhids.len();
    let mut j: usize = 0;
    while j < n
        invariant
            n == swhids@.len(),
            j <= n,
            forall|a: int, b: int|
                0 <= a < b < j ==> !same_object(#[trigger] swhids@[a], #[trigger] swhids@[b]),
        decreases n - j,
    {
        if seen_before(swhids, j, &swhids[j]) {
            return Err(QueryError::DuplicateSwhids);
        }
        j = j + 1;
    }
    let mut ids: Vec<u64> = Vec::new();
    let mut missing: Vec<Swhid> = Vec::new();
    let mut i: usize = 0;
    while i < n
        invariant
            n == swhids@.len(),
            i <= n,
            !has_duplicate(swhids@),
            missing@ == unknown_swhids(rows@, swhids@.subrange(0, i as int)),
            missing@.len() == 0 ==> ids@.len() == i && forall|k: int|
                0 <= k < i ==> node_id_in(rows@, #[trigger] swhids@[k]) == Some(ids@[k]),
        decreases n - i,
    {
        assert(swhids@.subrange(0, i + 1).drop_last() =~= swhids@.subrange(0, i as int));
        match node_id_of(rows, &swhids[i]) {
            Some(id) => {
                ids.push(id);
            },
            None => {
                missing.push(swhids[i]);
            },
        }
        i = i + 1;
    }
    assert(swhids@.subrange(0, n as int) =~= swhids@);
    if missing.len() > 0 {
        return Err(QueryError::NotFound(missing));
    }
    Ok(ids)
}

/// Resolves node ids to SWHIDs through the node table, in the order asked.
/// Fails on the first id the table does not hold.
pub fn swhids_of(rows: &Vec<NodeRow>, ids: &Vec<u64>) -> (r: Result<Vec<Swhid>, QueryError>)
    ensures
        r is Ok <==> forall|i: int| 0 <= i < ids@.len() ==> swhid_in(rows@, #[trigger] ids@[i]) is Some,
        r matches Err(e) ==> (e matches QueryError::UnknownNodeId(id) && ids@.contains(id)
            && swhid_in(rows@, id) is None),
        r matches Ok(out) ==> out@.len() == ids@.len() && forall|i: int|
            0 <= i < ids@.len() ==> swhid_in(rows@, #[trigger] ids@[i]) == Some(out@[i]),
{
    let mut out: Vec<Swhid> = Vec::new();
    let mut i: usize = 0;
    while i < ids.len()
        invariant
            i <= ids@.len(),
            out@.len() == i,
            forall|k: int| 0 <= k < i ==> swhid_in(rows@, #[trigger] ids@[k]) == Some(out@[k]),
        decreases ids@.len() - i,
    {
        match swhid_of(rows, ids[i]) {
            Some(s) => {
                out.push(s);
            },
            None => {
                assert(ids@[i as int] == ids[i as int]);
                return Err(QueryError::UnknownNodeId(ids[i]));
            },
        }
        i = i + 1;
    }
    Ok(out)
}

/// In a well-formed node table, the row that describes an object is the
/// one `node_id_in` finds.
proof fn lemma_node_id_at(rows: Seq<NodeRow>, k: int, s: Swhid)
    requires
        node_table_wf(rows),
        0 <= k < rows.len(),
        row_is(rows[k], s),
    ensures
        node_id_in(rows, s) == Some(rows[k].id),
    decreases rows.len(),
{
    if k < rows.len() - 1 {
        let last = rows.len() - 1;
        assert(rows[last] == rows.last());
        assert(!row_is(rows[k], row_swhid(rows[last])));
        assert(rows.drop_last()[k] == rows[k]);
        lemma_node_id_at(rows.drop_last(), k, s);
    }
}

/// In a well-formed node table, the row with an id is the one `swhid_in`
/// finds.
proof fn lemma_swhid_at(rows: Seq<NodeRow>, k: int)
    requires
        node_table_wf(rows),
        0 <= k < rows.len(),
    ensures
        swhid_in(rows, rows[k].id) == Some(row_swhid(rows[k])),
    decreases rows.len(),
{
    if k < rows.len() - 1 {
        let last = rows.len() - 1;
        assert(rows[last] == rows.last());
        assert(rows[k].id != rows[last].id);
        assert(rows.drop_last()[k] == rows[k]);
        lemma_swhid_at(rows.drop_last(), k);
    }
}

/// If `node_id_in` finds an id, a row with that id describes the object.
proof fn lemma_node_id_found(rows: Seq<NodeRow>, s: Swhid)
    requires
        node_id_in(rows, s) is Some,
    ensures
        exists|k: int| 0 <= k < rows.len() && #[trigger] rows[k].id == node_id_in(rows, s)->0 && row_is(rows[k], s),
    decreases rows.len(),
{
    if !row_is(rows.last(), s) {
        lemma_node_id_found(rows.drop_last(), s);
        let k = choose|k: int| 0 <= k < rows.drop_last().len() && #[trigger] rows.drop_last()[k].id
            == node_id_in(rows.drop_last(), s)->0 && row_is(rows.drop_last()[k], s);
        assert(rows[k] == rows.drop_last()[k]);
    } else {
        assert(rows[rows.len() - 1] == rows.last());
    }
}

/// Resolving a known SWHID of version 1 to its node id, then the node id
/// back to a SWHID, gives the SWHID back, in a well-formed node table.
pub proof fn law_swhid_of_node_id_of(rows: Seq<NodeRow>, s: Swhid)
    requires
        node_table_wf(rows),
        node_id_in(rows, s) is Some,
        s.namespace_version == 1,
    ensures
        swhid_in(rows, node_id_in(rows, s)->0) matches Some(t) && (t.namespace_version
            == s.namespace_version && t.node_type == s.node_type && t.hash.0@ == s.hash.0@),
{
    lemma_node_id_found(rows, s);
    let k = choose|k: int| 0 <= k < rows.len() && #[trigger] rows[k].id == node_id_in(rows, s)->0 && row_is(rows[k], s);
    lemma_swhid_at(rows, k);
}

/// Resolving a node id of the node table to its SWHID, then the SWHID back
/// to a node id, gives the node id back, in a well-formed node table.
pub proof fn law_node_id_of_swhid_of(rows: Seq<NodeRow>, id: u64)
    requires
        node_table_wf(rows),
        swhid_in(rows, id) is Some,
    ensures
        node_id_in(rows, swhid_in(rows, id)->0) == Some(id),
    decreases rows.len(),
{
    if rows.last().id == id {
        let k = rows.len() - 1;
        assert(rows[k] == rows.last());
        lemma_node_id_at(rows, k, row_swhid(rows[k]));
    } else {
        law_node_id_of_swhid_of_prefix(rows, id);
    }
}

/// The row that holds an id, when it is not the last one.
proof fn law_node_id_of_swhid_of_prefix(rows: Seq<NodeRow>, id: u64)
    requires
        node_table_wf(rows),
        swhid_in(rows, id) is Some,
        rows.last().id != id,
    ensures
        node_id_in(rows, swhid_in(rows, id)->0) == Some(id),
    decreases rows.len(),
{
    let prefix = rows.drop_last();
    assert(node_table_wf(prefix)) by {
        assert forall|i: int, j: int| 0 <= i < j < prefix.len() implies #[trigger] prefix[i].id != #[trigger] prefix[j].id by {
            assert(prefix[i] == rows[i] && prefix[j] == rows[j]);
        }
        assert forall|i: int, j: int| 0 <= i < j < prefix.len() implies !row_is(#[trigger] prefix[i], row_swhid(#[trigger] prefix[j])) by {
            assert(prefix[i] == rows[i] && prefix[j] == rows[j]);
        }
    }
    lemma_swhid_found(prefix, id);
    let k = choose|k: int| 0 <= k < prefix.len() && #[trigger] prefix[k].id == id;
    assert(rows[k] == prefix[k]);
    lemma_swhid_at(rows, k);
    lemma_node_id_at(rows, k, row_swhid(rows[k]));
}

/// If `swhid_in` finds a SWHID, some row holds the id.
proof fn lemma_swhid_found(rows: Seq<NodeRow>, id: u64)
    requires
        swhid_in(rows, id) is Some,
    ensures
        exists|k: int| 0 <= k < rows.len() && #[trigger] rows[k].id == id,
    decreases rows.len(),
{
    if rows.last().id != id {
        lemma_swhid_found(rows.drop_last(), id);
        let k = choose|k: int| 0 <= k < rows.drop_last().len() && #[trigger] rows.drop_last()[k].id == id;
        assert(rows[k] == rows.drop_last()[k]);
    } else {
        assert(rows[rows.len() - 1] == rows.last());
    }
}


/// The answer to a where-is query.
#[derive(Clone, Debug)]
pub struct WhereIsOneResult {
    /// The SWHID asked about.
    pub swhid: String,
    /// A revision or release that holds the object, if one was found.
    pub anchor: Option<String>,
    /// An origin where the anchor was found; not looked up yet.
    pub origin: Option<String>,
}

/// Where a where-is query stands: what it waits for.
#[derive(Clone, Debug)]
pub enum WhereIsState {
    /// The node-table rows of the object asked about.
    ResolvingNode(Swhid),
    /// The rows of contents-in-revisions whose content is the node.
    ProbingContentsInRevisions(Swhid, u64),
    /// The rows of contents-in-directories whose content is the node.
    ProbingContentsInDirectories(Swhid, u64),
    /// The rows of directories-in-revisions whose directory is one of these.
    ProbingDirectoriesInRevisions(Swhid, Vec<u64>),
    /// The node-table rows of the anchor found.
    ResolvingAnchor(Swhid, u64),
    /// Nothing: the answer was given.
    Finished,
}

/// What a where-is query needs done next. Keys are sorted and distinct.
#[derive(Debug)]
pub enum WhereIsAction {
    /// Scan the node table for the rows with these hashes.
    ScanNodesByHash(Vec<Sha1Git>),
    /// Scan the node table for the rows with these ids.
    ScanNodesById(Vec<u64>),
    /// Scan contents-in-revisions for these contents, one row being enough.
    ProbeContentsInRevisions(Vec<u64>),
    /// Scan contents-in-directories for these contents.
    ProbeContentsInDirectories(Vec<u64>),
    /// Scan directories-in-revisions for these directories.
    ProbeDirectoriesInRevisions(Vec<u64>),
    /// Give this answer.
    Reply(Result<WhereIsOneResult, QueryError>),
}

/// The rows that a scan asked for by a where-is query returned.
#[derive(Clone, Debug)]
pub enum WhereIsEvent {
    /// Rows of the node table.
    NodeRows(Vec<NodeRow>),
    /// Rows of a relation, as (key column, value column).
    Pairs(Vec<(u64, u64)>),
}

/// The characters of a SWHID's textual form.
pub open spec fn swhid_chars(s: Swhid) -> Seq<char> {
    swhid_text(s).map_values(|c: u8| c as char)
}

/// The value of the last pair whose key is one of `keys`.
pub open spec fn last_value_for(pairs: Seq<(u64, u64)>, keys: Seq<u64>) -> Option<u64>
    decreases pairs.len(),
{
    if pairs.len() == 0 {
        None
    } else if keys.contains(pairs.last().0) {
        Some(pairs.last().1)
    } else {
        last_value_for(pairs.drop_last(), keys)
    }
}

/// Strictly increasing.
pub open spec fn increasing_keys(keys: Seq<u64>) -> bool {
    forall|i: int, j: int| 0 <= i < j < keys.len() ==> keys[i] < keys[j]
}

/// The directories to look up after contents-in-directories answered: those
/// that hold the node, and the node itself (which may be a directory).
pub open spec fn directories_to_probe(pairs: Seq<(u64, u64)>, node: u64, d: u64) -> bool {
    d == node || exists|i: int| 0 <= i < pairs.len() && #[trigger] pairs[i].0 == node && pairs[i].1 == d
}

/// The value of the last pair whose key is one of `keys`.
fn find_last_value(pairs: &Vec<(u64, u64)>, keys: &Vec<u64>) -> (r: Option<u64>)
    ensures
        r == last_value_for(pairs@, keys@),
{
    let mut found: Option<u64> = None;
    let mut i: usize = 0;
    while i < pairs.len()
        invariant
            i <= pairs@.len(),
            found == last_value_for(pairs@.subrange(0, i as int), keys@),
        decreases pairs@.len() - i,
    {
        assert(pairs@.subrange(0, i + 1).drop_last() =~= pairs@.subrange(0, i as int));
        let (k, v) = pairs[i];
        if contains_linear(keys, k) {
            found = Some(v);
        }
        i = i + 1;
    }
    assert(pairs@.subrange(0, pairs@.len() as int) =~= pairs@);
    found
}

/// Adds `x` to a strictly increasing list, unless it is there.
fn insert_sorted(keys: &mut Vec<u64>, x: u64)
    requires
        increasing_keys(old(keys)@),
    ensures
        increasing_keys(final(keys)@),
        forall|y: u64| #[trigger] final(keys)@.contains(y) <==> (old(keys)@.contains(y) || y == x),
{
    let mut i: usize = 0;
    while i < keys.len() && keys[i] < x
        invariant
            i <= keys@.len(),
            keys@ == old(keys)@,
            increasing_keys(keys@),
            forall|k: int| 0 <= k < i ==> keys@[k] < x,
        decreases keys@.len() - i,
    {
        i = i + 1;
    }
    if i < keys.len() && keys[i] == x {
        assert(keys@[i as int] == x);
        return;
    }
    let ghost before = keys@;
    assert(before == old(keys)@);
    keys.insert(i, x);
    proof {
        assert(keys@ =~= before.insert(i as int, x));
        lemma_insert_keeps_order(before, i as int, x);
        lemma_insert_contents(before, i as int, x);
        assert forall|y: u64| #[trigger] keys@.contains(y) <==> (before.contains(y) || y == x) by {
            assert(before.insert(i as int, x).contains(y) <==> (before.contains(y) || y == x));
        }
    }
}

/// Inserting `x` at its place keeps a list strictly increasing.
proof fn lemma_insert_keeps_order(before: Seq<u64>, i: int, x: u64)
    requires
        increasing_keys(before),
        0 <= i <= before.len(),
        forall|k: int| 0 <= k < i ==> before[k] < x,
        i < before.len() ==> before[i] > x,
    ensures
        increasing_keys(before.insert(i, x)),
{
    let after = before.insert(i, x);
    assert forall|a: int, b: int| 0 <= a < b < after.len() implies after[a] < after[b] by {
        if b < i {
        } else if a < i && b == i {
        } else if a < i && b > i {
            assert(after[b] == before[b - 1]);
        } else if a == i {
            assert(after[b] == before[b - 1]);
            assert(before[i] <= before[b - 1]);
        } else {
            assert(after[a] == before[a - 1]);
            assert(after[b] == before[b - 1]);
        }
    }
}

/// Inserting `x` adds `x` and nothing else.
proof fn lemma_insert_contents(before: Seq<u64>, i: int, x: u64)
    requires
        0 <= i <= before.len(),
    ensures
        forall|y: u64| before.insert(i, x).contains(y) <==> (before.contains(y) || y == x),
{
    let after = before.insert(i, x);
    assert forall|y: u64| after.contains(y) <==> (before.contains(y) || y == x) by {
        if after.contains(y) {
            let k = choose|k: int| 0 <= k < after.len() && after[k] == y;
            if k < i {
                assert(before[k] == y);
            } else if k > i {
                assert(before[k - 1] == y);
            }
        }
        if before.contains(y) {
            let k = choose|k: int| 0 <= k < before.len() && before[k] == y;
            if k < i {
                assert(after[k] == y);
            } else {
                assert(after[k + 1] == y);
            }
        }
        if y == x {
            assert(after[i] == x);
        }
    }
}

/// The directories to probe: those that hold the node, and the node itself,
/// sorted and without repetition.
fn collect_directories(pairs: &Vec<(u64, u64)>, node: u64) -> (r: Vec<u64>)
    ensures
        increasing_keys(r@),
        forall|d: u64| r@.contains(d) <==> directories_to_probe(pairs@, node, d),
{
    let mut dirs: Vec<u64> = vec![node];
    assert(dirs@.contains(node)) by {
        assert(dirs@[0] == node);
    }
    let mut i: usize = 0;
    while i < pairs.len()
        invariant
            i <= pairs@.len(),
            increasing_keys(dirs@),
            forall|d: u64|
                dirs@.contains(d) <==> (d == node || exists|k: int|
                    0 <= k < i && #[trigger] pairs@[k].0 == node && pairs@[k].1 == d),
        decreases pairs@.len() - i,
    {
        let (k, v) = pairs[i];
        if k == node {
            insert_sorted(&mut dirs, v);
        }
        proof {
            assert forall|d: u64|
                dirs@.contains(d) <==> (d == node || exists|k2: int|
                    0 <= k2 < i + 1 && #[trigger] pairs@[k2].0 == node && pairs@[k2].1 == d) by {
                if exists|k2: int| 0 <= k2 < i + 1 && #[trigger] pairs@[k2].0 == node && pairs@[k2].1 == d {
                    let k2 = choose|k2: int| 0 <= k2 < i + 1 && #[trigger] pairs@[k2].0 == node && pairs@[k2].1 == d;
                    if k2 < i {
                        assert(exists|k3: int| 0 <= k3 < i && #[trigger] pairs@[k3].0 == node && pairs@[k3].1 == d);
                    }
                }
                if k == node && d == v {
                    assert(pairs@[i as int].0 == node && pairs@[i as int].1 == d);
                }
            }
        }
        i = i + 1;
    }
    dirs
}


/// Whether an action is the answer with no anchor for `s`.
pub open spec fn replies_without_anchor(action: WhereIsAction, s: Swhid) -> bool {
    action matches WhereIsAction::Reply(Ok(res)) && res.swhid@ == swhid_chars(s)
        && res.anchor is None && res.origin is None
}

/// Whether an action is the answer for `s` with anchor `a`.
pub open spec fn replies_with_anchor(action: WhereIsAction, s: Swhid, a: Swhid) -> bool {
    action matches WhereIsAction::Reply(Ok(res)) && res.swhid@ == swhid_chars(s)
        && res.anchor is Some && res.anchor->0@ == swhid_chars(a) && res.origin is None
}

/// Whether an action is this error.
pub open spec fn replies_error(action: WhereIsAction, e: QueryError) -> bool {
    action matches WhereIsAction::Reply(Err(e2)) && e2 == e
}

/// Whether an action is the error that `s` is not in the node table.
pub open spec fn replies_not_found(action: WhereIsAction, s: Swhid) -> bool {
    action matches WhereIsAction::Reply(Err(QueryError::NotFound(m))) && m@ == seq![s]
}

/// Whether an action scans the node table for the hash of `s`.
pub open spec fn scans_hash(action: WhereIsAction, s: Swhid) -> bool {
    action matches WhereIsAction::ScanNodesByHash(h) && h@ == seq![s.hash]
}

/// Whether an action scans the node table for the id `k`.
pub open spec fn scans_id(action: WhereIsAction, k: u64) -> bool {
    action matches WhereIsAction::ScanNodesById(keys) && keys@ == seq![k]
}

/// Whether an action probes contents-in-revisions for the content `k`.
pub open spec fn probes_contents_in_revisions(action: WhereIsAction, k: u64) -> bool {
    action matches WhereIsAction::ProbeContentsInRevisions(keys) && keys@ == seq![k]
}

/// Whether an action probes contents-in-directories for the content `k`.
pub open spec fn probes_contents_in_directories(action: WhereIsAction, k: u64) -> bool {
    action matches WhereIsAction::ProbeContentsInDirectories(keys) && keys@ == seq![k]
}

/// Whether an action probes directories-in-revisions for exactly `dirs`.
pub open spec fn probes_directories_in_revisions(action: WhereIsAction, dirs: Seq<u64>) -> bool {
    action matches WhereIsAction::ProbeDirectoriesInRevisions(keys) && keys@ == dirs
}

/// Whether a state waits for the node-table rows of `s`.
pub open spec fn is_resolving_node(state: WhereIsState, s: Swhid) -> bool {
    state matches WhereIsState::ResolvingNode(s2) && s2 == s
}

/// Whether a state waits for contents-in-revisions rows of node `id`.
pub open spec fn is_probing_contents_in_revisions(state: WhereIsState, s: Swhid, id: u64) -> bool {
    state matches WhereIsState::ProbingContentsInRevisions(s2, id2) && s2 == s && id2 == id
}

/// Whether a state waits for contents-in-directories rows of node `id`.
pub open spec fn is_probing_contents_in_directories(state: WhereIsState, s: Swhid, id: u64) -> bool {
    state matches WhereIsState::ProbingContentsInDirectories(s2, id2) && s2 == s && id2 == id
}

/// Whether a state waits for directories-in-revisions rows of the
/// directories to probe after `pairs` answered for node `id`.
pub open spec fn is_probing_directories_in_revisions(
    state: WhereIsState,
    s: Swhid,
    pairs: Seq<(u64, u64)>,
    id: u64,
) -> bool {
    state matches WhereIsState::ProbingDirectoriesInRevisions(s2, dirs) && s2 == s && increasing_keys(
        dirs@,
    ) && forall|d: u64| dirs@.contains(d) <==> directories_to_probe(pairs, id, d)
}

/// The directories a state waits for, if it waits for directories.
pub open spec fn probed_directories(state: WhereIsState) -> Seq<u64> {
    match state {
        WhereIsState::ProbingDirectoriesInRevisions(_, dirs) => dirs@,
        _ => Seq::empty(),
    }
}

/// Whether a state waits for the node-table rows of the anchor `rev`.
pub open spec fn is_resolving_anchor(state: WhereIsState, s: Swhid, rev: u64) -> bool {
    state matches WhereIsState::ResolvingAnchor(s2, rev2) && s2 == s && rev2 == rev
}

/// Starts a where-is query on a text: a SWHID is looked up in the node
/// table, anything else is refused.
pub fn where_is_one_start(text: &str) -> (r: (WhereIsState, WhereIsAction))
    ensures
        !is_swhid_text(text.spec_bytes()) ==> r.0 is Finished && replies_error(
            r.1,
            QueryError::InvalidArgument,
        ),
        is_swhid_text(text.spec_bytes()) ==> (r.0 matches WhereIsState::ResolvingNode(s) && reads_as(
            text.spec_bytes(),
            s,
        ) && scans_hash(r.1, s)),
{
    match parse_swhid(text) {
        None => (WhereIsState::Finished, WhereIsAction::Reply(Err(QueryError::InvalidArgument))),
        Some(s) => {
            let h = vec![s.hash];
            assert(h@ =~= seq![s.hash]);
            (WhereIsState::ResolvingNode(s), WhereIsAction::ScanNodesByHash(h))
        },
    }
}

/// Advances a where-is query with the rows that its last action asked for.
///
/// The object's node id is probed in contents-in-revisions; failing that,
/// the directories that hold it (and the node itself) are probed in
/// directories-in-revisions; the anchor found is resolved to its SWHID.
pub fn where_is_one_step(state: WhereIsState, event: WhereIsEvent) -> (r: (WhereIsState, WhereIsAction))
    ensures
        match (state, event) {
            (WhereIsState::ResolvingNode(s), WhereIsEvent::NodeRows(rows)) => match node_id_in(rows@, s) {
                None => r.0 is Finished && replies_not_found(r.1, s),
                Some(id) => is_probing_contents_in_revisions(r.0, s, id)
                    && probes_contents_in_revisions(r.1, id),
            },
            (WhereIsState::ProbingContentsInRevisions(s, id), WhereIsEvent::Pairs(pairs)) => match last_value_for(pairs@, seq![id]) {
                Some(rev) => is_resolving_anchor(r.0, s, rev) && scans_id(r.1, rev),
                None => is_probing_contents_in_directories(r.0, s, id)
                    && probes_contents_in_directories(r.1, id),
            },
            (WhereIsState::ProbingContentsInDirectories(s, id), WhereIsEvent::Pairs(pairs)) =>
                is_probing_directories_in_revisions(r.0, s, pairs@, id)
                && probes_directories_in_revisions(r.1, probed_directories(r.0)),
            (WhereIsState::ProbingDirectoriesInRevisions(s, dirs), WhereIsEvent::Pairs(pairs)) => match last_value_for(pairs@, dirs@) {
                Some(rev) => is_resolving_anchor(r.0, s, rev) && scans_id(r.1, rev),
                None => r.0 is Finished && replies_without_anchor(r.1, s),
            },
            (WhereIsState::ResolvingAnchor(s, rev), WhereIsEvent::NodeRows(rows)) => match swhid_in(rows@, rev) {
                Some(a) => r.0 is Finished && replies_with_anchor(r.1, s, a),
                None => r.0 is Finished && replies_error(r.1, QueryError::UnknownNodeId(rev)),
            },
            _ => r.0 is Finished && replies_error(r.1, QueryError::UnexpectedEvent),
        },
{
    match (state, event) {
        (WhereIsState::ResolvingNode(s), WhereIsEvent::NodeRows(rows)) => match node_id_of(&rows, &s) {
            None => {
                let missing = vec![s];
                assert(missing@ =~= seq![s]);
                (WhereIsState::Finished, WhereIsAction::Reply(Err(QueryError::NotFound(missing))))
            },
            Some(id) => {
                let k = vec![id];
                assert(k@ =~= seq![id]);
                (WhereIsState::ProbingContentsInRevisions(s, id), WhereIsAction::ProbeContentsInRevisions(k))
            },
        },
        (WhereIsState::ProbingContentsInRevisions(s, id), WhereIsEvent::Pairs(pairs)) => {
            let keys = vec![id];
            assert(keys@ =~= seq![id]);
            match find_last_value(&pairs, &keys) {
                Some(rev) => {
                    let k = vec![rev];
                    assert(k@ =~= seq![rev]);
                    (WhereIsState::ResolvingAnchor(s, rev), WhereIsAction::ScanNodesById(k))
                },
                None => (WhereIsState::ProbingContentsInDirectories(s, id), WhereIsAction::ProbeContentsInDirectories(keys)),
            }
        },
        (WhereIsState::ProbingContentsInDirectories(s, id), WhereIsEvent::Pairs(pairs)) => {
            let dirs = collect_directories(&pairs, id);
            let keys = dirs.clone();
            assert(keys@ =~= dirs@);
            (WhereIsState::ProbingDirectoriesInRevisions(s, dirs), WhereIsAction::ProbeDirectoriesInRevisions(keys))
        },
        (WhereIsState::ProbingDirectoriesInRevisions(s, dirs), WhereIsEvent::Pairs(pairs)) => match find_last_value(&pairs, &dirs) {
            Some(rev) => {
                let k = vec![rev];
                assert(k@ =~= seq![rev]);
                (WhereIsState::ResolvingAnchor(s, rev), WhereIsAction::ScanNodesById(k))
            },
            None => {
                let res = WhereIsOneResult { swhid: s.to_string(), anchor: None, origin: None };
                (WhereIsState::Finished, WhereIsAction::Reply(Ok(res)))
            },
        },
        (WhereIsState::ResolvingAnchor(s, rev), WhereIsEvent::NodeRows(rows)) => match swhid_of(&rows, rev) {
            Some(a) => {
                let res = WhereIsOneResult { swhid: s.to_string(), anchor: Some(a.to_string()), origin: None };
                (WhereIsState::Finished, WhereIsAction::Reply(Ok(res)))
            },
            None => (WhereIsState::Finished, WhereIsAction::Reply(Err(QueryError::UnknownNodeId(rev)))),
        },
        _ => (WhereIsState::Finished, WhereIsAction::Reply(Err(QueryError::UnexpectedEvent))),
    }
}

} // verus!
