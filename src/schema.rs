//! Schemas of a table's files, as plain values: the files of a table must
//! share one schema, and a scan reads columns by name.

use vstd::prelude::*;

verus! {

/// A field of a file's schema: its name, its type as the file's library
/// names it, and whether it may be null.
#[derive(Clone, Debug)]
pub struct FieldInfo {
    pub name: String,
    pub data_type: String,
    pub nullable: bool,
}

/// Why schemas do not fit.
#[derive(Clone, Copy, Debug, PartialEq, Eq, Structural)]
pub enum SchemaError {
    /// The table has no file.
    NoFiles,
    /// The schema of this file differs from that of the last file.
    Mismatch(usize),
    /// The expected field at this position has no column of its name.
    MissingColumn(usize),
    /// The columns of the expected names differ from the expected fields.
    UnexpectedSchema,
}

/// Two fields are the same.
pub open spec fn same_field(a: FieldInfo, b: FieldInfo) -> bool {
    a.name@ == b.name@ && a.data_type@ == b.data_type@ && a.nullable == b.nullable
}

/// Two schemas have the same fields in the same order.
pub open spec fn same_schema(a: Seq<FieldInfo>, b: Seq<FieldInfo>) -> bool {
    a.len() == b.len() && forall|i: int| 0 <= i < a.len() ==> same_field(#[trigger] a[i], b[i])
}

fn field_equal(a: &FieldInfo, b: &FieldInfo) -> (r: bool)
    ensures
        r == same_field(*a, *b),
{
    a.nullable == b.nullable && a.name == b.name && a.data_type == b.data_type
}

fn schema_equal(a: &Vec<FieldInfo>, b: &Vec<FieldInfo>) -> (r: bool)
    ensures
        r == same_schema(a@, b@),
{
    if a.len() != b.len() {
        return false;
    }
    let mut i: usize = 0;
    while i < a.len()
        invariant
            a@.len() == b@.len(),
            i <= a@.len(),
            forall|k: int| 0 <= k < i ==> same_field(#[trigger] a@[k], b@[k]),
        decreases a@.len() - i,
    {
        if !field_equal(&a[i], &b[i]) {
            return false;
        }
        i = i + 1;
    }
    true
}

/// Checks that every file of a table has the schema of the last file, and
/// returns the position of that file. Fails on a table without files, or at
/// the first file whose schema differs.
pub fn common_schema(files: &Vec<Vec<FieldInfo>>) -> (r: Result<usize, SchemaError>)
    ensures
        files@.len() == 0 <==> r == Err::<usize, SchemaError>(SchemaError::NoFiles),
        r matches Ok(last) ==> last == files@.len() - 1 && forall|i: int|
            0 <= i < files@.len() ==> same_schema(#[trigger] files@[i]@, files@[last as int]@),
        r matches Err(SchemaError::Mismatch(i)) ==> i < files@.len() && !same_schema(
            files@[i as int]@,
            files@[files@.len() - 1]@,
        ) && forall|k: int| 0 <= k < i ==> same_schema(#[trigger] files@[k]@, files@[files@.len() - 1]@),
        r is Err ==> r matches Err(SchemaError::NoFiles) || r matches Err(SchemaError::Mismatch(_)),
{
    if files.len() == 0 {
        return Err(SchemaError::NoFiles);
    }
    let last = files.len() - 1;
    let mut i: usize = 0;
    while i < files.len()
        invariant
            last == files@.len() - 1,
            i <= files@.len(),
            forall|k: int| 0 <= k < i ==> same_schema(#[trigger] files@[k]@, files@[last as int]@),
        decreases files@.len() - i,
    {
        if !schema_equal(&files[i], &files[last]) {
            return Err(SchemaError::Mismatch(i));
        }
        i = i + 1;
    }
    Ok(last)
}

/// The position of the first field named `name`, if any.
pub open spec fn column_position(fields: Seq<FieldInfo>, name: Seq<char>) -> Option<usize>
    decreases fields.len(),
{
    if fields.len() == 0 {
        None
    } else {
        match column_position(fields.drop_last(), name) {
            Some(i) => Some(i),
            None => if fields.last().name@ == name {
                Some((fields.len() - 1) as usize)
            } else {
                None
            },
        }
    }
}

/// Finds the first column of a schema with a given name.
pub fn column_index(fields: &Vec<FieldInfo>, name: &String) -> (r: Option<usize>)
    ensures
        r == column_position(fields@, name@),
        r matches Some(i) ==> i < fields@.len() && fields@[i as int].name@ == name@,
{
    let mut i: usize = 0;
    while i < fields.len()
        invariant
            i <= fields@.len(),
            column_position(fields@.subrange(0, i as int), name@) is None,
        decreases fields@.len() - i,
    {
        assert(fields@.subrange(0, i + 1).drop_last() =~= fields@.subrange(0, i as int));
        if fields[i].name == *name {
            assert(fields@.subrange(0, i + 1).last() == fields@[i as int]);
            assert(fields@[i as int].name@ == name@);
            assert(column_position(fields@.subrange(0, i + 1), name@) == Some(i));
            proof {
                lemma_position_prefix(fields@, i + 1);
            }
            return Some(i);
        }
        i = i + 1;
    }
    assert(fields@.subrange(0, fields@.len() as int) =~= fields@);
    None
}

/// A position found in a prefix stays the answer on the whole schema.
proof fn lemma_position_prefix(fields: Seq<FieldInfo>, n: int)
    requires
        0 <= n <= fields.len(),
    ensures
        forall|name: Seq<char>|
            #[trigger] column_position(fields.subrange(0, n), name) is Some ==> column_position(
                fields,
                name,
            ) == column_position(fields.subrange(0, n), name),
    decreases fields.len() - n,
{
    if n < fields.len() {
        lemma_position_prefix(fields, n + 1);
        assert(fields.subrange(0, n + 1).drop_last() =~= fields.subrange(0, n));
        assert forall|name: Seq<char>|
            #[trigger] column_position(fields.subrange(0, n), name) is Some implies column_position(
                fields,
                name,
            ) == column_position(fields.subrange(0, n), name) by {
            assert(column_position(fields.subrange(0, n + 1), name) == column_position(
                fields.subrange(0, n),
                name,
            ));
        }
    } else {
        assert(fields.subrange(0, n) =~= fields);
    }
}

/// Finds, for each expected field, the column of its name, and checks that
/// those columns are the expected fields. Returns the columns' positions.
pub fn projection_for(fields: &Vec<FieldInfo>, expected: &Vec<FieldInfo>) -> (r: Result<
    Vec<usize>,
    SchemaError,
>)
    ensures
        r matches Ok(cols) ==> cols@.len() == expected@.len() && forall|j: int|
            0 <= j < expected@.len() ==> #[trigger] column_position(fields@, expected@[j].name@)
                == Some(cols@[j]) && same_field(fields@[cols@[j] as int], expected@[j]),
        r matches Err(SchemaError::MissingColumn(j)) ==> j < expected@.len() && column_position(
            fields@,
            expected@[j as int].name@,
        ) is None,
        r is Err ==> r matches Err(SchemaError::MissingColumn(_)) || r matches Err(
            SchemaError::UnexpectedSchema,
        ),
        r matches Err(SchemaError::UnexpectedSchema) ==> exists|j: int|
            0 <= j < expected@.len() && #[trigger] column_position(fields@, expected@[j].name@) is Some
                && !same_field(fields@[column_position(fields@, expected@[j].name@)->0 as int], expected@[j]),
{
    let mut cols: Vec<usize> = Vec::new();
    let mut j: usize = 0;
    while j < expected.len()
        invariant
            j <= expected@.len(),
            cols@.len() == j,
            forall|k: int|
                0 <= k < j ==> #[trigger] column_position(fields@, expected@[k].name@) == Some(cols@[k])
                    && cols@[k] < fields@.len(),
        decreases expected@.len() - j,
    {
        match column_index(fields, &expected[j].name) {
            None => {
                return Err(SchemaError::MissingColumn(j));
            },
            Some(c) => {
                cols.push(c);
            },
        }
        j = j + 1;
    }
    let mut k: usize = 0;
    while k < expected.len()
        invariant
            k <= expected@.len(),
            cols@.len() == expected@.len(),
            forall|m: int|
                0 <= m < expected@.len() ==> #[trigger] column_position(fields@, expected@[m].name@) == Some(cols@[m])
                    && cols@[m] < fields@.len(),
            forall|m: int| 0 <= m < k ==> same_field(fields@[#[trigger] cols@[m] as int], expected@[m]),
        decreases expected@.len() - k,
    {
        if !field_equal(&fields[cols[k]], &expected[k]) {
            assert(column_position(fields@, expected@[k as int].name@) is Some);
            return Err(SchemaError::UnexpectedSchema);
        }
        k = k + 1;
    }
    Ok(cols)
}

} // verus!
