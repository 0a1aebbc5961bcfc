use swh_provenance::schema::{column_index, common_schema, projection_for, FieldInfo, SchemaError};

fn field(name: &str, data_type: &str, nullable: bool) -> FieldInfo {
    FieldInfo { name: name.to_string(), data_type: data_type.to_string(), nullable }
}

fn c_in_r_schema() -> Vec<FieldInfo> {
    vec![
        field("cnt", "UInt64", false),
        field("revrel", "UInt64", false),
        field("revrel_author_date", "Int64", false),
        field("path", "Binary", false),
    ]
}

#[test]
fn files_sharing_a_schema_are_accepted() {
    assert_eq!(common_schema(&vec![c_in_r_schema(), c_in_r_schema(), c_in_r_schema()]), Ok(2));
}

#[test]
fn table_without_files_is_refused() {
    assert_eq!(common_schema(&vec![]), Err(SchemaError::NoFiles));
}

#[test]
fn differing_schema_is_reported() {
    let mut odd = c_in_r_schema();
    odd[1].nullable = true;
    assert_eq!(
        common_schema(&vec![c_in_r_schema(), odd, c_in_r_schema()]),
        Err(SchemaError::Mismatch(1))
    );
    let short = c_in_r_schema()[..3].to_vec();
    assert_eq!(common_schema(&vec![short, c_in_r_schema()]), Err(SchemaError::Mismatch(0)));
}

#[test]
fn columns_are_found_by_name() {
    let fields = c_in_r_schema();
    assert_eq!(column_index(&fields, &"revrel".to_string()), Some(1));
    assert_eq!(column_index(&fields, &"path".to_string()), Some(3));
    assert_eq!(column_index(&fields, &"dir".to_string()), None);
}

#[test]
fn projection_checks_expected_fields() {
    let fields = c_in_r_schema();
    let expected = vec![field("cnt", "UInt64", false), field("revrel", "UInt64", false), field("path", "Binary", false)];
    assert_eq!(projection_for(&fields, &expected), Ok(vec![0, 1, 3]));
    let missing = vec![field("dir", "UInt64", false)];
    assert_eq!(projection_for(&fields, &missing), Err(SchemaError::MissingColumn(0)));
    let wrong_type = vec![field("cnt", "Int64", false)];
    assert_eq!(projection_for(&fields, &wrong_type), Err(SchemaError::UnexpectedSchema));
}
