use fuse_statistics::binary_fmt::{write_value, FixedSizeBinaryArray};
use fuse_statistics::computed_columns::{plan_output_columns, ColumnSource, ComputedColumnsError, OutputField};

#[test]
fn writes_one_value_in_brackets() {
    let a = FixedSizeBinaryArray::try_new(3, vec![1, 2, 3, 0, 10, 255]).unwrap();
    assert_eq!(a.len(), 2);
    assert_eq!(a.size(), 3);
    let mut s = String::new();
    write_value(&a, 0, &mut s);
    assert_eq!(s, "[1, 2, 3]");
    let mut t = String::from(">");
    write_value(&a, 1, &mut t);
    assert_eq!(t, ">[0, 10, 255]");
}

#[test]
fn single_byte_values() {
    let a = FixedSizeBinaryArray::try_new(1, vec![7, 99, 100]).unwrap();
    let mut s = String::new();
    write_value(&a, 2, &mut s);
    write_value(&a, 1, &mut s);
    assert_eq!(s, "[100][99]");
}

#[test]
fn ragged_bytes_are_refused() {
    assert!(FixedSizeBinaryArray::try_new(0, vec![]).is_none());
    assert!(FixedSizeBinaryArray::try_new(2, vec![1, 2, 3]).is_none());
    assert!(FixedSizeBinaryArray::try_new(2, vec![]).is_some());
}

fn field(name: &str, expr: Option<&str>) -> OutputField {
    OutputField { name: name.to_string(), stored_expr: expr.map(|e| e.to_string()) }
}

#[test]
fn output_columns_from_input_or_stored_expression() {
    let input = vec!["a".to_string(), "b".to_string(), "a".to_string()];
    let output = vec![field("b", None), field("c", Some("a + b")), field("a", Some("1"))];
    let plan = plan_output_columns(&input, &output).unwrap();
    assert_eq!(
        plan,
        vec![ColumnSource::Input(1), ColumnSource::Computed("a + b".to_string()), ColumnSource::Input(0)]
    );
}

#[test]
fn missing_field_must_be_computed() {
    let input = vec!["a".to_string()];
    let output = vec![field("a", None), field("z", None)];
    assert_eq!(
        plan_output_columns(&input, &output),
        Err(ComputedColumnsError::MissedFieldNotComputed)
    );
}
