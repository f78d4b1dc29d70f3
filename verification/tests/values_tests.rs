use crsqlite::values::{compare_values, values_equal, ColumnValue};

fn lt(a: &ColumnValue, b: &ColumnValue) {
    assert_eq!(compare_values(a, b), -1);
    assert_eq!(compare_values(b, a), 1);
}

#[test]
fn type_classes_are_ranked() {
    let null = ColumnValue::Null;
    let int = ColumnValue::Integer(0);
    let real = ColumnValue::Real(0.5f64.to_bits());
    let text = ColumnValue::Text(b"".to_vec());
    let blob = ColumnValue::Blob(vec![]);
    lt(&null, &int);
    lt(&int, &real);
    lt(&real, &text);
    lt(&text, &blob);
}

#[test]
fn within_class_ordering() {
    lt(&ColumnValue::Integer(-5), &ColumnValue::Integer(3));
    lt(
        &ColumnValue::Real((-1.5f64).to_bits()),
        &ColumnValue::Real(2.25f64.to_bits()),
    );
    lt(
        &ColumnValue::Text(b"A".to_vec()),
        &ColumnValue::Text(b"B".to_vec()),
    );
    lt(
        &ColumnValue::Text(b"ab".to_vec()),
        &ColumnValue::Text(b"abc".to_vec()),
    );
    lt(&ColumnValue::Blob(vec![0]), &ColumnValue::Blob(vec![1]));
}

#[test]
fn equality_is_null_aware() {
    assert!(values_equal(&ColumnValue::Null, &ColumnValue::Null));
    assert!(!values_equal(&ColumnValue::Null, &ColumnValue::Integer(0)));
    assert!(values_equal(
        &ColumnValue::Text(b"x".to_vec()),
        &ColumnValue::Text(b"x".to_vec())
    ));
    assert!(!values_equal(
        &ColumnValue::Text(b"x".to_vec()),
        &ColumnValue::Blob(b"x".to_vec())
    ));
    assert_eq!(
        compare_values(&ColumnValue::Integer(7), &ColumnValue::Integer(7)),
        0
    );
}
