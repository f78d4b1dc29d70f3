use crsqlite::trigger_fns::partition_values;

#[test]
fn trigger_fns_test_partition_values() {
    let values1 = vec!["tbl", "pk.new", "pk.old", "c.new", "c.old"];
    let values2 = vec!["tbl", "pk.new", "pk.old"];
    let values3 = vec!["tbl", "pk1.new", "pk2.new", "pk1.old", "pk2.old"];
    let values4 = vec![
        "tbl", "pk1.new", "pk2.new", "pk1.old", "pk2.old", "c.new", "d.new", "c.old", "d.old",
    ];

    assert_eq!(
        partition_values(&values1, 1, 1, 1),
        Ok((
            &["pk.new"] as &[&str],
            &["pk.old"] as &[&str],
            &["c.new"] as &[&str],
            &["c.old"] as &[&str]
        ))
    );
    assert_eq!(
        partition_values(&values2, 1, 1, 0),
        Ok((
            &["pk.new"] as &[&str],
            &["pk.old"] as &[&str],
            &[] as &[&str],
            &[] as &[&str]
        ))
    );
    assert_eq!(
        partition_values(&values3, 1, 2, 0),
        Ok((
            &["pk1.new", "pk2.new"] as &[&str],
            &["pk1.old", "pk2.old"] as &[&str],
            &[] as &[&str],
            &[] as &[&str]
        ))
    );
    assert_eq!(
        partition_values(&values4, 1, 2, 2),
        Ok((
            &["pk1.new", "pk2.new"] as &[&str],
            &["pk1.old", "pk2.old"] as &[&str],
            &["c.new", "d.new"] as &[&str],
            &["c.old", "d.old"] as &[&str]
        ))
    );
}

#[test]
fn after_update_test_partition_values() {
    let values1 = vec!["tbl", "pk.new", "pk.old", "c.new", "c.old"];
    let values2 = vec!["tbl", "pk.new", "pk.old"];
    let values3 = vec!["tbl", "pk1.new", "pk2.new", "pk1.old", "pk2.old"];
    let values4 = vec![
        "tbl", "pk1.new", "pk2.new", "pk1.old", "pk2.old", "c.new", "d.new", "c.old", "d.old",
    ];

    assert_eq!(
        partition_values(&values1, 1, 1, 1),
        Ok((
            &["pk.new"] as &[&str],
            &["pk.old"] as &[&str],
            &["c.new"] as &[&str],
            &["c.old"] as &[&str]
        ))
    );
    assert_eq!(
        partition_values(&values2, 1, 1, 0),
        Ok((
            &["pk.new"] as &[&str],
            &["pk.old"] as &[&str],
            &[] as &[&str],
            &[] as &[&str]
        ))
    );
    assert_eq!(
        partition_values(&values3, 1, 2, 0),
        Ok((
            &["pk1.new", "pk2.new"] as &[&str],
            &["pk1.old", "pk2.old"] as &[&str],
            &[] as &[&str],
            &[] as &[&str]
        ))
    );
    assert_eq!(
        partition_values(&values4, 1, 2, 2),
        Ok((
            &["pk1.new", "pk2.new"] as &[&str],
            &["pk1.old", "pk2.old"] as &[&str],
            &["c.new", "d.new"] as &[&str],
            &["c.old", "d.old"] as &[&str]
        ))
    );
}

#[test]
fn partition_values_rejects_wrong_count() {
    let values = vec!["tbl", "pk.new"];
    let err = partition_values(&values, 1, 1, 1).unwrap_err();
    assert_eq!(err.expected, 5);
    assert_eq!(err.got, 2);
}
