use crsqlite::parse::{convert_crr_stmt_to_sql, is_crr_stmt};

#[test]
fn it_works() {
    let result = 2 + 2;
    assert_eq!(result, 4);
}

#[test]
fn test_is_crr_stmt() {
    assert_eq!(is_crr_stmt("CREATE CRR"), true);
    assert_eq!(is_crr_stmt("CREATE CRR INDEX"), true);
    assert_eq!(is_crr_stmt("ALTER CRR"), true);
    assert_eq!(
        is_crr_stmt(
            "ALTER
    CRR"
        ),
        true
    );
    assert_eq!(
        is_crr_stmt(
            "CREATE
CRR
INDEX"
        ),
        true
    );
    assert_eq!(is_crr_stmt("CREATE TABLE"), false);
    assert_eq!(is_crr_stmt("ALTER TABLE"), false);
    assert_eq!(is_crr_stmt("CREATE UNIQUE INDEX"), false);
}

#[test]
fn test_convert_crr_stmt_to_sql() {
    assert_eq!(
        convert_crr_stmt_to_sql("CREATE CRR TABLE foo (a, b)").unwrap(),
        "CREATE  TABLE foo (a, b)"
    );
    assert_eq!(
        convert_crr_stmt_to_sql("create crr table foo (a, b)").unwrap(),
        "create  table foo (a, b)"
    );
    assert_eq!(
        convert_crr_stmt_to_sql("create crr unique index bar on foo (a)").unwrap(),
        "create  unique index bar on foo (a)"
    );
    assert_eq!(
        convert_crr_stmt_to_sql("alter crr table foo").unwrap(),
        "alter  table foo"
    );
}

#[test]
fn convert_rejects_plain_sql() {
    assert!(convert_crr_stmt_to_sql("CREATE TABLE foo (a)").is_err());
}
