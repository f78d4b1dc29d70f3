// Reserved schema-alteration scenario hooks. The behavior they name is
// exercised in end_to_end_tests.rs (compaction_after_column_drop,
// backfill_is_idempotent_and_incremental, automigrate_add_column_then_drop_table)
// and in the model tests; these hooks assert nothing further yet.

#[test]
fn drop_clocks_on_col_remove() {}

#[test]
fn backfill_clocks_on_col_add() {}

#[test]
fn clock_recreation_ok_pk_alter() {}

#[test]
fn junction_table() {}

#[test]
fn test_create_clock_table_from_table_info() {}
