use rusqlite::functions::FunctionFlags;
use rusqlite::types::ValueRef;
use rusqlite::{Connection, OptionalExtension};

use crsqlite::automigrate::{classify_names, list_user_tables_sql, plan_added_column, strip_crr_statements, drop_table_sql};
use crsqlite::backfill::{backfill_column_sql, backfill_sentinel_sql};
use crsqlite::codec::pack_columns;
use crsqlite::stmts;
use crsqlite::tableinfo::{
    build_table_info, compat_autoincrement_query, compat_foreign_key_query,
    compat_notnull_no_default_query, compat_pk_count_query, compat_unique_index_query,
    is_table_compatible, ColumnInfo, CompatFacts,
};
use crsqlite::triggers;
use crsqlite::values::ColumnValue;
use crsqlite::{bootstrap, changes_query};

fn compat_facts(conn: &Connection, table: &str) -> CompatFacts {
    let non_pk_unique_index_count: i64 = conn
        .query_row(&compat_unique_index_query(table), [], |r| r.get(0))
        .unwrap();
    let pk_column_count: i64 = conn
        .query_row(&compat_pk_count_query(table), [], |r| r.get(0))
        .unwrap();
    let has_autoincrement: bool = conn
        .query_row(&compat_autoincrement_query(), [table], |r| r.get::<_, i64>(0))
        .optional()
        .unwrap()
        .is_some();
    let foreign_key_count: i64 = conn
        .query_row(&compat_foreign_key_query(table), [], |r| r.get(0))
        .unwrap();
    let notnull_without_default_count: i64 = conn
        .query_row(&compat_notnull_no_default_query(table), [], |r| r.get(0))
        .unwrap();
    CompatFacts {
        non_pk_unique_index_count,
        pk_column_count,
        has_autoincrement,
        foreign_key_count,
        notnull_without_default_count,
    }
}

/// Compatibility gating against real reflected tables: the library's own
/// catalog queries feed its verified decision function.
#[test]
fn test_is_table_compatible() {
    let db = Connection::open_in_memory().unwrap();
    db.execute_batch("CREATE TABLE foo (a);").unwrap();
    assert!(is_table_compatible(&compat_facts(&db, "foo")).is_err(), "no primary key");

    db.execute_batch("CREATE TABLE bar (a PRIMARY KEY);").unwrap();
    assert!(is_table_compatible(&compat_facts(&db, "bar")).is_ok());

    db.execute_batch("CREATE TABLE baz (a PRIMARY KEY, b);").unwrap();
    db.execute_batch("CREATE UNIQUE INDEX bar_i ON baz (b);").unwrap();
    assert!(is_table_compatible(&compat_facts(&db, "baz")).is_err(), "unique index");

    db.execute_batch("CREATE TABLE buzz (a PRIMARY KEY, b NOT NULL);").unwrap();
    assert!(
        is_table_compatible(&compat_facts(&db, "buzz")).is_err(),
        "NOT NULL without default"
    );

    db.execute_batch("CREATE TABLE boom (a PRIMARY KEY, b NOT NULL DEFAULT 1);").unwrap();
    assert!(is_table_compatible(&compat_facts(&db, "boom")).is_ok());

    db.execute_batch("CREATE TABLE zoom (a PRIMARY KEY, b, FOREIGN KEY(b) REFERENCES foo(a));")
        .unwrap();
    assert!(is_table_compatible(&compat_facts(&db, "zoom")).is_err(), "foreign key");

    db.execute_batch("CREATE TABLE atable (\"id\" TEXT PRIMARY KEY) STRICT;").unwrap();
    assert!(is_table_compatible(&compat_facts(&db, "atable")).is_ok());

    db.execute_batch("CREATE TABLE woom (a integer primary key autoincrement);").unwrap();
    assert!(is_table_compatible(&compat_facts(&db, "woom")).is_err(), "autoincrement");

    db.execute_batch("CREATE TABLE loom (a integer primary key);").unwrap();
    assert!(is_table_compatible(&compat_facts(&db, "loom")).is_ok());

    db.execute_batch("CREATE TABLE atable2 (\"id\" TEXT PRIMARY KEY, x TEXT) STRICT;").unwrap();
    assert!(is_table_compatible(&compat_facts(&db, "atable2")).is_ok());
}

fn reflect_columns(conn: &Connection, table: &str) -> Vec<ColumnInfo> {
    let mut stmt = conn
        .prepare("SELECT \"cid\", \"name\", \"pk\" FROM pragma_table_info(?) ORDER BY cid ASC")
        .unwrap();
    let rows = stmt
        .query_map([table], |r| {
            Ok(ColumnInfo { cid: r.get(0)?, name: r.get(1)?, pk: r.get(2)? })
        })
        .unwrap();
    rows.map(|r| r.unwrap()).collect()
}

/// Schema reflection against a real catalog: key columns come out ordered
/// by key ordinal, the others in catalog order, and the count cross-check
/// matches.
#[test]
fn test_pull_table_info() {
    let db = Connection::open_in_memory().unwrap();
    db.execute_batch(
        "CREATE TABLE foo (a INTEGER PRIMARY KEY, b TEXT NOT NULL, c NUMBER, d FLOAT, e);",
    )
    .unwrap();
    let cols = reflect_columns(&db, "foo");
    let count: i64 = db
        .query_row("SELECT count(*) FROM pragma_table_info('foo')", [], |r| r.get(0))
        .unwrap();
    let ti = build_table_info("foo".to_string(), &cols, count as usize).unwrap();
    assert_eq!(ti.pks.len(), 1);
    assert_eq!(ti.pks[0].name, "a");
    let non_pks: Vec<&str> = ti.non_pks.iter().map(|c| c.name.as_str()).collect();
    assert_eq!(non_pks, vec!["b", "c", "d", "e"]);

    db.execute_batch("CREATE TABLE boo (a, b, c, PRIMARY KEY (c, a));").unwrap();
    let cols = reflect_columns(&db, "boo");
    let ti = build_table_info("boo".to_string(), &cols, cols.len()).unwrap();
    let pks: Vec<&str> = ti.pks.iter().map(|c| c.name.as_str()).collect();
    assert_eq!(pks, vec!["c", "a"], "declared key order, not catalog order");
}

fn user_tables(conn: &Connection) -> Vec<String> {
    let mut stmt = conn.prepare(&list_user_tables_sql()).unwrap();
    let rows = stmt.query_map([], |r| r.get::<_, String>(0)).unwrap();
    rows.map(|r| r.unwrap()).collect()
}

fn column_names(conn: &Connection, table: &str) -> Vec<String> {
    let mut stmt = conn.prepare("SELECT name FROM pragma_table_info(?)").unwrap();
    let rows = stmt.query_map([table], |r| r.get::<_, String>(0)).unwrap();
    rows.map(|r| r.unwrap()).collect()
}

fn migrate_to(live: &Connection, desired_schema: &str) {
    let (stripped, _queued) = strip_crr_statements(desired_schema);
    let reference = Connection::open_in_memory().unwrap();
    reference.execute_batch(&stripped).unwrap();

    let diff = classify_names(&user_tables(&reference), &user_tables(live));
    for gone in &diff.removed {
        live.execute_batch(&drop_table_sql(gone)).unwrap();
    }
    for fresh in &diff.added {
        let ddl: String = reference
            .query_row(
                "SELECT sql FROM sqlite_master WHERE type = 'table' AND name = ?",
                [fresh],
                |r| r.get(0),
            )
            .unwrap();
        live.execute_batch(&ddl).unwrap();
    }
    for table in &diff.kept {
        let col_diff = classify_names(&column_names(&reference, table), &column_names(live, table));
        for gone in &col_diff.removed {
            live.execute_batch(&crsqlite::automigrate::drop_column_sql(table, gone)).unwrap();
        }
        for fresh in &col_diff.added {
            let (col_type, notnull, dflt, is_pk): (String, i64, Option<String>, i64) = reference
                .query_row(
                    "SELECT type, \"notnull\", dflt_value, pk FROM pragma_table_info(?) WHERE name = ?",
                    [table.as_str(), fresh.as_str()],
                    |r| Ok((r.get(0)?, r.get(1)?, r.get(2)?, r.get(3)?)),
                )
                .unwrap();
            let ddl = plan_added_column(
                table,
                fresh,
                &col_type,
                notnull == 1,
                dflt.as_deref(),
                is_pk != 0,
            )
            .unwrap();
            live.execute_batch(&ddl).unwrap();
        }
    }
}

/// End-to-end auto-migration: a live table gains a defaulted column with no
/// data loss, and a later schema that omits the table drops it together
/// with its clock table.
#[test]
fn automigrate_add_column_then_drop_table() {
    let live = Connection::open_in_memory().unwrap();
    live.execute_batch("CREATE TABLE foo (id INTEGER PRIMARY KEY, name TEXT);").unwrap();
    live.execute_batch("INSERT INTO foo VALUES (1, 'one'), (2, 'two');").unwrap();
    // foo is tracked: it has a companion clock table
    live.execute_batch(&triggers::create_clock_table_sql("foo", &vec!["id".to_string()]))
        .unwrap();

    migrate_to(&live, "CREATE TABLE foo (id INTEGER PRIMARY KEY, name TEXT, age INTEGER DEFAULT 0);");

    let rows: Vec<(i64, String, i64)> = {
        let mut stmt = live.prepare("SELECT id, name, age FROM foo ORDER BY id").unwrap();
        let it = stmt
            .query_map([], |r| Ok((r.get(0)?, r.get(1)?, r.get(2)?)))
            .unwrap();
        it.map(|r| r.unwrap()).collect()
    };
    assert_eq!(
        rows,
        vec![(1, "one".to_string(), 0), (2, "two".to_string(), 0)],
        "existing rows keep their data and read the default"
    );

    migrate_to(&live, "CREATE TABLE other (x PRIMARY KEY);");
    let left = user_tables(&live);
    assert!(!left.contains(&"foo".to_string()), "omitted table is dropped");
    assert!(
        !left.contains(&"foo__crsql_clock".to_string()),
        "its clock table goes with it"
    );
    assert!(left.contains(&"other".to_string()));
}

fn value_ref_to_column_value(v: ValueRef<'_>) -> ColumnValue {
    match v {
        ValueRef::Null => ColumnValue::Null,
        ValueRef::Integer(i) => ColumnValue::Integer(i),
        ValueRef::Real(f) => ColumnValue::Real(f.to_bits()),
        ValueRef::Text(t) => ColumnValue::Text(t.to_vec()),
        ValueRef::Blob(b) => ColumnValue::Blob(b.to_vec()),
    }
}

fn register_replication_functions(db: &Connection) {
    db.create_scalar_function("crsql_internal_sync_bit", -1, FunctionFlags::SQLITE_UTF8, |_| {
        Ok(0i64)
    })
    .unwrap();
    db.create_scalar_function("crsql_after_insert", -1, FunctionFlags::SQLITE_UTF8, |_| Ok(0i64))
        .unwrap();
    db.create_scalar_function("crsql_after_update", -1, FunctionFlags::SQLITE_UTF8, |_| Ok(1i64))
        .unwrap();
    db.create_scalar_function("crsql_next_db_version", -1, FunctionFlags::SQLITE_UTF8, |_| {
        Ok(1i64)
    })
    .unwrap();
    db.create_scalar_function(
        "crsql_increment_and_get_seq",
        0,
        FunctionFlags::SQLITE_UTF8,
        |_| Ok(0i64),
    )
    .unwrap();
    db.create_scalar_function("crsql_get_seq", 0, FunctionFlags::SQLITE_UTF8, |_| Ok(1i64))
        .unwrap();
    db.create_scalar_function("crsql_pack_columns", -1, FunctionFlags::SQLITE_UTF8, |ctx| {
        let mut vals: Vec<ColumnValue> = Vec::new();
        for i in 0..ctx.len() {
            vals.push(value_ref_to_column_value(ctx.get_raw(i)));
        }
        Ok(pack_columns(&vals).expect("packable key"))
    })
    .unwrap();
}

/// The generated DDL, triggers and changes query are valid SQL: a real
/// database accepts them, the triggers maintain the clock table on a local
/// write and delete, and the changes feed projects the expected record.
#[test]
fn generated_sql_runs_against_real_database() {
    let db = Connection::open_in_memory().unwrap();
    register_replication_functions(&db);

    let pk_names = vec!["id".to_string()];
    db.execute_batch("CREATE TABLE todo (id INTEGER PRIMARY KEY, name TEXT);").unwrap();
    db.execute_batch(&triggers::create_clock_table_sql("todo", &pk_names)).unwrap();
    db.execute_batch(&triggers::clock_index_sql("todo")).unwrap();
    db.execute_batch(&triggers::insert_trigger_sql("todo", &pk_names)).unwrap();
    db.execute_batch(&triggers::update_trigger_sql("todo", &pk_names, &vec!["name".to_string()]))
        .unwrap();
    db.execute_batch(&triggers::delete_trigger_sql("todo", &pk_names)).unwrap();
    db.execute_batch(&bootstrap::create_site_id_table_sql()).unwrap();

    db.execute_batch("INSERT INTO todo VALUES (1, 'a');").unwrap();
    // simulate the local-write tracker's clock upsert for the one column
    db.execute(
        "INSERT INTO \"todo__crsql_clock\" (\"id\", __crsql_col_name, __crsql_col_version, __crsql_db_version, __crsql_seq, __crsql_site_id) VALUES (1, 'name', 1, 1, 0, NULL)",
        [],
    )
    .unwrap();

    let per_table = changes_query::changes_query_for_table("todo", &pk_names).unwrap();
    let union = changes_query::changes_union_query(&vec![per_table], "");
    let (tbl, cid, col_vrsn, cl): (String, String, i64, i64) = db
        .query_row(&union, [], |r| Ok((r.get(0)?, r.get(2)?, r.get(3)?, r.get(8)?)))
        .unwrap();
    assert_eq!(tbl, "todo");
    assert_eq!(cid, "name");
    assert_eq!(col_vrsn, 1);
    assert_eq!(cl, 1, "causal length coalesces to 1 with no sentinel row");

    // the delete trigger writes the tombstone and clears the column entry
    db.execute_batch("DELETE FROM todo WHERE id = 1;").unwrap();
    let (col_name, version): (String, i64) = db
        .query_row(
            "SELECT __crsql_col_name, __crsql_col_version FROM \"todo__crsql_clock\"",
            [],
            |r| Ok((r.get(0)?, r.get(1)?)),
        )
        .unwrap();
    assert_eq!(col_name, "-1");
    assert_eq!(version, 2, "a fresh tombstone starts at causal length 2");

    // the merge-path statements parse and bind
    for sql in [
        stmts::set_winner_clock_sql("todo", &pk_names),
        stmts::local_cl_sql("todo", &pk_names),
        stmts::col_version_sql("todo", &pk_names),
        stmts::merge_pk_only_insert_sql("todo", &pk_names),
        stmts::merge_delete_sql("todo", &pk_names),
        stmts::merge_delete_drop_clocks_sql("todo", &pk_names),
        stmts::curr_value_sql("todo", "name", &pk_names),
    ] {
        db.prepare(&sql).unwrap();
    }
}

fn clock_rows(db: &Connection, table: &str) -> Vec<(i64, String, i64)> {
    let sql = format!(
        "SELECT \"id\", __crsql_col_name, __crsql_col_version FROM \"{table}__crsql_clock\" ORDER BY \"id\", __crsql_col_name"
    );
    let mut stmt = db.prepare(&sql).unwrap();
    let it = stmt
        .query_map([], |r| Ok((r.get(0)?, r.get(1)?, r.get(2)?)))
        .unwrap();
    it.map(|r| r.unwrap()).collect()
}

/// Backfill of pre-existing data when a table becomes tracked: every row
/// gains a version-1 entry per tracked column, re-running changes nothing,
/// and rows inserted later are picked up without disturbing earlier entries.
#[test]
fn backfill_is_idempotent_and_incremental() {
    let db = Connection::open_in_memory().unwrap();
    register_replication_functions(&db);
    let pk_names = vec!["id".to_string()];
    db.execute_batch("CREATE TABLE todo (id INTEGER PRIMARY KEY, name TEXT);").unwrap();
    db.execute_batch("INSERT INTO todo VALUES (1, 'a'), (2, 'b');").unwrap();
    db.execute_batch(&crsqlite::triggers::create_clock_table_sql("todo", &pk_names)).unwrap();

    db.execute_batch(&backfill_column_sql("todo", &pk_names, "name")).unwrap();
    assert_eq!(
        clock_rows(&db, "todo"),
        vec![(1, "name".to_string(), 1), (2, "name".to_string(), 1)],
        "one version-1 entry per pre-existing row"
    );

    // reapplying is a no-op
    db.execute_batch(&backfill_column_sql("todo", &pk_names, "name")).unwrap();
    assert_eq!(clock_rows(&db, "todo").len(), 2);

    // a row that advanced past version 1 is never rewound
    db.execute_batch("UPDATE \"todo__crsql_clock\" SET __crsql_col_version = 4 WHERE \"id\" = 1;")
        .unwrap();
    db.execute_batch("INSERT INTO todo VALUES (3, 'c');").unwrap();
    db.execute_batch(&backfill_column_sql("todo", &pk_names, "name")).unwrap();
    assert_eq!(
        clock_rows(&db, "todo"),
        vec![
            (1, "name".to_string(), 4),
            (2, "name".to_string(), 1),
            (3, "name".to_string(), 1)
        ],
        "new rows are picked up, existing history untouched"
    );

    // a key-only table backfills creation sentinels instead
    db.execute_batch("CREATE TABLE jx (id INTEGER PRIMARY KEY);").unwrap();
    db.execute_batch("INSERT INTO jx VALUES (7);").unwrap();
    db.execute_batch(&crsqlite::triggers::create_clock_table_sql("jx", &pk_names)).unwrap();
    db.execute_batch(&backfill_sentinel_sql("jx", &pk_names)).unwrap();
    assert_eq!(clock_rows(&db, "jx"), vec![(7, "-1".to_string(), 1)]);
}

/// The clock-compaction statements after a column drop: entries for the
/// vanished column go, the tombstone sentinel stays, and live entries whose
/// base row has disappeared are cleared while tombstones survive.
#[test]
fn compaction_after_column_drop() {
    let db = Connection::open_in_memory().unwrap();
    register_replication_functions(&db);
    let pk_names = vec!["id".to_string()];
    db.execute_batch("CREATE TABLE todo (id INTEGER PRIMARY KEY, name TEXT, gone TEXT);").unwrap();
    db.execute_batch("INSERT INTO todo VALUES (1, 'a', 'x');").unwrap();
    db.execute_batch(&crsqlite::triggers::create_clock_table_sql("todo", &pk_names)).unwrap();
    db.execute_batch(
        "INSERT INTO \"todo__crsql_clock\" VALUES \
         (1, 'name', 1, 1, NULL, 0), \
         (1, 'gone', 1, 1, NULL, 1), \
         (2, 'name', 3, 2, NULL, 0), \
         (3, '-1', 2, 2, NULL, 0);",
    )
    .unwrap();

    // the key sets still agree, so the clock table is compacted, not rebuilt
    let pk_diff: i64 = db
        .query_row(&crsqlite::alter::pk_diff_query("todo"), [], |r| r.get(0))
        .unwrap();
    assert_eq!(pk_diff, 0);

    db.execute_batch("ALTER TABLE todo DROP COLUMN gone;").unwrap();
    db.execute_batch(&crsqlite::alter::compact_orphaned_columns_sql("todo")).unwrap();
    db.execute_batch(&crsqlite::alter::compact_missing_rows_sql("todo", &pk_names)).unwrap();

    assert_eq!(
        clock_rows(&db, "todo"),
        vec![(1, "name".to_string(), 1), (3, "-1".to_string(), 2)],
        "dropped column's entries and the rowless live entry are gone; the tombstone stays"
    );
}
