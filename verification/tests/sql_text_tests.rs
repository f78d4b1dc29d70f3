use crsqlite::alter;
use crsqlite::automigrate::list_user_tables_sql;
use crsqlite::backfill::{backfill_column_sql, backfill_sentinel_sql};
use crsqlite::automigrate::default_clause_value;
use crsqlite::clock::ClockKey;
use crsqlite::trigger_fns::{classify_change_row, ChangeRowType, ClockUnionColumn, CrsqlChangesColumn};
use crsqlite::automigrate::{classify_names, plan_added_column, split_lines, strip_crr_statements, MigrationError};
use crsqlite::bootstrap;
use crsqlite::changes_query;
use crsqlite::sql_bits;
use crsqlite::stmt_cache::{StmtCache, StmtPurpose};
use crsqlite::stmts;
use crsqlite::tableinfo::{build_table_info, cache_needs_refresh, is_table_compatible, CompatFacts, ColumnInfo, Incompatibility};
use crsqlite::triggers;
use crsqlite::util;

fn names(ns: &[&str]) -> Vec<String> {
    ns.iter().map(|s| s.to_string()).collect()
}

#[test]
fn escape_ident_doubles_quotes() {
    assert_eq!(util::escape_ident("plain"), "plain");
    assert_eq!(util::escape_ident("we\"ird"), "we\"\"ird");
    assert_eq!(util::escape_ident("\"\""), "\"\"\"\"");
    assert_eq!(util::escape_ident_as_value("it's"), "it''s");
    assert_eq!(util::escape_ident(""), "");
}

#[test]
fn list_builders() {
    assert_eq!(util::binding_list(0), "");
    assert_eq!(util::binding_list(1), "?");
    assert_eq!(util::binding_list(3), "?, ?, ?");
    assert_eq!(util::as_identifier_list(&names(&["a", "b"]), ""), "\"a\", \"b\"");
    assert_eq!(util::as_identifier_list(&names(&["a", "b"]), "NEW."), "NEW.\"a\", NEW.\"b\"");
    assert_eq!(util::where_list(&names(&["a", "b"])), "\"a\" = ? AND \"b\" = ?");
    assert_eq!(
        util::pk_where_list(&names(&["id"]), "OLD."),
        "\"id\" = OLD.\"id\""
    );
}

#[test]
fn clock_table_ddl() {
    let sql = triggers::create_clock_table_sql("todo", &names(&["id"]));
    assert_eq!(
        sql,
        "CREATE TABLE IF NOT EXISTS \"todo__crsql_clock\" (\"id\", __crsql_col_name TEXT NOT NULL, __crsql_col_version INT NOT NULL, __crsql_db_version INT NOT NULL, __crsql_site_id INT, __crsql_seq INT NOT NULL, PRIMARY KEY (\"id\", __crsql_col_name))"
    );
    assert_eq!(
        triggers::clock_index_sql("todo"),
        "CREATE INDEX IF NOT EXISTS \"todo__crsql_clock_dbv_idx\" ON \"todo__crsql_clock\" (\"__crsql_db_version\")"
    );
}

#[test]
fn trigger_sql_texts() {
    let sql = triggers::insert_trigger_sql("todo", &names(&["id"]));
    assert_eq!(
        sql,
        "CREATE TRIGGER IF NOT EXISTS \"todo__crsql_itrig\" AFTER INSERT ON \"todo\" WHEN crsql_internal_sync_bit() = 0 BEGIN SELECT crsql_after_insert('todo', NEW.\"id\"); END;"
    );
    let sql = triggers::update_trigger_sql("todo", &names(&["id"]), &names(&["name"]));
    assert_eq!(
        sql,
        "CREATE TRIGGER IF NOT EXISTS \"todo__crsql_utrig\" AFTER UPDATE ON \"todo\" WHEN crsql_internal_sync_bit() = 0 BEGIN SELECT crsql_after_update('todo', NEW.\"id\", OLD.\"id\", NEW.\"name\", OLD.\"name\"); END;"
    );
    // a key-only table passes no value lists
    let sql = triggers::update_trigger_sql("jx", &names(&["id1", "id2"]), &names(&[]));
    assert_eq!(
        sql,
        "CREATE TRIGGER IF NOT EXISTS \"jx__crsql_utrig\" AFTER UPDATE ON \"jx\" WHEN crsql_internal_sync_bit() = 0 BEGIN SELECT crsql_after_update('jx', NEW.\"id1\", NEW.\"id2\", OLD.\"id1\", OLD.\"id2\"); END;"
    );
    let sql = triggers::delete_trigger_sql("todo", &names(&["id"]));
    assert!(sql.starts_with("CREATE TRIGGER IF NOT EXISTS \"todo__crsql_dtrig\" AFTER DELETE ON \"todo\""));
    assert!(sql.contains("'-1', 2, crsql_next_db_version()"));
    assert!(sql.contains("DELETE FROM \"todo__crsql_clock\" WHERE \"id\" = OLD.\"id\" AND __crsql_col_name != '-1';"));
}

#[test]
fn changes_feed_queries() {
    let q = changes_query::changes_query_for_table("todo", &names(&["id"])).unwrap();
    assert!(q.starts_with("SELECT 'todo' as tbl, crsql_pack_columns(t1.\"id\") as pks"));
    assert!(q.contains("COALESCE(t2.__crsql_col_version, 1) as cl"));
    assert!(q.contains("LEFT JOIN \"todo__crsql_clock\" AS t2 ON t1.\"id\" = t2.\"id\" AND t2.__crsql_col_name = '-1'"));
    assert!(changes_query::changes_query_for_table("bad", &names(&[])).is_err());

    let union = changes_query::changes_union_query(&vec![String::from("Q1"), String::from("Q2")], "WHERE db_vrsn > ?");
    assert_eq!(
        union,
        "SELECT tbl, pks, cid, col_vrsn, db_vrsn, site_id, _rowid_, seq, cl FROM (Q1 UNION ALL Q2) WHERE db_vrsn > ?"
    );

    assert_eq!(
        changes_query::row_patch_data_query("todo", "name", &names(&["id"])),
        "SELECT \"name\" FROM \"todo\" WHERE \"id\" = ?"
    );
}

#[test]
fn per_table_statements() {
    let pk = names(&["id"]);
    assert!(stmts::set_winner_clock_sql("t", &pk).contains("MAX(crsql_next_db_version(), ?)"));
    assert_eq!(
        stmts::col_version_sql("t", &pk),
        "SELECT __crsql_col_version FROM \"t__crsql_clock\" WHERE \"id\" = ? AND ? = __crsql_col_name"
    );
    assert_eq!(
        stmts::merge_pk_only_insert_sql("t", &pk),
        "INSERT OR IGNORE INTO \"t\" (\"id\") VALUES (?)"
    );
    assert_eq!(stmts::merge_delete_sql("t", &pk), "DELETE FROM \"t\" WHERE \"id\" = ?");
    assert_eq!(
        stmts::merge_delete_drop_clocks_sql("t", &pk),
        "DELETE FROM \"t__crsql_clock\" WHERE \"id\" = ? AND __crsql_col_name IS NOT '-1'"
    );
    assert_eq!(
        stmts::curr_value_sql("t", "c", &pk),
        "SELECT \"c\" FROM \"t\" WHERE \"id\" = ?"
    );
    let lcl = stmts::local_cl_sql("t", &pk);
    assert!(lcl.contains("__crsql_col_name = '-1'"));
}

#[test]
fn compatibility_gate() {
    let ok = CompatFacts {
        non_pk_unique_index_count: 0,
        pk_column_count: 1,
        has_autoincrement: false,
        foreign_key_count: 0,
        notnull_without_default_count: 0,
    };
    assert_eq!(is_table_compatible(&ok), Ok(()));
    assert_eq!(
        is_table_compatible(&CompatFacts { pk_column_count: 0, ..ok }),
        Err(Incompatibility::NoPrimaryKey)
    );
    assert_eq!(
        is_table_compatible(&CompatFacts { non_pk_unique_index_count: 1, ..ok }),
        Err(Incompatibility::UniqueIndexesBesidesPrimaryKey)
    );
    assert_eq!(
        is_table_compatible(&CompatFacts { has_autoincrement: true, ..ok }),
        Err(Incompatibility::AutoincrementPrimaryKey)
    );
    assert_eq!(
        is_table_compatible(&CompatFacts { foreign_key_count: 2, ..ok }),
        Err(Incompatibility::CheckedForeignKeys)
    );
    assert_eq!(
        is_table_compatible(&CompatFacts { notnull_without_default_count: 1, ..ok }),
        Err(Incompatibility::NotNullColumnWithoutDefault)
    );
    assert!(!Incompatibility::NoPrimaryKey.message().is_empty());
}

#[test]
fn table_info_ordering() {
    // catalog order: c (cid 0), b (pk ordinal 2), a (pk ordinal 1)
    let cols = vec![
        ColumnInfo { cid: 0, name: "c".to_string(), pk: 0 },
        ColumnInfo { cid: 1, name: "b".to_string(), pk: 2 },
        ColumnInfo { cid: 2, name: "a".to_string(), pk: 1 },
        ColumnInfo { cid: 3, name: "d".to_string(), pk: 0 },
    ];
    let ti = build_table_info("t".to_string(), &cols, 4).unwrap();
    let pk_names: Vec<&str> = ti.pks.iter().map(|c| c.name.as_str()).collect();
    assert_eq!(pk_names, vec!["a", "b"], "key columns ordered by declared key ordinal");
    let non_pk_names: Vec<&str> = ti.non_pks.iter().map(|c| c.name.as_str()).collect();
    assert_eq!(non_pk_names, vec!["c", "d"], "other columns keep catalog order");

    // a raced schema change shows as a count mismatch
    assert!(build_table_info("t".to_string(), &cols, 5).is_err());
}

#[test]
fn strip_and_classify() {
    let schema = "CREATE TABLE foo (a primary key, b);\nSELECT crsql_as_crr('foo');\nCREATE TABLE bar (x primary key);";
    let (stripped, queued) = strip_crr_statements(schema);
    assert_eq!(
        stripped,
        "CREATE TABLE foo (a primary key, b);\nCREATE TABLE bar (x primary key);"
    );
    assert_eq!(queued, vec!["SELECT crsql_as_crr('foo');".to_string()]);

    // the marker is found case-insensitively
    let (_, queued) = strip_crr_statements("select CRSQL_AS_CRR('t');");
    assert_eq!(queued.len(), 1);

    let lines = split_lines("a\nb\n\nc");
    assert_eq!(lines, vec!["a", "b", "", "c"]);

    let diff = classify_names(&names(&["foo", "new1"]), &names(&["foo", "gone"]));
    assert_eq!(diff.added, vec!["new1"]);
    assert_eq!(diff.removed, vec!["gone"]);
    assert_eq!(diff.kept, vec!["foo"]);
}

#[test]
fn migration_ddl() {
    assert_eq!(
        plan_added_column("foo", "age", "INTEGER", false, Some("0"), false).unwrap(),
        "ALTER TABLE \"foo\" ADD COLUMN \"age\" INTEGER DEFAULT 0"
    );
    assert_eq!(
        plan_added_column("foo", "age", "INTEGER", true, None, false).unwrap(),
        "ALTER TABLE \"foo\" ADD COLUMN \"age\" INTEGER NOT NULL"
    );
    assert_eq!(
        plan_added_column("foo", "id2", "INTEGER", false, None, true),
        Err(MigrationError::AddedPrimaryKeyColumn)
    );
    assert_eq!(crsqlite::automigrate::drop_table_sql("foo"), "DROP TABLE \"foo\"");
    assert_eq!(
        crsqlite::automigrate::drop_column_sql("foo", "b"),
        "ALTER TABLE \"foo\" DROP \"b\""
    );
    assert_eq!(
        crsqlite::automigrate::create_index_sql(true, "i", "t", &names(&["a", "b"])),
        "CREATE UNIQUE INDEX \"i\" ON \"t\" (a, b)"
    );
    assert_eq!(crsqlite::automigrate::drop_index_sql("i"), "DROP INDEX \"i\"");
}

#[test]
fn sql_bits_helpers() {
    assert_eq!(sql_bits::ifne_str(&true), "IF NOT EXISTS");
    assert_eq!(sql_bits::ifne_str(&false), "");
    assert_eq!(sql_bits::if_exists_str(&true), "IF EXISTS");
    assert_eq!(sql_bits::if_exists_str(&false), "");
    assert_eq!(sql_bits::temp_str(&true), "TEMPORARY");
    assert_eq!(sql_bits::temp_str(&false), "");
    assert_eq!(sql_bits::unique_str(&true), "UNIQUE");
    assert_eq!(sql_bits::unique_str(&false), "");
    assert_eq!(
        sql_bits::meta_query("'foo'".to_string()),
        "SELECT sql FROM sqlite_schema WHERE type = 'table' AND tbl_name = 'foo';"
    );
    sql_bits::create_insert_oredered_trigger();
    sql_bits::create_update_order_trigger();
}

#[test]
fn uuid_bit_forcing() {
    let raw: Vec<u8> = (0u8..16).collect();
    let id = bootstrap::force_uuid_bits(raw.clone());
    assert_eq!(id.len(), 16);
    assert_eq!(id[6] >> 4, 4, "version nibble");
    assert_eq!(id[8] >> 6, 2, "variant bits");
    for i in 0..16 {
        if i != 6 && i != 8 {
            assert_eq!(id[i], raw[i], "all other bytes are kept");
        }
    }
}

#[test]
fn compaction_sql() {
    let q = alter::pk_diff_query("todo");
    assert!(q.contains("pragma_table_info('todo__crsql_clock') WHERE pk > 0"));
    assert_eq!(alter::drop_clock_table_sql("todo"), "DROP TABLE \"todo__crsql_clock\"");
    let q = alter::compact_orphaned_columns_sql("todo");
    assert!(q.contains("UNION SELECT '-1')"));
    let q = alter::compact_missing_rows_sql("todo", &names(&["id"]));
    assert!(q.contains("NOT EXISTS (SELECT 1 FROM \"todo\" WHERE \"todo\".\"id\" = \"todo__crsql_clock\".\"id\" LIMIT 1)"));
    assert!(q.contains("__crsql_col_version % 2 != 0"));
}

#[test]
fn escaping_defeats_injection() {
    // a hostile table name cannot escape its quoting
    let sql = triggers::create_clock_table_sql("x\" (oops", &names(&["id"]));
    assert!(sql.starts_with("CREATE TABLE IF NOT EXISTS \"x\"\" (oops__crsql_clock\""));
}

#[test]
fn default_clause_decision() {
    assert_eq!(default_clause_value(false, None), Some("NULL".to_string()));
    assert_eq!(default_clause_value(true, None), None);
    assert_eq!(default_clause_value(true, Some("7".to_string())), Some("7".to_string()));
    assert_eq!(default_clause_value(false, Some("'x'".to_string())), Some("'x'".to_string()));
}

#[test]
fn changes_interface_projection_order() {
    assert_eq!(CrsqlChangesColumn::Tbl.index(), 0);
    assert_eq!(CrsqlChangesColumn::Cval.index(), 3);
    assert_eq!(CrsqlChangesColumn::Sequence.index(), 8);
    assert_eq!(ClockUnionColumn::Pks.index(), 1);
    assert_eq!(ClockUnionColumn::Cl.index(), 8);
    assert_eq!(classify_change_row(ClockKey::Sentinel, 2, false), ChangeRowType::Delete);
    assert_eq!(classify_change_row(ClockKey::Sentinel, 1, true), ChangeRowType::PkOnly);
    assert_eq!(classify_change_row(ClockKey::Col(0), 1, true), ChangeRowType::Update);
    assert_eq!(classify_change_row(ClockKey::Col(0), 1, false), ChangeRowType::Delete);
}

#[test]
fn virtual_name_stripping() {
    assert_eq!(crsqlite::util::base_name_from_virtual_name("todo_schema"), "todo");
}

#[test]
fn config_and_bookkeeping_sql() {
    assert_eq!(bootstrap::config_key("merge-equal-values"), "config.merge-equal-values");
    assert!(bootstrap::insert_config_sql().contains("RETURNING value"));
    assert!(bootstrap::create_schema_table_sql().contains("crsql_master"));
    assert!(bootstrap::needs_version_write(0, false));
    assert!(bootstrap::needs_version_write(bootstrap::CRSQLITE_VERSION, true));
    assert!(!bootstrap::needs_version_write(bootstrap::CRSQLITE_VERSION, false));
}

#[test]
fn cache_refresh_decision() {
    assert!(cache_needs_refresh(true, 5));
    assert!(cache_needs_refresh(false, 0));
    assert!(!cache_needs_refresh(false, 5));
}

#[test]
fn backfill_and_listing_sql() {
    let pk = names(&["id"]);
    let sql = backfill_column_sql("todo", &pk, "name");
    assert_eq!(
        sql,
        "INSERT OR IGNORE INTO \"todo__crsql_clock\" (\"id\", __crsql_col_name, __crsql_col_version, __crsql_db_version, __crsql_seq, __crsql_site_id) SELECT \"id\", 'name', 1, crsql_next_db_version(), crsql_increment_and_get_seq(), NULL FROM \"todo\""
    );
    let sql = backfill_sentinel_sql("jx", &pk);
    assert!(sql.contains("'-1', 1, crsql_next_db_version()"));
    assert!(list_user_tables_sql().contains("name NOT LIKE '__crsql_%'"));
}

#[test]
fn statement_registry_discipline() {
    let mut cache = StmtCache::new();
    let i1 = cache.get_or_prepare(
        "todo".to_string(),
        StmtPurpose::SetWinnerClock,
        None,
        "SQL1".to_string(),
    );
    let i2 = cache.get_or_prepare(
        "todo".to_string(),
        StmtPurpose::GetCurrValue,
        Some("name".to_string()),
        "SQL2".to_string(),
    );
    assert_ne!(i1, i2);
    // the same key is prepared at most once: the slot and SQL are reused
    let again = cache.get_or_prepare(
        "todo".to_string(),
        StmtPurpose::SetWinnerClock,
        None,
        "SQL-ignored".to_string(),
    );
    assert_eq!(again, i1);
    assert_eq!(cache.entries.len(), 2);
    assert_eq!(cache.entries[i1].sql, "SQL1");
    assert_eq!(
        cache.lookup(&"todo".to_string(), StmtPurpose::GetCurrValue, &Some("name".to_string())),
        Some(i2)
    );
    assert_eq!(cache.lookup(&"other".to_string(), StmtPurpose::GetCurrValue, &None), None);

    // invalidation owes one finalize per handle, and only once
    assert_eq!(cache.release_all(), 2);
    assert_eq!(cache.entries.len(), 0);
    assert_eq!(cache.release_all(), 0, "a second invalidation finalizes nothing");
}
