use vstd::prelude::*;
use vstd::string::StringExecFns;

use crate::util::{
    as_identifier_list, escape_ident, escape_ident_as_value, escape_seq, ident_list_upto,
    pk_where_list, pk_where_list_upto,
};

verus! {

/// DDL for the companion clock table of `tbl`: copies of the key columns, a
/// column-name slot, the column and database version counters, origin site
/// and sequence, keyed by (key columns, column name).
pub fn create_clock_table_sql(tbl: &str, pk_names: &Vec<String>) -> (r: String)
    ensures
        r@ == "CREATE TABLE IF NOT EXISTS \""@ + escape_seq(tbl@, '"') + "__crsql_clock\" ("@
            + ident_list_upto(pk_names.deep_view(), ""@, pk_names@.len() as int)
            + ", __crsql_col_name TEXT NOT NULL, __crsql_col_version INT NOT NULL, __crsql_db_version INT NOT NULL, __crsql_site_id INT, __crsql_seq INT NOT NULL, PRIMARY KEY ("@
            + ident_list_upto(pk_names.deep_view(), ""@, pk_names@.len() as int)
            + ", __crsql_col_name))"@,
{
    let mut out = String::from_str("CREATE TABLE IF NOT EXISTS \"");
    let t = escape_ident(tbl);
    out.append(t.as_str());
    out.append("__crsql_clock\" (");
    let pk_list = as_identifier_list(pk_names, "");
    out.append(pk_list.as_str());
    out.append(
        ", __crsql_col_name TEXT NOT NULL, __crsql_col_version INT NOT NULL, __crsql_db_version INT NOT NULL, __crsql_site_id INT, __crsql_seq INT NOT NULL, PRIMARY KEY (",
    );
    out.append(pk_list.as_str());
    out.append(", __crsql_col_name))");
    proof {
        assert(out@ =~= "CREATE TABLE IF NOT EXISTS \""@ + escape_seq(tbl@, '"')
            + "__crsql_clock\" ("@ + ident_list_upto(
            pk_names.deep_view(),
            ""@,
            pk_names@.len() as int,
        )
            + ", __crsql_col_name TEXT NOT NULL, __crsql_col_version INT NOT NULL, __crsql_db_version INT NOT NULL, __crsql_site_id INT, __crsql_seq INT NOT NULL, PRIMARY KEY ("@
            + ident_list_upto(pk_names.deep_view(), ""@, pk_names@.len() as int)
            + ", __crsql_col_name))"@);
    }
    out
}

/// DDL for the secondary index on the clock table's database version, used
/// to answer "changes since version X" efficiently.
pub fn clock_index_sql(tbl: &str) -> (r: String)
    ensures
        r@ == "CREATE INDEX IF NOT EXISTS \""@ + escape_seq(tbl@, '"')
            + "__crsql_clock_dbv_idx\" ON \""@ + escape_seq(tbl@, '"')
            + "__crsql_clock\" (\"__crsql_db_version\")"@,
{
    let mut out = String::from_str("CREATE INDEX IF NOT EXISTS \"");
    let t = escape_ident(tbl);
    out.append(t.as_str());
    out.append("__crsql_clock_dbv_idx\" ON \"");
    out.append(t.as_str());
    out.append("__crsql_clock\" (\"__crsql_db_version\")");
    proof {
        assert(out@ =~= "CREATE INDEX IF NOT EXISTS \""@ + escape_seq(tbl@, '"')
            + "__crsql_clock_dbv_idx\" ON \""@ + escape_seq(tbl@, '"')
            + "__crsql_clock\" (\"__crsql_db_version\")"@);
    }
    out
}

/// The insert trigger: after a local INSERT (with the sync bit clear, so
/// merges do not re-fire it) hand the new key values to the local-write
/// tracker.
pub fn insert_trigger_sql(tbl: &str, pk_names: &Vec<String>) -> (r: String)
    ensures
        r@ == "CREATE TRIGGER IF NOT EXISTS \""@ + escape_seq(tbl@, '"')
            + "__crsql_itrig\" AFTER INSERT ON \""@ + escape_seq(tbl@, '"')
            + "\" WHEN crsql_internal_sync_bit() = 0 BEGIN SELECT crsql_after_insert('"@
            + escape_seq(tbl@, '\'') + "', "@ + ident_list_upto(
            pk_names.deep_view(),
            "NEW."@,
            pk_names@.len() as int,
        ) + "); END;"@,
{
    let mut out = String::from_str("CREATE TRIGGER IF NOT EXISTS \"");
    let t = escape_ident(tbl);
    out.append(t.as_str());
    out.append("__crsql_itrig\" AFTER INSERT ON \"");
    out.append(t.as_str());
    out.append("\" WHEN crsql_internal_sync_bit() = 0 BEGIN SELECT crsql_after_insert('");
    let tv = escape_ident_as_value(tbl);
    out.append(tv.as_str());
    out.append("', ");
    let pk_new = as_identifier_list(pk_names, "NEW.");
    out.append(pk_new.as_str());
    out.append("); END;");
    proof {
        assert(out@ =~= "CREATE TRIGGER IF NOT EXISTS \""@ + escape_seq(tbl@, '"')
            + "__crsql_itrig\" AFTER INSERT ON \""@ + escape_seq(tbl@, '"')
            + "\" WHEN crsql_internal_sync_bit() = 0 BEGIN SELECT crsql_after_insert('"@
            + escape_seq(tbl@, '\'') + "', "@ + ident_list_upto(
            pk_names.deep_view(),
            "NEW."@,
            pk_names@.len() as int,
        ) + "); END;"@);
    }
    out
}

/// The update trigger: after a local UPDATE hand both key tuples and, when
/// the table has non-key columns, both value tuples to the local-write
/// tracker, which detects key changes and per-column differences itself.
pub fn update_trigger_sql(tbl: &str, pk_names: &Vec<String>, non_pk_names: &Vec<String>) -> (r:
    String)
    ensures
        ({
            let t = escape_seq(tbl@, '"');
            let tv = escape_seq(tbl@, '\'');
            let pk_new = ident_list_upto(pk_names.deep_view(), "NEW."@, pk_names@.len() as int);
            let pk_old = ident_list_upto(pk_names.deep_view(), "OLD."@, pk_names@.len() as int);
            let head = "CREATE TRIGGER IF NOT EXISTS \""@ + t + "__crsql_utrig\" AFTER UPDATE ON \""@
                + t + "\" WHEN crsql_internal_sync_bit() = 0 BEGIN SELECT crsql_after_update('"@
                + tv + "', "@ + pk_new + ", "@ + pk_old;
            if non_pk_names@.len() == 0 {
                r@ == head + "); END;"@
            } else {
                r@ == head + ", "@ + ident_list_upto(
                    non_pk_names.deep_view(),
                    "NEW."@,
                    non_pk_names@.len() as int,
                ) + ", "@ + ident_list_upto(
                    non_pk_names.deep_view(),
                    "OLD."@,
                    non_pk_names@.len() as int,
                ) + "); END;"@
            }
        }),
{
    let mut out = String::from_str("CREATE TRIGGER IF NOT EXISTS \"");
    let t = escape_ident(tbl);
    out.append(t.as_str());
    out.append("__crsql_utrig\" AFTER UPDATE ON \"");
    out.append(t.as_str());
    out.append("\" WHEN crsql_internal_sync_bit() = 0 BEGIN SELECT crsql_after_update('");
    let tv = escape_ident_as_value(tbl);
    out.append(tv.as_str());
    out.append("', ");
    let pk_new = as_identifier_list(pk_names, "NEW.");
    out.append(pk_new.as_str());
    out.append(", ");
    let pk_old = as_identifier_list(pk_names, "OLD.");
    out.append(pk_old.as_str());
    if non_pk_names.len() > 0 {
        out.append(", ");
        let np_new = as_identifier_list(non_pk_names, "NEW.");
        out.append(np_new.as_str());
        out.append(", ");
        let np_old = as_identifier_list(non_pk_names, "OLD.");
        out.append(np_old.as_str());
    }
    out.append("); END;");
    proof {
        let t = escape_seq(tbl@, '"');
        let tv = escape_seq(tbl@, '\'');
        let pk_new_s = ident_list_upto(pk_names.deep_view(), "NEW."@, pk_names@.len() as int);
        let pk_old_s = ident_list_upto(pk_names.deep_view(), "OLD."@, pk_names@.len() as int);
        let head = "CREATE TRIGGER IF NOT EXISTS \""@ + t + "__crsql_utrig\" AFTER UPDATE ON \""@
            + t + "\" WHEN crsql_internal_sync_bit() = 0 BEGIN SELECT crsql_after_update('"@ + tv
            + "', "@ + pk_new_s + ", "@ + pk_old_s;
        if non_pk_names@.len() == 0 {
            assert(out@ =~= head + "); END;"@);
        } else {
            assert(out@ =~= head + ", "@ + ident_list_upto(
                non_pk_names.deep_view(),
                "NEW."@,
                non_pk_names@.len() as int,
            ) + ", "@ + ident_list_upto(
                non_pk_names.deep_view(),
                "OLD."@,
                non_pk_names@.len() as int,
            ) + "); END;"@);
        }
    }
    out
}

/// The delete trigger: after a local DELETE, upsert the tombstone sentinel
/// entry for the old key (a fresh tombstone starts at causal length 2, an
/// existing sentinel is stepped to the next even length) and drop every
/// other clock entry of that key — the tombstone is the only surviving
/// history.
pub fn delete_trigger_sql(tbl: &str, pk_names: &Vec<String>) -> (r: String)
    ensures
        ({
            let t = escape_seq(tbl@, '"');
            let n = pk_names@.len() as int;
            r@ == "CREATE TRIGGER IF NOT EXISTS \""@ + t + "__crsql_dtrig\" AFTER DELETE ON \""@
                + t + "\" WHEN crsql_internal_sync_bit() = 0 BEGIN INSERT INTO \""@ + t
                + "__crsql_clock\" ("@ + ident_list_upto(pk_names.deep_view(), ""@, n)
                + ", __crsql_col_name, __crsql_col_version, __crsql_db_version, __crsql_seq, __crsql_site_id) SELECT "@
                + ident_list_upto(pk_names.deep_view(), "OLD."@, n)
                + ", '-1', 2, crsql_next_db_version(), crsql_increment_and_get_seq(), NULL WHERE true ON CONFLICT DO UPDATE SET __crsql_col_version = 1 + __crsql_col_version, __crsql_db_version = crsql_next_db_version(), __crsql_seq = crsql_get_seq() - 1, __crsql_site_id = NULL; DELETE FROM \""@
                + t + "__crsql_clock\" WHERE "@ + pk_where_list_upto(
                pk_names.deep_view(),
                "OLD."@,
                n,
            ) + " AND __crsql_col_name != '-1'; END;"@
        }),
{
    let mut out = String::from_str("CREATE TRIGGER IF NOT EXISTS \"");
    let t = escape_ident(tbl);
    out.append(t.as_str());
    out.append("__crsql_dtrig\" AFTER DELETE ON \"");
    out.append(t.as_str());
    out.append("\" WHEN crsql_internal_sync_bit() = 0 BEGIN INSERT INTO \"");
    out.append(t.as_str());
    out.append("__crsql_clock\" (");
    let pk_list = as_identifier_list(pk_names, "");
    out.append(pk_list.as_str());
    out.append(
        ", __crsql_col_name, __crsql_col_version, __crsql_db_version, __crsql_seq, __crsql_site_id) SELECT ",
    );
    let pk_old = as_identifier_list(pk_names, "OLD.");
    out.append(pk_old.as_str());
    out.append(
        ", '-1', 2, crsql_next_db_version(), crsql_increment_and_get_seq(), NULL WHERE true ON CONFLICT DO UPDATE SET __crsql_col_version = 1 + __crsql_col_version, __crsql_db_version = crsql_next_db_version(), __crsql_seq = crsql_get_seq() - 1, __crsql_site_id = NULL; DELETE FROM \"",
    );
    out.append(t.as_str());
    out.append("__crsql_clock\" WHERE ");
    let pk_where = pk_where_list(pk_names, "OLD.");
    out.append(pk_where.as_str());
    out.append(" AND __crsql_col_name != '-1'; END;");
    proof {
        let ts = escape_seq(tbl@, '"');
        let n = pk_names@.len() as int;
        assert(out@ =~= "CREATE TRIGGER IF NOT EXISTS \""@ + ts + "__crsql_dtrig\" AFTER DELETE ON \""@
            + ts + "\" WHEN crsql_internal_sync_bit() = 0 BEGIN INSERT INTO \""@ + ts
            + "__crsql_clock\" ("@ + ident_list_upto(pk_names.deep_view(), ""@, n)
            + ", __crsql_col_name, __crsql_col_version, __crsql_db_version, __crsql_seq, __crsql_site_id) SELECT "@
            + ident_list_upto(pk_names.deep_view(), "OLD."@, n)
            + ", '-1', 2, crsql_next_db_version(), crsql_increment_and_get_seq(), NULL WHERE true ON CONFLICT DO UPDATE SET __crsql_col_version = 1 + __crsql_col_version, __crsql_db_version = crsql_next_db_version(), __crsql_seq = crsql_get_seq() - 1, __crsql_site_id = NULL; DELETE FROM \""@
            + ts + "__crsql_clock\" WHERE "@ + pk_where_list_upto(
            pk_names.deep_view(),
            "OLD."@,
            n,
        ) + " AND __crsql_col_name != '-1'; END;"@);
    }
    out
}

/// `DROP TRIGGER IF EXISTS` for one of the three maintained triggers;
/// `suffix` names which one.
fn drop_trigger_sql(tbl: &str, suffix: &str) -> (r: String)
    ensures
        r@ == "DROP TRIGGER IF EXISTS \""@ + escape_seq(tbl@, '"') + suffix@ + "\""@,
{
    let mut out = String::from_str("DROP TRIGGER IF EXISTS \"");
    let t = escape_ident(tbl);
    out.append(t.as_str());
    out.append(suffix);
    out.append("\"");
    proof {
        assert(out@ =~= "DROP TRIGGER IF EXISTS \""@ + escape_seq(tbl@, '"') + suffix@ + "\""@);
    }
    out
}

/// The three statements removing a table's maintained triggers, as
/// downgrading a replicated relation back to an ordinary table runs them.
pub fn remove_crr_triggers_sql(tbl: &str) -> (r: Vec<String>)
    ensures
        r@.len() == 3,
        r.deep_view()[0] == "DROP TRIGGER IF EXISTS \""@ + escape_seq(tbl@, '"')
            + "__crsql_itrig"@ + "\""@,
        r.deep_view()[1] == "DROP TRIGGER IF EXISTS \""@ + escape_seq(tbl@, '"')
            + "__crsql_utrig"@ + "\""@,
        r.deep_view()[2] == "DROP TRIGGER IF EXISTS \""@ + escape_seq(tbl@, '"')
            + "__crsql_dtrig"@ + "\""@,
{
    let mut out: Vec<String> = Vec::new();
    out.push(drop_trigger_sql(tbl, "__crsql_itrig"));
    out.push(drop_trigger_sql(tbl, "__crsql_utrig"));
    out.push(drop_trigger_sql(tbl, "__crsql_dtrig"));
    out
}

/// `DROP TABLE IF EXISTS` for the companion clock table.
pub fn remove_clock_table_sql(tbl: &str) -> (r: String)
    ensures
        r@ == "DROP TABLE IF EXISTS \""@ + escape_seq(tbl@, '"') + "__crsql_clock\""@,
{
    let mut out = String::from_str("DROP TABLE IF EXISTS \"");
    let t = escape_ident(tbl);
    out.append(t.as_str());
    out.append("__crsql_clock\"");
    proof {
        assert(out@ =~= "DROP TABLE IF EXISTS \""@ + escape_seq(tbl@, '"') + "__crsql_clock\""@);
    }
    out
}

/// The query deciding whether a table is already a replicated relation: its
/// insert trigger exists. The trigger name is bound as the parameter.
pub fn is_crr_query() -> (r: String)
    ensures
        r@ == "SELECT count(*) FROM sqlite_master WHERE type = 'trigger' AND name = ?"@,
{
    String::from_str("SELECT count(*) FROM sqlite_master WHERE type = 'trigger' AND name = ?")
}

/// The name of a table's insert trigger, bound into `is_crr_query`.
pub fn insert_trigger_name(tbl: &str) -> (r: String)
    ensures
        r@ == tbl@ + "__crsql_itrig"@,
{
    let mut out = String::new();
    out.append(tbl);
    out.append("__crsql_itrig");
    proof {
        assert(out@ =~= tbl@ + "__crsql_itrig"@);
    }
    out
}

} // verus!
