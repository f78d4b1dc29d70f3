use vstd::prelude::*;
use vstd::string::StringExecFns;

use crate::util::{
    as_identifier_list, binding_list, binding_upto, escape_ident, escape_seq, ident_list_upto,
    where_list, where_list_upto,
};

verus! {

/// The merge path's clock upsert: replaces the clock entry for one (key,
/// column) pair with the winning incoming version, a database version that
/// is the local next version but never below the incoming one, a fresh
/// local sequence and the origin site.
pub fn set_winner_clock_sql(tbl: &str, pk_names: &Vec<String>) -> (r: String)
    ensures
        ({
            let t = escape_seq(tbl@, '"');
            let n = pk_names@.len() as int;
            r@ == "INSERT OR REPLACE INTO \""@ + t + "__crsql_clock\" ("@ + ident_list_upto(
                pk_names.deep_view(),
                ""@,
                n,
            )
                + ", __crsql_col_name, __crsql_col_version, __crsql_db_version, __crsql_seq, __crsql_site_id) VALUES ("@
                + binding_upto(n)
                + ", ?, ?, MAX(crsql_next_db_version(), ?), crsql_increment_and_get_seq(), ?) RETURNING _rowid_"@
        }),
{
    let mut out = String::from_str("INSERT OR REPLACE INTO \"");
    let t = escape_ident(tbl);
    out.append(t.as_str());
    out.append("__crsql_clock\" (");
    let pk_list = as_identifier_list(pk_names, "");
    out.append(pk_list.as_str());
    out.append(
        ", __crsql_col_name, __crsql_col_version, __crsql_db_version, __crsql_seq, __crsql_site_id) VALUES (",
    );
    let binds = binding_list(pk_names.len());
    out.append(binds.as_str());
    out.append(", ?, ?, MAX(crsql_next_db_version(), ?), crsql_increment_and_get_seq(), ?) RETURNING _rowid_");
    proof {
        let ts = escape_seq(tbl@, '"');
        let n = pk_names@.len() as int;
        assert(out@ =~= "INSERT OR REPLACE INTO \""@ + ts + "__crsql_clock\" ("@ + ident_list_upto(
            pk_names.deep_view(),
            ""@,
            n,
        )
            + ", __crsql_col_name, __crsql_col_version, __crsql_db_version, __crsql_seq, __crsql_site_id) VALUES ("@
            + binding_upto(n)
            + ", ?, ?, MAX(crsql_next_db_version(), ?), crsql_increment_and_get_seq(), ?) RETURNING _rowid_"@);
    }
    out
}

/// The local causal-length probe: the sentinel entry's version when one is
/// stored, else 1 if the key has any clock rows at all, else null.
pub fn local_cl_sql(tbl: &str, pk_names: &Vec<String>) -> (r: String)
    ensures
        ({
            let t = escape_seq(tbl@, '"');
            let n = pk_names@.len() as int;
            let w = where_list_upto(pk_names.deep_view(), n);
            r@ == "SELECT COALESCE((SELECT __crsql_col_version FROM \""@ + t
                + "__crsql_clock\" WHERE "@ + w
                + " AND __crsql_col_name = '-1'), (SELECT 1 FROM \""@ + t
                + "__crsql_clock\" WHERE "@ + w + "))"@
        }),
{
    let mut out = String::from_str("SELECT COALESCE((SELECT __crsql_col_version FROM \"");
    let t = escape_ident(tbl);
    out.append(t.as_str());
    out.append("__crsql_clock\" WHERE ");
    let w = where_list(pk_names);
    out.append(w.as_str());
    out.append(" AND __crsql_col_name = '-1'), (SELECT 1 FROM \"");
    out.append(t.as_str());
    out.append("__crsql_clock\" WHERE ");
    out.append(w.as_str());
    out.append("))");
    proof {
        let ts = escape_seq(tbl@, '"');
        let n = pk_names@.len() as int;
        let ws = where_list_upto(pk_names.deep_view(), n);
        assert(out@ =~= "SELECT COALESCE((SELECT __crsql_col_version FROM \""@ + ts
            + "__crsql_clock\" WHERE "@ + ws + " AND __crsql_col_name = '-1'), (SELECT 1 FROM \""@
            + ts + "__crsql_clock\" WHERE "@ + ws + "))"@);
    }
    out
}

/// The merge path's local column-version probe for one (key, column) pair.
pub fn col_version_sql(tbl: &str, pk_names: &Vec<String>) -> (r: String)
    ensures
        ({
            let t = escape_seq(tbl@, '"');
            let n = pk_names@.len() as int;
            r@ == "SELECT __crsql_col_version FROM \""@ + t + "__crsql_clock\" WHERE "@
                + where_list_upto(pk_names.deep_view(), n) + " AND ? = __crsql_col_name"@
        }),
{
    let mut out = String::from_str("SELECT __crsql_col_version FROM \"");
    let t = escape_ident(tbl);
    out.append(t.as_str());
    out.append("__crsql_clock\" WHERE ");
    let w = where_list(pk_names);
    out.append(w.as_str());
    out.append(" AND ? = __crsql_col_name");
    proof {
        assert(out@ =~= "SELECT __crsql_col_version FROM \""@ + escape_seq(tbl@, '"')
            + "__crsql_clock\" WHERE "@ + where_list_upto(
            pk_names.deep_view(),
            pk_names@.len() as int,
        ) + " AND ? = __crsql_col_name"@);
    }
    out
}

/// The merge fast path for key-only tables: an idempotent insert of the key.
pub fn merge_pk_only_insert_sql(tbl: &str, pk_names: &Vec<String>) -> (r: String)
    ensures
        ({
            let t = escape_seq(tbl@, '"');
            let n = pk_names@.len() as int;
            r@ == "INSERT OR IGNORE INTO \""@ + t + "\" ("@ + ident_list_upto(
                pk_names.deep_view(),
                ""@,
                n,
            ) + ") VALUES ("@ + binding_upto(n) + ")"@
        }),
{
    let mut out = String::from_str("INSERT OR IGNORE INTO \"");
    let t = escape_ident(tbl);
    out.append(t.as_str());
    out.append("\" (");
    let pk_list = as_identifier_list(pk_names, "");
    out.append(pk_list.as_str());
    out.append(") VALUES (");
    let binds = binding_list(pk_names.len());
    out.append(binds.as_str());
    out.append(")");
    proof {
        assert(out@ =~= "INSERT OR IGNORE INTO \""@ + escape_seq(tbl@, '"') + "\" ("@
            + ident_list_upto(pk_names.deep_view(), ""@, pk_names@.len() as int) + ") VALUES ("@
            + binding_upto(pk_names@.len() as int) + ")"@);
    }
    out
}

/// The merge path's base-row delete for an incoming tombstone.
pub fn merge_delete_sql(tbl: &str, pk_names: &Vec<String>) -> (r: String)
    ensures
        r@ == "DELETE FROM \""@ + escape_seq(tbl@, '"') + "\" WHERE "@ + where_list_upto(
            pk_names.deep_view(),
            pk_names@.len() as int,
        ),
{
    let mut out = String::from_str("DELETE FROM \"");
    let t = escape_ident(tbl);
    out.append(t.as_str());
    out.append("\" WHERE ");
    let w = where_list(pk_names);
    out.append(w.as_str());
    proof {
        assert(out@ =~= "DELETE FROM \""@ + escape_seq(tbl@, '"') + "\" WHERE "@ + where_list_upto(
            pk_names.deep_view(),
            pk_names@.len() as int,
        ));
    }
    out
}

/// Drops every non-sentinel clock entry of a key after its tombstone wins:
/// the tombstone is the only surviving history.
pub fn merge_delete_drop_clocks_sql(tbl: &str, pk_names: &Vec<String>) -> (r: String)
    ensures
        ({
            let t = escape_seq(tbl@, '"');
            r@ == "DELETE FROM \""@ + t + "__crsql_clock\" WHERE "@ + where_list_upto(
                pk_names.deep_view(),
                pk_names@.len() as int,
            ) + " AND __crsql_col_name IS NOT '-1'"@
        }),
{
    let mut out = String::from_str("DELETE FROM \"");
    let t = escape_ident(tbl);
    out.append(t.as_str());
    out.append("__crsql_clock\" WHERE ");
    let w = where_list(pk_names);
    out.append(w.as_str());
    out.append(" AND __crsql_col_name IS NOT '-1'");
    proof {
        assert(out@ =~= "DELETE FROM \""@ + escape_seq(tbl@, '"') + "__crsql_clock\" WHERE "@
            + where_list_upto(pk_names.deep_view(), pk_names@.len() as int)
            + " AND __crsql_col_name IS NOT '-1'"@);
    }
    out
}

/// The current value of one column of one base row, read by the merge
/// path's value tie-break.
pub fn curr_value_sql(tbl: &str, col: &str, pk_names: &Vec<String>) -> (r: String)
    ensures
        r@ == "SELECT \""@ + escape_seq(col@, '"') + "\" FROM \""@ + escape_seq(tbl@, '"')
            + "\" WHERE "@ + where_list_upto(pk_names.deep_view(), pk_names@.len() as int),
{
    let mut out = String::from_str("SELECT \"");
    let c = escape_ident(col);
    out.append(c.as_str());
    out.append("\" FROM \"");
    let t = escape_ident(tbl);
    out.append(t.as_str());
    out.append("\" WHERE ");
    let w = where_list(pk_names);
    out.append(w.as_str());
    proof {
        assert(out@ =~= "SELECT \""@ + escape_seq(col@, '"') + "\" FROM \""@ + escape_seq(
            tbl@,
            '"',
        ) + "\" WHERE "@ + where_list_upto(pk_names.deep_view(), pk_names@.len() as int));
    }
    out
}

} // verus!
