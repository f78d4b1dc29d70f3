use vstd::prelude::*;
use vstd::string::StringExecFns;

use crate::util::{as_identifier_list, escape_ident, escape_ident_as_value, escape_seq, ident_list_upto};

verus! {

/// Backfill of one tracked column: writes a version-1 clock entry, at the
/// current transaction's version and a fresh sequence, for every base-table
/// row that does not have one yet. Rows that already carry an entry for the
/// column keep it untouched (the clock table's key is the row key plus the
/// column name), so re-running a backfill is idempotent and never rewinds
/// history that local writes have advanced.
pub fn backfill_column_sql(tbl: &str, pk_names: &Vec<String>, col: &str) -> (r: String)
    ensures
        ({
            let t = escape_seq(tbl@, '"');
            let n = pk_names@.len() as int;
            r@ == "INSERT OR IGNORE INTO \""@ + t + "__crsql_clock\" ("@ + ident_list_upto(
                pk_names.deep_view(),
                ""@,
                n,
            )
                + ", __crsql_col_name, __crsql_col_version, __crsql_db_version, __crsql_seq, __crsql_site_id) SELECT "@
                + ident_list_upto(pk_names.deep_view(), ""@, n) + ", '"@ + escape_seq(col@, '\'')
                + "', 1, crsql_next_db_version(), crsql_increment_and_get_seq(), NULL FROM \""@ + t
                + "\""@
        }),
{
    let mut out = String::from_str("INSERT OR IGNORE INTO \"");
    let t = escape_ident(tbl);
    out.append(t.as_str());
    out.append("__crsql_clock\" (");
    let pk_list = as_identifier_list(pk_names, "");
    out.append(pk_list.as_str());
    out.append(
        ", __crsql_col_name, __crsql_col_version, __crsql_db_version, __crsql_seq, __crsql_site_id) SELECT ",
    );
    out.append(pk_list.as_str());
    out.append(", '");
    let cv = escape_ident_as_value(col);
    out.append(cv.as_str());
    out.append("', 1, crsql_next_db_version(), crsql_increment_and_get_seq(), NULL FROM \"");
    out.append(t.as_str());
    out.append("\"");
    proof {
        let ts = escape_seq(tbl@, '"');
        let n = pk_names@.len() as int;
        assert(out@ =~= "INSERT OR IGNORE INTO \""@ + ts + "__crsql_clock\" ("@ + ident_list_upto(
            pk_names.deep_view(),
            ""@,
            n,
        )
            + ", __crsql_col_name, __crsql_col_version, __crsql_db_version, __crsql_seq, __crsql_site_id) SELECT "@
            + ident_list_upto(pk_names.deep_view(), ""@, n) + ", '"@ + escape_seq(col@, '\'')
            + "', 1, crsql_next_db_version(), crsql_increment_and_get_seq(), NULL FROM \""@ + ts
            + "\""@);
    }
    out
}

/// Backfill for a key-only table: the creation sentinel (causal length 1)
/// takes the place of per-column entries, with the same idempotence.
pub fn backfill_sentinel_sql(tbl: &str, pk_names: &Vec<String>) -> (r: String)
    ensures
        ({
            let t = escape_seq(tbl@, '"');
            let n = pk_names@.len() as int;
            r@ == "INSERT OR IGNORE INTO \""@ + t + "__crsql_clock\" ("@ + ident_list_upto(
                pk_names.deep_view(),
                ""@,
                n,
            )
                + ", __crsql_col_name, __crsql_col_version, __crsql_db_version, __crsql_seq, __crsql_site_id) SELECT "@
                + ident_list_upto(pk_names.deep_view(), ""@, n)
                + ", '-1', 1, crsql_next_db_version(), crsql_increment_and_get_seq(), NULL FROM \""@
                + t + "\""@
        }),
{
    let mut out = String::from_str("INSERT OR IGNORE INTO \"");
    let t = escape_ident(tbl);
    out.append(t.as_str());
    out.append("__crsql_clock\" (");
    let pk_list = as_identifier_list(pk_names, "");
    out.append(pk_list.as_str());
    out.append(
        ", __crsql_col_name, __crsql_col_version, __crsql_db_version, __crsql_seq, __crsql_site_id) SELECT ",
    );
    out.append(pk_list.as_str());
    out.append(", '-1', 1, crsql_next_db_version(), crsql_increment_and_get_seq(), NULL FROM \"");
    out.append(t.as_str());
    out.append("\"");
    proof {
        let ts = escape_seq(tbl@, '"');
        let n = pk_names@.len() as int;
        assert(out@ =~= "INSERT OR IGNORE INTO \""@ + ts + "__crsql_clock\" ("@ + ident_list_upto(
            pk_names.deep_view(),
            ""@,
            n,
        )
            + ", __crsql_col_name, __crsql_col_version, __crsql_db_version, __crsql_seq, __crsql_site_id) SELECT "@
            + ident_list_upto(pk_names.deep_view(), ""@, n)
            + ", '-1', 1, crsql_next_db_version(), crsql_increment_and_get_seq(), NULL FROM \""@
            + ts + "\""@);
    }
    out
}

} // verus!
