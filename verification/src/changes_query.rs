use vstd::prelude::*;
use vstd::string::StringExecFns;

use crate::util::{
    as_identifier_list, escape_ident, escape_ident_as_value, escape_seq, ident_list_upto,
    quoted_ident, where_list, where_list_upto,
};

verus! {

/// The first `i` key columns as a clock-table self-join condition:
/// `t1."a" = t2."a" AND t1."b" = t2."b"`.
pub open spec fn self_join_upto(names: Seq<Seq<char>>, i: int) -> Seq<char>
    decreases i,
{
    if i <= 0 {
        Seq::empty()
    } else if i == 1 {
        quoted_ident(names[0], "t1."@) + " = "@ + quoted_ident(names[0], "t2."@)
    } else {
        self_join_upto(names, i - 1) + " AND "@ + quoted_ident(names[i - 1], "t1."@) + " = "@
            + quoted_ident(names[i - 1], "t2."@)
    }
}

/// The clock-table self-join condition over the key columns.
pub fn self_join_list(names: &Vec<String>) -> (r: String)
    ensures
        r@ == self_join_upto(names.deep_view(), names@.len() as int),
{
    let mut out = String::new();
    let n: usize = names.len();
    let mut i: usize = 0;
    while i < n
        invariant
            i <= n,
            n == names@.len(),
            out@ == self_join_upto(names.deep_view(), i as int),
        decreases n - i,
    {
        if i > 0 {
            out.append(" AND ");
        }
        out.append("t1.\"");
        let escaped = escape_ident(names[i].as_str());
        out.append(escaped.as_str());
        out.append("\" = t2.\"");
        let escaped2 = escape_ident(names[i].as_str());
        out.append(escaped2.as_str());
        out.append("\"");
        proof {
            reveal_strlit("t1.\"");
            reveal_strlit("t2.\"");
            reveal_strlit("t1.");
            reveal_strlit("t2.");
            reveal_strlit("\" = t2.\"");
            reveal_strlit(" = ");
            reveal_strlit("\"");
            assert(names.deep_view()[i as int] == names@[i as int]@);
            assert("t1.\""@ =~= "t1."@ + seq!['"']);
            assert("\" = t2.\""@ =~= seq!['"'] + " = "@ + "t2."@ + seq!['"']);
            assert(out@ =~= self_join_upto(names.deep_view(), i + 1 as int));
        }
        i = i + 1;
    }
    out
}

/// The per-table SELECT of the changes feed, projecting (table name, packed
/// key, column name, column version, database version, origin site, rowid,
/// sequence, causal length) from the clock table, with the causal length
/// coalesced to 1 when no sentinel entry is stored and the site ordinal
/// resolved to the site identifier. Fails for a table without key columns.
pub fn changes_query_for_table(tbl: &str, pk_names: &Vec<String>) -> (r: Result<
    String,
    &'static str,
>)
    ensures
        pk_names@.len() == 0 <==> r is Err,
        ({
            let t = escape_seq(tbl@, '"');
            let tv = escape_seq(tbl@, '\'');
            let n = pk_names@.len() as int;
            r matches Ok(q) ==> q@ == "SELECT '"@ + tv + "' as tbl, crsql_pack_columns("@
                + ident_list_upto(pk_names.deep_view(), "t1."@, n)
                + ") as pks, t1.__crsql_col_name as cid, t1.__crsql_col_version as col_vrsn, t1.__crsql_db_version as db_vrsn, t3.site_id as site_id, t1._rowid_, t1.__crsql_seq as seq, COALESCE(t2.__crsql_col_version, 1) as cl FROM \""@
                + t + "__crsql_clock\" AS t1 LEFT JOIN \""@ + t
                + "__crsql_clock\" AS t2 ON "@ + self_join_upto(pk_names.deep_view(), n)
                + " AND t2.__crsql_col_name = '-1' LEFT JOIN crsql_site_id as t3 ON t1.__crsql_site_id = t3.ordinal"@
        }),
{
    if pk_names.len() == 0 {
        return Err("a table without primary keys cannot produce changes");
    }
    let mut out = String::from_str("SELECT '");
    let tv = escape_ident_as_value(tbl);
    out.append(tv.as_str());
    out.append("' as tbl, crsql_pack_columns(");
    let pk_list = as_identifier_list(pk_names, "t1.");
    out.append(pk_list.as_str());
    out.append(
        ") as pks, t1.__crsql_col_name as cid, t1.__crsql_col_version as col_vrsn, t1.__crsql_db_version as db_vrsn, t3.site_id as site_id, t1._rowid_, t1.__crsql_seq as seq, COALESCE(t2.__crsql_col_version, 1) as cl FROM \"",
    );
    let t = escape_ident(tbl);
    out.append(t.as_str());
    out.append("__crsql_clock\" AS t1 LEFT JOIN \"");
    out.append(t.as_str());
    out.append("__crsql_clock\" AS t2 ON ");
    let sj = self_join_list(pk_names);
    out.append(sj.as_str());
    out.append(
        " AND t2.__crsql_col_name = '-1' LEFT JOIN crsql_site_id as t3 ON t1.__crsql_site_id = t3.ordinal",
    );
    proof {
        let ts = escape_seq(tbl@, '"');
        let tvs = escape_seq(tbl@, '\'');
        let n = pk_names@.len() as int;
        assert(out@ =~= "SELECT '"@ + tvs + "' as tbl, crsql_pack_columns("@ + ident_list_upto(
            pk_names.deep_view(),
            "t1."@,
            n,
        )
            + ") as pks, t1.__crsql_col_name as cid, t1.__crsql_col_version as col_vrsn, t1.__crsql_db_version as db_vrsn, t3.site_id as site_id, t1._rowid_, t1.__crsql_seq as seq, COALESCE(t2.__crsql_col_version, 1) as cl FROM \""@
            + ts + "__crsql_clock\" AS t1 LEFT JOIN \""@ + ts + "__crsql_clock\" AS t2 ON "@
            + self_join_upto(pk_names.deep_view(), n)
            + " AND t2.__crsql_col_name = '-1' LEFT JOIN crsql_site_id as t3 ON t1.__crsql_site_id = t3.ordinal"@);
    }
    Ok(out)
}

/// The first `i` per-table queries joined by ` UNION ALL `.
pub open spec fn union_upto(queries: Seq<Seq<char>>, i: int) -> Seq<char>
    decreases i,
{
    if i <= 0 {
        Seq::empty()
    } else if i == 1 {
        queries[0]
    } else {
        union_upto(queries, i - 1) + " UNION ALL "@ + queries[i - 1]
    }
}

/// The whole changes feed: every tracked table's per-table query combined
/// with UNION ALL, wrapped in an outer projection and the caller-supplied
/// filter suffix (the host planner's pushed-down constraints).
pub fn changes_union_query(queries: &Vec<String>, idx_str: &str) -> (r: String)
    ensures
        r@ == "SELECT tbl, pks, cid, col_vrsn, db_vrsn, site_id, _rowid_, seq, cl FROM ("@
            + union_upto(queries.deep_view(), queries@.len() as int) + ") "@ + idx_str@,
{
    let mut unions = String::new();
    let n: usize = queries.len();
    let mut i: usize = 0;
    while i < n
        invariant
            i <= n,
            n == queries@.len(),
            unions@ == union_upto(queries.deep_view(), i as int),
        decreases n - i,
    {
        if i > 0 {
            unions.append(" UNION ALL ");
        }
        out_append_query(&mut unions, &queries[i]);
        proof {
            assert(queries.deep_view()[i as int] == queries@[i as int]@);
            assert(unions@ =~= union_upto(queries.deep_view(), i + 1 as int));
        }
        i = i + 1;
    }
    let mut out = String::from_str(
        "SELECT tbl, pks, cid, col_vrsn, db_vrsn, site_id, _rowid_, seq, cl FROM (",
    );
    out.append(unions.as_str());
    out.append(") ");
    out.append(idx_str);
    proof {
        assert(out@ =~= "SELECT tbl, pks, cid, col_vrsn, db_vrsn, site_id, _rowid_, seq, cl FROM ("@
            + union_upto(queries.deep_view(), queries@.len() as int) + ") "@ + idx_str@);
    }
    out
}

/// Appends one query string.
fn out_append_query(out: &mut String, q: &String)
    ensures
        final(out)@ == old(out)@ + q@,
{
    out.append(q.as_str());
}

/// The lazy cell-value lookup run per feed row: the current value of one
/// column of the base row identified by the packed key. When the row is
/// gone the feed reports null and treats the record as a delete.
pub fn row_patch_data_query(tbl: &str, col: &str, pk_names: &Vec<String>) -> (r: String)
    ensures
        r@ == "SELECT \""@ + escape_seq(col@, '"') + "\" FROM \""@ + escape_seq(tbl@, '"')
            + "\" WHERE "@ + where_list_upto(pk_names.deep_view(), pk_names@.len() as int),
{
    let mut out = String::from_str("SELECT \"");
    let c = escape_ident(col);
    out.append(c.as_str());
    out.append("\" FROM \"");
    let t = escape_ident(tbl);
    out.append(t.as_str());
    out.append("\" WHERE ");
    let w = where_list(pk_names);
    out.append(w.as_str());
    proof {
        assert(out@ =~= "SELECT \""@ + escape_seq(col@, '"') + "\" FROM \""@ + escape_seq(
            tbl@,
            '"',
        ) + "\" WHERE "@ + where_list_upto(pk_names.deep_view(), pk_names@.len() as int));
    }
    out
}

} // verus!
