use vstd::prelude::*;
use vstd::string::StringExecFns;

use crate::util::{escape_ident, escape_ident_as_value, escape_seq, quoted_ident};

verus! {

/// Counts key columns present on one side only, between a base table and
/// its clock table: a non-zero result means the key column set changed and
/// every row identity with it, so the clock table must be rebuilt from
/// scratch rather than compacted.
pub fn pk_diff_query(tbl: &str) -> (r: String)
    ensures
        ({
            let tv = escape_seq(tbl@, '\'');
            r@ == "SELECT count(name) FROM (SELECT name FROM pragma_table_info('"@ + tv
                + "') WHERE pk > 0 AND name NOT IN (SELECT name FROM pragma_table_info('"@ + tv
                + "__crsql_clock') WHERE pk > 0) UNION SELECT name FROM pragma_table_info('"@ + tv
                + "__crsql_clock') WHERE pk > 0 AND name NOT IN (SELECT name FROM pragma_table_info('"@
                + tv + "')) AND name != '__crsql_col_name')"@
        }),
{
    let tv = escape_ident_as_value(tbl);
    let mut out = String::from_str("SELECT count(name) FROM (SELECT name FROM pragma_table_info('");
    out.append(tv.as_str());
    out.append("') WHERE pk > 0 AND name NOT IN (SELECT name FROM pragma_table_info('");
    out.append(tv.as_str());
    out.append("__crsql_clock') WHERE pk > 0) UNION SELECT name FROM pragma_table_info('");
    out.append(tv.as_str());
    out.append("__crsql_clock') WHERE pk > 0 AND name NOT IN (SELECT name FROM pragma_table_info('");
    out.append(tv.as_str());
    out.append("')) AND name != '__crsql_col_name')");
    proof {
        let tvs = escape_seq(tbl@, '\'');
        assert(out@ =~= "SELECT count(name) FROM (SELECT name FROM pragma_table_info('"@ + tvs
            + "') WHERE pk > 0 AND name NOT IN (SELECT name FROM pragma_table_info('"@ + tvs
            + "__crsql_clock') WHERE pk > 0) UNION SELECT name FROM pragma_table_info('"@ + tvs
            + "__crsql_clock') WHERE pk > 0 AND name NOT IN (SELECT name FROM pragma_table_info('"@
            + tvs + "')) AND name != '__crsql_col_name')"@);
    }
    out
}

/// Drops the clock table outright, for the key-change case: old clock
/// entries are meaningless under the new row identities.
pub fn drop_clock_table_sql(tbl: &str) -> (r: String)
    ensures
        r@ == "DROP TABLE \""@ + escape_seq(tbl@, '"') + "__crsql_clock\""@,
{
    let mut out = String::from_str("DROP TABLE \"");
    let t = escape_ident(tbl);
    out.append(t.as_str());
    out.append("__crsql_clock\"");
    proof {
        assert(out@ =~= "DROP TABLE \""@ + escape_seq(tbl@, '"') + "__crsql_clock\""@);
    }
    out
}

/// Compaction, first step: delete clock entries whose column no longer
/// exists in the base table — orphaned by a dropped column. The sentinel
/// entry is always retained.
pub fn compact_orphaned_columns_sql(tbl: &str) -> (r: String)
    ensures
        ({
            let t = escape_seq(tbl@, '"');
            let tv = escape_seq(tbl@, '\'');
            r@ == "DELETE FROM \""@ + t
                + "__crsql_clock\" WHERE \"__crsql_col_name\" NOT IN (SELECT name FROM pragma_table_info('"@
                + tv + "') UNION SELECT '-1')"@
        }),
{
    let mut out = String::from_str("DELETE FROM \"");
    let t = escape_ident(tbl);
    out.append(t.as_str());
    out.append("__crsql_clock\" WHERE \"__crsql_col_name\" NOT IN (SELECT name FROM pragma_table_info('");
    let tv = escape_ident_as_value(tbl);
    out.append(tv.as_str());
    out.append("') UNION SELECT '-1')");
    proof {
        assert(out@ =~= "DELETE FROM \""@ + escape_seq(tbl@, '"')
            + "__crsql_clock\" WHERE \"__crsql_col_name\" NOT IN (SELECT name FROM pragma_table_info('"@
            + escape_seq(tbl@, '\'') + "') UNION SELECT '-1')"@);
    }
    out
}

/// The first `i` key columns as a base-table/clock-table join condition:
/// `"t"."c" = "t__crsql_clock"."c" AND …`.
pub open spec fn clock_join_upto(t: Seq<char>, names: Seq<Seq<char>>, i: int) -> Seq<char>
    decreases i,
{
    if i <= 0 {
        Seq::empty()
    } else {
        let one = seq!['"'] + t + "\"."@ + quoted_ident(names[i - 1], Seq::empty()) + " = \""@ + t
            + "__crsql_clock\"."@ + quoted_ident(names[i - 1], Seq::empty());
        if i == 1 {
            one
        } else {
            clock_join_upto(t, names, i - 1) + " AND "@ + one
        }
    }
}

/// Compaction, second step: delete live clock entries whose key no longer
/// has a base-table row — rows removed by means that bypassed the triggers
/// during the alteration's table rebuild. Tombstone sentinels (even causal
/// length) are kept: they are real history.
pub fn compact_missing_rows_sql(tbl: &str, pk_names: &Vec<String>) -> (r: String)
    ensures
        ({
            let t = escape_seq(tbl@, '"');
            r@ == "DELETE FROM \""@ + t
                + "__crsql_clock\" WHERE (__crsql_col_name != '-1' OR (__crsql_col_name = '-1' AND __crsql_col_version % 2 != 0)) AND NOT EXISTS (SELECT 1 FROM \""@
                + t + "\" WHERE "@ + clock_join_upto(t, pk_names.deep_view(), pk_names@.len() as int)
                + " LIMIT 1)"@
        }),
{
    let mut out = String::from_str("DELETE FROM \"");
    let t = escape_ident(tbl);
    out.append(t.as_str());
    out.append(
        "__crsql_clock\" WHERE (__crsql_col_name != '-1' OR (__crsql_col_name = '-1' AND __crsql_col_version % 2 != 0)) AND NOT EXISTS (SELECT 1 FROM \"",
    );
    out.append(t.as_str());
    out.append("\" WHERE ");
    let ghost ts = escape_seq(tbl@, '"');
    let ghost stem = out@;
    let n: usize = pk_names.len();
    let mut i: usize = 0;
    proof {
        assert(out@ =~= stem + clock_join_upto(ts, pk_names.deep_view(), 0));
    }
    while i < n
        invariant
            i <= n,
            n == pk_names@.len(),
            t@ == ts,
            out@ == stem + clock_join_upto(ts, pk_names.deep_view(), i as int),
        decreases n - i,
    {
        if i > 0 {
            out.append(" AND ");
        }
        out.append("\"");
        out.append(t.as_str());
        out.append("\".\"");
        let c = escape_ident(pk_names[i].as_str());
        out.append(c.as_str());
        out.append("\" = \"");
        out.append(t.as_str());
        out.append("__crsql_clock\".\"");
        out.append(c.as_str());
        out.append("\"");
        proof {
            reveal_strlit("\"");
            reveal_strlit("\".\"");
            reveal_strlit("\".");
            reveal_strlit("\" = \"");
            reveal_strlit(" = \"");
            reveal_strlit("__crsql_clock\".\"");
            reveal_strlit("__crsql_clock\".");
            reveal_strlit(" AND ");
            assert(pk_names.deep_view()[i as int] == pk_names@[i as int]@);
            assert("\".\""@ =~= "\"."@ + seq!['"']);
            assert("\" = \""@ =~= seq!['"'] + " = \""@);
            assert("__crsql_clock\".\""@ =~= "__crsql_clock\"."@ + seq!['"']);
            assert(out@ =~= stem + clock_join_upto(ts, pk_names.deep_view(), i + 1 as int));
        }
        i = i + 1;
    }
    out.append(" LIMIT 1)");
    proof {
        assert(out@ =~= stem + clock_join_upto(ts, pk_names.deep_view(), pk_names@.len() as int)
            + " LIMIT 1)"@);
    }
    out
}

/// Records the database version that preceded a compaction, so sync layers
/// can detect the rebuild.
pub fn record_compact_version_sql() -> (r: String)
    ensures
        r@
            == "INSERT OR REPLACE INTO crsql_master (key, value) VALUES ('pre_compact_dbversion', ?)"@,
{
    String::from_str(
        "INSERT OR REPLACE INTO crsql_master (key, value) VALUES ('pre_compact_dbversion', ?)",
    )
}

} // verus!
