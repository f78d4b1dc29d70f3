use vstd::prelude::*;
use vstd::string::StrSliceExecFns;
use vstd::string::StringExecFns;

use crate::parse::{kw_at, kw_match_at, to_char_vec};
use crate::util::{escape_ident, escape_seq};

verus! {

/// Why an auto-migration run failed, mirroring the savepoint-rollback
/// taxonomy: the desired schema text was invalid SQL, the live database
/// could not be transformed to match, the ephemeral reference database
/// could not be opened, or the diff asked for an unsupported key change.
#[derive(Clone, Copy, Debug, PartialEq, Eq, Structural)]
pub enum MigrationError {
    /// The desired-schema text failed against a fresh database.
    SchemaApply,
    /// The live schema could not be transformed to match.
    Mismatch,
    /// The ephemeral reference database could not be opened.
    OpenFailed,
    /// The diff would add a primary-key column, which auto-migration
    /// refuses: it would orphan all clock history.
    AddedPrimaryKeyColumn,
}

/// A single line: no newline character anywhere in it.
pub open spec fn newline_free(l: Seq<char>) -> bool {
    forall|j: int| 0 <= j < l.len() ==> l[j] != '\n'
}

/// A line carrying the mark-as-replicated directive (case-insensitive).
pub open spec fn is_marker_line(line: Seq<char>) -> bool {
    exists|i: int| kw_at(line, i, "crsql_as_crr"@)
}

/// Lines joined back with newlines.
pub open spec fn joined_with_nl(ls: Seq<Seq<char>>) -> Seq<char>
    decreases ls.len(),
{
    if ls.len() == 0 {
        Seq::empty()
    } else if ls.len() == 1 {
        ls[0]
    } else {
        joined_with_nl(ls.drop_last()) + seq!['\n'] + ls.last()
    }
}

/// The lines joined, with one more partial line after them.
pub open spec fn joined_part(ls: Seq<Seq<char>>, extra: Seq<char>) -> Seq<char> {
    if ls.len() == 0 {
        extra
    } else {
        joined_with_nl(ls) + seq!['\n'] + extra
    }
}

/// Whether a line holds the mark-as-replicated directive anywhere,
/// case-insensitively.
pub fn line_has_marker(line: &str) -> (r: bool)
    ensures
        r == is_marker_line(line@),
{
    let cs = to_char_vec(line);
    let marker = to_char_vec("crsql_as_crr");
    proof {
        reveal_strlit("crsql_as_crr");
    }
    let n = cs.len();
    let mut p: usize = 0;
    while p < n
        invariant
            p <= n,
            n == line@.len(),
            cs@ == line@,
            marker@ == "crsql_as_crr"@,
            forall|q: int| 0 <= q < p ==> !kw_at(line@, q, "crsql_as_crr"@),
        decreases n - p,
    {
        proof {
            reveal_strlit("crsql_as_crr");
        }
        if kw_match_at(&cs, p, &marker) {
            return true;
        }
        p = p + 1;
    }
    proof {
        assert forall|i: int| !kw_at(line@, i, "crsql_as_crr"@) by {
            if kw_at(line@, i, "crsql_as_crr"@) {
                assert(0 <= i < n);
            }
        }
    }
    false
}

/// Splits a schema text into its lines; joining them with newlines gives
/// back exactly the input.
pub fn split_lines(s: &str) -> (r: Vec<String>)
    ensures
        r@.len() >= 1,
        joined_with_nl(r.deep_view()) == s@,
        forall|k: int| 0 <= k < r@.len() ==> newline_free(#[trigger] r.deep_view()[k]),
{
    let mut lines: Vec<String> = Vec::new();
    let n: usize = s.unicode_len();
    let mut start: usize = 0;
    let mut i: usize = 0;
    proof {
        assert(lines.deep_view() =~= Seq::<Seq<char>>::empty());
        assert(s@.subrange(0, 0) =~= Seq::<char>::empty());
        assert(s@.take(0) =~= Seq::<char>::empty());
    }
    while i < n
        invariant
            start <= i <= n,
            n == s@.len(),
            joined_part(lines.deep_view(), s@.subrange(start as int, i as int)) == s@.take(i as int),
            forall|k: int| 0 <= k < lines@.len() ==> newline_free(#[trigger] lines.deep_view()[k]),
            forall|j: int| start <= j < i ==> s@[j] != '\n',
        decreases n - i,
    {
        let c = s.get_char(i);
        if c == '\n' {
            let line = s.substring_char(start, i).to_owned();
            let ghost prev = lines.deep_view();
            lines.push(line);
            proof {
                assert(lines.deep_view() =~= prev.push(s@.subrange(start as int, i as int)));
                let ls = lines.deep_view();
                assert(ls.drop_last() =~= prev);
                if prev.len() == 0 {
                    assert(joined_with_nl(ls) == ls[0]);
                    assert(ls[0] == s@.subrange(start as int, i as int));
                } else {
                    assert(joined_with_nl(ls) == joined_with_nl(prev) + seq!['\n'] + ls.last());
                }
                assert(joined_with_nl(ls) =~= s@.take(i as int));
                assert(s@.subrange(i + 1 as int, i + 1 as int) =~= Seq::<char>::empty());
                assert(joined_part(ls, s@.subrange(i + 1 as int, i + 1 as int)) =~= s@.take(
                    i + 1 as int,
                ));
                assert(newline_free(ls.last()));
            }
            start = i + 1;
        } else {
            proof {
                assert(s@.subrange(start as int, i + 1 as int) =~= s@.subrange(
                    start as int,
                    i as int,
                ).push(s@[i as int]));
                assert(joined_part(lines.deep_view(), s@.subrange(start as int, i + 1 as int))
                    =~= joined_part(lines.deep_view(), s@.subrange(start as int, i as int)).push(
                    s@[i as int],
                ));
                assert(s@.take(i + 1 as int) =~= s@.take(i as int).push(s@[i as int]));
            }
        }
        i = i + 1;
    }
    let last = s.substring_char(start, n).to_owned();
    let ghost prev = lines.deep_view();
    lines.push(last);
    proof {
        assert(lines.deep_view() =~= prev.push(s@.subrange(start as int, n as int)));
        let ls = lines.deep_view();
        assert(ls.drop_last() =~= prev);
        if prev.len() == 0 {
            assert(joined_with_nl(ls) == ls[0]);
        } else {
            assert(joined_with_nl(ls) == joined_with_nl(prev) + seq!['\n'] + ls.last());
        }
        assert(s@.take(n as int) =~= s@);
        assert(joined_with_nl(ls) =~= s@);
        assert(newline_free(ls.last()));
    }
    lines
}

/// Splits the mark-as-replicated directives out of a desired-schema text:
/// the first component is the schema with every directive line removed
/// (ready to run against the ephemeral reference database, which cannot
/// load the extension into itself), the second the directive lines queued
/// for replay once structural migration completes.
pub fn strip_crr_statements(schema: &str) -> (r: (String, Vec<String>))
    ensures
        exists|ls: Seq<Seq<char>>|
            {
                &&& #[trigger] joined_with_nl(ls) == schema@
                &&& forall|k: int| 0 <= k < ls.len() ==> newline_free(#[trigger] ls[k])
                &&& r.1.deep_view() == ls.filter(|l: Seq<char>| is_marker_line(l))
                &&& r.0@ == joined_with_nl(ls.filter(|l: Seq<char>| !is_marker_line(l)))
            },
{
    broadcast use vstd::seq_lib::group_seq_properties;

    let lines = split_lines(schema);
    let ghost ls = lines.deep_view();
    let mut kept = String::new();
    let mut kept_count: usize = 0;
    let mut crr: Vec<String> = Vec::new();
    let n: usize = lines.len();
    let mut i: usize = 0;
    proof {
        reveal_with_fuel(Seq::filter, 1);
        assert(ls.take(0) =~= Seq::<Seq<char>>::empty());
        assert(crr.deep_view() =~= Seq::<Seq<char>>::empty());
    }
    while i < n
        invariant
            i <= n,
            n == ls.len(),
            ls == lines.deep_view(),
            crr.deep_view() == ls.take(i as int).filter(|l: Seq<char>| is_marker_line(l)),
            kept_count == ls.take(i as int).filter(|l: Seq<char>| !is_marker_line(l)).len(),
            kept@ == joined_with_nl(ls.take(i as int).filter(|l: Seq<char>| !is_marker_line(l))),
        decreases n - i,
    {
        proof {
            reveal(Seq::filter);
            assert(ls.take(i + 1 as int).drop_last() =~= ls.take(i as int));
            assert(ls.take(i + 1 as int).last() == ls[i as int]);
            assert(ls[i as int] == lines@[i as int]@);
        }
        let line = &lines[i];
        if line_has_marker(line.as_str()) {
            let ghost prevc = crr.deep_view();
            crr.push(line.clone());
            proof {
                assert(crr.deep_view() =~= prevc.push(ls[i as int]));
            }
        } else {
            let ghost kept_seq = ls.take(i as int).filter(|l: Seq<char>| !is_marker_line(l));
            if kept_count > 0 {
                kept.append("\n");
            }
            kept.append(line.as_str());
            kept_count = kept_count + 1;
            proof {
                reveal_strlit("\n");
                let now_seq = ls.take(i + 1 as int).filter(|l: Seq<char>| !is_marker_line(l));
                assert(now_seq =~= kept_seq.push(ls[i as int]));
                assert(now_seq.drop_last() =~= kept_seq);
                if kept_seq.len() == 0 {
                    assert(joined_with_nl(now_seq) == now_seq[0]);
                    assert(kept@ =~= joined_with_nl(now_seq));
                } else {
                    assert(joined_with_nl(now_seq) == joined_with_nl(kept_seq) + seq!['\n']
                        + now_seq.last());
                    assert("\n"@ =~= seq!['\n']);
                    assert(kept@ =~= joined_with_nl(now_seq));
                }
            }
        }
        i = i + 1;
    }
    proof {
        assert(ls.take(n as int) =~= ls);
    }
    (kept, crr)
}

/// The enumeration of user tables fed to the migration diff: every table
/// that is not the engine's own, not this extension's bookkeeping, and not
/// a reserved internal table. Clock tables are deliberately not excluded:
/// when a base table disappears from the desired schema, its companion
/// clock table is absent from the reference database too and is classified
/// for dropping along with it.
pub fn list_user_tables_sql() -> (r: String)
    ensures
        r@
            == "SELECT name FROM sqlite_master WHERE type = 'table' AND name NOT LIKE 'sqlite_%' AND name NOT LIKE 'crsql_%' AND name NOT LIKE '__crsql_%'"@,
{
    String::from_str(
        "SELECT name FROM sqlite_master WHERE type = 'table' AND name NOT LIKE 'sqlite_%' AND name NOT LIKE 'crsql_%' AND name NOT LIKE '__crsql_%'",
    )
}

/// Membership of a name in a name list.
pub open spec fn name_in(names: Seq<Seq<char>>, x: Seq<char>) -> bool {
    exists|k: int| 0 <= k < names.len() && names[k] == x
}

/// Whether `x` occurs in `names`.
pub fn contains_name(names: &Vec<String>, x: &String) -> (r: bool)
    ensures
        r == name_in(names.deep_view(), x@),
{
    let n: usize = names.len();
    let mut i: usize = 0;
    while i < n
        invariant
            i <= n,
            n == names@.len(),
            forall|k: int| 0 <= k < i ==> names.deep_view()[k] != x@,
        decreases n - i,
    {
        if names[i] == *x {
            proof {
                assert(names.deep_view()[i as int] == x@);
            }
            return true;
        }
        proof {
            assert(names.deep_view()[i as int] == names@[i as int]@);
        }
        i = i + 1;
    }
    proof {
        if name_in(names.deep_view(), x@) {
            let k = choose|k: int| 0 <= k < names.deep_view().len() && names.deep_view()[k] == x@;
            assert(false);
        }
    }
    false
}

/// Outcome of diffing two name sets (tables or columns): names only in the
/// desired schema are to create, names only in the live schema are to drop,
/// names in both are candidates for a deeper diff.
pub struct SchemaDiff {
    pub added: Vec<String>,
    pub removed: Vec<String>,
    pub kept: Vec<String>,
}

/// Classifies names between a desired and a live schema, preserving each
/// side's order: the core of the auto-migration diff, used once for table
/// names and once per table for column and index names.
pub fn classify_names(desired: &Vec<String>, live: &Vec<String>) -> (r: SchemaDiff)
    ensures
        r.removed.deep_view() == live.deep_view().filter(
            |x: Seq<char>| !name_in(desired.deep_view(), x),
        ),
        r.kept.deep_view() == live.deep_view().filter(
            |x: Seq<char>| name_in(desired.deep_view(), x),
        ),
        r.added.deep_view() == desired.deep_view().filter(
            |x: Seq<char>| !name_in(live.deep_view(), x),
        ),
{
    let mut added: Vec<String> = Vec::new();
    let mut removed: Vec<String> = Vec::new();
    let mut kept: Vec<String> = Vec::new();
    let ghost dm = desired.deep_view();
    let ghost lm = live.deep_view();
    proof {
        reveal_with_fuel(Seq::filter, 1);
        assert(lm.take(0) =~= Seq::<Seq<char>>::empty());
        assert(dm.take(0) =~= Seq::<Seq<char>>::empty());
        assert(removed.deep_view() =~= Seq::<Seq<char>>::empty());
        assert(kept.deep_view() =~= Seq::<Seq<char>>::empty());
        assert(added.deep_view() =~= Seq::<Seq<char>>::empty());
    }
    let n: usize = live.len();
    let mut i: usize = 0;
    while i < n
        invariant
            i <= n,
            n == live@.len(),
            dm == desired.deep_view(),
            lm == live.deep_view(),
            removed.deep_view() == lm.take(i as int).filter(|x: Seq<char>| !name_in(dm, x)),
            kept.deep_view() == lm.take(i as int).filter(|x: Seq<char>| name_in(dm, x)),
        decreases n - i,
    {
        proof {
            reveal(Seq::filter);
            assert(lm.take(i + 1 as int).drop_last() =~= lm.take(i as int));
            assert(lm.take(i + 1 as int).last() == lm[i as int]);
            assert(lm[i as int] == live@[i as int]@);
        }
        let name = &live[i];
        if contains_name(desired, name) {
            let ghost prev = kept.deep_view();
            kept.push(name.clone());
            proof {
                assert(kept.deep_view() =~= prev.push(lm[i as int]));
            }
        } else {
            let ghost prev = removed.deep_view();
            removed.push(name.clone());
            proof {
                assert(removed.deep_view() =~= prev.push(lm[i as int]));
            }
        }
        i = i + 1;
    }
    let m: usize = desired.len();
    let mut j: usize = 0;
    while j < m
        invariant
            j <= m,
            m == desired@.len(),
            dm == desired.deep_view(),
            lm == live.deep_view(),
            added.deep_view() == dm.take(j as int).filter(|x: Seq<char>| !name_in(lm, x)),
        decreases m - j,
    {
        proof {
            reveal(Seq::filter);
            assert(dm.take(j + 1 as int).drop_last() =~= dm.take(j as int));
            assert(dm.take(j + 1 as int).last() == dm[j as int]);
            assert(dm[j as int] == desired@[j as int]@);
        }
        let name = &desired[j];
        if !contains_name(live, name) {
            let ghost prev = added.deep_view();
            added.push(name.clone());
            proof {
                assert(added.deep_view() =~= prev.push(dm[j as int]));
            }
        }
        j = j + 1;
    }
    proof {
        assert(lm.take(n as int) =~= lm);
        assert(dm.take(m as int) =~= dm);
    }
    SchemaDiff { added, removed, kept }
}

/// The effective default clause of a reflected column: a column that is
/// nullable and declares no default defaults to null; a declared default is
/// used as written; a NOT NULL column without a default has none (and the
/// compatibility gate refuses it on replicated relations).
pub fn default_clause_value(notnull: bool, declared_default: Option<String>) -> (r: Option<String>)
    ensures
        match declared_default {
            Some(text) => r matches Some(v) && v@ == text@,
            None => if notnull {
                r is None
            } else {
                r matches Some(v) && v@ == "NULL"@
            },
        },
{
    match declared_default {
        Some(text) => Some(text),
        None => {
            if notnull {
                None
            } else {
                Some(String::from_str("NULL"))
            }
        },
    }
}

/// `DROP TABLE` for a table the desired schema no longer has.
pub fn drop_table_sql(table: &str) -> (r: String)
    ensures
        r@ == "DROP TABLE \""@ + escape_seq(table@, '"') + "\""@,
{
    let mut out = String::from_str("DROP TABLE \"");
    let t = escape_ident(table);
    out.append(t.as_str());
    out.append("\"");
    proof {
        assert(out@ =~= "DROP TABLE \""@ + escape_seq(table@, '"') + "\""@);
    }
    out
}

/// `ALTER TABLE … DROP` for a column the desired schema no longer has.
pub fn drop_column_sql(table: &str, column: &str) -> (r: String)
    ensures
        r@ == "ALTER TABLE \""@ + escape_seq(table@, '"') + "\" DROP \""@ + escape_seq(
            column@,
            '"',
        ) + "\""@,
{
    let mut out = String::from_str("ALTER TABLE \"");
    let t = escape_ident(table);
    out.append(t.as_str());
    out.append("\" DROP \"");
    let c = escape_ident(column);
    out.append(c.as_str());
    out.append("\"");
    proof {
        assert(out@ =~= "ALTER TABLE \""@ + escape_seq(table@, '"') + "\" DROP \""@ + escape_seq(
            column@,
            '"',
        ) + "\""@);
    }
    out
}

/// Plans the `ALTER TABLE … ADD COLUMN` for a column only the desired
/// schema has, reproducing its declared type, NOT NULL flag and default.
/// Adding a primary-key column is refused: it would change every row's
/// identity and orphan the clock history, so the caller must migrate by
/// hand.
pub fn plan_added_column(
    table: &str,
    column: &str,
    col_type: &str,
    notnull: bool,
    dflt_value: Option<&str>,
    is_pk: bool,
) -> (r: Result<String, MigrationError>)
    ensures
        is_pk <==> r == Err::<String, MigrationError>(MigrationError::AddedPrimaryKeyColumn),
        !is_pk ==> r is Ok,
        ({
            let head = "ALTER TABLE \""@ + escape_seq(table@, '"') + "\" ADD COLUMN \""@
                + escape_seq(column@, '"') + "\" "@ + col_type@;
            let with_nn = if notnull {
                head + " NOT NULL"@
            } else {
                head
            };
            r matches Ok(sql) ==> sql@ == (match dflt_value {
                Some(d) => with_nn + " DEFAULT "@ + d@,
                None => with_nn,
            })
        }),
{
    if is_pk {
        return Err(MigrationError::AddedPrimaryKeyColumn);
    }
    let mut out = String::from_str("ALTER TABLE \"");
    let t = escape_ident(table);
    out.append(t.as_str());
    out.append("\" ADD COLUMN \"");
    let c = escape_ident(column);
    out.append(c.as_str());
    out.append("\" ");
    out.append(col_type);
    if notnull {
        out.append(" NOT NULL");
    }
    match dflt_value {
        Some(d) => {
            out.append(" DEFAULT ");
            out.append(d);
        },
        None => {},
    }
    proof {
        let head = "ALTER TABLE \""@ + escape_seq(table@, '"') + "\" ADD COLUMN \""@ + escape_seq(
            column@,
            '"',
        ) + "\" "@ + col_type@;
        let with_nn = if notnull {
            head + " NOT NULL"@
        } else {
            head
        };
        match dflt_value {
            Some(d) => {
                assert(out@ =~= with_nn + " DEFAULT "@ + d@);
            },
            None => {
                assert(out@ =~= with_nn);
            },
        }
    }
    Ok(out)
}

/// `DROP INDEX` for an index only the live schema has.
pub fn drop_index_sql(index: &str) -> (r: String)
    ensures
        r@ == "DROP INDEX \""@ + escape_seq(index@, '"') + "\""@,
{
    let mut out = String::from_str("DROP INDEX \"");
    let t = escape_ident(index);
    out.append(t.as_str());
    out.append("\"");
    proof {
        assert(out@ =~= "DROP INDEX \""@ + escape_seq(index@, '"') + "\""@);
    }
    out
}

/// Raw names joined with commas, before position `i`.
pub open spec fn raw_join_upto(names: Seq<Seq<char>>, i: int) -> Seq<char>
    decreases i,
{
    if i <= 0 {
        Seq::empty()
    } else if i == 1 {
        names[0]
    } else {
        raw_join_upto(names, i - 1) + ", "@ + names[i - 1]
    }
}

/// `CREATE [UNIQUE] INDEX` recreating an index only the desired schema has,
/// from its unique flag and ordered indexed-column list.
pub fn create_index_sql(unique: bool, index: &str, table: &str, columns: &Vec<String>) -> (r:
    String)
    ensures
        ({
            let head = if unique {
                "CREATE UNIQUE INDEX \""@
            } else {
                "CREATE INDEX \""@
            };
            r@ == head + escape_seq(index@, '"') + "\" ON \""@ + escape_seq(table@, '"') + "\" ("@
                + raw_join_upto(columns.deep_view(), columns@.len() as int) + ")"@
        }),
{
    let mut out = if unique {
        String::from_str("CREATE UNIQUE INDEX \"")
    } else {
        String::from_str("CREATE INDEX \"")
    };
    let ix = escape_ident(index);
    out.append(ix.as_str());
    out.append("\" ON \"");
    let t = escape_ident(table);
    out.append(t.as_str());
    out.append("\" (");
    let n: usize = columns.len();
    let mut i: usize = 0;
    let ghost head = if unique {
        "CREATE UNIQUE INDEX \""@
    } else {
        "CREATE INDEX \""@
    };
    let ghost stem = head + escape_seq(index@, '"') + "\" ON \""@ + escape_seq(table@, '"')
        + "\" ("@;
    proof {
        assert(out@ =~= stem + raw_join_upto(columns.deep_view(), 0));
    }
    while i < n
        invariant
            i <= n,
            n == columns@.len(),
            out@ == stem + raw_join_upto(columns.deep_view(), i as int),
        decreases n - i,
    {
        if i > 0 {
            out.append(", ");
        }
        out.append(columns[i].as_str());
        proof {
            assert(columns.deep_view()[i as int] == columns@[i as int]@);
            assert(out@ =~= stem + raw_join_upto(columns.deep_view(), i + 1 as int));
        }
        i = i + 1;
    }
    out.append(")");
    proof {
        assert(out@ =~= stem + raw_join_upto(columns.deep_view(), columns@.len() as int) + ")"@);
    }
    out
}

} // verus!
