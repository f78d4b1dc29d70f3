use vstd::prelude::*;
use vstd::seq_lib::group_to_multiset_ensures;
use vstd::string::StringExecFns;

use crate::util::escape_seq;

verus! {

/// One reflected catalog column: its catalog position, name, and primary-key
/// ordinal (0 when the column is not part of the key).
#[derive(Debug)]
pub struct ColumnInfo {
    pub cid: i64,
    pub name: String,
    pub pk: i64,
}

/// Mathematical model of a `ColumnInfo`.
pub struct ColumnModel {
    pub cid: i64,
    pub name: Seq<char>,
    pub pk: i64,
}

impl DeepView for ColumnInfo {
    type V = ColumnModel;

    open spec fn deep_view(&self) -> ColumnModel {
        ColumnModel { cid: self.cid, name: self.name@, pk: self.pk }
    }
}

impl Clone for ColumnInfo {
    /// Cloning preserves the column's model.
    fn clone(&self) -> (r: ColumnInfo)
        ensures
            r.deep_view() == self.deep_view(),
    {
        ColumnInfo { cid: self.cid, name: self.name.clone(), pk: self.pk }
    }
}

/// Reflected schema of one tracked table: its name, the primary-key columns
/// ordered by declared key ordinal, and the remaining columns in catalog
/// order.
#[derive(Debug)]
pub struct TableInfo {
    pub tbl_name: String,
    pub pks: Vec<ColumnInfo>,
    pub non_pks: Vec<ColumnInfo>,
}

/// Failures of schema reflection.
#[derive(Clone, Copy, Debug, PartialEq, Eq, Structural)]
pub enum TableInfoError {
    /// The reflected column list does not have the independently counted
    /// length: a concurrent schema change raced the reflection.
    ColumnCountMismatch,
}

/// Whether a reflected column participates in the primary key.
pub open spec fn is_pk_col(c: ColumnModel) -> bool {
    c.pk > 0
}

/// Non-decreasing by primary-key ordinal.
pub open spec fn sorted_by_pk(s: Seq<ColumnModel>) -> bool {
    forall|i: int, j: int| 0 <= i < j < s.len() ==> (#[trigger] s[i]).pk <= (#[trigger] s[j]).pk
}

/// Inserting preserves the multiset of elements.
proof fn lemma_insert_to_multiset(s: Seq<ColumnModel>, j: int, c: ColumnModel)
    requires
        0 <= j <= s.len(),
    ensures
        s.insert(j, c).to_multiset() == s.to_multiset().insert(c),
{
    broadcast use group_to_multiset_ensures;

    let t = s.insert(j, c);
    assert(t.remove(j) =~= s);
    assert(t[j] == c);
    assert(t.remove(j).to_multiset() =~= t.to_multiset().remove(t[j]));
    assert(t.to_multiset().contains(c));
    assert(t.to_multiset() =~= s.to_multiset().insert(c)) by {
        assert(s.to_multiset() == t.to_multiset().remove(c));
    }
}

/// Builds the table metadata from one reflected catalog column list, as the
/// reflection path does: the list length is first checked against the
/// independently obtained `expected_count` (detecting a race against a
/// concurrent schema change), key columns are ordered by their declared
/// key ordinal and the remaining columns keep catalog order.
pub fn build_table_info(tbl_name: String, cols: &Vec<ColumnInfo>, expected_count: usize) -> (r:
    Result<TableInfo, TableInfoError>)
    ensures
        cols@.len() != expected_count ==> r == Err::<TableInfo, TableInfoError>(
            TableInfoError::ColumnCountMismatch,
        ),
        cols@.len() == expected_count ==> matches!(r, Ok(_)),
        forall|ti: TableInfo|
            r == Ok::<TableInfo, TableInfoError>(ti) ==> {
                &&& ti.tbl_name@ == tbl_name@
                &&& ti.non_pks.deep_view() == cols.deep_view().filter(|c: ColumnModel| !is_pk_col(c))
                &&& sorted_by_pk(ti.pks.deep_view())
                &&& ti.pks.deep_view().to_multiset() == cols.deep_view().filter(
                    |c: ColumnModel| is_pk_col(c),
                ).to_multiset()
            },
{
    broadcast use group_to_multiset_ensures;

    if cols.len() != expected_count {
        return Err(TableInfoError::ColumnCountMismatch);
    }
    let ghost cm = cols.deep_view();
    let mut pks: Vec<ColumnInfo> = Vec::new();
    let mut non_pks: Vec<ColumnInfo> = Vec::new();
    let n: usize = cols.len();
    let mut i: usize = 0;
    proof {
        reveal_with_fuel(Seq::filter, 1);
        assert(cm.take(0) =~= Seq::<ColumnModel>::empty());
        assert(pks.deep_view() =~= Seq::<ColumnModel>::empty());
        assert(non_pks.deep_view() =~= Seq::<ColumnModel>::empty());
    }
    while i < n
        invariant
            i <= n,
            n == cols@.len(),
            cm == cols.deep_view(),
            non_pks.deep_view() == cm.take(i as int).filter(|c: ColumnModel| !is_pk_col(c)),
            sorted_by_pk(pks.deep_view()),
            pks.deep_view().to_multiset() == cm.take(i as int).filter(
                |c: ColumnModel| is_pk_col(c),
            ).to_multiset(),
        decreases n - i,
    {
        proof {
            reveal(Seq::filter);
            assert(cm.take(i + 1 as int).drop_last() =~= cm.take(i as int));
            assert(cm.take(i + 1 as int).last() == cm[i as int]);
            assert(cm[i as int] == cols@[i as int].deep_view());
        }
        let c = cols[i].clone();
        if c.pk > 0 {
            // find the insertion position that keeps the key ordinals sorted
            let mut j: usize = 0;
            while j < pks.len() && pks[j].pk <= c.pk
                invariant
                    j <= pks@.len(),
                    sorted_by_pk(pks.deep_view()),
                    forall|k: int| 0 <= k < j ==> (#[trigger] pks.deep_view()[k]).pk <= c.pk,
                decreases pks@.len() - j,
            {
                proof {
                    assert(pks.deep_view()[j as int] == pks@[j as int].deep_view());
                }
                j = j + 1;
            }
            proof {
                if (j as int) < pks.deep_view().len() {
                    assert(pks.deep_view()[j as int] == pks@[j as int].deep_view());
                    assert(pks.deep_view()[j as int].pk > c.pk);
                }
            }
            let ghost before = pks.deep_view();
            let ghost cmodel = c.deep_view();
            pks.insert(j, c);
            proof {
                broadcast use group_to_multiset_ensures;

                assert(pks.deep_view() =~= before.insert(j as int, cmodel));
                lemma_insert_to_multiset(before, j as int, cmodel);
                let now = pks.deep_view();
                assert forall|a: int, b: int|
                    0 <= a < b < now.len() implies (#[trigger] now[a]).pk <= (
                #[trigger] now[b]).pk by {
                    if a < j && b == j {
                        assert(now[a] == before[a]);
                    } else if a == j && b > j {
                        assert(now[b] == before[b - 1]);
                        assert(before[b - 1].pk >= before[j as int].pk);
                    } else if a < j && b > j {
                        assert(now[a] == before[a]);
                        assert(now[b] == before[b - 1]);
                    } else if a > j && b > j {
                        assert(now[a] == before[a - 1]);
                        assert(now[b] == before[b - 1]);
                    } else if a < j && b < j {
                        assert(now[a] == before[a]);
                        assert(now[b] == before[b]);
                    }
                }
                assert(cm.take(i + 1 as int).filter(|c: ColumnModel| is_pk_col(c))
                    =~= cm.take(i as int).filter(|c: ColumnModel| is_pk_col(c)).push(cmodel));
                assert(cm.take(i + 1 as int).filter(|c: ColumnModel| !is_pk_col(c))
                    =~= cm.take(i as int).filter(|c: ColumnModel| !is_pk_col(c)));
                assert(pks.deep_view().to_multiset() =~= cm.take(i + 1 as int).filter(
                    |c: ColumnModel| is_pk_col(c),
                ).to_multiset());
            }
        } else {
            let ghost beforen = non_pks.deep_view();
            let ghost cmodel = c.deep_view();
            non_pks.push(c);
            proof {
                assert(non_pks.deep_view() =~= beforen.push(cmodel));
                assert(cm.take(i + 1 as int).filter(|c: ColumnModel| !is_pk_col(c))
                    =~= cm.take(i as int).filter(|c: ColumnModel| !is_pk_col(c)).push(cmodel));
                assert(cm.take(i + 1 as int).filter(|c: ColumnModel| is_pk_col(c))
                    =~= cm.take(i as int).filter(|c: ColumnModel| is_pk_col(c)));
            }
        }
        i = i + 1;
    }
    proof {
        assert(cm.take(n as int) =~= cm);
    }
    Ok(TableInfo { tbl_name, pks, non_pks })
}

/// The cache-invalidation rule of the table-metadata cache, run on every
/// hot-path entry: the cached list is rebuilt exactly when the engine's
/// schema-version fingerprint moved or no cache exists yet, and reused
/// untouched otherwise — an O(1) decision when nothing changed.
pub fn cache_needs_refresh(schema_changed: bool, cached_table_count: usize) -> (r: bool)
    ensures
        r == (schema_changed || cached_table_count == 0),
{
    schema_changed || cached_table_count == 0
}

/// Everything the compatibility gate needs to know about a candidate table,
/// as reflected from the catalog by the five `compat_*_query` texts.
#[derive(Clone, Copy, Debug)]
pub struct CompatFacts {
    /// Unique indices besides the primary key.
    pub non_pk_unique_index_count: i64,
    /// Columns participating in the primary key.
    pub pk_column_count: i64,
    /// Whether the table's DDL uses AUTOINCREMENT.
    pub has_autoincrement: bool,
    /// Enforced foreign-key constraints.
    pub foreign_key_count: i64,
    /// NOT NULL non-key columns lacking a DEFAULT.
    pub notnull_without_default_count: i64,
}

/// The compatibility rule itself: a table can become a replicated relation
/// exactly when it has a primary key, no autoincrement key, no other unique
/// index, no enforced foreign keys and no required column without a default.
pub open spec fn compatible_spec(f: CompatFacts) -> bool {
    &&& f.non_pk_unique_index_count == 0
    &&& f.pk_column_count > 0
    &&& !f.has_autoincrement
    &&& f.foreign_key_count == 0
    &&& f.notnull_without_default_count == 0
}

/// Why a table was rejected by the compatibility gate.
#[derive(Clone, Copy, Debug, PartialEq, Eq, Structural)]
pub enum Incompatibility {
    UniqueIndexesBesidesPrimaryKey,
    NoPrimaryKey,
    AutoincrementPrimaryKey,
    CheckedForeignKeys,
    NotNullColumnWithoutDefault,
}

/// Decides whether a table with the given reflected facts can be converted
/// into a replicated relation; on rejection names the first violated rule,
/// checked in the same order as the reflection queries run.
pub fn is_table_compatible(f: &CompatFacts) -> (r: Result<(), Incompatibility>)
    ensures
        r is Ok <==> compatible_spec(*f),
        r == Err::<(), Incompatibility>(Incompatibility::UniqueIndexesBesidesPrimaryKey)
            <==> f.non_pk_unique_index_count != 0,
        r == Err::<(), Incompatibility>(Incompatibility::NoPrimaryKey) <==> (
        f.non_pk_unique_index_count == 0 && f.pk_column_count <= 0),
        r == Err::<(), Incompatibility>(Incompatibility::AutoincrementPrimaryKey) <==> (
        f.non_pk_unique_index_count == 0 && f.pk_column_count > 0 && f.has_autoincrement),
        r == Err::<(), Incompatibility>(Incompatibility::CheckedForeignKeys) <==> (
        f.non_pk_unique_index_count == 0 && f.pk_column_count > 0 && !f.has_autoincrement
            && f.foreign_key_count != 0),
        r == Err::<(), Incompatibility>(Incompatibility::NotNullColumnWithoutDefault) <==> (
        f.non_pk_unique_index_count == 0 && f.pk_column_count > 0 && !f.has_autoincrement
            && f.foreign_key_count == 0 && f.notnull_without_default_count != 0),
{
    if f.non_pk_unique_index_count != 0 {
        Err(Incompatibility::UniqueIndexesBesidesPrimaryKey)
    } else if f.pk_column_count <= 0 {
        Err(Incompatibility::NoPrimaryKey)
    } else if f.has_autoincrement {
        Err(Incompatibility::AutoincrementPrimaryKey)
    } else if f.foreign_key_count != 0 {
        Err(Incompatibility::CheckedForeignKeys)
    } else if f.notnull_without_default_count != 0 {
        Err(Incompatibility::NotNullColumnWithoutDefault)
    } else {
        Ok(())
    }
}

impl Incompatibility {
    /// A human-readable diagnostic for the rejection.
    pub fn message(&self) -> (r: &'static str)
        ensures
            r@.len() > 0,
    {
        let r = match self {
            Incompatibility::UniqueIndexesBesidesPrimaryKey => "table has unique indices besides the primary key; this is not allowed for replicated relations",
            Incompatibility::NoPrimaryKey => "table has no primary key; replicated relations must have a primary key",
            Incompatibility::AutoincrementPrimaryKey => "table has an autoincrement primary key; two concurrent replicas would assign unrelated rows the same key",
            Incompatibility::CheckedForeignKeys => "table has checked foreign key constraints, which can be violated by replication",
            Incompatibility::NotNullColumnWithoutDefault => "table has a NOT NULL column without a default value, which breaks schema compatibility between replicas",
        };
        proof {
            reveal_strlit(
                "table has unique indices besides the primary key; this is not allowed for replicated relations",
            );
            reveal_strlit(
                "table has no primary key; replicated relations must have a primary key",
            );
            reveal_strlit(
                "table has an autoincrement primary key; two concurrent replicas would assign unrelated rows the same key",
            );
            reveal_strlit(
                "table has checked foreign key constraints, which can be violated by replication",
            );
            reveal_strlit(
                "table has a NOT NULL column without a default value, which breaks schema compatibility between replicas",
            );
        }
        r
    }
}

/// Query counting unique indices besides the primary key.
pub fn compat_unique_index_query(table: &str) -> (r: String)
    ensures
        r@ == "SELECT count(*) FROM pragma_index_list('"@ + escape_seq(table@, '\'')
            + "') WHERE \"origin\" != 'pk' AND \"unique\" = 1"@,
{
    let mut out = String::from_str("SELECT count(*) FROM pragma_index_list('");
    let escaped = crate::util::escape_ident_as_value(table);
    out.append(escaped.as_str());
    out.append("') WHERE \"origin\" != 'pk' AND \"unique\" = 1");
    proof {
        assert(out@ =~= "SELECT count(*) FROM pragma_index_list('"@ + escape_seq(table@, '\'')
            + "') WHERE \"origin\" != 'pk' AND \"unique\" = 1"@);
    }
    out
}

/// Query counting primary-key columns.
pub fn compat_pk_count_query(table: &str) -> (r: String)
    ensures
        r@ == "SELECT count(*) FROM pragma_table_info('"@ + escape_seq(table@, '\'')
            + "') WHERE \"pk\" > 0"@,
{
    let mut out = String::from_str("SELECT count(*) FROM pragma_table_info('");
    let escaped = crate::util::escape_ident_as_value(table);
    out.append(escaped.as_str());
    out.append("') WHERE \"pk\" > 0");
    proof {
        assert(out@ =~= "SELECT count(*) FROM pragma_table_info('"@ + escape_seq(table@, '\'')
            + "') WHERE \"pk\" > 0"@);
    }
    out
}

/// Query detecting an AUTOINCREMENT key in the table's DDL; the table name
/// is bound as the single parameter.
pub fn compat_autoincrement_query() -> (r: String)
    ensures
        r@
            == "SELECT 1 FROM sqlite_master WHERE name = ? AND type = 'table' AND sql LIKE '%autoincrement%' LIMIT 1"@,
{
    String::from_str(
        "SELECT 1 FROM sqlite_master WHERE name = ? AND type = 'table' AND sql LIKE '%autoincrement%' LIMIT 1",
    )
}

/// Query counting foreign-key constraints.
pub fn compat_foreign_key_query(table: &str) -> (r: String)
    ensures
        r@ == "SELECT count(*) FROM pragma_foreign_key_list('"@ + escape_seq(table@, '\'') + "')"@,
{
    let mut out = String::from_str("SELECT count(*) FROM pragma_foreign_key_list('");
    let escaped = crate::util::escape_ident_as_value(table);
    out.append(escaped.as_str());
    out.append("')");
    proof {
        assert(out@ =~= "SELECT count(*) FROM pragma_foreign_key_list('"@ + escape_seq(
            table@,
            '\'',
        ) + "')"@);
    }
    out
}

/// Query counting NOT NULL non-key columns lacking a DEFAULT.
pub fn compat_notnull_no_default_query(table: &str) -> (r: String)
    ensures
        r@ == "SELECT count(*) FROM pragma_table_xinfo('"@ + escape_seq(table@, '\'')
            + "') WHERE \"notnull\" = 1 AND \"dflt_value\" IS NULL AND \"pk\" = 0"@,
{
    let mut out = String::from_str("SELECT count(*) FROM pragma_table_xinfo('");
    let escaped = crate::util::escape_ident_as_value(table);
    out.append(escaped.as_str());
    out.append("') WHERE \"notnull\" = 1 AND \"dflt_value\" IS NULL AND \"pk\" = 0");
    proof {
        assert(out@ =~= "SELECT count(*) FROM pragma_table_xinfo('"@ + escape_seq(table@, '\'')
            + "') WHERE \"notnull\" = 1 AND \"dflt_value\" IS NULL AND \"pk\" = 0"@);
    }
    out
}

impl TableInfo {
    /// Names of the primary-key columns, in key-ordinal order.
    pub fn pk_names(&self) -> (r: Vec<String>)
        ensures
            r.deep_view() == self.pks.deep_view().map_values(|c: ColumnModel| c.name),
    {
        let mut out: Vec<String> = Vec::new();
        let n: usize = self.pks.len();
        let mut i: usize = 0;
        while i < n
            invariant
                i <= n,
                n == self.pks@.len(),
                out.deep_view() == self.pks.deep_view().map_values(
                    |c: ColumnModel| c.name,
                ).take(i as int),
            decreases n - i,
        {
            let ghost prev = out.deep_view();
            let nm = self.pks[i].name.clone();
            let ghost nmv = nm@;
            out.push(nm);
            proof {
                assert(nmv == self.pks@[i as int].name@);
                assert(self.pks.deep_view()[i as int] == self.pks@[i as int].deep_view());
                assert(out.deep_view() =~= prev.push(nmv));
                assert(out.deep_view() =~= self.pks.deep_view().map_values(
                    |c: ColumnModel| c.name,
                ).take(i + 1 as int));
            }
            i = i + 1;
        }
        proof {
            let m = self.pks.deep_view().map_values(|c: ColumnModel| c.name);
            assert(m.take(n as int) =~= m);
        }
        out
    }
}

} // verus!
