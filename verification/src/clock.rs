use vstd::prelude::*;

use crate::values::{ColumnValue, ValueModel};

verus! {

/// One logical-clock cell: the per-column version counter and the provenance
/// of the last write to it.
#[derive(Clone, Copy, Debug, PartialEq, Eq)]
pub struct ClockStamp {
    /// Per-column write counter; for the sentinel entry it is the causal
    /// length (odd while the row is live, even once it is deleted).
    pub col_version: i64,
    /// Database version of the transaction that produced the write.
    pub db_version: i64,
    /// Ordinal of the write inside its transaction.
    pub seq: i64,
    /// Origin replica of the write; `None` for a locally-originated write.
    pub site: Option<u64>,
}

/// Which clock slot of a row a change addresses: the reserved sentinel entry
/// that records creation and deletion of the row identity, or an ordinary
/// column by its position in the table's non-key column list.
#[derive(Clone, Copy, Debug, PartialEq, Eq)]
pub enum ClockKey {
    Sentinel,
    Col(usize),
}

/// One record of the changes feed: everything a peer needs to replay a write.
#[derive(Clone, Debug)]
pub struct ChangeRecord {
    pub pk: u64,
    pub key: ClockKey,
    pub value: ColumnValue,
    pub col_version: i64,
    pub db_version: i64,
    pub site: Option<u64>,
    pub seq: i64,
    /// Causal length of the row the change belongs to.
    pub cl: i64,
}

/// Mathematical model of a `ChangeRecord`.
pub struct ChangeModel {
    pub pk: u64,
    pub key: ClockKey,
    pub value: ValueModel,
    pub col_version: i64,
    pub db_version: i64,
    pub site: Option<u64>,
    pub seq: i64,
    pub cl: i64,
}

impl DeepView for ChangeRecord {
    type V = ChangeModel;

    open spec fn deep_view(&self) -> ChangeModel {
        ChangeModel {
            pk: self.pk,
            key: self.key,
            value: self.value@,
            col_version: self.col_version,
            db_version: self.db_version,
            site: self.site,
            seq: self.seq,
            cl: self.cl,
        }
    }
}

/// The tracked state of one row identity: its base-table presence and cell
/// values, the stored sentinel clock entry (if any) and one optional clock
/// entry per non-key column. A record outlives deletion of its row: the
/// sentinel entry is the tombstone.
#[derive(Clone, Debug)]
pub struct RowRecord {
    /// The row's primary-key identity.
    pub pk: u64,
    /// Whether the row currently exists in the base table.
    pub present: bool,
    /// Current cell values of the non-key columns, meaningful while present.
    pub values: Vec<ColumnValue>,
    /// The stored sentinel clock entry; its version is the causal length.
    /// Rows created by a plain insert store none until a delete occurs: the
    /// causal length is then implicitly 1.
    pub sentinel: Option<ClockStamp>,
    /// Per-column clock entries.
    pub cols: Vec<Option<ClockStamp>>,
}

/// Mathematical model of a `RowRecord`.
pub struct RowModel {
    pub pk: u64,
    pub present: bool,
    pub values: Seq<ValueModel>,
    pub sentinel: Option<ClockStamp>,
    pub cols: Seq<Option<ClockStamp>>,
}

impl DeepView for RowRecord {
    type V = RowModel;

    open spec fn deep_view(&self) -> RowModel {
        RowModel {
            pk: self.pk,
            present: self.present,
            values: self.values.deep_view(),
            sentinel: self.sentinel,
            cols: self.cols@,
        }
    }
}

/// The replicated state of one tracked table: the number of non-key columns
/// and one record per known row identity.
#[derive(Debug)]
pub struct CrrTable {
    pub n_cols: usize,
    pub rows: Vec<RowRecord>,
}

/// Mathematical model of a `CrrTable`.
pub struct TableModel {
    pub n_cols: int,
    pub rows: Seq<RowModel>,
}

impl DeepView for CrrTable {
    type V = TableModel;

    open spec fn deep_view(&self) -> TableModel {
        TableModel { n_cols: self.n_cols as int, rows: self.rows.deep_view() }
    }
}

/// A clock cell is well-formed when its counters are in range.
pub open spec fn stamp_wf(c: ClockStamp) -> bool {
    c.col_version >= 1 && c.db_version >= 0 && c.seq >= 0
}

/// A row record is well-formed for a table of `n_cols` non-key columns.
pub open spec fn row_wf(r: RowModel, n_cols: int) -> bool {
    &&& r.values.len() == n_cols
    &&& r.cols.len() == n_cols
    &&& match r.sentinel {
        Some(st) => stamp_wf(st),
        None => true,
    }
    &&& forall|i: int|
        0 <= i < n_cols ==> match #[trigger] r.cols[i] {
            Some(c) => stamp_wf(c),
            None => true,
        }
}

/// A table is well-formed when every record is and row identities are unique.
pub open spec fn table_wf(t: TableModel) -> bool {
    &&& t.n_cols >= 0
    &&& forall|i: int| 0 <= i < t.rows.len() ==> row_wf(#[trigger] t.rows[i], t.n_cols)
    &&& forall|i: int, j: int|
        0 <= i < j < t.rows.len() ==> (#[trigger] t.rows[i]).pk != (#[trigger] t.rows[j]).pk
}

/// Version counters of a row are far enough from the integer ceiling for one
/// more write.
pub open spec fn row_headroom(r: RowModel, n_cols: int) -> bool {
    &&& match r.sentinel {
        Some(st) => st.col_version < i64::MAX - 2,
        None => true,
    }
    &&& forall|i: int|
        0 <= i < n_cols ==> match #[trigger] r.cols[i] {
            Some(c) => c.col_version < i64::MAX,
            None => true,
        }
}

/// Headroom for every row of the table.
pub open spec fn table_headroom(t: TableModel) -> bool {
    forall|i: int| 0 <= i < t.rows.len() ==> row_headroom(#[trigger] t.rows[i], t.n_cols)
}

/// The causal length of a known row: the sentinel's version when one is
/// stored, otherwise implicitly 1 (live, never deleted). Odd means live,
/// even means deleted.
pub open spec fn row_cl(r: RowModel) -> int {
    match r.sentinel {
        Some(st) => st.col_version as int,
        None => 1,
    }
}

/// Index of the record for `pk`, or `-1` when none exists.
pub open spec fn find_index(rows: Seq<RowModel>, pk: u64) -> int
    decreases rows.len(),
{
    if rows.len() == 0 {
        -1
    } else if rows[0].pk == pk {
        0
    } else {
        let r = find_index(rows.skip(1), pk);
        if r < 0 {
            -1
        } else {
            r + 1
        }
    }
}

/// `find_index` returns a sound index: `-1` means the identity is absent and
/// a non-negative result points at the first record carrying it.
pub proof fn lemma_find_index_char(rows: Seq<RowModel>, pk: u64)
    ensures
        find_index(rows, pk) == -1 ==> forall|i: int|
            0 <= i < rows.len() ==> (#[trigger] rows[i]).pk != pk,
        find_index(rows, pk) >= 0 ==> 0 <= find_index(rows, pk) < rows.len() && rows[find_index(
            rows,
            pk,
        )].pk == pk,
    decreases rows.len(),
{
    if rows.len() > 0 && rows[0].pk != pk {
        lemma_find_index_char(rows.skip(1), pk);
        let r = find_index(rows.skip(1), pk);
        if r == -1 {
            assert forall|i: int| 0 <= i < rows.len() implies (#[trigger] rows[i]).pk != pk by {
                if i >= 1 {
                    assert(rows.skip(1)[i - 1] == rows[i]);
                }
            }
        } else {
            assert(rows.skip(1)[r] == rows[r + 1]);
        }
    }
}

/// When position `i` holds `pk` and no earlier position does, `find_index`
/// returns `i`.
pub proof fn lemma_find_index_of(rows: Seq<RowModel>, pk: u64, i: int)
    requires
        0 <= i < rows.len(),
        rows[i].pk == pk,
        forall|j: int| 0 <= j < i ==> (#[trigger] rows[j]).pk != pk,
    ensures
        find_index(rows, pk) == i,
    decreases i,
{
    if i > 0 {
        assert(rows[0].pk != pk);
        assert forall|j: int| 0 <= j < i - 1 implies (#[trigger] rows.skip(1)[j]).pk != pk by {
            assert(rows.skip(1)[j] == rows[j + 1]);
        }
        assert(rows.skip(1)[i - 1] == rows[i]);
        lemma_find_index_of(rows.skip(1), pk, i - 1);
    }
}

/// A fresh, never-seen record for `pk`: absent from the base table, default
/// null cell values and no clock entries.
pub open spec fn fresh_row(pk: u64, n_cols: int) -> RowModel {
    RowModel {
        pk,
        present: false,
        values: Seq::new(n_cols as nat, |i: int| ValueModel::Null),
        sentinel: None,
        cols: Seq::new(n_cols as nat, |i: int| None),
    }
}

impl CrrTable {
    /// An empty tracked table with `n_cols` non-key columns.
    pub fn new(n_cols: usize) -> (t: CrrTable)
        ensures
            t.deep_view() == (TableModel { n_cols: n_cols as int, rows: Seq::empty() }),
            table_wf(t.deep_view()),
    {
        let t = CrrTable { n_cols, rows: Vec::new() };
        proof {
            assert(t.deep_view().rows =~= Seq::<RowModel>::empty());
        }
        t
    }

    /// Finds the record for `pk`, if any.
    pub fn find_row(&self, pk: u64) -> (r: Option<usize>)
        ensures
            match r {
                Some(i) => i as int == find_index(self.deep_view().rows, pk) && i
                    < self.rows@.len(),
                None => find_index(self.deep_view().rows, pk) == -1,
            },
    {
        let ghost rows = self.deep_view().rows;
        let n: usize = self.rows.len();
        let mut i: usize = 0;
        while i < n
            invariant
                i <= n,
                n == rows.len(),
                rows == self.deep_view().rows,
                forall|j: int| 0 <= j < i ==> (#[trigger] rows[j]).pk != pk,
            decreases n - i,
        {
            if self.rows[i].pk == pk {
                proof {
                    assert(rows[i as int] == self.rows@[i as int].deep_view());
                    lemma_find_index_of(rows, pk, i as int);
                }
                return Some(i);
            }
            proof {
                assert(rows[i as int] == self.rows@[i as int].deep_view());
            }
            i = i + 1;
        }
        proof {
            lemma_find_index_char(rows, pk);
            if find_index(rows, pk) >= 0 {
                assert(rows[find_index(rows, pk)].pk == pk);
                assert(false);
            }
        }
        None
    }

    /// The causal length this replica knows for `pk`: `0` when the identity
    /// has never been seen.
    pub fn causal_length(&self, pk: u64) -> (cl: i64)
        requires
            table_wf(self.deep_view()),
        ensures
            ({
                let idx = find_index(self.deep_view().rows, pk);
                if idx < 0 {
                    cl == 0
                } else {
                    cl as int == row_cl(self.deep_view().rows[idx])
                }
            }),
    {
        match self.find_row(pk) {
            None => 0,
            Some(i) => {
                proof {
                    assert(self.deep_view().rows[i as int] == self.rows@[i as int].deep_view());
                }
                match &self.rows[i].sentinel {
                    Some(st) => st.col_version,
                    None => 1,
                }
            },
        }
    }
}

/// The change records contributed by the column entries of one row, for
/// columns before `j`: one record per stored entry, carrying the current
/// cell value while the row is present and null once it is gone.
pub open spec fn col_changes_upto(r: RowModel, j: int) -> Seq<ChangeModel>
    decreases j,
{
    if j <= 0 {
        Seq::empty()
    } else {
        col_changes_upto(r, j - 1) + match r.cols[j - 1] {
            Some(c) => seq![
                ChangeModel {
                    pk: r.pk,
                    key: ClockKey::Col((j - 1) as usize),
                    value: if r.present {
                        r.values[j - 1]
                    } else {
                        ValueModel::Null
                    },
                    col_version: c.col_version,
                    db_version: c.db_version,
                    site: c.site,
                    seq: c.seq,
                    cl: row_cl(r) as i64,
                },
            ],
            None => Seq::empty(),
        }
    }
}

/// All change records of one row: the sentinel record first (only when a
/// sentinel entry is actually stored), then one record per column entry. The
/// causal length of every record is coalesced to 1 when no sentinel exists.
pub open spec fn row_changes(r: RowModel, n_cols: int) -> Seq<ChangeModel> {
    (match r.sentinel {
        Some(st) => seq![
            ChangeModel {
                pk: r.pk,
                key: ClockKey::Sentinel,
                value: ValueModel::Null,
                col_version: st.col_version,
                db_version: st.db_version,
                site: st.site,
                seq: st.seq,
                cl: st.col_version,
            },
        ],
        None => Seq::empty(),
    }) + col_changes_upto(r, n_cols)
}

/// The change records of the first `i` rows, in row order.
pub open spec fn changes_upto(t: TableModel, i: int) -> Seq<ChangeModel>
    decreases i,
{
    if i <= 0 {
        Seq::empty()
    } else {
        changes_upto(t, i - 1) + row_changes(t.rows[i - 1], t.n_cols)
    }
}

/// The whole changes feed of a table: everything a peer must replay to reach
/// this replica's state.
pub open spec fn changes_of(t: TableModel) -> Seq<ChangeModel> {
    changes_upto(t, t.rows.len() as int)
}

impl CrrTable {
    /// Materializes the changes feed: for every known row, the stored
    /// sentinel record (creation or tombstone) followed by one record per
    /// column clock entry, with causal lengths coalesced to 1 for rows that
    /// were never deleted and cell values resolved against the base table
    /// (null when the row is gone).
    pub fn changes(&self) -> (out: Vec<ChangeRecord>)
        requires
            table_wf(self.deep_view()),
        ensures
            out.deep_view() == changes_of(self.deep_view()),
    {
        let ghost t = self.deep_view();
        let mut out: Vec<ChangeRecord> = Vec::new();
        proof {
            assert(out.deep_view() =~= Seq::<ChangeModel>::empty());
        }
        let n_rows: usize = self.rows.len();
        let mut i: usize = 0;
        while i < n_rows
            invariant
                i <= n_rows,
                n_rows == t.rows.len(),
                t == self.deep_view(),
                table_wf(t),
                out.deep_view() == changes_upto(t, i as int),
            decreases n_rows - i,
        {
            let row = &self.rows[i];
            let ghost rm = t.rows[i as int];
            proof {
                assert(rm == self.rows@[i as int].deep_view());
            }
            let ghost before_row = out.deep_view();
            let cl: i64 = match &row.sentinel {
                Some(st) => st.col_version,
                None => 1,
            };
            proof {
                assert(cl as int == row_cl(rm));
            }
            match &row.sentinel {
                Some(st) => {
                    let rec = ChangeRecord {
                        pk: row.pk,
                        key: ClockKey::Sentinel,
                        value: ColumnValue::Null,
                        col_version: st.col_version,
                        db_version: st.db_version,
                        site: st.site,
                        seq: st.seq,
                        cl: st.col_version,
                    };
                    let ghost prev = out.deep_view();
                    out.push(rec);
                    proof {
                        assert(out.deep_view() =~= prev + seq![rec.deep_view()]);
                    }
                },
                None => {},
            }
            proof {
                assert(out.deep_view() =~= before_row + (match rm.sentinel {
                    Some(st) => seq![
                        ChangeModel {
                            pk: rm.pk,
                            key: ClockKey::Sentinel,
                            value: ValueModel::Null,
                            col_version: st.col_version,
                            db_version: st.db_version,
                            site: st.site,
                            seq: st.seq,
                            cl: st.col_version,
                        },
                    ],
                    None => Seq::empty(),
                }));
                assert(col_changes_upto(rm, 0) =~= Seq::<ChangeModel>::empty());
            }
            let ghost after_sentinel = out.deep_view();
            let n_cols: usize = row.cols.len();
            proof {
                assert(n_cols == t.n_cols);
            }
            let mut j: usize = 0;
            while j < n_cols
                invariant
                    j <= n_cols,
                    n_cols == rm.cols.len(),
                    n_cols == rm.values.len(),
                    rm == self.rows@[i as int].deep_view(),
                    i < self.rows@.len(),
                    cl as int == row_cl(rm),
                    out.deep_view() == after_sentinel + col_changes_upto(rm, j as int),
                decreases n_cols - j,
            {
                let row = &self.rows[i];
                match &row.cols[j] {
                    Some(c) => {
                        let value = if row.present {
                            row.values[j].clone()
                        } else {
                            ColumnValue::Null
                        };
                        let rec = ChangeRecord {
                            pk: row.pk,
                            key: ClockKey::Col(j),
                            value,
                            col_version: c.col_version,
                            db_version: c.db_version,
                            site: c.site,
                            seq: c.seq,
                            cl,
                        };
                        let ghost prev = out.deep_view();
                        out.push(rec);
                        proof {
                            assert(rec.deep_view().value == (if rm.present {
                                rm.values[j as int]
                            } else {
                                ValueModel::Null
                            }));
                            assert(out.deep_view() =~= prev + seq![rec.deep_view()]);
                            assert(out.deep_view() =~= after_sentinel + col_changes_upto(
                                rm,
                                j + 1 as int,
                            ));
                        }
                    },
                    None => {
                        proof {
                            assert(col_changes_upto(rm, j + 1 as int) =~= col_changes_upto(
                                rm,
                                j as int,
                            ));
                        }
                    },
                }
                j = j + 1;
            }
            proof {
                assert(out.deep_view() =~= changes_upto(t, i + 1 as int));
            }
            i = i + 1;
        }
        out
    }
}

} // verus!
