use vstd::prelude::*;

use crate::clock::{
    find_index, fresh_row, lemma_find_index_char, row_headroom, row_wf, stamp_wf, table_headroom,
    table_wf, ClockStamp, CrrTable, RowModel, RowRecord, TableModel,
};
use crate::session::{bump_seq_spec, next_version_spec, session_wf, Session};
use crate::values::{values_equal, ColumnValue, ValueModel};

verus! {

/// Version an ordinary column entry takes when a local write touches it:
/// a first write starts at 1, later writes increment by 1.
pub open spec fn upsert_col_version(old: Option<ClockStamp>) -> int {
    match old {
        None => 1,
        Some(c) => c.col_version + 1,
    }
}

/// Causal length after a local create of the row identity: a first create is
/// 1; re-creating a deleted identity (even length) steps to the next odd
/// value; re-asserting a live identity stays odd but moves past the next
/// deletion.
pub open spec fn created_sentinel_version(old: Option<ClockStamp>) -> int {
    match old {
        None => 1,
        Some(st) => if st.col_version % 2 == 0 {
            st.col_version + 1
        } else {
            st.col_version + 2
        },
    }
}

/// Causal length after a local delete of a live row identity: a row that
/// never stored a sentinel was implicitly at 1 and steps to 2; otherwise the
/// odd live length steps to the next even value.
pub open spec fn deleted_sentinel_version(old: Option<ClockStamp>) -> int {
    match old {
        None => 2,
        Some(st) => st.col_version + 1,
    }
}

/// A clock cell written by this replica: null site.
pub open spec fn local_stamp(cv: int, v: i64, q: int) -> ClockStamp {
    ClockStamp { col_version: cv as i64, db_version: v, seq: q as i64, site: None }
}

/// How many of the first `i` columns changed between `a` and `b`.
pub open spec fn n_changed(a: Seq<ValueModel>, b: Seq<ValueModel>, i: int) -> int
    decreases i,
{
    if i <= 0 {
        0
    } else {
        n_changed(a, b, i - 1) + if a[i - 1] != b[i - 1] {
            1int
        } else {
            0int
        }
    }
}

/// `n_changed` counts at most one per column.
pub proof fn lemma_n_changed_bound(a: Seq<ValueModel>, b: Seq<ValueModel>, i: int)
    ensures
        0 <= n_changed(a, b, i),
        i >= 0 ==> n_changed(a, b, i) <= i,
    decreases i,
{
    if i > 0 {
        lemma_n_changed_bound(a, b, i - 1);
    }
}

/// Replaces the record at `idx`, or appends a new one when `idx` is `-1`.
pub open spec fn put_row(t: TableModel, idx: int, row: RowModel) -> TableModel {
    TableModel {
        rows: if idx >= 0 {
            t.rows.update(idx, row)
        } else {
            t.rows.push(row)
        },
        ..t
    }
}

/// Transition of a local INSERT: the row becomes present with the given
/// values; every non-key column's clock entry is upserted (version 1 on
/// first write, incremented on conflict) at the transaction's version with a
/// fresh sequence and null site. A stored sentinel entry is re-asserted to a
/// live causal length (the re-insert-after-delete case); a table without
/// non-key columns records the creation as a single sentinel entry instead.
pub open spec fn local_insert_spec(t: TableModel, s: Session, pk: u64, vals: Seq<ValueModel>) -> (
    TableModel,
    Session,
) {
    let (s1, v) = next_version_spec(s, 0);
    let idx = find_index(t.rows, pk);
    let base = if idx >= 0 {
        t.rows[idx]
    } else {
        fresh_row(pk, t.n_cols)
    };
    if t.n_cols == 0 {
        let (s2, q) = bump_seq_spec(s1);
        let row = RowModel {
            present: true,
            sentinel: Some(local_stamp(created_sentinel_version(base.sentinel), v, q as int)),
            ..base
        };
        (put_row(t, idx, row), s2)
    } else {
        let off: int = if base.sentinel is Some {
            1
        } else {
            0
        };
        let sent = if base.sentinel is Some {
            Some(local_stamp(created_sentinel_version(base.sentinel), v, s1.seq as int))
        } else {
            None
        };
        let cols = Seq::new(
            t.n_cols as nat,
            |i: int|
                Some(local_stamp(upsert_col_version(base.cols[i]), v, s1.seq + off + i)),
        );
        let row = RowModel { pk, present: true, values: vals, sentinel: sent, cols };
        let s2 = Session { seq: (s1.seq + off + t.n_cols) as i64, ..s1 };
        (put_row(t, idx, row), s2)
    }
}

/// Transition of a local UPDATE. When the key columns kept their values,
/// exactly the columns whose value differs (null-aware comparison) get their
/// clock entry upserted; untouched columns keep their entries unchanged.
/// When any key column changed, the old identity is retired exactly as a
/// delete (tombstone sentinel, column entries dropped) and the new identity
/// is created afresh: a live sentinel plus entries for the changed columns
/// only, so no column history carries over.
pub open spec fn local_update_spec(
    t: TableModel,
    s: Session,
    pk_old: u64,
    pk_new: u64,
    new_vals: Seq<ValueModel>,
) -> (TableModel, Session) {
    let n = t.n_cols;
    let (s1, v) = next_version_spec(s, 0);
    let idx_old = find_index(t.rows, pk_old);
    let old_row = t.rows[idx_old];
    if pk_new == pk_old {
        let cols = Seq::new(
            n as nat,
            |i: int|
                if old_row.values[i] != new_vals[i] {
                    Some(
                        local_stamp(
                            upsert_col_version(old_row.cols[i]),
                            v,
                            s1.seq + n_changed(old_row.values, new_vals, i),
                        ),
                    )
                } else {
                    old_row.cols[i]
                },
        );
        let row = RowModel { values: new_vals, cols, ..old_row };
        let s2 = Session { seq: (s1.seq + n_changed(old_row.values, new_vals, n)) as i64, ..s1 };
        (TableModel { rows: t.rows.update(idx_old, row), ..t }, s2)
    } else {
        let dead = RowModel {
            present: false,
            sentinel: Some(local_stamp(deleted_sentinel_version(old_row.sentinel), v, s1.seq as int)),
            cols: Seq::new(n as nat, |i: int| None),
            ..old_row
        };
        let t1 = TableModel { rows: t.rows.update(idx_old, dead), ..t };
        let idx_new = find_index(t.rows, pk_new);
        let base = if idx_new >= 0 {
            t.rows[idx_new]
        } else {
            fresh_row(pk_new, n)
        };
        let sent = Some(local_stamp(created_sentinel_version(base.sentinel), v, s1.seq + 1));
        let cols = Seq::new(
            n as nat,
            |i: int|
                if old_row.values[i] != new_vals[i] {
                    Some(
                        local_stamp(
                            upsert_col_version(base.cols[i]),
                            v,
                            s1.seq + 2 + n_changed(old_row.values, new_vals, i),
                        ),
                    )
                } else {
                    base.cols[i]
                },
        );
        let row = RowModel { pk: pk_new, present: true, values: new_vals, sentinel: sent, cols };
        let s2 = Session {
            seq: (s1.seq + 2 + n_changed(old_row.values, new_vals, n)) as i64,
            ..s1
        };
        (put_row(t1, idx_new, row), s2)
    }
}

/// Transition of a local DELETE: the sentinel steps to an even causal length
/// (writing one if none was stored) and every other clock entry of the row
/// is dropped — the tombstone is the only surviving history.
pub open spec fn local_delete_spec(t: TableModel, s: Session, pk: u64) -> (TableModel, Session) {
    let (s1, v) = next_version_spec(s, 0);
    let idx = find_index(t.rows, pk);
    let row = t.rows[idx];
    let dead = RowModel {
        present: false,
        sentinel: Some(local_stamp(deleted_sentinel_version(row.sentinel), v, s1.seq as int)),
        cols: Seq::new(t.n_cols as nat, |i: int| None),
        ..row
    };
    let s2 = Session { seq: (s1.seq + 1) as i64, ..s1 };
    (TableModel { rows: t.rows.update(idx, dead), ..t }, s2)
}

/// Exec computation of `upsert_col_version`.
fn upsert_version(old: &Option<ClockStamp>) -> (r: i64)
    requires
        match old {
            Some(c) => 1 <= c.col_version < i64::MAX,
            None => true,
        },
    ensures
        r as int == upsert_col_version(*old),
{
    match old {
        None => 1,
        Some(c) => c.col_version + 1,
    }
}

/// Exec computation of `created_sentinel_version`.
fn created_version(old: &Option<ClockStamp>) -> (r: i64)
    requires
        match old {
            Some(c) => 1 <= c.col_version < i64::MAX - 2,
            None => true,
        },
    ensures
        r as int == created_sentinel_version(*old),
{
    match old {
        None => 1,
        Some(st) => {
            if st.col_version % 2 == 0 {
                st.col_version + 1
            } else {
                st.col_version + 2
            }
        },
    }
}

/// Exec computation of `deleted_sentinel_version`.
fn deleted_version(old: &Option<ClockStamp>) -> (r: i64)
    requires
        match old {
            Some(c) => 1 <= c.col_version < i64::MAX,
            None => true,
        },
    ensures
        r as int == deleted_sentinel_version(*old),
{
    match old {
        None => 2,
        Some(st) => st.col_version + 1,
    }
}

/// A fresh record for `pk` (see `fresh_row`).
pub(crate) fn make_fresh_row(pk: u64, n_cols: usize) -> (r: RowRecord)
    ensures
        r.deep_view() == fresh_row(pk, n_cols as int),
{
    let mut values: Vec<ColumnValue> = Vec::new();
    let mut cols: Vec<Option<ClockStamp>> = Vec::new();
    let mut i: usize = 0;
    while i < n_cols
        invariant
            i <= n_cols,
            values@.len() == i,
            cols@.len() == i,
            forall|j: int| 0 <= j < i ==> (#[trigger] values@[j]) is Null,
            forall|j: int| 0 <= j < i ==> (#[trigger] cols@[j]) is None,
        decreases n_cols - i,
    {
        values.push(ColumnValue::Null);
        cols.push(None);
        i = i + 1;
    }
    let r = RowRecord { pk, present: false, values, sentinel: None, cols };
    proof {
        assert forall|j: int| 0 <= j < n_cols implies r.deep_view().values[j] == ValueModel::Null by {
            assert(values@[j] is Null);
        }
        assert(r.deep_view().values =~= fresh_row(pk, n_cols as int).values);
        assert(r.deep_view().cols =~= fresh_row(pk, n_cols as int).cols);
    }
    r
}

/// Copies a value vector, preserving its model.
fn clone_values(v: &Vec<ColumnValue>) -> (r: Vec<ColumnValue>)
    ensures
        r.deep_view() == v.deep_view(),
        r@.len() == v@.len(),
{
    let mut r: Vec<ColumnValue> = Vec::new();
    let n: usize = v.len();
    let mut i: usize = 0;
    while i < n
        invariant
            i <= n,
            n == v@.len(),
            r@.len() == i,
            forall|j: int| 0 <= j < i ==> (#[trigger] r.deep_view()[j]) == v.deep_view()[j],
        decreases n - i,
    {
        let ghost prev = r.deep_view();
        r.push(v[i].clone());
        proof {
            assert(r.deep_view() =~= prev.push(v.deep_view()[i as int]));
        }
        i = i + 1;
    }
    proof {
        assert(r.deep_view() =~= v.deep_view());
    }
    r
}

impl CrrTable {
    /// Records a local INSERT of `pk` with the given non-key column values,
    /// per `local_insert_spec`: the transaction's (memoized) database
    /// version stamps every touched clock entry, and each write takes the
    /// next per-transaction sequence ordinal.
    pub fn local_insert(&mut self, s: &mut Session, pk: u64, vals: Vec<ColumnValue>)
        requires
            table_wf(old(self).deep_view()),
            table_headroom(old(self).deep_view()),
            session_wf(*old(s)),
            old(s).db_version < i64::MAX,
            old(s).seq + old(self).n_cols + 2 <= i64::MAX,
            vals@.len() == old(self).n_cols,
        ensures
            (final(self).deep_view(), *final(s)) == local_insert_spec(
                old(self).deep_view(),
                *old(s),
                pk,
                vals.deep_view(),
            ),
            table_wf(final(self).deep_view()),
            session_wf(*final(s)),
    {
        let ghost t0 = self.deep_view();
        let ghost s0 = *s;
        let v = s.next_db_version(0);
        let ghost s1 = *s;
        let idx_opt = self.find_row(pk);
        let ghost idx = find_index(t0.rows, pk);
        let mut row = match idx_opt {
            Some(i) => self.rows.remove(i),
            None => make_fresh_row(pk, self.n_cols),
        };
        let ghost base = if idx >= 0 {
            t0.rows[idx]
        } else {
            fresh_row(pk, t0.n_cols)
        };
        proof {
            lemma_find_index_char(t0.rows, pk);
            if idx >= 0 {
                assert(row.deep_view() == base);
                assert(row_wf(base, t0.n_cols));
                assert(row_headroom(base, t0.n_cols));
            }
        }
        row.present = true;
        if self.n_cols == 0 {
            let q = s.bump_seq();
            let cv = created_version(&row.sentinel);
            row.sentinel = Some(ClockStamp { col_version: cv, db_version: v, seq: q, site: None });
        } else {
            if row.sentinel.is_some() {
                let q = s.bump_seq();
                let cv = created_version(&row.sentinel);
                row.sentinel = Some(
                    ClockStamp { col_version: cv, db_version: v, seq: q, site: None },
                );
            }
            let ghost off: int = if base.sentinel is Some {
                1
            } else {
                0
            };
            let ghost row_mid = row.deep_view();
            let n = self.n_cols;
            let mut i: usize = 0;
            while i < n
                invariant
                    i <= n,
                    n == base.cols.len(),
                    row.pk == row_mid.pk,
                    row.present == row_mid.present,
                    row.sentinel == row_mid.sentinel,
                    row.values.deep_view() == row_mid.values,
                    row.cols@.len() == n,
                    s.seq == s1.seq + off + i,
                    s.seq + (n - i) <= i64::MAX,
                    session_wf(*s),
                    *s == (Session { seq: (s1.seq + off + i) as i64, ..s1 }),
                    v == s1.pending_db_version,
                    forall|k: int| i <= k < n ==> (#[trigger] row.cols@[k]) == base.cols[k],
                    forall|k: int|
                        0 <= k < n ==> match #[trigger] base.cols[k] {
                            Some(c) => 1 <= c.col_version < i64::MAX,
                            None => true,
                        },
                    forall|k: int|
                        0 <= k < i ==> row.cols@[k] == Some(
                            #[trigger] local_stamp(
                                upsert_col_version(base.cols[k]),
                                v,
                                s1.seq + off + k,
                            ),
                        ),
                decreases n - i,
            {
                proof {
                    assert(row.cols@[i as int] == base.cols[i as int]);
                }
                let q = s.bump_seq();
                let old_c = row.cols.remove(i);
                let cv = upsert_version(&old_c);
                row.cols.insert(
                    i,
                    Some(ClockStamp { col_version: cv, db_version: v, seq: q, site: None }),
                );
                i = i + 1;
            }
            row.values = vals;
        }
        let ghost finished_row = row.deep_view();
        match idx_opt {
            Some(i) => self.rows.insert(i, row),
            None => self.rows.push(row),
        }
        proof {
            let (t_spec, s_spec) = local_insert_spec(t0, s0, pk, vals.deep_view());
            if idx >= 0 {
                assert(self.rows.deep_view() =~= t0.rows.update(idx, finished_row));
            } else {
                assert(self.rows.deep_view() =~= t0.rows.push(finished_row));
            }
            if t0.n_cols != 0 {
                assert(finished_row.cols =~= t_spec.rows[if idx >= 0 {
                    idx
                } else {
                    t0.rows.len() as int
                }].cols);
            }
            assert(finished_row == t_spec.rows[if idx >= 0 {
                idx
            } else {
                t0.rows.len() as int
            }]);
            assert(self.deep_view().rows =~= t_spec.rows);
            assert(*s == s_spec);
            assert forall|a: int|
                0 <= a < self.deep_view().rows.len() implies row_wf(
                #[trigger] self.deep_view().rows[a],
                self.deep_view().n_cols,
            ) by {
                if a != (if idx >= 0 {
                    idx
                } else {
                    t0.rows.len() as int
                }) {
                    assert(self.deep_view().rows[a] == t0.rows[a]);
                }
            }
            assert(table_wf(self.deep_view()));
        }
    }

    /// Records a local UPDATE of the live row `pk_old`, per
    /// `local_update_spec`. When the key columns are unchanged
    /// (`pk_new == pk_old`), exactly the columns whose value differs get
    /// their clock entry upserted. When the key changed, the old identity is
    /// retired as a delete and the new identity is created, with entries only
    /// for the changed columns: column history never moves between
    /// identities.
    pub fn local_update(
        &mut self,
        s: &mut Session,
        pk_old: u64,
        pk_new: u64,
        new_vals: Vec<ColumnValue>,
    )
        requires
            table_wf(old(self).deep_view()),
            table_headroom(old(self).deep_view()),
            session_wf(*old(s)),
            old(s).db_version < i64::MAX,
            old(s).seq + old(self).n_cols + 3 <= i64::MAX,
            new_vals@.len() == old(self).n_cols,
            find_index(old(self).deep_view().rows, pk_old) >= 0,
            old(self).deep_view().rows[find_index(old(self).deep_view().rows, pk_old)].present,
            pk_new != pk_old ==> ({
                let j = find_index(old(self).deep_view().rows, pk_new);
                j == -1 || !old(self).deep_view().rows[j].present
            }),
        ensures
            (final(self).deep_view(), *final(s)) == local_update_spec(
                old(self).deep_view(),
                *old(s),
                pk_old,
                pk_new,
                new_vals.deep_view(),
            ),
            table_wf(final(self).deep_view()),
            session_wf(*final(s)),
    {
        let ghost t0 = self.deep_view();
        let ghost s0 = *s;
        let ghost b = new_vals.deep_view();
        let v = s.next_db_version(0);
        let ghost s1 = *s;
        let idx_old = match self.find_row(pk_old) {
            Some(i) => i,
            None => {
                proof {
                    assert(false);
                }
                0
            },
        };
        let ghost old_model = t0.rows[idx_old as int];
        proof {
            lemma_find_index_char(t0.rows, pk_old);
            lemma_find_index_char(t0.rows, pk_new);
            assert(row_wf(old_model, t0.n_cols));
            assert(row_headroom(old_model, t0.n_cols));
            lemma_n_changed_bound(old_model.values, b, t0.n_cols);
        }
        if pk_new == pk_old {
            let mut row = self.rows.remove(idx_old);
            proof {
                assert(row.deep_view() == old_model);
            }
            let ghost row_mid = row.deep_view();
            let n = self.n_cols;
            let mut i: usize = 0;
            while i < n
                invariant
                    i <= n,
                    n == old_model.cols.len(),
                    n == old_model.values.len(),
                    n == b.len(),
                    row.pk == row_mid.pk,
                    row.present == row_mid.present,
                    row.sentinel == row_mid.sentinel,
                    row.values.deep_view() == row_mid.values,
                    row_mid.values == old_model.values,
                    row.cols@.len() == n,
                    new_vals.deep_view() == b,
                    new_vals@.len() == n,
                    session_wf(*s),
                    *s == (Session {
                        seq: (s1.seq + n_changed(old_model.values, b, i as int)) as i64,
                        ..s1
                    }),
                    s1.seq + n + 1 <= i64::MAX,
                    v == s1.pending_db_version,
                    forall|k: int| i <= k < n ==> (#[trigger] row.cols@[k]) == old_model.cols[k],
                    forall|k: int|
                        0 <= k < n ==> match #[trigger] old_model.cols[k] {
                            Some(c) => 1 <= c.col_version < i64::MAX,
                            None => true,
                        },
                    forall|k: int|
                        0 <= k < i ==> (#[trigger] row.cols@[k]) == (if old_model.values[k]
                            != b[k] {
                            Some(
                                local_stamp(
                                    upsert_col_version(old_model.cols[k]),
                                    v,
                                    s1.seq + n_changed(old_model.values, b, k),
                                ),
                            )
                        } else {
                            old_model.cols[k]
                        }),
                decreases n - i,
            {
                proof {
                    lemma_n_changed_bound(old_model.values, b, i as int);
                    lemma_n_changed_bound(old_model.values, b, i + 1 as int);
                    assert(n_changed(old_model.values, b, i + 1 as int) <= i + 1 <= n);
                    assert(row.values.deep_view()[i as int] == old_model.values[i as int]);
                    assert(new_vals.deep_view()[i as int] == b[i as int]);
                    assert(row.cols@[i as int] == old_model.cols[i as int]);
                }
                let changed = !values_equal(&row.values[i], &new_vals[i]);
                if changed {
                    let ghost prev_cols = row.cols@;
                    let q = s.bump_seq();
                    let old_c = row.cols.remove(i);
                    let cv = upsert_version(&old_c);
                    let stamp = Some(ClockStamp { col_version: cv, db_version: v, seq: q, site: None });
                    row.cols.insert(i, stamp);
                    proof {
                        assert(row.cols@ =~= prev_cols.update(i as int, stamp));
                        assert forall|k: int|
                            i < k < n implies (#[trigger] row.cols@[k]) == old_model.cols[k] by {
                            assert(row.cols@[k] == prev_cols[k]);
                        }
                    }
                }
                i = i + 1;
            }
            row.values = new_vals;
            let ghost finished_row = row.deep_view();
            self.rows.insert(idx_old, row);
            proof {
                let (t_spec, s_spec) = local_update_spec(t0, s0, pk_old, pk_new, b);
                assert forall|k: int| 0 <= k < t0.n_cols implies match #[trigger] finished_row.cols[k] {
                    Some(c) => stamp_wf(c),
                    None => true,
                } by {
                    lemma_n_changed_bound(old_model.values, b, k);
                }
                assert(finished_row.cols =~= t_spec.rows[idx_old as int].cols);
                assert(finished_row == t_spec.rows[idx_old as int]);
                assert(self.rows.deep_view() =~= t0.rows.update(idx_old as int, finished_row));
                assert(self.deep_view().rows =~= t_spec.rows);
                assert(*s == s_spec);
                assert forall|a: int|
                    0 <= a < self.deep_view().rows.len() implies row_wf(
                    #[trigger] self.deep_view().rows[a],
                    self.deep_view().n_cols,
                ) by {
                    if a != idx_old as int {
                        assert(self.deep_view().rows[a] == t0.rows[a]);
                    }
                }
                assert(table_wf(self.deep_view()));
            }
        } else {
            let idx_new_opt = self.find_row(pk_new);
            let ghost idx_new = find_index(t0.rows, pk_new);
            // retire the old identity exactly as a delete would
            let q0 = s.bump_seq();
            let mut dead = self.rows.remove(idx_old);
            proof {
                assert(dead.deep_view() == old_model);
            }
            let old_vals_copy = clone_values(&dead.values);
            let cv_dead = deleted_version(&dead.sentinel);
            dead.present = false;
            dead.sentinel = Some(
                ClockStamp { col_version: cv_dead, db_version: v, seq: q0, site: None },
            );
            let ghost dead_mid = dead.deep_view();
            let n = self.n_cols;
            let mut i: usize = 0;
            while i < n
                invariant
                    i <= n,
                    dead.pk == dead_mid.pk,
                    dead.present == dead_mid.present,
                    dead.sentinel == dead_mid.sentinel,
                    dead.values.deep_view() == dead_mid.values,
                    dead.cols@.len() == n,
                    forall|k: int| 0 <= k < i ==> (#[trigger] dead.cols@[k]) is None,
                decreases n - i,
            {
                let _old = dead.cols.remove(i);
                dead.cols.insert(i, None);
                i = i + 1;
            }
            let ghost dead_fin = dead.deep_view();
            self.rows.insert(idx_old, dead);
            let ghost t1 = self.deep_view();
            proof {
                assert(t1.rows =~= t0.rows.update(idx_old as int, dead_fin));
                if idx_new >= 0 {
                    assert(t1.rows[idx_new] == t0.rows[idx_new]);
                    assert(row_wf(t0.rows[idx_new], t0.n_cols));
                    assert(row_headroom(t0.rows[idx_new], t0.n_cols));
                }
            }
            // create the new identity
            let q1 = s.bump_seq();
            let ghost s_after_q1 = *s;
            let mut row = match idx_new_opt {
                Some(j) => self.rows.remove(j),
                None => make_fresh_row(pk_new, self.n_cols),
            };
            let ghost base = if idx_new >= 0 {
                t0.rows[idx_new]
            } else {
                fresh_row(pk_new, t0.n_cols)
            };
            proof {
                assert(row.deep_view() == base);
            }
            let cv_new = created_version(&row.sentinel);
            row.sentinel = Some(
                ClockStamp { col_version: cv_new, db_version: v, seq: q1, site: None },
            );
            row.present = true;
            let ghost row_mid = row.deep_view();
            let mut i: usize = 0;
            while i < n
                invariant
                    i <= n,
                    n == base.cols.len(),
                    n == old_model.values.len(),
                    n == b.len(),
                    n == old_vals_copy@.len(),
                    old_vals_copy.deep_view() == old_model.values,
                    row.pk == row_mid.pk,
                    row.present == row_mid.present,
                    row.sentinel == row_mid.sentinel,
                    row.values.deep_view() == row_mid.values,
                    row.cols@.len() == n,
                    new_vals.deep_view() == b,
                    new_vals@.len() == n,
                    session_wf(*s),
                    *s == (Session {
                        seq: (s_after_q1.seq + n_changed(old_model.values, b, i as int)) as i64,
                        ..s_after_q1
                    }),
                    s_after_q1.seq == s1.seq + 2,
                    s1.seq + n + 3 <= i64::MAX,
                    v == s1.pending_db_version,
                    v == s_after_q1.pending_db_version,
                    forall|k: int| i <= k < n ==> (#[trigger] row.cols@[k]) == base.cols[k],
                    forall|k: int|
                        0 <= k < n ==> match #[trigger] base.cols[k] {
                            Some(c) => 1 <= c.col_version < i64::MAX,
                            None => true,
                        },
                    forall|k: int|
                        0 <= k < i ==> (#[trigger] row.cols@[k]) == (if old_model.values[k]
                            != b[k] {
                            Some(
                                local_stamp(
                                    upsert_col_version(base.cols[k]),
                                    v,
                                    s1.seq + 2 + n_changed(old_model.values, b, k),
                                ),
                            )
                        } else {
                            base.cols[k]
                        }),
                decreases n - i,
            {
                proof {
                    lemma_n_changed_bound(old_model.values, b, i as int);
                    lemma_n_changed_bound(old_model.values, b, i + 1 as int);
                    assert(old_vals_copy.deep_view()[i as int] == old_model.values[i as int]);
                    assert(new_vals.deep_view()[i as int] == b[i as int]);
                    assert(row.cols@[i as int] == base.cols[i as int]);
                }
                let changed = !values_equal(&old_vals_copy[i], &new_vals[i]);
                if changed {
                    let ghost prev_cols = row.cols@;
                    let q = s.bump_seq();
                    let old_c = row.cols.remove(i);
                    let cv = upsert_version(&old_c);
                    let stamp = Some(
                        ClockStamp { col_version: cv, db_version: v, seq: q, site: None },
                    );
                    row.cols.insert(i, stamp);
                    proof {
                        assert(row.cols@ =~= prev_cols.update(i as int, stamp));
                        assert forall|k: int|
                            i < k < n implies (#[trigger] row.cols@[k]) == base.cols[k] by {
                            assert(row.cols@[k] == prev_cols[k]);
                        }
                    }
                }
                i = i + 1;
            }
            row.values = new_vals;
            let ghost finished_row = row.deep_view();
            match idx_new_opt {
                Some(j) => self.rows.insert(j, row),
                None => self.rows.push(row),
            }
            proof {
                let (t_spec, s_spec) = local_update_spec(t0, s0, pk_old, pk_new, b);
                assert forall|k: int| 0 <= k < t0.n_cols implies match #[trigger] finished_row.cols[k] {
                    Some(c) => stamp_wf(c),
                    None => true,
                } by {
                    lemma_n_changed_bound(old_model.values, b, k);
                }
                let target = if idx_new >= 0 {
                    idx_new
                } else {
                    t1.rows.len() as int
                };
                assert(finished_row.cols =~= t_spec.rows[target].cols);
                assert(dead_fin.cols =~= Seq::new(t0.n_cols as nat, |i: int| None));
                assert(finished_row == t_spec.rows[target]);
                if idx_new >= 0 {
                    assert(self.rows.deep_view() =~= t1.rows.update(idx_new, finished_row));
                } else {
                    assert(self.rows.deep_view() =~= t1.rows.push(finished_row));
                }
                assert(dead_fin == t_spec.rows[idx_old as int]);
                assert(self.deep_view().rows =~= t_spec.rows);
                assert(*s == s_spec);
                assert forall|a: int|
                    0 <= a < self.deep_view().rows.len() implies row_wf(
                    #[trigger] self.deep_view().rows[a],
                    self.deep_view().n_cols,
                ) by {
                    if a != target && a != idx_old as int {
                        assert(self.deep_view().rows[a] == t0.rows[a]);
                    }
                }
                assert forall|x: int, y: int|
                    0 <= x < y < self.deep_view().rows.len() implies (
                #[trigger] self.deep_view().rows[x]).pk != (#[trigger] self.deep_view().rows[y]).pk by {
                    assert(self.deep_view().rows[x].pk == (if x == target {
                        pk_new
                    } else {
                        t0.rows[x].pk
                    }));
                    assert(self.deep_view().rows[y].pk == (if y == target {
                        pk_new
                    } else {
                        t0.rows[y].pk
                    }));
                }
                assert(table_wf(self.deep_view()));
            }
        }
    }

    /// Records a local DELETE of the live row `pk`, per `local_delete_spec`.
    pub fn local_delete(&mut self, s: &mut Session, pk: u64)
        requires
            table_wf(old(self).deep_view()),
            table_headroom(old(self).deep_view()),
            session_wf(*old(s)),
            old(s).db_version < i64::MAX,
            old(s).seq < i64::MAX,
            find_index(old(self).deep_view().rows, pk) >= 0,
        ensures
            (final(self).deep_view(), *final(s)) == local_delete_spec(
                old(self).deep_view(),
                *old(s),
                pk,
            ),
            table_wf(final(self).deep_view()),
            session_wf(*final(s)),
    {
        let ghost t0 = self.deep_view();
        let ghost s0 = *s;
        let v = s.next_db_version(0);
        let q = s.bump_seq();
        let idx = match self.find_row(pk) {
            Some(i) => i,
            None => {
                proof {
                    assert(false);
                }
                0
            },
        };
        let mut row = self.rows.remove(idx);
        proof {
            assert(row.deep_view() == t0.rows[idx as int]);
            assert(row_wf(t0.rows[idx as int], t0.n_cols));
            assert(row_headroom(t0.rows[idx as int], t0.n_cols));
        }
        let cv = deleted_version(&row.sentinel);
        row.present = false;
        row.sentinel = Some(ClockStamp { col_version: cv, db_version: v, seq: q, site: None });
        let ghost row_mid = row.deep_view();
        let n = self.n_cols;
        let mut i: usize = 0;
        while i < n
            invariant
                i <= n,
                row.pk == row_mid.pk,
                row.present == row_mid.present,
                row.sentinel == row_mid.sentinel,
                row.values.deep_view() == row_mid.values,
                row.cols@.len() == n,
                forall|k: int| 0 <= k < i ==> (#[trigger] row.cols@[k]) is None,
            decreases n - i,
        {
            let _old = row.cols.remove(i);
            row.cols.insert(i, None);
            i = i + 1;
        }
        let ghost finished_row = row.deep_view();
        self.rows.insert(idx, row);
        proof {
            let (t_spec, s_spec) = local_delete_spec(t0, s0, pk);
            assert(finished_row.cols =~= Seq::new(t0.n_cols as nat, |i: int| None));
            assert(finished_row == t_spec.rows[idx as int]);
            assert(self.rows.deep_view() =~= t0.rows.update(idx as int, finished_row));
            assert(self.deep_view().rows =~= t_spec.rows);
            assert(*s == s_spec);
            assert forall|a: int|
                0 <= a < self.deep_view().rows.len() implies row_wf(
                #[trigger] self.deep_view().rows[a],
                self.deep_view().n_cols,
            ) by {
                if a != idx as int {
                    assert(self.deep_view().rows[a] == t0.rows[a]);
                }
            }
            assert(table_wf(self.deep_view()));
        }
    }
}

} // verus!
