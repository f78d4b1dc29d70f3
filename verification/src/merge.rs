use vstd::prelude::*;

use crate::clock::{
    find_index, fresh_row, lemma_find_index_char, row_cl, row_wf, table_wf, ChangeModel,
    ChangeRecord, ClockKey, ClockStamp, CrrTable, RowModel, TableModel,
};
use crate::local_writes::{make_fresh_row, put_row};
use crate::session::{bump_seq_spec, next_version_spec, session_wf, Session};
use crate::values::{compare_values, value_lt};

verus! {

/// Failures of the merge path.
#[derive(Clone, Copy, Debug, PartialEq, Eq, Structural)]
pub enum MergeError {
    /// Clock entries claim the row exists but the base table has no such
    /// row: corrupted or externally-bypassed state.
    RowMissing,
    /// The incoming change names a column the table does not have.
    UnknownColumn,
}

/// Outcome of the merge transition: the new state when the incoming change
/// won, a no-op when it lost, or a typed failure.
pub enum MergeStep {
    Applied(TableModel, Session),
    Ignored,
    FailedRowMissing,
    FailedUnknownColumn,
}

/// Well-formedness of an incoming change record: counters in range and, for
/// sentinel records, the version being exactly the carried causal length.
pub open spec fn change_wf(c: ChangeModel) -> bool {
    &&& c.col_version >= 1
    &&& c.db_version >= 0
    &&& c.seq >= 0
    &&& c.cl >= 1
    &&& (c.key is Sentinel ==> c.col_version == c.cl)
}

/// State reached when an incoming change wins and is applied: the clock
/// entry takes the incoming column version and site, the local database
/// version is advanced but never below the incoming one (so the local
/// counter stays ahead of everything it has absorbed), and the write takes a
/// fresh local sequence ordinal.
pub open spec fn merge_apply_col(t: TableModel, s: Session, c: ChangeModel, i: int) -> MergeStep {
    let idx = find_index(t.rows, c.pk);
    let (s1, v) = next_version_spec(s, c.db_version);
    let (s2, q) = bump_seq_spec(s1);
    let base = if idx >= 0 {
        t.rows[idx]
    } else {
        fresh_row(c.pk, t.n_cols)
    };
    let row = RowModel {
        present: true,
        values: base.values.update(i, c.value),
        cols: base.cols.update(
            i,
            Some(ClockStamp { col_version: c.col_version, db_version: v, seq: q, site: c.site }),
        ),
        ..base
    };
    MergeStep::Applied(put_row(t, idx, row), s2)
}

/// Transition of merging one remote change.
///
/// A sentinel record is a causal-length race: it wins exactly when the
/// incoming causal length is larger than the local one (0 for a never-seen
/// identity), and then either deletes the row and drops its column history
/// (even length: a tombstone) or re-creates the row (odd length).
///
/// A column record first loses against a locally-deleted row it does not
/// causally supersede; otherwise the column versions decide, with the
/// deterministic value order breaking exact ties: the incoming value must
/// sort strictly after the stored one to win (or tie exactly, under the
/// `merge_equal_values` configuration). Reading the stored value for a
/// tie-break requires the base row to exist: a missing row is a typed
/// failure, not a silent no-op.
pub open spec fn merge_spec(t: TableModel, s: Session, c: ChangeModel) -> MergeStep {
    let idx = find_index(t.rows, c.pk);
    match c.key {
        ClockKey::Sentinel => {
            let lcl: int = if idx < 0 {
                0
            } else {
                row_cl(t.rows[idx])
            };
            if c.cl <= lcl {
                MergeStep::Ignored
            } else {
                let (s1, v) = next_version_spec(s, c.db_version);
                let (s2, q) = bump_seq_spec(s1);
                let stamp = ClockStamp {
                    col_version: c.cl,
                    db_version: v,
                    seq: q,
                    site: c.site,
                };
                let base = if idx >= 0 {
                    t.rows[idx]
                } else {
                    fresh_row(c.pk, t.n_cols)
                };
                let row = if c.cl % 2 == 0 {
                    RowModel {
                        present: false,
                        sentinel: Some(stamp),
                        cols: Seq::new(t.n_cols as nat, |i: int| None),
                        ..base
                    }
                } else {
                    RowModel { present: true, sentinel: Some(stamp), ..base }
                };
                MergeStep::Applied(put_row(t, idx, row), s2)
            }
        },
        ClockKey::Col(ci) => {
            if ci >= t.n_cols {
                MergeStep::FailedUnknownColumn
            } else {
                let i = ci as int;
                if idx >= 0 && row_cl(t.rows[idx]) % 2 == 0 && c.cl <= row_cl(t.rows[idx]) {
                    MergeStep::Ignored
                } else {
                    let local_col = if idx >= 0 {
                        t.rows[idx].cols[i]
                    } else {
                        None
                    };
                    match local_col {
                        None => merge_apply_col(t, s, c, i),
                        Some(lc) => {
                            if c.col_version > lc.col_version {
                                merge_apply_col(t, s, c, i)
                            } else if c.col_version < lc.col_version {
                                MergeStep::Ignored
                            } else if !t.rows[idx].present {
                                MergeStep::FailedRowMissing
                            } else {
                                let stored = t.rows[idx].values[i];
                                if value_lt(stored, c.value) || (stored == c.value
                                    && s.merge_equal_values) {
                                    merge_apply_col(t, s, c, i)
                                } else {
                                    MergeStep::Ignored
                                }
                            }
                        },
                    }
                }
            }
        },
    }
}

impl CrrTable {
    /// Applies one remote change record, per `merge_spec`: returns
    /// `Ok(true)` when the incoming change won and was applied, `Ok(false)`
    /// when it lost and the state is untouched, and a typed error (state
    /// untouched) when the change is unserviceable.
    pub fn merge_change(&mut self, s: &mut Session, c: &ChangeRecord) -> (r: Result<
        bool,
        MergeError,
    >)
        requires
            table_wf(old(self).deep_view()),
            session_wf(*old(s)),
            old(s).db_version < i64::MAX,
            old(s).seq < i64::MAX,
            change_wf(c.deep_view()),
        ensures
            ({
                let step = merge_spec(old(self).deep_view(), *old(s), c.deep_view());
                let untouched = final(self).deep_view() == old(self).deep_view() && *final(s)
                    == *old(s);
                match step {
                    MergeStep::Applied(t2, s2) => r == Ok::<bool, MergeError>(true)
                        && final(self).deep_view() == t2 && *final(s) == s2,
                    MergeStep::Ignored => r == Ok::<bool, MergeError>(false) && untouched,
                    MergeStep::FailedRowMissing => r == Err::<bool, MergeError>(
                        MergeError::RowMissing,
                    ) && untouched,
                    MergeStep::FailedUnknownColumn => r == Err::<bool, MergeError>(
                        MergeError::UnknownColumn,
                    ) && untouched,
                }
            }),
            table_wf(final(self).deep_view()),
            session_wf(*final(s)),
    {
        let ghost t0 = self.deep_view();
        let ghost s0 = *s;
        let ghost cm = c.deep_view();
        let idx_opt = self.find_row(c.pk);
        let ghost idx = find_index(t0.rows, c.pk);
        proof {
            lemma_find_index_char(t0.rows, c.pk);
            if idx >= 0 {
                assert(row_wf(t0.rows[idx], t0.n_cols));
            }
        }
        match c.key {
            ClockKey::Sentinel => {
                let lcl: i64 = match idx_opt {
                    Some(i) => {
                        proof {
                            assert(t0.rows[i as int] == self.rows@[i as int].deep_view());
                        }
                        match &self.rows[i].sentinel {
                            Some(st) => st.col_version,
                            None => 1,
                        }
                    },
                    None => 0,
                };
                if c.cl <= lcl {
                    return Ok(false);
                }
                let v = s.next_db_version(c.db_version);
                let q = s.bump_seq();
                let stamp = ClockStamp { col_version: c.cl, db_version: v, seq: q, site: c.site };
                let mut row = match idx_opt {
                    Some(i) => self.rows.remove(i),
                    None => make_fresh_row(c.pk, self.n_cols),
                };
                let ghost base = if idx >= 0 {
                    t0.rows[idx]
                } else {
                    fresh_row(cm.pk, t0.n_cols)
                };
                proof {
                    assert(row.deep_view() == base);
                }
                row.sentinel = Some(stamp);
                if c.cl % 2 == 0 {
                    row.present = false;
                    let ghost row_mid = row.deep_view();
                    let n = self.n_cols;
                    let mut i: usize = 0;
                    while i < n
                        invariant
                            i <= n,
                            row.pk == row_mid.pk,
                            row.present == row_mid.present,
                            row.sentinel == row_mid.sentinel,
                            row.values.deep_view() == row_mid.values,
                            row.cols@.len() == n,
                            forall|k: int| 0 <= k < i ==> (#[trigger] row.cols@[k]) is None,
                        decreases n - i,
                    {
                        let _old = row.cols.remove(i);
                        row.cols.insert(i, None);
                        i = i + 1;
                    }
                    proof {
                        assert(row.deep_view().cols =~= Seq::new(t0.n_cols as nat, |i: int| None));
                    }
                } else {
                    row.present = true;
                }
                let ghost finished_row = row.deep_view();
                match idx_opt {
                    Some(i) => self.rows.insert(i, row),
                    None => self.rows.push(row),
                }
                proof {
                    let step = merge_spec(t0, s0, cm);
                    if idx >= 0 {
                        assert(self.rows.deep_view() =~= t0.rows.update(idx, finished_row));
                    } else {
                        assert(self.rows.deep_view() =~= t0.rows.push(finished_row));
                    }
                    match step {
                        MergeStep::Applied(t2, s2) => {
                            assert(finished_row == t2.rows[if idx >= 0 {
                                idx
                            } else {
                                t0.rows.len() as int
                            }]);
                            assert(self.deep_view().rows =~= t2.rows);
                            assert(*s == s2);
                        },
                        _ => {
                            assert(false);
                        },
                    }
                    assert forall|a: int|
                        0 <= a < self.deep_view().rows.len() implies row_wf(
                        #[trigger] self.deep_view().rows[a],
                        self.deep_view().n_cols,
                    ) by {
                        if a != (if idx >= 0 {
                            idx
                        } else {
                            t0.rows.len() as int
                        }) {
                            assert(self.deep_view().rows[a] == t0.rows[a]);
                        }
                    }
                    assert(table_wf(self.deep_view()));
                }
                Ok(true)
            },
            ClockKey::Col(ci) => {
                if ci >= self.n_cols {
                    return Err(MergeError::UnknownColumn);
                }
                // a locally deleted row blocks column changes it causally covers
                if let Some(i) = idx_opt {
                    proof {
                        assert(t0.rows[i as int] == self.rows@[i as int].deep_view());
                    }
                    let lcl: i64 = match &self.rows[i].sentinel {
                        Some(st) => st.col_version,
                        None => 1,
                    };
                    if lcl % 2 == 0 && c.cl <= lcl {
                        return Ok(false);
                    }
                }
                let wins: bool = match idx_opt {
                    None => true,
                    Some(i) => {
                        proof {
                            assert(t0.rows[i as int] == self.rows@[i as int].deep_view());
                        }
                        match &self.rows[i].cols[ci] {
                            None => true,
                            Some(lc) => {
                                if c.col_version > lc.col_version {
                                    true
                                } else if c.col_version < lc.col_version {
                                    return Ok(false);
                                } else if !self.rows[i].present {
                                    return Err(MergeError::RowMissing);
                                } else {
                                    proof {
                                        assert(self.rows@[i as int].deep_view().values[ci as int]
                                            == self.rows@[i as int].values.deep_view()[ci as int]);
                                    }
                                    let cmp = compare_values(&self.rows[i].values[ci], &c.value);
                                    if cmp < 0 {
                                        true
                                    } else if cmp == 0 && s.merge_equal_values {
                                        true
                                    } else {
                                        return Ok(false);
                                    }
                                }
                            },
                        }
                    },
                };
                proof {
                    assert(wins);
                    assert(merge_spec(t0, s0, cm) == merge_apply_col(t0, s0, cm, ci as int));
                }
                let v = s.next_db_version(c.db_version);
                let q = s.bump_seq();
                let mut row = match idx_opt {
                    Some(i) => self.rows.remove(i),
                    None => make_fresh_row(c.pk, self.n_cols),
                };
                let ghost base = if idx >= 0 {
                    t0.rows[idx]
                } else {
                    fresh_row(cm.pk, t0.n_cols)
                };
                proof {
                    assert(row.deep_view() == base);
                    if idx >= 0 {
                        assert(row_wf(base, t0.n_cols));
                    }
                    assert(row.values.deep_view() == base.values);
                    assert(base.values.len() == t0.n_cols);
                    assert(row.values@.len() == row.values.deep_view().len());
                    assert(row.cols@.len() == t0.n_cols);
                }
                row.present = true;
                let _old_val = row.values.remove(ci);
                row.values.insert(ci, c.value.clone());
                let _old_col = row.cols.remove(ci);
                row.cols.insert(
                    ci,
                    Some(
                        ClockStamp { col_version: c.col_version, db_version: v, seq: q, site: c.site },
                    ),
                );
                proof {
                    assert(row.values.deep_view() =~= base.values.update(ci as int, cm.value));
                    assert(row.cols@ =~= base.cols.update(
                        ci as int,
                        Some(
                            ClockStamp {
                                col_version: cm.col_version,
                                db_version: v,
                                seq: q,
                                site: cm.site,
                            },
                        ),
                    ));
                }
                let ghost finished_row = row.deep_view();
                match idx_opt {
                    Some(i) => self.rows.insert(i, row),
                    None => self.rows.push(row),
                }
                proof {
                    let step = merge_apply_col(t0, s0, cm, ci as int);
                    if idx >= 0 {
                        assert(self.rows.deep_view() =~= t0.rows.update(idx, finished_row));
                    } else {
                        assert(self.rows.deep_view() =~= t0.rows.push(finished_row));
                    }
                    match step {
                        MergeStep::Applied(t2, s2) => {
                            assert(finished_row == t2.rows[if idx >= 0 {
                                idx
                            } else {
                                t0.rows.len() as int
                            }]);
                            assert(self.deep_view().rows =~= t2.rows);
                            assert(*s == s2);
                        },
                        _ => {
                            assert(false);
                        },
                    }
                    assert forall|a: int|
                        0 <= a < self.deep_view().rows.len() implies row_wf(
                        #[trigger] self.deep_view().rows[a],
                        self.deep_view().n_cols,
                    ) by {
                        if a != (if idx >= 0 {
                            idx
                        } else {
                            t0.rows.len() as int
                        }) {
                            assert(self.deep_view().rows[a] == t0.rows[a]);
                        }
                    }
                    assert(table_wf(self.deep_view()));
                }
                Ok(true)
            },
        }
    }
}

} // verus!
