use vstd::prelude::*;

use crate::clock::{
    changes_of, changes_upto, col_changes_upto, find_index, lemma_find_index_char,
    lemma_find_index_of, row_changes, row_cl, row_headroom, row_wf, stamp_wf, table_wf,
    ChangeModel, ClockKey, ClockStamp, TableModel,
};
use crate::local_writes::{
    lemma_n_changed_bound, local_delete_spec, local_insert_spec, local_update_spec,
};
use crate::merge::{change_wf, merge_apply_col, merge_spec, MergeStep};
use crate::session::{commit_spec, session_wf, Session};
use crate::values::{lemma_value_trichotomy, value_lt, ValueModel};

verus! {

/// Whether a clock cell's database version is at most `bound`.
pub open spec fn stamp_at_or_below(c: Option<ClockStamp>, bound: int) -> bool {
    match c {
        Some(st) => st.db_version <= bound,
        None => true,
    }
}

/// Every clock cell of the table carries a database version at most `bound`:
/// the committed state of a replica never refers past its own counter.
pub open spec fn stamps_at_or_below(t: TableModel, bound: int) -> bool {
    &&& forall|r: int|
        0 <= r < t.rows.len() ==> stamp_at_or_below((#[trigger] t.rows[r]).sentinel, bound)
    &&& forall|r: int, i: int|
        0 <= r < t.rows.len() && 0 <= i < t.rows[r].cols.len() ==> stamp_at_or_below(
            #[trigger] t.rows[r].cols[i],
            bound,
        )
}

/// Clock monotonicity, one committed write at a time: a local write to a
/// tracked column inside its own transaction increments that column's
/// version by exactly 1, stamps it with a database version strictly above
/// every version the table carried before, and leaves the committed state
/// ready for the next such step — so across N separate transactions the
/// column version rises by exactly 1 per write while the database version
/// strictly increases.
pub proof fn lemma_clock_monotonic_step(
    t0: TableModel,
    s0: Session,
    pk: u64,
    i: int,
    new_vals: Seq<ValueModel>,
)
    requires
        table_wf(t0),
        session_wf(s0),
        s0.pending_db_version == -1,
        s0.db_version < i64::MAX - 1,
        stamps_at_or_below(t0, s0.db_version as int),
        find_index(t0.rows, pk) >= 0,
        0 <= i < t0.n_cols,
        new_vals.len() == t0.n_cols,
        row_headroom(t0.rows[find_index(t0.rows, pk)], t0.n_cols),
        s0.seq + t0.n_cols <= i64::MAX,
        ({
            let row = t0.rows[find_index(t0.rows, pk)];
            &&& row.values[i] != new_vals[i]
            &&& row.cols[i] is Some
        }),
    ensures
        ({
            let idx = find_index(t0.rows, pk);
            let lc = t0.rows[idx].cols[i]->0;
            let (t1, s1) = local_update_spec(t0, s0, pk, pk, new_vals);
            let s1c = commit_spec(s1);
            &&& t1.rows[idx].cols[i] is Some
            &&& t1.rows[idx].cols[i]->0.col_version == lc.col_version + 1
            &&& t1.rows[idx].cols[i]->0.db_version == s0.db_version + 1
            &&& t1.rows[idx].cols[i]->0.db_version > lc.db_version
            &&& s1c.db_version == s0.db_version + 1
            &&& s1c.pending_db_version == -1
            &&& stamps_at_or_below(t1, s1c.db_version as int)
            &&& table_wf(t1)
            &&& find_index(t1.rows, pk) == idx
        }),
{
    let idx = find_index(t0.rows, pk);
    lemma_find_index_char(t0.rows, pk);
    let (t1, s1) = local_update_spec(t0, s0, pk, pk, new_vals);
    let s1c = commit_spec(s1);
    let v = s0.db_version + 1;
    assert(t1.rows[idx].cols[i] is Some);
    assert forall|a: int|
        0 <= a < t1.rows.len() implies row_wf(#[trigger] t1.rows[a], t1.n_cols) by {
        if a != idx {
            assert(t1.rows[a] == t0.rows[a]);
        } else {
            assert(row_wf(t0.rows[idx], t0.n_cols));
            assert forall|k: int|
                0 <= k < t1.n_cols implies match #[trigger] t1.rows[idx].cols[k] {
                Some(c) => stamp_wf(c),
                None => true,
            } by {
                lemma_n_changed_bound(t0.rows[idx].values, new_vals, k);
                assert(match t0.rows[idx].cols[k] {
                    Some(c) => stamp_wf(c),
                    None => true,
                });
                assert(match t0.rows[idx].cols[k] {
                    Some(c) => c.col_version < i64::MAX,
                    None => true,
                });
            }
        }
    }
    assert forall|a: int, b: int|
        0 <= a < b < t1.rows.len() implies (#[trigger] t1.rows[a]).pk != (
    #[trigger] t1.rows[b]).pk by {
        assert(t1.rows[a].pk == t0.rows[a].pk);
        assert(t1.rows[b].pk == t0.rows[b].pk);
    }
    assert forall|j: int| 0 <= j < idx implies (#[trigger] t1.rows[j]).pk != pk by {
        assert(t1.rows[j] == t0.rows[j]);
    }
    assert(t1.rows[idx].pk == pk);
    lemma_find_index_of(t1.rows, pk, idx);
    assert forall|r: int|
        0 <= r < t1.rows.len() implies stamp_at_or_below(
        (#[trigger] t1.rows[r]).sentinel,
        s1c.db_version as int,
    ) by {
        if r != idx {
            assert(t1.rows[r] == t0.rows[r]);
        }
        assert(stamp_at_or_below(t0.rows[r].sentinel, s0.db_version as int));
    }
    assert forall|r: int, k: int|
        0 <= r < t1.rows.len() && 0 <= k < t1.rows[r].cols.len() implies stamp_at_or_below(
        #[trigger] t1.rows[r].cols[k],
        s1c.db_version as int,
    ) by {
        if r != idx {
            assert(t1.rows[r] == t0.rows[r]);
            assert(stamp_at_or_below(t0.rows[r].cols[k], s0.db_version as int));
        } else {
            if t0.rows[idx].values[k] != new_vals[k] {
            } else {
                assert(t1.rows[idx].cols[k] == t0.rows[idx].cols[k]);
                assert(stamp_at_or_below(t0.rows[idx].cols[k], s0.db_version as int));
            }
        }
    }
}

/// The state after the first `k` writes of a series of committed local
/// updates to one row: each write is issued in its own transaction and
/// committed before the next.
pub open spec fn committed_writes(
    t0: TableModel,
    s0: Session,
    pk: u64,
    ws: Seq<Seq<ValueModel>>,
    k: int,
) -> (TableModel, Session)
    decreases k,
{
    if k <= 0 {
        (t0, s0)
    } else {
        let (tp, sp) = committed_writes(t0, s0, pk, ws, k - 1);
        let (t1, s1) = local_update_spec(tp, sp, pk, pk, ws[k - 1]);
        (t1, commit_spec(s1))
    }
}

/// Clock monotonicity for any number of writes: after the first `k` of N
/// sequential committed local writes that each change column `i` of the
/// same row (and touch nothing else), the column's clock entry carries
/// exactly `k` more than its starting version — one increment per write —
/// and a database version equal to the `k`-th transaction's, which is
/// strictly larger than every earlier transaction's. Instantiating the
/// lemma at every prefix length gives the whole series: versions rise by
/// exactly 1 per write, database versions are distinct and strictly
/// increasing across the transactions.
pub proof fn lemma_clock_monotonic_n_writes(
    t0: TableModel,
    s0: Session,
    pk: u64,
    i: int,
    ws: Seq<Seq<ValueModel>>,
    k: int,
)
    requires
        table_wf(t0),
        session_wf(s0),
        s0.pending_db_version == -1,
        s0.seq == 0,
        stamps_at_or_below(t0, s0.db_version as int),
        find_index(t0.rows, pk) >= 0,
        0 <= i < t0.n_cols,
        t0.n_cols < i64::MAX,
        row_headroom(t0.rows[find_index(t0.rows, pk)], t0.n_cols),
        t0.rows[find_index(t0.rows, pk)].cols[i] is Some,
        t0.rows[find_index(t0.rows, pk)].cols[i]->0.col_version + ws.len() < i64::MAX,
        s0.db_version + ws.len() < i64::MAX - 1,
        0 <= k <= ws.len(),
        forall|j: int| 0 <= j < ws.len() ==> (#[trigger] ws[j]).len() == t0.n_cols,
        forall|j: int|
            0 <= j < ws.len() ==> (#[trigger] ws[j])[i] != (if j == 0 {
                t0.rows[find_index(t0.rows, pk)].values[i]
            } else {
                ws[j - 1][i]
            }),
        forall|j: int, c: int|
            0 <= j < ws.len() && 0 <= c < t0.n_cols && c != i ==> #[trigger] ws[j][c]
                == t0.rows[find_index(t0.rows, pk)].values[c],
    ensures
        ({
            let idx = find_index(t0.rows, pk);
            let lc0 = t0.rows[idx].cols[i]->0;
            let (tk, sk) = committed_writes(t0, s0, pk, ws, k);
            &&& table_wf(tk)
            &&& session_wf(sk)
            &&& sk.pending_db_version == -1
            &&& sk.seq == 0
            &&& sk.db_version == s0.db_version + k
            &&& tk.n_cols == t0.n_cols
            &&& find_index(tk.rows, pk) == idx
            &&& tk.rows[idx].cols[i] is Some
            &&& tk.rows[idx].cols[i]->0.col_version == lc0.col_version + k
            &&& (k > 0 ==> tk.rows[idx].cols[i]->0.db_version == s0.db_version + k)
            &&& stamps_at_or_below(tk, sk.db_version as int)
            &&& row_headroom(tk.rows[idx], tk.n_cols)
            &&& tk.rows[idx].sentinel == t0.rows[idx].sentinel
            &&& tk.rows[idx].values == (if k == 0 {
                t0.rows[idx].values
            } else {
                ws[k - 1]
            })
            &&& forall|c: int|
                0 <= c < t0.n_cols && c != i ==> #[trigger] tk.rows[idx].cols[c]
                    == t0.rows[idx].cols[c]
        }),
    decreases k,
{
    let idx = find_index(t0.rows, pk);
    lemma_find_index_char(t0.rows, pk);
    if k > 0 {
        lemma_clock_monotonic_n_writes(t0, s0, pk, i, ws, k - 1);
        let (tp, sp) = committed_writes(t0, s0, pk, ws, k - 1);
        assert(find_index(tp.rows, pk) == idx);
        lemma_find_index_char(tp.rows, pk);
        assert(0 <= idx < tp.rows.len());
        assert(row_wf(tp.rows[idx], tp.n_cols));
        assert(tp.rows[idx].values[i] == (if k - 1 == 0 {
            t0.rows[idx].values[i]
        } else {
            ws[k - 2][i]
        }));
        lemma_clock_monotonic_step(tp, sp, pk, i, ws[k - 1]);
        let (t1, s1) = local_update_spec(tp, sp, pk, pk, ws[k - 1]);
        let sk = commit_spec(s1);
        // frame facts the step lemma does not carry, read off the update
        // transition itself
        assert(t1.rows[idx].sentinel == tp.rows[idx].sentinel);
        assert(t1.rows[idx].values == ws[k - 1]);
        assert forall|c: int|
            0 <= c < t0.n_cols && c != i implies #[trigger] t1.rows[idx].cols[c]
            == t0.rows[idx].cols[c] by {
            assert(tp.rows[idx].values[c] == t0.rows[idx].values[c]);
            assert(ws[k - 1][c] == t0.rows[idx].values[c]);
            assert(t1.rows[idx].cols[c] == tp.rows[idx].cols[c]);
        }
        assert(row_headroom(t1.rows[idx], t1.n_cols)) by {
            assert forall|c: int|
                0 <= c < t1.n_cols implies match #[trigger] t1.rows[idx].cols[c] {
                Some(cc) => cc.col_version < i64::MAX,
                None => true,
            } by {
                if c != i {
                    assert(t1.rows[idx].cols[c] == t0.rows[idx].cols[c]);
                }
            }
        }
    }
}

/// A local update that leaves a column's value unchanged leaves that
/// column's clock entry untouched: unwritten columns never appear to have
/// been rewritten, which minimizes change-log growth and is what keeps
/// last-writer arbitration honest for them.
pub proof fn lemma_untouched_columns_keep_their_clocks(
    t0: TableModel,
    s0: Session,
    pk: u64,
    new_vals: Seq<ValueModel>,
)
    requires
        table_wf(t0),
        find_index(t0.rows, pk) >= 0,
        new_vals.len() == t0.n_cols,
    ensures
        ({
            let idx = find_index(t0.rows, pk);
            let (t1, s1) = local_update_spec(t0, s0, pk, pk, new_vals);
            forall|k: int|
                0 <= k < t0.n_cols && t0.rows[idx].values[k] == new_vals[k] ==> (
                #[trigger] t1.rows[idx].cols[k]) == t0.rows[idx].cols[k]
        }),
{
    lemma_find_index_char(t0.rows, pk);
}

/// A primary-key change is a delete of the old identity plus a create of the
/// new one: the old key keeps only an even (tombstone) sentinel with no
/// column entries left, and the new key gets a live sentinel plus fresh
/// version-1 entries exactly for the columns whose value changed — no column
/// history is carried over to the new identity.
pub proof fn lemma_pk_change_is_delete_plus_create(
    t0: TableModel,
    s0: Session,
    pk_old: u64,
    pk_new: u64,
    new_vals: Seq<ValueModel>,
)
    requires
        table_wf(t0),
        session_wf(s0),
        s0.db_version < i64::MAX,
        pk_new != pk_old,
        find_index(t0.rows, pk_old) >= 0,
        find_index(t0.rows, pk_new) == -1,
        new_vals.len() == t0.n_cols,
        ({
            let row = t0.rows[find_index(t0.rows, pk_old)];
            &&& row.present
            &&& row_cl(row) % 2 == 1
            &&& row_cl(row) < i64::MAX - 2
        }),
    ensures
        ({
            let idx_old = find_index(t0.rows, pk_old);
            let nidx = t0.rows.len() as int;
            let (t1, s1) = local_update_spec(t0, s0, pk_old, pk_new, new_vals);
            let old_row = t0.rows[idx_old];
            &&& t1.rows.len() == t0.rows.len() + 1
            // (a) the old identity is retired by a tombstone with no other
            // surviving clock rows
            &&& !t1.rows[idx_old].present
            &&& t1.rows[idx_old].pk == pk_old
            &&& t1.rows[idx_old].sentinel is Some
            &&& row_cl(t1.rows[idx_old]) % 2 == 0
            &&& forall|k: int| 0 <= k < t0.n_cols ==> (#[trigger] t1.rows[idx_old].cols[k]) is None
            // (b) the new identity is live with fresh history: a creation
            // sentinel and version-1 entries exactly for the changed columns
            &&& t1.rows[nidx].present
            &&& t1.rows[nidx].pk == pk_new
            &&& t1.rows[nidx].values == new_vals
            &&& row_cl(t1.rows[nidx]) % 2 == 1
            &&& forall|k: int|
                0 <= k < t0.n_cols ==> ((#[trigger] t1.rows[nidx].cols[k]) is Some <==> old_row.values[k]
                    != new_vals[k])
            &&& forall|k: int|
                0 <= k < t0.n_cols && old_row.values[k] != new_vals[k] ==> (
                #[trigger] t1.rows[nidx].cols[k])->0.col_version == 1
        }),
{
    let idx_old = find_index(t0.rows, pk_old);
    lemma_find_index_char(t0.rows, pk_old);
    let old_row = t0.rows[idx_old];
    let (t1, s1) = local_update_spec(t0, s0, pk_old, pk_new, new_vals);
    match old_row.sentinel {
        Some(st) => {
            assert(st.col_version % 2 == 1);
            assert((st.col_version + 1) % 2 == 0);
        },
        None => {},
    }
}

/// Changes-feed completeness on a fresh single-column table: the first
/// insert of a row yields exactly one feed record — the tracked column at
/// version 1, carrying the inserted value, with the causal length coalesced
/// to 1 since no sentinel entry is stored — and deleting the row afterwards
/// leaves exactly one tombstone record (even causal length) with no
/// per-column records surviving for that key.
pub proof fn lemma_changes_feed_first_insert_then_delete(
    t0: TableModel,
    s0: Session,
    pk: u64,
    vals: Seq<ValueModel>,
)
    requires
        t0.rows.len() == 0,
        t0.n_cols == 1,
        session_wf(s0),
        s0.pending_db_version == -1,
        s0.db_version < i64::MAX - 1,
        s0.seq + 4 <= i64::MAX,
        vals.len() == 1,
    ensures
        ({
            let (t1, s1) = local_insert_spec(t0, s0, pk, vals);
            let s1c = commit_spec(s1);
            let (t2, s2) = local_delete_spec(t1, s1c, pk);
            &&& changes_of(t1) == seq![
                ChangeModel {
                    pk,
                    key: ClockKey::Col(0),
                    value: vals[0],
                    col_version: 1,
                    db_version: (s0.db_version + 1) as i64,
                    site: None,
                    seq: s0.seq,
                    cl: 1,
                },
            ]
            &&& changes_of(t2).len() == 1
            &&& changes_of(t2)[0].key == ClockKey::Sentinel
            &&& changes_of(t2)[0].cl == 2
            &&& changes_of(t2)[0].pk == pk
        }),
{
    let (t1, s1) = local_insert_spec(t0, s0, pk, vals);
    let s1c = commit_spec(s1);
    assert(find_index(t0.rows, pk) == -1);
    let row1 = t1.rows[0];
    assert(row1.sentinel is None);
    assert(row1.cols[0] is Some);
    assert(t1.rows.len() == 1);
    assert(changes_upto(t1, 0) =~= Seq::<ChangeModel>::empty());
    assert(col_changes_upto(row1, 0) =~= Seq::<ChangeModel>::empty());
    assert(row_changes(row1, 1) =~= col_changes_upto(row1, 1));
    assert(changes_of(t1) =~= row_changes(row1, 1));
    assert(changes_of(t1) =~= seq![
        ChangeModel {
            pk,
            key: ClockKey::Col(0),
            value: vals[0],
            col_version: 1,
            db_version: (s0.db_version + 1) as i64,
            site: None,
            seq: s0.seq,
            cl: 1,
        },
    ]);
    assert(row1.pk == pk);
    lemma_find_index_of(t1.rows, pk, 0);
    let (t2, s2) = local_delete_spec(t1, s1c, pk);
    let row2 = t2.rows[0];
    assert(row2.sentinel is Some);
    assert(row2.sentinel->0.col_version == 2);
    assert(row2.cols[0] is None);
    assert(t2.rows.len() == 1);
    assert(changes_upto(t2, 0) =~= Seq::<ChangeModel>::empty());
    assert(col_changes_upto(row2, 0) =~= Seq::<ChangeModel>::empty());
    assert(col_changes_upto(row2, 1) =~= Seq::<ChangeModel>::empty());
    assert(changes_of(t2) =~= row_changes(row2, 1));
    assert(changes_of(t2).len() == 1);
}

/// Applies a change when it wins, keeps the state when it does not.
pub open spec fn merge_outcome(t: TableModel, s: Session, c: ChangeModel) -> (TableModel, Session) {
    match merge_spec(t, s, c) {
        MergeStep::Applied(t2, s2) => (t2, s2),
        _ => (t, s),
    }
}

/// The stored value of column `i` of the row keyed `pk`.
pub open spec fn cell_of(t: TableModel, pk: u64, i: int) -> ValueModel {
    t.rows[find_index(t.rows, pk)].values[i]
}

/// Last-writer-wins determinism: two column writes for the same key and
/// column with equal versions but different values, merged into a fresh
/// replica in either order, converge to the same stored value — the one that
/// sorts later in the deterministic value order — independent of arrival
/// order.
pub proof fn lemma_lww_convergence(
    t0: TableModel,
    s0: Session,
    ci: usize,
    ca: ChangeModel,
    cb: ChangeModel,
)
    requires
        table_wf(t0),
        session_wf(s0),
        s0.db_version < i64::MAX - 1,
        s0.seq < i64::MAX - 1,
        !s0.merge_equal_values,
        change_wf(ca),
        change_wf(cb),
        ca.key == ClockKey::Col(ci),
        cb.key == ClockKey::Col(ci),
        (ci as int) < t0.n_cols,
        ca.pk == cb.pk,
        find_index(t0.rows, ca.pk) == -1,
        ca.col_version == cb.col_version,
        ca.value != cb.value,
    ensures
        ({
            let (ta1, sa1) = merge_outcome(t0, s0, ca);
            let (ta2, sa2) = merge_outcome(ta1, sa1, cb);
            let (tb1, sb1) = merge_outcome(t0, s0, cb);
            let (tb2, sb2) = merge_outcome(tb1, sb1, ca);
            let winner = if value_lt(ca.value, cb.value) {
                cb.value
            } else {
                ca.value
            };
            cell_of(ta2, ca.pk, ci as int) == winner && cell_of(tb2, ca.pk, ci as int) == winner
        }),
{
    lemma_value_trichotomy(ca.value, cb.value);
    lemma_merge_fresh_then_tie(t0, s0, ci, ca, cb);
    lemma_merge_fresh_then_tie(t0, s0, ci, cb, ca);
}

/// Helper: merging a first column change into a replica that has never seen
/// the key applies it; an equal-version different-value change then wins
/// exactly when its value sorts later.
proof fn lemma_merge_fresh_then_tie(
    t0: TableModel,
    s0: Session,
    ci: usize,
    c1: ChangeModel,
    c2: ChangeModel,
)
    requires
        table_wf(t0),
        session_wf(s0),
        s0.db_version < i64::MAX - 1,
        s0.seq < i64::MAX - 1,
        !s0.merge_equal_values,
        change_wf(c1),
        change_wf(c2),
        c1.key == ClockKey::Col(ci),
        c2.key == ClockKey::Col(ci),
        (ci as int) < t0.n_cols,
        c1.pk == c2.pk,
        find_index(t0.rows, c1.pk) == -1,
        c1.col_version == c2.col_version,
        c1.value != c2.value,
    ensures
        ({
            let (t1, s1) = merge_outcome(t0, s0, c1);
            let (t2, s2) = merge_outcome(t1, s1, c2);
            cell_of(t2, c1.pk, ci as int) == (if value_lt(c1.value, c2.value) {
                c2.value
            } else {
                c1.value
            })
        }),
{
    let i = ci as int;
    lemma_value_trichotomy(c1.value, c2.value);
    lemma_find_index_char(t0.rows, c1.pk);
    assert(merge_spec(t0, s0, c1) == merge_apply_col(t0, s0, c1, i));
    let (t1, s1) = merge_outcome(t0, s0, c1);
    let nidx = t0.rows.len() as int;
    assert(t1.rows[nidx].pk == c1.pk);
    assert forall|j: int| 0 <= j < nidx implies (#[trigger] t1.rows[j]).pk != c1.pk by {
        assert(t1.rows[j] == t0.rows[j]);
    }
    lemma_find_index_of(t1.rows, c1.pk, nidx);
    assert(t1.rows[nidx].cols[i] is Some);
    assert(t1.rows[nidx].cols[i]->0.col_version == c1.col_version);
    assert(t1.rows[nidx].values[i] == c1.value);
    assert(t1.rows[nidx].present);
    assert(t1.rows[nidx].sentinel is None);
    if value_lt(c1.value, c2.value) {
        assert(merge_spec(t1, s1, c2) == merge_apply_col(t1, s1, c2, i));
        let (t2, s2) = merge_outcome(t1, s1, c2);
        assert(t2.rows[nidx].pk == c1.pk);
        assert forall|j: int| 0 <= j < nidx implies (#[trigger] t2.rows[j]).pk != c1.pk by {
            assert(t2.rows[j] == t1.rows[j]);
        }
        lemma_find_index_of(t2.rows, c1.pk, nidx);
        assert(t2.rows[nidx].values[i] == c2.value);
    } else {
        assert(!value_lt(t1.rows[nidx].values[i], c2.value));
        assert(merge_spec(t1, s1, c2) is Ignored);
        let (t2, s2) = merge_outcome(t1, s1, c2);
        assert(t2 == t1);
        assert(cell_of(t2, c1.pk, i) == c1.value);
    }
}

/// Merge idempotence: once an incoming change has been applied, applying the
/// identical record again is a no-op — the second application reports that
/// the incoming change did not win (no error, no version bump, no write).
pub proof fn lemma_merge_idempotent(
    t0: TableModel,
    s0: Session,
    c: ChangeModel,
    t1: TableModel,
    s1: Session,
)
    requires
        table_wf(t0),
        session_wf(s0),
        change_wf(c),
        !s0.merge_equal_values,
        merge_spec(t0, s0, c) == MergeStep::Applied(t1, s1),
    ensures
        merge_spec(t1, s1, c) is Ignored,
{
    let idx = find_index(t0.rows, c.pk);
    lemma_find_index_char(t0.rows, c.pk);
    let target = if idx >= 0 {
        idx
    } else {
        t0.rows.len() as int
    };
    assert(t1.rows[target].pk == c.pk);
    assert forall|j: int| 0 <= j < target implies (#[trigger] t1.rows[j]).pk != c.pk by {
        assert(t1.rows[j] == t0.rows[j]);
    }
    lemma_find_index_of(t1.rows, c.pk, target);
    match c.key {
        ClockKey::Sentinel => {
            assert(row_cl(t1.rows[target]) == c.cl);
        },
        ClockKey::Col(ci) => {
            let i = ci as int;
            assert(t1.rows[target].cols[i] is Some);
            assert(t1.rows[target].cols[i]->0.col_version == c.col_version);
            if !(row_cl(t1.rows[target]) % 2 == 0 && c.cl <= row_cl(t1.rows[target])) {
                assert(t1.rows[target].present);
                assert(t1.rows[target].values[i] == c.value);
                lemma_value_trichotomy(t1.rows[target].values[i], c.value);
            }
        },
    }
}

/// All writes of one transaction share a single database version while their
/// sequence ordinals strictly increase: two inserts of distinct fresh keys
/// issued inside the same transaction stamp every clock entry of both rows
/// with the identical database version, and every entry of the second insert
/// carries a strictly larger sequence than every entry of the first.
pub proof fn lemma_single_version_two_inserts(
    t0: TableModel,
    s0: Session,
    pk1: u64,
    pk2: u64,
    v1: Seq<ValueModel>,
    v2: Seq<ValueModel>,
)
    requires
        table_wf(t0),
        session_wf(s0),
        s0.pending_db_version == -1,
        s0.db_version < i64::MAX,
        s0.seq + 2 * t0.n_cols + 2 <= i64::MAX,
        t0.n_cols >= 1,
        pk1 != pk2,
        find_index(t0.rows, pk1) == -1,
        find_index(t0.rows, pk2) == -1,
        v1.len() == t0.n_cols,
        v2.len() == t0.n_cols,
    ensures
        ({
            let (t1, s1) = local_insert_spec(t0, s0, pk1, v1);
            let (t2, s2) = local_insert_spec(t1, s1, pk2, v2);
            let r1 = t2.rows[t0.rows.len() as int];
            let r2 = t2.rows[t0.rows.len() as int + 1];
            &&& forall|k: int|
                0 <= k < t0.n_cols ==> (#[trigger] r1.cols[k])->0.db_version == s0.db_version + 1
            &&& forall|k: int|
                0 <= k < t0.n_cols ==> (#[trigger] r2.cols[k])->0.db_version == s0.db_version + 1
            &&& forall|k1: int, k2: int|
                0 <= k1 < t0.n_cols && 0 <= k2 < t0.n_cols ==> (#[trigger] r1.cols[k1])->0.seq < (
                #[trigger] r2.cols[k2])->0.seq
        }),
{
    lemma_find_index_char(t0.rows, pk1);
    let (t1, s1) = local_insert_spec(t0, s0, pk1, v1);
    let nidx = t0.rows.len() as int;
    assert(t1.rows[nidx].pk == pk1);
    assert forall|j: int| 0 <= j < nidx implies (#[trigger] t1.rows[j]).pk != pk2 by {
        assert(t1.rows[j] == t0.rows[j]);
        lemma_find_index_char(t0.rows, pk2);
    }
    if find_index(t1.rows, pk2) >= 0 {
        lemma_find_index_char(t1.rows, pk2);
        assert(t1.rows[find_index(t1.rows, pk2)].pk == pk2);
        assert(false);
    }
    let (t2, s2) = local_insert_spec(t1, s1, pk2, v2);
    assert(t2.rows[nidx] == t1.rows[nidx]);
}

} // verus!
