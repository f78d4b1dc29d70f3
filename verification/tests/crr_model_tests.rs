use crsqlite::clock::{ChangeRecord, ClockKey, CrrTable};
use crsqlite::merge::MergeError;
use crsqlite::session::Session;
use crsqlite::values::ColumnValue;

fn text(s: &[u8]) -> ColumnValue {
    ColumnValue::Text(s.to_vec())
}

fn col_change(pk: u64, col: usize, value: ColumnValue, col_version: i64, db_version: i64, site: u64) -> ChangeRecord {
    ChangeRecord {
        pk,
        key: ClockKey::Col(col),
        value,
        col_version,
        db_version,
        site: Some(site),
        seq: 0,
        cl: 1,
    }
}

/// Clock monotonicity: repeated local writes to the same column in separate
/// transactions bump the column version by exactly 1 each time while the
/// database version strictly increases.
#[test]
fn clock_monotonic_over_transactions() {
    let mut t = CrrTable::new(1);
    let mut s = Session::open(0);
    t.local_insert(&mut s, 1, vec![text(b"v0")]);
    s.commit_transaction();

    let mut last_db_version = 0i64;
    for n in 1..=5i64 {
        let val = ColumnValue::Integer(n);
        t.local_update(&mut s, 1, 1, vec![val]);
        s.commit_transaction();
        let row = &t.rows[0];
        let stamp = row.cols[0].expect("column entry must exist");
        assert_eq!(stamp.col_version, n + 1, "one increment per write");
        assert!(stamp.db_version > last_db_version, "db version strictly increases");
        last_db_version = stamp.db_version;
    }
}

/// Single version per transaction: writes to different rows inside one
/// transaction share a database version but take distinct, increasing
/// sequence ordinals.
#[test]
fn single_version_within_transaction() {
    let mut t = CrrTable::new(2);
    let mut s = Session::open(0);
    t.local_insert(&mut s, 1, vec![text(b"a"), text(b"b")]);
    t.local_insert(&mut s, 2, vec![text(b"c"), text(b"d")]);

    let r1 = &t.rows[0];
    let r2 = &t.rows[1];
    let mut seqs: Vec<i64> = Vec::new();
    for c in r1.cols.iter().chain(r2.cols.iter()) {
        let stamp = c.expect("entry");
        assert_eq!(stamp.db_version, 1, "both inserts share the transaction's version");
        seqs.push(stamp.seq);
    }
    for w in seqs.windows(2) {
        assert!(w[0] < w[1], "sequence strictly increases across the transaction");
    }
    s.commit_transaction();
    assert_eq!(s.db_version, 1);
}

/// A primary-key change behaves as delete-of-old-identity plus
/// create-of-new-identity: the old key keeps only an even tombstone
/// sentinel, the new key starts fresh history.
#[test]
fn pk_change_is_delete_plus_create() {
    let mut t = CrrTable::new(2);
    let mut s = Session::open(0);
    t.local_insert(&mut s, 1, vec![text(b"a"), text(b"b")]);
    s.commit_transaction();

    // change the key 1 -> 9 and one of the two columns
    t.local_update(&mut s, 1, 9, vec![text(b"a"), text(b"x")]);
    s.commit_transaction();

    let old_row = t.rows.iter().find(|r| r.pk == 1).expect("old identity kept as tombstone");
    assert!(!old_row.present);
    let sent = old_row.sentinel.expect("tombstone sentinel");
    assert_eq!(sent.col_version % 2, 0, "tombstone causal length is even");
    assert!(old_row.cols.iter().all(|c| c.is_none()), "no other clock rows survive");

    let new_row = t.rows.iter().find(|r| r.pk == 9).expect("new identity");
    assert!(new_row.present);
    let created = new_row.sentinel.expect("creation sentinel");
    assert_eq!(created.col_version % 2, 1, "live causal length is odd");
    // only the changed column has history, and it starts at version 1
    assert!(new_row.cols[0].is_none(), "unchanged column history is not carried over");
    let changed = new_row.cols[1].expect("changed column entry");
    assert_eq!(changed.col_version, 1);
    match &new_row.values[1] {
        ColumnValue::Text(b) => assert_eq!(b, b"x"),
        _ => panic!("wrong value"),
    }
}

/// Untouched columns are untouched: updating one column leaves the other
/// column's clock entry exactly as it was.
#[test]
fn update_touches_only_changed_columns() {
    let mut t = CrrTable::new(2);
    let mut s = Session::open(0);
    t.local_insert(&mut s, 1, vec![text(b"a"), text(b"b")]);
    s.commit_transaction();
    let untouched_before = t.rows[0].cols[0].unwrap();

    t.local_update(&mut s, 1, 1, vec![text(b"a"), text(b"changed")]);
    s.commit_transaction();

    assert_eq!(t.rows[0].cols[0].unwrap(), untouched_before);
    assert_eq!(t.rows[0].cols[1].unwrap().col_version, 2);
}

/// LWW determinism: equal-version writes with different values converge to
/// the same winner on every replica, independent of arrival order.
#[test]
fn lww_convergence_both_orders() {
    let ca = col_change(1, 0, text(b"A"), 1, 1, 100);
    let cb = col_change(1, 0, text(b"B"), 1, 1, 200);

    let mut t1 = CrrTable::new(1);
    let mut s1 = Session::open(0);
    assert_eq!(t1.merge_change(&mut s1, &ca), Ok(true));
    assert_eq!(t1.merge_change(&mut s1, &cb), Ok(true), "\"B\" sorts after \"A\" and wins");

    let mut t2 = CrrTable::new(1);
    let mut s2 = Session::open(0);
    assert_eq!(t2.merge_change(&mut s2, &cb), Ok(true));
    assert_eq!(t2.merge_change(&mut s2, &ca), Ok(false), "\"A\" loses the tie-break");

    for t in [&t1, &t2] {
        match &t.rows[0].values[0] {
            ColumnValue::Text(b) => assert_eq!(b, b"B", "both replicas store the same winner"),
            _ => panic!("wrong value"),
        }
    }
}

/// Merge idempotence: applying the identical change twice reports no win
/// the second time and leaves every field of the state unchanged.
#[test]
fn merge_idempotent() {
    let c = col_change(7, 0, text(b"payload"), 3, 9, 42);
    let mut t = CrrTable::new(1);
    let mut s = Session::open(0);
    assert_eq!(t.merge_change(&mut s, &c), Ok(true));
    let row_snapshot = (t.rows[0].pk, t.rows[0].present, t.rows[0].sentinel, t.rows[0].cols.clone());
    let session_snapshot = (s.db_version, s.pending_db_version, s.seq);

    assert_eq!(t.merge_change(&mut s, &c), Ok(false), "second application must not win");
    assert_eq!(t.rows.len(), 1);
    assert_eq!((t.rows[0].pk, t.rows[0].present, t.rows[0].sentinel, t.rows[0].cols.clone()), row_snapshot);
    assert_eq!((s.db_version, s.pending_db_version, s.seq), session_snapshot);
    assert_eq!(t.rows[0].cols[0].unwrap().col_version, 3, "no version bump");
}

/// The merged-in database version never lets the local counter fall behind
/// a peer: the clock entry lands at least at the incoming version.
#[test]
fn merge_absorbs_remote_db_version() {
    let c = col_change(1, 0, text(b"v"), 1, 500, 9);
    let mut t = CrrTable::new(1);
    let mut s = Session::open(3);
    assert_eq!(t.merge_change(&mut s, &c), Ok(true));
    let stamp = t.rows[0].cols[0].unwrap();
    assert!(stamp.db_version >= 500);
    s.commit_transaction();
    assert!(s.db_version >= 500, "local counter stays ahead of what it absorbed");
}

/// A stale incoming version loses; a newer one wins.
#[test]
fn merge_version_ordering() {
    let mut t = CrrTable::new(1);
    let mut s = Session::open(0);
    assert_eq!(t.merge_change(&mut s, &col_change(1, 0, text(b"v3"), 3, 1, 9)), Ok(true));
    assert_eq!(t.merge_change(&mut s, &col_change(1, 0, text(b"v2"), 2, 1, 9)), Ok(false));
    assert_eq!(t.merge_change(&mut s, &col_change(1, 0, text(b"v4"), 4, 1, 9)), Ok(true));
    match &t.rows[0].values[0] {
        ColumnValue::Text(b) => assert_eq!(b, b"v4"),
        _ => panic!("wrong value"),
    }
}

/// A change naming a column the table does not have is a typed error and
/// leaves the state untouched.
#[test]
fn merge_unknown_column_is_error() {
    let mut t = CrrTable::new(1);
    let mut s = Session::open(0);
    let c = col_change(1, 3, text(b"x"), 1, 1, 9);
    assert_eq!(t.merge_change(&mut s, &c), Err(MergeError::UnknownColumn));
    assert_eq!(t.rows.len(), 0);
}

/// An equal-version tie that needs the stored value requires the base row
/// to exist: clock entries without a row are corrupted state.
#[test]
fn merge_missing_row_is_error() {
    let mut t = CrrTable::new(1);
    let mut s = Session::open(0);
    assert_eq!(t.merge_change(&mut s, &col_change(1, 0, text(b"x"), 2, 1, 9)), Ok(true));
    // simulate externally-bypassed state: the base row vanished
    t.rows[0].present = false;
    let tie = col_change(1, 0, text(b"y"), 2, 1, 10);
    assert_eq!(t.merge_change(&mut s, &tie), Err(MergeError::RowMissing));
}

/// Changes-feed completeness: one insert into a table with a single non-key
/// column yields exactly one change record, at column version 1 with the
/// causal length coalesced to 1; after a delete the feed holds a tombstone
/// record and no per-column records for that key.
#[test]
fn changes_feed_completeness() {
    let mut t = CrrTable::new(1);
    let mut s = Session::open(0);
    t.local_insert(&mut s, 1, vec![text(b"a")]);
    s.commit_transaction();

    let feed = t.changes();
    assert_eq!(feed.len(), 1, "exactly one record for the single tracked column");
    let rec = &feed[0];
    assert_eq!(rec.pk, 1);
    assert_eq!(rec.key, ClockKey::Col(0));
    assert_eq!(rec.col_version, 1);
    assert_eq!(rec.cl, 1, "causal length coalesces to 1 with no stored sentinel");
    match &rec.value {
        ColumnValue::Text(b) => assert_eq!(b, b"a"),
        _ => panic!("wrong value"),
    }

    t.local_delete(&mut s, 1);
    s.commit_transaction();
    let feed = t.changes();
    assert_eq!(feed.len(), 1, "only the tombstone remains");
    let rec = &feed[0];
    assert_eq!(rec.key, ClockKey::Sentinel);
    assert_eq!(rec.cl % 2, 0, "deleted rows carry an even causal length");
    assert_eq!(rec.cl, 2);
}

/// A key-only table records creation as a single sentinel entry, and a
/// remote creation record replays as an idempotent insert.
#[test]
fn pk_only_table_round_trip() {
    let mut t = CrrTable::new(0);
    let mut s = Session::open(0);
    t.local_insert(&mut s, 5, vec![]);
    s.commit_transaction();

    let feed = t.changes();
    assert_eq!(feed.len(), 1);
    assert_eq!(feed[0].key, ClockKey::Sentinel);
    assert_eq!(feed[0].cl, 1, "live causal length");

    // replay on a second replica
    let mut t2 = CrrTable::new(0);
    let mut s2 = Session::open(0);
    let rec = ChangeRecord {
        pk: feed[0].pk,
        key: feed[0].key,
        value: ColumnValue::Null,
        col_version: feed[0].col_version,
        db_version: feed[0].db_version,
        site: Some(1),
        seq: feed[0].seq,
        cl: feed[0].cl,
    };
    assert_eq!(t2.merge_change(&mut s2, &rec), Ok(true));
    assert!(t2.rows[0].present);
    assert_eq!(t2.merge_change(&mut s2, &rec), Ok(false), "replay is idempotent");
}

/// A remote tombstone wins over older column history, deletes the base row
/// and drops the column entries; re-creation resurrects the row.
#[test]
fn remote_delete_and_resurrect() {
    let mut t = CrrTable::new(1);
    let mut s = Session::open(0);
    t.local_insert(&mut s, 1, vec![text(b"a")]);
    s.commit_transaction();

    let tombstone = ChangeRecord {
        pk: 1,
        key: ClockKey::Sentinel,
        value: ColumnValue::Null,
        col_version: 2,
        db_version: 4,
        site: Some(7),
        seq: 0,
        cl: 2,
    };
    assert_eq!(t.merge_change(&mut s, &tombstone), Ok(true));
    assert!(!t.rows[0].present);
    assert!(t.rows[0].cols.iter().all(|c| c.is_none()));

    // a column change that does not causally supersede the tombstone loses
    let stale = col_change(1, 0, text(b"late"), 9, 9, 9);
    assert_eq!(t.merge_change(&mut s, &stale), Ok(false));

    let resurrect = ChangeRecord { cl: 3, col_version: 3, ..tombstone };
    assert_eq!(t.merge_change(&mut s, &resurrect), Ok(true));
    assert!(t.rows[0].present);
}

/// Re-inserting a deleted row locally steps the causal length back to odd.
#[test]
fn local_reinsert_resurrects() {
    let mut t = CrrTable::new(1);
    let mut s = Session::open(0);
    t.local_insert(&mut s, 1, vec![text(b"a")]);
    s.commit_transaction();
    t.local_delete(&mut s, 1);
    s.commit_transaction();
    assert_eq!(t.rows[0].sentinel.unwrap().col_version, 2);

    t.local_insert(&mut s, 1, vec![text(b"again")]);
    s.commit_transaction();
    assert!(t.rows[0].present);
    assert_eq!(t.rows[0].sentinel.unwrap().col_version % 2, 1, "live again");
}

/// A rolled-back transaction does not advance the persisted version.
#[test]
fn rollback_keeps_version() {
    let mut t = CrrTable::new(1);
    let mut s = Session::open(0);
    t.local_insert(&mut s, 1, vec![text(b"a")]);
    s.commit_transaction();
    let committed = s.db_version;

    t.local_update(&mut s, 1, 1, vec![text(b"b")]);
    s.rollback_transaction();
    assert_eq!(s.db_version, committed, "rollback must not advance the counter");
}
