use vstd::prelude::*;

verus! {

/// Per-connection replication state: the committed database version, the
/// version memoized for the open transaction, the per-transaction sequence
/// counter and the merge configuration.
///
/// The database version is the logical timestamp of a committing transaction:
/// it is computed at most once per transaction (memoized in
/// `pending_db_version`) so that every write inside one transaction carries
/// the same version, and it is persisted only on commit, so a rolled-back
/// transaction never advances it.
#[derive(Clone, Copy, Debug)]
pub struct Session {
    /// Version of the last committed transaction.
    pub db_version: i64,
    /// Version handed to writes of the open transaction, `-1` before the
    /// first write computes it.
    pub pending_db_version: i64,
    /// Next per-transaction change ordinal.
    pub seq: i64,
    /// When set, a remote write that ties on both version and value is
    /// adopted anyway (refreshing its provenance) instead of being ignored.
    pub merge_equal_values: bool,
}

/// Well-formedness: counters are non-negative and a computed pending version
/// always lies strictly above the committed one.
pub open spec fn session_wf(s: Session) -> bool {
    &&& s.db_version >= 0
    &&& s.seq >= 0
    &&& (s.pending_db_version == -1 || s.pending_db_version > s.db_version)
}

/// Transition of `next_db_version`: reuse the memoized pending version if the
/// transaction already has one, otherwise step past the committed version;
/// in both cases never return less than `provided`.
pub open spec fn next_version_spec(s: Session, provided: i64) -> (Session, i64) {
    let base = if s.pending_db_version >= 0 {
        s.pending_db_version
    } else {
        (s.db_version + 1) as i64
    };
    let v = if provided > base {
        provided
    } else {
        base
    };
    (
        Session { pending_db_version: v, ..s },
        v,
    )
}

/// Transition of `bump_seq`: hand out the current ordinal and advance it.
pub open spec fn bump_seq_spec(s: Session) -> (Session, i64) {
    (
        Session { seq: (s.seq + 1) as i64, ..s },
        s.seq,
    )
}

/// Transition of `commit_transaction`: persist the pending version, if any,
/// and reset the per-transaction state.
pub open spec fn commit_spec(s: Session) -> Session {
    Session {
        db_version: if s.pending_db_version >= 0 {
            s.pending_db_version
        } else {
            s.db_version
        },
        pending_db_version: -1i64,
        seq: 0i64,
        ..s
    }
}

/// Transition of `rollback_transaction`: discard the pending version without
/// ever touching the committed one.
pub open spec fn rollback_spec(s: Session) -> Session {
    Session { pending_db_version: -1i64, seq: 0i64, ..s }
}

impl Session {
    /// Opens a session over a database whose last committed version is
    /// `db_version`.
    pub fn open(db_version: i64) -> (s: Session)
        requires
            db_version >= 0,
        ensures
            s == (Session {
                db_version,
                pending_db_version: -1i64,
                seq: 0i64,
                merge_equal_values: false,
            }),
    {
        Session { db_version, pending_db_version: -1, seq: 0, merge_equal_values: false }
    }

    /// Returns the logical version for the current transaction, computing and
    /// memoizing it on the transaction's first write; `provided` is a floor
    /// used while merging so the local counter never falls below a version
    /// absorbed from a peer. Every call within one transaction with
    /// `provided` at most the memoized value returns the same version.
    pub fn next_db_version(&mut self, provided: i64) -> (v: i64)
        requires
            session_wf(*old(self)),
            old(self).db_version < i64::MAX,
        ensures
            (*final(self), v) == next_version_spec(*old(self), provided),
            session_wf(*final(self)),
            v > old(self).db_version,
            v >= provided,
    {
        let base = if self.pending_db_version >= 0 {
            self.pending_db_version
        } else {
            self.db_version + 1
        };
        let v = if provided > base {
            provided
        } else {
            base
        };
        self.pending_db_version = v;
        v
    }

    /// Hands out the next per-transaction sequence ordinal.
    pub fn bump_seq(&mut self) -> (q: i64)
        requires
            old(self).seq < i64::MAX,
        ensures
            (*final(self), q) == bump_seq_spec(*old(self)),
    {
        let q = self.seq;
        self.seq = self.seq + 1;
        q
    }

    /// Commits the open transaction: the memoized pending version, if one was
    /// computed, becomes the persisted database version.
    pub fn commit_transaction(&mut self)
        ensures
            *final(self) == commit_spec(*old(self)),
            session_wf(*old(self)) ==> session_wf(*final(self)),
    {
        if self.pending_db_version >= 0 {
            self.db_version = self.pending_db_version;
        }
        self.pending_db_version = -1;
        self.seq = 0;
    }

    /// Rolls the open transaction back: the pending version is discarded and
    /// the persisted database version is left exactly as it was.
    pub fn rollback_transaction(&mut self)
        ensures
            *final(self) == rollback_spec(*old(self)),
            final(self).db_version == old(self).db_version,
            session_wf(*old(self)) ==> session_wf(*final(self)),
    {
        self.pending_db_version = -1;
        self.seq = 0;
    }
}

/// Two version requests inside one transaction agree, and their sequence
/// ordinals strictly increase: all writes of a transaction share one database
/// version and are ordered by `seq`.
pub proof fn lemma_single_version_per_transaction(s0: Session)
    requires
        session_wf(s0),
        s0.db_version < i64::MAX,
        s0.seq < i64::MAX,
    ensures
        ({
            let (s1, v1) = next_version_spec(s0, 0);
            let (s2, q1) = bump_seq_spec(s1);
            let (s3, v2) = next_version_spec(s2, 0);
            let (s4, q2) = bump_seq_spec(s3);
            v1 == v2 && q1 < q2
        }),
{
}

/// Versions of distinct committed transactions strictly increase: a write in
/// a later transaction always carries a strictly larger database version.
pub proof fn lemma_version_increases_across_transactions(s0: Session, provided: i64)
    requires
        session_wf(s0),
        provided <= 0,
        s0.pending_db_version == -1,
        s0.db_version < i64::MAX - 1,
    ensures
        ({
            let (s1, v1) = next_version_spec(s0, provided);
            let s2 = commit_spec(s1);
            let (s3, v2) = next_version_spec(s2, provided);
            v2 == v1 + 1 && v2 > v1
        }),
{
}

/// A rolled-back transaction does not advance the persisted version: the next
/// transaction reuses the version the aborted one would have taken.
pub proof fn lemma_rollback_does_not_advance(s0: Session)
    requires
        session_wf(s0),
        s0.pending_db_version == -1,
        s0.db_version < i64::MAX,
    ensures
        ({
            let (s1, v1) = next_version_spec(s0, 0);
            let s2 = rollback_spec(s1);
            let (s3, v2) = next_version_spec(s2, 0);
            v2 == v1 && s2.db_version == s0.db_version
        }),
{
}

} // verus!
