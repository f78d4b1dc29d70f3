use vstd::prelude::*;

use crate::clock::ClockKey;

verus! {

/// The columns of the public changes interface, in projection order.
#[derive(Clone, Copy, Debug, PartialEq, Eq, Structural)]
pub enum CrsqlChangesColumn {
    Tbl,
    Pk,
    Cid,
    Cval,
    ColVrsn,
    DbVrsn,
    SiteId,
    Cl,
    Sequence,
}

impl CrsqlChangesColumn {
    /// Projection index of the column.
    pub fn index(&self) -> (r: i32)
        ensures
            r == match *self {
                CrsqlChangesColumn::Tbl => 0i32,
                CrsqlChangesColumn::Pk => 1i32,
                CrsqlChangesColumn::Cid => 2i32,
                CrsqlChangesColumn::Cval => 3i32,
                CrsqlChangesColumn::ColVrsn => 4i32,
                CrsqlChangesColumn::DbVrsn => 5i32,
                CrsqlChangesColumn::SiteId => 6i32,
                CrsqlChangesColumn::Cl => 7i32,
                CrsqlChangesColumn::Sequence => 8i32,
            },
    {
        match self {
            CrsqlChangesColumn::Tbl => 0,
            CrsqlChangesColumn::Pk => 1,
            CrsqlChangesColumn::Cid => 2,
            CrsqlChangesColumn::Cval => 3,
            CrsqlChangesColumn::ColVrsn => 4,
            CrsqlChangesColumn::DbVrsn => 5,
            CrsqlChangesColumn::SiteId => 6,
            CrsqlChangesColumn::Cl => 7,
            CrsqlChangesColumn::Sequence => 8,
        }
    }
}

/// The columns of the per-table clock union query, in projection order.
#[derive(Clone, Copy, Debug, PartialEq, Eq, Structural)]
pub enum ClockUnionColumn {
    Tbl,
    Pks,
    Cid,
    ColVrsn,
    DbVrsn,
    SiteId,
    RowId,
    Sequence,
    Cl,
}

impl ClockUnionColumn {
    /// Projection index of the column.
    pub fn index(&self) -> (r: i32)
        ensures
            r == match *self {
                ClockUnionColumn::Tbl => 0i32,
                ClockUnionColumn::Pks => 1i32,
                ClockUnionColumn::Cid => 2i32,
                ClockUnionColumn::ColVrsn => 3i32,
                ClockUnionColumn::DbVrsn => 4i32,
                ClockUnionColumn::SiteId => 5i32,
                ClockUnionColumn::RowId => 6i32,
                ClockUnionColumn::Sequence => 7i32,
                ClockUnionColumn::Cl => 8i32,
            },
    {
        match self {
            ClockUnionColumn::Tbl => 0,
            ClockUnionColumn::Pks => 1,
            ClockUnionColumn::Cid => 2,
            ClockUnionColumn::ColVrsn => 3,
            ClockUnionColumn::DbVrsn => 4,
            ClockUnionColumn::SiteId => 5,
            ClockUnionColumn::RowId => 6,
            ClockUnionColumn::Sequence => 7,
            ClockUnionColumn::Cl => 8,
        }
    }
}

/// What kind of change a feed row represents: an ordinary column write, a
/// row deletion, or a key-only row creation.
#[derive(Clone, Copy, Debug, PartialEq, Eq, Structural)]
pub enum ChangeRowType {
    Update,
    Delete,
    PkOnly,
}

/// Classifies one changes-feed record for a reader: a sentinel record is a
/// deletion when its causal length is even and a key-only creation when it
/// is odd; a column record whose base row has meanwhile disappeared is
/// reported as a deletion too (its value reads null), otherwise it is an
/// ordinary column write.
pub fn classify_change_row(key: ClockKey, cl: i64, row_present: bool) -> (r: ChangeRowType)
    requires
        cl >= 1,
    ensures
        key is Sentinel && cl % 2 == 0 ==> r == ChangeRowType::Delete,
        key is Sentinel && cl % 2 == 1 ==> r == ChangeRowType::PkOnly,
        key is Col && !row_present ==> r == ChangeRowType::Delete,
        key is Col && row_present ==> r == ChangeRowType::Update,
{
    match key {
        ClockKey::Sentinel => {
            if cl % 2 == 0 {
                ChangeRowType::Delete
            } else {
                ChangeRowType::PkOnly
            }
        },
        ClockKey::Col(_) => {
            if !row_present {
                ChangeRowType::Delete
            } else {
                ChangeRowType::Update
            }
        },
    }
}

/// Why a trigger argument vector could not be split.
#[derive(Clone, Copy, Debug, PartialEq, Eq, Structural)]
pub struct PartitionError {
    pub expected: usize,
    pub got: usize,
}

/// Splits the flat argument vector a row trigger receives into the new key
/// values, old key values, new non-key values and old non-key values, in
/// that order; fails when the argument count does not match the table
/// shape.
pub fn partition_values<'a, T>(
    values: &'a [T],
    offset: usize,
    num_pks: usize,
    num_non_pks: usize,
) -> (r: Result<(&'a [T], &'a [T], &'a [T], &'a [T]), PartitionError>)
    requires
        offset + num_pks * 2 + num_non_pks * 2 <= usize::MAX,
    ensures
        match r {
            Ok(parts) => {
                &&& values@.len() == offset + num_pks * 2 + num_non_pks * 2
                &&& parts.0@ == values@.subrange(offset as int, offset + num_pks)
                &&& parts.1@ == values@.subrange(offset + num_pks, offset + num_pks * 2)
                &&& parts.2@ == values@.subrange(
                    offset + num_pks * 2,
                    offset + num_pks * 2 + num_non_pks,
                )
                &&& parts.3@ == values@.subrange(
                    offset + num_pks * 2 + num_non_pks,
                    values@.len() as int,
                )
            },
            Err(e) => values@.len() != offset + num_pks * 2 + num_non_pks * 2 && e.expected
                == offset + num_pks * 2 + num_non_pks * 2 && e.got == values@.len(),
        },
{
    let expected_len = offset + num_pks * 2 + num_non_pks * 2;
    if values.len() != expected_len {
        return Err(PartitionError { expected: expected_len, got: values.len() });
    }
    Ok(
        (
            &values[offset..num_pks + offset],
            &values[num_pks + offset..num_pks * 2 + offset],
            &values[num_pks * 2 + offset..num_pks * 2 + num_non_pks + offset],
            &values[num_pks * 2 + num_non_pks + offset..values.len()],
        ),
    )
}

} // verus!
