use vstd::prelude::*;
use vstd::string::StringExecFns;

verus! {

/// Current internal format revision, recorded in the bookkeeping table.
pub const CRSQLITE_VERSION: i64 = 130000;

/// Length of a site identifier in bytes.
pub const SITE_ID_LEN: usize = 16;

/// Stamps the version and variant bits onto 16 random bytes so the site
/// identifier reads as a version-4 UUID; all other bits are kept. The
/// randomness itself comes from the caller — this function is a pure,
/// verified transformation of it.
pub fn force_uuid_bits(random: Vec<u8>) -> (r: Vec<u8>)
    requires
        random@.len() == 16,
    ensures
        r@.len() == 16,
        r@[6] == (random@[6] & 0x0f) | 0x40,
        r@[8] == (random@[8] & 0x3f) | 0x80,
        forall|i: int| 0 <= i < 16 && i != 6 && i != 8 ==> r@[i] == random@[i],
        r@[6] >> 4 == 4,
        r@[8] >> 6 == 2,
{
    let mut r = random;
    let b6 = r[6];
    let b8 = r[8];
    let ghost before = r@;
    let _ = r.remove(6);
    r.insert(6, (b6 & 0x0f) | 0x40);
    let _ = r.remove(8);
    r.insert(8, (b8 & 0x3f) | 0x80);
    proof {
        assert(r@ =~= before.update(6, (b6 & 0x0f) | 0x40).update(8, (b8 & 0x3f) | 0x80));
        assert(((b6 & 0x0f) | 0x40) >> 4 == 4) by (bit_vector);
        assert(((b8 & 0x3f) | 0x80) >> 6 == 2) by (bit_vector);
    }
    r
}

/// DDL of the single-row site-identifier table, created once per database;
/// the identifier never changes for the life of the database file.
pub fn create_site_id_table_sql() -> (r: String)
    ensures
        r@
            == "CREATE TABLE \"crsql_site_id\" (site_id BLOB NOT NULL, ordinal INTEGER PRIMARY KEY AUTOINCREMENT); CREATE UNIQUE INDEX crsql_site_id_site_id ON \"crsql_site_id\" (site_id);"@,
{
    String::from_str(
        "CREATE TABLE \"crsql_site_id\" (site_id BLOB NOT NULL, ordinal INTEGER PRIMARY KEY AUTOINCREMENT); CREATE UNIQUE INDEX crsql_site_id_site_id ON \"crsql_site_id\" (site_id);",
    )
}

/// Insert of this database's own site identifier at ordinal 0.
pub fn insert_site_id_sql() -> (r: String)
    ensures
        r@ == "INSERT INTO \"crsql_site_id\" (site_id, ordinal) VALUES (?, 0)"@,
{
    String::from_str("INSERT INTO \"crsql_site_id\" (site_id, ordinal) VALUES (?, 0)")
}

/// Probe for the site-identifier table; its presence marks a database this
/// extension has opened before.
pub fn has_site_id_table_sql() -> (r: String)
    ensures
        r@ == "SELECT 1 FROM sqlite_master WHERE type = 'table' AND tbl_name = 'crsql_site_id'"@,
{
    String::from_str(
        "SELECT 1 FROM sqlite_master WHERE type = 'table' AND tbl_name = 'crsql_site_id'",
    )
}

/// Reads the stored site identifier back.
pub fn select_site_id_sql() -> (r: String)
    ensures
        r@ == "SELECT site_id FROM \"crsql_site_id\" WHERE ordinal = 0"@,
{
    String::from_str("SELECT site_id FROM \"crsql_site_id\" WHERE ordinal = 0")
}

/// DDL of the key/value bookkeeping table.
pub fn create_schema_table_sql() -> (r: String)
    ensures
        r@
            == "CREATE TABLE IF NOT EXISTS \"crsql_master\" (\"key\" TEXT PRIMARY KEY, \"value\" ANY)"@,
{
    String::from_str(
        "CREATE TABLE IF NOT EXISTS \"crsql_master\" (\"key\" TEXT PRIMARY KEY, \"value\" ANY)",
    )
}

/// DDL of the peer-tracking table.
pub fn create_peer_tracking_table_sql() -> (r: String)
    ensures
        r@
            == "CREATE TABLE IF NOT EXISTS crsql_tracked_peers (\"site_id\" BLOB NOT NULL, \"version\" INTEGER NOT NULL, \"seq\" INTEGER DEFAULT 0, \"tag\" INTEGER, \"event\" INTEGER, PRIMARY KEY (\"site_id\", \"tag\", \"event\")) STRICT;"@,
{
    String::from_str(
        "CREATE TABLE IF NOT EXISTS crsql_tracked_peers (\"site_id\" BLOB NOT NULL, \"version\" INTEGER NOT NULL, \"seq\" INTEGER DEFAULT 0, \"tag\" INTEGER, \"event\" INTEGER, PRIMARY KEY (\"site_id\", \"tag\", \"event\")) STRICT;",
    )
}

/// The query listing every clock table, from which the set of tracked
/// tables is re-derived when the schema changes.
pub fn select_clock_tables_sql() -> (r: String)
    ensures
        r@
            == "SELECT tbl_name FROM sqlite_master WHERE type='table' AND tbl_name LIKE '%__crsql_clock'"@,
{
    String::from_str(
        "SELECT tbl_name FROM sqlite_master WHERE type='table' AND tbl_name LIKE '%__crsql_clock'",
    )
}

/// Reads the recorded format revision.
pub fn select_recorded_version_sql() -> (r: String)
    ensures
        r@ == "SELECT value FROM crsql_master WHERE key = 'crsqlite_version'"@,
{
    String::from_str("SELECT value FROM crsql_master WHERE key = 'crsqlite_version'")
}

/// Records the current format revision (bound as the parameter).
pub fn record_version_sql() -> (r: String)
    ensures
        r@ == "INSERT OR REPLACE INTO crsql_master VALUES ('crsqlite_version', ?)"@,
{
    String::from_str("INSERT OR REPLACE INTO crsql_master VALUES ('crsqlite_version', ?)")
}

/// The bookkeeping key under which a named configuration setting is stored.
pub fn config_key(name: &str) -> (r: String)
    ensures
        r@ == "config."@ + name@,
{
    let mut out = String::from_str("config.");
    out.append(name);
    proof {
        assert(out@ =~= "config."@ + name@);
    }
    out
}

/// Persists one configuration setting in the bookkeeping table; key and
/// value are bound as the parameters.
pub fn insert_config_sql() -> (r: String)
    ensures
        r@ == "INSERT OR REPLACE INTO crsql_master VALUES (?, ?) RETURNING value"@,
{
    String::from_str("INSERT OR REPLACE INTO crsql_master VALUES (?, ?) RETURNING value")
}

/// On-load migration decision: a database needs its recorded revision
/// (re)written exactly when it is brand new (no site-identifier table yet)
/// or its recorded revision is older than the current one. A brand-new
/// database needs no upgrade steps; its recorded revision starts current.
pub fn needs_version_write(recorded_version: i64, is_blank_slate: bool) -> (r: bool)
    ensures
        r == (recorded_version < CRSQLITE_VERSION || is_blank_slate),
{
    recorded_version < CRSQLITE_VERSION || is_blank_slate
}

} // verus!
