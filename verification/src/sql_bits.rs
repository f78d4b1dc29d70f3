use vstd::prelude::*;
use vstd::string::StringExecFns;

verus! {

/// `IF NOT EXISTS` when the flag is set, nothing otherwise.
pub fn ifne_str(if_not_exists: &bool) -> (r: &'static str)
    ensures
        *if_not_exists ==> r@ == "IF NOT EXISTS"@,
        !*if_not_exists ==> r@ == ""@,
{
    if *if_not_exists {
        "IF NOT EXISTS"
    } else {
        ""
    }
}

/// `IF EXISTS` when the flag is set, nothing otherwise.
pub fn if_exists_str(if_exists: &bool) -> (r: &'static str)
    ensures
        *if_exists ==> r@ == "IF EXISTS"@,
        !*if_exists ==> r@ == ""@,
{
    if *if_exists {
        "IF EXISTS"
    } else {
        ""
    }
}

/// `TEMPORARY` when the flag is set, nothing otherwise.
pub fn temp_str(temporary: &bool) -> (r: &'static str)
    ensures
        *temporary ==> r@ == "TEMPORARY"@,
        !*temporary ==> r@ == ""@,
{
    if *temporary {
        "TEMPORARY"
    } else {
        ""
    }
}

/// `UNIQUE` when the flag is set, nothing otherwise.
pub fn unique_str(unique: &bool) -> (r: &'static str)
    ensures
        *unique ==> r@ == "UNIQUE"@,
        !*unique ==> r@ == ""@,
{
    if *unique {
        "UNIQUE"
    } else {
        ""
    }
}

/// The catalog query fetching a table's own `CREATE TABLE` text; `tbl` is
/// interpolated as given (callers pass an already-quoted identifier).
pub fn meta_query(tbl: String) -> (r: String)
    ensures
        r@ == "SELECT sql FROM sqlite_schema WHERE type = 'table' AND tbl_name = "@ + tbl@ + ";"@,
{
    let mut out = String::from_str("SELECT sql FROM sqlite_schema WHERE type = 'table' AND tbl_name = ");
    out.append(tbl.as_str());
    out.append(";");
    proof {
        assert(out@ =~= "SELECT sql FROM sqlite_schema WHERE type = 'table' AND tbl_name = "@
            + tbl@ + ";"@);
    }
    out
}

/// Placeholder for the ordered-collection insert trigger; the feature
/// reserves the hook but installs nothing yet.
pub fn create_insert_oredered_trigger() {
}

/// Placeholder for the ordered-collection update trigger; the feature
/// reserves the hook but installs nothing yet.
pub fn create_update_order_trigger() {
}

} // verus!
