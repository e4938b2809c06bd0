//! Configuration of the extraction endpoint: per-request row limit,
//! source database path, cursor file path, and the query text that the
//! application runs against the source.

use vstd::prelude::*;

verus! {

/// Default path of the source database file.
pub const SQLLITE_DB_LOCATION: &'static str = "/pihole-FTL.db";

/// Default path of the cursor persistence file.
pub const LOCK_FILE: &'static str = "/last_file_check";

/// The delimiter terminating each output line.
pub const LINE_DELIMITER: &'static str = "\n";

/// The range query the application runs against the source: rows with
/// identifiers above the cursor, ascending, at most the limit of them.
/// The upstream (`forward`) column is selected as it stands; an absent
/// value is normalized in `process_individual_value`, not here.
pub const SQL_QUERY: &'static str = "SELECT
        timestamp,
        type,
        status,
        domain,
        client,
        forward,
        reply_type,
        id
    FROM
        queries
    WHERE
        id > ?1
    ORDER BY
        id
    LIMIT ?2";

/// The extraction settings, with a default for each.
pub struct EnvConfig {
    pub limit: u64,
    pub db_location: String,
    pub lock_file: String,
}

pub fn get_default_limit() -> (r: u64)
    ensures
        r == 5000,
{
    5000
}

pub fn get_default_db_location() -> (r: String)
    ensures
        r@ == SQLLITE_DB_LOCATION@,
{
    SQLLITE_DB_LOCATION.to_owned()
}

pub fn get_default_lock_file_location() -> (r: String)
    ensures
        r@ == LOCK_FILE@,
{
    LOCK_FILE.to_owned()
}

impl Default for EnvConfig {
    /// The settings used where the environment supplies none.
    fn default() -> (c: Self)
        ensures
            c.limit == 5000,
            c.db_location@ == SQLLITE_DB_LOCATION@,
            c.lock_file@ == LOCK_FILE@,
    {
        EnvConfig {
            limit: get_default_limit(),
            db_location: get_default_db_location(),
            lock_file: get_default_lock_file_location(),
        }
    }
}

} // verus!
