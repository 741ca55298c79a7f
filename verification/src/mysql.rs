//! MySQL dialect strings for the control table and the advisory lock.
//! Only quoting and placeholder syntax differ between backends; the table
//! semantics are identical.

use vstd::prelude::*;
use vstd::string::{StringExecFns, StringSliceAdditionalSpecFns};
use crate::lock::{crc32_of, dec_str, lock_key_of, lock_key_text_of};

verus! {

/// Statement that creates the control table if absent.
#[must_use]
pub fn create_migrator_table_query(table_name: &str) -> (r: String)
    ensures
        r@ == "CREATE TABLE IF NOT EXISTS "@ + table_name@ + " (\n        id INT PRIMARY KEY NOT NULL AUTO_INCREMENT,\n        app VARCHAR(384) NOT NULL,\n        name VARCHAR(384) NOT NULL,\n        applied_time TIMESTAMP NOT NULL DEFAULT CURRENT_TIMESTAMP,\n        UNIQUE (app, name)\n    )"@,
{
    let mut s = String::from_str("CREATE TABLE IF NOT EXISTS ");
    s.append(table_name);
    s.append(" (\n        id INT PRIMARY KEY NOT NULL AUTO_INCREMENT,\n        app VARCHAR(384) NOT NULL,\n        name VARCHAR(384) NOT NULL,\n        applied_time TIMESTAMP NOT NULL DEFAULT CURRENT_TIMESTAMP,\n        UNIQUE (app, name)\n    )");
    s
}

/// Statement that drops the control table if present.
#[must_use]
pub fn drop_table_query(table_name: &str) -> (r: String)
    ensures
        r@ == "DROP TABLE IF EXISTS "@ + table_name@,
{
    let mut s = String::from_str("DROP TABLE IF EXISTS ");
    s.append(table_name);
    s
}

/// Statement that reads the applied identities from the control table.
#[must_use]
pub fn fetch_applied_query(table_name: &str) -> (r: String)
    ensures
        r@ == "SELECT app, name FROM "@ + table_name@,
{
    let mut s = String::from_str("SELECT app, name FROM ");
    s.append(table_name);
    s
}

/// Statement that inserts one applied record.
#[must_use]
pub fn add_migration_query(table_name: &str) -> (r: String)
    ensures
        r@ == "INSERT INTO "@ + table_name@ + "(app, name) VALUES (?, ?)"@,
{
    let mut s = String::from_str("INSERT INTO ");
    s.append(table_name);
    s.append("(app, name) VALUES (?, ?)");
    s
}

/// Statement that deletes one applied record.
#[must_use]
pub fn delete_migration_query(table_name: &str) -> (r: String)
    ensures
        r@ == "DELETE FROM "@ + table_name@ + " WHERE app = ? AND name = ?"@,
{
    let mut s = String::from_str("DELETE FROM ");
    s.append(table_name);
    s.append(" WHERE app = ? AND name = ?");
    s
}

/// Statement that takes the named lock, blocking without timeout.
#[must_use]
pub fn lock_database_query() -> (r: &'static str)
    ensures
        r@ == "SELECT GET_LOCK(?, -1)"@,
{
    "SELECT GET_LOCK(?, -1)"
}

/// Statement that releases the named lock.
#[must_use]
pub fn unlock_database_query() -> (r: &'static str)
    ensures
        r@ == "SELECT RELEASE_LOCK(?)"@,
{
    "SELECT RELEASE_LOCK(?)"
}

/// The advisory-lock key for a database name: its checksum, in decimal.
pub fn lock_id(database_name: &str) -> (r: String)
    ensures
        r@ == dec_str(crc32_of(database_name.spec_bytes()) as nat),
{
    lock_key_text_of(database_name)
}

} // verus!
