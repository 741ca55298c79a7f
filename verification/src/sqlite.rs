//! SQLite dialect strings for the control table. Only quoting and
//! placeholder syntax differ between backends; the table semantics are
//! identical. This backend has no advisory-lock primitive: locking is a
//! documented no-op, on the assumption that one migration runner is deployed
//! against such a database at a time.

use vstd::prelude::*;
use vstd::string::StringExecFns;

verus! {

/// Statement that creates the control table if absent.
#[must_use]
pub fn create_migrator_table_query(table_name: &str) -> (r: String)
    ensures
        r@ == "CREATE TABLE IF NOT EXISTS "@ + table_name@ + " (\n        id INTEGER PRIMARY KEY AUTOINCREMENT,\n        app TEXT NOT NULL,\n        name TEXT NOT NULL,\n        applied_time TIMESTAMP NOT NULL DEFAULT CURRENT_TIMESTAMP,\n        UNIQUE (app, name)\n    )"@,
{
    let mut s = String::from_str("CREATE TABLE IF NOT EXISTS ");
    s.append(table_name);
    s.append(" (\n        id INTEGER PRIMARY KEY AUTOINCREMENT,\n        app TEXT NOT NULL,\n        name TEXT NOT NULL,\n        applied_time TIMESTAMP NOT NULL DEFAULT CURRENT_TIMESTAMP,\n        UNIQUE (app, name)\n    )");
    s
}

/// Statement that drops the control table if present.
#[must_use]
pub fn drop_table_query(table_name: &str) -> (r: String)
    ensures
        r@ == "DROP TABLE IF EXISTS "@ + table_name@,
{
    let mut s = String::from_str("DROP TABLE IF EXISTS ");
    s.append(table_name);
    s
}

/// Statement that reads the applied identities from the control table.
#[must_use]
pub fn fetch_applied_query(table_name: &str) -> (r: String)
    ensures
        r@ == "SELECT app, name FROM "@ + table_name@,
{
    let mut s = String::from_str("SELECT app, name FROM ");
    s.append(table_name);
    s
}

/// Statement that inserts one applied record.
#[must_use]
pub fn add_migration_query(table_name: &str) -> (r: String)
    ensures
        r@ == "INSERT INTO "@ + table_name@ + "(app, name) VALUES ($1, $2)"@,
{
    let mut s = String::from_str("INSERT INTO ");
    s.append(table_name);
    s.append("(app, name) VALUES ($1, $2)");
    s
}

/// Statement that deletes one applied record.
#[must_use]
pub fn delete_migration_query(table_name: &str) -> (r: String)
    ensures
        r@ == "DELETE FROM "@ + table_name@ + " WHERE app = $1 AND name = $2"@,
{
    let mut s = String::from_str("DELETE FROM ");
    s.append(table_name);
    s.append(" WHERE app = $1 AND name = $2");
    s
}

} // verus!
