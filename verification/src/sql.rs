//! The statements sent to the key-value tables of snapshots.

use vstd::prelude::*;
use crate::text::concat;

verus! {

/// The statement that creates the key-value table `table` if it is
/// missing.
pub open spec fn create_kv_table_text(table: Seq<char>) -> Seq<char> {
    "CREATE TABLE IF NOT EXISTS "@ + table
        + " (\n                    k   VARCHAR PRIMARY KEY,\n                    v   VARCHAR NOT NULL\n                  )"@
}

/// The statement that creates the key-value table `table` if it is
/// missing.
pub fn create_kv_table_sql(table: &str) -> (r: String)
    ensures
        r@ == create_kv_table_text(table@),
{
    let head = concat("CREATE TABLE IF NOT EXISTS ", table);
    concat(
        head.as_str(),
        " (\n                    k   VARCHAR PRIMARY KEY,\n                    v   VARCHAR NOT NULL\n                  )",
    )
}

/// The statement that writes the pair `($1, $2)` into `table`, replacing
/// the value of a key that is already there.
pub open spec fn upsert_kv_text(table: Seq<char>) -> Seq<char> {
    "INSERT INTO "@ + table + " (k, v) VALUES ($1, $2) ON CONFLICT (k) DO UPDATE SET v=EXCLUDED.v"@
}

/// The statement that writes the pair `($1, $2)` into `table`, replacing
/// the value of a key that is already there.
pub fn upsert_kv_sql(table: &str) -> (r: String)
    ensures
        r@ == upsert_kv_text(table@),
{
    let head = concat("INSERT INTO ", table);
    concat(head.as_str(), " (k, v) VALUES ($1, $2) ON CONFLICT (k) DO UPDATE SET v=EXCLUDED.v")
}

/// The statement that reads every pair of `table`.
pub open spec fn select_kv_text(table: Seq<char>) -> Seq<char> {
    "SELECT k, v FROM "@ + table
}

/// The statement that reads every pair of `table`.
pub fn select_kv_sql(table: &str) -> (r: String)
    ensures
        r@ == select_kv_text(table@),
{
    concat("SELECT k, v FROM ", table)
}

} // verus!
