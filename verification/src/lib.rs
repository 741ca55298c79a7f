//! A database schema migration engine: migrations are registered as code with
//! explicit parent dependencies, validated into an acyclic graph, planned into
//! a deterministic ordered sequence of apply or revert steps, and executed one
//! transaction per step under a database-wide advisory lock.

pub mod engine;
pub mod error;
pub mod lock;
pub mod graph;
pub mod laws;
pub mod migration;
pub mod order;
pub mod mysql;
pub mod plan;
pub mod postgres;
pub mod sqlite;

use vstd::prelude::*;

verus! {

} // verus!
