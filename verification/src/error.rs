//! Typed failures of the migration engine. Every engine operation returns
//! either success or exactly one of these variants.

use vstd::prelude::*;
use crate::migration::MigrationId;

verus! {

/// One failure of graph validation, planning, or execution.
#[derive(Debug)]
pub enum Error {
    /// Two registered migrations share the named identity.
    DuplicateIdentity(MigrationId),
    /// A migration declares a parent that is not among the registered nodes.
    MissingParent {
        /// The migration whose declaration is at fault.
        child: MigrationId,
        /// The declared parent that is not registered.
        parent: MigrationId,
    },
    /// The declared dependencies contain a cycle; the listed ids lie on it.
    Cycle(Vec<MigrationId>),
    /// A revert target still has an applied dependent.
    Dependency {
        /// The migration that was asked to be reverted.
        target: MigrationId,
        /// An applied migration that depends on the target.
        dependent: MigrationId,
    },
    /// A requested plan target is not a registered migration.
    UnknownTarget(MigrationId),
    /// The control table holds an applied record whose identity is absent
    /// from the registered graph.
    StateInconsistency(MigrationId),
    /// An underlying statement, transaction or connectivity failure; kind and
    /// message come from the storage collaborator and are opaque beyond that.
    Storage {
        /// Collaborator-reported kind of the failure.
        kind: String,
        /// Collaborator-reported message.
        message: String,
    },
    /// The advisory lock could not be acquired or released.
    Lock {
        /// Collaborator-reported message.
        message: String,
    },
}

} // verus!
