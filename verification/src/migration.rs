//! Migration identity and the node type registered by the host.

use vstd::prelude::*;

verus! {

/// Natural key of a migration: an application label and a migration name,
/// globally unique among registered migrations.
#[derive(Debug)]
pub struct MigrationId {
    /// Application the migration belongs to.
    pub app: String,
    /// Name of the migration, unique within its application.
    pub name: String,
}

impl View for MigrationId {
    type V = (Seq<char>, Seq<char>);

    open spec fn view(&self) -> (Seq<char>, Seq<char>) {
        (self.app@, self.name@)
    }
}

impl MigrationId {
    /// Build an identity from its two string parts.
    pub fn new(app: String, name: String) -> (r: MigrationId)
        ensures
            r@ == (app@, name@),
    {
        MigrationId { app, name }
    }
}

impl Clone for MigrationId {
    fn clone(&self) -> (r: Self)
        ensures
            r@ == self@,
    {
        MigrationId { app: self.app.clone(), name: self.name.clone() }
    }
}

impl PartialEq for MigrationId {
    fn eq(&self, other: &Self) -> (r: bool) {
        self.app == other.app && self.name == other.name
    }
}

impl vstd::std_specs::cmp::PartialEqSpecImpl for MigrationId {
    open spec fn obeys_eq_spec() -> bool {
        true
    }

    open spec fn eq_spec(&self, other: &Self) -> bool {
        self@ == other@
    }
}

/// One registered migration: its identity, the identities of the migrations
/// that must be applied before it, and how many forward/backward operation
/// pairs it carries. The operations themselves are host code; the engine
/// addresses them by their declared position.
pub struct MigrationNode {
    /// Identity of this migration.
    pub id: MigrationId,
    /// Identities of the migrations this one depends on.
    pub parents: Vec<MigrationId>,
    /// Number of operations the migration declares, executed in order.
    pub op_count: usize,
}

impl MigrationNode {
    /// Build a node from its identity, parent identities and operation count.
    pub fn new(id: MigrationId, parents: Vec<MigrationId>, op_count: usize) -> (r: MigrationNode)
        ensures
            r.id@ == id@,
            r.parents@ == parents@,
            r.op_count == op_count,
    {
        MigrationNode { id, parents, op_count }
    }
}

} // verus!
