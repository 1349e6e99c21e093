//! One versioned schema-change record.

use vstd::prelude::*;

verus! {

/// Direction of a schema migration: forward application ("Up") or rollback
/// ("Down"). The registry declared by this library is forward-only.
#[derive(Clone, Copy, PartialEq, Eq, Structural, Debug)]
pub enum MigrationKind {
    Up,
    Down,
}

/// One versioned schema change. The `version` orders records inside a
/// registry and is persisted by the database engine to track which records
/// have already been applied; the `script` is a block of schema-definition
/// statements in the engine's own statement language, run verbatim by the
/// engine; the `description` is a label and is never interpreted.
pub struct Migration {
    pub version: u64,
    pub description: String,
    pub script: String,
    pub kind: MigrationKind,
}

impl Migration {
    /// A record is well formed when its version is positive and it is a
    /// forward migration.
    pub open spec fn wf(self) -> bool {
        &&& self.version >= 1
        &&& self.kind == MigrationKind::Up
    }
}

} // verus!
