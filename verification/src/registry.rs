//! The ordered, versioned migration registry.

use vstd::prelude::*;
use crate::migration::Migration;
use crate::migration::MigrationKind;

verus! {

/// The version-1 script: the schema-definition statements, in the engine's
/// own statement language, that create the session schema. Its structured
/// form is `crate::schema::session_schema`.
pub open spec fn spec_session_script() -> Seq<char> {
    "CREATE TABLE IF NOT EXISTS session (
    id TEXT PRIMARY KEY,
    boat_id TEXT NOT NULL,
    start_date_time TEXT NOT NULL,
    estimated_end_date_time TEXT,
    route_id TEXT,
    end_date_time TEXT,
    incident_id TEXT,
    comment TEXT
);

CREATE TABLE IF NOT EXISTS session_rowers (
    session_id TEXT,
    rower_id TEXT,
    PRIMARY KEY (session_id, rower_id),
    FOREIGN KEY (session_id) REFERENCES session (id) ON DELETE CASCADE
);

CREATE INDEX IF NOT EXISTS idx_session_rowers_rower_id ON session_rowers (rower_id);

CREATE INDEX IF NOT EXISTS idx_session_rowers_session_id ON session_rowers (session_id);
"@
}

/// The definitive ordered list of schema migrations for the local database.
/// Records stand in strictly ascending version order, so versions are
/// unique. The registry is assembled once at startup and handed, together
/// with the connection identifier, to the database engine, which applies
/// every record newer than the version the database has recorded.
pub struct Registry {
    pub records: Vec<Migration>,
}

impl Registry {
    /// Every record is well formed and versions strictly ascend in registry
    /// order.
    pub open spec fn wf(self) -> bool {
        &&& forall|i: int| 0 <= i < self.records@.len() ==> (#[trigger] self.records@[i]).wf()
        &&& forall|i: int, j: int|
            0 <= i < j < self.records@.len() ==> (#[trigger] self.records@[i]).version < (
            #[trigger] self.records@[j]).version
    }

    /// The highest version the registry declares; 0 when it is empty.
    pub open spec fn spec_last_version(self) -> u64 {
        if self.records@.len() == 0 {
            0u64
        } else {
            self.records@.last().version
        }
    }

    /// An empty registry.
    pub fn new() -> (r: Registry)
        ensures
            r.records@.len() == 0,
            r.wf(),
            r.spec_last_version() == 0,
    {
        Registry { records: Vec::new() }
    }

    /// The highest version the registry declares; 0 when it is empty.
    pub fn last_version(&self) -> (v: u64)
        ensures
            v == self.spec_last_version(),
    {
        if self.records.len() == 0 {
            0
        } else {
            self.records[self.records.len() - 1].version
        }
    }

    /// Appends a record, refusing one that is malformed or whose version
    /// does not exceed every version already present. This is the
    /// uniqueness check that keeps duplicate or conflicting versions out of
    /// a deployed registry.
    pub fn add(&mut self, m: Migration) -> (ok: bool)
        requires
            old(self).wf(),
        ensures
            ok <==> (m.wf() && m.version > old(self).spec_last_version()),
            ok ==> final(self).records@ == old(self).records@.push(m),
            !ok ==> final(self).records@ == old(self).records@,
            final(self).wf(),
            final(self).spec_last_version() == (if ok {
                m.version
            } else {
                old(self).spec_last_version()
            }),
    {
        let accept = m.version >= 1 && matches!(m.kind, MigrationKind::Up) && m.version
            > self.last_version();
        if accept {
            proof {
                let s = self.records@;
                assert forall|i: int| 0 <= i < s.len() implies (#[trigger] s[i]).version
                    <= self.spec_last_version() by {
                    if i < s.len() - 1 {
                        assert(s[i].version < s[s.len() - 1].version);
                    }
                }
            }
            let ghost prior = self.records@;
            self.records.push(m);
            proof {
                let t = self.records@;
                assert forall|i: int, j: int| 0 <= i < j < t.len() implies (
                #[trigger] t[i]).version < (#[trigger] t[j]).version by {
                    if j < t.len() - 1 {
                        assert(prior[i].version < prior[j].version);
                    } else {
                        assert(prior[i].version <= old(self).spec_last_version());
                    }
                }
            }
            true
        } else {
            false
        }
    }

    /// The registry this application declares: a single forward migration,
    /// version 1, whose script creates the session schema.
    pub fn session_registry() -> (r: Registry)
        ensures
            r.wf(),
            r.records@.len() == 1,
            r.records@[0].version == 1,
            r.records@[0].kind == MigrationKind::Up,
            r.records@[0].description@ == "create_session_tables"@,
            r.records@[0].script@ == spec_session_script(),
            r.spec_last_version() == 1,
    {
        let record = Migration {
            version: 1,
            description: "create_session_tables".to_owned(),
            script: "CREATE TABLE IF NOT EXISTS session (
    id TEXT PRIMARY KEY,
    boat_id TEXT NOT NULL,
    start_date_time TEXT NOT NULL,
    estimated_end_date_time TEXT,
    route_id TEXT,
    end_date_time TEXT,
    incident_id TEXT,
    comment TEXT
);

CREATE TABLE IF NOT EXISTS session_rowers (
    session_id TEXT,
    rower_id TEXT,
    PRIMARY KEY (session_id, rower_id),
    FOREIGN KEY (session_id) REFERENCES session (id) ON DELETE CASCADE
);

CREATE INDEX IF NOT EXISTS idx_session_rowers_rower_id ON session_rowers (rower_id);

CREATE INDEX IF NOT EXISTS idx_session_rowers_session_id ON session_rowers (session_id);
".to_owned(),
            kind: MigrationKind::Up,
        };
        let mut records: Vec<Migration> = Vec::new();
        records.push(record);
        Registry { records }
    }
}

/// Law: in a well-formed registry the versions are strictly ascending in
/// registry order, and therefore pairwise distinct.
pub proof fn lemma_registry_versions_unique(r: Registry)
    requires
        r.wf(),
    ensures
        forall|i: int, j: int|
            0 <= i < j < r.records@.len() ==> (#[trigger] r.records@[i]).version < (
            #[trigger] r.records@[j]).version,
        forall|i: int, j: int|
            0 <= i < j < r.records@.len() ==> (#[trigger] r.records@[i]).version != (
            #[trigger] r.records@[j]).version,
{
}

} // verus!
