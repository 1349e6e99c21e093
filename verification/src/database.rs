//! A model of the local session database: the behaviour the migration
//! registry and the declared schema ask of the database engine.
//!
//! The model keeps the engine's version bookkeeping, the created schema
//! objects, and the rows of the two declared tables, and holds inserts and
//! deletes to the declared constraints: the `session` primary key, the
//! composite `session_rowers` primary key, and the foreign key from
//! `session_rowers.session_id` to `session.id` with cascading deletes.

use vstd::prelude::*;
use crate::registry::Registry;
use crate::schema::SchemaStatement;
use crate::schema::is_session_schema;

verus! {

/// The errors the model engine reports.
#[derive(Clone, Copy, PartialEq, Eq, Structural, Debug)]
pub enum DbError {
    /// A statement addressed a table that does not exist.
    NoSuchTable,
    /// Creation of an object whose name is already taken, without an
    /// existence guard on the statement.
    ObjectExists,
    /// An insert violated a primary-key uniqueness constraint.
    UniqueConstraint,
    /// An insert referenced a parent row that does not exist.
    ForeignKeyConstraint,
}

/// One row of the `session` table.
pub struct SessionRow {
    pub id: String,
    pub boat_id: String,
    pub start_date_time: String,
    pub estimated_end_date_time: Option<String>,
    pub route_id: Option<String>,
    pub end_date_time: Option<String>,
    pub incident_id: Option<String>,
    pub comment: Option<String>,
}

/// One row of the `session_rowers` table.
pub struct SessionRowerRow {
    pub session_id: String,
    pub rower_id: String,
}

fn clone_opt_string(o: &Option<String>) -> (r: Option<String>)
    ensures
        r == *o,
{
    match o {
        Some(s) => Some(s.clone()),
        None => None,
    }
}

impl Clone for SessionRow {
    fn clone(&self) -> (r: Self)
        ensures
            r == *self,
    {
        SessionRow {
            id: self.id.clone(),
            boat_id: self.boat_id.clone(),
            start_date_time: self.start_date_time.clone(),
            estimated_end_date_time: clone_opt_string(&self.estimated_end_date_time),
            route_id: clone_opt_string(&self.route_id),
            end_date_time: clone_opt_string(&self.end_date_time),
            incident_id: clone_opt_string(&self.incident_id),
            comment: clone_opt_string(&self.comment),
        }
    }
}

impl Clone for SessionRowerRow {
    fn clone(&self) -> (r: Self)
        ensures
            r == *self,
    {
        SessionRowerRow { session_id: self.session_id.clone(), rower_id: self.rower_id.clone() }
    }
}

/// Some created object is a table with this name.
pub open spec fn seq_has_table(objects: Seq<SchemaStatement>, name: Seq<char>) -> bool {
    exists|i: int|
        0 <= i < objects.len() && ((#[trigger] objects[i]) matches SchemaStatement::CreateTable(t)
            && t.name@ == name)
}

/// Some created object is an index with this name.
pub open spec fn seq_has_index(objects: Seq<SchemaStatement>, name: Seq<char>) -> bool {
    exists|i: int|
        0 <= i < objects.len() && ((#[trigger] objects[i]) matches SchemaStatement::CreateIndex(x)
            && x.name@ == name)
}

/// What one schema statement does to the created objects. A guarded
/// creation of an existing name is a no-op; an unguarded one is refused; an
/// index needs its table.
pub open spec fn spec_step(objects: Seq<SchemaStatement>, stmt: SchemaStatement) -> Result<
    Seq<SchemaStatement>,
    DbError,
> {
    match stmt {
        SchemaStatement::CreateTable(t) => {
            if seq_has_table(objects, t.name@) {
                if t.if_not_exists {
                    Ok(objects)
                } else {
                    Err(DbError::ObjectExists)
                }
            } else {
                Ok(objects.push(stmt))
            }
        },
        SchemaStatement::CreateIndex(x) => {
            if !seq_has_table(objects, x.table@) {
                Err(DbError::NoSuchTable)
            } else if seq_has_index(objects, x.name@) {
                if x.if_not_exists {
                    Ok(objects)
                } else {
                    Err(DbError::ObjectExists)
                }
            } else {
                Ok(objects.push(stmt))
            }
        },
    }
}

/// A block of statements applied in order, stopping at the first error, as
/// one migration's script runs inside a transaction.
pub open spec fn spec_apply(
    objects: Seq<SchemaStatement>,
    stmts: Seq<SchemaStatement>,
) -> Result<Seq<SchemaStatement>, DbError>
    decreases stmts.len(),
{
    if stmts.len() == 0 {
        Ok(objects)
    } else {
        match spec_step(objects, stmts[0]) {
            Ok(next) => spec_apply(next, stmts.drop_first()),
            Err(e) => Err(e),
        }
    }
}

/// Two created objects of the same kind carry the same name.
pub open spec fn same_object_name(a: SchemaStatement, b: SchemaStatement) -> bool {
    ||| (a matches SchemaStatement::CreateTable(ta) && b matches SchemaStatement::CreateTable(tb)
        && ta.name@ == tb.name@)
    ||| (a matches SchemaStatement::CreateIndex(xa) && b matches SchemaStatement::CreateIndex(xb)
        && xa.name@ == xb.name@)
}

/// No two created tables share a name, and no two created indexes do.
pub open spec fn distinct_object_names(objects: Seq<SchemaStatement>) -> bool {
    forall|i: int, j: int|
        0 <= i < j < objects.len() ==> !same_object_name(
            #[trigger] objects[i],
            #[trigger] objects[j],
        )
}

/// Some session row carries this `id`.
pub open spec fn has_session(rows: Seq<SessionRow>, id: Seq<char>) -> bool {
    exists|i: int| 0 <= i < rows.len() && (#[trigger] rows[i]).id@ == id
}

/// Some rower row carries this `(session_id, rower_id)` pair.
pub open spec fn has_rower_pair(
    rows: Seq<SessionRowerRow>,
    session_id: Seq<char>,
    rower_id: Seq<char>,
) -> bool {
    exists|i: int|
        0 <= i < rows.len() && (#[trigger] rows[i]).session_id@ == session_id
            && rows[i].rower_id@ == rower_id
}

/// The `session` primary key: ids are pairwise distinct.
pub open spec fn distinct_session_ids(rows: Seq<SessionRow>) -> bool {
    forall|i: int, j: int|
        0 <= i < j < rows.len() ==> (#[trigger] rows[i]).id@ != (#[trigger] rows[j]).id@
}

/// The `session_rowers` composite primary key: pairs are pairwise distinct.
pub open spec fn distinct_rower_pairs(rows: Seq<SessionRowerRow>) -> bool {
    forall|i: int, j: int|
        0 <= i < j < rows.len() ==> !((#[trigger] rows[i]).session_id@ == (
        #[trigger] rows[j]).session_id@ && rows[i].rower_id@ == rows[j].rower_id@)
}

/// The foreign key: every rower row references an existing session row.
pub open spec fn rowers_reference_sessions(
    rowers: Seq<SessionRowerRow>,
    sessions: Seq<SessionRow>,
) -> bool {
    forall|i: int|
        0 <= i < rowers.len() ==> has_session(sessions, (#[trigger] rowers[i]).session_id@)
}

/// The session rows left after deleting the row with this `id`.
pub open spec fn sessions_without(rows: Seq<SessionRow>, id: Seq<char>) -> Seq<SessionRow>
    decreases rows.len(),
{
    if rows.len() == 0 {
        Seq::empty()
    } else {
        let rest = sessions_without(rows.drop_last(), id);
        if rows.last().id@ == id {
            rest
        } else {
            rest.push(rows.last())
        }
    }
}

/// The rower rows left after the cascade deletes every row referencing
/// this session `id`.
pub open spec fn rowers_without_session(
    rows: Seq<SessionRowerRow>,
    id: Seq<char>,
) -> Seq<SessionRowerRow>
    decreases rows.len(),
{
    if rows.len() == 0 {
        Seq::empty()
    } else {
        let rest = rowers_without_session(rows.drop_last(), id);
        if rows.last().session_id@ == id {
            rest
        } else {
            rest.push(rows.last())
        }
    }
}

/// The rower rows referencing this session `id`, in table order.
pub open spec fn rowers_of_session(
    rows: Seq<SessionRowerRow>,
    id: Seq<char>,
) -> Seq<SessionRowerRow>
    decreases rows.len(),
{
    if rows.len() == 0 {
        Seq::empty()
    } else {
        let rest = rowers_of_session(rows.drop_last(), id);
        if rows.last().session_id@ == id {
            rest.push(rows.last())
        } else {
            rest
        }
    }
}

/// The model database: the engine's version bookkeeping, the created
/// schema objects in creation order, and the rows of the two declared
/// tables in insertion order.
pub struct Database {
    pub version: u64,
    pub objects: Vec<SchemaStatement>,
    pub sessions: Vec<SessionRow>,
    pub session_rowers: Vec<SessionRowerRow>,
}

/// The two databases hold the same state.
pub open spec fn same_state(a: Database, b: Database) -> bool {
    &&& a.version == b.version
    &&& a.objects@ == b.objects@
    &&& a.sessions@ == b.sessions@
    &&& a.session_rowers@ == b.session_rowers@
}

impl Database {
    /// Everything the declared schema promises of a reachable database
    /// state: object names unique per kind, both primary keys, the foreign
    /// key, and rows only in tables that exist.
    pub open spec fn inv(self) -> bool {
        &&& distinct_object_names(self.objects@)
        &&& distinct_session_ids(self.sessions@)
        &&& distinct_rower_pairs(self.session_rowers@)
        &&& rowers_reference_sessions(self.session_rowers@, self.sessions@)
        &&& self.sessions@.len() > 0 ==> seq_has_table(self.objects@, "session"@)
        &&& self.session_rowers@.len() > 0 ==> seq_has_table(self.objects@, "session_rowers"@)
    }

    /// A fresh database: no recorded version, no objects, no rows.
    pub fn fresh() -> (db: Database)
        ensures
            db.version == 0,
            db.objects@.len() == 0,
            db.sessions@.len() == 0,
            db.session_rowers@.len() == 0,
            db.inv(),
    {
        Database {
            version: 0,
            objects: Vec::new(),
            sessions: Vec::new(),
            session_rowers: Vec::new(),
        }
    }
}

fn string_eq(a: &String, b: &String) -> (r: bool)
    ensures
        r == (a@ == b@),
{
    *a == *b
}

/// Whether a created table carries this name.
fn vec_has_table(objects: &Vec<SchemaStatement>, name: &String) -> (r: bool)
    ensures
        r == seq_has_table(objects@, name@),
{
    let n = objects.len();
    let mut i: usize = 0;
    while i < n
        invariant
            i <= n,
            n == objects@.len(),
            forall|k: int|
                0 <= k < i ==> !((#[trigger] objects@[k]) matches SchemaStatement::CreateTable(t)
                    && t.name@ == name@),
        decreases n - i,
    {
        match &objects[i] {
            SchemaStatement::CreateTable(t) => {
                if string_eq(&t.name, name) {
                    return true;
                }
            },
            SchemaStatement::CreateIndex(_) => {},
        }
        i += 1;
    }
    false
}

/// Whether a created index carries this name.
fn vec_has_index(objects: &Vec<SchemaStatement>, name: &String) -> (r: bool)
    ensures
        r == seq_has_index(objects@, name@),
{
    let n = objects.len();
    let mut i: usize = 0;
    while i < n
        invariant
            i <= n,
            n == objects@.len(),
            forall|k: int|
                0 <= k < i ==> !((#[trigger] objects@[k]) matches SchemaStatement::CreateIndex(x)
                    && x.name@ == name@),
        decreases n - i,
    {
        match &objects[i] {
            SchemaStatement::CreateIndex(x) => {
                if string_eq(&x.name, name) {
                    return true;
                }
            },
            SchemaStatement::CreateTable(_) => {},
        }
        i += 1;
    }
    false
}

/// A table name found among the objects is still found after another
/// object is created.
proof fn lemma_has_table_push(objects: Seq<SchemaStatement>, stmt: SchemaStatement, name: Seq<char>)
    requires
        seq_has_table(objects, name),
    ensures
        seq_has_table(objects.push(stmt), name),
{
    let i = choose|i: int|
        0 <= i < objects.len() && ((#[trigger] objects[i]) matches SchemaStatement::CreateTable(t)
            && t.name@ == name);
    assert(objects.push(stmt)[i] == objects[i]);
}

impl Database {
    /// Runs one schema statement: the executable form of `spec_step`.
    pub fn exec_statement(&mut self, stmt: SchemaStatement) -> (r: Result<(), DbError>)
        requires
            old(self).inv(),
        ensures
            final(self).inv(),
            final(self).version == old(self).version,
            final(self).sessions@ == old(self).sessions@,
            final(self).session_rowers@ == old(self).session_rowers@,
            (match spec_step(old(self).objects@, stmt) {
                Ok(objs) => r == Ok::<(), DbError>(()) && final(self).objects@ == objs,
                Err(e) => r == Err::<(), DbError>(e) && final(self).objects@ == old(self).objects@,
            }),
    {
        let ghost prior = self.objects@;
        match stmt {
            SchemaStatement::CreateTable(t) => {
                if vec_has_table(&self.objects, &t.name) {
                    if t.if_not_exists {
                        Ok(())
                    } else {
                        Err(DbError::ObjectExists)
                    }
                } else {
                    self.objects.push(SchemaStatement::CreateTable(t));
                    proof {
                        self.lemma_push_preserves_inv(prior, *old(self));
                    }
                    Ok(())
                }
            },
            SchemaStatement::CreateIndex(x) => {
                if !vec_has_table(&self.objects, &x.table) {
                    Err(DbError::NoSuchTable)
                } else if vec_has_index(&self.objects, &x.name) {
                    if x.if_not_exists {
                        Ok(())
                    } else {
                        Err(DbError::ObjectExists)
                    }
                } else {
                    self.objects.push(SchemaStatement::CreateIndex(x));
                    proof {
                        self.lemma_push_preserves_inv(prior, *old(self));
                    }
                    Ok(())
                }
            },
        }
    }

    /// Creating one more object whose name is not yet taken keeps the
    /// invariant: names stay unique and existing tables stay found.
    proof fn lemma_push_preserves_inv(self, prior: Seq<SchemaStatement>, before: Database)
        requires
            before.inv(),
            before.objects@ == prior,
            self.sessions@ == before.sessions@,
            self.session_rowers@ == before.session_rowers@,
            prior.len() + 1 == self.objects@.len(),
            forall|k: int| 0 <= k < prior.len() ==> self.objects@[k] == prior[k],
            (self.objects@.last() matches SchemaStatement::CreateTable(t) ==> !seq_has_table(
                prior,
                t.name@,
            )),
            (self.objects@.last() matches SchemaStatement::CreateIndex(x) ==> !seq_has_index(
                prior,
                x.name@,
            )),
        ensures
            distinct_object_names(self.objects@),
            self.sessions@.len() > 0 ==> seq_has_table(self.objects@, "session"@),
            self.session_rowers@.len() > 0 ==> seq_has_table(self.objects@, "session_rowers"@),
    {
        let objs = self.objects@;
        let last = objs.last();
        assert forall|i: int, j: int| 0 <= i < j < objs.len() implies !same_object_name(
            #[trigger] objs[i],
            #[trigger] objs[j],
        ) by {
            if j < objs.len() - 1 {
                assert(!same_object_name(prior[i], prior[j]));
            } else {
                assert(objs[i] == prior[i]);
                if same_object_name(objs[i], last) {
                    match last {
                        SchemaStatement::CreateTable(t) => {
                            assert(seq_has_table(prior, t.name@));
                        },
                        SchemaStatement::CreateIndex(x) => {
                            assert(seq_has_index(prior, x.name@));
                        },
                    }
                }
            }
        }
        if self.sessions@.len() > 0 {
            lemma_has_table_push(prior, last, "session"@);
            assert(prior.push(last) =~= objs);
        }
        if self.session_rowers@.len() > 0 {
            lemma_has_table_push(prior, last, "session_rowers"@);
            assert(prior.push(last) =~= objs);
        }
    }
}

/// The larger of two versions.
pub open spec fn max_version(a: u64, b: u64) -> u64 {
    if a >= b {
        a
    } else {
        b
    }
}

/// A database no migration has touched: no recorded version, no objects.
pub open spec fn is_fresh(db: Database) -> bool {
    &&& db.version == 0
    &&& db.objects@.len() == 0
}

/// The registry declares exactly one record, carrying version 1.
pub open spec fn declares_exactly_version_one(reg: Registry) -> bool {
    &&& reg.records@.len() == 1
    &&& reg.records@[0].version == 1
}

/// Everything `Database::migrate` promises. Rows are never touched; a
/// database already at the registry's last version is left exactly as it
/// was; a successful run records the last version and leaves the objects
/// either unchanged or extended by exactly one application of the declared
/// session schema (version 1 is the only version that declares
/// statements); a failed run leaves the database exactly as it was, since
/// the one record carrying statements is the lowest version a well-formed
/// registry can hold; and on a fresh database the declared registry
/// creates exactly the declared session schema.
pub open spec fn migrate_rel(
    pre: Database,
    reg: Registry,
    post: Database,
    r: Result<(), DbError>,
) -> bool {
    &&& post.sessions@ == pre.sessions@
    &&& post.session_rowers@ == pre.session_rowers@
    &&& pre.version >= reg.spec_last_version() ==> (same_state(post, pre) && r == Ok::<
        (),
        DbError,
    >(()))
    &&& r is Ok ==> post.version == max_version(pre.version, reg.spec_last_version())
    &&& r is Ok ==> (post.objects@ == pre.objects@ || (exists|stmts: Seq<SchemaStatement>|
        is_session_schema(stmts) && spec_apply(pre.objects@, stmts) == Ok::<
            Seq<SchemaStatement>,
            DbError,
        >(post.objects@)))
    &&& r is Err ==> same_state(post, pre)
    &&& (is_fresh(pre) && declares_exactly_version_one(reg)) ==> (r == Ok::<(), DbError>(())
        && post.version == 1 && is_session_schema(post.objects@))
}

/// In a well-formed registry every version is at most the last one.
proof fn lemma_version_le_last(reg: Registry, i: int)
    requires
        reg.wf(),
        0 <= i < reg.records@.len(),
    ensures
        reg.records@[i].version <= reg.spec_last_version(),
{
    if i < reg.records@.len() - 1 {
        assert(reg.records@[i].version < reg.records@[reg.records@.len() - 1].version);
    }
}

/// Applying the declared session schema to a database with no objects
/// succeeds and creates exactly the declared objects.
proof fn lemma_apply_session_schema_fresh(stmts: Seq<SchemaStatement>)
    requires
        is_session_schema(stmts),
    ensures
        spec_apply(Seq::empty(), stmts) == Ok::<Seq<SchemaStatement>, DbError>(stmts),
{
    reveal_strlit("session");
    reveal_strlit("session_rowers");
    reveal_strlit("idx_session_rowers_rower_id");
    reveal_strlit("idx_session_rowers_session_id");
    assert("session"@.len() == 7);
    assert("session_rowers"@.len() == 14);
    assert("idx_session_rowers_rower_id"@.len() == 27);
    assert("idx_session_rowers_session_id"@.len() == 29);
    let e = Seq::<SchemaStatement>::empty();
    let s0 = stmts[0];
    let s1 = stmts[1];
    let s2 = stmts[2];
    let s3 = stmts[3];
    let o1 = e.push(s0);
    let o2 = o1.push(s1);
    let o3 = o2.push(s2);
    let o4 = o3.push(s3);
    assert(!seq_has_table(e, s0->CreateTable_0.name@));
    assert(spec_step(e, s0) == Ok::<Seq<SchemaStatement>, DbError>(o1));
    assert(o1[0] == s0);
    assert(!seq_has_table(o1, s1->CreateTable_0.name@));
    assert(spec_step(o1, s1) == Ok::<Seq<SchemaStatement>, DbError>(o2));
    assert(o2[0] == s0 && o2[1] == s1);
    assert(seq_has_table(o2, s2->CreateIndex_0.table@));
    assert(!seq_has_index(o2, s2->CreateIndex_0.name@));
    assert(spec_step(o2, s2) == Ok::<Seq<SchemaStatement>, DbError>(o3));
    assert(o3[0] == s0 && o3[1] == s1 && o3[2] == s2);
    assert(seq_has_table(o3, s3->CreateIndex_0.table@));
    assert(!seq_has_index(o3, s3->CreateIndex_0.name@));
    assert(spec_step(o3, s3) == Ok::<Seq<SchemaStatement>, DbError>(o4));
    let d1 = stmts.drop_first();
    let d2 = d1.drop_first();
    let d3 = d2.drop_first();
    let d4 = d3.drop_first();
    assert(d1.len() == 3 && d1[0] == s1);
    assert(d2.len() == 2 && d2[0] == s2);
    assert(d3.len() == 1 && d3[0] == s3);
    assert(d4.len() == 0);
    assert(spec_apply(o4, d4) == Ok::<Seq<SchemaStatement>, DbError>(o4));
    assert(spec_apply(o3, d3) == Ok::<Seq<SchemaStatement>, DbError>(o4));
    assert(spec_apply(o2, d2) == Ok::<Seq<SchemaStatement>, DbError>(o4));
    assert(spec_apply(o1, d1) == Ok::<Seq<SchemaStatement>, DbError>(o4));
    assert(spec_apply(e, stmts) == Ok::<Seq<SchemaStatement>, DbError>(o4));
    assert(o4 =~= stmts);
}

impl Database {
    /// Applies one migration's statements under version bookkeeping: a
    /// version not newer than the recorded one is skipped; otherwise the
    /// statements run in order inside a transaction, and on failure the
    /// database is left exactly as it was.
    #[verifier::loop_isolation(false)]
    pub fn apply_migration(&mut self, version: u64, stmts: Vec<SchemaStatement>) -> (r: Result<
        (),
        DbError,
    >)
        requires
            old(self).inv(),
        ensures
            final(self).inv(),
            final(self).sessions@ == old(self).sessions@,
            final(self).session_rowers@ == old(self).session_rowers@,
            version <= old(self).version ==> (r == Ok::<(), DbError>(()) && same_state(
                *final(self),
                *old(self),
            )),
            version > old(self).version ==> (match spec_apply(old(self).objects@, stmts@) {
                Ok(objs) => r == Ok::<(), DbError>(()) && final(self).objects@ == objs
                    && final(self).version == version,
                Err(e) => r == Err::<(), DbError>(e) && same_state(*final(self), *old(self)),
            }),
    {
        if version <= self.version {
            return Ok(());
        }
        let base_len = self.objects.len();
        let ghost base = self.objects@;
        let ghost all = stmts@;
        let mut rest = stmts;
        while rest.len() > 0
            invariant
                self.inv(),
                self.version == old(self).version,
                self.sessions@ == old(self).sessions@,
                self.session_rowers@ == old(self).session_rowers@,
                base == old(self).objects@,
                base_len == base.len(),
                self.objects@.len() >= base_len,
                self.objects@.subrange(0, base_len as int) == base,
                spec_apply(base, all) == spec_apply(self.objects@, rest@),
            decreases rest@.len(),
        {
            let ghost prev_objects = self.objects@;
            let ghost prev_rest = rest@;
            let s = rest.remove(0);
            proof {
                assert(rest@ =~= prev_rest.drop_first());
            }
            match self.exec_statement(s) {
                Ok(()) => {
                    proof {
                        assert(spec_step(prev_objects, s) == Ok::<Seq<SchemaStatement>, DbError>(
                            self.objects@,
                        ));
                        assert(self.objects@.subrange(0, base_len as int) =~= base);
                    }
                },
                Err(e) => {
                    proof {
                        assert(spec_apply(prev_objects, prev_rest) == Err::<
                            Seq<SchemaStatement>,
                            DbError,
                        >(e));
                    }
                    self.objects.truncate(base_len);
                    proof {
                        assert(self.objects@ =~= base);
                    }
                    return Err(e);
                },
            }
        }
        proof {
            assert(spec_apply(base, all) == Ok::<Seq<SchemaStatement>, DbError>(self.objects@));
        }
        self.version = version;
        Ok(())
    }

    /// Brings the database to the registry's last version: determines which
    /// records are newer than the recorded version and applies each of
    /// them, in ascending version order, under `apply_migration`.
    #[verifier::loop_isolation(false)]
    pub fn migrate(&mut self, reg: &Registry) -> (r: Result<(), DbError>)
        requires
            old(self).inv(),
            reg.wf(),
        ensures
            final(self).inv(),
            migrate_rel(*old(self), *reg, *final(self), r),
    {
        let n = reg.records.len();
        let mut i: usize = 0;
        while i < n
            invariant
                self.inv(),
                reg.wf(),
                n == reg.records@.len(),
                i <= n,
                self.sessions@ == old(self).sessions@,
                self.session_rowers@ == old(self).session_rowers@,
                old(self).version <= self.version,
                self.version == max_version(
                    old(self).version,
                    if i == 0 {
                        0u64
                    } else {
                        reg.records@[i - 1].version
                    },
                ),
                old(self).version >= reg.spec_last_version() ==> same_state(*self, *old(self)),
                i == 0 ==> same_state(*self, *old(self)),
                self.objects@ == old(self).objects@ || (exists|stmts: Seq<SchemaStatement>|
                    is_session_schema(stmts) && spec_apply(old(self).objects@, stmts) == Ok::<
                        Seq<SchemaStatement>,
                        DbError,
                    >(self.objects@)),
                (is_fresh(*old(self)) && declares_exactly_version_one(*reg)) ==> (if i == 0 {
                    same_state(*self, *old(self))
                } else {
                    self.version == 1 && is_session_schema(self.objects@)
                }),
            decreases n - i,
        {
            let v = reg.records[i].version;
            proof {
                lemma_version_le_last(*reg, i as int);
                if i > 0 {
                    assert(reg.records@[i - 1].version < reg.records@[i as int].version);
                    assert(reg.records@[i - 1].wf());
                }
            }
            if v > self.version {
                let stmts = crate::schema::statements_for_version(v);
                let ghost entry_state = *self;
                proof {
                    // version 1 is the lowest a well-formed registry holds,
                    // so a record that still finds the recorded version
                    // below 1 is the first record
                    if v == 1 {
                        assert(i == 0);
                    }
                }
                match self.apply_migration(v, stmts) {
                    Ok(()) => {
                        proof {
                            if v == 1 {
                                assert(spec_apply(old(self).objects@, stmts@) == Ok::<
                                    Seq<SchemaStatement>,
                                    DbError,
                                >(self.objects@));
                            } else {
                                assert(stmts@.len() == 0);
                                assert(spec_apply(entry_state.objects@, stmts@) == Ok::<
                                    Seq<SchemaStatement>,
                                    DbError,
                                >(entry_state.objects@));
                            }
                            if is_fresh(*old(self)) && declares_exactly_version_one(*reg) {
                                assert(entry_state.objects@ =~= Seq::<SchemaStatement>::empty());
                                lemma_apply_session_schema_fresh(stmts@);
                            }
                        }
                    },
                    Err(e) => {
                        proof {
                            if v != 1 {
                                assert(stmts@.len() == 0);
                                assert(spec_apply(entry_state.objects@, stmts@) == Ok::<
                                    Seq<SchemaStatement>,
                                    DbError,
                                >(entry_state.objects@));
                                assert(false);
                            }
                            assert(same_state(*self, *old(self)));
                            if is_fresh(*old(self)) && declares_exactly_version_one(*reg) {
                                assert(entry_state.objects@ =~= Seq::<SchemaStatement>::empty());
                                lemma_apply_session_schema_fresh(stmts@);
                                assert(false);
                            }
                        }
                        return Err(e);
                    },
                }
            }
            i += 1;
        }
        Ok(())
    }
}

/// A session id found among the rows is still found after a push.
proof fn lemma_has_session_push(rows: Seq<SessionRow>, row: SessionRow, id: Seq<char>)
    requires
        has_session(rows, id),
    ensures
        has_session(rows.push(row), id),
{
    let i = choose|i: int| 0 <= i < rows.len() && (#[trigger] rows[i]).id@ == id;
    assert(rows.push(row)[i] == rows[i]);
}

/// What deleting one session id leaves: no row with the deleted id, every
/// other id kept, only ids that were present, distinctness kept, and, under
/// the primary key, exactly one row fewer when the id was present.
proof fn lemma_sessions_without_props(rows: Seq<SessionRow>, id: Seq<char>)
    ensures
        sessions_without(rows, id).len() <= rows.len(),
        forall|k: int|
            0 <= k < sessions_without(rows, id).len() ==> (#[trigger] sessions_without(
                rows,
                id,
            )[k]).id@ != id,
        forall|k: int|
            0 <= k < sessions_without(rows, id).len() ==> has_session(
                rows,
                (#[trigger] sessions_without(rows, id)[k]).id@,
            ),
        forall|other: Seq<char>|
            other != id && #[trigger] has_session(rows, other) ==> has_session(
                sessions_without(rows, id),
                other,
            ),
        distinct_session_ids(rows) ==> distinct_session_ids(sessions_without(rows, id)),
        distinct_session_ids(rows) ==> sessions_without(rows, id).len() == rows.len() - (
        if has_session(rows, id) {
            1int
        } else {
            0int
        }),
    decreases rows.len(),
{
    if rows.len() > 0 {
        let dl = rows.drop_last();
        let last = rows.last();
        let rest = sessions_without(dl, id);
        let out = sessions_without(rows, id);
        lemma_sessions_without_props(dl, id);
        assert(forall|k: int| 0 <= k < dl.len() ==> dl[k] == rows[k]);
        assert forall|x: Seq<char>| #[trigger] has_session(dl, x) implies has_session(rows, x) by {
            let m = choose|m: int| 0 <= m < dl.len() && (#[trigger] dl[m]).id@ == x;
            assert(rows[m].id@ == x);
        }
        if distinct_session_ids(rows) {
            assert(distinct_session_ids(dl));
        }
        assert forall|k: int| 0 <= k < out.len() implies has_session(rows, (#[trigger] out[k]).id@)
            by {
            if last.id@ != id && k == out.len() - 1 {
                assert(rows[rows.len() - 1].id@ == last.id@);
            } else {
                assert(out[k] == rest[k]);
                assert(has_session(dl, rest[k].id@));
            }
        }
        assert forall|other: Seq<char>|
            other != id && #[trigger] has_session(rows, other) implies has_session(
            out,
            other,
        ) by {
            let m = choose|m: int| 0 <= m < rows.len() && (#[trigger] rows[m]).id@ == other;
            if m < rows.len() - 1 {
                assert(dl[m].id@ == other);
                assert(has_session(dl, other));
                let k = choose|k: int| 0 <= k < rest.len() && (#[trigger] rest[k]).id@ == other;
                assert(out[k] == rest[k]);
            } else {
                assert(last.id@ == other);
                assert(out[out.len() - 1].id@ == other);
            }
        }
        if distinct_session_ids(rows) {
            assert forall|i: int, j: int| 0 <= i < j < out.len() implies (#[trigger] out[i]).id@
                != (#[trigger] out[j]).id@ by {
                if last.id@ != id && j == out.len() - 1 {
                    assert(out[i] == rest[i]);
                    assert(has_session(dl, rest[i].id@));
                    let m = choose|m: int|
                        0 <= m < dl.len() && (#[trigger] dl[m]).id@ == rest[i].id@;
                    assert(rows[m].id@ != rows[rows.len() - 1].id@);
                } else {
                    assert(out[i] == rest[i] && out[j] == rest[j]);
                }
            }
            if last.id@ == id {
                if has_session(dl, id) {
                    let m = choose|m: int| 0 <= m < dl.len() && (#[trigger] dl[m]).id@ == id;
                    assert(rows[m].id@ != rows[rows.len() - 1].id@);
                    assert(false);
                }
                assert(rows[rows.len() - 1].id@ == id);
                assert(has_session(rows, id));
            } else {
                if has_session(dl, id) {
                    assert(has_session(rows, id));
                }
                if has_session(rows, id) {
                    let m = choose|m: int| 0 <= m < rows.len() && (#[trigger] rows[m]).id@ == id;
                    assert(m < rows.len() - 1);
                    assert(dl[m].id@ == id);
                    assert(has_session(dl, id));
                }
            }
        }
    }
}

/// What the cascade leaves of the rower rows: no row referencing the
/// deleted session, only pairs that were present, and distinctness kept.
proof fn lemma_rowers_without_props(rows: Seq<SessionRowerRow>, id: Seq<char>)
    ensures
        rowers_without_session(rows, id).len() <= rows.len(),
        forall|k: int|
            0 <= k < rowers_without_session(rows, id).len() ==> (#[trigger] rowers_without_session(
                rows,
                id,
            )[k]).session_id@ != id,
        forall|k: int|
            0 <= k < rowers_without_session(rows, id).len() ==> has_rower_pair(
                rows,
                (#[trigger] rowers_without_session(rows, id)[k]).session_id@,
                rowers_without_session(rows, id)[k].rower_id@,
            ),
        distinct_rower_pairs(rows) ==> distinct_rower_pairs(rowers_without_session(rows, id)),
    decreases rows.len(),
{
    if rows.len() > 0 {
        let dl = rows.drop_last();
        let last = rows.last();
        let rest = rowers_without_session(dl, id);
        let out = rowers_without_session(rows, id);
        lemma_rowers_without_props(dl, id);
        assert(forall|k: int| 0 <= k < dl.len() ==> dl[k] == rows[k]);
        assert forall|k: int| 0 <= k < out.len() implies has_rower_pair(
            rows,
            (#[trigger] out[k]).session_id@,
            out[k].rower_id@,
        ) by {
            if last.session_id@ != id && k == out.len() - 1 {
                assert(rows[rows.len() - 1].session_id@ == last.session_id@);
            } else {
                assert(out[k] == rest[k]);
                assert(has_rower_pair(dl, rest[k].session_id@, rest[k].rower_id@));
                let m = choose|m: int|
                    0 <= m < dl.len() && (#[trigger] dl[m]).session_id@ == rest[k].session_id@
                        && dl[m].rower_id@ == rest[k].rower_id@;
                assert(rows[m] == dl[m]);
            }
        }
        if distinct_rower_pairs(rows) {
            assert(distinct_rower_pairs(dl));
            assert forall|i: int, j: int| 0 <= i < j < out.len() implies !((
            #[trigger] out[i]).session_id@ == (#[trigger] out[j]).session_id@
                && out[i].rower_id@ == out[j].rower_id@) by {
                if last.session_id@ != id && j == out.len() - 1 {
                    assert(out[i] == rest[i]);
                    assert(has_rower_pair(dl, rest[i].session_id@, rest[i].rower_id@));
                    let m = choose|m: int|
                        0 <= m < dl.len() && (#[trigger] dl[m]).session_id@ == rest[i].session_id@
                            && dl[m].rower_id@ == rest[i].rower_id@;
                    assert(!(rows[m].session_id@ == rows[rows.len() - 1].session_id@
                        && rows[m].rower_id@ == rows[rows.len() - 1].rower_id@));
                } else {
                    assert(out[i] == rest[i] && out[j] == rest[j]);
                }
            }
        }
    }
}

impl Database {
    /// Whether a created table carries this name.
    pub fn has_table(&self, name: &String) -> (r: bool)
        ensures
            r == seq_has_table(self.objects@, name@),
    {
        vec_has_table(&self.objects, name)
    }

    /// Whether a created index carries this name.
    pub fn has_index(&self, name: &String) -> (r: bool)
        ensures
            r == seq_has_index(self.objects@, name@),
    {
        vec_has_index(&self.objects, name)
    }

    /// Inserts one row into the `session` table. The insert is refused when
    /// the table does not exist or when a row already carries the same
    /// `id` (the primary key), and succeeds otherwise.
    #[verifier::loop_isolation(false)]
    pub fn insert_session(&mut self, row: SessionRow) -> (r: Result<(), DbError>)
        requires
            old(self).inv(),
        ensures
            final(self).inv(),
            final(self).version == old(self).version,
            final(self).objects@ == old(self).objects@,
            final(self).session_rowers@ == old(self).session_rowers@,
            !seq_has_table(old(self).objects@, "session"@) ==> (r == Err::<(), DbError>(
                DbError::NoSuchTable,
            ) && final(self).sessions@ == old(self).sessions@),
            seq_has_table(old(self).objects@, "session"@) && has_session(
                old(self).sessions@,
                row.id@,
            ) ==> (r == Err::<(), DbError>(DbError::UniqueConstraint) && final(self).sessions@
                == old(self).sessions@),
            seq_has_table(old(self).objects@, "session"@) && !has_session(
                old(self).sessions@,
                row.id@,
            ) ==> (r == Ok::<(), DbError>(()) && final(self).sessions@ == old(self).sessions@.push(
                row,
            )),
    {
        let table = "session".to_owned();
        if !vec_has_table(&self.objects, &table) {
            return Err(DbError::NoSuchTable);
        }
        let n = self.sessions.len();
        let mut i: usize = 0;
        while i < n
            invariant
                i <= n,
                n == self.sessions@.len(),
                forall|k: int| 0 <= k < i ==> (#[trigger] self.sessions@[k]).id@ != row.id@,
            decreases n - i,
        {
            if string_eq(&self.sessions[i].id, &row.id) {
                return Err(DbError::UniqueConstraint);
            }
            i += 1;
        }
        let ghost prior = self.sessions@;
        self.sessions.push(row);
        proof {
            assert forall|a: int, b: int| 0 <= a < b < self.sessions@.len() implies (
            #[trigger] self.sessions@[a]).id@ != (#[trigger] self.sessions@[b]).id@ by {
                if b < self.sessions@.len() - 1 {
                    assert(prior[a].id@ != prior[b].id@);
                } else {
                    assert(self.sessions@[a] == prior[a]);
                }
            }
            assert forall|k: int| 0 <= k < self.session_rowers@.len() implies has_session(
                self.sessions@,
                (#[trigger] self.session_rowers@[k]).session_id@,
            ) by {
                lemma_has_session_push(prior, row, self.session_rowers@[k].session_id@);
            }
        }
        Ok(())
    }

    /// Inserts one row into the `session_rowers` table. The insert is
    /// refused when the table does not exist, when a row already carries
    /// the same `(session_id, rower_id)` pair (the composite primary key),
    /// or when no `session` row carries `session_id` (the foreign key), and
    /// succeeds otherwise.
    #[verifier::loop_isolation(false)]
    pub fn insert_session_rower(&mut self, row: SessionRowerRow) -> (r: Result<(), DbError>)
        requires
            old(self).inv(),
        ensures
            final(self).inv(),
            final(self).version == old(self).version,
            final(self).objects@ == old(self).objects@,
            final(self).sessions@ == old(self).sessions@,
            !seq_has_table(old(self).objects@, "session_rowers"@) ==> (r == Err::<(), DbError>(
                DbError::NoSuchTable,
            ) && final(self).session_rowers@ == old(self).session_rowers@),
            seq_has_table(old(self).objects@, "session_rowers"@) && has_rower_pair(
                old(self).session_rowers@,
                row.session_id@,
                row.rower_id@,
            ) ==> (r == Err::<(), DbError>(DbError::UniqueConstraint) && final(self).session_rowers@ == old(self).session_rowers@),
            seq_has_table(old(self).objects@, "session_rowers"@) && !has_rower_pair(
                old(self).session_rowers@,
                row.session_id@,
                row.rower_id@,
            ) && !has_session(old(self).sessions@, row.session_id@) ==> (r == Err::<(), DbError>(
                DbError::ForeignKeyConstraint,
            ) && final(self).session_rowers@ == old(self).session_rowers@),
            seq_has_table(old(self).objects@, "session_rowers"@) && !has_rower_pair(
                old(self).session_rowers@,
                row.session_id@,
                row.rower_id@,
            ) && has_session(old(self).sessions@, row.session_id@) ==> (r == Ok::<(), DbError>(())
                && final(self).session_rowers@ == old(self).session_rowers@.push(row)),
    {
        let table = "session_rowers".to_owned();
        if !vec_has_table(&self.objects, &table) {
            return Err(DbError::NoSuchTable);
        }
        let n = self.session_rowers.len();
        let mut i: usize = 0;
        while i < n
            invariant
                i <= n,
                n == self.session_rowers@.len(),
                forall|k: int|
                    0 <= k < i ==> !((#[trigger] self.session_rowers@[k]).session_id@
                        == row.session_id@ && self.session_rowers@[k].rower_id@ == row.rower_id@),
            decreases n - i,
        {
            if string_eq(&self.session_rowers[i].session_id, &row.session_id) && string_eq(
                &self.session_rowers[i].rower_id,
                &row.rower_id,
            ) {
                return Err(DbError::UniqueConstraint);
            }
            i += 1;
        }
        let m = self.sessions.len();
        let mut j: usize = 0;
        let mut found = false;
        while j < m
            invariant
                j <= m,
                m == self.sessions@.len(),
                found ==> has_session(self.sessions@, row.session_id@),
                !found ==> forall|k: int|
                    0 <= k < j ==> (#[trigger] self.sessions@[k]).id@ != row.session_id@,
            decreases m - j,
        {
            if string_eq(&self.sessions[j].id, &row.session_id) {
                found = true;
                break ;
            }
            j += 1;
        }
        if !found {
            return Err(DbError::ForeignKeyConstraint);
        }
        let ghost prior = self.session_rowers@;
        self.session_rowers.push(row);
        proof {
            assert forall|a: int, b: int| 0 <= a < b < self.session_rowers@.len() implies !((
            #[trigger] self.session_rowers@[a]).session_id@ == (
            #[trigger] self.session_rowers@[b]).session_id@ && self.session_rowers@[a].rower_id@
                == self.session_rowers@[b].rower_id@) by {
                if b < self.session_rowers@.len() - 1 {
                    assert(!(prior[a].session_id@ == prior[b].session_id@ && prior[a].rower_id@
                        == prior[b].rower_id@));
                } else {
                    assert(self.session_rowers@[a] == prior[a]);
                }
            }
            assert forall|k: int| 0 <= k < self.session_rowers@.len() implies has_session(
                self.sessions@,
                (#[trigger] self.session_rowers@[k]).session_id@,
            ) by {
                if k < self.session_rowers@.len() - 1 {
                    assert(self.session_rowers@[k] == prior[k]);
                }
            }
        }
        Ok(())
    }

    /// Deletes the `session` row carrying this `id`, and, through the
    /// declared cascade, every `session_rowers` row referencing it. Returns
    /// how many `session` rows were deleted.
    #[verifier::loop_isolation(false)]
    pub fn delete_session(&mut self, id: &String) -> (r: Result<usize, DbError>)
        requires
            old(self).inv(),
        ensures
            final(self).inv(),
            final(self).version == old(self).version,
            final(self).objects@ == old(self).objects@,
            !seq_has_table(old(self).objects@, "session"@) ==> (r == Err::<usize, DbError>(
                DbError::NoSuchTable,
            ) && final(self).sessions@ == old(self).sessions@ && final(self).session_rowers@ == old(self).session_rowers@),
            seq_has_table(old(self).objects@, "session"@) ==> ({
                &&& final(self).sessions@ == sessions_without(old(self).sessions@, id@)
                &&& final(self).session_rowers@ == rowers_without_session(
                    old(self).session_rowers@,
                    id@,
                )
                &&& r matches Ok(n) && n == old(self).sessions@.len() - final(self).sessions@.len()
                    && (n > 0 <==> has_session(old(self).sessions@, id@))
                &&& !has_session(final(self).sessions@, id@)
                &&& forall|k: int|
                    0 <= k < final(self).session_rowers@.len()
                        ==> (#[trigger] final(self).session_rowers@[k]).session_id@ != id@
            }),
    {
        let table = "session".to_owned();
        if !vec_has_table(&self.objects, &table) {
            return Err(DbError::NoSuchTable);
        }
        proof {
            lemma_sessions_without_props(self.sessions@, id@);
            lemma_rowers_without_props(self.session_rowers@, id@);
        }
        let n = self.sessions.len();
        let mut kept: Vec<SessionRow> = Vec::new();
        let mut i: usize = 0;
        while i < n
            invariant
                i <= n,
                n == self.sessions@.len(),
                kept@ == sessions_without(self.sessions@.subrange(0, i as int), id@),
            decreases n - i,
        {
            let ghost sub_next = self.sessions@.subrange(0, i as int + 1);
            proof {
                assert(sub_next.drop_last() =~= self.sessions@.subrange(0, i as int));
                assert(sub_next.last() == self.sessions@[i as int]);
            }
            let row = &self.sessions[i];
            if !string_eq(&row.id, id) {
                kept.push(row.clone());
            }
            i += 1;
        }
        proof {
            assert(self.sessions@.subrange(0, n as int) =~= self.sessions@);
        }
        self.sessions = kept;
        let rn = self.session_rowers.len();
        let mut kept_rowers: Vec<SessionRowerRow> = Vec::new();
        let mut j: usize = 0;
        while j < rn
            invariant
                j <= rn,
                rn == self.session_rowers@.len(),
                kept_rowers@ == rowers_without_session(
                    self.session_rowers@.subrange(0, j as int),
                    id@,
                ),
            decreases rn - j,
        {
            let ghost sub_next = self.session_rowers@.subrange(0, j as int + 1);
            proof {
                assert(sub_next.drop_last() =~= self.session_rowers@.subrange(0, j as int));
                assert(sub_next.last() == self.session_rowers@[j as int]);
            }
            let row = &self.session_rowers[j];
            if !string_eq(&row.session_id, id) {
                kept_rowers.push(row.clone());
            }
            j += 1;
        }
        proof {
            assert(self.session_rowers@.subrange(0, rn as int) =~= self.session_rowers@);
        }
        self.session_rowers = kept_rowers;
        proof {
            assert forall|k: int| 0 <= k < self.session_rowers@.len() implies has_session(
                self.sessions@,
                (#[trigger] self.session_rowers@[k]).session_id@,
            ) by {
                let rw = self.session_rowers@[k];
                assert(has_rower_pair(old(self).session_rowers@, rw.session_id@, rw.rower_id@));
                let m = choose|m: int|
                    0 <= m < old(self).session_rowers@.len() && (#[trigger] old(self).session_rowers@[m]).session_id@ == rw.session_id@ && old(self).session_rowers@[m].rower_id@ == rw.rower_id@;
                assert(has_session(old(self).sessions@, rw.session_id@));
            }
        }
        Ok(n - self.sessions.len())
    }

    /// The `session` row carrying this `id`, when one exists.
    #[verifier::loop_isolation(false)]
    pub fn get_session(&self, id: &String) -> (o: Option<SessionRow>)
        ensures
            (match o {
                Some(s) => has_session(self.sessions@, id@) && s.id@ == id@
                    && self.sessions@.contains(s),
                None => !has_session(self.sessions@, id@),
            }),
    {
        let n = self.sessions.len();
        let mut i: usize = 0;
        while i < n
            invariant
                i <= n,
                n == self.sessions@.len(),
                forall|k: int| 0 <= k < i ==> (#[trigger] self.sessions@[k]).id@ != id@,
            decreases n - i,
        {
            if string_eq(&self.sessions[i].id, id) {
                let s = self.sessions[i].clone();
                proof {
                    assert(self.sessions@.contains(s)) by {
                        assert(self.sessions@[i as int] == s);
                    }
                }
                return Some(s);
            }
            i += 1;
        }
        None
    }

    /// The `session_rowers` rows referencing this session `id`, in table
    /// order.
    #[verifier::loop_isolation(false)]
    pub fn rowers_of(&self, session_id: &String) -> (v: Vec<SessionRowerRow>)
        ensures
            v@ == rowers_of_session(self.session_rowers@, session_id@),
    {
        let n = self.session_rowers.len();
        let mut found: Vec<SessionRowerRow> = Vec::new();
        let mut i: usize = 0;
        while i < n
            invariant
                i <= n,
                n == self.session_rowers@.len(),
                found@ == rowers_of_session(self.session_rowers@.subrange(0, i as int), session_id@),
            decreases n - i,
        {
            let ghost sub_next = self.session_rowers@.subrange(0, i as int + 1);
            proof {
                assert(sub_next.drop_last() =~= self.session_rowers@.subrange(0, i as int));
                assert(sub_next.last() == self.session_rowers@[i as int]);
            }
            let row = &self.session_rowers[i];
            if string_eq(&row.session_id, session_id) {
                found.push(row.clone());
            }
            i += 1;
        }
        proof {
            assert(self.session_rowers@.subrange(0, n as int) =~= self.session_rowers@);
        }
        found
    }
}

/// Law: applying the registry twice in succession cannot error the second
/// time and cannot duplicate schema objects: the version bookkeeping makes
/// the second application leave the database exactly as the first left it.
pub proof fn lemma_migrate_idempotent(
    db0: Database,
    db1: Database,
    db2: Database,
    reg: Registry,
    r2: Result<(), DbError>,
)
    requires
        reg.wf(),
        migrate_rel(db0, reg, db1, Ok(())),
        migrate_rel(db1, reg, db2, r2),
    ensures
        r2 == Ok::<(), DbError>(()),
        same_state(db2, db1),
{
}

/// Law: on a fresh database the declared registry succeeds, records
/// version 1, and creates exactly the declared schema objects.
pub proof fn lemma_fresh_migration_creates_schema(
    db0: Database,
    db1: Database,
    reg: Registry,
    r: Result<(), DbError>,
)
    requires
        is_fresh(db0),
        declares_exactly_version_one(reg),
        migrate_rel(db0, reg, db1, r),
    ensures
        r == Ok::<(), DbError>(()),
        db1.version == 1,
        is_session_schema(db1.objects@),
{
}

} // verus!
