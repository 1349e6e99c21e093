//! Structured description of the schema objects the migrations create.
//!
//! The migration scripts travel to the database engine as text; this module
//! keeps the same declarations in structured form, so that the declared
//! tables, columns, keys and constraints can be stated and reasoned about.

use vstd::prelude::*;

verus! {

/// Column type used by this schema.
#[derive(Clone, Copy, PartialEq, Eq, Structural, Debug)]
pub enum ColumnType {
    Integer,
    Text,
}

/// One column of a table: its name, its type, and whether NULL is refused.
pub struct ColumnDef {
    pub name: String,
    pub ctype: ColumnType,
    pub not_null: bool,
}

/// A single-column foreign key: `column` (an index into the owning table's
/// column list) references the primary key of `parent_table`.
pub struct ForeignKeyDef {
    pub column: usize,
    pub parent_table: String,
    pub on_delete_cascade: bool,
}

/// A table declaration. `primary_key` lists column indices in key order.
/// `if_not_exists` records whether creation is guarded on the name already
/// being taken.
pub struct TableDef {
    pub name: String,
    pub columns: Vec<ColumnDef>,
    pub primary_key: Vec<usize>,
    pub foreign_keys: Vec<ForeignKeyDef>,
    pub if_not_exists: bool,
}

/// An index over one column of `table`.
pub struct IndexDef {
    pub name: String,
    pub table: String,
    pub column: String,
    pub unique: bool,
    pub if_not_exists: bool,
}

/// One schema-definition statement.
pub enum SchemaStatement {
    CreateTable(TableDef),
    CreateIndex(IndexDef),
}

/// The column has the given name, type and nullability.
pub open spec fn is_column(c: ColumnDef, name: Seq<char>, ctype: ColumnType, not_null: bool) -> bool {
    &&& c.name@ == name
    &&& c.ctype == ctype
    &&& c.not_null == not_null
}

/// The declared `session` table: eight text columns, `id` the primary key,
/// `boat_id` and `start_date_time` required, the rest nullable.
pub open spec fn is_session_table(t: TableDef) -> bool {
    &&& t.name@ == "session"@
    &&& t.if_not_exists
    &&& t.columns@.len() == 8
    &&& is_column(t.columns@[0], "id"@, ColumnType::Text, false)
    &&& is_column(t.columns@[1], "boat_id"@, ColumnType::Text, true)
    &&& is_column(t.columns@[2], "start_date_time"@, ColumnType::Text, true)
    &&& is_column(t.columns@[3], "estimated_end_date_time"@, ColumnType::Text, false)
    &&& is_column(t.columns@[4], "route_id"@, ColumnType::Text, false)
    &&& is_column(t.columns@[5], "end_date_time"@, ColumnType::Text, false)
    &&& is_column(t.columns@[6], "incident_id"@, ColumnType::Text, false)
    &&& is_column(t.columns@[7], "comment"@, ColumnType::Text, false)
    &&& t.primary_key@ == seq![0usize]
    &&& t.foreign_keys@.len() == 0
}

/// The declared `session_rowers` table: the composite primary key
/// `(session_id, rower_id)` and a foreign key from `session_id` to the
/// `session` table's primary key that cascades deletes.
pub open spec fn is_session_rowers_table(t: TableDef) -> bool {
    &&& t.name@ == "session_rowers"@
    &&& t.if_not_exists
    &&& t.columns@.len() == 2
    &&& is_column(t.columns@[0], "session_id"@, ColumnType::Text, false)
    &&& is_column(t.columns@[1], "rower_id"@, ColumnType::Text, false)
    &&& t.primary_key@ == seq![0usize, 1usize]
    &&& t.foreign_keys@.len() == 1
    &&& t.foreign_keys@[0].column == 0
    &&& t.foreign_keys@[0].parent_table@ == "session"@
    &&& t.foreign_keys@[0].on_delete_cascade
}

/// The declared non-unique index on `session_rowers.rower_id`.
pub open spec fn is_rower_id_index(x: IndexDef) -> bool {
    &&& x.name@ == "idx_session_rowers_rower_id"@
    &&& x.table@ == "session_rowers"@
    &&& x.column@ == "rower_id"@
    &&& !x.unique
    &&& x.if_not_exists
}

/// The declared non-unique index on `session_rowers.session_id`.
pub open spec fn is_session_id_index(x: IndexDef) -> bool {
    &&& x.name@ == "idx_session_rowers_session_id"@
    &&& x.table@ == "session_rowers"@
    &&& x.column@ == "session_id"@
    &&& !x.unique
    &&& x.if_not_exists
}

/// Exactly the objects the version-1 migration declares, in statement
/// order: the two tables, then the two indexes.
pub open spec fn is_session_schema(stmts: Seq<SchemaStatement>) -> bool {
    &&& stmts.len() == 4
    &&& stmts[0] matches SchemaStatement::CreateTable(t0) && is_session_table(t0)
    &&& stmts[1] matches SchemaStatement::CreateTable(t1) && is_session_rowers_table(t1)
    &&& stmts[2] matches SchemaStatement::CreateIndex(x2) && is_rower_id_index(x2)
    &&& stmts[3] matches SchemaStatement::CreateIndex(x3) && is_session_id_index(x3)
}

/// A text column with the given name and nullability.
fn text_column(name: &str, not_null: bool) -> (c: ColumnDef)
    ensures
        is_column(c, name@, ColumnType::Text, not_null),
{
    ColumnDef { name: name.to_owned(), ctype: ColumnType::Text, not_null: not_null }
}

/// The structured form of the version-1 script.
pub fn session_schema() -> (stmts: Vec<SchemaStatement>)
    ensures
        is_session_schema(stmts@),
{
    let mut session_columns: Vec<ColumnDef> = Vec::new();
    session_columns.push(text_column("id", false));
    session_columns.push(text_column("boat_id", true));
    session_columns.push(text_column("start_date_time", true));
    session_columns.push(text_column("estimated_end_date_time", false));
    session_columns.push(text_column("route_id", false));
    session_columns.push(text_column("end_date_time", false));
    session_columns.push(text_column("incident_id", false));
    session_columns.push(text_column("comment", false));
    let mut session_pk: Vec<usize> = Vec::new();
    session_pk.push(0);
    let session = TableDef {
        name: "session".to_owned(),
        columns: session_columns,
        primary_key: session_pk,
        foreign_keys: Vec::new(),
        if_not_exists: true,
    };
    proof {
        assert(session.primary_key@ =~= seq![0usize]);
    }

    let mut rowers_columns: Vec<ColumnDef> = Vec::new();
    rowers_columns.push(text_column("session_id", false));
    rowers_columns.push(text_column("rower_id", false));
    let mut rowers_pk: Vec<usize> = Vec::new();
    rowers_pk.push(0);
    rowers_pk.push(1);
    let mut rowers_fk: Vec<ForeignKeyDef> = Vec::new();
    rowers_fk.push(
        ForeignKeyDef { column: 0, parent_table: "session".to_owned(), on_delete_cascade: true },
    );
    let session_rowers = TableDef {
        name: "session_rowers".to_owned(),
        columns: rowers_columns,
        primary_key: rowers_pk,
        foreign_keys: rowers_fk,
        if_not_exists: true,
    };
    proof {
        assert(session_rowers.primary_key@ =~= seq![0usize, 1usize]);
    }

    let rower_id_index = IndexDef {
        name: "idx_session_rowers_rower_id".to_owned(),
        table: "session_rowers".to_owned(),
        column: "rower_id".to_owned(),
        unique: false,
        if_not_exists: true,
    };
    let session_id_index = IndexDef {
        name: "idx_session_rowers_session_id".to_owned(),
        table: "session_rowers".to_owned(),
        column: "session_id".to_owned(),
        unique: false,
        if_not_exists: true,
    };

    let mut stmts: Vec<SchemaStatement> = Vec::new();
    stmts.push(SchemaStatement::CreateTable(session));
    stmts.push(SchemaStatement::CreateTable(session_rowers));
    stmts.push(SchemaStatement::CreateIndex(rower_id_index));
    stmts.push(SchemaStatement::CreateIndex(session_id_index));
    stmts
}

/// The structured statements of the migration carrying the given version.
/// Version 1 declares the session schema; no later version is declared, so
/// any other version carries no statements.
pub fn statements_for_version(version: u64) -> (stmts: Vec<SchemaStatement>)
    ensures
        version == 1 ==> is_session_schema(stmts@),
        version != 1 ==> stmts@.len() == 0,
{
    if version == 1 {
        session_schema()
    } else {
        Vec::new()
    }
}

} // verus!
