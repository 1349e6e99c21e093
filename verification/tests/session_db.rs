use rowing_sessions::database::Database;
use rowing_sessions::database::DbError;
use rowing_sessions::database::SessionRow;
use rowing_sessions::database::SessionRowerRow;
use rowing_sessions::registry::Registry;
use rowing_sessions::schema::ColumnType;
use rowing_sessions::schema::IndexDef;
use rowing_sessions::schema::SchemaStatement;
use rowing_sessions::schema::TableDef;
use rowing_sessions::schema::session_schema;
use rowing_sessions::schema::statements_for_version;

fn session_row(id: &str, boat_id: &str, start: &str) -> SessionRow {
    SessionRow {
        id: id.to_string(),
        boat_id: boat_id.to_string(),
        start_date_time: start.to_string(),
        estimated_end_date_time: None,
        route_id: None,
        end_date_time: None,
        incident_id: None,
        comment: None,
    }
}

fn rower_row(session_id: &str, rower_id: &str) -> SessionRowerRow {
    SessionRowerRow { session_id: session_id.to_string(), rower_id: rower_id.to_string() }
}

fn migrated() -> Database {
    let mut db = Database::fresh();
    let reg = Registry::session_registry();
    db.migrate(&reg).expect("migration of a fresh database succeeds");
    db
}

fn unguarded_table(name: &str) -> TableDef {
    let mut stmts = session_schema();
    match stmts.remove(0) {
        SchemaStatement::CreateTable(mut t) => {
            t.name = name.to_string();
            t.if_not_exists = false;
            t
        }
        SchemaStatement::CreateIndex(_) => panic!("the first declared statement is a table"),
    }
}

#[test]
fn fresh_migration_creates_exactly_declared_objects() {
    let db = migrated();
    assert_eq!(db.version, 1);
    assert_eq!(db.objects.len(), 4);
    match &db.objects[0] {
        SchemaStatement::CreateTable(t) => {
            assert_eq!(t.name, "session");
            assert!(t.if_not_exists);
            let names: Vec<&str> = t.columns.iter().map(|c| c.name.as_str()).collect();
            assert_eq!(
                names,
                vec![
                    "id",
                    "boat_id",
                    "start_date_time",
                    "estimated_end_date_time",
                    "route_id",
                    "end_date_time",
                    "incident_id",
                    "comment"
                ]
            );
            for c in &t.columns {
                assert!(matches!(c.ctype, ColumnType::Text));
            }
            assert!(t.columns[1].not_null);
            assert!(t.columns[2].not_null);
            assert!(!t.columns[3].not_null);
            assert_eq!(t.primary_key, vec![0]);
            assert!(t.foreign_keys.is_empty());
        }
        SchemaStatement::CreateIndex(_) => panic!("expected the session table first"),
    }
    match &db.objects[1] {
        SchemaStatement::CreateTable(t) => {
            assert_eq!(t.name, "session_rowers");
            let names: Vec<&str> = t.columns.iter().map(|c| c.name.as_str()).collect();
            assert_eq!(names, vec!["session_id", "rower_id"]);
            assert_eq!(t.primary_key, vec![0, 1]);
            assert_eq!(t.foreign_keys.len(), 1);
            assert_eq!(t.foreign_keys[0].column, 0);
            assert_eq!(t.foreign_keys[0].parent_table, "session");
            assert!(t.foreign_keys[0].on_delete_cascade);
        }
        SchemaStatement::CreateIndex(_) => panic!("expected the session_rowers table second"),
    }
    let index_names: Vec<&str> = db.objects[2..]
        .iter()
        .map(|s| match s {
            SchemaStatement::CreateIndex(x) => x.name.as_str(),
            SchemaStatement::CreateTable(_) => panic!("expected the two indexes last"),
        })
        .collect();
    assert_eq!(
        index_names,
        vec!["idx_session_rowers_rower_id", "idx_session_rowers_session_id"]
    );
    assert!(db.has_table(&"session".to_string()));
    assert!(db.has_table(&"session_rowers".to_string()));
    assert!(db.has_index(&"idx_session_rowers_rower_id".to_string()));
    assert!(db.has_index(&"idx_session_rowers_session_id".to_string()));
}

#[test]
fn applying_registry_twice_is_a_no_op() {
    let mut db = migrated();
    let reg = Registry::session_registry();
    assert_eq!(db.migrate(&reg), Ok(()));
    assert_eq!(db.version, 1);
    assert_eq!(db.objects.len(), 4);
}

#[test]
fn version_bookkeeping_skips_applied_migrations_without_guards() {
    // A plain, unguarded table creation: running the statement twice would
    // error, so only the version bookkeeping protects a second application.
    let mut db = Database::fresh();
    let stmts = vec![SchemaStatement::CreateTable(unguarded_table("boats"))];
    assert_eq!(db.apply_migration(1, stmts), Ok(()));
    assert_eq!(db.version, 1);
    assert_eq!(db.objects.len(), 1);
    let again = vec![SchemaStatement::CreateTable(unguarded_table("boats"))];
    assert_eq!(db.apply_migration(1, again), Ok(()));
    assert_eq!(db.version, 1);
    assert_eq!(db.objects.len(), 1);
}

#[test]
fn unguarded_creation_of_taken_name_errors_and_rolls_back() {
    let mut db = Database::fresh();
    let first = vec![SchemaStatement::CreateTable(unguarded_table("boats"))];
    assert_eq!(db.apply_migration(1, first), Ok(()));
    let clash = vec![SchemaStatement::CreateTable(unguarded_table("oars")),
        SchemaStatement::CreateTable(unguarded_table("boats"))];
    assert_eq!(db.apply_migration(2, clash), Err(DbError::ObjectExists));
    // the failed migration's transaction left nothing behind
    assert_eq!(db.version, 1);
    assert_eq!(db.objects.len(), 1);
}

#[test]
fn guarded_creation_of_taken_name_is_a_no_op() {
    // idempotent-safe statements: running the declared schema's first
    // statement against a migrated database neither errors nor duplicates
    let mut db = migrated();
    let mut declared = session_schema();
    let first = declared.remove(0);
    assert_eq!(db.exec_statement(first), Ok(()));
    assert_eq!(db.objects.len(), 4);
}

#[test]
fn index_on_missing_table_errors() {
    let mut db = Database::fresh();
    let orphan = IndexDef {
        name: "idx_orphan".to_string(),
        table: "nowhere".to_string(),
        column: "id".to_string(),
        unique: false,
        if_not_exists: true,
    };
    assert_eq!(
        db.exec_statement(SchemaStatement::CreateIndex(orphan)),
        Err(DbError::NoSuchTable)
    );
    assert!(db.objects.is_empty());
}

#[test]
fn statements_declared_only_for_version_one() {
    assert_eq!(statements_for_version(1).len(), 4);
    assert!(statements_for_version(2).is_empty());
    assert!(statements_for_version(0).is_empty());
}

#[test]
fn insert_before_migration_reports_missing_table() {
    let mut db = Database::fresh();
    assert_eq!(
        db.insert_session(session_row("s1", "b1", "2024-01-01T00:00:00")),
        Err(DbError::NoSuchTable)
    );
    assert_eq!(db.insert_session_rower(rower_row("s1", "r1")), Err(DbError::NoSuchTable));
}

#[test]
fn duplicate_session_id_fails_unique_constraint() {
    let mut db = migrated();
    assert_eq!(db.insert_session(session_row("s1", "b1", "2024-01-01T00:00:00")), Ok(()));
    assert_eq!(
        db.insert_session(session_row("s1", "b2", "2024-02-02T00:00:00")),
        Err(DbError::UniqueConstraint)
    );
    assert_eq!(db.sessions.len(), 1);
}

#[test]
fn rower_row_without_session_fails_foreign_key() {
    let mut db = migrated();
    assert_eq!(
        db.insert_session_rower(rower_row("missing", "r1")),
        Err(DbError::ForeignKeyConstraint)
    );
    assert!(db.session_rowers.is_empty());
}

#[test]
fn duplicate_rower_pair_fails_unique_constraint() {
    let mut db = migrated();
    assert_eq!(db.insert_session(session_row("s1", "b1", "2024-01-01T00:00:00")), Ok(()));
    assert_eq!(db.insert_session_rower(rower_row("s1", "r1")), Ok(()));
    assert_eq!(db.insert_session_rower(rower_row("s1", "r1")), Err(DbError::UniqueConstraint));
    assert_eq!(db.session_rowers.len(), 1);
    // a different rower in the same session is a different key
    assert_eq!(db.insert_session_rower(rower_row("s1", "r2")), Ok(()));
}

#[test]
fn deleting_session_cascades_to_its_rowers() {
    let mut db = migrated();
    assert_eq!(db.insert_session(session_row("s1", "b1", "2024-01-01T00:00:00")), Ok(()));
    assert_eq!(db.insert_session(session_row("s2", "b2", "2024-01-02T00:00:00")), Ok(()));
    assert_eq!(db.insert_session_rower(rower_row("s1", "r1")), Ok(()));
    assert_eq!(db.insert_session_rower(rower_row("s1", "r2")), Ok(()));
    assert_eq!(db.insert_session_rower(rower_row("s2", "r1")), Ok(()));
    assert_eq!(db.delete_session(&"s1".to_string()), Ok(1));
    assert!(db.get_session(&"s1".to_string()).is_none());
    assert!(db.rowers_of(&"s1".to_string()).is_empty());
    let left = db.rowers_of(&"s2".to_string());
    assert_eq!(left.len(), 1);
    assert_eq!(left[0].session_id, "s2");
    assert_eq!(left[0].rower_id, "r1");
    assert_eq!(db.session_rowers.len(), 1);
    // deleting an id that is gone removes nothing
    assert_eq!(db.delete_session(&"s1".to_string()), Ok(0));
}

#[test]
fn end_to_end_session_lifecycle() {
    // an empty database file, then migration version 1
    let mut db = Database::fresh();
    assert_eq!(db.version, 0);
    let reg = Registry::session_registry();
    assert_eq!(db.migrate(&reg), Ok(()));
    assert!(db.has_table(&"session".to_string()));
    assert!(db.has_table(&"session_rowers".to_string()));
    // one session row and one rower row
    assert_eq!(db.insert_session(session_row("s1", "b1", "2024-01-01T00:00:00")), Ok(()));
    assert_eq!(db.insert_session_rower(rower_row("s1", "r1")), Ok(()));
    let found = db.get_session(&"s1".to_string()).expect("the inserted session is found");
    assert_eq!(found.id, "s1");
    assert_eq!(found.boat_id, "b1");
    assert_eq!(found.start_date_time, "2024-01-01T00:00:00");
    let rowers = db.rowers_of(&"s1".to_string());
    assert_eq!(rowers.len(), 1);
    assert_eq!(rowers[0].session_id, "s1");
    assert_eq!(rowers[0].rower_id, "r1");
    // deleting the session takes the rower row with it
    assert_eq!(db.delete_session(&"s1".to_string()), Ok(1));
    assert!(db.get_session(&"s1".to_string()).is_none());
    assert!(db.rowers_of(&"s1".to_string()).is_empty());
    assert!(db.sessions.is_empty());
    assert!(db.session_rowers.is_empty());
}
