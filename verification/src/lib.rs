//! Schema-migration registry for a rowing session-tracking application,
//! together with a verified model of the local database it manages.
//!
//! The library owns the declarative side of application startup: the ordered
//! list of versioned schema migrations, the structured description of the
//! session schema those migrations create, a model of how the database
//! engine applies them (version bookkeeping, transactional failure), the
//! row-level constraints the schema declares (primary keys, the foreign key
//! from `session_rowers` to `session` with cascading deletes), and the
//! startup configuration handed to the application shell.

pub mod database;
pub mod migration;
pub mod registry;
pub mod schema;
pub mod startup;
