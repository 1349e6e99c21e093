use rowing_sessions::migration::Migration;
use rowing_sessions::migration::MigrationKind;
use rowing_sessions::registry::Registry;
use rowing_sessions::startup::Capability;
use rowing_sessions::startup::CapabilitySpec;
use rowing_sessions::startup::FailurePolicy;
use rowing_sessions::startup::StartupStep;
use rowing_sessions::startup::autostart_args;
use rowing_sessions::startup::default_config;
use rowing_sessions::startup::step_after_capability;
use rowing_sessions::startup::step_after_migration;

fn record(version: u64, kind: MigrationKind) -> Migration {
    Migration {
        version,
        description: format!("migration_{}", version),
        script: "CREATE TABLE IF NOT EXISTS t (id TEXT PRIMARY KEY);".to_string(),
        kind,
    }
}

#[test]
fn session_registry_declares_version_one() {
    let reg = Registry::session_registry();
    assert_eq!(reg.records.len(), 1);
    assert_eq!(reg.records[0].version, 1);
    assert_eq!(reg.records[0].description, "create_session_tables");
    assert!(matches!(reg.records[0].kind, MigrationKind::Up));
    assert!(reg.records[0].script.contains("CREATE TABLE IF NOT EXISTS session ("));
    assert!(reg.records[0].script.contains("CREATE TABLE IF NOT EXISTS session_rowers ("));
    assert!(reg.records[0].script.contains("PRIMARY KEY (session_id, rower_id)"));
    assert!(reg.records[0].script.contains("ON DELETE CASCADE"));
    assert!(reg.records[0]
        .script
        .contains("CREATE INDEX IF NOT EXISTS idx_session_rowers_rower_id ON session_rowers (rower_id);"));
    assert!(reg.records[0]
        .script
        .contains("CREATE INDEX IF NOT EXISTS idx_session_rowers_session_id ON session_rowers (session_id);"));
    assert_eq!(reg.last_version(), 1);
}

#[test]
fn constructed_registry_versions_unique_and_ascending() {
    let mut reg = Registry::new();
    assert_eq!(reg.last_version(), 0);
    assert!(reg.add(record(1, MigrationKind::Up)));
    assert!(reg.add(record(3, MigrationKind::Up)));
    assert!(reg.add(record(7, MigrationKind::Up)));
    let versions: Vec<u64> = reg.records.iter().map(|m| m.version).collect();
    assert_eq!(versions, vec![1, 3, 7]);
    for i in 0..versions.len() {
        for j in (i + 1)..versions.len() {
            assert!(versions[i] < versions[j]);
            assert_ne!(versions[i], versions[j]);
        }
    }
    assert_eq!(reg.last_version(), 7);
}

#[test]
fn registry_refuses_duplicate_or_stale_versions() {
    let mut reg = Registry::new();
    assert!(reg.add(record(2, MigrationKind::Up)));
    assert!(!reg.add(record(2, MigrationKind::Up)));
    assert!(!reg.add(record(1, MigrationKind::Up)));
    assert!(!reg.add(record(0, MigrationKind::Up)));
    assert!(!reg.add(record(5, MigrationKind::Down)));
    assert_eq!(reg.records.len(), 1);
    assert_eq!(reg.last_version(), 2);
}

#[test]
fn default_config_names_local_database_file() {
    let config = default_config();
    assert_eq!(config.connection, "sqlite:main.db");
    assert_eq!(config.registry.records.len(), 1);
    assert_eq!(config.registry.records[0].version, 1);
}

#[test]
fn default_config_carries_the_declared_record() {
    // the configuration handed to the shell carries the session-schema
    // record itself, not merely some version-1 record
    let config = default_config();
    let canonical = Registry::session_registry();
    assert_eq!(config.registry.records[0].description, "create_session_tables");
    assert_eq!(config.registry.records[0].script, canonical.records[0].script);
    assert!(matches!(config.registry.records[0].kind, MigrationKind::Up));
    assert!(config.registry.records[0].script.contains("CREATE TABLE IF NOT EXISTS session ("));
    assert!(config.registry.records[0].script.contains("ON DELETE CASCADE"));
}

#[test]
fn default_config_capability_list_and_policies() {
    let config = default_config();
    let caps = &config.capabilities;
    assert_eq!(caps.len(), 5);
    assert!(matches!(caps[0].capability, Capability::Autostart));
    assert!(matches!(caps[0].policy, FailurePolicy::Continue));
    assert!(matches!(caps[1].capability, Capability::Filesystem));
    assert!(matches!(caps[1].policy, FailurePolicy::Fatal));
    assert!(matches!(caps[2].capability, Capability::Dialog));
    assert!(matches!(caps[2].policy, FailurePolicy::Fatal));
    assert!(matches!(caps[3].capability, Capability::Database));
    assert!(matches!(caps[3].policy, FailurePolicy::Fatal));
    assert!(matches!(caps[4].capability, Capability::Shell));
    assert!(matches!(caps[4].policy, FailurePolicy::Fatal));
}

#[test]
fn fatal_capability_failure_aborts_startup() {
    let fatal = CapabilitySpec { capability: Capability::Database, policy: FailurePolicy::Fatal };
    let tolerated =
        CapabilitySpec { capability: Capability::Autostart, policy: FailurePolicy::Continue };
    assert!(matches!(step_after_capability(&fatal, false), StartupStep::Abort));
    assert!(matches!(step_after_capability(&fatal, true), StartupStep::Proceed));
    assert!(matches!(step_after_capability(&tolerated, false), StartupStep::Proceed));
    assert!(matches!(step_after_capability(&tolerated, true), StartupStep::Proceed));
}

#[test]
fn migration_failure_is_fatal() {
    assert!(matches!(step_after_migration(false), StartupStep::Abort));
    assert!(matches!(step_after_migration(true), StartupStep::Proceed));
}

#[test]
fn autostart_arguments_are_fixed() {
    let args = autostart_args();
    assert_eq!(args, vec!["--flag1".to_string(), "--flag2".to_string()]);
}
