//! The immutable startup configuration handed to the application shell.
//!
//! The shell itself (windows, plugin loading, event loop) is an outside
//! collaborator; the library owns what is decided here: which capabilities
//! are registered, in what order, what a failure of each does to startup,
//! which database file is opened, and which migrations are declared.

use vstd::prelude::*;
use crate::registry::Registry;

verus! {

/// A capability the application asks of its host platform. Each one is an
/// opaque module of the shell; the library decides only the order of
/// registration and the reaction to a failure.
#[derive(Clone, Copy, PartialEq, Eq, Structural, Debug)]
pub enum Capability {
    Filesystem,
    Dialog,
    Database,
    Shell,
    Autostart,
}

/// What a failure of one capability initializer does to startup.
#[derive(Clone, Copy, PartialEq, Eq, Structural, Debug)]
pub enum FailurePolicy {
    /// Startup is aborted with a fatal message.
    Fatal,
    /// The failure is reported and startup continues without the capability.
    Continue,
}

/// One capability together with its failure policy.
#[derive(Clone, Copy, PartialEq, Eq, Structural, Debug)]
pub struct CapabilitySpec {
    pub capability: Capability,
    pub policy: FailurePolicy,
}

/// What startup does after one capability initializer reports its outcome.
#[derive(Clone, Copy, PartialEq, Eq, Structural, Debug)]
pub enum StartupStep {
    Proceed,
    Abort,
}

/// The whole startup configuration, assembled once and not mutated
/// afterwards: the connection identifier of the local database file, the
/// migration registry, and the ordered capability list.
pub struct StartupConfig {
    pub connection: String,
    pub registry: Registry,
    pub capabilities: Vec<CapabilitySpec>,
}

/// The capability list this application declares, in registration order.
/// Autostart is the one capability the application can run without, so its
/// failure is reported and startup continues; every other failure is fatal.
pub open spec fn is_declared_capabilities(caps: Seq<CapabilitySpec>) -> bool {
    &&& caps.len() == 5
    &&& caps[0] == (CapabilitySpec {
        capability: Capability::Autostart,
        policy: FailurePolicy::Continue,
    })
    &&& caps[1] == (CapabilitySpec {
        capability: Capability::Filesystem,
        policy: FailurePolicy::Fatal,
    })
    &&& caps[2] == (CapabilitySpec { capability: Capability::Dialog, policy: FailurePolicy::Fatal })
    &&& caps[3] == (CapabilitySpec {
        capability: Capability::Database,
        policy: FailurePolicy::Fatal,
    })
    &&& caps[4] == (CapabilitySpec { capability: Capability::Shell, policy: FailurePolicy::Fatal })
}

/// The configuration this application starts with: the local database file
/// `main.db`, the declared migration registry, and the declared capability
/// list.
pub fn default_config() -> (config: StartupConfig)
    ensures
        config.connection@ == "sqlite:main.db"@,
        config.registry.wf(),
        config.registry.records@.len() == 1,
        config.registry.records@[0].version == 1,
        config.registry.records@[0].kind == crate::migration::MigrationKind::Up,
        config.registry.records@[0].description@ == "create_session_tables"@,
        config.registry.records@[0].script@ == crate::registry::spec_session_script(),
        is_declared_capabilities(config.capabilities@),
{
    let mut capabilities: Vec<CapabilitySpec> = Vec::new();
    capabilities.push(
        CapabilitySpec { capability: Capability::Autostart, policy: FailurePolicy::Continue },
    );
    capabilities.push(
        CapabilitySpec { capability: Capability::Filesystem, policy: FailurePolicy::Fatal },
    );
    capabilities.push(
        CapabilitySpec { capability: Capability::Dialog, policy: FailurePolicy::Fatal },
    );
    capabilities.push(
        CapabilitySpec { capability: Capability::Database, policy: FailurePolicy::Fatal },
    );
    capabilities.push(
        CapabilitySpec { capability: Capability::Shell, policy: FailurePolicy::Fatal },
    );
    StartupConfig {
        connection: "sqlite:main.db".to_owned(),
        registry: Registry::session_registry(),
        capabilities: capabilities,
    }
}

/// The reaction to one capability initializer's outcome: startup goes on
/// unless a capability under the fatal policy failed.
pub fn step_after_capability(spec: &CapabilitySpec, succeeded: bool) -> (s: StartupStep)
    ensures
        (s == StartupStep::Abort) <==> (!succeeded && spec.policy == FailurePolicy::Fatal),
{
    if !succeeded && matches!(spec.policy, FailurePolicy::Fatal) {
        StartupStep::Abort
    } else {
        StartupStep::Proceed
    }
}

/// The reaction to the migration step's outcome: a migration failure is
/// fatal, with no partial-success continuation.
pub fn step_after_migration(succeeded: bool) -> (s: StartupStep)
    ensures
        (s == StartupStep::Abort) <==> !succeeded,
{
    if succeeded {
        StartupStep::Proceed
    } else {
        StartupStep::Abort
    }
}

/// The two fixed launch arguments handed to the autostart registration.
pub fn autostart_args() -> (args: Vec<String>)
    ensures
        args@.len() == 2,
        args@[0]@ == "--flag1"@,
        args@[1]@ == "--flag2"@,
{
    let mut args: Vec<String> = Vec::new();
    args.push("--flag1".to_owned());
    args.push("--flag2".to_owned());
    args
}

} // verus!
