//! Restoring a saved session.

pub mod completion;
pub mod existing;
pub mod identity;
pub mod launch;
pub mod launched;
pub mod observe;
pub mod planning;
pub mod reconcile;
pub mod replace;
pub mod replacing;
pub mod report;
pub mod restoring;
pub mod targets;
pub mod windows;

pub use crate::placement::build_reconcile_dispatch_commands;
pub use completion::{replacement_target_is_complete, replacement_target_is_complete_with_backup};
pub use identity::{MatchKind, ObservedClient};
pub use launch::{build_dispatch_commands, build_launch_command};
pub use planning::{plan_reconciliation, ReconcilePair};
pub use report::{
    LaunchedProcess, ProcessLauncher, ReconcileReport, RestoreError, RestoreReport,
};
pub use targets::{
    validate_replacement_targets, validate_safety_snapshot, validate_safety_snapshot_with_config,
};
