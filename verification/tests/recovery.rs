use hyprloom::config::{AppConfig, Config};
use hyprloom::hyprctl::{HyprClient, HyprWorkspace};
use hyprloom::lists::Table;
use hyprloom::recovery::{
    after_close_check, after_target_check, command_requires_clean_recovery,
    first_close_is_confirmed, plan_recovery, recovery_succeeded, replacement_has_started,
    safety_recovery_config, target_matches_marker, CommandKind, RecoveryStep, ReplaceMarker,
    ReplacePhase,
};
use hyprloom::restore::report::{ReconcileReport, RestoreError};

fn marker(phase: ReplacePhase) -> ReplaceMarker {
    ReplaceMarker {
        phase,
        backup_name: "autosave-1".to_string(),
        target_name: Some("work".to_string()),
        target_digest: Some("d1".to_string()),
        closing_address: Some("0x1".to_string()),
        closing_pid: Some(1000),
        closing_start_time: Some(7),
        closing_stable_id: Some("AB".to_string()),
    }
}

fn window(address: &str, pid: u32, stable_id: Option<&str>) -> HyprClient {
    HyprClient {
        address: address.to_string(),
        class: "kitty".to_string(),
        title: "kitty".to_string(),
        stable_id: stable_id.map(str::to_string),
        initial_class: "kitty".to_string(),
        initial_title: "kitty".to_string(),
        workspace: HyprWorkspace {
            id: 1,
            name: "1".to_string(),
        },
        monitor: 0,
        at: [0, 0],
        size: [1, 1],
        floating: false,
        fullscreen: 0,
        pinned: false,
        focus_history_id: 0,
        pid,
    }
}

#[test]
fn interrupted_replacements_are_recovered_by_their_phase() {
    assert_eq!(plan_recovery(None), RecoveryStep::Nothing);
    assert_eq!(plan_recovery(Some(&marker(ReplacePhase::Prepared))), RecoveryStep::Discard);
    assert_eq!(plan_recovery(Some(&marker(ReplacePhase::Finalizing))), RecoveryStep::Finalize);
    assert_eq!(plan_recovery(Some(&marker(ReplacePhase::Committed))), RecoveryStep::Finalize);
    assert_eq!(plan_recovery(Some(&marker(ReplacePhase::Closing))), RecoveryStep::ConfirmClose);
    assert_eq!(plan_recovery(Some(&marker(ReplacePhase::InProgress))), RecoveryStep::VerifyTarget);
    let mut bare = marker(ReplacePhase::Closing);
    bare.closing_address = None;
    assert_eq!(plan_recovery(Some(&bare)), RecoveryStep::Incomplete);
    let mut nameless = marker(ReplacePhase::InProgress);
    nameless.target_name = None;
    assert_eq!(plan_recovery(Some(&nameless)), RecoveryStep::Restore);
}

#[test]
fn checks_lead_to_the_next_step() {
    assert_eq!(after_close_check(Some(false)), RecoveryStep::Discard);
    assert_eq!(after_close_check(None), RecoveryStep::Undecided);
    assert_eq!(after_close_check(Some(true)), RecoveryStep::Restore);
    assert_eq!(after_target_check(true, Some(true)), RecoveryStep::Finalize);
    assert_eq!(after_target_check(true, Some(false)), RecoveryStep::Restore);
    assert_eq!(after_target_check(true, None), RecoveryStep::Restore);
    assert_eq!(after_target_check(false, Some(true)), RecoveryStep::Restore);
    let found = marker(ReplacePhase::InProgress);
    assert!(target_matches_marker(&found, &Some("d1".to_string())));
    assert!(!target_matches_marker(&found, &Some("d2".to_string())));
    assert!(!target_matches_marker(&found, &None));
}

#[test]
fn replacements_start_with_their_first_close() {
    assert_eq!(replacement_has_started(None, None), Some(false));
    assert_eq!(
        replacement_has_started(Some(&marker(ReplacePhase::InProgress)), None),
        Some(true)
    );
    assert_eq!(replacement_has_started(Some(&marker(ReplacePhase::Prepared)), None), Some(false));
    assert_eq!(replacement_has_started(Some(&marker(ReplacePhase::Closing)), None), None);
    assert_eq!(
        replacement_has_started(Some(&marker(ReplacePhase::Closing)), Some(true)),
        Some(true)
    );
}

#[test]
fn closes_are_confirmed_by_other_windows_only() {
    let found = marker(ReplacePhase::Closing);
    assert!(first_close_is_confirmed(&found, &[], None));
    assert!(first_close_is_confirmed(&found, &[window("0x2", 1000, None)], None));
    // The same window is still there.
    assert!(!first_close_is_confirmed(&found, &[window("0x1", 1000, Some("ab"))], Some(8)));
    // Another window stands at the address.
    assert!(first_close_is_confirmed(&found, &[window("0x1", 1000, Some("cd"))], Some(7)));
    assert!(first_close_is_confirmed(&found, &[window("0x1", 2000, None)], None));
    assert!(first_close_is_confirmed(&found, &[window("0x1", 1000, None)], Some(8)));
    assert!(!first_close_is_confirmed(&found, &[window("0x1", 1000, None)], Some(7)));
    assert!(!first_close_is_confirmed(&found, &[window("0x1", 1000, None)], None));
}

#[test]
fn commands_that_change_things_need_a_clean_desktop() {
    assert!(!command_requires_clean_recovery(CommandKind::List));
    assert!(!command_requires_clean_recovery(CommandKind::Config));
    assert!(command_requires_clean_recovery(CommandKind::Save));
    assert!(command_requires_clean_recovery(CommandKind::Replace));
    assert!(command_requires_clean_recovery(CommandKind::Delete));
    assert!(command_requires_clean_recovery(CommandKind::Recover));
    for (dry_run, on_login) in [(false, false), (true, false), (false, true), (true, true)] {
        assert_eq!(
            command_requires_clean_recovery(CommandKind::Restore { dry_run, on_login }),
            !dry_run && !on_login
        );
    }
    assert!(command_requires_clean_recovery(CommandKind::Autosave { now: true }));
    assert!(!command_requires_clean_recovery(CommandKind::Autosave { now: false }));
}

#[test]
fn safety_snapshots_ignore_no_window_and_no_profile() {
    let mut config = Config::default();
    let mut workspaces: Table<i32> = Table::new();
    workspaces.insert("Default".to_string(), 1);
    config.apps.insert(
        "Brave-Browser".to_string(),
        AppConfig {
            binary: Some("brave".to_string()),
            capture_cwd: None,
            capture_last_command: None,
            hint_template: None,
            profile_workspaces: Some(workspaces),
            default_workspace: Some(2),
        },
    );
    let recovery = safety_recovery_config(&config);
    assert!(recovery.filters.ignore_classes.is_empty());
    let app = recovery.apps.get("Brave-Browser").unwrap();
    assert!(app.profile_workspaces.is_none());
    assert_eq!(app.binary.as_deref(), Some("brave"));
    assert_eq!(app.default_workspace, Some(2));
}

#[test]
fn recovery_succeeds_when_nothing_failed_or_was_left_out() {
    let mut report = ReconcileReport::default();
    assert!(recovery_succeeded(&Ok(report)));
    report = ReconcileReport::default();
    report.skipped = 1;
    assert!(!recovery_succeeded(&Ok(report)));
    report = ReconcileReport::default();
    report.failed = 1;
    assert!(!recovery_succeeded(&Ok(report)));
    assert!(!recovery_succeeded(&Err(RestoreError::ReplaceTimeout)));
}
