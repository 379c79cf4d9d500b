use hyprloom::autosave::{
    bounded_stderr, bounded_text, check_directory, check_marker, check_parent, check_privacy,
    check_program, check_unit, is_active, is_enabled, is_installed, marker_content, migrate_legacy_units_with,
    first_uninstall_step, needs_private_mode, next_install_step, next_migration_step,
    next_uninstall_step, rollback_is_needed, service_content, systemd_quote_path, timer_content,
    uninstall_with, InstallPhase, InstallStep, MigrationPhase, MigrationStep, SystemctlOutcome,
    SystemctlRunner, UninstallPhase, UninstallStep, UnitFiles, UnitState, LEGACY_SERVICE_NAME,
    LEGACY_TIMER_NAME, SERVICE_NAME, TIMER_NAME,
};
use hyprloom::files::{is_executable, FileFacts};
use std::cell::RefCell;

/// Scripted systemctl runner: fails specific (verb, ordinal) calls with a
/// configurable exit status.
struct ScriptedSystemctl {
    failures: Vec<(String, usize)>,
    fail_code: i32,
    calls: RefCell<Vec<Vec<String>>>,
}

impl ScriptedSystemctl {
    fn failing(verb: &str, ordinal: usize) -> Self {
        Self::failing_with_code(verb, ordinal, 1)
    }

    fn failing_with_code(verb: &str, ordinal: usize, code: i32) -> Self {
        Self {
            failures: vec![(verb.to_owned(), ordinal)],
            fail_code: code,
            calls: RefCell::new(Vec::new()),
        }
    }

    fn always_succeeding() -> Self {
        Self {
            failures: Vec::new(),
            fail_code: 1,
            calls: RefCell::new(Vec::new()),
        }
    }

    fn recorded_commands(&self) -> Vec<Vec<String>> {
        self.calls.borrow().clone()
    }

    fn first_failure(&self, verb: &str) -> Option<(String, usize)> {
        self.failures.iter().find(|(failed_verb, _)| failed_verb == verb).cloned()
    }

    fn record_verb_call(&self, call: &[String]) -> usize {
        let verb = scripted_call_verb(call);
        let mut calls = self.calls.borrow_mut();
        calls.push(call.to_owned());
        calls.iter().filter(|recorded| scripted_call_verb(recorded) == verb).count()
    }

    fn recorded_verbs(&self) -> Vec<String> {
        self.recorded_commands().iter().map(|call| scripted_call_verb(call)).collect()
    }
}

impl SystemctlRunner for ScriptedSystemctl {
    fn run(&self, args: &[&str]) -> SystemctlOutcome {
        let call: Vec<String> = args.iter().map(|argument| (*argument).to_owned()).collect();
        let verb = scripted_call_verb(&call);
        let ordinal = self.record_verb_call(&call);
        match self.first_failure(&verb) {
            Some((_, target)) if target == ordinal => SystemctlOutcome {
                success: false,
                code: Some(self.fail_code),
                stderr: format!("fake systemctl: {verb} refused"),
            },
            _ => SystemctlOutcome {
                success: true,
                code: Some(0),
                stderr: String::new(),
            },
        }
    }
}

/// Refuses every command.
struct Refusing;

impl SystemctlRunner for Refusing {
    fn run(&self, _: &[&str]) -> SystemctlOutcome {
        SystemctlOutcome {
            success: false,
            code: None,
            stderr: String::new(),
        }
    }
}

fn scripted_call_verb(call: &[String]) -> String {
    call.iter().find(|argument| !argument.starts_with('-')).cloned().unwrap_or_default()
}

fn no_units() -> UnitFiles {
    UnitFiles {
        service: UnitState::Missing,
        timer: UnitState::Missing,
        legacy_service: UnitState::Missing,
        legacy_timer: UnitState::Missing,
    }
}

fn all_units() -> UnitFiles {
    UnitFiles {
        service: UnitState::Regular,
        timer: UnitState::Regular,
        legacy_service: UnitState::Regular,
        legacy_timer: UnitState::Regular,
    }
}

fn legacy_units_only() -> UnitFiles {
    UnitFiles {
        service: UnitState::Missing,
        timer: UnitState::Missing,
        legacy_service: UnitState::Regular,
        legacy_timer: UnitState::Regular,
    }
}

fn remove(units: &mut UnitFiles, name: &str) {
    if name == SERVICE_NAME {
        units.service = UnitState::Missing;
    } else if name == TIMER_NAME {
        units.timer = UnitState::Missing;
    } else if name == LEGACY_SERVICE_NAME {
        units.legacy_service = UnitState::Missing;
    } else {
        units.legacy_timer = UnitState::Missing;
    }
}

/// Does what the plan of an uninstall asks for.
fn uninstall_units(units: &mut UnitFiles, systemctl: &ScriptedSystemctl) -> Result<(), String> {
    let plan = uninstall_with(*units, systemctl)?;
    for name in &plan.remove {
        remove(units, name);
    }
    match plan.refused {
        Some(name) => Err(format!("refusing to remove non-regular systemd unit: {name}")),
        None => Ok(()),
    }
}

/// Does what a migration asks for.
fn migrate_units(units: &mut UnitFiles, systemctl: &ScriptedSystemctl) -> Result<(), String> {
    if migrate_legacy_units_with(*units, systemctl)? {
        units.legacy_service = UnitState::Missing;
        units.legacy_timer = UnitState::Missing;
    }
    Ok(())
}

#[test]
fn migration_of_enabled_legacy_establishes_then_verifies_then_disables() {
    let mut units = legacy_units_only();
    let systemctl = ScriptedSystemctl::always_succeeding();

    migrate_units(&mut units, &systemctl).expect("enabled migration must succeed");

    assert_eq!(
        systemctl.recorded_verbs(),
        vec![
            "is-enabled".to_owned(),
            "enable".to_owned(),
            "is-enabled".to_owned(),
            "disable".to_owned()
        ],
        "query, establish, verify, then retire the legacy timer"
    );
    assert_eq!(units.legacy_timer, UnitState::Missing, "legacy units are removed last");
}

#[test]
fn migration_of_disabled_legacy_never_enables_the_replacement() {
    let mut units = legacy_units_only();
    // is-enabled exits one: the legacy timer is disabled.
    let systemctl = ScriptedSystemctl::failing_with_code("is-enabled", 1, 1);

    migrate_units(&mut units, &systemctl).expect("disabled migration must succeed");

    assert_eq!(
        systemctl.recorded_verbs(),
        vec!["is-enabled".to_owned(), "disable".to_owned()],
        "a disabled legacy timer must not activate the replacement"
    );
    assert_eq!(units.legacy_timer, UnitState::Missing);
}

#[test]
fn migration_query_error_fails_and_retains_legacy_units() {
    let mut units = legacy_units_only();
    // Exit two is a query error, not a disabled answer.
    let systemctl = ScriptedSystemctl::failing_with_code("is-enabled", 1, 2);

    let error =
        migrate_units(&mut units, &systemctl).expect_err("query error must refuse migration");

    assert!(error.contains("could not query"), "{error}");
    assert_eq!(units.legacy_timer, UnitState::Regular, "legacy units are retained");
    assert_eq!(
        systemctl.recorded_commands().len(),
        1,
        "no transitions may follow an unknown state"
    );
}

#[test]
fn migration_enable_failure_retains_the_legacy_schedule() {
    let mut units = legacy_units_only();
    let systemctl = ScriptedSystemctl::failing("enable", 1);

    let error =
        migrate_units(&mut units, &systemctl).expect_err("enable failure must refuse migration");

    assert!(error.contains("legacy units retained"), "{error}");
    assert_eq!(units.legacy_timer, UnitState::Regular, "the legacy schedule survives");
    let legacy_retired = systemctl.recorded_verbs().iter().any(|verb| verb == "disable");
    assert!(!legacy_retired, "the legacy timer is retired only after success");
}

#[test]
fn migration_needs_the_replacement_to_be_verified() {
    let mut units = legacy_units_only();
    let systemctl = ScriptedSystemctl::failing("is-enabled", 2);

    let error = migrate_units(&mut units, &systemctl).expect_err("an unverified timer must refuse");

    assert_eq!(
        error,
        "could not verify the Hyprloom autosave timer during migration (legacy units retained): \
         fake systemctl: is-enabled refused"
    );
    assert_eq!(units.legacy_timer, UnitState::Regular);
    assert!(!systemctl.recorded_verbs().contains(&"disable".to_owned()));
}

#[test]
fn migration_legacy_disable_failure_retains_the_legacy_schedule() {
    let mut units = legacy_units_only();
    let systemctl = ScriptedSystemctl::failing("disable", 1);

    let error =
        migrate_units(&mut units, &systemctl).expect_err("legacy disable failure must refuse");

    assert!(error.contains("legacy units retained"), "{error}");
    assert_eq!(units.legacy_timer, UnitState::Regular, "the legacy timer file survives");
}

#[test]
fn migration_without_legacy_units_is_a_no_op() {
    let mut units = no_units();
    let systemctl = ScriptedSystemctl::always_succeeding();
    migrate_units(&mut units, &systemctl).expect("no legacy units: no-op");
    assert!(systemctl.recorded_commands().is_empty());
}

#[test]
fn uninstall_fails_and_retains_every_unit_when_current_disable_fails() {
    let mut units = all_units();
    let systemctl = ScriptedSystemctl::failing("disable", 1);

    let error = uninstall_units(&mut units, &systemctl)
        .expect_err("current disable failure must refuse");

    assert!(
        error.contains(TIMER_NAME),
        "the stage-and-unit error must name the timer: {error}"
    );
    assert_eq!(units, all_units(), "every unit must be retained on failure");
}

#[test]
fn uninstall_fails_and_retains_every_unit_when_legacy_disable_fails() {
    let mut units = all_units();
    // The current timer disables fine; the legacy timer is the second call.
    let systemctl = ScriptedSystemctl::failing("disable", 2);

    let error =
        uninstall_units(&mut units, &systemctl).expect_err("legacy disable failure must refuse");

    assert!(
        error.contains(LEGACY_TIMER_NAME),
        "the stage-and-unit error must name the legacy timer: {error}"
    );
    assert_eq!(units, all_units(), "every unit must be retained on failure");
}

#[test]
fn uninstall_disables_both_timers_in_order_before_removing_units() {
    let mut units = all_units();
    let systemctl = ScriptedSystemctl::always_succeeding();

    uninstall_units(&mut units, &systemctl).expect("confirmed disables must allow removal");

    assert_eq!(units, no_units(), "every unit must be removed on success");
    let commands = systemctl.recorded_commands();
    assert_eq!(
        commands,
        vec![
            vec![
                "--user".to_owned(),
                "disable".to_owned(),
                "--now".to_owned(),
                TIMER_NAME.to_owned()
            ],
            vec![
                "--user".to_owned(),
                "disable".to_owned(),
                "--now".to_owned(),
                LEGACY_TIMER_NAME.to_owned()
            ],
        ],
        "disable order must be current then legacy, before any deletion"
    );
}

#[test]
fn uninstall_retries_idempotently_after_a_failure() {
    let mut units = all_units();
    let systemctl = ScriptedSystemctl::failing("disable", 1);
    assert!(uninstall_units(&mut units, &systemctl).is_err());

    let retry = ScriptedSystemctl::always_succeeding();
    uninstall_units(&mut units, &retry).expect("retry after cleared failure must succeed");
    assert_eq!(units, no_units(), "retry must complete the removal");
}

#[test]
fn uninstall_without_units_is_a_no_op() {
    let mut units = no_units();
    let systemctl = ScriptedSystemctl::always_succeeding();
    uninstall_units(&mut units, &systemctl).expect("absent install must stay a no-op");
    assert!(
        systemctl.recorded_commands().is_empty(),
        "nothing to disable when nothing is installed"
    );
}

#[test]
fn uninstall_refuses_non_regular_units_but_confirms_disables_first() {
    let mut units = all_units();
    units.service = UnitState::Other;
    let systemctl = ScriptedSystemctl::always_succeeding();

    let error =
        uninstall_units(&mut units, &systemctl).expect_err("non-regular units must be refused");

    assert!(
        error.contains("non-regular"),
        "the error must describe the unsafe unit: {error}"
    );
    assert_eq!(
        systemctl.recorded_commands().len(),
        2,
        "disables are confirmed before the removal phase"
    );
    assert_eq!(
        units.service,
        UnitState::Other,
        "the unsafe entry is retained for the operator"
    );
}

#[test]
fn test_is_installed_checks_timer_file() {
    let mut units = no_units();
    assert!(!is_installed(units));
    units.service = UnitState::Regular;
    units.timer = UnitState::Regular;
    assert!(is_installed(units));
}

#[test]
fn test_uninstall_removes_files() {
    let mut units = no_units();
    units.service = UnitState::Regular;
    units.timer = UnitState::Regular;
    assert!(is_installed(units));
    let systemctl = ScriptedSystemctl::always_succeeding();
    uninstall_units(&mut units, &systemctl).unwrap();
    assert!(!is_installed(units));
    assert_eq!(
        systemctl.recorded_commands().len(),
        1,
        "only the installed current timer requires a disable; the absent legacy timer cannot stay loaded"
    );
}

#[test]
fn test_service_content_format() {
    let content = service_content("/tmp/hyprloom");
    assert!(content.contains("Type=oneshot"));
    assert!(content.contains("autosave --now"));
    assert!(content.contains("ExecStart=\"/tmp/hyprloom\" autosave --now"));
    assert_eq!(
        content,
        "[Unit]\nDescription=Hyprloom autosave session\n\n[Service]\nType=oneshot\nExecStart=\"/tmp/hyprloom\" autosave --now\n"
    );
}

#[test]
fn test_systemd_quote_path_protects_spaces_and_specifiers() {
    assert_eq!(
        systemd_quote_path("/tmp/Desk Loom/100%/hyprloom"),
        "\"/tmp/Desk Loom/100%%/hyprloom\""
    );
}

#[test]
fn quoted_paths_protect_quotes_and_backslashes() {
    assert_ne!(systemd_quote_path("a\\\""), systemd_quote_path("a\""));
    assert_eq!(systemd_quote_path("a\"b\\c"), "\"a\\\"b\\\\c\"");
}

#[test]
fn test_timer_content_format() {
    let content = timer_content();
    assert!(content.contains("OnBootSec=1min"));
    assert!(content.contains("WantedBy=timers.target"));
    assert!(content.contains("OnUnitActiveSec=10min"));
    assert!(content.contains("[Install]"));
}

#[test]
fn either_timer_tells_the_state() {
    let both = ScriptedSystemctl::always_succeeding();
    assert!(is_active(&both));
    assert_eq!(both.recorded_commands().len(), 1);
    assert_eq!(
        both.recorded_commands()[0],
        vec!["--user", "is-active", "--quiet", TIMER_NAME]
    );

    let second = ScriptedSystemctl::failing("is-enabled", 1);
    assert!(is_enabled(&second));
    assert_eq!(second.recorded_commands()[1][3], LEGACY_TIMER_NAME);

    assert!(!is_active(&Refusing));
    assert!(!is_enabled(&Refusing));
}

#[test]
fn interrupted_installs_are_rolled_back_where_units_were_written() {
    assert_eq!(rollback_is_needed("prepared\n"), Ok(false));
    assert_eq!(rollback_is_needed("backed-up\n"), Ok(true));
    assert_eq!(rollback_is_needed("service-written\n"), Ok(true));
    assert_eq!(rollback_is_needed("timer-written\n"), Ok(true));
    assert_eq!(rollback_is_needed("committed\n"), Ok(false));
    assert_eq!(
        rollback_is_needed("half\n"),
        Err("autosave transaction marker has an unknown phase".to_owned())
    );
}

#[test]
fn installs_go_through_their_phases() {
    let mut phase = Some(InstallPhase::Prepared);
    let mut steps = Vec::new();
    let mut rollbacks = Vec::new();
    while let Some(current) = phase {
        rollbacks.push(rollback_is_needed(&marker_content(current)).unwrap());
        let (step, next) = next_install_step(current);
        steps.push(step);
        phase = next;
    }
    assert_eq!(
        steps,
        vec![
            InstallStep::StoreUnits,
            InstallStep::WriteService,
            InstallStep::WriteTimer,
            InstallStep::Commit,
            InstallStep::CleanUp
        ]
    );
    assert_eq!(rollbacks, vec![false, true, true, true, false]);
}

#[test]
fn complaints_are_bounded() {
    assert_eq!(bounded_text("  no such unit \n"), "no such unit");
    let long = "x".repeat(500);
    let bounded = bounded_text(&long);
    assert_eq!(bounded.chars().count(), 401);
    assert!(bounded.ends_with('…'));
    assert_eq!(bounded_stderr(b"Unit not loaded.\n"), "Unit not loaded.");
    assert_eq!(bounded_stderr(&[0xff, b'a']), "\u{fffd}a");
}

fn facts(is_directory: bool, is_owned: bool, mode: u32) -> FileFacts {
    FileFacts {
        is_directory,
        is_file: !is_directory,
        is_owned,
        mode,
    }
}

#[test]
fn directories_and_units_have_to_belong_to_the_user() {
    assert_eq!(check_parent(facts(true, true, 0o755), "/p"), None);
    assert_eq!(check_parent(facts(true, false, 0o1777), "/p"), None);
    assert_eq!(
        check_parent(facts(true, true, 0o777), "/p"),
        Some("autosave parent is writable by another user: /p".to_owned())
    );
    assert_eq!(
        check_parent(facts(false, true, 0o755), "/p"),
        Some("autosave parent is not a directory: /p".to_owned())
    );
    assert_eq!(check_directory(facts(true, true, 0o755), "/d"), None);
    assert_eq!(
        check_directory(facts(true, false, 0o755), "/d"),
        Some("autosave directory is not user-owned and private: /d".to_owned())
    );
    assert_eq!(
        check_directory(facts(false, true, 0o755), "/d"),
        Some("autosave path is not a directory: /d".to_owned())
    );
    assert_eq!(check_unit(facts(false, true, 0o644), "/u"), None);
    assert_eq!(
        check_unit(facts(true, true, 0o644), "/u"),
        Some("systemd unit is not a regular file: /u".to_owned())
    );
    assert_eq!(
        check_unit(facts(false, false, 0o644), "/u"),
        Some("systemd unit is not user-owned: /u".to_owned())
    );
}

#[test]
fn records_have_to_be_private() {
    assert_eq!(check_marker(facts(false, true, 0o644), "/m"), None);
    assert_eq!(
        check_marker(facts(true, true, 0o600), "/m"),
        Some("autosave transaction marker is not a regular file: /m".to_owned())
    );
    assert_eq!(
        check_marker(facts(false, false, 0o600), "/m"),
        Some("autosave transaction marker is not user-owned: /m".to_owned())
    );
    assert!(needs_private_mode(0o100644));
    assert!(!needs_private_mode(0o100600));
    assert_eq!(check_privacy(facts(false, true, 0o600), "/m"), None);
    assert_eq!(
        check_privacy(facts(false, true, 0o644), "/m"),
        Some("autosave transaction marker is not private: /m".to_owned())
    );
}

#[test]
fn services_run_executables_only() {
    assert_eq!(check_program(true, facts(false, true, 0o755)), None);
    assert_eq!(
        check_program(false, facts(false, true, 0o755)),
        Some("current executable path is not absolute".to_owned())
    );
    assert_eq!(
        check_program(true, facts(true, true, 0o755)),
        Some("current executable is not a regular file".to_owned())
    );
    assert_eq!(
        check_program(true, facts(false, true, 0o644)),
        Some("current executable is not executable".to_owned())
    );
    assert!(is_executable(facts(false, true, 0o755)));
    assert!(!is_executable(facts(false, true, 0o644)));
    assert!(!is_executable(facts(true, true, 0o755)));
}

#[test]
fn test_uninstall_noop_when_not_installed() {
    assert!(uninstall_with(no_units(), &Refusing).unwrap().remove.is_empty());
}

#[test]
fn refused_uninstalls_remove_nothing() {
    for refused in 0..4 {
        let mut units = all_units();
        match refused {
            0 => units.service = UnitState::Other,
            1 => units.timer = UnitState::Other,
            2 => units.legacy_service = UnitState::Other,
            _ => units.legacy_timer = UnitState::Other,
        }
        let before = units;
        let systemctl = ScriptedSystemctl::always_succeeding();
        let error = uninstall_units(&mut units, &systemctl).unwrap_err();
        assert!(error.contains("non-regular"), "{error}");
        assert_eq!(units, before);
    }
}

fn answer(success: bool, code: i32) -> SystemctlOutcome {
    SystemctlOutcome {
        success,
        code: Some(code),
        stderr: "no".to_owned(),
    }
}

#[test]
fn the_legacy_timer_is_disabled_after_the_new_one_is_verified() {
    let steps = [
        (MigrationPhase::QueryLegacy, answer(true, 0), Some(MigrationPhase::EnableTimer)),
        (MigrationPhase::QueryLegacy, answer(false, 1), Some(MigrationPhase::DisableLegacy)),
        (MigrationPhase::QueryLegacy, answer(false, 2), None),
        (MigrationPhase::EnableTimer, answer(true, 0), Some(MigrationPhase::VerifyTimer)),
        (MigrationPhase::EnableTimer, answer(false, 1), None),
        (MigrationPhase::VerifyTimer, answer(true, 0), Some(MigrationPhase::DisableLegacy)),
        (MigrationPhase::VerifyTimer, answer(false, 1), None),
        (MigrationPhase::DisableLegacy, answer(false, 1), None),
    ];
    for (phase, last, expected) in steps {
        match (next_migration_step(phase, &last), expected) {
            (MigrationStep::Run(next), Some(expected)) => assert_eq!(next, expected),
            (MigrationStep::Fail(message), None) => {
                assert!(message.contains("legacy units retained"), "{message}");
            }
            (step, _) => panic!("unexpected {step:?} after {phase:?}"),
        }
    }
    assert!(matches!(
        next_migration_step(MigrationPhase::DisableLegacy, &answer(true, 0)),
        MigrationStep::Remove
    ));
}

#[test]
fn timers_are_disabled_in_order_before_units_go() {
    let units = all_units();
    assert!(matches!(
        first_uninstall_step(units),
        UninstallStep::Run(UninstallPhase::DisableTimer)
    ));
    assert!(matches!(
        next_uninstall_step(units, UninstallPhase::DisableTimer, &answer(true, 0)),
        UninstallStep::Run(UninstallPhase::DisableLegacyTimer)
    ));
    match next_uninstall_step(units, UninstallPhase::DisableLegacyTimer, &answer(true, 0)) {
        UninstallStep::Remove(plan) => assert_eq!(plan.remove.len(), 4),
        step => panic!("unexpected {step:?}"),
    }
    match next_uninstall_step(units, UninstallPhase::DisableTimer, &answer(false, 1)) {
        UninstallStep::Fail(message) => assert!(message.contains(TIMER_NAME), "{message}"),
        step => panic!("unexpected {step:?}"),
    }
}
