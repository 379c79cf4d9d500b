use hyprloom::config::{AppConfig, Config, FilterConfig, GeneralConfig};
use hyprloom::hyprctl::{
    HyprClient, HyprMonitor, HyprWorkspace, HyprctlClient, HyprctlError,
};
use hyprloom::lists::{Table, TextSet};
use hyprloom::matching::MatchingStrategy;
use hyprloom::placement::{
    adapt_client_geometry, build_reconcile_dispatch_commands,
    build_reconcile_dispatch_commands_with_geometry, ReconcileGeometry,
};
use hyprloom::process::{ChildProcess, ProcessError, ProcessInfoProvider};
use hyprloom::recovery::ReplacePhase;
use hyprloom::restore::completion;
use hyprloom::restore::identity::{manhattan_distance, MatchKind, ObservedClient};
use hyprloom::restore::launch::{
    build_dispatch_commands, build_launch_command, launch_command_is_trusted,
};
use hyprloom::restore::launched::{
    browser_handoff_target_is_safe, build_launch_placement, collect_addresses,
    examine_candidate, expect_window, launched_process_is_related, restored_message, spawn_error,
    LaunchWatch, WatchStep,
};
use hyprloom::restore::observe::{
    dispatch_existing_repairs, observe_clients_with_monitors, observe_cwd, read_process_state,
};
use hyprloom::restore::planning::plan_reconciliation;
use hyprloom::restore::reconcile::{PassAction, PassOptions, ReconcilePass};
use hyprloom::restore::replacing::{
    replace_step, ReplaceAction, ReplaceEvent, ReplaceOptions, ReplaceState,
};
use hyprloom::restore::report::{
    LaunchedProcess, ProcessLauncher, ReconcileReport, RestoreError, RestoreReport,
    MAX_RECONCILIATION_WINDOWS,
};
use hyprloom::restore::restoring::Restoring;
use hyprloom::restore::targets;
use hyprloom::restore::targets::{validate_safety_snapshot, ReconcileTarget};
use hyprloom::restore::windows::ConsumedWindows;
use hyprloom::session::{BraveProfile, LaunchInfo, Monitor, Session, SessionClient};
use std::cell::RefCell;
use std::collections::HashMap;

// ── Driving the library ──────────────────────────────────────────────────────

fn table<V, const N: usize>(entries: [(String, V); N]) -> Table<V> {
    Table {
        entries: Vec::from(entries),
    }
}

/// Finds the executables of a system on which `kitty` is not installed, nor
/// what is missing by its name.
fn find_binary(command: &str) -> Option<String> {
    if command == "kitty" || command.contains("missing") || command.contains("nonexistent") {
        None
    } else {
        Some(format!("/usr/bin/{command}"))
    }
}

fn find_binaries(session: &Session, config: &Config) -> Table<String> {
    let mut found: Vec<(String, String)> = Vec::new();
    for target in build_reconcile_targets(session, config) {
        let command = build_launch_command(&target.client)[0].clone();
        if let Some(binary) = find_binary(&command) {
            if !found.iter().any(|(known, _)| *known == command) {
                found.push((command, binary));
            }
        }
    }
    Table { entries: found }
}

fn build_reconcile_targets(session: &Session, config: &Config) -> Vec<ReconcileTarget> {
    targets::build_reconcile_targets(session, config, &[])
}

fn validate_replacement_targets(
    session: &Session,
    config: &Config,
) -> Result<Vec<String>, RestoreError> {
    targets::validate_replacement_targets(session, config, &[], &find_binaries(session, config))
}

fn validate_safety_snapshot_with_config(
    session: &Session,
    config: &Config,
) -> Result<(), RestoreError> {
    targets::validate_safety_snapshot_with_config(
        session,
        config,
        &[],
        &find_binaries(session, config),
    )
}

fn replacement_target_is_complete<H: HyprctlClient + ?Sized, P: ProcessInfoProvider + ?Sized>(
    session: &Session,
    hyprctl: &H,
    process_info: &P,
    config: &Config,
) -> Result<bool, RestoreError> {
    completion::replacement_target_is_complete(session, hyprctl, process_info, config, &[])
}

fn replacement_target_is_complete_with_backup<
    H: HyprctlClient + ?Sized,
    P: ProcessInfoProvider + ?Sized,
>(
    session: &Session,
    backup: Option<&Session>,
    hyprctl: &H,
    process_info: &P,
    config: &Config,
) -> Result<bool, RestoreError> {
    completion::replacement_target_is_complete_with_backup(
        session,
        backup,
        hyprctl,
        process_info,
        config,
        &[],
    )
}

/// A provider that sees no process.
struct NoProcesses;

impl ProcessInfoProvider for NoProcesses {
    fn get_cwd(&self, pid: u32) -> Result<String, ProcessError> {
        Err(ProcessError::NotFound(pid))
    }

    fn get_children(&self, pid: u32) -> Result<Vec<ChildProcess>, ProcessError> {
        Err(ProcessError::NotFound(pid))
    }

    fn has_reliable_process_start_time(&self) -> bool {
        true
    }
}

struct RestoredWindow {
    observed: ObservedClient,
    message: String,
}

fn launch<H: HyprctlClient + ?Sized, P: ProcessInfoProvider + ?Sized>(
    client: &SessionClient,
    hyprctl: &H,
    process_info: &P,
    config: &Config,
    launcher: &dyn ProcessLauncher,
    target_monitor_available: bool,
    binary: Option<&str>,
) -> Result<RestoredWindow, RestoreError> {
    let before = collect_addresses(&hyprctl.get_clients().map_err(RestoreError::Hyprctl)?);
    let active_before = if browser_handoff_target_is_safe(client) {
        hyprctl.get_active_window_address().ok().flatten()
    } else {
        None
    };
    let command = build_launch_command(client);
    let binary = match binary {
        Some(binary) => binary.to_string(),
        None => find_binary(&command[0]).ok_or_else(|| RestoreError::MissingLaunchBinary {
            target: client.class.clone(),
            command: command[0].clone(),
        })?,
    };
    let launched =
        launcher.spawn(&binary, &command[1..]).map_err(|reason| spawn_error(&command[0], &reason))?;
    let mut watch = LaunchWatch::new(client.clone(), before, active_before, launched, config);
    let mut now = 0;
    let window = loop {
        watch.check_time(now)?;
        now += 100;
        let clients = hyprctl.get_clients().map_err(RestoreError::Hyprctl)?;
        let active_after = if watch.looks_at_focus() {
            hyprctl.get_active_window_address().ok().flatten()
        } else {
            None
        };
        let shown = clients
            .into_iter()
            .map(|window| examine_candidate(window, &launched, process_info))
            .collect();
        match watch.look(now, &active_after, &shown) {
            WatchStep::Wait => {}
            WatchStep::Found(window) => break window,
            WatchStep::Fail(error) => return Err(error),
        }
    };
    let commands = build_launch_placement(client, &window, target_monitor_available);
    let pid = window.pid;
    let expected =
        expect_window(window, process_info.get_start_time(pid).ok(), process_info.get_cmdline(pid).ok());
    dispatch_existing_repairs(&expected, &commands, hyprctl, process_info)?;
    Ok(RestoredWindow {
        observed: expected,
        message: restored_message(client),
    })
}

fn restore_single_client_with_launcher_and_process_info<
    H: HyprctlClient + ?Sized,
    P: ProcessInfoProvider + ?Sized,
>(
    client: &SessionClient,
    hyprctl: &H,
    process_info: &P,
    config: &Config,
    launcher: &dyn ProcessLauncher,
    target_monitor_available: bool,
) -> Result<String, RestoreError> {
    launch(client, hyprctl, process_info, config, launcher, target_monitor_available, None)
        .map(|restored| restored.message)
}

fn restore_single_client_with_launcher<H: HyprctlClient + ?Sized>(
    client: &SessionClient,
    hyprctl: &H,
    config: &Config,
    launcher: &dyn ProcessLauncher,
) -> Result<String, RestoreError> {
    restore_single_client_with_launcher_and_process_info(
        client,
        hyprctl,
        &NoProcesses,
        config,
        launcher,
        false,
    )
}

fn restore_single_client_with_launcher_and_process_info_with_address<
    H: HyprctlClient + ?Sized,
    P: ProcessInfoProvider + ?Sized,
>(
    client: &SessionClient,
    hyprctl: &H,
    process_info: &P,
    config: &Config,
    launcher: &dyn ProcessLauncher,
    target_monitor_available: bool,
) -> Result<RestoredWindow, RestoreError> {
    launch(client, hyprctl, process_info, config, launcher, target_monitor_available, None)
}

fn run_pass<H: HyprctlClient + ?Sized, P: ProcessInfoProvider + ?Sized>(
    session: &Session,
    hyprctl: &H,
    process_info: &P,
    config: &Config,
    launcher: &dyn ProcessLauncher,
    options: PassOptions,
    strategy: MatchingStrategy,
    binaries: Option<Vec<String>>,
    protected: TextSet,
) -> Result<ReconcileReport, RestoreError> {
    let targets = build_reconcile_targets(session, config);
    let monitors = hyprctl.get_monitors().map_err(RestoreError::Hyprctl)?;
    let observe = || observe_clients_with_monitors(hyprctl, process_info, config, &monitors);
    let mut pass = ReconcilePass::begin(
        targets,
        &session.monitors,
        &monitors,
        observe()?,
        protected,
        binaries,
        config,
        options,
        strategy,
    )?;
    let mut action = PassAction::Continue;
    loop {
        action = match action {
            PassAction::Continue => pass.next()?,
            PassAction::Observe => pass.observed(observe()?)?,
            PassAction::Repair { window, commands } => {
                let failure = dispatch_existing_repairs(&window, &commands, hyprctl, process_info)
                    .err()
                    .map(|error| error.message());
                pass.repaired(failure);
                PassAction::Continue
            }
            PassAction::Resolve { command } => pass.resolved(find_binary(&command)),
            PassAction::Launch {
                client,
                binary,
                monitor_available,
            } => {
                match launch(
                    &client,
                    hyprctl,
                    process_info,
                    config,
                    launcher,
                    monitor_available,
                    Some(binary.as_str()),
                ) {
                    Ok(restored) => pass.launched(&restored.observed),
                    Err(error) => pass.launch_failed(&error.message(), observe().ok()),
                }
                PassAction::Continue
            }
            PassAction::Finish => return Ok(pass.finish()),
        };
    }
}

fn reconcile_session_with_launcher_options<
    H: HyprctlClient + ?Sized,
    P: ProcessInfoProvider + ?Sized,
>(
    session: &Session,
    hyprctl: &H,
    process_info: &P,
    config: &Config,
    dry_run: bool,
    verbose: bool,
    launcher: &dyn ProcessLauncher,
    allow_ambiguous_identity: bool,
) -> Result<ReconcileReport, RestoreError> {
    run_pass(
        session,
        hyprctl,
        process_info,
        config,
        launcher,
        PassOptions {
            dry_run,
            verbose,
            allow_ambiguous_identity,
        },
        MatchingStrategy::Global,
        None,
        TextSet::new(),
    )
}

fn reconcile_session_with_launcher<H: HyprctlClient + ?Sized, P: ProcessInfoProvider + ?Sized>(
    session: &Session,
    hyprctl: &H,
    process_info: &P,
    config: &Config,
    dry_run: bool,
    verbose: bool,
    launcher: &dyn ProcessLauncher,
) -> Result<ReconcileReport, RestoreError> {
    reconcile_session_with_launcher_options(
        session,
        hyprctl,
        process_info,
        config,
        dry_run,
        verbose,
        launcher,
        true,
    )
}

fn reconcile_session<H: HyprctlClient + ?Sized, P: ProcessInfoProvider + ?Sized>(
    session: &Session,
    hyprctl: &H,
    process_info: &P,
    config: &Config,
    dry_run: bool,
    verbose: bool,
) -> Result<ReconcileReport, RestoreError> {
    reconcile_session_with_launcher(
        session,
        hyprctl,
        process_info,
        config,
        dry_run,
        verbose,
        &RecordingLauncher::default(),
    )
}

fn recover_session_safely<H: HyprctlClient + ?Sized, P: ProcessInfoProvider + ?Sized>(
    session: &Session,
    hyprctl: &H,
    process_info: &P,
    config: &Config,
    dry_run: bool,
    verbose: bool,
) -> Result<ReconcileReport, RestoreError> {
    reconcile_session_with_launcher_options(
        session,
        hyprctl,
        process_info,
        config,
        dry_run,
        verbose,
        &RecordingLauncher::default(),
        false,
    )
}

fn restore_session_with_process_info<
    H: HyprctlClient + ?Sized,
    P: ProcessInfoProvider + ?Sized,
>(
    session: &Session,
    hyprctl: &H,
    process_info: &P,
    config: &Config,
    dry_run: bool,
    verbose: bool,
) -> Result<RestoreReport, RestoreError> {
    if build_reconcile_targets(session, config).len() > MAX_RECONCILIATION_WINDOWS {
        return match Restoring::begin(session, &[], config, &[], dry_run, verbose) {
            Ok(_) => panic!("too many windows are accepted"),
            Err(error) => Err(error),
        };
    }
    let monitors = hyprctl.get_monitors().map_err(RestoreError::Hyprctl)?;
    let launcher = RecordingLauncher {
        launches: RefCell::new(Vec::new()),
        pid: Some(4242),
        start_time: None,
    };
    let mut restoring = Restoring::begin(session, &monitors, config, &[], dry_run, verbose)?;
    let mut action = PassAction::Continue;
    loop {
        action = match action {
            PassAction::Continue => restoring.next(),
            PassAction::Observe => {
                let windows =
                    observe_clients_with_monitors(hyprctl, process_info, config, &monitors)?;
                restoring.observed(windows)?
            }
            PassAction::Repair { window, commands } => {
                let failure = dispatch_existing_repairs(&window, &commands, hyprctl, process_info)
                    .err()
                    .map(|error| error.message());
                restoring.repaired(failure);
                PassAction::Continue
            }
            PassAction::Resolve { command } => restoring.resolved(find_binary(&command)),
            PassAction::Launch {
                client,
                binary,
                monitor_available,
            } => {
                match launch(
                    &client,
                    hyprctl,
                    process_info,
                    config,
                    &launcher,
                    monitor_available,
                    Some(binary.as_str()),
                ) {
                    Ok(restored) => restoring.launched(&restored.observed),
                    Err(error) => restoring.launch_failed(&error.message()),
                }
                PassAction::Continue
            }
            PassAction::Finish => return Ok(restoring.finish()),
        };
    }
}

fn restore_session<H: HyprctlClient + ?Sized>(
    session: &Session,
    hyprctl: &H,
    config: &Config,
    dry_run: bool,
    verbose: bool,
) -> Result<RestoreReport, RestoreError> {
    restore_session_with_process_info(session, hyprctl, &NoProcesses, config, dry_run, verbose)
}

fn pass_event(outcome: Result<ReconcileReport, RestoreError>) -> ReplaceEvent {
    match outcome {
        Ok(report) => ReplaceEvent::Reconciled(report),
        Err(error) => ReplaceEvent::PassFailed(error),
    }
}

/// Replaces the desktop.  The phases that are recorded go to `record`.
fn replace_desktop<H: HyprctlClient + ?Sized, P: ProcessInfoProvider + ?Sized>(
    session: &Session,
    hyprctl: &H,
    process_info: &P,
    config: &Config,
    verbose: bool,
    safety: Option<&Session>,
    record: Option<&RefCell<Vec<ReplacePhase>>>,
    options: ReplaceOptions,
) -> Result<ReconcileReport, RestoreError> {
    let note = |phase: ReplacePhase| {
        if let Some(record) = record {
            record.borrow_mut().push(phase);
        }
    };
    let mut state = ReplaceState::new(session, config, safety, options);
    let mut event = ReplaceEvent::Begin;
    let mut now = 0;
    loop {
        let (next, action) = replace_step(state, event);
        state = next;
        event = match action {
            ReplaceAction::Validate => ReplaceEvent::Found {
                entries: vec![],
                binaries: find_binaries(session, config),
            },
            ReplaceAction::Preview => pass_event(reconcile_session(
                session,
                hyprctl,
                process_info,
                config,
                true,
                verbose,
            )),
            ReplaceAction::List => match hyprctl.get_clients() {
                Ok(clients) => ReplaceEvent::Listed(clients),
                Err(error) => ReplaceEvent::CompositorFailed(error),
            },
            ReplaceAction::Recheck { address, pid } => {
                let start_time = process_info.get_start_time(pid).ok();
                match hyprctl.get_clients() {
                    Ok(clients) => {
                        let current = clients
                            .iter()
                            .find(|client| client.address == address)
                            .map_or(pid, |client| client.pid);
                        ReplaceEvent::Rechecked {
                            start_time,
                            process: read_process_state(process_info, current),
                            clients,
                        }
                    }
                    Err(error) => ReplaceEvent::CompositorFailed(error),
                }
            }
            ReplaceAction::Close { command, mark } => {
                if mark.is_some() {
                    note(ReplacePhase::Closing);
                }
                match hyprctl.dispatch(&command) {
                    Ok(()) => ReplaceEvent::Closed,
                    Err(error) => ReplaceEvent::CompositorFailed(error),
                }
            }
            ReplaceAction::MarkInProgress => {
                note(ReplacePhase::InProgress);
                ReplaceEvent::Recorded
            }
            ReplaceAction::Watch { rest } => {
                if rest {
                    now += 50;
                }
                match hyprctl.get_clients() {
                    Ok(clients) => ReplaceEvent::Seen {
                        processes: clients
                            .iter()
                            .map(|client| read_process_state(process_info, client.pid))
                            .collect(),
                        clients,
                        elapsed: now,
                    },
                    Err(error) => ReplaceEvent::CompositorFailed(error),
                }
            }
            ReplaceAction::Reconcile { binaries, protected } => pass_event(run_pass(
                session,
                hyprctl,
                process_info,
                config,
                &RecordingLauncher::default(),
                PassOptions {
                    dry_run: false,
                    verbose,
                    allow_ambiguous_identity: true,
                },
                MatchingStrategy::Global,
                binaries,
                protected,
            )),
            ReplaceAction::MarkFinalizing => {
                note(ReplacePhase::Finalizing);
                ReplaceEvent::Recorded
            }
            ReplaceAction::Done(report) => return Ok(report),
            ReplaceAction::Fail(error) => return Err(error),
        };
    }
}

const MARKED: ReplaceOptions = ReplaceOptions {
    dry_run: false,
    validate_targets: true,
    marked: true,
};

fn replace_session<H: HyprctlClient + ?Sized, P: ProcessInfoProvider + ?Sized>(
    session: &Session,
    hyprctl: &H,
    process_info: &P,
    config: &Config,
    dry_run: bool,
    verbose: bool,
) -> Result<ReconcileReport, RestoreError> {
    let options = ReplaceOptions {
        dry_run,
        validate_targets: true,
        marked: false,
    };
    replace_desktop(session, hyprctl, process_info, config, verbose, None, None, options)
}

fn recover_session<H: HyprctlClient + ?Sized, P: ProcessInfoProvider + ?Sized>(
    session: &Session,
    hyprctl: &H,
    process_info: &P,
    config: &Config,
    dry_run: bool,
    verbose: bool,
) -> Result<ReconcileReport, RestoreError> {
    let options = ReplaceOptions {
        dry_run,
        validate_targets: false,
        marked: false,
    };
    replace_desktop(session, hyprctl, process_info, config, verbose, None, None, options)
}

// ── Helpers ──────────────────────────────────────────────────────────────

fn make_client(
    class: &str,
    workspace: i32,
    at: [i32; 2],
    size: [i32; 2],
    floating: bool,
    fullscreen: u8,
    command: &str,
    args: Vec<String>,
    hint: Option<String>,
) -> SessionClient {
    SessionClient {
        class: class.to_string(),
        title: class.to_string(),
        address: None,
        pid: None,
        process_start_time: None,
        stable_id: None,
        initial_class: class.to_string(),
        initial_title: class.to_string(),
        workspace,
        workspace_name: workspace.to_string(),
        monitor: "DP-1".to_string(),
        at,
        size,
        floating,
        fullscreen,
        pinned: false,
        profile_directory: None,
        profile_identity_ambiguous: false,
        focus_history_id: 0,
        launch: LaunchInfo {
            command: command.to_string(),
            args,
            hint,
        },
    }
}

fn make_session(clients: Vec<SessionClient>) -> Session {
    Session {
        name: "test".to_string(),
        created_at: 0,
        hyprland_version: "0.54.0".to_string(),
        monitors: vec![],
        clients,
        brave_profiles: vec![],
    }
}

#[test]
fn test_matching_does_not_cross_runtime_and_initial_class_fields() {
    let mut target = make_client(
        "wrapper",
        1,
        [10, 20],
        [800, 600],
        false,
        0,
        "wrapper",
        vec![],
        None,
    );
    target.initial_class = "app-a".to_string();

    let mut current =
        make_reconcile_window("0xunrelated", "app-a", "app-a", 1, 0, [10, 20], [800, 600]);
    current.initial_class = "app-b".to_string();

    let plan = plan_reconciliation(
        &[target],
        &[ObservedClient::from_hypr_client(current, None, None)],
    );

    assert_eq!(plan, vec![None]);
}

#[test]
fn test_matching_rejects_two_independent_same_class_identity_conflicts() {
    let mut target = make_client(
        "kitty",
        1,
        [10, 20],
        [800, 600],
        false,
        0,
        "kitty",
        vec!["--directory".to_string(), "/project-a".to_string()],
        None,
    );
    target.title = "Project A".to_string();
    let current =
        make_reconcile_window("0xother", "kitty", "Project B", 1, 0, [10, 20], [800, 600]);
    let observed =
        ObservedClient::from_hypr_client(current, None, Some(String::from("/project-b")));

    assert_eq!(plan_reconciliation(&[target], &[observed]), vec![None]);
}

#[test]
fn test_matching_rejects_same_class_with_conflicting_initial_title() {
    let mut target = make_client(
        "example-app",
        1,
        [10, 20],
        [800, 600],
        false,
        0,
        "example-app",
        vec![],
        None,
    );
    target.title = "Project A".to_string();
    target.initial_title = "Project A".to_string();

    let current = make_reconcile_window(
        "0xextra",
        "example-app",
        "Project B",
        1,
        0,
        [10, 20],
        [800, 600],
    );
    let observed = ObservedClient::from_hypr_client(current, None, None);

    assert_eq!(plan_reconciliation(&[target], &[observed]), vec![None]);
}

#[test]
fn test_matching_allows_live_title_changes_when_initial_title_is_generic() {
    let mut target = make_client(
        "example-app",
        1,
        [10, 20],
        [800, 600],
        false,
        0,
        "example-app",
        vec![],
        None,
    );
    target.initial_title = "Example App".to_string();
    target.title = "Project A".to_string();

    let mut current = make_reconcile_window(
        "0xextra",
        "example-app",
        "Project B",
        1,
        0,
        [10, 20],
        [800, 600],
    );
    current.initial_title = "Example App".to_string();
    let observed = ObservedClient::from_hypr_client(current, None, None);

    let plan = plan_reconciliation(&[target], &[observed]);
    assert_eq!(plan.len(), 1);
    assert_eq!(plan[0].map(|pair| pair.kind), Some(MatchKind::AppIdentity));
}

#[test]
fn test_matching_does_not_consume_unrelated_generic_chromium_window() {
    let mut target = make_client(
        "chromium",
        1,
        [10, 20],
        [800, 600],
        false,
        0,
        "chromium",
        vec![],
        None,
    );
    target.title = "ChatGPT".to_string();
    target.initial_title = "Chromium".to_string();

    let mut current = make_reconcile_window(
        "0xunrelated",
        "chromium",
        "YouTube",
        1,
        0,
        [10, 20],
        [800, 600],
    );
    current.initial_title = "Chromium".to_string();

    let observed = ObservedClient::from_hypr_client(current, None, None);
    assert_eq!(plan_reconciliation(&[target], &[observed]), vec![None]);
}

#[test]
fn test_matching_uses_captured_address_for_generic_chromium_window_after_title_change() {
    let mut target = make_client(
        "chromium",
        1,
        [10, 20],
        [800, 600],
        false,
        0,
        "chromium",
        vec![],
        None,
    );
    target.title = "New Tab".to_string();
    target.initial_title = "Chromium".to_string();
    target.address = Some("0xunrelated-identical-title".to_string());

    let mut current = make_reconcile_window(
        "0xunrelated-identical-title",
        "chromium",
        "Project page",
        1,
        0,
        [10, 20],
        [800, 600],
    );
    current.initial_title = "Chromium".to_string();

    let observed = ObservedClient::from_hypr_client(current, None, None);
    assert_eq!(
        plan_reconciliation(&[target], &[observed])[0].map(|pair| pair.kind),
        Some(MatchKind::ExactIdentity)
    );
}

#[test]
fn test_matching_rejects_reused_address_when_process_identity_changes() {
    let mut target = make_client(
        "kitty",
        1,
        [10, 20],
        [800, 600],
        false,
        0,
        "kitty",
        vec!["--directory".to_string(), "/project".to_string()],
        None,
    );
    target.title = "Project".to_string();
    target.initial_title = "Project".to_string();
    target.address = Some("0xreused".to_string());
    target.pid = Some(1000);
    target.process_start_time = Some(10);

    let mut current =
        make_reconcile_window("0xreused", "kitty", "Project", 1, 0, [10, 20], [800, 600]);
    current.pid = 2000;
    let mut observed = ObservedClient::from_hypr_client(current, None, None);
    observed.process_start_time = Some(20);

    assert_eq!(plan_reconciliation(&[target], &[observed]), vec![None]);
}

#[test]
fn test_matching_rejects_address_when_process_identity_is_partial() {
    let mut target = make_client(
        "kitty",
        1,
        [10, 20],
        [800, 600],
        false,
        0,
        "kitty",
        vec![],
        None,
    );
    target.title = "Project".to_string();
    target.initial_title = "Project".to_string();
    target.address = Some("0xreused".to_string());
    target.pid = Some(1000);
    // A capture that obtained a PID but not its start time has only
    // partial process identity and must not trust an exact address.
    target.process_start_time = None;

    let mut current =
        make_reconcile_window("0xreused", "kitty", "Project", 1, 0, [10, 20], [800, 600]);
    current.pid = 1000;
    let mut observed = ObservedClient::from_hypr_client(current, None, None);
    observed.process_start_time = Some(20);

    assert_eq!(plan_reconciliation(&[target], &[observed]), vec![None]);
}

#[test]
fn test_matching_reuses_restarted_terminal_by_unique_cwd_and_command() {
    let mut target = make_client(
        "kitty",
        1,
        [10, 20],
        [800, 600],
        false,
        0,
        "kitty",
        vec!["--directory".to_string(), "/project".to_string()],
        None,
    );
    target.title = "Project".to_string();
    target.initial_title = "Project".to_string();
    target.address = Some("0xbefore-restart".to_string());
    target.pid = Some(1000);
    target.process_start_time = Some(10);

    let mut current = make_reconcile_window(
        "0xafter-restart",
        "kitty",
        "Project",
        7,
        0,
        [900, 100],
        [700, 500],
    );
    current.initial_title = "Project".to_string();
    current.pid = 2000;
    let mut observed =
        ObservedClient::from_hypr_client(current, None, Some(String::from("/project")));
    observed.process_start_time = Some(20);
    observed.process_command = Some("/usr/bin/kitty --directory /project".to_string());

    let plan = plan_reconciliation(&[target], &[observed]);

    assert_eq!(plan[0].map(|pair| pair.current_index), Some(0));
}

#[test]
fn test_matching_rejects_ambiguous_restarted_terminals_with_same_signature() {
    let mut target = make_client(
        "kitty",
        1,
        [10, 20],
        [800, 600],
        false,
        0,
        "kitty",
        vec!["--directory".to_string(), "/project".to_string()],
        None,
    );
    target.title = "Project".to_string();
    target.initial_title = "Project".to_string();
    target.address = Some("0xbefore-restart".to_string());
    target.pid = Some(1000);
    target.process_start_time = Some(10);

    let mut first = make_reconcile_window(
        "0xafter-restart-a",
        "kitty",
        "Project",
        7,
        0,
        [900, 100],
        [700, 500],
    );
    first.initial_title = "Project".to_string();
    first.pid = 2000;
    let mut first =
        ObservedClient::from_hypr_client(first, None, Some(String::from("/project")));
    first.process_command = Some("/usr/bin/kitty --directory /project".to_string());

    let mut second = make_reconcile_window(
        "0xafter-restart-b",
        "kitty",
        "Project",
        7,
        0,
        [100, 100],
        [700, 500],
    );
    second.initial_title = "Project".to_string();
    second.pid = 3000;
    let mut second =
        ObservedClient::from_hypr_client(second, None, Some(String::from("/project")));
    second.process_command = Some("/usr/bin/kitty --directory /project".to_string());

    assert_eq!(plan_reconciliation(&[target], &[first, second]), vec![None]);
}

#[test]
fn test_legacy_matching_rejects_address_when_current_stable_id_is_unpaired() {
    let mut target = make_client(
        "kitty",
        1,
        [10, 20],
        [800, 600],
        false,
        0,
        "kitty",
        vec![],
        None,
    );
    target.address = Some("0xlegacy".to_string());

    let mut current =
        make_reconcile_window("0xlegacy", "kitty", "kitty", 1, 0, [10, 20], [800, 600]);
    current.stable_id = Some("stable-current".to_string());

    assert_eq!(
        plan_reconciliation(
            &[target],
            &[ObservedClient::from_hypr_client(current, None, None)]
        ),
        vec![None]
    );
}

#[test]
fn test_consumed_windows_reject_identity_metadata_loss() {
    let mut first =
        make_reconcile_window("0xsame", "kitty", "kitty", 1, 0, [10, 20], [800, 600]);
    first.stable_id = Some("stable-window".to_string());
    let mut first = ObservedClient::from_hypr_client(first, None, None);
    first.process_start_time = Some(10);

    let mut refreshed =
        make_reconcile_window("0xsame", "kitty", "kitty", 1, 0, [10, 20], [800, 600]);
    refreshed.pid = first.client.pid;
    let refreshed = ObservedClient::from_hypr_client(refreshed, None, None);

    let mut consumed = ConsumedWindows::default();
    consumed.insert(&first);

    assert!(!consumed.contains(&refreshed));
    consumed.insert(&refreshed);
    assert_eq!(consumed.len(), 2);
}

#[test]
fn test_matching_rejects_reused_address_with_same_process_identity_but_new_stable_id() {
    let mut target = make_client(
        "chromium",
        1,
        [10, 20],
        [800, 600],
        false,
        0,
        "chromium",
        vec![],
        None,
    );
    target.address = Some("0xreused".to_string());
    target.pid = Some(1000);
    target.process_start_time = Some(20);
    target.stable_id = Some("0xwindow-a".to_string());

    let mut current = make_reconcile_window(
        "0xreused",
        "chromium",
        "New tab",
        1,
        0,
        [10, 20],
        [800, 600],
    );
    current.pid = 1000;
    current.stable_id = Some("0xwindow-b".to_string());
    let mut observed = ObservedClient::from_hypr_client(current, None, None);
    observed.process_start_time = Some(20);

    assert_eq!(plan_reconciliation(&[target], &[observed]), vec![None]);
}

#[test]
fn test_dispatch_revalidates_window_identity_before_repair() {
    let mut expected_client =
        make_reconcile_window("0xreused", "chromium", "Old tab", 1, 0, [0, 0], [800, 600]);
    expected_client.stable_id = Some("0xwindow-a".to_string());
    let expected = ObservedClient::from_hypr_client(expected_client, None, None);

    let mut reused =
        make_reconcile_window("0xreused", "chromium", "New tab", 1, 0, [0, 0], [800, 600]);
    reused.stable_id = Some("0xwindow-b".to_string());
    let mock = MockHyprctl::new(vec![vec![reused]]);
    let result = dispatch_existing_repairs(
        &expected,
        &["focuswindow address:0xreused".to_string()],
        &mock,
        &EmptyProcessInfo,
    );

    assert!(matches!(
        result,
        Err(RestoreError::WindowIdentityChanged { address }) if address == "0xreused"
    ));
    assert!(mock.dispatches().is_empty());
}

#[test]
fn test_dispatch_rejects_partial_observation_with_reliable_process_provider() {
    let expected_client =
        make_reconcile_window("0xreused", "kitty", "Old", 1, 0, [0, 0], [800, 600]);
    let expected = ObservedClient::from_hypr_client(expected_client, None, None);
    let current = make_reconcile_window("0xreused", "kitty", "New", 1, 0, [0, 0], [800, 600]);
    let mock = MockHyprctl::new(vec![vec![current]]);

    let result = dispatch_existing_repairs(
        &expected,
        &["focuswindow address:0xreused".to_string()],
        &mock,
        &ReliableStartTimeUnavailableProcessInfo,
    );

    assert!(matches!(
        result,
        Err(RestoreError::WindowIdentityChanged { address }) if address == "0xreused"
    ));
    assert!(mock.dispatches().is_empty());
}

#[test]
fn test_dispatch_rejects_same_process_sibling_without_stable_ids() {
    let expected_client =
        make_reconcile_window("0xexpected", "kitty", "Old", 1, 0, [0, 0], [800, 600]);
    let expected = ObservedClient::from_hypr_client(expected_client, None, None);
    let current = make_reconcile_window("0xexpected", "kitty", "Old", 1, 0, [0, 0], [800, 600]);
    let sibling =
        make_reconcile_window("0xsibling", "kitty", "Other", 1, 0, [900, 0], [800, 600]);
    let mock = MockHyprctl::new(vec![vec![current, sibling]]);

    let result = dispatch_existing_repairs(
        &expected,
        &["focuswindow address:0xexpected".to_string()],
        &mock,
        &EmptyProcessInfo,
    );

    assert!(matches!(
        result,
        Err(RestoreError::WindowIdentityChanged { address }) if address == "0xexpected"
    ));
    assert!(mock.dispatches().is_empty());
}

#[test]
fn test_matching_generic_chromium_address_survives_focus_history_change() {
    let mut target = make_client(
        "chromium",
        1,
        [10, 20],
        [800, 600],
        false,
        0,
        "chromium",
        vec![],
        None,
    );
    target.address = Some("0xbrowser".to_string());
    target.focus_history_id = 3;

    let mut current = make_reconcile_window(
        "0xbrowser",
        "chromium",
        "Project page",
        1,
        0,
        [900, 500],
        [800, 600],
    );
    current.focus_history_id = 17;
    let observed = ObservedClient::from_hypr_client(current, None, None);

    assert_eq!(
        plan_reconciliation(&[target], &[observed])[0].map(|pair| pair.kind),
        Some(MatchKind::ExactIdentity)
    );
}

#[test]
fn test_matching_does_not_use_focus_history_for_addressless_chromium() {
    let mut target = make_client(
        "chromium",
        1,
        [10, 20],
        [800, 600],
        false,
        0,
        "chromium",
        vec![],
        None,
    );
    target.address = None;
    target.focus_history_id = 3;

    let mut current = make_reconcile_window(
        "0xreused-focus-id",
        "chromium",
        "Unrelated tab",
        1,
        0,
        [10, 20],
        [800, 600],
    );
    current.focus_history_id = 3;

    assert_eq!(
        plan_reconciliation(
            &[target],
            &[ObservedClient::from_hypr_client(current, None, None)]
        ),
        vec![None]
    );
}

#[test]
fn test_matching_rejects_process_only_identity_on_reused_address() {
    let mut target = make_client(
        "kitty",
        1,
        [10, 20],
        [800, 600],
        false,
        0,
        "kitty",
        vec![],
        None,
    );
    target.address = Some("0xreused-process".to_string());
    target.pid = Some(1000);
    target.process_start_time = Some(20);

    let mut current = make_reconcile_window(
        "0xreused-process",
        "kitty",
        "New window from same process",
        1,
        0,
        [10, 20],
        [800, 600],
    );
    current.pid = 1000;
    let mut observed = ObservedClient::from_hypr_client(current, None, None);
    observed.process_start_time = Some(20);

    assert_eq!(plan_reconciliation(&[target], &[observed]), vec![None]);
}

#[test]
fn test_matching_does_not_move_same_title_window_when_saved_address_is_gone() {
    let mut target = make_client(
        "com.mitchellh.ghostty",
        1,
        [10, 20],
        [800, 600],
        false,
        0,
        "ghostty",
        vec![],
        None,
    );
    target.title = "Project".to_string();
    target.initial_title = "Project".to_string();
    target.address = Some("0xclosed".to_string());

    let mut current = make_reconcile_window(
        "0xother",
        "com.mitchellh.ghostty",
        "Project",
        1,
        0,
        [10, 20],
        [800, 600],
    );
    current.initial_class = "com.mitchellh.ghostty".to_string();
    current.initial_title = "Project".to_string();

    assert_eq!(
        plan_reconciliation(
            &[target],
            &[ObservedClient::from_hypr_client(current, None, None)]
        ),
        vec![None]
    );
}

#[test]
fn test_matching_prefers_saved_address_for_same_app_windows_after_one_moves() {
    let mut target = make_client(
        "kitty",
        1,
        [10, 20],
        [800, 600],
        false,
        0,
        "kitty",
        vec![],
        None,
    );
    target.title = "Project".to_string();
    target.initial_title = "Project".to_string();
    target.address = Some("0xintended".to_string());

    let mut intended = make_reconcile_window(
        "0xintended",
        "kitty",
        "Project",
        1,
        0,
        [900, 500],
        [800, 600],
    );
    intended.initial_title = "Project".to_string();
    let mut same_title =
        make_reconcile_window("0xother", "kitty", "Project", 1, 0, [10, 20], [800, 600]);
    same_title.initial_title = "Project".to_string();

    let observed = vec![
        ObservedClient::from_hypr_client(intended, None, None),
        ObservedClient::from_hypr_client(same_title, None, None),
    ];
    let plan = plan_reconciliation(&[target], &observed);

    assert_eq!(plan[0].map(|pair| pair.current_index), Some(0));
    assert_eq!(
        plan[0].map(|pair| pair.kind),
        Some(MatchKind::ExactIdentity)
    );
}

#[test]
fn test_matching_duplicate_generic_chromium_titles_uses_captured_address() {
    let mut target = make_client(
        "chromium",
        1,
        [10, 20],
        [800, 600],
        false,
        0,
        "chromium",
        vec![],
        None,
    );
    target.title = "New Tab".to_string();
    target.initial_title = "Chromium".to_string();
    target.address = Some("0xin-place".to_string());

    let mut in_place = make_reconcile_window(
        "0xin-place",
        "chromium",
        "New Tab",
        1,
        0,
        [10, 20],
        [800, 600],
    );
    in_place.initial_title = "Chromium".to_string();
    let mut extra = make_reconcile_window(
        "0xextra-same-title",
        "chromium",
        "New Tab",
        1,
        0,
        [900, 20],
        [800, 600],
    );
    extra.initial_title = "Chromium".to_string();

    let observed = vec![
        ObservedClient::from_hypr_client(in_place, None, None),
        ObservedClient::from_hypr_client(extra, None, None),
    ];
    let plan = plan_reconciliation(&[target], &observed);

    assert_eq!(plan[0].map(|pair| pair.current_index), Some(0));
}

#[test]
fn test_matching_legacy_generic_chromium_without_identity_fails_closed() {
    let mut target = make_client(
        "chromium",
        1,
        [10, 20],
        [800, 600],
        false,
        0,
        "chromium",
        vec![],
        None,
    );
    target.title = "New Tab".to_string();
    target.initial_title = "Chromium".to_string();

    let mut first = make_reconcile_window(
        "0xsame-title",
        "chromium",
        "New Tab",
        1,
        0,
        [300, 20],
        [800, 600],
    );
    first.initial_title = "Chromium".to_string();

    let observed = vec![ObservedClient::from_hypr_client(first, None, None)];
    assert_eq!(plan_reconciliation(&[target], &observed), vec![None]);
}

#[test]
fn test_replacement_target_does_not_accept_ambiguous_generic_title_match() {
    let mut target = make_client(
        "example-app",
        1,
        [10, 20],
        [800, 600],
        false,
        0,
        "example-app",
        vec![],
        None,
    );
    target.initial_title = "Example App".to_string();
    target.title = "Project A".to_string();

    let mut current = make_reconcile_window(
        "0xextra",
        "example-app",
        "Project B",
        1,
        0,
        [10, 20],
        [800, 600],
    );
    current.initial_title = "Example App".to_string();
    let mock = MockHyprctl::new(vec![vec![current]]);

    assert!(!replacement_target_is_complete(
        &make_session(vec![target]),
        &mock,
        &EmptyProcessInfo,
        &Config::default(),
    )
    .unwrap());
}

#[test]
fn test_replacement_target_does_not_accept_ambiguous_ghostty_title_match() {
    let mut target = make_client(
        "com.mitchellh.ghostty",
        1,
        [10, 20],
        [800, 600],
        false,
        0,
        "ghostty",
        vec![],
        None,
    );
    target.initial_title = "Ghostty".to_string();
    target.title = "Project A".to_string();

    let mut current = make_reconcile_window(
        "0xextra-ghostty",
        "ghostty",
        "Project B",
        1,
        0,
        [10, 20],
        [800, 600],
    );
    current.initial_class = "com.mitchellh.ghostty".to_string();
    current.initial_title = "Ghostty".to_string();
    let mock = MockHyprctl::new(vec![vec![current]]);

    assert!(!replacement_target_is_complete(
        &make_session(vec![target]),
        &mock,
        &EmptyProcessInfo,
        &Config::default(),
    )
    .unwrap());
}

#[test]
fn test_matching_distance_handles_extreme_coordinates_without_overflow() {
    assert_eq!(
        manhattan_distance([i32::MIN, i32::MIN], [i32::MAX, i32::MAX]),
        8_589_934_590
    );
}

#[test]
fn test_geometry_adapts_to_changed_monitor_origin_and_resolution() {
    let target = make_client(
        "kitty",
        1,
        [100, 50],
        [960, 540],
        true,
        0,
        "kitty",
        vec![],
        None,
    );
    let saved_monitor = Monitor {
        name: "DP-1".to_string(),
        width: 1920,
        height: 1080,
        transform: 0,
        x: Some(0),
        y: Some(0),
    };
    let current_monitor = HyprMonitor {
        id: 0,
        name: "DP-1".to_string(),
        width: 2560,
        height: 1440,
        transform: 0,
        x: Some(1920),
        y: Some(0),
    };

    let adapted = adapt_client_geometry(&target, &[saved_monitor], Some(&current_monitor));

    assert_eq!(adapted.at, [2053, 67]);
    assert_eq!(adapted.size, [1280, 720]);
}

#[test]
fn test_geometry_rotates_relative_window_when_monitor_transform_changes() {
    let target = make_client(
        "kitty",
        1,
        [100, 50],
        [400, 300],
        true,
        0,
        "kitty",
        vec![],
        None,
    );
    let saved_monitor = Monitor {
        name: "DP-1".to_string(),
        width: 1920,
        height: 1080,
        transform: 0,
        x: Some(0),
        y: Some(0),
    };
    let current_monitor = HyprMonitor {
        id: 0,
        name: "DP-1".to_string(),
        width: 1920,
        height: 1080,
        transform: 1,
        x: Some(0),
        y: Some(0),
    };

    let adapted = adapt_client_geometry(&target, &[saved_monitor], Some(&current_monitor));

    assert_eq!(adapted.at, [730, 100]);
    assert_eq!(adapted.size, [300, 400]);
}

#[test]
fn test_geometry_keeps_legacy_session_coordinates_without_monitor_origin() {
    let target = make_client(
        "kitty",
        1,
        [100, 50],
        [960, 540],
        true,
        0,
        "kitty",
        vec![],
        None,
    );
    let saved_monitor = Monitor {
        name: "DP-1".to_string(),
        width: 1920,
        height: 1080,
        transform: 0,
        x: None,
        y: None,
    };
    let current_monitor = HyprMonitor {
        id: 0,
        name: "DP-1".to_string(),
        width: 2560,
        height: 1440,
        transform: 0,
        x: Some(1920),
        y: Some(0),
    };

    let adapted = adapt_client_geometry(&target, &[saved_monitor], Some(&current_monitor));

    assert_eq!(adapted.at, target.at);
    assert_eq!(adapted.size, target.size);
}

fn make_reconcile_window(
    address: &str,
    class: &str,
    title: &str,
    workspace: i32,
    monitor: i32,
    at: [i32; 2],
    size: [i32; 2],
) -> HyprClient {
    HyprClient {
        address: address.to_string(),
        class: class.to_string(),
        title: title.to_string(),
        initial_class: class.to_string(),
        initial_title: title.to_string(),
        workspace: HyprWorkspace {
            id: workspace,
            name: workspace.to_string(),
        },
        monitor,
        at,
        size,
        floating: false,
        fullscreen: 0,
        pinned: false,
        stable_id: None,
        focus_history_id: 0,
        pid: 1000,
    }
}

struct EmptyProcessInfo;

impl ProcessInfoProvider for EmptyProcessInfo {
    fn get_cwd(&self, pid: u32) -> Result<String, ProcessError> {
        Err(ProcessError::NotFound(pid))
    }

    fn get_children(
        &self,
        _pid: u32,
    ) -> Result<Vec<ChildProcess>, ProcessError> {
        Ok(vec![])
    }
}

struct BraveProfileProcessInfo;

impl ProcessInfoProvider for BraveProfileProcessInfo {
    fn get_cwd(&self, pid: u32) -> Result<String, ProcessError> {
        Err(ProcessError::NotFound(pid))
    }

    fn get_children(&self, _pid: u32) -> Result<Vec<ChildProcess>, ProcessError> {
        Ok(vec![])
    }

    fn get_cmdline(&self, pid: u32) -> Result<String, ProcessError> {
        match pid {
            1000 => Ok("brave --profile-directory=Default".to_string()),
            _ => Err(ProcessError::NotFound(pid)),
        }
    }
}

struct SharedBraveProfileProcessInfo;

impl ProcessInfoProvider for SharedBraveProfileProcessInfo {
    fn get_cwd(&self, pid: u32) -> Result<String, ProcessError> {
        Err(ProcessError::NotFound(pid))
    }

    fn get_children(&self, pid: u32) -> Result<Vec<ChildProcess>, ProcessError> {
        if pid == 1000 {
            Ok(vec![ChildProcess {
                pid: 2000,
                cwd: String::from("/tmp"),
                cmdline: "brave --profile-directory=Default".to_string(),
            }])
        } else {
            Ok(vec![])
        }
    }

    fn get_cmdline(&self, pid: u32) -> Result<String, ProcessError> {
        match pid {
            1000 => Ok("brave --profile-directory=Profile 1".to_string()),
            _ => Err(ProcessError::NotFound(pid)),
        }
    }
}

struct CwdProcessInfo {
    cwds: HashMap<u32, String>,
}

impl ProcessInfoProvider for CwdProcessInfo {
    fn get_cwd(&self, pid: u32) -> Result<String, ProcessError> {
        self.cwds
            .get(&pid)
            .cloned()
            .ok_or(ProcessError::NotFound(pid))
    }

    fn get_children(&self, _pid: u32) -> Result<Vec<ChildProcess>, ProcessError> {
        Ok(vec![])
    }
}

struct RelaunchedTerminalProcessInfo;

impl ProcessInfoProvider for RelaunchedTerminalProcessInfo {
    fn get_cwd(&self, _pid: u32) -> Result<String, ProcessError> {
        Ok(String::from("/project"))
    }

    fn get_children(&self, _pid: u32) -> Result<Vec<ChildProcess>, ProcessError> {
        Ok(vec![])
    }

    fn get_cmdline(&self, _pid: u32) -> Result<String, ProcessError> {
        Ok("/usr/bin/kitty --directory /project".to_string())
    }
}

struct ChildCwdProcessInfo;

impl ProcessInfoProvider for ChildCwdProcessInfo {
    fn get_cwd(&self, _pid: u32) -> Result<String, ProcessError> {
        Ok(String::from("/terminal-start-directory"))
    }

    fn get_children(&self, _pid: u32) -> Result<Vec<ChildProcess>, ProcessError> {
        Ok(vec![ChildProcess {
            pid: 2000,
            cwd: String::from("/shell-current-directory"),
            cmdline: "zsh".to_string(),
        }])
    }
}

struct RelatedProcessInfo {
    children: HashMap<u32, Vec<ChildProcess>>,
}

impl ProcessInfoProvider for RelatedProcessInfo {
    fn get_cwd(&self, pid: u32) -> Result<String, ProcessError> {
        Err(ProcessError::NotFound(pid))
    }

    fn get_children(&self, pid: u32) -> Result<Vec<ChildProcess>, ProcessError> {
        Ok(self.children.get(&pid).cloned().unwrap_or_default())
    }
}

struct StartTimeProcessInfo {
    start_time: u64,
}

impl ProcessInfoProvider for StartTimeProcessInfo {
    fn get_cwd(&self, pid: u32) -> Result<String, ProcessError> {
        Err(ProcessError::NotFound(pid))
    }

    fn get_children(&self, _pid: u32) -> Result<Vec<ChildProcess>, ProcessError> {
        Ok(vec![])
    }

    fn get_start_time(&self, _pid: u32) -> Result<u64, ProcessError> {
        Ok(self.start_time)
    }
}

struct ReliableStartTimeUnavailableProcessInfo;

impl ProcessInfoProvider for ReliableStartTimeUnavailableProcessInfo {
    fn get_cwd(&self, pid: u32) -> Result<String, ProcessError> {
        Err(ProcessError::NotFound(pid))
    }

    fn get_children(&self, _pid: u32) -> Result<Vec<ChildProcess>, ProcessError> {
        Ok(vec![])
    }

    fn has_reliable_process_start_time(&self) -> bool {
        true
    }
}

struct StartTimeRelatedProcessInfo {
    start_time: u64,
    children: HashMap<u32, Vec<ChildProcess>>,
}

impl ProcessInfoProvider for StartTimeRelatedProcessInfo {
    fn get_cwd(&self, pid: u32) -> Result<String, ProcessError> {
        Err(ProcessError::NotFound(pid))
    }

    fn get_children(&self, pid: u32) -> Result<Vec<ChildProcess>, ProcessError> {
        Ok(self.children.get(&pid).cloned().unwrap_or_default())
    }

    fn get_start_time(&self, _pid: u32) -> Result<u64, ProcessError> {
        Ok(self.start_time)
    }
}

#[derive(Default)]
struct RecordingLauncher {
    launches: RefCell<Vec<(String, Vec<String>)>>,
    pid: Option<u32>,
    start_time: Option<u64>,
}

impl ProcessLauncher for RecordingLauncher {
    fn spawn(&self, command: &str, args: &[String]) -> Result<LaunchedProcess, String> {
        self.launches
            .borrow_mut()
            .push((command.to_string(), args.to_vec()));
        Ok(LaunchedProcess {
            pid: self.pid,
            start_time: self.start_time,
        })
    }
}

#[test]
fn test_launch_correlation_rejects_reused_root_pid() {
    let launched = LaunchedProcess {
        pid: Some(1000),
        start_time: Some(10),
    };
    let reused = StartTimeProcessInfo { start_time: 11 };
    let same_process = StartTimeProcessInfo { start_time: 10 };

    assert!(!launched_process_is_related(&launched, 1000, &reused));
    assert!(launched_process_is_related(&launched, 1000, &same_process));
}

#[test]
fn test_launch_correlation_rejects_descendants_of_a_reused_root_pid() {
    let launched = LaunchedProcess {
        pid: Some(1000),
        start_time: Some(10),
    };
    let child = ChildProcess {
        pid: 2000,
        cwd: String::new(),
        cmdline: "example-app".to_string(),
    };
    let reused = StartTimeRelatedProcessInfo {
        start_time: 11,
        children: HashMap::from([(1000, vec![child.clone()])]),
    };
    let same_process = StartTimeRelatedProcessInfo {
        start_time: 10,
        children: HashMap::from([(1000, vec![child])]),
    };

    assert!(!launched_process_is_related(&launched, 2000, &reused));
    assert!(launched_process_is_related(&launched, 2000, &same_process));
}

#[test]
fn test_launch_correlation_fails_closed_when_reliable_start_time_is_unavailable() {
    let launched = LaunchedProcess {
        pid: Some(1000),
        start_time: None,
    };

    assert!(!launched_process_is_related(
        &launched,
        1000,
        &ReliableStartTimeUnavailableProcessInfo
    ));
}

#[test]
fn test_replacement_target_is_complete_when_all_windows_are_present() {
    let mut target = make_client(
        "kitty",
        2,
        [10, 20],
        [800, 600],
        false,
        0,
        "kitty",
        vec![],
        None,
    );
    target.address = Some("0xpresent".to_string());
    target.stable_id = Some("stable-target".to_string());
    let current =
        make_reconcile_window("0xpresent", "kitty", "kitty", 7, 0, [900, 100], [700, 500]);
    let mut current = current;
    current.stable_id = Some("stable-target".to_string());
    let mock = MockHyprctl::new(vec![vec![current]]);

    assert!(replacement_target_is_complete(
        &make_session(vec![target]),
        &mock,
        &EmptyProcessInfo,
        &Config::default(),
    )
    .unwrap());
}

#[test]
fn test_replacement_target_is_not_complete_while_old_window_remains() {
    let mut target = make_client(
        "kitty",
        2,
        [10, 20],
        [800, 600],
        false,
        0,
        "kitty",
        vec![],
        None,
    );
    target.title = "Project".to_string();
    target.initial_title = "Project".to_string();
    target.address = Some("0xnew-target".to_string());

    let mut old_window = make_reconcile_window(
        "0xold-window",
        "kitty",
        "Project",
        1,
        0,
        [10, 20],
        [800, 600],
    );
    old_window.initial_title = "Project".to_string();
    let mut backup_client = make_client(
        "kitty",
        1,
        [10, 20],
        [800, 600],
        false,
        0,
        "kitty",
        vec![],
        None,
    );
    backup_client.title = "Project".to_string();
    backup_client.initial_title = "Project".to_string();
    backup_client.address = Some("0xold-window".to_string());

    let current = MockHyprctl::new(vec![vec![old_window]]);
    assert!(!replacement_target_is_complete_with_backup(
        &make_session(vec![target]),
        Some(&make_session(vec![backup_client])),
        &current,
        &EmptyProcessInfo,
        &Config::default(),
    )
    .unwrap());
}

#[test]
fn test_replacement_completion_accepts_relaunched_window_with_new_address() {
    let mut target = make_client(
        "kitty",
        2,
        [10, 20],
        [800, 600],
        false,
        0,
        "kitty",
        vec!["--directory".to_string(), "/project".to_string()],
        None,
    );
    target.title = "Project".to_string();
    target.initial_title = "Project".to_string();
    target.address = Some("0xtarget-before-crash".to_string());
    target.stable_id = Some("stable-target".to_string());

    let mut relaunched = make_reconcile_window(
        "0xtarget-after-relaunch",
        "kitty",
        "Project",
        1,
        0,
        [900, 100],
        [700, 500],
    );
    relaunched.initial_title = "Project".to_string();
    relaunched.stable_id = Some("stable-target".to_string());

    let mut backup_client = make_client(
        "kitty",
        1,
        [10, 20],
        [800, 600],
        false,
        0,
        "kitty",
        vec![],
        None,
    );
    backup_client.address = Some("0xold-safety-window".to_string());

    let mock = MockHyprctl::new(vec![vec![relaunched]]);

    assert!(replacement_target_is_complete_with_backup(
        &make_session(vec![target]),
        Some(&make_session(vec![backup_client])),
        &mock,
        &RelaunchedTerminalProcessInfo,
        &Config::default(),
    )
    .unwrap());
}

#[test]
fn test_replacement_completion_does_not_trust_stable_id_across_address_change() {
    let mut target = make_client(
        "kitty",
        2,
        [10, 20],
        [800, 600],
        false,
        0,
        "kitty",
        vec![],
        None,
    );
    target.title = "Project".to_string();
    target.initial_title = "Project".to_string();
    target.address = Some("0xtarget-before-restart".to_string());
    target.stable_id = Some("18000000".to_string());

    let mut unrelated = make_reconcile_window(
        "0xtarget-after-restart",
        "kitty",
        "Unrelated",
        2,
        0,
        [10, 20],
        [800, 600],
    );
    unrelated.stable_id = Some("18000000".to_string());
    let mock = MockHyprctl::new(vec![vec![unrelated]]);

    assert!(!replacement_target_is_complete(
        &make_session(vec![target]),
        &mock,
        &EmptyProcessInfo,
        &Config::default(),
    )
    .unwrap());
}

#[test]
fn test_replacement_completion_accepts_relaunched_terminal_by_signature() {
    let mut target = make_client(
        "kitty",
        2,
        [10, 20],
        [800, 600],
        false,
        0,
        "kitty",
        vec!["--directory".to_string(), "/project".to_string()],
        None,
    );
    target.title = "Project".to_string();
    target.initial_title = "Project".to_string();
    target.address = Some("0xtarget-before-crash".to_string());
    target.pid = Some(1000);
    target.process_start_time = Some(10);

    let mut relaunched = make_reconcile_window(
        "0xtarget-after-relaunch",
        "kitty",
        "Project",
        1,
        0,
        [900, 100],
        [700, 500],
    );
    relaunched.initial_title = "Project".to_string();
    relaunched.pid = 2000;
    let mock = MockHyprctl::new(vec![vec![relaunched]]);

    assert!(replacement_target_is_complete(
        &make_session(vec![target]),
        &mock,
        &RelaunchedTerminalProcessInfo,
        &Config::default(),
    )
    .unwrap());
}

#[test]
fn test_replacement_completion_rejects_same_title_and_binary_without_cwd() {
    let mut target = make_client(
        "kitty",
        2,
        [10, 20],
        [800, 600],
        false,
        0,
        "kitty",
        vec![],
        None,
    );
    target.title = "Project".to_string();
    target.initial_title = "Project".to_string();
    target.address = Some("0xtarget-before-crash".to_string());

    let mut unrelated = make_reconcile_window(
        "0xunrelated-after-crash",
        "kitty",
        "Project",
        1,
        0,
        [900, 100],
        [700, 500],
    );
    unrelated.initial_title = "Project".to_string();
    let mock = MockHyprctl::new(vec![vec![unrelated]]);

    assert!(!replacement_target_is_complete(
        &make_session(vec![target]),
        &mock,
        &RelaunchedTerminalProcessInfo,
        &Config::default(),
    )
    .unwrap());
}

#[test]
fn test_replacement_completion_rejects_reopened_safety_window_as_target() {
    let mut target = make_client(
        "kitty",
        2,
        [10, 20],
        [800, 600],
        false,
        0,
        "kitty",
        vec![],
        None,
    );
    target.title = "Project".to_string();
    target.initial_title = "Project".to_string();
    target.address = Some("0xtarget-before-crash".to_string());

    let mut safety = make_client(
        "kitty",
        1,
        [10, 20],
        [800, 600],
        false,
        0,
        "kitty",
        vec![],
        None,
    );
    safety.title = "Project".to_string();
    safety.initial_title = "Project".to_string();
    safety.address = Some("0xold-safety-window".to_string());

    let reopened = make_reconcile_window(
        "0xreopened-safety-window",
        "kitty",
        "Project",
        1,
        0,
        [900, 100],
        [700, 500],
    );
    let mock = MockHyprctl::new(vec![vec![reopened]]);

    assert!(!replacement_target_is_complete_with_backup(
        &make_session(vec![target]),
        Some(&make_session(vec![safety])),
        &mock,
        &EmptyProcessInfo,
        &Config::default(),
    )
    .unwrap());
}

#[test]
fn test_replacement_completion_rejects_generic_chromium_relaunch_by_title_only() {
    let mut target = make_client(
        "chromium",
        2,
        [10, 20],
        [800, 600],
        false,
        0,
        "chromium",
        vec![],
        None,
    );
    target.title = "Project dashboard".to_string();
    target.initial_title = "Chromium".to_string();
    target.address = Some("0xbrowser-before-crash".to_string());

    let mut relaunched = make_reconcile_window(
        "0xbrowser-after-relaunch",
        "chromium",
        "Project dashboard",
        1,
        0,
        [900, 100],
        [700, 500],
    );
    relaunched.initial_title = "Chromium".to_string();

    let mock = MockHyprctl::new(vec![vec![relaunched]]);

    assert!(!replacement_target_is_complete(
        &make_session(vec![target]),
        &mock,
        &EmptyProcessInfo,
        &Config::default(),
    )
    .unwrap());
}

#[test]
fn test_reconcile_does_not_launch_when_same_address_identity_is_unavailable() {
    let mut target = make_client(
        "kitty",
        1,
        [10, 20],
        [800, 600],
        false,
        0,
        "true",
        vec![],
        None,
    );
    target.address = Some("0xsame".to_string());
    target.pid = Some(1000);
    target.process_start_time = Some(10);

    let current =
        make_reconcile_window("0xsame", "kitty", "kitty", 7, 0, [900, 100], [700, 500]);
    let mock = MockHyprctl::new(vec![vec![current]]);
    let launcher = RecordingLauncher::default();

    let report = reconcile_session_with_launcher_options(
        &make_session(vec![target]),
        &mock,
        &EmptyProcessInfo,
        &Config::default(),
        false,
        true,
        &launcher,
        true,
    )
    .unwrap();

    assert_eq!(report.skipped, 1);
    assert_eq!(report.launched, 0);
    assert!(launcher.launches.borrow().is_empty());
    assert!(mock.dispatches().is_empty());
}

#[test]
fn test_safe_recovery_does_not_launch_same_class_window_with_stale_address() {
    let mut target = make_client(
        "kitty",
        1,
        [10, 20],
        [800, 600],
        false,
        0,
        "kitty",
        vec![],
        None,
    );
    target.title = "Project".to_string();
    target.initial_title = "Project".to_string();
    target.address = Some("0xbefore-reopen".to_string());

    let mut reopened = make_reconcile_window(
        "0xafter-reopen",
        "kitty",
        "Project",
        7,
        0,
        [900, 100],
        [700, 500],
    );
    reopened.initial_title = "Project".to_string();
    let mock = MockHyprctl::new(vec![vec![reopened]]);

    let report = recover_session_safely(
        &make_session(vec![target]),
        &mock,
        &EmptyProcessInfo,
        &Config::default(),
        false,
        true,
    )
    .unwrap();

    assert_eq!(report.skipped, 1);
    assert_eq!(report.launched, 0);
    assert!(mock.dispatches().is_empty());
}

#[test]
fn test_safe_recovery_checks_reopened_window_before_launching_duplicate() {
    let mut target = make_client(
        "kitty",
        1,
        [10, 20],
        [800, 600],
        false,
        0,
        "true",
        vec![],
        None,
    );
    target.title = "Project".to_string();
    target.initial_title = "Project".to_string();
    target.address = Some("0xbefore-reopen".to_string());

    let mut reopened = make_reconcile_window(
        "0xafter-reopen",
        "kitty",
        "Project",
        7,
        0,
        [900, 100],
        [700, 500],
    );
    reopened.initial_title = "Project".to_string();
    let mock = MockHyprctl::new(vec![vec![], vec![reopened]]);
    let launcher = RecordingLauncher::default();

    let report = reconcile_session_with_launcher_options(
        &make_session(vec![target]),
        &mock,
        &EmptyProcessInfo,
        &Config::default(),
        false,
        true,
        &launcher,
        false,
    )
    .unwrap();

    assert_eq!(report.skipped, 1);
    assert_eq!(report.launched, 0);
    assert!(launcher.launches.borrow().is_empty());
    assert!(mock.dispatches().is_empty());
}

#[test]
fn test_replacement_completion_rejects_safety_snapshot_without_addresses() {
    let mut target = make_client(
        "kitty",
        2,
        [10, 20],
        [800, 600],
        false,
        0,
        "kitty",
        vec![],
        None,
    );
    target.title = "Project".to_string();
    target.initial_title = "Project".to_string();
    target.address = Some("0xnew-target".to_string());

    let mut legacy_backup = make_client(
        "kitty",
        1,
        [10, 20],
        [800, 600],
        false,
        0,
        "kitty",
        vec![],
        None,
    );
    legacy_backup.title = "Project".to_string();
    legacy_backup.initial_title = "Project".to_string();
    legacy_backup.address = None;

    let current =
        make_reconcile_window("0xcurrent", "kitty", "Project", 2, 0, [10, 20], [800, 600]);
    let mock = MockHyprctl::new(vec![vec![current]]);

    assert!(!replacement_target_is_complete_with_backup(
        &make_session(vec![target]),
        Some(&make_session(vec![legacy_backup])),
        &mock,
        &EmptyProcessInfo,
        &Config::default(),
    )
    .unwrap());
}

#[test]
fn test_empty_replacement_target_is_complete_when_desktop_is_empty() {
    let mock = MockHyprctl::new(vec![vec![]]);

    assert!(replacement_target_is_complete_with_backup(
        &make_session(vec![]),
        None,
        &mock,
        &EmptyProcessInfo,
        &Config::default(),
    )
    .unwrap());
}

// ── MockHyprctl ───────────────────────────────────────────────────────────

/// A mock that returns pre-programmed client snapshots on successive
/// `get_clients()` calls, simulating a new window appearing.
struct MockHyprctl {
    /// One entry per `get_clients()` call; last entry is repeated if exhausted.
    client_states: RefCell<Vec<Vec<HyprClient>>>,
    state_index: RefCell<usize>,
    active_addresses: RefCell<Vec<Option<String>>>,
    active_index: RefCell<usize>,
    dispatches: RefCell<Vec<String>>,
}

impl MockHyprctl {
    fn new(client_states: Vec<Vec<HyprClient>>) -> Self {
        Self {
            client_states: RefCell::new(client_states),
            state_index: RefCell::new(0),
            active_addresses: RefCell::new(Vec::new()),
            active_index: RefCell::new(0),
            dispatches: RefCell::new(Vec::new()),
        }
    }

    fn with_active_addresses(self, active_addresses: Vec<Option<String>>) -> Self {
        *self.active_addresses.borrow_mut() = active_addresses;
        self
    }

    fn dispatches(&self) -> Vec<String> {
        self.dispatches.borrow().clone()
    }
}

impl HyprctlClient for MockHyprctl {
    fn get_clients(&self) -> Result<Vec<HyprClient>, HyprctlError> {
        let idx = *self.state_index.borrow();
        let states = self.client_states.borrow();
        // Clamp to last state once exhausted.
        let effective = idx.min(states.len().saturating_sub(1));
        let result = states.get(effective).cloned().unwrap_or_default();
        drop(states);
        *self.state_index.borrow_mut() = idx + 1;
        Ok(result)
    }

    fn get_active_window_address(&self) -> Result<Option<String>, HyprctlError> {
        let idx = *self.active_index.borrow();
        let addresses = self.active_addresses.borrow();
        let effective = idx.min(addresses.len().saturating_sub(1));
        let result = addresses.get(effective).cloned().unwrap_or(None);
        drop(addresses);
        *self.active_index.borrow_mut() = idx + 1;
        Ok(result)
    }

    fn get_monitors(&self) -> Result<Vec<HyprMonitor>, HyprctlError> {
        Ok(vec![HyprMonitor {
            id: 0,
            name: "DP-1".to_string(),
            width: 1920,
            height: 1080,
            transform: 0,
            x: Some(0),
            y: Some(0),
        }])
    }

    fn dispatch(&self, args: &str) -> Result<(), HyprctlError> {
        self.dispatches.borrow_mut().push(args.to_string());
        Ok(())
    }

    fn get_hyprland_version(&self) -> Result<String, HyprctlError> {
        Ok("0.54.1".to_string())
    }
}

struct MonitorErrorHyprctl;

impl HyprctlClient for MonitorErrorHyprctl {
    fn get_clients(&self) -> Result<Vec<HyprClient>, HyprctlError> {
        Ok(vec![])
    }

    fn get_monitors(&self) -> Result<Vec<HyprMonitor>, HyprctlError> {
        Err(HyprctlError::CommandFailed(
            "monitor query unavailable".to_string(),
        ))
    }

    fn dispatch(&self, _args: &str) -> Result<(), HyprctlError> {
        Ok(())
    }

    fn get_hyprland_version(&self) -> Result<String, HyprctlError> {
        Ok("0.54.1".to_string())
    }
}

struct ClientErrorHyprctl;

impl HyprctlClient for ClientErrorHyprctl {
    fn get_clients(&self) -> Result<Vec<HyprClient>, HyprctlError> {
        Err(HyprctlError::CommandFailed(
            "client query unavailable".to_string(),
        ))
    }

    fn get_monitors(&self) -> Result<Vec<HyprMonitor>, HyprctlError> {
        Ok(vec![])
    }

    fn dispatch(&self, _args: &str) -> Result<(), HyprctlError> {
        Ok(())
    }

    fn get_hyprland_version(&self) -> Result<String, HyprctlError> {
        Ok("0.54.1".to_string())
    }
}

struct ClosingMockHyprctl {
    clients: RefCell<Vec<HyprClient>>,
    dispatches: RefCell<Vec<String>>,
}

impl ClosingMockHyprctl {
    fn new(clients: Vec<HyprClient>) -> Self {
        Self {
            clients: RefCell::new(clients),
            dispatches: RefCell::new(Vec::new()),
        }
    }
}

impl HyprctlClient for ClosingMockHyprctl {
    fn get_clients(&self) -> Result<Vec<HyprClient>, HyprctlError> {
        Ok(self.clients.borrow().clone())
    }

    fn get_monitors(&self) -> Result<Vec<HyprMonitor>, HyprctlError> {
        Ok(vec![])
    }

    fn dispatch(&self, args: &str) -> Result<(), HyprctlError> {
        self.dispatches.borrow_mut().push(args.to_string());
        if args.starts_with("closewindow ") {
            self.clients.borrow_mut().clear();
        }
        Ok(())
    }

    fn get_hyprland_version(&self) -> Result<String, HyprctlError> {
        Ok("0.54.1".to_string())
    }
}

struct SelectiveClosingMockHyprctl {
    clients: RefCell<Vec<HyprClient>>,
    dispatches: RefCell<Vec<String>>,
}

impl SelectiveClosingMockHyprctl {
    fn new(clients: Vec<HyprClient>) -> Self {
        Self {
            clients: RefCell::new(clients),
            dispatches: RefCell::new(Vec::new()),
        }
    }

    fn dispatches(&self) -> Vec<String> {
        self.dispatches.borrow().clone()
    }
}

impl HyprctlClient for SelectiveClosingMockHyprctl {
    fn get_clients(&self) -> Result<Vec<HyprClient>, HyprctlError> {
        Ok(self.clients.borrow().clone())
    }

    fn get_monitors(&self) -> Result<Vec<HyprMonitor>, HyprctlError> {
        Ok(vec![])
    }

    fn dispatch(&self, args: &str) -> Result<(), HyprctlError> {
        self.dispatches.borrow_mut().push(args.to_string());
        if let Some(address) = args.strip_prefix("closewindow address:") {
            self.clients
                .borrow_mut()
                .retain(|client| client.address != address);
        }
        Ok(())
    }

    fn get_hyprland_version(&self) -> Result<String, HyprctlError> {
        Ok("0.54.1".to_string())
    }
}

struct FailingCloseHyprctl {
    client: HyprClient,
}

impl HyprctlClient for FailingCloseHyprctl {
    fn get_clients(&self) -> Result<Vec<HyprClient>, HyprctlError> {
        Ok(vec![self.client.clone()])
    }

    fn get_monitors(&self) -> Result<Vec<HyprMonitor>, HyprctlError> {
        Ok(vec![])
    }

    fn dispatch(&self, _args: &str) -> Result<(), HyprctlError> {
        Err(HyprctlError::CommandFailed(
            "close dispatch failed".to_string(),
        ))
    }

    fn get_hyprland_version(&self) -> Result<String, HyprctlError> {
        Ok("0.54.1".to_string())
    }
}

// ── Dry runs and plans ──

#[test]
fn test_restore_dry_run_generates_commands() {
    let client = make_client(
        "kitty",
        1,
        [100, 200],
        [800, 600],
        false,
        0,
        "true",
        vec!["--directory".to_string(), "/home/user".to_string()],
        Some("resume --continue".to_string()),
    );
    let session = make_session(vec![client]);
    let config = Config {
        apps: table([(
            "kitty".to_string(),
            AppConfig {
                binary: Some("true".to_string()),
                capture_cwd: None,
                capture_last_command: None,
                hint_template: None,
                profile_workspaces: None,
                default_workspace: None,
            },
        )]),
        ..Config::default()
    };
    // The mock will never be called for dispatches in dry-run mode.
    let mock = MockHyprctl::new(vec![]);

    let report = restore_session(&session, &mock, &config, true, true).unwrap();

    // Dry-run should count the client as "restored" and emit detail lines.
    assert_eq!(report.restored, 1);
    assert_eq!(report.skipped, 0);
    assert_eq!(report.failed, 0);
    // At minimum: one header line + one or more dispatch lines.
    assert!(
        !report.details.is_empty(),
        "dry-run should produce detail lines"
    );
    // Header line must mention the client class.
    let header = &report.details[0];
    assert!(
        header.contains("kitty"),
        "header should contain class name; got: {header}"
    );
    assert!(
        header.contains("[dry-run]"),
        "header should be tagged [dry-run]; got: {header}"
    );
    // No real dispatches should have been recorded.
    assert!(
        mock.dispatches().is_empty(),
        "dry-run must not send real hyprctl dispatches"
    );
}

#[test]
fn test_restore_propagates_initial_client_query_failures() {
    let client = make_client(
        "kitty",
        1,
        [0, 0],
        [800, 600],
        false,
        0,
        "kitty",
        vec![],
        None,
    );

    let result = restore_session(
        &make_session(vec![client]),
        &ClientErrorHyprctl,
        &Config::default(),
        false,
        false,
    );

    assert!(matches!(
        result,
        Err(RestoreError::Hyprctl(HyprctlError::CommandFailed(message)))
            if message == "client query unavailable"
    ));
}

#[test]
fn test_normal_restore_matches_terminal_windows_by_working_directory() {
    let mut first = make_client(
        "kitty",
        1,
        [10, 20],
        [800, 600],
        false,
        0,
        "kitty",
        vec!["--directory".to_string(), "/one".to_string()],
        None,
    );
    first.title = "terminal".to_string();
    let mut second = make_client(
        "kitty",
        2,
        [900, 20],
        [800, 600],
        false,
        0,
        "kitty",
        vec!["--directory".to_string(), "/two".to_string()],
        None,
    );
    second.title = "terminal".to_string();

    let current_one =
        make_reconcile_window("0xone", "kitty", "terminal", 1, 0, [10, 20], [800, 600]);
    let mut current_two =
        make_reconcile_window("0xtwo", "kitty", "terminal", 2, 0, [900, 20], [800, 600]);
    current_two.pid = 102;
    let mut current_one = current_one;
    current_one.pid = 101;
    let mock = MockHyprctl::new(vec![vec![current_one, current_two]]);
    let process_info = CwdProcessInfo {
        cwds: HashMap::from([(101, String::from("/two")), (102, String::from("/one"))]),
    };

    let report = restore_session_with_process_info(
        &make_session(vec![first, second]),
        &mock,
        &process_info,
        &Config::default(),
        false,
        true,
    )
    .unwrap();

    assert_eq!(report.restored, 2);
    assert_eq!(report.skipped, 0);
    let dispatches = mock.dispatches();
    assert!(dispatches
        .iter()
        .any(|dispatch| dispatch == "movetoworkspacesilent 1,address:0xtwo"));
    assert!(dispatches
        .iter()
        .any(|dispatch| dispatch == "movetoworkspacesilent 2,address:0xone"));
}

#[test]
fn test_reconcile_dry_run_reports_missing_launch_binary_as_failure() {
    let client = make_client(
        "missing-app",
        1,
        [0, 0],
        [800, 600],
        false,
        0,
        "missing_binary_for_preflight_xyz",
        vec![],
        None,
    );
    let mock = MockHyprctl::new(vec![vec![]]);

    let report = reconcile_session_with_launcher(
        &make_session(vec![client]),
        &mock,
        &EmptyProcessInfo,
        &Config::default(),
        true,
        true,
        &RecordingLauncher::default(),
    )
    .unwrap();

    assert_eq!(report.launched, 0);
    assert_eq!(report.failed, 1);
    assert!(report
        .details
        .iter()
        .any(|detail| detail.contains("missing_binary_for_preflight_xyz")));
    assert!(mock.dispatches().is_empty());
}

#[test]
fn test_reconcile_rejects_unconfigured_launch_command() {
    let client = make_client(
        "kitty",
        1,
        [0, 0],
        [800, 600],
        false,
        0,
        "true",
        vec![],
        None,
    );
    let mock = MockHyprctl::new(vec![vec![]]);
    let launcher = RecordingLauncher::default();

    let report = reconcile_session_with_launcher(
        &make_session(vec![client]),
        &mock,
        &EmptyProcessInfo,
        &Config::default(),
        false,
        true,
        &launcher,
    )
    .unwrap();

    assert_eq!(report.failed, 1);
    assert_eq!(report.launched, 0);
    assert!(report
        .details
        .iter()
        .any(|detail| detail.contains("not authorized")));
    assert!(launcher.launches.borrow().is_empty());
}

// ── build_launch_command for kitty with hint ───────────────────────

#[test]
fn test_build_launch_command_kitty_with_hint() {
    let client = make_client(
        "kitty",
        1,
        [0, 0],
        [800, 600],
        false,
        0,
        "kitty",
        vec!["--directory".to_string(), "/home/user/project".to_string()],
        Some("resume --continue".to_string()),
    );

    let cmd = build_launch_command(&client);

    // argv[0] is the binary.
    assert_eq!(cmd[0], "kitty");
    // Existing args are preserved before the hint block.
    assert!(
        cmd.contains(&"--directory".to_string()),
        "should keep --directory arg"
    );
    assert!(
        cmd.contains(&"/home/user/project".to_string()),
        "should keep directory value"
    );
    // The hint block must be present.
    let joined = cmd.join(" ");
    assert!(
        joined.contains("-e zsh -c"),
        "kitty hint should inject '-e zsh -c'; got: {joined}"
    );
    assert!(
        joined.contains("resume --continue"),
        "hint content should appear in command; got: {joined}"
    );
    assert!(
        joined.contains("exec zsh"),
        "hint block should drop to interactive zsh; got: {joined}"
    );
}

// ── build_launch_command for a generic binary ─────────────────────

#[test]
fn test_build_launch_command_generic() {
    let client = make_client(
        "brave-browser",
        1,
        [0, 0],
        [1280, 800],
        false,
        0,
        "brave-browser",
        vec!["--profile-directory=Default".to_string()],
        None,
    );

    let cmd = build_launch_command(&client);

    assert_eq!(cmd[0], "brave-browser");
    assert_eq!(cmd[1], "--profile-directory=Default");
    assert_eq!(
        cmd.len(),
        2,
        "no extra args should be appended for non-kitty"
    );
}

// ── build_dispatch_commands produces correct sequence ──────────────

#[test]
fn test_build_dispatch_commands() {
    let client = make_client(
        "obsidian",
        3,
        [50, 100],
        [1200, 900],
        true, // floating
        0,
        "obsidian",
        vec![],
        None,
    );

    let cmds = build_dispatch_commands(&client);

    // Must start with exec.
    assert!(cmds[0].starts_with("exec "), "first command must be exec");
    // Workspace move must come before resize/move.
    let ws_idx = cmds
        .iter()
        .position(|c| c.starts_with("movetoworkspacesilent"))
        .unwrap();
    let resize_idx = cmds
        .iter()
        .position(|c| c.starts_with("resizewindowpixel"))
        .unwrap();
    let move_idx = cmds
        .iter()
        .position(|c| c.starts_with("movewindowpixel"))
        .unwrap();
    assert!(ws_idx < resize_idx, "workspace move must precede resize");
    assert!(resize_idx < move_idx, "resize must precede position move");

    // Workspace number must appear in the movetoworkspacesilent command.
    assert!(
        cmds[ws_idx].contains("3"),
        "workspace 3 must appear in dispatch; got: {}",
        cmds[ws_idx]
    );
    // Floating togglefloating must be present.
    let float_cmd = cmds.iter().find(|c| c.starts_with("togglefloating"));
    assert!(
        float_cmd.is_some(),
        "floating client should have togglefloating dispatch"
    );

    // fullscreen=0 means no fullscreen dispatch.
    assert!(
        !cmds.iter().any(|c| c.starts_with("fullscreen")),
        "non-fullscreen client should not have fullscreen dispatch"
    );
    assert!(
        cmds.iter().any(|c| c == "focuswindow address:0xNEW"),
        "dry-run monitor placement should target the placeholder address once"
    );
    assert!(
        !cmds.iter().any(|c| c.contains("address:address:")),
        "dry-run monitor placement must not double-prefix the address"
    );
}

#[test]
fn test_new_fullscreen_window_is_targeted_by_address() {
    let target = make_client(
        "kitty",
        1,
        [10, 20],
        [800, 600],
        false,
        1,
        "true",
        vec![],
        None,
    );
    let new_window = make_reconcile_window(
        "0xnew-fullscreen",
        "kitty",
        "kitty",
        1,
        0,
        [0, 0],
        [400, 300],
    );
    let mock = MockHyprctl::new(vec![vec![], vec![new_window]]);
    let launcher = RecordingLauncher::default();
    let mut config = Config::default();
    config.general.restore_delay_ms = 0;

    restore_single_client_with_launcher_and_process_info(
        &target,
        &mock,
        &EmptyProcessInfo,
        &config,
        &launcher,
        false,
    )
    .unwrap();

    let dispatches = mock.dispatches();
    assert!(dispatches
        .iter()
        .any(|dispatch| dispatch == "focuswindow address:0xnew-fullscreen"));
    assert!(dispatches
        .iter()
        .any(|dispatch| dispatch == "fullscreenstate 1 1"));
    assert!(!mock
        .dispatches()
        .iter()
        .any(|dispatch| dispatch == "fullscreen 1"));
}

#[test]
fn test_launch_accepts_reused_address_when_it_belongs_to_launched_process() {
    let mut target = make_client(
        "kitty",
        1,
        [10, 20],
        [800, 600],
        false,
        0,
        "true",
        vec![],
        None,
    );
    target.monitor.clear();

    let mut old_window =
        make_reconcile_window("0xreused", "kitty", "old", 1, 0, [0, 0], [400, 300]);
    old_window.pid = 4000;
    let mut launched_window =
        make_reconcile_window("0xreused", "kitty", "kitty", 1, 0, [0, 0], [400, 300]);
    launched_window.pid = 5000;
    let mock = MockHyprctl::new(vec![vec![old_window], vec![launched_window]]);
    let launcher = RecordingLauncher {
        pid: Some(5000),
        start_time: Some(10),
        ..Default::default()
    };
    let process_info = StartTimeProcessInfo { start_time: 10 };
    let mut config = Config::default();
    config.general.restore_delay_ms = 0;

    restore_single_client_with_launcher_and_process_info(
        &target,
        &mock,
        &process_info,
        &config,
        &launcher,
        false,
    )
    .expect("the launched window may reuse the old address");

    assert!(mock
        .dispatches()
        .iter()
        .any(|dispatch| dispatch.contains("0xreused")));
}

#[test]
fn test_launch_correlation_prefers_window_from_spawned_process_tree() {
    let mut target = make_client(
        "kitty",
        1,
        [10, 20],
        [800, 600],
        false,
        0,
        "true",
        vec![],
        None,
    );
    target.title = "target".to_string();
    target.monitor.clear();
    let related =
        make_reconcile_window("0xrelated", "kitty", "other", 1, 0, [0, 0], [400, 300]);
    let mut related = related;
    related.pid = 6000;
    let unrelated =
        make_reconcile_window("0xunrelated", "kitty", "target", 1, 0, [10, 20], [800, 600]);
    let mock = MockHyprctl::new(vec![vec![], vec![related, unrelated]]);
    let launcher = RecordingLauncher {
        pid: Some(5000),
        ..Default::default()
    };
    let process_info = RelatedProcessInfo {
        children: HashMap::from([(
            5000,
            vec![ChildProcess {
                pid: 6000,
                cwd: String::from("/tmp"),
                cmdline: "kitty".to_string(),
            }],
        )]),
    };
    let mut config = Config::default();
    config.general.restore_delay_ms = 0;

    restore_single_client_with_launcher_and_process_info(
        &target,
        &mock,
        &process_info,
        &config,
        &launcher,
        false,
    )
    .unwrap();

    assert!(mock
        .dispatches()
        .iter()
        .all(|dispatch| !dispatch.contains("0xunrelated")));
    assert!(mock
        .dispatches()
        .iter()
        .any(|dispatch| dispatch.contains("0xrelated")));
}

#[test]
fn test_launch_correlation_does_not_move_unrelated_same_class_window() {
    let mut target = make_client(
        "kitty",
        1,
        [10, 20],
        [800, 600],
        false,
        0,
        "true",
        vec![],
        None,
    );
    target.title = "target".to_string();
    target.monitor.clear();
    let unrelated =
        make_reconcile_window("0xunrelated", "kitty", "target", 1, 0, [10, 20], [800, 600]);
    let mock = MockHyprctl::new(vec![vec![], vec![unrelated]]);
    let launcher = RecordingLauncher {
        pid: Some(5000),
        ..Default::default()
    };
    let mut config = Config::default();
    config.general.window_detect_timeout_ms = 500;
    config.general.restore_delay_ms = 0;

    let result = restore_single_client_with_launcher_and_process_info(
        &target,
        &mock,
        &EmptyProcessInfo,
        &config,
        &launcher,
        false,
    );

    assert!(matches!(result, Err(RestoreError::Hyprctl(_))));
    assert!(mock.dispatches().is_empty());
}

#[test]
fn test_launch_correlation_fails_instead_of_picking_ambiguous_window() {
    let target = make_client(
        "kitty",
        1,
        [10, 20],
        [800, 600],
        false,
        0,
        "true",
        vec![],
        None,
    );
    let first =
        make_reconcile_window("0xambiguous-a", "kitty", "kitty", 1, 0, [0, 0], [400, 300]);
    let second =
        make_reconcile_window("0xambiguous-b", "kitty", "kitty", 1, 0, [0, 0], [400, 300]);
    let mock = MockHyprctl::new(vec![vec![], vec![first, second]]);
    let launcher = RecordingLauncher::default();
    let mut config = Config::default();
    config.general.restore_delay_ms = 0;

    let error = restore_single_client_with_launcher(&target, &mock, &config, &launcher)
        .expect_err("ambiguous candidates must not be targeted arbitrarily");
    assert!(error.message().contains("unambiguously identify"));
    assert!(mock.dispatches().is_empty());
}

// ── reports client when binary is missing ──────────────────────────

#[test]
fn test_restore_reports_missing_binary_as_failure() {
    let client = make_client(
        "nonexistent_app_xyz",
        1,
        [0, 0],
        [800, 600],
        false,
        0,
        "nonexistent_app_xyz_abc_123", // guaranteed not to exist
        vec![],
        None,
    );
    let session = make_session(vec![client]);
    let mut config = Config::default();
    config.apps.insert(
        "nonexistent_app_xyz".to_string(),
        AppConfig {
            binary: Some("nonexistent_app_xyz_abc_123".to_string()),
            capture_cwd: None,
            capture_last_command: None,
            hint_template: None,
            profile_workspaces: None,
            default_workspace: None,
        },
    );
    let mock = MockHyprctl::new(vec![]);

    let report = restore_session(&session, &mock, &config, false, true).unwrap();

    assert_eq!(report.skipped, 0);
    assert_eq!(report.restored, 0);
    assert_eq!(report.failed, 1, "missing binary must be actionable");
    // No dispatches should have been sent.
    assert!(mock.dispatches().is_empty());
}

#[test]
fn test_restore_rejects_more_than_the_operational_window_limit() {
    let clients: Vec<SessionClient> = (0..=MAX_RECONCILIATION_WINDOWS)
        .map(|index| {
            make_client(
                "example-app",
                1,
                [index as i32, 0],
                [800, 600],
                false,
                0,
                "true",
                vec![],
                None,
            )
        })
        .collect();
    let mock = MockHyprctl::new(vec![]);

    let error = restore_session(
        &make_session(clients),
        &mock,
        &Config::default(),
        false,
        true,
    )
    .expect_err("normal restore must be bounded");

    assert!(matches!(
        error,
        RestoreError::TooManyWindows {
            targets,
            current: 0,
            limit,
        } if targets == MAX_RECONCILIATION_WINDOWS + 1
            && limit == MAX_RECONCILIATION_WINDOWS
    ));
    assert!(mock.dispatches().is_empty());
}

#[test]
fn test_restore_dry_run_reports_missing_launch_binary_as_failure() {
    let client = make_client(
        "missing-app",
        1,
        [0, 0],
        [800, 600],
        false,
        0,
        "missing_binary_for_dry_run_xyz",
        vec![],
        None,
    );
    let mut config = Config::default();
    config.apps.insert(
        "missing-app".to_string(),
        AppConfig {
            binary: Some("missing_binary_for_dry_run_xyz".to_string()),
            capture_cwd: None,
            capture_last_command: None,
            hint_template: None,
            profile_workspaces: None,
            default_workspace: None,
        },
    );

    let report = restore_session(
        &make_session(vec![client]),
        &MockHyprctl::new(vec![]),
        &config,
        true,
        true,
    )
    .unwrap();

    assert_eq!(report.restored, 0);
    assert_eq!(report.failed, 1);
    assert!(report
        .details
        .iter()
        .any(|detail| detail.contains("missing_binary_for_dry_run_xyz")));
}

#[test]
fn test_restore_dry_run_reports_untrusted_launch_command_as_failure() {
    let client = make_client(
        "kitty",
        1,
        [0, 0],
        [800, 600],
        false,
        0,
        "true",
        vec![],
        None,
    );

    let report = restore_session(
        &make_session(vec![client]),
        &MockHyprctl::new(vec![]),
        &Config::default(),
        true,
        true,
    )
    .unwrap();

    assert_eq!(report.restored, 0);
    assert_eq!(report.failed, 1);
    assert!(report
        .details
        .iter()
        .any(|detail| detail.contains("not authorized")));
}

// ── skips duplicate class+workspace already running ────────────

#[test]
fn test_restore_skips_duplicate_class_workspace() {
    let existing_window = HyprClient {
        address: "0xexisting".to_string(),
        class: "KITTY".to_string(),
        title: "kitty".to_string(),
        initial_class: "TerminalWrapper".to_string(),
        initial_title: "kitty".to_string(),
        workspace: HyprWorkspace {
            id: 1,
            name: "1".to_string(),
        },
        monitor: 0,
        at: [0, 0],
        size: [800, 600],
        floating: false,
        fullscreen: 0,
        pinned: false,
        stable_id: None,
        focus_history_id: 0,
        pid: 9999,
    };

    // First get_clients() call returns the existing window (duplicate check).
    // Subsequent calls would also return it (mock clamps to last state).
    let mock = MockHyprctl::new(vec![vec![existing_window]]);

    let client = make_client(
        "kitty",
        1,
        [0, 0],
        [800, 600],
        false,
        0,
        "kitty",
        vec![],
        None,
    );
    let session = make_session(vec![client]);
    let config = Config::default();

    let report = restore_session(&session, &mock, &config, false, true).unwrap();

    assert_eq!(report.skipped, 1, "duplicate should be skipped");
    assert_eq!(report.restored, 0);
    assert_eq!(report.failed, 0);
    assert!(
        report
            .details
            .iter()
            .any(|d| d.contains("SKIP: KITTY already on ws=1")),
        "details should mention the skipped duplicate; got: {:?}",
        report.details
    );
    // No dispatches should have been sent.
    assert!(mock.dispatches().is_empty());
}

// ── dry-run accounts for already-open windows ─────────────────

#[test]
fn test_restore_dry_run_accounts_for_duplicates() {
    let existing_window = HyprClient {
        address: "0xexisting".to_string(),
        class: "kitty".to_string(),
        title: "kitty".to_string(),
        initial_class: "kitty".to_string(),
        initial_title: "kitty".to_string(),
        workspace: HyprWorkspace {
            id: 1,
            name: "1".to_string(),
        },
        monitor: 0,
        at: [0, 0],
        size: [800, 600],
        floating: false,
        fullscreen: 0,
        pinned: false,
        stable_id: None,
        focus_history_id: 0,
        pid: 9999,
    };

    // The dry-run should report the existing window instead of planning a
    // duplicate launch.
    let mock = MockHyprctl::new(vec![vec![existing_window]]);

    let client = make_client(
        "kitty",
        1,
        [0, 0],
        [800, 600],
        false,
        0,
        "kitty",
        vec![],
        None,
    );
    let session = make_session(vec![client]);
    let config = Config::default();

    let report = restore_session(&session, &mock, &config, true, true).unwrap();

    assert_eq!(report.restored, 0);
    assert_eq!(report.skipped, 1);
    assert_eq!(report.failed, 0);
    // No real dispatches in dry-run.
    assert!(mock.dispatches().is_empty());
}

// ── partial duplicates — restore only the missing count ────────

#[test]
fn test_restore_partial_duplicate_restores_missing() {
    // 2 existing "testapp" windows on ws=5.
    let existing = vec![
        HyprClient {
            address: "0xaaa".to_string(),
            class: "testapp".to_string(),
            title: "testapp".to_string(),
            initial_class: "testapp".to_string(),
            initial_title: "testapp".to_string(),
            workspace: HyprWorkspace {
                id: 5,
                name: "5".to_string(),
            },
            monitor: 0,
            at: [0, 0],
            size: [800, 600],
            floating: false,
            fullscreen: 0,
            pinned: false,
            stable_id: None,
            focus_history_id: 0,
            pid: 1001,
        },
        HyprClient {
            address: "0xbbb".to_string(),
            class: "testapp".to_string(),
            title: "testapp".to_string(),
            initial_class: "testapp".to_string(),
            initial_title: "testapp".to_string(),
            workspace: HyprWorkspace {
                id: 5,
                name: "5".to_string(),
            },
            monitor: 0,
            at: [100, 0],
            size: [800, 600],
            floating: false,
            fullscreen: 0,
            pinned: false,
            stable_id: None,
            focus_history_id: 0,
            pid: 1002,
        },
    ];

    let mock = MockHyprctl::new(vec![existing]);

    // Session wants 3 "testapp" on ws=5 with a nonexistent binary.
    let clients: Vec<SessionClient> = (0..3)
        .map(|i| {
            make_client(
                "testapp",
                5,
                [i * 100, 0],
                [800, 600],
                false,
                0,
                "nonexistent_binary_xyz_123",
                vec![],
                None,
            )
        })
        .collect();

    let session = make_session(clients);
    let mut config = Config::default();
    config.apps.insert(
        "testapp".to_string(),
        AppConfig {
            binary: Some("nonexistent_binary_xyz_123".to_string()),
            capture_cwd: None,
            capture_last_command: None,
            hint_template: None,
            profile_workspaces: None,
            default_workspace: None,
        },
    );

    let report = restore_session(&session, &mock, &config, false, true).unwrap();

    // 2 skipped as duplicates, 1 failed as binary-not-found.
    assert_eq!(
        report.skipped, 2,
        "expected 2 skipped; got {}",
        report.skipped
    );
    assert_eq!(report.restored, 0);
    assert_eq!(report.failed, 1);

    // Exactly 2 detail lines should mention "already on ws=".
    let dup_msgs: Vec<_> = report
        .details
        .iter()
        .filter(|d| d.contains("SKIP: testapp already on ws=5"))
        .collect();
    assert_eq!(
        dup_msgs.len(),
        2,
        "expected 2 duplicate-skip messages; got {:?}",
        report.details
    );

    // Exactly 1 detail line should mention "binary".
    let bin_msgs: Vec<_> = report
        .details
        .iter()
        .filter(|d| d.contains("binary"))
        .collect();
    assert_eq!(
        bin_msgs.len(),
        1,
        "expected 1 binary-not-found message; got {:?}",
        report.details
    );

    // No dispatches should have been sent.
    assert!(mock.dispatches().is_empty());
}

// ── restore brave by profile in dry-run mode ───────────────────

#[test]
fn test_restore_brave_by_profile_dry_run() {
    let session = Session {
        name: "test".to_string(),
        created_at: 0,
        hyprland_version: "0.54.1".to_string(),
        monitors: vec![],
        clients: vec![
            make_client(
                "brave-browser",
                1,
                [0, 0],
                [800, 600],
                false,
                0,
                "brave",
                vec![],
                None,
            ),
            make_client(
                "brave-browser",
                8,
                [0, 0],
                [800, 600],
                false,
                0,
                "brave",
                vec![],
                None,
            ),
            make_client(
                "kitty",
                4,
                [0, 0],
                [800, 600],
                false,
                0,
                "true",
                vec![],
                None,
            ),
        ],
        brave_profiles: vec![
            BraveProfile {
                directory: "Default".to_string(),
                name: "Credifit".to_string(),
            },
            BraveProfile {
                directory: "Profile 1".to_string(),
                name: "LinkPJ".to_string(),
            },
        ],
    };

    let mut apps = Table::new();
    apps.insert(
        "brave-browser".to_string(),
        AppConfig {
            binary: Some("true".to_string()),
            capture_cwd: None,
            capture_last_command: None,
            hint_template: None,
            profile_workspaces: Some(table([
                ("Default".to_string(), 1),
                ("Profile 1".to_string(), 6),
            ])),
            default_workspace: Some(1),
        },
    );
    apps.insert(
        "kitty".to_string(),
        AppConfig {
            binary: Some("true".to_string()),
            capture_cwd: None,
            capture_last_command: None,
            hint_template: None,
            profile_workspaces: None,
            default_workspace: None,
        },
    );

    let config = Config {
        general: GeneralConfig::default(),
        filters: FilterConfig::default(),
        apps,
    };

    let mock = MockHyprctl::new(vec![]);
    let report = restore_session(&session, &mock, &config, true, true).unwrap();

    // 2 profiles restored + 1 kitty = 3 restored
    assert_eq!(
        report.restored, 3,
        "should restore 2 profiles + 1 kitty; got details: {:?}",
        report.details
    );

    // Brave individual windows should NOT appear in details (they were skipped)
    let brave_individual: Vec<_> = report
        .details
        .iter()
        .filter(|d| d.contains("[dry-run] ws=") && d.contains("brave"))
        .collect();
    assert!(
        brave_individual.is_empty(),
        "individual brave windows should be skipped; got: {:?}",
        brave_individual
    );

    // Profile entries should appear
    assert!(
        report.details.iter().any(|d| d.contains("Credifit")),
        "should have Credifit profile; got: {:?}",
        report.details
    );
    assert!(
        report.details.iter().any(|d| d.contains("LinkPJ")),
        "should have LinkPJ profile; got: {:?}",
        report.details
    );

    // Kitty should still be present
    assert!(
        report.details.iter().any(|d| d.contains("kitty")),
        "kitty should be restored normally; got: {:?}",
        report.details
    );
}

// ── profile without an explicit map uses default_workspace fallback

#[test]
fn test_restore_brave_profile_uses_default_workspace() {
    let session = Session {
        name: "test".to_string(),
        created_at: 0,
        hyprland_version: "0.54.1".to_string(),
        monitors: vec![],
        clients: vec![],
        brave_profiles: vec![BraveProfile {
            directory: "Profile 9".to_string(),
            name: "Unmapped".to_string(),
        }],
    };

    let mut apps = Table::new();
    apps.insert(
        "brave-browser".to_string(),
        AppConfig {
            binary: Some("true".to_string()),
            capture_cwd: None,
            capture_last_command: None,
            hint_template: None,
            profile_workspaces: None,
            default_workspace: Some(3),
        },
    );

    let config = Config {
        general: GeneralConfig::default(),
        filters: FilterConfig {
            ignore_classes: vec![],
        },
        apps,
    };

    let mock = MockHyprctl::new(vec![]);
    let report = restore_session(&session, &mock, &config, true, true).unwrap();

    assert_eq!(report.restored, 1);
    // With no explicit map, use default_workspace=3.
    assert!(
        report.details.iter().any(|d| d.contains("ws=3")),
        "profile should use default_workspace=3; got: {:?}",
        report.details
    );
}

#[test]
fn test_restore_brave_profile_missing_binary_is_a_failure() {
    let session = Session {
        name: "test".to_string(),
        created_at: 0,
        hyprland_version: "0.54.1".to_string(),
        monitors: vec![],
        clients: vec![],
        brave_profiles: vec![BraveProfile {
            directory: "Default".to_string(),
            name: "Personal".to_string(),
        }],
    };
    let config = Config {
        apps: table([(
            "brave-browser".to_string(),
            AppConfig {
                binary: Some("missing_brave_binary_xyz".to_string()),
                capture_cwd: None,
                capture_last_command: None,
                hint_template: None,
                profile_workspaces: Some(table([("Default".to_string(), 1)])),
                default_workspace: None,
            },
        )]),
        ..Config::default()
    };

    let report = restore_session(
        &session,
        &MockHyprctl::new(vec![vec![]]),
        &config,
        false,
        true,
    )
    .unwrap();

    assert_eq!(report.restored, 0);
    assert_eq!(report.skipped, 0);
    assert_eq!(report.failed, 1);
    assert!(report
        .details
        .iter()
        .any(|detail| detail.contains("missing_brave_binary_xyz")));
}

#[test]
fn test_restore_brave_profile_with_explicit_mapping_skips_unmapped_profile() {
    let session = Session {
        name: "test".to_string(),
        created_at: 0,
        hyprland_version: "0.54.1".to_string(),
        monitors: vec![],
        clients: vec![],
        brave_profiles: vec![
            BraveProfile {
                directory: "Default".to_string(),
                name: "Mapped".to_string(),
            },
            BraveProfile {
                directory: "Profile 9".to_string(),
                name: "Unmapped".to_string(),
            },
        ],
    };

    let mut apps = Table::new();
    apps.insert(
        "brave-browser".to_string(),
        AppConfig {
            binary: Some("true".to_string()),
            capture_cwd: None,
            capture_last_command: None,
            hint_template: None,
            profile_workspaces: Some(table([("Default".to_string(), 1)])),
            default_workspace: Some(3),
        },
    );

    let config = Config {
        general: GeneralConfig::default(),
        filters: FilterConfig {
            ignore_classes: vec![],
        },
        apps,
    };

    let mock = MockHyprctl::new(vec![]);
    let report = restore_session(&session, &mock, &config, true, true).unwrap();

    assert_eq!(report.restored, 1);
    assert!(report
        .details
        .iter()
        .any(|detail| detail.contains("Mapped")));
    assert!(!report
        .details
        .iter()
        .any(|detail| detail.contains("Unmapped")));
}

#[test]
fn test_empty_brave_profile_mapping_does_not_fall_back_to_raw_windows() {
    let session = Session {
        name: "test".to_string(),
        created_at: 0,
        hyprland_version: "0.54.1".to_string(),
        monitors: vec![],
        clients: vec![make_client(
            "brave-browser",
            1,
            [0, 0],
            [800, 600],
            false,
            0,
            "true",
            vec![],
            None,
        )],
        // A legacy session may not have captured the profile inventory,
        // but an explicit empty map still means "restore no profiles".
        brave_profiles: vec![],
    };
    let config = Config {
        apps: table([(
            "brave-browser".to_string(),
            AppConfig {
                binary: Some("true".to_string()),
                capture_cwd: None,
                capture_last_command: None,
                hint_template: None,
                profile_workspaces: Some(Table::new()),
                default_workspace: Some(1),
            },
        )]),
        ..Config::default()
    };

    let report = restore_session(&session, &MockHyprctl::new(vec![]), &config, true, true)
        .expect("empty profile map should be a valid no-op");

    assert_eq!(report.restored, 0);
    assert!(report.details.is_empty());
}

#[test]
fn test_reconcile_reports_legacy_brave_without_profile_identity() {
    let session = Session {
        name: "legacy-brave".to_string(),
        created_at: 0,
        hyprland_version: "0.54.1".to_string(),
        monitors: vec![],
        clients: vec![make_client(
            "brave-browser",
            1,
            [0, 0],
            [1280, 800],
            false,
            0,
            "brave",
            vec![],
            None,
        )],
        brave_profiles: vec![],
    };
    let config = Config {
        apps: table([(
            "brave-browser".to_string(),
            AppConfig {
                binary: Some("true".to_string()),
                capture_cwd: None,
                capture_last_command: None,
                hint_template: None,
                profile_workspaces: Some(table([("Default".to_string(), 1)])),
                default_workspace: None,
            },
        )]),
        ..Config::default()
    };

    let launcher = RecordingLauncher::default();
    let report = reconcile_session_with_launcher(
        &session,
        &MockHyprctl::new(vec![vec![]]),
        &EmptyProcessInfo,
        &config,
        false,
        true,
        &launcher,
    )
    .expect("legacy Brave identity uncertainty should be reported, not dropped");

    assert_eq!(report.skipped, 1);
    assert_eq!(report.launched, 0);
    assert!(launcher.launches.borrow().is_empty());
}

#[test]
fn test_brave_mapping_does_not_create_profiles_absent_from_snapshot() {
    let session = Session {
        name: "without-brave".to_string(),
        created_at: 0,
        hyprland_version: "0.54.1".to_string(),
        monitors: vec![],
        clients: vec![],
        brave_profiles: vec![],
    };
    let config = Config {
        apps: table([(
            "brave-browser".to_string(),
            AppConfig {
                binary: Some("true".to_string()),
                capture_cwd: None,
                capture_last_command: None,
                hint_template: None,
                profile_workspaces: Some(table([("Default".to_string(), 2)])),
                default_workspace: Some(1),
            },
        )]),
        ..Config::default()
    };

    let report = restore_session(&session, &MockHyprctl::new(vec![]), &config, true, true)
        .expect("a snapshot without Brave should remain a no-op");

    assert_eq!(report.restored, 0);
    assert!(report.details.is_empty());
}

#[test]
fn test_legacy_brave_inventory_without_identity_is_skipped_safely() {
    let session = Session {
        name: "test".to_string(),
        created_at: 0,
        hyprland_version: "0.54.1".to_string(),
        monitors: vec![],
        clients: vec![make_client(
            "brave-browser",
            1,
            [0, 0],
            [800, 600],
            false,
            0,
            "true",
            vec![],
            None,
        )],
        // Older snapshots could contain every Local State profile even
        // though only one Brave window was captured.
        brave_profiles: vec![
            BraveProfile {
                directory: "Default".to_string(),
                name: "Personal".to_string(),
            },
            BraveProfile {
                directory: "Profile 1".to_string(),
                name: "Work".to_string(),
            },
        ],
    };
    let config = Config {
        apps: table([(
            "brave-browser".to_string(),
            AppConfig {
                binary: Some("true".to_string()),
                capture_cwd: None,
                capture_last_command: None,
                hint_template: None,
                profile_workspaces: None,
                default_workspace: Some(1),
            },
        )]),
        ..Config::default()
    };

    let report = restore_session(&session, &MockHyprctl::new(vec![]), &config, true, true)
        .expect("ambiguous legacy inventory should be skipped safely");

    assert_eq!(report.restored, 0);
    assert!(report
        .details
        .iter()
        .all(|detail| !detail.contains("brave profile")));
}

#[test]
fn test_legacy_brave_without_profile_identity_is_not_matched_or_launched() {
    let target = make_client(
        "brave-browser",
        1,
        [0, 0],
        [800, 600],
        false,
        0,
        "true",
        vec![],
        None,
    );
    let current = make_reconcile_window(
        "0xprofile",
        "brave-browser",
        "Brave",
        1,
        0,
        [100, 100],
        [800, 600],
    );
    let observed = ObservedClient::with_profile_directory(
        current.clone(),
        None,
        None,
        Some("Profile 1".to_string()),
    );
    assert!(plan_reconciliation(std::slice::from_ref(&target), &[observed])[0].is_none());

    let mock = MockHyprctl::new(vec![vec![current]]);
    let launcher = RecordingLauncher::default();
    let report = reconcile_session_with_launcher(
        &make_session(vec![target]),
        &mock,
        &BraveProfileProcessInfo,
        &Config::default(),
        false,
        true,
        &launcher,
    )
    .unwrap();

    assert_eq!(report.skipped, 1);
    assert_eq!(report.launched, 0);
    assert!(launcher.launches.borrow().is_empty());
    assert!(mock.dispatches().is_empty());
}

// ── without profiles, brave windows restore individually ───────

#[test]
fn test_restore_brave_without_profiles_falls_back() {
    // Session WITHOUT brave_profiles can still restore a Brave window when
    // the window itself carries a positive Default-profile identity.
    let mut client = make_client(
        "brave-browser",
        1,
        [0, 0],
        [800, 600],
        false,
        0,
        "true",
        vec![],
        None,
    );
    client.profile_directory = Some("Default".to_string());
    let session = Session {
        name: "test".to_string(),
        created_at: 0,
        hyprland_version: "0.54.1".to_string(),
        monitors: vec![],
        clients: vec![client],
        brave_profiles: vec![], // no profiles
    };

    let config = Config {
        apps: table([(
            "brave-browser".to_string(),
            AppConfig {
                binary: Some("true".to_string()),
                capture_cwd: None,
                capture_last_command: None,
                hint_template: None,
                profile_workspaces: None,
                default_workspace: None,
            },
        )]),
        ..Config::default()
    };
    let mock = MockHyprctl::new(vec![]);
    let report = restore_session(&session, &mock, &config, true, true).unwrap();

    // Without an inventory, a positively identified Brave window is still
    // restored individually.
    assert_eq!(report.restored, 1);
    assert!(report
        .details
        .iter()
        .any(|d| d.contains("[dry-run]") && d.contains("brave")));
}

#[test]
fn test_normal_restore_reuses_open_brave_profile_instead_of_launching_duplicate() {
    let mut brave = make_client(
        "brave-browser",
        1,
        [0, 0],
        [800, 600],
        false,
        0,
        "brave",
        vec![],
        None,
    );
    brave.title = "Brave".to_string();
    brave.initial_title = "Brave".to_string();
    let session = Session {
        name: "test".to_string(),
        created_at: 0,
        hyprland_version: "0.54.1".to_string(),
        monitors: vec![],
        clients: vec![brave],
        brave_profiles: vec![BraveProfile {
            directory: "Default".to_string(),
            name: "Personal".to_string(),
        }],
    };
    let config = Config {
        general: GeneralConfig::default(),
        filters: FilterConfig::default(),
        apps: table([(
            "brave-browser".to_string(),
            AppConfig {
                binary: Some("brave".to_string()),
                capture_cwd: None,
                capture_last_command: None,
                hint_template: None,
                profile_workspaces: Some(table([("Default".to_string(), 1)])),
                default_workspace: Some(1),
            },
        )]),
    };
    let mock = MockHyprctl::new(vec![vec![make_reconcile_window(
        "0xprofile",
        "brave-browser",
        "Brave",
        1,
        0,
        [0, 0],
        [800, 600],
    )]]);

    let report = restore_session_with_process_info(
        &session,
        &mock,
        &BraveProfileProcessInfo,
        &config,
        false,
        true,
    )
    .unwrap();

    assert_eq!(report.skipped, 1);
    assert_eq!(report.restored, 0);
    assert_eq!(report.failed, 0);
    assert!(mock.dispatches().is_empty());
}

#[test]
fn test_brave_shared_process_is_not_assumed_to_identify_each_window() {
    let target = make_client(
        "brave-browser",
        1,
        [0, 0],
        [800, 600],
        false,
        0,
        "brave",
        vec![],
        None,
    );
    let session = Session {
        name: "test".to_string(),
        created_at: 0,
        monitors: vec![],
        hyprland_version: "0.54.1".to_string(),
        clients: vec![target],
        brave_profiles: vec![BraveProfile {
            directory: "Default".to_string(),
            name: "Personal".to_string(),
        }],
    };
    let config = Config {
        general: GeneralConfig::default(),
        filters: FilterConfig::default(),
        apps: table([(
            "brave-browser".to_string(),
            AppConfig {
                binary: Some("brave".to_string()),
                capture_cwd: None,
                capture_last_command: None,
                hint_template: None,
                profile_workspaces: None,
                default_workspace: Some(1),
            },
        )]),
    };
    let first = make_reconcile_window(
        "0xprofile-a",
        "brave-browser",
        "Personal",
        1,
        0,
        [0, 0],
        [800, 600],
    );
    let second = make_reconcile_window(
        "0xprofile-b",
        "brave-browser",
        "Work",
        2,
        0,
        [900, 0],
        [800, 600],
    );
    let mock = MockHyprctl::new(vec![vec![first, second]]);

    let report = restore_session_with_process_info(
        &session,
        &mock,
        &BraveProfileProcessInfo,
        &config,
        false,
        true,
    )
    .unwrap();

    assert_eq!(report.skipped, 1);
    assert_eq!(report.restored, 0);
    assert_eq!(report.failed, 0);
    assert!(mock.dispatches().is_empty());
}

#[test]
fn test_reconcile_leaves_conflicting_same_class_extra_unmatched() {
    let mut target = make_client(
        "example-app",
        1,
        [10, 20],
        [800, 600],
        false,
        0,
        "true",
        vec![],
        None,
    );
    target.title = "Project A".to_string();
    target.initial_title = "Project A".to_string();
    let current = make_reconcile_window(
        "0xextra",
        "example-app",
        "Project B",
        1,
        0,
        [10, 20],
        [800, 600],
    );
    let mock = MockHyprctl::new(vec![vec![current]]);
    let config = Config {
        apps: table([(
            "example-app".to_string(),
            AppConfig {
                binary: Some("true".to_string()),
                capture_cwd: None,
                capture_last_command: None,
                hint_template: None,
                profile_workspaces: None,
                default_workspace: None,
            },
        )]),
        ..Config::default()
    };

    let report = reconcile_session_with_launcher(
        &make_session(vec![target]),
        &mock,
        &EmptyProcessInfo,
        &config,
        true,
        true,
        &RecordingLauncher::default(),
    )
    .unwrap();

    assert_eq!(report.matched, 0);
    assert_eq!(report.launched, 1);
    assert_eq!(report.extras, 1);
    assert!(mock.dispatches().is_empty());
}

#[test]
fn test_reconcile_skips_a_saved_brave_target_without_safe_profile_identity() {
    let mut target = make_client(
        "brave-browser",
        1,
        [0, 0],
        [800, 600],
        false,
        0,
        "brave",
        vec![],
        None,
    );
    target.profile_identity_ambiguous = true;
    let current = make_reconcile_window(
        "0xbrave",
        "brave-browser",
        "Brave",
        1,
        0,
        [0, 0],
        [800, 600],
    );
    let mock = MockHyprctl::new(vec![vec![current]]);

    let report = reconcile_session_with_launcher(
        &make_session(vec![target]),
        &mock,
        &EmptyProcessInfo,
        &Config::default(),
        false,
        true,
        &RecordingLauncher::default(),
    )
    .unwrap();

    assert_eq!(report.matched, 0);
    assert_eq!(report.launched, 0);
    assert_eq!(report.skipped, 1);
    assert_eq!(report.extras, 1);
    assert!(mock.dispatches().is_empty());
}

#[test]
fn test_safety_snapshot_rejects_ambiguous_brave_windows_before_replace() {
    let mut first = make_client(
        "brave-browser",
        1,
        [0, 0],
        [800, 600],
        false,
        0,
        "brave",
        vec![],
        None,
    );
    first.title = "Personal".to_string();
    first.profile_identity_ambiguous = true;
    let mut second = first.clone();
    second.title = "Work".to_string();

    let error = validate_safety_snapshot(&make_session(vec![first, second]))
        .expect_err("an ambiguous Brave safety snapshot must block replacement");

    assert!(matches!(error, RestoreError::UnsafeRecoverySnapshot { .. }));
}

#[test]
fn test_safety_snapshot_rejects_unlaunchable_window_before_replace() {
    let target = make_client(
        "deskloom-test-command-that-does-not-exist",
        1,
        [0, 0],
        [800, 600],
        false,
        0,
        "deskloom-test-command-that-does-not-exist",
        vec![],
        None,
    );

    let error =
        validate_safety_snapshot_with_config(&make_session(vec![target]), &Config::default())
            .expect_err("replacement must reject a safety snapshot it cannot relaunch");

    assert!(matches!(error, RestoreError::UnsafeRecoverySnapshot { .. }));
}

#[test]
fn test_safety_snapshot_rejects_missing_stable_id_before_replace() {
    let mut target = make_client(
        "true",
        1,
        [0, 0],
        [800, 600],
        false,
        0,
        "true",
        vec![],
        None,
    );
    target.address = Some("0xtrue".to_string());

    let error =
        validate_safety_snapshot_with_config(&make_session(vec![target]), &Config::default())
            .expect_err("replacement must require a stable Hyprland window ID");

    assert!(matches!(
        error,
        RestoreError::UnsafeRecoverySnapshot { reason }
            if reason.contains("stable window ID")
    ));
}

#[test]
fn test_replacement_rejects_ambiguous_brave_target_even_with_other_targets() {
    let mut brave = make_client(
        "brave-browser",
        1,
        [0, 0],
        [800, 600],
        false,
        0,
        "brave",
        vec![],
        None,
    );
    brave.title = "Work".to_string();
    brave.profile_identity_ambiguous = true;
    let other = make_client(
        "kitty",
        2,
        [10, 20],
        [800, 600],
        false,
        0,
        "true",
        vec![],
        None,
    );

    let error =
        validate_replacement_targets(&make_session(vec![brave, other]), &Config::default())
            .expect_err("replacement must not silently drop an ambiguous Brave target");

    assert!(matches!(
        error,
        RestoreError::UnsafeReplacementTarget { .. }
    ));
}

#[test]
fn test_brave_launch_rejects_unknown_profile_on_reused_browser_pid() {
    let mut target = make_client(
        "brave-browser",
        1,
        [10, 20],
        [800, 600],
        false,
        0,
        "true",
        vec![],
        None,
    );
    target.profile_directory = Some("Default".to_string());
    let existing = make_reconcile_window(
        "0xexisting",
        "brave-browser",
        "Work",
        1,
        0,
        [0, 0],
        [800, 600],
    );
    let mut new_window = make_reconcile_window(
        "0xnew",
        "brave-browser",
        "Personal",
        1,
        0,
        [0, 0],
        [800, 600],
    );
    new_window.pid = existing.pid;
    let mock = MockHyprctl::new(vec![vec![existing.clone()], vec![existing, new_window]]);
    let launcher = RecordingLauncher {
        pid: Some(5000),
        ..Default::default()
    };
    let mut config = Config::default();
    config.general.restore_delay_ms = 0;

    let result = restore_single_client_with_launcher_and_process_info_with_address(
        &target,
        &mock,
        &SharedBraveProfileProcessInfo,
        &config,
        &launcher,
        true,
    );

    assert!(matches!(
        result,
        Err(RestoreError::UncorrelatedWindow { .. })
    ));
    assert!(mock.dispatches().is_empty());
}

#[test]
fn test_brave_launch_rejects_reused_pid_even_when_profile_is_positive() {
    let mut target = make_client(
        "brave-browser",
        1,
        [10, 20],
        [800, 600],
        false,
        0,
        "true",
        vec![],
        None,
    );
    target.profile_directory = Some("Default".to_string());
    let existing = make_reconcile_window(
        "0xexisting",
        "brave-browser",
        "Work",
        1,
        0,
        [0, 0],
        [800, 600],
    );
    let mut new_window = make_reconcile_window(
        "0xnew",
        "brave-browser",
        "Personal",
        1,
        0,
        [0, 0],
        [800, 600],
    );
    new_window.pid = existing.pid;
    let mock = MockHyprctl::new(vec![vec![existing.clone()], vec![existing, new_window]]);
    let launcher = RecordingLauncher {
        pid: Some(5000),
        ..Default::default()
    };
    let mut config = Config::default();
    config.general.window_detect_timeout_ms = 500;
    config.general.restore_delay_ms = 0;

    let result = restore_single_client_with_launcher_and_process_info_with_address(
        &target,
        &mock,
        &BraveProfileProcessInfo,
        &config,
        &launcher,
        true,
    );

    assert!(matches!(
        result,
        Err(RestoreError::UncorrelatedWindow { .. })
    ));
    assert!(mock.dispatches().is_empty());
}

#[test]
fn test_brave_launch_does_not_trust_active_window_when_browser_reuses_pid() {
    let mut target = make_client(
        "brave-browser",
        1,
        [10, 20],
        [800, 600],
        false,
        0,
        "true",
        vec![],
        None,
    );
    target.profile_directory = Some("Default".to_string());
    let existing = make_reconcile_window(
        "0xexisting",
        "brave-browser",
        "Work",
        1,
        0,
        [0, 0],
        [800, 600],
    );
    let mut new_window = make_reconcile_window(
        "0xnew",
        "brave-browser",
        "Personal",
        1,
        0,
        [0, 0],
        [800, 600],
    );
    new_window.pid = existing.pid;
    let mock = MockHyprctl::new(vec![vec![existing.clone()], vec![existing, new_window]])
        .with_active_addresses(vec![Some("0xnew".to_string())]);
    let launcher = RecordingLauncher {
        pid: Some(5000),
        ..Default::default()
    };
    let mut config = Config::default();
    config.general.window_detect_timeout_ms = 500;
    config.general.restore_delay_ms = 0;

    let result = restore_single_client_with_launcher_and_process_info_with_address(
        &target,
        &mock,
        &SharedBraveProfileProcessInfo,
        &config,
        &launcher,
        true,
    );

    assert!(matches!(
        result,
        Err(RestoreError::UncorrelatedWindow { .. })
    ));
    assert!(mock.dispatches().is_empty());
}

#[test]
fn test_webapp_launch_rejects_window_from_existing_chromium_pid() {
    let target = make_client(
        "chrome-chatgpt.com__-Default",
        1,
        [10, 20],
        [800, 600],
        false,
        0,
        "omarchy-launch-webapp",
        vec!["https://chatgpt.com/".to_string()],
        None,
    );
    let existing = make_reconcile_window(
        "0xexisting",
        "chrome-other.com__-Default",
        "Other app",
        1,
        0,
        [0, 0],
        [800, 600],
    );
    let mut new_window = make_reconcile_window(
        "0xnew",
        "chrome-chatgpt.com__-Default",
        "ChatGPT",
        1,
        0,
        [0, 0],
        [800, 600],
    );
    new_window.pid = existing.pid;
    let mock = MockHyprctl::new(vec![vec![existing.clone()], vec![existing, new_window]]);
    let launcher = RecordingLauncher {
        pid: Some(5000),
        ..Default::default()
    };
    let mut config = Config::default();
    config.general.restore_delay_ms = 0;

    let result = restore_single_client_with_launcher_and_process_info_with_address(
        &target,
        &mock,
        &EmptyProcessInfo,
        &config,
        &launcher,
        true,
    );

    assert!(matches!(
        result,
        Err(RestoreError::UncorrelatedWindow { .. })
    ));
    assert!(mock.dispatches().is_empty());
}

#[test]
fn test_webapp_launch_does_not_trust_active_window_when_browser_reuses_pid() {
    let target = make_client(
        "chrome-chatgpt.com__-Default",
        1,
        [10, 20],
        [800, 600],
        false,
        0,
        "omarchy-launch-webapp",
        vec!["https://chatgpt.com/".to_string()],
        None,
    );
    let existing = make_reconcile_window(
        "0xexisting",
        "chrome-other.com__-Default",
        "Other app",
        1,
        0,
        [0, 0],
        [800, 600],
    );
    let mut new_window = make_reconcile_window(
        "0xnew",
        "chrome-chatgpt.com__-Default",
        "ChatGPT",
        1,
        0,
        [0, 0],
        [800, 600],
    );
    new_window.pid = existing.pid;
    let mock = MockHyprctl::new(vec![vec![existing.clone()], vec![existing, new_window]])
        .with_active_addresses(vec![Some("0xnew".to_string())]);
    let launcher = RecordingLauncher {
        pid: Some(5000),
        ..Default::default()
    };
    let mut config = Config::default();
    config.general.window_detect_timeout_ms = 500;
    config.general.restore_delay_ms = 0;

    let result = restore_single_client_with_launcher_and_process_info_with_address(
        &target,
        &mock,
        &EmptyProcessInfo,
        &config,
        &launcher,
        true,
    );

    assert!(matches!(
        result,
        Err(RestoreError::UncorrelatedWindow { .. })
    ));
    assert!(mock.dispatches().is_empty());
}

#[test]
fn test_webapp_launch_accepts_stable_focused_handoff_window() {
    let target = make_client(
        "chrome-chatgpt.com__-Default",
        2,
        [10, 20],
        [800, 600],
        false,
        0,
        "omarchy-launch-webapp",
        vec!["https://chatgpt.com/".to_string()],
        None,
    );
    let existing = make_reconcile_window(
        "0xexisting",
        "chrome-other.com__-Default",
        "Other app",
        1,
        0,
        [0, 0],
        [800, 600],
    );
    let mut new_window = make_reconcile_window(
        "0xnew-webapp",
        "chrome-chatgpt.com__-Default",
        "ChatGPT",
        1,
        0,
        [0, 0],
        [800, 600],
    );
    new_window.stable_id = Some("stable-chatgpt-window".to_string());
    new_window.pid = existing.pid;
    let mock = MockHyprctl::new(vec![
        vec![existing.clone()],
        vec![existing.clone(), new_window.clone()],
    ])
    .with_active_addresses(vec![
        Some("0xexisting".to_string()),
        Some("0xnew-webapp".to_string()),
    ]);
    let launcher = RecordingLauncher {
        pid: Some(5000),
        ..Default::default()
    };
    let mut config = Config::default();
    config.general.window_detect_timeout_ms = 500;
    config.general.restore_delay_ms = 0;

    let result = restore_single_client_with_launcher_and_process_info_with_address(
        &target,
        &mock,
        &EmptyProcessInfo,
        &config,
        &launcher,
        true,
    )
    .expect("a stable, focused web-app handoff should be correlated");

    assert_eq!(result.observed.client.address, "0xnew-webapp");
    assert!(mock
        .dispatches()
        .iter()
        .any(|dispatch| dispatch.contains("0xnew-webapp")));
}

#[test]
fn test_browser_launch_rejects_multiple_new_active_candidates() {
    let mut target = make_client(
        "brave-browser",
        1,
        [10, 20],
        [800, 600],
        false,
        0,
        "true",
        vec![],
        None,
    );
    target.profile_directory = Some("Default".to_string());
    let existing = make_reconcile_window(
        "0xexisting",
        "brave-browser",
        "Existing",
        1,
        0,
        [0, 0],
        [800, 600],
    );
    let mut first_new = make_reconcile_window(
        "0xnew-a",
        "brave-browser",
        "First new window",
        1,
        0,
        [0, 0],
        [800, 600],
    );
    let mut second_new = make_reconcile_window(
        "0xnew-b",
        "brave-browser",
        "Second new window",
        1,
        0,
        [0, 0],
        [800, 600],
    );
    first_new.pid = existing.pid;
    second_new.pid = existing.pid;
    let mock = MockHyprctl::new(vec![
        vec![existing.clone()],
        vec![existing, first_new, second_new],
    ])
    .with_active_addresses(vec![Some("0xnew-b".to_string())]);
    let launcher = RecordingLauncher {
        pid: Some(5000),
        ..Default::default()
    };
    let mut config = Config::default();
    config.general.window_detect_timeout_ms = 500;
    config.general.restore_delay_ms = 0;

    let result = restore_single_client_with_launcher_and_process_info_with_address(
        &target,
        &mock,
        &SharedBraveProfileProcessInfo,
        &config,
        &launcher,
        true,
    );

    assert!(matches!(
        result,
        Err(RestoreError::UncorrelatedWindow { .. })
    ));
    assert!(mock.dispatches().is_empty());
}

#[test]
fn test_brave_launch_rejects_reused_pid_with_multiple_existing_windows() {
    let mut target = make_client(
        "brave-browser",
        1,
        [10, 20],
        [800, 600],
        false,
        0,
        "true",
        vec![],
        None,
    );
    target.profile_directory = Some("Default".to_string());
    let mut first = make_reconcile_window(
        "0xexisting-a",
        "brave-browser",
        "Work",
        1,
        0,
        [0, 0],
        [800, 600],
    );
    let mut second = make_reconcile_window(
        "0xexisting-b",
        "brave-browser",
        "Personal",
        2,
        0,
        [900, 0],
        [800, 600],
    );
    first.pid = 1000;
    second.pid = 1000;
    let mut new_window = make_reconcile_window(
        "0xnew",
        "brave-browser",
        "Unexpected",
        1,
        0,
        [0, 0],
        [800, 600],
    );
    new_window.pid = 1000;
    let mock = MockHyprctl::new(vec![
        vec![first.clone(), second.clone()],
        vec![first, second, new_window],
    ]);
    let launcher = RecordingLauncher {
        pid: Some(5000),
        ..Default::default()
    };
    let mut config = Config::default();
    config.general.window_detect_timeout_ms = 500;
    config.general.restore_delay_ms = 0;

    let result = restore_single_client_with_launcher_and_process_info_with_address(
        &target,
        &mock,
        &BraveProfileProcessInfo,
        &config,
        &launcher,
        true,
    );

    assert!(matches!(
        result,
        Err(RestoreError::UncorrelatedWindow { .. })
    ));
    assert!(mock.dispatches().is_empty());
}

#[test]
fn test_reconcile_does_nothing_when_target_is_already_in_place() {
    let target = make_client(
        "kitty",
        1,
        [10, 20],
        [800, 600],
        false,
        0,
        "kitty",
        vec![],
        None,
    );
    let mut target = target;
    target.title = "Project shell".to_string();
    target.initial_class = "kitty".to_string();
    target.initial_title = "kitty".to_string();

    let current = make_reconcile_window(
        "0xexisting",
        "kitty",
        "Project shell",
        1,
        0,
        [10, 20],
        [800, 600],
    );
    let mock = MockHyprctl::new(vec![vec![current]]);
    let launcher = RecordingLauncher::default();

    let report = reconcile_session_with_launcher(
        &make_session(vec![target]),
        &mock,
        &EmptyProcessInfo,
        &Config::default(),
        false,
        true,
        &launcher,
    )
    .unwrap();

    assert_eq!(report.unchanged, 1);
    assert_eq!(report.moved, 0);
    assert_eq!(report.launched, 0);
    assert_eq!(report.extras, 0);
    assert!(mock.dispatches().is_empty());
    assert!(launcher.launches.borrow().is_empty());
}

#[test]
fn test_reconcile_does_not_launch_when_generic_chromium_identity_is_ambiguous() {
    let mut target = make_client(
        "chromium",
        1,
        [10, 20],
        [800, 600],
        false,
        0,
        "chromium",
        vec![],
        None,
    );
    target.address = Some("0xmissing-target".to_string());
    target.title = "New Tab".to_string();
    target.initial_title = "Chromium".to_string();

    let first = make_reconcile_window(
        "0xexisting-a",
        "chromium",
        "New Tab",
        1,
        0,
        [300, 20],
        [800, 600],
    );
    let second = make_reconcile_window(
        "0xexisting-b",
        "chromium",
        "New Tab",
        1,
        0,
        [900, 20],
        [800, 600],
    );
    let mock = MockHyprctl::new(vec![vec![first, second]]);
    let launcher = RecordingLauncher::default();

    let report = reconcile_session_with_launcher(
        &make_session(vec![target]),
        &mock,
        &EmptyProcessInfo,
        &Config::default(),
        false,
        true,
        &launcher,
    )
    .unwrap();

    assert_eq!(report.launched, 0);
    assert_eq!(report.skipped, 1);
    assert!(launcher.launches.borrow().is_empty());
    assert!(mock.dispatches().is_empty());
}

#[test]
fn test_reconcile_propagates_monitor_query_failures() {
    let error = reconcile_session_with_launcher(
        &make_session(vec![]),
        &MonitorErrorHyprctl,
        &EmptyProcessInfo,
        &Config::default(),
        false,
        true,
        &RecordingLauncher::default(),
    )
    .expect_err("monitor query failures must not be hidden");

    assert!(matches!(
        error,
        RestoreError::Hyprctl(HyprctlError::CommandFailed(message))
            if message == "monitor query unavailable"
    ));
}

#[test]
fn test_replace_closes_existing_windows_before_reconciling() {
    let current = make_reconcile_window("0xold", "kitty", "kitty", 1, 0, [0, 0], [800, 600]);
    let mock = ClosingMockHyprctl::new(vec![current]);
    let report = replace_session(
        &make_session(vec![]),
        &mock,
        &EmptyProcessInfo,
        &Config::default(),
        false,
        true,
    )
    .unwrap();

    assert_eq!(report.launched, 0);
    assert_eq!(report.failed, 0);
    assert_eq!(
        mock.dispatches.borrow().as_slice(),
        &["closewindow address:0xold"]
    );
}

#[test]
fn test_replace_does_not_close_a_reused_address() {
    let mut old_window =
        make_reconcile_window("0xreused", "kitty", "Old", 1, 0, [0, 0], [800, 600]);
    old_window.stable_id = Some("0xwindow-a".to_string());
    let mut reused_window =
        make_reconcile_window("0xreused", "kitty", "New", 1, 0, [0, 0], [800, 600]);
    reused_window.stable_id = Some("0xwindow-b".to_string());
    let mock = MockHyprctl::new(vec![vec![old_window], vec![reused_window]]);
    let target = make_client(
        "true",
        1,
        [0, 0],
        [800, 600],
        false,
        0,
        "true",
        vec![],
        None,
    );

    let error = replace_session(
        &make_session(vec![target]),
        &mock,
        &EmptyProcessInfo,
        &Config::default(),
        false,
        true,
    )
    .expect_err("replace must not close a different window at a reused address");

    assert!(matches!(
        error,
        RestoreError::WindowIdentityChanged { address } if address == "0xreused"
    ));
    assert!(mock.dispatches().is_empty());
}

#[test]
fn test_replace_does_not_wait_for_a_new_window_at_a_reused_address() {
    let mut old_window =
        make_reconcile_window("0xreused", "kitty", "Old", 1, 0, [0, 0], [800, 600]);
    old_window.stable_id = Some("stable-old".to_string());
    let mut replacement = old_window.clone();
    replacement.title = "New".to_string();
    replacement.initial_title = "New".to_string();
    replacement.stable_id = Some("stable-new".to_string());
    let mock = MockHyprctl::new(vec![
        vec![old_window.clone()],
        vec![old_window],
        vec![replacement.clone()],
    ]);

    let report = replace_session(
        &make_session(vec![]),
        &mock,
        &EmptyProcessInfo,
        &Config::default(),
        false,
        true,
    )
    .expect("a new client at the old address must not stall close completion");

    assert_eq!(report.extras, 1);
    assert_eq!(
        mock.dispatches(),
        vec!["closewindow address:0xreused".to_string()]
    );
}

#[test]
fn test_replace_does_not_close_ambiguous_same_process_windows() {
    let first = make_reconcile_window("0xfirst", "kitty", "First", 1, 0, [0, 0], [800, 600]);
    let second =
        make_reconcile_window("0xsecond", "kitty", "Second", 1, 0, [900, 0], [800, 600]);
    let mock = MockHyprctl::new(vec![vec![first, second]]);

    let error = replace_session(
        &make_session(vec![]),
        &mock,
        &EmptyProcessInfo,
        &Config::default(),
        false,
        true,
    )
    .expect_err("replace must not close an ambiguous same-process window");

    assert!(matches!(
        error,
        RestoreError::WindowIdentityChanged { address } if address == "0xfirst"
    ));
    assert!(mock.dispatches().is_empty());
}

#[test]
fn test_marker_replace_leaves_windows_opened_after_safety_snapshot() {
    let mut captured =
        make_reconcile_window("0xcaptured", "kitty", "Captured", 1, 0, [0, 0], [800, 600]);
    captured.stable_id = Some("stable-captured".to_string());
    let mut safety_client = make_client(
        "kitty",
        1,
        [0, 0],
        [800, 600],
        false,
        0,
        "kitty",
        vec![],
        None,
    );
    safety_client.title = captured.title.clone();
    safety_client.initial_title = captured.initial_title.clone();
    safety_client.address = Some(captured.address.clone());
    safety_client.pid = Some(captured.pid);
    safety_client.stable_id = captured.stable_id.clone();

    let mut opened_late = make_reconcile_window(
        "0xopened-late",
        "kitty",
        "Opened after snapshot",
        1,
        0,
        [900, 0],
        [800, 600],
    );
    opened_late.stable_id = Some("stable-late".to_string());
    let mock = SelectiveClosingMockHyprctl::new(vec![captured, opened_late]);
    let safety_snapshot = make_session(vec![safety_client]);
    let record = RefCell::new(vec![ReplacePhase::Prepared]);

    let report = replace_desktop(
        &make_session(vec![]),
        &mock,
        &EmptyProcessInfo,
        &Config::default(),
        true,
        Some(&safety_snapshot),
        Some(&record),
        MARKED,
    )
    .expect("late windows should not make replacement fail");

    assert_eq!(report.extras, 1);
    assert_eq!(
        mock.dispatches(),
        vec!["closewindow address:0xcaptured".to_string()]
    );
}

#[test]
fn test_replace_validates_targets_before_closing_existing_windows() {
    let current = make_reconcile_window("0xold", "kitty", "kitty", 1, 0, [0, 0], [800, 600]);
    let mock = ClosingMockHyprctl::new(vec![current]);
    let target = make_client(
        "kitty",
        1,
        [0, 0],
        [800, 600],
        false,
        0,
        "missing_replace_binary_xyz",
        vec![],
        None,
    );
    let mut config = Config::default();
    config.apps.insert(
        "kitty".to_string(),
        AppConfig {
            binary: Some("missing_replace_binary_xyz".to_string()),
            capture_cwd: None,
            capture_last_command: None,
            hint_template: None,
            profile_workspaces: None,
            default_workspace: None,
        },
    );

    let error = replace_session(
        &make_session(vec![target]),
        &mock,
        &EmptyProcessInfo,
        &config,
        false,
        true,
    )
    .expect_err("missing target binary must abort before close");

    assert!(matches!(error, RestoreError::MissingLaunchBinary { .. }));
    assert!(mock.dispatches.borrow().is_empty());
}

#[test]
fn test_replace_marker_stays_in_closing_phase_when_first_dispatch_fails() {
    let record = RefCell::new(vec![ReplacePhase::Prepared]);
    let mut current =
        make_reconcile_window("0xold", "kitty", "kitty", 1, 0, [0, 0], [800, 600]);
    current.stable_id = Some("stable-old".to_string());
    let mut safety_snapshot = make_client(
        "kitty",
        1,
        [0, 0],
        [800, 600],
        false,
        0,
        "kitty",
        vec![],
        None,
    );
    safety_snapshot.address = Some(current.address.clone());
    safety_snapshot.pid = Some(current.pid);
    safety_snapshot.stable_id = current.stable_id.clone();
    let safety_snapshot = make_session(vec![safety_snapshot]);
    let error = replace_desktop(
        &make_session(vec![]),
        &FailingCloseHyprctl { client: current },
        &EmptyProcessInfo,
        &Config::default(),
        true,
        Some(&safety_snapshot),
        Some(&record),
        MARKED,
    )
    .expect_err("the failing close dispatch should abort replacement");

    assert!(matches!(error, RestoreError::Hyprctl(_)));
    assert_eq!(
        record.borrow().last().copied(),
        Some(ReplacePhase::Closing)
    );
}

#[test]
fn test_replace_rejects_a_session_with_no_restorable_targets() {
    let target = make_client(
        "waybar",
        1,
        [0, 0],
        [800, 600],
        false,
        0,
        "waybar",
        vec![],
        None,
    );
    let config = Config {
        general: GeneralConfig::default(),
        filters: FilterConfig {
            ignore_classes: vec!["waybar".to_string()],
        },
        apps: Table::new(),
    };

    let error = validate_replacement_targets(&make_session(vec![target]), &config)
        .expect_err("replace must not clear the desktop for an empty target set");
    assert!(matches!(error, RestoreError::NoRestorableTargets));
}

#[test]
fn test_restore_repairs_existing_window_on_the_wrong_workspace() {
    let mut target = make_client(
        "kitty",
        3,
        [10, 20],
        [800, 600],
        false,
        0,
        "kitty",
        vec![],
        None,
    );
    // Keep this test focused on workspace repair rather than monitor-name
    // resolution, which the mock intentionally does not provide.
    target.monitor.clear();
    let current = make_reconcile_window(
        "0xwrong-workspace",
        "kitty",
        "kitty",
        1,
        0,
        [10, 20],
        [800, 600],
    );
    let mock = MockHyprctl::new(vec![vec![current]]);

    let report = restore_session_with_process_info(
        &make_session(vec![target]),
        &mock,
        &EmptyProcessInfo,
        &Config::default(),
        false,
        true,
    )
    .unwrap();

    assert_eq!(report.restored, 1);
    assert_eq!(report.skipped, 0);
    assert!(mock
        .dispatches()
        .iter()
        .any(|dispatch| dispatch.contains("movetoworkspacesilent 3")));
}

#[test]
fn test_reconcile_refreshes_a_match_before_repairing_it() {
    let target = make_client(
        "kitty",
        1,
        [100, 100],
        [800, 600],
        false,
        0,
        "kitty",
        vec![],
        None,
    );
    let stale = make_reconcile_window("0xrefresh", "kitty", "kitty", 1, 0, [0, 0], [400, 300]);
    let current =
        make_reconcile_window("0xrefresh", "kitty", "kitty", 1, 0, [100, 100], [800, 600]);
    let mock = MockHyprctl::new(vec![vec![stale], vec![current]]);
    let launcher = RecordingLauncher::default();

    let report = reconcile_session_with_launcher(
        &make_session(vec![target]),
        &mock,
        &EmptyProcessInfo,
        &Config::default(),
        false,
        true,
        &launcher,
    )
    .unwrap();

    assert_eq!(report.unchanged, 1);
    assert_eq!(report.moved, 0);
    assert_eq!(report.failed, 0);
    assert!(mock.dispatches().is_empty());
}

#[test]
fn test_reconcile_refreshes_before_launch_and_uses_window_that_just_appeared() {
    let mut target = make_client(
        "kitty",
        1,
        [100, 100],
        [800, 600],
        false,
        0,
        "kitty",
        vec![],
        None,
    );
    target.title = "Just appeared".to_string();
    let appeared = make_reconcile_window(
        "0xappeared",
        "kitty",
        "Just appeared",
        1,
        0,
        [100, 100],
        [800, 600],
    );
    let mock = MockHyprctl::new(vec![vec![], vec![appeared]]);
    let launcher = RecordingLauncher::default();

    let report = reconcile_session_with_launcher(
        &make_session(vec![target]),
        &mock,
        &EmptyProcessInfo,
        &Config::default(),
        false,
        true,
        &launcher,
    )
    .unwrap();

    assert_eq!(report.unchanged, 1);
    assert_eq!(report.launched, 0);
    assert!(launcher.launches.borrow().is_empty());
    assert!(mock.dispatches().is_empty());
}

#[test]
fn test_reconcile_refresh_does_not_steal_a_later_target_window() {
    let mut target_a = make_client(
        "kitty",
        1,
        [10, 20],
        [800, 600],
        false,
        0,
        "true",
        vec!["--directory".to_string(), "/project".to_string()],
        None,
    );
    target_a.title = "Project".to_string();
    target_a.initial_title = "Project".to_string();
    target_a.address = Some("0xtarget-a".to_string());

    let mut target_b = target_a.clone();
    target_b.workspace = 2;
    target_b.at = [30, 40];
    target_b.size = [900, 700];
    target_b.address = Some("0xtarget-b".to_string());

    let window_a =
        make_reconcile_window("0xtarget-a", "kitty", "Project", 1, 0, [10, 20], [800, 600]);
    let window_b =
        make_reconcile_window("0xtarget-b", "kitty", "Project", 2, 0, [30, 40], [900, 700]);
    let mut launched =
        make_reconcile_window("0xlaunched-a", "kitty", "Project", 1, 0, [0, 0], [400, 300]);
    launched.pid = 2000;
    let mock = MockHyprctl::new(vec![
        vec![window_a, window_b.clone()],
        vec![window_b.clone()],
        vec![window_b.clone()],
        vec![window_b.clone(), launched.clone()],
    ]);
    let launcher = RecordingLauncher {
        pid: Some(2000),
        ..RecordingLauncher::default()
    };
    let config = Config {
        general: GeneralConfig::default(),
        filters: FilterConfig::default(),
        apps: table([(
            "kitty".to_string(),
            AppConfig {
                binary: Some("true".to_string()),
                capture_cwd: None,
                capture_last_command: None,
                hint_template: None,
                profile_workspaces: None,
                default_workspace: None,
            },
        )]),
    };
    let process_info = CwdProcessInfo {
        cwds: HashMap::from([(1000, String::from("/project"))]),
    };

    let report = reconcile_session_with_launcher(
        &make_session(vec![target_a, target_b]),
        &mock,
        &process_info,
        &config,
        false,
        true,
        &launcher,
    )
    .unwrap();

    assert_eq!(report.launched, 1);
    assert_eq!(report.failed, 0);
    assert_eq!(launcher.launches.borrow().len(), 1);
    assert_eq!(report.unchanged, 1);
    assert!(!mock
        .dispatches()
        .iter()
        .any(|dispatch| dispatch.contains("0xtarget-b")));
}

#[test]
fn test_reconcile_stops_safely_when_a_matched_window_disappears() {
    let target = make_client(
        "kitty",
        1,
        [100, 100],
        [800, 600],
        false,
        0,
        "kitty",
        vec![],
        None,
    );
    let existing = make_reconcile_window("0xgone", "kitty", "kitty", 1, 0, [0, 0], [400, 300]);
    let mock = MockHyprctl::new(vec![vec![existing], vec![]]);
    let launcher = RecordingLauncher::default();

    let report = reconcile_session_with_launcher(
        &make_session(vec![target]),
        &mock,
        &EmptyProcessInfo,
        &Config::default(),
        false,
        true,
        &launcher,
    )
    .unwrap();

    assert_eq!(report.failed, 1);
    assert_eq!(report.moved, 0);
    assert!(mock.dispatches().is_empty());
    assert!(launcher.launches.borrow().is_empty());
}

#[test]
fn test_reconcile_moves_only_a_target_in_the_wrong_place() {
    let target = make_client(
        "kitty",
        1,
        [10, 20],
        [800, 600],
        false,
        0,
        "kitty",
        vec![],
        None,
    );
    let mut target = target;
    target.title = "Project shell".to_string();

    let current = make_reconcile_window(
        "0xwrong-place",
        "kitty",
        "Project shell",
        1,
        0,
        [110, 220],
        [800, 600],
    );
    let mock = MockHyprctl::new(vec![vec![current]]);
    let launcher = RecordingLauncher::default();

    let report = reconcile_session_with_launcher(
        &make_session(vec![target]),
        &mock,
        &EmptyProcessInfo,
        &Config::default(),
        false,
        true,
        &launcher,
    )
    .unwrap();

    assert_eq!(report.unchanged, 0);
    assert_eq!(report.moved, 1);
    assert_eq!(report.launched, 0);
    assert!(launcher.launches.borrow().is_empty());
    let dispatches = mock.dispatches();
    assert_eq!(dispatches.len(), 1);
    assert!(dispatches[0].contains("movewindowpixel exact 10 20"));
}

#[test]
fn test_reconcile_launches_only_missing_targets_and_leaves_extras_alone() {
    let mut existing_target = make_client(
        "kitty",
        1,
        [10, 20],
        [800, 600],
        false,
        0,
        "kitty",
        vec![],
        None,
    );
    existing_target.title = "Existing shell".to_string();

    let mut missing_target = make_client(
        "kitty",
        2,
        [30, 40],
        [900, 700],
        false,
        0,
        "true",
        vec!["--new-window".to_string()],
        None,
    );
    missing_target.title = "Missing shell".to_string();

    let existing = make_reconcile_window(
        "0xexisting",
        "kitty",
        "Existing shell",
        1,
        0,
        [10, 20],
        [800, 600],
    );
    let extra = make_reconcile_window(
        "0xextra",
        "obsidian",
        "Unrelated notes",
        8,
        0,
        [500, 500],
        [1000, 800],
    );
    let launched = make_reconcile_window(
        "0xlaunched",
        "kitty",
        "Missing shell",
        1,
        0,
        [0, 0],
        [400, 300],
    );
    let mut launched = launched;
    launched.pid = 2000;
    let initial_state = vec![existing, extra];
    let mock = MockHyprctl::new(vec![
        initial_state.clone(),
        initial_state.clone(),
        initial_state.clone(),
        initial_state,
        vec![
            make_reconcile_window(
                "0xexisting",
                "kitty",
                "Existing shell",
                1,
                0,
                [10, 20],
                [800, 600],
            ),
            make_reconcile_window(
                "0xextra",
                "obsidian",
                "Unrelated notes",
                8,
                0,
                [500, 500],
                [1000, 800],
            ),
            launched,
        ],
    ]);
    let launcher = RecordingLauncher::default();
    let mut config = Config::default();
    config.apps.insert(
        "kitty".to_string(),
        AppConfig {
            binary: Some("true".to_string()),
            capture_cwd: None,
            capture_last_command: None,
            hint_template: None,
            profile_workspaces: None,
            default_workspace: None,
        },
    );

    let report = reconcile_session_with_launcher(
        &make_session(vec![existing_target, missing_target]),
        &mock,
        &EmptyProcessInfo,
        &config,
        false,
        true,
        &launcher,
    )
    .unwrap();

    assert_eq!(report.unchanged, 1);
    assert_eq!(report.launched, 1);
    assert_eq!(report.extras, 1);
    assert_eq!(report.failed, 0);
    assert_eq!(launcher.launches.borrow().len(), 1);
    let dispatches = mock.dispatches();
    assert!(dispatches
        .iter()
        .any(|dispatch| dispatch.contains("movetoworkspacesilent 2")));
    assert!(
        dispatches
            .iter()
            .any(|dispatch| dispatch.contains("movewindowpixel exact 30 40")),
        "dispatches: {dispatches:?}"
    );
    assert!(!dispatches
        .iter()
        .any(|dispatch| dispatch.contains("0xextra")));
}

#[test]
fn test_reconcile_matches_same_class_windows_one_to_one_by_saved_geometry() {
    let mut left = make_client(
        "com.mitchellh.ghostty",
        1,
        [10, 20],
        [800, 600],
        false,
        0,
        "ghostty",
        vec![],
        None,
    );
    left.title = "Ghostty".to_string();
    let mut right = left.clone();
    right.at = [1000, 20];
    right.title = "Ghostty".to_string();

    let current_right = make_reconcile_window(
        "0xright",
        "com.mitchellh.ghostty",
        "Ghostty",
        1,
        0,
        [1000, 20],
        [800, 600],
    );
    let current_left = make_reconcile_window(
        "0xleft",
        "com.mitchellh.ghostty",
        "Ghostty",
        1,
        0,
        [10, 20],
        [800, 600],
    );
    let plan = plan_reconciliation(
        &[left, right],
        &[
            ObservedClient::from_hypr_client(current_right, None, None),
            ObservedClient::from_hypr_client(current_left, None, None),
        ],
    );

    assert_eq!(plan.len(), 2);
    assert_eq!(plan[0].map(|pair| pair.current_index), Some(1));
    assert_eq!(plan[1].map(|pair| pair.current_index), Some(0));
}

#[test]
fn test_build_launch_command_maps_ghostty_window_class_to_ghostty_binary() {
    let client = make_client(
        "com.mitchellh.ghostty",
        1,
        [0, 0],
        [800, 600],
        false,
        0,
        "com.mitchellh.ghostty",
        vec![
            "--working-directory".to_string(),
            "/tmp/project".to_string(),
        ],
        None,
    );

    let command = build_launch_command(&client);

    assert_eq!(command[0], "ghostty");
    assert_eq!(command[1], "--working-directory");
    assert_eq!(command[2], "/tmp/project");
}

#[test]
fn test_default_brave_binary_is_trusted_without_app_config() {
    let client = make_client(
        "brave-browser",
        1,
        [0, 0],
        [800, 600],
        false,
        0,
        "brave",
        vec![],
        None,
    );

    assert!(launch_command_is_trusted(&client, &Config::default()));
}

#[test]
fn test_omarchy_webapp_launcher_is_trusted_for_matching_class() {
    let client = make_client(
        "chrome-chatgpt.com__-Default",
        1,
        [0, 0],
        [800, 600],
        false,
        0,
        "omarchy-launch-or-focus-webapp",
        vec![
            "chrome-chatgpt.com__-Default".to_string(),
            "https://chatgpt.com/".to_string(),
        ],
        None,
    );

    assert!(launch_command_is_trusted(&client, &Config::default()));
}

#[test]
fn test_standard_omarchy_webapp_launcher_is_trusted_for_matching_url() {
    let client = make_client(
        "chrome-chatgpt.com__-Default",
        1,
        [0, 0],
        [800, 600],
        false,
        0,
        "omarchy-launch-webapp",
        vec!["https://chatgpt.com/".to_string()],
        None,
    );

    assert!(launch_command_is_trusted(&client, &Config::default()));
}

#[test]
fn test_omarchy_webapp_focus_launcher_rejects_shell_text() {
    let client = make_client(
        "chrome-chatgpt.com__-Default",
        1,
        [0, 0],
        [800, 600],
        false,
        0,
        "omarchy-launch-or-focus",
        vec![
            "chrome-chatgpt.com__-Default".to_string(),
            "omarchy-launch-webapp https://chatgpt.com/; touch /tmp/proof".to_string(),
        ],
        None,
    );

    assert!(!launch_command_is_trusted(&client, &Config::default()));
}

#[test]
fn test_reconcile_moves_a_window_to_the_saved_workspace_when_monitor_is_wrong() {
    let mut target = make_client(
        "obsidian",
        3,
        [50, 100],
        [1200, 900],
        false,
        0,
        "obsidian",
        vec![],
        None,
    );
    target.monitor = "DP-1".to_string();
    let current = make_reconcile_window(
        "0xwrong-monitor",
        "obsidian",
        "obsidian",
        3,
        1,
        [50, 100],
        [1200, 900],
    );

    let commands = build_reconcile_dispatch_commands(&target, &current, Some("DP-2"));

    assert_eq!(commands.len(), 2);
    assert_eq!(commands[0], "focuswindow address:0xwrong-monitor");
    assert_eq!(commands[1], "movewindow mon:DP-1 silent");
}

#[test]
fn test_reconcile_applies_workspace_before_monitor_correction() {
    let mut target = make_client(
        "obsidian",
        2,
        [50, 100],
        [1200, 900],
        false,
        0,
        "obsidian",
        vec![],
        None,
    );
    target.monitor = "DP-1".to_string();
    let current = make_reconcile_window(
        "0xworkspace-and-monitor",
        "obsidian",
        "obsidian",
        3,
        1,
        [50, 100],
        [1200, 900],
    );

    let commands = build_reconcile_dispatch_commands(&target, &current, Some("DP-2"));

    assert_eq!(
        commands,
        vec![
            "movetoworkspacesilent 2,address:0xworkspace-and-monitor",
            "focuswindow address:0xworkspace-and-monitor",
            "movewindow mon:DP-1 silent",
        ]
    );
}

#[test]
fn test_reconcile_skips_stale_geometry_when_saved_monitor_is_missing() {
    let mut target = make_client(
        "obsidian",
        2,
        [50, 100],
        [1200, 900],
        false,
        0,
        "obsidian",
        vec![],
        None,
    );
    target.monitor = "DP-1".to_string();
    let current = make_reconcile_window(
        "0xmissing-monitor",
        "obsidian",
        "obsidian",
        2,
        1,
        [4000, 4000],
        [300, 200],
    );

    let commands = build_reconcile_dispatch_commands_with_geometry(
        &target,
        &current,
        Some("DP-2"),
        ReconcileGeometry::new(target.at, target.size, false),
    );

    assert!(commands.is_empty());
}

#[test]
fn test_reconcile_uses_named_workspace_and_restores_pinned_state() {
    let mut target = make_client(
        "kitty",
        -99,
        [10, 20],
        [800, 600],
        false,
        0,
        "kitty",
        vec![],
        None,
    );
    target.workspace_name = "special:magic".to_string();
    target.pinned = true;
    let mut current =
        make_reconcile_window("0xspecial", "kitty", "kitty", 1, 0, [10, 20], [800, 600]);
    current.workspace.name = "1".to_string();

    let commands = build_reconcile_dispatch_commands(&target, &current, Some("DP-1"));

    assert!(commands
        .iter()
        .any(|command| command == "movetoworkspacesilent special:magic,address:0xspecial"));
    assert_eq!(
        commands.last().map(String::as_str),
        Some("pin address:0xspecial")
    );
}

#[test]
fn test_reconcile_preserves_case_insensitive_named_workspace_prefixes() {
    let mut target = make_client(
        "kitty",
        1,
        [10, 20],
        [800, 600],
        false,
        0,
        "kitty",
        vec![],
        None,
    );
    target.workspace_name = "Name:Writing Desk".to_string();
    let mut current =
        make_reconcile_window("0xnamed", "kitty", "kitty", 99, 0, [10, 20], [800, 600]);
    current.workspace.name = "writing desk".to_string();

    let commands = build_reconcile_dispatch_commands(&target, &current, Some("DP-1"));

    assert!(!commands
        .iter()
        .any(|command| command.starts_with("movetoworkspacesilent")));
}

#[test]
fn test_reconcile_quotes_backslashes_in_named_monitor_tokens() {
    let mut target = make_client(
        "kitty",
        1,
        [10, 20],
        [800, 600],
        false,
        0,
        "kitty",
        vec![],
        None,
    );
    target.monitor = "Desk \\ A".to_string();
    let current =
        make_reconcile_window("0xmonitor", "kitty", "kitty", 1, 0, [10, 20], [800, 600]);

    let commands = build_reconcile_dispatch_commands(&target, &current, Some("DP-1"));

    assert_eq!(
        commands,
        vec![
            "focuswindow address:0xmonitor",
            "movewindow 'mon:Desk \\\\ A' silent"
        ]
    );
}

#[test]
fn test_reconcile_unpins_before_moving_when_saved_state_is_not_pinned() {
    let target = make_client(
        "kitty",
        1,
        [10, 20],
        [800, 600],
        false,
        0,
        "kitty",
        vec![],
        None,
    );
    let mut current =
        make_reconcile_window("0xpinned", "kitty", "kitty", 1, 0, [10, 20], [800, 600]);
    current.pinned = true;

    let commands = build_reconcile_dispatch_commands(&target, &current, Some("DP-1"));

    assert_eq!(commands, vec!["pin address:0xpinned"]);
}

#[test]
fn test_reconcile_exits_fullscreen_before_restoring_saved_geometry() {
    let target = make_client(
        "kitty",
        1,
        [10, 20],
        [800, 600],
        false,
        0,
        "kitty",
        vec![],
        None,
    );
    let mut current =
        make_reconcile_window("0xfullscreen", "kitty", "kitty", 1, 0, [0, 0], [1920, 1080]);
    current.fullscreen = 2;

    let commands = build_reconcile_dispatch_commands(&target, &current, Some("DP-1"));

    assert_eq!(commands[0], "focuswindow address:0xfullscreen");
    assert_eq!(commands[1], "fullscreenstate 0 0");
    assert!(commands
        .iter()
        .any(|command| command.contains("resizewindowpixel exact 800 600")));
    assert!(commands
        .iter()
        .any(|command| command.contains("movewindowpixel exact 10 20")));
}

#[test]
fn test_reconcile_matches_changed_runtime_class_by_initial_class() {
    let target = make_client(
        "com.mitchellh.ghostty",
        1,
        [10, 20],
        [800, 600],
        false,
        0,
        "ghostty",
        vec![],
        None,
    );
    let mut current =
        make_reconcile_window("0xghostty", "ghostty", "shell", 1, 0, [10, 20], [800, 600]);
    current.initial_class = "com.mitchellh.ghostty".to_string();
    current.initial_title = "Ghostty".to_string();

    let plan = plan_reconciliation(
        &[target],
        &[ObservedClient::from_hypr_client(
            current,
            Some("DP-1".to_string()),
            None,
        )],
    );

    assert_eq!(plan[0].map(|pair| pair.kind), Some(MatchKind::AppIdentity));
}

#[test]
fn test_reconcile_uses_profile_identity_when_available() {
    let mut target = make_client(
        "brave-browser",
        1,
        [0, 0],
        [1280, 800],
        false,
        0,
        "brave",
        vec![],
        None,
    );
    target.profile_directory = Some("Profile 1".to_string());

    let client = make_reconcile_window(
        "0xprofile",
        "brave-browser",
        "Brave",
        1,
        0,
        [0, 0],
        [1280, 800],
    );
    let observed = ObservedClient::with_profile_directory(
        client.clone(),
        None,
        None,
        Some("Profile 1".to_string()),
    );
    assert!(plan_reconciliation(&[target.clone()], &[observed])[0].is_some());

    let wrong_profile =
        ObservedClient::with_profile_directory(client, None, None, Some("Default".to_string()));
    assert!(plan_reconciliation(&[target], &[wrong_profile])[0].is_none());
}

#[test]
fn test_reconcile_routes_brave_initial_class_through_profile_targets() {
    let mut brave_window = make_client(
        "browser-wrapper",
        1,
        [0, 0],
        [1280, 800],
        false,
        0,
        "brave",
        vec![],
        None,
    );
    brave_window.initial_class = "BRAVE-BROWSER".to_string();

    let session = Session {
        name: "test".to_string(),
        created_at: 0,
        hyprland_version: "0.54.1".to_string(),
        monitors: vec![],
        clients: vec![brave_window],
        brave_profiles: vec![BraveProfile {
            directory: "Default".to_string(),
            name: "Default".to_string(),
        }],
    };
    let mut apps = Table::new();
    apps.insert(
        "brave-browser".to_string(),
        AppConfig {
            binary: Some("brave".to_string()),
            capture_cwd: None,
            capture_last_command: None,
            hint_template: None,
            profile_workspaces: None,
            default_workspace: Some(1),
        },
    );
    let config = Config {
        general: GeneralConfig::default(),
        filters: FilterConfig::default(),
        apps,
    };

    let targets = build_reconcile_targets(&session, &config);
    assert_eq!(targets.len(), 1);
    assert!(targets[0].label.starts_with("brave profile"));
    assert_eq!(
        targets[0].client.profile_directory.as_deref(),
        Some("Default")
    );
}

#[test]
fn test_reconcile_leaves_extra_same_app_windows_untouched() {
    let target = make_client(
        "kitty",
        1,
        [10, 20],
        [800, 600],
        false,
        0,
        "kitty",
        vec![],
        None,
    );
    let matching =
        make_reconcile_window("0xmatching", "kitty", "kitty", 1, 0, [10, 20], [800, 600]);
    let extra = make_reconcile_window(
        "0xextra-kitty",
        "kitty",
        "kitty",
        8,
        0,
        [1000, 20],
        [800, 600],
    );
    let mock = MockHyprctl::new(vec![vec![matching, extra]]);
    let launcher = RecordingLauncher::default();

    let report = reconcile_session_with_launcher(
        &make_session(vec![target]),
        &mock,
        &EmptyProcessInfo,
        &Config::default(),
        false,
        true,
        &launcher,
    )
    .unwrap();

    assert_eq!(report.unchanged, 1);
    assert_eq!(report.moved, 0);
    assert_eq!(report.launched, 0);
    assert_eq!(report.extras, 1);
    assert!(mock.dispatches().is_empty());
    assert!(launcher.launches.borrow().is_empty());
    assert!(report
        .details
        .iter()
        .any(|detail| detail.contains("0xextra-kitty") && detail.contains("left untouched")));
}

#[test]
fn test_reconcile_observes_terminal_shell_cwd_before_emulator_cwd() {
    let client =
        make_reconcile_window("0xterminal", "kitty", "kitty", 1, 0, [0, 0], [800, 600]);

    assert_eq!(
        observe_cwd(&client, &ChildCwdProcessInfo),
        Some(String::from("/shell-current-directory"))
    );
}

#[test]
fn exact_recovery_closes_windows_without_checking_targets() {
    let current = make_reconcile_window("0xold", "kitty", "kitty", 1, 0, [0, 0], [800, 600]);
    let mock = ClosingMockHyprctl::new(vec![current]);
    let target = make_client(
        "kitty",
        1,
        [0, 0],
        [800, 600],
        false,
        0,
        "missing_recovery_binary",
        vec![],
        None,
    );
    let report = recover_session(
        &make_session(vec![target]),
        &mock,
        &EmptyProcessInfo,
        &Config::default(),
        false,
        true,
    )
    .expect("recovery goes on");
    assert_eq!(report.launched, 0);
    assert_eq!(mock.dispatches.borrow().as_slice(), ["closewindow address:0xold".to_string()]);
}
