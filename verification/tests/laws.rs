use hyprloom::capture::build_session_client;
use hyprloom::config::{is_ignored_class, Config};
use hyprloom::hyprctl::{
    build_batch_command, parse_dispatch_args, HyprClient, HyprMonitor, HyprWorkspace,
    HyprctlClient, HyprctlError,
};
use hyprloom::lists::{Table, TextSet};
use hyprloom::matching::{assign, MatchingStrategy};
use hyprloom::placement::{
    adapt_client_geometry, build_reconcile_dispatch_commands, quote_dispatch_token,
    workspace_selector,
};
use hyprloom::process::{
    select_terminal_child, select_terminal_process, ChildProcess, ProcessError,
    ProcessInfoProvider,
};
use hyprloom::restore::existing::{find_existing_restore_match, protect_windows_created_after};
use hyprloom::restore::identity::{match_score, titles_similar, MatchKind, ObservedClient};
use hyprloom::restore::launch::launch_command_is_trusted;
use hyprloom::restore::launched::{
    build_launch_placement, choose_launched_window, examine_candidate,
};
use hyprloom::restore::observe::{repair_step, ProcessState, RepairStep};
use hyprloom::restore::planning::{plan_reconciliation, plan_reconciliation_with_strategy};
use hyprloom::restore::reconcile::{PassAction, PassOptions, ReconcilePass};
use hyprloom::restore::replace::{wait_step, WaitStep};
use hyprloom::restore::replacing::{
    replace_step, ReplaceAction, ReplaceEvent, ReplaceOptions, ReplaceState,
};
use hyprloom::restore::report::{LaunchedProcess, ReconcileReport, RestoreError};
use hyprloom::restore::restoring::Restoring;
use hyprloom::restore::targets::{brave_profile_targets, build_reconcile_targets};
use hyprloom::restore::windows::{observed_windows_are_same, ConsumedWindows};
use hyprloom::session::{BraveProfile, LaunchInfo, Monitor, Session, SessionClient};
use hyprloom::webapps::find_webapp_launch_info_in_entries;
use std::collections::HashMap;

fn monitor() -> HyprMonitor {
    HyprMonitor {
        id: 0,
        name: "DP-1".to_string(),
        width: 1920,
        height: 1080,
        transform: 0,
        x: Some(0),
        y: Some(0),
    }
}

fn saved_monitor() -> Monitor {
    Monitor {
        name: "DP-1".to_string(),
        width: 1920,
        height: 1080,
        transform: 0,
        x: Some(0),
        y: Some(0),
    }
}

fn window(address: &str, class: &str, stable_id: Option<&str>) -> HyprClient {
    HyprClient {
        address: address.to_string(),
        class: class.to_string(),
        title: format!("{class} {address}"),
        stable_id: stable_id.map(str::to_string),
        initial_class: class.to_string(),
        initial_title: class.to_string(),
        workspace: HyprWorkspace {
            id: 3,
            name: "3".to_string(),
        },
        monitor: 0,
        at: [100, 50],
        size: [800, 600],
        floating: true,
        fullscreen: 0,
        pinned: false,
        focus_history_id: 0,
        pid: 1000,
    }
}

fn launch_info(command: &str) -> LaunchInfo {
    LaunchInfo {
        command: command.to_string(),
        args: Vec::new(),
        hint: None,
    }
}

fn captured(client: &HyprClient) -> SessionClient {
    build_session_client(client, &[monitor()], None, Some(7), launch_info(&client.class))
}

fn observed(client: HyprClient) -> ObservedClient {
    let mut seen = ObservedClient::from_hypr_client(client, Some("DP-1".to_string()), None);
    seen.process_start_time = Some(7);
    seen
}

fn session(clients: Vec<SessionClient>) -> Session {
    Session {
        name: "test".to_string(),
        created_at: 0,
        hyprland_version: "0.54.1".to_string(),
        monitors: vec![saved_monitor()],
        clients,
        brave_profiles: Vec::new(),
    }
}

fn begin<'a>(
    saved: &Session,
    seen: Vec<ObservedClient>,
    protected: TextSet,
    config: &'a Config,
    dry_run: bool,
) -> ReconcilePass<'a> {
    let targets = build_reconcile_targets(saved, config, &[]);
    ReconcilePass::begin(
        targets,
        &saved.monitors,
        &[monitor()],
        seen,
        protected,
        None,
        config,
        PassOptions {
            dry_run,
            verbose: true,
            allow_ambiguous_identity: true,
        },
        MatchingStrategy::Global,
    )
    .unwrap()
}

// ── Capturing ──

#[test]
fn captured_windows_are_in_place_and_match_themselves() {
    let client = window("0x1", "kitty", Some("18000001"));
    let saved = captured(&client);
    assert!(build_reconcile_dispatch_commands(&saved, &client, Some("DP-1")).is_empty());
    let (score, kind) = match_score(&saved, &observed(client)).unwrap();
    assert_eq!(kind, MatchKind::ExactIdentity);
    assert!(score > 6000);
}

#[test]
fn captured_geometry_is_kept_on_unchanged_monitors() {
    let saved = captured(&window("0x1", "kitty", Some("1")));
    let adapted = adapt_client_geometry(&saved, &[saved_monitor()], Some(&monitor()));
    assert_eq!(adapted.at, [100, 50]);
    assert_eq!(adapted.size, [800, 600]);
}

#[test]
fn adapted_windows_lie_on_their_monitor() {
    let mut saved = captured(&window("0x1", "kitty", Some("1")));
    saved.at = [1500, 900];
    let mut smaller = monitor();
    smaller.width = 1280;
    smaller.height = 720;
    smaller.x = Some(-1280);
    smaller.y = Some(200);
    let adapted = adapt_client_geometry(&saved, &[saved_monitor()], Some(&smaller));
    assert!(adapted.at[0] >= -1280 && adapted.at[0] + adapted.size[0] <= 0);
    assert!(adapted.at[1] >= 200 && adapted.at[1] + adapted.size[1] <= 920);
    assert_eq!(adapted.size, [533, 400]);
    assert_eq!(adapted.title, saved.title);
    assert_eq!(adapted.workspace, saved.workspace);
}

#[test]
fn half_turns_are_undone() {
    let mut saved = captured(&window("0x1", "kitty", Some("1")));
    saved.at = [10, 20];
    let mut turned = saved_monitor();
    turned.transform = 2;
    let mut current = monitor();
    current.transform = 2;
    let adapted = adapt_client_geometry(&saved, &[turned], Some(&current));
    assert_eq!((adapted.at, adapted.size), (saved.at, saved.size));
}

#[test]
fn quarter_turns_are_undone() {
    for transform in [1, 3] {
        let mut turned = saved_monitor();
        turned.transform = transform;
        let mut current = monitor();
        current.transform = transform;
        for (at, size) in [([730, 100], [300, 400]), ([0, 20], [1080, 1500])] {
            let mut saved = captured(&window("0x1", "kitty", Some("1")));
            saved.at = at;
            saved.size = size;
            let adapted = adapt_client_geometry(&saved, &[turned.clone()], Some(&current));
            assert_eq!((adapted.at, adapted.size), (at, size), "transform {transform}");
        }
    }
}

#[test]
fn other_rotations_are_not_followed() {
    let mut turned = saved_monitor();
    turned.transform = 5;
    let mut current = monitor();
    current.transform = 5;
    for (size, expected) in [([1500, 400], [1500, 400]), ([300, 1500], [300, 1080])] {
        let mut saved = captured(&window("0x1", "kitty", Some("1")));
        saved.at = [0, 20];
        saved.size = size;
        let adapted = adapt_client_geometry(&saved, &[turned.clone()], Some(&current));
        assert_eq!((adapted.at, adapted.size), ([0, 20], expected));
    }
}

// ── Commands ──

#[test]
fn quoted_names_read_as_one_argument() {
    for name in ["Writing Desk", "a'b", "back\\slash", "semi;colon", "plain", "\"x\""] {
        assert_eq!(parse_dispatch_args(&quote_dispatch_token(name)).unwrap(), vec![name]);
    }
}

#[test]
fn placing_commands_are_valid_concern_the_window_and_close_nothing() {
    let client = window("0xabc", "kitty", Some("1"));
    let mut target = captured(&client);
    target.workspace = 5;
    target.workspace_name = "name:Writing Desk".to_string();
    target.monitor = "DP 2".to_string();
    target.at = [1, 2];
    target.size = [3, 4];
    target.floating = false;
    target.pinned = true;
    let commands = build_reconcile_dispatch_commands(&target, &client, Some("DP-1"));
    assert!(commands.len() >= 6);
    for (i, command) in commands.iter().enumerate() {
        assert!(parse_dispatch_args(command).is_ok(), "{command}");
        assert!(!command.starts_with("closewindow"), "{command}");
        assert!(
            command.ends_with("address:0xabc") || commands[i - 1] == "focuswindow address:0xabc",
            "{command}"
        );
    }
    assert!(build_batch_command(&commands).is_ok());
    for command in build_launch_placement(&target, &client, true) {
        assert!(!command.starts_with("closewindow"), "{command}");
    }
    assert_eq!(workspace_selector(&target), "name:Writing Desk");
}

// ── Passes ──

/// Runs a pass over windows that do not change; everything but reading them
/// fails the test.
fn run_quietly(pass: ReconcilePass<'_>, windows: &[HyprClient]) -> (usize, usize, usize) {
    run_over(pass, || windows.iter().cloned().map(observed).collect())
}

fn run_over(
    mut pass: ReconcilePass<'_>,
    seen: impl Fn() -> Vec<ObservedClient>,
) -> (usize, usize, usize) {
    let mut action = PassAction::Continue;
    loop {
        action = match action {
            PassAction::Continue => pass.next().unwrap(),
            PassAction::Observe => pass.observed(seen()).unwrap(),
            PassAction::Finish => {
                let report = pass.finish();
                return (report.unchanged, report.extras, report.matched);
            }
            other => panic!("a settled desktop is touched: {other:?}"),
        };
    }
}

#[test]
fn settled_desktops_are_left_alone() {
    let windows = vec![
        window("0x1", "kitty", Some("1")),
        window("0x2", "obsidian", Some("2")),
        window("0x3", "firefox", Some("3")),
    ];
    let saved = session(windows[..2].iter().map(captured).collect());
    let config = Config::default();
    let seen = || windows.iter().cloned().map(observed).collect::<Vec<_>>();
    let pass = begin(&saved, seen(), TextSet::new(), &config, false);
    assert_eq!(run_quietly(pass, &windows), (2, 1, 2));
    let again = begin(&saved, seen(), TextSet::new(), &config, false);
    assert_eq!(run_quietly(again, &windows), (2, 1, 2));
}

#[test]
fn windows_that_look_alike_are_left_alone_where_they_are_in_place() {
    let alike = |address: &str, stable_id: Option<&str>, at: [i32; 2]| {
        let mut client = window(address, "kitty", stable_id);
        client.title = "Project".to_string();
        client.initial_title = "Project".to_string();
        client.at = at;
        client
    };
    let seen = |windows: &[HyprClient]| {
        let look = |client: HyprClient| {
            let mut seen = observed(client);
            seen.cwd = Some("/project".to_string());
            seen
        };
        windows.iter().cloned().map(look).collect::<Vec<_>>()
    };
    let windows = vec![
        alike("0x1", Some("1"), [100, 50]),
        alike("0x2", Some("2"), [100, 700]),
    ];
    let mut targets: Vec<SessionClient> = windows.iter().map(captured).collect();
    for target in &mut targets {
        target.size = [800, 300];
        target.launch.args = vec!["--directory".to_string(), "/project".to_string()];
    }
    let windows: Vec<HyprClient> = windows
        .into_iter()
        .map(|mut client| {
            client.size = [800, 300];
            client
        })
        .collect();
    let saved = session(targets);
    let config = Config::default();
    let pass = begin(&saved, seen(&windows), TextSet::new(), &config, false);
    assert_eq!(run_over(pass, || seen(&windows)), (2, 0, 2));
}

#[test]
fn protected_windows_are_not_given_away() {
    let client = window("0x1", "kitty", Some("1"));
    let mut saved = captured(&client);
    saved.at = [0, 0];
    let saved = session(vec![saved]);
    let config = Config::default();
    let mut protected = TextSet::new();
    protected.insert("0x1".to_string());
    let mut pass = begin(&saved, vec![observed(client.clone())], protected, &config, false);
    assert!(matches!(pass.next().unwrap(), PassAction::Observe));
    // The window may not be moved, so another one is asked for.
    let asked = pass.observed(vec![observed(client)]).unwrap();
    assert!(matches!(asked, PassAction::Resolve { .. }), "{asked:?}");
}

#[test]
fn dry_runs_touch_nothing_and_count_every_target() {
    let client = window("0x1", "kitty", Some("1"));
    let mut moved = captured(&client);
    moved.at = [0, 0];
    let mut missing = captured(&window("0x9", "obsidian", Some("9")));
    missing.launch = launch_info("obsidian");
    let mut unsafe_launch = captured(&window("0xa", "foot", Some("10")));
    unsafe_launch.launch = launch_info("rm");
    let saved = session(vec![moved, missing, unsafe_launch]);
    let config = Config::default();
    let mut pass = begin(&saved, vec![observed(client)], TextSet::new(), &config, true);
    let mut action = PassAction::Continue;
    let report = loop {
        action = match action {
            PassAction::Continue => pass.next().unwrap(),
            PassAction::Resolve { command } => pass.resolved(Some(format!("/usr/bin/{command}"))),
            PassAction::Finish => break pass.finish(),
            other => panic!("a dry run asks for {other:?}"),
        };
    };
    assert_eq!((report.moved, report.launched, report.failed), (1, 1, 1));
    assert_eq!(
        report.unchanged + report.moved + report.launched + report.skipped + report.failed,
        3
    );
}

#[test]
fn failed_launches_protect_the_windows_that_came_up() {
    let old = observed(window("0x1", "kitty", Some("1")));
    let new = observed(window("0x2", "kitty", Some("2")));
    let mut protected = TextSet::new();
    protect_windows_created_after(&[old.clone()], &[old, new], &mut protected);
    assert!(protected.contains("0x2"));
    assert!(!protected.contains("0x1"));
}

#[test]
fn plans_are_one_to_one() {
    let windows = [window("0x1", "kitty", Some("1")), window("0x2", "kitty", Some("2"))];
    let targets: Vec<SessionClient> = windows.iter().map(captured).collect();
    let seen: Vec<ObservedClient> = windows.iter().cloned().map(observed).collect();
    for strategy in [MatchingStrategy::Global, MatchingStrategy::Greedy] {
        let plan = plan_reconciliation_with_strategy(&targets, &seen, strategy);
        assert_eq!(plan[0].unwrap().current_index, 0);
        assert_eq!(plan[1].unwrap().current_index, 1);
        assert!(plan[0].unwrap().score > 0);
    }
    assert_eq!(plan_reconciliation(&targets, &seen[..1]).iter().flatten().count(), 1);
}

#[test]
fn the_best_free_window_is_taken() {
    let mut far = window("0x1", "obsidian", None);
    far.at = [900, 900];
    let near = window("0x2", "obsidian", None);
    let mut target = captured(&near);
    target.address = None;
    target.pid = None;
    target.process_start_time = None;
    let seen: Vec<ObservedClient> = [far, near]
        .into_iter()
        .map(|client| ObservedClient::from_hypr_client(client, None, None))
        .collect();
    let none = ConsumedWindows::default();
    let config = Config::default();
    let best = find_existing_restore_match(&target, &seen, &none, &config, true, &TextSet::new());
    assert_eq!(best, Some(1));
    let mut taken = ConsumedWindows::default();
    taken.insert(&seen[1]);
    let other = find_existing_restore_match(&target, &seen, &taken, &config, true, &TextSet::new());
    assert_eq!(other, Some(0));
}

#[test]
fn consumed_windows_stay_consumed() {
    let first = observed(window("0x1", "kitty", Some("1")));
    let second = observed(window("0x2", "kitty", Some("2")));
    let mut consumed = ConsumedWindows::default();
    consumed.insert(&first);
    consumed.insert(&first);
    assert_eq!(consumed.len(), 1);
    consumed.insert(&second);
    assert!(consumed.contains(&first) && consumed.contains(&second));
    let unnamed = observed(window("0x1", "kitty", None));
    assert!(!observed_windows_are_same(&first, &unnamed));
}

#[test]
fn windows_without_a_stable_id_are_consumed_once() {
    let first = observed(window("0x1", "kitty", None));
    let mut consumed = ConsumedWindows::default();
    consumed.insert(&first);
    assert!(consumed.contains(&first));
    let mut unread = observed(window("0x1", "kitty", None));
    unread.process_start_time = None;
    assert!(consumed.contains(&unread));
    let mut restarted = observed(window("0x1", "kitty", None));
    restarted.process_start_time = Some(8);
    assert!(!consumed.contains(&restarted));
    assert!(!consumed.contains(&observed(window("0x2", "kitty", None))));
    consumed.insert(&unread);
    assert_eq!(consumed.len(), 1);
}

#[test]
fn commands_are_given_out_only_for_unchanged_windows() {
    let client = window("0x1", "kitty", Some("1"));
    let expected = observed(client.clone());
    let commands = vec!["focuswindow address:0x1".to_string()];
    match repair_step(&expected, &[client.clone()], running(Some(7)), &commands) {
        RepairStep::Send(batch) => assert_eq!(batch, commands),
        other => panic!("unexpected {other:?}"),
    }
    let changed = window("0x1", "kitty", Some("2"));
    assert!(matches!(
        repair_step(&expected, &[changed], running(Some(7)), &commands),
        RepairStep::Fail(RestoreError::WindowIdentityChanged { .. })
    ));
    assert!(matches!(
        repair_step(&expected, &[], running(Some(7)), &commands),
        RepairStep::Fail(RestoreError::WindowDisappeared { .. })
    ));
}

#[test]
fn ties_are_broken_by_the_scores_alone() {
    let scores = vec![vec![5, 5, 5], vec![5, 5, 5]];
    let plan = assign(&scores, MatchingStrategy::Global);
    assert_eq!(plan, vec![Some(0), Some(1)]);
    assert_eq!(plan, assign(&scores, MatchingStrategy::Global));
    let crossed = vec![vec![4, 4], vec![4, 4], vec![4, 4]];
    assert_eq!(assign(&crossed, MatchingStrategy::Global), vec![Some(0), Some(1), None]);
}

#[test]
fn plans_are_deterministic_and_best() {
    let targets: Vec<SessionClient> = ["0x1", "0x2"]
        .into_iter()
        .map(|address| {
            let mut target = captured(&window(address, "obsidian", None));
            target.address = None;
            target.pid = None;
            target.process_start_time = None;
            target
        })
        .collect();
    let seen: Vec<ObservedClient> = ["0x7", "0x2", "0x1"]
        .into_iter()
        .map(|address| {
            ObservedClient::from_hypr_client(window(address, "obsidian", None), None, None)
        })
        .collect();
    let plan = plan_reconciliation(&targets, &seen);
    assert_eq!(plan, plan_reconciliation(&targets, &seen));
    let total: i32 = plan.iter().flatten().map(|pair| pair.score).sum();
    let alone = |t: usize, c: usize| {
        plan_reconciliation(&targets[t..=t], &seen[c..=c])[0].map_or(0, |pair| pair.score)
    };
    for first in 0..3 {
        for second in (0..3).filter(|second| *second != first) {
            assert!(alone(0, first) + alone(1, second) <= total);
        }
    }
    assert_eq!(total, alone(0, 2) + alone(1, 1));
}

#[test]
fn greedy_plans_start_with_the_best_pair() {
    let scores = vec![vec![3, 9, 9], vec![9, 1, 2]];
    assert_eq!(assign(&scores, MatchingStrategy::Greedy), vec![Some(1), Some(0)]);
}

#[test]
fn titles_are_compared_whatever_their_case() {
    assert!(titles_similar("RÉSUMÉ — Editor", "résumé — editor"));
    assert!(!titles_similar("RÉSUMÉ — Editor", "résume — editor"));
    assert!(!titles_similar("", ""));
}

// ── Restoring ──

#[test]
fn dry_restores_count_every_item() {
    let ignored = captured(&window("0x5", "waybar", Some("5")));
    let missing = captured(&window("0x9", "obsidian", Some("9")));
    let saved = session(vec![ignored, missing]);
    let config = Config::default();
    let mut restoring =
        Restoring::begin(&saved, &[monitor()], &config, &[], true, true).unwrap();
    let mut action = PassAction::Continue;
    let report = loop {
        action = match action {
            PassAction::Continue => restoring.next(),
            PassAction::Observe => restoring.observed(Vec::new()).unwrap(),
            PassAction::Resolve { .. } => restoring.resolved(None),
            PassAction::Finish => break restoring.finish(),
            other => panic!("a dry run asks for {other:?}"),
        };
    };
    assert_eq!((report.restored, report.skipped, report.failed), (0, 1, 1));
}

#[test]
fn restored_windows_are_given_once() {
    let client = window("0x1", "obsidian", None);
    let mut target = captured(&client);
    target.address = None;
    target.pid = None;
    target.process_start_time = None;
    target.at = [0, 0];
    let saved = session(vec![target.clone(), target]);
    let config = Config::default();
    let mut restoring =
        Restoring::begin(&saved, &[monitor()], &config, &[], false, true).unwrap();
    let seen = || vec![ObservedClient::from_hypr_client(client.clone(), None, None)];
    assert!(matches!(restoring.next(), PassAction::Observe));
    assert!(matches!(restoring.observed(seen()).unwrap(), PassAction::Repair { .. }));
    restoring.repaired(None);
    assert!(matches!(restoring.next(), PassAction::Observe));
    // The second target finds its only window taken.
    assert!(matches!(restoring.observed(seen()).unwrap(), PassAction::Resolve { .. }));
}

#[test]
fn only_trusted_commands_are_launched() {
    let config = Config::default();
    let mut target = captured(&window("0x1", "kitty", Some("1")));
    assert!(launch_command_is_trusted(&target, &config));
    target.launch = launch_info("rm");
    assert!(!launch_command_is_trusted(&target, &config));
    let mut webapp = captured(&window("0x2", "chrome-example.com__-Default", Some("2")));
    webapp.launch = launch_info("omarchy-launch-webapp");
    webapp.launch.args = vec!["https://example.com/".to_string()];
    assert!(launch_command_is_trusted(&webapp, &config));
    webapp.launch.args = vec!["https://example.com/;reboot".to_string()];
    assert!(!launch_command_is_trusted(&webapp, &config));
}

// ── Launches ──

struct Tree(HashMap<u32, Vec<ChildProcess>>);

impl ProcessInfoProvider for Tree {
    fn get_cwd(&self, pid: u32) -> Result<String, ProcessError> {
        Err(ProcessError::NotFound(pid))
    }

    fn get_children(&self, pid: u32) -> Result<Vec<ChildProcess>, ProcessError> {
        Ok(self.0.get(&pid).cloned().unwrap_or_default())
    }
}

fn child(pid: u32, cmdline: &str) -> ChildProcess {
    ChildProcess {
        pid,
        cwd: "/work".to_string(),
        cmdline: cmdline.to_string(),
    }
}

#[test]
fn chosen_windows_belong_to_the_launch() {
    let launched = LaunchedProcess {
        pid: Some(500),
        start_time: None,
    };
    let tree = Tree(HashMap::from([(500, vec![child(1000, "kitty")])]));
    let mut other = window("0x2", "kitty", Some("2"));
    other.pid = 77;
    let candidates = vec![
        examine_candidate(other.clone(), &launched, &tree),
        examine_candidate(window("0x1", "kitty", Some("1")), &launched, &tree),
    ];
    let target = captured(&window("0x9", "kitty", Some("9")));
    let chosen = choose_launched_window(&target, &candidates, launched, false).unwrap();
    assert_eq!(chosen.address, "0x1");
    let strangers = vec![examine_candidate(other, &launched, &tree)];
    let error = choose_launched_window(&target, &strangers, launched, false).unwrap_err();
    assert!(matches!(error, RestoreError::UncorrelatedWindow { .. }));
}

#[test]
fn terminals_with_one_shell_are_identified() {
    let tree = Tree(HashMap::from([(1, vec![child(9, "tmux"), child(4, "zsh")])]));
    assert_eq!(select_terminal_process(&tree, 1).unwrap().pid, 4);
    let children = [child(9, "vim"), child(5, "bash"), child(4, "zsh")];
    assert_eq!(select_terminal_child(&children).unwrap().pid, 4);
}

// ── Replacing ──

fn running(start_time: Option<u64>) -> ProcessState {
    ProcessState {
        reliable: true,
        start_time,
    }
}

fn options(validate_targets: bool, marked: bool) -> ReplaceOptions {
    ReplaceOptions {
        dry_run: false,
        validate_targets,
        marked,
    }
}

fn found() -> ReplaceEvent {
    ReplaceEvent::Found {
        entries: Vec::new(),
        binaries: Table::new(),
    }
}

#[test]
fn only_windows_of_the_safety_snapshot_are_closed() {
    let known = window("0x1", "kitty", Some("1"));
    let late = window("0x2", "kitty", Some("2"));
    let clients = vec![known.clone(), late.clone()];
    let nothing = session(Vec::new());
    let safety = session(vec![captured(&known)]);
    let config = Config::default();
    let mut state = ReplaceState::new(&nothing, &config, Some(&safety), options(true, true));
    let mut event = ReplaceEvent::Begin;
    let mut closed = Vec::new();
    let mut recorded = Vec::new();
    let mut watched = 0;
    let protected = loop {
        let (next, action) = replace_step(state, event);
        state = next;
        event = match action {
            ReplaceAction::Validate => found(),
            ReplaceAction::List if closed.is_empty() => ReplaceEvent::Listed(clients.clone()),
            ReplaceAction::List => {
                let newcomer = window("0x3", "foot", Some("3"));
                ReplaceEvent::Listed(vec![late.clone(), newcomer])
            }
            ReplaceAction::Recheck { .. } => ReplaceEvent::Rechecked {
                start_time: Some(7),
                clients: clients.clone(),
                process: running(Some(7)),
            },
            ReplaceAction::Close { command, mark } => {
                recorded.push(mark.map(|mark| mark.address));
                closed.push(command);
                ReplaceEvent::Closed
            }
            ReplaceAction::MarkInProgress => ReplaceEvent::Recorded,
            ReplaceAction::Watch { rest } => {
                assert_eq!(rest, watched > 0);
                watched += 1;
                let left = if watched == 1 { clients.clone() } else { vec![late.clone()] };
                ReplaceEvent::Seen {
                    processes: left.iter().map(|_| running(Some(7))).collect(),
                    clients: left,
                    elapsed: 0,
                }
            }
            ReplaceAction::Reconcile { protected, .. } => break protected,
            other => panic!("unexpected {other:?}"),
        };
    };
    assert_eq!(closed, vec!["closewindow address:0x1"]);
    assert_eq!(recorded, vec![Some("0x1".to_string())]);
    assert_eq!(watched, 2);
    assert!(protected.contains("0x2") && protected.contains("0x3"));
}

#[test]
fn targets_are_checked_before_windows_close() {
    let saved = session(vec![captured(&window("0x9", "missing", Some("9")))]);
    let config = Config::default();
    let state = ReplaceState::new(&saved, &config, None, options(true, false));
    let (state, action) = replace_step(state, ReplaceEvent::Begin);
    assert!(matches!(action, ReplaceAction::Validate));
    let (_, action) = replace_step(state, found());
    assert!(matches!(action, ReplaceAction::Fail(RestoreError::MissingLaunchBinary { .. })));
}

#[test]
fn recorded_replacements_need_a_snapshot() {
    let nothing = session(Vec::new());
    let config = Config::default();
    let state = ReplaceState::new(&nothing, &config, None, options(true, true));
    let (_, action) = replace_step(state, ReplaceEvent::Begin);
    assert!(matches!(
        action,
        ReplaceAction::Fail(RestoreError::UnsafeRecoverySnapshot { .. })
    ));
}

/// A replacement that waits for one closed window.
fn waiting<'a>(
    nothing: &'a Session,
    config: &'a Config,
    client: &HyprClient,
) -> ReplaceState<'a> {
    let mut state = ReplaceState::new(nothing, config, None, options(false, false));
    for event in [
        ReplaceEvent::Begin,
        ReplaceEvent::Listed(vec![client.clone()]),
        ReplaceEvent::Rechecked {
            start_time: Some(7),
            clients: vec![client.clone()],
            process: running(Some(7)),
        },
        ReplaceEvent::Closed,
    ] {
        state = replace_step(state, event).0;
    }
    state
}

#[test]
fn windows_that_stay_open_time_out() {
    let client = window("0x1", "kitty", Some("1"));
    let nothing = session(Vec::new());
    let config = Config::default();
    let seen = |elapsed: u64| ReplaceEvent::Seen {
        clients: vec![client.clone()],
        processes: vec![running(Some(7))],
        elapsed,
    };
    let (state, action) = replace_step(waiting(&nothing, &config, &client), seen(0));
    assert!(matches!(action, ReplaceAction::Watch { rest: true }));
    let (_, action) = replace_step(state, seen(u64::MAX));
    assert!(matches!(action, ReplaceAction::Fail(RestoreError::ReplaceTimeout)));
    let failed = ReplaceEvent::CompositorFailed(HyprctlError::IoError("gone".to_string()));
    let (_, action) = replace_step(waiting(&nothing, &config, &client), failed);
    assert!(matches!(
        action,
        ReplaceAction::Fail(RestoreError::Hyprctl(HyprctlError::IoError(_)))
    ));
}

#[test]
fn waiting_ends_when_windows_are_gone_or_the_time_is_up() {
    assert_eq!(wait_step(true, 99, 100), WaitStep::GoOn);
    assert_eq!(wait_step(true, 100, 100), WaitStep::TimedOut);
    assert_eq!(wait_step(false, 100, 100), WaitStep::Done);
}

#[test]
fn records_that_fail_end_a_replacement() {
    let nothing = session(Vec::new());
    let safety = session(Vec::new());
    let config = Config::default();
    let begin_marked = || {
        let mut state = ReplaceState::new(&nothing, &config, Some(&safety), options(true, true));
        for event in [ReplaceEvent::Begin, found(), ReplaceEvent::Listed(Vec::new())] {
            state = replace_step(state, event).0;
        }
        state
    };
    let (_, action) =
        replace_step(begin_marked(), ReplaceEvent::RecordFailed("full".to_string()));
    assert!(matches!(action, ReplaceAction::Fail(RestoreError::Transaction(_))));
    let mut state = begin_marked();
    for event in [
        ReplaceEvent::Recorded,
        ReplaceEvent::Seen {
            clients: Vec::new(),
            processes: Vec::new(),
            elapsed: 0,
        },
        ReplaceEvent::Listed(Vec::new()),
        ReplaceEvent::Reconciled(ReconcileReport::default()),
    ] {
        state = replace_step(state, event).0;
    }
    let (_, action) = replace_step(state, ReplaceEvent::RecordFailed("full".to_string()));
    assert!(matches!(action, ReplaceAction::Fail(RestoreError::TransactionAfterRestore(_))));
}

// ── Profiles ──

#[test]
fn only_mapped_profiles_get_windows_on_their_workspaces() {
    let mut config = Config::default();
    let mut workspaces: Table<i32> = Table::new();
    workspaces.insert("Default".to_string(), 1);
    workspaces.insert("Profile 1".to_string(), 6);
    config.apps.insert(
        "brave-browser".to_string(),
        hyprloom::config::AppConfig {
            binary: Some("brave".to_string()),
            capture_cwd: None,
            capture_last_command: None,
            hint_template: None,
            profile_workspaces: Some(workspaces),
            default_workspace: None,
        },
    );
    let mut saved = session(Vec::new());
    for (directory, name) in [("Default", "Home"), ("Profile 1", "Work"), ("Profile 2", "Other")] {
        saved.brave_profiles.push(BraveProfile {
            directory: directory.to_string(),
            name: name.to_string(),
        });
    }
    let profiles = brave_profile_targets(&saved, &config).unwrap();
    assert_eq!(profiles.len(), 2);
    let targets = build_reconcile_targets(&saved, &config, &[]);
    let placed: Vec<(i32, Vec<String>)> = targets
        .iter()
        .map(|target| (target.client.workspace, target.client.launch.args.clone()))
        .collect();
    assert_eq!(
        placed,
        vec![
            (1, vec!["--profile-directory=Default".to_string()]),
            (6, vec!["--profile-directory=Profile 1".to_string()])
        ]
    );
}

// ── Settings, lists, entries ──

#[test]
fn normalizing_twice_changes_nothing() {
    let mut config = Config::default();
    config.general.window_detect_timeout_ms = 1;
    config.normalize();
    let once = config.general.window_detect_timeout_ms;
    config.normalize();
    assert_eq!(config.general.window_detect_timeout_ms, once);
    assert_eq!(once, 500);
    assert!(is_ignored_class("WOFI", &["wofi".to_string()]));
}

#[test]
fn tables_hold_one_value_per_key() {
    let mut table: Table<i32> = Table::new();
    table.insert("a".to_string(), 1);
    table.insert("b".to_string(), 2);
    table.insert("a".to_string(), 3);
    assert_eq!(table.len(), 2);
    assert_eq!(table.get("a"), Some(&3));
    table.remove("a");
    assert_eq!(table.get("a"), None);
    assert!(table.contains_key("b"));
}

#[test]
fn the_most_specific_desktop_entry_is_taken() {
    let direct = "[Desktop Entry]\nExec=omarchy-launch-webapp https://example.com/\n".to_string();
    let explicit = "[Desktop Entry]\nExec=omarchy-launch-or-focus-webapp chrome-example.com__-Default https://example.com/\n".to_string();
    for entries in [[direct.clone(), explicit.clone()], [explicit, direct]] {
        let found =
            find_webapp_launch_info_in_entries("chrome-example.com__-Default", "", &entries)
                .unwrap();
        assert_eq!(found.command, "omarchy-launch-or-focus-webapp");
    }
}

struct Silent;

impl HyprctlClient for Silent {
    fn get_clients(&self) -> Result<Vec<HyprClient>, HyprctlError> {
        Err(HyprctlError::IoError("gone".to_string()))
    }

    fn get_monitors(&self) -> Result<Vec<HyprMonitor>, HyprctlError> {
        Ok(Vec::new())
    }

    fn dispatch(&self, _: &str) -> Result<(), HyprctlError> {
        Ok(())
    }

    fn get_hyprland_version(&self) -> Result<String, HyprctlError> {
        Ok(String::new())
    }
}

#[test]
fn compositor_failures_are_told() {
    let outcome = hyprloom::restore::replacement_target_is_complete(
        &session(vec![captured(&window("0x1", "kitty", Some("1")))]),
        &Silent,
        &Tree(HashMap::new()),
        &Config::default(),
        &[],
    );
    let message = outcome.unwrap_err().message();
    assert!(message.contains("gone"), "{message}");
}

#[test]
fn every_restore_error_tells_its_reason() {
    let errors = [
        (
            RestoreError::AmbiguousWindow {
                class: "kitty".to_string(),
                addresses: "0x1, 0x2".to_string(),
            },
            "0x1, 0x2",
        ),
        (RestoreError::UncorrelatedWindow { class: "kitty".to_string() }, "kitty"),
        (RestoreError::WindowDisappeared { address: "0x1".to_string() }, "0x1"),
        (RestoreError::WindowIdentityChanged { address: "0x1".to_string() }, "0x1"),
        (
            RestoreError::UntrustedLaunch {
                target: "kitty".to_string(),
                command: "rm".to_string(),
            },
            "rm",
        ),
        (
            RestoreError::MissingLaunchBinary {
                target: "kitty".to_string(),
                command: "kitty".to_string(),
            },
            "kitty",
        ),
        (RestoreError::Transaction("disk full".to_string()), "disk full"),
        (RestoreError::TransactionAfterRestore("disk full".to_string()), "disk full"),
        (RestoreError::UnsafeRecoverySnapshot { reason: "why".to_string() }, "why"),
        (RestoreError::UnsafeReplacementTarget { reason: "why".to_string() }, "why"),
        (
            RestoreError::TooManyWindows {
                targets: 600,
                current: 2,
                limit: 512,
            },
            "600",
        ),
    ];
    for (error, reason) in errors {
        assert!(error.message().contains(reason), "{}", error.message());
    }
    assert!(!RestoreError::ReplaceTimeout.message().is_empty());
    assert!(!RestoreError::NoRestorableTargets.message().is_empty());
    assert!(!RestoreError::NoSession.message().is_empty());
}
