//! Capture the current Hyprland desktop into a session snapshot.

use crate::brave;
use crate::config;
use crate::config::{AppConfig, AppConfigView, Config, ConfigView};
use crate::hyprctl::{
    HyprClient, HyprClientView, HyprMonitor, HyprMonitorView, HyprctlClient, HyprctlError,
};
use crate::process;
use crate::process::{ChildProcess, ChildProcessView, ProcessError, ProcessInfoProvider};
use crate::session::{
    BraveProfile, BraveProfileView, LaunchInfo, LaunchInfoView, Monitor, MonitorView, Session,
    SessionClient, SessionClientView, SessionView,
};
use crate::text;
use crate::webapps;
use vstd::prelude::*;

pub use crate::webapps::discover_webapp_launch_info;

verus! {

/// Errors of a capture.
#[derive(Debug)]
pub enum CaptureError {
    /// The compositor could not be asked.
    Hyprctl(HyprctlError),
    /// A process could not be inspected.
    Process(ProcessError),
}

impl CaptureError {
    /// What the error tells the user.
    pub fn message(&self) -> (r: String)
        ensures
            r@ == match *self {
                CaptureError::Hyprctl(error) => "hyprctl error: "@
                    + crate::hyprctl::error_message(error),
                CaptureError::Process(error) => "process error: "@ + process::error_message(error),
            },
    {
        match self {
            CaptureError::Hyprctl(error) => {
                let reason = error.message();
                "hyprctl error: ".to_owned().concat(reason.as_str())
            },
            CaptureError::Process(error) => {
                let reason = error.message();
                "process error: ".to_owned().concat(reason.as_str())
            },
        }
    }
}

// ── Classes ────────────────────────────────────────────────────────────────

/// The class of a Brave window.
pub open spec fn is_brave(class: Seq<char>) -> bool {
    text::same_ignoring_case(class, "brave-browser"@)
}

/// A Brave window.
pub open spec fn is_brave_window(client: HyprClientView) -> bool {
    is_brave(client.class) || is_brave(client.initial_class)
}

/// The class of a Ghostty window.
pub open spec fn is_ghostty(class: Seq<char>) -> bool {
    text::same_ignoring_case(class, "ghostty"@) || text::same_ignoring_case(
        class,
        "com.mitchellh.ghostty"@,
    )
}

/// Tells whether a class is one of Brave.
pub fn is_brave_class(class: &str) -> (r: bool)
    ensures
        r == is_brave(class@),
{
    text::eq_ignore_case(class, "brave-browser")
}

/// Tells whether a class is one of Ghostty.
pub fn is_ghostty_class(class: &str) -> (r: bool)
    ensures
        r == is_ghostty(class@),
{
    text::eq_ignore_case(class, "ghostty") || text::eq_ignore_case(class, "com.mitchellh.ghostty")
}

pub(crate) fn is_brave_client(client: &HyprClient) -> (r: bool)
    ensures
        r == is_brave_window(client@),
{
    is_brave_class(client.class.as_str()) || is_brave_class(client.initial_class.as_str())
}

// ── Launch information ─────────────────────────────────────────────────────

/// The directory that the first directory argument, from place `i` on, names.
pub open spec fn directory_from(args: Seq<Seq<char>>, i: int) -> Option<Seq<char>>
    decreases args.len() - i,
{
    if i < 0 || i >= args.len() {
        None
    } else if (args[i] == "--directory"@ || args[i] == "--working-directory"@) && i + 1
        < args.len() {
        Some(args[i + 1])
    } else if args[i] == "--directory"@ || args[i] == "--working-directory"@ {
        directory_from(args, i + 1)
    } else if text::starts_with(args[i], "--directory="@) {
        Some(args[i].skip("--directory="@.len() as int))
    } else if text::starts_with(args[i], "--working-directory="@) {
        Some(args[i].skip("--working-directory="@.len() as int))
    } else {
        directory_from(args, i + 1)
    }
}

/// The working directory among the arguments of a terminal.
pub open spec fn directory_argument(args: Seq<Seq<char>>) -> Option<Seq<char>> {
    directory_from(args, 0)
}

/// The working directory among the arguments of a terminal.
pub fn launch_cwd_arg(args: &[String]) -> (r: Option<String>)
    ensures
        r.deep_view() == directory_argument(args.deep_view()),
{
    let ghost all = args.deep_view();
    let mut i: usize = 0;
    while i < args.len()
        invariant
            i <= args.len(),
            all == args.deep_view(),
            directory_argument(all) == directory_from(all, i as int),
        decreases args.len() - i,
    {
        let arg = args[i].as_str();
        assert(all[i as int] == arg@);
        if text::same(arg, "--directory") || text::same(arg, "--working-directory") {
            if i + 1 < args.len() {
                assert(all[i + 1] == args[i + 1]@);
                return Some(args[i + 1].clone());
            }
        } else if let Some(value) = text::strip_prefix(arg, "--directory=") {
            return Some(value);
        } else if let Some(value) = text::strip_prefix(arg, "--working-directory=") {
            return Some(value);
        }
        i += 1;
    }
    None
}

/// A command that a shell runs: not a helper, and not another shell.
pub open spec fn is_running_command(child: ChildProcessView) -> bool {
    child.cmdline.len() > 0 && !process::is_helper(child.cmdline) && !process::is_shell(
        child.cmdline,
    )
}

/// The place of the running command with the smallest process ID.
pub open spec fn running_command(children: Seq<ChildProcessView>) -> Option<int>
    decreases children.len(),
{
    if children.len() == 0 {
        None
    } else {
        let last = children.len() - 1;
        match running_command(children.drop_last()) {
            Some(i) => if is_running_command(children[last]) && children[last].pid
                < children[i].pid {
                Some(last)
            } else {
                Some(i)
            },
            None => if is_running_command(children[last]) {
                Some(last)
            } else {
                None
            },
        }
    }
}

/// The command that a terminal's shell runs, or else the shell's own command
/// line unless it is a plain shell.
pub open spec fn last_command(
    shell: ChildProcessView,
    below: Option<Seq<ChildProcessView>>,
) -> Option<Seq<char>> {
    let inner = match below {
        Some(children) => running_command(children),
        None => None,
    };
    if inner is Some {
        Some(below->0[inner->0].cmdline)
    } else if shell.cmdline.len() > 0 && !process::is_shell(shell.cmdline) {
        Some(shell.cmdline)
    } else {
        None
    }
}

/// What the process tree of a terminal showed.
pub ghost struct TerminalView {
    /// Its shell.
    pub shell: Option<ChildProcessView>,
    /// The descendants of that shell, if they could be read.
    pub below: Option<Seq<ChildProcessView>>,
}

/// A setting that is switched on.
pub open spec fn is_on(setting: Option<bool>) -> bool {
    setting == Some(true)
}

/// The working directory of a terminal is captured.
pub open spec fn captures_cwd(app: Option<AppConfigView>) -> bool {
    app is Some && is_on(app->0.capture_cwd)
}

/// The last command of a terminal is captured.
pub open spec fn captures_command(app: Option<AppConfigView>) -> bool {
    app is Some && is_on(app->0.capture_last_command)
}

/// The configured executable of an application.
pub open spec fn configured_binary(app: Option<AppConfigView>) -> Option<Seq<char>> {
    match app {
        Some(a) => a.binary,
        None => None,
    }
}

/// The executable of a window: the configured one, else the one of its desktop
/// entry, else the one its class stands for.
pub open spec fn launch_binary(
    client: HyprClientView,
    app: Option<AppConfigView>,
    desktop: Option<LaunchInfoView>,
) -> Seq<char> {
    if configured_binary(app) is Some {
        configured_binary(app)->0
    } else if desktop is Some {
        desktop->0.command
    } else if is_ghostty(client.class) || is_ghostty(client.initial_class) {
        "ghostty"@
    } else if is_brave(client.class) || is_brave(client.initial_class) {
        "brave"@
    } else {
        client.class
    }
}

/// The process tree of a window is looked at.
pub open spec fn looks_at_processes(
    app: Option<AppConfigView>,
    desktop: Option<LaunchInfoView>,
) -> bool {
    desktop is None && (captures_cwd(app) || captures_command(app))
}

/// The arguments of a window.
pub open spec fn launch_args(
    client: HyprClientView,
    app: Option<AppConfigView>,
    desktop: Option<LaunchInfoView>,
    terminal: TerminalView,
) -> Seq<Seq<char>> {
    if desktop is Some {
        desktop->0.args
    } else if captures_cwd(app) && terminal.shell is Some {
        seq![
            if is_ghostty(client.class) || is_ghostty(client.initial_class) {
                "--working-directory"@
            } else {
                "--directory"@
            },
            terminal.shell->0.cwd,
        ]
    } else {
        seq![]
    }
}

/// The hint of a window before a template is applied.
pub open spec fn plain_hint(
    app: Option<AppConfigView>,
    desktop: Option<LaunchInfoView>,
    terminal: TerminalView,
) -> Option<Seq<char>> {
    if desktop is None && captures_command(app) && terminal.shell is Some {
        last_command(terminal.shell->0, terminal.below)
    } else {
        None
    }
}

/// A template with its fields filled in.
pub open spec fn filled_in(
    template: Seq<char>,
    command: Seq<char>,
    directory: Seq<char>,
) -> Seq<char> {
    text::replaced(
        text::replaced(template, "{last_command}"@, command),
        "{cwd}"@,
        directory,
    )
}

/// How a window is opened again.
pub open spec fn launch_info(
    client: HyprClientView,
    app: Option<AppConfigView>,
    desktop: Option<LaunchInfoView>,
    terminal: TerminalView,
) -> LaunchInfoView {
    let args = launch_args(client, app, desktop, terminal);
    let hint = plain_hint(app, desktop, terminal);
    LaunchInfoView {
        command: launch_binary(client, app, desktop),
        args,
        hint: if hint is Some && app is Some && app->0.hint_template is Some {
            Some(
                filled_in(
                    app->0.hint_template->0,
                    hint->0,
                    match directory_argument(args) {
                        Some(directory) => directory,
                        None => seq![],
                    },
                ),
            )
        } else {
            hint
        },
    }
}

/// The contents of optional settings.
pub open spec fn app_view(app: Option<&AppConfig>) -> Option<AppConfigView> {
    match app {
        Some(a) => Some(a@),
        None => None,
    }
}

/// The contents of optional processes.
pub open spec fn below_view(below: Option<Vec<ChildProcess>>) -> Option<Seq<ChildProcessView>> {
    match below {
        Some(list) => Some(list.deep_view()),
        None => None,
    }
}

fn is_switched_on(setting: &Option<bool>) -> (r: bool)
    ensures
        r == is_on(*setting),
{
    match setting {
        Some(value) => *value,
        None => false,
    }
}

fn find_running_command(children: &Vec<ChildProcess>) -> (r: Option<usize>)
    ensures
        match running_command(children.deep_view()) {
            Some(i) => r == Some(i as usize) && 0 <= i < children.len(),
            None => r is None,
        },
{
    let ghost all = children.deep_view();
    let mut best: Option<usize> = None;
    let mut i: usize = 0;
    while i < children.len()
        invariant
            i <= children.len(),
            all == children.deep_view(),
            match running_command(all.take(i as int)) {
                Some(k) => best == Some(k as usize) && 0 <= k < i,
                None => best is None,
            },
        decreases children.len() - i,
    {
        let child = &children[i];
        proof {
            assert(all.take(i + 1).drop_last() =~= all.take(i as int));
            assert(all.take(i + 1)[i as int] == child@);
        }
        let line = child.cmdline.as_str();
        if !line.is_empty() && !process::is_helper_process(line) && !process::is_plain_shell(line) {
            match best {
                Some(k) => {
                    assert(all.take(i + 1)[k as int] == children[k as int]@);
                    if child.pid < children[k].pid {
                        best = Some(i);
                    }
                },
                None => {
                    best = Some(i);
                },
            }
        }
        i += 1;
    }
    assert(all.take(all.len() as int) =~= all);
    best
}

fn find_last_command(shell: &ChildProcess, below: &Option<Vec<ChildProcess>>) -> (r: Option<String>)
    ensures
        r.deep_view() == last_command(shell@, below_view(*below)),
{
    if let Some(children) = below {
        if let Some(i) = find_running_command(children) {
            assert(children.deep_view()[i as int] == children[i as int]@);
            return Some(children[i].cmdline.clone());
        }
    }
    if !shell.cmdline.as_str().is_empty() && !process::is_plain_shell(shell.cmdline.as_str()) {
        Some(shell.cmdline.clone())
    } else {
        None
    }
}

fn fill_in(template: &str, command: &str, directory: &str) -> (r: String)
    ensures
        r@ == filled_in(template@, command@, directory@),
{
    proof {
        reveal_strlit("{last_command}");
        reveal_strlit("{cwd}");
    }
    let once = text::replace(template, "{last_command}", command);
    text::replace(once.as_str(), "{cwd}", directory)
}

/// How a window is opened again, from what its desktop entry and its process
/// tree showed.
pub fn launch_info_from(
    client: &HyprClient,
    app_config: Option<&AppConfig>,
    desktop: Option<LaunchInfo>,
    shell: Option<ChildProcess>,
    below: Option<Vec<ChildProcess>>,
) -> (r: LaunchInfo)
    ensures
        r@ == launch_info(
            client@,
            app_view(app_config),
            webapps::info_of(desktop),
            (TerminalView { shell: shell.deep_view(), below: below_view(below) }),
        ),
{
    let ghost app = app_view(app_config);
    let ghost entry = webapps::info_of(desktop);
    let ghost terminal = TerminalView { shell: shell.deep_view(), below: below_view(below) };
    let ghostty = is_ghostty_class(client.class.as_str()) || is_ghostty_class(
        client.initial_class.as_str(),
    );
    let configured = match app_config {
        Some(a) => text::copy_option(&a.binary),
        None => None,
    };
    assert(configured.deep_view() == configured_binary(app));
    let from_desktop = desktop.is_some();
    let (command, mut args) = match desktop {
        Some(launch) => match configured {
            Some(binary) => (binary, launch.args),
            None => (launch.command, launch.args),
        },
        None => {
            let none: Vec<String> = Vec::new();
            let binary = match configured {
                Some(binary) => binary,
                None => if ghostty {
                    "ghostty".to_owned()
                } else if is_brave_client(client) {
                    "brave".to_owned()
                } else {
                    client.class.clone()
                },
            };
            (binary, none)
        },
    };
    assert(command@ == launch_binary(client@, app, entry));
    let capture_cwd = match app_config {
        Some(a) => is_switched_on(&a.capture_cwd),
        None => false,
    };
    let capture_cmd = match app_config {
        Some(a) => is_switched_on(&a.capture_last_command),
        None => false,
    };
    let mut hint: Option<String> = None;
    if !from_desktop {
        if let Some(found) = &shell {
            if capture_cwd {
                args.push(
                    if ghostty {
                        "--working-directory".to_owned()
                    } else {
                        "--directory".to_owned()
                    },
                );
                args.push(found.cwd.clone());
            }
            if capture_cmd {
                hint = find_last_command(found, &below);
            }
        }
    }
    assert(args.deep_view() =~= launch_args(client@, app, entry, terminal));
    assert(hint.deep_view() == plain_hint(app, entry, terminal));
    let mut rendered: Option<String> = None;
    if let (Some(h), Some(a)) = (&hint, app_config) {
        if let Some(template) = &a.hint_template {
            let directory = match launch_cwd_arg(&args) {
                Some(directory) => directory,
                None => String::new(),
            };
            rendered = Some(fill_in(template.as_str(), h.as_str(), directory.as_str()));
        }
    }
    if rendered.is_some() {
        hint = rendered;
    }
    LaunchInfo { command, args, hint }
}

/// What a provider may show of the process tree of a window; nothing is asked
/// for that is not captured.
pub open spec fn may_show<P: ProcessInfoProvider + ?Sized>(
    process_info: &P,
    pid: u32,
    app: Option<AppConfigView>,
    desktop: Option<LaunchInfoView>,
    terminal: TerminalView,
) -> bool {
    if looks_at_processes(app, desktop) {
        &&& exists|answer: Result<Vec<ChildProcess>, ProcessError>|
            #[trigger] call_ensures(P::get_descendants, (process_info, pid), answer)
                && terminal.shell == match answer {
                Ok(list) => process::terminal_shell(list.deep_view()),
                Err(_) => None,
            }
        &&& captures_command(app) && terminal.shell is Some ==> exists|
            answer: Result<Vec<ChildProcess>, ProcessError>,
        |
            #[trigger] call_ensures(
                P::get_descendants,
                (process_info, terminal.shell->0.pid),
                answer,
            ) && terminal.below == match answer {
                Ok(list) => Some(list.deep_view()),
                Err(_) => None,
            }
    } else {
        terminal.shell is None
    }
}

/// The desktop entry of a window counts only without a configured executable.
pub open spec fn desktop_for(
    client: HyprClientView,
    app: Option<AppConfigView>,
    entries: Seq<Seq<char>>,
) -> Option<LaunchInfoView> {
    if configured_binary(app) is Some {
        None
    } else {
        webapps::discovered_launch(client.class, client.initial_class, entries)
    }
}

/// How a window may be recorded, given what a provider may show.
pub open spec fn is_launch_of<P: ProcessInfoProvider + ?Sized>(
    process_info: &P,
    client: HyprClientView,
    app: Option<AppConfigView>,
    entries: Seq<Seq<char>>,
    terminal: TerminalView,
    launch: LaunchInfoView,
) -> bool {
    let desktop = desktop_for(client, app, entries);
    &&& may_show(process_info, client.pid, app, desktop, terminal)
    &&& launch == launch_info(client, app, desktop, terminal)
}

/// Works out how a window is opened again.
pub fn build_launch_info<P: ProcessInfoProvider + ?Sized>(
    client: &HyprClient,
    app_config: Option<&AppConfig>,
    process_info: &P,
    desktop_entries: &[String],
) -> (r: LaunchInfo)
    ensures
        exists|terminal: TerminalView| #[trigger]
            is_launch_of(
                process_info,
                client@,
                app_view(app_config),
                desktop_entries.deep_view(),
                terminal,
                r@,
            ),
{
    let ghost app = app_view(app_config);
    let ghost entries = desktop_entries.deep_view();
    let has_binary = match app_config {
        Some(a) => a.binary.is_some(),
        None => false,
    };
    let desktop = if has_binary {
        None
    } else {
        webapps::discover_webapp_launch_info(
            client.class.as_str(),
            client.initial_class.as_str(),
            desktop_entries,
        )
    };
    let ghost found = webapps::info_of(desktop);
    assert(found == desktop_for(client@, app, entries));
    let capture_cwd = match app_config {
        Some(a) => is_switched_on(&a.capture_cwd),
        None => false,
    };
    let capture_cmd = match app_config {
        Some(a) => is_switched_on(&a.capture_last_command),
        None => false,
    };
    let mut shell: Option<ChildProcess> = None;
    let mut below: Option<Vec<ChildProcess>> = None;
    if desktop.is_none() && (capture_cwd || capture_cmd) {
        shell = process::select_terminal_process(process_info, client.pid);
        if capture_cmd {
            if let Some(inner) = &shell {
                let answer = process_info.get_descendants(inner.pid);
                assert(call_ensures(P::get_descendants, (process_info, inner.pid), answer));
                below = match answer {
                    Ok(list) => Some(list),
                    Err(_) => None,
                };
            }
        }
    }
    let ghost terminal = TerminalView { shell: shell.deep_view(), below: below_view(below) };
    assert(may_show(process_info, client@.pid, app, found, terminal));
    let r = launch_info_from(client, app_config, desktop, shell, below);
    assert(is_launch_of(process_info, client@, app, entries, terminal, r@));
    r
}

// ── Windows ────────────────────────────────────────────────────────────────

/// The name of the last of the first `n` monitors with an ID.
pub open spec fn monitor_with_id(
    monitors: Seq<HyprMonitorView>,
    id: int,
    n: int,
) -> Option<Seq<char>>
    decreases n,
{
    if n <= 0 {
        None
    } else if monitors[n - 1].id == id {
        Some(monitors[n - 1].name)
    } else {
        monitor_with_id(monitors, id, n - 1)
    }
}

/// The name of a monitor, made up from its ID when it is not known.
pub open spec fn monitor_name(monitors: Seq<HyprMonitorView>, id: int) -> Seq<char> {
    match monitor_with_id(monitors, id, monitors.len() as int) {
        Some(name) => name,
        None => "monitor-"@ + text::decimal(id),
    }
}

fn find_monitor_name(monitors: &[HyprMonitor], id: i32) -> (r: String)
    ensures
        r@ == monitor_name(monitors.deep_view(), id as int),
{
    let ghost all = monitors.deep_view();
    let mut n: usize = monitors.len();
    while n > 0
        invariant
            n <= monitors.len(),
            all == monitors.deep_view(),
            monitor_with_id(all, id as int, all.len() as int) == monitor_with_id(
                all,
                id as int,
                n as int,
            ),
        decreases n,
    {
        assert(all[n - 1] == monitors[n - 1]@);
        if monitors[n - 1].id == id {
            return monitors[n - 1].name.clone();
        }
        n -= 1;
    }
    let number = text::number_text(id as i64);
    "monitor-".to_owned().concat(number.as_str())
}

/// The profile of a window, told by the profiles of its process: only a
/// process with one window identifies it, and one without a profile flag runs
/// the default profile.
pub open spec fn window_profile(profiles: Seq<Seq<char>>, window_count: nat) -> Option<Seq<char>> {
    if window_count == 1 && profiles.len() == 1 {
        Some(profiles[0])
    } else if window_count == 1 && profiles.len() == 0 {
        Some("Default"@)
    } else {
        None
    }
}

/// The profile of a window.
pub fn profile_for_window(profiles: &[String], window_count: usize) -> (r: Option<String>)
    ensures
        r.deep_view() == window_profile(profiles.deep_view(), window_count as nat),
{
    if window_count != 1 {
        return None;
    }
    if profiles.len() == 1 {
        assert(profiles.deep_view()[0] == profiles[0]@);
        Some(profiles[0].clone())
    } else if profiles.len() == 0 {
        Some("Default".to_owned())
    } else {
        None
    }
}

/// A text, or another one where it is empty.
pub open spec fn or_else(s: Seq<char>, other: Seq<char>) -> Seq<char> {
    if s.len() == 0 {
        other
    } else {
        s
    }
}

/// The record of a window.
pub open spec fn recorded(
    client: HyprClientView,
    monitors: Seq<HyprMonitorView>,
    profile: Option<Seq<char>>,
    start_time: Option<u64>,
    launch: LaunchInfoView,
) -> SessionClientView {
    SessionClientView {
        class: client.class,
        title: client.title,
        address: Some(client.address),
        pid: Some(client.pid),
        process_start_time: start_time,
        stable_id: client.stable_id,
        initial_class: or_else(client.initial_class, client.class),
        initial_title: or_else(client.initial_title, client.title),
        workspace: client.workspace.id,
        workspace_name: client.workspace.name,
        monitor: monitor_name(monitors, client.monitor),
        at: client.at,
        size: client.size,
        floating: client.floating,
        fullscreen: client.fullscreen,
        pinned: client.pinned,
        profile_directory: profile,
        profile_identity_ambiguous: is_brave_window(client) && profile is None,
        focus_history_id: client.focus_history_id,
        launch,
    }
}

/// Records a window.
pub fn build_session_client(
    client: &HyprClient,
    monitors: &[HyprMonitor],
    profile_directory: Option<String>,
    process_start_time: Option<u64>,
    launch: LaunchInfo,
) -> (r: SessionClient)
    ensures
        r@ == recorded(
            client@,
            monitors.deep_view(),
            profile_directory.deep_view(),
            process_start_time,
            launch@,
        ),
{
    let ambiguous = is_brave_client(client) && profile_directory.is_none();
    SessionClient {
        class: client.class.clone(),
        title: client.title.clone(),
        address: Some(client.address.clone()),
        pid: Some(client.pid),
        process_start_time,
        stable_id: text::copy_option(&client.stable_id),
        initial_class: if client.initial_class.as_str().is_empty() {
            client.class.clone()
        } else {
            client.initial_class.clone()
        },
        initial_title: if client.initial_title.as_str().is_empty() {
            client.title.clone()
        } else {
            client.initial_title.clone()
        },
        workspace: client.workspace.id,
        workspace_name: client.workspace.name.clone(),
        monitor: find_monitor_name(monitors, client.monitor),
        at: client.at,
        size: client.size,
        floating: client.floating,
        fullscreen: client.fullscreen,
        pinned: client.pinned,
        profile_directory,
        profile_identity_ambiguous: ambiguous,
        focus_history_id: client.focus_history_id,
        launch,
    }
}

// ── Sessions ───────────────────────────────────────────────────────────────

/// The number of Brave windows of a process.
pub open spec fn brave_windows(clients: Seq<HyprClientView>, pid: u32) -> nat
    decreases clients.len(),
{
    if clients.len() == 0 {
        0
    } else {
        brave_windows(clients.drop_last(), pid) + (if is_brave_window(clients.last())
            && clients.last().pid == pid {
            1nat
        } else {
            0nat
        })
    }
}

/// The last of the first `n` Brave windows of a process.
pub open spec fn last_brave_window(clients: Seq<HyprClientView>, pid: u32, n: int) -> Option<int>
    decreases n,
{
    if n <= 0 {
        None
    } else if is_brave_window(clients[n - 1]) && clients[n - 1].pid == pid {
        Some(n - 1)
    } else {
        last_brave_window(clients, pid, n - 1)
    }
}

/// What was asked for beside the windows: one entry per window.
pub ghost struct WindowEvidence {
    /// The profiles of its process, asked for a Brave window.
    pub profiles: Seq<Seq<char>>,
    /// The start time of its process.
    pub start_time: Option<u64>,
    /// How it is opened again.
    pub launch: LaunchInfoView,
}

/// The profiles of the process of a window.
pub open spec fn process_profiles(
    clients: Seq<HyprClientView>,
    evidence: Seq<WindowEvidence>,
    pid: u32,
) -> Option<Seq<Seq<char>>> {
    match last_brave_window(clients, pid, clients.len() as int) {
        Some(i) => Some(evidence[i].profiles),
        None => None,
    }
}

/// The profile recorded for a window.
pub open spec fn profile_of_window(
    clients: Seq<HyprClientView>,
    evidence: Seq<WindowEvidence>,
    pid: u32,
) -> Option<Seq<char>> {
    match process_profiles(clients, evidence, pid) {
        Some(profiles) => window_profile(profiles, brave_windows(clients, pid)),
        None => None,
    }
}

/// A window that is captured.
pub open spec fn is_captured(client: HyprClientView, ignored: Seq<Seq<char>>) -> bool {
    !config::ignores(ignored, client.class) && !config::ignores(ignored, client.initial_class)
}

/// The records of the first `n` windows.
pub open spec fn captured_windows(
    clients: Seq<HyprClientView>,
    monitors: Seq<HyprMonitorView>,
    evidence: Seq<WindowEvidence>,
    ignored: Seq<Seq<char>>,
    n: int,
) -> Seq<SessionClientView>
    decreases n,
{
    if n <= 0 {
        seq![]
    } else {
        let before = captured_windows(clients, monitors, evidence, ignored, n - 1);
        let client = clients[n - 1];
        if is_captured(client, ignored) {
            before.push(
                recorded(
                    client,
                    monitors,
                    profile_of_window(clients, evidence, client.pid),
                    evidence[n - 1].start_time,
                    evidence[n - 1].launch,
                ),
            )
        } else {
            before
        }
    }
}

/// The profiles that a process stands for.
pub open spec fn active_profiles(profiles: Seq<Seq<char>>, window_count: nat) -> Seq<Seq<char>> {
    if profiles.len() == 0 && window_count == 1 {
        seq!["Default"@]
    } else {
        profiles
    }
}

/// The profiles that the first `n` windows stand for.
pub open spec fn active_directories(
    clients: Seq<HyprClientView>,
    evidence: Seq<WindowEvidence>,
    n: int,
) -> Seq<Seq<char>>
    decreases n,
{
    if n <= 0 {
        seq![]
    } else {
        let before = active_directories(clients, evidence, n - 1);
        let client = clients[n - 1];
        if is_brave_window(client) {
            match process_profiles(clients, evidence, client.pid) {
                Some(profiles) => before + active_profiles(
                    profiles,
                    brave_windows(clients, client.pid),
                ),
                None => before,
            }
        } else {
            before
        }
    }
}

/// A captured window is one of Brave.
pub open spec fn has_brave(windows: Seq<SessionClientView>) -> bool {
    exists|i: int|
        0 <= i < windows.len() && (is_brave((#[trigger] windows[i]).class) || is_brave(
            windows[i].initial_class,
        ))
}

/// The browser profiles of a session: those with a workspace mapping, or
/// without one those that were seen in use.
pub open spec fn captured_profiles(
    windows: Seq<SessionClientView>,
    active: Seq<Seq<char>>,
    inventory: Seq<BraveProfileView>,
    settings: ConfigView,
) -> Seq<BraveProfileView> {
    if !has_brave(windows) {
        seq![]
    } else {
        match config::app_for(settings.apps, "brave-browser"@, ""@) {
            Some(app) => match app.profile_workspaces {
                Some(mapping) => brave::with_mapping(inventory, Some(mapping)),
                None => brave::in_use(inventory, active),
            },
            None => brave::in_use(inventory, active),
        }
    }
}

/// A monitor as it is saved.
pub open spec fn saved_monitor(monitor: HyprMonitorView) -> MonitorView {
    MonitorView {
        name: monitor.name,
        width: monitor.width,
        height: monitor.height,
        transform: monitor.transform,
        x: monitor.x,
        y: monitor.y,
    }
}

/// What the program around the library provides for a capture.
pub struct CaptureEnvironment {
    /// Microseconds between the start of 1970 and now.
    pub created_at: i64,
    /// The contents of the desktop entries of the system.
    pub desktop_entries: Vec<String>,
    /// The profiles in the browser's state.
    pub brave_inventory: Vec<BraveProfile>,
}

#[verifier::ext_equal]
pub ghost struct CaptureEnvironmentView {
    pub created_at: int,
    pub desktop_entries: Seq<Seq<char>>,
    pub brave_inventory: Seq<BraveProfileView>,
}

impl View for CaptureEnvironment {
    type V = CaptureEnvironmentView;

    open spec fn view(&self) -> CaptureEnvironmentView {
        CaptureEnvironmentView {
            created_at: self.created_at as int,
            desktop_entries: self.desktop_entries.deep_view(),
            brave_inventory: self.brave_inventory.deep_view(),
        }
    }
}

/// A session as it is captured.
pub open spec fn captured_session(
    name: Seq<char>,
    version: Seq<char>,
    clients: Seq<HyprClientView>,
    monitors: Seq<HyprMonitorView>,
    evidence: Seq<WindowEvidence>,
    settings: ConfigView,
    environment: CaptureEnvironmentView,
) -> SessionView {
    let windows = captured_windows(
        clients,
        monitors,
        evidence,
        settings.ignore_classes,
        clients.len() as int,
    );
    SessionView {
        name,
        created_at: environment.created_at,
        hyprland_version: version,
        monitors: monitors.map_values(|m: HyprMonitorView| saved_monitor(m)),
        clients: windows,
        brave_profiles: captured_profiles(
            windows,
            active_directories(clients, evidence, clients.len() as int),
            environment.brave_inventory,
            settings,
        ),
    }
}

fn save_monitors(monitors: &[HyprMonitor]) -> (r: Vec<Monitor>)
    ensures
        r.deep_view() == monitors.deep_view().map_values(|m: HyprMonitorView| saved_monitor(m)),
{
    let mut out: Vec<Monitor> = Vec::new();
    let mut i: usize = 0;
    while i < monitors.len()
        invariant
            i <= monitors.len(),
            out.len() == i,
            forall|k: int| 0 <= k < i ==> (#[trigger] out[k])@ == saved_monitor(monitors[k]@),
        decreases monitors.len() - i,
    {
        let m = &monitors[i];
        out.push(
            Monitor {
                name: m.name.clone(),
                width: m.width,
                height: m.height,
                transform: m.transform,
                x: m.x,
                y: m.y,
            },
        );
        i += 1;
    }
    assert(out.deep_view() =~= monitors.deep_view().map_values(
        |m: HyprMonitorView| saved_monitor(m),
    ));
    out
}

pub(crate) fn count_brave_windows(clients: &[HyprClient], pid: u32) -> (r: usize)
    ensures
        r == brave_windows(clients.deep_view(), pid),
{
    let ghost all = clients.deep_view();
    let mut count: usize = 0;
    let mut i: usize = 0;
    while i < clients.len()
        invariant
            i <= clients.len(),
            all == clients.deep_view(),
            count <= i,
            count == brave_windows(all.take(i as int), pid),
        decreases clients.len() - i,
    {
        proof {
            assert(all.take(i + 1).drop_last() =~= all.take(i as int));
            assert(all.take(i + 1).last() == clients[i as int]@);
        }
        if is_brave_client(&clients[i]) && clients[i].pid == pid {
            count += 1;
        }
        i += 1;
    }
    assert(all.take(all.len() as int) =~= all);
    count
}

fn find_last_brave_window(clients: &[HyprClient], pid: u32) -> (r: Option<usize>)
    ensures
        match last_brave_window(clients.deep_view(), pid, clients.len() as int) {
            Some(i) => r == Some(i as usize) && 0 <= i < clients.len(),
            None => r is None,
        },
{
    let ghost all = clients.deep_view();
    let mut n: usize = clients.len();
    while n > 0
        invariant
            n <= clients.len(),
            all == clients.deep_view(),
            last_brave_window(all, pid, clients.len() as int) == last_brave_window(
                all,
                pid,
                n as int,
            ),
        decreases n,
    {
        assert(all[n - 1] == clients[n - 1]@);
        if is_brave_client(&clients[n - 1]) && clients[n - 1].pid == pid {
            return Some(n - 1);
        }
        n -= 1;
    }
    None
}

/// What was found out about one window beside what the compositor tells.
pub struct WindowFacts {
    /// The profiles of its process, for a Brave window.
    pub profiles: Vec<String>,
    /// The start time of its process.
    pub start_time: Option<u64>,
    /// How it is opened again.
    pub launch: LaunchInfo,
}

impl View for WindowFacts {
    type V = WindowEvidence;

    open spec fn view(&self) -> WindowEvidence {
        WindowEvidence {
            profiles: self.profiles.deep_view(),
            start_time: self.start_time,
            launch: self.launch@,
        }
    }
}

impl DeepView for WindowFacts {
    type V = WindowEvidence;

    open spec fn deep_view(&self) -> WindowEvidence {
        self@
    }
}

fn find_window_profile(
    clients: &[HyprClient],
    facts: &[WindowFacts],
    pid: u32,
) -> (r: Option<String>)
    requires
        facts.len() == clients.len(),
    ensures
        r.deep_view() == profile_of_window(clients.deep_view(), facts.deep_view(), pid),
{
    match find_last_brave_window(clients, pid) {
        Some(i) => {
            assert(facts.deep_view()[i as int] == facts[i as int]@);
            profile_for_window(&facts[i].profiles, count_brave_windows(clients, pid))
        },
        None => None,
    }
}

fn record_windows(
    clients: &[HyprClient],
    monitors: &[HyprMonitor],
    facts: &[WindowFacts],
    ignored: &[String],
) -> (r: Vec<SessionClient>)
    requires
        facts.len() == clients.len(),
    ensures
        r.deep_view() == captured_windows(
            clients.deep_view(),
            monitors.deep_view(),
            facts.deep_view(),
            ignored.deep_view(),
            clients.len() as int,
        ),
{
    let ghost cs = clients.deep_view();
    let ghost ms = monitors.deep_view();
    let ghost fs = facts.deep_view();
    let ghost ig = ignored.deep_view();
    let mut out: Vec<SessionClient> = Vec::new();
    let mut i: usize = 0;
    assert(out.deep_view() =~= captured_windows(cs, ms, fs, ig, 0));
    while i < clients.len()
        invariant
            i <= clients.len(),
            facts.len() == clients.len(),
            cs == clients.deep_view(),
            ms == monitors.deep_view(),
            fs == facts.deep_view(),
            ig == ignored.deep_view(),
            out.deep_view() == captured_windows(cs, ms, fs, ig, i as int),
        decreases clients.len() - i,
    {
        let client = &clients[i];
        assert(cs[i as int] == client@);
        assert(fs[i as int] == facts[i as int]@);
        if !config::is_ignored_class(client.class.as_str(), ignored) && !config::is_ignored_class(
            client.initial_class.as_str(),
            ignored,
        ) {
            let profile = find_window_profile(clients, facts, client.pid);
            let record = build_session_client(
                client,
                monitors,
                profile,
                facts[i].start_time,
                facts[i].launch.clone(),
            );
            let ghost before = out.deep_view();
            let ghost added = record@;
            out.push(record);
            assert(out.deep_view() =~= before.push(added));
        }
        i += 1;
    }
    out
}

fn find_active_directories(clients: &[HyprClient], facts: &[WindowFacts]) -> (r: Vec<String>)
    requires
        facts.len() == clients.len(),
    ensures
        r.deep_view() == active_directories(
            clients.deep_view(),
            facts.deep_view(),
            clients.len() as int,
        ),
{
    let ghost cs = clients.deep_view();
    let ghost fs = facts.deep_view();
    let mut out: Vec<String> = Vec::new();
    let mut i: usize = 0;
    assert(out.deep_view() =~= active_directories(cs, fs, 0));
    while i < clients.len()
        invariant
            i <= clients.len(),
            facts.len() == clients.len(),
            cs == clients.deep_view(),
            fs == facts.deep_view(),
            out.deep_view() == active_directories(cs, fs, i as int),
        decreases clients.len() - i,
    {
        let client = &clients[i];
        assert(cs[i as int] == client@);
        if is_brave_client(client) {
            if let Some(k) = find_last_brave_window(clients, client.pid) {
                assert(fs[k as int] == facts[k as int]@);
                let profiles = &facts[k].profiles;
                let ghost before = out.deep_view();
                if profiles.len() == 0 && count_brave_windows(clients, client.pid) == 1 {
                    out.push("Default".to_owned());
                    assert(out.deep_view() =~= before + seq!["Default"@]);
                } else {
                    let mut more = text::copy_texts(profiles);
                    let ghost added = more.deep_view();
                    out.append(&mut more);
                    assert(out.deep_view() =~= before + added);
                }
            }
        }
        i += 1;
    }
    out
}

fn any_brave(windows: &[SessionClient]) -> (r: bool)
    ensures
        r == has_brave(windows.deep_view()),
{
    let ghost all = windows.deep_view();
    let mut i: usize = 0;
    while i < windows.len()
        invariant
            i <= windows.len(),
            all == windows.deep_view(),
            forall|k: int|
                0 <= k < i ==> !is_brave((#[trigger] all[k]).class) && !is_brave(
                    all[k].initial_class,
                ),
        decreases windows.len() - i,
    {
        assert(all[i as int] == windows[i as int]@);
        if is_brave_class(windows[i].class.as_str()) || is_brave_class(
            windows[i].initial_class.as_str(),
        ) {
            return true;
        }
        i += 1;
    }
    false
}

fn choose_profiles(
    windows: &[SessionClient],
    active: &[String],
    inventory: Vec<BraveProfile>,
    config: &Config,
) -> (r: Vec<BraveProfile>)
    ensures
        r.deep_view() == captured_profiles(
            windows.deep_view(),
            active.deep_view(),
            inventory.deep_view(),
            config@,
        ),
{
    if !any_brave(windows) {
        let none: Vec<BraveProfile> = Vec::new();
        assert(none.deep_view() =~= Seq::<BraveProfileView>::empty());
        return none;
    }
    if let Some(app) = config::app_config_for(config, "brave-browser", "") {
        if let Some(mapping) = &app.profile_workspaces {
            return brave::filter_profiles_by_config(inventory, Some(mapping));
        }
    }
    brave::filter_profiles_by_active_directories(inventory, active)
}

/// Puts a session together from everything that was found out.
pub fn assemble_session(
    name: &str,
    version: String,
    clients: &[HyprClient],
    monitors: &[HyprMonitor],
    facts: &[WindowFacts],
    config: &Config,
    environment: CaptureEnvironment,
) -> (r: Session)
    requires
        facts.len() == clients.len(),
    ensures
        r@ == captured_session(
            name@,
            version@,
            clients.deep_view(),
            monitors.deep_view(),
            facts.deep_view(),
            config@,
            environment@,
        ),
{
    let windows = record_windows(clients, monitors, facts, &config.filters.ignore_classes);
    let active = find_active_directories(clients, facts);
    let profiles = choose_profiles(&windows, &active, environment.brave_inventory, config);
    Session {
        name: name.to_owned(),
        created_at: environment.created_at,
        hyprland_version: version,
        monitors: save_monitors(monitors),
        clients: windows,
        brave_profiles: profiles,
    }
}

/// What a provider may show about a window.
pub open spec fn is_evidence<P: ProcessInfoProvider + ?Sized>(
    process_info: &P,
    client: HyprClientView,
    settings: ConfigView,
    entries: Seq<Seq<char>>,
    evidence: WindowEvidence,
) -> bool {
    &&& is_brave_window(client) ==> process::may_find_profiles(
        process_info,
        client.pid,
        evidence.profiles,
    )
    &&& exists|answer: Result<u64, ProcessError>| #[trigger]
        call_ensures(P::get_start_time, (process_info, client.pid), answer) && evidence.start_time
            == match answer {
            Ok(time) => Some(time),
            Err(_) => None,
        }
    &&& exists|terminal: TerminalView| #[trigger]
        is_launch_of(
            process_info,
            client,
            config::app_for(settings.apps, client.class, client.initial_class),
            entries,
            terminal,
            evidence.launch,
        )
}

/// What a provider may show about all windows.
pub open spec fn is_all_evidence<P: ProcessInfoProvider + ?Sized>(
    process_info: &P,
    clients: Seq<HyprClientView>,
    settings: ConfigView,
    entries: Seq<Seq<char>>,
    evidence: Seq<WindowEvidence>,
) -> bool {
    &&& evidence.len() == clients.len()
    &&& forall|i: int|
        0 <= i < clients.len() ==> #[trigger] is_evidence(
            process_info,
            clients[i],
            settings,
            entries,
            evidence[i],
        )
}

/// A capture that may come of the answers of a compositor and a provider.
pub open spec fn is_capture<H: HyprctlClient + ?Sized, P: ProcessInfoProvider + ?Sized>(
    hyprctl: &H,
    process_info: &P,
    name: Seq<char>,
    settings: ConfigView,
    environment: CaptureEnvironmentView,
    clients: Vec<HyprClient>,
    monitors: Vec<HyprMonitor>,
    version: Result<String, HyprctlError>,
    evidence: Seq<WindowEvidence>,
    r: SessionView,
) -> bool {
    &&& call_ensures(
        H::get_clients,
        (hyprctl,),
        Ok::<Vec<HyprClient>, HyprctlError>(clients),
    )
    &&& call_ensures(
        H::get_monitors,
        (hyprctl,),
        Ok::<Vec<HyprMonitor>, HyprctlError>(monitors),
    )
    &&& call_ensures(H::get_hyprland_version, (hyprctl,), version)
    &&& is_all_evidence(
        process_info,
        clients.deep_view(),
        settings,
        environment.desktop_entries,
        evidence,
    )
    &&& r == captured_session(
        name,
        match version {
            Ok(v) => v@,
            Err(_) => "unknown"@,
        },
        clients.deep_view(),
        monitors.deep_view(),
        evidence,
        settings,
        environment,
    )
}

/// A session that may be captured.
pub open spec fn may_capture<H: HyprctlClient + ?Sized, P: ProcessInfoProvider + ?Sized>(
    hyprctl: &H,
    process_info: &P,
    name: Seq<char>,
    settings: ConfigView,
    environment: CaptureEnvironmentView,
    r: SessionView,
) -> bool {
    exists|
        clients: Vec<HyprClient>,
        monitors: Vec<HyprMonitor>,
        version: Result<String, HyprctlError>,
        evidence: Seq<WindowEvidence>,
    | #[trigger]
        is_capture(
            hyprctl,
            process_info,
            name,
            settings,
            environment,
            clients,
            monitors,
            version,
            evidence,
            r,
        )
}

/// Asks a provider about all windows.
pub fn gather_facts<P: ProcessInfoProvider + ?Sized>(
    clients: &[HyprClient],
    process_info: &P,
    config: &Config,
    desktop_entries: &[String],
) -> (r: Vec<WindowFacts>)
    ensures
        is_all_evidence(
            process_info,
            clients.deep_view(),
            config@,
            desktop_entries.deep_view(),
            r.deep_view(),
        ),
{
    let ghost all = clients.deep_view();
    let ghost entries = desktop_entries.deep_view();
    let mut out: Vec<WindowFacts> = Vec::new();
    let mut i: usize = 0;
    while i < clients.len()
        invariant
            i <= clients.len(),
            all == clients.deep_view(),
            entries == desktop_entries.deep_view(),
            out.len() == i,
            forall|k: int|
                0 <= k < i ==> #[trigger] is_evidence(
                    process_info,
                    all[k],
                    config@,
                    entries,
                    out.deep_view()[k],
                ),
        decreases clients.len() - i,
    {
        let client = &clients[i];
        assert(all[i as int] == client@);
        let profiles = if is_brave_client(client) {
            process::find_profile_directories(process_info, client.pid)
        } else {
            Vec::new()
        };
        let answer = process_info.get_start_time(client.pid);
        assert(call_ensures(P::get_start_time, (process_info, client.pid), answer));
        let start_time = match answer {
            Ok(time) => Some(time),
            Err(_) => None,
        };
        let app = config::app_config_for(
            config,
            client.class.as_str(),
            client.initial_class.as_str(),
        );
        assert(app_view(app) == config::app_for(
            config@.apps,
            client@.class,
            client@.initial_class,
        ));
        let launch = build_launch_info(client, app, process_info, desktop_entries);
        let facts = WindowFacts { profiles, start_time, launch };
        let ghost view = facts@;
        assert(is_evidence(process_info, all[i as int], config@, entries, view));
        let ghost before = out.deep_view();
        out.push(facts);
        proof {
            assert(out.deep_view() =~= before.push(view));
            assert forall|k: int| 0 <= k < i + 1 implies #[trigger] is_evidence(
                process_info,
                all[k],
                config@,
                entries,
                out.deep_view()[k],
            ) by {
                if k < i {
                    assert(is_evidence(process_info, all[k], config@, entries, before[k]));
                }
            }
        }
        i += 1;
    }
    out
}

/// Capture the current Hyprland session state into a [`Session`].
///
/// Windows with an ignored class are left out.  The capture fails when the
/// windows or the monitors cannot be read.
pub fn capture_session<H: HyprctlClient + ?Sized, P: ProcessInfoProvider + ?Sized>(
    name: &str,
    hyprctl: &H,
    process_info: &P,
    config: &Config,
    environment: CaptureEnvironment,
) -> (r: Result<Session, CaptureError>)
    ensures
        match r {
            Ok(session) => may_capture(
                hyprctl,
                process_info,
                name@,
                config@,
                environment@,
                session@,
            ),
            Err(CaptureError::Hyprctl(error)) => {
                ||| call_ensures(
                    H::get_clients,
                    (hyprctl,),
                    Err::<Vec<HyprClient>, HyprctlError>(error),
                )
                ||| call_ensures(
                    H::get_monitors,
                    (hyprctl,),
                    Err::<Vec<HyprMonitor>, HyprctlError>(error),
                )
            },
            Err(_) => false,
        },
{
    let clients = match hyprctl.get_clients() {
        Ok(clients) => clients,
        Err(error) => {
            return Err(CaptureError::Hyprctl(error));
        },
    };
    let monitors = match hyprctl.get_monitors() {
        Ok(monitors) => monitors,
        Err(error) => {
            return Err(CaptureError::Hyprctl(error));
        },
    };
    let answer = hyprctl.get_hyprland_version();
    let ghost told = answer;
    assert(call_ensures(H::get_hyprland_version, (hyprctl,), told));
    let version = match answer {
        Ok(version) => version,
        Err(_) => "unknown".to_owned(),
    };
    let facts = gather_facts(&clients, process_info, config, &environment.desktop_entries);
    let ghost around = environment@;
    let session = assemble_session(
        name,
        version,
        &clients,
        &monitors,
        &facts,
        config,
        environment,
    );
    assert(is_capture(
        hyprctl,
        process_info,
        name@,
        config@,
        around,
        clients,
        monitors,
        told,
        facts.deep_view(),
        session@,
    ));
    assert(may_capture(hyprctl, process_info, name@, config@, around, session@));
    Ok(session)
}

} // verus!
