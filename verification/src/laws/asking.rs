//! What is told of a window is what its own process tells.

use crate::capture;
use crate::capture::{CaptureEnvironmentView, TerminalView, WindowEvidence};
use crate::config::{AppConfigView, ConfigView};
use crate::hyprctl::{HyprClient, HyprClientView, HyprMonitor, HyprctlClient, HyprctlError};
use crate::process;
use crate::process::{ChildProcess, ProcessError, ProcessInfoProvider};
use crate::restore::launched;
use crate::restore::launched::CandidateView;
use crate::restore::observe;
use crate::restore::observe::{ProcessState, SightingView};
use crate::restore::report::LaunchedProcess;
use crate::session::{LaunchInfoView, SessionView};
use vstd::prelude::*;

verus! {

/// A provider tells one start time of a process.
pub open spec fn tells_start<P: ProcessInfoProvider + ?Sized>(
    provider: &P,
    pid: u32,
    time: Option<u64>,
) -> bool {
    forall|answer: Result<u64, ProcessError>| #[trigger]
        call_ensures(P::get_start_time, (provider, pid), answer) ==> match answer {
            Ok(t) => time == Some(t),
            Err(_) => time is None,
        }
}

/// A provider tells one command line of a process.
pub open spec fn tells_command<P: ProcessInfoProvider + ?Sized>(
    provider: &P,
    pid: u32,
    command: Option<Seq<char>>,
) -> bool {
    forall|answer: Result<String, ProcessError>| #[trigger]
        call_ensures(P::get_cmdline, (provider, pid), answer) ==> match answer {
            Ok(c) => command == Some(c@),
            Err(_) => command is None,
        }
}

/// A provider tells one working directory of a process.
pub open spec fn tells_directory<P: ProcessInfoProvider + ?Sized>(
    provider: &P,
    pid: u32,
    directory: Option<Seq<char>>,
) -> bool {
    forall|answer: Result<String, ProcessError>| #[trigger]
        call_ensures(P::get_cwd, (provider, pid), answer) ==> match answer {
            Ok(d) => directory == Some(d@),
            Err(_) => directory is None,
        }
}

/// A provider tells these descendants of a process.
pub open spec fn tells_below<P: ProcessInfoProvider + ?Sized>(
    provider: &P,
    pid: u32,
    below: Option<Seq<process::ChildProcessView>>,
) -> bool {
    forall|answer: Result<Vec<ChildProcess>, ProcessError>| #[trigger]
        call_ensures(P::get_descendants, (provider, pid), answer) ==> match answer {
            Ok(list) => below == Some(list.deep_view()),
            Err(_) => below is None,
        }
}

// ── Observing ──────────────────────────────────────────────────────────────

/// What is seen of a window is what the provider tells of the window's own
/// process: its start time and its command line.  It works in the directory of
/// the only shell below it, and without one in its own.
pub proof fn law_window_is_seen_through_its_process<P: ProcessInfoProvider + ?Sized>(
    provider: &P,
    client: HyprClientView,
    seen: SightingView,
    time: Option<u64>,
    command: Option<Seq<char>>,
    directory: Option<Seq<char>>,
    below: Option<Seq<process::ChildProcessView>>,
)
    requires
        observe::may_sight(provider, client, seen),
        tells_start(provider, client.pid, time),
        tells_command(provider, client.pid, command),
        tells_directory(provider, client.pid, directory),
        tells_below(provider, client.pid, below),
    ensures
        seen.start_time == time,
        seen.command == command,
        below is None || process::terminal_shell(below->0) is None ==> seen.cwd == directory,
        below is Some && process::terminal_shell(below->0) is Some ==> seen.cwd == Some(
            (process::terminal_shell(below->0)->0).cwd,
        ),
{
    let t = choose|answer: Result<u64, ProcessError>|
        #[trigger] call_ensures(P::get_start_time, (provider, client.pid), answer)
            && seen.start_time == observe::told(answer);
    assert(call_ensures(P::get_start_time, (provider, client.pid), t));
    let c = choose|answer: Result<String, ProcessError>|
        #[trigger] call_ensures(P::get_cmdline, (provider, client.pid), answer) && seen.command
            == observe::told(answer).deep_view();
    assert(call_ensures(P::get_cmdline, (provider, client.pid), c));
    let b = choose|answer: Result<Vec<ChildProcess>, ProcessError>|
        #[trigger] call_ensures(P::get_descendants, (provider, client.pid), answer) && (
        match answer {
            Ok(list) => match process::terminal_shell(list.deep_view()) {
                Some(shell) => seen.cwd == Some(shell.cwd),
                None => observe::may_have_cwd(provider, client.pid, seen.cwd),
            },
            Err(_) => observe::may_have_cwd(provider, client.pid, seen.cwd),
        });
    assert(call_ensures(P::get_descendants, (provider, client.pid), b));
    if observe::may_have_cwd(provider, client.pid, seen.cwd) {
        let d = choose|own: Result<String, ProcessError>|
            #[trigger] call_ensures(P::get_cwd, (provider, client.pid), own) && seen.cwd
                == observe::told(own).deep_view();
        assert(call_ensures(P::get_cwd, (provider, client.pid), d));
    }
}

// ── Capturing ──────────────────────────────────────────────────────────────

/// What is saved with a window is what the provider tells of its own process:
/// its start time; and for a terminal whose settings ask for it, the directory
/// of the only shell below it and the oldest command below that shell.
pub proof fn law_window_is_saved_through_its_process<P: ProcessInfoProvider + ?Sized>(
    provider: &P,
    client: HyprClientView,
    settings: ConfigView,
    entries: Seq<Seq<char>>,
    evidence: WindowEvidence,
    time: Option<u64>,
)
    requires
        capture::is_evidence(provider, client, settings, entries, evidence),
        tells_start(provider, client.pid, time),
    ensures
        evidence.start_time == time,
{
    let t = choose|answer: Result<u64, ProcessError>| #[trigger]
        call_ensures(P::get_start_time, (provider, client.pid), answer) && evidence.start_time
            == match answer {
            Ok(time) => Some(time),
            Err(_) => None,
        };
    assert(call_ensures(P::get_start_time, (provider, client.pid), t));
}

/// A terminal is opened again in the directory of the only shell below it, and
/// the hint is the oldest command below that shell.
pub proof fn law_terminal_is_saved_through_its_shell<P: ProcessInfoProvider + ?Sized>(
    provider: &P,
    client: HyprClientView,
    app: AppConfigView,
    entries: Seq<Seq<char>>,
    terminal: TerminalView,
    launch: LaunchInfoView,
    below: Seq<process::ChildProcessView>,
    shell: process::ChildProcessView,
    children: Seq<process::ChildProcessView>,
)
    requires
        capture::is_launch_of(provider, client, Some(app), entries, terminal, launch),
        capture::desktop_for(client, Some(app), entries) is None,
        app.capture_cwd == Some(true),
        app.capture_last_command == Some(true),
        app.hint_template is None,
        tells_below(provider, client.pid, Some(below)),
        process::terminal_shell(below) == Some(shell),
        tells_below(provider, shell.pid, Some(children)),
    ensures
        launch.args.len() == 2,
        launch.args[1] == shell.cwd,
        capture::running_command(children) is Some ==> launch.hint == Some(
            children[capture::running_command(children)->0].cmdline,
        ),
{
    let a = choose|answer: Result<Vec<ChildProcess>, ProcessError>|
        #[trigger] call_ensures(P::get_descendants, (provider, client.pid), answer)
            && terminal.shell == match answer {
            Ok(list) => process::terminal_shell(list.deep_view()),
            Err(_) => None,
        };
    assert(call_ensures(P::get_descendants, (provider, client.pid), a));
    assert(terminal.shell == Some(shell));
    let b = choose|answer: Result<Vec<ChildProcess>, ProcessError>|
        #[trigger] call_ensures(P::get_descendants, (provider, shell.pid), answer)
            && terminal.below == match answer {
            Ok(list) => Some(list.deep_view()),
            Err(_) => None,
        };
    assert(call_ensures(P::get_descendants, (provider, shell.pid), b));
    assert(terminal.below == Some(children));
}

/// A session holds the windows that the compositor told, and its version, or
/// the word for an unknown one where it told none.
pub proof fn law_capture_tells_what_the_compositor_told<
    H: HyprctlClient + ?Sized,
    P: ProcessInfoProvider + ?Sized,
>(
    hyprctl: &H,
    provider: &P,
    name: Seq<char>,
    settings: ConfigView,
    environment: CaptureEnvironmentView,
    clients: Vec<HyprClient>,
    monitors: Vec<HyprMonitor>,
    version: Result<String, HyprctlError>,
    evidence: Seq<WindowEvidence>,
    session: SessionView,
)
    requires
        capture::is_capture(
            hyprctl,
            provider,
            name,
            settings,
            environment,
            clients,
            monitors,
            version,
            evidence,
            session,
        ),
    ensures
        session.name == name,
        session.created_at == environment.created_at,
        session.monitors.len() == monitors.len(),
        session.clients.len() <= clients.len(),
        version is Err ==> session.hyprland_version == "unknown"@,
        version is Ok ==> session.hyprland_version == version->Ok_0@,
        call_ensures(H::get_clients, (hyprctl,), Ok::<Vec<HyprClient>, HyprctlError>(clients)),
{
    lemma_no_more_windows(
        clients.deep_view(),
        monitors.deep_view(),
        evidence,
        settings.ignore_classes,
        clients.len() as int,
    );
}

proof fn lemma_no_more_windows(
    clients: Seq<HyprClientView>,
    monitors: Seq<crate::hyprctl::HyprMonitorView>,
    evidence: Seq<WindowEvidence>,
    ignored: Seq<Seq<char>>,
    n: int,
)
    requires
        0 <= n <= clients.len(),
    ensures
        capture::captured_windows(clients, monitors, evidence, ignored, n).len() <= n,
    decreases n,
{
    if n > 0 {
        lemma_no_more_windows(clients, monitors, evidence, ignored, n - 1);
    }
}

// ── Launches ───────────────────────────────────────────────────────────────

/// A process counts as the launched one only while that is the process that
/// was launched: the same start time now as then.  Where no start time was
/// told on either side it counts only where start times cannot be relied on.
pub proof fn law_launched_process_is_known_by_its_start(
    launched: LaunchedProcess,
    state: ProcessState,
    then: u64,
    now: u64,
)
    ensures
        launched.start_time == Some(then) && state.start_time == Some(now)
            ==> (launched::is_same_root(launched, state) <==> then == now),
        launched.start_time is None && state.start_time is None ==> (launched::is_same_root(
            launched,
            state,
        ) <==> !state.reliable),
        launched.start_time is Some && state.start_time is None ==> !launched::is_same_root(
            launched,
            state,
        ),
        launched.start_time is None && state.start_time is Some ==> !launched::is_same_root(
            launched,
            state,
        ),
{
}

/// A window of the launched process is related to the launch while that
/// process lives; without a launched process, and after another one took its
/// number, none is.
pub proof fn law_windows_of_the_launched_process_are_related<P: ProcessInfoProvider + ?Sized>(
    provider: &P,
    launched: LaunchedProcess,
    candidate: CandidateView,
    root: u32,
    then: u64,
    now: u64,
)
    requires
        launched::may_examine(provider, launched, candidate),
        launched.pid == Some(root),
        launched.start_time == Some(then),
        tells_start(provider, root, Some(now)),
    ensures
        then == now && candidate.client.pid == root ==> candidate.related,
        then != now ==> !candidate.related,
{
    let state = choose|state: ProcessState|
        {
            &&& #[trigger] observe::may_state(provider, root, state)
            &&& if !launched::is_same_root(launched, state) {
                !candidate.related
            } else if root == candidate.client.pid {
                candidate.related
            } else {
                call_ensures(
                    P::is_process_related,
                    (provider, root, candidate.client.pid),
                    candidate.related,
                )
            }
        };
    assert(observe::may_state(provider, root, state));
    let t = choose|answer: Result<u64, ProcessError>|
        #[trigger] call_ensures(P::get_start_time, (provider, root), answer) && state.start_time
            == observe::told(answer);
    assert(call_ensures(P::get_start_time, (provider, root), t));
}

/// Without a launched process no window is related to the launch.
pub proof fn law_nothing_is_related_without_a_process<P: ProcessInfoProvider + ?Sized>(
    provider: &P,
    launched: LaunchedProcess,
    candidate: CandidateView,
)
    requires
        launched::may_examine(provider, launched, candidate),
        launched.pid is None,
    ensures
        !candidate.related,
{
}

} // verus!
