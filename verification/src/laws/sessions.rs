//! What a saved session holds: every window once, as it stood.

use crate::brave;
use crate::capture;
use crate::capture::{CaptureEnvironmentView, WindowEvidence};
use crate::config;
use crate::config::{AppConfigView, ConfigView};
use crate::hyprctl::{HyprClientView, HyprMonitorView};
use crate::laws::effects;
use crate::laws::effects::Desk;
use crate::lists;
use crate::placement;
use crate::restore::launched;
use crate::session::{BraveProfileView, LaunchInfoView, SessionClientView, SessionView};
use crate::text;
use vstd::prelude::*;

verus! {

// ── A window and its record ────────────────────────────────────────────────

/// Saving a window and placing a new one by what was saved gives the new one
/// the state that the saved one had: its size and place, its workspace, and
/// whether it floats, is pinned or is fullscreen.
pub proof fn law_saved_window_comes_back(
    client: HyprClientView,
    monitors: Seq<HyprMonitorView>,
    profile: Option<Seq<char>>,
    start_time: Option<u64>,
    launch: LaunchInfoView,
    desk: Desk,
)
    requires
        placement::all_plain(desk.window.address),
    ensures
        ({
            let saved = capture::recorded(client, monitors, profile, start_time, launch);
            let after = effects::effects(desk, launched::launch_commands(saved, desk.window, true));
            let window = after.window;
            let workspace = text::trimmed(client.workspace.name);
            let name = text::trimmed(window.workspace.name);
            let numbered = workspace.len() == 0 || text::is_i32_text(workspace);
            let special = text::starts_with_ignoring_case(workspace, "special:"@);
            let marked = text::starts_with_ignoring_case(workspace, "name:"@);
            &&& window.floating == client.floating
            &&& window.pinned == client.pinned
            &&& window.fullscreen == client.fullscreen
            &&& client.fullscreen == 0 ==> window.size == client.size && window.at == client.at
            &&& numbered ==> window.workspace.id == client.workspace.id
            &&& !numbered && special ==> text::same_ignoring_case(name, workspace)
            &&& !numbered && !special && !marked ==> text::same_ignoring_case(name, workspace)
                || text::same_ignoring_case(name, "name:"@ + workspace)
            &&& forall|i: int|
                0 <= i < monitors.len() && (#[trigger] monitors[i]).id == client.monitor
                    && monitors[i].name.len() > 0 && (forall|k: int|
                    i < k < monitors.len() ==> (#[trigger] monitors[k]).id != client.monitor)
                    ==> after.monitor == Some(monitors[i].name)
        }),
{
    let saved = capture::recorded(client, monitors, profile, start_time, launch);
    effects::law_placing_a_launch_puts_the_window_in_place(saved, desk, true);
    assert forall|i: int|
        0 <= i < monitors.len() && (#[trigger] monitors[i]).id == client.monitor
            && monitors[i].name.len() > 0 && (forall|k: int|
            i < k < monitors.len() ==> (#[trigger] monitors[k]).id != client.monitor)
        implies saved.monitor == monitors[i].name by {
        lemma_monitor_with_id(monitors, client.monitor, i, monitors.len() as int);
    }
}

proof fn lemma_monitor_with_id(monitors: Seq<HyprMonitorView>, id: int, i: int, n: int)
    requires
        0 <= i < n <= monitors.len(),
        monitors[i].id == id,
        forall|k: int| i < k < n ==> (#[trigger] monitors[k]).id != id,
    ensures
        capture::monitor_with_id(monitors, id, n) == Some(monitors[i].name),
    decreases n,
{
    if n - 1 > i {
        lemma_monitor_with_id(monitors, id, i, n - 1);
    }
}

proof fn lemma_monitor_unknown(monitors: Seq<HyprMonitorView>, id: int, n: int)
    requires
        0 <= n <= monitors.len(),
        forall|k: int| 0 <= k < n ==> (#[trigger] monitors[k]).id != id,
    ensures
        capture::monitor_with_id(monitors, id, n) is None,
    decreases n,
{
    if n > 0 {
        lemma_monitor_unknown(monitors, id, n - 1);
    }
}

/// A window is saved with what tells it from others, and with the name of its
/// monitor; a class and a title that it never showed at first are those it
/// shows now.
pub proof fn law_saved_window_is_told_from_others(
    client: HyprClientView,
    monitors: Seq<HyprMonitorView>,
    profile: Option<Seq<char>>,
    start_time: Option<u64>,
    launch: LaunchInfoView,
)
    ensures
        ({
            let saved = capture::recorded(client, monitors, profile, start_time, launch);
            &&& saved.address == Some(client.address)
            &&& saved.pid == Some(client.pid)
            &&& saved.stable_id == client.stable_id
            &&& saved.process_start_time == start_time
            &&& saved.class == client.class && saved.title == client.title
            &&& client.initial_class.len() > 0 ==> saved.initial_class == client.initial_class
            &&& client.initial_class.len() == 0 ==> saved.initial_class == client.class
            &&& client.initial_title.len() > 0 ==> saved.initial_title == client.initial_title
            &&& client.initial_title.len() == 0 ==> saved.initial_title == client.title
            &&& saved.focus_history_id == client.focus_history_id
            &&& saved.launch == launch
            &&& saved.profile_directory == profile
            &&& profile is Some ==> !saved.profile_identity_ambiguous
            &&& (forall|k: int|
                0 <= k < monitors.len() ==> (#[trigger] monitors[k]).id != client.monitor)
                ==> effects::number(saved.monitor.skip("monitor-"@.len() as int)) == client.monitor
        }),
{
    if forall|k: int| 0 <= k < monitors.len() ==> (#[trigger] monitors[k]).id != client.monitor {
        lemma_monitor_unknown(monitors, client.monitor, monitors.len() as int);
        let name = capture::monitor_name(monitors, client.monitor);
        effects::law_decimal_text_reads_back(client.monitor);
        assert(name.skip("monitor-"@.len() as int) =~= text::decimal(client.monitor));
    }
}

// ── All windows ────────────────────────────────────────────────────────────

/// No entry of a list of classes names the class, up to case.
pub open spec fn is_unlisted(list: Seq<Seq<char>>, class: Seq<char>) -> bool {
    forall|i: int|
        0 <= i < list.len() && (#[trigger] list[i]).len() > 0 ==> !text::same_ignoring_case(
            list[i],
            class,
        )
}

/// Neither class of a window is listed.
pub open spec fn is_wanted(list: Seq<Seq<char>>, client: HyprClientView) -> bool {
    is_unlisted(list, client.class) && is_unlisted(list, client.initial_class)
}

proof fn lemma_wanted(list: Seq<Seq<char>>, client: HyprClientView)
    ensures
        capture::is_captured(client, list) == is_wanted(list, client),
{
}

/// A record of a window, with what was found out about it.
#[verifier::opaque]
pub open spec fn describes(
    record: SessionClientView,
    client: HyprClientView,
    evidence: WindowEvidence,
) -> bool {
    &&& record.address == Some(client.address)
    &&& record.class == client.class
    &&& record.title == client.title
    &&& record.pid == Some(client.pid)
    &&& record.workspace == client.workspace.id
    &&& record.workspace_name == client.workspace.name
    &&& record.at == client.at
    &&& record.size == client.size
    &&& record.floating == client.floating
    &&& record.fullscreen == client.fullscreen
    &&& record.pinned == client.pinned
    &&& record.focus_history_id == client.focus_history_id
    &&& record.process_start_time == evidence.start_time
    &&& record.launch == evidence.launch
}

/// A record describes one of the first `n` windows, and that one is wanted.
pub open spec fn is_record_of_one(
    record: SessionClientView,
    clients: Seq<HyprClientView>,
    evidence: Seq<WindowEvidence>,
    ignored: Seq<Seq<char>>,
    n: int,
) -> bool {
    exists|i: int|
        0 <= i < n && is_wanted(ignored, clients[i]) && #[trigger] describes(
            record,
            clients[i],
            evidence[i],
        )
}

/// One of the records describes the window.
pub open spec fn has_record(
    records: Seq<SessionClientView>,
    client: HyprClientView,
    evidence: WindowEvidence,
) -> bool {
    exists|j: int| 0 <= j < records.len() && #[trigger] describes(records[j], client, evidence)
}

proof fn lemma_new_record(
    clients: Seq<HyprClientView>,
    monitors: Seq<HyprMonitorView>,
    evidence: Seq<WindowEvidence>,
    ignored: Seq<Seq<char>>,
    n: int,
)
    requires
        0 < n <= clients.len(),
    ensures
        ({
            let records = capture::captured_windows(clients, monitors, evidence, ignored, n);
            let before = capture::captured_windows(clients, monitors, evidence, ignored, n - 1);
            if is_wanted(ignored, clients[n - 1]) {
                &&& records == before.push(records.last())
                &&& describes(records.last(), clients[n - 1], evidence[n - 1])
            } else {
                records == before
            }
        }),
{
    reveal(describes);
    lemma_wanted(ignored, clients[n - 1]);
}

proof fn lemma_in_order(
    clients: Seq<HyprClientView>,
    monitors: Seq<HyprMonitorView>,
    evidence: Seq<WindowEvidence>,
    ignored: Seq<Seq<char>>,
    n: int,
)
    requires
        0 <= n <= clients.len(),
    ensures
        ({
            let records = capture::captured_windows(clients, monitors, evidence, ignored, n);
            let kept = clients.take(n).filter(|c: HyprClientView| is_wanted(ignored, c));
            &&& records.len() == kept.len()
            &&& forall|j: int|
                0 <= j < records.len() ==> (#[trigger] records[j]).address == Some(kept[j].address)
        }),
    decreases n,
{
    let keep = |c: HyprClientView| is_wanted(ignored, c);
    if n == 0 {
        reveal(Seq::filter);
        assert(clients.take(0) =~= Seq::<HyprClientView>::empty());
    } else {
        reveal(describes);
        lemma_in_order(clients, monitors, evidence, ignored, n - 1);
        lemma_new_record(clients, monitors, evidence, ignored, n);
        lists::lemma_filter_step(clients, keep, n - 1);
    }
}

proof fn lemma_records(
    clients: Seq<HyprClientView>,
    monitors: Seq<HyprMonitorView>,
    evidence: Seq<WindowEvidence>,
    ignored: Seq<Seq<char>>,
    n: int,
    i: int,
    j: int,
)
    requires
        0 <= n <= clients.len(),
    ensures
        ({
            let records = capture::captured_windows(clients, monitors, evidence, ignored, n);
            &&& 0 <= j < records.len() ==> is_record_of_one(
                records[j],
                clients,
                evidence,
                ignored,
                n,
            )
            &&& 0 <= i < n && is_wanted(ignored, clients[i]) ==> has_record(
                records,
                clients[i],
                evidence[i],
            )
        }),
    decreases n,
{
    let records = capture::captured_windows(clients, monitors, evidence, ignored, n);
    if n > 0 {
        let before = capture::captured_windows(clients, monitors, evidence, ignored, n - 1);
        lemma_records(clients, monitors, evidence, ignored, n - 1, i, j);
        lemma_new_record(clients, monitors, evidence, ignored, n);
        if 0 <= j < records.len() {
            if j < before.len() {
                assert(records[j] == before[j]);
                let k = choose|k: int|
                    0 <= k < n - 1 && is_wanted(ignored, clients[k]) && #[trigger] describes(
                        before[j],
                        clients[k],
                        evidence[k],
                    );
                assert(describes(records[j], clients[k], evidence[k]));
            } else {
                assert(describes(records[j], clients[n - 1], evidence[n - 1]));
            }
        }
        if 0 <= i < n && is_wanted(ignored, clients[i]) {
            if i < n - 1 {
                let k = choose|k: int|
                    0 <= k < before.len() && #[trigger] describes(
                        before[k],
                        clients[i],
                        evidence[i],
                    );
                assert(records[k] == before[k]);
                assert(describes(records[k], clients[i], evidence[i]));
            } else {
                assert(describes(records[before.len() as int], clients[i], evidence[i]));
            }
        }
    }
}

/// A session holds each open window once, in the order in which the
/// compositor tells them, with what was found out about that window, and it
/// holds no window whose class is ignored.
pub proof fn law_session_holds_every_window_once(
    name: Seq<char>,
    version: Seq<char>,
    clients: Seq<HyprClientView>,
    monitors: Seq<HyprMonitorView>,
    evidence: Seq<WindowEvidence>,
    settings: ConfigView,
    environment: CaptureEnvironmentView,
    i: int,
    j: int,
)
    ensures
        ({
            let records = capture::captured_session(
                name,
                version,
                clients,
                monitors,
                evidence,
                settings,
                environment,
            ).clients;
            let ignored = settings.ignore_classes;
            let kept = clients.filter(|c: HyprClientView| is_wanted(ignored, c));
            let n = clients.len() as int;
            &&& records.len() == kept.len()
            &&& 0 <= j < records.len() ==> records[j].address == Some(kept[j].address)
                && is_record_of_one(records[j], clients, evidence, ignored, n)
            &&& 0 <= i < n && is_wanted(ignored, clients[i]) ==> has_record(
                records,
                clients[i],
                evidence[i],
            )
        }),
{
    let n = clients.len() as int;
    let ignored = settings.ignore_classes;
    lemma_in_order(clients, monitors, evidence, ignored, n);
    lemma_records(clients, monitors, evidence, ignored, n, i, j);
    assert(clients.take(n) =~= clients);
}

/// A session is saved under its name, with its time, the version of the
/// compositor and every monitor as it is.
pub proof fn law_session_tells_where_it_comes_from(
    name: Seq<char>,
    version: Seq<char>,
    clients: Seq<HyprClientView>,
    monitors: Seq<HyprMonitorView>,
    evidence: Seq<WindowEvidence>,
    settings: ConfigView,
    environment: CaptureEnvironmentView,
)
    ensures
        ({
            let session = capture::captured_session(
                name,
                version,
                clients,
                monitors,
                evidence,
                settings,
                environment,
            );
            &&& session.name == name
            &&& session.created_at == environment.created_at
            &&& session.hyprland_version == version
            &&& session.monitors.len() == monitors.len()
            &&& forall|i: int|
                0 <= i < monitors.len() ==> {
                    let saved = #[trigger] session.monitors[i];
                    &&& saved.name == monitors[i].name
                    &&& saved.width == monitors[i].width
                    &&& saved.height == monitors[i].height
                    &&& saved.transform == monitors[i].transform
                    &&& saved.x == monitors[i].x
                    &&& saved.y == monitors[i].y
                }
        }),
{
}

// ── Browser profiles ───────────────────────────────────────────────────────

/// A Brave window of a process.
pub open spec fn is_brave_of(client: HyprClientView, pid: u32) -> bool {
    &&& text::same_ignoring_case(client.class, "brave-browser"@) || text::same_ignoring_case(
        client.initial_class,
        "brave-browser"@,
    )
    &&& client.pid == pid
}

proof fn lemma_one_brave_window(clients: Seq<HyprClientView>, pid: u32, i: int)
    requires
        0 <= i < clients.len(),
        is_brave_of(clients[i], pid),
        forall|k: int| 0 <= k < clients.len() && k != i ==> !is_brave_of(#[trigger] clients[k], pid),
    ensures
        capture::brave_windows(clients, pid) == 1,
        capture::last_brave_window(clients, pid, clients.len() as int) == Some(i),
    decreases clients.len(),
{
    let front = clients.drop_last();
    let last = clients.len() - 1;
    assert(clients.last() == clients[last]);
    lemma_last_brave_window(clients, pid, i, clients.len() as int);
    if i == last {
        lemma_no_brave_window(front, pid);
    } else {
        assert(front[i] == clients[i]);
        assert forall|k: int| 0 <= k < front.len() && k != i implies !is_brave_of(
            #[trigger] front[k],
            pid,
        ) by {
            assert(front[k] == clients[k]);
        }
        lemma_one_brave_window(front, pid, i);
    }
}

proof fn lemma_last_brave_window(clients: Seq<HyprClientView>, pid: u32, i: int, n: int)
    requires
        0 <= i < n <= clients.len(),
        is_brave_of(clients[i], pid),
        forall|k: int| i < k < n ==> !is_brave_of(#[trigger] clients[k], pid),
    ensures
        capture::last_brave_window(clients, pid, n) == Some(i),
    decreases n,
{
    if n - 1 > i {
        assert(!is_brave_of(clients[n - 1], pid));
        lemma_last_brave_window(clients, pid, i, n - 1);
    }
}

proof fn lemma_no_brave_window(clients: Seq<HyprClientView>, pid: u32)
    requires
        forall|k: int| 0 <= k < clients.len() ==> !is_brave_of(#[trigger] clients[k], pid),
    ensures
        capture::brave_windows(clients, pid) == 0,
    decreases clients.len(),
{
    if clients.len() > 0 {
        let front = clients.drop_last();
        assert forall|k: int| 0 <= k < front.len() implies !is_brave_of(#[trigger] front[k], pid) by {
            assert(front[k] == clients[k]);
        }
        assert(!is_brave_of(clients[clients.len() - 1], pid));
        lemma_no_brave_window(front, pid);
    }
}

proof fn lemma_some_brave_window(clients: Seq<HyprClientView>, pid: u32, i: int)
    requires
        0 <= i < clients.len(),
        is_brave_of(clients[i], pid),
    ensures
        capture::brave_windows(clients, pid) >= 1,
    decreases clients.len(),
{
    if i < clients.len() - 1 {
        assert(clients.drop_last()[i] == clients[i]);
        lemma_some_brave_window(clients.drop_last(), pid, i);
    }
}

proof fn lemma_two_brave_windows(clients: Seq<HyprClientView>, pid: u32, i: int, j: int)
    requires
        0 <= i < j < clients.len(),
        is_brave_of(clients[i], pid),
        is_brave_of(clients[j], pid),
    ensures
        capture::brave_windows(clients, pid) >= 2,
    decreases clients.len(),
{
    let front = clients.drop_last();
    assert(front[i] == clients[i]);
    if j < clients.len() - 1 {
        assert(front[j] == clients[j]);
        lemma_two_brave_windows(front, pid, i, j);
    } else {
        lemma_some_brave_window(front, pid, i);
    }
}

/// The profile of a Brave window is saved where it is beyond doubt: the window
/// is the only one of its process, and that process shows one profile, or none
/// and so runs the default one.  Windows that share a process get no profile.
pub proof fn law_profile_is_saved_beyond_doubt(
    clients: Seq<HyprClientView>,
    evidence: Seq<WindowEvidence>,
    i: int,
    j: int,
)
    requires
        0 <= i < clients.len(),
        is_brave_of(clients[i], clients[i].pid),
    ensures
        ({
            let pid = clients[i].pid;
            let profile = capture::profile_of_window(clients, evidence, pid);
            let shown = evidence[i].profiles;
            let alone = forall|k: int|
                0 <= k < clients.len() && k != i ==> !is_brave_of(#[trigger] clients[k], pid);
            &&& alone && shown.len() == 1 ==> profile == Some(shown[0])
            &&& alone && shown.len() == 0 ==> profile == Some("Default"@)
            &&& alone && shown.len() > 1 ==> profile is None
            &&& 0 <= j < clients.len() && j != i && is_brave_of(clients[j], pid) ==> profile is None
        }),
{
    let pid = clients[i].pid;
    if forall|k: int| 0 <= k < clients.len() && k != i ==> !is_brave_of(#[trigger] clients[k], pid) {
        lemma_one_brave_window(clients, pid, i);
    }
    if 0 <= j < clients.len() && j != i && is_brave_of(clients[j], pid) {
        if i < j {
            lemma_two_brave_windows(clients, pid, i, j);
        } else {
            lemma_two_brave_windows(clients, pid, j, i);
        }
    }
}

/// A Brave window without a profile is marked as one in doubt, and no other
/// window is.
pub proof fn law_doubt_is_marked(
    client: HyprClientView,
    monitors: Seq<HyprMonitorView>,
    profile: Option<Seq<char>>,
    start_time: Option<u64>,
    launch: LaunchInfoView,
)
    ensures
        capture::recorded(
            client,
            monitors,
            profile,
            start_time,
            launch,
        ).profile_identity_ambiguous <==> profile is None && is_brave_of(client, client.pid),
{
}

/// A filtered list holds what passes and nothing else.
proof fn lemma_filter_holds<A>(s: Seq<A>, keep: spec_fn(A) -> bool, x: A)
    ensures
        s.filter(keep).contains(x) <==> s.contains(x) && keep(x),
{
    if s.filter(keep).contains(x) {
        let k = choose|k: int| 0 <= k < s.filter(keep).len() && s.filter(keep)[k] == x;
        s.lemma_filter_pred(keep, k);
        s.lemma_filter_contains_rev(keep, x);
    }
    if s.contains(x) && keep(x) {
        let i = choose|i: int| 0 <= i < s.len() && s[i] == x;
        s.lemma_filter_contains(keep, i);
    }
}

/// With a workspace mapping a profile is kept exactly where the mapping names
/// its directory; without one all are.  By the directories in use a profile is
/// kept exactly where its directory is one of them, up to case.
pub proof fn law_profiles_are_filtered(
    profiles: Seq<BraveProfileView>,
    mapping: Seq<(Seq<char>, i32)>,
    active: Seq<Seq<char>>,
    profile: BraveProfileView,
)
    ensures
        brave::with_mapping(profiles, Some(mapping)).contains(profile) <==> profiles.contains(
            profile,
        ) && exists|k: int| 0 <= k < mapping.len() && (#[trigger] mapping[k]).0
            == profile.directory,
        brave::with_mapping(profiles, None) == profiles,
        brave::in_use(profiles, active).contains(profile) <==> profiles.contains(profile) && exists|
            k: int,
        |
            0 <= k < active.len() && text::same_ignoring_case(
                #[trigger] active[k],
                profile.directory,
            ),
{
    lemma_filter_holds(
        profiles,
        |p: BraveProfileView| lists::value_at(mapping, p.directory) is Some,
        profile,
    );
    lemma_filter_holds(
        profiles,
        |p: BraveProfileView| brave::is_active(active, p.directory),
        profile,
    );
    lemma_key_is_there(mapping, profile.directory, 0);
}

proof fn lemma_key_is_there<T>(entries: Seq<(Seq<char>, T)>, key: Seq<char>, i: int)
    requires
        0 <= i <= entries.len(),
    ensures
        lists::key_from(entries, key, i) is Some <==> exists|k: int|
            i <= k < entries.len() && (#[trigger] entries[k]).0 == key,
    decreases entries.len() - i,
{
    if i < entries.len() && entries[i].0 != key {
        lemma_key_is_there(entries, key, i + 1);
    }
}

/// A session without a Brave window lists no profile; one with a Brave window
/// lists the profiles that a workspace is configured for, or else those that
/// the windows were seen to use.
pub proof fn law_session_lists_profiles_of_open_browsers(
    windows: Seq<SessionClientView>,
    active: Seq<Seq<char>>,
    inventory: Seq<BraveProfileView>,
    settings: ConfigView,
    app: AppConfigView,
    i: int,
)
    ensures
        ({
            let listed = capture::captured_profiles(windows, active, inventory, settings);
            let none = forall|k: int|
                0 <= k < windows.len() ==> !text::same_ignoring_case(
                    (#[trigger] windows[k]).class,
                    "brave-browser"@,
                ) && !text::same_ignoring_case(windows[k].initial_class, "brave-browser"@);
            let some = 0 <= i < windows.len() && (text::same_ignoring_case(
                windows[i].class,
                "brave-browser"@,
            ) || text::same_ignoring_case(windows[i].initial_class, "brave-browser"@));
            &&& none ==> listed.len() == 0
            &&& some && settings.apps.len() == 0 ==> listed == brave::in_use(inventory, active)
            &&& some && settings.apps.len() > 0 && settings.apps[0] == ("brave-browser"@, app)
                && app.profile_workspaces is Some ==> listed == brave::with_mapping(
                inventory,
                app.profile_workspaces,
            )
            &&& some && settings.apps.len() > 0 && settings.apps[0] == ("brave-browser"@, app)
                && app.profile_workspaces is None ==> listed == brave::in_use(inventory, active)
        }),
{
    if 0 <= i < windows.len() && (text::same_ignoring_case(windows[i].class, "brave-browser"@)
        || text::same_ignoring_case(windows[i].initial_class, "brave-browser"@)) {
        assert(capture::is_brave(windows[i].class) || capture::is_brave(windows[i].initial_class));
    }
    let apps = settings.apps;
    if apps.len() == 0 {
        lemma_key_is_there(apps, "brave-browser"@, 0);
        lemma_key_is_there(apps, ""@, 0);
    }
}

/// The settings of an application are those under its class; where there are
/// none, those under its initial class; where there are none either, those of
/// the first application that bears one of the two names in another case.
pub proof fn law_settings_are_found_by_class(
    apps: Seq<(Seq<char>, AppConfigView)>,
    class: Seq<char>,
    initial_class: Seq<char>,
    i: int,
)
    requires
        0 <= i < apps.len(),
    ensures
        ({
            let found = config::app_for(apps, class, initial_class);
            let first = |name: Seq<char>|
                apps[i].0 == name && forall|k: int| 0 <= k < i ==> (#[trigger] apps[k]).0 != name;
            let lacks = |name: Seq<char>|
                forall|k: int| 0 <= k < apps.len() ==> (#[trigger] apps[k]).0 != name;
            let alike = |k: int|
                text::same_ignoring_case(apps[k].0, class) || text::same_ignoring_case(
                    apps[k].0,
                    initial_class,
                );
            &&& first(class) ==> found == Some(apps[i].1)
            &&& lacks(class) && first(initial_class) ==> found == Some(apps[i].1)
            &&& lacks(class) && lacks(initial_class) && alike(i) && (forall|k: int|
                0 <= k < i ==> !#[trigger] alike(k)) ==> found == Some(apps[i].1)
            &&& (forall|k: int| 0 <= k < apps.len() ==> !#[trigger] alike(k)) ==> found is None
        }),
{
    lemma_key_is_there(apps, class, 0);
    lemma_key_is_there(apps, initial_class, 0);
    lemma_first_key(apps, class, 0, i);
    lemma_first_key(apps, initial_class, 0, i);
    lemma_first_alike(apps, class, initial_class, 0, i);
    let alike = |k: int|
        text::same_ignoring_case(apps[k].0, class) || text::same_ignoring_case(
            apps[k].0,
            initial_class,
        );
    if forall|k: int| 0 <= k < apps.len() ==> !#[trigger] alike(k) {
        lemma_none_alike(apps, class, initial_class, 0);
        assert forall|k: int| 0 <= k < apps.len() implies (#[trigger] apps[k]).0 != class
            && apps[k].0 != initial_class by {
            assert(!alike(k));
        }
    }
}

proof fn lemma_first_key<T>(entries: Seq<(Seq<char>, T)>, key: Seq<char>, from: int, i: int)
    requires
        0 <= from <= i < entries.len(),
    ensures
        entries[i].0 == key && (forall|k: int|
            from <= k < i ==> (#[trigger] entries[k]).0 != key) ==> lists::key_from(
            entries,
            key,
            from,
        ) == Some(i),
    decreases i - from,
{
    if from < i {
        lemma_first_key(entries, key, from + 1, i);
    }
}

proof fn lemma_first_alike(
    apps: Seq<(Seq<char>, AppConfigView)>,
    class: Seq<char>,
    initial_class: Seq<char>,
    from: int,
    i: int,
)
    requires
        0 <= from <= i < apps.len(),
    ensures
        ({
            let alike = |k: int|
                text::same_ignoring_case(apps[k].0, class) || text::same_ignoring_case(
                    apps[k].0,
                    initial_class,
                );
            alike(i) && (forall|k: int| from <= k < i ==> !#[trigger] alike(k))
                ==> config::app_ignoring_case(apps, class, initial_class, from) == Some(apps[i].1)
        }),
    decreases i - from,
{
    let alike = |k: int|
        text::same_ignoring_case(apps[k].0, class) || text::same_ignoring_case(
            apps[k].0,
            initial_class,
        );
    if from < i {
        lemma_first_alike(apps, class, initial_class, from + 1, i);
        if alike(i) && (forall|k: int| from <= k < i ==> !#[trigger] alike(k)) {
            assert(!alike(from));
        }
    }
}

proof fn lemma_none_alike(
    apps: Seq<(Seq<char>, AppConfigView)>,
    class: Seq<char>,
    initial_class: Seq<char>,
    from: int,
)
    requires
        0 <= from <= apps.len(),
        ({
            let alike = |k: int|
                text::same_ignoring_case(apps[k].0, class) || text::same_ignoring_case(
                    apps[k].0,
                    initial_class,
                );
            forall|k: int| from <= k < apps.len() ==> !#[trigger] alike(k)
        }),
    ensures
        config::app_ignoring_case(apps, class, initial_class, from) is None,
    decreases apps.len() - from,
{
    let alike = |k: int|
        text::same_ignoring_case(apps[k].0, class) || text::same_ignoring_case(
            apps[k].0,
            initial_class,
        );
    if from < apps.len() {
        assert(!alike(from));
        lemma_none_alike(apps, class, initial_class, from + 1);
    }
}

/// Every profile that the process of a Brave window shows counts as in use,
/// and so does the default one where a window is alone and its process shows
/// none.
pub proof fn law_shown_profiles_are_in_use(
    clients: Seq<HyprClientView>,
    evidence: Seq<WindowEvidence>,
    i: int,
    k: int,
)
    requires
        0 <= i < clients.len(),
        is_brave_of(clients[i], clients[i].pid),
        forall|j: int|
            0 <= j < clients.len() && j != i ==> !is_brave_of(
                #[trigger] clients[j],
                clients[i].pid,
            ),
    ensures
        ({
            let active = capture::active_directories(clients, evidence, clients.len() as int);
            let shown = evidence[i].profiles;
            &&& 0 <= k < shown.len() ==> active.contains(shown[k])
            &&& shown.len() == 0 ==> active.contains("Default"@)
        }),
{
    lemma_one_brave_window(clients, clients[i].pid, i);
    let profiles = capture::active_profiles(evidence[i].profiles, 1);
    if evidence[i].profiles.len() == 0 {
        assert(profiles[0] == "Default"@);
        lemma_active(clients, evidence, i, 0, clients.len() as int);
    } else if 0 <= k < evidence[i].profiles.len() {
        lemma_active(clients, evidence, i, k, clients.len() as int);
    }
}

proof fn lemma_active(
    clients: Seq<HyprClientView>,
    evidence: Seq<WindowEvidence>,
    i: int,
    k: int,
    n: int,
)
    requires
        0 <= i < n <= clients.len(),
        is_brave_of(clients[i], clients[i].pid),
        capture::process_profiles(clients, evidence, clients[i].pid) == Some(evidence[i].profiles),
        capture::brave_windows(clients, clients[i].pid) == 1,
        0 <= k < capture::active_profiles(evidence[i].profiles, 1).len(),
    ensures
        capture::active_directories(clients, evidence, n).contains(
            capture::active_profiles(evidence[i].profiles, 1)[k],
        ),
    decreases n,
{
    let x = capture::active_profiles(evidence[i].profiles, 1)[k];
    let before = capture::active_directories(clients, evidence, n - 1);
    let after = capture::active_directories(clients, evidence, n);
    if i < n - 1 {
        lemma_active(clients, evidence, i, k, n - 1);
        let j = choose|j: int| 0 <= j < before.len() && before[j] == x;
        assert(after[j] == x);
    } else {
        assert(after[before.len() + k] == x);
    }
}

} // verus!
