//! Looking at the open windows.

use crate::capture;
use crate::config::{Config, ConfigView};
use crate::hyprctl::{HyprClient, HyprClientView, HyprMonitor, HyprMonitorView, HyprctlClient,
    HyprctlError};
use crate::lists;
use crate::lists::Ordered;
use crate::process;
use crate::process::{ChildProcess, ProcessError, ProcessInfoProvider, ProfileDiscovery,
    ProfileDiscoveryView};
use crate::restore::identity;
use crate::restore::identity::{ObservedClient, ObservedClientView};
use crate::restore::report;
use crate::restore::report::{RestoreError, RestoreErrorView};
use crate::restore::windows;
use crate::session::{SessionClient, SessionClientView};
use crate::text;
use vstd::prelude::*;

verus! {

// ── What the processes show ────────────────────────────────────────────────

/// What was answered, if anything was.
pub open spec fn told<T>(answer: Result<T, ProcessError>) -> Option<T> {
    match answer {
        Ok(value) => Some(value),
        Err(_) => None,
    }
}

/// What is known of the process of a window.
#[derive(Debug)]
pub struct Sighting {
    /// Its working directory.
    pub cwd: Option<String>,
    /// Its start time.
    pub start_time: Option<u64>,
    /// Its command line.
    pub command: Option<String>,
    /// The browser profiles found in it; asked for of Brave windows only.
    pub discovery: ProfileDiscovery,
}

#[verifier::ext_equal]
pub ghost struct SightingView {
    pub cwd: Option<Seq<char>>,
    pub start_time: Option<u64>,
    pub command: Option<Seq<char>>,
    pub discovery: ProfileDiscoveryView,
}

impl View for Sighting {
    type V = SightingView;

    open spec fn view(&self) -> SightingView {
        SightingView {
            cwd: self.cwd.deep_view(),
            start_time: self.start_time,
            command: self.command.deep_view(),
            discovery: self.discovery@,
        }
    }
}

impl DeepView for Sighting {
    type V = SightingView;

    open spec fn deep_view(&self) -> SightingView {
        self@
    }
}

/// The directory in which a provider may say that a window works: that of its
/// shell, else its own.
pub open spec fn may_work_in<P: ProcessInfoProvider + ?Sized>(
    provider: &P,
    pid: u32,
    cwd: Option<Seq<char>>,
) -> bool {
    exists|below: Result<Vec<ChildProcess>, ProcessError>|
        #[trigger] call_ensures(P::get_descendants, (provider, pid), below) && (match below {
            Ok(list) => match process::terminal_shell(list.deep_view()) {
                Some(shell) => cwd == Some(shell.cwd),
                None => may_have_cwd(provider, pid, cwd),
            },
            Err(_) => may_have_cwd(provider, pid, cwd),
        })
}

/// The directory in which a provider may say that a process works.
pub open spec fn may_have_cwd<P: ProcessInfoProvider + ?Sized>(
    provider: &P,
    pid: u32,
    cwd: Option<Seq<char>>,
) -> bool {
    exists|own: Result<String, ProcessError>|
        #[trigger] call_ensures(P::get_cwd, (provider, pid), own) && cwd == told(own).deep_view()
}

/// The start time that a provider may tell.
pub open spec fn may_have_started<P: ProcessInfoProvider + ?Sized>(
    provider: &P,
    pid: u32,
    start_time: Option<u64>,
) -> bool {
    exists|answer: Result<u64, ProcessError>|
        #[trigger] call_ensures(P::get_start_time, (provider, pid), answer) && start_time == told(
            answer,
        )
}

/// The command line that a provider may tell.
pub open spec fn may_run<P: ProcessInfoProvider + ?Sized>(
    provider: &P,
    pid: u32,
    command: Option<Seq<char>>,
) -> bool {
    exists|answer: Result<String, ProcessError>|
        #[trigger] call_ensures(P::get_cmdline, (provider, pid), answer) && command == told(
            answer,
        ).deep_view()
}

/// The profiles that a provider may show.
pub open spec fn may_discover<P: ProcessInfoProvider + ?Sized>(
    provider: &P,
    pid: u32,
    found: ProfileDiscoveryView,
) -> bool {
    exists|answers: Seq<process::ProfileAnswer>| #[trigger]
        process::is_discovery(provider, pid, answers, found)
}

/// What a provider may show of a window.
pub open spec fn may_sight<P: ProcessInfoProvider + ?Sized>(
    provider: &P,
    client: HyprClientView,
    seen: SightingView,
) -> bool {
    &&& may_work_in(provider, client.pid, seen.cwd)
    &&& may_have_started(provider, client.pid, seen.start_time)
    &&& may_run(provider, client.pid, seen.command)
    &&& capture::is_brave_window(client) ==> may_discover(provider, client.pid, seen.discovery)
}

/// The directory that a window works in: that of the shell in a terminal, or
/// else that of its process.
pub fn observe_cwd<P: ProcessInfoProvider + ?Sized>(client: &HyprClient, process_info: &P) -> (r:
    Option<String>)
    ensures
        may_work_in(process_info, client@.pid, r.deep_view()),
{
    let shell = process::select_terminal_process(process_info, client.pid);
    let ghost below = choose|answer: Result<Vec<ChildProcess>, ProcessError>|
        {
            &&& #[trigger] call_ensures(P::get_descendants, (process_info, client.pid), answer)
            &&& match answer {
                Ok(list) => shell.deep_view() == process::terminal_shell(list.deep_view()),
                Err(_) => shell is None,
            }
        };
    assert(call_ensures(P::get_descendants, (process_info, client.pid), below));
    match shell {
        Some(child) => Some(child.cwd),
        None => {
            let own = process_info.get_cwd(client.pid);
            assert(call_ensures(P::get_cwd, (process_info, client.pid), own));
            let r = match own {
                Ok(cwd) => Some(cwd),
                Err(_) => None,
            };
            assert(may_have_cwd(process_info, client.pid, r.deep_view()));
            r
        },
    }
}

/// Reads the start time of a process.
pub fn observe_start_time<P: ProcessInfoProvider + ?Sized>(process_info: &P, pid: u32) -> (r:
    Option<u64>)
    ensures
        may_have_started(process_info, pid, r),
{
    let answer = process_info.get_start_time(pid);
    assert(call_ensures(P::get_start_time, (process_info, pid), answer));
    match answer {
        Ok(time) => Some(time),
        Err(_) => None,
    }
}

/// Reads the command line of a process.
pub fn observe_command<P: ProcessInfoProvider + ?Sized>(process_info: &P, pid: u32) -> (r: Option<
    String,
>)
    ensures
        may_run(process_info, pid, r.deep_view()),
{
    let answer = process_info.get_cmdline(pid);
    assert(call_ensures(P::get_cmdline, (process_info, pid), answer));
    match answer {
        Ok(command) => Some(command),
        Err(_) => None,
    }
}

/// Asks a provider about the process of a window.
pub fn sight<P: ProcessInfoProvider + ?Sized>(client: &HyprClient, process_info: &P) -> (r:
    Sighting)
    ensures
        may_sight(process_info, client@, r@),
{
    let cwd = observe_cwd(client, process_info);
    let start_time = observe_start_time(process_info, client.pid);
    let command = observe_command(process_info, client.pid);
    let discovery = if capture::is_brave_client(client) {
        process::find_profile_discovery(process_info, client.pid)
    } else {
        ProfileDiscovery { profiles: Vec::new(), complete: false }
    };
    Sighting { cwd, start_time, command, discovery }
}

// ── Observed windows ───────────────────────────────────────────────────────

/// The name of a monitor that is known.
pub open spec fn known_monitor(monitors: Seq<HyprMonitorView>, id: int) -> Option<Seq<char>> {
    capture::monitor_with_id(monitors, id, monitors.len() as int)
}

/// A window as it is observed.  The profile of a Brave window identifies it
/// only where its process shows one profile, completely, and has one window.
pub open spec fn observed_window(
    client: HyprClientView,
    heeded: Seq<HyprClientView>,
    monitors: Seq<HyprMonitorView>,
    seen: SightingView,
) -> ObservedClientView {
    let brave = capture::is_brave_window(client);
    let profiles = seen.discovery.profiles;
    ObservedClientView {
        client,
        monitor_name: known_monitor(monitors, client.monitor),
        cwd: seen.cwd,
        profile_directory: if brave {
            process::only_profile(profiles)
        } else {
            None
        },
        process_start_time: seen.start_time,
        profile_identity_ambiguous: brave && !(profiles.len() == 1 && seen.discovery.complete
            && capture::brave_windows(heeded, client.pid) == 1),
        process_command: seen.command,
    }
}

/// Windows are observed in the order of their addresses.
impl Ordered for ObservedClient {
    open spec fn precedes(a: ObservedClientView, b: ObservedClientView) -> bool {
        text::comes_before(a.client.address, b.client.address)
    }

    fn goes_before(&self, other: &Self) -> (r: bool) {
        text::is_before(self.client.address.as_str(), other.client.address.as_str())
    }
}

/// The windows that belong to no ignored application.
pub open spec fn heeded_windows(
    clients: Seq<HyprClientView>,
    settings: ConfigView,
) -> Seq<HyprClientView> {
    clients.filter(|c: HyprClientView| windows::is_heeded(settings, c))
}

/// The windows as they are observed; one sighting for each heeded window.
pub open spec fn observed_windows(
    heeded: Seq<HyprClientView>,
    monitors: Seq<HyprMonitorView>,
    seen: Seq<SightingView>,
) -> Seq<ObservedClientView> {
    lists::sorted(
        Seq::new(
            heeded.len(),
            |i: int| observed_window(heeded[i], heeded, monitors, seen[i]),
        ),
        |a: ObservedClientView, b: ObservedClientView| ObservedClient::precedes(a, b),
    )
}

/// Picks the windows that belong to no ignored application.
pub fn pick_heeded(clients: &[HyprClient], config: &Config) -> (r: Vec<HyprClient>)
    ensures
        r.deep_view() == heeded_windows(clients.deep_view(), config@),
{
    let ghost all = clients.deep_view();
    let ghost keep = |c: HyprClientView| windows::is_heeded(config@, c);
    let mut out: Vec<HyprClient> = Vec::new();
    let mut i: usize = 0;
    proof {
        reveal(Seq::filter);
        assert(out.deep_view() =~= all.take(0).filter(keep));
    }
    while i < clients.len()
        invariant
            i <= clients.len(),
            all == clients.deep_view(),
            keep == (|c: HyprClientView| windows::is_heeded(config@, c)),
            out.deep_view() == all.take(i as int).filter(keep),
        decreases clients.len() - i,
    {
        let client = &clients[i];
        let ghost before = out.deep_view();
        proof {
            lists::lemma_filter_step(all, keep, i as int);
            assert(all[i as int] == client@);
        }
        if windows::client_is_heeded(client, config) {
            let copy = client.clone();
            out.push(copy);
            assert(out.deep_view() =~= before.push(client@));
        }
        i += 1;
    }
    assert(all.take(all.len() as int) =~= all);
    out
}

fn find_known_monitor(monitors: &[HyprMonitor], id: i32) -> (r: Option<String>)
    ensures
        r.deep_view() == known_monitor(monitors.deep_view(), id as int),
{
    let ghost all = monitors.deep_view();
    let mut n: usize = monitors.len();
    while n > 0
        invariant
            n <= monitors.len(),
            all == monitors.deep_view(),
            known_monitor(all, id as int) == capture::monitor_with_id(all, id as int, n as int),
        decreases n,
    {
        assert(all[n - 1] == monitors[n - 1]@);
        if monitors[n - 1].id == id {
            return Some(monitors[n - 1].name.clone());
        }
        n -= 1;
    }
    None
}

fn observe_window(
    client: &HyprClient,
    heeded: &[HyprClient],
    monitors: &[HyprMonitor],
    seen: &Sighting,
) -> (r: ObservedClient)
    ensures
        r@ == observed_window(client@, heeded.deep_view(), monitors.deep_view(), seen@),
{
    let monitor_name = find_known_monitor(monitors, client.monitor);
    let profiles = &seen.discovery.profiles;
    let mut profile_directory: Option<String> = None;
    let mut ambiguous = false;
    if capture::is_brave_client(client) {
        assert(seen@.discovery.profiles.len() == profiles.len());
        ambiguous = true;
        if profiles.len() == 1 {
            assert(seen@.discovery.profiles[0] == profiles[0]@);
            profile_directory = Some(profiles[0].clone());
            if capture::count_brave_windows(heeded, client.pid) == 1 {
                ambiguous = !seen.discovery.complete;
            }
        }
    }
    ObservedClient {
        client: client.clone(),
        monitor_name,
        cwd: text::copy_option(&seen.cwd),
        profile_directory,
        process_start_time: seen.start_time,
        profile_identity_ambiguous: ambiguous,
        process_command: text::copy_option(&seen.command),
    }
}

/// Puts together what is known of the windows.
pub fn assemble_observed(heeded: &[HyprClient], monitors: &[HyprMonitor], seen: &[Sighting]) -> (r:
    Vec<ObservedClient>)
    requires
        seen.len() == heeded.len(),
    ensures
        r.deep_view() == observed_windows(
            heeded.deep_view(),
            monitors.deep_view(),
            seen.deep_view(),
        ),
{
    let ghost all = heeded.deep_view();
    let ghost there = monitors.deep_view();
    let ghost sights = seen.deep_view();
    let mut out: Vec<ObservedClient> = Vec::new();
    let mut i: usize = 0;
    while i < heeded.len()
        invariant
            seen.len() == heeded.len(),
            i <= heeded.len(),
            all == heeded.deep_view(),
            there == monitors.deep_view(),
            sights == seen.deep_view(),
            out.len() == i,
            forall|k: int|
                0 <= k < i ==> out.deep_view()[k] == observed_window(
                    all[k],
                    all,
                    there,
                    #[trigger] sights[k],
                ),
        decreases heeded.len() - i,
    {
        assert(all[i as int] == heeded[i as int]@);
        assert(sights[i as int] == seen[i as int]@);
        let window = observe_window(&heeded[i], heeded, monitors, &seen[i]);
        let ghost before = out.deep_view();
        out.push(window);
        assert(out.deep_view() =~= before.push(window@));
        i += 1;
    }
    proof {
        let expected = Seq::new(
            all.len(),
            |i: int| observed_window(all[i], all, there, sights[i]),
        );
        assert forall|k: int| 0 <= k < all.len() implies out.deep_view()[k] == expected[k] by {
            assert(out.deep_view()[k] == observed_window(all[k], all, there, sights[k]));
        }
        assert(out.deep_view() =~= expected);
    }
    lists::sort(out)
}

/// What a provider may show of some windows.
pub open spec fn may_sight_all<P: ProcessInfoProvider + ?Sized>(
    provider: &P,
    heeded: Seq<HyprClientView>,
    seen: Seq<SightingView>,
) -> bool {
    &&& seen.len() == heeded.len()
    &&& forall|i: int|
        0 <= i < heeded.len() ==> #[trigger] may_sight(provider, heeded[i], seen[i])
}

/// Windows that may be observed through a compositor and a provider.
pub open spec fn is_observation<H: HyprctlClient + ?Sized, P: ProcessInfoProvider + ?Sized>(
    hyprctl: &H,
    provider: &P,
    settings: ConfigView,
    monitors: Seq<HyprMonitorView>,
    clients: Vec<HyprClient>,
    seen: Seq<SightingView>,
    r: Seq<ObservedClientView>,
) -> bool {
    let heeded = heeded_windows(clients.deep_view(), settings);
    &&& call_ensures(H::get_clients, (hyprctl,), Ok::<Vec<HyprClient>, HyprctlError>(clients))
    &&& may_sight_all(provider, heeded, seen)
    &&& r == observed_windows(heeded, monitors, seen)
}

/// Windows that may be observed.
pub open spec fn may_observe<H: HyprctlClient + ?Sized, P: ProcessInfoProvider + ?Sized>(
    hyprctl: &H,
    provider: &P,
    settings: ConfigView,
    monitors: Seq<HyprMonitorView>,
    r: Seq<ObservedClientView>,
) -> bool {
    exists|clients: Vec<HyprClient>, seen: Seq<SightingView>| #[trigger]
        is_observation(hyprctl, provider, settings, monitors, clients, seen, r)
}

fn sight_all<P: ProcessInfoProvider + ?Sized>(heeded: &[HyprClient], process_info: &P) -> (r: Vec<
    Sighting,
>)
    ensures
        may_sight_all(process_info, heeded.deep_view(), r.deep_view()),
{
    let ghost all = heeded.deep_view();
    let mut out: Vec<Sighting> = Vec::new();
    let mut i: usize = 0;
    while i < heeded.len()
        invariant
            i <= heeded.len(),
            all == heeded.deep_view(),
            out.len() == i,
            forall|k: int|
                0 <= k < i ==> #[trigger] may_sight(process_info, all[k], out.deep_view()[k]),
        decreases heeded.len() - i,
    {
        assert(all[i as int] == heeded[i as int]@);
        let seen = sight(&heeded[i], process_info);
        let ghost view = seen@;
        let ghost before = out.deep_view();
        out.push(seen);
        proof {
            assert(out.deep_view() =~= before.push(view));
            assert forall|k: int| 0 <= k < i + 1 implies #[trigger] may_sight(
                process_info,
                all[k],
                out.deep_view()[k],
            ) by {
                if k < i {
                    assert(may_sight(process_info, all[k], before[k]));
                }
            }
        }
        i += 1;
    }
    out
}

/// Observes the open windows.
pub fn observe_clients_with_monitors<
    H: HyprctlClient + ?Sized,
    P: ProcessInfoProvider + ?Sized,
>(hyprctl: &H, process_info: &P, config: &Config, monitors: &[HyprMonitor]) -> (r: Result<
    Vec<ObservedClient>,
    RestoreError,
>)
    ensures
        match r {
            Ok(list) => may_observe(
                hyprctl,
                process_info,
                config@,
                monitors.deep_view(),
                list.deep_view(),
            ),
            Err(RestoreError::Hyprctl(error)) => call_ensures(
                H::get_clients,
                (hyprctl,),
                Err::<Vec<HyprClient>, HyprctlError>(error),
            ),
            Err(_) => false,
        },
{
    let clients = match hyprctl.get_clients() {
        Ok(clients) => clients,
        Err(error) => {
            return Err(RestoreError::Hyprctl(error));
        },
    };
    let heeded = pick_heeded(clients.as_slice(), config);
    let seen = sight_all(heeded.as_slice(), process_info);
    let r = assemble_observed(heeded.as_slice(), monitors, seen.as_slice());
    assert(is_observation(
        hyprctl,
        process_info,
        config@,
        monitors.deep_view(),
        clients,
        seen.deep_view(),
        r.deep_view(),
    ));
    Ok(r)
}

// ── The same window, just before it is touched ─────────────────────────────

/// What a provider tells of the process of a window when the window is looked
/// at again.
#[derive(Debug, Clone, Copy, PartialEq, Eq, Structural)]
pub struct ProcessState {
    /// Start times can be relied on.
    pub reliable: bool,
    /// The start time now.
    pub start_time: Option<u64>,
}

/// What a provider may tell of a process.
pub open spec fn may_state<P: ProcessInfoProvider + ?Sized>(
    provider: &P,
    pid: u32,
    state: ProcessState,
) -> bool {
    call_ensures(P::has_reliable_process_start_time, (provider,), state.reliable)
        && may_have_started(provider, pid, state.start_time)
}

/// Asks what a provider tells of a process.
pub fn read_process_state<P: ProcessInfoProvider + ?Sized>(process_info: &P, pid: u32) -> (r:
    ProcessState)
    ensures
        may_state(process_info, pid, r),
{
    let reliable = process_info.has_reliable_process_start_time();
    let start_time = observe_start_time(process_info, pid);
    ProcessState { reliable, start_time }
}

/// The window at the address of an observed one is still that window.
pub open spec fn still_stands(
    expected: ObservedClientView,
    current: HyprClientView,
    state: ProcessState,
) -> bool {
    &&& expected.client.address == current.address
    &&& if identity::is_known(expected.client.stable_id) && identity::is_known(current.stable_id) {
        text::same_ignoring_case(expected.client.stable_id->0, current.stable_id->0)
    } else {
        &&& !identity::is_known(expected.client.stable_id)
        &&& !identity::is_known(current.stable_id)
        &&& !state.reliable
        &&& expected.client.pid == current.pid
        &&& expected.process_start_time is Some ==> state.start_time
            == expected.process_start_time
    }
}

/// Revalidate the window identity immediately before dispatching address-based
/// commands.  Hyprland's address is the dispatch handle, but it can be
/// recycled after a window closes; stable ID, PID, and process start time
/// catch that replacement before a repair is applied to the wrong window.
pub fn observed_window_identity_matches(
    expected: &ObservedClient,
    current: &HyprClient,
    state: ProcessState,
) -> (r: bool)
    ensures
        r == still_stands(expected@, current@, state),
{
    if !text::same(expected.client.address.as_str(), current.address.as_str()) {
        return false;
    }
    let expected_known = identity::is_present(&expected.client.stable_id);
    let current_known = identity::is_present(&current.stable_id);
    if expected_known && current_known {
        return match (&expected.client.stable_id, &current.stable_id) {
            (Some(a), Some(b)) => text::eq_ignore_case(a.as_str(), b.as_str()),
            _ => false,
        };
    }
    if expected_known || current_known || state.reliable {
        return false;
    }
    if expected.client.pid != current.pid {
        return false;
    }
    match expected.process_start_time {
        Some(start) => match state.start_time {
            Some(now) => now == start,
            None => false,
        },
        None => true,
    }
}

/// The number of windows of a process.
pub open spec fn windows_of(clients: Seq<HyprClientView>, pid: u32) -> nat
    decreases clients.len(),
{
    if clients.len() == 0 {
        0
    } else {
        windows_of(clients.drop_last(), pid) + if clients.last().pid == pid {
            1nat
        } else {
            0
        }
    }
}

/// A process with several windows, none of which can be told apart.
pub open spec fn is_one_of_several(
    expected: ObservedClientView,
    current: HyprClientView,
    clients: Seq<HyprClientView>,
) -> bool {
    &&& !identity::is_known(expected.client.stable_id)
    &&& !identity::is_known(current.stable_id)
    &&& expected.client.address == current.address
    &&& expected.client.pid == current.pid
    &&& windows_of(clients, current.pid) > 1
}

/// A PID and process start time identify a process, not necessarily a window.
/// When two current clients share both and neither exposes Hyprland's
/// window-specific stable ID, refuse address-based actions rather than risk
/// repairing or closing the sibling window.
pub fn identity_is_ambiguous_without_stable_id(
    expected: &ObservedClient,
    current: &HyprClient,
    clients: &[HyprClient],
) -> (r: bool)
    ensures
        r == is_one_of_several(expected@, current@, clients.deep_view()),
{
    if identity::is_present(&expected.client.stable_id) || identity::is_present(
        &current.stable_id,
    ) || !text::same(expected.client.address.as_str(), current.address.as_str())
        || expected.client.pid != current.pid {
        return false;
    }
    let ghost all = clients.deep_view();
    let mut count: usize = 0;
    let mut i: usize = 0;
    assert(all.take(0) =~= Seq::<HyprClientView>::empty());
    while i < clients.len()
        invariant
            i <= clients.len(),
            all == clients.deep_view(),
            count <= i,
            count == windows_of(all.take(i as int), current@.pid),
        decreases clients.len() - i,
    {
        assert(all[i as int] == clients[i as int]@);
        assert(all.take(i + 1).drop_last() =~= all.take(i as int));
        assert(all.take(i + 1).last() == all[i as int]);
        if clients[i].pid == current.pid {
            count += 1;
        }
        i += 1;
    }
    assert(all.take(i as int) =~= all);
    count > 1
}

/// The first place, from `i` on, of a window at an address.
pub open spec fn address_from(
    clients: Seq<HyprClientView>,
    address: Seq<char>,
    i: int,
) -> Option<int>
    decreases clients.len() - i,
{
    if i < 0 || i >= clients.len() {
        None
    } else if clients[i].address == address {
        Some(i)
    } else {
        address_from(clients, address, i + 1)
    }
}

/// The place of the window at an address.
pub fn find_address(clients: &[HyprClient], address: &str) -> (r: Option<usize>)
    ensures
        match r {
            Some(i) => i < clients.len() && address_from(clients.deep_view(), address@, 0)
                == Some(i as int),
            None => address_from(clients.deep_view(), address@, 0) is None,
        },
{
    let ghost all = clients.deep_view();
    let mut i: usize = 0;
    while i < clients.len()
        invariant
            i <= clients.len(),
            all == clients.deep_view(),
            address_from(all, address@, 0) == address_from(all, address@, i as int),
        decreases clients.len() - i,
    {
        assert(all[i as int] == clients[i as int]@);
        if text::same(clients[i].address.as_str(), address) {
            return Some(i);
        }
        i += 1;
    }
    None
}

/// Why a window must not be repaired, if it must not.  `state` tells of the
/// process of the window that now stands at the address.
pub open spec fn repair_problem(
    expected: ObservedClientView,
    clients: Seq<HyprClientView>,
    state: ProcessState,
) -> Option<RestoreErrorView> {
    let address = expected.client.address;
    match address_from(clients, address, 0) {
        None => Some(RestoreErrorView::WindowDisappeared { address }),
        Some(i) => if still_stands(expected, clients[i], state) && !is_one_of_several(
            expected,
            clients[i],
            clients,
        ) {
            None
        } else {
            Some(RestoreErrorView::WindowIdentityChanged { address })
        },
    }
}

/// Tells whether an observed window is still there, alone, and unchanged.
pub fn check_repair(expected: &ObservedClient, clients: &[HyprClient], state: ProcessState) -> (r:
    Result<(), RestoreError>)
    ensures
        match r {
            Ok(_) => repair_problem(expected@, clients.deep_view(), state) is None,
            Err(error) => repair_problem(expected@, clients.deep_view(), state) == Some(error@),
        },
{
    let address = expected.client.address.as_str();
    let ghost all = clients.deep_view();
    match find_address(clients, address) {
        None => Err(RestoreError::WindowDisappeared { address: address.to_owned() }),
        Some(i) => {
            assert(all[i as int] == clients[i as int]@);
            if observed_window_identity_matches(expected, &clients[i], state)
                && !identity_is_ambiguous_without_stable_id(expected, &clients[i], clients) {
                Ok(())
            } else {
                Err(RestoreError::WindowIdentityChanged { address: address.to_owned() })
            }
        },
    }
}

/// What is to be done with a window that has to be repaired.
#[derive(Debug)]
pub enum RepairStep {
    /// Send the commands.
    Send(Vec<String>),
    /// Send nothing, and fail.
    Fail(RestoreError),
}

pub ghost enum RepairStepView {
    Send(Seq<Seq<char>>),
    Fail(RestoreErrorView),
}

impl View for RepairStep {
    type V = RepairStepView;

    open spec fn view(&self) -> RepairStepView {
        match *self {
            RepairStep::Send(commands) => RepairStepView::Send(commands.deep_view()),
            RepairStep::Fail(error) => RepairStepView::Fail(error@),
        }
    }
}

/// What is to be done with a window after the windows were read again.
/// Commands are given out only where the window is still there, alone, and
/// unchanged.
pub fn repair_step(
    expected: &ObservedClient,
    clients: &[HyprClient],
    state: ProcessState,
    commands: &[String],
) -> (r: RepairStep)
    ensures
        r@ == (match repair_problem(expected@, clients.deep_view(), state) {
            Some(problem) => RepairStepView::Fail(problem),
            None => RepairStepView::Send(commands.deep_view()),
        }),
{
    match check_repair(expected, clients, state) {
        Ok(_) => RepairStep::Send(text::copy_texts(commands)),
        Err(error) => RepairStep::Fail(error),
    }
}

/// What the compositor may answer to a batch of commands.
pub open spec fn may_take<H: HyprctlClient + ?Sized>(
    hyprctl: &H,
    commands: Seq<Seq<char>>,
    answer: Result<(), HyprctlError>,
) -> bool {
    exists|batch: &[String]|
        batch.deep_view() == commands && #[trigger] call_ensures(
            H::dispatch_batch,
            (hyprctl, batch),
            answer,
        )
}

/// What comes of a repair, when the compositor and the provider may have
/// answered so.  Where something speaks against the repair, the outcome tells
/// what; where nothing does, it is the answer to the commands.
pub open spec fn is_repair<H: HyprctlClient + ?Sized, P: ProcessInfoProvider + ?Sized>(
    hyprctl: &H,
    provider: &P,
    expected: ObservedClientView,
    commands: Seq<Seq<char>>,
    clients: Vec<HyprClient>,
    state: ProcessState,
    r: Result<(), RestoreError>,
) -> bool {
    let all = clients.deep_view();
    let place = address_from(all, expected.client.address, 0);
    &&& call_ensures(H::get_clients, (hyprctl,), Ok::<Vec<HyprClient>, HyprctlError>(clients))
    &&& place is Some ==> may_state(provider, all[place->0].pid, state)
    &&& match (repair_problem(expected, all, state), r) {
        (Some(problem), Err(error)) => error@ == problem,
        (Some(_), Ok(_)) => false,
        (None, Ok(_)) => may_take(hyprctl, commands, Ok::<(), HyprctlError>(())),
        (None, Err(RestoreError::Hyprctl(error))) => may_take(
            hyprctl,
            commands,
            Err::<(), HyprctlError>(error),
        ),
        (None, Err(_)) => false,
    }
}

/// A repair that may come about, or a failure to read the windows.
pub open spec fn may_repair<H: HyprctlClient + ?Sized, P: ProcessInfoProvider + ?Sized>(
    hyprctl: &H,
    provider: &P,
    expected: ObservedClientView,
    commands: Seq<Seq<char>>,
    r: Result<(), RestoreError>,
) -> bool {
    ||| r matches Err(RestoreError::Hyprctl(error)) && call_ensures(
        H::get_clients,
        (hyprctl,),
        Err::<Vec<HyprClient>, HyprctlError>(error),
    )
    ||| exists|clients: Vec<HyprClient>, state: ProcessState| #[trigger]
        is_repair(hyprctl, provider, expected, commands, clients, state, r)
}

/// Sends commands to an observed window where `repair_step` gives them out:
/// the windows are read again just before.
pub fn dispatch_existing_repairs<H: HyprctlClient + ?Sized, P: ProcessInfoProvider + ?Sized>(
    expected: &ObservedClient,
    commands: &[String],
    hyprctl: &H,
    process_info: &P,
) -> (r: Result<(), RestoreError>)
    ensures
        may_repair(hyprctl, process_info, expected@, commands.deep_view(), r),
{
    let clients = match hyprctl.get_clients() {
        Ok(clients) => clients,
        Err(error) => {
            return Err(RestoreError::Hyprctl(error));
        },
    };
    let state = match find_address(clients.as_slice(), expected.client.address.as_str()) {
        Some(i) => {
            assert(clients.deep_view()[i as int] == clients[i as int]@);
            read_process_state(process_info, clients[i].pid)
        },
        None => ProcessState { reliable: false, start_time: None },
    };
    let ghost wanted = commands.deep_view();
    let r: Result<(), RestoreError> = match repair_step(
        expected,
        clients.as_slice(),
        state,
        commands,
    ) {
        RepairStep::Fail(error) => Err(error),
        RepairStep::Send(batch) => {
            let list = batch.as_slice();
            let sent = hyprctl.dispatch_batch(list);
            assert(list.deep_view() =~= wanted);
            assert(call_ensures(H::dispatch_batch, (hyprctl, list), sent));
            assert(may_take(hyprctl, wanted, sent));
            assert(repair_problem(expected@, clients.deep_view(), state) is None);
            match sent {
                Ok(done) => {
                    assert(sent == Ok::<(), HyprctlError>(done));
                    Ok(())
                },
                Err(error) => {
                    assert(sent == Err::<(), HyprctlError>(error));
                    Err(RestoreError::Hyprctl(error))
                },
            }
        },
    };
    assert(is_repair(hyprctl, process_info, expected@, wanted, clients, state, r));
    r
}

/// The window at the address of one of a safety snapshot is still that
/// window.  The initial title belongs to the compositor and does not change
/// while a window lives.
pub open spec fn is_still_saved(saved: SessionClientView, current: HyprClientView) -> bool {
    &&& saved.address == Some(current.address)
    &&& identity::classes_agree(saved, current)
    &&& identity::is_known(saved.stable_id)
    &&& identity::is_known(current.stable_id)
    &&& text::same_ignoring_case(saved.stable_id->0, current.stable_id->0)
    &&& saved.initial_title.len() == 0 || current.initial_title.len() == 0 || identity::agree(
        saved.initial_title,
        current.initial_title,
    )
}

/// Verify that a client at a captured address is still the client that was in
/// the safety snapshot.  The replacement path uses this extra check because
/// its initial client list is taken after the snapshot was written: a window
/// opened in that interval must remain untouched, even if it happens to reuse
/// an address from the captured desktop.
pub fn safety_snapshot_identity_matches(safety_client: &SessionClient, current: &HyprClient) -> (r:
    bool)
    ensures
        r == is_still_saved(safety_client@, current@),
{
    let same_place = match &safety_client.address {
        Some(address) => text::same(address.as_str(), current.address.as_str()),
        None => false,
    };
    if !same_place || !identity::classes_match(safety_client, current) {
        return false;
    }
    if !identity::is_present(&safety_client.stable_id) || !identity::is_present(
        &current.stable_id,
    ) {
        return false;
    }
    let same_id = match (&safety_client.stable_id, &current.stable_id) {
        (Some(a), Some(b)) => text::eq_ignore_case(a.as_str(), b.as_str()),
        _ => false,
    };
    same_id && (safety_client.initial_title.as_str().is_empty()
        || current.initial_title.as_str().is_empty() || identity::same_nonempty(
        safety_client.initial_title.as_str(),
        current.initial_title.as_str(),
    ))
}

} // verus!
