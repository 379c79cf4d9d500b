//! Windows are closed, repaired and given up only where they are known.

use crate::capture;
use crate::config::{AppConfigView, ConfigView};
use crate::hyprctl::{HyprClientView, HyprMonitorView};
use crate::laws::effects;
use crate::laws::sessions;
use crate::lists;
use crate::lists::Ordered;
use crate::placement;
use crate::recovery;
use crate::recovery::{RecoveryStep, ReplaceMarkerView, ReplacePhase};
use crate::restore::identity::{ObservedClient, ObservedClientView};
use crate::restore::launched;
use crate::restore::observe;
use crate::restore::observe::{ProcessState, SightingView};
use crate::restore::replace;
use crate::restore::replace::{CloseActionView, ReplacementView, WaitStep};
use crate::restore::report::RestoreErrorView;
use crate::session::SessionClientView;
use crate::text;
use vstd::prelude::*;

verus! {

// ── Looking again ──────────────────────────────────────────────────────────

/// A text is there and not empty.
pub open spec fn is_told(s: Option<Seq<char>>) -> bool {
    s is Some && s->0.len() > 0
}

proof fn lemma_address(clients: Seq<HyprClientView>, address: Seq<char>, from: int)
    requires
        0 <= from <= clients.len(),
    ensures
        match observe::address_from(clients, address, from) {
            Some(i) => from <= i < clients.len() && clients[i].address == address && forall|k: int|
                from <= k < i ==> (#[trigger] clients[k]).address != address,
            None => forall|k: int|
                from <= k < clients.len() ==> (#[trigger] clients[k]).address != address,
        },
    decreases clients.len() - from,
{
    if from < clients.len() && clients[from].address != address {
        lemma_address(clients, address, from + 1);
    }
}

proof fn lemma_some_window(clients: Seq<HyprClientView>, pid: u32, i: int)
    requires
        0 <= i < clients.len(),
        clients[i].pid == pid,
    ensures
        observe::windows_of(clients, pid) >= 1,
    decreases clients.len(),
{
    if i < clients.len() - 1 {
        assert(clients.drop_last()[i] == clients[i]);
        lemma_some_window(clients.drop_last(), pid, i);
    }
}

proof fn lemma_two_windows(clients: Seq<HyprClientView>, pid: u32, i: int, j: int)
    requires
        0 <= i < j < clients.len(),
        clients[i].pid == pid,
        clients[j].pid == pid,
    ensures
        observe::windows_of(clients, pid) >= 2,
    decreases clients.len(),
{
    let front = clients.drop_last();
    assert(front[i] == clients[i]);
    if j < clients.len() - 1 {
        assert(front[j] == clients[j]);
        lemma_two_windows(front, pid, i, j);
    } else {
        lemma_some_window(front, pid, i);
    }
}

proof fn lemma_no_window(clients: Seq<HyprClientView>, pid: u32)
    requires
        forall|k: int| 0 <= k < clients.len() ==> (#[trigger] clients[k]).pid != pid,
    ensures
        observe::windows_of(clients, pid) == 0,
    decreases clients.len(),
{
    if clients.len() > 0 {
        let front = clients.drop_last();
        assert forall|k: int| 0 <= k < front.len() implies (#[trigger] front[k]).pid != pid by {
            assert(front[k] == clients[k]);
        }
        assert(clients[clients.len() - 1].pid != pid);
        lemma_no_window(front, pid);
    }
}

proof fn lemma_one_window(clients: Seq<HyprClientView>, pid: u32, i: int)
    requires
        0 <= i < clients.len(),
        clients[i].pid == pid,
        forall|k: int| 0 <= k < clients.len() && k != i ==> (#[trigger] clients[k]).pid != pid,
    ensures
        observe::windows_of(clients, pid) == 1,
    decreases clients.len(),
{
    let front = clients.drop_last();
    let last = clients.len() - 1;
    assert(clients.last() == clients[last]);
    assert forall|k: int| 0 <= k < front.len() && k != i implies (#[trigger] front[k]).pid != pid by {
        assert(front[k] == clients[k]);
    }
    if i < last {
        assert(front[i] == clients[i]);
        lemma_one_window(front, pid, i);
    } else {
        lemma_no_window(front, pid);
    }
}

/// A window that was observed is repaired only where it still stands at its
/// address: with the stable identifier that it had, or, where none is told on
/// either side, with its process, its start time and no other window of that
/// process.  One that is gone is reported as gone, and one that cannot be told
/// for sure as changed.
pub proof fn law_repairs_need_the_same_window(
    expected: ObservedClientView,
    clients: Seq<HyprClientView>,
    state: ProcessState,
    i: int,
    j: int,
)
    requires
        0 <= i < clients.len(),
        clients[i].address == expected.client.address,
        forall|k: int| 0 <= k < i ==> (#[trigger] clients[k]).address != expected.client.address,
    ensures
        ({
            let now = clients[i];
            let was = expected.client;
            let problem = observe::repair_problem(expected, clients, state);
            let changed = Some(RestoreErrorView::WindowIdentityChanged { address: was.address });
            let alone = forall|k: int|
                0 <= k < clients.len() && k != i ==> (#[trigger] clients[k]).pid != now.pid;
            &&& is_told(was.stable_id) && is_told(now.stable_id) ==> problem == (
            if text::same_ignoring_case(was.stable_id->0, now.stable_id->0) {
                None
            } else {
                changed
            })
            &&& is_told(was.stable_id) != is_told(now.stable_id) ==> problem == changed
            &&& !is_told(was.stable_id) && !is_told(now.stable_id) ==> {
                &&& was.pid != now.pid ==> problem == changed
                &&& state.reliable ==> problem == changed
                &&& expected.process_start_time is Some && state.start_time
                    != expected.process_start_time ==> problem == changed
                &&& 0 <= j < clients.len() && j != i && clients[j].pid == now.pid ==> problem
                    == changed
                &&& was.pid == now.pid && !state.reliable && alone && (
                expected.process_start_time is None || state.start_time
                    == expected.process_start_time) ==> problem is None
            }
        }),
{
    let now = clients[i];
    lemma_address(clients, expected.client.address, 0);
    let place = observe::address_from(clients, expected.client.address, 0)->0;
    assert(place == i) by {
        if place < i {
            assert(clients[place].address != expected.client.address);
        }
    }
    if 0 <= j < clients.len() && j != i && clients[j].pid == now.pid {
        if i < j {
            lemma_two_windows(clients, now.pid, i, j);
        } else {
            lemma_two_windows(clients, now.pid, j, i);
        }
    }
    if forall|k: int| 0 <= k < clients.len() && k != i ==> (#[trigger] clients[k]).pid != now.pid {
        lemma_one_window(clients, now.pid, i);
    }
}

/// A window that is gone is not repaired.
pub proof fn law_windows_that_are_gone_are_reported(
    expected: ObservedClientView,
    clients: Seq<HyprClientView>,
    state: ProcessState,
)
    requires
        forall|k: int|
            0 <= k < clients.len() ==> (#[trigger] clients[k]).address != expected.client.address,
    ensures
        observe::repair_problem(expected, clients, state) == Some(
            RestoreErrorView::WindowDisappeared { address: expected.client.address },
        ),
{
    lemma_address(clients, expected.client.address, 0);
}

// ── Observing ──────────────────────────────────────────────────────────────

/// What is observed of a window is what the compositor and its process tell.
/// A profile is told of Brave windows alone, and it is beyond doubt only where
/// the process shows that one profile, could be read completely, and has no
/// other Brave window.
pub proof fn law_observation_tells_what_was_seen(
    client: HyprClientView,
    heeded: Seq<HyprClientView>,
    monitors: Seq<HyprMonitorView>,
    seen: SightingView,
)
    ensures
        ({
            let observed = observe::observed_window(client, heeded, monitors, seen);
            let brave = text::same_ignoring_case(client.class, "brave-browser"@)
                || text::same_ignoring_case(client.initial_class, "brave-browser"@);
            let profiles = seen.discovery.profiles;
            &&& observed.client == client
            &&& observed.cwd == seen.cwd
            &&& observed.process_start_time == seen.start_time
            &&& observed.process_command == seen.command
            &&& !brave ==> observed.profile_directory is None
                && !observed.profile_identity_ambiguous
            &&& brave && profiles.len() == 1 ==> observed.profile_directory == Some(profiles[0])
            &&& brave && profiles.len() != 1 ==> observed.profile_directory is None
                && observed.profile_identity_ambiguous
            &&& brave && !seen.discovery.complete ==> observed.profile_identity_ambiguous
            &&& brave && capture::brave_windows(heeded, client.pid) != 1
                ==> observed.profile_identity_ambiguous
            &&& brave && profiles.len() == 1 && seen.discovery.complete && capture::brave_windows(
                heeded,
                client.pid,
            ) == 1 ==> !observed.profile_identity_ambiguous
        }),
{
}

/// Windows are observed in the order of their addresses, each once, and those
/// of ignored classes not at all.
pub proof fn law_windows_are_observed_in_order(
    clients: Seq<HyprClientView>,
    settings: ConfigView,
    monitors: Seq<HyprMonitorView>,
    seen: Seq<SightingView>,
    i: int,
    j: int,
)
    ensures
        ({
            let heeded = observe::heeded_windows(clients, settings);
            let observed = observe::observed_windows(heeded, monitors, seen);
            &&& heeded == clients.filter(
                |c: HyprClientView| sessions::is_wanted(settings.ignore_classes, c),
            )
            &&& observed.len() == heeded.len()
            &&& 0 <= i < j < observed.len() ==> !text::comes_before(
                observed[j].client.address,
                observed[i].client.address,
            )
            &&& 0 <= i < heeded.len() ==> observed.contains(
                observe::observed_window(heeded[i], heeded, monitors, seen[i]),
            )
        }),
{
    broadcast use vstd::seq_lib::group_to_multiset_ensures;

    let heeded = observe::heeded_windows(clients, settings);
    let f = |c: HyprClientView| crate::restore::windows::is_heeded(settings, c);
    let g = |c: HyprClientView| sessions::is_wanted(settings.ignore_classes, c);
    assert forall|c: HyprClientView| f(c) == #[trigger] g(c) by {
        assert(crate::restore::windows::is_heeded(settings, c) == sessions::is_wanted(
            settings.ignore_classes,
            c,
        ));
    }
    assert(f =~= g);
    let all = Seq::new(
        heeded.len(),
        |k: int| observe::observed_window(heeded[k], heeded, monitors, seen[k]),
    );
    let before = |a: ObservedClientView, b: ObservedClientView| ObservedClient::precedes(a, b);
    assert forall|a: ObservedClientView, b: ObservedClientView| #[trigger] before(
        a,
        b,
    ) implies !before(b, a) by {
        text::lemma_comes_before_total(a.client.address, b.client.address);
    }
    assert forall|a: ObservedClientView, b: ObservedClientView, c: ObservedClientView|
        !(#[trigger] before(a, b)) && !(#[trigger] before(b, c)) implies !before(a, c) by {
        let (x, y, z) = (a.client.address, b.client.address, c.client.address);
        text::lemma_comes_before_total(x, y);
        text::lemma_comes_before_total(y, z);
        text::lemma_comes_before_total(x, z);
        if text::comes_before(y, x) && text::comes_before(z, y) {
            text::lemma_comes_before_transitive(z, y, x);
        }
    }
    lists::law_sorting_orders(all, before);
    let observed = lists::sorted(all, before);
    assert(observed == observe::observed_windows(heeded, monitors, seen));
    if 0 <= i < j < observed.len() {
        assert(!before(observed[j], observed[i]));
    }
    if 0 <= i < heeded.len() {
        let x = all[i];
        assert(all.contains(x));
        assert(all.to_multiset().contains(x));
        assert(observed.to_multiset().contains(x));
    }
}

// ── Closing ────────────────────────────────────────────────────────────────

/// A window that the snapshot holds, and that is still the same by its stable
/// identifier, its class and its initial title, is closed, and nothing but
/// that window is.
pub proof fn law_snapshot_windows_are_closed(
    state: ReplacementView,
    start_time: Option<u64>,
    clients: Seq<HyprClientView>,
    process: ProcessState,
    i: int,
    s: int,
    id: Seq<char>,
)
    requires
        0 <= state.index < state.queue.len(),
        state.safety is Some,
        0 <= s < state.safety->0.len(),
        0 <= i < clients.len(),
        id.len() > 0,
        ({
            let here = state.queue[state.index];
            let saved = state.safety->0[s];
            &&& here.address.len() > 0
            &&& placement::all_plain(here.address)
            &&& here.stable_id == Some(id)
            &&& clients[i].address == here.address
            &&& clients[i].stable_id == Some(id)
            &&& clients[i].class == here.class
            &&& forall|k: int| 0 <= k < i ==> (#[trigger] clients[k]).address != here.address
            &&& saved.address == Some(here.address)
            &&& saved.stable_id == Some(id)
            &&& saved.class.len() > 0
            &&& saved.class == clients[i].class
            &&& saved.initial_title == clients[i].initial_title
            &&& forall|k: int|
                s < k < state.safety->0.len() ==> (#[trigger] state.safety->0[k]).address != Some(
                    here.address,
                )
        }),
    ensures
        ({
            let here = state.queue[state.index];
            let step = replace::step_rechecked(state, start_time, clients, process);
            &&& replace::step_on(state).1 == CloseActionView::Recheck {
                address: here.address,
                pid: here.pid,
            }
            &&& step is Ok
            &&& (step->Ok_0).1 is Close
            &&& effects::closed_by((step->Ok_0).1->command) == Some(here.address)
            &&& state.marked && !state.started ==> {
                let mark = (step->Ok_0).1->mark;
                &&& mark is Some
                &&& mark->0.address == here.address
                &&& mark->0.stable_id == Some(id)
                &&& mark->0.pid == clients[i].pid
                &&& mark->0.start_time == process.start_time
            }
        }),
{
    let here = state.queue[state.index];
    let saved = state.safety->0;
    lemma_saved_at(saved, here.address, s, saved.len() as int);
    lemma_address(clients, here.address, 0);
    let place = observe::address_from(clients, here.address, 0)->0;
    assert(place == i) by {
        if place < i {
            assert(clients[place].address != here.address);
        }
    }
    effects::law_close_command_closes_its_window(here.address);
}

proof fn lemma_saved_at(saved: Seq<SessionClientView>, address: Seq<char>, s: int, n: int)
    requires
        0 <= s < n <= saved.len(),
        address.len() > 0,
        saved[s].address == Some(address),
        forall|k: int| s < k < n ==> (#[trigger] saved[k]).address != Some(address),
    ensures
        replace::saved_at(saved, address, n) == Some(s),
    decreases n,
{
    if n - 1 > s {
        assert(saved[n - 1].address != Some(address));
        lemma_saved_at(saved, address, s, n - 1);
    }
}

proof fn lemma_not_saved_at(saved: Seq<SessionClientView>, address: Seq<char>, n: int)
    requires
        0 <= n <= saved.len(),
        forall|k: int| 0 <= k < n ==> (#[trigger] saved[k]).address != Some(address),
    ensures
        replace::saved_at(saved, address, n) is None,
    decreases n,
{
    if n > 0 {
        lemma_not_saved_at(saved, address, n - 1);
    }
}

/// A window that the snapshot does not hold is neither looked at again nor
/// closed, and the restored session leaves it alone.
pub proof fn law_unsaved_windows_are_left_alone(
    state: ReplacementView,
    clients: Seq<HyprClientView>,
)
    requires
        0 <= state.index < state.queue.len(),
        state.safety is Some,
        forall|k: int|
            0 <= k < state.safety->0.len() ==> (#[trigger] state.safety->0[k]).address != Some(
                state.queue[state.index].address,
            ),
    ensures
        ({
            let step = replace::step_on(state);
            let address = state.queue[state.index].address;
            &&& step.1 == CloseActionView::Continue
            &&& step.0.index == state.index + 1
            &&& step.0.dispatched == state.dispatched
            &&& replace::protected_after(step.0, clients).contains(address)
        }),
{
    let saved = state.safety->0;
    lemma_not_saved_at(saved, state.queue[state.index].address, saved.len() as int);
}

/// Waiting ends as soon as the windows are gone, however late that is seen;
/// windows that stay longer than allowed end it too, and nothing else does.
pub proof fn law_waiting_ends(still_open: bool, elapsed: u64, limit: u64)
    ensures
        replace::wait_after(still_open, elapsed, limit) == WaitStep::Done <==> !still_open,
        replace::wait_after(still_open, elapsed, limit) == WaitStep::TimedOut <==> still_open
            && elapsed >= limit,
        replace::wait_after(still_open, elapsed, limit) == WaitStep::GoOn <==> still_open && elapsed
            < limit,
{
}

// ── Recovering ─────────────────────────────────────────────────────────────

/// The first close was surely carried out where no window stands at the
/// address that was recorded, or where the one that stands there is another
/// one by its stable identifier, or without one by its process or its start
/// time.  As long as nothing tells them apart, nothing is sure.
pub proof fn law_first_close_is_proved(
    marker: ReplaceMarkerView,
    clients: Seq<HyprClientView>,
    start_time: Option<u64>,
    address: Seq<char>,
    i: int,
)
    requires
        marker.closing_address == Some(address),
    ensures
        ({
            let closed = recovery::is_surely_closed(marker, clients, start_time);
            let gone = forall|k: int|
                0 <= k < clients.len() ==> (#[trigger] clients[k]).address != address;
            let here = 0 <= i < clients.len() && clients[i].address == address && forall|k: int|
                0 <= k < i ==> (#[trigger] clients[k]).address != address;
            let now = clients[i];
            &&& gone ==> closed
            &&& here && marker.closing_stable_id is Some && now.stable_id is Some ==> (closed
                <==> !text::same_ignoring_case(marker.closing_stable_id->0, now.stable_id->0))
            &&& here && (marker.closing_stable_id is None || now.stable_id is None) ==> {
                &&& marker.closing_pid is None ==> !closed
                &&& marker.closing_pid is Some && marker.closing_pid->0 != now.pid ==> closed
                &&& marker.closing_pid == Some(now.pid) && (marker.closing_start_time is None
                    || start_time is None) ==> !closed
                &&& marker.closing_pid == Some(now.pid) && marker.closing_start_time is Some
                    && start_time is Some ==> (closed <==> marker.closing_start_time->0
                    != start_time->0)
            }
        }),
{
    lemma_address(clients, address, 0);
    match observe::address_from(clients, address, 0) {
        Some(place) => {
            if 0 <= i < clients.len() && clients[i].address == address && forall|k: int|
                0 <= k < i ==> (#[trigger] clients[k]).address != address {
                if place < i {
                    assert(clients[place].address != address);
                }
                assert(place == i);
            }
        },
        None => {},
    }
}

/// A replacement that was interrupted is dealt with by how far it went: before
/// the first close it is forgotten, after the last step it is finished, and in
/// between it is looked at or undone.
pub proof fn law_recovery_follows_the_phase(marker: ReplaceMarkerView)
    ensures
        ({
            let step = recovery::recovery_step(Some(marker));
            &&& recovery::recovery_step(None) == RecoveryStep::Nothing
            &&& marker.phase == ReplacePhase::Prepared ==> step == RecoveryStep::Discard
            &&& marker.phase == ReplacePhase::Closing && marker.closing_address is Some ==> step
                == RecoveryStep::ConfirmClose
            &&& marker.phase == ReplacePhase::Closing && marker.closing_address is None ==> step
                == RecoveryStep::Incomplete
            &&& marker.phase == ReplacePhase::InProgress && marker.target_name is Some ==> step
                == RecoveryStep::VerifyTarget
            &&& marker.phase == ReplacePhase::InProgress && marker.target_name is None ==> step
                == RecoveryStep::Restore
            &&& marker.phase == ReplacePhase::Finalizing || marker.phase == ReplacePhase::Committed
                ==> step == RecoveryStep::Finalize
        }),
{
}

/// Whether a replacement touched the desktop: one in progress did, one that
/// was about to close its first window did exactly if that was closed, and no
/// other did.
pub proof fn law_started_replacements_touched_the_desktop(
    marker: ReplaceMarkerView,
    closed: Option<bool>,
)
    ensures
        ({
            let started = recovery::has_started(Some(marker), closed);
            &&& recovery::has_started(None, closed) == Some(false)
            &&& marker.phase == ReplacePhase::InProgress ==> started == Some(true)
            &&& marker.phase == ReplacePhase::Closing && marker.closing_address is Some ==> started
                == closed
            &&& marker.phase == ReplacePhase::Closing && marker.closing_address is None ==> started
                is None
            &&& marker.phase == ReplacePhase::Prepared || marker.phase == ReplacePhase::Finalizing
                || marker.phase == ReplacePhase::Committed ==> started == Some(false)
        }),
{
}

/// A target counts as unchanged only where what it held is known on both
/// sides and is the same.
pub proof fn law_changed_targets_are_noticed(
    marker: ReplaceMarkerView,
    digest: Option<Seq<char>>,
)
    ensures
        recovery::is_unchanged(marker, digest) <==> digest is Some && marker.target_digest
            == digest,
{
}

/// While a snapshot is taken or restored nothing is ignored and no profile is
/// left out for want of a workspace; everything else is as configured.
pub proof fn law_recovery_heeds_every_window(
    settings: ConfigView,
    client: HyprClientView,
    i: int,
)
    requires
        0 <= i < settings.apps.len(),
    ensures
        ({
            let during = recovery::recovery_settings(settings);
            let (name, app) = settings.apps[i];
            &&& capture::is_captured(client, during.ignore_classes)
            &&& during.general == settings.general
            &&& during.apps.len() == settings.apps.len()
            &&& during.apps[i].0 == name
            &&& text::same_ignoring_case(name, "brave-browser"@) ==> during.apps[i].1
                == AppConfigView { profile_workspaces: None, ..app }
            &&& !text::same_ignoring_case(name, "brave-browser"@) ==> during.apps[i].1 == app
        }),
{
}

/// What is looked for when the window of a launch is placed is that window,
/// with what is known of its process.
pub proof fn law_launched_window_is_looked_for(
    window: HyprClientView,
    start_time: Option<u64>,
    command: Option<Seq<char>>,
)
    ensures
        ({
            let expected = launched::expected_window(window, start_time, command);
            &&& expected.client == window
            &&& expected.process_start_time == start_time
            &&& expected.process_command == command
            &&& expected.profile_directory is None
            &&& expected.cwd is None
        }),
{
}

// ── Windows that stay ──────────────────────────────────────────────────────

/// A closed window is still there while one stands at its address with its
/// stable identifier; another identifier there, or no window at its address,
/// means that it is gone.
pub proof fn law_closed_windows_stay_while_seen(
    pending: Seq<(Seq<char>, ObservedClientView)>,
    clients: Seq<HyprClientView>,
    states: Seq<ProcessState>,
    p: int,
    c: int,
    id: Seq<char>,
)
    requires
        0 <= p < pending.len(),
        pending[p].1.client.address == pending[p].0,
        pending[p].1.client.stable_id == Some(id),
        id.len() > 0,
    ensures
        0 <= c < clients.len() && clients[c].address == pending[p].0 && clients[c].stable_id
            == Some(id) ==> replace::some_remain(pending, clients, states),
        pending.len() == 1 && (forall|k: int|
            0 <= k < clients.len() ==> (#[trigger] clients[k]).address != pending[p].0 || (
            clients[k].stable_id is Some && !text::same_ignoring_case(
                clients[k].stable_id->0,
                id,
            ))) ==> !replace::some_remain(pending, clients, states),
{
    if 0 <= c < clients.len() && clients[c].address == pending[p].0 && clients[c].stable_id
        == Some(id) {
        assert(replace::remains(pending[p], clients[c], states[c]));
    }
    if pending.len() == 1 && replace::some_remain(pending, clients, states) {
        let (q, k) = choose|q: int, k: int|
            0 <= q < pending.len() && 0 <= k < clients.len() && replace::remains(
                #[trigger] pending[q],
                #[trigger] clients[k],
                states[k],
            );
        assert(q == p);
        assert(clients[k].address == pending[p].0);
    }
}

/// A window at the address of one of the snapshot that is not surely that one
/// is left alone: its stable identifier, its class or its initial title is
/// another one, or an identifier is missing.  One that is gone needs no
/// closing.
pub proof fn law_changed_windows_are_left_alone(
    state: ReplacementView,
    start_time: Option<u64>,
    clients: Seq<HyprClientView>,
    process: ProcessState,
    i: int,
    s: int,
)
    requires
        0 <= state.index < state.queue.len(),
        state.safety is Some,
        0 <= s < state.safety->0.len(),
        state.queue[state.index].address.len() > 0,
        state.safety->0[s].address == Some(state.queue[state.index].address),
        forall|k: int|
            s < k < state.safety->0.len() ==> (#[trigger] state.safety->0[k]).address != Some(
                state.queue[state.index].address,
            ),
    ensures
        ({
            let address = state.queue[state.index].address;
            let saved = state.safety->0[s];
            let now = clients[i];
            let here = 0 <= i < clients.len() && now.address == address && forall|k: int|
                0 <= k < i ==> (#[trigger] clients[k]).address != address;
            let gone = forall|k: int|
                0 <= k < clients.len() ==> (#[trigger] clients[k]).address != address;
            let other = (saved.stable_id is None || now.stable_id is None
                || !text::same_ignoring_case(saved.stable_id->0, now.stable_id->0)) || (
            !text::same_ignoring_case(saved.class, now.class) && !text::same_ignoring_case(
                saved.initial_class,
                now.initial_class,
            )) || (saved.initial_title.len() > 0 && now.initial_title.len() > 0
                && !text::same_ignoring_case(saved.initial_title, now.initial_title));
            let step = replace::step_rechecked(state, start_time, clients, process);
            &&& here && other ==> step is Ok && (step->Ok_0).1 is Continue && (
            step->Ok_0).0.protected.contains(address) && (step->Ok_0).0.index == state.index + 1
            &&& gone ==> step is Ok && (step->Ok_0).1 is Continue && (step->Ok_0).0.protected
                == state.protected && (step->Ok_0).0.index == state.index + 1
        }),
{
    let address = state.queue[state.index].address;
    let saved = state.safety->0;
    lemma_saved_at(saved, address, s, saved.len() as int);
    lemma_address(clients, address, 0);
    match observe::address_from(clients, address, 0) {
        Some(place) => {
            if 0 <= i < clients.len() && clients[i].address == address && forall|k: int|
                0 <= k < i ==> (#[trigger] clients[k]).address != address {
                if place < i {
                    assert(clients[place].address != address);
                }
                assert(place == i);
            }
        },
        None => {},
    }
}

/// Without a snapshot a window that changed ends the replacement.
pub proof fn law_changed_windows_end_unguarded_replacements(
    state: ReplacementView,
    start_time: Option<u64>,
    clients: Seq<HyprClientView>,
    process: ProcessState,
    i: int,
)
    requires
        0 <= state.index < state.queue.len(),
        state.safety is None,
        0 <= i < clients.len(),
        clients[i].address == state.queue[state.index].address,
        forall|k: int|
            0 <= k < i ==> (#[trigger] clients[k]).address != state.queue[state.index].address,
        is_told(clients[i].stable_id),
        is_told(state.queue[state.index].stable_id),
        !text::same_ignoring_case(
            state.queue[state.index].stable_id->0,
            clients[i].stable_id->0,
        ),
    ensures
        replace::step_rechecked(state, start_time, clients, process) == Err::<
            (ReplacementView, CloseActionView),
            RestoreErrorView,
        >(RestoreErrorView::WindowIdentityChanged { address: state.queue[state.index].address }),
{
    let address = state.queue[state.index].address;
    lemma_address(clients, address, 0);
    let place = observe::address_from(clients, address, 0)->0;
    if place < i {
        assert(clients[place].address != address);
    }
}

/// A window without an address is left alone, and so is every one that was
/// not open at the start.
pub proof fn law_unnamed_windows_are_left_alone(
    state: ReplacementView,
    clients: Seq<HyprClientView>,
    i: int,
)
    requires
        0 <= i < clients.len(),
        clients[i].address.len() == 0 || forall|k: int|
            0 <= k < state.queue.len() ==> (#[trigger] state.queue[k]).address
                != clients[i].address,
    ensures
        replace::protected_after(state, clients).contains(clients[i].address),
{
    assert(launched::addresses_of(clients).contains(clients[i].address));
}

} // verus!
