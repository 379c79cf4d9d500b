//! What a restore or a reconciliation does for each saved window.

use crate::config::ConfigView;
use crate::hyprctl::HyprMonitorView;
use crate::laws::effects;
use crate::laws::effects::Desk;
use crate::laws::evidence;
use crate::laws::geometry;
use crate::laws::recognition;
use crate::laws::sessions;
use crate::lists;
use crate::lists::Ordered;
use crate::matching::MatchingStrategy;
use crate::placement;
use crate::placement::ReconcileGeometryView;
use crate::restore::existing;
use crate::restore::identity;
use crate::restore::identity::{MatchPolicy, ObservedClientView};
use crate::restore::launch;
use crate::restore::planning;
use crate::restore::reconcile;
use crate::restore::reconcile::{PassActionView, PassOptions, PassView};
use crate::restore::report;
use crate::restore::report::RestoreErrorView;
use crate::restore::restoring;
use crate::restore::restoring::{RestoreItemView, RestoringView};
use crate::restore::targets;
use crate::restore::targets::ReconcileTargetView;
use crate::restore::windows;
use crate::session::{MonitorView, SessionClient, SessionClientView, SessionView};
use crate::text;
use vstd::prelude::*;

verus! {

// ── Monitors ───────────────────────────────────────────────────────────────

/// The first monitor with a name, up to case.
pub open spec fn is_monitor_named(
    monitors: Seq<HyprMonitorView>,
    name: Seq<char>,
    k: int,
) -> bool {
    &&& 0 <= k < monitors.len()
    &&& text::same_ignoring_case(monitors[k].name, name)
    &&& forall|j: int|
        0 <= j < k ==> !text::same_ignoring_case((#[trigger] monitors[j]).name, name)
}

/// No monitor has a name, up to case.
pub open spec fn is_no_monitor_named(monitors: Seq<HyprMonitorView>, name: Seq<char>) -> bool {
    forall|j: int|
        0 <= j < monitors.len() ==> !text::same_ignoring_case((#[trigger] monitors[j]).name, name)
}

proof fn lemma_monitor_named(monitors: Seq<HyprMonitorView>, name: Seq<char>, k: int)
    requires
        name.len() > 0,
    ensures
        is_monitor_named(monitors, name, k) ==> placement::monitor_named(monitors, name) == Some(
            monitors[k],
        ),
        is_no_monitor_named(monitors, name) ==> placement::monitor_named(monitors, name) is None,
    decreases monitors.len(),
{
    if monitors.len() > 0 {
        let rest = monitors.drop_first();
        lemma_monitor_named(rest, name, k - 1);
        if is_monitor_named(monitors, name, k) && k > 0 {
            assert(!text::same_ignoring_case(monitors[0].name, name));
            assert(rest[k - 1] == monitors[k]);
            assert forall|j: int| 0 <= j < k - 1 implies !text::same_ignoring_case(
                (#[trigger] rest[j]).name,
                name,
            ) by {
                assert(rest[j] == monitors[j + 1]);
            }
        }
        if is_no_monitor_named(monitors, name) {
            assert(!text::same_ignoring_case(monitors[0].name, name));
            assert forall|j: int| 0 <= j < rest.len() implies !text::same_ignoring_case(
                (#[trigger] rest[j]).name,
                name,
            ) by {
                assert(rest[j] == monitors[j + 1]);
            }
        }
    }
}

/// A target is placed on the monitor that bears the name of its own, and that
/// monitor counts as there; where none does, its geometry stays and its
/// monitor counts as missing.  A target without a monitor needs none.
pub proof fn law_targets_are_placed_on_their_monitors(
    targets: Seq<ReconcileTargetView>,
    saved: Seq<MonitorView>,
    monitors: Seq<HyprMonitorView>,
    i: int,
    k: int,
)
    requires
        0 <= i < targets.len(),
    ensures
        ({
            let name = targets[i].client.monitor;
            let placed = reconcile::adapted_targets(targets, saved, monitors);
            let available = reconcile::available_monitors(targets, monitors);
            &&& placed.len() == targets.len() && available.len() == targets.len()
            &&& placed[i].label == targets[i].label
            &&& name.len() > 0 && is_monitor_named(monitors, name, k) ==> available[i]
                && placed[i].client == placement::adapted(
                targets[i].client,
                saved,
                Some(monitors[k]),
            )
            &&& name.len() > 0 && is_no_monitor_named(monitors, name) ==> !available[i]
                && placed[i].client == targets[i].client
            &&& name.len() == 0 ==> available[i]
        }),
{
    let name = targets[i].client.monitor;
    if name.len() > 0 {
        lemma_monitor_named(monitors, name, k);
    }
}

// ── Reconciling ────────────────────────────────────────────────────────────

/// A window with nothing bound.
pub open spec fn desk_of(window: ObservedClientView) -> Desk {
    Desk {
        window: window.client,
        monitor: window.monitor_name,
        focused: false,
        binding: None,
    }
}

/// The commands after which nothing more is to be done with the window.
pub open spec fn commands_in(action: PassActionView) -> Seq<Seq<char>> {
    match action {
        PassActionView::Repair { window, commands } => commands,
        _ => seq![],
    }
}

proof fn lemma_repaired(target: SessionClientView, window: ObservedClientView, available: bool)
    requires
        placement::all_plain(window.client.address),
    ensures
        ({
            let commands = reconcile::repair_commands(target, window, available);
            let after = effects::effects(desk_of(window), commands);
            let placed = target.fullscreen == 0 && (target.monitor.len() == 0 || available);
            &&& after.window.pinned == target.pinned
            &&& after.window.floating == target.floating
            &&& after.window.fullscreen == target.fullscreen
            &&& placed ==> after.window.size == target.size && after.window.at == target.at
            &&& available && target.monitor.len() > 0 && window.monitor_name is Some ==> {
                &&& after.monitor is Some
                &&& text::same_ignoring_case(after.monitor->0, target.monitor)
            }
            &&& target.workspace_name.len() == 0 ==> after.window.workspace.id == target.workspace
        }),
{
    let geometry = ReconcileGeometryView {
        desired_at: target.at,
        desired_size: target.size,
        target_monitor_available: available,
    };
    effects::law_reconciling_puts_the_window_in_place(target, desk_of(window), geometry);
    if target.workspace_name.len() == 0 {
        assert(text::trimmed_start(target.workspace_name) == target.workspace_name);
        assert(text::trimmed_end(target.workspace_name) == target.workspace_name);
    }
}

/// When a pass gives a window to a target, the commands that it asks for, if
/// it asks for any, turn the window into the saved one, and a window that
/// needs none is one already.  The window is noted as taken and matched; one
/// in place counts as unchanged, and one to be repaired waits for its repair.
pub proof fn law_given_windows_become_their_targets(pass: PassView, window: ObservedClientView)
    requires
        0 <= pass.index < pass.targets.len(),
        !pass.options.dry_run,
        placement::all_plain(window.client.address),
    ensures
        ({
            let target = pass.targets[pass.index].client;
            let available = pass.available[pass.index];
            let (after, action) = reconcile::takes_window(pass, window);
            let done = effects::effects(desk_of(window), commands_in(action));
            let placed = target.fullscreen == 0 && (target.monitor.len() == 0 || available);
            &&& done.window.pinned == target.pinned
            &&& done.window.floating == target.floating
            &&& done.window.fullscreen == target.fullscreen
            &&& placed ==> done.window.size == target.size && done.window.at == target.at
            &&& available && target.monitor.len() > 0 && window.monitor_name is Some ==> {
                &&& done.monitor is Some
                &&& text::same_ignoring_case(done.monitor->0, target.monitor)
            }
            &&& target.workspace_name.len() == 0 ==> done.window.workspace.id == target.workspace
            &&& windows::is_taken(after.used, window) || !windows::is_same_taken(window, window)
            &&& after.report.matched == pass.report.matched + 1
            &&& action is Repair ==> {
                &&& action->window == window
                &&& after.pending == Some(window)
                &&& after.index == pass.index
                &&& after.report.unchanged == pass.report.unchanged
            }
            &&& !(action is Repair) ==> {
                &&& action is Continue
                &&& after.pending is None
                &&& after.index == pass.index + 1
                &&& after.report.unchanged == pass.report.unchanged + 1
                &&& after.report.moved == pass.report.moved
            }
        }),
{
    let target = pass.targets[pass.index].client;
    let available = pass.available[pass.index];
    lemma_repaired(target, window, available);
    let commands = reconcile::repair_commands(target, window, available);
    let (after, action) = reconcile::takes_window(pass, window);
    assert(commands_in(action) =~= commands);
    let used = pass.used;
    if !windows::is_taken(used, window) {
        assert(after.used[used.len() as int] == window);
    }
}

/// A repair counts as moved where it succeeded and as failed where it did
/// not; a launch counts as launched or failed.  Nothing else is counted.
pub proof fn law_outcomes_are_counted(
    pass: PassView,
    window: ObservedClientView,
    reason: Seq<char>,
    again: Option<Seq<ObservedClientView>>,
)
    ensures
        ({
            let r = pass.report;
            let repaired = reconcile::step_repaired(pass, None).report;
            let broken = reconcile::step_repaired(pass, Some(reason)).report;
            let launched = reconcile::step_launched(pass, window).report;
            let lost = reconcile::step_launch_failed(pass, reason, again).report;
            &&& repaired.moved == r.moved + 1 && repaired.failed == r.failed && repaired.launched
                == r.launched && repaired.unchanged == r.unchanged && repaired.skipped == r.skipped
            &&& broken.failed == r.failed + 1 && broken.moved == r.moved && broken.launched
                == r.launched && broken.unchanged == r.unchanged && broken.skipped == r.skipped
            &&& launched.launched == r.launched + 1 && launched.failed == r.failed
                && launched.moved == r.moved && launched.unchanged == r.unchanged
                && launched.skipped == r.skipped
            &&& lost.failed == r.failed + 1 && lost.launched == r.launched && lost.moved == r.moved
                && lost.unchanged == r.unchanged && lost.skipped == r.skipped
            &&& reconcile::step_repaired(pass, None).index == pass.index + 1
            &&& reconcile::step_launched(pass, window).index == pass.index + 1
            &&& reconcile::step_launch_failed(pass, reason, again).index == pass.index + 1
            &&& windows::is_same_taken(window, window) ==> windows::is_taken(
                reconcile::step_launched(pass, window).used,
                window,
            )
        }),
{
    let used = pass.used;
    let after = reconcile::step_launched(pass, window).used;
    if !windows::is_taken(used, window) {
        assert(after[used.len() as int] == window);
    }
}

/// What a pass launches is the target itself, by the executable that was
/// found, and it is told whether its monitor is there.  Without an executable
/// the target fails, and nothing is launched.
pub proof fn law_missing_targets_are_launched(pass: PassView, binary: Seq<char>)
    requires
        0 <= pass.index < pass.targets.len(),
        !pass.options.dry_run,
    ensures
        ({
            let target = pass.targets[pass.index].client;
            let (after, action) = reconcile::after_resolve(pass, Some(binary));
            &&& action is Launch ==> {
                &&& action->client == target
                &&& action->binary == binary
                &&& action->Launch_monitor_available == pass.available[pass.index]
                &&& after == pass
            }
            &&& !text::same_ignoring_case(target.class, "brave-browser"@)
                && !text::same_ignoring_case(target.initial_class, "brave-browser"@) ==> action
                is Launch
            &&& reconcile::after_resolve(pass, None).1 is Continue
            &&& reconcile::after_resolve(pass, None).0.report.failed == pass.report.failed + 1
        }),
{
}

/// The windows that no target was given are counted as extra.
pub proof fn law_extra_windows_are_counted(pass: PassView, window: ObservedClientView)
    ensures
        ({
            let extras = reconcile::extra_windows(pass);
            let report = reconcile::final_report(pass);
            &&& report.extras == extras.len()
            &&& extras.contains(window) <==> pass.latest.contains(window) && forall|k: int|
                0 <= k < pass.used.len() ==> !windows::is_same_taken(
                    #[trigger] pass.used[k],
                    window,
                )
            &&& report.failed == pass.report.failed && report.moved == pass.report.moved
            &&& !pass.options.verbose ==> report.details == pass.report.details
            &&& pass.options.verbose ==> report.details.len() == pass.report.details.len()
                + extras.len()
        }),
{
    let keep = |w: ObservedClientView| !windows::is_taken(pass.used, w);
    let extras = pass.latest.filter(keep);
    if extras.contains(window) {
        let k = choose|k: int| 0 <= k < extras.len() && extras[k] == window;
        pass.latest.lemma_filter_pred(keep, k);
        pass.latest.lemma_filter_contains_rev(keep, window);
    }
    if pass.latest.contains(window) && keep(window) {
        let i = choose|i: int| 0 <= i < pass.latest.len() && pass.latest[i] == window;
        pass.latest.lemma_filter_contains(keep, i);
    }
}

/// Windows that came up since a launch failed, and those that are kept for a
/// later target, are excluded, and so are the protected ones.
pub proof fn law_excluded_windows(pass: PassView, address: Seq<char>)
    ensures
        pass.protected.contains(address) ==> reconcile::excluded(pass).contains(address),
        pass.strays.contains(address) ==> reconcile::excluded(pass).contains(address),
{
}

/// A dry run shows every command as it would be sent.
pub proof fn law_dry_runs_show_the_commands(commands: Seq<Seq<char>>, i: int)
    requires
        0 <= i < commands.len(),
    ensures
        ({
            let shown = report::shown_commands(commands);
            let n = "  hyprctl dispatch "@.len() as int;
            &&& shown.len() == commands.len()
            &&& shown[i].take(n) == "  hyprctl dispatch "@
            &&& shown[i].skip(n) == commands[i]
        }),
{
    let n = "  hyprctl dispatch "@.len() as int;
    let shown = report::shown_commands(commands);
    assert(shown[i].take(n) =~= "  hyprctl dispatch "@);
    assert(shown[i].skip(n) =~= commands[i]);
}

// ── Restoring ──────────────────────────────────────────────────────────────

/// A saved window that is wanted, and is one of neither Brave nor a web
/// application, is restored as it was saved, on the monitor that bears the
/// name of its own; one whose class is ignored is passed over.
pub proof fn law_saved_windows_are_restored(
    client: SessionClientView,
    saved: Seq<MonitorView>,
    monitors: Seq<HyprMonitorView>,
    settings: ConfigView,
    entries: Seq<Seq<char>>,
    k: int,
)
    requires
        !text::same_ignoring_case(client.class, "brave-browser"@),
        !text::same_ignoring_case(client.initial_class, "brave-browser"@),
        !text::starts_with_ignoring_case(client.class, "chrome-"@),
        !text::starts_with_ignoring_case(client.initial_class, "chrome-"@),
        client.monitor.len() > 0,
    ensures
        ({
            let item = restoring::plain_item(client, saved, monitors, settings, entries);
            let wanted = sessions::is_unlisted(settings.ignore_classes, client.class)
                && sessions::is_unlisted(settings.ignore_classes, client.initial_class);
            &&& !wanted ==> item is Ignored
            &&& wanted && is_monitor_named(monitors, client.monitor, k) ==> item
                == RestoreItemView::Window {
                target: client,
                placed: placement::adapted(client, saved, Some(monitors[k])),
                name: client.class,
                by_profile: false,
                available: true,
            }
            &&& wanted && is_no_monitor_named(monitors, client.monitor) ==> item
                == RestoreItemView::Window {
                target: client,
                placed: client,
                name: client.class,
                by_profile: false,
                available: false,
            }
        }),
{
    lemma_monitor_named(monitors, client.monitor, k);
    assert(windows::is_wanted(settings, client) == (sessions::is_unlisted(
        settings.ignore_classes,
        client.class,
    ) && sessions::is_unlisted(settings.ignore_classes, client.initial_class)));
}

/// When a restore gives an open window to a saved one, the commands that it
/// asks for turn the window into the saved one at its new place, and a window
/// that needs none is one already and counts as skipped.
pub proof fn law_restored_windows_become_the_saved_ones(
    state: RestoringView,
    window: ObservedClientView,
    target: SessionClientView,
    placed: SessionClientView,
    name: Seq<char>,
    by_profile: bool,
    available: bool,
)
    requires
        0 <= state.index < state.items.len(),
        state.items[state.index] == (RestoreItemView::Window {
            target,
            placed,
            name,
            by_profile,
            available,
        }),
        !state.dry_run,
        placement::all_plain(window.client.address),
    ensures
        ({
            let (after, action) = restoring::takes_window(state, window);
            let done = effects::effects(desk_of(window), commands_in(action));
            let applies = placed.fullscreen == 0 && (placed.monitor.len() == 0 || available);
            &&& done.window.pinned == placed.pinned
            &&& done.window.floating == placed.floating
            &&& done.window.fullscreen == placed.fullscreen
            &&& applies ==> done.window.size == placed.size && done.window.at == placed.at
            &&& placed.workspace_name.len() == 0 ==> done.window.workspace.id == placed.workspace
            &&& action is Repair ==> action->window == window && after.pending == Some(window)
            &&& !(action is Repair) ==> {
                &&& action is Continue
                &&& after.report.skipped == state.report.skipped + 1
                &&& after.index == state.index + 1
            }
        }),
{
    lemma_repaired(placed, window, available);
    let commands = reconcile::repair_commands(placed, window, available);
    let (after, action) = restoring::takes_window(state, window);
    assert(commands_in(action) =~= commands);
}

/// What a restore launches is the saved window at its new place, by the
/// executable that was found.  Repairs and launches that succeed count as
/// restored, and those that do not as failed.
pub proof fn law_restores_launch_and_count(
    state: RestoringView,
    window: ObservedClientView,
    target: SessionClientView,
    placed: SessionClientView,
    name: Seq<char>,
    by_profile: bool,
    available: bool,
    binary: Seq<char>,
    reason: Seq<char>,
)
    requires
        0 <= state.index < state.items.len(),
        state.items[state.index] == (RestoreItemView::Window {
            target,
            placed,
            name,
            by_profile,
            available,
        }),
        !state.dry_run,
    ensures
        ({
            let r = state.report;
            let repaired = restoring::step_repaired(state, None).report;
            let broken = restoring::step_repaired(state, Some(reason)).report;
            let launched = restoring::step_launched(state, window).report;
            let lost = restoring::step_launch_failed(state, reason).report;
            &&& restoring::after_resolve(state, Some(binary)) == (
                state,
                PassActionView::Launch { client: placed, binary, monitor_available: available },
            )
            &&& restoring::after_resolve(state, None).1 is Continue
            &&& restoring::after_resolve(state, None).0.report.failed == r.failed + 1
            &&& repaired.restored == r.restored + 1 && repaired.failed == r.failed
                && repaired.skipped == r.skipped
            &&& broken.failed == r.failed + 1 && broken.restored == r.restored && broken.skipped
                == r.skipped
            &&& launched.restored == r.restored + 1 && launched.failed == r.failed
                && launched.skipped == r.skipped
            &&& lost.failed == r.failed + 1 && lost.restored == r.restored && lost.skipped
                == r.skipped
        }),
{
}

/// A window is restored only by a command that is trusted, and its executable
/// is looked for first.
pub proof fn law_untrusted_windows_fail(
    state: RestoringView,
    target: SessionClientView,
    placed: SessionClientView,
    name: Seq<char>,
    by_profile: bool,
    available: bool,
)
    requires
        0 <= state.index < state.items.len(),
        state.items[state.index] == (RestoreItemView::Window {
            target,
            placed,
            name,
            by_profile,
            available,
        }),
    ensures
        ({
            let (after, action) = restoring::lacks_window(state);
            &&& action is Continue || action == PassActionView::Resolve {
                command: launch::binary_of(placed),
            }
            &&& !launch::is_trusted(placed, state.settings) ==> action is Continue
            &&& !launch::is_trusted(placed, state.settings) && state.latest.len() == 0
                && !target.profile_identity_ambiguous ==> after.report.failed
                == state.report.failed + 1
            &&& launch::is_trusted(placed, state.settings) && state.latest.len() == 0
                && !target.profile_identity_ambiguous ==> action == PassActionView::Resolve {
                command: launch::binary_of(placed),
            }
        }),
{
    if state.latest.len() == 0 {
        assert(!existing::has_unavailable(
            target,
            state.latest,
            state.consumed,
            state.settings,
        ));
        assert(!existing::has_rival(target, state.latest, state.consumed, state.settings));
    }
}

// ── Restoring in order ─────────────────────────────────────────────────────

/// Where no profiles are to be opened, a restore has one item for each saved
/// window, by workspace, from top to bottom and from left to right.
pub proof fn law_every_saved_window_is_an_item(
    session: SessionView,
    monitors: Seq<HyprMonitorView>,
    settings: ConfigView,
    entries: Seq<Seq<char>>,
    i: int,
)
    requires
        session.brave_profiles.len() == 0,
        settings.apps.len() == 0,
        0 <= i < session.clients.len(),
    ensures
        ({
            let items = restoring::restore_items(session, monitors, settings, entries);
            &&& items.len() == session.clients.len()
            &&& items.contains(
                restoring::plain_item(
                    session.clients[i],
                    session.monitors,
                    monitors,
                    settings,
                    entries,
                ),
            )
        }),
{
    broadcast use vstd::seq_lib::group_to_multiset_ensures;

    assert(lists::key_from(settings.apps, "brave-browser"@, 0) is None);
    assert(lists::key_from(settings.apps, ""@, 0) is None);
    let sorted = lists::sorted(
        session.clients,
        |a: SessionClientView, b: SessionClientView| SessionClient::precedes(a, b),
    );
    lemma_saved_windows_are_sorted(session.clients);
    lemma_plain_items(sorted, session.monitors, monitors, settings, entries);
    let x = session.clients[i];
    assert(session.clients.contains(x));
    assert(session.clients.to_multiset().contains(x));
    assert(sorted.to_multiset().contains(x));
    assert(sorted.contains(x));
    let k = choose|k: int| 0 <= k < sorted.len() && sorted[k] == x;
    let items = restoring::restore_items(session, monitors, settings, entries);
    assert(items[k] == restoring::plain_item(
        x,
        session.monitors,
        monitors,
        settings,
        entries,
    ));
}

proof fn lemma_saved_windows_are_sorted(clients: Seq<SessionClientView>)
    ensures
        ({
            let sorted = lists::sorted(
                clients,
                |a: SessionClientView, b: SessionClientView| SessionClient::precedes(a, b),
            );
            &&& sorted.len() == clients.len()
            &&& sorted.to_multiset() == clients.to_multiset()
            &&& forall|i: int, j: int|
                0 <= i < j < clients.len() ==> !SessionClient::precedes(
                    #[trigger] sorted[j],
                    #[trigger] sorted[i],
                )
        }),
{
    let f = |a: SessionClientView, b: SessionClientView| SessionClient::precedes(a, b);
    assert forall|a: SessionClientView, b: SessionClientView| #[trigger] f(a, b) implies !f(
        b,
        a,
    ) by {}
    assert forall|a: SessionClientView, b: SessionClientView, c: SessionClientView|
        !(#[trigger] f(a, b)) && !(#[trigger] f(b, c)) implies !f(a, c) by {}
    lists::law_sorting_orders(clients, f);
    let sorted = lists::sorted(clients, f);
    assert forall|i: int, j: int| 0 <= i < j < clients.len() implies !SessionClient::precedes(
        #[trigger] sorted[j],
        #[trigger] sorted[i],
    ) by {
        assert(!f(sorted[j], sorted[i]));
    }
}

proof fn lemma_plain_items(
    clients: Seq<SessionClientView>,
    saved: Seq<MonitorView>,
    monitors: Seq<HyprMonitorView>,
    settings: ConfigView,
    entries: Seq<Seq<char>>,
)
    ensures
        ({
            let items = restoring::plain_items(
                clients,
                saved,
                monitors,
                settings,
                entries,
                false,
                false,
            );
            &&& items.len() == clients.len()
            &&& forall|k: int|
                0 <= k < clients.len() ==> #[trigger] items[k] == restoring::plain_item(
                    clients[k],
                    saved,
                    monitors,
                    settings,
                    entries,
                )
        }),
    decreases clients.len(),
{
    if clients.len() > 0 {
        lemma_plain_items(clients.drop_last(), saved, monitors, settings, entries);
    }
}

/// The windows of a restore come in order: an earlier item is not of a later
/// workspace, nor lower on one workspace, nor further right on one height.
pub proof fn law_saved_windows_are_restored_in_order(
    clients: Seq<SessionClientView>,
    i: int,
    j: int,
)
    requires
        0 <= i < j < clients.len(),
    ensures
        ({
            let sorted = lists::sorted(
                clients,
                |a: SessionClientView, b: SessionClientView| SessionClient::precedes(a, b),
            );
            let (a, b) = (sorted[i], sorted[j]);
            &&& a.workspace <= b.workspace
            &&& a.workspace == b.workspace ==> a.at.1 <= b.at.1
            &&& a.workspace == b.workspace && a.at.1 == b.at.1 ==> a.at.0 <= b.at.0
        }),
{
    lemma_saved_windows_are_sorted(clients);
    let sorted = lists::sorted(
        clients,
        |a: SessionClientView, b: SessionClientView| SessionClient::precedes(a, b),
    );
    assert(!SessionClient::precedes(sorted[j], sorted[i]));
}

// ── Obstacles ──────────────────────────────────────────────────────────────

/// A window that could be taken for a target by its class: it is not taken
/// yet, its class is not ignored, and it is the saved one.
pub open spec fn is_free_namesake(
    target: SessionClientView,
    window: ObservedClientView,
    used: Seq<ObservedClientView>,
    settings: ConfigView,
) -> bool {
    &&& target.class.len() > 0
    &&& target.class == window.client.class
    &&& sessions::is_wanted(settings.ignore_classes, window.client)
    &&& forall|k: int| 0 <= k < used.len() ==> !windows::is_same_taken(#[trigger] used[k], window)
}

proof fn lemma_eligible(pass: PassView, i: int)
    requires
        0 <= i < pass.latest.len(),
        !reconcile::excluded(pass).contains(pass.latest[i].client.address),
    ensures
        reconcile::eligible_windows(pass).contains(pass.latest[i]),
{
    let keep = |w: ObservedClientView| !reconcile::excluded(pass).contains(w.client.address);
    pass.latest.lemma_filter_contains(keep, i);
}

/// While doubtful matches are not allowed, a target for which some free window
/// of its application is open is skipped rather than opened once more; where
/// they are allowed, such a window is no obstacle to an ordinary target.
pub proof fn law_cautious_passes_open_nothing_twice(pass: PassView, i: int)
    requires
        0 <= pass.index < pass.targets.len(),
        0 <= i < pass.latest.len(),
        !reconcile::excluded(pass).contains(pass.latest[i].client.address),
        is_free_namesake(
            pass.targets[pass.index].client,
            pass.latest[i],
            pass.used,
            pass.settings,
        ),
    ensures
        ({
            let target = pass.targets[pass.index].client;
            let skipped = reconcile::lacks_window(pass) is Ok && (reconcile::lacks_window(
                pass,
            )->Ok_0).1 is Continue && (reconcile::lacks_window(pass)->Ok_0).0.report.skipped
                == pass.report.skipped + 1;
            &&& !pass.options.allow_ambiguous_identity ==> skipped
            &&& pass.options.allow_ambiguous_identity && recognition::is_ordinary(target)
                && target.address is None && launch::is_trusted(target, pass.settings)
                && pass.binaries is None ==> reconcile::lacks_window(pass) == Ok::<
                (PassView, PassActionView),
                RestoreErrorView,
            >((pass, PassActionView::Resolve { command: launch::binary_of(target) }))
            &&& target.class == "chromium"@ && target.initial_class == target.class ==> skipped
            &&& existing::is_unavailable(target, pass.latest[i]) ==> skipped
        }),
{
    let target = pass.targets[pass.index].client;
    let open = reconcile::eligible_windows(pass);
    let window = pass.latest[i];
    lemma_eligible(pass, i);
    let k = choose|k: int| 0 <= k < open.len() && open[k] == window;
    assert(existing::is_rival(target, open[k], pass.used, pass.settings)) by {
        assert(!windows::is_taken(pass.used, window));
        assert(windows::is_heeded(pass.settings, window.client) == sessions::is_wanted(
            pass.settings.ignore_classes,
            window.client,
        ));
    }
    assert(existing::has_rival(target, open, pass.used, pass.settings));
    if existing::is_unavailable(target, window) {
        assert(existing::has_unavailable(target, open, pass.used, pass.settings));
    }
    if target.class == "chromium"@ && target.initial_class == target.class {
        reveal_strlit("chromium");
        reveal_strlit("chrome-");
        assert("chromium"@.take(7)[5] == 'i');
        assert(text::lowered("chromium"@.take(7))[5] == 'i');
        assert(text::lowered("chrome-"@)[5] == 'e');
        assert(identity::is_chromium(target));
    }
    if recognition::is_ordinary(target) && target.address is None {
        assert forall|m: int| 0 <= m < open.len() implies !existing::is_unavailable(
            target,
            #[trigger] open[m],
        ) by {}
        assert(!existing::has_unavailable(target, open, pass.used, pass.settings));
        assert(!identity::is_chromium(target));
    }
}

/// A Brave window of which it is in doubt what profile it shows keeps a pass
/// from opening a profile once more.
pub proof fn law_doubtful_browsers_are_not_opened_twice(
    pass: PassView,
    binary: Seq<char>,
    i: int,
)
    requires
        0 <= pass.index < pass.targets.len(),
        !pass.options.dry_run,
        pass.targets[pass.index].client.class == "brave-browser"@,
    ensures
        ({
            let target = pass.targets[pass.index].client;
            let (after, action) = reconcile::after_resolve(pass, Some(binary));
            &&& 0 <= i < pass.latest.len() && !reconcile::excluded(pass).contains(
                pass.latest[i].client.address,
            ) && is_free_namesake(target, pass.latest[i], pass.used, pass.settings)
                && pass.latest[i].profile_identity_ambiguous ==> action is Continue
                && after.report.skipped == pass.report.skipped + 1
            &&& (forall|k: int|
                0 <= k < pass.latest.len() ==> !(#[trigger] pass.latest[
                    k
                ]).profile_identity_ambiguous) ==> action is Launch
        }),
{
    let target = pass.targets[pass.index].client;
    let open = reconcile::eligible_windows(pass);
    let keep = |w: ObservedClientView| !reconcile::excluded(pass).contains(w.client.address);
    if 0 <= i < pass.latest.len() && !reconcile::excluded(pass).contains(
        pass.latest[i].client.address,
    ) && is_free_namesake(target, pass.latest[i], pass.used, pass.settings)
        && pass.latest[i].profile_identity_ambiguous {
        let window = pass.latest[i];
        lemma_eligible(pass, i);
        let k = choose|k: int| 0 <= k < open.len() && open[k] == window;
        assert(!windows::is_taken(pass.used, window));
        assert(windows::is_heeded(pass.settings, window.client) == sessions::is_wanted(
            pass.settings.ignore_classes,
            window.client,
        ));
        assert(existing::is_rival(target, open[k], pass.used, pass.settings));
        assert(existing::has_ambiguous_profile(target, open, pass.used, pass.settings));
    }
    if forall|k: int|
        0 <= k < pass.latest.len() ==> !(#[trigger] pass.latest[k]).profile_identity_ambiguous {
        assert forall|m: int| 0 <= m < open.len() implies !(#[trigger] open[
            m
        ]).profile_identity_ambiguous by {
            pass.latest.lemma_filter_pred(keep, m);
            pass.latest.lemma_filter_contains_rev(keep, open[m]);
            let j = choose|j: int| 0 <= j < pass.latest.len() && pass.latest[j] == open[m];
            assert(!pass.latest[j].profile_identity_ambiguous);
        }
    }
}

/// A restore fails for a window at its saved address that nothing proves to be
/// the saved one, and for a Chromium window beside which another is open; a
/// profile is passed over where a free Brave window may show it, or where it
/// is in doubt itself.
pub proof fn law_restores_stop_at_doubt(
    state: RestoringView,
    target: SessionClientView,
    placed: SessionClientView,
    name: Seq<char>,
    by_profile: bool,
    available: bool,
    i: int,
)
    requires
        0 <= state.index < state.items.len(),
        state.items[state.index] == (RestoreItemView::Window {
            target,
            placed,
            name,
            by_profile,
            available,
        }),
        0 <= i < state.latest.len(),
        is_free_namesake(target, state.latest[i], state.consumed, state.settings),
    ensures
        ({
            let (after, action) = restoring::lacks_window(state);
            let window = state.latest[i];
            let r = state.report;
            &&& existing::is_unavailable(target, window) ==> action is Continue
                && after.report.failed == r.failed + 1
            &&& !by_profile && target.class == "chromium"@ && target.initial_class == target.class
                ==> action is Continue && after.report.failed == r.failed + 1
            &&& by_profile && target.class == "brave-browser"@ && target.address is None && (
            window.profile_identity_ambiguous || target.profile_identity_ambiguous) ==> action
                is Continue && after.report.skipped == r.skipped + 1
            &&& recognition::is_ordinary(target) && target.address is None && !by_profile
                && launch::is_trusted(placed, state.settings) ==> action is Resolve
        }),
{
    let window = state.latest[i];
    let open = state.latest;
    assert(!windows::is_taken(state.consumed, window));
    assert(windows::is_heeded(state.settings, window.client) == sessions::is_wanted(
        state.settings.ignore_classes,
        window.client,
    ));
    assert(existing::is_rival(target, open[i], state.consumed, state.settings));
    assert(existing::has_rival(target, open, state.consumed, state.settings));
    if existing::is_unavailable(target, window) {
        assert(existing::has_unavailable(target, open, state.consumed, state.settings));
    }
    if window.profile_identity_ambiguous && target.class == "brave-browser"@ {
        assert(existing::has_ambiguous_profile(
            target,
            open,
            state.consumed,
            state.settings,
        ));
    }
    if target.class == "chromium"@ && target.initial_class == target.class {
        reveal_strlit("chromium");
        reveal_strlit("chrome-");
        assert("chromium"@.take(7)[5] == 'i');
        assert(text::lowered("chromium"@.take(7))[5] == 'i');
        assert(text::lowered("chrome-"@)[5] == 'e');
        assert(identity::is_chromium(target));
    }
    if target.address is None {
        assert forall|m: int| 0 <= m < open.len() implies !existing::is_unavailable(
            target,
            #[trigger] open[m],
        ) by {}
        assert(!existing::has_unavailable(target, open, state.consumed, state.settings));
    }
    if recognition::is_ordinary(target) {
        assert(!identity::is_chromium(target));
    }
}

/// A pass that was given executables launches each target with its own.
pub proof fn law_checked_executables_are_used(pass: PassView, binaries: Seq<Seq<char>>)
    requires
        0 <= pass.index < pass.targets.len(),
        !pass.options.dry_run,
        pass.latest.len() == 0,
        pass.binaries == Some(binaries),
        launch::is_trusted(pass.targets[pass.index].client, pass.settings),
    ensures
        pass.index < binaries.len() ==> reconcile::lacks_window(pass) == Ok::<
            (PassView, PassActionView),
            RestoreErrorView,
        >(
            (
                pass,
                PassActionView::Launch {
                    client: pass.targets[pass.index].client,
                    binary: binaries[pass.index],
                    monitor_available: pass.available[pass.index],
                },
            ),
        ),
        pass.index >= binaries.len() ==> reconcile::lacks_window(pass) is Err,
{
    lemma_none_eligible(pass);
}

proof fn lemma_none_eligible(pass: PassView)
    requires
        pass.latest.len() == 0,
    ensures
        reconcile::eligible_windows(pass).len() == 0,
{
    let keep = |w: ObservedClientView| !reconcile::excluded(pass).contains(w.client.address);
    pass.latest.lemma_filter_len(keep);
}

/// A target whose command is not trusted fails, and nothing is looked for or
/// launched; one that is trusted has its executable looked for.
pub proof fn law_untrusted_targets_fail(pass: PassView)
    requires
        0 <= pass.index < pass.targets.len(),
        pass.latest.len() == 0,
        pass.binaries is None,
    ensures
        ({
            let target = pass.targets[pass.index].client;
            let step = reconcile::lacks_window(pass);
            &&& step is Ok
            &&& !launch::is_trusted(target, pass.settings) ==> (step->Ok_0).1 is Continue && (
            step->Ok_0).0.report.failed == pass.report.failed + 1
            &&& launch::is_trusted(target, pass.settings) ==> (step->Ok_0).1
                == PassActionView::Resolve { command: launch::binary_of(target) }
        }),
{
    lemma_none_eligible(pass);
}

/// A restore takes a window for a saved one by its class alone, where nothing
/// was saved that could tell better.
pub proof fn law_restores_take_windows_by_class(
    state: RestoringView,
    target: SessionClientView,
    placed: SessionClientView,
    name: Seq<char>,
    available: bool,
    window: ObservedClientView,
)
    requires
        0 <= state.index < state.items.len(),
        state.items[state.index] == (RestoreItemView::Window {
            target,
            placed,
            name,
            by_profile: false,
            available,
        }),
        state.latest == seq![window],
        state.consumed.len() == 0,
        sessions::is_wanted(state.settings.ignore_classes, window.client),
        recognition::is_ordinary(target),
        target.address is None,
        target.class.len() > 0,
        target.class == window.client.class,
        target.initial_class.len() == 0,
        target.title.len() == 0,
        target.initial_title.len() == 0,
        target.launch.args.len() == 0,
    ensures
        restoring::considers(state) == restoring::takes_window(state, window),
{
    evidence::law_class_alone_is_doubtful(target, window);
    let none = Set::<Seq<char>>::empty();
    assert(windows::is_heeded(state.settings, window.client) == sessions::is_wanted(
        state.settings.ignore_classes,
        window.client,
    ));
    assert(existing::is_available(window, state.consumed, none, state.settings));
    existing::law_existing_match_is_best(
        target,
        state.latest,
        state.consumed,
        none,
        state.settings,
        true,
        1,
    );
    let available_windows = existing::available_windows(
        state.latest,
        state.consumed,
        none,
        state.settings,
    );
    assert(!identity::is_chromium(target));
    assert(!identity::is_relaunched(target, window));
    assert(existing::offer(target, window, available_windows, true) is Some);
    assert(existing::offer_of(
        target,
        state.latest,
        state.consumed,
        none,
        state.settings,
        true,
        0,
    ) is Some);
}

// ── Before a window is looked for ──────────────────────────────────────────

/// A Brave target without a sure profile is skipped, and no window is looked
/// for; any other target has the windows looked at first.  When all targets
/// are done the windows are looked at once more.
pub proof fn law_targets_without_a_profile_are_skipped(pass: PassView)
    requires
        !pass.options.dry_run,
    ensures
        reconcile::step_on(pass) is Ok,
        pass.index < pass.targets.len() && identity::lacks_profile(
            pass.targets[pass.index].client,
        ) ==> ({
            let step = reconcile::step_on(pass)->Ok_0;
            &&& step.1 is Continue
            &&& step.0.report.skipped == pass.report.skipped + 1
            &&& step.0.index == pass.index + 1
        }),
        pass.index < pass.targets.len() && !identity::lacks_profile(
            pass.targets[pass.index].client,
        ) ==> reconcile::step_on(pass)->Ok_0 == (pass, PassActionView::Observe),
        pass.index >= pass.targets.len() ==> reconcile::step_on(pass)->Ok_0 == (
            pass,
            PassActionView::Observe,
        ),
{
}

/// More than five hundred and twelve open windows end a pass.
pub proof fn law_too_many_windows_end_a_pass(
    pass: PassView,
    state: RestoringView,
    current: Seq<ObservedClientView>,
)
    ensures
        pass.index < pass.targets.len() && current.len() > 512 ==> reconcile::step_observed(
            pass,
            current,
        ) == Err::<(PassView, PassActionView), RestoreErrorView>(
            RestoreErrorView::TooManyWindows {
                targets: pass.targets.len(),
                current: current.len(),
                limit: 512,
            },
        ),
        pass.index >= pass.targets.len() ==> reconcile::step_observed(pass, current) is Ok && (
        reconcile::step_observed(pass, current)->Ok_0).1 is Finish,
        current.len() > 512 ==> restoring::step_observed(state, current) is Err,
        current.len() <= 512 ==> restoring::step_observed(state, current) is Ok,
{
}

/// What a restore cannot bring back counts as failed, and what it need not as
/// skipped; when all is done it ends.
pub proof fn law_lost_and_ignored_windows_are_counted(state: RestoringView, line: Seq<char>)
    requires
        0 <= state.index,
    ensures
        ({
            let (after, action) = restoring::step_on(state);
            let r = state.report;
            &&& state.index >= state.items.len() ==> action is Finish && after == state
            &&& state.index < state.items.len() && state.items[state.index]
                == RestoreItemView::Lost { line } ==> action is Continue && after.report.failed
                == r.failed + 1 && after.report.skipped == r.skipped
            &&& state.index < state.items.len() && state.items[state.index]
                == RestoreItemView::Ignored { line } ==> action is Continue && after.report.skipped
                == r.skipped + 1 && after.report.failed == r.failed
            &&& state.index < state.items.len() && state.items[state.index] is Window ==> action
                is Observe && after == state
        }),
{
}

/// A dry run counts what it would do: a window to be repaired as moved or
/// restored, one to be opened as launched or restored, one without an
/// executable as failed.
pub proof fn law_dry_runs_count_what_they_would_do(
    pass: PassView,
    window: ObservedClientView,
    binary: Seq<char>,
)
    requires
        0 <= pass.index < pass.targets.len(),
        pass.options.dry_run,
    ensures
        ({
            let r = pass.report;
            let target = pass.targets[pass.index].client;
            let available = pass.available[pass.index];
            let (taken, action) = reconcile::takes_window(pass, window);
            let n = reconcile::repair_commands(target, window, available).len();
            let (opened, after) = reconcile::after_resolve(pass, Some(binary));
            let (lost, end) = reconcile::after_resolve(pass, None);
            &&& action is Continue && after is Continue && end is Continue
            &&& n == 0 ==> taken.report.unchanged == r.unchanged + 1 && taken.report.moved
                == r.moved
            &&& n > 0 ==> taken.report.moved == r.moved + 1 && taken.report.unchanged
                == r.unchanged
            &&& opened.report.launched == r.launched + 1 && opened.report.failed == r.failed
            &&& lost.report.failed == r.failed + 1 && lost.report.launched == r.launched
        }),
{
}

/// Windows that came up after a failed launch stay excluded, whatever is seen
/// later, and a pass goes by the windows that it saw last.
pub proof fn law_strays_stay_excluded(
    pass: PassView,
    current: Seq<ObservedClientView>,
    address: Seq<char>,
)
    ensures
        ({
            let after = reconcile::sees(pass, current);
            &&& after.latest == current
            &&& pass.strays.contains(address) ==> after.strays.contains(address)
            &&& after.protected == pass.protected && after.used == pass.used
            &&& after.index == pass.index && after.report == pass.report
        }),
{
}

// ── The start of a pass ────────────────────────────────────────────────────

/// A pass starts with every target placed on its monitor, nothing taken and
/// nothing counted, and with what it was told to protect and to launch.  Its
/// plan gives each target one of the windows that were seen, or none.
pub proof fn law_pass_starts_with_its_targets_placed(
    pass: PassView,
    targets: Seq<ReconcileTargetView>,
    saved: Seq<MonitorView>,
    monitors: Seq<HyprMonitorView>,
    observed: Seq<ObservedClientView>,
    protected: Set<Seq<char>>,
    binaries: Option<Seq<Seq<char>>>,
    settings: ConfigView,
    options: PassOptions,
    strategy: MatchingStrategy,
    i: int,
    k: int,
)
    requires
        reconcile::is_start(
            pass,
            targets,
            saved,
            monitors,
            observed,
            protected,
            binaries,
            settings,
            options,
            strategy,
        ),
        0 <= i < targets.len() <= usize::MAX,
        observed.len() <= usize::MAX,
        targets[i].client.monitor.len() > 0,
    ensures
        pass.targets.len() == targets.len(),
        is_monitor_named(monitors, targets[i].client.monitor, k) ==> pass.targets[i].client
            == placement::adapted(targets[i].client, saved, Some(monitors[k])) && pass.available[i],
        is_no_monitor_named(monitors, targets[i].client.monitor) ==> pass.targets[i].client
            == targets[i].client && !pass.available[i],
        pass.latest == observed && pass.planned == observed,
        pass.used.len() == 0,
        pass.protected == protected && pass.binaries == binaries,
        pass.settings == settings && pass.options == options,
        pass.index == 0 && pass.pending is None,
        pass.report.matched == 0 && pass.report.unchanged == 0 && pass.report.moved == 0
            && pass.report.launched == 0 && pass.report.skipped == 0 && pass.report.failed == 0
            && pass.report.extras == 0 && pass.report.details.len() == 0,
        pass.plan.len() == targets.len(),
        pass.plan[i] is Some ==> pass.plan[i]->0.current_index < observed.len(),
{
    law_targets_are_placed_on_their_monitors(targets, saved, monitors, i, k);
    let adapted = reconcile::adapted_targets(targets, saved, monitors);
    geometry::law_adapting_changes_geometry_only(
        targets[i].client,
        saved,
        placement::monitor_named(monitors, targets[i].client.monitor),
    );
    assert(adapted[i].client.monitor == targets[i].client.monitor);
    law_targets_are_placed_on_their_monitors(adapted, saved, monitors, i, k);
    planning::law_reconciliation_is_one_to_one(
        reconcile::clients_of(adapted),
        observed,
        MatchPolicy::Normal,
        false,
        strategy,
        pass.plan,
    );
}

/// A profile is restored as its target, on the monitor that bears the name of
/// its own.
pub proof fn law_profiles_are_restored(
    target: ReconcileTargetView,
    saved: Seq<MonitorView>,
    monitors: Seq<HyprMonitorView>,
    k: int,
)
    requires
        target.client.class == "brave-browser"@,
        target.client.profile_directory is Some,
        target.client.monitor.len() > 0,
        is_monitor_named(monitors, target.client.monitor, k),
    ensures
        ({
            let placed = placement::adapted(target.client, saved, Some(monitors[k]));
            restoring::profile_items(seq![target], saved, monitors) == seq![
                RestoreItemView::Window {
                    target: placed,
                    placed,
                    name: target.label,
                    by_profile: true,
                    available: true,
                },
            ]
        }),
{
    lemma_monitor_named(monitors, target.client.monitor, k);
    assert(seq![target].drop_last() =~= Seq::<ReconcileTargetView>::empty());
    let items = restoring::profile_items(seq![target], saved, monitors);
    assert(restoring::profile_items(
        Seq::<ReconcileTargetView>::empty(),
        saved,
        monitors,
    ) =~= Seq::<RestoreItemView>::empty());
    assert(items.len() == 1);
    assert(items =~= seq![items[0]]);
}

/// Where no profile can be opened for the Brave windows of a session, and one
/// of them has no sure profile, each of them counts as lost; a session whose
/// Brave windows all have one is never treated so.
pub proof fn law_unsure_browsers_are_lost(
    session: SessionView,
    settings: ConfigView,
    client: SessionClientView,
    saved: Seq<MonitorView>,
    monitors: Seq<HyprMonitorView>,
    entries: Seq<Seq<char>>,
)
    ensures
        targets::lacking_profile_from(session.clients, 0) is None ==> !restoring::is_unsafe_mode(
            session,
            settings,
        ),
        targets::profile_targets(session, settings) is None ==> !restoring::is_unsafe_mode(
            session,
            settings,
        ),
        client.class == "brave-browser"@ ==> ({
            let items = restoring::plain_items(
                seq![client],
                saved,
                monitors,
                settings,
                entries,
                true,
                true,
            );
            items.len() == 1 && items[0] is Lost
        }),
        client.class == "brave-browser"@ ==> restoring::plain_items(
            seq![client],
            saved,
            monitors,
            settings,
            entries,
            true,
            false,
        ).len() == 0,
{
    assert(seq![client].drop_last() =~= Seq::<SessionClientView>::empty());
    assert(restoring::plain_items(
        Seq::<SessionClientView>::empty(),
        saved,
        monitors,
        settings,
        entries,
        true,
        true,
    ).len() == 0);
    assert(restoring::plain_items(
        Seq::<SessionClientView>::empty(),
        saved,
        monitors,
        settings,
        entries,
        true,
        false,
    ).len() == 0);
}

} // verus!
