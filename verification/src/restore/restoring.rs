//! Restoring a session window by window.
//!
//! Like a reconciliation pass, this asks for something to be done outside and
//! is told what came of it.

use crate::config;
use crate::config::{Config, ConfigView};
use crate::hyprctl::{HyprMonitor, HyprMonitorView};
use crate::lists;
use crate::lists::{Ordered, TextSet};
use crate::placement;
use crate::placement::ReconcileGeometry;
use crate::restore::existing;
use crate::restore::identity;
use crate::restore::identity::{ObservedClient, ObservedClientView};
use crate::restore::launch;
use crate::restore::launched;
use crate::restore::reconcile;
use crate::restore::reconcile::{PassAction, PassActionView};
use crate::restore::report;
use crate::restore::report::{
    RestoreError, RestoreErrorView, RestoreReport, RestoreReportView, MAX_RECONCILIATION_WINDOWS,
};
use crate::restore::targets;
use crate::restore::targets::{ReconcileTarget, ReconcileTargetView};
use crate::restore::windows;
use crate::restore::windows::ConsumedWindows;
use crate::session;
use crate::session::{Monitor, MonitorView, Session, SessionClient, SessionClientView, SessionView};
use crate::text;
use vstd::prelude::*;

verus! {

// ── What is to be restored ─────────────────────────────────────────────────

/// One thing to do for a session.
#[derive(Debug)]
pub enum RestoreItem {
    /// A window that is surely lost.
    Lost {
        /// What a report tells of it.
        line: String,
    },
    /// A window of an ignored application.
    Ignored {
        /// What a report tells of it.
        line: String,
    },
    /// A window to restore.
    Window {
        /// The window by which open windows are matched.
        target: SessionClient,
        /// The window with its geometry adapted.
        placed: SessionClient,
        /// What a report calls it.
        name: String,
        /// It stands for a browser profile.
        by_profile: bool,
        /// Its monitor exists.
        available: bool,
    },
}

#[verifier::ext_equal]
pub ghost enum RestoreItemView {
    Lost { line: Seq<char> },
    Ignored { line: Seq<char> },
    Window {
        target: SessionClientView,
        placed: SessionClientView,
        name: Seq<char>,
        by_profile: bool,
        available: bool,
    },
}

impl View for RestoreItem {
    type V = RestoreItemView;

    open spec fn view(&self) -> RestoreItemView {
        match *self {
            RestoreItem::Lost { line } => RestoreItemView::Lost { line: line@ },
            RestoreItem::Ignored { line } => RestoreItemView::Ignored { line: line@ },
            RestoreItem::Window { target, placed, name, by_profile, available } => {
                RestoreItemView::Window {
                    target: target@,
                    placed: placed@,
                    name: name@,
                    by_profile,
                    available,
                }
            },
        }
    }
}

impl DeepView for RestoreItem {
    type V = RestoreItemView;

    open spec fn deep_view(&self) -> RestoreItemView {
        self@
    }
}

/// Some saved Brave window has no profile that identifies it.
pub open spec fn some_lacks_profile(clients: Seq<SessionClientView>) -> bool {
    targets::lacking_profile_from(clients, 0) is Some
}

/// Profiles are to be restored, but none is known, although Brave windows were
/// saved; and the user did not ask for none.
pub open spec fn is_unsafe_mode(session: SessionView, settings: ConfigView) -> bool {
    &&& targets::profile_targets(session, settings) is Some
    &&& targets::profile_targets(session, settings)->0.len() == 0
    &&& !(targets::brave_mapping(settings) is Some && targets::brave_mapping(settings)->0.len()
        == 0)
    &&& some_lacks_profile(session.clients)
}

/// What a saved window that is restored by itself asks for.
pub open spec fn plain_item(
    client: SessionClientView,
    saved: Seq<MonitorView>,
    monitors: Seq<HyprMonitorView>,
    settings: ConfigView,
    entries: Seq<Seq<char>>,
) -> RestoreItemView {
    let target = targets::hydrated(client, settings, entries);
    if !windows::is_wanted(settings, client) {
        RestoreItemView::Ignored { line: "SKIP: ignored class '"@ + client.class + "'"@ }
    } else if identity::lacks_profile(client) {
        RestoreItemView::Lost {
            line: "FAIL: "@ + client.title + " has no safe Brave profile identity"@,
        }
    } else {
        RestoreItemView::Window {
            target,
            placed: placement::adapted(
                target,
                saved,
                placement::monitor_named(monitors, target.monitor),
            ),
            name: target.class,
            by_profile: false,
            available: placement::monitor_is_available(monitors, target.monitor),
        }
    }
}

/// What the saved windows ask for.
pub open spec fn plain_items(
    clients: Seq<SessionClientView>,
    saved: Seq<MonitorView>,
    monitors: Seq<HyprMonitorView>,
    settings: ConfigView,
    entries: Seq<Seq<char>>,
    by_profile: bool,
    unsafe_mode: bool,
) -> Seq<RestoreItemView>
    decreases clients.len(),
{
    if clients.len() == 0 {
        Seq::empty()
    } else {
        let before = plain_items(
            clients.drop_last(),
            saved,
            monitors,
            settings,
            entries,
            by_profile,
            unsafe_mode,
        );
        let client = clients.last();
        if unsafe_mode && launch::is_brave(client) {
            before.push(
                RestoreItemView::Lost {
                    line: "FAIL: "@ + client.title
                        + " has no safe Brave profile identity to restore"@,
                },
            )
        } else if by_profile && launch::is_brave(client) {
            before
        } else {
            before.push(plain_item(client, saved, monitors, settings, entries))
        }
    }
}

/// What the profiles ask for.
pub open spec fn profile_items(
    wanted: Seq<ReconcileTargetView>,
    saved: Seq<MonitorView>,
    monitors: Seq<HyprMonitorView>,
) -> Seq<RestoreItemView>
    decreases wanted.len(),
{
    if wanted.len() == 0 {
        Seq::empty()
    } else {
        let before = profile_items(wanted.drop_last(), saved, monitors);
        let target = wanted.last();
        if launch::is_brave(target.client) && target.client.profile_directory is Some {
            let placed = placement::adapted(
                target.client,
                saved,
                placement::monitor_named(monitors, target.client.monitor),
            );
            before.push(
                RestoreItemView::Window {
                    target: placed,
                    placed,
                    name: target.label,
                    by_profile: true,
                    available: placement::monitor_is_available(monitors, target.client.monitor),
                },
            )
        } else {
            before
        }
    }
}

/// What a session asks for: its windows by workspace, from top to bottom and
/// left to right, and then its profiles.
pub open spec fn restore_items(
    session: SessionView,
    monitors: Seq<HyprMonitorView>,
    settings: ConfigView,
    entries: Seq<Seq<char>>,
) -> Seq<RestoreItemView> {
    let by_profile = targets::profile_targets(session, settings) is Some;
    let plain = plain_items(
        lists::sorted(
            session.clients,
            |a: SessionClientView, b: SessionClientView| SessionClient::precedes(a, b),
        ),
        session.monitors,
        monitors,
        settings,
        entries,
        by_profile,
        is_unsafe_mode(session, settings),
    );
    if by_profile {
        plain + profile_items(
            targets::reconcile_targets(session, settings, entries),
            session.monitors,
            monitors,
        )
    } else {
        plain
    }
}

fn build_plain_item(
    client: &SessionClient,
    saved: &[Monitor],
    monitors: &[HyprMonitor],
    config: &Config,
    entries: &[String],
) -> (r: RestoreItem)
    ensures
        r@ == plain_item(
            client@,
            saved.deep_view(),
            monitors.deep_view(),
            config@,
            entries.deep_view(),
        ),
{
    if !windows::client_is_wanted(client, config) {
        return RestoreItem::Ignored {
            line: "SKIP: ignored class '".to_owned().concat(client.class.as_str()).concat("'"),
        };
    }
    if identity::brave_client_has_no_safe_profile_identity(client) {
        // This is a requested window, not an optional extra.
        return RestoreItem::Lost {
            line: "FAIL: ".to_owned().concat(client.title.as_str()).concat(
                " has no safe Brave profile identity",
            ),
        };
    }
    let target = targets::hydrate_webapp_launch(client, config, entries);
    let monitor = placement::find_monitor_by_name(monitors, target.monitor.as_str());
    let placed = placement::adapt_client_geometry(&target, saved, monitor);
    let available = placement::target_monitor_is_available(monitors, target.monitor.as_str());
    let name = target.class.clone();
    RestoreItem::Window { target, placed, name, by_profile: false, available }
}

fn build_plain_items(
    clients: &Vec<SessionClient>,
    saved: &[Monitor],
    monitors: &[HyprMonitor],
    config: &Config,
    entries: &[String],
    by_profile: bool,
    unsafe_mode: bool,
) -> (r: Vec<RestoreItem>)
    ensures
        r.deep_view() == plain_items(
            clients.deep_view(),
            saved.deep_view(),
            monitors.deep_view(),
            config@,
            entries.deep_view(),
            by_profile,
            unsafe_mode,
        ),
{
    let ghost all = clients.deep_view();
    let mut out: Vec<RestoreItem> = Vec::new();
    let mut i: usize = 0;
    assert(all.take(0) =~= Seq::<SessionClientView>::empty());
    assert(out.deep_view() =~= Seq::<RestoreItemView>::empty());
    while i < clients.len()
        invariant
            i <= clients.len(),
            all == clients.deep_view(),
            out.deep_view() == plain_items(
                all.take(i as int),
                saved.deep_view(),
                monitors.deep_view(),
                config@,
                entries.deep_view(),
                by_profile,
                unsafe_mode,
            ),
        decreases clients.len() - i,
    {
        let client = &clients[i];
        assert(all[i as int] == client@);
        assert(all.take(i + 1).drop_last() =~= all.take(i as int));
        assert(all.take(i + 1).last() == all[i as int]);
        let ghost before = out.deep_view();
        let brave = launch::is_brave_client(client);
        if unsafe_mode && brave {
            let line = "FAIL: ".to_owned().concat(client.title.as_str()).concat(
                " has no safe Brave profile identity to restore",
            );
            let item = RestoreItem::Lost { line };
            out.push(item);
            assert(out.deep_view() =~= before.push(item@));
        } else if !(by_profile && brave) {
            let item = build_plain_item(client, saved, monitors, config, entries);
            out.push(item);
            assert(out.deep_view() =~= before.push(item@));
        }
        i += 1;
    }
    assert(all.take(i as int) =~= all);
    out
}

fn build_profile_items(
    wanted: &Vec<ReconcileTarget>,
    saved: &[Monitor],
    monitors: &[HyprMonitor],
) -> (r: Vec<RestoreItem>)
    ensures
        r.deep_view() == profile_items(
            wanted.deep_view(),
            saved.deep_view(),
            monitors.deep_view(),
        ),
{
    let ghost all = wanted.deep_view();
    let mut out: Vec<RestoreItem> = Vec::new();
    let mut i: usize = 0;
    assert(all.take(0) =~= Seq::<ReconcileTargetView>::empty());
    assert(out.deep_view() =~= Seq::<RestoreItemView>::empty());
    while i < wanted.len()
        invariant
            i <= wanted.len(),
            all == wanted.deep_view(),
            out.deep_view() == profile_items(
                all.take(i as int),
                saved.deep_view(),
                monitors.deep_view(),
            ),
        decreases wanted.len() - i,
    {
        let target = &wanted[i];
        assert(all[i as int] == target@);
        assert(all.take(i + 1).drop_last() =~= all.take(i as int));
        assert(all.take(i + 1).last() == all[i as int]);
        if launch::is_brave_client(&target.client) && target.client.profile_directory.is_some() {
            let monitor = placement::find_monitor_by_name(
                monitors,
                target.client.monitor.as_str(),
            );
            let placed = placement::adapt_client_geometry(&target.client, saved, monitor);
            let available = placement::target_monitor_is_available(
                monitors,
                target.client.monitor.as_str(),
            );
            let item = RestoreItem::Window {
                target: placed.clone(),
                placed,
                name: target.label.clone(),
                by_profile: true,
                available,
            };
            let ghost before = out.deep_view();
            out.push(item);
            assert(out.deep_view() =~= before.push(item@));
        }
        i += 1;
    }
    assert(all.take(i as int) =~= all);
    out
}

fn find_unsafe_mode(session: &Session, config: &Config) -> (r: bool)
    ensures
        r == is_unsafe_mode(session@, config@),
{
    let profiles = match targets::brave_profile_targets(session, config) {
        Some(profiles) => profiles,
        None => {
            return false;
        },
    };
    assert(profiles.deep_view().len() == profiles.len());
    if profiles.len() != 0 {
        return false;
    }
    if let Some(app) = config::app_config_for(config, "brave-browser", "") {
        if let Some(workspaces) = &app.profile_workspaces {
            if workspaces.is_empty() {
                return false;
            }
        }
    }
    targets::validate_safety_snapshot(session).is_err()
}

/// What a session asks for.
pub fn build_restore_items(
    session: &Session,
    monitors: &[HyprMonitor],
    config: &Config,
    entries: &[String],
) -> (r: Vec<RestoreItem>)
    ensures
        r.deep_view() == restore_items(
            session@,
            monitors.deep_view(),
            config@,
            entries.deep_view(),
        ),
{
    let by_profile = targets::brave_profile_targets(session, config).is_some();
    let unsafe_mode = find_unsafe_mode(session, config);
    let ordered = lists::sort(session::copy_clients(session.clients.as_slice()));
    let saved = session.monitors.as_slice();
    let mut items = build_plain_items(
        &ordered,
        saved,
        monitors,
        config,
        entries,
        by_profile,
        unsafe_mode,
    );
    if by_profile {
        let wanted = targets::build_reconcile_targets(session, config, entries);
        let mut more = build_profile_items(&wanted, saved, monitors);
        let ghost before = items.deep_view();
        let ghost behind = more.deep_view();
        items.append(&mut more);
        assert(items.deep_view() =~= before + behind);
    }
    items
}

// ── The state ──────────────────────────────────────────────────────────────

/// The state of restoring a session.
#[verifier::ext_equal]
pub ghost struct RestoringView {
    pub items: Seq<RestoreItemView>,
    /// The number of windows that the session asks for.
    pub target_count: nat,
    /// The windows as they were seen last.
    pub latest: Seq<ObservedClientView>,
    /// The windows that were given to targets.
    pub consumed: Seq<ObservedClientView>,
    pub settings: ConfigView,
    pub dry_run: bool,
    pub verbose: bool,
    /// The window that is being repaired.
    pub pending: Option<ObservedClientView>,
    /// The item at hand.
    pub index: int,
    pub report: RestoreReportView,
}

/// Every item that is done counts once.
pub open spec fn is_orderly(state: RestoringView) -> bool {
    &&& 0 <= state.index <= state.items.len() <= usize::MAX
    &&& state.report.restored + state.report.skipped + state.report.failed == state.index
    &&& state.pending is Some ==> asks_for_window(state)
}

/// The item at hand is a window.
pub open spec fn asks_for_window(state: RestoringView) -> bool {
    state.index < state.items.len() && state.items[state.index] is Window
}

/// The item at hand is done.
pub open spec fn moves_on(state: RestoringView, report: RestoreReportView) -> RestoringView {
    RestoringView { report, index: state.index + 1, pending: None, ..state }
}

/// The item at hand was restored.
pub open spec fn restores(state: RestoringView, lines: Seq<Seq<char>>) -> RestoringView {
    moves_on(
        state,
        RestoreReportView {
            restored: state.report.restored + 1,
            details: state.report.details + lines,
            ..state.report
        },
    )
}

/// The item at hand is left out.
pub open spec fn skips(state: RestoringView, lines: Seq<Seq<char>>) -> RestoringView {
    moves_on(
        state,
        RestoreReportView {
            skipped: state.report.skipped + 1,
            details: state.report.details + lines,
            ..state.report
        },
    )
}

/// The item at hand could not be restored.
pub open spec fn fails(state: RestoringView, lines: Seq<Seq<char>>) -> RestoringView {
    moves_on(
        state,
        RestoreReportView {
            failed: state.report.failed + 1,
            details: state.report.details + lines,
            ..state.report
        },
    )
}

/// A line that is told only where the report tells more.
pub open spec fn if_verbose(state: RestoringView, line: Seq<char>) -> Seq<Seq<char>> {
    if state.verbose {
        seq![line]
    } else {
        Seq::empty()
    }
}

/// The item at hand takes an open window.
pub open spec fn takes_window(state: RestoringView, window: ObservedClientView) -> (
    RestoringView,
    PassActionView,
) {
    match state.items[state.index] {
        RestoreItemView::Window { target, placed, name, by_profile, available } => {
            let commands = reconcile::repair_commands(placed, window, available);
            let taken = RestoringView {
                consumed: windows::with_window(state.consumed, window),
                ..state
            };
            if commands.len() == 0 {
                (
                    skips(
                        taken,
                        seq![
                            (if state.dry_run && !by_profile {
                                "[dry-run]"@
                            } else {
                                "SKIP"@
                            }) + ": "@ + window.client.class + " already on ws="@
                                + text::decimal(target.workspace),
                        ],
                    ),
                    PassActionView::Continue,
                )
            } else if state.dry_run {
                (
                    restores(
                        taken,
                        seq![
                            "[dry-run] repair "@ + name + " at address "@ + window.client.address,
                        ] + report::shown_commands(commands),
                    ),
                    PassActionView::Continue,
                )
            } else {
                (
                    RestoringView { pending: Some(window), ..taken },
                    PassActionView::Repair { window, commands },
                )
            }
        },
        _ => (state, PassActionView::Continue),
    }
}

/// What stands in the way of a launch.
#[verifier::ext_equal]
pub ghost enum Obstacle {
    /// The item cannot be restored.
    Fatal(Seq<char>),
    /// The item is left out.
    Passing(Seq<char>),
}

/// What stands in the way of launching the item at hand.
pub open spec fn obstacle(state: RestoringView) -> Option<Obstacle> {
    match state.items[state.index] {
        RestoreItemView::Window { target, placed, name, by_profile, available } => {
            if existing::has_unavailable(target, state.latest, state.consumed, state.settings) {
                Some(
                    Obstacle::Fatal(
                        "FAIL: "@ + name
                            + " could not be safely matched because window identity is unavailable"@,
                    ),
                )
            } else if by_profile && (target.profile_identity_ambiguous
                || existing::has_ambiguous_profile(
                target,
                state.latest,
                state.consumed,
                state.settings,
            )) {
                Some(
                    Obstacle::Passing(
                        "SKIP: "@ + name
                            + " could not be safely matched because Brave profile identity is ambiguous"@,
                    ),
                )
            } else if !by_profile && existing::has_ambiguous_chromium(
                target,
                state.latest,
                state.consumed,
                state.settings,
            ) {
                Some(
                    Obstacle::Fatal(
                        "FAIL: "@ + name
                            + " could not be safely matched because generic Chromium window identity is unavailable"@,
                    ),
                )
            } else {
                None
            }
        },
        _ => None,
    }
}

/// The item at hand has no open window.
pub open spec fn lacks_window(state: RestoringView) -> (RestoringView, PassActionView) {
    match state.items[state.index] {
        RestoreItemView::Window { target, placed, name, by_profile, available } => {
            let command = launch::binary_of(placed);
            match obstacle(state) {
                Some(Obstacle::Fatal(line)) => (
                    fails(state, seq![line]),
                    PassActionView::Continue,
                ),
                Some(Obstacle::Passing(line)) => (
                    skips(state, seq![line]),
                    PassActionView::Continue,
                ),
                None => if !launch::is_trusted(placed, state.settings) {
                    (
                        fails(
                            state,
                            seq![
                                (if state.dry_run {
                                    "[dry-run] FAIL: launch command '"@
                                } else {
                                    "FAIL: launch command '"@
                                }) + command + "' for "@ + name
                                    + " is not authorized by app identity or config"@,
                            ],
                        ),
                        PassActionView::Continue,
                    )
                } else {
                    (state, PassActionView::Resolve { command })
                },
            }
        },
        _ => (state, PassActionView::Continue),
    }
}

/// An executable was found or not.
pub open spec fn after_resolve(state: RestoringView, found: Option<Seq<char>>) -> (
    RestoringView,
    PassActionView,
) {
    match state.items[state.index] {
        RestoreItemView::Window { target, placed, name, by_profile, available } => match found {
            None => (
                fails(
                    state,
                    seq![
                        (if state.dry_run {
                            "[dry-run] FAIL: binary '"@
                        } else {
                            "FAIL: binary '"@
                        }) + launch::binary_of(placed) + "' not found for "@ + name,
                    ],
                ),
                PassActionView::Continue,
            ),
            Some(binary) => if state.dry_run {
                (
                    restores(
                        state,
                        seq![
                            if by_profile {
                                "[dry-run] "@ + name + " → ws="@ + text::decimal(
                                    placed.workspace,
                                )
                            } else {
                                "[dry-run] ws="@ + text::decimal(placed.workspace) + " "@ + name
                                    + " → "@ + target.launch.command
                            },
                        ] + report::shown_commands(launch::dispatch_plan(placed, available)),
                    ),
                    PassActionView::Continue,
                )
            } else {
                (
                    state,
                    PassActionView::Launch { client: placed, binary, monitor_available: available },
                )
            },
        },
        _ => (state, PassActionView::Continue),
    }
}

/// The item at hand is looked at.
pub open spec fn considers(state: RestoringView) -> (RestoringView, PassActionView) {
    match state.items[state.index] {
        RestoreItemView::Window { target, placed, name, by_profile, available } => {
            match existing::existing_match(
                target,
                state.latest,
                state.consumed,
                Set::empty(),
                state.settings,
                true,
            ) {
                Some(i) => takes_window(state, state.latest[i]),
                None => lacks_window(state),
            }
        },
        _ => (state, PassActionView::Continue),
    }
}

/// What is asked for when nothing is pending.
pub open spec fn step_on(state: RestoringView) -> (RestoringView, PassActionView) {
    if state.index >= state.items.len() {
        (state, PassActionView::Finish)
    } else {
        match state.items[state.index] {
            RestoreItemView::Lost { line } => (
                fails(state, if_verbose(state, line)),
                PassActionView::Continue,
            ),
            RestoreItemView::Ignored { line } => (
                skips(state, if_verbose(state, line)),
                PassActionView::Continue,
            ),
            RestoreItemView::Window { .. } => (state, PassActionView::Observe),
        }
    }
}

/// The windows were read as was asked for.
pub open spec fn step_observed(state: RestoringView, current: Seq<ObservedClientView>) -> Result<
    (RestoringView, PassActionView),
    RestoreErrorView,
> {
    if current.len() > MAX_RECONCILIATION_WINDOWS {
        Err(
            RestoreErrorView::TooManyWindows {
                targets: state.target_count,
                current: current.len(),
                limit: MAX_RECONCILIATION_WINDOWS as nat,
            },
        )
    } else {
        Ok(considers(RestoringView { latest: current, ..state }))
    }
}

/// The name of the item at hand.
pub open spec fn name_at_hand(state: RestoringView) -> Seq<char> {
    match state.items[state.index] {
        RestoreItemView::Window { target, placed, name, by_profile, available } => name,
        _ => ""@,
    }
}

/// A repair was made, or failed for a reason.
pub open spec fn step_repaired(state: RestoringView, failure: Option<Seq<char>>) -> RestoringView {
    let address = state.pending->0.client.address;
    match failure {
        None => restores(
            state,
            if_verbose(
                state,
                "OK: repaired "@ + name_at_hand(state) + " at address "@ + address,
            ),
        ),
        Some(reason) => fails(
            state,
            seq!["FAIL: "@ + name_at_hand(state) + " at address "@ + address + " — "@ + reason],
        ),
    }
}

/// An application was launched, and its window placed.
pub open spec fn step_launched(state: RestoringView, window: ObservedClientView) -> RestoringView {
    let taken = RestoringView {
        consumed: windows::with_window(state.consumed, window),
        ..state
    };
    match state.items[state.index] {
        RestoreItemView::Window { target, placed, name, by_profile, available } => restores(
            taken,
            if_verbose(state, launched::restored_line(placed)),
        ),
        _ => taken,
    }
}

/// A launch failed for a reason.
pub open spec fn step_launch_failed(state: RestoringView, reason: Seq<char>) -> RestoringView {
    fails(state, seq!["FAIL: "@ + name_at_hand(state) + " — "@ + reason])
}

// ── Restoring ──────────────────────────────────────────────────────────────

/// Restoring a session.
#[derive(Debug)]
pub struct Restoring<'a> {
    items: Vec<RestoreItem>,
    target_count: usize,
    latest: Vec<ObservedClient>,
    consumed: ConsumedWindows,
    config: &'a Config,
    dry_run: bool,
    verbose: bool,
    pending: Option<ObservedClient>,
    index: usize,
    report: RestoreReport,
}

impl<'a> View for Restoring<'a> {
    type V = RestoringView;

    closed spec fn view(&self) -> RestoringView {
        RestoringView {
            items: self.items.deep_view(),
            target_count: self.target_count as nat,
            latest: self.latest.deep_view(),
            consumed: self.consumed@,
            settings: self.config@,
            dry_run: self.dry_run,
            verbose: self.verbose,
            pending: self.pending.deep_view(),
            index: self.index as int,
            report: self.report@,
        }
    }
}

impl<'a> Restoring<'a> {
    /// Starts to restore a session.
    pub fn begin(
        session: &Session,
        monitors: &[HyprMonitor],
        config: &'a Config,
        entries: &[String],
        dry_run: bool,
        verbose: bool,
    ) -> (r: Result<Self, RestoreError>)
        ensures
            ({
                let count = targets::reconcile_targets(
                    session@,
                    config@,
                    entries.deep_view(),
                ).len();
                match r {
                    Ok(state) => {
                        &&& count <= MAX_RECONCILIATION_WINDOWS
                        &&& is_orderly(state@)
                        &&& state@ == RestoringView {
                            items: restore_items(
                                session@,
                                monitors.deep_view(),
                                config@,
                                entries.deep_view(),
                            ),
                            target_count: count,
                            latest: Seq::empty(),
                            consumed: Seq::empty(),
                            settings: config@,
                            dry_run,
                            verbose,
                            pending: None,
                            index: 0,
                            report: report::blank_restore_report(),
                        }
                    },
                    Err(error) => {
                        &&& count > MAX_RECONCILIATION_WINDOWS
                        &&& error@ == RestoreErrorView::TooManyWindows {
                            targets: count,
                            current: 0,
                            limit: MAX_RECONCILIATION_WINDOWS as nat,
                        }
                    },
                }
            }),
    {
        let wanted = targets::build_reconcile_targets(session, config, entries);
        assert(wanted.deep_view().len() == wanted.len());
        let target_count = wanted.len();
        if target_count > MAX_RECONCILIATION_WINDOWS {
            return Err(
                RestoreError::TooManyWindows {
                    targets: target_count,
                    current: 0,
                    limit: MAX_RECONCILIATION_WINDOWS,
                },
            );
        }
        let items = build_restore_items(session, monitors, config, entries);
        let state = Restoring {
            items,
            target_count,
            latest: Vec::new(),
            consumed: ConsumedWindows::default(),
            config,
            dry_run,
            verbose,
            pending: None,
            index: 0,
            report: RestoreReport::default(),
        };
        assert(state@.items.len() == state.items.len());
        assert(state@.latest =~= Seq::<ObservedClientView>::empty());
        Ok(state)
    }

    fn move_on(&mut self)
        requires
            old(self)@.index < old(self)@.items.len() <= usize::MAX,
        ensures
            final(self)@ == moves_on(old(self)@, old(self)@.report),
    {
        self.pending = None;
        self.index += 1;
    }

    fn tell(&mut self, line: String)
        ensures
            final(self)@ == (RestoringView {
                report: RestoreReportView {
                    details: old(self)@.report.details + seq![line@],
                    ..old(self)@.report
                },
                ..old(self)@
            }),
    {
        let ghost before = self@.report.details;
        report::add_line(&mut self.report.details, line);
        assert(before + seq![line@] =~= before.push(line@));
    }

    fn tell_if_verbose(&mut self, line: String)
        ensures
            final(self)@ == (RestoringView {
                report: RestoreReportView {
                    details: old(self)@.report.details + if_verbose(old(self)@, line@),
                    ..old(self)@.report
                },
                ..old(self)@
            }),
    {
        let ghost before = self@.report.details;
        assert(before + Seq::<Seq<char>>::empty() =~= before);
        if self.verbose {
            self.tell(line);
        }
    }

    fn skip(&mut self, line: String)
        requires
            is_orderly(old(self)@),
            old(self)@.index < old(self)@.items.len(),
        ensures
            is_orderly(final(self)@),
            final(self)@ == skips(old(self)@, seq![line@]),
    {
        self.report.skipped += 1;
        self.tell(line);
        self.move_on();
    }

    fn fail(&mut self, line: String)
        requires
            is_orderly(old(self)@),
            old(self)@.index < old(self)@.items.len(),
        ensures
            is_orderly(final(self)@),
            final(self)@ == fails(old(self)@, seq![line@]),
    {
        self.report.failed += 1;
        self.tell(line);
        self.move_on();
    }

    fn restore_quietly(&mut self, line: String)
        requires
            is_orderly(old(self)@),
            old(self)@.index < old(self)@.items.len(),
        ensures
            is_orderly(final(self)@),
            final(self)@ == restores(old(self)@, if_verbose(old(self)@, line@)),
    {
        self.report.restored += 1;
        self.tell_if_verbose(line);
        self.move_on();
    }

    fn restore_shown(&mut self, line: String, commands: &Vec<String>)
        requires
            is_orderly(old(self)@),
            old(self)@.index < old(self)@.items.len(),
        ensures
            is_orderly(final(self)@),
            final(self)@ == restores(
                old(self)@,
                seq![line@] + report::shown_commands(commands.deep_view()),
            ),
    {
        let ghost before = self@.report.details;
        let ghost shown = report::shown_commands(commands.deep_view());
        self.report.restored += 1;
        self.tell(line);
        report::add_commands(&mut self.report.details, commands);
        assert(before + seq![line@] + shown =~= before + (seq![line@] + shown));
        self.move_on();
    }

    /// The item at hand takes an open window.
    fn take_window(&mut self, place: usize) -> (r: PassAction)
        requires
            is_orderly(old(self)@),
            old(self)@.pending is None,
            asks_for_window(old(self)@),
            place < old(self)@.latest.len(),
        ensures
            is_orderly(final(self)@),
            (final(self)@, r@) == takes_window(old(self)@, old(self)@.latest[place as int]),
    {
        let ghost at = self.index as int;
        assert(self@.items[at] == self.items[at]@);
        assert(self@.latest[place as int] == self.latest[place as int]@);
        let window = self.latest[place].clone();
        match &self.items[self.index] {
            RestoreItem::Window { target, placed, name, by_profile, available } => {
                let monitor = match &window.monitor_name {
                    Some(name) => Some(name.as_str()),
                    None => None,
                };
                let commands = placement::build_reconcile_dispatch_commands_with_geometry(
                    placed,
                    &window.client,
                    monitor,
                    ReconcileGeometry::new(placed.at, placed.size, *available),
                );
                assert(commands.deep_view().len() == commands.len());
                if commands.len() == 0 {
                    let start = if self.dry_run && !*by_profile {
                        "[dry-run]"
                    } else {
                        "SKIP"
                    };
                    let line = start.to_owned().concat(": ").concat(
                        window.client.class.as_str(),
                    ).concat(" already on ws=").concat(
                        text::number_text(target.workspace as i64).as_str(),
                    );
                    self.consumed.insert(&window);
                    self.skip(line);
                    return PassAction::Continue;
                }
                if self.dry_run {
                    let line = "[dry-run] repair ".to_owned().concat(name.as_str()).concat(
                        " at address ",
                    ).concat(window.client.address.as_str());
                    self.consumed.insert(&window);
                    self.restore_shown(line, &commands);
                    return PassAction::Continue;
                }
                self.consumed.insert(&window);
                self.pending = Some(window.clone());
                PassAction::Repair { window, commands }
            },
            _ => PassAction::Continue,
        }
    }

    /// The item at hand has no open window.
    fn go_without_window(&mut self) -> (r: PassAction)
        requires
            is_orderly(old(self)@),
            asks_for_window(old(self)@),
        ensures
            is_orderly(final(self)@),
            (final(self)@, r@) == lacks_window(old(self)@),
    {
        let ghost at = self.index as int;
        assert(self@.items[at] == self.items[at]@);
        match &self.items[self.index] {
            RestoreItem::Window { target, placed, name, by_profile, available } => {
                let open = self.latest.as_slice();
                if existing::has_unavailable_identity_candidate(
                    target,
                    open,
                    &self.consumed,
                    self.config,
                ) {
                    let line = "FAIL: ".to_owned().concat(name.as_str()).concat(
                        " could not be safely matched because window identity is unavailable",
                    );
                    self.fail(line);
                    return PassAction::Continue;
                }
                if *by_profile && (target.profile_identity_ambiguous
                    || existing::has_ambiguous_profile_candidate(
                    target,
                    open,
                    &self.consumed,
                    self.config,
                )) {
                    let line = "SKIP: ".to_owned().concat(name.as_str()).concat(
                        " could not be safely matched because Brave profile identity is ambiguous",
                    );
                    self.skip(line);
                    return PassAction::Continue;
                }
                if !*by_profile && existing::has_ambiguous_generic_chromium_candidate(
                    target,
                    open,
                    &self.consumed,
                    self.config,
                ) {
                    let line = "FAIL: ".to_owned().concat(name.as_str()).concat(
                        " could not be safely matched because generic Chromium window identity is unavailable",
                    );
                    self.fail(line);
                    return PassAction::Continue;
                }
                let command = launch::effective_binary(placed);
                if !launch::launch_command_is_trusted(placed, self.config) {
                    let start = if self.dry_run {
                        "[dry-run] FAIL: launch command '"
                    } else {
                        "FAIL: launch command '"
                    };
                    let line = start.to_owned().concat(command.as_str()).concat("' for ").concat(
                        name.as_str(),
                    ).concat(" is not authorized by app identity or config");
                    self.fail(line);
                    return PassAction::Continue;
                }
                PassAction::Resolve { command }
            },
            _ => PassAction::Continue,
        }
    }

    /// Goes on; nothing may be pending.
    pub fn next(&mut self) -> (r: PassAction)
        requires
            is_orderly(old(self)@),
            old(self)@.pending is None,
        ensures
            is_orderly(final(self)@),
            (final(self)@, r@) == step_on(old(self)@),
    {
        let ghost before = self@;
        assert(self@.items.len() == self.items.len());
        if self.index >= self.items.len() {
            return PassAction::Finish;
        }
        assert(self@.items[self.index as int] == self.items[self.index as int]@);
        match &self.items[self.index] {
            RestoreItem::Lost { line } => {
                let line = line.clone();
                self.report.failed += 1;
                self.tell_if_verbose(line);
                self.move_on();
                PassAction::Continue
            },
            RestoreItem::Ignored { line } => {
                let line = line.clone();
                self.report.skipped += 1;
                self.tell_if_verbose(line);
                self.move_on();
                PassAction::Continue
            },
            RestoreItem::Window { .. } => PassAction::Observe,
        }
    }

    /// Takes the windows that were read.
    pub fn observed(&mut self, current: Vec<ObservedClient>) -> (r: Result<
        PassAction,
        RestoreError,
    >)
        requires
            is_orderly(old(self)@),
            old(self)@.pending is None,
            asks_for_window(old(self)@),
        ensures
            match (r, step_observed(old(self)@, current.deep_view())) {
                (Ok(action), Ok((state, asked))) => {
                    &&& is_orderly(final(self)@)
                    &&& final(self)@ == state
                    &&& action@ == asked
                },
                (Err(error), Err(problem)) => error@ == problem,
                _ => false,
            },
    {
        assert(current.deep_view().len() == current.len());
        if current.len() > MAX_RECONCILIATION_WINDOWS {
            return Err(
                RestoreError::TooManyWindows {
                    targets: self.target_count,
                    current: current.len(),
                    limit: MAX_RECONCILIATION_WINDOWS,
                },
            );
        }
        self.latest = current;
        let ghost at = self.index as int;
        assert(self@.items[at] == self.items[at]@);
        let nothing = TextSet::new();
        let place = match &self.items[self.index] {
            RestoreItem::Window { target, placed, name, by_profile, available } => {
                existing::find_existing_restore_match(
                    target,
                    self.latest.as_slice(),
                    &self.consumed,
                    self.config,
                    true,
                    &nothing,
                )
            },
            _ => None,
        };
        match place {
            Some(i) => Ok(self.take_window(i)),
            None => Ok(self.go_without_window()),
        }
    }

    /// Takes the outcome of a repair; a failure tells why.
    pub fn repaired(&mut self, failure: Option<String>)
        requires
            is_orderly(old(self)@),
            old(self)@.pending is Some,
        ensures
            is_orderly(final(self)@),
            final(self)@ == step_repaired(old(self)@, failure.deep_view()),
    {
        assert(self@.items[self.index as int] == self.items[self.index as int]@);
        let name = match &self.items[self.index] {
            RestoreItem::Window { target, placed, name, by_profile, available } => name.clone(),
            _ => "".to_owned(),
        };
        let address = match &self.pending {
            Some(window) => window.client.address.clone(),
            None => "".to_owned(),
        };
        match failure {
            None => {
                let line = "OK: repaired ".to_owned().concat(name.as_str()).concat(
                    " at address ",
                ).concat(address.as_str());
                self.restore_quietly(line);
            },
            Some(reason) => {
                let line = "FAIL: ".to_owned().concat(name.as_str()).concat(
                    " at address ",
                ).concat(address.as_str()).concat(" — ").concat(reason.as_str());
                self.fail(line);
            },
        }
    }

    /// Takes the executable that was found, if one was.
    pub fn resolved(&mut self, found: Option<String>) -> (r: PassAction)
        requires
            is_orderly(old(self)@),
            old(self)@.pending is None,
            asks_for_window(old(self)@),
        ensures
            is_orderly(final(self)@),
            (final(self)@, r@) == after_resolve(old(self)@, found.deep_view()),
    {
        assert(self@.items[self.index as int] == self.items[self.index as int]@);
        match &self.items[self.index] {
            RestoreItem::Window { target, placed, name, by_profile, available } => {
                let binary = match found {
                    Some(binary) => binary,
                    None => {
                        let start = if self.dry_run {
                            "[dry-run] FAIL: binary '"
                        } else {
                            "FAIL: binary '"
                        };
                        let line = start.to_owned().concat(
                            launch::effective_binary(placed).as_str(),
                        ).concat("' not found for ").concat(name.as_str());
                        self.fail(line);
                        return PassAction::Continue;
                    },
                };
                if self.dry_run {
                    let place = text::number_text(placed.workspace as i64);
                    let line = if *by_profile {
                        "[dry-run] ".to_owned().concat(name.as_str()).concat(" → ws=").concat(
                            place.as_str(),
                        )
                    } else {
                        "[dry-run] ws=".to_owned().concat(place.as_str()).concat(" ").concat(
                            name.as_str(),
                        ).concat(" → ").concat(target.launch.command.as_str())
                    };
                    let commands = launch::build_dispatch_commands_for_monitor(
                        placed,
                        *available,
                    );
                    self.restore_shown(line, &commands);
                    return PassAction::Continue;
                }
                PassAction::Launch {
                    client: placed.clone(),
                    binary,
                    monitor_available: *available,
                }
            },
            _ => PassAction::Continue,
        }
    }

    /// Takes the window of an application that was launched.
    pub fn launched(&mut self, window: &ObservedClient)
        requires
            is_orderly(old(self)@),
            old(self)@.pending is None,
            asks_for_window(old(self)@),
        ensures
            is_orderly(final(self)@),
            final(self)@ == step_launched(old(self)@, window@),
    {
        assert(self@.items[self.index as int] == self.items[self.index as int]@);
        let line = match &self.items[self.index] {
            RestoreItem::Window { target, placed, name, by_profile, available } => {
                launched::restored_message(placed)
            },
            _ => "".to_owned(),
        };
        self.consumed.insert(window);
        self.restore_quietly(line);
    }

    /// Takes the failure of a launch.
    pub fn launch_failed(&mut self, reason: &str)
        requires
            is_orderly(old(self)@),
            old(self)@.pending is None,
            asks_for_window(old(self)@),
        ensures
            is_orderly(final(self)@),
            final(self)@ == step_launch_failed(old(self)@, reason@),
    {
        assert(self@.items[self.index as int] == self.items[self.index as int]@);
        let name = match &self.items[self.index] {
            RestoreItem::Window { target, placed, name, by_profile, available } => name.clone(),
            _ => "".to_owned(),
        };
        let line = "FAIL: ".to_owned().concat(name.as_str()).concat(" — ").concat(reason);
        self.fail(line);
    }

    /// The report.
    pub fn finish(self) -> (r: RestoreReport)
        ensures
            r@ == self@.report,
    {
        self.report
    }
}

} // verus!
