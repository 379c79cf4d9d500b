//! One pass that brings the open windows in line with a saved session.
//!
//! A pass asks for something to be done outside, is told what came of it, and
//! asks again: the windows are to be read, a window is to be repaired, an
//! executable is to be looked up, an application is to be launched.

use crate::config::{Config, ConfigView};
use crate::hyprctl::{HyprMonitor, HyprMonitorView};
use crate::lists::TextSet;
use crate::matching::MatchingStrategy;
use crate::placement;
use crate::placement::{ReconcileGeometry, ReconcileGeometryView};
use crate::restore::existing;
use crate::restore::identity;
use crate::restore::identity::{MatchKind, MatchPolicy, ObservedClient, ObservedClientView};
use crate::restore::launch;
use crate::restore::planning;
use crate::restore::planning::ReconcilePair;
use crate::restore::report;
use crate::restore::report::{
    ReconcileReport, ReconcileReportView, RestoreError, RestoreErrorView,
    MAX_RECONCILIATION_WINDOWS,
};
use crate::restore::targets;
use crate::restore::targets::{ReconcileTarget, ReconcileTargetView};
use crate::restore::windows;
use crate::restore::windows::ConsumedWindows;
use crate::session::{Monitor, MonitorView, SessionClient, SessionClientView};
use crate::text;
use vstd::prelude::*;

verus! {

// ── What a pass knows and asks for ─────────────────────────────────────────

/// How a pass goes about its work.
#[derive(Debug, Clone, Copy, PartialEq, Eq, Structural)]
pub struct PassOptions {
    /// Nothing is done; the report tells what would be.
    pub dry_run: bool,
    /// The report tells more.
    pub verbose: bool,
    /// A window may be matched by its class or a changed title.
    pub allow_ambiguous_identity: bool,
}

/// What a pass asks for.
#[derive(Debug)]
pub enum PassAction {
    /// Go on.
    Continue,
    /// Read the windows.
    Observe,
    /// Send commands to a window that is still the same.
    Repair {
        /// The window.
        window: ObservedClient,
        /// The commands.
        commands: Vec<String>,
    },
    /// Look for an executable.
    Resolve {
        /// Its name.
        command: String,
    },
    /// Launch an application and place its window.
    Launch {
        /// The window.
        client: SessionClient,
        /// The executable.
        binary: String,
        /// The monitor of the window exists.
        monitor_available: bool,
    },
    /// The pass is over.
    Finish,
}

#[verifier::ext_equal]
pub ghost enum PassActionView {
    Continue,
    Observe,
    Repair { window: ObservedClientView, commands: Seq<Seq<char>> },
    Resolve { command: Seq<char> },
    Launch { client: SessionClientView, binary: Seq<char>, monitor_available: bool },
    Finish,
}

impl View for PassAction {
    type V = PassActionView;

    open spec fn view(&self) -> PassActionView {
        match *self {
            PassAction::Continue => PassActionView::Continue,
            PassAction::Observe => PassActionView::Observe,
            PassAction::Repair { window, commands } => PassActionView::Repair {
                window: window@,
                commands: commands.deep_view(),
            },
            PassAction::Resolve { command } => PassActionView::Resolve { command: command@ },
            PassAction::Launch { client, binary, monitor_available } => PassActionView::Launch {
                client: client@,
                binary: binary@,
                monitor_available,
            },
            PassAction::Finish => PassActionView::Finish,
        }
    }
}

/// The state of a pass.
#[verifier::ext_equal]
pub ghost struct PassView {
    /// The targets, with their geometry adapted.
    pub targets: Seq<ReconcileTargetView>,
    /// Which of their monitors exist.
    pub available: Seq<bool>,
    /// The windows at the start, and which target they were planned for.
    pub planned: Seq<ObservedClientView>,
    pub plan: Seq<Option<ReconcilePair>>,
    /// The windows as they were seen last.
    pub latest: Seq<ObservedClientView>,
    /// The windows that were given to targets.
    pub used: Seq<ObservedClientView>,
    /// The windows before each launch that failed.
    pub baselines: Seq<Seq<ObservedClientView>>,
    /// The addresses of windows that came up during such launches.
    pub strays: Set<Seq<char>>,
    /// The addresses that are left alone in any case.
    pub protected: Set<Seq<char>>,
    /// The executables, where they were looked up before.
    pub binaries: Option<Seq<Seq<char>>>,
    pub settings: ConfigView,
    pub options: PassOptions,
    /// The window that is being repaired.
    pub pending: Option<ObservedClientView>,
    /// The target at hand.
    pub index: int,
    pub report: ReconcileReportView,
}

/// The clients of targets.
pub open spec fn clients_of(targets: Seq<ReconcileTargetView>) -> Seq<SessionClientView> {
    targets.map_values(|t: ReconcileTargetView| t.client)
}

/// A report after the target at hand is done.
pub open spec fn moves_on(pass: PassView, report: ReconcileReportView) -> PassView {
    PassView { report, index: pass.index + 1, pending: None, ..pass }
}

/// A target is left out.
pub open spec fn skips(pass: PassView, line: Seq<char>) -> PassView {
    moves_on(
        pass,
        ReconcileReportView {
            skipped: pass.report.skipped + 1,
            details: pass.report.details.push(line),
            ..pass.report
        },
    )
}

/// A target cannot be restored.
pub open spec fn fails(pass: PassView, line: Seq<char>) -> PassView {
    moves_on(
        pass,
        ReconcileReportView {
            failed: pass.report.failed + 1,
            details: pass.report.details.push(line),
            ..pass.report
        },
    )
}

/// The number of targets that are done.
pub open spec fn accounted(report: ReconcileReportView) -> nat {
    report.unchanged + report.moved + report.launched + report.skipped + report.failed
}

/// Every target that is done counts once, whatever became of it.
pub open spec fn is_orderly(pass: PassView) -> bool {
    &&& 0 <= pass.index <= pass.targets.len()
    &&& pass.targets.len() <= MAX_RECONCILIATION_WINDOWS
    &&& pass.available.len() == pass.targets.len()
    &&& pass.plan.len() == pass.targets.len()
    &&& accounted(pass.report) == pass.index
    &&& pass.report.matched <= pass.index + 1
    &&& pass.pending is None ==> pass.report.matched <= pass.index
    &&& pass.pending is Some ==> pass.index < pass.targets.len()
    &&& pass.options.dry_run ==> pass.latest == pass.planned
}

// ── The window for a target ────────────────────────────────────────────────

/// The addresses that the target at hand must leave alone.
pub open spec fn excluded(pass: PassView) -> Set<Seq<char>> {
    pass.protected.union(pass.strays).union(
        existing::reserved_addresses(
            pass.index,
            pass.plan,
            pass.planned,
            pass.latest,
            clients_of(pass.targets),
        ),
    )
}

/// The reason for a match that is allowed.
pub open spec fn allowed_kind(
    target: SessionClientView,
    window: ObservedClientView,
    allow_ambiguous: bool,
) -> Option<MatchKind> {
    match windows::allowed_value(target, window, allow_ambiguous, MatchPolicy::Normal) {
        Some((_, kind)) => Some(kind),
        None => None,
    }
}

/// The first place, from `i` on, at which the planned window still stands and
/// may be used.
pub open spec fn planned_from(
    pass: PassView,
    planned: ObservedClientView,
    left_alone: Set<Seq<char>>,
    i: int,
) -> Option<int>
    decreases pass.latest.len() - i,
{
    if i < 0 || i >= pass.latest.len() {
        None
    } else if windows::is_same_taken(planned, pass.latest[i]) && !windows::is_taken(
        pass.used,
        pass.latest[i],
    ) && !left_alone.contains(pass.latest[i].client.address) && allowed_kind(
        pass.targets[pass.index].client,
        pass.latest[i],
        pass.options.allow_ambiguous_identity,
    ) is Some {
        Some(i)
    } else {
        planned_from(pass, planned, left_alone, i + 1)
    }
}

/// The place of the window that was planned for the target at hand, where it
/// may be used.  A dry run takes the plan as it is.
pub open spec fn planned_place(pass: PassView, left_alone: Set<Seq<char>>) -> Option<int> {
    match pass.plan[pass.index] {
        None => None,
        Some(pair) => {
            let c = pair.current_index as int;
            if c >= pass.planned.len() {
                None
            } else if pass.options.dry_run {
                if !windows::is_taken(pass.used, pass.planned[c]) && !left_alone.contains(
                    pass.planned[c].client.address,
                ) && allowed_kind(
                    pass.targets[pass.index].client,
                    pass.planned[c],
                    pass.options.allow_ambiguous_identity,
                ) is Some {
                    Some(c)
                } else {
                    None
                }
            } else {
                planned_from(pass, pass.planned[c], left_alone, 0)
            }
        },
    }
}

/// The place of the window for the target at hand: the planned one, else the
/// best that is free.
pub open spec fn chosen_place(pass: PassView) -> Option<int> {
    match planned_place(pass, excluded(pass)) {
        Some(i) => Some(i),
        None => existing::existing_match(
            pass.targets[pass.index].client,
            pass.latest,
            pass.used,
            excluded(pass),
            pass.settings,
            pass.options.allow_ambiguous_identity,
        ),
    }
}

/// The windows that do not have to be left alone.
pub open spec fn eligible_windows(pass: PassView) -> Seq<ObservedClientView> {
    pass.latest.filter(|w: ObservedClientView| !excluded(pass).contains(w.client.address))
}

// ── What becomes of a target ───────────────────────────────────────────────

/// The commands that bring a window to the place of the target at hand.
pub open spec fn repair_commands(
    target: SessionClientView,
    window: ObservedClientView,
    monitor_available: bool,
) -> Seq<Seq<char>> {
    placement::reconcile_commands(
        target,
        window.client,
        window.monitor_name,
        ReconcileGeometryView {
            desired_at: target.at,
            desired_size: target.size,
            target_monitor_available: monitor_available,
        },
    )
}

/// The target at hand has a window.
pub open spec fn takes_window(pass: PassView, window: ObservedClientView) -> (
    PassView,
    PassActionView,
) {
    let target = pass.targets[pass.index];
    let commands = repair_commands(target.client, window, pass.available[pass.index]);
    let kind = kind_of(pass, window);
    let taken = PassView {
        used: windows::with_window(pass.used, window),
        report: ReconcileReportView { matched: pass.report.matched + 1, ..pass.report },
        ..pass
    };
    if commands.len() == 0 {
        (
            moves_on(
                taken,
                ReconcileReportView {
                    unchanged: taken.report.unchanged + 1,
                    details: report::with_line(
                        taken.report.details,
                        pass.options.dry_run || pass.options.verbose,
                        (if pass.options.dry_run {
                            "[dry-run]"@
                        } else {
                            "OK"@
                        }) + ": "@ + target.label + " already in place (matched "@
                            + existing::kind_label(kind) + ")"@,
                    ),
                    ..taken.report
                },
            ),
            PassActionView::Continue,
        )
    } else if pass.options.dry_run {
        (
            moves_on(
                taken,
                ReconcileReportView {
                    moved: taken.report.moved + 1,
                    details: taken.report.details.push(
                        "[dry-run] repair "@ + target.label + " at address "@
                            + window.client.address + " (matched "@ + existing::kind_label(kind)
                            + ")"@,
                    ) + report::shown_commands(commands),
                    ..taken.report
                },
            ),
            PassActionView::Continue,
        )
    } else {
        (
            PassView { pending: Some(window), ..taken },
            PassActionView::Repair { window, commands },
        )
    }
}

/// The reason for the match of the target at hand with a window.
pub open spec fn kind_of(pass: PassView, window: ObservedClientView) -> MatchKind {
    match allowed_kind(
        pass.targets[pass.index].client,
        window,
        pass.options.allow_ambiguous_identity,
    ) {
        Some(kind) => kind,
        None => MatchKind::ClassFallback,
    }
}

/// Why the target at hand is left out, if a window stands in its way.
pub open spec fn obstacle(pass: PassView) -> Option<Seq<char>> {
    let target = pass.targets[pass.index];
    let windows = eligible_windows(pass);
    if existing::has_unavailable(target.client, windows, pass.used, pass.settings) {
        Some(
            "SKIP: "@ + target.label
                + " could not be safely matched because window identity is unavailable"@,
        )
    } else if existing::has_ambiguous_chromium(
        target.client,
        windows,
        pass.used,
        pass.settings,
    ) {
        Some(
            "SKIP: "@ + target.label
                + " could not be safely matched because generic Chromium window identity is unavailable"@,
        )
    } else if !pass.options.allow_ambiguous_identity && existing::has_rival(
        target.client,
        windows,
        pass.used,
        pass.settings,
    ) {
        Some("SKIP: "@ + target.label + " could not be safely matched during safety recovery"@)
    } else {
        None
    }
}

/// The target at hand has no window.
pub open spec fn lacks_window(pass: PassView) -> Result<
    (PassView, PassActionView),
    RestoreErrorView,
> {
    let target = pass.targets[pass.index];
    let command = launch::binary_of(target.client);
    match obstacle(pass) {
        Some(line) => Ok((skips(pass, line), PassActionView::Continue)),
        None => if !launch::is_trusted(target.client, pass.settings) {
            Ok(
                (
                    fails(
                        pass,
                        "FAIL: launch command '"@ + command + "' for "@ + target.label
                            + " is not authorized by app identity or config"@,
                    ),
                    PassActionView::Continue,
                ),
            )
        } else if pass.options.dry_run || pass.binaries is None {
            Ok((pass, PassActionView::Resolve { command }))
        } else if pass.index < pass.binaries->0.len() {
            Ok(after_resolve(pass, Some(pass.binaries->0[pass.index])))
        } else {
            Err(
                RestoreErrorView::Transaction(
                    "validated replacement launch plan no longer matches its targets"@,
                ),
            )
        },
    }
}

/// An executable was found or not.
pub open spec fn after_resolve(pass: PassView, found: Option<Seq<char>>) -> (
    PassView,
    PassActionView,
) {
    let target = pass.targets[pass.index];
    let command = launch::binary_of(target.client);
    let available = pass.available[pass.index];
    match found {
        None => (
            fails(
                pass,
                (if pass.options.dry_run {
                    "[dry-run] FAIL: binary '"@
                } else {
                    "FAIL: binary '"@
                }) + command + "' not found for "@ + target.label,
            ),
            PassActionView::Continue,
        ),
        Some(binary) => if pass.options.dry_run {
            (
                moves_on(
                    pass,
                    ReconcileReportView {
                        launched: pass.report.launched + 1,
                        details: pass.report.details.push(
                            "[dry-run] missing "@ + target.label + " → "@ + text::joined(
                                launch::command_of(target.client),
                                " "@,
                            ),
                        ) + report::shown_commands(
                            launch::dispatch_plan(target.client, available),
                        ),
                        ..pass.report
                    },
                ),
                PassActionView::Continue,
            )
        } else if existing::has_ambiguous_profile(
            target.client,
            eligible_windows(pass),
            pass.used,
            pass.settings,
        ) {
            (
                skips(
                    pass,
                    "SKIP: "@ + target.label
                        + " could not be safely matched because Brave profile identity is ambiguous"@,
                ),
                PassActionView::Continue,
            )
        } else {
            (
                pass,
                PassActionView::Launch {
                    client: target.client,
                    binary,
                    monitor_available: available,
                },
            )
        },
    }
}

/// The target at hand is looked at.
pub open spec fn considers(pass: PassView) -> Result<(PassView, PassActionView), RestoreErrorView> {
    match chosen_place(pass) {
        Some(i) => Ok(takes_window(pass, pass.latest[i])),
        None => lacks_window(pass),
    }
}

/// The addresses of all windows that came up during launches that failed.
pub open spec fn strays_among(
    baselines: Seq<Seq<ObservedClientView>>,
    current: Seq<ObservedClientView>,
) -> Set<Seq<char>>
    decreases baselines.len(),
{
    if baselines.len() == 0 {
        Set::empty()
    } else {
        strays_among(baselines.drop_last(), current).union(
            existing::new_addresses(baselines.last(), current),
        )
    }
}

/// The windows were read.
pub open spec fn sees(pass: PassView, current: Seq<ObservedClientView>) -> PassView {
    PassView {
        latest: current,
        strays: pass.strays.union(strays_among(pass.baselines, current)),
        ..pass
    }
}

/// Windows that belong to no target.
pub open spec fn extra_windows(pass: PassView) -> Seq<ObservedClientView> {
    pass.latest.filter(|w: ObservedClientView| !windows::is_taken(pass.used, w))
}

/// What a report tells about a window that belongs to no target.
pub open spec fn extra_line(window: ObservedClientView) -> Seq<char> {
    "EXTRA: "@ + window.client.class + " '"@ + window.client.title + "' at address "@
        + window.client.address + " on ws="@ + text::decimal(window.client.workspace.id)
        + " left untouched"@
}

/// The report of a pass that is over.
pub open spec fn final_report(pass: PassView) -> ReconcileReportView {
    let extras = extra_windows(pass);
    ReconcileReportView {
        extras: extras.len(),
        details: if pass.options.verbose {
            pass.report.details + extras.map_values(|w: ObservedClientView| extra_line(w))
        } else {
            pass.report.details
        },
        ..pass.report
    }
}

// ── Steps ──────────────────────────────────────────────────────────────────

/// What a pass asks for when nothing is pending.
pub open spec fn step_on(pass: PassView) -> Result<(PassView, PassActionView), RestoreErrorView> {
    if pass.index >= pass.targets.len() {
        Ok(
            (
                pass,
                if pass.options.dry_run {
                    PassActionView::Finish
                } else {
                    PassActionView::Observe
                },
            ),
        )
    } else if identity::lacks_profile(pass.targets[pass.index].client) {
        Ok(
            (
                skips(
                    pass,
                    "SKIP: "@ + pass.targets[pass.index].label
                        + " has no safe Brave profile identity"@,
                ),
                PassActionView::Continue,
            ),
        )
    } else if pass.options.dry_run {
        considers(pass)
    } else {
        Ok((pass, PassActionView::Observe))
    }
}

/// The windows were read as the pass asked for.
pub open spec fn step_observed(pass: PassView, current: Seq<ObservedClientView>) -> Result<
    (PassView, PassActionView),
    RestoreErrorView,
> {
    if pass.index >= pass.targets.len() {
        Ok((sees(pass, current), PassActionView::Finish))
    } else if current.len() > MAX_RECONCILIATION_WINDOWS {
        Err(
            RestoreErrorView::TooManyWindows {
                targets: pass.targets.len(),
                current: current.len(),
                limit: MAX_RECONCILIATION_WINDOWS as nat,
            },
        )
    } else {
        considers(sees(pass, current))
    }
}

/// A repair was made, or failed for a reason.
pub open spec fn step_repaired(pass: PassView, failure: Option<Seq<char>>) -> PassView {
    let target = pass.targets[pass.index];
    let address = pass.pending->0.client.address;
    match failure {
        None => moves_on(
            pass,
            ReconcileReportView {
                moved: pass.report.moved + 1,
                details: report::with_line(
                    pass.report.details,
                    pass.options.verbose,
                    "OK: repaired "@ + target.label + " at address "@ + address,
                ),
                ..pass.report
            },
        ),
        Some(reason) => fails(
            pass,
            "FAIL: "@ + target.label + " at address "@ + address + " — "@ + reason,
        ),
    }
}

/// An application was launched, and its window placed.
pub open spec fn step_launched(pass: PassView, window: ObservedClientView) -> PassView {
    moves_on(
        PassView { used: windows::with_window(pass.used, window), ..pass },
        ReconcileReportView {
            launched: pass.report.launched + 1,
            details: report::with_line(
                pass.report.details,
                pass.options.verbose,
                "OK: launched "@ + pass.targets[pass.index].label,
            ),
            ..pass.report
        },
    )
}

/// A launch failed for a reason; what came up meanwhile must be left alone.
pub open spec fn step_launch_failed(
    pass: PassView,
    reason: Seq<char>,
    again: Option<Seq<ObservedClientView>>,
) -> PassView {
    let noted = PassView { baselines: pass.baselines.push(pass.latest), ..pass };
    fails(
        match again {
            Some(current) => sees(noted, current),
            None => noted,
        },
        "FAIL: "@ + pass.targets[pass.index].label + " — "@ + reason,
    )
}

// ── The pass ───────────────────────────────────────────────────────────────

/// A pass.
#[derive(Debug)]
pub struct ReconcilePass<'a> {
    targets: Vec<ReconcileTarget>,
    clients: Vec<SessionClient>,
    available: Vec<bool>,
    planned: Vec<ObservedClient>,
    plan: Vec<Option<ReconcilePair>>,
    latest: Vec<ObservedClient>,
    used: ConsumedWindows,
    baselines: Vec<Vec<ObservedClient>>,
    strays: TextSet,
    protected: TextSet,
    binaries: Option<Vec<String>>,
    config: &'a Config,
    options: PassOptions,
    pending: Option<ObservedClient>,
    index: usize,
    report: ReconcileReport,
}

/// Lists of windows.
pub open spec fn lists_of(lists: Seq<Vec<ObservedClient>>) -> Seq<Seq<ObservedClientView>> {
    lists.map_values(|l: Vec<ObservedClient>| l.deep_view())
}

/// The texts in an optional list.
pub open spec fn texts_of(texts: Option<Vec<String>>) -> Option<Seq<Seq<char>>> {
    match texts {
        Some(list) => Some(list.deep_view()),
        None => None,
    }
}

impl<'a> View for ReconcilePass<'a> {
    type V = PassView;

    closed spec fn view(&self) -> PassView {
        PassView {
            targets: self.targets.deep_view(),
            available: self.available@,
            planned: self.planned.deep_view(),
            plan: self.plan@,
            latest: self.latest.deep_view(),
            used: self.used@,
            baselines: lists_of(self.baselines@),
            strays: self.strays@,
            protected: self.protected@,
            binaries: texts_of(self.binaries),
            settings: self.config@,
            options: self.options,
            pending: self.pending.deep_view(),
            index: self.index as int,
            report: self.report@,
        }
    }
}

/// The targets with their geometry adapted to the monitors that exist.
pub open spec fn adapted_targets(
    targets: Seq<ReconcileTargetView>,
    saved: Seq<MonitorView>,
    monitors: Seq<HyprMonitorView>,
) -> Seq<ReconcileTargetView> {
    targets.map_values(
        |t: ReconcileTargetView|
            ReconcileTargetView {
                client: placement::adapted(
                    t.client,
                    saved,
                    placement::monitor_named(monitors, t.client.monitor),
                ),
                label: t.label,
            },
    )
}

/// Which monitors of some targets exist.
pub open spec fn available_monitors(
    targets: Seq<ReconcileTargetView>,
    monitors: Seq<HyprMonitorView>,
) -> Seq<bool> {
    targets.map_values(
        |t: ReconcileTargetView| placement::monitor_is_available(monitors, t.client.monitor),
    )
}

/// A pass at its start.
pub open spec fn is_start(
    pass: PassView,
    targets: Seq<ReconcileTargetView>,
    saved: Seq<MonitorView>,
    monitors: Seq<HyprMonitorView>,
    observed: Seq<ObservedClientView>,
    protected: Set<Seq<char>>,
    binaries: Option<Seq<Seq<char>>>,
    settings: ConfigView,
    options: PassOptions,
    strategy: MatchingStrategy,
) -> bool {
    let adapted = adapted_targets(targets, saved, monitors);
    &&& planning::is_reconciliation(
        clients_of(adapted),
        observed,
        MatchPolicy::Normal,
        false,
        strategy,
        pass.plan,
    )
    &&& pass == PassView {
        targets: adapted,
        available: available_monitors(adapted, monitors),
        planned: observed,
        plan: pass.plan,
        latest: observed,
        used: Seq::empty(),
        baselines: Seq::empty(),
        strays: Set::empty(),
        protected,
        binaries,
        settings,
        options,
        pending: None,
        index: 0,
        report: report::blank_reconcile_report(),
    }
}

/// Copies observed windows.
pub fn copy_observed(windows: &[ObservedClient]) -> (r: Vec<ObservedClient>)
    ensures
        r.deep_view() == windows.deep_view(),
{
    let ghost all = windows.deep_view();
    let mut out: Vec<ObservedClient> = Vec::new();
    let mut i: usize = 0;
    assert(out.deep_view() =~= all.take(0));
    while i < windows.len()
        invariant
            i <= windows.len(),
            all == windows.deep_view(),
            out.deep_view() == all.take(i as int),
        decreases windows.len() - i,
    {
        let window = &windows[i];
        assert(all[i as int] == window@);
        let copy = window.clone();
        let ghost before = out.deep_view();
        out.push(copy);
        assert(out.deep_view() =~= before.push(window@));
        assert(all.take(i + 1) =~= before.push(all[i as int]));
        i += 1;
    }
    assert(all.take(i as int) =~= all);
    out
}

/// A target with its geometry adapted to the monitors that exist.
fn adapt_target(target: ReconcileTarget, saved: &[Monitor], monitors: &[HyprMonitor]) -> (r:
    ReconcileTarget)
    ensures
        r@ == (ReconcileTargetView {
            client: placement::adapted(
                target@.client,
                saved.deep_view(),
                placement::monitor_named(monitors.deep_view(), target@.client.monitor),
            ),
            label: target@.label,
        }),
{
    let monitor = placement::find_monitor_by_name(monitors, target.client.monitor.as_str());
    let client = placement::adapt_client_geometry(&target.client, saved, monitor);
    ReconcileTarget { client, label: target.label }
}

/// Targets with their geometry adapted to the monitors that exist.
pub fn adapt_targets(
    targets: Vec<ReconcileTarget>,
    saved: &[Monitor],
    monitors: &[HyprMonitor],
) -> (r: Vec<ReconcileTarget>)
    ensures
        r.deep_view() == adapted_targets(
            targets.deep_view(),
            saved.deep_view(),
            monitors.deep_view(),
        ),
{
    let ghost all = targets.deep_view();
    let ghost expected = adapted_targets(all, saved.deep_view(), monitors.deep_view());
    let mut rest = targets;
    let mut backwards: Vec<ReconcileTarget> = Vec::new();
    assert(rest.deep_view() =~= all.take(all.len() as int));
    while rest.len() > 0
        invariant
            rest.len() <= all.len(),
            expected == adapted_targets(all, saved.deep_view(), monitors.deep_view()),
            rest.deep_view() == all.take(rest.len() as int),
            backwards.len() == all.len() - rest.len(),
            forall|k: int|
                0 <= k < backwards.len() ==> #[trigger] backwards.deep_view()[k] == expected[
                all.len() - 1 - k],
        decreases rest.len(),
    {
        let ghost held = rest.deep_view();
        let ghost n = rest.len() - 1;
        match rest.pop() {
            Some(target) => {
                assert(target@ == held[n]);
                assert(rest.deep_view() =~= all.take(n));
                let done = adapt_target(target, saved, monitors);
                let ghost before = backwards.deep_view();
                backwards.push(done);
                assert(backwards.deep_view() =~= before.push(done@));
            },
            None => {},
        }
    }
    let mut out: Vec<ReconcileTarget> = Vec::new();
    assert(out.deep_view() =~= expected.take(0));
    while backwards.len() > 0
        invariant
            backwards.len() <= all.len(),
            expected.len() == all.len(),
            out.deep_view() == expected.take(all.len() - backwards.len()),
            forall|k: int|
                0 <= k < backwards.len() ==> #[trigger] backwards.deep_view()[k] == expected[
                all.len() - 1 - k],
        decreases backwards.len(),
    {
        let ghost held = backwards.deep_view();
        let ghost n = backwards.len() - 1;
        match backwards.pop() {
            Some(target) => {
                assert(target@ == held[n]);
                assert(backwards.deep_view() =~= held.take(n));
                assert forall|k: int| 0 <= k < backwards.len() implies #[trigger]
                    backwards.deep_view()[k] == expected[all.len() - 1 - k] by {
                    assert(held[k] == expected[all.len() - 1 - k]);
                }
                let ghost before = out.deep_view();
                out.push(target);
                assert(out.deep_view() =~= before.push(target@));
                assert(expected.take(all.len() - n) =~= before.push(expected[all.len() - 1 - n]));
            },
            None => {},
        }
    }
    assert(expected.take(all.len() as int) =~= expected);
    out
}

/// The clients of targets.
pub fn copy_target_clients(targets: &[ReconcileTarget]) -> (r: Vec<SessionClient>)
    ensures
        r.deep_view() == clients_of(targets.deep_view()),
{
    let ghost all = clients_of(targets.deep_view());
    let mut out: Vec<SessionClient> = Vec::new();
    let mut i: usize = 0;
    assert(out.deep_view() =~= all.take(0));
    while i < targets.len()
        invariant
            i <= targets.len(),
            all == clients_of(targets.deep_view()),
            out.deep_view() == all.take(i as int),
        decreases targets.len() - i,
    {
        let target = &targets[i];
        assert(targets.deep_view()[i as int] == target@);
        assert(all[i as int] == target@.client);
        let copy = target.client.clone();
        let ghost before = out.deep_view();
        out.push(copy);
        assert(out.deep_view() =~= before.push(target@.client));
        assert(all.take(i + 1) =~= before.push(all[i as int]));
        i += 1;
    }
    assert(all.take(i as int) =~= all);
    out
}

fn find_available(targets: &Vec<ReconcileTarget>, monitors: &[HyprMonitor]) -> (r: Vec<bool>)
    ensures
        r@ == available_monitors(targets.deep_view(), monitors.deep_view()),
{
    let ghost all = available_monitors(targets.deep_view(), monitors.deep_view());
    let mut out: Vec<bool> = Vec::new();
    let mut i: usize = 0;
    while i < targets.len()
        invariant
            i <= targets.len(),
            all == available_monitors(targets.deep_view(), monitors.deep_view()),
            out@ == all.take(i as int),
        decreases targets.len() - i,
    {
        assert(targets.deep_view()[i as int] == targets[i as int]@);
        out.push(
            placement::target_monitor_is_available(monitors, targets[i].client.monitor.as_str()),
        );
        assert(all.take(i + 1) =~= out@);
        i += 1;
    }
    assert(all.take(i as int) =~= all);
    out
}

/// The outcome of a step.
pub open spec fn is_step(
    after: PassView,
    r: Result<PassAction, RestoreError>,
    expected: Result<(PassView, PassActionView), RestoreErrorView>,
) -> bool {
    match (r, expected) {
        (Ok(action), Ok((pass, asked))) => after == pass && action@ == asked,
        (Err(error), Err(problem)) => error@ == problem,
        _ => false,
    }
}

impl<'a> ReconcilePass<'a> {
    /// The pass is in order.
    pub closed spec fn wf(&self) -> bool {
        &&& is_orderly(self@)
        &&& self.clients.deep_view() == clients_of(self@.targets)
    }

    /// Starts a pass.  The windows were read just before; `protected` are
    /// addresses that are left alone, and `binaries` the executables of the
    /// targets where they were looked up before.
    pub fn begin(
        wanted: Vec<ReconcileTarget>,
        saved: &[Monitor],
        monitors: &[HyprMonitor],
        observed: Vec<ObservedClient>,
        protected: TextSet,
        binaries: Option<Vec<String>>,
        config: &'a Config,
        options: PassOptions,
        strategy: MatchingStrategy,
    ) -> (r: Result<Self, RestoreError>)
        ensures
            match r {
                Ok(pass) => {
                    &&& wanted.deep_view().len() <= MAX_RECONCILIATION_WINDOWS
                    &&& observed.deep_view().len() <= MAX_RECONCILIATION_WINDOWS
                    &&& pass.wf()
                    &&& is_start(
                        pass@,
                        wanted.deep_view(),
                        saved.deep_view(),
                        monitors.deep_view(),
                        observed.deep_view(),
                        protected@,
                        texts_of(binaries),
                        config@,
                        options,
                        strategy,
                    )
                },
                Err(error) => {
                    &&& wanted.deep_view().len() > MAX_RECONCILIATION_WINDOWS
                        || observed.deep_view().len() > MAX_RECONCILIATION_WINDOWS
                    &&& error@ == (RestoreErrorView::TooManyWindows {
                        targets: wanted.deep_view().len(),
                        current: observed.deep_view().len(),
                        limit: MAX_RECONCILIATION_WINDOWS as nat,
                    })
                },
            },
    {
        if wanted.len() > MAX_RECONCILIATION_WINDOWS || observed.len()
            > MAX_RECONCILIATION_WINDOWS {
            return Err(
                RestoreError::TooManyWindows {
                    targets: wanted.len(),
                    current: observed.len(),
                    limit: MAX_RECONCILIATION_WINDOWS,
                },
            );
        }
        let targets = adapt_targets(wanted, saved, monitors);
        let clients = copy_target_clients(targets.as_slice());
        assert(targets.deep_view().len() == targets.len());
        assert(clients.deep_view().len() == clients.len());
        let available = find_available(&targets, monitors);
        let plan = planning::plan_reconciliation_with_strategy(
            clients.as_slice(),
            observed.as_slice(),
            strategy,
        );
        proof {
            planning::law_reconciliation_is_one_to_one(
                clients.deep_view(),
                observed.deep_view(),
                MatchPolicy::Normal,
                false,
                strategy,
                plan@,
            );
        }
        let latest = copy_observed(observed.as_slice());
        let pass = ReconcilePass {
            targets,
            clients,
            available,
            planned: observed,
            plan,
            latest,
            used: ConsumedWindows::default(),
            baselines: Vec::new(),
            strays: TextSet::new(),
            protected,
            binaries,
            config,
            options,
            pending: None,
            index: 0,
            report: ReconcileReport::default(),
        };
        assert(pass@.baselines =~= Seq::<Seq<ObservedClientView>>::empty());
        Ok(pass)
    }

    /// The state of the pass: the target at hand, and how many there are.
    pub fn progress(&self) -> (r: (usize, usize))
        ensures
            r.0 == self@.index,
            r.1 == self@.targets.len(),
    {
        (self.index, self.targets.len())
    }

    fn excluded_addresses(&self) -> (r: TextSet)
        requires
            self.wf(),
            self@.index < self@.targets.len(),
        ensures
            r@ == excluded(self@),
    {
        let mut left_alone = self.protected.clone();
        left_alone.extend(&self.strays);
        let reserved = existing::reserved_planned_addresses(
            self.index,
            self.plan.as_slice(),
            self.planned.as_slice(),
            self.latest.as_slice(),
            self.clients.as_slice(),
        );
        left_alone.extend(&reserved);
        left_alone
    }

    fn kind_for(&self, window: &ObservedClient) -> (r: Option<MatchKind>)
        requires
            self.wf(),
            self@.index < self@.targets.len(),
        ensures
            r == allowed_kind(
                self@.targets[self@.index].client,
                window@,
                self@.options.allow_ambiguous_identity,
            ),
    {
        assert(self@.targets[self.index as int] == self.targets[self.index as int]@);
        match windows::allowed_match(
            &self.targets[self.index].client,
            window,
            self.options.allow_ambiguous_identity,
        ) {
            Some((_, kind)) => Some(kind),
            None => None,
        }
    }

    fn find_planned(&self, left_alone: &TextSet) -> (r: Option<usize>)
        requires
            self.wf(),
            self@.index < self@.targets.len(),
        ensures
            match r {
                Some(i) => i < self@.latest.len() && planned_place(self@, left_alone@) == Some(
                    i as int,
                ),
                None => planned_place(self@, left_alone@) is None,
            },
    {
        let pair = match self.plan[self.index] {
            Some(pair) => pair,
            None => {
                return None;
            },
        };
        if pair.current_index >= self.planned.len() {
            return None;
        }
        let planned = &self.planned[pair.current_index];
        assert(self@.planned[pair.current_index as int] == planned@);
        if self.options.dry_run {
            if !self.used.contains(planned) && !left_alone.contains(
                planned.client.address.as_str(),
            ) && self.kind_for(planned).is_some() {
                return Some(pair.current_index);
            }
            return None;
        }
        let ghost here = self@.latest;
        let mut i: usize = 0;
        while i < self.latest.len()
            invariant
                self.wf(),
                self@.index < self@.targets.len(),
                here == self@.latest,
                here.len() == self.latest.len(),
                i <= self.latest.len(),
                planned_place(self@, left_alone@) == planned_from(
                    self@,
                    planned@,
                    left_alone@,
                    0,
                ),
                planned_from(self@, planned@, left_alone@, 0) == planned_from(
                    self@,
                    planned@,
                    left_alone@,
                    i as int,
                ),
            decreases self.latest.len() - i,
        {
            let window = &self.latest[i];
            assert(here[i as int] == window@);
            if windows::taken_windows_are_same(planned, window) && !self.used.contains(window)
                && !left_alone.contains(window.client.address.as_str()) && self.kind_for(
                window,
            ).is_some() {
                return Some(i);
            }
            i += 1;
        }
        None
    }

    fn choose_window(&self, left_alone: &TextSet) -> (r: Option<usize>)
        requires
            self.wf(),
            self@.index < self@.targets.len(),
            left_alone@ == excluded(self@),
        ensures
            match r {
                Some(i) => i < self@.latest.len() && chosen_place(self@) == Some(i as int),
                None => chosen_place(self@) is None,
            },
    {
        if let Some(i) = self.find_planned(left_alone) {
            return Some(i);
        }
        assert(self@.targets[self.index as int] == self.targets[self.index as int]@);
        existing::find_existing_restore_match(
            &self.targets[self.index].client,
            self.latest.as_slice(),
            &self.used,
            self.config,
            self.options.allow_ambiguous_identity,
            left_alone,
        )
    }

    fn pick_eligible(&self, left_alone: &TextSet) -> (r: Vec<ObservedClient>)
        requires
            left_alone@ == excluded(self@),
        ensures
            r.deep_view() == eligible_windows(self@),
    {
        let ghost all = self@.latest;
        let ghost keep = |w: ObservedClientView| !excluded(self@).contains(w.client.address);
        let mut out: Vec<ObservedClient> = Vec::new();
        let mut i: usize = 0;
        proof {
            reveal(Seq::filter);
            assert(out.deep_view() =~= all.take(0).filter(keep));
        }
        while i < self.latest.len()
            invariant
                i <= self.latest.len(),
                all == self@.latest,
                all.len() == self.latest.len(),
                left_alone@ == excluded(self@),
                keep == (|w: ObservedClientView| !excluded(self@).contains(w.client.address)),
                out.deep_view() == all.take(i as int).filter(keep),
            decreases self.latest.len() - i,
        {
            let window = &self.latest[i];
            let ghost before = out.deep_view();
            proof {
                crate::lists::lemma_filter_step(all, keep, i as int);
                assert(all[i as int] == window@);
            }
            if !left_alone.contains(window.client.address.as_str()) {
                let copy = window.clone();
                out.push(copy);
                assert(out.deep_view() =~= before.push(window@));
            }
            i += 1;
        }
        assert(all.take(all.len() as int) =~= all);
        out
    }

    /// The target at hand is done.
    fn move_on(&mut self)
        requires
            old(self).index < usize::MAX,
            old(self)@.index < old(self)@.targets.len(),
        ensures
            final(self)@ == moves_on(old(self)@, old(self)@.report),
            final(self).clients == old(self).clients,
    {
        self.pending = None;
        self.index += 1;
    }

    /// The target at hand is left out.
    fn skip(&mut self, line: String)
        requires
            old(self).wf(),
            old(self)@.pending is None,
            old(self)@.index < old(self)@.targets.len(),
        ensures
            final(self).wf(),
            final(self)@ == skips(old(self)@, line@),
    {
        self.report.skipped += 1;
        report::add_line(&mut self.report.details, line);
        self.move_on();
    }

    /// The target at hand cannot be restored.
    fn fail(&mut self, line: String)
        requires
            old(self).wf(),
            old(self)@.index < old(self)@.targets.len(),
        ensures
            final(self).wf(),
            final(self)@ == fails(old(self)@, line@),
    {
        self.report.failed += 1;
        report::add_line(&mut self.report.details, line);
        self.move_on();
    }

    /// The target at hand takes a window.
    fn take_window(&mut self, place: usize) -> (r: PassAction)
        requires
            old(self).wf(),
            old(self)@.pending is None,
            old(self)@.index < old(self)@.targets.len(),
            place < old(self)@.latest.len(),
        ensures
            final(self).wf(),
            (final(self)@, r@) == takes_window(old(self)@, old(self)@.latest[place as int]),
    {
        let ghost before = self@;
        let ghost at = self.index as int;
        assert(before.targets[at] == self.targets[at]@);
        assert(before.latest[place as int] == self.latest[place as int]@);
        let window = self.latest[place].clone();
        let kind = match self.kind_for(&window) {
            Some(kind) => kind,
            None => MatchKind::ClassFallback,
        };
        let target = &self.targets[self.index];
        let monitor = match &window.monitor_name {
            Some(name) => Some(name.as_str()),
            None => None,
        };
        let commands = placement::build_reconcile_dispatch_commands_with_geometry(
            &target.client,
            &window.client,
            monitor,
            ReconcileGeometry::new(
                target.client.at,
                target.client.size,
                self.available[self.index],
            ),
        );
        assert(commands.deep_view() == repair_commands(
            target@.client,
            window@,
            before.available[at],
        ));
        assert(commands.deep_view().len() == commands.len());
        let label = target.label.clone();
        self.used.insert(&window);
        self.report.matched += 1;
        if commands.len() == 0 {
            let start = if self.options.dry_run {
                "[dry-run]"
            } else {
                "OK"
            };
            let line = start.to_owned().concat(": ").concat(label.as_str()).concat(
                " already in place (matched ",
            ).concat(existing::match_kind_label(kind)).concat(")");
            self.report.unchanged += 1;
            let told = self.options.dry_run || self.options.verbose;
            report::add_line_if(&mut self.report.details, told, line);
            self.move_on();
            return PassAction::Continue;
        }
        if self.options.dry_run {
            let line = "[dry-run] repair ".to_owned().concat(label.as_str()).concat(
                " at address ",
            ).concat(window.client.address.as_str()).concat(" (matched ").concat(
                existing::match_kind_label(kind),
            ).concat(")");
            self.report.moved += 1;
            report::add_line(&mut self.report.details, line);
            report::add_commands(&mut self.report.details, &commands);
            self.move_on();
            return PassAction::Continue;
        }
        self.pending = Some(window.clone());
        PassAction::Repair { window, commands }
    }

    fn find_obstacle(&self, eligible: &Vec<ObservedClient>) -> (r: Option<String>)
        requires
            self.wf(),
            self@.index < self@.targets.len(),
            eligible.deep_view() == eligible_windows(self@),
        ensures
            r.deep_view() == obstacle(self@),
    {
        let target = &self.targets[self.index];
        assert(self@.targets[self.index as int] == target@);
        let client = &target.client;
        let start = "SKIP: ".to_owned().concat(target.label.as_str());
        if existing::has_unavailable_identity_candidate(
            client,
            eligible.as_slice(),
            &self.used,
            self.config,
        ) {
            return Some(
                start.concat(
                    " could not be safely matched because window identity is unavailable",
                ),
            );
        }
        if existing::has_ambiguous_generic_chromium_candidate(
            client,
            eligible.as_slice(),
            &self.used,
            self.config,
        ) {
            return Some(
                start.concat(
                    " could not be safely matched because generic Chromium window identity is unavailable",
                ),
            );
        }
        if !self.options.allow_ambiguous_identity && existing::has_unmatched_same_class_candidate(
            client,
            eligible.as_slice(),
            &self.used,
            self.config,
        ) {
            // A conservative safety recovery must not launch a second copy of
            // a window that was merely opened again.
            return Some(start.concat(" could not be safely matched during safety recovery"));
        }
        None
    }

    /// The target at hand has no window.
    fn go_without_window(&mut self, left_alone: &TextSet) -> (r: Result<PassAction, RestoreError>)
        requires
            old(self).wf(),
            old(self)@.pending is None,
            old(self)@.index < old(self)@.targets.len(),
            left_alone@ == excluded(old(self)@),
        ensures
            r is Ok ==> final(self).wf(),
            is_step(final(self)@, r, lacks_window(old(self)@)),
    {
        let ghost before = self@;
        let ghost at = self.index as int;
        assert(before.targets[at] == self.targets[at]@);
        let eligible = self.pick_eligible(left_alone);
        if let Some(line) = self.find_obstacle(&eligible) {
            self.skip(line);
            return Ok(PassAction::Continue);
        }
        let target = &self.targets[self.index];
        let command = launch::effective_binary(&target.client);
        if !launch::launch_command_is_trusted(&target.client, self.config) {
            let line = "FAIL: launch command '".to_owned().concat(command.as_str()).concat(
                "' for ",
            ).concat(target.label.as_str()).concat(" is not authorized by app identity or config");
            self.fail(line);
            return Ok(PassAction::Continue);
        }
        if self.options.dry_run {
            return Ok(PassAction::Resolve { command });
        }
        match &self.binaries {
            None => Ok(PassAction::Resolve { command }),
            Some(binaries) => {
                assert(before.binaries == Some(binaries.deep_view()));
                assert(binaries.deep_view().len() == binaries.len());
                if self.index < binaries.len() {
                    assert(binaries.deep_view()[at] == binaries[at]@);
                    let binary = binaries[self.index].clone();
                    Ok(self.go_on_with(Some(binary), left_alone))
                } else {
                    Err(
                        RestoreError::Transaction(
                            "validated replacement launch plan no longer matches its targets".to_owned(),
                        ),
                    )
                }
            },
        }
    }

    /// An executable was found or not.
    fn go_on_with(&mut self, found: Option<String>, left_alone: &TextSet) -> (r: PassAction)
        requires
            old(self).wf(),
            old(self)@.pending is None,
            old(self)@.index < old(self)@.targets.len(),
            left_alone@ == excluded(old(self)@),
        ensures
            final(self).wf(),
            (final(self)@, r@) == after_resolve(old(self)@, found.deep_view()),
    {
        let ghost before = self@;
        let ghost at = self.index as int;
        assert(before.targets[at] == self.targets[at]@);
        let eligible = self.pick_eligible(left_alone);
        let target = &self.targets[self.index];
        let client = &target.client;
        let available = self.available[self.index];
        let binary = match found {
            Some(binary) => binary,
            None => {
                let command = launch::effective_binary(client);
                let start = if self.options.dry_run {
                    "[dry-run] FAIL: binary '"
                } else {
                    "FAIL: binary '"
                };
                let line = start.to_owned().concat(command.as_str()).concat(
                    "' not found for ",
                ).concat(target.label.as_str());
                self.fail(line);
                return PassAction::Continue;
            },
        };
        if self.options.dry_run {
            let words = launch::build_launch_command(client);
            let line = "[dry-run] missing ".to_owned().concat(target.label.as_str()).concat(
                " → ",
            ).concat(text::join(&words, " ").as_str());
            let commands = launch::build_dispatch_commands_for_monitor(client, available);
            self.report.launched += 1;
            report::add_line(&mut self.report.details, line);
            report::add_commands(&mut self.report.details, &commands);
            self.move_on();
            return PassAction::Continue;
        }
        if existing::has_ambiguous_profile_candidate(
            client,
            eligible.as_slice(),
            &self.used,
            self.config,
        ) {
            let line = "SKIP: ".to_owned().concat(target.label.as_str()).concat(
                " could not be safely matched because Brave profile identity is ambiguous",
            );
            self.skip(line);
            return PassAction::Continue;
        }
        PassAction::Launch { client: client.clone(), binary, monitor_available: available }
    }

    fn consider(&mut self) -> (r: Result<PassAction, RestoreError>)
        requires
            old(self).wf(),
            old(self)@.pending is None,
            old(self)@.index < old(self)@.targets.len(),
        ensures
            r is Ok ==> final(self).wf(),
            is_step(final(self)@, r, considers(old(self)@)),
    {
        let left_alone = self.excluded_addresses();
        match self.choose_window(&left_alone) {
            Some(place) => Ok(self.take_window(place)),
            None => self.go_without_window(&left_alone),
        }
    }

    /// The windows were read.
    fn see(&mut self, current: Vec<ObservedClient>)
        requires
            old(self).wf(),
            !old(self)@.options.dry_run,
        ensures
            final(self).wf(),
            final(self)@ == sees(old(self)@, current.deep_view()),
    {
        let ghost before = self@;
        let ghost now = current.deep_view();
        self.latest = current;
        let ghost all = self@.baselines;
        let mut i: usize = 0;
        assert(all.take(0) =~= Seq::<Seq<ObservedClientView>>::empty());
        assert(before.strays.union(Set::<Seq<char>>::empty()) =~= before.strays);
        assert(self@ =~= PassView { latest: now, ..before });
        while i < self.baselines.len()
            invariant
                i <= self.baselines.len(),
                all == self@.baselines,
                all.len() == self.baselines.len(),
                self.latest.deep_view() == now,
                self.clients.deep_view() == clients_of(before.targets),
                self@ == (PassView {
                    latest: now,
                    strays: before.strays.union(strays_among(all.take(i as int), now)),
                    ..before
                }),
            decreases self.baselines.len() - i,
        {
            assert(all[i as int] == self.baselines[i as int].deep_view());
            assert(all.take(i + 1).drop_last() =~= all.take(i as int));
            assert(all.take(i + 1).last() == all[i as int]);
            let ghost held = self.strays@;
            existing::protect_windows_created_after(
                self.baselines[i].as_slice(),
                self.latest.as_slice(),
                &mut self.strays,
            );
            assert(self.strays@ =~= before.strays.union(strays_among(all.take(i + 1), now)));
            i += 1;
        }
        assert(all.take(i as int) =~= all);
    }

    /// Goes on; nothing may be pending.
    pub fn next(&mut self) -> (r: Result<PassAction, RestoreError>)
        requires
            old(self).wf(),
            old(self)@.pending is None,
        ensures
            r is Ok ==> final(self).wf(),
            is_step(final(self)@, r, step_on(old(self)@)),
    {
        if self.index >= self.targets.len() {
            return if self.options.dry_run {
                Ok(PassAction::Finish)
            } else {
                Ok(PassAction::Observe)
            };
        }
        let target = &self.targets[self.index];
        assert(self@.targets[self.index as int] == target@);
        if identity::brave_client_has_no_safe_profile_identity(&target.client) {
            let line = "SKIP: ".to_owned().concat(target.label.as_str()).concat(
                " has no safe Brave profile identity",
            );
            self.skip(line);
            return Ok(PassAction::Continue);
        }
        if self.options.dry_run {
            self.consider()
        } else {
            Ok(PassAction::Observe)
        }
    }

    /// Takes the windows that were read.
    pub fn observed(&mut self, current: Vec<ObservedClient>) -> (r: Result<
        PassAction,
        RestoreError,
    >)
        requires
            old(self).wf(),
            old(self)@.pending is None,
            !old(self)@.options.dry_run,
        ensures
            r is Ok ==> final(self).wf(),
            is_step(final(self)@, r, step_observed(old(self)@, current.deep_view())),
    {
        assert(current.deep_view().len() == current.len());
        if self.index >= self.targets.len() {
            self.see(current);
            return Ok(PassAction::Finish);
        }
        if current.len() > MAX_RECONCILIATION_WINDOWS {
            return Err(
                RestoreError::TooManyWindows {
                    targets: self.targets.len(),
                    current: current.len(),
                    limit: MAX_RECONCILIATION_WINDOWS,
                },
            );
        }
        self.see(current);
        self.consider()
    }

    /// Takes the outcome of a repair; a failure tells why.
    pub fn repaired(&mut self, failure: Option<String>)
        requires
            old(self).wf(),
            old(self)@.pending is Some,
        ensures
            final(self).wf(),
            final(self)@ == step_repaired(old(self)@, failure.deep_view()),
    {
        let target = &self.targets[self.index];
        assert(self@.targets[self.index as int] == target@);
        let address = match &self.pending {
            Some(window) => window.client.address.clone(),
            None => "".to_owned(),
        };
        match failure {
            None => {
                let line = "OK: repaired ".to_owned().concat(target.label.as_str()).concat(
                    " at address ",
                ).concat(address.as_str());
                self.report.moved += 1;
                report::add_line_if(&mut self.report.details, self.options.verbose, line);
                self.move_on();
            },
            Some(reason) => {
                let line = "FAIL: ".to_owned().concat(target.label.as_str()).concat(
                    " at address ",
                ).concat(address.as_str()).concat(" — ").concat(reason.as_str());
                self.fail(line);
            },
        }
    }

    /// Takes the executable that was found, if one was.
    pub fn resolved(&mut self, found: Option<String>) -> (r: PassAction)
        requires
            old(self).wf(),
            old(self)@.pending is None,
            old(self)@.index < old(self)@.targets.len(),
        ensures
            final(self).wf(),
            (final(self)@, r@) == after_resolve(old(self)@, found.deep_view()),
    {
        let left_alone = self.excluded_addresses();
        self.go_on_with(found, &left_alone)
    }

    /// Takes the window of an application that was launched.
    pub fn launched(&mut self, window: &ObservedClient)
        requires
            old(self).wf(),
            old(self)@.pending is None,
            old(self)@.index < old(self)@.targets.len(),
        ensures
            final(self).wf(),
            final(self)@ == step_launched(old(self)@, window@),
    {
        assert(self@.targets[self.index as int] == self.targets[self.index as int]@);
        let line = "OK: launched ".to_owned().concat(self.targets[self.index].label.as_str());
        self.used.insert(window);
        self.report.launched += 1;
        report::add_line_if(&mut self.report.details, self.options.verbose, line);
        self.move_on();
    }

    /// Takes the failure of a launch, and the windows that were read behind
    /// it, if they could be.
    pub fn launch_failed(&mut self, reason: &str, again: Option<Vec<ObservedClient>>)
        requires
            old(self).wf(),
            old(self)@.pending is None,
            !old(self)@.options.dry_run,
            old(self)@.index < old(self)@.targets.len(),
        ensures
            final(self).wf(),
            final(self)@ == step_launch_failed(
                old(self)@,
                reason@,
                match again {
                    Some(current) => Some(current.deep_view()),
                    None => None,
                },
            ),
    {
        let ghost before = self@;
        assert(self@.targets[self.index as int] == self.targets[self.index as int]@);
        let baseline = copy_observed(self.latest.as_slice());
        self.baselines.push(baseline);
        assert(self@.baselines =~= before.baselines.push(before.latest));
        if let Some(current) = again {
            self.see(current);
        }
        assert(self@.targets[self.index as int] == self.targets[self.index as int]@);
        let line = "FAIL: ".to_owned().concat(self.targets[self.index].label.as_str()).concat(
            " — ",
        ).concat(reason);
        self.fail(line);
    }

    /// The report, when the pass is over.
    pub fn finish(self) -> (r: ReconcileReport)
        ensures
            r@ == final_report(self@),
    {
        let ghost pass = self@;
        let ghost all = self@.latest;
        let ghost keep = |w: ObservedClientView| !windows::is_taken(pass.used, w);
        let ghost start = self.report@.details;
        let ghost tell = |w: ObservedClientView| extra_line(w);
        let mut done = self.report;
        let mut extras: usize = 0;
        let mut i: usize = 0;
        proof {
            reveal(Seq::filter);
            assert(all.take(0).filter(keep).map_values(tell) =~= Seq::<Seq<char>>::empty());
            assert(start + Seq::<Seq<char>>::empty() =~= start);
        }
        while i < self.latest.len()
            invariant
                i <= self.latest.len(),
                all == self.latest.deep_view(),
                keep == (|w: ObservedClientView| !windows::is_taken(pass.used, w)),
                tell == (|w: ObservedClientView| extra_line(w)),
                pass.used == self.used@,
                pass.options == self.options,
                extras <= i,
                extras == all.take(i as int).filter(keep).len(),
                done@ == (ReconcileReportView {
                    details: if self.options.verbose {
                        start + all.take(i as int).filter(keep).map_values(tell)
                    } else {
                        start
                    },
                    ..pass.report
                }),
            decreases self.latest.len() - i,
        {
            let window = &self.latest[i];
            let ghost head = all.take(i as int).filter(keep);
            proof {
                crate::lists::lemma_filter_step(all, keep, i as int);
                assert(all[i as int] == window@);
            }
            if !self.used.contains(window) {
                extras += 1;
                if self.options.verbose {
                    let line = "EXTRA: ".to_owned().concat(window.client.class.as_str()).concat(
                        " '",
                    ).concat(window.client.title.as_str()).concat("' at address ").concat(
                        window.client.address.as_str(),
                    ).concat(" on ws=").concat(
                        text::number_text(window.client.workspace.id as i64).as_str(),
                    ).concat(" left untouched");
                    report::add_line(&mut done.details, line);
                    assert(head.push(window@).map_values(tell) =~= head.map_values(tell).push(
                        extra_line(window@),
                    ));
                    assert(start + head.push(window@).map_values(tell) =~= (start
                        + head.map_values(tell)).push(extra_line(window@)));
                }
            }
            i += 1;
        }
        assert(all.take(all.len() as int) =~= all);
        done.extras = extras;
        done
    }
}

} // verus!
