//! Recovering from a replacement that was interrupted.

use crate::config::{AppConfig, AppConfigView, Config, ConfigView, FilterConfig, GeneralConfig};
use crate::hyprctl::{HyprClient, HyprClientView};
use crate::lists::Table;
use crate::restore::observe;
use crate::restore::replace;
use crate::restore::report::{ReconcileReport, RestoreError};
use crate::text;
use vstd::prelude::*;

verus! {

// ── The marker ─────────────────────────────────────────────────────────────

/// How far a replacement went.
#[derive(Debug, Clone, Copy, PartialEq, Eq, Structural)]
pub enum ReplacePhase {
    /// The safety snapshot is stored, and nothing was touched.
    Prepared,
    /// The first window is about to be closed.
    Closing,
    /// The first window was closed.
    InProgress,
    /// The target was restored.
    Finalizing,
    /// The target was restored, as older markers say.
    Committed,
}

/// What is recorded about a replacement.
#[derive(Debug)]
pub struct ReplaceMarker {
    /// How far it went.
    pub phase: ReplacePhase,
    /// The safety snapshot.
    pub backup_name: String,
    /// The session that replaces the desktop.
    pub target_name: Option<String>,
    /// What that session held.
    pub target_digest: Option<String>,
    /// Where the window stood that was closed first.
    pub closing_address: Option<String>,
    /// Its process.
    pub closing_pid: Option<u32>,
    /// The start time of its process.
    pub closing_start_time: Option<u64>,
    /// Its stable ID.
    pub closing_stable_id: Option<String>,
}

#[verifier::ext_equal]
pub ghost struct ReplaceMarkerView {
    pub phase: ReplacePhase,
    pub backup_name: Seq<char>,
    pub target_name: Option<Seq<char>>,
    pub target_digest: Option<Seq<char>>,
    pub closing_address: Option<Seq<char>>,
    pub closing_pid: Option<u32>,
    pub closing_start_time: Option<u64>,
    pub closing_stable_id: Option<Seq<char>>,
}

impl View for ReplaceMarker {
    type V = ReplaceMarkerView;

    open spec fn view(&self) -> ReplaceMarkerView {
        ReplaceMarkerView {
            phase: self.phase,
            backup_name: self.backup_name@,
            target_name: self.target_name.deep_view(),
            target_digest: self.target_digest.deep_view(),
            closing_address: self.closing_address.deep_view(),
            closing_pid: self.closing_pid,
            closing_start_time: self.closing_start_time,
            closing_stable_id: self.closing_stable_id.deep_view(),
        }
    }
}

// ── What to do with a marker ───────────────────────────────────────────────

/// What is done about a marker.
#[derive(Debug, Clone, Copy, PartialEq, Eq, Structural)]
pub enum RecoveryStep {
    /// There is nothing to do.
    Nothing,
    /// The target was restored; the marker goes.
    Finalize,
    /// Nothing was closed; the marker goes.
    Discard,
    /// The marker does not tell what was closed; it stays.
    Incomplete,
    /// Look whether the first window was closed.
    ConfirmClose,
    /// Look whether the target was restored.
    VerifyTarget,
    /// Whether the first window was closed cannot be told; the marker stays.
    Undecided,
    /// Restore the safety snapshot.
    Restore,
}

/// What is done about a marker.
pub open spec fn recovery_step(marker: Option<ReplaceMarkerView>) -> RecoveryStep {
    match marker {
        None => RecoveryStep::Nothing,
        Some(m) => match m.phase {
            ReplacePhase::Finalizing => RecoveryStep::Finalize,
            ReplacePhase::Committed => RecoveryStep::Finalize,
            ReplacePhase::Prepared => RecoveryStep::Discard,
            ReplacePhase::Closing => if m.closing_address is Some {
                RecoveryStep::ConfirmClose
            } else {
                RecoveryStep::Incomplete
            },
            ReplacePhase::InProgress => if m.target_name is Some {
                RecoveryStep::VerifyTarget
            } else {
                RecoveryStep::Restore
            },
        },
    }
}

/// The contents of an optional marker.
pub open spec fn marker_of(marker: Option<&ReplaceMarker>) -> Option<ReplaceMarkerView> {
    match marker {
        Some(m) => Some(m@),
        None => None,
    }
}

/// What is done about a marker.
pub fn plan_recovery(marker: Option<&ReplaceMarker>) -> (r: RecoveryStep)
    ensures
        r == recovery_step(marker_of(marker)),
{
    match marker {
        None => RecoveryStep::Nothing,
        Some(m) => match m.phase {
            ReplacePhase::Finalizing => RecoveryStep::Finalize,
            ReplacePhase::Committed => RecoveryStep::Finalize,
            ReplacePhase::Prepared => RecoveryStep::Discard,
            ReplacePhase::Closing => if m.closing_address.is_some() {
                RecoveryStep::ConfirmClose
            } else {
                RecoveryStep::Incomplete
            },
            ReplacePhase::InProgress => if m.target_name.is_some() {
                RecoveryStep::VerifyTarget
            } else {
                RecoveryStep::Restore
            },
        },
    }
}

/// What is done once it was looked whether the first window was closed.
pub fn after_close_check(closed: Option<bool>) -> (r: RecoveryStep)
    ensures
        r == match closed {
            Some(true) => RecoveryStep::Restore,
            Some(false) => RecoveryStep::Discard,
            None => RecoveryStep::Undecided,
        },
{
    match closed {
        Some(true) => RecoveryStep::Restore,
        Some(false) => RecoveryStep::Discard,
        None => RecoveryStep::Undecided,
    }
}

/// The target is still the one that the replacement started with.
pub open spec fn is_unchanged(marker: ReplaceMarkerView, digest: Option<Seq<char>>) -> bool {
    marker.target_digest is Some && digest is Some && marker.target_digest->0 == digest->0
}

/// Tells whether the target is still the one that the replacement started
/// with.
pub fn target_matches_marker(marker: &ReplaceMarker, digest: &Option<String>) -> (r: bool)
    ensures
        r == is_unchanged(marker@, digest.deep_view()),
{
    match (&marker.target_digest, digest) {
        (Some(expected), Some(actual)) => text::same(expected.as_str(), actual.as_str()),
        _ => false,
    }
}

/// What is done once it was looked whether the target was restored: only an
/// unchanged target that is surely complete is kept.
pub fn after_target_check(unchanged: bool, complete: Option<bool>) -> (r: RecoveryStep)
    ensures
        r == if unchanged && complete == Some(true) {
            RecoveryStep::Finalize
        } else {
            RecoveryStep::Restore
        },
{
    match complete {
        Some(true) => if unchanged {
            RecoveryStep::Finalize
        } else {
            RecoveryStep::Restore
        },
        _ => RecoveryStep::Restore,
    }
}

/// A replacement touched the desktop; nothing where that cannot be told.
/// `closed` tells whether the first window was closed.
pub open spec fn has_started(
    marker: Option<ReplaceMarkerView>,
    closed: Option<bool>,
) -> Option<bool> {
    match marker {
        None => Some(false),
        Some(m) => match m.phase {
            ReplacePhase::InProgress => Some(true),
            ReplacePhase::Closing => if m.closing_address is Some {
                closed
            } else {
                None
            },
            _ => Some(false),
        },
    }
}

/// Tells whether a replacement touched the desktop.
pub fn replacement_has_started(marker: Option<&ReplaceMarker>, closed: Option<bool>) -> (r: Option<
    bool,
>)
    ensures
        r == has_started(marker_of(marker), closed),
{
    match marker {
        None => Some(false),
        Some(m) => match m.phase {
            ReplacePhase::InProgress => Some(true),
            ReplacePhase::Closing => if m.closing_address.is_some() {
                closed
            } else {
                None
            },
            _ => Some(false),
        },
    }
}

/// A marker is dropped only where nothing was closed or the target was
/// restored; in any other case the snapshot is restored or the marker stays.
pub proof fn law_interrupted_replacements_are_recovered(marker: ReplaceMarkerView)
    ensures
        recovery_step(Some(marker)) is Discard ==> marker.phase is Prepared,
        recovery_step(Some(marker)) is Finalize ==> marker.phase is Finalizing
            || marker.phase is Committed,
        marker.phase is InProgress ==> recovery_step(Some(marker)) is VerifyTarget
            || recovery_step(Some(marker)) is Restore,
        has_started(Some(marker), None) == Some(true) <==> marker.phase is InProgress,
{
}

// ── The first close ────────────────────────────────────────────────────────

/// The window at an address is surely another one than the one that was
/// closed: a stable ID decides, and without one the process may.
pub open spec fn is_other_window(
    marker: ReplaceMarkerView,
    current: HyprClientView,
    start_time: Option<u64>,
) -> bool {
    let ids_known = marker.closing_stable_id is Some && current.stable_id is Some;
    if ids_known {
        !text::same_ignoring_case(marker.closing_stable_id->0, current.stable_id->0)
    } else {
        marker.closing_pid is Some && (marker.closing_pid->0 != current.pid || (
        marker.closing_start_time is Some && start_time is Some && marker.closing_start_time->0
            != start_time->0))
    }
}

/// The first close was surely carried out: the window is gone, or another one
/// stands there.  `start_time` is that of the process of the window that now
/// stands at the address.
pub open spec fn is_surely_closed(
    marker: ReplaceMarkerView,
    clients: Seq<HyprClientView>,
    start_time: Option<u64>,
) -> bool {
    match marker.closing_address {
        None => false,
        Some(address) => match observe::address_from(clients, address, 0) {
            None => true,
            Some(i) => is_other_window(marker, clients[i], start_time),
        },
    }
}

/// Tells whether the first close was surely carried out.  A close is carried
/// out some time after it was asked for, so a window that is still there
/// proves nothing.
pub fn first_close_is_confirmed(
    marker: &ReplaceMarker,
    clients: &[HyprClient],
    start_time: Option<u64>,
) -> (r: bool)
    ensures
        r == is_surely_closed(marker@, clients.deep_view(), start_time),
{
    let address = match &marker.closing_address {
        Some(address) => address,
        None => {
            return false;
        },
    };
    let place = match observe::find_address(clients, address.as_str()) {
        Some(place) => place,
        None => {
            return true;
        },
    };
    let current = &clients[place];
    assert(clients.deep_view()[place as int] == current@);
    if let (Some(expected), Some(now)) = (&marker.closing_stable_id, &current.stable_id) {
        return !text::eq_ignore_case(expected.as_str(), now.as_str());
    }
    match marker.closing_pid {
        Some(pid) => {
            if pid != current.pid {
                return true;
            }
            match (marker.closing_start_time, start_time) {
                (Some(expected), Some(now)) => expected != now,
                _ => false,
            }
        },
        None => false,
    }
}

// ── Commands ───────────────────────────────────────────────────────────────

/// A command of the user, as far as recovery cares.
#[derive(Debug, Clone, Copy, PartialEq, Eq, Structural)]
pub enum CommandKind {
    /// Lists sessions.
    List,
    /// Shows settings.
    Config,
    /// Restores a session.
    Restore {
        /// Nothing is done.
        dry_run: bool,
        /// Only advice is given.
        on_login: bool,
    },
    /// Deals with automatic saving.
    Autosave {
        /// A session is saved.
        now: bool,
    },
    /// Saves a session.
    Save,
    /// Replaces the desktop.
    Replace,
    /// Deletes a session.
    Delete,
    /// Recovers.
    Recover,
}

/// Tells whether a command has to wait until an interrupted replacement is
/// recovered: every command does that changes the desktop or the sessions.
pub fn command_requires_clean_recovery(command: CommandKind) -> (r: bool)
    ensures
        r == match command {
            CommandKind::List => false,
            CommandKind::Config => false,
            CommandKind::Restore { dry_run, on_login } => !dry_run && !on_login,
            CommandKind::Autosave { now } => now,
            _ => true,
        },
{
    match command {
        CommandKind::List => false,
        CommandKind::Config => false,
        CommandKind::Restore { dry_run, on_login } => !dry_run && !on_login,
        CommandKind::Autosave { now } => now,
        _ => true,
    }
}

// ── Settings ───────────────────────────────────────────────────────────────

/// The settings of an application while a snapshot is taken or restored.
pub open spec fn recovery_app(entry: (Seq<char>, AppConfigView)) -> (Seq<char>, AppConfigView) {
    if text::same_ignoring_case(entry.0, "brave-browser"@) {
        (entry.0, AppConfigView { profile_workspaces: None, ..entry.1 })
    } else {
        entry
    }
}

/// The settings while a safety snapshot is taken or restored: no application
/// is ignored, and every profile of Brave counts.
pub open spec fn recovery_settings(settings: ConfigView) -> ConfigView {
    ConfigView {
        ignore_classes: Seq::empty(),
        apps: settings.apps.map_values(|e: (Seq<char>, AppConfigView)| recovery_app(e)),
        ..settings
    }
}

fn copy_mapping(mapping: &Table<i32>) -> (r: Table<i32>)
    ensures
        r@ == mapping@,
{
    let ghost all = mapping@;
    let mut out: Table<i32> = Table { entries: Vec::new() };
    let mut i: usize = 0;
    assert(out@ =~= all.take(0));
    while i < mapping.entries.len()
        invariant
            i <= mapping.entries.len(),
            all == mapping@,
            out@ == all.take(i as int),
        decreases mapping.entries.len() - i,
    {
        let entry = &mapping.entries[i];
        assert(all[i as int] == (entry.0@, entry.1@));
        let ghost before = out@;
        let key = entry.0.clone();
        out.entries.push((key, entry.1));
        assert(out@ =~= before.push((entry.0@, entry.1@)));
        assert(all.take(i + 1) =~= before.push(all[i as int]));
        i += 1;
    }
    assert(all.take(i as int) =~= all);
    out
}

fn copy_app(app: &AppConfig, keeps_profiles: bool) -> (r: AppConfig)
    ensures
        r@ == if keeps_profiles {
            app@
        } else {
            AppConfigView { profile_workspaces: None, ..app@ }
        },
{
    let profile_workspaces = match &app.profile_workspaces {
        Some(mapping) => if keeps_profiles {
            Some(copy_mapping(mapping))
        } else {
            None
        },
        None => None,
    };
    AppConfig {
        binary: text::copy_option(&app.binary),
        capture_cwd: app.capture_cwd,
        capture_last_command: app.capture_last_command,
        hint_template: text::copy_option(&app.hint_template),
        profile_workspaces,
        default_workspace: app.default_workspace,
    }
}

/// The settings while a safety snapshot is taken or restored.  Replace closes
/// every current client, including classes excluded from ordinary snapshots,
/// so the recovery copy must hold those clients too.
pub fn safety_recovery_config(config: &Config) -> (r: Config)
    ensures
        r@ == recovery_settings(config@),
{
    let ghost all = config@.apps;
    let ghost wanted = recovery_settings(config@).apps;
    let mut apps: Table<AppConfig> = Table { entries: Vec::new() };
    let mut i: usize = 0;
    assert(apps@ =~= wanted.take(0));
    while i < config.apps.entries.len()
        invariant
            i <= config.apps.entries.len(),
            all == config.apps@,
            wanted == all.map_values(|e: (Seq<char>, AppConfigView)| recovery_app(e)),
            apps@ == wanted.take(i as int),
        decreases config.apps.entries.len() - i,
    {
        let entry = &config.apps.entries[i];
        assert(all[i as int] == (entry.0@, entry.1@));
        let keeps_profiles = !text::eq_ignore_case(entry.0.as_str(), "brave-browser");
        let app = copy_app(&entry.1, keeps_profiles);
        let key = entry.0.clone();
        let ghost before = apps@;
        let ghost added = (key@, app@);
        apps.entries.push((key, app));
        assert(apps@ =~= before.push(added));
        assert(wanted[i as int] == added);
        assert(wanted.take(i + 1) =~= before.push(wanted[i as int]));
        i += 1;
    }
    assert(wanted.take(i as int) =~= wanted);
    let r = Config {
        general: GeneralConfig {
            default_session: config.general.default_session.clone(),
            restore_delay_ms: config.general.restore_delay_ms,
            window_detect_timeout_ms: config.general.window_detect_timeout_ms,
            autosave_retain: config.general.autosave_retain,
        },
        filters: FilterConfig { ignore_classes: Vec::new() },
        apps,
    };
    assert(r@.ignore_classes =~= Seq::<Seq<char>>::empty());
    assert(r@ =~= recovery_settings(config@));
    r
}

// ── Outcomes ───────────────────────────────────────────────────────────────

/// Tells whether recovery succeeded.
pub fn recovery_succeeded(outcome: &Result<ReconcileReport, RestoreError>) -> (r: bool)
    ensures
        r == match *outcome {
            Ok(report) => replace::is_clean(report@),
            Err(_) => false,
        },
{
    match outcome {
        Ok(report) => replace::report_is_clean(report),
        Err(_) => false,
    }
}

} // verus!
