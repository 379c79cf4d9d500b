//! What restoring answers: errors, reports, and launched processes.

use crate::hyprctl;
use crate::hyprctl::HyprctlError;
use crate::text;
use vstd::prelude::*;

verus! {

/// The most saved or open windows that one pass takes.
pub const MAX_RECONCILIATION_WINDOWS: usize = 512;

/// Why restoring failed.
#[derive(Debug)]
pub enum RestoreError {
    /// The compositor failed.
    Hyprctl(HyprctlError),
    /// There is no session.
    NoSession,
    /// Several new windows may be the launched one.
    AmbiguousWindow {
        /// The class of the window.
        class: String,
        /// The addresses of the candidates.
        addresses: String,
    },
    /// No new window is surely the launched one.
    UncorrelatedWindow {
        /// The class of the window.
        class: String,
    },
    /// A matched window is gone.
    WindowDisappeared {
        /// Where it stood.
        address: String,
    },
    /// Another window stands where a matched one stood.
    WindowIdentityChanged {
        /// Where it stood.
        address: String,
    },
    /// A launch command is not authorized.
    UntrustedLaunch {
        /// The window.
        target: String,
        /// The command.
        command: String,
    },
    /// The executable of a launch command is missing.
    MissingLaunchBinary {
        /// The window.
        target: String,
        /// The command.
        command: String,
    },
    /// The old windows did not close in time.
    ReplaceTimeout,
    /// A replacement could not be recorded.
    Transaction(String),
    /// The end of a replacement could not be recorded.
    TransactionAfterRestore(String),
    /// No window of a replacement can be restored.
    NoRestorableTargets,
    /// The safety snapshot cannot be restored.
    UnsafeRecoverySnapshot {
        /// Why.
        reason: String,
    },
    /// The replacement cannot be restored.
    UnsafeReplacementTarget {
        /// Why.
        reason: String,
    },
    /// There are too many windows.
    TooManyWindows {
        /// Saved windows.
        targets: usize,
        /// Open windows.
        current: usize,
        /// The most that is taken.
        limit: usize,
    },
}

/// An error of the compositor: what it is and its reason.
#[verifier::ext_equal]
pub ghost enum CompositorErrorView {
    CommandFailed(Seq<char>),
    ParseError(Seq<char>),
    IoError(Seq<char>),
}

#[verifier::ext_equal]
pub ghost enum RestoreErrorView {
    Hyprctl(CompositorErrorView),
    NoSession,
    AmbiguousWindow { class: Seq<char>, addresses: Seq<char> },
    UncorrelatedWindow { class: Seq<char> },
    WindowDisappeared { address: Seq<char> },
    WindowIdentityChanged { address: Seq<char> },
    UntrustedLaunch { target: Seq<char>, command: Seq<char> },
    MissingLaunchBinary { target: Seq<char>, command: Seq<char> },
    ReplaceTimeout,
    Transaction(Seq<char>),
    TransactionAfterRestore(Seq<char>),
    NoRestorableTargets,
    UnsafeRecoverySnapshot { reason: Seq<char> },
    UnsafeReplacementTarget { reason: Seq<char> },
    TooManyWindows { targets: nat, current: nat, limit: nat },
}

/// An error of the compositor.
pub open spec fn compositor_error(error: HyprctlError) -> CompositorErrorView {
    match error {
        HyprctlError::CommandFailed(reason) => CompositorErrorView::CommandFailed(reason@),
        HyprctlError::ParseError(reason) => CompositorErrorView::ParseError(reason@),
        HyprctlError::IoError(reason) => CompositorErrorView::IoError(reason@),
    }
}

impl View for RestoreError {
    type V = RestoreErrorView;

    open spec fn view(&self) -> RestoreErrorView {
        match *self {
            RestoreError::Hyprctl(error) => RestoreErrorView::Hyprctl(compositor_error(error)),
            RestoreError::NoSession => RestoreErrorView::NoSession,
            RestoreError::AmbiguousWindow { class, addresses } => {
                RestoreErrorView::AmbiguousWindow { class: class@, addresses: addresses@ }
            },
            RestoreError::UncorrelatedWindow { class } => {
                RestoreErrorView::UncorrelatedWindow { class: class@ }
            },
            RestoreError::WindowDisappeared { address } => {
                RestoreErrorView::WindowDisappeared { address: address@ }
            },
            RestoreError::WindowIdentityChanged { address } => {
                RestoreErrorView::WindowIdentityChanged { address: address@ }
            },
            RestoreError::UntrustedLaunch { target, command } => {
                RestoreErrorView::UntrustedLaunch { target: target@, command: command@ }
            },
            RestoreError::MissingLaunchBinary { target, command } => {
                RestoreErrorView::MissingLaunchBinary { target: target@, command: command@ }
            },
            RestoreError::ReplaceTimeout => RestoreErrorView::ReplaceTimeout,
            RestoreError::Transaction(reason) => RestoreErrorView::Transaction(reason@),
            RestoreError::TransactionAfterRestore(reason) => {
                RestoreErrorView::TransactionAfterRestore(reason@)
            },
            RestoreError::NoRestorableTargets => RestoreErrorView::NoRestorableTargets,
            RestoreError::UnsafeRecoverySnapshot { reason } => {
                RestoreErrorView::UnsafeRecoverySnapshot { reason: reason@ }
            },
            RestoreError::UnsafeReplacementTarget { reason } => {
                RestoreErrorView::UnsafeReplacementTarget { reason: reason@ }
            },
            RestoreError::TooManyWindows { targets, current, limit } => {
                RestoreErrorView::TooManyWindows {
                    targets: targets as nat,
                    current: current as nat,
                    limit: limit as nat,
                }
            },
        }
    }
}

/// What an error of the compositor tells the user.
pub open spec fn compositor_message(error: CompositorErrorView) -> Seq<char> {
    match error {
        CompositorErrorView::CommandFailed(reason) => "hyprctl command failed: "@ + reason,
        CompositorErrorView::ParseError(reason) => "JSON parse error: "@ + reason,
        CompositorErrorView::IoError(reason) => "IO error: "@ + reason,
    }
}

/// What an error tells the user.
pub open spec fn error_message(error: RestoreErrorView) -> Seq<char> {
    match error {
        RestoreErrorView::Hyprctl(cause) => "hyprctl error: "@ + compositor_message(cause),
        RestoreErrorView::NoSession => "no session found"@,
        RestoreErrorView::AmbiguousWindow { class, addresses } => {
            "could not unambiguously identify the new '"@ + class + "' window; candidates: "@
                + addresses
        },
        RestoreErrorView::UncorrelatedWindow { class } => {
            "could not safely correlate the new '"@ + class + "' window with its launch"@
        },
        RestoreErrorView::WindowDisappeared { address } => {
            "window "@ + address + " disappeared before reconciliation completed"@
        },
        RestoreErrorView::WindowIdentityChanged { address } => {
            "window "@ + address + " changed before reconciliation completed"@
        },
        RestoreErrorView::UntrustedLaunch { target, command } => {
            "launch command '"@ + command + "' for "@ + target
                + " is not authorized by app identity or config"@
        },
        RestoreErrorView::MissingLaunchBinary { target, command } => {
            "binary '"@ + command + "' for "@ + target + " was not found"@
        },
        RestoreErrorView::ReplaceTimeout => "timed out waiting for existing windows to close"@,
        RestoreErrorView::Transaction(reason) => {
            "replacement transaction could not be recorded: "@ + reason
        },
        RestoreErrorView::TransactionAfterRestore(reason) => {
            "replacement completed but its finalization marker could not be recorded: "@ + reason
        },
        RestoreErrorView::NoRestorableTargets => {
            "replacement session has no restorable windows"@
        },
        RestoreErrorView::UnsafeRecoverySnapshot { reason } => {
            "safety snapshot cannot be recovered safely: "@ + reason
        },
        RestoreErrorView::UnsafeReplacementTarget { reason } => {
            "replacement target cannot be recovered safely: "@ + reason
        },
        RestoreErrorView::TooManyWindows { targets, current, limit } => {
            "reconciliation is limited to "@ + text::digits(limit)
                + " saved/current windows (got "@ + text::digits(targets) + " saved and "@
                + text::digits(current) + " current)"@
        },
    }
}

impl RestoreError {
    /// What the error tells the user.
    pub fn message(&self) -> (r: String)
        ensures
            r@ == error_message(self@),
    {
        match self {
            RestoreError::Hyprctl(error) => "hyprctl error: ".to_owned().concat(
                error.message().as_str(),
            ),
            RestoreError::NoSession => "no session found".to_owned(),
            RestoreError::AmbiguousWindow {
                class,
                addresses,
            } => "could not unambiguously identify the new '".to_owned().concat(
                class.as_str(),
            ).concat("' window; candidates: ").concat(addresses.as_str()),
            RestoreError::UncorrelatedWindow {
                class,
            } => "could not safely correlate the new '".to_owned().concat(class.as_str()).concat(
                "' window with its launch",
            ),
            RestoreError::WindowDisappeared { address } => "window ".to_owned().concat(
                address.as_str(),
            ).concat(" disappeared before reconciliation completed"),
            RestoreError::WindowIdentityChanged { address } => "window ".to_owned().concat(
                address.as_str(),
            ).concat(" changed before reconciliation completed"),
            RestoreError::UntrustedLaunch {
                target,
                command,
            } => "launch command '".to_owned().concat(command.as_str()).concat("' for ").concat(
                target.as_str(),
            ).concat(" is not authorized by app identity or config"),
            RestoreError::MissingLaunchBinary { target, command } => "binary '".to_owned().concat(
                command.as_str(),
            ).concat("' for ").concat(target.as_str()).concat(" was not found"),
            RestoreError::ReplaceTimeout => {
                "timed out waiting for existing windows to close".to_owned()
            },
            RestoreError::Transaction(
                reason,
            ) => "replacement transaction could not be recorded: ".to_owned().concat(
                reason.as_str(),
            ),
            RestoreError::TransactionAfterRestore(
                reason,
            ) => "replacement completed but its finalization marker could not be recorded: ".to_owned().concat(
            reason.as_str()),
            RestoreError::NoRestorableTargets => {
                "replacement session has no restorable windows".to_owned()
            },
            RestoreError::UnsafeRecoverySnapshot {
                reason,
            } => "safety snapshot cannot be recovered safely: ".to_owned().concat(reason.as_str()),
            RestoreError::UnsafeReplacementTarget {
                reason,
            } => "replacement target cannot be recovered safely: ".to_owned().concat(
                reason.as_str(),
            ),
            RestoreError::TooManyWindows {
                targets,
                current,
                limit,
            } => "reconciliation is limited to ".to_owned().concat(
                text::count_text(*limit).as_str(),
            ).concat(" saved/current windows (got ").concat(
                text::count_text(*targets).as_str(),
            ).concat(" saved and ").concat(text::count_text(*current).as_str()).concat(
                " current)",
            ),
        }
    }
}

/// The outcome of restoring a session.
#[derive(Debug)]
pub struct RestoreReport {
    /// Windows that were restored.
    pub restored: usize,
    /// Windows that were left out.
    pub skipped: usize,
    /// Windows that could not be restored.
    pub failed: usize,
    /// What was done, line by line.
    pub details: Vec<String>,
}

#[verifier::ext_equal]
pub ghost struct RestoreReportView {
    pub restored: nat,
    pub skipped: nat,
    pub failed: nat,
    pub details: Seq<Seq<char>>,
}

impl View for RestoreReport {
    type V = RestoreReportView;

    open spec fn view(&self) -> RestoreReportView {
        RestoreReportView {
            restored: self.restored as nat,
            skipped: self.skipped as nat,
            failed: self.failed as nat,
            details: self.details.deep_view(),
        }
    }
}

/// A report of nothing.
pub open spec fn blank_restore_report() -> RestoreReportView {
    RestoreReportView { restored: 0, skipped: 0, failed: 0, details: Seq::empty() }
}

impl Default for RestoreReport {
    fn default() -> (r: Self)
        ensures
            r@ == blank_restore_report(),
    {
        let r = RestoreReport { restored: 0, skipped: 0, failed: 0, details: Vec::new() };
        assert(r@.details =~= Seq::<Seq<char>>::empty());
        r
    }
}

/// The outcome of one reconciliation pass.  `unchanged` and `moved` count
/// target windows that were already running; `launched` counts only missing
/// targets that had to be opened.  `extras` are deliberately left alone.
#[derive(Debug)]
pub struct ReconcileReport {
    /// Targets with an open window.
    pub matched: usize,
    /// Targets that were in place.
    pub unchanged: usize,
    /// Targets that were repaired.
    pub moved: usize,
    /// Targets that were opened.
    pub launched: usize,
    /// Open windows that belong to no target.
    pub extras: usize,
    /// Targets that were left out.
    pub skipped: usize,
    /// Targets that could not be restored.
    pub failed: usize,
    /// What was done, line by line.
    pub details: Vec<String>,
}

#[verifier::ext_equal]
pub ghost struct ReconcileReportView {
    pub matched: nat,
    pub unchanged: nat,
    pub moved: nat,
    pub launched: nat,
    pub extras: nat,
    pub skipped: nat,
    pub failed: nat,
    pub details: Seq<Seq<char>>,
}

impl View for ReconcileReport {
    type V = ReconcileReportView;

    open spec fn view(&self) -> ReconcileReportView {
        ReconcileReportView {
            matched: self.matched as nat,
            unchanged: self.unchanged as nat,
            moved: self.moved as nat,
            launched: self.launched as nat,
            extras: self.extras as nat,
            skipped: self.skipped as nat,
            failed: self.failed as nat,
            details: self.details.deep_view(),
        }
    }
}

/// A report of nothing.
pub open spec fn blank_reconcile_report() -> ReconcileReportView {
    ReconcileReportView {
        matched: 0,
        unchanged: 0,
        moved: 0,
        launched: 0,
        extras: 0,
        skipped: 0,
        failed: 0,
        details: Seq::empty(),
    }
}

impl Default for ReconcileReport {
    fn default() -> (r: Self)
        ensures
            r@ == blank_reconcile_report(),
    {
        let r = ReconcileReport {
            matched: 0,
            unchanged: 0,
            moved: 0,
            launched: 0,
            extras: 0,
            skipped: 0,
            failed: 0,
            details: Vec::new(),
        };
        assert(r@.details =~= Seq::<Seq<char>>::empty());
        r
    }
}

/// Lines after which one more stands, where a condition holds.
pub open spec fn with_line(
    lines: Seq<Seq<char>>,
    condition: bool,
    line: Seq<char>,
) -> Seq<Seq<char>> {
    if condition {
        lines.push(line)
    } else {
        lines
    }
}

/// Commands as a dry run shows them.
pub open spec fn shown_commands(commands: Seq<Seq<char>>) -> Seq<Seq<char>> {
    commands.map_values(|c: Seq<char>| "  hyprctl dispatch "@ + c)
}

/// Adds a line.
pub fn add_line(lines: &mut Vec<String>, line: String)
    ensures
        final(lines).deep_view() == old(lines).deep_view().push(line@),
{
    let ghost before = lines.deep_view();
    lines.push(line);
    assert(lines.deep_view() =~= before.push(line@));
}

/// Adds a line where a condition holds.
pub fn add_line_if(lines: &mut Vec<String>, condition: bool, line: String)
    ensures
        final(lines).deep_view() == with_line(old(lines).deep_view(), condition, line@),
{
    if condition {
        add_line(lines, line);
    }
}

/// Adds commands as a dry run shows them.
pub fn add_commands(lines: &mut Vec<String>, commands: &Vec<String>)
    ensures
        final(lines).deep_view() == old(lines).deep_view() + shown_commands(
            commands.deep_view(),
        ),
{
    let ghost before = lines.deep_view();
    let ghost all = shown_commands(commands.deep_view());
    let mut i: usize = 0;
    assert(lines.deep_view() =~= before + all.take(0));
    while i < commands.len()
        invariant
            i <= commands.len(),
            all == shown_commands(commands.deep_view()),
            lines.deep_view() == before + all.take(i as int),
        decreases commands.len() - i,
    {
        let line = "  hyprctl dispatch ".to_owned().concat(commands[i].as_str());
        assert(commands.deep_view()[i as int] == commands[i as int]@);
        assert(all[i as int] == line@);
        add_line(lines, line);
        assert(all.take(i + 1) =~= all.take(i as int).push(all[i as int]));
        assert(before + all.take(i + 1) =~= (before + all.take(i as int)).push(all[i as int]));
        i += 1;
    }
    assert(all.take(i as int) =~= all);
}

// ── Launched processes ─────────────────────────────────────────────────────

/// A process that was started.
#[derive(Debug, Clone, Copy, PartialEq, Eq, Structural)]
pub struct LaunchedProcess {
    /// PID returned by the launcher.  Some test or desktop launchers cannot
    /// provide one, so reconciliation retains an identity-based fallback.
    pub pid: Option<u32>,
    /// Linux process-start timestamp, when it was available immediately after
    /// launch.  PIDs can be reused, so root-process correlation must not rely
    /// on the number alone when this evidence exists.
    pub start_time: Option<u64>,
}

/// A small boundary around process creation.  The command line program uses
/// a real one, while tests can provide a deterministic launcher without
/// starting applications on the developer's desktop.
pub trait ProcessLauncher {
    /// Starts a command; a failure tells why.
    fn spawn(&self, command: &str, args: &[String]) -> Result<LaunchedProcess, String>;
}

} // verus!
