//! Replacing the desktop by a session, step by step.
//!
//! A replacement asks its caller for one thing at a time and goes on with the
//! answer.  The targets are checked before anything else, then the old windows
//! are closed and waited for, what came up meanwhile is protected, and the
//! session is reconciled with what is left.

use crate::config::{Config, ConfigView};
use crate::hyprctl::{HyprClient, HyprClientView, HyprctlError};
use crate::lists::{Table, TextSet};
use crate::restore::launched;
use crate::restore::observe::ProcessState;
use crate::restore::reconcile;
use crate::restore::replace;
use crate::restore::replace::{
    CloseAction, CloseActionView, ClosingMark, ClosingMarkView, Replacement, ReplacementView,
    WaitStep,
};
use crate::restore::report;
use crate::restore::report::{
    CompositorErrorView, ReconcileReport, ReconcileReportView, RestoreError, RestoreErrorView,
};
use crate::restore::targets;
use crate::session::{Session, SessionClientView, SessionView};
use crate::text;
use vstd::prelude::*;

verus! {

// ── States, events and actions ─────────────────────────────────────────────

/// How the desktop is replaced.
#[derive(Debug, Clone, Copy, PartialEq, Eq, Structural)]
pub struct ReplaceOptions {
    /// Only tell what would be done.
    pub dry_run: bool,
    /// Check the targets before anything is closed.
    pub validate_targets: bool,
    /// Record the progress.
    pub marked: bool,
}

/// What a replacement waits for.
#[derive(Debug)]
pub enum ReplaceStage {
    /// To begin.
    Start,
    /// The executables of the targets.
    Validating,
    /// The report of a dry run.
    Previewing,
    /// The windows at the start.
    Listing,
    /// The windows just before one is closed.
    Rechecking(Replacement),
    /// A window to be closed.
    Closing(Replacement),
    /// A record that the replacement goes on.
    Marking(Replacement),
    /// The closed windows to go.
    Watching(Replacement),
    /// The windows after that.
    Protecting(Replacement),
    /// The session to be reconciled.
    Reconciling,
    /// A record that the session is restored.
    Finalizing(ReconcileReport),
    /// Nothing.
    Over,
}

/// What a replacement waits for, in the abstract.
#[verifier::ext_equal]
pub ghost enum ReplaceStageView {
    Start,
    Validating,
    Previewing,
    Listing,
    Rechecking(ReplacementView),
    Closing(ReplacementView),
    Marking(ReplacementView),
    Watching(ReplacementView),
    Protecting(ReplacementView),
    Reconciling,
    Finalizing(ReconcileReportView),
    Over,
}

impl View for ReplaceStage {
    type V = ReplaceStageView;

    open spec fn view(&self) -> ReplaceStageView {
        match *self {
            ReplaceStage::Start => ReplaceStageView::Start,
            ReplaceStage::Validating => ReplaceStageView::Validating,
            ReplaceStage::Previewing => ReplaceStageView::Previewing,
            ReplaceStage::Listing => ReplaceStageView::Listing,
            ReplaceStage::Rechecking(closing) => ReplaceStageView::Rechecking(closing@),
            ReplaceStage::Closing(closing) => ReplaceStageView::Closing(closing@),
            ReplaceStage::Marking(closing) => ReplaceStageView::Marking(closing@),
            ReplaceStage::Watching(closing) => ReplaceStageView::Watching(closing@),
            ReplaceStage::Protecting(closing) => ReplaceStageView::Protecting(closing@),
            ReplaceStage::Reconciling => ReplaceStageView::Reconciling,
            ReplaceStage::Finalizing(report) => ReplaceStageView::Finalizing(report@),
            ReplaceStage::Over => ReplaceStageView::Over,
        }
    }
}

/// The state of a replacement.
#[derive(Debug)]
pub struct ReplaceState<'a> {
    session: &'a Session,
    config: &'a Config,
    safety: Option<&'a Session>,
    options: ReplaceOptions,
    binaries: Option<Vec<String>>,
    stage: ReplaceStage,
}

/// The state of a replacement, in the abstract.
#[verifier::ext_equal]
pub ghost struct ReplaceView {
    /// The session.
    pub session: SessionView,
    /// The settings.
    pub settings: ConfigView,
    /// The windows of the safety snapshot.
    pub safety: Option<Seq<SessionClientView>>,
    /// How the desktop is replaced.
    pub options: ReplaceOptions,
    /// The executables of the targets, once these were checked.
    pub binaries: Option<Seq<Seq<char>>>,
    /// What is waited for.
    pub stage: ReplaceStageView,
}

/// The windows of an optional snapshot.
pub open spec fn windows_of(snapshot: Option<&Session>) -> Option<Seq<SessionClientView>> {
    match snapshot {
        Some(saved) => Some(saved@.clients),
        None => None,
    }
}

impl<'a> View for ReplaceState<'a> {
    type V = ReplaceView;

    closed spec fn view(&self) -> ReplaceView {
        ReplaceView {
            session: self.session@,
            settings: self.config@,
            safety: windows_of(self.safety),
            options: self.options,
            binaries: reconcile::texts_of(self.binaries),
            stage: self.stage@,
        }
    }
}

/// What a replacement is told.
#[derive(Debug)]
pub enum ReplaceEvent {
    /// It may begin.
    Begin,
    /// The desktop entries, and the executables that were found by name.
    Found {
        /// The contents of the desktop entries.
        entries: Vec<String>,
        /// The executables.
        binaries: Table<String>,
    },
    /// The open windows.
    Listed(Vec<HyprClient>),
    /// The open windows, read again before one of them is closed.
    Rechecked {
        /// The start time of the process of that window.
        start_time: Option<u64>,
        /// The open windows.
        clients: Vec<HyprClient>,
        /// The process of the window that stands at its address now.
        process: ProcessState,
    },
    /// The compositor took the command that closes a window.
    Closed,
    /// What was to be recorded is recorded.
    Recorded,
    /// The open windows while closed ones are waited for.
    Seen {
        /// The open windows.
        clients: Vec<HyprClient>,
        /// Their processes.
        processes: Vec<ProcessState>,
        /// How long closed windows have been waited for, in milliseconds.
        elapsed: u64,
    },
    /// The session was reconciled.
    Reconciled(ReconcileReport),
    /// The compositor failed.
    CompositorFailed(HyprctlError),
    /// Something could not be recorded.
    RecordFailed(String),
    /// The session could not be reconciled.
    PassFailed(RestoreError),
}

/// What a replacement is told, in the abstract.
#[verifier::ext_equal]
pub ghost enum ReplaceEventView {
    Begin,
    Found { entries: Seq<Seq<char>>, binaries: Seq<(Seq<char>, Seq<char>)> },
    Listed(Seq<HyprClientView>),
    Rechecked { start_time: Option<u64>, clients: Seq<HyprClientView>, process: ProcessState },
    Closed,
    Recorded,
    Seen { clients: Seq<HyprClientView>, processes: Seq<ProcessState>, elapsed: u64 },
    Reconciled(ReconcileReportView),
    CompositorFailed(CompositorErrorView),
    RecordFailed(Seq<char>),
    PassFailed(RestoreErrorView),
}

impl View for ReplaceEvent {
    type V = ReplaceEventView;

    open spec fn view(&self) -> ReplaceEventView {
        match *self {
            ReplaceEvent::Begin => ReplaceEventView::Begin,
            ReplaceEvent::Found { entries, binaries } => ReplaceEventView::Found {
                entries: entries.deep_view(),
                binaries: binaries@,
            },
            ReplaceEvent::Listed(clients) => ReplaceEventView::Listed(clients.deep_view()),
            ReplaceEvent::Rechecked { start_time, clients, process } => {
                ReplaceEventView::Rechecked { start_time, clients: clients.deep_view(), process }
            },
            ReplaceEvent::Closed => ReplaceEventView::Closed,
            ReplaceEvent::Recorded => ReplaceEventView::Recorded,
            ReplaceEvent::Seen { clients, processes, elapsed } => ReplaceEventView::Seen {
                clients: clients.deep_view(),
                processes: processes@,
                elapsed,
            },
            ReplaceEvent::Reconciled(report) => ReplaceEventView::Reconciled(report@),
            ReplaceEvent::CompositorFailed(error) => ReplaceEventView::CompositorFailed(
                report::compositor_error(error),
            ),
            ReplaceEvent::RecordFailed(reason) => ReplaceEventView::RecordFailed(reason@),
            ReplaceEvent::PassFailed(error) => ReplaceEventView::PassFailed(error@),
        }
    }
}

/// What a replacement asks for.
#[derive(Debug)]
pub enum ReplaceAction {
    /// Find the executables of the targets.
    Validate,
    /// Reconcile the session in a dry run.
    Preview,
    /// Read the open windows.
    List,
    /// Read the start time of a process and then the windows again.
    Recheck {
        /// The window.
        address: String,
        /// Its process.
        pid: u32,
    },
    /// Record what is closed first, if anything is to be recorded, and close
    /// a window.
    Close {
        /// The command that closes it.
        command: String,
        /// What is recorded before.
        mark: Option<ClosingMark>,
    },
    /// Record that the replacement goes on.
    MarkInProgress,
    /// Read the open windows and their processes, after a rest if one is due.
    Watch {
        /// Rest before.
        rest: bool,
    },
    /// Reconcile the session.
    Reconcile {
        /// The executables of the targets, where these were checked.
        binaries: Option<Vec<String>>,
        /// The addresses that are left alone.
        protected: TextSet,
    },
    /// Record that the session is restored.
    MarkFinalizing,
    /// The desktop is replaced.
    Done(ReconcileReport),
    /// The replacement failed.
    Fail(RestoreError),
}

/// What a replacement asks for, in the abstract.
#[verifier::ext_equal]
pub ghost enum ReplaceActionView {
    Validate,
    Preview,
    List,
    Recheck { address: Seq<char>, pid: u32 },
    Close { command: Seq<char>, mark: Option<ClosingMarkView> },
    MarkInProgress,
    Watch { rest: bool },
    Reconcile { binaries: Option<Seq<Seq<char>>>, protected: Set<Seq<char>> },
    MarkFinalizing,
    Done(ReconcileReportView),
    Fail(RestoreErrorView),
}

impl View for ReplaceAction {
    type V = ReplaceActionView;

    open spec fn view(&self) -> ReplaceActionView {
        match *self {
            ReplaceAction::Validate => ReplaceActionView::Validate,
            ReplaceAction::Preview => ReplaceActionView::Preview,
            ReplaceAction::List => ReplaceActionView::List,
            ReplaceAction::Recheck { address, pid } => ReplaceActionView::Recheck {
                address: address@,
                pid,
            },
            ReplaceAction::Close { command, mark } => ReplaceActionView::Close {
                command: command@,
                mark: match mark {
                    Some(m) => Some(m@),
                    None => None,
                },
            },
            ReplaceAction::MarkInProgress => ReplaceActionView::MarkInProgress,
            ReplaceAction::Watch { rest } => ReplaceActionView::Watch { rest },
            ReplaceAction::Reconcile { binaries, protected } => ReplaceActionView::Reconcile {
                binaries: reconcile::texts_of(binaries),
                protected: protected@,
            },
            ReplaceAction::MarkFinalizing => ReplaceActionView::MarkFinalizing,
            ReplaceAction::Done(report) => ReplaceActionView::Done(report@),
            ReplaceAction::Fail(error) => ReplaceActionView::Fail(error@),
        }
    }
}

// ── Steps ──────────────────────────────────────────────────────────────────

/// A replacement before it begins.
pub open spec fn replace_start(
    session: SessionView,
    settings: ConfigView,
    safety: Option<Seq<SessionClientView>>,
    options: ReplaceOptions,
) -> ReplaceView {
    ReplaceView {
        session,
        settings,
        safety,
        options,
        binaries: None,
        stage: ReplaceStageView::Start,
    }
}

/// An event is what a replacement waits for.
pub open spec fn fits(stage: ReplaceStageView, event: ReplaceEventView) -> bool {
    match stage {
        ReplaceStageView::Start => event is Begin,
        ReplaceStageView::Validating => event is Found,
        ReplaceStageView::Previewing => event is Reconciled || event is PassFailed,
        ReplaceStageView::Listing => event is Listed || event is CompositorFailed,
        ReplaceStageView::Rechecking(_) => event is Rechecked || event is CompositorFailed,
        ReplaceStageView::Closing(_) => event is Closed || event is RecordFailed
            || event is CompositorFailed,
        ReplaceStageView::Marking(_) => event is Recorded || event is RecordFailed,
        ReplaceStageView::Watching(_) => event is CompositorFailed || (event matches
            ReplaceEventView::Seen { clients, processes, elapsed } && processes.len()
            == clients.len()),
        ReplaceStageView::Protecting(_) => event is Listed || event is CompositorFailed,
        ReplaceStageView::Reconciling => event is Reconciled || event is PassFailed,
        ReplaceStageView::Finalizing(_) => event is Recorded || event is RecordFailed,
        ReplaceStageView::Over => false,
    }
}

/// The replacement goes on in a stage.
pub open spec fn goes(
    state: ReplaceView,
    stage: ReplaceStageView,
    action: ReplaceActionView,
) -> (ReplaceView, ReplaceActionView) {
    (ReplaceView { stage, ..state }, action)
}

/// The replacement ends with an error.
pub open spec fn ends(state: ReplaceView, error: RestoreErrorView) -> (
    ReplaceView,
    ReplaceActionView,
) {
    goes(state, ReplaceStageView::Over, ReplaceActionView::Fail(error))
}

/// What comes once the targets are checked, or need not be.
pub open spec fn after_check(state: ReplaceView) -> (ReplaceView, ReplaceActionView) {
    if state.options.dry_run {
        goes(state, ReplaceStageView::Previewing, ReplaceActionView::Preview)
    } else {
        goes(state, ReplaceStageView::Listing, ReplaceActionView::List)
    }
}

/// The next window that is looked at, or that none is left.
pub open spec fn next_turn(closing: ReplacementView) -> (ReplacementView, CloseActionView)
    decreases closing.queue.len() - closing.index,
{
    let (after, action) = replace::step_on(closing);
    if closing.index < closing.queue.len() && action is Continue {
        next_turn(after)
    } else {
        (after, action)
    }
}

/// The next window is looked at, or the closed windows are waited for.
pub open spec fn turns(state: ReplaceView, closing: ReplacementView) -> (
    ReplaceView,
    ReplaceActionView,
) {
    let (after, action) = next_turn(closing);
    match action {
        CloseActionView::Recheck { address, pid } => goes(
            state,
            ReplaceStageView::Rechecking(after),
            ReplaceActionView::Recheck { address, pid },
        ),
        CloseActionView::MarkInProgress => goes(
            state,
            ReplaceStageView::Marking(after),
            ReplaceActionView::MarkInProgress,
        ),
        _ => goes(
            state,
            ReplaceStageView::Watching(after),
            ReplaceActionView::Watch { rest: false },
        ),
    }
}

/// The failure of a replacement that is to be recorded without a snapshot.
pub open spec fn no_snapshot() -> RestoreErrorView {
    RestoreErrorView::UnsafeRecoverySnapshot {
        reason: "marker-backed replacement requires a persisted safety snapshot"@,
    }
}

/// A step of a replacement.  Nothing is said of an event that does not fit.
pub open spec fn step(state: ReplaceView, event: ReplaceEventView) -> (
    ReplaceView,
    ReplaceActionView,
) {
    match (state.stage, event) {
        (ReplaceStageView::Start, ReplaceEventView::Begin) => if state.options.marked
            && !state.options.dry_run && state.safety is None {
            ends(state, no_snapshot())
        } else if state.options.validate_targets {
            goes(state, ReplaceStageView::Validating, ReplaceActionView::Validate)
        } else {
            after_check(state)
        },
        (
            ReplaceStageView::Validating,
            ReplaceEventView::Found { entries, binaries },
        ) => match targets::replacement_check(state.session, state.settings, entries, binaries) {
            Ok(paths) => after_check(ReplaceView { binaries: Some(paths), ..state }),
            Err(error) => ends(state, error),
        },
        (ReplaceStageView::Previewing, ReplaceEventView::Reconciled(report)) => goes(
            state,
            ReplaceStageView::Over,
            ReplaceActionView::Done(report),
        ),
        (ReplaceStageView::Listing, ReplaceEventView::Listed(clients)) => turns(
            state,
            replace::replacement_start(clients, state.safety, state.options.marked),
        ),
        (
            ReplaceStageView::Rechecking(closing),
            ReplaceEventView::Rechecked { start_time, clients, process },
        ) => match replace::step_rechecked(closing, start_time, clients, process) {
            Ok((after, CloseActionView::Close { command, mark })) => goes(
                state,
                ReplaceStageView::Closing(after),
                ReplaceActionView::Close { command, mark },
            ),
            Ok((after, _)) => turns(state, after),
            Err(error) => ends(state, error),
        },
        (ReplaceStageView::Closing(closing), ReplaceEventView::Closed) => {
            let (after, action) = replace::step_closed(closing);
            if action is MarkInProgress {
                goes(state, ReplaceStageView::Marking(after), ReplaceActionView::MarkInProgress)
            } else {
                turns(state, after)
            }
        },
        (ReplaceStageView::Marking(closing), ReplaceEventView::Recorded) => if closing.index
            >= closing.queue.len() {
            goes(
                state,
                ReplaceStageView::Watching(closing),
                ReplaceActionView::Watch { rest: false },
            )
        } else {
            turns(state, closing)
        },
        (
            ReplaceStageView::Watching(closing),
            ReplaceEventView::Seen { clients, processes, elapsed },
        ) => match replace::wait_after(
            replace::some_remain(closing.pending, clients, processes),
            elapsed,
            launched::timeout_of(state.settings),
        ) {
            WaitStep::Done => goes(
                state,
                ReplaceStageView::Protecting(closing),
                ReplaceActionView::List,
            ),
            WaitStep::GoOn => goes(state, state.stage, ReplaceActionView::Watch { rest: true }),
            WaitStep::TimedOut => ends(state, RestoreErrorView::ReplaceTimeout),
        },
        (ReplaceStageView::Protecting(closing), ReplaceEventView::Listed(clients)) => goes(
            state,
            ReplaceStageView::Reconciling,
            ReplaceActionView::Reconcile {
                binaries: state.binaries,
                protected: replace::protected_after(closing, clients),
            },
        ),
        (ReplaceStageView::Reconciling, ReplaceEventView::Reconciled(report)) => if
            state.options.marked && replace::is_clean(report) {
            goes(state, ReplaceStageView::Finalizing(report), ReplaceActionView::MarkFinalizing)
        } else {
            goes(state, ReplaceStageView::Over, ReplaceActionView::Done(report))
        },
        (ReplaceStageView::Finalizing(report), ReplaceEventView::Recorded) => goes(
            state,
            ReplaceStageView::Over,
            ReplaceActionView::Done(report),
        ),
        (ReplaceStageView::Finalizing(_), ReplaceEventView::RecordFailed(reason)) => ends(
            state,
            RestoreErrorView::TransactionAfterRestore(reason),
        ),
        (_, ReplaceEventView::RecordFailed(reason)) => ends(
            state,
            RestoreErrorView::Transaction(reason),
        ),
        (_, ReplaceEventView::CompositorFailed(error)) => ends(
            state,
            RestoreErrorView::Hyprctl(error),
        ),
        (_, ReplaceEventView::PassFailed(error)) => ends(state, error),
        _ => arbitrary(),
    }
}

/// A state that comes of the steps: the targets are checked before windows are
/// read, and a window is at hand where one is asked for.
pub open spec fn is_orderly(state: ReplaceView) -> bool {
    &&& state.options.validate_targets && !(state.stage is Start || state.stage is Validating
        || state.stage is Over) ==> state.binaries is Some
    &&& match state.stage {
        ReplaceStageView::Rechecking(closing) => 0 <= closing.index < closing.queue.len(),
        ReplaceStageView::Closing(closing) => 0 <= closing.index < closing.queue.len(),
        ReplaceStageView::Marking(closing) => 0 <= closing.index <= closing.queue.len(),
        ReplaceStageView::Watching(closing) => 0 <= closing.index <= closing.queue.len(),
        ReplaceStageView::Protecting(closing) => 0 <= closing.index <= closing.queue.len(),
        _ => true,
    }
}

fn take_turns(first: Replacement) -> (r: (Replacement, CloseAction))
    requires
        0 <= first@.index <= first@.queue.len(),
    ensures
        (r.0@, r.1@) == next_turn(first@),
        0 <= r.0@.index <= r.0@.queue.len(),
        r.1@ is Recheck ==> r.0@.index < r.0@.queue.len(),
{
    let ghost start = first@;
    let mut closing = first;
    loop
        invariant
            start == first@,
            0 <= closing@.index <= closing@.queue.len(),
            next_turn(start) == next_turn(closing@),
        decreases closing@.queue.len() - closing@.index,
    {
        let ghost before = closing@;
        let action = closing.next();
        match action {
            CloseAction::Continue => {
                assert(before.index < before.queue.len());
            },
            action => {
                return (closing, action);
            },
        }
    }
}

impl<'a> ReplaceState<'a> {
    /// A replacement before it begins.
    pub fn new(
        session: &'a Session,
        config: &'a Config,
        safety: Option<&'a Session>,
        options: ReplaceOptions,
    ) -> (r: Self)
        ensures
            r@ == replace_start(session@, config@, windows_of(safety), options),
            is_orderly(r@),
    {
        ReplaceState {
            session,
            config,
            safety,
            options,
            binaries: None,
            stage: ReplaceStage::Start,
        }
    }

    fn at(self, stage: ReplaceStage) -> (r: Self)
        ensures
            r@ == (ReplaceView { stage: stage@, ..self@ }),
    {
        ReplaceState { stage, ..self }
    }

    fn fail(self, error: RestoreError) -> (r: (Self, ReplaceAction))
        ensures
            (r.0@, r.1@) == ends(self@, error@),
    {
        (self.at(ReplaceStage::Over), ReplaceAction::Fail(error))
    }

    fn pass_check(self) -> (r: (Self, ReplaceAction))
        ensures
            (r.0@, r.1@) == after_check(self@),
    {
        if self.options.dry_run {
            (self.at(ReplaceStage::Previewing), ReplaceAction::Preview)
        } else {
            (self.at(ReplaceStage::Listing), ReplaceAction::List)
        }
    }

    fn turn(self, closing: Replacement) -> (r: (Self, ReplaceAction))
        requires
            0 <= closing@.index <= closing@.queue.len(),
            self@.options.validate_targets ==> self@.binaries is Some,
        ensures
            (r.0@, r.1@) == turns(self@, closing@),
            is_orderly(r.0@),
            !(r.1 is Close),
    {
        let (closing, action) = take_turns(closing);
        match action {
            CloseAction::Recheck { address, pid } => (
                self.at(ReplaceStage::Rechecking(closing)),
                ReplaceAction::Recheck { address, pid },
            ),
            CloseAction::MarkInProgress => (
                self.at(ReplaceStage::Marking(closing)),
                ReplaceAction::MarkInProgress,
            ),
            _ => (self.at(ReplaceStage::Watching(closing)), ReplaceAction::Watch { rest: false }),
        }
    }

    fn begin(self) -> (r: (Self, ReplaceAction))
        requires
            self@.stage is Start,
        ensures
            (r.0@, r.1@) == step(self@, ReplaceEventView::Begin),
            is_orderly(r.0@),
    {
        if self.options.marked && !self.options.dry_run && self.safety.is_none() {
            return self.fail(
                RestoreError::UnsafeRecoverySnapshot {
                    reason:
                        "marker-backed replacement requires a persisted safety snapshot".to_owned(),
                },
            );
        }
        if self.options.validate_targets {
            return (self.at(ReplaceStage::Validating), ReplaceAction::Validate);
        }
        self.pass_check()
    }

    fn validate(self, entries: Vec<String>, binaries: Table<String>) -> (r: (Self, ReplaceAction))
        requires
            self@.stage is Validating,
        ensures
            (r.0@, r.1@) == step(
                self@,
                ReplaceEventView::Found { entries: entries.deep_view(), binaries: binaries@ },
            ),
            is_orderly(r.0@),
    {
        match targets::validate_replacement_targets(
            self.session,
            self.config,
            entries.as_slice(),
            &binaries,
        ) {
            Ok(paths) => {
                let checked = ReplaceState { binaries: Some(paths), ..self };
                checked.pass_check()
            },
            Err(error) => self.fail(error),
        }
    }

    fn list(self, clients: Vec<HyprClient>) -> (r: (Self, ReplaceAction))
        requires
            self@.options.validate_targets ==> self@.binaries is Some,
        ensures
            (r.0@, r.1@) == turns(
                self@,
                replace::replacement_start(
                    clients.deep_view(),
                    self@.safety,
                    self@.options.marked,
                ),
            ),
            is_orderly(r.0@),
            !(r.1 is Close),
    {
        let closing = match self.safety {
            Some(snapshot) => Replacement::begin(
                clients.as_slice(),
                Some(snapshot.clients.as_slice()),
                self.options.marked,
            ),
            None => Replacement::begin(clients.as_slice(), None, self.options.marked),
        };
        self.turn(closing)
    }

    fn finish(self, report: ReconcileReport) -> (r: (Self, ReplaceAction))
        requires
            self@.stage is Over,
            self@.options.validate_targets ==> self@.binaries is Some,
        ensures
            (r.0@, r.1@) == step(
                ReplaceView { stage: ReplaceStageView::Reconciling, ..self@ },
                ReplaceEventView::Reconciled(report@),
            ),
            is_orderly(r.0@),
            !(r.1 is Close),
    {
        if self.options.marked && replace::report_is_clean(&report) {
            (self.at(ReplaceStage::Finalizing(report)), ReplaceAction::MarkFinalizing)
        } else {
            (self, ReplaceAction::Done(report))
        }
    }
}

/// A step of a replacement: takes what was asked for, and asks for the next
/// thing.  Where the targets are to be checked, the first thing that is asked
/// for is what that needs, and a window is closed only once they passed.
pub fn replace_step<'a>(state: ReplaceState<'a>, event: ReplaceEvent) -> (r: (
    ReplaceState<'a>,
    ReplaceAction,
))
    requires
        is_orderly(state@),
        fits(state@.stage, event@),
    ensures
        (r.0@, r.1@) == step(state@, event@),
        is_orderly(r.0@),
        r.1 is Close && state@.options.validate_targets ==> state@.binaries is Some,
{
    let ghost before = state@;
    let ghost told = event@;
    let limit = launched::detect_timeout(state.config);
    let ReplaceState { session, config, safety, options, binaries, stage } = state;
    let base = ReplaceState {
        session,
        config,
        safety,
        options,
        binaries,
        stage: ReplaceStage::Over,
    };
    assert(base@ == (ReplaceView { stage: ReplaceStageView::Over, ..before }));
    match (stage, event) {
        (ReplaceStage::Start, ReplaceEvent::Begin) => base.at(ReplaceStage::Start).begin(),
        (ReplaceStage::Validating, ReplaceEvent::Found { entries, binaries }) => base.at(
            ReplaceStage::Validating,
        ).validate(entries, binaries),
        (ReplaceStage::Previewing, ReplaceEvent::Reconciled(report)) => (
            base,
            ReplaceAction::Done(report),
        ),
        (ReplaceStage::Listing, ReplaceEvent::Listed(clients)) => base.at(
            ReplaceStage::Listing,
        ).list(clients),
        (
            ReplaceStage::Rechecking(closing),
            ReplaceEvent::Rechecked { start_time, clients, process },
        ) => {
            let mut closing = closing;
            match closing.rechecked(start_time, clients.as_slice(), process) {
                Ok(CloseAction::Close { command, mark }) => (
                    base.at(ReplaceStage::Closing(closing)),
                    ReplaceAction::Close { command, mark },
                ),
                Ok(_) => base.turn(closing),
                Err(error) => base.fail(error),
            }
        },
        (ReplaceStage::Closing(closing), ReplaceEvent::Closed) => {
            let mut closing = closing;
            match closing.closed() {
                CloseAction::MarkInProgress => (
                    base.at(ReplaceStage::Marking(closing)),
                    ReplaceAction::MarkInProgress,
                ),
                _ => base.turn(closing),
            }
        },
        (ReplaceStage::Marking(closing), ReplaceEvent::Recorded) => {
            if closing.is_done() {
                (base.at(ReplaceStage::Watching(closing)), ReplaceAction::Watch { rest: false })
            } else {
                base.turn(closing)
            }
        },
        (ReplaceStage::Watching(closing), ReplaceEvent::Seen { clients, processes, elapsed }) => {
            let remain = closing.still_closing(clients.as_slice(), processes.as_slice());
            match replace::wait_step(remain, elapsed, limit) {
                WaitStep::Done => (
                    base.at(ReplaceStage::Protecting(closing)),
                    ReplaceAction::List,
                ),
                WaitStep::GoOn => (
                    base.at(ReplaceStage::Watching(closing)),
                    ReplaceAction::Watch { rest: true },
                ),
                WaitStep::TimedOut => base.fail(RestoreError::ReplaceTimeout),
            }
        },
        (ReplaceStage::Protecting(closing), ReplaceEvent::Listed(clients)) => {
            let protected = closing.protect_newcomers(clients.as_slice());
            let found = match &base.binaries {
                Some(paths) => Some(text::copy_texts(paths.as_slice())),
                None => None,
            };
            (
                base.at(ReplaceStage::Reconciling),
                ReplaceAction::Reconcile { binaries: found, protected },
            )
        },
        (ReplaceStage::Reconciling, ReplaceEvent::Reconciled(report)) => base.finish(report),
        (ReplaceStage::Finalizing(report), ReplaceEvent::Recorded) => (
            base,
            ReplaceAction::Done(report),
        ),
        (ReplaceStage::Finalizing(_), ReplaceEvent::RecordFailed(reason)) => base.fail(
            RestoreError::TransactionAfterRestore(reason),
        ),
        (_, ReplaceEvent::RecordFailed(reason)) => base.fail(RestoreError::Transaction(reason)),
        (_, ReplaceEvent::CompositorFailed(error)) => base.fail(RestoreError::Hyprctl(error)),
        (_, ReplaceEvent::PassFailed(error)) => base.fail(error),
        _ => {
            assert(false);
            (base, ReplaceAction::Validate)
        },
    }
}

} // verus!
