//! The order in which a desktop is replaced.

use crate::config::ConfigView;
use crate::hyprctl::HyprClientView;
use crate::lists;
use crate::restore::launched;
use crate::restore::observe::ProcessState;
use crate::restore::replace;
use crate::restore::replace::ReplacementView;
use crate::restore::replacing;
use crate::restore::replacing::{
    ReplaceActionView, ReplaceEventView, ReplaceOptions, ReplaceStageView, ReplaceView,
};
use crate::restore::report::{CompositorErrorView, ReconcileReportView, RestoreErrorView};
use crate::restore::targets;
use crate::session::{SessionClientView, SessionView};
use vstd::prelude::*;

verus! {

/// The state of a replacement after some events.
pub open spec fn state_after(start: ReplaceView, events: Seq<ReplaceEventView>) -> ReplaceView
    decreases events.len(),
{
    if events.len() == 0 {
        start
    } else {
        replacing::step(state_after(start, events.drop_last()), events.last()).0
    }
}

/// What a replacement asks for after an event.
pub open spec fn action_at(
    start: ReplaceView,
    events: Seq<ReplaceEventView>,
    k: int,
) -> ReplaceActionView {
    replacing::step(state_after(start, events.take(k)), events[k]).1
}

/// Every event is one that the replacement waited for.
pub open spec fn is_run(start: ReplaceView, events: Seq<ReplaceEventView>) -> bool {
    forall|k: int|
        0 <= k < events.len() ==> replacing::fits(
            #[trigger] state_after(start, events.take(k)).stage,
            events[k],
        )
}

/// What the check of the targets comes to, after what was found.
pub open spec fn check_of(start: ReplaceView, found: ReplaceEventView) -> Result<
    Seq<Seq<char>>,
    RestoreErrorView,
> {
    targets::replacement_check(start.session, start.settings, found->entries, found->binaries)
}

proof fn lemma_goes_on(start: ReplaceView, events: Seq<ReplaceEventView>, k: int)
    requires
        0 <= k < events.len(),
    ensures
        state_after(start, events.take(k + 1)) == replacing::step(
            state_after(start, events.take(k)),
            events[k],
        ).0,
{
    assert(events.take(k + 1).drop_last() =~= events.take(k));
    assert(events.take(k + 1).last() == events[k]);
}

/// The targets are checked before any window is closed.  Whatever the
/// replacement is told, the first thing that it asks for is what the check
/// needs, unless a safety snapshot is missing; a window is closed only after
/// the check passed; and a check that fails ends the replacement with its
/// error, when nothing was closed.
pub proof fn law_targets_are_checked_before_windows_close(
    session: SessionView,
    settings: ConfigView,
    safety: Option<Seq<SessionClientView>>,
    options: ReplaceOptions,
    events: Seq<ReplaceEventView>,
)
    requires
        options.validate_targets,
        is_run(replacing::replace_start(session, settings, safety, options), events),
    ensures
        ({
            let start = replacing::replace_start(session, settings, safety, options);
            let lacks_snapshot = options.marked && !options.dry_run && safety is None;
            &&& events.len() > 0 ==> action_at(start, events, 0) == if lacks_snapshot {
                ReplaceActionView::Fail(replacing::no_snapshot())
            } else {
                ReplaceActionView::Validate
            }
            &&& lacks_snapshot ==> events.len() <= 1
            &&& events.len() > 1 ==> events[1] is Found
            &&& events.len() > 1 && check_of(start, events[1]) is Err ==> {
                &&& events.len() == 2
                &&& action_at(start, events, 1) == ReplaceActionView::Fail(
                    check_of(start, events[1])->Err_0,
                )
            }
            &&& forall|k: int|
                0 <= k < events.len() && #[trigger] action_at(start, events, k) is Close ==> {
                    &&& k > 1
                    &&& events[1] is Found
                    &&& check_of(start, events[1]) is Ok
                }
        }),
{
    let start = replacing::replace_start(session, settings, safety, options);
    let n = events.len() as int;
    assert(events.take(0) =~= Seq::<ReplaceEventView>::empty());
    assert(state_after(start, events.take(0)) == start);
    if n > 0 {
        lemma_goes_on(start, events, 0);
        assert(events[0] is Begin);
    }
    if n > 1 {
        lemma_goes_on(start, events, 1);
        assert(replacing::fits(state_after(start, events.take(1)).stage, events[1]));
        assert(state_after(start, events.take(1)).stage is Validating);
    }
    if n > 2 {
        assert(replacing::fits(state_after(start, events.take(2)).stage, events[2]));
        assert(check_of(start, events[1]) is Ok);
    }
}

/// The session is restored only once the closed windows are gone: it is
/// reconciled only after the windows were read anew, and these only after none
/// of the closed ones was left.  Windows that do not go in time fail the
/// replacement.
pub proof fn law_old_windows_go_first(state: ReplaceView, event: ReplaceEventView)
    requires
        replacing::fits(state.stage, event),
    ensures
        replacing::step(state, event).1 is Reconcile ==> state.stage is Protecting,
        replacing::step(state, event).0.stage is Protecting ==> {
            &&& state.stage is Watching
            &&& event is Seen
            &&& !replace::some_remain(
                (state.stage->Watching_0).pending,
                event->Seen_clients,
                event->processes,
            )
        },
        state.stage is Watching && event is Seen && replace::some_remain(
            (state.stage->Watching_0).pending,
            event->Seen_clients,
            event->processes,
        ) && event->elapsed >= launched::timeout_of(state.settings) ==> replacing::step(
            state,
            event,
        ).1 == ReplaceActionView::Fail(RestoreErrorView::ReplaceTimeout),
{
}

/// A dry replacement checks and shows, and closes nothing: it asks neither for
/// the windows nor for anything to be closed or recorded.
pub proof fn law_dry_replacements_touch_nothing(state: ReplaceView, event: ReplaceEventView)
    requires
        state.options.dry_run,
        state.stage is Start || state.stage is Validating || state.stage is Previewing,
        replacing::fits(state.stage, event),
    ensures
        ({
            let (after, action) = replacing::step(state, event);
            &&& after.stage is Validating || after.stage is Previewing || after.stage is Over
            &&& after.options == state.options
            &&& action is Validate || action is Preview || action is Done || action is Fail
            &&& state.stage is Start && !state.options.validate_targets ==> action is Preview
            &&& state.stage is Previewing && event is Reconciled ==> action
                == ReplaceActionView::Done(event->Reconciled_0)
        }),
{
}

/// A replacement that is not dry reads the windows once it is checked, looks
/// again at the first of them, and goes on with the next when one was closed.
pub proof fn law_replacements_look_at_each_window(
    state: ReplaceView,
    clients: Seq<HyprClientView>,
    closing: ReplacementView,
)
    requires
        !state.options.dry_run,
        state.safety is None,
    ensures
        state.stage is Listing && clients.len() > 0 && clients[0].address.len() > 0 ==> ({
            let (after, action) = replacing::step(state, ReplaceEventView::Listed(clients));
            &&& action == ReplaceActionView::Recheck {
                address: clients[0].address,
                pid: clients[0].pid,
            }
            &&& after.stage is Rechecking
        }),
        state.stage == ReplaceStageView::Closing(closing) && closing.safety is None
            && closing.started && 0 <= closing.index && closing.index + 1 < closing.queue.len()
            ==> replacing::step(state, ReplaceEventView::Closed).1 == (ReplaceActionView::Recheck {
            address: closing.queue[closing.index + 1].address,
            pid: closing.queue[closing.index + 1].pid,
        }),
        state.stage == ReplaceStageView::Closing(closing) && closing.safety is None
            && closing.started && 0 <= closing.index && closing.index + 1 == closing.queue.len()
            ==> replacing::step(state, ReplaceEventView::Closed).1 == (ReplaceActionView::Watch {
            rest: false,
        }),
        state.stage == ReplaceStageView::Closing(closing) && closing.marked && !closing.started
            ==> replacing::step(state, ReplaceEventView::Closed).1
            == ReplaceActionView::MarkInProgress,
{
    if clients.len() > 0 && clients[0].address.len() > 0 {
        let keep = |c: HyprClientView| c.address.len() > 0;
        lists::lemma_filter_front(clients, keep);
        assert(replace::addressed(clients)[0] == clients[0]);
    }
}

/// While closed windows are still there and time is left, they are waited for;
/// once they are gone the windows are read anew.
pub proof fn law_closed_windows_are_waited_for(
    state: ReplaceView,
    closing: ReplacementView,
    clients: Seq<HyprClientView>,
    processes: Seq<ProcessState>,
    elapsed: u64,
)
    requires
        state.stage == ReplaceStageView::Watching(closing),
    ensures
        ({
            let event = ReplaceEventView::Seen { clients, processes, elapsed };
            let (after, action) = replacing::step(state, event);
            let remain = replace::some_remain(closing.pending, clients, processes);
            &&& !remain ==> action is List
            &&& remain && elapsed < launched::timeout_of(state.settings) ==> action
                == ReplaceActionView::Watch { rest: true } && after == state
            &&& clients.len() == 0 ==> !remain
            &&& closing.pending.len() == 0 ==> !remain
        }),
{
}

/// The session is restored with the executables that the check found, and what
/// is protected is left alone.
pub proof fn law_replaced_session_is_restored(
    state: ReplaceView,
    closing: ReplacementView,
    clients: Seq<HyprClientView>,
)
    requires
        state.stage == ReplaceStageView::Protecting(closing),
    ensures
        ({
            let (after, action) = replacing::step(state, ReplaceEventView::Listed(clients));
            &&& action is Reconcile
            &&& action->Reconcile_binaries == state.binaries
            &&& after.stage is Reconciling
            &&& forall|a: Seq<char>| #[trigger]
                closing.protected.contains(a) ==> action->Reconcile_protected.contains(a)
        }),
{
}

/// A replacement whose progress is recorded is marked as done where nothing
/// failed and nothing was left out, and ends with its report; otherwise its
/// record stays.  A record that cannot be written then is told apart from one
/// that could not be written before.
pub proof fn law_clean_replacements_are_finished(
    state: ReplaceView,
    report: ReconcileReportView,
    reason: Seq<char>,
)
    ensures
        state.stage is Reconciling ==> ({
            let (after, action) = replacing::step(state, ReplaceEventView::Reconciled(report));
            let clean = report.failed == 0 && report.skipped == 0;
            &&& state.options.marked && clean ==> action is MarkFinalizing && after.stage
                == ReplaceStageView::Finalizing(report)
            &&& !(state.options.marked && clean) ==> action == ReplaceActionView::Done(report)
                && after.stage is Over
        }),
        state.stage == ReplaceStageView::Finalizing(report) ==> {
            &&& replacing::step(state, ReplaceEventView::Recorded).1 == ReplaceActionView::Done(
                report,
            )
            &&& replacing::step(state, ReplaceEventView::RecordFailed(reason)).1
                == ReplaceActionView::Fail(RestoreErrorView::TransactionAfterRestore(reason))
        },
        state.stage is Marking || state.stage is Closing ==> replacing::step(
            state,
            ReplaceEventView::RecordFailed(reason),
        ).1 == ReplaceActionView::Fail(RestoreErrorView::Transaction(reason)),
{
}

/// What the compositor or a pass reports as failed ends the replacement with
/// that error.
pub proof fn law_failures_end_the_replacement(
    state: ReplaceView,
    error: CompositorErrorView,
    problem: RestoreErrorView,
)
    requires
        state.stage is Listing || state.stage is Rechecking || state.stage is Closing
            || state.stage is Watching || state.stage is Protecting || state.stage is Reconciling
            || state.stage is Previewing,
    ensures
        replacing::step(state, ReplaceEventView::CompositorFailed(error)) == (
            ReplaceView { stage: ReplaceStageView::Over, ..state },
            ReplaceActionView::Fail(RestoreErrorView::Hyprctl(error)),
        ),
        replacing::step(state, ReplaceEventView::PassFailed(problem)) == (
            ReplaceView { stage: ReplaceStageView::Over, ..state },
            ReplaceActionView::Fail(problem),
        ),
{
}

} // verus!
