//! What holds of every restored session.

use crate::restore::existing;
use crate::restore::identity::ObservedClientView;
use crate::restore::launch;
use crate::restore::restoring;
use crate::restore::restoring::{RestoreItemView, RestoringView};
use crate::restore::windows;
use vstd::prelude::*;

verus! {

/// A dry run sends nothing and launches nothing, whatever is seen and found.
pub proof fn law_dry_restores_touch_nothing(
    state: RestoringView,
    current: Seq<ObservedClientView>,
    found: Option<Seq<char>>,
)
    requires
        restoring::is_orderly(state),
        state.dry_run,
    ensures
        !(restoring::step_on(state).1 is Repair) && !(restoring::step_on(state).1 is Launch),
        restoring::asks_for_window(state) && restoring::step_observed(state, current) is Ok ==> {
            let asked = (restoring::step_observed(state, current)->Ok_0).1;
            asked is Continue || asked is Resolve
        },
        restoring::asks_for_window(state) ==> restoring::after_resolve(state, found).1 is Continue,
{
}

/// An application is launched only where no open window may be taken, nothing
/// stands in the way, and its command is trusted.
pub proof fn law_restored_launches_are_trusted(
    state: RestoringView,
    current: Seq<ObservedClientView>,
)
    requires
        restoring::is_orderly(state),
        restoring::asks_for_window(state),
        restoring::step_observed(state, current) is Ok,
        (restoring::step_observed(state, current)->Ok_0).1 is Launch || (restoring::step_observed(
            state,
            current,
        )->Ok_0).1 is Resolve,
    ensures
        match state.items[state.index] {
            RestoreItemView::Window { target, placed, name, by_profile, available } => {
                &&& existing::existing_match(
                    target,
                    current,
                    state.consumed,
                    Set::empty(),
                    state.settings,
                    true,
                ) is None
                &&& launch::is_trusted(placed, state.settings)
            },
            _ => false,
        },
{
}

/// A window that was given to one saved window is not given to another: it is
/// not taken before, and is taken after.
pub proof fn law_restored_windows_are_given_once(
    state: RestoringView,
    current: Seq<ObservedClientView>,
)
    requires
        restoring::is_orderly(state),
        restoring::asks_for_window(state),
        restoring::step_observed(state, current) is Ok,
        (restoring::step_observed(state, current)->Ok_0).1 is Repair,
    ensures
        ({
            let after = (restoring::step_observed(state, current)->Ok_0).0;
            &&& after.pending is Some
            &&& !windows::is_taken(state.consumed, after.pending->0)
            &&& windows::is_taken(after.consumed, after.pending->0)
        }),
{
    match state.items[state.index] {
        RestoreItemView::Window { target, placed, name, by_profile, available } => {
            existing::law_existing_match_is_best(
                target,
                current,
                state.consumed,
                Set::empty(),
                state.settings,
                true,
                current.len() as int,
            );
            let window = ((restoring::step_observed(state, current)->Ok_0).0).pending->0;
            windows::law_window_is_consumed_once(state.consumed, window, window);
        },
        _ => {},
    }
}

/// Whatever comes of a step, every item that is done counts exactly once: as
/// restored, skipped, or failed.
pub proof fn law_every_item_counts_once(
    state: RestoringView,
    current: Seq<ObservedClientView>,
    window: ObservedClientView,
    text: Seq<char>,
)
    requires
        restoring::is_orderly(state),
    ensures
        state.pending is None ==> restoring::is_orderly(restoring::step_on(state).0),
        restoring::asks_for_window(state) ==> {
            &&& state.pending is None && restoring::step_observed(state, current) is Ok
                ==> restoring::is_orderly((restoring::step_observed(state, current)->Ok_0).0)
            &&& restoring::is_orderly(restoring::step_repaired(state, None))
            &&& restoring::is_orderly(restoring::step_repaired(state, Some(text)))
            &&& restoring::is_orderly(restoring::after_resolve(state, None).0)
            &&& restoring::is_orderly(restoring::after_resolve(state, Some(text)).0)
            &&& restoring::is_orderly(restoring::step_launched(state, window))
            &&& restoring::is_orderly(restoring::step_launch_failed(state, text))
        },
{
}

} // verus!
