//! What holds of every reconciliation pass.

use crate::laws::dispatch;
use crate::placement::ReconcileGeometryView;
use crate::restore::existing;
use crate::restore::identity::{MatchPolicy, ObservedClientView};
use crate::restore::launch;
use crate::restore::reconcile;
use crate::restore::reconcile::PassView;
use crate::restore::windows;
use vstd::prelude::*;

verus! {

/// The window that is planned for a target stands where it is found.
proof fn lemma_planned_from(
    pass: PassView,
    planned: ObservedClientView,
    left_alone: Set<Seq<char>>,
    i: int,
)
    requires
        0 <= i <= pass.latest.len(),
    ensures
        match reconcile::planned_from(pass, planned, left_alone, i) {
            Some(k) => {
                &&& i <= k < pass.latest.len()
                &&& windows::is_same_taken(planned, pass.latest[k])
                &&& !windows::is_taken(pass.used, pass.latest[k])
                &&& !left_alone.contains(pass.latest[k].client.address)
                &&& reconcile::allowed_kind(
                    pass.targets[pass.index].client,
                    pass.latest[k],
                    pass.options.allow_ambiguous_identity,
                ) is Some
            },
            None => true,
        },
    decreases pass.latest.len() - i,
{
    if i < pass.latest.len() {
        lemma_planned_from(pass, planned, left_alone, i + 1);
    }
}

/// A target is given only a window that may be matched with it.  The window
/// stands at no protected address, at none where a launch that failed left a
/// window, and at none that is kept for a later target.
pub proof fn law_protected_windows_are_left_alone(pass: PassView)
    requires
        reconcile::is_orderly(pass),
        pass.index < pass.targets.len(),
        reconcile::chosen_place(pass) is Some,
    ensures
        ({
            let i = reconcile::chosen_place(pass)->0;
            let address = pass.latest[i].client.address;
            &&& 0 <= i < pass.latest.len()
            &&& !pass.protected.contains(address)
            &&& !pass.strays.contains(address)
            &&& !existing::is_reserved(
                pass.index,
                pass.plan,
                pass.planned,
                pass.latest,
                reconcile::clients_of(pass.targets),
                address,
            )
            &&& windows::allowed_value(
                pass.targets[pass.index].client,
                pass.latest[i],
                pass.options.allow_ambiguous_identity,
                MatchPolicy::Normal,
            ) is Some
        }),
{
    let left_alone = reconcile::excluded(pass);
    match pass.plan[pass.index] {
        Some(pair) => {
            let c = pair.current_index as int;
            if c < pass.planned.len() && !pass.options.dry_run {
                lemma_planned_from(pass, pass.planned[c], left_alone, 0);
            }
        },
        None => {},
    }
    existing::law_existing_match_is_best(
        pass.targets[pass.index].client,
        pass.latest,
        pass.used,
        left_alone,
        pass.settings,
        pass.options.allow_ambiguous_identity,
        pass.latest.len() as int,
    );
    let address = pass.latest[reconcile::chosen_place(pass)->0].client.address;
    assert(!left_alone.contains(address));
    assert(existing::reserved_addresses(
        pass.index,
        pass.plan,
        pass.planned,
        pass.latest,
        reconcile::clients_of(pass.targets),
    ).contains(address) == existing::is_reserved(
        pass.index,
        pass.plan,
        pass.planned,
        pass.latest,
        reconcile::clients_of(pass.targets),
        address,
    ));
}

/// No window is given to two targets: one that is given is not taken before,
/// and is taken after.
pub proof fn law_windows_are_given_once(pass: PassView)
    requires
        reconcile::is_orderly(pass),
        pass.index < pass.targets.len(),
        reconcile::chosen_place(pass) is Some,
    ensures
        ({
            let window = pass.latest[reconcile::chosen_place(pass)->0];
            &&& !windows::is_taken(pass.used, window)
            &&& windows::is_taken(reconcile::takes_window(pass, window).0.used, window)
        }),
{
    let window = pass.latest[reconcile::chosen_place(pass)->0];
    windows::law_window_is_consumed_once(pass.used, window, window);
    let left_alone = reconcile::excluded(pass);
    match pass.plan[pass.index] {
        Some(pair) => {
            let c = pair.current_index as int;
            if c < pass.planned.len() {
                lemma_planned_from(pass, pass.planned[c], left_alone, 0);
            }
        },
        None => {},
    }
    existing::law_existing_match_is_best(
        pass.targets[pass.index].client,
        pass.latest,
        pass.used,
        left_alone,
        pass.settings,
        pass.options.allow_ambiguous_identity,
        pass.latest.len() as int,
    );
}

/// A pass asks for a launch only where no window may be given to the target,
/// nothing stands in the way, and the launch command is trusted.
pub proof fn law_launches_are_trusted(pass: PassView)
    requires
        reconcile::is_orderly(pass),
        pass.index < pass.targets.len(),
        reconcile::considers(pass) is Ok,
        (reconcile::considers(pass)->Ok_0).1 is Launch || (reconcile::considers(
            pass,
        )->Ok_0).1 is Resolve,
    ensures
        reconcile::chosen_place(pass) is None,
        reconcile::obstacle(pass) is None,
        launch::is_trusted(pass.targets[pass.index].client, pass.settings),
{
}

/// A window that is in place is left alone: it counts as unchanged, and
/// nothing is asked for.  So once every window is in place, another pass
/// sends nothing.
pub proof fn law_windows_in_place_are_left_alone(pass: PassView, window: ObservedClientView)
    requires
        reconcile::is_orderly(pass),
        pass.index < pass.targets.len(),
        dispatch::is_in_place(
            pass.targets[pass.index].client,
            window.client,
            window.monitor_name,
            ReconcileGeometryView {
                desired_at: pass.targets[pass.index].client.at,
                desired_size: pass.targets[pass.index].client.size,
                target_monitor_available: pass.available[pass.index],
            },
        ),
    ensures
        reconcile::takes_window(pass, window).1 is Continue,
        reconcile::takes_window(pass, window).0.report.unchanged == pass.report.unchanged + 1,
        reconcile::takes_window(pass, window).0.report.moved == pass.report.moved,
        reconcile::takes_window(pass, window).0.report.launched == pass.report.launched,
{
    dispatch::law_window_in_place_is_left_alone(
        pass.targets[pass.index].client,
        window.client,
        window.monitor_name,
        ReconcileGeometryView {
            desired_at: pass.targets[pass.index].client.at,
            desired_size: pass.targets[pass.index].client.size,
            target_monitor_available: pass.available[pass.index],
        },
    );
}

/// A dry run reads no windows, sends nothing, and launches nothing.
pub proof fn law_dry_runs_touch_nothing(pass: PassView, found: Option<Seq<char>>)
    requires
        reconcile::is_orderly(pass),
        pass.options.dry_run,
    ensures
        reconcile::step_on(pass) is Ok ==> {
            let asked = (reconcile::step_on(pass)->Ok_0).1;
            asked is Continue || asked is Resolve || asked is Finish
        },
        pass.index < pass.targets.len() ==> reconcile::after_resolve(pass, found).1 is Continue,
{
}

/// Whatever comes of a step, every target that is done counts exactly once:
/// as unchanged, moved, launched, skipped, or failed.
pub proof fn law_every_target_counts_once(
    pass: PassView,
    current: Seq<ObservedClientView>,
    window: ObservedClientView,
    text: Seq<char>,
)
    requires
        reconcile::is_orderly(pass),
    ensures
        pass.pending is None && reconcile::step_on(pass) is Ok ==> reconcile::is_orderly(
            (reconcile::step_on(pass)->Ok_0).0,
        ),
        pass.pending is None && !pass.options.dry_run && reconcile::step_observed(
            pass,
            current,
        ) is Ok ==> reconcile::is_orderly((reconcile::step_observed(pass, current)->Ok_0).0),
        pass.pending is Some ==> reconcile::is_orderly(reconcile::step_repaired(pass, None))
            && reconcile::is_orderly(reconcile::step_repaired(pass, Some(text))),
        pass.pending is None && pass.index < pass.targets.len() ==> {
            &&& reconcile::is_orderly(reconcile::after_resolve(pass, None).0)
            &&& reconcile::is_orderly(reconcile::after_resolve(pass, Some(text)).0)
            &&& reconcile::is_orderly(reconcile::step_launched(pass, window))
            &&& !pass.options.dry_run ==> reconcile::is_orderly(
                reconcile::step_launch_failed(pass, text, Some(current)),
            ) && reconcile::is_orderly(reconcile::step_launch_failed(pass, text, None))
        },
{
}

/// A launch that fails protects the windows that came up meanwhile: whatever
/// stands at a new address is left alone by the targets that follow.
pub proof fn law_failed_launches_protect_new_windows(
    pass: PassView,
    reason: Seq<char>,
    current: Seq<ObservedClientView>,
    k: int,
)
    requires
        0 <= k < current.len(),
        !windows::is_one_of(pass.latest, current[k]),
    ensures
        reconcile::step_launch_failed(pass, reason, Some(current)).strays.contains(
            current[k].client.address,
        ),
{
    let baselines = pass.baselines.push(pass.latest);
    assert(baselines.last() == pass.latest);
    assert(existing::new_addresses(pass.latest, current).contains(current[k].client.address));
    assert(reconcile::strays_among(baselines, current).contains(current[k].client.address));
}

} // verus!
