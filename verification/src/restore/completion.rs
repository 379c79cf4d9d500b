//! Telling whether an interrupted replacement was completed.

use crate::config::{Config, ConfigView};
use crate::hyprctl::{HyprClient, HyprClientView, HyprMonitor, HyprMonitorView, HyprctlClient,
    HyprctlError};
use crate::lists::TextSet;
use crate::matching::MatchingStrategy;
use crate::process::ProcessInfoProvider;
use crate::restore::identity;
use crate::restore::identity::{MatchPolicy, ObservedClient, ObservedClientView};
use crate::restore::observe;
use crate::restore::planning;
use crate::restore::planning::ReconcilePair;
use crate::restore::reconcile;
use crate::restore::report::{RestoreError, MAX_RECONCILIATION_WINDOWS};
use crate::restore::targets;
use crate::restore::windows;
use crate::session::{Session, SessionClient, SessionClientView, SessionView};
use vstd::prelude::*;

verus! {

/// The windows of an optional snapshot.
pub open spec fn snapshot_of(snapshot: Option<&Session>) -> Option<Seq<SessionClientView>> {
    match snapshot {
        Some(session) => Some(session@.clients),
        None => None,
    }
}

/// The snapshot does not tell where all its windows stood, so it cannot show
/// that they are gone.
pub open spec fn lacks_addresses(safety: Option<Seq<SessionClientView>>) -> bool {
    safety is Some && targets::lacking_address_from(safety->0, 0) is Some
}

/// A window stands at an address of the snapshot.
pub open spec fn stands_at_saved(
    safety: Seq<SessionClientView>,
    clients: Seq<HyprClientView>,
) -> bool {
    exists|c: int, s: int|
        0 <= c < clients.len() && 0 <= s < safety.len() && is_at(
            #[trigger] clients[c],
            #[trigger] safety[s],
        )
}

/// A window stands where a saved one stood.
pub open spec fn is_at(client: HyprClientView, saved: SessionClientView) -> bool {
    saved.address == Some(client.address) && client.address.len() > 0
}

/// The compositor is asked whether the old windows are gone.
pub open spec fn asks_for_old(safety: Option<Seq<SessionClientView>>) -> bool {
    safety is Some && safety->0.len() > 0 && !lacks_addresses(safety)
}

/// Some window of the session belongs to an ignored application.
pub open spec fn some_unwanted(clients: Seq<SessionClientView>, settings: ConfigView) -> bool {
    exists|i: int| 0 <= i < clients.len() && !windows::is_wanted(settings, #[trigger] clients[i])
}

/// The targets cannot be told from the session alone.
pub open spec fn is_undecidable(session: SessionView, settings: ConfigView) -> bool {
    some_unwanted(session.clients, settings) || targets::lacking_profile_from(
        session.clients,
        0,
    ) is Some
}

/// Some open window cannot be told from one of the snapshot.
pub open spec fn some_resemble(
    safety: Seq<SessionClientView>,
    observed: Seq<ObservedClientView>,
) -> bool {
    exists|c: int, s: int|
        0 <= c < observed.len() && 0 <= s < safety.len() && windows::resembles(
            #[trigger] safety[s],
            #[trigger] observed[c],
        )
}

/// Every target has a window.
pub open spec fn all_given(plan: Seq<Option<ReconcilePair>>) -> bool {
    forall|t: int| 0 <= t < plan.len() ==> (#[trigger] plan[t]) is Some
}

/// What the compositor and the processes answered, as far as they were asked.
#[verifier::ext_equal]
pub ghost struct DesktopView {
    /// The windows, when the old ones were looked for.
    pub old: Seq<HyprClientView>,
    /// The windows, when none were asked for.
    pub left: Seq<HyprClientView>,
    pub monitors: Seq<HyprMonitorView>,
    pub observed: Seq<ObservedClientView>,
    pub plan: Seq<Option<ReconcilePair>>,
}

/// The targets, placed on the monitors that exist.
pub open spec fn placed_targets(
    session: SessionView,
    settings: ConfigView,
    entries: Seq<Seq<char>>,
    monitors: Seq<HyprMonitorView>,
) -> Seq<SessionClientView> {
    reconcile::clients_of(
        reconcile::adapted_targets(
            targets::reconcile_targets(session, settings, entries),
            session.monitors,
            monitors,
        ),
    )
}

/// The replacement is complete: no window of the snapshot is left, and every
/// target surely has a window.
pub open spec fn is_completed(
    session: SessionView,
    safety: Option<Seq<SessionClientView>>,
    settings: ConfigView,
    entries: Seq<Seq<char>>,
    desktop: DesktopView,
) -> bool {
    let count = targets::reconcile_targets(session, settings, entries).len();
    &&& !lacks_addresses(safety)
    &&& !(asks_for_old(safety) && stands_at_saved(safety->0, desktop.old))
    &&& !is_undecidable(session, settings)
    &&& if count == 0 {
        desktop.left.len() == 0
    } else {
        &&& count <= MAX_RECONCILIATION_WINDOWS
        &&& desktop.observed.len() <= MAX_RECONCILIATION_WINDOWS
        &&& !(safety is Some && some_resemble(safety->0, desktop.observed))
        &&& all_given(desktop.plan)
    }
}

/// A desktop that may be answered.
pub open spec fn may_answer<H: HyprctlClient + ?Sized, P: ProcessInfoProvider + ?Sized>(
    hyprctl: &H,
    provider: &P,
    session: SessionView,
    safety: Option<Seq<SessionClientView>>,
    settings: ConfigView,
    entries: Seq<Seq<char>>,
    desktop: DesktopView,
) -> bool {
    let count = targets::reconcile_targets(session, settings, entries).len();
    let goes_on = !lacks_addresses(safety) && !(asks_for_old(safety) && stands_at_saved(
        safety->0,
        desktop.old,
    )) && !is_undecidable(session, settings);
    &&& asks_for_old(safety) ==> may_list(hyprctl, desktop.old)
    &&& goes_on && count == 0 ==> may_list(hyprctl, desktop.left)
    &&& goes_on && 0 < count <= MAX_RECONCILIATION_WINDOWS ==> {
        &&& may_list_monitors(hyprctl, desktop.monitors)
        &&& observe::may_observe(hyprctl, provider, settings, desktop.monitors, desktop.observed)
        &&& desktop.observed.len() <= MAX_RECONCILIATION_WINDOWS
            ==> planning::is_reconciliation(
            placed_targets(session, settings, entries, desktop.monitors),
            desktop.observed,
            MatchPolicy::ReplacementCompletion,
            true,
            MatchingStrategy::Global,
            desktop.plan,
        )
    }
}

/// Windows that the compositor may list.
pub open spec fn may_list<H: HyprctlClient + ?Sized>(
    hyprctl: &H,
    clients: Seq<HyprClientView>,
) -> bool {
    exists|answer: Vec<HyprClient>|
        answer.deep_view() == clients && #[trigger] call_ensures(
            H::get_clients,
            (hyprctl,),
            Ok::<Vec<HyprClient>, HyprctlError>(answer),
        )
}

/// Monitors that the compositor may list.
pub open spec fn may_list_monitors<H: HyprctlClient + ?Sized>(
    hyprctl: &H,
    monitors: Seq<HyprMonitorView>,
) -> bool {
    exists|answer: Vec<HyprMonitor>|
        answer.deep_view() == monitors && #[trigger] call_ensures(
            H::get_monitors,
            (hyprctl,),
            Ok::<Vec<HyprMonitor>, HyprctlError>(answer),
        )
}

fn finds_saved_window(safety: &Vec<SessionClient>, clients: &Vec<HyprClient>) -> (r: bool)
    ensures
        r == stands_at_saved(safety.deep_view(), clients.deep_view()),
{
    let ghost saved = safety.deep_view();
    let ghost here = clients.deep_view();
    let mut addresses = TextSet::new();
    let mut s: usize = 0;
    while s < safety.len()
        invariant
            s <= safety.len(),
            saved == safety.deep_view(),
            forall|a: Seq<char>| #[trigger]
                addresses@.contains(a) == exists|k: int|
                    0 <= k < s && (#[trigger] saved[k]).address == Some(a) && a.len() > 0,
        decreases safety.len() - s,
    {
        assert(saved[s as int] == safety[s as int]@);
        let ghost before = addresses@;
        if let Some(address) = &safety[s].address {
            if !address.as_str().is_empty() {
                addresses.insert(address.clone());
            }
        }
        proof {
            assert forall|a: Seq<char>| #[trigger]
                addresses@.contains(a) == exists|k: int|
                    0 <= k < s + 1 && (#[trigger] saved[k]).address == Some(a) && a.len() > 0 by {
                if before.contains(a) {
                    let k = choose|k: int|
                        0 <= k < s && (#[trigger] saved[k]).address == Some(a) && a.len() > 0;
                    assert(saved[k].address == Some(a));
                }
                if addresses@.contains(a) && !before.contains(a) {
                    assert(saved[s as int].address == Some(a));
                }
            }
        }
        s += 1;
    }
    let mut c: usize = 0;
    while c < clients.len()
        invariant
            c <= clients.len(),
            saved == safety.deep_view(),
            here == clients.deep_view(),
            forall|a: Seq<char>| #[trigger]
                addresses@.contains(a) == exists|k: int|
                    0 <= k < saved.len() && (#[trigger] saved[k]).address == Some(a) && a.len()
                        > 0,
            forall|k: int, s: int|
                0 <= k < c && 0 <= s < saved.len() ==> !is_at(
                    #[trigger] here[k],
                    #[trigger] saved[s],
                ),
        decreases clients.len() - c,
    {
        assert(here[c as int] == clients[c as int]@);
        if addresses.contains(clients[c].address.as_str()) {
            proof {
                let a = here[c as int].address;
                let k = choose|k: int|
                    0 <= k < saved.len() && (#[trigger] saved[k]).address == Some(a) && a.len()
                        > 0;
                assert(is_at(here[c as int], saved[k]));
            }
            return true;
        }
        c += 1;
    }
    false
}

fn finds_unwanted(clients: &Vec<SessionClient>, config: &Config) -> (r: bool)
    ensures
        r == some_unwanted(clients.deep_view(), config@),
{
    let ghost all = clients.deep_view();
    let mut i: usize = 0;
    while i < clients.len()
        invariant
            i <= clients.len(),
            all == clients.deep_view(),
            forall|k: int| 0 <= k < i ==> windows::is_wanted(config@, #[trigger] all[k]),
        decreases clients.len() - i,
    {
        assert(all[i as int] == clients[i as int]@);
        if !windows::client_is_wanted(&clients[i], config) {
            return true;
        }
        i += 1;
    }
    false
}

fn finds_resembling(safety: &Vec<SessionClient>, observed: &Vec<ObservedClient>) -> (r: bool)
    ensures
        r == some_resemble(safety.deep_view(), observed.deep_view()),
{
    let ghost saved = safety.deep_view();
    let ghost here = observed.deep_view();
    let mut c: usize = 0;
    while c < observed.len()
        invariant
            saved == safety.deep_view(),
            here == observed.deep_view(),
            c <= observed.len(),
            forall|k: int, s: int|
                0 <= k < c && 0 <= s < saved.len() ==> !windows::resembles(
                    #[trigger] saved[s],
                    #[trigger] here[k],
                ),
        decreases observed.len() - c,
    {
        assert(here[c as int] == observed[c as int]@);
        let mut s: usize = 0;
        while s < safety.len()
            invariant
                saved == safety.deep_view(),
                here == observed.deep_view(),
                c < observed.len(),
                here[c as int] == observed[c as int]@,
                s <= safety.len(),
                forall|k: int|
                    0 <= k < s ==> !windows::resembles(#[trigger] saved[k], here[c as int]),
            decreases safety.len() - s,
        {
            assert(saved[s as int] == safety[s as int]@);
            if windows::replacement_safety_identity_matches(&safety[s], &observed[c]) {
                assert(windows::resembles(saved[s as int], here[c as int]));
                return true;
            }
            s += 1;
        }
        c += 1;
    }
    false
}

fn every_target_is_given(plan: &Vec<Option<ReconcilePair>>) -> (r: bool)
    ensures
        r == all_given(plan@),
{
    let mut t: usize = 0;
    while t < plan.len()
        invariant
            t <= plan.len(),
            forall|k: int| 0 <= k < t ==> (#[trigger] plan@[k]) is Some,
        decreases plan.len() - t,
    {
        if plan[t].is_none() {
            return false;
        }
        t += 1;
    }
    true
}

fn lacks_any_address(clients: &Vec<SessionClient>) -> (r: bool)
    ensures
        r == (targets::lacking_address_from(clients.deep_view(), 0) is Some),
{
    targets::find_lacking_address(clients).is_some()
}

/// The answer of a check.
pub open spec fn is_answer<H: HyprctlClient + ?Sized, P: ProcessInfoProvider + ?Sized>(
    hyprctl: &H,
    provider: &P,
    session: SessionView,
    safety: Option<Seq<SessionClientView>>,
    settings: ConfigView,
    entries: Seq<Seq<char>>,
    r: Result<bool, RestoreError>,
) -> bool {
    match r {
        Ok(complete) => exists|desktop: DesktopView|
            {
                &&& #[trigger] may_answer(
                    hyprctl,
                    provider,
                    session,
                    safety,
                    settings,
                    entries,
                    desktop,
                )
                &&& complete == is_completed(session, safety, settings, entries, desktop)
            },
        Err(RestoreError::Hyprctl(error)) => {
            ||| call_ensures(
                H::get_clients,
                (hyprctl,),
                Err::<Vec<HyprClient>, HyprctlError>(error),
            )
            ||| call_ensures(
                H::get_monitors,
                (hyprctl,),
                Err::<Vec<HyprMonitor>, HyprctlError>(error),
            )
        },
        Err(_) => false,
    }
}

/// Decide whether an interrupted replacement already produced a complete set
/// of target windows.  Placement may have been changed by the user after the
/// last dispatch, so presence of every target is enough to avoid destructively
/// replaying the old safety snapshot; a later normal reconcile can repair any
/// remaining placement differences.
pub fn replacement_target_is_complete<
    H: HyprctlClient + ?Sized,
    P: ProcessInfoProvider + ?Sized,
>(session: &Session, hyprctl: &H, process_info: &P, config: &Config, entries: &[String]) -> (r:
    Result<bool, RestoreError>)
    ensures
        is_answer(
            hyprctl,
            process_info,
            session@,
            None,
            config@,
            entries.deep_view(),
            r,
        ),
{
    replacement_target_is_complete_with_backup(
        session,
        None,
        hyprctl,
        process_info,
        config,
        entries,
    )
}

/// Variant used by startup recovery when the replacement marker also names
/// the safety snapshot.  A target-looking window cannot prove that a
/// replacement completed while any window from the pre-replacement desktop
/// is still present: the old window may share the target's class and title.
pub fn replacement_target_is_complete_with_backup<
    H: HyprctlClient + ?Sized,
    P: ProcessInfoProvider + ?Sized,
>(
    session: &Session,
    safety_snapshot: Option<&Session>,
    hyprctl: &H,
    process_info: &P,
    config: &Config,
    entries: &[String],
) -> (r: Result<bool, RestoreError>)
    ensures
        is_answer(
            hyprctl,
            process_info,
            session@,
            snapshot_of(safety_snapshot),
            config@,
            entries.deep_view(),
            r,
        ),
{
    let ghost safety = snapshot_of(safety_snapshot);
    let ghost lines = entries.deep_view();
    let ghost mut desktop = DesktopView {
        old: Seq::empty(),
        left: Seq::empty(),
        monitors: Seq::empty(),
        observed: Seq::empty(),
        plan: Seq::empty(),
    };
    if let Some(snapshot) = safety_snapshot {
        if lacks_any_address(&snapshot.clients) {
            assert(may_answer(hyprctl, process_info, session@, safety, config@, lines, desktop));
            return Ok(false);
        }
        if snapshot.clients.len() > 0 {
            let clients = match hyprctl.get_clients() {
                Ok(clients) => clients,
                Err(error) => {
                    return Err(RestoreError::Hyprctl(error));
                },
            };
            proof {
                desktop = DesktopView { old: clients.deep_view(), ..desktop };
                assert(may_list(hyprctl, desktop.old));
            }
            if finds_saved_window(&snapshot.clients, &clients) {
                assert(may_answer(
                    hyprctl,
                    process_info,
                    session@,
                    safety,
                    config@,
                    lines,
                    desktop,
                ));
                return Ok(false);
            }
        }
    }
    assert(!lacks_addresses(safety));
    assert(asks_for_old(safety) ==> may_list(hyprctl, desktop.old) && !stands_at_saved(
        safety->0,
        desktop.old,
    ));
    if finds_unwanted(&session.clients, config) || targets::validate_safety_snapshot(
        session,
    ).is_err() {
        assert(may_answer(hyprctl, process_info, session@, safety, config@, lines, desktop));
        return Ok(false);
    }
    let wanted = targets::build_reconcile_targets(session, config, entries);
    assert(wanted.deep_view().len() == wanted.len());
    if wanted.len() == 0 {
        let clients = match hyprctl.get_clients() {
            Ok(clients) => clients,
            Err(error) => {
                return Err(RestoreError::Hyprctl(error));
            },
        };
        proof {
            desktop = DesktopView { left: clients.deep_view(), ..desktop };
            assert(may_list(hyprctl, desktop.left));
            assert(may_answer(hyprctl, process_info, session@, safety, config@, lines, desktop));
        }
        return Ok(clients.len() == 0);
    }
    if wanted.len() > MAX_RECONCILIATION_WINDOWS {
        assert(may_answer(hyprctl, process_info, session@, safety, config@, lines, desktop));
        return Ok(false);
    }
    let monitors = match hyprctl.get_monitors() {
        Ok(monitors) => monitors,
        Err(error) => {
            return Err(RestoreError::Hyprctl(error));
        },
    };
    let observed = match observe::observe_clients_with_monitors(
        hyprctl,
        process_info,
        config,
        monitors.as_slice(),
    ) {
        Ok(observed) => observed,
        Err(error) => {
            return Err(error);
        },
    };
    assert(observed.deep_view().len() == observed.len());
    proof {
        desktop = DesktopView {
            monitors: monitors.deep_view(),
            observed: observed.deep_view(),
            ..desktop
        };
        assert(may_list_monitors(hyprctl, desktop.monitors));
    }
    if observed.len() > MAX_RECONCILIATION_WINDOWS {
        assert(may_answer(hyprctl, process_info, session@, safety, config@, lines, desktop));
        return Ok(false);
    }
    let adapted = reconcile::adapt_targets(
        wanted,
        session.monitors.as_slice(),
        monitors.as_slice(),
    );
    assert(adapted.deep_view().len() == adapted.len());
    let clients = reconcile::copy_target_clients(adapted.as_slice());
    assert(clients.deep_view().len() == clients.len());
    let plan = planning::plan_reconciliation_with_policy(
        clients.as_slice(),
        observed.as_slice(),
        MatchPolicy::ReplacementCompletion,
        true,
    );
    proof {
        desktop = DesktopView { plan: plan@, ..desktop };
        assert(may_answer(hyprctl, process_info, session@, safety, config@, lines, desktop));
    }
    if let Some(snapshot) = safety_snapshot {
        if finds_resembling(&snapshot.clients, &observed) {
            // A pre-replacement window can be reopened with a fresh address.
            return Ok(false);
        }
    }
    Ok(every_target_is_given(&plan))
}

} // verus!
