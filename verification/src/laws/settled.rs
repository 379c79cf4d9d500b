//! A desktop that agrees with a session is left alone.

use crate::config::ConfigView;
use crate::hyprctl::HyprMonitorView;
use crate::laws::dispatch;
use crate::matching;
use crate::matching::MatchingStrategy;
use crate::placement::ReconcileGeometryView;
use crate::restore::existing;
use crate::restore::identity;
use crate::restore::identity::{MatchPolicy, ObservedClientView};
use crate::restore::planning;
use crate::restore::reconcile;
use crate::restore::reconcile::{PassActionView, PassOptions, PassView};
use crate::restore::report;
use crate::restore::report::{
    ReconcileReportView, RestoreErrorView, MAX_RECONCILIATION_WINDOWS,
};
use crate::restore::targets::ReconcileTargetView;
use crate::restore::windows;
use crate::session::{MonitorView, SessionClientView};
use crate::text;
use vstd::prelude::*;

verus! {

/// The window that is planned for a target.
pub open spec fn planned_window(pass: PassView, t: int) -> ObservedClientView {
    pass.planned[pass.plan[t]->0.current_index as int]
}

/// A target has a planned window, which stands where it was saved.
pub open spec fn is_satisfied(pass: PassView, t: int) -> bool {
    let target = pass.targets[t].client;
    let window = planned_window(pass, t);
    &&& pass.plan[t] is Some
    &&& pass.plan[t]->0.current_index < pass.planned.len()
    &&& pass.plan[t]->0.target_index == t
    &&& !identity::lacks_profile(target)
    &&& reconcile::allowed_kind(target, window, pass.options.allow_ambiguous_identity) is Some
    &&& dispatch::is_in_place(
        target,
        window.client,
        window.monitor_name,
        ReconcileGeometryView {
            desired_at: target.at,
            desired_size: target.size,
            target_monitor_available: pass.available[t],
        },
    )
    &&& !pass.protected.contains(window.client.address)
    &&& !pass.strays.contains(window.client.address)
    &&& !windows::is_taken(pass.used, window)
}

/// No two windows share an address or a stable ID.
pub open spec fn are_distinct(windows: Seq<ObservedClientView>) -> bool {
    forall|i: int, j: int|
        0 <= i < windows.len() && 0 <= j < windows.len() && i != j ==> !windows::is_same_taken(
            #[trigger] windows[i],
            #[trigger] windows[j],
        ) && windows[i].client.address != windows[j].client.address
}

/// Every target that is left has its window in place, and no two share one.
pub open spec fn is_settled(pass: PassView) -> bool {
    &&& reconcile::is_orderly(pass)
    &&& pass.pending is None
    &&& !pass.options.dry_run
    &&& pass.baselines.len() == 0
    &&& pass.planned.len() <= MAX_RECONCILIATION_WINDOWS
    &&& are_distinct(pass.planned)
    &&& forall|t: int|
        pass.index <= t < pass.targets.len() ==> #[trigger] is_satisfied(pass, t)
    &&& forall|t: int, s: int|
        pass.index <= t < s < pass.targets.len() ==> (#[trigger] pass.plan[t])->0.current_index != (
        #[trigger] pass.plan[s])->0.current_index
}

/// The pass behind its next target, where the windows are the planned ones.
pub open spec fn next_pass(pass: PassView) -> PassView {
    (reconcile::step_observed(pass, pass.planned)->Ok_0).0
}

/// A pass asks for nothing but to read the windows, which do not change, and
/// finds every target unchanged.
pub open spec fn runs_quietly(pass: PassView, left: nat) -> bool
    decreases left,
{
    if left == 0 {
        pass.index == pass.targets.len() && reconcile::step_on(pass) == Ok::<
            (PassView, PassActionView),
            RestoreErrorView,
        >((pass, PassActionView::Observe))
    } else {
        let next = next_pass(pass);
        &&& reconcile::step_on(pass) == Ok::<
            (PassView, PassActionView),
            RestoreErrorView,
        >((pass, PassActionView::Observe))
        &&& reconcile::step_observed(pass, pass.planned) is Ok
        &&& (reconcile::step_observed(pass, pass.planned)->Ok_0).1 is Continue
        &&& next.planned == pass.planned
        &&& next.report.unchanged == pass.report.unchanged + 1
        &&& next.report.moved == pass.report.moved
        &&& next.report.launched == pass.report.launched
        &&& next.report.skipped == pass.report.skipped
        &&& next.report.failed == pass.report.failed
        &&& runs_quietly(next, (left - 1) as nat)
    }
}

/// The window that is chosen for a satisfied target is the planned one.
proof fn lemma_planned_is_chosen(pass: PassView)
    requires
        is_settled(pass),
        pass.index < pass.targets.len(),
    ensures
        reconcile::chosen_place(reconcile::sees(pass, pass.planned)) == Some(
            pass.plan[pass.index]->0.current_index as int,
        ),
{
    let t = pass.index;
    let seen = reconcile::sees(pass, pass.planned);
    let c = pass.plan[t]->0.current_index as int;
    let window = pass.planned[c];
    assert(is_satisfied(pass, t));
    windows::law_same_windows_are_taken_as_one(window, window);
    assert(reconcile::strays_among(pass.baselines, pass.planned) =~= Set::empty());
    let left_alone = reconcile::excluded(seen);
    let clients = reconcile::clients_of(seen.targets);
    assert(!existing::is_reserved(
        t,
        seen.plan,
        seen.planned,
        seen.latest,
        clients,
        window.client.address,
    )) by {
        if existing::is_reserved(
            t,
            seen.plan,
            seen.planned,
            seen.latest,
            clients,
            window.client.address,
        ) {
            let d = choose|d: int|
                0 <= d < seen.latest.len() && (#[trigger] seen.latest[d]).client.address
                    == window.client.address && existing::is_kept_after(
                    t,
                    seen.plan,
                    seen.planned,
                    clients,
                    seen.latest[d],
                );
            assert(pass.planned[d].client.address == pass.planned[c].client.address);
            assert(d == c);
            assert(existing::is_planned_for(t, seen.plan, seen.planned, window));
        }
    }
    assert(!left_alone.contains(window.client.address));
    lemma_planned_found(seen, c, 0);
}

/// The planned window is found where it stands.
proof fn lemma_planned_found(pass: PassView, c: int, i: int)
    requires
        0 <= i <= c < pass.planned.len(),
        pass.latest == pass.planned,
        are_distinct(pass.planned),
        !windows::is_taken(pass.used, pass.planned[c]),
        !reconcile::excluded(pass).contains(pass.planned[c].client.address),
        reconcile::allowed_kind(
            pass.targets[pass.index].client,
            pass.planned[c],
            pass.options.allow_ambiguous_identity,
        ) is Some,
    ensures
        reconcile::planned_from(pass, pass.planned[c], reconcile::excluded(pass), i) == Some(c),
    decreases c - i,
{
    windows::law_same_windows_are_taken_as_one(pass.planned[c], pass.planned[c]);
    if i < c {
        assert(!windows::is_same_taken(pass.planned[c], pass.planned[i]));
        lemma_planned_found(pass, c, i + 1);
    }
}

/// What one target leaves to the next.
proof fn lemma_stays_settled(pass: PassView)
    requires
        is_settled(pass),
        pass.index < pass.targets.len(),
    ensures
        is_settled(next_pass(pass)),
        next_pass(pass).index == pass.index + 1,
        next_pass(pass).targets == pass.targets,
        next_pass(pass).planned == pass.planned,
        reconcile::step_observed(pass, pass.planned) is Ok,
        (reconcile::step_observed(pass, pass.planned)->Ok_0).1 is Continue,
        next_pass(pass).report == (ReconcileReportView {
            matched: pass.report.matched + 1,
            unchanged: pass.report.unchanged + 1,
            details: next_pass(pass).report.details,
            ..pass.report
        }),
{
    let t = pass.index;
    let seen = reconcile::sees(pass, pass.planned);
    let c = pass.plan[t]->0.current_index as int;
    let window = pass.planned[c];
    let next = next_pass(pass);
    lemma_planned_is_chosen(pass);
    assert(is_satisfied(pass, t));
    dispatch::law_window_in_place_is_left_alone(
        pass.targets[t].client,
        window.client,
        window.monitor_name,
        ReconcileGeometryView {
            desired_at: pass.targets[t].client.at,
            desired_size: pass.targets[t].client.size,
            target_monitor_available: pass.available[t],
        },
    );
    assert(seen.strays =~= pass.strays) by {
        assert(reconcile::strays_among(pass.baselines, pass.planned) =~= Set::empty());
    }
    assert(next == reconcile::takes_window(seen, window).0);
    assert(next.index == t + 1 && next.targets == pass.targets);
    assert forall|s: int| next.index <= s < next.targets.len() implies #[trigger] is_satisfied(
        next,
        s,
    ) by {
        assert(pass.index <= s < pass.targets.len());
        assert(is_satisfied(pass, s));
        let e = pass.plan[s]->0.current_index as int;
        assert(pass.plan[t]->0.current_index != pass.plan[s]->0.current_index);
        let other = pass.planned[e];
        assert(!windows::is_same_taken(pass.planned[c], pass.planned[e]));
        assert(!windows::is_taken(windows::with_window(pass.used, window), other)) by {
            let after = windows::with_window(pass.used, window);
            if windows::is_taken(after, other) {
                let i = choose|i: int|
                    0 <= i < after.len() && windows::is_same_taken(#[trigger] after[i], other);
                if i < pass.used.len() {
                    assert(after[i] == pass.used[i]);
                    assert(windows::is_taken(pass.used, other));
                }
            }
        }
        assert(planned_window(next, s) == planned_window(pass, s));
    }
}

/// Reconciliation is idempotent: once every target has its window in place,
/// another pass over the same windows repairs, launches, skips and fails
/// nothing, and finds every target unchanged, also where windows look alike.
/// No two windows share an address or a stable ID.
pub proof fn law_settled_desktops_are_left_alone(pass: PassView)
    requires
        is_settled(pass),
    ensures
        runs_quietly(pass, (pass.targets.len() - pass.index) as nat),
    decreases pass.targets.len() - pass.index,
{
    if pass.index < pass.targets.len() {
        assert(is_satisfied(pass, pass.index));
        lemma_stays_settled(pass);
        law_settled_desktops_are_left_alone(next_pass(pass));
    }
}

// ── From the start ─────────────────────────────────────────────────────────

/// Every target has a window of its own whose edge is worth more than any edge
/// of another window.
spec fn own_edges_win(m: Seq<Seq<int>>, own: Seq<int>, bound: int) -> bool {
    &&& matching::rectangular(m)
    &&& matching::width(m) <= usize::MAX
    &&& 0 <= bound
    &&& own.len() == m.len()
    &&& forall|t: int|
        0 <= t < own.len() ==> 0 <= #[trigger] own[t] < matching::width(m) && m[t][own[t]] > bound
    &&& forall|t: int, s: int|
        0 <= t < s < own.len() ==> #[trigger] own[t] != #[trigger] own[s]
    &&& forall|t: int, c: int|
        0 <= t < m.len() && 0 <= c < matching::width(m) && c != own[t] ==> 0 <= #[trigger] m[t][c]
            <= bound
}

/// The assignment that gives every target its own window.
spec fn own_assignment(own: Seq<int>) -> Seq<Option<usize>> {
    Seq::new(own.len(), |t: int| Some(own[t] as usize))
}

/// No assignment is worth more than the own windows, and one that is worth as
/// much gives every target its own window.
proof fn lemma_own_total(
    m: Seq<Seq<int>>,
    own: Seq<int>,
    bound: int,
    a: Seq<Option<usize>>,
    n: int,
)
    requires
        own_edges_win(m, own, bound),
        matching::one_to_one(m, a),
        0 <= n <= own.len(),
    ensures
        matching::total_score(m, a.take(n)) <= matching::total_score(
            m,
            own_assignment(own).take(n),
        ),
        matching::total_score(m, a.take(n)) == matching::total_score(
            m,
            own_assignment(own).take(n),
        ) ==> forall|t: int| 0 <= t < n ==> #[trigger] a[t] == Some(own[t] as usize),
    decreases n,
{
    let best = own_assignment(own);
    if n > 0 {
        let t = n - 1;
        lemma_own_total(m, own, bound, a, t);
        assert(a.take(n).drop_last() =~= a.take(t));
        assert(best.take(n).drop_last() =~= best.take(t));
        assert(a.take(n).last() == a[t]);
        assert(best.take(n).last() == best[t]);
        assert(0 <= own[t] < matching::width(m) && m[t][own[t]] > bound);
        match a[t] {
            Some(c) => {
                if c != own[t] {
                    assert(m[t][c as int] <= bound);
                }
            },
            None => {},
        }
    }
}

/// Whatever the strategy, a plan gives every target its own window.
proof fn lemma_plan_is_own(
    m: Seq<Seq<int>>,
    own: Seq<int>,
    bound: int,
    strategy: MatchingStrategy,
    a: Seq<Option<usize>>,
)
    requires
        own_edges_win(m, own, bound),
        matching::is_plan(m, strategy, a),
    ensures
        a == own_assignment(own),
{
    let best = own_assignment(own);
    matching::law_plans_are_one_to_one(m, strategy, a);
    match strategy {
        MatchingStrategy::Global => {
            assert forall|t: int, c: int|
                0 <= t < m.len() && 0 <= c < matching::width(m) implies 0 <= #[trigger] m[t][c] by {
                if c == own[t] {
                    assert(m[t][own[t]] > bound);
                }
            }
            assert(matching::one_to_one(m, best)) by {
                assert forall|t: int| 0 <= t < best.len() && #[trigger] best[t] is Some implies
                    best[t]->0 < matching::width(m) by {
                    assert(0 <= own[t] < matching::width(m));
                }
                assert forall|t: int, s: int|
                    0 <= t < s < best.len() && #[trigger] best[t] is Some
                        && #[trigger] best[s] is Some implies best[t] != best[s] by {
                    assert(own[t] != own[s]);
                    assert(0 <= own[t] < matching::width(m));
                    assert(0 <= own[s] < matching::width(m));
                }
            }
            matching::law_global_plan_is_maximal(m, a, best);
            lemma_own_total(m, own, bound, a, own.len() as int);
            assert(a.take(own.len() as int) =~= a);
            assert(best.take(own.len() as int) =~= best);
        },
        MatchingStrategy::Greedy => {
            assert forall|t: int| 0 <= t < own.len() implies #[trigger] a[t] == Some(
                own[t] as usize,
            ) by {
                assert(0 <= own[t] < matching::width(m) && m[t][own[t]] > bound);
                assert(matching::is_eligible(m, t, own[t]));
                if a[t] != Some(own[t] as usize) {
                    let s = choose|s: int|
                        0 <= s < a.len() && #[trigger] a[s] is Some && (s == t || a[s]->0
                            == own[t]) && matching::comes_first(
                            m,
                            s,
                            a[s]->0 as int,
                            t,
                            own[t],
                        );
                    let c = a[s]->0 as int;
                    assert(c != own[s]) by {
                        if s != t && c == own[s] {
                            assert(own[s] == own[t]);
                        }
                    }
                    assert(m[s][c] <= bound);
                }
            }
        },
    }
    assert(a =~= best);
}

/// No two windows share an address, in whatever case, or a stable ID.
pub open spec fn are_apart(windows: Seq<ObservedClientView>) -> bool {
    forall|i: int, j: int|
        0 <= i < windows.len() && 0 <= j < windows.len() && i != j ==> !windows::is_same_taken(
            #[trigger] windows[i],
            #[trigger] windows[j],
        ) && !text::same_ignoring_case(windows[i].client.address, windows[j].client.address)
}

/// A window is the one that was saved, at its address, and stands where it was
/// saved.
pub open spec fn is_own_in_place(
    target: SessionClientView,
    window: ObservedClientView,
    allow_ambiguous: bool,
    monitor_available: bool,
) -> bool {
    &&& identity::is_at_saved_address(target, window.client.address)
    &&& !identity::lacks_profile(target)
    &&& reconcile::allowed_kind(target, window, allow_ambiguous) is Some
    &&& dispatch::is_in_place(
        target,
        window.client,
        window.monitor_name,
        ReconcileGeometryView {
            desired_at: target.at,
            desired_size: target.size,
            target_monitor_available: monitor_available,
        },
    )
}

/// Of windows that are apart, one at most stands at the saved address.
proof fn lemma_one_chromium(
    target: SessionClientView,
    windows: Seq<ObservedClientView>,
    c: int,
    n: int,
)
    requires
        are_apart(windows),
        0 <= c < windows.len(),
        0 <= n <= windows.len(),
        identity::is_at_saved_address(target, windows[c].client.address),
        identity::classes_agree(target, windows[c].client),
    ensures
        windows::chromium_count(target, windows.take(n)) == if c < n {
            1nat
        } else {
            0
        },
    decreases n,
{
    if n > 0 {
        lemma_one_chromium(target, windows, c, n - 1);
        assert(windows.take(n).drop_last() =~= windows.take(n - 1));
        assert(windows.take(n).last() == windows[n - 1]);
        if n - 1 != c {
            lemma_other_address(target, windows, c, n - 1);
        }
    }
}

proof fn lemma_other_address(
    target: SessionClientView,
    windows: Seq<ObservedClientView>,
    c: int,
    d: int,
)
    requires
        are_apart(windows),
        0 <= c < windows.len(),
        0 <= d < windows.len(),
        c != d,
        identity::is_at_saved_address(target, windows[c].client.address),
    ensures
        !identity::is_at_saved_address(target, windows[d].client.address),
{
    assert(!text::same_ignoring_case(windows[c].client.address, windows[d].client.address));
    if identity::is_at_saved_address(target, windows[d].client.address) {
        assert(text::same_ignoring_case(windows[c].client.address, windows[d].client.address));
    }
}

/// What the own window of a target and any other are worth to it.
proof fn lemma_own_worth(
    target: SessionClientView,
    windows: Seq<ObservedClientView>,
    c: int,
    allow_ambiguous: bool,
    d: int,
)
    requires
        are_apart(windows),
        0 <= c < windows.len(),
        0 <= d < windows.len(),
        identity::is_at_saved_address(target, windows[c].client.address),
        reconcile::allowed_kind(target, windows[c], allow_ambiguous) is Some,
    ensures
        ({
            let value = planning::candidate(
                target,
                windows[d],
                windows,
                MatchPolicy::Normal,
                false,
            );
            if c == d {
                value is Some && (value->0).0 > 5000
            } else {
                value is Some ==> 0 <= (value->0).0 <= 5000
            }
        }),
{
    if c == d {
        lemma_one_chromium(target, windows, c, windows.len() as int);
        assert(windows.take(windows.len() as int) =~= windows);
        assert(windows::chromium_is_safe(target, windows[c].client.address, windows));
        assert(identity::match_points(target, windows[c]) > 5000);
    } else {
        lemma_other_address(target, windows, c, d);
        identity::law_matches_score_positive(target, windows[d]);
    }
}

/// Reconciling a desktop that has every saved window in place changes nothing:
/// where each target has a window of its own, at its saved address, which is
/// the saved one and stands where it was saved, a pass from its very start
/// only reads the windows, and finds every target unchanged.  Windows may look
/// alike, and there may be others.
pub proof fn law_satisfied_sessions_change_nothing(
    pass: PassView,
    targets: Seq<ReconcileTargetView>,
    saved: Seq<MonitorView>,
    monitors: Seq<HyprMonitorView>,
    observed: Seq<ObservedClientView>,
    protected: Set<Seq<char>>,
    binaries: Option<Seq<Seq<char>>>,
    settings: ConfigView,
    options: PassOptions,
    strategy: MatchingStrategy,
    own: Seq<int>,
)
    requires
        reconcile::is_start(
            pass,
            targets,
            saved,
            monitors,
            observed,
            protected,
            binaries,
            settings,
            options,
            strategy,
        ),
        targets.len() <= MAX_RECONCILIATION_WINDOWS,
        observed.len() <= MAX_RECONCILIATION_WINDOWS,
        !options.dry_run,
        are_apart(observed),
        own.len() == targets.len(),
        forall|t: int|
            0 <= t < own.len() ==> {
                &&& 0 <= #[trigger] own[t] < observed.len()
                &&& is_own_in_place(
                    pass.targets[t].client,
                    observed[own[t]],
                    options.allow_ambiguous_identity,
                    pass.available[t],
                )
                &&& !protected.contains(observed[own[t]].client.address)
            },
        forall|t: int, s: int|
            0 <= t < s < own.len() ==> #[trigger] own[t] != #[trigger] own[s],
    ensures
        is_settled(pass),
        runs_quietly(pass, targets.len()),
        pass.report == report::blank_reconcile_report(),
{
    let clients = reconcile::clients_of(pass.targets);
    let m = planning::worth(clients, observed, MatchPolicy::Normal, false);
    assert(clients.len() == targets.len());
    assert forall|t: int, c: int| 0 <= t < m.len() && 0 <= c < observed.len() implies if c
        == own[t] {
        #[trigger] m[t][c] > 5000
    } else {
        0 <= m[t][c] <= 5000
    } by {
        assert(0 <= own[t] < observed.len());
        assert(clients[t] == pass.targets[t].client);
        lemma_own_worth(
            clients[t],
            observed,
            own[t],
            options.allow_ambiguous_identity,
            c,
        );
    }
    assert(matching::rectangular(m));
    if targets.len() > 0 {
        assert(own[0] < observed.len());
        assert(matching::width(m) == observed.len());
    }
    assert(own_edges_win(m, own, 5000)) by {
        assert forall|t: int| 0 <= t < own.len() implies 0 <= #[trigger] own[t] < matching::width(m)
            && m[t][own[t]] > 5000 by {
            assert(m[t][own[t]] > 5000);
        }
    }
    let a = choose|a: Seq<Option<usize>>| #[trigger]
        matching::is_plan(m, strategy, a) && pass.plan == planning::pairs_of(
            clients,
            observed,
            MatchPolicy::Normal,
            false,
            a,
        );
    lemma_plan_is_own(m, own, 5000, strategy, a);
    assert forall|t: int| 0 <= t < targets.len() implies {
        &&& (#[trigger] pass.plan[t]) is Some
        &&& pass.plan[t]->0.current_index == own[t]
        &&& pass.plan[t]->0.target_index == t
    } by {
        assert(0 <= own[t] < observed.len());
        assert(a[t] == Some(own[t] as usize));
        assert(clients[t] == pass.targets[t].client);
        lemma_own_worth(
            clients[t],
            observed,
            own[t],
            options.allow_ambiguous_identity,
            own[t],
        );
    }
    assert forall|t: int| pass.index <= t < pass.targets.len() implies #[trigger] is_satisfied(
        pass,
        t,
    ) by {
        assert(pass.plan[t] is Some);
        assert(0 <= own[t] < observed.len());
        assert(is_own_in_place(
            pass.targets[t].client,
            observed[own[t]],
            options.allow_ambiguous_identity,
            pass.available[t],
        ));
    }
    assert(are_distinct(pass.planned)) by {
        assert forall|i: int, j: int|
            0 <= i < observed.len() && 0 <= j < observed.len() && i != j implies !windows::is_same_taken(
            #[trigger] observed[i],
            #[trigger] observed[j],
        ) && observed[i].client.address != observed[j].client.address by {
            assert(!text::same_ignoring_case(
                observed[i].client.address,
                observed[j].client.address,
            ));
        }
    }
    assert forall|t: int, s: int| pass.index <= t < s < pass.targets.len() implies (
    #[trigger] pass.plan[t])->0.current_index != (#[trigger] pass.plan[s])->0.current_index by {
        assert(own[t] != own[s]);
    }
    law_settled_desktops_are_left_alone(pass);
}

} // verus!
