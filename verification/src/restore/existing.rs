//! Choosing among the windows that are already open.

use crate::config::{Config, ConfigView};
use crate::lists;
use crate::lists::TextSet;
use crate::restore::identity;
use crate::restore::identity::{MatchKind, MatchPolicy, ObservedClient, ObservedClientView};
use crate::restore::launch;
use crate::restore::planning;
use crate::restore::planning::ReconcilePair;
use crate::restore::windows;
use crate::restore::windows::ConsumedWindows;
use crate::session::{SessionClient, SessionClientView};
use crate::text;
use vstd::prelude::*;

verus! {

/// What a match is called in reports.
pub open spec fn kind_label(kind: MatchKind) -> Seq<char> {
    match kind {
        MatchKind::ExactIdentity => "exact identity"@,
        MatchKind::AppIdentity => "app identity"@,
        MatchKind::ProfileIdentity => "profile identity"@,
        MatchKind::ClassFallback => "class fallback"@,
    }
}

/// What a match is called in reports.
pub fn match_kind_label(kind: MatchKind) -> (r: &'static str)
    ensures
        r@ == kind_label(kind),
{
    match kind {
        MatchKind::ExactIdentity => "exact identity",
        MatchKind::AppIdentity => "app identity",
        MatchKind::ProfileIdentity => "profile identity",
        MatchKind::ClassFallback => "class fallback",
    }
}

// ── The best window for a target ───────────────────────────────────────────

/// A window that may still be given to a target.
pub open spec fn is_available(
    window: ObservedClientView,
    consumed: Seq<ObservedClientView>,
    protected: Set<Seq<char>>,
    settings: ConfigView,
) -> bool {
    &&& !windows::is_taken(consumed, window)
    &&& !protected.contains(window.client.address)
    &&& windows::is_heeded(settings, window.client)
}

/// The windows that may still be given to a target.
pub open spec fn available_windows(
    existing: Seq<ObservedClientView>,
    consumed: Seq<ObservedClientView>,
    protected: Set<Seq<char>>,
    settings: ConfigView,
) -> Seq<ObservedClientView> {
    existing.filter(|w: ObservedClientView| is_available(w, consumed, protected, settings))
}

/// What giving a window to a target is worth; nothing where it must not be.
pub open spec fn offer(
    target: SessionClientView,
    window: ObservedClientView,
    available: Seq<ObservedClientView>,
    allow_ambiguous: bool,
) -> Option<int> {
    if windows::chromium_is_safe(target, window.client.address, available)
        && !planning::is_relaunched_twice(target, window, available) {
        match windows::allowed_value(target, window, allow_ambiguous, MatchPolicy::Normal) {
            Some((score, _)) => Some(score),
            None => None,
        }
    } else {
        None
    }
}

/// What giving a window to a target is worth, where the window may be given.
pub open spec fn offer_of(
    target: SessionClientView,
    existing: Seq<ObservedClientView>,
    consumed: Seq<ObservedClientView>,
    protected: Set<Seq<char>>,
    settings: ConfigView,
    allow_ambiguous: bool,
    i: int,
) -> Option<int> {
    if is_available(existing[i], consumed, protected, settings) {
        offer(
            target,
            existing[i],
            available_windows(existing, consumed, protected, settings),
            allow_ambiguous,
        )
    } else {
        None
    }
}

/// The best of the first `n` windows for a target: the one worth most, and
/// among equals the one with the first address.
pub open spec fn best_window(
    target: SessionClientView,
    existing: Seq<ObservedClientView>,
    consumed: Seq<ObservedClientView>,
    protected: Set<Seq<char>>,
    settings: ConfigView,
    allow_ambiguous: bool,
    n: int,
) -> Option<int>
    decreases n,
{
    if n <= 0 {
        None
    } else {
        let before = best_window(
            target,
            existing,
            consumed,
            protected,
            settings,
            allow_ambiguous,
            n - 1,
        );
        let worth = offer_of(
            target,
            existing,
            consumed,
            protected,
            settings,
            allow_ambiguous,
            n - 1,
        );
        match (before, worth) {
            (_, None) => before,
            (None, Some(_)) => Some(n - 1),
            (Some(i), Some(score)) => {
                let held = offer_of(
                    target,
                    existing,
                    consumed,
                    protected,
                    settings,
                    allow_ambiguous,
                    i,
                )->0;
                if score > held || (score == held && !text::comes_before(
                    existing[i].client.address,
                    existing[n - 1].client.address,
                )) {
                    Some(n - 1)
                } else {
                    before
                }
            },
        }
    }
}

/// The best window for a target among all.
pub open spec fn existing_match(
    target: SessionClientView,
    existing: Seq<ObservedClientView>,
    consumed: Seq<ObservedClientView>,
    protected: Set<Seq<char>>,
    settings: ConfigView,
    allow_ambiguous: bool,
) -> Option<int> {
    best_window(
        target,
        existing,
        consumed,
        protected,
        settings,
        allow_ambiguous,
        existing.len() as int,
    )
}

/// The window that a target is given is free, may be matched, and is worth at
/// least as much as any other; a target goes without a window only where no
/// window may be given to it.
pub proof fn law_existing_match_is_best(
    target: SessionClientView,
    existing: Seq<ObservedClientView>,
    consumed: Seq<ObservedClientView>,
    protected: Set<Seq<char>>,
    settings: ConfigView,
    allow_ambiguous: bool,
    n: int,
)
    requires
        0 <= n <= existing.len(),
    ensures
        match best_window(target, existing, consumed, protected, settings, allow_ambiguous, n) {
            Some(i) => {
                &&& 0 <= i < n
                &&& is_available(existing[i], consumed, protected, settings)
                &&& windows::allowed_value(
                    target,
                    existing[i],
                    allow_ambiguous,
                    MatchPolicy::Normal,
                ) is Some
                &&& offer_of(
                    target,
                    existing,
                    consumed,
                    protected,
                    settings,
                    allow_ambiguous,
                    i,
                ) is Some
                &&& forall|k: int|
                    0 <= k < n ==> ((#[trigger] offer_of(
                        target,
                        existing,
                        consumed,
                        protected,
                        settings,
                        allow_ambiguous,
                        k,
                    )) is Some ==> offer_of(
                        target,
                        existing,
                        consumed,
                        protected,
                        settings,
                        allow_ambiguous,
                        k,
                    )->0 <= offer_of(
                        target,
                        existing,
                        consumed,
                        protected,
                        settings,
                        allow_ambiguous,
                        i,
                    )->0)
            },
            None => forall|k: int|
                0 <= k < n ==> (#[trigger] offer_of(
                    target,
                    existing,
                    consumed,
                    protected,
                    settings,
                    allow_ambiguous,
                    k,
                )) is None,
        },
    decreases n,
{
    if n > 0 {
        law_existing_match_is_best(
            target,
            existing,
            consumed,
            protected,
            settings,
            allow_ambiguous,
            n - 1,
        );
    }
}

fn pick_available(
    existing: &[ObservedClient],
    consumed: &ConsumedWindows,
    protected: &TextSet,
    config: &Config,
) -> (r: (Vec<ObservedClient>, Vec<bool>))
    ensures
        r.0.deep_view() == available_windows(
            existing.deep_view(),
            consumed@,
            protected@,
            config@,
        ),
        r.1.len() == existing.len(),
        forall|i: int|
            0 <= i < existing.len() ==> #[trigger] r.1@[i] == is_available(
                existing.deep_view()[i],
                consumed@,
                protected@,
                config@,
            ),
{
    let ghost all = existing.deep_view();
    let ghost keep = |w: ObservedClientView|
        is_available(w, consumed@, protected@, config@);
    let mut out: Vec<ObservedClient> = Vec::new();
    let mut marks: Vec<bool> = Vec::new();
    let mut i: usize = 0;
    proof {
        reveal(Seq::filter);
        assert(out.deep_view() =~= all.take(0).filter(keep));
    }
    while i < existing.len()
        invariant
            i <= existing.len(),
            all == existing.deep_view(),
            keep == (|w: ObservedClientView|
                is_available(w, consumed@, protected@, config@)),
            out.deep_view() == all.take(i as int).filter(keep),
            marks.len() == i,
            forall|k: int|
                0 <= k < i ==> #[trigger] marks@[k] == is_available(
                    all[k],
                    consumed@,
                    protected@,
                    config@,
                ),
        decreases existing.len() - i,
    {
        let window = &existing[i];
        let ghost before = out.deep_view();
        proof {
            lists::lemma_filter_step(all, keep, i as int);
            assert(all[i as int] == window@);
        }
        let free = !consumed.contains(window) && !protected.contains(
            window.client.address.as_str(),
        ) && windows::client_is_heeded(&window.client, config);
        marks.push(free);
        if free {
            let copy = window.clone();
            out.push(copy);
            assert(out.deep_view() =~= before.push(window@));
        }
        i += 1;
    }
    assert(all.take(all.len() as int) =~= all);
    (out, marks)
}

fn make_offer(
    target: &SessionClient,
    window: &ObservedClient,
    available: &Vec<ObservedClient>,
    allow_ambiguous: bool,
) -> (r: Option<i32>)
    ensures
        match r {
            Some(score) => offer(target@, window@, available.deep_view(), allow_ambiguous)
                == Some(score as int),
            None => offer(target@, window@, available.deep_view(), allow_ambiguous) is None,
        },
{
    if !windows::generic_chromium_match_is_safe(target, window, available.as_slice()) {
        return None;
    }
    if identity::relaunch_fallback_identity_matches(target, window) && planning::count_relaunched(
        target,
        available.as_slice(),
    ) != 1 {
        return None;
    }
    match windows::allowed_match(target, window, allow_ambiguous) {
        Some((score, _)) => Some(score),
        None => None,
    }
}

/// The place of the best window for a target among those that are free.
pub fn find_existing_restore_match(
    target: &SessionClient,
    existing: &[ObservedClient],
    consumed: &ConsumedWindows,
    config: &Config,
    allow_ambiguous_identity: bool,
    protected_addresses: &TextSet,
) -> (r: Option<usize>)
    ensures
        match r {
            Some(i) => i < existing.len() && existing_match(
                target@,
                existing.deep_view(),
                consumed@,
                protected_addresses@,
                config@,
                allow_ambiguous_identity,
            ) == Some(i as int),
            None => existing_match(
                target@,
                existing.deep_view(),
                consumed@,
                protected_addresses@,
                config@,
                allow_ambiguous_identity,
            ) is None,
        },
{
    let ghost all = existing.deep_view();
    let ghost protected = protected_addresses@;
    let (available, marks) = pick_available(existing, consumed, protected_addresses, config);
    let mut best: Option<(i32, usize)> = None;
    let mut i: usize = 0;
    while i < existing.len()
        invariant
            i <= existing.len(),
            all == existing.deep_view(),
            protected == protected_addresses@,
            available.deep_view() == available_windows(all, consumed@, protected, config@),
            marks.len() == existing.len(),
            forall|k: int|
                0 <= k < existing.len() ==> #[trigger] marks@[k] == is_available(
                    all[k],
                    consumed@,
                    protected,
                    config@,
                ),
            match best {
                Some((score, place)) => {
                    &&& place < i
                    &&& best_window(
                        target@,
                        all,
                        consumed@,
                        protected,
                        config@,
                        allow_ambiguous_identity,
                        i as int,
                    ) == Some(place as int)
                    &&& offer_of(
                        target@,
                        all,
                        consumed@,
                        protected,
                        config@,
                        allow_ambiguous_identity,
                        place as int,
                    ) == Some(score as int)
                },
                None => best_window(
                    target@,
                    all,
                    consumed@,
                    protected,
                    config@,
                    allow_ambiguous_identity,
                    i as int,
                ) is None,
            },
        decreases existing.len() - i,
    {
        assert(all[i as int] == existing[i as int]@);
        assert(marks@[i as int] == is_available(all[i as int], consumed@, protected, config@));
        if marks[i] {
            if let Some(score) = make_offer(
                target,
                &existing[i],
                &available,
                allow_ambiguous_identity,
            ) {
                best = match best {
                    None => Some((score, i)),
                    Some((held, place)) => {
                        assert(all[place as int] == existing[place as int]@);
                        if score > held || (score == held && !text::is_before(
                            existing[place].client.address.as_str(),
                            existing[i].client.address.as_str(),
                        )) {
                            Some((score, i))
                        } else {
                            Some((held, place))
                        }
                    },
                };
            }
        }
        i += 1;
    }
    match best {
        Some((_, place)) => Some(place),
        None => None,
    }
}

// ── Windows that stand in the way of a launch ──────────────────────────────

/// A free window of the same application.
pub open spec fn is_rival(
    target: SessionClientView,
    window: ObservedClientView,
    consumed: Seq<ObservedClientView>,
    settings: ConfigView,
) -> bool {
    &&& !windows::is_taken(consumed, window)
    &&& windows::is_heeded(settings, window.client)
    &&& identity::classes_agree(target, window.client)
}

/// Some free window is of the same application.
pub open spec fn has_rival(
    target: SessionClientView,
    existing: Seq<ObservedClientView>,
    consumed: Seq<ObservedClientView>,
    settings: ConfigView,
) -> bool {
    exists|i: int|
        0 <= i < existing.len() && is_rival(target, #[trigger] existing[i], consumed, settings)
}

/// A free Brave window may be of any profile.
pub open spec fn has_ambiguous_profile(
    target: SessionClientView,
    existing: Seq<ObservedClientView>,
    consumed: Seq<ObservedClientView>,
    settings: ConfigView,
) -> bool {
    launch::is_brave(target) && exists|i: int|
        0 <= i < existing.len() && is_rival(target, #[trigger] existing[i], consumed, settings)
            && existing[i].profile_identity_ambiguous
}

/// A free Chromium window may be the one that is meant.
pub open spec fn has_ambiguous_chromium(
    target: SessionClientView,
    existing: Seq<ObservedClientView>,
    consumed: Seq<ObservedClientView>,
    settings: ConfigView,
) -> bool {
    identity::is_chromium(target) && has_rival(target, existing, consumed, settings)
}

/// The window at the saved address may still be the saved one, but what would
/// prove it is missing.  A positive mismatch is different: it proves that the
/// address belongs to another window now.
pub open spec fn is_unavailable(target: SessionClientView, observed: ObservedClientView) -> bool {
    let current = observed.client;
    &&& identity::is_at_saved_address(target, current.address)
    &&& !(identity::is_known(target.stable_id) && identity::is_known(current.stable_id))
    &&& target.pid is Some ==> target.pid->0 == current.pid
    &&& target.process_start_time is Some && observed.process_start_time is Some
        ==> target.process_start_time->0 == observed.process_start_time->0
    &&& target.profile_directory is Some && observed.profile_directory is Some
        ==> identity::options_agree(target.profile_directory, observed.profile_directory)
    &&& {
        ||| identity::is_known(target.stable_id) || identity::is_known(current.stable_id)
        ||| identity::is_process_only(target, observed)
        ||| target.profile_directory is Some
        ||| identity::has_identity(target) && identity::exact_identity(target, observed) is None
    }
}

/// A free window may be the saved one, but nothing proves it.
pub open spec fn has_unavailable(
    target: SessionClientView,
    existing: Seq<ObservedClientView>,
    consumed: Seq<ObservedClientView>,
    settings: ConfigView,
) -> bool {
    exists|i: int|
        0 <= i < existing.len() && is_rival(target, #[trigger] existing[i], consumed, settings)
            && is_unavailable(target, existing[i])
}

fn is_free_rival(
    target: &SessionClient,
    window: &ObservedClient,
    consumed: &ConsumedWindows,
    config: &Config,
) -> (r: bool)
    ensures
        r == is_rival(target@, window@, consumed@, config@),
{
    !consumed.contains(window) && windows::client_is_heeded(&window.client, config)
        && identity::classes_match(target, &window.client)
}

/// Tells whether some free window is of the same application.
pub fn has_unmatched_same_class_candidate(
    target: &SessionClient,
    existing: &[ObservedClient],
    consumed: &ConsumedWindows,
    config: &Config,
) -> (r: bool)
    ensures
        r == has_rival(target@, existing.deep_view(), consumed@, config@),
{
    let ghost all = existing.deep_view();
    let mut i: usize = 0;
    while i < existing.len()
        invariant
            i <= existing.len(),
            all == existing.deep_view(),
            forall|k: int|
                0 <= k < i ==> !is_rival(target@, #[trigger] all[k], consumed@, config@),
        decreases existing.len() - i,
    {
        assert(all[i as int] == existing[i as int]@);
        if is_free_rival(target, &existing[i], consumed, config) {
            return true;
        }
        i += 1;
    }
    false
}

/// Tells whether a free Brave window may be of any profile.
pub fn has_ambiguous_profile_candidate(
    target: &SessionClient,
    existing: &[ObservedClient],
    consumed: &ConsumedWindows,
    config: &Config,
) -> (r: bool)
    ensures
        r == has_ambiguous_profile(target@, existing.deep_view(), consumed@, config@),
{
    if !launch::is_brave_client(target) {
        return false;
    }
    let ghost all = existing.deep_view();
    let mut i: usize = 0;
    while i < existing.len()
        invariant
            i <= existing.len(),
            all == existing.deep_view(),
            launch::is_brave(target@),
            forall|k: int|
                0 <= k < i ==> !(is_rival(target@, #[trigger] all[k], consumed@, config@)
                    && all[k].profile_identity_ambiguous),
        decreases existing.len() - i,
    {
        assert(all[i as int] == existing[i as int]@);
        if is_free_rival(target, &existing[i], consumed, config)
            && existing[i].profile_identity_ambiguous {
            return true;
        }
        i += 1;
    }
    false
}

/// Tells whether a free Chromium window may be the one that is meant.
pub fn has_ambiguous_generic_chromium_candidate(
    target: &SessionClient,
    existing: &[ObservedClient],
    consumed: &ConsumedWindows,
    config: &Config,
) -> (r: bool)
    ensures
        r == has_ambiguous_chromium(target@, existing.deep_view(), consumed@, config@),
{
    identity::is_generic_chromium_client(target) && has_unmatched_same_class_candidate(
        target,
        existing,
        consumed,
        config,
    )
}

/// Return true when a current same-address window may still be the captured
/// target, but the identity evidence needed to prove that is unavailable.
/// Callers must skip it rather than launching a duplicate.
pub fn identity_unavailable_for_same_address(
    target: &SessionClient,
    observed: &ObservedClient,
) -> (r: bool)
    ensures
        r == is_unavailable(target@, observed@),
{
    let current = &observed.client;
    if !identity::saved_address_is(target, current.address.as_str()) {
        return false;
    }
    let target_known = identity::is_present(&target.stable_id);
    let current_known = identity::is_present(&current.stable_id);
    if target_known && current_known {
        return false;
    }
    if let Some(pid) = target.pid {
        if pid != current.pid {
            return false;
        }
    }
    if let (Some(saved), Some(now)) = (target.process_start_time, observed.process_start_time) {
        if saved != now {
            return false;
        }
    }
    if target.profile_directory.is_some() && observed.profile_directory.is_some()
        && !identity::same_options(&target.profile_directory, &observed.profile_directory) {
        return false;
    }
    if target_known || current_known {
        return true;
    }
    if identity::window_identity_is_process_only(target, observed) {
        return true;
    }
    target.profile_directory.is_some() || (identity::target_has_identity_evidence(target)
        && identity::exact_window_identity_matches(target, observed).is_none())
}

/// Tells whether a free window may be the saved one while nothing proves it.
pub fn has_unavailable_identity_candidate(
    target: &SessionClient,
    existing: &[ObservedClient],
    consumed: &ConsumedWindows,
    config: &Config,
) -> (r: bool)
    ensures
        r == has_unavailable(target@, existing.deep_view(), consumed@, config@),
{
    let ghost all = existing.deep_view();
    let mut i: usize = 0;
    while i < existing.len()
        invariant
            i <= existing.len(),
            all == existing.deep_view(),
            forall|k: int|
                0 <= k < i ==> !(is_rival(target@, #[trigger] all[k], consumed@, config@)
                    && is_unavailable(target@, all[k])),
        decreases existing.len() - i,
    {
        assert(all[i as int] == existing[i as int]@);
        if is_free_rival(target, &existing[i], consumed, config)
            && identity_unavailable_for_same_address(target, &existing[i]) {
            return true;
        }
        i += 1;
    }
    false
}

// ── Windows kept for others ────────────────────────────────────────────────

/// A window is kept for the target of a pair: it is the planned window, or
/// the planned window opened again.
pub open spec fn is_kept_for(
    pair: ReconcilePair,
    planned: Seq<ObservedClientView>,
    targets: Seq<SessionClientView>,
    window: ObservedClientView,
) -> bool {
    &&& pair.current_index < planned.len()
    &&& {
        ||| windows::is_same_taken(planned[pair.current_index as int], window)
        ||| pair.target_index < targets.len() && identity::is_relaunched(
            targets[pair.target_index as int],
            window,
        )
    }
}

/// A window is the one that is planned for the target at place `t`.
pub open spec fn is_planned_for(
    t: int,
    plan: Seq<Option<ReconcilePair>>,
    planned: Seq<ObservedClientView>,
    window: ObservedClientView,
) -> bool {
    &&& 0 <= t < plan.len()
    &&& plan[t] is Some
    &&& plan[t]->0.current_index < planned.len()
    &&& windows::is_same_taken(planned[plan[t]->0.current_index as int], window)
}

/// A window is kept for a target after place `t`: it is not the one that is
/// planned for the target at that place.
pub open spec fn is_kept_after(
    t: int,
    plan: Seq<Option<ReconcilePair>>,
    planned: Seq<ObservedClientView>,
    targets: Seq<SessionClientView>,
    window: ObservedClientView,
) -> bool {
    &&& !is_planned_for(t, plan, planned, window)
    &&& exists|k: int|
        t < k < plan.len() && (#[trigger] plan[k]) is Some && is_kept_for(
            plan[k]->0,
            planned,
            targets,
            window,
        )
}

/// An address at which a window stands that is kept for a later target.
pub open spec fn is_reserved(
    t: int,
    plan: Seq<Option<ReconcilePair>>,
    planned: Seq<ObservedClientView>,
    current: Seq<ObservedClientView>,
    targets: Seq<SessionClientView>,
    address: Seq<char>,
) -> bool {
    exists|c: int|
        0 <= c < current.len() && (#[trigger] current[c]).client.address == address
            && is_kept_after(t, plan, planned, targets, current[c])
}

/// The addresses at which windows stand that are kept for later targets.
pub open spec fn reserved_addresses(
    t: int,
    plan: Seq<Option<ReconcilePair>>,
    planned: Seq<ObservedClientView>,
    current: Seq<ObservedClientView>,
    targets: Seq<SessionClientView>,
) -> Set<Seq<char>> {
    Set::new(|a: Seq<char>| is_reserved(t, plan, planned, current, targets, a))
}

fn kept_after(
    target_index: usize,
    plan: &[Option<ReconcilePair>],
    planned: &[ObservedClient],
    targets: &[SessionClient],
    window: &ObservedClient,
) -> (r: bool)
    requires
        target_index < plan.len(),
    ensures
        r == is_kept_after(
            target_index as int,
            plan@,
            planned.deep_view(),
            targets.deep_view(),
            window@,
        ),
{
    let ghost before = planned.deep_view();
    let ghost wanted = targets.deep_view();
    if let Some(pair) = plan[target_index] {
        if pair.current_index < planned.len() {
            assert(before[pair.current_index as int] == planned[pair.current_index as int]@);
            if windows::taken_windows_are_same(&planned[pair.current_index], window) {
                return false;
            }
        }
    }
    let mut k: usize = target_index + 1;
    while k < plan.len()
        invariant
            target_index < k <= plan.len(),
            !is_planned_for(target_index as int, plan@, planned.deep_view(), window@),
            before == planned.deep_view(),
            wanted == targets.deep_view(),
            forall|j: int|
                target_index < j < k ==> !((#[trigger] plan@[j]) is Some && is_kept_for(
                    plan@[j]->0,
                    before,
                    wanted,
                    window@,
                )),
        decreases plan.len() - k,
    {
        if let Some(pair) = plan[k] {
            if pair.current_index < planned.len() {
                assert(before[pair.current_index as int] == planned[pair.current_index as int]@);
                let mut kept = windows::taken_windows_are_same(
                    &planned[pair.current_index],
                    window,
                );
                if !kept && pair.target_index < targets.len() {
                    assert(wanted[pair.target_index as int] == targets[pair.target_index as int]@);
                    kept = identity::relaunch_fallback_identity_matches(
                        &targets[pair.target_index],
                        window,
                    );
                }
                if kept {
                    assert(plan@[k as int] == Some(pair));
                    return true;
                }
            }
        }
        k += 1;
    }
    false
}

/// Preserve the one-to-one assignment made for later targets while an
/// earlier target is being refreshed.  If the earlier window disappears, a
/// broad fallback must not steal the later window and then launch a duplicate
/// for that later target.  The window that is planned for the earlier target
/// itself is not reserved, however much it looks like a later one.
pub fn reserved_planned_addresses(
    target_index: usize,
    plan: &[Option<ReconcilePair>],
    planned_observed: &[ObservedClient],
    current: &[ObservedClient],
    targets: &[SessionClient],
) -> (r: TextSet)
    requires
        target_index < plan.len(),
    ensures
        r@ == reserved_addresses(
            target_index as int,
            plan@,
            planned_observed.deep_view(),
            current.deep_view(),
            targets.deep_view(),
        ),
{
    let ghost t = target_index as int;
    let ghost before = planned_observed.deep_view();
    let ghost here = current.deep_view();
    let ghost wanted = targets.deep_view();
    let mut reserved = TextSet::new();
    let mut c: usize = 0;
    assert(reserved@ =~= reserved_addresses(t, plan@, before, here.take(0), wanted));
    while c < current.len()
        invariant
            c <= current.len(),
            t == target_index,
            target_index < plan.len(),
            before == planned_observed.deep_view(),
            here == current.deep_view(),
            wanted == targets.deep_view(),
            reserved@ == reserved_addresses(t, plan@, before, here.take(c as int), wanted),
        decreases current.len() - c,
    {
        let window = &current[c];
        assert(here[c as int] == window@);
        let ghost head = here.take(c as int);
        let ghost more = here.take(c + 1);
        let kept = kept_after(target_index, plan, planned_observed, targets, window);
        proof {
            assert(more =~= head.push(here[c as int]));
            assert forall|a: Seq<char>| #[trigger]
                is_reserved(t, plan@, before, more, wanted, a) == (is_reserved(
                    t,
                    plan@,
                    before,
                    head,
                    wanted,
                    a,
                ) || (kept && a == window@.client.address)) by {
                if is_reserved(t, plan@, before, head, wanted, a) {
                    let k = choose|k: int|
                        0 <= k < head.len() && (#[trigger] head[k]).client.address == a
                            && is_kept_after(t, plan@, before, wanted, head[k]);
                    assert(more[k] == head[k]);
                }
                if kept && a == window@.client.address {
                    assert(more[c as int] == window@);
                }
                if is_reserved(t, plan@, before, more, wanted, a) {
                    let k = choose|k: int|
                        0 <= k < more.len() && (#[trigger] more[k]).client.address == a
                            && is_kept_after(t, plan@, before, wanted, more[k]);
                    if k < c {
                        assert(head[k] == more[k]);
                    }
                }
            }
        }
        if kept {
            reserved.insert(window.client.address.clone());
        }
        assert(reserved@ =~= reserved_addresses(t, plan@, before, more, wanted));
        c += 1;
    }
    assert(here.take(c as int) =~= here);
    reserved
}

/// The addresses at which windows stand that were not there before.
pub open spec fn new_addresses(
    baseline: Seq<ObservedClientView>,
    current: Seq<ObservedClientView>,
) -> Set<Seq<char>> {
    Set::new(
        |a: Seq<char>|
            exists|c: int|
                0 <= c < current.len() && (#[trigger] current[c]).client.address == a
                    && !windows::is_one_of(baseline, current[c]),
    )
}

/// Protects the windows that were not there before.
pub fn protect_windows_created_after(
    baseline: &[ObservedClient],
    current: &[ObservedClient],
    protected_addresses: &mut TextSet,
)
    ensures
        final(protected_addresses)@ == old(protected_addresses)@.union(
            new_addresses(baseline.deep_view(), current.deep_view()),
        ),
{
    let ghost base = baseline.deep_view();
    let ghost here = current.deep_view();
    let ghost before = protected_addresses@;
    let mut c: usize = 0;
    assert(before.union(new_addresses(base, here.take(0))) =~= before);
    while c < current.len()
        invariant
            c <= current.len(),
            base == baseline.deep_view(),
            here == current.deep_view(),
            protected_addresses@ == before.union(new_addresses(base, here.take(c as int))),
        decreases current.len() - c,
    {
        let window = &current[c];
        assert(here[c as int] == window@);
        let ghost head = here.take(c as int);
        let ghost more = here.take(c + 1);
        let fresh = !windows::lists_window(baseline, window);
        proof {
            assert(more =~= head.push(here[c as int]));
            assert forall|a: Seq<char>| #[trigger]
                new_addresses(base, more).contains(a) == (new_addresses(base, head).contains(a)
                    || (fresh && a == window@.client.address)) by {
                if new_addresses(base, head).contains(a) {
                    let k = choose|k: int|
                        0 <= k < head.len() && (#[trigger] head[k]).client.address == a
                            && !windows::is_one_of(base, head[k]);
                    assert(more[k] == head[k]);
                }
                if fresh && a == window@.client.address {
                    assert(more[c as int] == window@);
                }
                if new_addresses(base, more).contains(a) {
                    let k = choose|k: int|
                        0 <= k < more.len() && (#[trigger] more[k]).client.address == a
                            && !windows::is_one_of(base, more[k]);
                    if k < c {
                        assert(head[k] == more[k]);
                    }
                }
            }
        }
        if fresh {
            protected_addresses.insert(window.client.address.clone());
        }
        assert(protected_addresses@ =~= before.union(new_addresses(base, more)));
        c += 1;
    }
    assert(here.take(c as int) =~= here);
}

} // verus!
