//! Windows that are taken, and evidence that windows are the same.

use crate::config;
use crate::config::Config;
use crate::hyprctl::{HyprClient, HyprClientView};
use crate::restore::identity;
use crate::restore::identity::{MatchKind, MatchPolicy, ObservedClient, ObservedClientView};
use crate::restore::launch;
use crate::session::{SessionClient, SessionClientView};
use crate::text;
use vstd::prelude::*;

verus! {

// ── The same window, seen twice ────────────────────────────────────────────

/// Two observations are of one window.  A stable ID decides where both carry
/// one; a stable ID or a start time on one side only proves nothing.
pub open spec fn is_same_window(a: ObservedClientView, b: ObservedClientView) -> bool {
    if identity::is_known(a.client.stable_id) && identity::is_known(b.client.stable_id) {
        text::same_ignoring_case(a.client.stable_id->0, b.client.stable_id->0)
    } else {
        &&& !identity::is_known(a.client.stable_id)
        &&& !identity::is_known(b.client.stable_id)
        &&& a.process_start_time is None
        &&& b.process_start_time is None
        &&& a.client.address == b.client.address
        &&& a.client.pid == b.client.pid
    }
}

/// Two observations are of one window as far as taking it goes.  A stable ID
/// decides where both carry one, and on one side only it proves nothing.
/// Without one, the address, the PID and the start times that are known decide.
pub open spec fn is_same_taken(a: ObservedClientView, b: ObservedClientView) -> bool {
    if identity::is_known(a.client.stable_id) && identity::is_known(b.client.stable_id) {
        text::same_ignoring_case(a.client.stable_id->0, b.client.stable_id->0)
    } else {
        &&& !identity::is_known(a.client.stable_id)
        &&& !identity::is_known(b.client.stable_id)
        &&& a.client.address == b.client.address
        &&& a.client.pid == b.client.pid
        &&& a.process_start_time is Some && b.process_start_time is Some
            ==> a.process_start_time == b.process_start_time
    }
}

/// Some window of a list is this one.
pub open spec fn is_one_of(windows: Seq<ObservedClientView>, window: ObservedClientView) -> bool {
    exists|i: int| 0 <= i < windows.len() && is_same_window(#[trigger] windows[i], window)
}

/// A window is among the taken ones.
pub open spec fn is_taken(windows: Seq<ObservedClientView>, window: ObservedClientView) -> bool {
    exists|i: int| 0 <= i < windows.len() && is_same_taken(#[trigger] windows[i], window)
}

/// Taken windows after one more is taken.
pub open spec fn with_window(
    windows: Seq<ObservedClientView>,
    window: ObservedClientView,
) -> Seq<ObservedClientView> {
    if is_taken(windows, window) {
        windows
    } else {
        windows.push(window)
    }
}

/// Tells whether two observations are of one window.
pub fn observed_windows_are_same(left: &ObservedClient, right: &ObservedClient) -> (r: bool)
    ensures
        r == is_same_window(left@, right@),
{
    let left_known = identity::is_present(&left.client.stable_id);
    let right_known = identity::is_present(&right.client.stable_id);
    if left_known && right_known {
        return match (&left.client.stable_id, &right.client.stable_id) {
            (Some(a), Some(b)) => text::eq_ignore_case(a.as_str(), b.as_str()),
            _ => false,
        };
    }
    if left_known || right_known {
        // A compositor response which loses a previously visible stable ID is
        // incomplete.
        return false;
    }
    if left.process_start_time.is_some() || right.process_start_time.is_some() {
        // The start time identifies the process, not the window.
        return false;
    }
    text::same(left.client.address.as_str(), right.client.address.as_str()) && left.client.pid
        == right.client.pid
}

/// Tells whether two observations are of one window as far as taking it goes.
pub fn taken_windows_are_same(left: &ObservedClient, right: &ObservedClient) -> (r: bool)
    ensures
        r == is_same_taken(left@, right@),
{
    let left_known = identity::is_present(&left.client.stable_id);
    let right_known = identity::is_present(&right.client.stable_id);
    if left_known && right_known {
        return match (&left.client.stable_id, &right.client.stable_id) {
            (Some(a), Some(b)) => text::eq_ignore_case(a.as_str(), b.as_str()),
            _ => false,
        };
    }
    if left_known || right_known || left.client.pid != right.client.pid || !text::same(
        left.client.address.as_str(),
        right.client.address.as_str(),
    ) {
        return false;
    }
    match (left.process_start_time, right.process_start_time) {
        (Some(a), Some(b)) => a == b,
        // A start time that cannot be read for a moment must not make one
        // live window look new.
        _ => true,
    }
}

/// Tells whether some window of a list is this one.
pub fn lists_window(windows: &[ObservedClient], window: &ObservedClient) -> (r: bool)
    ensures
        r == is_one_of(windows.deep_view(), window@),
{
    let ghost all = windows.deep_view();
    let mut i: usize = 0;
    while i < windows.len()
        invariant
            i <= windows.len(),
            all == windows.deep_view(),
            forall|k: int| 0 <= k < i ==> !is_same_window(#[trigger] all[k], window@),
        decreases windows.len() - i,
    {
        assert(all[i as int] == windows[i as int]@);
        if observed_windows_are_same(&windows[i], window) {
            return true;
        }
        i += 1;
    }
    false
}

/// Windows consumed during one pass.  Process metadata can be temporarily
/// partial between compositor refreshes, so that comparing all of it would
/// allow one live window to be consumed twice.  The stable ID decides where
/// both observations carry one; where none does, the address, the PID and any
/// start time that is known are a conservative fallback.
#[derive(Debug)]
pub struct ConsumedWindows {
    entries: Vec<ObservedClient>,
}

impl View for ConsumedWindows {
    type V = Seq<ObservedClientView>;

    closed spec fn view(&self) -> Seq<ObservedClientView> {
        self.entries.deep_view()
    }
}

impl Default for ConsumedWindows {
    fn default() -> (r: Self)
        ensures
            r@ == Seq::<ObservedClientView>::empty(),
    {
        let r = ConsumedWindows { entries: Vec::new() };
        assert(r@ =~= Seq::<ObservedClientView>::empty());
        r
    }
}

impl ConsumedWindows {
    /// Tells whether a window is consumed.
    pub fn contains(&self, observed: &ObservedClient) -> (r: bool)
        ensures
            r == is_taken(self@, observed@),
    {
        let ghost all = self.entries.deep_view();
        let mut i: usize = 0;
        while i < self.entries.len()
            invariant
                i <= self.entries.len(),
                all == self.entries.deep_view(),
                forall|k: int| 0 <= k < i ==> !is_same_taken(#[trigger] all[k], observed@),
            decreases self.entries.len() - i,
        {
            assert(all[i as int] == self.entries[i as int]@);
            if taken_windows_are_same(&self.entries[i], observed) {
                return true;
            }
            i += 1;
        }
        false
    }

    /// How many windows are consumed.
    pub fn len(&self) -> (r: usize)
        ensures
            r == self@.len(),
    {
        self.entries.len()
    }

    /// Consumes a window.
    pub fn insert(&mut self, observed: &ObservedClient)
        ensures
            final(self)@ == with_window(old(self)@, observed@),
    {
        let ghost before = self@;
        if !self.contains(observed) {
            let copy = observed.clone();
            self.entries.push(copy);
            assert(self@ =~= before.push(observed@));
        }
    }
}

/// What is consumed stays consumed, and consuming a window that is consumed
/// changes nothing.
pub proof fn law_consumed_windows_stay_consumed(
    windows: Seq<ObservedClientView>,
    window: ObservedClientView,
    other: ObservedClientView,
)
    ensures
        is_taken(windows, other) ==> is_taken(with_window(windows, window), other),
        is_taken(windows, window) ==> with_window(windows, window) == windows,
{
    let after = with_window(windows, window);
    if is_taken(windows, other) {
        let i = choose|i: int| 0 <= i < windows.len() && is_same_taken(#[trigger] windows[i], other);
        assert(is_same_taken(after[i], other));
    }
}

/// A window counts as consumed once it was consumed, also where its start time
/// cannot be read when it is seen again, so it is never consumed twice.
pub proof fn law_window_is_consumed_once(
    windows: Seq<ObservedClientView>,
    window: ObservedClientView,
    again: ObservedClientView,
)
    requires
        again.client == window.client,
        again.process_start_time == window.process_start_time || again.process_start_time is None,
    ensures
        is_taken(with_window(windows, window), again),
        with_window(with_window(windows, window), again) == with_window(windows, window),
{
    let after = with_window(windows, window);
    assert(is_same_taken(window, again));
    if is_taken(windows, window) {
        let i = choose|i: int|
            0 <= i < windows.len() && is_same_taken(#[trigger] windows[i], window);
        assert(is_same_taken(after[i], again));
    } else {
        assert(after.last() == window);
        assert(is_same_taken(after[after.len() - 1], again));
    }
}

/// What is surely one window counts as one window when it is taken.
pub proof fn law_same_windows_are_taken_as_one(a: ObservedClientView, b: ObservedClientView)
    ensures
        is_same_window(a, b) ==> is_same_taken(a, b),
        is_same_taken(a, b) == is_same_taken(b, a),
        is_same_taken(a, a),
{
}

/// Missing metadata is never positive identity: a stable ID on one side alone
/// speaks for no match.
pub proof fn law_missing_stable_id_proves_nothing(a: ObservedClientView, b: ObservedClientView)
    requires
        identity::is_known(a.client.stable_id) != identity::is_known(b.client.stable_id),
    ensures
        !is_same_window(a, b),
        !is_same_window(b, a),
        !is_same_taken(a, b),
        !is_same_taken(b, a),
{
}

// ── Matches that are allowed ───────────────────────────────────────────────

/// The title of a window changed although its initial title is the saved one,
/// and nothing else identifies it.
pub open spec fn is_ambiguous_title(
    target: SessionClientView,
    observed: ObservedClientView,
) -> bool {
    let current = observed.client;
    &&& target.profile_directory is None
    &&& identity::saved_directory(target) is None
    &&& identity::agree(target.initial_title, current.initial_title)
    &&& target.title.len() > 0
    &&& current.title.len() > 0
    &&& !identity::agree(target.title, current.title)
    &&& !identity::similar(target.title, current.title)
}

/// Tells whether a title is no evidence for a conservative pass.
pub fn ambiguous_title_identity(target: &SessionClient, observed: &ObservedClient) -> (r: bool)
    ensures
        r == is_ambiguous_title(target@, observed@),
{
    let current = &observed.client;
    target.profile_directory.is_none() && identity::launch_cwd(target).is_none()
        && identity::same_nonempty(
        target.initial_title.as_str(),
        current.initial_title.as_str(),
    ) && !target.title.as_str().is_empty() && !current.title.as_str().is_empty()
        && !identity::same_nonempty(target.title.as_str(), current.title.as_str())
        && !identity::titles_similar(target.title.as_str(), current.title.as_str())
}

/// A window at another address is surely the saved one opened again: the
/// profile of a browser, the class of a web application, or directory,
/// program, and title together.
pub open spec fn is_surely_relaunched(
    target: SessionClientView,
    observed: ObservedClientView,
) -> bool {
    &&& identity::is_known(target.address)
    &&& !identity::is_at_saved_address(target, observed.client.address)
    &&& identity::classes_agree(target, observed.client)
    &&& !identity::is_chromium(target)
    &&& if launch::is_brave(target) {
        identity::profiles_agree(target, observed)
    } else if launch::is_webapp(target) {
        true
    } else {
        identity::directories_agree(target, observed) && identity::programs_agree(
            target,
            observed,
        ) && identity::titles_agree(target, observed.client)
    }
}

/// A window is surely one of a completed replacement.
pub open spec fn completes(target: SessionClientView, observed: ObservedClientView) -> bool {
    if identity::is_at_saved_address(target, observed.client.address) {
        identity::stable_identity(target, observed) == Some(true)
    } else {
        is_surely_relaunched(target, observed)
    }
}

fn replacement_relaunch_identity_matches(
    target: &SessionClient,
    observed: &ObservedClient,
) -> (r: bool)
    ensures
        r == is_surely_relaunched(target@, observed@),
{
    if !identity::is_present(&target.address) || identity::saved_address_is(
        target,
        observed.client.address.as_str(),
    ) || !identity::classes_match(target, &observed.client) {
        return false;
    }
    if identity::is_generic_chromium_client(target) {
        return false;
    }
    if launch::is_brave_client(target) {
        return identity::profile_matches(target, observed);
    }
    if launch::is_webapp_class(target) {
        // The class of a web application encodes its site and profile.
        return true;
    }
    identity::cwd_matches(target, observed) && identity::process_command_matches_target(
        target,
        observed,
    ) && identity::title_identity_agrees(target, &observed.client)
}

/// Tells whether a window is surely one of a completed replacement.
pub fn replacement_completion_identity_matches(
    target: &SessionClient,
    observed: &ObservedClient,
) -> (r: bool)
    ensures
        r == completes(target@, observed@),
{
    if identity::saved_address_is(target, observed.client.address.as_str()) {
        match identity::stable_identity_matches(target, observed) {
            Some(same) => same,
            None => false,
        }
    } else {
        replacement_relaunch_identity_matches(target, observed)
    }
}

/// The score and the reason of a match that may be made, and that is not
/// ambiguous where that is not allowed.
pub open spec fn allowed_value(
    target: SessionClientView,
    observed: ObservedClientView,
    allow_ambiguous: bool,
    policy: MatchPolicy,
) -> Option<(int, MatchKind)> {
    if policy is ReplacementCompletion && !completes(target, observed) {
        None
    } else {
        match identity::match_value(target, observed, policy) {
            Some((score, kind)) => if !allow_ambiguous && (kind is ClassFallback
                || is_ambiguous_title(target, observed)) {
                None
            } else {
                Some((score, kind))
            },
            None => None,
        }
    }
}

/// The score of a match under a policy.
pub fn allowed_match_with_policy(
    target: &SessionClient,
    observed: &ObservedClient,
    allow_ambiguous_identity: bool,
    policy: MatchPolicy,
) -> (r: Option<(i32, MatchKind)>)
    ensures
        identity::value_view(r) == allowed_value(
            target@,
            observed@,
            allow_ambiguous_identity,
            policy,
        ),
{
    if policy == MatchPolicy::ReplacementCompletion && !replacement_completion_identity_matches(
        target,
        observed,
    ) {
        return None;
    }
    match identity::match_score_with_policy(target, observed, policy) {
        Some((score, kind)) => {
            if !allow_ambiguous_identity && (kind == MatchKind::ClassFallback
                || ambiguous_title_identity(target, observed)) {
                None
            } else {
                Some((score, kind))
            }
        },
        None => None,
    }
}

/// The score of an ordinary match.
pub fn allowed_match(
    target: &SessionClient,
    observed: &ObservedClient,
    allow_ambiguous_identity: bool,
) -> (r: Option<(i32, MatchKind)>)
    ensures
        identity::value_view(r) == allowed_value(
            target@,
            observed@,
            allow_ambiguous_identity,
            MatchPolicy::Normal,
        ),
{
    allowed_match_with_policy(target, observed, allow_ambiguous_identity, MatchPolicy::Normal)
}

/// An open window cannot be told from one that stood there before a
/// replacement.
pub open spec fn resembles(saved: SessionClientView, observed: ObservedClientView) -> bool {
    let current = observed.client;
    &&& identity::classes_agree(saved, current)
    &&& {
        ||| identity::exact_identity(saved, observed) == Some(true)
            && identity::is_at_saved_address(saved, current.address)
        ||| identity::agree(saved.title, current.title) && (saved.initial_title.len() == 0
            || current.initial_title.len() == 0 || identity::agree(
            saved.initial_title,
            current.initial_title,
        ))
        ||| identity::agree(saved.initial_title, current.initial_title)
            && identity::directories_agree(saved, observed)
    }
}

/// Tells whether an open window resembles one of a safety snapshot.
pub fn replacement_safety_identity_matches(
    safety_client: &SessionClient,
    observed: &ObservedClient,
) -> (r: bool)
    ensures
        r == resembles(safety_client@, observed@),
{
    let current = &observed.client;
    if !identity::classes_match(safety_client, current) {
        return false;
    }
    let same = match identity::exact_window_identity_matches(safety_client, observed) {
        Some(same) => same,
        None => false,
    };
    if same && identity::saved_address_is(safety_client, current.address.as_str()) {
        return true;
    }
    let initial_agrees = identity::same_nonempty(
        safety_client.initial_title.as_str(),
        current.initial_title.as_str(),
    );
    identity::same_nonempty(safety_client.title.as_str(), current.title.as_str()) && (
    safety_client.initial_title.as_str().is_empty() || current.initial_title.as_str().is_empty()
        || initial_agrees) || (initial_agrees && identity::cwd_matches(safety_client, observed))
}

// ── Ordinary Chromium windows ──────────────────────────────────────────────

/// How many of the first windows are the saved Chromium window.
pub open spec fn chromium_count(
    target: SessionClientView,
    windows: Seq<ObservedClientView>,
) -> nat
    decreases windows.len(),
{
    if windows.len() == 0 {
        0
    } else {
        chromium_count(target, windows.drop_last()) + if identity::classes_agree(
            target,
            windows.last().client,
        ) && identity::is_same_chromium(target, windows.last().client) {
            1nat
        } else {
            0
        }
    }
}

/// The one window that is the saved Chromium window stands at an address.
pub open spec fn is_only_chromium(
    target: SessionClientView,
    address: Seq<char>,
    windows: Seq<ObservedClientView>,
) -> bool {
    &&& chromium_count(target, windows) == 1
    &&& exists|i: int|
        {
            &&& 0 <= i < windows.len()
            &&& identity::classes_agree(target, (#[trigger] windows[i]).client)
            &&& identity::is_same_chromium(target, windows[i].client)
            &&& windows[i].client.address == address
        }
}

/// A match with an ordinary Chromium window is safe where no other window may
/// be meant.
pub open spec fn chromium_is_safe(
    target: SessionClientView,
    address: Seq<char>,
    windows: Seq<ObservedClientView>,
) -> bool {
    identity::is_chromium(target) ==> is_only_chromium(target, address, windows)
}

/// Tells whether a match with an ordinary Chromium window is safe.
pub fn generic_chromium_match_is_safe(
    target: &SessionClient,
    observed: &ObservedClient,
    candidates: &[ObservedClient],
) -> (r: bool)
    ensures
        r == chromium_is_safe(target@, observed@.client.address, candidates.deep_view()),
{
    if !identity::is_generic_chromium_client(target) {
        return true;
    }
    let ghost all = candidates.deep_view();
    let ghost address = observed@.client.address;
    let mut count: usize = 0;
    let mut here = false;
    let mut i: usize = 0;
    assert(all.take(0) =~= Seq::<ObservedClientView>::empty());
    while i < candidates.len()
        invariant
            i <= candidates.len(),
            all == candidates.deep_view(),
            address == observed@.client.address,
            count <= i,
            count == chromium_count(target@, all.take(i as int)),
            here == exists|k: int|
                {
                    &&& 0 <= k < i
                    &&& identity::classes_agree(target@, (#[trigger] all[k]).client)
                    &&& identity::is_same_chromium(target@, all[k].client)
                    &&& all[k].client.address == address
                },
        decreases candidates.len() - i,
    {
        let candidate = &candidates[i].client;
        assert(all[i as int] == candidates[i as int]@);
        assert(all.take(i + 1).drop_last() =~= all.take(i as int));
        assert(all.take(i + 1).last() == all[i as int]);
        if identity::classes_match(target, candidate) && identity::saved_address_is(
            target,
            candidate.address.as_str(),
        ) {
            count += 1;
            if text::same(candidate.address.as_str(), observed.client.address.as_str()) {
                here = true;
                assert(all[i as int].client.address == address);
            }
        }
        i += 1;
    }
    assert(all.take(i as int) =~= all);
    count == 1 && here
}

// ── Windows that are left alone ────────────────────────────────────────────

/// A window that belongs to no ignored application.
pub open spec fn is_heeded(settings: config::ConfigView, client: HyprClientView) -> bool {
    !config::ignores(settings.ignore_classes, client.class) && !config::ignores(
        settings.ignore_classes,
        client.initial_class,
    )
}

/// A saved window that belongs to no ignored application.
pub open spec fn is_wanted(settings: config::ConfigView, client: SessionClientView) -> bool {
    !config::ignores(settings.ignore_classes, client.class) && !config::ignores(
        settings.ignore_classes,
        client.initial_class,
    )
}

/// Tells whether an open window belongs to no ignored application.
pub fn client_is_heeded(client: &HyprClient, config: &Config) -> (r: bool)
    ensures
        r == is_heeded(config@, client@),
{
    !config::is_ignored_class(client.class.as_str(), config.filters.ignore_classes.as_slice())
        && !config::is_ignored_class(
        client.initial_class.as_str(),
        config.filters.ignore_classes.as_slice(),
    )
}

/// Tells whether a saved window belongs to no ignored application.
pub fn client_is_wanted(client: &SessionClient, config: &Config) -> (r: bool)
    ensures
        r == is_wanted(config@, client@),
{
    !config::is_ignored_class(client.class.as_str(), config.filters.ignore_classes.as_slice())
        && !config::is_ignored_class(
        client.initial_class.as_str(),
        config.filters.ignore_classes.as_slice(),
    )
}

} // verus!
