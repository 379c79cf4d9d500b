//! Finding the window of an application that was launched.

use crate::capture;
use crate::config::{
    Config, ConfigView, MAX_RESTORE_DELAY_MS, MAX_WINDOW_DETECT_TIMEOUT_MS,
    MIN_WINDOW_DETECT_TIMEOUT_MS,
};
use crate::hyprctl::{HyprClient, HyprClientView, HyprctlError};
use crate::lists;
use crate::lists::{Ordered, TextSet};
use crate::placement;
use crate::placement::{ReconcileGeometry, ReconcileGeometryView};
use crate::process;
use crate::process::{ProcessInfoProvider, ProfileDiscovery, ProfileDiscoveryView};
use crate::restore::identity;
use crate::restore::identity::{MatchPolicy, ObservedClient, ObservedClientView};
use crate::restore::launch;
use crate::restore::observe;
use crate::restore::report::{
    CompositorErrorView, LaunchedProcess, RestoreError, RestoreErrorView,
};
use crate::session::{SessionClient, SessionClientView};
use crate::text;
use vstd::prelude::*;

verus! {

// ── What is known of a candidate ───────────────────────────────────────────

/// A window that may be the launched one, and what is known of its process.
#[derive(Debug)]
pub struct Candidate {
    /// The window.
    pub client: HyprClient,
    /// Its process is the launched one or descends from it.
    pub related: bool,
    /// The browser profiles found in its process.
    pub discovery: ProfileDiscovery,
    /// The command line of its process.
    pub command: Option<String>,
}

#[verifier::ext_equal]
pub ghost struct CandidateView {
    pub client: HyprClientView,
    pub related: bool,
    pub discovery: ProfileDiscoveryView,
    pub command: Option<Seq<char>>,
}

impl View for Candidate {
    type V = CandidateView;

    open spec fn view(&self) -> CandidateView {
        CandidateView {
            client: self.client@,
            related: self.related,
            discovery: self.discovery@,
            command: self.command.deep_view(),
        }
    }
}

impl DeepView for Candidate {
    type V = CandidateView;

    open spec fn deep_view(&self) -> CandidateView {
        self@
    }
}

impl Clone for Candidate {
    fn clone(&self) -> (r: Self)
        ensures
            r@ == self@,
    {
        Candidate {
            client: self.client.clone(),
            related: self.related,
            discovery: ProfileDiscovery {
                profiles: text::copy_texts(self.discovery.profiles.as_slice()),
                complete: self.discovery.complete,
            },
            command: text::copy_option(&self.command),
        }
    }
}

/// The launched process is still the one that was launched.  A start time on
/// one side only proves nothing, nor do none where they can be relied on.
pub open spec fn is_same_root(launched: LaunchedProcess, state: observe::ProcessState) -> bool {
    match (launched.start_time, state.start_time) {
        (Some(expected), Some(actual)) => expected == actual,
        (None, None) => !state.reliable,
        _ => false,
    }
}

/// A process that may be told to be the launched one or to descend from it.
pub open spec fn may_be_related<P: ProcessInfoProvider + ?Sized>(
    provider: &P,
    launched: LaunchedProcess,
    pid: u32,
    related: bool,
) -> bool {
    match launched.pid {
        None => !related,
        Some(root) => exists|state: observe::ProcessState|
            {
                &&& #[trigger] observe::may_state(provider, root, state)
                &&& if !is_same_root(launched, state) {
                    !related
                } else if root == pid {
                    related
                } else {
                    call_ensures(P::is_process_related, (provider, root, pid), related)
                }
            },
    }
}

/// Tells whether a process is the launched one or descends from it.
pub fn launched_process_is_related<P: ProcessInfoProvider + ?Sized>(
    launched: &LaunchedProcess,
    candidate_pid: u32,
    process_info: &P,
) -> (r: bool)
    ensures
        may_be_related(process_info, *launched, candidate_pid, r),
{
    let root = match launched.pid {
        Some(root) => root,
        None => {
            return false;
        },
    };
    let state = observe::read_process_state(process_info, root);
    assert(observe::may_state(process_info, root, state));
    let same_root = match (launched.start_time, state.start_time) {
        (Some(expected), Some(actual)) => expected == actual,
        (None, None) => !state.reliable,
        _ => false,
    };
    if !same_root {
        return false;
    }
    if root == candidate_pid {
        return true;
    }
    process_info.is_process_related(root, candidate_pid)
}

/// What a provider may show of a candidate.
pub open spec fn may_examine<P: ProcessInfoProvider + ?Sized>(
    provider: &P,
    launched: LaunchedProcess,
    candidate: CandidateView,
) -> bool {
    &&& may_be_related(provider, launched, candidate.client.pid, candidate.related)
    &&& observe::may_discover(provider, candidate.client.pid, candidate.discovery)
    &&& observe::may_run(provider, candidate.client.pid, candidate.command)
}

/// Asks a provider about a window.
pub fn examine_candidate<P: ProcessInfoProvider + ?Sized>(
    client: HyprClient,
    launched: &LaunchedProcess,
    process_info: &P,
) -> (r: Candidate)
    ensures
        r@.client == client@,
        may_examine(process_info, *launched, r@),
{
    let related = launched_process_is_related(launched, client.pid, process_info);
    let discovery = process::find_profile_discovery(process_info, client.pid);
    let command = observe::observe_command(process_info, client.pid);
    Candidate { client, related, discovery, command }
}

// ── Profiles and handoffs ──────────────────────────────────────────────────

/// The profile of a candidate does not speak against it.  An incomplete
/// search speaks neither way.
pub open spec fn fits_profile(target: SessionClientView, found: ProfileDiscoveryView) -> bool {
    &&& !(launch::is_brave(target) && target.profile_identity_ambiguous)
    &&& target.profile_directory is Some && found.complete ==> exists|i: int|
        0 <= i < found.profiles.len() && text::same_ignoring_case(
            #[trigger] found.profiles[i],
            target.profile_directory->0,
        )
}

/// Tells whether the profile of a candidate does not speak against it.
pub fn candidate_matches_profile(target: &SessionClient, discovery: &ProfileDiscovery) -> (r: bool)
    ensures
        r == fits_profile(target@, discovery@),
{
    if launch::is_brave_client(target) && target.profile_identity_ambiguous {
        return false;
    }
    let wanted = match &target.profile_directory {
        Some(wanted) => wanted,
        None => {
            return true;
        },
    };
    if !discovery.complete {
        // Keep the candidate visible so that the search can end with an
        // explicit failure.
        return true;
    }
    let ghost all = discovery@.profiles;
    let mut i: usize = 0;
    while i < discovery.profiles.len()
        invariant
            i <= discovery.profiles.len(),
            all == discovery.profiles.deep_view(),
            target@.profile_directory == Some(wanted@),
            !(launch::is_brave(target@) && target@.profile_identity_ambiguous),
            forall|k: int| 0 <= k < i ==> !text::same_ignoring_case(#[trigger] all[k], wanted@),
        decreases discovery.profiles.len() - i,
    {
        assert(all[i as int] == discovery.profiles[i as int]@);
        if text::eq_ignore_case(discovery.profiles[i].as_str(), wanted.as_str()) {
            assert(discovery@.profiles[i as int] == all[i as int]);
            return true;
        }
        i += 1;
    }
    false
}

/// A browser may hand the launch of this window over to a process that was
/// running before, and the window can still be told.
pub open spec fn may_be_handed_over(target: SessionClientView) -> bool {
    launch::is_webapp(target) || (launch::is_brave(target) && identity::is_known(
        target.profile_directory,
    ) && !target.profile_identity_ambiguous)
}

/// Tells whether a browser may hand the launch of this window over.
pub fn browser_handoff_target_is_safe(client: &SessionClient) -> (r: bool)
    ensures
        r == may_be_handed_over(client@),
{
    launch::is_webapp_class(client) || (launch::is_brave_client(client) && identity::is_present(
        &client.profile_directory,
    ) && !client.profile_identity_ambiguous)
}

/// A window to which the launch was handed over: it is the focused one, it is
/// new or became focused, and the profile or the class agrees.
pub open spec fn is_handed_over(
    target: SessionClientView,
    candidate: CandidateView,
    before: Set<Seq<char>>,
    active_before: Option<Seq<char>>,
    active_after: Option<Seq<char>>,
) -> bool {
    let address = candidate.client.address;
    &&& may_be_handed_over(target)
    &&& identity::is_known(candidate.client.stable_id)
    &&& active_after is Some && identity::agree(active_after->0, address)
    &&& !before.contains(address) || (active_before is Some && !identity::agree(
        active_before->0,
        address,
    ))
    &&& if launch::is_brave(target) {
        &&& target.profile_directory is Some
        &&& candidate.discovery.complete
        &&& candidate.discovery.profiles.len() == 1
        &&& identity::agree(candidate.discovery.profiles[0], target.profile_directory->0)
    } else {
        identity::classes_agree(target, candidate.client)
    }
}

/// Tells whether the launch was handed over to a window.
pub fn browser_handoff_candidate_is_safe(
    target: &SessionClient,
    candidate: &Candidate,
    before: &TextSet,
    active_before: &Option<String>,
    active_after: &Option<String>,
) -> (r: bool)
    ensures
        r == is_handed_over(
            target@,
            candidate@,
            before@,
            active_before.deep_view(),
            active_after.deep_view(),
        ),
{
    let address = candidate.client.address.as_str();
    if !browser_handoff_target_is_safe(target) || !identity::is_present(
        &candidate.client.stable_id,
    ) {
        return false;
    }
    let focused = match active_after {
        Some(active) => identity::same_nonempty(active.as_str(), address),
        None => false,
    };
    if !focused {
        return false;
    }
    let became_focused = match active_before {
        Some(active) => !identity::same_nonempty(active.as_str(), address),
        None => false,
    };
    if before.contains(address) && !became_focused {
        return false;
    }
    if launch::is_brave_client(target) {
        let wanted = match &target.profile_directory {
            Some(wanted) => wanted,
            None => {
                return false;
            },
        };
        let profiles = &candidate.discovery.profiles;
        assert(candidate@.discovery.profiles.len() == profiles.len());
        if !candidate.discovery.complete || profiles.len() != 1 {
            return false;
        }
        assert(candidate@.discovery.profiles[0] == profiles[0]@);
        return identity::same_nonempty(profiles[0].as_str(), wanted.as_str());
    }
    identity::classes_match(target, &candidate.client)
}

// ── Choosing a candidate ───────────────────────────────────────────────────

/// A candidate as it is matched with the target.
pub open spec fn seen_candidate(candidate: CandidateView) -> ObservedClientView {
    let profile = process::only_profile(candidate.discovery.profiles);
    ObservedClientView {
        client: candidate.client,
        monitor_name: None,
        cwd: None,
        profile_directory: profile,
        process_start_time: None,
        profile_identity_ambiguous: capture::is_brave_window(candidate.client) && (profile is None
            || !candidate.discovery.complete),
        process_command: candidate.command,
    }
}

/// A candidate with its score.
pub struct Scored {
    /// What the match is worth.
    pub score: i32,
    /// The window.
    pub client: HyprClient,
}

#[verifier::ext_equal]
pub ghost struct ScoredView {
    pub score: int,
    pub client: HyprClientView,
}

impl View for Scored {
    type V = ScoredView;

    open spec fn view(&self) -> ScoredView {
        ScoredView { score: self.score as int, client: self.client@ }
    }
}

impl DeepView for Scored {
    type V = ScoredView;

    open spec fn deep_view(&self) -> ScoredView {
        self@
    }
}

/// The candidate worth most comes first, and among equals the one with the
/// first address.
impl Ordered for Scored {
    open spec fn precedes(a: ScoredView, b: ScoredView) -> bool {
        a.score > b.score || (a.score == b.score && text::comes_before(
            a.client.address,
            b.client.address,
        ))
    }

    fn goes_before(&self, other: &Self) -> (r: bool) {
        self.score > other.score || (self.score == other.score && text::is_before(
            self.client.address.as_str(),
            other.client.address.as_str(),
        ))
    }
}

/// The candidates that may be matched with the target, with their scores.
pub open spec fn scored_candidates(
    target: SessionClientView,
    candidates: Seq<CandidateView>,
) -> Seq<ScoredView>
    decreases candidates.len(),
{
    if candidates.len() == 0 {
        Seq::empty()
    } else {
        let before = scored_candidates(target, candidates.drop_last());
        let last = candidates.last();
        match identity::match_value(target, seen_candidate(last), MatchPolicy::Normal) {
            Some((score, _)) => before.push(ScoredView { score, client: last.client }),
            None => before,
        }
    }
}

/// The addresses of some windows as they are listed for the user.
pub open spec fn listed(clients: Seq<HyprClientView>) -> Seq<char> {
    text::joined(clients.map_values(|c: HyprClientView| c.address), ", "@)
}

/// The windows of candidates.
pub open spec fn clients_in(candidates: Seq<CandidateView>) -> Seq<HyprClientView> {
    candidates.map_values(|c: CandidateView| c.client)
}

/// The candidate that is worth most, if it is worth more than any other.
pub open spec fn best_candidate(
    target: SessionClientView,
    candidates: Seq<CandidateView>,
) -> Result<
    HyprClientView,
    RestoreErrorView,
> {
    let ranked = lists::sorted(
        scored_candidates(target, candidates),
        |a: ScoredView, b: ScoredView| Scored::precedes(a, b),
    );
    if ranked.len() == 0 {
        Err(
            RestoreErrorView::AmbiguousWindow {
                class: target.class,
                addresses: "no identifiable candidate"@,
            },
        )
    } else if ranked.len() > 1 && ranked[1].score == ranked[0].score {
        Err(
            RestoreErrorView::AmbiguousWindow {
                class: target.class,
                addresses: listed(ranked.map_values(|s: ScoredView| s.client)),
            },
        )
    } else {
        Ok(ranked[0].client)
    }
}

/// The candidates that the launched process opened.
pub open spec fn related_candidates(candidates: Seq<CandidateView>) -> Seq<CandidateView> {
    candidates.filter(|c: CandidateView| c.related)
}

/// The window that the launch opened.  With a launched process, a window of
/// another process counts only where the launch was handed over.
pub open spec fn launched_window(
    target: SessionClientView,
    candidates: Seq<CandidateView>,
    launched: LaunchedProcess,
    handed_over: bool,
) -> Result<HyprClientView, RestoreErrorView> {
    let fitting = candidates.filter(|c: CandidateView| fits_profile(target, c.discovery));
    let related = if launched.pid is Some {
        related_candidates(fitting)
    } else {
        Seq::empty()
    };
    let pool = if related.len() == 0 {
        fitting
    } else {
        related
    };
    if launched.pid is Some && related.len() == 0 && !handed_over {
        Err(RestoreErrorView::UncorrelatedWindow { class: target.class })
    } else if pool.len() == 1 {
        Ok(pool[0].client)
    } else {
        best_candidate(target, pool)
    }
}

fn see_candidate(candidate: &Candidate) -> (r: ObservedClient)
    ensures
        r@ == seen_candidate(candidate@),
{
    let profiles = &candidate.discovery.profiles;
    assert(candidate@.discovery.profiles.len() == profiles.len());
    let profile_directory = if profiles.len() == 1 {
        assert(candidate@.discovery.profiles[0] == profiles[0]@);
        Some(profiles[0].clone())
    } else {
        None
    };
    let ambiguous = capture::is_brave_client(&candidate.client) && (profile_directory.is_none()
        || !candidate.discovery.complete);
    ObservedClient {
        client: candidate.client.clone(),
        monitor_name: None,
        cwd: None,
        profile_directory,
        process_start_time: None,
        profile_identity_ambiguous: ambiguous,
        process_command: text::copy_option(&candidate.command),
    }
}

fn score_candidates(target: &SessionClient, candidates: &Vec<Candidate>) -> (r: Vec<Scored>)
    ensures
        r.deep_view() == scored_candidates(target@, candidates.deep_view()),
{
    let ghost all = candidates.deep_view();
    let mut out: Vec<Scored> = Vec::new();
    let mut i: usize = 0;
    assert(all.take(0) =~= Seq::<CandidateView>::empty());
    assert(out.deep_view() =~= Seq::<ScoredView>::empty());
    while i < candidates.len()
        invariant
            i <= candidates.len(),
            all == candidates.deep_view(),
            out.deep_view() == scored_candidates(target@, all.take(i as int)),
        decreases candidates.len() - i,
    {
        let candidate = &candidates[i];
        assert(all[i as int] == candidate@);
        assert(all.take(i + 1).drop_last() =~= all.take(i as int));
        assert(all.take(i + 1).last() == all[i as int]);
        let seen = see_candidate(candidate);
        if let Some((score, _)) = identity::match_score(target, &seen) {
            let scored = Scored { score, client: candidate.client.clone() };
            let ghost before = out.deep_view();
            out.push(scored);
            assert(out.deep_view() =~= before.push(scored@));
        }
        i += 1;
    }
    assert(all.take(i as int) =~= all);
    out
}

fn list_scored(ranked: &Vec<Scored>) -> (r: String)
    ensures
        r@ == listed(ranked.deep_view().map_values(|s: ScoredView| s.client)),
{
    let ghost clients = ranked.deep_view().map_values(|s: ScoredView| s.client);
    let ghost all = clients.map_values(|c: HyprClientView| c.address);
    let mut out: Vec<String> = Vec::new();
    let mut i: usize = 0;
    assert(out.deep_view() =~= all.take(0));
    while i < ranked.len()
        invariant
            i <= ranked.len(),
            clients == ranked.deep_view().map_values(|s: ScoredView| s.client),
            all == clients.map_values(|c: HyprClientView| c.address),
            out.deep_view() == all.take(i as int),
        decreases ranked.len() - i,
    {
        assert(ranked.deep_view()[i as int] == ranked[i as int]@);
        let address = ranked[i].client.address.clone();
        assert(all[i as int] == address@);
        let ghost before = out.deep_view();
        out.push(address);
        assert(out.deep_view() =~= before.push(address@));
        assert(all.take(i + 1) =~= before.push(all[i as int]));
        i += 1;
    }
    assert(all.take(i as int) =~= all);
    text::join(&out, ", ")
}

fn list_candidates(candidates: &Vec<Candidate>) -> (r: String)
    ensures
        r@ == listed(clients_in(candidates.deep_view())),
{
    let ghost clients = clients_in(candidates.deep_view());
    let ghost all = clients.map_values(|c: HyprClientView| c.address);
    let mut out: Vec<String> = Vec::new();
    let mut i: usize = 0;
    assert(out.deep_view() =~= all.take(0));
    while i < candidates.len()
        invariant
            i <= candidates.len(),
            clients == clients_in(candidates.deep_view()),
            all == clients.map_values(|c: HyprClientView| c.address),
            out.deep_view() == all.take(i as int),
        decreases candidates.len() - i,
    {
        assert(candidates.deep_view()[i as int] == candidates[i as int]@);
        let address = candidates[i].client.address.clone();
        assert(all[i as int] == address@);
        let ghost before = out.deep_view();
        out.push(address);
        assert(out.deep_view() =~= before.push(address@));
        assert(all.take(i + 1) =~= before.push(all[i as int]));
        i += 1;
    }
    assert(all.take(i as int) =~= all);
    text::join(&out, ", ")
}

fn choose_best(target: &SessionClient, candidates: &Vec<Candidate>) -> (r: Result<
    HyprClient,
    RestoreError,
>)
    ensures
        gives(r, best_candidate(target@, candidates.deep_view())),
{
    let scored = score_candidates(target, candidates);
    let ranked = lists::sort(scored);
    let ghost all = ranked.deep_view();
    assert(all.len() == ranked.len());
    if ranked.len() == 0 {
        return Err(
            RestoreError::AmbiguousWindow {
                class: target.class.clone(),
                addresses: "no identifiable candidate".to_owned(),
            },
        );
    }
    assert(all[0] == ranked[0]@);
    if ranked.len() > 1 {
        assert(all[1] == ranked[1]@);
        if ranked[1].score == ranked[0].score {
            return Err(
                RestoreError::AmbiguousWindow {
                    class: target.class.clone(),
                    addresses: list_scored(&ranked),
                },
            );
        }
    }
    Ok(ranked[0].client.clone())
}

/// A window or an error, as it should be.
pub open spec fn gives(
    r: Result<HyprClient, RestoreError>,
    expected: Result<HyprClientView, RestoreErrorView>,
) -> bool {
    match (r, expected) {
        (Ok(window), Ok(view)) => window@ == view,
        (Err(error), Err(problem)) => error@ == problem,
        _ => false,
    }
}

fn pick_fitting(target: &SessionClient, candidates: &Vec<Candidate>) -> (r: Vec<Candidate>)
    ensures
        r.deep_view() == candidates.deep_view().filter(
            |c: CandidateView| fits_profile(target@, c.discovery),
        ),
{
    let ghost all = candidates.deep_view();
    let ghost keep = |c: CandidateView| fits_profile(target@, c.discovery);
    let mut out: Vec<Candidate> = Vec::new();
    let mut i: usize = 0;
    proof {
        reveal(Seq::filter);
        assert(out.deep_view() =~= all.take(0).filter(keep));
    }
    while i < candidates.len()
        invariant
            i <= candidates.len(),
            all == candidates.deep_view(),
            keep == (|c: CandidateView| fits_profile(target@, c.discovery)),
            out.deep_view() == all.take(i as int).filter(keep),
        decreases candidates.len() - i,
    {
        let candidate = &candidates[i];
        let ghost before = out.deep_view();
        proof {
            lists::lemma_filter_step(all, keep, i as int);
            assert(all[i as int] == candidate@);
        }
        if candidate_matches_profile(target, &candidate.discovery) {
            let copy = candidate.clone();
            out.push(copy);
            assert(out.deep_view() =~= before.push(candidate@));
        }
        i += 1;
    }
    assert(all.take(all.len() as int) =~= all);
    out
}

fn pick_related(candidates: &Vec<Candidate>) -> (r: Vec<Candidate>)
    ensures
        r.deep_view() == related_candidates(candidates.deep_view()),
{
    let ghost all = candidates.deep_view();
    let ghost keep = |c: CandidateView| c.related;
    let mut out: Vec<Candidate> = Vec::new();
    let mut i: usize = 0;
    proof {
        reveal(Seq::filter);
        assert(out.deep_view() =~= all.take(0).filter(keep));
    }
    while i < candidates.len()
        invariant
            i <= candidates.len(),
            all == candidates.deep_view(),
            keep == (|c: CandidateView| c.related),
            out.deep_view() == all.take(i as int).filter(keep),
        decreases candidates.len() - i,
    {
        let candidate = &candidates[i];
        let ghost before = out.deep_view();
        proof {
            lists::lemma_filter_step(all, keep, i as int);
            assert(all[i as int] == candidate@);
        }
        if candidate.related {
            let copy = candidate.clone();
            out.push(copy);
            assert(out.deep_view() =~= before.push(candidate@));
        }
        i += 1;
    }
    assert(all.take(all.len() as int) =~= all);
    out
}

/// Chooses the window that a launch opened.
pub fn choose_launched_window(
    target: &SessionClient,
    candidates: &Vec<Candidate>,
    launched: LaunchedProcess,
    allow_unrelated_handoff: bool,
) -> (r: Result<HyprClient, RestoreError>)
    ensures
        gives(
            r,
            launched_window(target@, candidates.deep_view(), launched, allow_unrelated_handoff),
        ),
{
    let fitting = pick_fitting(target, candidates);
    let related = if launched.pid.is_some() {
        pick_related(&fitting)
    } else {
        Vec::new()
    };
    assert(launched.pid is None ==> related.deep_view() =~= Seq::<CandidateView>::empty());
    assert(related.deep_view().len() == related.len());
    assert(fitting.deep_view().len() == fitting.len());
    if launched.pid.is_some() && related.len() == 0 && !allow_unrelated_handoff {
        return Err(RestoreError::UncorrelatedWindow { class: target.class.clone() });
    }
    let pool = if related.len() == 0 {
        fitting
    } else {
        related
    };
    if pool.len() == 1 {
        assert(pool.deep_view()[0] == pool[0]@);
        return Ok(pool[0].client.clone());
    }
    choose_best(target, &pool)
}

// ── Waiting for the window ─────────────────────────────────────────────────

/// How long the window of a launch is waited for, in milliseconds.
pub open spec fn timeout_of(settings: ConfigView) -> u64 {
    let asked = settings.general.window_detect_timeout_ms;
    if asked < MIN_WINDOW_DETECT_TIMEOUT_MS {
        MIN_WINDOW_DETECT_TIMEOUT_MS
    } else if asked > MAX_WINDOW_DETECT_TIMEOUT_MS {
        MAX_WINDOW_DETECT_TIMEOUT_MS
    } else {
        asked
    }
}

/// How long to rest after a launch, in milliseconds.
pub open spec fn delay_of(settings: ConfigView) -> u64 {
    let asked = settings.general.restore_delay_ms;
    if asked > MAX_RESTORE_DELAY_MS {
        MAX_RESTORE_DELAY_MS
    } else {
        asked
    }
}

/// How long the window of a launch is waited for, in milliseconds.
pub fn detect_timeout(config: &Config) -> (r: u64)
    ensures
        r == timeout_of(config@),
        MIN_WINDOW_DETECT_TIMEOUT_MS <= r <= MAX_WINDOW_DETECT_TIMEOUT_MS,
{
    let asked = config.general.window_detect_timeout_ms;
    if asked < MIN_WINDOW_DETECT_TIMEOUT_MS {
        MIN_WINDOW_DETECT_TIMEOUT_MS
    } else if asked > MAX_WINDOW_DETECT_TIMEOUT_MS {
        MAX_WINDOW_DETECT_TIMEOUT_MS
    } else {
        asked
    }
}

/// How long to rest after a launch, in milliseconds.
pub fn restore_delay(config: &Config) -> (r: u64)
    ensures
        r == delay_of(config@),
        r <= MAX_RESTORE_DELAY_MS,
{
    let asked = config.general.restore_delay_ms;
    if asked > MAX_RESTORE_DELAY_MS {
        MAX_RESTORE_DELAY_MS
    } else {
        asked
    }
}

/// How long a candidate has to stay before it is trusted, in milliseconds.
pub const CANDIDATE_SETTLE_MS: u64 = 250;

/// The state of waiting for the window of a launch.
#[verifier::ext_equal]
pub ghost struct WatchView {
    pub target: SessionClientView,
    /// The addresses before the launch.
    pub before: Set<Seq<char>>,
    /// The focused window before the launch.
    pub active_before: Option<Seq<char>>,
    pub launched: LaunchedProcess,
    pub timeout: u64,
    /// Since when there are candidates.
    pub seen_since: Option<u64>,
    /// The address and the stable ID of the window to which the launch was
    /// handed over, and since when it is that one.
    pub handed_to: Option<(Seq<char>, Seq<char>, u64)>,
}

/// What comes of looking at the windows once.
#[verifier::ext_equal]
pub ghost enum WatchOutcome {
    /// Nothing is sure yet.
    Wait,
    /// The window was found.
    Found(HyprClientView),
    /// The search failed.
    Fail(RestoreErrorView),
}

/// The launch was handed over to a window.
pub open spec fn is_handoff(
    watch: WatchView,
    active_after: Option<Seq<char>>,
    c: CandidateView,
) -> bool {
    is_handed_over(watch.target, c, watch.before, watch.active_before, active_after)
}

/// A window that may be the launched one: it is new, or related, or the launch
/// was handed over to it, and neither class nor profile speaks against it.
pub open spec fn is_candidate(
    watch: WatchView,
    active_after: Option<Seq<char>>,
    c: CandidateView,
) -> bool {
    &&& !watch.before.contains(c.client.address) || c.related || is_handoff(
        watch,
        active_after,
        c,
    )
    &&& identity::classes_agree(watch.target, c.client)
    &&& fits_profile(watch.target, c.discovery)
}

/// The windows that may be the launched one.
pub open spec fn candidates_among(
    watch: WatchView,
    active_after: Option<Seq<char>>,
    shown: Seq<CandidateView>,
) -> Seq<CandidateView> {
    shown.filter(|c: CandidateView| is_candidate(watch, active_after, c))
}

/// Some candidate is related to the launch.
pub open spec fn some_related(candidates: Seq<CandidateView>) -> bool {
    exists|i: int| 0 <= i < candidates.len() && (#[trigger] candidates[i]).related
}

/// The profile of some candidate could not be told.
pub open spec fn some_incomplete(candidates: Seq<CandidateView>) -> bool {
    exists|i: int| 0 <= i < candidates.len() && !(#[trigger] candidates[i]).discovery.complete
}

/// Long enough has passed.
pub open spec fn settled(now: u64, since: u64) -> bool {
    now - since >= CANDIDATE_SETTLE_MS
}

/// The outcome of choosing a window.
pub open spec fn outcome_of(chosen: Result<HyprClientView, RestoreErrorView>) -> WatchOutcome {
    match chosen {
        Ok(window) => WatchOutcome::Found(window),
        Err(problem) => WatchOutcome::Fail(problem),
    }
}

/// Nothing relates the window to its launch.
pub open spec fn uncorrelated(watch: WatchView) -> WatchOutcome {
    WatchOutcome::Fail(RestoreErrorView::UncorrelatedWindow { class: watch.target.class })
}

/// Several windows may be the launched one.
pub open spec fn ambiguous(watch: WatchView, candidates: Seq<CandidateView>) -> WatchOutcome {
    WatchOutcome::Fail(
        RestoreErrorView::AmbiguousWindow {
            class: watch.target.class,
            addresses: listed(clients_in(candidates)),
        },
    )
}

/// The stable ID of a window, or an empty text.
pub open spec fn stable_id_of(client: HyprClientView) -> Seq<char> {
    match client.stable_id {
        Some(id) => id,
        None => ""@,
    }
}

/// The windows to which the launch was handed over.
pub open spec fn handoffs_among(
    watch: WatchView,
    active_after: Option<Seq<char>>,
    candidates: Seq<CandidateView>,
) -> Seq<CandidateView> {
    candidates.filter(|c: CandidateView| is_handoff(watch, active_after, c))
}

/// What comes of candidates none of which is related to the launched process.
pub open spec fn unrelated_step(
    watch: WatchView,
    now: u64,
    since: u64,
    active_after: Option<Seq<char>>,
    candidates: Seq<CandidateView>,
) -> (WatchView, WatchOutcome) {
    let handoffs = handoffs_among(watch, active_after, candidates);
    let late = if settled(now, since) {
        uncorrelated(watch)
    } else {
        WatchOutcome::Wait
    };
    if handoffs.len() == 1 {
        let client = handoffs[0].client;
        let id = stable_id_of(client);
        let known = watch.handed_to is Some && (watch.handed_to->0).0 == client.address && (
        watch.handed_to->0).1 == id;
        let handed_since = if known {
            (watch.handed_to->0).2
        } else {
            now
        };
        let after = WatchView {
            handed_to: Some((client.address, id, handed_since)),
            ..watch
        };
        if settled(now, handed_since) {
            (after, outcome_of(launched_window(watch.target, handoffs, watch.launched, true)))
        } else {
            (after, late)
        }
    } else {
        (
            WatchView { handed_to: None, ..watch },
            if handoffs.len() > 1 && settled(now, since) {
                ambiguous(watch, handoffs)
            } else {
                late
            },
        )
    }
}

/// What comes of looking at the windows once.
pub open spec fn watch_step(
    watch: WatchView,
    now: u64,
    active_after: Option<Seq<char>>,
    shown: Seq<CandidateView>,
) -> (WatchView, WatchOutcome) {
    let candidates = candidates_among(watch, active_after, shown);
    if candidates.len() == 0 {
        (WatchView { seen_since: None, ..watch }, WatchOutcome::Wait)
    } else {
        let since = match watch.seen_since {
            Some(since) => since,
            None => now,
        };
        let seen = WatchView { seen_since: Some(since), ..watch };
        let related = some_related(candidates);
        if launch::is_brave(watch.target) && watch.target.profile_directory is Some
            && some_incomplete(candidates) {
            (
                seen,
                if settled(now, since) {
                    uncorrelated(watch)
                } else {
                    WatchOutcome::Wait
                },
            )
        } else if watch.launched.pid is Some && !related {
            if identity::is_browser(watch.target) {
                unrelated_step(seen, now, since, active_after, candidates)
            } else {
                (seen, WatchOutcome::Wait)
            }
        } else if candidates.len() > 1 && !related {
            (seen, ambiguous(watch, candidates))
        } else if candidates.len() == 1 && !related && !settled(now, since) {
            (seen, WatchOutcome::Wait)
        } else {
            (
                seen,
                outcome_of(launched_window(watch.target, candidates, watch.launched, false)),
            )
        }
    }
}

/// What comes of looking at the windows once.
#[derive(Debug)]
pub enum WatchStep {
    /// Nothing is sure yet.
    Wait,
    /// The window was found.
    Found(HyprClient),
    /// The search failed.
    Fail(RestoreError),
}

impl View for WatchStep {
    type V = WatchOutcome;

    open spec fn view(&self) -> WatchOutcome {
        match *self {
            WatchStep::Wait => WatchOutcome::Wait,
            WatchStep::Found(window) => WatchOutcome::Found(window@),
            WatchStep::Fail(error) => WatchOutcome::Fail(error@),
        }
    }
}

/// Waits for the window of a launch.
#[derive(Debug)]
pub struct LaunchWatch {
    target: SessionClient,
    before: TextSet,
    active_before: Option<String>,
    launched: LaunchedProcess,
    timeout: u64,
    seen_since: Option<u64>,
    handed_to: Option<(String, String, u64)>,
}

impl View for LaunchWatch {
    type V = WatchView;

    closed spec fn view(&self) -> WatchView {
        WatchView {
            target: self.target@,
            before: self.before@,
            active_before: self.active_before.deep_view(),
            launched: self.launched,
            timeout: self.timeout,
            seen_since: self.seen_since,
            handed_to: match self.handed_to {
                Some((address, id, since)) => Some((address@, id@, since)),
                None => None,
            },
        }
    }
}

fn step_of(chosen: Result<HyprClient, RestoreError>) -> (r: WatchStep)
    ensures
        forall|expected: Result<HyprClientView, RestoreErrorView>|
            gives(chosen, expected) ==> r@ == #[trigger] outcome_of(expected),
{
    match chosen {
        Ok(window) => WatchStep::Found(window),
        Err(error) => WatchStep::Fail(error),
    }
}

fn any_related(candidates: &Vec<Candidate>) -> (r: bool)
    ensures
        r == some_related(candidates.deep_view()),
{
    let ghost all = candidates.deep_view();
    let mut i: usize = 0;
    while i < candidates.len()
        invariant
            i <= candidates.len(),
            all == candidates.deep_view(),
            forall|k: int| 0 <= k < i ==> !(#[trigger] all[k]).related,
        decreases candidates.len() - i,
    {
        assert(all[i as int] == candidates[i as int]@);
        if candidates[i].related {
            return true;
        }
        i += 1;
    }
    false
}

fn any_incomplete(candidates: &Vec<Candidate>) -> (r: bool)
    ensures
        r == some_incomplete(candidates.deep_view()),
{
    let ghost all = candidates.deep_view();
    let mut i: usize = 0;
    while i < candidates.len()
        invariant
            i <= candidates.len(),
            all == candidates.deep_view(),
            forall|k: int| 0 <= k < i ==> (#[trigger] all[k]).discovery.complete,
        decreases candidates.len() - i,
    {
        assert(all[i as int] == candidates[i as int]@);
        if !candidates[i].discovery.complete {
            return true;
        }
        i += 1;
    }
    false
}

impl LaunchWatch {
    /// Starts to wait.  `before` are the addresses of the windows and
    /// `active_before` that of the focused window before the launch.
    pub fn new(
        target: SessionClient,
        before: TextSet,
        active_before: Option<String>,
        launched: LaunchedProcess,
        config: &Config,
    ) -> (r: Self)
        ensures
            r@ == (WatchView {
                target: target@,
                before: before@,
                active_before: active_before.deep_view(),
                launched,
                timeout: timeout_of(config@),
                seen_since: None,
                handed_to: None,
            }),
    {
        LaunchWatch {
            target,
            before,
            active_before,
            launched,
            timeout: detect_timeout(config),
            seen_since: None,
            handed_to: None,
        }
    }

    /// Tells whether the focused window is asked for.
    pub fn looks_at_focus(&self) -> (r: bool)
        ensures
            r == may_be_handed_over(self@.target),
    {
        browser_handoff_target_is_safe(&self.target)
    }

    /// Fails when too much time has passed since the launch.
    pub fn check_time(&self, now: u64) -> (r: Result<(), RestoreError>)
        ensures
            match r {
                Ok(_) => now <= self@.timeout,
                Err(error) => now > self@.timeout && error@ == RestoreErrorView::Hyprctl(
                    CompositorErrorView::CommandFailed(
                        "timeout waiting for '"@ + self@.target.class + "' window to appear"@,
                    ),
                ),
            },
    {
        if now > self.timeout {
            let reason = "timeout waiting for '".to_owned().concat(
                self.target.class.as_str(),
            ).concat("' window to appear");
            return Err(RestoreError::Hyprctl(HyprctlError::CommandFailed(reason)));
        }
        Ok(())
    }

    fn pick_candidates(&self, active_after: &Option<String>, shown: &Vec<Candidate>) -> (r: Vec<
        Candidate,
    >)
        ensures
            r.deep_view() == candidates_among(
                self@,
                active_after.deep_view(),
                shown.deep_view(),
            ),
    {
        let ghost all = shown.deep_view();
        let ghost active = active_after.deep_view();
        let ghost keep = |c: CandidateView| is_candidate(self@, active, c);
        let mut out: Vec<Candidate> = Vec::new();
        let mut i: usize = 0;
        proof {
            reveal(Seq::filter);
            assert(out.deep_view() =~= all.take(0).filter(keep));
        }
        while i < shown.len()
            invariant
                i <= shown.len(),
                all == shown.deep_view(),
                active == active_after.deep_view(),
                keep == (|c: CandidateView| is_candidate(self@, active, c)),
                out.deep_view() == all.take(i as int).filter(keep),
            decreases shown.len() - i,
        {
            let candidate = &shown[i];
            let ghost so_far = out.deep_view();
            proof {
                lists::lemma_filter_step(all, keep, i as int);
                assert(all[i as int] == candidate@);
            }
            let visible = !self.before.contains(candidate.client.address.as_str())
                || candidate.related || browser_handoff_candidate_is_safe(
                &self.target,
                candidate,
                &self.before,
                &self.active_before,
                active_after,
            );
            if visible && identity::classes_match(&self.target, &candidate.client)
                && candidate_matches_profile(&self.target, &candidate.discovery) {
                let copy = candidate.clone();
                out.push(copy);
                assert(out.deep_view() =~= so_far.push(candidate@));
            }
            i += 1;
        }
        assert(all.take(all.len() as int) =~= all);
        out
    }

    fn pick_handoffs(&self, active_after: &Option<String>, candidates: &Vec<Candidate>) -> (r: Vec<
        Candidate,
    >)
        ensures
            r.deep_view() == handoffs_among(
                self@,
                active_after.deep_view(),
                candidates.deep_view(),
            ),
    {
        let ghost all = candidates.deep_view();
        let ghost active = active_after.deep_view();
        let ghost keep = |c: CandidateView| is_handoff(self@, active, c);
        let mut out: Vec<Candidate> = Vec::new();
        let mut i: usize = 0;
        proof {
            reveal(Seq::filter);
            assert(out.deep_view() =~= all.take(0).filter(keep));
        }
        while i < candidates.len()
            invariant
                i <= candidates.len(),
                all == candidates.deep_view(),
                active == active_after.deep_view(),
                keep == (|c: CandidateView| is_handoff(self@, active, c)),
                out.deep_view() == all.take(i as int).filter(keep),
            decreases candidates.len() - i,
        {
            let candidate = &candidates[i];
            let ghost so_far = out.deep_view();
            proof {
                lists::lemma_filter_step(all, keep, i as int);
                assert(all[i as int] == candidate@);
            }
            if browser_handoff_candidate_is_safe(
                &self.target,
                candidate,
                &self.before,
                &self.active_before,
                active_after,
            ) {
                let copy = candidate.clone();
                out.push(copy);
                assert(out.deep_view() =~= so_far.push(candidate@));
            }
            i += 1;
        }
        assert(all.take(all.len() as int) =~= all);
        out
    }

    fn fail_uncorrelated(&self) -> (r: WatchStep)
        ensures
            r@ == uncorrelated(self@),
    {
        WatchStep::Fail(RestoreError::UncorrelatedWindow { class: self.target.class.clone() })
    }

    fn fail_ambiguous(&self, candidates: &Vec<Candidate>) -> (r: WatchStep)
        ensures
            r@ == ambiguous(self@, candidates.deep_view()),
    {
        WatchStep::Fail(
            RestoreError::AmbiguousWindow {
                class: self.target.class.clone(),
                addresses: list_candidates(candidates),
            },
        )
    }

    fn wait_for_handoff(
        &mut self,
        now: u64,
        since: u64,
        active_after: &Option<String>,
        candidates: &Vec<Candidate>,
    ) -> (r: WatchStep)
        requires
            since <= now,
            old(self)@.handed_to is Some ==> (old(self)@.handed_to->0).2 <= now,
        ensures
            (final(self)@, r@) == unrelated_step(
                old(self)@,
                now,
                since,
                active_after.deep_view(),
                candidates.deep_view(),
            ),
    {
        let ghost before = self@;
        let handoffs = self.pick_handoffs(active_after, candidates);
        assert(handoffs.deep_view().len() == handoffs.len());
        let late = now - since >= CANDIDATE_SETTLE_MS;
        if handoffs.len() == 1 {
            assert(handoffs.deep_view()[0] == handoffs[0]@);
            let client = &handoffs[0].client;
            let id = match &client.stable_id {
                Some(id) => id.clone(),
                None => "".to_owned(),
            };
            let handed_since = match &self.handed_to {
                Some((address, known, at)) => if text::same(
                    address.as_str(),
                    client.address.as_str(),
                ) && text::same(known.as_str(), id.as_str()) {
                    *at
                } else {
                    now
                },
                None => now,
            };
            self.handed_to = Some((client.address.clone(), id, handed_since));
            if now - handed_since >= CANDIDATE_SETTLE_MS {
                return step_of(
                    choose_launched_window(&self.target, &handoffs, self.launched, true),
                );
            }
        } else {
            self.handed_to = None;
            if handoffs.len() > 1 && late {
                return self.fail_ambiguous(&handoffs);
            }
        }
        if late {
            self.fail_uncorrelated()
        } else {
            WatchStep::Wait
        }
    }

    /// Looks at the windows once.  `now` is the time since the launch in
    /// milliseconds, and `active_after` the focused window.
    pub fn look(
        &mut self,
        now: u64,
        active_after: &Option<String>,
        shown: &Vec<Candidate>,
    ) -> (r: WatchStep)
        requires
            old(self)@.seen_since is Some ==> old(self)@.seen_since->0 <= now,
            old(self)@.handed_to is Some ==> (old(self)@.handed_to->0).2 <= now,
        ensures
            (final(self)@, r@) == watch_step(
                old(self)@,
                now,
                active_after.deep_view(),
                shown.deep_view(),
            ),
            final(self)@.seen_since is Some ==> final(self)@.seen_since->0 <= now,
            final(self)@.handed_to is Some ==> (final(self)@.handed_to->0).2 <= now,
    {
        let candidates = self.pick_candidates(active_after, shown);
        assert(candidates.deep_view().len() == candidates.len());
        if candidates.len() == 0 {
            self.seen_since = None;
            return WatchStep::Wait;
        }
        let since = match self.seen_since {
            Some(since) => since,
            None => now,
        };
        self.seen_since = Some(since);
        let late = now - since >= CANDIDATE_SETTLE_MS;
        if launch::is_brave_client(&self.target) && self.target.profile_directory.is_some()
            && any_incomplete(&candidates) {
            // A lookup that failed is not the same as a profile without a
            // flag.  Wait for a stable view, then fail without moving an
            // unknown profile.
            return if late {
                self.fail_uncorrelated()
            } else {
                WatchStep::Wait
            };
        }
        let related = any_related(&candidates);
        if self.launched.pid.is_some() && !related {
            return if identity::is_browser_target(&self.target) {
                self.wait_for_handoff(now, since, active_after, &candidates)
            } else {
                WatchStep::Wait
            };
        }
        if candidates.len() > 1 && !related {
            return self.fail_ambiguous(&candidates);
        }
        if candidates.len() == 1 && !related && !late {
            return WatchStep::Wait;
        }
        step_of(choose_launched_window(&self.target, &candidates, self.launched, false))
    }
}

// ── Placing the window ─────────────────────────────────────────────────────

/// The place behind the first command, from `i` on, that moves a window to a
/// workspace.
pub open spec fn behind_workspace(commands: Seq<Seq<char>>, i: int) -> int
    decreases commands.len() - i,
{
    if i < 0 || i >= commands.len() {
        0
    } else if text::starts_with(commands[i], "movetoworkspacesilent "@) {
        i + 1
    } else {
        behind_workspace(commands, i + 1)
    }
}

/// The commands that place the window of a launch.  It is moved to its
/// monitor in any case, behind its workspace.
pub open spec fn launch_commands(
    target: SessionClientView,
    window: HyprClientView,
    monitor_available: bool,
) -> Seq<Seq<char>> {
    let commands = placement::reconcile_commands(
        target,
        window,
        None,
        ReconcileGeometryView {
            desired_at: target.at,
            desired_size: target.size,
            target_monitor_available: monitor_available,
        },
    );
    if monitor_available && target.monitor.len() > 0 {
        let k = behind_workspace(commands, 0);
        commands.take(k) + placement::monitor_moves(target.monitor, window.address)
            + commands.skip(k)
    } else {
        commands
    }
}

fn find_behind_workspace(commands: &Vec<String>) -> (r: usize)
    ensures
        r == behind_workspace(commands.deep_view(), 0),
        r <= commands.len(),
{
    let ghost all = commands.deep_view();
    let mut i: usize = 0;
    while i < commands.len()
        invariant
            i <= commands.len(),
            all == commands.deep_view(),
            behind_workspace(all, 0) == behind_workspace(all, i as int),
        decreases commands.len() - i,
    {
        assert(all[i as int] == commands[i as int]@);
        if text::has_prefix(commands[i].as_str(), "movetoworkspacesilent ") {
            return i + 1;
        }
        i += 1;
    }
    0
}

/// The commands that place the window of a launch.
pub fn build_launch_placement(
    target: &SessionClient,
    window: &HyprClient,
    monitor_available: bool,
) -> (r: Vec<String>)
    ensures
        r.deep_view() == launch_commands(target@, window@, monitor_available),
{
    let mut commands = placement::build_reconcile_dispatch_commands_with_geometry(
        target,
        window,
        None,
        ReconcileGeometry::new(target.at, target.size, monitor_available),
    );
    if monitor_available && !target.monitor.as_str().is_empty() {
        let ghost all = commands.deep_view();
        let place = find_behind_workspace(&commands);
        let mut moves = placement::monitor_move_commands(
            target.monitor.as_str(),
            window.address.as_str(),
        );
        let ghost inner = moves.deep_view();
        let mut tail = commands.split_off(place);
        assert(commands.deep_view() =~= all.take(place as int));
        assert(tail.deep_view() =~= all.skip(place as int));
        commands.append(&mut moves);
        assert(commands.deep_view() =~= all.take(place as int) + inner);
        let ghost behind = tail.deep_view();
        commands.append(&mut tail);
        assert(commands.deep_view() =~= all.take(place as int) + inner + behind);
    }
    commands
}

/// The window of a launch as it is looked for when it is placed.
pub open spec fn expected_window(
    window: HyprClientView,
    start_time: Option<u64>,
    command: Option<Seq<char>>,
) -> ObservedClientView {
    ObservedClientView {
        process_start_time: start_time,
        process_command: command,
        ..identity::plainly_observed(window, None, None, None)
    }
}

/// The window of a launch as it is looked for when it is placed.
pub fn expect_window(window: HyprClient, start_time: Option<u64>, command: Option<String>) -> (r:
    ObservedClient)
    ensures
        r@ == expected_window(window@, start_time, command.deep_view()),
{
    let mut expected = ObservedClient::from_hypr_client(window, None, None);
    expected.process_start_time = start_time;
    expected.process_command = command;
    expected
}

/// What a report tells of a window that was launched and placed.
pub open spec fn restored_line(target: SessionClientView) -> Seq<char> {
    "OK: "@ + target.class + " → ws="@ + text::decimal(target.workspace) + " at ["@
        + text::decimal(target.at.0) + ", "@ + text::decimal(target.at.1) + "]"@
}

/// What a report tells of a window that was launched and placed.
pub fn restored_message(target: &SessionClient) -> (r: String)
    ensures
        r@ == restored_line(target@),
{
    "OK: ".to_owned().concat(target.class.as_str()).concat(" → ws=").concat(
        text::number_text(target.workspace as i64).as_str(),
    ).concat(" at [").concat(text::number_text(target.at[0] as i64).as_str()).concat(", ").concat(
        text::number_text(target.at[1] as i64).as_str(),
    ).concat("]")
}

/// The failure to start a command.
pub fn spawn_error(command: &str, reason: &str) -> (r: RestoreError)
    ensures
        r@ == RestoreErrorView::Hyprctl(
            CompositorErrorView::CommandFailed("spawn '"@ + command@ + "' failed: "@ + reason@),
        ),
{
    RestoreError::Hyprctl(
        HyprctlError::CommandFailed(
            "spawn '".to_owned().concat(command).concat("' failed: ").concat(reason),
        ),
    )
}

/// The addresses of windows.
pub open spec fn addresses_of(clients: Seq<HyprClientView>) -> Set<Seq<char>> {
    Set::new(
        |a: Seq<char>|
            exists|i: int| 0 <= i < clients.len() && (#[trigger] clients[i]).address == a,
    )
}

/// The addresses of windows.
pub fn collect_addresses(clients: &[HyprClient]) -> (r: TextSet)
    ensures
        r@ == addresses_of(clients.deep_view()),
{
    let ghost all = clients.deep_view();
    let mut out = TextSet::new();
    let mut i: usize = 0;
    assert(out@ =~= addresses_of(all.take(0)));
    while i < clients.len()
        invariant
            i <= clients.len(),
            all == clients.deep_view(),
            out@ == addresses_of(all.take(i as int)),
        decreases clients.len() - i,
    {
        let client = &clients[i];
        assert(all[i as int] == client@);
        let ghost head = all.take(i as int);
        let ghost more = all.take(i + 1);
        assert(more =~= head.push(all[i as int]));
        out.insert(client.address.clone());
        assert forall|a: Seq<char>| #[trigger] addresses_of(more).contains(a) == (addresses_of(
            head,
        ).contains(a) || a == client@.address) by {
            if addresses_of(head).contains(a) {
                let k = choose|k: int|
                    0 <= k < head.len() && (#[trigger] head[k]).address == a;
                assert(more[k] == head[k]);
            }
            if a == client@.address {
                assert(more[i as int] == client@);
            }
            if addresses_of(more).contains(a) {
                let k = choose|k: int|
                    0 <= k < more.len() && (#[trigger] more[k]).address == a;
                if k < i {
                    assert(head[k] == more[k]);
                }
            }
        }
        assert(out@ =~= addresses_of(more));
        i += 1;
    }
    assert(all.take(i as int) =~= all);
    out
}

} // verus!
