//! Which open window is which saved window.

use crate::hyprctl::{HyprClient, HyprClientView};
use crate::paths;
use crate::placement;
use crate::restore::launch;
use crate::session::{SessionClient, SessionClientView};
use crate::text;
use crate::process;
use vstd::prelude::*;

verus! {

// ── Observed windows ───────────────────────────────────────────────────────

/// A current Hyprland window enriched with the bits of process state that are
/// useful for distinguishing multiple terminal windows.
#[derive(Debug)]
pub struct ObservedClient {
    /// What the compositor tells.
    pub client: HyprClient,
    /// The monitor it stands on.
    pub monitor_name: Option<String>,
    /// Its working directory.
    pub cwd: Option<String>,
    /// Its browser profile.
    pub profile_directory: Option<String>,
    /// The start time of its process.
    pub process_start_time: Option<u64>,
    /// A process flag is not always window-specific. Chromium-based browsers
    /// commonly reuse one PID for several top-level windows.
    pub profile_identity_ambiguous: bool,
    /// Best-effort command line for the process that owns this window.  It is
    /// supplemental relaunch evidence; it is never used as sole ownership
    /// proof because several windows can share one executable.
    pub process_command: Option<String>,
}

#[verifier::ext_equal]
pub ghost struct ObservedClientView {
    pub client: HyprClientView,
    pub monitor_name: Option<Seq<char>>,
    pub cwd: Option<Seq<char>>,
    pub profile_directory: Option<Seq<char>>,
    pub process_start_time: Option<u64>,
    pub profile_identity_ambiguous: bool,
    pub process_command: Option<Seq<char>>,
}

impl View for ObservedClient {
    type V = ObservedClientView;

    open spec fn view(&self) -> ObservedClientView {
        ObservedClientView {
            client: self.client@,
            monitor_name: self.monitor_name.deep_view(),
            cwd: self.cwd.deep_view(),
            profile_directory: self.profile_directory.deep_view(),
            process_start_time: self.process_start_time,
            profile_identity_ambiguous: self.profile_identity_ambiguous,
            process_command: self.process_command.deep_view(),
        }
    }
}

impl DeepView for ObservedClient {
    type V = ObservedClientView;

    open spec fn deep_view(&self) -> ObservedClientView {
        self@
    }
}

impl Clone for ObservedClient {
    fn clone(&self) -> (r: Self)
        ensures
            r@ == self@,
    {
        ObservedClient {
            client: self.client.clone(),
            monitor_name: text::copy_option(&self.monitor_name),
            cwd: text::copy_option(&self.cwd),
            profile_directory: text::copy_option(&self.profile_directory),
            process_start_time: self.process_start_time,
            profile_identity_ambiguous: self.profile_identity_ambiguous,
            process_command: text::copy_option(&self.process_command),
        }
    }
}

/// A window with nothing known of its process but its directory and profile.
pub open spec fn plainly_observed(
    client: HyprClientView,
    monitor_name: Option<Seq<char>>,
    cwd: Option<Seq<char>>,
    profile_directory: Option<Seq<char>>,
) -> ObservedClientView {
    ObservedClientView {
        client,
        monitor_name,
        cwd,
        profile_directory,
        process_start_time: None,
        profile_identity_ambiguous: false,
        process_command: None,
    }
}

impl ObservedClient {
    /// A window without a profile.
    pub fn from_hypr_client(
        client: HyprClient,
        monitor_name: Option<String>,
        cwd: Option<String>,
    ) -> (r: Self)
        ensures
            r@ == plainly_observed(client@, monitor_name.deep_view(), cwd.deep_view(), None),
    {
        ObservedClient {
            client,
            monitor_name,
            cwd,
            profile_directory: None,
            process_start_time: None,
            profile_identity_ambiguous: false,
            process_command: None,
        }
    }

    /// A window with a profile.
    pub fn with_profile_directory(
        client: HyprClient,
        monitor_name: Option<String>,
        cwd: Option<String>,
        profile_directory: Option<String>,
    ) -> (r: Self)
        ensures
            r@ == plainly_observed(
                client@,
                monitor_name.deep_view(),
                cwd.deep_view(),
                profile_directory.deep_view(),
            ),
    {
        ObservedClient {
            client,
            monitor_name,
            cwd,
            profile_directory,
            process_start_time: None,
            profile_identity_ambiguous: false,
            process_command: None,
        }
    }
}

// ── Texts ──────────────────────────────────────────────────────────────────

/// Two texts that say the same thing: neither is empty, and they differ by
/// case alone.
pub open spec fn agree(a: Seq<char>, b: Seq<char>) -> bool {
    a.len() > 0 && b.len() > 0 && text::same_ignoring_case(a, b)
}

/// Two optional texts that say the same thing.
pub open spec fn options_agree(a: Option<Seq<char>>, b: Option<Seq<char>>) -> bool {
    a is Some && b is Some && agree(a->0, b->0)
}

/// A text that is there and not empty.
pub open spec fn is_known(a: Option<Seq<char>>) -> bool {
    a is Some && a->0.len() > 0
}

/// Tells whether two texts say the same thing.
pub fn same_nonempty(left: &str, right: &str) -> (r: bool)
    ensures
        r == agree(left@, right@),
{
    !left.is_empty() && !right.is_empty() && text::eq_ignore_case(left, right)
}

/// Tells whether a text is there and not empty.
pub fn is_present(value: &Option<String>) -> (r: bool)
    ensures
        r == is_known(value.deep_view()),
{
    match value {
        Some(text) => !text.as_str().is_empty(),
        None => false,
    }
}

/// Tells whether two optional texts say the same thing.
pub fn same_options(left: &Option<String>, right: &Option<String>) -> (r: bool)
    ensures
        r == options_agree(left.deep_view(), right.deep_view()),
{
    match (left, right) {
        (Some(a), Some(b)) => same_nonempty(a.as_str(), b.as_str()),
        _ => false,
    }
}

/// A title with single spaces and in lower case.
pub open spec fn normal_title(title: Seq<char>) -> Seq<char> {
    text::lowercased(text::joined(text::words(title), " "@))
}

/// One of two texts holds the other, and neither is empty.
pub open spec fn one_holds_the_other(a: Seq<char>, b: Seq<char>) -> bool {
    a.len() > 0 && b.len() > 0 && (text::found(a, b) is Some || text::found(b, a) is Some)
}

/// Two titles of which one holds the other.
pub open spec fn similar(a: Seq<char>, b: Seq<char>) -> bool {
    one_holds_the_other(normal_title(a), normal_title(b))
}

/// Tells whether one of two texts holds the other.
pub fn texts_overlap(left: &str, right: &str) -> (r: bool)
    ensures
        r == one_holds_the_other(left@, right@),
{
    !left.is_empty() && !right.is_empty() && (text::find(left, right).is_some() || text::find(
        right,
        left,
    ).is_some())
}

fn normalize_title(title: &str) -> (r: String)
    ensures
        r@ == normal_title(title@),
{
    let words = text::split_words(title);
    let joined = text::join(&words, " ");
    text::to_lowercase(joined.as_str())
}

/// Tells whether one of two titles holds the other.
pub fn titles_similar(left: &str, right: &str) -> (r: bool)
    ensures
        r == similar(left@, right@),
{
    let a = normalize_title(left);
    let b = normalize_title(right);
    texts_overlap(a.as_str(), b.as_str())
}

// ── Directories and programs ───────────────────────────────────────────────

/// The directory that the first directory argument, from place `i` on, names.
pub open spec fn directory_from(args: Seq<Seq<char>>, i: int) -> Option<Seq<char>>
    decreases args.len() - i,
{
    if i < 0 || i >= args.len() {
        None
    } else if (args[i] == "--directory"@ || args[i] == "--working-directory"@ || args[i] == "-d"@)
        && i + 1 < args.len() {
        Some(args[i + 1])
    } else if text::starts_with(args[i], "--directory="@) {
        Some(args[i].skip("--directory="@.len() as int))
    } else if text::starts_with(args[i], "--working-directory="@) {
        Some(args[i].skip("--working-directory="@.len() as int))
    } else {
        directory_from(args, i + 1)
    }
}

/// The working directory in which a saved window is opened.
pub open spec fn saved_directory(client: SessionClientView) -> Option<Seq<char>> {
    directory_from(client.launch.args, 0)
}

/// The working directory in which a saved window is opened.
pub fn launch_cwd(client: &SessionClient) -> (r: Option<String>)
    ensures
        r.deep_view() == saved_directory(client@),
{
    let args = &client.launch.args;
    let ghost all = args.deep_view();
    assert(all == client@.launch.args);
    let mut i: usize = 0;
    while i < args.len()
        invariant
            i <= args.len(),
            all == args.deep_view(),
            all == client@.launch.args,
            saved_directory(client@) == directory_from(all, i as int),
        decreases args.len() - i,
    {
        let arg = args[i].as_str();
        assert(all[i as int] == arg@);
        if (text::same(arg, "--directory") || text::same(arg, "--working-directory") || text::same(
            arg,
            "-d",
        )) && i + 1 < args.len() {
            assert(all[i + 1] == args[i + 1]@);
            return Some(args[i + 1].clone());
        }
        if let Some(value) = text::strip_prefix(arg, "--directory=") {
            return Some(value);
        }
        if let Some(value) = text::strip_prefix(arg, "--working-directory=") {
            return Some(value);
        }
        i += 1;
    }
    None
}

/// A window stands in the directory in which it was saved.
pub open spec fn directories_agree(
    target: SessionClientView,
    observed: ObservedClientView,
) -> bool {
    saved_directory(target) is Some && observed.cwd is Some && paths::same_path(
        saved_directory(target)->0,
        observed.cwd->0,
    )
}

/// Both directories are known and differ.
pub open spec fn directories_differ(
    target: SessionClientView,
    observed: ObservedClientView,
) -> bool {
    saved_directory(target) is Some && observed.cwd is Some && !paths::same_path(
        saved_directory(target)->0,
        observed.cwd->0,
    )
}

pub(crate) fn cwd_matches(target: &SessionClient, observed: &ObservedClient) -> (r: bool)
    ensures
        r == directories_agree(target@, observed@),
{
    match (launch_cwd(target), &observed.cwd) {
        (Some(saved), Some(current)) => paths::is_same_path(saved.as_str(), current.as_str()),
        _ => false,
    }
}

fn cwd_differs(target: &SessionClient, observed: &ObservedClient) -> (r: bool)
    ensures
        r == directories_differ(target@, observed@),
{
    match (launch_cwd(target), &observed.cwd) {
        (Some(saved), Some(current)) => !paths::is_same_path(saved.as_str(), current.as_str()),
        _ => false,
    }
}

/// The process of a window runs the executable of a saved window.
pub open spec fn programs_agree(target: SessionClientView, observed: ObservedClientView) -> bool {
    match (paths::base_name(launch::binary_of(target)), observed.process_command) {
        (Some(expected), Some(command)) => match process::program(command) {
            Some(actual) => text::same_ignoring_case(expected, actual),
            None => false,
        },
        _ => false,
    }
}

pub(crate) fn process_command_matches_target(
    target: &SessionClient,
    observed: &ObservedClient,
) -> (r: bool)
    ensures
        r == programs_agree(target@, observed@),
{
    let binary = launch::effective_binary(target);
    let expected = match paths::file_name(binary.as_str()) {
        Some(expected) => expected,
        None => {
            return false;
        },
    };
    let command = match &observed.process_command {
        Some(command) => command,
        None => {
            return false;
        },
    };
    let words = text::split_words(command.as_str());
    if words.len() == 0 {
        return false;
    }
    assert(words.deep_view()[0] == words[0]@);
    match paths::file_name(words[0].as_str()) {
        Some(actual) => text::eq_ignore_case(expected.as_str(), actual.as_str()),
        None => false,
    }
}

// ── Classes ────────────────────────────────────────────────────────────────

/// The same identity field agrees.  Fields are not compared crosswise: one
/// app's runtime class can equal another app's initial class.
pub open spec fn classes_agree(target: SessionClientView, current: HyprClientView) -> bool {
    agree(target.class, current.class) || agree(target.initial_class, current.initial_class)
}

/// Tells whether the classes of a saved and an open window agree.
pub fn classes_match(target: &SessionClient, current: &HyprClient) -> (r: bool)
    ensures
        r == classes_agree(target@, current@),
{
    same_nonempty(target.class.as_str(), current.class.as_str()) || same_nonempty(
        target.initial_class.as_str(),
        current.initial_class.as_str(),
    )
}

/// The class of an ordinary Chromium window.
pub open spec fn is_chromium_class(class: Seq<char>) -> bool {
    text::same_ignoring_case(class, "chromium"@)
}

/// An ordinary Chromium window, not one of a web application.
pub open spec fn is_chromium(client: SessionClientView) -> bool {
    (is_chromium_class(client.class) || is_chromium_class(client.initial_class))
        && !launch::is_webapp(client)
}

/// Tells whether a saved window is an ordinary Chromium window.
pub fn is_generic_chromium_client(client: &SessionClient) -> (r: bool)
    ensures
        r == is_chromium(client@),
{
    (text::eq_ignore_case(client.class.as_str(), "chromium") || text::eq_ignore_case(
        client.initial_class.as_str(),
        "chromium",
    )) && !launch::is_webapp_class(client)
}

/// A window of a browser.
pub open spec fn is_browser(client: SessionClientView) -> bool {
    launch::is_brave(client) || is_chromium(client) || launch::is_webapp(client)
}

/// Tells whether a saved window is one of a browser.
pub fn is_browser_target(client: &SessionClient) -> (r: bool)
    ensures
        r == is_browser(client@),
{
    launch::is_brave_client(client) || is_generic_chromium_client(client)
        || launch::is_webapp_class(client)
}

/// A Brave window without a profile that identifies it.
pub open spec fn lacks_profile(client: SessionClientView) -> bool {
    launch::is_brave(client) && (client.profile_identity_ambiguous || !is_known(
        client.profile_directory,
    ))
}

/// Tells whether a saved Brave window has no profile that identifies it.
pub fn brave_client_has_no_safe_profile_identity(client: &SessionClient) -> (r: bool)
    ensures
        r == lacks_profile(client@),
{
    launch::is_brave_client(client) && (client.profile_identity_ambiguous || !is_present(
        &client.profile_directory,
    ))
}

// ── Identity ───────────────────────────────────────────────────────────────

/// A window stands at the address at which a saved window stood.
pub open spec fn is_at_saved_address(target: SessionClientView, address: Seq<char>) -> bool {
    target.address is Some && agree(target.address->0, address)
}

/// Tells whether an address is the saved one.
pub fn saved_address_is(target: &SessionClient, address: &str) -> (r: bool)
    ensures
        r == is_at_saved_address(target@, address@),
{
    match &target.address {
        Some(saved) => same_nonempty(saved.as_str(), address),
        None => false,
    }
}

/// Whether the process is the saved one; nothing where its start time is
/// missing on either side.
pub open spec fn process_identity(
    target: SessionClientView,
    observed: ObservedClientView,
) -> Option<bool> {
    if target.pid is None {
        None
    } else if target.pid->0 != observed.client.pid {
        Some(false)
    } else if target.process_start_time is Some && observed.process_start_time is Some {
        Some(target.process_start_time->0 == observed.process_start_time->0)
    } else {
        None
    }
}

/// Whether the stable ID is the saved one; nothing where it is missing on
/// either side.
pub open spec fn stable_identity(
    target: SessionClientView,
    observed: ObservedClientView,
) -> Option<bool> {
    if is_known(target.stable_id) && is_known(observed.client.stable_id) {
        Some(text::same_ignoring_case(target.stable_id->0, observed.client.stable_id->0))
    } else {
        None
    }
}

/// Nothing identifies the window itself, only its process.
pub open spec fn is_process_only(target: SessionClientView, observed: ObservedClientView) -> bool {
    &&& !is_known(target.stable_id)
    &&& !is_known(observed.client.stable_id)
    &&& target.pid is Some || target.process_start_time is Some
        || observed.process_start_time is Some
}

/// Whether the window is the saved one; nothing where that cannot be told.
pub open spec fn exact_identity(
    target: SessionClientView,
    observed: ObservedClientView,
) -> Option<bool> {
    if is_known(target.stable_id) {
        stable_identity(target, observed)
    } else if is_known(observed.client.stable_id) || is_process_only(target, observed) {
        None
    } else {
        process_identity(target, observed)
    }
}

/// A saved window carries something that identifies it.
pub open spec fn has_identity(target: SessionClientView) -> bool {
    target.pid is Some || target.process_start_time is Some || is_known(target.stable_id)
}

fn process_identity_matches(target: &SessionClient, observed: &ObservedClient) -> (r: Option<bool>)
    ensures
        r == process_identity(target@, observed@),
{
    let saved = match target.pid {
        Some(pid) => pid,
        None => {
            return None;
        },
    };
    if saved != observed.client.pid {
        return Some(false);
    }
    match (target.process_start_time, observed.process_start_time) {
        (Some(a), Some(b)) => Some(a == b),
        _ => None,
    }
}

pub(crate) fn stable_identity_matches(
    target: &SessionClient,
    observed: &ObservedClient,
) -> (r: Option<bool>)
    ensures
        r == stable_identity(target@, observed@),
{
    if !is_present(&target.stable_id) || !is_present(&observed.client.stable_id) {
        return None;
    }
    match (&target.stable_id, &observed.client.stable_id) {
        (Some(saved), Some(current)) => Some(
            text::eq_ignore_case(saved.as_str(), current.as_str()),
        ),
        _ => None,
    }
}

pub(crate) fn window_identity_is_process_only(
    target: &SessionClient,
    observed: &ObservedClient,
) -> (r: bool)
    ensures
        r == is_process_only(target@, observed@),
{
    !is_present(&target.stable_id) && !is_present(&observed.client.stable_id) && (
    target.pid.is_some() || target.process_start_time.is_some()
        || observed.process_start_time.is_some())
}

/// Whether an open window is the saved one.  A captured stable ID belongs to
/// one window even when several share a process, and is never replaced by
/// weaker evidence.
pub fn exact_window_identity_matches(
    target: &SessionClient,
    observed: &ObservedClient,
) -> (r: Option<bool>)
    ensures
        r == exact_identity(target@, observed@),
{
    if is_present(&target.stable_id) {
        return stable_identity_matches(target, observed);
    }
    if is_present(&observed.client.stable_id) {
        return None;
    }
    if window_identity_is_process_only(target, observed) {
        return None;
    }
    process_identity_matches(target, observed)
}

pub(crate) fn target_has_identity_evidence(target: &SessionClient) -> (r: bool)
    ensures
        r == has_identity(target@),
{
    target.pid.is_some() || target.process_start_time.is_some() || is_present(&target.stable_id)
}

/// Some title of the window agrees with a saved one.
pub open spec fn titles_agree(target: SessionClientView, current: HyprClientView) -> bool {
    ||| agree(target.title, current.title)
    ||| agree(target.initial_title, current.initial_title)
    ||| agree(target.title, current.initial_title)
    ||| agree(target.initial_title, current.title)
    ||| similar(target.title, current.title)
}

pub(crate) fn title_identity_agrees(target: &SessionClient, current: &HyprClient) -> (r: bool)
    ensures
        r == titles_agree(target@, current@),
{
    same_nonempty(target.title.as_str(), current.title.as_str()) || same_nonempty(
        target.initial_title.as_str(),
        current.initial_title.as_str(),
    ) || same_nonempty(target.title.as_str(), current.initial_title.as_str()) || same_nonempty(
        target.initial_title.as_str(),
        current.title.as_str(),
    ) || titles_similar(target.title.as_str(), current.title.as_str())
}

/// The profile of a Brave window is told on both sides and agrees.
pub open spec fn profiles_agree(target: SessionClientView, observed: ObservedClientView) -> bool {
    &&& !target.profile_identity_ambiguous
    &&& !observed.profile_identity_ambiguous
    &&& options_agree(target.profile_directory, observed.profile_directory)
}

pub(crate) fn profile_matches(target: &SessionClient, observed: &ObservedClient) -> (r: bool)
    ensures
        r == profiles_agree(target@, observed@),
{
    !target.profile_identity_ambiguous && !observed.profile_identity_ambiguous && same_options(
        &target.profile_directory,
        &observed.profile_directory,
    )
}

/// A window at another address is taken for the saved one opened again.  A
/// title alone is not enough: the directory or the program has to agree as
/// well.  A shared Chromium process establishes nothing.
pub open spec fn is_relaunched(target: SessionClientView, observed: ObservedClientView) -> bool {
    &&& is_known(target.address)
    &&& !is_at_saved_address(target, observed.client.address)
    &&& classes_agree(target, observed.client)
    &&& !is_chromium(target)
    &&& !launch::is_webapp(target)
    &&& if launch::is_brave(target) {
        profiles_agree(target, observed)
    } else {
        titles_agree(target, observed.client) && (directories_agree(target, observed)
            || programs_agree(target, observed))
    }
}

/// Tells whether a window is taken for a saved one opened again.
pub fn relaunch_fallback_identity_matches(
    target: &SessionClient,
    observed: &ObservedClient,
) -> (r: bool)
    ensures
        r == is_relaunched(target@, observed@),
{
    if !is_present(&target.address) || saved_address_is(target, observed.client.address.as_str())
        || !classes_match(target, &observed.client) || is_generic_chromium_client(target)
        || launch::is_webapp_class(target) {
        return false;
    }
    if launch::is_brave_client(target) {
        return profile_matches(target, observed);
    }
    title_identity_agrees(target, &observed.client) && (cwd_matches(target, observed)
        || process_command_matches_target(target, observed))
}

/// An ordinary Chromium window is identified by its address alone.
pub open spec fn is_same_chromium(target: SessionClientView, current: HyprClientView) -> bool {
    is_at_saved_address(target, current.address)
}

/// Titles and directory speak against the saved window.
pub open spec fn conflicts(target: SessionClientView, observed: ObservedClientView) -> bool {
    let current = observed.client;
    let initial_titles_differ = !launch::is_ghostty(target) && target.initial_title.len() > 0
        && current.initial_title.len() > 0 && !agree(target.initial_title, current.initial_title)
        && !titles_agree(target, current);
    let titles_differ = target.title.len() > 0 && current.title.len() > 0 && !agree(
        target.title,
        current.title,
    ) && !similar(target.title, current.title) && !agree(
        target.initial_title,
        current.initial_title,
    );
    initial_titles_differ || (titles_differ && directories_differ(target, observed))
}

/// Reject combinations which are positively identified as different windows.
/// A current title can change during normal use, so a mismatch of it alone is
/// not enough.
pub fn strong_identity_conflict(target: &SessionClient, observed: &ObservedClient) -> (r: bool)
    ensures
        r == conflicts(target@, observed@),
{
    let current = &observed.client;
    let initial_agrees = same_nonempty(
        target.initial_title.as_str(),
        current.initial_title.as_str(),
    );
    let initial_titles_differ = !launch::is_ghostty_class(target)
        && !target.initial_title.as_str().is_empty() && !current.initial_title.as_str().is_empty()
        && !initial_agrees && !title_identity_agrees(target, current);
    let titles_differ = !target.title.as_str().is_empty() && !current.title.as_str().is_empty()
        && !same_nonempty(target.title.as_str(), current.title.as_str()) && !titles_similar(
        target.title.as_str(),
        current.title.as_str(),
    ) && !initial_agrees;
    initial_titles_differ || (titles_differ && cwd_differs(target, observed))
}

// ── Scores ─────────────────────────────────────────────────────────────────

/// What speaks for a match.
#[derive(Debug, Clone, Copy, PartialEq, Eq, Structural)]
pub enum MatchKind {
    /// The window itself is identified.
    ExactIdentity,
    /// The application and its initial title or class agree.
    AppIdentity,
    /// The browser profile agrees.
    ProfileIdentity,
    /// Only the class agrees.
    ClassFallback,
}

/// What a match is needed for.
#[derive(Debug, Clone, Copy, PartialEq, Eq, Structural)]
pub enum MatchPolicy {
    /// Repairing open windows.
    Normal,
    /// Showing that a replacement was completed.
    ReplacementCompletion,
}

/// The window at the saved address may be the saved one.  A saved window with
/// anything that identifies it has to be identified.
pub open spec fn address_may_stand(
    target: SessionClientView,
    observed: ObservedClientView,
) -> bool {
    &&& is_known(target.stable_id) || !is_known(observed.client.stable_id)
    &&& match exact_identity(target, observed) {
        Some(same) => same,
        None => !is_process_only(target, observed) && !has_identity(target),
    }
}

/// An open window may be matched with a saved one.
pub open spec fn may_match(
    target: SessionClientView,
    observed: ObservedClientView,
    policy: MatchPolicy,
) -> bool {
    let at_home = is_at_saved_address(target, observed.client.address);
    &&& classes_agree(target, observed.client)
    &&& at_home ==> address_may_stand(target, observed)
    &&& policy is Normal && is_known(target.address) && !at_home ==> is_relaunched(target, observed)
    &&& is_chromium(target) ==> is_same_chromium(target, observed.client)
    &&& launch::is_brave(target) ==> is_known(target.profile_directory)
        && !target.profile_identity_ambiguous && !observed.profile_identity_ambiguous
    &&& target.profile_directory is None && !at_home && !directories_agree(target, observed)
        ==> !conflicts(target, observed)
    &&& target.profile_directory is Some ==> options_agree(
        target.profile_directory,
        observed.profile_directory,
    )
}

/// A number under a condition.
pub open spec fn points(condition: bool, n: int) -> int {
    if condition {
        n
    } else {
        0
    }
}

/// The distance of two points along the axes.
pub open spec fn distance(a: (int, int), b: (int, int)) -> int {
    (if a.0 >= b.0 {
        a.0 - b.0
    } else {
        b.0 - a.0
    }) + (if a.1 >= b.1 {
        a.1 - b.1
    } else {
        b.1 - a.1
    })
}

/// What nearness is worth: all of `most` for the same point, and less than
/// nothing for a distant one.
pub open spec fn nearness(a: (int, int), b: (int, int), most: int) -> int {
    if a == b {
        most
    } else if distance(a, b) > most {
        -most
    } else {
        -distance(a, b)
    }
}

/// What the titles of a window are worth.
pub open spec fn title_points(target: SessionClientView, current: HyprClientView) -> int {
    if agree(target.title, current.title) {
        650
    } else if agree(target.initial_title, current.initial_title) {
        450
    } else if similar(target.title, current.title) {
        180
    } else {
        0
    }
}

/// What is worth most: the saved address, Chromium, and the profile.
pub open spec fn identity_points(target: SessionClientView, observed: ObservedClientView) -> int {
    points(is_at_saved_address(target, observed.client.address), 5000) + points(
        is_chromium(target),
        2000,
    ) + points(target.profile_directory is Some, 1200)
}

/// What the classes of a window are worth.
pub open spec fn class_points(target: SessionClientView, current: HyprClientView) -> int {
    (if agree(target.class, current.class) {
        150int
    } else {
        50
    }) + points(agree(target.initial_class, current.initial_class), 350)
}

/// What the directory of a window is worth.  Another directory speaks against
/// a match and does not rule it out.
pub open spec fn directory_points(target: SessionClientView, observed: ObservedClientView) -> int {
    points(directories_agree(target, observed), 900) - points(
        directories_differ(target, observed),
        180,
    )
}

/// What the workspace and the monitor of a window are worth.
pub open spec fn place_points(target: SessionClientView, observed: ObservedClientView) -> int {
    points(placement::on_saved_workspace(target, observed.client), 180) + points(
        observed.monitor_name is Some && agree(target.monitor, observed.monitor_name->0),
        140,
    )
}

/// What a match is worth.
pub open spec fn match_points(target: SessionClientView, observed: ObservedClientView) -> int {
    let current = observed.client;
    1000 + identity_points(target, observed) + class_points(target, current) + title_points(
        target,
        current,
    ) + directory_points(target, observed) + place_points(target, observed) + nearness(
        target.at,
        current.at,
        120,
    ) + nearness(target.size, current.size, 90)
}

/// What speaks for a match.
pub open spec fn match_reason(
    target: SessionClientView,
    observed: ObservedClientView,
) -> MatchKind {
    let current = observed.client;
    if directories_agree(target, observed) || agree(target.title, current.title) || ((
    is_at_saved_address(target, current.address) || is_chromium(target))
        && target.profile_directory is None) {
        MatchKind::ExactIdentity
    } else if agree(target.initial_class, current.initial_class) || agree(
        target.initial_title,
        current.initial_title,
    ) {
        MatchKind::AppIdentity
    } else if target.profile_directory is Some {
        MatchKind::ProfileIdentity
    } else {
        MatchKind::ClassFallback
    }
}

/// The score and the reason of a match that may be made.
pub open spec fn match_value(
    target: SessionClientView,
    observed: ObservedClientView,
    policy: MatchPolicy,
) -> Option<(int, MatchKind)> {
    if may_match(target, observed, policy) {
        Some((match_points(target, observed), match_reason(target, observed)))
    } else {
        None
    }
}

/// A match that may be made has a positive score, far from the limits of 32
/// bits.
pub proof fn law_matches_score_positive(target: SessionClientView, observed: ObservedClientView)
    ensures
        0 < match_points(target, observed) <= 12_000,
{
}

/// The score of an optional match.
pub open spec fn value_view(value: Option<(i32, MatchKind)>) -> Option<(int, MatchKind)> {
    match value {
        Some((score, kind)) => Some((score as int, kind)),
        None => None,
    }
}

fn absolute_difference(a: i32, b: i32) -> (r: i64)
    ensures
        r == if a >= b {
            a - b
        } else {
            b - a
        },
{
    if a >= b {
        a as i64 - b as i64
    } else {
        b as i64 - a as i64
    }
}

/// The distance of two points along the axes.
pub fn manhattan_distance(left: [i32; 2], right: [i32; 2]) -> (r: i64)
    ensures
        r == distance(
            (left@[0] as int, left@[1] as int),
            (right@[0] as int, right@[1] as int),
        ),
        0 <= r,
{
    absolute_difference(left[0], right[0]) + absolute_difference(left[1], right[1])
}

fn nearness_points(left: [i32; 2], right: [i32; 2], most: i32) -> (r: i32)
    requires
        0 <= most <= 1000,
    ensures
        r == nearness(
            (left@[0] as int, left@[1] as int),
            (right@[0] as int, right@[1] as int),
            most as int,
        ),
        -most <= r <= most,
{
    if left[0] == right[0] && left[1] == right[1] {
        return most;
    }
    let far = manhattan_distance(left, right);
    if far > most as i64 {
        -most
    } else {
        -(far as i32)
    }
}

fn points_if(condition: bool, n: i32) -> (r: i32)
    requires
        0 <= n <= 5000,
    ensures
        r == points(condition, n as int),
        0 <= r <= n,
{
    if condition {
        n
    } else {
        0
    }
}

fn points_for_titles(target: &SessionClient, current: &HyprClient) -> (r: i32)
    ensures
        r == title_points(target@, current@),
        0 <= r <= 650,
{
    if same_nonempty(target.title.as_str(), current.title.as_str()) {
        650
    } else if same_nonempty(target.initial_title.as_str(), current.initial_title.as_str()) {
        450
    } else if titles_similar(target.title.as_str(), current.title.as_str()) {
        180
    } else {
        0
    }
}

/// Tells whether an open window may be matched with a saved one.
fn is_match_allowed(target: &SessionClient, observed: &ObservedClient, policy: MatchPolicy) -> (r:
    bool)
    ensures
        r == may_match(target@, observed@, policy),
{
    let current = &observed.client;
    if !classes_match(target, current) {
        return false;
    }
    let at_home = saved_address_is(target, current.address.as_str());
    if at_home {
        if !is_present(&target.stable_id) && is_present(&current.stable_id) {
            // A snapshot without stable IDs cannot prove that a window with
            // one is the same client.
            return false;
        }
        match exact_window_identity_matches(target, observed) {
            Some(false) => {
                // Hyprland can recycle an address after a window closes.
                return false;
            },
            Some(true) => {},
            None => {
                if window_identity_is_process_only(target, observed)
                    || target_has_identity_evidence(target) {
                    return false;
                }
            },
        }
    }
    if policy == MatchPolicy::Normal && is_present(&target.address) && !at_home
        && !relaunch_fallback_identity_matches(target, observed) {
        // Once the saved window is gone, class and title are not enough to
        // move a different window into its place.
        return false;
    }
    if is_generic_chromium_client(target) && !at_home {
        // Ordinary Chromium windows share one class and commonly one PID.
        return false;
    }
    if launch::is_brave_client(target) && (!is_present(&target.profile_directory)
        || target.profile_identity_ambiguous || observed.profile_identity_ambiguous) {
        return false;
    }
    match &target.profile_directory {
        Some(_) => same_options(&target.profile_directory, &observed.profile_directory),
        None => at_home || cwd_matches(target, observed) || !strong_identity_conflict(
            target,
            observed,
        ),
    }
}

/// The score of the match of a saved with an open window.
pub fn match_score(target: &SessionClient, observed: &ObservedClient) -> (r: Option<
    (i32, MatchKind),
>)
    ensures
        value_view(r) == match_value(target@, observed@, MatchPolicy::Normal),
{
    match_score_with_policy(target, observed, MatchPolicy::Normal)
}

fn points_for_identity(target: &SessionClient, observed: &ObservedClient) -> (r: i32)
    ensures
        r == identity_points(target@, observed@),
        0 <= r <= 8200,
{
    let at_home = saved_address_is(target, observed.client.address.as_str());
    let chromium = is_generic_chromium_client(target);
    points_if(at_home, 5000) + points_if(chromium, 2000) + points_if(
        target.profile_directory.is_some(),
        1200,
    )
}

fn points_for_classes(target: &SessionClient, current: &HyprClient) -> (r: i32)
    ensures
        r == class_points(target@, current@),
        50 <= r <= 500,
{
    let initial = same_nonempty(target.initial_class.as_str(), current.initial_class.as_str());
    if same_nonempty(target.class.as_str(), current.class.as_str()) {
        150 + points_if(initial, 350)
    } else {
        50 + points_if(initial, 350)
    }
}

fn points_for_directory(target: &SessionClient, observed: &ObservedClient) -> (r: i32)
    ensures
        r == directory_points(target@, observed@),
        -180 <= r <= 900,
{
    points_if(cwd_matches(target, observed), 900) - points_if(cwd_differs(target, observed), 180)
}

fn points_for_place(target: &SessionClient, observed: &ObservedClient) -> (r: i32)
    ensures
        r == place_points(target@, observed@),
        0 <= r <= 320,
{
    let on_monitor = match &observed.monitor_name {
        Some(monitor) => same_nonempty(target.monitor.as_str(), monitor.as_str()),
        None => false,
    };
    points_if(placement::workspace_matches(target, &observed.client), 180) + points_if(
        on_monitor,
        140,
    )
}

fn score_of(target: &SessionClient, observed: &ObservedClient) -> (r: i32)
    ensures
        r == match_points(target@, observed@),
{
    let current = &observed.client;
    let identity = points_for_identity(target, observed);
    let classes = points_for_classes(target, current);
    let titles = points_for_titles(target, current);
    let directory = points_for_directory(target, observed);
    let place = points_for_place(target, observed);
    let near_place = nearness_points(target.at, current.at, 120);
    let near_size = nearness_points(target.size, current.size, 90);
    1000 + identity + classes + titles + directory + place + near_place + near_size
}

fn reason_of(target: &SessionClient, observed: &ObservedClient) -> (r: MatchKind)
    ensures
        r == match_reason(target@, observed@),
{
    let current = &observed.client;
    let has_profile = target.profile_directory.is_some();
    if cwd_matches(target, observed) || same_nonempty(
        target.title.as_str(),
        current.title.as_str(),
    ) || ((saved_address_is(target, current.address.as_str()) || is_generic_chromium_client(target))
        && !has_profile) {
        MatchKind::ExactIdentity
    } else if same_nonempty(target.initial_class.as_str(), current.initial_class.as_str())
        || same_nonempty(target.initial_title.as_str(), current.initial_title.as_str()) {
        MatchKind::AppIdentity
    } else if has_profile {
        MatchKind::ProfileIdentity
    } else {
        MatchKind::ClassFallback
    }
}

/// The score of the match of a saved with an open window under a policy.
pub fn match_score_with_policy(
    target: &SessionClient,
    observed: &ObservedClient,
    policy: MatchPolicy,
) -> (r: Option<(i32, MatchKind)>)
    ensures
        value_view(r) == match_value(target@, observed@, policy),
{
    if is_match_allowed(target, observed, policy) {
        Some((score_of(target, observed), reason_of(target, observed)))
    } else {
        None
    }
}

} // verus!
